//! Detection of Codex CLI instances.
use vstd::prelude::*;

use crate::agent::process_table::{ProcessInfo, ProcessInfoView, ProcessTable};
use crate::agent::{detect_in_panes, detected, instances_view, AgentInstance, AgentProvider, AgentStatus};
use crate::error::AmuxError;
use crate::text::{
    basename, basename_start, chars_of, pieces, range_eq, range_starts_with, split_ws,
    starts_with, str_eq, str_starts_with, token_ranges,
};
use crate::tmux::PaneInfo;

verus! {

/// Agent provider for Codex CLI instances.
pub struct CodexProvider;

/// The status that a word of the Codex hook's vocabulary stands for.
pub open spec fn codex_status(status: Seq<char>) -> Option<AgentStatus> {
    if status == "busy"@ || status == "running"@ {
        Some(AgentStatus::Running)
    } else if status == "idle"@ {
        Some(AgentStatus::Idle)
    } else if status == "awaiting_input"@ {
        Some(AgentStatus::AwaitingInput)
    } else if status == "errored"@ {
        Some(AgentStatus::Errored)
    } else {
        None
    }
}

/// Map a status word written by the Codex hook to an `AgentStatus`.
pub fn map_codex_status(status: &str) -> (r: Option<AgentStatus>)
    ensures
        r == codex_status(status@),
{
    if str_eq(status, "busy") || str_eq(status, "running") {
        Some(AgentStatus::Running)
    } else if str_eq(status, "idle") {
        Some(AgentStatus::Idle)
    } else if str_eq(status, "awaiting_input") {
        Some(AgentStatus::AwaitingInput)
    } else if str_eq(status, "errored") {
        Some(AgentStatus::Errored)
    } else {
        None
    }
}

/// A name that Codex runs under: `codex`, or `codex-` followed by a platform suffix.
pub open spec fn codex_name(name: Seq<char>) -> bool {
    name == "codex"@ || starts_with(name, "codex-"@)
}

/// A process is Codex when its name is a Codex name, or when one of the
/// whitespace-separated tokens of its arguments has a Codex name as its basename.
pub open spec fn codex_process(comm: Seq<char>, args: Seq<char>) -> bool {
    codex_name(comm) || exists|i: int|
        0 <= i < split_ws(args).len() && codex_name(basename(#[trigger] split_ws(args)[i]))
}

/// Return whether a process with name `comm` and arguments `args` is Codex.
pub fn is_codex_process(comm: &str, args: &str) -> (r: bool)
    ensures
        r == codex_process(comm@, args@),
{
    if str_eq(comm, "codex") || str_starts_with(comm, "codex-") {
        return true;
    }
    let v = chars_of(args);
    let tokens = token_ranges(&v, 0, v.len());
    let ghost ts = split_ws(args@);
    assert(v@.subrange(0, v.len() as int) == v@);
    let mut k: usize = 0;
    while k < tokens.len()
        invariant
            v@ == args@,
            ts == split_ws(args@),
            pieces(v@, tokens@) == ts,
            crate::text::ranges_within(tokens@, v.len() as int),
            0 <= k <= tokens.len(),
            forall|i: int| 0 <= i < k ==> !codex_name(basename(#[trigger] ts[i])),
        decreases tokens.len() - k,
    {
        let (a, e) = tokens[k];
        let b = basename_start(&v, a, e);
        proof {
            assert(ts[k as int] == v@.subrange(a as int, e as int));
        }
        if range_eq(&v, b, e, "codex") || range_starts_with(&v, b, e, "codex-") {
            return true;
        }
        k = k + 1;
    }
    false
}

/// The Codex names, written out: `codex` itself or `codex-` and a suffix.
pub open spec fn named_codex(name: Seq<char>) -> bool {
    name == "codex"@ || (name.len() >= 6 && name.take(6) == "codex-"@)
}

proof fn lemma_named_codex(name: Seq<char>)
    ensures
        codex_name(name) == named_codex(name),
{
    reveal_strlit("codex-");
}

/// Without arguments, a process is Codex exactly when its name is a Codex name.
pub proof fn lemma_codex_without_args(comm: Seq<char>)
    ensures
        codex_process(comm, Seq::empty()) == (comm == "codex"@ || (comm.len() >= 6 && comm.take(6)
            == "codex-"@)),
{
    lemma_named_codex(comm);
    crate::text::lemma_first_index(Seq::<char>::empty(), crate::text::CharClass::NonSpace);
    assert(split_ws(Seq::<char>::empty()) =~= Seq::<Seq<char>>::empty());
}

/// A lone argument token makes a process Codex when its basename is a Codex name.
pub proof fn lemma_codex_single_token(comm: Seq<char>, tok: Seq<char>)
    requires
        tok.len() > 0,
        forall|i: int| 0 <= i < tok.len() ==> !crate::text::is_space(#[trigger] tok[i]),
    ensures
        codex_process(comm, tok) == (named_codex(comm) || named_codex(basename(tok))),
{
    lemma_named_codex(comm);
    lemma_named_codex(basename(tok));
    crate::text::lemma_split_ws_single(tok);
    if codex_name(basename(tok)) {
        assert(split_ws(tok)[0] == tok);
    }
}

/// Where a token stands in the arguments does not matter: putting a token in front
/// of them makes the process Codex exactly when that token's basename is a Codex name
/// or the process already was Codex. So `node /usr/local/bin/codex` is Codex, as
/// `/usr/local/bin/codex` is.
pub proof fn lemma_codex_token_anywhere(comm: Seq<char>, tok: Seq<char>, args: Seq<char>)
    requires
        tok.len() > 0,
        forall|i: int| 0 <= i < tok.len() ==> !crate::text::is_space(#[trigger] tok[i]),
    ensures
        codex_process(comm, tok + " "@ + args) == (named_codex(basename(tok)) || codex_process(
            comm,
            args,
        )),
{
    lemma_named_codex(basename(tok));
    crate::text::lemma_split_ws_prefix(tok, args);
    let all = split_ws(tok + " "@ + args);
    let rest = split_ws(args);
    assert(all == seq![tok] + rest);
    assert(all[0] == tok);
    if exists|i: int| 0 <= i < rest.len() && codex_name(basename(#[trigger] rest[i])) {
        let i = choose|i: int| 0 <= i < rest.len() && codex_name(basename(#[trigger] rest[i]));
        assert(all[i + 1] == rest[i]);
    }
    if exists|i: int| 0 <= i < all.len() && codex_name(basename(#[trigger] all[i])) {
        let i = choose|i: int| 0 <= i < all.len() && codex_name(basename(#[trigger] all[i]));
        if i > 0 {
            assert(rest[i - 1] == all[i]);
        }
    }
}

/// A process that the Codex provider detects.
pub open spec fn is_codex_info(p: ProcessInfoView) -> bool {
    codex_process(p.comm, p.args)
}

impl AgentProvider for CodexProvider {
    open spec fn spec_name(&self) -> Seq<char> {
        "codex"@
    }

    open spec fn detects(&self, p: ProcessInfoView) -> bool {
        is_codex_info(p)
    }

    fn name(&self) -> (r: &'static str) {
        "codex"
    }

    fn discover(&self, panes: &[PaneInfo], process_table: &ProcessTable) -> (r: Result<
        Vec<AgentInstance>,
        AmuxError,
    >) {
        let matcher = |info: &ProcessInfo| -> (r: bool)
            ensures
                r == is_codex_info(info@),
            { is_codex_process(info.comm.as_str(), info.args.as_str()) };
        let found = detect_in_panes(
            panes,
            process_table,
            &matcher,
            self.name(),
            Ghost(|p: ProcessInfoView| is_codex_info(p)),
        );
        proof {
            assert((|p: ProcessInfoView| is_codex_info(p)) =~= (|p: ProcessInfoView| self.detects(p)));
        }
        Ok(found)
    }
}

} // verus!
