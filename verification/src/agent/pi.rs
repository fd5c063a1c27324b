//! Detection of Pi Coding Agent instances.
use vstd::prelude::*;

use crate::agent::process_table::{in_subtree, ProcessInfo, ProcessInfoView, ProcessTable, ProcessTableView};
use crate::agent::{
    detect_in_panes, detected, instances_view, AgentInstance, AgentInstanceView, AgentProvider,
    AgentStatus,
};
use crate::error::AmuxError;
use crate::text::{
    basename, basename_start, chars_of, pieces, range_eq, split_ws, str_eq, token_ranges,
};
use crate::tmux::{PaneInfo, PaneInfoView};

verus! {

/// Agent provider for Pi Coding Agent instances.
pub struct PiProvider;

/// One of the whitespace-separated tokens of `args` has the basename `pi` exactly, so
/// that paths such as `.../copilot.lua/copilot/...` do not count.
pub open spec fn args_have_pi(args: Seq<char>) -> bool {
    exists|i: int| 0 <= i < split_ws(args).len() && basename(#[trigger] split_ws(args)[i]) == "pi"@
}

/// Check whether `args` indicates a Pi Coding Agent invocation.
///
/// Pi's CLI sets `process.title = "pi"`, and the binary is named `pi`. When run via
/// Node/Bun the first token in args is the runtime, and a later token is the path
/// to the `pi` entry point (e.g. `/usr/local/bin/pi`).
pub fn args_contain_pi(args: &str) -> (r: bool)
    ensures
        r == args_have_pi(args@),
{
    let v = chars_of(args);
    let tokens = token_ranges(&v, 0, v.len());
    let ghost ts = split_ws(args@);
    assert(v@.subrange(0, v.len() as int) == v@);
    let mut k: usize = 0;
    while k < tokens.len()
        invariant
            v@ == args@,
            ts == split_ws(args@),
            pieces(v@, tokens@) == ts,
            crate::text::ranges_within(tokens@, v.len() as int),
            0 <= k <= tokens.len(),
            forall|i: int| 0 <= i < k ==> basename(#[trigger] ts[i]) != "pi"@,
        decreases tokens.len() - k,
    {
        let (a, e) = tokens[k];
        let b = basename_start(&v, a, e);
        proof {
            assert(ts[k as int] == v@.subrange(a as int, e as int));
        }
        if range_eq(&v, b, e, "pi") {
            return true;
        }
        k = k + 1;
    }
    false
}

/// A process is Pi when its name is `pi` (the compiled Bun binary), or when it is
/// `node` or `bun` running the `pi` entry point.
pub open spec fn is_pi_process(p: ProcessInfoView) -> bool {
    p.comm == "pi"@ || ((p.comm == "node"@ || p.comm == "bun"@) && args_have_pi(p.args))
}

impl AgentProvider for PiProvider {
    open spec fn spec_name(&self) -> Seq<char> {
        "pi"@
    }

    open spec fn detects(&self, p: ProcessInfoView) -> bool {
        is_pi_process(p)
    }

    fn name(&self) -> (r: &'static str) {
        "pi"
    }

    fn discover(&self, panes: &[PaneInfo], process_table: &ProcessTable) -> (r: Result<
        Vec<AgentInstance>,
        AmuxError,
    >) {
        let matcher = |info: &ProcessInfo| -> (r: bool)
            ensures
                r == is_pi_process(info@),
            {
                if str_eq(info.comm.as_str(), "pi") {
                    return true;
                }
                (str_eq(info.comm.as_str(), "node") || str_eq(info.comm.as_str(), "bun"))
                    && args_contain_pi(info.args.as_str())
            };
        let found = detect_in_panes(
            panes,
            process_table,
            &matcher,
            self.name(),
            Ghost(|p: ProcessInfoView| is_pi_process(p)),
        );
        proof {
            assert((|p: ProcessInfoView| is_pi_process(p)) =~= (|p: ProcessInfoView| self.detects(p)));
        }
        Ok(found)
    }
}


/// A process named `pi`, the compiled Bun binary, is Pi whatever its arguments.
pub proof fn lemma_pi_binary_is_pi(p: ProcessInfoView)
    requires
        p.comm == "pi"@,
    ensures
        PiProvider.detects(p),
{
}

/// Only processes named `pi`, `node` or `bun` are Pi.
pub proof fn lemma_pi_runs_as_pi_node_or_bun(p: ProcessInfoView)
    requires
        PiProvider.detects(p),
    ensures
        p.comm == "pi"@ || p.comm == "node"@ || p.comm == "bun"@,
{
}

/// Where a token stands in the arguments does not matter: a token in front of them
/// names the `pi` entry point exactly when its basename is `pi` or the arguments
/// already named it. So `node /usr/local/bin/pi` is Pi under node or bun.
pub proof fn lemma_pi_token_anywhere(tok: Seq<char>, args: Seq<char>)
    requires
        tok.len() > 0,
        forall|i: int| 0 <= i < tok.len() ==> !crate::text::is_space(#[trigger] tok[i]),
    ensures
        args_have_pi(tok + " "@ + args) == (basename(tok) == "pi"@ || args_have_pi(args)),
{
    crate::text::lemma_split_ws_prefix(tok, args);
    let all = split_ws(tok + " "@ + args);
    let rest = split_ws(args);
    assert(all == seq![tok] + rest);
    assert(all[0] == tok);
    if args_have_pi(args) {
        let i = choose|i: int| 0 <= i < rest.len() && basename(#[trigger] rest[i]) == "pi"@;
        assert(all[i + 1] == rest[i]);
    }
    if args_have_pi(tok + " "@ + args) {
        let i = choose|i: int| 0 <= i < all.len() && basename(#[trigger] all[i]) == "pi"@;
        if i > 0 {
            assert(rest[i - 1] == all[i]);
        }
    }
}

/// A lone argument token names the `pi` entry point exactly when its basename is `pi`.
pub proof fn lemma_pi_single_token(tok: Seq<char>)
    requires
        tok.len() > 0,
        forall|i: int| 0 <= i < tok.len() ==> !crate::text::is_space(#[trigger] tok[i]),
    ensures
        args_have_pi(tok) == (basename(tok) == "pi"@),
{
    crate::text::lemma_split_ws_single(tok);
    if basename(tok) == "pi"@ {
        assert(split_ws(tok)[0] == tok);
    }
}

/// A pane whose process tree holds a process named `pi` is reported as a Pi agent.
pub proof fn lemma_pi_pane_found(panes: Seq<PaneInfoView>, t: ProcessTableView, i: int, pid: u32)
    requires
        0 <= i < panes.len(),
        in_subtree(t.children, panes[i].pane_pid, pid),
        t.processes.contains_key(pid),
        t.processes[pid].comm == "pi"@,
    ensures
        detected(panes, t, |p: ProcessInfoView| PiProvider.detects(p), "pi"@).contains(
            AgentInstanceView { pane: panes[i], provider_name: "pi"@, status: AgentStatus::Idle },
        ),
{
    crate::agent::lemma_detected_finds_pane(
        panes,
        t,
        |p: ProcessInfoView| PiProvider.detects(p),
        "pi"@,
        i,
        pid,
    );
}

} // verus!
