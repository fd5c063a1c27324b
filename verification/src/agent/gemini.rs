//! Detection of Gemini CLI instances.
use vstd::prelude::*;

use crate::agent::process_table::{in_subtree, ProcessInfo, ProcessInfoView, ProcessTable, ProcessTableView};
use crate::agent::{
    detect_in_panes, detected, instances_view, AgentInstance, AgentInstanceView, AgentProvider,
    AgentStatus,
};
use crate::error::AmuxError;
use crate::text::{has_substring, str_contains, str_eq};
use crate::tmux::{PaneInfo, PaneInfoView};

verus! {

/// Agent provider for Gemini CLI instances.
pub struct GeminiProvider;

/// A process is Gemini CLI when its name is `gemini` (the standalone binary), or when
/// it is `node` running with `gemini` somewhere in its arguments.
pub open spec fn is_gemini_process(p: ProcessInfoView) -> bool {
    p.comm == "gemini"@ || (p.comm == "node"@ && has_substring(p.args, "gemini"@))
}

impl AgentProvider for GeminiProvider {
    open spec fn spec_name(&self) -> Seq<char> {
        "gemini"@
    }

    open spec fn detects(&self, p: ProcessInfoView) -> bool {
        is_gemini_process(p)
    }

    fn name(&self) -> (r: &'static str) {
        "gemini"
    }

    fn discover(&self, panes: &[PaneInfo], process_table: &ProcessTable) -> (r: Result<
        Vec<AgentInstance>,
        AmuxError,
    >) {
        let matcher = |info: &ProcessInfo| -> (r: bool)
            ensures
                r == is_gemini_process(info@),
            {
                if str_eq(info.comm.as_str(), "gemini") {
                    return true;
                }
                str_eq(info.comm.as_str(), "node") && str_contains(info.args.as_str(), "gemini")
            };
        let found = detect_in_panes(
            panes,
            process_table,
            &matcher,
            self.name(),
            Ghost(|p: ProcessInfoView| is_gemini_process(p)),
        );
        proof {
            assert((|p: ProcessInfoView| is_gemini_process(p)) =~= (|p: ProcessInfoView| self.detects(p)));
        }
        Ok(found)
    }
}


/// A process named `gemini`, the standalone binary, is Gemini CLI whatever its
/// arguments.
pub proof fn lemma_gemini_binary_is_gemini(p: ProcessInfoView)
    requires
        p.comm == "gemini"@,
    ensures
        GeminiProvider.detects(p),
{
}

/// A `node` process with `gemini` anywhere in its arguments is Gemini CLI.
pub proof fn lemma_gemini_under_node(p: ProcessInfoView, before: Seq<char>, after: Seq<char>)
    requires
        p.comm == "node"@,
        p.args == before + "gemini"@ + after,
    ensures
        GeminiProvider.detects(p),
{
    assert(p.args.subrange(before.len() as int, before.len() as int + "gemini"@.len()) =~= "gemini"@);
}

/// Only processes named `gemini` or `node` are Gemini CLI.
pub proof fn lemma_gemini_runs_as_gemini_or_node(p: ProcessInfoView)
    requires
        GeminiProvider.detects(p),
    ensures
        p.comm == "gemini"@ || p.comm == "node"@,
{
}

/// A pane whose process tree holds a process named `gemini` is reported as a Gemini
/// CLI agent.
pub proof fn lemma_gemini_pane_found(panes: Seq<PaneInfoView>, t: ProcessTableView, i: int, pid: u32)
    requires
        0 <= i < panes.len(),
        in_subtree(t.children, panes[i].pane_pid, pid),
        t.processes.contains_key(pid),
        t.processes[pid].comm == "gemini"@,
    ensures
        detected(panes, t, |p: ProcessInfoView| GeminiProvider.detects(p), "gemini"@).contains(
            AgentInstanceView { pane: panes[i], provider_name: "gemini"@, status: AgentStatus::Idle },
        ),
{
    crate::agent::lemma_detected_finds_pane(
        panes,
        t,
        |p: ProcessInfoView| GeminiProvider.detects(p),
        "gemini"@,
        i,
        pid,
    );
}

} // verus!
