//! Detection of OpenCode instances.
use vstd::prelude::*;

use crate::agent::process_table::{ProcessInfo, ProcessInfoView, ProcessTable};
use crate::agent::{detect_in_panes, detected, instances_view, AgentInstance, AgentProvider};
use crate::error::AmuxError;
use crate::text::{starts_with, str_starts_with};
use crate::tmux::PaneInfo;

verus! {

/// Agent provider for OpenCode instances.
pub struct OpenCodeProvider;

/// A process is OpenCode when its name starts with `opencode`: the binary itself, or
/// the platform-specific one (`opencode-darwin-arm64`) that npm and bun installs start.
pub open spec fn is_opencode_process(p: ProcessInfoView) -> bool {
    starts_with(p.comm, "opencode"@)
}

impl AgentProvider for OpenCodeProvider {
    open spec fn spec_name(&self) -> Seq<char> {
        "opencode"@
    }

    open spec fn detects(&self, p: ProcessInfoView) -> bool {
        is_opencode_process(p)
    }

    fn name(&self) -> (r: &'static str) {
        "opencode"
    }

    fn discover(&self, panes: &[PaneInfo], process_table: &ProcessTable) -> (r: Result<
        Vec<AgentInstance>,
        AmuxError,
    >) {
        let matcher = |info: &ProcessInfo| -> (r: bool)
            ensures
                r == is_opencode_process(info@),
            { str_starts_with(info.comm.as_str(), "opencode") };
        let found = detect_in_panes(
            panes,
            process_table,
            &matcher,
            self.name(),
            Ghost(|p: ProcessInfoView| is_opencode_process(p)),
        );
        proof {
            assert((|p: ProcessInfoView| is_opencode_process(p)) =~= (|p: ProcessInfoView| self.detects(p)));
        }
        Ok(found)
    }
}

} // verus!
