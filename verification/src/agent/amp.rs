//! Detection of Amp instances.
use vstd::prelude::*;

use crate::agent::process_table::{ProcessInfo, ProcessInfoView, ProcessTable};
use crate::agent::{detect_in_panes, detected, instances_view, AgentInstance, AgentProvider};
use crate::error::AmuxError;
use crate::text::str_eq;
use crate::tmux::PaneInfo;

verus! {

/// Agent provider for Amp instances.
pub struct AmpProvider;

/// A process is Amp when its name is `amp`.
pub open spec fn is_amp_process(p: ProcessInfoView) -> bool {
    p.comm == "amp"@
}

impl AgentProvider for AmpProvider {
    open spec fn spec_name(&self) -> Seq<char> {
        "amp"@
    }

    open spec fn detects(&self, p: ProcessInfoView) -> bool {
        is_amp_process(p)
    }

    fn name(&self) -> (r: &'static str) {
        "amp"
    }

    fn discover(&self, panes: &[PaneInfo], process_table: &ProcessTable) -> (r: Result<
        Vec<AgentInstance>,
        AmuxError,
    >) {
        let matcher = |info: &ProcessInfo| -> (r: bool)
            ensures
                r == is_amp_process(info@),
            { str_eq(info.comm.as_str(), "amp") };
        let found = detect_in_panes(
            panes,
            process_table,
            &matcher,
            self.name(),
            Ghost(|p: ProcessInfoView| is_amp_process(p)),
        );
        proof {
            assert((|p: ProcessInfoView| is_amp_process(p)) =~= (|p: ProcessInfoView| self.detects(p)));
        }
        Ok(found)
    }
}

} // verus!
