//! `amux status`: a terse summary of all agents for the tmux statusline.
use vstd::prelude::*;

use crate::agent::{instances_view, AgentInstance, AgentInstanceView, AgentStatus};
use crate::error::AmuxError;
use crate::text::{join_with, push_str};

verus! {

/// What the statusline shows when tmux could not list its panes.
pub const TMUX_FAILURE_INDICATOR: &'static str = "#[fg=red]\u{26a0}";

/// The icon and color of a status.
pub open spec fn icon(status: AgentStatus) -> Seq<char> {
    match status {
        AgentStatus::Running => "#[fg=green]\u{25cf}"@,
        AgentStatus::Idle => "#[default]\u{25cb}"@,
        AgentStatus::AwaitingInput => "#[fg=yellow]\u{26a0}"@,
        AgentStatus::Errored => "#[fg=red]\u{2716}"@,
    }
}

/// Get the icon and color for a given agent status.
pub fn status_to_icon(status: &AgentStatus) -> (r: &'static str)
    ensures
        r@ == icon(*status),
{
    match status {
        AgentStatus::Running => "#[fg=green]\u{25cf}",
        AgentStatus::Idle => "#[default]\u{25cb}",
        AgentStatus::AwaitingInput => "#[fg=yellow]\u{26a0}",
        AgentStatus::Errored => "#[fg=red]\u{2716}",
    }
}

/// The icons of the statuses of `insts`.
pub open spec fn icons(insts: Seq<AgentInstanceView>) -> Seq<Seq<char>> {
    insts.map_values(|i: AgentInstanceView| icon(i.status))
}

/// The statusline summary of `insts`: nothing when there is no agent, else their
/// icons separated by spaces and followed by a color reset.
pub open spec fn status_summary(insts: Seq<AgentInstanceView>) -> Seq<char> {
    if insts.len() == 0 {
        seq![]
    } else {
        join_with(icons(insts), " "@) + "#[default]"@
    }
}

/// Format agent statuses as colored icons.
///
/// Output example: `#[fg=green]● #[default]○ #[fg=yellow]⚠#[default]`
pub fn format_status_summary(instances: &[AgentInstance]) -> (r: String)
    ensures
        r@ == status_summary(instances@.map_values(|i: AgentInstance| i@)),
{
    let ghost iv = instances@.map_values(|i: AgentInstance| i@);
    let mut r = String::new();
    if instances.len() == 0 {
        return r;
    }
    let mut k: usize = 0;
    while k < instances.len()
        invariant
            iv == instances@.map_values(|i: AgentInstance| i@),
            0 <= k <= instances.len(),
            r@ == join_with(icons(iv.take(k as int)), " "@),
        decreases instances.len() - k,
    {
        if k > 0 {
            push_str(&mut r, " ");
        }
        push_str(&mut r, status_to_icon(&instances[k].status));
        proof {
            let t = iv.take(k + 1);
            assert(icons(t).drop_last() =~= icons(iv.take(k as int)));
            assert(icons(t).last() == icon(instances@[k as int].status));
            if k == 0 {
                assert(icons(iv.take(0)) =~= Seq::<Seq<char>>::empty());
                assert(icons(t).len() == 1);
                assert(r@ =~= icons(t)[0]);
            }
        }
        k = k + 1;
    }
    push_str(&mut r, "#[default]");
    assert(iv.take(instances.len() as int) == iv);
    r
}

/// The instances of the discoveries that succeeded, in order.
pub open spec fn available(results: Seq<Result<Seq<AgentInstanceView>, AmuxError>>) -> Seq<
    AgentInstanceView,
>
    decreases results.len(),
{
    if results.len() == 0 {
        seq![]
    } else {
        available(results.drop_last()) + match results.last() {
            Ok(v) => v,
            Err(_) => seq![],
        }
    }
}

pub open spec fn results_view(results: Seq<Result<Vec<AgentInstance>, AmuxError>>) -> Seq<
    Result<Seq<AgentInstanceView>, AmuxError>,
> {
    results.map_values(
        |r: Result<Vec<AgentInstance>, AmuxError>|
            match r {
                Ok(v) => Ok(instances_view(v@)),
                Err(e) => Err(e),
            },
    )
}

/// Collect what each provider discovered, skipping the providers that failed.
pub fn gather_available_instances(results: Vec<Result<Vec<AgentInstance>, AmuxError>>) -> (r: Vec<
    AgentInstance,
>)
    ensures
        instances_view(r@) == available(results_view(results@)),
{
    let ghost rv = results_view(results@);
    let mut out: Vec<AgentInstance> = Vec::new();
    let mut k: usize = 0;
    let n = results.len();
    while k < n
        invariant
            n == results@.len(),
            rv == results_view(results@),
            0 <= k <= n,
            instances_view(out@) == available(rv.take(k as int)),
        decreases n - k,
    {
        assert(rv.take(k + 1).drop_last() == rv.take(k as int));
        match &results[k] {
            Ok(v) => {
                let mut j: usize = 0;
                let ghost before = instances_view(out@);
                while j < v.len()
                    invariant
                        0 <= j <= v.len(),
                        instances_view(out@) == before + instances_view(v@).take(j as int),
                    decreases v.len() - j,
                {
                    let c = v[j].clone();
                    proof {
                        crate::agent::lemma_instances_view_push(out@, c);
                        assert(instances_view(v@).take(j + 1) =~= instances_view(v@).take(j as int).push(c@));
                    }
                    out.push(c);
                    assert(instances_view(out@) =~= before + instances_view(v@).take(j + 1));
                    j = j + 1;
                }
                assert(instances_view(v@).take(v.len() as int) == instances_view(v@));
            },
            Err(_) => {
                assert(instances_view(out@) =~= instances_view(out@) + Seq::<AgentInstanceView>::empty());
            },
        }
        k = k + 1;
    }
    assert(rv.take(n as int) == rv);
    out
}


/// The icon of each status, and no two statuses share one.
pub proof fn lemma_status_icons(a: AgentStatus, b: AgentStatus)
    ensures
        icon(AgentStatus::Running) == "#[fg=green]\u{25cf}"@,
        icon(AgentStatus::Idle) == "#[default]\u{25cb}"@,
        icon(AgentStatus::AwaitingInput) == "#[fg=yellow]\u{26a0}"@,
        icon(AgentStatus::Errored) == "#[fg=red]\u{2716}"@,
        (icon(a) == icon(b)) == (a == b),
{
    reveal_strlit("#[fg=green]\u{25cf}");
    reveal_strlit("#[default]\u{25cb}");
    reveal_strlit("#[fg=yellow]\u{26a0}");
    reveal_strlit("#[fg=red]\u{2716}");
    if a != b {
        assert(icon(a).len() != icon(b).len() || icon(a)[5] != icon(b)[5] || icon(a)[4] != icon(b)[4]);
    }
}

/// The summary of one more instance is the summary before it with a space and that
/// instance's icon put before the closing color reset.
pub proof fn lemma_summary_push(insts: Seq<AgentInstanceView>, x: AgentInstanceView)
    requires
        insts.len() > 0,
    ensures
        status_summary(insts.push(x)) == join_with(icons(insts), " "@) + " "@ + icon(x.status)
            + "#[default]"@,
{
    assert(icons(insts.push(x)).drop_last() =~= icons(insts));
    assert(icons(insts.push(x)).last() == icon(x.status));
}

} // verus!
