//! `amux list`: the agents as lines for fzf, and the pane that a selection names.
use vstd::prelude::*;

use crate::agent::{instances_view, status_label, AgentInstance, AgentInstanceView, AgentStatus};
use crate::error::AmuxError;
use crate::text::{chars_of, find_first, find_tail, join_with, push_str, str_eq, tail_count, trim, trim_range, CharClass};

verus! {

/// How an agent instance is shown: `[session > window] agent - status`.
pub open spec fn display_line(inst: AgentInstanceView) -> Seq<char> {
    "["@ + inst.pane.session_name + " > "@ + inst.pane.window_name + "] "@ + inst.provider_name
        + " - "@ + status_label(inst.status)
}

/// Format a single agent instance for display in fzf.
/// Format: `[session > window] agent - status`
pub fn format_line(instance: &AgentInstance) -> (r: String)
    ensures
        r@ == display_line(instance@),
{
    let mut r = String::new();
    push_str(&mut r, "[");
    push_str(&mut r, instance.pane.session_name.as_str());
    push_str(&mut r, " > ");
    push_str(&mut r, instance.pane.window_name.as_str());
    push_str(&mut r, "] ");
    push_str(&mut r, instance.provider_name);
    push_str(&mut r, " - ");
    push_str(&mut r, instance.status.label());
    r
}

/// The instances of `insts` that have status `s`, in order.
pub open spec fn having_status(insts: Seq<AgentInstanceView>, s: AgentStatus) -> Seq<AgentInstanceView>
    decreases insts.len(),
{
    if insts.len() == 0 {
        seq![]
    } else {
        let before = having_status(insts.drop_last(), s);
        if insts.last().status == s {
            before.push(insts.last())
        } else {
            before
        }
    }
}

/// The instances that `list` shows: those with the requested status, if one was
/// requested. An empty listing is an error only when no status was requested.
pub open spec fn listing(insts: Seq<AgentInstanceView>, filter: Option<AgentStatus>) -> Option<
    Seq<AgentInstanceView>,
> {
    let shown = match filter {
        Some(s) => having_status(insts, s),
        None => insts,
    };
    if shown.len() == 0 && filter is None {
        None
    } else {
        Some(shown)
    }
}

/// Keep the instances with the requested status, if one was requested; with none
/// requested, finding no agent at all is an error.
pub fn prepare_listing(instances: Vec<AgentInstance>, status_filter: Option<AgentStatus>) -> (r: Result<
    Vec<AgentInstance>,
    AmuxError,
>)
    ensures
        match listing(instances_view(instances@), status_filter) {
            Some(v) => r matches Ok(w) && instances_view(w@) == v,
            None => r matches Err(AmuxError::NoAgentsFound),
        },
{
    let ghost iv = instances_view(instances@);
    let shown = match status_filter {
        Some(s) => {
            let mut kept: Vec<AgentInstance> = Vec::new();
            let mut k: usize = 0;
            while k < instances.len()
                invariant
                    iv == instances_view(instances@),
                    0 <= k <= instances.len(),
                    instances_view(kept@) == having_status(iv.take(k as int), s),
                decreases instances.len() - k,
            {
                assert(iv.take(k + 1).drop_last() == iv.take(k as int));
                if instances[k].status == s {
                    let inst = instances[k].clone();
                    assert(instances_view(kept@.push(inst)) =~= instances_view(kept@).push(inst@));
                    kept.push(inst);
                }
                k = k + 1;
            }
            assert(iv.take(instances.len() as int) == iv);
            kept
        },
        None => instances,
    };
    if shown.len() == 0 && status_filter.is_none() {
        return Err(AmuxError::NoAgentsFound);
    }
    Ok(shown)
}

/// The line fed to fzf for an instance: its display line, a tab, and its pane id.
pub open spec fn fzf_line(inst: AgentInstanceView) -> Seq<char> {
    display_line(inst) + "\t"@ + inst.pane.pane_id
}

/// The input fed to fzf: one line per instance, separated by newlines.
pub open spec fn fzf_text(insts: Seq<AgentInstanceView>) -> Seq<char> {
    join_with(insts.map_values(|i: AgentInstanceView| fzf_line(i)), "\n"@)
}

/// Build the fzf input: each line is `<display>\t<pane_id>`, so that fzf can show the
/// display part alone and hand back the whole line on selection.
pub fn fzf_input(instances: &Vec<AgentInstance>) -> (r: String)
    ensures
        r@ == fzf_text(instances_view(instances@)),
{
    let ghost iv = instances_view(instances@);
    let mut r = String::new();
    let mut k: usize = 0;
    while k < instances.len()
        invariant
            iv == instances_view(instances@),
            0 <= k <= instances.len(),
            r@ == fzf_text(iv.take(k as int)),
        decreases instances.len() - k,
    {
        if k > 0 {
            push_str(&mut r, "\n");
        }
        let line = format_line(&instances[k]);
        push_str(&mut r, line.as_str());
        push_str(&mut r, "\t");
        push_str(&mut r, instances[k].pane.pane_id.as_str());
        proof {
            let lines = iv.take(k + 1).map_values(|i: AgentInstanceView| fzf_line(i));
            assert(lines.drop_last() =~= iv.take(k as int).map_values(|i: AgentInstanceView| fzf_line(i)));
            assert(lines.last() == fzf_line(iv[k as int]));
            if k == 0 {
                assert(lines.len() == 1);
                assert(r@ =~= lines[0]);
            } else {
                assert(r@ =~= fzf_text(iv.take(k as int)) + "\n"@ + lines.last());
            }
        }
        k = k + 1;
    }
    assert(iv.take(instances.len() as int) == iv);
    r
}

/// The pane id that an fzf selection names: what follows the last tab of the
/// selection, its surrounding whitespace removed.
pub open spec fn selected_pane_id(selection: Seq<char>) -> Seq<char> {
    let t = trim(selection);
    t.skip(t.len() - tail_count(t, CharClass::IsNot('\t')))
}

/// The index of the first instance in pane `id`.
pub open spec fn instance_in_pane(insts: Seq<AgentInstanceView>, id: Seq<char>, k: int) -> Option<int>
    decreases insts.len() - k,
{
    if k < 0 || k >= insts.len() {
        None
    } else if insts[k].pane.pane_id == id {
        Some(k)
    } else {
        instance_in_pane(insts, id, k + 1)
    }
}

/// Find the instance that an fzf selection names; a selection that names none
/// counts as no selection.
pub fn select_instance(instances: &Vec<AgentInstance>, selection: &str) -> (r: Result<
    AgentInstance,
    AmuxError,
>)
    ensures
        match instance_in_pane(instances_view(instances@), selected_pane_id(selection@), 0) {
            Some(k) => r == Ok::<AgentInstance, AmuxError>(instances@[k]),
            None => r matches Err(AmuxError::FzfNoSelection),
        },
{
    let v = chars_of(selection);
    let (t0, t1) = trim_range(&v, 0, v.len());
    let b = find_tail(&v, t0, t1, CharClass::IsNot('\t'));
    let mut id = String::new();
    crate::text::push_range(&mut id, &v, b, t1);
    proof {
        assert(v@.subrange(0, v.len() as int) == v@);
        let t = v@.subrange(t0 as int, t1 as int);
        assert(t.skip(t.len() - tail_count(t, CharClass::IsNot('\t'))) == v@.subrange(b as int, t1 as int));
        assert(id@ == selected_pane_id(selection@));
    }
    let ghost iv = instances_view(instances@);
    let mut k: usize = 0;
    while k < instances.len()
        invariant
            iv == instances_view(instances@),
            0 <= k <= instances.len(),
            id@ == selected_pane_id(selection@),
            instance_in_pane(iv, id@, 0) == instance_in_pane(iv, id@, k as int),
        decreases instances.len() - k,
    {
        if str_eq(instances[k].pane.pane_id.as_str(), id.as_str()) {
            let c = instances[k].clone();
            assert(c == instances@[k as int]);
            assert(instance_in_pane(iv, id@, k as int) == Some(k as int));
            return Ok(c);
        }
        k = k + 1;
    }
    Err(AmuxError::FzfNoSelection)
}

/// All the instances of a list of discoveries, in order, or the error of the first
/// discovery that failed.
pub open spec fn gathered(results: Seq<Result<Seq<AgentInstanceView>, AmuxError>>) -> Result<
    Seq<AgentInstanceView>,
    AmuxError,
>
    decreases results.len(),
{
    if results.len() == 0 {
        Ok(seq![])
    } else {
        match results[0] {
            Err(e) => Err(e),
            Ok(v) => match gathered(results.drop_first()) {
                Err(e) => Err(e),
                Ok(rest) => Ok(v + rest),
            },
        }
    }
}

/// Collect what each provider discovered, in order; the first failure ends the
/// listing with its error.
pub fn gather_instances(results: Vec<Result<Vec<AgentInstance>, AmuxError>>) -> (r: Result<
    Vec<AgentInstance>,
    AmuxError,
>)
    ensures
        match gathered(crate::cli::status::results_view(results@)) {
            Ok(v) => r matches Ok(w) && instances_view(w@) == v,
            Err(e) => r == Err::<Vec<AgentInstance>, AmuxError>(e),
        },
{
    let ghost rv = crate::cli::status::results_view(results@);
    let mut out: Vec<AgentInstance> = Vec::new();
    let mut pending = results;
    while pending.len() > 0
        invariant
            rv == crate::cli::status::results_view(results@),
            gathered(rv) == prepend_instances(
                instances_view(out@),
                gathered(crate::cli::status::results_view(pending@)),
            ),
        decreases pending.len(),
    {
        let ghost before = pending@;
        let first = pending.remove(0);
        proof {
            assert(crate::cli::status::results_view(before).drop_first() =~= crate::cli::status::results_view(
                pending@,
            ));
        }
        proof {
            assert(before[0] == first);
            assert(crate::cli::status::results_view(before)[0] == match first {
                Ok(v) => Ok(instances_view(v@)),
                Err(e) => Err::<Seq<AgentInstanceView>, AmuxError>(e),
            });
        }
        match first {
            Err(e) => {
                assert(gathered(crate::cli::status::results_view(before)) == Err::<Seq<AgentInstanceView>, AmuxError>(e));
                return Err(e);
            },
            Ok(v) => {
                let mut j: usize = 0;
                let ghost start = instances_view(out@);
                while j < v.len()
                    invariant
                        0 <= j <= v.len(),
                        instances_view(out@) == start + instances_view(v@).take(j as int),
                    decreases v.len() - j,
                {
                    let c = v[j].clone();
                    proof {
                        crate::agent::lemma_instances_view_push(out@, c);
                        assert(instances_view(v@).take(j + 1) =~= instances_view(v@).take(j as int).push(c@));
                    }
                    out.push(c);
                    assert(instances_view(out@) =~= start + instances_view(v@).take(j + 1));
                    j = j + 1;
                }
                proof {
                    assert(instances_view(v@).take(v.len() as int) == instances_view(v@));
                    match gathered(crate::cli::status::results_view(pending@)) {
                        Ok(rest) => {
                            assert(start + (instances_view(v@) + rest) =~= (start + instances_view(v@))
                                + rest);
                        },
                        Err(_) => {},
                    }
                }
            },
        }
    }
    proof {
        assert(instances_view(out@) + Seq::<AgentInstanceView>::empty() =~= instances_view(out@));
    }
    Ok(out)
}

/// `r` with `first` put before its instances.
pub open spec fn prepend_instances(
    first: Seq<AgentInstanceView>,
    r: Result<Seq<AgentInstanceView>, AmuxError>,
) -> Result<Seq<AgentInstanceView>, AmuxError> {
    match r {
        Ok(v) => Ok(first + v),
        Err(e) => Err(e),
    }
}


/// Filtering by status keeps exactly the instances with that status, in their order.
pub proof fn lemma_filtered_listing(insts: Seq<AgentInstanceView>, s: AgentStatus)
    ensures
        listing(insts, Some(s)) == Some(insts.filter(|x: AgentInstanceView| x.status == s)),
    decreases insts.len(),
{
    reveal_with_fuel(Seq::filter, 1);
    if insts.len() > 0 {
        lemma_filtered_listing(insts.drop_last(), s);
    }
    assert(having_status(insts, s) == insts.filter(|x: AgentInstanceView| x.status == s));
}

/// A pane id that survives the trip through fzf: not empty, without a tab, and
/// without whitespace at its end.
pub open spec fn selectable_pane_id(id: Seq<char>) -> bool {
    &&& id.len() > 0
    &&& !crate::text::has_char(id, '\t')
    &&& !crate::text::is_space(id.last())
}

/// Selecting the fzf line of an instance gives back an instance of the same pane: the
/// first listed in it, which is that instance itself when it is the first of its pane.
pub proof fn lemma_selection_round_trip(insts: Seq<AgentInstanceView>, i: int)
    requires
        0 <= i < insts.len(),
        selectable_pane_id(insts[i].pane.pane_id),
    ensures
        instance_in_pane(insts, selected_pane_id(fzf_line(insts[i])), 0) matches Some(k) && k <= i
            && insts[k].pane.pane_id == insts[i].pane.pane_id,
        crate::agent::first_of_pane(insts, i) ==> instance_in_pane(
            insts,
            selected_pane_id(fzf_line(insts[i])),
            0,
        ) == Some(i),
{
    let id = insts[i].pane.pane_id;
    lemma_selected_pane_id(insts[i]);
    lemma_instance_in_pane(insts, id, 0, i);
}

proof fn lemma_selected_pane_id(inst: AgentInstanceView)
    requires
        selectable_pane_id(inst.pane.pane_id),
    ensures
        selected_pane_id(fzf_line(inst)) == inst.pane.pane_id,
{
    let id = inst.pane.pane_id;
    let d = display_line(inst);
    let l = fzf_line(inst);
    reveal_strlit("[");
    reveal_strlit("\t");
    assert(l == d + "\t"@ + id);
    assert(d[0] == '[');
    assert(l[0] == '[');
    assert(!crate::text::is_space('['));
    crate::text::lemma_first_index_is(l, CharClass::NonSpace, 0);
    assert(crate::text::trim_start(l) =~= l);
    assert(l.last() == id.last());
    crate::text::lemma_tail_count_is(l, CharClass::Space, 0);
    assert(trim(l) =~= l);
    crate::text::lemma_first_index(id, CharClass::Is('\t'));
    assert forall|j: int| l.len() - id.len() <= j < l.len() implies crate::text::in_class(
        #[trigger] l[j],
        CharClass::IsNot('\t'),
    ) by {
        assert(l[j] == id[j - (l.len() - id.len())]);
    }
    assert(l[l.len() - id.len() - 1] == '\t');
    crate::text::lemma_tail_count_is(l, CharClass::IsNot('\t'), id.len() as int);
    assert(l.skip(l.len() - id.len()) =~= id);
}

proof fn lemma_instance_in_pane(insts: Seq<AgentInstanceView>, id: Seq<char>, k: int, i: int)
    requires
        0 <= k <= i < insts.len(),
        insts[i].pane.pane_id == id,
    ensures
        instance_in_pane(insts, id, k) matches Some(m) && k <= m <= i && insts[m].pane.pane_id == id,
        (forall|j: int| k <= j < i ==> #[trigger] insts[j].pane.pane_id != id) ==> instance_in_pane(
            insts,
            id,
            k,
        ) == Some(i),
    decreases i - k,
{
    if insts[k].pane.pane_id != id {
        lemma_instance_in_pane(insts, id, k + 1, i);
    }
}


/// The words shown for the statuses, and no two statuses share them.
pub proof fn lemma_status_labels(a: AgentStatus, b: AgentStatus)
    ensures
        status_label(AgentStatus::Running) == "running"@,
        status_label(AgentStatus::Idle) == "idle"@,
        status_label(AgentStatus::AwaitingInput) == "awaiting input"@,
        status_label(AgentStatus::Errored) == "errored"@,
        (status_label(a) == status_label(b)) == (a == b),
{
    reveal_strlit("running");
    reveal_strlit("idle");
    reveal_strlit("awaiting input");
    reveal_strlit("errored");
    if a != b {
        assert(status_label(a).len() != status_label(b).len() || status_label(a)[0] != status_label(b)[0]);
    }
}

/// The line of an instance ends with ` - ` and the words of its own status.
pub proof fn lemma_display_line_ends_with_status(inst: AgentInstanceView)
    ensures
        ({
            let l = display_line(inst);
            let tail = " - "@ + status_label(inst.status);
            tail.len() <= l.len() && l.skip(l.len() - tail.len()) == tail
        }),
{
    let l = display_line(inst);
    let tail = " - "@ + status_label(inst.status);
    let head = "["@ + inst.pane.session_name + " > "@ + inst.pane.window_name + "] "@ + inst.provider_name;
    assert(l == head + tail);
    assert(l.skip(l.len() - tail.len()) =~= tail);
}

/// Two instances of the same pane and provider show the same line exactly when they
/// have the same status: the line tells every status apart.
pub proof fn lemma_display_line_tells_status(a: AgentInstanceView, b: AgentInstanceView)
    requires
        a.pane == b.pane,
        a.provider_name == b.provider_name,
    ensures
        (display_line(a) == display_line(b)) == (a.status == b.status),
{
    lemma_status_labels(a.status, b.status);
    let head = "["@ + a.pane.session_name + " > "@ + a.pane.window_name + "] "@ + a.provider_name + " - "@;
    assert(display_line(a) == head + status_label(a.status));
    assert(display_line(b) == head + status_label(b.status));
    if display_line(a) == display_line(b) {
        assert(display_line(a).skip(head.len() as int) =~= status_label(a.status));
        assert(display_line(b).skip(head.len() as int) =~= status_label(b.status));
    }
}

} // verus!
