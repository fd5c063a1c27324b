//! Agents: their statuses, the providers that detect them in tmux panes, and the
//! pass that attaches the statuses found in the shared per-pane status files.
pub mod amp;
pub mod codex;
pub mod gemini;
pub mod opencode;
pub mod pi;
pub mod process_table;
pub mod status_file;

use vstd::prelude::*;

use crate::agent::process_table::{
    process_entry, tree_has, ProcessInfo, ProcessInfoView, ProcessTable, ProcessTableView,
};
use crate::agent::status_file::{normalized, normalized_status, StatusFile, StatusFileView};
use crate::error::AmuxError;
use crate::text::str_eq;
use crate::tmux::{PaneInfo, PaneInfoView};

verus! {

/// The observed status of an agent instance.
#[derive(Debug, Clone, Copy, PartialEq, Eq, Structural)]
pub enum AgentStatus {
    /// Agent is actively processing (LLM call, tool execution).
    Running,
    /// Agent is running but not actively processing.
    Idle,
    /// Agent is waiting for user interaction (e.g., permission approval).
    AwaitingInput,
    /// Agent has encountered an error and is retrying.
    Errored,
}

/// The words in which a status is shown to the user.
pub open spec fn status_label(s: AgentStatus) -> Seq<char> {
    match s {
        AgentStatus::Running => "running"@,
        AgentStatus::Idle => "idle"@,
        AgentStatus::AwaitingInput => "awaiting input"@,
        AgentStatus::Errored => "errored"@,
    }
}

impl AgentStatus {
    /// The words in which this status is shown to the user.
    pub fn label(&self) -> (r: &'static str)
        ensures
            r@ == status_label(*self),
    {
        match self {
            AgentStatus::Running => "running",
            AgentStatus::Idle => "idle",
            AgentStatus::AwaitingInput => "awaiting input",
            AgentStatus::Errored => "errored",
        }
    }
}

/// A discovered agent instance tied to a specific tmux pane.
#[derive(Debug)]
pub struct AgentInstance {
    pub pane: PaneInfo,
    pub provider_name: &'static str,
    pub status: AgentStatus,
}

pub struct AgentInstanceView {
    pub pane: PaneInfoView,
    pub provider_name: Seq<char>,
    pub status: AgentStatus,
}

impl View for AgentInstance {
    type V = AgentInstanceView;

    open spec fn view(&self) -> AgentInstanceView {
        AgentInstanceView {
            pane: self.pane@,
            provider_name: self.provider_name@,
            status: self.status,
        }
    }
}

impl Clone for AgentInstance {
    fn clone(&self) -> (r: Self)
        ensures
            r == *self,
    {
        AgentInstance { pane: self.pane.clone(), provider_name: self.provider_name, status: self.status }
    }
}

pub open spec fn instances_view(v: Seq<AgentInstance>) -> Seq<AgentInstanceView> {
    v.map_values(|i: AgentInstance| i@)
}

pub proof fn lemma_instances_view_push(s: Seq<AgentInstance>, x: AgentInstance)
    ensures
        instances_view(s.push(x)) == instances_view(s).push(x@),
{
    assert(instances_view(s.push(x)) =~= instances_view(s).push(x@));
}

/// `inst` with its status replaced by `s`.
pub open spec fn with_status(inst: AgentInstanceView, s: AgentStatus) -> AgentInstanceView {
    AgentInstanceView { pane: inst.pane, provider_name: inst.provider_name, status: s }
}

/// The instances that a provider named `name`, detecting processes by `pred`, finds
/// in `panes`: one for each pane whose process tree holds a detected process, in
/// pane order, each with status `Idle`.
pub open spec fn detected(
    panes: Seq<PaneInfoView>,
    t: ProcessTableView,
    pred: spec_fn(ProcessInfoView) -> bool,
    name: Seq<char>,
) -> Seq<AgentInstanceView>
    decreases panes.len(),
{
    if panes.len() == 0 {
        seq![]
    } else {
        let before = detected(panes.drop_last(), t, pred, name);
        let p = panes.last();
        if tree_has(t, p.pane_pid, pred) {
            before.push(AgentInstanceView { pane: p, provider_name: name, status: AgentStatus::Idle })
        } else {
            before
        }
    }
}

/// Trait implemented by each agent type to provide discovery.
///
/// `Send + Sync` bounds allow providers to be shared across threads when callers run
/// discovery in parallel.
pub trait AgentProvider: Send + Sync {
    /// The provider's name.
    spec fn spec_name(&self) -> Seq<char>;

    /// Whether a process is one of this provider's agents.
    spec fn detects(&self, p: ProcessInfoView) -> bool;

    /// A human-readable name for this agent type.
    fn name(&self) -> (r: &'static str)
        ensures
            r@ == self.spec_name(),
    ;

    /// Scan the given tmux panes and return discovered agent instances. Discovery
    /// only detects: every instance has status `Idle`.
    fn discover(&self, panes: &[PaneInfo], process_table: &ProcessTable) -> (r: Result<
        Vec<AgentInstance>,
        AmuxError,
    >)
        ensures
            r matches Ok(v) && instances_view(v@) == detected(
                panes@.map_values(|p: PaneInfo| p@),
                process_table@,
                |p: ProcessInfoView| self.detects(p),
                self.spec_name(),
            ),
    ;
}

/// The instances that `matcher` detects in `panes`, named `name`.
pub(crate) fn detect_in_panes<F: Fn(&ProcessInfo) -> bool>(
    panes: &[PaneInfo],
    process_table: &ProcessTable,
    matcher: &F,
    name: &'static str,
    Ghost(pred): Ghost<spec_fn(ProcessInfoView) -> bool>,
) -> (r: Vec<AgentInstance>)
    requires
        forall|p: &ProcessInfo| #[trigger] matcher.requires((p,)),
        forall|p: &ProcessInfo, b: bool| #[trigger] matcher.ensures((p,), b) ==> b == pred(p@),
    ensures
        instances_view(r@) == detected(
            panes@.map_values(|p: PaneInfo| p@),
            process_table@,
            pred,
            name@,
        ),
{
    let ghost pv = panes@.map_values(|p: PaneInfo| p@);
    let ghost t = process_table@;
    let mut instances: Vec<AgentInstance> = Vec::new();
    let mut i: usize = 0;
    assert(pv.take(0) == Seq::<PaneInfoView>::empty());
    assert(instances_view(instances@) =~= Seq::<AgentInstanceView>::empty());
    while i < panes.len()
        invariant
            0 <= i <= panes.len(),
            pv == panes@.map_values(|p: PaneInfo| p@),
            t == process_table@,
            forall|p: &ProcessInfo| #[trigger] matcher.requires((p,)),
            forall|p: &ProcessInfo, b: bool| #[trigger] matcher.ensures((p,), b) ==> b == pred(p@),
            instances_view(instances@) == detected(pv.take(i as int), t, pred, name@),
        decreases panes.len() - i,
    {
        let pane = &panes[i];
        let found = process_table.has_process_in_tree(pane.pane_pid, matcher);
        proof {
            assert(pv.take(i + 1).drop_last() == pv.take(i as int));
            assert(pv.take(i + 1).last() == pane@);
            if found {
                let pid = choose|pid: u32|
                    #![trigger process_entry(process_table, pid)]
                    crate::agent::process_table::in_subtree(t.children, pane.pane_pid, pid)
                        && t.processes.contains_key(pid) && crate::agent::process_table::answers(
                        matcher,
                        &process_entry(process_table, pid),
                        true,
                    );
                process_table.lemma_entry(pid);
                assert(pred(t.processes[pid]));
                assert(tree_has(t, pane.pane_pid, pred));
            } else {
                assert forall|pid: u32|
                    #![trigger t.processes[pid]]
                    crate::agent::process_table::in_subtree(t.children, pane.pane_pid, pid)
                        && t.processes.contains_key(pid) implies !pred(t.processes[pid]) by {
                    process_table.lemma_entry(pid);
                    assert(crate::agent::process_table::answers(
                        matcher,
                        &process_entry(process_table, pid),
                        false,
                    ));
                }
                assert(!tree_has(t, pane.pane_pid, pred));
            }
        }
        if found {
            let inst = AgentInstance { pane: pane.clone(), provider_name: name, status: AgentStatus::Idle };
            proof {
                assert(instances_view(instances@.push(inst)) =~= instances_view(instances@).push(inst@));
            }
            instances.push(inst);
        }
        i = i + 1;
    }
    assert(pv.take(panes.len() as int) == pv);
    instances
}


/// No instance before the `i`-th is in the same pane.
pub open spec fn first_of_pane(insts: Seq<AgentInstanceView>, i: int) -> bool {
    forall|j: int| 0 <= j < i ==> #[trigger] insts[j].pane.pane_id != insts[i].pane.pane_id
}

pub open spec fn files_view(files: Seq<(String, StatusFile)>) -> Seq<(Seq<char>, StatusFileView)> {
    files.map_values(|e: (String, StatusFile)| (e.0@, e.1@))
}

/// The status file read for pane `id`: the first of `files[k..]` listed under that pane.
pub open spec fn status_file_from(files: Seq<(Seq<char>, StatusFileView)>, id: Seq<char>, k: int) -> Option<
    StatusFileView,
>
    decreases files.len() - k,
{
    if k < 0 || k >= files.len() {
        None
    } else if files[k].0 == id {
        Some(files[k].1)
    } else {
        status_file_from(files, id, k + 1)
    }
}

/// The index of the first of `insts[k..]` that is in pane `id` and was detected by
/// the provider named `provider`.
pub open spec fn detection_from(insts: Seq<AgentInstanceView>, id: Seq<char>, provider: Seq<char>, k: int) -> Option<
    int,
>
    decreases insts.len() - k,
{
    if k < 0 || k >= insts.len() {
        None
    } else if insts[k].pane.pane_id == id && insts[k].provider_name == provider {
        Some(k)
    } else {
        detection_from(insts, id, provider, k + 1)
    }
}

/// What the pane of the `i`-th instance is reported as: when a status file was read
/// for the pane, one of the pane's detections is by the provider the file names, and
/// the file's status is in the shared vocabulary, the first such detection with that
/// status; otherwise the `i`-th instance with status `Idle`.
pub open spec fn enriched(
    insts: Seq<AgentInstanceView>,
    files: Seq<(Seq<char>, StatusFileView)>,
    i: int,
) -> AgentInstanceView {
    let inst = insts[i];
    match status_file_from(files, inst.pane.pane_id, 0) {
        Some(f) => match (detection_from(insts, inst.pane.pane_id, f.provider, 0), normalized(f.status)) {
            (Some(k), Some(s)) => with_status(insts[k], s),
            _ => with_status(inst, AgentStatus::Idle),
        },
        None => with_status(inst, AgentStatus::Idle),
    }
}

/// The report of the first `n` instances: one entry for each pane, at the first
/// instance in it.
pub open spec fn enrich_prefix(
    insts: Seq<AgentInstanceView>,
    files: Seq<(Seq<char>, StatusFileView)>,
    n: int,
) -> Seq<AgentInstanceView>
    decreases n,
{
    if n <= 0 {
        seq![]
    } else {
        let before = enrich_prefix(insts, files, n - 1);
        if first_of_pane(insts, n - 1) {
            before.push(enriched(insts, files, n - 1))
        } else {
            before
        }
    }
}

/// The pane ids of the first `n` instances, each once, in order of first appearance.
pub open spec fn pane_ids_prefix(insts: Seq<AgentInstanceView>, n: int) -> Seq<Seq<char>>
    decreases n,
{
    if n <= 0 {
        seq![]
    } else {
        let before = pane_ids_prefix(insts, n - 1);
        if first_of_pane(insts, n - 1) {
            before.push(insts[n - 1].pane.pane_id)
        } else {
            before
        }
    }
}

/// Whether no instance before `instances[i]` is in its pane.
fn is_first_of_pane(instances: &Vec<AgentInstance>, i: usize) -> (r: bool)
    requires
        i < instances.len(),
    ensures
        r == first_of_pane(instances_view(instances@), i as int),
{
    let ghost iv = instances_view(instances@);
    let mut j: usize = 0;
    while j < i
        invariant
            i < instances.len(),
            iv == instances_view(instances@),
            0 <= j <= i,
            forall|m: int| 0 <= m < j ==> #[trigger] iv[m].pane.pane_id != iv[i as int].pane.pane_id,
        decreases i - j,
    {
        if str_eq(instances[j].pane.pane_id.as_str(), instances[i].pane.pane_id.as_str()) {
            assert(iv[j as int].pane.pane_id == iv[i as int].pane.pane_id);
            return false;
        }
        j = j + 1;
    }
    true
}

/// The index of the status file read for pane `id`.
fn find_status_file(files: &Vec<(String, StatusFile)>, id: &str) -> (r: Option<usize>)
    ensures
        match r {
            Some(k) => k < files.len() && status_file_from(files_view(files@), id@, 0) == Some(
                files_view(files@)[k as int].1,
            ),
            None => status_file_from(files_view(files@), id@, 0) is None,
        },
{
    let ghost fv = files_view(files@);
    let mut k: usize = 0;
    while k < files.len()
        invariant
            fv == files_view(files@),
            0 <= k <= files.len(),
            status_file_from(fv, id@, 0) == status_file_from(fv, id@, k as int),
        decreases files.len() - k,
    {
        if str_eq(files[k].0.as_str(), id) {
            return Some(k);
        }
        k = k + 1;
    }
    None
}

/// The index of the first instance in pane `id` detected by `provider`.
fn find_detection(instances: &Vec<AgentInstance>, id: &str, provider: &str) -> (r: Option<usize>)
    ensures
        match r {
            Some(k) => k < instances.len() && detection_from(instances_view(instances@), id@, provider@, 0)
                == Some(k as int),
            None => detection_from(instances_view(instances@), id@, provider@, 0) is None,
        },
{
    let ghost iv = instances_view(instances@);
    let mut k: usize = 0;
    while k < instances.len()
        invariant
            iv == instances_view(instances@),
            0 <= k <= instances.len(),
            detection_from(iv, id@, provider@, 0) == detection_from(iv, id@, provider@, k as int),
        decreases instances.len() - k,
    {
        if str_eq(instances[k].pane.pane_id.as_str(), id) && str_eq(instances[k].provider_name, provider) {
            return Some(k);
        }
        k = k + 1;
    }
    None
}

/// The pane ids of `instances`, each once, in order of first appearance: the panes
/// whose status files `enrich_detected_statuses` consults.
pub fn distinct_pane_ids(instances: &Vec<AgentInstance>) -> (r: Vec<String>)
    ensures
        r@.map_values(|s: String| s@) == pane_ids_prefix(
            instances_view(instances@),
            instances@.len() as int,
        ),
{
    let ghost iv = instances_view(instances@);
    let mut ids: Vec<String> = Vec::new();
    let mut i: usize = 0;
    while i < instances.len()
        invariant
            iv == instances_view(instances@),
            0 <= i <= instances.len(),
            ids@.map_values(|s: String| s@) == pane_ids_prefix(iv, i as int),
        decreases instances.len() - i,
    {
        if is_first_of_pane(instances, i) {
            let id = instances[i].pane.pane_id.clone();
            proof {
                assert(ids@.push(id).map_values(|s: String| s@) =~= ids@.map_values(|s: String| s@).push(id@));
            }
            ids.push(id);
        }
        i = i + 1;
    }
    ids
}

/// Attach statuses from the shared per-pane status files and de-duplicate panes.
///
/// Provider discovery is intentionally detection-only. `status_files` holds what was
/// read for panes, each under its pane id; the first entry of a pane counts. If a
/// pane was detected by multiple providers and its status file names one of them,
/// that provider wins and all non-matching detections are ignored. Panes without a
/// usable status file fall back to their first detection with `Idle` status.
pub fn enrich_detected_statuses(
    instances: Vec<AgentInstance>,
    status_files: &Vec<(String, StatusFile)>,
) -> (r: Vec<AgentInstance>)
    ensures
        instances_view(r@) == enrich_prefix(
            instances_view(instances@),
            files_view(status_files@),
            instances@.len() as int,
        ),
{
    let ghost iv = instances_view(instances@);
    let ghost fv = files_view(status_files@);
    let mut output: Vec<AgentInstance> = Vec::new();
    let mut i: usize = 0;
    while i < instances.len()
        invariant
            iv == instances_view(instances@),
            fv == files_view(status_files@),
            0 <= i <= instances.len(),
            instances_view(output@) == enrich_prefix(iv, fv, i as int),
        decreases instances.len() - i,
    {
        if is_first_of_pane(&instances, i) {
            let id = instances[i].pane.pane_id.as_str();
            let mut result = instances[i].clone();
            result.status = AgentStatus::Idle;
            match find_status_file(status_files, id) {
                Some(f) => {
                    let file = &status_files[f].1;
                    match find_detection(&instances, id, file.provider.as_str()) {
                        Some(k) => {
                            match normalized_status(file.status.as_str()) {
                                Some(s) => {
                                    result = instances[k].clone();
                                    result.status = s;
                                },
                                None => {},
                            }
                        },
                        None => {},
                    }
                },
                None => {},
            }
            proof {
                assert(result@ == enriched(iv, fv, i as int));
                assert(instances_view(output@.push(result)) =~= instances_view(output@).push(result@));
            }
            output.push(result);
        }
        i = i + 1;
    }
    output
}


proof fn lemma_detection_from(insts: Seq<AgentInstanceView>, id: Seq<char>, provider: Seq<char>, k: int)
    ensures
        detection_from(insts, id, provider, k) matches Some(j) ==> k <= j < insts.len()
            && insts[j].pane.pane_id == id && insts[j].provider_name == provider,
    decreases insts.len() - k,
{
    if 0 <= k < insts.len() && !(insts[k].pane.pane_id == id && insts[k].provider_name == provider) {
        lemma_detection_from(insts, id, provider, k + 1);
    }
}

proof fn lemma_status_file_from(files: Seq<(Seq<char>, StatusFileView)>, id: Seq<char>, k: int)
    ensures
        status_file_from(files, id, k) matches Some(f) ==> exists|j: int|
            k <= j < files.len() && #[trigger] files[j] == (id, f),
    decreases files.len() - k,
{
    if 0 <= k < files.len() {
        if files[k].0 == id {
            assert(files[k] == (id, files[k].1));
        } else {
            lemma_status_file_from(files, id, k + 1);
        }
    }
}

/// The reported instance for the `i`-th detection is a detection in the same pane,
/// with a status other than `Idle` only when the pane's status file names the
/// provider of that detection and that status.
proof fn lemma_enriched(
    insts: Seq<AgentInstanceView>,
    files: Seq<(Seq<char>, StatusFileView)>,
    i: int,
)
    requires
        0 <= i < insts.len(),
    ensures
        enriched(insts, files, i).pane.pane_id == insts[i].pane.pane_id,
        exists|k: int|
            0 <= k < insts.len() && enriched(insts, files, i) == with_status(
                #[trigger] insts[k],
                enriched(insts, files, i).status,
            ),
        enriched(insts, files, i).status == AgentStatus::Idle || (status_file_from(
            files,
            insts[i].pane.pane_id,
            0,
        ) matches Some(f) && f.provider == enriched(insts, files, i).provider_name && normalized(
            f.status,
        ) == Some(enriched(insts, files, i).status)),
{
    let inst = insts[i];
    match status_file_from(files, inst.pane.pane_id, 0) {
        Some(f) => {
            lemma_detection_from(insts, inst.pane.pane_id, f.provider, 0);
            match (detection_from(insts, inst.pane.pane_id, f.provider, 0), normalized(f.status)) {
                (Some(k), Some(s)) => {
                    assert(enriched(insts, files, i) == with_status(insts[k], s));
                },
                _ => {
                    assert(enriched(insts, files, i) == with_status(insts[i], AgentStatus::Idle));
                },
            }
        },
        None => {
            assert(enriched(insts, files, i) == with_status(insts[i], AgentStatus::Idle));
        },
    }
}

proof fn lemma_pane_ids_prefix(insts: Seq<AgentInstanceView>, n: int)
    requires
        0 <= n <= insts.len(),
    ensures
        pane_ids_prefix(insts, n).no_duplicates(),
        forall|j: int|
            0 <= j < pane_ids_prefix(insts, n).len() ==> exists|i: int|
                0 <= i < n && #[trigger] pane_ids_prefix(insts, n)[j] == insts[i].pane.pane_id,
        forall|i: int| 0 <= i < n ==> pane_ids_prefix(insts, n).contains(#[trigger] insts[i].pane.pane_id),
    decreases n,
{
    if n > 0 {
        lemma_pane_ids_prefix(insts, n - 1);
        let before = pane_ids_prefix(insts, n - 1);
        let id = insts[n - 1].pane.pane_id;
        let now = pane_ids_prefix(insts, n);
        if first_of_pane(insts, n - 1) {
            assert(!before.contains(id)) by {
                if before.contains(id) {
                    let j = choose|j: int| 0 <= j < before.len() && before[j] == id;
                    let i = choose|i: int| 0 <= i < n - 1 && #[trigger] before[j] == insts[i].pane.pane_id;
                    assert(insts[i].pane.pane_id != insts[n - 1].pane.pane_id);
                }
            }
            assert forall|j: int| 0 <= j < now.len() implies exists|i: int|
                0 <= i < n && #[trigger] now[j] == insts[i].pane.pane_id by {
                if j < before.len() {
                    assert(now[j] == before[j]);
                } else {
                    assert(now[j] == insts[n - 1].pane.pane_id);
                }
            }
            assert forall|i: int| 0 <= i < n implies now.contains(#[trigger] insts[i].pane.pane_id) by {
                if i < n - 1 {
                    let j = choose|j: int| 0 <= j < before.len() && before[j] == insts[i].pane.pane_id;
                    assert(now[j] == before[j]);
                } else {
                    assert(now[before.len() as int] == id);
                }
            }
        } else {
            assert forall|i: int| 0 <= i < n implies now.contains(#[trigger] insts[i].pane.pane_id) by {
                if i == n - 1 {
                    let j = choose|j: int| 0 <= j < n - 1 && #[trigger] insts[j].pane.pane_id == insts[n - 1].pane.pane_id;
                    assert(before.contains(insts[j].pane.pane_id));
                }
            }
        }
    }
}

proof fn lemma_enrich_prefix(insts: Seq<AgentInstanceView>, files: Seq<(Seq<char>, StatusFileView)>, n: int)
    requires
        0 <= n <= insts.len(),
    ensures
        enrich_prefix(insts, files, n).map_values(|x: AgentInstanceView| x.pane.pane_id)
            == pane_ids_prefix(insts, n),
        forall|j: int|
            0 <= j < enrich_prefix(insts, files, n).len() ==> exists|i: int|
                0 <= i < n && #[trigger] enrich_prefix(insts, files, n)[j] == enriched(insts, files, i),
    decreases n,
{
    if n > 0 {
        lemma_enrich_prefix(insts, files, n - 1);
        let before = enrich_prefix(insts, files, n - 1);
        let now = enrich_prefix(insts, files, n);
        if first_of_pane(insts, n - 1) {
            lemma_enriched(insts, files, n - 1);
            assert(now.map_values(|x: AgentInstanceView| x.pane.pane_id) =~= before.map_values(
                |x: AgentInstanceView| x.pane.pane_id,
            ).push(insts[n - 1].pane.pane_id));
            assert forall|j: int| 0 <= j < now.len() implies exists|i: int|
                0 <= i < n && #[trigger] now[j] == enriched(insts, files, i) by {
                if j < before.len() {
                    assert(now[j] == before[j]);
                } else {
                    assert(now[j] == enriched(insts, files, n - 1));
                }
            }
        }
    }
}

/// The report holds one instance per pane: its panes are those of the detections,
/// each once, in the order of their first detection.
pub proof fn lemma_enrich_one_per_pane(
    insts: Seq<AgentInstanceView>,
    files: Seq<(Seq<char>, StatusFileView)>,
)
    ensures
        enrich_prefix(insts, files, insts.len() as int).map_values(
            |x: AgentInstanceView| x.pane.pane_id,
        ) == pane_ids_prefix(insts, insts.len() as int),
        pane_ids_prefix(insts, insts.len() as int).no_duplicates(),
        forall|i: int|
            0 <= i < insts.len() ==> pane_ids_prefix(insts, insts.len() as int).contains(
                #[trigger] insts[i].pane.pane_id,
            ),
{
    lemma_enrich_prefix(insts, files, insts.len() as int);
    lemma_pane_ids_prefix(insts, insts.len() as int);
}

/// Each reported instance is one of the detections, with its status replaced; the
/// status is `Idle` unless the status file read for the pane names the provider of
/// that detection, in which case it is the file's status.
pub proof fn lemma_enrich_status_source(
    insts: Seq<AgentInstanceView>,
    files: Seq<(Seq<char>, StatusFileView)>,
    j: int,
)
    requires
        0 <= j < enrich_prefix(insts, files, insts.len() as int).len(),
    ensures
        ({
            let out = enrich_prefix(insts, files, insts.len() as int)[j];
            &&& exists|k: int| 0 <= k < insts.len() && out == with_status(#[trigger] insts[k], out.status)
            &&& out.status == AgentStatus::Idle || (status_file_from(files, out.pane.pane_id, 0) matches Some(
                f,
            ) && f.provider == out.provider_name && normalized(f.status) == Some(out.status))
        }),
{
    lemma_enrich_prefix(insts, files, insts.len() as int);
    let out = enrich_prefix(insts, files, insts.len() as int)[j];
    let i = choose|i: int|
        0 <= i < insts.len() && #[trigger] enrich_prefix(insts, files, insts.len() as int)[j]
            == enriched(insts, files, i);
    lemma_enriched(insts, files, i);
}

proof fn lemma_first_of_pane_exists(insts: Seq<AgentInstanceView>, i: int) -> (m: int)
    requires
        0 <= i < insts.len(),
    ensures
        0 <= m <= i,
        first_of_pane(insts, m),
        insts[m].pane.pane_id == insts[i].pane.pane_id,
    decreases i,
{
    if first_of_pane(insts, i) {
        i
    } else {
        let j = choose|j: int| 0 <= j < i && #[trigger] insts[j].pane.pane_id == insts[i].pane.pane_id;
        lemma_first_of_pane_exists(insts, j)
    }
}

proof fn lemma_enrich_prefix_has(
    insts: Seq<AgentInstanceView>,
    files: Seq<(Seq<char>, StatusFileView)>,
    m: int,
    n: int,
)
    requires
        0 <= m < n <= insts.len(),
        first_of_pane(insts, m),
    ensures
        enrich_prefix(insts, files, n).contains(enriched(insts, files, m)),
    decreases n,
{
    let now = enrich_prefix(insts, files, n);
    let before = enrich_prefix(insts, files, n - 1);
    if m == n - 1 {
        assert(now[before.len() as int] == enriched(insts, files, m));
    } else {
        lemma_enrich_prefix_has(insts, files, m, n - 1);
        let j = choose|j: int| 0 <= j < before.len() && before[j] == enriched(insts, files, m);
        assert(now[j] == before[j]);
    }
}

proof fn lemma_detection_found(insts: Seq<AgentInstanceView>, id: Seq<char>, provider: Seq<char>, k: int, start: int)
    requires
        0 <= start <= k < insts.len(),
        insts[k].pane.pane_id == id,
        insts[k].provider_name == provider,
    ensures
        detection_from(insts, id, provider, start) is Some,
    decreases k - start,
{
    if !(insts[start].pane.pane_id == id && insts[start].provider_name == provider) {
        lemma_detection_found(insts, id, provider, k, start + 1);
    }
}

/// When the status file read for a pane names one of the providers that detected an
/// agent there, and its status is in the shared vocabulary, the report shows that
/// pane as that provider's, with the file's status.
pub proof fn lemma_enrich_named_provider_wins(
    insts: Seq<AgentInstanceView>,
    files: Seq<(Seq<char>, StatusFileView)>,
    k: int,
)
    requires
        0 <= k < insts.len(),
        status_file_from(files, insts[k].pane.pane_id, 0) matches Some(f) && f.provider
            == insts[k].provider_name && normalized(f.status) is Some,
    ensures
        ({
            let f = status_file_from(files, insts[k].pane.pane_id, 0)->Some_0;
            let out = enrich_prefix(insts, files, insts.len() as int);
            exists|j: int|
                0 <= j < out.len() && (#[trigger] out[j]).pane.pane_id == insts[k].pane.pane_id
                    && out[j].provider_name == f.provider && normalized(f.status) == Some(out[j].status)
        }),
{
    let id = insts[k].pane.pane_id;
    let f = status_file_from(files, id, 0)->Some_0;
    let out = enrich_prefix(insts, files, insts.len() as int);
    let m = lemma_first_of_pane_exists(insts, k);
    lemma_detection_found(insts, id, f.provider, k, 0);
    lemma_detection_from(insts, id, f.provider, 0);
    let d = detection_from(insts, id, f.provider, 0)->Some_0;
    let s = normalized(f.status)->Some_0;
    assert(enriched(insts, files, m) == with_status(insts[d], s));
    lemma_enrich_prefix_has(insts, files, m, insts.len() as int);
    let j = choose|j: int| 0 <= j < out.len() && out[j] == enriched(insts, files, m);
    assert(out[j].pane.pane_id == id);
}

/// A pane whose process tree holds a process that the provider detects is reported,
/// as that provider's and `Idle`.
pub proof fn lemma_detected_finds_pane(
    panes: Seq<PaneInfoView>,
    t: ProcessTableView,
    pred: spec_fn(ProcessInfoView) -> bool,
    name: Seq<char>,
    i: int,
    pid: u32,
)
    requires
        0 <= i < panes.len(),
        crate::agent::process_table::in_subtree(t.children, panes[i].pane_pid, pid),
        t.processes.contains_key(pid),
        pred(t.processes[pid]),
    ensures
        detected(panes, t, pred, name).contains(
            AgentInstanceView { pane: panes[i], provider_name: name, status: AgentStatus::Idle },
        ),
    decreases panes.len(),
{
    let inst = AgentInstanceView { pane: panes[i], provider_name: name, status: AgentStatus::Idle };
    let before = detected(panes.drop_last(), t, pred, name);
    let now = detected(panes, t, pred, name);
    if i == panes.len() - 1 {
        assert(tree_has(t, panes[i].pane_pid, pred));
        assert(now == before.push(inst));
        assert(now[before.len() as int] == inst);
    } else {
        assert(panes.drop_last()[i] == panes[i]);
        lemma_detected_finds_pane(panes.drop_last(), t, pred, name, i, pid);
        let j = choose|j: int| 0 <= j < before.len() && before[j] == inst;
        assert(now[j] == before[j]);
    }
}

/// Discovery only detects: every instance a provider finds carries its name and the
/// status `Idle`, and is in one of the given panes.
pub proof fn lemma_detected_idle(
    panes: Seq<PaneInfoView>,
    t: ProcessTableView,
    pred: spec_fn(ProcessInfoView) -> bool,
    name: Seq<char>,
)
    ensures
        detected(panes, t, pred, name).len() <= panes.len(),
        forall|i: int|
            0 <= i < detected(panes, t, pred, name).len() ==> {
                &&& (#[trigger] detected(panes, t, pred, name)[i]).status == AgentStatus::Idle
                &&& detected(panes, t, pred, name)[i].provider_name == name
                &&& panes.contains(detected(panes, t, pred, name)[i].pane)
            },
    decreases panes.len(),
{
    if panes.len() > 0 {
        lemma_detected_idle(panes.drop_last(), t, pred, name);
        let before = detected(panes.drop_last(), t, pred, name);
        let now = detected(panes, t, pred, name);
        assert forall|i: int| 0 <= i < now.len() implies {
            &&& (#[trigger] now[i]).status == AgentStatus::Idle
            &&& now[i].provider_name == name
            &&& panes.contains(now[i].pane)
        } by {
            if i < before.len() {
                assert(now[i] == before[i]);
                let j = choose|j: int| 0 <= j < panes.len() - 1 && panes.drop_last()[j] == before[i].pane;
                assert(panes[j] == panes.drop_last()[j]);
            } else {
                assert(now[i].pane == panes[panes.len() - 1]);
            }
        }
    }
}

/// One of the registered providers.
pub enum AnyProvider {
    Amp(amp::AmpProvider),
    Codex(codex::CodexProvider),
    Gemini(gemini::GeminiProvider),
    OpenCode(opencode::OpenCodeProvider),
    Pi(pi::PiProvider),
}

impl AgentProvider for AnyProvider {
    open spec fn spec_name(&self) -> Seq<char> {
        match self {
            AnyProvider::Amp(p) => p.spec_name(),
            AnyProvider::Codex(p) => p.spec_name(),
            AnyProvider::Gemini(p) => p.spec_name(),
            AnyProvider::OpenCode(p) => p.spec_name(),
            AnyProvider::Pi(p) => p.spec_name(),
        }
    }

    open spec fn detects(&self, info: ProcessInfoView) -> bool {
        match self {
            AnyProvider::Amp(p) => p.detects(info),
            AnyProvider::Codex(p) => p.detects(info),
            AnyProvider::Gemini(p) => p.detects(info),
            AnyProvider::OpenCode(p) => p.detects(info),
            AnyProvider::Pi(p) => p.detects(info),
        }
    }

    fn name(&self) -> (r: &'static str) {
        match self {
            AnyProvider::Amp(p) => p.name(),
            AnyProvider::Codex(p) => p.name(),
            AnyProvider::Gemini(p) => p.name(),
            AnyProvider::OpenCode(p) => p.name(),
            AnyProvider::Pi(p) => p.name(),
        }
    }

    fn discover(&self, panes: &[PaneInfo], process_table: &ProcessTable) -> (r: Result<
        Vec<AgentInstance>,
        AmuxError,
    >) {
        let r = match self {
            AnyProvider::Amp(p) => p.discover(panes, process_table),
            AnyProvider::Codex(p) => p.discover(panes, process_table),
            AnyProvider::Gemini(p) => p.discover(panes, process_table),
            AnyProvider::OpenCode(p) => p.discover(panes, process_table),
            AnyProvider::Pi(p) => p.discover(panes, process_table),
        };
        proof {
            let mine = |info: ProcessInfoView| self.detects(info);
            match self {
                AnyProvider::Amp(p) => {
                    assert(mine =~= (|info: ProcessInfoView| p.detects(info)));
                },
                AnyProvider::Codex(p) => {
                    assert(mine =~= (|info: ProcessInfoView| p.detects(info)));
                },
                AnyProvider::Gemini(p) => {
                    assert(mine =~= (|info: ProcessInfoView| p.detects(info)));
                },
                AnyProvider::OpenCode(p) => {
                    assert(mine =~= (|info: ProcessInfoView| p.detects(info)));
                },
                AnyProvider::Pi(p) => {
                    assert(mine =~= (|info: ProcessInfoView| p.detects(info)));
                },
            }
        }
        r
    }
}

/// The names of the registered providers, in order.
pub open spec fn provider_names() -> Seq<Seq<char>> {
    seq!["amp"@, "codex"@, "gemini"@, "opencode"@, "pi"@]
}

/// Returns all registered agent providers: Amp, Codex, Gemini CLI, OpenCode and Pi,
/// in that order.
pub fn all_providers() -> (r: Vec<AnyProvider>)
    ensures
        r@.len() == 5,
        r@[0] is Amp,
        r@[1] is Codex,
        r@[2] is Gemini,
        r@[3] is OpenCode,
        r@[4] is Pi,
        forall|i: int| 0 <= i < 5 ==> #[trigger] r@[i].spec_name() == provider_names()[i],
{
    let mut r: Vec<AnyProvider> = Vec::new();
    r.push(AnyProvider::Amp(amp::AmpProvider));
    r.push(AnyProvider::Codex(codex::CodexProvider));
    r.push(AnyProvider::Gemini(gemini::GeminiProvider));
    r.push(AnyProvider::OpenCode(opencode::OpenCodeProvider));
    r.push(AnyProvider::Pi(pi::PiProvider));
    r
}

} // verus!
