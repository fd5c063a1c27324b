//! A snapshot of the system process table, as `ps -eo pid,ppid,comm,args` prints
//! it, indexed for walks down the process tree.
use std::collections::HashMap;
use std::collections::HashSet;
use vstd::prelude::*;

use crate::text::{
    basename, basename_start, chars_of, find_first, first_index, has_char, in_class,
    lemma_first_index, line_ranges, lines, parse_u32, parse_u32_range, pieces, ranges_within,
    split_ws, string_of_range, trim_start, trim_start_index, CharClass,
};

verus! {

broadcast use vstd::std_specs::hash::group_hash_axioms;

/// Information about a single process.
#[derive(Debug)]
pub struct ProcessInfo {
    /// Process ID.
    pub pid: u32,
    /// Parent process ID.
    pub ppid: u32,
    /// Basename of the executable. Derived from the `comm` column; falls back to the
    /// basename of the first token in `args` when `comm` holds a path, which macOS
    /// truncates.
    pub comm: String,
    /// Full command-line arguments.
    pub args: String,
}

pub struct ProcessInfoView {
    pub pid: u32,
    pub ppid: u32,
    pub comm: Seq<char>,
    pub args: Seq<char>,
}

impl View for ProcessInfo {
    type V = ProcessInfoView;

    open spec fn view(&self) -> ProcessInfoView {
        ProcessInfoView { pid: self.pid, ppid: self.ppid, comm: self.comm@, args: self.args@ }
    }
}

impl Clone for ProcessInfo {
    fn clone(&self) -> (r: Self)
        ensures
            r == *self,
    {
        ProcessInfo {
            pid: self.pid,
            ppid: self.ppid,
            comm: self.comm.clone(),
            args: self.args.clone(),
        }
    }
}

/// A snapshot of the system process table.
#[derive(Debug)]
pub struct ProcessTable {
    /// Maps PID to process info.
    processes: HashMap<u32, ProcessInfo>,
    /// Maps parent PID to the PIDs of its children, in the order `ps` listed them.
    children: HashMap<u32, Vec<u32>>,
}

/// The process table as maps of plain values.
pub struct ProcessTableView {
    pub processes: Map<u32, ProcessInfoView>,
    pub children: Map<u32, Seq<u32>>,
}

impl View for ProcessTable {
    type V = ProcessTableView;

    closed spec fn view(&self) -> ProcessTableView {
        ProcessTableView {
            processes: self.processes@.map_values(|p: ProcessInfo| p@),
            children: self.children@.map_values(|k: Vec<u32>| k@),
        }
    }
}

/// `path` walks down the tree: each process on it is a child of the one before.
pub open spec fn is_tree_path(children: Map<u32, Seq<u32>>, path: Seq<u32>) -> bool {
    &&& path.len() > 0
    &&& forall|i: int|
        #![trigger path[i]]
        0 <= i < path.len() - 1 ==> children.contains_key(path[i]) && children[path[i]].contains(
            path[i + 1],
        )
}

/// `pid` lies in the subtree rooted at `root` (`root` itself included).
pub open spec fn in_subtree(children: Map<u32, Seq<u32>>, root: u32, pid: u32) -> bool {
    exists|path: Seq<u32>|
        #![trigger is_tree_path(children, path)]
        is_tree_path(children, path) && path[0] == root && path.last() == pid
}

/// Some process in the subtree rooted at `root` satisfies `pred`.
pub open spec fn tree_has(t: ProcessTableView, root: u32, pred: spec_fn(ProcessInfoView) -> bool) -> bool {
    exists|pid: u32|
        #![trigger t.processes[pid]]
        in_subtree(t.children, root, pid) && t.processes.contains_key(pid) && pred(t.processes[pid])
}


/// A child of a process in the subtree rooted at `root` is in that subtree too.
pub proof fn lemma_subtree_child(children: Map<u32, Seq<u32>>, root: u32, pid: u32, j: int)
    requires
        in_subtree(children, root, pid),
        children.contains_key(pid),
        0 <= j < children[pid].len(),
    ensures
        in_subtree(children, root, children[pid][j]),
{
    let path = choose|path: Seq<u32>|
        #![trigger is_tree_path(children, path)]
        is_tree_path(children, path) && path[0] == root && path.last() == pid;
    let kid = children[pid][j];
    let longer = path.push(kid);
    assert(children[pid].contains(kid));
    assert forall|i: int| #![trigger longer[i]] 0 <= i < longer.len() - 1 implies children.contains_key(
        longer[i],
    ) && children[longer[i]].contains(longer[i + 1]) by {
        if i < path.len() - 1 {
            assert(longer[i] == path[i]);
            assert(longer[i + 1] == path[i + 1]);
        } else {
            assert(longer[i] == pid);
            assert(longer[i + 1] == kid);
        }
    }
    assert(is_tree_path(children, longer));
    assert(longer[0] == root);
}


proof fn lemma_path_prefix_in_closed_set(
    children: Map<u32, Seq<u32>>,
    path: Seq<u32>,
    s: Set<u32>,
    i: int,
)
    requires
        is_tree_path(children, path),
        0 <= i < path.len(),
        s.contains(path[0]),
        forall|x: u32, j: int|
            #![trigger s.contains(x), children[x][j]]
            s.contains(x) && children.contains_key(x) && 0 <= j < children[x].len() ==> s.contains(
                children[x][j],
            ),
    ensures
        s.contains(path[i]),
    decreases i,
{
    if i > 0 {
        lemma_path_prefix_in_closed_set(children, path, s, i - 1);
        let p = path[i - 1];
        assert(children.contains_key(p) && children[p].contains(path[i]));
        let j = choose|j: int| 0 <= j < children[p].len() && children[p][j] == path[i];
        assert(s.contains(children[p][j]));
    }
}

/// Every process in the subtree rooted at `root` lies in a set that holds `root`
/// and, with each of its processes, all the children of that process.
pub proof fn lemma_subtree_in_closed_set(
    children: Map<u32, Seq<u32>>,
    root: u32,
    pid: u32,
    s: Set<u32>,
)
    requires
        in_subtree(children, root, pid),
        s.contains(root),
        forall|x: u32, j: int|
            #![trigger s.contains(x), children[x][j]]
            s.contains(x) && children.contains_key(x) && 0 <= j < children[x].len() ==> s.contains(
                children[x][j],
            ),
    ensures
        s.contains(pid),
{
    let path = choose|path: Seq<u32>|
        #![trigger is_tree_path(children, path)]
        is_tree_path(children, path) && path[0] == root && path.last() == pid;
    lemma_path_prefix_in_closed_set(children, path, s, path.len() - 1);
}

/// The process that a line of `ps -eo pid,ppid,comm,args` output describes, the
/// line's leading whitespace removed: the first two whitespace-separated fields are
/// the pid and the parent pid; the third is `comm`, of which the basename is kept,
/// unless it holds a `/` (a path that may have been truncated) and `args` has a
/// first token, whose basename is kept then; the rest of the line is `args`.
pub open spec fn process_line(line: Seq<char>) -> Option<ProcessInfoView> {
    let i1 = first_index(line, CharClass::Space);
    let rest1 = trim_start(line.skip(i1 + 1));
    let i2 = first_index(rest1, CharClass::Space);
    let rest2 = trim_start(rest1.skip(i2 + 1));
    let i3 = first_index(rest2, CharClass::Space);
    let comm = rest2.take(i3);
    let args = if i3 < rest2.len() {
        trim_start(rest2.skip(i3 + 1))
    } else {
        Seq::<char>::empty()
    };
    let tokens = split_ws(args);
    let name = if has_char(comm, '/') && tokens.len() > 0 {
        basename(tokens[0])
    } else {
        basename(comm)
    };
    if i1 >= line.len() || i2 >= rest1.len() {
        None
    } else {
        match (parse_u32(line.take(i1)), parse_u32(rest1.take(i2))) {
            (Some(pid), Some(ppid)) => Some(
                ProcessInfoView { pid: pid, ppid: ppid, comm: name, args: args },
            ),
            _ => None,
        }
    }
}

/// The processes that the lines `ls` describe, in order; blank lines and lines that
/// describe no process are skipped.
pub open spec fn process_entries(ls: Seq<Seq<char>>) -> Seq<ProcessInfoView>
    decreases ls.len(),
{
    if ls.len() == 0 {
        seq![]
    } else {
        let before = process_entries(ls.drop_last());
        let line = trim_start(ls.last());
        if line.len() == 0 {
            before
        } else {
            match process_line(line) {
                Some(p) => before.push(p),
                None => before,
            }
        }
    }
}

/// The table that holds the processes `es`: each pid maps to the last of them with
/// that pid, and each parent pid to the pids of its children in order.
pub open spec fn table_of(es: Seq<ProcessInfoView>) -> ProcessTableView
    decreases es.len(),
{
    if es.len() == 0 {
        ProcessTableView { processes: Map::empty(), children: Map::empty() }
    } else {
        let t = table_of(es.drop_last());
        let e = es.last();
        let kids = if t.children.contains_key(e.ppid) {
            t.children[e.ppid]
        } else {
            seq![]
        };
        ProcessTableView {
            processes: t.processes.insert(e.pid, e),
            children: t.children.insert(e.ppid, kids.push(e.pid)),
        }
    }
}

/// The lines of `ps` output after its header line.
pub open spec fn data_lines(ls: Seq<Seq<char>>) -> Seq<Seq<char>> {
    if ls.len() == 0 {
        ls
    } else {
        ls.drop_first()
    }
}

/// The table that the output of `ps -eo pid,ppid,comm,args` describes.
pub open spec fn ps_table(text: Seq<char>) -> ProcessTableView {
    table_of(process_entries(data_lines(lines(text))))
}

/// The shape of a table: each process is stored under its own pid and listed among
/// the children of its parent, and every listed child is a process of the table.
pub open spec fn well_shaped(t: ProcessTableView) -> bool {
    &&& forall|k: u32|
        #[trigger] t.processes.contains_key(k) ==> t.processes[k].pid == k && t.children.contains_key(
            t.processes[k].ppid,
        ) && t.children[t.processes[k].ppid].contains(k)
    &&& forall|q: u32, j: int|
        t.children.contains_key(q) && 0 <= j < t.children[q].len() ==> t.processes.contains_key(
            #[trigger] t.children[q][j],
        )
}

/// Every table built from rows is well shaped, whichever rows repeat a pid.
pub proof fn lemma_table_of_shape(es: Seq<ProcessInfoView>)
    ensures
        well_shaped(table_of(es)),
    decreases es.len(),
{
    if es.len() > 0 {
        lemma_table_of_shape(es.drop_last());
        let t = table_of(es.drop_last());
        let e = es.last();
        let kids = if t.children.contains_key(e.ppid) {
            t.children[e.ppid]
        } else {
            seq![]
        };
        let now = table_of(es);
        assert(now.processes == t.processes.insert(e.pid, e));
        assert(now.children == t.children.insert(e.ppid, kids.push(e.pid)));
        assert forall|k: u32| #[trigger] now.processes.contains_key(k) implies now.processes[k].pid == k
            && now.children.contains_key(now.processes[k].ppid) && now.children[now.processes[k].ppid].contains(
            k,
        ) by {
            if k == e.pid {
                assert(kids.push(e.pid)[kids.len() as int] == k);
            } else {
                let q = t.processes[k].ppid;
                assert(t.processes.contains_key(k));
                if q == e.ppid {
                    let j = choose|j: int| 0 <= j < t.children[q].len() && t.children[q][j] == k;
                    assert(kids.push(e.pid)[j] == k);
                }
            }
        }
        assert forall|q: u32, j: int|
            now.children.contains_key(q) && 0 <= j < now.children[q].len() implies now.processes.contains_key(
            #[trigger] now.children[q][j],
        ) by {
            if q == e.ppid {
                if j < kids.len() {
                    assert(now.children[q][j] == kids[j]);
                    assert(t.processes.contains_key(t.children[q][j]));
                }
            } else {
                assert(t.processes.contains_key(t.children[q][j]));
            }
        }
    }
}

/// The table that `ps` output describes is well shaped: a row that parses is stored
/// under its pid (a later row with the same pid wins) and listed under its parent.
pub proof fn lemma_ps_table_shape(text: Seq<char>)
    ensures
        well_shaped(ps_table(text)),
{
    lemma_table_of_shape(process_entries(data_lines(lines(text))));
}

/// `matcher` may answer `r` when asked about `p`.
pub open spec fn answers<F: Fn(&ProcessInfo) -> bool>(matcher: &F, p: &ProcessInfo, r: bool) -> bool {
    matcher.ensures((p,), r)
}

/// The process entry of `pid` as stored in the table.
pub closed spec fn process_entry(t: &ProcessTable, pid: u32) -> ProcessInfo {
    t.processes@[pid]
}

impl ProcessTable {
    #[verifier::type_invariant]
    closed spec fn children_are_known(self) -> bool {
        forall|k: u32, j: int|
            #![trigger self.children@[k]@[j]]
            self.children@.contains_key(k) && 0 <= j < self.children@[k]@.len()
                ==> self.processes@.contains_key(self.children@[k]@[j])
    }

    /// The stored entry of a process in the table is what the view shows of it.
    pub proof fn lemma_entry(&self, pid: u32)
        ensures
            self@.processes.contains_key(pid) ==> process_entry(self, pid)@
                == self@.processes[pid],
    {
    }

    /// Create an empty process table.
    pub fn empty() -> (t: ProcessTable)
        ensures
            t@.processes == Map::<u32, ProcessInfoView>::empty(),
            t@.children == Map::<u32, Seq<u32>>::empty(),
    {
        let t = ProcessTable { processes: HashMap::new(), children: HashMap::new() };
        assert(t@.processes =~= Map::<u32, ProcessInfoView>::empty());
        assert(t@.children =~= Map::<u32, Seq<u32>>::empty());
        t
    }


    /// Every process in `stack` is in `visited`, and none is there twice.
    spec fn stack_ok(visited: Set<u32>, stack: Seq<u32>) -> bool {
        &&& stack.no_duplicates()
        &&& forall|i: int| 0 <= i < stack.len() ==> visited.contains(#[trigger] stack[i])
    }

    /// Every process in `visited` lies in the subtree rooted at `root`.
    spec fn all_in_subtree(&self, root: u32, visited: Set<u32>) -> bool {
        forall|x: u32| #[trigger] visited.contains(x) ==> in_subtree(self@.children, root, x)
    }

    /// All the children of `x` are in `visited`.
    spec fn kids_visited(&self, visited: Set<u32>, x: u32) -> bool {
        forall|j: int|
            #![trigger self.children@[x]@[j]]
            self.children@.contains_key(x) && 0 <= j < self.children@[x]@.len() ==> visited.contains(
                self.children@[x]@[j],
            )
    }

    /// `matcher` answered `false` for the process `x`, if the table knows it.
    spec fn rejected<F: Fn(&ProcessInfo) -> bool>(&self, matcher: &F, x: u32) -> bool {
        self.processes@.contains_key(x) ==> matcher.ensures((&self.processes@[x],), false)
    }

    /// Mark the children of `pid` that were not visited yet, and push them on the stack.
    fn visit_children(
        &self,
        root_pid: u32,
        pid: u32,
        visited: &mut HashSet<u32>,
        stack: &mut Vec<u32>,
    )
        requires
            old(visited)@.subset_of(self.processes@.dom().insert(root_pid)),
            Self::stack_ok(old(visited)@, old(stack)@),
            self.all_in_subtree(root_pid, old(visited)@),
            old(visited)@.contains(pid),
            !old(stack)@.contains(pid),
        ensures
            old(visited)@.subset_of(final(visited)@),
            final(visited)@.subset_of(self.processes@.dom().insert(root_pid)),
            Self::stack_ok(final(visited)@, final(stack)@),
            self.all_in_subtree(root_pid, final(visited)@),
            self.kids_visited(final(visited)@, pid),
            final(visited)@.len() - old(visited)@.len() == final(stack)@.len() - old(stack)@.len(),
            old(stack)@.len() <= final(stack)@.len(),
            final(stack)@.subrange(0, old(stack)@.len() as int) == old(stack)@,
            forall|x: u32|
                #[trigger] final(visited)@.contains(x) && !final(stack)@.contains(x) ==> old(
                    visited,
                )@.contains(x) && !old(stack)@.contains(x),
    {
        proof {
            use_type_invariant(self);
        }
        let ghost bound = self.processes@.dom().insert(root_pid);
        let ghost v0 = visited@;
        let ghost s0 = stack@;
        match self.children.get(&pid) {
            Some(kids) => {
                let mut j: usize = 0;
                while j < kids.len()
                    invariant
                        bound == self.processes@.dom().insert(root_pid),
                        self.children@.contains_key(pid),
                        kids@ == self.children@[pid]@,
                        0 <= j <= kids.len(),
                        v0.subset_of(visited@),
                        visited@.subset_of(bound),
                        v0.contains(pid),
                        !s0.contains(pid),
                        v0.finite(),
                        visited@.len() - v0.len() == stack@.len() - s0.len(),
                        s0.len() <= stack@.len(),
                        stack@.subrange(0, s0.len() as int) == s0,
                        Self::stack_ok(visited@, stack@),
                        self.all_in_subtree(root_pid, visited@),
                        forall|m: int| 0 <= m < j ==> visited@.contains(#[trigger] kids@[m]),
                        forall|x: u32|
                            #[trigger] visited@.contains(x) && !stack@.contains(x) ==> v0.contains(x)
                                && !s0.contains(x),
                        forall|k: u32, m: int|
                            #![trigger self.children@[k]@[m]]
                            self.children@.contains_key(k) && 0 <= m < self.children@[k]@.len()
                                ==> self.processes@.contains_key(self.children@[k]@[m]),
                    decreases kids.len() - j,
                {
                    let kid = kids[j];
                    proof {
                        assert(kid == self.children@[pid]@[j as int]);
                        assert(self.processes@.contains_key(kid));
                    }
                    if !visited.contains(&kid) {
                        let ghost vb = visited@;
                        let ghost sb = stack@;
                        visited.insert(kid);
                        stack.push(kid);
                        proof {
                            vstd::set_lib::lemma_len_subset(vb, bound);
                            assert(visited@.len() == vb.len() + 1);
                            assert(self@.children[pid] == self.children@[pid]@);
                            lemma_subtree_child(self@.children, root_pid, pid, j as int);
                            assert(stack@.subrange(0, s0.len() as int) =~= sb.subrange(
                                0,
                                s0.len() as int,
                            ));
                            assert forall|i: int, l: int|
                                0 <= i < stack@.len() && 0 <= l < stack@.len() && i != l implies stack@[i]
                                != stack@[l] by {
                                if i < sb.len() && l < sb.len() {
                                    assert(sb[i] == stack@[i] && sb[l] == stack@[l]);
                                } else if i < sb.len() {
                                    assert(vb.contains(sb[i]));
                                } else if l < sb.len() {
                                    assert(vb.contains(sb[l]));
                                }
                            }
                            assert forall|i: int|
                                0 <= i < stack@.len() implies visited@.contains(#[trigger] stack@[i]) by {
                                if i < sb.len() {
                                    assert(stack@[i] == sb[i]);
                                }
                            }
                            assert forall|x: u32|
                                #[trigger] visited@.contains(x) && !stack@.contains(x) implies v0.contains(
                                x,
                            ) && !s0.contains(x) by {
                                if sb.contains(x) {
                                    let i = choose|i: int| 0 <= i < sb.len() && sb[i] == x;
                                    assert(stack@[i] == x);
                                }
                                if x == kid {
                                    assert(stack@[stack@.len() - 1] == kid);
                                }
                            }
                        }
                    }
                    j = j + 1;
                }
            },
            None => {},
        }
    }

    /// What holds of the walk down the tree at each step: every visited process is
    /// in the subtree; the ones no longer on the stack were rejected by `matcher`
    /// and had their children visited.
    #[verifier::opaque]
    spec fn walk_inv<F: Fn(&ProcessInfo) -> bool>(
        &self,
        root: u32,
        matcher: &F,
        visited: Set<u32>,
        stack: Seq<u32>,
    ) -> bool {
        &&& visited.subset_of(self.processes@.dom().insert(root))
        &&& visited.contains(root)
        &&& Self::stack_ok(visited, stack)
        &&& self.all_in_subtree(root, visited)
        &&& forall|x: u32|
            #[trigger] visited.contains(x) && !stack.contains(x) ==> self.rejected(matcher, x)
                && self.kids_visited(visited, x)
    }

    proof fn lemma_walk_start<F: Fn(&ProcessInfo) -> bool>(&self, root: u32, matcher: &F)
        ensures
            self.walk_inv(root, matcher, set![root], seq![root]),
    {
        reveal(ProcessTable::walk_inv);
        let path = seq![root];
        assert(is_tree_path(self@.children, path));
        assert(in_subtree(self@.children, root, root));
        assert(seq![root][0] == root);
    }

    proof fn lemma_walk_pop<F: Fn(&ProcessInfo) -> bool>(
        &self,
        root: u32,
        matcher: &F,
        visited: Set<u32>,
        stack: Seq<u32>,
    )
        requires
            self.walk_inv(root, matcher, visited, stack),
            stack.len() > 0,
        ensures
            visited.subset_of(self.processes@.dom().insert(root)),
            Self::stack_ok(visited, stack.drop_last()),
            self.all_in_subtree(root, visited),
            visited.contains(stack.last()),
            !stack.drop_last().contains(stack.last()),
            in_subtree(self@.children, root, stack.last()),
    {
        reveal(ProcessTable::walk_inv);
        let pid = stack.last();
        let rest = stack.drop_last();
        assert(visited.contains(stack[stack.len() - 1]));
        assert(!rest.contains(pid)) by {
            if rest.contains(pid) {
                let i = choose|i: int| 0 <= i < rest.len() && rest[i] == pid;
                assert(stack[i] == stack[stack.len() - 1]);
            }
        }
        assert forall|i: int| 0 <= i < rest.len() implies visited.contains(#[trigger] rest[i]) by {
            assert(rest[i] == stack[i]);
        }
    }

    proof fn lemma_walk_step<F: Fn(&ProcessInfo) -> bool>(
        &self,
        root: u32,
        matcher: &F,
        v0: Set<u32>,
        s0: Seq<u32>,
        v1: Set<u32>,
        s1: Seq<u32>,
    )
        requires
            self.walk_inv(root, matcher, v0, s0),
            s0.len() > 0,
            self.rejected(matcher, s0.last()),
            v0.subset_of(v1),
            v1.subset_of(self.processes@.dom().insert(root)),
            Self::stack_ok(v1, s1),
            self.all_in_subtree(root, v1),
            self.kids_visited(v1, s0.last()),
            forall|x: u32|
                #[trigger] v1.contains(x) && !s1.contains(x) ==> v0.contains(x)
                    && !s0.drop_last().contains(x),
        ensures
            self.walk_inv(root, matcher, v1, s1),
    {
        reveal(ProcessTable::walk_inv);
        let pid = s0.last();
        assert forall|x: u32| #[trigger] v1.contains(x) && !s1.contains(x) implies self.rejected(
            matcher,
            x,
        ) && self.kids_visited(v1, x) by {
            if x != pid {
                assert(!s0.contains(x)) by {
                    if s0.contains(x) {
                        let i = choose|i: int| 0 <= i < s0.len() && s0[i] == x;
                        assert(s0.drop_last()[i] == x);
                    }
                }
                assert(v0.contains(x));
                assert(self.kids_visited(v0, x));
            }
        }
    }

    proof fn lemma_walk_done_closed<F: Fn(&ProcessInfo) -> bool>(
        &self,
        root: u32,
        matcher: &F,
        visited: Set<u32>,
        stack: Seq<u32>,
    )
        requires
            self.walk_inv(root, matcher, visited, stack),
            stack.len() == 0,
        ensures
            visited.contains(root),
            forall|x: u32, j: int|
                #![trigger visited.contains(x), self@.children[x][j]]
                visited.contains(x) && self@.children.contains_key(x) && 0 <= j
                    < self@.children[x].len() ==> visited.contains(self@.children[x][j]),
            forall|x: u32| #[trigger] visited.contains(x) ==> self.rejected(matcher, x),
    {
        reveal(ProcessTable::walk_inv);
        assert forall|x: u32, j: int|
            #![trigger visited.contains(x), self@.children[x][j]]
            visited.contains(x) && self@.children.contains_key(x) && 0 <= j < self@.children[x].len()
                implies visited.contains(self@.children[x][j]) by {
            assert(!stack.contains(x));
            assert(self.kids_visited(visited, x));
            assert(self@.children[x] == self.children@[x]@);
            assert(visited.contains(self.children@[x]@[j]));
        }
        assert forall|x: u32| #[trigger] visited.contains(x) implies self.rejected(matcher, x) by {
            assert(!stack.contains(x));
        }
    }

    proof fn lemma_walk_done<F: Fn(&ProcessInfo) -> bool>(
        &self,
        root: u32,
        matcher: &F,
        visited: Set<u32>,
        stack: Seq<u32>,
    )
        requires
            self.walk_inv(root, matcher, visited, stack),
            stack.len() == 0,
        ensures
            forall|pid: u32|
                #![trigger process_entry(self, pid)]
                in_subtree(self@.children, root, pid) && self@.processes.contains_key(pid)
                    ==> answers(matcher, &process_entry(self, pid), false),
    {
        self.lemma_walk_done_closed(root, matcher, visited, stack);
        assert forall|pid: u32|
            #![trigger process_entry(self, pid)]
            in_subtree(self@.children, root, pid) && self@.processes.contains_key(pid)
                implies answers(matcher, &process_entry(self, pid), false) by {
            lemma_subtree_in_closed_set(self@.children, root, pid, visited);
            assert(self.rejected(matcher, pid));
        }
    }

    /// Check whether any process in the subtree rooted at `root_pid` matches the
    /// predicate. Walks the tree without recursion and visits each process once.
    pub fn has_process_in_tree<F: Fn(&ProcessInfo) -> bool>(&self, root_pid: u32, matcher: &F) -> (found: bool)
        requires
            forall|p: &ProcessInfo| #[trigger] matcher.requires((p,)),
        ensures
            found ==> exists|pid: u32|
                #![trigger process_entry(self, pid)]
                in_subtree(self@.children, root_pid, pid) && self@.processes.contains_key(pid)
                    && answers(matcher, &process_entry(self, pid), true),
            !found ==> forall|pid: u32|
                #![trigger process_entry(self, pid)]
                in_subtree(self@.children, root_pid, pid) && self@.processes.contains_key(pid)
                    ==> answers(matcher, &process_entry(self, pid), false),
    {
        let ghost bound = self.processes@.dom().insert(root_pid);
        let mut visited: HashSet<u32> = HashSet::new();
        let mut stack: Vec<u32> = Vec::new();
        visited.insert(root_pid);
        stack.push(root_pid);
        proof {
            assert(visited@ =~= set![root_pid]);
            assert(stack@ =~= seq![root_pid]);
            self.lemma_walk_start(root_pid, matcher);
        }
        while stack.len() > 0
            invariant
                bound == self.processes@.dom().insert(root_pid),
                bound.finite(),
                visited@.subset_of(bound),
                self.walk_inv(root_pid, matcher, visited@, stack@),
                forall|p: &ProcessInfo| #[trigger] matcher.requires((p,)),
            decreases bound.len() - visited@.len(), stack@.len(),
        {
            proof {
                vstd::set_lib::lemma_len_subset(visited@, bound);
            }
            let ghost v0 = visited@;
            let ghost s0 = stack@;
            proof {
                self.lemma_walk_pop(root_pid, matcher, v0, s0);
            }
            let pid = stack.pop().unwrap();
            proof {
                assert(stack@ == s0.drop_last());
                assert(pid == s0.last());
            }
            match self.processes.get(&pid) {
                Some(info) => {
                    if matcher(info) {
                        proof {
                            assert(self@.processes.contains_key(pid));
                            assert(process_entry(self, pid) == *info);
                            assert(answers(matcher, &process_entry(self, pid), true));
                        }
                        return true;
                    }
                },
                None => {},
            }
            self.visit_children(root_pid, pid, &mut visited, &mut stack);
            proof {
                self.lemma_walk_step(root_pid, matcher, v0, s0, visited@, stack@);
                vstd::set_lib::lemma_len_subset(visited@, bound);
            }
        }
        proof {
            self.lemma_walk_done(root_pid, matcher, visited@, stack@);
        }
        false
    }

    /// Parse a single line of `ps` output, `v[from..to]`, its leading whitespace
    /// removed. Expected format: `<pid> <ppid> <comm> <args...>`.
    #[verifier::spinoff_prover]
    #[verifier::rlimit(40)]
    fn parse_line(v: &Vec<char>, from: usize, to: usize) -> (r: Option<ProcessInfo>)
        requires
            from <= to <= v.len(),
        ensures
            match r {
                Some(p) => process_line(v@.subrange(from as int, to as int)) == Some(p@),
                None => process_line(v@.subrange(from as int, to as int)) is None,
            },
    {
        let ghost line = v@.subrange(from as int, to as int);
        let i1 = find_first(v, from, to, CharClass::Space);
        if i1 == to {
            return None;
        }
        let pid = match parse_u32_range(v, from, i1) {
            Some(p) => p,
            None => {
                assert(line.take(i1 - from) == v@.subrange(from as int, i1 as int));
                return None;
            },
        };
        let r1 = trim_start_index(v, i1 + 1, to);
        let i2 = find_first(v, r1, to, CharClass::Space);
        proof {
            assert(line.skip(i1 - from + 1) == v@.subrange(i1 + 1, to as int));
            assert(line.take(i1 - from) == v@.subrange(from as int, i1 as int));
        }
        if i2 == to {
            return None;
        }
        let ppid = match parse_u32_range(v, r1, i2) {
            Some(p) => p,
            None => {
                assert(v@.subrange(r1 as int, to as int).take(i2 - r1) == v@.subrange(
                    r1 as int,
                    i2 as int,
                ));
                return None;
            },
        };
        let r2 = trim_start_index(v, i2 + 1, to);
        let i3 = find_first(v, r2, to, CharClass::Space);
        let a0 = if i3 < to {
            trim_start_index(v, i3 + 1, to)
        } else {
            to
        };
        let ghost rest1 = v@.subrange(r1 as int, to as int);
        let ghost rest2 = v@.subrange(r2 as int, to as int);
        let ghost comm = v@.subrange(r2 as int, i3 as int);
        let ghost args = v@.subrange(a0 as int, to as int);
        proof {
            assert(rest1.take(i2 - r1) == v@.subrange(r1 as int, i2 as int));
            assert(rest1.skip(i2 - r1 + 1) == v@.subrange(i2 + 1, to as int));
            assert(rest2.take(i3 - r2) == comm);
            if i3 < to {
                assert(rest2.skip(i3 - r2 + 1) == v@.subrange(i3 + 1, to as int));
            } else {
                assert(args == Seq::<char>::empty());
            }
        }
        let slash = find_first(v, r2, i3, CharClass::Is('/'));
        let t0 = find_first(v, a0, to, CharClass::NonSpace);
        let (c0, c1) = if slash < i3 && t0 < to {
            let t1 = find_first(v, t0, to, CharClass::Space);
            let b = basename_start(v, t0, t1);
            proof {
                let rest = args.skip(t0 - a0);
                assert(rest == v@.subrange(t0 as int, to as int));
                assert(rest.take(t1 - t0) == v@.subrange(t0 as int, t1 as int));
                assert(rest.skip(t1 - t0) == v@.subrange(t1 as int, to as int));
                assert(split_ws(args)[0] == v@.subrange(t0 as int, t1 as int));
            }
            (b, t1)
        } else {
            proof {
                if t0 == to {
                    assert(split_ws(args) == Seq::<Seq<char>>::empty());
                }
            }
            (basename_start(v, r2, i3), i3)
        };
        Some(
            ProcessInfo {
                pid: pid,
                ppid: ppid,
                comm: string_of_range(v, c0, c1),
                args: string_of_range(v, a0, to),
            },
        )
    }

    /// Parse raw `ps -eo pid,ppid,comm,args` output into a `ProcessTable`.
    pub fn parse(text: &str) -> (t: ProcessTable)
        ensures
            t@ == ps_table(text@),
    {
        let v = chars_of(text);
        let ls = line_ranges(&v);
        let ghost all = lines(v@);
        let ghost data = data_lines(all);
        let mut processes: HashMap<u32, ProcessInfo> = HashMap::new();
        let mut children: HashMap<u32, Vec<u32>> = HashMap::new();
        let mut k: usize = 1;
        proof {
            if all.len() > 0 {
                assert(data.take(0) == Seq::<Seq<char>>::empty());
                assert(processes@.map_values(|p: ProcessInfo| p@) =~= Map::<u32, ProcessInfoView>::empty());
                assert(children@.map_values(|kids: Vec<u32>| kids@) =~= Map::<u32, Seq<u32>>::empty());
            }
        }
        while k < ls.len()
            invariant
                v@ == text@,
                all == lines(v@),
                data == data_lines(all),
                ranges_within(ls@, v.len() as int),
                pieces(v@, ls@) == all,
                1 <= k,
                k <= ls.len() || ls.len() == 0,
                ls.len() > 0 ==> table_of(process_entries(data.take(k - 1))) == (ProcessTableView {
                    processes: processes@.map_values(|p: ProcessInfo| p@),
                    children: children@.map_values(|kids: Vec<u32>| kids@),
                }),
                ls.len() == 0 ==> processes@ == Map::<u32, ProcessInfo>::empty() && children@
                    == Map::<u32, Vec<u32>>::empty(),
                forall|q: u32, j: int|
                    #![trigger children@[q]@[j]]
                    children@.contains_key(q) && 0 <= j < children@[q]@.len()
                        ==> processes@.contains_key(children@[q]@[j]),
            decreases ls.len() - k,
        {
            let (a, b) = ls[k];
            let s = trim_start_index(&v, a, b);
            let ghost before = process_entries(data.take(k - 1));
            proof {
                assert(all[k as int] == v@.subrange(a as int, b as int));
                assert(data.take(k as int).drop_last() == data.take(k - 1));
                assert(data.take(k as int).last() == all[k as int]);
                assert(trim_start(all[k as int]) == v@.subrange(s as int, b as int));
            }
            if s < b {
                match Self::parse_line(&v, s, b) {
                    Some(info) => {
                        let ghost old_processes = processes@;
                        let ghost old_children = children@;
                        let ppid = info.ppid;
                        let pid = info.pid;
                        let mut kids = match children.remove(&ppid) {
                            Some(kids) => kids,
                            None => Vec::new(),
                        };
                        kids.push(pid);
                        children.insert(ppid, kids);
                        processes.insert(pid, info);
                        proof {
                            let es = process_entries(data.take(k as int));
                            assert(es == before.push(info@));
                            assert(es.drop_last() == before);
                            let t = table_of(es);
                            assert(t.processes =~= processes@.map_values(|p: ProcessInfo| p@));
                            assert(t.children =~= children@.map_values(|kids: Vec<u32>| kids@));
                            assert forall|q: u32, j: int|
                                #![trigger children@[q]@[j]]
                                children@.contains_key(q) && 0 <= j < children@[q]@.len()
                                    implies processes@.contains_key(children@[q]@[j]) by {
                                if q != ppid {
                                    assert(old_children.contains_key(q));
                                    assert(old_children[q] == children@[q]);
                                    assert(old_children[q]@[j] == children@[q]@[j]);
                                } else if j + 1 < children@[q]@.len() {
                                    assert(old_children.contains_key(q));
                                    assert(children@[q]@[j] == old_children[q]@[j]);
                                }
                            }
                        }
                    },
                    None => {},
                }
            }
            k = k + 1;
        }
        let t = ProcessTable { processes, children };
        proof {
            if ls.len() == 0 {
                assert(all.len() == 0);
                assert(t@.processes =~= Map::<u32, ProcessInfoView>::empty());
                assert(t@.children =~= Map::<u32, Seq<u32>>::empty());
            } else {
                assert(data.take(ls.len() - 1) == data);
            }
        }
        t
    }

    /// The number of processes in the table.
    pub fn process_count(&self) -> (n: usize)
        ensures
            n == self@.processes.dom().len(),
    {
        assert(self@.processes.dom() =~= self.processes@.dom());
        self.processes.len()
    }

    /// The process with PID `pid`, if the table has one.
    pub fn process(&self, pid: u32) -> (r: Option<&ProcessInfo>)
        ensures
            match r {
                Some(p) => self@.processes.contains_key(pid) && p@ == self@.processes[pid],
                None => !self@.processes.contains_key(pid),
            },
    {
        self.processes.get(&pid)
    }

    /// The PIDs of the children of `pid`, in the order `ps` listed them; `None` when
    /// the table knows no child of `pid`.
    pub fn children_of(&self, pid: u32) -> (r: Option<&Vec<u32>>)
        ensures
            match r {
                Some(kids) => self@.children.contains_key(pid) && kids@ == self@.children[pid],
                None => !self@.children.contains_key(pid),
            },
    {
        self.children.get(&pid)
    }
}

} // verus!
