//! Talking to tmux: the pane listing and its parser, and switching to a pane.
use vstd::prelude::*;

use crate::error::{AmuxError, AmuxErrorView};
use crate::text::{
    chars_of, line_ranges, lines, parse_u32, parse_u32_range, pieces, push_range, push_str,
    ranges_within, split_char, split_ranges, string_of, string_of_range, trim, trim_range,
    CharClass,
};

verus! {

/// Information about a single tmux pane.
#[derive(Debug, PartialEq, Eq)]
pub struct PaneInfo {
    pub session_name: String,
    pub window_name: String,
    pub pane_id: String,
    pub pane_pid: u32,
}

/// A pane, its names taken as character sequences.
pub struct PaneInfoView {
    pub session_name: Seq<char>,
    pub window_name: Seq<char>,
    pub pane_id: Seq<char>,
    pub pane_pid: u32,
}

impl View for PaneInfo {
    type V = PaneInfoView;

    open spec fn view(&self) -> PaneInfoView {
        PaneInfoView {
            session_name: self.session_name@,
            window_name: self.window_name@,
            pane_id: self.pane_id@,
            pane_pid: self.pane_pid,
        }
    }
}

impl Clone for PaneInfo {
    fn clone(&self) -> (r: Self)
        ensures
            r == *self,
    {
        PaneInfo {
            session_name: self.session_name.clone(),
            window_name: self.window_name.clone(),
            pane_id: self.pane_id.clone(),
            pane_pid: self.pane_pid,
        }
    }
}

/// The arguments of a tmux command, taken as character sequences.
pub open spec fn args_view(args: Seq<&str>) -> Seq<Seq<char>> {
    args.map_values(|a: &str| a@)
}

/// Runs tmux commands; implemented by the caller, which decides how tmux is reached.
pub trait TmuxRunner {
    /// Whether `answer` is something this runner may hand back when asked to run
    /// tmux with `args`. A runner that says nothing of its answers may give any.
    open spec fn may_answer(&self, args: Seq<Seq<char>>, answer: Result<String, AmuxError>) -> bool {
        true
    }

    /// Run a tmux command with the given arguments and return what it printed.
    fn run(&self, args: &[&str]) -> (r: Result<String, AmuxError>)
        ensures
            self.may_answer(args_view(args@), r),
    ;
}

/// The format in which `list-panes` is asked to print each pane.
pub const LIST_PANES_FORMAT: &'static str = "#{session_name}\t#{window_name}\t#{pane_id}\t#{pane_pid}";

/// The arguments with which the panes are listed.
pub open spec fn list_panes_args() -> Seq<Seq<char>> {
    seq!["list-panes"@, "-a"@, "-F"@, LIST_PANES_FORMAT@]
}

/// The pane that a nonblank, trimmed line of `list-panes` output describes.
pub open spec fn pane_of_line(line: Seq<char>) -> Result<PaneInfoView, AmuxErrorView> {
    let parts = split_char(line, '\t');
    if parts.len() != 4 {
        Err(AmuxErrorView::Tmux("unexpected list-panes output: "@ + line))
    } else {
        match parse_u32(parts[3]) {
            None => Err(AmuxErrorView::Tmux("invalid pane pid: "@ + parts[3])),
            Some(pid) => Ok(
                PaneInfoView {
                    session_name: parts[0],
                    window_name: parts[1],
                    pane_id: parts[2],
                    pane_pid: pid,
                },
            ),
        }
    }
}

/// The panes that the lines `ls` describe, in order; blank lines are skipped and
/// the first line that describes no pane gives the error.
pub open spec fn panes_of_lines(ls: Seq<Seq<char>>) -> Result<Seq<PaneInfoView>, AmuxErrorView>
    decreases ls.len(),
{
    if ls.len() == 0 {
        Ok(seq![])
    } else {
        let line = trim(ls[0]);
        if line.len() == 0 {
            panes_of_lines(ls.drop_first())
        } else {
            match pane_of_line(line) {
                Err(e) => Err(e),
                Ok(p) => prepend_panes(seq![p], panes_of_lines(ls.drop_first())),
            }
        }
    }
}

/// `r` with `first` put before its panes.
pub open spec fn prepend_panes(
    first: Seq<PaneInfoView>,
    r: Result<Seq<PaneInfoView>, AmuxErrorView>,
) -> Result<Seq<PaneInfoView>, AmuxErrorView> {
    match r {
        Ok(ps) => Ok(first + ps),
        Err(e) => Err(e),
    }
}

/// The panes that `list-panes` output describes.
pub open spec fn list_panes_output(output: Seq<char>) -> Result<Seq<PaneInfoView>, AmuxErrorView> {
    panes_of_lines(lines(output))
}

pub open spec fn panes_view(v: Seq<PaneInfo>) -> Seq<PaneInfoView> {
    v.map_values(|p: PaneInfo| p@)
}

pub open spec fn panes_result_view(r: Result<Vec<PaneInfo>, AmuxError>) -> Result<
    Seq<PaneInfoView>,
    AmuxErrorView,
> {
    match r {
        Ok(v) => Ok(panes_view(v@)),
        Err(e) => Err(e@),
    }
}

/// What listing the panes gives when tmux answered `answer`.
pub open spec fn list_panes_result(answer: Result<String, AmuxError>) -> Result<
    Seq<PaneInfoView>,
    AmuxErrorView,
> {
    match answer {
        Ok(out) => list_panes_output(out@),
        Err(e) => Err(e@),
    }
}

/// The pane described by `v[from..to]`, a nonblank trimmed line.
fn pane_of_range(v: &Vec<char>, from: usize, to: usize) -> (r: Result<PaneInfo, AmuxError>)
    requires
        from <= to <= v.len(),
    ensures
        match r {
            Ok(p) => pane_of_line(v@.subrange(from as int, to as int)) == Ok::<
                PaneInfoView,
                AmuxErrorView,
            >(p@),
            Err(e) => pane_of_line(v@.subrange(from as int, to as int)) == Err::<
                PaneInfoView,
                AmuxErrorView,
            >(e@),
        },
{
    let parts = split_ranges(v, from, to, '\t');
    let ghost line = v@.subrange(from as int, to as int);
    if parts.len() != 4 {
        let mut m = string_of("unexpected list-panes output: ");
        push_range(&mut m, v, from, to);
        return Err(AmuxError::Tmux(m));
    }
    let (a0, b0) = parts[0];
    let (a1, b1) = parts[1];
    let (a2, b2) = parts[2];
    let (a3, b3) = parts[3];
    proof {
        assert(pieces(v@, parts@)[3] == v@.subrange(a3 as int, b3 as int));
        assert(pieces(v@, parts@)[0] == v@.subrange(a0 as int, b0 as int));
        assert(pieces(v@, parts@)[1] == v@.subrange(a1 as int, b1 as int));
        assert(pieces(v@, parts@)[2] == v@.subrange(a2 as int, b2 as int));
        assert(parts@[0] == (a0, b0));
        assert(parts@[1] == (a1, b1));
        assert(parts@[2] == (a2, b2));
        assert(parts@[3] == (a3, b3));
    }
    match parse_u32_range(v, a3, b3) {
        None => {
            let mut m = string_of("invalid pane pid: ");
            push_range(&mut m, v, a3, b3);
            Err(AmuxError::Tmux(m))
        },
        Some(pid) => Ok(
            PaneInfo {
                session_name: string_of_range(v, a0, b0),
                window_name: string_of_range(v, a1, b1),
                pane_id: string_of_range(v, a2, b2),
                pane_pid: pid,
            },
        ),
    }
}

/// Parse the output of `list-panes` in `LIST_PANES_FORMAT`: one pane per nonblank
/// line, four tab-separated fields, the last a process id.
pub fn parse_list_panes_output(output: &str) -> (r: Result<Vec<PaneInfo>, AmuxError>)
    ensures
        panes_result_view(r) == list_panes_output(output@),
{
    let v = chars_of(output);
    let ls = line_ranges(&v);
    let ghost all = lines(v@);
    let mut panes: Vec<PaneInfo> = Vec::new();
    let mut k: usize = 0;
    assert(all.skip(0) == all);
    while k < ls.len()
        invariant
            v@ == output@,
            all == lines(v@),
            ranges_within(ls@, v.len() as int),
            pieces(v@, ls@) == all,
            0 <= k <= ls.len(),
            panes_of_lines(all) == prepend_panes(panes_view(panes@), panes_of_lines(all.skip(k as int))),
        decreases ls.len() - k,
    {
        let (a, b) = ls[k];
        proof {
            assert(all[k as int] == v@.subrange(a as int, b as int));
            assert(all.skip(k as int)[0] == all[k as int]);
            assert(all.skip(k as int).drop_first() == all.skip(k + 1));
        }
        let (t0, t1) = trim_range(&v, a, b);
        if t0 < t1 {
            match pane_of_range(&v, t0, t1) {
                Err(e) => {
                    return Err(e);
                },
                Ok(p) => {
                    proof {
                        assert(panes_view(panes@.push(p)) =~= panes_view(panes@) + seq![p@]);
                        let rest = panes_of_lines(all.skip(k + 1));
                        match rest {
                            Ok(ps) => {
                                assert(panes_view(panes@) + (seq![p@] + ps) =~= (panes_view(
                                    panes@,
                                ) + seq![p@]) + ps);
                            },
                            Err(_) => {},
                        }
                    }
                    panes.push(p);
                },
            }
        }
        k = k + 1;
    }
    proof {
        assert(all.skip(ls.len() as int) == Seq::<Seq<char>>::empty());
        assert(panes_view(panes@) + Seq::<PaneInfoView>::empty() =~= panes_view(panes@));
    }
    Ok(panes)
}

/// List all panes across all tmux sessions and windows.
pub fn list_panes(runner: &dyn TmuxRunner) -> (r: Result<Vec<PaneInfo>, AmuxError>)
    ensures
        exists|answer: Result<String, AmuxError>|
            #[trigger] runner.may_answer(list_panes_args(), answer) && panes_result_view(r)
                == list_panes_result(answer),
{
    let args: [&str; 4] = ["list-panes", "-a", "-F", LIST_PANES_FORMAT];
    assert(args_view(args@) =~= list_panes_args());
    let answer = runner.run(&args);
    match answer {
        Err(e) => Err(e),
        Ok(out) => parse_list_panes_output(&out),
    }
}

/// The three commands that switch to `pane`: its session, its window, the pane.
pub open spec fn switch_args(pane: PaneInfoView, step: int) -> Seq<Seq<char>> {
    if step == 0 {
        seq!["switch-client"@, "-t"@, pane.session_name]
    } else if step == 1 {
        seq!["select-window"@, "-t"@, pane.session_name + ":"@ + pane.window_name]
    } else {
        seq!["select-pane"@, "-t"@, pane.pane_id]
    }
}

/// Switch to the tmux pane identified by session, window, and pane id; the
/// commands run in that order, and the first that fails ends the switch.
pub fn switch_to_pane(runner: &dyn TmuxRunner, pane: &PaneInfo) -> (r: Result<(), AmuxError>)
    ensures
        exists|a0: Result<String, AmuxError>|
            #[trigger] runner.may_answer(switch_args(pane@, 0), a0) && match a0 {
                Err(e) => r == Err::<(), AmuxError>(e),
                Ok(_) => exists|a1: Result<String, AmuxError>|
                    #[trigger] runner.may_answer(switch_args(pane@, 1), a1) && match a1 {
                        Err(e) => r == Err::<(), AmuxError>(e),
                        Ok(_) => exists|a2: Result<String, AmuxError>|
                            #[trigger] runner.may_answer(switch_args(pane@, 2), a2) && match a2 {
                                Err(e) => r == Err::<(), AmuxError>(e),
                                Ok(_) => r == Ok::<(), AmuxError>(()),
                            },
                    },
            },
{
    let mut target_window = string_of(pane.session_name.as_str());
    push_str(&mut target_window, ":");
    push_str(&mut target_window, pane.window_name.as_str());
    let args0: [&str; 3] = ["switch-client", "-t", pane.session_name.as_str()];
    assert(args_view(args0@) =~= switch_args(pane@, 0));
    let a0 = runner.run(&args0);
    match a0 {
        Err(e) => {
            return Err(e);
        },
        Ok(_) => {},
    }
    let args1: [&str; 3] = ["select-window", "-t", target_window.as_str()];
    assert(args_view(args1@) =~= switch_args(pane@, 1));
    let a1 = runner.run(&args1);
    match a1 {
        Err(e) => {
            return Err(e);
        },
        Ok(_) => {},
    }
    let args2: [&str; 3] = ["select-pane", "-t", pane.pane_id.as_str()];
    assert(args_view(args2@) =~= switch_args(pane@, 2));
    let a2 = runner.run(&args2);
    match a2 {
        Err(e) => Err(e),
        Ok(_) => Ok(()),
    }
}


/// The character of a decimal digit.
pub open spec fn digit_char(d: int) -> char {
    if d == 0 {
        '0'
    } else if d == 1 {
        '1'
    } else if d == 2 {
        '2'
    } else if d == 3 {
        '3'
    } else if d == 4 {
        '4'
    } else if d == 5 {
        '5'
    } else if d == 6 {
        '6'
    } else if d == 7 {
        '7'
    } else if d == 8 {
        '8'
    } else {
        '9'
    }
}

/// The decimal digits of `n`, as tmux prints a number.
pub open spec fn decimal(n: nat) -> Seq<char>
    decreases n,
{
    if n < 10 {
        seq![digit_char(n as int)]
    } else {
        decimal(n / 10).push(digit_char((n % 10) as int))
    }
}

/// The line that `list-panes` prints for a pane in `LIST_PANES_FORMAT`.
pub open spec fn pane_line(p: PaneInfoView) -> Seq<char> {
    p.session_name + "\t"@ + p.window_name + "\t"@ + p.pane_id + "\t"@ + decimal(p.pane_pid as nat)
}

/// What `list-panes` prints for `panes`: their lines, each ended by a newline.
pub open spec fn panes_output(panes: Seq<PaneInfoView>) -> Seq<char>
    decreases panes.len(),
{
    if panes.len() == 0 {
        seq![]
    } else {
        pane_line(panes[0]) + "\n"@ + panes_output(panes.drop_first())
    }
}

/// A name that tmux prints as one field: no tab and no newline in it.
pub open spec fn field_name(s: Seq<char>) -> bool {
    !crate::text::has_char(s, '\t') && !crate::text::has_char(s, '\n')
}

/// A pane whose line reads back as the pane: its names are single fields, and its
/// session name starts with a character that trimming keeps.
pub open spec fn listable(p: PaneInfoView) -> bool {
    &&& p.session_name.len() > 0
    &&& !crate::text::is_space(p.session_name[0])
    &&& field_name(p.session_name)
    &&& field_name(p.window_name)
    &&& field_name(p.pane_id)
}

proof fn lemma_decimal(n: nat)
    ensures
        decimal(n).len() > 0,
        forall|i: int| 0 <= i < decimal(n).len() ==> crate::text::is_digit(#[trigger] decimal(n)[i]),
        crate::text::digits_value(decimal(n)) == n,
    decreases n,
{
    reveal_with_fuel(crate::text::digits_value, 2);
    if n >= 10 {
        lemma_decimal(n / 10);
        let d = decimal(n / 10);
        assert(decimal(n).drop_last() == d);
        assert forall|i: int| 0 <= i < decimal(n).len() implies crate::text::is_digit(#[trigger] decimal(n)[i]) by {
            if i < d.len() {
                assert(decimal(n)[i] == d[i]);
            }
        }
    } else {
        assert(decimal(n).drop_last() =~= Seq::<char>::empty());
    }
}

proof fn lemma_parse_decimal(n: u32)
    ensures
        crate::text::parse_u32(decimal(n as nat)) == Some(n),
{
    lemma_decimal(n as nat);
    let d = decimal(n as nat);
    assert(crate::text::is_digit(d[0]));
    assert(crate::text::unsigned_digits(d) == d);
}

/// A field without `c` is where splitting at `c` ends the first piece.
proof fn lemma_split_char_field(a: Seq<char>, b: Seq<char>, c: char)
    requires
        !crate::text::has_char(a, c),
    ensures
        split_char(a + seq![c] + b, c) == seq![a] + split_char(b, c),
{
    let s = a + seq![c] + b;
    crate::text::lemma_first_index(a, CharClass::Is(c));
    assert forall|j: int| 0 <= j < a.len() implies !crate::text::in_class(#[trigger] s[j], CharClass::Is(c)) by {
        assert(s[j] == a[j]);
    }
    crate::text::lemma_first_index_is(s, CharClass::Is(c), a.len() as int);
    assert(s.take(a.len() as int) =~= a);
    assert(s.skip(a.len() as int + 1) =~= b);
}

proof fn lemma_split_char_last(a: Seq<char>, c: char)
    requires
        !crate::text::has_char(a, c),
    ensures
        split_char(a, c) == seq![a],
{
    crate::text::lemma_first_index(a, CharClass::Is(c));
}

proof fn lemma_decimal_has_no(n: nat, c: char)
    requires
        !crate::text::is_digit(c),
    ensures
        !crate::text::has_char(decimal(n), c),
{
    lemma_decimal(n);
    let d = decimal(n);
    crate::text::lemma_first_index(d, CharClass::Is(c));
    if crate::text::has_char(d, c) {
        assert(crate::text::is_digit(d[crate::text::first_index(d, CharClass::Is(c))]));
    }
}

/// The line of a listable pane reads back as that pane.
pub proof fn lemma_pane_line_round_trip(p: PaneInfoView)
    requires
        listable(p),
    ensures
        pane_of_line(trim(pane_line(p))) == Ok::<PaneInfoView, AmuxErrorView>(p),
{
    reveal_strlit("\t");
    let tab = seq!['\t'];
    assert("\t"@ == tab);
    let d = decimal(p.pane_pid as nat);
    lemma_decimal(p.pane_pid as nat);
    lemma_decimal_has_no(p.pane_pid as nat, '\t');
    let l = pane_line(p);
    assert(l == p.session_name + tab + (p.window_name + tab + (p.pane_id + tab + d)));
    // The line begins with the session name and ends with a digit: trimming keeps it.
    assert(l[0] == p.session_name[0]);
    crate::text::lemma_first_index_is(l, CharClass::NonSpace, 0);
    assert(crate::text::trim_start(l) =~= l);
    assert(l.last() == d.last());
    assert(crate::text::is_digit(d[d.len() - 1]));
    crate::text::lemma_tail_count_is(l, CharClass::Space, 0);
    assert(trim(l) =~= l);
    // It splits into the four fields.
    lemma_split_char_field(p.session_name, p.window_name + tab + (p.pane_id + tab + d), '\t');
    lemma_split_char_field(p.window_name, p.pane_id + tab + d, '\t');
    lemma_split_char_field(p.pane_id, d, '\t');
    lemma_split_char_last(d, '\t');
    let parts = split_char(l, '\t');
    assert(parts =~= seq![p.session_name, p.window_name, p.pane_id, d]);
    lemma_parse_decimal(p.pane_pid);
}

proof fn lemma_line_has_no_newline(p: PaneInfoView)
    requires
        listable(p),
    ensures
        !crate::text::has_char(pane_line(p), '\n'),
{
    reveal_strlit("\t");
    let l = pane_line(p);
    let d = decimal(p.pane_pid as nat);
    lemma_decimal_has_no(p.pane_pid as nat, '\n');
    crate::text::lemma_first_index(p.session_name, CharClass::Is('\n'));
    crate::text::lemma_first_index(p.window_name, CharClass::Is('\n'));
    crate::text::lemma_first_index(p.pane_id, CharClass::Is('\n'));
    crate::text::lemma_first_index(d, CharClass::Is('\n'));
    crate::text::lemma_first_index(l, CharClass::Is('\n'));
    if crate::text::has_char(l, '\n') {
        let i = crate::text::first_index(l, CharClass::Is('\n'));
        let a = p.session_name.len();
        let b = a + 1 + p.window_name.len();
        let c = b + 1 + p.pane_id.len();
        if i < a {
            assert(l[i] == p.session_name[i]);
        } else if i == a || i == b || i == c {
            assert(l[i] == '\t');
        } else if i < b {
            assert(l[i] == p.window_name[i - a - 1]);
        } else if i < c {
            assert(l[i] == p.pane_id[i - b - 1]);
        } else {
            assert(l[i] == d[i - c - 1]);
        }
    }
}

/// What `list-panes` prints for listable panes parses back into those panes, in order.
pub proof fn lemma_list_panes_round_trip(panes: Seq<PaneInfoView>)
    requires
        forall|i: int| 0 <= i < panes.len() ==> listable(#[trigger] panes[i]),
    ensures
        list_panes_output(panes_output(panes)) == Ok::<Seq<PaneInfoView>, AmuxErrorView>(panes),
    decreases panes.len(),
{
    if panes.len() > 0 {
        let p = panes[0];
        let rest = panes.drop_first();
        assert forall|i: int| 0 <= i < rest.len() implies listable(#[trigger] rest[i]) by {
            assert(rest[i] == panes[i + 1]);
        }
        lemma_list_panes_round_trip(rest);
        reveal_strlit("\n");
        let l = pane_line(p);
        let out = panes_output(panes);
        assert(out == l + seq!['\n'] + panes_output(rest));
        lemma_line_has_no_newline(p);
        crate::text::lemma_first_index(l, CharClass::Is('\n'));
        assert forall|j: int| 0 <= j < l.len() implies !crate::text::in_class(#[trigger] out[j], CharClass::Is('\n')) by {
            assert(out[j] == l[j]);
        }
        crate::text::lemma_first_index_is(out, CharClass::Is('\n'), l.len() as int);
        assert(out.take(l.len() as int) =~= l);
        assert(out.skip(l.len() as int + 1) =~= panes_output(rest));
        lemma_pane_line_round_trip(p);
        let d = decimal(p.pane_pid as nat);
        lemma_decimal(p.pane_pid as nat);
        assert(l.last() == d.last());
        assert(crate::text::is_digit(d[d.len() - 1]));
        assert(crate::text::strip_cr(l) == l);
        let ls = lines(out);
        assert(ls == seq![l] + lines(panes_output(rest)));
        assert(ls[0] == l);
        assert(ls.drop_first() =~= lines(panes_output(rest)));
        assert(trim(l).len() > 0);
        assert(trim(ls[0]) == l);
        assert(pane_of_line(trim(ls[0])) == Ok::<PaneInfoView, AmuxErrorView>(p));
        assert(panes_of_lines(ls) == prepend_panes(seq![p], panes_of_lines(ls.drop_first())));
        assert(seq![p] + rest =~= panes);
    } else {
        assert(panes_output(panes) =~= Seq::<char>::empty());
        assert(lines(Seq::<char>::empty()) =~= Seq::<Seq<char>>::empty());
        assert(panes =~= Seq::<PaneInfoView>::empty());
    }
}

} // verus!
