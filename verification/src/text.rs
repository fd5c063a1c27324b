//! Character-level text handling: the models of `str::lines`, `str::split`,
//! `str::split_whitespace`, trimming, basenames and decimal `u32` parsing that the
//! parsers of this crate are specified with, and the loops that compute them.
use vstd::prelude::*;

verus! {

/// The Unicode `White_Space` property, which `char::is_whitespace` tests.
pub open spec fn is_space(c: char) -> bool {
    let u = c as u32;
    ||| 0x09 <= u <= 0x0D
    ||| u == 0x20
    ||| u == 0x85
    ||| u == 0xA0
    ||| u == 0x1680
    ||| 0x2000 <= u <= 0x200A
    ||| u == 0x2028
    ||| u == 0x2029
    ||| u == 0x202F
    ||| u == 0x205F
    ||| u == 0x3000
}

/// A class of characters that a scan looks for.
#[derive(Clone, Copy)]
pub enum CharClass {
    /// Exactly this character.
    Is(char),
    /// Any character but this one.
    IsNot(char),
    /// A whitespace character.
    Space,
    /// A character that is not whitespace.
    NonSpace,
}

pub open spec fn in_class(c: char, k: CharClass) -> bool {
    match k {
        CharClass::Is(x) => c == x,
        CharClass::IsNot(x) => c != x,
        CharClass::Space => is_space(c),
        CharClass::NonSpace => !is_space(c),
    }
}

/// The index of the first character of `s` in class `k`, or `s.len()` when there is none.
pub open spec fn first_index(s: Seq<char>, k: CharClass) -> int
    decreases s.len(),
{
    if s.len() == 0 {
        0
    } else if in_class(s[0], k) {
        0
    } else {
        1 + first_index(s.drop_first(), k)
    }
}

/// The number of characters at the end of `s` that are all in class `k`.
pub open spec fn tail_count(s: Seq<char>, k: CharClass) -> int
    decreases s.len(),
{
    if s.len() > 0 && in_class(s.last(), k) {
        1 + tail_count(s.drop_last(), k)
    } else {
        0
    }
}

pub proof fn lemma_first_index(s: Seq<char>, k: CharClass)
    ensures
        0 <= first_index(s, k) <= s.len(),
        forall|j: int| 0 <= j < first_index(s, k) ==> !in_class(#[trigger] s[j], k),
        first_index(s, k) < s.len() ==> in_class(s[first_index(s, k)], k),
    decreases s.len(),
{
    if s.len() > 0 && !in_class(s[0], k) {
        lemma_first_index(s.drop_first(), k);
        assert forall|j: int| 0 <= j < first_index(s, k) implies !in_class(#[trigger] s[j], k) by {
            if j > 0 {
                assert(s[j] == s.drop_first()[j - 1]);
            }
        }
    }
}

pub proof fn lemma_first_index_is(s: Seq<char>, k: CharClass, r: int)
    requires
        0 <= r <= s.len(),
        forall|j: int| 0 <= j < r ==> !in_class(#[trigger] s[j], k),
        r < s.len() ==> in_class(s[r], k),
    ensures
        first_index(s, k) == r,
{
    lemma_first_index(s, k);
    let f = first_index(s, k);
    if f < r {
        assert(!in_class(s[f], k));
    } else if r < f {
        assert(!in_class(s[r], k));
    }
}

pub proof fn lemma_tail_count(s: Seq<char>, k: CharClass)
    ensures
        0 <= tail_count(s, k) <= s.len(),
        forall|j: int| s.len() - tail_count(s, k) <= j < s.len() ==> in_class(#[trigger] s[j], k),
        tail_count(s, k) < s.len() ==> !in_class(s[s.len() - tail_count(s, k) - 1], k),
    decreases s.len(),
{
    if s.len() > 0 && in_class(s.last(), k) {
        lemma_tail_count(s.drop_last(), k);
        assert forall|j: int| s.len() - tail_count(s, k) <= j < s.len() implies in_class(
            #[trigger] s[j],
            k,
        ) by {
            if j < s.len() - 1 {
                assert(s[j] == s.drop_last()[j]);
            }
        }
        if tail_count(s, k) < s.len() {
            assert(s[s.len() - tail_count(s, k) - 1] == s.drop_last()[s.len() - tail_count(s, k)
                - 1]);
        }
    }
}

pub proof fn lemma_tail_count_is(s: Seq<char>, k: CharClass, r: int)
    requires
        0 <= r <= s.len(),
        forall|j: int| s.len() - r <= j < s.len() ==> in_class(#[trigger] s[j], k),
        r < s.len() ==> !in_class(s[s.len() - r - 1], k),
    ensures
        tail_count(s, k) == r,
{
    lemma_tail_count(s, k);
    let t = tail_count(s, k);
    if t < r {
        assert(in_class(s[s.len() - t - 1], k));
    } else if r < t {
        assert(in_class(s[s.len() - r - 1], k));
    }
}

/// `s` with leading whitespace removed (`str::trim_start`).
pub open spec fn trim_start(s: Seq<char>) -> Seq<char> {
    s.skip(first_index(s, CharClass::NonSpace))
}

/// `s` with trailing whitespace removed (`str::trim_end`).
pub open spec fn trim_end(s: Seq<char>) -> Seq<char> {
    s.take(s.len() - tail_count(s, CharClass::Space))
}

/// `s` with whitespace removed at both ends (`str::trim`).
pub open spec fn trim(s: Seq<char>) -> Seq<char> {
    trim_end(trim_start(s))
}

/// The characters of an optional string.
pub open spec fn opt_view(s: Option<&str>) -> Option<Seq<char>> {
    match s {
        Some(x) => Some(x@),
        None => None,
    }
}

/// Whether `c` occurs in `s`.
pub open spec fn has_char(s: Seq<char>, c: char) -> bool {
    first_index(s, CharClass::Is(c)) < s.len()
}

/// What follows the last `/` of `s`, or all of `s` when it holds none
/// (the first item of `str::rsplit('/')`).
pub open spec fn basename(s: Seq<char>) -> Seq<char> {
    s.skip(s.len() - tail_count(s, CharClass::IsNot('/')))
}

/// Whether `s` begins with `prefix`.
pub open spec fn starts_with(s: Seq<char>, prefix: Seq<char>) -> bool {
    prefix.len() <= s.len() && s.take(prefix.len() as int) == prefix
}

/// Whether `pattern` occurs in `s` at some position.
pub open spec fn has_substring(s: Seq<char>, pattern: Seq<char>) -> bool {
    exists|i: int|
        0 <= i && i + pattern.len() <= s.len() && #[trigger] s.subrange(i, i + pattern.len())
            == pattern
}

/// A line without the `\r` of a `\r\n` ending.
pub open spec fn strip_cr(line: Seq<char>) -> Seq<char> {
    if line.len() > 0 && line.last() == '\r' {
        line.drop_last()
    } else {
        line
    }
}

/// The lines of `s` as `str::lines` yields them: split at `\n`, a `\r` before the
/// `\n` dropped, and no empty line after a final `\n`.
pub open spec fn lines(s: Seq<char>) -> Seq<Seq<char>>
    decreases s.len(),
{
    if s.len() == 0 {
        seq![]
    } else {
        let i = first_index(s, CharClass::Is('\n'));
        if i >= s.len() {
            seq![s]
        } else {
            proof {
                lemma_first_index(s, CharClass::Is('\n'));
            }
            seq![strip_cr(s.take(i))] + lines(s.skip(i + 1))
        }
    }
}

/// The pieces of `s` between occurrences of `c`, as `str::split(c)` yields them.
pub open spec fn split_char(s: Seq<char>, c: char) -> Seq<Seq<char>>
    decreases s.len(),
{
    let i = first_index(s, CharClass::Is(c));
    if i >= s.len() {
        seq![s]
    } else {
        proof {
            lemma_first_index(s, CharClass::Is(c));
        }
        seq![s.take(i)] + split_char(s.skip(i + 1), c)
    }
}

/// The maximal runs of non-whitespace characters of `s`, as `str::split_whitespace`
/// yields them.
pub open spec fn split_ws(s: Seq<char>) -> Seq<Seq<char>>
    decreases s.len(),
{
    let t = first_index(s, CharClass::NonSpace);
    if t >= s.len() {
        seq![]
    } else {
        proof {
            lemma_first_index(s, CharClass::NonSpace);
        }
        let rest = s.skip(t);
        let e = first_index(rest, CharClass::Space);
        if e <= 0 {
            seq![]
        } else {
            proof {
                lemma_first_index(rest, CharClass::Space);
            }
            seq![rest.take(e)] + split_ws(rest.skip(e))
        }
    }
}


/// Leading whitespace does not change the tokens.
pub proof fn lemma_split_ws_skip_space(s: Seq<char>)
    requires
        s.len() > 0,
        is_space(s[0]),
    ensures
        split_ws(s) == split_ws(s.drop_first()),
{
    let r = s.drop_first();
    lemma_first_index(s, CharClass::NonSpace);
    lemma_first_index(r, CharClass::NonSpace);
    let t = first_index(s, CharClass::NonSpace);
    let t0 = first_index(r, CharClass::NonSpace);
    assert(t == 1 + t0);
    assert(s.skip(t) =~= r.skip(t0));
}

/// A token without whitespace, then a space, then more text: the token comes first,
/// then the tokens of the rest.
pub proof fn lemma_split_ws_prefix(tok: Seq<char>, rest: Seq<char>)
    requires
        tok.len() > 0,
        forall|i: int| 0 <= i < tok.len() ==> !is_space(#[trigger] tok[i]),
    ensures
        split_ws(tok + " "@ + rest) == seq![tok] + split_ws(rest),
{
    reveal_strlit(" ");
    let s = tok + " "@ + rest;
    assert(s[0] == tok[0]);
    lemma_first_index_is(s, CharClass::NonSpace, 0);
    assert(s.skip(0) =~= s);
    assert forall|j: int| 0 <= j < tok.len() implies !in_class(#[trigger] s[j], CharClass::Space) by {
        assert(s[j] == tok[j]);
    }
    assert(s[tok.len() as int] == ' ');
    assert(is_space(' '));
    lemma_first_index_is(s, CharClass::Space, tok.len() as int);
    assert(s.take(tok.len() as int) =~= tok);
    let after = s.skip(tok.len() as int);
    assert(after.len() > 0 && after[0] == ' ');
    lemma_split_ws_skip_space(after);
    assert(after.drop_first() =~= rest);
}

/// A single token without whitespace is its own only token.
pub proof fn lemma_split_ws_single(tok: Seq<char>)
    requires
        tok.len() > 0,
        forall|i: int| 0 <= i < tok.len() ==> !is_space(#[trigger] tok[i]),
    ensures
        split_ws(tok) == seq![tok],
{
    lemma_first_index_is(tok, CharClass::NonSpace, 0);
    assert(tok.skip(0) =~= tok);
    lemma_first_index_is(tok, CharClass::Space, tok.len() as int);
    assert(tok.take(tok.len() as int) =~= tok);
    assert(tok.skip(tok.len() as int) =~= Seq::<char>::empty());
    assert(split_ws(Seq::<char>::empty()) =~= Seq::<Seq<char>>::empty());
    assert(split_ws(tok) =~= seq![tok] + split_ws(Seq::<char>::empty()));
    assert(seq![tok] + Seq::<Seq<char>>::empty() =~= seq![tok]);
}

/// `parts` joined with `sep` between each two of them (`[String]::join`).
pub open spec fn join_with(parts: Seq<Seq<char>>, sep: Seq<char>) -> Seq<char>
    decreases parts.len(),
{
    if parts.len() == 0 {
        seq![]
    } else if parts.len() == 1 {
        parts[0]
    } else {
        join_with(parts.drop_last(), sep) + sep + parts.last()
    }
}

pub open spec fn is_digit(c: char) -> bool {
    '0' <= c <= '9'
}

/// The number that a string of decimal digits denotes.
pub open spec fn digits_value(s: Seq<char>) -> int
    decreases s.len(),
{
    if s.len() == 0 {
        0
    } else {
        digits_value(s.drop_last()) * 10 + (s.last() as int - '0' as int)
    }
}

/// The digits of an unsigned number: `s` without a leading `+`.
pub open spec fn unsigned_digits(s: Seq<char>) -> Seq<char> {
    if s.len() > 0 && s[0] == '+' {
        s.drop_first()
    } else {
        s
    }
}

/// The value of a nonempty string of decimal digits that fits in a `u32`.
pub open spec fn parse_digits(d: Seq<char>) -> Option<u32> {
    if d.len() > 0 && (forall|i: int| 0 <= i < d.len() ==> is_digit(#[trigger] d[i]))
        && digits_value(d) <= u32::MAX {
        Some(digits_value(d) as u32)
    } else {
        None
    }
}

/// What `u32::from_str` gives for `s`: an optional `+`, then at least one decimal
/// digit, and a value that fits in a `u32`.
pub open spec fn parse_u32(s: Seq<char>) -> Option<u32> {
    if s.len() == 0 {
        None
    } else {
        parse_digits(unsigned_digits(s))
    }
}

pub fn char_is_space(c: char) -> (r: bool)
    ensures
        r == is_space(c),
{
    let u = c as u32;
    (0x09 <= u && u <= 0x0D) || u == 0x20 || u == 0x85 || u == 0xA0 || u == 0x1680 || (0x2000 <= u
        && u <= 0x200A) || u == 0x2028 || u == 0x2029 || u == 0x202F || u == 0x205F || u == 0x3000
}

pub fn char_in_class(c: char, k: CharClass) -> (r: bool)
    ensures
        r == in_class(c, k),
{
    match k {
        CharClass::Is(x) => c == x,
        CharClass::IsNot(x) => c != x,
        CharClass::Space => char_is_space(c),
        CharClass::NonSpace => !char_is_space(c),
    }
}

/// The characters of `s`, one by one.
pub fn chars_of(s: &str) -> (v: Vec<char>)
    ensures
        v@ == s@,
{
    let mut v: Vec<char> = Vec::new();
    for c in it: s.chars()
        invariant
            v@ == it.seq().take(it.index()),
    {
        v.push(c);
    }
    v
}

/// Appends one character to a string by calling `String::push`. Trusted, not
/// proved: the contract claims that the string's characters afterwards are the
/// ones it had, followed by `c`.
#[verifier::external_body]
pub(crate) fn push_char(s: &mut String, c: char)
    ensures
        final(s)@ == old(s)@.push(c),
{
    s.push(c);
}

/// Appends the characters `v[from..to]` to `s`.
pub fn push_range(s: &mut String, v: &Vec<char>, from: usize, to: usize)
    requires
        from <= to <= v.len(),
    ensures
        final(s)@ == old(s)@ + v@.subrange(from as int, to as int),
{
    let mut i = from;
    while i < to
        invariant
            from <= i <= to <= v.len(),
            s@ == old(s)@ + v@.subrange(from as int, i as int),
        decreases to - i,
    {
        push_char(s, v[i]);
        i = i + 1;
        assert(v@.subrange(from as int, i as int) == v@.subrange(from as int, i - 1).push(
            v@[i - 1],
        ));
    }
}

/// Appends all of `t` to `s`.
pub fn push_str(s: &mut String, t: &str)
    ensures
        final(s)@ == old(s)@ + t@,
{
    let v = chars_of(t);
    push_range(s, &v, 0, v.len());
    assert(v@.subrange(0, v.len() as int) == v@);
}

/// A new string holding `v[from..to]`.
pub fn string_of_range(v: &Vec<char>, from: usize, to: usize) -> (r: String)
    requires
        from <= to <= v.len(),
    ensures
        r@ == v@.subrange(from as int, to as int),
{
    let mut s = String::new();
    push_range(&mut s, v, from, to);
    s
}

/// A new string holding a copy of `t`.
pub fn string_of(t: &str) -> (r: String)
    ensures
        r@ == t@,
{
    let mut s = String::new();
    push_str(&mut s, t);
    s
}

/// The first index in `from..to` of a character of `v` in class `k`, or `to`.
pub fn find_first(v: &Vec<char>, from: usize, to: usize, k: CharClass) -> (r: usize)
    requires
        from <= to <= v.len(),
    ensures
        from <= r <= to,
        r - from == first_index(v@.subrange(from as int, to as int), k),
        forall|j: int| from <= j < r ==> !in_class(#[trigger] v@[j], k),
        r < to ==> in_class(v@[r as int], k),
{
    let mut i = from;
    while i < to && !char_in_class(v[i], k)
        invariant
            from <= i <= to <= v.len(),
            forall|j: int| from <= j < i ==> !in_class(#[trigger] v@[j], k),
        decreases to - i,
    {
        i = i + 1;
    }
    proof {
        let s = v@.subrange(from as int, to as int);
        assert forall|j: int| 0 <= j < i - from implies !in_class(#[trigger] s[j], k) by {
            assert(s[j] == v@[from + j]);
        }
        lemma_first_index_is(s, k, i - from);
    }
    i
}

/// The start of the longest run at the end of `v[from..to]` whose characters are all in
/// class `k`.
pub fn find_tail(v: &Vec<char>, from: usize, to: usize, k: CharClass) -> (r: usize)
    requires
        from <= to <= v.len(),
    ensures
        from <= r <= to,
        to - r == tail_count(v@.subrange(from as int, to as int), k),
        forall|j: int| r <= j < to ==> in_class(#[trigger] v@[j], k),
        from < r ==> !in_class(v@[r - 1], k),
{
    let mut i = to;
    while i > from && char_in_class(v[i - 1], k)
        invariant
            from <= i <= to <= v.len(),
            forall|j: int| i <= j < to ==> in_class(#[trigger] v@[j], k),
        decreases i - from,
    {
        i = i - 1;
    }
    proof {
        let s = v@.subrange(from as int, to as int);
        assert forall|j: int| s.len() - (to - i) <= j < s.len() implies in_class(
            #[trigger] s[j],
            k,
        ) by {
            assert(s[j] == v@[from + j]);
        }
        if to - i < s.len() {
            assert(s[s.len() - (to - i) - 1] == v@[i - 1]);
        }
        lemma_tail_count_is(s, k, to - i);
    }
    i
}

/// Whether `v[from..to]` equals `t`.
pub fn range_eq(v: &Vec<char>, from: usize, to: usize, t: &str) -> (r: bool)
    requires
        from <= to <= v.len(),
    ensures
        r == (v@.subrange(from as int, to as int) == t@),
{
    let w = chars_of(t);
    if to - from != w.len() {
        return false;
    }
    let mut i: usize = 0;
    while i < w.len()
        invariant
            from <= to <= v.len(),
            to - from == w.len(),
            w@ == t@,
            0 <= i <= w.len(),
            forall|j: int| 0 <= j < i ==> v@[from + j] == #[trigger] w@[j],
        decreases w.len() - i,
    {
        if v[from + i] != w[i] {
            assert(v@.subrange(from as int, to as int)[i as int] != t@[i as int]);
            return false;
        }
        i = i + 1;
    }
    assert(v@.subrange(from as int, to as int) =~= t@);
    true
}

/// Whether the strings `a` and `b` hold the same characters.
pub fn str_eq(a: &str, b: &str) -> (r: bool)
    ensures
        r == (a@ == b@),
{
    let v = chars_of(a);
    let r = range_eq(&v, 0, v.len(), b);
    assert(v@.subrange(0, v.len() as int) == v@);
    r
}

/// Whether `v[from..to]` begins with `prefix`.
pub fn range_starts_with(v: &Vec<char>, from: usize, to: usize, prefix: &str) -> (r: bool)
    requires
        from <= to <= v.len(),
    ensures
        r == starts_with(v@.subrange(from as int, to as int), prefix@),
{
    let p = chars_of(prefix);
    if p.len() > to - from {
        return false;
    }
    let r = range_eq(&v, from, from + p.len(), prefix);
    assert(v@.subrange(from as int, to as int).take(p.len() as int) == v@.subrange(
        from as int,
        from + p.len(),
    ));
    r
}

/// Whether `t` occurs in `v[from..to]`.
pub fn range_contains(v: &Vec<char>, from: usize, to: usize, t: &str) -> (r: bool)
    requires
        from <= to <= v.len(),
    ensures
        r == has_substring(v@.subrange(from as int, to as int), t@),
{
    let p = chars_of(t);
    let ghost s = v@.subrange(from as int, to as int);
    if p.len() > to - from {
        proof {
            assert forall|i: int|
                0 <= i && i + t@.len() <= s.len() implies #[trigger] s.subrange(
                i,
                i + t@.len(),
            ) != t@ by {}
        }
        return false;
    }
    if p.len() == 0 {
        assert(s.subrange(0int, 0int + t@.len()) =~= t@);
        return true;
    }
    let mut i = from;
    while i <= to - p.len()
        invariant
            from <= i <= to <= v.len(),
            p@ == t@,
            0 < p.len() <= to - from,
            s == v@.subrange(from as int, to as int),
            forall|j: int|
                0 <= j < i - from ==> #[trigger] s.subrange(j, j + t@.len()) != t@,
        decreases to - i,
    {
        if range_eq(v, i, i + p.len(), t) {
            assert(s.subrange(i - from, i - from + t@.len()) == v@.subrange(
                i as int,
                i + p.len(),
            ));
            return true;
        }
        assert(s.subrange(i - from, i - from + t@.len()) == v@.subrange(i as int, i + p.len()));
        i = i + 1;
    }
    false
}

/// Whether `t` occurs in `s`.
pub fn str_contains(s: &str, t: &str) -> (r: bool)
    ensures
        r == has_substring(s@, t@),
{
    let v = chars_of(s);
    let r = range_contains(&v, 0, v.len(), t);
    assert(v@.subrange(0, v.len() as int) == v@);
    r
}

/// Whether `s` begins with `prefix`.
pub fn str_starts_with(s: &str, prefix: &str) -> (r: bool)
    ensures
        r == starts_with(s@, prefix@),
{
    let v = chars_of(s);
    let r = range_starts_with(&v, 0, v.len(), prefix);
    assert(v@.subrange(0, v.len() as int) == v@);
    r
}


/// The pieces of `s` that a list of index ranges picks out.
pub open spec fn pieces(s: Seq<char>, r: Seq<(usize, usize)>) -> Seq<Seq<char>> {
    r.map_values(|p: (usize, usize)| s.subrange(p.0 as int, p.1 as int))
}

/// Every range of `r` lies within `0..n`.
pub open spec fn ranges_within(r: Seq<(usize, usize)>, n: int) -> bool {
    forall|i: int| 0 <= i < r.len() ==> #[trigger] r[i].0 <= r[i].1 && r[i].1 <= n
}

proof fn lemma_pieces_push(s: Seq<char>, r: Seq<(usize, usize)>, p: (usize, usize))
    ensures
        pieces(s, r.push(p)) == pieces(s, r).push(s.subrange(p.0 as int, p.1 as int)),
        ranges_within(r, s.len() as int) && p.0 <= p.1 <= s.len() ==> ranges_within(
            r.push(p),
            s.len() as int,
        ),
{
    assert forall|i: int| 0 <= i < r.len() implies r.push(p)[i] == r[i] by {}
    assert(pieces(s, r.push(p)) =~= pieces(s, r).push(s.subrange(p.0 as int, p.1 as int)));
}

/// The bounds of `trim(v[from..to])`.
pub fn trim_range(v: &Vec<char>, from: usize, to: usize) -> (r: (usize, usize))
    requires
        from <= to <= v.len(),
    ensures
        from <= r.0 <= r.1 <= to,
        v@.subrange(r.0 as int, r.1 as int) == trim(v@.subrange(from as int, to as int)),
{
    let t = find_first(v, from, to, CharClass::NonSpace);
    let b = find_tail(v, t, to, CharClass::Space);
    proof {
        let s = v@.subrange(from as int, to as int);
        assert(trim_start(s) == v@.subrange(t as int, to as int));
        assert(trim_end(v@.subrange(t as int, to as int)) == v@.subrange(t as int, b as int));
    }
    (t, b)
}

/// The start of `trim_start(v[from..to])`.
pub fn trim_start_index(v: &Vec<char>, from: usize, to: usize) -> (r: usize)
    requires
        from <= to <= v.len(),
    ensures
        from <= r <= to,
        v@.subrange(r as int, to as int) == trim_start(v@.subrange(from as int, to as int)),
{
    let t = find_first(v, from, to, CharClass::NonSpace);
    assert(trim_start(v@.subrange(from as int, to as int)) == v@.subrange(t as int, to as int));
    t
}

/// The start of `basename(v[from..to])`.
pub fn basename_start(v: &Vec<char>, from: usize, to: usize) -> (r: usize)
    requires
        from <= to <= v.len(),
    ensures
        from <= r <= to,
        v@.subrange(r as int, to as int) == basename(v@.subrange(from as int, to as int)),
{
    let b = find_tail(v, from, to, CharClass::IsNot('/'));
    assert(basename(v@.subrange(from as int, to as int)) == v@.subrange(b as int, to as int));
    b
}

/// The ranges of the lines of `v`.
pub fn line_ranges(v: &Vec<char>) -> (r: Vec<(usize, usize)>)
    ensures
        ranges_within(r@, v.len() as int),
        pieces(v@, r@) == lines(v@),
{
    let n = v.len();
    let mut r: Vec<(usize, usize)> = Vec::new();
    let mut pos: usize = 0;
    assert(v@.subrange(0, n as int) == v@);
    while pos < n
        invariant
            n == v.len(),
            pos <= n,
            ranges_within(r@, n as int),
            lines(v@) == pieces(v@, r@) + lines(v@.subrange(pos as int, n as int)),
        decreases n - pos,
    {
        let ghost s = v@.subrange(pos as int, n as int);
        let i = find_first(v, pos, n, CharClass::Is('\n'));
        proof {
            lemma_pieces_push(v@, r@, (pos, i));
        }
        if i == n {
            proof {
                assert(lines(s) == seq![s]);
                lemma_pieces_push(v@, r@, (pos, n));
                assert(lines(v@.subrange(n as int, n as int)) == Seq::<Seq<char>>::empty());
                assert(lines(v@) =~= pieces(v@, r@.push((pos, n))));
            }
            r.push((pos, n));
            pos = n;
            assert(lines(v@) =~= pieces(v@, r@) + lines(v@.subrange(pos as int, n as int)));
        } else {
            let end = if i > pos && v[i - 1] == '\r' {
                i - 1
            } else {
                i
            };
            proof {
                assert(s.take(i - pos) == v@.subrange(pos as int, i as int));
                assert(s.skip(i - pos + 1) == v@.subrange(i + 1, n as int));
                assert(strip_cr(v@.subrange(pos as int, i as int)) == v@.subrange(
                    pos as int,
                    end as int,
                ));
                lemma_pieces_push(v@, r@, (pos, end));
                assert(lines(v@) =~= pieces(v@, r@.push((pos, end))) + lines(
                    v@.subrange(i + 1, n as int),
                ));
            }
            r.push((pos, end));
            pos = i + 1;
        }
    }
    assert(lines(v@.subrange(n as int, n as int)) == Seq::<Seq<char>>::empty());
    assert(lines(v@) =~= pieces(v@, r@));
    r
}

/// The ranges of the pieces of `v[from..to]` between occurrences of `c`.
pub fn split_ranges(v: &Vec<char>, from: usize, to: usize, c: char) -> (r: Vec<(usize, usize)>)
    requires
        from <= to <= v.len(),
    ensures
        ranges_within(r@, v.len() as int),
        pieces(v@, r@) == split_char(v@.subrange(from as int, to as int), c),
{
    let mut r: Vec<(usize, usize)> = Vec::new();
    let mut pos: usize = from;
    loop
        invariant_except_break
            from <= pos <= to <= v.len(),
            ranges_within(r@, v.len() as int),
            split_char(v@.subrange(from as int, to as int), c) == pieces(v@, r@) + split_char(
                v@.subrange(pos as int, to as int),
                c,
            ),
        ensures
            ranges_within(r@, v.len() as int),
            pieces(v@, r@) == split_char(v@.subrange(from as int, to as int), c),
        decreases to - pos,
    {
        let ghost s = v@.subrange(pos as int, to as int);
        let i = find_first(v, pos, to, CharClass::Is(c));
        proof {
            lemma_pieces_push(v@, r@, (pos, i));
        }
        if i == to {
            proof {
                assert(split_char(s, c) == seq![s]);
            }
            r.push((pos, to));
            assert(split_char(v@.subrange(from as int, to as int), c) =~= pieces(v@, r@));
            break;
        } else {
            proof {
                assert(s.take(i - pos) == v@.subrange(pos as int, i as int));
                assert(s.skip(i - pos + 1) == v@.subrange(i + 1, to as int));
                assert(split_char(v@.subrange(from as int, to as int), c) =~= pieces(
                    v@,
                    r@.push((pos, i)),
                ) + split_char(v@.subrange(i + 1, to as int), c));
            }
            r.push((pos, i));
            pos = i + 1;
        }
    }
    r
}

/// The ranges of the whitespace-separated tokens of `v[from..to]`.
pub fn token_ranges(v: &Vec<char>, from: usize, to: usize) -> (r: Vec<(usize, usize)>)
    requires
        from <= to <= v.len(),
    ensures
        ranges_within(r@, v.len() as int),
        pieces(v@, r@) == split_ws(v@.subrange(from as int, to as int)),
{
    let mut r: Vec<(usize, usize)> = Vec::new();
    let mut pos: usize = from;
    loop
        invariant_except_break
            from <= pos <= to <= v.len(),
            ranges_within(r@, v.len() as int),
            split_ws(v@.subrange(from as int, to as int)) == pieces(v@, r@) + split_ws(
                v@.subrange(pos as int, to as int),
            ),
        ensures
            ranges_within(r@, v.len() as int),
            pieces(v@, r@) == split_ws(v@.subrange(from as int, to as int)),
        decreases to - pos,
    {
        let ghost s = v@.subrange(pos as int, to as int);
        let t = find_first(v, pos, to, CharClass::NonSpace);
        if t == to {
            assert(split_ws(s) == Seq::<Seq<char>>::empty());
            assert(split_ws(v@.subrange(from as int, to as int)) =~= pieces(v@, r@));
            break;
        }
        let e = find_first(v, t, to, CharClass::Space);
        proof {
            let rest = s.skip(t - pos);
            assert(rest == v@.subrange(t as int, to as int));
            assert(rest.take(e - t) == v@.subrange(t as int, e as int));
            assert(rest.skip(e - t) == v@.subrange(e as int, to as int));
            lemma_pieces_push(v@, r@, (t, e));
            assert(split_ws(v@.subrange(from as int, to as int)) =~= pieces(v@, r@.push((t, e)))
                + split_ws(v@.subrange(e as int, to as int)));
        }
        r.push((t, e));
        pos = e;
    }
    r
}

pub proof fn lemma_digits_value_nonneg(s: Seq<char>)
    requires
        forall|i: int| 0 <= i < s.len() ==> is_digit(#[trigger] s[i]),
    ensures
        digits_value(s) >= 0,
    decreases s.len(),
{
    if s.len() > 0 {
        lemma_digits_value_nonneg(s.drop_last());
    }
}

pub proof fn lemma_digits_value_prefix(s: Seq<char>, j: int)
    requires
        forall|i: int| 0 <= i < s.len() ==> is_digit(#[trigger] s[i]),
        0 <= j <= s.len(),
    ensures
        digits_value(s.take(j)) <= digits_value(s),
    decreases s.len(),
{
    if j < s.len() {
        lemma_digits_value_nonneg(s.drop_last());
        lemma_digits_value_prefix(s.drop_last(), j);
        assert(s.drop_last().take(j) == s.take(j));
    } else {
        assert(s.take(j) == s);
    }
}

/// `parse_u32(v[from..to])`.
pub fn parse_u32_range(v: &Vec<char>, from: usize, to: usize) -> (r: Option<u32>)
    requires
        from <= to <= v.len(),
    ensures
        r == parse_u32(v@.subrange(from as int, to as int)),
{
    let ghost s = v@.subrange(from as int, to as int);
    if from == to {
        return None;
    }
    let start = if v[from] == '+' {
        from + 1
    } else {
        from
    };
    let ghost d = v@.subrange(start as int, to as int);
    assert(d == unsigned_digits(s));
    if start == to {
        return None;
    }
    let mut acc: u64 = 0;
    let mut i = start;
    while i < to
        invariant
            from <= start <= i <= to <= v.len(),
            start < to,
            d == v@.subrange(start as int, to as int),
            s == v@.subrange(from as int, to as int),
            s.len() > 0,
            d.len() > 0,
            d == unsigned_digits(s),
            forall|j: int| start <= j < i ==> is_digit(#[trigger] v@[j]),
            acc == digits_value(v@.subrange(start as int, i as int)),
            acc <= u32::MAX,
        decreases to - i,
    {
        let c = v[i];
        if !('0' <= c && c <= '9') {
            assert(!is_digit(d[i - start]));
            assert(!(forall|j: int| 0 <= j < d.len() ==> is_digit(#[trigger] d[j])));
            return None;
        }
        let digit = (c as u32 - '0' as u32) as u64;
        let ghost x = v@.subrange(start as int, i + 1);
        proof {
            assert(x.drop_last() == v@.subrange(start as int, i as int));
            assert(x.last() == c);
            assert(digits_value(x) == acc * 10 + digit);
        }
        let next = acc * 10 + digit;
        if next > 0xFFFF_FFFFu64 {
            proof {
                if forall|j: int| 0 <= j < d.len() ==> is_digit(#[trigger] d[j]) {
                    lemma_digits_value_prefix(d, i + 1 - start);
                    assert(d.take(i + 1 - start) == x);
                    assert(digits_value(d) > u32::MAX);
                }
            }
            return None;
        }
        acc = next;
        i = i + 1;
    }
    proof {
        assert(v@.subrange(start as int, to as int) == d);
        assert forall|j: int| 0 <= j < d.len() implies is_digit(#[trigger] d[j]) by {
            assert(d[j] == v@[start + j]);
        }
    }
    Some(acc as u32)
}

} // verus!
