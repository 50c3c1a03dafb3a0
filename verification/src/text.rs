//! Character-level helpers shared by the converters: conversion between
//! `&str` and character vectors, whitespace classification, trimming,
//! prefix tests and decimal rendering.

use vstd::prelude::*;

verus! {

broadcast use vstd::string::group_string_axioms;

// ---------------------------------------------------------------------------
// Specifications
// ---------------------------------------------------------------------------

/// Unicode `White_Space`, the property behind `char::is_whitespace` and
/// `str::trim`.
pub open spec fn is_ws(c: char) -> bool {
    ||| ('\t' <= c && c <= '\r')
    ||| c == ' '
    ||| c == '\u{85}'
    ||| c == '\u{a0}'
    ||| c == '\u{1680}'
    ||| ('\u{2000}' <= c && c <= '\u{200a}')
    ||| c == '\u{2028}'
    ||| c == '\u{2029}'
    ||| c == '\u{202f}'
    ||| c == '\u{205f}'
    ||| c == '\u{3000}'
}

/// ASCII whitespace as `u8::is_ascii_whitespace` / `char::is_ascii_whitespace`
/// define it: space, tab, line feed, form feed and carriage return.
pub open spec fn is_ascii_ws(c: char) -> bool {
    c == ' ' || c == '\t' || c == '\n' || c == '\x0C' || c == '\r'
}

/// `s` without its trailing whitespace (`str::trim_end`).
pub open spec fn trim_end_ws(s: Seq<char>) -> Seq<char>
    decreases s.len(),
{
    if s.len() > 0 && is_ws(s.last()) {
        trim_end_ws(s.drop_last())
    } else {
        s
    }
}

/// `s` without its leading whitespace (`str::trim_start`).
pub open spec fn trim_start_ws(s: Seq<char>) -> Seq<char>
    decreases s.len(),
{
    if s.len() > 0 && is_ws(s[0]) {
        trim_start_ws(s.drop_first())
    } else {
        s
    }
}

/// `s` without leading and trailing whitespace (`str::trim`).
pub open spec fn trim_ws(s: Seq<char>) -> Seq<char> {
    trim_start_ws(trim_end_ws(s))
}

/// Whether `p` is a prefix of `s`.
pub open spec fn has_prefix(s: Seq<char>, p: Seq<char>) -> bool {
    p.len() <= s.len() && s.subrange(0, p.len() as int) == p
}

/// Whether `p` is a suffix of `s`.
pub open spec fn has_suffix(s: Seq<char>, p: Seq<char>) -> bool {
    p.len() <= s.len() && s.subrange(s.len() - p.len(), s.len() as int) == p
}

/// The character `c` with ASCII upper-case letters mapped to lower case.
pub open spec fn lower_char(c: char) -> char {
    if 'A' <= c && c <= 'Z' {
        (((c as u32) + 32) as u8) as char
    } else {
        c
    }
}

/// `s` with ASCII upper-case letters mapped to lower case
/// (`str::to_ascii_lowercase`).
pub open spec fn lower_ascii(s: Seq<char>) -> Seq<char> {
    s.map_values(|c: char| lower_char(c))
}

/// The decimal digit for `d` (`0 <= d < 10`).
pub open spec fn digit_char(d: nat) -> char {
    ((d + 48) as u32) as char
}

/// The decimal rendering of `n` without leading zeros (`"0"` for zero).
pub open spec fn decimal(n: nat) -> Seq<char>
    decreases n,
{
    if n < 10 {
        seq![digit_char(n)]
    } else {
        decimal(n / 10).push(digit_char(n % 10))
    }
}

/// `n` copies of `s`, concatenated (`str::repeat`).
pub open spec fn repeat(s: Seq<char>, n: nat) -> Seq<char>
    decreases n,
{
    if n == 0 {
        Seq::empty()
    } else {
        repeat(s, (n - 1) as nat) + s
    }
}

/// Index of the first occurrence of `pat` in `s` at or after `from`, if any.
pub open spec fn occurs_at(s: Seq<char>, pat: Seq<char>, i: int) -> bool {
    0 <= i && i + pat.len() <= s.len() && s.subrange(i, i + pat.len()) == pat
}

/// The index of the first occurrence of `pat` in `s` (`str::find`).
#[verifier::opaque]
pub open spec fn first_occurrence(s: Seq<char>, pat: Seq<char>) -> Option<int> {
    if exists|i: int| occurs_at(s, pat, i) {
        Some(choose|i: int| occurs_at(s, pat, i) && forall|j: int| 0 <= j < i ==> !occurs_at(s, pat, j))
    } else {
        None
    }
}

/// Whether `pat` occurs anywhere in `s` (`str::contains`).
pub open spec fn contains_seq(s: Seq<char>, pat: Seq<char>) -> bool {
    exists|i: int| occurs_at(s, pat, i)
}

/// `parts` joined with the separator `sep` between consecutive parts.
pub open spec fn join_with(parts: Seq<Seq<char>>, sep: Seq<char>) -> Seq<char>
    decreases parts.len(),
{
    if parts.len() == 0 {
        Seq::empty()
    } else if parts.len() == 1 {
        parts[0]
    } else {
        join_with(parts.drop_last(), sep) + sep + parts.last()
    }
}

/// Index of the first occurrence of `c` in `s`.
pub open spec fn first_index_of(s: Seq<char>, c: char) -> Option<int>
    decreases s.len(),
{
    if s.len() == 0 {
        None
    } else if s[0] == c {
        Some(0)
    } else {
        match first_index_of(s.drop_first(), c) {
            Some(i) => Some(i + 1),
            None => None,
        }
    }
}

/// `s` split at every occurrence of `c` (`str::split`); always at least one part.
pub open spec fn split_on(s: Seq<char>, c: char) -> Seq<Seq<char>>
    decreases s.len(),
{
    match first_index_of(s, c) {
        Some(i) => if 0 <= i < s.len() {
            seq![s.subrange(0, i)] + split_on(s.subrange(i + 1, s.len() as int), c)
        } else {
            seq![s]
        },
        None => seq![s],
    }
}

/// The value of a hexadecimal digit.
pub open spec fn hex_digit(c: char) -> Option<nat> {
    if '0' <= c && c <= '9' {
        Some((c as nat - 48) as nat)
    } else if 'a' <= c && c <= 'f' {
        Some((c as nat - 87) as nat)
    } else if 'A' <= c && c <= 'F' {
        Some((c as nat - 55) as nat)
    } else {
        None
    }
}

/// The number written in `s` with digits of base `base` (10 or 16), if every
/// character is such a digit and `s` is non-empty.
pub open spec fn number_value(s: Seq<char>, base: nat) -> Option<nat>
    decreases s.len(),
{
    if s.len() == 0 {
        None
    } else {
        let d = match hex_digit(s.last()) {
            Some(d) => if d < base {
                Some(d)
            } else {
                None
            },
            None => None,
        };
        match d {
            Some(d) => if s.len() == 1 {
                Some(d)
            } else {
                match number_value(s.drop_last(), base) {
                    Some(v) => Some(v * base + d),
                    None => None,
                }
            },
            None => None,
        }
    }
}

/// An unsigned decimal integer as `str::parse` reads it: an optional `+`
/// followed by one or more decimal digits, with a value at most `max`.
pub open spec fn parse_uint_spec(s: Seq<char>, max: nat) -> Option<nat> {
    let body = if s.len() > 0 && s[0] == '+' {
        s.drop_first()
    } else {
        s
    };
    match number_value(body, 10) {
        Some(v) => if v <= max {
            Some(v)
        } else {
            None
        },
        None => None,
    }
}

// ---------------------------------------------------------------------------
// Lemmas
// ---------------------------------------------------------------------------

/// Trimming the end of a prefix that ends in whitespace drops that character.
pub proof fn lemma_trim_end_step(s: Seq<char>, j: int)
    requires
        0 < j <= s.len(),
        is_ws(s[j - 1]),
    ensures
        trim_end_ws(s.subrange(0, j)) == trim_end_ws(s.subrange(0, j - 1)),
{
    assert(s.subrange(0, j).drop_last() =~= s.subrange(0, j - 1));
}

/// Trimming the start of a suffix that begins with whitespace drops it.
pub proof fn lemma_trim_start_step(s: Seq<char>, i: int)
    requires
        0 <= i < s.len(),
        is_ws(s[i]),
    ensures
        trim_start_ws(s.subrange(i, s.len() as int)) == trim_start_ws(
            s.subrange(i + 1, s.len() as int),
        ),
{
    assert(s.subrange(i, s.len() as int).drop_first() =~= s.subrange(i + 1, s.len() as int));
}

/// `trim_end_ws` yields a prefix of its argument.
pub proof fn lemma_trim_end_prefix(s: Seq<char>)
    ensures
        trim_end_ws(s).len() <= s.len(),
        trim_end_ws(s) =~= s.subrange(0, trim_end_ws(s).len() as int),
        trim_end_ws(s).len() > 0 ==> !is_ws(trim_end_ws(s).last()),
    decreases s.len(),
{
    if s.len() > 0 && is_ws(s.last()) {
        lemma_trim_end_prefix(s.drop_last());
    }
}

/// `trim_start_ws` yields a suffix of its argument.
pub proof fn lemma_trim_start_suffix(s: Seq<char>)
    ensures
        trim_start_ws(s).len() <= s.len(),
        trim_start_ws(s) =~= s.subrange(s.len() - trim_start_ws(s).len(), s.len() as int),
        trim_start_ws(s).len() > 0 ==> !is_ws(trim_start_ws(s)[0]),
    decreases s.len(),
{
    if s.len() > 0 && is_ws(s[0]) {
        lemma_trim_start_suffix(s.drop_first());
    }
}

/// A sequence is all whitespace exactly when trimming its end empties it.
pub proof fn lemma_trim_end_empty(s: Seq<char>)
    ensures
        trim_end_ws(s).len() == 0 <==> forall|i: int| 0 <= i < s.len() ==> is_ws(s[i]),
    decreases s.len(),
{
    if s.len() > 0 {
        lemma_trim_end_empty(s.drop_last());
        if is_ws(s.last()) {
            assert forall|i: int| 0 <= i < s.len() && (forall|k: int| 0 <= k < s.drop_last().len() ==> is_ws(s.drop_last()[k])) implies is_ws(s[i]) by {
                if i < s.len() - 1 {
                    assert(s.drop_last()[i] == s[i]);
                }
            }
            assert((forall|i: int| 0 <= i < s.len() ==> is_ws(s[i])) ==> (forall|k: int| 0 <= k < s.drop_last().len() ==> is_ws(s.drop_last()[k])));
        }
    }
}

/// Trimming both ends empties a sequence exactly when it is all whitespace.
pub proof fn lemma_trim_empty(s: Seq<char>)
    ensures
        trim_ws(s).len() == 0 <==> forall|i: int| 0 <= i < s.len() ==> is_ws(s[i]),
        trim_ws(s).len() == 0 <==> trim_end_ws(s).len() == 0,
{
    lemma_trim_end_empty(s);
    lemma_trim_start_empty(trim_end_ws(s));
    lemma_trim_end_prefix(s);
    let t = trim_end_ws(s);
    if t.len() > 0 {
        assert(!is_ws(t[t.len() - 1]));
    }
}

/// Trimming is idempotent: a trimmed sequence has no whitespace at either
/// end.
pub proof fn lemma_trim_idempotent(s: Seq<char>)
    ensures
        trim_ws(trim_ws(s)) == trim_ws(s),
{
    let e = trim_end_ws(s);
    let t = trim_start_ws(e);
    lemma_trim_end_prefix(s);
    lemma_trim_start_suffix(e);
    if t.len() > 0 {
        assert(t.last() == e.last());
        assert(!is_ws(t.last()));
        assert(trim_end_ws(t) == t);
        assert(!is_ws(t[0]));
        assert(trim_start_ws(t) == t);
    } else {
        assert(trim_end_ws(t) =~= t);
        assert(trim_start_ws(t) =~= t);
    }
}

/// The first match found by a left-to-right scan is `first_occurrence`.
pub proof fn lemma_first_occurrence(s: Seq<char>, pat: Seq<char>, i: int)
    requires
        occurs_at(s, pat, i),
        forall|j: int| 0 <= j < i ==> !occurs_at(s, pat, j),
    ensures
        first_occurrence(s, pat) == Some(i),
        contains_seq(s, pat),
{
    reveal(first_occurrence);
    let c = choose|j: int| occurs_at(s, pat, j) && forall|k: int| 0 <= k < j ==> !occurs_at(s, pat, k);
    assert(occurs_at(s, pat, i) && forall|k: int| 0 <= k < i ==> !occurs_at(s, pat, k));
    if c < i {
        assert(!occurs_at(s, pat, c));
    } else if c > i {
        assert(!occurs_at(s, pat, i));
    }
}

/// A sequence is all whitespace exactly when trimming its start empties it.
pub proof fn lemma_trim_start_empty(s: Seq<char>)
    ensures
        trim_start_ws(s).len() == 0 <==> forall|i: int| 0 <= i < s.len() ==> is_ws(s[i]),
    decreases s.len(),
{
    if s.len() > 0 {
        lemma_trim_start_empty(s.drop_first());
        if is_ws(s[0]) {
            assert forall|i: int| 0 <= i < s.len() && (forall|k: int| 0 <= k < s.drop_first().len() ==> is_ws(s.drop_first()[k])) implies is_ws(s[i]) by {
                if i > 0 {
                    assert(s.drop_first()[i - 1] == s[i]);
                }
            }
            assert((forall|i: int| 0 <= i < s.len() ==> is_ws(s[i])) ==> (forall|k: int| 0 <= k < s.drop_first().len() ==> is_ws(s.drop_first()[k]))) by {
                assert forall|k: int| (forall|i: int| 0 <= i < s.len() ==> is_ws(s[i])) && 0 <= k < s.drop_first().len() implies is_ws(s.drop_first()[k]) by {
                    assert(s.drop_first()[k] == s[k + 1]);
                }
            }
        }
    }
}

/// The first `c` in `pre + rest`, when `pre` holds none and `rest` starts
/// with `c`, is at `pre.len()`.
pub proof fn lemma_first_index_after(pre: Seq<char>, rest: Seq<char>, c: char)
    requires
        forall|k: int| 0 <= k < pre.len() ==> pre[k] != c,
        rest.len() > 0,
        rest[0] == c,
    ensures
        first_index_of(pre + rest, c) == Some(pre.len() as int),
    decreases pre.len(),
{
    if pre.len() > 0 {
        assert((pre + rest).drop_first() =~= pre.drop_first() + rest);
        lemma_first_index_after(pre.drop_first(), rest, c);
    } else {
        assert(pre + rest =~= rest);
    }
}

/// A sequence without `c` has no first `c`.
pub proof fn lemma_first_index_none(s: Seq<char>, c: char)
    requires
        forall|k: int| 0 <= k < s.len() ==> s[k] != c,
    ensures
        first_index_of(s, c) is None,
    decreases s.len(),
{
    if s.len() > 0 {
        lemma_first_index_none(s.drop_first(), c);
    }
}

/// The first index, when present, is in range and holds `c`.
pub proof fn lemma_first_index_bounds(s: Seq<char>, c: char)
    ensures
        first_index_of(s, c) matches Some(i) ==> 0 <= i < s.len() && s[i] == c,
    decreases s.len(),
{
    if s.len() > 0 && s[0] != c {
        lemma_first_index_bounds(s.drop_first(), c);
    }
}

/// A prefix of a number's digits reads as a smaller or equal number.
pub proof fn lemma_number_monotone(s: Seq<char>, base: nat, k: int)
    requires
        base == 10 || base == 16,
        1 <= k <= s.len(),
        number_value(s, base) is Some,
    ensures
        number_value(s.subrange(0, k), base) is Some,
        number_value(s.subrange(0, k), base)->0 <= number_value(s, base)->0,
    decreases s.len(),
{
    if k < s.len() {
        assert(s.drop_last() =~= s.subrange(0, s.len() - 1));
        lemma_number_monotone(s.drop_last(), base, k);
        assert(s.drop_last().subrange(0, k) =~= s.subrange(0, k));
        let v = number_value(s.drop_last(), base)->0;
        assert(v * base >= v) by (nonlinear_arith)
            requires base >= 1;
    } else {
        assert(s.subrange(0, k) =~= s);
    }
}

/// The rendering of a natural number is non-empty.
pub proof fn lemma_decimal_nonempty(n: nat)
    ensures
        decimal(n).len() > 0,
    decreases n,
{
    if n >= 10 {
        lemma_decimal_nonempty(n / 10);
    }
}

// ---------------------------------------------------------------------------
// Executable helpers
// ---------------------------------------------------------------------------

/// The characters of `s`, in order.
pub fn chars_of(s: &str) -> (v: Vec<char>)
    ensures
        v@ == s@,
{
    let mut v: Vec<char> = Vec::new();
    for c in it: s.chars()
        invariant
            v@ == it.seq().take(it.index() as int),
            it.seq() == s@,
    {
        v.push(c);
    }
    v
}

/// Collects characters into a `String` (`String: FromIterator<char>`).
#[verifier::external_body]
pub fn string_from_chars(v: &[char]) -> (s: String)
    ensures
        s@ == v@,
{
    v.iter().collect()
}

/// Appends all of `s` to `out`.
pub fn push_all(out: &mut Vec<char>, s: &[char])
    ensures
        final(out)@ == old(out)@ + s@,
{
    let mut i: usize = 0;
    while i < s.len()
        invariant
            i <= s.len(),
            out@ == old(out)@ + s@.subrange(0, i as int),
        decreases s.len() - i,
    {
        out.push(s[i]);
        i = i + 1;
        assert(out@ =~= old(out)@ + s@.subrange(0, i as int));
    }
    assert(s@.subrange(0, s.len() as int) =~= s@);
}

/// Appends the characters of `s` to `out`.
pub fn push_str(out: &mut Vec<char>, s: &str)
    ensures
        final(out)@ == old(out)@ + s@,
{
    let v = chars_of(s);
    push_all(out, v.as_slice());
}

/// `char::is_whitespace`: membership in Unicode `White_Space`.
pub fn is_whitespace(c: char) -> (b: bool)
    ensures
        b == is_ws(c),
{
    ('\t' <= c && c <= '\r') || c == ' ' || c == '\u{85}' || c == '\u{a0}' || c == '\u{1680}'
        || ('\u{2000}' <= c && c <= '\u{200a}') || c == '\u{2028}' || c == '\u{2029}' || c
        == '\u{202f}' || c == '\u{205f}' || c == '\u{3000}'
}

/// `char::is_ascii_whitespace`.
pub fn is_ascii_whitespace(c: char) -> (b: bool)
    ensures
        b == is_ascii_ws(c),
{
    c == ' ' || c == '\t' || c == '\n' || c == '\x0C' || c == '\r'
}

/// Length of `s` once trailing whitespace is removed.
pub fn trim_end_len(s: &[char]) -> (n: usize)
    ensures
        n <= s.len(),
        s@.subrange(0, n as int) == trim_end_ws(s@),
{
    let mut j = s.len();
    assert(s@.subrange(0, s.len() as int) =~= s@);
    while j > 0 && is_whitespace(s[j - 1])
        invariant
            j <= s.len(),
            trim_end_ws(s@.subrange(0, j as int)) == trim_end_ws(s@),
        decreases j,
    {
        proof {
            lemma_trim_end_step(s@, j as int);
        }
        j = j - 1;
    }
    assert(s@.subrange(0, s.len() as int) =~= s@);
    j
}

/// Number of leading whitespace characters of `s`.
pub fn trim_start_len(s: &[char]) -> (n: usize)
    ensures
        n <= s.len(),
        s@.subrange(n as int, s.len() as int) == trim_start_ws(s@),
{
    let mut i: usize = 0;
    assert(s@.subrange(0, s.len() as int) =~= s@);
    while i < s.len() && is_whitespace(s[i])
        invariant
            i <= s.len(),
            trim_start_ws(s@.subrange(i as int, s.len() as int)) == trim_start_ws(s@),
        decreases s.len() - i,
    {
        proof {
            lemma_trim_start_step(s@, i as int);
        }
        i = i + 1;
    }
    i
}

/// The sub-slice `s[from..to]` as a vector.
pub fn slice_chars(s: &[char], from: usize, to: usize) -> (v: Vec<char>)
    requires
        from <= to <= s.len(),
    ensures
        v@ == s@.subrange(from as int, to as int),
{
    let mut v: Vec<char> = Vec::new();
    let mut i = from;
    while i < to
        invariant
            from <= i <= to <= s.len(),
            v@ == s@.subrange(from as int, i as int),
        decreases to - i,
    {
        v.push(s[i]);
        i = i + 1;
        assert(v@ =~= s@.subrange(from as int, i as int));
    }
    v
}

/// The sub-slice `data[from..to]` as a vector.
pub fn bytes_slice(data: &[u8], from: usize, to: usize) -> (v: Vec<u8>)
    requires
        from <= to <= data.len(),
    ensures
        v@ == data@.subrange(from as int, to as int),
{
    let mut v: Vec<u8> = Vec::new();
    let mut i = from;
    while i < to
        invariant
            from <= i <= to <= data.len(),
            v@ == data@.subrange(from as int, i as int),
        decreases to - i,
    {
        v.push(data[i]);
        i = i + 1;
        assert(v@ =~= data@.subrange(from as int, i as int));
    }
    v
}

/// Index of the first occurrence of `c` in `s` (see [`first_index_of`]).
pub fn first_index(s: &[char], c: char) -> (r: Option<usize>)
    ensures
        r matches Some(i) ==> first_index_of(s@, c) == Some(i as int),
        r is None ==> first_index_of(s@, c) is None,
{
    let mut i: usize = 0;
    assert(s@.subrange(0, s.len() as int) =~= s@);
    while i < s.len()
        invariant
            i <= s.len(),
            first_index_of(s@, c) == (match first_index_of(s@.subrange(i as int, s.len() as int), c) {
                Some(k) => Some(k + i),
                None => None,
            }),
        decreases s.len() - i,
    {
        assert(s@.subrange(i as int, s.len() as int).drop_first() =~= s@.subrange(i + 1, s.len() as int));
        if s[i] == c {
            return Some(i);
        }
        i = i + 1;
    }
    None
}

/// Index of the last occurrence of `c` in `s`.
pub fn last_index(s: &[char], c: char) -> (r: Option<usize>)
    ensures
        r matches Some(i) ==> crate::detection::last_index_of(s@, c) == Some(i as int) && i < s.len(),
        r is None ==> crate::detection::last_index_of(s@, c) is None,
{
    let mut j = s.len();
    assert(s@.subrange(0, s.len() as int) =~= s@);
    while j > 0
        invariant
            j <= s.len(),
            crate::detection::last_index_of(s@.subrange(0, j as int), c) == crate::detection::last_index_of(s@, c),
        decreases j,
    {
        assert(s@.subrange(0, j as int).drop_last() =~= s@.subrange(0, j - 1));
        if s[j - 1] == c {
            return Some(j - 1);
        }
        j = j - 1;
    }
    None
}

/// `s` without trailing whitespace.
pub fn trim_end(s: &[char]) -> (v: Vec<char>)
    ensures
        v@ == trim_end_ws(s@),
{
    let n = trim_end_len(s);
    slice_chars(s, 0, n)
}

/// `s` without leading whitespace.
pub fn trim_start(s: &[char]) -> (v: Vec<char>)
    ensures
        v@ == trim_start_ws(s@),
{
    let n = trim_start_len(s);
    slice_chars(s, n, s.len())
}

/// `s` without leading or trailing whitespace.
pub fn trim(s: &[char]) -> (v: Vec<char>)
    ensures
        v@ == trim_ws(s@),
{
    let e = trim_end(s);
    trim_start(e.as_slice())
}

/// The characters of `s` with surrounding whitespace removed.
pub fn trim_str(s: &str) -> (v: Vec<char>)
    ensures
        v@ == trim_ws(s@),
{
    let c = chars_of(s);
    trim(c.as_slice())
}

/// Whether `s` consists only of whitespace (`s.trim().is_empty()`).
pub fn is_blank(s: &[char]) -> (b: bool)
    ensures
        b == (trim_ws(s@).len() == 0),
        b == (trim_end_ws(s@).len() == 0),
{
    proof {
        lemma_trim_empty(s@);
    }
    trim_end_len(s) == 0
}

/// Character-wise equality of two slices.
pub fn eq_chars(a: &[char], b: &[char]) -> (r: bool)
    ensures
        r == (a@ == b@),
{
    if a.len() != b.len() {
        return false;
    }
    let mut i: usize = 0;
    while i < a.len()
        invariant
            a.len() == b.len(),
            i <= a.len(),
            forall|k: int| 0 <= k < i ==> a@[k] == b@[k],
        decreases a.len() - i,
    {
        if a[i] != b[i] {
            return false;
        }
        i = i + 1;
    }
    assert(a@ =~= b@);
    true
}

/// Whether `s` equals the string `lit`.
pub fn eq_str(s: &[char], lit: &str) -> (r: bool)
    ensures
        r == (s@ == lit@),
{
    let l = chars_of(lit);
    eq_chars(s, l.as_slice())
}

/// Whether `p` is a prefix of `s`.
pub fn starts_with(s: &[char], p: &[char]) -> (r: bool)
    ensures
        r == has_prefix(s@, p@),
{
    if p.len() > s.len() {
        return false;
    }
    let mut i: usize = 0;
    while i < p.len()
        invariant
            p.len() <= s.len(),
            i <= p.len(),
            forall|k: int| 0 <= k < i ==> s@[k] == p@[k],
        decreases p.len() - i,
    {
        if s[i] != p[i] {
            assert(s@.subrange(0, p.len() as int)[i as int] != p@[i as int]);
            return false;
        }
        i = i + 1;
    }
    assert(s@.subrange(0, p.len() as int) =~= p@);
    true
}

/// Whether `s` starts with the string `lit`.
pub fn starts_with_str(s: &[char], lit: &str) -> (r: bool)
    ensures
        r == has_prefix(s@, lit@),
{
    let l = chars_of(lit);
    starts_with(s, l.as_slice())
}

/// Whether `p` is a suffix of `s`.
pub fn ends_with(s: &[char], p: &[char]) -> (r: bool)
    ensures
        r == has_suffix(s@, p@),
{
    if p.len() > s.len() {
        return false;
    }
    let off = s.len() - p.len();
    let mut i: usize = 0;
    while i < p.len()
        invariant
            p.len() <= s.len(),
            off == s.len() - p.len(),
            i <= p.len(),
            forall|k: int| 0 <= k < i ==> s@[off + k] == p@[k],
        decreases p.len() - i,
    {
        if s[off + i] != p[i] {
            assert(s@.subrange(off as int, s.len() as int)[i as int] != p@[i as int]);
            return false;
        }
        i = i + 1;
    }
    assert(s@.subrange(off as int, s.len() as int) =~= p@);
    true
}

/// Whether `s` ends with the string `lit`.
pub fn ends_with_str(s: &[char], lit: &str) -> (r: bool)
    ensures
        r == has_suffix(s@, lit@),
{
    let l = chars_of(lit);
    ends_with(s, l.as_slice())
}

/// Whether `pat` occurs in `s` starting at index `i`.
pub fn matches_at(s: &[char], pat: &[char], i: usize) -> (r: bool)
    ensures
        r == occurs_at(s@, pat@, i as int),
{
    if i > s.len() || pat.len() > s.len() - i {
        return false;
    }
    let mut k: usize = 0;
    while k < pat.len()
        invariant
            i + pat.len() <= s.len(),
            k <= pat.len(),
            forall|m: int| 0 <= m < k ==> s@[i + m] == pat@[m],
        decreases pat.len() - k,
    {
        if s[i + k] != pat[k] {
            assert(s@.subrange(i as int, i + pat.len())[k as int] != pat@[k as int]);
            return false;
        }
        k = k + 1;
    }
    assert(s@.subrange(i as int, i + pat.len()) =~= pat@);
    true
}

/// The index of the first occurrence of `pat` in `s` (`str::find`).
pub fn find(s: &[char], pat: &[char]) -> (r: Option<usize>)
    ensures
        r matches Some(i) ==> first_occurrence(s@, pat@) == Some(i as int) && occurs_at(s@, pat@, i as int),
        r is None ==> first_occurrence(s@, pat@) is None,
        r is None <==> !contains_seq(s@, pat@),
{
    let mut i: usize = 0;
    while i < s.len()
        invariant
            i <= s.len(),
            forall|j: int| 0 <= j < i ==> !occurs_at(s@, pat@, j),
        decreases s.len() - i,
    {
        if matches_at(s, pat, i) {
            proof {
                lemma_first_occurrence(s@, pat@, i as int);
            }
            return Some(i);
        }
        i = i + 1;
    }
    if matches_at(s, pat, i) {
        proof {
            lemma_first_occurrence(s@, pat@, i as int);
        }
        return Some(i);
    }
    assert forall|j: int| !occurs_at(s@, pat@, j) by {
        if 0 <= j && j + pat@.len() <= s@.len() {
            assert(j <= i);
        }
    }
    reveal(first_occurrence);
    None
}

/// `s` with ASCII letters lower-cased (`str::to_ascii_lowercase`).
pub fn to_ascii_lower(s: &[char]) -> (v: Vec<char>)
    ensures
        v@ == lower_ascii(s@),
{
    let mut v: Vec<char> = Vec::new();
    let mut i: usize = 0;
    while i < s.len()
        invariant
            i <= s.len(),
            v@ == lower_ascii(s@.subrange(0, i as int)),
        decreases s.len() - i,
    {
        let c = s[i];
        let d = if 'A' <= c && c <= 'Z' {
            ((c as u32) + 32) as u8 as char
        } else {
            c
        };
        v.push(d);
        i = i + 1;
        assert(v@ =~= lower_ascii(s@.subrange(0, i as int)));
    }
    assert(s@.subrange(0, s.len() as int) =~= s@);
    v
}

/// The decimal rendering of `n`.
pub fn decimal_chars(n: usize) -> (v: Vec<char>)
    ensures
        v@ == decimal(n as nat),
    decreases n,
{
    let d = (n % 10) as u8;
    let c = (d + 48) as char;
    if n < 10 {
        let mut v: Vec<char> = Vec::new();
        v.push(c);
        assert(v@ =~= decimal(n as nat));
        v
    } else {
        let mut v = decimal_chars(n / 10);
        v.push(c);
        v
    }
}

/// Appends `parts` joined by `sep` to `out`.
pub fn push_joined(out: &mut Vec<char>, parts: &[Vec<char>], sep: &[char])
    ensures
        final(out)@ == old(out)@ + join_with(parts.deep_view(), sep@),
{
    let mut i: usize = 0;
    while i < parts.len()
        invariant
            i <= parts.len(),
            out@ == old(out)@ + join_with(parts.deep_view().subrange(0, i as int), sep@),
        decreases parts.len() - i,
    {
        if i > 0 {
            push_all(out, sep);
        }
        push_all(out, parts[i].as_slice());
        i = i + 1;
        let ghost sub = parts.deep_view().subrange(0, i as int);
        assert(sub.drop_last() =~= parts.deep_view().subrange(0, i - 1));
        assert(sub.last() =~= parts@[i - 1]@);
        if i == 1 {
            assert(sub.len() == 1 && sub[0] =~= parts@[0]@);
        }
        assert(out@ =~= old(out)@ + join_with(sub, sep@));
    }
    assert(parts.deep_view().subrange(0, parts.len() as int) =~= parts.deep_view());
}

/// Splits `s` at every `c` (see [`split_on`]).
pub fn split_chars(s: &[char], c: char) -> (v: Vec<Vec<char>>)
    ensures
        v.deep_view() == split_on(s@, c),
        v.len() >= 1,
{
    let mut parts: Vec<Vec<char>> = Vec::new();
    let mut cur: Vec<char> = Vec::new();
    let mut i: usize = 0;
    assert(cur@ + s@.subrange(0, s.len() as int) =~= s@);
    while i < s.len()
        invariant
            i <= s.len(),
            forall|k: int| 0 <= k < cur@.len() ==> cur@[k] != c,
            parts.deep_view() + split_on(cur@ + s@.subrange(i as int, s.len() as int), c)
                == split_on(s@, c),
        decreases s.len() - i,
    {
        let ghost rest = s@.subrange(i as int, s.len() as int);
        if s[i] == c {
            proof {
                lemma_first_index_after(cur@, rest, c);
                let whole = cur@ + rest;
                assert(whole.subrange(0, cur@.len() as int) =~= cur@);
                assert(whole.subrange(cur@.len() as int + 1, whole.len() as int) =~= s@.subrange(
                    i + 1,
                    s.len() as int,
                ));
                assert(Seq::<char>::empty() + s@.subrange(i + 1, s.len() as int) =~= s@.subrange(
                    i + 1,
                    s.len() as int,
                ));
            }
            let ghost before = parts.deep_view();
            let ghost cv = cur@;
            proof {
                lemma_deep_view_chars(cur);
            }
            parts.push(cur);
            cur = Vec::new();
            assert(parts.deep_view() =~= before.push(cv));
            proof {
                let whole = cv + rest;
                let tail = s@.subrange(i + 1, s.len() as int);
                assert(split_on(whole, c) == seq![cv] + split_on(tail, c));
                assert(cur@ + tail =~= tail);
                assert(before.push(cv) + split_on(tail, c) =~= before + (seq![cv] + split_on(
                    tail,
                    c,
                )));
            }
        } else {
            let ghost cv = cur@;
            cur.push(s[i]);
            assert(cv + rest =~= cur@ + s@.subrange(i + 1, s.len() as int));
        }
        i = i + 1;
    }
    proof {
        assert(cur@ + s@.subrange(s.len() as int, s.len() as int) =~= cur@);
        lemma_first_index_none(cur@, c);
    }
    let ghost before = parts.deep_view();
    let ghost cv = cur@;
    proof {
        lemma_deep_view_chars(cur);
    }
    parts.push(cur);
    assert(parts.deep_view() =~= before + seq![cv]);
    parts
}

/// The deep view of a character vector is its view.
pub proof fn lemma_deep_view_chars(v: Vec<char>)
    ensures
        v.deep_view() == v@,
{
    assert(v.deep_view() =~= v@);
}

/// The first `n` parts of `parts`, copied.
pub fn slice_parts(parts: &[Vec<char>], n: usize) -> (v: Vec<Vec<char>>)
    requires
        n <= parts.len(),
    ensures
        v.deep_view() == parts.deep_view().subrange(0, n as int),
{
    let mut v: Vec<Vec<char>> = Vec::new();
    let mut i: usize = 0;
    while i < n
        invariant
            i <= n <= parts.len(),
            v.deep_view() == parts.deep_view().subrange(0, i as int),
        decreases n - i,
    {
        let c = slice_chars(parts[i].as_slice(), 0, parts[i].len());
        proof {
            lemma_deep_view_chars(c);
            lemma_deep_view_chars(parts@[i as int]);
            assert(c@ =~= parts@[i as int]@);
        }
        let ghost before = v.deep_view();
        v.push(c);
        assert(v.deep_view() =~= before.push(parts.deep_view()[i as int]));
        i = i + 1;
        assert(v.deep_view() =~= parts.deep_view().subrange(0, i as int));
    }
    v
}

/// Parses an unsigned decimal integer no greater than `max` (see
/// [`parse_uint_spec`]).
pub fn parse_uint(s: &[char], max: u64) -> (r: Option<u64>)
    ensures
        r matches Some(v) ==> parse_uint_spec(s@, max as nat) == Some(v as nat),
        r is None ==> parse_uint_spec(s@, max as nat) is None,
{
    let start: usize = if s.len() > 0 && s[0] == '+' {
        1
    } else {
        0
    };
    let body = slice_chars(s, start, s.len());
    proof {
        if start == 1 {
            assert(body@ =~= s@.drop_first());
        } else {
            assert(body@ =~= s@);
        }
    }
    if body.len() == 0 {
        return None;
    }
    let mut v: u64 = 0;
    let mut i: usize = 0;
    while i < body.len()
        invariant
            i <= body.len(),
            body.len() > 0,
            body@ == (if s@.len() > 0 && s@[0] == '+' { s@.drop_first() } else { s@ }),
            v <= max,
            i == 0 ==> v == 0,
            i > 0 ==> number_value(body@.subrange(0, i as int), 10) == Some(v as nat),
        decreases body.len() - i,
    {
        let ghost pre = body@.subrange(0, i as int + 1);
        assert(pre.last() == body@[i as int]);
        assert(pre.drop_last() =~= body@.subrange(0, i as int));
        let c = body[i];
        if !('0' <= c && c <= '9') {
            proof {
                assert(hex_digit(c) is None || hex_digit(c)->0 >= 10);
                assert(number_value(pre, 10) is None);
                if number_value(body@, 10) is Some {
                    lemma_number_monotone(body@, 10, i as int + 1);
                }
                assert(number_value(body@, 10) is None);
            }
            return None;
        }
        let d = (c as u32 - 48) as u64;
        let nv = (v as u128) * 10 + (d as u128);
        if nv > max as u128 {
            proof {
                assert(hex_digit(c) == Some(d as nat));
                assert(number_value(pre, 10) == Some((v * 10 + d) as nat));
                if number_value(body@, 10) is Some {
                    lemma_number_monotone(body@, 10, i as int + 1);
                    assert(number_value(body@, 10)->0 > max);
                }
            }
            return None;
        }
        v = nv as u64;
        i = i + 1;
    }
    assert(body@.subrange(0, body.len() as int) =~= body@);
    Some(v)
}

/// `n` copies of `s` appended to `out`.
pub fn push_repeat(out: &mut Vec<char>, s: &[char], n: usize)
    ensures
        final(out)@ == old(out)@ + repeat(s@, n as nat),
{
    let mut k: usize = 0;
    assert(old(out)@ + repeat(s@, 0) =~= old(out)@);
    while k < n
        invariant
            k <= n,
            out@ == old(out)@ + repeat(s@, k as nat),
        decreases n - k,
    {
        push_all(out, s);
        k = k + 1;
        assert(repeat(s@, k as nat) == repeat(s@, (k - 1) as nat) + s@);
        assert(out@ =~= old(out)@ + repeat(s@, k as nat));
    }
}

} // verus!
