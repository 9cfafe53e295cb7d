//! Character-sequence helpers shared by the parsers: conversion between
//! strings and character vectors, searching, trimming, replacing and decimal
//! numerals.

use vstd::prelude::*;
use vstd::utf8::is_ascii_chars;

verus! {

/// `String::push` appends one character to the end of the string.
pub assume_specification[ String::push ](s: &mut String, c: char)
    ensures
        final(s)@ == old(s)@.push(c),
;

/// The lower-case form of a text: what `str::to_lowercase` makes of it,
/// by the case mappings of Unicode.
pub uninterp spec fn lowercase(s: Seq<char>) -> Seq<char>;

/// The lower-case form of a character of ASCII: the capital letters go to
/// their small letters, every other character stays.
pub open spec fn ascii_lower(c: char) -> char {
    if 'A' <= c && c <= 'Z' {
        ((c as u8 + 32) as u8) as char
    } else {
        c
    }
}

/// The lower-case form of a text of ASCII, character by character.
pub open spec fn ascii_lowercase(s: Seq<char>) -> Seq<char> {
    Seq::new(s.len(), |i: int| ascii_lower(s[i]))
}

/// The lower-case form of a text: character by character where the text is
/// all ASCII, by the case mappings of Unicode otherwise.
pub open spec fn lower_cased(s: Seq<char>) -> Seq<char> {
    if is_ascii_chars(s) {
        ascii_lowercase(s)
    } else {
        lowercase(s)
    }
}

/// `str::to_lowercase` gives the lower-case form of the slice as a new
/// string; the result depends on the characters of the slice alone. Of a
/// slice that is all ASCII it changes the capital letters to their small
/// letters and nothing else.
pub assume_specification[ str::to_lowercase ](s: &str) -> (out: String)
    ensures
        out@ == lowercase(s@),
        is_ascii_chars(s@) ==> out@ == ascii_lowercase(s@),
;

/// `pat` stands at the very start of `s`.
pub open spec fn has_prefix<T>(s: Seq<T>, pat: Seq<T>) -> bool {
    pat.len() <= s.len() && s.subrange(0, pat.len() as int) == pat
}

/// `pat` stands at the very end of `s`.
pub open spec fn has_suffix<T>(s: Seq<T>, pat: Seq<T>) -> bool {
    pat.len() <= s.len() && s.skip(s.len() - pat.len()) == pat
}

/// `s` without `pat` at its end, where it ends with `pat`; `s` otherwise.
pub open spec fn without_suffix<T>(s: Seq<T>, pat: Seq<T>) -> Seq<T> {
    if has_suffix(s, pat) {
        s.take(s.len() - pat.len())
    } else {
        s
    }
}

/// Index of the first occurrence of `pat` in `s`; `s.len()` where `pat` does
/// not occur.
pub open spec fn find<T>(s: Seq<T>, pat: Seq<T>) -> int
    decreases s.len(),
{
    if s.len() == 0 || has_prefix(s, pat) {
        0
    } else {
        1 + find(s.skip(1), pat)
    }
}

/// `find` lies within the sequence, points at an occurrence unless it is the
/// length, and no occurrence starts before it.
pub proof fn lemma_find<T>(s: Seq<T>, pat: Seq<T>)
    ensures
        0 <= find(s, pat) <= s.len(),
        find(s, pat) < s.len() ==> has_prefix(s.skip(find(s, pat)), pat),
        forall|j: int| 0 <= j < find(s, pat) ==> !has_prefix(#[trigger] s.skip(j), pat),
    decreases s.len(),
{
    if s.len() == 0 || has_prefix(s, pat) {
        assert(s.skip(0) =~= s);
    } else {
        let tail = s.skip(1);
        lemma_find(tail, pat);
        let k = find(tail, pat);
        assert(tail.skip(k) =~= s.skip(k + 1));
        assert forall|j: int| 0 <= j < find(s, pat) implies !has_prefix(
            #[trigger] s.skip(j),
            pat,
        ) by {
            if j == 0 {
                assert(s.skip(0) =~= s);
            } else {
                assert(tail.skip(j - 1) =~= s.skip(j));
            }
        }
    }
}

/// An index that points at an occurrence, or is the length, and has no
/// occurrence before it is `find`.
pub proof fn lemma_find_is<T>(s: Seq<T>, pat: Seq<T>, i: int)
    requires
        0 <= i <= s.len(),
        i < s.len() ==> has_prefix(s.skip(i), pat),
        forall|j: int| 0 <= j < i ==> !has_prefix(#[trigger] s.skip(j), pat),
    ensures
        find(s, pat) == i,
{
    lemma_find(s, pat);
}

/// The characters of `s`, in order.
pub fn chars_of(s: &str) -> (out: Vec<char>)
    ensures
        out@ == s@,
{
    broadcast use vstd::string::group_string_axioms;

    let mut out: Vec<char> = Vec::new();
    for c in it: s.chars()
        invariant
            it.seq() == s@,
            out@ == s@.take(it.index()),
    {
        out.push(c);
    }
    out
}

/// The string made of `chars`, in order.
pub fn string_of(chars: &[char]) -> (out: String)
    ensures
        out@ == chars@,
{
    let mut out = String::new();
    let mut i: usize = 0;
    while i < chars.len()
        invariant
            i <= chars.len(),
            out@ == chars@.take(i as int),
        decreases chars.len() - i,
    {
        out.push(chars[i]);
        i = i + 1;
    }
    out
}

/// A copy of the characters of `s` from `from` up to `to`.
pub fn copy_range(s: &[char], from: usize, to: usize) -> (out: Vec<char>)
    requires
        from <= to <= s.len(),
    ensures
        out@ == s@.subrange(from as int, to as int),
{
    let mut out: Vec<char> = Vec::new();
    let mut i: usize = from;
    while i < to
        invariant
            from <= i <= to <= s.len(),
            out@ == s@.subrange(from as int, i as int),
        decreases to - i,
    {
        out.push(s[i]);
        i = i + 1;
    }
    out
}

/// Appends the characters of `more` to `out`.
pub fn append_chars(out: &mut Vec<char>, more: &[char])
    ensures
        final(out)@ == old(out)@ + more@,
{
    let mut i: usize = 0;
    while i < more.len()
        invariant
            i <= more.len(),
            out@ == old(out)@ + more@.take(i as int),
        decreases more.len() - i,
    {
        out.push(more[i]);
        i = i + 1;
    }
}

/// Whether `pat` stands in `s` at index `at`.
pub fn starts_with_at(s: &[char], at: usize, pat: &[char]) -> (b: bool)
    requires
        at <= s.len(),
    ensures
        b == has_prefix(s@.skip(at as int), pat@),
{
    if pat.len() > s.len() - at {
        return false;
    }
    let mut k: usize = 0;
    while k < pat.len()
        invariant
            at <= s.len(),
            pat.len() <= s.len() - at,
            k <= pat.len(),
            forall|j: int| 0 <= j < k ==> s@[at + j] == pat@[j],
        decreases pat.len() - k,
    {
        if s[at + k] != pat[k] {
            return false;
        }
        k = k + 1;
    }
    assert(s@.skip(at as int).subrange(0, pat@.len() as int) =~= pat@);
    true
}

/// `s` without `pat` at its end, where it ends with `pat`.
pub fn strip_suffix(s: &[char], pat: &[char]) -> (out: Vec<char>)
    ensures
        out@ == without_suffix(s@, pat@),
{
    let mut end = s.len();
    if pat.len() <= s.len() {
        let at = s.len() - pat.len();
        assert(s@.skip(at as int).subrange(0, pat@.len() as int) =~= s@.skip(at as int));
        if starts_with_at(s, at, pat) {
            end = at;
        }
    }
    copy_range(s, 0, end)
}

/// Whether two slices hold the same characters.
pub fn chars_eq(a: &[char], b: &[char]) -> (same: bool)
    ensures
        same == (a@ == b@),
{
    if a.len() != b.len() {
        return false;
    }
    let same = starts_with_at(a, 0, b);
    proof {
        assert(a@.subrange(0, a@.len() as int) =~= a@);
    }
    same
}

/// Index of the first occurrence of `pat` in `s` at or after `from`;
/// `s.len()` where there is none.
pub fn find_from(s: &[char], from: usize, pat: &[char]) -> (i: usize)
    requires
        from <= s.len(),
    ensures
        from <= i <= s.len(),
        i - from == find(s@.skip(from as int), pat@),
{
    let mut i: usize = from;
    while i < s.len()
        invariant
            from <= i <= s.len(),
            forall|j: int| from <= j < i ==> !has_prefix(#[trigger] s@.skip(j), pat@),
        ensures
            from <= i <= s.len(),
            i < s.len() ==> has_prefix(s@.skip(i as int), pat@),
            forall|j: int| from <= j < i ==> !has_prefix(#[trigger] s@.skip(j), pat@),
        decreases s.len() - i,
    {
        if starts_with_at(s, i, pat) {
            break ;
        }
        i = i + 1;
    }
    proof {
        let rest = s@.skip(from as int);
        assert(rest.skip(i - from) =~= s@.skip(i as int));
        assert forall|j: int| 0 <= j < i - from implies !has_prefix(
            #[trigger] rest.skip(j),
            pat@,
        ) by {
            assert(rest.skip(j) =~= s@.skip(from + j));
        }
        lemma_find_is(rest, pat@, i - from);
    }
    i
}

/// The characters that count as whitespace: those that Unicode marks as
/// White_Space.
pub open spec fn is_whitespace(c: char) -> bool {
    ||| ('\u{9}' <= c && c <= '\u{D}')
    ||| c == ' '
    ||| c == '\u{85}'
    ||| c == '\u{A0}'
    ||| c == '\u{1680}'
    ||| ('\u{2000}' <= c && c <= '\u{200A}')
    ||| c == '\u{2028}'
    ||| c == '\u{2029}'
    ||| c == '\u{202F}'
    ||| c == '\u{205F}'
    ||| c == '\u{3000}'
}

/// `s` without its leading whitespace.
pub open spec fn trim_start(s: Seq<char>) -> Seq<char>
    decreases s.len(),
{
    if s.len() > 0 && is_whitespace(s[0]) {
        trim_start(s.skip(1))
    } else {
        s
    }
}

/// `s` without its trailing whitespace.
pub open spec fn trim_end(s: Seq<char>) -> Seq<char>
    decreases s.len(),
{
    if s.len() > 0 && is_whitespace(s.last()) {
        trim_end(s.drop_last())
    } else {
        s
    }
}

/// `s` without its leading and trailing whitespace.
pub open spec fn trimmed(s: Seq<char>) -> Seq<char> {
    trim_end(trim_start(s))
}

/// `s` with every occurrence of `from` replaced by `to`, scanning from the
/// left and never looking again at what was replaced. An empty pattern
/// matches nowhere.
pub open spec fn replaced(s: Seq<char>, from: Seq<char>, to: Seq<char>) -> Seq<char>
    decreases s.len(),
{
    if from.len() == 0 || s.len() == 0 {
        s
    } else if has_prefix(s, from) {
        to + replaced(s.skip(from.len() as int), from, to)
    } else {
        seq![s[0]] + replaced(s.skip(1), from, to)
    }
}

/// The character of a decimal digit.
pub open spec fn digit(d: int) -> char {
    if d == 0 {
        '0'
    } else if d == 1 {
        '1'
    } else if d == 2 {
        '2'
    } else if d == 3 {
        '3'
    } else if d == 4 {
        '4'
    } else if d == 5 {
        '5'
    } else if d == 6 {
        '6'
    } else if d == 7 {
        '7'
    } else if d == 8 {
        '8'
    } else {
        '9'
    }
}

/// The decimal numeral of `n`, without leading zeros.
pub open spec fn decimal(n: nat) -> Seq<char>
    decreases n,
{
    if n < 10 {
        seq![digit(n as int)]
    } else {
        decimal(n / 10).push(digit((n % 10) as int))
    }
}

/// Whether `c` is whitespace.
pub fn is_whitespace_char(c: char) -> (b: bool)
    ensures
        b == is_whitespace(c),
{
    ('\u{9}' <= c && c <= '\u{D}') || c == ' ' || c == '\u{85}' || c == '\u{A0}' || c
        == '\u{1680}' || ('\u{2000}' <= c && c <= '\u{200A}') || c == '\u{2028}' || c
        == '\u{2029}' || c == '\u{202F}' || c == '\u{205F}' || c == '\u{3000}'
}

/// `s` without its leading and trailing whitespace.
pub fn trim(s: &[char]) -> (out: Vec<char>)
    ensures
        out@ == trimmed(s@),
{
    let mut a: usize = 0;
    assert(s@.skip(0) =~= s@);
    while a < s.len() && is_whitespace_char(s[a])
        invariant
            a <= s.len(),
            trim_start(s@) == trim_start(s@.skip(a as int)),
        decreases s.len() - a,
    {
        assert(s@.skip(a as int).skip(1) =~= s@.skip(a + 1));
        a = a + 1;
    }
    let mut b: usize = s.len();
    while b > a && is_whitespace_char(s[b - 1])
        invariant
            a <= b <= s.len(),
            trim_end(s@.skip(a as int)) == trim_end(s@.subrange(a as int, b as int)),
        decreases b,
    {
        assert(s@.subrange(a as int, b as int).drop_last() =~= s@.subrange(a as int, b - 1));
        b = b - 1;
    }
    copy_range(s, a, b)
}

/// `s` with every occurrence of `from` replaced by `to`.
pub fn replace_all(s: &[char], from: &[char], to: &[char]) -> (out: Vec<char>)
    ensures
        out@ == replaced(s@, from@, to@),
{
    if from.len() == 0 {
        return copy_range(s, 0, s.len());
    }
    let mut out: Vec<char> = Vec::new();
    let mut i: usize = 0;
    assert(s@.skip(0) =~= s@);
    while i < s.len()
        invariant
            i <= s.len(),
            from.len() > 0,
            out@ + replaced(s@.skip(i as int), from@, to@) == replaced(s@, from@, to@),
        decreases s.len() - i,
    {
        let ghost rest = s@.skip(i as int);
        let ghost before = out@;
        if starts_with_at(s, i, from) {
            append_chars(&mut out, to);
            i = i + from.len();
            proof {
                assert(rest.skip(from@.len() as int) =~= s@.skip(i as int));
                assert(out@ + replaced(s@.skip(i as int), from@, to@) =~= before + replaced(
                    rest,
                    from@,
                    to@,
                ));
            }
        } else {
            out.push(s[i]);
            i = i + 1;
            proof {
                assert(rest.skip(1) =~= s@.skip(i as int));
                assert(out@ + replaced(s@.skip(i as int), from@, to@) =~= before + replaced(
                    rest,
                    from@,
                    to@,
                ));
            }
        }
    }
    out
}

/// The character of the decimal digit `d`.
pub fn digit_char(d: u32) -> (c: char)
    requires
        d < 10,
    ensures
        c == digit(d as int),
{
    if d == 0 {
        '0'
    } else if d == 1 {
        '1'
    } else if d == 2 {
        '2'
    } else if d == 3 {
        '3'
    } else if d == 4 {
        '4'
    } else if d == 5 {
        '5'
    } else if d == 6 {
        '6'
    } else if d == 7 {
        '7'
    } else if d == 8 {
        '8'
    } else {
        '9'
    }
}

/// Appends the decimal numeral of `n` to `out`.
pub fn push_decimal(out: &mut Vec<char>, n: u32)
    ensures
        final(out)@ == old(out)@ + decimal(n as nat),
    decreases n,
{
    if n >= 10 {
        push_decimal(out, n / 10);
    }
    out.push(digit_char(n % 10));
}

/// Whether two string slices hold the same characters.
pub fn str_eq(a: &str, b: &str) -> (same: bool)
    ensures
        same == (a@ == b@),
{
    broadcast use vstd::utf8::encode_utf8_decode_utf8;

    let x = a.as_bytes();
    let y = b.as_bytes();
    if x.len() != y.len() {
        return false;
    }
    let mut i: usize = 0;
    while i < x.len()
        invariant
            i <= x.len(),
            x.len() == y.len(),
            x@ == vstd::utf8::encode_utf8(a@),
            y@ == vstd::utf8::encode_utf8(b@),
            forall|j: int| 0 <= j < i ==> x@[j] == y@[j],
        decreases x.len() - i,
    {
        if x[i] != y[i] {
            return false;
        }
        i = i + 1;
    }
    assert(x@ =~= y@);
    assert(vstd::utf8::decode_utf8(vstd::utf8::encode_utf8(b@)) == b@);
    true
}

} // verus!
