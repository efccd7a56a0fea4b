//! Token-level scanning over character vectors: runs of word characters,
//! runs of digits, decimal values and English month names.

use vstd::prelude::*;

use crate::text::to_char_vec;

verus! {

/// A decimal digit.
pub open spec fn spec_is_digit(c: char) -> bool {
    '0' <= c && c <= '9'
}

/// The numeric value of a decimal digit.
pub open spec fn spec_digit_val(c: char) -> int {
    c as int - 48
}

/// A Unicode whitespace character — the set `char::is_whitespace` and the
/// whitespace class of the extraction patterns recognise.
pub open spec fn spec_is_space(c: char) -> bool {
    ||| c == ' '
    ||| c == '\t'
    ||| c == '\n'
    ||| c == '\x0b'
    ||| c == '\x0c'
    ||| c == '\r'
    ||| c == '\u{85}'
    ||| c == '\u{a0}'
    ||| c == '\u{1680}'
    ||| ('\u{2000}' <= c && c <= '\u{200a}')
    ||| c == '\u{2028}'
    ||| c == '\u{2029}'
    ||| c == '\u{202f}'
    ||| c == '\u{205f}'
    ||| c == '\u{3000}'
}

/// A word character: a letter, a digit or an underscore.
pub open spec fn spec_is_word_char(c: char) -> bool {
    ('a' <= c && c <= 'z') || ('A' <= c && c <= 'Z') || ('0' <= c && c <= '9') || c == '_'
}

/// The code of `c` with an upper-case ASCII letter folded to lower case.
pub open spec fn spec_lower_code(c: char) -> int {
    if 'A' <= c && c <= 'Z' {
        c as int + 32
    } else {
        c as int
    }
}

/// The first position at or after `i` that does not hold a word character.
pub open spec fn spec_word_end(s: Seq<char>, i: int) -> int
    decreases s.len() - i,
{
    if i < s.len() && spec_is_word_char(s[i]) {
        spec_word_end(s, i + 1)
    } else {
        i
    }
}

/// The first position at or after `i` that does not hold a digit.
pub open spec fn spec_digits_end(s: Seq<char>, i: int) -> int
    decreases s.len() - i,
{
    if i < s.len() && spec_is_digit(s[i]) {
        spec_digits_end(s, i + 1)
    } else {
        i
    }
}

/// The value of a sequence of decimal digits.
pub open spec fn spec_digits_val(s: Seq<char>) -> int
    decreases s.len(),
{
    if s.len() == 0 {
        0
    } else {
        spec_digits_val(s.drop_last()) * 10 + spec_digit_val(s.last())
    }
}

/// `w` is the word `t`, compared without regard to ASCII case.
pub open spec fn spec_word_is_ci(w: Seq<char>, t: Seq<char>) -> bool {
    w.len() == t.len() && forall|i: int|
        0 <= i < w.len() ==> spec_lower_code(#[trigger] w[i]) == spec_lower_code(t[i])
}

/// The number of an English month name, abbreviated or written out,
/// compared without regard to ASCII case; `None` for any other word.
pub open spec fn spec_month_number(w: Seq<char>) -> Option<u32> {
    if spec_word_is_ci(w, "jan"@) || spec_word_is_ci(w, "january"@) {
        Some(1u32)
    } else if spec_word_is_ci(w, "feb"@) || spec_word_is_ci(w, "february"@) {
        Some(2u32)
    } else if spec_word_is_ci(w, "mar"@) || spec_word_is_ci(w, "march"@) {
        Some(3u32)
    } else if spec_word_is_ci(w, "apr"@) || spec_word_is_ci(w, "april"@) {
        Some(4u32)
    } else if spec_word_is_ci(w, "may"@) {
        Some(5u32)
    } else if spec_word_is_ci(w, "jun"@) || spec_word_is_ci(w, "june"@) {
        Some(6u32)
    } else if spec_word_is_ci(w, "jul"@) || spec_word_is_ci(w, "july"@) {
        Some(7u32)
    } else if spec_word_is_ci(w, "aug"@) || spec_word_is_ci(w, "august"@) {
        Some(8u32)
    } else if spec_word_is_ci(w, "sep"@) || spec_word_is_ci(w, "september"@) {
        Some(9u32)
    } else if spec_word_is_ci(w, "oct"@) || spec_word_is_ci(w, "october"@) {
        Some(10u32)
    } else if spec_word_is_ci(w, "nov"@) || spec_word_is_ci(w, "november"@) {
        Some(11u32)
    } else if spec_word_is_ci(w, "dec"@) || spec_word_is_ci(w, "december"@) {
        Some(12u32)
    } else {
        None
    }
}

pub fn is_digit(c: char) -> (r: bool)
    ensures
        r == spec_is_digit(c),
{
    '0' <= c && c <= '9'
}

pub fn is_space(c: char) -> (r: bool)
    ensures
        r == spec_is_space(c),
{
    c == ' ' || c == '\t' || c == '\n' || c == '\x0b' || c == '\x0c' || c == '\r'
        || c == '\u{85}' || c == '\u{a0}' || c == '\u{1680}' || ('\u{2000}' <= c && c
        <= '\u{200a}') || c == '\u{2028}' || c == '\u{2029}' || c == '\u{202f}' || c
        == '\u{205f}' || c == '\u{3000}'
}

pub fn is_word_char(c: char) -> (r: bool)
    ensures
        r == spec_is_word_char(c),
{
    ('a' <= c && c <= 'z') || ('A' <= c && c <= 'Z') || ('0' <= c && c <= '9') || c == '_'
}

pub fn lower_code(c: char) -> (r: u32)
    ensures
        r == spec_lower_code(c),
{
    let u = c as u32;
    if 'A' <= c && c <= 'Z' {
        u + 32
    } else {
        u
    }
}

pub fn word_end(v: &Vec<char>, start: usize) -> (r: usize)
    requires
        start <= v@.len(),
    ensures
        r == spec_word_end(v@, start as int),
        start <= r <= v@.len(),
{
    let mut j = start;
    while j < v.len() && is_word_char(v[j])
        invariant
            start <= j <= v@.len(),
            spec_word_end(v@, start as int) == spec_word_end(v@, j as int),
        decreases v@.len() - j,
    {
        assert(spec_word_end(v@, j as int) == spec_word_end(v@, j + 1));
        j = j + 1;
    }
    assert(spec_word_end(v@, j as int) == j);
    j
}

pub fn digits_end(v: &Vec<char>, start: usize) -> (r: usize)
    requires
        start <= v@.len(),
    ensures
        r == spec_digits_end(v@, start as int),
        start <= r <= v@.len(),
{
    let mut j = start;
    while j < v.len() && is_digit(v[j])
        invariant
            start <= j <= v@.len(),
            spec_digits_end(v@, start as int) == spec_digits_end(v@, j as int),
        decreases v@.len() - j,
    {
        assert(spec_digits_end(v@, j as int) == spec_digits_end(v@, j + 1));
        j = j + 1;
    }
    assert(spec_digits_end(v@, j as int) == j);
    j
}

/// The first position at or after `i` that holds whitespace, or the end.
pub open spec fn spec_nonspace_end(s: Seq<char>, i: int) -> int
    decreases s.len() - i,
{
    if i < s.len() && !spec_is_space(s[i]) {
        spec_nonspace_end(s, i + 1)
    } else {
        i
    }
}

/// A run of non-whitespace ends within the sequence, no earlier than where
/// it starts.
pub proof fn lemma_nonspace_end_bounds(s: Seq<char>, i: int)
    requires
        0 <= i <= s.len(),
    ensures
        i <= spec_nonspace_end(s, i) <= s.len(),
    decreases s.len() - i,
{
    if i < s.len() && !spec_is_space(s[i]) {
        lemma_nonspace_end_bounds(s, i + 1);
    }
}

pub fn nonspace_end(v: &Vec<char>, start: usize) -> (r: usize)
    requires
        start <= v@.len(),
    ensures
        r == spec_nonspace_end(v@, start as int),
        start <= r <= v@.len(),
{
    let mut j = start;
    while j < v.len() && !is_space(v[j])
        invariant
            start <= j <= v@.len(),
            spec_nonspace_end(v@, start as int) == spec_nonspace_end(v@, j as int),
        decreases v@.len() - j,
    {
        assert(spec_nonspace_end(v@, j as int) == spec_nonspace_end(v@, j + 1));
        j = j + 1;
    }
    assert(spec_nonspace_end(v@, j as int) == j);
    j
}

/// Every position of a digit run up to its end holds a digit.
pub proof fn lemma_digits_end_all_digits(s: Seq<char>, i: int)
    requires
        0 <= i <= s.len(),
    ensures
        forall|j: int| i <= j < spec_digits_end(s, i) ==> spec_is_digit(#[trigger] s[j]),
        i <= spec_digits_end(s, i) <= s.len(),
    decreases s.len() - i,
{
    if i < s.len() && spec_is_digit(s[i]) {
        lemma_digits_end_all_digits(s, i + 1);
    }
}

/// Every digit sequence has a value no smaller than the value of any prefix.
pub proof fn lemma_digits_val_prefix(s: Seq<char>, i: int)
    requires
        0 <= i <= s.len(),
        forall|j: int| 0 <= j < s.len() ==> spec_is_digit(#[trigger] s[j]),
    ensures
        spec_digits_val(s.take(i)) <= spec_digits_val(s),
        spec_digits_val(s) >= 0,
    decreases s.len(),
{
    if s.len() == 0 {
    } else {
        lemma_digits_val_prefix(s.drop_last(), if i < s.len() { i } else { i - 1 });
        if i < s.len() {
            assert(s.take(i) =~= s.drop_last().take(i));
        } else {
            assert(s.take(i) =~= s);
        }
    }
}

/// The value of the digits `v[from .. to]`, or `None` when it exceeds `u32`.
pub fn parse_u32(v: &Vec<char>, from: usize, to: usize) -> (r: Option<u32>)
    requires
        from <= to <= v@.len(),
        forall|j: int| from <= j < to ==> spec_is_digit(#[trigger] v@[j]),
    ensures
        ({
            let value = spec_digits_val(v@.subrange(from as int, to as int));
            match r {
                Some(n) => n == value,
                None => value > u32::MAX,
            }
        }),
{
    let ghost digits = v@.subrange(from as int, to as int);
    let mut acc: u64 = 0;
    let mut j = from;
    while j < to
        invariant
            from <= j <= to <= v@.len(),
            forall|k: int| from <= k < to ==> spec_is_digit(#[trigger] v@[k]),
            digits == v@.subrange(from as int, to as int),
            acc == spec_digits_val(digits.take(j - from)),
            acc <= u32::MAX,
        decreases to - j,
    {
        let c = v[j];
        assert(spec_is_digit(c));
        let d: u64 = (c as u32) as u64 - 48;
        acc = acc * 10 + d;
        j = j + 1;
        assert(digits.take(j - from).drop_last() =~= digits.take(j - 1 - from));
        assert(digits.take(j - from).last() == v@[j - 1]);
        if acc > 0xffff_ffffu64 {
            proof {
                lemma_digits_val_prefix(digits, j - from);
            }
            return None;
        }
    }
    assert(digits.take(to - from) =~= digits);
    Some(acc as u32)
}

/// Compares the word `v[from .. to]` with a pattern, without regard to
/// ASCII case.
fn word_is_ci(v: &Vec<char>, from: usize, to: usize, pat: &Vec<char>) -> (r: bool)
    requires
        from <= to <= v@.len(),
    ensures
        r == spec_word_is_ci(v@.subrange(from as int, to as int), pat@),
{
    let ghost w = v@.subrange(from as int, to as int);
    if to - from != pat.len() {
        return false;
    }
    let mut i: usize = 0;
    while i < pat.len()
        invariant
            from + pat@.len() == to <= v@.len(),
            i <= pat@.len(),
            w == v@.subrange(from as int, to as int),
            forall|j: int|
                0 <= j < i ==> spec_lower_code(#[trigger] w[j]) == spec_lower_code(pat@[j]),
        decreases pat@.len() - i,
    {
        if lower_code(v[from + i]) != lower_code(pat[i]) {
            assert(spec_lower_code(w[i as int]) != spec_lower_code(pat@[i as int]));
            return false;
        }
        assert(spec_lower_code(w[i as int]) == spec_lower_code(pat@[i as int]));
        i = i + 1;
    }
    true
}

/// The month number of the word `v[from .. to]`, or `None`.
pub fn month_number(v: &Vec<char>, from: usize, to: usize) -> (r: Option<u32>)
    requires
        from <= to <= v@.len(),
    ensures
        r == spec_month_number(v@.subrange(from as int, to as int)),
{
    if word_is_ci(v, from, to, &to_char_vec("jan")) || word_is_ci(v, from, to, &to_char_vec(
        "january",
    )) {
        Some(1)
    } else if word_is_ci(v, from, to, &to_char_vec("feb")) || word_is_ci(v, from, to, &to_char_vec(
        "february",
    )) {
        Some(2)
    } else if word_is_ci(v, from, to, &to_char_vec("mar")) || word_is_ci(v, from, to, &to_char_vec(
        "march",
    )) {
        Some(3)
    } else if word_is_ci(v, from, to, &to_char_vec("apr")) || word_is_ci(v, from, to, &to_char_vec(
        "april",
    )) {
        Some(4)
    } else if word_is_ci(v, from, to, &to_char_vec("may")) {
        Some(5)
    } else if word_is_ci(v, from, to, &to_char_vec("jun")) || word_is_ci(v, from, to, &to_char_vec(
        "june",
    )) {
        Some(6)
    } else if word_is_ci(v, from, to, &to_char_vec("jul")) || word_is_ci(v, from, to, &to_char_vec(
        "july",
    )) {
        Some(7)
    } else if word_is_ci(v, from, to, &to_char_vec("aug")) || word_is_ci(v, from, to, &to_char_vec(
        "august",
    )) {
        Some(8)
    } else if word_is_ci(v, from, to, &to_char_vec("sep")) || word_is_ci(v, from, to, &to_char_vec(
        "september",
    )) {
        Some(9)
    } else if word_is_ci(v, from, to, &to_char_vec("oct")) || word_is_ci(v, from, to, &to_char_vec(
        "october",
    )) {
        Some(10)
    } else if word_is_ci(v, from, to, &to_char_vec("nov")) || word_is_ci(v, from, to, &to_char_vec(
        "november",
    )) {
        Some(11)
    } else if word_is_ci(v, from, to, &to_char_vec("dec")) || word_is_ci(v, from, to, &to_char_vec(
        "december",
    )) {
        Some(12)
    } else {
        None
    }
}

} // verus!
