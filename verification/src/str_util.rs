//! String transformations used when stored rows are rendered or searched:
//! HTML escaping, whitespace collapsing and the SQL `like` search pattern.

use vstd::prelude::*;

use crate::scan::{is_space, lemma_nonspace_end_bounds, nonspace_end, spec_is_space, spec_nonspace_end};
use crate::clock::ClockState;
use crate::text::{chars_to_string, to_char_vec};

verus! {

use vstd::multiset::Multiset;
use vstd::string::StringExecFns;

/// What one character becomes under `&`/`<`/`>` escaping.
pub open spec fn spec_esc_amp_char(c: char) -> Seq<char> {
    if c == '&' {
        seq!['&', 'a', 'm', 'p', ';']
    } else if c == '<' {
        seq!['&', 'l', 't', ';']
    } else if c == '>' {
        seq!['&', 'g', 't', ';']
    } else {
        seq![c]
    }
}

/// The string with `&`, `<` and `>` replaced by their HTML entities.
pub open spec fn spec_esc_amp_lt_gt(s: Seq<char>) -> Seq<char>
    decreases s.len(),
{
    if s.len() == 0 {
        Seq::empty()
    } else {
        spec_esc_amp_lt_gt(s.drop_last()) + spec_esc_amp_char(s.last())
    }
}

/// What one character becomes under quote escaping.
pub open spec fn spec_esc_quot_char(c: char) -> Seq<char> {
    if c == '"' {
        seq!['&', 'q', 'u', 'o', 't', ';']
    } else {
        seq![c]
    }
}

/// The string with `"` replaced by its HTML entity.
pub open spec fn spec_esc_quot(s: Seq<char>) -> Seq<char>
    decreases s.len(),
{
    if s.len() == 0 {
        Seq::empty()
    } else {
        spec_esc_quot(s.drop_last()) + spec_esc_quot_char(s.last())
    }
}

/// What one character becomes in a SQL `like` pattern: the shell wildcards
/// turn into SQL ones.
pub open spec fn spec_sql_wild_char(c: char) -> char {
    if c == '*' {
        '%'
    } else if c == '?' {
        '_'
    } else {
        c
    }
}

/// The wildcard translation of a whole string.
pub open spec fn spec_sql_wild(s: Seq<char>) -> Seq<char> {
    s.map_values(|c: char| spec_sql_wild_char(c))
}

/// The whitespace-separated words of `s` from position `i` on: the maximal
/// non-whitespace runs, in order.
pub open spec fn spec_words_from(s: Seq<char>, i: int) -> Seq<Seq<char>>
    decreases s.len() - i,
    via spec_words_from_decreases
{
    if i < 0 || i >= s.len() {
        Seq::empty()
    } else if spec_is_space(s[i]) {
        spec_words_from(s, i + 1)
    } else {
        seq![s.subrange(i, spec_nonspace_end(s, i))] + spec_words_from(s, spec_nonspace_end(s, i))
    }
}

#[via_fn]
proof fn spec_words_from_decreases(s: Seq<char>, i: int) {
    if 0 <= i && i < s.len() && !spec_is_space(s[i]) {
        lemma_nonspace_end_bounds(s, i + 1);
        assert(spec_nonspace_end(s, i) == spec_nonspace_end(s, i + 1));
    }
}

/// The words joined by single spaces.
pub open spec fn spec_join_spaces(ws: Seq<Seq<char>>) -> Seq<char>
    decreases ws.len(),
{
    if ws.len() == 0 {
        Seq::empty()
    } else if ws.len() == 1 {
        ws[0]
    } else {
        spec_join_spaces(ws.drop_last()) + seq![' '] + ws.last()
    }
}

/// Collapses whitespace: every run of whitespace between words becomes one
/// space, and leading and trailing whitespace is dropped.
pub fn ws_collapse(s: &str) -> (r: String)
    ensures
        r@ == spec_join_spaces(spec_words_from(s@, 0)),
{
    let v = to_char_vec(s);
    let mut out: Vec<char> = Vec::new();
    let ghost done: Seq<Seq<char>> = Seq::empty();
    let mut first = true;
    let mut i: usize = 0;
    while i < v.len()
        invariant
            i <= v@.len(),
            v@ == s@,
            spec_words_from(v@, 0) == done + spec_words_from(v@, i as int),
            out@ == spec_join_spaces(done),
            first == (done.len() == 0),
        decreases v@.len() - i,
    {
        if is_space(v[i]) {
            proof {
                assert(spec_words_from(v@, i as int) == spec_words_from(v@, i + 1));
            }
            i = i + 1;
        } else {
            let e = nonspace_end(&v, i);
            let ghost word = v@.subrange(i as int, e as int);
            proof {
                assert(spec_words_from(v@, i as int) == seq![word] + spec_words_from(
                    v@,
                    e as int,
                ));
            }
            if !first {
                out.push(' ');
            }
            let ghost base = out@;
            let mut j = i;
            while j < e
                invariant
                    i <= j <= e <= v@.len(),
                    word == v@.subrange(i as int, e as int),
                    out@ == base + v@.subrange(i as int, j as int),
                decreases e - j,
            {
                out.push(v[j]);
                j = j + 1;
                proof {
                    assert(v@.subrange(i as int, j as int) =~= v@.subrange(i as int, j - 1).push(
                        v@[j - 1],
                    ));
                    assert(out@ =~= base + v@.subrange(i as int, j as int));
                }
            }
            proof {
                let done_next = done.push(word);
                if done.len() == 0 {
                    assert(out@ =~= word);
                    assert(spec_join_spaces(done_next) == word);
                } else {
                    assert(done_next.drop_last() =~= done);
                    assert(out@ =~= spec_join_spaces(done) + seq![' '] + word);
                }
                done = done_next;
                assert(done + spec_words_from(v@, e as int) =~= (done.drop_last() + seq![word])
                    + spec_words_from(v@, e as int));
                assert(done.drop_last() + (seq![word] + spec_words_from(v@, e as int)) =~= (
                done.drop_last() + seq![word]) + spec_words_from(v@, e as int));
            }
            first = false;
            i = e;
        }
    }
    proof {
        assert(spec_words_from(v@, v@.len() as int) =~= Seq::<Seq<char>>::empty());
        assert(done + spec_words_from(v@, v@.len() as int) =~= done);
    }
    chars_to_string(&out)
}

/// Lexicographic order on character sequences, by code point — the order
/// in which `str` comparison puts the same texts, since UTF-8 preserves
/// code-point order.
pub open spec fn spec_lex_le(a: Seq<char>, b: Seq<char>) -> bool
    decreases a.len(),
{
    if a.len() == 0 {
        true
    } else if b.len() == 0 {
        false
    } else if a[0] < b[0] {
        true
    } else if b[0] < a[0] {
        false
    } else {
        spec_lex_le(a.drop_first(), b.drop_first())
    }
}

/// The lexicographic order as a relation value.
pub open spec fn spec_lex_leq_fn() -> spec_fn(Seq<char>, Seq<char>) -> bool {
    |a: Seq<char>, b: Seq<char>| spec_lex_le(a, b)
}

proof fn lemma_lex_le_refl(a: Seq<char>)
    ensures
        spec_lex_le(a, a),
    decreases a.len(),
{
    if a.len() > 0 {
        lemma_lex_le_refl(a.drop_first());
    }
}

proof fn lemma_lex_le_total(a: Seq<char>, b: Seq<char>)
    ensures
        spec_lex_le(a, b) || spec_lex_le(b, a),
    decreases a.len(),
{
    if a.len() > 0 && b.len() > 0 && a[0] == b[0] {
        lemma_lex_le_total(a.drop_first(), b.drop_first());
    }
}

proof fn lemma_lex_le_antisym(a: Seq<char>, b: Seq<char>)
    requires
        spec_lex_le(a, b),
        spec_lex_le(b, a),
    ensures
        a == b,
    decreases a.len(),
{
    if a.len() == 0 {
        assert(b.len() == 0) by {
            if b.len() > 0 {
                assert(!spec_lex_le(b, a));
            }
        };
        assert(a =~= b);
    } else {
        assert(b.len() > 0);
        assert(a[0] == b[0]);
        lemma_lex_le_antisym(a.drop_first(), b.drop_first());
        assert(a.drop_first().len() == b.drop_first().len());
        assert(a.len() == b.len());
        assert forall|i: int| 0 <= i < a.len() implies a[i] == b[i] by {
            if i > 0 {
                assert(a[i] == a.drop_first()[i - 1]);
                assert(b[i] == b.drop_first()[i - 1]);
            }
        }
        assert(a =~= b);
    }
}

proof fn lemma_lex_le_trans(a: Seq<char>, b: Seq<char>, c: Seq<char>)
    requires
        spec_lex_le(a, b),
        spec_lex_le(b, c),
    ensures
        spec_lex_le(a, c),
    decreases a.len(),
{
    if a.len() > 0 && b.len() > 0 && c.len() > 0 && a[0] == b[0] && b[0] == c[0] {
        lemma_lex_le_trans(a.drop_first(), b.drop_first(), c.drop_first());
    }
}

/// The lexicographic order is a total order, so sorting by it has exactly
/// one answer.
pub proof fn lemma_lex_total_ordering()
    ensures
        vstd::relations::total_ordering(spec_lex_leq_fn()),
{
    let f = spec_lex_leq_fn();
    assert forall|a: Seq<char>| #[trigger] f(a, a) by {
        lemma_lex_le_refl(a);
    }
    assert forall|a: Seq<char>, b: Seq<char>| #[trigger] f(a, b) && #[trigger] f(b, a) implies a
        == b by {
        lemma_lex_le_antisym(a, b);
    }
    assert forall|a: Seq<char>, b: Seq<char>, c: Seq<char>|
        #[trigger] f(a, b) && #[trigger] f(b, c) implies f(a, c) by {
        lemma_lex_le_trans(a, b, c);
    }
    assert forall|a: Seq<char>, b: Seq<char>| !(#[trigger] f(a, b)) implies f(b, a) by {
        lemma_lex_le_total(a, b);
    }
}

/// Compares two character vectors lexicographically.
fn lex_le_chars(a: &Vec<char>, b: &Vec<char>) -> (r: bool)
    ensures
        r == spec_lex_le(a@, b@),
{
    proof {
        assert(a@.skip(0) =~= a@);
        assert(b@.skip(0) =~= b@);
    }
    let mut i: usize = 0;
    while i < a.len() && i < b.len()
        invariant
            i <= a@.len(),
            i <= b@.len(),
            spec_lex_le(a@, b@) == spec_lex_le(a@.skip(i as int), b@.skip(i as int)),
        decreases a@.len() - i,
    {
        proof {
            assert(a@.skip(i as int)[0] == a@[i as int]);
            assert(b@.skip(i as int)[0] == b@[i as int]);
            assert(a@.skip(i as int).drop_first() =~= a@.skip(i + 1));
            assert(b@.skip(i as int).drop_first() =~= b@.skip(i + 1));
        }
        if a[i] < b[i] {
            proof {
                assert(spec_lex_le(a@.skip(i as int), b@.skip(i as int)));
            }
            return true;
        }
        if b[i] < a[i] {
            proof {
                assert(!spec_lex_le(a@.skip(i as int), b@.skip(i as int)));
            }
            return false;
        }
        proof {
            assert(a@[i as int] == b@[i as int]);
            assert(spec_lex_le(a@.skip(i as int), b@.skip(i as int)) == spec_lex_le(
                a@.skip(i + 1),
                b@.skip(i + 1),
            ));
        }
        i = i + 1;
    }
    if i >= a.len() {
        assert(a@.skip(i as int).len() == 0);
        true
    } else {
        assert(b@.skip(i as int).len() == 0);
        assert(a@.skip(i as int).len() > 0);
        false
    }
}

/// Compares two character vectors for equality.
fn chars_eq(a: &Vec<char>, b: &Vec<char>) -> (r: bool)
    ensures
        r == (a@ == b@),
{
    if a.len() != b.len() {
        return false;
    }
    let mut i: usize = 0;
    while i < a.len()
        invariant
            i <= a@.len() == b@.len(),
            forall|k: int| 0 <= k < i ==> a@[k] == b@[k],
        decreases a@.len() - i,
    {
        if a[i] != b[i] {
            return false;
        }
        i = i + 1;
    }
    proof {
        assert(a@ =~= b@);
    }
    true
}

/// The views of a sequence of character vectors.
pub open spec fn char_vecs_view(ws: Seq<Vec<char>>) -> Seq<Seq<char>> {
    ws.map_values(|w: Vec<char>| w@)
}

/// Splits a character vector into its whitespace-separated words.
fn split_words(v: &Vec<char>) -> (ws: Vec<Vec<char>>)
    ensures
        char_vecs_view(ws@) == spec_words_from(v@, 0),
{
    let mut ws: Vec<Vec<char>> = Vec::new();
    let mut i: usize = 0;
    while i < v.len()
        invariant
            i <= v@.len(),
            spec_words_from(v@, 0) == char_vecs_view(ws@) + spec_words_from(v@, i as int),
        decreases v@.len() - i,
    {
        if is_space(v[i]) {
            proof {
                assert(spec_words_from(v@, i as int) == spec_words_from(v@, i + 1));
            }
            i = i + 1;
        } else {
            let e = nonspace_end(&v, i);
            let ghost word = v@.subrange(i as int, e as int);
            proof {
                assert(spec_words_from(v@, i as int) == seq![word] + spec_words_from(
                    v@,
                    e as int,
                ));
            }
            let mut w: Vec<char> = Vec::new();
            let mut j = i;
            while j < e
                invariant
                    i <= j <= e <= v@.len(),
                    word == v@.subrange(i as int, e as int),
                    w@ == v@.subrange(i as int, j as int),
                decreases e - j,
            {
                w.push(v[j]);
                j = j + 1;
                proof {
                    assert(v@.subrange(i as int, j as int) =~= v@.subrange(i as int, j - 1).push(
                        v@[j - 1],
                    ));
                }
            }
            let ghost before = ws@;
            ws.push(w);
            proof {
                assert(char_vecs_view(ws@) =~= char_vecs_view(before) + seq![word]);
                assert(char_vecs_view(before) + (seq![word] + spec_words_from(v@, e as int))
                    =~= (char_vecs_view(before) + seq![word]) + spec_words_from(v@, e as int));
            }
            i = e;
        }
    }
    proof {
        assert(spec_words_from(v@, v@.len() as int) =~= Seq::<Seq<char>>::empty());
        assert(char_vecs_view(ws@) + spec_words_from(v@, v@.len() as int) =~= char_vecs_view(
            ws@,
        ));
    }
    ws
}

/// Sorts words lexicographically by insertion, keeping every occurrence.
fn sort_words(ws: Vec<Vec<char>>) -> (r: Vec<Vec<char>>)
    ensures
        vstd::relations::sorted_by(char_vecs_view(r@), spec_lex_leq_fn()),
        char_vecs_view(r@).to_multiset() == char_vecs_view(ws@).to_multiset(),
{
    broadcast use vstd::seq_lib::group_to_multiset_ensures;
    broadcast use vstd::multiset::group_multiset_axioms;
    broadcast use vstd::multiset::lemma_multiset_empty_len;

    let ghost orig = char_vecs_view(ws@);
    let mut rest = ws;
    let mut out: Vec<Vec<char>> = Vec::new();
    proof {
        assert(char_vecs_view(out@).to_multiset().add(char_vecs_view(rest@).to_multiset())
            =~= orig.to_multiset()) by {
            assert(char_vecs_view(out@).to_multiset() =~= Multiset::<Seq<char>>::empty());
        };
    }
    loop
        invariant
            vstd::relations::sorted_by(char_vecs_view(out@), spec_lex_leq_fn()),
            char_vecs_view(out@).to_multiset().add(char_vecs_view(rest@).to_multiset())
                == orig.to_multiset(),
        ensures
            rest@.len() == 0,
            vstd::relations::sorted_by(char_vecs_view(out@), spec_lex_leq_fn()),
            char_vecs_view(out@).to_multiset() == orig.to_multiset(),
        decreases rest@.len(),
    {
        let ghost rest_before = rest@;
        let w = match rest.pop() {
            Some(w) => w,
            None => {
                proof {
                    assert(char_vecs_view(rest@).len() == 0);
                    vstd::seq_lib::to_multiset_len(char_vecs_view(rest@));
                    assert(char_vecs_view(rest@).to_multiset().len() == 0);
                    assert(char_vecs_view(rest@).to_multiset() =~= Multiset::<Seq<char>>::empty());
                    assert(char_vecs_view(out@).to_multiset().add(
                        char_vecs_view(rest@).to_multiset(),
                    ) =~= char_vecs_view(out@).to_multiset());
                }
                break ;
            },
        };
        proof {
            assert(char_vecs_view(rest_before) =~= char_vecs_view(rest@).push(w@));
        }
        let ghost out_before = char_vecs_view(out@);
        let mut pos: usize = 0;
        while pos < out.len() && lex_le_chars(&out[pos], &w)
            invariant
                pos <= out@.len(),
                out@.len() == out_before.len(),
                char_vecs_view(out@) == out_before,
                forall|k: int|
                    0 <= k < pos ==> spec_lex_le(#[trigger] out_before[k], w@),
            decreases out@.len() - pos,
        {
            pos = pos + 1;
        }
        proof {
            if pos < out_before.len() && !spec_lex_le(out_before[pos as int], w@) {
                lemma_lex_le_total(out_before[pos as int], w@);
            }
        }
        out.insert(pos, w);
        proof {
            out_before.insert_ensures(pos as int, w@);
            assert(char_vecs_view(out@) =~= out_before.insert(pos as int, w@));
            let now = char_vecs_view(out@);
            assert forall|i: int, j: int| 0 <= i < j < now.len() implies #[trigger] spec_lex_leq_fn()(
                now[i],
                now[j],
            ) by {
                let f = spec_lex_leq_fn();
                if i < pos && j < pos {
                    assert(f(out_before[i], out_before[j]));
                } else if j == pos {
                    assert(now[i] == out_before[i]);
                    assert(f(out_before[i], w@));
                } else if i == pos {
                    assert(now[j] == out_before[j - 1]);
                    assert(pos < out_before.len() ==> f(w@, out_before[pos as int]));
                    if j - 1 > pos {
                        assert(f(out_before[pos as int], out_before[j - 1]));
                        lemma_lex_le_trans(w@, out_before[pos as int], out_before[j - 1]);
                    }
                } else if i < pos {
                    assert(now[i] == out_before[i]);
                    assert(now[j] == out_before[j - 1]);
                    assert(f(out_before[i], out_before[j - 1]));
                } else {
                    assert(now[i] == out_before[i - 1]);
                    assert(now[j] == out_before[j - 1]);
                    assert(f(out_before[i - 1], out_before[j - 1]));
                }
            }
            vstd::seq_lib::to_multiset_insert(out_before, pos as int, w@);
            assert(char_vecs_view(out@).to_multiset() =~= out_before.to_multiset().insert(w@));
            assert(char_vecs_view(out@).to_multiset().add(char_vecs_view(rest@).to_multiset())
                =~= out_before.to_multiset().add(
                char_vecs_view(rest@).to_multiset().insert(w@),
            ));
            vstd::seq_lib::to_multiset_build(char_vecs_view(rest@), w@);
            assert(char_vecs_view(rest@).to_multiset().insert(w@) =~= char_vecs_view(
                rest_before,
            ).to_multiset());
        }
    }
    out
}

/// The sorted words with every run of equal neighbours reduced to one.
pub open spec fn spec_dedup(ws: Seq<Seq<char>>) -> Seq<Seq<char>>
    decreases ws.len(),
{
    if ws.len() == 0 {
        Seq::empty()
    } else {
        let rest = spec_dedup(ws.drop_last());
        if rest.len() > 0 && rest.last() == ws.last() {
            rest
        } else {
            rest.push(ws.last())
        }
    }
}

/// The words joined by `<br>`.
pub open spec fn spec_join_br(ws: Seq<Seq<char>>) -> Seq<char>
    decreases ws.len(),
{
    if ws.len() == 0 {
        Seq::empty()
    } else if ws.len() == 1 {
        ws[0]
    } else {
        spec_join_br(ws.drop_last()) + seq!['<', 'b', 'r', '>'] + ws.last()
    }
}

/// Joins the words with `<br>`, dropping each word equal to the one kept
/// before it.
fn join_dedup_br(sorted: &Vec<Vec<char>>) -> (r: Vec<char>)
    ensures
        r@ == spec_join_br(spec_dedup(char_vecs_view(sorted@))),
{
    let mut out: Vec<char> = Vec::new();
    let ghost kept: Seq<Seq<char>> = Seq::empty();
    let mut last_kept: Option<usize> = None;
    let mut i: usize = 0;
    while i < sorted.len()
        invariant
            i <= sorted@.len(),
            kept == spec_dedup(char_vecs_view(sorted@).take(i as int)),
            out@ == spec_join_br(kept),
            match last_kept {
                Some(j) => j < i && kept.len() > 0 && kept.last() == sorted@[j as int]@,
                None => kept.len() == 0,
            },
        decreases sorted@.len() - i,
    {
        let ghost views = char_vecs_view(sorted@);
        proof {
            assert(views.take(i + 1).drop_last() =~= views.take(i as int));
            assert(views.take(i + 1).last() == sorted@[i as int]@);
        }
        let duplicate = match last_kept {
            Some(j) => chars_eq(&sorted[j], &sorted[i]),
            None => false,
        };
        if !duplicate {
            if last_kept.is_some() {
                out.push('<');
                out.push('b');
                out.push('r');
                out.push('>');
            }
            let ghost base = out@;
            let mut j: usize = 0;
            let w = &sorted[i];
            while j < w.len()
                invariant
                    j <= w@.len(),
                    w@ == sorted@[i as int]@,
                    out@ == base + w@.take(j as int),
                decreases w@.len() - j,
            {
                out.push(w[j]);
                j = j + 1;
                proof {
                    assert(w@.take(j as int) =~= w@.take(j - 1).push(w@[j - 1]));
                    assert(out@ =~= base + w@.take(j as int));
                }
            }
            proof {
                assert(sorted@[i as int]@.take(sorted@[i as int]@.len() as int) =~= sorted@[
                    i as int]@);
                let kept_next = kept.push(sorted@[i as int]@);
                if kept.len() == 0 {
                    assert(out@ =~= sorted@[i as int]@);
                    assert(spec_join_br(kept_next) == sorted@[i as int]@);
                } else {
                    assert(kept_next.drop_last() =~= kept);
                    assert(out@ =~= spec_join_br(kept) + seq!['<', 'b', 'r', '>'] + sorted@[
                        i as int]@);
                }
                kept = kept_next;
            }
            last_kept = Some(i);
        }
        i = i + 1;
    }
    proof {
        assert(char_vecs_view(sorted@).take(sorted@.len() as int) =~= char_vecs_view(sorted@));
    }
    out
}

/// The words of the string, sorted lexicographically, deduplicated, and
/// joined by `<br>` line breaks.
pub fn sort_dedup_br(s: &str) -> (r: String)
    ensures
        r@ == spec_join_br(
            spec_dedup(spec_words_from(s@, 0).sort_by(spec_lex_leq_fn())),
        ),
{
    let v = to_char_vec(s);
    let ws = split_words(&v);
    let sorted = sort_words(ws);
    proof {
        lemma_lex_total_ordering();
        spec_words_from(s@, 0).lemma_sort_by_ensures(spec_lex_leq_fn());
        vstd::seq_lib::lemma_sorted_unique(
            char_vecs_view(sorted@),
            spec_words_from(s@, 0).sort_by(spec_lex_leq_fn()),
            spec_lex_leq_fn(),
        );
    }
    let joined = join_dedup_br(&sorted);
    chars_to_string(&joined)
}

/// Sorting, deduplication and `<br>` joining as a method.
pub trait SortDedupBr {
    fn sort_dedup_br(&self) -> String;
}

impl SortDedupBr for String {
    fn sort_dedup_br(&self) -> (r: String)
        ensures
            r@ == spec_join_br(
                spec_dedup(spec_words_from(self@, 0).sort_by(spec_lex_leq_fn())),
            ),
    {
        sort_dedup_br(self.as_str())
    }
}

/// What `str::to_lowercase` returns; the result depends on the characters
/// alone.
pub uninterp spec fn lower_of(s: Seq<char>) -> Seq<char>;

/// Relies on `str::to_lowercase`: the lowercase mapping of the string.
#[verifier::external_body]
fn lowercase(s: &str) -> (r: String)
    ensures
        r@ == lower_of(s@),
{
    s.to_lowercase()
}

/// Escapes `&`, `<` and `>` for HTML.
pub fn esc_et_lt_gt(s: &str) -> (r: String)
    ensures
        r@ == spec_esc_amp_lt_gt(s@),
{
    let v = to_char_vec(s);
    let mut out: Vec<char> = Vec::new();
    let mut i: usize = 0;
    while i < v.len()
        invariant
            i <= v@.len(),
            v@ == s@,
            out@ == spec_esc_amp_lt_gt(v@.take(i as int)),
        decreases v@.len() - i,
    {
        let c = v[i];
        if c == '&' {
            out.push('&');
            out.push('a');
            out.push('m');
            out.push('p');
            out.push(';');
        } else if c == '<' {
            out.push('&');
            out.push('l');
            out.push('t');
            out.push(';');
        } else if c == '>' {
            out.push('&');
            out.push('g');
            out.push('t');
            out.push(';');
        } else {
            out.push(c);
        }
        i = i + 1;
        proof {
            assert(v@.take(i as int).drop_last() =~= v@.take(i - 1));
            assert(out@ =~= spec_esc_amp_lt_gt(v@.take(i - 1)) + spec_esc_amp_char(
                v@[i - 1],
            ));
        }
    }
    proof {
        assert(v@.take(v@.len() as int) =~= v@);
    }
    chars_to_string(&out)
}

/// Escapes `"` for HTML.
pub fn esc_quot(s: &str) -> (r: String)
    ensures
        r@ == spec_esc_quot(s@),
{
    let v = to_char_vec(s);
    let mut out: Vec<char> = Vec::new();
    let mut i: usize = 0;
    while i < v.len()
        invariant
            i <= v@.len(),
            v@ == s@,
            out@ == spec_esc_quot(v@.take(i as int)),
        decreases v@.len() - i,
    {
        let c = v[i];
        if c == '"' {
            out.push('&');
            out.push('q');
            out.push('u');
            out.push('o');
            out.push('t');
            out.push(';');
        } else {
            out.push(c);
        }
        i = i + 1;
        proof {
            assert(v@.take(i as int).drop_last() =~= v@.take(i - 1));
            assert(out@ =~= spec_esc_quot(v@.take(i - 1)) + spec_esc_quot_char(v@[i - 1]));
        }
    }
    proof {
        assert(v@.take(v@.len() as int) =~= v@);
    }
    chars_to_string(&out)
}

/// The character of one decimal digit.
pub open spec fn spec_digit_char(d: int) -> char {
    if d == 0 {
        '0'
    } else if d == 1 {
        '1'
    } else if d == 2 {
        '2'
    } else if d == 3 {
        '3'
    } else if d == 4 {
        '4'
    } else if d == 5 {
        '5'
    } else if d == 6 {
        '6'
    } else if d == 7 {
        '7'
    } else if d == 8 {
        '8'
    } else {
        '9'
    }
}

/// A number under 100 as two digits, zero padded.
pub open spec fn spec_two_digits(n: u32) -> Seq<char> {
    seq![spec_digit_char(n as int / 10), spec_digit_char(n as int % 10)]
}

/// A number under 10000 as four digits, zero padded.
pub open spec fn spec_four_digits(n: u32) -> Seq<char> {
    seq![
        spec_digit_char(n as int / 1000),
        spec_digit_char((n as int / 100) % 10),
        spec_digit_char((n as int / 10) % 10),
        spec_digit_char(n as int % 10),
    ]
}

/// The English three-letter abbreviation of a month.
pub open spec fn spec_month_abbrev(m: u32) -> Seq<char> {
    if m == 1 {
        seq!['J', 'a', 'n']
    } else if m == 2 {
        seq!['F', 'e', 'b']
    } else if m == 3 {
        seq!['M', 'a', 'r']
    } else if m == 4 {
        seq!['A', 'p', 'r']
    } else if m == 5 {
        seq!['M', 'a', 'y']
    } else if m == 6 {
        seq!['J', 'u', 'n']
    } else if m == 7 {
        seq!['J', 'u', 'l']
    } else if m == 8 {
        seq!['A', 'u', 'g']
    } else if m == 9 {
        seq!['S', 'e', 'p']
    } else if m == 10 {
        seq!['O', 'c', 't']
    } else if m == 11 {
        seq!['N', 'o', 'v']
    } else {
        seq!['D', 'e', 'c']
    }
}

/// A clock in the long format, `YYYY-MM-DD HH:MM:SS`.
pub open spec fn spec_fmt_long(c: ClockState) -> Seq<char> {
    spec_four_digits(c.year) + seq!['-'] + spec_two_digits(c.month) + seq!['-'] + spec_two_digits(
        c.day,
    ) + seq![' '] + spec_two_digits(c.hour) + seq![':'] + spec_two_digits(c.min) + seq![':']
        + spec_two_digits(c.sec)
}

/// A clock in the short format, `Mon DD HH:MM`.
pub open spec fn spec_fmt_short(c: ClockState) -> Seq<char> {
    spec_month_abbrev(c.month) + seq![' '] + spec_two_digits(c.day) + seq![' '] + spec_two_digits(
        c.hour,
    ) + seq![':'] + spec_two_digits(c.min)
}

/// A clock in the short format with the year in front.
pub open spec fn spec_fmt_short_y(c: ClockState) -> Seq<char> {
    spec_four_digits(c.year) + seq![' '] + spec_fmt_short(c)
}

fn digit_char(d: u32) -> (r: char)
    requires
        d < 10,
    ensures
        r == spec_digit_char(d as int),
{
    match d {
        0 => '0',
        1 => '1',
        2 => '2',
        3 => '3',
        4 => '4',
        5 => '5',
        6 => '6',
        7 => '7',
        8 => '8',
        _ => '9',
    }
}

fn push_two_digits(out: &mut Vec<char>, n: u32)
    requires
        n < 100,
    ensures
        final(out)@ == old(out)@ + spec_two_digits(n),
{
    out.push(digit_char(n / 10));
    out.push(digit_char(n % 10));
    proof {
        assert(final(out)@ =~= old(out)@ + spec_two_digits(n));
    }
}

fn push_four_digits(out: &mut Vec<char>, n: u32)
    requires
        n < 10000,
    ensures
        final(out)@ == old(out)@ + spec_four_digits(n),
{
    out.push(digit_char(n / 1000));
    out.push(digit_char((n / 100) % 10));
    out.push(digit_char((n / 10) % 10));
    out.push(digit_char(n % 10));
    proof {
        assert(final(out)@ =~= old(out)@ + spec_four_digits(n));
    }
}

fn push_month_abbrev(out: &mut Vec<char>, m: u32)
    requires
        1 <= m <= 12,
    ensures
        final(out)@ == old(out)@ + spec_month_abbrev(m),
{
    let abbrev = match m {
        1 => ('J', 'a', 'n'),
        2 => ('F', 'e', 'b'),
        3 => ('M', 'a', 'r'),
        4 => ('A', 'p', 'r'),
        5 => ('M', 'a', 'y'),
        6 => ('J', 'u', 'n'),
        7 => ('J', 'u', 'l'),
        8 => ('A', 'u', 'g'),
        9 => ('S', 'e', 'p'),
        10 => ('O', 'c', 't'),
        11 => ('N', 'o', 'v'),
        _ => ('D', 'e', 'c'),
    };
    out.push(abbrev.0);
    out.push(abbrev.1);
    out.push(abbrev.2);
    proof {
        assert(final(out)@ =~= old(out)@ + spec_month_abbrev(m));
    }
}

/// Renders the clock in the long format.
pub fn fmt_long(c: &ClockState) -> (r: String)
    requires
        c.wf(),
    ensures
        r@ == spec_fmt_long(*c),
{
    let mut out: Vec<char> = Vec::new();
    push_four_digits(&mut out, c.year);
    out.push('-');
    push_two_digits(&mut out, c.month);
    out.push('-');
    push_two_digits(&mut out, c.day);
    out.push(' ');
    push_two_digits(&mut out, c.hour);
    out.push(':');
    push_two_digits(&mut out, c.min);
    out.push(':');
    push_two_digits(&mut out, c.sec);
    proof {
        assert(out@ =~= spec_fmt_long(*c));
    }
    chars_to_string(&out)
}

/// Renders the clock in the short format.
pub fn fmt_short(c: &ClockState) -> (r: String)
    requires
        c.wf(),
    ensures
        r@ == spec_fmt_short(*c),
{
    let mut out: Vec<char> = Vec::new();
    push_month_abbrev(&mut out, c.month);
    out.push(' ');
    push_two_digits(&mut out, c.day);
    out.push(' ');
    push_two_digits(&mut out, c.hour);
    out.push(':');
    push_two_digits(&mut out, c.min);
    proof {
        assert(out@ =~= spec_fmt_short(*c));
    }
    chars_to_string(&out)
}

/// Renders the clock in the short format with the year.
pub fn fmt_short_y(c: &ClockState) -> (r: String)
    requires
        c.wf(),
    ensures
        r@ == spec_fmt_short_y(*c),
{
    let mut out: Vec<char> = Vec::new();
    push_four_digits(&mut out, c.year);
    out.push(' ');
    push_month_abbrev(&mut out, c.month);
    out.push(' ');
    push_two_digits(&mut out, c.day);
    out.push(' ');
    push_two_digits(&mut out, c.hour);
    out.push(':');
    push_two_digits(&mut out, c.min);
    proof {
        assert(out@ =~= spec_fmt_short_y(*c));
    }
    chars_to_string(&out)
}

/// True when the timestamp has a rendering: zero stands for "no timestamp",
/// and the clock covers 1970 through 9999.
pub open spec fn spec_ts_in_range(ts: i64) -> bool {
    0 < ts < 86400 * crate::clock::spec_days_before_year(10000)
}

/// Renders a timestamp with the given formatter, or `(none)` outside the
/// range.
fn ts_render(ts: i64, style: u8) -> (r: String)
    requires
        style < 3,
    ensures
        !spec_ts_in_range(ts) ==> r@ == "(none)"@,
        spec_ts_in_range(ts) ==> exists|c: ClockState|
            {
                &&& #[trigger] c.wf()
                &&& crate::clock::spec_epoch_seconds(c) == ts
                &&& r@ == if style == 0 {
                    spec_fmt_long(c)
                } else if style == 1 {
                    spec_fmt_short(c)
                } else {
                    spec_fmt_short_y(c)
                }
            },
{
    let limit = crate::clock::epoch_limit();
    if ts <= 0 || ts >= limit {
        return String::from_str("(none)");
    }
    let c = crate::clock::civil_from_epoch(ts);
    if style == 0 {
        fmt_long(&c)
    } else if style == 1 {
        fmt_short(&c)
    } else {
        fmt_short_y(&c)
    }
}

/// Timestamp renderings of epoch seconds, as the log pages show them.
///
/// The clock reads civil time without a zone shift, and covers 1970
/// through 9999: renderings shifted into a named time zone are not
/// offered, and an instant before the epoch or past year 9999 renders as
/// `(none)`.
pub trait TimeStampFormats {
    fn ts_long(self) -> String;

    fn ts_short(self) -> String;

    fn ts_short_y(self) -> String;
}

impl TimeStampFormats for i64 {
    /// `YYYY-MM-DD HH:MM:SS`, or `(none)` outside the clock's range.
    fn ts_long(self) -> (r: String)
        ensures
            !spec_ts_in_range(self) ==> r@ == "(none)"@,
            spec_ts_in_range(self) ==> exists|c: ClockState|
                {
                    &&& #[trigger] c.wf()
                    &&& crate::clock::spec_epoch_seconds(c) == self
                    &&& r@ == spec_fmt_long(c)
                },
    {
        ts_render(self, 0)
    }

    /// `Mon DD HH:MM`, or `(none)` outside the clock's range.
    fn ts_short(self) -> (r: String)
        ensures
            !spec_ts_in_range(self) ==> r@ == "(none)"@,
            spec_ts_in_range(self) ==> exists|c: ClockState|
                {
                    &&& #[trigger] c.wf()
                    &&& crate::clock::spec_epoch_seconds(c) == self
                    &&& r@ == spec_fmt_short(c)
                },
    {
        ts_render(self, 1)
    }

    /// `YYYY Mon DD HH:MM`, or `(none)` outside the clock's range.
    fn ts_short_y(self) -> (r: String)
        ensures
            !spec_ts_in_range(self) ==> r@ == "(none)"@,
            spec_ts_in_range(self) ==> exists|c: ClockState|
                {
                    &&& #[trigger] c.wf()
                    &&& crate::clock::spec_epoch_seconds(c) == self
                    &&& r@ == spec_fmt_short_y(c)
                },
    {
        ts_render(self, 2)
    }
}

/// `&`/`<`/`>` escaping as a method.
pub trait EscEtLtGt {
    fn esc_et_lt_gt(&self) -> String;
}

impl EscEtLtGt for String {
    fn esc_et_lt_gt(&self) -> (r: String)
        ensures
            r@ == spec_esc_amp_lt_gt(self@),
    {
        esc_et_lt_gt(self.as_str())
    }
}

/// Quote escaping as a method.
pub trait EscQuot {
    fn esc_quot(&self) -> String;
}

impl EscQuot for String {
    fn esc_quot(&self) -> (r: String)
        ensures
            r@ == spec_esc_quot(self@),
    {
        esc_quot(self.as_str())
    }
}

/// Whitespace collapsing as a method.
pub trait CollapseWhiteSpace {
    fn ws_collapse(&self) -> String;
}

impl CollapseWhiteSpace for String {
    fn ws_collapse(&self) -> (r: String)
        ensures
            r@ == spec_join_spaces(spec_words_from(self@, 0)),
    {
        ws_collapse(self.as_str())
    }
}

/// The SQL search pattern as a method.
pub trait StringSqlSearch {
    fn sql_search(&self) -> String;
}

impl StringSqlSearch for String {
    fn sql_search(&self) -> (r: String)
        ensures
            r@ == seq!['%'] + spec_sql_wild(lower_of(self@)) + seq!['%'],
    {
        sql_search(self.as_str())
    }
}

/// The SQL `like` pattern of a search term: the lowercase term with `*`
/// and `?` turned into `%` and `_`, wrapped in `%`.
pub fn sql_search(s: &str) -> (r: String)
    ensures
        r@ == seq!['%'] + spec_sql_wild(lower_of(s@)) + seq!['%'],
{
    let low = lowercase(s);
    let v = to_char_vec(low.as_str());
    let mut out: Vec<char> = Vec::new();
    out.push('%');
    let mut i: usize = 0;
    while i < v.len()
        invariant
            i <= v@.len(),
            v@ == lower_of(s@),
            out@ == seq!['%'] + spec_sql_wild(v@.take(i as int)),
        decreases v@.len() - i,
    {
        let c = v[i];
        if c == '*' {
            out.push('%');
        } else if c == '?' {
            out.push('_');
        } else {
            out.push(c);
        }
        i = i + 1;
        proof {
            assert(out@ =~= seq!['%'] + spec_sql_wild(v@.take(i as int)));
        }
    }
    out.push('%');
    proof {
        assert(v@.take(v@.len() as int) =~= v@);
        assert(out@ =~= seq!['%'] + spec_sql_wild(v@) + seq!['%']);
    }
    chars_to_string(&out)
}

} // verus!
