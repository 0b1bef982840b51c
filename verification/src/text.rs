//! Small helpers on owned strings and their character sequences.

use vstd::prelude::*;
use crate::category::texts;
use crate::lookup::{first_match, lemma_filter_last, lemma_first_match, lemma_first_match_unique};

verus! {

/// The character sequence of an optional string.
pub open spec fn optional_text(o: Option<String>) -> Option<Seq<char>> {
    match o {
        Some(s) => Some(s@),
        None => None,
    }
}

/// A copy of an optional string.
pub fn copy_optional(o: &Option<String>) -> (r: Option<String>)
    ensures
        optional_text(r) == optional_text(*o),
{
    match o {
        Some(s) => Some(s.clone()),
        None => None,
    }
}

/// Whether two optional strings hold the same text, or both nothing.
pub fn same_optional(a: &Option<String>, b: &Option<String>) -> (r: bool)
    ensures
        r == (optional_text(*a) == optional_text(*b)),
{
    match (a, b) {
        (Some(x), Some(y)) => *x == *y,
        (None, None) => true,
        _ => false,
    }
}

/// A copy of a list of strings.
pub fn copy_texts(v: &Vec<String>) -> (r: Vec<String>)
    ensures
        texts(r@) == texts(v@),
{
    let mut out: Vec<String> = Vec::new();
    let mut i: usize = 0;
    while i < v.len()
        invariant
            i <= v.len(),
            texts(out@) == texts(v@).take(i as int),
        decreases v.len() - i,
    {
        let s = v[i].clone();
        proof {
            assert(texts(out@.push(s)) =~= texts(out@).push(s@));
            assert(texts(v@).take(i as int).push(s@) =~= texts(v@).take(i + 1));
        }
        out.push(s);
        i += 1;
    }
    assert(texts(v@).take(v.len() as int) =~= texts(v@));
    out
}

/// Whether two lists hold the same texts in the same order.
pub fn same_texts(a: &Vec<String>, b: &Vec<String>) -> (r: bool)
    ensures
        r == (texts(a@) == texts(b@)),
{
    if a.len() != b.len() {
        assert(texts(a@).len() != texts(b@).len());
        return false;
    }
    let mut i: usize = 0;
    while i < a.len()
        invariant
            i <= a.len(),
            a.len() == b.len(),
            forall|k: int| 0 <= k < i ==> texts(a@)[k] == texts(b@)[k],
        decreases a.len() - i,
    {
        if a[i] != b[i] {
            assert(texts(a@)[i as int] != texts(b@)[i as int]);
            return false;
        }
        i += 1;
    }
    assert(texts(a@) =~= texts(b@));
    true
}

/// Finds the first string of `v` that holds the text of `name`.
pub fn find_text(v: &Vec<String>, name: &String) -> (i: usize)
    ensures
        i == first_match(texts(v@), name@),
{
    let mut i: usize = 0;
    while i < v.len()
        invariant
            i <= v.len(),
            forall|k: int| 0 <= k < i ==> texts(v@)[k] != name@,
        ensures
            i <= v.len(),
            i < v.len() ==> texts(v@)[i as int] == name@,
            forall|k: int| 0 <= k < i ==> texts(v@)[k] != name@,
        decreases v.len() - i,
    {
        if v[i] == *name {
            assert(texts(v@)[i as int] == name@);
            break;
        }
        i += 1;
    }
    proof {
        lemma_first_match_unique(texts(v@), name@, i as int);
    }
    i
}

/// Whether `a` stands before `b`, or is `b`, in the order of the dictionary
/// by code point, which is the order of `String`.
pub open spec fn lex_le(a: Seq<char>, b: Seq<char>) -> bool
    decreases a.len(),
{
    a.len() == 0 || (b.len() > 0 && ((a[0] as u32) < (b[0] as u32) || (a[0] == b[0] && lex_le(
        a.skip(1),
        b.skip(1),
    ))))
}

/// Whether the texts stand in ascending order, each one once.
pub open spec fn strictly_ascending(v: Seq<Seq<char>>) -> bool {
    forall|i: int, j: int| 0 <= i < j < v.len() ==> lex_le(v[i], v[j]) && v[i] != v[j]
}

/// Two texts of which each stands before or at the other are one text.
pub proof fn lemma_lex_le_antisymmetric(a: Seq<char>, b: Seq<char>)
    requires
        lex_le(a, b),
        lex_le(b, a),
    ensures
        a == b,
    decreases a.len(),
{
    if a.len() == 0 || b.len() == 0 {
        assert(a =~= b);
    } else {
        lemma_lex_le_antisymmetric(a.skip(1), b.skip(1));
        assert(a =~= seq![a[0]] + a.skip(1));
        assert(b =~= seq![b[0]] + b.skip(1));
    }
}

/// Calls `<String as PartialOrd>::lt`: whether `a` stands before `b` in the
/// order of `String`, which is that of the dictionary by code point.
#[verifier::external_body]
pub(crate) fn text_before(a: &String, b: &String) -> (r: bool)
    ensures
        r == (lex_le(a@, b@) && a@ != b@),
{
    a < b
}

/// Two characters that differ have different code points.
proof fn lemma_code_points_differ(x: char, y: char)
    requires
        x != y,
    ensures
        (x as u32) != (y as u32),
{
}

/// Of two texts one stands before or at the other.
pub proof fn lemma_lex_le_total(a: Seq<char>, b: Seq<char>)
    ensures
        lex_le(a, b) || lex_le(b, a),
    decreases a.len(),
{
    if a.len() == 0 || b.len() == 0 {
    } else if a[0] == b[0] {
        lemma_lex_le_total(a.skip(1), b.skip(1));
    } else {
        lemma_code_points_differ(a[0], b[0]);
    }
}

/// A text that stands before or at a second, which stands before or at a
/// third, stands before or at the third.
pub proof fn lemma_lex_le_transitive(a: Seq<char>, b: Seq<char>, c: Seq<char>)
    requires
        lex_le(a, b),
        lex_le(b, c),
    ensures
        lex_le(a, c),
    decreases a.len(),
{
    if a.len() == 0 {
    } else if a[0] == b[0] && b[0] == c[0] {
        lemma_lex_le_transitive(a.skip(1), b.skip(1), c.skip(1));
    }
}

/// The number of texts at the head of `v` that stand before `text`: where
/// `text` goes in an ascending list.
pub open spec fn place_of(v: Seq<Seq<char>>, text: Seq<char>) -> int
    decreases v.len(),
{
    if v.len() == 0 {
        0
    } else if lex_le(v[0], text) && v[0] != text {
        1 + place_of(v.skip(1), text)
    } else {
        0
    }
}

/// The list with `text` in its place; the list itself where it holds the
/// text already.
pub open spec fn with_text(v: Seq<Seq<char>>, text: Seq<char>) -> Seq<Seq<char>> {
    if v.contains(text) {
        v
    } else {
        v.insert(place_of(v, text), text)
    }
}

/// The place of a text lies within the list or at its end; every text
/// ahead of it stands before the text, and the one at the place does not.
pub proof fn lemma_place_of(v: Seq<Seq<char>>, text: Seq<char>)
    ensures
        0 <= place_of(v, text) <= v.len(),
        forall|k: int|
            0 <= k < place_of(v, text) ==> lex_le(#[trigger] v[k], text) && v[k] != text,
        place_of(v, text) < v.len() ==> !(lex_le(v[place_of(v, text)], text) && v[place_of(
            v,
            text,
        )] != text),
    decreases v.len(),
{
    if v.len() > 0 && lex_le(v[0], text) && v[0] != text {
        let rest = v.skip(1);
        lemma_place_of(rest, text);
        let p = place_of(rest, text);
        assert forall|k: int| 0 <= k < 1 + p implies lex_le(#[trigger] v[k], text) && v[k]
            != text by {
            if k > 0 {
                assert(rest[k - 1] == v[k]);
            }
        }
        if p < rest.len() {
            assert(rest[p] == v[p + 1]);
        }
    }
}

/// Putting a text in its place adds that text and no other; an ascending
/// list without repeats stays one.
pub proof fn lemma_with_text(v: Seq<Seq<char>>, text: Seq<char>)
    ensures
        forall|x: Seq<char>| with_text(v, text).contains(x) <==> v.contains(x) || x == text,
        strictly_ascending(v) ==> strictly_ascending(with_text(v, text)),
{
    let r = with_text(v, text);
    let p = place_of(v, text);
    lemma_place_of(v, text);
    if !v.contains(text) {
        assert forall|x: Seq<char>| r.contains(x) <==> v.contains(x) || x == text by {
            if r.contains(x) {
                let k = choose|k: int| 0 <= k < r.len() && r[k] == x;
                if k < p {
                    assert(v[k] == x);
                } else if k > p {
                    assert(v[k - 1] == x);
                }
            }
            if v.contains(x) {
                let k = choose|k: int| 0 <= k < v.len() && v[k] == x;
                if k < p {
                    assert(r[k] == x);
                } else {
                    assert(r[k + 1] == x);
                }
            }
            if x == text {
                assert(r[p] == x);
            }
        }
        if strictly_ascending(v) {
            assert forall|i: int, j: int| 0 <= i < j < r.len() implies lex_le(r[i], r[j])
                && r[i] != r[j] by {
                if j < p {
                    assert(r[i] == v[i] && r[j] == v[j]);
                } else if j == p {
                    assert(r[i] == v[i]);
                } else if i > p {
                    assert(r[i] == v[i - 1] && r[j] == v[j - 1]);
                } else if i == p {
                    assert(r[j] == v[j - 1]);
                    assert(v.contains(v[j - 1]));
                    assert(v.contains(v[p]));
                    lemma_lex_le_total(text, v[p]);
                    if j - 1 > p {
                        assert(lex_le(v[p], v[j - 1]));
                        lemma_lex_le_transitive(text, v[p], v[j - 1]);
                    }
                } else {
                    assert(r[i] == v[i] && r[j] == v[j - 1]);
                }
            }
        }
    } else {
        assert forall|x: Seq<char>| r.contains(x) <==> v.contains(x) || x == text by {}
    }
}

/// Leaving texts out of an ascending list without repeats leaves such a
/// list.
pub proof fn lemma_filter_keeps_order(v: Seq<Seq<char>>, pred: spec_fn(Seq<char>) -> bool)
    requires
        strictly_ascending(v),
    ensures
        strictly_ascending(v.filter(pred)),
    decreases v.len(),
{
    if v.len() == 0 {
        reveal(Seq::filter);
        assert(v.filter(pred) =~= Seq::empty());
    } else {
        let front = v.drop_last();
        let kept = front.filter(pred);
        assert forall|i: int, j: int| 0 <= i < j < front.len() implies lex_le(front[i], front[j])
            && front[i] != front[j] by {
            assert(front[i] == v[i] && front[j] == v[j]);
        }
        lemma_filter_keeps_order(front, pred);
        lemma_filter_last(v, pred);
        if pred(v.last()) {
            let r = kept.push(v.last());
            assert forall|i: int, j: int| 0 <= i < j < r.len() implies lex_le(r[i], r[j])
                && r[i] != r[j] by {
                if j < kept.len() {
                    assert(lex_le(kept[i], kept[j]) && kept[i] != kept[j]);
                } else {
                    assert(kept.contains(kept[i]));
                    front.lemma_filter_contains_rev(pred, kept[i]);
                    let m = choose|m: int| 0 <= m < front.len() && front[m] == kept[i];
                    assert(v[m] == kept[i]);
                    assert(lex_le(v[m], v[v.len() - 1]) && v[m] != v[v.len() - 1]);
                }
            }
        }
    }
}

/// Puts the text in its place among the texts, unless they hold it already.
pub fn insert_text(v: &mut Vec<String>, text: String)
    ensures
        texts(final(v)@) == with_text(texts(old(v)@), text@),
{
    let ghost all = texts(v@);
    proof {
        lemma_first_match(all, text@);
    }
    if find_text(v, &text) < v.len() {
        return;
    }
    let mut i: usize = 0;
    assert(all.skip(0) =~= all);
    while i < v.len() && text_before(&v[i], &text)
        invariant
            i <= v.len(),
            all == texts(v@),
            v@ == old(v)@,
            place_of(all, text@) == i + place_of(all.skip(i as int), text@),
        decreases v.len() - i,
    {
        proof {
            assert(all.skip(i as int)[0] == all[i as int]);
            assert(all.skip(i as int).skip(1) =~= all.skip(i + 1));
        }
        i += 1;
    }
    proof {
        if i < v.len() {
            assert(all.skip(i as int)[0] == all[i as int]);
        }
        assert(place_of(all, text@) == i);
        assert(texts(v@.insert(i as int, text)) =~= all.insert(i as int, text@));
    }
    v.insert(i, text);
}

/// Calls `<[String]>::sort`, which puts the strings in ascending order:
/// afterwards the list holds the strings it held, each as often as before,
/// and none stands behind a greater one. `String` is ordered as the
/// dictionary orders by code point.
#[verifier::external_body]
fn sort_texts(v: &mut Vec<String>)
    ensures
        texts(final(v)@).to_multiset() == texts(old(v)@).to_multiset(),
        forall|i: int, j: int|
            0 <= i < j < final(v)@.len() ==> lex_le(
                #[trigger] texts(final(v)@)[i],
                #[trigger] texts(final(v)@)[j],
            ),
{
    v.sort();
}

/// The texts in ascending order, each one once.
pub fn sorted_distinct(tags: Vec<String>) -> (r: Vec<String>)
    ensures
        strictly_ascending(texts(r@)),
        forall|x: Seq<char>| texts(r@).contains(x) <==> texts(tags@).contains(x),
{
    let mut sorted = tags;
    sort_texts(&mut sorted);
    let ghost s = texts(sorted@);
    let mut out: Vec<String> = Vec::new();
    let mut i: usize = 0;
    while i < sorted.len()
        invariant
            i <= sorted.len(),
            s == texts(sorted@),
            forall|a: int, b: int| 0 <= a < b < s.len() ==> lex_le(s[a], s[b]),
            strictly_ascending(texts(out@)),
            (out@.len() > 0) == (i > 0),
            i > 0 ==> texts(out@).last() == s[i - 1],
            forall|x: Seq<char>| texts(out@).contains(x) <==> s.take(i as int).contains(x),
        decreases sorted.len() - i,
    {
        let ghost kept = texts(out@);
        let ghost seen = s.take(i as int);
        let ghost upto = s.take(i + 1);
        let fresh = out.len() == 0 || out[out.len() - 1] != sorted[i];
        if fresh {
            let t = sorted[i].clone();
            proof {
                let next = kept.push(t@);
                assert(texts(out@.push(t)) =~= next);
                assert forall|a: int, b: int| 0 <= a < b < next.len() implies lex_le(
                    next[a],
                    next[b],
                ) && next[a] != next[b] by {
                    if b < kept.len() {
                        assert(next[a] == kept[a] && next[b] == kept[b]);
                        assert(lex_le(kept[a], kept[b]) && kept[a] != kept[b]);
                    } else {
                        assert(next[a] == kept[a] && next[b] == t@);
                        assert(t@ == s[i as int]);
                        assert(kept.contains(kept[a]));
                        assert(seen.contains(kept[a]));
                        let m = choose|m: int|
                            0 <= m < seen.len() && seen[m] == kept[a];
                        assert(s[m] == kept[a]);
                        assert(lex_le(s[m], s[i as int]));
                        if s[m] == s[i as int] {
                            assert(kept.last() == s[i - 1]);
                            assert(s[i - 1] != s[i as int]);
                            if m < i - 1 {
                                assert(lex_le(s[m], s[i - 1]));
                            }
                            assert(lex_le(s[i - 1], s[i as int]));
                            lemma_lex_le_antisymmetric(s[i - 1], s[m]);
                            assert(false);
                        }
                    }
                }
                assert(strictly_ascending(next));
                assert forall|x: Seq<char>| next.contains(x) <==> upto.contains(x) by {
                    if next.contains(x) {
                        let k = choose|k: int| 0 <= k < next.len() && next[k] == x;
                        if k < kept.len() {
                            assert(kept.contains(x));
                            let m = choose|m: int| 0 <= m < seen.len() && seen[m] == x;
                            assert(upto[m] == x);
                        } else {
                            assert(upto[i as int] == x);
                        }
                    }
                    if upto.contains(x) {
                        let m = choose|m: int| 0 <= m < upto.len() && upto[m] == x;
                        if m < i {
                            assert(seen[m] == x);
                            assert(kept.contains(x));
                            let k = choose|k: int| 0 <= k < kept.len() && kept[k] == x;
                            assert(next[k] == x);
                        } else {
                            assert(next[kept.len() as int] == x);
                        }
                    }
                }
            }
            out.push(t);
        } else {
            proof {
                assert forall|x: Seq<char>| kept.contains(x) <==> upto.contains(x) by {
                    if kept.contains(x) {
                        let m = choose|m: int| 0 <= m < seen.len() && seen[m] == x;
                        assert(upto[m] == x);
                    }
                    if upto.contains(x) {
                        let m = choose|m: int| 0 <= m < upto.len() && upto[m] == x;
                        if m < i {
                            assert(seen[m] == x);
                        } else {
                            assert(seen[i - 1] == x);
                        }
                    }
                }
            }
        }
        i += 1;
    }
    proof {
        assert(s.take(sorted.len() as int) =~= s);
        assert forall|x: Seq<char>| s.contains(x) <==> texts(tags@).contains(x) by {
            vstd::seq_lib::to_multiset_contains(s, x);
            vstd::seq_lib::to_multiset_contains(texts(tags@), x);
        }
    }
    out
}

} // verus!
