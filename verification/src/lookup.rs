//! Finding the first entry of a list that equals a key.

use vstd::prelude::*;

verus! {

/// The position of the first entry of `v` that equals `key`, or the length
/// of `v` where none does.
pub open spec fn first_match<T>(v: Seq<T>, key: T) -> int
    decreases v.len(),
{
    if v.len() == 0 {
        0
    } else if v[0] == key {
        0
    } else {
        1 + first_match(v.skip(1), key)
    }
}

/// `first_match` gives a position within or at the end of the list; what it
/// points at equals the key, and nothing before it does.
pub proof fn lemma_first_match<T>(v: Seq<T>, key: T)
    ensures
        0 <= first_match(v, key) <= v.len(),
        first_match(v, key) < v.len() ==> v[first_match(v, key)] == key,
        forall|k: int| 0 <= k < first_match(v, key) ==> v[k] != key,
        first_match(v, key) < v.len() <==> v.contains(key),
    decreases v.len(),
{
    if v.len() == 0 {
    } else if v[0] == key {
    } else {
        let rest = v.skip(1);
        lemma_first_match(rest, key);
        let m = first_match(rest, key);
        assert forall|k: int| 0 <= k < 1 + m implies v[k] != key by {
            if k > 0 {
                assert(rest[k - 1] == v[k]);
            }
        }
        if m < rest.len() {
            assert(rest[m] == v[m + 1]);
        }
        if v.contains(key) {
            let j = choose|j: int| 0 <= j < v.len() && v[j] == key;
            assert(rest[j - 1] == key);
            assert(rest.contains(key));
        }
    }
}

/// A position that equals the key, with nothing before it that does, is the
/// first match.
pub proof fn lemma_first_match_unique<T>(v: Seq<T>, key: T, i: int)
    requires
        0 <= i <= v.len(),
        i < v.len() ==> v[i] == key,
        forall|k: int| 0 <= k < i ==> v[k] != key,
    ensures
        first_match(v, key) == i,
{
    lemma_first_match(v, key);
}

/// Adding one entry at the end moves no first match that was found, and a
/// key that was not found is found at the end if it is the new entry.
pub proof fn lemma_first_match_push<T>(v: Seq<T>, entry: T, key: T)
    ensures
        first_match(v.push(entry), key) == if first_match(v, key) < v.len() {
            first_match(v, key)
        } else if key == entry {
            v.len() as int
        } else {
            v.len() as int + 1
        },
{
    lemma_first_match(v, key);
    let m = first_match(v, key);
    let all = v.push(entry);
    if m < v.len() {
        assert(all[m] == key);
        assert forall|k: int| 0 <= k < m implies all[k] != key by {
            assert(all[k] == v[k]);
        }
        lemma_first_match_unique(all, key, m);
    } else {
        assert forall|k: int| 0 <= k < v.len() implies all[k] != key by {
            assert(all[k] == v[k]);
        }
        if key == entry {
            lemma_first_match_unique(all, key, v.len() as int);
        } else {
            lemma_first_match_unique(all, key, v.len() as int + 1);
        }
    }
}

/// Filtering a list that ends in `last` filters what comes before it and
/// keeps `last` where the test accepts it.
pub proof fn lemma_filter_last<T>(v: Seq<T>, pred: spec_fn(T) -> bool)
    requires
        v.len() > 0,
    ensures
        v.filter(pred) == if pred(v.last()) {
            v.drop_last().filter(pred).push(v.last())
        } else {
            v.drop_last().filter(pred)
        },
{
    reveal(Seq::filter);
}

/// Filtering a list into which an entry was put filters the list and, where
/// the test accepts the entry, puts it behind what is kept of the entries
/// ahead of it.
pub proof fn lemma_filter_insert<T>(v: Seq<T>, p: int, entry: T, pred: spec_fn(T) -> bool)
    requires
        0 <= p <= v.len(),
    ensures
        0 <= v.take(p).filter(pred).len() <= v.filter(pred).len(),
        v.insert(p, entry).filter(pred) == if pred(entry) {
            v.filter(pred).insert(v.take(p).filter(pred).len() as int, entry)
        } else {
            v.filter(pred)
        },
{
    let ahead = v.take(p);
    let behind = v.skip(p);
    let one = seq![entry];
    assert(v =~= ahead + behind);
    assert(v.insert(p, entry) =~= (ahead + one) + behind);
    Seq::filter_distributes_over_add(ahead, behind, pred);
    Seq::filter_distributes_over_add(ahead, one, pred);
    Seq::filter_distributes_over_add(ahead + one, behind, pred);
    lemma_filter_last(one, pred);
    assert(one.drop_last() =~= Seq::<T>::empty());
    assert(one.drop_last().filter(pred) =~= Seq::<T>::empty()) by {
        reveal(Seq::filter);
    }
    let kept_ahead = ahead.filter(pred);
    let kept_behind = behind.filter(pred);
    if pred(entry) {
        assert(one.filter(pred) =~= one);
        assert((kept_ahead + one) + kept_behind =~= (kept_ahead + kept_behind).insert(
            kept_ahead.len() as int,
            entry,
        ));
    } else {
        assert(one.filter(pred) =~= Seq::<T>::empty());
        assert((kept_ahead + one.filter(pred)) + kept_behind =~= kept_ahead + kept_behind);
    }
}

} // verus!
