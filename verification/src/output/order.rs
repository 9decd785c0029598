//! Entries in the order of their keys.

use crate::strmap::{pairs_of, Pairs, StrMap};
use crate::text::{
    chars_of, lemma_lex_asymmetric, lemma_lex_total, lemma_lex_transitive, less, lex_less,
};
use vstd::prelude::*;

verus! {

/// `sorted` with the entry `e` put before the trailing run of entries whose
/// keys come after the key of `e`.
pub open spec fn inserted(sorted: Pairs, e: (Seq<char>, Seq<char>)) -> Pairs
    decreases sorted.len(),
{
    if sorted.len() > 0 && lex_less(e.0, sorted.last().0) {
        inserted(sorted.drop_last(), e).push(sorted.last())
    } else {
        sorted.push(e)
    }
}

/// The entries in the order of their keys; entries with equal keys keep
/// their order.
pub open spec fn sorted_by_key(entries: Pairs) -> Pairs
    decreases entries.len(),
{
    if entries.len() == 0 {
        Seq::empty()
    } else {
        inserted(sorted_by_key(entries.drop_last()), entries.last())
    }
}

/// No entry's key comes before the key of an earlier entry.
pub open spec fn ordered(entries: Pairs) -> bool {
    forall|i: int, j: int| 0 <= i < j < entries.len() ==> !lex_less(entries[j].0, entries[i].0)
}

/// Where the trailing entries from `p` on have keys after that of `e`, and
/// the entry before them has not, `e` is put at `p`.
pub proof fn lemma_inserted_at(sorted: Pairs, e: (Seq<char>, Seq<char>), p: int)
    requires
        0 <= p <= sorted.len(),
        forall|j: int| p <= j < sorted.len() ==> lex_less(e.0, sorted[j].0),
        p > 0 ==> !lex_less(e.0, sorted[p - 1].0),
    ensures
        inserted(sorted, e) == sorted.insert(p, e),
    decreases sorted.len() - p,
{
    if p < sorted.len() {
        let front = sorted.drop_last();
        lemma_inserted_at(front, e, p);
        assert(front.insert(p, e).push(sorted.last()) =~= sorted.insert(p, e));
    } else {
        assert(sorted.push(e) =~= sorted.insert(p, e));
    }
}

/// Putting an entry into ordered entries leaves them ordered.
pub proof fn lemma_inserted_ordered(sorted: Pairs, e: (Seq<char>, Seq<char>))
    requires
        ordered(sorted),
    ensures
        ordered(inserted(sorted, e)),
        inserted(sorted, e).len() == sorted.len() + 1,
        inserted(sorted, e).to_multiset() == sorted.to_multiset().insert(e),
    decreases sorted.len(),
{
    broadcast use vstd::seq_lib::group_to_multiset_ensures;

    if sorted.len() > 0 && lex_less(e.0, sorted.last().0) {
        let front = sorted.drop_last();
        let last = sorted.last();
        assert(ordered(front));
        lemma_inserted_ordered(front, e);
        let mid = inserted(front, e);
        let out = mid.push(last);
        assert(sorted =~= front.push(last));
        assert forall|i: int, j: int| 0 <= i < j < out.len() implies !lex_less(
            out[j].0,
            out[i].0,
        ) by {
            if j < mid.len() {
            } else {
                // out[j] is the last entry; out[i] is one of `front` or `e`
                assert(mid.to_multiset().count(mid[i]) > 0);
                if mid[i] == e {
                    lemma_lex_asymmetric(e.0, last.0);
                } else {
                    assert(front.to_multiset().count(mid[i]) > 0);
                    assert(front.contains(mid[i]));
                    let q = choose|q: int| 0 <= q < front.len() && front[q] == mid[i];
                    assert(sorted[q] == mid[i]);
                    assert(!lex_less(sorted[sorted.len() - 1].0, sorted[q].0));
                }
            }
        }
    } else {
        let out = sorted.push(e);
        assert forall|i: int, j: int| 0 <= i < j < out.len() implies !lex_less(
            out[j].0,
            out[i].0,
        ) by {
            if j == sorted.len() {
                if sorted.len() > 0 && lex_less(e.0, sorted[i].0) {
                    // e is not before the last entry, and the last is not
                    // before sorted[i]
                    let last = sorted.last();
                    if i < sorted.len() - 1 {
                        assert(!lex_less(sorted[sorted.len() - 1].0, sorted[i].0));
                        lemma_lex_total(last.0, sorted[i].0);
                        lemma_lex_total(e.0, last.0);
                        if last.0 == sorted[i].0 {
                        } else if e.0 == last.0 {
                        } else {
                            lemma_lex_transitive(last.0, e.0, sorted[i].0);
                        }
                    }
                }
            }
        }
    }
}

/// The sorted entries are ordered, and they are the same entries, each as
/// often as before.
pub proof fn theorem_sorted_entries_are_ordered(entries: Pairs)
    ensures
        ordered(sorted_by_key(entries)),
        sorted_by_key(entries).len() == entries.len(),
        sorted_by_key(entries).to_multiset() == entries.to_multiset(),
    decreases entries.len(),
{
    broadcast use vstd::seq_lib::group_to_multiset_ensures;

    if entries.len() > 0 {
        theorem_sorted_entries_are_ordered(entries.drop_last());
        lemma_inserted_ordered(sorted_by_key(entries.drop_last()), entries.last());
        assert(entries =~= entries.drop_last().push(entries.last()));
    }
}

/// The entries of `map` in the order of their keys.
pub fn sorted_entries(map: &StrMap) -> (out: Vec<(String, String)>)
    ensures
        pairs_of(out@) == sorted_by_key(map@),
{
    let ghost entries = map@;
    let mut out: Vec<(String, String)> = Vec::new();
    let mut i: usize = 0;
    assert(entries.take(0) =~= Seq::empty());
    assert(pairs_of(out@) =~= Seq::empty());
    while i < map.len()
        invariant
            i <= map@.len(),
            entries == map@,
            pairs_of(out@) == sorted_by_key(entries.take(i as int)),
        decreases map@.len() - i,
    {
        assert(entries.take(i as int + 1).drop_last() =~= entries.take(i as int));
        assert(entries.take(i as int + 1).last() == entries[i as int]);
        let key = map.key_at(i).clone();
        let value = map.value_at(i).clone();
        let key_chars = chars_of(key.as_str());
        let mut p: usize = out.len();
        while p > 0 && less(&key_chars, &chars_of(out[p - 1].0.as_str()))
            invariant
                p <= out.len(),
                key_chars@ == key@,
                forall|j: int| p <= j < out.len() ==> lex_less(key@, pairs_of(out@)[j].0),
            decreases p,
        {
            p -= 1;
        }
        proof {
            lemma_inserted_at(pairs_of(out@), (key@, value@), p as int);
            assert(pairs_of(out@.insert(p as int, (key, value))) =~= pairs_of(out@).insert(
                p as int,
                (key@, value@),
            ));
        }
        out.insert(p, (key, value));
        i += 1;
    }
    assert(entries.take(map@.len() as int) =~= entries);
    out
}

} // verus!
