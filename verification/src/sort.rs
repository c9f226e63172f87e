use vstd::prelude::*;
use vstd::relations::sorted_by;
use vstd::seq_lib::lemma_sorted_unique;
use vstd::seq_lib::group_to_multiset_ensures;
use crate::entry::{Entry, EntryView};
use crate::order::{entry_le, entry_order, lemma_entry_le_trans, lemma_entry_le_total,
    lemma_entry_order_total};

verus! {

/// The views of a sequence of entries, in the same order.
pub open spec fn views_of(s: Seq<Entry>) -> Seq<EntryView> {
    s.map_values(|e: Entry| e@)
}

proof fn lemma_views_remove(s: Seq<Entry>, i: int)
    requires
        0 <= i < s.len(),
    ensures
        views_of(s.remove(i)) =~= views_of(s).remove(i),
{
}

proof fn lemma_views_insert(s: Seq<Entry>, i: int, e: Entry)
    requires
        0 <= i <= s.len(),
    ensures
        views_of(s.insert(i, e)) =~= views_of(s).insert(i, e@),
{
}

/// Inserting a value between everything at or below it and everything at or
/// above it keeps a sequence sorted.
proof fn lemma_sorted_insert(s: Seq<EntryView>, x: EntryView, p: int)
    requires
        sorted_by(s, entry_order()),
        0 <= p <= s.len(),
        forall|j: int| 0 <= j < p ==> entry_le(#[trigger] s[j], x),
        p < s.len() ==> entry_le(x, s[p]),
    ensures
        sorted_by(s.insert(p, x), entry_order()),
{
    let t = s.insert(p, x);
    let leq = entry_order();
    assert forall|m: int, n: int| 0 <= m < n < t.len() implies #[trigger] leq(t[m], t[n]) by {
        if n < p {
            assert(t[m] == s[m] && t[n] == s[n]);
        } else if m < p && n == p {
            assert(t[m] == s[m] && t[n] == x);
        } else if m < p && n > p {
            assert(t[m] == s[m] && t[n] == s[n - 1]);
            if m == n - 1 {
                assert(false);
            } else {
                assert(leq(s[m], s[n - 1]));
            }
        } else if m == p {
            assert(t[m] == x && t[n] == s[n - 1]);
            assert(entry_le(x, s[p]));
            if p < n - 1 {
                assert(leq(s[p], s[n - 1]));
                lemma_entry_le_trans(x, s[p], s[n - 1]);
            }
        } else {
            assert(t[m] == s[m - 1] && t[n] == s[n - 1]);
        }
    }
}

/// Sort entries ascending in the heap order.  The result is a permutation of
/// the input, and its views are exactly the canonical sorted views.
pub fn sort_entries(entries: Vec<Entry>) -> (r: Vec<Entry>)
    ensures
        views_of(r@) == views_of(entries@).sort_by(entry_order()),
        r@.to_multiset() == entries@.to_multiset(),
{
    broadcast use group_to_multiset_ensures;

    let ghost orig = entries@;
    let mut v = entries;
    let mut i: usize = 0;
    while i < v.len()
        invariant
            i <= v@.len(),
            v@.len() == orig.len(),
            v@.to_multiset() == orig.to_multiset(),
            views_of(v@).to_multiset() == views_of(orig).to_multiset(),
            sorted_by(views_of(v@).take(i as int), entry_order()),
        decreases v@.len() - i,
    {
        let ghost before = v@;
        let x = v.remove(i);
        proof {
            broadcast use vstd::multiset::group_multiset_axioms;

            lemma_views_remove(before, i as int);
            assert(views_of(v@).take(i as int) =~= views_of(before).take(i as int));
            assert(before.contains(x));
            assert(views_of(before)[i as int] == x@);
            vstd::seq_lib::to_multiset_remove::<Entry>(before, i as int);
            vstd::seq_lib::to_multiset_remove::<EntryView>(views_of(before), i as int);
            assert(views_of(v@) == views_of(before).remove(i as int));
            assert(v@.to_multiset() == before.to_multiset().remove(x));
            assert(views_of(v@).to_multiset() == views_of(before).to_multiset().remove(x@));
        }
        let mut p: usize = 0;
        while p < i && v[p].heap_le(&x)
            invariant
                p <= i,
                i < before.len(),
                v@ == before.remove(i as int),
                x == before[i as int],
                forall|j: int| 0 <= j < p ==> entry_le(#[trigger] views_of(v@)[j], x@),
            decreases i - p,
        {
            p += 1;
        }
        proof {
            if p < i {
                lemma_entry_le_total(views_of(v@)[p as int], x@);
                assert(entry_le(x@, views_of(v@)[p as int]));
            }
            lemma_sorted_insert(
                views_of(v@).take(i as int),
                x@,
                p as int,
            );
        }
        let ghost mid = v@;
        v.insert(p, x);
        proof {
            broadcast use vstd::multiset::group_multiset_axioms;
            broadcast use vstd::seq_lib::to_multiset_contains;

            lemma_views_insert(mid, p as int, x);
            // the new sorted prefix is the old prefix with x slotted in
            assert(views_of(v@).take(i as int + 1) =~= views_of(mid).take(i as int).insert(
                p as int,
                x@,
            ));
            vstd::seq_lib::to_multiset_insert::<Entry>(mid, p as int, x);
            vstd::seq_lib::to_multiset_insert::<EntryView>(views_of(mid), p as int, x@);
            assert(views_of(v@) == views_of(mid).insert(p as int, x@));
            assert(v@.to_multiset() == mid.to_multiset().insert(x));
            assert(before.to_multiset().count(x) > 0);
            assert(v@.to_multiset() =~= before.to_multiset());
            assert(views_of(v@).to_multiset() == views_of(mid).to_multiset().insert(x@));
            assert(views_of(before).to_multiset().count(x@) > 0) by {
                assert(views_of(before).contains(x@));
            }
            assert(views_of(v@).to_multiset() =~= views_of(before).to_multiset());
        }
        i += 1;
    }
    proof {
        lemma_entry_order_total();
        assert(views_of(v@).take(v@.len() as int) =~= views_of(v@));
        views_of(orig).lemma_sort_by_ensures(entry_order());
        lemma_sorted_unique(
            views_of(v@),
            views_of(orig).sort_by(entry_order()),
            entry_order(),
        );
    }
    v
}

} // verus!
