use vstd::prelude::*;
use vstd::multiset::Multiset;
use crate::bucket::{bucket_of, key_of, spec_index, spec_interval};
use crate::entry::EntryView;
use crate::render::{block_text, blocks_upto, render_text, spec_block_count};

verus! {

/// Bucketing a non-empty entry set whose span reaches one-and-a-half times
/// its count yields a strictly positive bucket width.  (With a narrower
/// span, the width would collapse to zero, and bucketing reports
/// `ZeroInterval` instead of producing one.)
pub proof fn lemma_interval_positive(start: int, end: int, n: int)
    requires
        n >= 1,
        end > start,
        end - start >= n * 3 / 2,
    ensures
        spec_interval(start, end, n) >= 1,
{
    let q = n * 3 / 2;
    vstd::arithmetic::div_mod::lemma_div_is_ordered(q, end - start, q);
    vstd::arithmetic::div_mod::lemma_div_by_self(q);
}

/// The bucket index is monotone non-decreasing in the start year: an entry
/// that starts no later never lands in a later bucket.
pub proof fn lemma_index_monotonic(start: int, y1: int, y2: int, interval: int)
    requires
        interval >= 1,
        y1 <= y2,
    ensures
        spec_index(start, y1, interval) <= spec_index(start, y2, interval),
{
    vstd::arithmetic::div_mod::lemma_div_is_ordered(y1 - start, y2 - start, interval);
}

/// How often a value survives a filter: with its full multiplicity when it
/// satisfies the predicate, not at all otherwise.
proof fn lemma_filter_multiset_count(s: Seq<EntryView>, pred: spec_fn(EntryView) -> bool, v: EntryView)
    ensures
        pred(v) ==> s.filter(pred).to_multiset().count(v) == s.to_multiset().count(v),
        !pred(v) ==> s.filter(pred).to_multiset().count(v) == 0,
    decreases s.len(),
{
    broadcast use vstd::multiset::group_multiset_axioms;
    broadcast use vstd::seq_lib::group_to_multiset_ensures;

    reveal_with_fuel(Seq::<_>::filter, 2);
    if s.len() == 0 {
        assert(s.to_multiset() =~= Multiset::<EntryView>::empty());
        assert(s.filter(pred).to_multiset() =~= Multiset::<EntryView>::empty());
    } else {
        let dl = s.drop_last();
        let x = s.last();
        lemma_filter_multiset_count(dl, pred, v);
        assert(s == dl.push(x));
        assert(s.to_multiset() == dl.to_multiset().insert(x));
        if pred(x) {
            assert(s.filter(pred) == dl.filter(pred).push(x));
            assert(s.filter(pred).to_multiset() == dl.filter(pred).to_multiset().insert(x));
        } else {
            assert(s.filter(pred) == dl.filter(pred));
        }
    }
}

/// Every entry lands in exactly one bucket: the bucket keyed by the entry's
/// own bucket index holds it with its full multiplicity, and every other
/// bucket holds no copy of it.  So, taken together, the buckets hold exactly
/// the input entries.
pub proof fn lemma_buckets_partition(
    s: Seq<EntryView>,
    start: int,
    interval: int,
    v: EntryView,
    k: int,
)
    ensures
        k == key_of(v, start, interval) ==> bucket_of(
            s,
            start,
            interval,
            k,
        ).to_multiset().count(v) == s.to_multiset().count(v),
        k != key_of(v, start, interval) ==> bucket_of(
            s,
            start,
            interval,
            k,
        ).to_multiset().count(v) == 0,
{
    let pred = |u: EntryView| key_of(u, start, interval) == k;
    lemma_filter_multiset_count(s, pred, v);
}

/// The rendered text is the concatenation of exactly
/// `(end - start) / interval + 1` blocks, one per bucket boundary from
/// `start` to `end` inclusive.
pub proof fn lemma_block_count(s: Seq<EntryView>, start: int, end: int, interval: int)
    requires
        interval >= 1,
        start <= end,
    ensures
        ({
            let blocks = Seq::new(
                spec_block_count(start, end, interval) as nat,
                |k: int| block_text(bucket_of(s, start, interval, k)),
            );
            &&& blocks.len() == (end - start) / interval + 1
            &&& render_text(s, start, end, interval) == blocks.flatten_alt()
        }),
{
    vstd::arithmetic::div_mod::lemma_div_pos_is_pos(end - start, interval);
    lemma_blocks_upto_flatten(s, start, interval, spec_block_count(start, end, interval));
}

/// The prefix concatenation of blocks equals the flattening of the block
/// list.
proof fn lemma_blocks_upto_flatten(s: Seq<EntryView>, start: int, interval: int, k: int)
    requires
        k >= 0,
    ensures
        blocks_upto(s, start, interval, k) == Seq::new(
            k as nat,
            |i: int| block_text(bucket_of(s, start, interval, i)),
        ).flatten_alt(),
    decreases k,
{
    let blocks = Seq::new(k as nat, |i: int| block_text(bucket_of(s, start, interval, i)));
    if k == 0 {
        assert(blocks.len() == 0);
        assert(blocks.flatten_alt() =~= Seq::<char>::empty());
    } else {
        lemma_blocks_upto_flatten(s, start, interval, k - 1);
        let prev = Seq::new(
            (k - 1) as nat,
            |i: int| block_text(bucket_of(s, start, interval, i)),
        );
        assert(blocks.drop_last() =~= prev);
        assert(blocks.last() == block_text(bucket_of(s, start, interval, k - 1)));
    }
}

} // verus!
