use vstd::prelude::*;
use vstd::seq_lib::group_filter_ensures;
use vec_map::VecMap;
use crate::entry::{Entry, EntryView};
use crate::sort::views_of;
use crate::vmap::{vm_insert, vm_new, vm_remove, vm_view};

verus! {

/// The bucket width: the total span divided by one-and-a-half times the
/// entry count, with integer division throughout.
pub open spec fn spec_interval(start: int, end: int, n: int) -> int {
    (end - start) / (n * 3 / 2)
}

/// The bucket index of year `y`, for buckets of width `interval` anchored at
/// `start`.
pub open spec fn spec_index(start: int, y: int, interval: int) -> int {
    (y - start) / interval
}

/// The bucket key of one entry: the bucket index of its start year.
pub open spec fn key_of(v: EntryView, start: int, interval: int) -> int {
    spec_index(start, v.start_year(), interval)
}

/// Compute the bucket width for `len` entries spanning `start..=end`.
pub fn interval(start: i32, end: i32, len: usize) -> (r: usize)
    requires
        start <= end,
        1 <= len,
        len * 3 <= usize::MAX,
    ensures
        r as int == spec_interval(start as int, end as int, len as int),
{
    let sp: i64 = end as i64 - start as i64;
    proof {
        assert(0 <= sp <= u32::MAX);
    }
    let span = sp as usize;
    let q = len * 3 / 2;
    span / q
}

/// The bucket index of the year `end` among buckets of width `interval`
/// anchored at `start`.
pub fn index(start: i32, end: i32, interval: usize) -> (r: usize)
    requires
        start <= end,
        1 <= interval,
    ensures
        r as int == spec_index(start as int, end as int, interval as int),
{
    let sp: i64 = end as i64 - start as i64;
    proof {
        assert(0 <= sp <= u32::MAX);
    }
    let span = sp as usize;
    span / interval
}

/// The least start year among the entries.
pub open spec fn min_start(s: Seq<EntryView>) -> int
    recommends
        s.len() > 0,
    decreases s.len(),
{
    if s.len() <= 1 {
        s[0].start_year()
    } else {
        let rest = min_start(s.drop_last());
        if s.last().start_year() < rest {
            s.last().start_year()
        } else {
            rest
        }
    }
}

/// The greatest end year among the entries.
pub open spec fn max_end(s: Seq<EntryView>) -> int
    recommends
        s.len() > 0,
    decreases s.len(),
{
    if s.len() <= 1 {
        s[0].end_year()
    } else {
        let rest = max_end(s.drop_last());
        if s.last().end_year() > rest {
            s.last().end_year()
        } else {
            rest
        }
    }
}

pub proof fn lemma_min_start_le(s: Seq<EntryView>, v: EntryView)
    requires
        s.len() > 0,
        s.contains(v),
    ensures
        min_start(s) <= v.start_year(),
    decreases s.len(),
{
    let i = choose|i: int| 0 <= i < s.len() && s[i] == v;
    if s.len() == 1 {
        assert(s[0] == v);
    } else if i == s.len() - 1 {
        assert(s.last() == v);
    } else {
        assert(s.drop_last().contains(v)) by {
            assert(s.drop_last()[i] == v);
        }
        lemma_min_start_le(s.drop_last(), v);
    }
}

/// The minimum start year is the start year of one of the entries.
pub proof fn lemma_min_start_attained(s: Seq<EntryView>)
    requires
        s.len() > 0,
    ensures
        exists|i: int| 0 <= i < s.len() && #[trigger] s[i].start_year() == min_start(s),
    decreases s.len(),
{
    if s.len() == 1 {
        assert(s[0].start_year() == min_start(s));
    } else {
        lemma_min_start_attained(s.drop_last());
        if s.last().start_year() < min_start(s.drop_last()) {
            assert(s[s.len() - 1].start_year() == min_start(s));
        } else {
            let i = choose|i: int|
                0 <= i < s.drop_last().len() && #[trigger] s.drop_last()[i].start_year()
                    == min_start(s.drop_last());
            assert(s[i].start_year() == min_start(s));
        }
    }
}

/// The least start year and the greatest end year over a non-empty vector of
/// entries.
pub fn bounds(entries: &Vec<Entry>) -> (r: (i32, i32))
    requires
        entries@.len() > 0,
    ensures
        r.0 as int == min_start(views_of(entries@)),
        r.1 as int == max_end(views_of(entries@)),
{
    let ghost vs = views_of(entries@);
    let mut lo = entries[0].start();
    let mut hi = entries[0].end();
    proof {
        assert(vs.take(1).len() == 1);
        assert(vs.take(1)[0] == vs[0]);
    }
    let mut i: usize = 1;
    while i < entries.len()
        invariant
            1 <= i <= entries@.len(),
            vs == views_of(entries@),
            lo as int == min_start(vs.take(i as int)),
            hi as int == max_end(vs.take(i as int)),
        decreases entries@.len() - i,
    {
        let s = entries[i].start();
        let e = entries[i].end();
        proof {
            assert(vs.take(i as int + 1).drop_last() =~= vs.take(i as int));
            assert(vs.take(i as int + 1).last() == vs[i as int]);
        }
        if s < lo {
            lo = s;
        }
        if e > hi {
            hi = e;
        }
        i += 1;
    }
    proof {
        assert(vs.take(vs.len() as int) =~= vs);
    }
    (lo, hi)
}

/// The positions map built by walking the entries in order: each position is
/// appended to the sequence at its entry's bucket key.
pub open spec fn distribute(s: Seq<EntryView>, start: int, interval: int, n: int) -> Map<
    int,
    Seq<usize>,
>
    decreases n,
{
    if n <= 0 {
        Map::empty()
    } else {
        let m = distribute(s, start, interval, n - 1);
        let k = key_of(s[n - 1], start, interval);
        if m.dom().contains(k) {
            m.insert(k, m[k].push((n - 1) as usize))
        } else {
            m.insert(k, seq![(n - 1) as usize])
        }
    }
}

/// One bucket of a sequence of views: the subsequence whose bucket key is
/// `k`, in order.
pub open spec fn bucket_of(s: Seq<EntryView>, start: int, interval: int, k: int) -> Seq<
    EntryView,
> {
    s.filter(|v: EntryView| key_of(v, start, interval) == k)
}

/// The positions recorded for bucket `k` name exactly the entries of that
/// bucket, in order: mapping each position through the sequence of views
/// yields the bucket's subsequence.
pub proof fn lemma_distribute_bucket(s: Seq<EntryView>, start: int, interval: int, n: int, k: int)
    requires
        0 <= n <= s.len(),
        n <= usize::MAX,
    ensures
        distribute(s, start, interval, n).dom().contains(k) <==> bucket_of(
            s.take(n),
            start,
            interval,
            k,
        ).len() > 0,
        distribute(s, start, interval, n).dom().contains(k) ==> forall|t: int|
            0 <= t < distribute(s, start, interval, n)[k].len() ==> (#[trigger] distribute(
                s,
                start,
                interval,
                n,
            )[k][t] as int) < n,
        distribute(s, start, interval, n).dom().contains(k) ==> distribute(
            s,
            start,
            interval,
            n,
        )[k].map_values(|j: usize| s[j as int]) == bucket_of(s.take(n), start, interval, k),
    decreases n,
{
    broadcast use group_filter_ensures;

    let pred = |v: EntryView| key_of(v, start, interval) == k;
    if n == 0 {
        assert(s.take(0) =~= Seq::<EntryView>::empty());
        reveal_with_fuel(Seq::<_>::filter, 2);
        assert(bucket_of(s.take(0), start, interval, k).len() == 0);
    } else {
        lemma_distribute_bucket(s, start, interval, n - 1, k);
        let x = s[n - 1];
        let pre = s.take(n - 1);
        let cur = s.take(n);
        assert(cur =~= pre + seq![x]);
        Seq::filter_distributes_over_add(pre, seq![x], pred);
        reveal_with_fuel(Seq::<_>::filter, 2);
        assert(seq![x].drop_last() =~= Seq::<EntryView>::empty());
        if pred(x) {
            assert(seq![x].filter(pred) =~= seq![x]);
        } else {
            assert(seq![x].filter(pred) =~= Seq::<EntryView>::empty());
        }
        let m0 = distribute(s, start, interval, n - 1);
        let m1 = distribute(s, start, interval, n);
        let kx = key_of(x, start, interval);
        assert(((n - 1) as usize) as int == n - 1);
        if k == kx {
            if m0.dom().contains(k) {
                assert(m1[k] == m0[k].push((n - 1) as usize));
                assert(m1[k].map_values(|j: usize| s[j as int]) =~= m0[k].map_values(
                    |j: usize| s[j as int],
                ).push(x));
                assert(cur.filter(pred) =~= pre.filter(pred).push(x));
            } else {
                assert(pre.filter(pred).len() == 0);
                assert(m1[k] == seq![(n - 1) as usize]);
                assert(m1[k].map_values(|j: usize| s[j as int]) =~= seq![x]);
                assert(cur.filter(pred) =~= seq![x]);
            }
        } else {
            assert(m1.dom().contains(k) == m0.dom().contains(k));
            if m0.dom().contains(k) {
                assert(m1[k] == m0[k]);
            }
            assert(cur.filter(pred) =~= pre.filter(pred));
        }
    }
}

/// Every bucket key reached by the distribution is non-negative, because no
/// entry starts before `start`.
pub proof fn lemma_distribute_nonneg(s: Seq<EntryView>, start: int, interval: int, n: int)
    requires
        1 <= interval,
        0 <= n <= s.len(),
        forall|j: int| 0 <= j < n ==> start <= (#[trigger] s[j]).start_year(),
    ensures
        forall|k: int|
            #[trigger] distribute(s, start, interval, n).dom().contains(k) ==> 0 <= k,
    decreases n,
{
    if n > 0 {
        lemma_distribute_nonneg(s, start, interval, n - 1);
        vstd::arithmetic::div_mod::lemma_div_pos_is_pos(
            s[n - 1].start_year() - start,
            interval,
        );
        let m0 = distribute(s, start, interval, n - 1);
        let kx = key_of(s[n - 1], start, interval);
        assert(kx >= 0);
        assert forall|k: int|
            #[trigger] distribute(s, start, interval, n).dom().contains(k) implies 0 <= k by {
            if k != kx {
                assert(m0.dom().contains(k));
            }
        }
    }
}

/// Distribute the sorted entries into buckets: position `j` is appended to
/// the bucket keyed by the bucket index of entry `j`'s start year.
pub fn indices(sorted: &Vec<Entry>, start: i32, interval: usize) -> (m: VecMap<Vec<usize>>)
    requires
        1 <= interval,
        i32::MIN < start,
        forall|j: int|
            0 <= j < sorted@.len() ==> start as int <= (#[trigger] sorted@[j])@.start_year(),
    ensures
        vm_view(m) == distribute(
            views_of(sorted@),
            start as int,
            interval as int,
            sorted@.len() as int,
        ),
{
    let ghost vs = views_of(sorted@);
    let mut m = vm_new();
    proof {
        assert(vm_view(m) =~= distribute(vs, start as int, interval as int, 0));
    }
    let mut j: usize = 0;
    while j < sorted.len()
        invariant
            j <= sorted@.len(),
            vs == views_of(sorted@),
            1 <= interval,
            i32::MIN < start,
            forall|t: int|
                0 <= t < sorted@.len() ==> start as int <= (#[trigger] sorted@[t])@.start_year(),
            vm_view(m) == distribute(vs, start as int, interval as int, j as int),
        decreases sorted@.len() - j,
    {
        let y = sorted[j].start();
        let k = index(start, y, interval);
        let ghost m0 = vm_view(m);
        proof {
            assert(vs[j as int] == sorted@[j as int]@);
            assert(k as int == key_of(vs[j as int], start as int, interval as int));
            vstd::arithmetic::div_mod::lemma_div_is_ordered_by_denominator(
                y as int - start as int,
                1,
                interval as int,
            );
            vstd::arithmetic::div_mod::lemma_div_basics(y as int - start as int);
            assert(k < usize::MAX);
        }
        match vm_remove(&mut m, k) {
            Some(mut v) => {
                let ghost v0 = v@;
                v.push(j);
                vm_insert(&mut m, k, v);
                proof {
                    assert(vm_view(m) =~= m0.insert(k as int, m0[k as int].push(j)));
                }
            },
            None => {
                let mut v: Vec<usize> = Vec::new();
                v.push(j);
                vm_insert(&mut m, k, v);
                proof {
                    assert(v@ =~= seq![j]);
                    assert(vm_view(m) =~= m0.insert(k as int, seq![j]));
                }
            },
        }
        proof {
            assert(vm_view(m) =~= distribute(vs, start as int, interval as int, j as int + 1));
        }
        j += 1;
    }
    m
}

} // verus!
