use vstd::prelude::*;
use vstd::string::*;
use vec_map::VecMap;
use crate::bucket::{bounds, bucket_of, distribute, indices, interval, lemma_distribute_bucket,
    lemma_distribute_nonneg,
    lemma_min_start_attained, lemma_min_start_le, max_end, min_start, spec_interval};
use crate::entry::{Entry, EntryView, entry_text};
use crate::error::TimelineError;
use crate::order::{entry_order, lemma_entry_order_total};
use crate::sort::{sort_entries, views_of};
use crate::vmap::{vm_remove, vm_view};

verus! {

/// The extra indentation unit within a bucket block.
pub const INDENT: &'static str = " ";

/// The marker that opens a populated bucket block.
pub const PRELUDE: &'static str = "| ";

/// The marker line of an empty bucket.
pub const EMPTY_LINE: &'static str = "|\n";

/// One step of the escalating overlap staircase.
pub const SAME_LINE_INDENT: &'static str = "\\";

/// The marker that opens every overlap line after a bucket's first.
pub const SAME_LINE_PRELUDE: &'static str = " \\";

pub const NEWLINE: &'static str = "\n";

pub const INDENT_SIZE: usize = 1;

pub const PRELUDE_SIZE: usize = 2;

/// The indentation prefix of the line at position `p` within a bucket: the
/// first line gets a single space; each later line gets a space, a backslash,
/// then one more backslash per position, then a space.
pub open spec fn line_prefix(p: int) -> Seq<char> {
    if p == 0 {
        " "@
    } else {
        " \\"@ + Seq::new(p as nat, |i: int| '\\') + " "@
    }
}

/// One rendered line: the position prefix, the entry's text, and a newline.
pub open spec fn line_text(v: EntryView, p: int) -> Seq<char> {
    line_prefix(p) + entry_text(v) + "\n"@
}

/// The lines of a bucket's first `p` entries, in order.
pub open spec fn lines_upto(b: Seq<EntryView>, p: int) -> Seq<char>
    decreases p,
{
    if p <= 0 {
        Seq::empty()
    } else {
        lines_upto(b, p - 1) + line_text(b[p - 1], p - 1)
    }
}

/// One rendered block: a populated bucket renders `"| "` and its lines, an
/// empty bucket renders the marker `"|\n"`; a blank separating line follows
/// either way.
pub open spec fn block_text(b: Seq<EntryView>) -> Seq<char> {
    if b.len() == 0 {
        "|\n"@ + "\n"@
    } else {
        "| "@ + lines_upto(b, b.len() as int) + "\n"@
    }
}

/// The blocks of buckets `0..k`, concatenated in bucket order.
pub open spec fn blocks_upto(s: Seq<EntryView>, start: int, interval: int, k: int) -> Seq<char>
    decreases k,
{
    if k <= 0 {
        Seq::empty()
    } else {
        blocks_upto(s, start, interval, k - 1) + block_text(
            bucket_of(s, start, interval, k - 1),
        )
    }
}

/// How many blocks are rendered: one per bucket boundary from `start` up to
/// and including `end`, stepping by `interval`.
pub open spec fn spec_block_count(start: int, end: int, interval: int) -> int {
    (end - start) / interval + 1
}

/// The whole rendered text for a sequence of entry views sorted in the heap
/// order.
pub open spec fn render_text(s: Seq<EntryView>, start: int, end: int, interval: int) -> Seq<
    char,
> {
    blocks_upto(s, start, interval, spec_block_count(start, end, interval))
}

/// Build the indentation prefix for position `p`.
fn prefix_string(p: usize) -> (r: String)
    ensures
        r@ == line_prefix(p as int),
{
    if p == 0 {
        let r = String::from_str(" ");
        r
    } else {
        let mut r = String::from_str(" \\");
        proof {
            assert(r@ =~= " \\"@ + Seq::new(0nat, |t: int| '\\'));
        }
        let mut i: usize = 0;
        while i < p
            invariant
                i <= p,
                r@ == " \\"@ + Seq::new(i as nat, |t: int| '\\'),
            decreases p - i,
        {
            r.append("\\");
            proof {
                reveal_strlit("\\");
                assert("\\"@ =~= seq!['\\']);
                assert(r@ =~= " \\"@ + Seq::new((i + 1) as nat, |t: int| '\\'));
            }
            i += 1;
        }
        r.append(" ");
        proof {
            assert(r@ =~= line_prefix(p as int));
        }
        r
    }
}

/// Render the blocks: walk the bucket indices in order, emit each bucket's
/// lines or the empty marker, and follow every block with a blank line.
fn outputs(sorted: &Vec<Entry>, map: VecMap<Vec<usize>>, start: i32, end: i32, interval: usize) -> (r:
    String)
    requires
        1 <= interval,
        i32::MIN < start,
        start <= end,
        forall|j: int| 0 <= j < sorted@.len() ==> (#[trigger] sorted@[j])@.wf(),
        forall|j: int|
            0 <= j < sorted@.len() ==> start as int <= (#[trigger] sorted@[j])@.start_year(),
        vm_view(map) == distribute(
            views_of(sorted@),
            start as int,
            interval as int,
            sorted@.len() as int,
        ),
    ensures
        r@ == render_text(views_of(sorted@), start as int, end as int, interval as int),
{
    let ghost vs = views_of(sorted@);
    let n = sorted.len();
    let ghost full = distribute(vs, start as int, interval as int, n as int);
    let mut map = map;
    let sp: i64 = end as i64 - start as i64;
    proof {
        assert(0 <= sp <= u32::MAX - 1);
        vstd::arithmetic::div_mod::lemma_div_is_ordered_by_denominator(
            sp as int,
            1,
            interval as int,
        );
        vstd::arithmetic::div_mod::lemma_div_basics(sp as int);
    }
    let nb = sp as usize / interval + 1;
    let mut out = String::new();
    let mut k: usize = 0;
    proof {
        assert forall|j: int| 0 <= j < vs.len() implies start as int <= (
        #[trigger] vs[j]).start_year() by {
            assert(vs[j] == sorted@[j]@);
        }
        lemma_distribute_nonneg(vs, start as int, interval as int, n as int);
        assert(vm_view(map) =~= full.remove_keys(Set::new(|i: int| i < 0)));
    }
    while k < nb
        invariant
            k <= nb,
            1 <= interval,
            n == sorted@.len(),
            vs == views_of(sorted@),
            forall|j: int| 0 <= j < sorted@.len() ==> (#[trigger] sorted@[j])@.wf(),
            full == distribute(vs, start as int, interval as int, n as int),
            nb as int == spec_block_count(start as int, end as int, interval as int),
            vm_view(map) == full.remove_keys(Set::new(|i: int| i < k as int)),
            out@ == blocks_upto(vs, start as int, interval as int, k as int),
        decreases nb - k,
    {
        let ghost partial = vm_view(map);
        let ghost bucket = bucket_of(vs, start as int, interval as int, k as int);
        proof {
            lemma_distribute_bucket(vs, start as int, interval as int, n as int, k as int);
            assert(vs.take(n as int) == vs) by {
                assert(vs.take(n as int) =~= vs);
            }
            assert(partial.dom().contains(k as int) == full.dom().contains(k as int));
            if full.dom().contains(k as int) {
                assert(partial[k as int] == full[k as int]);
            }
        }
        match vm_remove(&mut map, k) {
            Some(idxs) => {
                proof {
                    assert(vm_view(map) =~= full.remove_keys(
                        Set::new(|i: int| i < k as int + 1),
                    ));
                    assert(idxs@ == full[k as int]);
                    assert(bucket.len() == idxs@.len());
                    assert forall|t: int| 0 <= t < idxs@.len() implies (
                    #[trigger] idxs@[t] as int) < n && bucket[t] == vs[idxs@[t] as int] by {
                        assert(bucket[t] == full[k as int].map_values(|j: usize| vs[j as int])[t]);
                    }
                }
                out.append("| ");
                proof {
                    assert(out@ =~= blocks_upto(vs, start as int, interval as int, k as int)
                        + "| "@ + lines_upto(bucket, 0));
                }
                let m = idxs.len();
                let mut p: usize = 0;
                while p < m
                    invariant
                        p <= m,
                        m == idxs@.len(),
                        n == sorted@.len(),
                        vs == views_of(sorted@),
                        forall|j: int|
                            0 <= j < sorted@.len() ==> (#[trigger] sorted@[j])@.wf(),
                        bucket.len() == idxs@.len(),
                        forall|t: int|
                            0 <= t < idxs@.len() ==> (#[trigger] idxs@[t] as int) < n
                                && bucket[t] == vs[idxs@[t] as int],
                        out@ == blocks_upto(vs, start as int, interval as int, k as int)
                            + "| "@ + lines_upto(bucket, p as int),
                    decreases m - p,
                {
                    let j = idxs[p];
                    let pre = prefix_string(p);
                    out.append(pre.as_str());
                    let txt = sorted[j].display_string();
                    out.append(txt.as_str());
                    out.append("\n");
                    proof {
                        assert(bucket[p as int] == vs[idxs@[p as int] as int]);
                        assert(out@ =~= blocks_upto(vs, start as int, interval as int, k as int)
                            + "| "@ + lines_upto(bucket, p as int + 1));
                    }
                    p += 1;
                }
                out.append("\n");
                proof {
                    assert(bucket.len() > 0);
                    assert(out@ =~= blocks_upto(vs, start as int, interval as int, k as int + 1));
                }
            },
            None => {
                proof {
                    assert(vm_view(map) =~= full.remove_keys(
                        Set::new(|i: int| i < k as int + 1),
                    ));
                    assert(bucket.len() == 0);
                }
                out.append("|\n");
                out.append("\n");
                proof {
                    assert(out@ =~= blocks_upto(vs, start as int, interval as int, k as int + 1));
                }
            },
        }
        k += 1;
    }
    out
}

/// True when the entries' span is too narrow for their count, so the bucket
/// width would collapse to zero.
pub open spec fn zero_interval_cond(s: Seq<EntryView>) -> bool {
    max_end(s) - min_start(s) < s.len() * 3 / 2
}

/// The full text rendering pipeline: find the span of the entries, sort them
/// in the heap order, bucket them by start year, and emit the banded text.
///
/// Fails with `EmptyInput` on zero entries, and with `ZeroInterval` exactly
/// when the span is too narrow for the entry count; otherwise the result is
/// the rendered text and the computed bucket width is strictly positive.
pub fn text_handler(entries: Vec<Entry>) -> (r: Result<String, TimelineError>)
    requires
        forall|i: int| 0 <= i < entries@.len() ==> (#[trigger] entries@[i])@.wf(),
        entries@.len() * 3 <= usize::MAX,
    ensures
        entries@.len() == 0 <==> r == Err::<String, TimelineError>(TimelineError::EmptyInput),
        entries@.len() > 0 ==> ((r == Err::<String, TimelineError>(TimelineError::ZeroInterval))
            <==> zero_interval_cond(views_of(entries@))),
        entries@.len() > 0 && !zero_interval_cond(views_of(entries@)) ==> {
            let vs = views_of(entries@);
            let start = min_start(vs);
            let end = max_end(vs);
            let width = spec_interval(start, end, vs.len() as int);
            &&& width >= 1
            &&& r matches Ok(out) && out@ == render_text(
                vs.sort_by(entry_order()),
                start,
                end,
                width,
            )
        },
{
    let n = entries.len();
    if n == 0 {
        return Err(TimelineError::EmptyInput);
    }
    let ghost vs = views_of(entries@);
    let (start, end) = bounds(&entries);
    let q = n * 3 / 2;
    let sp: i64 = end as i64 - start as i64;
    proof {
        assert(q <= usize::MAX / 2);
        assert(q as i64 as int == q as int);
    }
    if sp < q as i64 {
        return Err(TimelineError::ZeroInterval);
    }
    let width = interval(start, end, n);
    proof {
        vstd::arithmetic::div_mod::lemma_div_is_ordered(q as int, sp as int, q as int);
        vstd::arithmetic::div_mod::lemma_div_by_self(q as int);
        assert(width >= 1);
    }
    let sorted = sort_entries(entries);
    proof {
        lemma_entry_order_total();
        vs.lemma_sort_by_ensures(entry_order());
        assert(views_of(sorted@) == vs.sort_by(entry_order()));
        assert forall|j: int| 0 <= j < sorted@.len() implies start as int <= (
        #[trigger] sorted@[j])@.start_year() && sorted@[j]@.wf() by {
            let svs = views_of(sorted@);
            let v = svs[j];
            assert(sorted@[j]@ == v);
            assert(svs.contains(v));
            vstd::seq_lib::to_multiset_contains(svs, v);
            vstd::seq_lib::to_multiset_contains(vs, v);
            assert(vs.contains(v));
            let i = choose|i: int| 0 <= i < vs.len() && vs[i] == v;
            assert(entries@[i]@ == v);
            lemma_min_start_le(vs, v);
        }
        lemma_min_start_attained(vs);
        assert(i32::MIN < start);
    }
    let m = indices(&sorted, start, width);
    let out = outputs(&sorted, m, start, end, width);
    Ok(out)
}

} // verus!
