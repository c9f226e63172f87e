use vstd::prelude::*;
use vstd::seq_lib::group_filter_ensures;
use crate::entry::{Entry, EntryView, opt_view};

verus! {

/// `needle` occurs contiguously inside `hay` (the empty needle always does).
pub open spec fn contains_sub(hay: Seq<char>, needle: Seq<char>) -> bool {
    exists|i: int|
        0 <= i <= hay.len() - needle.len() && #[trigger] hay.subrange(i, i + needle.len())
            == needle
}

/// Relies on str::contains: true exactly when the pattern occurs as a
/// contiguous substring.  UTF-8 is self-synchronizing, so byte-level and
/// character-level occurrence agree.
#[verifier::external_body]
fn str_contains(hay: &str, needle: &str) -> (r: bool)
    ensures
        r == contains_sub(hay@, needle@),
{
    hay.contains(needle)
}

/// Whether one entry survives the tag filter and the label search.  An
/// entry without a tag always survives the tag filter.
pub open spec fn keep_entry(
    v: EntryView,
    filter: Option<Seq<char>>,
    search: Option<Seq<char>>,
) -> bool {
    &&& match (filter, v.tag) {
        (Option::Some(f), Option::Some(t)) => contains_sub(t, f),
        _ => true,
    }
    &&& match search {
        Option::Some(m) => contains_sub(v.label, m),
        Option::None => true,
    }
}

/// The filter predicate on entries, as a function value.
pub open spec fn keep_pred(filter: Option<Seq<char>>, search: Option<Seq<char>>) -> spec_fn(
    Entry,
) -> bool {
    |e: Entry| keep_entry(e@, filter, search)
}

/// Keep the entries whose tag contains `filter` and whose label contains
/// `search`, in their original order.
pub fn filter_entries(entries: Vec<Entry>, filter: &Option<String>, search: &Option<String>) -> (r:
    Vec<Entry>)
    ensures
        r@ == entries@.filter(keep_pred(opt_view(*filter), opt_view(*search))),
{
    broadcast use group_filter_ensures;

    let ghost pred = keep_pred(opt_view(*filter), opt_view(*search));
    let ghost orig = entries@;
    let mut rest = entries;
    let mut out: Vec<Entry> = Vec::new();
    let ghost mut done: int = 0;
    proof {
        assert(orig.take(0) =~= Seq::<Entry>::empty());
        reveal_with_fuel(Seq::<_>::filter, 2);
        assert(out@ =~= orig.take(0).filter(pred));
    }
    while rest.len() > 0
        invariant
            0 <= done <= orig.len(),
            pred == keep_pred(opt_view(*filter), opt_view(*search)),
            rest@ == orig.skip(done),
            out@ == orig.take(done).filter(pred),
        decreases rest@.len(),
    {
        let e = rest.remove(0);
        proof {
            assert(e == orig[done]);
            assert(rest@ =~= orig.skip(done + 1));
        }
        let t = e.tag();
        let keep_tag = match (filter, &t) {
            (Some(f), Some(tt)) => str_contains(tt.as_str(), f.as_str()),
            _ => true,
        };
        let keep_label = match search {
            Some(m) => {
                let l = e.label();
                str_contains(l.as_str(), m.as_str())
            },
            None => true,
        };
        proof {
            assert(pred(e) == keep_entry(e@, opt_view(*filter), opt_view(*search)));
            assert((keep_tag && keep_label) == pred(e));
            let pre = orig.take(done);
            let cur = orig.take(done + 1);
            assert(cur =~= pre + seq![e]);
            Seq::filter_distributes_over_add(pre, seq![e], pred);
            reveal_with_fuel(Seq::<_>::filter, 2);
            assert(seq![e].drop_last() =~= Seq::<Entry>::empty());
            if pred(e) {
                assert(seq![e].filter(pred) =~= seq![e]);
            } else {
                assert(seq![e].filter(pred) =~= Seq::<Entry>::empty());
            }
        }
        if keep_tag && keep_label {
            out.push(e);
        }
        proof {
            assert(out@ =~= orig.take(done + 1).filter(pred));
        }
        proof {
            done = done + 1;
        }
    }
    proof {
        assert(orig.take(orig.len() as int) =~= orig);
    }
    out
}

} // verus!
