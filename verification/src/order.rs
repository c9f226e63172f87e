use vstd::prelude::*;
use vstd::relations::total_ordering;
use vstd::string::*;
use crate::entry::{DateSpan, EntryView};

verus! {

/// Lexicographic order on character sequences, by code point.  A prefix comes
/// before every extension of it.
pub open spec fn lex_le(a: Seq<char>, b: Seq<char>) -> bool
    decreases a.len(),
{
    if a.len() == 0 {
        true
    } else if b.len() == 0 {
        false
    } else if a[0] == b[0] {
        lex_le(a.drop_first(), b.drop_first())
    } else {
        (a[0] as int) < (b[0] as int)
    }
}

/// An absent tag comes before any present tag; two present tags compare
/// lexicographically.
pub open spec fn tag_le(a: Option<Seq<char>>, b: Option<Seq<char>>) -> bool {
    match (a, b) {
        (Option::None, _) => true,
        (Option::Some(_), Option::None) => false,
        (Option::Some(x), Option::Some(y)) => lex_le(x, y),
    }
}

/// A point date comes before any range date; two points compare by year; two
/// ranges compare by start year, then end year.
pub open spec fn span_le(a: DateSpan, b: DateSpan) -> bool {
    match (a, b) {
        (DateSpan::Point { year: x }, DateSpan::Point { year: y }) => x <= y,
        (DateSpan::Point { .. }, DateSpan::Range { .. }) => true,
        (DateSpan::Range { .. }, DateSpan::Point { .. }) => false,
        (
            DateSpan::Range { start: s1, end: e1 },
            DateSpan::Range { start: s2, end: e2 },
        ) => s1 < s2 || (s1 == s2 && e1 <= e2),
    }
}

/// The total "heap order" on entries: lexicographic by label, then tag, then
/// date.  This governs the order in which entries inside one bucket are
/// listed.  It deliberately differs from the chronological comparison, which
/// looks at the start year alone.
pub open spec fn entry_le(a: EntryView, b: EntryView) -> bool {
    if a.label != b.label {
        lex_le(a.label, b.label)
    } else if a.tag != b.tag {
        tag_le(a.tag, b.tag)
    } else {
        span_le(a.date, b.date)
    }
}

/// The heap order as a function value, for use with sequence sorting.
pub open spec fn entry_order() -> spec_fn(EntryView, EntryView) -> bool {
    |a: EntryView, b: EntryView| entry_le(a, b)
}

pub proof fn lemma_lex_le_total(a: Seq<char>, b: Seq<char>)
    ensures
        lex_le(a, b) || lex_le(b, a),
    decreases a.len(),
{
    if a.len() == 0 || b.len() == 0 {
    } else if a[0] == b[0] {
        lemma_lex_le_total(a.drop_first(), b.drop_first());
    } else {
        assert((a[0] as int) < (b[0] as int) || (b[0] as int) < (a[0] as int));
    }
}

pub proof fn lemma_lex_le_antisym(a: Seq<char>, b: Seq<char>)
    requires
        lex_le(a, b),
        lex_le(b, a),
    ensures
        a == b,
    decreases a.len(),
{
    if a.len() == 0 {
        assert(b.len() == 0);
        assert(a =~= b);
    } else {
        assert(b.len() != 0);
        assert(a[0] == b[0]);
        lemma_lex_le_antisym(a.drop_first(), b.drop_first());
        assert(a.len() == b.len());
        assert forall|i: int| 0 <= i < a.len() implies a[i] == b[i] by {
            if i > 0 {
                assert(a.drop_first()[i - 1] == b.drop_first()[i - 1]);
            }
        }
        assert(a =~= b);
    }
}

pub proof fn lemma_lex_le_trans(a: Seq<char>, b: Seq<char>, c: Seq<char>)
    requires
        lex_le(a, b),
        lex_le(b, c),
    ensures
        lex_le(a, c),
    decreases a.len(),
{
    if a.len() == 0 || b.len() == 0 || c.len() == 0 {
    } else if a[0] == b[0] && b[0] == c[0] {
        lemma_lex_le_trans(a.drop_first(), b.drop_first(), c.drop_first());
    }
}

/// Restricted to well-formed pairs, `lex_le(a, b)` holds exactly when
/// `lex_le(b, a)` fails or the sequences are equal.
proof fn lemma_tag_le_total(a: Option<Seq<char>>, b: Option<Seq<char>>)
    ensures
        tag_le(a, b) || tag_le(b, a),
{
    match (a, b) {
        (Option::Some(x), Option::Some(y)) => lemma_lex_le_total(x, y),
        _ => {},
    }
}

proof fn lemma_tag_le_antisym(a: Option<Seq<char>>, b: Option<Seq<char>>)
    requires
        tag_le(a, b),
        tag_le(b, a),
    ensures
        a == b,
{
    match (a, b) {
        (Option::Some(x), Option::Some(y)) => lemma_lex_le_antisym(x, y),
        _ => {},
    }
}

proof fn lemma_tag_le_trans(a: Option<Seq<char>>, b: Option<Seq<char>>, c: Option<Seq<char>>)
    requires
        tag_le(a, b),
        tag_le(b, c),
    ensures
        tag_le(a, c),
{
    match (a, b, c) {
        (Option::Some(x), Option::Some(y), Option::Some(z)) => lemma_lex_le_trans(x, y, z),
        _ => {},
    }
}

pub proof fn lemma_entry_le_refl(a: EntryView)
    ensures
        entry_le(a, a),
{
}

pub proof fn lemma_entry_le_total(a: EntryView, b: EntryView)
    ensures
        entry_le(a, b) || entry_le(b, a),
{
    if a.label != b.label {
        lemma_lex_le_total(a.label, b.label);
    } else if a.tag != b.tag {
        lemma_tag_le_total(a.tag, b.tag);
    }
}

pub proof fn lemma_entry_le_antisym(a: EntryView, b: EntryView)
    requires
        entry_le(a, b),
        entry_le(b, a),
    ensures
        a == b,
{
    if a.label != b.label {
        lemma_lex_le_antisym(a.label, b.label);
        assert(false);
    } else if a.tag != b.tag {
        lemma_tag_le_antisym(a.tag, b.tag);
        assert(false);
    } else {
        assert(a.date == b.date);
        assert(a =~= b);
    }
}

pub proof fn lemma_entry_le_trans(a: EntryView, b: EntryView, c: EntryView)
    requires
        entry_le(a, b),
        entry_le(b, c),
    ensures
        entry_le(a, c),
{
    if a.label == b.label && b.label == c.label {
        if a.tag == b.tag && b.tag == c.tag {
        } else if a.tag == b.tag {
            // b and c decide at the tag level; a.tag == b.tag carries over
        } else if b.tag == c.tag {
        } else {
            lemma_tag_le_trans(a.tag, b.tag, c.tag);
            if a.tag == c.tag {
                lemma_tag_le_antisym(b.tag, c.tag);
            }
        }
    } else if a.label == b.label {
        // b and c decide at the label level
        if a.label == c.label {
            lemma_lex_le_antisym(b.label, c.label);
        }
    } else if b.label == c.label {
        if a.label == c.label {
            lemma_lex_le_antisym(a.label, b.label);
        }
    } else {
        lemma_lex_le_trans(a.label, b.label, c.label);
        if a.label == c.label {
            lemma_lex_le_antisym(b.label, c.label);
        }
    }
}

/// The heap order is a total ordering in the sense of `vstd::relations`.
pub proof fn lemma_entry_order_total()
    ensures
        total_ordering(entry_order()),
{
    let leq = entry_order();
    assert forall|x: EntryView| #[trigger] leq(x, x) by {
        lemma_entry_le_refl(x);
    }
    assert forall|x: EntryView, y: EntryView| #[trigger] leq(x, y) && #[trigger] leq(y, x)
        implies x == y by {
        lemma_entry_le_antisym(x, y);
    }
    assert forall|x: EntryView, y: EntryView, z: EntryView|
        #[trigger] leq(x, y) && #[trigger] leq(y, z) implies leq(x, z) by {
        lemma_entry_le_trans(x, y, z);
    }
    assert forall|x: EntryView, y: EntryView| #[trigger] leq(x, y) || #[trigger] leq(y, x) by {
        lemma_entry_le_total(x, y);
    }
}

proof fn lemma_lex_le_skip(a: Seq<char>, b: Seq<char>, i: int)
    requires
        0 <= i <= a.len(),
        i <= b.len(),
        forall|j: int| 0 <= j < i ==> a[j] == b[j],
    ensures
        lex_le(a, b) == lex_le(a.skip(i), b.skip(i)),
    decreases i,
{
    if i == 0 {
        assert(a.skip(0) =~= a);
        assert(b.skip(0) =~= b);
    } else {
        assert(a[0] == b[0]);
        lemma_lex_le_skip(a.drop_first(), b.drop_first(), i - 1);
        assert(a.drop_first().skip(i - 1) =~= a.skip(i));
        assert(b.drop_first().skip(i - 1) =~= b.skip(i));
    }
}

/// Lexicographic comparison of two strings, character by character.
pub fn str_le(a: &str, b: &str) -> (r: bool)
    ensures
        r == lex_le(a@, b@),
{
    let alen = a.unicode_len();
    let blen = b.unicode_len();
    let mut i: usize = 0;
    loop
        invariant
            i <= alen,
            i <= blen,
            alen == a@.len(),
            blen == b@.len(),
            forall|j: int| 0 <= j < i ==> a@[j] == b@[j],
        decreases alen - i,
    {
        if i == alen {
            proof {
                lemma_lex_le_skip(a@, b@, i as int);
            }
            return true;
        }
        if i == blen {
            proof {
                lemma_lex_le_skip(a@, b@, i as int);
                assert(a@.skip(i as int).len() > 0);
            }
            return false;
        }
        let ca = a.get_char(i);
        let cb = b.get_char(i);
        if ca != cb {
            proof {
                lemma_lex_le_skip(a@, b@, i as int);
                assert(a@.skip(i as int)[0] == a@[i as int]);
                assert(b@.skip(i as int)[0] == b@[i as int]);
            }
            return (ca as u32) < (cb as u32);
        }
        i += 1;
    }
}

} // verus!
