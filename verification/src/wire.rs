use vstd::prelude::*;
use crate::date::Date;
use crate::entry::{DateSpan, Entry, EntryView, opt_view};

verus! {

/// The persisted shape of an entry's date: a bare year for a point, a
/// start/end mapping for a range.  The shape alone tells the two apart, so
/// the wire format needs no variant tag.
#[derive(Clone, Copy, Debug, PartialEq, Eq, Structural)]
pub enum WireDate {
    Year(i32),
    Span { start: i32, end: i32 },
}

/// The persisted shape of one entry record.
#[derive(Clone, Debug, PartialEq, Eq)]
pub struct WireEntry {
    pub label: String,
    pub tag: Option<String>,
    pub date: WireDate,
}

/// The mathematical shape of a wire date.
pub ghost enum WireShape {
    Year { year: int },
    Span { start: int, end: int },
}

/// The mathematical value of a wire record.
#[verifier::ext_equal]
pub ghost struct WireView {
    pub label: Seq<char>,
    pub tag: Option<Seq<char>>,
    pub date: WireShape,
}

impl View for WireEntry {
    type V = WireView;

    open spec fn view(&self) -> WireView {
        WireView {
            label: self.label@,
            tag: opt_view(self.tag),
            date: match self.date {
                WireDate::Year(y) => WireShape::Year { year: y as int },
                WireDate::Span { start, end } => WireShape::Span {
                    start: start as int,
                    end: end as int,
                },
            },
        }
    }
}

/// The wire shape of an entry value: a point writes its bare year, a range
/// writes its start/end mapping.
pub open spec fn wire_of(v: EntryView) -> WireView {
    WireView {
        label: v.label,
        tag: v.tag,
        date: match v.date {
            DateSpan::Point { year } => WireShape::Year { year },
            DateSpan::Range { start, end } => WireShape::Span { start, end },
        },
    }
}

/// The entry value a wire record denotes: a bare year reads as a point, a
/// start/end mapping as a range.
pub open spec fn entry_of(w: WireView) -> EntryView {
    EntryView {
        label: w.label,
        tag: w.tag,
        date: match w.date {
            WireShape::Year { year } => DateSpan::Point { year },
            WireShape::Span { start, end } => DateSpan::Range { start, end },
        },
    }
}

/// Writing an entry to the wire and reading it back yields an equal entry.
pub proof fn lemma_wire_round_trip(v: EntryView)
    ensures
        entry_of(wire_of(v)) == v,
{
    assert(entry_of(wire_of(v)) =~= v);
}

/// Reading a wire record and writing it out again yields an equal record.
pub proof fn lemma_wire_round_trip_rev(w: WireView)
    ensures
        wire_of(entry_of(w)) == w,
{
    assert(wire_of(entry_of(w)) =~= w);
}

/// The wire record of an entry.
pub fn to_wire(e: &Entry) -> (w: WireEntry)
    ensures
        w@ == wire_of(e@),
{
    let date = if e.is_point() {
        WireDate::Year(e.start())
    } else {
        WireDate::Span { start: e.start(), end: e.end() }
    };
    WireEntry { label: e.label(), tag: e.tag(), date }
}

/// The entry a wire record denotes.
pub fn from_wire(w: WireEntry) -> (e: Entry)
    ensures
        e@ == entry_of(w@),
{
    match w.date {
        WireDate::Year(y) => Entry::point(w.label, w.tag, Date::new(y)),
        WireDate::Span { start, end } => Entry::range(
            w.label,
            w.tag,
            Date::new(start),
            Date::new(end),
        ),
    }
}

} // verus!
