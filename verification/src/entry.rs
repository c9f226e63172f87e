use vstd::prelude::*;
use vstd::string::*;
use crate::date::{Date, date_text, year_wf};
use crate::order::{entry_le, str_le};

verus! {

/// A moment on the timeline: either a single year or a start/end span.  A
/// span may legally be backward (`start > end`); the type does not enforce an
/// ordering between the two bounds.
#[derive(Clone, Copy, Debug, PartialEq, Eq, Hash)]
enum EDate {
    Point(Date),
    Range { start: Date, end: Date },
}

/// The mathematical shape of an entry's date: raw years only.
pub ghost enum DateSpan {
    Point { year: int },
    Range { start: int, end: int },
}

/// The mathematical value of an `Entry`.
#[verifier::ext_equal]
pub ghost struct EntryView {
    pub label: Seq<char>,
    pub tag: Option<Seq<char>>,
    pub date: DateSpan,
}

impl EntryView {
    /// The year by which an entry is placed on the time axis.
    pub open spec fn start_year(self) -> int {
        match self.date {
            DateSpan::Point { year } => year,
            DateSpan::Range { start, .. } => start,
        }
    }

    /// The year at which an entry stops.
    pub open spec fn end_year(self) -> int {
        match self.date {
            DateSpan::Point { year } => year,
            DateSpan::Range { end, .. } => end,
        }
    }

    /// Every year the renderer would display is above `i32::MIN`, so its
    /// absolute value exists.
    pub open spec fn wf(self) -> bool {
        match self.date {
            DateSpan::Point { year } => year_wf(year),
            DateSpan::Range { start, end } => year_wf(start) && year_wf(end),
        }
    }
}

/// The view of an optional tag or label string.
pub open spec fn opt_view(t: Option<String>) -> Option<Seq<char>> {
    match t {
        Some(s) => Some(s@),
        None => None,
    }
}

/// The optional `"(<tag>) "` prefix of a rendered entry.
pub open spec fn tag_text(t: Option<Seq<char>>) -> Seq<char> {
    match t {
        Some(s) => "("@ + s + ") "@,
        None => Seq::empty(),
    }
}

/// The date part of a rendered entry: `"<start> - <end>: "` for a range,
/// `"<year>: "` for a point.
pub open spec fn span_text(d: DateSpan) -> Seq<char> {
    match d {
        DateSpan::Range { start, end } => date_text(start) + " - "@ + date_text(end) + ": "@,
        DateSpan::Point { year } => date_text(year) + ": "@,
    }
}

/// The full display text of one entry.
pub open spec fn entry_text(v: EntryView) -> Seq<char> {
    tag_text(v.tag) + span_text(v.date) + v.label
}

/// A labeled, optionally tagged temporal record that is either a single-year
/// point or a start/end range.  Entries are immutable once constructed.
#[derive(Clone, Debug, PartialEq, Eq, Hash)]
pub struct Entry {
    label: String,
    tag: Option<String>,
    date: EDate,
}

impl View for Entry {
    type V = EntryView;

    closed spec fn view(&self) -> EntryView {
        EntryView {
            label: self.label@,
            tag: match self.tag {
                Some(s) => Some(s@),
                None => None,
            },
            date: match self.date {
                EDate::Point(d) => DateSpan::Point { year: d@ },
                EDate::Range { start, end } => DateSpan::Range { start: start@, end: end@ },
            },
        }
    }
}

impl Entry {
    /// Create a new `Entry` spanning `start` to `end`, with no tag.
    pub fn new(label: String, start: Date, end: Date) -> (e: Entry)
        ensures
            e@ == (EntryView {
                label: label@,
                tag: None,
                date: DateSpan::Range { start: start@, end: end@ },
            }),
    {
        Entry { label, tag: None, date: EDate::Range { start, end } }
    }

    /// Create a new range `Entry` with an optional tag.
    pub fn range(label: String, tag: Option<String>, start: Date, end: Date) -> (e: Entry)
        ensures
            e@ == (EntryView {
                label: label@,
                tag: opt_view(tag),
                date: DateSpan::Range { start: start@, end: end@ },
            }),
    {
        Entry { label, tag, date: EDate::Range { start, end } }
    }

    /// Convenience constructor for when the entry is a point, not a range.
    pub fn point(label: String, tag: Option<String>, point: Date) -> (e: Entry)
        ensures
            e@ == (EntryView {
                label: label@,
                tag: opt_view(tag),
                date: DateSpan::Point { year: point@ },
            }),
    {
        Entry { label, tag, date: EDate::Point(point) }
    }

    /// The entry's label.
    pub fn label(&self) -> (r: String)
        ensures
            r@ == self@.label,
    {
        self.label.clone()
    }

    /// The entry's tag, if it has one.
    pub fn tag(&self) -> (r: Option<String>)
        ensures
            opt_view(r) == self@.tag,
    {
        match &self.tag {
            Some(s) => Some(s.clone()),
            None => None,
        }
    }

    /// The year at which the entry starts (a point starts at its only year).
    pub fn start(&self) -> (r: i32)
        ensures
            r as int == self@.start_year(),
    {
        match &self.date {
            EDate::Point(d) => d.year(),
            EDate::Range { start, .. } => start.year(),
        }
    }

    /// The year at which the entry ends (a point ends at its only year).
    pub fn end(&self) -> (r: i32)
        ensures
            r as int == self@.end_year(),
    {
        match &self.date {
            EDate::Point(d) => d.year(),
            EDate::Range { end, .. } => end.year(),
        }
    }

    /// True when the entry is a single-year point rather than a range.
    pub fn is_point(&self) -> (r: bool)
        ensures
            r == (self@.date is Point),
    {
        match &self.date {
            EDate::Point(_) => true,
            EDate::Range { .. } => false,
        }
    }

    /// The display text: the optional `"(<tag>) "` prefix, then the date
    /// part, then the label.
    pub fn display_string(&self) -> (r: String)
        requires
            self@.wf(),
        ensures
            r@ == entry_text(self@),
    {
        let mut s = String::new();
        if let Some(t) = &self.tag {
            s.append("(");
            s.append(t.as_str());
            s.append(") ");
        }
        match &self.date {
            EDate::Range { start, end } => {
                let st = start.display_string();
                s.append(st.as_str());
                s.append(" - ");
                let en = end.display_string();
                s.append(en.as_str());
                s.append(": ");
            },
            EDate::Point(d) => {
                let dt = d.display_string();
                s.append(dt.as_str());
                s.append(": ");
            },
        }
        s.append(self.label.as_str());
        proof {
            assert(s@ =~= entry_text(self@));
        }
        s
    }
}

impl Entry {
    /// The total "heap order" comparison: lexicographic by label, then tag,
    /// then date.  Buckets list their entries ascending in this order.
    pub fn heap_le(&self, other: &Entry) -> (r: bool)
        ensures
            r == entry_le(self@, other@),
    {
        if !(self.label == other.label) {
            return str_le(self.label.as_str(), other.label.as_str());
        }
        match (&self.tag, &other.tag) {
            (Some(x), Some(y)) => {
                if !(*x == *y) {
                    return str_le(x.as_str(), y.as_str());
                }
            },
            (None, Some(_)) => {
                return true;
            },
            (Some(_), None) => {
                return false;
            },
            (None, None) => {},
        }
        match (&self.date, &other.date) {
            (EDate::Point(d1), EDate::Point(d2)) => d1.year() <= d2.year(),
            (EDate::Point(_), EDate::Range { .. }) => true,
            (EDate::Range { .. }, EDate::Point(_)) => false,
            (EDate::Range { start: s1, end: e1 }, EDate::Range { start: s2, end: e2 }) => {
                let a1 = s1.year();
                let a2 = s2.year();
                if a1 != a2 {
                    a1 < a2
                } else {
                    e1.year() <= e2.year()
                }
            },
        }
    }
}

impl PartialOrd for Entry {
    /// The relational comparison used for chronological sorting: entries are
    /// compared by their start year alone, whatever their labels or tags.
    fn partial_cmp(&self, other: &Self) -> (r: Option<core::cmp::Ordering>) {
        let a = self.start();
        let b = other.start();
        if a < b {
            Some(core::cmp::Ordering::Less)
        } else if a == b {
            Some(core::cmp::Ordering::Equal)
        } else {
            Some(core::cmp::Ordering::Greater)
        }
    }
}

impl vstd::std_specs::cmp::PartialOrdSpecImpl for Entry {
    open spec fn obeys_partial_cmp_spec() -> bool {
        true
    }

    open spec fn partial_cmp_spec(&self, other: &Self) -> Option<core::cmp::Ordering> {
        if self@.start_year() < other@.start_year() {
            Some(core::cmp::Ordering::Less)
        } else if self@.start_year() == other@.start_year() {
            Some(core::cmp::Ordering::Equal)
        } else {
            Some(core::cmp::Ordering::Greater)
        }
    }
}

} // verus!
