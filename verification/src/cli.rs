use vstd::prelude::*;
use crate::date::Date;
use crate::entry::{DateSpan, Entry, EntryView, opt_view};

verus! {

/// The arguments of the parse command: describe one entry and serialize it.
pub struct Parse {
    /// Output YAML instead of JSON.
    pub yaml: bool,
    /// Pretty-print the output.
    pub pretty: bool,
    /// The label for the entry.
    pub label: String,
    /// An optional tag for the entry.
    pub tag: Option<String>,
    /// The start year, or the point year.
    pub start: i32,
    /// The end year.
    pub end: i32,
}

/// The arguments of the render command: load entries from a file, filter
/// them, and render them.
pub struct Render {
    /// Path of the file to load entries from.
    pub path: String,
    /// Keep only entries whose tag contains this text.
    pub filter: Option<String>,
    /// Keep only entries whose label contains this text.
    pub search: Option<String>,
    /// Emit text rather than HTML (the HTML mode is unimplemented).
    pub text: bool,
}

impl Parse {
    /// The entry these arguments describe: a point when `start == end`, a
    /// range otherwise.
    pub fn entry(&self) -> (e: Entry)
        ensures
            e@ == (EntryView {
                label: self.label@,
                tag: opt_view(self.tag),
                date: if self.start == self.end {
                    DateSpan::Point { year: self.start as int }
                } else {
                    DateSpan::Range { start: self.start as int, end: self.end as int }
                },
            }),
    {
        let label = self.label.clone();
        let tag = match &self.tag {
            Some(t) => Some(t.clone()),
            None => None,
        };
        if self.start == self.end {
            Entry::point(label, tag, Date::new(self.start))
        } else {
            Entry::range(label, tag, Date::new(self.start), Date::new(self.end))
        }
    }
}

} // verus!
