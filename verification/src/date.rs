use vstd::prelude::*;
use vstd::math::abs;
use vstd::string::*;
use crate::digits::{dec_digits, u32_text};

verus! {

/// A signed calendar year.  Years at or after zero are in the common era
/// ("CE"); negative years are before it ("BCE") and are displayed with their
/// absolute value.
#[derive(Clone, Copy, Debug, PartialEq, Eq, PartialOrd, Ord, Hash, Structural)]
pub struct Date {
    year: i32,
}

impl View for Date {
    type V = int;

    closed spec fn view(&self) -> int {
        self.year as int
    }
}

/// A year can be displayed only when its absolute value fits in `i32`.
pub open spec fn year_wf(y: int) -> bool {
    y > i32::MIN
}

/// The era suffix of a year: "CE" at or after zero, "BCE" before.
pub open spec fn era_seq(y: int) -> Seq<char> {
    if y >= 0 {
        "CE"@
    } else {
        "BCE"@
    }
}

/// The display text of a year: its absolute value, a space, then the era.
pub open spec fn date_text(y: int) -> Seq<char> {
    dec_digits(abs(y) as int) + " "@ + era_seq(y)
}

impl Date {
    /// Construct a new `Date` from a raw year.
    pub fn new(year: i32) -> (d: Date)
        ensures
            d@ == year as int,
    {
        Date { year }
    }

    /// Returns true if this date is in the common era, false if not.
    pub fn commmon_era(&self) -> (r: bool)
        ensures
            r == (self@ >= 0),
    {
        self.year >= 0
    }

    /// Returns the "era text" for this `Date`: CE for a common era date and
    /// BCE for a date before the common era.
    pub fn era_text(&self) -> (r: &'static str)
        ensures
            r@ == era_seq(self@),
    {
        if self.commmon_era() {
            "CE"
        } else {
            "BCE"
        }
    }

    /// Returns the year without regard to its position relative to year zero.
    pub fn abs_year(&self) -> (r: i32)
        requires
            year_wf(self@),
        ensures
            r as int == abs(self@),
    {
        if self.year >= 0 {
            self.year
        } else {
            -self.year
        }
    }

    /// Returns the raw year.  Be warned, it could be negative.
    pub fn year(&self) -> (r: i32)
        ensures
            r as int == self@,
    {
        self.year
    }

    /// The date shifted forward by the other date's year count.
    pub fn plus(self, other: Date) -> (r: Date)
        requires
            i32::MIN <= self@ + other@ <= i32::MAX,
        ensures
            r@ == self@ + other@,
    {
        Date { year: self.year + other.year }
    }

    /// The date shifted backward by the other date's year count.
    pub fn minus(self, other: Date) -> (r: Date)
        requires
            i32::MIN <= self@ - other@ <= i32::MAX,
        ensures
            r@ == self@ - other@,
    {
        Date { year: self.year - other.year }
    }

    /// The text form `"<|year|> <era>"`, for example `"44 BCE"`.
    pub fn display_string(&self) -> (r: String)
        requires
            year_wf(self@),
        ensures
            r@ == date_text(self@),
    {
        let a = self.abs_year();
        let mut s = u32_text(a as u32);
        s.append(" ");
        s.append(self.era_text());
        proof {
            assert(s@ =~= date_text(self@));
        }
        s
    }
}

} // verus!
