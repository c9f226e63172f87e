use vstd::prelude::*;
use vstd::string::*;

verus! {

/// The character for one decimal digit.
pub open spec fn digit_char(d: int) -> char {
    if d == 0 {
        '0'
    } else if d == 1 {
        '1'
    } else if d == 2 {
        '2'
    } else if d == 3 {
        '3'
    } else if d == 4 {
        '4'
    } else if d == 5 {
        '5'
    } else if d == 6 {
        '6'
    } else if d == 7 {
        '7'
    } else if d == 8 {
        '8'
    } else {
        '9'
    }
}

/// The decimal text of a non-negative number: most significant digit first,
/// with no sign and no leading zeros (zero itself is the single digit `0`).
pub open spec fn dec_digits(n: int) -> Seq<char>
    recommends
        n >= 0,
    decreases n,
{
    if n < 10 {
        seq![digit_char(n)]
    } else {
        dec_digits(n / 10).push(digit_char(n % 10))
    }
}

/// The one-character text of a decimal digit.
fn digit_str(d: u32) -> (r: &'static str)
    requires
        d < 10,
    ensures
        r@ == seq![digit_char(d as int)],
{
    proof {
        reveal_strlit("0");
        reveal_strlit("1");
        reveal_strlit("2");
        reveal_strlit("3");
        reveal_strlit("4");
        reveal_strlit("5");
        reveal_strlit("6");
        reveal_strlit("7");
        reveal_strlit("8");
        reveal_strlit("9");
    }
    if d == 0 {
        proof { assert("0"@ =~= seq![digit_char(d as int)]); }
        "0"
    } else if d == 1 {
        proof { assert("1"@ =~= seq![digit_char(d as int)]); }
        "1"
    } else if d == 2 {
        proof { assert("2"@ =~= seq![digit_char(d as int)]); }
        "2"
    } else if d == 3 {
        proof { assert("3"@ =~= seq![digit_char(d as int)]); }
        "3"
    } else if d == 4 {
        proof { assert("4"@ =~= seq![digit_char(d as int)]); }
        "4"
    } else if d == 5 {
        proof { assert("5"@ =~= seq![digit_char(d as int)]); }
        "5"
    } else if d == 6 {
        proof { assert("6"@ =~= seq![digit_char(d as int)]); }
        "6"
    } else if d == 7 {
        proof { assert("7"@ =~= seq![digit_char(d as int)]); }
        "7"
    } else if d == 8 {
        proof { assert("8"@ =~= seq![digit_char(d as int)]); }
        "8"
    } else {
        proof { assert("9"@ =~= seq![digit_char(d as int)]); }
        "9"
    }
}

/// The decimal text of a `u32`, built one digit at a time.
pub fn u32_text(n: u32) -> (r: String)
    ensures
        r@ == dec_digits(n as int),
    decreases n,
{
    if n < 10 {
        let r = String::from_str(digit_str(n));
        r
    } else {
        let mut r = u32_text(n / 10);
        r.append(digit_str(n % 10));
        proof {
            assert(r@ =~= dec_digits(n as int));
        }
        r
    }
}

} // verus!
