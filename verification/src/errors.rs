//! Failures are recoverable values carrying a human-readable message.
//! Extraction failures quote the caller's requirement text and add the
//! defect observed; narrow byte-domain failures during pervasive
//! dispatch are marked as fill-recoverable, which the fill retry tests.

use vstd::prelude::*;
use vstd::string::{StrSliceExecFns, StringExecFns};

verus! {

/// A recoverable failure: a message, and whether a context fill value may
/// rescue the operation on retry.
#[derive(Debug)]
pub struct EvalError {
    pub message: String,
    pub fill: bool,
}

/// The digit character for one decimal digit.
pub open spec fn digit_char(d: int) -> char {
    if d == 0 {
        '0'
    } else if d == 1 {
        '1'
    } else if d == 2 {
        '2'
    } else if d == 3 {
        '3'
    } else if d == 4 {
        '4'
    } else if d == 5 {
        '5'
    } else if d == 6 {
        '6'
    } else if d == 7 {
        '7'
    } else if d == 8 {
        '8'
    } else {
        '9'
    }
}

/// The decimal digits of a number, most significant first.
pub open spec fn dec_digits(n: int) -> Seq<char>
    decreases n,
{
    if n < 10 {
        seq![digit_char(n)]
    } else {
        dec_digits(n / 10) + seq![digit_char(n % 10)]
    }
}

/// One decimal digit as text.
fn digit_str(d: usize) -> (r: &'static str)
    requires
        d < 10,
    ensures
        r@ == seq![digit_char(d as int)],
{
    proof {
        reveal_strlit("0");
        reveal_strlit("1");
        reveal_strlit("2");
        reveal_strlit("3");
        reveal_strlit("4");
        reveal_strlit("5");
        reveal_strlit("6");
        reveal_strlit("7");
        reveal_strlit("8");
        reveal_strlit("9");
    }
    let r = if d == 0 {
        "0"
    } else if d == 1 {
        "1"
    } else if d == 2 {
        "2"
    } else if d == 3 {
        "3"
    } else if d == 4 {
        "4"
    } else if d == 5 {
        "5"
    } else if d == 6 {
        "6"
    } else if d == 7 {
        "7"
    } else if d == 8 {
        "8"
    } else {
        "9"
    };
    proof {
        assert(r@ =~= seq![digit_char(d as int)]);
    }
    r
}

/// A number rendered in decimal.
pub fn usize_string(n: usize) -> (r: String)
    ensures
        r@ == dec_digits(n as int),
    decreases n,
{
    if n < 10 {
        let r = String::from_str(digit_str(n));
        proof {
            assert(r@ =~= dec_digits(n as int));
        }
        r
    } else {
        let mut r = usize_string(n / 10);
        r.append(digit_str(n % 10));
        proof {
            assert(r@ =~= dec_digits(n as int));
        }
        r
    }
}

/// A failure whose message is the requirement text alone.
pub fn fail1(req: &str) -> (r: EvalError)
    ensures
        r.message@ == req@,
        !r.fill,
{
    EvalError { message: String::from_str(req), fill: false }
}

/// A failure whose message is the requirement followed by a suffix.
pub fn fail2(req: &str, suffix: &str) -> (r: EvalError)
    ensures
        r.message@ == req@ + suffix@,
        !r.fill,
{
    EvalError { message: String::from_str(req).concat(suffix), fill: false }
}

/// A failure whose message is the requirement, a connective, and the
/// observed offender.
pub fn fail3(req: &str, mid: &str, last: &str) -> (r: EvalError)
    ensures
        r.message@ == req@ + mid@ + last@,
        !r.fill,
{
    EvalError { message: String::from_str(req).concat(mid).concat(last), fill: false }
}

/// A failure naming the operand's actual rank.
pub fn rank_error(req: &str, rank: usize) -> (r: EvalError)
    ensures
        r.message@ == req@ + ", but its rank is "@ + dec_digits(rank as int),
        !r.fill,
{
    let digits = usize_string(rank);
    EvalError {
        message: String::from_str(req).concat(", but its rank is ").concat(digits.as_str()),
        fill: false,
    }
}

} // verus!
