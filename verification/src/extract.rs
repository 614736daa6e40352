//! Validated extraction: reading machine values out of a `Value` under a
//! caller-supplied requirement. Each extractor enforces the operand kind,
//! a rank bound, and for the integer variants exactness and sign; on
//! violation the failure message states the requirement text plus the
//! defect observed.

use crate::array::Array;
use crate::bits::{byte_bits, byte_to_bits, cast_u8, cast_u8_of, decode_mag, int_val, is_lt_zero,
    exp_field, frac_field, lemma_mag_val_nonneg, lt_zero, mag_val, sign_bit};
use crate::errors::{dec_digits, fail2, fail3, rank_error, EvalError};
use crate::value::{ValV, Value};
use vstd::prelude::*;
use vstd::string::StringExecFns;

verus! {

/// Relies on `String::push`: appends exactly the one character.
pub assume_specification[ String::push ](s: &mut String, ch: char)
    ensures
        final(s)@ == old(s)@.push(ch),
;

/// The UTF-8 encoding of a character sequence; what `String::into_bytes`
/// returns, a function of the characters alone.
pub uninterp spec fn utf8_bytes(s: Seq<char>) -> Seq<u8>;

/// Relies on `String::into_bytes`: the result is the string's UTF-8
/// bytes, a function of its characters alone.
#[verifier::external_body]
fn string_into_bytes(s: String) -> (r: Vec<u8>)
    ensures
        r@ == utf8_bytes(s@),
        s@.len() == 0 ==> r@.len() == 0,
{
    s.into_bytes()
}

/// A non-negative integer clamped into the `usize` range.
pub open spec fn sat_usize(n: int) -> int {
    if n > usize::MAX {
        usize::MAX as int
    } else {
        n
    }
}

/// An integer clamped into the `isize` range.
pub open spec fn sat_isize(n: int) -> int {
    if n > isize::MAX {
        isize::MAX as int
    } else if n < isize::MIN {
        isize::MIN as int
    } else {
        n
    }
}

/// A number pattern passes natural-number extraction when it is neither
/// negative nor fractional.
pub open spec fn nat_ok(x: u64) -> bool {
    !lt_zero(x) && int_val(x) is Some
}

/// A number pattern passes integer extraction when it has no fractional
/// part.
pub open spec fn int_ok(x: u64) -> bool {
    int_val(x) is Some
}

/// The saturated magnitude of `decode_mag`, converted to a `usize` with
/// saturation; yields `sat_usize` of the encoded integer.
fn mag_to_usize(mag: u64) -> (r: usize)
    ensures
        r == sat_usize(mag as int) || (mag == u64::MAX && r == usize::MAX),
        r as int == if mag > usize::MAX {
            usize::MAX as int
        } else {
            mag as int
        },
{
    if mag > usize::MAX as u64 {
        usize::MAX
    } else {
        mag as usize
    }
}

impl Value {
    /// A scalar truth value: a number or byte of rank 0, with no
    /// fractional part; nonzero means true.
    pub fn as_bool(&self, requirement: &str) -> (r: Result<bool, EvalError>)
        requires
            self@.wf(),
        ensures
            match self@ {
                ValV::Num { shape, elems } => {
                    if shape.len() > 0 {
                        r matches Err(e) && e.message@ == requirement@ + ", but its rank is "@
                            + dec_digits(shape.len() as int)
                    } else if int_val(elems[0]) is None {
                        r matches Err(e) && e.message@ == requirement@
                            + ", but it has a fractional part"@
                    } else {
                        r == Ok::<bool, EvalError>(int_val(elems[0]) != Some(0int))
                    }
                },
                ValV::Byte { shape, elems } => {
                    if shape.len() > 0 {
                        r matches Err(e) && e.message@ == requirement@ + ", but its rank is "@
                            + dec_digits(shape.len() as int)
                    } else {
                        r == Ok::<bool, EvalError>(elems[0] != 0)
                    }
                },
                _ => r matches Err(e) && e.message@ == requirement@ + ", but it is "@
                    + self@.kind_name_spec(),
            },
    {
        match self {
            Value::Num(a) => {
                if a.rank() > 0 {
                    Err(rank_error(requirement, a.rank()))
                } else {
                    let x = a.data[0];
                    match decode_mag(x) {
                        None => Err(fail2(requirement, ", but it has a fractional part")),
                        Some(mag) => {
                            proof {
                                lemma_mag_val_nonneg(x);
                            }
                            Ok(mag != 0)
                        },
                    }
                }
            },
            Value::Byte(a) => {
                if a.rank() > 0 {
                    Err(rank_error(requirement, a.rank()))
                } else {
                    Ok(a.data[0] != 0)
                }
            },
            _ => Err(fail3(requirement, ", but it is ", self.kind_name())),
        }
    }

    /// A scalar natural number: a number or byte of rank 0 that is
    /// neither negative nor fractional, clamped into the `usize` range.
    pub fn as_nat(&self, requirement: &str) -> (r: Result<usize, EvalError>)
        requires
            self@.wf(),
        ensures
            match self@ {
                ValV::Num { shape, elems } => {
                    if shape.len() > 0 {
                        r matches Err(e) && e.message@ == requirement@ + ", but its rank is "@
                            + dec_digits(shape.len() as int)
                    } else if lt_zero(elems[0]) {
                        r matches Err(e) && e.message@ == requirement@ + ", but it is negative"@
                    } else if int_val(elems[0]) is None {
                        r matches Err(e) && e.message@ == requirement@
                            + ", but it has a fractional part"@
                    } else {
                        r matches Ok(n) && n == sat_usize(int_val(elems[0])->Some_0)
                    }
                },
                ValV::Byte { shape, elems } => {
                    if shape.len() > 0 {
                        r matches Err(e) && e.message@ == requirement@ + ", but its rank is "@
                            + dec_digits(shape.len() as int)
                    } else {
                        r == Ok::<usize, EvalError>(elems[0] as usize)
                    }
                },
                _ => r matches Err(e) && e.message@ == requirement@ + ", but it is "@
                    + self@.kind_name_spec(),
            },
    {
        match self {
            Value::Num(a) => {
                if a.rank() > 0 {
                    Err(rank_error(requirement, a.rank()))
                } else {
                    let x = a.data[0];
                    if is_lt_zero(x) {
                        Err(fail2(requirement, ", but it is negative"))
                    } else {
                        match decode_mag(x) {
                            None => Err(fail2(requirement, ", but it has a fractional part")),
                            Some(mag) => {
                                proof {
                                    lemma_mag_val_nonneg(x);
                                    if sign_bit(x) {
                                        assert(x == crate::bits::SIGN_PAT);
                                        assert(exp_field(x) == 0 && frac_field(x) == 0)
                                            by (bit_vector)
                                            requires
                                                x == 0x8000_0000_0000_0000u64,
                                        ;
                                    }
                                }
                                Ok(mag_to_usize(mag))
                            },
                        }
                    }
                }
            },
            Value::Byte(a) => {
                if a.rank() > 0 {
                    Err(rank_error(requirement, a.rank()))
                } else {
                    Ok(a.data[0] as usize)
                }
            },
            _ => Err(fail3(requirement, ", but it is ", self.kind_name())),
        }
    }

    /// A scalar integer: a number or byte of rank 0 with no fractional
    /// part, clamped into the `isize` range.
    pub fn as_int(&self, requirement: &str) -> (r: Result<isize, EvalError>)
        requires
            self@.wf(),
        ensures
            match self@ {
                ValV::Num { shape, elems } => {
                    if shape.len() > 0 {
                        r matches Err(e) && e.message@ == requirement@ + ", but its rank is "@
                            + dec_digits(shape.len() as int)
                    } else if int_val(elems[0]) is None {
                        r matches Err(e) && e.message@ == requirement@
                            + ", but it has a fractional part"@
                    } else {
                        r matches Ok(n) && n == sat_isize(int_val(elems[0])->Some_0)
                    }
                },
                ValV::Byte { shape, elems } => {
                    if shape.len() > 0 {
                        r matches Err(e) && e.message@ == requirement@ + ", but its rank is "@
                            + dec_digits(shape.len() as int)
                    } else {
                        r == Ok::<isize, EvalError>(elems[0] as isize)
                    }
                },
                _ => r matches Err(e) && e.message@ == requirement@ + ", but it is "@
                    + self@.kind_name_spec(),
            },
    {
        match self {
            Value::Num(a) => {
                if a.rank() > 0 {
                    Err(rank_error(requirement, a.rank()))
                } else {
                    let x = a.data[0];
                    match decode_mag(x) {
                        None => Err(fail2(requirement, ", but it has a fractional part")),
                        Some(mag) => {
                            proof {
                                lemma_mag_val_nonneg(x);
                                if sign_bit(x) && !lt_zero(x) {
                                    assert(x == crate::bits::SIGN_PAT);
                                    assert(exp_field(x) == 0 && frac_field(x) == 0) by (bit_vector)
                                        requires
                                            x == 0x8000_0000_0000_0000u64,
                                    ;
                                }
                            }
                            if is_lt_zero(x) {
                                if mag >= (isize::MAX as u64) + 1 {
                                    Ok(isize::MIN)
                                } else {
                                    Ok(-(mag as isize))
                                }
                            } else {
                                if mag > isize::MAX as u64 {
                                    Ok(isize::MAX)
                                } else {
                                    Ok(mag as isize)
                                }
                            }
                        },
                    }
                }
            },
            Value::Byte(a) => {
                if a.rank() > 0 {
                    Err(rank_error(requirement, a.rank()))
                } else {
                    Ok(a.data[0] as isize)
                }
            },
            _ => Err(fail3(requirement, ", but it is ", self.kind_name())),
        }
    }

    /// A scalar number as a double's bit pattern: a number of rank 0
    /// unchanged, or a byte of rank 0 promoted to its canonical pattern.
    pub fn as_num(&self, requirement: &str) -> (r: Result<u64, EvalError>)
        requires
            self@.wf(),
        ensures
            match self@ {
                ValV::Num { shape, elems } => {
                    if shape.len() > 0 {
                        r matches Err(e) && e.message@ == requirement@ + ", but its rank is "@
                            + dec_digits(shape.len() as int)
                    } else {
                        r == Ok::<u64, EvalError>(elems[0])
                    }
                },
                ValV::Byte { shape, elems } => {
                    if shape.len() > 0 {
                        r matches Err(e) && e.message@ == requirement@ + ", but its rank is "@
                            + dec_digits(shape.len() as int)
                    } else {
                        r == Ok::<u64, EvalError>(byte_bits(elems[0]))
                    }
                },
                _ => r matches Err(e) && e.message@ == requirement@ + ", but it is "@
                    + self@.kind_name_spec(),
            },
    {
        match self {
            Value::Num(a) => {
                if a.rank() > 0 {
                    Err(rank_error(requirement, a.rank()))
                } else {
                    Ok(a.data[0])
                }
            },
            Value::Byte(a) => {
                if a.rank() > 0 {
                    Err(rank_error(requirement, a.rank()))
                } else {
                    Ok(byte_to_bits(a.data[0]))
                }
            },
            _ => Err(fail3(requirement, ", but it is ", self.kind_name())),
        }
    }

    /// The text of a character array of rank at most 1.
    pub fn as_string(&self, requirement: &str) -> (r: Result<String, EvalError>)
        requires
            self@.wf(),
        ensures
            match self@ {
                ValV::Char { shape, elems } => {
                    if shape.len() > 1 {
                        r matches Err(e) && e.message@ == requirement@ + ", but its rank is "@
                            + dec_digits(shape.len() as int)
                    } else {
                        r matches Ok(s) && s@ == elems
                    }
                },
                _ => r matches Err(e) && e.message@ == requirement@ + ", but its type is "@
                    + self@.kind_name_spec(),
            },
    {
        match self {
            Value::Char(a) => {
                if a.rank() > 1 {
                    Err(rank_error(requirement, a.rank()))
                } else {
                    let mut s = String::new();
                    let n = a.data.len();
                    let mut i: usize = 0;
                    while i < n
                        invariant
                            i <= n,
                            n == a.data@.len(),
                            s@ == a.data@.subrange(0, i as int),
                        decreases n - i,
                    {
                        s.push(a.data[i]);
                        proof {
                            assert(s@ =~= a.data@.subrange(0, i + 1));
                        }
                        i = i + 1;
                    }
                    proof {
                        assert(s@ =~= a.data@);
                    }
                    Ok(s)
                }
            },
            _ => Err(fail3(requirement, ", but its type is ", self.kind_name())),
        }
    }

    /// The bytes of a byte, number or character value of rank at most 1:
    /// a byte array's data unchanged, a number array's elements
    /// converted as `as u8` converts, or a character array's text
    /// encoded as UTF-8.
    pub fn into_bytes(self, requirement: &str) -> (r: Result<Vec<u8>, EvalError>)
        requires
            self@.wf(),
        ensures
            match self@ {
                ValV::Byte { shape, elems } => {
                    if shape.len() > 1 {
                        r matches Err(e) && e.message@ == requirement@ + ", but its rank is "@
                            + dec_digits(shape.len() as int)
                    } else {
                        r matches Ok(v) && v@ == elems
                    }
                },
                ValV::Num { shape, elems } => {
                    if shape.len() > 1 {
                        r matches Err(e) && e.message@ == requirement@ + ", but its rank is "@
                            + dec_digits(shape.len() as int)
                    } else {
                        r matches Ok(v) && v@ == Seq::new(elems.len(), |i: int| cast_u8(elems[i]))
                    }
                },
                ValV::Char { shape, elems } => {
                    if shape.len() > 1 {
                        r matches Err(e) && e.message@ == requirement@ + ", but its rank is "@
                            + dec_digits(shape.len() as int)
                    } else {
                        r matches Ok(v) && v@ == utf8_bytes(elems)
                    }
                },
                _ => r matches Err(e) && e.message@ == requirement@ + ", but its type is "@
                    + self@.kind_name_spec(),
            },
    {
        match self {
            Value::Byte(a) => {
                if a.shape.len() > 1 {
                    Err(rank_error(requirement, a.shape.len()))
                } else {
                    Ok(a.data)
                }
            },
            Value::Num(a) => {
                if a.shape.len() > 1 {
                    Err(rank_error(requirement, a.shape.len()))
                } else {
                    let n = a.data.len();
                    let mut out: Vec<u8> = Vec::new();
                    let mut i: usize = 0;
                    while i < n
                        invariant
                            i <= n,
                            n == a.data@.len(),
                            out@.len() == i,
                            forall|k: int| 0 <= k < i ==> out@[k] == cast_u8(a.data@[k]),
                        decreases n - i,
                    {
                        out.push(cast_u8_of(a.data[i]));
                        i = i + 1;
                    }
                    proof {
                        assert(out@ =~= Seq::new(a.data@.len(), |i: int| cast_u8(a.data@[i])));
                    }
                    Ok(out)
                }
            },
            Value::Char(a) => {
                if a.shape.len() > 1 {
                    Err(rank_error(requirement, a.shape.len()))
                } else {
                    let v = Value::Char(a);
                    match v.as_string(requirement) {
                        Ok(s) => Ok(string_into_bytes(s)),
                        Err(e) => Err(e),
                    }
                }
            },
            v => Err(fail3(requirement, ", but its type is ", v.kind_name())),
        }
    }
}

impl Value {
    /// A list of natural numbers: a number or byte array of rank at most
    /// 1 whose elements are neither negative nor fractional, clamped
    /// into the `usize` range.
    pub fn as_naturals(&self, requirement: &str) -> (r: Result<Vec<usize>, EvalError>)
        requires
            self@.wf(),
        ensures
            match self@ {
                ValV::Num { shape, elems } => {
                    if shape.len() > 1 {
                        r matches Err(e) && e.message@ == requirement@ + ", but its rank is "@
                            + dec_digits(shape.len() as int)
                    } else if forall|i: int| 0 <= i < elems.len() ==> nat_ok(#[trigger] elems[i]) {
                        r matches Ok(v) && v@.len() == elems.len() && forall|i: int|
                            0 <= i < elems.len() ==> #[trigger] v@[i] == sat_usize(
                                int_val(elems[i])->Some_0,
                            )
                    } else {
                        r matches Err(e) && e.message@ == requirement@
                    }
                },
                ValV::Byte { shape, elems } => {
                    if shape.len() > 1 {
                        r matches Err(e) && e.message@ == requirement@ + ", but its rank is "@
                            + dec_digits(shape.len() as int)
                    } else {
                        r matches Ok(v) && v@.len() == elems.len() && forall|i: int|
                            0 <= i < elems.len() ==> #[trigger] v@[i] == elems[i] as usize
                    }
                },
                _ => r matches Err(e) && e.message@ == requirement@ + ", but it is "@
                    + self@.kind_name_spec() + "s"@,
            },
    {
        match self {
            Value::Num(a) => {
                if a.rank() > 1 {
                    return Err(rank_error(requirement, a.rank()));
                }
                let n = a.data.len();
                let mut out: Vec<usize> = Vec::new();
                let mut i: usize = 0;
                while i < n
                    invariant
                        i <= n,
                        n == a.data@.len(),
                        out@.len() == i,
                        *self == Value::Num(*a),
                        a.shape@.len() <= 1,
                        forall|k: int| 0 <= k < i ==> nat_ok(#[trigger] a.data@[k]),
                        forall|k: int|
                            0 <= k < i ==> #[trigger] out@[k] == sat_usize(
                                int_val(a.data@[k])->Some_0,
                            ),
                    decreases n - i,
                {
                    let x = a.data[i];
                    if is_lt_zero(x) {
                        return Err(crate::errors::fail1(requirement));
                    }
                    match decode_mag(x) {
                        None => {
                            return Err(crate::errors::fail1(requirement));
                        },
                        Some(mag) => {
                            proof {
                                lemma_mag_val_nonneg(x);
                                if sign_bit(x) {
                                    assert(x == crate::bits::SIGN_PAT);
                                    assert(exp_field(x) == 0 && frac_field(x) == 0) by (bit_vector)
                                        requires
                                            x == 0x8000_0000_0000_0000u64,
                                    ;
                                }
                            }
                            out.push(mag_to_usize(mag));
                        },
                    }
                    i = i + 1;
                }
                Ok(out)
            },
            Value::Byte(a) => {
                if a.rank() > 1 {
                    return Err(rank_error(requirement, a.rank()));
                }
                let n = a.data.len();
                let mut out: Vec<usize> = Vec::new();
                let mut i: usize = 0;
                while i < n
                    invariant
                        i <= n,
                        n == a.data@.len(),
                        out@.len() == i,
                        forall|k: int| 0 <= k < i ==> #[trigger] out@[k] == a.data@[k] as usize,
                    decreases n - i,
                {
                    out.push(a.data[i] as usize);
                    i = i + 1;
                }
                Ok(out)
            },
            _ => Err(fail3(requirement, ", but it is ", self.kind_name()).suffix_s()),
        }
    }

    /// A list of integers: a number or byte array of rank at most 1
    /// whose elements have no fractional part, clamped into the `isize`
    /// range.
    pub fn as_integers(&self, requirement: &str) -> (r: Result<Vec<isize>, EvalError>)
        requires
            self@.wf(),
        ensures
            match self@ {
                ValV::Num { shape, elems } => {
                    if shape.len() > 1 {
                        r matches Err(e) && e.message@ == requirement@ + ", but its rank is "@
                            + dec_digits(shape.len() as int)
                    } else if forall|i: int| 0 <= i < elems.len() ==> int_ok(#[trigger] elems[i]) {
                        r matches Ok(v) && v@.len() == elems.len() && forall|i: int|
                            0 <= i < elems.len() ==> #[trigger] v@[i] == sat_isize(
                                int_val(elems[i])->Some_0,
                            )
                    } else {
                        r matches Err(e) && e.message@ == requirement@
                    }
                },
                ValV::Byte { shape, elems } => {
                    if shape.len() > 1 {
                        r matches Err(e) && e.message@ == requirement@ + ", but its rank is "@
                            + dec_digits(shape.len() as int)
                    } else {
                        r matches Ok(v) && v@.len() == elems.len() && forall|i: int|
                            0 <= i < elems.len() ==> #[trigger] v@[i] == elems[i] as isize
                    }
                },
                _ => r matches Err(e) && e.message@ == requirement@ + ", but it is "@
                    + self@.kind_name_spec() + "s"@,
            },
    {
        match self {
            Value::Num(a) => {
                if a.rank() > 1 {
                    return Err(rank_error(requirement, a.rank()));
                }
                let n = a.data.len();
                let mut out: Vec<isize> = Vec::new();
                let mut i: usize = 0;
                while i < n
                    invariant
                        i <= n,
                        n == a.data@.len(),
                        out@.len() == i,
                        *self == Value::Num(*a),
                        a.shape@.len() <= 1,
                        forall|k: int| 0 <= k < i ==> int_ok(#[trigger] a.data@[k]),
                        forall|k: int|
                            0 <= k < i ==> #[trigger] out@[k] == sat_isize(
                                int_val(a.data@[k])->Some_0,
                            ),
                    decreases n - i,
                {
                    let x = a.data[i];
                    match decode_mag(x) {
                        None => {
                            return Err(crate::errors::fail1(requirement));
                        },
                        Some(mag) => {
                            proof {
                                lemma_mag_val_nonneg(x);
                                if sign_bit(x) && !lt_zero(x) {
                                    assert(x == crate::bits::SIGN_PAT);
                                    assert(exp_field(x) == 0 && frac_field(x) == 0) by (bit_vector)
                                        requires
                                            x == 0x8000_0000_0000_0000u64,
                                    ;
                                }
                            }
                            if is_lt_zero(x) {
                                if mag >= (isize::MAX as u64) + 1 {
                                    out.push(isize::MIN);
                                } else {
                                    out.push(-(mag as isize));
                                }
                            } else {
                                if mag > isize::MAX as u64 {
                                    out.push(isize::MAX);
                                } else {
                                    out.push(mag as isize);
                                }
                            }
                        },
                    }
                    i = i + 1;
                }
                Ok(out)
            },
            Value::Byte(a) => {
                if a.rank() > 1 {
                    return Err(rank_error(requirement, a.rank()));
                }
                let n = a.data.len();
                let mut out: Vec<isize> = Vec::new();
                let mut i: usize = 0;
                while i < n
                    invariant
                        i <= n,
                        n == a.data@.len(),
                        out@.len() == i,
                        forall|k: int| 0 <= k < i ==> #[trigger] out@[k] == a.data@[k] as isize,
                    decreases n - i,
                {
                    out.push(a.data[i] as isize);
                    i = i + 1;
                }
                Ok(out)
            },
            _ => Err(fail3(requirement, ", but it is ", self.kind_name()).suffix_s()),
        }
    }

    /// A list of indices: integers as `as_integers` reads them.
    pub fn as_indices(&self, requirement: &str) -> (r: Result<Vec<isize>, EvalError>)
        requires
            self@.wf(),
        ensures
            match self@ {
                ValV::Num { shape, elems } => {
                    if shape.len() > 1 {
                        r matches Err(e) && e.message@ == requirement@ + ", but its rank is "@
                            + dec_digits(shape.len() as int)
                    } else if forall|i: int| 0 <= i < elems.len() ==> int_ok(#[trigger] elems[i]) {
                        r matches Ok(v) && v@.len() == elems.len() && forall|i: int|
                            0 <= i < elems.len() ==> #[trigger] v@[i] == sat_isize(
                                int_val(elems[i])->Some_0,
                            )
                    } else {
                        r matches Err(e) && e.message@ == requirement@
                    }
                },
                ValV::Byte { shape, elems } => {
                    if shape.len() > 1 {
                        r matches Err(e) && e.message@ == requirement@ + ", but its rank is "@
                            + dec_digits(shape.len() as int)
                    } else {
                        r matches Ok(v) && v@.len() == elems.len() && forall|i: int|
                            0 <= i < elems.len() ==> #[trigger] v@[i] == elems[i] as isize
                    }
                },
                _ => r matches Err(e) && e.message@ == requirement@ + ", but it is "@
                    + self@.kind_name_spec() + "s"@,
            },
    {
        self.as_integers(requirement)
    }

    /// Rewrites a number array in byte storage when that loses nothing:
    /// every element must encode an integer in 0..=255 (the negative
    /// zero pattern counts, as the integer 0). Any other value, and any
    /// number array with an element outside that range, is left
    /// unchanged.
    pub fn compress(&mut self)
        requires
            old(self)@.wf(),
        ensures
            final(self)@.wf(),
            match old(self)@ {
                ValV::Num { shape, elems } => {
                    if forall|i: int|
                        0 <= i < elems.len() ==> crate::bits::is_small_nat(#[trigger] elems[i]) {
                        final(self)@ matches ValV::Byte { shape: s2, elems: e2 } && s2 == shape
                            && e2 == Seq::new(
                            elems.len(),
                            |i: int| crate::bits::small_nat_byte(elems[i]),
                        )
                    } else {
                        final(self)@ == old(self)@
                    }
                },
                _ => final(self)@ == old(self)@,
            },
    {
        let packed: Array<u8>;
        match &*self {
            Value::Num(a) => {
                let n = a.data.len();
                let mut out: Vec<u8> = Vec::new();
                let mut i: usize = 0;
                while i < n
                    invariant
                        i <= n,
                        n == a.data@.len(),
                        *self == Value::Num(*a),
                        *self == *old(self),
                        old(self)@.wf(),
                        out@.len() == i,
                        forall|k: int|
                            0 <= k < i ==> crate::bits::is_small_nat(#[trigger] a.data@[k]),
                        forall|k: int|
                            0 <= k < i ==> #[trigger] out@[k] == crate::bits::small_nat_byte(
                                a.data@[k],
                            ),
                    decreases n - i,
                {
                    match crate::bits::decode_small_nat(a.data[i]) {
                        Some(b) => {
                            out.push(b);
                        },
                        None => {
                            return ;
                        },
                    }
                    i = i + 1;
                }
                packed = Array { shape: crate::array::dup_vec(&a.shape), data: out };
            },
            _ => {
                return ;
            },
        }
        proof {
            let elems = match old(self)@ {
                ValV::Num { elems, .. } => elems,
                _ => arbitrary(),
            };
            assert(packed.data@ =~= Seq::new(
                elems.len(),
                |i: int| crate::bits::small_nat_byte(elems[i]),
            ));
        }
        *self = Value::Byte(packed);
    }
}

impl EvalError {
    /// The same failure with a plural marker appended to its message.
    pub fn suffix_s(self) -> (r: EvalError)
        ensures
            r.message@ == self.message@ + "s"@,
            r.fill == self.fill,
    {
        EvalError { message: self.message.concat("s"), fill: self.fill }
    }
}

/// Compression is safe: a number array whose elements all encode
/// integers in 0..=255 equals its byte-stored rewriting - the exact
/// value `compress` installs - so equality, order and hashing never
/// change. The negative zero pattern packs as the byte 0.
pub proof fn lemma_compress_preserves(shape: Seq<usize>, elems: Seq<u64>)
    requires
        forall|i: int| 0 <= i < elems.len() ==> crate::bits::is_small_nat(#[trigger] elems[i]),
    ensures
        crate::ord::val_eq(
            ValV::Num { shape, elems },
            ValV::Byte {
                shape,
                elems: Seq::new(elems.len(), |i: int| crate::bits::small_nat_byte(elems[i])),
            },
        ),
{
    let packed = Seq::new(elems.len(), |i: int| crate::bits::small_nat_byte(elems[i]));
    let nv = ValV::Num { shape, elems };
    let bv = ValV::Byte { shape, elems: packed };
    assert forall|i: int| 0 <= i < elems.len() implies crate::bits::norm_key(#[trigger] elems[i])
        == crate::bits::norm_key(byte_bits(packed[i])) by {
        let x = elems[i];
        if x == crate::bits::SIGN_PAT {
            assert(crate::bits::exp_field(x) == 0 && crate::bits::frac_field(x) == 0)
                by (bit_vector)
                requires
                    x == 0x8000_0000_0000_0000u64,
            ;
            assert(crate::bits::small_nat_byte(x) == 0);
            assert(byte_bits(0u8) == 0u64);
            assert(0u64 != crate::bits::SIGN_PAT);
        } else {
            crate::bits::lemma_small_nat_canonical(x);
        }
    }
    assert(crate::ord::key_of_elems(nv) =~= crate::ord::key_of_elems(bv));
    assert(crate::ord::key_of_val(nv) =~= crate::ord::key_of_val(bv));
}

} // verus!
