//! The numeric element of a `Num` array is a double held as its 64-bit
//! IEEE-754 pattern, stored in a `u64`. Everything the value engine reads
//! of a number - its sign, whether it is an exact integer, its value as a
//! machine integer, the canonical pattern of a small integer, and a key
//! that realises the IEEE total order - is bit-level logic on the pattern,
//! defined and proved here.

use vstd::arithmetic::div_mod::{lemma_div_by_multiple, lemma_fundamental_div_mod_converse};
use vstd::arithmetic::power2::{
    lemma2_to64, lemma2_to64_rest, lemma_pow2_adds, lemma_pow2_pos, lemma_pow2_strictly_increases,
    pow2,
};
use vstd::bits::{
    lemma_u64_low_bits_mask_is_mod, lemma_u64_shl_is_mul, lemma_u64_shr_is_div, low_bits_mask,
};
use vstd::prelude::*;

verus! {

pub const EXP_MASK: u64 = 0x7ff;

pub const FRAC_MASK: u64 = 0xf_ffff_ffff_ffff;

pub const SIGN_PAT: u64 = 0x8000_0000_0000_0000;

/// Biased exponent field of a pattern.
pub open spec fn exp_field(x: u64) -> u64 {
    (x >> 52) & EXP_MASK
}

/// Fraction (mantissa) field of a pattern.
pub open spec fn frac_field(x: u64) -> u64 {
    x & FRAC_MASK
}

/// The pattern's sign bit is set.
pub open spec fn sign_bit(x: u64) -> bool {
    x >> 63 == 1
}

/// The pattern encodes a NaN.
pub open spec fn is_nan(x: u64) -> bool {
    exp_field(x) == EXP_MASK && frac_field(x) != 0
}

/// The encoded double compares strictly below zero under IEEE `<`
/// (so neither NaN nor the negative zero pattern).
pub open spec fn lt_zero(x: u64) -> bool {
    sign_bit(x) && !is_nan(x) && x != SIGN_PAT
}

/// The magnitude of the exact mathematical integer a pattern encodes,
/// disregarding its sign bit, if it encodes one. A finite double is
/// `(-1)^s * (2^52 + m) * 2^(e - 1075)` for biased exponent `e >= 1` and
/// fraction `m`; zero has `e == 0, m == 0`, and no subnormal other than
/// zero is an integer.
pub open spec fn mag_val(x: u64) -> Option<int> {
    let e = exp_field(x) as int;
    let m = frac_field(x) as int;
    if e == 0 {
        if m == 0 {
            Some(0int)
        } else {
            None
        }
    } else if e == EXP_MASK {
        None
    } else if e < 1023 {
        None
    } else if e >= 1075 {
        Some((pow2(52) + m) * pow2((e - 1075) as nat))
    } else if m % (pow2((1075 - e) as nat) as int) == 0 {
        Some((pow2(52) + m) as int / pow2((1075 - e) as nat) as int)
    } else {
        None
    }
}

/// The exact mathematical integer a pattern encodes, if it encodes one.
pub open spec fn int_val(x: u64) -> Option<int> {
    match mag_val(x) {
        Some(v) => Some(
            if sign_bit(x) {
                -v
            } else {
                v
            },
        ),
        None => None,
    }
}

/// Position of the highest set bit of a byte value (0 for the value 1).
pub open spec fn byte_exp(b: u8) -> nat {
    if b >= 128 {
        7
    } else if b >= 64 {
        6
    } else if b >= 32 {
        5
    } else if b >= 16 {
        4
    } else if b >= 8 {
        3
    } else if b >= 4 {
        2
    } else if b >= 2 {
        1
    } else {
        0
    }
}

/// The canonical double pattern of a byte value: the unique pattern `p`
/// with `int_val(p) == Some(b)` that promotion from byte storage to
/// number storage produces.
pub open spec fn byte_bits(b: u8) -> u64 {
    if b == 0 {
        0u64
    } else {
        let e = byte_exp(b);
        (((1023 + e) * pow2(52) + (b - pow2(e)) * pow2((52 - e) as nat)) as int) as u64
    }
}

/// Key realising the IEEE total order on patterns: comparing keys as
/// unsigned integers orders the encoded doubles by the IEEE-754
/// `totalOrder` predicate.
pub open spec fn num_key(x: u64) -> u64 {
    if sign_bit(x) {
        !x
    } else {
        x ^ SIGN_PAT
    }
}

/// Exponent field, extracted executably.
pub fn exp_field_of(x: u64) -> (r: u64)
    ensures
        r == exp_field(x),
{
    (x >> 52u64) & EXP_MASK
}

/// Fraction field, extracted executably.
pub fn frac_field_of(x: u64) -> (r: u64)
    ensures
        r == frac_field(x),
{
    x & FRAC_MASK
}

/// Whether the encoded double is strictly negative.
pub fn is_lt_zero(x: u64) -> (r: bool)
    ensures
        r == lt_zero(x),
{
    (x >> 63u64 == 1) && !(((x >> 52u64) & EXP_MASK) == EXP_MASK && x & FRAC_MASK != 0) && x
        != SIGN_PAT
}

/// The total-order key of a pattern.
pub fn num_key_of(x: u64) -> (r: u64)
    ensures
        r == num_key(x),
{
    if x >> 63u64 == 1 {
        !x
    } else {
        x ^ SIGN_PAT
    }
}

/// The canonical pattern of a byte value; computes `byte_bits`.
pub fn byte_to_bits(b: u8) -> (r: u64)
    ensures
        r == byte_bits(b),
{
    if b == 0 {
        return 0;
    }
    let e: u64 = if b >= 128 {
        7
    } else if b >= 64 {
        6
    } else if b >= 32 {
        5
    } else if b >= 16 {
        4
    } else if b >= 8 {
        3
    } else if b >= 4 {
        2
    } else if b >= 2 {
        1
    } else {
        0
    };
    let hi: u64 = (1023 + e) << 52u64;
    proof {
        lemma2_to64();
        lemma2_to64_rest();
        assert(e == byte_exp(b) && b >= pow2(byte_exp(b)) && b < pow2((byte_exp(b) + 1) as nat));
        lemma_u64_shl_is_mul(1u64, e);
        assert((b - pow2(e as nat)) * pow2((52 - e) as nat) < pow2((e + 1) as nat) * pow2(
            (52 - e) as nat,
        )) by {
            lemma_pow2_pos((52 - e) as nat);
            vstd::arithmetic::mul::lemma_mul_strict_inequality(
                (b - pow2(e as nat)) as int,
                pow2((e + 1) as nat) as int,
                pow2((52 - e) as nat) as int,
            );
        };
        lemma_pow2_adds((e + 1) as nat, (52 - e) as nat);
        lemma_u64_shl_is_mul((b - pow2(e as nat) as u64) as u64, (52 - e) as u64);
        lemma_u64_shl_is_mul((1023 + e) as u64, 52);
    }
    let lo: u64 = ((b as u64) - (1u64 << e)) << (52 - e);
    hi + lo
}

/// Promotion from byte storage to number storage is value-preserving:
/// the canonical pattern of a byte encodes exactly that integer.
pub proof fn lemma_byte_bits_val(b: u8)
    ensures
        int_val(byte_bits(b)) == Some(b as int),
        !sign_bit(byte_bits(b)),
{
    lemma2_to64();
    lemma2_to64_rest();
    if b == 0 {
        assert(0u64 >> 52 == 0 && 0u64 & EXP_MASK == 0 && 0u64 & FRAC_MASK == 0 && 0u64 >> 63 == 0)
            by (bit_vector);
    } else {
        let e = byte_exp(b);
        let q: int = 1023 + e as int;
        let lo: int = (b - pow2(e)) * pow2((52 - e) as nat);
        let y: int = q * pow2(52) + lo;
        assert(b >= pow2(e) && b < pow2((e + 1) as nat));
        assert(lo < pow2(52)) by {
            lemma_pow2_pos((52 - e) as nat);
            vstd::arithmetic::mul::lemma_mul_strict_inequality(
                (b - pow2(e)) as int,
                pow2(e) as int,
                pow2((52 - e) as nat) as int,
            );
            lemma_pow2_adds(e, (52 - e) as nat);
        };
        assert(lo >= 0) by {
            vstd::arithmetic::mul::lemma_mul_nonnegative(
                (b - pow2(e)) as int,
                pow2((52 - e) as nat) as int,
            );
        };
        assert(y < pow2(63)) by {
            vstd::arithmetic::mul::lemma_mul_inequality(q, 2046, pow2(52) as int);
            lemma_pow2_adds(11, 52);
        };
        let yu: u64 = byte_bits(b);
        assert(yu == y);
        assert(yu >> 52 == q) by {
            lemma_u64_shr_is_div(yu, 52);
            lemma_fundamental_div_mod_converse(y, pow2(52) as int, q, lo);
        };
        assert((yu >> 52) & EXP_MASK == yu >> 52) by (bit_vector)
            requires
                yu >> 52 < 2048,
        ;
        assert(frac_field(yu) == lo) by {
            assert(FRAC_MASK == low_bits_mask(52));
            lemma_u64_low_bits_mask_is_mod(yu, 52);
            lemma_fundamental_div_mod_converse(y, pow2(52) as int, q, lo);
        };
        assert(yu >> 63 == 0) by {
            lemma_u64_shr_is_div(yu, 63);
            vstd::arithmetic::div_mod::lemma_basic_div(y, pow2(63) as int);
        };
        assert(exp_field(yu) == q && 1023 <= q <= 1030);
        let fr = (52 - e) as nat;
        assert(lo % (pow2(fr) as int) == 0) by {
            vstd::arithmetic::div_mod::lemma_mod_multiples_basic(
                (b - pow2(e)) as int,
                pow2(fr) as int,
            );
        };
        assert(pow2(52) + lo == b * pow2(fr)) by {
            lemma_pow2_adds(e, fr);
            vstd::arithmetic::mul::lemma_mul_is_distributive_sub_other_way(
                pow2(fr) as int,
                b as int,
                pow2(e) as int,
            );
        };
        assert((b * pow2(fr)) / (pow2(fr) as int) == b) by {
            lemma_pow2_pos(fr);
            lemma_div_by_multiple(b as int, pow2(fr) as int);
        };
        assert(mag_val(yu) == Some(b as int));
    }
}

/// Whether the pattern encodes an exact integer, and its saturated
/// magnitude: `Some(v)` when the encoded double is the integer of
/// absolute value `v`, with `v` capped at `u64::MAX`.
pub fn decode_mag(x: u64) -> (r: Option<u64>)
    ensures
        match mag_val(x) {
            Some(a) => r == Some(
                (if a > u64::MAX {
                    u64::MAX as int
                } else {
                    a
                }) as u64,
            ),
            None => r is None,
        },
{
    let e = exp_field_of(x);
    let m = frac_field_of(x);
    proof {
        lemma2_to64();
        lemma2_to64_rest();
        assert(m <= FRAC_MASK && e <= EXP_MASK) by (bit_vector)
            requires
                e == (x >> 52) & EXP_MASK && m == x & FRAC_MASK,
        ;
    }
    if e == 0 {
        if m == 0 {
            Some(0)
        } else {
            None
        }
    } else if e == EXP_MASK {
        None
    } else if e < 1023 {
        None
    } else if e >= 1075 {
        if e >= 1087 {
            proof {
                let p: int = (pow2(52) + m) * pow2((e - 1075) as nat);
                assert(p > u64::MAX) by {
                    if e > 1087 {
                        lemma_pow2_strictly_increases(12, (e - 1075) as nat);
                    }
                    vstd::arithmetic::mul::lemma_mul_inequality(
                        pow2(12) as int,
                        pow2((e - 1075) as nat) as int,
                        pow2(52) as int,
                    );
                    vstd::arithmetic::mul::lemma_mul_inequality(
                        pow2(52) as int,
                        (pow2(52) + m) as int,
                        pow2((e - 1075) as nat) as int,
                    );
                    vstd::arithmetic::mul::lemma_mul_is_commutative(
                        pow2(52) as int,
                        pow2((e - 1075) as nat) as int,
                    );
                    lemma_pow2_adds(52, 12);
                };
            }
            Some(u64::MAX)
        } else {
            let v: u64 = (1u64 << 52u64) | m;
            proof {
                assert(v == 0x10_0000_0000_0000u64 + m) by (bit_vector)
                    requires
                        v == (1u64 << 52u64) | m && m <= 0xf_ffff_ffff_ffffu64,
                ;
                assert(v * pow2((e - 1075) as nat) <= u64::MAX) by {
                    lemma_pow2_adds(53, 11);
                    vstd::arithmetic::mul::lemma_mul_strict_inequality(
                        v as int,
                        pow2(53) as int,
                        pow2((e - 1075) as nat) as int,
                    );
                    lemma_pow2_pos((e - 1075) as nat);
                    if e - 1075 < 11 {
                        lemma_pow2_strictly_increases((e - 1075) as nat, 11);
                    }
                    vstd::arithmetic::mul::lemma_mul_inequality(
                        pow2((e - 1075) as nat) as int,
                        pow2(11) as int,
                        pow2(53) as int,
                    );
                    vstd::arithmetic::mul::lemma_mul_is_commutative(pow2(53) as int, pow2(11) as int);
                };
                lemma_u64_shl_is_mul(v, (e - 1075) as u64);
            }
            Some(v << (e - 1075))
        }
    } else {
        let frac: u64 = 1075 - e;
        proof {
            lemma_u64_shl_is_mul(1u64, frac);
            lemma_pow2_pos(frac as nat);
        }
        let mask: u64 = (1u64 << frac) - 1;
        proof {
            assert(mask == low_bits_mask(frac as nat));
            lemma_u64_low_bits_mask_is_mod(m, frac as nat);
        }
        if m & mask != 0 {
            None
        } else {
            let v: u64 = (1u64 << 52u64) | m;
            proof {
                assert(v == 0x10_0000_0000_0000u64 + m) by (bit_vector)
                    requires
                        v == (1u64 << 52u64) | m && m <= 0xf_ffff_ffff_ffffu64,
                ;
                lemma_u64_shr_is_div(v, frac);
            }
            Some(v >> frac)
        }
    }
}

/// An encoded magnitude is never negative.
pub proof fn lemma_mag_val_nonneg(x: u64)
    ensures
        mag_val(x) is Some ==> mag_val(x)->Some_0 >= 0,
{
    let e = exp_field(x) as int;
    let m = frac_field(x) as int;
    if mag_val(x) is Some {
        if e == 0 {
        } else if e >= 1075 {
            vstd::arithmetic::mul::lemma_mul_nonnegative(
                (pow2(52) + m) as int,
                pow2((e - 1075) as nat) as int,
            );
        } else if e >= 1023 {
            lemma_pow2_pos((1075 - e) as nat);
            vstd::arithmetic::div_mod::lemma_div_pos_is_pos(
                (pow2(52) + m) as int,
                pow2((1075 - e) as nat) as int,
            );
        }
    }
}

/// How `as u8` converts a double: NaN and everything at or below zero to
/// 0, everything at or above 255 to 255, and otherwise the integer part.
pub open spec fn cast_u8(x: u64) -> u8 {
    let e = exp_field(x) as int;
    let m = frac_field(x) as int;
    if e == EXP_MASK && m != 0 {
        0u8
    } else if sign_bit(x) {
        0u8
    } else if e == EXP_MASK {
        255u8
    } else if e < 1023 {
        0u8
    } else if e >= 1031 {
        255u8
    } else {
        (((pow2(52) + m) as int / pow2((1075 - e) as nat) as int)) as u8
    }
}

/// Converts a pattern as `as u8` does; computes `cast_u8`.
pub fn cast_u8_of(x: u64) -> (r: u8)
    ensures
        r == cast_u8(x),
{
    let e = exp_field_of(x);
    let m = frac_field_of(x);
    proof {
        lemma2_to64();
        lemma2_to64_rest();
        assert(m <= FRAC_MASK && e <= EXP_MASK) by (bit_vector)
            requires
                e == (x >> 52) & EXP_MASK && m == x & FRAC_MASK,
        ;
    }
    if e == EXP_MASK && m != 0 {
        0
    } else if x >> 63u64 == 1 {
        0
    } else if e == EXP_MASK {
        255
    } else if e < 1023 {
        0
    } else if e >= 1031 {
        255
    } else {
        let frac: u64 = 1075 - e;
        let v: u64 = (1u64 << 52u64) | m;
        proof {
            assert(v == 0x10_0000_0000_0000u64 + m) by (bit_vector)
                requires
                    v == (1u64 << 52u64) | m && m <= 0xf_ffff_ffff_ffffu64,
            ;
            lemma_u64_shr_is_div(v, frac);
            let p: int = (pow2(52) + m) as int / pow2(frac as nat) as int;
            assert((v >> frac) == p);
            assert(p < pow2((e - 1023 + 1) as nat)) by {
                lemma_pow2_pos(frac as nat);
                lemma_pow2_adds(frac as nat, (e - 1023 + 1) as nat);
                vstd::arithmetic::div_mod::lemma_multiply_divide_lt(
                    (pow2(52) + m) as int,
                    pow2(frac as nat) as int,
                    pow2((e - 1023 + 1) as nat) as int,
                );
            };
        }
        (v >> frac) as u8
    }
}

/// The total-order key with the two zero patterns collapsed: negative
/// zero keys as positive zero, so byte storage of 0 and either numeric
/// zero agree. Structural equality, order and hashing use this key.
pub open spec fn norm_key(x: u64) -> u64 {
    if x == SIGN_PAT {
        num_key(0)
    } else {
        num_key(x)
    }
}

/// The zero-collapsed key, computed.
pub fn norm_key_of(x: u64) -> (r: u64)
    ensures
        r == norm_key(x),
{
    if x == SIGN_PAT {
        num_key_of(0)
    } else {
        num_key_of(x)
    }
}

/// The pattern encodes an integer in the byte range 0..=255; the
/// negative zero pattern qualifies, as the integer 0.
pub open spec fn is_small_nat(x: u64) -> bool {
    int_val(x) matches Some(k) && 0 <= k <= 255
}

/// The byte value such a pattern stores.
pub open spec fn small_nat_byte(x: u64) -> u8 {
    int_val(x)->Some_0 as u8
}

/// A nonzero encoded magnitude comes from a nonzero field pair.
proof fn lemma_mag_pos(x: u64)
    requires
        mag_val(x) is Some,
        !(exp_field(x) == 0 && frac_field(x) == 0),
    ensures
        mag_val(x)->Some_0 >= 1,
{
    lemma2_to64();
    lemma2_to64_rest();
    let e = exp_field(x) as int;
    let m = frac_field(x) as int;
    if e >= 1075 {
        lemma_pow2_pos((e - 1075) as nat);
        vstd::arithmetic::mul::lemma_mul_inequality(
            1,
            pow2((e - 1075) as nat) as int,
            (pow2(52) + m) as int,
        );
        vstd::arithmetic::mul::lemma_mul_is_commutative(
            pow2((e - 1075) as nat) as int,
            (pow2(52) + m) as int,
        );
    } else if 1023 <= e && e < 1075 {
        let t = pow2((1075 - e) as nat) as int;
        lemma_pow2_pos((1075 - e) as nat);
        if 1075 - e < 52 {
            lemma_pow2_strictly_increases((1075 - e) as nat, 52);
        }
        vstd::arithmetic::div_mod::lemma_div_non_zero((pow2(52) + m) as int, t);
    }
}

/// Whether the pattern encodes an integer in 0..=255, and which.
pub fn decode_small_nat(x: u64) -> (r: Option<u8>)
    ensures
        match r {
            Some(b) => is_small_nat(x) && b == small_nat_byte(x),
            None => !is_small_nat(x),
        },
{
    if is_lt_zero(x) {
        proof {
            lemma_mag_val_nonneg(x);
            if int_val(x) is Some {
                if exp_field(x) == 0 && frac_field(x) == 0 {
                    assert(x == SIGN_PAT) by (bit_vector)
                        requires
                            x >> 63 == 1 && (x >> 52) & 0x7ffu64 == 0 && x & 0xf_ffff_ffff_ffffu64
                                == 0,
                    ;
                } else {
                    lemma_mag_pos(x);
                }
            }
        }
        return None;
    }
    match decode_mag(x) {
        None => None,
        Some(mag) => {
            proof {
                lemma_mag_val_nonneg(x);
                if sign_bit(x) {
                    assert(x == SIGN_PAT);
                    assert(exp_field(x) == 0 && frac_field(x) == 0) by (bit_vector)
                        requires
                            x == 0x8000_0000_0000_0000u64,
                    ;
                }
            }
            if mag <= 255 {
                Some(mag as u8)
            } else {
                None
            }
        },
    }
}

/// Double encodings are unique: any pattern other than the negative
/// zero that encodes an integer in 0..=255 is that byte's canonical
/// pattern.
pub proof fn lemma_small_nat_canonical(x: u64)
    requires
        is_small_nat(x),
        x != SIGN_PAT,
    ensures
        x == byte_bits(small_nat_byte(x)),
{
    lemma2_to64();
    lemma2_to64_rest();
    let e = exp_field(x) as int;
    let m = frac_field(x) as int;
    let k = int_val(x)->Some_0;
    lemma_mag_val_nonneg(x);
    assert((x >> 52) & 0x7ffu64 <= 0x7ff && x & 0xf_ffff_ffff_ffffu64 <= 0xf_ffff_ffff_ffff)
        by (bit_vector);
    if sign_bit(x) {
        if e == 0 && m == 0 {
            assert(x == SIGN_PAT) by (bit_vector)
                requires
                    x >> 63 == 1 && (x >> 52) & 0x7ffu64 == 0 && x & 0xf_ffff_ffff_ffffu64 == 0,
            ;
        } else {
            lemma_mag_pos(x);
        }
    } else {
        assert(k == mag_val(x)->Some_0);
        if e == 0 {
            assert(k == 0);
            assert(x == 0) by (bit_vector)
                requires
                    !(x >> 63 == 1) && (x >> 52) & 0x7ffu64 == 0 && x & 0xf_ffff_ffff_ffffu64
                        == 0,
            ;
            assert(small_nat_byte(x) == 0);
        } else if e >= 1075 {
            lemma_pow2_pos((e - 1075) as nat);
            vstd::arithmetic::mul::lemma_mul_inequality(
                1,
                pow2((e - 1075) as nat) as int,
                (pow2(52) + m) as int,
            );
            vstd::arithmetic::mul::lemma_mul_is_commutative(
                pow2((e - 1075) as nat) as int,
                (pow2(52) + m) as int,
            );
            assert(k >= pow2(52));
            assert(false);
        } else {
            let fr = (1075 - e) as nat;
            let t = pow2(fr) as int;
            let b2 = pow2((e - 1023) as nat) as int;
            lemma_pow2_pos(fr);
            lemma_pow2_pos((e - 1023) as nat);
            lemma_pow2_adds((e - 1023) as nat, fr);
            assert(b2 * t == pow2(52));
            // the numerator splits exactly at the fraction boundary
            assert(m == (m / t) * t) by {
                vstd::arithmetic::div_mod::lemma_fundamental_div_mod(m, t);
            };
            assert(pow2(52) + m == (b2 + m / t) * t) by {
                vstd::arithmetic::mul::lemma_mul_is_distributive_add_other_way(t, b2, m / t);
            };
            assert(k == b2 + m / t) by {
                lemma_div_by_multiple((b2 + m / t) as int, t);
            };
            assert(m / t >= 0) by {
                vstd::arithmetic::div_mod::lemma_div_pos_is_pos(m, t);
            };
            assert(m / t < b2) by {
                vstd::arithmetic::mul::lemma_mul_is_commutative(b2, t);
                vstd::arithmetic::div_mod::lemma_multiply_divide_lt(m, t, b2);
            };
            // so 2^(e-1023) <= k < 2^(e-1022), forcing the byte exponent
            assert(b2 <= k < 2 * b2);
            if e - 1023 >= 8 {
                if e - 1023 > 8 {
                    lemma_pow2_strictly_increases(8, (e - 1023) as nat);
                }
                assert(b2 >= 256);
                assert(false);
            }
            let b = (k as u8);
            assert(b == small_nat_byte(x));
            assert(byte_exp(b) == (e - 1023) as nat);
            assert(b - pow2(byte_exp(b)) == m / t);
            assert((b - pow2(byte_exp(b))) * pow2((52 - byte_exp(b)) as nat) == m) by {
                vstd::arithmetic::mul::lemma_mul_is_commutative(m / t, t);
            };
            assert(byte_bits(b) == ((1023 + byte_exp(b)) * pow2(52) + (b - pow2(byte_exp(b)))
                * pow2((52 - byte_exp(b)) as nat)) as int as u64);
            assert((1023 + byte_exp(b)) * pow2(52) + m < pow2(63)) by {
                vstd::arithmetic::mul::lemma_mul_inequality(
                    (1023 + byte_exp(b)) as int,
                    2046,
                    pow2(52) as int,
                );
                lemma_pow2_adds(11, 52);
            };
            assert(x == (e * pow2(52) + m) as int as u64) by {
                assert(pow2(52) == 0x10_0000_0000_0000);
                assert(x == ((x >> 52) & 0x7ffu64) * 0x10_0000_0000_0000u64 + (x
                    & 0xf_ffff_ffff_ffffu64)) by (bit_vector)
                    requires
                        !(x >> 63 == 1),
                ;
                vstd::arithmetic::mul::lemma_mul_inequality(e, 2046, pow2(52) as int);
                lemma_pow2_adds(11, 52);
            };
        }
    }
}

} // verus!
