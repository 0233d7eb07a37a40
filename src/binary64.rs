//! IEEE 754 binary64 values held as their 64-bit encodings, with the real
//! number each encoding denotes, and the comparisons that the scan needs.

use vstd::arithmetic::power2::{lemma2_to64, lemma2_to64_rest, lemma_pow2_strictly_increases, pow2};
use vstd::prelude::*;

verus! {

/// Encoding of the largest latitude of the scan, 90.0 degrees.
pub const LATITUDE_LIMIT_BITS: u64 = 0x4056_8000_0000_0000;

/// Encoding of negative infinity: every encoding from the sign bit up to
/// this one is a negative number (or negative zero).
const NEGATIVE_INFINITY_BITS: u64 = 0xfff0_0000_0000_0000;

/// The sign bit of an encoding: 1 for negative numbers and negative zero.
pub open spec fn sign_bit(x: u64) -> int {
    x as int / 0x8000_0000_0000_0000
}

/// The 11-bit biased exponent field.
pub open spec fn exponent_field(x: u64) -> int {
    (x as int / 0x10_0000_0000_0000) % 0x800
}

/// The 52-bit fraction field.
pub open spec fn fraction_field(x: u64) -> int {
    x as int % 0x10_0000_0000_0000
}

/// Not a number: all exponent bits set and a non-zero fraction.
pub open spec fn is_nan(x: u64) -> bool {
    exponent_field(x) == 0x7ff && fraction_field(x) != 0
}

/// Positive or negative infinity.
pub open spec fn is_infinite(x: u64) -> bool {
    exponent_field(x) == 0x7ff && fraction_field(x) == 0
}

/// The integer significand: the fraction, with the implicit leading bit for
/// normal numbers.
pub open spec fn significand(x: u64) -> int {
    if exponent_field(x) == 0 {
        fraction_field(x)
    } else {
        fraction_field(x) + 0x10_0000_0000_0000
    }
}

/// The power of two that scales the significand: a finite encoding denotes
/// `(-1)^sign_bit * significand * 2^scale`.
pub open spec fn scale(x: u64) -> int {
    if exponent_field(x) == 0 {
        -1074
    } else {
        exponent_field(x) - 1075
    }
}

/// For a finite encoding: its absolute value is at most `k`.
pub open spec fn magnitude_at_most(x: u64, k: nat) -> bool {
    if scale(x) >= 0 {
        significand(x) * pow2(scale(x) as nat) <= k
    } else {
        significand(x) <= k * pow2((-scale(x)) as nat)
    }
}

/// The encoding denotes a number greater than zero (infinity included).
pub open spec fn is_positive(x: u64) -> bool {
    !is_nan(x) && sign_bit(x) == 0 && significand(x) > 0
}

/// The encoding denotes a number that compares as at most `k`: it is not a
/// NaN, and it is negative (negative infinity and negative zero included) or
/// finite with absolute value at most `k`.
pub open spec fn at_most(x: u64, k: nat) -> bool {
    &&& !is_nan(x)
    &&& (sign_bit(x) == 1 || (!is_infinite(x) && magnitude_at_most(x, k)))
}

/// An acceptable increment of the scan: greater than 0 and at most 90 degrees.
pub open spec fn valid_increment(x: u64) -> bool {
    is_positive(x) && at_most(x, 90)
}

/// The encoding split into its three fields.
proof fn lemma_fields(x: u64)
    ensures
        0 <= sign_bit(x) <= 1,
        0 <= exponent_field(x) < 0x800,
        0 <= fraction_field(x) < 0x10_0000_0000_0000,
        x as int == sign_bit(x) * 0x8000_0000_0000_0000 + exponent_field(x) * 0x10_0000_0000_0000
            + fraction_field(x),
{
}

/// A non-negative finite encoding is at most 90 exactly when its bit pattern
/// is at most that of 90.0: below the exponent of 90 every value is under 64,
/// above it every value is at least 128.
proof fn lemma_non_negative_at_most_limit(x: u64)
    requires
        sign_bit(x) == 0,
        exponent_field(x) < 0x7ff,
    ensures
        magnitude_at_most(x, 90) <==> x <= LATITUDE_LIMIT_BITS,
{
    lemma_fields(x);
    lemma2_to64();
    lemma2_to64_rest();
    let e = exponent_field(x);
    let s = significand(x);
    if e < 1029 {
        let n = (-scale(x)) as nat;
        assert(n >= 47);
        if n > 47 {
            lemma_pow2_strictly_increases(47, n);
        }
        assert(s < 0x20_0000_0000_0000);
        assert(s <= 90 * pow2(n));
    } else if e == 1029 {
        assert(pow2(46) == 0x4000_0000_0000);
    } else {
        assert(s >= 0x10_0000_0000_0000);
        if scale(x) >= 0 {
            let p = pow2(scale(x) as nat);
            assert(p >= 1) by {
                if scale(x) > 0 {
                    lemma_pow2_strictly_increases(0, scale(x) as nat);
                }
            }
            assert(s * p >= s) by (nonlinear_arith)
                requires
                    p >= 1,
                    s >= 0,
            ;
        } else {
            let n = (-scale(x)) as nat;
            assert(n <= 45);
            if n < 45 {
                lemma_pow2_strictly_increases(n, 45);
            }
            assert(90 * pow2(n) < s);
        }
    }
}

/// Whether a running latitude of the scan, given in degrees, still lies
/// inside it: the scan goes on while the latitude is at most 90.
pub fn within_scan(latitude: u64) -> (r: bool)
    ensures
        r == at_most(latitude, 90),
{
    proof {
        lemma_fields(latitude);
        if sign_bit(latitude) == 0 && exponent_field(latitude) < 0x7ff {
            lemma_non_negative_at_most_limit(latitude);
        }
    }
    latitude <= LATITUDE_LIMIT_BITS || (0x8000_0000_0000_0000 <= latitude && latitude
        <= NEGATIVE_INFINITY_BITS)
}

/// Whether a requested increment, given in degrees, is acceptable: greater
/// than 0 and at most 90.
pub fn is_valid_increment(increment: u64) -> (r: bool)
    ensures
        r == valid_increment(increment),
{
    proof {
        lemma_fields(increment);
        if sign_bit(increment) == 0 && exponent_field(increment) < 0x7ff {
            lemma_non_negative_at_most_limit(increment);
        }
    }
    0 < increment && increment <= LATITUDE_LIMIT_BITS
}

} // verus!
