//! The fixed-point scale, division with a stated rounding, and the reading
//! of binary64 numbers onto the fixed-point grid.

use vstd::prelude::*;
use vstd::arithmetic::div_mod::lemma_fundamental_div_mod_converse_div;
use vstd::arithmetic::power2::{lemma2_to64, lemma2_to64_rest, lemma_pow2_strictly_increases, lemma_pow2_unfold, pow2};
use vstd::bits::{lemma_u64_shl_is_mul, lemma_u64_shr_is_div};

verus! {

/// Number of fractional bits of a fixed-point coordinate.
pub const FRACTION_BITS: u32 = 24;

/// The fixed-point number that stands for 1.
pub const ONE: i64 = 16_777_216;

/// The fixed-point number that stands for one half.
pub const HALF: i64 = 8_388_608;

/// Quotient of `a` by a positive `b`, rounded toward negative infinity.
pub fn div_floor(a: i128, b: i128) -> (q: i128)
    requires
        b > 0,
    ensures
        q == a / b,
{
    if a >= 0 {
        a / b
    } else {
        // a == -1 - m with m >= 0, so floor(a / b) == -1 - floor(m / b).
        let m: i128 = -1 - a;
        let k: i128 = m / b;
        proof {
            let r = m as int % b as int;
            assert(m as int == (m as int / b as int) * b as int + r && 0 <= r < b) by (nonlinear_arith)
                requires
                    b > 0,
                    r == m as int % b as int,
            ;
            assert(a as int == (-1 - k) * b + (b - 1 - r)) by (nonlinear_arith)
                requires
                    m as int == k * b + r,
                    a == -1 - m,
            ;
            lemma_fundamental_div_mod_converse_div(a as int, b as int, -1 - k, b - 1 - r);
        }
        -1 - k
    }
}

/// The exponent field of a binary64 number: bits 52 to 62.
pub open spec fn double_exponent(bits: u64) -> int {
    (bits as int / 0x10_0000_0000_0000) % 0x800
}

/// The fraction field of a binary64 number: bits 0 to 51.
pub open spec fn double_fraction(bits: u64) -> int {
    bits as int % 0x10_0000_0000_0000
}

/// Whether the sign bit of a binary64 number is set.
pub open spec fn double_is_negative(bits: u64) -> bool {
    bits >= 0x8000_0000_0000_0000
}

/// Whether a binary64 number is neither an infinity nor a NaN.
pub open spec fn double_is_finite(bits: u64) -> bool {
    double_exponent(bits) != 0x7ff
}

/// The significand of a finite binary64 number, with the implicit leading
/// bit of a normal number written out. The magnitude of the number is
/// `double_significand * 2^(double_power - 1075)`.
pub open spec fn double_significand(bits: u64) -> int {
    if double_exponent(bits) == 0 {
        double_fraction(bits)
    } else {
        0x10_0000_0000_0000 + double_fraction(bits)
    }
}

/// The power of a finite binary64 number: its exponent field, or 1 for a
/// subnormal number.
pub open spec fn double_power(bits: u64) -> int {
    if double_exponent(bits) == 0 {
        1
    } else {
        double_exponent(bits)
    }
}

/// The magnitude of a finite binary64 number in fixed-point steps, that is
/// times `2^24`, rounded to the nearest step and up from the middle between
/// two steps. In steps the magnitude is `double_significand * 2^(double_power
/// - 1051)`, 1051 being 1075 less the [`FRACTION_BITS`].
pub open spec fn double_scaled_magnitude(bits: u64) -> int {
    let significand = double_significand(bits);
    let power = double_power(bits);
    if power >= 1051 {
        significand * pow2((power - 1051) as nat)
    } else {
        (significand + pow2((1050 - power) as nat)) / (pow2((1051 - power) as nat) as int)
    }
}

/// The 32-bit value nearest to `value`.
pub open spec fn clamp_to_coordinate(value: int) -> i32 {
    if value < i32::MIN {
        i32::MIN
    } else if value > i32::MAX {
        i32::MAX
    } else {
        value as i32
    }
}

/// The fixed-point coordinate that stands for a binary64 number given by
/// its bits: the nearest step of the grid, halves rounded away from zero,
/// held to the 32-bit range. Infinities and NaNs stand for no coordinate.
pub open spec fn spec_from_double_bits(bits: u64) -> Option<i32> {
    if !double_is_finite(bits) {
        None
    } else if double_is_negative(bits) {
        Some(clamp_to_coordinate(-double_scaled_magnitude(bits)))
    } else {
        Some(clamp_to_coordinate(double_scaled_magnitude(bits)))
    }
}

proof fn lemma_pow2_increases(e1: nat, e2: nat)
    requires
        e1 <= e2,
    ensures
        0 < pow2(e1) <= pow2(e2),
{
    vstd::arithmetic::power2::lemma_pow2_pos(e1);
    if e1 < e2 {
        lemma_pow2_strictly_increases(e1, e2);
    }
}

/// A normal number of power 1030 or more has a magnitude of `2^31` steps or
/// more.
proof fn lemma_large_magnitude(significand: int, power: int)
    requires
        0x10_0000_0000_0000 <= significand,
        1030 <= power,
    ensures
        power >= 1051 ==> significand * pow2((power - 1051) as nat) >= 0x8000_0000,
        power < 1051 ==> (significand + pow2((1050 - power) as nat)) / (pow2((1051 - power) as nat) as int)
            >= 0x8000_0000,
{
    lemma2_to64();
    if power >= 1051 {
        let scale = pow2((power - 1051) as nat) as int;
        lemma_pow2_increases(0, (power - 1051) as nat);
        assert(significand * scale >= 0x8000_0000) by (nonlinear_arith)
            requires
                0x10_0000_0000_0000 <= significand,
                1 <= scale,
        ;
    } else {
        let half = pow2((1050 - power) as nat) as int;
        let step = pow2((1051 - power) as nat) as int;
        lemma_pow2_increases((1050 - power) as nat, (1051 - power) as nat);
        lemma_pow2_increases((1051 - power) as nat, 21);
        assert((significand + half) / step >= 0x8000_0000) by (nonlinear_arith)
            requires
                0x10_0000_0000_0000 <= significand,
                0 < half,
                0 < step <= 0x20_0000,
        ;
    }
}

/// A magnitude below half of the smallest step rounds to no step at all.
proof fn lemma_tiny_magnitude(significand: int, shift: int)
    requires
        0 <= significand < 0x20_0000_0000_0000,
        shift > 63,
    ensures
        (significand + pow2((shift - 1) as nat)) / (pow2(shift as nat) as int) == 0,
{
    lemma2_to64_rest();
    let half = pow2((shift - 1) as nat) as int;
    let step = pow2(shift as nat) as int;
    lemma_pow2_increases(63, (shift - 1) as nat);
    lemma_pow2_unfold(shift as nat);
    assert((significand + half) / step == 0) by (nonlinear_arith)
        requires
            0 <= significand < half,
            step == 2 * half,
    ;
}

/// Reads a binary64 number, given by its bits, onto the fixed-point grid.
pub fn from_double_bits(bits: u64) -> (coordinate: Option<i32>)
    ensures
        coordinate == spec_from_double_bits(bits),
{
    let exponent: u64 = (bits >> 52) & 0x7ff;
    let fraction: u64 = bits & 0xf_ffff_ffff_ffff;
    assert((bits >> 52) & 0x7ff == (bits / 0x10_0000_0000_0000) % 0x800) by (bit_vector);
    assert(bits & 0xf_ffff_ffff_ffff == bits % 0x10_0000_0000_0000) by (bit_vector);
    if exponent == 0x7ff {
        return None;
    }
    let significand: u64 = if exponent == 0 {
        fraction
    } else {
        fraction + 0x10_0000_0000_0000
    };
    let power: u64 = if exponent == 0 {
        1
    } else {
        exponent
    };
    // The magnitude in steps, or 2^31 where it is that or more. From power
    // 1030 on it is: the significand of a normal number is at least 2^52,
    // and 52 + 1030 - 1051 is 31.
    let magnitude: u64 = if power >= 1030 {
        proof {
            lemma_large_magnitude(significand as int, power as int);
        }
        0x8000_0000
    } else {
        let shift: u64 = 1051 - power;
        if shift > 63 {
            proof {
                lemma_tiny_magnitude(significand as int, shift as int);
            }
            0
        } else {
            proof {
                lemma2_to64();
                lemma2_to64_rest();
                lemma_pow2_increases((shift - 1) as nat, 62);
                lemma_pow2_increases(22, shift as nat);
                lemma_pow2_increases((shift - 1) as nat, shift as nat);
                lemma_u64_shl_is_mul(1, (shift - 1) as u64);
            }
            let half: u64 = 1u64 << (shift - 1);
            let rounded: u64 = (significand + half) >> shift;
            proof {
                lemma_u64_shr_is_div((significand + half) as u64, shift);
                let step = pow2(shift as nat) as int;
                assert((significand + half) / step <= 0x8000_0000) by (nonlinear_arith)
                    requires
                        0 <= significand < 0x20_0000_0000_0000,
                        0 < half < step,
                        0x40_0000 <= step,
                ;
            }
            rounded
        }
    };
    assert(magnitude == (if double_scaled_magnitude(bits) >= 0x8000_0000 {
        0x8000_0000
    } else {
        double_scaled_magnitude(bits)
    }));
    if bits >= 0x8000_0000_0000_0000 {
        if magnitude >= 0x8000_0000 {
            Some(i32::MIN)
        } else {
            Some(-(magnitude as i32))
        }
    } else {
        if magnitude >= 0x8000_0000 {
            Some(i32::MAX)
        } else {
            Some(magnitude as i32)
        }
    }
}

} // verus!
