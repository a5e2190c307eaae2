//! Reading a double-precision number from its bit pattern with integer
//! arithmetic alone.
//!
//! A pattern holds a sign bit, an exponent field of 11 bits and a fraction
//! of 52 bits. Where the exponent field is not 2047 the pattern stands for
//! the finite number `significand * 2^binary_exponent`.
use vstd::prelude::*;
use vstd::arithmetic::power2::{
    lemma2_to64, lemma_pow2_adds, lemma_pow2_pos, lemma_pow2_strictly_increases, lemma_pow2_unfold,
    pow2,
};
use crate::arith::{floor_div, lemma_mul_bounds, lemma_mul_positive, lemma_small_quotient};

verus! {

/// The exponent field of the pattern.
pub open spec fn exponent_field(bits: u64) -> int {
    (bits as int / 0x10_0000_0000_0000) % 2048
}

/// The fraction field of the pattern.
pub open spec fn fraction_field(bits: u64) -> int {
    bits as int % 0x10_0000_0000_0000
}

/// The sign bit of the pattern is set.
pub open spec fn is_negative(bits: u64) -> bool {
    bits >= 0x8000_0000_0000_0000
}

/// The pattern stands for a number, not for an infinity or a NaN.
pub open spec fn is_finite(bits: u64) -> bool {
    exponent_field(bits) != 2047
}

/// The signed integer that the number is a power of two times. A subnormal
/// number has no implicit leading bit.
pub open spec fn significand(bits: u64) -> int {
    let magnitude = if exponent_field(bits) == 0 {
        fraction_field(bits)
    } else {
        0x10_0000_0000_0000 + fraction_field(bits)
    };
    if is_negative(bits) {
        -magnitude
    } else {
        magnitude
    }
}

/// The power of two that the significand is multiplied by.
pub open spec fn binary_exponent(bits: u64) -> int {
    if exponent_field(bits) == 0 {
        -1074
    } else {
        exponent_field(bits) - 1075
    }
}

/// The finite number of the pattern times `factor / divisor`, rounded down
/// to an integer.
pub open spec fn scaled(bits: u64, factor: int, divisor: int) -> int {
    let e = binary_exponent(bits);
    if e >= 0 {
        (significand(bits) * factor * pow2(e as nat)) / divisor
    } else {
        (significand(bits) * factor) / (divisor * pow2((-e) as nat))
    }
}

/// `scaled`, where the pattern stands for a number and the result fits in
/// 32 bits.
pub open spec fn scale_spec(bits: u64, factor: int, divisor: int) -> Option<i32> {
    if is_finite(bits) && i32::MIN <= scaled(bits, factor, divisor) <= i32::MAX {
        Some(scaled(bits, factor, divisor) as i32)
    } else {
        None
    }
}

/// The pattern stands for a number between -2 and 2, both included: below
/// its sign bit it is no larger than the pattern of 2.
pub open spec fn within_two(bits: u64) -> bool {
    bits as int % 0x8000_0000_0000_0000 <= 0x4000_0000_0000_0000
}

/// A number between -2 and 2, times a factor that is not negative over a
/// divisor of at least 2, lies between the factor and its negation, and so
/// fits in 32 bits.
pub proof fn lemma_scale_within_two(bits: u64, factor: i32, divisor: i32)
    requires
        within_two(bits),
        factor >= 0,
        divisor >= 2,
    ensures
        is_finite(bits),
        scale_spec(bits, factor as int, divisor as int) == Some(
            scaled(bits, factor as int, divisor as int) as i32,
        ),
        -factor <= scaled(bits, factor as int, divisor as int) <= factor,
{
    let low = bits as int % 0x8000_0000_0000_0000;
    let field = exponent_field(bits);
    let fraction = fraction_field(bits);
    assert(field == low / 0x10_0000_0000_0000);
    assert(fraction == low % 0x10_0000_0000_0000);
    assert(field <= 1024);
    assert(field == 1024 ==> fraction == 0);
    let k: nat = (-binary_exponent(bits)) as nat;
    assert(51 <= k <= 1074);
    let m = significand(bits);
    let p = pow2(k) as int;
    lemma2_to64();
    vstd::arithmetic::power2::lemma2_to64_rest();
    if k > 52 {
        lemma_pow2_strictly_increases(52, k);
    }
    assert(-2 * p <= m <= 2 * p);
    lemma_pow2_pos(k);
    lemma_mul_positive(divisor as int, p);
    let d = divisor * p;
    assert(-factor * d <= m * factor <= factor * d) by (nonlinear_arith)
        requires
            -2 * p <= m <= 2 * p,
            p > 0,
            divisor >= 2,
            factor >= 0,
            d == divisor * p,
    ;
    crate::arith::lemma_floor_between(m * factor, d, -(factor as int), factor as int);
}

/// Two to the power `k`.
fn pow2_of(k: u32) -> (p: i128)
    requires
        k <= 100,
    ensures
        p == pow2(k as nat),
        0 < p <= 0x10_0000_0000_0000_0000_0000_0000,
{
    let mut p: i128 = 1;
    let mut i: u32 = 0;
    proof {
        lemma2_to64();
        lemma_pow2_adds(50, 50);
        assert(pow2(100) == 0x10_0000_0000_0000_0000_0000_0000) by {
            assert(pow2(50) == 0x4_0000_0000_0000) by {
                lemma_pow2_adds(32, 18);
            }
            assert(0x4_0000_0000_0000 * 0x4_0000_0000_0000 == 0x10_0000_0000_0000_0000_0000_0000)
                by (nonlinear_arith);
        }
    }
    while i < k
        invariant
            i <= k <= 100,
            p == pow2(i as nat),
            0 < p,
            pow2(100) == 0x10_0000_0000_0000_0000_0000_0000,
        decreases k - i,
    {
        proof {
            lemma_pow2_unfold((i + 1) as nat);
            if i + 1 < 100 {
                lemma_pow2_strictly_increases((i + 1) as nat, 100);
            }
        }
        p = p * 2;
        i += 1;
    }
    proof {
        if k < 100 {
            lemma_pow2_strictly_increases(k as nat, 100);
        }
    }
    p
}

/// Narrows to 32 bits where the value fits.
fn narrow(q: i128) -> (r: Option<i32>)
    ensures
        r == (if i32::MIN <= q <= i32::MAX { Some(q as i32) } else { None::<i32> }),
{
    if q >= -0x8000_0000 && q <= 0x7fff_ffff {
        Some(q as i32)
    } else {
        None
    }
}

/// The number that `bits` stands for, times `factor / divisor`, rounded
/// down: `None` where the pattern is an infinity or a NaN, or where the
/// result does not fit in 32 bits.
pub fn scale(bits: u64, factor: i32, divisor: i32) -> (r: Option<i32>)
    requires
        divisor > 0,
    ensures
        r == scale_spec(bits, factor as int, divisor as int),
{
    let field: u64 = (bits / 0x10_0000_0000_0000) % 2048;
    let fraction: u64 = bits % 0x10_0000_0000_0000;
    if field == 2047 {
        return None;
    }
    let magnitude: i128 = if field == 0 {
        fraction as i128
    } else {
        0x10_0000_0000_0000 + fraction as i128
    };
    let m: i128 = if bits >= 0x8000_0000_0000_0000 {
        -magnitude
    } else {
        magnitude
    };
    assert(m == significand(bits));
    proof {
        lemma_mul_bounds(m as int, factor as int, 0x20_0000_0000_0000, 0x8000_0000);
    }
    let n: i128 = m * (factor as i128);
    let ghost e = binary_exponent(bits);
    if field >= 1075 {
        let up: u64 = field - 1075;
        assert(up == e);
        if n == 0 {
            assert(n * pow2(e as nat) == 0) by (nonlinear_arith)
                requires
                    n == 0,
            ;
            return Some(0);
        }
        if up > 10 {
            proof {
                lemma2_to64();
                if up > 11 {
                    lemma_pow2_strictly_increases(11, up as nat);
                }
                let p = pow2(up as nat) as int;
                lemma_large_quotient(m as int, factor as int, p, divisor as int);
            }
            return None;
        }
        let p: i128 = pow2_of(up as u32);
        proof {
            lemma2_to64();
            if up < 10 {
                lemma_pow2_strictly_increases(up as nat, 10);
            }
            lemma_mul_bounds(n as int, p as int, 0x10_0000_0000_0000_0000_0000int, 1024);
        }
        narrow(floor_div(n * p, divisor as i128))
    } else {
        let down: u64 = if field == 0 {
            1074
        } else {
            1075 - field
        };
        assert(down == -e);
        proof {
            lemma_pow2_pos(down as nat);
            lemma_mul_positive(divisor as int, pow2(down as nat) as int);
        }
        if n == 0 {
            return Some(0);
        }
        if down > 90 {
            proof {
                lemma2_to64();
                lemma_pow2_adds(64, 26);
                lemma_pow2_strictly_increases(90, down as nat);
                let p = pow2(down as nat) as int;
                assert(0x1_0000_0000_0000_0000 * 0x400_0000
                    == 0x400_0000_0000_0000_0000_0000) by (nonlinear_arith);
                assert(divisor * p >= p) by (nonlinear_arith)
                    requires
                        divisor >= 1,
                        p > 0,
                ;
                lemma_small_quotient(n as int, divisor * p);
            }
            return Some(
                if n > 0 {
                    0
                } else {
                    -1
                },
            );
        }
        let p: i128 = pow2_of(down as u32);
        proof {
            lemma2_to64();
            lemma_pow2_adds(64, 26);
            if down < 90 {
                lemma_pow2_strictly_increases(down as nat, 90);
            }
            assert(0x1_0000_0000_0000_0000 * 0x400_0000 == 0x400_0000_0000_0000_0000_0000)
                by (nonlinear_arith);
            lemma_mul_bounds(divisor as int, p as int, 0x8000_0000, 0x400_0000_0000_0000_0000_0000);
        }
        narrow(floor_div(n, (divisor as i128) * p))
    }
}

/// A normal number of a binary exponent above 10, scaled by a factor that
/// is not zero over a 32-bit divisor, does not fit in 32 bits.
proof fn lemma_large_quotient(m: int, factor: int, p: int, divisor: int)
    requires
        m >= 0x10_0000_0000_0000 || m <= -0x10_0000_0000_0000,
        factor != 0,
        m * factor != 0,
        p >= 2048,
        0 < divisor <= 0x7fff_ffff,
    ensures
        (m * factor * p) / divisor > 0x7fff_ffff || (m * factor * p) / divisor < -0x8000_0000,
{
    let n = m * factor;
    let least: int = 0x10_0000_0000_0000;
    let big: int = 0x8000_0000_0000_0000;
    assert(n >= least || n <= -least) by (nonlinear_arith)
        requires
            n == m * factor,
            m >= least || m <= -least,
            factor >= 1 || factor <= -1,
            least > 0,
    ;
    if n > 0 {
        assert(n * p >= least * 2048) by (nonlinear_arith)
            requires
                n >= least,
                least > 0,
                p >= 2048,
        ;
        assert(0x1_0000_0000 * divisor <= n * p);
        vstd::arithmetic::div_mod::lemma_div_is_ordered(0x1_0000_0000 * divisor, n * p, divisor);
        crate::arith::lemma_div_exact(0x1_0000_0000, divisor);
    } else {
        assert(n * p <= -(least * 2048)) by (nonlinear_arith)
            requires
                n <= -least,
                least > 0,
                p >= 2048,
        ;
        assert(n * p <= (-0x1_0000_0000) * divisor);
        vstd::arithmetic::div_mod::lemma_div_is_ordered(n * p, (-0x1_0000_0000) * divisor, divisor);
        crate::arith::lemma_div_exact(-0x1_0000_0000, divisor);
    }
}

} // verus!
