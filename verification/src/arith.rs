//! Exact integer helpers shared by the interpolation and the tile surfaces.
use vstd::prelude::*;
use vstd::arithmetic::div_mod::{
    lemma_fundamental_div_mod, lemma_fundamental_div_mod_converse, lemma_mod_bound,
};

verus! {

/// `a * b` lies within the product of the bounds of its factors.
pub proof fn lemma_mul_bounds(a: int, b: int, ma: int, mb: int)
    by (nonlinear_arith)
    requires
        -ma <= a <= ma,
        -mb <= b <= mb,
    ensures
        -(ma * mb) <= a * b <= ma * mb,
{
}

/// A quotient by a positive divisor lies between any two integers that
/// bracket the dividend once multiplied by the divisor.
pub proof fn lemma_floor_between(n: int, d: int, lo: int, hi: int)
    by (nonlinear_arith)
    requires
        d > 0,
        lo * d <= n <= hi * d,
    ensures
        lo <= n / d <= hi,
{
}

/// The product of two positive numbers is positive.
pub proof fn lemma_mul_positive(a: int, b: int)
    by (nonlinear_arith)
    requires
        a > 0,
        b > 0,
    ensures
        a * b > 0,
{
}

/// A dividend between the divisor's negation and zero has the quotient -1;
/// one between zero and the divisor has the quotient 0.
pub proof fn lemma_small_quotient(n: int, d: int)
    requires
        d > 0,
        -d <= n < d,
    ensures
        n / d == (if n < 0 { -1int } else { 0int }),
{
    if n < 0 {
        lemma_fundamental_div_mod_converse(n, d, -1, n + d);
    } else {
        lemma_fundamental_div_mod_converse(n, d, 0, n);
    }
}

/// Two dividends that lie less than `(k + 1) * d` apart have quotients that
/// lie at most `k + 1` apart.
pub proof fn lemma_quotients_close(n: int, m: int, d: int, k: int)
    requires
        d > 0,
        k >= 0,
        -(k + 1) * d < m - n < (k + 1) * d,
    ensures
        -(k + 1) <= m / d - n / d <= k + 1,
{
    let q = n / d;
    let r = n % d;
    lemma_fundamental_div_mod(n, d);
    lemma_mod_bound(n, d);
    assert((q - (k + 1)) * d <= m <= (q + (k + 1) + 1) * d) by (nonlinear_arith)
        requires
            n == d * q + r,
            0 <= r < d,
            -(k + 1) * d < m - n < (k + 1) * d,
    ;
    lemma_floor_between(m, d, q - (k + 1), q + (k + 1) + 1);
    if m / d == q + (k + 1) + 1 {
        lemma_fundamental_div_mod(m, d);
        lemma_mod_bound(m, d);
        assert(false) by (nonlinear_arith)
            requires
                m == d * (m / d) + m % d,
                0 <= m % d,
                m / d == q + (k + 1) + 1,
                n == d * q + r,
                0 <= r < d,
                m - n < (k + 1) * d,
                d > 0,
        ;
    }
}

/// A multiple of the divisor divides exactly.
pub proof fn lemma_div_exact(q: int, d: int)
    requires
        d > 0,
    ensures
        (q * d) / d == q,
{
    lemma_fundamental_div_mod_converse(q * d, d, q, 0);
}

/// A common positive factor of dividend and divisor cancels.
pub proof fn lemma_div_cancel(k: int, a: int, b: int)
    requires
        k > 0,
        b > 0,
    ensures
        (k * a) / (k * b) == a / b,
{
    let q = a / b;
    let r = a % b;
    lemma_fundamental_div_mod(a, b);
    assert(k * b > 0 && 0 <= k * r < k * b && k * a == q * (k * b) + k * r) by (nonlinear_arith)
        requires
            k > 0,
            b > 0,
            0 <= r < b,
            a == b * q + r,
    ;
    lemma_fundamental_div_mod_converse(k * a, k * b, q, k * r);
}

/// Floor division: the largest integer `q` with `q * d <= n`.
pub fn floor_div(n: i128, d: i128) -> (q: i128)
    requires
        d > 0,
    ensures
        q == n as int / d as int,
{
    if n >= 0 {
        let un: u128 = n as u128;
        let ud: u128 = d as u128;
        (un / ud) as i128
    } else {
        // n < 0: floor(n / d) == -ceil(-n / d) == -1 - (-n - 1) / d
        let m: u128 = (-(n + 1)) as u128;
        let ud: u128 = d as u128;
        let c: u128 = m / ud;
        proof {
            let qi: int = -1 - (c as int);
            let ri: int = (d as int) - 1 - (m as int % d as int);
            assert(m as int == (d as int) * (m as int / d as int) + (m as int % d as int)) by {
                lemma_fundamental_div_mod(m as int, d as int);
            }
            assert(n as int == qi * (d as int) + ri) by (nonlinear_arith)
                requires
                    m as int == -(n as int) - 1,
                    qi == -1 - (m as int / d as int),
                    ri == (d as int) - 1 - (m as int % d as int),
                    m as int == (d as int) * (m as int / d as int) + (m as int % d as int),
            ;
            lemma_fundamental_div_mod_converse(n as int, d as int, qi, ri);
        }
        -1 - (c as i128)
    }
}

} // verus!
