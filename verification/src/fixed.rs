use vstd::prelude::*;

verus! {

/// One unit is 10^-10. Every value this library reports is rounded to ten
/// decimal places, so each one is a whole number of units and can be held
/// exactly as an integer count of units.
pub const SCALE: i128 = 10_000_000_000;

/// Largest magnitude accepted by the rounded-division helpers; products of
/// unit counts must stay under this so the arithmetic fits in 128 bits.
pub const PROD_LIMIT: i128 = 30_000_000_000_000_000_000_000_000_000_000_000_000;

/// `n / d` rounded to the nearest integer, ties rounding up,
/// for non-negative `n` and positive `d`.
pub open spec fn rnd_nonneg(n: int, d: int) -> int {
    (2 * n + d) / (2 * d)
}

/// `n / d` rounded to the nearest integer, ties away from zero.
/// This is the rounding used everywhere in the library: it matches rounding
/// a real value to ten decimal places with `round` semantics.
pub open spec fn rnd(n: int, d: int) -> int {
    if n >= 0 {
        rnd_nonneg(n, d)
    } else {
        -rnd_nonneg(-n, d)
    }
}

/// Ten to the `k`.
pub open spec fn pow10(k: nat) -> int
    decreases k,
{
    if k == 0 {
        1
    } else {
        10 * pow10((k - 1) as nat)
    }
}

/// The powers of ten up to the scale, spelled out.
pub proof fn lemma_pow10_values()
    ensures
        pow10(0) == 1,
        pow10(1) == 10,
        pow10(2) == 100,
        pow10(3) == 1000,
        pow10(4) == 10000,
        pow10(5) == 100000,
        pow10(6) == 1000000,
        pow10(7) == 10000000,
        pow10(8) == 100000000,
        pow10(9) == 1000000000,
        pow10(10) == 10000000000,
{
    assert(pow10(0) == 1);
    assert(pow10(1) == 10);
    assert(pow10(2) == 100);
    assert(pow10(3) == 1000);
    assert(pow10(4) == 10000);
    assert(pow10(5) == 100000);
    assert(pow10(6) == 1000000);
    assert(pow10(7) == 10000000);
    assert(pow10(8) == 100000000);
    assert(pow10(9) == 1000000000);
    assert(pow10(10) == 10000000000);
}

/// Powers of ten are positive and grow with the exponent.
pub proof fn lemma_pow10_le(a: nat, b: nat)
    requires
        a <= b,
    ensures
        0 < pow10(a) <= pow10(b),
    decreases b,
{
    if a < b {
        lemma_pow10_le(a, (b - 1) as nat);
        assert(pow10(b) == 10 * pow10((b - 1) as nat));
    } else {
        if b > 0 {
            lemma_pow10_le((b - 1) as nat, (b - 1) as nat);
        }
    }
}

/// Powers of ten multiply by adding exponents.
pub proof fn lemma_pow10_mul(a: nat, b: nat)
    ensures
        pow10(a) * pow10(b) == pow10((a + b) as nat),
    decreases a,
{
    if a == 0 {
    } else {
        lemma_pow10_mul((a - 1) as nat, b);
        assert(pow10(a) * pow10(b) == 10 * (pow10((a - 1) as nat) * pow10(b))) by (nonlinear_arith)
            requires
                pow10(a) == 10 * pow10((a - 1) as nat);
        assert(pow10((a + b) as nat) == 10 * pow10((a + b - 1) as nat));
    }
}

/// A rounded quotient of a value between `-m*d` and `m*d` stays between
/// `-m` and `m`.
pub proof fn lemma_rnd_le(n: int, d: int, m: int)
    requires
        d > 0,
        m >= 0,
        -(m * d) <= n <= m * d,
    ensures
        -m <= rnd(n, d) <= m,
{
    if n >= 0 {
        assert(0 <= (2 * n + d) / (2 * d) <= m) by (nonlinear_arith)
            requires
                d > 0,
                m >= 0,
                0 <= n <= m * d;
    } else {
        assert(0 <= (2 * (-n) + d) / (2 * d) <= m) by (nonlinear_arith)
            requires
                d > 0,
                m >= 0,
                0 <= -n <= m * d;
    }
}

/// Rounding to a multiple of `d` moves the value by at most `d`.
pub proof fn lemma_rnd_mul_close(n: int, d: int)
    requires
        d > 0,
    ensures
        n - d <= rnd(n, d) * d <= n + d,
{
    lemma_rnd_close(n, d);
}

/// Whether `r` is the square root of `n` rounded to the nearest integer,
/// ties away from zero: the root lies within one half of `r`.
pub open spec fn is_sqrt_rnd(n: int, r: int) -> bool {
    &&& r >= 0
    &&& r >= 1 ==> (2 * r - 1) * (2 * r - 1) <= 4 * n
    &&& 4 * n < (2 * r + 1) * (2 * r + 1)
}

/// The square root rounded to nearest: the unique witness of
/// `is_sqrt_rnd`.
pub open spec fn sqrt_rnd(n: int) -> int {
    choose|r: int| is_sqrt_rnd(n, r)
}

/// At most one integer is the rounded square root.
pub proof fn lemma_sqrt_rnd_unique(n: int, a: int, b: int)
    requires
        is_sqrt_rnd(n, a),
        is_sqrt_rnd(n, b),
    ensures
        a == b,
{
    if a < b {
        assert((2 * a + 1) * (2 * a + 1) <= (2 * b - 1) * (2 * b - 1)) by (nonlinear_arith)
            requires
                0 <= a < b;
        assert(false);
    }
    if b < a {
        assert((2 * b + 1) * (2 * b + 1) <= (2 * a - 1) * (2 * a - 1)) by (nonlinear_arith)
            requires
                0 <= b < a;
        assert(false);
    }
}

/// A real value held as a whole number of 10^-10 units.
#[derive(Clone, Copy, PartialEq, Eq, Structural, Debug)]
pub struct Fx {
    pub units: i128,
}

proof fn lemma_rnd_nonneg_le(n: int, d: int)
    requires
        n >= 0,
        d > 0,
    ensures
        0 <= rnd_nonneg(n, d) <= n,
{
    assert(0 <= (2 * n + d) / (2 * d) <= n) by (nonlinear_arith)
        requires
            n >= 0,
            d > 0;
}

/// Exact rounded division `rnd(n, d)` when `n` has been split as `d*q + rem`.
proof fn lemma_rnd_nonneg_split(n: int, d: int, q: int, rem: int)
    requires
        d > 0,
        n == d * q + rem,
        0 <= rem < d,
        q >= 0,
    ensures
        rnd_nonneg(n, d) == if 2 * rem >= d {
            q + 1
        } else {
            q
        },
{
    if 2 * rem >= d {
        assert((2 * n + d) / (2 * d) == q + 1) by (nonlinear_arith)
            requires
                d > 0,
                n == d * q + rem,
                0 <= rem < d,
                2 * rem >= d;
    } else {
        assert((2 * n + d) / (2 * d) == q) by (nonlinear_arith)
            requires
                d > 0,
                n == d * q + rem,
                0 <= rem < d,
                2 * rem < d;
    }
}

/// Rounding an exact multiple changes nothing.
pub proof fn lemma_rnd_exact(q: int, d: int)
    requires
        d > 0,
    ensures
        rnd(q * d, d) == q,
{
    if q >= 0 {
        lemma_rnd_nonneg_split(q * d, d, q, 0);
        assert(q * d >= 0) by (nonlinear_arith)
            requires
                q >= 0,
                d > 0;
    } else {
        assert(-(q * d) == (-q) * d) by (nonlinear_arith);
        lemma_rnd_nonneg_split((-q) * d, d, -q, 0);
        assert(q * d < 0) by (nonlinear_arith)
            requires
                q < 0,
                d > 0;
    }
}

/// The rounded quotient is within half a divisor of the true quotient:
/// `|rnd(n, d) * d - n|` is at most `d / 2` (times two, to avoid fractions).
pub proof fn lemma_rnd_close(n: int, d: int)
    requires
        d > 0,
    ensures
        2 * (rnd(n, d) * d - n) <= d,
        2 * (n - rnd(n, d) * d) <= d,
{
    if n >= 0 {
        assert(2 * (rnd_nonneg(n, d) * d - n) <= d && 2 * (n - rnd_nonneg(n, d) * d) <= d)
            by (nonlinear_arith)
            requires
                n >= 0,
                d > 0;
    } else {
        assert(2 * (rnd_nonneg(-n, d) * d - (-n)) <= d && 2 * ((-n) - rnd_nonneg(-n, d) * d) <= d)
            by (nonlinear_arith)
            requires
                -n >= 0,
                d > 0;
        assert((-rnd_nonneg(-n, d)) * d == -(rnd_nonneg(-n, d) * d)) by (nonlinear_arith);
    }
}

/// A rounded quotient of a value in `[0, hi]` by a positive divisor stays
/// in `[0, hi]`.
pub proof fn lemma_rnd_nonneg_range(n: int, d: int, hi: int)
    requires
        0 <= n <= hi,
        d > 0,
    ensures
        0 <= rnd(n, d) <= hi,
{
    lemma_rnd_nonneg_le(n, d);
}

/// Rounded division on magnitudes.
fn div_round_u128(n: u128, d: u128) -> (r: u128)
    requires
        d > 0,
        n <= PROD_LIMIT,
    ensures
        r == rnd_nonneg(n as int, d as int),
        r <= n,
{
    let q: u128 = n / d;
    let rem: u128 = n % d;
    proof {
        assert(n == d * q + rem) by (nonlinear_arith)
            requires
                d > 0 && q == n / d && rem == n % d;
        lemma_rnd_nonneg_split(n as int, d as int, q as int, rem as int);
        lemma_rnd_nonneg_le(n as int, d as int);
    }
    if 2 * rem >= d {
        q + 1
    } else {
        q
    }
}

/// `n / d` rounded to nearest, ties away from zero.
pub fn div_round(n: i128, d: i128) -> (r: i128)
    requires
        d > 0,
        -PROD_LIMIT <= n <= PROD_LIMIT,
    ensures
        r == rnd(n as int, d as int),
        -PROD_LIMIT <= r <= PROD_LIMIT,
{
    if n >= 0 {
        let m = div_round_u128(n as u128, d as u128);
        m as i128
    } else {
        let m = div_round_u128((-n) as u128, d as u128);
        -(m as i128)
    }
}

/// `a * b / d` rounded to nearest, ties away from zero.
pub fn mul_div_round(a: i128, b: i128, d: i128) -> (r: i128)
    requires
        d > 0,
        -PROD_LIMIT <= a <= PROD_LIMIT,
        -PROD_LIMIT <= b <= PROD_LIMIT,
        -PROD_LIMIT <= a * b <= PROD_LIMIT,
    ensures
        r == rnd(a * b, d as int),
        -PROD_LIMIT <= r <= PROD_LIMIT,
{
    let am: u128 = if a >= 0 {
        a as u128
    } else {
        (-a) as u128
    };
    let bm: u128 = if b >= 0 {
        b as u128
    } else {
        (-b) as u128
    };
    proof {
        assert(am * bm <= PROD_LIMIT && am as int * bm as int == (if a * b >= 0 {
            a * b
        } else {
            -(a * b)
        })) by (nonlinear_arith)
            requires
                am == (if a >= 0 {
                    a as int
                } else {
                    -a as int
                }),
                bm == (if b >= 0 {
                    b as int
                } else {
                    -b as int
                }),
                -PROD_LIMIT <= a * b <= PROD_LIMIT;
    }
    let m = div_round_u128(am * bm, d as u128);
    let neg: bool = (a < 0) != (b < 0);
    proof {
        if neg {
            assert(a * b <= 0) by (nonlinear_arith)
                requires
                    (a < 0 && b >= 0) || (a >= 0 && b < 0);
        } else {
            assert(a * b >= 0) by (nonlinear_arith)
                requires
                    (a < 0 && b < 0) || (a >= 0 && b >= 0);
        }
        if a * b == 0 {
            assert(rnd_nonneg(0, d as int) == 0) by (nonlinear_arith)
                requires
                    d > 0;
        }
    }
    if neg {
        -(m as i128)
    } else {
        m as i128
    }
}

/// The square root rounded to the nearest integer, ties away from zero:
/// the result `r` satisfies `(2r - 1)^2 <= 4n < (2r + 1)^2`.
pub fn sqrt_round(n: i128) -> (r: i128)
    requires
        0 <= n <= PROD_LIMIT,
    ensures
        is_sqrt_rnd(n as int, r as int),
        r == sqrt_rnd(n as int),
        0 <= r <= PROD_LIMIT,
{
    let m: u128 = n as u128;
    if m == 0 {
        proof {
            assert(n as int == m as int);
            assert(4 * n < (2 * 0 + 1) * (2 * 0 + 1)) by (nonlinear_arith)
                requires
                    n == 0;
            assert(is_sqrt_rnd(n as int, 0));
            lemma_sqrt_rnd_unique(n as int, 0, sqrt_rnd(n as int));
        }
        return 0;
    }
    // binary search for the floor square root
    let mut lo: u128 = 0;
    let mut hi: u128 = 5_600_000_000_000_000_000;
    proof {
        assert(hi * hi > m) by (nonlinear_arith)
            requires
                hi == 5_600_000_000_000_000_000u128,
                m <= PROD_LIMIT;
    }
    while lo + 1 < hi
        invariant
            lo < hi,
            hi <= 5_600_000_000_000_000_000,
            lo * lo <= m,
            m < hi * hi,
            m <= PROD_LIMIT,
        decreases hi - lo,
    {
        let mid: u128 = lo + (hi - lo) / 2;
        proof {
            assert(mid * mid <= 31_360_000_000_000_000_000_000_000_000_000_000_000u128)
                by (nonlinear_arith)
                requires
                    mid <= 5_600_000_000_000_000_000u128;
        }
        if mid * mid <= m {
            lo = mid;
        } else {
            hi = mid;
        }
    }
    // lo is the floor square root: lo^2 <= m < (lo + 1)^2
    proof {
        assert(m < (lo + 1) * (lo + 1)) by (nonlinear_arith)
            requires
                m < hi * hi,
                hi == lo + 1;
    }
    let s: u128 = lo;
    // round up when the fractional part of the root is at least one half
    let t: u128 = 2 * s + 1;
    proof {
        assert(t * t <= 130_000_000_000_000_000_000_000_000_000_000_000_000u128)
            by (nonlinear_arith)
            requires
                t <= 11_200_000_000_000_000_001u128;
        assert(4 * m < (2 * (s + 1) + 1) * (2 * (s + 1) + 1)) by (nonlinear_arith)
            requires
                m < (s + 1) * (s + 1);
        assert(s >= 1 ==> (2 * s - 1) * (2 * s - 1) <= 4 * (s * s)) by (nonlinear_arith);
        assert(s * s <= m ==> 4 * (s * s) <= 4 * m) by (nonlinear_arith);
        assert((2 * (s + 1) - 1) == t);
    }
    if t * t <= 4 * m {
        proof {
            assert(is_sqrt_rnd(n as int, (s + 1) as int));
            lemma_sqrt_rnd_unique(n as int, (s + 1) as int, sqrt_rnd(n as int));
        }
        (s + 1) as i128
    } else {
        proof {
            assert(is_sqrt_rnd(n as int, s as int));
            lemma_sqrt_rnd_unique(n as int, s as int, sqrt_rnd(n as int));
        }
        s as i128
    }
}

} // verus!
