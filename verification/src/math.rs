use vstd::prelude::*;
use vstd::arithmetic::power::{lemma_pow_adds, lemma_pow_positive, pow};

use crate::display::LineList;
use crate::display::lines_pairs;
use crate::fixed::{div_round, pow10, rnd, sqrt_rnd, sqrt_round, Fx, PROD_LIMIT, SCALE};
use crate::format::fx_seq;

verus! {

/// Exponentiation by squaring.
pub trait MathOps: Sized {
    /// Whether `self` to the `exponent` stays representable.
    spec fn pow_in_range(self, exponent: u64) -> bool;

    /// `self` to the `exponent`.
    spec fn pow_spec(self, exponent: u64) -> Self;

    /// Computes `self` to the `exponent`.
    fn pow(self, exponent: u64) -> (r: Self)
        requires
            self.pow_in_range(exponent),
        ensures
            r == self.pow_spec(exponent),
    ;
}

impl MathOps for u64 {
    open spec fn pow_in_range(self, exponent: u64) -> bool {
        pow(self as int, exponent as nat) <= u64::MAX
    }

    open spec fn pow_spec(self, exponent: u64) -> u64 {
        pow(self as int, exponent as nat) as u64
    }

    /// Square-and-multiply: the bits of the exponent are consumed from the
    /// least significant end, squaring the base at each step.
    fn pow(self, exponent: u64) -> (r: u64) {
        if self == 0 {
            if exponent == 0 {
                proof {
                    vstd::arithmetic::power::lemma_pow0(0);
                }
                return 1;
            } else {
                proof {
                    vstd::arithmetic::power::lemma0_pow(exponent as nat);
                }
                return 0;
            }
        }
        let mut r: u64 = 1;
        let mut b: u64 = self;
        let mut e: u64 = exponent;
        proof {
            assert(1 * pow(b as int, e as nat) == pow(self as int, exponent as nat))
                by (nonlinear_arith)
                requires
                    b == self && e == exponent;
        }
        while e > 0
            invariant
                r * pow(b as int, e as nat) == pow(self as int, exponent as nat),
                pow(self as int, exponent as nat) <= u64::MAX,
                r >= 1,
                b >= 1,
            decreases e,
        {
            let ghost b_in = b;
            let ghost e_in = e;
            let ghost r_in = r;
            proof {
                lemma_pow_positive(b as int, e as nat);
                lemma_pow_positive(b as int, (e - 1) as nat);
                lemma_pow_adds(b as int, 1nat, (e - 1) as nat);
                vstd::arithmetic::power::lemma_pow1(b as int);
            }
            if e % 2 == 1 {
                proof {
                    // b is at most b^e, so r * b stays within the result
                    assert(r * (b as int) <= r * pow(b as int, e as nat)) by (nonlinear_arith)
                        requires
                            r >= 1,
                            pow(b as int, (e - 1) as nat) >= 1,
                            pow(b as int, e as nat) == (b as int) * pow(b as int, (e - 1) as nat),
                            b >= 1;
                    assert(r * (b as int) >= 1) by (nonlinear_arith)
                        requires
                            r >= 1,
                            b >= 1;
                }
                r = r * b;
            }
            let e2: u64 = e / 2;
            if e2 > 0 {
                proof {
                    // b squared is at most b^e, which the result bounds
                    lemma_pow_adds(b as int, 1nat, 1nat);
                    lemma_pow_adds(b as int, 2nat, (e - 2) as nat);
                    lemma_pow_positive(b as int, (e - 2) as nat);
                    lemma_pow_positive(b as int, 2nat);
                    assert((b as int) * (b as int) <= pow(b as int, e as nat)) by (nonlinear_arith)
                        requires
                            b >= 1,
                            e >= 2,
                            pow(b as int, 2nat) == (b as int) * (b as int),
                            pow(b as int, (e - 2) as nat) >= 1,
                            pow(b as int, e as nat) == pow(b as int, 2nat) * pow(
                                b as int,
                                (e - 2) as nat,
                            );
                    assert(pow(b as int, e as nat) <= r_in * pow(b as int, e as nat))
                        by (nonlinear_arith)
                        requires
                            r_in >= 1,
                            pow(b as int, e as nat) >= 1;
                    assert((b as int) * (b as int) >= 1) by (nonlinear_arith)
                        requires
                            b >= 1;
                }
                b = b * b;
            }
            e = e2;
            proof {
                lemma_pow_step(b_in as int, r_in as int, e_in as nat, r as int, b as int, e as nat);
            }
        }
        proof {
            vstd::arithmetic::power::lemma_pow0(b as int);
            assert(r * 1 == r) by (nonlinear_arith);
        }
        r
    }
}

/// One step of square-and-multiply keeps `r * b^e` unchanged.
proof fn lemma_pow_step(b0: int, r0: int, e0: nat, r1: int, b1: int, e1: nat)
    requires
        b0 >= 1,
        e0 >= 1,
        r1 == if e0 % 2 == 1 {
            r0 * b0
        } else {
            r0
        },
        e1 == e0 / 2,
        b1 == if e1 > 0 {
            b0 * b0
        } else {
            b0
        },
    ensures
        r1 * pow(b1, e1) == r0 * pow(b0, e0),
{
    vstd::arithmetic::power::lemma_pow0(b0);
    vstd::arithmetic::power::lemma_pow0(b1);
    vstd::arithmetic::power::lemma_pow1(b0);
    if e1 == 0 {
        assert(e0 == 1) by (nonlinear_arith)
            requires
                e0 >= 1,
                e0 / 2 == 0;
        assert((r0 * b0) * 1 == r0 * b0) by (nonlinear_arith);
    } else {
        lemma_pow_sq(b0, e1);
        if e0 % 2 == 1 {
            assert(e0 == 2 * e1 + 1) by (nonlinear_arith)
                requires
                    e1 == e0 / 2,
                    e0 % 2 == 1;
            lemma_pow_adds(b0, (2 * e1) as nat, 1nat);
            assert((r0 * b0) * pow(b0, (2 * e1) as nat) == r0 * (pow(b0, (2 * e1) as nat) * pow(
                b0,
                1nat,
            ))) by (nonlinear_arith)
                requires
                    pow(b0, 1nat) == b0;
        } else {
            assert(e0 == 2 * e1) by (nonlinear_arith)
                requires
                    e1 == e0 / 2,
                    e0 % 2 == 0;
        }
    }
}

/// Squaring the base halves the exponent: `(b*b)^e` equals `b^(2e)`.
proof fn lemma_pow_sq(b: int, e: nat)
    ensures
        pow(b * b, e) == pow(b, (2 * e) as nat),
    decreases e,
{
    vstd::arithmetic::power::lemma_pow0(b * b);
    vstd::arithmetic::power::lemma_pow0(b);
    if e > 0 {
        lemma_pow_sq(b, (e - 1) as nat);
        lemma_pow_adds(b, 2nat, (2 * e - 2) as nat);
        lemma_pow_adds(b, 1nat, 1nat);
        vstd::arithmetic::power::lemma_pow1(b);
        assert(pow(b * b, e) == (b * b) * pow(b * b, (e - 1) as nat)) by {
            reveal(pow);
        }
        assert((b * b) * pow(b, (2 * e - 2) as nat) == (b * b) * pow(b * b, (e - 1) as nat))
            by (nonlinear_arith)
            requires
                pow(b, (2 * e - 2) as nat) == pow(b * b, (e - 1) as nat);
        assert(pow(b, 2nat) * pow(b, (2 * e - 2) as nat) == (b * b) * pow(b, (2 * e - 2) as nat))
            by (nonlinear_arith)
            requires
                pow(b, 2nat) == b * b;
    }
}

/// Rounding to a coarser number of decimal places.
pub trait Round: Sized {
    /// Whether rounding at `decimals` places is defined for this value.
    spec fn roundn_in_range(&self, decimals: u64) -> bool;

    /// The value rounded to `decimals` decimal places, ties away from zero.
    spec fn roundn_spec(&self, decimals: u64) -> Self;

    /// Rounds to `decimals` decimal places, ties away from zero.
    fn roundn(&self, decimals: u64) -> (r: Self)
        requires
            self.roundn_in_range(decimals),
        ensures
            r == self.roundn_spec(decimals),
    ;
}

impl Round for Fx {
    open spec fn roundn_in_range(&self, decimals: u64) -> bool {
        -PROD_LIMIT <= self.units <= PROD_LIMIT
    }

    open spec fn roundn_spec(&self, decimals: u64) -> Fx {
        if decimals >= 10 {
            *self
        } else {
            Fx { units: (rnd(self.units as int, pow10((10 - decimals) as nat)) * pow10((10 - decimals) as nat)) as i128 }
        }
    }

    /// A value held in 10^-10 units is already rounded at ten places; fewer
    /// places round it to a multiple of the coarser unit.
    fn roundn(&self, decimals: u64) -> (r: Fx) {
        if decimals >= 10 {
            return *self;
        }
        let k: u64 = 10 - decimals;
        let mut unit: i128 = 1;
        let mut i: u64 = 0;
        proof {
            crate::fixed::lemma_pow10_values();
            crate::fixed::lemma_pow10_le(k as nat, 10nat);
        }
        while i < k
            invariant
                0 <= i <= k <= 10,
                unit == pow10(i as nat),
                1 <= unit <= 10_000_000_000,
                pow10(k as nat) <= 10_000_000_000,
        decreases k - i,
        {
            proof {
                crate::fixed::lemma_pow10_le((i + 1) as nat, k as nat);
            }
            unit = unit * 10;
            i = i + 1;
        }
        let q = div_round(self.units, unit);
        proof {
            crate::fixed::lemma_rnd_mul_close(self.units as int, unit as int);
        }
        Fx { units: q * unit }
    }
}

/// Largest variance, in 10^-10 units, the pooled-variance report accepts.
pub const STAT_MAX: i128 = 2_000_000_000_000_000_000_000_000_000;

/// Largest sample size the pooled-variance report accepts.
pub const SIZE_MAX: u64 = 1_000_000_000;

/// The rows of a pooled-variance report: both sample sizes and variances,
/// the pooled variance `p = ((n1-1)v1 + (n2-1)v2) / (n1+n2-2)` rounded to
/// the nearest unit, and its rounded square root.
pub open spec fn pooled_pairs(n1: int, v1: int, n2: int, v2: int) -> Seq<(Seq<char>, Seq<char>)> {
    let p = rnd((n1 - 1) * v1 + (n2 - 1) * v2, n1 + n2 - 2);
    seq![
        ("[1] sample size"@, fx_seq(n1 * SCALE)),
        ("[1] sample variance"@, fx_seq(v1)),
        ("[2] sample size"@, fx_seq(n2 * SCALE)),
        ("[2] sample variance"@, fx_seq(v2)),
        ("pooled sample variance"@, fx_seq(p)),
        ("pooled sample std.dev"@, fx_seq(sqrt_rnd(p * SCALE))),
    ]
}

/// The pooled variance of two samples:
/// `p = ((n1-1)v1 + (n2-1)v2) / (n1+n2-2)`, reported with both inputs and
/// the pooled standard deviation `sqrt(p)`. The sizes must exceed two in
/// total (the divisor would otherwise vanish), the variances must be
/// non-negative, and both must stay within the supported range; anything
/// else is a parameter error.
pub fn pooled_variance(n1: u64, v1: Fx, n2: u64, v2: Fx) -> (r: Result<LineList, String>)
    ensures
        r is Ok <==> (n1 + n2 > 2 && n1 >= 1 && n2 >= 1 && n1 <= SIZE_MAX && n2 <= SIZE_MAX && 0
            <= v1.units <= STAT_MAX && 0 <= v2.units <= STAT_MAX),
        r is Err ==> r->Err_0@ == crate::distributions::bad_parameters(),
        r is Ok ==> {
            let list = r->Ok_0;
            &&& list.wf()
            &&& list.title@ =~= Seq::<char>::empty()
            &&& lines_pairs(list.list@) == pooled_pairs(
                n1 as int,
                v1.units as int,
                n2 as int,
                v2.units as int,
            )
        },
{
    if !(n1 >= 1 && n2 >= 1 && n1 <= SIZE_MAX && n2 <= SIZE_MAX) {
        return Err(String::from_str("Bad parameters."));
    }
    if !(n1 + n2 > 2 && 0 <= v1.units && v1.units <= STAT_MAX && 0 <= v2.units && v2.units
        <= STAT_MAX) {
        return Err(String::from_str("Bad parameters."));
    }
    proof {
        assert(0 <= ((n1 - 1) as int) * v1.units <= 1000000000 * STAT_MAX && 0 <= ((
        n2 - 1) as int) * v2.units <= 1000000000 * STAT_MAX) by (nonlinear_arith)
            requires
                1 <= n1 <= SIZE_MAX,
                1 <= n2 <= SIZE_MAX,
                0 <= v1.units <= STAT_MAX,
                0 <= v2.units <= STAT_MAX;
    }
    let num: i128 = ((n1 - 1) as i128) * v1.units + ((n2 - 1) as i128) * v2.units;
    let den: i128 = ((n1 + n2) as i128) - 2;
    let p = div_round(num, den);
    proof {
        // the pooled variance is a weighted average, so it stays below the
        // larger input variance
        let m = if v1.units >= v2.units {
            v1.units as int
        } else {
            v2.units as int
        };
        assert(num <= m * den && -(m * den) <= num) by (nonlinear_arith)
            requires
                den == n1 + n2 - 2,
                num == ((n1 - 1) as int) * v1.units + ((n2 - 1) as int) * v2.units,
                1 <= n1,
                1 <= n2,
                den >= 1,
                0 <= v1.units <= m,
                0 <= v2.units <= m;
        crate::fixed::lemma_rnd_le(num as int, den as int, m);
        assert(p * SCALE <= STAT_MAX * SCALE && 0 <= p * SCALE) by (nonlinear_arith)
            requires
                0 <= p <= m,
                m <= STAT_MAX;
    }
    let sd = sqrt_round(p * SCALE);
    let mut list = LineList::new();
    proof {
        assert((n1 as i128) * SCALE == (n1 as int) * SCALE && 0 <= (n1 as int) * SCALE
            <= PROD_LIMIT && (n2 as i128) * SCALE == (n2 as int) * SCALE && 0 <= (n2 as int)
            * SCALE <= PROD_LIMIT) by (nonlinear_arith)
            requires
                1 <= n1 <= SIZE_MAX,
                1 <= n2 <= SIZE_MAX;
    }
    list.push("[1] sample size", Fx { units: (n1 as i128) * SCALE });
    list.push("[1] sample variance", v1);
    list.push("[2] sample size", Fx { units: (n2 as i128) * SCALE });
    list.push("[2] sample variance", v2);
    list.push("pooled sample variance", Fx { units: p });
    list.push("pooled sample std.dev", Fx { units: sd });
    proof {
        assert(lines_pairs(list.list@) =~~= pooled_pairs(
            n1 as int,
            v1.units as int,
            n2 as int,
            v2.units as int,
        ));
    }
    Ok(list)
}

} // verus!
