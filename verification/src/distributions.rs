use vstd::prelude::*;

use crate::fixed::{div_round, mul_div_round, rnd, Fx, PROD_LIMIT, SCALE};
use crate::display::Analysis;
use crate::format::{dec_seq, dec_string, fx_seq, fx_string};

verus! {

/// Largest count parameter (trials, wins, degrees of freedom) the moment
/// formulas accept; beyond it their 128-bit arithmetic could not stay exact.
pub const COUNT_MAX: u64 = 1_000_000;

/// Largest magnitude, in 10^-10 units, of a real parameter (a bound, a rate,
/// a mean); beyond it the moment formulas could not stay exact.
pub const PARAM_MAX: i128 = 1_000_000_000_000_000_000;

/// One parameterized probability distribution from the catalog.
/// Probabilities, rates and bounds are held in 10^-10 units; counts and
/// degrees of freedom as plain integers.
#[derive(Clone, Copy, Debug)]
pub enum Distribution {
    /// Wins out of `n` tries at win-rate `p`.
    Binomial { n: u64, p: Fx },
    /// The trial on which the `k`-th win lands, at win-rate `p`; a query
    /// point counts trials, and the first possible one is trial `k`.
    NegativeBinomial { k: u64, p: Fx },
    /// The trial on which the first win lands, at win-rate `p`.
    Geometric { p: Fx },
    /// Hits in an interval with expected count `l`.
    Poisson { l: Fx },
    /// Uniform on `[a, b]`.
    Uniform { a: Fx, b: Fx },
    /// Exponential with rate `l`.
    Exponential { l: Fx },
    /// Normal with mean `m` and standard deviation `s`.
    Normal { m: Fx, s: Fx },
    /// Student's t with `f` degrees of freedom.
    StudentsT { f: u64 },
    /// Chi-squared with `f` degrees of freedom.
    ChiSquared { f: u64 },
    /// Fisher-Snedecor with `f1` and `f2` degrees of freedom.
    FisherSnedecor { f1: u64, f2: u64 },
}

impl Distribution {
    /// The domain constraints every constructed distribution satisfies:
    /// probabilities lie in `[0, 1]` (and are positive where a mean `1/p`
    /// exists), rates are positive, the uniform bounds are ordered, degrees
    /// of freedom are at least one, and every parameter is within the range
    /// the exact arithmetic covers.
    pub open spec fn wf(&self) -> bool {
        match *self {
            Distribution::Binomial { n, p } => n <= COUNT_MAX && 0 <= p.units <= SCALE,
            Distribution::NegativeBinomial { k, p } => k <= COUNT_MAX && 1 <= p.units <= SCALE,
            Distribution::Geometric { p } => 1 <= p.units <= SCALE,
            Distribution::Poisson { l } => 1 <= l.units <= PARAM_MAX,
            Distribution::Uniform { a, b } => {
                &&& -PARAM_MAX <= a.units <= PARAM_MAX
                &&& -PARAM_MAX <= b.units <= PARAM_MAX
                &&& a.units < b.units
            },
            Distribution::Exponential { l } => 1 <= l.units <= PARAM_MAX,
            Distribution::Normal { m, s } => {
                &&& -PARAM_MAX <= m.units <= PARAM_MAX
                &&& 1 <= s.units <= PARAM_MAX
            },
            Distribution::StudentsT { f } => 1 <= f <= COUNT_MAX,
            Distribution::ChiSquared { f } => 1 <= f <= COUNT_MAX,
            Distribution::FisherSnedecor { f1, f2 } => 1 <= f1 <= COUNT_MAX && 1 <= f2
                <= COUNT_MAX,
        }
    }

    /// Whether the family is discrete; it decides how point lines are worded.
    pub open spec fn spec_discrete(&self) -> bool {
        match *self {
            Distribution::Binomial { .. } => true,
            Distribution::NegativeBinomial { .. } => true,
            Distribution::Geometric { .. } => true,
            Distribution::Poisson { .. } => true,
            _ => false,
        }
    }

    /// Whether the family is discrete.
    pub fn is_discrete(&self) -> (r: bool)
        ensures
            r == self.spec_discrete(),
    {
        match *self {
            Distribution::Binomial { .. } => true,
            Distribution::NegativeBinomial { .. } => true,
            Distribution::Geometric { .. } => true,
            Distribution::Poisson { .. } => true,
            _ => false,
        }
    }

    /// Whether the family is continuous, so that quantile inversion applies.
    pub fn is_continuous(&self) -> (r: bool)
        ensures
            r == !self.spec_discrete(),
    {
        !self.is_discrete()
    }
}

/// The uniform error for out-of-domain parameters.
pub open spec fn bad_parameters() -> Seq<char> {
    "Bad parameters."@
}

fn bad_parameters_err() -> (r: String)
    ensures
        r@ == bad_parameters(),
{
    String::from_str("Bad parameters.")
}

/// A binomial distribution over `n` tries at win-rate `p`; rejects a
/// win-rate outside `[0, 1]` or a count beyond the supported range.
pub fn binomial(n: u64, p: Fx) -> (r: Result<Distribution, String>)
    ensures
        r is Ok <==> (n <= COUNT_MAX && 0 <= p.units <= SCALE),
        r is Ok ==> r->Ok_0 == (Distribution::Binomial { n, p }) && r->Ok_0.wf(),
        r is Err ==> r->Err_0@ == bad_parameters(),
{
    if n <= COUNT_MAX && 0 <= p.units && p.units <= SCALE {
        Ok(Distribution::Binomial { n, p })
    } else {
        Err(bad_parameters_err())
    }
}

/// A negative binomial distribution counting the trial of the `k`-th win at
/// win-rate `p`; rejects a win-rate outside `(0, 1]` or a count beyond the
/// supported range.
pub fn negative_binomial(k: u64, p: Fx) -> (r: Result<Distribution, String>)
    ensures
        r is Ok <==> (k <= COUNT_MAX && 1 <= p.units <= SCALE),
        r is Ok ==> r->Ok_0 == (Distribution::NegativeBinomial { k, p }) && r->Ok_0.wf(),
        r is Err ==> r->Err_0@ == bad_parameters(),
{
    if k <= COUNT_MAX && 1 <= p.units && p.units <= SCALE {
        Ok(Distribution::NegativeBinomial { k, p })
    } else {
        Err(bad_parameters_err())
    }
}

/// A geometric distribution counting the trial of the first win at win-rate
/// `p`; rejects a win-rate outside `(0, 1]`.
pub fn geometric(p: Fx) -> (r: Result<Distribution, String>)
    ensures
        r is Ok <==> 1 <= p.units <= SCALE,
        r is Ok ==> r->Ok_0 == (Distribution::Geometric { p }) && r->Ok_0.wf(),
        r is Err ==> r->Err_0@ == bad_parameters(),
{
    if 1 <= p.units && p.units <= SCALE {
        Ok(Distribution::Geometric { p })
    } else {
        Err(bad_parameters_err())
    }
}

/// A Poisson distribution with expected count `l`; rejects a non-positive
/// rate or one beyond the supported range.
pub fn poisson(l: Fx) -> (r: Result<Distribution, String>)
    ensures
        r is Ok <==> 1 <= l.units <= PARAM_MAX,
        r is Ok ==> r->Ok_0 == (Distribution::Poisson { l }) && r->Ok_0.wf(),
        r is Err ==> r->Err_0@ == bad_parameters(),
{
    if 1 <= l.units && l.units <= PARAM_MAX {
        Ok(Distribution::Poisson { l })
    } else {
        Err(bad_parameters_err())
    }
}

/// A uniform distribution on `[a, b]`; rejects bounds out of order or beyond
/// the supported range.
pub fn uniform(a: Fx, b: Fx) -> (r: Result<Distribution, String>)
    ensures
        r is Ok <==> (-PARAM_MAX <= a.units <= PARAM_MAX && -PARAM_MAX <= b.units <= PARAM_MAX
            && a.units < b.units),
        r is Ok ==> r->Ok_0 == (Distribution::Uniform { a, b }) && r->Ok_0.wf(),
        r is Err ==> r->Err_0@ == bad_parameters(),
{
    if -PARAM_MAX <= a.units && a.units <= PARAM_MAX && -PARAM_MAX <= b.units && b.units
        <= PARAM_MAX && a.units < b.units {
        Ok(Distribution::Uniform { a, b })
    } else {
        Err(bad_parameters_err())
    }
}

/// An exponential distribution with rate `l`; rejects a non-positive rate or
/// one beyond the supported range.
pub fn exponential(l: Fx) -> (r: Result<Distribution, String>)
    ensures
        r is Ok <==> 1 <= l.units <= PARAM_MAX,
        r is Ok ==> r->Ok_0 == (Distribution::Exponential { l }) && r->Ok_0.wf(),
        r is Err ==> r->Err_0@ == bad_parameters(),
{
    if 1 <= l.units && l.units <= PARAM_MAX {
        Ok(Distribution::Exponential { l })
    } else {
        Err(bad_parameters_err())
    }
}

/// A normal distribution with mean `m` and standard deviation `s`; rejects a
/// non-positive deviation or parameters beyond the supported range.
pub fn normal(m: Fx, s: Fx) -> (r: Result<Distribution, String>)
    ensures
        r is Ok <==> (-PARAM_MAX <= m.units <= PARAM_MAX && 1 <= s.units <= PARAM_MAX),
        r is Ok ==> r->Ok_0 == (Distribution::Normal { m, s }) && r->Ok_0.wf(),
        r is Err ==> r->Err_0@ == bad_parameters(),
{
    if -PARAM_MAX <= m.units && m.units <= PARAM_MAX && 1 <= s.units && s.units <= PARAM_MAX {
        Ok(Distribution::Normal { m, s })
    } else {
        Err(bad_parameters_err())
    }
}

/// A Student's t distribution with `f` degrees of freedom; rejects zero or a
/// count beyond the supported range.
pub fn students_t(f: u64) -> (r: Result<Distribution, String>)
    ensures
        r is Ok <==> 1 <= f <= COUNT_MAX,
        r is Ok ==> r->Ok_0 == (Distribution::StudentsT { f }) && r->Ok_0.wf(),
        r is Err ==> r->Err_0@ == bad_parameters(),
{
    if 1 <= f && f <= COUNT_MAX {
        Ok(Distribution::StudentsT { f })
    } else {
        Err(bad_parameters_err())
    }
}

/// A chi-squared distribution with `f` degrees of freedom; rejects zero or a
/// count beyond the supported range.
pub fn chi_squared(f: u64) -> (r: Result<Distribution, String>)
    ensures
        r is Ok <==> 1 <= f <= COUNT_MAX,
        r is Ok ==> r->Ok_0 == (Distribution::ChiSquared { f }) && r->Ok_0.wf(),
        r is Err ==> r->Err_0@ == bad_parameters(),
{
    if 1 <= f && f <= COUNT_MAX {
        Ok(Distribution::ChiSquared { f })
    } else {
        Err(bad_parameters_err())
    }
}

/// A Fisher-Snedecor distribution with `f1` and `f2` degrees of freedom;
/// rejects zero or counts beyond the supported range.
pub fn fisher_snedecor(f1: u64, f2: u64) -> (r: Result<Distribution, String>)
    ensures
        r is Ok <==> (1 <= f1 <= COUNT_MAX && 1 <= f2 <= COUNT_MAX),
        r is Ok ==> r->Ok_0 == (Distribution::FisherSnedecor { f1, f2 }) && r->Ok_0.wf(),
        r is Err ==> r->Err_0@ == bad_parameters(),
{
    if 1 <= f1 && f1 <= COUNT_MAX && 1 <= f2 && f2 <= COUNT_MAX {
        Ok(Distribution::FisherSnedecor { f1, f2 })
    } else {
        Err(bad_parameters_err())
    }
}

/// The title line of a report on this distribution.
pub open spec fn title_spec(d: Distribution) -> Seq<char> {
    match d {
        Distribution::Binomial { n, p } => "X ~ B("@ + dec_seq(n as nat) + ", "@ + fx_seq(
            p.units as int,
        ) + ")"@,
        Distribution::NegativeBinomial { k, p } => "X ~ NB("@ + dec_seq(k as nat) + ", "@
            + fx_seq(p.units as int) + ")"@,
        Distribution::Geometric { p } => "X ~ G("@ + fx_seq(p.units as int) + ")"@,
        Distribution::Poisson { l } => "X ~ Poisson("@ + fx_seq(l.units as int) + ")"@,
        Distribution::Uniform { a, b } => "X ~ U("@ + fx_seq(a.units as int) + ", "@ + fx_seq(
            b.units as int,
        ) + ")"@,
        Distribution::Exponential { l } => "X ~ Exp("@ + fx_seq(l.units as int) + ")"@,
        Distribution::Normal { m, s } => "X ~ N("@ + fx_seq(m.units as int) + ", "@ + fx_seq(
            s.units as int,
        ) + "²)"@,
        Distribution::StudentsT { f } => "X ~ t("@ + dec_seq(f as nat) + ")"@,
        Distribution::ChiSquared { f } => "X ~ χ²("@ + dec_seq(f as nat) + ")"@,
        Distribution::FisherSnedecor { f1, f2 } => "X ~ F("@ + dec_seq(f1 as nat) + ", "@
            + dec_seq(f2 as nat) + ")"@,
    }
}

impl Distribution {
    /// The title line of a report on this distribution, naming the family
    /// and its parameters.
    pub fn title(&self) -> (r: String)
        requires
            self.wf(),
        ensures
            r@ == title_spec(*self),
    {
        match *self {
            Distribution::Binomial { n, p } => {
                let mut s = String::from_str("X ~ B(");
                let ns = dec_string(n);
                s.append(ns.as_str());
                s.append(", ");
                let ps = fx_string(p);
                s.append(ps.as_str());
                s.append(")");
                proof {
                    assert(s@ =~= title_spec(*self));
                }
                s
            },
            Distribution::NegativeBinomial { k, p } => {
                let mut s = String::from_str("X ~ NB(");
                let ns = dec_string(k);
                s.append(ns.as_str());
                s.append(", ");
                let ps = fx_string(p);
                s.append(ps.as_str());
                s.append(")");
                proof {
                    assert(s@ =~= title_spec(*self));
                }
                s
            },
            Distribution::Geometric { p } => {
                let mut s = String::from_str("X ~ G(");
                let ps = fx_string(p);
                s.append(ps.as_str());
                s.append(")");
                proof {
                    assert(s@ =~= title_spec(*self));
                }
                s
            },
            Distribution::Poisson { l } => {
                let mut s = String::from_str("X ~ Poisson(");
                let ls = fx_string(l);
                s.append(ls.as_str());
                s.append(")");
                proof {
                    assert(s@ =~= title_spec(*self));
                }
                s
            },
            Distribution::Uniform { a, b } => {
                let mut s = String::from_str("X ~ U(");
                let as_ = fx_string(a);
                s.append(as_.as_str());
                s.append(", ");
                let bs = fx_string(b);
                s.append(bs.as_str());
                s.append(")");
                proof {
                    assert(s@ =~= title_spec(*self));
                }
                s
            },
            Distribution::Exponential { l } => {
                let mut s = String::from_str("X ~ Exp(");
                let ls = fx_string(l);
                s.append(ls.as_str());
                s.append(")");
                proof {
                    assert(s@ =~= title_spec(*self));
                }
                s
            },
            Distribution::Normal { m, s: sd } => {
                let mut s = String::from_str("X ~ N(");
                let ms = fx_string(m);
                s.append(ms.as_str());
                s.append(", ");
                let ss = fx_string(sd);
                s.append(ss.as_str());
                s.append("²)");
                proof {
                    assert(s@ =~= title_spec(*self));
                }
                s
            },
            Distribution::StudentsT { f } => {
                let mut s = String::from_str("X ~ t(");
                let fs = dec_string(f);
                s.append(fs.as_str());
                s.append(")");
                proof {
                    assert(s@ =~= title_spec(*self));
                }
                s
            },
            Distribution::ChiSquared { f } => {
                let mut s = String::from_str("X ~ χ²(");
                let fs = dec_string(f);
                s.append(fs.as_str());
                s.append(")");
                proof {
                    assert(s@ =~= title_spec(*self));
                }
                s
            },
            Distribution::FisherSnedecor { f1, f2 } => {
                let mut s = String::from_str("X ~ F(");
                let fs = dec_string(f1);
                s.append(fs.as_str());
                s.append(", ");
                let gs = dec_string(f2);
                s.append(gs.as_str());
                s.append(")");
                proof {
                    assert(s@ =~= title_spec(*self));
                }
                s
            },
        }
    }
}


/// The expected value of each family, in 10^-10 units: `np` for the
/// binomial, `k/p` for the negative binomial, `1/p` for the geometric, the
/// rate for the Poisson, the midpoint for the uniform, `1/l` for the
/// exponential, the location for the normal and for Student's t (undefined
/// at one degree of freedom), `f` for chi-squared, and `f2/(f2-2)` for
/// Fisher-Snedecor (undefined up to two degrees of freedom). Quotients are
/// rounded to the nearest unit.
pub open spec fn mean_spec(d: Distribution) -> Option<int> {
    match d {
        Distribution::Binomial { n, p } => Some(n * p.units),
        Distribution::NegativeBinomial { k, p } => Some(rnd(k * SCALE * SCALE, p.units as int)),
        Distribution::Geometric { p } => Some(rnd(SCALE * SCALE, p.units as int)),
        Distribution::Poisson { l } => Some(l.units as int),
        Distribution::Uniform { a, b } => Some(rnd(a.units + b.units, 2)),
        Distribution::Exponential { l } => Some(rnd(SCALE * SCALE, l.units as int)),
        Distribution::Normal { m, s } => Some(m.units as int),
        Distribution::StudentsT { f } => if f > 1 {
            Some(0)
        } else {
            None
        },
        Distribution::ChiSquared { f } => Some(f * SCALE),
        Distribution::FisherSnedecor { f1, f2 } => if f2 > 2 {
            Some(rnd(f2 * SCALE, f2 - 2))
        } else {
            None
        },
    }
}

/// The variance of each family, in 10^-10 units: `np(1-p)`, `(1-p)k/p²`,
/// `(1-p)/p²`, the rate, `(b-a)²/12`, `1/l²`, `s²`, `f/(f-2)` for Student's
/// t (undefined up to two degrees of freedom), `2f`, and
/// `2 f2² (f1+f2-2) / (f1 (f2-2)² (f2-4))` for Fisher-Snedecor (undefined up
/// to four degrees of freedom). Quotients are rounded to the nearest unit.
pub open spec fn variance_spec(d: Distribution) -> Option<int> {
    match d {
        Distribution::Binomial { n, p } => Some(rnd(n * p.units * (SCALE - p.units), SCALE as int)),
        Distribution::NegativeBinomial { k, p } => Some(
            rnd((SCALE - p.units) * k * SCALE * SCALE, p.units * p.units),
        ),
        Distribution::Geometric { p } => Some(
            rnd((SCALE - p.units) * SCALE * SCALE, p.units * p.units),
        ),
        Distribution::Poisson { l } => Some(l.units as int),
        Distribution::Uniform { a, b } => Some(
            rnd((b.units - a.units) * (b.units - a.units), 12 * SCALE),
        ),
        Distribution::Exponential { l } => Some(
            rnd(SCALE * SCALE * SCALE, l.units * l.units),
        ),
        Distribution::Normal { m, s } => Some(rnd(s.units * s.units, SCALE as int)),
        Distribution::StudentsT { f } => if f > 2 {
            Some(rnd(f * SCALE, f - 2))
        } else {
            None
        },
        Distribution::ChiSquared { f } => Some(2 * f * SCALE),
        Distribution::FisherSnedecor { f1, f2 } => if f2 > 4 {
            Some(
                rnd(
                    2 * f2 * f2 * (f1 + f2 - 2) * SCALE,
                    f1 * (f2 - 2) * (f2 - 2) * (f2 - 4),
                ),
            )
        } else {
            None
        },
    }
}

impl Distribution {
    /// The expected value, when the family defines one.
    pub fn mean(&self) -> (r: Option<Fx>)
        requires
            self.wf(),
        ensures
            r is Some <==> mean_spec(*self) is Some,
            r is Some ==> r->0.units == mean_spec(*self)->0,
            r is Some ==> -PROD_LIMIT <= r->0.units <= PROD_LIMIT,
    {
        match *self {
            Distribution::Binomial { n, p } => {
                proof {
                    assert((n as int) * p.units <= PROD_LIMIT && 0 <= (n as int) * p.units)
                        by (nonlinear_arith)
                        requires
                            0 <= n <= COUNT_MAX,
                            0 <= p.units <= SCALE;
                }
                Some(Fx { units: (n as i128) * p.units })
            },
            Distribution::NegativeBinomial { k, p } => {
                let a: i128 = (k as i128) * SCALE;
                proof {
                    assert(0 <= (k as int) * SCALE <= PROD_LIMIT && (k as int) * SCALE * SCALE
                        <= PROD_LIMIT && k * SCALE * SCALE == (k as int) * SCALE * SCALE)
                        by (nonlinear_arith)
                        requires
                            0 <= k <= COUNT_MAX;
                }
                let u = mul_div_round(a, SCALE, p.units);
                Some(Fx { units: u })
            },
            Distribution::Geometric { p } => {
                let u = mul_div_round(SCALE, SCALE, p.units);
                Some(Fx { units: u })
            },
            Distribution::Poisson { l } => Some(l),
            Distribution::Uniform { a, b } => {
                let u = div_round(a.units + b.units, 2);
                Some(Fx { units: u })
            },
            Distribution::Exponential { l } => {
                let u = mul_div_round(SCALE, SCALE, l.units);
                Some(Fx { units: u })
            },
            Distribution::Normal { m, .. } => Some(m),
            Distribution::StudentsT { f } => {
                if f > 1 {
                    Some(Fx { units: 0 })
                } else {
                    None
                }
            },
            Distribution::ChiSquared { f } => {
                proof {
                    assert(0 <= (f as int) * SCALE <= PROD_LIMIT) by (nonlinear_arith)
                        requires
                            0 <= f <= COUNT_MAX;
                }
                Some(Fx { units: (f as i128) * SCALE })
            },
            Distribution::FisherSnedecor { f1: _, f2 } => {
                if f2 > 2 {
                    proof {
                        assert(0 <= (f2 as int) * SCALE <= PROD_LIMIT) by (nonlinear_arith)
                            requires
                                0 <= f2 <= COUNT_MAX;
                    }
                    let u = div_round((f2 as i128) * SCALE, (f2 as i128) - 2);
                    Some(Fx { units: u })
                } else {
                    None
                }
            },
        }
    }

    /// The variance, when the family defines one.
    pub fn variance(&self) -> (r: Option<Fx>)
        requires
            self.wf(),
        ensures
            r is Some <==> variance_spec(*self) is Some,
            r is Some ==> r->0.units == variance_spec(*self)->0,
            r is Some ==> -PROD_LIMIT <= r->0.units <= PROD_LIMIT,
    {
        match *self {
            Distribution::Binomial { n, p } => {
                proof {
                    assert(0 <= (n as int) * p.units <= PROD_LIMIT && -PROD_LIMIT <= (n as int)
                        * p.units * (SCALE - p.units) <= PROD_LIMIT && n * p.units * (SCALE
                        - p.units) == (n as int) * p.units * (SCALE - p.units))
                        by (nonlinear_arith)
                        requires
                            0 <= n <= COUNT_MAX,
                            0 <= p.units <= SCALE;
                }
                let a: i128 = (n as i128) * p.units;
                let u = mul_div_round(a, SCALE - p.units, SCALE);
                Some(Fx { units: u })
            },
            Distribution::NegativeBinomial { k, p } => {
                proof {
                    assert(0 <= (SCALE - p.units) * (k as int) <= PROD_LIMIT && 0 <= (SCALE
                        - p.units) * (k as int) * SCALE <= PROD_LIMIT && 0 <= (SCALE - p.units) * (
                    k as int) * SCALE * SCALE <= PROD_LIMIT && 0 < p.units * p.units <= PROD_LIMIT
                        && (SCALE - p.units) * k * SCALE * SCALE == (SCALE - p.units) * (k as int)
                        * SCALE * SCALE) by (nonlinear_arith)
                        requires
                            0 <= k <= COUNT_MAX,
                            1 <= p.units <= SCALE;
                }
                let a: i128 = (SCALE - p.units) * (k as i128);
                let b: i128 = a * SCALE;
                let d: i128 = p.units * p.units;
                let u = mul_div_round(b, SCALE, d);
                Some(Fx { units: u })
            },
            Distribution::Geometric { p } => {
                proof {
                    assert(0 <= (SCALE - p.units) * SCALE <= PROD_LIMIT && 0 <= (SCALE - p.units)
                        * SCALE * SCALE <= PROD_LIMIT && 0 < p.units * p.units <= PROD_LIMIT)
                        by (nonlinear_arith)
                        requires
                            1 <= p.units <= SCALE;
                }
                let a: i128 = (SCALE - p.units) * SCALE;
                let d: i128 = p.units * p.units;
                let u = mul_div_round(a, SCALE, d);
                Some(Fx { units: u })
            },
            Distribution::Poisson { l } => Some(l),
            Distribution::Uniform { a, b } => {
                proof {
                    assert(0 <= (b.units - a.units) * (b.units - a.units) <= PROD_LIMIT)
                        by (nonlinear_arith)
                        requires
                            0 < b.units - a.units <= 2 * PARAM_MAX;
                }
                let w: i128 = b.units - a.units;
                let u = mul_div_round(w, w, 12 * SCALE);
                Some(Fx { units: u })
            },
            Distribution::Exponential { l } => {
                proof {
                    assert(0 < l.units * l.units <= PROD_LIMIT && SCALE * SCALE * SCALE
                        <= PROD_LIMIT) by (nonlinear_arith)
                        requires
                            1 <= l.units <= PARAM_MAX;
                }
                let a: i128 = SCALE * SCALE;
                let d: i128 = l.units * l.units;
                let u = mul_div_round(a, SCALE, d);
                Some(Fx { units: u })
            },
            Distribution::Normal { m: _, s } => {
                proof {
                    assert(0 <= s.units * s.units <= PROD_LIMIT) by (nonlinear_arith)
                        requires
                            1 <= s.units <= PARAM_MAX;
                }
                let u = mul_div_round(s.units, s.units, SCALE);
                Some(Fx { units: u })
            },
            Distribution::StudentsT { f } => {
                if f > 2 {
                    proof {
                        assert(0 <= (f as int) * SCALE <= PROD_LIMIT) by (nonlinear_arith)
                            requires
                                0 <= f <= COUNT_MAX;
                    }
                    let u = div_round((f as i128) * SCALE, (f as i128) - 2);
                    Some(Fx { units: u })
                } else {
                    None
                }
            },
            Distribution::ChiSquared { f } => {
                proof {
                    assert(0 <= 2 * (f as int) * SCALE <= PROD_LIMIT && 2 * f * SCALE == 2 * (
                    f as int) * SCALE) by (nonlinear_arith)
                        requires
                            0 <= f <= COUNT_MAX;
                }
                Some(Fx { units: 2 * (f as i128) * SCALE })
            },
            Distribution::FisherSnedecor { f1, f2 } => {
                if f2 > 4 {
                    proof {
                        assert(0 <= 2 * (f2 as int) * (f2 as int) <= PROD_LIMIT && 0 <= 2 * (
                        f2 as int) * (f2 as int) * ((f1 as int) + (f2 as int) - 2) <= PROD_LIMIT
                            && 0 < (f1 as int) * ((f2 as int) - 2) <= PROD_LIMIT && 0 < (
                        f1 as int) * ((f2 as int) - 2) * ((f2 as int) - 2) <= PROD_LIMIT && 0 < (
                        f1 as int) * ((f2 as int) - 2) * ((f2 as int) - 2) * ((
                        f2 as int) - 4) <= PROD_LIMIT && 0 <= 2 * (f2 as int) * (f2 as int) * ((
                        f1 as int) + (f2 as int) - 2) * SCALE <= PROD_LIMIT && 2 * f2 * f2 * (f1
                            + f2 - 2) * SCALE == 2 * (f2 as int) * (f2 as int) * ((f1 as int) + (
                        f2 as int) - 2) * SCALE && f1 * (f2 - 2) * (f2 - 2) * (f2 - 4) == (
                        f1 as int) * ((f2 as int) - 2) * ((f2 as int) - 2) * ((f2 as int) - 4))
                            by (nonlinear_arith)
                            requires
                                1 <= f1 <= COUNT_MAX,
                                4 < f2 <= COUNT_MAX;
                    }
                    let num_a: i128 = 2 * (f2 as i128) * (f2 as i128);
                    let num_b: i128 = num_a * ((f1 as i128) + (f2 as i128) - 2);
                    let den: i128 = (f1 as i128) * ((f2 as i128) - 2) * ((f2 as i128) - 2) * ((
                    f2 as i128) - 4);
                    let u = mul_div_round(num_b, SCALE, den);
                    Some(Fx { units: u })
                } else {
                    None
                }
            },
        }
    }
}

/// The effective point probability shown for a query at `x` whose raw
/// underlying value is `v`: for the negative binomial, a trial count below
/// `k` has probability zero and the underlying value is ignored; every other
/// family shows the raw value.
pub open spec fn eff_pmf(d: Distribution, x: Fx, v: Fx) -> int {
    match d {
        Distribution::NegativeBinomial { k, .. } => if x.units < k * SCALE {
            0
        } else {
            v.units as int
        },
        _ => v.units as int,
    }
}

/// The effective cumulative probability at `x` whose raw underlying value is
/// `v`: for the negative binomial, zero below trial `k`; every other family
/// takes the raw value.
pub open spec fn eff_cdf(d: Distribution, x: Fx, v: Fx) -> int {
    match d {
        Distribution::NegativeBinomial { k, .. } => if x.units < k * SCALE {
            0
        } else {
            v.units as int
        },
        _ => v.units as int,
    }
}

impl Distribution {
    /// For a discrete family, the argument at which the underlying
    /// statistics engine evaluates its mass and cumulative functions for a
    /// query at the whole number `x`. The negative binomial counts total
    /// trials, so a query at trial `x` evaluates the underlying
    /// extra-failures distribution at `x - k`; below trial `k` nothing is
    /// evaluated and the probability is zero.
    pub fn query_arg(&self, x: Fx) -> (r: Option<u64>)
        requires
            self.wf(),
            0 <= x.units <= PARAM_MAX,
        ensures
            match *self {
                Distribution::NegativeBinomial { k, .. } => {
                    &&& (r is Some <==> x.units >= k * SCALE)
                    &&& (r is Some ==> r->0 == (x.units as int) / (SCALE as int) - k)
                },
                _ => r == Some(((x.units as int) / (SCALE as int)) as u64),
            },
    {
        let q: u64 = ((x.units as u128) / 10_000_000_000) as u64;
        proof {
            assert(x.units as u128 == x.units as int);
            assert((x.units as u128) / 10_000_000_000 == (x.units as int) / (SCALE as int));
            assert(0 <= (x.units as int) / (SCALE as int) <= 100_000_000) by (nonlinear_arith)
                requires
                    0 <= x.units <= PARAM_MAX;
        }
        match *self {
            Distribution::NegativeBinomial { k, .. } => {
                if q >= k {
                    proof {
                        assert(x.units >= k * SCALE <==> (x.units as int) / (SCALE as int) >= k)
                            by (nonlinear_arith)
                            requires
                                0 <= x.units,
                                0 <= k;
                    }
                    Some(q - k)
                } else {
                    proof {
                        assert(x.units >= k * SCALE <==> (x.units as int) / (SCALE as int) >= k)
                            by (nonlinear_arith)
                            requires
                                0 <= x.units,
                                0 <= k;
                    }
                    None
                }
            },
            _ => Some(q),
        }
    }

    /// Evaluates this distribution at the query points. The caller supplies,
    /// for each point, the underlying mass-or-density and cumulative values,
    /// already rounded to 10^-10 units; this function owns everything else:
    /// the moments, the wording of every line, the negative binomial's
    /// below-`k` zero rule, and the interval partition, whose values sum to
    /// exactly one whenever there is at least one point.
    pub fn analyze(&self, pts: &Vec<Fx>, pmf_vals: &Vec<Fx>, cdf_vals: &Vec<Fx>) -> (res: Analysis)
        requires
            self.wf(),
            pts@.len() == pmf_vals@.len(),
            pts@.len() == cdf_vals@.len(),
            forall|i: int|
                0 <= i < pts@.len() ==> -PARAM_MAX <= (#[trigger] pts@[i]).units <= PARAM_MAX,
            forall|i: int|
                0 <= i < pmf_vals@.len() ==> 0 <= (#[trigger] pmf_vals@[i]).units <= PROD_LIMIT,
            forall|i: int|
                0 <= i < cdf_vals@.len() ==> 0 <= (#[trigger] cdf_vals@[i]).units <= SCALE,
        ensures
            res.wf(),
            res.title@ == title_spec(*self),
            res.expected is Some <==> mean_spec(*self) is Some,
            res.expected is Some ==> res.expected->0.units == mean_spec(*self)->0,
            res.variance is Some <==> variance_spec(*self) is Some,
            res.variance is Some ==> res.variance->0.units == variance_spec(*self)->0,
            res.pdf_eval@.len() == pts@.len(),
            forall|i: int|
                0 <= i < pts@.len() ==> (#[trigger] res.pdf_eval@[i]).desc@ == (
                if self.spec_discrete() {
                    crate::analyze::pmf_desc(fx_seq(pts@[i].units as int))
                } else {
                    crate::analyze::pdf_desc(fx_seq(pts@[i].units as int))
                }),
            forall|i: int|
                0 <= i < pts@.len() ==> (#[trigger] res.pdf_eval@[i]).val is Some
                    && res.pdf_eval@[i].val->0.units == eff_pmf(*self, pts@[i], pmf_vals@[i]),
            pts@.len() == 0 ==> res.cdf_eval@.len() == 0,
            pts@.len() > 0 ==> res.cdf_eval@.len() == pts@.len() + 1,
            pts@.len() > 0 ==> {
                &&& res.cdf_eval@[0].desc@ == crate::analyze::first_desc(
                    fx_seq(pts@[0].units as int),
                )
                &&& res.cdf_eval@[0].val is Some
                &&& res.cdf_eval@[0].val->0.units == eff_cdf(*self, pts@[0], cdf_vals@[0])
            },
            forall|i: int|
                1 <= i < pts@.len() ==> {
                    &&& (#[trigger] res.cdf_eval@[i]).desc@ == crate::analyze::mid_desc(
                        fx_seq(pts@[i - 1].units as int),
                        fx_seq(pts@[i].units as int),
                    )
                    &&& res.cdf_eval@[i].val is Some
                    &&& res.cdf_eval@[i].val->0.units == eff_cdf(*self, pts@[i], cdf_vals@[i])
                        - eff_cdf(*self, pts@[i - 1], cdf_vals@[i - 1])
                },
            pts@.len() > 0 ==> {
                &&& res.cdf_eval@[pts@.len() as int].desc@ == crate::analyze::last_desc(
                    fx_seq(pts@[pts@.len() - 1].units as int),
                )
                &&& res.cdf_eval@[pts@.len() as int].val is Some
                &&& res.cdf_eval@[pts@.len() as int].val->0.units == SCALE - eff_cdf(
                    *self,
                    pts@[pts@.len() - 1],
                    cdf_vals@[pts@.len() - 1],
                )
            },
            pts@.len() > 0 ==> crate::analyze::lines_val_sum(res.cdf_eval@) == SCALE,
    {
        // apply the below-k zero rule of the negative binomial
        let mut pv: Vec<Fx> = Vec::new();
        let mut cv: Vec<Fx> = Vec::new();
        let mut i: usize = 0;
        while i < pts.len()
            invariant
                i <= pts@.len(),
                self.wf(),
                pts@.len() == pmf_vals@.len(),
                pts@.len() == cdf_vals@.len(),
                forall|k: int|
                    0 <= k < pts@.len() ==> -PARAM_MAX <= (#[trigger] pts@[k]).units <= PARAM_MAX,
                forall|k: int|
                    0 <= k < pmf_vals@.len() ==> 0 <= (#[trigger] pmf_vals@[k]).units
                        <= PROD_LIMIT,
                forall|k: int|
                    0 <= k < cdf_vals@.len() ==> 0 <= (#[trigger] cdf_vals@[k]).units <= SCALE,
                pv@.len() == i,
                cv@.len() == i,
                forall|k: int|
                    0 <= k < i ==> (#[trigger] pv@[k]).units == eff_pmf(
                        *self,
                        pts@[k],
                        pmf_vals@[k],
                    ),
                forall|k: int|
                    0 <= k < i ==> (#[trigger] cv@[k]).units == eff_cdf(
                        *self,
                        pts@[k],
                        cdf_vals@[k],
                    ),
                forall|k: int| 0 <= k < i ==> 0 <= (#[trigger] pv@[k]).units <= PROD_LIMIT,
                forall|k: int| 0 <= k < i ==> 0 <= (#[trigger] cv@[k]).units <= SCALE,
            decreases pts@.len() - i,
        {
            let zero: bool = match *self {
                Distribution::NegativeBinomial { k, .. } => {
                    proof {
                        assert(0 <= k * SCALE <= PROD_LIMIT) by (nonlinear_arith)
                            requires
                                0 <= k <= COUNT_MAX;
                    }
                    pts[i].units < (k as i128) * SCALE
                },
                _ => false,
            };
            if zero {
                pv.push(Fx { units: 0 });
                cv.push(Fx { units: 0 });
            } else {
                pv.push(pmf_vals[i]);
                cv.push(cdf_vals[i]);
            }
            i = i + 1;
        }
        let pdf_eval = crate::analyze::pdf_points(pts, &pv, self.is_discrete());
        let cdf_eval = crate::analyze::cdf_intervals(pts, &cv);
        let title = self.title();
        let expected = self.mean();
        let variance = self.variance();
        Analysis { title, expected, variance, pdf_eval, cdf_eval }
    }
}

/// For every valid pair `(n, p)`, the binomial's expected value is exactly
/// `n` times `p` -- in units, `n * p.units`, with no rounding at all -- and
/// its variance is `n * p * (1 - p)` rounded to the nearest 10^-10 unit:
/// the scaled product differs from the reported value by at most half a
/// unit, and when `p` has at most five decimal places the variance too is
/// exact.
pub proof fn lemma_binomial_moments(n: u64, p: Fx)
    requires
        n <= COUNT_MAX,
        0 <= p.units <= SCALE,
    ensures
        mean_spec(Distribution::Binomial { n, p }) == Some((n as int) * p.units),
        variance_spec(Distribution::Binomial { n, p }) is Some,
        2 * (variance_spec(Distribution::Binomial { n, p })->0 * SCALE - (n as int) * p.units * (
        SCALE - p.units)) <= SCALE,
        2 * ((n as int) * p.units * (SCALE - p.units) - variance_spec(
            Distribution::Binomial { n, p },
        )->0 * SCALE) <= SCALE,
        p.units % 100_000 == 0 ==> variance_spec(Distribution::Binomial { n, p })->0 * SCALE == (
        n as int) * p.units * (SCALE - p.units),
{
    let d = Distribution::Binomial { n, p };
    let prod = (n as int) * p.units * (SCALE - p.units);
    assert(variance_spec(d)->0 == rnd(prod, SCALE as int));
    crate::fixed::lemma_rnd_close(prod, SCALE as int);
    if p.units % 100_000 == 0 {
        let a = p.units / 100_000;
        let b = 100_000 - a;
        assert(p.units == a * 100_000);
        assert(SCALE - p.units == b * 100_000) by (nonlinear_arith)
            requires
                p.units == a * 100_000,
                b == 100_000 - a,
                0 <= p.units <= SCALE;
        assert(prod == ((n as int) * a * b) * SCALE) by (nonlinear_arith)
            requires
                p.units == a * 100_000,
                SCALE - p.units == b * 100_000,
                prod == (n as int) * p.units * (SCALE - p.units);
        crate::fixed::lemma_rnd_exact((n as int) * a * b, SCALE as int);
        assert(rnd(prod, SCALE as int) * SCALE == prod) by (nonlinear_arith)
            requires
                prod == ((n as int) * a * b) * SCALE,
                rnd(prod, SCALE as int) == (n as int) * a * b;
    }
}

} // verus!
