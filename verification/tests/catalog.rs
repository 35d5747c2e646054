use statc::distributions as dist;
use statc::fixed::Fx;

use statrs::distribution::{Continuous, ContinuousCDF, Discrete, DiscreteCDF};
use statrs::statistics::Distribution as SrMoments;

fn fx(x: f64) -> Fx {
    Fx { units: (x * 1e10).round() as i128 }
}

fn f64_of(v: Fx) -> f64 {
    v.units as f64 / 1e10
}

fn feq(received: f64, expected: f64) {
    assert!(
        (received - expected).abs() <= 1e-10,
        "expected: {expected}, received: {received}"
    );
}

/// Equality up to the ten-decimal representation of the parameters: a mean
/// like `1/p` amplifies the rounding of `p` itself.
fn feq_repr(received: f64, expected: f64) {
    assert!(
        (received - expected).abs() <= 1e-6,
        "expected: {expected}, received: {received}"
    );
}

#[test]
fn binomial_test() {
    // if X ~ B(n, p), then E(X) = np and var(X) = np(1-p)
    let binom = dist::binomial(10, fx(0.5)).unwrap();
    feq(f64_of(binom.mean().unwrap()), 5.0);
    feq(f64_of(binom.variance().unwrap()), 2.5);
    let sr = statrs::distribution::Binomial::new(0.5, 10).unwrap();
    feq(sr.pmf(6), 0.205078125);

    let binom = dist::binomial(10, fx(0.2)).unwrap();
    feq(f64_of(binom.mean().unwrap()), 2.0);
    feq(f64_of(binom.variance().unwrap()), 1.6);
    let sr = statrs::distribution::Binomial::new(0.2, 10).unwrap();
    feq(sr.pmf(2), 0.301989888);
    feq(sr.cdf(4), 0.9672065024);
}

#[test]
fn negatve_binomial_test() {
    // if X ~ NB(k, p), then E(X) = k/p and var(X) = (1-p)k/p²;
    // the PMF finds the probability of winning for the kth time on the
    // xth trial with win-rate p
    let d = dist::negative_binomial(6, fx(1.0 / 6.0)).unwrap();
    feq_repr(f64_of(d.mean().unwrap()), 36.0);
    feq_repr(f64_of(d.variance().unwrap()), 180.0);
    let sr = statrs::distribution::NegativeBinomial::new(6.0, 1.0 / 6.0).unwrap();
    let arg = d.query_arg(fx(10.0)).unwrap();
    feq(sr.pmf(arg), 0.00130238102);

    let d = dist::negative_binomial(4, fx(0.55)).unwrap();
    let sr = statrs::distribution::NegativeBinomial::new(4.0, 0.55).unwrap();
    let arg = d.query_arg(fx(6.0)).unwrap();
    feq(sr.pmf(arg), 0.18530015624);
}

#[test]
fn geometric_test() {
    // if X ~ G(p), then E(X) = 1/p and var(X) = (1-p)/p²
    let d = dist::geometric(fx(0.05)).unwrap();
    feq(f64_of(d.mean().unwrap()), 20.0);
    feq(f64_of(d.variance().unwrap()), 380.0);
    let sr = statrs::distribution::Geometric::new(0.05).unwrap();
    feq(sr.pmf(5), 0.0407253125);
}

#[test]
fn poisson_test() {
    // if X ~ Poisson(l), then E(X) = l and var(X) = l
    let d = dist::poisson(fx(3.0)).unwrap();
    feq(f64_of(d.mean().unwrap()), 3.0);
    feq(f64_of(d.variance().unwrap()), 3.0);
    let sr = statrs::distribution::Poisson::new(3.0).unwrap();
    feq(sr.pmf(0), 0.04978706836);
    feq(sr.cdf(3), 0.64723188878);
    let sr = statrs::distribution::Poisson::new(8.0).unwrap();
    feq(sr.pmf(6), 0.12213821545);
}

#[test]
fn uniform_test() {
    // if X ~ U(a, b), then E(X) = (a+b)/2 and var(X) = (b-a)²/12
    let d = dist::uniform(fx(2.0), fx(4.0)).unwrap();
    feq(f64_of(d.mean().unwrap()), 3.0);
    feq(f64_of(d.variance().unwrap()), 0.3333333333);
    let sr = statrs::distribution::Uniform::new(2.0, 4.0).unwrap();
    feq(sr.pdf(2.0), 0.5);
    feq(sr.pdf(3.0), 0.5);
    feq(sr.pdf(1.99), 0.0);
    feq(sr.pdf(4.01), 0.0);
}

#[test]
fn exponential_test() {
    // if X ~ Exp(l), then E(X) = 1/l and var(X) = 1/l²
    let d = dist::exponential(fx(0.2)).unwrap();
    feq(f64_of(d.mean().unwrap()), 5.0);
    feq(f64_of(d.variance().unwrap()), 25.0);
    let sr = statrs::distribution::Exp::new(0.2).unwrap();
    feq(sr.cdf(8.0), 0.798103482005);
}

#[test]
fn normal_test() {
    // if X ~ N(m, s²), then E(X) = m and var(X) = s²
    let d = dist::normal(fx(10.0), fx(5.0)).unwrap();
    feq(f64_of(d.mean().unwrap()), 10.0);
    feq(f64_of(d.variance().unwrap()), 25.0);
    let sr = statrs::distribution::Normal::new(10.0, 5.0).unwrap();
    feq(sr.cdf(8.0), 0.344578258389);
    let _ = sr.mean();
}

#[test]
fn students_t_test() {
    // if X ~ t(f), then E(X) = 0 for f > 1 and var(X) = f/(f-2) for f > 2
    assert!(dist::students_t(0).is_err());

    let t = |f: u64| dist::students_t(f).unwrap();
    assert!(t(1).mean().is_none());
    assert!(t(1).variance().is_none());
    feq(f64_of(t(2).mean().unwrap()), 0.0);
    assert!(t(2).variance().is_none());
    feq(f64_of(t(3).mean().unwrap()), 0.0);
    feq(f64_of(t(3).variance().unwrap()), 3.0);
    feq(f64_of(t(7).mean().unwrap()), 0.0);
    feq(f64_of(t(7).variance().unwrap()), 1.4);

    let sr = statrs::distribution::StudentsT::new(0.0, 1.0, 8.0).unwrap();
    feq(sr.pdf(8.0), 0.0000196463);
    let sr = statrs::distribution::StudentsT::new(0.0, 1.0, 9.0).unwrap();
    feq(sr.cdf(1.2), 0.8696134013);
}

#[test]
fn chi_squared_test() {
    // if X ~ χ²(f), then E(X) = f and var(X) = 2f
    let d = dist::chi_squared(8).unwrap();
    feq(f64_of(d.mean().unwrap()), 8.0);
    feq(f64_of(d.variance().unwrap()), 16.0);
    let sr = statrs::distribution::ChiSquared::new(9.0).unwrap();
    feq(sr.cdf(1.2), 0.0011788966);
}

#[test]
fn fisher_snedecor_test() {
    // if X ~ F(f1, f2), then E(X) = f2/(f2-2) for f2 > 2, and the variance
    // is defined only for f2 > 4
    assert!(dist::fisher_snedecor(0, 0).is_err());
    assert!(dist::fisher_snedecor(0, 1).is_err());
    assert!(dist::fisher_snedecor(1, 0).is_err());
    assert!(dist::fisher_snedecor(1, 1).is_ok());

    let f = |f1: u64, f2: u64| dist::fisher_snedecor(f1, f2).unwrap();
    assert!(f(1, 1).mean().is_none());
    assert!(f(1, 1).variance().is_none());
    assert!(f(1, 2).mean().is_none());
    assert!(f(2, 1).mean().is_none());
    assert!(f(3, 2).mean().is_none());
    feq(f64_of(f(3, 3).mean().unwrap()), 3.0);
    assert!(f(3, 3).variance().is_none());
    assert!(f(4, 2).mean().is_none());
    feq(f64_of(f(4, 3).mean().unwrap()), 3.0);
    feq(f64_of(f(4, 4).mean().unwrap()), 2.0);
    feq(f64_of(f(5, 3).mean().unwrap()), 3.0);
    feq(f64_of(f(5, 4).mean().unwrap()), 2.0);
    feq(f64_of(f(5, 5).mean().unwrap()), 1.6666666666666667);
    feq(f64_of(f(5, 5).variance().unwrap()), 8.88888888888889);

    let sr = statrs::distribution::FisherSnedecor::new(4.0, 2.0).unwrap();
    feq(sr.pdf(5.0), 0.0300525920);
    let sr = statrs::distribution::FisherSnedecor::new(6.0, 9.0).unwrap();
    feq(sr.cdf(4.0), 0.9687440402);
}
