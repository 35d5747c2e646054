use statc::display::Analysis;
use statc::distributions::Distribution;
use statc::fixed::Fx;

use statrs::distribution::{Discrete, DiscreteCDF};

fn fx(x: f64) -> Fx {
    Fx { units: (x * 1e10).round() as i128 }
}

fn analyze_discrete<D>(d: &Distribution, dist: &D, pts: &[u64]) -> Analysis
where
    D: Discrete<u64, f64> + DiscreteCDF<u64, f64>,
{
    let points: Vec<Fx> = pts.iter().map(|x| fx(*x as f64)).collect();
    let mut pmf_vals: Vec<Fx> = Vec::new();
    let mut cdf_vals: Vec<Fx> = Vec::new();
    for p in &points {
        match d.query_arg(*p) {
            Some(arg) => {
                pmf_vals.push(fx(dist.pmf(arg)));
                cdf_vals.push(fx(dist.cdf(arg)));
            }
            None => {
                pmf_vals.push(fx(0.0));
                cdf_vals.push(fx(0.0));
            }
        }
    }
    d.analyze(&points, &pmf_vals, &cdf_vals)
}

#[test]
fn binomial() {
    let d = statc::distributions::binomial(10, fx(0.2)).unwrap();
    let sr = statrs::distribution::Binomial::new(0.2, 10).unwrap();

    let a = analyze_discrete(&d, &sr, &[]);
    assert_eq!(a.render(), "X ~ B(10, 0.2)\nexpected | 2\nvariance | 1.6");

    let a = analyze_discrete(&d, &sr, &[4]);
    assert_eq!(
        a.render(),
        "X ~ B(10, 0.2)\n\
         expected  | 2\n\
         variance  | 1.6\n\
         P(X = 4)  | 0.088080384\n\
         P(X <= 4) | 0.9672065024\n\
         P(X > 4)  | 0.0327934976"
    );

    let a = analyze_discrete(&d, &sr, &[4, 10]);
    assert_eq!(
        a.render(),
        "X ~ B(10, 0.2)\n\
         expected       | 2\n\
         variance       | 1.6\n\
         P(X = 4)       | 0.088080384\n\
         P(X = 10)      | 0.0000001024\n\
         P(X <= 4)      | 0.9672065024\n\
         P(4 < X <= 10) | 0.0327934976\n\
         P(X > 10)      | 0"
    );
}

#[test]
fn negative_binomial() {
    let d = statc::distributions::negative_binomial(4, fx(0.3)).unwrap();
    let sr = statrs::distribution::NegativeBinomial::new(4.0, 0.3).unwrap();

    let a = analyze_discrete(&d, &sr, &[]);
    assert_eq!(
        a.render(),
        "X ~ NB(4, 0.3)\nexpected | 13.3333333333\nvariance | 31.1111111111"
    );

    let a = analyze_discrete(&d, &sr, &[3]);
    assert_eq!(
        a.render(),
        "X ~ NB(4, 0.3)\n\
         expected  | 13.3333333333\n\
         variance  | 31.1111111111\n\
         P(X = 3)  | 0\n\
         P(X <= 3) | 0\n\
         P(X > 3)  | 1"
    );

    let a = analyze_discrete(&d, &sr, &[6, 8]);
    assert_eq!(
        a.render(),
        "X ~ NB(4, 0.3)\n\
         expected      | 13.3333333333\n\
         variance      | 31.1111111111\n\
         P(X = 6)      | 0.03969\n\
         P(X = 8)      | 0.06806835\n\
         P(X <= 6)     | 0.07047\n\
         P(6 < X <= 8) | 0.12363435\n\
         P(X > 8)      | 0.80589565"
    );
}

#[test]
fn geometric() {
    let d = statc::distributions::geometric(fx(0.2)).unwrap();
    let sr = statrs::distribution::Geometric::new(0.2).unwrap();

    let a = analyze_discrete(&d, &sr, &[]);
    assert_eq!(a.render(), "X ~ G(0.2)\nexpected | 5\nvariance | 20");

    let a = analyze_discrete(&d, &sr, &[5]);
    assert_eq!(
        a.render(),
        "X ~ G(0.2)\n\
         expected  | 5\n\
         variance  | 20\n\
         P(X = 5)  | 0.08192\n\
         P(X <= 5) | 0.67232\n\
         P(X > 5)  | 0.32768"
    );

    let a = analyze_discrete(&d, &sr, &[5, 9]);
    assert_eq!(
        a.render(),
        "X ~ G(0.2)\n\
         expected      | 5\n\
         variance      | 20\n\
         P(X = 5)      | 0.08192\n\
         P(X = 9)      | 0.033554432\n\
         P(X <= 5)     | 0.67232\n\
         P(5 < X <= 9) | 0.193462272\n\
         P(X > 9)      | 0.134217728"
    );
}

#[test]
fn poisson() {
    let d = statc::distributions::poisson(fx(4.2)).unwrap();
    let sr = statrs::distribution::Poisson::new(4.2).unwrap();

    let a = analyze_discrete(&d, &sr, &[]);
    assert_eq!(a.render(), "X ~ Poisson(4.2)\nexpected | 4.2\nvariance | 4.2");

    let a = analyze_discrete(&d, &sr, &[3]);
    assert_eq!(
        a.render(),
        "X ~ Poisson(4.2)\n\
         expected  | 4.2\n\
         variance  | 4.2\n\
         P(X = 3)  | 0.1851653826\n\
         P(X <= 3) | 0.3954033696\n\
         P(X > 3)  | 0.6045966304"
    );

    let a = analyze_discrete(&d, &sr, &[3, 5]);
    assert_eq!(
        a.render(),
        "X ~ Poisson(4.2)\n\
         expected      | 4.2\n\
         variance      | 4.2\n\
         P(X = 3)      | 0.1851653826\n\
         P(X = 5)      | 0.1633158674\n\
         P(X <= 3)     | 0.3954033696\n\
         P(3 < X <= 5) | 0.3577395191\n\
         P(X > 5)      | 0.2468571113"
    );
}
