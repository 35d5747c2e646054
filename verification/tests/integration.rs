use statc::data_set::{compare, Data, Parser};
use statc::display::Analysis;
use statc::distributions::Distribution;
use statc::fixed::Fx;
use statc::inverse::{invert, invert_queries, Area};
use statc::math::pooled_variance;

use statrs::distribution::{Continuous, ContinuousCDF, Discrete, DiscreteCDF};

fn fx(x: f64) -> Fx {
    Fx { units: (x * 1e10).round() as i128 }
}

fn f64_of(v: Fx) -> f64 {
    v.units as f64 / 1e10
}

fn analyze_discrete<D>(d: &Distribution, dist: &D, pts: &[u64]) -> Analysis
where
    D: Discrete<u64, f64> + DiscreteCDF<u64, f64>,
{
    let points: Vec<Fx> = pts.iter().map(|x| fx(*x as f64)).collect();
    let mut pmf_vals: Vec<Fx> = Vec::new();
    let mut cdf_vals: Vec<Fx> = Vec::new();
    for p in &points {
        match d.query_arg(*p) {
            Some(arg) => {
                pmf_vals.push(fx(dist.pmf(arg)));
                cdf_vals.push(fx(dist.cdf(arg)));
            }
            None => {
                pmf_vals.push(fx(0.0));
                cdf_vals.push(fx(0.0));
            }
        }
    }
    d.analyze(&points, &pmf_vals, &cdf_vals)
}

fn analyze_continuous<D>(d: &Distribution, dist: &D, pts: &[f64]) -> Analysis
where
    D: Continuous<f64, f64> + ContinuousCDF<f64, f64>,
{
    let points: Vec<Fx> = pts.iter().map(|x| fx(*x)).collect();
    let pmf_vals: Vec<Fx> = pts.iter().map(|x| fx(dist.pdf(*x))).collect();
    let cdf_vals: Vec<Fx> = pts.iter().map(|x| fx(dist.cdf(*x))).collect();
    d.analyze(&points, &pmf_vals, &cdf_vals)
}

fn lines(text: &str) -> Vec<String> {
    text.split('\n').map(|s| s.to_string()).collect()
}

#[test]
fn binom_test() {
    let d = statc::distributions::binomial(10, fx(0.2)).unwrap();
    let sr = statrs::distribution::Binomial::new(0.2, 10).unwrap();

    let a = analyze_discrete(&d, &sr, &[]);
    assert_eq!(a.render(), "X ~ B(10, 0.2)\nexpected | 2\nvariance | 1.6");

    let a = analyze_discrete(&d, &sr, &[4]);
    assert_eq!(
        a.render(),
        "X ~ B(10, 0.2)\n\
         expected  | 2\n\
         variance  | 1.6\n\
         P(X = 4)  | 0.088080384\n\
         P(X <= 4) | 0.9672065024\n\
         P(X > 4)  | 0.0327934976"
    );

    let a = analyze_discrete(&d, &sr, &[4, 10]);
    assert_eq!(
        a.render(),
        "X ~ B(10, 0.2)\n\
         expected       | 2\n\
         variance       | 1.6\n\
         P(X = 4)       | 0.088080384\n\
         P(X = 10)      | 0.0000001024\n\
         P(X <= 4)      | 0.9672065024\n\
         P(4 < X <= 10) | 0.0327934976\n\
         P(X > 10)      | 0"
    );
}

#[test]
fn nbinom_test() {
    let d = statc::distributions::negative_binomial(4, fx(0.3)).unwrap();
    let sr = statrs::distribution::NegativeBinomial::new(4.0, 0.3).unwrap();

    let a = analyze_discrete(&d, &sr, &[]);
    assert_eq!(
        a.render(),
        "X ~ NB(4, 0.3)\nexpected | 13.3333333333\nvariance | 31.1111111111"
    );

    let a = analyze_discrete(&d, &sr, &[3]);
    assert_eq!(
        a.render(),
        "X ~ NB(4, 0.3)\n\
         expected  | 13.3333333333\n\
         variance  | 31.1111111111\n\
         P(X = 3)  | 0\n\
         P(X <= 3) | 0\n\
         P(X > 3)  | 1"
    );

    let a = analyze_discrete(&d, &sr, &[6, 8]);
    assert_eq!(
        a.render(),
        "X ~ NB(4, 0.3)\n\
         expected      | 13.3333333333\n\
         variance      | 31.1111111111\n\
         P(X = 6)      | 0.03969\n\
         P(X = 8)      | 0.06806835\n\
         P(X <= 6)     | 0.07047\n\
         P(6 < X <= 8) | 0.12363435\n\
         P(X > 8)      | 0.80589565"
    );
}

#[test]
fn geom_test() {
    let d = statc::distributions::geometric(fx(0.2)).unwrap();
    let sr = statrs::distribution::Geometric::new(0.2).unwrap();

    let a = analyze_discrete(&d, &sr, &[]);
    assert_eq!(a.render(), "X ~ G(0.2)\nexpected | 5\nvariance | 20");

    let a = analyze_discrete(&d, &sr, &[5]);
    assert_eq!(
        a.render(),
        "X ~ G(0.2)\n\
         expected  | 5\n\
         variance  | 20\n\
         P(X = 5)  | 0.08192\n\
         P(X <= 5) | 0.67232\n\
         P(X > 5)  | 0.32768"
    );

    let a = analyze_discrete(&d, &sr, &[5, 9]);
    assert_eq!(
        a.render(),
        "X ~ G(0.2)\n\
         expected      | 5\n\
         variance      | 20\n\
         P(X = 5)      | 0.08192\n\
         P(X = 9)      | 0.033554432\n\
         P(X <= 5)     | 0.67232\n\
         P(5 < X <= 9) | 0.193462272\n\
         P(X > 9)      | 0.134217728"
    );
}

#[test]
fn pois_test() {
    let d = statc::distributions::poisson(fx(4.2)).unwrap();
    let sr = statrs::distribution::Poisson::new(4.2).unwrap();

    let a = analyze_discrete(&d, &sr, &[]);
    assert_eq!(a.render(), "X ~ Poisson(4.2)\nexpected | 4.2\nvariance | 4.2");

    let a = analyze_discrete(&d, &sr, &[3]);
    assert_eq!(
        a.render(),
        "X ~ Poisson(4.2)\n\
         expected  | 4.2\n\
         variance  | 4.2\n\
         P(X = 3)  | 0.1851653826\n\
         P(X <= 3) | 0.3954033696\n\
         P(X > 3)  | 0.6045966304"
    );

    let a = analyze_discrete(&d, &sr, &[3, 5]);
    assert_eq!(
        a.render(),
        "X ~ Poisson(4.2)\n\
         expected      | 4.2\n\
         variance      | 4.2\n\
         P(X = 3)      | 0.1851653826\n\
         P(X = 5)      | 0.1633158674\n\
         P(X <= 3)     | 0.3954033696\n\
         P(3 < X <= 5) | 0.3577395191\n\
         P(X > 5)      | 0.2468571113"
    );
}

#[test]
fn unif_test() {
    let d = statc::distributions::uniform(fx(1.0), fx(2.0)).unwrap();
    let sr = statrs::distribution::Uniform::new(1.0, 2.0).unwrap();

    let a = analyze_continuous(&d, &sr, &[]);
    assert_eq!(a.render(), "X ~ U(1, 2)\nexpected | 1.5\nvariance | 0.0833333333");

    let a = analyze_continuous(&d, &sr, &[1.4]);
    assert_eq!(
        a.render(),
        "X ~ U(1, 2)\n\
         expected    | 1.5\n\
         variance    | 0.0833333333\n\
         pdf @ 1.4   | 1\n\
         P(X <= 1.4) | 0.4\n\
         P(X > 1.4)  | 0.6"
    );

    let a = analyze_continuous(&d, &sr, &[1.4, 2.1]);
    assert_eq!(
        a.render(),
        "X ~ U(1, 2)\n\
         expected          | 1.5\n\
         variance          | 0.0833333333\n\
         pdf @ 1.4         | 1\n\
         pdf @ 2.1         | 0\n\
         P(X <= 1.4)       | 0.4\n\
         P(1.4 < X <= 2.1) | 0.6\n\
         P(X > 2.1)        | 0"
    );
}

#[test]
fn exp_test() {
    let d = statc::distributions::exponential(fx(1.6)).unwrap();
    let sr = statrs::distribution::Exp::new(1.6).unwrap();

    let a = analyze_continuous(&d, &sr, &[]);
    assert_eq!(a.render(), "X ~ Exp(1.6)\nexpected | 0.625\nvariance | 0.390625");

    let a = analyze_continuous(&d, &sr, &[3.0]);
    assert_eq!(
        a.render(),
        "X ~ Exp(1.6)\n\
         expected  | 0.625\n\
         variance  | 0.390625\n\
         pdf @ 3   | 0.0131675953\n\
         P(X <= 3) | 0.991770253\n\
         P(X > 3)  | 0.008229747"
    );

    let a = analyze_continuous(&d, &sr, &[3.0, 5.0]);
    assert_eq!(
        a.render(),
        "X ~ Exp(1.6)\n\
         expected      | 0.625\n\
         variance      | 0.390625\n\
         pdf @ 3       | 0.0131675953\n\
         pdf @ 5       | 0.0005367402\n\
         P(X <= 3)     | 0.991770253\n\
         P(3 < X <= 5) | 0.0078942844\n\
         P(X > 5)      | 0.0003354626"
    );
}

#[test]
fn norm_test() {
    let d = statc::distributions::normal(fx(10.0), fx(2.0)).unwrap();
    let sr = statrs::distribution::Normal::new(10.0, 2.0).unwrap();

    let a = analyze_continuous(&d, &sr, &[]);
    assert_eq!(a.render(), "X ~ N(10, 2²)\nexpected | 10\nvariance | 4");

    let a = analyze_continuous(&d, &sr, &[3.0]);
    assert_eq!(
        a.render(),
        "X ~ N(10, 2²)\n\
         expected  | 10\n\
         variance  | 4\n\
         pdf @ 3   | 0.0004363413\n\
         P(X <= 3) | 0.0002326291\n\
         P(X > 3)  | 0.9997673709"
    );

    let a = analyze_continuous(&d, &sr, &[-1.0, 3.0]);
    assert_eq!(
        a.render(),
        "X ~ N(10, 2²)\n\
         expected       | 10\n\
         variance       | 4\n\
         pdf @ -1       | 0.0000000538\n\
         pdf @ 3        | 0.0004363413\n\
         P(X <= -1)     | 0.000000019\n\
         P(-1 < X <= 3) | 0.0002326101\n\
         P(X > 3)       | 0.9997673709"
    );
}

#[test]
fn t_test() {
    let d = statc::distributions::students_t(6).unwrap();
    let sr = statrs::distribution::StudentsT::new(0.0, 1.0, 6.0).unwrap();

    let a = analyze_continuous(&d, &sr, &[]);
    assert_eq!(a.render(), "X ~ t(6)\nexpected | 0\nvariance | 1.5");

    let a = analyze_continuous(&d, &sr, &[0.3]);
    assert_eq!(
        a.render(),
        "X ~ t(6)\n\
         expected    | 0\n\
         variance    | 1.5\n\
         pdf @ 0.3   | 0.3632992517\n\
         P(X <= 0.3) | 0.6128503895\n\
         P(X > 0.3)  | 0.3871496105"
    );

    let a = analyze_continuous(&d, &sr, &[0.3, 0.7]);
    assert_eq!(
        a.render(),
        "X ~ t(6)\n\
         expected          | 0\n\
         variance          | 1.5\n\
         pdf @ 0.3         | 0.3632992517\n\
         pdf @ 0.7         | 0.290782716\n\
         P(X <= 0.3)       | 0.6128503895\n\
         P(0.3 < X <= 0.7) | 0.13207792\n\
         P(X > 0.7)        | 0.2550716905"
    );
}

#[test]
fn chisq_test() {
    let d = statc::distributions::chi_squared(4).unwrap();
    let sr = statrs::distribution::ChiSquared::new(4.0).unwrap();

    let a = analyze_continuous(&d, &sr, &[]);
    assert_eq!(a.render(), "X ~ χ²(4)\nexpected | 4\nvariance | 8");

    let a = analyze_continuous(&d, &sr, &[1.5]);
    assert_eq!(
        a.render(),
        "X ~ χ²(4)\n\
         expected    | 4\n\
         variance    | 8\n\
         pdf @ 1.5   | 0.1771374573\n\
         P(X <= 1.5) | 0.1733585327\n\
         P(X > 1.5)  | 0.8266414673"
    );

    let a = analyze_continuous(&d, &sr, &[1.5, 2.7]);
    assert_eq!(
        a.render(),
        "X ~ χ²(4)\n\
         expected          | 4\n\
         variance          | 8\n\
         pdf @ 1.5         | 0.1771374573\n\
         pdf @ 2.7         | 0.1749871759\n\
         P(X <= 1.5)       | 0.1733585327\n\
         P(1.5 < X <= 2.7) | 0.2174268548\n\
         P(X > 2.7)        | 0.6092146125"
    );
}

#[test]
fn f_test() {
    let d = statc::distributions::fisher_snedecor(4, 5).unwrap();
    let sr = statrs::distribution::FisherSnedecor::new(4.0, 5.0).unwrap();

    let a = analyze_continuous(&d, &sr, &[]);
    assert_eq!(a.render(), "X ~ F(4, 5)\nexpected | 1.6666666667\nvariance | 9.7222222222");

    let a = analyze_continuous(&d, &sr, &[1.0]);
    assert_eq!(
        a.render(),
        "X ~ F(4, 5)\n\
         expected  | 1.6666666667\n\
         variance  | 9.7222222222\n\
         pdf @ 1   | 0.3976140792\n\
         P(X <= 1) | 0.5143428032\n\
         P(X > 1)  | 0.4856571968"
    );

    let a = analyze_continuous(&d, &sr, &[1.0, 1.2]);
    assert_eq!(
        a.render(),
        "X ~ F(4, 5)\n\
         expected        | 1.6666666667\n\
         variance        | 9.7222222222\n\
         pdf @ 1         | 0.3976140792\n\
         pdf @ 1.2       | 0.3252497354\n\
         P(X <= 1)       | 0.5143428032\n\
         P(1 < X <= 1.2) | 0.0720479499\n\
         P(X > 1.2)      | 0.4136092469"
    );
}

fn invert_with<D: ContinuousCDF<f64, f64>>(
    d: &Distribution,
    sr: &D,
    area: Area,
    p: f64,
) -> String {
    let pf = fx(p);
    let queries = invert_queries(area, pf);
    let bounds: Vec<Fx> = queries.iter().map(|q| fx(sr.inverse_cdf(f64_of(*q)))).collect();
    invert(d, area, pf, &bounds).render()
}

#[test]
fn inorm_test() {
    let d = statc::distributions::normal(fx(0.0), fx(1.0)).unwrap();
    let sr = statrs::distribution::Normal::new(0.0, 1.0).unwrap();

    assert_eq!(
        invert_with(&d, &sr, Area::Mid, 0.95),
        "X ~ N(0, 1²)\n\
         a: left bound  | -1.9599639845\n\
         b: right bound | 1.9599639845\n\
         P(a < X < b)   | 0.95"
    );

    assert_eq!(
        invert_with(&d, &sr, Area::Left, 0.05),
        "X ~ N(0, 1²)\n\
         x: right bound | -1.644853627\n\
         P(X > x)       | 0.05"
    );

    assert_eq!(
        invert_with(&d, &sr, Area::Right, 0.05),
        "X ~ N(0, 1²)\n\
         x: left bound | 1.644853627\n\
         P(X > x)      | 0.05"
    );
}

#[test]
fn it_test() {
    let d = statc::distributions::students_t(5).unwrap();
    let sr = statrs::distribution::StudentsT::new(0.0, 1.0, 5.0).unwrap();

    assert_eq!(
        invert_with(&d, &sr, Area::Mid, 0.95),
        "X ~ t(5)\n\
         a: left bound  | -2.5705818356\n\
         b: right bound | 2.5705818356\n\
         P(a < X < b)   | 0.95"
    );

    assert_eq!(
        invert_with(&d, &sr, Area::Left, 0.95),
        "X ~ t(5)\n\
         x: right bound | 2.0150483733\n\
         P(X > x)       | 0.95"
    );

    assert_eq!(
        invert_with(&d, &sr, Area::Right, 0.9),
        "X ~ t(5)\n\
         x: left bound | -1.4758840488\n\
         P(X > x)      | 0.9"
    );
}

#[test]
fn ichisq_test() {
    let d = statc::distributions::chi_squared(5).unwrap();
    let sr = statrs::distribution::ChiSquared::new(5.0).unwrap();

    assert_eq!(
        invert_with(&d, &sr, Area::Right, 0.9),
        "X ~ χ²(5)\n\
         x: left bound | 1.6103210449\n\
         P(X > x)      | 0.9"
    );
}

#[test]
fn vpool_test() {
    let list = pooled_variance(3, fx(2.3), 4, fx(5.4)).unwrap();
    assert_eq!(
        list.render(),
        "[1] sample size        | 3\n\
         [1] sample variance    | 2.3\n\
         [2] sample size        | 4\n\
         [2] sample variance    | 5.4\n\
         pooled sample variance | 4.16\n\
         pooled sample std.dev  | 2.0396078054"
    );
}

#[test]
fn eval_test() {
    // expression evaluation stays outside the verified library
    assert_eq!(format!("{}", meval::eval_str("1+2+3+4").unwrap()), "10");
    assert_eq!(format!("{}", meval::eval_str("5/2").unwrap()), "2.5");
}

#[test]
fn data_test() {
    let data = Data::new(&lines("\n10\n20\n30\n50"), Parser::Single).unwrap();
    assert_eq!(
        data.export().render(),
        "mean                | 27.5\n\
         population variance | 218.75\n\
         population std.dev  | 14.7901994577\n\
         sample variance     | 291.6666666667\n\
         sample std.err      | 17.0782512766"
    );

    let data = Data::new(&lines("\n10 0.1\n20 0.2\n30 0.4\n50 0.3"), Parser::Single).unwrap();
    assert_eq!(
        data.export().render(),
        "mean                | 32\n\
         population variance | 176\n\
         population std.dev  | 13.2664991614\n\
         sample variance     | 234.6666666667\n\
         sample std.err      | 15.3188337241"
    );
}

#[test]
fn diff_test() {
    let data = Data::new(&lines("\n10 11\n20 23\n30 35\n50 52"), Parser::PairDiff).unwrap();
    assert_eq!(
        data.export().render(),
        "mean                | -2.75\n\
         population variance | 2.1875\n\
         population std.dev  | 1.4790199458\n\
         sample variance     | 2.9166666667\n\
         sample std.err      | 1.7078251277"
    );
}

#[test]
fn comp_test() {
    let d1 = Data::new(&lines("\n10\n20\n30\n50"), Parser::Single).unwrap();
    let d2 = Data::new(&lines("\n9\n1\n4\n5"), Parser::Single).unwrap();
    let list = compare(&d1, "data_set_1", &d2, "data_set_2").unwrap();
    assert_eq!(
        list.render(),
        "[data_set_1]\n\
         mean                   | 27.5\n\
         population variance    | 218.75\n\
         population std.dev     | 14.7901994577\n\
         sample variance        | 291.6666666667\n\
         sample std.err         | 17.0782512766\n\
         [data_set_2]\n\
         mean                   | 4.75\n\
         population variance    | 8.1875\n\
         population std.dev     | 2.8613807856\n\
         sample variance        | 10.9166666667\n\
         sample std.err         | 3.3040379336\n\
         [pooled sample]\n\
         [1] sample size        | 4\n\
         [1] sample variance    | 291.6666666667\n\
         [2] sample size        | 4\n\
         [2] sample variance    | 10.9166666667\n\
         pooled sample variance | 151.2916666667\n\
         pooled sample std.dev  | 12.3000677505"
    );
}

#[test]
fn cdf_lines_sum_to_one() {
    // however the points fall, the interval lines always sum to exactly one
    let d = statc::distributions::binomial(10, fx(0.2)).unwrap();
    let sr = statrs::distribution::Binomial::new(0.2, 10).unwrap();
    for pts in [vec![], vec![4], vec![2, 7], vec![9, 1, 5]] {
        let a = analyze_discrete(&d, &sr, &pts);
        if pts.is_empty() {
            assert_eq!(a.cdf_eval.len(), 0);
        } else {
            assert_eq!(a.cdf_eval.len(), pts.len() + 1);
            assert_eq!(lines_val_sum_exec(&a), 10_000_000_000i128);
        }
    }
}

fn lines_val_sum_exec(a: &Analysis) -> i128 {
    a.cdf_eval
        .iter()
        .map(|l| l.val.map(|v| v.units).unwrap_or(0))
        .sum()
}
