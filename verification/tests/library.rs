use statc::analyze::cdf_intervals;
use statc::data_set::{parse_num, Data, Parser};
use statc::descriptions::{binomial, negative_binomial, ord_string, wrap, Mode};
use statc::display::LineList;
use statc::fixed::Fx;
use statc::format::fx_string;
use statc::info::info;
use statc::inverse::{invert_queries, Area};
use statc::math::{pooled_variance, MathOps, Round};
use statc::printer::{about, margin};
use statc::secret::rot13;
use statc::utils::{err, ResultOps};

use statrs::distribution::ContinuousCDF;

fn fx(x: f64) -> Fx {
    Fx { units: (x * 1e10).round() as i128 }
}

fn lines(text: &str) -> Vec<String> {
    text.split('\n').map(|s| s.to_string()).collect()
}

#[test]
fn formatting() {
    assert_eq!(fx_string(fx(0.0)), "0");
    assert_eq!(fx_string(fx(2.0)), "2");
    assert_eq!(fx_string(fx(1.6)), "1.6");
    assert_eq!(fx_string(fx(-2.75)), "-2.75");
    assert_eq!(fx_string(fx(0.0000001024)), "0.0000001024");
    assert_eq!(fx_string(fx(1234.5)), "1234.5");
    assert_eq!(fx_string(Fx { units: 1 }), "0.0000000001");
}

#[test]
fn number_parsing() {
    assert_eq!(parse_num("10").unwrap().units, 100_000_000_000);
    assert_eq!(parse_num("3.14").unwrap().units, 31_400_000_000);
    assert_eq!(parse_num("-0.5").unwrap().units, -5_000_000_000);
    assert_eq!(parse_num("+2").unwrap().units, 20_000_000_000);
    assert_eq!(parse_num("0.0000000001").unwrap().units, 1);
    assert!(parse_num("").is_none());
    assert!(parse_num("abc").is_none());
    assert!(parse_num(".5").is_none());
    assert!(parse_num("1.").is_none());
    assert!(parse_num("1e5").is_none());
    assert!(parse_num("1 2").is_none());
    // more than eight whole digits would not stay exact
    assert!(parse_num("123456789").is_none());
    // more than ten decimal places would not stay exact
    assert!(parse_num("0.12345678901").is_none());
}

#[test]
fn partition_edges() {
    // no points give no interval lines at all
    let r = cdf_intervals(&vec![], &vec![]);
    assert_eq!(r.len(), 0);

    // a single point gives exactly two lines whose values sum to one
    let r = cdf_intervals(&vec![fx(1.5)], &vec![fx(0.25)]);
    assert_eq!(r.len(), 2);
    assert_eq!(r[0].desc, "P(X <= 1.5)");
    assert_eq!(r[0].val.unwrap().units, 2_500_000_000);
    assert_eq!(r[1].desc, "P(X > 1.5)");
    assert_eq!(r[1].val.unwrap().units, 7_500_000_000);

    // points are taken in the order supplied, not sorted
    let r = cdf_intervals(&vec![fx(2.0), fx(1.0)], &vec![fx(0.8), fx(0.3)]);
    assert_eq!(r[1].desc, "P(2 < X <= 1)");
    assert_eq!(r[1].val.unwrap().units, -5_000_000_000);
    let total: i128 = r.iter().map(|l| l.val.unwrap().units).sum();
    assert_eq!(total, 10_000_000_000);
}

#[test]
fn bad_parameters_everywhere() {
    assert_eq!(statc::distributions::binomial(5, fx(1.5)).unwrap_err(), "Bad parameters.");
    assert_eq!(statc::distributions::binomial(5, fx(-0.1)).unwrap_err(), "Bad parameters.");
    assert_eq!(statc::distributions::negative_binomial(4, fx(0.0)).unwrap_err(), "Bad parameters.");
    assert_eq!(statc::distributions::geometric(fx(0.0)).unwrap_err(), "Bad parameters.");
    assert_eq!(statc::distributions::poisson(fx(0.0)).unwrap_err(), "Bad parameters.");
    assert_eq!(statc::distributions::poisson(fx(-1.0)).unwrap_err(), "Bad parameters.");
    assert_eq!(statc::distributions::uniform(fx(2.0), fx(2.0)).unwrap_err(), "Bad parameters.");
    assert_eq!(statc::distributions::uniform(fx(3.0), fx(2.0)).unwrap_err(), "Bad parameters.");
    assert_eq!(statc::distributions::exponential(fx(0.0)).unwrap_err(), "Bad parameters.");
    assert_eq!(statc::distributions::normal(fx(0.0), fx(0.0)).unwrap_err(), "Bad parameters.");
    assert_eq!(statc::distributions::students_t(0).unwrap_err(), "Bad parameters.");
    assert_eq!(statc::distributions::chi_squared(0).unwrap_err(), "Bad parameters.");
    assert_eq!(statc::distributions::fisher_snedecor(0, 5).unwrap_err(), "Bad parameters.");
}

#[test]
fn dataset_errors() {
    let e = Data::new(&lines(""), Parser::Single).unwrap_err();
    assert_eq!(e, "empty dataset.");
    let e = Data::new(&lines("nonsense\nmore nonsense"), Parser::Single).unwrap_err();
    assert_eq!(e, "empty dataset.");
    let e = Data::new(&lines("1 0.5\n2 0.2"), Parser::Single).unwrap_err();
    assert_eq!(e, "total probability is not 1.");
}

#[test]
fn dataset_balance() {
    // explicit probabilities totalling one are kept exactly as given
    let d = Data::new(&lines("1 0.5\n3 0.5"), Parser::Single).unwrap();
    assert!(!d.uniform);
    assert_eq!(d.mean().units, 20_000_000_000);

    // all-zero probabilities balance to 1/n each, and the mean becomes the
    // plain arithmetic average of the values
    let d = Data::new(&lines("10\n20\n30"), Parser::Single).unwrap();
    assert!(d.uniform);
    assert_eq!(d.mean().units, 200_000_000_000);

    // a three-way balance is exact even though 1/3 has no finite decimal
    let d = Data::new(&lines("1\n1\n1"), Parser::Single).unwrap();
    assert_eq!(d.mean().units, 10_000_000_000);

    // a single point has no sample variance
    let d = Data::new(&lines("5"), Parser::Single).unwrap();
    assert!(d.var_s().is_none());
    assert_eq!(d.n(), 1);
}

#[test]
fn pooled_variance_errors() {
    assert_eq!(pooled_variance(1, fx(1.0), 1, fx(1.0)).unwrap_err(), "Bad parameters.");
    assert_eq!(pooled_variance(0, fx(1.0), 5, fx(1.0)).unwrap_err(), "Bad parameters.");
    assert_eq!(pooled_variance(3, fx(-1.0), 4, fx(1.0)).unwrap_err(), "Bad parameters.");
}

#[test]
fn quantile_queries() {
    let q = invert_queries(Area::Left, fx(0.05));
    assert_eq!(q.len(), 1);
    assert_eq!(q[0].units, 500_000_000);

    let q = invert_queries(Area::Right, fx(0.05));
    assert_eq!(q[0].units, 9_500_000_000);

    let q = invert_queries(Area::Mid, fx(0.9));
    assert_eq!(q.len(), 2);
    assert_eq!(q[0].units, 500_000_000);
    assert_eq!(q[1].units, 9_500_000_000);
}

#[test]
fn quantile_inverts_cdf() {
    // the reported bound takes the cumulative probability back to the
    // target, within numerical tolerance
    let sr = statrs::distribution::Normal::new(0.0, 1.0).unwrap();
    for p in [0.05, 0.3, 0.5, 0.77, 0.95] {
        let x = sr.inverse_cdf(p);
        assert!((sr.cdf(x) - p).abs() < 1e-9);
    }
}

#[test]
fn fast_exponentiation() {
    assert_eq!(MathOps::pow(2u64, 10), 1024);
    assert_eq!(MathOps::pow(10u64, 0), 1);
    assert_eq!(MathOps::pow(10u64, 9), 1_000_000_000);
    assert_eq!(MathOps::pow(0u64, 0), 1);
    assert_eq!(MathOps::pow(0u64, 7), 0);
    assert_eq!(MathOps::pow(1u64, 63), 1);
    assert_eq!(MathOps::pow(3u64, 5), 243);
}

#[test]
fn rounding_places() {
    assert_eq!(fx(1.23456).roundn(2), fx(1.23));
    assert_eq!(fx(1.235).roundn(2), fx(1.24));
    assert_eq!(fx(-1.235).roundn(2), fx(-1.24));
    assert_eq!(fx(7.5).roundn(0), fx(8.0));
    assert_eq!(fx(1.23456).roundn(10), fx(1.23456));
}

#[test]
fn rot13_round_trip() {
    assert_eq!(rot13("Uryyb, Jbeyq!"), "Hello, World!");
    assert_eq!(rot13(&rot13("Keep doing pullups")), "Keep doing pullups");
    assert_eq!(rot13("abcXYZ 123"), "nopKLM 123");
}

#[test]
fn wrapping_text() {
    let short = "a few words".to_string();
    assert_eq!(wrap(short.clone()), short);

    let long = "The quick brown fox jumps over the lazy dog while the rain in Spain falls mainly on the plain".to_string();
    let wrapped = wrap(long.clone());
    assert!(wrapped.contains('\n'));
    assert_eq!(wrapped.replace('\n', " "), long);
}

#[test]
fn ordinals() {
    assert_eq!(ord_string(1), "1st");
    assert_eq!(ord_string(2), "2nd");
    assert_eq!(ord_string(3), "3rd");
    assert_eq!(ord_string(4), "4th");
    assert_eq!(ord_string(20), "20th");
    assert_eq!(ord_string(21), "21st");
    // the final digit alone picks the suffix
    assert_eq!(ord_string(11), "11st");
    assert_eq!(ord_string(12), "12nd");
}

#[test]
fn query_descriptions() {
    let b = binomial(Mode::Eq, 10, fx(0.2), 4);
    assert_eq!(
        b.replace('\n', " "),
        "Probability of winning exactly 4 times in 10 trials given a win-rate of 0.2."
    );
    let nb = negative_binomial(Mode::Le, 3, fx(0.5), 7);
    assert_eq!(
        nb.replace('\n', " "),
        "Probability of winning for the 3rd time before and including the 7th trial given a win-rate of 0.5."
    );
}

#[test]
fn aligned_output() {
    assert_eq!(about("X ~ B(n, p)", "P(win x times in n tries)"), "X ~ B(n, p)     P(win x times in n tries)");
    assert_eq!(margin("ab", "c", 5), "ab    | c");
    assert_eq!(margin("ab", "", 5), "ab");
    assert_eq!(margin("abcdef", "x", 3), "abcdef | x");

    let mut list = LineList::new();
    list.header("totals");
    list.push("long description", fx(1.0));
    list.push("x", fx(2.5));
    assert_eq!(list.render(), "[totals]\nlong description | 1\nx                | 2.5");
}

#[test]
fn result_helpers() {
    let e: Result<u32, String> = err("boom");
    assert_eq!(e.unwrap_err(), "boom");
    let r: Result<u32, u32> = Ok(3);
    assert_eq!(r.serr("bad"), Ok(3));
    let r: Result<u32, u32> = Err(7);
    assert_eq!(r.serr("bad"), Err("bad".to_string()));
    let r: Result<u32, u32> = Ok(3);
    assert_eq!(r.clear(), Ok(()));
}

#[test]
fn catalog_flags() {
    let i = info();
    assert!(i.binomial.discrete);
    assert!(i.negative_binomial.discrete);
    assert!(i.poisson.discrete);
    assert!(i.geometric.discrete);
    assert!(!i.normal.discrete);
    assert!(!i.uniform.discrete);
    assert!(!i.exponential.discrete);
    assert!(!i.chi_squared.discrete);
    assert!(!i.students_t.discrete);
    assert!(!i.fisher_snedecor.discrete);
}

#[test]
fn below_first_trial_is_impossible() {
    // the negative binomial counts total trials: before the k-th trial the
    // probability is zero and nothing is evaluated underneath
    let d = statc::distributions::negative_binomial(4, fx(0.3)).unwrap();
    assert_eq!(d.query_arg(fx(3.0)), None);
    assert_eq!(d.query_arg(fx(4.0)), Some(0));
    assert_eq!(d.query_arg(fx(6.0)), Some(2));
}
