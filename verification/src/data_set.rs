use vstd::prelude::*;
use vstd::string::StrSliceExecFns;

use crate::display::{lines_pairs, LineList};
use crate::fixed::{div_round, lemma_pow10_le, lemma_pow10_mul, lemma_pow10_values, lemma_rnd_le, lemma_rnd_nonneg_range, mul_div_round, pow10, rnd, sqrt_rnd, sqrt_round, Fx, PROD_LIMIT, SCALE};
use crate::format::fx_seq;

verus! {

/// Largest magnitude, in 10^-10 units, of a parsed dataset number: the
/// parser takes at most eight whole digits, so values stay below 10^8.
pub const DATA_VAL_MAX: i128 = 1_000_000_000_000_000_000;

/// How the raw lines of a dataset are read: `Single` takes a value with an
/// optional probability per line, `PairDiff` takes two values per line and
/// keeps their difference.
#[derive(Clone, Copy, PartialEq, Eq, Structural, Debug)]
pub enum Parser {
    Single,
    PairDiff,
}

/// One dataset point: a value and its probability, in 10^-10 units.
#[derive(Clone, Copy, PartialEq, Eq, Structural, Debug)]
pub struct DataPoint {
    pub val: Fx,
    pub prob: Fx,
}

/// Whether `c` is a decimal digit.
pub open spec fn is_digit(c: char) -> bool {
    48 <= c as int <= 57
}

/// The value of one decimal digit.
pub open spec fn digit_of(c: char) -> int {
    c as int - 48
}

/// Whether every character is a decimal digit.
pub open spec fn all_digits(s: Seq<char>) -> bool {
    forall|i: int| 0 <= i < s.len() ==> is_digit(#[trigger] s[i])
}

/// The number the decimal digits spell, most significant first.
pub open spec fn digits_val(s: Seq<char>) -> int
    decreases s.len(),
{
    if s.len() == 0 {
        0
    } else {
        digits_val(s.drop_last()) * 10 + digit_of(s.last())
    }
}

/// The position of the first `c` at or after `i`, or -1 when there is none.
pub open spec fn find_char(s: Seq<char>, c: char, i: int) -> int
    decreases s.len() - i,
{
    if i < 0 || i >= s.len() {
        -1
    } else if s[i] == c {
        i
    } else {
        find_char(s, c, i + 1)
    }
}

/// A run of digits spells a number below ten to its length.
pub proof fn lemma_digits_val_bound(s: Seq<char>)
    requires
        all_digits(s),
    ensures
        0 <= digits_val(s) < pow10(s.len()),
    decreases s.len(),
{
    if s.len() > 0 {
        assert(all_digits(s.drop_last())) by {
            assert(forall|i: int|
                0 <= i < s.len() - 1 ==> s.drop_last()[i] == #[trigger] s[i]);
        }
        lemma_digits_val_bound(s.drop_last());
        let h = digits_val(s.drop_last());
        let p = pow10((s.len() - 1) as nat);
        assert(h * 10 + digit_of(s.last()) < p * 10) by (nonlinear_arith)
            requires
                0 <= h < p,
                0 <= digit_of(s.last()) <= 9;
        assert(0 <= h * 10 + digit_of(s.last())) by (nonlinear_arith)
            requires
                0 <= h,
                0 <= digit_of(s.last());
    }
}

/// Where `c` first occurs: scanning past `j` misses without finding `c`,
/// and stopping at `j` on `c` finds it there.
proof fn lemma_find_from(s: Seq<char>, c: char, i: int, j: int)
    requires
        0 <= i <= j <= s.len(),
        forall|k: int| i <= k < j ==> s[k] != c,
        j < s.len() ==> s[j] == c,
    ensures
        find_char(s, c, i) == if j < s.len() {
            j
        } else {
            -1
        },
    decreases j - i,
{
    if i < j {
        lemma_find_from(s, c, i + 1, j);
    }
}

/// The units of 10^-10 spelled by an unsigned decimal: one to eight whole
/// digits, optionally a point and one to ten fractional digits.
pub open spec fn parse_units_body(s: Seq<char>) -> Option<int> {
    let d = find_char(s, '.', 0);
    if d == -1 {
        if 1 <= s.len() <= 8 && all_digits(s) {
            Some(digits_val(s) * SCALE)
        } else {
            None
        }
    } else {
        let ip = s.subrange(0, d);
        let fp = s.subrange(d + 1, s.len() as int);
        if 1 <= ip.len() <= 8 && all_digits(ip) && 1 <= fp.len() <= 10 && all_digits(fp) {
            Some(digits_val(ip) * SCALE + digits_val(fp) * pow10((10 - fp.len()) as nat))
        } else {
            None
        }
    }
}

/// The units of 10^-10 spelled by a decimal with an optional sign.
pub open spec fn parse_units(s: Seq<char>) -> Option<int> {
    if s.len() == 0 {
        None
    } else if s[0] == '-' {
        match parse_units_body(s.subrange(1, s.len() as int)) {
            Some(u) => Some(-u),
            None => None,
        }
    } else if s[0] == '+' {
        parse_units_body(s.subrange(1, s.len() as int))
    } else {
        parse_units_body(s)
    }
}

/// A parsed number stays strictly below 10^8 in magnitude.
pub proof fn lemma_parse_units_bound(s: Seq<char>)
    ensures
        parse_units(s) is Some ==> -DATA_VAL_MAX < parse_units(s)->0 < DATA_VAL_MAX,
{
    if parse_units(s) is Some {
        let body = if s[0] == '-' || s[0] == '+' {
            s.subrange(1, s.len() as int)
        } else {
            s
        };
        lemma_parse_units_body_bound(body);
    }
}

proof fn lemma_parse_units_body_bound(s: Seq<char>)
    ensures
        parse_units_body(s) is Some ==> 0 <= parse_units_body(s)->0 < DATA_VAL_MAX,
{
    lemma_pow10_values();
    if parse_units_body(s) is Some {
        let d = find_char(s, '.', 0);
        if d == -1 {
            lemma_digits_val_bound(s);
            lemma_pow10_le(s.len(), 8);
            assert(digits_val(s) * SCALE < 100000000 * SCALE) by (nonlinear_arith)
                requires
                    0 <= digits_val(s) < 100000000;
            assert(0 <= digits_val(s) * SCALE) by (nonlinear_arith)
                requires
                    0 <= digits_val(s);
        } else {
            let ip = s.subrange(0, d);
            let fp = s.subrange(d + 1, s.len() as int);
            lemma_digits_val_bound(ip);
            lemma_digits_val_bound(fp);
            lemma_pow10_le(ip.len(), 8);
            lemma_pow10_le(fp.len(), 10);
            let w = pow10((10 - fp.len()) as nat);
            lemma_pow10_le((10 - fp.len()) as nat, 10nat);
            assert(digits_val(fp) * w < pow10(fp.len()) * w) by (nonlinear_arith)
                requires
                    0 <= digits_val(fp) < pow10(fp.len()),
                    w > 0;
            assert(pow10(fp.len()) * pow10((10 - fp.len()) as nat) == pow10(10)) by {
                lemma_pow10_mul(fp.len(), (10 - fp.len()) as nat);
            }
            assert(digits_val(ip) * SCALE <= 99999999 * SCALE) by (nonlinear_arith)
                requires
                    0 <= digits_val(ip) <= 99999999;
            assert(0 <= digits_val(ip) * SCALE) by (nonlinear_arith)
                requires
                    0 <= digits_val(ip);
            assert(0 <= digits_val(fp) * w) by (nonlinear_arith)
                requires
                    0 <= digits_val(fp),
                    w > 0;
        }
    }
}

/// The number a run of digits spells, or nothing when the text is empty,
/// too long, or not all digits.
fn digits_value(t: &str, maxlen: usize) -> (r: Option<u128>)
    requires
        1 <= maxlen <= 10,
    ensures
        r is Some <==> (1 <= t@.len() <= maxlen && all_digits(t@)),
        r is Some ==> r->0 == digits_val(t@) && r->0 < pow10(t@.len()),
{
    let n = t.unicode_len();
    if n == 0 || n > maxlen {
        return None;
    }
    let mut i: usize = 0;
    let mut acc: u128 = 0;
    proof {
        lemma_pow10_values();
        lemma_pow10_le(t@.len() as nat, 10nat);
        assert(t@.subrange(0, 0) =~= Seq::<char>::empty());
    }
    while i < n
        invariant
            0 <= i <= n,
            n == t@.len(),
            1 <= n <= 10,
            all_digits(t@.subrange(0, i as int)),
            acc == digits_val(t@.subrange(0, i as int)),
            0 <= acc < pow10(i as nat),
            pow10(n as nat) <= pow10(10),
            pow10(10) == 10000000000,
        decreases n - i,
    {
        let c = t.get_char(i);
        let cu = c as u32;
        if cu < 48 || cu > 57 {
            proof {
                assert(!is_digit(t@[i as int]));
            }
            return None;
        }
        let d: u128 = (cu - 48) as u128;
        proof {
            let pre = t@.subrange(0, i as int);
            let cur = t@.subrange(0, i + 1);
            assert(cur.drop_last() =~= pre);
            assert(cur.last() == t@[i as int]);
            lemma_pow10_le((i + 1) as nat, 10nat);
            assert(acc * 10 + d < pow10((i + 1) as nat)) by (nonlinear_arith)
                requires
                    0 <= acc < pow10(i as nat),
                    0 <= d <= 9,
                    pow10((i + 1) as nat) == 10 * pow10(i as nat);
            assert(acc * 10 + d <= 10000000000u128) by (nonlinear_arith)
                requires
                    0 <= acc * 10 + d < pow10((i + 1) as nat),
                    pow10((i + 1) as nat) <= 10000000000;
        }
        acc = acc * 10 + d;
        i = i + 1;
    }
    proof {
        assert(t@.subrange(0, n as int) =~= t@);
    }
    Some(acc)
}

/// The number a decimal string spells, in 10^-10 units: an optional sign,
/// one to eight whole digits, and optionally a point with one to ten
/// fractional digits. Anything else is not a number.
pub fn parse_num(s: &str) -> (r: Option<Fx>)
    ensures
        r is Some <==> parse_units(s@) is Some,
        r is Some ==> r->0.units == parse_units(s@)->0,
        r is Some ==> -DATA_VAL_MAX < r->0.units < DATA_VAL_MAX,
{
    proof {
        lemma_parse_units_bound(s@);
    }
    let n = s.unicode_len();
    if n == 0 {
        return None;
    }
    let first = s.get_char(0);
    let (neg, start): (bool, usize) = if first == '-' {
        (true, 1)
    } else if first == '+' {
        (false, 1)
    } else {
        (false, 0)
    };
    let body: &str = s.substring_char(start, n);
    let ghost bs = s@.subrange(start as int, n as int);
    proof {
        if start == 0 {
            assert(bs =~= s@);
        }
    }
    let bn = n - start;
    // find the first point, if any
    let mut j: usize = 0;
    let mut dot: bool = false;
    while j < bn && !dot
        invariant
            0 <= j <= bn,
            bn == body@.len(),
            body@ == bs,
            dot ==> j < bn && body@[j as int] == '.',
            forall|k: int| 0 <= k < j ==> body@[k] != '.',
        decreases bn - j + (if dot {
            0int
        } else {
            1int
        }),
    {
        if body.get_char(j) == '.' {
            dot = true;
        } else {
            j = j + 1;
        }
    }
    proof {
        lemma_find_from(body@, '.', 0, j as int);
    }
    let units_mag: u128 = if !dot {
        match digits_value(body, 8) {
            Some(v) => {
                proof {
                    lemma_pow10_values();
                    lemma_pow10_le(body@.len() as nat, 8nat);
                    assert(v * (SCALE as u128) == digits_val(body@) * SCALE) by (nonlinear_arith)
                        requires
                            v == digits_val(body@);
                    assert(v * (SCALE as u128) < 100000000u128 * 10000000000u128)
                        by (nonlinear_arith)
                        requires
                            0 <= v < 100000000;
                }
                v * 10_000_000_000u128
            },
            None => {
                return None;
            },
        }
    } else {
        let ip: &str = body.substring_char(0, j);
        let fp: &str = body.substring_char(j + 1, bn);
        let ipv = match digits_value(ip, 8) {
            Some(v) => v,
            None => {
                return None;
            },
        };
        let fpv = match digits_value(fp, 10) {
            Some(v) => v,
            None => {
                return None;
            },
        };
        let fplen = fp.unicode_len();
        let mut w: u128 = 1;
        let mut k: usize = 0;
        proof {
            lemma_pow10_values();
        }
        while k < 10 - fplen
            invariant
                0 <= k <= 10 - fplen,
                1 <= fplen <= 10,
                w == pow10(k as nat),
                w <= 10000000000,
            decreases 10 - fplen - k,
        {
            proof {
                lemma_pow10_le((k + 1) as nat, 10nat);
                lemma_pow10_values();
            }
            w = w * 10;
            k = k + 1;
        }
        proof {
            lemma_pow10_values();
            lemma_pow10_le(fp@.len() as nat, 10nat);
            lemma_digits_val_bound(fp@);
            lemma_digits_val_bound(ip@);
            lemma_pow10_le(ip@.len() as nat, 8nat);
            assert(fpv * w == digits_val(fp@) * pow10((10 - fp@.len()) as nat))
                by (nonlinear_arith)
                requires
                    fpv == digits_val(fp@),
                    w == pow10((10 - fp@.len()) as nat);
            lemma_pow10_mul(fp@.len() as nat, (10 - fp@.len()) as nat);
            assert(fpv * w < pow10(fp@.len()) * pow10((10 - fp@.len()) as nat))
                by (nonlinear_arith)
                requires
                    0 <= fpv < pow10(fp@.len()),
                    pow10((10 - fp@.len()) as nat) > 0,
                    w == pow10((10 - fp@.len()) as nat);
            assert(ipv * (SCALE as u128) == digits_val(ip@) * SCALE) by (nonlinear_arith)
                requires
                    ipv == digits_val(ip@);
            assert(ipv * (SCALE as u128) <= 99999999u128 * 10000000000u128) by (nonlinear_arith)
                requires
                    0 <= ipv <= 99999999;
        }
        ipv * 10_000_000_000u128 + fpv * w
    };
    proof {
        assert(parse_units(s@) is Some);
        assert(units_mag == parse_units_body(bs)->0);
        lemma_parse_units_body_bound(bs);
    }
    let u: i128 = units_mag as i128;
    if neg {
        Some(Fx { units: -u })
    } else {
        Some(Fx { units: u })
    }
}


/// The value/probability reading of a line: two numbers split at the first
/// space, the second of them non-negative.
pub open spec fn vp_of(s: Seq<char>) -> Option<(int, int)> {
    let sp = find_char(s, ' ', 0);
    if sp == -1 {
        None
    } else {
        let a = parse_units(s.subrange(0, sp));
        let b = parse_units(s.subrange(sp + 1, s.len() as int));
        if a is Some && b is Some && b->0 >= 0 {
            Some((a->0, b->0))
        } else {
            None
        }
    }
}

/// The bare-value reading of a line: one number, probability zero.
pub open spec fn pt_of(s: Seq<char>) -> Option<(int, int)> {
    match parse_units(s) {
        Some(v) => Some((v, 0)),
        None => None,
    }
}

/// The pair-difference reading of a line: two numbers split at the first
/// space, their difference as the value, probability zero.
pub open spec fn diff_of(s: Seq<char>) -> Option<(int, int)> {
    let sp = find_char(s, ' ', 0);
    if sp == -1 {
        None
    } else {
        let a = parse_units(s.subrange(0, sp));
        let b = parse_units(s.subrange(sp + 1, s.len() as int));
        if a is Some && b is Some {
            Some((a->0 - b->0, 0))
        } else {
            None
        }
    }
}

/// The position of the first space, or none.
fn find_space(s: &str) -> (r: Option<usize>)
    ensures
        r is Some ==> 0 <= r->0 < s@.len() && find_char(s@, ' ', 0) == r->0,
        r is None ==> find_char(s@, ' ', 0) == -1,
{
    let n = s.unicode_len();
    let mut j: usize = 0;
    let mut hit: bool = false;
    while j < n && !hit
        invariant
            0 <= j <= n,
            n == s@.len(),
            hit ==> j < n && s@[j as int] == ' ',
            forall|k: int| 0 <= k < j ==> s@[k] != ' ',
        decreases n - j + (if hit {
            0int
        } else {
            1int
        }),
    {
        if s.get_char(j) == ' ' {
            hit = true;
        } else {
            j = j + 1;
        }
    }
    proof {
        lemma_find_from(s@, ' ', 0, j as int);
    }
    if hit {
        Some(j)
    } else {
        None
    }
}

/// Reads a line as a value and its probability.
pub fn val_prob(s: &str) -> (r: Option<DataPoint>)
    ensures
        r is Some <==> vp_of(s@) is Some,
        r is Some ==> r->0.val.units == (vp_of(s@)->0).0 && r->0.prob.units == (vp_of(s@)->0).1,
        r is Some ==> -DATA_VAL_MAX < r->0.val.units < DATA_VAL_MAX && 0 <= r->0.prob.units
            < DATA_VAL_MAX,
{
    let n = s.unicode_len();
    let sp = match find_space(s) {
        Some(j) => j,
        None => {
            return None;
        },
    };
    let left: &str = s.substring_char(0, sp);
    let right: &str = s.substring_char(sp + 1, n);
    let a = match parse_num(left) {
        Some(v) => v,
        None => {
            return None;
        },
    };
    let b = match parse_num(right) {
        Some(v) => v,
        None => {
            return None;
        },
    };
    if b.units < 0 {
        return None;
    }
    Some(DataPoint { val: a, prob: b })
}

/// Reads a line as one bare value with probability zero.
pub fn point(s: &str) -> (r: Option<DataPoint>)
    ensures
        r is Some <==> pt_of(s@) is Some,
        r is Some ==> r->0.val.units == (pt_of(s@)->0).0 && r->0.prob.units == 0,
        r is Some ==> -DATA_VAL_MAX < r->0.val.units < DATA_VAL_MAX,
{
    match parse_num(s) {
        Some(v) => Some(DataPoint { val: v, prob: Fx { units: 0 } }),
        None => None,
    }
}

/// Reads a line as two values and keeps their difference, with probability
/// zero.
pub fn diff(s: &str) -> (r: Option<DataPoint>)
    ensures
        r is Some <==> diff_of(s@) is Some,
        r is Some ==> r->0.val.units == (diff_of(s@)->0).0 && r->0.prob.units == 0,
        r is Some ==> -2 * DATA_VAL_MAX < r->0.val.units < 2 * DATA_VAL_MAX,
{
    let n = s.unicode_len();
    let sp = match find_space(s) {
        Some(j) => j,
        None => {
            return None;
        },
    };
    let left: &str = s.substring_char(0, sp);
    let right: &str = s.substring_char(sp + 1, n);
    let a = match parse_num(left) {
        Some(v) => v,
        None => {
            return None;
        },
    };
    let b = match parse_num(right) {
        Some(v) => v,
        None => {
            return None;
        },
    };
    Some(DataPoint { val: Fx { units: a.units - b.units }, prob: Fx { units: 0 } })
}

/// The points the value/probability reading takes from the lines, in order,
/// unreadable lines dropped.
pub open spec fn parsed_vp(raw: Seq<Seq<char>>) -> Seq<(int, int)>
    decreases raw.len(),
{
    if raw.len() == 0 {
        Seq::<(int, int)>::empty()
    } else {
        parsed_vp(raw.drop_last()) + match vp_of(raw.last()) {
            Some(x) => seq![x],
            None => Seq::<(int, int)>::empty(),
        }
    }
}

/// The points the bare-value reading takes from the lines.
pub open spec fn parsed_pt(raw: Seq<Seq<char>>) -> Seq<(int, int)>
    decreases raw.len(),
{
    if raw.len() == 0 {
        Seq::<(int, int)>::empty()
    } else {
        parsed_pt(raw.drop_last()) + match pt_of(raw.last()) {
            Some(x) => seq![x],
            None => Seq::<(int, int)>::empty(),
        }
    }
}

/// The points the pair-difference reading takes from the lines.
pub open spec fn parsed_diff(raw: Seq<Seq<char>>) -> Seq<(int, int)>
    decreases raw.len(),
{
    if raw.len() == 0 {
        Seq::<(int, int)>::empty()
    } else {
        parsed_diff(raw.drop_last()) + match diff_of(raw.last()) {
            Some(x) => seq![x],
            None => Seq::<(int, int)>::empty(),
        }
    }
}

/// The points a dataset is built from: in `Single` mode the
/// value/probability reading of every line, falling back to the bare-value
/// reading for the whole set only when no line at all read as a pair; in
/// `PairDiff` mode the pair-difference reading.
pub open spec fn points_spec(raw: Seq<Seq<char>>, parser: Parser) -> Seq<(int, int)> {
    match parser {
        Parser::Single => {
            let a = parsed_vp(raw);
            if a.len() == 0 {
                parsed_pt(raw)
            } else {
                a
            }
        },
        Parser::PairDiff => parsed_diff(raw),
    }
}

/// The value and probability unit counts of the stored points.
pub open spec fn points_units(s: Seq<DataPoint>) -> Seq<(int, int)> {
    s.map_values(|p: DataPoint| (p.val.units as int, p.prob.units as int))
}

/// Whether every pair is within the parser's bounds: values below twice the
/// single-number limit (a difference of two numbers), probabilities
/// non-negative and below it.
pub open spec fn pairs_ok(s: Seq<(int, int)>) -> bool {
    forall|i: int|
        0 <= i < s.len() ==> {
            &&& -2 * DATA_VAL_MAX < (#[trigger] s[i]).0 < 2 * DATA_VAL_MAX
            &&& 0 <= s[i].1 < DATA_VAL_MAX
        }
}


/// The sum of the values.
pub open spec fn sum_vals(s: Seq<(int, int)>) -> int
    decreases s.len(),
{
    if s.len() == 0 {
        0
    } else {
        sum_vals(s.drop_last()) + s.last().0
    }
}

/// The sum of the probabilities.
pub open spec fn sum_probs(s: Seq<(int, int)>) -> int
    decreases s.len(),
{
    if s.len() == 0 {
        0
    } else {
        sum_probs(s.drop_last()) + s.last().1
    }
}

/// A value's square, rounded to the nearest unit.
pub open spec fn v2_of(u: int) -> int {
    rnd(u * u, SCALE as int)
}

/// The sum of the squared values, each rounded to the nearest unit.
pub open spec fn sum_v2(s: Seq<(int, int)>) -> int
    decreases s.len(),
{
    if s.len() == 0 {
        0
    } else {
        sum_v2(s.drop_last()) + v2_of(s.last().0)
    }
}

/// The probability-weighted sum of the values, at squared scale.
pub open spec fn sum_pv(s: Seq<(int, int)>) -> int
    decreases s.len(),
{
    if s.len() == 0 {
        0
    } else {
        sum_pv(s.drop_last()) + s.last().1 * s.last().0
    }
}

/// The probability-weighted sum of the squared values, at squared scale.
pub open spec fn sum_pv2(s: Seq<(int, int)>) -> int
    decreases s.len(),
{
    if s.len() == 0 {
        0
    } else {
        sum_pv2(s.drop_last()) + s.last().1 * v2_of(s.last().0)
    }
}

/// The mean in units: the probability-weighted sum of the values, or the
/// plain average once the probabilities have been balanced to `1/n` each.
pub open spec fn mean_units(pts: Seq<(int, int)>, uniform: bool) -> int {
    if uniform {
        rnd(sum_vals(pts), pts.len() as int)
    } else {
        rnd(sum_pv(pts), SCALE as int)
    }
}

/// The second moment in units.
pub open spec fn e2_units(pts: Seq<(int, int)>, uniform: bool) -> int {
    if uniform {
        rnd(sum_v2(pts), pts.len() as int)
    } else {
        rnd(sum_pv2(pts), SCALE as int)
    }
}

/// The population variance in units: the second moment less the squared
/// mean.
pub open spec fn var_p_units(pts: Seq<(int, int)>, uniform: bool) -> int {
    e2_units(pts, uniform) - rnd(mean_units(pts, uniform) * mean_units(pts, uniform), SCALE as int)
}

/// The sample variance in units: the population variance scaled by
/// `n/(n-1)`.
pub open spec fn var_s_units(pts: Seq<(int, int)>, uniform: bool) -> int {
    rnd(var_p_units(pts, uniform) * pts.len(), pts.len() - 1)
}

/// The probabilities of a parsed set are non-negative, so every prefix sum
/// and every single probability stays at or below the total.
proof fn lemma_sum_probs_nonneg(s: Seq<(int, int)>)
    requires
        pairs_ok(s),
    ensures
        sum_probs(s) >= 0,
    decreases s.len(),
{
    if s.len() > 0 {
        assert(pairs_ok(s.drop_last())) by {
            assert(forall|i: int| 0 <= i < s.len() - 1 ==> s.drop_last()[i] == #[trigger] s[i]);
        }
        lemma_sum_probs_nonneg(s.drop_last());
    }
}

proof fn lemma_sum_probs_prefix(s: Seq<(int, int)>, i: int)
    requires
        pairs_ok(s),
        0 <= i <= s.len(),
    ensures
        sum_probs(s.take(i)) <= sum_probs(s),
    decreases s.len() - i,
{
    if i == s.len() {
        assert(s.take(i) =~= s);
    } else {
        lemma_sum_probs_prefix(s, i + 1);
        assert(s.take(i + 1).drop_last() =~= s.take(i));
        assert(s.take(i + 1).last() == s[i]);
    }
}

proof fn lemma_sum_probs_elem(s: Seq<(int, int)>, i: int)
    requires
        pairs_ok(s),
        0 <= i < s.len(),
    ensures
        s[i].1 <= sum_probs(s),
    decreases s.len(),
{
    assert(pairs_ok(s.drop_last())) by {
        assert(forall|k: int| 0 <= k < s.len() - 1 ==> s.drop_last()[k] == #[trigger] s[k]);
    }
    if i == s.len() - 1 {
        lemma_sum_probs_nonneg(s.drop_last());
    } else {
        lemma_sum_probs_elem(s.drop_last(), i);
    }
}

/// The total probability of the stored points.
fn sum_probs_exec(data: &Vec<DataPoint>) -> (t: i128)
    requires
        pairs_ok(points_units(data@)),
        data@.len() <= 1_000_000_000,
    ensures
        t == sum_probs(points_units(data@)),
        0 <= t <= data@.len() * DATA_VAL_MAX,
{
    let ghost pu = points_units(data@);
    let mut t: i128 = 0;
    let mut i: usize = 0;
    proof {
        assert(pu.take(0) =~= Seq::<(int, int)>::empty());
    }
    while i < data.len()
        invariant
            0 <= i <= data@.len(),
            data@.len() <= 1_000_000_000,
            pu == points_units(data@),
            pairs_ok(pu),
            t == sum_probs(pu.take(i as int)),
            0 <= t <= i * DATA_VAL_MAX,
        decreases data@.len() - i,
    {
        proof {
            assert(pu.take(i + 1).drop_last() =~= pu.take(i as int));
            assert(pu.take(i + 1).last() == pu[i as int]);
            assert(pu[i as int].1 == data@[i as int].prob.units);
        }
        t = t + data[i].prob.units;
        i = i + 1;
    }
    proof {
        assert(pu.take(pu.len() as int) =~= pu);
    }
    t
}

/// The sum of the values of the stored points.
fn sum_vals_exec(data: &Vec<DataPoint>) -> (t: i128)
    requires
        pairs_ok(points_units(data@)),
        data@.len() <= 1_000_000_000,
    ensures
        t == sum_vals(points_units(data@)),
        -(data@.len() * 2 * DATA_VAL_MAX) <= t <= data@.len() * 2 * DATA_VAL_MAX,
{
    let ghost pu = points_units(data@);
    let mut t: i128 = 0;
    let mut i: usize = 0;
    proof {
        assert(pu.take(0) =~= Seq::<(int, int)>::empty());
    }
    while i < data.len()
        invariant
            0 <= i <= data@.len(),
            data@.len() <= 1_000_000_000,
            pu == points_units(data@),
            pairs_ok(pu),
            t == sum_vals(pu.take(i as int)),
            -(i * 2 * DATA_VAL_MAX) <= t <= i * 2 * DATA_VAL_MAX,
        decreases data@.len() - i,
    {
        proof {
            assert(pu.take(i + 1).drop_last() =~= pu.take(i as int));
            assert(pu.take(i + 1).last() == pu[i as int]);
            assert(pu[i as int].0 == data@[i as int].val.units);
        }
        t = t + data[i].val.units;
        i = i + 1;
    }
    proof {
        assert(pu.take(pu.len() as int) =~= pu);
    }
    t
}

/// Largest rounded squared value: values stay below `2 * 10^8`, so their
/// squares stay below `4 * 10^16`, which is this many units.
pub const V2_MAX: i128 = 400_000_000_000_000_000_000_000_000;

/// The squared value of one point, rounded to the nearest unit.
fn v2_exec(v: i128) -> (r: i128)
    requires
        -2 * DATA_VAL_MAX < v < 2 * DATA_VAL_MAX,
    ensures
        r == v2_of(v as int),
        0 <= r <= V2_MAX,
{
    proof {
        assert(-PROD_LIMIT <= v * v <= V2_MAX * SCALE) by (nonlinear_arith)
            requires
                -2 * DATA_VAL_MAX < v < 2 * DATA_VAL_MAX;
    }
    let r = mul_div_round(v, v, SCALE);
    proof {
        assert(v * v >= 0) by (nonlinear_arith);
        lemma_rnd_nonneg_range(v * v, SCALE as int, (V2_MAX * SCALE) as int);
        lemma_rnd_le(v * v, SCALE as int, V2_MAX as int);
    }
    r
}

/// The sum of the rounded squared values of the stored points.
fn sum_v2_exec(data: &Vec<DataPoint>) -> (t: i128)
    requires
        pairs_ok(points_units(data@)),
        data@.len() <= 1_000_000_000,
    ensures
        t == sum_v2(points_units(data@)),
        0 <= t <= data@.len() * V2_MAX,
{
    let ghost pu = points_units(data@);
    let mut t: i128 = 0;
    let mut i: usize = 0;
    proof {
        assert(pu.take(0) =~= Seq::<(int, int)>::empty());
    }
    while i < data.len()
        invariant
            0 <= i <= data@.len(),
            data@.len() <= 1_000_000_000,
            pu == points_units(data@),
            pairs_ok(pu),
            t == sum_v2(pu.take(i as int)),
            0 <= t <= i * V2_MAX,
        decreases data@.len() - i,
    {
        proof {
            assert(pu.take(i + 1).drop_last() =~= pu.take(i as int));
            assert(pu.take(i + 1).last() == pu[i as int]);
            assert(pu[i as int].0 == data@[i as int].val.units);
        }
        let v2 = v2_exec(data[i].val.units);
        t = t + v2;
        i = i + 1;
    }
    proof {
        assert(pu.take(pu.len() as int) =~= pu);
    }
    t
}

/// The probability-weighted sum of the values of the stored points, valid
/// once the total probability is known to be near one.
fn sum_pv_exec(data: &Vec<DataPoint>) -> (t: i128)
    requires
        pairs_ok(points_units(data@)),
        data@.len() <= 1_000_000_000,
        sum_probs(points_units(data@)) <= SCALE + 1,
    ensures
        t == sum_pv(points_units(data@)),
        -((SCALE + 1) * 2 * DATA_VAL_MAX) <= t <= (SCALE + 1) * 2 * DATA_VAL_MAX,
{
    let ghost pu = points_units(data@);
    let mut t: i128 = 0;
    let mut i: usize = 0;
    proof {
        assert(pu.take(0) =~= Seq::<(int, int)>::empty());
        lemma_sum_probs_nonneg(pu);
    }
    while i < data.len()
        invariant
            0 <= i <= data@.len(),
            data@.len() <= 1_000_000_000,
            pu == points_units(data@),
            pairs_ok(pu),
            sum_probs(pu) <= SCALE + 1,
            t == sum_pv(pu.take(i as int)),
            -(sum_probs(pu.take(i as int)) * 2 * DATA_VAL_MAX) <= t <= sum_probs(pu.take(i as int))
                * 2 * DATA_VAL_MAX,
            0 <= sum_probs(pu.take(i as int)) <= SCALE + 1,
        decreases data@.len() - i,
    {
        let ghost sp = sum_probs(pu.take(i as int));
        let ghost p = pu[i as int].1;
        let ghost v = pu[i as int].0;
        proof {
            assert(pu.take(i + 1).drop_last() =~= pu.take(i as int));
            assert(pu.take(i + 1).last() == pu[i as int]);
            assert(pu[i as int].0 == data@[i as int].val.units);
            assert(pu[i as int].1 == data@[i as int].prob.units);
            lemma_sum_probs_elem(pu, i as int);
            lemma_sum_probs_prefix(pu, i + 1);
            assert(-(p * (2 * DATA_VAL_MAX)) <= p * v <= p * (2 * DATA_VAL_MAX))
                by (nonlinear_arith)
                requires
                    0 <= p,
                    -2 * DATA_VAL_MAX < v < 2 * DATA_VAL_MAX;
            assert(p * (2 * DATA_VAL_MAX) <= (SCALE + 1) * (2 * DATA_VAL_MAX))
                by (nonlinear_arith)
                requires
                    0 <= p <= SCALE + 1;
            assert((sp + p) * 2 * DATA_VAL_MAX == sp * 2 * DATA_VAL_MAX + p * (2 * DATA_VAL_MAX))
                by (nonlinear_arith);
            assert(p <= sum_probs(pu));
            lemma_sum_probs_nonneg(pu);
        }
        t = t + data[i].prob.units * data[i].val.units;
        i = i + 1;
    }
    proof {
        assert(pu.take(pu.len() as int) =~= pu);
        lemma_sum_probs_prefix(pu, i as int);
    }
    t
}

/// The probability-weighted sum of the rounded squared values, valid once
/// the total probability is known to be near one.
fn sum_pv2_exec(data: &Vec<DataPoint>) -> (t: i128)
    requires
        pairs_ok(points_units(data@)),
        data@.len() <= 1_000_000_000,
        sum_probs(points_units(data@)) <= SCALE + 1,
    ensures
        t == sum_pv2(points_units(data@)),
        0 <= t <= (SCALE + 1) * V2_MAX,
{
    let ghost pu = points_units(data@);
    let mut t: i128 = 0;
    let mut i: usize = 0;
    proof {
        assert(pu.take(0) =~= Seq::<(int, int)>::empty());
        lemma_sum_probs_nonneg(pu);
    }
    while i < data.len()
        invariant
            0 <= i <= data@.len(),
            data@.len() <= 1_000_000_000,
            pu == points_units(data@),
            pairs_ok(pu),
            sum_probs(pu) <= SCALE + 1,
            t == sum_pv2(pu.take(i as int)),
            0 <= t <= sum_probs(pu.take(i as int)) * V2_MAX,
            0 <= sum_probs(pu.take(i as int)) <= SCALE + 1,
        decreases data@.len() - i,
    {
        let ghost sp = sum_probs(pu.take(i as int));
        let ghost p = pu[i as int].1;
        let ghost v = pu[i as int].0;
        proof {
            assert(pu.take(i + 1).drop_last() =~= pu.take(i as int));
            assert(pu.take(i + 1).last() == pu[i as int]);
            assert(pu[i as int].0 == data@[i as int].val.units);
            assert(pu[i as int].1 == data@[i as int].prob.units);
            lemma_sum_probs_elem(pu, i as int);
            lemma_sum_probs_prefix(pu, i + 1);
            lemma_sum_probs_nonneg(pu);
        }
        let v2 = v2_exec(data[i].val.units);
        proof {
            assert(0 <= p * v2 <= p * V2_MAX) by (nonlinear_arith)
                requires
                    0 <= p,
                    0 <= v2 <= V2_MAX;
            assert(p * V2_MAX <= (SCALE + 1) * V2_MAX) by (nonlinear_arith)
                requires
                    0 <= p <= SCALE + 1;
            assert((sp + p) * V2_MAX == sp * V2_MAX + p * V2_MAX) by (nonlinear_arith);
        }
        t = t + data[i].prob.units * v2;
        i = i + 1;
    }
    proof {
        assert(pu.take(pu.len() as int) =~= pu);
        lemma_sum_probs_prefix(pu, i as int);
    }
    t
}


/// Largest mean, in units, a dataset can reach.
pub const MEAN_MAX: i128 = 3_000_000_000_000_000_000;

/// Largest second moment, in units, a dataset can reach.
pub const E2_MAX: i128 = 410_000_000_000_000_000_000_000_000;

/// Largest population-variance magnitude, in units, a dataset can reach.
pub const VARP_MAX: i128 = 1_000_000_000_000_000_000_000_000_000;

/// Largest sample-variance magnitude, in units, a dataset can reach.
pub const VARS_MAX: i128 = 2_000_000_000_000_000_000_000_000_000;

/// Most lines a dataset build accepts.
pub const DATA_LEN_MAX: usize = 1_000_000_000;

fn parse_vp_all(raw: &Vec<String>) -> (data: Vec<DataPoint>)
    ensures
        points_units(data@) == parsed_vp(raw.deep_view()),
        pairs_ok(points_units(data@)),
        data@.len() <= raw@.len(),
{
    let ghost dv = raw.deep_view();
    let mut data: Vec<DataPoint> = Vec::new();
    let mut i: usize = 0;
    proof {
        assert(dv.take(0) =~= Seq::<Seq<char>>::empty());
        assert(points_units(data@) =~= parsed_vp(dv.take(0)));
    }
    while i < raw.len()
        invariant
            0 <= i <= raw@.len(),
            dv == raw.deep_view(),
            dv.len() == raw@.len(),
            points_units(data@) == parsed_vp(dv.take(i as int)),
            pairs_ok(points_units(data@)),
            data@.len() <= i,
        decreases raw@.len() - i,
    {
        proof {
            assert(dv[i as int] == raw@[i as int]@);
            assert(dv.take(i + 1).drop_last() =~= dv.take(i as int));
            assert(dv.take(i + 1).last() == dv[i as int]);
        }
        let ghost prev = data@;
        match val_prob(raw[i].as_str()) {
            Some(pt) => {
                data.push(pt);
                proof {
                    assert(points_units(data@) =~= points_units(prev) + points_units(
                        seq![data@.last()],
                    ));
                    assert(points_units(seq![data@.last()]) =~= seq![
                        (data@.last().val.units as int, data@.last().prob.units as int),
                    ]);
                    assert(points_units(data@) =~= parsed_vp(dv.take(i + 1)));
                }
            },
            None => {
                proof {
                    assert(points_units(data@) =~= parsed_vp(dv.take(i + 1)));
                }
            },
        }
        i = i + 1;
    }
    proof {
        assert(dv.take(dv.len() as int) =~= dv);
    }
    data
}

fn parse_pt_all(raw: &Vec<String>) -> (data: Vec<DataPoint>)
    ensures
        points_units(data@) == parsed_pt(raw.deep_view()),
        pairs_ok(points_units(data@)),
        data@.len() <= raw@.len(),
{
    let ghost dv = raw.deep_view();
    let mut data: Vec<DataPoint> = Vec::new();
    let mut i: usize = 0;
    proof {
        assert(dv.take(0) =~= Seq::<Seq<char>>::empty());
        assert(points_units(data@) =~= parsed_pt(dv.take(0)));
    }
    while i < raw.len()
        invariant
            0 <= i <= raw@.len(),
            dv == raw.deep_view(),
            dv.len() == raw@.len(),
            points_units(data@) == parsed_pt(dv.take(i as int)),
            pairs_ok(points_units(data@)),
            data@.len() <= i,
        decreases raw@.len() - i,
    {
        proof {
            assert(dv[i as int] == raw@[i as int]@);
            assert(dv.take(i + 1).drop_last() =~= dv.take(i as int));
            assert(dv.take(i + 1).last() == dv[i as int]);
        }
        let ghost prev = data@;
        match point(raw[i].as_str()) {
            Some(pt) => {
                data.push(pt);
                proof {
                    assert(points_units(data@) =~= points_units(prev) + points_units(
                        seq![data@.last()],
                    ));
                    assert(points_units(seq![data@.last()]) =~= seq![
                        (data@.last().val.units as int, data@.last().prob.units as int),
                    ]);
                    assert(points_units(data@) =~= parsed_pt(dv.take(i + 1)));
                }
            },
            None => {
                proof {
                    assert(points_units(data@) =~= parsed_pt(dv.take(i + 1)));
                }
            },
        }
        i = i + 1;
    }
    proof {
        assert(dv.take(dv.len() as int) =~= dv);
    }
    data
}

fn parse_diff_all(raw: &Vec<String>) -> (data: Vec<DataPoint>)
    ensures
        points_units(data@) == parsed_diff(raw.deep_view()),
        pairs_ok(points_units(data@)),
        data@.len() <= raw@.len(),
{
    let ghost dv = raw.deep_view();
    let mut data: Vec<DataPoint> = Vec::new();
    let mut i: usize = 0;
    proof {
        assert(dv.take(0) =~= Seq::<Seq<char>>::empty());
        assert(points_units(data@) =~= parsed_diff(dv.take(0)));
    }
    while i < raw.len()
        invariant
            0 <= i <= raw@.len(),
            dv == raw.deep_view(),
            dv.len() == raw@.len(),
            points_units(data@) == parsed_diff(dv.take(i as int)),
            pairs_ok(points_units(data@)),
            data@.len() <= i,
        decreases raw@.len() - i,
    {
        proof {
            assert(dv[i as int] == raw@[i as int]@);
            assert(dv.take(i + 1).drop_last() =~= dv.take(i as int));
            assert(dv.take(i + 1).last() == dv[i as int]);
        }
        let ghost prev = data@;
        match diff(raw[i].as_str()) {
            Some(pt) => {
                data.push(pt);
                proof {
                    assert(points_units(data@) =~= points_units(prev) + points_units(
                        seq![data@.last()],
                    ));
                    assert(points_units(seq![data@.last()]) =~= seq![
                        (data@.last().val.units as int, data@.last().prob.units as int),
                    ]);
                    assert(points_units(data@) =~= parsed_diff(dv.take(i + 1)));
                }
            },
            None => {
                proof {
                    assert(points_units(data@) =~= parsed_diff(dv.take(i + 1)));
                }
            },
        }
        i = i + 1;
    }
    proof {
        assert(dv.take(dv.len() as int) =~= dv);
    }
    data
}

/// An empirical dataset: the parsed points with their probabilities, and
/// the statistics computed once at construction. When the supplied
/// probabilities total (almost) zero the set is balanced: every point
/// carries probability `1/n` exactly, which the `uniform` flag records
/// without disturbing the stored points.
#[derive(Debug)]
pub struct Data {
    pub data: Vec<DataPoint>,
    pub uniform: bool,
    pub mean: Fx,
    pub var_p: Fx,
    pub var_s: Option<Fx>,
}

impl Data {
    /// What construction guarantees: a non-empty, bounded point set; the
    /// balancing flag reflecting the supplied probability total; and each
    /// cached statistic equal to its defining formula.
    pub open spec fn wf(&self) -> bool {
        let pts = points_units(self.data@);
        &&& 1 <= self.data@.len() <= DATA_LEN_MAX
        &&& pairs_ok(pts)
        &&& self.uniform == (sum_probs(pts) <= 1)
        &&& (!self.uniform ==> SCALE - 1 <= sum_probs(pts) <= SCALE + 1)
        &&& self.mean.units == mean_units(pts, self.uniform)
        &&& -MEAN_MAX <= self.mean.units <= MEAN_MAX
        &&& self.var_p.units == var_p_units(pts, self.uniform)
        &&& -VARP_MAX <= self.var_p.units <= VARP_MAX
        &&& (self.var_s is Some <==> self.data@.len() >= 2)
        &&& (self.var_s is Some ==> self.var_s->0.units == var_s_units(pts, self.uniform)
            && -VARS_MAX <= self.var_s->0.units <= VARS_MAX)
    }

    /// Builds a dataset from raw lines: parses them under the chosen
    /// reading (dropping unreadable lines), balances an all-zero
    /// probability assignment to uniform, validates that the total
    /// probability is one within 10^-10, and computes the mean, the
    /// population variance and (from two points up) the sample variance.
    /// An empty parse is an error, as is a total away from one.
    pub fn new(raw: &Vec<String>, parser: Parser) -> (r: Result<Data, String>)
        requires
            raw@.len() <= DATA_LEN_MAX,
        ensures
            ({
                let pts = points_spec(raw.deep_view(), parser);
                &&& (r is Ok <==> pts.len() > 0 && (sum_probs(pts) <= 1 || SCALE - 1 <= sum_probs(
                    pts,
                ) <= SCALE + 1))
                &&& (r is Err ==> r->Err_0@ == (if pts.len() == 0 {
                    "empty dataset."@
                } else {
                    "total probability is not 1."@
                }))
                &&& (r is Ok ==> {
                    let d = r->Ok_0;
                    &&& d.wf()
                    &&& points_units(d.data@) == pts
                    &&& d.uniform == (sum_probs(pts) <= 1)
                })
            }),
    {
        let data: Vec<DataPoint> = match parser {
            Parser::Single => {
                let first = parse_vp_all(raw);
                if first.len() == 0 {
                    parse_pt_all(raw)
                } else {
                    first
                }
            },
            Parser::PairDiff => parse_diff_all(raw),
        };
        let ghost pts = points_spec(raw.deep_view(), parser);
        proof {
            assert(points_units(data@) == pts);
        }
        let n = data.len();
        if n == 0 {
            return Err(String::from_str("empty dataset."));
        }
        let total = sum_probs_exec(&data);
        let uniform = total <= 1;
        if !uniform && (total < SCALE - 1 || total > SCALE + 1) {
            return Err(String::from_str("total probability is not 1."));
        }
        let ni: i128 = n as i128;
        let mean_u: i128 = if uniform {
            let sv = sum_vals_exec(&data);
            proof {
                assert(-(ni * (2 * DATA_VAL_MAX)) <= sv <= ni * (2 * DATA_VAL_MAX))
                    by (nonlinear_arith)
                    requires
                        -(ni * 2 * DATA_VAL_MAX) <= sv <= ni * 2 * DATA_VAL_MAX;
                assert(ni * (2 * DATA_VAL_MAX) <= PROD_LIMIT) by (nonlinear_arith)
                    requires
                        0 < ni <= 1_000_000_000;
            }
            let m = div_round(sv, ni);
            proof {
                lemma_rnd_le(sv as int, ni as int, 2 * DATA_VAL_MAX as int);
            }
            m
        } else {
            let spv = sum_pv_exec(&data);
            let m = div_round(spv, SCALE);
            proof {
                assert(-(MEAN_MAX * SCALE) <= spv <= MEAN_MAX * SCALE) by (nonlinear_arith)
                    requires
                        -((SCALE + 1) * 2 * DATA_VAL_MAX) <= spv <= (SCALE + 1) * 2 * DATA_VAL_MAX;
                lemma_rnd_le(spv as int, SCALE as int, MEAN_MAX as int);
            }
            m
        };
        let e2: i128 = if uniform {
            let sq = sum_v2_exec(&data);
            proof {
                assert(0 <= sq <= ni * V2_MAX && ni * V2_MAX <= PROD_LIMIT) by (nonlinear_arith)
                    requires
                        0 <= sq <= ni * V2_MAX,
                        0 < ni <= 1_000_000_000;
            }
            let m = div_round(sq, ni);
            proof {
                lemma_rnd_le(sq as int, ni as int, V2_MAX as int);
                lemma_rnd_nonneg_range(sq as int, ni as int, (ni * V2_MAX) as int);
            }
            m
        } else {
            let sq = sum_pv2_exec(&data);
            let m = div_round(sq, SCALE);
            proof {
                assert((SCALE + 1) * V2_MAX <= E2_MAX * SCALE) by (nonlinear_arith);
                lemma_rnd_le(sq as int, SCALE as int, E2_MAX as int);
                lemma_rnd_nonneg_range(sq as int, SCALE as int, ((SCALE + 1) * V2_MAX) as int);
            }
            m
        };
        proof {
            assert(-PROD_LIMIT <= mean_u * mean_u <= VARP_MAX * SCALE) by (nonlinear_arith)
                requires
                    -MEAN_MAX <= mean_u <= MEAN_MAX;
        }
        let m2 = mul_div_round(mean_u, mean_u, SCALE);
        proof {
            assert(mean_u * mean_u >= 0) by (nonlinear_arith);
            lemma_rnd_nonneg_range(mean_u * mean_u, SCALE as int, (VARP_MAX * SCALE) as int);
            lemma_rnd_le(mean_u * mean_u, SCALE as int, VARP_MAX as int);
        }
        let var_p: i128 = e2 - m2;
        let var_s: Option<Fx> = if n >= 2 {
            proof {
                assert(-PROD_LIMIT <= var_p * ni <= PROD_LIMIT && -(VARS_MAX * (ni - 1)) <= var_p
                    * ni <= VARS_MAX * (ni - 1)) by (nonlinear_arith)
                    requires
                        -VARP_MAX <= var_p <= VARP_MAX,
                        2 <= ni <= 1_000_000_000,
                        VARS_MAX == 2 * VARP_MAX;
            }
            let vs = div_round(var_p * ni, ni - 1);
            proof {
                lemma_rnd_le((var_p * ni) as int, (ni - 1) as int, VARS_MAX as int);
            }
            Some(Fx { units: vs })
        } else {
            None
        };
        Ok(Data { data, uniform, mean: Fx { units: mean_u }, var_p: Fx { units: var_p }, var_s })
    }

    /// How many points the dataset holds.
    pub fn n(&self) -> (r: u64)
        requires
            self.wf(),
        ensures
            r == self.data@.len(),
    {
        self.data.len() as u64
    }

    /// The mean.
    pub fn mean(&self) -> (r: Fx)
        requires
            self.wf(),
        ensures
            r.units == mean_units(points_units(self.data@), self.uniform),
    {
        self.mean
    }

    /// The population variance.
    pub fn var_p(&self) -> (r: Fx)
        requires
            self.wf(),
        ensures
            r.units == var_p_units(points_units(self.data@), self.uniform),
    {
        self.var_p
    }

    /// The sample variance, available from two points up.
    pub fn var_s(&self) -> (r: Option<Fx>)
        requires
            self.wf(),
        ensures
            r is Some <==> self.data@.len() >= 2,
            r is Some ==> r->0.units == var_s_units(points_units(self.data@), self.uniform),
    {
        self.var_s
    }
}


/// The rows a dataset report shows: the mean, the population variance and
/// its square root, then the sample variance and its square root (the
/// standard error); a square-root row is omitted when its variance is
/// missing or, through rounding at the tolerance, below zero.
pub open spec fn export_pairs(d: Data) -> Seq<(Seq<char>, Seq<char>)> {
    seq![
        ("mean"@, fx_seq(d.mean.units as int)),
        ("population variance"@, fx_seq(d.var_p.units as int)),
    ] + (if d.var_p.units >= 0 {
        seq![("population std.dev"@, fx_seq(sqrt_rnd(d.var_p.units * SCALE)))]
    } else {
        Seq::<(Seq<char>, Seq<char>)>::empty()
    }) + (match d.var_s {
        Some(vs) => seq![("sample variance"@, fx_seq(vs.units as int))] + (if vs.units >= 0 {
            seq![("sample std.err"@, fx_seq(sqrt_rnd(vs.units * SCALE)))]
        } else {
            Seq::<(Seq<char>, Seq<char>)>::empty()
        }),
        None => Seq::<(Seq<char>, Seq<char>)>::empty(),
    })
}

impl Data {
    /// The dataset's report: each computed statistic as an untitled line
    /// list, values rounded to ten decimal places.
    pub fn export(&self) -> (r: LineList)
        requires
            self.wf(),
        ensures
            r.wf(),
            r.title@ =~= Seq::<char>::empty(),
            lines_pairs(r.list@) == export_pairs(*self),
    {
        let mut list = LineList::new();
        list.push("mean", self.mean);
        list.push("population variance", self.var_p);
        if self.var_p.units >= 0 {
            proof {
                assert(0 <= self.var_p.units * SCALE <= PROD_LIMIT) by (nonlinear_arith)
                    requires
                        0 <= self.var_p.units <= VARP_MAX;
            }
            let sd = sqrt_round(self.var_p.units * SCALE);
            list.push("population std.dev", Fx { units: sd });
        }
        match self.var_s {
            Some(vs) => {
                list.push("sample variance", vs);
                if vs.units >= 0 {
                    proof {
                        assert(0 <= vs.units * SCALE <= PROD_LIMIT) by (nonlinear_arith)
                            requires
                                0 <= vs.units <= VARS_MAX;
                    }
                    let se = sqrt_round(vs.units * SCALE);
                    list.push("sample std.err", Fx { units: se });
                }
            },
            None => (),
        }
        proof {
            assert(lines_pairs(list.list@) =~~= export_pairs(*self));
        }
        list
    }
}

/// The error reported when a sample variance is unavailable.
pub open spec fn no_var_s() -> Seq<char> {
    "Unable to get sample variance"@
}

/// The side-by-side report of two datasets: each set's statistics under a
/// header naming it, then the pooled sample variance of the two. Fails when
/// either set has no sample variance (a single point), or when one is
/// negative through rounding at the tolerance.
pub fn compare(d1: &Data, name1: &str, d2: &Data, name2: &str) -> (r: Result<LineList, String>)
    requires
        d1.wf(),
        d2.wf(),
    ensures
        r is Ok <==> (d1.var_s is Some && d2.var_s is Some && d1.var_s->0.units >= 0
            && d2.var_s->0.units >= 0),
        r is Err ==> (r->Err_0@ == no_var_s() || r->Err_0@
            == crate::distributions::bad_parameters()),
        r is Ok ==> {
            let list = r->Ok_0;
            &&& list.wf()
            &&& list.title@ =~= Seq::<char>::empty()
            &&& lines_pairs(list.list@) == seq![
                ((seq!['['] + name1@ + seq![']']), Seq::<char>::empty()),
            ] + export_pairs(*d1) + seq![((seq!['['] + name2@ + seq![']']), Seq::<char>::empty())]
                + export_pairs(*d2) + seq![
                ((seq!['['] + "pooled sample"@ + seq![']']), Seq::<char>::empty()),
            ] + crate::math::pooled_pairs(
                d1.data@.len() as int,
                d1.var_s->0.units as int,
                d2.data@.len() as int,
                d2.var_s->0.units as int,
            )
        },
{
    let v1 = match d1.var_s() {
        Some(v) => v,
        None => {
            return Err(String::from_str("Unable to get sample variance"));
        },
    };
    let v2 = match d2.var_s() {
        Some(v) => v,
        None => {
            return Err(String::from_str("Unable to get sample variance"));
        },
    };
    let n1: u64 = d1.n();
    let n2: u64 = d2.n();
    let pooled = match crate::math::pooled_variance(n1, v1, n2, v2) {
        Ok(p) => p,
        Err(e) => {
            return Err(e);
        },
    };
    let mut list = LineList::new();
    let ghost h1: (Seq<char>, Seq<char>) = ((seq!['['] + name1@ + seq![']']), Seq::<char>::empty());
    let ghost h2: (Seq<char>, Seq<char>) = ((seq!['['] + name2@ + seq![']']), Seq::<char>::empty());
    let ghost hp: (Seq<char>, Seq<char>) = (
        (seq!['['] + "pooled sample"@ + seq![']']),
        Seq::<char>::empty(),
    );
    let ghost s0 = list.list@;
    list.header(name1);
    proof {
        assert(list.list@ =~= s0.push(list.list@.last()));
        crate::display::lemma_lines_pairs_push(s0, list.list@.last());
        assert(lines_pairs(list.list@) =~~= seq![h1]);
    }
    let e1 = d1.export();
    list.append(&e1);
    proof {
        assert(lines_pairs(list.list@) =~~= seq![h1] + export_pairs(*d1));
    }
    let ghost s1 = list.list@;
    list.header(name2);
    proof {
        assert(list.list@ =~= s1.push(list.list@.last()));
        crate::display::lemma_lines_pairs_push(s1, list.list@.last());
        assert(lines_pairs(list.list@) =~~= seq![h1] + export_pairs(*d1) + seq![h2]);
    }
    let e2 = d2.export();
    list.append(&e2);
    let ghost s2 = list.list@;
    list.header("pooled sample");
    proof {
        assert(list.list@ =~= s2.push(list.list@.last()));
        crate::display::lemma_lines_pairs_push(s2, list.list@.last());
        assert(lines_pairs(list.list@) =~~= seq![h1] + export_pairs(*d1) + seq![h2] + export_pairs(
            *d2,
        ) + seq![hp]);
    }
    list.append(&pooled);
    proof {
        assert(lines_pairs(list.list@) =~~= seq![
            ((seq!['['] + name1@ + seq![']']), Seq::<char>::empty()),
        ] + export_pairs(*d1) + seq![((seq!['['] + name2@ + seq![']']), Seq::<char>::empty())]
            + export_pairs(*d2) + seq![
            ((seq!['['] + "pooled sample"@ + seq![']']), Seq::<char>::empty()),
        ] + crate::math::pooled_pairs(
            d1.data@.len() as int,
            d1.var_s->0.units as int,
            d2.data@.len() as int,
            d2.var_s->0.units as int,
        ));
    }
    Ok(list)
}

/// Balancing touches a dataset exactly once, at construction, and only
/// when the supplied probabilities total at most the tolerance of one
/// unit: such a set counts every point with probability `1/n` exactly, and
/// its mean is the plain arithmetic average of the values, rounded to the
/// nearest unit. A set whose probabilities total anything more keeps them
/// untouched, and every statistic weighs the values by the probabilities
/// exactly as supplied.
pub proof fn lemma_balance(d: Data)
    requires
        d.wf(),
    ensures
        sum_probs(points_units(d.data@)) > 1 ==> !d.uniform && d.mean.units == rnd(
            sum_pv(points_units(d.data@)),
            SCALE as int,
        ),
        sum_probs(points_units(d.data@)) <= 1 ==> d.uniform && d.mean.units == rnd(
            sum_vals(points_units(d.data@)),
            d.data@.len() as int,
        ),
{
}

} // verus!
