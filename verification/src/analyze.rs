use vstd::prelude::*;

use crate::display::Line;
use crate::fixed::{Fx, PROD_LIMIT, SCALE};
use crate::format::{fx_seq, fx_string};

verus! {

/// The description of a point-probability line for a discrete family.
pub open spec fn pmf_desc(x: Seq<char>) -> Seq<char> {
    "P(X = "@ + x + ")"@
}

/// The description of a point-density line for a continuous family.
pub open spec fn pdf_desc(x: Seq<char>) -> Seq<char> {
    "pdf @ "@ + x
}

/// The description of the leading interval, everything up to the first point.
pub open spec fn first_desc(x: Seq<char>) -> Seq<char> {
    "P(X <= "@ + x + ")"@
}

/// The description of an inner interval between two consecutive points.
pub open spec fn mid_desc(lo: Seq<char>, hi: Seq<char>) -> Seq<char> {
    "P("@ + lo + " < X <= "@ + hi + ")"@
}

/// The description of the trailing interval, everything past the last point.
pub open spec fn last_desc(x: Seq<char>) -> Seq<char> {
    "P(X > "@ + x + ")"@
}

/// Formatters for the two kinds of point line.
pub struct Format {}

impl Format {
    /// The text `pdf @ {x}`.
    pub fn pdf(x: Fx) -> (r: String)
        requires
            -PROD_LIMIT <= x.units <= PROD_LIMIT,
        ensures
            r@ == pdf_desc(fx_seq(x.units as int)),
    {
        let mut s = String::from_str("pdf @ ");
        let xs = fx_string(x);
        s.append(xs.as_str());
        proof {
            assert(s@ =~= pdf_desc(fx_seq(x.units as int)));
        }
        s
    }

    /// The text `P(X = {x})`.
    pub fn pmf(x: Fx) -> (r: String)
        requires
            -PROD_LIMIT <= x.units <= PROD_LIMIT,
        ensures
            r@ == pmf_desc(fx_seq(x.units as int)),
    {
        let mut s = String::from_str("P(X = ");
        let xs = fx_string(x);
        s.append(xs.as_str());
        s.append(")");
        proof {
            assert(s@ =~= pmf_desc(fx_seq(x.units as int)));
        }
        s
    }
}

fn first_str(x: Fx) -> (r: String)
    requires
        -PROD_LIMIT <= x.units <= PROD_LIMIT,
    ensures
        r@ == first_desc(fx_seq(x.units as int)),
{
    let mut s = String::from_str("P(X <= ");
    let xs = fx_string(x);
    s.append(xs.as_str());
    s.append(")");
    proof {
        assert(s@ =~= first_desc(fx_seq(x.units as int)));
    }
    s
}

fn mid_str(lo: Fx, hi: Fx) -> (r: String)
    requires
        -PROD_LIMIT <= lo.units <= PROD_LIMIT,
        -PROD_LIMIT <= hi.units <= PROD_LIMIT,
    ensures
        r@ == mid_desc(fx_seq(lo.units as int), fx_seq(hi.units as int)),
{
    let mut s = String::from_str("P(");
    let ls = fx_string(lo);
    s.append(ls.as_str());
    s.append(" < X <= ");
    let hs = fx_string(hi);
    s.append(hs.as_str());
    s.append(")");
    proof {
        assert(s@ =~= mid_desc(fx_seq(lo.units as int), fx_seq(hi.units as int)));
    }
    s
}

fn last_str(x: Fx) -> (r: String)
    requires
        -PROD_LIMIT <= x.units <= PROD_LIMIT,
    ensures
        r@ == last_desc(fx_seq(x.units as int)),
{
    let mut s = String::from_str("P(X > ");
    let xs = fx_string(x);
    s.append(xs.as_str());
    s.append(")");
    proof {
        assert(s@ =~= last_desc(fx_seq(x.units as int)));
    }
    s
}

/// The sum of the values of a sequence of lines; a header counts as zero.
pub open spec fn lines_val_sum(ls: Seq<Line>) -> int
    decreases ls.len(),
{
    if ls.len() == 0 {
        0
    } else {
        lines_val_sum(ls.drop_last()) + (match ls.last().val {
            Some(v) => v.units as int,
            None => 0,
        })
    }
}

/// Maps each query point to its point-probability line: `P(X = x)` valued at
/// the mass for a discrete family, `pdf @ x` valued at the density for a
/// continuous one.
pub fn pdf_points(pts: &Vec<Fx>, vals: &Vec<Fx>, discrete: bool) -> (res: Vec<Line>)
    requires
        pts@.len() == vals@.len(),
        forall|i: int| 0 <= i < pts@.len() ==> -PROD_LIMIT <= (#[trigger] pts@[i]).units <= PROD_LIMIT,
        forall|i: int|
            0 <= i < vals@.len() ==> -PROD_LIMIT <= (#[trigger] vals@[i]).units <= PROD_LIMIT,
    ensures
        res@.len() == pts@.len(),
        forall|i: int|
            0 <= i < res@.len() ==> (#[trigger] res@[i]).desc@ == (if discrete {
                pmf_desc(fx_seq(pts@[i].units as int))
            } else {
                pdf_desc(fx_seq(pts@[i].units as int))
            }),
        forall|i: int| 0 <= i < res@.len() ==> (#[trigger] res@[i]).val == Some(vals@[i]),
{
    let mut res: Vec<Line> = Vec::new();
    let mut i: usize = 0;
    while i < pts.len()
        invariant
            i <= pts@.len(),
            pts@.len() == vals@.len(),
            forall|k: int|
                0 <= k < pts@.len() ==> -PROD_LIMIT <= (#[trigger] pts@[k]).units <= PROD_LIMIT,
            forall|k: int|
                0 <= k < vals@.len() ==> -PROD_LIMIT <= (#[trigger] vals@[k]).units <= PROD_LIMIT,
            res@.len() == i,
            forall|k: int|
                0 <= k < i ==> (#[trigger] res@[k]).desc@ == (if discrete {
                    pmf_desc(fx_seq(pts@[k].units as int))
                } else {
                    pdf_desc(fx_seq(pts@[k].units as int))
                }),
            forall|k: int| 0 <= k < i ==> (#[trigger] res@[k]).val == Some(vals@[k]),
        decreases pts@.len() - i,
    {
        let desc = if discrete {
            Format::pmf(pts[i])
        } else {
            Format::pdf(pts[i])
        };
        res.push(Line { desc, val: Some(vals[i]) });
        i = i + 1;
    }
    res
}

/// Turns the `n` query points, in the order supplied, into `n + 1` lines that
/// partition all probability mass: `P(X <= x1)`, then `P(xi < X <= xi+1)` for
/// each consecutive pair, then `P(X > xn)`. The first value is the cumulative
/// probability at the first point, each middle value is the difference of the
/// cumulative probabilities at its two ends, and the last value is the
/// remainder to one, so the values always sum to exactly one. No points give
/// no lines; a single point gives exactly two lines.
pub fn cdf_intervals(pts: &Vec<Fx>, cdfs: &Vec<Fx>) -> (res: Vec<Line>)
    requires
        pts@.len() == cdfs@.len(),
        forall|i: int| 0 <= i < pts@.len() ==> -PROD_LIMIT <= (#[trigger] pts@[i]).units <= PROD_LIMIT,
        forall|i: int| 0 <= i < cdfs@.len() ==> 0 <= (#[trigger] cdfs@[i]).units <= SCALE,
    ensures
        pts@.len() == 0 ==> res@.len() == 0,
        pts@.len() == 1 ==> res@.len() == 2,
        pts@.len() > 0 ==> res@.len() == pts@.len() + 1,
        pts@.len() > 0 ==> {
            &&& res@[0].desc@ == first_desc(fx_seq(pts@[0].units as int))
            &&& res@[0].val == Some(cdfs@[0])
        },
        forall|i: int|
            1 <= i < pts@.len() ==> {
                &&& (#[trigger] res@[i]).desc@ == mid_desc(
                    fx_seq(pts@[i - 1].units as int),
                    fx_seq(pts@[i].units as int),
                )
                &&& res@[i].val is Some
                &&& res@[i].val->0.units == cdfs@[i].units - cdfs@[i - 1].units
            },
        pts@.len() > 0 ==> {
            &&& res@[pts@.len() as int].desc@ == last_desc(
                fx_seq(pts@[pts@.len() - 1].units as int),
            )
            &&& res@[pts@.len() as int].val is Some
            &&& res@[pts@.len() as int].val->0.units == SCALE - cdfs@[pts@.len() - 1].units
        },
        pts@.len() > 0 ==> lines_val_sum(res@) == SCALE,
        forall|i: int| 0 <= i < res@.len() ==> crate::display::line_ok(#[trigger] res@[i]),
{
    let mut res: Vec<Line> = Vec::new();
    if pts.len() == 0 {
        return res;
    }
    let desc = first_str(pts[0]);
    res.push(Line { desc, val: Some(cdfs[0]) });
    proof {
        assert(res@.len() == 1);
        assert(res@.drop_last() =~= Seq::<Line>::empty());
        assert(lines_val_sum(res@.drop_last()) == 0);
        assert(res@.last().val == Some(cdfs@[0]));
        assert(lines_val_sum(res@) == cdfs@[0].units);
    }
    let mut i: usize = 1;
    while i < pts.len()
        invariant
            1 <= i <= pts@.len(),
            pts@.len() == cdfs@.len(),
            forall|k: int|
                0 <= k < pts@.len() ==> -PROD_LIMIT <= (#[trigger] pts@[k]).units <= PROD_LIMIT,
            forall|k: int| 0 <= k < cdfs@.len() ==> 0 <= (#[trigger] cdfs@[k]).units <= SCALE,
            res@.len() == i,
            res@[0].desc@ == first_desc(fx_seq(pts@[0].units as int)),
            res@[0].val == Some(cdfs@[0]),
            forall|k: int|
                1 <= k < i ==> {
                    &&& (#[trigger] res@[k]).desc@ == mid_desc(
                        fx_seq(pts@[k - 1].units as int),
                        fx_seq(pts@[k].units as int),
                    )
                    &&& res@[k].val is Some
                    &&& res@[k].val->0.units == cdfs@[k].units - cdfs@[k - 1].units
                },
            lines_val_sum(res@) == cdfs@[i - 1].units,
        decreases pts@.len() - i,
    {
        let desc = mid_str(pts[i - 1], pts[i]);
        let v = Fx { units: cdfs[i].units - cdfs[i - 1].units };
        let ghost prev = res@;
        res.push(Line { desc, val: Some(v) });
        i = i + 1;
        proof {
            assert(res@.drop_last() =~= prev);
        }
    }
    let desc = last_str(pts[pts.len() - 1]);
    let v = Fx { units: SCALE - cdfs[pts.len() - 1].units };
    let ghost prev = res@;
    res.push(Line { desc, val: Some(v) });
    proof {
        assert(res@.drop_last() =~= prev);
    }
    res
}

} // verus!
