use vstd::prelude::*;

use crate::display::LineList;
use crate::distributions::{title_spec, Distribution};
use crate::fixed::{div_round, rnd, Fx, PROD_LIMIT, SCALE};

verus! {

/// Which region of probability mass an inversion pins down: a left tail, a
/// centered interval, or a right tail.
#[derive(Clone, Copy, PartialEq, Eq, Structural, Debug)]
pub enum Area {
    Left,
    Mid,
    Right,
}

/// The cumulative probabilities whose quantiles an inversion with this mode
/// needs, each in `[0, 1]`: the target itself for a left tail, its
/// complement for a right tail, and for a centered interval the two
/// half-tail bounds `(1-p)/2` and `1-(1-p)/2`.
pub fn invert_queries(area: Area, p: Fx) -> (r: Vec<Fx>)
    requires
        0 <= p.units <= SCALE,
    ensures
        match area {
            Area::Left => r@.len() == 1 && r@[0].units == p.units,
            Area::Right => r@.len() == 1 && r@[0].units == SCALE - p.units,
            Area::Mid => {
                &&& r@.len() == 2
                &&& r@[0].units == rnd(SCALE - p.units, 2)
                &&& r@[1].units == SCALE - rnd(SCALE - p.units, 2)
            },
        },
        forall|i: int| 0 <= i < r@.len() ==> 0 <= (#[trigger] r@[i]).units <= SCALE,
{
    let mut r: Vec<Fx> = Vec::new();
    match area {
        Area::Left => {
            r.push(p);
        },
        Area::Right => {
            r.push(Fx { units: SCALE - p.units });
        },
        Area::Mid => {
            let a = div_round(SCALE - p.units, 2);
            proof {
                crate::fixed::lemma_rnd_nonneg_range(SCALE - p.units, 2, SCALE as int);
            }
            r.push(Fx { units: a });
            r.push(Fx { units: SCALE - a });
        },
    }
    r
}

/// The quantile report for a continuous distribution: given the mode, the
/// target probability and the quantiles the caller evaluated at the
/// probabilities `invert_queries` asked for, produces the titled line list
/// the original reports. A left tail reports the right bound `x` with
/// `P(X > x) = p`; a right tail the left bound with the same restated tail;
/// a centered interval both bounds and `P(a < X < b) = p`.
pub fn invert(d: &Distribution, area: Area, p: Fx, bounds: &Vec<Fx>) -> (r: LineList)
    requires
        d.wf(),
        !d.spec_discrete(),
        0 <= p.units <= SCALE,
        bounds@.len() == (if area is Mid {
            2int
        } else {
            1int
        }),
        forall|i: int|
            0 <= i < bounds@.len() ==> -PROD_LIMIT <= (#[trigger] bounds@[i]).units <= PROD_LIMIT,
    ensures
        r.wf(),
        r.title@ == title_spec(*d),
        match area {
            Area::Left => {
                &&& r.list@.len() == 2
                &&& r.list@[0].desc@ == "x: right bound"@
                &&& r.list@[0].val == Some(bounds@[0])
                &&& r.list@[1].desc@ == "P(X > x)"@
                &&& r.list@[1].val == Some(p)
            },
            Area::Right => {
                &&& r.list@.len() == 2
                &&& r.list@[0].desc@ == "x: left bound"@
                &&& r.list@[0].val == Some(bounds@[0])
                &&& r.list@[1].desc@ == "P(X > x)"@
                &&& r.list@[1].val == Some(p)
            },
            Area::Mid => {
                &&& r.list@.len() == 3
                &&& r.list@[0].desc@ == "a: left bound"@
                &&& r.list@[0].val == Some(bounds@[0])
                &&& r.list@[1].desc@ == "b: right bound"@
                &&& r.list@[1].val == Some(bounds@[1])
                &&& r.list@[2].desc@ == "P(a < X < b)"@
                &&& r.list@[2].val == Some(p)
            },
        },
{
    let mut list = LineList::new();
    let title = d.title();
    list.set_title(title.as_str());
    match area {
        Area::Left => {
            list.push("x: right bound", bounds[0]);
            list.push("P(X > x)", p);
        },
        Area::Right => {
            list.push("x: left bound", bounds[0]);
            list.push("P(X > x)", p);
        },
        Area::Mid => {
            list.push("a: left bound", bounds[0]);
            list.push("b: right bound", bounds[1]);
            list.push("P(a < X < b)", p);
        },
    }
    list
}

} // verus!
