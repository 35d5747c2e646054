use vstd::prelude::*;

use crate::fixed::{Fx, PROD_LIMIT};
use crate::format::fx_seq;
use crate::printer::{max_width, rows_view, table_seq, Printer};

verus! {

/// One line of a report: a description and an optional value.
/// A line without a value is a section header.
#[derive(Debug)]
pub struct Line {
    pub desc: String,
    pub val: Option<Fx>,
}

/// A line's value, when present, stays within the range the formatter takes.
pub open spec fn line_ok(l: Line) -> bool {
    match l.val {
        Some(v) => -PROD_LIMIT <= v.units <= PROD_LIMIT,
        None => true,
    }
}

/// The text pair a line shows: its description and its printed value.
pub open spec fn line_pair(l: Line) -> (Seq<char>, Seq<char>) {
    (
        l.desc@,
        match l.val {
            Some(v) => fx_seq(v.units as int),
            None => Seq::<char>::empty(),
        },
    )
}

/// The text pairs of a sequence of lines.
pub open spec fn lines_pairs(ls: Seq<Line>) -> Seq<(Seq<char>, Seq<char>)> {
    ls.map_values(|l: Line| line_pair(l))
}

/// Appending a line appends its text pair.
pub proof fn lemma_lines_pairs_push(s: Seq<Line>, l: Line)
    ensures
        lines_pairs(s.push(l)) =~~= lines_pairs(s).push(line_pair(l)),
{
    assert(lines_pairs(s.push(l)) =~~= lines_pairs(s).push(line_pair(l)));
}

/// An optional leading row, shown only when the value is present.
pub open spec fn opt_pair(d: Seq<char>, o: Option<Fx>) -> Seq<(Seq<char>, Seq<char>)> {
    match o {
        Some(v) => seq![(d, fx_seq(v.units as int))],
        None => Seq::<(Seq<char>, Seq<char>)>::empty(),
    }
}

impl Line {
    /// A line holding this description and value.
    pub fn new(desc: &str, val: Option<Fx>) -> (r: Line)
        ensures
            r.desc@ == desc@,
            r.val == val,
    {
        Line { desc: String::from_str(desc), val }
    }
}

/// A titled list of report lines.
#[derive(Debug)]
pub struct LineList {
    pub title: String,
    pub list: Vec<Line>,
}

impl LineList {
    /// Every value in the list stays within the range the formatter takes.
    pub open spec fn wf(&self) -> bool {
        forall|i: int| 0 <= i < self.list@.len() ==> line_ok(#[trigger] self.list@[i])
    }

    /// An empty list with no title.
    pub fn new() -> (r: LineList)
        ensures
            r.wf(),
            r.title@ =~= Seq::<char>::empty(),
            r.list@ =~= Seq::<Line>::empty(),
    {
        LineList { title: String::new(), list: Vec::new() }
    }

    /// Appends a line with a value.
    pub fn push(&mut self, desc: &str, val: Fx)
        requires
            old(self).wf(),
            -PROD_LIMIT <= val.units <= PROD_LIMIT,
        ensures
            final(self).wf(),
            final(self).list@.len() == old(self).list@.len() + 1,
            final(self).list@.drop_last() == old(self).list@,
            final(self).list@.last().desc@ == desc@,
            final(self).list@.last().val == Some(val),
            final(self).title == old(self).title,
    {
        self.list.push(Line::new(desc, Some(val)));
        proof {
            assert(final(self).list@.drop_last() =~= old(self).list@);
        }
    }

    /// Appends a section header line `[header]` with no value.
    pub fn header(&mut self, header: &str)
        requires
            old(self).wf(),
        ensures
            final(self).wf(),
            final(self).list@.len() == old(self).list@.len() + 1,
            final(self).list@.drop_last() == old(self).list@,
            final(self).list@.last().desc@ == seq!['['] + header@ + seq![']'],
            final(self).list@.last().val is None,
            final(self).title == old(self).title,
    {
        proof {
            reveal_strlit("[");
            reveal_strlit("]");
        }
        let mut d = String::from_str("[");
        d.append(header);
        d.append("]");
        proof {
            assert(d@ =~= seq!['['] + header@ + seq![']']);
        }
        self.list.push(Line { desc: d, val: None });
        proof {
            assert(final(self).list@.drop_last() =~= old(self).list@);
        }
    }

    /// Sets the title.
    pub fn set_title(&mut self, t: &str)
        ensures
            final(self).title@ == t@,
            final(self).list == old(self).list,
    {
        self.title = String::from_str(t);
    }

    /// Appends every line of another list, keeping this list's title.
    pub fn append(&mut self, other: &LineList)
        requires
            old(self).wf(),
            other.wf(),
        ensures
            final(self).wf(),
            lines_pairs(final(self).list@) == lines_pairs(old(self).list@) + lines_pairs(
                other.list@,
            ),
            final(self).title == old(self).title,
    {
        let mut i: usize = 0;
        while i < other.list.len()
            invariant
                i <= other.list@.len(),
                other.wf(),
                self.wf(),
                self.title == old(self).title,
                lines_pairs(self.list@) == lines_pairs(old(self).list@) + lines_pairs(
                    other.list@.take(i as int),
                ),
            decreases other.list@.len() - i,
        {
            let l = Line { desc: other.list[i].desc.clone(), val: other.list[i].val };
            let ghost prev = self.list@;
            self.list.push(l);
            i = i + 1;
            proof {
                let e = other.list@[i - 1];
                assert(other.list@.take(i as int) =~= other.list@.take(i - 1).push(e));
                assert(self.list@ == prev.push(e));
                lemma_lines_pairs_push(prev, e);
                lemma_lines_pairs_push(other.list@.take(i - 1), e);
                assert(lines_pairs(self.list@) =~~= lines_pairs(old(self).list@) + lines_pairs(
                    other.list@.take(i as int),
                ));
            }
        }
        proof {
            assert(other.list@.take(other.list@.len() as int) =~= other.list@);
        }
    }

    /// The rendered table: the title line when one was set, then each line
    /// aligned at the widest description.
    pub fn render(&self) -> (r: String)
        requires
            self.wf(),
        ensures
            r@ == table_seq(
                self.title@,
                lines_pairs(self.list@),
                max_width(lines_pairs(self.list@)),
            ),
    {
        let mut p = Printer::new();
        p.set_title(self.title.as_str());
        let mut i: usize = 0;
        while i < self.list.len()
            invariant
                i <= self.list@.len(),
                self.wf(),
                p.wf(),
                p.title@ == self.title@,
                rows_view(p.rows@) == lines_pairs(self.list@.take(i as int)),
            decreases self.list@.len() - i,
        {
            p.push_line(&self.list[i]);
            i = i + 1;
            proof {
                assert(rows_view(p.rows@) =~~= lines_pairs(self.list@.take(i as int)));
            }
        }
        proof {
            assert(self.list@.take(self.list@.len() as int) =~= self.list@);
        }
        p.flush()
    }
}

/// The full result of evaluating a distribution at a list of points:
/// its moments, the point-probability lines and the interval lines.
#[derive(Debug)]
pub struct Analysis {
    pub title: String,
    pub expected: Option<Fx>,
    pub variance: Option<Fx>,
    pub pdf_eval: Vec<Line>,
    pub cdf_eval: Vec<Line>,
}

/// The rows an analysis shows: expected and variance when present, then the
/// point lines, then the interval lines.
pub open spec fn analysis_pairs(a: &Analysis) -> Seq<(Seq<char>, Seq<char>)> {
    opt_pair("expected"@, a.expected) + opt_pair("variance"@, a.variance) + lines_pairs(
        a.pdf_eval@,
    ) + lines_pairs(a.cdf_eval@)
}

impl Analysis {
    /// The moments and every line value stay within the formatter's range.
    pub open spec fn wf(&self) -> bool {
        &&& match self.expected {
            Some(v) => -PROD_LIMIT <= v.units <= PROD_LIMIT,
            None => true,
        }
        &&& match self.variance {
            Some(v) => -PROD_LIMIT <= v.units <= PROD_LIMIT,
            None => true,
        }
        &&& forall|i: int|
            0 <= i < self.pdf_eval@.len() ==> line_ok(#[trigger] self.pdf_eval@[i])
        &&& forall|i: int|
            0 <= i < self.cdf_eval@.len() ==> line_ok(#[trigger] self.cdf_eval@[i])
    }

    /// The rendered table: the title, the moments, then every line aligned
    /// at the widest description.
    pub fn render(&self) -> (r: String)
        requires
            self.wf(),
        ensures
            r@ == table_seq(self.title@, analysis_pairs(self), max_width(analysis_pairs(self))),
    {
        let mut p = Printer::new();
        p.raw_line("expected", self.expected);
        p.raw_line("variance", self.variance);
        proof {
            assert(rows_view(p.rows@) =~~= opt_pair("expected"@, self.expected) + opt_pair(
                "variance"@,
                self.variance,
            ));
        }
        let ghost head = opt_pair("expected"@, self.expected) + opt_pair(
            "variance"@,
            self.variance,
        );
        let mut i: usize = 0;
        while i < self.pdf_eval.len()
            invariant
                i <= self.pdf_eval@.len(),
                self.wf(),
                p.wf(),
                rows_view(p.rows@) == head + lines_pairs(self.pdf_eval@.take(i as int)),
            decreases self.pdf_eval@.len() - i,
        {
            p.push_line(&self.pdf_eval[i]);
            i = i + 1;
            proof {
                assert(rows_view(p.rows@) =~~= head + lines_pairs(self.pdf_eval@.take(i as int)));
            }
        }
        proof {
            assert(self.pdf_eval@.take(self.pdf_eval@.len() as int) =~= self.pdf_eval@);
        }
        let ghost head2 = head + lines_pairs(self.pdf_eval@);
        let mut j: usize = 0;
        while j < self.cdf_eval.len()
            invariant
                j <= self.cdf_eval@.len(),
                self.wf(),
                p.wf(),
                rows_view(p.rows@) == head2 + lines_pairs(self.cdf_eval@.take(j as int)),
            decreases self.cdf_eval@.len() - j,
        {
            p.push_line(&self.cdf_eval[j]);
            j = j + 1;
            proof {
                assert(rows_view(p.rows@) =~~= head2 + lines_pairs(self.cdf_eval@.take(j as int)));
            }
        }
        proof {
            assert(self.cdf_eval@.take(self.cdf_eval@.len() as int) =~= self.cdf_eval@);
            assert(head2 + lines_pairs(self.cdf_eval@) =~~= analysis_pairs(self));
        }
        p.set_title(self.title.as_str());
        p.flush()
    }
}

impl Default for Analysis {
    /// An empty analysis: no title, no moments, no lines.
    fn default() -> (r: Analysis)
        ensures
            r.title@ =~= Seq::<char>::empty(),
            r.expected is None,
            r.variance is None,
            r.pdf_eval@ =~= Seq::<Line>::empty(),
            r.cdf_eval@ =~= Seq::<Line>::empty(),
    {
        Analysis {
            title: String::new(),
            expected: None,
            variance: None,
            pdf_eval: Vec::new(),
            cdf_eval: Vec::new(),
        }
    }
}

} // verus!
