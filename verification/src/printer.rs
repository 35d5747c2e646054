use vstd::prelude::*;
use vstd::string::StrSliceExecFns;

use crate::display::Line;
use crate::fixed::{Fx, PROD_LIMIT};
use crate::format::{fx_seq, fx_string};

verus! {

/// `n` spaces.
pub open spec fn spaces_seq(n: nat) -> Seq<char>
    decreases n,
{
    if n == 0 {
        Seq::<char>::empty()
    } else {
        spaces_seq((n - 1) as nat).push(' ')
    }
}

/// One aligned output row at margin `m`: the description, padding up to the
/// margin, then `" | "` and the value; a row with an empty value is the
/// description alone.
pub open spec fn row_seq(p: (Seq<char>, Seq<char>), m: nat) -> Seq<char> {
    if p.1.len() == 0 {
        p.0
    } else {
        let pad = if m >= p.0.len() {
            (m - p.0.len()) as nat
        } else {
            0
        };
        p.0 + spaces_seq(pad) + seq![' ', '|', ' '] + p.1
    }
}

/// The table body: the rows aligned at margin `m`, joined with newlines.
pub open spec fn body_seq(rows: Seq<(Seq<char>, Seq<char>)>, m: nat) -> Seq<char>
    decreases rows.len(),
{
    if rows.len() == 0 {
        Seq::<char>::empty()
    } else if rows.len() == 1 {
        row_seq(rows[0], m)
    } else {
        body_seq(rows.drop_last(), m) + seq!['\n'] + row_seq(rows.last(), m)
    }
}

/// The whole table: a title line when the title is non-empty, then the body.
pub open spec fn table_seq(title: Seq<char>, rows: Seq<(Seq<char>, Seq<char>)>, m: nat) -> Seq<
    char,
> {
    if title.len() == 0 {
        body_seq(rows, m)
    } else {
        title + seq!['\n'] + body_seq(rows, m)
    }
}

/// The widest description among the rows; the margin the table is aligned at.
pub open spec fn max_width(rows: Seq<(Seq<char>, Seq<char>)>) -> nat
    decreases rows.len(),
{
    if rows.len() == 0 {
        0
    } else if rows.last().0.len() > max_width(rows.drop_last()) {
        rows.last().0.len()
    } else {
        max_width(rows.drop_last())
    }
}

/// Appending a row widens the margin to that row's description when needed.
pub proof fn lemma_max_width_push(rows: Seq<(Seq<char>, Seq<char>)>, p: (Seq<char>, Seq<char>))
    ensures
        max_width(rows.push(p)) == if p.0.len() > max_width(rows) {
            p.0.len()
        } else {
            max_width(rows)
        },
{
    assert(rows.push(p).drop_last() =~= rows);
    assert(rows.push(p).last() == p);
}

/// A column-aligned line: `left`, padding spaces up to `m`, `" | "`, `right`;
/// `left` alone when `right` is empty.
pub fn margin(left: &str, right: &str, m: usize) -> (r: String)
    ensures
        r@ == row_seq((left@, right@), m as nat),
{
    let mut s = String::new();
    s.append(left);
    if right.is_empty() {
        proof {
            assert(s@ =~= row_seq((left@, right@), m as nat));
        }
        return s;
    }
    let lw: usize = left.unicode_len();
    let pad: usize = if m >= lw {
        m - lw
    } else {
        0
    };
    let mut i: usize = 0;
    proof {
        reveal_strlit(" ");
        assert(" "@ =~= seq![' ']);
        assert(s@ =~= left@ + spaces_seq(0));
    }
    while i < pad
        invariant
            i <= pad,
            " "@ == seq![' '],
            s@ == left@ + spaces_seq(i as nat),
        decreases pad - i,
    {
        s.append(" ");
        i = i + 1;
        proof {
            assert(s@ =~= left@ + spaces_seq(i as nat));
        }
    }
    proof {
        reveal_strlit(" | ");
        assert(" | "@ =~= seq![' ', '|', ' ']);
    }
    s.append(" | ");
    s.append(right);
    proof {
        assert(s@ =~= left@ + spaces_seq(pad as nat) + seq![' ', '|', ' '] + right@);
        assert(s@ =~= row_seq((left@, right@), m as nat));
    }
    s
}

/// A help line: the symbol padded to a sixteen-character column, then the
/// description.
pub fn about(sym: &str, desc: &str) -> (r: String)
    requires
        sym@.len() <= 16,
    ensures
        r@ == sym@ + spaces_seq((16 - sym@.len()) as nat) + desc@,
{
    let n = sym.unicode_len();
    let mut s = String::new();
    s.append(sym);
    let mut i: usize = 0;
    proof {
        reveal_strlit(" ");
        assert(" "@ =~= seq![' ']);
        assert(s@ =~= sym@ + spaces_seq(0));
    }
    while i < 16 - n
        invariant
            i <= 16 - n,
            n == sym@.len(),
            n <= 16,
            " "@ == seq![' '],
            s@ == sym@ + spaces_seq(i as nat),
        decreases 16 - n - i,
    {
        s.append(" ");
        i = i + 1;
        proof {
            assert(s@ =~= sym@ + spaces_seq(i as nat));
        }
    }
    s.append(desc);
    s
}

/// One buffered row: a description and the value text shown beside it.
pub struct PrintRow {
    pub desc: String,
    pub val: String,
}

/// The abstract content of the buffered rows.
pub open spec fn rows_view(rows: Seq<PrintRow>) -> Seq<(Seq<char>, Seq<char>)> {
    rows.map_values(|r: PrintRow| (r.desc@, r.val@))
}

/// Collects rows, tracks the widest description, and renders an aligned
/// two-column table, optionally under a title line.
pub struct Printer {
    pub margin: usize,
    pub rows: Vec<PrintRow>,
    pub title: String,
}

impl Printer {
    /// The printer keeps its margin at the widest buffered description.
    pub open spec fn wf(&self) -> bool {
        self.margin == max_width(rows_view(self.rows@))
    }

    /// An empty printer.
    pub fn new() -> (r: Printer)
        ensures
            r.wf(),
            rows_view(r.rows@) =~= Seq::<(Seq<char>, Seq<char>)>::empty(),
            r.title@ =~= Seq::<char>::empty(),
    {
        let p = Printer { margin: 0, rows: Vec::new(), title: String::new() };
        proof {
            assert(rows_view(p.rows@) =~~= Seq::<(Seq<char>, Seq<char>)>::empty());
        }
        p
    }

    /// Widens the margin to fit this description.
    fn update_margin(&mut self, w: &str)
        ensures
            final(self).margin == if w@.len() > old(self).margin {
                w@.len() as int
            } else {
                old(self).margin as int
            },
            final(self).rows == old(self).rows,
            final(self).title == old(self).title,
    {
        let lw: usize = w.unicode_len();
        if lw > self.margin {
            self.margin = lw;
        }
    }

    /// Adds a row with a value only when one is present, as the expected and
    /// variance rows of an analysis are shown.
    pub fn raw_line(&mut self, desc: &str, val: Option<Fx>)
        requires
            old(self).wf(),
            val is Some ==> -PROD_LIMIT <= val->0.units <= PROD_LIMIT,
        ensures
            final(self).wf(),
            rows_view(final(self).rows@) == match val {
                Some(v) => rows_view(old(self).rows@).push((desc@, fx_seq(v.units as int))),
                None => rows_view(old(self).rows@),
            },
            final(self).title == old(self).title,
    {
        match val {
            Some(v) => {
                self.update_margin(desc);
                let row = PrintRow { desc: String::from_str(desc), val: fx_string(v) };
                self.rows.push(row);
                proof {
                    assert(rows_view(final(self).rows@) =~~= rows_view(old(self).rows@).push(
                        (desc@, fx_seq(v.units as int)),
                    ));
                    lemma_max_width_push(rows_view(old(self).rows@), (desc@, fx_seq(v.units as int)));
                }
            },
            None => {
                proof {
                    assert(rows_view(final(self).rows@) =~~= rows_view(old(self).rows@));
                }
            },
        }
    }

    /// Adds one line of a report; a line without a value shows its
    /// description alone.
    pub fn push_line(&mut self, line: &Line)
        requires
            old(self).wf(),
            line.val is Some ==> -PROD_LIMIT <= line.val->0.units <= PROD_LIMIT,
        ensures
            final(self).wf(),
            rows_view(final(self).rows@) == rows_view(old(self).rows@).push(
                (
                    line.desc@,
                    match line.val {
                        Some(v) => fx_seq(v.units as int),
                        None => Seq::<char>::empty(),
                    },
                ),
            ),
            final(self).title == old(self).title,
    {
        self.update_margin(line.desc.as_str());
        let val: String = match &line.val {
            Some(v) => fx_string(*v),
            None => String::new(),
        };
        let ghost vv = val@;
        let row = PrintRow { desc: line.desc.clone(), val };
        self.rows.push(row);
        proof {
            assert(rows_view(final(self).rows@) =~~= rows_view(old(self).rows@).push(
                (line.desc@, vv),
            ));
            lemma_max_width_push(rows_view(old(self).rows@), (line.desc@, vv));
        }
    }

    /// The aligned body of the table.
    pub fn build(&self) -> (r: String)
        ensures
            r@ == body_seq(rows_view(self.rows@), self.margin as nat),
    {
        let mut s = String::new();
        let mut i: usize = 0;
        proof {
            reveal_strlit("\n");
        }
        while i < self.rows.len()
            invariant
                i <= self.rows@.len(),
                "\n"@ == seq!['\n'],
                s@ == body_seq(rows_view(self.rows@).take(i as int), self.margin as nat),
            decreases self.rows@.len() - i,
        {
            if i > 0 {
                s.append("\n");
            }
            let row = margin(self.rows[i].desc.as_str(), self.rows[i].val.as_str(), self.margin);
            s.append(row.as_str());
            i = i + 1;
            proof {
                let rv = rows_view(self.rows@);
                assert(rv.take(i as int).drop_last() =~= rv.take(i - 1));
                assert(rv.take(i as int).last() == rv[i - 1]);
                assert(s@ =~= body_seq(rv.take(i as int), self.margin as nat));
            }
        }
        proof {
            let rv = rows_view(self.rows@);
            assert(rv.take(rv.len() as int) =~= rv);
        }
        s
    }

    /// Sets the title line.
    pub fn set_title(&mut self, title: &str)
        ensures
            final(self).title@ == title@,
            final(self).rows == old(self).rows,
            final(self).margin == old(self).margin,
    {
        self.title = String::from_str(title);
    }

    /// The finished table: the title line when one was set, then the body.
    pub fn flush(&self) -> (r: String)
        ensures
            r@ == table_seq(self.title@, rows_view(self.rows@), self.margin as nat),
    {
        let body = self.build();
        if self.title.as_str().is_empty() {
            proof {
                assert(body@ =~= table_seq(
                    self.title@,
                    rows_view(self.rows@),
                    self.margin as nat,
                ));
            }
            body
        } else {
            let mut s = self.title.clone();
            proof {
                reveal_strlit("\n");
            }
            s.append("\n");
            s.append(body.as_str());
            proof {
                assert(s@ =~= table_seq(self.title@, rows_view(self.rows@), self.margin as nat));
            }
            s
        }
    }
}

} // verus!
