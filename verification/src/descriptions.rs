use vstd::prelude::*;
use vstd::string::StrSliceExecFns;

use crate::fixed::{Fx, PROD_LIMIT};
use crate::format::{dec_seq, dec_string, fx_seq, fx_string};

verus! {

/// The width at which a sentence is folded onto its next line.
pub const WRAP_LEN: u64 = 69;

/// The position of the last space, or -1 when there is none.
pub open spec fn rfind_space(s: Seq<char>) -> int
    decreases s.len(),
{
    if s.len() == 0 {
        -1
    } else if s.last() == ' ' {
        s.len() - 1
    } else {
        rfind_space(s.drop_last())
    }
}

/// One pass of folding: each character is appended in turn; on every
/// sixty-ninth the text so far is broken at its last space, the space
/// becoming a newline, and the count starts over.
pub open spec fn wrap_rec(s: Seq<char>, i: int, count: int, acc: Seq<char>) -> Seq<char>
    decreases s.len() - i,
{
    if i < 0 || i >= s.len() {
        acc
    } else {
        let acc1 = acc.push(s[i]);
        if count + 1 == WRAP_LEN {
            let sp = rfind_space(acc1);
            if sp == -1 {
                wrap_rec(s, i + 1, 0, acc1)
            } else {
                wrap_rec(
                    s,
                    i + 1,
                    0,
                    acc1.subrange(0, sp) + seq!['\n'] + acc1.subrange(sp + 1, acc1.len() as int),
                )
            }
        } else {
            wrap_rec(s, i + 1, count + 1, acc1)
        }
    }
}

/// The folded form of a sentence.
pub open spec fn wrap_spec(s: Seq<char>) -> Seq<char> {
    wrap_rec(s, 0, 0, Seq::<char>::empty())
}

/// The last space is where the scan from the end first stops.
proof fn lemma_rfind(s: Seq<char>, j: int)
    requires
        -1 <= j < s.len(),
        j >= 0 ==> s[j] == ' ',
        forall|k: int| j < k < s.len() ==> s[k] != ' ',
    ensures
        rfind_space(s) == j,
    decreases s.len(),
{
    if s.len() > 0 {
        if j == s.len() - 1 {
        } else {
            lemma_rfind(s.drop_last(), j);
        }
    }
}

/// The position of the last space of a string, or none.
fn rfind_space_exec(t: &str) -> (r: Option<usize>)
    ensures
        r is Some ==> rfind_space(t@) == r->0 && r->0 < t@.len(),
        r is None ==> rfind_space(t@) == -1,
{
    let m = t.unicode_len();
    let mut k: usize = m;
    while k > 0
        invariant
            0 <= k <= m,
            m == t@.len(),
            forall|j: int| k <= j < m ==> t@[j] != ' ',
        decreases k,
    {
        if t.get_char(k - 1) == ' ' {
            proof {
                lemma_rfind(t@, k - 1);
            }
            return Some(k - 1);
        }
        k = k - 1;
    }
    proof {
        lemma_rfind(t@, -1);
    }
    None
}

/// Folds a sentence at sixty-nine characters: whenever the count reaches
/// the width, the text built so far is broken at its last space, which
/// becomes a newline, and the count starts over.
pub fn wrap(s: String) -> (r: String)
    ensures
        r@ == wrap_spec(s@),
{
    let n = s.as_str().unicode_len();
    let mut result = String::new();
    let mut count: u64 = 0;
    let mut i: usize = 0;
    while i < n
        invariant
            0 <= i <= n,
            n == s@.len(),
            0 <= count < WRAP_LEN,
            wrap_rec(s@, i as int, count as int, result@) == wrap_spec(s@),
        decreases n - i,
    {
        let ghost acc0 = result@;
        let one = s.as_str().substring_char(i, i + 1);
        proof {
            assert(one@ =~= seq![s@[i as int]]);
        }
        result.append(one);
        proof {
            assert(result@ =~= acc0.push(s@[i as int]));
        }
        count = count + 1;
        if count == WRAP_LEN {
            count = 0;
            match rfind_space_exec(result.as_str()) {
                None => (),
                Some(sp) => {
                    let ghost acc1 = result@;
                    let m = result.as_str().unicode_len();
                    let prev = result;
                    let mut next = String::new();
                    let before = prev.as_str().substring_char(0, sp);
                    next.append(before);
                    proof {
                        reveal_strlit("\n");
                    }
                    next.append("\n");
                    let after = prev.as_str().substring_char(sp + 1, m);
                    next.append(after);
                    result = next;
                    proof {
                        assert(result@ =~= acc1.subrange(0, sp as int) + seq!['\n']
                            + acc1.subrange(sp + 1, acc1.len() as int));
                    }
                },
            }
        }
        i = i + 1;
    }
    result
}

/// The ordinal spelling of a count: a final digit one, two or three takes
/// `st`, `nd` or `rd` in its place, and anything else takes `th` after the
/// digits.
pub open spec fn ord_seq(n: nat) -> Seq<char> {
    let ds = dec_seq(n);
    if n % 10 == 1 {
        ds.drop_last() + "1st"@
    } else if n % 10 == 2 {
        ds.drop_last() + "2nd"@
    } else if n % 10 == 3 {
        ds.drop_last() + "3rd"@
    } else {
        ds + "th"@
    }
}

/// Spells a count as an ordinal.
pub fn ord_string(n: u64) -> (r: String)
    ensures
        r@ == ord_seq(n as nat),
{
    proof {
        reveal_strlit("1st");
        reveal_strlit("2nd");
        reveal_strlit("3rd");
        reveal_strlit("th");
        if n >= 10 {
            assert(dec_seq(n as nat).drop_last() =~= dec_seq((n as nat) / 10));
        } else {
            assert(dec_seq(n as nat).drop_last() =~= Seq::<char>::empty());
        }
    }
    let d = n % 10;
    if d == 1 || d == 2 || d == 3 {
        let mut s = if n >= 10 {
            dec_string(n / 10)
        } else {
            String::new()
        };
        if d == 1 {
            s.append("1st");
        } else if d == 2 {
            s.append("2nd");
        } else {
            s.append("3rd");
        }
        proof {
            assert(s@ =~= ord_seq(n as nat));
        }
        s
    } else {
        let mut s = dec_string(n);
        s.append("th");
        proof {
            assert(s@ =~= ord_seq(n as nat));
        }
        s
    }
}

/// A comparison wording: which side of the value the probability covers.
#[derive(Clone, Copy, PartialEq, Eq, Structural, Debug)]
pub enum Mode {
    Lt,
    Le,
    Eq,
    Ge,
    Gt,
}

impl Mode {
    /// Which of the five wordings this mode picks.
    pub open spec fn idx(self) -> int {
        match self {
            Mode::Lt => 0,
            Mode::Le => 1,
            Mode::Eq => 2,
            Mode::Ge => 3,
            Mode::Gt => 4,
        }
    }

    /// Picks this mode's wording from the five supplied.
    pub fn fmt<'a>(self, f: [&'a str; 5]) -> (r: &'a str)
        ensures
            r@ == f@[self.idx()]@,
    {
        match self {
            Mode::Lt => f[0],
            Mode::Le => f[1],
            Mode::Eq => f[2],
            Mode::Ge => f[3],
            Mode::Gt => f[4],
        }
    }
}

/// The sentence describing a binomial query, folded to width.
pub open spec fn binomial_desc(mode: Seq<char>, trials: nat, win_rate: int, wins: nat) -> Seq<
    char,
> {
    wrap_spec(
        "Probability of winning "@ + mode + " "@ + dec_seq(wins) + " times in "@ + dec_seq(trials)
            + " trials given a win-rate of "@ + fx_seq(win_rate) + "."@,
    )
}

/// Describes a binomial query in words: how often the win should fall in
/// the given number of trials at the given win-rate.
pub fn binomial(mode: Mode, trials: u64, win_rate: Fx, wins: u64) -> (r: String)
    requires
        -PROD_LIMIT <= win_rate.units <= PROD_LIMIT,
    ensures
        r@ == binomial_desc(
            (["less than", "at most", "exactly", "at least", "more than"])@[mode.idx()]@,
            trials as nat,
            win_rate.units as int,
            wins as nat,
        ),
{
    let m = mode.fmt(["less than", "at most", "exactly", "at least", "more than"]);
    let mut s = String::from_str("Probability of winning ");
    s.append(m);
    s.append(" ");
    let ws = dec_string(wins);
    s.append(ws.as_str());
    s.append(" times in ");
    let ts = dec_string(trials);
    s.append(ts.as_str());
    s.append(" trials given a win-rate of ");
    let ps = fx_string(win_rate);
    s.append(ps.as_str());
    s.append(".");
    proof {
        assert(s@ =~= "Probability of winning "@ + (
        ["less than", "at most", "exactly", "at least", "more than"])@[mode.idx()]@ + " "@
            + dec_seq(wins as nat) + " times in "@ + dec_seq(trials as nat)
            + " trials given a win-rate of "@ + fx_seq(win_rate.units as int) + "."@);
    }
    wrap(s)
}

/// The sentence describing a negative binomial query, folded to width.
pub open spec fn negative_binomial_desc(
    mode: Seq<char>,
    wins: nat,
    win_rate: int,
    trials: nat,
) -> Seq<char> {
    wrap_spec(
        "Probability of winning for the "@ + ord_seq(wins) + " time "@ + mode + " "@ + ord_seq(
            trials,
        ) + " trial given a win-rate of "@ + fx_seq(win_rate) + "."@,
    )
}

/// Describes a negative binomial query in words: on which trial the
/// given win should fall at the given win-rate.
pub fn negative_binomial(mode: Mode, wins: u64, win_rate: Fx, trials: u64) -> (r: String)
    requires
        -PROD_LIMIT <= win_rate.units <= PROD_LIMIT,
    ensures
        r@ == negative_binomial_desc(
            ([
                "before the",
                "before and including the",
                "on the",
                "after and including the",
                "after the",
            ])@[mode.idx()]@,
            wins as nat,
            win_rate.units as int,
            trials as nat,
        ),
{
    let m = mode.fmt(
        [
            "before the",
            "before and including the",
            "on the",
            "after and including the",
            "after the",
        ],
    );
    let mut s = String::from_str("Probability of winning for the ");
    let wo = ord_string(wins);
    s.append(wo.as_str());
    s.append(" time ");
    s.append(m);
    s.append(" ");
    let to = ord_string(trials);
    s.append(to.as_str());
    s.append(" trial given a win-rate of ");
    let ps = fx_string(win_rate);
    s.append(ps.as_str());
    s.append(".");
    proof {
        assert(s@ =~= "Probability of winning for the "@ + ord_seq(wins as nat) + " time "@ + ([
            "before the",
            "before and including the",
            "on the",
            "after and including the",
            "after the",
        ])@[mode.idx()]@ + " "@ + ord_seq(trials as nat) + " trial given a win-rate of "@ + fx_seq(
            win_rate.units as int,
        ) + "."@);
    }
    wrap(s)
}

} // verus!
