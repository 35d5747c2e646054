use vstd::prelude::*;

use crate::fixed::{Fx, PROD_LIMIT, SCALE};

verus! {

/// The character for one decimal digit.
pub open spec fn digit_char(d: int) -> char {
    if d == 0 {
        '0'
    } else if d == 1 {
        '1'
    } else if d == 2 {
        '2'
    } else if d == 3 {
        '3'
    } else if d == 4 {
        '4'
    } else if d == 5 {
        '5'
    } else if d == 6 {
        '6'
    } else if d == 7 {
        '7'
    } else if d == 8 {
        '8'
    } else {
        '9'
    }
}

/// The decimal digits of a non-negative integer, most significant first.
pub open spec fn dec_seq(n: nat) -> Seq<char>
    decreases n,
{
    if n < 10 {
        seq![digit_char(n as int)]
    } else {
        dec_seq(n / 10).push(digit_char((n % 10) as int))
    }
}

/// The decimal digits of `n` written in exactly `w` places, zero padded.
pub open spec fn pad_seq(n: nat, w: nat) -> Seq<char>
    decreases w,
{
    if w == 0 {
        Seq::<char>::empty()
    } else {
        pad_seq(n / 10, (w - 1) as nat).push(digit_char((n % 10) as int))
    }
}

/// A fraction of `w` decimal places holding `f`, with trailing zeros removed.
pub open spec fn frac_seq(f: nat, w: nat) -> Seq<char>
    decreases w,
{
    if w == 0 {
        Seq::<char>::empty()
    } else if f % 10 == 0 {
        frac_seq(f / 10, (w - 1) as nat)
    } else {
        pad_seq(f, w)
    }
}

/// The decimal text of a unit count: sign, whole part, and a fractional part
/// with trailing zeros trimmed, exactly as a value rounded to ten decimal
/// places is printed.
pub open spec fn fx_seq(u: int) -> Seq<char> {
    let m = if u >= 0 {
        u
    } else {
        -u
    };
    let ip = m / (SCALE as int);
    let fp = m % (SCALE as int);
    (if u < 0 {
        seq!['-']
    } else {
        Seq::<char>::empty()
    }) + dec_seq(ip as nat) + (if fp == 0 {
        Seq::<char>::empty()
    } else {
        seq!['.'] + frac_seq(fp as nat, 10)
    })
}

/// A one-character string for a decimal digit.
fn digit_str(d: u8) -> (r: &'static str)
    requires
        d < 10,
    ensures
        r@ == seq![digit_char(d as int)],
{
    proof {
        reveal_strlit("0");
        reveal_strlit("1");
        reveal_strlit("2");
        reveal_strlit("3");
        reveal_strlit("4");
        reveal_strlit("5");
        reveal_strlit("6");
        reveal_strlit("7");
        reveal_strlit("8");
        reveal_strlit("9");
    }
    let r = match d {
        0 => "0",
        1 => "1",
        2 => "2",
        3 => "3",
        4 => "4",
        5 => "5",
        6 => "6",
        7 => "7",
        8 => "8",
        _ => "9",
    };
    proof {
        assert(r@ =~= seq![digit_char(d as int)]);
    }
    r
}

/// Appends the decimal digits of `n` to `s`.
fn push_dec(s: &mut String, n: u128)
    ensures
        final(s)@ == old(s)@ + dec_seq(n as nat),
    decreases n,
{
    if n >= 10 {
        push_dec(s, n / 10);
    }
    let d: u8 = (n % 10) as u8;
    s.append(digit_str(d));
    proof {
        assert(final(s)@ =~= old(s)@ + dec_seq(n as nat));
    }
}

/// Appends `n` in exactly `w` decimal places, zero padded.
fn push_pad(s: &mut String, n: u128, w: usize)
    ensures
        final(s)@ == old(s)@ + pad_seq(n as nat, w as nat),
    decreases w,
{
    if w > 0 {
        push_pad(s, n / 10, w - 1);
        let d: u8 = (n % 10) as u8;
        s.append(digit_str(d));
    }
    proof {
        assert(final(s)@ =~= old(s)@ + pad_seq(n as nat, w as nat));
    }
}

/// Appends a `w`-place fraction holding `f`, with trailing zeros trimmed.
fn push_frac(s: &mut String, f: u128, w: usize)
    ensures
        final(s)@ == old(s)@ + frac_seq(f as nat, w as nat),
{
    let ghost f0 = f;
    let ghost w0 = w;
    let mut f = f;
    let mut w = w;
    while w > 0 && f % 10 == 0
        invariant
            frac_seq(f as nat, w as nat) == frac_seq(f0 as nat, w0 as nat),
        decreases w,
    {
        f = f / 10;
        w = w - 1;
    }
    if w > 0 {
        push_pad(s, f, w);
        proof {
            assert(frac_seq(f as nat, w as nat) == pad_seq(f as nat, w as nat));
        }
    }
}

/// The decimal text of a non-negative integer.
pub fn dec_string(n: u64) -> (r: String)
    ensures
        r@ == dec_seq(n as nat),
{
    let mut s = String::new();
    push_dec(&mut s, n as u128);
    proof {
        assert(s@ =~= dec_seq(n as nat));
    }
    s
}

/// The decimal text of a value held in units, as the library prints it:
/// sign, whole part, point and fraction only when the fraction is non-zero,
/// trailing zeros trimmed.
pub fn fx_string(v: Fx) -> (r: String)
    requires
        -PROD_LIMIT <= v.units <= PROD_LIMIT,
    ensures
        r@ == fx_seq(v.units as int),
{
    let mut s = String::new();
    if v.units < 0 {
        proof {
            reveal_strlit("-");
        }
        s.append("-");
    }
    let m: u128 = if v.units >= 0 {
        v.units as u128
    } else {
        (-v.units) as u128
    };
    let ip: u128 = m / 10_000_000_000;
    let fp: u128 = m % 10_000_000_000;
    push_dec(&mut s, ip);
    if fp != 0 {
        proof {
            reveal_strlit(".");
        }
        s.append(".");
        push_frac(&mut s, fp, 10);
    }
    proof {
        assert(s@ =~= fx_seq(v.units as int));
    }
    s
}

} // verus!
