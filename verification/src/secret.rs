use vstd::prelude::*;
use vstd::string::StrSliceExecFns;

verus! {

/// The letter substitution: each Latin letter moves thirteen places within
/// its case, as a character code; everything else is unchanged.
pub open spec fn rot13_code(u: int) -> int {
    if 65 <= u <= 77 || 97 <= u <= 109 {
        u + 13
    } else if 78 <= u <= 90 || 110 <= u <= 122 {
        u - 13
    } else {
        u
    }
}

/// Rotating by thirteen twice gives every character code back: the
/// substitution is its own inverse.
pub proof fn lemma_rot13_involution(u: int)
    ensures
        rot13_code(rot13_code(u)) == u,
{
}

/// The thirteen-places-rotated letter, as a one-character string.
fn rot13_letter(cu: u32) -> (r: &'static str)
    requires
        65 <= cu <= 90 || 97 <= cu <= 122,
    ensures
        r@.len() == 1,
        r@[0] as int == rot13_code(cu as int),
{
    proof {
        reveal_strlit("A");
        reveal_strlit("B");
        reveal_strlit("C");
        reveal_strlit("D");
        reveal_strlit("E");
        reveal_strlit("F");
        reveal_strlit("G");
        reveal_strlit("H");
        reveal_strlit("I");
        reveal_strlit("J");
        reveal_strlit("K");
        reveal_strlit("L");
        reveal_strlit("M");
        reveal_strlit("N");
        reveal_strlit("O");
        reveal_strlit("P");
        reveal_strlit("Q");
        reveal_strlit("R");
        reveal_strlit("S");
        reveal_strlit("T");
        reveal_strlit("U");
        reveal_strlit("V");
        reveal_strlit("W");
        reveal_strlit("X");
        reveal_strlit("Y");
        reveal_strlit("Z");
        reveal_strlit("a");
        reveal_strlit("b");
        reveal_strlit("c");
        reveal_strlit("d");
        reveal_strlit("e");
        reveal_strlit("f");
        reveal_strlit("g");
        reveal_strlit("h");
        reveal_strlit("i");
        reveal_strlit("j");
        reveal_strlit("k");
        reveal_strlit("l");
        reveal_strlit("m");
        reveal_strlit("n");
        reveal_strlit("o");
        reveal_strlit("p");
        reveal_strlit("q");
        reveal_strlit("r");
        reveal_strlit("s");
        reveal_strlit("t");
        reveal_strlit("u");
        reveal_strlit("v");
        reveal_strlit("w");
        reveal_strlit("x");
        reveal_strlit("y");
        reveal_strlit("z");
    }
    let r = match cu {
            65 => "N",
            66 => "O",
            67 => "P",
            68 => "Q",
            69 => "R",
            70 => "S",
            71 => "T",
            72 => "U",
            73 => "V",
            74 => "W",
            75 => "X",
            76 => "Y",
            77 => "Z",
            78 => "A",
            79 => "B",
            80 => "C",
            81 => "D",
            82 => "E",
            83 => "F",
            84 => "G",
            85 => "H",
            86 => "I",
            87 => "J",
            88 => "K",
            89 => "L",
            90 => "M",
            97 => "n",
            98 => "o",
            99 => "p",
            100 => "q",
            101 => "r",
            102 => "s",
            103 => "t",
            104 => "u",
            105 => "v",
            106 => "w",
            107 => "x",
            108 => "y",
            109 => "z",
            110 => "a",
            111 => "b",
            112 => "c",
            113 => "d",
            114 => "e",
            115 => "f",
            116 => "g",
            117 => "h",
            118 => "i",
            119 => "j",
            120 => "k",
            121 => "l",
            122 => "m",
            _ => "A",
        };
    r
}

/// Rotates every Latin letter of the text thirteen places within its case,
/// leaving every other character as it stands. Applying it twice gives the
/// original text back.
pub fn rot13(text: &str) -> (r: String)
    ensures
        r@.len() == text@.len(),
        forall|i: int| 0 <= i < r@.len() ==> (#[trigger] r@[i]) as int == rot13_code(
            text@[i] as int,
        ),
{
    let n = text.unicode_len();
    let mut r = String::new();
    let mut i: usize = 0;
    while i < n
        invariant
            0 <= i <= n,
            n == text@.len(),
            r@.len() == i,
            forall|k: int| 0 <= k < i ==> (#[trigger] r@[k]) as int == rot13_code(text@[k] as int),
        decreases n - i,
    {
        let c = text.get_char(i);
        let cu = c as u32;
        if (65 <= cu && cu <= 90) || (97 <= cu && cu <= 122) {
            r.append(rot13_letter(cu));
        } else {
            let one = text.substring_char(i, i + 1);
            proof {
                assert(one@ =~= seq![text@[i as int]]);
            }
            r.append(one);
        }
        i = i + 1;
    }
    r
}

} // verus!
