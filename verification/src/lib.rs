//! Decoding of raw HTTP request bytes into structured messages, and encoding
//! of structured response messages back into bytes.
//!
//! The decoder is a single-pass, byte-level state machine: it splits a buffer
//! into lines, parses the request line and the header fields, and — when a
//! `multipart/form-data` boundary is announced — scans the raw body for the
//! boundary token and slices out each part's headers and payload.  Every
//! public operation carries a contract that pins its result down against a
//! specification-level model of the same parse.

use vstd::prelude::*;

pub mod request;
pub mod response;
pub mod strmap;
pub mod text;

verus! {

/// Canonicalizes a header key to Train-Case: the first character of every
/// `-`-separated segment is mapped to upper case, the rest to lower case.
/// Only ASCII letters are case-mapped; all other characters pass through
/// unchanged.
pub fn capitalize_key(word: &str) -> (r: String)
    ensures
        r@ == spec_capitalize_key(word@),
{
    let n = word.unicode_len();
    let mut out = String::new();
    let mut first: bool = true;
    let mut i: usize = 0;
    proof {
        assert(word@.skip(0) =~= word@);
        assert(out@ + spec_capitalize_from(word@, true) =~= spec_capitalize_from(word@, true));
    }
    while i < n
        invariant
            i <= n,
            n == word@.len(),
            out@ + spec_capitalize_from(word@.skip(i as int), first) == spec_capitalize_key(
                word@,
            ),
        decreases n - i,
    {
        let c = word.get_char(i);
        proof {
            assert(word@.skip(i as int)[0] == c);
            assert(word@.skip(i as int).drop_first() =~= word@.skip(i + 1));
        }
        if c == '-' {
            out.append("-");
            proof {
                reveal_strlit("-");
                assert(seq!['-'] =~= "-"@);
            }
            first = true;
        } else if first {
            append_cased(&mut out, word, i, true);
            first = false;
        } else {
            append_cased(&mut out, word, i, false);
        }
        i = i + 1;
    }
    proof {
        assert(word@.skip(n as int) =~= Seq::<char>::empty());
        assert(out@ + Seq::<char>::empty() =~= out@);
    }
    out
}

/// The ASCII upper-case image of a character: `a`..`z` map to `A`..`Z`,
/// everything else is unchanged.
pub open spec fn upper_char(c: char) -> char {
    if 'a' <= c && c <= 'z' {
        (((c as u32) - 32) as u32) as char
    } else {
        c
    }
}

/// The ASCII lower-case image of a character: `A`..`Z` map to `a`..`z`,
/// everything else is unchanged.
pub open spec fn lower_char(c: char) -> char {
    if 'A' <= c && c <= 'Z' {
        (((c as u32) + 32) as u32) as char
    } else {
        c
    }
}

/// Train-Case canonicalization, stated over character sequences: `first`
/// records whether the next character starts a `-`-separated segment.
pub open spec fn spec_capitalize_from(s: Seq<char>, first: bool) -> Seq<char>
    decreases s.len(),
{
    if s.len() == 0 {
        Seq::empty()
    } else if s[0] == '-' {
        seq!['-'] + spec_capitalize_from(s.drop_first(), true)
    } else if first {
        seq![upper_char(s[0])] + spec_capitalize_from(s.drop_first(), false)
    } else {
        seq![lower_char(s[0])] + spec_capitalize_from(s.drop_first(), false)
    }
}

/// The canonical Train-Case form of a header key.
pub open spec fn spec_capitalize_key(s: Seq<char>) -> Seq<char> {
    spec_capitalize_from(s, true)
}

/// Case-mapping facts behind Train-Case canonicalization: both maps are
/// idempotent, map each other's images to themselves, and never produce `-`.
proof fn lemma_case_props(c: char)
    ensures
        upper_char(upper_char(c)) == upper_char(c),
        lower_char(lower_char(c)) == lower_char(c),
        c != '-' ==> upper_char(c) != '-',
        c != '-' ==> lower_char(c) != '-',
{
    broadcast use vstd::utf8::char_u32_cast, vstd::utf8::char_is_scalar;

    if 'a' <= c && c <= 'z' {
        let u = (((c as u32) - 32) as u32) as char;
        assert(u as u32 == (c as u32) - 32);
    }
    if 'A' <= c && c <= 'Z' {
        let l = (((c as u32) + 32) as u32) as char;
        assert(l as u32 == (c as u32) + 32);
    }
}

proof fn lemma_capitalize_from_idempotent(s: Seq<char>, first: bool)
    ensures
        spec_capitalize_from(spec_capitalize_from(s, first), first) == spec_capitalize_from(
            s,
            first,
        ),
    decreases s.len(),
{
    if s.len() == 0 {
        assert(spec_capitalize_from(Seq::<char>::empty(), first) =~= Seq::<char>::empty());
    } else {
        let c = s[0];
        let rest = s.drop_first();
        if c == '-' {
            let x = spec_capitalize_from(rest, true);
            lemma_capitalize_from_idempotent(rest, true);
            assert((seq!['-'] + x).drop_first() =~= x);
        } else {
            let m = if first {
                upper_char(c)
            } else {
                lower_char(c)
            };
            let y = spec_capitalize_from(rest, false);
            lemma_capitalize_from_idempotent(rest, false);
            lemma_case_props(c);
            assert((seq![m] + y).drop_first() =~= y);
        }
    }
}

/// Header key canonicalization is idempotent: a key already in Train-Case is
/// returned unchanged by a second canonicalization.
pub proof fn lemma_capitalize_key_idempotent(s: Seq<char>)
    ensures
        spec_capitalize_key(spec_capitalize_key(s)) == spec_capitalize_key(s),
{
    lemma_capitalize_from_idempotent(s, true);
}

/// Appends the case-mapped image of `s@[i]` to `out`.
fn append_cased(out: &mut String, s: &str, i: usize, up: bool)
    requires
        i < s@.len(),
        s@.len() <= usize::MAX,
    ensures
        up ==> final(out)@ == old(out)@ + seq![upper_char(s@[i as int])],
        !up ==> final(out)@ == old(out)@ + seq![lower_char(s@[i as int])],
{
    let c = s.get_char(i);
    let mapped: &str = if up {
        match c {
            'a' => "A",
            'b' => "B",
            'c' => "C",
            'd' => "D",
            'e' => "E",
            'f' => "F",
            'g' => "G",
            'h' => "H",
            'i' => "I",
            'j' => "J",
            'k' => "K",
            'l' => "L",
            'm' => "M",
            'n' => "N",
            'o' => "O",
            'p' => "P",
            'q' => "Q",
            'r' => "R",
            's' => "S",
            't' => "T",
            'u' => "U",
            'v' => "V",
            'w' => "W",
            'x' => "X",
            'y' => "Y",
            'z' => "Z",
            _ => {
                let sub = s.substring_char(i, i + 1);
                proof {
                    assert(sub@ =~= seq![s@[i as int]]);
                    assert(upper_char(c) == c) by {
                        lemma_case_tables();
                    }
                }
                sub
            },
        }
    } else {
        match c {
            'A' => "a",
            'B' => "b",
            'C' => "c",
            'D' => "d",
            'E' => "e",
            'F' => "f",
            'G' => "g",
            'H' => "h",
            'I' => "i",
            'J' => "j",
            'K' => "k",
            'L' => "l",
            'M' => "m",
            'N' => "n",
            'O' => "o",
            'P' => "p",
            'Q' => "q",
            'R' => "r",
            'S' => "s",
            'T' => "t",
            'U' => "u",
            'V' => "v",
            'W' => "w",
            'X' => "x",
            'Y' => "y",
            'Z' => "z",
            _ => {
                let sub = s.substring_char(i, i + 1);
                proof {
                    assert(sub@ =~= seq![s@[i as int]]);
                    assert(lower_char(c) == c) by {
                        lemma_case_tables();
                    }
                }
                sub
            },
        }
    };
    proof {
        lemma_case_literals();
    }
    out.append(mapped);
}

/// The 26 ASCII letters map pairwise under `upper_char` and `lower_char`.
proof fn lemma_case_tables()
    ensures
        upper_char('a') == 'A' && upper_char('b') == 'B' && upper_char('c') == 'C' && upper_char(
            'd',
        ) == 'D' && upper_char('e') == 'E' && upper_char('f') == 'F' && upper_char('g') == 'G'
            && upper_char('h') == 'H' && upper_char('i') == 'I' && upper_char('j') == 'J'
            && upper_char('k') == 'K' && upper_char('l') == 'L' && upper_char('m') == 'M'
            && upper_char('n') == 'N' && upper_char('o') == 'O' && upper_char('p') == 'P'
            && upper_char('q') == 'Q' && upper_char('r') == 'R' && upper_char('s') == 'S'
            && upper_char('t') == 'T' && upper_char('u') == 'U' && upper_char('v') == 'V'
            && upper_char('w') == 'W' && upper_char('x') == 'X' && upper_char('y') == 'Y'
            && upper_char('z') == 'Z',
        lower_char('A') == 'a' && lower_char('B') == 'b' && lower_char('C') == 'c' && lower_char(
            'D',
        ) == 'd' && lower_char('E') == 'e' && lower_char('F') == 'f' && lower_char('G') == 'g'
            && lower_char('H') == 'h' && lower_char('I') == 'i' && lower_char('J') == 'j'
            && lower_char('K') == 'k' && lower_char('L') == 'l' && lower_char('M') == 'm'
            && lower_char('N') == 'n' && lower_char('O') == 'o' && lower_char('P') == 'p'
            && lower_char('Q') == 'q' && lower_char('R') == 'r' && lower_char('S') == 's'
            && lower_char('T') == 't' && lower_char('U') == 'u' && lower_char('V') == 'v'
            && lower_char('W') == 'w' && lower_char('X') == 'x' && lower_char('Y') == 'y'
            && lower_char('Z') == 'z',
{
    broadcast use vstd::utf8::char_u32_cast;

}

/// Reveals the single-letter string literals used by `append_cased`.
proof fn lemma_case_literals()
    ensures
        "A"@ == seq!['A'] && "B"@ == seq!['B'] && "C"@ == seq!['C'] && "D"@ == seq!['D'] && "E"@
            == seq!['E'] && "F"@ == seq!['F'] && "G"@ == seq!['G'] && "H"@ == seq!['H'] && "I"@
            == seq!['I'] && "J"@ == seq!['J'] && "K"@ == seq!['K'] && "L"@ == seq!['L'] && "M"@
            == seq!['M'] && "N"@ == seq!['N'] && "O"@ == seq!['O'] && "P"@ == seq!['P'] && "Q"@
            == seq!['Q'] && "R"@ == seq!['R'] && "S"@ == seq!['S'] && "T"@ == seq!['T'] && "U"@
            == seq!['U'] && "V"@ == seq!['V'] && "W"@ == seq!['W'] && "X"@ == seq!['X'] && "Y"@
            == seq!['Y'] && "Z"@ == seq!['Z'],
        "a"@ == seq!['a'] && "b"@ == seq!['b'] && "c"@ == seq!['c'] && "d"@ == seq!['d'] && "e"@
            == seq!['e'] && "f"@ == seq!['f'] && "g"@ == seq!['g'] && "h"@ == seq!['h'] && "i"@
            == seq!['i'] && "j"@ == seq!['j'] && "k"@ == seq!['k'] && "l"@ == seq!['l'] && "m"@
            == seq!['m'] && "n"@ == seq!['n'] && "o"@ == seq!['o'] && "p"@ == seq!['p'] && "q"@
            == seq!['q'] && "r"@ == seq!['r'] && "s"@ == seq!['s'] && "t"@ == seq!['t'] && "u"@
            == seq!['u'] && "v"@ == seq!['v'] && "w"@ == seq!['w'] && "x"@ == seq!['x'] && "y"@
            == seq!['y'] && "z"@ == seq!['z'],
{
    reveal_strlit("A");
    reveal_strlit("B");
    reveal_strlit("C");
    reveal_strlit("D");
    reveal_strlit("E");
    reveal_strlit("F");
    reveal_strlit("G");
    reveal_strlit("H");
    reveal_strlit("I");
    reveal_strlit("J");
    reveal_strlit("K");
    reveal_strlit("L");
    reveal_strlit("M");
    reveal_strlit("N");
    reveal_strlit("O");
    reveal_strlit("P");
    reveal_strlit("Q");
    reveal_strlit("R");
    reveal_strlit("S");
    reveal_strlit("T");
    reveal_strlit("U");
    reveal_strlit("V");
    reveal_strlit("W");
    reveal_strlit("X");
    reveal_strlit("Y");
    reveal_strlit("Z");
    reveal_strlit("a");
    reveal_strlit("b");
    reveal_strlit("c");
    reveal_strlit("d");
    reveal_strlit("e");
    reveal_strlit("f");
    reveal_strlit("g");
    reveal_strlit("h");
    reveal_strlit("i");
    reveal_strlit("j");
    reveal_strlit("k");
    reveal_strlit("l");
    reveal_strlit("m");
    reveal_strlit("n");
    reveal_strlit("o");
    reveal_strlit("p");
    reveal_strlit("q");
    reveal_strlit("r");
    reveal_strlit("s");
    reveal_strlit("t");
    reveal_strlit("u");
    reveal_strlit("v");
    reveal_strlit("w");
    reveal_strlit("x");
    reveal_strlit("y");
    reveal_strlit("z");
    assert(seq!['A'].len() == 1);
}

} // verus!
