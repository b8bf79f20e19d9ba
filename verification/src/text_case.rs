use vstd::prelude::*;
use vstd::string::*;

verus! {

/// ASCII lowercase of one character (other characters unchanged).
pub open spec fn ascii_lower(c: char) -> char {
    if c == 'A' {
        'a'
    } else if c == 'B' {
        'b'
    } else if c == 'C' {
        'c'
    } else if c == 'D' {
        'd'
    } else if c == 'E' {
        'e'
    } else if c == 'F' {
        'f'
    } else if c == 'G' {
        'g'
    } else if c == 'H' {
        'h'
    } else if c == 'I' {
        'i'
    } else if c == 'J' {
        'j'
    } else if c == 'K' {
        'k'
    } else if c == 'L' {
        'l'
    } else if c == 'M' {
        'm'
    } else if c == 'N' {
        'n'
    } else if c == 'O' {
        'o'
    } else if c == 'P' {
        'p'
    } else if c == 'Q' {
        'q'
    } else if c == 'R' {
        'r'
    } else if c == 'S' {
        's'
    } else if c == 'T' {
        't'
    } else if c == 'U' {
        'u'
    } else if c == 'V' {
        'v'
    } else if c == 'W' {
        'w'
    } else if c == 'X' {
        'x'
    } else if c == 'Y' {
        'y'
    } else if c == 'Z' {
        'z'
    } else {
        c
    }
}

/// ASCII lowercase of a string.
pub open spec fn ascii_lower_seq(s: Seq<char>) -> Seq<char> {
    s.map_values(|c: char| ascii_lower(c))
}

/// The lowercase letter for an uppercase ASCII letter.
fn lower_letter(c: char) -> (r: Option<&'static str>)
    ensures
        r matches Some(x) ==> x@ == seq![ascii_lower(c)],
        r is None ==> ascii_lower(c) == c,
{
    Some(if c == 'A' {
        proof { reveal_strlit("a"); }
        "a"
    } else if c == 'B' {
        proof { reveal_strlit("b"); }
        "b"
    } else if c == 'C' {
        proof { reveal_strlit("c"); }
        "c"
    } else if c == 'D' {
        proof { reveal_strlit("d"); }
        "d"
    } else if c == 'E' {
        proof { reveal_strlit("e"); }
        "e"
    } else if c == 'F' {
        proof { reveal_strlit("f"); }
        "f"
    } else if c == 'G' {
        proof { reveal_strlit("g"); }
        "g"
    } else if c == 'H' {
        proof { reveal_strlit("h"); }
        "h"
    } else if c == 'I' {
        proof { reveal_strlit("i"); }
        "i"
    } else if c == 'J' {
        proof { reveal_strlit("j"); }
        "j"
    } else if c == 'K' {
        proof { reveal_strlit("k"); }
        "k"
    } else if c == 'L' {
        proof { reveal_strlit("l"); }
        "l"
    } else if c == 'M' {
        proof { reveal_strlit("m"); }
        "m"
    } else if c == 'N' {
        proof { reveal_strlit("n"); }
        "n"
    } else if c == 'O' {
        proof { reveal_strlit("o"); }
        "o"
    } else if c == 'P' {
        proof { reveal_strlit("p"); }
        "p"
    } else if c == 'Q' {
        proof { reveal_strlit("q"); }
        "q"
    } else if c == 'R' {
        proof { reveal_strlit("r"); }
        "r"
    } else if c == 'S' {
        proof { reveal_strlit("s"); }
        "s"
    } else if c == 'T' {
        proof { reveal_strlit("t"); }
        "t"
    } else if c == 'U' {
        proof { reveal_strlit("u"); }
        "u"
    } else if c == 'V' {
        proof { reveal_strlit("v"); }
        "v"
    } else if c == 'W' {
        proof { reveal_strlit("w"); }
        "w"
    } else if c == 'X' {
        proof { reveal_strlit("x"); }
        "x"
    } else if c == 'Y' {
        proof { reveal_strlit("y"); }
        "y"
    } else if c == 'Z' {
        proof { reveal_strlit("z"); }
        "z"
    } else {
        return None;
    })
}

/// ASCII lowercase of a string slice.
pub fn to_ascii_lowercase(s: &str) -> (r: String)
    ensures
        r@ == ascii_lower_seq(s@),
{
    let n = s.unicode_len();
    let mut out = String::new();
    let mut i: usize = 0;
    while i < n
        invariant
            n == s@.len(),
            i <= n,
            out@ == ascii_lower_seq(s@.take(i as int)),
        decreases n - i,
    {
        match lower_letter(s.get_char(i)) {
            Some(x) => out.append(x),
            None => out.append(s.substring_char(i, i + 1)),
        }
        i = i + 1;
        assert(ascii_lower_seq(s@.take(i as int)) =~= ascii_lower_seq(s@.take(i - 1)).push(ascii_lower(s@[i - 1])));
    }
    assert(s@.take(n as int) =~= s@);
    out
}

} // verus!
