//! The Morse alphabet: letters `A`-`Z` and digits `0`-`9`.
use vstd::prelude::*;

verus! {

/// One element of a Morse letter.
#[derive(Clone, Copy, Debug, PartialEq, Eq, Structural)]
pub enum Symbol {
    Dot,
    Dash,
}

/// The Morse code of `c`, compared case-insensitively; `None` for any character
/// that is neither an ASCII letter nor an ASCII digit.
pub open spec fn morse_code(c: char) -> Option<Seq<Symbol>> {
    let o = Symbol::Dot;
    let a = Symbol::Dash;
    match c {
        'A' | 'a' => Some(seq![o, a]),
        'B' | 'b' => Some(seq![a, o, o, o]),
        'C' | 'c' => Some(seq![a, o, a, o]),
        'D' | 'd' => Some(seq![a, o, o]),
        'E' | 'e' => Some(seq![o]),
        'F' | 'f' => Some(seq![o, o, a, o]),
        'G' | 'g' => Some(seq![a, a, o]),
        'H' | 'h' => Some(seq![o, o, o, o]),
        'I' | 'i' => Some(seq![o, o]),
        'J' | 'j' => Some(seq![o, a, a, a]),
        'K' | 'k' => Some(seq![a, o, a]),
        'L' | 'l' => Some(seq![o, a, o, o]),
        'M' | 'm' => Some(seq![a, a]),
        'N' | 'n' => Some(seq![a, o]),
        'O' | 'o' => Some(seq![a, a, a]),
        'P' | 'p' => Some(seq![o, a, a, o]),
        'Q' | 'q' => Some(seq![a, a, o, a]),
        'R' | 'r' => Some(seq![o, a, o]),
        'S' | 's' => Some(seq![o, o, o]),
        'T' | 't' => Some(seq![a]),
        'U' | 'u' => Some(seq![o, o, a]),
        'V' | 'v' => Some(seq![o, o, o, a]),
        'W' | 'w' => Some(seq![o, a, a]),
        'X' | 'x' => Some(seq![a, o, o, a]),
        'Y' | 'y' => Some(seq![a, o, a, a]),
        'Z' | 'z' => Some(seq![a, a, o, o]),
        '0' => Some(seq![a, a, a, a, a]),
        '1' => Some(seq![o, a, a, a, a]),
        '2' => Some(seq![o, o, a, a, a]),
        '3' => Some(seq![o, o, o, a, a]),
        '4' => Some(seq![o, o, o, o, a]),
        '5' => Some(seq![o, o, o, o, o]),
        '6' => Some(seq![a, o, o, o, o]),
        '7' => Some(seq![a, a, o, o, o]),
        '8' => Some(seq![a, a, a, o, o]),
        '9' => Some(seq![a, a, a, a, o]),
        _ => None,
    }
}

/// The characters that have a Morse code: ASCII letters of either case and ASCII digits.
pub open spec fn is_encodable(c: char) -> bool {
    ('A' <= c && c <= 'Z') || ('a' <= c && c <= 'z') || ('0' <= c && c <= '9')
}

/// The upper-case form of an ASCII lower-case letter; any other character unchanged.
pub open spec fn ascii_upper(c: char) -> char {
    if 'a' <= c && c <= 'z' {
        ((c as u32) - 32) as char
    } else {
        c
    }
}

/// Looks up the Morse code of `c`, ignoring ASCII case.
pub fn morse_encode(c: char) -> (r: Option<Vec<Symbol>>)
    ensures
        r is Some <==> is_encodable(c),
        match r {
            Some(v) => morse_code(c) == Some(v@),
            None => morse_code(c) is None,
        },
{
    let o = Symbol::Dot;
    let a = Symbol::Dash;
    match c {
        'A' | 'a' => Some(vec![o, a]),
        'B' | 'b' => Some(vec![a, o, o, o]),
        'C' | 'c' => Some(vec![a, o, a, o]),
        'D' | 'd' => Some(vec![a, o, o]),
        'E' | 'e' => Some(vec![o]),
        'F' | 'f' => Some(vec![o, o, a, o]),
        'G' | 'g' => Some(vec![a, a, o]),
        'H' | 'h' => Some(vec![o, o, o, o]),
        'I' | 'i' => Some(vec![o, o]),
        'J' | 'j' => Some(vec![o, a, a, a]),
        'K' | 'k' => Some(vec![a, o, a]),
        'L' | 'l' => Some(vec![o, a, o, o]),
        'M' | 'm' => Some(vec![a, a]),
        'N' | 'n' => Some(vec![a, o]),
        'O' | 'o' => Some(vec![a, a, a]),
        'P' | 'p' => Some(vec![o, a, a, o]),
        'Q' | 'q' => Some(vec![a, a, o, a]),
        'R' | 'r' => Some(vec![o, a, o]),
        'S' | 's' => Some(vec![o, o, o]),
        'T' | 't' => Some(vec![a]),
        'U' | 'u' => Some(vec![o, o, a]),
        'V' | 'v' => Some(vec![o, o, o, a]),
        'W' | 'w' => Some(vec![o, a, a]),
        'X' | 'x' => Some(vec![a, o, o, a]),
        'Y' | 'y' => Some(vec![a, o, a, a]),
        'Z' | 'z' => Some(vec![a, a, o, o]),
        '0' => Some(vec![a, a, a, a, a]),
        '1' => Some(vec![o, a, a, a, a]),
        '2' => Some(vec![o, o, a, a, a]),
        '3' => Some(vec![o, o, o, a, a]),
        '4' => Some(vec![o, o, o, o, a]),
        '5' => Some(vec![o, o, o, o, o]),
        '6' => Some(vec![a, o, o, o, o]),
        '7' => Some(vec![a, a, o, o, o]),
        '8' => Some(vec![a, a, a, o, o]),
        '9' => Some(vec![a, a, a, a, o]),
        _ => None,
    }
}

/// Every letter's code has one to five symbols, exactly the ASCII letters and digits
/// have a code, and a letter's code does not depend on its case.
pub proof fn lemma_morse_alphabet(c: char)
    ensures
        morse_code(c) is Some <==> is_encodable(c),
        morse_code(c) == morse_code(ascii_upper(c)),
        morse_code(c) matches Some(code) ==> 1 <= code.len() <= 5,
{
}

} // verus!
