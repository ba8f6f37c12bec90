//! Key names as game scripts write them ("A", "space", "Escape", ...).
use vstd::prelude::*;
use crate::platform::input::{key_code, key_for_character, KeyCode};
use crate::text::text_eq;

verus! {

/// The key an upper-case key name stands for: a letter, or SPACE, ENTER,
/// ESCAPE and the four arrows; every other name is `Unknown`.
pub open spec fn key_for_upper_name(name: Seq<char>) -> KeyCode {
    if name == "A"@ {
        KeyCode::A
    } else if name == "B"@ {
        KeyCode::B
    } else if name == "C"@ {
        KeyCode::C
    } else if name == "D"@ {
        KeyCode::D
    } else if name == "E"@ {
        KeyCode::E
    } else if name == "F"@ {
        KeyCode::F
    } else if name == "G"@ {
        KeyCode::G
    } else if name == "H"@ {
        KeyCode::H
    } else if name == "I"@ {
        KeyCode::I
    } else if name == "J"@ {
        KeyCode::J
    } else if name == "K"@ {
        KeyCode::K
    } else if name == "L"@ {
        KeyCode::L
    } else if name == "M"@ {
        KeyCode::M
    } else if name == "N"@ {
        KeyCode::N
    } else if name == "O"@ {
        KeyCode::O
    } else if name == "P"@ {
        KeyCode::P
    } else if name == "Q"@ {
        KeyCode::Q
    } else if name == "R"@ {
        KeyCode::R
    } else if name == "S"@ {
        KeyCode::S
    } else if name == "T"@ {
        KeyCode::T
    } else if name == "U"@ {
        KeyCode::U
    } else if name == "V"@ {
        KeyCode::V
    } else if name == "W"@ {
        KeyCode::W
    } else if name == "X"@ {
        KeyCode::X
    } else if name == "Y"@ {
        KeyCode::Y
    } else if name == "Z"@ {
        KeyCode::Z
    } else if name == "SPACE"@ {
        KeyCode::Space
    } else if name == "ENTER"@ {
        KeyCode::Enter
    } else if name == "ESCAPE"@ {
        KeyCode::Escape
    } else if name == "LEFT"@ {
        KeyCode::Left
    } else if name == "RIGHT"@ {
        KeyCode::Right
    } else if name == "UP"@ {
        KeyCode::Up
    } else if name == "DOWN"@ {
        KeyCode::Down
    } else {
        KeyCode::Unknown
    }
}

/// A one-letter name stands for the key of that letter: its key code is
/// the letter's place in the alphabet, and it is the key that typing the
/// letter gives.
pub proof fn law_letter_names_name_their_letter(c: char)
    requires
        'A' <= c && c <= 'Z',
    ensures
        key_code(key_for_upper_name(seq![c])) == c as u32 - 65,
        key_for_upper_name(seq![c]) == key_for_character(seq![c]),
{
    reveal_strlit("A");
    reveal_strlit("B");
    reveal_strlit("C");
    reveal_strlit("D");
    reveal_strlit("E");
    reveal_strlit("F");
    reveal_strlit("G");
    reveal_strlit("H");
    reveal_strlit("I");
    reveal_strlit("J");
    reveal_strlit("K");
    reveal_strlit("L");
    reveal_strlit("M");
    reveal_strlit("N");
    reveal_strlit("O");
    reveal_strlit("P");
    reveal_strlit("Q");
    reveal_strlit("R");
    reveal_strlit("S");
    reveal_strlit("T");
    reveal_strlit("U");
    reveal_strlit("V");
    reveal_strlit("W");
    reveal_strlit("X");
    reveal_strlit("Y");
    reveal_strlit("Z");
    let n = seq![c];
    assert(n.len() == 1 && n[0] == c);
    if c == 'A' {
        assert(n =~= "A"@);
    } else if c == 'B' {
        assert(n =~= "B"@);
    } else if c == 'C' {
        assert(n =~= "C"@);
    } else if c == 'D' {
        assert(n =~= "D"@);
    } else if c == 'E' {
        assert(n =~= "E"@);
    } else if c == 'F' {
        assert(n =~= "F"@);
    } else if c == 'G' {
        assert(n =~= "G"@);
    } else if c == 'H' {
        assert(n =~= "H"@);
    } else if c == 'I' {
        assert(n =~= "I"@);
    } else if c == 'J' {
        assert(n =~= "J"@);
    } else if c == 'K' {
        assert(n =~= "K"@);
    } else if c == 'L' {
        assert(n =~= "L"@);
    } else if c == 'M' {
        assert(n =~= "M"@);
    } else if c == 'N' {
        assert(n =~= "N"@);
    } else if c == 'O' {
        assert(n =~= "O"@);
    } else if c == 'P' {
        assert(n =~= "P"@);
    } else if c == 'Q' {
        assert(n =~= "Q"@);
    } else if c == 'R' {
        assert(n =~= "R"@);
    } else if c == 'S' {
        assert(n =~= "S"@);
    } else if c == 'T' {
        assert(n =~= "T"@);
    } else if c == 'U' {
        assert(n =~= "U"@);
    } else if c == 'V' {
        assert(n =~= "V"@);
    } else if c == 'W' {
        assert(n =~= "W"@);
    } else if c == 'X' {
        assert(n =~= "X"@);
    } else if c == 'Y' {
        assert(n =~= "Y"@);
    } else if c == 'Z' {
        assert(n =~= "Z"@);
    }
}

/// The key an already upper-cased key name stands for.
pub fn key_from_upper_name(name: &str) -> (k: KeyCode)
    ensures
        k == key_for_upper_name(name@),
{
    if text_eq(name, "A") {
        KeyCode::A
    } else if text_eq(name, "B") {
        KeyCode::B
    } else if text_eq(name, "C") {
        KeyCode::C
    } else if text_eq(name, "D") {
        KeyCode::D
    } else if text_eq(name, "E") {
        KeyCode::E
    } else if text_eq(name, "F") {
        KeyCode::F
    } else if text_eq(name, "G") {
        KeyCode::G
    } else if text_eq(name, "H") {
        KeyCode::H
    } else if text_eq(name, "I") {
        KeyCode::I
    } else if text_eq(name, "J") {
        KeyCode::J
    } else if text_eq(name, "K") {
        KeyCode::K
    } else if text_eq(name, "L") {
        KeyCode::L
    } else if text_eq(name, "M") {
        KeyCode::M
    } else if text_eq(name, "N") {
        KeyCode::N
    } else if text_eq(name, "O") {
        KeyCode::O
    } else if text_eq(name, "P") {
        KeyCode::P
    } else if text_eq(name, "Q") {
        KeyCode::Q
    } else if text_eq(name, "R") {
        KeyCode::R
    } else if text_eq(name, "S") {
        KeyCode::S
    } else if text_eq(name, "T") {
        KeyCode::T
    } else if text_eq(name, "U") {
        KeyCode::U
    } else if text_eq(name, "V") {
        KeyCode::V
    } else if text_eq(name, "W") {
        KeyCode::W
    } else if text_eq(name, "X") {
        KeyCode::X
    } else if text_eq(name, "Y") {
        KeyCode::Y
    } else if text_eq(name, "Z") {
        KeyCode::Z
    } else if text_eq(name, "SPACE") {
        KeyCode::Space
    } else if text_eq(name, "ENTER") {
        KeyCode::Enter
    } else if text_eq(name, "ESCAPE") {
        KeyCode::Escape
    } else if text_eq(name, "LEFT") {
        KeyCode::Left
    } else if text_eq(name, "RIGHT") {
        KeyCode::Right
    } else if text_eq(name, "UP") {
        KeyCode::Up
    } else if text_eq(name, "DOWN") {
        KeyCode::Down
    } else {
        KeyCode::Unknown
    }
}

/// Unicode upper case of a text, as `str::to_uppercase` maps it.
pub uninterp spec fn upper_case(s: Seq<char>) -> Seq<char>;

/// `str::to_uppercase`: the Unicode upper-case mapping of `s`, a function of
/// `s` alone (its tables are those of the standard library).
#[verifier::external_body]
fn to_uppercase(s: &str) -> (r: String)
    ensures
        r@ == upper_case(s@),
{
    s.to_uppercase()
}

/// The key a script names: the name is compared in upper case.
pub fn parse_key_name(name: &str) -> (k: KeyCode)
    ensures
        k == key_for_upper_name(upper_case(name@)),
{
    let upper = to_uppercase(name);
    key_from_upper_name(upper.as_str())
}

} // verus!
