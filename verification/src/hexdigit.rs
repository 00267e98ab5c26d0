//! Hexadecimal digit characters: recognition, numeric value, and rendering.
use vstd::prelude::*;

verus! {

/// A hexadecimal digit character: `0-9`, `a-f`, or `A-F`.
pub open spec fn is_hex_digit(c: char) -> bool {
    ('0' <= c && c <= '9') || ('a' <= c && c <= 'f') || ('A' <= c && c <= 'F')
}

/// Numeric value of a hexadecimal digit character; zero on anything else.
pub open spec fn hex_digit_value(c: char) -> nat {
    if '0' <= c && c <= '9' {
        (c as int - '0' as int) as nat
    } else if 'a' <= c && c <= 'f' {
        (c as int - 'a' as int + 10) as nat
    } else if 'A' <= c && c <= 'F' {
        (c as int - 'A' as int + 10) as nat
    } else {
        0
    }
}

/// The uppercase hexadecimal digit character for a value below 16.
pub open spec fn hex_digit_char(v: nat) -> char {
    if v == 0 {
        '0'
    } else if v == 1 {
        '1'
    } else if v == 2 {
        '2'
    } else if v == 3 {
        '3'
    } else if v == 4 {
        '4'
    } else if v == 5 {
        '5'
    } else if v == 6 {
        '6'
    } else if v == 7 {
        '7'
    } else if v == 8 {
        '8'
    } else if v == 9 {
        '9'
    } else if v == 10 {
        'A'
    } else if v == 11 {
        'B'
    } else if v == 12 {
        'C'
    } else if v == 13 {
        'D'
    } else if v == 14 {
        'E'
    } else {
        'F'
    }
}

/// Rendering a value below 16 yields a digit character that reads back as
/// that value.
pub proof fn lemma_hex_digit_char_round_trip(v: nat)
    requires
        v < 16,
    ensures
        is_hex_digit(hex_digit_char(v)),
        hex_digit_value(hex_digit_char(v)) == v,
{
}

/// The value of any character under `hex_digit_value` stays below 16.
pub proof fn lemma_hex_digit_value_bound(c: char)
    ensures
        hex_digit_value(c) < 16,
{
}

/// Whether `c` is a hexadecimal digit character.
pub fn hex_digit_check(c: char) -> (r: bool)
    ensures
        r == is_hex_digit(c),
{
    ('0' <= c && c <= '9') || ('a' <= c && c <= 'f') || ('A' <= c && c <= 'F')
}

/// Numeric value of a hexadecimal digit character.
pub fn hex_digit_val(c: char) -> (v: u8)
    requires
        is_hex_digit(c),
    ensures
        v as nat == hex_digit_value(c),
        v < 16,
{
    let u: u32 = c as u32;
    if c >= '0' && c <= '9' {
        (u - '0' as u32) as u8
    } else if c >= 'a' && c <= 'f' {
        (u - 'a' as u32 + 10) as u8
    } else {
        (u - 'A' as u32 + 10) as u8
    }
}

/// The one-character string holding the uppercase digit for a value below 16.
pub fn hex_digit_str(v: u8) -> (r: &'static str)
    requires
        v < 16,
    ensures
        r@ =~= seq![hex_digit_char(v as nat)],
{
    proof {
        reveal_strlit("0");
        reveal_strlit("1");
        reveal_strlit("2");
        reveal_strlit("3");
        reveal_strlit("4");
        reveal_strlit("5");
        reveal_strlit("6");
        reveal_strlit("7");
        reveal_strlit("8");
        reveal_strlit("9");
        reveal_strlit("A");
        reveal_strlit("B");
        reveal_strlit("C");
        reveal_strlit("D");
        reveal_strlit("E");
        reveal_strlit("F");
    }
    if v == 0 {
        "0"
    } else if v == 1 {
        "1"
    } else if v == 2 {
        "2"
    } else if v == 3 {
        "3"
    } else if v == 4 {
        "4"
    } else if v == 5 {
        "5"
    } else if v == 6 {
        "6"
    } else if v == 7 {
        "7"
    } else if v == 8 {
        "8"
    } else if v == 9 {
        "9"
    } else if v == 10 {
        "A"
    } else if v == 11 {
        "B"
    } else if v == 12 {
        "C"
    } else if v == 13 {
        "D"
    } else if v == 14 {
        "E"
    } else {
        "F"
    }
}

} // verus!
