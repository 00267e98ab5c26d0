//! Hex-to-float codec: a validator that accepts one to eight hexadecimal
//! digits, and a converter that parses such a string as an unsigned 32-bit
//! integer whose bit pattern the host reinterprets as an IEEE-754 binary32
//! value.
use vstd::prelude::*;

use crate::formatter::hex_token;
use crate::formatter::lemma_hex_token_round_trip;
use crate::hexdigit::hex_digit_check;
use crate::hexdigit::hex_digit_val;
use crate::hexdigit::hex_digit_value;
use crate::hexdigit::is_hex_digit;

verus! {

/// Every character of `s` is a hexadecimal digit.
pub open spec fn all_hex_digits(s: Seq<char>) -> bool {
    forall|i: int| 0 <= i < s.len() ==> is_hex_digit(s[i])
}

/// Value of a string of hexadecimal digit characters, most significant
/// digit first.
pub open spec fn hex_seq_value(s: Seq<char>) -> nat
    decreases s.len(),
{
    if s.len() == 0 {
        0
    } else {
        hex_seq_value(s.drop_last()) * 16 + hex_digit_value(s.last())
    }
}

/// An acceptable converter input: one to eight hexadecimal digit
/// characters. Eight digits at most keeps the encoded value within
/// 32 unsigned bits.
pub open spec fn valid_hex_float(s: Seq<char>) -> bool {
    1 <= s.len() <= 8 && all_hex_digits(s)
}

/// The inputs on which conversion succeeds: non-empty, hexadecimal digits
/// only, and an encoded value that fits in 32 unsigned bits.
pub open spec fn parses_to_u32(s: Seq<char>) -> bool {
    s.len() >= 1 && all_hex_digits(s) && hex_seq_value(s) <= u32::MAX
}

/// How conversion fails: the string is empty, holds a character that is no
/// hexadecimal digit, or encodes a value exceeding 32 bits.
#[derive(Clone, Copy, Debug, PartialEq, Eq, Structural)]
pub struct ParseError;

/// Whether `hex` is an acceptable converter input: one to eight
/// hexadecimal digit characters, case-insensitive.
pub fn is_valid_f32(hex: &str) -> (r: bool)
    ensures
        r == valid_hex_float(hex@),
{
    let n: usize = hex.unicode_len();
    if n < 1 || n > 8 {
        return false;
    }
    let mut i: usize = 0;
    while i < n
        invariant
            n == hex@.len(),
            1 <= n <= 8,
            i <= n,
            forall|j: int| 0 <= j < i ==> is_hex_digit(hex@[j]),
        decreases n - i,
    {
        let c = hex.get_char(i);
        if !hex_digit_check(c) {
            return false;
        }
        i = i + 1;
    }
    true
}

/// Sixteen raised to the given power: the weight of one more hexadecimal
/// digit position.
pub open spec fn pow16(n: nat) -> nat
    decreases n,
{
    if n == 0 {
        1
    } else {
        16 * pow16((n - 1) as nat)
    }
}

/// Each digit position is worth at least one.
pub proof fn lemma_pow16_pos(n: nat)
    ensures
        pow16(n) >= 1,
    decreases n,
{
    if n > 0 {
        lemma_pow16_pos((n - 1) as nat);
    }
}

/// Digit-position weights grow with the position count.
pub proof fn lemma_pow16_mono(a: nat, b: nat)
    requires
        a <= b,
    ensures
        pow16(a) <= pow16(b),
    decreases b,
{
    if a < b {
        lemma_pow16_mono(a, (b - 1) as nat);
    }
}

/// A string of hexadecimal digits encodes a value below sixteen to the
/// power of its length.
pub proof fn lemma_hex_value_bound(s: Seq<char>)
    ensures
        hex_seq_value(s) < pow16(s.len()),
    decreases s.len(),
{
    if s.len() > 0 {
        let d = s.drop_last();
        lemma_hex_value_bound(d);
        crate::hexdigit::lemma_hex_digit_value_bound(s.last());
        assert(pow16(s.len()) == 16 * pow16((s.len() - 1) as nat));
    }
}

/// Extending a digit string on the right can only scale its value up:
/// the whole string is worth at least its prefix times the weight of the
/// positions that follow.
pub proof fn lemma_hex_value_prefix(s: Seq<char>, k: int)
    requires
        0 <= k <= s.len(),
    ensures
        hex_seq_value(s) >= hex_seq_value(s.subrange(0, k)) * pow16((s.len() - k) as nat),
    decreases s.len() - k,
{
    if k == s.len() {
        assert(s.subrange(0, k) =~= s);
        assert(pow16((s.len() - k) as nat) == 1);
        assert(hex_seq_value(s) >= hex_seq_value(s.subrange(0, k)) * pow16((s.len() - k) as nat));
    } else {
        let d = s.drop_last();
        lemma_hex_value_prefix(d, k);
        assert(d.subrange(0, k) =~= s.subrange(0, k));
        let vp = hex_seq_value(s.subrange(0, k));
        let p: nat = pow16((s.len() - 1 - k) as nat);
        assert(d.len() == s.len() - 1);
        assert(hex_seq_value(d) >= vp * p);
        assert(hex_seq_value(s) == hex_seq_value(d) * 16 + hex_digit_value(s.last()));
        assert(hex_seq_value(d) * 16 >= (vp * p) * 16);
        assert((vp * p) * 16 == vp * (16 * p)) by (nonlinear_arith);
        assert(pow16((s.len() - k) as nat) == 16 * p);
        assert(hex_seq_value(s) >= vp * (16 * p));
        assert(vp * (16 * p) == vp * pow16((s.len() - k) as nat));
        assert(hex_seq_value(s) >= hex_seq_value(s.subrange(0, k)) * pow16((s.len() - k) as nat));
    }
}

/// Every validator-accepted string is an input on which conversion
/// succeeds: one to eight hexadecimal digits always encode a value that
/// fits in 32 unsigned bits.
pub proof fn lemma_valid_hex_parses(s: Seq<char>)
    requires
        valid_hex_float(s),
    ensures
        parses_to_u32(s),
{
    lemma_hex_value_bound(s);
    lemma_pow16_mono(s.len(), 8);
    assert(pow16(8) == 0x1_0000_0000) by {
        reveal_with_fuel(pow16, 9);
    }
}

/// The eight-digit uppercase hexadecimal rendering of a 32-bit value,
/// most significant byte first.
pub open spec fn hex32_token(n: u32) -> Seq<char> {
    hex_token((n >> 24) as u8) + hex_token((n >> 16) as u8) + hex_token((n >> 8) as u8)
        + hex_token(n as u8)
}

/// Concatenating digit strings: the left part is shifted up by one digit
/// position per character of the right part.
pub proof fn lemma_hex_value_concat(s: Seq<char>, t: Seq<char>)
    ensures
        hex_seq_value(s + t) == hex_seq_value(s) * pow16(t.len()) + hex_seq_value(t),
    decreases t.len(),
{
    if t.len() == 0 {
        assert(s + t =~= s);
        assert(pow16(t.len()) == 1);
    } else {
        lemma_hex_value_concat(s, t.drop_last());
        assert((s + t).drop_last() =~= s + t.drop_last());
        assert((s + t).last() == t.last());
        let vs = hex_seq_value(s);
        let vd = hex_seq_value(t.drop_last());
        let p: nat = pow16((t.len() - 1) as nat);
        assert(hex_seq_value(s + t) == (vs * p + vd) * 16 + hex_digit_value(t.last()));
        assert((vs * p + vd) * 16 == vs * (16 * p) + vd * 16) by (nonlinear_arith);
        assert(pow16(t.len()) == 16 * p);
        assert(hex_seq_value(t) == vd * 16 + hex_digit_value(t.last()));
    }
}

/// Bit-exact round trip through the rendering: the eight-digit hexadecimal
/// form of any 32-bit value is accepted by the validator and decodes back
/// to exactly that value's bit pattern — no digit and no bit is lost.
pub proof fn lemma_hex32_round_trip(n: u32)
    ensures
        valid_hex_float(hex32_token(n)),
        hex_seq_value(hex32_token(n)) == n,
{
    let b0: u8 = (n >> 24) as u8;
    let b1: u8 = (n >> 16) as u8;
    let b2: u8 = (n >> 8) as u8;
    let b3: u8 = n as u8;
    lemma_hex_token_round_trip(b0);
    lemma_hex_token_round_trip(b1);
    lemma_hex_token_round_trip(b2);
    lemma_hex_token_round_trip(b3);
    let t01 = hex_token(b0) + hex_token(b1);
    let t012 = t01 + hex_token(b2);
    let t = t012 + hex_token(b3);
    lemma_hex_value_concat(hex_token(b0), hex_token(b1));
    lemma_hex_value_concat(t01, hex_token(b2));
    lemma_hex_value_concat(t012, hex_token(b3));
    assert(pow16(2) == 256) by {
        reveal_with_fuel(pow16, 3);
    }
    assert(hex_seq_value(t) == ((b0 * 256 + b1) * 256 + b2) * 256 + b3);
    assert(n == b0 as u32 * 0x100_0000 + b1 as u32 * 0x1_0000 + b2 as u32 * 0x100
        + b3 as u32) by (bit_vector)
        requires
            b0 == (n >> 24) as u8,
            b1 == (n >> 16) as u8,
            b2 == (n >> 8) as u8,
            b3 == n as u8,
    ;
    assert(((b0 * 256 + b1) * 256 + b2) * 256 + b3 == b0 as u32 * 0x100_0000 + b1 as u32
        * 0x1_0000 + b2 as u32 * 0x100 + b3 as u32);
    assert(hex_seq_value(t) == n);
    assert(hex32_token(n) == t);
    assert(t.len() == 8);
    assert forall|i: int| 0 <= i < t.len() implies is_hex_digit(t[i]) by {
        if i < 2 {
            assert(t[i] == hex_token(b0)[i]);
        } else if i < 4 {
            assert(t[i] == hex_token(b1)[i - 2]);
        } else if i < 6 {
            assert(t[i] == hex_token(b2)[i - 4]);
        } else {
            assert(t[i] == hex_token(b3)[i - 6]);
        }
    }
}

/// Parses `hex` as a base-16 unsigned 32-bit integer, most significant
/// digit first: the exact bit pattern of the IEEE-754 binary32 value it
/// denotes, ready for a bit-for-bit reinterpretation by the caller.
/// Digits only: no sign, no `0x` prefix, no surrounding whitespace.
pub fn hex_to_f32_bits(hex: &str) -> (r: Result<u32, ParseError>)
    ensures
        match r {
            Ok(bits) => parses_to_u32(hex@) && bits as nat == hex_seq_value(hex@),
            Err(_) => !parses_to_u32(hex@),
        },
{
    let n: usize = hex.unicode_len();
    if n == 0 {
        return Err(ParseError);
    }
    let mut acc: u32 = 0;
    let mut i: usize = 0;
    while i < n
        invariant
            n == hex@.len(),
            1 <= n,
            i <= n,
            forall|j: int| 0 <= j < i ==> is_hex_digit(hex@[j]),
            acc as nat == hex_seq_value(hex@.subrange(0, i as int)),
        decreases n - i,
    {
        let c = hex.get_char(i);
        if !hex_digit_check(c) {
            return Err(ParseError);
        }
        let d: u8 = hex_digit_val(c);
        if acc > 0x0FFF_FFFF {
            proof {
                lemma_hex_value_prefix(hex@, i as int);
                let vp = hex_seq_value(hex@.subrange(0, i as int));
                let p: nat = pow16((hex@.len() - i) as nat);
                lemma_pow16_pos((hex@.len() - i - 1) as nat);
                assert(p == 16 * pow16((hex@.len() - i - 1) as nat));
                assert(hex_seq_value(hex@) > u32::MAX) by (nonlinear_arith)
                    requires
                        hex_seq_value(hex@) >= vp * p,
                        vp > 0x0FFF_FFFF,
                        p >= 16,
                ;
            }
            return Err(ParseError);
        }
        proof {
            assert(hex@.subrange(0, i + 1).drop_last() =~= hex@.subrange(0, i as int));
            assert(hex@.subrange(0, i + 1).last() == hex@[i as int]);
        }
        acc = acc * 16 + d as u32;
        i = i + 1;
    }
    proof {
        assert(hex@.subrange(0, n as int) =~= hex@);
    }
    Ok(acc)
}

} // verus!
