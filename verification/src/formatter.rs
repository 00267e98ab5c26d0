//! Byte-to-hex formatting: every byte of a file's contents becomes one
//! two-character uppercase hexadecimal token, in file order.
use vstd::prelude::*;

use crate::codec::hex_seq_value;
use crate::codec::valid_hex_float;
use crate::hexdigit::hex_digit_char;
use crate::hexdigit::hex_digit_str;
use crate::hexdigit::lemma_hex_digit_char_round_trip;

verus! {

/// The two-character uppercase hexadecimal token for one byte:
/// high nibble first, zero-padded to width 2.
pub open spec fn hex_token(b: u8) -> Seq<char> {
    seq![hex_digit_char((b / 16) as nat), hex_digit_char((b % 16) as nat)]
}

/// How reading a file for formatting fails: the path does not exist, is not
/// readable or is a directory (`FileAccessError`), or the read stops short
/// (`ReadError`). The host performs the read and reports these; formatting
/// bytes already in memory cannot fail.
#[derive(Clone, Copy, Debug, PartialEq, Eq, Structural)]
pub enum FormatError {
    FileAccessError,
    ReadError,
}

/// A byte's token is a valid one-to-eight-digit hexadecimal string and
/// decodes back to exactly that byte.
pub proof fn lemma_hex_token_round_trip(b: u8)
    ensures
        valid_hex_float(hex_token(b)),
        hex_seq_value(hex_token(b)) == b,
{
    lemma_hex_digit_char_round_trip((b / 16) as nat);
    lemma_hex_digit_char_round_trip((b % 16) as nat);
    let t = hex_token(b);
    assert(t.drop_last() =~= seq![hex_digit_char((b / 16) as nat)]);
    assert(t.drop_last().drop_last() =~= Seq::<char>::empty());
    assert(hex_seq_value(t.drop_last().drop_last()) == 0);
    assert(t.drop_last().last() == hex_digit_char((b / 16) as nat));
    assert(hex_seq_value(t.drop_last()) == b / 16);
    assert(t.last() == hex_digit_char((b % 16) as nat));
    assert(hex_seq_value(t) == (b / 16) * 16 + b % 16);
    assert((b / 16) * 16 + b % 16 == b);
}

/// Formatting round trip: rendering a byte sequence as hexadecimal tokens
/// loses nothing — every token of the rendered sequence decodes back to
/// the byte it stands for, at the same position.
pub proof fn lemma_format_round_trip(bytes: Seq<u8>)
    ensures
        forall|i: int|
            0 <= i < bytes.len() ==> valid_hex_float(#[trigger] hex_token(bytes[i]))
                && hex_seq_value(hex_token(bytes[i])) == bytes[i],
{
    assert forall|i: int| 0 <= i < bytes.len() implies valid_hex_float(
        #[trigger] hex_token(bytes[i]),
    ) && hex_seq_value(hex_token(bytes[i])) == bytes[i] by {
        lemma_hex_token_round_trip(bytes[i]);
    }
}

/// One byte as its two-digit uppercase hexadecimal token.
pub fn byte_to_hex(b: u8) -> (r: String)
    ensures
        r@ =~= hex_token(b),
{
    let mut s = String::new();
    s.append(hex_digit_str(b / 16));
    s.append(hex_digit_str(b % 16));
    s
}

/// All bytes rendered as two-digit uppercase hexadecimal tokens, one per
/// byte, preserving order; the result's length equals the byte count.
pub fn format_bytes(bytes: &[u8]) -> (r: Vec<String>)
    ensures
        r@.len() == bytes@.len(),
        forall|i: int| 0 <= i < bytes@.len() ==> r@[i]@ =~= hex_token(bytes@[i]),
{
    let mut r: Vec<String> = Vec::new();
    let mut i: usize = 0;
    while i < bytes.len()
        invariant
            i <= bytes@.len(),
            r@.len() == i,
            forall|j: int| 0 <= j < i ==> r@[j]@ =~= hex_token(bytes@[j]),
        decreases bytes@.len() - i,
    {
        let token = byte_to_hex(bytes[i]);
        r.push(token);
        i = i + 1;
    }
    r
}

} // verus!
