//! Binary-file inspection core: renders bytes as two-digit uppercase
//! hexadecimal tokens, and reinterprets hexadecimal strings as the bit
//! pattern of an IEEE-754 binary32 value.
pub mod codec;
pub mod formatter;
pub mod hexdigit;
