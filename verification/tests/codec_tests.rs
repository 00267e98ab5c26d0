use hexinspect::codec::hex_to_f32_bits;
use hexinspect::codec::is_valid_f32;
use hexinspect::codec::ParseError;

#[test]
fn converts_one() {
    let bits = hex_to_f32_bits("3F800000").unwrap();
    assert_eq!(bits, 0x3F80_0000);
    assert_eq!(f32::from_bits(bits), 1.0);
}

#[test]
fn converts_signed_zeros() {
    let pos = f32::from_bits(hex_to_f32_bits("00000000").unwrap());
    let neg = f32::from_bits(hex_to_f32_bits("80000000").unwrap());
    assert_eq!(pos, 0.0);
    assert_eq!(neg, 0.0);
    assert!(!pos.is_sign_negative());
    assert!(neg.is_sign_negative());
}

#[test]
fn converts_nan() {
    let val = f32::from_bits(hex_to_f32_bits("7FC00000").unwrap());
    assert!(val.is_nan());
}

#[test]
fn converts_infinities_and_subnormals() {
    assert_eq!(f32::from_bits(hex_to_f32_bits("7F800000").unwrap()), f32::INFINITY);
    assert_eq!(f32::from_bits(hex_to_f32_bits("FF800000").unwrap()), f32::NEG_INFINITY);
    let tiny = f32::from_bits(hex_to_f32_bits("00000001").unwrap());
    assert!(tiny > 0.0);
    assert!(!tiny.is_normal());
}

#[test]
fn conversion_is_bit_exact_not_numeric() {
    // A numeric cast of the integer 0x3F800000 would give a huge float,
    // not 1.0; reinterpretation must preserve the bit pattern exactly.
    let bits = hex_to_f32_bits("3F800000").unwrap();
    assert_eq!(f32::from_bits(bits).to_bits(), 0x3F80_0000);
}

#[test]
fn converts_case_insensitively() {
    assert_eq!(hex_to_f32_bits("3f800000"), Ok(0x3F80_0000));
    assert_eq!(hex_to_f32_bits("aBcDeF"), Ok(0x00AB_CDEF));
}

#[test]
fn converts_short_strings() {
    assert_eq!(hex_to_f32_bits("0"), Ok(0));
    assert_eq!(hex_to_f32_bits("A"), Ok(10));
    assert_eq!(hex_to_f32_bits("FF"), Ok(255));
}

#[test]
fn converts_maximum_value() {
    assert_eq!(hex_to_f32_bits("FFFFFFFF"), Ok(u32::MAX));
}

#[test]
fn rejects_empty_string() {
    assert_eq!(hex_to_f32_bits(""), Err(ParseError));
}

#[test]
fn rejects_non_hex_characters() {
    assert_eq!(hex_to_f32_bits("ZZZZ"), Err(ParseError));
    assert_eq!(hex_to_f32_bits("12G4"), Err(ParseError));
    assert_eq!(hex_to_f32_bits("0x1F"), Err(ParseError));
    assert_eq!(hex_to_f32_bits(" 1F"), Err(ParseError));
    assert_eq!(hex_to_f32_bits("1F "), Err(ParseError));
    assert_eq!(hex_to_f32_bits("+1F"), Err(ParseError));
}

#[test]
fn rejects_values_exceeding_32_bits() {
    assert_eq!(hex_to_f32_bits("100000000"), Err(ParseError));
    assert_eq!(hex_to_f32_bits("FFFFFFFF1"), Err(ParseError));
    assert_eq!(hex_to_f32_bits("123456789A"), Err(ParseError));
}

#[test]
fn accepts_leading_zeros_past_eight_digits() {
    // Nine or more digits fail validation, but the converter only rejects
    // values that exceed 32 bits.
    assert_eq!(hex_to_f32_bits("000000001"), Ok(1));
    assert!(!is_valid_f32("000000001"));
    assert_eq!(hex_to_f32_bits("0FFFFFFFF"), Ok(u32::MAX));
}

#[test]
fn validates_digit_strings() {
    assert!(is_valid_f32("3F800000"));
    assert!(is_valid_f32("F"));
    assert!(is_valid_f32("abcdef"));
    assert!(is_valid_f32("ABCDEF12"));
    assert!(is_valid_f32("00000000"));
}

#[test]
fn invalidates_bad_strings() {
    assert!(!is_valid_f32(""));
    assert!(!is_valid_f32("ZZZZ"));
    assert!(!is_valid_f32("12G4"));
    assert!(!is_valid_f32("123456789"));
    assert!(!is_valid_f32("0x1F"));
    assert!(!is_valid_f32(" 1F"));
}

#[test]
fn validated_inputs_always_convert() {
    let inputs = ["0", "F", "3F800000", "80000000", "7FC00000", "FFFFFFFF", "abcdef12", "00000001"];
    for hex in inputs {
        assert!(is_valid_f32(hex));
        assert!(hex_to_f32_bits(hex).is_ok());
    }
}
