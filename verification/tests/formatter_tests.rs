use hexinspect::codec::hex_to_f32_bits;
use hexinspect::formatter::byte_to_hex;
use hexinspect::formatter::format_bytes;

#[test]
fn formats_bytes_in_order() {
    let bytes: Vec<u8> = vec![0x00, 0x0A, 0xFF];
    let tokens = format_bytes(&bytes);
    assert_eq!(tokens, vec!["00".to_string(), "0A".to_string(), "FF".to_string()]);
}

#[test]
fn formats_empty_input() {
    let bytes: Vec<u8> = vec![];
    let tokens = format_bytes(&bytes);
    assert!(tokens.is_empty());
}

#[test]
fn byte_to_hex_examples() {
    assert_eq!(byte_to_hex(0), "00");
    assert_eq!(byte_to_hex(10), "0A");
    assert_eq!(byte_to_hex(0x1F), "1F");
    assert_eq!(byte_to_hex(0xA0), "A0");
    assert_eq!(byte_to_hex(255), "FF");
}

#[test]
fn tokens_are_two_uppercase_hex_digits() {
    for b in 0..=255u8 {
        let token = byte_to_hex(b);
        assert_eq!(token.len(), 2);
        assert!(token.chars().all(|c| c.is_ascii_digit() || ('A'..='F').contains(&c)));
    }
}

#[test]
fn every_token_decodes_back_to_its_byte() {
    let bytes: Vec<u8> = (0..=255u8).collect();
    let tokens = format_bytes(&bytes);
    assert_eq!(tokens.len(), bytes.len());
    for (i, token) in tokens.iter().enumerate() {
        assert_eq!(hex_to_f32_bits(token), Ok(bytes[i] as u32));
    }
}
