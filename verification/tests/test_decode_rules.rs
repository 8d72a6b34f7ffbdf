use mda::decode::{base64_value, hexdigit_to_num, next_valid_base64_value, Base64Value, INVALID, PAD};
use mda::{base64_decode_into_buf, qp_decode_into_buf, DecodeError};

fn base64(input: &str) -> Result<Vec<u8>, DecodeError> {
    let mut out = Vec::new();
    base64_decode_into_buf(input.as_bytes(), &mut out).map(|_| out)
}

fn qp(input: &[u8]) -> Vec<u8> {
    let mut out = Vec::new();
    assert!(qp_decode_into_buf(input, &mut out).is_ok());
    out
}

#[test]
fn base64_alphabet_values() {
    assert_eq!(base64_value(b'A'), 0);
    assert_eq!(base64_value(b'Z'), 25);
    assert_eq!(base64_value(b'a'), 26);
    assert_eq!(base64_value(b'z'), 51);
    assert_eq!(base64_value(b'0'), 52);
    assert_eq!(base64_value(b'9'), 61);
    assert_eq!(base64_value(b'+'), 62);
    assert_eq!(base64_value(b'/'), 63);
    assert_eq!(base64_value(b'='), PAD);
    assert_eq!(base64_value(b'-'), INVALID);
    assert_eq!(base64_value(b'\n'), INVALID);
    assert_eq!(base64_value(0xfa), INVALID);
}

#[test]
fn next_symbol_skips_other_bytes() {
    let input = b" \r\nQ=";
    let mut pos = 0;
    assert_eq!(next_valid_base64_value(input, &mut pos), Base64Value::Value(16));
    assert_eq!(pos, 4);
    assert_eq!(next_valid_base64_value(input, &mut pos), Base64Value::Pad);
    assert_eq!(pos, 5);
    assert_eq!(next_valid_base64_value(input, &mut pos), Base64Value::End);
    assert_eq!(pos, 5);
}

#[test]
fn base64_decodes_canonical_encodings() {
    assert_eq!(base64(""), Ok(b"".to_vec()));
    assert_eq!(base64("Zg=="), Ok(b"f".to_vec()));
    assert_eq!(base64("Zm8="), Ok(b"fo".to_vec()));
    assert_eq!(base64("Zm9v"), Ok(b"foo".to_vec()));
    assert_eq!(base64("Zm9vYg=="), Ok(b"foob".to_vec()));
    assert_eq!(base64("Zm9vYmE="), Ok(b"fooba".to_vec()));
    assert_eq!(base64("Zm9vYmFy"), Ok(b"foobar".to_vec()));
    assert_eq!(base64("AP8Q/+8="), Ok(vec![0x00, 0xff, 0x10, 0xff, 0xef]));
}

#[test]
fn base64_quartet_formula() {
    // c0 = 63, c1 = 48, c2 = 3, c3 = 1
    assert_eq!(base64("/wDB"), Ok(vec![(63 << 2) | (48 >> 4), (0 << 4) | (3 >> 2), (3 << 6) | 1]));
}

#[test]
fn base64_pad_in_first_or_second_position() {
    assert_eq!(base64("=AAA"), Err(DecodeError::IllegalPadding));
    assert_eq!(base64("A==="), Err(DecodeError::IllegalPadding));
    assert_eq!(base64("Zm9v=Zm9"), Err(DecodeError::IllegalPadding));
}

#[test]
fn base64_input_ends_inside_quartet() {
    assert_eq!(base64("Z"), Err(DecodeError::TruncatedQuartet));
    assert_eq!(base64("Zm"), Err(DecodeError::TruncatedQuartet));
    assert_eq!(base64("Zm9"), Err(DecodeError::TruncatedQuartet));
    assert_eq!(base64("Zm9vZ"), Err(DecodeError::TruncatedQuartet));
}

#[test]
fn base64_wrong_number_of_pads() {
    assert_eq!(base64("Zg="), Err(DecodeError::PaddingCount));
    assert_eq!(base64("Zg==="), Err(DecodeError::PaddingCount));
    assert_eq!(base64("Zm8=="), Err(DecodeError::PaddingCount));
}

#[test]
fn base64_symbol_after_padding() {
    assert_eq!(base64("Zg==Zg=="), Err(DecodeError::SymbolAfterPadding));
    assert_eq!(base64("Zm8=\nZ"), Err(DecodeError::SymbolAfterPadding));
    // A symbol after the padding outweighs a wrong number of pads.
    assert_eq!(base64("Zg=a"), Err(DecodeError::SymbolAfterPadding));
}

#[test]
fn base64_failure_leaves_buffer_as_it_was() {
    let mut out = vec![1, 2, 3];
    assert!(base64_decode_into_buf(b"Zm9vZm9vZ", &mut out).is_err());
    assert_eq!(out, vec![1, 2, 3]);
    assert!(base64_decode_into_buf(b"Zm9vZg=x", &mut out).is_err());
    assert_eq!(out, vec![1, 2, 3]);
}

#[test]
fn base64_success_appends() {
    let mut out = vec![1, 2, 3];
    assert!(base64_decode_into_buf(b"Zm9v", &mut out).is_ok());
    assert_eq!(out, vec![1, 2, 3, b'f', b'o', b'o']);
}

#[test]
fn hex_digits() {
    assert_eq!(hexdigit_to_num(b'0'), Some(0));
    assert_eq!(hexdigit_to_num(b'9'), Some(9));
    assert_eq!(hexdigit_to_num(b'a'), Some(10));
    assert_eq!(hexdigit_to_num(b'f'), Some(15));
    assert_eq!(hexdigit_to_num(b'A'), Some(10));
    assert_eq!(hexdigit_to_num(b'F'), Some(15));
    assert_eq!(hexdigit_to_num(b'g'), None);
    assert_eq!(hexdigit_to_num(b'G'), None);
    assert_eq!(hexdigit_to_num(b'/'), None);
    assert_eq!(hexdigit_to_num(b':'), None);
}

#[test]
fn qp_decodes_escapes_in_either_case() {
    assert_eq!(qp(b"=3D"), b"=".to_vec());
    assert_eq!(qp(b"=C3=A9"), vec![0xc3, 0xa9]);
    assert_eq!(qp(b"=c3=a9"), vec![0xc3, 0xa9]);
    assert_eq!(qp(b"=00=fF"), vec![0x00, 0xff]);
}

#[test]
fn qp_keeps_text_without_equals() {
    let text = b"plain text\r\nwith lines\n\tand tabs \xff";
    assert_eq!(qp(text), text.to_vec());
}

#[test]
fn qp_undoes_an_encoding() {
    // "a=b \xe9\n" with every byte but the letters escaped.
    assert_eq!(qp(b"a=3Db=20=E9=0A"), b"a=b \xe9\n".to_vec());
}

#[test]
fn qp_soft_breaks_and_stray_equals() {
    assert_eq!(qp(b"ab=\ncd"), b"abcd".to_vec());
    assert_eq!(qp(b"ab=\r\ncd"), b"abcd".to_vec());
    assert_eq!(qp(b"ab=\rcd"), b"ab=\rcd".to_vec());
    assert_eq!(qp(b"ab="), b"ab=".to_vec());
    assert_eq!(qp(b"=4"), b"=4".to_vec());
    assert_eq!(qp(b"=4x41"), b"=4x41".to_vec());
    assert_eq!(qp(b"=x41"), b"=x41".to_vec());
    assert_eq!(qp(b"==41"), b"==41".to_vec());
    assert_eq!(qp(b"=\n=41"), b"A".to_vec());
}

#[test]
fn qp_appends_to_buffer() {
    let mut out = vec![9];
    assert!(qp_decode_into_buf(b"=41", &mut out).is_ok());
    assert_eq!(out, vec![9, b'A']);
}
