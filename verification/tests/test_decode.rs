use mda::{base64_decode_into_buf, qp_decode_into_buf};

#[test]
fn decodes_full_length() {
    let mut decoded = Vec::new();
    assert!(base64_decode_into_buf("YWJj".as_bytes(), &mut decoded).is_ok());
    assert_eq!(decoded, &[b'a', b'b', b'c']);
}

#[test]
fn decodes_with_two_padding() {
    let mut decoded = Vec::new();
    assert!(base64_decode_into_buf("YWJjZA==".as_bytes(), &mut decoded).is_ok());
    assert_eq!(decoded, &[b'a', b'b', b'c', b'd']);
}

#[test]
fn decodes_with_one_padding() {
    let mut decoded = Vec::new();
    assert!(base64_decode_into_buf("YWJjZGU=".as_bytes(), &mut decoded).is_ok());
    assert_eq!(decoded, &[b'a', b'b', b'c', b'd', b'e']);
}

#[test]
fn decodes_with_ignored_characters() {
    let mut decoded = Vec::new();
    assert!(base64_decode_into_buf(" Y\t WJ\njZA=\r\n = ".as_bytes(), &mut decoded).is_ok());
    assert_eq!(decoded, &[b'a', b'b', b'c', b'd']);
}

#[test]
fn error_with_invalid_paddings() {
    let mut decoded = Vec::new();
    assert!(base64_decode_into_buf("YWJj====".as_bytes(), &mut decoded).is_err());
    assert!(base64_decode_into_buf("YWJjZ===".as_bytes(), &mut decoded).is_err());
    assert!(base64_decode_into_buf("====".as_bytes(), &mut decoded).is_err());
}

#[test]
fn error_with_unpadded_input() {
    let mut decoded = Vec::new();
    assert!(base64_decode_into_buf("YWJjZA=".as_bytes(), &mut decoded).is_err());
}

#[test]
fn error_with_characters_after_padding() {
    let mut decoded = Vec::new();
    assert!(base64_decode_into_buf("YWJjZA=a".as_bytes(), &mut decoded).is_err());
    assert!(base64_decode_into_buf("YWJjZA==b=".as_bytes(), &mut decoded).is_err());
}

#[test]
fn decodes_byte() {
    let mut decoded = Vec::new();
    assert!(qp_decode_into_buf("a=62c=64".as_bytes(), &mut decoded).is_ok());
    assert_eq!(decoded, &[b'a', b'b', b'c', b'd']);
}

#[test]
fn decodes_soft_break() {
    let mut decoded = Vec::new();
    assert!(qp_decode_into_buf("a=\r\nb=\nc".as_bytes(), &mut decoded).is_ok());
    assert_eq!(decoded, &[b'a', b'b', b'c']);
}

#[test]
fn invalid_sequences_are_untouched() {
    let mut decoded = Vec::new();
    let invalid_sequence = "a=6t= c=".as_bytes();
    assert!(qp_decode_into_buf(invalid_sequence, &mut decoded).is_ok());
    assert_eq!(decoded, invalid_sequence);
}
