use mda::parser::HeaderPatterns;
use mda::normalize::{
    collapse_word_gaps, decode_encoded_word, decode_encoded_words, decode_text_data_to_buf,
    maybe_contains_encoded_word, rewrite_field, split_field,
};
use mda::normalize_email;

fn normalized(message: &[u8]) -> Vec<u8> {
    let patterns = HeaderPatterns::new().unwrap();
    normalize_email(message, &patterns).0
}

fn text(bytes: &[u8]) -> String {
    String::from_utf8_lossy(bytes).into_owned()
}

fn decoded(data: &[u8], encoding: Option<&str>, charset: Option<&str>) -> Vec<u8> {
    let mut out = b">".to_vec();
    decode_text_data_to_buf(data, encoding.map(|e| e.as_bytes()), charset.map(|c| c.as_bytes()), &mut out);
    assert_eq!(out[0], b'>');
    out[1..].to_vec()
}

#[test]
fn plain_message_stays_as_it_is() {
    let message = b"A: b\r\nC: d\r\n\r\nbody\r\nmore\r\n";
    assert_eq!(text(&normalized(message)), text(message));
}

#[test]
fn folded_header_is_put_on_one_line() {
    assert_eq!(text(&normalized(b"A: b\r\n c\r\n\td\r\n\r\nx")), "A: b c\td\r\n\r\nx");
}

#[test]
fn text_body_encodings() {
    assert_eq!(decoded(b"YWJj\n", Some("base64"), None), b"abc".to_vec());
    assert_eq!(decoded(b"a=62c=\n", Some("quoted-printable"), None), b"abc".to_vec());
    assert_eq!(decoded(b"a=62c\n", Some("8bit"), None), b"a=62c\n".to_vec());
    assert_eq!(decoded(b"a=62c\n", Some("binary"), None), b"a=62c\n".to_vec());
    assert_eq!(decoded(b"a=62c\n", None, None), b"a=62c\n".to_vec());
}

#[test]
fn unknown_encoding_keeps_the_raw_bytes() {
    assert_eq!(decoded(b"YWJj\n", Some("7bit"), None), b"YWJj\n".to_vec());
    assert_eq!(decoded(b"YWJj\n", Some("BASE64"), None), b"YWJj\n".to_vec());
    // No conversion from the charset either.
    assert_eq!(decoded(b"\xe1", Some("x-unknown"), Some("iso-8859-7")), b"\xe1".to_vec());
}

#[test]
fn failed_decoding_keeps_the_raw_bytes_unconverted() {
    assert_eq!(decoded(b"4eE\n", Some("base64"), Some("iso-8859-7")), b"4eE\n".to_vec());
}

#[test]
fn charset_is_converted_to_utf8() {
    assert_eq!(text(&decoded(b"\xe1\xe2", None, Some("iso-8859-7"))), "\u{3b1}\u{3b2}");
    assert_eq!(text(&decoded(b"4eI=", Some("base64"), Some("iso-8859-7"))), "\u{3b1}\u{3b2}");
    assert_eq!(text(&decoded(b"=E1=E2", Some("quoted-printable"), Some("iso-8859-7"))), "\u{3b1}\u{3b2}");
}

#[test]
fn absent_charset_is_us_ascii() {
    // us-ascii is read as windows-1252: 0xe9 is e with acute accent.
    assert_eq!(text(&decoded(b"caf\xe9", None, None)), "caf\u{e9}");
    assert_eq!(decoded(b"cafe", None, None), b"cafe".to_vec());
}

#[test]
fn unknown_charset_leaves_bytes_untouched() {
    assert_eq!(decoded(b"caf\xe9", None, Some("no-such-charset")), b"caf\xe9".to_vec());
    assert_eq!(decoded(b"Y2Fm6Q==", Some("base64"), Some("no-such-charset")), b"caf\xe9".to_vec());
}

#[test]
fn word_end_test_is_exact() {
    assert!(maybe_contains_encoded_word(b"a?=b"));
    assert!(maybe_contains_encoded_word(b"?="));
    assert!(maybe_contains_encoded_word(b"???="));
    assert!(!maybe_contains_encoded_word(b"a?b=c"));
    assert!(!maybe_contains_encoded_word(b"=?"));
    assert!(!maybe_contains_encoded_word(b"?"));
    assert!(!maybe_contains_encoded_word(b""));
}

#[test]
fn encoded_word_by_its_parts() {
    assert_eq!(decode_encoded_word(b"utf-8", b"b", b"YWJj"), Some(b"abc".to_vec()));
    assert_eq!(decode_encoded_word(b"UTF-8", b"B", b"YWJj"), Some(b"abc".to_vec()));
    assert_eq!(decode_encoded_word(b"utf-8", b"q", b"a_b=5Fc"), Some(b"a b_c".to_vec()));
    assert_eq!(decode_encoded_word(b"utf-8", b"Q", b"a_b"), Some(b"a b".to_vec()));
    assert_eq!(
        decode_encoded_word(b"iso-8859-1", b"q", b"=C0").map(|b| text(&b)),
        Some("\u{c0}".to_string())
    );
    assert_eq!(decode_encoded_word(b"utf-8", b"x", b"YWJj"), None);
    assert_eq!(decode_encoded_word(b"utf-8", b"bb", b"YWJj"), None);
    assert_eq!(decode_encoded_word(b"utf-8", b"", b"YWJj"), None);
    assert_eq!(decode_encoded_word(b"utf-8", b"b", b"YWJ"), None);
    assert_eq!(decode_encoded_word(b"no-such-charset", b"b", b"YWJj"), None);
}

#[test]
fn gaps_between_encoded_words_are_taken_out() {
    let patterns = HeaderPatterns::new().unwrap();
    assert_eq!(
        text(&collapse_word_gaps(&patterns, b"S: =?a?b?c?= \r\n\t =?d?e?f?=   =?g?h?i?= end\n")),
        "S: =?a?b?c?==?d?e?f?==?g?h?i?= end\n"
    );
    assert_eq!(text(&collapse_word_gaps(&patterns, b"S: =?a?b?c?= x =?d?e?f?=\n")), "S: =?a?b?c?= x =?d?e?f?=\n");
    assert_eq!(text(&collapse_word_gaps(&patterns, b"")), "");
}

#[test]
fn encoded_words_are_replaced_from_left_to_right() {
    let patterns = HeaderPatterns::new().unwrap();
    assert_eq!(
        text(&decode_encoded_words(&patterns, b"S: =?utf-8?b?YQ==?= and =?utf-8?Q?b_c?=!\n")),
        "S: a and b c!\n"
    );
    assert_eq!(
        text(&decode_encoded_words(&patterns, b"S: =?utf-8?b?YQ=?= =?utf-8?x?YQ==?= =?nope?b?YQ==?=\n")),
        "S: =?utf-8?b?YQ=?= =?utf-8?x?YQ==?= =?nope?b?YQ==?=\n"
    );
}

#[test]
fn field_without_word_end_is_not_rewritten() {
    let patterns = HeaderPatterns::new().unwrap();
    assert_eq!(text(&rewrite_field(&patterns, b"S: =?utf-8?b?YQ==\n")), "S: =?utf-8?b?YQ==\n");
    assert_eq!(text(&rewrite_field(&patterns, b"S: =?utf-8?b?YQ==?=\r\n =?utf-8?b?Yg==?=\n")), "S: ab\n");
}

#[test]
fn field_is_split_at_its_first_colon() {
    assert_eq!(split_field(b"Subject: a: b \r\n"), ("subject".to_string(), " a: b ".to_string()));
    assert_eq!(split_field(b"X-Empty:\n"), ("x-empty".to_string(), "".to_string()));
    assert_eq!(split_field(b"No colon here\r\n"), ("no colon here".to_string(), "".to_string()));
    assert_eq!(split_field(b": value"), ("".to_string(), " value".to_string()));
    assert_eq!(split_field(b"\xc9t\xe9: \xff\n"), ("\u{fffd}t\u{fffd}".to_string(), " \u{fffd}".to_string()));
    assert_eq!(split_field("\u{c9}T\u{c9}: x".as_bytes()), ("\u{e9}t\u{e9}".to_string(), " x".to_string()));
}

#[test]
fn non_text_body_is_not_decoded() {
    let message = b"Content-Type: image/png\nContent-Transfer-Encoding: base64\n\nYWJj\n";
    assert_eq!(text(&normalized(message)), text(message));
}

#[test]
fn text_body_is_decoded() {
    let message = b"Content-Type: text/plain; charset=\"utf-8\"\nContent-Transfer-Encoding: base64\n\nYWJj\n";
    assert_eq!(
        text(&normalized(message)),
        "Content-Type: text/plain; charset=\"utf-8\"\nContent-Transfer-Encoding: base64\n\nabc"
    );
}

#[test]
fn body_without_type_is_decoded() {
    assert_eq!(text(&normalized(b"Content-Transfer-Encoding: quoted-printable\n\n=41=\n=42\n")), "Content-Transfer-Encoding: quoted-printable\n\nAB\n");
}

#[test]
fn invalid_base64_body_stays() {
    let message = b"Content-Type: text/plain\nContent-Transfer-Encoding: base64\n\nYWJjZA====\n";
    assert_eq!(text(&normalized(message)), text(message));
}

#[test]
fn boundary_line_starts_a_line_of_its_own() {
    let message = b"Content-Type: multipart/mixed; boundary=b\n\n--b\nContent-Transfer-Encoding: base64\n\nYWJj\n--b--\n";
    assert_eq!(
        text(&normalized(message)),
        "Content-Type: multipart/mixed; boundary=b\n\n--b\nContent-Transfer-Encoding: base64\n\nabc\n--b--\n"
    );
}

#[test]
fn fields_are_read_from_the_rewritten_header() {
    let patterns = HeaderPatterns::new().unwrap();
    let (_, fields) = normalize_email(b"Subject: =?utf-8?q?caf=C3=A9?=\nTo: a\nto: b\n\nTo: c\n", &patterns);
    assert_eq!(fields.get("subject"), Some(&vec![" caf\u{e9}".to_string()]));
    assert_eq!(fields.get("to"), Some(&vec![" a".to_string(), " b".to_string()]));
    assert_eq!(fields.get("To"), None);
    assert_eq!(fields.field_names(), vec!["subject", "to"]);
}
