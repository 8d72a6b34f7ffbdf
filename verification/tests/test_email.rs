use mda::email::find_empty_line;
use mda::{DeliveryDurability, Email};

const MESSAGE: &str = "Return-Path: <me@source.com>\r\nMulti: one\r\nTo: a\r\n b\r\nMULTI: two\r\nmulti: three\r\n\r\nMulti: four\r\nbody\r\n";

fn email(text: &[u8]) -> Email {
    Email::from_vec(text.to_vec()).unwrap()
}

#[test]
fn header_and_body_joined_are_data() {
    for text in [
        &b""[..],
        b"\n",
        b"\n\n",
        b"A: b",
        b"A: b\n",
        b"A: b\n\n",
        b"A: b\n\nbody",
        b"A: b\r\n\r\nbody\r\n",
        b"\n\nbody",
        MESSAGE.as_bytes(),
        b"\xff\xfe\n\n\x00",
    ] {
        let email = email(text);
        let mut joined = email.header().to_vec();
        joined.extend_from_slice(email.body());
        assert_eq!(joined, email.data().to_vec());
    }
}

#[test]
fn raw_data_is_the_input() {
    for text in [&b""[..], b"A: =?utf-8?b?YQ==?=\n b\n\nx", MESSAGE.as_bytes(), b"\xff\x00\r\r\n"] {
        assert_eq!(email(text).raw_data(), text);
    }
}

#[test]
fn empty_line_belongs_to_the_body() {
    let email = email(b"A: b\r\nC: d\r\n\r\nbody\r\n");
    assert_eq!(email.header(), b"A: b\r\nC: d\r");
    assert_eq!(email.body(), b"\n\r\nbody\r\n");
    let email = self::email(b"A: b\nC: d\n\nbody\n");
    assert_eq!(email.header(), b"A: b\nC: d");
    assert_eq!(email.body(), b"\n\nbody\n");
}

#[test]
fn message_without_empty_line_is_all_header() {
    let email = email(b"A: b\nC: d\n");
    assert_eq!(email.header(), b"A: b\nC: d\n");
    assert_eq!(email.body(), b"");
    assert_eq!(email.data(), b"A: b\nC: d\n");
}

#[test]
fn split_is_at_the_first_empty_line() {
    assert_eq!(find_empty_line(b"a\n\nb\n\nc"), Some(1));
    assert_eq!(find_empty_line(b"a\r\n\r\nb"), Some(2));
    assert_eq!(find_empty_line(b"\n\n"), Some(0));
    assert_eq!(find_empty_line(b"a\nb\n"), None);
    assert_eq!(find_empty_line(b"a\n"), None);
    assert_eq!(find_empty_line(b"\n"), None);
    assert_eq!(find_empty_line(b""), None);
    assert_eq!(find_empty_line(b"a\r\rb"), None);
}

#[test]
fn values_keep_the_order_of_the_message() {
    let email = email(MESSAGE.as_bytes());
    assert_eq!(
        email.header_field_all_occurrences("Multi"),
        Some(&vec![" one".to_string(), " two".to_string(), " three".to_string()])
    );
    assert_eq!(email.header_field("mUlTi"), Some(" one"));
    assert_eq!(email.header_field("to"), Some(" a b"));
    assert_eq!(email.header_field("body"), None);
}

#[test]
fn names_are_lower_case_and_stand_once() {
    let email = email(MESSAGE.as_bytes());
    let mut names = email.header_field_names();
    names.sort();
    assert_eq!(names, vec!["multi", "return-path", "to"]);
}

#[test]
fn names_are_folded_by_the_unicode_rules() {
    let email = email("\u{c9}t\u{c9}: x\n".as_bytes());
    assert_eq!(email.header_field("\u{e9}T\u{e9}"), Some(" x"));
    assert_eq!(email.header_field_names(), vec!["\u{e9}t\u{e9}"]);
}

#[test]
fn durability_starts_at_the_most_durable() {
    let mut email = email(b"");
    assert!(email.delivery_durability() == DeliveryDurability::FileAndDirSync);
    email.set_delivery_durability(DeliveryDurability::FileSyncOnly);
    assert!(email.delivery_durability() == DeliveryDurability::FileSyncOnly);
    assert_eq!(email.raw_data(), b"");
}

#[test]
fn delivery_is_recorded_when_written() {
    let mut email = email(b"x");
    assert!(!email.has_been_delivered());
    assert_eq!(email.deliver_path(), None);
    email.record_delivery(false, b"/a/new/1".to_vec());
    assert!(!email.has_been_delivered());
    email.record_delivery(true, b"/a/new/2".to_vec());
    assert!(email.has_been_delivered());
    assert_eq!(email.deliver_path(), Some(&b"/a/new/2"[..]));
    email.record_delivery(false, b"/b/new/3".to_vec());
    assert_eq!(email.deliver_path(), Some(&b"/a/new/2"[..]));
    email.record_delivery(true, b"/c/new/4".to_vec());
    assert_eq!(email.deliver_path(), Some(&b"/c/new/4"[..]));
}
