use mda::lines::SliceLines;

#[test]
fn lines_keep_their_terminators() {
    let mut lines = SliceLines::new(b"one\ntwo\r\n\nlast");
    assert_eq!(lines.next(), Some(&b"one\n"[..]));
    assert_eq!(lines.next(), Some(&b"two\r\n"[..]));
    assert_eq!(lines.next(), Some(&b"\n"[..]));
    assert_eq!(lines.next(), Some(&b"last"[..]));
    assert_eq!(lines.next(), None);
    assert_eq!(lines.next(), None);
}

#[test]
fn peek_does_not_move() {
    let mut lines = SliceLines::new(b"a\nb\n");
    assert_eq!(lines.peek(), Some(&b"a\n"[..]));
    assert_eq!(lines.peek(), Some(&b"a\n"[..]));
    assert_eq!(lines.next(), Some(&b"a\n"[..]));
    assert_eq!(lines.peek(), Some(&b"b\n"[..]));
    assert_eq!(lines.next(), Some(&b"b\n"[..]));
    assert_eq!(lines.peek(), None);
}

#[test]
fn empty_buffer_has_no_line() {
    let mut lines = SliceLines::new(b"");
    assert_eq!(lines.peek(), None);
    assert_eq!(lines.next(), None);
}

#[test]
fn lines_joined_are_the_buffer() {
    let buf = b"x\n\n\ny\r\nz";
    let mut lines = SliceLines::new(buf);
    let mut joined = Vec::new();
    while let Some(line) = lines.next() {
        joined.extend_from_slice(line);
    }
    assert_eq!(joined, buf.to_vec());
}
