use log_parser::{last_delim, ByteLines, ByteLinesExt};

#[test]
fn test_last_delim() {
    let buf = b"Here's some text\nHere's some more";
    assert_eq!(last_delim(buf, b'\n').unwrap(), 16);
    let buf = b"\nHere's some text";
    assert_eq!(last_delim(buf, b'\n').unwrap(), 0);
}

#[test]
fn test_last_delim_non_existant() {
    let buf = b"Here's some text";
    assert!(last_delim(buf, b'\n').is_none());
    let buf = b"Here's some text\\nHere's some more";
    assert!(last_delim(buf, b'\n').is_none());
}

#[test]
fn test_byte_lines() {
    let mut lines = ByteLines::new(b'\n', b"hello\nworld\n");
    assert_eq!(lines.next(), Some(&b"hello\n"[..]));
    assert_eq!(lines.next(), Some(&b"world\n"[..]));
    assert_eq!(lines.next(), None);
}

#[test]
fn test_byte_lines_empty_buffer() {
    let mut lines = ByteLines::new(b'\n', b"");
    assert_eq!(lines.next(), None);
}

#[test]
fn test_byte_lines_no_end_newline() {
    let mut lines = ByteLines::new(b'\n', b"hello");
    assert_eq!(lines.next(), Some(&b"hello"[..]));
    assert_eq!(lines.next(), None);
}

#[test]
fn last_delim_of_an_empty_buffer() {
    assert!(last_delim(b"", b'\n').is_none());
}

#[test]
fn byte_lines_keep_the_delimiter() {
    let buf = b"a\nb\n";
    let mut lines = buf.byte_lines(b'\n');
    assert_eq!(lines.next(), Some(&b"a\n"[..]));
    assert_eq!(lines.next(), Some(&b"b\n"[..]));
    assert_eq!(lines.next(), None);
    let buf = b"a\nb";
    let mut lines = buf.byte_lines(b'\n');
    assert_eq!(lines.next(), Some(&b"a\n"[..]));
    assert_eq!(lines.next(), Some(&b"b"[..]));
    assert_eq!(lines.next(), None);
    assert_eq!(lines.next(), None);
}
