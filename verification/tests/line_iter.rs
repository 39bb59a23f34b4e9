use test_runner::baseline::line_iter::LineIter;

fn lines(data: &[u8]) -> Vec<(usize, usize, &[u8])> {
    let mut iter = LineIter::new(data);
    let mut result = Vec::new();
    while let Some(line) = iter.next() {
        result.push(line);
    }
    assert_eq!(iter.next(), None);
    result
}

#[test]
fn lines_end_with_an_empty_line() {
    assert_eq!(
        lines(b"a\nbc\n"),
        vec![(0, 0, &b"a"[..]), (1, 2, &b"bc"[..]), (2, 5, &b""[..])]
    );
}

#[test]
fn last_line_without_terminator() {
    assert_eq!(
        lines(b"a\nbc"),
        vec![(0, 0, &b"a"[..]), (1, 2, &b"bc"[..]), (2, 4, &b""[..])]
    );
}

#[test]
fn empty_buffer_has_one_empty_line() {
    assert_eq!(lines(b""), vec![(0, 0, &b""[..])]);
}

#[test]
fn crlf_and_lf_are_stripped() {
    assert_eq!(
        lines(b"a\r\n\r\nb\n\n"),
        vec![
            (0, 0, &b"a"[..]),
            (1, 3, &b""[..]),
            (2, 5, &b"b"[..]),
            (3, 7, &b""[..]),
            (4, 8, &b""[..])
        ]
    );
}

#[test]
fn carriage_return_alone_is_content() {
    assert_eq!(
        lines(b"a\rb\nc\r"),
        vec![(0, 0, &b"a\rb"[..]), (1, 4, &b"c\r"[..]), (2, 6, &b""[..])]
    );
    assert_eq!(lines(b"x\ry"), vec![(0, 0, &b"x\ry"[..]), (1, 3, &b""[..])]);
}

#[test]
fn line_start_follows_the_lines() {
    let data = b"ab\r\ncd\n";
    let mut iter = LineIter::new(data);
    assert_eq!(iter.line_start, 0);
    iter.next();
    assert_eq!(iter.line_start, 4);
    iter.next();
    assert_eq!(iter.line_start, 7);
    iter.next();
    assert_eq!(iter.line_start, 7);
    assert_eq!(iter.next(), None);
    assert_eq!(iter.next(), None);
}

#[test]
fn peek_gives_the_first_byte_of_the_next_line() {
    let data = b"a\n!b\n\n";
    let mut iter = LineIter::new(data);
    assert_eq!(iter.peek(), Some(b'a'));
    assert!(iter.next_is(b'a'));
    assert!(!iter.next_is(b'!'));
    iter.next();
    assert_eq!(iter.peek(), Some(b'!'));
    assert!(iter.next_is(b'!'));
    iter.next();
    assert_eq!(iter.peek(), Some(b'\n'));
    iter.next();
    assert_eq!(iter.peek(), None);
    assert!(!iter.next_is(b'\n'));
    iter.next();
    assert_eq!(iter.peek(), None);
    assert_eq!(LineIter::new(b"").peek(), None);
}
