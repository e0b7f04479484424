use figfont::bytes::split_tokens;
use figfont::error::ParseError;
use figfont::reader::LineReader;

#[test]
fn read_line_strips_the_line_end() {
    let mut reader = LineReader::new(b"one\ntwo\r\n\nfour\r\r\nrest");
    assert_eq!(reader.read_line(), Ok(&b"one"[..]));
    assert_eq!(reader.read_line(), Ok(&b"two"[..]));
    assert_eq!(reader.read_line(), Ok(&b""[..]));
    assert_eq!(reader.read_line(), Ok(&b"four\r"[..]));
    assert_eq!(reader.remaining(), 4);
    assert_eq!(reader.read_line(), Err(ParseError::NotEnoughData));
    assert_eq!(reader.remaining(), 0);
    assert_eq!(reader.read_line(), Err(ParseError::NotEnoughData));
}

#[test]
fn read_last_line_may_end_with_the_bytes() {
    let mut reader = LineReader::new(b"one\r\ntwo");
    assert_eq!(reader.read_last_line(), b"one");
    assert_eq!(reader.remaining(), 3);
    assert_eq!(reader.read_last_line(), b"two");
    assert_eq!(reader.remaining(), 0);
    assert_eq!(reader.read_last_line(), b"");
    let mut reader = LineReader::new(b"tail\r");
    assert_eq!(reader.read_last_line(), b"tail\r");
}

#[test]
fn read_raw_lines_keeps_the_line_ends() {
    let mut reader = LineReader::new(b"a\nb\r\nc\nd");
    assert_eq!(reader.read_raw_lines(0), Ok(&b""[..]));
    assert_eq!(reader.remaining(), 8);
    assert_eq!(reader.read_raw_lines(2), Ok(&b"a\nb\r\n"[..]));
    assert_eq!(reader.remaining(), 3);
    assert_eq!(reader.read_raw_lines(2), Err(ParseError::NotEnoughData));
    assert_eq!(reader.remaining(), 0);
    assert_eq!(reader.read_raw_lines(0), Ok(&b""[..]));
}

#[test]
fn remaining_counts_down() {
    let mut reader = LineReader::new(b"ab\ncd");
    assert_eq!(reader.remaining(), 5);
    reader.read_line().unwrap();
    assert_eq!(reader.remaining(), 2);
    let empty = LineReader::new(b"");
    assert_eq!(empty.remaining(), 0);
}

#[test]
fn split_tokens_drops_empty_tokens() {
    let none: Vec<&[u8]> = vec![];
    assert_eq!(split_tokens(b""), none);
    assert_eq!(split_tokens(b"   "), none);
    assert_eq!(split_tokens(b"a"), vec![&b"a"[..]]);
    assert_eq!(split_tokens(b" a  bc   d "), vec![&b"a"[..], &b"bc"[..], &b"d"[..]]);
    assert_eq!(split_tokens(b"a\tb c"), vec![&b"a\tb"[..], &b"c"[..]]);
    let line = b"flf2a$ 6 5  16 15 11 0 24463 229";
    let expected: Vec<&[u8]> =
        line.split(|c| *c == b' ').filter(|t| !t.is_empty()).collect();
    assert_eq!(split_tokens(line), expected);
}
