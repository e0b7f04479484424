use figfont::character::{
    parse_codetag, read_character, read_character_with_codetag, read_codetag, read_lines,
    segment_rows, strip_rows, FIGcharacter,
};
use figfont::error::ParseError;
use figfont::grapheme::Grapheme;
use figfont::header::Header;
use figfont::reader::LineReader;

fn header(height: usize, hard_blank: char) -> Header {
    let line = format!("flf2a{} {} 1 10 0\n", hard_blank, height);
    let mut reader = LineReader::new(line.as_bytes());
    Header::parse(&mut reader).unwrap()
}

fn text(s: &str) -> Vec<Grapheme> {
    s.chars().map(Grapheme::Char).collect()
}

fn decode(bytes: &[u8], height: usize) -> Result<FIGcharacter, ParseError> {
    let mut reader = LineReader::new(bytes);
    FIGcharacter::parse(&mut reader, &header(height, '$'))
}

#[test]
fn character_of_one_row() {
    let character = decode(b"X@", 1).unwrap();
    assert_eq!(character.height(), 1);
    assert_eq!(character.width(), 1);
    assert_eq!(*character.lines(), vec![text("X")]);
}

#[test]
fn character_of_one_row_strips_one_delimiter_only() {
    let character = decode(b"X@@\n", 1).unwrap();
    assert_eq!(character.height(), 1);
    assert_eq!(*character.lines(), vec![text("X@")]);
    assert_eq!(character.width(), 2);
}

#[test]
fn character_of_three_rows() {
    let character = decode(b"XX@\nYY@\nZZ@@", 3).unwrap();
    assert_eq!(character.height(), 3);
    assert_eq!(character.width(), 2);
    assert_eq!(*character.lines(), vec![text("XX"), text("YY"), text("ZZ")]);
}

#[test]
fn character_of_three_rows_with_closing_line_feed() {
    let bytes = b"XX@\nYY@\nZZ@@\nnext";
    let mut reader = LineReader::new(bytes);
    let character = FIGcharacter::parse(&mut reader, &header(3, '$')).unwrap();
    assert_eq!(*character.lines(), vec![text("XX"), text("YY"), text("ZZ")]);
    assert_eq!(reader.remaining(), 4);
}

#[test]
fn character_with_mismatched_delimiter() {
    assert_eq!(decode(b"XX@\nYY#\nZZ@@", 3), Err(ParseError::InvalidCharacter));
}

#[test]
fn character_last_row_needs_two_delimiters() {
    assert_eq!(decode(b"XX@\nYY@\nZZ@", 3), Err(ParseError::InvalidCharacter));
    assert_eq!(decode(b"XX@\nYY@\nZZ#@", 3), Err(ParseError::InvalidCharacter));
    assert_eq!(decode(b"XX@\nYY@\nZZ@#", 3), Err(ParseError::InvalidCharacter));
    assert_eq!(decode(b"XX@\nYY@\n@", 3), Err(ParseError::InvalidCharacter));
    assert_eq!(*decode(b"XX@\nYY@\n@@", 3).unwrap().lines(), vec![text("XX"), text("YY"), text("")]);
}

#[test]
fn character_with_empty_line() {
    assert_eq!(decode(b"\nYY@\nZZ@@", 3), Err(ParseError::InvalidCharacter));
    assert_eq!(decode(b"XX@\n\nZZ@@", 3), Err(ParseError::InvalidCharacter));
    assert_eq!(decode(b"XX@\nYY@\n", 3), Err(ParseError::InvalidCharacter));
    assert_eq!(decode(b"", 1), Err(ParseError::InvalidCharacter));
    assert_eq!(decode(b"\n", 1), Err(ParseError::InvalidCharacter));
}

#[test]
fn character_with_missing_lines() {
    assert_eq!(decode(b"XX@\nYY@", 3), Err(ParseError::NotEnoughData));
    assert_eq!(decode(b"XX@", 2), Err(ParseError::NotEnoughData));
    assert_eq!(decode(b"", 2), Err(ParseError::NotEnoughData));
}

#[test]
fn character_rows_may_differ_in_length() {
    let character = decode(b"X@\nYYYY@\n@\nZZ@@\n", 4).unwrap();
    assert_eq!(character.height(), 4);
    assert_eq!(character.width(), 4);
    assert_eq!(*character.lines(), vec![text("X"), text("YYYY"), text(""), text("ZZ")]);
}

#[test]
fn character_of_empty_rows_has_width_zero() {
    let character = decode(b"@\n@@\n", 2).unwrap();
    assert_eq!(character.height(), 2);
    assert_eq!(character.width(), 0);
}

#[test]
fn character_lines_may_end_in_crlf() {
    let character = decode(b"XX@\r\nYY@\r\nZZ@@\r\n", 3).unwrap();
    assert_eq!(*character.lines(), vec![text("XX"), text("YY"), text("ZZ")]);
}

#[test]
fn character_hard_blanks_become_blank_cells() {
    let character = decode(b" $a$$@\n$   $@@\n", 2).unwrap();
    assert_eq!(
        *character.lines(),
        vec![
            vec![
                Grapheme::Char(' '),
                Grapheme::Blank,
                Grapheme::Char('a'),
                Grapheme::Blank,
                Grapheme::Blank
            ],
            vec![
                Grapheme::Blank,
                Grapheme::Char(' '),
                Grapheme::Char(' '),
                Grapheme::Char(' '),
                Grapheme::Blank
            ],
        ]
    );
    assert_eq!(character.width(), 5);
}

#[test]
fn character_delimiter_may_be_the_hard_blank() {
    let character = decode(b"a$b$\nc$$\n", 2).unwrap();
    assert_eq!(
        *character.lines(),
        vec![vec![Grapheme::Char('a'), Grapheme::Blank, Grapheme::Char('b')], text("c")]
    );
}

#[test]
fn character_width_counts_cells_not_bytes() {
    let character = decode("\u{e9}\u{4e16}\u{1F600}@\nab@@\n".as_bytes(), 2).unwrap();
    assert_eq!(character.width(), 3);
    assert_eq!(*character.lines(), vec![text("\u{e9}\u{4e16}\u{1F600}"), text("ab")]);
}

#[test]
fn character_row_that_is_no_text_is_laid_to_the_header() {
    assert_eq!(decode(b"\xff@\nab@@\n", 2), Err(ParseError::InvalidHeader));
    assert_eq!(decode(b"ab@\n\xc3@@\n", 2), Err(ParseError::InvalidHeader));
    assert_eq!(decode(b"\xc3$\xa9@", 1), Err(ParseError::InvalidHeader));
}

#[test]
fn bad_delimiter_comes_before_bad_text() {
    assert_eq!(decode(b"\xff@\nab#@\n", 2), Err(ParseError::InvalidCharacter));
}

#[test]
fn character_height_is_the_headers() {
    for height in 1..6usize {
        let mut bytes = Vec::new();
        for row in 0..height {
            bytes.extend_from_slice(b"ab#");
            if row + 1 == height && height > 1 {
                bytes.push(b'#');
            }
            bytes.push(b'\n');
        }
        let h = header(height, '$');
        let mut reader = LineReader::new(&bytes);
        let character = read_character(&mut reader, &h).unwrap();
        assert_eq!(character.height(), h.height());
        assert_eq!(reader.remaining(), 0);
    }
}

#[test]
fn characters_are_read_one_after_another() {
    let bytes = b"a@\nb@@\nc#\nd##\ne!\nf!!";
    let h = header(2, '$');
    let mut reader = LineReader::new(bytes);
    assert_eq!(*read_character(&mut reader, &h).unwrap().lines(), vec![text("a"), text("b")]);
    assert_eq!(*read_character(&mut reader, &h).unwrap().lines(), vec![text("c"), text("d")]);
    assert_eq!(*read_character(&mut reader, &h).unwrap().lines(), vec![text("e"), text("f")]);
    assert_eq!(reader.remaining(), 0);
}

#[test]
fn decoding_a_character_twice_gives_equal_characters() {
    let bytes = b"X$@\nYY@\nZZ@@\nrest";
    let h = header(3, '$');
    let mut first = LineReader::new(bytes);
    let mut second = LineReader::new(bytes);
    let a = FIGcharacter::parse(&mut first, &h).unwrap();
    let b = FIGcharacter::parse(&mut second, &h).unwrap();
    assert_eq!(a, b);
    assert_eq!(first.remaining(), second.remaining());
    assert_eq!(decode(b"XX@\nYY#\nZZ@@", 3), decode(b"XX@\nYY#\nZZ@@", 3));
}

#[test]
fn read_lines_reads_ordinary_lines_and_a_last_one() {
    let mut reader = LineReader::new(b"a\nb\r\nc");
    let lines = read_lines(&mut reader, 3).unwrap();
    assert_eq!(lines, vec![&b"a"[..], &b"b"[..], &b"c"[..]]);
    assert_eq!(reader.remaining(), 0);
    let mut reader = LineReader::new(b"a\nb\nc\nd");
    assert_eq!(read_lines(&mut reader, 1).unwrap(), vec![&b"a"[..]]);
    assert_eq!(read_lines(&mut reader, 2).unwrap(), vec![&b"b"[..], &b"c"[..]]);
    assert_eq!(read_lines(&mut reader, 2), Err(ParseError::NotEnoughData));
}

#[test]
fn strip_rows_takes_the_delimiters_off() {
    let lines: Vec<&[u8]> = vec![b"ab@", b"@", b"cd@@"];
    assert_eq!(strip_rows(&lines), Ok(vec![&b"ab"[..], &b""[..], &b"cd"[..]]));
    let lines: Vec<&[u8]> = vec![b"ab@@"];
    assert_eq!(strip_rows(&lines), Ok(vec![&b"ab@"[..]]));
    let lines: Vec<&[u8]> = vec![b"ab@", b"cd@"];
    assert_eq!(strip_rows(&lines), Err(ParseError::InvalidCharacter));
    let lines: Vec<&[u8]> = vec![];
    assert_eq!(strip_rows(&lines), Err(ParseError::InvalidCharacter));
    let lines: Vec<&[u8]> = vec![b""];
    assert_eq!(strip_rows(&lines), Err(ParseError::InvalidCharacter));
}

#[test]
fn segment_rows_cuts_every_row() {
    let rows: Vec<&[u8]> = vec![b"a$", b""];
    assert_eq!(
        segment_rows(&rows, b'$'),
        Ok(vec![vec![Grapheme::Char('a'), Grapheme::Blank], vec![]])
    );
    let rows: Vec<&[u8]> = vec![b"a$", b"\x80"];
    assert_eq!(segment_rows(&rows, b'$'), Err(ParseError::InvalidHeader));
    let rows: Vec<&[u8]> = vec![];
    assert_eq!(segment_rows(&rows, b'$'), Ok(vec![]));
}

#[test]
fn codetag_hexadecimal() {
    assert_eq!(parse_codetag(b"0x41 A"), Ok(65));
    assert_eq!(parse_codetag(b"0X41"), Ok(65));
    assert_eq!(parse_codetag(b"0xff"), Ok(255));
    assert_eq!(parse_codetag(b"0xFF"), Ok(255));
    assert_eq!(parse_codetag(b"0x7fffffff"), Ok(i32::MAX));
    assert_eq!(parse_codetag(b"0x0"), Ok(0));
}

#[test]
fn codetag_negative() {
    assert_eq!(parse_codetag(b"-0x1"), Ok(-1));
    assert_eq!(parse_codetag(b"-1"), Ok(-1));
    assert_eq!(parse_codetag(b"-017"), Ok(-15));
    assert_eq!(parse_codetag(b"-2147483647"), Ok(-i32::MAX));
    assert_eq!(parse_codetag(b"-0"), Ok(0));
}

#[test]
fn codetag_octal() {
    assert_eq!(parse_codetag(b"0101"), Ok(65));
    assert_eq!(parse_codetag(b"00"), Ok(0));
    assert_eq!(parse_codetag(b"017777777777"), Ok(i32::MAX));
    assert_eq!(parse_codetag(b"08"), Err(ParseError::InvalidCharacter));
    assert_eq!(parse_codetag(b"020000000000"), Err(ParseError::InvalidCharacter));
}

#[test]
fn codetag_decimal() {
    assert_eq!(parse_codetag(b"65"), Ok(65));
    assert_eq!(parse_codetag(b"0"), Ok(0));
    assert_eq!(parse_codetag(b"2147483647"), Ok(i32::MAX));
    assert_eq!(parse_codetag(b"196 LATIN CAPITAL LETTER A WITH DIAERESIS"), Ok(196));
    assert_eq!(parse_codetag(b"65\tA"), Err(ParseError::InvalidCharacter));
}

#[test]
fn codetag_malformed() {
    assert_eq!(parse_codetag(b"0xZZ"), Err(ParseError::InvalidCharacter));
    assert_eq!(parse_codetag(b""), Err(ParseError::InvalidCharacter));
    assert_eq!(parse_codetag(b" 65"), Err(ParseError::InvalidCharacter));
    assert_eq!(parse_codetag(b"-"), Err(ParseError::InvalidCharacter));
    assert_eq!(parse_codetag(b"0x"), Err(ParseError::InvalidCharacter));
    assert_eq!(parse_codetag(b"-0x"), Err(ParseError::InvalidCharacter));
    assert_eq!(parse_codetag(b"x41"), Err(ParseError::InvalidCharacter));
    assert_eq!(parse_codetag(b"6 5"), Ok(6));
    assert_eq!(parse_codetag(b"6_5"), Err(ParseError::InvalidCharacter));
    assert_eq!(parse_codetag(b"\xc3\xa9"), Err(ParseError::InvalidCharacter));
    assert_eq!(parse_codetag(b"\xff"), Err(ParseError::InvalidCharacter));
    assert_eq!(parse_codetag(b"0x\xff"), Err(ParseError::InvalidCharacter));
    assert_eq!(parse_codetag(b"2147483648"), Err(ParseError::InvalidCharacter));
    assert_eq!(parse_codetag(b"-2147483648"), Err(ParseError::InvalidCharacter));
    assert_eq!(parse_codetag(b"0x80000000"), Err(ParseError::InvalidCharacter));
}

#[test]
fn codetag_numeral_may_carry_its_own_sign() {
    assert_eq!(parse_codetag(b"+65"), Ok(65));
    assert_eq!(parse_codetag(b"0x+41"), Ok(65));
    assert_eq!(parse_codetag(b"0x-41"), Ok(-65));
    assert_eq!(parse_codetag(b"--65"), Ok(65));
    assert_eq!(parse_codetag(b"-+65"), Ok(-65));
    assert_eq!(parse_codetag(b"0-1"), Ok(-1));
    assert_eq!(parse_codetag(b"0x-80000000"), Ok(i32::MIN));
    assert_eq!(parse_codetag(b"-0x-80000000"), Err(ParseError::InvalidCharacter));
    assert_eq!(parse_codetag(b"--2147483648"), Err(ParseError::InvalidCharacter));
    assert_eq!(parse_codetag(b"++65"), Err(ParseError::InvalidCharacter));
    assert_eq!(parse_codetag(b"+"), Err(ParseError::InvalidCharacter));
}

#[test]
fn codetag_agrees_with_the_standard_parsers() {
    let digits: [&str; 14] = [
        "0", "7", "8", "9", "a", "f", "F", "g", "10", "777", "1234567", "7fffffff", "80000000",
        "00000000000000000000012",
    ];
    for d in digits {
        for sign in ["", "+", "-"] {
            let numeral = format!("{}{}", sign, d);
            let hex = i32::from_str_radix(&numeral, 16).ok();
            assert_eq!(parse_codetag(format!("0x{}", numeral).as_bytes()).ok(), hex);
            assert_eq!(parse_codetag(format!("0X{}", numeral).as_bytes()).ok(), hex);
            let octal = i32::from_str_radix(&numeral, 8).ok();
            assert_eq!(parse_codetag(format!("0{}", numeral).as_bytes()).ok(), octal);
            if !d.starts_with('0') && sign != "-" {
                let decimal = numeral.parse::<i32>().ok();
                assert_eq!(parse_codetag(numeral.as_bytes()).ok(), decimal);
            }
        }
    }
}

#[test]
fn read_codetag_reads_one_line() {
    let mut reader = LineReader::new(b"0x41 A\n-0x1\r\n65");
    assert_eq!(read_codetag(&mut reader), Ok(65));
    assert_eq!(reader.remaining(), 8);
    assert_eq!(read_codetag(&mut reader), Ok(-1));
    assert_eq!(reader.remaining(), 2);
    assert_eq!(read_codetag(&mut reader), Err(ParseError::NotEnoughData));
    let mut reader = LineReader::new(b"0xZZ\n");
    assert_eq!(read_codetag(&mut reader), Err(ParseError::InvalidCharacter));
}

#[test]
fn tagged_character() {
    let bytes = b"0x41 LATIN CAPITAL LETTER A\n/\\@\n--@@\n";
    let h = header(2, '$');
    let mut reader = LineReader::new(bytes);
    let (code, character) = FIGcharacter::parse_with_codetag(&mut reader, &h).unwrap();
    assert_eq!(code, 65);
    assert_eq!(*character.lines(), vec![text("/\\"), text("--")]);
    assert_eq!(reader.remaining(), 0);
}

#[test]
fn tagged_character_errors() {
    let h = header(2, '$');
    let run = |bytes: &[u8]| {
        let mut reader = LineReader::new(bytes);
        read_character_with_codetag(&mut reader, &h)
    };
    assert_eq!(run(b"0x41"), Err(ParseError::NotEnoughData));
    assert_eq!(run(b"0xZZ\na@\nb@@\n"), Err(ParseError::InvalidCharacter));
    assert_eq!(run(b"65\na@"), Err(ParseError::NotEnoughData));
    assert_eq!(run(b"65\na@\nb#@\n"), Err(ParseError::InvalidCharacter));
    assert_eq!(run(b"65\n\x80@\nb@@\n"), Err(ParseError::InvalidHeader));
    assert_eq!(run(b"-65\na@\nb@@\n").unwrap().0, -65);
}
