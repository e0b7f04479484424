//! The character records of a font.
//!
//! A record is as many lines as the header's height says. The last byte of
//! its first line is the record's delimiter: every line ends with it, and the
//! last line of a record of more than one line ends with two of them. What
//! stands before the delimiters is a row of the character.

use crate::bytes::{find_byte, first_index, slices_view, SPACE};
use crate::error::ParseError;
use crate::grapheme::{segment, Grapheme};
use crate::header::{Header, HeaderView};
use crate::number::{i32_numeral, parse_i32, MINUS};
use crate::reader::{split_last_line, split_line, LineReader};
use std::borrow::Cow;
use vstd::prelude::*;
use vstd::slice::slice_subrange;

verus! {

/// The rows of a vector of rows, each as a sequence of cells.
pub open spec fn rows_view(rows: Seq<Vec<Grapheme>>) -> Seq<Seq<Grapheme>> {
    Seq::new(rows.len(), |i: int| rows[i]@)
}

/// Whether `width` is the length of the longest of `rows`, or 0 where there
/// are none.
pub open spec fn is_width_of(rows: Seq<Seq<Grapheme>>, width: nat) -> bool {
    &&& forall|i: int| 0 <= i < rows.len() ==> (#[trigger] rows[i]).len() <= width
    &&& if rows.len() == 0 {
        width == 0
    } else {
        exists|i: int| 0 <= i < rows.len() && (#[trigger] rows[i]).len() == width
    }
}

/// One character of a font: its rows from top to bottom, each a sequence of
/// cells. It has at least one row.
#[derive(Debug, PartialEq, Eq)]
pub struct FIGcharacter {
    lines: Vec<Vec<Grapheme>>,
}

impl View for FIGcharacter {
    type V = Seq<Seq<Grapheme>>;

    closed spec fn view(&self) -> Seq<Seq<Grapheme>> {
        rows_view(self.lines@)
    }
}

impl FIGcharacter {
    #[verifier::type_invariant]
    spec fn has_rows(self) -> bool {
        self.lines@.len() >= 1
    }

    /// Decodes the character record that `input` stands at.
    pub fn parse(input: &mut LineReader, header: &Header) -> (r: Result<FIGcharacter, ParseError>)
        ensures
            character_outcome(old(input)@, header@, r, final(input)@),
            r is Ok ==> r->Ok_0@.len() == header@.height,
    {
        read_character(input, header)
    }

    /// Decodes the code tag that `input` stands at and the character record
    /// behind it.
    pub fn parse_with_codetag(input: &mut LineReader, header: &Header) -> (r: Result<
        (i32, FIGcharacter),
        ParseError,
    >)
        ensures
            tagged_character_outcome(old(input)@, header@, r, final(input)@),
            r matches Ok((_, character)) ==> character@.len() == header@.height,
    {
        read_character_with_codetag(input, header)
    }

    /// The rows of the character, from top to bottom.
    pub fn lines<'a>(&'a self) -> (rows: Cow<'a, Vec<Vec<Grapheme>>>)
        ensures
            rows_view(rows@) == self@,
    {
        Cow::Borrowed(&self.lines)
    }

    /// The number of rows, at least 1.
    pub fn height(&self) -> (h: usize)
        ensures
            h == self@.len(),
            h >= 1,
    {
        proof {
            use_type_invariant(self);
        }
        self.lines.len()
    }

    /// The length of the longest row.
    pub fn width(&self) -> (w: usize)
        ensures
            is_width_of(self@, w as nat),
    {
        let mut w: usize = 0;
        let mut i: usize = 0;
        while i < self.lines.len()
            invariant
                i <= self.lines@.len(),
                is_width_of(self@.take(i as int), w as nat),
            decreases self.lines@.len() - i,
        {
            let n = self.lines[i].len();
            proof {
                let before = self@.take(i as int);
                let after = self@.take(i + 1);
                assert(after[i as int].len() == n);
                assert forall|j: int| 0 <= j < i implies after[j] == before[j] by {}
                if n <= w && i > 0 {
                    let k = choose|k: int| 0 <= k < before.len() && (#[trigger] before[k]).len() == w;
                    assert(after[k].len() == w);
                }
            }
            if n > w {
                w = n;
            }
            i += 1;
        }
        proof {
            assert(self@.take(i as int) == self@);
        }
        w
    }
}

/// The lines of a record of `n` lines at the start of `s`, and what follows
/// them. All but the last have to end in a line feed; the last may end with
/// `s` itself.
pub open spec fn split_lines(s: Seq<u8>, n: nat) -> Option<(Seq<Seq<u8>>, Seq<u8>)>
    decreases n,
{
    if n <= 1 {
        let (line, rest) = split_last_line(s);
        Some((seq![line], rest))
    } else {
        match split_line(s) {
            None => None,
            Some((line, rest)) => match split_lines(rest, (n - 1) as nat) {
                None => None,
                Some((more, rest)) => Some((seq![line] + more, rest)),
            },
        }
    }
}

/// The row that a line of a record holds: the line without the delimiter
/// that ends it, or without the two that end it where `doubled` holds. A
/// line that does not end so holds no row.
pub open spec fn row_of(line: Seq<u8>, delimiter: u8, doubled: bool) -> Option<Seq<u8>> {
    let n = line.len() as int;
    if doubled {
        if n >= 2 && line[n - 1] == delimiter && line[n - 2] == delimiter {
            Some(line.take(n - 2))
        } else {
            None
        }
    } else {
        if n >= 1 && line[n - 1] == delimiter {
            Some(line.take(n - 1))
        } else {
            None
        }
    }
}

/// Whether line `i` of a record of `count` lines ends with two delimiters:
/// it is the last line of a record of more than one.
pub open spec fn ends_record(count: nat, i: int) -> bool {
    count > 1 && i == count - 1
}

/// The rows of a record, given its lines. The first line must not be empty;
/// its last byte is the delimiter, and every line has to hold a row under it.
pub open spec fn record_rows(lines: Seq<Seq<u8>>) -> Option<Seq<Seq<u8>>> {
    if lines.len() == 0 || lines[0].len() == 0 {
        None
    } else {
        let delimiter = lines[0].last();
        if forall|i: int|
            0 <= i < lines.len() ==> row_of(
                #[trigger] lines[i],
                delimiter,
                ends_record(lines.len(), i),
            ) is Some {
            Some(
                Seq::new(
                    lines.len(),
                    |i: int| row_of(lines[i], delimiter, ends_record(lines.len(), i))->0,
                ),
            )
        } else {
            None
        }
    }
}

/// The cells of the rows of a record, or nothing where a row cannot be cut
/// into cells.
pub open spec fn rows_cells(rows: Seq<Seq<u8>>, hard_blank: u8) -> Option<Seq<Seq<Grapheme>>> {
    if forall|i: int| 0 <= i < rows.len() ==> segment(#[trigger] rows[i], hard_blank) is Some {
        Some(Seq::new(rows.len(), |i: int| segment(rows[i], hard_blank)->0))
    } else {
        None
    }
}

/// The character that the bytes `s` begin with, for a height of at least 1,
/// and the bytes behind it; or the error that decoding them ends in. Missing
/// lines are not enough data; a line that holds no row makes the character
/// invalid; a row that cannot be cut into cells is laid to the header, whose
/// hard blank decides how rows are cut.
pub open spec fn decode_character(s: Seq<u8>, height: nat, hard_blank: u8) -> Result<
    (Seq<Seq<Grapheme>>, Seq<u8>),
    ParseError,
> {
    match split_lines(s, height) {
        None => Err(ParseError::NotEnoughData),
        Some((lines, rest)) => match record_rows(lines) {
            None => Err(ParseError::InvalidCharacter),
            Some(rows) => match rows_cells(rows, hard_blank) {
                None => Err(ParseError::InvalidHeader),
                Some(cells) => Ok((cells, rest)),
            },
        },
    }
}

/// Whether a token begins with `0x` or `0X`.
pub open spec fn has_hex_prefix(token: Seq<u8>) -> bool {
    token.len() >= 2 && token[0] == 0x30 && (token[1] == 0x78 || token[1] == 0x58)
}

/// The code that a code tag line gives. Only the line's first token counts,
/// which ends at the first space. A leading `-` negates what follows it.
/// What follows is a numeral: in base 16 behind `0x` or `0X`, in base 8
/// behind a `0` that does not stand alone, and else in base 10. The numeral
/// and the negated code both have to fit 32 bits with sign.
pub open spec fn codetag_of(line: Seq<u8>) -> Option<i32> {
    let token = line.take(first_index(line, SPACE) as int);
    let negative = token.len() > 0 && token[0] == MINUS;
    let body = if negative {
        token.skip(1)
    } else {
        token
    };
    let number = if has_hex_prefix(body) {
        i32_numeral(body.skip(2), 16)
    } else if body.len() > 1 && body[0] == 0x30 {
        i32_numeral(body.skip(1), 8)
    } else {
        i32_numeral(body, 10)
    };
    match number {
        None => None,
        Some(v) => if !negative {
            Some(v)
        } else if v == i32::MIN {
            None
        } else {
            Some((-v) as i32)
        },
    }
}

/// The code tag that the bytes `s` begin with, and the bytes behind it.
pub open spec fn decode_codetag(s: Seq<u8>) -> Result<(i32, Seq<u8>), ParseError> {
    match split_line(s) {
        None => Err(ParseError::NotEnoughData),
        Some((line, rest)) => match codetag_of(line) {
            None => Err(ParseError::InvalidCharacter),
            Some(code) => Ok((code, rest)),
        },
    }
}

/// The code tag and the character that the bytes `s` begin with, and the
/// bytes behind them.
pub open spec fn decode_tagged_character(s: Seq<u8>, height: nat, hard_blank: u8) -> Result<
    (i32, Seq<Seq<Grapheme>>, Seq<u8>),
    ParseError,
> {
    match decode_codetag(s) {
        Err(e) => Err(e),
        Ok((code, rest)) => match decode_character(rest, height, hard_blank) {
            Err(e) => Err(e),
            Ok((cells, rest)) => Ok((code, cells, rest)),
        },
    }
}

/// Whether decoding a character from the bytes `s` under `header` may end
/// in `r`, with the bytes `rest` left to read: on success the rows and the
/// bytes left are those that `decode_character` gives, and on failure the
/// error is. What is left to read after a failure is not said.
pub open spec fn character_outcome(
    s: Seq<u8>,
    header: HeaderView,
    r: Result<FIGcharacter, ParseError>,
    rest: Seq<u8>,
) -> bool {
    let decoded = decode_character(s, header.height as nat, header.hard_blank_char);
    match r {
        Ok(character) => decoded == Ok::<(Seq<Seq<Grapheme>>, Seq<u8>), ParseError>(
            (character@, rest),
        ),
        Err(e) => decoded == Err::<(Seq<Seq<Grapheme>>, Seq<u8>), ParseError>(e),
    }
}

/// Whether decoding a code tag and a character from the bytes `s` under
/// `header` may end in `r`, with the bytes `rest` left to read.
pub open spec fn tagged_character_outcome(
    s: Seq<u8>,
    header: HeaderView,
    r: Result<(i32, FIGcharacter), ParseError>,
    rest: Seq<u8>,
) -> bool {
    let decoded = decode_tagged_character(s, header.height as nat, header.hard_blank_char);
    match r {
        Ok((code, character)) => decoded == Ok::<
            (i32, Seq<Seq<Grapheme>>, Seq<u8>),
            ParseError,
        >((code, character@, rest)),
        Err(e) => decoded == Err::<(i32, Seq<Seq<Grapheme>>, Seq<u8>), ParseError>(e),
    }
}

/// Decodes a code tag and the character record behind it.
pub fn read_character_with_codetag(input: &mut LineReader, header: &Header) -> (r: Result<
    (i32, FIGcharacter),
    ParseError,
>)
    ensures
        tagged_character_outcome(old(input)@, header@, r, final(input)@),
        r matches Ok((_, character)) ==> character@.len() == header@.height,
{
    let codetag = match read_codetag(input) {
        Ok(codetag) => codetag,
        Err(e) => {
            return Err(e);
        },
    };
    let character = match read_character(input, header) {
        Ok(character) => character,
        Err(e) => {
            return Err(e);
        },
    };
    Ok((codetag, character))
}

/// Decodes the code that a code tag line gives.
pub fn parse_codetag(line: &[u8]) -> (r: Result<i32, ParseError>)
    ensures
        r == match codetag_of(line@) {
            Some(code) => Ok::<i32, ParseError>(code),
            None => Err(ParseError::InvalidCharacter),
        },
{
    let end = find_byte(line, 0, SPACE);
    proof {
        assert(line@.skip(0) == line@);
    }
    let token = slice_subrange(line, 0, end);
    let n = token.len();
    let negative = n > 0 && token[0] == MINUS;
    let body = if negative {
        slice_subrange(token, 1, n)
    } else {
        token
    };
    proof {
        assert(token@ == line@.take(end as int));
        if negative {
            assert(body@ == token@.skip(1));
        }
    }
    let m = body.len();
    let number = if m >= 2 && body[0] == 0x30 && (body[1] == 0x78 || body[1] == 0x58) {
        let digits = slice_subrange(body, 2, m);
        proof {
            assert(digits@ == body@.skip(2));
        }
        parse_i32(digits, 16)
    } else if m > 1 && body[0] == 0x30 {
        let digits = slice_subrange(body, 1, m);
        proof {
            assert(digits@ == body@.skip(1));
        }
        parse_i32(digits, 8)
    } else {
        parse_i32(body, 10)
    };
    match number {
        None => Err(ParseError::InvalidCharacter),
        Some(v) => if !negative {
            Ok(v)
        } else if v == i32::MIN {
            Err(ParseError::InvalidCharacter)
        } else {
            Ok(-v)
        },
    }
}

/// Reads a code tag line and decodes the code that it gives.
pub fn read_codetag(input: &mut LineReader) -> (r: Result<i32, ParseError>)
    ensures
        match r {
            Ok(code) => decode_codetag(old(input)@) == Ok::<(i32, Seq<u8>), ParseError>(
                (code, final(input)@),
            ),
            Err(e) => decode_codetag(old(input)@) == Err::<(i32, Seq<u8>), ParseError>(e),
        },
{
    let line = match input.read_line() {
        Ok(line) => line,
        Err(e) => {
            return Err(e);
        },
    };
    parse_codetag(line)
}

/// Takes the delimiters off the lines of a record, which leaves its rows.
pub fn strip_rows<'a>(lines: &Vec<&'a [u8]>) -> (r: Result<Vec<&'a [u8]>, ParseError>)
    ensures
        match r {
            Ok(rows) => record_rows(slices_view(lines@)) == Some(slices_view(rows@)),
            Err(e) => e == ParseError::InvalidCharacter && record_rows(slices_view(lines@))
                is None,
        },
{
    let count = lines.len();
    if count == 0 {
        return Err(ParseError::InvalidCharacter);
    }
    let first = lines[0];
    if first.len() == 0 {
        return Err(ParseError::InvalidCharacter);
    }
    let delimiter = first[first.len() - 1];
    let ghost all = slices_view(lines@);
    let mut rows: Vec<&'a [u8]> = Vec::new();
    let mut i: usize = 0;
    while i < count
        invariant
            i <= count,
            count == lines@.len(),
            all == slices_view(lines@),
            all[0].len() > 0,
            delimiter == all[0].last(),
            rows@.len() == i,
            forall|j: int|
                0 <= j < i ==> row_of(#[trigger] all[j], delimiter, ends_record(count as nat, j))
                    == Some(rows@[j]@),
        decreases count - i,
    {
        let line = lines[i];
        let n = line.len();
        let doubled = count > 1 && i == count - 1;
        proof {
            assert(all[i as int] == line@);
            assert(row_of(all[i as int], delimiter, ends_record(count as nat, i as int)) == row_of(
                line@,
                delimiter,
                doubled,
            ));
        }
        if doubled {
            if n < 2 || line[n - 1] != delimiter || line[n - 2] != delimiter {
                return Err(ParseError::InvalidCharacter);
            }
            rows.push(slice_subrange(line, 0, n - 2));
        } else {
            if n < 1 || line[n - 1] != delimiter {
                return Err(ParseError::InvalidCharacter);
            }
            rows.push(slice_subrange(line, 0, n - 1));
        }
        i += 1;
    }
    proof {
        assert(slices_view(rows@) =~= record_rows(all)->0);
    }
    Ok(rows)
}

/// Cuts the rows of a record into cells.
pub fn segment_rows(rows: &Vec<&[u8]>, hard_blank: u8) -> (r: Result<
    Vec<Vec<Grapheme>>,
    ParseError,
>)
    ensures
        match r {
            Ok(cells) => rows_cells(slices_view(rows@), hard_blank) == Some(rows_view(cells@)),
            Err(e) => e == ParseError::InvalidHeader && rows_cells(
                slices_view(rows@),
                hard_blank,
            ) is None,
        },
{
    let ghost all = slices_view(rows@);
    let mut cells: Vec<Vec<Grapheme>> = Vec::new();
    let mut i: usize = 0;
    while i < rows.len()
        invariant
            i <= rows@.len(),
            all == slices_view(rows@),
            cells@.len() == i,
            forall|j: int|
                0 <= j < i ==> segment(#[trigger] all[j], hard_blank) == Some(cells@[j]@),
        decreases rows@.len() - i,
    {
        proof {
            assert(all[i as int] == rows@[i as int]@);
        }
        match Grapheme::split(rows[i], hard_blank) {
            Some(row) => {
                cells.push(row);
            },
            None => {
                return Err(ParseError::InvalidHeader);
            },
        }
        i += 1;
    }
    proof {
        assert(rows_view(cells@) =~= rows_cells(all, hard_blank)->0);
    }
    Ok(cells)
}

/// Decodes the character record that `input` stands at, under the height and
/// the hard blank of `header`.
pub fn read_character(input: &mut LineReader, header: &Header) -> (r: Result<
    FIGcharacter,
    ParseError,
>)
    ensures
        character_outcome(old(input)@, header@, r, final(input)@),
        r is Ok ==> r->Ok_0@.len() == header@.height,
{
    let height = header.height();
    proof {
        lemma_split_lines_count(input@, height as nat);
    }
    let lines = match read_lines(input, height) {
        Ok(lines) => lines,
        Err(e) => {
            return Err(e);
        },
    };
    let rows = match strip_rows(&lines) {
        Ok(rows) => rows,
        Err(e) => {
            return Err(e);
        },
    };
    match segment_rows(&rows, header.hard_blank_char()) {
        Ok(cells) => {
            proof {
                assert(slices_view(lines@).len() == height);
                assert(slices_view(rows@).len() == height);
                assert(rows_view(cells@).len() == height);
            }
            Ok(FIGcharacter { lines: cells })
        },
        Err(e) => Err(e),
    }
}

/// Reads the `num` lines of a record: all but the last have to end in a line
/// feed, the last may end with the bytes themselves.
pub fn read_lines<'a>(input: &mut LineReader<'a>, num: usize) -> (r: Result<
    Vec<&'a [u8]>,
    ParseError,
>)
    requires
        num >= 1,
    ensures
        match r {
            Ok(lines) => split_lines(old(input)@, num as nat) == Some(
                (slices_view(lines@), final(input)@),
            ),
            Err(e) => e == ParseError::NotEnoughData && split_lines(old(input)@, num as nat)
                is None,
        },
{
    let mut lines: Vec<&'a [u8]> = Vec::new();
    let mut i: usize = 1;
    proof {
        match split_lines(input@, num as nat) {
            None => {},
            Some((more, rest)) => {
                assert(slices_view(lines@) + more == more);
            },
        }
    }
    while i < num
        invariant
            1 <= i <= num,
            split_lines(old(input)@, num as nat) == match split_lines(
                input@,
                (num - i + 1) as nat,
            ) {
                None => None::<(Seq<Seq<u8>>, Seq<u8>)>,
                Some((more, rest)) => Some((slices_view(lines@) + more, rest)),
            },
        decreases num - i,
    {
        let ghost before = slices_view(lines@);
        match input.read_line() {
            Ok(line) => {
                lines.push(line);
                proof {
                    assert(slices_view(lines@) == before + seq![line@]);
                    match split_lines(input@, (num - i) as nat) {
                        None => {},
                        Some((more, rest)) => {
                            assert(before + (seq![line@] + more) == slices_view(lines@) + more);
                        },
                    }
                }
            },
            Err(e) => {
                return Err(e);
            },
        }
        i += 1;
    }
    let ghost before = slices_view(lines@);
    let last = input.read_last_line();
    lines.push(last);
    proof {
        assert(slices_view(lines@) == before + seq![last@]);
    }
    Ok(lines)
}

/// A record of `n` lines has `n` lines.
pub proof fn lemma_split_lines_count(s: Seq<u8>, n: nat)
    requires
        n >= 1,
    ensures
        split_lines(s, n) matches Some((lines, _)) ==> lines.len() == n,
    decreases n,
{
    if n > 1 {
        match split_line(s) {
            None => {},
            Some((line, rest)) => {
                lemma_split_lines_count(rest, (n - 1) as nat);
            },
        }
    }
}

/// A decoded character has as many rows as the height it was decoded under.
pub proof fn lemma_character_has_height(s: Seq<u8>, height: nat, hard_blank: u8)
    requires
        height >= 1,
        decode_character(s, height, hard_blank) is Ok,
    ensures
        decode_character(s, height, hard_blank) matches Ok((rows, _)) && rows.len() == height,
{
    lemma_split_lines_count(s, height);
}

/// Decoding a character is a function of the bytes and the header: two
/// decodings of the same bytes under headers that hold the same values both
/// succeed or both fail; where they succeed the characters hold the same
/// rows and the same bytes are left, and where they fail the errors are the
/// same.
pub proof fn lemma_character_decoding_is_deterministic(
    s: Seq<u8>,
    header: HeaderView,
    first: Result<FIGcharacter, ParseError>,
    first_rest: Seq<u8>,
    second: Result<FIGcharacter, ParseError>,
    second_rest: Seq<u8>,
)
    requires
        character_outcome(s, header, first, first_rest),
        character_outcome(s, header, second, second_rest),
    ensures
        match (first, second) {
            (Ok(a), Ok(b)) => a@ == b@ && first_rest == second_rest,
            (Err(a), Err(b)) => a == b,
            _ => false,
        },
{
}

} // verus!
