//! The header of a font: the packed first line and the comment block.
//!
//! The first line holds up to nine tokens, separated by spaces: the
//! signature, whose last byte is the hard blank, then height, baseline,
//! maximal length, old layout, number of comment lines, print direction,
//! full layout and number of code-tagged characters. The first five are
//! required. The comment lines follow the first line.

use crate::bytes::{split_tokens, slices_view, tokens, CR, LF};
use crate::error::ParseError;
use crate::number::{
    i64_numeral, parse_i64, parse_u64, parse_u8, parse_usize, u64_numeral, u8_numeral,
    usize_numeral,
};
use crate::reader::{split_line, split_raw_lines, strip_cr, LineReader};
use crate::text::utf8_text;
use std::borrow::Cow;
use std::str::FromStr;
use vstd::prelude::*;
use vstd::slice::slice_subrange;
use vstd::string::StringSliceAdditionalSpecFns;
use vstd::utf8::{decode_utf8, valid_utf8};

verus! {

/// The direction in which a font is meant to be printed.
#[derive(Debug, Copy, Clone, PartialEq, Eq, Structural, Hash)]
pub enum PrintDirection {
    LeftToRight,
    RightToLeft,
}

/// The print direction that a token denotes: the numeral 0 is left to right,
/// the numeral 1 right to left.
pub open spec fn print_direction_of(token: Seq<u8>) -> Option<PrintDirection> {
    match u8_numeral(token) {
        Some(n) => if n == 0 {
            Some(PrintDirection::LeftToRight)
        } else if n == 1 {
            Some(PrintDirection::RightToLeft)
        } else {
            None
        },
        None => None,
    }
}

impl PrintDirection {
    /// Reads a print direction from a token of the header line.
    pub fn from_token(token: &[u8]) -> (r: Result<PrintDirection, ParseError>)
        ensures
            r == match print_direction_of(token@) {
                Some(direction) => Ok::<PrintDirection, ParseError>(direction),
                None => Err(ParseError::InvalidHeader),
            },
    {
        match parse_u8(token) {
            Some(n) => if n == 0 {
                Ok(PrintDirection::LeftToRight)
            } else if n == 1 {
                Ok(PrintDirection::RightToLeft)
            } else {
                Err(ParseError::InvalidHeader)
            },
            None => Err(ParseError::InvalidHeader),
        }
    }
}

impl FromStr for PrintDirection {
    type Err = ParseError;

    /// Reads a print direction from text, by the bytes that encode it.
    fn from_str(text: &str) -> (r: Result<Self, ParseError>)
        ensures
            r == match print_direction_of(text.spec_bytes()) {
                Some(direction) => Ok::<PrintDirection, ParseError>(direction),
                None => Err(ParseError::InvalidHeader),
            },
    {
        PrintDirection::from_token(text.as_bytes())
    }
}

/// The modern layout value that a legacy layout value stands for: `-1` (no
/// smushing) is 0, `0` is bit 6 alone, and any other value is the same 64
/// bits read as unsigned.
pub open spec fn derived_full_layout(old_layout: i64) -> u64 {
    if old_layout == -1 {
        0
    } else if old_layout == 0 {
        64
    } else if old_layout > 0 {
        old_layout as u64
    } else {
        (old_layout + 0x1_0000_0000_0000_0000) as u64
    }
}

/// Derives the modern layout value from the legacy one.
pub fn full_layout_from_old_layout(old_layout: i64) -> (full_layout: u64)
    ensures
        full_layout == derived_full_layout(old_layout),
{
    if old_layout == -1 {
        0
    } else if old_layout == 0 {
        64
    } else if old_layout > 0 {
        old_layout as u64
    } else {
        let low: u64 = (old_layout + i64::MAX + 1) as u64;
        low + 0x8000_0000_0000_0000u64
    }
}

/// What a header holds, as plain values.
pub struct HeaderView {
    pub hard_blank_char: u8,
    pub height: usize,
    pub baseline: u64,
    pub max_length: u64,
    pub old_layout: i64,
    pub full_layout: u64,
    pub comment: Seq<char>,
    pub print_direction: Option<PrintDirection>,
    pub codetag_count: Option<u64>,
}

/// The header of a font. Its height is at least 1.
#[derive(Debug, PartialEq, Eq)]
pub struct Header {
    hard_blank_char: u8,
    height: usize,
    baseline: u64,
    max_length: u64,
    old_layout: i64,
    full_layout: u64,
    comment: String,
    print_direction: Option<PrintDirection>,
    codetag_count: Option<u64>,
}

impl View for Header {
    type V = HeaderView;

    closed spec fn view(&self) -> HeaderView {
        HeaderView {
            hard_blank_char: self.hard_blank_char,
            height: self.height,
            baseline: self.baseline,
            max_length: self.max_length,
            old_layout: self.old_layout,
            full_layout: self.full_layout,
            comment: self.comment@,
            print_direction: self.print_direction,
            codetag_count: self.codetag_count,
        }
    }
}

impl Header {
    #[verifier::type_invariant]
    spec fn has_rows(self) -> bool {
        self.height >= 1
    }

    /// Decodes the header that `input` stands at.
    pub fn parse(input: &mut LineReader) -> (r: Result<Header, ParseError>)
        ensures
            header_outcome(old(input)@, r, final(input)@),
    {
        parse_header(input)
    }

    /// The byte that stands for a cell which is filled but shows as blank.
    pub fn hard_blank_char(&self) -> (b: u8)
        ensures
            b == self@.hard_blank_char,
    {
        self.hard_blank_char
    }

    /// The number of rows of every character, at least 1.
    pub fn height(&self) -> (h: usize)
        ensures
            h == self@.height,
            h >= 1,
    {
        proof {
            use_type_invariant(self);
        }
        self.height
    }

    /// The row on which the characters rest.
    pub fn baseline(&self) -> (b: u64)
        ensures
            b == self@.baseline,
    {
        self.baseline
    }

    /// The declared maximal width of a character row.
    pub fn max_length(&self) -> (n: u64)
        ensures
            n == self@.max_length,
    {
        self.max_length
    }

    /// The legacy layout value.
    pub fn old_layout(&self) -> (layout: i64)
        ensures
            layout == self@.old_layout,
    {
        self.old_layout
    }

    /// The modern layout value.
    pub fn full_layout(&self) -> (layout: u64)
        ensures
            layout == self@.full_layout,
    {
        self.full_layout
    }

    /// The comment block, without the line end that closes it.
    pub fn comment<'a>(&'a self) -> (text: Cow<'a, str>)
        ensures
            text@ == self@.comment,
    {
        Cow::Borrowed(self.comment.as_str())
    }

    /// The print direction, where the header gives one.
    pub fn print_direction(&self) -> (direction: Option<PrintDirection>)
        ensures
            direction == self@.print_direction,
    {
        self.print_direction
    }

    /// The number of code-tagged characters, 0 where the header gives none.
    pub fn codetag_count(&self) -> (n: u64)
        ensures
            n == match self@.codetag_count {
                Some(count) => count,
                None => 0,
            },
    {
        match self.codetag_count {
            Some(count) => count,
            None => 0,
        }
    }
}

/// The fields of a header as far as they are known, each absent until it has
/// been read.
#[derive(Debug, Clone, Copy, PartialEq, Eq)]
pub struct HeaderBuilder {
    pub hard_blank_char: Option<u8>,
    pub height: Option<usize>,
    pub baseline: Option<u64>,
    pub max_length: Option<u64>,
    pub old_layout: Option<i64>,
    pub full_layout: Option<u64>,
    pub comment_lines: Option<usize>,
    pub print_direction: Option<PrintDirection>,
    pub codetag_count: Option<u64>,
}

impl Default for HeaderBuilder {
    fn default() -> (builder: Self)
        ensures
            builder == HeaderBuilder::empty(),
    {
        HeaderBuilder {
            hard_blank_char: None,
            height: None,
            baseline: None,
            max_length: None,
            old_layout: None,
            full_layout: None,
            comment_lines: None,
            print_direction: None,
            codetag_count: None,
        }
    }
}

/// A line without the line end that closes it: a line feed, and the carriage
/// return before it where there is one.
pub open spec fn strip_line_end(raw: Seq<u8>) -> Seq<u8> {
    if raw.len() > 0 && raw.last() == LF {
        strip_cr(raw.drop_last())
    } else {
        raw
    }
}

/// The comment of `n` lines that `s` begins with, and what follows it. The
/// comment is the text of those lines as it stands, without the line end of
/// the last one. Fewer than `n` complete lines are not enough data; lines
/// that are no UTF-8 text make the header invalid.
pub open spec fn comment_block(s: Seq<u8>, n: nat) -> Result<(Seq<char>, Seq<u8>), ParseError> {
    match split_raw_lines(s, n) {
        None => Err(ParseError::NotEnoughData),
        Some((raw, rest)) => {
            let body = strip_line_end(raw);
            if valid_utf8(body) {
                Ok((decode_utf8(body), rest))
            } else {
                Err(ParseError::InvalidHeader)
            }
        },
    }
}

/// Reads a comment of `num` lines.
pub fn read_string_lines(input: &mut LineReader, num: usize) -> (r: Result<String, ParseError>)
    ensures
        match r {
            Ok(comment) => comment_block(old(input)@, num as nat) == Ok::<
                (Seq<char>, Seq<u8>),
                ParseError,
            >((comment@, final(input)@)),
            Err(e) => comment_block(old(input)@, num as nat) == Err::<
                (Seq<char>, Seq<u8>),
                ParseError,
            >(e),
        },
{
    let raw = match input.read_raw_lines(num) {
        Ok(raw) => raw,
        Err(e) => {
            return Err(e);
        },
    };
    let n = raw.len();
    let body = if n > 0 && raw[n - 1] == LF {
        if n > 1 && raw[n - 2] == CR {
            slice_subrange(raw, 0, n - 2)
        } else {
            slice_subrange(raw, 0, n - 1)
        }
    } else {
        raw
    };
    proof {
        if n > 0 && raw@[n - 1] == LF {
            assert(raw@.subrange(0, n - 1) == raw@.drop_last());
            if n > 1 && raw@[n - 2] == CR {
                assert(raw@.subrange(0, n - 2) == raw@.drop_last().drop_last());
            }
        }
        assert(body@ == strip_line_end(raw@));
    }
    match utf8_text(body) {
        Some(text) => Ok(text.to_owned()),
        None => Err(ParseError::InvalidHeader),
    }
}

impl HeaderBuilder {
    /// The builder in which every field is absent.
    pub open spec fn empty() -> HeaderBuilder {
        HeaderBuilder {
            hard_blank_char: None,
            height: None,
            baseline: None,
            max_length: None,
            old_layout: None,
            full_layout: None,
            comment_lines: None,
            print_direction: None,
            codetag_count: None,
        }
    }

    /// The number of comment lines to read: 0 where the header gives none.
    pub open spec fn comment_line_count(self) -> nat {
        match self.comment_lines {
            Some(n) => n as nat,
            None => 0,
        }
    }

    /// Whether every required field is present, with a height of at least 1.
    pub open spec fn complete(self) -> bool {
        &&& self.hard_blank_char is Some
        &&& self.height is Some
        &&& self.height->0 >= 1
        &&& self.baseline is Some
        &&& self.max_length is Some
        &&& self.old_layout is Some
        &&& self.full_layout is Some
    }

    /// The header that a complete builder and a comment make.
    pub open spec fn assemble(self, comment: Seq<char>) -> HeaderView {
        HeaderView {
            hard_blank_char: self.hard_blank_char->0,
            height: self.height->0,
            baseline: self.baseline->0,
            max_length: self.max_length->0,
            old_layout: self.old_layout->0,
            full_layout: self.full_layout->0,
            comment,
            print_direction: self.print_direction,
            codetag_count: self.codetag_count,
        }
    }

    /// What `build` makes of the builder and the bytes `s` behind the header
    /// line: the header and the bytes behind the comment, or the error. The
    /// comment is read first, so its errors come before a missing field.
    pub open spec fn built(self, s: Seq<u8>) -> Result<(HeaderView, Seq<u8>), ParseError> {
        match comment_block(s, self.comment_line_count()) {
            Err(e) => Err(e),
            Ok((comment, rest)) => if self.complete() {
                Ok((self.assemble(comment), rest))
            } else {
                Err(ParseError::InvalidHeader)
            },
        }
    }

    /// Reads the comment block and finishes the header.
    pub fn build(self, input: &mut LineReader) -> (r: Result<Header, ParseError>)
        ensures
            match r {
                Ok(header) => self.built(old(input)@) == Ok::<(HeaderView, Seq<u8>), ParseError>(
                    (header@, final(input)@),
                ),
                Err(e) => self.built(old(input)@) == Err::<(HeaderView, Seq<u8>), ParseError>(e),
            },
    {
        let comment_lines = match self.comment_lines {
            Some(n) => n,
            None => 0,
        };
        let comment = match read_string_lines(input, comment_lines) {
            Ok(comment) => comment,
            Err(e) => {
                return Err(e);
            },
        };
        match (
            self.hard_blank_char,
            self.height,
            self.baseline,
            self.max_length,
            self.old_layout,
            self.full_layout,
        ) {
            (
                Some(hard_blank_char),
                Some(height),
                Some(baseline),
                Some(max_length),
                Some(old_layout),
                Some(full_layout),
            ) => {
                if height == 0 {
                    return Err(ParseError::InvalidHeader);
                }
                Ok(
                    Header {
                        hard_blank_char,
                        height,
                        baseline,
                        max_length,
                        old_layout,
                        full_layout,
                        comment,
                        print_direction: self.print_direction,
                        codetag_count: self.codetag_count,
                    },
                )
            },
            _ => Err(ParseError::InvalidHeader),
        }
    }
}

/// Whether a token begins with the signature `flf2`.
pub open spec fn has_magic(token: Seq<u8>) -> bool {
    &&& token.len() >= 4
    &&& token[0] == 0x66
    &&& token[1] == 0x6c
    &&& token[2] == 0x66
    &&& token[3] == 0x32
}

/// Whether the tokens of a header line are at most nine and each is what its
/// place asks for.
pub open spec fn tokens_well_formed(t: Seq<Seq<u8>>) -> bool {
    &&& t.len() <= 9
    &&& (t.len() > 0 ==> has_magic(t[0]))
    &&& (t.len() > 1 ==> usize_numeral(t[1]) is Some)
    &&& (t.len() > 2 ==> u64_numeral(t[2]) is Some)
    &&& (t.len() > 3 ==> u64_numeral(t[3]) is Some)
    &&& (t.len() > 4 ==> i64_numeral(t[4]) is Some)
    &&& (t.len() > 5 ==> usize_numeral(t[5]) is Some)
    &&& (t.len() > 6 ==> print_direction_of(t[6]) is Some)
    &&& (t.len() > 7 ==> u64_numeral(t[7]) is Some)
    &&& (t.len() > 8 ==> u64_numeral(t[8]) is Some)
}

/// The fields that well-formed tokens give. The full layout is the eighth
/// token where there is one, and else derived from the old layout.
pub open spec fn fields_of(t: Seq<Seq<u8>>) -> HeaderBuilder {
    HeaderBuilder {
        hard_blank_char: if t.len() > 0 {
            Some(t[0].last())
        } else {
            None
        },
        height: if t.len() > 1 {
            usize_numeral(t[1])
        } else {
            None
        },
        baseline: if t.len() > 2 {
            u64_numeral(t[2])
        } else {
            None
        },
        max_length: if t.len() > 3 {
            u64_numeral(t[3])
        } else {
            None
        },
        old_layout: if t.len() > 4 {
            i64_numeral(t[4])
        } else {
            None
        },
        full_layout: if t.len() > 7 {
            u64_numeral(t[7])
        } else if t.len() > 4 {
            Some(derived_full_layout(i64_numeral(t[4])->0))
        } else {
            None
        },
        comment_lines: if t.len() > 5 {
            usize_numeral(t[5])
        } else {
            None
        },
        print_direction: if t.len() > 6 {
            print_direction_of(t[6])
        } else {
            None
        },
        codetag_count: if t.len() > 8 {
            u64_numeral(t[8])
        } else {
            None
        },
    }
}

/// The header that the bytes `s` begin with, and the bytes behind it; or the
/// error that decoding them ends in.
pub open spec fn decode_header(s: Seq<u8>) -> Result<(HeaderView, Seq<u8>), ParseError> {
    match split_line(s) {
        None => Err(ParseError::NotEnoughData),
        Some((line, rest)) => if tokens_well_formed(tokens(line)) {
            fields_of(tokens(line)).built(rest)
        } else {
            Err(ParseError::InvalidHeader)
        },
    }
}

/// Whether decoding a header from the bytes `s` may end in `r`, with the
/// bytes `rest` left to read: on success the header and the bytes left are
/// those that `decode_header` gives, and on failure the error is. What is
/// left to read after a failure is not said.
pub open spec fn header_outcome(s: Seq<u8>, r: Result<Header, ParseError>, rest: Seq<u8>) -> bool {
    match r {
        Ok(header) => decode_header(s) == Ok::<(HeaderView, Seq<u8>), ParseError>(
            (header@, rest),
        ),
        Err(e) => decode_header(s) == Err::<(HeaderView, Seq<u8>), ParseError>(e),
    }
}

/// Whether a token begins with the signature.
fn starts_with_magic(token: &[u8]) -> (r: bool)
    ensures
        r == has_magic(token@),
{
    token.len() >= 4 && token[0] == 0x66 && token[1] == 0x6c && token[2] == 0x66 && token[3]
        == 0x32
}

/// Reads the fields of a header from the tokens of its first line.
pub fn read_fields(line_tokens: &Vec<&[u8]>) -> (r: Result<HeaderBuilder, ParseError>)
    ensures
        r == if tokens_well_formed(slices_view(line_tokens@)) {
            Ok::<HeaderBuilder, ParseError>(fields_of(slices_view(line_tokens@)))
        } else {
            Err(ParseError::InvalidHeader)
        },
{
    let n = line_tokens.len();
    if n > 9 {
        return Err(ParseError::InvalidHeader);
    }
    let mut builder = HeaderBuilder::default();
    if n > 0 {
        let token = line_tokens[0];
        if !starts_with_magic(token) {
            return Err(ParseError::InvalidHeader);
        }
        builder.hard_blank_char = Some(token[token.len() - 1]);
    }
    if n > 1 {
        builder.height = parse_usize(line_tokens[1]);
        if builder.height.is_none() {
            return Err(ParseError::InvalidHeader);
        }
    }
    if n > 2 {
        builder.baseline = parse_u64(line_tokens[2]);
        if builder.baseline.is_none() {
            return Err(ParseError::InvalidHeader);
        }
    }
    if n > 3 {
        builder.max_length = parse_u64(line_tokens[3]);
        if builder.max_length.is_none() {
            return Err(ParseError::InvalidHeader);
        }
    }
    if n > 4 {
        match parse_i64(line_tokens[4]) {
            Some(old_layout) => {
                builder.old_layout = Some(old_layout);
                builder.full_layout = Some(full_layout_from_old_layout(old_layout));
            },
            None => {
                return Err(ParseError::InvalidHeader);
            },
        }
    }
    if n > 5 {
        builder.comment_lines = parse_usize(line_tokens[5]);
        if builder.comment_lines.is_none() {
            return Err(ParseError::InvalidHeader);
        }
    }
    if n > 6 {
        match PrintDirection::from_token(line_tokens[6]) {
            Ok(direction) => {
                builder.print_direction = Some(direction);
            },
            Err(e) => {
                return Err(e);
            },
        }
    }
    if n > 7 {
        builder.full_layout = parse_u64(line_tokens[7]);
        if builder.full_layout.is_none() {
            return Err(ParseError::InvalidHeader);
        }
    }
    if n > 8 {
        builder.codetag_count = parse_u64(line_tokens[8]);
        if builder.codetag_count.is_none() {
            return Err(ParseError::InvalidHeader);
        }
    }
    Ok(builder)
}

/// Decodes the header that `input` stands at: the first line, then the
/// comment block.
pub fn parse_header(input: &mut LineReader) -> (r: Result<Header, ParseError>)
    ensures
        header_outcome(old(input)@, r, final(input)@),
{
    let line = match input.read_line() {
        Ok(line) => line,
        Err(e) => {
            return Err(e);
        },
    };
    let line_tokens = split_tokens(line);
    let builder = match read_fields(&line_tokens) {
        Ok(builder) => builder,
        Err(e) => {
            return Err(e);
        },
    };
    builder.build(input)
}

/// Decoding a header is a function of the bytes: two decodings of the same
/// bytes both succeed or both fail; where they succeed the headers hold the
/// same values and the same bytes are left, and where they fail the errors
/// are the same.
pub proof fn lemma_header_decoding_is_deterministic(
    s: Seq<u8>,
    first: Result<Header, ParseError>,
    first_rest: Seq<u8>,
    second: Result<Header, ParseError>,
    second_rest: Seq<u8>,
)
    requires
        header_outcome(s, first, first_rest),
        header_outcome(s, second, second_rest),
    ensures
        match (first, second) {
            (Ok(a), Ok(b)) => a@ == b@ && first_rest == second_rest,
            (Err(a), Err(b)) => a == b,
            _ => false,
        },
{
}

/// A first line whose first token does not begin with the signature makes
/// the header invalid, whatever else the line and the bytes behind it hold.
/// So does a first line without any token.
pub proof fn lemma_signature_is_required(s: Seq<u8>)
    requires
        split_line(s) matches Some((line, _)) && (tokens(line).len() == 0 || !has_magic(
            tokens(line)[0],
        )),
    ensures
        decode_header(s) == Err::<(HeaderView, Seq<u8>), ParseError>(ParseError::InvalidHeader),
{
}

/// The full layout of a decoded header is its eighth token where the first
/// line has one, whatever the old layout is, and is else derived from the
/// old layout.
pub proof fn lemma_full_layout(s: Seq<u8>)
    requires
        decode_header(s) is Ok,
    ensures
        decode_header(s) matches Ok((header, _)) && split_line(s) matches Some((line, _)) && ({
            let t = tokens(line);
            &&& t.len() >= 5
            &&& Some(header.old_layout) == i64_numeral(t[4])
            &&& t.len() >= 8 ==> Some(header.full_layout) == u64_numeral(t[7])
            &&& t.len() < 8 ==> header.full_layout == derived_full_layout(header.old_layout)
        }),
{
}

} // verus!
