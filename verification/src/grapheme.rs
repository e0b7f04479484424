//! The cells of a character row.
//!
//! A row is cut at every hard blank. Each hard blank becomes a blank cell;
//! the bytes between two of them are read as UTF-8 text, and each character
//! of that text becomes a cell of its own.

use crate::bytes::{find_byte, first_index, lemma_first_index};
use crate::text::utf8_text;
use vstd::prelude::*;
use vstd::seq_lib::{lemma_multiset_commutative, to_multiset_build, to_multiset_contains};
use vstd::slice::slice_subrange;
use vstd::utf8::{decode_first_scalar, decode_utf8, pop_first_scalar, valid_utf8};

verus! {

/// One cell of a character row.
#[derive(Debug, Clone, Copy, PartialEq, Eq, Structural, Hash)]
pub enum Grapheme {
    /// A cell that is filled but shows as blank: the row held the hard blank
    /// here.
    Blank,
    /// A cell that shows this character.
    Char(char),
}

/// The cell that shows `c`.
pub open spec fn char_cell(c: char) -> Grapheme {
    Grapheme::Char(c)
}

/// The cells that show the characters of a text, one for one.
pub open spec fn text_cells(text: Seq<char>) -> Seq<Grapheme> {
    Seq::new(text.len(), |i: int| char_cell(text[i]))
}

/// The cells of a row, or nothing where the bytes between two hard blanks
/// (or between a hard blank and an end of the row) are no UTF-8 text.
pub open spec fn segment(row: Seq<u8>, hard_blank: u8) -> Option<Seq<Grapheme>>
    decreases row.len(),
{
    let k = first_index(row, hard_blank) as int;
    let piece = row.take(k);
    if !valid_utf8(piece) {
        None
    } else if k >= row.len() {
        Some(text_cells(decode_utf8(piece)))
    } else {
        match segment(row.skip(k + 1), hard_blank) {
            None => None,
            Some(rest) => Some(text_cells(decode_utf8(piece)) + seq![Grapheme::Blank] + rest),
        }
    }
}

/// Appends the cells that show the characters of `text`.
fn push_text(cells: &mut Vec<Grapheme>, text: &str)
    ensures
        final(cells)@ == old(cells)@ + text_cells(text@),
{
    let ghost before = cells@;
    let chars = text.chars();
    for c in it: chars
        invariant
            it.seq() == text@,
            cells@.len() == before.len() + it.index(),
            forall|i: int| 0 <= i < before.len() ==> cells@[i] == before[i],
            forall|j: int|
                before.len() <= j < cells@.len() ==> cells@[j] == char_cell(
                    text@[j - before.len()],
                ),
    {
        cells.push(Grapheme::showing(c));
    }
    assert(cells@ =~= before + text_cells(text@));
}

impl Grapheme {
    /// The cell that shows `c`.
    pub fn showing(c: char) -> (cell: Grapheme)
        ensures
            cell == char_cell(c),
    {
        Grapheme::Char(c)
    }

    /// Whether this cell is a hard blank.
    pub fn is_blank(&self) -> (r: bool)
        ensures
            r == (*self == Grapheme::Blank),
    {
        match self {
            Grapheme::Blank => true,
            Grapheme::Char(_) => false,
        }
    }

    /// Cuts a row into its cells.
    pub fn split(row: &[u8], hard_blank: u8) -> (r: Option<Vec<Grapheme>>)
        ensures
            match r {
                Some(cells) => segment(row@, hard_blank) == Some(cells@),
                None => segment(row@, hard_blank) is None,
            },
    {
        let mut cells: Vec<Grapheme> = Vec::new();
        let mut at: usize = 0;
        let mut done = false;
        proof {
            assert(row@.skip(0) == row@);
            match segment(row@, hard_blank) {
                None => {},
                Some(rest) => {
                    assert(cells@ + rest == rest);
                },
            }
        }
        while !done
            invariant
                at <= row@.len(),
                !done ==> segment(row@, hard_blank) == match segment(
                    row@.skip(at as int),
                    hard_blank,
                ) {
                    None => None::<Seq<Grapheme>>,
                    Some(rest) => Some(cells@ + rest),
                },
                done ==> segment(row@, hard_blank) == Some(cells@),
            decreases row@.len() - at + if done { 0int } else { 1int },
        {
            let end = find_byte(row, at, hard_blank);
            let piece = slice_subrange(row, at, end);
            let ghost before = cells@;
            let ghost tail = row@.skip(at as int);
            proof {
                assert(piece@ == tail.take(end - at));
            }
            let text = match utf8_text(piece) {
                Some(text) => text,
                None => {
                    return None;
                },
            };
            push_text(&mut cells, text);
            if end >= row.len() {
                done = true;
            } else {
                cells.push(Grapheme::Blank);
                proof {
                    assert(tail.skip(end - at + 1) == row@.skip(end + 1));
                    match segment(row@.skip(end + 1), hard_blank) {
                        None => {},
                        Some(rest) => {
                            assert(before + (text_cells(text@) + seq![Grapheme::Blank] + rest)
                                == cells@ + rest);
                        },
                    }
                }
                at = end + 1;
            }
        }
        Some(cells)
    }
}

/// The cell that an ASCII byte of a row becomes.
pub open spec fn ascii_cell(b: u8, hard_blank: u8) -> Grapheme {
    if b == hard_blank {
        Grapheme::Blank
    } else {
        char_cell(b as char)
    }
}

/// Whether every byte of `s` is an ASCII character.
pub open spec fn is_ascii_bytes(s: Seq<u8>) -> bool {
    forall|i: int| 0 <= i < s.len() ==> #[trigger] s[i] < 0x80
}

/// ASCII bytes are UTF-8 text, one character to the byte.
proof fn lemma_ascii_text(bytes: Seq<u8>)
    requires
        is_ascii_bytes(bytes),
    ensures
        valid_utf8(bytes),
        decode_utf8(bytes) == Seq::new(bytes.len(), |i: int| bytes[i] as char),
    decreases bytes.len(),
{
    if bytes.len() > 0 {
        let first = bytes[0];
        let rest = pop_first_scalar(bytes);
        assert(first & 0x7f == first) by (bit_vector)
            requires
                first < 0x80,
        ;
        assert(decode_first_scalar(bytes) == first);
        assert(rest == bytes.skip(1));
        lemma_ascii_text(rest);
        assert(decode_utf8(bytes) =~= Seq::new(bytes.len(), |i: int| bytes[i] as char));
    } else {
        assert(decode_utf8(bytes) =~= Seq::new(bytes.len(), |i: int| bytes[i] as char));
    }
}

/// A row of ASCII bytes always has cells, one to the byte: a blank cell for
/// a hard blank, and for any other byte the cell that shows it.
pub proof fn lemma_ascii_row(row: Seq<u8>, hard_blank: u8)
    requires
        is_ascii_bytes(row),
    ensures
        segment(row, hard_blank) == Some(
            Seq::new(row.len(), |i: int| ascii_cell(row[i], hard_blank)),
        ),
    decreases row.len(),
{
    let k = first_index(row, hard_blank) as int;
    let piece = row.take(k);
    let cells = Seq::new(row.len(), |i: int| ascii_cell(row[i], hard_blank));
    lemma_first_index(row, hard_blank);
    lemma_ascii_text(piece);
    if k >= row.len() {
        assert(piece == row);
        assert(text_cells(decode_utf8(piece)) =~= cells);
    } else {
        let tail = row.skip(k + 1);
        lemma_ascii_row(tail, hard_blank);
        let rest = Seq::new(tail.len(), |i: int| ascii_cell(tail[i], hard_blank));
        assert(text_cells(decode_utf8(piece)) + seq![Grapheme::Blank] + rest =~= cells);
    }
}

/// A sequence of one element holds that element once.
proof fn lemma_count_in_one<A>(a: A)
    ensures
        seq![a].to_multiset().count(a) == 1,
{
    to_multiset_build(Seq::<A>::empty(), a);
    to_multiset_contains(Seq::<A>::empty(), a);
    assert(Seq::<A>::empty().push(a) == seq![a]);
}

/// The blank cells of a row are as many as its hard blanks: every hard blank
/// becomes a blank cell, and nothing else does.
pub proof fn lemma_blank_cells_are_hard_blanks(row: Seq<u8>, hard_blank: u8)
    ensures
        segment(row, hard_blank) matches Some(cells) ==> cells.to_multiset().count(
            Grapheme::Blank,
        ) == row.to_multiset().count(hard_blank),
    decreases row.len(),
{
    let k = first_index(row, hard_blank) as int;
    let piece = row.take(k);
    lemma_first_index(row, hard_blank);
    if valid_utf8(piece) {
        let shown = text_cells(decode_utf8(piece));
        to_multiset_contains(piece, hard_blank);
        to_multiset_contains(shown, Grapheme::Blank);
        if k >= row.len() {
            assert(piece == row);
        } else {
            let tail = row.skip(k + 1);
            lemma_blank_cells_are_hard_blanks(tail, hard_blank);
            match segment(tail, hard_blank) {
                None => {},
                Some(rest) => {
                    assert(row == piece + seq![hard_blank] + tail);
                    lemma_multiset_commutative(piece + seq![hard_blank], tail);
                    lemma_multiset_commutative(piece, seq![hard_blank]);
                    lemma_count_in_one(hard_blank);
                    lemma_multiset_commutative(shown + seq![Grapheme::Blank], rest);
                    lemma_multiset_commutative(shown, seq![Grapheme::Blank]);
                    lemma_count_in_one(Grapheme::Blank);
                },
            }
        }
    }
}

/// A text has no more characters than its encoding has bytes.
proof fn lemma_decoded_length(bytes: Seq<u8>)
    requires
        valid_utf8(bytes),
    ensures
        decode_utf8(bytes).len() <= bytes.len(),
    decreases bytes.len(),
{
    if bytes.len() > 0 {
        lemma_decoded_length(pop_first_scalar(bytes));
    }
}

/// A row has no more cells than bytes: a cell stands for one hard blank or
/// for one character, whatever the number of bytes that encode it.
pub proof fn lemma_cells_fit_bytes(row: Seq<u8>, hard_blank: u8)
    ensures
        segment(row, hard_blank) matches Some(cells) ==> cells.len() <= row.len(),
    decreases row.len(),
{
    let k = first_index(row, hard_blank) as int;
    let piece = row.take(k);
    lemma_first_index(row, hard_blank);
    if valid_utf8(piece) {
        lemma_decoded_length(piece);
        if k < row.len() {
            lemma_cells_fit_bytes(row.skip(k + 1), hard_blank);
        }
    }
}

} // verus!
