//! Reading the bytes of a font line by line.

use crate::bytes::{find_byte, first_index, CR, LF};
use crate::error::ParseError;
use vstd::prelude::*;
use vstd::slice::slice_subrange;

verus! {

/// A line without the carriage return that may end it.
pub open spec fn strip_cr(line: Seq<u8>) -> Seq<u8> {
    if line.len() > 0 && line.last() == CR {
        line.drop_last()
    } else {
        line
    }
}

/// The first line of `s` and what follows it, where `s` holds a line feed.
/// The line is what stands before the first line feed, without that line
/// feed and without a carriage return directly before it.
pub open spec fn split_line(s: Seq<u8>) -> Option<(Seq<u8>, Seq<u8>)> {
    let k = first_index(s, LF) as int;
    if k < s.len() {
        Some((strip_cr(s.take(k)), s.skip(k + 1)))
    } else {
        None
    }
}

/// The first line of `s` and what follows it, where the line may be the last
/// one and end with `s` itself. Without a line feed all of `s` is the line,
/// byte for byte.
pub open spec fn split_last_line(s: Seq<u8>) -> (Seq<u8>, Seq<u8>) {
    match split_line(s) {
        Some(parts) => parts,
        None => (s, Seq::empty()),
    }
}

/// The first line of `s` with the line feed that ends it, and what follows.
pub open spec fn split_raw_line(s: Seq<u8>) -> Option<(Seq<u8>, Seq<u8>)> {
    let k = first_index(s, LF) as int;
    if k < s.len() {
        Some((s.take(k + 1), s.skip(k + 1)))
    } else {
        None
    }
}

/// The first `n` lines of `s` as they stand, line ends included, and what
/// follows them. Each of the `n` lines has to end in a line feed.
pub open spec fn split_raw_lines(s: Seq<u8>, n: nat) -> Option<(Seq<u8>, Seq<u8>)>
    decreases n,
{
    if n == 0 {
        Some((Seq::empty(), s))
    } else {
        match split_raw_line(s) {
            None => None,
            Some((line, rest)) => match split_raw_lines(rest, (n - 1) as nat) {
                None => None,
                Some((more, rest)) => Some((line + more, rest)),
            },
        }
    }
}

/// The bytes of a font and a position in them. Its view is what has not
/// been read yet.
pub struct LineReader<'a> {
    data: &'a [u8],
    at: usize,
}

impl<'a> View for LineReader<'a> {
    type V = Seq<u8>;

    closed spec fn view(&self) -> Seq<u8> {
        self.data@.skip(self.at as int)
    }
}

impl<'a> LineReader<'a> {
    #[verifier::type_invariant]
    spec fn in_bounds(self) -> bool {
        self.at <= self.data@.len()
    }

    /// A reader at the start of `data`.
    pub fn new(data: &'a [u8]) -> (reader: Self)
        ensures
            reader@ == data@,
    {
        proof {
            assert(data@.skip(0) == data@);
        }
        LineReader { data, at: 0 }
    }

    /// The number of bytes not read yet.
    pub fn remaining(&self) -> (n: usize)
        ensures
            n == self@.len(),
    {
        proof {
            use_type_invariant(self);
        }
        self.data.len() - self.at
    }

    /// Reads one line, which has to end in a line feed. Where none is left,
    /// the rest of the bytes is consumed and the call fails.
    pub fn read_line(&mut self) -> (r: Result<&'a [u8], ParseError>)
        ensures
            match r {
                Ok(line) => split_line(old(self)@) == Some((line@, final(self)@)),
                Err(e) => e == ParseError::NotEnoughData && split_line(old(self)@) is None
                    && final(self)@.len() == 0,
            },
    {
        proof {
            use_type_invariant(&*self);
        }
        let start = self.at;
        let end = find_byte(self.data, start, LF);
        if end >= self.data.len() {
            self.at = end;
            return Err(ParseError::NotEnoughData);
        }
        self.at = end + 1;
        proof {
            let s = self.data@.skip(start as int);
            assert(s.take(end - start) == self.data@.subrange(start as int, end as int));
            assert(s.skip(end - start + 1) == self.data@.skip(end + 1));
        }
        Ok(without_cr(slice_subrange(self.data, start, end)))
    }

    /// Reads `n` lines, each of which has to end in a line feed, and returns
    /// them as they stand, line ends included. Where fewer are left, the
    /// rest of the bytes is consumed and the call fails.
    pub fn read_raw_lines(&mut self, n: usize) -> (r: Result<&'a [u8], ParseError>)
        ensures
            match r {
                Ok(raw) => split_raw_lines(old(self)@, n as nat) == Some((raw@, final(self)@)),
                Err(e) => e == ParseError::NotEnoughData && split_raw_lines(old(self)@, n as nat)
                    is None && final(self)@.len() == 0,
            },
    {
        proof {
            use_type_invariant(&*self);
        }
        let data = self.data;
        let start = self.at;
        let mut end: usize = start;
        let mut read: usize = 0;
        proof {
            match split_raw_lines(data@.skip(start as int), n as nat) {
                None => {},
                Some((more, rest)) => {
                    assert(data@.subrange(start as int, end as int) + more == more);
                },
            }
        }
        while read < n
            invariant
                start <= end <= data@.len(),
                read <= n,
                self.data == data,
                self.at == start,
                old(self)@ == data@.skip(start as int),
                split_raw_lines(data@.skip(start as int), n as nat) == match split_raw_lines(
                    data@.skip(end as int),
                    (n - read) as nat,
                ) {
                    None => None::<(Seq<u8>, Seq<u8>)>,
                    Some((more, rest)) => Some(
                        (data@.subrange(start as int, end as int) + more, rest),
                    ),
                },
            decreases n - read,
        {
            let feed = find_byte(data, end, LF);
            if feed >= data.len() {
                self.at = feed;
                return Err(ParseError::NotEnoughData);
            }
            proof {
                let s = data@.skip(end as int);
                assert(s.take(feed - end + 1) == data@.subrange(end as int, feed + 1));
                assert(s.skip(feed - end + 1) == data@.skip(feed + 1));
                match split_raw_lines(data@.skip(feed + 1), (n - read - 1) as nat) {
                    None => {},
                    Some((more, rest)) => {
                        assert(data@.subrange(start as int, end as int) + (data@.subrange(
                            end as int,
                            feed + 1,
                        ) + more) == data@.subrange(start as int, feed + 1) + more);
                    },
                }
            }
            end = feed + 1;
            read += 1;
        }
        self.at = end;
        proof {
            assert(data@.subrange(start as int, end as int) + Seq::<u8>::empty()
                == data@.subrange(start as int, end as int));
        }
        Ok(slice_subrange(data, start, end))
    }

    /// Reads one line, which ends in a line feed or with the bytes
    /// themselves.
    pub fn read_last_line(&mut self) -> (line: &'a [u8])
        ensures
            split_last_line(old(self)@) == (line@, final(self)@),
    {
        proof {
            use_type_invariant(&*self);
        }
        let start = self.at;
        let end = find_byte(self.data, start, LF);
        proof {
            let s = self.data@.skip(start as int);
            assert(s.take(end - start) == self.data@.subrange(start as int, end as int));
        }
        if end >= self.data.len() {
            self.at = end;
            proof {
                let s = self.data@.skip(start as int);
                assert(s.take(end - start) == s);
                assert(self.data@.skip(end as int) == Seq::<u8>::empty());
            }
            slice_subrange(self.data, start, end)
        } else {
            self.at = end + 1;
            proof {
                let s = self.data@.skip(start as int);
                assert(s.skip(end - start + 1) == self.data@.skip(end + 1));
            }
            without_cr(slice_subrange(self.data, start, end))
        }
    }
}

/// Drops the carriage return that may end a line.
fn without_cr<'a>(line: &'a [u8]) -> (out: &'a [u8])
    ensures
        out@ == strip_cr(line@),
{
    let n = line.len();
    if n > 0 && line[n - 1] == CR {
        let out = slice_subrange(line, 0, n - 1);
        proof {
            assert(out@ == line@.drop_last());
        }
        out
    } else {
        line
    }
}

} // verus!
