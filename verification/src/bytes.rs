//! Searching byte strings and cutting them into tokens.

use vstd::prelude::*;

verus! {

/// The ASCII space, which separates the tokens of a line.
pub const SPACE: u8 = 0x20;

/// The line feed, which ends a line.
pub const LF: u8 = 0x0a;

/// The carriage return, which may stand before a line feed.
pub const CR: u8 = 0x0d;

/// The index of the first occurrence of `b` in `s`, or the length of `s`
/// where `b` does not occur.
pub open spec fn first_index(s: Seq<u8>, b: u8) -> nat
    decreases s.len(),
{
    if s.len() == 0 || s[0] == b {
        0
    } else {
        (1 + first_index(s.drop_first(), b)) as nat
    }
}

/// `first_index` stays within the string, no earlier byte is `b`, and the
/// byte it points at is.
pub proof fn lemma_first_index(s: Seq<u8>, b: u8)
    ensures
        first_index(s, b) <= s.len(),
        forall|i: int| 0 <= i < first_index(s, b) ==> s[i] != b,
        first_index(s, b) < s.len() ==> s[first_index(s, b) as int] == b,
    decreases s.len(),
{
    if s.len() == 0 || s[0] == b {
    } else {
        let t = s.drop_first();
        lemma_first_index(t, b);
        assert forall|i: int| 0 <= i < first_index(s, b) implies s[i] != b by {
            if i > 0 {
                assert(s[i] == t[i - 1]);
            }
        }
    }
}

/// An index that no occurrence of `b` precedes, and that is the end of the
/// string or holds `b`, is `first_index`.
pub proof fn lemma_first_index_is(s: Seq<u8>, b: u8, k: int)
    requires
        0 <= k <= s.len(),
        forall|i: int| 0 <= i < k ==> s[i] != b,
        k < s.len() ==> s[k] == b,
    ensures
        first_index(s, b) == k,
{
    lemma_first_index(s, b);
    let f = first_index(s, b) as int;
    if f < k {
        assert(s[f] == b);
    } else if k < f {
        assert(s[k] == b);
    }
}

/// Finds the first occurrence of `b` in `s` at or after `from`; the result is
/// the length of `s` where there is none.
pub(crate) fn find_byte(s: &[u8], from: usize, b: u8) -> (at: usize)
    requires
        from <= s@.len(),
    ensures
        from <= at <= s@.len(),
        at == from + first_index(s@.skip(from as int), b),
{
    let mut at: usize = from;
    while at < s.len() && s[at] != b
        invariant
            from <= at <= s@.len(),
            forall|i: int| from <= i < at ==> s@[i] != b,
        decreases s@.len() - at,
    {
        at += 1;
    }
    proof {
        lemma_first_index_is(s@.skip(from as int), b, at - from);
    }
    at
}

/// The tokens of a line: its maximal runs of bytes other than the space, in
/// order. Runs of spaces separate tokens and yield none themselves.
pub open spec fn tokens(s: Seq<u8>) -> Seq<Seq<u8>>
    decreases s.len(),
{
    let k = first_index(s, SPACE) as int;
    let head = if k == 0 {
        Seq::<Seq<u8>>::empty()
    } else {
        seq![s.take(k)]
    };
    if k >= s.len() {
        head
    } else {
        head + tokens(s.skip(k + 1))
    }
}

/// Every token holds at least one byte, and none of its bytes is a space.
pub proof fn lemma_tokens_are_words(s: Seq<u8>)
    ensures
        forall|i: int|
            0 <= i < tokens(s).len() ==> (#[trigger] tokens(s)[i]).len() > 0 && !tokens(
                s,
            )[i].contains(SPACE),
    decreases s.len(),
{
    let k = first_index(s, SPACE) as int;
    lemma_first_index(s, SPACE);
    if k < s.len() {
        lemma_tokens_are_words(s.skip(k + 1));
    }
    let heads: int = if k == 0 {
        0
    } else {
        1
    };
    assert forall|i: int| 0 <= i < tokens(s).len() implies (#[trigger] tokens(s)[i]).len() > 0
        && !tokens(s)[i].contains(SPACE) by {
        if i < heads {
            let token = s.take(k);
            assert(tokens(s)[i] == token);
            if token.contains(SPACE) {
                let j = choose|j: int| 0 <= j < token.len() && token[j] == SPACE;
                assert(s[j] == SPACE);
            }
        } else {
            assert(tokens(s)[i] == tokens(s.skip(k + 1))[i - heads]);
        }
    }
}

/// The views of a vector of borrowed byte strings.
pub open spec fn slices_view(v: Seq<&[u8]>) -> Seq<Seq<u8>> {
    Seq::new(v.len(), |i: int| v[i]@)
}

/// Cuts a line into its tokens.
pub fn split_tokens<'a>(line: &'a [u8]) -> (out: Vec<&'a [u8]>)
    ensures
        slices_view(out@) == tokens(line@),
{
    let mut out: Vec<&'a [u8]> = Vec::new();
    let mut at: usize = 0;
    let mut done = false;
    proof {
        assert(line@.skip(0) == line@);
        assert(slices_view(out@) + tokens(line@) == tokens(line@));
    }
    while !done
        invariant
            at <= line@.len(),
            !done ==> tokens(line@) == slices_view(out@) + tokens(line@.skip(at as int)),
            done ==> tokens(line@) == slices_view(out@),
        decreases line@.len() - at + if done { 0int } else { 1int },
    {
        let end = find_byte(line, at, SPACE);
        let ghost rest = line@.skip(at as int);
        let ghost before = slices_view(out@);
        if end > at {
            let token = vstd::slice::slice_subrange(line, at, end);
            out.push(token);
            proof {
                assert(token@ == rest.take(end - at));
                assert(slices_view(out@) == before + seq![rest.take(end - at)]);
            }
        }
        if end >= line.len() {
            done = true;
            proof {
                assert(slices_view(out@) + Seq::<Seq<u8>>::empty() == slices_view(out@));
            }
        } else {
            proof {
                assert(rest.skip(end - at + 1) == line@.skip(end + 1));
                let tail = tokens(line@.skip(end + 1));
                if end > at {
                    assert(before + (seq![rest.take(end - at)] + tail) == (before + seq![
                        rest.take(end - at),
                    ]) + tail);
                } else {
                    assert(Seq::<Seq<u8>>::empty() + tail == tail);
                }
            }
            at = end + 1;
        }
    }
    out
}

} // verus!
