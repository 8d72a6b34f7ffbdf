//! Splitting a byte buffer into physical lines.

use vstd::prelude::*;
use vstd::slice::slice_subrange;
use crate::ascii::LF;
use crate::scan::{find_byte, is_first_occurrence};

verus! {

/// The length of the first physical line of `text`: up to and including the
/// first line feed, or all of `text` where it holds none.
pub open spec fn line_len(text: Seq<u8>) -> int
    decreases text.len(),
{
    if text.len() == 0 {
        0
    } else if text[0] == LF {
        1
    } else {
        1 + line_len(text.skip(1))
    }
}

/// The first physical line of `text`, its terminator included.
pub open spec fn first_line(text: Seq<u8>) -> Seq<u8> {
    text.take(line_len(text))
}

/// What follows the first physical line of `text`.
pub open spec fn after_first_line(text: Seq<u8>) -> Seq<u8> {
    text.skip(line_len(text))
}

/// The physical lines of `text`, in order. Each ends with its line feed, but
/// for the last where the text does not end with one.
pub open spec fn lines_of(text: Seq<u8>) -> Seq<Seq<u8>>
    decreases text.len(),
    via lines_of_decreases
{
    if text.len() == 0 {
        Seq::empty()
    } else {
        seq![first_line(text)] + lines_of(after_first_line(text))
    }
}

#[via_fn]
proof fn lines_of_decreases(text: Seq<u8>) {
    lemma_line_len_bounds(text);
}

/// A line is never longer than the text, and never empty unless the text is.
pub proof fn lemma_line_len_bounds(text: Seq<u8>)
    ensures
        0 <= line_len(text) <= text.len(),
        text.len() > 0 ==> line_len(text) >= 1,
    decreases text.len(),
{
    if text.len() > 0 && text[0] != LF {
        lemma_line_len_bounds(text.skip(1));
    }
}

/// The first line ends at the first line feed.
pub proof fn lemma_line_len_at_first_feed(text: Seq<u8>, index: int)
    requires
        is_first_occurrence(text, LF, index),
    ensures
        line_len(text) == index + 1,
    decreases index,
{
    if index > 0 {
        let tail = text.skip(1);
        assert forall|j: int| 0 <= j < index - 1 implies tail[j] != LF by {}
        lemma_line_len_at_first_feed(tail, index - 1);
    }
}

/// Without a line feed the first line is the whole text.
pub proof fn lemma_line_len_without_feed(text: Seq<u8>)
    requires
        forall|j: int| 0 <= j < text.len() ==> text[j] != LF,
    ensures
        line_len(text) == text.len(),
    decreases text.len(),
{
    if text.len() > 0 {
        let tail = text.skip(1);
        assert forall|j: int| 0 <= j < tail.len() implies tail[j] != LF by {}
        lemma_line_len_without_feed(tail);
    }
}

/// The lines of a text, joined, are the text: splitting loses nothing.
pub proof fn lemma_lines_cover_text(text: Seq<u8>)
    ensures
        lines_of(text).flatten() == text,
    decreases text.len(),
{
    if text.len() > 0 {
        lemma_line_len_bounds(text);
        lemma_lines_cover_text(after_first_line(text));
        let rest = lines_of(after_first_line(text));
        assert(lines_of(text).drop_first() == rest);
    }
}

/// A reader for the physical lines of a byte slice.
pub struct SliceLines<'a> {
    buf: &'a [u8],
    last: usize,
}

impl<'a> SliceLines<'a> {
    #[verifier::type_invariant]
    spec fn well_formed(self) -> bool {
        self.last <= self.buf@.len()
    }

    /// The bytes that the reader has not handed out yet.
    pub closed spec fn remaining(self) -> Seq<u8> {
        self.buf@.skip(self.last as int)
    }

    /// A reader at the start of `buf`.
    pub fn new(buf: &'a [u8]) -> (lines: Self)
        ensures
            lines.remaining() == buf@,
    {
        SliceLines { buf, last: 0 }
    }

    /// The next line, which the reader does not move past.
    pub fn peek(&self) -> (line: Option<&'a [u8]>)
        ensures
            match line {
                Some(l) => self.remaining().len() > 0 && l@ == first_line(self.remaining()),
                None => self.remaining().len() == 0,
            },
    {
        proof {
            use_type_invariant(self);
        }
        if self.last == self.buf.len() {
            return None;
        }
        let rest = slice_subrange(self.buf, self.last, self.buf.len());
        let end: usize = match find_byte(LF, rest) {
            Some(m) => {
                proof {
                    lemma_line_len_at_first_feed(rest@, m as int);
                }
                m + 1
            },
            None => {
                proof {
                    lemma_line_len_without_feed(rest@);
                }
                rest.len()
            },
        };
        Some(slice_subrange(rest, 0, end))
    }

    /// The next line, its terminator included; `None` at the end of the
    /// buffer.
    pub fn next(&mut self) -> (line: Option<&'a [u8]>)
        ensures
            match line {
                Some(l) => old(self).remaining().len() > 0 && l@ == first_line(
                    old(self).remaining(),
                ) && final(self).remaining() == after_first_line(old(self).remaining()),
                None => old(self).remaining().len() == 0 && final(self).remaining().len() == 0,
            },
    {
        proof {
            use_type_invariant(&*self);
        }
        match self.peek() {
            Some(l) => {
                proof {
                    lemma_line_len_bounds(self.remaining());
                    assert(self.last + l@.len() <= self.buf.len());
                }
                self.last = self.last + l.len();
                Some(l)
            },
            None => None,
        }
    }
}

} // verus!
