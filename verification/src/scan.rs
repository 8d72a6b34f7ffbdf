//! Searching and trimming byte sequences.

use vstd::prelude::*;
use vstd::slice::slice_subrange;
use crate::ascii::{CR, HYPHEN, LF};

verus! {

/// Whether `index` is where `needle` first occurs in `haystack`.
pub open spec fn is_first_occurrence(haystack: Seq<u8>, needle: u8, index: int) -> bool {
    &&& 0 <= index < haystack.len()
    &&& haystack[index] == needle
    &&& forall|j: int| 0 <= j < index ==> haystack[j] != needle
}

/// `memchr::memchr`: the index of the first occurrence of `needle` in
/// `haystack`, or `None` where it does not occur.
#[verifier::external_body]
pub(crate) fn find_byte(needle: u8, haystack: &[u8]) -> (r: Option<usize>)
    ensures
        match r {
            Some(index) => is_first_occurrence(haystack@, needle, index as int),
            None => forall|j: int| 0 <= j < haystack@.len() ==> haystack@[j] != needle,
        },
{
    memchr::memchr(needle, haystack)
}

/// Whether a byte ends a line: a line feed or a carriage return.
pub open spec fn is_newline(b: u8) -> bool {
    b == LF || b == CR
}

/// A line without the line feeds and carriage returns at its end.
pub open spec fn without_trailing_newlines(line: Seq<u8>) -> Seq<u8>
    decreases line.len(),
{
    if line.len() > 0 && is_newline(line.last()) {
        without_trailing_newlines(line.drop_last())
    } else {
        line
    }
}

/// What is left is a prefix of the line, ends in no newline, and only
/// newlines were cut.
pub proof fn lemma_without_trailing_newlines(line: Seq<u8>)
    ensures
        without_trailing_newlines(line).len() <= line.len(),
        without_trailing_newlines(line) == line.take(without_trailing_newlines(line).len() as int),
        without_trailing_newlines(line).len() > 0 ==> !is_newline(
            without_trailing_newlines(line).last(),
        ),
        forall|i: int|
            without_trailing_newlines(line).len() <= i < line.len() ==> is_newline(
                #[trigger] line[i],
            ),
    decreases line.len(),
{
    if line.len() > 0 && is_newline(line.last()) {
        let shorter = line.drop_last();
        lemma_without_trailing_newlines(shorter);
        let kept = without_trailing_newlines(shorter).len() as int;
        assert forall|i: int| kept <= i < line.len() implies is_newline(#[trigger] line[i]) by {
            if i < shorter.len() {
                assert(shorter[i] == line[i]);
            }
        }
    }
}

/// Removes the newline bytes at the end of a byte vector.
pub fn vec_trim_end_newline(line: &mut Vec<u8>)
    ensures
        final(line)@ == without_trailing_newlines(old(line)@),
{
    while line.len() > 0 && (line[line.len() - 1] == LF || line[line.len() - 1] == CR)
        invariant
            without_trailing_newlines(line@) == without_trailing_newlines(old(line)@),
        decreases line@.len(),
    {
        line.pop();
    }
}

/// The part of a slice before the newline bytes at its end.
pub fn slice_trim_end_newline(line: &[u8]) -> (trimmed: &[u8])
    ensures
        trimmed@ == without_trailing_newlines(line@),
{
    let mut end: usize = line.len();
    proof {
        assert(line@.take(end as int) == line@);
    }
    while end > 0 && (line[end - 1] == LF || line[end - 1] == CR)
        invariant
            end <= line@.len(),
            without_trailing_newlines(line@.take(end as int)) == without_trailing_newlines(line@),
        decreases end,
    {
        proof {
            assert(line@.take(end as int).drop_last() == line@.take(end - 1));
        }
        end = end - 1;
    }
    slice_subrange(line, 0, end)
}

/// Whether `text` begins with `prefix`.
pub open spec fn begins_with(text: Seq<u8>, prefix: Seq<u8>) -> bool {
    prefix.len() <= text.len() && text.take(prefix.len() as int) == prefix
}

/// Tests whether a slice begins with another.
pub fn starts_with(text: &[u8], prefix: &[u8]) -> (r: bool)
    ensures
        r == begins_with(text@, prefix@),
{
    if prefix.len() > text.len() {
        return false;
    }
    let mut i: usize = 0;
    while i < prefix.len()
        invariant
            i <= prefix@.len() <= text@.len(),
            text@.take(i as int) == prefix@.take(i as int),
        decreases prefix@.len() - i,
    {
        if text[i] != prefix[i] {
            return false;
        }
        i = i + 1;
    }
    proof {
        assert(prefix@.take(prefix@.len() as int) == prefix@);
    }
    true
}

/// Tests whether two slices hold the same bytes.
pub fn bytes_equal(a: &[u8], b: &[u8]) -> (r: bool)
    ensures
        r == (a@ == b@),
{
    if a.len() != b.len() {
        return false;
    }
    let r = starts_with(a, b);
    proof {
        assert(a@.take(a@.len() as int) == a@);
    }
    r
}

/// Copies a slice into a vector of its own.
pub fn to_vec(bytes: &[u8]) -> (v: Vec<u8>)
    ensures
        v@ == bytes@,
{
    let mut v: Vec<u8> = Vec::new();
    v.extend_from_slice(bytes);
    v
}

/// The two hyphens that open a boundary line, and end a closing one.
pub open spec fn dashes() -> Seq<u8> {
    seq![HYPHEN, HYPHEN]
}

/// Whether a line marks the boundary between parts. The boundary string is
/// not empty, and the line, without the newlines at its end, is `--` and the
/// boundary string, or these and `--` once more. A line that goes on in any
/// other way is no boundary line.
pub open spec fn marks_boundary(line: Seq<u8>, boundary: Seq<u8>) -> bool {
    let text = without_trailing_newlines(line);
    &&& boundary.len() > 0
    &&& (text == dashes() + boundary || text == dashes() + boundary + dashes())
}

/// Tests whether a line is a boundary line for the given boundary string.
pub fn is_boundary_line(line: &[u8], boundary: &[u8]) -> (r: bool)
    ensures
        r == marks_boundary(line@, boundary@),
{
    let text = slice_trim_end_newline(line);
    if boundary.len() == 0 || text.len() < 2 || text.len() - 2 < boundary.len() {
        return false;
    }
    let extra: usize = text.len() - 2 - boundary.len();
    if text[0] != HYPHEN || text[1] != HYPHEN || (extra != 0 && extra != 2) {
        return false;
    }
    let name_end: usize = 2 + boundary.len();
    let named: bool = bytes_equal(slice_subrange(text, 2, name_end), boundary);
    proof {
        assert((dashes() + boundary@).subrange(2, name_end as int) == boundary@);
        assert((dashes() + boundary@ + dashes()).subrange(2, name_end as int) == boundary@);
        if named && extra == 0 {
            assert(text@ == dashes() + boundary@);
        }
    }
    if extra == 0 {
        return named;
    }
    let closed: bool = text[name_end] == HYPHEN && text[name_end + 1] == HYPHEN;
    proof {
        let full = dashes() + boundary@ + dashes();
        if named && closed {
            assert(text@ == full);
        }
    }
    named && closed
}

/// Whether a boundary line closes its multipart: without the newlines at its
/// end, it ends in `--`.
pub open spec fn closes_multipart(line: Seq<u8>) -> bool {
    let text = without_trailing_newlines(line);
    text.len() >= 2 && text[text.len() - 1] == HYPHEN && text[text.len() - 2] == HYPHEN
}

/// Tests whether a boundary line is a closing one.
pub fn is_closing_line(line: &[u8]) -> (r: bool)
    ensures
        r == closes_multipart(line@),
{
    let text = slice_trim_end_newline(line);
    text.len() >= 2 && text[text.len() - 1] == HYPHEN && text[text.len() - 2] == HYPHEN
}

} // verus!
