//! Normalization of a message for easier processing.
//!
//! Normalization puts each header field on one line, decodes MIME
//! encoded-words in the header, decodes text bodies that are base64 or
//! quoted-printable encoded, and converts all text to UTF-8.

use vstd::prelude::*;
use vstd::slice::slice_subrange;
use vstd::string::StringSliceAdditionalSpecFns;
use crate::ascii::{COLON, EQUALS, LF, LOWER_B, LOWER_Q, QUESTION, SP, UNDERSCORE, UPPER_B, UPPER_Q};
use crate::charset::{DEFAULT_CHARSET, to_utf8, convert_tail, converted};
use crate::decode::{base64_decode, base64_decode_into_buf, qp_decode, qp_decode_into_buf};
use crate::error::DecodeError;
use crate::fields::{
    HeaderFields,
    Occurrence,
    field_map,
    lemma_field_map_push,
    lemma_values_of_occurs,
    occurs,
    values_of,
};
use crate::parser::{
    Element,
    ElementView,
    EmailParser,
    HeaderPatterns,
    ParserState,
    ENCODED_WORD_PATTERN,
    WORD_GAP_PATTERN,
    group_bytes,
    group_slice,
    initial_state,
    lemma_parse_step_progress,
    lowercase_token,
    lowered,
    opt_view,
    parse_step,
    state_ok,
};
use crate::pattern::{find_match, span_end, span_start, spans_view, usable_match};
use crate::scan::{
    begins_with,
    bytes_equal,
    find_byte,
    is_first_occurrence,
    slice_trim_end_newline,
    starts_with,
    without_trailing_newlines,
};
use crate::text::{lowercase, string_from_utf8_lossy, to_lowercase, utf8_lossy};

verus! {

/// The name of the base64 transfer encoding.
pub const BASE64: &'static str = "base64";

/// The name of the quoted-printable transfer encoding.
pub const QUOTED_PRINTABLE: &'static str = "quoted-printable";

/// The name of the transfer encoding of eight-bit text.
pub const EIGHT_BIT: &'static str = "8bit";

/// The name of the transfer encoding of binary data.
pub const BINARY: &'static str = "binary";

/// What the content type of a text part begins with.
pub const TEXT_TYPE: &'static str = "text/";

/// A slice that may be absent, as a mathematical sequence.
pub open spec fn opt_slice_view(bytes: Option<&[u8]>) -> Option<Seq<u8>> {
    match bytes {
        Some(b) => Some(b@),
        None => None,
    }
}

/// A body without its transfer encoding. An encoding that the library does
/// not know is a failure.
pub open spec fn transfer_decoded(data: Seq<u8>, encoding: Option<Seq<u8>>) -> Result<
    Seq<u8>,
    DecodeError,
> {
    match encoding {
        None => Ok(data),
        Some(name) => if name == BASE64.spec_bytes() {
            base64_decode(data)
        } else if name == QUOTED_PRINTABLE.spec_bytes() {
            Ok(qp_decode(data))
        } else if name == EIGHT_BIT.spec_bytes() || name == BINARY.spec_bytes() {
            Ok(data)
        } else {
            Err(DecodeError::UnknownEncoding)
        },
    }
}

/// The label of the charset of a part: `us-ascii` where the part names none.
pub open spec fn charset_label(charset: Option<Seq<u8>>) -> Seq<u8> {
    match charset {
        Some(label) => label,
        None => DEFAULT_CHARSET.spec_bytes(),
    }
}

/// A text body as UTF-8 text: without its transfer encoding, and
/// converted from its charset. A body that does not decode stays as it is,
/// and is not converted.
pub open spec fn decoded_text(
    data: Seq<u8>,
    encoding: Option<Seq<u8>>,
    charset: Option<Seq<u8>>,
) -> Seq<u8> {
    match transfer_decoded(data, encoding) {
        Ok(bytes) => to_utf8(charset_label(charset), bytes),
        Err(_) => data,
    }
}

/// Appends `data` to `out` as UTF-8 text: decoded from the transfer
/// encoding given, and converted from the charset given.
pub fn decode_text_data_to_buf(
    data: &[u8],
    encoding: Option<&[u8]>,
    charset: Option<&[u8]>,
    out: &mut Vec<u8>,
)
    ensures
        final(out)@ == old(out)@ + decoded_text(
            data@,
            opt_slice_view(encoding),
            opt_slice_view(charset),
        ),
{
    let initial_len: usize = out.len();
    let result: Result<(), DecodeError> = match encoding {
        None => {
            out.extend_from_slice(data);
            Ok(())
        },
        Some(name) => {
            if bytes_equal(name, BASE64.as_bytes()) {
                base64_decode_into_buf(data, out)
            } else if bytes_equal(name, QUOTED_PRINTABLE.as_bytes()) {
                qp_decode_into_buf(data, out)
            } else if bytes_equal(name, EIGHT_BIT.as_bytes()) || bytes_equal(
                name,
                BINARY.as_bytes(),
            ) {
                out.extend_from_slice(data);
                Ok(())
            } else {
                Err(DecodeError::UnknownEncoding)
            }
        },
    };
    match result {
        Ok(()) => {
            let ghost decoded = out@.skip(initial_len as int);
            proof {
                let expected = transfer_decoded(data@, opt_slice_view(encoding));
                assert(decoded == expected->Ok_0);
            }
            let label: &[u8] = match charset {
                Some(label) => label,
                None => DEFAULT_CHARSET.as_bytes(),
            };
            let _ = convert_tail(out, initial_len, label);
        },
        Err(_) => {
            out.extend_from_slice(data);
        },
    }
}

/// Whether `?=`, the end of an encoded-word, stands at `index`.
pub open spec fn word_end_at(data: Seq<u8>, index: int) -> bool {
    0 <= index && index + 1 < data.len() && data[index] == QUESTION && data[index + 1] == EQUALS
}

/// Whether the bytes hold `?=`, the end of an encoded-word.
pub open spec fn holds_word_end(data: Seq<u8>) -> bool {
    exists|i: int| word_end_at(data, i)
}

/// Tests whether a byte slice may hold an encoded-word: whether it holds
/// the two bytes that end one.
pub fn maybe_contains_encoded_word(data: &[u8]) -> (r: bool)
    ensures
        r == holds_word_end(data@),
{
    let len: usize = data.len();
    let mut from: usize = 0;
    loop
        invariant
            from <= len,
            len == data@.len(),
            forall|i: int| i < from ==> !word_end_at(data@, i),
        decreases len - from,
    {
        let rest = slice_subrange(data, from, len);
        match find_byte(QUESTION, rest) {
            None => {
                proof {
                    assert forall|i: int| from <= i < len implies data@[i] != QUESTION by {
                        assert(rest@[i - from] == data@[i]);
                    }
                }
                return false;
            },
            Some(m) => {
                let at: usize = from + m;
                proof {
                    assert forall|i: int| from <= i < at implies data@[i] != QUESTION by {
                        assert(rest@[i - from] == data@[i]);
                    }
                }
                if at + 1 < len && data[at + 1] == EQUALS {
                    proof {
                        assert(word_end_at(data@, at as int));
                    }
                    return true;
                }
                from = at + 1;
            },
        }
    }
}

/// The data of a Q-encoded word with each `_` read as a space.
pub open spec fn underscores_as_spaces(data: Seq<u8>) -> Seq<u8> {
    Seq::new(
        data.len(),
        |i: int|
            if data[i] == UNDERSCORE {
                SP
            } else {
                data[i]
            },
    )
}

/// Whether the encoding of an encoded-word is the one letter given, in
/// either case.
pub open spec fn is_letter(encoding: Seq<u8>, lower: u8, upper: u8) -> bool {
    encoding.len() == 1 && (encoding[0] == lower || encoding[0] == upper)
}

/// The data of an encoded-word, decoded: `q` is quoted-printable with `_`
/// for a space, `b` is base64. Any other encoding is a failure.
pub open spec fn word_decoded(encoding: Seq<u8>, data: Seq<u8>) -> Result<Seq<u8>, DecodeError> {
    if is_letter(encoding, LOWER_Q, UPPER_Q) {
        Ok(qp_decode(underscores_as_spaces(data)))
    } else if is_letter(encoding, LOWER_B, UPPER_B) {
        base64_decode(data)
    } else {
        Err(DecodeError::UnknownEncoding)
    }
}

/// The text that an encoded-word stands for, as UTF-8. `None` where the
/// data does not decode, or the charset is not known.
pub open spec fn word_text(charset: Seq<u8>, encoding: Seq<u8>, data: Seq<u8>) -> Option<Seq<u8>> {
    match word_decoded(encoding, data) {
        Ok(bytes) => converted(lowered(charset), bytes),
        Err(_) => None,
    }
}

/// Decodes an encoded-word, given by its three parts.
pub fn decode_encoded_word(charset: &[u8], encoding: &[u8], data: &[u8]) -> (r: Option<Vec<u8>>)
    ensures
        opt_view(r) == word_text(charset@, encoding@, data@),
{
    let mut out: Vec<u8> = Vec::new();
    let letter: u8 = if encoding.len() == 1 {
        encoding[0]
    } else {
        0
    };
    let result: Result<(), DecodeError> = if letter == LOWER_Q || letter == UPPER_Q {
        let mut spaced: Vec<u8> = Vec::new();
        let mut i: usize = 0;
        while i < data.len()
            invariant
                i <= data@.len(),
                spaced@ == underscores_as_spaces(data@).take(i as int),
            decreases data@.len() - i,
        {
            let b: u8 = data[i];
            spaced.push(
                if b == UNDERSCORE {
                    SP
                } else {
                    b
                },
            );
            i = i + 1;
        }
        proof {
            assert(underscores_as_spaces(data@).take(i as int) == underscores_as_spaces(data@));
        }
        qp_decode_into_buf(spaced.as_slice(), &mut out)
    } else if letter == LOWER_B || letter == UPPER_B {
        base64_decode_into_buf(data, &mut out)
    } else {
        Err(DecodeError::UnknownEncoding)
    };
    match result {
        Ok(()) => {
            proof {
                assert(out@.skip(0) == out@);
            }
            let label = lowercase_token(charset);
            if convert_tail(&mut out, 0, label.as_slice()) {
                Some(out)
            } else {
                None
            }
        },
        Err(_) => None,
    }
}

/// What takes the place of a gap between two encoded-words: the end of the
/// first and the start of the second, with nothing between them.
pub open spec fn gap_replacement(text: Seq<u8>, spans: Seq<Option<(int, int)>>) -> Seq<u8> {
    match (group_bytes(text, spans, 1), group_bytes(text, spans, 2)) {
        (Some(left), Some(right)) => seq![QUESTION] + left + seq![
            QUESTION,
            EQUALS,
            EQUALS,
            QUESTION,
        ] + right + seq![QUESTION],
        _ => text.subrange(span_start(spans, 0), span_end(spans, 0)),
    }
}

/// The text from `from` on, with the white space between encoded-words
/// taken out: every gap, from left to right, gives way to its replacement.
pub open spec fn gaps_collapsed_from(text: Seq<u8>, from: int) -> Seq<u8>
    decreases text.len() - from,
{
    match usable_match((WORD_GAP_PATTERN@, true, false), text, from, 3) {
        Some(spans) => text.subrange(from, span_start(spans, 0)) + gap_replacement(text, spans)
            + gaps_collapsed_from(text, span_end(spans, 0)),
        None => text.subrange(from, text.len() as int),
    }
}

/// The text with the white space between encoded-words taken out.
pub open spec fn gaps_collapsed(text: Seq<u8>) -> Seq<u8> {
    gaps_collapsed_from(text, 0)
}

/// What takes the place of an encoded-word: the text it stands for, or the
/// word itself where it stands for none.
pub open spec fn word_replacement(text: Seq<u8>, spans: Seq<Option<(int, int)>>) -> Seq<u8> {
    let word = text.subrange(span_start(spans, 0), span_end(spans, 0));
    match (group_bytes(text, spans, 1), group_bytes(text, spans, 2), group_bytes(text, spans, 3)) {
        (Some(charset), Some(encoding), Some(data)) => match word_text(charset, encoding, data) {
            Some(decoded) => decoded,
            None => word,
        },
        _ => word,
    }
}

/// The text from `from` on, with every encoded-word, from left to right,
/// replaced by the text it stands for.
pub open spec fn words_decoded_from(text: Seq<u8>, from: int) -> Seq<u8>
    decreases text.len() - from,
{
    match usable_match((ENCODED_WORD_PATTERN@, true, false), text, from, 4) {
        Some(spans) => text.subrange(from, span_start(spans, 0)) + word_replacement(text, spans)
            + words_decoded_from(text, span_end(spans, 0)),
        None => text.subrange(from, text.len() as int),
    }
}

/// The text with every encoded-word replaced by the text it stands for.
pub open spec fn words_decoded(text: Seq<u8>) -> Seq<u8> {
    words_decoded_from(text, 0)
}

/// A header field as it stands in the normalized message. Where the field
/// may hold an encoded-word, first the white space between encoded-words is
/// taken out, then each encoded-word is decoded; any other field stays as
/// it is.
pub open spec fn rewritten_field(field: Seq<u8>) -> Seq<u8> {
    if holds_word_end(field) {
        words_decoded(gaps_collapsed(field))
    } else {
        field
    }
}

/// Takes the white space between encoded-words out of a header field.
pub fn collapse_word_gaps(patterns: &HeaderPatterns, text: &[u8]) -> (out: Vec<u8>)
    ensures
        out@ == gaps_collapsed(text@),
{
    let re = patterns.word_gap();
    let len: usize = text.len();
    let mut out: Vec<u8> = Vec::new();
    let mut from: usize = 0;
    loop
        invariant
            from <= len,
            len == text@.len(),
            regex_source_is(re, WORD_GAP_PATTERN),
            out@ + gaps_collapsed_from(text@, from as int) == gaps_collapsed(text@),
        decreases len - from,
    {
        match find_match(re, text, from, 3) {
            None => {
                out.extend_from_slice(slice_subrange(text, from, len));
                return out;
            },
            Some(spans) => {
                let whole = spans[0].unwrap();
                out.extend_from_slice(slice_subrange(text, from, whole.0));
                let left = group_slice(text, &spans, 1);
                let right = group_slice(text, &spans, 2);
                match (left, right) {
                    (Some(l), Some(r)) => {
                        out.push(QUESTION);
                        out.extend_from_slice(l);
                        out.push(QUESTION);
                        out.push(EQUALS);
                        out.push(EQUALS);
                        out.push(QUESTION);
                        out.extend_from_slice(r);
                        out.push(QUESTION);
                    },
                    _ => {
                        out.extend_from_slice(slice_subrange(text, whole.0, whole.1));
                    },
                }
                from = whole.1;
            },
        }
    }
}

/// Replaces each encoded-word of a header field by the text it stands for.
pub fn decode_encoded_words(patterns: &HeaderPatterns, text: &[u8]) -> (out: Vec<u8>)
    ensures
        out@ == words_decoded(text@),
{
    let re = patterns.encoded_word();
    let len: usize = text.len();
    let mut out: Vec<u8> = Vec::new();
    let mut from: usize = 0;
    loop
        invariant
            from <= len,
            len == text@.len(),
            regex_source_is(re, ENCODED_WORD_PATTERN),
            out@ + words_decoded_from(text@, from as int) == words_decoded(text@),
        decreases len - from,
    {
        match find_match(re, text, from, 4) {
            None => {
                out.extend_from_slice(slice_subrange(text, from, len));
                return out;
            },
            Some(spans) => {
                let whole = spans[0].unwrap();
                out.extend_from_slice(slice_subrange(text, from, whole.0));
                let charset = group_slice(text, &spans, 1);
                let encoding = group_slice(text, &spans, 2);
                let data = group_slice(text, &spans, 3);
                let decoded: Option<Vec<u8>> = match (charset, encoding, data) {
                    (Some(c), Some(e), Some(d)) => decode_encoded_word(c, e, d),
                    _ => None,
                };
                match decoded {
                    Some(bytes) => {
                        out.extend_from_slice(bytes.as_slice());
                    },
                    None => {
                        out.extend_from_slice(slice_subrange(text, whole.0, whole.1));
                    },
                }
                from = whole.1;
            },
        }
    }
}

/// Whether a compiled regex was built from one of this library's patterns.
pub open spec fn regex_source_is(re: &regex::bytes::Regex, pattern: &str) -> bool {
    crate::pattern::regex_source(*re) == (pattern@, true, false)
}

/// Rewrites a header field for the normalized message.
pub fn rewrite_field(patterns: &HeaderPatterns, field: &[u8]) -> (out: Vec<u8>)
    ensures
        out@ == rewritten_field(field@),
{
    if maybe_contains_encoded_word(field) {
        let collapsed = collapse_word_gaps(patterns, field);
        decode_encoded_words(patterns, collapsed.as_slice())
    } else {
        crate::scan::to_vec(field)
    }
}

/// Where `needle` first stands in `text`; the length of `text` where it
/// does not stand in it.
pub open spec fn position_of(text: Seq<u8>, needle: u8) -> int
    decreases text.len(),
{
    if text.len() == 0 || text[0] == needle {
        0
    } else {
        1 + position_of(text.skip(1), needle)
    }
}

/// The position of the first occurrence is the index of that occurrence.
pub proof fn lemma_position_of_first(text: Seq<u8>, needle: u8, index: int)
    requires
        is_first_occurrence(text, needle, index),
    ensures
        position_of(text, needle) == index,
    decreases index,
{
    if index > 0 {
        let tail = text.skip(1);
        assert forall|j: int| 0 <= j < index - 1 implies tail[j] != needle by {}
        lemma_position_of_first(tail, needle, index - 1);
    }
}

/// Without an occurrence the position is the length.
pub proof fn lemma_position_of_absent(text: Seq<u8>, needle: u8)
    requires
        forall|j: int| 0 <= j < text.len() ==> text[j] != needle,
    ensures
        position_of(text, needle) == text.len(),
    decreases text.len(),
{
    if text.len() > 0 {
        let tail = text.skip(1);
        assert forall|j: int| 0 <= j < tail.len() implies tail[j] != needle by {}
        lemma_position_of_absent(tail, needle);
    }
}

/// The name of a header field, as bytes: what stands before the first `:`
/// of the field, or all of the field without the newlines at its end where
/// it holds no `:`.
pub open spec fn field_name_bytes(field: Seq<u8>) -> Seq<u8> {
    let line = without_trailing_newlines(field);
    line.take(position_of(line, COLON))
}

/// The value of a header field, as bytes: what stands after the first `:`
/// of the field, without the newlines at its end. White space at its start
/// is kept.
pub open spec fn field_value_bytes(field: Seq<u8>) -> Option<Seq<u8>> {
    let line = without_trailing_newlines(field);
    let colon = position_of(line, COLON);
    if colon < line.len() {
        Some(line.skip(colon + 1))
    } else {
        None
    }
}

/// The occurrence that a header field records: its name in lower case, and
/// its value. A field without `:` has the empty value.
pub open spec fn field_occurrence(field: Seq<u8>) -> Occurrence {
    (
        lowercase(utf8_lossy(field_name_bytes(field))),
        match field_value_bytes(field) {
            Some(value) => utf8_lossy(value),
            None => Seq::empty(),
        },
    )
}

/// Splits a header field into its name, in lower case, and its value.
pub fn split_field(field: &[u8]) -> (r: (String, String))
    ensures
        (r.0@, r.1@) == field_occurrence(field@),
{
    let line = slice_trim_end_newline(field);
    let len: usize = line.len();
    match find_byte(COLON, line) {
        Some(colon) => {
            proof {
                lemma_position_of_first(line@, COLON, colon as int);
            }
            let name = string_from_utf8_lossy(slice_subrange(line, 0, colon));
            let value = string_from_utf8_lossy(slice_subrange(line, colon + 1, len));
            (to_lowercase(name.as_str()), value)
        },
        None => {
            proof {
                lemma_position_of_absent(line@, COLON);
                assert(line@.take(line@.len() as int) == line@);
            }
            let name = string_from_utf8_lossy(line);
            (to_lowercase(name.as_str()), String::new())
        },
    }
}

/// The normalized message after one more element. A header field is
/// rewritten. A body that is text, or of no declared type, is decoded; any
/// other body stays as it is. A line that passes through does so unchanged,
/// and always starts a line of its own: where the bytes before it do not
/// end a line, a line feed goes in first.
pub open spec fn with_element(buffer: Seq<u8>, element: ElementView) -> Seq<u8> {
    match element {
        ElementView::HeaderField { data } => buffer + rewritten_field(data),
        ElementView::Body { data, encoding, content_type, charset } => buffer + body_bytes(
            data,
            encoding,
            content_type,
            charset,
        ),
        ElementView::Verbatim { data } => on_new_line(buffer) + data,
    }
}

/// The bytes with a line feed at their end, where they are not empty and
/// have none.
pub open spec fn on_new_line(buffer: Seq<u8>) -> Seq<u8> {
    if buffer.len() > 0 && buffer.last() != LF {
        buffer.push(LF)
    } else {
        buffer
    }
}

/// Whether a part of the given content type is decoded: it is text, or it
/// declares no type.
pub open spec fn is_text(content_type: Option<Seq<u8>>) -> bool {
    match content_type {
        Some(name) => begins_with(name, TEXT_TYPE.spec_bytes()),
        None => true,
    }
}

/// A body as it stands in the normalized message.
pub open spec fn body_bytes(
    data: Seq<u8>,
    encoding: Option<Seq<u8>>,
    content_type: Option<Seq<u8>>,
    charset: Option<Seq<u8>>,
) -> Seq<u8> {
    if is_text(content_type) {
        decoded_text(data, encoding, charset)
    } else {
        data
    }
}

/// The occurrences of header fields after one more element.
pub open spec fn with_occurrence(found: Seq<Occurrence>, element: ElementView) -> Seq<Occurrence> {
    match element {
        ElementView::HeaderField { data } => found.push(field_occurrence(rewritten_field(data))),
        _ => found,
    }
}

/// The normalized message that `buffer` grows into when the parser goes on
/// from the state `s` to the end of the text.
pub open spec fn normalized_from(buffer: Seq<u8>, s: ParserState) -> Seq<u8>
    decreases s.rest.len(),
    when state_ok(s)
    via normalized_from_decreases
{
    match parse_step(s) {
        Some(next) => normalized_from(with_element(buffer, next.0), next.1),
        None => buffer,
    }
}

#[via_fn]
proof fn normalized_from_decreases(buffer: Seq<u8>, s: ParserState) {
    lemma_parse_step_progress(s);
}

/// The occurrences of header fields that `found` grows into when the parser
/// goes on from the state `s` to the end of the text.
pub open spec fn occurrences_from(found: Seq<Occurrence>, s: ParserState) -> Seq<Occurrence>
    decreases s.rest.len(),
    when state_ok(s)
    via occurrences_from_decreases
{
    match parse_step(s) {
        Some(next) => occurrences_from(with_occurrence(found, next.0), next.1),
        None => found,
    }
}

#[via_fn]
proof fn occurrences_from_decreases(found: Seq<Occurrence>, s: ParserState) {
    lemma_parse_step_progress(s);
}

/// The normalized form of a message.
pub open spec fn normalized(text: Seq<u8>) -> Seq<u8> {
    normalized_from(Seq::empty(), initial_state(text))
}

/// The occurrences of header fields in a message, in the order of the
/// message: of each field its name in lower case and its value.
pub open spec fn field_occurrences(text: Seq<u8>) -> Seq<Occurrence> {
    occurrences_from(Seq::empty(), initial_state(text))
}

/// Normalizes a message and reads its header fields.
///
/// Returns the normalized bytes and the map from field names to values.
pub fn normalize_email(data: &[u8], patterns: &HeaderPatterns) -> (r: (Vec<u8>, HeaderFields))
    ensures
        r.0@ == normalized(data@),
        r.1@ == field_map(field_occurrences(data@)),
{
    let mut parser = EmailParser::new(data, patterns);
    let mut buffer: Vec<u8> = Vec::new();
    let mut fields = HeaderFields::new();
    let ghost mut found: Seq<Occurrence> = Seq::empty();
    loop
        invariant
            state_ok(parser@),
            normalized_from(buffer@, parser@) == normalized(data@),
            occurrences_from(found, parser@) == field_occurrences(data@),
            fields@ == field_map(found),
        decreases parser@.rest.len(),
    {
        proof {
            lemma_parse_step_progress(parser@);
        }
        let ghost before = buffer@;
        match parser.next() {
            None => {
                return (buffer, fields);
            },
            Some(Element::HeaderField { data }) => {
                let field = rewrite_field(patterns, data.as_slice());
                buffer.extend_from_slice(field.as_slice());
                let (name, value) = split_field(field.as_slice());
                proof {
                    lemma_field_map_push(found, name@, value@);
                    lemma_values_of_occurs(found, name@);
                    if !occurs(found, name@) {
                        assert(values_of(found, name@).push(value@) == seq![value@]);
                    }
                    found = found.push((name@, value@));
                    assert(buffer@ == with_element(
                        before,
                        ElementView::HeaderField { data: data@ },
                    ));
                }
                fields = fields.insert(name, value);
            },
            Some(Element::Body { data, encoding, content_type, charset }) => {
                let text: bool = match &content_type {
                    Some(name) => starts_with(name.as_slice(), TEXT_TYPE.as_bytes()),
                    None => true,
                };
                if text {
                    let encoding_name: Option<&[u8]> = match &encoding {
                        Some(name) => Some(name.as_slice()),
                        None => None,
                    };
                    let label: Option<&[u8]> = match &charset {
                        Some(name) => Some(name.as_slice()),
                        None => None,
                    };
                    decode_text_data_to_buf(data.as_slice(), encoding_name, label, &mut buffer);
                } else {
                    buffer.extend_from_slice(data.as_slice());
                }
                proof {
                    assert(buffer@ == before + body_bytes(
                        data@,
                        opt_view(encoding),
                        opt_view(content_type),
                        opt_view(charset),
                    ));
                }
            },
            Some(Element::Verbatim { data }) => {
                if buffer.len() > 0 && buffer[buffer.len() - 1] != LF {
                    buffer.push(LF);
                }
                buffer.extend_from_slice(data.as_slice());
                proof {
                    assert(buffer@ == with_element(before, ElementView::Verbatim { data: data@ }));
                }
            },
        }
    }
}

} // verus!
