//! The MIME parser: from the lines of a message to its elements.
//!
//! Every line of a message lies in a part, which may itself lie in another
//! part; the top level of the message counts as a part too. The parser walks
//! the lines, keeps the parts it is in on a stack, and hands out header
//! fields, bodies and lines that pass through unchanged.

use vstd::prelude::*;
use vstd::slice::slice_subrange;
use vstd::utf8::encode_utf8;
use crate::ascii::{CR, HT, LF, SP};
use crate::lines::{SliceLines, after_first_line, first_line, lemma_line_len_bounds, line_len};
use crate::pattern::{captures_at, compile, regex_captures, regex_compiles, regex_source, spans_view};
use crate::scan::{
    bytes_equal,
    closes_multipart,
    is_boundary_line,
    is_closing_line,
    is_newline,
    marks_boundary,
    to_vec,
    vec_trim_end_newline,
    without_trailing_newlines,
};
use crate::text::{lowercase, string_from_utf8_lossy, to_lowercase, utf8_lossy};

verus! {

/// The pattern of the field that declares a transfer encoding.
pub const ENCODING_PATTERN: &'static str = r"Content-Transfer-Encoding:\s*([[:alnum:]-]+)";

/// The pattern of the field that declares a multipart and its boundary.
pub const BOUNDARY_PATTERN: &'static str =
    r#"^Content-Type:\s*multipart/.*boundary\s*=\s*"?([[:alnum:]'_,/:=\(\)\+\-\.\?]+)"?"#;

/// The pattern of the field that declares a content type and, at will, a
/// charset.
pub const CONTENT_TYPE_PATTERN: &'static str =
    r#"^Content-Type:\s*([^;]+)\s*(?:;\s*charset\s*=\s*"?([[:alnum:]_:\-\.]+))?"?"#;

/// The pattern of the end of one encoded-word, white space, and the start of
/// the next.
pub const WORD_GAP_PATTERN: &'static str = r"\?([^?]+)\?=\s*=\?([^?]+)\?";

/// The pattern of an encoded-word: charset, encoding and data.
pub const ENCODED_WORD_PATTERN: &'static str = r"=\?([^?]+)\?([^?]+)\?([^? \t]+)\?=";

/// Whether the regex engine accepts the five patterns of this library.
pub open spec fn patterns_compile() -> bool {
    &&& regex_compiles(ENCODING_PATTERN@, true, false)
    &&& regex_compiles(BOUNDARY_PATTERN@, true, false)
    &&& regex_compiles(CONTENT_TYPE_PATTERN@, true, false)
    &&& regex_compiles(WORD_GAP_PATTERN@, true, false)
    &&& regex_compiles(ENCODED_WORD_PATTERN@, true, false)
}

/// The compiled patterns that reading a header takes, all of them matched
/// without regard to case.
pub struct HeaderPatterns {
    encoding: regex::bytes::Regex,
    boundary: regex::bytes::Regex,
    content_type: regex::bytes::Regex,
    word_gap: regex::bytes::Regex,
    encoded_word: regex::bytes::Regex,
}

impl HeaderPatterns {
    #[verifier::type_invariant]
    spec fn well_formed(self) -> bool {
        &&& regex_source(self.encoding) == (ENCODING_PATTERN@, true, false)
        &&& regex_source(self.boundary) == (BOUNDARY_PATTERN@, true, false)
        &&& regex_source(self.content_type) == (CONTENT_TYPE_PATTERN@, true, false)
        &&& regex_source(self.word_gap) == (WORD_GAP_PATTERN@, true, false)
        &&& regex_source(self.encoded_word) == (ENCODED_WORD_PATTERN@, true, false)
    }

    /// Compiles the patterns. Fails where the engine refuses one of them.
    pub fn new() -> (r: Result<HeaderPatterns, regex::Error>)
        ensures
            r is Ok <==> patterns_compile(),
    {
        let encoding = match compile(ENCODING_PATTERN, true, false) {
            Ok(re) => re,
            Err(e) => {
                return Err(e);
            },
        };
        let boundary = match compile(BOUNDARY_PATTERN, true, false) {
            Ok(re) => re,
            Err(e) => {
                return Err(e);
            },
        };
        let content_type = match compile(CONTENT_TYPE_PATTERN, true, false) {
            Ok(re) => re,
            Err(e) => {
                return Err(e);
            },
        };
        let word_gap = match compile(WORD_GAP_PATTERN, true, false) {
            Ok(re) => re,
            Err(e) => {
                return Err(e);
            },
        };
        let encoded_word = match compile(ENCODED_WORD_PATTERN, true, false) {
            Ok(re) => re,
            Err(e) => {
                return Err(e);
            },
        };
        Ok(HeaderPatterns { encoding, boundary, content_type, word_gap, encoded_word })
    }

    /// The compiled pattern of the gap between two encoded-words.
    pub fn word_gap(&self) -> (re: &regex::bytes::Regex)
        ensures
            regex_source(*re) == (WORD_GAP_PATTERN@, true, false),
    {
        proof {
            use_type_invariant(self);
        }
        &self.word_gap
    }

    /// The compiled pattern of an encoded-word.
    pub fn encoded_word(&self) -> (re: &regex::bytes::Regex)
        ensures
            regex_source(*re) == (ENCODED_WORD_PATTERN@, true, false),
    {
        proof {
            use_type_invariant(self);
        }
        &self.encoded_word
    }
}

/// A byte string that may be absent, as a mathematical sequence.
pub open spec fn opt_view(bytes: Option<Vec<u8>>) -> Option<Seq<u8>> {
    match bytes {
        Some(b) => Some(b@),
        None => None,
    }
}

/// What is known of a part of a multipart message. The top level of a
/// message is a part too.
pub struct Part {
    /// The transfer encoding, in lower case.
    pub encoding: Option<Vec<u8>>,
    /// The content type before any `;`, in lower case.
    pub content_type: Option<Vec<u8>>,
    /// The charset, in lower case.
    pub charset: Option<Vec<u8>>,
    /// The boundary between the parts inside this one, where this part
    /// declared itself a multipart.
    pub subpart_boundary: Option<Vec<u8>>,
}

/// A part as mathematical sequences.
pub ghost struct PartView {
    pub encoding: Option<Seq<u8>>,
    pub content_type: Option<Seq<u8>>,
    pub charset: Option<Seq<u8>>,
    pub subpart_boundary: Option<Seq<u8>>,
}

impl View for Part {
    type V = PartView;

    open spec fn view(&self) -> PartView {
        PartView {
            encoding: opt_view(self.encoding),
            content_type: opt_view(self.content_type),
            charset: opt_view(self.charset),
            subpart_boundary: opt_view(self.subpart_boundary),
        }
    }
}

/// The part of which nothing is known.
pub open spec fn blank_part() -> PartView {
    PartView { encoding: None, content_type: None, charset: None, subpart_boundary: None }
}

impl Part {
    /// A part of which nothing is known yet.
    pub fn new() -> (part: Part)
        ensures
            part@ == blank_part(),
    {
        Part { encoding: None, content_type: None, charset: None, subpart_boundary: None }
    }
}

/// An element of a message, as the parser hands it out.
pub enum Element {
    /// A header field on one line: its continuation lines are joined to it.
    HeaderField { data: Vec<u8> },
    /// A run of body lines, with what the part that holds it declared.
    Body {
        data: Vec<u8>,
        encoding: Option<Vec<u8>>,
        content_type: Option<Vec<u8>>,
        charset: Option<Vec<u8>>,
    },
    /// A line that passes through unchanged: the empty line after a header,
    /// or a boundary line.
    Verbatim { data: Vec<u8> },
}

/// An element as mathematical sequences.
pub ghost enum ElementView {
    HeaderField { data: Seq<u8> },
    Body {
        data: Seq<u8>,
        encoding: Option<Seq<u8>>,
        content_type: Option<Seq<u8>>,
        charset: Option<Seq<u8>>,
    },
    Verbatim { data: Seq<u8> },
}

impl View for Element {
    type V = ElementView;

    open spec fn view(&self) -> ElementView {
        match *self {
            Element::HeaderField { data } => ElementView::HeaderField { data: data@ },
            Element::Body { data, encoding, content_type, charset } => ElementView::Body {
                data: data@,
                encoding: opt_view(encoding),
                content_type: opt_view(content_type),
                charset: opt_view(charset),
            },
            Element::Verbatim { data } => ElementView::Verbatim { data: data@ },
        }
    }
}

/// Where the parser stands: the text still to read, the stack of parts it
/// is in (the innermost last), whether it reads a header, and the boundary
/// string that is in force (empty where none is).
pub ghost struct ParserState {
    pub rest: Seq<u8>,
    pub parts: Seq<PartView>,
    pub in_header: bool,
    pub boundary: Seq<u8>,
}

/// The state in which the parser starts on a message.
pub open spec fn initial_state(text: Seq<u8>) -> ParserState {
    ParserState { rest: text, parts: seq![blank_part()], in_header: true, boundary: Seq::empty() }
}

/// What holds of every state that the parser reaches: while it reads a
/// header, or while a boundary is in force, it is inside a part.
pub open spec fn state_ok(s: ParserState) -> bool {
    &&& s.in_header ==> s.parts.len() > 0
    &&& s.boundary.len() > 0 ==> s.parts.len() > 0
}

/// Whether a line continues the header field before it: it begins with a
/// space or a tab.
pub open spec fn is_continuation(line: Seq<u8>) -> bool {
    line.len() > 0 && (line[0] == SP || line[0] == HT)
}

/// Whether a line is the empty line that ends a header: it begins with a
/// line feed or a carriage return.
pub open spec fn is_blank(line: Seq<u8>) -> bool {
    line.len() > 0 && is_newline(line[0])
}

/// The header field that begins with `field` and is continued by the
/// continuation lines at the start of `rest`. Before each continuation line
/// is joined on, the newlines before it are dropped.
pub open spec fn unfolded(field: Seq<u8>, rest: Seq<u8>) -> Seq<u8>
    decreases rest.len(),
    via unfolded_decreases
{
    if rest.len() > 0 && is_continuation(first_line(rest)) {
        unfolded(without_trailing_newlines(field) + first_line(rest), after_first_line(rest))
    } else {
        field
    }
}

#[via_fn]
proof fn unfolded_decreases(field: Seq<u8>, rest: Seq<u8>) {
    lemma_line_len_bounds(rest);
}

/// What follows the continuation lines at the start of `rest`.
pub open spec fn after_continuations(rest: Seq<u8>) -> Seq<u8>
    decreases rest.len(),
    via after_continuations_decreases
{
    if rest.len() > 0 && is_continuation(first_line(rest)) {
        after_continuations(after_first_line(rest))
    } else {
        rest
    }
}

#[via_fn]
proof fn after_continuations_decreases(rest: Seq<u8>) {
    lemma_line_len_bounds(rest);
}

/// The lines at the start of `rest` up to the next boundary line, or to the
/// end of the text.
pub open spec fn body_text(rest: Seq<u8>, boundary: Seq<u8>) -> Seq<u8>
    decreases rest.len(),
    via body_text_decreases
{
    if rest.len() > 0 && !marks_boundary(first_line(rest), boundary) {
        first_line(rest) + body_text(after_first_line(rest), boundary)
    } else {
        Seq::empty()
    }
}

#[via_fn]
proof fn body_text_decreases(rest: Seq<u8>, boundary: Seq<u8>) {
    lemma_line_len_bounds(rest);
}

/// What follows the body lines at the start of `rest`.
pub open spec fn after_body(rest: Seq<u8>, boundary: Seq<u8>) -> Seq<u8>
    decreases rest.len(),
    via after_body_decreases
{
    if rest.len() > 0 && !marks_boundary(first_line(rest), boundary) {
        after_body(after_first_line(rest), boundary)
    } else {
        rest
    }
}

#[via_fn]
proof fn after_body_decreases(rest: Seq<u8>, boundary: Seq<u8>) {
    lemma_line_len_bounds(rest);
}

/// A token in lower case: read as UTF-8, lowered, and written as UTF-8 again.
pub open spec fn lowered(token: Seq<u8>) -> Seq<u8> {
    encode_utf8(lowercase(utf8_lossy(token)))
}

/// The first match of one of this library's patterns in a header field, as
/// the spans of its first `groups` capture groups.
pub open spec fn field_captures(pattern: &str, field: Seq<u8>, groups: int) -> Option<
    Seq<Option<(int, int)>>,
> {
    regex_captures((pattern@, true, false), field, 0, groups)
}

/// The bytes that a capture group matched, where it took part in the match.
pub open spec fn group_bytes(text: Seq<u8>, spans: Seq<Option<(int, int)>>, index: int) -> Option<
    Seq<u8>,
> {
    match spans[index] {
        Some(span) => Some(text.subrange(span.0, span.1)),
        None => None,
    }
}

/// What a header field tells about the part that it stands in, and about the
/// boundary in force. The first of these that the field matches decides:
/// a transfer encoding sets the part's encoding; a multipart content type
/// sets the part's boundary and puts it in force; any other content type
/// sets the part's type and, where it names one, its charset.
pub open spec fn header_effect(field: Seq<u8>, part: PartView, boundary: Seq<u8>) -> (
    PartView,
    Seq<u8>,
) {
    if let Some(spans) = field_captures(ENCODING_PATTERN, field, 2) {
        match group_bytes(field, spans, 1) {
            Some(token) => (PartView { encoding: Some(lowered(token)), ..part }, boundary),
            None => (part, boundary),
        }
    } else if let Some(spans) = field_captures(BOUNDARY_PATTERN, field, 2) {
        match group_bytes(field, spans, 1) {
            Some(token) => (PartView { subpart_boundary: Some(token), ..part }, token),
            None => (part, boundary),
        }
    } else if let Some(spans) = field_captures(CONTENT_TYPE_PATTERN, field, 3) {
        match group_bytes(field, spans, 1) {
            Some(token) => {
                let typed = PartView { content_type: Some(lowered(token)), ..part };
                match group_bytes(field, spans, 2) {
                    Some(label) => (PartView { charset: Some(lowered(label)), ..typed }, boundary),
                    None => (typed, boundary),
                }
            },
            None => (part, boundary),
        }
    } else {
        (part, boundary)
    }
}

/// The stack of parts after a boundary line that opens a part. Under the
/// part that declared the boundary a first part is pushed; a later part
/// takes the place of its sibling before it.
pub open spec fn begin_part(parts: Seq<PartView>, boundary: Seq<u8>) -> Seq<PartView> {
    if parts.len() > 0 && parts.last().subpart_boundary == Some(boundary) {
        parts.push(blank_part())
    } else {
        parts.drop_last().push(blank_part())
    }
}

/// The stack of parts after a closing boundary line: the innermost part is
/// gone, and the part that held it has no boundary of its own any more.
pub open spec fn end_part(parts: Seq<PartView>) -> Seq<PartView> {
    let left = parts.drop_last();
    if left.len() > 0 {
        left.drop_last().push(PartView { subpart_boundary: None, ..left.last() })
    } else {
        left
    }
}

/// The boundary of the innermost part that has one; empty where none has.
pub open spec fn nearest_boundary(parts: Seq<PartView>) -> Seq<u8>
    decreases parts.len(),
{
    if parts.len() == 0 {
        Seq::empty()
    } else {
        match parts.last().subpart_boundary {
            Some(boundary) => boundary,
            None => nearest_boundary(parts.drop_last()),
        }
    }
}

/// The body element that starts at the text still to read.
pub open spec fn body_element(s: ParserState) -> ElementView {
    if s.parts.len() > 0 {
        ElementView::Body {
            data: body_text(s.rest, s.boundary),
            encoding: s.parts.last().encoding,
            content_type: s.parts.last().content_type,
            charset: s.parts.last().charset,
        }
    } else {
        ElementView::Body {
            data: body_text(s.rest, s.boundary),
            encoding: None,
            content_type: None,
            charset: None,
        }
    }
}

/// One step of the parser: the next element and the state after it, or
/// `None` at the end of the text.
pub open spec fn parse_step(s: ParserState) -> Option<(ElementView, ParserState)> {
    let line = first_line(s.rest);
    let tail = after_first_line(s.rest);
    if s.rest.len() == 0 {
        None
    } else if s.in_header && is_blank(line) {
        Some((ElementView::Verbatim { data: line }, ParserState { rest: tail, in_header: false, ..s }))
    } else if s.in_header {
        let field = unfolded(line, tail);
        let effect = header_effect(field, s.parts.last(), s.boundary);
        Some(
            (
                ElementView::HeaderField { data: field },
                ParserState {
                    rest: after_continuations(tail),
                    parts: s.parts.drop_last().push(effect.0),
                    in_header: true,
                    boundary: effect.1,
                },
            ),
        )
    } else if marks_boundary(line, s.boundary) && closes_multipart(line) {
        let parts = end_part(s.parts);
        Some(
            (
                ElementView::Verbatim { data: line },
                ParserState { rest: tail, parts, in_header: false, boundary: nearest_boundary(parts) },
            ),
        )
    } else if marks_boundary(line, s.boundary) {
        Some(
            (
                ElementView::Verbatim { data: line },
                ParserState {
                    rest: tail,
                    parts: begin_part(s.parts, s.boundary),
                    in_header: true,
                    boundary: s.boundary,
                },
            ),
        )
    } else {
        Some((body_element(s), ParserState { rest: after_body(s.rest, s.boundary), ..s }))
    }
}

/// Each step takes at least one byte off the text and keeps the state sound.
pub proof fn lemma_parse_step_progress(s: ParserState)
    requires
        state_ok(s),
    ensures
        parse_step(s) matches Some(next) ==> next.1.rest.len() < s.rest.len() && state_ok(next.1),
{
    if s.rest.len() > 0 {
        lemma_line_len_bounds(s.rest);
        let tail = after_first_line(s.rest);
        lemma_after_continuations_len(tail);
        lemma_after_body_len(s.rest, s.boundary);
        if !s.in_header && marks_boundary(first_line(s.rest), s.boundary) && closes_multipart(
            first_line(s.rest),
        ) {
            lemma_nearest_boundary_empty(end_part(s.parts));
        }
    }
}

/// Skipping continuation lines never lengthens the text.
pub proof fn lemma_after_continuations_len(rest: Seq<u8>)
    ensures
        after_continuations(rest).len() <= rest.len(),
    decreases rest.len(),
{
    lemma_line_len_bounds(rest);
    if rest.len() > 0 && is_continuation(first_line(rest)) {
        lemma_after_continuations_len(after_first_line(rest));
    }
}

/// The body and what follows it are the text: no byte is lost or added. A
/// body that starts on a line that is no boundary line is not empty.
pub proof fn lemma_after_body_len(rest: Seq<u8>, boundary: Seq<u8>)
    ensures
        body_text(rest, boundary) + after_body(rest, boundary) == rest,
        rest.len() > 0 && !marks_boundary(first_line(rest), boundary) ==> body_text(
            rest,
            boundary,
        ).len() > 0,
    decreases rest.len(),
{
    lemma_line_len_bounds(rest);
    if rest.len() > 0 && !marks_boundary(first_line(rest), boundary) {
        let tail = after_first_line(rest);
        lemma_after_body_len(tail, boundary);
        assert(first_line(rest) + tail == rest);
    }
}

/// Without a part there is no boundary.
pub proof fn lemma_nearest_boundary_empty(parts: Seq<PartView>)
    ensures
        parts.len() == 0 ==> nearest_boundary(parts).len() == 0,
{
}

/// A stack of parts as mathematical values.
pub open spec fn parts_view(parts: Seq<Part>) -> Seq<PartView> {
    Seq::new(parts.len(), |i: int| parts[i]@)
}

/// Copies a byte string that may be absent.
pub fn clone_bytes(bytes: &Option<Vec<u8>>) -> (copy: Option<Vec<u8>>)
    ensures
        opt_view(copy) == opt_view(*bytes),
{
    match bytes {
        Some(b) => Some(to_vec(b.as_slice())),
        None => None,
    }
}

/// Puts a token in lower case.
pub fn lowercase_token(token: &[u8]) -> (lower: Vec<u8>)
    ensures
        lower@ == lowered(token@),
{
    let text = string_from_utf8_lossy(token);
    let lower = to_lowercase(text.as_str());
    to_vec(lower.as_str().as_bytes())
}

/// The bytes of a capture group, where it took part in the match.
pub(crate) fn group_slice<'t>(text: &'t [u8], spans: &Vec<Option<(usize, usize)>>, index: usize) -> (r:
    Option<&'t [u8]>)
    requires
        index < spans@.len(),
        forall|i: int|
            0 <= i < spans@.len() ==> (#[trigger] spans_view(spans@)[i] matches Some(span) ==> 0
                <= span.0 <= span.1 <= text@.len()),
    ensures
        match r {
            Some(bytes) => group_bytes(text@, spans_view(spans@), index as int) == Some(bytes@),
            None => group_bytes(text@, spans_view(spans@), index as int) is None,
        },
{
    match spans[index] {
        Some(span) => Some(slice_subrange(text, span.0, span.1)),
        None => None,
    }
}

/// Takes from a header field what it tells about the part it stands in and
/// about the boundary in force.
pub fn update_part_from_header_field(
    patterns: &HeaderPatterns,
    field: &[u8],
    part: &mut Part,
    active_boundary: &mut Vec<u8>,
)
    ensures
        (final(part)@, final(active_boundary)@) == header_effect(
            field@,
            old(part)@,
            old(active_boundary)@,
        ),
{
    proof {
        use_type_invariant(patterns);
    }
    if let Some(spans) = captures_at(&patterns.encoding, field, 0, 2) {
        if let Some(token) = group_slice(field, &spans, 1) {
            part.encoding = Some(lowercase_token(token));
        }
    } else if let Some(spans) = captures_at(&patterns.boundary, field, 0, 2) {
        if let Some(token) = group_slice(field, &spans, 1) {
            part.subpart_boundary = Some(to_vec(token));
            *active_boundary = to_vec(token);
        }
    } else if let Some(spans) = captures_at(&patterns.content_type, field, 0, 3) {
        if let Some(token) = group_slice(field, &spans, 1) {
            part.content_type = Some(lowercase_token(token));
            if let Some(label) = group_slice(field, &spans, 2) {
                part.charset = Some(lowercase_token(label));
            }
        }
    }
}

/// A parser for the elements of a message. Each call of `next` hands out
/// one element.
pub struct EmailParser<'a> {
    lines: SliceLines<'a>,
    part_stack: Vec<Part>,
    in_header: bool,
    active_boundary: Vec<u8>,
    patterns: &'a HeaderPatterns,
}

impl<'a> View for EmailParser<'a> {
    type V = ParserState;

    closed spec fn view(&self) -> ParserState {
        ParserState {
            rest: self.lines.remaining(),
            parts: parts_view(self.part_stack@),
            in_header: self.in_header,
            boundary: self.active_boundary@,
        }
    }
}

impl<'a> EmailParser<'a> {
    /// A parser at the start of a message, inside the top-level part.
    pub fn new(buf: &'a [u8], patterns: &'a HeaderPatterns) -> (parser: Self)
        ensures
            parser@ == initial_state(buf@),
    {
        let mut part_stack: Vec<Part> = Vec::new();
        part_stack.push(Part::new());
        let parser = EmailParser {
            lines: SliceLines::new(buf),
            part_stack,
            in_header: true,
            active_boundary: Vec::new(),
            patterns,
        };
        proof {
            assert(parser@.parts == seq![blank_part()]);
        }
        parser
    }

    /// The content type of the innermost part.
    pub fn active_content_type(&self) -> (r: Option<Vec<u8>>)
        ensures
            opt_view(r) == if self@.parts.len() > 0 {
                self@.parts.last().content_type
            } else {
                None
            },
    {
        let n: usize = self.part_stack.len();
        if n == 0 {
            None
        } else {
            clone_bytes(&self.part_stack[n - 1].content_type)
        }
    }

    /// The transfer encoding of the innermost part.
    pub fn active_encoding(&self) -> (r: Option<Vec<u8>>)
        ensures
            opt_view(r) == if self@.parts.len() > 0 {
                self@.parts.last().encoding
            } else {
                None
            },
    {
        let n: usize = self.part_stack.len();
        if n == 0 {
            None
        } else {
            clone_bytes(&self.part_stack[n - 1].encoding)
        }
    }

    /// The charset of the innermost part.
    pub fn active_charset(&self) -> (r: Option<Vec<u8>>)
        ensures
            opt_view(r) == if self@.parts.len() > 0 {
                self@.parts.last().charset
            } else {
                None
            },
    {
        let n: usize = self.part_stack.len();
        if n == 0 {
            None
        } else {
            clone_bytes(&self.part_stack[n - 1].charset)
        }
    }

    /// Enters the part that a boundary line opens.
    pub fn begin_part(&mut self)
        requires
            old(self)@.parts.len() > 0,
        ensures
            final(self)@ == (ParserState {
                parts: begin_part(old(self)@.parts, old(self)@.boundary),
                ..old(self)@
            }),
    {
        let n: usize = self.part_stack.len();
        let first: bool = match &self.part_stack[n - 1].subpart_boundary {
            Some(b) => bytes_equal(b.as_slice(), self.active_boundary.as_slice()),
            None => false,
        };
        if !first {
            self.part_stack.pop();
        }
        self.part_stack.push(Part::new());
        proof {
            assert(self@.parts == begin_part(old(self)@.parts, old(self)@.boundary));
        }
    }

    /// Leaves the innermost part at a closing boundary line, and puts the
    /// boundary of the nearest part that has one in force.
    pub fn end_part(&mut self)
        requires
            old(self)@.parts.len() > 0,
        ensures
            final(self)@ == (ParserState {
                parts: end_part(old(self)@.parts),
                boundary: nearest_boundary(end_part(old(self)@.parts)),
                ..old(self)@
            }),
    {
        self.part_stack.pop();
        if self.part_stack.len() > 0 {
            let mut part = self.part_stack.pop().unwrap();
            part.subpart_boundary = None;
            self.part_stack.push(part);
        }
        proof {
            assert(parts_view(self.part_stack@) == end_part(old(self)@.parts));
        }
        let mut i: usize = self.part_stack.len();
        let mut found: Option<Vec<u8>> = None;
        proof {
            assert(parts_view(self.part_stack@).take(i as int) == parts_view(self.part_stack@));
        }
        while i > 0 && found.is_none()
            invariant
                i <= self.part_stack@.len(),
                match found {
                    Some(b) => b@ == nearest_boundary(parts_view(self.part_stack@)),
                    None => nearest_boundary(parts_view(self.part_stack@)) == nearest_boundary(
                        parts_view(self.part_stack@).take(i as int),
                    ),
                },
            decreases i + if found is None { 1int } else { 0int },
        {
            proof {
                let below = parts_view(self.part_stack@).take(i as int);
                assert(below.drop_last() == parts_view(self.part_stack@).take(i - 1));
            }
            match &self.part_stack[i - 1].subpart_boundary {
                Some(b) => {
                    found = Some(to_vec(b.as_slice()));
                },
                None => {
                    i = i - 1;
                },
            }
        }
        self.active_boundary = match found {
            Some(b) => b,
            None => Vec::new(),
        };
    }

    /// Takes from a header field what it tells about the innermost part.
    pub fn update_active_part_from_header_field(&mut self, field: &[u8])
        requires
            old(self)@.parts.len() > 0,
        ensures
            final(self)@ == (ParserState {
                parts: old(self)@.parts.drop_last().push(
                    header_effect(field@, old(self)@.parts.last(), old(self)@.boundary).0,
                ),
                boundary: header_effect(field@, old(self)@.parts.last(), old(self)@.boundary).1,
                ..old(self)@
            }),
    {
        let mut part = self.part_stack.pop().unwrap();
        update_part_from_header_field(self.patterns, field, &mut part, &mut self.active_boundary);
        self.part_stack.push(part);
        proof {
            assert(self@.parts == old(self)@.parts.drop_last().push(
                header_effect(field@, old(self)@.parts.last(), old(self)@.boundary).0,
            ));
        }
    }
}

impl<'a> EmailParser<'a> {
    /// Reads the continuation lines that follow the first line of a header
    /// field, and joins them onto `field`.
    fn read_continuations(&mut self, field: &mut Vec<u8>)
        ensures
            final(field)@ == unfolded(old(field)@, old(self)@.rest),
            final(self)@ == (ParserState {
                rest: after_continuations(old(self)@.rest),
                ..old(self)@
            }),
    {
        let mut more: bool = true;
        while more
            invariant
                unfolded(field@, self@.rest) == unfolded(old(field)@, old(self)@.rest),
                after_continuations(self@.rest) == after_continuations(old(self)@.rest),
                self@.parts == old(self)@.parts,
                self@.in_header == old(self)@.in_header,
                self@.boundary == old(self)@.boundary,
                !more ==> !(self@.rest.len() > 0 && is_continuation(first_line(self@.rest))),
            decreases self@.rest.len() + if more { 1int } else { 0int },
        {
            proof {
                lemma_line_len_bounds(self@.rest);
            }
            let ghost before = field@;
            let ghost rest = self@.rest;
            match self.lines.peek() {
                Some(next) => {
                    if next[0] == SP || next[0] == HT {
                        let _ = self.lines.next();
                        vec_trim_end_newline(field);
                        field.extend_from_slice(next);
                        proof {
                            assert(field@ == without_trailing_newlines(before) + first_line(rest));
                        }
                    } else {
                        more = false;
                    }
                },
                None => {
                    more = false;
                },
            }
        }
    }

    /// Reads the body lines that follow the first line of a body, and
    /// appends them to `data`.
    fn read_body_lines(&mut self, data: &mut Vec<u8>)
        ensures
            final(data)@ == old(data)@ + body_text(old(self)@.rest, old(self)@.boundary),
            final(self)@ == (ParserState {
                rest: after_body(old(self)@.rest, old(self)@.boundary),
                ..old(self)@
            }),
    {
        let mut more: bool = true;
        while more
            invariant
                data@ + body_text(self@.rest, self@.boundary) == old(data)@ + body_text(
                    old(self)@.rest,
                    old(self)@.boundary,
                ),
                after_body(self@.rest, self@.boundary) == after_body(
                    old(self)@.rest,
                    old(self)@.boundary,
                ),
                self@.parts == old(self)@.parts,
                self@.in_header == old(self)@.in_header,
                self@.boundary == old(self)@.boundary,
                !more ==> !(self@.rest.len() > 0 && !marks_boundary(
                    first_line(self@.rest),
                    self@.boundary,
                )),
            decreases self@.rest.len() + if more { 1int } else { 0int },
        {
            proof {
                lemma_line_len_bounds(self@.rest);
            }
            match self.lines.peek() {
                Some(next) => {
                    if !is_boundary_line(next, self.active_boundary.as_slice()) {
                        let _ = self.lines.next();
                        data.extend_from_slice(next);
                    } else {
                        more = false;
                    }
                },
                None => {
                    more = false;
                },
            }
        }
    }

    /// The next element of the message; `None` at its end.
    pub fn next(&mut self) -> (element: Option<Element>)
        requires
            state_ok(old(self)@),
        ensures
            state_ok(final(self)@),
            match element {
                Some(e) => parse_step(old(self)@) == Some((e@, final(self)@)),
                None => parse_step(old(self)@) is None && final(self)@ == old(self)@,
            },
    {
        proof {
            lemma_parse_step_progress(self@);
            lemma_line_len_bounds(self@.rest);
        }
        let line = match self.lines.next() {
            Some(l) => l,
            None => {
                proof {
                    assert(self@.rest == old(self)@.rest);
                }
                return None;
            },
        };
        if self.in_header {
            if line[0] == LF || line[0] == CR {
                self.in_header = false;
                return Some(Element::Verbatim { data: to_vec(line) });
            }
            let mut field = to_vec(line);
            self.read_continuations(&mut field);
            self.update_active_part_from_header_field(field.as_slice());
            return Some(Element::HeaderField { data: field });
        }
        if is_boundary_line(line, self.active_boundary.as_slice()) {
            if is_closing_line(line) {
                self.end_part();
            } else {
                self.begin_part();
                self.in_header = true;
            }
            return Some(Element::Verbatim { data: to_vec(line) });
        }
        let mut data = to_vec(line);
        self.read_body_lines(&mut data);
        let encoding = self.active_encoding();
        let content_type = self.active_content_type();
        let charset = self.active_charset();
        Some(Element::Body { data, encoding, content_type, charset })
    }
}

} // verus!
