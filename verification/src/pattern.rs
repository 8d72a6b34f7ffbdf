//! Compiled regular expressions over bytes.

use vstd::prelude::*;

verus! {

/// `regex::bytes::Regex`: a compiled regular expression. Nothing is known
/// of what is inside it.
#[verifier::external_type_specification]
#[verifier::external_body]
pub struct ExRegex(regex::bytes::Regex);

/// `regex::Error`: why a pattern did not compile. Nothing is known of what
/// is inside it.
#[verifier::external_type_specification]
#[verifier::external_body]
pub struct ExRegexError(regex::Error);

/// Whether the regex engine accepts a pattern under the given options.
pub uninterp spec fn regex_compiles(
    pattern: Seq<char>,
    case_insensitive: bool,
    multi_line: bool,
) -> bool;

/// The pattern and the options that a compiled regex was built from: the
/// pattern text, then case-insensitivity, then multi-line mode.
pub uninterp spec fn regex_source(re: regex::bytes::Regex) -> (Seq<char>, bool, bool);

/// The leftmost match of a pattern in `haystack` that starts at or after
/// `start`, as the spans of its first `groups` capture groups (group 0 is
/// the whole match); `None` where nothing matches.
pub uninterp spec fn regex_captures(
    source: (Seq<char>, bool, bool),
    haystack: Seq<u8>,
    start: int,
    groups: int,
) -> Option<Seq<Option<(int, int)>>>;

/// The spans of a match laid over the search as the engine promises them:
/// one entry per group asked for, the whole match present and at or after
/// `start`, every group inside the haystack with its start before its end.
pub open spec fn spans_well_formed(
    spans: Seq<Option<(int, int)>>,
    haystack_len: int,
    start: int,
    groups: int,
) -> bool {
    &&& spans.len() == groups
    &&& forall|i: int|
        0 <= i < spans.len() ==> (#[trigger] spans[i] matches Some(span) ==> 0 <= span.0 <= span.1
            <= haystack_len)
    &&& groups > 0 ==> (spans[0] matches Some(whole) && start <= whole.0)
}

/// The spans of a `Vec`, as mathematical integers.
pub open spec fn spans_view(spans: Seq<Option<(usize, usize)>>) -> Seq<Option<(int, int)>> {
    Seq::new(
        spans.len(),
        |i: int|
            match spans[i] {
                Some(span) => Some((span.0 as int, span.1 as int)),
                None => None,
            },
    )
}

/// `regex::bytes::RegexBuilder::build`, after `case_insensitive` and
/// `multi_line` were set: compiles `pattern`. The regex that comes back
/// remembers the pattern and the options it was built from.
#[verifier::external_body]
pub(crate) fn compile(pattern: &str, case_insensitive: bool, multi_line: bool) -> (r: Result<
    regex::bytes::Regex,
    regex::Error,
>)
    ensures
        r is Ok <==> regex_compiles(pattern@, case_insensitive, multi_line),
        r matches Ok(re) ==> regex_source(re) == (pattern@, case_insensitive, multi_line),
{
    regex::bytes::RegexBuilder::new(pattern).case_insensitive(case_insensitive).multi_line(
        multi_line,
    ).build()
}

/// `regex::bytes::Regex::captures_at`: the leftmost match at or after
/// `start`, handed out as the byte offsets of its first `groups` capture
/// groups. A group that took no part in the match, or that the pattern does
/// not have, is `None`.
#[verifier::external_body]
pub(crate) fn captures_at(
    re: &regex::bytes::Regex,
    haystack: &[u8],
    start: usize,
    groups: usize,
) -> (r: Option<Vec<Option<(usize, usize)>>>)
    requires
        start <= haystack@.len(),
    ensures
        r is Some <==> regex_captures(regex_source(*re), haystack@, start as int, groups as int)
            is Some,
        r matches Some(spans) ==> {
            &&& regex_captures(regex_source(*re), haystack@, start as int, groups as int)
                == Some(spans_view(spans@))
            &&& spans_well_formed(
                spans_view(spans@),
                haystack@.len() as int,
                start as int,
                groups as int,
            )
        },
{
    re.captures_at(haystack, start).map(
        |caps| (0..groups).map(|i| caps.get(i).map(|m| (m.start(), m.end()))).collect(),
    )
}

/// Where the span of a capture group starts; 0 for a group that took no
/// part in the match.
pub open spec fn span_start(spans: Seq<Option<(int, int)>>, index: int) -> int {
    match spans[index] {
        Some(span) => span.0,
        None => 0,
    }
}

/// Where the span of a capture group ends; 0 for a group that took no part
/// in the match.
pub open spec fn span_end(spans: Seq<Option<(int, int)>>, index: int) -> int {
    match spans[index] {
        Some(span) => span.1,
        None => 0,
    }
}

/// The leftmost match at or after `from` that can be put to use: its
/// spans are well formed and the whole match is not empty.
pub open spec fn usable_match(
    source: (Seq<char>, bool, bool),
    text: Seq<u8>,
    from: int,
    groups: int,
) -> Option<Seq<Option<(int, int)>>> {
    match regex_captures(source, text, from, groups) {
        Some(spans) => if groups > 0 && spans_well_formed(spans, text.len() as int, from, groups)
            && span_start(spans, 0) < span_end(spans, 0) {
            Some(spans)
        } else {
            None
        },
        None => None,
    }
}

/// Searches `text` from `from` on for the leftmost match that is not empty.
pub fn find_match(re: &regex::bytes::Regex, text: &[u8], from: usize, groups: usize) -> (r: Option<
    Vec<Option<(usize, usize)>>,
>)
    requires
        from <= text@.len(),
        groups > 0,
    ensures
        match r {
            Some(spans) => usable_match(regex_source(*re), text@, from as int, groups as int)
                == Some(spans_view(spans@)) && spans@.len() == groups && spans@[0] is Some,
            None => usable_match(regex_source(*re), text@, from as int, groups as int) is None,
        },
{
    match captures_at(re, text, from, groups) {
        Some(spans) => {
            proof {
                let _ = spans_view(spans@)[0];
            }
            match spans[0] {
                Some(whole) => {
                    if whole.0 < whole.1 {
                        Some(spans)
                    } else {
                        None
                    }
                },
                None => None,
            }
        },
        None => None,
    }
}

/// Whether a pattern matches anywhere in `haystack`.
pub uninterp spec fn regex_is_match(source: (Seq<char>, bool, bool), haystack: Seq<u8>) -> bool;

/// The names of the capture groups of a pattern, group by group; `None`
/// for a group without a name.
pub uninterp spec fn regex_capture_names(source: (Seq<char>, bool, bool)) -> Seq<Option<Seq<char>>>;

/// Which patterns of a set match in `haystack`, pattern by pattern; `None`
/// where the engine refuses the set.
pub uninterp spec fn regex_set_matches(
    patterns: Seq<Seq<char>>,
    case_insensitive: bool,
    multi_line: bool,
    haystack: Seq<u8>,
) -> Option<Seq<bool>>;

/// Group names as mathematical sequences.
pub open spec fn names_view(names: Seq<Option<String>>) -> Seq<Option<Seq<char>>> {
    Seq::new(
        names.len(),
        |i: int|
            match names[i] {
                Some(name) => Some(name@),
                None => None,
            },
    )
}

/// Patterns as mathematical sequences.
pub open spec fn patterns_view(patterns: Seq<&str>) -> Seq<Seq<char>> {
    Seq::new(patterns.len(), |i: int| patterns[i]@)
}

/// `regex::bytes::Regex::is_match`: whether the regex matches anywhere in
/// the haystack.
#[verifier::external_body]
pub(crate) fn is_match(re: &regex::bytes::Regex, haystack: &[u8]) -> (r: bool)
    ensures
        r == regex_is_match(regex_source(*re), haystack@),
{
    re.is_match(haystack)
}

/// `regex::bytes::Regex::capture_names`: the names of all capture groups in
/// the order of their opening parentheses. The first stands for the whole
/// match and has no name, so there is always at least one.
#[verifier::external_body]
pub(crate) fn capture_names(re: &regex::bytes::Regex) -> (names: Vec<Option<String>>)
    ensures
        names_view(names@) == regex_capture_names(regex_source(*re)),
        names@.len() >= 1,
{
    re.capture_names().map(|name| name.map(|text| text.to_string())).collect()
}

/// `regex::bytes::RegexSetBuilder::build`, after `case_insensitive` and
/// `multi_line` were set, then `regex::bytes::RegexSet::matches`: compiles
/// the patterns as a set and says of each whether it matches in the
/// haystack. There is one answer for each pattern.
#[verifier::external_body]
pub(crate) fn set_matches(
    patterns: &[&str],
    case_insensitive: bool,
    multi_line: bool,
    haystack: &[u8],
) -> (r: Result<Vec<bool>, regex::Error>)
    ensures
        match r {
            Ok(matched) => regex_set_matches(
                patterns_view(patterns@),
                case_insensitive,
                multi_line,
                haystack@,
            ) == Some(matched@) && matched@.len() == patterns@.len(),
            Err(_) => regex_set_matches(
                patterns_view(patterns@),
                case_insensitive,
                multi_line,
                haystack@,
            ) is None,
        },
{
    regex::bytes::RegexSetBuilder::new(patterns).case_insensitive(case_insensitive).multi_line(
        multi_line,
    ).build().map(
        |set| {
            let found = set.matches(haystack);
            (0..set.len()).map(|i| found.matched(i)).collect()
        },
    )
}

} // verus!
