//! Conversion of text in a labeled legacy encoding to UTF-8.

use vstd::prelude::*;
use vstd::slice::slice_subrange;

verus! {

/// The label that stands in where a part declares no charset.
pub const DEFAULT_CHARSET: &'static str = "us-ascii";

/// The longest run that is handed to the charset decoder. The decoder
/// sizes its buffer at several times the input, and that computation must
/// stay within `usize`.
pub open spec fn max_convertible_len() -> int {
    (usize::MAX / 8) as int
}

/// What the charset decoder makes of `bytes` under `label`: `None` where
/// the label names no known encoding, `Some(None)` where the decoder found
/// nothing to convert and lent its input back, `Some(Some(text))` where it
/// built the UTF-8 text `text`.
pub uninterp spec fn charset_decode(label: Seq<u8>, bytes: Seq<u8>) -> Option<Option<Seq<u8>>>;

/// The outcome of a decoder call, as mathematical sequences.
pub open spec fn decoded_view(outcome: Option<Option<Vec<u8>>>) -> Option<Option<Seq<u8>>> {
    match outcome {
        None => None,
        Some(None) => Some(None),
        Some(Some(text)) => Some(Some(text@)),
    }
}

/// `charset::Charset::for_label`, then `charset::Charset::decode` on the
/// encoding found: looks the label up and decodes `bytes` to UTF-8, with a
/// byte order mark honoured and malformed input replaced. Says which of the
/// three outcomes came about, and hands back the new text where there is one.
/// The input is short enough for the decoder's size computation.
#[verifier::external_body]
pub(crate) fn decode_labeled(label: &[u8], bytes: &[u8]) -> (outcome: Option<Option<Vec<u8>>>)
    requires
        bytes@.len() <= max_convertible_len(),
    ensures
        decoded_view(outcome) == charset_decode(label@, bytes@),
{
    match charset::Charset::for_label(label) {
        Some(encoding) => match encoding.decode(bytes).0 {
            std::borrow::Cow::Owned(text) => Some(Some(text.into_bytes())),
            std::borrow::Cow::Borrowed(_) => Some(None),
        },
        None => None,
    }
}

/// A byte run converted to UTF-8 from the encoding that `label` names:
/// what the decoder built, or the run itself where the decoder found
/// nothing to convert. `None` where the label names no known encoding, and
/// for a run over the decoder's limit.
pub open spec fn converted(label: Seq<u8>, bytes: Seq<u8>) -> Option<Seq<u8>> {
    if bytes.len() > max_convertible_len() {
        None
    } else {
        match charset_decode(label, bytes) {
            Some(Some(text)) => Some(text),
            Some(None) => Some(bytes),
            None => None,
        }
    }
}

/// A byte run as UTF-8: its conversion where it has one, else the run
/// unchanged.
pub open spec fn to_utf8(label: Seq<u8>, bytes: Seq<u8>) -> Seq<u8> {
    match converted(label, bytes) {
        Some(text) => text,
        None => bytes,
    }
}

/// Replaces the tail of `out` that starts at `from` by its conversion from
/// the encoding named `label` to UTF-8. Says whether the tail has a
/// conversion; where it has none, `out` stays as it is.
pub fn convert_tail(out: &mut Vec<u8>, from: usize, label: &[u8]) -> (known: bool)
    requires
        from <= old(out)@.len(),
    ensures
        known == converted(label@, old(out)@.skip(from as int)) is Some,
        final(out)@ == old(out)@.take(from as int) + to_utf8(label@, old(out)@.skip(from as int)),
{
    let len: usize = out.len();
    if len - from > usize::MAX / 8 {
        return false;
    }
    let outcome = decode_labeled(label, slice_subrange(out.as_slice(), from, len));
    match outcome {
        Some(Some(text)) => {
            out.truncate(from);
            out.extend_from_slice(text.as_slice());
            true
        },
        Some(None) => true,
        None => false,
    }
}

} // verus!
