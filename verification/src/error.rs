//! Error values reported by the library.

use vstd::prelude::*;

verus! {

/// Why a transfer-encoded byte run could not be decoded.
#[derive(Debug, Clone, Copy, PartialEq, Eq, Structural)]
pub enum DecodeError {
    /// A pad symbol stands in the first or second position of a quartet.
    IllegalPadding,
    /// The input ends inside a quartet that holds no pad symbol.
    TruncatedQuartet,
    /// The number of pad symbols that follow the first one is not the number
    /// that the position of the first one calls for.
    PaddingCount,
    /// An alphabet symbol follows the first pad symbol.
    SymbolAfterPadding,
    /// The transfer encoding is not one that the library decodes.
    UnknownEncoding,
}

/// Why a message could not be read or searched.
#[derive(Debug)]
pub enum EmailError {
    /// A regular expression could not be compiled.
    Regex(regex::Error),
}

} // verus!
