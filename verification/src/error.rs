//! The one error type of the library.

use vstd::prelude::*;

verus! {

/// Why a source text, or what the tokenizer made of it, is turned down.
#[derive(Clone, Copy, Debug, PartialEq, Eq, Structural)]
pub enum Error {
    /// The source text is too long for 32-bit positions.
    SourceTooLong,
    /// The tokenizer reported a lexical error.
    Lexical,
    /// A span does not denote a slice of the source text, or it starts
    /// before the token in front of it has ended.
    BadSpan,
    /// A string literal does not begin and end with a one-byte delimiter.
    BadDelimiter,
}

} // verus!
