//! Two views of a JavaScript source text, both taken from its token stream:
//! the text with the content of its string and template literals masked by
//! spaces, byte for byte, and the list of the byte offsets at which its
//! literals (and, on request, its comments) lie.
//!
//! The tokenizer is `swc_ecma_parser`'s lexer. What it finds in a text is
//! taken on trust and checked against the text before it is used; everything
//! after that is verified.

use vstd::prelude::*;
use vstd::string::*;
use vstd::utf8::*;
use crate::error::Error;
use crate::lexer::{lex, lexed};
use crate::mask::{blanks_templates, has_literal, keeps_delimiters, mask_scan, masked};
use crate::positions::{are_ranges, in_order, literal_spans, pairs, scan_positions, starts_ascend};
use crate::scan::{located, scan_fault};

pub mod comments;
pub mod error;
pub mod gap;
pub mod laws;
pub mod lexer;
pub mod mask;
pub mod origin;
pub mod positions;
pub mod scan;
pub mod stream;
pub mod text;
pub mod token;

verus! {

/// Replaces the content of every string and template literal of `input` by
/// spaces, byte for byte: a string literal keeps its two quotes, a piece of
/// template text is replaced whole, and every other byte stays as it is.
/// Fails as a whole where the tokenizer reports a lexical error, or where
/// what it reports does not fit the text.
pub fn strip_literal_swc(input: String) -> (masking: Result<String, Error>)
    ensures
        match masking {
            Ok(out) => {
                &&& scan_fault(input@, lexed(input@)) is None
                &&& encode_utf8(out@) == masked(
                    encode_utf8(input@),
                    located(input@, lexed(input@)),
                )
                &&& encode_utf8(out@).len() == encode_utf8(input@).len()
                &&& keeps_delimiters(
                    encode_utf8(input@),
                    located(input@, lexed(input@)),
                    encode_utf8(out@),
                )
                &&& blanks_templates(located(input@, lexed(input@)), encode_utf8(out@))
                &&& !has_literal(located(input@, lexed(input@))) ==> out@ == input@
            },
            Err(fault) => scan_fault(input@, lexed(input@)) == Some(fault),
        },
{
    let source = input.as_str();
    if source.as_bytes().len() >= u32::MAX as usize {
        return Err(Error::SourceTooLong);
    }
    let scan = lex(source);
    mask_scan(source, &scan)
}

/// Lists where the string and template literals of `input` lie: for each in
/// turn, in the order of the text, the byte offset of its start and of its
/// end. Fails as a whole where the tokenizer reports a lexical error, or
/// where what it reports does not fit the text.
pub fn get_literal_pos_swc(input: String) -> (extraction: Result<Vec<u32>, Error>)
    ensures
        match extraction {
            Ok(positions) => {
                &&& scan_fault(input@, lexed(input@)) is None
                &&& positions@ == pairs(literal_spans(located(input@, lexed(input@))))
                &&& in_order(encode_utf8(input@), literal_spans(located(input@, lexed(input@))))
                &&& are_ranges(positions@, encode_utf8(input@).len() as int)
                &&& starts_ascend(positions@)
            },
            Err(fault) => scan_fault(input@, lexed(input@)) == Some(fault),
        },
{
    let source = input.as_str();
    if source.as_bytes().len() >= u32::MAX as usize {
        return Err(Error::SourceTooLong);
    }
    let scan = lex(source);
    scan_positions(source, &scan)
}

} // verus!
