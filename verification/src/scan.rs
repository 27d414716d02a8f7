//! What the tokenizer made of a text, checked against the text.

use vstd::prelude::*;
use vstd::string::*;
use vstd::utf8::*;
use crate::error::Error;
use crate::origin::{count_unscanned, locate_tokens, stream_offsets, unscanned};
use crate::stream::{first_fault, lemma_first_fault_none, validate, well_formed};
use crate::token::{Scan, ScanView, Token};

verus! {

/// What is wrong with a text and the scan that the tokenizer made of it, if
/// anything: the text is too long, the tokenizer reported an error beside
/// the tokens, a token lies where no byte of the text is, or the stream has
/// a fault.
pub open spec fn scan_fault(source: Seq<char>, scan: ScanView) -> Option<Error> {
    let bytes = encode_utf8(source);
    if bytes.len() >= u32::MAX {
        Some(Error::SourceTooLong)
    } else if scan.errors > 0 {
        Some(Error::Lexical)
    } else {
        match stream_offsets(scan.tokens, unscanned(bytes)) {
            None => Some(Error::BadSpan),
            Some(tokens) => first_fault(bytes, tokens),
        }
    }
}

/// The tokens of a scan of the text with their positions as byte offsets
/// into the text.
pub open spec fn located(source: Seq<char>, scan: ScanView) -> Seq<Token> {
    stream_offsets(scan.tokens, unscanned(encode_utf8(source))).unwrap()
}

/// A scan without a fault gives a stream that is well formed over the text.
pub proof fn lemma_located_well_formed(source: Seq<char>, scan: ScanView)
    requires
        scan_fault(source, scan) is None,
    ensures
        well_formed(encode_utf8(source), located(source, scan)),
{
    lemma_first_fault_none(encode_utf8(source), located(source, scan));
}

/// Checks the scan that the tokenizer made of `input` and gives its tokens
/// with their positions as byte offsets into `input`.
pub fn locate(input: &str, scan: &Scan) -> (checked: Result<Vec<Token>, Error>)
    ensures
        match checked {
            Ok(tokens) => scan_fault(input@, scan@) is None && tokens@ == located(input@, scan@)
                && well_formed(input.spec_bytes(), tokens@),
            Err(fault) => scan_fault(input@, scan@) == Some(fault),
        },
{
    if input.as_bytes().len() >= u32::MAX as usize {
        return Err(Error::SourceTooLong);
    }
    if scan.errors > 0 {
        return Err(Error::Lexical);
    }
    match locate_tokens(&scan.tokens, count_unscanned(input)) {
        None => Err(Error::BadSpan),
        Some(tokens) => {
            proof {
                lemma_first_fault_none(input.spec_bytes(), tokens@);
            }
            match validate(input, &tokens) {
                Ok(_) => Ok(tokens),
                Err(fault) => Err(fault),
            }
        },
    }
}

} // verus!
