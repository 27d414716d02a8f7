//! Token streams over a text: when one is well formed, and what is wrong
//! with one that is not.

use vstd::prelude::*;
use vstd::string::*;
use vstd::utf8::*;
use crate::error::Error;
use crate::token::{Span, Token, TokenKind};

verus! {

/// Whether `span` denotes a slice of the text: it lies within the text, and
/// both of its ends are character boundaries.
pub open spec fn is_slice(bytes: Seq<u8>, span: Span) -> bool {
    &&& span.lo <= span.hi <= bytes.len()
    &&& is_char_boundary(bytes, span.lo as int)
    &&& is_char_boundary(bytes, span.hi as int)
}

/// Whether the first and the last byte of `span` are two different bytes,
/// each a character of its own.
pub open spec fn is_delimited(bytes: Seq<u8>, span: Span) -> bool {
    &&& span.lo + 2 <= span.hi
    &&& bytes[span.lo as int] < 0x80
    &&& bytes[span.hi - 1] < 0x80
}

/// Where the token in front of token `k` ends: no byte before this offset
/// is left for token `k`.
pub open spec fn floor(tokens: Seq<Token>, k: int) -> int {
    if k <= 0 {
        0
    } else {
        tokens[k - 1].span.hi as int
    }
}

/// What is wrong with token `k` of a stream over the text, if anything.
pub open spec fn fault_at(bytes: Seq<u8>, tokens: Seq<Token>, k: int) -> Option<Error> {
    let token = tokens[k];
    if token.kind == TokenKind::Error {
        Some(Error::Lexical)
    } else if !(floor(tokens, k) <= token.span.lo && is_slice(bytes, token.span)) {
        Some(Error::BadSpan)
    } else if token.kind == TokenKind::Str && !is_delimited(bytes, token.span) {
        Some(Error::BadDelimiter)
    } else {
        None
    }
}

/// A stream is well formed over a text when nothing is wrong with any of its
/// tokens: none is an error, and they are slices of the text that follow one
/// another without overlap, the string literals with their two delimiters.
pub open spec fn well_formed(bytes: Seq<u8>, tokens: Seq<Token>) -> bool {
    forall|k: int| 0 <= k < tokens.len() ==> fault_at(bytes, tokens, k) is None
}

/// What is wrong with the first token of the stream that anything is wrong
/// with.
pub open spec fn first_fault(bytes: Seq<u8>, tokens: Seq<Token>) -> Option<Error>
    decreases tokens.len(),
{
    if tokens.len() == 0 {
        None
    } else {
        match first_fault(bytes, tokens.drop_last()) {
            Some(fault) => Some(fault),
            None => fault_at(bytes, tokens, tokens.len() - 1),
        }
    }
}

/// A stream has a first fault exactly when it is not well formed.
pub proof fn lemma_first_fault_none(bytes: Seq<u8>, tokens: Seq<Token>)
    ensures
        first_fault(bytes, tokens) is None <==> well_formed(bytes, tokens),
    decreases tokens.len(),
{
    if tokens.len() > 0 {
        let front = tokens.drop_last();
        lemma_first_fault_none(bytes, front);
        assert forall|k: int| 0 <= k < front.len() implies fault_at(bytes, front, k) == fault_at(
            bytes,
            tokens,
            k,
        ) by {}
        if well_formed(bytes, tokens) {
            assert(well_formed(bytes, front));
        }
        if first_fault(bytes, tokens) is None {
            assert forall|k: int| 0 <= k < tokens.len() implies fault_at(bytes, tokens, k)
                is None by {
                if k < front.len() {
                    assert(fault_at(bytes, front, k) is None);
                }
            }
        }
    }
}

/// The first fault of a stream is the fault of the first of its tokens that
/// has one.
pub proof fn lemma_first_fault_at(bytes: Seq<u8>, tokens: Seq<Token>, k: int)
    requires
        0 <= k < tokens.len(),
        forall|j: int| 0 <= j < k ==> fault_at(bytes, tokens, j) is None,
        fault_at(bytes, tokens, k) is Some,
    ensures
        first_fault(bytes, tokens) == fault_at(bytes, tokens, k),
    decreases tokens.len(),
{
    let front = tokens.drop_last();
    assert forall|j: int| 0 <= j < front.len() implies fault_at(bytes, front, j) == fault_at(
        bytes,
        tokens,
        j,
    ) by {}
    if k == tokens.len() - 1 {
        assert(well_formed(bytes, front));
        lemma_first_fault_none(bytes, front);
    } else {
        lemma_first_fault_at(bytes, front, k);
    }
}

/// In a well-formed stream each token ends before any later one starts.
pub proof fn lemma_in_order(bytes: Seq<u8>, tokens: Seq<Token>, j: int, k: int)
    requires
        well_formed(bytes, tokens),
        0 <= j < k < tokens.len(),
    ensures
        tokens[j].span.hi <= tokens[k].span.lo,
    decreases k - j,
{
    assert(fault_at(bytes, tokens, k) is None);
    if j + 1 < k {
        lemma_in_order(bytes, tokens, j, k - 1);
        assert(fault_at(bytes, tokens, k - 1) is None);
    }
}

/// Checks a token stream against the text that it is said to cover.
pub fn validate(input: &str, tokens: &Vec<Token>) -> (checked: Result<(), Error>)
    ensures
        match checked {
            Ok(_) => well_formed(input.spec_bytes(), tokens@),
            Err(fault) => first_fault(input.spec_bytes(), tokens@) == Some(fault),
        },
{
    let bytes = input.as_bytes();
    let len = bytes.len();
    let mut floor: usize = 0;
    let mut k: usize = 0;
    while k < tokens.len()
        invariant
            k <= tokens.len(),
            bytes@ == input.spec_bytes(),
            len == bytes@.len(),
            floor == self::floor(tokens@, k as int),
            forall|j: int| 0 <= j < k ==> fault_at(input.spec_bytes(), tokens@, j) is None,
        decreases tokens.len() - k,
    {
        let token = tokens[k];
        let lo = token.span.lo as usize;
        let hi = token.span.hi as usize;
        let fault = match token.kind {
            TokenKind::Error => Some(Error::Lexical),
            _ => {
                if !(floor <= lo && lo <= hi && hi <= len && input.is_char_boundary(lo)
                    && input.is_char_boundary(hi)) {
                    Some(Error::BadSpan)
                } else {
                    match token.kind {
                        TokenKind::Str => {
                            if !(hi - lo >= 2 && bytes[lo] < 0x80 && bytes[hi - 1] < 0x80) {
                                Some(Error::BadDelimiter)
                            } else {
                                None
                            }
                        },
                        _ => None,
                    }
                }
            },
        };
        assert(fault == fault_at(input.spec_bytes(), tokens@, k as int));
        match fault {
            Some(fault) => {
                proof {
                    lemma_first_fault_at(input.spec_bytes(), tokens@, k as int);
                }
                return Err(fault);
            },
            None => {},
        }
        floor = hi;
        k += 1;
    }
    Ok(())
}

} // verus!
