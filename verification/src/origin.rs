//! From the tokenizer's positions to byte offsets into the source text.

use vstd::prelude::*;
use vstd::string::*;
use crate::token::{Span, Token};

verus! {

/// The position that the tokenizer gives to the first byte that it scans.
pub const FIRST_POSITION: u32 = 1;

/// The number of bytes of a byte order mark.
pub const MARK_LEN: u32 = 3;

/// Whether the text starts with the three bytes of a byte order mark.
pub open spec fn has_mark(bytes: Seq<u8>) -> bool {
    bytes.len() >= MARK_LEN && bytes[0] == 0xEF && bytes[1] == 0xBB && bytes[2] == 0xBF
}

/// The number of bytes at the start of the text that the tokenizer drops
/// before it scans: those of a byte order mark, if the text starts with
/// one.
pub open spec fn unscanned(bytes: Seq<u8>) -> int {
    if has_mark(bytes) {
        MARK_LEN as int
    } else {
        0
    }
}

impl Span {
    /// The span as byte offsets into the text, given as the tokenizer's
    /// positions: each end lies as far behind the unscanned bytes as its
    /// position lies behind the first one. There is none where a position
    /// lies before the first, or where an offset is no 32-bit number.
    pub open spec fn offsets(self, unscanned: int) -> Option<Span> {
        if FIRST_POSITION <= self.lo && FIRST_POSITION <= self.hi && self.lo - FIRST_POSITION
            + unscanned <= u32::MAX && self.hi - FIRST_POSITION + unscanned <= u32::MAX {
            Some(
                Span {
                    lo: (self.lo - FIRST_POSITION + unscanned) as u32,
                    hi: (self.hi - FIRST_POSITION + unscanned) as u32,
                },
            )
        } else {
            None
        }
    }

    /// Turns the tokenizer's positions of a span into byte offsets into a
    /// text of which the first `unscanned` bytes were not scanned.
    pub fn to_offsets(self, unscanned: u32) -> (shifted: Option<Span>)
        ensures
            shifted == self.offsets(unscanned as int),
    {
        if self.lo < FIRST_POSITION || self.hi < FIRST_POSITION {
            return None;
        }
        let lo = (self.lo - FIRST_POSITION).checked_add(unscanned);
        let hi = (self.hi - FIRST_POSITION).checked_add(unscanned);
        match (lo, hi) {
            (Some(lo), Some(hi)) => Some(Span { lo, hi }),
            _ => None,
        }
    }
}

/// The stream with every span as byte offsets into the text, if every span
/// has them.
pub open spec fn stream_offsets(raw: Seq<Token>, unscanned: int) -> Option<Seq<Token>> {
    if forall|k: int| 0 <= k < raw.len() ==> (#[trigger] raw[k]).span.offsets(unscanned) is Some {
        Some(
            Seq::new(
                raw.len(),
                |k: int| Token { kind: raw[k].kind, span: raw[k].span.offsets(unscanned).unwrap() },
            ),
        )
    } else {
        None
    }
}

/// The spans as byte offsets into the text, if every span has them.
pub open spec fn span_offsets(raw: Seq<Span>, unscanned: int) -> Option<Seq<Span>> {
    if forall|k: int| 0 <= k < raw.len() ==> (#[trigger] raw[k]).offsets(unscanned) is Some {
        Some(Seq::new(raw.len(), |k: int| raw[k].offsets(unscanned).unwrap()))
    } else {
        None
    }
}

/// Counts the bytes at the start of `input` that the tokenizer drops.
pub fn count_unscanned(input: &str) -> (count: u32)
    ensures
        count == unscanned(input.spec_bytes()),
{
    let bytes = input.as_bytes();
    if bytes.len() >= MARK_LEN as usize && bytes[0] == 0xEF && bytes[1] == 0xBB && bytes[2]
        == 0xBF {
        MARK_LEN
    } else {
        0
    }
}

/// Turns the tokenizer's positions into byte offsets, token by token.
pub fn locate_tokens(raw: &Vec<Token>, unscanned: u32) -> (located: Option<Vec<Token>>)
    ensures
        match located {
            Some(tokens) => stream_offsets(raw@, unscanned as int) == Some(tokens@),
            None => stream_offsets(raw@, unscanned as int) is None,
        },
{
    let mut tokens: Vec<Token> = Vec::new();
    let mut k: usize = 0;
    while k < raw.len()
        invariant
            k <= raw.len(),
            tokens@.len() == k,
            forall|j: int|
                0 <= j < k ==> (#[trigger] raw[j]).span.offsets(unscanned as int) == Some(
                    tokens@[j].span,
                ) && tokens@[j].kind == raw[j].kind,
        decreases raw.len() - k,
    {
        match raw[k].span.to_offsets(unscanned) {
            Some(span) => tokens.push(Token { kind: raw[k].kind, span }),
            None => {
                return None;
            },
        }
        k += 1;
    }
    assert(stream_offsets(raw@, unscanned as int).unwrap() =~= tokens@);
    Some(tokens)
}

/// Turns the tokenizer's positions into byte offsets, span by span.
pub fn locate_spans(raw: &Vec<Span>, unscanned: u32) -> (located: Option<Vec<Span>>)
    ensures
        match located {
            Some(spans) => span_offsets(raw@, unscanned as int) == Some(spans@),
            None => span_offsets(raw@, unscanned as int) is None,
        },
{
    let mut spans: Vec<Span> = Vec::new();
    let mut k: usize = 0;
    while k < raw.len()
        invariant
            k <= raw.len(),
            spans@.len() == k,
            forall|j: int|
                0 <= j < k ==> (#[trigger] raw[j]).offsets(unscanned as int) == Some(spans@[j]),
        decreases raw.len() - k,
    {
        match raw[k].to_offsets(unscanned) {
            Some(span) => spans.push(span),
            None => {
                return None;
            },
        }
        k += 1;
    }
    assert(span_offsets(raw@, unscanned as int).unwrap() =~= spans@);
    Some(spans)
}

} // verus!
