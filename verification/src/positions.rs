//! The Position Extractor: where the literals of a text lie.

use vstd::prelude::*;
use vstd::string::*;
use crate::error::Error;
use crate::scan::{locate, located, scan_fault};
use crate::stream::{fault_at, floor, is_slice, well_formed};
use crate::token::{Scan, Span, Token};

verus! {

/// The flat list of positions: for each span in turn, its start and then its
/// end.
pub open spec fn pairs(spans: Seq<Span>) -> Seq<u32> {
    Seq::new(
        2 * spans.len(),
        |i: int|
            if i % 2 == 0 {
                spans[i / 2].lo
            } else {
                spans[i / 2].hi
            },
    )
}

/// The spans of the string and template literals of the stream, in the
/// order of the stream.
pub open spec fn literal_spans(tokens: Seq<Token>) -> Seq<Span>
    decreases tokens.len(),
{
    if tokens.len() == 0 {
        Seq::empty()
    } else if tokens.last().kind.is_literal() {
        literal_spans(tokens.drop_last()).push(tokens.last().span)
    } else {
        literal_spans(tokens.drop_last())
    }
}

/// The pairs of a list of spans followed by another are the pairs of the
/// one followed by the pairs of the other.
pub proof fn lemma_pairs_concat(a: Seq<Span>, b: Seq<Span>)
    ensures
        pairs(a + b) == pairs(a) + pairs(b),
{
    assert(pairs(a + b) =~= pairs(a) + pairs(b));
}

/// Appends the start and the end of each span to `positions`.
pub fn push_pairs(positions: &mut Vec<u32>, spans: &Vec<Span>)
    ensures
        final(positions)@ == old(positions)@ + pairs(spans@),
{
    let mut k: usize = 0;
    assert(positions@ =~= old(positions)@ + pairs(spans@.take(0)));
    while k < spans.len()
        invariant
            k <= spans.len(),
            positions@ == old(positions)@ + pairs(spans@.take(k as int)),
        decreases spans.len() - k,
    {
        let span = spans[k];
        positions.push(span.lo);
        positions.push(span.hi);
        assert(pairs(spans@.take(k + 1)) =~= pairs(spans@.take(k as int)).push(span.lo).push(
            span.hi,
        ));
        k += 1;
    }
    assert(spans@.take(k as int) =~= spans@);
}

/// The Position Extractor: the start and the end of every string and
/// template literal of the stream, in the order of the stream.
pub fn literal_positions(tokens: &Vec<Token>) -> (positions: Vec<u32>)
    ensures
        positions@ == pairs(literal_spans(tokens@)),
{
    let mut positions: Vec<u32> = Vec::new();
    let mut k: usize = 0;
    assert(positions@ =~= pairs(literal_spans(tokens@.take(0))));
    while k < tokens.len()
        invariant
            k <= tokens.len(),
            positions@ == pairs(literal_spans(tokens@.take(k as int))),
        decreases tokens.len() - k,
    {
        let token = tokens[k];
        let ghost before = literal_spans(tokens@.take(k as int));
        assert(tokens@.take(k + 1).drop_last() =~= tokens@.take(k as int));
        match token.kind {
            crate::token::TokenKind::Str | crate::token::TokenKind::Template => {
                positions.push(token.span.lo);
                positions.push(token.span.hi);
                assert(pairs(before.push(token.span)) =~= pairs(before).push(token.span.lo).push(
                    token.span.hi,
                ));
            },
            _ => {},
        }
        k += 1;
    }
    assert(tokens@.take(k as int) =~= tokens@);
    positions
}

/// Whether the spans are slices of the text that follow one another without
/// overlap.
pub open spec fn in_order(bytes: Seq<u8>, spans: Seq<Span>) -> bool {
    &&& forall|i: int| 0 <= i < spans.len() ==> is_slice(bytes, #[trigger] spans[i])
    &&& forall|i: int, j: int|
        0 <= i < j < spans.len() ==> (#[trigger] spans[i]).hi <= (#[trigger] spans[j]).lo
}

/// The literals of a well-formed stream are slices of the text, in the order
/// of the text and without overlap.
pub proof fn lemma_literal_spans_in_order(bytes: Seq<u8>, tokens: Seq<Token>)
    requires
        well_formed(bytes, tokens),
    ensures
        in_order(bytes, literal_spans(tokens)),
        forall|i: int|
            0 <= i < literal_spans(tokens).len() ==> (#[trigger] literal_spans(tokens)[i]).hi
                <= floor(tokens, tokens.len() as int),
    decreases tokens.len(),
{
    if tokens.len() > 0 {
        let front = tokens.drop_last();
        let last = tokens.len() - 1;
        assert forall|k: int| 0 <= k < front.len() implies fault_at(bytes, front, k) is None by {
            assert(fault_at(bytes, tokens, k) is None);
        }
        lemma_literal_spans_in_order(bytes, front);
        assert(fault_at(bytes, tokens, last) is None);
        assert(floor(front, front.len() as int) == floor(tokens, last));
    }
}

/// Whether the flat list is made of pairs, each the start and the end of a
/// range of a text of `len` bytes.
pub open spec fn are_ranges(positions: Seq<u32>, len: int) -> bool {
    &&& positions.len() % 2 == 0
    &&& forall|k: int|
        0 <= k < positions.len() && k % 2 == 0 ==> (#[trigger] positions[k]) <= positions[k + 1]
            <= len
}

/// Whether the starts of the pairs of the flat list never go down.
pub open spec fn starts_ascend(positions: Seq<u32>) -> bool {
    forall|j: int, k: int|
        0 <= j <= k < positions.len() && j % 2 == 0 && k % 2 == 0 ==> (#[trigger] positions[j])
            <= (#[trigger] positions[k])
}

/// Whether every one of the spans is a slice of the text.
pub open spec fn all_slices(bytes: Seq<u8>, spans: Seq<Span>) -> bool {
    forall|i: int| 0 <= i < spans.len() ==> is_slice(bytes, #[trigger] spans[i])
}

/// The pairs of slices of a text are ranges of the text.
pub proof fn lemma_pairs_are_ranges(bytes: Seq<u8>, spans: Seq<Span>)
    requires
        all_slices(bytes, spans),
    ensures
        are_ranges(pairs(spans), bytes.len() as int),
{
    let positions = pairs(spans);
    assert forall|k: int| 0 <= k < positions.len() && k % 2 == 0 implies (#[trigger] positions[k])
        <= positions[k + 1] <= bytes.len() by {
        assert(is_slice(bytes, spans[k / 2]));
        assert((k + 1) / 2 == k / 2);
    }
}

/// The pairs of spans that follow one another have starts that never go
/// down.
pub proof fn lemma_pairs_ascend(bytes: Seq<u8>, spans: Seq<Span>)
    requires
        in_order(bytes, spans),
    ensures
        starts_ascend(pairs(spans)),
{
    let positions = pairs(spans);
    assert forall|j: int, k: int|
        0 <= j <= k < positions.len() && j % 2 == 0 && k % 2 == 0 implies (#[trigger] positions[j])
            <= (#[trigger] positions[k]) by {
        if j < k {
            assert(j / 2 < k / 2);
            assert(is_slice(bytes, spans[j / 2]));
            assert(spans[j / 2].hi <= spans[k / 2].lo);
        }
    }
}

/// The Position Extractor over the scan that the tokenizer made of `input`:
/// the start and the end of every string and template literal as byte
/// offsets into `input`, in the order of the text, or what is wrong with the
/// scan.
pub fn scan_positions(input: &str, scan: &Scan) -> (extraction: Result<Vec<u32>, Error>)
    ensures
        match extraction {
            Ok(positions) => {
                &&& scan_fault(input@, scan@) is None
                &&& positions@ == pairs(literal_spans(located(input@, scan@)))
                &&& in_order(input.spec_bytes(), literal_spans(located(input@, scan@)))
                &&& are_ranges(positions@, input.spec_bytes().len() as int)
                &&& starts_ascend(positions@)
            },
            Err(fault) => scan_fault(input@, scan@) == Some(fault),
        },
{
    match locate(input, scan) {
        Ok(tokens) => {
            proof {
                lemma_literal_spans_in_order(input.spec_bytes(), tokens@);
                lemma_pairs_are_ranges(input.spec_bytes(), literal_spans(tokens@));
                lemma_pairs_ascend(input.spec_bytes(), literal_spans(tokens@));
            }
            Ok(literal_positions(&tokens))
        },
        Err(fault) => Err(fault),
    }
}

} // verus!
