//! The comments that the tokenizer collects: how they are drained in the
//! order of their anchors, and the position list that includes them.

use vstd::prelude::*;
use vstd::string::*;
use vstd::utf8::*;
use crate::error::Error;
use crate::lexer::{lex_with_comments, lexed_with_comments, take_comments};
use crate::origin::{count_unscanned, locate_spans, span_offsets, unscanned};
use crate::positions::{
    all_slices, are_ranges, in_order, lemma_literal_spans_in_order, lemma_pairs_are_ranges,
    lemma_pairs_concat, literal_spans, pairs, push_pairs, scan_positions, starts_ascend,
};
use crate::scan::{lemma_located_well_formed, located, scan_fault};
use crate::stream::is_slice;
use crate::token::{Scan, ScanView, Span};

verus! {

/// One more than the greatest position that a comment can be attached to.
pub const ANCHOR_END: u64 = 0x1_0000_0000;

/// The comments that the tokenizer attached to one position: before the
/// token that starts there (leading) or after the token that ends there
/// (trailing).
#[derive(Debug)]
pub struct CommentBucket {
    pub anchor: u32,
    pub comments: Vec<Span>,
}

impl CommentBucket {
    /// The bucket of the given comments at `anchor`.
    pub fn new(anchor: u32, comments: Vec<Span>) -> (bucket: CommentBucket)
        ensures
            bucket.anchor == anchor,
            bucket.comments == comments,
    {
        CommentBucket { anchor, comments }
    }
}

/// Whether `buckets` lists, in any order, what `by_anchor` maps: one
/// bucket for each anchor of the map, with that anchor's comments.
pub open spec fn lists(buckets: Seq<CommentBucket>, by_anchor: Map<u32, Seq<Span>>) -> bool {
    &&& forall|i: int, j: int|
        0 <= i < j < buckets.len() ==> buckets[i].anchor != buckets[j].anchor
    &&& forall|i: int|
        0 <= i < buckets.len() ==> by_anchor.dom().contains(#[trigger] buckets[i].anchor)
            && by_anchor[buckets[i].anchor] == buckets[i].comments@
    &&& forall|anchor: u32|
        by_anchor.dom().contains(anchor) ==> exists|i: int|
            0 <= i < buckets.len() && #[trigger] buckets[i].anchor == anchor
}

/// The comments that a map holds at `anchor`: none where it holds nothing.
pub open spec fn mapped_at(by_anchor: Map<u32, Seq<Span>>, anchor: int) -> Seq<Span> {
    if 0 <= anchor < ANCHOR_END && by_anchor.dom().contains(anchor as u32) {
        by_anchor[anchor as u32]
    } else {
        Seq::empty()
    }
}

/// The comments of a map at the anchors below `bound`, in the order of the
/// anchors.
pub open spec fn mapped_below(by_anchor: Map<u32, Seq<Span>>, bound: int) -> Seq<Span>
    decreases bound,
{
    if bound <= 0 {
        Seq::empty()
    } else {
        mapped_below(by_anchor, bound - 1) + mapped_at(by_anchor, bound - 1)
    }
}

/// All the comments of a map, in the order of the anchors.
pub open spec fn mapped(by_anchor: Map<u32, Seq<Span>>) -> Seq<Span> {
    mapped_below(by_anchor, ANCHOR_END as int)
}

/// The comments of the buckets anchored at `anchor`, in the order of the
/// list.
pub open spec fn listed_at(buckets: Seq<CommentBucket>, anchor: int) -> Seq<Span>
    decreases buckets.len(),
{
    if buckets.len() == 0 {
        Seq::empty()
    } else if buckets.last().anchor == anchor {
        listed_at(buckets.drop_last(), anchor) + buckets.last().comments@
    } else {
        listed_at(buckets.drop_last(), anchor)
    }
}

/// The comments of the buckets anchored below `bound`, in the order of the
/// anchors; those of one anchor in the order of the list.
pub open spec fn listed_below(buckets: Seq<CommentBucket>, bound: int) -> Seq<Span>
    decreases bound,
{
    if bound <= 0 {
        Seq::empty()
    } else {
        listed_below(buckets, bound - 1) + listed_at(buckets, bound - 1)
    }
}

/// All the comments of a list of buckets, in the order of the anchors; those
/// of one anchor in the order of the list.
pub open spec fn listed(buckets: Seq<CommentBucket>) -> Seq<Span> {
    listed_below(buckets, ANCHOR_END as int)
}

/// Where no bucket is anchored, no comment is listed.
pub proof fn lemma_listed_at_none(buckets: Seq<CommentBucket>, anchor: int)
    requires
        forall|i: int| 0 <= i < buckets.len() ==> (#[trigger] buckets[i]).anchor != anchor,
    ensures
        listed_at(buckets, anchor) == Seq::<Span>::empty(),
    decreases buckets.len(),
{
    if buckets.len() > 0 {
        assert(buckets.last() == buckets[buckets.len() - 1]);
        lemma_listed_at_none(buckets.drop_last(), anchor);
    }
}

/// Anchors that no bucket has add nothing to the list.
pub proof fn lemma_listed_below_skip(buckets: Seq<CommentBucket>, from: int, to: int)
    requires
        from <= to,
        forall|i: int|
            0 <= i < buckets.len() ==> !(from <= (#[trigger] buckets[i]).anchor < to),
    ensures
        listed_below(buckets, to) == listed_below(buckets, from),
    decreases to - from,
{
    if from < to {
        lemma_listed_below_skip(buckets, from, to - 1);
        if to > 0 {
            lemma_listed_at_none(buckets, to - 1);
        }
    }
}

/// In a list without a repeated anchor, the comments listed at the anchor of
/// a bucket are those of that bucket.
pub proof fn lemma_listed_at_one(buckets: Seq<CommentBucket>, k: int)
    requires
        0 <= k < buckets.len(),
        forall|i: int, j: int|
            0 <= i < j < buckets.len() ==> buckets[i].anchor != buckets[j].anchor,
    ensures
        listed_at(buckets, buckets[k].anchor as int) == buckets[k].comments@,
    decreases buckets.len(),
{
    let front = buckets.drop_last();
    let last = buckets.len() - 1;
    if k == last {
        assert forall|i: int| 0 <= i < front.len() implies (#[trigger] front[i]).anchor
            != buckets[k].anchor by {
            assert(buckets[i].anchor != buckets[last].anchor);
        }
        lemma_listed_at_none(front, buckets[k].anchor as int);
    } else {
        assert(buckets[k].anchor != buckets[last].anchor);
        lemma_listed_at_one(front, k);
    }
}

/// A list of what a map holds has at each anchor what the map has there.
pub proof fn lemma_lists_at(
    buckets: Seq<CommentBucket>,
    by_anchor: Map<u32, Seq<Span>>,
    anchor: int,
)
    requires
        lists(buckets, by_anchor),
    ensures
        listed_at(buckets, anchor) == mapped_at(by_anchor, anchor),
{
    if exists|k: int| 0 <= k < buckets.len() && (#[trigger] buckets[k]).anchor == anchor {
        let k = choose|k: int| 0 <= k < buckets.len() && (#[trigger] buckets[k]).anchor == anchor;
        lemma_listed_at_one(buckets, k);
    } else {
        lemma_listed_at_none(buckets, anchor);
        if 0 <= anchor < ANCHOR_END && by_anchor.dom().contains(anchor as u32) {
            let k = choose|k: int|
                0 <= k < buckets.len() && #[trigger] buckets[k].anchor == anchor as u32;
            assert((#[trigger] buckets[k]).anchor == anchor);
        }
    }
}

/// A list of what a map holds gives, in the order of the anchors, the
/// comments of the map in that order: the order of the list does not
/// matter.
pub proof fn lemma_lists_below(
    buckets: Seq<CommentBucket>,
    by_anchor: Map<u32, Seq<Span>>,
    bound: int,
)
    requires
        lists(buckets, by_anchor),
    ensures
        listed_below(buckets, bound) == mapped_below(by_anchor, bound),
    decreases bound,
{
    if bound > 0 {
        lemma_lists_below(buckets, by_anchor, bound - 1);
        lemma_lists_at(buckets, by_anchor, bound - 1);
    }
}

/// The least anchor of the buckets that is not below `bound`, if there is
/// one.
pub fn least_anchor(buckets: &Vec<CommentBucket>, bound: u64) -> (least: Option<u32>)
    ensures
        match least {
            Some(anchor) => {
                &&& bound <= anchor
                &&& exists|i: int|
                    0 <= i < buckets.len() && (#[trigger] buckets[i]).anchor == anchor
                &&& forall|i: int|
                    0 <= i < buckets.len() ==> !(bound <= (#[trigger] buckets[i]).anchor < anchor)
            },
            None => forall|i: int|
                0 <= i < buckets.len() ==> (#[trigger] buckets[i]).anchor < bound,
        },
{
    let mut least: Option<u32> = None;
    let mut k: usize = 0;
    while k < buckets.len()
        invariant
            k <= buckets.len(),
            match least {
                Some(anchor) => {
                    &&& bound <= anchor
                    &&& exists|i: int| 0 <= i < k && (#[trigger] buckets[i]).anchor == anchor
                    &&& forall|i: int|
                        0 <= i < k ==> !(bound <= (#[trigger] buckets[i]).anchor < anchor)
                },
                None => forall|i: int| 0 <= i < k ==> (#[trigger] buckets[i]).anchor < bound,
            },
        decreases buckets.len() - k,
    {
        let anchor = buckets[k].anchor;
        if anchor as u64 >= bound {
            let closer = match least {
                Some(held) => anchor < held,
                None => true,
            };
            if closer {
                least = Some(anchor);
            }
        }
        k += 1;
    }
    least
}

/// Appends to `spans` the comments of the buckets anchored at `anchor`, in
/// the order of the list.
pub fn push_listed_at(spans: &mut Vec<Span>, buckets: &Vec<CommentBucket>, anchor: u32)
    ensures
        final(spans)@ == old(spans)@ + listed_at(buckets@, anchor as int),
{
    let mut k: usize = 0;
    assert(spans@ =~= old(spans)@ + listed_at(buckets@.take(0), anchor as int));
    while k < buckets.len()
        invariant
            k <= buckets.len(),
            spans@ == old(spans)@ + listed_at(buckets@.take(k as int), anchor as int),
        decreases buckets.len() - k,
    {
        assert(buckets@.take(k + 1).drop_last() =~= buckets@.take(k as int));
        if buckets[k].anchor == anchor {
            let ghost before = spans@;
            let comments = &buckets[k].comments;
            let mut c: usize = 0;
            assert(spans@ =~= before + comments@.take(0));
            while c < comments.len()
                invariant
                    c <= comments.len(),
                    spans@ == before + comments@.take(c as int),
                decreases comments.len() - c,
            {
                spans.push(comments[c]);
                assert(comments@.take(c + 1) =~= comments@.take(c as int).push(
                    comments@[c as int],
                ));
                c += 1;
            }
            assert(comments@.take(c as int) =~= comments@);
            assert(spans@ =~= old(spans)@ + listed_at(buckets@.take(k + 1), anchor as int));
        }
        k += 1;
    }
    assert(buckets@.take(k as int) =~= buckets@);
}

/// Drains the buckets: all their comments, in the order of the anchors;
/// those of one anchor in the order of the list.
pub fn drain(buckets: &Vec<CommentBucket>) -> (spans: Vec<Span>)
    ensures
        spans@ == listed(buckets@),
{
    let mut spans: Vec<Span> = Vec::new();
    let mut bound: u64 = 0;
    assert(spans@ =~= listed_below(buckets@, 0));
    loop
        invariant
            bound <= ANCHOR_END,
            spans@ == listed_below(buckets@, bound as int),
        decreases ANCHOR_END - bound,
    {
        match least_anchor(buckets, bound) {
            None => {
                proof {
                    lemma_listed_below_skip(buckets@, bound as int, ANCHOR_END as int);
                }
                return spans;
            },
            Some(anchor) => {
                proof {
                    lemma_listed_below_skip(buckets@, bound as int, anchor as int);
                }
                push_listed_at(&mut spans, buckets, anchor);
                bound = anchor as u64 + 1;
            },
        }
    }
}

/// Whether every one of the spans is a slice of `input`.
pub fn check_slices(input: &str, spans: &Vec<Span>) -> (sound: bool)
    ensures
        sound == all_slices(input.spec_bytes(), spans@),
{
    let len = input.as_bytes().len();
    let mut k: usize = 0;
    while k < spans.len()
        invariant
            k <= spans.len(),
            len == input.spec_bytes().len(),
            forall|i: int| 0 <= i < k ==> is_slice(input.spec_bytes(), #[trigger] spans@[i]),
        decreases spans.len() - k,
    {
        let lo = spans[k].lo as usize;
        let hi = spans[k].hi as usize;
        if !(lo <= hi && hi <= len && input.is_char_boundary(lo) && input.is_char_boundary(hi)) {
            assert(!is_slice(input.spec_bytes(), spans@[k as int]));
            return false;
        }
        k += 1;
    }
    true
}

/// The spans of comments as byte offsets into the text, given as the
/// tokenizer's positions, if every one of them is a slice of the text.
pub open spec fn located_comments(bytes: Seq<u8>, raw: Seq<Span>) -> Option<Seq<Span>> {
    match span_offsets(raw, unscanned(bytes)) {
        Some(spans) => if all_slices(bytes, spans) {
            Some(spans)
        } else {
            None
        },
        None => None,
    }
}

/// Turns the tokenizer's positions of comments into byte offsets into
/// `input` and checks that each comment is a slice of it.
pub fn locate_comments(input: &str, raw: &Vec<Span>) -> (checked: Option<Vec<Span>>)
    ensures
        match checked {
            Some(spans) => located_comments(input.spec_bytes(), raw@) == Some(spans@),
            None => located_comments(input.spec_bytes(), raw@) is None,
        },
{
    match locate_spans(raw, count_unscanned(input)) {
        Some(spans) => if check_slices(input, &spans) {
            Some(spans)
        } else {
            None
        },
        None => None,
    }
}

/// What is wrong with a text, the scan that the tokenizer made of it and the
/// comments that it collected, if anything: what is wrong with the scan, or
/// else a comment that is no slice of the text.
pub open spec fn gathering_fault(
    source: Seq<char>,
    scan: ScanView,
    leading: Seq<Span>,
    trailing: Seq<Span>,
) -> Option<Error> {
    let bytes = encode_utf8(source);
    match scan_fault(source, scan) {
        Some(fault) => Some(fault),
        None => if located_comments(bytes, leading) is None || located_comments(bytes, trailing)
            is None {
            Some(Error::BadSpan)
        } else {
            None
        },
    }
}

/// The positions of the literals of a scan, in the order of the text, then
/// those of the leading comments, then those of the trailing comments.
pub open spec fn gathered_positions(
    source: Seq<char>,
    scan: ScanView,
    leading: Seq<Span>,
    trailing: Seq<Span>,
) -> Seq<u32> {
    let bytes = encode_utf8(source);
    pairs(literal_spans(located(source, scan))) + pairs(located_comments(bytes, leading).unwrap())
        + pairs(located_comments(bytes, trailing).unwrap())
}

/// The number of positions that stand for literals at the head of the list.
pub open spec fn literal_count(source: Seq<char>, scan: ScanView) -> int {
    2 * (literal_spans(located(source, scan)).len() as int)
}

/// The Position Extractor with comments, over what the tokenizer made of
/// `input`: the start and the end of every string and template literal, in
/// the order of the text; then of every leading comment and then of every
/// trailing comment, each kind in the order of the positions that the
/// comments are attached to.
pub fn scan_and_comment_positions(
    input: &str,
    scan: &Scan,
    leading: &Vec<CommentBucket>,
    trailing: &Vec<CommentBucket>,
) -> (extraction: Result<Vec<u32>, Error>)
    ensures
        match extraction {
            Ok(positions) => {
                &&& gathering_fault(input@, scan@, listed(leading@), listed(trailing@)) is None
                &&& positions@ == gathered_positions(
                    input@,
                    scan@,
                    listed(leading@),
                    listed(trailing@),
                )
                &&& in_order(input.spec_bytes(), literal_spans(located(input@, scan@)))
                &&& are_ranges(positions@, input.spec_bytes().len() as int)
                &&& starts_ascend(positions@.take(literal_count(input@, scan@)))
            },
            Err(fault) => gathering_fault(input@, scan@, listed(leading@), listed(trailing@))
                == Some(fault),
        },
{
    let mut positions = match scan_positions(input, scan) {
        Ok(positions) => positions,
        Err(fault) => {
            return Err(fault);
        },
    };
    let ghost literals = positions@;
    let before = match locate_comments(input, &drain(leading)) {
        Some(spans) => spans,
        None => {
            return Err(Error::BadSpan);
        },
    };
    let after = match locate_comments(input, &drain(trailing)) {
        Some(spans) => spans,
        None => {
            return Err(Error::BadSpan);
        },
    };
    push_pairs(&mut positions, &before);
    push_pairs(&mut positions, &after);
    proof {
        let bytes = input.spec_bytes();
        let spans = literal_spans(located(input@, scan@)) + before@ + after@;
        lemma_pairs_concat(literal_spans(located(input@, scan@)), before@);
        lemma_pairs_concat(literal_spans(located(input@, scan@)) + before@, after@);
        assert(positions@ == pairs(spans));
        assert(all_slices(bytes, spans)) by {
            lemma_located_well_formed(input@, scan@);
            lemma_literal_spans_in_order(bytes, located(input@, scan@));
        }
        lemma_pairs_are_ranges(bytes, spans);
        assert(positions@.take(literal_count(input@, scan@)) =~= literals);
    }
    Ok(positions)
}

/// Lists where the string and template literals of `input` lie, and then
/// where its comments lie: for each literal in turn, in the order of the
/// text, the byte offset of its start and of its end; then the same for
/// each comment, the leading comments before the trailing ones, each kind in
/// the order of the positions that the comments are attached to. Fails as a
/// whole where the tokenizer reports a lexical error, or where what it
/// reports does not fit the text.
pub fn get_literal_pos_swc(input: String) -> (extraction: Result<Vec<u32>, Error>)
    ensures
        ({
            let found = lexed_with_comments(input@);
            let leading = mapped(found.leading);
            let trailing = mapped(found.trailing);
            match extraction {
                Ok(positions) => {
                    &&& gathering_fault(input@, found.scan, leading, trailing) is None
                    &&& positions@ == gathered_positions(input@, found.scan, leading, trailing)
                    &&& in_order(encode_utf8(input@), literal_spans(located(input@, found.scan)))
                    &&& are_ranges(positions@, encode_utf8(input@).len() as int)
                    &&& starts_ascend(positions@.take(literal_count(input@, found.scan)))
                },
                Err(fault) => gathering_fault(input@, found.scan, leading, trailing) == Some(
                    fault,
                ),
            }
        }),
{
    let source = input.as_str();
    if source.as_bytes().len() >= u32::MAX as usize {
        return Err(Error::SourceTooLong);
    }
    let (scan, comments) = lex_with_comments(source);
    let (leading, trailing) = take_comments(comments);
    proof {
        let found = lexed_with_comments(input@);
        lemma_lists_below(leading@, found.leading, ANCHOR_END as int);
        lemma_lists_below(trailing@, found.trailing, ANCHOR_END as int);
    }
    scan_and_comment_positions(source, &scan, &leading, &trailing)
}

} // verus!
