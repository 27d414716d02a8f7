//! Laws that relate one masking to another.

use vstd::prelude::*;
use vstd::utf8::*;
use crate::lexer::lexed;
use crate::mask::{lemma_masked, masked};
use crate::origin::{stream_offsets, unscanned};
use crate::scan::{lemma_located_well_formed, located, scan_fault};
use crate::stream::{fault_at, is_delimited, is_slice, lemma_first_fault_none, well_formed};
use crate::token::{Token, TokenKind};

verus! {

/// Masking is idempotent: over the masked text the same stream is still well
/// formed, and masking the masked text with it gives the masked text again.
pub proof fn law_masking_is_idempotent(source: Seq<char>, tokens: Seq<Token>, once: Seq<char>)
    requires
        well_formed(encode_utf8(source), tokens),
        encode_utf8(once) == masked(encode_utf8(source), tokens),
    ensures
        well_formed(encode_utf8(once), tokens),
        masked(encode_utf8(once), tokens) == encode_utf8(once),
{
    broadcast use encode_utf8_valid_utf8;

    let bytes = encode_utf8(source);
    let out = encode_utf8(once);
    lemma_masked(bytes, tokens);
    assert forall|at: int| is_char_boundary(bytes, at) && 0 <= at <= bytes.len() implies
        is_char_boundary(out, at) by {
        if at == out.len() {
            is_char_boundary_start_end_of_seq(out);
        } else {
            is_char_boundary_iff_not_is_continuation_byte(bytes, at);
            is_char_boundary_iff_not_is_continuation_byte(out, at);
        }
    }
    assert forall|k: int| 0 <= k < tokens.len() implies fault_at(out, tokens, k) is None by {
        assert(fault_at(bytes, tokens, k) is None);
        assert(is_slice(out, tokens[k].span));
        if tokens[k].kind == TokenKind::Str {
            assert(is_delimited(out, tokens[k].span));
        }
    }
    assert(masked(out, tokens) =~= out);
}

/// Stripping is idempotent wherever the tokenizer finds in the masked text
/// the tokens that it found in the source, at the same offsets, and no
/// error: then the masked text has no fault either, and it is its own
/// masking.
pub proof fn law_stripping_is_idempotent(source: Seq<char>, once: Seq<char>)
    requires
        scan_fault(source, lexed(source)) is None,
        encode_utf8(once) == masked(encode_utf8(source), located(source, lexed(source))),
        lexed(once).errors == 0,
        stream_offsets(lexed(once).tokens, unscanned(encode_utf8(once))) == Some(
            located(source, lexed(source)),
        ),
    ensures
        scan_fault(once, lexed(once)) is None,
        masked(encode_utf8(once), located(once, lexed(once))) == encode_utf8(once),
{
    let tokens = located(source, lexed(source));
    lemma_located_well_formed(source, lexed(source));
    law_masking_is_idempotent(source, tokens, once);
    lemma_first_fault_none(encode_utf8(once), tokens);
}

} // verus!
