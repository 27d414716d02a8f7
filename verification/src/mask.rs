//! The Literal Masker: string and template literals are replaced by spaces,
//! byte for byte.

use vstd::prelude::*;
use vstd::string::*;
use vstd::utf8::*;
use crate::error::Error;
use crate::gap::fulfill;
use crate::scan::{locate, located, scan_fault};
use crate::stream::{fault_at, first_fault, floor, lemma_in_order, validate, well_formed};
use crate::text::{blank, lemma_encode_concat, lemma_encode_injective, push_blank, slice, SPACE};
use crate::token::{Scan, Token, TokenKind};

verus! {

/// Whether some token of the stream hides the byte at offset `i`.
pub open spec fn hidden(tokens: Seq<Token>, i: int) -> bool {
    exists|k: int| 0 <= k < tokens.len() && (#[trigger] tokens[k]).hides(i)
}

/// The masked text: as long as the text, with a space for each hidden byte
/// and every other byte as it is in the text.
pub open spec fn masked(bytes: Seq<u8>, tokens: Seq<Token>) -> Seq<u8> {
    Seq::new(
        bytes.len(),
        |i: int|
            if hidden(tokens, i) {
                SPACE
            } else {
                bytes[i]
            },
    )
}

/// In a well-formed stream, only token `k` can hide a byte of its own span.
pub proof fn lemma_hidden_within(bytes: Seq<u8>, tokens: Seq<Token>, k: int, i: int)
    requires
        well_formed(bytes, tokens),
        0 <= k < tokens.len(),
        tokens[k].span.lo <= i < tokens[k].span.hi,
    ensures
        hidden(tokens, i) == tokens[k].hides(i),
{
    if hidden(tokens, i) {
        let j = choose|j: int| 0 <= j < tokens.len() && (#[trigger] tokens[j]).hides(i);
        assert(fault_at(bytes, tokens, j) is None);
        if j < k {
            lemma_in_order(bytes, tokens, j, k);
        } else if k < j {
            lemma_in_order(bytes, tokens, k, j);
        }
    }
}

/// In a well-formed stream, no byte between the end of the token in front
/// of token `k` and the start of token `k` is hidden; nor is any byte after
/// the last token.
pub proof fn lemma_gap_shows(bytes: Seq<u8>, tokens: Seq<Token>, k: int, i: int)
    requires
        well_formed(bytes, tokens),
        0 <= k <= tokens.len(),
        floor(tokens, k) <= i,
        k < tokens.len() ==> i < tokens[k].span.lo,
    ensures
        !hidden(tokens, i),
{
    if hidden(tokens, i) {
        let j = choose|j: int| 0 <= j < tokens.len() && (#[trigger] tokens[j]).hides(i);
        assert(fault_at(bytes, tokens, j) is None);
        if j < k {
            if j < k - 1 {
                lemma_in_order(bytes, tokens, j, k - 1);
            }
            assert(fault_at(bytes, tokens, k - 1) is None);
        } else if k < j {
            assert(fault_at(bytes, tokens, k) is None);
            lemma_in_order(bytes, tokens, k, j);
        }
    }
}

/// The Literal Masker over a well-formed stream: for each token in turn, the
/// gap in front of it is filled, and then the token is copied or masked;
/// what is left of the text after the last token is filled in at the end.
fn mask_well_formed(input: &str, tokens: &Vec<Token>) -> (out: String)
    requires
        well_formed(input.spec_bytes(), tokens@),
    ensures
        encode_utf8(out@) == masked(input.spec_bytes(), tokens@),
{
    let ghost bytes = input.spec_bytes();
    let ghost goal = masked(bytes, tokens@);
    let len = input.as_bytes().len();
    let mut result = String::new();
    let mut k: usize = 0;
    proof {
        broadcast use encode_utf8_valid_utf8;

        assert(encode_utf8(result@) =~= goal.subrange(0, 0));
        is_char_boundary_start_end_of_seq(bytes);
    }
    while k < tokens.len()
        invariant
            k <= tokens.len(),
            bytes == input.spec_bytes(),
            goal == masked(bytes, tokens@),
            len == bytes.len(),
            valid_utf8(bytes),
            well_formed(bytes, tokens@),
            floor(tokens@, k as int) <= len,
            is_char_boundary(bytes, floor(tokens@, k as int)),
            encode_utf8(result@) == goal.subrange(0, floor(tokens@, k as int)),
        decreases tokens.len() - k,
    {
        let token = tokens[k];
        let lo = token.span.lo as usize;
        let hi = token.span.hi as usize;
        let ghost done = floor(tokens@, k as int);
        assert(fault_at(bytes, tokens@, k as int) is None);
        result = fulfill(lo, input, result);
        proof {
            assert forall|i: int| done <= i < lo implies goal[i] == bytes[i] by {
                lemma_gap_shows(bytes, tokens@, k as int, i);
            }
            assert(encode_utf8(result@) =~= goal.subrange(0, lo as int));
            assert forall|i: int| lo <= i < hi implies hidden(tokens@, i) == token.hides(i) by {
                lemma_hidden_within(bytes, tokens@, k as int, i);
            }
        }
        match token.kind {
            TokenKind::Str => {
                proof {
                    is_char_boundary_iff_is_leading_byte(bytes, lo as int);
                    is_char_boundary_iff_is_leading_byte(bytes, hi - 1);
                    if lo + 1 < len {
                        lemma_boundary_after(bytes, lo as int);
                    } else {
                        is_char_boundary_start_end_of_seq(bytes);
                    }
                }
                let open = slice(input, lo, lo + 1);
                let close = slice(input, hi - 1, hi);
                proof {
                    lemma_encode_concat(result@, open@);
                }
                result.append(open);
                push_blank(&mut result, hi - lo - 2);
                proof {
                    lemma_encode_concat(result@, close@);
                }
                result.append(close);
                proof {
                    assert forall|i: int| lo <= i < hi implies goal[i] == (if lo < i < hi - 1 {
                        SPACE
                    } else {
                        bytes[i]
                    }) by {
                        assert(hidden(tokens@, i) == token.hides(i));
                    }
                    assert(encode_utf8(result@) == goal.subrange(0, lo as int) + bytes.subrange(
                        lo as int,
                        lo + 1,
                    ) + blank(hi - lo - 2) + bytes.subrange(hi - 1, hi as int));
                    assert(encode_utf8(result@) =~= goal.subrange(0, hi as int));
                }
            },
            TokenKind::Template => {
                push_blank(&mut result, hi - lo);
                assert(encode_utf8(result@) =~= goal.subrange(0, hi as int));
            },
            _ => {
                let shown = slice(input, lo, hi);
                proof {
                    lemma_encode_concat(result@, shown@);
                }
                result.append(shown);
                proof {
                    assert forall|i: int| lo <= i < hi implies goal[i] == bytes[i] by {
                        assert(!token.hides(i));
                    }
                    assert(encode_utf8(result@) =~= goal.subrange(0, hi as int));
                }
            },
        }
        k += 1;
    }
    let ghost done = floor(tokens@, k as int);
    result = fulfill(len, input, result);
    proof {
        broadcast use encode_utf8_valid_utf8;

        is_char_boundary_start_end_of_seq(bytes);
        assert forall|i: int| done <= i < len implies goal[i] == bytes[i] by {
            lemma_gap_shows(bytes, tokens@, k as int, i);
        }
        assert(encode_utf8(result@) =~= goal);
    }
    result
}

/// The byte after a one-byte character is a character boundary.
proof fn lemma_boundary_after(bytes: Seq<u8>, at: int)
    requires
        valid_utf8(bytes),
        0 <= at,
        at + 1 < bytes.len(),
        is_char_boundary(bytes, at),
        bytes[at] < 0x80,
    ensures
        is_char_boundary(bytes, at + 1),
{
    valid_utf8_split(bytes, at);
    let rest = bytes.subrange(at, bytes.len() as int);
    assert(rest[0] == bytes[at]);
    assert(length_of_first_scalar(rest) == 1);
    assert(is_char_boundary(rest, 1)) by {
        reveal_with_fuel(is_char_boundary, 2);
    }
    is_char_boundary_iff_not_is_continuation_byte(rest, 1);
    assert(rest[1] == bytes[at + 1]);
    is_char_boundary_iff_not_is_continuation_byte(bytes, at + 1);
}

/// Whether `out` has, for every string literal of the stream, the two
/// delimiters as they are in the text and a space for every byte between
/// them.
pub open spec fn keeps_delimiters(bytes: Seq<u8>, tokens: Seq<Token>, out: Seq<u8>) -> bool {
    forall|k: int|
        0 <= k < tokens.len() && (#[trigger] tokens[k]).kind == TokenKind::Str ==> {
            &&& out[tokens[k].span.lo as int] == bytes[tokens[k].span.lo as int]
            &&& out[tokens[k].span.hi - 1] == bytes[tokens[k].span.hi - 1]
            &&& forall|i: int|
                tokens[k].span.lo < i < tokens[k].span.hi - 1 ==> #[trigger] out[i] == SPACE
        }
}

/// Whether `out` has a space for every byte of every template literal of the
/// stream.
pub open spec fn blanks_templates(tokens: Seq<Token>, out: Seq<u8>) -> bool {
    forall|k: int|
        0 <= k < tokens.len() && (#[trigger] tokens[k]).kind == TokenKind::Template ==> forall|
            i: int,
        |
            tokens[k].span.lo <= i < tokens[k].span.hi ==> #[trigger] out[i] == SPACE
}

/// Whether the stream holds a string or template literal.
pub open spec fn has_literal(tokens: Seq<Token>) -> bool {
    exists|k: int| 0 <= k < tokens.len() && (#[trigger] tokens[k]).kind.is_literal()
}

/// What holds of the masked text of a well-formed stream: it is as long as
/// the text; every string literal keeps its two delimiters and has spaces
/// between them; every template literal is all spaces; and without a literal
/// in the stream nothing changes.
pub proof fn lemma_masked(bytes: Seq<u8>, tokens: Seq<Token>)
    requires
        well_formed(bytes, tokens),
    ensures
        masked(bytes, tokens).len() == bytes.len(),
        keeps_delimiters(bytes, tokens, masked(bytes, tokens)),
        blanks_templates(tokens, masked(bytes, tokens)),
        !has_literal(tokens) ==> masked(bytes, tokens) == bytes,
{
    let out = masked(bytes, tokens);
    assert forall|k: int|
        0 <= k < tokens.len() && (#[trigger] tokens[k]).kind == TokenKind::Str implies {
        &&& out[tokens[k].span.lo as int] == bytes[tokens[k].span.lo as int]
        &&& out[tokens[k].span.hi - 1] == bytes[tokens[k].span.hi - 1]
        &&& forall|i: int|
            tokens[k].span.lo < i < tokens[k].span.hi - 1 ==> #[trigger] out[i] == SPACE
    } by {
        assert(fault_at(bytes, tokens, k) is None);
        lemma_hidden_within(bytes, tokens, k, tokens[k].span.lo as int);
        lemma_hidden_within(bytes, tokens, k, tokens[k].span.hi - 1);
    }
    assert forall|k: int|
        0 <= k < tokens.len() && (#[trigger] tokens[k]).kind == TokenKind::Template implies forall|
        i: int,
    |
        tokens[k].span.lo <= i < tokens[k].span.hi ==> #[trigger] out[i] == SPACE by {
        assert(fault_at(bytes, tokens, k) is None);
    }
    if !has_literal(tokens) {
        assert forall|i: int| 0 <= i < bytes.len() implies !hidden(tokens, i) by {
            if hidden(tokens, i) {
                let k = choose|k: int| 0 <= k < tokens.len() && (#[trigger] tokens[k]).hides(i);
                assert(tokens[k].kind.is_literal());
            }
        }
        assert(out =~= bytes);
    }
}

/// The Literal Masker: the text with the content of every string and
/// template literal of the stream replaced by spaces, or what is wrong with
/// the stream.
pub fn mask_tokens(input: &str, tokens: &Vec<Token>) -> (masking: Result<String, Error>)
    ensures
        match masking {
            Ok(out) => {
                &&& well_formed(input.spec_bytes(), tokens@)
                &&& encode_utf8(out@) == masked(input.spec_bytes(), tokens@)
                &&& encode_utf8(out@).len() == input.spec_bytes().len()
                &&& keeps_delimiters(input.spec_bytes(), tokens@, encode_utf8(out@))
                &&& blanks_templates(tokens@, encode_utf8(out@))
                &&& !has_literal(tokens@) ==> out@ == input@
            },
            Err(fault) => first_fault(input.spec_bytes(), tokens@) == Some(fault),
        },
{
    match validate(input, tokens) {
        Ok(_) => {
            let out = mask_well_formed(input, tokens);
            proof {
                lemma_masked(input.spec_bytes(), tokens@);
                if !has_literal(tokens@) {
                    lemma_encode_injective(out@, input@);
                }
            }
            Ok(out)
        },
        Err(fault) => Err(fault),
    }
}

/// The Literal Masker over the scan that the tokenizer made of `input`: the
/// masked text, or what is wrong with the scan.
pub fn mask_scan(input: &str, scan: &Scan) -> (masking: Result<String, Error>)
    ensures
        match masking {
            Ok(out) => {
                &&& scan_fault(input@, scan@) is None
                &&& encode_utf8(out@) == masked(encode_utf8(input@), located(input@, scan@))
                &&& encode_utf8(out@).len() == encode_utf8(input@).len()
                &&& keeps_delimiters(
                    encode_utf8(input@),
                    located(input@, scan@),
                    encode_utf8(out@),
                )
                &&& blanks_templates(located(input@, scan@), encode_utf8(out@))
                &&& !has_literal(located(input@, scan@)) ==> out@ == input@
            },
            Err(fault) => scan_fault(input@, scan@) == Some(fault),
        },
{
    match locate(input, scan) {
        Ok(tokens) => {
            let out = mask_well_formed(input, &tokens);
            proof {
                lemma_masked(input.spec_bytes(), tokens@);
                if !has_literal(tokens@) {
                    lemma_encode_injective(out@, input@);
                }
            }
            Ok(out)
        },
        Err(fault) => Err(fault),
    }
}

} // verus!
