//! Texts as bytes: a `String` is its UTF-8 encoding, and all offsets are
//! byte offsets.

use vstd::prelude::*;
use vstd::string::*;
use vstd::utf8::*;

verus! {

/// The byte that stands in for each masked byte.
pub const SPACE: u8 = 0x20;

/// `count` spaces.
pub open spec fn blank(count: int) -> Seq<u8> {
    Seq::new(count as nat, |i: int| SPACE)
}

/// Encoding distributes over concatenation: the bytes of `a + b` are the
/// bytes of `a` followed by the bytes of `b`.
pub proof fn lemma_encode_concat(a: Seq<char>, b: Seq<char>)
    ensures
        encode_utf8(a + b) == encode_utf8(a) + encode_utf8(b),
    decreases a.len(),
{
    if a.len() == 0 {
        assert(a + b =~= b);
        assert(encode_utf8(a) + encode_utf8(b) =~= encode_utf8(b));
    } else {
        lemma_encode_concat(a.drop_first(), b);
        assert((a + b).drop_first() =~= a.drop_first() + b);
        assert(encode_utf8(a + b) =~= encode_utf8(a) + encode_utf8(b));
    }
}

/// Two texts with the same bytes are the same text.
pub proof fn lemma_encode_injective(a: Seq<char>, b: Seq<char>)
    requires
        encode_utf8(a) == encode_utf8(b),
    ensures
        a == b,
{
    encode_utf8_decode_utf8(a);
    encode_utf8_decode_utf8(b);
}

/// A character boundary lies within the text.
pub proof fn lemma_boundary_in_range(bytes: Seq<u8>, at: int)
    requires
        valid_utf8(bytes),
        is_char_boundary(bytes, at),
    ensures
        0 <= at <= bytes.len(),
{
}

/// A character boundary of a text is still one in any prefix of the text
/// that ends on a character boundary at or after it.
pub proof fn lemma_boundary_in_prefix(bytes: Seq<u8>, lo: int, hi: int)
    requires
        valid_utf8(bytes),
        is_char_boundary(bytes, lo),
        is_char_boundary(bytes, hi),
        0 <= lo <= hi,
    ensures
        hi <= bytes.len(),
        valid_utf8(bytes.subrange(0, hi)),
        is_char_boundary(bytes.subrange(0, hi), lo),
{
    lemma_boundary_in_range(bytes, hi);
    valid_utf8_split(bytes, hi);
    let prefix = bytes.subrange(0, hi);
    if lo == hi {
        is_char_boundary_start_end_of_seq(prefix);
    } else {
        is_char_boundary_iff_not_is_continuation_byte(bytes, lo);
        is_char_boundary_iff_not_is_continuation_byte(prefix, lo);
    }
}

/// The part of `text` between two character boundaries.
pub fn slice(text: &str, lo: usize, hi: usize) -> (part: &str)
    requires
        lo <= hi,
        is_char_boundary(text.spec_bytes(), lo as int),
        is_char_boundary(text.spec_bytes(), hi as int),
    ensures
        part.spec_bytes() == text.spec_bytes().subrange(lo as int, hi as int),
{
    proof {
        broadcast use encode_utf8_valid_utf8;

        lemma_boundary_in_prefix(text.spec_bytes(), lo as int, hi as int);
    }
    let (head, _) = text.split_at(hi);
    let (_, part) = head.split_at(lo);
    assert(part.spec_bytes() =~= text.spec_bytes().subrange(lo as int, hi as int));
    part
}

/// Appends `count` spaces to `text`.
pub fn push_blank(text: &mut String, count: usize)
    ensures
        encode_utf8(final(text)@) == encode_utf8(old(text)@) + blank(count as int),
{
    let mut done: usize = 0;
    assert(encode_utf8(text@) =~= encode_utf8(old(text)@) + blank(0));
    while done < count
        invariant
            done <= count,
            encode_utf8(text@) == encode_utf8(old(text)@) + blank(done as int),
        decreases count - done,
    {
        proof {
            reveal_strlit(" ");
            lemma_encode_concat(text@, " "@);
            assert(is_ascii_chars(" "@));
            is_ascii_chars_encode_utf8(" "@);
            assert(encode_utf8(" "@) =~= seq![SPACE]);
            assert(blank(done as int) + seq![SPACE] =~= blank(done + 1));
        }
        text.append(" ");
        done += 1;
    }
}

} // verus!
