//! The Gap-Filler: what the tokens do not cover is copied as it is.

use vstd::prelude::*;
use vstd::string::*;
use vstd::utf8::*;
use crate::text::{lemma_encode_concat, slice};

verus! {

/// The output after catching up to `index`: when the output is shorter than
/// `index`, the source bytes from the output's end up to `index` are
/// appended; otherwise the output is left as it is.
pub open spec fn filled(index: int, input: Seq<u8>, result: Seq<u8>) -> Seq<u8> {
    if index > result.len() {
        result + input.subrange(result.len() as int, index)
    } else {
        result
    }
}

/// Copies into `result` the bytes of `input` that it does not hold yet, up to
/// `index`. Where there is a gap to fill, both of its ends lie on character
/// boundaries of `input`.
pub fn fulfill(index: usize, input: &str, result: String) -> (out: String)
    requires
        index > encode_utf8(result@).len() ==> {
            &&& is_char_boundary(input.spec_bytes(), index as int)
            &&& is_char_boundary(input.spec_bytes(), encode_utf8(result@).len() as int)
        },
    ensures
        encode_utf8(out@) == filled(index as int, input.spec_bytes(), encode_utf8(result@)),
        encode_utf8(result@).is_prefix_of(encode_utf8(out@)),
{
    let held: usize = result.as_str().as_bytes().len();
    if index > held {
        let mut out = result;
        let gap = slice(input, held, index);
        proof {
            lemma_encode_concat(out@, gap@);
        }
        out.append(gap);
        out
    } else {
        result
    }
}

} // verus!
