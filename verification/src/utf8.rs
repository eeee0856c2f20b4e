//! Facts about UTF-8 that the containers of text need beyond those of the
//! verifier's library.
use vstd::prelude::*;
use vstd::utf8::{
    decode_utf8, encode_utf8, encode_utf8_decode_utf8, encode_utf8_valid_utf8, is_char_boundary,
    is_char_boundary_iff_not_is_continuation_byte, is_char_boundary_start_end_of_seq, valid_utf8,
    valid_utf8_concat, valid_utf8_split,
};

verus! {

/// The encoding of two texts, one behind the other, is the encoding of the
/// first followed by that of the second.
pub proof fn lemma_encode_add(a: Seq<char>, b: Seq<char>)
    ensures
        encode_utf8(a + b) == encode_utf8(a) + encode_utf8(b),
    decreases a.len(),
{
    if a.len() == 0 {
        assert(a + b =~= b);
        assert(encode_utf8(a) + encode_utf8(b) =~= encode_utf8(b));
    } else {
        lemma_encode_add(a.drop_first(), b);
        assert((a + b).drop_first() =~= a.drop_first() + b);
        assert((a + b)[0] == a[0]);
        assert(encode_utf8(a + b) =~= encode_utf8(a) + encode_utf8(b));
    }
}

/// Where valid bytes follow valid bytes, the place between them is a
/// character boundary.
pub proof fn lemma_boundary_between(x: Seq<u8>, y: Seq<u8>)
    requires
        valid_utf8(x),
        valid_utf8(y),
    ensures
        valid_utf8(x + y),
        is_char_boundary(x + y, x.len() as int),
{
    valid_utf8_concat(x, y);
    if y.len() == 0 {
        assert(x + y =~= x);
        is_char_boundary_start_end_of_seq(x);
    } else {
        is_char_boundary_start_end_of_seq(y);
        is_char_boundary_iff_not_is_continuation_byte(y, 0);
        assert((x + y)[x.len() as int] == y[0]);
        is_char_boundary_iff_not_is_continuation_byte(x + y, x.len() as int);
    }
}

/// A character boundary of valid bytes is one of each prefix that ends at
/// a later boundary.
pub proof fn lemma_boundary_in_prefix(bytes: Seq<u8>, at: int, end: int)
    requires
        valid_utf8(bytes),
        is_char_boundary(bytes, at),
        is_char_boundary(bytes, end),
        0 <= at <= end <= bytes.len(),
    ensures
        valid_utf8(bytes.subrange(0, end)),
        is_char_boundary(bytes.subrange(0, end), at),
{
    valid_utf8_split(bytes, end);
    let prefix = bytes.subrange(0, end);
    if at == end {
        is_char_boundary_start_end_of_seq(prefix);
    } else {
        is_char_boundary_iff_not_is_continuation_byte(bytes, at);
        assert(prefix[at] == bytes[at]);
        is_char_boundary_iff_not_is_continuation_byte(prefix, at);
    }
}

/// A character boundary of valid bytes lies inside them.
pub proof fn lemma_boundary_in_range(bytes: Seq<u8>, at: int)
    requires
        valid_utf8(bytes),
        is_char_boundary(bytes, at),
    ensures
        0 <= at <= bytes.len(),
    decreases bytes.len(),
{
    if at != 0 {
        if bytes.len() > 0 {
            reveal_with_fuel(valid_utf8, 2);
            lemma_boundary_in_range(
                vstd::utf8::pop_first_scalar(bytes),
                at - vstd::utf8::length_of_first_scalar(bytes),
            );
        }
    }
}

/// Text whose encoding is the bytes `bytes` is the text that they decode
/// to.
pub proof fn lemma_text_of_bytes(text: Seq<char>, bytes: Seq<u8>)
    requires
        encode_utf8(text) == bytes,
    ensures
        decode_utf8(bytes) == text,
        valid_utf8(bytes),
{
    encode_utf8_decode_utf8(text);
    encode_utf8_valid_utf8(text);
}

} // verus!
