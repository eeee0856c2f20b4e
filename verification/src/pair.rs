//! A pair of strings in one buffer.
use crate::order::{compare_units, lex_units, ordering_of, Order};
use crate::raw;
use crate::text::{enclosed, texts, write_enclosed};
use crate::utf8::{
    lemma_boundary_between, lemma_encode_add, lemma_text_of_bytes,
};
use core::cmp::Ordering;
use vstd::prelude::*;
use vstd::utf8::{decode_utf8, encode_utf8, is_char_boundary, valid_utf8};

verus! {

/// How the pair `(l1, r1)` of byte runs stands to the pair `(l2, r2)`: the
/// left runs decide, and the right ones where the left are the same.
pub open spec fn pair_order(l1: Seq<u8>, r1: Seq<u8>, l2: Seq<u8>, r2: Seq<u8>) -> Order {
    if lex_units(l1, l2) != Order::Equal {
        lex_units(l1, l2)
    } else {
        lex_units(r1, r2)
    }
}

/// The text that `Debug` gives for a pair: the call that makes it.
pub open spec fn pair_text(left: Seq<char>, right: Seq<char>) -> Seq<char> {
    enclosed(
        "StringPair::new("@,
        seq![raw::str_debug_text(left), raw::str_debug_text(right)],
        ")"@,
    )
}

/// Two strings stored one behind the other in one buffer.
#[derive(Hash)]
pub struct StringPair {
    buffer: String,
    split: usize,
}

impl StringPair {
    /// The bytes of the buffer.
    pub closed spec fn bytes(&self) -> Seq<u8> {
        encode_utf8(self.buffer@)
    }

    /// Where the right string starts in the buffer.
    pub closed spec fn cut(&self) -> int {
        self.split as int
    }

    /// What holds of every pair: the right string starts at a character
    /// boundary of the buffer.
    pub open spec fn wf(&self) -> bool {
        valid_utf8(self.bytes()) && is_char_boundary(self.bytes(), self.cut())
    }

    #[verifier::type_invariant]
    closed spec fn inv(&self) -> bool {
        self.wf()
    }

    /// The bytes of the left string.
    pub open spec fn left_bytes(&self) -> Seq<u8> {
        self.bytes().subrange(0, self.cut())
    }

    /// The bytes of the right string.
    pub open spec fn right_bytes(&self) -> Seq<u8> {
        self.bytes().subrange(self.cut(), self.bytes().len() as int)
    }

    /// The left string.
    pub open spec fn spec_left(&self) -> Seq<char> {
        decode_utf8(self.left_bytes())
    }

    /// The right string.
    pub open spec fn spec_right(&self) -> Seq<char> {
        decode_utf8(self.right_bytes())
    }

    /// Creates the pair of `s1` and `s2`.
    pub fn new(s1: String, s2: &str) -> (pair: StringPair)
        ensures
            pair.wf(),
            pair.spec_left() == s1@,
            pair.spec_right() == s2@,
            pair.bytes() == encode_utf8(s1@) + encode_utf8(s2@),
            pair.cut() == encode_utf8(s1@).len(),
    {
        let split: usize = s1.as_str().as_bytes().len();
        let mut buffer = s1;
        buffer.append(s2);
        proof {
            let x = encode_utf8(s1@);
            let y = encode_utf8(s2@);
            lemma_encode_add(s1@, s2@);
            lemma_text_of_bytes(s1@, x);
            lemma_text_of_bytes(s2@, y);
            lemma_boundary_between(x, y);
            assert((x + y).subrange(0, x.len() as int) =~= x);
            assert((x + y).subrange(x.len() as int, (x + y).len() as int) =~= y);
        }
        StringPair { buffer, split }
    }

    /// Creates a pair from the two strings put together and the place at
    /// which the right one starts. `None` where that place is not a
    /// character boundary of the string.
    pub fn from_raw(string: String, split: usize) -> (r: Option<StringPair>)
        ensures
            r is Some <==> is_char_boundary(encode_utf8(string@), split as int),
            r matches Some(pair) ==> pair.wf() && pair.bytes() == encode_utf8(string@)
                && pair.cut() == split,
    {
        proof {
            vstd::utf8::encode_utf8_valid_utf8(string@);
        }
        if string.as_str().is_char_boundary(split) {
            Some(StringPair { buffer: string, split })
        } else {
            None
        }
    }

    /// Creates a pair from the two strings put together and the place at
    /// which the right one starts, where that place is known to be a
    /// character boundary.
    pub fn from_raw_unchecked(string: String, split: usize) -> (pair: StringPair)
        requires
            is_char_boundary(encode_utf8(string@), split as int),
        ensures
            pair.wf(),
            pair.bytes() == encode_utf8(string@),
            pair.cut() == split,
    {
        proof {
            vstd::utf8::encode_utf8_valid_utf8(string@);
        }
        StringPair { buffer: string, split }
    }

    /// The left string.
    pub fn left(&self) -> (s: &str)
        ensures
            s@ == self.spec_left(),
            encode_utf8(s@) == self.left_bytes(),
    {
        proof {
            use_type_invariant(self);
        }
        let s = self.buffer.as_str().split_at(self.split).0;
        proof {
            lemma_text_of_bytes(s@, self.left_bytes());
        }
        s
    }

    /// The right string.
    pub fn right(&self) -> (s: &str)
        ensures
            s@ == self.spec_right(),
            encode_utf8(s@) == self.right_bytes(),
    {
        proof {
            use_type_invariant(self);
        }
        let s = self.buffer.as_str().split_at(self.split).1;
        proof {
            lemma_text_of_bytes(s@, self.right_bytes());
        }
        s
    }

    /// How the pair stands to `other`: by the left strings, then by the
    /// right ones, each compared by its bytes.
    pub fn compare(&self, other: &StringPair) -> (r: Order)
        ensures
            r == pair_order(
                self.left_bytes(),
                self.right_bytes(),
                other.left_bytes(),
                other.right_bytes(),
            ),
    {
        match compare_units(self.left().as_bytes(), other.left().as_bytes()) {
            Order::Equal => compare_units(self.right().as_bytes(), other.right().as_bytes()),
            found => found,
        }
    }

    /// As `compare`, under the standard library's name for the order.
    pub fn cmp(&self, other: &StringPair) -> (r: Ordering)
        ensures
            r == ordering_of(
                pair_order(
                    self.left_bytes(),
                    self.right_bytes(),
                    other.left_bytes(),
                    other.right_bytes(),
                ),
            ),
    {
        self.compare(other).to_ordering()
    }

    /// The pair written as the call that makes it.
    pub fn debug_string(&self) -> (out: String)
        ensures
            out@ == pair_text(self.spec_left(), self.spec_right()),
    {
        let mut items: Vec<String> = Vec::new();
        items.push(raw::str_debug(self.left()));
        items.push(raw::str_debug(self.right()));
        proof {
            assert(texts(items@) =~= seq![
                raw::str_debug_text(self.spec_left()),
                raw::str_debug_text(self.spec_right()),
            ]);
        }
        write_enclosed("StringPair::new(", items.as_slice(), ")")
    }
}

impl Clone for StringPair {
    /// A pair of the same strings in a buffer of its own.
    fn clone(&self) -> (pair: StringPair)
        ensures
            pair.wf(),
            pair.bytes() == self.bytes(),
            pair.cut() == self.cut(),
    {
        proof {
            use_type_invariant(self);
        }
        StringPair { buffer: self.buffer.clone(), split: self.split }
    }
}

impl Default for StringPair {
    /// The pair of two empty strings.
    fn default() -> (pair: StringPair)
        ensures
            pair.wf(),
            pair.bytes().len() == 0,
            pair.cut() == 0,
    {
        let buffer = String::new();
        proof {
            vstd::utf8::encode_utf8_valid_utf8(buffer@);
        }
        StringPair { buffer, split: 0 }
    }
}

impl PartialEq for StringPair {
    /// Whether both hold the same two strings.
    fn eq(&self, other: &StringPair) -> (r: bool) {
        proof {
            lemma_text_of_bytes(self.buffer@, self.bytes());
            lemma_text_of_bytes(other.buffer@, other.bytes());
        }
        self.buffer == other.buffer && self.split == other.split
    }
}

impl vstd::std_specs::cmp::PartialEqSpecImpl for StringPair {
    open spec fn obeys_eq_spec() -> bool {
        true
    }

    open spec fn eq_spec(&self, other: &StringPair) -> bool {
        self.bytes() == other.bytes() && self.cut() == other.cut()
    }
}

impl Eq for StringPair {

}

impl PartialOrd for StringPair {
    /// How the pair stands to `other`; there is always an answer.
    fn partial_cmp(&self, other: &StringPair) -> (r: Option<Ordering>) {
        Some(self.cmp(other))
    }
}

impl vstd::std_specs::cmp::PartialOrdSpecImpl for StringPair {
    open spec fn obeys_partial_cmp_spec() -> bool {
        true
    }

    open spec fn partial_cmp_spec(&self, other: &StringPair) -> Option<Ordering> {
        Some(
            ordering_of(
                pair_order(
                    self.left_bytes(),
                    self.right_bytes(),
                    other.left_bytes(),
                    other.right_bytes(),
                ),
            ),
        )
    }
}

} // verus!
