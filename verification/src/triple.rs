//! A triple of strings in one buffer.
use crate::order::{compare_units, lex_units, ordering_of, Order};
use crate::raw;
use crate::text::{enclosed, texts, write_enclosed};
use crate::utf8::{
    lemma_boundary_between, lemma_boundary_in_prefix, lemma_boundary_in_range, lemma_encode_add,
    lemma_text_of_bytes,
};
use core::cmp::Ordering;
use vstd::prelude::*;
use vstd::string::StringExecFns;
use vstd::utf8::{decode_utf8, encode_utf8, is_char_boundary, valid_utf8};

verus! {

/// How the triple `a` of byte runs stands to the triple `b`: the first
/// place at which they differ decides.
pub open spec fn triple_order(
    a: (Seq<u8>, Seq<u8>, Seq<u8>),
    b: (Seq<u8>, Seq<u8>, Seq<u8>),
) -> Order {
    if lex_units(a.0, b.0) != Order::Equal {
        lex_units(a.0, b.0)
    } else if lex_units(a.1, b.1) != Order::Equal {
        lex_units(a.1, b.1)
    } else {
        lex_units(a.2, b.2)
    }
}

/// The text that `Debug` gives for a triple: the call that makes it.
pub open spec fn triple_text(left: Seq<char>, middle: Seq<char>, right: Seq<char>) -> Seq<char> {
    enclosed(
        "StringTriple::new("@,
        seq![
            raw::str_debug_text(left),
            raw::str_debug_text(middle),
            raw::str_debug_text(right),
        ],
        ")"@,
    )
}

/// Three strings stored one behind the other in one buffer.
#[derive(Hash)]
pub struct StringTriple {
    buffer: String,
    split: (usize, usize),
}

impl StringTriple {
    /// The bytes of the buffer.
    pub closed spec fn bytes(&self) -> Seq<u8> {
        encode_utf8(self.buffer@)
    }

    /// Where the middle string starts in the buffer, and where the right
    /// one.
    pub closed spec fn cuts(&self) -> (int, int) {
        (self.split.0 as int, self.split.1 as int)
    }

    /// What holds of every triple: the middle string starts at a character
    /// boundary of the buffer, and the right one at a boundary that is not
    /// before it.
    pub open spec fn wf(&self) -> bool {
        &&& valid_utf8(self.bytes())
        &&& is_char_boundary(self.bytes(), self.cuts().0)
        &&& is_char_boundary(self.bytes(), self.cuts().1)
        &&& 0 <= self.cuts().0 <= self.cuts().1 <= self.bytes().len()
    }

    #[verifier::type_invariant]
    closed spec fn inv(&self) -> bool {
        self.wf()
    }

    /// The bytes of the left, the middle and the right string.
    pub open spec fn parts(&self) -> (Seq<u8>, Seq<u8>, Seq<u8>) {
        (
            self.bytes().subrange(0, self.cuts().0),
            self.bytes().subrange(self.cuts().0, self.cuts().1),
            self.bytes().subrange(self.cuts().1, self.bytes().len() as int),
        )
    }

    /// The left string.
    pub open spec fn spec_left(&self) -> Seq<char> {
        decode_utf8(self.parts().0)
    }

    /// The middle string.
    pub open spec fn spec_middle(&self) -> Seq<char> {
        decode_utf8(self.parts().1)
    }

    /// The right string.
    pub open spec fn spec_right(&self) -> Seq<char> {
        decode_utf8(self.parts().2)
    }

    /// Creates the triple of `s1`, `s2` and `s3`.
    pub fn new(s1: String, s2: &str, s3: &str) -> (triple: StringTriple)
        ensures
            triple.wf(),
            triple.spec_left() == s1@,
            triple.spec_middle() == s2@,
            triple.spec_right() == s3@,
            triple.bytes() == encode_utf8(s1@) + encode_utf8(s2@) + encode_utf8(s3@),
            triple.cuts() == (
                encode_utf8(s1@).len() as int,
                (encode_utf8(s1@).len() + encode_utf8(s2@).len()) as int,
            ),
    {
        let first: usize = s1.as_str().as_bytes().len();
        let mut buffer = s1;
        buffer.append(s2);
        proof {
            lemma_encode_add(s1@, s2@);
        }
        let second: usize = buffer.as_str().as_bytes().len();
        buffer.append(s3);
        proof {
            let x = encode_utf8(s1@);
            let y = encode_utf8(s2@);
            let z = encode_utf8(s3@);
            lemma_encode_add(s1@, s2@);
            lemma_encode_add(s1@ + s2@, s3@);
            lemma_text_of_bytes(s1@, x);
            lemma_text_of_bytes(s2@, y);
            lemma_text_of_bytes(s3@, z);
            lemma_boundary_between(x, y);
            lemma_boundary_between(x + y, z);
            lemma_boundary_between(y, z);
            assert(x + y + z =~= x + (y + z));
            lemma_boundary_between(x, y + z);
            assert((x + y + z).subrange(0, x.len() as int) =~= x);
            assert((x + y + z).subrange(x.len() as int, (x.len() + y.len()) as int) =~= y);
            assert((x + y + z).subrange((x.len() + y.len()) as int, (x + y + z).len() as int) =~= z);
        }
        StringTriple { buffer, split: (first, second) }
    }

    /// Creates a triple from the three strings put together and the places
    /// at which the middle and the right one start. `None` where one of the
    /// places is not a character boundary of the string, or the second lies
    /// before the first.
    pub fn from_raw(string: String, lsplit: usize, rsplit: usize) -> (r: Option<StringTriple>)
        ensures
            r is Some <==> {
                &&& is_char_boundary(encode_utf8(string@), lsplit as int)
                &&& is_char_boundary(encode_utf8(string@), rsplit as int)
                &&& lsplit <= rsplit
            },
            r matches Some(triple) ==> triple.wf() && triple.bytes() == encode_utf8(string@)
                && triple.cuts() == (lsplit as int, rsplit as int),
    {
        proof {
            vstd::utf8::encode_utf8_valid_utf8(string@);
        }
        if lsplit <= rsplit && string.as_str().is_char_boundary(lsplit)
            && string.as_str().is_char_boundary(rsplit) {
            proof {
                lemma_boundary_in_range(encode_utf8(string@), rsplit as int);
            }
            Some(StringTriple { buffer: string, split: (lsplit, rsplit) })
        } else {
            None
        }
    }

    /// Creates a triple from the three strings put together and the places
    /// at which the middle and the right one start, where these are known
    /// to be character boundaries in this order.
    pub fn from_raw_unchecked(string: String, lsplit: usize, rsplit: usize) -> (triple:
        StringTriple)
        requires
            is_char_boundary(encode_utf8(string@), lsplit as int),
            is_char_boundary(encode_utf8(string@), rsplit as int),
            lsplit <= rsplit,
        ensures
            triple.wf(),
            triple.bytes() == encode_utf8(string@),
            triple.cuts() == (lsplit as int, rsplit as int),
    {
        proof {
            vstd::utf8::encode_utf8_valid_utf8(string@);
            lemma_boundary_in_range(encode_utf8(string@), rsplit as int);
        }
        StringTriple { buffer: string, split: (lsplit, rsplit) }
    }

    /// The left string.
    pub fn left(&self) -> (s: &str)
        ensures
            s@ == self.spec_left(),
            encode_utf8(s@) == self.parts().0,
    {
        proof {
            use_type_invariant(self);
        }
        let s = self.buffer.as_str().split_at(self.split.0).0;
        proof {
            lemma_text_of_bytes(s@, self.parts().0);
        }
        s
    }

    /// The middle string.
    pub fn middle(&self) -> (s: &str)
        ensures
            s@ == self.spec_middle(),
            encode_utf8(s@) == self.parts().1,
    {
        proof {
            use_type_invariant(self);
            lemma_boundary_in_prefix(self.bytes(), self.cuts().0, self.cuts().1);
        }
        let upto = self.buffer.as_str().split_at(self.split.1).0;
        let s = upto.split_at(self.split.0).1;
        proof {
            assert(encode_utf8(s@) =~= self.parts().1);
            lemma_text_of_bytes(s@, self.parts().1);
        }
        s
    }

    /// The right string.
    pub fn right(&self) -> (s: &str)
        ensures
            s@ == self.spec_right(),
            encode_utf8(s@) == self.parts().2,
    {
        proof {
            use_type_invariant(self);
        }
        let s = self.buffer.as_str().split_at(self.split.1).1;
        proof {
            lemma_text_of_bytes(s@, self.parts().2);
        }
        s
    }

    /// How the triple stands to `other`: by the left strings, then by the
    /// middle ones, then by the right ones, each compared by its bytes.
    pub fn compare(&self, other: &StringTriple) -> (r: Order)
        ensures
            r == triple_order(self.parts(), other.parts()),
    {
        match compare_units(self.left().as_bytes(), other.left().as_bytes()) {
            Order::Equal => match compare_units(
                self.middle().as_bytes(),
                other.middle().as_bytes(),
            ) {
                Order::Equal => compare_units(self.right().as_bytes(), other.right().as_bytes()),
                found => found,
            },
            found => found,
        }
    }

    /// As `compare`, under the standard library's name for the order.
    pub fn cmp(&self, other: &StringTriple) -> (r: Ordering)
        ensures
            r == ordering_of(triple_order(self.parts(), other.parts())),
    {
        self.compare(other).to_ordering()
    }

    /// The triple written as the call that makes it.
    pub fn debug_string(&self) -> (out: String)
        ensures
            out@ == triple_text(self.spec_left(), self.spec_middle(), self.spec_right()),
    {
        let mut items: Vec<String> = Vec::new();
        items.push(raw::str_debug(self.left()));
        items.push(raw::str_debug(self.middle()));
        items.push(raw::str_debug(self.right()));
        proof {
            assert(texts(items@) =~= seq![
                raw::str_debug_text(self.spec_left()),
                raw::str_debug_text(self.spec_middle()),
                raw::str_debug_text(self.spec_right()),
            ]);
        }
        write_enclosed("StringTriple::new(", items.as_slice(), ")")
    }
}

impl Clone for StringTriple {
    /// A triple of the same strings in a buffer of its own.
    fn clone(&self) -> (triple: StringTriple)
        ensures
            triple.wf(),
            triple.bytes() == self.bytes(),
            triple.cuts() == self.cuts(),
    {
        proof {
            use_type_invariant(self);
        }
        StringTriple { buffer: self.buffer.clone(), split: self.split }
    }
}

impl Default for StringTriple {
    /// The triple of three empty strings.
    fn default() -> (triple: StringTriple)
        ensures
            triple.wf(),
            triple.bytes().len() == 0,
            triple.cuts() == (0int, 0int),
    {
        let buffer = String::new();
        proof {
            vstd::utf8::encode_utf8_valid_utf8(buffer@);
        }
        StringTriple { buffer, split: (0, 0) }
    }
}

impl PartialEq for StringTriple {
    /// Whether both hold the same three strings.
    fn eq(&self, other: &StringTriple) -> (r: bool) {
        proof {
            lemma_text_of_bytes(self.buffer@, self.bytes());
            lemma_text_of_bytes(other.buffer@, other.bytes());
        }
        self.buffer == other.buffer && self.split.0 == other.split.0 && self.split.1
            == other.split.1
    }
}

impl vstd::std_specs::cmp::PartialEqSpecImpl for StringTriple {
    open spec fn obeys_eq_spec() -> bool {
        true
    }

    open spec fn eq_spec(&self, other: &StringTriple) -> bool {
        self.bytes() == other.bytes() && self.cuts() == other.cuts()
    }
}

impl Eq for StringTriple {

}

impl PartialOrd for StringTriple {
    /// How the triple stands to `other`; there is always an answer.
    fn partial_cmp(&self, other: &StringTriple) -> (r: Option<Ordering>) {
        Some(self.cmp(other))
    }
}

impl vstd::std_specs::cmp::PartialOrdSpecImpl for StringTriple {
    open spec fn obeys_partial_cmp_spec() -> bool {
        true
    }

    open spec fn partial_cmp_spec(&self, other: &StringTriple) -> Option<Ordering> {
        Some(ordering_of(triple_order(self.parts(), other.parts())))
    }
}

} // verus!
