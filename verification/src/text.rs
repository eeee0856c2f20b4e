//! Containers of text written out: a list of quoted strings between
//! brackets.
use crate::array::Static;
use crate::iter::Iter;
use crate::raw;
use crate::vec::Dynamic;
use vstd::prelude::*;
use vstd::string::StringExecFns;

verus! {

/// The texts of the strings, in order.
pub open spec fn texts(items: Seq<String>) -> Seq<Seq<char>> {
    Seq::new(items.len(), |i: int| items[i]@)
}

/// The texts with a comma and a space between each two.
pub open spec fn joined(items: Seq<Seq<char>>) -> Seq<char>
    decreases items.len(),
{
    if items.len() == 0 {
        Seq::empty()
    } else if items.len() == 1 {
        items[0]
    } else {
        joined(items.drop_last()) + seq![',', ' '] + items.last()
    }
}

/// The joined texts between `open` and `close`.
pub open spec fn enclosed(open: Seq<char>, items: Seq<Seq<char>>, close: Seq<char>) -> Seq<char> {
    open + joined(items) + close
}

/// The quoted form of the text that the bytes `segment` encode.
pub open spec fn quoted(segment: Seq<u8>) -> Seq<char> {
    raw::str_debug_text(vstd::utf8::decode_utf8(segment))
}

/// The quoted forms of the segments, in order.
pub open spec fn quoted_all(segs: Seq<Seq<u8>>) -> Seq<Seq<char>> {
    Seq::new(segs.len(), |i: int| quoted(segs[i]))
}

/// The segments as a list: the quoted forms between square brackets.
pub open spec fn list_text(segs: Seq<Seq<u8>>) -> Seq<char> {
    enclosed(seq!['['], quoted_all(segs), seq![']'])
}

/// Writes the strings between `open` and `close`, with a comma and a space
/// between each two.
pub fn write_enclosed(open: &str, items: &[String], close: &str) -> (out: String)
    ensures
        out@ == enclosed(open@, texts(items@), close@),
{
    let ghost all = texts(items@);
    let mut out = String::from_str(open);
    let n: usize = items.len();
    let mut i: usize = 0;
    proof {
        reveal_strlit(", ");
        assert(", "@ =~= seq![',', ' ']);
        assert(all.take(0) =~= Seq::<Seq<char>>::empty());
        assert(open@ + Seq::<char>::empty() =~= open@);
    }
    while i < n
        invariant
            0 <= i <= n,
            n == items@.len(),
            all == texts(items@),
            out@ == open@ + joined(all.take(i as int)),
            ", "@ == seq![',', ' '],
        decreases n - i,
    {
        if i > 0 {
            out.append(", ");
        }
        out.append(items[i].as_str());
        proof {
            assert(all.take(i + 1).drop_last() =~= all.take(i as int));
            assert(all.take(i + 1).last() == items@[i as int]@);
            if i == 0 {
                assert(all.take(1)[0] == items@[0]@);
                assert(out@ =~= open@ + joined(all.take(1)));
            } else {
                assert(out@ =~= open@ + joined(all.take(i + 1)));
            }
        }
        i = i + 1;
    }
    out.append(close);
    proof {
        assert(all.take(n as int) =~= all);
    }
    out
}

/// The quoted forms of what a cursor over text still has to give.
pub fn quote_all<'a>(items: Iter<'a, str>) -> (out: Vec<String>)
    ensures
        texts(out@) == quoted_all(items.remaining()),
{
    let ghost segs = items.remaining();
    let mut it = items;
    let mut out: Vec<String> = Vec::new();
    proof {
        assert(segs.skip(0) =~= segs);
    }
    loop
        invariant
            segs == items.remaining(),
            out@.len() <= segs.len(),
            it.remaining() == segs.skip(out@.len() as int),
            forall|j: int| 0 <= j < out@.len() ==> out@[j]@ == quoted(segs[j]),
        ensures
            texts(out@) == quoted_all(segs),
        decreases segs.len() - out@.len(),
    {
        let ghost k = out@.len() as int;
        match it.next() {
            None => {
                assert(texts(out@) =~= quoted_all(segs));
                break ;
            },
            Some(s) => {
                let item = raw::str_debug(s);
                proof {
                    assert(segs.skip(k)[0] == segs[k]);
                    vstd::utf8::encode_utf8_decode_utf8(s@);
                    assert(segs.skip(k).drop_first() =~= segs.skip(k + 1));
                }
                out.push(item);
            },
        }
    }
    out
}

/// Writes what a cursor over text still has to give as a list.
pub fn debug_list<'a>(items: Iter<'a, str>) -> (out: String)
    ensures
        out@ == list_text(items.remaining()),
{
    proof {
        reveal_strlit("[");
        reveal_strlit("]");
        assert("["@ =~= seq!['[']);
        assert("]"@ =~= seq![']']);
    }
    let quoted = quote_all(items);
    write_enclosed("[", quoted.as_slice(), "]")
}

impl Dynamic<str> {
    /// The vector as a list of quoted strings.
    pub fn debug_string(&self) -> (out: String)
        ensures
            out@ == list_text(self@),
    {
        debug_list(self.iter())
    }
}

impl<const N: usize> Static<str, N> {
    /// The array as a list of quoted strings.
    pub fn debug_string(&self) -> (out: String)
        ensures
            out@ == list_text(self@),
    {
        debug_list(self.iter())
    }
}

} // verus!
