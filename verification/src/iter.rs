//! A cursor over the segments of a packed container.
use crate::access::{holds, segment_at};
use crate::buffer::Unit;
use crate::packed::{raws, segments};
use crate::strlike::{StrData, StrLike};
use vstd::prelude::*;

verus! {

/// Walks the segments of a container from the first to the last.
pub struct Iter<'a, T: StrLike + ?Sized> {
    buffer: &'a T::Data,
    split: &'a [usize],
    idx: usize,
}

impl<'a, T: StrLike + ?Sized> Iter<'a, T> {
    /// The raw data of the segments that are still to come, in order.
    pub closed spec fn remaining(&self) -> Seq<Seq<Unit<T>>> {
        segments(self.buffer.units(), self.split@).skip(self.idx as int)
    }

    #[verifier::type_invariant]
    closed spec fn inv(&self) -> bool {
        holds::<T>(self.buffer.units(), self.split@) && self.idx <= self.split@.len()
    }

    /// A cursor before the first segment that `split` cuts out of `buffer`.
    pub fn new(buffer: &'a T::Data, split: &'a [usize]) -> (it: Iter<'a, T>)
        requires
            holds::<T>(buffer.units(), split@),
        ensures
            it.remaining() == segments(buffer.units(), split@),
    {
        assert(segments(buffer.units(), split@).skip(0) =~= segments(buffer.units(), split@));
        Iter { buffer, split, idx: 0 }
    }

    /// The next segment, if there is one; the cursor moves behind it.
    pub fn next(&mut self) -> (r: Option<&'a T>)
        ensures
            r is Some <==> old(self).remaining().len() > 0,
            r matches Some(s) ==> {
                &&& s.raw() == old(self).remaining()[0]
                &&& final(self).remaining() == old(self).remaining().drop_first()
            },
            r is None ==> final(self).remaining() == old(self).remaining(),
    {
        proof {
            use_type_invariant(&*self);
        }
        let idx: usize = self.idx;
        let n: usize = self.split.len();
        match segment_at::<T>(self.buffer, self.split, idx) {
            Ok(s) => {
                assert(idx < n);
                let ghost all = segments(self.buffer.units(), self.split@);
                assert(all.skip(self.idx as int + 1) =~= all.skip(self.idx as int).drop_first());
                self.idx = idx + 1;
                Some(s)
            },
            Err(_) => None,
        }
    }

    /// The segments that are still to come, in order.
    pub fn collect(self) -> (v: Vec<&'a T>)
        ensures
            raws::<T>(v@) == self.remaining(),
    {
        let ghost all = self.remaining();
        let mut it = self;
        let mut v: Vec<&'a T> = Vec::new();
        proof {
            assert(all.skip(0) =~= all);
            assert(raws::<T>(v@) =~= all.take(0));
        }
        loop
            invariant
                all == self.remaining(),
                v@.len() <= all.len(),
                raws::<T>(v@) == all.take(v@.len() as int),
                it.remaining() == all.skip(v@.len() as int),
            ensures
                raws::<T>(v@) == all,
            decreases all.len() - v@.len(),
        {
            let ghost k = v@.len() as int;
            match it.next() {
                None => {
                    assert(all.take(k) =~= all);
                    break ;
                },
                Some(s) => {
                    v.push(s);
                    assert(raws::<T>(v@) =~= all.take(k + 1));
                    assert(all.skip(k).drop_first() =~= all.skip(k + 1));
                },
            }
        }
        v
    }
}

impl<'a, T: StrLike + ?Sized> Clone for Iter<'a, T> {
    /// A cursor at the same place, which moves on its own.
    fn clone(&self) -> (it: Self)
        ensures
            it.remaining() == self.remaining(),
    {
        proof {
            use_type_invariant(self);
        }
        Iter { buffer: self.buffer, split: self.split, idx: self.idx }
    }
}

} // verus!
