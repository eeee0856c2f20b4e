//! A growable packed vector: segments are added and removed at the end, and
//! two vectors can be joined or one split in two.
use crate::access::{replaced, segment_at, segment_run, write_segment, ReplaceError};
use crate::buffer::{Buffer, Unit};
use crate::iter::Iter;
use crate::order::{
    compare_segments, lemma_lex_segments, lex_segments, ordering_of, same_segments, OrdUnit,
    Order,
};
use crate::packed::{
    all_valid, concat, lemma_all_valid_add, lemma_all_valid_skip, lemma_all_valid_take,
    lemma_append, lemma_buffer_is_concat, lemma_concat_push, lemma_push, lemma_skip,
    lemma_table_is_offsets, lemma_take, offsets, raws, segments, shifted_down, shifted_up, tight,
};
use crate::raw;
use crate::split::{boundary, fits, non_decreasing, IndexOutOfRange, SplitRange};
use crate::strlike::{DataConcat, OwnsStrData, StrData, StrLike, StrLikeMut};
use core::cmp::Ordering;
use vstd::prelude::*;

verus! {

/// A vector of segments of the kind `T`, stored end to end in one buffer.
pub struct Dynamic<T: StrLike + ?Sized> {
    buffer: Buffer<T>,
    split: Vec<usize>,
}

impl<T: StrLike + ?Sized> View for Dynamic<T> {
    type V = Seq<Seq<Unit<T>>>;

    /// The raw data of the segments, in order.
    open spec fn view(&self) -> Seq<Seq<Unit<T>>> {
        segments(self.units(), self.table())
    }
}

impl<T: StrLike + ?Sized> Dynamic<T> {
    /// The units of the buffer.
    pub closed spec fn units(&self) -> Seq<Unit<T>> {
        self.buffer.units()
    }

    /// The offset table: the end of each segment in the buffer.
    pub closed spec fn table(&self) -> Seq<usize> {
        self.split@
    }

    /// What holds of every vector: the table never decreases, it ends where
    /// the buffer ends, and each segment is valid for the kind.
    pub open spec fn wf(&self) -> bool {
        &&& fits(0, self.table(), self.units().len() as int)
        &&& tight(self.units().len(), self.table())
        &&& all_valid::<T>(self@)
    }

    #[verifier::type_invariant]
    closed spec fn inv(&self) -> bool {
        self.wf()
    }

    /// Creates an empty vector.
    pub fn new() -> (v: Dynamic<T>)
        ensures
            v.wf(),
            v@.len() == 0,
            v.units().len() == 0,
    {
        Dynamic { buffer: Buffer::empty(), split: Vec::new() }
    }

    /// Moves the content out and leaves the vector empty.
    fn take(&mut self) -> (this: Dynamic<T>)
        ensures
            this == *old(self),
            final(self)@.len() == 0,
            final(self).units().len() == 0,
    {
        let mut this = Dynamic::new();
        core::mem::swap(self, &mut this);
        this
    }

    /// The number of segments.
    pub fn len(&self) -> (n: usize)
        ensures
            n == self@.len(),
    {
        self.split.len()
    }

    /// The buffer and the offset table of the vector. Of every vector the
    /// table never decreases, and its last entry is the length of the buffer.
    pub fn raw_parts(&self) -> (parts: (&T::Data, &[usize]))
        ensures
            parts.0.units() == self.units(),
            parts.1@ == self.table(),
            non_decreasing(0, parts.1@),
            boundary(0, parts.1@, parts.1@.len() as int) == parts.0.units().len(),
            self.wf(),
    {
        proof {
            use_type_invariant(self);
        }
        (self.buffer.borrow(), self.split.as_slice())
    }

    /// The number of units of all segments together.
    pub fn data_len(&self) -> (n: usize)
        ensures
            n == self.units().len(),
            n == concat(self@).len(),
    {
        proof {
            use_type_invariant(self);
            lemma_buffer_is_concat(self.units(), self.table());
        }
        self.buffer.len()
    }

    /// Whether the vector holds no segment.
    pub fn is_empty(&self) -> (b: bool)
        ensures
            b == (self@.len() == 0),
    {
        self.split.len() == 0
    }

    /// Adds a segment at the end.
    pub fn push(&mut self, t: &T)
        ensures
            final(self).wf(),
            final(self)@ == old(self)@.push(t.raw()),
            final(self).units() == old(self).units() + t.raw(),
    {
        proof {
            use_type_invariant(&*self);
        }
        let ghost before = *self;
        let Dynamic { buffer, mut split } = self.take();
        let mut owned = buffer.into_owned();
        let data = t.to_data();
        owned.push_back(data);
        let end: usize = owned.len();
        split.push(end);
        proof {
            lemma_push(before.units(), before.table(), t.raw());
        }
        *self = Dynamic { buffer: Buffer::Owned(owned), split };
    }

    /// Removes the last segment. Says whether there was one.
    pub fn pop(&mut self) -> (popped: bool)
        ensures
            final(self).wf(),
            popped == (old(self)@.len() > 0),
            popped ==> final(self)@ == old(self)@.drop_last(),
            !popped ==> final(self)@ == old(self)@,
    {
        proof {
            use_type_invariant(&*self);
        }
        let ghost before = *self;
        let Dynamic { buffer, mut split } = self.take();
        match split.pop() {
            None => {
                *self = Dynamic { buffer, split };
                false
            },
            Some(_) => {
                let idx: usize = match split.last() {
                    Some(last) => *last,
                    None => 0,
                };
                let mut owned = buffer.into_owned();
                owned.truncate(idx);
                proof {
                    let k = before.table().len() - 1;
                    lemma_take(before.units(), before.table(), k);
                    assert(split@ =~= before.table().take(k));
                    assert(before@.take(k) =~= before@.drop_last());
                }
                *self = Dynamic { buffer: Buffer::Owned(owned), split };
                true
            },
        }
    }

    /// Creates an empty vector with room for `num` segments of `data` units
    /// in all.
    pub fn with_capacities(num: usize, data: usize) -> (v: Dynamic<T>)
        requires
            num <= raw::max_elements::<usize>(),
            data <= T::OwnedData::max_units(),
        ensures
            v.wf(),
            v@.len() == 0,
            v.units().len() == 0,
    {
        Dynamic {
            buffer: Buffer::Owned(T::OwnedData::with_capacity(data)),
            split: raw::vec_with_capacity(num),
        }
    }

    /// The number of segments that the vector has room for.
    pub fn num_capacity(&self) -> (n: usize)
        ensures
            n >= self@.len(),
    {
        raw::vec_capacity(&self.split)
    }

    /// The number of units that the buffer has room for.
    pub fn data_capacity(&self) -> (n: usize)
        ensures
            n >= self.units().len(),
    {
        self.buffer.capacity()
    }

    /// Makes room for `additional` more segments of `bytes` more units in
    /// all. The segments stay as they are.
    pub fn reserve(&mut self, additional: usize, bytes: usize)
        requires
            old(self)@.len() + additional <= raw::max_elements::<usize>(),
            old(self).units().len() + bytes <= T::OwnedData::max_units(),
        ensures
            final(self).wf(),
            final(self)@ == old(self)@,
            final(self).units() == old(self).units(),
    {
        proof {
            use_type_invariant(&*self);
        }
        let Dynamic { buffer, mut split } = self.take();
        let mut owned = buffer.into_owned();
        owned.reserve(bytes);
        raw::vec_reserve(&mut split, additional);
        *self = Dynamic { buffer: Buffer::Owned(owned), split };
    }

    /// As `reserve`, asking for no more room than is needed.
    pub fn reserve_exact(&mut self, additional: usize, bytes: usize)
        requires
            old(self)@.len() + additional <= raw::max_elements::<usize>(),
            old(self).units().len() + bytes <= T::OwnedData::max_units(),
        ensures
            final(self).wf(),
            final(self)@ == old(self)@,
            final(self).units() == old(self).units(),
    {
        proof {
            use_type_invariant(&*self);
        }
        let Dynamic { buffer, mut split } = self.take();
        let mut owned = buffer.into_owned();
        owned.reserve_exact(bytes);
        raw::vec_reserve_exact(&mut split, additional);
        *self = Dynamic { buffer: Buffer::Owned(owned), split };
    }

    /// Gives up room that is not in use. The segments stay as they are.
    pub fn shrink_to_fit(&mut self)
        ensures
            final(self).wf(),
            final(self)@ == old(self)@,
            final(self).units() == old(self).units(),
    {
        proof {
            use_type_invariant(&*self);
        }
        let Dynamic { buffer, mut split } = self.take();
        let mut owned = buffer.into_owned();
        owned.shrink_to_fit();
        raw::vec_shrink_to_fit(&mut split);
        *self = Dynamic { buffer: Buffer::Owned(owned), split };
    }

    /// Keeps the first `len` segments and drops the rest. Nothing changes
    /// where the vector has no more than `len` segments.
    pub fn truncate(&mut self, len: usize)
        ensures
            final(self).wf(),
            len < old(self)@.len() ==> final(self)@ == old(self)@.take(len as int),
            len >= old(self)@.len() ==> final(self)@ == old(self)@,
    {
        proof {
            use_type_invariant(&*self);
        }
        if len < self.split.len() {
            let ghost before = *self;
            let Dynamic { buffer, mut split } = self.take();
            let cut: usize = if len == 0 {
                0
            } else {
                split[len - 1]
            };
            let mut owned = buffer.into_owned();
            proof {
                lemma_take(before.units(), before.table(), len as int);
            }
            owned.truncate(cut);
            split.truncate(len);
            proof {
                assert(split@ =~= before.table().take(len as int));
                assert(owned.units() =~= before.units().take(cut as int));
                lemma_all_valid_take::<T>(before@, len as int);
            }
            *self = Dynamic { buffer: Buffer::Owned(owned), split };
        }
    }

    /// Removes every segment.
    pub fn clear(&mut self)
        ensures
            final(self).wf(),
            final(self)@.len() == 0,
            final(self).units().len() == 0,
    {
        proof {
            use_type_invariant(&*self);
        }
        let Dynamic { buffer, mut split } = self.take();
        let mut owned = buffer.into_owned();
        owned.clear();
        split.clear();
        *self = Dynamic { buffer: Buffer::Owned(owned), split };
    }

    /// Moves the segments of `other` behind those of `self`, and leaves
    /// `other` empty.
    pub fn append(&mut self, other: &mut Dynamic<T>)
        ensures
            final(self).wf(),
            final(other).wf(),
            final(self)@ == old(self)@ + old(other)@,
            final(self).units() == old(self).units() + old(other).units(),
            final(other)@.len() == 0,
            final(other).units().len() == 0,
    {
        proof {
            use_type_invariant(&*self);
            use_type_invariant(&*other);
        }
        let ghost a = *self;
        let ghost b = *other;
        let Dynamic { buffer, mut split } = self.take();
        let Dynamic { buffer: other_buffer, split: mut other_split } = other.take();
        let mut owned = buffer.into_owned();
        let idx: usize = owned.len();
        owned.push_back(other_buffer.borrow());
        let total: usize = owned.len();
        let n: usize = other_split.len();
        let mut i: usize = 0;
        while i < n
            invariant
                0 <= i <= n,
                n == b.table().len(),
                other_split@.len() == n,
                fits(0, b.table(), b.units().len() as int),
                total == idx + b.units().len(),
                forall|j: int| 0 <= j < i ==> other_split@[j] == b.table()[j] + idx,
                forall|j: int| i <= j < n ==> other_split@[j] == b.table()[j],
            decreases n - i,
        {
            proof {
                assert(boundary(0, b.table(), i + 1) <= boundary(
                    0,
                    b.table(),
                    b.table().len() as int,
                ));
            }
            let moved: usize = other_split[i] + idx;
            other_split.set(i, moved);
            i = i + 1;
        }
        proof {
            assert(other_split@ =~= shifted_up(b.table(), idx as int));
            lemma_append(a.units(), a.table(), b.units(), b.table());
            lemma_all_valid_add::<T>(a@, b@);
        }
        let mut other_owned = other_buffer.into_owned();
        other_owned.clear();
        split.append(&mut other_split);
        *self = Dynamic { buffer: Buffer::Owned(owned), split };
        *other = Dynamic { buffer: Buffer::Owned(other_owned), split: other_split };
    }

    /// Splits the vector in two at segment `at`: the vector keeps the
    /// segments before `at`, and those from `at` on are handed out. An error,
    /// and no change, where the vector has fewer than `at` segments.
    pub fn split_off(&mut self, at: usize) -> (r: Result<Dynamic<T>, IndexOutOfRange>)
        ensures
            final(self).wf(),
            r is Ok <==> at <= old(self)@.len(),
            r matches Ok(tail) ==> {
                &&& tail.wf()
                &&& final(self)@ == old(self)@.take(at as int)
                &&& tail@ == old(self)@.skip(at as int)
            },
            r is Err ==> *final(self) == *old(self),
    {
        proof {
            use_type_invariant(&*self);
        }
        if at > self.split.len() {
            return Err(IndexOutOfRange);
        }
        let ghost before = *self;
        let Dynamic { buffer, mut split } = self.take();
        let mut new_split = split.split_off(at);
        let cut: usize = match split.last() {
            Some(last) => *last,
            None => 0,
        };
        proof {
            lemma_skip(before.units(), before.table(), at as int);
            lemma_take(before.units(), before.table(), at as int);
            assert(split@ =~= before.table().take(at as int));
            assert(new_split@ =~= before.table().skip(at as int));
            assert(cut == boundary(0, before.table(), at as int));
        }
        let n: usize = new_split.len();
        let mut i: usize = 0;
        while i < n
            invariant
                0 <= i <= n,
                n == new_split@.len(),
                n == before.table().len() - at,
                0 <= at <= before.table().len(),
                forall|j: int| at <= j < before.table().len() ==> cut <= #[trigger] before.table()[j],
                forall|j: int| 0 <= j < i ==> new_split@[j] == before.table()[at + j] - cut,
                forall|j: int| i <= j < n ==> new_split@[j] == before.table()[at + j],
            decreases n - i,
        {
            proof {
                assert(cut <= before.table()[at + i]);
            }
            let moved: usize = new_split[i] - cut;
            new_split.set(i, moved);
            i = i + 1;
        }
        let mut owned = buffer.into_owned();
        let new_buffer = owned.split_off(cut);
        proof {
            assert(new_split@ =~= shifted_down(before.table().skip(at as int), cut as int));
            assert(owned.units() =~= before.units().take(cut as int));
            assert(new_buffer.units() =~= before.units().skip(cut as int));
            lemma_all_valid_take::<T>(before@, at as int);
            lemma_all_valid_skip::<T>(before@, at as int);
        }
        *self = Dynamic { buffer: Buffer::Owned(owned), split };
        Ok(Dynamic { buffer: Buffer::Owned(new_buffer), split: new_split })
    }

    /// Removes the last segment and hands it out as a value that owns its
    /// data. `None` where the vector is empty.
    pub fn pop_off(&mut self) -> (r: Option<T::Owned>)
        ensures
            final(self).wf(),
            r is Some <==> old(self)@.len() > 0,
            r matches Some(owned) ==> {
                &&& T::owned_raw(&owned) == old(self)@.last()
                &&& final(self)@ == old(self)@.drop_last()
            },
            r is None ==> final(self)@ == old(self)@,
    {
        proof {
            use_type_invariant(&*self);
        }
        let ghost before = *self;
        let Dynamic { buffer, mut split } = self.take();
        match split.pop() {
            None => {
                *self = Dynamic { buffer, split };
                None
            },
            Some(_) => {
                let idx: usize = match split.last() {
                    Some(last) => *last,
                    None => 0,
                };
                let mut owned = buffer.into_owned();
                proof {
                    let k = before.table().len() - 1;
                    lemma_take(before.units(), before.table(), k);
                    assert(split@ =~= before.table().take(k));
                    assert(before@.take(k) =~= before@.drop_last());
                    assert(idx == boundary(0, before.table(), k));
                    assert(T::valid(before@[k]));
                    assert(before@[k] =~= before.units().subrange(
                        idx as int,
                        before.units().len() as int,
                    ));
                    lemma_all_valid_take::<T>(before@, k);
                }
                let last = SplitRange { start: idx, end: None }.index_into(owned.borrow());
                let ret = T::from_data_unchecked(last).to_owned_segment();
                owned.truncate(idx);
                *self = Dynamic { buffer: Buffer::Owned(owned), split };
                Some(ret)
            },
        }
    }

    /// A cursor over the segments, from the first to the last.
    pub fn iter(&self) -> (it: Iter<'_, T>)
        ensures
            it.remaining() == self@,
    {
        proof {
            use_type_invariant(self);
        }
        Iter::new(self.buffer.borrow(), self.split.as_slice())
    }

    /// The segments, in order.
    pub fn to_vec(&self) -> (v: Vec<&T>)
        ensures
            raws::<T>(v@) == self@,
    {
        self.iter().collect()
    }

    /// Adds the segments of `items` at the end, in order.
    pub fn extend(&mut self, items: &[&T])
        ensures
            final(self).wf(),
            final(self)@ == old(self)@ + raws::<T>(items@),
    {
        proof {
            use_type_invariant(&*self);
        }
        let n: usize = items.len();
        let mut i: usize = 0;
        assert(raws::<T>(items@).take(0) =~= Seq::empty());
        assert(old(self)@ + Seq::<Seq<Unit<T>>>::empty() =~= old(self)@);
        assert(old(self).units() + Seq::<Unit<T>>::empty() =~= old(self).units());
        while i < n
            invariant
                0 <= i <= n,
                n == items@.len(),
                self.wf(),
                self@ == old(self)@ + raws::<T>(items@).take(i as int),
                self.units() == old(self).units() + concat(raws::<T>(items@).take(i as int)),
            decreases n - i,
        {
            let ghost all = raws::<T>(items@);
            proof {
                assert(all.take(i + 1) =~= all.take(i as int).push(items@[i as int].raw()));
                lemma_concat_push(all.take(i as int), items@[i as int].raw());
            }
            self.push(items[i]);
            proof {
                assert(self@ =~= old(self)@ + all.take(i + 1));
                assert(self.units() =~= old(self).units() + concat(all.take(i + 1)));
            }
            i = i + 1;
        }
        assert(raws::<T>(items@).take(n as int) =~= raws::<T>(items@));
    }

    /// Creates a vector that holds the segments of `items`, in order.
    pub fn from_slice(items: &[&T]) -> (v: Dynamic<T>)
        ensures
            v.wf(),
            v@ == raws::<T>(items@),
            v.units() == concat(raws::<T>(items@)),
            v.table() == offsets(raws::<T>(items@)),
    {
        let mut v = Dynamic::new();
        v.extend(items);
        proof {
            assert(Seq::<Seq<Unit<T>>>::empty() + raws::<T>(items@) =~= raws::<T>(items@));
            lemma_buffer_is_concat(v.units(), v.table());
            lemma_table_is_offsets(v.units(), v.table());
        }
        v
    }

    /// Segment `index`, or an error where the vector has no such segment.
    pub fn index(&self, index: usize) -> (r: Result<&T, IndexOutOfRange>)
        ensures
            r is Ok <==> index < self@.len(),
            r matches Ok(s) ==> s.raw() == self@[index as int],
    {
        proof {
            use_type_invariant(self);
        }
        segment_at::<T>(self.buffer.borrow(), self.split.as_slice(), index)
    }
}

impl<T: DataConcat + ?Sized> Dynamic<T> {
    /// The segments of `range` as one segment: their data put end to end.
    /// An empty range gives an empty segment. An error where the range is
    /// inverted or reaches beyond the last segment.
    pub fn slice(&self, range: SplitRange) -> (r: Result<&T, IndexOutOfRange>)
        ensures
            r is Ok <==> range.start <= range.end_in(self@.len()) <= self@.len(),
            r matches Ok(s) ==> s.raw() == concat(
                self@.subrange(range.start as int, range.end_in(self@.len())),
            ),
            r is Ok && range.start == range.end_in(self@.len()) ==> r->Ok_0.raw().len() == 0,
    {
        proof {
            use_type_invariant(self);
        }
        segment_run::<T>(self.buffer.borrow(), self.split.as_slice(), range)
    }
}

impl<T: StrLikeMut + ?Sized> Dynamic<T> {
    /// Writes the segment `new` over segment `index`, in place: the other
    /// segments and the offset table stay as they are. An error, and no
    /// change of the segments, where the vector has no such segment or the
    /// new one has another number of units.
    pub fn set(&mut self, index: usize, new: &T) -> (r: Result<(), ReplaceError>)
        ensures
            final(self).wf(),
            final(self).table() == old(self).table(),
            match replaced(old(self)@, index, new.raw()) {
                Ok(segs) => r is Ok && final(self)@ == segs,
                Err(e) => r == Err::<(), ReplaceError>(e) && final(self)@ == old(self)@,
            },
    {
        proof {
            use_type_invariant(&*self);
        }
        let Dynamic { buffer, split } = self.take();
        let mut owned = buffer.into_owned();
        let r = write_segment::<T>(&mut owned, split.as_slice(), index, new);
        *self = Dynamic { buffer: Buffer::Owned(owned), split };
        r
    }
}

impl<U: OrdUnit, T: StrLike<Data = [U]> + ?Sized> Dynamic<T> {
    /// How the vector stands to `other`: lexicographically by segments, and
    /// each pair of segments by their units.
    pub fn compare(&self, other: &Dynamic<T>) -> (r: Order)
        ensures
            r == lex_segments::<U>(self@, other@),
    {
        compare_segments(self.iter(), other.iter())
    }

    /// As `compare`, under the standard library's name for the order.
    pub fn cmp(&self, other: &Dynamic<T>) -> (r: Ordering)
        ensures
            r == ordering_of(lex_segments::<U>(self@, other@)),
    {
        self.compare(other).to_ordering()
    }

    /// Whether the vector holds exactly the segments of `items`.
    pub fn eq_slice(&self, items: &[&T]) -> (r: bool)
        ensures
            r == (self@ == raws::<T>(items@)),
    {
        same_segments(self.iter(), items)
    }
}

impl<U: OrdUnit, T: StrLike<Data = [U]> + ?Sized> PartialEq for Dynamic<T> {
    /// Whether both hold the same segments.
    fn eq(&self, other: &Dynamic<T>) -> (r: bool) {
        proof {
            lemma_lex_segments::<U>(self@, other@);
        }
        match self.compare(other) {
            Order::Equal => true,
            _ => false,
        }
    }
}

impl<U: OrdUnit, T: StrLike<Data = [U]> + ?Sized> vstd::std_specs::cmp::PartialEqSpecImpl for Dynamic<T> {
    open spec fn obeys_eq_spec() -> bool {
        true
    }

    open spec fn eq_spec(&self, other: &Dynamic<T>) -> bool {
        self@ == other@
    }
}

impl<U: OrdUnit, T: StrLike<Data = [U]> + ?Sized> Eq for Dynamic<T> {

}

impl<U: OrdUnit, T: StrLike<Data = [U]> + ?Sized> PartialOrd for Dynamic<T> {
    /// How the vector stands to `other`; there is always an answer.
    fn partial_cmp(&self, other: &Dynamic<T>) -> (r: Option<Ordering>) {
        Some(self.cmp(other))
    }
}

impl<U: OrdUnit, T: StrLike<Data = [U]> + ?Sized> vstd::std_specs::cmp::PartialOrdSpecImpl for Dynamic<T> {
    open spec fn obeys_partial_cmp_spec() -> bool {
        true
    }

    open spec fn partial_cmp_spec(&self, other: &Dynamic<T>) -> Option<Ordering> {
        Some(ordering_of(lex_segments::<U>(self@, other@)))
    }
}

impl<T: StrLike + ?Sized> Clone for Dynamic<T> {
    /// A vector of the same segments in a buffer of its own.
    fn clone(&self) -> (v: Dynamic<T>)
        ensures
            v.wf(),
            v@ == self@,
            v.units() == self.units(),
    {
        proof {
            use_type_invariant(self);
        }
        let split = self.split.clone();
        assert(split@ =~= self.split@);
        Dynamic { buffer: self.buffer.duplicate(), split }
    }
}

impl<T: StrLike + ?Sized> Default for Dynamic<T> {
    /// The empty vector.
    fn default() -> (v: Dynamic<T>)
        ensures
            v.wf(),
            v@.len() == 0,
    {
        Dynamic::new()
    }
}

/// A vector of slices that share one buffer.
pub type SliceVec<T> = Dynamic<[T]>;

/// A vector of strings that share one buffer.
pub type StringVec = Dynamic<str>;


} // verus!
