//! A packed array: a fixed number of segments in one buffer.
use crate::access::{holds, replaced, segment_at, segment_run, write_segment, ReplaceError};
use crate::buffer::{Buffer, Unit};
use crate::iter::Iter;
use crate::order::{
    compare_segments, lemma_lex_segments, lex_segments, ordering_of, same_segments, OrdUnit,
    Order,
};
use crate::packed::{all_valid, concat, lemma_concat_push, lemma_push, raws, segments, tight};
use crate::split::{
    boundary, fits, non_decreasing, validity, IndexOutOfRange, Split, SplitError, SplitRange,
};
use crate::strlike::{DataConcat, OwnsStrData, StrData, StrLike, StrLikeMut};
use core::cmp::Ordering;
use vstd::prelude::*;

verus! {

/// Why a buffer and an offset table do not make a packed array.
pub enum RawError<E> {
    /// The offset table does not fit the buffer.
    OffsetTableInvalid(SplitError),
    /// The segment at `index` is not valid for the kind.
    SegmentConversion { index: usize, error: E },
}

/// The least `k >= from` at which the segment is not valid for the kind.
pub open spec fn first_invalid<T: StrLike + ?Sized>(segs: Seq<Seq<Unit<T>>>, from: int) -> Option<
    int,
>
    decreases segs.len() - from,
{
    if from < 0 || from >= segs.len() {
        None
    } else if !T::valid(segs[from]) {
        Some(from)
    } else {
        first_invalid::<T>(segs, from + 1)
    }
}

/// Segments are all valid exactly where no first invalid one is found.
pub proof fn lemma_first_invalid<T: StrLike + ?Sized>(segs: Seq<Seq<Unit<T>>>, from: int)
    requires
        0 <= from <= segs.len(),
    ensures
        match first_invalid::<T>(segs, from) {
            Some(k) => from <= k < segs.len() && !T::valid(segs[k]) && forall|i: int|
                from <= i < k ==> T::valid(#[trigger] segs[i]),
            None => forall|i: int| from <= i < segs.len() ==> T::valid(#[trigger] segs[i]),
        },
    decreases segs.len() - from,
{
    if from < segs.len() && T::valid(segs[from]) {
        lemma_first_invalid::<T>(segs, from + 1);
    }
}

/// `n` copies of the segment `x`.
pub open spec fn repeated<U>(x: Seq<U>, n: nat) -> Seq<Seq<U>> {
    Seq::new(n, |i: int| x)
}

/// An array of `N` segments of the kind `T`, stored end to end in one
/// buffer.
pub struct Static<T: StrLike + ?Sized, const N: usize> {
    buffer: Buffer<T>,
    split: [usize; N],
}

impl<T: StrLike + ?Sized, const N: usize> View for Static<T, N> {
    type V = Seq<Seq<Unit<T>>>;

    /// The raw data of the segments, in order.
    open spec fn view(&self) -> Seq<Seq<Unit<T>>> {
        segments(self.units(), self.table())
    }
}

impl<T: StrLike + ?Sized, const N: usize> Static<T, N> {
    /// The units of the buffer.
    pub closed spec fn units(&self) -> Seq<Unit<T>> {
        self.buffer.units()
    }

    /// The offset table: the end of each segment in the buffer.
    pub closed spec fn table(&self) -> Seq<usize> {
        self.split@
    }

    /// What holds of every array: it has `N` segments, the table never
    /// decreases and ends inside the buffer, and each segment is valid for
    /// the kind.
    pub open spec fn wf(&self) -> bool {
        &&& self.table().len() == N
        &&& holds::<T>(self.units(), self.table())
    }

    #[verifier::type_invariant]
    closed spec fn inv(&self) -> bool {
        self.wf()
    }

    /// Creates an array of the given segments.
    pub fn new(inner: [&T; N]) -> (s: Static<T, N>)
        ensures
            s.wf(),
            s@ == raws::<T>(inner@),
            tight(s.units().len(), s.table()),
    {
        let ghost all = raws::<T>(inner@);
        let mut buffer = T::OwnedData::from_data(T::Data::default_ref());
        let mut split = [0usize;N];
        let mut acc: usize = 0;
        let mut i: usize = 0;
        assert(buffer.units() =~= Seq::empty());
        assert(segments(buffer.units(), split@.take(0)) =~= all.take(0));
        while i < N
            invariant
                0 <= i <= N,
                all == raws::<T>(inner@),
                all.len() == N,
                split@.len() == N,
                acc == buffer.units().len(),
                buffer.units() == concat(all.take(i as int)),
                fits(0, split@.take(i as int), acc as int),
                tight(acc as nat, split@.take(i as int)),
                segments(buffer.units(), split@.take(i as int)) == all.take(i as int),
                all_valid::<T>(all.take(i as int)),
            decreases N - i,
        {
            let data = inner[i].to_data();
            let ghost table = split@.take(i as int);
            let ghost before = buffer.units();
            buffer.push_back(data);
            acc = buffer.len();
            proof {
                assert(all.take(i + 1) =~= all.take(i as int).push(all[i as int]));
                lemma_concat_push(all.take(i as int), all[i as int]);
                lemma_push(before, table, all[i as int]);
            }
            split[i] = acc;
            proof {
                assert(split@.take(i + 1) =~= table.push(acc));
                assert forall|j: int| 0 <= j < all.take(i + 1).len() implies T::valid(
                    #[trigger] all.take(i + 1)[j],
                ) by {
                    if j < i {
                        assert(all.take(i as int)[j] == all.take(i + 1)[j]);
                    }
                }
            }
            i = i + 1;
        }
        proof {
            assert(split@.take(N as int) =~= split@);
            assert(all.take(N as int) =~= all);
        }
        Static { buffer: Buffer::Owned(buffer), split }
    }

    /// Creates an array from a buffer and the offsets at which its segments
    /// end. The table is checked against the buffer first, then each
    /// segment in turn against the kind; the first fault is the error.
    pub fn from_raw(buffer: Buffer<T>, split: [usize; N]) -> (r: Result<
        Static<T, N>,
        RawError<T::ConvError>,
    >)
        ensures
            match validity(0, split@, buffer.units().len() as int) {
                Err(e) => r matches Err(RawError::OffsetTableInvalid(found)) && found == e,
                Ok(_) => match first_invalid::<T>(segments(buffer.units(), split@), 0) {
                    Some(k) => r matches Err(RawError::SegmentConversion { index, .. }) && index
                        == k,
                    None => r matches Ok(s) && s.wf() && s.units() == buffer.units() && s.table()
                        == split@,
                },
            },
    {
        let check = Split::new(split.as_slice());
        if let Err(e) = check.check_valid(buffer.len()) {
            return Err(RawError::OffsetTableInvalid(e));
        }
        let ghost segs = segments(buffer.units(), split@);
        let mut idx: usize = 0;
        while idx < N
            invariant
                0 <= idx <= N,
                split@.len() == N,
                check@ == split@,
                check.base() == 0,
                segs == segments(buffer.units(), split@),
                fits(0, split@, buffer.units().len() as int),
                validity(0, split@, buffer.units().len() as int) is Ok,
                first_invalid::<T>(segs, 0) == first_invalid::<T>(segs, idx as int),
            decreases N - idx,
        {
            proof {
                let i = idx as int;
                assert(boundary(0, split@, i) <= boundary(0, split@, i + 1));
                assert(boundary(0, split@, i + 1) <= boundary(0, split@, split@.len() as int));
            }
            if let Ok(range) = check.get(idx) {
                let data = range.index_into(buffer.borrow());
                assert(data.units() == segs[idx as int]);
                if let Err(error) = T::from_data(data) {
                    return Err(RawError::SegmentConversion { index: idx, error });
                }
            }
            idx = idx + 1;
        }
        proof {
            lemma_first_invalid::<T>(segs, 0);
        }
        Ok(Static { buffer, split })
    }

    /// Creates an array from a buffer and the offsets at which its segments
    /// end, where these are known to hold segments of the kind.
    pub fn from_raw_unchecked(buffer: Buffer<T>, split: [usize; N]) -> (s: Static<T, N>)
        requires
            holds::<T>(buffer.units(), split@),
        ensures
            s.wf(),
            s.units() == buffer.units(),
            s.table() == split@,
    {
        Static { buffer, split }
    }

    /// The buffer and the offset table of the array. Of every array the
    /// table never decreases, and its last entry lies inside the buffer.
    pub fn raw_parts(&self) -> (parts: (&T::Data, &[usize]))
        ensures
            parts.0.units() == self.units(),
            parts.1@ == self.table(),
            non_decreasing(0, parts.1@),
            boundary(0, parts.1@, parts.1@.len() as int) <= parts.0.units().len(),
            self.wf(),
    {
        proof {
            use_type_invariant(self);
        }
        (self.buffer.borrow(), self.split.as_slice())
    }

    /// The number of segments.
    pub fn len(&self) -> (n: usize)
        ensures
            n == N,
            n == self@.len(),
    {
        proof {
            use_type_invariant(self);
        }
        N
    }

    /// A cursor over the segments, from the first to the last.
    pub fn iter(&self) -> (it: Iter<'_, T>)
        ensures
            it.remaining() == self@,
    {
        proof {
            use_type_invariant(self);
        }
        Iter::new(self.buffer.borrow(), self.split.as_slice())
    }

    /// The segments, in order.
    pub fn to_vec(&self) -> (v: Vec<&T>)
        ensures
            raws::<T>(v@) == self@,
    {
        self.iter().collect()
    }

    /// Segment `index`, or an error where `index` is not below `N`.
    pub fn index(&self, index: usize) -> (r: Result<&T, IndexOutOfRange>)
        ensures
            r is Ok <==> index < N,
            r matches Ok(s) ==> s.raw() == self@[index as int],
    {
        proof {
            use_type_invariant(self);
        }
        segment_at::<T>(self.buffer.borrow(), self.split.as_slice(), index)
    }
}

impl<T: DataConcat + ?Sized, const N: usize> Static<T, N> {
    /// The segments of `range` as one segment: their data put end to end.
    /// An empty range gives an empty segment. An error where the range is
    /// inverted or reaches beyond the last segment.
    pub fn slice(&self, range: SplitRange) -> (r: Result<&T, IndexOutOfRange>)
        ensures
            r is Ok <==> range.start <= range.end_in(N as nat) <= N,
            r matches Ok(s) ==> s.raw() == concat(
                self@.subrange(range.start as int, range.end_in(N as nat)),
            ),
            r is Ok && range.start == range.end_in(N as nat) ==> r->Ok_0.raw().len() == 0,
    {
        proof {
            use_type_invariant(self);
        }
        segment_run::<T>(self.buffer.borrow(), self.split.as_slice(), range)
    }
}

impl<T: StrLikeMut + ?Sized, const N: usize> Static<T, N> {
    /// Writes the segment `new` over segment `index`, in place: the other
    /// segments and the offset table stay as they are. An error, and no
    /// change of the segments, where the array has no such segment or the
    /// new one has another number of units.
    pub fn set(&mut self, index: usize, new: &T) -> (r: Result<(), ReplaceError>)
        ensures
            final(self).wf(),
            final(self).table() == old(self).table(),
            match replaced(old(self)@, index, new.raw()) {
                Ok(segs) => r is Ok && final(self)@ == segs,
                Err(e) => r == Err::<(), ReplaceError>(e) && final(self)@ == old(self)@,
            },
    {
        proof {
            use_type_invariant(&*self);
        }
        let mut taken = Static::default();
        core::mem::swap(self, &mut taken);
        let Static { buffer, split } = taken;
        let mut owned = buffer.into_owned();
        let r = write_segment::<T>(&mut owned, split.as_slice(), index, new);
        *self = Static { buffer: Buffer::Owned(owned), split };
        r
    }
}

impl<U: OrdUnit, T: StrLike<Data = [U]> + ?Sized, const N: usize> Static<T, N> {
    /// How the array stands to `other`: lexicographically by segments, and
    /// each pair of segments by their units.
    pub fn compare(&self, other: &Static<T, N>) -> (r: Order)
        ensures
            r == lex_segments::<U>(self@, other@),
    {
        compare_segments(self.iter(), other.iter())
    }

    /// As `compare`, under the standard library's name for the order.
    pub fn cmp(&self, other: &Static<T, N>) -> (r: Ordering)
        ensures
            r == ordering_of(lex_segments::<U>(self@, other@)),
    {
        self.compare(other).to_ordering()
    }

    /// Whether the array holds exactly the segments of `items`.
    pub fn eq_slice(&self, items: &[&T]) -> (r: bool)
        ensures
            r == (self@ == raws::<T>(items@)),
    {
        same_segments(self.iter(), items)
    }
}

impl<U: OrdUnit, T: StrLike<Data = [U]> + ?Sized, const N: usize> PartialEq for Static<T, N> {
    /// Whether both hold the same segments.
    fn eq(&self, other: &Static<T, N>) -> (r: bool) {
        proof {
            lemma_lex_segments::<U>(self@, other@);
        }
        match self.compare(other) {
            Order::Equal => true,
            _ => false,
        }
    }
}

impl<U: OrdUnit, T: StrLike<Data = [U]> + ?Sized, const N: usize> vstd::std_specs::cmp::PartialEqSpecImpl for Static<T, N> {
    open spec fn obeys_eq_spec() -> bool {
        true
    }

    open spec fn eq_spec(&self, other: &Static<T, N>) -> bool {
        self@ == other@
    }
}

impl<U: OrdUnit, T: StrLike<Data = [U]> + ?Sized, const N: usize> Eq for Static<T, N> {

}

impl<U: OrdUnit, T: StrLike<Data = [U]> + ?Sized, const N: usize> PartialOrd for Static<T, N> {
    /// How the array stands to `other`; there is always an answer.
    fn partial_cmp(&self, other: &Static<T, N>) -> (r: Option<Ordering>) {
        Some(self.cmp(other))
    }
}

impl<U: OrdUnit, T: StrLike<Data = [U]> + ?Sized, const N: usize> vstd::std_specs::cmp::PartialOrdSpecImpl for Static<T, N> {
    open spec fn obeys_partial_cmp_spec() -> bool {
        true
    }

    open spec fn partial_cmp_spec(&self, other: &Static<T, N>) -> Option<Ordering> {
        Some(ordering_of(lex_segments::<U>(self@, other@)))
    }
}

impl<T: StrLike + ?Sized, const N: usize> Default for Static<T, N> {
    /// An array of `N` times the default segment of the kind.
    fn default() -> (s: Static<T, N>)
        ensures
            s.wf(),
            s@ == repeated(T::default_raw(), N as nat),
            tight(s.units().len(), s.table()),
    {
        let def: &T = T::default_ref();
        let inner: [&T; N] = [def;N];
        proof {
            assert(raws::<T>(inner@) =~= repeated(T::default_raw(), N as nat));
        }
        Static::new(inner)
    }
}

impl<T: StrLike + ?Sized, const N: usize> Clone for Static<T, N> {
    /// An array of the same segments in a buffer of its own.
    fn clone(&self) -> (s: Static<T, N>)
        ensures
            s.wf(),
            s@ == self@,
            s.units() == self.units(),
    {
        proof {
            use_type_invariant(self);
        }
        Static { buffer: self.buffer.duplicate(), split: self.split }
    }
}

/// An array of 2 segments that share one buffer.
pub type Static2<T> = Static<T, 2>;

/// An array of 2 slices that share one buffer.
pub type SliceArray2<T> = Static<[T], 2>;

/// An array of 2 strings that share one buffer.
pub type StringArray2 = Static<str, 2>;

/// An array of 3 segments that share one buffer.
pub type Static3<T> = Static<T, 3>;

/// An array of 3 slices that share one buffer.
pub type SliceArray3<T> = Static<[T], 3>;

/// An array of 3 strings that share one buffer.
pub type StringArray3 = Static<str, 3>;

/// An array of 4 segments that share one buffer.
pub type Static4<T> = Static<T, 4>;

/// An array of 4 slices that share one buffer.
pub type SliceArray4<T> = Static<[T], 4>;

/// An array of 4 strings that share one buffer.
pub type StringArray4 = Static<str, 4>;

/// An array of 5 segments that share one buffer.
pub type Static5<T> = Static<T, 5>;

/// An array of 5 slices that share one buffer.
pub type SliceArray5<T> = Static<[T], 5>;

/// An array of 5 strings that share one buffer.
pub type StringArray5 = Static<str, 5>;

/// An array of 6 segments that share one buffer.
pub type Static6<T> = Static<T, 6>;

/// An array of 6 slices that share one buffer.
pub type SliceArray6<T> = Static<[T], 6>;

/// An array of 6 strings that share one buffer.
pub type StringArray6 = Static<str, 6>;

/// An array of 7 segments that share one buffer.
pub type Static7<T> = Static<T, 7>;

/// An array of 7 slices that share one buffer.
pub type SliceArray7<T> = Static<[T], 7>;

/// An array of 7 strings that share one buffer.
pub type StringArray7 = Static<str, 7>;

/// An array of 8 segments that share one buffer.
pub type Static8<T> = Static<T, 8>;

/// An array of 8 slices that share one buffer.
pub type SliceArray8<T> = Static<[T], 8>;

/// An array of 8 strings that share one buffer.
pub type StringArray8 = Static<str, 8>;

/// An array of 9 segments that share one buffer.
pub type Static9<T> = Static<T, 9>;

/// An array of 9 slices that share one buffer.
pub type SliceArray9<T> = Static<[T], 9>;

/// An array of 9 strings that share one buffer.
pub type StringArray9 = Static<str, 9>;

/// An array of 10 segments that share one buffer.
pub type Static10<T> = Static<T, 10>;

/// An array of 10 slices that share one buffer.
pub type SliceArray10<T> = Static<[T], 10>;

/// An array of 10 strings that share one buffer.
pub type StringArray10 = Static<str, 10>;

/// An array of 11 segments that share one buffer.
pub type Static11<T> = Static<T, 11>;

/// An array of 11 slices that share one buffer.
pub type SliceArray11<T> = Static<[T], 11>;

/// An array of 11 strings that share one buffer.
pub type StringArray11 = Static<str, 11>;

/// An array of 12 segments that share one buffer.
pub type Static12<T> = Static<T, 12>;

/// An array of 12 slices that share one buffer.
pub type SliceArray12<T> = Static<[T], 12>;

/// An array of 12 strings that share one buffer.
pub type StringArray12 = Static<str, 12>;

/// An array of 13 segments that share one buffer.
pub type Static13<T> = Static<T, 13>;

/// An array of 13 slices that share one buffer.
pub type SliceArray13<T> = Static<[T], 13>;

/// An array of 13 strings that share one buffer.
pub type StringArray13 = Static<str, 13>;

/// An array of 14 segments that share one buffer.
pub type Static14<T> = Static<T, 14>;

/// An array of 14 slices that share one buffer.
pub type SliceArray14<T> = Static<[T], 14>;

/// An array of 14 strings that share one buffer.
pub type StringArray14 = Static<str, 14>;

/// An array of 15 segments that share one buffer.
pub type Static15<T> = Static<T, 15>;

/// An array of 15 slices that share one buffer.
pub type SliceArray15<T> = Static<[T], 15>;

/// An array of 15 strings that share one buffer.
pub type StringArray15 = Static<str, 15>;

/// An array of 16 segments that share one buffer.
pub type Static16<T> = Static<T, 16>;

/// An array of 16 slices that share one buffer.
pub type SliceArray16<T> = Static<[T], 16>;

/// An array of 16 strings that share one buffer.
pub type StringArray16 = Static<str, 16>;

} // verus!
