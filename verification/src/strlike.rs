//! The kinds of segment that a packed buffer can hold, and what a kind has
//! to offer to be stored.
use crate::raw;
use vstd::prelude::*;

verus! {

/// Raw data behind a kind of segment: a run of units that has a length and
/// can be cut at a position.
pub trait StrData {
    /// What the data is made of.
    type Unit;

    /// The units of the data, in order.
    spec fn units(&self) -> Seq<Self::Unit>;

    /// The number of units.
    fn len(&self) -> (n: usize)
        ensures
            n == self.units().len(),
    ;

    /// The data before `mid` and the data from `mid` on.
    fn split_at(&self, mid: usize) -> (parts: (&Self, &Self))
        requires
            mid <= self.units().len(),
        ensures
            parts.0.units() == self.units().subrange(0, mid as int),
            parts.1.units() == self.units().subrange(mid as int, self.units().len() as int),
    ;

    /// Data without units.
    fn default_ref<'a>() -> (data: &'a Self)
        ensures
            data.units().len() == 0,
    ;
}

impl<T> StrData for [T] {
    type Unit = T;

    open spec fn units(&self) -> Seq<T> {
        self@
    }

    fn len(&self) -> (n: usize) {
        raw::slice_len(self)
    }

    fn split_at(&self, mid: usize) -> (parts: (&[T], &[T])) {
        raw::slice_split_at(self, mid)
    }

    fn default_ref<'a>() -> (data: &'a [T]) {
        raw::slice_default()
    }
}

/// A buffer that owns raw data of the form `D` and can grow and shrink.
pub trait OwnsStrData<D: StrData + ?Sized>: Sized {
    /// The units that the buffer holds, in order.
    spec fn units(&self) -> Seq<D::Unit>;

    /// The largest number of units that a buffer of this type may be asked
    /// to make room for.
    spec fn max_units() -> int;

    /// A buffer that holds a copy of `data`.
    fn from_data(data: &D) -> (buf: Self)
        ensures
            buf.units() == data.units(),
    ;

    /// An empty buffer with room for `capacity` units.
    fn with_capacity(capacity: usize) -> (buf: Self)
        requires
            capacity <= Self::max_units(),
        ensures
            buf.units().len() == 0,
    ;

    /// The buffer's content as borrowed data.
    fn borrow(&self) -> (data: &D)
        ensures
            data.units() == self.units(),
    ;

    /// The number of units.
    fn len(&self) -> (n: usize)
        ensures
            n == self.units().len(),
    ;

    /// The number of units that the buffer has room for.
    fn capacity(&self) -> (n: usize)
        ensures
            n >= self.units().len(),
    ;

    /// Makes room for `additional` more units.
    fn reserve(&mut self, additional: usize)
        requires
            old(self).units().len() + additional <= Self::max_units(),
        ensures
            final(self).units() == old(self).units(),
    ;

    /// Makes room for `additional` more units, and for no more where the
    /// buffer can do so.
    fn reserve_exact(&mut self, additional: usize)
        requires
            old(self).units().len() + additional <= Self::max_units(),
        ensures
            final(self).units() == old(self).units(),
    ;

    /// Gives up room that is not in use.
    fn shrink_to_fit(&mut self)
        ensures
            final(self).units() == old(self).units(),
    ;

    /// Removes every unit.
    fn clear(&mut self)
        ensures
            final(self).units().len() == 0,
    ;

    /// Keeps the first `len` units, all of them if there are no more.
    fn truncate(&mut self, len: usize)
        ensures
            final(self).units() == if len <= old(self).units().len() {
                old(self).units().subrange(0, len as int)
            } else {
                old(self).units()
            },
    ;

    /// Keeps the units before `at` and hands out those from `at` on.
    fn split_off(&mut self, at: usize) -> (tail: Self)
        requires
            at <= old(self).units().len(),
        ensures
            final(self).units() == old(self).units().subrange(0, at as int),
            tail.units() == old(self).units().subrange(at as int, old(self).units().len() as int),
    ;

    /// Adds the units of `data` at the end.
    fn push_back(&mut self, data: &D)
        ensures
            final(self).units() == old(self).units() + data.units(),
    ;

    /// Writes the units of `data` over those that start at `at`. The
    /// number of units stays as it is.
    fn overwrite(&mut self, at: usize, data: &D)
        requires
            at + data.units().len() <= old(self).units().len(),
        ensures
            final(self).units() == old(self).units().subrange(0, at as int) + data.units() + old(
                self,
            ).units().subrange(at + data.units().len(), old(self).units().len() as int),
    ;
}

impl<T: Copy> OwnsStrData<[T]> for Vec<T> {
    open spec fn units(&self) -> Seq<T> {
        self@
    }

    open spec fn max_units() -> int {
        raw::max_elements::<T>()
    }

    fn from_data(data: &[T]) -> (buf: Vec<T>) {
        vstd::slice::slice_to_vec(data)
    }

    fn with_capacity(capacity: usize) -> (buf: Vec<T>) {
        raw::vec_with_capacity(capacity)
    }

    fn borrow(&self) -> (data: &[T]) {
        self.as_slice()
    }

    fn len(&self) -> (n: usize) {
        raw::vec_len(self)
    }

    fn capacity(&self) -> (n: usize) {
        raw::vec_capacity(self)
    }

    fn reserve(&mut self, additional: usize) {
        raw::vec_reserve(self, additional)
    }

    fn reserve_exact(&mut self, additional: usize) {
        raw::vec_reserve_exact(self, additional)
    }

    fn shrink_to_fit(&mut self) {
        raw::vec_shrink_to_fit(self)
    }

    fn clear(&mut self) {
        raw::vec_clear(self)
    }

    fn truncate(&mut self, len: usize) {
        raw::vec_truncate(self, len)
    }

    fn split_off(&mut self, at: usize) -> (tail: Vec<T>) {
        raw::vec_split_off(self, at)
    }

    fn push_back(&mut self, data: &[T]) {
        raw::vec_push_back(self, data)
    }

    fn overwrite(&mut self, at: usize, data: &[T]) {
        let n: usize = data.len();
        let total: usize = raw::vec_len(self);
        let mut i: usize = 0;
        while i < n
            invariant
                0 <= i <= n,
                n == data@.len(),
                at + n <= total,
                total == old(self)@.len(),
                self@.len() == old(self)@.len(),
                forall|j: int| 0 <= j < at ==> self@[j] == old(self)@[j],
                forall|j: int| at <= j < at + i ==> self@[j] == data@[j - at],
                forall|j: int| at + i <= j < self@.len() ==> self@[j] == old(self)@[j],
            decreases n - i,
        {
            self.set(at + i, data[i]);
            i = i + 1;
        }
        assert(self@ =~= old(self)@.subrange(0, at as int) + data@ + old(self)@.subrange(
            at + data@.len(),
            old(self)@.len() as int,
        ));
    }
}

/// A kind of segment: a view of raw data that may have to meet a condition.
pub trait StrLike {
    /// The raw data behind a segment.
    type Data: StrData + ?Sized + 'static;

    /// A buffer of such data.
    type OwnedData: OwnsStrData<Self::Data>;

    /// A segment that owns its data.
    type Owned;

    /// Why raw data is not a segment of this kind.
    type ConvError;

    /// Which raw data is a segment of this kind.
    spec fn valid(data: Seq<<Self::Data as StrData>::Unit>) -> bool;

    /// The raw data of a segment.
    spec fn raw(&self) -> Seq<<Self::Data as StrData>::Unit>;

    /// The raw data of an owned segment.
    spec fn owned_raw(owned: &Self::Owned) -> Seq<<Self::Data as StrData>::Unit>;

    /// The raw data of the default segment.
    spec fn default_raw() -> Seq<<Self::Data as StrData>::Unit>;

    /// The segment's raw data, which is valid for the kind.
    fn to_data(&self) -> (data: &Self::Data)
        ensures
            data.units() == self.raw(),
            Self::valid(self.raw()),
    ;

    /// Views raw data as a segment, if it is valid for the kind.
    fn from_data(data: &Self::Data) -> (r: Result<&Self, Self::ConvError>)
        ensures
            r is Ok <==> Self::valid(data.units()),
            r matches Ok(s) ==> s.raw() == data.units(),
    ;

    /// Views raw data as a segment where it is known to be valid.
    fn from_data_unchecked(data: &Self::Data) -> (s: &Self)
        requires
            Self::valid(data.units()),
        ensures
            s.raw() == data.units(),
    ;

    /// The default segment of the kind.
    fn default_ref<'a>() -> (s: &'a Self)
        ensures
            s.raw() == Self::default_raw(),
    ;

    /// A copy of the segment that owns its data.
    fn to_owned_segment(&self) -> (owned: Self::Owned)
        ensures
            Self::owned_raw(&owned) == self.raw(),
    ;
}

/// Kinds for which the data of valid segments, put end to end, is valid
/// again: a run of neighbouring segments can be viewed as one segment.
pub trait DataConcat: StrLike {
    /// Data without units is valid.
    proof fn valid_empty()
        ensures
            Self::valid(Seq::empty()),
    ;

    /// Valid data followed by valid data is valid.
    proof fn valid_concat(
        a: Seq<<Self::Data as StrData>::Unit>,
        b: Seq<<Self::Data as StrData>::Unit>,
    )
        requires
            Self::valid(a),
            Self::valid(b),
        ensures
            Self::valid(a + b),
    ;
}

impl<T: Copy + 'static> StrLike for [T] {
    type Data = [T];

    type OwnedData = Vec<T>;

    type Owned = Vec<T>;

    type ConvError = void::Void;

    open spec fn valid(data: Seq<T>) -> bool {
        true
    }

    open spec fn raw(&self) -> Seq<T> {
        self@
    }

    open spec fn owned_raw(owned: &Vec<T>) -> Seq<T> {
        owned@
    }

    open spec fn default_raw() -> Seq<T> {
        Seq::empty()
    }

    fn to_data(&self) -> (data: &[T]) {
        self
    }

    fn from_data(data: &[T]) -> (r: Result<&[T], void::Void>) {
        Ok(data)
    }

    fn from_data_unchecked(data: &[T]) -> (s: &[T]) {
        data
    }

    fn default_ref<'a>() -> (s: &'a [T]) {
        let s: &'a [T] = raw::slice_default();
        assert(s@ =~= Seq::empty());
        s
    }

    fn to_owned_segment(&self) -> (owned: Vec<T>) {
        vstd::slice::slice_to_vec(self)
    }
}

impl<T: Copy + 'static> DataConcat for [T] {
    proof fn valid_empty() {
    }

    proof fn valid_concat(a: Seq<T>, b: Seq<T>) {
    }
}

impl StrLike for str {
    type Data = [u8];

    type OwnedData = Vec<u8>;

    type Owned = String;

    type ConvError = core::str::Utf8Error;

    open spec fn valid(data: Seq<u8>) -> bool {
        vstd::utf8::valid_utf8(data)
    }

    open spec fn raw(&self) -> Seq<u8> {
        vstd::utf8::encode_utf8(self@)
    }

    open spec fn owned_raw(owned: &String) -> Seq<u8> {
        vstd::utf8::encode_utf8(owned@)
    }

    open spec fn default_raw() -> Seq<u8> {
        Seq::empty()
    }

    fn to_data(&self) -> (data: &[u8]) {
        proof {
            vstd::utf8::encode_utf8_valid_utf8(self@);
        }
        self.as_bytes()
    }

    fn from_data(data: &[u8]) -> (r: Result<&str, core::str::Utf8Error>) {
        raw::str_from_utf8(data)
    }

    fn from_data_unchecked(data: &[u8]) -> (s: &str) {
        match raw::str_from_utf8(data) {
            Ok(s) => s,
            Err(_) => vstd::pervasive::unreached(),
        }
    }

    fn default_ref<'a>() -> (s: &'a str) {
        let s: &'a str = raw::str_default();
        assert(s@ =~= Seq::empty());
        assert(vstd::utf8::encode_utf8(s@) =~= Seq::empty());
        s
    }

    fn to_owned_segment(&self) -> (owned: String) {
        std::borrow::ToOwned::to_owned(self)
    }
}

impl DataConcat for str {
    proof fn valid_empty() {
    }

    proof fn valid_concat(a: Seq<u8>, b: Seq<u8>) {
        vstd::utf8::valid_utf8_concat(a, b);
    }
}

/// Kinds whose segments can be written in place.
pub trait StrLikeMut: StrLike {
    /// Views raw data as a segment that can be written in place, if the
    /// data is valid for the kind. What is written to the segment is
    /// written to the data.
    fn from_data_mut(data: &mut Self::Data) -> (r: Result<&mut Self, Self::ConvError>)
        ensures
            r is Ok <==> Self::valid(old(data).units()),
            r matches Ok(s) ==> s.raw() == old(data).units(),
            r matches Ok(s) ==> final(data).units() == final(s).raw(),
            r is Err ==> final(data).units() == old(data).units(),
    ;

    /// Views raw data as a segment that can be written in place, where the
    /// data is known to be valid for the kind.
    fn from_data_mut_unchecked(data: &mut Self::Data) -> (s: &mut Self)
        requires
            Self::valid(old(data).units()),
        ensures
            s.raw() == old(data).units(),
            final(data).units() == final(s).raw(),
    ;
}

impl<T: Copy + 'static> StrLikeMut for [T] {
    fn from_data_mut(data: &mut [T]) -> (r: Result<&mut [T], void::Void>) {
        Ok(data)
    }

    fn from_data_mut_unchecked(data: &mut [T]) -> (s: &mut [T]) {
        data
    }
}

impl StrLikeMut for str {
    fn from_data_mut(data: &mut [u8]) -> (r: Result<&mut str, core::str::Utf8Error>) {
        raw::str_from_utf8_mut(data)
    }

    fn from_data_mut_unchecked(data: &mut [u8]) -> (s: &mut str) {
        match raw::str_from_utf8_mut(data) {
            Ok(s) => s,
            Err(_) => vstd::pervasive::unreached(),
        }
    }
}

} // verus!
