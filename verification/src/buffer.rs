//! The buffer of a packed container: raw data that is either borrowed for
//! good, and then never written, or owned. Writing to borrowed data starts
//! with a copy of it.
use crate::strlike::{OwnsStrData, StrData, StrLike};
use vstd::prelude::*;

verus! {

/// The unit of the raw data of the kind `T`.
pub type Unit<T> = <<T as StrLike>::Data as StrData>::Unit;

/// Raw data of the kind `T`, borrowed or owned.
pub enum Buffer<T: StrLike + ?Sized> {
    /// Data that lives as long as the program.
    Borrowed(&'static T::Data),
    /// Data that the buffer owns.
    Owned(T::OwnedData),
}

impl<T: StrLike + ?Sized> Buffer<T> {
    /// The units of the buffer, in order.
    pub open spec fn units(&self) -> Seq<Unit<T>> {
        match self {
            Buffer::Borrowed(data) => data.units(),
            Buffer::Owned(buf) => buf.units(),
        }
    }

    /// A buffer without units, which owns nothing.
    pub fn empty() -> (buffer: Self)
        ensures
            buffer.units().len() == 0,
            buffer is Borrowed,
    {
        Buffer::Borrowed(T::Data::default_ref())
    }

    /// The content as borrowed data.
    pub fn borrow(&self) -> (data: &T::Data)
        ensures
            data.units() == self.units(),
    {
        match self {
            Buffer::Borrowed(data) => data,
            Buffer::Owned(buf) => buf.borrow(),
        }
    }

    /// The number of units.
    pub fn len(&self) -> (n: usize)
        ensures
            n == self.units().len(),
    {
        self.borrow().len()
    }

    /// The number of units that the buffer can hold as it is: of borrowed
    /// data its length, of owned data its capacity.
    pub fn capacity(&self) -> (n: usize)
        ensures
            n >= self.units().len(),
            self matches Buffer::Borrowed(data) ==> n == data.units().len(),
    {
        match self {
            Buffer::Borrowed(data) => data.len(),
            Buffer::Owned(buf) => buf.capacity(),
        }
    }

    /// The content as owned data: what is owned stays as it is, what is
    /// borrowed is copied.
    pub fn into_owned(self) -> (buf: T::OwnedData)
        ensures
            buf.units() == self.units(),
    {
        match self {
            Buffer::Borrowed(data) => T::OwnedData::from_data(data),
            Buffer::Owned(buf) => buf,
        }
    }

    /// A buffer of the same units: borrowed data is borrowed again, owned
    /// data is copied.
    pub fn duplicate(&self) -> (buffer: Self)
        ensures
            buffer.units() == self.units(),
    {
        match self {
            Buffer::Borrowed(data) => Buffer::Borrowed(*data),
            Buffer::Owned(buf) => Buffer::Owned(T::OwnedData::from_data(buf.borrow())),
        }
    }
}

} // verus!
