//! The calls into the crates that give slices and vectors their length,
//! capacity and push operations, and into the standard library where it
//! decodes text. Each function here makes one such call; its contract is
//! believed, not proved. Running out of memory is not modelled.
use vstd::prelude::*;

verus! {

/// The error of a conversion that cannot fail: a type without values.
#[verifier::external_type_specification]
#[verifier::external_body]
pub struct ExVoid(void::Void);

/// Why a run of bytes is not UTF-8.
#[verifier::external_type_specification]
#[verifier::external_body]
pub struct ExUtf8Error(core::str::Utf8Error);

/// The largest number of elements of type `T` that one allocation may hold:
/// an allocation has at most `isize::MAX` bytes.
pub open spec fn max_elements<T>() -> int {
    if vstd::layout::size_of::<T>() == 0 {
        usize::MAX as int
    } else {
        isize::MAX as int / vstd::layout::size_of::<T>() as int
    }
}

/// `len_trait::Len::len` on a slice: the number of its elements.
#[verifier::external_body]
pub(crate) fn slice_len<T>(data: &[T]) -> (n: usize)
    ensures
        n == data@.len(),
{
    len_trait::Len::len(data)
}

/// `len_trait::SplitAt::split_at` on a slice: the elements before `mid` and
/// those from `mid` on. It panics past the end, which `requires` leaves out.
#[verifier::external_body]
pub(crate) fn slice_split_at<T>(data: &[T], mid: usize) -> (parts: (&[T], &[T]))
    requires
        mid <= data@.len(),
    ensures
        parts.0@ == data@.subrange(0, mid as int),
        parts.1@ == data@.subrange(mid as int, data@.len() as int),
{
    len_trait::SplitAt::split_at(data, mid)
}

/// `extra_default::DefaultRef::default_ref` for slices: the empty slice.
#[verifier::external_body]
pub(crate) fn slice_default<'a, T>() -> (data: &'a [T])
    ensures
        data@.len() == 0,
{
    extra_default::DefaultRef::default_ref()
}

/// `extra_default::DefaultRef::default_ref` for text: the empty string.
#[verifier::external_body]
pub(crate) fn str_default<'a>() -> (s: &'a str)
    ensures
        s@.len() == 0,
{
    extra_default::DefaultRef::default_ref()
}

/// `core::str::from_utf8`: the bytes as text if they are UTF-8, an error if
/// they are not.
#[verifier::external_body]
pub(crate) fn str_from_utf8(data: &[u8]) -> (r: Result<&str, core::str::Utf8Error>)
    ensures
        r is Ok <==> vstd::utf8::valid_utf8(data@),
        r matches Ok(s) ==> vstd::utf8::encode_utf8(s@) == data@,
{
    core::str::from_utf8(data)
}

/// `core::str::from_utf8_mut`: the bytes as text that can be written in
/// place if they are UTF-8, an error if they are not. What is written to the
/// text is written to the bytes.
#[verifier::external_body]
pub(crate) fn str_from_utf8_mut(data: &mut [u8]) -> (r: Result<&mut str, core::str::Utf8Error>)
    ensures
        r is Ok <==> vstd::utf8::valid_utf8(old(data)@),
        r matches Ok(s) ==> vstd::utf8::encode_utf8(s@) == old(data)@,
        r matches Ok(s) ==> final(data)@ == vstd::utf8::encode_utf8(final(s)@),
        r is Err ==> final(data)@ == old(data)@,
{
    core::str::from_utf8_mut(data)
}

/// `len_trait::Len::len` on a vector: the number of its elements.
#[verifier::external_body]
pub(crate) fn vec_len<T>(buf: &Vec<T>) -> (n: usize)
    ensures
        n == buf@.len(),
{
    len_trait::Len::len(buf)
}

/// `len_trait::Capacity::capacity` on a vector: never less than its length.
#[verifier::external_body]
pub(crate) fn vec_capacity<T>(buf: &Vec<T>) -> (n: usize)
    ensures
        n >= buf@.len(),
{
    len_trait::Capacity::capacity(buf)
}

/// `len_trait::WithCapacity::with_capacity` for vectors: an empty vector. It
/// panics where the capacity is more than one allocation may hold.
#[verifier::external_body]
pub(crate) fn vec_with_capacity<T>(capacity: usize) -> (buf: Vec<T>)
    requires
        capacity <= max_elements::<T>(),
    ensures
        buf@.len() == 0,
{
    len_trait::WithCapacity::with_capacity(capacity)
}

/// `len_trait::CapacityMut::reserve` on a vector: the elements stay as they
/// are. It panics where the new capacity is more than one allocation may
/// hold.
#[verifier::external_body]
pub(crate) fn vec_reserve<T>(buf: &mut Vec<T>, additional: usize)
    requires
        old(buf)@.len() + additional <= max_elements::<T>(),
    ensures
        final(buf)@ == old(buf)@,
{
    len_trait::CapacityMut::reserve(buf, additional)
}

/// `len_trait::CapacityMut::reserve_exact` on a vector: the elements stay
/// as they are. It panics as `reserve` does.
#[verifier::external_body]
pub(crate) fn vec_reserve_exact<T>(buf: &mut Vec<T>, additional: usize)
    requires
        old(buf)@.len() + additional <= max_elements::<T>(),
    ensures
        final(buf)@ == old(buf)@,
{
    len_trait::CapacityMut::reserve_exact(buf, additional)
}

/// `len_trait::CapacityMut::shrink_to_fit` on a vector: the elements stay
/// as they are.
#[verifier::external_body]
pub(crate) fn vec_shrink_to_fit<T>(buf: &mut Vec<T>)
    ensures
        final(buf)@ == old(buf)@,
{
    len_trait::CapacityMut::shrink_to_fit(buf)
}

/// `len_trait::Clear::clear` on a vector: no element is left.
#[verifier::external_body]
pub(crate) fn vec_clear<T>(buf: &mut Vec<T>)
    ensures
        final(buf)@.len() == 0,
{
    len_trait::Clear::clear(buf)
}

/// `len_trait::LenMut::truncate` on a vector: keeps the first `len`
/// elements, all of them if there are no more than `len`.
#[verifier::external_body]
pub(crate) fn vec_truncate<T>(buf: &mut Vec<T>, len: usize)
    ensures
        len <= old(buf)@.len() ==> final(buf)@ == old(buf)@.subrange(0, len as int),
        len > old(buf)@.len() ==> final(buf)@ == old(buf)@,
{
    len_trait::LenMut::truncate(buf, len)
}

/// `len_trait::LenMut::split_off` on a vector: the vector keeps the
/// elements before `at` and hands out those from `at` on. It panics past
/// the end, which `requires` leaves out.
#[verifier::external_body]
pub(crate) fn vec_split_off<T>(buf: &mut Vec<T>, at: usize) -> (tail: Vec<T>)
    requires
        at <= old(buf)@.len(),
    ensures
        final(buf)@ == old(buf)@.subrange(0, at as int),
        tail@ == old(buf)@.subrange(at as int, old(buf)@.len() as int),
{
    len_trait::LenMut::split_off(buf, at)
}

/// `push_trait::PushBack::push_back` of a slice onto a vector of `Copy`
/// elements: the elements of the slice are added at the end, in order.
/// Nothing is pushed out.
#[verifier::external_body]
pub(crate) fn vec_push_back<T: Copy>(buf: &mut Vec<T>, data: &[T])
    ensures
        final(buf)@ == old(buf)@ + data@,
{
    let _ = push_trait::PushBack::push_back(buf, data);
}

/// The text that the standard library's `Debug` gives for a string: the
/// string between double quotes, with the characters escaped that need it.
pub uninterp spec fn str_debug_text(s: Seq<char>) -> Seq<char>;

/// `Debug` for `str`, through `format!`: the quoted and escaped string.
#[verifier::external_body]
pub(crate) fn str_debug(s: &str) -> (out: String)
    ensures
        out@ == str_debug_text(s@),
{
    format!("{:?}", s)
}

/// The decimal digit of a number below ten.
pub open spec fn digit(d: nat) -> char {
    if d == 0 {
        '0'
    } else if d == 1 {
        '1'
    } else if d == 2 {
        '2'
    } else if d == 3 {
        '3'
    } else if d == 4 {
        '4'
    } else if d == 5 {
        '5'
    } else if d == 6 {
        '6'
    } else if d == 7 {
        '7'
    } else if d == 8 {
        '8'
    } else {
        '9'
    }
}

/// A number in decimal digits, without leading zeros.
pub open spec fn decimal(n: nat) -> Seq<char>
    decreases n,
{
    if n < 10 {
        seq![digit(n)]
    } else {
        decimal(n / 10).push(digit(n % 10))
    }
}

/// `Display` for `usize`, through `format!`: the number in decimal digits.
#[verifier::external_body]
pub(crate) fn usize_text(n: usize) -> (out: String)
    ensures
        out@ == decimal(n as nat),
{
    format!("{}", n)
}

} // verus!
