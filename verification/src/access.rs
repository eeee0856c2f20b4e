//! Reading segments out of a buffer through its offset table. Both
//! containers read their segments here.
use crate::buffer::Unit;
use crate::packed::{all_valid, concat, lemma_overwrite, lemma_range_is_concat, segments};
use crate::split::{boundary, fits, IndexOutOfRange, Split, SplitRange};
use crate::strlike::{DataConcat, OwnsStrData, StrData, StrLike, StrLikeMut};
use vstd::prelude::*;

verus! {

/// The buffer and its table hold segments of the kind `T`: the table fits
/// the buffer and cuts it into valid segments.
pub open spec fn holds<T: StrLike + ?Sized>(buffer: Seq<Unit<T>>, table: Seq<usize>) -> bool {
    fits(0, table, buffer.len() as int) && all_valid::<T>(segments(buffer, table))
}

/// A run of valid segments of a kind that can be concatenated is valid as
/// one segment.
pub proof fn lemma_concat_valid<T: DataConcat + ?Sized>(segs: Seq<Seq<Unit<T>>>)
    requires
        all_valid::<T>(segs),
    ensures
        T::valid(concat(segs)),
    decreases segs.len(),
{
    if segs.len() == 0 {
        T::valid_empty();
    } else {
        assert(all_valid::<T>(segs.drop_last())) by {
            assert forall|i: int| 0 <= i < segs.drop_last().len() implies T::valid(
                #[trigger] segs.drop_last()[i],
            ) by {
                assert(segs.drop_last()[i] == segs[i]);
            }
        }
        lemma_concat_valid::<T>(segs.drop_last());
        assert(T::valid(segs[segs.len() - 1]));
        T::valid_concat(concat(segs.drop_last()), segs.last());
    }
}

/// Segment `index` of the buffer, or an error where the table has no such
/// segment.
pub fn segment_at<'a, T: StrLike + ?Sized>(buffer: &'a T::Data, table: &[usize], index: usize) -> (r:
    Result<&'a T, IndexOutOfRange>)
    requires
        holds::<T>(buffer.units(), table@),
    ensures
        r is Ok <==> index < table@.len(),
        r matches Ok(s) ==> s.raw() == segments(buffer.units(), table@)[index as int],
{
    match Split::new(table).get(index) {
        Err(e) => Err(e),
        Ok(range) => {
            proof {
                let i = index as int;
                assert(boundary(0, table@, i) <= boundary(0, table@, i + 1));
                assert(boundary(0, table@, i + 1) <= boundary(0, table@, table@.len() as int));
                assert(T::valid(segments(buffer.units(), table@)[i]));
            }
            Ok(T::from_data_unchecked(range.index_into(buffer)))
        },
    }
}

/// The segments of `range` as one segment: their data put end to end. An
/// error where the range is inverted or reaches beyond the last segment.
pub fn segment_run<'a, T: DataConcat + ?Sized>(
    buffer: &'a T::Data,
    table: &[usize],
    range: SplitRange,
) -> (r: Result<&'a T, IndexOutOfRange>)
    requires
        holds::<T>(buffer.units(), table@),
    ensures
        r is Ok <==> range.start <= range.end_in(table@.len()) <= table@.len(),
        r matches Ok(s) ==> s.raw() == concat(
            segments(buffer.units(), table@).subrange(
                range.start as int,
                range.end_in(table@.len()),
            ),
        ),
        r is Ok && range.start == range.end_in(table@.len()) ==> r->Ok_0.raw().len() == 0,
{
    match Split::new(table).get_slice(range) {
        Err(e) => Err(e),
        Ok(positions) => {
            proof {
                let lo = range.start as int;
                let hi = range.end_in(table@.len());
                let segs = segments(buffer.units(), table@);
                lemma_range_is_concat(buffer.units(), table@, lo, hi);
                assert(all_valid::<T>(segs.subrange(lo, hi))) by {
                    assert forall|i: int| 0 <= i < segs.subrange(lo, hi).len() implies T::valid(
                        #[trigger] segs.subrange(lo, hi)[i],
                    ) by {
                        assert(segs.subrange(lo, hi)[i] == segs[lo + i]);
                    }
                }
                lemma_concat_valid::<T>(segs.subrange(lo, hi));
                if lo == hi {
                    assert(segs.subrange(lo, hi) =~= Seq::<Seq<Unit<T>>>::empty());
                }
            }
            Ok(T::from_data_unchecked(positions.index_into(buffer)))
        },
    }
}

/// Why a segment cannot be written over another in place.
#[derive(Clone, Copy, Debug, PartialEq, Eq, Structural)]
pub enum ReplaceError {
    /// There is no segment at the index.
    IndexOutOfRange,
    /// The segment in place has `expected` units, the new one has `found`.
    LengthMismatch { expected: usize, found: usize },
}

/// What writing `new` over segment `index` of `segs` gives: the segments
/// with that one changed, where there is such a segment and `new` has as
/// many units as it; an error where not.
pub open spec fn replaced<U>(segs: Seq<Seq<U>>, index: usize, new: Seq<U>) -> Result<
    Seq<Seq<U>>,
    ReplaceError,
> {
    if index >= segs.len() {
        Err(ReplaceError::IndexOutOfRange)
    } else if segs[index as int].len() != new.len() {
        Err(
            ReplaceError::LengthMismatch {
                expected: segs[index as int].len() as usize,
                found: new.len() as usize,
            },
        )
    } else {
        Ok(segs.update(index as int, new))
    }
}

/// Writes the segment `new` over segment `index` of the buffer, in place.
/// Nothing is written where there is no such segment or the lengths differ.
pub fn write_segment<T: StrLikeMut + ?Sized>(
    buffer: &mut T::OwnedData,
    table: &[usize],
    index: usize,
    new: &T,
) -> (r: Result<(), ReplaceError>)
    requires
        holds::<T>(old(buffer).units(), table@),
    ensures
        holds::<T>(final(buffer).units(), table@),
        final(buffer).units().len() == old(buffer).units().len(),
        match replaced(segments(old(buffer).units(), table@), index, new.raw()) {
            Ok(segs) => r is Ok && segments(final(buffer).units(), table@) == segs,
            Err(e) => r == Err::<(), ReplaceError>(e) && final(buffer).units() == old(
                buffer,
            ).units(),
        },
{
    match Split::new(table).get(index) {
        Err(_) => Err(ReplaceError::IndexOutOfRange),
        Ok(range) => {
            let start: usize = range.start;
            let end: usize = match range.end {
                Some(end) => end,
                None => start,
            };
            let data = new.to_data();
            proof {
                let i = index as int;
                assert(boundary(0, table@, i) <= boundary(0, table@, i + 1));
                assert(boundary(0, table@, i + 1) <= boundary(0, table@, table@.len() as int));
            }
            if data.len() != end - start {
                return Err(
                    ReplaceError::LengthMismatch { expected: end - start, found: data.len() },
                );
            }
            proof {
                lemma_overwrite(old(buffer).units(), table@, index as int, new.raw());
            }
            buffer.overwrite(start, data);
            proof {
                let segs = segments(old(buffer).units(), table@);
                let after = segments(buffer.units(), table@);
                assert forall|i: int| 0 <= i < after.len() implies T::valid(
                    #[trigger] after[i],
                ) by {
                    if i != index {
                        assert(after[i] == segs[i]);
                    }
                }
            }
            Ok(())
        },
    }
}

} // verus!
