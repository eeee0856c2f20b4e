//! The offset table of a packed buffer, and the arithmetic that maps segment
//! indices to positions in the buffer.
//!
//! A table holds one cumulative end offset per segment. Segment `i` lies
//! between boundary `i` and boundary `i + 1`, where boundary `0` is the base
//! of the table (zero for a whole table) and boundary `i + 1` is entry `i`.
use crate::raw;
use crate::strlike::StrData;
use vstd::prelude::*;
use vstd::string::StringExecFns;

verus! {

/// Position of boundary `i` of the table `table` that starts at `base`.
pub open spec fn boundary(base: usize, table: Seq<usize>, i: int) -> usize {
    if i <= 0 {
        base
    } else {
        table[i - 1]
    }
}

/// No boundary of the table lies before an earlier one.
pub open spec fn non_decreasing(base: usize, table: Seq<usize>) -> bool {
    forall|i: int, j: int|
        0 <= i <= j <= table.len() ==> boundary(base, table, i) <= boundary(base, table, j)
}

/// The least `k >= from` at which boundary `k` lies after boundary `k + 1`.
pub open spec fn first_descent_from(base: usize, table: Seq<usize>, from: int) -> Option<int>
    decreases table.len() - from,
{
    if from < 0 || from >= table.len() {
        None
    } else if boundary(base, table, from) > boundary(base, table, from + 1) {
        Some(from)
    } else {
        first_descent_from(base, table, from + 1)
    }
}

/// The first place at which the table decreases, if it does.
pub open spec fn first_descent(base: usize, table: Seq<usize>) -> Option<int> {
    first_descent_from(base, table, 0)
}

/// What a validity check of the table against a buffer of `buf_len` units
/// reports: the first descent if there is one, else a last boundary that
/// lies beyond the buffer, else success.
pub open spec fn validity(base: usize, table: Seq<usize>, buf_len: int) -> Result<
    (),
    SplitError,
> {
    match first_descent(base, table) {
        Some(k) => Err(
            SplitError::NotMonotonic(boundary(base, table, k), boundary(base, table, k + 1)),
        ),
        None => if boundary(base, table, table.len() as int) > buf_len {
            Err(SplitError::OutOfBounds(boundary(base, table, table.len() as int)))
        } else {
            Ok(())
        },
    }
}

/// The table is non-decreasing and ends inside a buffer of `buf_len` units.
pub open spec fn fits(base: usize, table: Seq<usize>, buf_len: int) -> bool {
    non_decreasing(base, table) && boundary(base, table, table.len() as int) <= buf_len
}

/// A table without a descent before `upto` is non-decreasing up to there.
pub proof fn lemma_no_descent_sorted(base: usize, table: Seq<usize>, from: int, upto: int)
    requires
        0 <= from <= upto <= table.len(),
        first_descent_from(base, table, from) is None,
    ensures
        forall|i: int, j: int|
            from <= i <= j <= upto ==> boundary(base, table, i) <= boundary(base, table, j),
    decreases upto - from,
{
    if from < upto {
        lemma_no_descent_sorted(base, table, from + 1, upto);
        assert forall|i: int, j: int| from <= i <= j <= upto implies boundary(base, table, i)
            <= boundary(base, table, j) by {
            if i == from && j > from {
                assert(boundary(base, table, from) <= boundary(base, table, from + 1));
                assert(boundary(base, table, from + 1) <= boundary(base, table, j));
            }
        }
    }
}

/// A descent is found exactly where the table is not non-decreasing, and it
/// is the first one.
pub proof fn lemma_first_descent(base: usize, table: Seq<usize>, from: int)
    requires
        0 <= from <= table.len(),
    ensures
        match first_descent_from(base, table, from) {
            Some(k) => {
                &&& from <= k < table.len()
                &&& boundary(base, table, k) > boundary(base, table, k + 1)
                &&& forall|i: int|
                    from <= i < k ==> boundary(base, table, i) <= #[trigger] boundary(
                        base,
                        table,
                        i + 1,
                    )
            },
            None => forall|i: int|
                from <= i < table.len() ==> boundary(base, table, i) <= #[trigger] boundary(
                    base,
                    table,
                    i + 1,
                ),
        },
    decreases table.len() - from,
{
    if from < table.len() && boundary(base, table, from) <= boundary(base, table, from + 1) {
        lemma_first_descent(base, table, from + 1);
    }
}

/// The validity check succeeds exactly on the tables that fit the buffer.
pub proof fn lemma_validity_ok(base: usize, table: Seq<usize>, buf_len: int)
    ensures
        validity(base, table, buf_len) is Ok <==> fits(base, table, buf_len),
{
    lemma_first_descent(base, table, 0);
    if first_descent(base, table) is None {
        lemma_no_descent_sorted(base, table, 0, table.len() as int);
    } else {
        let k = first_descent(base, table)->Some_0;
        assert(boundary(base, table, k) > boundary(base, table, k + 1));
    }
}

/// An index, or a range of indices, that the table does not have.
#[derive(Clone, Copy, Debug, PartialEq, Eq, Structural)]
pub struct IndexOutOfRange;

/// Why an offset table does not fit its buffer.
#[derive(Clone, Copy, Debug, PartialEq, Eq, Structural)]
pub enum SplitError {
    /// The first offset came before the second, and is larger.
    NotMonotonic(usize, usize),
    /// The last offset lies beyond the end of the buffer.
    OutOfBounds(usize),
}

impl SplitError {
    /// The text of `message`.
    pub open spec fn message_text(&self) -> Seq<char> {
        match *self {
            SplitError::NotMonotonic(lhs, rhs) => "split indices are supposed to increase, but "@
                + raw::decimal(lhs as nat) + " came before "@ + raw::decimal(rhs as nat),
            SplitError::OutOfBounds(idx) => "split index "@ + raw::decimal(idx as nat)
                + " was out of bounds"@,
        }
    }

    /// What is wrong with the table, with the offsets at fault.
    pub fn message(&self) -> (out: String)
        ensures
            out@ == self.message_text(),
    {
        match *self {
            SplitError::NotMonotonic(lhs, rhs) => {
                let mut out = String::from_str("split indices are supposed to increase, but ");
                out.append(raw::usize_text(lhs).as_str());
                out.append(" came before ");
                out.append(raw::usize_text(rhs).as_str());
                out
            },
            SplitError::OutOfBounds(idx) => {
                let mut out = String::from_str("split index ");
                out.append(raw::usize_text(idx).as_str());
                out.append(" was out of bounds");
                out
            },
        }
    }

    /// What is wrong with the table, in general.
    pub fn description(&self) -> (out: &'static str)
        ensures
            out@ == match *self {
                SplitError::NotMonotonic(..) => "split indices were not monotonically increasing"@,
                SplitError::OutOfBounds(..) => "split index was out of bounds"@,
            },
    {
        match *self {
            SplitError::NotMonotonic(..) => "split indices were not monotonically increasing",
            SplitError::OutOfBounds(..) => "split index was out of bounds",
        }
    }
}

/// A range of positions: of segments when it is asked of a table, of units
/// when a table answers. Without an end it runs to the end of what it is
/// applied to.
#[derive(Clone, Copy, Debug, PartialEq, Eq, Structural)]
pub struct SplitRange {
    pub start: usize,
    pub end: Option<usize>,
}

impl SplitRange {
    /// The range from `start` to before `end`.
    pub fn new(start: usize, end: usize) -> (range: SplitRange)
        ensures
            range == (SplitRange { start, end: Some(end) }),
    {
        SplitRange { start, end: Some(end) }
    }

    /// The range from the first position to before `end`.
    pub fn to(end: usize) -> (range: SplitRange)
        ensures
            range == (SplitRange { start: 0, end: Some(end) }),
    {
        SplitRange { start: 0, end: Some(end) }
    }

    /// The range from `start` to the end.
    pub fn from_start(start: usize) -> (range: SplitRange)
        ensures
            range == (SplitRange { start, end: None }),
    {
        SplitRange { start, end: None }
    }

    /// The range of everything.
    pub fn full() -> (range: SplitRange)
        ensures
            range == (SplitRange { start: 0, end: None }),
    {
        SplitRange { start: 0, end: None }
    }

    /// Where the range ends in what has `len` positions: at its end, or
    /// at `len` where it has none.
    pub open spec fn end_in(&self, len: nat) -> int {
        match self.end {
            Some(end) => end as int,
            None => len as int,
        }
    }

    /// The units of `buffer` that the range covers. The range has to lie
    /// inside the buffer.
    pub fn index_into<D: StrData + ?Sized>(self, buffer: &D) -> (part: &D)
        requires
            self.start <= self.end_in(buffer.units().len()) <= buffer.units().len(),
        ensures
            part.units() == buffer.units().subrange(
                self.start as int,
                self.end_in(buffer.units().len()),
            ),
    {
        let upto: &D = match self.end {
            Some(end) => buffer.split_at(end).0,
            None => buffer,
        };
        let part: &D = upto.split_at(self.start).1;
        assert(part.units() =~= buffer.units().subrange(
            self.start as int,
            self.end_in(buffer.units().len()),
        ));
        part
    }

    /// The elements of `buffer` that the range covers, to be written in
    /// place: what is written there is found in the buffer afterwards, and
    /// the elements around it stay as they are. The range has to lie inside
    /// the buffer.
    pub fn index_into_mut<T>(self, buffer: &mut [T]) -> (part: &mut [T])
        requires
            self.start <= self.end_in(old(buffer)@.len()) <= old(buffer)@.len(),
        ensures
            part@ == old(buffer)@.subrange(self.start as int, self.end_in(old(buffer)@.len())),
            final(buffer)@ == old(buffer)@.subrange(0, self.start as int) + final(part)@ + old(
                buffer,
            )@.subrange(self.end_in(old(buffer)@.len()), old(buffer)@.len() as int),
    {
        let end: usize = match self.end {
            Some(end) => end,
            None => buffer.len(),
        };
        let (upto, _) = buffer.split_at_mut(end);
        let (_, part) = upto.split_at_mut(self.start);
        part
    }
}

impl From<core::ops::Range<usize>> for SplitRange {
    /// The range from `start` to before `end`.
    fn from(r: core::ops::Range<usize>) -> (range: SplitRange) {
        SplitRange { start: r.start, end: Some(r.end) }
    }
}

impl vstd::std_specs::convert::FromSpecImpl<core::ops::Range<usize>> for SplitRange {
    open spec fn obeys_from_spec() -> bool {
        true
    }

    open spec fn from_spec(r: core::ops::Range<usize>) -> SplitRange {
        SplitRange { start: r.start, end: Some(r.end) }
    }
}

/// A borrowed offset table.
#[derive(Clone, Copy, Debug)]
pub struct Split<'a> {
    inner: &'a [usize],
    base: usize,
}

impl<'a> View for Split<'a> {
    type V = Seq<usize>;

    closed spec fn view(&self) -> Seq<usize> {
        self.inner@
    }
}

impl<'a> Split<'a> {
    /// Where the first segment of the table starts.
    pub closed spec fn base(&self) -> usize {
        self.base
    }

    /// Position of boundary `i`.
    pub open spec fn boundary(&self, i: int) -> usize {
        boundary(self.base(), self@, i)
    }

    /// The answer of `get`.
    pub open spec fn spec_get(&self, idx: usize) -> Result<SplitRange, IndexOutOfRange> {
        if idx < self@.len() {
            Ok(SplitRange { start: self.boundary(idx as int), end: Some(self@[idx as int]) })
        } else {
            Err(IndexOutOfRange)
        }
    }

    /// The answer of `get_slice`.
    pub open spec fn spec_get_slice(&self, range: SplitRange) -> Result<
        SplitRange,
        IndexOutOfRange,
    > {
        let hi = range.end_in(self@.len());
        if range.start <= hi <= self@.len() {
            Ok(
                SplitRange {
                    start: self.boundary(range.start as int),
                    end: Some(self.boundary(hi)),
                },
            )
        } else {
            Err(IndexOutOfRange)
        }
    }

    /// Creates a table over `inner` whose first segment starts at zero.
    pub fn new(inner: &'a [usize]) -> (s: Split<'a>)
        ensures
            s@ == inner@,
            s.base() == 0,
    {
        Split { inner, base: 0 }
    }

    /// The number of segments.
    pub fn len(&self) -> (n: usize)
        ensures
            n == self@.len(),
    {
        self.inner.len()
    }

    /// The positions of segment `idx`: from the end of the segment before it
    /// (the base for the first) to its own end.
    pub fn get(self, idx: usize) -> (r: Result<SplitRange, IndexOutOfRange>)
        ensures
            r == self.spec_get(idx),
    {
        let n: usize = self.inner.len();
        if idx >= n {
            Err(IndexOutOfRange)
        } else if idx == 0 {
            Ok(SplitRange { start: self.base, end: Some(self.inner[0]) })
        } else {
            Ok(SplitRange { start: self.inner[idx - 1], end: Some(self.inner[idx]) })
        }
    }

    /// The positions that the segments of `range` cover together: from the
    /// start of the first to the start of the one after the last. An empty
    /// range of segments gives an empty range of positions.
    pub fn get_slice(self, range: SplitRange) -> (r: Result<SplitRange, IndexOutOfRange>)
        ensures
            r == self.spec_get_slice(range),
    {
        let n: usize = self.inner.len();
        let hi: usize = match range.end {
            Some(end) => end,
            None => n,
        };
        if range.start > hi || hi > n {
            return Err(IndexOutOfRange);
        }
        let start: usize = if range.start == 0 {
            self.base
        } else {
            self.inner[range.start - 1]
        };
        let end: usize = if hi == 0 {
            self.base
        } else {
            self.inner[hi - 1]
        };
        Ok(SplitRange { start, end: Some(end) })
    }

    /// Checks the table against a buffer of `buf_len` units, and reports the
    /// first fault.
    pub fn check_valid(self, buf_len: usize) -> (r: Result<(), SplitError>)
        ensures
            r == validity(self.base(), self@, buf_len as int),
            r is Ok <==> fits(self.base(), self@, buf_len as int),
    {
        let n: usize = self.inner.len();
        let mut prev: usize = self.base;
        let mut i: usize = 0;
        while i < n
            invariant
                n == self@.len(),
                0 <= i <= n,
                prev == self.boundary(i as int),
                first_descent(self.base(), self@) == first_descent_from(
                    self.base(),
                    self@,
                    i as int,
                ),
            decreases n - i,
        {
            let next: usize = self.inner[i];
            if prev > next {
                proof {
                    lemma_validity_ok(self.base(), self@, buf_len as int);
                }
                return Err(SplitError::NotMonotonic(prev, next));
            }
            prev = next;
            i = i + 1;
        }
        proof {
            lemma_validity_ok(self.base(), self@, buf_len as int);
        }
        if prev > buf_len {
            Err(SplitError::OutOfBounds(prev))
        } else {
            Ok(())
        }
    }

    /// Takes the first segment off the table: its positions, and the table
    /// of the segments after it. `None` if the table has no segment.
    pub fn advance_first(self) -> (r: Option<(SplitRange, Split<'a>)>)
        ensures
            r is None <==> self@.len() == 0,
            r matches Some((range, rest)) ==> {
                &&& range == (SplitRange { start: self.base(), end: Some(self@[0]) })
                &&& rest@ == self@.subrange(1, self@.len() as int)
                &&& rest.base() == self@[0]
            },
    {
        let n: usize = self.inner.len();
        if n == 0 {
            None
        } else {
            let first: usize = self.inner[0];
            let rest: &'a [usize] = vstd::slice::slice_subrange(self.inner, 1, n);
            Some((SplitRange { start: self.base, end: Some(first) }, Split { inner: rest, base: first }))
        }
    }
}

} // verus!
