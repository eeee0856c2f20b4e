//! The mathematical model of a packed buffer: the segments that an offset
//! table cuts out of a run of units, and how the model follows the
//! operations on buffer and table.
use crate::buffer::Unit;
use crate::split::{boundary, fits};
use crate::strlike::StrLike;
use vstd::prelude::*;

verus! {

/// Segment `i` of the buffer: the units between boundary `i` and boundary
/// `i + 1` of the table.
pub open spec fn segment<U>(buffer: Seq<U>, table: Seq<usize>, i: int) -> Seq<U> {
    buffer.subrange(boundary(0, table, i) as int, boundary(0, table, i + 1) as int)
}

/// The segments of the buffer, in order.
pub open spec fn segments<U>(buffer: Seq<U>, table: Seq<usize>) -> Seq<Seq<U>> {
    Seq::new(table.len(), |i: int| segment(buffer, table, i))
}

/// The table ends exactly where the buffer ends.
pub open spec fn tight(buffer_len: nat, table: Seq<usize>) -> bool {
    boundary(0, table, table.len() as int) == buffer_len
}

/// Each of the segments is valid for the kind `T`.
pub open spec fn all_valid<T: StrLike + ?Sized>(segs: Seq<Seq<Unit<T>>>) -> bool {
    forall|i: int| 0 <= i < segs.len() ==> T::valid(#[trigger] segs[i])
}

/// The raw data of each of the segments, in order.
pub open spec fn raws<T: StrLike + ?Sized>(segs: Seq<&T>) -> Seq<Seq<Unit<T>>> {
    Seq::new(segs.len(), |i: int| segs[i].raw())
}

/// The first `k` of valid segments are valid.
pub proof fn lemma_all_valid_take<T: StrLike + ?Sized>(segs: Seq<Seq<Unit<T>>>, k: int)
    requires
        all_valid::<T>(segs),
        0 <= k <= segs.len(),
    ensures
        all_valid::<T>(segs.take(k)),
{
    assert forall|i: int| 0 <= i < segs.take(k).len() implies T::valid(
        #[trigger] segs.take(k)[i],
    ) by {
        assert(segs.take(k)[i] == segs[i]);
    }
}

/// Valid segments without the first `k` are valid.
pub proof fn lemma_all_valid_skip<T: StrLike + ?Sized>(segs: Seq<Seq<Unit<T>>>, k: int)
    requires
        all_valid::<T>(segs),
        0 <= k <= segs.len(),
    ensures
        all_valid::<T>(segs.skip(k)),
{
    assert forall|i: int| 0 <= i < segs.skip(k).len() implies T::valid(
        #[trigger] segs.skip(k)[i],
    ) by {
        assert(segs.skip(k)[i] == segs[k + i]);
    }
}

/// Valid segments followed by valid segments are valid.
pub proof fn lemma_all_valid_add<T: StrLike + ?Sized>(a: Seq<Seq<Unit<T>>>, b: Seq<Seq<Unit<T>>>)
    requires
        all_valid::<T>(a),
        all_valid::<T>(b),
    ensures
        all_valid::<T>(a + b),
{
    assert forall|i: int| 0 <= i < (a + b).len() implies T::valid(#[trigger] (a + b)[i]) by {
        if i < a.len() {
            assert((a + b)[i] == a[i]);
        } else {
            assert((a + b)[i] == b[i - a.len()]);
        }
    }
}

/// The segments put end to end.
pub open spec fn concat<U>(segs: Seq<Seq<U>>) -> Seq<U>
    decreases segs.len(),
{
    if segs.len() == 0 {
        Seq::empty()
    } else {
        concat(segs.drop_last()) + segs.last()
    }
}

/// The table of the buffer that holds exactly `segs`: entry `i` is the
/// length of the first `i + 1` segments together.
pub open spec fn offsets<U>(segs: Seq<Seq<U>>) -> Seq<usize> {
    Seq::new(segs.len(), |i: int| concat(segs.take(i + 1)).len() as usize)
}

/// The table with each entry moved up by `by`.
pub open spec fn shifted_up(table: Seq<usize>, by: int) -> Seq<usize> {
    Seq::new(table.len(), |i: int| (table[i] + by) as usize)
}

/// The table with each entry moved down by `by`.
pub open spec fn shifted_down(table: Seq<usize>, by: int) -> Seq<usize> {
    Seq::new(table.len(), |i: int| (table[i] - by) as usize)
}

/// Putting segments end to end goes along with joining two lists of them.
pub proof fn lemma_concat_add<U>(a: Seq<Seq<U>>, b: Seq<Seq<U>>)
    ensures
        concat(a + b) == concat(a) + concat(b),
    decreases b.len(),
{
    if b.len() == 0 {
        assert(a + b =~= a);
        assert(concat(a) + concat(b) =~= concat(a));
    } else {
        lemma_concat_add(a, b.drop_last());
        assert((a + b).drop_last() =~= a + b.drop_last());
        assert((a + b).last() == b.last());
        assert(concat(a + b) =~= concat(a) + concat(b));
    }
}

/// The first `k` segments together are no longer than all of them.
pub proof fn lemma_concat_prefix_len<U>(segs: Seq<Seq<U>>, k: int)
    requires
        0 <= k <= segs.len(),
    ensures
        concat(segs.take(k)).len() <= concat(segs).len(),
{
    assert(segs =~= segs.take(k) + segs.skip(k));
    lemma_concat_add(segs.take(k), segs.skip(k));
}

/// One more segment at the end adds its units at the end.
pub proof fn lemma_concat_push<U>(segs: Seq<Seq<U>>, x: Seq<U>)
    ensures
        concat(segs.push(x)) == concat(segs) + x,
{
    assert(segs.push(x).drop_last() =~= segs);
}

/// In a table that fits its buffer, the units between two boundaries are
/// the segments between them, put end to end.
pub proof fn lemma_range_is_concat<U>(buffer: Seq<U>, table: Seq<usize>, lo: int, hi: int)
    requires
        fits(0, table, buffer.len() as int),
        0 <= lo <= hi <= table.len(),
    ensures
        boundary(0, table, lo) <= boundary(0, table, hi) <= buffer.len(),
        buffer.subrange(boundary(0, table, lo) as int, boundary(0, table, hi) as int) == concat(
            segments(buffer, table).subrange(lo, hi),
        ),
    decreases hi - lo,
{
    let segs = segments(buffer, table);
    assert(boundary(0, table, hi) <= boundary(0, table, table.len() as int));
    if lo == hi {
        assert(buffer.subrange(boundary(0, table, lo) as int, boundary(0, table, hi) as int)
            =~= Seq::<U>::empty());
        assert(segs.subrange(lo, hi) =~= Seq::<Seq<U>>::empty());
    } else {
        lemma_range_is_concat(buffer, table, lo, hi - 1);
        assert(boundary(0, table, hi - 1) <= boundary(0, table, hi));
        assert(segs.subrange(lo, hi).drop_last() =~= segs.subrange(lo, hi - 1));
        assert(segs.subrange(lo, hi).last() == segment(buffer, table, hi - 1));
        assert(buffer.subrange(boundary(0, table, lo) as int, boundary(0, table, hi) as int)
            =~= buffer.subrange(boundary(0, table, lo) as int, boundary(0, table, hi - 1) as int)
            + segment(buffer, table, hi - 1));
    }
}

/// A buffer whose table is tight is its segments put end to end.
pub proof fn lemma_buffer_is_concat<U>(buffer: Seq<U>, table: Seq<usize>)
    requires
        fits(0, table, buffer.len() as int),
        tight(buffer.len(), table),
    ensures
        buffer == concat(segments(buffer, table)),
{
    lemma_range_is_concat(buffer, table, 0, table.len() as int);
    assert(segments(buffer, table).subrange(0, table.len() as int) =~= segments(buffer, table));
    assert(buffer.subrange(0, buffer.len() as int) =~= buffer);
}

/// The table of a tight buffer holds the lengths of its segments, summed up.
pub proof fn lemma_table_is_offsets<U>(buffer: Seq<U>, table: Seq<usize>)
    requires
        fits(0, table, buffer.len() as int),
    ensures
        table == offsets(segments(buffer, table)),
{
    let segs = segments(buffer, table);
    assert forall|i: int| 0 <= i < table.len() implies table[i] == offsets(segs)[i] by {
        lemma_range_is_concat(buffer, table, 0, i + 1);
        assert(segs.take(i + 1) =~= segs.subrange(0, i + 1));
    }
    assert(table =~= offsets(segs));
}

/// Adding a segment: its units go to the end of the buffer, and the new
/// end of the buffer to the end of the table.
pub proof fn lemma_push<U>(buffer: Seq<U>, table: Seq<usize>, x: Seq<U>)
    requires
        fits(0, table, buffer.len() as int),
        tight(buffer.len(), table),
        buffer.len() + x.len() <= usize::MAX,
    ensures
        fits(0, table.push((buffer.len() + x.len()) as usize), (buffer.len() + x.len()) as int),
        tight((buffer.len() + x.len()) as nat, table.push((buffer.len() + x.len()) as usize)),
        segments(buffer + x, table.push((buffer.len() + x.len()) as usize)) == segments(
            buffer,
            table,
        ).push(x),
{
    let end = (buffer.len() + x.len()) as usize;
    let t2 = table.push(end);
    let n = table.len() as int;
    assert forall|i: int| 0 <= i <= n implies boundary(0, t2, i) == boundary(0, table, i) by {}
    assert forall|i: int, j: int| 0 <= i <= j <= t2.len() implies boundary(0, t2, i) <= boundary(
        0,
        t2,
        j,
    ) by {
        if j <= n {
            assert(boundary(0, table, i) <= boundary(0, table, j));
        } else if i <= n {
            assert(boundary(0, table, i) <= boundary(0, table, n));
        }
    }
    let s1 = segments(buffer + x, t2);
    let s2 = segments(buffer, table).push(x);
    assert forall|i: int| 0 <= i < s1.len() implies s1[i] == s2[i] by {
        if i < n {
            assert(boundary(0, table, i) <= boundary(0, table, i + 1));
            assert(boundary(0, table, i + 1) <= boundary(0, table, n));
            assert(s1[i] =~= segment(buffer, table, i));
        } else {
            assert(s1[i] =~= x);
        }
    }
    assert(s1 =~= s2);
}

/// Keeping the first `k` segments: the table keeps its first `k` entries,
/// the buffer the units before boundary `k`.
pub proof fn lemma_take<U>(buffer: Seq<U>, table: Seq<usize>, k: int)
    requires
        fits(0, table, buffer.len() as int),
        0 <= k <= table.len(),
    ensures
        boundary(0, table, k) <= buffer.len(),
        fits(0, table.take(k), boundary(0, table, k) as int),
        tight(boundary(0, table, k) as nat, table.take(k)),
        segments(buffer.take(boundary(0, table, k) as int), table.take(k)) == segments(
            buffer,
            table,
        ).take(k),
{
    let cut = boundary(0, table, k) as int;
    let t2 = table.take(k);
    assert(boundary(0, table, k) <= boundary(0, table, table.len() as int));
    assert forall|i: int| 0 <= i <= k implies boundary(0, t2, i) == boundary(0, table, i) by {}
    assert forall|i: int, j: int| 0 <= i <= j <= t2.len() implies boundary(0, t2, i) <= boundary(
        0,
        t2,
        j,
    ) by {
        assert(boundary(0, table, i) <= boundary(0, table, j));
    }
    let s1 = segments(buffer.take(cut), t2);
    let s2 = segments(buffer, table).take(k);
    assert forall|i: int| 0 <= i < s1.len() implies s1[i] == s2[i] by {
        assert(boundary(0, table, i) <= boundary(0, table, i + 1));
        assert(boundary(0, table, i + 1) <= boundary(0, table, k));
        assert(s1[i] =~= segment(buffer, table, i));
    }
    assert(s1 =~= s2);
}

/// Handing out the segments from `k` on: their entries, moved down by
/// boundary `k`, cut them out of the units from there on.
pub proof fn lemma_skip<U>(buffer: Seq<U>, table: Seq<usize>, k: int)
    requires
        fits(0, table, buffer.len() as int),
        tight(buffer.len(), table),
        0 <= k <= table.len(),
    ensures
        boundary(0, table, k) <= buffer.len(),
        forall|i: int| k <= i < table.len() ==> boundary(0, table, k) <= #[trigger] table[i],
        fits(
            0,
            shifted_down(table.skip(k), boundary(0, table, k) as int),
            buffer.len() - boundary(0, table, k),
        ),
        tight(
            (buffer.len() - boundary(0, table, k)) as nat,
            shifted_down(table.skip(k), boundary(0, table, k) as int),
        ),
        segments(
            buffer.skip(boundary(0, table, k) as int),
            shifted_down(table.skip(k), boundary(0, table, k) as int),
        ) == segments(buffer, table).skip(k),
{
    let cut = boundary(0, table, k) as int;
    let t2 = shifted_down(table.skip(k), cut);
    let n = table.len() as int;
    assert(boundary(0, table, k) <= boundary(0, table, n));
    assert forall|i: int| k <= i < n implies boundary(0, table, k) <= #[trigger] table[i] by {
        assert(boundary(0, table, k) <= boundary(0, table, i + 1));
    }
    assert forall|i: int| 0 <= i <= n - k implies boundary(0, t2, i) == boundary(0, table, k + i)
        - cut by {
        if i > 0 {
            assert(table.skip(k)[i - 1] == table[k + i - 1]);
            assert(boundary(0, table, k) <= table[k + i - 1]);
        }
    }
    assert forall|i: int, j: int| 0 <= i <= j <= t2.len() implies boundary(0, t2, i) <= boundary(
        0,
        t2,
        j,
    ) by {
        assert(boundary(0, table, k + i) <= boundary(0, table, k + j));
    }
    let s1 = segments(buffer.skip(cut), t2);
    let s2 = segments(buffer, table).skip(k);
    assert forall|i: int| 0 <= i < s1.len() implies s1[i] == s2[i] by {
        assert(boundary(0, table, k) <= boundary(0, table, k + i));
        assert(boundary(0, table, k + i) <= boundary(0, table, k + i + 1));
        assert(boundary(0, table, k + i + 1) <= boundary(0, table, n));
        assert(s1[i] =~= segment(buffer, table, k + i));
    }
    assert(s1 =~= s2);
}

/// Joining two packed buffers: the second table, moved up by the length of
/// the first buffer, goes behind the first table.
pub proof fn lemma_append<U>(a: Seq<U>, ta: Seq<usize>, b: Seq<U>, tb: Seq<usize>)
    requires
        fits(0, ta, a.len() as int),
        tight(a.len(), ta),
        fits(0, tb, b.len() as int),
        tight(b.len(), tb),
        a.len() + b.len() <= usize::MAX,
    ensures
        fits(0, ta + shifted_up(tb, a.len() as int), (a.len() + b.len()) as int),
        tight((a.len() + b.len()) as nat, ta + shifted_up(tb, a.len() as int)),
        segments(a + b, ta + shifted_up(tb, a.len() as int)) == segments(a, ta) + segments(b, tb),
{
    let t2 = ta + shifted_up(tb, a.len() as int);
    let na = ta.len() as int;
    let nb = tb.len() as int;
    assert forall|i: int| 0 <= i <= nb implies boundary(0, tb, i) <= b.len() by {
        assert(boundary(0, tb, i) <= boundary(0, tb, nb));
    }
    assert forall|i: int| 0 <= i <= na implies boundary(0, ta, i) <= a.len() by {
        assert(boundary(0, ta, i) <= boundary(0, ta, na));
    }
    assert forall|i: int| 0 <= i <= na implies boundary(0, t2, i) == boundary(0, ta, i) by {}
    assert forall|i: int| 0 <= i <= nb implies boundary(0, t2, na + i) == boundary(0, tb, i)
        + a.len() by {
        if i > 0 {
            assert(t2[na + i - 1] == shifted_up(tb, a.len() as int)[i - 1]);
            assert(boundary(0, tb, i) <= b.len());
        } else {
            assert(boundary(0, ta, na) == a.len());
        }
    }
    assert forall|i: int, j: int| 0 <= i <= j <= t2.len() implies boundary(0, t2, i) <= boundary(
        0,
        t2,
        j,
    ) by {
        if j <= na {
            assert(boundary(0, ta, i) <= boundary(0, ta, j));
        } else if i <= na {
            assert(boundary(0, ta, i) <= a.len());
            assert(boundary(0, t2, na + (j - na)) == boundary(0, tb, j - na) + a.len());
        } else {
            assert(boundary(0, t2, na + (i - na)) == boundary(0, tb, i - na) + a.len());
            assert(boundary(0, t2, na + (j - na)) == boundary(0, tb, j - na) + a.len());
            assert(boundary(0, tb, i - na) <= boundary(0, tb, j - na));
        }
    }
    assert(boundary(0, t2, na + nb) == boundary(0, tb, nb) + a.len());
    let s1 = segments(a + b, t2);
    let s2 = segments(a, ta) + segments(b, tb);
    assert forall|i: int| 0 <= i < s1.len() implies s1[i] == s2[i] by {
        if i < na {
            assert(boundary(0, ta, i) <= boundary(0, ta, i + 1));
            assert(boundary(0, ta, i + 1) <= a.len());
            assert(s1[i] =~= segment(a, ta, i));
        } else {
            let k = i - na;
            assert(boundary(0, t2, na + k) == boundary(0, tb, k) + a.len());
            assert(boundary(0, t2, na + (k + 1)) == boundary(0, tb, k + 1) + a.len());
            assert(boundary(0, tb, k) <= boundary(0, tb, k + 1));
            assert(boundary(0, tb, k + 1) <= b.len());
            assert(s1[i] =~= segment(b, tb, k));
        }
    }
    assert(s1 =~= s2);
}

/// Writing new units of the same number over a segment changes that
/// segment and no other.
pub proof fn lemma_overwrite<U>(buffer: Seq<U>, table: Seq<usize>, k: int, x: Seq<U>)
    requires
        fits(0, table, buffer.len() as int),
        0 <= k < table.len(),
        x.len() == segment(buffer, table, k).len(),
    ensures
        boundary(0, table, k) + x.len() == boundary(0, table, k + 1),
        boundary(0, table, k + 1) <= buffer.len(),
        segments(
            buffer.subrange(0, boundary(0, table, k) as int) + x + buffer.subrange(
                boundary(0, table, k + 1) as int,
                buffer.len() as int,
            ),
            table,
        ) == segments(buffer, table).update(k, x),
{
    let start = boundary(0, table, k) as int;
    let end = boundary(0, table, k + 1) as int;
    let n = table.len() as int;
    assert(boundary(0, table, k) <= boundary(0, table, k + 1));
    assert(boundary(0, table, k + 1) <= boundary(0, table, n));
    let written = buffer.subrange(0, start) + x + buffer.subrange(end, buffer.len() as int);
    let s1 = segments(written, table);
    let s2 = segments(buffer, table).update(k, x);
    assert forall|i: int| 0 <= i < s1.len() implies s1[i] == s2[i] by {
        assert(boundary(0, table, i) <= boundary(0, table, i + 1));
        assert(boundary(0, table, i + 1) <= boundary(0, table, n));
        if i < k {
            assert(boundary(0, table, i + 1) <= boundary(0, table, k));
            assert(s1[i] =~= segment(buffer, table, i));
        } else if i == k {
            assert(s1[i] =~= x);
        } else {
            assert(boundary(0, table, k + 1) <= boundary(0, table, i));
            assert(s1[i] =~= segment(buffer, table, i));
        }
    }
    assert(s1 =~= s2);
}

} // verus!
