//! What holds of the containers across several operations.
use crate::order::{
    follows, lemma_lex_segments, lemma_lex_segments_transitive, lex_segments, reversed, OrdUnit,
    Order,
};
use crate::packed::{
    concat, lemma_buffer_is_concat, lemma_concat_prefix_len, lemma_push, lemma_table_is_offsets,
    offsets, raws, segments, tight,
};
use crate::split::fits;
use crate::strlike::StrLike;
use crate::vec::Dynamic;
use vstd::prelude::*;

verus! {

/// Packing and cutting are inverse: the segments `segs`, put end to end and
/// cut by the table of their summed lengths, are `segs` again; that table
/// never decreases and ends where the buffer ends.
pub proof fn law_pack_then_cut<U>(segs: Seq<Seq<U>>)
    requires
        concat(segs).len() <= usize::MAX,
    ensures
        fits(0, offsets(segs), concat(segs).len() as int),
        tight(concat(segs).len(), offsets(segs)),
        segments(concat(segs), offsets(segs)) == segs,
    decreases segs.len(),
{
    if segs.len() == 0 {
        assert(segments(concat(segs), offsets(segs)) =~= segs);
    } else {
        let head = segs.drop_last();
        let x = segs.last();
        assert(segs =~= head.push(x));
        assert(segs.take(segs.len() - 1) =~= head);
        lemma_concat_prefix_len(segs, segs.len() - 1);
        law_pack_then_cut(head);
        lemma_push(concat(head), offsets(head), x);
        assert(offsets(segs) =~= offsets(head).push((concat(head).len() + x.len()) as usize)) by {
            assert forall|i: int| 0 <= i < segs.len() implies offsets(segs)[i] == offsets(
                head,
            ).push((concat(head).len() + x.len()) as usize)[i] by {
                if i < head.len() {
                    assert(segs.take(i + 1) =~= head.take(i + 1));
                } else {
                    assert(segs.take(i + 1) =~= segs);
                }
            }
        }
    }
}

/// Round trip: a vector made of the segments `items` holds them, and what
/// is read back from it, segment by segment, is `items` again.
pub proof fn law_round_trip<T: StrLike + ?Sized>(items: Seq<&T>, made: Dynamic<T>, read: Seq<&T>)
    requires
        made@ == raws::<T>(items),
        raws::<T>(read) == made@,
    ensures
        read.len() == items.len(),
        forall|i: int| 0 <= i < items.len() ==> (#[trigger] read[i]).raw() == items[i].raw(),
{
    assert(raws::<T>(read).len() == read.len());
    assert(raws::<T>(items).len() == items.len());
    assert forall|i: int| 0 <= i < items.len() implies (#[trigger] read[i]).raw()
        == items[i].raw() by {
        assert(raws::<T>(read)[i] == raws::<T>(items)[i]);
    }
}

/// Push and pop are inverse: a vector that had a segment added and then
/// its last segment removed holds what it held before, in the same buffer
/// content and with the same table.
pub proof fn law_push_pop<T: StrLike + ?Sized>(
    before: Dynamic<T>,
    x: &T,
    pushed: Dynamic<T>,
    popped: Dynamic<T>,
)
    requires
        before.wf(),
        pushed.wf(),
        popped.wf(),
        pushed@ == before@.push(x.raw()),
        popped@ == pushed@.drop_last(),
    ensures
        popped@ == before@,
        popped.units() == before.units(),
        popped.table() == before.table(),
{
    assert(before@.push(x.raw()).drop_last() =~= before@);
    law_same_segments_same_parts(popped, before);
}

/// Two vectors that hold the same segments have the same buffer content
/// and the same table.
pub proof fn law_same_segments_same_parts<T: StrLike + ?Sized>(a: Dynamic<T>, b: Dynamic<T>)
    requires
        a.wf(),
        b.wf(),
        a@ == b@,
    ensures
        a.units() == b.units(),
        a.table() == b.table(),
{
    lemma_buffer_is_concat(a.units(), a.table());
    lemma_buffer_is_concat(b.units(), b.table());
    lemma_table_is_offsets(a.units(), a.table());
    lemma_table_is_offsets(b.units(), b.table());
}

/// Split and append are inverse: a vector that was split at `k` and had
/// the tail appended again holds what it held before.
pub proof fn law_split_append<T: StrLike + ?Sized>(
    before: Dynamic<T>,
    k: usize,
    head: Dynamic<T>,
    tail: Dynamic<T>,
    joined: Dynamic<T>,
)
    requires
        before.wf(),
        joined.wf(),
        k <= before@.len(),
        head@ == before@.take(k as int),
        tail@ == before@.skip(k as int),
        joined@ == head@ + tail@,
    ensures
        joined@ == before@,
        joined.units() == before.units(),
        joined.table() == before.table(),
{
    assert(before@.take(k as int) + before@.skip(k as int) =~= before@);
    law_same_segments_same_parts(joined, before);
}

/// The order of containers is consistent: two containers compare equal
/// exactly where they hold the same segments, comparing them the other way
/// round gives the reversed answer, and what comes before a container
/// comes before what that container comes before.
pub proof fn law_ordering_consistent<U: OrdUnit>(
    a: Seq<Seq<U>>,
    b: Seq<Seq<U>>,
    c: Seq<Seq<U>>,
)
    ensures
        lex_segments(a, b) == Order::Equal <==> a == b,
        lex_segments(b, a) == reversed(lex_segments(a, b)),
        follows(lex_segments(a, b), lex_segments(b, c), lex_segments(a, c)),
{
    lemma_lex_segments(a, b);
    lemma_lex_segments_transitive(a, b, c);
}

/// An empty range of segments, at any place, is an empty run of units.
pub proof fn law_empty_range<U>(segs: Seq<Seq<U>>, at: int)
    requires
        0 <= at <= segs.len(),
    ensures
        concat(segs.subrange(at, at)) == Seq::<U>::empty(),
{
    assert(segs.subrange(at, at) =~= Seq::<Seq<U>>::empty());
}

} // verus!
