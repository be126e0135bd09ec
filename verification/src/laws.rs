//! What holds of every split, proved over the model.

use vstd::prelude::*;
use vstd::laws_eq::obeys_concrete_eq;
use crate::model::{join, segment, segments, split_segments, split_spans, Span, SplitState};
use crate::occurrence::{
    lemma_first_occurrence, lemma_first_occurrence_unique, lemma_occurrence_is_subrange,
    occurs_at,
};

verus! {

/// Once a state yields nothing, no number of further steps changes it or
/// makes it yield anything.
pub proof fn law_exhaustion_is_final<T: PartialEq>(st: SplitState<T>, steps: nat)
    requires
        st.next_span() is None,
    ensures
        st.after(steps) == st,
        st.after(steps).next_span() is None,
    decreases steps,
{
    if steps > 0 {
        law_exhaustion_is_final(st, (steps - 1) as nat);
    }
}

/// Step number `k` from a state yields entry `k` of what the state has
/// remaining, as a range and as a segment of the same haystack, leaving the
/// entries behind it, and yields nothing once the entries have run out.
pub proof fn law_steps_yield_remaining<T: PartialEq>(st: SplitState<T>, k: nat)
    requires
        st.wf(),
    ensures
        st.after(k).wf(),
        st.after(k).hay == st.hay,
        st.after(k).ndl == st.ndl,
        st.after(k).next_segment() == (if k < st.remaining_spans().len() {
            Some(segments(st.hay, st.remaining_spans())[k as int])
        } else {
            None
        }),
        st.after(k).next_span() == (if k < st.remaining_spans().len() {
            Some(st.remaining_spans()[k as int])
        } else {
            None
        }),
        k <= st.remaining_spans().len() ==> st.after(k).remaining_spans()
            == st.remaining_spans().skip(k as int),
        k >= st.remaining_spans().len() ==> st.after(k).exhausted(),
    decreases k,
{
    if st.exhausted() {
        law_exhaustion_is_final(st, k);
    } else if k > 0 {
        st.lemma_step();
        law_steps_yield_remaining(st.advance(), (k - 1) as nat);
    }
}

/// Call number `k` on a new splitter yields segment `k` of the split, and
/// nothing once the segments have run out.
pub proof fn law_steps_yield_split<T: PartialEq>(hay: Seq<T>, ndl: Seq<T>, k: nat)
    ensures
        SplitState::initial(hay, ndl).after(k).next_segment() == (if k < split_segments(
            hay,
            ndl,
        ).len() {
            Some(split_segments(hay, ndl)[k as int])
        } else {
            None
        }),
{
    law_steps_yield_remaining(SplitState::initial(hay, ndl), k);
}

/// The ranges that remain from a well-formed state, read from left to
/// right: the first begins at the start cursor, each lies inside the
/// haystack, a delimiter stands at the end of each but the last, the next
/// range begins right behind that delimiter, and the last range ends at the
/// end of the haystack or at a delimiter that does.
pub proof fn lemma_remaining_chain<T: PartialEq>(st: SplitState<T>)
    requires
        st.wf(),
    ensures
        ({
            let spans = st.remaining_spans();
            let n = st.ndl.len();
            let len = st.hay.len();
            &&& spans.len() == 0 <==> st.exhausted()
            &&& spans.len() <= len - st.start
            &&& spans.len() > 0 ==> spans[0].start == st.start && st.end <= spans[0].end
            &&& forall|i: int|
                0 <= i < spans.len() ==> st.start <= (#[trigger] spans[i]).start <= spans[i].end
                    <= len
            &&& forall|i: int|
                0 <= i < spans.len() - 1 ==> occurs_at(st.hay, st.ndl, (#[trigger] spans[i]).end)
                    && spans[i + 1].start == spans[i].end + n
            &&& forall|i: int, j: int|
                0 <= i < j < spans.len() ==> (#[trigger] spans[i]).end + n
                    <= (#[trigger] spans[j]).start
            &&& spans.len() > 0 ==> spans.last().end == len || (occurs_at(
                st.hay,
                st.ndl,
                spans.last().end,
            ) && spans.last().end + n == len)
        }),
    decreases st.hay.len() - st.start,
{
    if !st.exhausted() {
        st.lemma_step();
        lemma_first_occurrence(st.hay, st.ndl, st.end);
        lemma_remaining_chain(st.advance());
        let first = Span { start: st.start, end: st.cut() };
        let rest = st.advance().remaining_spans();
        assert(st.remaining_spans() == seq![first] + rest);
    }
}

/// From a state with both cursors at `pos`, no delimiter begins inside a
/// remaining range: each range ends at the first delimiter that begins at
/// or behind its start. The needle is not empty.
pub proof fn lemma_remaining_leftmost<T: PartialEq>(hay: Seq<T>, ndl: Seq<T>, pos: int)
    requires
        0 <= pos <= hay.len(),
        ndl.len() > 0,
    ensures
        ({
            let spans = SplitState::at(hay, ndl, pos).remaining_spans();
            forall|i: int, at: int|
                #![trigger spans[i], occurs_at(hay, ndl, at)]
                0 <= i < spans.len() && spans[i].start <= at < spans[i].end ==> !occurs_at(
                    hay,
                    ndl,
                    at,
                )
        }),
    decreases hay.len() - pos,
{
    let st = SplitState::at(hay, ndl, pos);
    if !st.exhausted() {
        st.lemma_step();
        lemma_first_occurrence(hay, ndl, pos);
        lemma_remaining_leftmost(hay, ndl, st.resume());
        let spans = st.remaining_spans();
        let rest = st.advance().remaining_spans();
        assert forall|i: int, at: int|
            #![trigger spans[i], occurs_at(hay, ndl, at)]
            0 <= i < spans.len() && spans[i].start <= at < spans[i].end implies !occurs_at(
            hay,
            ndl,
            at,
        ) by {
            if i > 0 {
                assert(spans[i] == rest[i - 1]);
            }
        }
    }
}

/// No two segments of a split overlap, and exactly one delimiter lies
/// between each two neighbours: the ranges lie inside the haystack in the
/// order in which they are yielded, the first begins at the front, a
/// delimiter stands at the end of each range but the last, and the next
/// range begins right behind it.
pub proof fn law_segments_do_not_overlap<T: PartialEq>(hay: Seq<T>, ndl: Seq<T>)
    ensures
        ({
            let spans = split_spans(hay, ndl);
            &&& spans.len() > 0 ==> spans[0].start == 0
            &&& forall|i: int|
                0 <= i < spans.len() ==> 0 <= (#[trigger] spans[i]).start <= spans[i].end
                    <= hay.len()
            &&& forall|i: int|
                0 <= i < spans.len() - 1 ==> occurs_at(hay, ndl, (#[trigger] spans[i]).end)
                    && spans[i + 1].start == spans[i].end + ndl.len()
            &&& forall|i: int, j: int|
                0 <= i < j < spans.len() ==> (#[trigger] spans[i]).end + ndl.len()
                    <= (#[trigger] spans[j]).start
        }),
{
    lemma_remaining_chain(SplitState::initial(hay, ndl));
}

/// Each segment of a split on a needle that is not empty ends at the first
/// delimiter behind its start: no delimiter begins inside it.
pub proof fn law_segments_hold_no_delimiter<T: PartialEq>(hay: Seq<T>, ndl: Seq<T>)
    requires
        ndl.len() > 0,
    ensures
        ({
            let spans = split_spans(hay, ndl);
            forall|i: int, at: int|
                #![trigger spans[i], occurs_at(hay, ndl, at)]
                0 <= i < spans.len() && spans[i].start <= at < spans[i].end ==> !occurs_at(
                    hay,
                    ndl,
                    at,
                )
        }),
{
    assert(SplitState::initial(hay, ndl) == SplitState::at(hay, ndl, 0));
    lemma_remaining_leftmost(hay, ndl, 0);
}

/// The last segment of a split ends at the end of the haystack, or at a
/// delimiter that ends there.
pub proof fn law_last_segment<T: PartialEq>(hay: Seq<T>, ndl: Seq<T>)
    requires
        split_spans(hay, ndl).len() > 0,
    ensures
        split_spans(hay, ndl).last().end == hay.len() || (occurs_at(
            hay,
            ndl,
            split_spans(hay, ndl).last().end,
        ) && split_spans(hay, ndl).last().end + ndl.len() == hay.len()),
{
    lemma_remaining_chain(SplitState::initial(hay, ndl));
}

/// An empty haystack has no segments, whatever the needle.
pub proof fn law_empty_haystack<T: PartialEq>(hay: Seq<T>, ndl: Seq<T>)
    requires
        hay.len() == 0,
    ensures
        split_spans(hay, ndl) == Seq::<Span>::empty(),
        split_segments(hay, ndl) == Seq::<Seq<T>>::empty(),
{
}

/// An empty needle splits a haystack that is not empty into one segment,
/// the whole haystack.
pub proof fn law_empty_needle<T: PartialEq>(hay: Seq<T>, ndl: Seq<T>)
    requires
        ndl.len() == 0,
        hay.len() > 0,
    ensures
        split_spans(hay, ndl) == seq![(Span { start: 0, end: hay.len() as int })],
        split_segments(hay, ndl) == seq![hay],
{
    let st = SplitState::initial(hay, ndl);
    assert(st.advance().remaining_spans() == Seq::<Span>::empty());
    assert(hay.subrange(0, hay.len() as int) =~= hay);
}

/// A needle that occurs nowhere in a haystack that is not empty splits it
/// into one segment, the whole haystack.
pub proof fn law_no_occurrence<T: PartialEq>(hay: Seq<T>, ndl: Seq<T>)
    requires
        hay.len() > 0,
        forall|at: int| !occurs_at(hay, ndl, at),
    ensures
        split_spans(hay, ndl) == seq![(Span { start: 0, end: hay.len() as int })],
        split_segments(hay, ndl) == seq![hay],
{
    let st = SplitState::initial(hay, ndl);
    assert(ndl.len() > 0) by {
        if ndl.len() == 0 {
            assert(occurs_at(hay, ndl, 0));
        }
    }
    lemma_first_occurrence_unique(hay, ndl, 0, hay.len() as int);
    assert(st.advance().remaining_spans() == Seq::<Span>::empty());
    assert(hay.subrange(0, hay.len() as int) =~= hay);
}

/// Joined with the needle, the segments that remain from a state with both
/// cursors at `pos` give back the haystack from `pos` to the end of the
/// last of them. The needle is not empty and equality of elements is
/// equality of values.
pub proof fn lemma_join_from<T: PartialEq>(hay: Seq<T>, ndl: Seq<T>, pos: int)
    requires
        obeys_concrete_eq::<T>(),
        ndl.len() > 0,
        0 <= pos <= hay.len(),
    ensures
        ({
            let spans = SplitState::at(hay, ndl, pos).remaining_spans();
            join(segments(hay, spans), ndl) == if spans.len() == 0 {
                Seq::<T>::empty()
            } else {
                hay.subrange(pos, spans.last().end)
            }
        }),
    decreases hay.len() - pos,
{
    let st = SplitState::at(hay, ndl, pos);
    let spans = st.remaining_spans();
    if !st.exhausted() {
        st.lemma_step();
        lemma_first_occurrence(hay, ndl, pos);
        let first = Span { start: pos, end: st.cut() };
        let rest = st.advance().remaining_spans();
        lemma_join_from(hay, ndl, st.resume());
        lemma_remaining_chain(st.advance());
        assert(spans == seq![first] + rest);
        assert(segments(hay, spans)[0] == segment(hay, first));
        if rest.len() > 0 {
            lemma_occurrence_is_subrange(hay, ndl, st.cut());
            assert(segments(hay, spans).drop_first() =~= segments(hay, rest));
            assert(spans.last() == rest.last());
            assert(hay.subrange(pos, st.cut()) + ndl + hay.subrange(st.resume(), rest.last().end)
                =~= hay.subrange(pos, rest.last().end));
        }
    }
}

/// Joined with the needle, the segments of a split give back the haystack
/// up to the end of the last segment. The needle is not empty and equality
/// of elements is equality of values.
pub proof fn law_join_restores_prefix<T: PartialEq>(hay: Seq<T>, ndl: Seq<T>)
    requires
        obeys_concrete_eq::<T>(),
        ndl.len() > 0,
        split_spans(hay, ndl).len() > 0,
    ensures
        join(split_segments(hay, ndl), ndl) == hay.subrange(0, split_spans(hay, ndl).last().end),
{
    lemma_join_from(hay, ndl, 0);
}

/// Joined with the needle, the segments of a split give back the haystack,
/// where the last segment runs to the end of the haystack, that is, unless
/// the haystack ends in a delimiter that the split consumed. The needle is
/// not empty and equality of elements is equality of values.
pub proof fn law_join_restores_haystack<T: PartialEq>(hay: Seq<T>, ndl: Seq<T>)
    requires
        obeys_concrete_eq::<T>(),
        ndl.len() > 0,
        split_spans(hay, ndl).len() > 0 ==> split_spans(hay, ndl).last().end == hay.len(),
    ensures
        join(split_segments(hay, ndl), ndl) == hay,
{
    lemma_join_from(hay, ndl, 0);
    lemma_remaining_chain(SplitState::initial(hay, ndl));
    if split_spans(hay, ndl).len() == 0 {
        assert(hay =~= Seq::<T>::empty());
    } else {
        assert(hay.subrange(0, hay.len() as int) =~= hay);
    }
}

} // verus!
