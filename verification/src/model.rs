//! The splitter as a state machine over mathematical sequences.
//!
//! A [`SplitState`] is what a splitter is to a contract: the haystack, the
//! needle and the two cursors. [`SplitState::next_span`] and
//! [`SplitState::advance`] say what one step yields and where it leaves the
//! cursors; [`SplitState::remaining_spans`] is everything that is still to
//! come.

use vstd::prelude::*;
use crate::occurrence::{first_occurrence, lemma_first_occurrence};

verus! {

/// The half-open range `start..end` of haystack indices that a segment
/// covers.
pub struct Span {
    pub start: int,
    pub end: int,
}

/// The abstract state of a splitter.
pub struct SplitState<T> {
    /// The sequence that is split.
    pub hay: Seq<T>,
    /// The delimiter.
    pub ndl: Seq<T>,
    /// Where the next segment begins.
    pub start: int,
    /// How far the search for the next delimiter has come.
    pub end: int,
}

impl<T: PartialEq> SplitState<T> {
    /// The state of a new splitter: both cursors at the front.
    pub open spec fn initial(hay: Seq<T>, ndl: Seq<T>) -> Self {
        SplitState { hay, ndl, start: 0, end: 0 }
    }

    /// The state with both cursors at `pos`, as they are between two steps.
    pub open spec fn at(hay: Seq<T>, ndl: Seq<T>, pos: int) -> Self {
        SplitState { hay, ndl, start: pos, end: pos }
    }

    /// The cursors are in order and inside the haystack.
    pub open spec fn wf(self) -> bool {
        0 <= self.start <= self.end <= self.hay.len()
    }

    /// Nothing is left: the search has reached the end of the haystack and
    /// no segment is waiting to be handed out.
    pub open spec fn exhausted(self) -> bool {
        self.end >= self.hay.len() && self.start >= self.end
    }

    /// Where the next segment ends: at the first delimiter from the search
    /// cursor on, or at the end of the haystack where there is none. An
    /// empty needle delimits nothing, so the segment runs to the end.
    pub open spec fn cut(self) -> int {
        if self.ndl.len() == 0 {
            self.hay.len() as int
        } else {
            first_occurrence(self.hay, self.ndl, self.end)
        }
    }

    /// Where both cursors stand after the next segment: behind the
    /// delimiter that ended it, or at the end of the haystack.
    pub open spec fn resume(self) -> int {
        if self.cut() < self.hay.len() {
            self.cut() + self.ndl.len()
        } else {
            self.hay.len() as int
        }
    }

    /// The range of the segment that the next step yields, if any.
    pub open spec fn next_span(self) -> Option<Span> {
        if self.exhausted() {
            None
        } else {
            Some(Span { start: self.start, end: self.cut() })
        }
    }

    /// The segment that the next step yields, if any.
    pub open spec fn next_segment(self) -> Option<Seq<T>> {
        match self.next_span() {
            Some(span) => Some(segment(self.hay, span)),
            None => None,
        }
    }

    /// The state after the next step. An exhausted state stays as it is.
    pub open spec fn advance(self) -> Self {
        if self.exhausted() {
            self
        } else {
            SplitState { hay: self.hay, ndl: self.ndl, start: self.resume(), end: self.resume() }
        }
    }

    /// The state after `steps` steps.
    pub open spec fn after(self, steps: nat) -> Self
        decreases steps,
    {
        if steps == 0 {
            self
        } else {
            self.advance().after((steps - 1) as nat)
        }
    }

    /// The ranges of all segments still to come, in the order in which they
    /// are yielded.
    pub open spec fn remaining_spans(self) -> Seq<Span>
        decreases self.hay.len() - self.start,
        via Self::remaining_spans_terminate
    {
        if !self.wf() || self.exhausted() {
            Seq::empty()
        } else {
            seq![Span { start: self.start, end: self.cut() }] + self.advance().remaining_spans()
        }
    }

    #[via_fn]
    proof fn remaining_spans_terminate(self) {
        if self.wf() && !self.exhausted() {
            self.lemma_step();
        }
    }

    /// One step from a well-formed state that is not exhausted: the segment
    /// begins at the start cursor and ends at or behind the search cursor,
    /// and both cursors move forward, past the old start, staying inside
    /// the haystack.
    pub proof fn lemma_step(self)
        requires
            self.wf(),
            !self.exhausted(),
        ensures
            self.end <= self.cut() <= self.hay.len(),
            self.cut() <= self.resume() <= self.hay.len(),
            self.start < self.resume(),
            self.advance().wf(),
            self.advance() == Self::at(self.hay, self.ndl, self.resume()),
    {
        lemma_first_occurrence(self.hay, self.ndl, self.end);
    }
}

/// The value of the segment of `hay` that `span` covers.
pub open spec fn segment<T>(hay: Seq<T>, span: Span) -> Seq<T> {
    hay.subrange(span.start, span.end)
}

/// The ranges of the segments into which `ndl` splits `hay`.
pub open spec fn split_spans<T: PartialEq>(hay: Seq<T>, ndl: Seq<T>) -> Seq<Span> {
    SplitState::initial(hay, ndl).remaining_spans()
}

/// The values of the segments of `hay` that `spans` cover, in their order.
pub open spec fn segments<T>(hay: Seq<T>, spans: Seq<Span>) -> Seq<Seq<T>> {
    Seq::new(spans.len(), |i: int| segment(hay, spans[i]))
}

/// The segments into which `ndl` splits `hay`.
pub open spec fn split_segments<T: PartialEq>(hay: Seq<T>, ndl: Seq<T>) -> Seq<Seq<T>> {
    segments(hay, split_spans(hay, ndl))
}

/// `parts` laid end to end with `sep` between each two neighbours.
pub open spec fn join<T>(parts: Seq<Seq<T>>, sep: Seq<T>) -> Seq<T>
    decreases parts.len(),
{
    if parts.len() == 0 {
        Seq::empty()
    } else if parts.len() == 1 {
        parts[0]
    } else {
        parts[0] + sep + join(parts.drop_first(), sep)
    }
}

} // verus!
