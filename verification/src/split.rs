//! The splitter itself: an iterator over the segments of a slice that lie
//! between the occurrences of a needle.

use vstd::prelude::*;
use vstd::std_specs::cmp::PartialEqSpec;
use vstd::std_specs::iter::IteratorSpecImpl;
use crate::model::SplitState;
use crate::occurrence::{lemma_first_occurrence_unique, occurs_at, starts_with};

verus! {

/// Slices that can be split on a sub-slice.
pub trait SubslSplitter<'a, T: PartialEq> {
    /// The elements that `subsl_split` splits.
    spec fn elements(&self) -> Seq<T>;

    /// A splitter over `self` with `pat` as the delimiter, at its start.
    fn subsl_split(&'a self, pat: &'a [T]) -> (split: SubslSplit<'a, T>)
        ensures
            split@ == SplitState::initial(self.elements(), pat@),
    ;
}

impl<'a, T> SubslSplitter<'a, T> for &'a [T] where T: PartialEq {
    open spec fn elements(&self) -> Seq<T> {
        (*self)@
    }

    fn subsl_split(&'a self, pat: &'a [T]) -> (split: SubslSplit<'a, T>) {
        SubslSplit::new(self, pat)
    }
}

/// An iterator over the segments of a haystack between the occurrences of a
/// needle. It borrows both and copies nothing: each segment it yields is a
/// sub-slice of the haystack.
pub struct SubslSplit<'a, T: PartialEq> {
    start: usize,
    end: usize,
    ndl: &'a [T],
    hay: &'a [T],
}

impl<'a, T: PartialEq> View for SubslSplit<'a, T> {
    type V = SplitState<T>;

    closed spec fn view(&self) -> SplitState<T> {
        SplitState {
            hay: self.hay@,
            ndl: self.ndl@,
            start: self.start as int,
            end: self.end as int,
        }
    }
}

impl<'a, T: PartialEq> SubslSplit<'a, T> {
    #[verifier::type_invariant]
    spec fn cursors_in_order(self) -> bool {
        self@.wf()
    }

    /// A splitter over `haystack` with `needle` as the delimiter, at its
    /// start. Every pair of slices is accepted.
    pub fn new(haystack: &'a [T], needle: &'a [T]) -> (split: Self)
        ensures
            split@ == SplitState::initial(haystack@, needle@),
    {
        Self { start: 0, end: 0, ndl: needle, hay: haystack }
    }
}

/// What a step has yielded, as a contract sees it: the elements of the
/// segment, if there is one.
pub open spec fn yielded<T>(ret: Option<&[T]>) -> Option<Seq<T>> {
    match ret {
        Some(seg) => Some(seg@),
        None => None,
    }
}

/// The items are slices, and a contract can speak of a slice through its
/// view only, while the prophetic laws are stated over the items
/// themselves. They are therefore not claimed: what `next` yields is stated
/// in its own `ensures`, over [`SplitState`].
impl<'a, T: PartialEq> IteratorSpecImpl for SubslSplit<'a, T> {
    open spec fn obeys_prophetic_iter_laws(&self) -> bool {
        false
    }

    open spec fn remaining(&self) -> Seq<Self::Item> {
        Seq::empty()
    }

    open spec fn will_return_none(&self) -> bool {
        true
    }

    open spec fn decrease(&self) -> Option<nat> {
        None
    }

    open spec fn initial_value_relation(&self, init: &Self) -> bool {
        true
    }

    open spec fn peek(&self, index: int) -> Option<Self::Item> {
        None
    }
}

impl<'a, T: PartialEq> Iterator for SubslSplit<'a, T> {
    type Item = &'a [T];

    /// Yields the next segment and moves both cursors behind the delimiter
    /// that ended it, or to the end of the haystack. Yields `None` once
    /// nothing is left, and from then on.
    ///
    /// Whatever the element type, a segment begins at the start cursor, and
    /// behind it the cursors skip one needle's length or stand at the end.
    /// Which delimiter ends the segment is a matter of comparing elements:
    /// it is the model's step where the elements' equality obeys its
    /// `eq_spec`, and also where the needle is empty, since nothing is
    /// compared then.
    fn next(&mut self) -> (ret: Option<&'a [T]>)
        ensures
            final(self)@.wf(),
            final(self)@.hay == old(self)@.hay,
            final(self)@.ndl == old(self)@.ndl,
            ret is None <==> old(self)@.exhausted(),
            ret is None ==> final(self)@ == old(self)@,
            ret is Some ==> final(self)@.start == final(self)@.end,
            ret is Some ==> old(self)@.end <= old(self)@.start + ret.unwrap()@.len()
                <= final(self)@.end,
            ret is Some ==> ret.unwrap()@ == old(self)@.hay.subrange(
                old(self)@.start,
                old(self)@.start + ret.unwrap()@.len(),
            ),
            ret is Some ==> final(self)@.end == old(self)@.start + ret.unwrap()@.len()
                + old(self)@.ndl.len() || (old(self)@.start + ret.unwrap()@.len()
                == old(self)@.hay.len() && final(self)@.end == old(self)@.hay.len()),
            T::obeys_eq_spec() || old(self)@.ndl.len() == 0 ==> final(self)@
                == old(self)@.advance(),
            T::obeys_eq_spec() || old(self)@.ndl.len() == 0 ==> yielded(ret)
                == old(self)@.next_segment(),
    {
        proof {
            use_type_invariant(&*self);
        }
        // No more input
        if self.end >= self.hay.len() && self.start >= self.end {
            return None;
        }
        let len = self.hay.len();

        // An empty needle delimits nothing: hand out all that is left.
        if self.ndl.is_empty() {
            let it = &self.hay[self.start..len];
            self.end = len;
            self.start = self.end;
            return Some(it);
        }

        // Scan for the needle
        while self.end < len
            invariant
                self.hay == old(self).hay,
                self.ndl == old(self).ndl,
                self.start == old(self).start,
                len == self.hay@.len(),
                self.ndl@.len() > 0,
                old(self).end <= self.end <= len,
                self.start <= self.end,
                T::obeys_eq_spec() ==> forall|i: int|
                    old(self).end <= i < self.end ==> !occurs_at(self.hay@, self.ndl@, i),
            decreases len - self.end,
        {
            // Found it, let's emit it
            if starts_with(&self.hay[self.end..len], self.ndl) {
                proof {
                    if T::obeys_eq_spec() {
                        lemma_occurs_in_tail(self.hay@, self.ndl@, self.end as int);
                        lemma_first_occurrence_unique(
                            self.hay@,
                            self.ndl@,
                            old(self).end as int,
                            self.end as int,
                        );
                    }
                }
                let it = &self.hay[self.start..self.end];
                self.end += self.ndl.len();
                self.start = self.end;
                return Some(it);
            }
            proof {
                if T::obeys_eq_spec() {
                    lemma_occurs_in_tail(self.hay@, self.ndl@, self.end as int);
                }
            }
            self.end += 1;
        }

        // No needle this time around: emit the rest of the input.
        proof {
            if T::obeys_eq_spec() {
                lemma_first_occurrence_unique(
                    self.hay@,
                    self.ndl@,
                    old(self).end as int,
                    len as int,
                );
            }
        }
        let it = &self.hay[self.start..self.end];
        self.start = self.end;
        Some(it)
    }
}

/// A needle occurs at `at` exactly when the haystack from `at` on begins
/// with it.
proof fn lemma_occurs_in_tail<T: PartialEq>(hay: Seq<T>, ndl: Seq<T>, at: int)
    requires
        0 <= at <= hay.len(),
    ensures
        occurs_at(hay, ndl, at) <==> occurs_at(hay.subrange(at, hay.len() as int), ndl, 0),
{
    let tail = hay.subrange(at, hay.len() as int);
    if occurs_at(hay, ndl, at) {
        assert forall|k: int| 0 <= k < ndl.len() implies (#[trigger] ndl[k]).eq_spec(
            &tail[0 + k],
        ) by {
            assert(tail[0 + k] == hay[at + k]);
        }
    }
    if occurs_at(tail, ndl, 0) {
        assert forall|k: int| 0 <= k < ndl.len() implies (#[trigger] ndl[k]).eq_spec(
            &hay[at + k],
        ) by {
            assert(tail[0 + k] == hay[at + k]);
        }
    }
}

} // verus!
