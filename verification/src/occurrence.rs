//! Where a needle stands in a haystack.
//!
//! Elements are compared with the element type's own equality, needle element
//! on the left, so every statement here is made over `eq_spec`. For the
//! integer types and every other type whose equality is equality of values,
//! an occurrence is a stretch of the haystack that equals the needle.

use vstd::prelude::*;
use vstd::std_specs::cmp::PartialEqSpec;

verus! {

/// The needle `ndl` occurs in `hay` at index `at`: it fits between `at` and
/// the end of the haystack, and each of its elements equals the haystack
/// element it lies over. An empty needle occurs at every index up to and
/// including `hay.len()`.
pub open spec fn occurs_at<T: PartialEq>(hay: Seq<T>, ndl: Seq<T>, at: int) -> bool {
    &&& 0 <= at
    &&& at + ndl.len() <= hay.len()
    &&& forall|k: int| 0 <= k < ndl.len() ==> (#[trigger] ndl[k]).eq_spec(&hay[at + k])
}

/// The least index in `from..hay.len()` at which `ndl` occurs in `hay`, or
/// `hay.len()` where it occurs at none of them.
///
/// On given sequences it is found by unfolding (`reveal_with_fuel`), or by
/// naming the index and calling [`lemma_first_occurrence_unique`].
pub open spec fn first_occurrence<T: PartialEq>(hay: Seq<T>, ndl: Seq<T>, from: int) -> int
    decreases hay.len() - from,
{
    if from >= hay.len() {
        hay.len() as int
    } else if occurs_at(hay, ndl, from) {
        from
    } else {
        first_occurrence(hay, ndl, from + 1)
    }
}

/// `first_occurrence` is what its name says: it lies between `from` and the
/// end of the haystack, the needle occurs there unless it is the end, and
/// the needle occurs at no index between `from` and it.
pub proof fn lemma_first_occurrence<T: PartialEq>(hay: Seq<T>, ndl: Seq<T>, from: int)
    requires
        from <= hay.len(),
    ensures
        from <= first_occurrence(hay, ndl, from) <= hay.len(),
        first_occurrence(hay, ndl, from) < hay.len() ==> occurs_at(
            hay,
            ndl,
            first_occurrence(hay, ndl, from),
        ),
        forall|i: int|
            from <= i < first_occurrence(hay, ndl, from) ==> !occurs_at(hay, ndl, i),
    decreases hay.len() - from,
{
    if from < hay.len() && !occurs_at(hay, ndl, from) {
        lemma_first_occurrence(hay, ndl, from + 1);
    }
}

/// The index that `first_occurrence` gives is the only one with its
/// properties: an occurrence at `at` with none between `from` and `at` is
/// the first one.
pub proof fn lemma_first_occurrence_unique<T: PartialEq>(
    hay: Seq<T>,
    ndl: Seq<T>,
    from: int,
    at: int,
)
    requires
        from <= at <= hay.len(),
        at < hay.len() ==> occurs_at(hay, ndl, at),
        forall|i: int| from <= i < at ==> !occurs_at(hay, ndl, i),
    ensures
        first_occurrence(hay, ndl, from) == at,
    decreases at - from,
{
    if from < at {
        lemma_first_occurrence_unique(hay, ndl, from + 1, at);
    }
}

/// Where equality of elements is equality of values, the needle occurs at
/// `at` exactly when the haystack holds the needle there.
pub proof fn lemma_occurrence_is_subrange<T: PartialEq>(hay: Seq<T>, ndl: Seq<T>, at: int)
    requires
        vstd::laws_eq::obeys_concrete_eq::<T>(),
        0 <= at,
        at + ndl.len() <= hay.len(),
    ensures
        occurs_at(hay, ndl, at) <==> hay.subrange(at, at + ndl.len()) == ndl,
{
    reveal(vstd::laws_eq::obeys_concrete_eq);
    let piece = hay.subrange(at, at + ndl.len());
    if occurs_at(hay, ndl, at) {
        assert forall|k: int| 0 <= k < ndl.len() implies piece[k] == ndl[k] by {
            assert(ndl[k].eq_spec(&hay[at + k]));
        }
        assert(piece =~= ndl);
    }
    if piece == ndl {
        assert forall|k: int| 0 <= k < ndl.len() implies (#[trigger] ndl[k]).eq_spec(
            &hay[at + k],
        ) by {
            assert(piece[k] == hay[at + k]);
        }
    }
}

/// Tests whether `hay` begins with `ndl`, element by element.
pub(crate) fn starts_with<T: PartialEq>(hay: &[T], ndl: &[T]) -> (found: bool)
    ensures
        found ==> ndl@.len() <= hay@.len(),
        T::obeys_eq_spec() ==> found == occurs_at(hay@, ndl@, 0),
{
    let n = ndl.len();
    if hay.len() < n {
        return false;
    }
    let mut k: usize = 0;
    while k < n
        invariant
            n == ndl@.len(),
            n <= hay@.len(),
            k <= n,
            T::obeys_eq_spec() ==> forall|j: int|
                0 <= j < k ==> (#[trigger] ndl@[j]).eq_spec(&hay@[j]),
        decreases n - k,
    {
        if !(ndl[k] == hay[k]) {
            return false;
        }
        k += 1;
    }
    true
}

} // verus!
