//! What filtering a sequence keeps, and where the kept elements stood.

use vstd::prelude::*;

verus! {

/// The elements of `all` at `positions`, in the order of `positions`.
pub open spec fn picked<T>(all: Seq<T>, positions: Seq<int>) -> Seq<T> {
    Seq::new(positions.len(), |k: int| all[positions[k]])
}

/// Whether `positions` are indices below `bound`, each greater than the one before it.
pub open spec fn is_ascending(positions: Seq<int>, bound: int) -> bool {
    &&& forall|k: int| 0 <= k < positions.len() ==> 0 <= #[trigger] positions[k] < bound
    &&& forall|j: int, k: int| 0 <= j < k < positions.len() ==> positions[j] < positions[k]
}

/// The indices of the elements of `all` that `keep` holds of, in ascending order.
pub open spec fn kept_positions<T>(all: Seq<T>, keep: spec_fn(T) -> bool) -> Seq<int>
    decreases all.len(),
{
    if all.len() == 0 {
        Seq::empty()
    } else {
        let before = kept_positions(all.drop_last(), keep);
        if keep(all.last()) {
            before.push(all.len() - 1)
        } else {
            before
        }
    }
}

/// Filtering picks the elements at the kept positions: those are ascending indices of `all`,
/// and an index is among them exactly when `keep` holds of its element.
pub proof fn lemma_filter_picks<T>(all: Seq<T>, keep: spec_fn(T) -> bool)
    ensures
        is_ascending(kept_positions(all, keep), all.len() as int),
        forall|i: int|
            0 <= i < all.len() ==> (kept_positions(all, keep).contains(i) <==> keep(all[i])),
        all.filter(keep) == picked(all, kept_positions(all, keep)),
    decreases all.len(),
{
    reveal(Seq::filter);
    let positions = kept_positions(all, keep);
    if all.len() > 0 {
        let front = all.drop_last();
        let before = kept_positions(front, keep);
        lemma_filter_picks(front, keep);
        assert forall|i: int| 0 <= i < all.len() implies (positions.contains(i) <==> keep(
            all[i],
        )) by {
            if i < all.len() - 1 {
                if before.contains(i) {
                    let k = choose|k: int| 0 <= k < before.len() && before[k] == i;
                    assert(positions[k] == i);
                }
            } else if keep(all.last()) {
                assert(positions[positions.len() - 1] == i);
            }
        }
    }
}

/// Filtering by a test that holds of every element changes nothing.
pub proof fn lemma_filter_keeps_all<T>(all: Seq<T>, keep: spec_fn(T) -> bool)
    requires
        forall|i: int| 0 <= i < all.len() ==> keep(#[trigger] all[i]),
    ensures
        all.filter(keep) == all,
    decreases all.len(),
{
    reveal(Seq::filter);
    if all.len() > 0 {
        lemma_filter_keeps_all(all.drop_last(), keep);
    }
}

/// Where the elements that pass `narrow` also pass `wide`, filtering by `narrow` gives what
/// filtering by `wide` and then by `narrow` gives.
pub proof fn lemma_filter_refines<T>(
    all: Seq<T>,
    narrow: spec_fn(T) -> bool,
    wide: spec_fn(T) -> bool,
)
    requires
        forall|i: int| 0 <= i < all.len() && narrow(#[trigger] all[i]) ==> wide(all[i]),
    ensures
        all.filter(narrow) == all.filter(wide).filter(narrow),
    decreases all.len(),
{
    reveal(Seq::filter);
    if all.len() > 0 {
        let front = all.drop_last();
        assert forall|i: int| 0 <= i < front.len() && narrow(#[trigger] front[i]) implies wide(
            front[i],
        ) by {}
        lemma_filter_refines(front, narrow, wide);
        if wide(all.last()) {
            front.filter(wide).lemma_filter_push(all.last(), narrow);
        }
    }
}

} // verus!
