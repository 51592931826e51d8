//! What an eraser pass does to the whole set of strokes.
//!
//! The strokes live in a hash map, which is walked in no particular order, so
//! a pass is described twice: exactly, for the order in which the strokes
//! happened to be visited, and by what holds of the result whatever that
//! order was.

use vstd::prelude::*;
use crate::geometry::Point;
use crate::stroke::{
    cut_only_at, fragments, is_cut, lemma_fragments_valid, lemma_single_cut, valid_stroke,
};

verus! {

/// Whether the eraser splits a stroke: it has more than one point, one of
/// them is cut, and the handles from `next` on can still name its fragments.
pub open spec fn splits(points: Seq<Point>, eraser: Point, next: int) -> bool {
    points.len() > 1 && is_cut(points, eraser) && next + points.len() <= u64::MAX
}

/// `strokes` with `frags` added under the consecutive handles from `base`.
pub open spec fn with_fragments(
    strokes: Map<u64, Seq<Point>>,
    base: int,
    frags: Seq<Seq<Point>>,
) -> Map<u64, Seq<Point>> {
    Map::new(
        |k: u64| strokes.contains_key(k) || base <= k < base + frags.len(),
        |k: u64|
            if base <= k < base + frags.len() {
                frags[k - base]
            } else {
                strokes[k]
            },
    )
}

/// The eraser visits stroke `id`: a stroke it splits is replaced by its
/// fragments under fresh handles, any other is left alone. The state is the
/// live strokes and the next handle to mint.
pub open spec fn erase_one(state: (Map<u64, Seq<Point>>, int), id: u64, eraser: Point) -> (
    Map<u64, Seq<Point>>,
    int,
) {
    if state.0.contains_key(id) && splits(state.0[id], eraser, state.1) {
        let frags = fragments(state.0[id], eraser);
        (with_fragments(state.0.remove(id), state.1, frags), state.1 + frags.len())
    } else {
        state
    }
}

/// The eraser visits the strokes named by `order`, first to last.
pub open spec fn erase_in_order(
    strokes: Map<u64, Seq<Point>>,
    next: int,
    order: Seq<u64>,
    eraser: Point,
) -> (Map<u64, Seq<Point>>, int)
    decreases order.len(),
{
    if order.len() == 0 {
        (strokes, next)
    } else {
        erase_one(erase_in_order(strokes, next, order.drop_last(), eraser), order.last(), eraser)
    }
}

/// The fragments of `points` stand in `after` under the consecutive handles
/// from `base`, in order.
pub open spec fn placed_at(
    points: Seq<Point>,
    after: Map<u64, Seq<Point>>,
    eraser: Point,
    base: int,
) -> bool {
    forall|j: int|
        0 <= j < fragments(points, eraser).len() ==> {
            &&& 0 <= base + j <= u64::MAX
            &&& after.contains_key((base + j) as u64)
            &&& after[(base + j) as u64] == #[trigger] fragments(points, eraser)[j]
        }
}

/// `piece` is fragment number `j` of the stroke `id`, which the pass removed.
pub open spec fn fragment_of(
    before: Map<u64, Seq<Point>>,
    after: Map<u64, Seq<Point>>,
    eraser: Point,
    piece: Seq<Point>,
    id: u64,
    j: int,
) -> bool {
    &&& before.contains_key(id)
    &&& !after.contains_key(id)
    &&& 0 <= j < fragments(before[id], eraser).len()
    &&& fragments(before[id], eraser)[j] == piece
}

/// What holds of an eraser pass from `before` to `after`, whatever the order
/// in which it visited the strokes.
///
/// - A stroke that survives is unchanged, and every stroke with a single
///   point or with no cut point survives.
/// - A cut stroke of more than one point is gone, unless the handle space
///   ran out.
/// - The handles minted by the pass are exactly those from `next` up to
///   `after_next`; each names a fragment of a removed stroke.
/// - The fragments of a removed stroke all stand in `after`, in order, under
///   consecutive fresh handles.
pub open spec fn erase_outcome(
    before: Map<u64, Seq<Point>>,
    next: int,
    after: Map<u64, Seq<Point>>,
    after_next: int,
    eraser: Point,
) -> bool {
    &&& next <= after_next <= u64::MAX
    &&& forall|id: u64| #[trigger]
        before.contains_key(id) ==> {
            &&& after.contains_key(id) ==> after[id] == before[id]
            &&& !(before[id].len() > 1 && is_cut(before[id], eraser)) ==> after.contains_key(id)
            &&& splits(before[id], eraser, after_next) ==> !after.contains_key(id)
            &&& !after.contains_key(id) ==> exists|base: int|
                next <= base && base + fragments(before[id], eraser).len() <= after_next
                    && #[trigger] placed_at(before[id], after, eraser, base)
        }
    &&& forall|k: u64| #[trigger]
        after.contains_key(k) && !before.contains_key(k) ==> next <= k < after_next
    &&& forall|k: u64|
        next <= k < after_next ==> #[trigger] after.contains_key(k) && exists|id: u64, j: int| #[trigger]
            fragment_of(before, after, eraser, after[k], id, j)
}

/// All handles of `strokes` are below `next` and all its strokes are valid.
pub open spec fn valid_strokes(strokes: Map<u64, Seq<Point>>, next: int) -> bool {
    forall|id: u64| #[trigger]
        strokes.contains_key(id) ==> id < next && valid_stroke(strokes[id])
}

/// Of the strokes there were, those in `after` are unchanged; those not yet
/// visited, and those the eraser does not cut, are all in `after`; a visited
/// one that the eraser splits is gone, its fragments standing under fresh
/// handles.
pub open spec fn old_strokes_settled(
    before: Map<u64, Seq<Point>>,
    next: int,
    visited: Set<u64>,
    after: Map<u64, Seq<Point>>,
    after_next: int,
    eraser: Point,
) -> bool {
    forall|id: u64| #[trigger]
        before.contains_key(id) ==> {
            &&& after.contains_key(id) ==> after[id] == before[id]
            &&& !visited.contains(id) || !(before[id].len() > 1 && is_cut(before[id], eraser))
                ==> after.contains_key(id)
            &&& visited.contains(id) && splits(before[id], eraser, after_next)
                ==> !after.contains_key(id)
            &&& !after.contains_key(id) ==> exists|base: int|
                next <= base && base + fragments(before[id], eraser).len() <= after_next
                    && #[trigger] placed_at(before[id], after, eraser, base)
        }
}

/// The handles in `after` that were not in `before` lie from `next` up to
/// `after_next`.
pub open spec fn new_handles_minted(
    before: Map<u64, Seq<Point>>,
    next: int,
    after: Map<u64, Seq<Point>>,
    after_next: int,
) -> bool {
    forall|k: u64| #[trigger]
        after.contains_key(k) && !before.contains_key(k) ==> next <= k < after_next
}

/// Every handle from `next` up to `after_next` is live in `after` and names a
/// fragment of a removed stroke.
pub open spec fn minted_name_fragments(
    before: Map<u64, Seq<Point>>,
    next: int,
    after: Map<u64, Seq<Point>>,
    after_next: int,
    eraser: Point,
) -> bool {
    forall|k: u64|
        next <= k < after_next ==> #[trigger] after.contains_key(k) && exists|id: u64, j: int| #[trigger]
            fragment_of(before, after, eraser, after[k], id, j)
}

/// What holds after the eraser has visited the strokes in `visited`.
pub open spec fn erase_progress(
    before: Map<u64, Seq<Point>>,
    next: int,
    visited: Set<u64>,
    after: Map<u64, Seq<Point>>,
    after_next: int,
    eraser: Point,
) -> bool {
    &&& next <= after_next <= u64::MAX
    &&& valid_strokes(after, after_next)
    &&& old_strokes_settled(before, next, visited, after, after_next, eraser)
    &&& new_handles_minted(before, next, after, after_next)
    &&& minted_name_fragments(before, next, after, after_next, eraser)
}

/// A visit that splits nothing keeps `erase_progress`.
proof fn lemma_visit_spares(
    before: Map<u64, Seq<Point>>,
    next: int,
    visited: Set<u64>,
    mid: Map<u64, Seq<Point>>,
    mid_next: int,
    id: u64,
    eraser: Point,
)
    requires
        erase_progress(before, next, visited, mid, mid_next, eraser),
        before.contains_key(id),
        !visited.contains(id),
        !splits(before[id], eraser, mid_next),
    ensures
        erase_progress(before, next, visited.insert(id), mid, mid_next, eraser),
{
    assert(old_strokes_settled(before, next, visited.insert(id), mid, mid_next, eraser)) by {
        assert forall|x: u64| #[trigger] before.contains_key(x) implies {
            &&& mid.contains_key(x) ==> mid[x] == before[x]
            &&& !visited.insert(id).contains(x) || !(before[x].len() > 1 && is_cut(
                before[x],
                eraser,
            )) ==> mid.contains_key(x)
            &&& visited.insert(id).contains(x) && splits(before[x], eraser, mid_next)
                ==> !mid.contains_key(x)
            &&& !mid.contains_key(x) ==> exists|base: int|
                next <= base && base + fragments(before[x], eraser).len() <= mid_next
                    && #[trigger] placed_at(before[x], mid, eraser, base)
        } by {}
    }
}

/// A visit that splits the stroke keeps `erase_progress`.
proof fn lemma_visit_splits(
    before: Map<u64, Seq<Point>>,
    next: int,
    visited: Set<u64>,
    mid: Map<u64, Seq<Point>>,
    mid_next: int,
    id: u64,
    eraser: Point,
)
    requires
        valid_strokes(before, next),
        erase_progress(before, next, visited, mid, mid_next, eraser),
        before.contains_key(id),
        !visited.contains(id),
        splits(before[id], eraser, mid_next),
    ensures
        erase_progress(
            before,
            next,
            visited.insert(id),
            with_fragments(mid.remove(id), mid_next, fragments(before[id], eraser)),
            mid_next + fragments(before[id], eraser).len(),
            eraser,
        ),
{
    let points = before[id];
    let frags = fragments(points, eraser);
    let after = with_fragments(mid.remove(id), mid_next, frags);
    let after_next = mid_next + frags.len();
    let seen = visited.insert(id);
    lemma_fragments_valid(points, eraser);
    assert(mid.contains_key(id));
    assert(valid_strokes(after, after_next)) by {
        assert forall|k: u64| #[trigger] after.contains_key(k) implies k < after_next
            && valid_stroke(after[k]) by {
            if mid_next <= k < mid_next + frags.len() {
                assert(after[k] == frags[k - mid_next]);
            } else {
                assert(mid.contains_key(k));
            }
        }
    }
    assert(placed_at(points, after, eraser, mid_next)) by {
        assert forall|j: int| 0 <= j < frags.len() implies {
            &&& 0 <= mid_next + j <= u64::MAX
            &&& after.contains_key((mid_next + j) as u64)
            &&& after[(mid_next + j) as u64] == #[trigger] frags[j]
        } by {}
    }
    assert(old_strokes_settled(before, next, seen, after, after_next, eraser)) by {
        assert forall|x: u64| #[trigger] before.contains_key(x) implies {
            &&& after.contains_key(x) ==> after[x] == before[x]
            &&& !seen.contains(x) || !(before[x].len() > 1 && is_cut(before[x], eraser))
                ==> after.contains_key(x)
            &&& seen.contains(x) && splits(before[x], eraser, after_next)
                ==> !after.contains_key(x)
            &&& !after.contains_key(x) ==> exists|base: int|
                next <= base && base + fragments(before[x], eraser).len() <= after_next
                    && #[trigger] placed_at(before[x], after, eraser, base)
        } by {
            if x == id {
                assert(!after.contains_key(x));
            } else {
                assert(after.contains_key(x) == mid.contains_key(x));
                if !mid.contains_key(x) {
                    let base = choose|base: int|
                        next <= base && base + fragments(before[x], eraser).len() <= mid_next
                            && #[trigger] placed_at(before[x], mid, eraser, base);
                    assert(placed_at(before[x], after, eraser, base)) by {
                        assert forall|j: int|
                            0 <= j < fragments(before[x], eraser).len() implies {
                            &&& 0 <= base + j <= u64::MAX
                            &&& after.contains_key((base + j) as u64)
                            &&& after[(base + j) as u64] == #[trigger] fragments(
                                before[x],
                                eraser,
                            )[j]
                        } by {
                            let h = (base + j) as u64;
                            assert(mid.contains_key(h));
                            assert(h != id);
                        }
                    }
                }
            }
        }
    }
    assert(new_handles_minted(before, next, after, after_next)) by {
        assert forall|k: u64| #[trigger]
            after.contains_key(k) && !before.contains_key(k) implies next <= k < after_next by {
            if !(mid_next <= k < mid_next + frags.len()) {
                assert(mid.contains_key(k));
            }
        }
    }
    assert(minted_name_fragments(before, next, after, after_next, eraser)) by {
        assert forall|k: u64| next <= k < after_next implies #[trigger] after.contains_key(k)
            && exists|src: u64, j: int| #[trigger]
            fragment_of(before, after, eraser, after[k], src, j) by {
            if k < mid_next {
                assert(mid.contains_key(k));
                let (src, j) = choose|src: u64, j: int| #[trigger]
                    fragment_of(before, mid, eraser, mid[k], src, j);
                assert(k != id);
                assert(after[k] == mid[k]);
                assert(fragment_of(before, after, eraser, after[k], src, j));
            } else {
                assert(after[k] == frags[k - mid_next]);
                assert(fragment_of(before, after, eraser, after[k], id, k - mid_next));
            }
        }
    }
}

/// Visiting each of some strokes once, in any order, leaves
/// `erase_progress` for the strokes visited.
pub proof fn lemma_erase_in_order(
    before: Map<u64, Seq<Point>>,
    next: int,
    order: Seq<u64>,
    eraser: Point,
)
    requires
        valid_strokes(before, next),
        next <= u64::MAX,
        order.no_duplicates(),
        forall|i: int| 0 <= i < order.len() ==> before.contains_key(#[trigger] order[i]),
    ensures
        erase_progress(
            before,
            next,
            order.to_set(),
            erase_in_order(before, next, order, eraser).0,
            erase_in_order(before, next, order, eraser).1,
            eraser,
        ),
    decreases order.len(),
{
    if order.len() == 0 {
        assert(order.to_set() =~= Set::<u64>::empty());
        assert(old_strokes_settled(before, next, order.to_set(), before, next, eraser));
        assert(minted_name_fragments(before, next, before, next, eraser));
    } else {
        let prev = order.drop_last();
        let id = order.last();
        lemma_erase_in_order(before, next, prev, eraser);
        let mid = erase_in_order(before, next, prev, eraser);
        assert(!prev.contains(id)) by {
            if prev.contains(id) {
                let i = choose|i: int| 0 <= i < prev.len() && prev[i] == id;
                assert(order[i] == id);
            }
        }
        assert(order.to_set() =~= prev.to_set().insert(id)) by {
            assert forall|x: u64| order.contains(x) <==> prev.contains(x) || x == id by {
                if prev.contains(x) {
                    let i = choose|i: int| 0 <= i < prev.len() && prev[i] == x;
                    assert(order[i] == x);
                }
                if order.contains(x) && x != id {
                    let i = choose|i: int| 0 <= i < order.len() && order[i] == x;
                    assert(prev[i] == x);
                }
                if x == id {
                    assert(order[order.len() - 1] == x);
                }
            }
        }
        assert(before.contains_key(order[order.len() - 1]));
        assert(mid.0.contains_key(id) && mid.0[id] == before[id]);
        if splits(before[id], eraser, mid.1) {
            lemma_visit_splits(before, next, prev.to_set(), mid.0, mid.1, id, eraser);
        } else {
            lemma_visit_spares(before, next, prev.to_set(), mid.0, mid.1, id, eraser);
        }
    }
}

/// Once every stroke has been visited, what holds is `erase_outcome`.
pub proof fn lemma_erase_complete(
    before: Map<u64, Seq<Point>>,
    next: int,
    visited: Set<u64>,
    after: Map<u64, Seq<Point>>,
    after_next: int,
    eraser: Point,
)
    requires
        erase_progress(before, next, visited, after, after_next, eraser),
        forall|id: u64| before.contains_key(id) ==> visited.contains(id),
    ensures
        erase_outcome(before, next, after, after_next, eraser),
{
    assert forall|id: u64| #[trigger] before.contains_key(id) implies {
        &&& after.contains_key(id) ==> after[id] == before[id]
        &&& !(before[id].len() > 1 && is_cut(before[id], eraser)) ==> after.contains_key(id)
        &&& splits(before[id], eraser, after_next) ==> !after.contains_key(id)
        &&& !after.contains_key(id) ==> exists|base: int|
            next <= base && base + fragments(before[id], eraser).len() <= after_next
                && #[trigger] placed_at(before[id], after, eraser, base)
    } by {
        assert(visited.contains(id));
    }
}

/// A stroke of a single point outlives every eraser pass, wherever the
/// eraser is: it is still there afterwards, under its handle, unchanged.
pub proof fn single_point_stroke_survives(
    before: Map<u64, Seq<Point>>,
    next: int,
    after: Map<u64, Seq<Point>>,
    after_next: int,
    eraser: Point,
    id: u64,
)
    requires
        erase_outcome(before, next, after, after_next, eraser),
        before.contains_key(id),
        before[id].len() == 1,
    ensures
        after.contains_key(id),
        after[id] == before[id],
{
}

/// A stroke with no point inside the erase radius outlives the pass
/// unchanged, under its handle.
pub proof fn uncut_stroke_survives(
    before: Map<u64, Seq<Point>>,
    next: int,
    after: Map<u64, Seq<Point>>,
    after_next: int,
    eraser: Point,
    id: u64,
)
    requires
        erase_outcome(before, next, after, after_next, eraser),
        before.contains_key(id),
        !is_cut(before[id], eraser),
    ensures
        after.contains_key(id),
        after[id] == before[id],
{
}

/// Erasing a stroke of N points at an interior point `k` alone, with more
/// than one point on either side, removes the stroke for good and leaves
/// exactly two fragments, of `k` and of `N - 1 - k` points: the points before
/// `k` and the points after it, under two consecutive fresh handles.
pub proof fn interior_cut_leaves_two_strokes(
    before: Map<u64, Seq<Point>>,
    next: int,
    after: Map<u64, Seq<Point>>,
    after_next: int,
    eraser: Point,
    id: u64,
    k: int,
)
    requires
        valid_strokes(before, next),
        erase_outcome(before, next, after, after_next, eraser),
        before.contains_key(id),
        cut_only_at(before[id], eraser, k),
        k > 1,
        before[id].len() - 1 - k > 1,
        after_next + before[id].len() <= u64::MAX,
    ensures
        !after.contains_key(id),
        fragments(before[id], eraser) == seq![
            before[id].subrange(0, k),
            before[id].subrange(k + 1, before[id].len() as int),
        ],
        before[id].subrange(0, k).len() == k,
        before[id].subrange(k + 1, before[id].len() as int).len() == before[id].len() - 1 - k,
        exists|base: int|
            {
                &&& id < next <= base
                &&& base + 2 <= after_next
                &&& #[trigger] after.contains_key(base as u64)
                &&& after[base as u64] == before[id].subrange(0, k)
                &&& after.contains_key((base + 1) as u64)
                &&& after[(base + 1) as u64] == before[id].subrange(
                    k + 1,
                    before[id].len() as int,
                )
            },
{
    let points = before[id];
    let head = points.subrange(0, k);
    let tail = points.subrange(k + 1, points.len() as int);
    lemma_single_cut(points, eraser, k);
    let frags = fragments(points, eraser);
    assert(frags =~= seq![head, tail]);
    assert(splits(points, eraser, after_next));
    let base = choose|base: int|
        next <= base && base + frags.len() <= after_next && #[trigger] placed_at(
            points,
            after,
            eraser,
            base,
        );
    assert(frags[0] == head);
    assert(frags[1] == tail);
    assert(after.contains_key(base as u64));
}

/// Erasing a stroke of N points at a point `k` alone, so near one end that
/// the run on that side has one point or none while the other run has more,
/// removes the stroke for good and leaves exactly one fragment: the longer
/// run, under a fresh handle.
pub proof fn boundary_cut_leaves_one_stroke(
    before: Map<u64, Seq<Point>>,
    next: int,
    after: Map<u64, Seq<Point>>,
    after_next: int,
    eraser: Point,
    id: u64,
    k: int,
)
    requires
        valid_strokes(before, next),
        erase_outcome(before, next, after, after_next, eraser),
        before.contains_key(id),
        cut_only_at(before[id], eraser, k),
        (k <= 1 && before[id].len() - 1 - k > 1) || (k > 1 && before[id].len() - 1 - k <= 1),
        after_next + before[id].len() <= u64::MAX,
    ensures
        !after.contains_key(id),
        fragments(before[id], eraser) == seq![
            if k <= 1 {
                before[id].subrange(k + 1, before[id].len() as int)
            } else {
                before[id].subrange(0, k)
            },
        ],
        exists|base: int|
            {
                &&& id < next <= base < after_next
                &&& #[trigger] after.contains_key(base as u64)
                &&& after[base as u64] == if k <= 1 {
                    before[id].subrange(k + 1, before[id].len() as int)
                } else {
                    before[id].subrange(0, k)
                }
            },
{
    let points = before[id];
    let head = points.subrange(0, k);
    let tail = points.subrange(k + 1, points.len() as int);
    lemma_single_cut(points, eraser, k);
    let frags = fragments(points, eraser);
    if k <= 1 {
        assert(frags =~= seq![tail]);
    } else {
        assert(frags =~= seq![head]);
    }
    assert(splits(points, eraser, after_next));
    let base = choose|base: int|
        next <= base && base + frags.len() <= after_next && #[trigger] placed_at(
            points,
            after,
            eraser,
            base,
        );
    assert(frags[0] == if k <= 1 {
        tail
    } else {
        head
    });
    assert(after.contains_key(base as u64));
}

/// Whether `id` is the one stroke that the eraser splits: it is live and
/// splits, and every other stroke has a single point or no cut point.
pub open spec fn lone_split(
    strokes: Map<u64, Seq<Point>>,
    next: int,
    eraser: Point,
    id: u64,
) -> bool {
    &&& strokes.contains_key(id)
    &&& splits(strokes[id], eraser, next)
    &&& forall|other: u64|
        other != id && #[trigger] strokes.contains_key(other) ==> !(strokes[other].len() > 1
            && is_cut(strokes[other], eraser))
}

/// Where a pass splits one stroke only, the order of the visits does not
/// matter: whatever the order, that stroke is gone and its fragments stand
/// under the handles from `next` on, one handle each; nothing else changes.
pub proof fn lone_split_is_exact(
    strokes: Map<u64, Seq<Point>>,
    next: int,
    order: Seq<u64>,
    eraser: Point,
    id: u64,
)
    requires
        valid_strokes(strokes, next),
        lone_split(strokes, next, eraser, id),
        order.no_duplicates(),
        forall|i: int| 0 <= i < order.len() ==> strokes.contains_key(#[trigger] order[i]),
    ensures
        erase_in_order(strokes, next, order, eraser) == if order.contains(id) {
            (
                with_fragments(strokes.remove(id), next, fragments(strokes[id], eraser)),
                next + fragments(strokes[id], eraser).len(),
            )
        } else {
            (strokes, next)
        },
    decreases order.len(),
{
    if order.len() > 0 {
        let prev = order.drop_last();
        let last = order.last();
        lone_split_is_exact(strokes, next, prev, eraser, id);
        assert(strokes.contains_key(order[order.len() - 1]));
        assert forall|x: u64| order.contains(x) <==> prev.contains(x) || x == last by {
            if prev.contains(x) {
                let i = choose|i: int| 0 <= i < prev.len() && prev[i] == x;
                assert(order[i] == x);
            }
            if order.contains(x) && x != last {
                let i = choose|i: int| 0 <= i < order.len() && order[i] == x;
                assert(prev[i] == x);
            }
            if x == last {
                assert(order[order.len() - 1] == x);
            }
        }
        assert(!prev.contains(last)) by {
            if prev.contains(last) {
                let i = choose|i: int| 0 <= i < prev.len() && prev[i] == last;
                assert(order[i] == last);
            }
        }
        let mid = erase_in_order(strokes, next, prev, eraser);
        if last != id {
            lemma_fragments_valid(strokes[id], eraser);
            assert(mid.0.contains_key(last) && mid.0[last] == strokes[last]);
            assert(!splits(mid.0[last], eraser, mid.1));
        }
    } else {
        assert(!order.contains(id));
    }
}

} // verus!
