//! Polyline rules of the stroke editor: the spacing every stroke keeps, and how
//! an eraser pass cuts a stroke into fragments.

use vstd::prelude::*;
use crate::geometry::Point;

verus! {

/// Minimum spacing between consecutive points of a stroke (5.8 px).
pub const PLAYER_DRAW_VERTICES_DISTANCE_THRESHOLD: u32 = 5_800;

/// Radius around the eraser within which a stroke point is cut (20 px).
pub const PLAYER_ERASE_DISTANCE_THRESHOLD: u32 = 20_000;

/// Width of a drawn stroke (10 px); its collision discs have half this as
/// their radius.
pub const PLAYER_DRAW_LINE_WIDTH: u32 = 10_000;

/// Every point of the polyline is at least the spacing threshold away from
/// the point before it.
pub open spec fn well_spaced(points: Seq<Point>) -> bool {
    forall|i: int|
        0 < i < points.len() ==> !(#[trigger] points[i]).within(
            points[i - 1],
            PLAYER_DRAW_VERTICES_DISTANCE_THRESHOLD,
        )
}

/// A polyline the editor may hold: at least one point, consecutive points
/// well spaced.
pub open spec fn valid_stroke(points: Seq<Point>) -> bool {
    points.len() >= 1 && well_spaced(points)
}

/// Whether a stroke takes `p` as its next point: it has a last point, and
/// `p` is at least the spacing threshold away from it.
pub open spec fn accepts(points: Seq<Point>, p: Point) -> bool {
    points.len() > 0 && !p.within(points.last(), PLAYER_DRAW_VERTICES_DISTANCE_THRESHOLD)
}

/// A stroke after `p` has been offered to it: appended if accepted, dropped
/// otherwise.
pub open spec fn offer(points: Seq<Point>, p: Point) -> Seq<Point> {
    if accepts(points, p) {
        points.push(p)
    } else {
        points
    }
}

/// A stroke after the first `n` of the `offered` points have been offered to
/// it, one after the other.
pub open spec fn offer_all(points: Seq<Point>, offered: Seq<Point>, n: int) -> Seq<Point>
    decreases n,
{
    if n <= 0 {
        points
    } else {
        offer(offer_all(points, offered, n - 1), offered[n - 1])
    }
}

/// Offering a point to a valid stroke leaves a valid stroke.
pub proof fn lemma_offer_valid(points: Seq<Point>, p: Point)
    requires
        valid_stroke(points),
    ensures
        valid_stroke(offer(points, p)),
{
    if accepts(points, p) {
        let grown = points.push(p);
        assert forall|i: int| 0 < i < grown.len() implies !(#[trigger] grown[i]).within(
            grown[i - 1],
            PLAYER_DRAW_VERTICES_DISTANCE_THRESHOLD,
        ) by {
            if i < points.len() {
                assert(grown[i] == points[i]);
                assert(grown[i - 1] == points[i - 1]);
            }
        }
    }
}

/// However many points are offered to a stroke, and whichever, every point it
/// holds afterwards is at least the spacing threshold away from the one
/// before it.
pub proof fn thinning_keeps_spacing(points: Seq<Point>, offered: Seq<Point>, n: int)
    requires
        valid_stroke(points),
        0 <= n <= offered.len(),
    ensures
        valid_stroke(offer_all(points, offered, n)),
        forall|i: int|
            0 < i < offer_all(points, offered, n).len() ==> (#[trigger] offer_all(
                points,
                offered,
                n,
            )[i]).dist_sq(offer_all(points, offered, n)[i - 1])
                >= PLAYER_DRAW_VERTICES_DISTANCE_THRESHOLD
                * PLAYER_DRAW_VERTICES_DISTANCE_THRESHOLD,
    decreases n,
{
    if n > 0 {
        thinning_keeps_spacing(points, offered, n - 1);
        lemma_offer_valid(offer_all(points, offered, n - 1), offered[n - 1]);
    }
}

/// Whether the eraser at `eraser` cuts the point `p`.
pub open spec fn cut_by(p: Point, eraser: Point) -> bool {
    p.within(eraser, PLAYER_ERASE_DISTANCE_THRESHOLD)
}

/// Whether the eraser cuts any point of the polyline.
pub open spec fn is_cut(points: Seq<Point>, eraser: Point) -> bool {
    exists|i: int| 0 <= i < points.len() && cut_by(#[trigger] points[i], eraser)
}

/// Index of the first cut point, or the length when none is cut.
pub open spec fn first_cut(points: Seq<Point>, eraser: Point) -> int
    decreases points.len(),
{
    if points.len() == 0 {
        0
    } else if cut_by(points[0], eraser) {
        0
    } else {
        1 + first_cut(points.skip(1), eraser)
    }
}

/// A run kept as a fragment only if it has more than one point.
pub open spec fn kept_run(run: Seq<Point>) -> Seq<Seq<Point>> {
    if run.len() > 1 {
        seq![run]
    } else {
        Seq::empty()
    }
}

/// The fragments an eraser pass leaves of a polyline: its maximal runs of
/// consecutive uncut points, in order, without the runs of one point or none.
pub open spec fn fragments(points: Seq<Point>, eraser: Point) -> Seq<Seq<Point>>
    decreases points.len(),
{
    let k = first_cut(points, eraser);
    if points.len() == 0 {
        Seq::empty()
    } else if 0 <= k < points.len() {
        kept_run(points.subrange(0, k)) + fragments(
            points.subrange(k + 1, points.len() as int),
            eraser,
        )
    } else {
        kept_run(points)
    }
}

/// The views of a vector of polylines.
pub open spec fn polylines_view(lines: Seq<Vec<Point>>) -> Seq<Seq<Point>> {
    Seq::new(lines.len(), |i: int| lines[i]@)
}

/// `first_cut` stays within the polyline, nothing before it is cut, and it
/// is cut unless it is the length.
pub proof fn lemma_first_cut(points: Seq<Point>, eraser: Point)
    ensures
        0 <= first_cut(points, eraser) <= points.len(),
        forall|j: int| 0 <= j < first_cut(points, eraser) ==> !cut_by(#[trigger] points[j], eraser),
        first_cut(points, eraser) < points.len() ==> cut_by(
            points[first_cut(points, eraser)],
            eraser,
        ),
    decreases points.len(),
{
    if points.len() > 0 && !cut_by(points[0], eraser) {
        let rest = points.skip(1);
        lemma_first_cut(rest, eraser);
        assert forall|j: int| 0 <= j < first_cut(points, eraser) implies !cut_by(
            #[trigger] points[j],
            eraser,
        ) by {
            if j > 0 {
                assert(points[j] == rest[j - 1]);
            }
        }
        if first_cut(points, eraser) < points.len() {
            assert(points[first_cut(points, eraser)] == rest[first_cut(rest, eraser)]);
        }
    }
}

/// An index with nothing cut before it that is itself cut, or is the length,
/// is the first cut.
pub proof fn lemma_first_cut_is(points: Seq<Point>, eraser: Point, k: int)
    requires
        0 <= k <= points.len(),
        forall|j: int| 0 <= j < k ==> !cut_by(#[trigger] points[j], eraser),
        k < points.len() ==> cut_by(points[k], eraser),
    ensures
        first_cut(points, eraser) == k,
{
    lemma_first_cut(points, eraser);
    let f = first_cut(points, eraser);
    if f < k {
        assert(!cut_by(points[f], eraser));
    } else if k < f {
        assert(!cut_by(points[k], eraser));
    }
}

/// A polyline is cut exactly when its first cut lies inside it.
pub proof fn lemma_is_cut_first_cut(points: Seq<Point>, eraser: Point)
    ensures
        is_cut(points, eraser) <==> first_cut(points, eraser) < points.len(),
{
    lemma_first_cut(points, eraser);
    let f = first_cut(points, eraser);
    if f < points.len() {
        assert(cut_by(points[f], eraser));
    } else if is_cut(points, eraser) {
        let i = choose|i: int| 0 <= i < points.len() && cut_by(#[trigger] points[i], eraser);
        assert(!cut_by(points[i], eraser));
    }
}

/// A contiguous piece of a well-spaced polyline is well spaced.
pub proof fn lemma_subrange_well_spaced(points: Seq<Point>, from: int, to: int)
    requires
        well_spaced(points),
        0 <= from <= to <= points.len(),
    ensures
        well_spaced(points.subrange(from, to)),
{
    let piece = points.subrange(from, to);
    assert forall|i: int| 0 < i < piece.len() implies !(#[trigger] piece[i]).within(
        piece[i - 1],
        PLAYER_DRAW_VERTICES_DISTANCE_THRESHOLD,
    ) by {
        assert(piece[i] == points[from + i]);
        assert(piece[i - 1] == points[from + i - 1]);
    }
}

/// Every fragment of a valid stroke is itself a valid stroke of at least two
/// points, none of them cut, and there are at most half as many fragments as
/// points.
pub proof fn lemma_fragments_valid(points: Seq<Point>, eraser: Point)
    requires
        well_spaced(points),
    ensures
        2 * fragments(points, eraser).len() <= points.len(),
        forall|j: int|
            0 <= j < fragments(points, eraser).len() ==> {
                let f = #[trigger] fragments(points, eraser)[j];
                &&& f.len() > 1
                &&& valid_stroke(f)
                &&& !is_cut(f, eraser)
            },
    decreases points.len(),
{
    lemma_first_cut(points, eraser);
    let k = first_cut(points, eraser);
    let len = points.len() as int;
    if len == 0 {
    } else if k < len {
        let head = points.subrange(0, k);
        let rest = points.subrange(k + 1, len);
        lemma_subrange_well_spaced(points, 0, k);
        lemma_subrange_well_spaced(points, k + 1, len);
        lemma_fragments_valid(rest, eraser);
        assert(!is_cut(head, eraser)) by {
            if is_cut(head, eraser) {
                let i = choose|i: int| 0 <= i < head.len() && cut_by(#[trigger] head[i], eraser);
                assert(head[i] == points[i]);
            }
        }
        let all = fragments(points, eraser);
        let tail = fragments(rest, eraser);
        assert(all == kept_run(head) + tail);
        assert forall|j: int| 0 <= j < all.len() implies {
            let f = #[trigger] all[j];
            &&& f.len() > 1
            &&& valid_stroke(f)
            &&& !is_cut(f, eraser)
        } by {
            if j < kept_run(head).len() {
                assert(all[j] == head);
            } else {
                assert(all[j] == tail[j - kept_run(head).len()]);
            }
        }
    } else {
        assert(!is_cut(points, eraser)) by {
            lemma_is_cut_first_cut(points, eraser);
        }
        let all = fragments(points, eraser);
        assert(all == kept_run(points));
    }
}

/// Whether the eraser cuts the point at index `k` of the polyline and no
/// other.
pub open spec fn cut_only_at(points: Seq<Point>, eraser: Point, k: int) -> bool {
    &&& 0 <= k < points.len()
    &&& forall|i: int| 0 <= i < points.len() ==> (cut_by(#[trigger] points[i], eraser) <==> i == k)
}

/// A polyline cut at one point only leaves the run before that point and the
/// run after it, each if it has more than one point.
pub proof fn lemma_single_cut(points: Seq<Point>, eraser: Point, k: int)
    requires
        cut_only_at(points, eraser, k),
    ensures
        is_cut(points, eraser),
        fragments(points, eraser) == kept_run(points.subrange(0, k)) + kept_run(
            points.subrange(k + 1, points.len() as int),
        ),
{
    assert(cut_by(points[k], eraser));
    lemma_first_cut_is(points, eraser, k);
    let rest = points.subrange(k + 1, points.len() as int);
    assert forall|j: int| 0 <= j < rest.len() implies !cut_by(#[trigger] rest[j], eraser) by {
        assert(rest[j] == points[k + 1 + j]);
    }
    lemma_first_cut_is(rest, eraser, rest.len() as int);
    assert(fragments(rest, eraser) == kept_run(rest));
}

/// Cuts a polyline at every point the eraser reaches: reports whether any
/// point was reached and returns the fragments that survive.
pub fn split_runs(points: &Vec<Point>, eraser: Point) -> (out: (bool, Vec<Vec<Point>>))
    ensures
        out.0 == is_cut(points@, eraser),
        polylines_view(out.1@) == fragments(points@, eraser),
{
    let mut pieces: Vec<Vec<Point>> = Vec::new();
    let mut run: Vec<Point> = Vec::new();
    let mut cut = false;
    let mut start: usize = 0;
    let mut i: usize = 0;
    assert(points@.subrange(0, points.len() as int) == points@);
    assert(polylines_view(pieces@) + fragments(points@, eraser) == fragments(points@, eraser));
    while i < points.len()
        invariant
            0 <= start <= i <= points.len(),
            run@ == points@.subrange(start as int, i as int),
            forall|j: int| start <= j < i ==> !cut_by(#[trigger] points@[j], eraser),
            cut == is_cut(points@.subrange(0, start as int), eraser),
            fragments(points@, eraser) == polylines_view(pieces@) + fragments(
                points@.subrange(start as int, points.len() as int),
                eraser,
            ),
        decreases points.len() - i,
    {
        let p = points[i];
        if p.closer_than(&eraser, PLAYER_ERASE_DISTANCE_THRESHOLD) {
            proof {
                let rest = points@.subrange(start as int, points.len() as int);
                assert forall|j: int| 0 <= j < i - start implies !cut_by(
                    #[trigger] rest[j],
                    eraser,
                ) by {
                    assert(rest[j] == points@[start + j]);
                }
                assert(rest[i - start] == points@[i as int]);
                lemma_first_cut_is(rest, eraser, i - start);
                assert(rest.subrange(0, i - start) == run@);
                assert(rest.subrange(i - start + 1, rest.len() as int) == points@.subrange(
                    i + 1,
                    points.len() as int,
                ));
                let before = points@.subrange(0, i + 1);
                assert(before[i as int] == points@[i as int]);
                assert(is_cut(before, eraser));
            }
            let ghost done = polylines_view(pieces@);
            if run.len() > 1 {
                pieces.push(run);
                assert(polylines_view(pieces@) == done + kept_run(
                    points@.subrange(start as int, i as int),
                ));
            }
            run = Vec::new();
            cut = true;
            start = i + 1;
            assert(run@ == points@.subrange(start as int, start as int));
        } else {
            run.push(p);
            assert(run@ == points@.subrange(start as int, i + 1));
        }
        i += 1;
    }
    proof {
        let rest = points@.subrange(start as int, points.len() as int);
        assert forall|j: int| 0 <= j < rest.len() implies !cut_by(#[trigger] rest[j], eraser) by {
            assert(rest[j] == points@[start + j]);
        }
        lemma_first_cut_is(rest, eraser, rest.len() as int);
        assert(fragments(rest, eraser) == kept_run(rest));
        let head = points@.subrange(0, start as int);
        if is_cut(points@, eraser) {
            let w = choose|w: int| 0 <= w < points@.len() && cut_by(#[trigger] points@[w], eraser);
            assert(w < start);
            assert(head[w] == points@[w]);
        }
        if is_cut(head, eraser) {
            let w = choose|w: int| 0 <= w < head.len() && cut_by(#[trigger] head[w], eraser);
            assert(head[w] == points@[w]);
        }
    }
    let ghost done = polylines_view(pieces@);
    if run.len() > 1 {
        pieces.push(run);
        assert(polylines_view(pieces@) == done + kept_run(
            points@.subrange(start as int, points.len() as int),
        ));
    }
    (cut, pieces)
}

} // verus!
