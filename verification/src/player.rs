//! The player's side of the game: the strokes drawn with the pointer, the
//! stroke being drawn, and the decisions taken on pointer and key input.

use vstd::prelude::*;
use crate::geometry::Point;
use crate::level::{GameLevels, LevelState};
use crate::erase::{
    erase_in_order, erase_one, erase_outcome, lemma_erase_complete, lemma_erase_in_order,
    splits, valid_strokes, with_fragments,
};
use crate::stroke::{
    accepts, lemma_fragments_valid, lemma_offer_valid, offer, polylines_view, split_runs,
    valid_stroke, PLAYER_DRAW_LINE_WIDTH, PLAYER_DRAW_VERTICES_DISTANCE_THRESHOLD,
};
use crate::table::{
    table_clear, table_get, table_get_mut, table_ids, table_insert, table_new, table_remove,
    table_strokes, StrokeTable,
};

verus! {

/// Radius of the player's ball (25 px).
pub const PLAYER_RADIUS: u32 = 25_000;

/// Gravity scale applied to the ball once it is released, in thousandths.
pub const PLAYER_GRAVITY_SCALE: i32 = 9_800;

/// Vertical velocity the boost key gives the ball, in thousandths of a pixel
/// per second (a tenth of a pixel, downwards).
pub const PLAYER_BOOST_VELOCITY: i32 = -100;

/// Guard radius around the ball inside which the pointer is ignored (23 px).
pub const PLAYER_DRAW_DISTANCE_TO_BALL_THRESHOLD: u32 = 23_000;

/// What the ball is doing.
#[derive(Clone, Copy, Debug, PartialEq, Eq, Structural)]
pub enum PlayerStatus {
    Still,
    /// Rolling, with its speed in thousandths of a pixel per second.
    Moving(i32),
    Falling,
}

impl Default for PlayerStatus {
    fn default() -> (status: PlayerStatus)
        ensures
            status == PlayerStatus::Still,
    {
        PlayerStatus::Still
    }
}

/// Handle of the stroke being drawn, if the draw button is held on one.
#[derive(Clone, Copy, Debug, PartialEq, Eq, Structural)]
pub struct PlayerCurrentLineEntity(pub Option<u64>);

impl Default for PlayerCurrentLineEntity {
    fn default() -> (current: PlayerCurrentLineEntity)
        ensures
            current.0 is None,
    {
        PlayerCurrentLineEntity(None)
    }
}

/// Every stroke on the playfield, by handle. Handles are minted in
/// increasing order and never handed out twice.
pub struct Lines {
    strokes: StrokeTable,
    next_id: u64,
}

impl View for Lines {
    type V = Map<u64, Seq<Point>>;

    /// The live strokes: handle to points in drawing order.
    closed spec fn view(&self) -> Map<u64, Seq<Point>> {
        table_strokes(self.strokes)
    }
}

impl Lines {
    /// The handle the next new stroke will get.
    pub closed spec fn next_id(&self) -> u64 {
        self.next_id
    }

    /// Every live handle has been minted, and every stroke is a valid one.
    pub open spec fn wf(&self) -> bool {
        forall|id: u64| #[trigger]
            self@.contains_key(id) ==> id < self.next_id() && valid_stroke(self@[id])
    }

    /// An empty playfield.
    pub fn new() -> (lines: Lines)
        ensures
            lines.wf(),
            lines@ == Map::<u64, Seq<Point>>::empty(),
            lines.next_id() == 0,
    {
        let lines = Lines { strokes: table_new(), next_id: 0 };
        assert(lines@ =~= Map::<u64, Seq<Point>>::empty());
        lines
    }

    pub fn next_handle(&self) -> (next: u64)
        ensures
            next == self.next_id(),
    {
        self.next_id
    }

    /// Whether `id` names a live stroke.
    pub fn contains(&self, id: u64) -> (live: bool)
        ensures
            live == self@.contains_key(id),
    {
        table_get(&self.strokes, id).is_some()
    }

    /// Removes every stroke. The handles that were minted stay used.
    pub fn clear(&mut self)
        ensures
            final(self)@ == Map::<u64, Seq<Point>>::empty(),
            final(self).next_id() == old(self).next_id(),
            final(self).wf(),
    {
        table_clear(&mut self.strokes);
        assert(self@ =~= Map::<u64, Seq<Point>>::empty());
    }

    /// A copy of the points of stroke `id`, if it is live.
    pub fn points(&self, id: u64) -> (points: Option<Vec<Point>>)
        ensures
            points is Some == self@.contains_key(id),
            points is Some ==> points->0@ == self@[id],
    {
        match table_get(&self.strokes, id) {
            Some(stored) => Some(copy_points(stored)),
            None => None,
        }
    }
}

impl Default for Lines {
    fn default() -> (lines: Lines)
        ensures
            lines.wf(),
            lines@ == Map::<u64, Seq<Point>>::empty(),
            lines.next_id() == 0,
    {
        Lines::new()
    }
}

/// In every stroke on the playfield, whatever has been drawn and erased, each
/// point is at least the spacing threshold away from the point before it.
pub proof fn strokes_keep_their_spacing(lines: Lines, id: u64, i: int)
    requires
        lines.wf(),
        lines@.contains_key(id),
        0 < i < lines@[id].len(),
    ensures
        lines@[id][i].dist_sq(lines@[id][i - 1]) >= PLAYER_DRAW_VERTICES_DISTANCE_THRESHOLD
            * PLAYER_DRAW_VERTICES_DISTANCE_THRESHOLD,
{
    assert(valid_stroke(lines@[id]));
}

/// A fresh vector with the same points.
pub fn copy_points(points: &Vec<Point>) -> (copy: Vec<Point>)
    ensures
        copy@ == points@,
{
    let mut copy: Vec<Point> = Vec::new();
    let mut i: usize = 0;
    while i < points.len()
        invariant
            i <= points.len(),
            copy@ == points@.subrange(0, i as int),
        decreases points.len() - i,
    {
        copy.push(points[i]);
        assert(copy@ == points@.subrange(0, i + 1));
        i += 1;
    }
    assert(points@.subrange(0, points.len() as int) == points@);
    copy
}

/// Whether `begin_stroke` declines to start a stroke.
pub open spec fn begin_blocked(
    lines: Lines,
    current: PlayerCurrentLineEntity,
    point: Point,
    player: Point,
) -> bool {
    ||| point.within(player, PLAYER_DRAW_DISTANCE_TO_BALL_THRESHOLD)
    ||| current.0 is Some
    ||| lines.next_id() == u64::MAX
}

/// What `begin_stroke` does. Where it is blocked nothing changes; otherwise
/// a stroke holding just `point` appears under the next handle, which becomes
/// the current one.
pub open spec fn begin_effect(
    lines: Lines,
    current: PlayerCurrentLineEntity,
    point: Point,
    player: Point,
    after: Lines,
    after_current: PlayerCurrentLineEntity,
    started: Option<u64>,
) -> bool {
    if begin_blocked(lines, current, point, player) {
        &&& started is None
        &&& after@ == lines@
        &&& after.next_id() == lines.next_id()
        &&& after_current == current
    } else {
        &&& started == Some(lines.next_id())
        &&& after@ == lines@.insert(lines.next_id(), seq![point])
        &&& after.next_id() == lines.next_id() + 1
        &&& after_current.0 == Some(lines.next_id())
    }
}

/// Starts a stroke at `point` and makes it the current one.
///
/// Nothing happens when the point is inside the guard radius around the
/// player, when a stroke is already being drawn, or when no handle is left to
/// mint. Otherwise the new stroke gets the next handle, holds just `point`,
/// and its handle is returned.
pub fn begin_stroke(
    lines: &mut Lines,
    current: &mut PlayerCurrentLineEntity,
    point: Point,
    player: Point,
) -> (started: Option<u64>)
    requires
        old(lines).wf(),
    ensures
        final(lines).wf(),
        begin_effect(
            *old(lines),
            *old(current),
            point,
            player,
            *final(lines),
            *final(current),
            started,
        ),
{
    if point.closer_than(&player, PLAYER_DRAW_DISTANCE_TO_BALL_THRESHOLD) {
        return None;
    }
    if current.0.is_some() || lines.next_id == u64::MAX {
        return None;
    }
    let id = lines.next_id;
    let mut points: Vec<Point> = Vec::new();
    points.push(point);
    assert(points@ == seq![point]);
    table_insert(&mut lines.strokes, id, points);
    lines.next_id = id + 1;
    current.0 = Some(id);
    proof {
        assert(valid_stroke(seq![point]));
        assert forall|k: u64| #[trigger] lines@.contains_key(k) implies k < lines.next_id()
            && valid_stroke(lines@[k]) by {
            if k != id {
                assert(old(lines)@.contains_key(k));
            }
        }
    }
    Some(id)
}

/// The stroke that `extend_active_stroke` offers the point to: the current
/// one, if it is live.
pub open spec fn extend_target(
    strokes: Map<u64, Seq<Point>>,
    current: PlayerCurrentLineEntity,
) -> Option<u64> {
    match current.0 {
        Some(id) => if strokes.contains_key(id) {
            Some(id)
        } else {
            None
        },
        None => None,
    }
}

/// What `extend_active_stroke` does. A point inside the guard radius around
/// the player changes nothing. Any other point is offered to the target, if
/// there is one, and nothing else changes; a current handle without a stroke
/// is cleared.
pub open spec fn extend_effect(
    lines: Lines,
    current: PlayerCurrentLineEntity,
    point: Point,
    player: Point,
    after: Lines,
    after_current: PlayerCurrentLineEntity,
    appended: bool,
) -> bool {
    &&& after.next_id() == lines.next_id()
    &&& if point.within(player, PLAYER_DRAW_DISTANCE_TO_BALL_THRESHOLD) {
        &&& after@ == lines@
        &&& after_current == current
        &&& !appended
    } else {
        &&& after_current.0 == extend_target(lines@, current)
        &&& match extend_target(lines@, current) {
            Some(id) => {
                &&& after@ == lines@.insert(id, offer(lines@[id], point))
                &&& appended == accepts(lines@[id], point)
            },
            None => after@ == lines@ && !appended,
        }
    }
}

/// Offers `point` to the current stroke.
///
/// The point is appended only if it is at least the spacing threshold away
/// from the last point the stroke kept; closer points are dropped, so the
/// stroke is thinned as it is drawn. Nothing happens with no current stroke,
/// and nothing when the point is inside the guard radius around the player.
/// A current handle whose stroke is gone (erased while drawing) is cleared.
/// Returns whether the point was appended.
pub fn extend_active_stroke(
    lines: &mut Lines,
    current: &mut PlayerCurrentLineEntity,
    point: Point,
    player: Point,
) -> (appended: bool)
    requires
        old(lines).wf(),
    ensures
        final(lines).wf(),
        extend_effect(
            *old(lines),
            *old(current),
            point,
            player,
            *final(lines),
            *final(current),
            appended,
        ),
{
    if point.closer_than(&player, PLAYER_DRAW_DISTANCE_TO_BALL_THRESHOLD) {
        return false;
    }
    let id = match current.0 {
        Some(id) => id,
        None => {
            return false;
        },
    };
    let ghost before = lines@;
    proof {
        if before.contains_key(id) {
            lemma_offer_valid(before[id], point);
        }
    }
    match table_get_mut(&mut lines.strokes, id) {
        Some(points) => {
            let last = points[points.len() - 1];
            if point.closer_than(&last, PLAYER_DRAW_VERTICES_DISTANCE_THRESHOLD) {
                assert(lines@ =~= before.insert(id, before[id]));
                false
            } else {
                points.push(point);
                true
            }
        },
        None => {
            current.0 = None;
            false
        },
    }
}

/// Ends the current stroke, if there is one: the draw button was released.
pub fn end_stroke(current: &mut PlayerCurrentLineEntity)
    ensures
        final(current).0 is None,
{
    current.0 = None;
}

/// `order` names every stroke of `strokes` exactly once.
pub open spec fn visits_all(order: Seq<u64>, strokes: Map<u64, Seq<Point>>) -> bool {
    &&& order.no_duplicates()
    &&& forall|id: u64| order.contains(id) <==> strokes.contains_key(id)
}

/// What `erase_at` does: for some order of visiting every stroke once, the
/// result is exactly `erase_in_order`; whatever that order, `erase_outcome`
/// holds; and `removed` lists, once each, the strokes that are gone.
pub open spec fn erase_effect(lines: Lines, eraser: Point, after: Lines, removed: Seq<u64>) -> bool {
    &&& exists|order: Seq<u64>|
        visits_all(order, lines@) && (after@, after.next_id() as int) == #[trigger] erase_in_order(
            lines@,
            lines.next_id() as int,
            order,
            eraser,
        )
    &&& erase_outcome(lines@, lines.next_id() as int, after@, after.next_id() as int, eraser)
    &&& removed.no_duplicates()
    &&& forall|id: u64|
        removed.contains(id) <==> lines@.contains_key(id) && !after@.contains_key(id)
}

/// Puts the fragments of a split stroke into the table under the handles
/// from `lines.next_id` on.
fn insert_fragments(lines: &mut Lines, frags: Vec<Vec<Point>>)
    requires
        old(lines).next_id + frags.len() <= u64::MAX,
    ensures
        final(lines)@ == with_fragments(
            old(lines)@,
            old(lines).next_id as int,
            polylines_view(frags@),
        ),
        final(lines).next_id == old(lines).next_id + frags.len(),
{
    let ghost base = lines.next_id as int;
    let ghost start = lines@;
    let ghost all = polylines_view(frags@);
    let ghost count = frags.len() as int;
    assert(lines@ =~= with_fragments(start, base, all.take(0)));
    for frag in it: frags
        invariant
            it.seq().len() == count,
            all == polylines_view(it.seq()),
            base + count <= u64::MAX,
            lines.next_id == base + it.index(),
            lines@ == with_fragments(start, base, all.take(it.index() as int)),
    {
        let ghost j = it.index() as int;
        assert(frag@ == all[j]);
        let id = lines.next_id;
        table_insert(&mut lines.strokes, id, frag);
        lines.next_id = id + 1;
        assert(lines@ =~= with_fragments(start, base, all.take(j + 1))) by {
            assert(all.take(j + 1) == all.take(j).push(all[j]));
        }
    }
    assert(all.take(count) == all);
}

/// Erases at `eraser`: every stroke is visited once, and each visited stroke
/// that has more than one point and a point within the erase radius is
/// replaced by its surviving fragments.
///
/// The fragments of a stroke are its maximal runs of consecutive points
/// outside the radius, all judged on the stroke as it was; runs of a single
/// point are dropped. Each fragment becomes a new stroke with a fresh
/// handle, and the handle of the stroke that was cut is never used again. A
/// stroke of a single point is never touched. The order of the visits is
/// that of the hash map; it only decides which fresh handle each fragment
/// gets. Returns the handles of the strokes that were removed.
pub fn erase_at(lines: &mut Lines, eraser: Point) -> (removed: Vec<u64>)
    requires
        old(lines).wf(),
    ensures
        final(lines).wf(),
        erase_effect(*old(lines), eraser, *final(lines), removed@),
{
    let ids = table_ids(&lines.strokes);
    let ghost before = lines@;
    let ghost next = lines.next_id as int;
    let mut removed: Vec<u64> = Vec::new();
    let mut i: usize = 0;
    assert(ids@.take(0) =~= Seq::<u64>::empty());
    while i < ids.len()
        invariant
            i <= ids.len(),
            visits_all(ids@, before),
            valid_strokes(before, next),
            next <= u64::MAX,
            (lines@, lines.next_id as int) == erase_in_order(
                before,
                next,
                ids@.take(i as int),
                eraser,
            ),
            removed@.no_duplicates(),
            forall|id: u64|
                removed@.contains(id) <==> ids@.take(i as int).contains(id)
                    && !lines@.contains_key(id),
        decreases ids.len() - i,
    {
        let id = ids[i];
        let ghost done = ids@.take(i as int);
        let ghost mid = lines@;
        let ghost mid_next = lines.next_id as int;
        proof {
            assert(ids@.contains(id));
            assert(!done.contains(id)) by {
                if done.contains(id) {
                    let j = choose|j: int| 0 <= j < done.len() && done[j] == id;
                    assert(ids@[j] == id);
                }
            }
            assert forall|j: int| 0 <= j < done.len() implies before.contains_key(
                #[trigger] done[j],
            ) by {
                assert(ids@.contains(ids@[j]));
            }
            lemma_erase_in_order(before, next, done, eraser);
            assert(!done.to_set().contains(id));
            assert(mid.contains_key(id) && mid[id] == before[id]);
            assert(ids@.take(i + 1).drop_last() == done);
            assert(ids@.take(i + 1).last() == id);
            lemma_fragments_valid(before[id], eraser);
        }
        let mut split = false;
        let mut frags: Vec<Vec<Point>> = Vec::new();
        match table_get(&lines.strokes, id) {
            Some(points) => {
                let out = split_runs(points, eraser);
                if out.0 && points.len() > 1 && points.len() as u64 <= u64::MAX - lines.next_id {
                    split = true;
                    frags = out.1;
                }
            },
            None => {},
        }
        assert(split == splits(before[id], eraser, mid_next));
        let ghost listed = removed@;
        if split {
            table_remove(&mut lines.strokes, id);
            insert_fragments(lines, frags);
            removed.push(id);
            assert(removed@.last() == id);
        }
        proof {
            assert((lines@, lines.next_id as int) == erase_one((mid, mid_next), id, eraser));
            let grown = ids@.take(i + 1);
            assert forall|x: u64| grown.contains(x) <==> done.contains(x) || x == id by {
                if done.contains(x) {
                    let j = choose|j: int| 0 <= j < done.len() && done[j] == x;
                    assert(grown[j] == x);
                }
                if grown.contains(x) && x != id {
                    let j = choose|j: int| 0 <= j < grown.len() && grown[j] == x;
                    assert(done[j] == x);
                }
                if x == id {
                    assert(grown[i as int] == x);
                }
            }
            assert(!listed.contains(id));
            assert forall|x: u64|
                removed@.contains(x) <==> grown.contains(x) && !lines@.contains_key(x) by {
                if done.contains(x) {
                    let j = choose|j: int| 0 <= j < done.len() && done[j] == x;
                    assert(before.contains_key(ids@[j]));
                    assert(x < next);
                    assert(lines@.contains_key(x) == mid.contains_key(x));
                }
                if split {
                    assert(removed@ == listed.push(id));
                    if listed.contains(x) {
                        let j = choose|j: int| 0 <= j < listed.len() && listed[j] == x;
                        assert(removed@[j] == x);
                    }
                    if removed@.contains(x) && x != id {
                        let j = choose|j: int| 0 <= j < removed@.len() && removed@[j] == x;
                        assert(listed[j] == x);
                    }
                }
            }
        }
        i += 1;
    }
    proof {
        assert(ids@.take(ids.len() as int) == ids@);
        assert forall|j: int| 0 <= j < ids.len() implies before.contains_key(#[trigger] ids@[j]) by {
            assert(ids@.contains(ids@[j]));
        }
        lemma_erase_in_order(before, next, ids@, eraser);
        lemma_erase_complete(
            before,
            next,
            ids@.to_set(),
            lines@,
            lines.next_id as int,
            eraser,
        );
    }
    removed
}

/// What the pointer and the ball look like on one tick.
#[derive(Clone, Copy, Debug)]
pub struct DrawInput {
    /// Pointer position on the playfield, if the pointer is over the window.
    pub cursor: Option<Point>,
    /// Centre of the player's ball.
    pub player: Point,
    /// The draw button went down on this tick.
    pub draw_just_pressed: bool,
    /// The draw button is down.
    pub draw_pressed: bool,
    /// The draw button went up on this tick.
    pub draw_just_released: bool,
    /// The erase button is down.
    pub erase_pressed: bool,
}

/// What one tick of input asks of the editor.
#[derive(Clone, Copy, Debug, PartialEq, Eq, Structural)]
pub enum DrawChoice {
    Ignore,
    Begin(Point),
    Erase(Point),
    Extend(Point),
    Release,
}

/// What the editor did on one tick, for whoever keeps the drawn shapes in
/// step with the strokes.
#[derive(Clone, Debug, PartialEq, Eq)]
pub enum DrawAction {
    /// Nothing changed.
    Idle,
    /// A stroke was started under this handle.
    Began(u64),
    /// A point was appended to the stroke with this handle.
    Extended(u64),
    /// Strokes were cut: `removed` are gone, and the handles from
    /// `minted_from` up to `minted_to` name their fragments.
    Erased { removed: Vec<u64>, minted_from: u64, minted_to: u64 },
    /// The current stroke was ended.
    Released,
}

impl DrawInput {
    /// The choice a tick of input makes. Without a pointer, or with the
    /// pointer inside the guard radius around the ball, the tick is ignored.
    /// Otherwise a fresh press of the draw button begins a stroke; failing
    /// that, a held erase button erases; failing that, a held draw button
    /// extends; failing that, a release of the draw button ends the stroke.
    pub open spec fn choice(self) -> DrawChoice {
        match self.cursor {
            None => DrawChoice::Ignore,
            Some(cursor) => if cursor.within(self.player, PLAYER_DRAW_DISTANCE_TO_BALL_THRESHOLD) {
                DrawChoice::Ignore
            } else if self.draw_just_pressed {
                DrawChoice::Begin(cursor)
            } else if self.erase_pressed {
                DrawChoice::Erase(cursor)
            } else if self.draw_pressed {
                DrawChoice::Extend(cursor)
            } else if self.draw_just_released {
                DrawChoice::Release
            } else {
                DrawChoice::Ignore
            },
        }
    }

    /// Computes `self.choice()`.
    pub fn decide(&self) -> (choice: DrawChoice)
        ensures
            choice == self.choice(),
    {
        match self.cursor {
            None => DrawChoice::Ignore,
            Some(cursor) => if cursor.closer_than(
                &self.player,
                PLAYER_DRAW_DISTANCE_TO_BALL_THRESHOLD,
            ) {
                DrawChoice::Ignore
            } else if self.draw_just_pressed {
                DrawChoice::Begin(cursor)
            } else if self.erase_pressed {
                DrawChoice::Erase(cursor)
            } else if self.draw_pressed {
                DrawChoice::Extend(cursor)
            } else if self.draw_just_released {
                DrawChoice::Release
            } else {
                DrawChoice::Ignore
            },
        }
    }
}

/// What `mouse_draw` does: the effect of the one editor operation that the
/// input chooses, with the action that reports it.
pub open spec fn draw_effect(
    input: DrawInput,
    lines: Lines,
    current: PlayerCurrentLineEntity,
    after: Lines,
    after_current: PlayerCurrentLineEntity,
    action: DrawAction,
) -> bool {
    match input.choice() {
        DrawChoice::Ignore => {
            &&& after@ == lines@
            &&& after.next_id() == lines.next_id()
            &&& after_current == current
            &&& action is Idle
        },
        DrawChoice::Begin(point) => {
            let started = if begin_blocked(lines, current, point, input.player) {
                None
            } else {
                Some(lines.next_id())
            };
            &&& begin_effect(lines, current, point, input.player, after, after_current, started)
            &&& match started {
                Some(id) => action == DrawAction::Began(id),
                None => action is Idle,
            }
        },
        DrawChoice::Erase(point) => {
            &&& after_current == current
            &&& action is Erased
            &&& erase_effect(lines, point, after, action->removed@)
            &&& action->minted_from == lines.next_id()
            &&& action->minted_to == after.next_id()
        },
        DrawChoice::Extend(point) => {
            let target = extend_target(lines@, current);
            let appended = target is Some && accepts(lines@[target->0], point);
            &&& extend_effect(lines, current, point, input.player, after, after_current, appended)
            &&& if appended {
                action == DrawAction::Extended(target->0)
            } else {
                action is Idle
            }
        },
        DrawChoice::Release => {
            &&& after@ == lines@
            &&& after.next_id() == lines.next_id()
            &&& after_current.0 is None
            &&& action is Released
        },
    }
}

/// One tick of the stroke editor: picks the operation the input asks for,
/// carries it out on the strokes and the current stroke, and reports it.
pub fn mouse_draw(
    input: &DrawInput,
    current_line_hid: &mut PlayerCurrentLineEntity,
    lines: &mut Lines,
) -> (action: DrawAction)
    requires
        old(lines).wf(),
    ensures
        final(lines).wf(),
        draw_effect(
            *input,
            *old(lines),
            *old(current_line_hid),
            *final(lines),
            *final(current_line_hid),
            action,
        ),
{
    match input.decide() {
        DrawChoice::Ignore => DrawAction::Idle,
        DrawChoice::Begin(point) => {
            match begin_stroke(lines, current_line_hid, point, input.player) {
                Some(id) => DrawAction::Began(id),
                None => DrawAction::Idle,
            }
        },
        DrawChoice::Erase(point) => {
            let minted_from = lines.next_id;
            let removed = erase_at(lines, point);
            DrawAction::Erased { removed, minted_from, minted_to: lines.next_id }
        },
        DrawChoice::Extend(point) => {
            let target = current_line_hid.0;
            if extend_active_stroke(lines, current_line_hid, point, input.player) {
                match target {
                    Some(id) => DrawAction::Extended(id),
                    None => DrawAction::Idle,
                }
            } else {
                DrawAction::Idle
            }
        },
        DrawChoice::Release => {
            end_stroke(current_line_hid);
            DrawAction::Released
        },
    }
}

/// Whether the drawing sound is due: it is played once for every stroke
/// that is started.
pub fn play_drawing_sound(action: &DrawAction) -> (due: bool)
    ensures
        due == (action is Began),
{
    match action {
        DrawAction::Began(_) => true,
        _ => false,
    }
}

/// A disc of a stroke's collision shape.
#[derive(Clone, Copy, Debug, PartialEq, Eq, Structural)]
pub struct Disc {
    pub center: Point,
    pub radius: u32,
}

/// The collision shape of a stroke: one disc per point, centred on it, with
/// half the stroke width as radius.
pub open spec fn stroke_discs(points: Seq<Point>) -> Seq<Disc> {
    Seq::new(
        points.len(),
        |i: int| Disc { center: points[i], radius: (PLAYER_DRAW_LINE_WIDTH / 2) as u32 },
    )
}

/// Builds the collision shape of a stroke from its points alone.
pub fn collision_discs(points: &Vec<Point>) -> (discs: Vec<Disc>)
    ensures
        discs@ == stroke_discs(points@),
{
    let mut discs: Vec<Disc> = Vec::new();
    let mut i: usize = 0;
    while i < points.len()
        invariant
            i <= points.len(),
            discs@ == stroke_discs(points@.subrange(0, i as int)),
        decreases points.len() - i,
    {
        discs.push(Disc { center: points[i], radius: PLAYER_DRAW_LINE_WIDTH / 2 });
        assert(discs@ == stroke_discs(points@.subrange(0, i + 1)));
        i += 1;
    }
    assert(points@.subrange(0, points.len() as int) == points@);
    discs
}

/// The round caps of a stroke: its first and its last point.
pub fn stroke_caps(points: &Vec<Point>) -> (caps: Option<(Point, Point)>)
    ensures
        caps == if points@.len() == 0 {
            None
        } else {
            Some((points@.first(), points@.last()))
        },
{
    if points.len() == 0 {
        None
    } else {
        Some((points[0], points[points.len() - 1]))
    }
}

/// Where the ball is spawned: the spawn point of the current level, if the
/// catalog has that level.
pub fn spawn_player(current_level: &LevelState, all_levels: &GameLevels) -> (spawn: Option<Point>)
    ensures
        spawn == if current_level.id < all_levels.0@.len() {
            Some(all_levels.0@[current_level.id as int].player)
        } else {
            None
        },
{
    if current_level.id < all_levels.0.len() {
        Some(all_levels.0[current_level.id].player)
    } else {
        None
    }
}

/// What a press of the boost key does to the ball.
#[derive(Clone, Copy, Debug, PartialEq, Eq, Structural)]
pub struct Boost {
    /// New gravity scale, in thousandths.
    pub gravity_scale: i32,
    /// New vertical velocity, in thousandths of a pixel per second.
    pub vertical_velocity: i32,
}

/// Releases the ball when the boost key goes down: gravity is switched on at
/// full scale and the ball gets a slight downward push.
pub fn set_gravity(boost_just_pressed: bool) -> (boost: Option<Boost>)
    ensures
        boost == if boost_just_pressed {
            Some(Boost { gravity_scale: PLAYER_GRAVITY_SCALE, vertical_velocity: PLAYER_BOOST_VELOCITY })
        } else {
            None
        },
{
    if boost_just_pressed {
        Some(Boost { gravity_scale: PLAYER_GRAVITY_SCALE, vertical_velocity: PLAYER_BOOST_VELOCITY })
    } else {
        None
    }
}

} // verus!
