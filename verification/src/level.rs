//! Levels, the catalog they are loaded into, and the staged progression
//! from one level to the next.

use vstd::prelude::*;
use vstd::string::StringSliceAdditionalSpecFns;
use crate::format::{first_bad_line, level_of, parse_bytes, readable, reads_as};
use crate::geometry::Point;
use crate::player::{Lines, PlayerCurrentLineEntity};
use crate::stroke::polylines_view;
use crate::text::lines;
use crate::timer::{elapsed_after, fires, tick_repeating};
use crate::{ColliderType, GameState};

verus! {

/// One level: where the player starts, the scene's polylines, the stars.
#[derive(Clone, Debug, PartialEq, Eq)]
pub struct Level {
    pub player: Point,
    pub polylines: Vec<Vec<Point>>,
    pub stars: Vec<Point>,
}

/// A level as plain sequences.
pub struct LevelView {
    pub player: Point,
    pub polylines: Seq<Seq<Point>>,
    pub stars: Seq<Point>,
}

impl View for Level {
    type V = LevelView;

    open spec fn view(&self) -> LevelView {
        LevelView {
            player: self.player,
            polylines: polylines_view(self.polylines@),
            stars: self.stars@,
        }
    }
}

/// A level text could not be read: the line with this index (counting from
/// zero) has a vertex that is not two decimal numbers.
#[derive(Clone, Copy, Debug, PartialEq, Eq, Structural)]
pub struct ParseError {
    pub line: usize,
}

/// A level read from text, with the indices of the lines that were skipped
/// because their tag is not one of the format's.
#[derive(Clone, Debug, PartialEq, Eq)]
pub struct Parsed {
    pub level: Level,
    pub dropped: Vec<usize>,
}

/// Why the catalog could not give the level asked for.
#[derive(Clone, Copy, Debug, PartialEq, Eq, Structural)]
pub enum LoadError {
    /// The text of the level with index `level` cannot be read at `line`.
    Unreadable { level: usize, line: usize },
    /// The catalog has no level with index `id`.
    NoSuchLevel { id: usize },
}

/// Every text before `level` is readable, and `line` is the first line of
/// text `level` that is not.
pub open spec fn first_unreadable(sources: Seq<&str>, level: int, line: int) -> bool {
    &&& 0 <= level < sources.len()
    &&& forall|j: int| 0 <= j < level ==> readable((#[trigger] sources[j]).spec_bytes())
    &&& first_bad_line(lines(sources[level].spec_bytes()), line)
}

/// `levels` are the levels that `sources` write, in order.
pub open spec fn loaded_from(sources: Seq<&str>, levels: Seq<Level>) -> bool {
    &&& levels.len() == sources.len()
    &&& forall|j: int|
        0 <= j < sources.len() ==> readable((#[trigger] sources[j]).spec_bytes()) && levels[j]@
            == level_of(sources[j].spec_bytes())
}

impl Level {
    /// Reads a level from its text and reports the lines it skipped.
    pub fn parse_report(text: &str) -> (result: Result<Parsed, ParseError>)
        ensures
            reads_as(text.spec_bytes(), result),
    {
        parse_bytes(text.as_bytes())
    }

    /// Reads a level from its text. Lines with an unknown tag are skipped; a
    /// vertex that is not two decimal numbers is an error, which names the
    /// first line that has one.
    pub fn parse(text: &str) -> (result: Result<Level, ParseError>)
        ensures
            match result {
                Ok(level) => readable(text.spec_bytes()) && level@ == level_of(text.spec_bytes()),
                Err(error) => first_bad_line(lines(text.spec_bytes()), error.line as int),
            },
    {
        match parse_bytes(text.as_bytes()) {
            Ok(parsed) => Ok(parsed.level),
            Err(error) => Err(error),
        }
    }

    /// Reads the whole catalog, one level per text, in the order given. The
    /// first text that cannot be read fails the load.
    pub fn load_all_levels(sources: &Vec<&str>) -> (result: Result<Vec<Level>, LoadError>)
        ensures
            match result {
                Ok(levels) => loaded_from(sources@, levels@),
                Err(LoadError::Unreadable { level, line }) => first_unreadable(
                    sources@,
                    level as int,
                    line as int,
                ),
                Err(LoadError::NoSuchLevel { .. }) => false,
            },
    {
        let mut levels: Vec<Level> = Vec::new();
        let mut i: usize = 0;
        while i < sources.len()
            invariant
                i <= sources.len(),
                levels.len() == i,
                forall|j: int|
                    0 <= j < i ==> readable((#[trigger] sources@[j]).spec_bytes()) && levels@[j]@
                        == level_of(sources@[j].spec_bytes()),
            decreases sources.len() - i,
        {
            match Level::parse(sources[i]) {
                Ok(level) => {
                    levels.push(level);
                },
                Err(error) => {
                    return Err(LoadError::Unreadable { level: i, line: error.line });
                },
            }
            i += 1;
        }
        Ok(levels)
    }
}

/// The catalog: the levels of the game, in the order they are played.
#[derive(Clone, Debug, PartialEq, Eq)]
pub struct GameLevels(pub Vec<Level>);

impl Default for GameLevels {
    fn default() -> (catalog: GameLevels)
        ensures
            catalog.0@.len() == 0,
    {
        GameLevels(Vec::new())
    }
}

/// Which level is being played and how many of its stars are left.
#[derive(Clone, Copy, Debug, PartialEq, Eq, Structural)]
pub struct LevelState {
    pub id: usize,
    pub stars: usize,
}

impl Default for LevelState {
    fn default() -> (state: LevelState)
        ensures
            state.id == 0,
            state.stars == 0,
    {
        LevelState { id: 0, stars: 0 }
    }
}

impl LevelState {
    /// Counts one collected star. Returns whether it was the last one, which
    /// is the signal to clear the level.
    pub fn on_star_overlap(&mut self) -> (last: bool)
        requires
            old(self).stars > 0,
        ensures
            final(self).stars == old(self).stars - 1,
            final(self).id == old(self).id,
            last == (final(self).stars == 0),
    {
        self.stars = self.stars - 1;
        self.stars == 0
    }

    /// The stars left, as a count of its own.
    pub fn stars_left(&self) -> (left: crate::StarsLeft)
        ensures
            left.0 == self.stars,
    {
        crate::StarsLeft(self.stars)
    }
}

/// What the loading stage does, from the catalog and the level state before
/// to those after.
///
/// - An empty catalog is read from `sources`; if a text cannot be read the
///   load fails there and nothing changes. A catalog that is there already
///   is left alone.
/// - Then the catalog must have the level that the state names, or the load
///   fails with the state unchanged.
/// - On success the level index is as before and the stars left are the
///   number of stars of that level.
pub open spec fn load_effect(
    catalog: Seq<Level>,
    state: LevelState,
    sources: Seq<&str>,
    after_catalog: Seq<Level>,
    after_state: LevelState,
    result: Result<(), LoadError>,
) -> bool {
    match result {
        Ok(()) => {
            &&& catalog.len() > 0 ==> after_catalog == catalog
            &&& catalog.len() == 0 ==> loaded_from(sources, after_catalog)
            &&& state.id < after_catalog.len()
            &&& after_state.id == state.id
            &&& after_state.stars == after_catalog[state.id as int]@.stars.len()
        },
        Err(LoadError::Unreadable { level, line }) => {
            &&& catalog.len() == 0
            &&& first_unreadable(sources, level as int, line as int)
            &&& after_catalog == catalog
            &&& after_state == state
        },
        Err(LoadError::NoSuchLevel { id }) => {
            &&& catalog.len() > 0 ==> after_catalog == catalog
            &&& catalog.len() == 0 ==> loaded_from(sources, after_catalog)
            &&& id == state.id
            &&& id >= after_catalog.len()
            &&& after_state == state
        },
    }
}

/// The loading stage: makes sure the catalog is there and enters the current
/// level.
///
/// An empty catalog is read from `sources`; a catalog that is there already
/// is left alone. Then the stars left are set to the number of stars of the
/// level that `current_level_state` names. Fails, changing nothing, when a
/// text cannot be read, and fails when the catalog has no such level.
pub fn load_all_levels(
    all_levels: &mut GameLevels,
    current_level_state: &mut LevelState,
    sources: &Vec<&str>,
) -> (result: Result<(), LoadError>)
    ensures
        load_effect(
            old(all_levels).0@,
            *old(current_level_state),
            sources@,
            final(all_levels).0@,
            *final(current_level_state),
            result,
        ),
{
    if all_levels.0.len() == 0 {
        match Level::load_all_levels(sources) {
            Ok(levels) => {
                all_levels.0 = levels;
            },
            Err(error) => {
                return Err(error);
            },
        }
    }
    let id = current_level_state.id;
    if id >= all_levels.0.len() {
        return Err(LoadError::NoSuchLevel { id });
    }
    current_level_state.stars = all_levels.0[id].stars.len();
    Ok(())
}

/// The level that follows level `id` in a catalog of `count` levels: the
/// next one, and the first one after the last.
pub open spec fn following_level(id: int, count: int) -> int {
    if id + 1 < count {
        id + 1
    } else {
        0
    }
}

/// In a catalog, the level after level `id` is level `(id + 1) mod count`.
pub proof fn following_level_wraps(id: int, count: int)
    requires
        0 <= id < count,
    ensures
        following_level(id, count) == (id + 1) % count,
{
    if id + 1 < count {
        assert((id + 1) % count == id + 1) by (nonlinear_arith)
            requires
                0 <= id + 1 < count,
        ;
    } else {
        assert((id + 1) % count == 0) by (nonlinear_arith)
            requires
                id + 1 == count,
                count > 0,
        ;
    }
}

/// Whether a piece is shown, hidden, or gone.
#[derive(Clone, Copy, Debug, PartialEq, Eq, Structural)]
pub enum PieceState {
    /// Spawned, but neither drawn nor collidable yet (or any more).
    Hidden,
    /// Drawn and collidable.
    Visible,
    /// A star that the player has collected.
    Collected,
}

/// One piece of the level on the playfield: a scene polyline or a star.
#[derive(Clone, Copy, Debug, PartialEq, Eq, Structural)]
pub struct ScenePiece {
    /// `Scene` or `Star`.
    pub kind: ColliderType,
    /// Which polyline, or which star, of the level this is.
    pub index: usize,
    pub state: PieceState,
}

impl ScenePiece {
    /// This piece in another state.
    pub open spec fn in_state(self, state: PieceState) -> ScenePiece {
        ScenePiece { state, ..self }
    }
}

/// The pieces of the first `n` polylines: one hidden scene piece for each
/// polyline that has a vertex, in order.
pub open spec fn line_pieces(polylines: Seq<Seq<Point>>, n: int) -> Seq<ScenePiece>
    decreases n,
{
    if n <= 0 {
        Seq::empty()
    } else if polylines[n - 1].len() >= 1 {
        line_pieces(polylines, n - 1).push(
            ScenePiece {
                kind: ColliderType::Scene,
                index: (n - 1) as usize,
                state: PieceState::Hidden,
            },
        )
    } else {
        line_pieces(polylines, n - 1)
    }
}

/// One hidden star piece for each of `n` stars, in order.
pub open spec fn star_pieces(n: int) -> Seq<ScenePiece> {
    Seq::new(
        n as nat,
        |i: int| ScenePiece { kind: ColliderType::Star, index: i as usize, state: PieceState::Hidden },
    )
}

/// The pieces a level puts on the playfield, all hidden: its polylines that
/// have a vertex, then its stars.
pub open spec fn scene_pieces(level: LevelView) -> Seq<ScenePiece> {
    line_pieces(level.polylines, level.polylines.len() as int) + star_pieces(
        level.stars.len() as int,
    )
}

/// The scene of the level that `state` names: its pieces, all hidden. A
/// level that the catalog does not have has no pieces.
pub open spec fn scene_of(catalog: Seq<Level>, state: LevelState) -> Seq<ScenePiece> {
    if state.id < catalog.len() {
        scene_pieces(catalog[state.id as int]@)
    } else {
        Seq::empty()
    }
}

/// Sets up the scene of the current level: every piece of it, hidden. A
/// level that the catalog does not have has no pieces.
pub fn setup_current_level(all_levels: &GameLevels, current_level_state: &LevelState) -> (scene: Vec<
    ScenePiece,
>)
    ensures
        scene@ == scene_of(all_levels.0@, *current_level_state),
{
    let mut scene: Vec<ScenePiece> = Vec::new();
    if current_level_state.id >= all_levels.0.len() {
        return scene;
    }
    let level = &all_levels.0[current_level_state.id];
    let mut i: usize = 0;
    while i < level.polylines.len()
        invariant
            i <= level.polylines.len(),
            scene@ == line_pieces(level@.polylines, i as int),
        decreases level.polylines.len() - i,
    {
        if level.polylines[i].len() >= 1 {
            scene.push(
                ScenePiece { kind: ColliderType::Scene, index: i, state: PieceState::Hidden },
            );
        }
        i += 1;
    }
    let ghost lines_done = scene@;
    let mut j: usize = 0;
    while j < level.stars.len()
        invariant
            j <= level.stars.len(),
            scene@ == lines_done + star_pieces(j as int),
        decreases level.stars.len() - j,
    {
        scene.push(ScenePiece { kind: ColliderType::Star, index: j, state: PieceState::Hidden });
        assert(scene@ == lines_done + star_pieces(j + 1));
        j += 1;
    }
    scene
}

/// Piece `i` is the first in the given state.
pub open spec fn first_in(scene: Seq<ScenePiece>, state: PieceState, i: int) -> bool {
    &&& 0 <= i < scene.len()
    &&& scene[i].state == state
    &&& forall|j: int| 0 <= j < i ==> (#[trigger] scene[j]).state != state
}

/// No piece is in the given state.
pub open spec fn none_in(scene: Seq<ScenePiece>, state: PieceState) -> bool {
    forall|i: int| 0 <= i < scene.len() ==> (#[trigger] scene[i]).state != state
}

/// The index of the first piece in the given state, or the length when
/// there is none.
pub open spec fn first_index(scene: Seq<ScenePiece>, state: PieceState) -> int {
    if none_in(scene, state) {
        scene.len() as int
    } else {
        choose|i: int| first_in(scene, state, i)
    }
}

/// The first piece in a state is the one at `first_index`.
pub proof fn lemma_first_index(scene: Seq<ScenePiece>, state: PieceState, i: int)
    requires
        first_in(scene, state, i),
    ensures
        first_index(scene, state) == i,
        !none_in(scene, state),
{
    assert(scene[i].state == state);
    let j = first_index(scene, state);
    assert(first_in(scene, state, j));
    if i < j {
        assert(scene[i].state != state);
    } else if j < i {
        assert(scene[j].state != state);
    }
}

/// Among pieces of which one at least is in the given state, there is a
/// first one in that state.
pub proof fn lemma_first_exists(scene: Seq<ScenePiece>, state: PieceState, w: int)
    requires
        0 <= w < scene.len(),
        scene[w].state == state,
    ensures
        first_in(scene, state, first_index(scene, state)),
        first_index(scene, state) <= w,
    decreases w,
{
    if exists|j: int| 0 <= j < w && (#[trigger] scene[j]).state == state {
        let j = choose|j: int| 0 <= j < w && (#[trigger] scene[j]).state == state;
        lemma_first_exists(scene, state, j);
    } else {
        assert(first_in(scene, state, w));
        lemma_first_index(scene, state, w);
    }
}

/// A flip changes one piece exactly when a piece is in state `from`, and
/// never more than one: the first piece in state `from` goes to state `to`,
/// every other piece stays as it is.
pub proof fn flip_changes_one_piece(scene: Seq<ScenePiece>, from: PieceState, to: PieceState)
    ensures
        after_flip(scene, from, to).len() == scene.len(),
        none_in(scene, from) ==> after_flip(scene, from, to) == scene,
        !none_in(scene, from) ==> {
            let i = first_index(scene, from);
            &&& first_in(scene, from, i)
            &&& after_flip(scene, from, to)[i] == scene[i].in_state(to)
            &&& forall|j: int|
                0 <= j < scene.len() && j != i ==> #[trigger] after_flip(scene, from, to)[j]
                    == scene[j]
        },
{
    if !none_in(scene, from) {
        let w = choose|w: int| 0 <= w < scene.len() && (#[trigger] scene[w]).state == from;
        lemma_first_exists(scene, from, w);
    }
}

/// The piece that a flip from state `from` changes: the first one in that
/// state, if there is any.
pub open spec fn flip_target(scene: Seq<ScenePiece>, from: PieceState) -> Option<usize> {
    if none_in(scene, from) {
        None
    } else {
        Some(first_index(scene, from) as usize)
    }
}

/// The scene after a flip: the first piece in state `from`, if there is any,
/// has gone to state `to`; nothing else has changed.
pub open spec fn after_flip(scene: Seq<ScenePiece>, from: PieceState, to: PieceState) -> Seq<
    ScenePiece,
> {
    if none_in(scene, from) {
        scene
    } else {
        scene.update(first_index(scene, from), scene[first_index(scene, from)].in_state(to))
    }
}

/// Moves the first piece in state `from` to state `to`, and returns its
/// index.
pub fn flip_first(scene: &mut Vec<ScenePiece>, from: PieceState, to: PieceState) -> (which: Option<
    usize,
>)
    ensures
        which == flip_target(old(scene)@, from),
        final(scene)@ == after_flip(old(scene)@, from, to),
{
    let mut i: usize = 0;
    while i < scene.len()
        invariant
            i <= scene.len(),
            scene@ == old(scene)@,
            forall|j: int| 0 <= j < i ==> (#[trigger] scene@[j]).state != from,
        decreases scene.len() - i,
    {
        let piece = scene[i];
        if piece.state == from {
            proof {
                lemma_first_index(old(scene)@, from, i as int);
            }
            scene.set(i, ScenePiece { kind: piece.kind, index: piece.index, state: to });
            return Some(i);
        }
        i += 1;
    }
    None
}

/// The countdown that paces reveal and concealment, in nanoseconds.
#[derive(Clone, Copy, Debug, PartialEq, Eq, Structural)]
pub struct SlowLoadTimer {
    pub period_nanos: u64,
    pub elapsed_nanos: u64,
}

impl SlowLoadTimer {
    /// A countdown that fires every `period_nanos`, starting now.
    pub fn new(period_nanos: u64) -> (timer: SlowLoadTimer)
        ensures
            timer.period_nanos == period_nanos,
            timer.elapsed_nanos == 0,
    {
        SlowLoadTimer { period_nanos, elapsed_nanos: 0 }
    }

    /// Lets `delta_nanos` pass. Returns whether the countdown fired.
    pub fn tick(&mut self, delta_nanos: u64) -> (fired: bool)
        ensures
            fired == fires(old(self).period_nanos, old(self).elapsed_nanos, delta_nanos),
            final(self).elapsed_nanos == elapsed_after(
                old(self).period_nanos,
                old(self).elapsed_nanos,
                delta_nanos,
            ),
            final(self).period_nanos == old(self).period_nanos,
    {
        let out = tick_repeating(self.period_nanos, self.elapsed_nanos, delta_nanos);
        self.elapsed_nanos = out.0;
        out.1
    }
}

/// The countdown after a tick of `delta_nanos`.
pub open spec fn ticked(timer: SlowLoadTimer, delta_nanos: u64) -> SlowLoadTimer {
    SlowLoadTimer {
        period_nanos: timer.period_nanos,
        elapsed_nanos: elapsed_after(timer.period_nanos, timer.elapsed_nanos, delta_nanos) as u64,
    }
}

/// The piece that a tick of a paced flip changes: the flip's target when the
/// countdown fires, none when it does not.
pub open spec fn paced_target(
    timer: SlowLoadTimer,
    delta_nanos: u64,
    scene: Seq<ScenePiece>,
    from: PieceState,
) -> Option<usize> {
    if fires(timer.period_nanos, timer.elapsed_nanos, delta_nanos) {
        flip_target(scene, from)
    } else {
        None
    }
}

/// The scene after a tick of a paced flip: flipped when the countdown fires,
/// unchanged when it does not. One tick changes one piece at most, and
/// changes one whenever the countdown fires and a piece is left to change.
pub open spec fn after_paced_flip(
    timer: SlowLoadTimer,
    delta_nanos: u64,
    scene: Seq<ScenePiece>,
    from: PieceState,
    to: PieceState,
) -> Seq<ScenePiece> {
    if fires(timer.period_nanos, timer.elapsed_nanos, delta_nanos) {
        after_flip(scene, from, to)
    } else {
        scene
    }
}

/// The revealing stage, one tick: when the countdown fires, the first hidden
/// piece becomes visible. Returns the index of that piece.
pub fn slow_load_level(
    slow_load_timer: &mut SlowLoadTimer,
    delta_nanos: u64,
    scene: &mut Vec<ScenePiece>,
) -> (shown: Option<usize>)
    ensures
        *final(slow_load_timer) == ticked(*old(slow_load_timer), delta_nanos),
        shown == paced_target(*old(slow_load_timer), delta_nanos, old(scene)@, PieceState::Hidden),
        final(scene)@ == after_paced_flip(
            *old(slow_load_timer),
            delta_nanos,
            old(scene)@,
            PieceState::Hidden,
            PieceState::Visible,
        ),
{
    if slow_load_timer.tick(delta_nanos) {
        flip_first(scene, PieceState::Hidden, PieceState::Visible)
    } else {
        None
    }
}

/// The concealing stage, one tick: when the countdown fires, the first
/// visible piece becomes hidden. Returns the index of that piece.
pub fn slow_clean_level(
    slow_load_timer: &mut SlowLoadTimer,
    delta_nanos: u64,
    scene: &mut Vec<ScenePiece>,
) -> (hidden: Option<usize>)
    ensures
        *final(slow_load_timer) == ticked(*old(slow_load_timer), delta_nanos),
        hidden == paced_target(
            *old(slow_load_timer),
            delta_nanos,
            old(scene)@,
            PieceState::Visible,
        ),
        final(scene)@ == after_paced_flip(
            *old(slow_load_timer),
            delta_nanos,
            old(scene)@,
            PieceState::Visible,
            PieceState::Hidden,
        ),
{
    if slow_load_timer.tick(delta_nanos) {
        flip_first(scene, PieceState::Visible, PieceState::Hidden)
    } else {
        None
    }
}

/// Whether any piece is in the given state.
pub fn any_in(scene: &Vec<ScenePiece>, state: PieceState) -> (any: bool)
    ensures
        any == !none_in(scene@, state),
{
    let mut i: usize = 0;
    while i < scene.len()
        invariant
            i <= scene.len(),
            forall|j: int| 0 <= j < i ==> (#[trigger] scene@[j]).state != state,
        decreases scene.len() - i,
    {
        if scene[i].state == state {
            return true;
        }
        i += 1;
    }
    false
}

/// The end of the revealing stage: once no piece is hidden, play begins.
pub fn switch_playing(scene: &Vec<ScenePiece>) -> (next_state: Option<GameState>)
    ensures
        next_state == if none_in(scene@, PieceState::Hidden) {
            Some(GameState::Playing)
        } else {
            None
        },
{
    if any_in(scene, PieceState::Hidden) {
        None
    } else {
        Some(GameState::Playing)
    }
}

/// Whether the concealing stage is over: no piece is visible, and there is a
/// catalog to go on in.
pub open spec fn level_done(catalog: Seq<Level>, scene: Seq<ScenePiece>) -> bool {
    none_in(scene, PieceState::Visible) && catalog.len() > 0
}

/// `after` is the level state on entering the level that follows the one
/// `state` names: that level's index, and all its stars left.
pub open spec fn enters_next_level(catalog: Seq<Level>, state: LevelState, after: LevelState) -> bool {
    &&& after.id == following_level(state.id as int, catalog.len() as int)
    &&& after.stars == catalog[after.id as int]@.stars.len()
}

/// The end of the concealing stage: once no piece is visible, the level that
/// follows becomes the current one, with all its stars left, and loading
/// begins. While a piece is visible, and in an empty catalog, nothing
/// happens.
pub fn switch_level(
    all_levels: &GameLevels,
    level_state: &mut LevelState,
    scene: &Vec<ScenePiece>,
) -> (next_state: Option<GameState>)
    ensures
        if level_done(all_levels.0@, scene@) {
            &&& next_state == Some(GameState::Loading)
            &&& enters_next_level(all_levels.0@, *old(level_state), *final(level_state))
        } else {
            &&& next_state is None
            &&& *final(level_state) == *old(level_state)
        },
        old(level_state).id < all_levels.0@.len() && next_state is Some ==> final(level_state).id
            == (old(level_state).id + 1) % (all_levels.0@.len() as int),
{
    if any_in(scene, PieceState::Visible) || all_levels.0.len() == 0 {
        return None;
    }
    let count = all_levels.0.len();
    proof {
        if level_state.id < count {
            following_level_wraps(level_state.id as int, count as int);
        }
    }
    let id = if level_state.id < count - 1 {
        level_state.id + 1
    } else {
        0
    };
    level_state.id = id;
    level_state.stars = all_levels.0[id].stars.len();
    Some(GameState::Loading)
}

/// Whether an overlap with piece `hit` collects a star: stars are left, and
/// the piece is a visible star.
pub open spec fn collectable(stars: usize, scene: Seq<ScenePiece>, hit: usize) -> bool {
    &&& stars > 0
    &&& hit < scene.len()
    &&& scene[hit as int].kind == ColliderType::Star
    &&& scene[hit as int].state == PieceState::Visible
}

/// The stars left and the scene after an overlap with piece `hit`: a
/// collectable star is collected and one star fewer is left; any other
/// overlap changes nothing.
pub open spec fn after_overlap(state: (usize, Seq<ScenePiece>), hit: usize) -> (
    usize,
    Seq<ScenePiece>,
) {
    if collectable(state.0, state.1, hit) {
        (
            (state.0 - 1) as usize,
            state.1.update(hit as int, state.1[hit as int].in_state(PieceState::Collected)),
        )
    } else {
        state
    }
}

/// The stars left and the scene after the first `n` of the overlaps.
pub open spec fn after_overlaps(
    stars: usize,
    scene: Seq<ScenePiece>,
    hits: Seq<usize>,
    n: int,
) -> (usize, Seq<ScenePiece>)
    decreases n,
{
    if n <= 0 {
        (stars, scene)
    } else {
        after_overlap(after_overlaps(stars, scene, hits, n - 1), hits[n - 1])
    }
}

/// How many of the pieces are stars in the given state.
pub open spec fn count_stars(scene: Seq<ScenePiece>, state: PieceState) -> nat
    decreases scene.len(),
{
    if scene.len() == 0 {
        0
    } else {
        count_stars(scene.drop_last(), state) + if scene.last().kind == ColliderType::Star
            && scene.last().state == state {
            1nat
        } else {
            0nat
        }
    }
}

/// Collecting the visible star at `hit` makes one visible star fewer and one
/// collected star more.
pub proof fn lemma_collect_counts(scene: Seq<ScenePiece>, hit: int)
    requires
        0 <= hit < scene.len(),
        scene[hit].kind == ColliderType::Star,
        scene[hit].state == PieceState::Visible,
    ensures
        count_stars(scene.update(hit, scene[hit].in_state(PieceState::Collected)), PieceState::Visible)
            == count_stars(scene, PieceState::Visible) - 1,
        count_stars(
            scene.update(hit, scene[hit].in_state(PieceState::Collected)),
            PieceState::Collected,
        ) == count_stars(scene, PieceState::Collected) + 1,
    decreases scene.len(),
{
    let after = scene.update(hit, scene[hit].in_state(PieceState::Collected));
    if hit == scene.len() - 1 {
        assert(after.drop_last() == scene.drop_last());
    } else {
        lemma_collect_counts(scene.drop_last(), hit);
        assert(after.drop_last() == scene.drop_last().update(
            hit,
            scene.drop_last()[hit].in_state(PieceState::Collected),
        ));
        assert(after.last() == scene.last());
    }
}

/// Star bookkeeping: over any overlaps, the stars left go down by exactly one
/// for each star that goes from visible to collected, and by nothing else;
/// they never go below zero.
pub proof fn overlaps_count_each_star_once(
    stars: usize,
    scene: Seq<ScenePiece>,
    hits: Seq<usize>,
    n: int,
)
    requires
        0 <= n <= hits.len(),
    ensures
        0 <= after_overlaps(stars, scene, hits, n).0 <= stars,
        after_overlaps(stars, scene, hits, n).1.len() == scene.len(),
        stars - after_overlaps(stars, scene, hits, n).0 == count_stars(
            after_overlaps(stars, scene, hits, n).1,
            PieceState::Collected,
        ) - count_stars(scene, PieceState::Collected),
        stars - after_overlaps(stars, scene, hits, n).0 == count_stars(scene, PieceState::Visible)
            - count_stars(after_overlaps(stars, scene, hits, n).1, PieceState::Visible),
    decreases n,
{
    if n > 0 {
        overlaps_count_each_star_once(stars, scene, hits, n - 1);
        let mid = after_overlaps(stars, scene, hits, n - 1);
        if collectable(mid.0, mid.1, hits[n - 1]) {
            lemma_collect_counts(mid.1, hits[n - 1] as int);
        }
    }
}

/// One overlap takes exactly one star off the stars left when it collects,
/// and none when it does not.
pub proof fn overlap_counts_down_by_one(stars: usize, scene: Seq<ScenePiece>, hit: usize)
    ensures
        collectable(stars, scene, hit) ==> after_overlap((stars, scene), hit).0 == stars - 1,
        !collectable(stars, scene, hit) ==> after_overlap((stars, scene), hit) == (stars, scene),
{
}

/// Whether the overlaps collect the last star.
pub open spec fn collects_last(stars: usize, scene: Seq<ScenePiece>, hits: Seq<usize>) -> bool {
    stars > 0 && after_overlaps(stars, scene, hits, hits.len() as int).0 == 0
}

/// The playing stage, one tick of star collection: `overlapping` are the
/// pieces the ball overlaps. Each visible star among them is collected once
/// and counted once; when that brings the stars left to zero, the level is
/// to be cleared.
pub fn collect_star(
    level_state: &mut LevelState,
    scene: &mut Vec<ScenePiece>,
    overlapping: &Vec<usize>,
) -> (next_state: Option<GameState>)
    ensures
        final(level_state).id == old(level_state).id,
        (final(level_state).stars, final(scene)@) == after_overlaps(
            old(level_state).stars,
            old(scene)@,
            overlapping@,
            overlapping@.len() as int,
        ),
        next_state == if collects_last(old(level_state).stars, old(scene)@, overlapping@) {
            Some(GameState::Clearing)
        } else {
            None
        },
{
    let mut cleared = false;
    let mut i: usize = 0;
    while i < overlapping.len()
        invariant
            i <= overlapping.len(),
            level_state.id == old(level_state).id,
            (level_state.stars, scene@) == after_overlaps(
                old(level_state).stars,
                old(scene)@,
                overlapping@,
                i as int,
            ),
            cleared == (old(level_state).stars > 0 && level_state.stars == 0),
            level_state.stars <= old(level_state).stars,
        decreases overlapping.len() - i,
    {
        let hit = overlapping[i];
        if level_state.stars > 0 && hit < scene.len() {
            let piece = scene[hit];
            if piece.kind == ColliderType::Star && piece.state == PieceState::Visible {
                scene.set(
                    hit,
                    ScenePiece { kind: piece.kind, index: piece.index, state: PieceState::Collected },
                );
                cleared = level_state.on_star_overlap();
            }
        }
        i += 1;
    }
    if cleared {
        Some(GameState::Clearing)
    } else {
        None
    }
}

/// The end of a level: every piece of it leaves the playfield, and so does
/// every stroke. Handles of strokes are not handed out again.
pub fn clean_current_level(
    scene: &mut Vec<ScenePiece>,
    lines: &mut Lines,
    current_line_hid: &mut PlayerCurrentLineEntity,
)
    ensures
        final(scene)@.len() == 0,
        final(lines)@ == Map::<u64, Seq<Point>>::empty(),
        final(lines).next_id() == old(lines).next_id(),
        final(lines).wf(),
        final(current_line_hid).0 is None,
{
    scene.clear();
    lines.clear();
    current_line_hid.0 = None;
}

} // verus!
