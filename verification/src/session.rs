//! One game session and its tick: the progression state machine that drives
//! the stages of a level and, while a level is played, the stroke editor and
//! the star count.

use vstd::prelude::*;
use crate::geometry::Point;
use crate::level::{
    after_overlaps, after_paced_flip, clean_current_level, collect_star, collects_last,
    count_stars, enters_next_level, following_level_wraps, level_done, load_all_levels,
    load_effect,
    none_in, overlaps_count_each_star_once, paced_target, scene_of,
    setup_current_level, slow_clean_level, slow_load_level, switch_level, switch_playing, ticked,
    GameLevels, LevelState, LoadError, PieceState, ScenePiece, SlowLoadTimer,
};
use crate::player::{
    draw_effect, mouse_draw, play_drawing_sound, set_gravity, spawn_player, Boost, DrawAction,
    DrawInput, Lines, PlayerCurrentLineEntity, PLAYER_BOOST_VELOCITY, PLAYER_GRAVITY_SCALE,
};
use crate::GameState;

verus! {

/// Everything a running game knows.
pub struct Session {
    /// The stage the game is in.
    pub state: GameState,
    /// The catalog, empty until the first load.
    pub levels: GameLevels,
    /// The current level and its stars left.
    pub level: LevelState,
    /// The pieces of the current level on the playfield.
    pub scene: Vec<ScenePiece>,
    /// The countdown that paces reveal and concealment.
    pub timer: SlowLoadTimer,
    /// The strokes the player has drawn.
    pub lines: Lines,
    /// The stroke being drawn.
    pub current: PlayerCurrentLineEntity,
}

/// What happened since the last tick.
#[derive(Clone, Debug)]
pub struct TickInput {
    /// Time that has passed, in nanoseconds.
    pub delta_nanos: u64,
    /// Pointer, buttons and ball.
    pub draw: DrawInput,
    /// The boost key went down.
    pub boost_just_pressed: bool,
    /// Indices of the scene pieces that the ball overlaps.
    pub overlapping: Vec<usize>,
}

/// What a tick did, by the stage it was taken in.
#[derive(Clone, Debug, PartialEq, Eq)]
pub enum TickReport {
    /// Loading: the level is set up, all hidden; the ball belongs at `spawn`.
    Loaded { spawn: Point },
    /// Loading: the level could not be loaded.
    LoadFailed(LoadError),
    /// Revealing: piece `shown`, if any, became visible.
    Revealed { shown: Option<usize> },
    /// Playing: what the editor did, the boost the ball got, and whether the
    /// drawing sound is to be played.
    Played { draw: DrawAction, boost: Option<Boost>, sound: bool },
    /// Clearing: concealment begins.
    Cleared,
    /// Concealing: piece `hidden`, if any, became hidden; when `cleaned`,
    /// the field was emptied and the next level is to be loaded.
    Concealed { hidden: Option<usize>, cleaned: bool },
}

/// Catalog, level state, scene and countdown are as before.
pub open spec fn level_untouched(before: Session, after: Session) -> bool {
    &&& after.levels.0@ == before.levels.0@
    &&& after.level == before.level
    &&& after.scene@ == before.scene@
    &&& after.timer == before.timer
}

/// Strokes, handle counter and current stroke are as before.
pub open spec fn strokes_untouched(before: Session, after: Session) -> bool {
    &&& after.lines@ == before.lines@
    &&& after.lines.next_id() == before.lines.next_id()
    &&& after.current == before.current
}

/// A tick in the loading stage. The catalog is made sure of and the current
/// level entered. On success the scene is that level's, all hidden, the ball
/// belongs at the level's spawn point, and revealing begins. On failure the
/// game stays in the loading stage.
pub open spec fn loading_effect(
    before: Session,
    sources: Seq<&str>,
    after: Session,
    report: TickReport,
) -> bool {
    &&& strokes_untouched(before, after)
    &&& after.timer == before.timer
    &&& match report {
        TickReport::Loaded { spawn } => {
            &&& load_effect(
                before.levels.0@,
                before.level,
                sources,
                after.levels.0@,
                after.level,
                Ok(()),
            )
            &&& after.scene@ == scene_of(after.levels.0@, after.level)
            &&& spawn == after.levels.0@[after.level.id as int].player
            &&& after.state == GameState::Revealing
        },
        TickReport::LoadFailed(error) => {
            &&& load_effect(
                before.levels.0@,
                before.level,
                sources,
                after.levels.0@,
                after.level,
                Err(error),
            )
            &&& after.scene@ == before.scene@
            &&& after.state == GameState::Loading
        },
        _ => false,
    }
}

/// A tick in the revealing stage. When the countdown fires, the first hidden
/// piece becomes visible; once no piece is hidden, play begins.
pub open spec fn revealing_effect(
    before: Session,
    input: TickInput,
    after: Session,
    report: TickReport,
) -> bool {
    &&& strokes_untouched(before, after)
    &&& after.levels.0@ == before.levels.0@
    &&& after.level == before.level
    &&& after.timer == ticked(before.timer, input.delta_nanos)
    &&& after.scene@ == after_paced_flip(
        before.timer,
        input.delta_nanos,
        before.scene@,
        PieceState::Hidden,
        PieceState::Visible,
    )
    &&& report matches TickReport::Revealed { shown }
    &&& shown == paced_target(before.timer, input.delta_nanos, before.scene@, PieceState::Hidden)
    &&& after.state == if none_in(after.scene@, PieceState::Hidden) {
        GameState::Playing
    } else {
        GameState::Revealing
    }
}

/// A tick in the playing stage. The boost key may release the ball, the
/// editor takes its input, the drawing sound is asked for when a stroke is
/// started, and the stars that the ball overlaps are collected; when the last
/// star is collected, clearing begins.
pub open spec fn playing_effect(
    before: Session,
    input: TickInput,
    after: Session,
    report: TickReport,
) -> bool {
    &&& after.levels.0@ == before.levels.0@
    &&& after.timer == before.timer
    &&& after.level.id == before.level.id
    &&& (after.level.stars, after.scene@) == after_overlaps(
        before.level.stars,
        before.scene@,
        input.overlapping@,
        input.overlapping@.len() as int,
    )
    &&& report matches TickReport::Played { draw, boost, sound }
    &&& draw_effect(input.draw, before.lines, before.current, after.lines, after.current, draw)
    &&& sound == (draw is Began)
    &&& boost == if input.boost_just_pressed {
        Some(Boost { gravity_scale: PLAYER_GRAVITY_SCALE, vertical_velocity: PLAYER_BOOST_VELOCITY })
    } else {
        None
    }
    &&& after.state == if collects_last(before.level.stars, before.scene@, input.overlapping@) {
        GameState::Clearing
    } else {
        GameState::Playing
    }
}

/// A tick in the clearing stage: concealing begins, nothing else changes.
pub open spec fn clearing_effect(before: Session, after: Session, report: TickReport) -> bool {
    &&& strokes_untouched(before, after)
    &&& level_untouched(before, after)
    &&& report is Cleared
    &&& after.state == GameState::Concealing
}

/// A tick in the concealing stage. When the countdown fires, the first
/// visible piece becomes hidden. Once no piece is visible, the field is
/// emptied of pieces and strokes, the level that follows becomes the current
/// one, and loading begins.
pub open spec fn concealing_effect(
    before: Session,
    input: TickInput,
    after: Session,
    report: TickReport,
) -> bool {
    let concealed = after_paced_flip(
        before.timer,
        input.delta_nanos,
        before.scene@,
        PieceState::Visible,
        PieceState::Hidden,
    );
    &&& after.levels.0@ == before.levels.0@
    &&& after.timer == ticked(before.timer, input.delta_nanos)
    &&& report matches TickReport::Concealed { hidden, cleaned }
    &&& hidden == paced_target(before.timer, input.delta_nanos, before.scene@, PieceState::Visible)
    &&& cleaned == level_done(before.levels.0@, concealed)
    &&& if cleaned {
        &&& after.state == GameState::Loading
        &&& enters_next_level(before.levels.0@, before.level, after.level)
        &&& after.scene@.len() == 0
        &&& after.lines@ == Map::<u64, Seq<Point>>::empty()
        &&& after.lines.next_id() == before.lines.next_id()
        &&& after.current.0 is None
    } else {
        &&& after.state == GameState::Concealing
        &&& after.level == before.level
        &&& after.scene@ == concealed
        &&& strokes_untouched(before, after)
    }
}

/// What a tick does: the work of the stage the game is in.
pub open spec fn tick_effect(
    before: Session,
    input: TickInput,
    sources: Seq<&str>,
    after: Session,
    report: TickReport,
) -> bool {
    match before.state {
        GameState::Loading => loading_effect(before, sources, after, report),
        GameState::Revealing => revealing_effect(before, input, after, report),
        GameState::Playing => playing_effect(before, input, after, report),
        GameState::Clearing => clearing_effect(before, after, report),
        GameState::Concealing => concealing_effect(before, input, after, report),
    }
}

/// A tick leaves the game in the stage it was in or takes it to the stage
/// that follows; no stage is ever skipped, and no stage is the last.
pub proof fn tick_stays_or_advances(
    before: Session,
    input: TickInput,
    sources: Seq<&str>,
    after: Session,
    report: TickReport,
)
    requires
        tick_effect(before, input, sources, after, report),
    ensures
        after.state == before.state || after.state == before.state.next(),
        before.state.next().next().next().next().next() == before.state,
{
}

/// Entering a level sets the stars left to the number of stars of that
/// level, exactly: after a tick that loads, the level index is as before and
/// the stars left are the stars of the level with that index.
pub proof fn loading_counts_the_stars(
    before: Session,
    input: TickInput,
    sources: Seq<&str>,
    after: Session,
    report: TickReport,
)
    requires
        tick_effect(before, input, sources, after, report),
        before.state == GameState::Loading,
        after.state != GameState::Loading,
    ensures
        after.level.id == before.level.id,
        after.level.id < after.levels.0@.len(),
        after.level.stars == after.levels.0@[after.level.id as int]@.stars.len(),
{
}

/// The level index changes only when a concealed level gives way to the
/// next: then level `i` of a catalog of `count` levels is followed by level
/// `(i + 1) mod count`, entered with all its stars left. On every other tick
/// the index stays.
pub proof fn level_index_advances_on_reload(
    before: Session,
    input: TickInput,
    sources: Seq<&str>,
    after: Session,
    report: TickReport,
)
    requires
        tick_effect(before, input, sources, after, report),
        before.level.id < before.levels.0@.len(),
    ensures
        before.state == GameState::Concealing && after.state == GameState::Loading ==> {
            &&& after.level.id == (before.level.id + 1) % (before.levels.0@.len() as int)
            &&& after.level.stars == after.levels.0@[after.level.id as int]@.stars.len()
        },
        !(before.state == GameState::Concealing && after.state == GameState::Loading)
            ==> after.level.id == before.level.id,
{
    if before.state == GameState::Concealing && after.state == GameState::Loading {
        following_level_wraps(before.level.id as int, before.levels.0@.len() as int);
    }
}

/// While a level is played, the stars left go down by exactly one for each
/// star collected on the tick and never below zero; clearing begins on the
/// tick that collects the last one.
pub proof fn playing_counts_each_star_once(
    before: Session,
    input: TickInput,
    sources: Seq<&str>,
    after: Session,
    report: TickReport,
)
    requires
        tick_effect(before, input, sources, after, report),
        before.state == GameState::Playing,
    ensures
        0 <= after.level.stars <= before.level.stars,
        before.level.stars - after.level.stars == count_stars(after.scene@, PieceState::Collected)
            - count_stars(before.scene@, PieceState::Collected),
        after.state == GameState::Clearing <==> before.level.stars > 0 && after.level.stars == 0,
{
    overlaps_count_each_star_once(
        before.level.stars,
        before.scene@,
        input.overlapping@,
        input.overlapping@.len() as int,
    );
}

impl Session {
    /// The strokes are well formed.
    pub open spec fn wf(&self) -> bool {
        self.lines.wf()
    }

    /// A session about to load its first level, with a countdown of the
    /// given period.
    pub fn new(period_nanos: u64) -> (session: Session)
        ensures
            session.wf(),
            session.state == GameState::Loading,
            session.levels.0@.len() == 0,
            session.level == (LevelState { id: 0, stars: 0 }),
            session.scene@.len() == 0,
            session.timer == (SlowLoadTimer { period_nanos, elapsed_nanos: 0 }),
            session.lines@ == Map::<u64, Seq<Point>>::empty(),
            session.lines.next_id() == 0,
            session.current.0 is None,
    {
        Session {
            state: GameState::Loading,
            levels: GameLevels(Vec::new()),
            level: LevelState { id: 0, stars: 0 },
            scene: Vec::new(),
            timer: SlowLoadTimer::new(period_nanos),
            lines: Lines::new(),
            current: PlayerCurrentLineEntity(None),
        }
    }

    /// One tick of the game: does the work of the current stage and moves on
    /// to the next stage when that work is done. `sources` are the texts of
    /// the catalog, read only while the catalog is empty.
    pub fn tick(&mut self, input: &TickInput, sources: &Vec<&str>) -> (report: TickReport)
        requires
            old(self).wf(),
        ensures
            final(self).wf(),
            tick_effect(*old(self), *input, sources@, *final(self), report),
    {
        match self.state {
            GameState::Loading => {
                match load_all_levels(&mut self.levels, &mut self.level, sources) {
                    Ok(()) => {
                        self.scene = setup_current_level(&self.levels, &self.level);
                        self.state = GameState::Revealing;
                        match spawn_player(&self.level, &self.levels) {
                            Some(spawn) => TickReport::Loaded { spawn },
                            None => TickReport::Loaded { spawn: Point::origin() },
                        }
                    },
                    Err(error) => TickReport::LoadFailed(error),
                }
            },
            GameState::Revealing => {
                let shown = slow_load_level(&mut self.timer, input.delta_nanos, &mut self.scene);
                match switch_playing(&self.scene) {
                    Some(next) => {
                        self.state = next;
                    },
                    None => {},
                }
                TickReport::Revealed { shown }
            },
            GameState::Playing => {
                let boost = set_gravity(input.boost_just_pressed);
                let draw = mouse_draw(&input.draw, &mut self.current, &mut self.lines);
                match collect_star(&mut self.level, &mut self.scene, &input.overlapping) {
                    Some(next) => {
                        self.state = next;
                    },
                    None => {},
                }
                let sound = play_drawing_sound(&draw);
                TickReport::Played { draw, boost, sound }
            },
            GameState::Clearing => {
                self.state = GameState::Concealing;
                TickReport::Cleared
            },
            GameState::Concealing => {
                let hidden = slow_clean_level(&mut self.timer, input.delta_nanos, &mut self.scene);
                match switch_level(&self.levels, &mut self.level, &self.scene) {
                    Some(next) => {
                        clean_current_level(&mut self.scene, &mut self.lines, &mut self.current);
                        self.state = next;
                        TickReport::Concealed { hidden, cleaned: true }
                    },
                    None => TickReport::Concealed { hidden, cleaned: false },
                }
            },
        }
    }
}

} // verus!
