use scribble_ball::geometry::Point;
use scribble_ball::level::{LevelState as CatalogLevelState, LoadError, PieceState, SlowLoadTimer};
use scribble_ball::player::{Boost, DrawAction, DrawInput, PlayerCurrentLineEntity};
use scribble_ball::session::{Session, TickInput, TickReport};
use scribble_ball::{GameState, LevelState};

const FIRST: &str = "p 0,200\nl -100,0 100,0\ns 0,50";
const SECOND: &str = "p 5,5\ns 1,1 2,2\n";

fn px(x: i32, y: i32) -> Point {
    Point::new(x * 1000, y * 1000)
}

fn quiet(delta_nanos: u64) -> TickInput {
    TickInput {
        delta_nanos,
        draw: DrawInput {
            cursor: None,
            player: px(0, 200),
            draw_just_pressed: false,
            draw_pressed: false,
            draw_just_released: false,
            erase_pressed: false,
        },
        boost_just_pressed: false,
        overlapping: Vec::new(),
    }
}

fn idle() -> TickReport {
    TickReport::Played { draw: DrawAction::Idle, boost: None, sound: false }
}

#[test]
fn level_state_has_one_definition() {
    let state: LevelState = CatalogLevelState { id: 1, stars: 2 };
    assert_eq!(state, LevelState { id: 1, stars: 2 });
}

#[test]
fn new_session_is_about_to_load() {
    let session = Session::new(250);
    assert_eq!(session.state, GameState::Loading);
    assert!(session.levels.0.is_empty());
    assert_eq!(session.level, LevelState { id: 0, stars: 0 });
    assert!(session.scene.is_empty());
    assert_eq!(session.timer, SlowLoadTimer { period_nanos: 250, elapsed_nanos: 0 });
    assert_eq!(session.lines.next_handle(), 0);
    assert_eq!(session.current, PlayerCurrentLineEntity(None));
}

#[test]
fn tick_runs_a_level_from_load_to_reload() {
    let sources = vec![FIRST, SECOND];
    let mut session = Session::new(10);

    // loading
    assert_eq!(session.tick(&quiet(3), &sources), TickReport::Loaded { spawn: px(0, 200) });
    assert_eq!(session.state, GameState::Revealing);
    assert_eq!(session.level, LevelState { id: 0, stars: 1 });
    assert_eq!(session.scene.len(), 2);
    assert_eq!(session.timer.elapsed_nanos, 0);

    // revealing: one piece per firing of the countdown
    assert_eq!(session.tick(&quiet(9), &sources), TickReport::Revealed { shown: None });
    assert_eq!(session.state, GameState::Revealing);
    assert_eq!(session.tick(&quiet(1), &sources), TickReport::Revealed { shown: Some(0) });
    assert_eq!(session.state, GameState::Revealing);
    assert_eq!(session.tick(&quiet(10), &sources), TickReport::Revealed { shown: Some(1) });
    assert_eq!(session.state, GameState::Playing);

    // playing: nothing happens without input
    assert_eq!(session.tick(&quiet(10), &sources), idle());
    assert_eq!(session.state, GameState::Playing);
    assert_eq!(session.timer.elapsed_nanos, 0);

    // playing: draw a stroke
    let mut press = quiet(1);
    press.draw.cursor = Some(px(300, 0));
    press.draw.draw_just_pressed = true;
    press.draw.draw_pressed = true;
    assert_eq!(
        session.tick(&press, &sources),
        TickReport::Played { draw: DrawAction::Began(0), boost: None, sound: true }
    );
    let mut drag = quiet(1);
    drag.draw.cursor = Some(px(330, 0));
    drag.draw.draw_pressed = true;
    drag.boost_just_pressed = true;
    assert_eq!(
        session.tick(&drag, &sources),
        TickReport::Played {
            draw: DrawAction::Extended(0),
            boost: Some(Boost { gravity_scale: 9_800, vertical_velocity: -100 }),
            sound: false,
        }
    );
    assert_eq!(session.lines.points(0), Some(vec![px(300, 0), px(330, 0)]));

    // playing: the ball reaches the star
    let mut touch = quiet(1);
    touch.overlapping = vec![0, 1];
    assert_eq!(session.tick(&touch, &sources), idle());
    assert_eq!(session.state, GameState::Clearing);
    assert_eq!(session.level, LevelState { id: 0, stars: 0 });
    assert_eq!(session.scene[1].state, PieceState::Collected);
    assert_eq!(session.scene[0].state, PieceState::Visible);

    // clearing
    assert_eq!(session.tick(&quiet(100), &sources), TickReport::Cleared);
    assert_eq!(session.state, GameState::Concealing);
    assert_eq!(session.timer.elapsed_nanos, 0);

    // concealing: one piece per firing, then the field is emptied
    assert_eq!(
        session.tick(&quiet(5), &sources),
        TickReport::Concealed { hidden: None, cleaned: false }
    );
    assert_eq!(session.state, GameState::Concealing);
    assert_eq!(session.level, LevelState { id: 0, stars: 0 });
    assert_eq!(
        session.tick(&quiet(5), &sources),
        TickReport::Concealed { hidden: Some(0), cleaned: true }
    );
    assert_eq!(session.state, GameState::Loading);
    assert_eq!(session.level, LevelState { id: 1, stars: 2 });
    assert!(session.scene.is_empty());
    assert!(!session.lines.contains(0));
    assert_eq!(session.lines.next_handle(), 1);

    // loading the next level
    assert_eq!(session.tick(&quiet(0), &sources), TickReport::Loaded { spawn: px(5, 5) });
    assert_eq!(session.level, LevelState { id: 1, stars: 2 });
    assert_eq!(session.scene.len(), 2);
}

#[test]
fn tick_wraps_from_the_last_level_to_the_first() {
    let sources = vec![FIRST, SECOND];
    let mut session = Session::new(1);
    session.tick(&quiet(0), &sources);
    session.level = LevelState { id: 1, stars: 0 };
    session.scene.clear();
    session.state = GameState::Concealing;
    assert_eq!(
        session.tick(&quiet(0), &sources),
        TickReport::Concealed { hidden: None, cleaned: true }
    );
    assert_eq!(session.state, GameState::Loading);
    assert_eq!(session.level, LevelState { id: 0, stars: 1 });
}

#[test]
fn tick_reports_a_failed_load_and_stays_loading() {
    let mut session = Session::new(1);
    let report = session.tick(&quiet(1), &vec![FIRST, "l 0,0\nl nope"]);
    assert_eq!(report, TickReport::LoadFailed(LoadError::Unreadable { level: 1, line: 1 }));
    assert_eq!(session.state, GameState::Loading);
    assert!(session.levels.0.is_empty());
    let report = session.tick(&quiet(1), &Vec::new());
    assert_eq!(report, TickReport::LoadFailed(LoadError::NoSuchLevel { id: 0 }));
    assert_eq!(session.state, GameState::Loading);
    // with readable texts the same session loads
    assert_eq!(session.tick(&quiet(1), &vec![FIRST]), TickReport::Loaded { spawn: px(0, 200) });
}

#[test]
fn tick_does_not_edit_strokes_outside_play() {
    let sources = vec![FIRST];
    let mut session = Session::new(10);
    session.tick(&quiet(0), &sources);
    let mut press = quiet(1);
    press.draw.cursor = Some(px(300, 0));
    press.draw.draw_just_pressed = true;
    press.overlapping = vec![1];
    assert_eq!(session.tick(&press, &sources), TickReport::Revealed { shown: None });
    assert_eq!(session.lines.next_handle(), 0);
    assert_eq!(session.level.stars, 1);
}

#[test]
fn tick_with_an_empty_level_goes_straight_to_play() {
    let mut session = Session::new(10);
    assert_eq!(session.tick(&quiet(0), &vec![""]), TickReport::Loaded { spawn: px(0, 0) });
    assert_eq!(session.tick(&quiet(0), &vec![""]), TickReport::Revealed { shown: None });
    assert_eq!(session.state, GameState::Playing);
    // no stars to collect: the level is never cleared
    assert_eq!(session.tick(&quiet(0), &vec![""]), idle());
    assert_eq!(session.state, GameState::Playing);
}
