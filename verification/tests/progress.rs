use scribble_ball::geometry::Point;
use scribble_ball::level::{
    any_in, clean_current_level, collect_star, flip_first, load_all_levels, setup_current_level,
    slow_clean_level, slow_load_level, switch_level, switch_playing, GameLevels, Level, LevelState,
    LoadError, PieceState, ScenePiece, SlowLoadTimer,
};
use scribble_ball::player::{
    begin_stroke, extend_active_stroke, spawn_player, Lines, PlayerCurrentLineEntity,
};
use scribble_ball::{ColliderType, GameState, StarsLeft};

const WELCOME: &str = "p 0,200\nl -100,0 100,0\ns 0,50";
const SECOND: &str = "p 5,5\nl 0,0 10,0\nl 0,10 10,10\ns 1,1 2,2 3,3\n";

fn px(x: i32, y: i32) -> Point {
    Point::new(x * 1000, y * 1000)
}

fn catalog() -> GameLevels {
    GameLevels(Level::load_all_levels(&vec![WELCOME, SECOND]).unwrap())
}

fn piece(kind: ColliderType, index: usize, state: PieceState) -> ScenePiece {
    ScenePiece { kind, index, state }
}

fn states(scene: &Vec<ScenePiece>) -> Vec<PieceState> {
    scene.iter().map(|p| p.state).collect()
}

#[test]
fn stages_follow_each_other_in_a_cycle() {
    assert_eq!(GameState::default(), GameState::Loading);
    assert_eq!(GameState::Loading.successor(), GameState::Revealing);
    assert_eq!(GameState::Revealing.successor(), GameState::Playing);
    assert_eq!(GameState::Playing.successor(), GameState::Clearing);
    assert_eq!(GameState::Clearing.successor(), GameState::Concealing);
    assert_eq!(GameState::Concealing.successor(), GameState::Loading);
}

#[test]
fn loading_reads_the_catalog_and_counts_the_stars() {
    let mut levels = GameLevels::default();
    let mut state = LevelState::default();
    assert_eq!(load_all_levels(&mut levels, &mut state, &vec![WELCOME, SECOND]), Ok(()));
    assert_eq!(levels.0.len(), 2);
    assert_eq!(state, LevelState { id: 0, stars: 1 });
    assert_eq!(state.stars_left(), StarsLeft(1));
}

#[test]
fn loading_keeps_a_catalog_that_is_there() {
    let mut levels = catalog();
    let mut state = LevelState { id: 1, stars: 0 };
    // the texts are not read again: an unreadable one does no harm
    assert_eq!(load_all_levels(&mut levels, &mut state, &vec!["p oops"]), Ok(()));
    assert_eq!(levels.0.len(), 2);
    assert_eq!(state, LevelState { id: 1, stars: 3 });
}

#[test]
fn loading_fails_on_an_unreadable_text() {
    let mut levels = GameLevels::default();
    let mut state = LevelState { id: 0, stars: 9 };
    assert_eq!(
        load_all_levels(&mut levels, &mut state, &vec![WELCOME, "l 1,1\nl 1"]),
        Err(LoadError::Unreadable { level: 1, line: 1 })
    );
    assert!(levels.0.is_empty());
    assert_eq!(state, LevelState { id: 0, stars: 9 });
}

#[test]
fn loading_fails_on_a_level_the_catalog_lacks() {
    let mut levels = GameLevels::default();
    let mut state = LevelState { id: 2, stars: 9 };
    assert_eq!(
        load_all_levels(&mut levels, &mut state, &vec![WELCOME, SECOND]),
        Err(LoadError::NoSuchLevel { id: 2 })
    );
    assert_eq!(levels.0.len(), 2);
    assert_eq!(state, LevelState { id: 2, stars: 9 });
    let mut empty = GameLevels::default();
    let mut first = LevelState::default();
    assert_eq!(
        load_all_levels(&mut empty, &mut first, &Vec::new()),
        Err(LoadError::NoSuchLevel { id: 0 })
    );
}

#[test]
fn setup_puts_every_piece_on_the_field_hidden() {
    let levels = catalog();
    let scene = setup_current_level(&levels, &LevelState { id: 1, stars: 3 });
    assert_eq!(
        scene,
        vec![
            piece(ColliderType::Scene, 0, PieceState::Hidden),
            piece(ColliderType::Scene, 1, PieceState::Hidden),
            piece(ColliderType::Star, 0, PieceState::Hidden),
            piece(ColliderType::Star, 1, PieceState::Hidden),
            piece(ColliderType::Star, 2, PieceState::Hidden),
        ]
    );
    assert!(setup_current_level(&levels, &LevelState { id: 2, stars: 0 }).is_empty());
}

#[test]
fn setup_skips_polylines_without_vertices() {
    let level = Level {
        player: px(0, 0),
        polylines: vec![vec![], vec![px(0, 0)], vec![], vec![px(1, 1), px(2, 2)]],
        stars: vec![],
    };
    let scene = setup_current_level(&GameLevels(vec![level]), &LevelState::default());
    assert_eq!(
        scene,
        vec![
            piece(ColliderType::Scene, 1, PieceState::Hidden),
            piece(ColliderType::Scene, 3, PieceState::Hidden),
        ]
    );
}

#[test]
fn spawn_point_comes_from_the_current_level() {
    let levels = catalog();
    assert_eq!(spawn_player(&LevelState { id: 0, stars: 1 }, &levels), Some(px(0, 200)));
    assert_eq!(spawn_player(&LevelState { id: 1, stars: 3 }, &levels), Some(px(5, 5)));
    assert_eq!(spawn_player(&LevelState { id: 2, stars: 0 }, &levels), None);
}

#[test]
fn countdown_fires_and_wraps_like_the_engine_timer() {
    let mut timer = SlowLoadTimer::new(100);
    assert!(!timer.tick(40));
    assert_eq!(timer.elapsed_nanos, 40);
    assert!(timer.tick(70));
    assert_eq!(timer.elapsed_nanos, 10);
    assert!(timer.tick(250));
    assert_eq!(timer.elapsed_nanos, 60);
    assert!(!timer.tick(39));
    assert_eq!(timer.elapsed_nanos, 99);
    assert!(timer.tick(1));
    assert_eq!(timer.elapsed_nanos, 0);
    assert!(!timer.tick(0));
    assert_eq!(timer.period_nanos, 100);
}

#[test]
fn countdown_of_period_zero_always_fires() {
    let mut timer = SlowLoadTimer::new(0);
    assert!(timer.tick(0));
    assert!(timer.tick(5));
    assert_eq!(timer.elapsed_nanos, 0);
}

#[test]
fn countdown_handles_the_largest_values() {
    let mut timer = SlowLoadTimer { period_nanos: u64::MAX, elapsed_nanos: u64::MAX - 1 };
    assert!(timer.tick(u64::MAX));
    assert_eq!(timer.elapsed_nanos, u64::MAX - 1);
    let mut late = SlowLoadTimer { period_nanos: 10, elapsed_nanos: u64::MAX };
    assert!(late.tick(u64::MAX));
    assert_eq!(late.elapsed_nanos, 0);
}

#[test]
fn countdown_counts_laps_in_32_bits() {
    // 2^32 laps in one tick count as none
    let mut timer = SlowLoadTimer::new(1);
    assert!(!timer.tick(1 << 32));
    assert_eq!(timer.elapsed_nanos, 0);
    assert!(timer.tick((1 << 32) + 1));
    let mut slow = SlowLoadTimer::new(3);
    assert!(!slow.tick(3 << 32));
    assert!(slow.tick((3 << 32) - 1));
    assert_eq!(slow.elapsed_nanos, 2);
}

#[test]
fn reveal_shows_one_piece_per_firing() {
    let levels = catalog();
    let mut scene = setup_current_level(&levels, &LevelState { id: 0, stars: 1 });
    let mut timer = SlowLoadTimer::new(100);
    assert_eq!(slow_load_level(&mut timer, 99, &mut scene), None);
    assert_eq!(states(&scene), vec![PieceState::Hidden, PieceState::Hidden]);
    assert_eq!(switch_playing(&scene), None);
    assert_eq!(slow_load_level(&mut timer, 1, &mut scene), Some(0));
    assert_eq!(states(&scene), vec![PieceState::Visible, PieceState::Hidden]);
    assert_eq!(switch_playing(&scene), None);
    // several periods in one tick are still one firing
    assert_eq!(slow_load_level(&mut timer, 1000, &mut scene), Some(1));
    assert_eq!(states(&scene), vec![PieceState::Visible, PieceState::Visible]);
    assert_eq!(switch_playing(&scene), Some(GameState::Playing));
    assert_eq!(slow_load_level(&mut timer, 100, &mut scene), None);
    assert_eq!(states(&scene), vec![PieceState::Visible, PieceState::Visible]);
}

#[test]
fn conceal_hides_one_piece_per_firing() {
    let levels = catalog();
    let mut scene = vec![
        piece(ColliderType::Scene, 0, PieceState::Visible),
        piece(ColliderType::Star, 0, PieceState::Collected),
        piece(ColliderType::Star, 1, PieceState::Visible),
    ];
    let mut state = LevelState { id: 0, stars: 0 };
    let mut timer = SlowLoadTimer::new(10);
    assert_eq!(switch_level(&levels, &mut state, &scene), None);
    assert_eq!(slow_clean_level(&mut timer, 5, &mut scene), None);
    assert_eq!(slow_clean_level(&mut timer, 5, &mut scene), Some(0));
    assert_eq!(
        states(&scene),
        vec![PieceState::Hidden, PieceState::Collected, PieceState::Visible]
    );
    assert_eq!(switch_level(&levels, &mut state, &scene), None);
    assert_eq!(state, LevelState { id: 0, stars: 0 });
    assert_eq!(slow_clean_level(&mut timer, 10, &mut scene), Some(2));
    assert_eq!(
        states(&scene),
        vec![PieceState::Hidden, PieceState::Collected, PieceState::Hidden]
    );
    assert_eq!(slow_clean_level(&mut timer, 10, &mut scene), None);
    assert_eq!(switch_level(&levels, &mut state, &scene), Some(GameState::Loading));
    assert_eq!(state, LevelState { id: 1, stars: 3 });
}

#[test]
fn flip_first_changes_only_the_first_match() {
    let mut scene = vec![
        piece(ColliderType::Scene, 0, PieceState::Visible),
        piece(ColliderType::Scene, 1, PieceState::Hidden),
        piece(ColliderType::Star, 0, PieceState::Hidden),
    ];
    assert!(any_in(&scene, PieceState::Hidden));
    assert!(!any_in(&scene, PieceState::Collected));
    assert_eq!(flip_first(&mut scene, PieceState::Hidden, PieceState::Collected), Some(1));
    assert_eq!(
        scene,
        vec![
            piece(ColliderType::Scene, 0, PieceState::Visible),
            piece(ColliderType::Scene, 1, PieceState::Collected),
            piece(ColliderType::Star, 0, PieceState::Hidden),
        ]
    );
    assert_eq!(flip_first(&mut Vec::new(), PieceState::Hidden, PieceState::Visible), None);
}

#[test]
fn level_index_wraps_round_the_catalog() {
    let levels = catalog();
    let scene = Vec::new();
    let mut state = LevelState { id: 0, stars: 0 };
    assert_eq!(switch_level(&levels, &mut state, &scene), Some(GameState::Loading));
    assert_eq!(state, LevelState { id: 1, stars: 3 });
    assert_eq!(switch_level(&levels, &mut state, &scene), Some(GameState::Loading));
    assert_eq!(state, LevelState { id: 0, stars: 1 });
    let mut stray = LevelState { id: 17, stars: 4 };
    assert_eq!(switch_level(&levels, &mut stray, &scene), Some(GameState::Loading));
    assert_eq!(stray, LevelState { id: 0, stars: 1 });
}

#[test]
fn switch_level_in_an_empty_catalog_does_nothing() {
    let mut state = LevelState { id: 3, stars: 2 };
    assert_eq!(switch_level(&GameLevels::default(), &mut state, &Vec::new()), None);
    assert_eq!(state, LevelState { id: 3, stars: 2 });
}

#[test]
fn each_star_is_counted_once() {
    let mut scene = vec![
        piece(ColliderType::Scene, 0, PieceState::Visible),
        piece(ColliderType::Star, 0, PieceState::Visible),
        piece(ColliderType::Star, 1, PieceState::Visible),
        piece(ColliderType::Star, 2, PieceState::Visible),
    ];
    let mut state = LevelState { id: 1, stars: 3 };
    assert_eq!(collect_star(&mut state, &mut scene, &vec![]), None);
    assert_eq!(state.stars, 3);
    assert_eq!(collect_star(&mut state, &mut scene, &vec![2, 2, 0, 9]), None);
    assert_eq!(state, LevelState { id: 1, stars: 2 });
    assert_eq!(scene[2].state, PieceState::Collected);
    assert_eq!(scene[0].state, PieceState::Visible);
    assert_eq!(collect_star(&mut state, &mut scene, &vec![2]), None);
    assert_eq!(state.stars, 2);
    assert_eq!(collect_star(&mut state, &mut scene, &vec![1, 3]), Some(GameState::Clearing));
    assert_eq!(state, LevelState { id: 1, stars: 0 });
    assert_eq!(
        states(&scene),
        vec![
            PieceState::Visible,
            PieceState::Collected,
            PieceState::Collected,
            PieceState::Collected
        ]
    );
    assert_eq!(collect_star(&mut state, &mut scene, &vec![1, 3]), None);
    assert_eq!(state.stars, 0);
}

#[test]
fn stars_left_never_go_below_zero() {
    let mut scene = vec![
        piece(ColliderType::Star, 0, PieceState::Visible),
        piece(ColliderType::Star, 1, PieceState::Visible),
    ];
    let mut state = LevelState { id: 0, stars: 1 };
    assert_eq!(collect_star(&mut state, &mut scene, &vec![0, 1]), Some(GameState::Clearing));
    assert_eq!(state.stars, 0);
    assert_eq!(states(&scene), vec![PieceState::Collected, PieceState::Visible]);
}

#[test]
fn hidden_stars_are_not_collected() {
    let mut scene = vec![piece(ColliderType::Star, 0, PieceState::Hidden)];
    let mut state = LevelState { id: 0, stars: 1 };
    assert_eq!(collect_star(&mut state, &mut scene, &vec![0]), None);
    assert_eq!(state.stars, 1);
    assert_eq!(scene[0].state, PieceState::Hidden);
}

#[test]
fn on_star_overlap_counts_down_by_one() {
    let mut state = LevelState { id: 4, stars: 2 };
    assert!(!state.on_star_overlap());
    assert_eq!(state, LevelState { id: 4, stars: 1 });
    assert!(state.on_star_overlap());
    assert_eq!(state, LevelState { id: 4, stars: 0 });
}

#[test]
fn cleaning_empties_the_field() {
    let levels = catalog();
    let mut scene = setup_current_level(&levels, &LevelState { id: 1, stars: 3 });
    let mut lines = Lines::new();
    let mut current = PlayerCurrentLineEntity::default();
    let far = px(9000, 9000);
    assert_eq!(begin_stroke(&mut lines, &mut current, px(0, 0), far), Some(0));
    assert!(extend_active_stroke(&mut lines, &mut current, px(30, 0), far));
    clean_current_level(&mut scene, &mut lines, &mut current);
    assert!(scene.is_empty());
    assert!(!lines.contains(0));
    assert_eq!(current, PlayerCurrentLineEntity(None));
    assert_eq!(begin_stroke(&mut lines, &mut current, px(0, 0), far), Some(1));
}

#[test]
fn a_whole_level_cycle_advances_the_level() {
    let mut levels = GameLevels::default();
    let mut level = LevelState::default();
    let mut state = GameState::default();
    let mut timer = SlowLoadTimer::new(1);
    let mut lines = Lines::new();
    let mut current = PlayerCurrentLineEntity::default();

    load_all_levels(&mut levels, &mut level, &vec![WELCOME, SECOND]).unwrap();
    let mut scene = setup_current_level(&levels, &level);
    assert_eq!(spawn_player(&level, &levels), Some(px(0, 200)));
    state = state.successor();
    assert_eq!(state, GameState::Revealing);

    let mut firings = 0;
    loop {
        if let Some(next) = switch_playing(&scene) {
            state = next;
            break;
        }
        assert!(slow_load_level(&mut timer, 1, &mut scene).is_some());
        firings += 1;
    }
    assert_eq!((state, firings), (GameState::Playing, 2));

    state = collect_star(&mut level, &mut scene, &vec![1]).unwrap();
    assert_eq!(state, GameState::Clearing);
    state = state.successor();
    assert_eq!(state, GameState::Concealing);

    let mut firings = 0;
    loop {
        if let Some(next) = switch_level(&levels, &mut level, &scene) {
            state = next;
            break;
        }
        assert!(slow_clean_level(&mut timer, 1, &mut scene).is_some());
        firings += 1;
    }
    assert_eq!((state, firings), (GameState::Loading, 1));
    clean_current_level(&mut scene, &mut lines, &mut current);
    assert_eq!(level, LevelState { id: 1, stars: 3 });
    load_all_levels(&mut levels, &mut level, &Vec::new()).unwrap();
    assert_eq!(level, LevelState { id: 1, stars: 3 });
    assert_eq!(setup_current_level(&levels, &level).len(), 5);
}
