use scribble_ball::format::{parse_bytes, parse_vertex, parse_vertices, read_tag, Tag};
use scribble_ball::geometry::Point;
use scribble_ball::level::{Level, LoadError, ParseError};
use scribble_ball::text::{find_byte, parse_coordinate};

fn px(x: i32, y: i32) -> Point {
    Point::new(x * 1000, y * 1000)
}

#[test]
fn parses_the_three_directives() {
    let level = Level::parse("p 0,200\nl -100,0 100,0\ns 0,50").unwrap();
    assert_eq!(level.player, px(0, 200));
    assert_eq!(level.polylines, vec![vec![px(-100, 0), px(100, 0)]]);
    assert_eq!(level.stars, vec![px(0, 50)]);
}

#[test]
fn empty_text_is_a_blank_level() {
    let level = Level::parse("").unwrap();
    assert_eq!(level.player, px(0, 0));
    assert!(level.polylines.is_empty());
    assert!(level.stars.is_empty());
}

#[test]
fn polylines_keep_their_order_and_stars_accumulate() {
    let level = Level::parse("l 0,0 1,1\ns 5,5 6,6\nl 2,2\ns 7,7\n").unwrap();
    assert_eq!(level.polylines, vec![vec![px(0, 0), px(1, 1)], vec![px(2, 2)]]);
    assert_eq!(level.stars, vec![px(5, 5), px(6, 6), px(7, 7)]);
    assert_eq!(level.player, px(0, 0));
}

#[test]
fn last_spawn_wins() {
    let level = Level::parse("p 1,2\np 3,4\n").unwrap();
    assert_eq!(level.player, px(3, 4));
}

#[test]
fn unknown_tags_are_skipped_and_reported() {
    let parsed = Level::parse_report("# a comment\np 1,1\nx 5,5\n\nl\nl 0,0 9,9\nlx0,0").unwrap();
    assert_eq!(parsed.dropped, vec![0, 2, 3, 4, 6]);
    assert_eq!(parsed.level.player, px(1, 1));
    assert_eq!(parsed.level.polylines, vec![vec![px(0, 0), px(9, 9)]]);
    assert!(parsed.level.stars.is_empty());
    let level = Level::parse("# a comment\np 1,1\nx 5,5\n\nl\nl 0,0 9,9\nlx0,0").unwrap();
    assert_eq!(level.player, px(1, 1));
    assert_eq!(level.polylines, vec![vec![px(0, 0), px(9, 9)]]);
}

#[test]
fn unknown_tag_with_a_bad_payload_is_still_only_skipped() {
    let parsed = Level::parse_report("q not,numbers\ns 1,1").unwrap();
    assert_eq!(parsed.dropped, vec![0]);
    assert_eq!(parsed.level.stars, vec![px(1, 1)]);
}

#[test]
fn non_numeric_coordinate_fails_with_the_line() {
    assert_eq!(Level::parse("p 0,0\nl 1,1 a,2\ns 3,3").unwrap_err(), ParseError { line: 1 });
    assert_eq!(Level::parse("s 1,b").unwrap_err(), ParseError { line: 0 });
    assert_eq!(Level::parse("zz\nzz\np x,0").unwrap_err(), ParseError { line: 2 });
}

#[test]
fn first_bad_line_is_the_one_reported() {
    assert_eq!(Level::parse("l 0,0\ns ?\np ?\n").unwrap_err(), ParseError { line: 1 });
    assert_eq!(Level::parse_report("l 0,0\ns ?\np ?\n").unwrap_err(), ParseError { line: 1 });
}

#[test]
fn vertex_without_a_comma_fails() {
    assert_eq!(Level::parse("l 1,1 5").unwrap_err(), ParseError { line: 0 });
    assert_eq!(Level::parse("p 5").unwrap_err(), ParseError { line: 0 });
}

#[test]
fn empty_payload_fails() {
    assert_eq!(Level::parse("l ").unwrap_err(), ParseError { line: 0 });
    assert_eq!(Level::parse("s ").unwrap_err(), ParseError { line: 0 });
    assert_eq!(Level::parse("p ").unwrap_err(), ParseError { line: 0 });
}

#[test]
fn whitespace_is_not_trimmed() {
    assert_eq!(Level::parse("l 1,1  2,2").unwrap_err(), ParseError { line: 0 });
    assert_eq!(Level::parse("l 1,1 ").unwrap_err(), ParseError { line: 0 });
    assert_eq!(Level::parse("l  1,1").unwrap_err(), ParseError { line: 0 });
    assert_eq!(Level::parse("p 1, 1").unwrap_err(), ParseError { line: 0 });
    assert_eq!(Level::parse("p 1,1 2,2").unwrap_err(), ParseError { line: 0 });
    assert_eq!(Level::parse_report(" p 1,1").unwrap().dropped, vec![0]);
}

#[test]
fn what_follows_a_second_comma_is_not_read() {
    let level = Level::parse("p 1,2,zzz\nl 3,4,5 6,7,").unwrap();
    assert_eq!(level.player, px(1, 2));
    assert_eq!(level.polylines, vec![vec![px(3, 4), px(6, 7)]]);
}

#[test]
fn carriage_returns_before_line_feeds_are_dropped() {
    let level = Level::parse("p 1,2\r\nl 0,0 5,5\r\ns 9,9\r\n").unwrap();
    assert_eq!(level.player, px(1, 2));
    assert_eq!(level.polylines, vec![vec![px(0, 0), px(5, 5)]]);
    assert_eq!(level.stars, vec![px(9, 9)]);
    // without a line feed after it, a carriage return belongs to the line
    assert_eq!(Level::parse("p 1,2\r").unwrap_err(), ParseError { line: 0 });
}

#[test]
fn trailing_line_feed_adds_no_line() {
    assert!(Level::parse_report("p 1,2\n").unwrap().dropped.is_empty());
    assert_eq!(Level::parse_report("p 1,2\n\n").unwrap().dropped, vec![1]);
    assert_eq!(Level::parse_report("\n").unwrap().dropped, vec![0]);
}

#[test]
fn coordinates_are_decimals_in_thousandths() {
    assert_eq!(parse_coordinate(b"0"), Some(0));
    assert_eq!(parse_coordinate(b"200"), Some(200_000));
    assert_eq!(parse_coordinate(b"-100"), Some(-100_000));
    assert_eq!(parse_coordinate(b"+3"), Some(3_000));
    assert_eq!(parse_coordinate(b"1.5"), Some(1_500));
    assert_eq!(parse_coordinate(b"-0.25"), Some(-250));
    assert_eq!(parse_coordinate(b".5"), Some(500));
    assert_eq!(parse_coordinate(b"5."), Some(5_000));
    assert_eq!(parse_coordinate(b"5.8"), Some(5_800));
    assert_eq!(parse_coordinate(b"007.050"), Some(7_050));
    assert_eq!(parse_coordinate(b"-0"), Some(0));
}

#[test]
fn digits_past_the_third_place_are_dropped() {
    assert_eq!(parse_coordinate(b"1.2345"), Some(1_234));
    assert_eq!(parse_coordinate(b"1.2999"), Some(1_299));
    assert_eq!(parse_coordinate(b"-1.2999"), Some(-1_299));
    assert_eq!(parse_coordinate(b"0.0009"), Some(0));
    assert_eq!(parse_coordinate(b"1.234x"), None);
}

#[test]
fn what_is_not_a_decimal_is_no_coordinate() {
    for text in [
        &b""[..], b"-", b"+", b".", b"-.", b"1e3", b"inf", b"NaN", b"1,5", b"--1", b"+-1", b"1-",
        b" 1", b"1 ", b"1..2", b"1.2.3", b"0x10", b"1_000",
    ] {
        assert_eq!(parse_coordinate(text), None, "{:?}", text);
    }
}

#[test]
fn coordinates_must_fit_the_grid() {
    assert_eq!(parse_coordinate(b"2147483.647"), Some(i32::MAX));
    assert_eq!(parse_coordinate(b"2147483.648"), None);
    assert_eq!(parse_coordinate(b"-2147483.648"), Some(i32::MIN));
    assert_eq!(parse_coordinate(b"-2147483.649"), None);
    assert_eq!(parse_coordinate(b"2147484"), None);
    assert_eq!(parse_coordinate(b"99999999999999999999999999999999999999"), None);
    assert_eq!(parse_coordinate(b"000000000000000000000000000000000000001"), Some(1_000));
    assert_eq!(Level::parse("p 3000000,0").unwrap_err(), ParseError { line: 0 });
}

#[test]
fn find_byte_gives_the_first_occurrence_or_the_length() {
    assert_eq!(find_byte(b"a,b,c", b','), 1);
    assert_eq!(find_byte(b",", b','), 0);
    assert_eq!(find_byte(b"abc", b','), 3);
    assert_eq!(find_byte(b"", b','), 0);
}

#[test]
fn tags_are_two_bytes() {
    assert_eq!(read_tag(b"l 1,1"), Some(Tag::Polyline));
    assert_eq!(read_tag(b"s "), Some(Tag::Stars));
    assert_eq!(read_tag(b"p 0,0"), Some(Tag::Spawn));
    assert_eq!(read_tag(b"l"), None);
    assert_eq!(read_tag(b""), None);
    assert_eq!(read_tag(b"L 1,1"), None);
    assert_eq!(read_tag(b"l\t1,1"), None);
}

#[test]
fn vertices_are_read_field_by_field() {
    assert_eq!(parse_vertex(b"1.5,-2"), Some(Point::new(1_500, -2_000)));
    assert_eq!(parse_vertex(b"1.5"), None);
    assert_eq!(parse_vertex(b","), None);
    assert_eq!(parse_vertex(b"1,"), None);
    assert_eq!(parse_vertex(b",1"), None);
    assert_eq!(parse_vertices(b"0,0 1,1 2,2"), Some(vec![px(0, 0), px(1, 1), px(2, 2)]));
    assert_eq!(parse_vertices(b"0,0"), Some(vec![px(0, 0)]));
    assert_eq!(parse_vertices(b""), None);
    assert_eq!(parse_vertices(b"0,0 1"), None);
}

#[test]
fn bytes_that_are_not_text_are_handled() {
    let parsed = parse_bytes(&[0xff, 0xfe, b'\n', b'p', b' ', b'1', b',', b'1']).unwrap();
    assert_eq!(parsed.dropped, vec![0]);
    assert_eq!(parsed.level.player, px(1, 1));
    assert_eq!(parse_bytes(&[b'p', b' ', 0xff, b',', b'1']).unwrap_err(), ParseError { line: 0 });
}

#[test]
fn catalog_is_read_in_order() {
    let sources = vec!["p 0,200\nl -100,0 100,0\ns 0,50", "s 1,1 2,2\n", ""];
    let levels = Level::load_all_levels(&sources).unwrap();
    assert_eq!(levels.len(), 3);
    assert_eq!(levels[0].player, px(0, 200));
    assert_eq!(levels[0].stars, vec![px(0, 50)]);
    assert_eq!(levels[1].stars, vec![px(1, 1), px(2, 2)]);
    assert!(levels[2].stars.is_empty());
    assert!(Level::load_all_levels(&Vec::new()).unwrap().is_empty());
}

#[test]
fn catalog_load_fails_at_the_first_unreadable_text() {
    let sources = vec!["p 0,0", "l 0,0\ns oops", "p oops"];
    assert_eq!(
        Level::load_all_levels(&sources).unwrap_err(),
        LoadError::Unreadable { level: 1, line: 1 }
    );
}
