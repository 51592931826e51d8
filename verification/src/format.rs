//! The level text format.
//!
//! A level text has one directive per line. The first two bytes of a line are
//! its tag, the rest is its payload:
//!
//! - `l ` a scene polyline: vertices `x,y` separated by single spaces;
//! - `s ` stars: vertices `x,y` separated by single spaces;
//! - `p ` the player's spawn point: one vertex `x,y`.
//!
//! A line with any other tag is skipped and reported. A vertex that is not
//! two decimal numbers makes the whole text unreadable.

use vstd::prelude::*;
use vstd::slice::slice_subrange;
use crate::geometry::Point;
use crate::level::{Level, LevelView, ParseError, Parsed};
use crate::text::{
    coordinate, find, find_byte, lines, parse_coordinate, split, strip_cr, CARRIAGE_RETURN, COMMA,
    LINE_FEED, SPACE,
};

verus! {

/// First byte of the tag of a polyline: `l`.
pub const TAG_POLYLINE: u8 = 108;

/// First byte of the tag of stars: `s`.
pub const TAG_STARS: u8 = 115;

/// First byte of the tag of the spawn point: `p`.
pub const TAG_SPAWN: u8 = 112;

/// The directive a line carries.
#[derive(Clone, Copy, Debug, PartialEq, Eq, Structural)]
pub enum Tag {
    Polyline,
    Stars,
    Spawn,
}

/// The tag of a line, if its first two bytes are one.
pub open spec fn tag_of(line: Seq<u8>) -> Option<Tag> {
    if line.len() >= 2 && line[1] == SPACE {
        if line[0] == TAG_POLYLINE {
            Some(Tag::Polyline)
        } else if line[0] == TAG_STARS {
            Some(Tag::Stars)
        } else if line[0] == TAG_SPAWN {
            Some(Tag::Spawn)
        } else {
            None
        }
    } else {
        None
    }
}

/// What follows the tag.
pub open spec fn payload(line: Seq<u8>) -> Seq<u8> {
    line.skip(2)
}

/// The text of a vertex's x: what stands before its first comma.
pub open spec fn x_text(field: Seq<u8>) -> Seq<u8> {
    field.subrange(0, find(field, COMMA))
}

/// The text of a vertex's y: what stands between its first comma and its
/// second, or the end. Anything after a second comma is not read.
pub open spec fn y_text(field: Seq<u8>) -> Seq<u8> {
    let rest = field.subrange(find(field, COMMA) + 1, field.len() as int);
    rest.subrange(0, find(rest, COMMA))
}

/// The point a vertex field writes, if it has a comma with a coordinate on
/// either side.
pub open spec fn vertex(field: Seq<u8>) -> Option<Point> {
    if find(field, COMMA) < field.len() && coordinate(x_text(field)) is Some && coordinate(
        y_text(field),
    ) is Some {
        Some(Point { x: coordinate(x_text(field))->0, y: coordinate(y_text(field))->0 })
    } else {
        None
    }
}

/// The points a payload of space-separated vertices writes, if every field
/// is a vertex.
pub open spec fn vertices(payload: Seq<u8>) -> Option<Seq<Point>> {
    let fields = split(payload, SPACE);
    if forall|i: int| 0 <= i < fields.len() ==> vertex(#[trigger] fields[i]) is Some {
        Some(Seq::new(fields.len(), |i: int| vertex(fields[i])->0))
    } else {
        None
    }
}

/// Whether a line can be read: its tag is unknown (it is skipped), or its
/// payload is what the tag asks for.
pub open spec fn line_ok(line: Seq<u8>) -> bool {
    match tag_of(line) {
        Some(Tag::Polyline) => vertices(payload(line)) is Some,
        Some(Tag::Stars) => vertices(payload(line)) is Some,
        Some(Tag::Spawn) => vertex(payload(line)) is Some,
        None => true,
    }
}

/// The level after one more readable line: a polyline is appended to the
/// scene, stars are appended to the stars, a spawn point replaces the one
/// before; a line with an unknown tag changes nothing.
pub open spec fn with_line(level: LevelView, line: Seq<u8>) -> LevelView {
    match tag_of(line) {
        Some(Tag::Polyline) => LevelView {
            polylines: level.polylines.push(vertices(payload(line))->0),
            ..level
        },
        Some(Tag::Stars) => LevelView {
            stars: level.stars + vertices(payload(line))->0,
            ..level
        },
        Some(Tag::Spawn) => LevelView { player: vertex(payload(line))->0, ..level },
        None => level,
    }
}

/// The level before any line: the player at the origin, no scene, no stars.
pub open spec fn blank_level() -> LevelView {
    LevelView { player: Point { x: 0, y: 0 }, polylines: Seq::empty(), stars: Seq::empty() }
}

/// The level written by the first `n` lines.
pub open spec fn level_after(all: Seq<Seq<u8>>, n: int) -> LevelView
    decreases n,
{
    if n <= 0 {
        blank_level()
    } else {
        with_line(level_after(all, n - 1), all[n - 1])
    }
}

/// The indices, among the first `n` lines, of those with an unknown tag.
pub open spec fn dropped_among(all: Seq<Seq<u8>>, n: int) -> Seq<usize>
    decreases n,
{
    if n <= 0 {
        Seq::empty()
    } else if tag_of(all[n - 1]) is None {
        dropped_among(all, n - 1).push((n - 1) as usize)
    } else {
        dropped_among(all, n - 1)
    }
}

/// Line `i` cannot be read and every line before it can.
pub open spec fn first_bad_line(all: Seq<Seq<u8>>, i: int) -> bool {
    &&& 0 <= i < all.len()
    &&& !line_ok(all[i])
    &&& forall|j: int| 0 <= j < i ==> line_ok(#[trigger] all[j])
}

/// Whether every line of a text can be read.
pub open spec fn readable(text: Seq<u8>) -> bool {
    forall|i: int| 0 <= i < lines(text).len() ==> line_ok(#[trigger] lines(text)[i])
}

/// The level a readable text writes.
pub open spec fn level_of(text: Seq<u8>) -> LevelView {
    level_after(lines(text), lines(text).len() as int)
}

/// The indices of the lines of a text that are skipped for their tag.
pub open spec fn dropped_lines(text: Seq<u8>) -> Seq<usize> {
    dropped_among(lines(text), lines(text).len() as int)
}

/// What reading a level text gives: the level its lines write and the lines
/// skipped, when every line can be read; otherwise the first line that
/// cannot.
pub open spec fn reads_as(text: Seq<u8>, result: Result<Parsed, ParseError>) -> bool {
    match result {
        Ok(parsed) => {
            &&& readable(text)
            &&& parsed.level@ == level_of(text)
            &&& parsed.dropped@ == dropped_lines(text)
        },
        Err(error) => first_bad_line(lines(text), error.line as int),
    }
}

/// Reads the tag of a line.
pub fn read_tag(line: &[u8]) -> (tag: Option<Tag>)
    ensures
        tag == tag_of(line@),
{
    if line.len() >= 2 && line[1] == SPACE {
        if line[0] == TAG_POLYLINE {
            Some(Tag::Polyline)
        } else if line[0] == TAG_STARS {
            Some(Tag::Stars)
        } else if line[0] == TAG_SPAWN {
            Some(Tag::Spawn)
        } else {
            None
        }
    } else {
        None
    }
}

/// Reads one vertex `x,y`.
pub fn parse_vertex(field: &[u8]) -> (point: Option<Point>)
    ensures
        point == vertex(field@),
{
    let comma = find_byte(field, COMMA);
    if comma >= field.len() {
        return None;
    }
    let rest = slice_subrange(field, comma + 1, field.len());
    let end = find_byte(rest, COMMA);
    let x = parse_coordinate(slice_subrange(field, 0, comma));
    let y = parse_coordinate(slice_subrange(rest, 0, end));
    match (x, y) {
        (Some(x), Some(y)) => Some(Point { x, y }),
        _ => None,
    }
}

/// Reads a payload of vertices separated by single spaces.
pub fn parse_vertices(payload: &[u8]) -> (points: Option<Vec<Point>>)
    ensures
        points is Some == vertices(payload@) is Some,
        points is Some ==> points->0@ == vertices(payload@)->0,
{
    let ghost fields = split(payload@, SPACE);
    let mut points: Vec<Point> = Vec::new();
    let mut pos: usize = 0;
    let mut done = false;
    assert(payload@.subrange(0, payload.len() as int) == payload@);
    assert(fields.subrange(0, fields.len() as int) == fields);
    while !done
        invariant
            pos <= payload.len(),
            fields == split(payload@, SPACE),
            points.len() <= fields.len(),
            !done ==> fields.subrange(points.len() as int, fields.len() as int) == split(
                payload@.subrange(pos as int, payload.len() as int),
                SPACE,
            ),
            done ==> points.len() == fields.len(),
            forall|j: int| 0 <= j < points.len() ==> vertex(#[trigger] fields[j]) == Some(points@[j]),
        decreases payload.len() - pos + (if done { 0int } else { 1int }),
    {
        let rest = slice_subrange(payload, pos, payload.len());
        let space = find_byte(rest, SPACE);
        let field = slice_subrange(rest, 0, space);
        let ghost k = points.len() as int;
        proof {
            let tail = fields.subrange(k, fields.len() as int);
            assert(tail == split(rest@, SPACE));
            if space < rest.len() {
                assert(tail == seq![field@] + split(
                    rest@.subrange(space + 1, rest.len() as int),
                    SPACE,
                ));
                assert(rest@.subrange(space + 1, rest.len() as int) == payload@.subrange(
                    pos + space + 1,
                    payload.len() as int,
                ));
                assert(fields.subrange(k + 1, fields.len() as int) == tail.subrange(
                    1,
                    tail.len() as int,
                ));
                assert(tail.subrange(1, tail.len() as int) == split(
                    rest@.subrange(space + 1, rest.len() as int),
                    SPACE,
                ));
            } else {
                assert(field@ == rest@);
                assert(tail == seq![rest@]);
                assert(tail.len() == 1);
            }
            assert(tail[0] == field@);
            assert(tail[0] == fields[k]);
        }
        match parse_vertex(field) {
            Some(point) => {
                points.push(point);
            },
            None => {
                assert(vertex(fields[k]) is None);
                return None;
            },
        }
        if space < rest.len() {
            pos = pos + space + 1;
        } else {
            done = true;
        }
    }
    assert(points@ == Seq::new(fields.len(), |i: int| vertex(fields[i])->0));
    Some(points)
}

/// Reads a level from the bytes of its text.
pub fn parse_bytes(text: &[u8]) -> (result: Result<Parsed, ParseError>)
    ensures
        reads_as(text@, result),
{
    let ghost all = lines(text@);
    let mut level = Level { player: Point::origin(), polylines: Vec::new(), stars: Vec::new() };
    let mut dropped: Vec<usize> = Vec::new();
    let mut pos: usize = 0;
    let mut k: usize = 0;
    assert(text@.subrange(0, text.len() as int) == text@);
    assert(all.subrange(0, all.len() as int) == all);
    assert(level@.polylines =~= Seq::<Seq<Point>>::empty());
    assert(level@ == blank_level());
    while pos < text.len()
        invariant
            pos <= text.len(),
            k <= pos,
            k <= all.len(),
            all == lines(text@),
            all.subrange(k as int, all.len() as int) == lines(
                text@.subrange(pos as int, text.len() as int),
            ),
            forall|j: int| 0 <= j < k ==> line_ok(#[trigger] all[j]),
            level@ == level_after(all, k as int),
            dropped@ == dropped_among(all, k as int),
        decreases text.len() - pos,
    {
        let rest = slice_subrange(text, pos, text.len());
        let feed = find_byte(rest, LINE_FEED);
        let line = if feed < rest.len() {
            strip_return(slice_subrange(rest, 0, feed))
        } else {
            rest
        };
        let next = if feed < rest.len() {
            pos + feed + 1
        } else {
            text.len()
        };
        proof {
            let tail = all.subrange(k as int, all.len() as int);
            assert(tail == lines(rest@));
            if feed < rest.len() {
                assert(tail == seq![line@] + lines(rest@.subrange(feed + 1, rest.len() as int)));
                assert(rest@.subrange(feed + 1, rest.len() as int) == text@.subrange(
                    next as int,
                    text.len() as int,
                ));
                assert(tail.subrange(1, tail.len() as int) == lines(
                    rest@.subrange(feed + 1, rest.len() as int),
                ));
            } else {
                assert(tail == seq![rest@]);
                assert(text@.subrange(next as int, text.len() as int) == Seq::<u8>::empty());
                assert(tail.subrange(1, tail.len() as int) == lines(Seq::<u8>::empty()));
            }
            assert(tail[0] == line@);
            assert(all[k as int] == line@);
            assert(all.subrange(k + 1, all.len() as int) == tail.subrange(1, tail.len() as int));
        }
        let ghost before = level@;
        match read_tag(line) {
            Some(Tag::Polyline) => {
                match parse_vertices(slice_subrange(line, 2, line.len())) {
                    Some(points) => {
                        level.polylines.push(points);
                        assert(level@.polylines == before.polylines.push(points@));
                    },
                    None => {
                        return Err(ParseError { line: k });
                    },
                }
            },
            Some(Tag::Stars) => {
                match parse_vertices(slice_subrange(line, 2, line.len())) {
                    Some(points) => {
                        append_points(&mut level.stars, &points);
                    },
                    None => {
                        return Err(ParseError { line: k });
                    },
                }
            },
            Some(Tag::Spawn) => {
                match parse_vertex(slice_subrange(line, 2, line.len())) {
                    Some(point) => {
                        level.player = point;
                    },
                    None => {
                        return Err(ParseError { line: k });
                    },
                }
            },
            None => {
                dropped.push(k);
            },
        }
        assert(level@ == with_line(before, line@));
        k += 1;
        pos = next;
    }
    proof {
        assert(text@.subrange(pos as int, text.len() as int) == Seq::<u8>::empty());
        assert(all.subrange(k as int, all.len() as int).len() == 0);
    }
    Ok(Parsed { level, dropped })
}

/// Takes one trailing carriage return off a line.
pub fn strip_return(line: &[u8]) -> (stripped: &[u8])
    ensures
        stripped@ == strip_cr(line@),
{
    if line.len() > 0 && line[line.len() - 1] == CARRIAGE_RETURN {
        slice_subrange(line, 0, line.len() - 1)
    } else {
        line
    }
}

/// Appends copies of `more` to `points`.
pub fn append_points(points: &mut Vec<Point>, more: &Vec<Point>)
    ensures
        final(points)@ == old(points)@ + more@,
{
    let mut i: usize = 0;
    while i < more.len()
        invariant
            i <= more.len(),
            points@ == old(points)@ + more@.subrange(0, i as int),
        decreases more.len() - i,
    {
        points.push(more[i]);
        assert(points@ == old(points)@ + more@.subrange(0, i + 1));
        i += 1;
    }
    assert(more@.subrange(0, more.len() as int) == more@);
}

} // verus!
