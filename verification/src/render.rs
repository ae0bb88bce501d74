//! What to draw: rectangles on the tile grid with their colours. Coordinates are in
//! twentieths of a tile, `x` to the right and `y` upwards from the bottom left of a room.
use vstd::prelude::*;
use crate::map::{Orb, Pos, above, right_of, within};
use crate::room::ROOM_TILES;

verus! {

/// Units per tile in the coordinates of a [`GridRect`].
pub const UNITS_PER_TILE: i64 = 20;

/// The palette.
#[derive(PartialEq, Eq, Structural, Clone, Copy, Debug)]
pub enum Color {
    DebugPink,
    Black,
    DarkPurple,
    DarkBlue,
    DarkGray,
    Gray,
    MediumBlue,
    LightBlue,
    White,
    LightSand,
    MediumSand,
    DarkSand,
    Rock,
    DarkRock,
    Red,
    Green,
    Blue,
}

/// A rectangle given by its centre and its half width and half height, in twentieths of a tile.
#[derive(PartialEq, Eq, Structural, Clone, Copy, Debug)]
pub struct GridRect {
    pub center_x: i64,
    pub center_y: i64,
    pub extent_x: i64,
    pub extent_y: i64,
    pub color: Color,
}

/// The colour of a non-empty tile: 1 red, 2 green, 3 blue, 4 rock, 5 black, other values pink.
pub open spec fn tile_color_spec(tile: u8) -> Color {
    if tile == 1 {
        Color::Red
    } else if tile == 2 {
        Color::Green
    } else if tile == 3 {
        Color::Blue
    } else if tile == 4 {
        Color::Rock
    } else if tile == 5 {
        Color::Black
    } else {
        Color::DebugPink
    }
}

/// The colour of a non-empty tile.
pub fn tile_color(tile: u8) -> (c: Color)
    ensures
        c == tile_color_spec(tile),
{
    if tile == 1 {
        Color::Red
    } else if tile == 2 {
        Color::Green
    } else if tile == 3 {
        Color::Blue
    } else if tile == 4 {
        Color::Rock
    } else if tile == 5 {
        Color::Black
    } else {
        Color::DebugPink
    }
}

/// The colour of an orb of the given level: 1 red, 2 green, 3 blue, others black.
pub open spec fn orb_color_spec(level: u8) -> Color {
    if level == 1 {
        Color::Red
    } else if level == 2 {
        Color::Green
    } else if level == 3 {
        Color::Blue
    } else {
        Color::Black
    }
}

/// The colour of an orb of the given level.
pub fn orb_color(level: u8) -> (c: Color)
    ensures
        c == orb_color_spec(level),
{
    if level == 1 {
        Color::Red
    } else if level == 2 {
        Color::Green
    } else if level == 3 {
        Color::Blue
    } else {
        Color::Black
    }
}

/// The colour of a door on the map: 0 rock, 1 red, 2 green, 3 blue, others black.
pub open spec fn door_color_spec(level: u8) -> Color {
    if level == 0 {
        Color::Rock
    } else if level == 1 {
        Color::Red
    } else if level == 2 {
        Color::Green
    } else if level == 3 {
        Color::Blue
    } else {
        Color::Black
    }
}

/// The colour of a door on the map.
pub fn door_color(level: u8) -> (c: Color)
    ensures
        c == door_color_spec(level),
{
    if level == 0 {
        Color::Rock
    } else if level == 1 {
        Color::Red
    } else if level == 2 {
        Color::Green
    } else if level == 3 {
        Color::Blue
    } else {
        Color::Black
    }
}

/// The square of the tile at index `i` (column `i % 32`, row `i / 32` counted from the top).
pub open spec fn tile_rect_spec(i: int, tile: u8) -> GridRect {
    GridRect {
        center_x: (20 * (i % 32) + 10) as i64,
        center_y: (360 - (20 * (i / 32) + 10)) as i64,
        extent_x: 10,
        extent_y: 10,
        color: tile_color_spec(tile),
    }
}

/// The squares of the non-empty tiles, in the order the tiles are stored.
pub open spec fn tile_rects_spec(tiles: Seq<u8>) -> Seq<GridRect>
    decreases tiles.len(),
{
    if tiles.len() == 0 {
        Seq::empty()
    } else {
        let rest = tile_rects_spec(tiles.drop_last());
        if tiles.last() > 0 {
            rest.push(tile_rect_spec(tiles.len() - 1, tiles.last()))
        } else {
            rest
        }
    }
}

/// The squares to draw for the tiles of a room.
pub fn tile_rects(tiles: &Vec<u8>) -> (v: Vec<GridRect>)
    requires
        tiles@.len() <= ROOM_TILES,
    ensures
        v@ == tile_rects_spec(tiles@),
{
    let mut v: Vec<GridRect> = Vec::new();
    let mut i: usize = 0;
    while i < tiles.len()
        invariant
            i <= tiles@.len() <= ROOM_TILES,
            v@ == tile_rects_spec(tiles@.take(i as int)),
        decreases tiles@.len() - i,
    {
        let tile = tiles[i];
        if tile > 0 {
            let col: i64 = (i % 32) as i64;
            let row: i64 = (i / 32) as i64;
            v.push(
                GridRect {
                    center_x: 20 * col + 10,
                    center_y: 360 - (20 * row + 10),
                    extent_x: 10,
                    extent_y: 10,
                    color: tile_color(tile),
                },
            );
        }
        proof {
            assert(tiles@.take(i + 1).drop_last() =~= tiles@.take(i as int));
        }
        i = i + 1;
    }
    proof {
        assert(tiles@.take(tiles@.len() as int) =~= tiles@);
    }
    v
}

/// The square of an orb, centred on its place.
pub open spec fn orb_rect_spec(orb: Orb) -> GridRect {
    GridRect {
        center_x: (20 * orb.x) as i64,
        center_y: (20 * orb.y) as i64,
        extent_x: 10,
        extent_y: 10,
        color: orb_color_spec(orb.level),
    }
}

/// The squares to draw for the orbs of a room, in order.
pub fn orb_rects(orbs: &Vec<Orb>) -> (v: Vec<GridRect>)
    ensures
        v@ == orbs@.map_values(|o: Orb| orb_rect_spec(o)),
{
    let mut v: Vec<GridRect> = Vec::new();
    let mut i: usize = 0;
    while i < orbs.len()
        invariant
            i <= orbs@.len(),
            v@ == orbs@.take(i as int).map_values(|o: Orb| orb_rect_spec(o)),
        decreases orbs@.len() - i,
    {
        let o = orbs[i];
        v.push(
            GridRect {
                center_x: 20 * (o.x as i64),
                center_y: 20 * (o.y as i64),
                extent_x: 10,
                extent_y: 10,
                color: orb_color(o.level),
            },
        );
        proof {
            assert(v@ =~= orbs@.take(i + 1).map_values(|o: Orb| orb_rect_spec(o)));
        }
        i = i + 1;
    }
    proof {
        assert(orbs@.take(orbs@.len() as int) =~= orbs@);
    }
    v
}

/// The rectangles of the player, centred relative to the player's feet: the body, one badge
/// above the head for each power level from 1 to 3 (red, green, blue, each narrower than the
/// one below), and a bar at the feet, dark blue when standing on ground, pink otherwise.
pub open spec fn player_rects_spec(can_pass: u8, grounded: bool) -> Seq<GridRect> {
    let body = seq![GridRect { center_x: 0, center_y: 20, extent_x: 10, extent_y: 20, color: Color::LightBlue }];
    let red = if can_pass > 0 {
        seq![GridRect { center_x: 0, center_y: 40, extent_x: 8, extent_y: 5, color: Color::Red }]
    } else {
        Seq::empty()
    };
    let green = if can_pass > 1 {
        seq![GridRect { center_x: 0, center_y: 45, extent_x: 6, extent_y: 5, color: Color::Green }]
    } else {
        Seq::empty()
    };
    let blue = if can_pass > 2 {
        seq![GridRect { center_x: 0, center_y: 50, extent_x: 4, extent_y: 5, color: Color::Blue }]
    } else {
        Seq::empty()
    };
    let feet = seq![
        GridRect {
            center_x: 0,
            center_y: 0,
            extent_x: 8,
            extent_y: 2,
            color: if grounded { Color::DarkBlue } else { Color::DebugPink },
        },
    ];
    body + red + green + blue + feet
}

/// The rectangles to draw for the player, relative to the player's feet.
pub fn player_rects(can_pass: u8, grounded: bool) -> (v: Vec<GridRect>)
    ensures
        v@ == player_rects_spec(can_pass, grounded),
{
    let mut v: Vec<GridRect> = Vec::new();
    v.push(GridRect { center_x: 0, center_y: 20, extent_x: 10, extent_y: 20, color: Color::LightBlue });
    if can_pass > 0 {
        v.push(GridRect { center_x: 0, center_y: 40, extent_x: 8, extent_y: 5, color: Color::Red });
    }
    if can_pass > 1 {
        v.push(GridRect { center_x: 0, center_y: 45, extent_x: 6, extent_y: 5, color: Color::Green });
    }
    if can_pass > 2 {
        v.push(GridRect { center_x: 0, center_y: 50, extent_x: 4, extent_y: 5, color: Color::Blue });
    }
    let ground = if grounded { Color::DarkBlue } else { Color::DebugPink };
    v.push(GridRect { center_x: 0, center_y: 0, extent_x: 8, extent_y: 2, color: ground });
    proof {
        assert(v@ =~= player_rects_spec(can_pass, grounded));
    }
    v
}

/// On the map, a room is a pink square with a grey inside, centred at `(x + 16, y + 9)`;
/// the player's room has a light blue mark in the middle.
pub open spec fn room_marks_spec(p: Pos, player_room: Pos) -> Seq<GridRect> {
    let cx = (20 * (p.x + 16)) as i64;
    let cy = (20 * (p.y + 9)) as i64;
    seq![
        GridRect { center_x: cx, center_y: cy, extent_x: 10, extent_y: 10, color: Color::DebugPink },
        GridRect { center_x: cx, center_y: cy, extent_x: 8, extent_y: 8, color: Color::Gray },
    ] + if p == player_room {
        seq![GridRect { center_x: cx, center_y: cy, extent_x: 5, extent_y: 5, color: Color::LightBlue }]
    } else {
        Seq::empty()
    }
}

/// On the map, a door is a small square in its colour, half way between the two rooms
/// whose key names them (`a` the lower or left one).
pub open spec fn door_mark_spec(a: Pos, b: Pos, level: u8) -> GridRect {
    if a.x == b.x {
        GridRect {
            center_x: (20 * (a.x + 16)) as i64,
            center_y: (20 * (a.y + 9) + 10) as i64,
            extent_x: 4,
            extent_y: 4,
            color: door_color_spec(level),
        }
    } else {
        GridRect {
            center_x: (20 * (a.x + 16) + 10) as i64,
            center_y: (20 * (a.y + 9)) as i64,
            extent_x: 4,
            extent_y: 4,
            color: door_color_spec(level),
        }
    }
}

/// The marks of the rooms, in order.
pub open spec fn rooms_marks_spec(rooms: Seq<Pos>, player_room: Pos) -> Seq<GridRect>
    decreases rooms.len(),
{
    if rooms.len() == 0 {
        Seq::empty()
    } else {
        rooms_marks_spec(rooms.drop_last(), player_room) + room_marks_spec(rooms.last(), player_room)
    }
}

/// The marks of the doors, in order.
pub open spec fn doors_marks_spec(doors: Seq<((Pos, Pos), u8)>) -> Seq<GridRect>
    decreases doors.len(),
{
    if doors.len() == 0 {
        Seq::empty()
    } else {
        doors_marks_spec(doors.drop_last()).push(
            door_mark_spec(doors.last().0.0, doors.last().0.1, doors.last().1),
        )
    }
}

/// What the map view shows: every room, then every door.
pub open spec fn map_rects_spec(rooms: Seq<Pos>, doors: Seq<((Pos, Pos), u8)>, player_room: Pos) -> Seq<GridRect> {
    rooms_marks_spec(rooms, player_room) + doors_marks_spec(doors)
}

/// The rectangles of the map view for the rooms and doors given, with the player in
/// `player_room`.
pub fn map_rects(rooms: &Vec<Pos>, doors: &Vec<((Pos, Pos), u8)>, player_room: Pos) -> (v: Vec<GridRect>)
    ensures
        v@ == map_rects_spec(rooms@, doors@, player_room),
{
    let mut v: Vec<GridRect> = Vec::new();
    let mut i: usize = 0;
    while i < rooms.len()
        invariant
            i <= rooms@.len(),
            v@ == rooms_marks_spec(rooms@.take(i as int), player_room),
        decreases rooms@.len() - i,
    {
        let p = rooms[i];
        let cx: i64 = 20 * (p.x as i64 + 16);
        let cy: i64 = 20 * (p.y as i64 + 9);
        v.push(GridRect { center_x: cx, center_y: cy, extent_x: 10, extent_y: 10, color: Color::DebugPink });
        v.push(GridRect { center_x: cx, center_y: cy, extent_x: 8, extent_y: 8, color: Color::Gray });
        if p == player_room {
            v.push(GridRect { center_x: cx, center_y: cy, extent_x: 5, extent_y: 5, color: Color::LightBlue });
        }
        proof {
            assert(rooms@.take(i + 1).drop_last() =~= rooms@.take(i as int));
            assert(v@ =~= rooms_marks_spec(rooms@.take(i + 1), player_room));
        }
        i = i + 1;
    }
    proof {
        assert(rooms@.take(rooms@.len() as int) =~= rooms@);
    }
    let ghost room_part = v@;
    let mut j: usize = 0;
    while j < doors.len()
        invariant
            j <= doors@.len(),
            v@ == room_part + doors_marks_spec(doors@.take(j as int)),
        decreases doors@.len() - j,
    {
        let entry = doors[j];
        let a = (entry.0).0;
        let b = (entry.0).1;
        let color = door_color(entry.1);
        if a.x == b.x {
            v.push(
                GridRect {
                    center_x: 20 * (a.x as i64 + 16),
                    center_y: 20 * (a.y as i64 + 9) + 10,
                    extent_x: 4,
                    extent_y: 4,
                    color,
                },
            );
        } else {
            v.push(
                GridRect {
                    center_x: 20 * (a.x as i64 + 16) + 10,
                    center_y: 20 * (a.y as i64 + 9),
                    extent_x: 4,
                    extent_y: 4,
                    color,
                },
            );
        }
        proof {
            assert(doors@.take(j + 1).drop_last() =~= doors@.take(j as int));
            assert(v@ =~= room_part + doors_marks_spec(doors@.take(j + 1)));
        }
        j = j + 1;
    }
    proof {
        assert(doors@.take(doors@.len() as int) =~= doors@);
    }
    v
}


/// How many tiles are not empty.
pub open spec fn nonzero_count(tiles: Seq<u8>) -> nat
    decreases tiles.len(),
{
    if tiles.len() == 0 {
        0
    } else {
        nonzero_count(tiles.drop_last()) + if tiles.last() != 0 { 1nat } else { 0nat }
    }
}

/// The square drawn for tile `i` of value `t`: centred in its cell (column `i % 32`, row
/// `i / 32` from the top), half a tile wide each way, in the tile's colour.
pub open spec fn square_at(i: int, t: u8) -> GridRect {
    GridRect {
        center_x: (20 * (i % 32) + 10) as i64,
        center_y: (360 - (20 * (i / 32) + 10)) as i64,
        extent_x: 10,
        extent_y: 10,
        color: tile_color_spec(t),
    }
}

/// A room is drawn with exactly one square per non-empty tile: as many squares as non-empty
/// tiles, the square of every non-empty tile among them, and no square for anything else.
pub proof fn lemma_tile_rects_one_per_tile(tiles: Seq<u8>)
    requires
        tiles.len() <= ROOM_TILES,
    ensures
        tile_rects_spec(tiles).len() == nonzero_count(tiles),
        forall|i: int|
            0 <= i < tiles.len() && tiles[i] > 0 ==> tile_rects_spec(tiles).contains(
                #[trigger] square_at(i, tiles[i]),
            ),
        forall|k: int|
            0 <= k < tile_rects_spec(tiles).len() ==> exists|i: int|
                0 <= i < tiles.len() && tiles[i] > 0 && #[trigger] tile_rects_spec(tiles)[k]
                    == square_at(i, tiles[i]),
    decreases tiles.len(),
{
    if tiles.len() > 0 {
        let t = tiles.drop_last();
        let n = tiles.len() - 1;
        lemma_tile_rects_one_per_tile(t);
        let rest = tile_rects_spec(t);
        let full = tile_rects_spec(tiles);
        assert(tile_rect_spec(n, tiles[n]) == square_at(n, tiles[n]));
        assert forall|i: int| 0 <= i < tiles.len() && tiles[i] > 0 implies full.contains(
            #[trigger] square_at(i, tiles[i]),
        ) by {
            if i == n {
                assert(full[full.len() - 1] == square_at(i, tiles[i]));
            } else {
                assert(t[i] == tiles[i]);
                assert(rest.contains(square_at(i, t[i])));
                let k = choose|k: int| 0 <= k < rest.len() && rest[k] == square_at(i, t[i]);
                assert(full[k] == rest[k]);
            }
        }
        assert forall|k: int| 0 <= k < full.len() implies exists|i: int|
            0 <= i < tiles.len() && tiles[i] > 0 && #[trigger] full[k] == square_at(i, tiles[i]) by {
            if k < rest.len() {
                assert(full[k] == rest[k]);
                let i = choose|i: int| 0 <= i < t.len() && t[i] > 0 && #[trigger] rest[k] == square_at(i, t[i]);
                assert(tiles[i] == t[i]);
            } else {
                assert(full[k] == square_at(n, tiles[n]));
            }
        }
    }
}

/// The player carries one badge per power level up to 3: red from level 1, green from level 2,
/// blue from level 3; the body comes first and the ground bar, dark blue exactly when on
/// ground, last.
pub proof fn lemma_player_badges(can_pass: u8, grounded: bool)
    ensures
        player_rects_spec(can_pass, grounded).len() == 2 + (if can_pass >= 3 { 3 } else { can_pass as int }),
        (exists|k: int| 0 <= k < player_rects_spec(can_pass, grounded).len()
            && (#[trigger] player_rects_spec(can_pass, grounded)[k]).color == Color::Red) <==> can_pass >= 1,
        (exists|k: int| 0 <= k < player_rects_spec(can_pass, grounded).len()
            && (#[trigger] player_rects_spec(can_pass, grounded)[k]).color == Color::Green) <==> can_pass >= 2,
        (exists|k: int| 0 <= k < player_rects_spec(can_pass, grounded).len()
            && (#[trigger] player_rects_spec(can_pass, grounded)[k]).color == Color::Blue) <==> can_pass >= 3,
        player_rects_spec(can_pass, grounded)[0] == (GridRect {
            center_x: 0,
            center_y: 20,
            extent_x: 10,
            extent_y: 20,
            color: Color::LightBlue,
        }),
        player_rects_spec(can_pass, grounded).last().center_y == 0,
        (player_rects_spec(can_pass, grounded).last().color == Color::DarkBlue) == grounded,
{
    let v = player_rects_spec(can_pass, grounded);
    if can_pass >= 3 {
        assert(v[1].color == Color::Red && v[2].color == Color::Green && v[3].color == Color::Blue);
    } else if can_pass == 2 {
        assert(v[1].color == Color::Red && v[2].color == Color::Green);
    } else if can_pass == 1 {
        assert(v[1].color == Color::Red);
    }
}

/// Door tiles, orbs and doors on the map share colours level by level: level 1 is red, 2 green,
/// 3 blue, three different colours; wall tiles are rock.
pub proof fn lemma_level_colors(level: u8)
    ensures
        1 <= level <= 3 ==> tile_color_spec(level) == orb_color_spec(level) && orb_color_spec(level)
            == door_color_spec(level),
        tile_color_spec(1) == Color::Red,
        tile_color_spec(2) == Color::Green,
        tile_color_spec(3) == Color::Blue,
        tile_color_spec(4) == Color::Rock,
        tile_color_spec(5) == Color::Black,
        door_color_spec(0) == Color::Rock,
        level > 3 ==> orb_color_spec(level) == Color::Black && door_color_spec(level) == Color::Black,
        level > 5 ==> tile_color_spec(level) == Color::DebugPink,
        Color::Red != Color::Green && Color::Green != Color::Blue && Color::Red != Color::Blue,
{
}

/// Each orb is drawn as one square centred on its place, half a tile wide each way, in its
/// level's colour, in the order of the orbs.
pub proof fn lemma_orb_rects_placed(orbs: Seq<Orb>, i: int)
    requires
        0 <= i < orbs.len(),
    ensures
        orbs.map_values(|o: Orb| orb_rect_spec(o)).len() == orbs.len(),
        orbs.map_values(|o: Orb| orb_rect_spec(o))[i] == (GridRect {
            center_x: (20 * orbs[i].x) as i64,
            center_y: (20 * orbs[i].y) as i64,
            extent_x: 10,
            extent_y: 10,
            color: orb_color_spec(orbs[i].level),
        }),
{
}


/// How often `p` occurs in `rooms`.
pub open spec fn occurrences(rooms: Seq<Pos>, p: Pos) -> nat
    decreases rooms.len(),
{
    if rooms.len() == 0 {
        0
    } else {
        occurrences(rooms.drop_last(), p) + if rooms.last() == p { 1nat } else { 0nat }
    }
}

/// The map view draws two squares per room, one more for the player's room, and one per door;
/// there is a light blue mark exactly when the player's room is among the rooms.
pub proof fn lemma_map_rects_count(rooms: Seq<Pos>, doors: Seq<((Pos, Pos), u8)>, player_room: Pos)
    ensures
        map_rects_spec(rooms, doors, player_room).len() == 2 * rooms.len() + occurrences(rooms, player_room)
            + doors.len(),
        (exists|k: int|
            0 <= k < rooms_marks_spec(rooms, player_room).len()
                && (#[trigger] rooms_marks_spec(rooms, player_room)[k]).color == Color::LightBlue)
            <==> rooms.contains(player_room),
    decreases rooms.len() + doors.len(),
{
    if doors.len() > 0 {
        lemma_map_rects_count(rooms, doors.drop_last(), player_room);
    } else if rooms.len() > 0 {
        let t = rooms.drop_last();
        lemma_map_rects_count(t, doors, player_room);
        let rest = rooms_marks_spec(t, player_room);
        let own = room_marks_spec(rooms.last(), player_room);
        let all = rooms_marks_spec(rooms, player_room);
        assert(all == rest + own);
        if exists|k: int| 0 <= k < all.len() && (#[trigger] all[k]).color == Color::LightBlue {
            let k = choose|k: int| 0 <= k < all.len() && (#[trigger] all[k]).color == Color::LightBlue;
            if k < rest.len() {
                assert(rest[k] == all[k]);
                let j = choose|j: int| 0 <= j < t.len() && t[j] == player_room;
                assert(rooms[j] == player_room);
            } else {
                assert(own[k - rest.len()] == all[k]);
                assert(rooms[rooms.len() - 1] == player_room);
            }
        }
        if rooms.contains(player_room) {
            let j = choose|j: int| 0 <= j < rooms.len() && rooms[j] == player_room;
            if j < t.len() {
                assert(t[j] == player_room);
                let k = choose|k: int| 0 <= k < rest.len() && (#[trigger] rest[k]).color == Color::LightBlue;
                assert(all[k] == rest[k]);
            } else {
                assert(all[rest.len() as int + 2].color == Color::LightBlue);
            }
        }
        if !rooms.contains(player_room) {
            assert forall|j: int| 0 <= j < t.len() implies t[j] != player_room by {
                assert(rooms[j] == t[j]);
            }
            assert(rooms[rooms.len() - 1] != player_room);
        }
    }
}

/// On the map, a door is drawn half way between the centres of the two rooms it joins, as a
/// small square in the door's colour.
pub proof fn lemma_door_mark_midway(a: Pos, b: Pos, level: u8)
    requires
        within(a, 1000),
        b == right_of(a) || b == above(a),
    ensures
        2 * door_mark_spec(a, b, level).center_x == 20 * (a.x + 16) + 20 * (b.x + 16),
        2 * door_mark_spec(a, b, level).center_y == 20 * (a.y + 9) + 20 * (b.y + 9),
        door_mark_spec(a, b, level).extent_x == 4,
        door_mark_spec(a, b, level).extent_y == 4,
        door_mark_spec(a, b, level).color == door_color_spec(level),
{
}

} // verus!
