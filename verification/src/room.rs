//! The tile layout of a room: a 32 x 18 grid stored row by row, row 0 at the top.
use vstd::prelude::*;

verus! {

/// Tiles per row.
pub const ROOM_WIDTH: usize = 32;

/// Rows per room.
pub const ROOM_HEIGHT: usize = 18;

/// Tiles per room.
pub const ROOM_TILES: usize = 576;

/// The tile value of a solid wall.
pub const WALL: u8 = 4;

/// The levels of the doors on the four sides of a room, where there is one.
#[derive(PartialEq, Eq, Structural, Clone, Copy, Debug)]
pub struct DoorLevels {
    pub left: Option<u8>,
    pub right: Option<u8>,
    pub top: Option<u8>,
    pub bottom: Option<u8>,
}

/// Row of the tile at index `i`.
pub open spec fn tile_row(i: int) -> int {
    i / 32
}

/// Column of the tile at index `i`.
pub open spec fn tile_col(i: int) -> int {
    i % 32
}

/// A room without doors is walled on its four borders and empty inside.
pub open spec fn empty_tile(i: int) -> u8 {
    let row = tile_row(i);
    let col = tile_col(i);
    if row == 0 || row == 17 || col == 0 || col == 31 {
        4
    } else {
        0
    }
}

/// The ledges that let the player climb up to a door in the ceiling.
pub open spec fn is_ledge(row: int, col: int) -> bool {
    ||| (row == 1 && col == 13)
    ||| (row == 2 && col == 14)
    ||| (row == 5 && 13 <= col <= 16)
    ||| (row == 9 && 9 <= col <= 11)
    ||| (row == 13 && 5 <= col <= 7)
}

/// The tile at index `i` of a room with the doors `d`: a left or right door fills three tiles
/// of the side wall (rows 14 to 16), a top or bottom door four tiles of the ceiling or floor
/// (columns 14 to 17) with the door's level; a top door also brings the ledges below it.
pub open spec fn room_tile(d: DoorLevels, i: int) -> u8 {
    let row = tile_row(i);
    let col = tile_col(i);
    if d.left is Some && col == 0 && 14 <= row <= 16 {
        d.left->0
    } else if d.right is Some && col == 31 && 14 <= row <= 16 {
        d.right->0
    } else if d.top is Some && row == 0 && 14 <= col <= 17 {
        d.top->0
    } else if d.top is Some && is_ledge(row, col) {
        4
    } else if d.bottom is Some && row == 17 && 14 <= col <= 17 {
        d.bottom->0
    } else {
        empty_tile(i)
    }
}

/// All tiles of a room with the doors `d`.
pub open spec fn room_layout(d: DoorLevels) -> Seq<u8> {
    Seq::new(ROOM_TILES as nat, |i: int| room_tile(d, i))
}

/// No doors at all.
pub open spec fn no_doors() -> DoorLevels {
    DoorLevels { left: None, right: None, top: None, bottom: None }
}

fn tile_at(d: DoorLevels, i: usize) -> (t: u8)
    requires
        i < ROOM_TILES,
    ensures
        t == room_tile(d, i as int),
{
    let row: usize = i / ROOM_WIDTH;
    let col: usize = i % ROOM_WIDTH;
    if d.left.is_some() && col == 0 && 14 <= row && row <= 16 {
        d.left.unwrap()
    } else if d.right.is_some() && col == 31 && 14 <= row && row <= 16 {
        d.right.unwrap()
    } else if d.top.is_some() && row == 0 && 14 <= col && col <= 17 {
        d.top.unwrap()
    } else if d.top.is_some() && ((row == 1 && col == 13) || (row == 2 && col == 14) || (row == 5
        && 13 <= col && col <= 16) || (row == 9 && 9 <= col && col <= 11) || (row == 13 && 5 <= col
        && col <= 7)) {
        WALL
    } else if d.bottom.is_some() && row == 17 && 14 <= col && col <= 17 {
        d.bottom.unwrap()
    } else if row == 0 || row == 17 || col == 0 || col == 31 {
        WALL
    } else {
        0
    }
}

/// The tiles of a room with the doors `d`.
pub fn build_room(d: DoorLevels) -> (tiles: Vec<u8>)
    ensures
        tiles@ == room_layout(d),
{
    let mut tiles: Vec<u8> = Vec::new();
    let mut i: usize = 0;
    while i < ROOM_TILES
        invariant
            i <= ROOM_TILES,
            tiles@.len() == i,
            forall|j: int| 0 <= j < i ==> tiles@[j] == room_tile(d, j),
        decreases ROOM_TILES - i,
    {
        let t = tile_at(d, i);
        tiles.push(t);
        i = i + 1;
    }
    assert(tiles@ =~= room_layout(d));
    tiles
}

/// The room without doors: walls on the border, empty inside.
pub fn empty_room() -> (tiles: Vec<u8>)
    ensures
        tiles@ == room_layout(no_doors()),
        forall|i: int| 0 <= i < ROOM_TILES ==> #[trigger] tiles@[i] == empty_tile(i),
{
    build_room(DoorLevels { left: None, right: None, top: None, bottom: None })
}


/// The tile indices a present door (or the ledges of a present top door) may change:
/// left door 448, 480, 512 (column 0, rows 14 to 16); right door 479, 511, 543 (column 31,
/// rows 14 to 16); top door 14 to 17 (row 0) and the ledges 45, 78, 173 to 176, 297 to 299,
/// 421 to 423; bottom door 558 to 561 (row 17).
pub open spec fn changed_by_doors(d: DoorLevels, i: int) -> bool {
    ||| (d.left is Some && (i == 448 || i == 480 || i == 512))
    ||| (d.right is Some && (i == 479 || i == 511 || i == 543))
    ||| (d.top is Some && (14 <= i <= 17 || i == 45 || i == 78 || 173 <= i <= 176 || 297 <= i
        <= 299 || 421 <= i <= 423))
    ||| (d.bottom is Some && 558 <= i <= 561)
}

/// Doors change a room only where they are cut: every other tile is a wall (4) on the border
/// (the first and last rows, the first and last columns) and empty (0) inside.
pub proof fn lemma_room_unchanged_outside_doors(d: DoorLevels, i: int)
    requires
        0 <= i < ROOM_TILES,
        !changed_by_doors(d, i),
    ensures
        room_layout(d).len() == 576,
        room_layout(d)[i] == (if i < 32 || i >= 544 || i % 32 == 0 || i % 32 == 31 { 4u8 } else { 0u8 }),
{
    assert(room_layout(d)[i] == room_tile(d, i));
    let row = i / 32;
    let col = i % 32;
    assert(i == 32 * row + col && 0 <= col < 32 && 0 <= row < 18);
    assert((i < 32) == (row == 0));
    assert((i >= 544) == (row == 17));
}

/// A present door is cut with its level: three tiles of the side wall (rows 14 to 16) for a
/// left or right door, four tiles of the ceiling or floor (columns 14 to 17) for a top or bottom
/// door; a top door also brings walls as ledges at 45, 78, 173 to 176, 297 to 299 and 421 to 423.
pub proof fn lemma_room_door_cuts(d: DoorLevels)
    ensures
        room_layout(d).len() == 576,
        d.left matches Some(l) ==> room_layout(d)[448] == l && room_layout(d)[480] == l
            && room_layout(d)[512] == l,
        d.right matches Some(l) ==> room_layout(d)[479] == l && room_layout(d)[511] == l
            && room_layout(d)[543] == l,
        d.top matches Some(l) ==> forall|i: int| 14 <= i <= 17 ==> #[trigger] room_layout(d)[i] == l,
        d.top is Some ==> {
            &&& room_layout(d)[45] == 4
            &&& room_layout(d)[78] == 4
            &&& forall|i: int|
                (173 <= i <= 176 || 297 <= i <= 299 || 421 <= i <= 423) ==> #[trigger] room_layout(d)[i] == 4
        },
        d.bottom matches Some(l) ==> forall|i: int| 558 <= i <= 561 ==> #[trigger] room_layout(d)[i] == l,
{
    assert(room_layout(d)[448] == room_tile(d, 448));
    assert(room_layout(d)[480] == room_tile(d, 480));
    assert(room_layout(d)[512] == room_tile(d, 512));
    assert(room_layout(d)[479] == room_tile(d, 479));
    assert(room_layout(d)[511] == room_tile(d, 511));
    assert(room_layout(d)[543] == room_tile(d, 543));
    assert(room_layout(d)[45] == room_tile(d, 45));
    assert(room_layout(d)[78] == room_tile(d, 78));
    assert forall|i: int| 14 <= i <= 17 implies room_layout(d)[i] == room_tile(d, i) && tile_row(i) == 0
        && tile_col(i) == i by {}
    assert forall|i: int| 558 <= i <= 561 implies room_layout(d)[i] == room_tile(d, i) && tile_row(i)
        == 17 && tile_col(i) == i - 544 by {}
    assert forall|i: int| 173 <= i <= 176 implies room_layout(d)[i] == room_tile(d, i) && tile_row(i)
        == 5 && tile_col(i) == i - 160 by {}
    assert forall|i: int| 297 <= i <= 299 implies room_layout(d)[i] == room_tile(d, i) && tile_row(i)
        == 9 && tile_col(i) == i - 288 by {}
    assert forall|i: int| 421 <= i <= 423 implies room_layout(d)[i] == room_tile(d, i) && tile_row(i)
        == 13 && tile_col(i) == i - 416 by {}
}

} // verus!
