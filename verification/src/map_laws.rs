//! What every generated map satisfies, whatever the walks.
use vstd::prelude::*;
use crate::map::{
    Move, Orb, Pos, STEPS, WALKS, above, below, edge, is_door, is_room, lemma_walk_within, origin,
    right_of, left_of, step, walk_at, within, world_doors, world_orbs, world_rooms, orb_of_level,
    orb_plan, orbs_in_room, crosses, crossed_in, doors_around, Exit, beyond, roll_move,
};
use crate::room::{room_tile, tile_row, tile_col};
use crate::game::is_solid;

verus! {

/// A path through the map that starts at the origin and goes from room to room only through
/// doors that do not block a player of level `can_pass` (doors of level at most `can_pass`).
pub open spec fn door_path(doors: Map<(Pos, Pos), u8>, can_pass: u8, path: Seq<Pos>) -> bool {
    &&& path.len() >= 1
    &&& path[0] == origin()
    &&& forall|i: int|
        0 <= i < path.len() - 1 ==> {
            &&& #[trigger] doors.contains_key(edge(path[i], path[i + 1]))
            &&& !is_solid(doors[edge(path[i], path[i + 1])], can_pass)
        }
}

proof fn lemma_edge_of_step(p: Pos, m: Move)
    requires
        within(p, 100),
    ensures
        ({
            let e = edge(p, step(p, m));
            &&& (e.0 == p && e.1 == step(p, m)) || (e.1 == p && e.0 == step(p, m))
            &&& e.1 == right_of(e.0) || e.1 == above(e.0)
        }),
{
}

proof fn lemma_walk_door(ws: Seq<Seq<Move>>, k: int, j: int)
    requires
        0 <= k < WALKS,
        0 <= j < STEPS,
    ensures
        world_doors(ws).contains_key(edge(walk_at(ws, k, j), walk_at(ws, k, j + 1))),
        world_doors(ws)[edge(walk_at(ws, k, j), walk_at(ws, k, j + 1))] <= k + 1,
{
    let e = edge(walk_at(ws, k, j), walk_at(ws, k, j + 1));
    assert(crosses(ws, k, j, e));
    assert(crossed_in(ws, k, STEPS as int, e));
    assert(is_door(ws, e));
}

/// Every door joins two rooms of the map that are neighbours on the grid; its key names the
/// lower or left room first.
pub proof fn lemma_doors_join_neighbours(ws: Seq<Seq<Move>>, e: (Pos, Pos))
    requires
        world_doors(ws).contains_key(e),
    ensures
        world_rooms(ws).contains_key(e.0),
        world_rooms(ws).contains_key(e.1),
        e.1 == right_of(e.0) || e.1 == above(e.0),
        1 <= world_doors(ws)[e] <= 3,
{
    let k = choose|k: int| 0 <= k < WALKS && #[trigger] crossed_in(ws, k, STEPS as int, e);
    let j = choose|j: int| 0 <= j < STEPS && #[trigger] crosses(ws, k, j, e);
    lemma_walk_within(ws[k], j as nat);
    lemma_edge_of_step(walk_at(ws, k, j), ws[k][j]);
    assert(walk_at(ws, k, j + 1) == step(walk_at(ws, k, j), ws[k][j]));
    assert(is_room(ws, walk_at(ws, k, j)));
    assert(is_room(ws, walk_at(ws, k, j + 1)));
}

/// The map is connected: every room can be reached from the origin through doors.
pub proof fn lemma_rooms_connected(ws: Seq<Seq<Move>>, p: Pos)
    requires
        world_rooms(ws).contains_key(p),
    ensures
        exists|path: Seq<Pos>| door_path(world_doors(ws), 3, path) && path.last() == p,
{
    let (k, j) = choose|k: int, j: int| 0 <= k < WALKS && 0 <= j <= STEPS && #[trigger] walk_at(ws, k, j) == p;
    let path = Seq::new((j + 1) as nat, |t: int| walk_at(ws, k, t));
    assert forall|i: int| 0 <= i < path.len() - 1 implies {
        &&& #[trigger] world_doors(ws).contains_key(edge(path[i], path[i + 1]))
        &&& !is_solid(world_doors(ws)[edge(path[i], path[i + 1])], 3)
    } by {
        lemma_walk_door(ws, k, i);
    }
    assert(door_path(world_doors(ws), 3, path) && path.last() == p);
}

/// The powers come in order: with the orbs of levels up to `k + 1`, the player can follow
/// walk `k` from the origin to its end, through doors of level at most `k + 1`, and find
/// there the orb of level `k + 2`.
pub proof fn lemma_orbs_reachable_in_order(ws: Seq<Seq<Move>>, k: int)
    requires
        0 <= k < WALKS,
    ensures
        exists|path: Seq<Pos>|
            door_path(world_doors(ws), (k + 1) as u8, path) && path.last() == walk_at(ws, k, STEPS as int),
        world_orbs(ws).contains_key(walk_at(ws, k, STEPS as int)),
        world_orbs(ws)[walk_at(ws, k, STEPS as int)].contains(orb_of_level((k + 2) as u8)),
{
    let path = Seq::new((STEPS + 1) as nat, |t: int| walk_at(ws, k, t));
    assert forall|i: int| 0 <= i < path.len() - 1 implies {
        &&& #[trigger] world_doors(ws).contains_key(edge(path[i], path[i + 1]))
        &&& !is_solid(world_doors(ws)[edge(path[i], path[i + 1])], (k + 1) as u8)
    } by {
        lemma_walk_door(ws, k, i);
    }
    assert(door_path(world_doors(ws), (k + 1) as u8, path) && path.last() == walk_at(ws, k, STEPS as int));
    let plan = orb_plan(ws);
    let q = walk_at(ws, k, STEPS as int);
    assert(plan[k + 1].0 == q);
    lemma_orbs_in_room_contains(plan, q, k + 1);
}

proof fn lemma_orbs_in_room_contains(placed: Seq<(Pos, Orb)>, p: Pos, i: int)
    requires
        0 <= i < placed.len(),
        placed[i].0 == p,
    ensures
        orbs_in_room(placed, p).contains(placed[i].1),
    decreases placed.len(),
{
    let rest = orbs_in_room(placed.drop_last(), p);
    if i == placed.len() - 1 {
        assert(orbs_in_room(placed, p).last() == placed[i].1);
    } else {
        assert(placed.drop_last()[i] == placed[i]);
        lemma_orbs_in_room_contains(placed.drop_last(), p, i);
        let t = choose|t: int| 0 <= t < rest.len() && rest[t] == placed[i].1;
        if placed.last().0 == p {
            assert(orbs_in_room(placed, p)[t] == placed[i].1);
        }
    }
}

/// Every tile of every room is 0 (empty), a door level 1 to 3, or 4 (wall).
pub proof fn lemma_tiles_bounded(ws: Seq<Seq<Move>>, p: Pos, i: int)
    requires
        world_rooms(ws).contains_key(p),
        0 <= i < world_rooms(ws)[p].len(),
    ensures
        world_rooms(ws)[p][i] <= 4,
{
    let d = doors_around(world_doors(ws), p);
    assert(world_rooms(ws)[p][i] == room_tile(d, i));
}

/// A door is cut into both rooms it joins: when the rooms at `p` and right of it share a door,
/// the right wall of `p` and the left wall of its neighbour hold the door's level in rows 14
/// to 16; when `p` and the room above share one, the ceiling of `p` and the floor of the room
/// above hold it in columns 14 to 17.
pub proof fn lemma_doors_match_on_both_sides(ws: Seq<Seq<Move>>, e: (Pos, Pos), row: int, col: int)
    requires
        world_doors(ws).contains_key(e),
        14 <= row <= 16,
        14 <= col <= 17,
    ensures
        e.1 == right_of(e.0) ==> {
            &&& world_rooms(ws)[e.0][row * 32 + 31] == world_doors(ws)[e]
            &&& world_rooms(ws)[e.1][row * 32] == world_doors(ws)[e]
        },
        e.1 == above(e.0) ==> {
            &&& world_rooms(ws)[e.0][col] == world_doors(ws)[e]
            &&& world_rooms(ws)[e.1][17 * 32 + col] == world_doors(ws)[e]
        },
{
    lemma_doors_join_neighbours(ws, e);
    let (k, j) = choose|k: int, j: int| 0 <= k < WALKS && 0 <= j <= STEPS && #[trigger] walk_at(ws, k, j) == e.0;
    lemma_walk_within(ws[k], j as nat);
    let doors = world_doors(ws);
    if e.1 == right_of(e.0) {
        assert(left_of(e.1) == e.0);
        let d0 = doors_around(doors, e.0);
        let d1 = doors_around(doors, e.1);
        assert(d0.right == Some(doors[e]));
        assert(d1.left == Some(doors[e]));
        assert(tile_row(row * 32 + 31) == row && tile_col(row * 32 + 31) == 31);
        assert(tile_row(row * 32) == row && tile_col(row * 32) == 0);
        assert(world_rooms(ws)[e.0][row * 32 + 31] == room_tile(d0, row * 32 + 31));
        assert(world_rooms(ws)[e.1][row * 32] == room_tile(d1, row * 32));
    }
    if e.1 == above(e.0) {
        assert(below(e.1) == e.0);
        let d0 = doors_around(doors, e.0);
        let d1 = doors_around(doors, e.1);
        assert(d0.top == Some(doors[e]));
        assert(d1.bottom == Some(doors[e]));
        assert(tile_row(col) == 0 && tile_col(col) == col);
        assert(tile_row(17 * 32 + col) == 17 && tile_col(17 * 32 + col) == col);
        assert(world_rooms(ws)[e.0][col] == room_tile(d0, col));
        assert(world_rooms(ws)[e.1][17 * 32 + col] == room_tile(d1, 17 * 32 + col));
    }
}

/// The first power lies where the player starts: the origin holds an orb of level 1.
pub proof fn lemma_first_orb_at_origin(ws: Seq<Seq<Move>>)
    ensures
        world_orbs(ws).contains_key(origin()),
        world_orbs(ws)[origin()].contains(orb_of_level(1)),
{
    let plan = orb_plan(ws);
    assert(plan[0].0 == origin());
    lemma_orbs_in_room_contains(plan, origin(), 0);
}

/// The map is small: every room lies at most five rooms from the origin in each direction.
pub proof fn lemma_rooms_near_origin(ws: Seq<Seq<Move>>, p: Pos)
    requires
        world_rooms(ws).contains_key(p),
    ensures
        within(p, STEPS as int),
{
    let (k, j) = choose|k: int, j: int| 0 <= k < WALKS && 0 <= j <= STEPS && #[trigger] walk_at(ws, k, j) == p;
    lemma_walk_within(ws[k], j as nat);
}

/// A door's level tells which walk opened it: a walk that goes through the door has an index
/// at least one less than the door's level, and no walk with a smaller index goes through it.
pub proof fn lemma_door_level_is_first_walk(ws: Seq<Seq<Move>>, e: (Pos, Pos), k: int)
    requires
        world_doors(ws).contains_key(e),
    ensures
        0 <= k < WALKS && crossed_in(ws, k, STEPS as int, e) ==> world_doors(ws)[e] <= k + 1,
        0 <= k < world_doors(ws)[e] - 1 ==> !crossed_in(ws, k, STEPS as int, e),
        exists|k2: int| 0 <= k2 < WALKS && k2 + 1 == world_doors(ws)[e] && #[trigger] crossed_in(ws, k2, STEPS as int, e),
{
    let k2 = choose|k2: int| 0 <= k2 < WALKS && #[trigger] crossed_in(ws, k2, STEPS as int, e);
    if crossed_in(ws, 0, STEPS as int, e) {
        assert(0 + 1 == world_doors(ws)[e]);
    } else if crossed_in(ws, 1, STEPS as int, e) {
        assert(1 + 1 == world_doors(ws)[e]);
    } else {
        assert(k2 == 2);
        assert(2 + 1 == world_doors(ws)[e]);
    }
}

/// Leaving a room: through the right side one comes to `x + 1`, through the left to `x - 1`,
/// through the top to `y + 1`, through the bottom to `y - 1`, the other coordinate unchanged.
pub proof fn lemma_exits(p: Pos, exit: Exit)
    requires
        within(p, 1000),
    ensures
        beyond(p, exit) is Some,
        exit == Exit::Right ==> beyond(p, exit)->0.x == p.x + 1 && beyond(p, exit)->0.y == p.y,
        exit == Exit::Left ==> beyond(p, exit)->0.x == p.x - 1 && beyond(p, exit)->0.y == p.y,
        exit == Exit::Top ==> beyond(p, exit)->0.x == p.x && beyond(p, exit)->0.y == p.y + 1,
        exit == Exit::Bottom ==> beyond(p, exit)->0.x == p.x && beyond(p, exit)->0.y == p.y - 1,
{
}

/// A move changes one coordinate by one: up lowers `y`, down raises it, left lowers `x`,
/// right raises it; up and down undo each other, as do left and right.
pub proof fn lemma_moves(p: Pos, m: Move)
    requires
        within(p, 1000),
    ensures
        m == Move::Up ==> step(p, m).x == p.x && step(p, m).y == p.y - 1,
        m == Move::Down ==> step(p, m).x == p.x && step(p, m).y == p.y + 1,
        m == Move::Left ==> step(p, m).x == p.x - 1 && step(p, m).y == p.y,
        m == Move::Right ==> step(p, m).x == p.x + 1 && step(p, m).y == p.y,
        step(step(p, Move::Up), Move::Down) == p,
        step(step(p, Move::Left), Move::Right) == p,
{
}

/// The die: 0 is up, 1 down, 2 left, and every larger roll right.
pub proof fn lemma_rolls(roll: u8)
    ensures
        (roll_move(roll) == Move::Up) <==> roll == 0,
        (roll_move(roll) == Move::Down) <==> roll == 1,
        (roll_move(roll) == Move::Left) <==> roll == 2,
        (roll_move(roll) == Move::Right) <==> roll >= 3,
{
}

/// A door key names its two rooms, the one with the smaller coordinates first.
pub proof fn lemma_edge_ordered(a: Pos, b: Pos)
    requires
        a.x == b.x || a.y == b.y,
    ensures
        edge(a, b).0.x <= edge(a, b).1.x,
        edge(a, b).0.y <= edge(a, b).1.y,
        (edge(a, b).0 == a && edge(a, b).1 == b) || (edge(a, b).0 == b && edge(a, b).1 == a),
{
}

/// The door between two rooms is the same whichever room is named first.
pub proof fn lemma_edge_symmetric(a: Pos, b: Pos)
    ensures
        edge(a, b) == edge(b, a),
{
}

} // verus!
