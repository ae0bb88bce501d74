//! The world map: rooms on a grid, laid out by three short random walks from the origin, with
//! doors on the edges the walks cross and power-up orbs at the ends of the walks.
use vstd::prelude::*;
use crate::assoc::{assoc, has_key, keys_unique, lemma_assoc_index, lemma_assoc_push};
use crate::room::{DoorLevels, ROOM_TILES, room_layout, build_room};

verus! {

/// Steps in each walk.
pub const STEPS: usize = 5;

/// Walks that lay out the map.
pub const WALKS: usize = 3;

/// Where a room lies on the map grid.
#[derive(PartialEq, Eq, Structural, Clone, Copy, Debug)]
pub struct Pos {
    pub x: i32,
    pub y: i32,
}

/// A step of a walk on the map grid.
#[derive(PartialEq, Eq, Structural, Clone, Copy, Debug)]
pub enum Move {
    Up,
    Down,
    Left,
    Right,
}

/// The room every walk starts from.
pub open spec fn origin() -> Pos {
    Pos { x: 0, y: 0 }
}

/// The move that a roll of the die selects: 0 up, 1 down, 2 left, 3 right, anything else right.
pub open spec fn roll_move(roll: u8) -> Move {
    if roll == 0 {
        Move::Up
    } else if roll == 1 {
        Move::Down
    } else if roll == 2 {
        Move::Left
    } else {
        Move::Right
    }
}

/// The move that a roll of the die selects.
pub fn move_from_roll(roll: u8) -> (m: Move)
    ensures
        m == roll_move(roll),
{
    if roll == 0 {
        Move::Up
    } else if roll == 1 {
        Move::Down
    } else if roll == 2 {
        Move::Left
    } else {
        Move::Right
    }
}

/// One step on the grid: up lowers `y`, down raises it, left lowers `x`, right raises it.
pub open spec fn step(p: Pos, m: Move) -> Pos {
    match m {
        Move::Up => Pos { x: p.x, y: (p.y - 1) as i32 },
        Move::Down => Pos { x: p.x, y: (p.y + 1) as i32 },
        Move::Left => Pos { x: (p.x - 1) as i32, y: p.y },
        Move::Right => Pos { x: (p.x + 1) as i32, y: p.y },
    }
}

/// The step stays inside the range of `i32`.
pub open spec fn can_step(p: Pos, m: Move) -> bool {
    match m {
        Move::Up => p.y > i32::MIN,
        Move::Down => p.y < i32::MAX,
        Move::Left => p.x > i32::MIN,
        Move::Right => p.x < i32::MAX,
    }
}

/// Takes one step from `(x, y)`.
pub fn move_to(x: &mut i32, y: &mut i32, m: Move)
    requires
        can_step((Pos { x: *old(x), y: *old(y) }), m),
    ensures
        (Pos { x: *final(x), y: *final(y) }) == step((Pos { x: *old(x), y: *old(y) }), m),
{
    match m {
        Move::Up => *y = *y - 1,
        Move::Down => *y = *y + 1,
        Move::Left => *x = *x - 1,
        Move::Right => *x = *x + 1,
    }
}

/// Where a walk stands after its first `i` moves.
pub open spec fn walk_pos(walk: Seq<Move>, i: nat) -> Pos
    decreases i,
{
    if i == 0 {
        origin()
    } else {
        step(walk_pos(walk, (i - 1) as nat), walk[i - 1])
    }
}

/// Both coordinates lie in `-n ..= n`.
pub open spec fn within(p: Pos, n: int) -> bool {
    -n <= p.x <= n && -n <= p.y <= n
}

/// After `i` moves a walk is at most `i` rooms away from the origin in each direction.
pub proof fn lemma_walk_within(walk: Seq<Move>, i: nat)
    requires
        i <= 1000,
    ensures
        within(walk_pos(walk, i), i as int),
    decreases i,
{
    if i > 0 {
        lemma_walk_within(walk, (i - 1) as nat);
    }
}

/// The key under which the door between two neighbouring rooms is stored: the smaller
/// coordinates first, the larger second.
pub open spec fn edge(a: Pos, b: Pos) -> (Pos, Pos) {
    (
        Pos { x: if a.x <= b.x { a.x } else { b.x }, y: if a.y <= b.y { a.y } else { b.y } },
        Pos { x: if a.x <= b.x { b.x } else { a.x }, y: if a.y <= b.y { b.y } else { a.y } },
    )
}

/// The key of the door between `a` and `b`.
pub fn door_key(a: Pos, b: Pos) -> (e: (Pos, Pos))
    ensures
        e == edge(a, b),
{
    let lo_x = if a.x <= b.x { a.x } else { b.x };
    let lo_y = if a.y <= b.y { a.y } else { b.y };
    let hi_x = if a.x <= b.x { b.x } else { a.x };
    let hi_y = if a.y <= b.y { b.y } else { a.y };
    (Pos { x: lo_x, y: lo_y }, Pos { x: hi_x, y: hi_y })
}


/// A power-up lying in a room, at tile column `x` and tile row `y` counted from the bottom left;
/// picking it up lets the player pass tiles up to `level`.
#[derive(PartialEq, Eq, Structural, Clone, Copy, Debug)]
pub struct Orb {
    pub x: u8,
    pub y: u8,
    pub level: u8,
}

/// The orb of the given level, placed where the generator places every orb.
pub open spec fn orb_of_level(level: u8) -> Orb {
    Orb { x: 3, y: 3, level }
}

/// The walks as sequences of moves.
pub open spec fn walks_view(walks: [[Move; STEPS]; WALKS]) -> Seq<Seq<Move>> {
    walks@.map_values(|w: [Move; STEPS]| w@)
}

/// Where walk `k` stands after `i` moves.
pub open spec fn walk_at(ws: Seq<Seq<Move>>, k: int, i: int) -> Pos {
    walk_pos(ws[k], i as nat)
}

/// Move `j` of walk `k` goes through the door stored under `e`.
pub open spec fn crosses(ws: Seq<Seq<Move>>, k: int, j: int, e: (Pos, Pos)) -> bool {
    edge(walk_at(ws, k, j), walk_at(ws, k, j + 1)) == e
}

/// One of the first `n` moves of walk `k` goes through `e`.
pub open spec fn crossed_in(ws: Seq<Seq<Move>>, k: int, n: int, e: (Pos, Pos)) -> bool {
    exists|j: int| 0 <= j < n && #[trigger] crosses(ws, k, j, e)
}

/// Some walk goes through `e`: there is a door there.
pub open spec fn is_door(ws: Seq<Seq<Move>>, e: (Pos, Pos)) -> bool {
    exists|k: int| 0 <= k < WALKS && #[trigger] crossed_in(ws, k, STEPS as int, e)
}

/// A door has the level of the first walk that went through it: 1, 2 or 3.
pub open spec fn door_level(ws: Seq<Seq<Move>>, e: (Pos, Pos)) -> u8 {
    if crossed_in(ws, 0, STEPS as int, e) {
        1
    } else if crossed_in(ws, 1, STEPS as int, e) {
        2
    } else {
        3
    }
}

/// The doors of the map generated from the walks `ws`.
pub open spec fn world_doors(ws: Seq<Seq<Move>>) -> Map<(Pos, Pos), u8> {
    Map::new(|e: (Pos, Pos)| is_door(ws, e), |e: (Pos, Pos)| door_level(ws, e))
}

/// Some walk passes through `p`: there is a room there.
pub open spec fn is_room(ws: Seq<Seq<Move>>, p: Pos) -> bool {
    exists|k: int, j: int| 0 <= k < WALKS && 0 <= j <= STEPS && #[trigger] walk_at(ws, k, j) == p
}

/// The level of the door stored under `e`, if any.
pub open spec fn door_lookup(doors: Map<(Pos, Pos), u8>, e: (Pos, Pos)) -> Option<u8> {
    if doors.contains_key(e) {
        Some(doors[e])
    } else {
        None
    }
}

/// The room left of `p`.
pub open spec fn left_of(p: Pos) -> Pos {
    Pos { x: (p.x - 1) as i32, y: p.y }
}

/// The room right of `p`.
pub open spec fn right_of(p: Pos) -> Pos {
    Pos { x: (p.x + 1) as i32, y: p.y }
}

/// The room above `p`.
pub open spec fn above(p: Pos) -> Pos {
    Pos { x: p.x, y: (p.y + 1) as i32 }
}

/// The room below `p`.
pub open spec fn below(p: Pos) -> Pos {
    Pos { x: p.x, y: (p.y - 1) as i32 }
}

/// The doors on the four sides of the room at `p`.
pub open spec fn doors_around(doors: Map<(Pos, Pos), u8>, p: Pos) -> DoorLevels {
    DoorLevels {
        left: door_lookup(doors, (left_of(p), p)),
        right: door_lookup(doors, (p, right_of(p))),
        top: door_lookup(doors, (p, above(p))),
        bottom: door_lookup(doors, (below(p), p)),
    }
}

/// The rooms of the map generated from `ws`, each with its tiles.
pub open spec fn world_rooms(ws: Seq<Seq<Move>>) -> Map<Pos, Seq<u8>> {
    Map::new(|p: Pos| is_room(ws, p), |p: Pos| room_layout(doors_around(world_doors(ws), p)))
}

/// The orbs in the order the generator places them: level 1 at the origin, level `k + 2` at the
/// end of walk `k`, and level 1 at the origin once more.
pub open spec fn orb_plan(ws: Seq<Seq<Move>>) -> Seq<(Pos, Orb)> {
    seq![
        (origin(), orb_of_level(1)),
        (walk_at(ws, 0, STEPS as int), orb_of_level(2)),
        (walk_at(ws, 1, STEPS as int), orb_of_level(3)),
        (walk_at(ws, 2, STEPS as int), orb_of_level(4)),
        (origin(), orb_of_level(1)),
    ]
}

/// The orbs placed in room `p`, in the order they were placed.
pub open spec fn orbs_in_room(placed: Seq<(Pos, Orb)>, p: Pos) -> Seq<Orb>
    decreases placed.len(),
{
    if placed.len() == 0 {
        Seq::empty()
    } else {
        let rest = orbs_in_room(placed.drop_last(), p);
        if placed.last().0 == p {
            rest.push(placed.last().1)
        } else {
            rest
        }
    }
}

/// The orbs of each room where any was placed.
pub open spec fn orbs_by_room(placed: Seq<(Pos, Orb)>) -> Map<Pos, Seq<Orb>> {
    Map::new(
        |p: Pos| exists|i: int| 0 <= i < placed.len() && #[trigger] placed[i].0 == p,
        |p: Pos| orbs_in_room(placed, p),
    )
}

/// The orbs of the map generated from `ws`.
pub open spec fn world_orbs(ws: Seq<Seq<Move>>) -> Map<Pos, Seq<Orb>> {
    orbs_by_room(orb_plan(ws))
}

/// The map: rooms with their tiles, the orbs lying in them, and the doors between them.
pub struct World {
    rooms: Vec<(Pos, Vec<u8>)>,
    room_entities: Vec<(Pos, Orb)>,
    doors: Vec<((Pos, Pos), u8)>,
}

/// How far from the origin a room can lie.
pub open spec fn world_radius() -> int {
    (WALKS * STEPS) as int
}

impl World {
    /// The rooms, each with its tiles.
    pub closed spec fn rooms_view(&self) -> Map<Pos, Seq<u8>> {
        assoc(self.rooms@).map_values(|t: Vec<u8>| t@)
    }

    /// The doors, by key.
    pub closed spec fn doors_view(&self) -> Map<(Pos, Pos), u8> {
        assoc(self.doors@)
    }

    /// The orbs of each room that has any.
    pub closed spec fn orbs_view(&self) -> Map<Pos, Seq<Orb>> {
        orbs_by_room(self.room_entities@)
    }

    #[verifier::type_invariant]
    closed spec fn wf(&self) -> bool {
        &&& keys_unique(self.rooms@)
        &&& keys_unique(self.doors@)
        &&& forall|i: int| 0 <= i < self.rooms@.len() ==> within(#[trigger] self.rooms@[i].0, world_radius())
        &&& forall|i: int| 0 <= i < self.rooms@.len() ==> (#[trigger] self.rooms@[i]).1@.len() == ROOM_TILES
    }
}


/// The rooms visited by the walks before walk `k`, and by walk `k` in its first `i` moves.
spec fn visited_so_far(ws: Seq<Seq<Move>>, k: int, i: int, p: Pos) -> bool {
    ||| exists|k2: int, j: int| 0 <= k2 < k && 0 <= j <= STEPS && #[trigger] walk_at(ws, k2, j) == p
    ||| exists|j: int| 0 <= j <= i && #[trigger] walk_at(ws, k, j) == p
}

/// The doors placed by the walks before walk `k`, and by walk `k` in its first `i` moves.
spec fn doors_so_far(ws: Seq<Seq<Move>>, k: int, i: int) -> Map<(Pos, Pos), u8> {
    Map::new(
        |e: (Pos, Pos)|
            (exists|k2: int| 0 <= k2 < k && #[trigger] crossed_in(ws, k2, STEPS as int, e))
                || crossed_in(ws, k, i, e),
        |e: (Pos, Pos)| door_level(ws, e),
    )
}

proof fn lemma_doors_step(ws: Seq<Seq<Move>>, k: int, i: int)
    requires
        0 <= k < WALKS,
        0 <= i < STEPS,
    ensures
        doors_so_far(ws, k, i + 1) == doors_so_far(ws, k, i).insert(
            edge(walk_at(ws, k, i), walk_at(ws, k, i + 1)),
            door_level(ws, edge(walk_at(ws, k, i), walk_at(ws, k, i + 1))),
        ),
        !doors_so_far(ws, k, i).contains_key(edge(walk_at(ws, k, i), walk_at(ws, k, i + 1)))
            ==> door_level(ws, edge(walk_at(ws, k, i), walk_at(ws, k, i + 1))) == k + 1,
{
    let e = edge(walk_at(ws, k, i), walk_at(ws, k, i + 1));
    assert(crosses(ws, k, i, e));
    assert(crossed_in(ws, k, STEPS as int, e));
    assert forall|f: (Pos, Pos)| #[trigger] crossed_in(ws, k, i + 1, f) == (crossed_in(ws, k, i, f) || f == e) by {
        if crossed_in(ws, k, i + 1, f) {
            let j = choose|j: int| 0 <= j < i + 1 && #[trigger] crosses(ws, k, j, f);
            if j < i {
                assert(crossed_in(ws, k, i, f));
            }
        }
        if crossed_in(ws, k, i, f) {
            let j = choose|j: int| 0 <= j < i && #[trigger] crosses(ws, k, j, f);
            assert(crosses(ws, k, j, f));
        }
    }
    assert(doors_so_far(ws, k, i + 1) =~= doors_so_far(ws, k, i).insert(e, door_level(ws, e)));
    if !doors_so_far(ws, k, i).contains_key(e) {
        if k >= 1 {
            assert(!crossed_in(ws, 0, STEPS as int, e));
        }
        if k >= 2 {
            assert(!crossed_in(ws, 1, STEPS as int, e));
        }
    }
}

proof fn lemma_doors_next_walk(ws: Seq<Seq<Move>>, k: int)
    requires
        0 <= k < WALKS,
    ensures
        doors_so_far(ws, k, STEPS as int) == doors_so_far(ws, k + 1, 0),
{
    assert forall|e: (Pos, Pos)|
        #[trigger] doors_so_far(ws, k, STEPS as int).contains_key(e) == doors_so_far(
            ws,
            k + 1,
            0,
        ).contains_key(e) by {
        if crossed_in(ws, k, STEPS as int, e) {
            assert(0 <= k < k + 1);
        }
        if exists|k2: int| 0 <= k2 < k + 1 && #[trigger] crossed_in(ws, k2, STEPS as int, e) {
            let k2 = choose|k2: int| 0 <= k2 < k + 1 && #[trigger] crossed_in(ws, k2, STEPS as int, e);
            if k2 < k {
                assert(exists|k3: int| 0 <= k3 < k && #[trigger] crossed_in(ws, k3, STEPS as int, e));
            }
        }
        if crossed_in(ws, k + 1, 0, e) {
            let j = choose|j: int| 0 <= j < 0 && #[trigger] crosses(ws, k + 1, j, e);
        }
    }
    assert(doors_so_far(ws, k, STEPS as int) =~= doors_so_far(ws, k + 1, 0));
}

fn contains_pos(v: &Vec<Pos>, p: Pos) -> (r: bool)
    ensures
        r == v@.contains(p),
{
    let mut i: usize = 0;
    while i < v.len()
        invariant
            i <= v@.len(),
            forall|j: int| 0 <= j < i ==> v@[j] != p,
        decreases v@.len() - i,
    {
        if v[i] == p {
            return true;
        }
        i = i + 1;
    }
    false
}

fn find_door(doors: &Vec<((Pos, Pos), u8)>, e: (Pos, Pos)) -> (r: Option<usize>)
    ensures
        match r {
            Some(i) => i < doors@.len() && doors@[i as int].0 == e,
            None => !has_key(doors@, e),
        },
{
    let mut i: usize = 0;
    while i < doors.len()
        invariant
            i <= doors@.len(),
            forall|j: int| 0 <= j < i ==> #[trigger] doors@[j].0 != e,
        decreases doors@.len() - i,
    {
        let key = doors[i].0;
        if key.0 == e.0 && key.1 == e.1 {
            return Some(i);
        }
        i = i + 1;
    }
    None
}

fn lookup_door(doors: &Vec<((Pos, Pos), u8)>, e: (Pos, Pos)) -> (r: Option<u8>)
    requires
        keys_unique(doors@),
    ensures
        r == door_lookup(assoc(doors@), e),
{
    match find_door(doors, e) {
        Some(i) => {
            proof {
                lemma_assoc_index(doors@, i as int);
            }
            Some(doors[i].1)
        },
        None => None,
    }
}

fn doors_at(doors: &Vec<((Pos, Pos), u8)>, p: Pos) -> (d: DoorLevels)
    requires
        keys_unique(doors@),
        within(p, 1000),
    ensures
        d == doors_around(assoc(doors@), p),
{
    let left = Pos { x: p.x - 1, y: p.y };
    let right = Pos { x: p.x + 1, y: p.y };
    let up = Pos { x: p.x, y: p.y + 1 };
    let down = Pos { x: p.x, y: p.y - 1 };
    DoorLevels {
        left: lookup_door(doors, (left, p)),
        right: lookup_door(doors, (p, right)),
        top: lookup_door(doors, (p, up)),
        bottom: lookup_door(doors, (down, p)),
    }
}

fn walk_move(walks: &[[Move; STEPS]; WALKS], k: usize, i: usize) -> (m: Move)
    requires
        k < WALKS,
        i < STEPS,
    ensures
        m == walks_view(*walks)[k as int][i as int],
{
    let w: &[Move; STEPS] = &walks[k];
    w[i]
}


impl World {
    /// Lays out the map from three walks of five moves each, starting at the origin.
    ///
    /// Every room a walk passes through exists. Each move places a door on the edge it goes
    /// through, unless one is there already; the door has level `k + 1` for walk `k`. An orb
    /// of level 1 lies at the origin, one of level `k + 2` at the end of walk `k`, and a
    /// second orb of level 1 at the origin. Each room's tiles are the empty room with its doors
    /// cut into the walls.
    pub fn new(walks: [[Move; STEPS]; WALKS]) -> (w: World)
        ensures
            w.rooms_view() == world_rooms(walks_view(walks)),
            w.doors_view() == world_doors(walks_view(walks)),
            w.orbs_view() == world_orbs(walks_view(walks)),
    {
        let ghost ws = walks_view(walks);
        let mut positions: Vec<Pos> = Vec::new();
        positions.push(Pos { x: 0, y: 0 });
        let mut doors: Vec<((Pos, Pos), u8)> = Vec::new();
        let mut entities: Vec<(Pos, Orb)> = Vec::new();
        entities.push((Pos { x: 0, y: 0 }, Orb { x: 3, y: 3, level: 1 }));
        proof {
            assert forall|p: Pos| #[trigger] positions@.contains(p) == visited_so_far(ws, 0, 0, p) by {
                if p == origin() {
                    assert(walk_at(ws, 0, 0) == p);
                    assert(positions@[0] == p);
                }
                if visited_so_far(ws, 0, 0, p) {
                    let j = choose|j: int| 0 <= j <= 0 && #[trigger] walk_at(ws, 0, j) == p;
                    assert(positions@[0] == p);
                }
            }
            assert(doors_so_far(ws, 0, 0) =~= assoc(doors@));
            assert(entities@ =~= orb_plan(ws).take(1));
        }
        let mut k: usize = 0;
        while k < WALKS
            invariant
                k <= WALKS,
                ws == walks_view(walks),
                positions@.no_duplicates(),
                forall|p: Pos| #[trigger] positions@.contains(p) == visited_so_far(ws, k as int, 0, p),
                forall|j: int| 0 <= j < positions@.len() ==> within(#[trigger] positions@[j], STEPS as int),
                keys_unique(doors@),
                assoc(doors@) == doors_so_far(ws, k as int, 0),
                entities@ == orb_plan(ws).take(k + 1),
            decreases WALKS - k,
        {
            let mut x: i32 = 0;
            let mut y: i32 = 0;
            let mut i: usize = 0;
            while i < STEPS
                invariant
                    k < WALKS,
                    i <= STEPS,
                    ws == walks_view(walks),
                    (Pos { x, y }) == walk_at(ws, k as int, i as int),
                    within((Pos { x, y }), i as int),
                    positions@.no_duplicates(),
                    forall|p: Pos| #[trigger] positions@.contains(p) == visited_so_far(ws, k as int, i as int, p),
                    forall|j: int| 0 <= j < positions@.len() ==> within(#[trigger] positions@[j], STEPS as int),
                    keys_unique(doors@),
                    assoc(doors@) == doors_so_far(ws, k as int, i as int),
                    entities@ == orb_plan(ws).take(k + 1),
                decreases STEPS - i,
            {
                let prev = Pos { x, y };
                let m = walk_move(&walks, k, i);
                move_to(&mut x, &mut y, m);
                let cur = Pos { x, y };
                proof {
                    lemma_walk_within(ws[k as int], (i + 1) as nat);
                    assert(cur == walk_at(ws, k as int, i + 1));
                    assert forall|p: Pos|
                        visited_so_far(ws, k as int, i + 1, p) == (visited_so_far(ws, k as int, i as int, p)
                            || p == cur) by {
                        if exists|j: int| 0 <= j <= i + 1 && #[trigger] walk_at(ws, k as int, j) == p {
                            let j = choose|j: int| 0 <= j <= i + 1 && #[trigger] walk_at(ws, k as int, j) == p;
                            if j <= i {
                                assert(exists|j2: int| 0 <= j2 <= i && #[trigger] walk_at(ws, k as int, j2) == p);
                            }
                        }
                        if exists|j: int| 0 <= j <= i && #[trigger] walk_at(ws, k as int, j) == p {
                            let j = choose|j: int| 0 <= j <= i && #[trigger] walk_at(ws, k as int, j) == p;
                            assert(walk_at(ws, k as int, j) == p);
                        }
                        if p == cur {
                            assert(walk_at(ws, k as int, i + 1) == p);
                        }
                    }
                }
                if !contains_pos(&positions, cur) {
                    let ghost before = positions@;
                    positions.push(cur);
                    proof {
                        assert forall|p: Pos| #[trigger] positions@.contains(p) == visited_so_far(ws, k as int, i + 1, p) by {
                            if positions@.contains(p) {
                                let j = choose|j: int| 0 <= j < positions@.len() && positions@[j] == p;
                                if j < positions@.len() - 1 {
                                    assert(before.contains(p));
                                }
                            }
                            if before.contains(p) {
                                let j = choose|j: int| 0 <= j < before.len() && before[j] == p;
                                assert(positions@[j] == p);
                            }
                            if p == cur {
                                assert(positions@[positions@.len() - 1] == p);
                            }
                        }
                    }
                } else {
                    proof {
                        assert forall|p: Pos| #[trigger] positions@.contains(p) == visited_so_far(ws, k as int, i + 1, p) by {
                        }
                    }
                }
                let e = door_key(prev, cur);
                proof {
                    lemma_doors_step(ws, k as int, i as int);
                }
                match find_door(&doors, e) {
                    None => {
                        let level: u8 = (k + 1) as u8;
                        proof {
                            lemma_assoc_push(doors@, e, level);
                        }
                        doors.push((e, level));
                    },
                    Some(_) => {
                        proof {
                            assert(doors_so_far(ws, k as int, i + 1) =~= doors_so_far(ws, k as int, i as int));
                        }
                    },
                }
                i = i + 1;
            }
            proof {
                lemma_doors_next_walk(ws, k as int);
                assert forall|p: Pos| visited_so_far(ws, k as int, STEPS as int, p) == visited_so_far(ws, k + 1, 0, p) by {
                    if exists|j: int| 0 <= j <= STEPS && #[trigger] walk_at(ws, k as int, j) == p {
                        let j = choose|j: int| 0 <= j <= STEPS && #[trigger] walk_at(ws, k as int, j) == p;
                        assert(walk_at(ws, k as int, j) == p);
                    }
                    if exists|k2: int, j: int| 0 <= k2 < k + 1 && 0 <= j <= STEPS && #[trigger] walk_at(ws, k2, j) == p {
                        let (k2, j) = choose|k2: int, j: int| 0 <= k2 < k + 1 && 0 <= j <= STEPS && #[trigger] walk_at(ws, k2, j) == p;
                        assert(walk_at(ws, k2, j) == p);
                    }
                    if exists|j: int| 0 <= j <= 0 && #[trigger] walk_at(ws, k + 1, j) == p {
                        assert(walk_at(ws, k + 1, 0) == p);
                        assert(walk_at(ws, k as int, 0) == p);
                    }
                }
            }
            let orb = Orb { x: 3, y: 3, level: (k + 2) as u8 };
            entities.push((Pos { x, y }, orb));
            proof {
                assert(entities@ =~= orb_plan(ws).take(k + 2));
            }
            k = k + 1;
        }
        entities.push((Pos { x: 0, y: 0 }, Orb { x: 3, y: 3, level: 1 }));
        proof {
            assert(entities@ =~= orb_plan(ws));
        }
        let mut rooms: Vec<(Pos, Vec<u8>)> = Vec::new();
        let mut r: usize = 0;
        while r < positions.len()
            invariant
                r <= positions@.len(),
                positions@.no_duplicates(),
                forall|j: int| 0 <= j < positions@.len() ==> within(#[trigger] positions@[j], STEPS as int),
                keys_unique(doors@),
                rooms@.len() == r,
                forall|j: int| 0 <= j < r ==> #[trigger] rooms@[j].0 == positions@[j],
                forall|j: int| 0 <= j < r ==> #[trigger] rooms@[j].1@ == room_layout(doors_around(assoc(doors@), positions@[j])),
            decreases positions@.len() - r,
        {
            let p = positions[r];
            let d = doors_at(&doors, p);
            let tiles = build_room(d);
            rooms.push((p, tiles));
            r = r + 1;
        }
        proof {
            assert(keys_unique(rooms@));
            assert(assoc(doors@) =~= world_doors(ws));
            assert forall|p: Pos| #[trigger] has_key(rooms@, p) == is_room(ws, p) by {
                if has_key(rooms@, p) {
                    let j = choose|j: int| 0 <= j < rooms@.len() && #[trigger] rooms@[j].0 == p;
                    assert(positions@.contains(p));
                    assert(visited_so_far(ws, WALKS as int, 0, p));
                    if exists|j2: int| 0 <= j2 <= 0 && #[trigger] walk_at(ws, WALKS as int, j2) == p {
                        assert(walk_at(ws, 0, 0) == p);
                    }
                }
                if is_room(ws, p) {
                    let (k2, j) = choose|k2: int, j: int| 0 <= k2 < WALKS && 0 <= j <= STEPS && #[trigger] walk_at(ws, k2, j) == p;
                    assert(visited_so_far(ws, WALKS as int, 0, p));
                    assert(positions@.contains(p));
                    let j2 = choose|j2: int| 0 <= j2 < positions@.len() && positions@[j2] == p;
                    assert(rooms@[j2].0 == p);
                }
            }
            assert forall|p: Pos| #[trigger] has_key(rooms@, p) implies assoc(rooms@)[p]@ == room_layout(doors_around(world_doors(ws), p)) by {
                let j = choose|j: int| 0 <= j < rooms@.len() && #[trigger] rooms@[j].0 == p;
                lemma_assoc_index(rooms@, j);
            }
            assert(assoc(rooms@).map_values(|t: Vec<u8>| t@) =~= world_rooms(ws));
        }
        World { rooms, room_entities: entities, doors }
    }
}


/// A side of a room through which the player can leave it.
#[derive(PartialEq, Eq, Structural, Clone, Copy, Debug)]
pub enum Exit {
    Left,
    Right,
    Top,
    Bottom,
}

/// The grid position on the other side of `exit`, where it fits in `i32`.
pub open spec fn beyond(p: Pos, exit: Exit) -> Option<Pos> {
    match exit {
        Exit::Left => if p.x > i32::MIN { Some(left_of(p)) } else { None },
        Exit::Right => if p.x < i32::MAX { Some(right_of(p)) } else { None },
        Exit::Top => if p.y < i32::MAX { Some(above(p)) } else { None },
        Exit::Bottom => if p.y > i32::MIN { Some(below(p)) } else { None },
    }
}

impl World {
    fn find_room(&self, p: Pos) -> (r: Option<usize>)
        ensures
            match r {
                Some(i) => i < self.rooms@.len() && self.rooms@[i as int].0 == p,
                None => !has_key(self.rooms@, p),
            },
    {
        let mut i: usize = 0;
        while i < self.rooms.len()
            invariant
                i <= self.rooms@.len(),
                forall|j: int| 0 <= j < i ==> #[trigger] self.rooms@[j].0 != p,
            decreases self.rooms@.len() - i,
        {
            if self.rooms[i].0 == p {
                return Some(i);
            }
            i = i + 1;
        }
        None
    }

    /// Whether there is a room at `p`.
    pub fn has_room(&self, p: Pos) -> (r: bool)
        ensures
            r == self.rooms_view().contains_key(p),
    {
        self.find_room(p).is_some()
    }

    /// The tiles of the room at `p`, if there is one.
    pub fn room(&self, p: Pos) -> (r: Option<&Vec<u8>>)
        ensures
            r is Some == self.rooms_view().contains_key(p),
            r matches Some(t) ==> t@ == self.rooms_view()[p] && t@.len() == ROOM_TILES,
    {
        proof {
            use_type_invariant(self);
        }
        match self.find_room(p) {
            Some(i) => {
                proof {
                    lemma_assoc_index(self.rooms@, i as int);
                }
                Some(&self.rooms[i].1)
            },
            None => None,
        }
    }

    /// The level of the door between the neighbouring rooms `a` and `b`, given in either order.
    pub fn door(&self, a: Pos, b: Pos) -> (r: Option<u8>)
        ensures
            r == door_lookup(self.doors_view(), edge(a, b)),
    {
        proof {
            use_type_invariant(self);
        }
        let e = door_key(a, b);
        lookup_door(&self.doors, e)
    }

    /// The orbs lying in the room at `p`, in the order they were placed, if any were.
    pub fn orbs(&self, p: Pos) -> (r: Option<Vec<Orb>>)
        ensures
            r is Some == self.orbs_view().contains_key(p),
            r matches Some(v) ==> v@ == self.orbs_view()[p],
    {
        let mut found: Vec<Orb> = Vec::new();
        let mut any = false;
        let mut i: usize = 0;
        while i < self.room_entities.len()
            invariant
                i <= self.room_entities@.len(),
                found@ == orbs_in_room(self.room_entities@.take(i as int), p),
                any == exists|j: int| 0 <= j < i && #[trigger] self.room_entities@[j].0 == p,
            decreases self.room_entities@.len() - i,
        {
            let ghost before = found@;
            let entry = self.room_entities[i];
            if entry.0 == p {
                found.push(entry.1);
                any = true;
            }
            proof {
                let s = self.room_entities@;
                assert(s.take(i + 1).drop_last() =~= s.take(i as int));
                assert(s.take(i + 1).last() == s[i as int]);
                assert(found@ == orbs_in_room(s.take(i + 1), p));
            }
            i = i + 1;
        }
        proof {
            assert(self.room_entities@.take(self.room_entities@.len() as int) =~= self.room_entities@);
        }
        if any {
            Some(found)
        } else {
            None
        }
    }

    /// The positions of all rooms, each once.
    pub fn room_positions(&self) -> (v: Vec<Pos>)
        ensures
            v@.no_duplicates(),
            forall|p: Pos| #[trigger] v@.contains(p) == self.rooms_view().contains_key(p),
    {
        proof {
            use_type_invariant(self);
        }
        let mut v: Vec<Pos> = Vec::new();
        let mut i: usize = 0;
        while i < self.rooms.len()
            invariant
                i <= self.rooms@.len(),
                keys_unique(self.rooms@),
                v@.len() == i,
                forall|j: int| 0 <= j < i ==> #[trigger] v@[j] == self.rooms@[j].0,
            decreases self.rooms@.len() - i,
        {
            v.push(self.rooms[i].0);
            i = i + 1;
        }
        proof {
            assert forall|p: Pos| #[trigger] v@.contains(p) == self.rooms_view().contains_key(p) by {
                if v@.contains(p) {
                    let j = choose|j: int| 0 <= j < v@.len() && v@[j] == p;
                    assert(self.rooms@[j].0 == p);
                }
                if has_key(self.rooms@, p) {
                    let j = choose|j: int| 0 <= j < self.rooms@.len() && #[trigger] self.rooms@[j].0 == p;
                    assert(v@[j] == p);
                }
            }
        }
        v
    }

    /// All doors with their levels, each key once.
    pub fn door_entries(&self) -> (v: Vec<((Pos, Pos), u8)>)
        ensures
            keys_unique(v@),
            assoc(v@) == self.doors_view(),
    {
        proof {
            use_type_invariant(self);
        }
        let mut v: Vec<((Pos, Pos), u8)> = Vec::new();
        let mut i: usize = 0;
        while i < self.doors.len()
            invariant
                i <= self.doors@.len(),
                v@ == self.doors@.take(i as int),
            decreases self.doors@.len() - i,
        {
            v.push(self.doors[i]);
            proof {
                assert(v@ =~= self.doors@.take(i + 1));
            }
            i = i + 1;
        }
        proof {
            assert(v@ =~= self.doors@);
        }
        v
    }

    /// The room on the other side of `exit` of the room at `p`, if there is one there.
    pub fn neighbor(&self, p: Pos, exit: Exit) -> (r: Option<Pos>)
        ensures
            r == (match beyond(p, exit) {
                Some(q) => if self.rooms_view().contains_key(q) { Some(q) } else { None },
                None => None,
            }),
    {
        let q = match exit {
            Exit::Left => if p.x > i32::MIN { Some(Pos { x: p.x - 1, y: p.y }) } else { None },
            Exit::Right => if p.x < i32::MAX { Some(Pos { x: p.x + 1, y: p.y }) } else { None },
            Exit::Top => if p.y < i32::MAX { Some(Pos { x: p.x, y: p.y + 1 }) } else { None },
            Exit::Bottom => if p.y > i32::MIN { Some(Pos { x: p.x, y: p.y - 1 }) } else { None },
        };
        match q {
            Some(q) => if self.has_room(q) { Some(q) } else { None },
            None => None,
        }
    }
}

} // verus!
