use antisun::map::{door_key, move_from_roll, move_to, Exit, Move, Orb, Pos, World};
use antisun::map::Move::{Down, Left, Right, Up};
use antisun::room::{build_room, empty_room, DoorLevels, ROOM_TILES};

fn p(x: i32, y: i32) -> Pos {
    Pos { x, y }
}

fn sample_walks() -> [[Move; 5]; 3] {
    [
        [Right, Right, Up, Left, Down],
        [Right, Down, Down, Left, Left],
        [Left, Left, Left, Right, Up],
    ]
}

#[test]
fn rolls_select_moves() {
    assert_eq!(move_from_roll(0), Move::Up);
    assert_eq!(move_from_roll(1), Move::Down);
    assert_eq!(move_from_roll(2), Move::Left);
    assert_eq!(move_from_roll(3), Move::Right);
    assert_eq!(move_from_roll(4), Move::Right);
    assert_eq!(move_from_roll(200), Move::Right);
}

#[test]
fn moves_step_on_the_grid() {
    let (mut x, mut y) = (0, 0);
    move_to(&mut x, &mut y, Move::Up);
    assert_eq!((x, y), (0, -1));
    move_to(&mut x, &mut y, Move::Right);
    assert_eq!((x, y), (1, -1));
    move_to(&mut x, &mut y, Move::Down);
    move_to(&mut x, &mut y, Move::Down);
    assert_eq!((x, y), (1, 1));
    move_to(&mut x, &mut y, Move::Left);
    assert_eq!((x, y), (0, 1));
}

#[test]
fn door_keys_put_the_lower_room_first() {
    assert_eq!(door_key(p(1, 0), p(0, 0)), (p(0, 0), p(1, 0)));
    assert_eq!(door_key(p(0, 0), p(1, 0)), (p(0, 0), p(1, 0)));
    assert_eq!(door_key(p(2, -1), p(2, 0)), (p(2, -1), p(2, 0)));
    assert_eq!(door_key(p(2, 0), p(2, -1)), (p(2, -1), p(2, 0)));
}

#[test]
fn walks_lay_out_rooms() {
    let w = World::new(sample_walks());
    let expected = [
        p(0, 0), p(1, 0), p(2, 0), p(2, -1), p(1, -1), p(1, 1), p(1, 2), p(0, 2), p(-1, 2),
        p(-1, 0), p(-2, 0), p(-3, 0), p(-2, -1),
    ];
    let rooms = w.room_positions();
    assert_eq!(rooms.len(), expected.len());
    for q in expected.iter() {
        assert!(w.has_room(*q));
        assert!(rooms.contains(q));
    }
    assert!(!w.has_room(p(0, 1)));
    assert!(!w.has_room(p(3, 0)));
    assert!(w.room(p(5, 5)).is_none());
}

#[test]
fn doors_take_the_level_of_the_first_walk() {
    let w = World::new(sample_walks());
    assert_eq!(w.door(p(0, 0), p(1, 0)), Some(1));
    assert_eq!(w.door(p(1, 0), p(0, 0)), Some(1));
    assert_eq!(w.door(p(1, 0), p(2, 0)), Some(1));
    assert_eq!(w.door(p(2, 0), p(2, -1)), Some(1));
    assert_eq!(w.door(p(1, -1), p(2, -1)), Some(1));
    assert_eq!(w.door(p(1, -1), p(1, 0)), Some(1));
    assert_eq!(w.door(p(1, 0), p(1, 1)), Some(2));
    assert_eq!(w.door(p(1, 1), p(1, 2)), Some(2));
    assert_eq!(w.door(p(0, 2), p(1, 2)), Some(2));
    assert_eq!(w.door(p(-1, 2), p(0, 2)), Some(2));
    assert_eq!(w.door(p(0, 0), p(-1, 0)), Some(3));
    assert_eq!(w.door(p(-1, 0), p(-2, 0)), Some(3));
    assert_eq!(w.door(p(-2, 0), p(-3, 0)), Some(3));
    assert_eq!(w.door(p(-2, 0), p(-2, -1)), Some(3));
    assert_eq!(w.door(p(0, 0), p(0, 1)), None);
    assert_eq!(w.door(p(0, 2), p(0, 0)), None);
    assert_eq!(w.door_entries().len(), 13);
}

#[test]
fn orbs_lie_at_the_origin_and_the_walk_ends() {
    let w = World::new(sample_walks());
    let orb = |level: u8| Orb { x: 3, y: 3, level };
    assert_eq!(w.orbs(p(0, 0)), Some(vec![orb(1), orb(1)]));
    assert_eq!(w.orbs(p(1, 0)), Some(vec![orb(2)]));
    assert_eq!(w.orbs(p(-1, 2)), Some(vec![orb(3)]));
    assert_eq!(w.orbs(p(-2, -1)), Some(vec![orb(4)]));
    assert_eq!(w.orbs(p(2, 0)), None);
}

#[test]
fn walks_ending_in_the_same_room_leave_their_orbs_in_order() {
    let orb = |level: u8| Orb { x: 3, y: 3, level };
    let walks = [[Right, Left, Up, Down, Up], [Down, Up, Right, Left, Up], [Left, Right, Left, Right, Up]];
    let w = World::new(walks);
    assert_eq!(w.orbs(p(0, -1)), Some(vec![orb(2), orb(3), orb(4)]));
    assert_eq!(w.orbs(p(0, 0)), Some(vec![orb(1), orb(1)]));
    let walks = [[Up, Down, Up, Down, Up], [Down, Up, Down, Up, Down], [Up, Down, Up, Down, Down]];
    let w = World::new(walks);
    assert_eq!(w.orbs(p(0, -1)), Some(vec![orb(2)]));
    assert_eq!(w.orbs(p(0, 1)), Some(vec![orb(3), orb(4)]));
    assert_eq!(w.room_positions().len(), 3);
    assert_eq!(w.door(p(0, 0), p(0, -1)), Some(1));
    assert_eq!(w.door(p(0, 0), p(0, 1)), Some(2));
}

#[test]
fn room_tiles_have_walls_and_doors() {
    let w = World::new(sample_walks());
    let room = w.room(p(1, 0)).unwrap();
    assert_eq!(room.len(), ROOM_TILES);
    // left door, level 1
    for row in 14..17 {
        assert_eq!(room[32 * row], 1);
        assert_eq!(room[32 * row + 31], 1);
    }
    assert_eq!(room[32 * 13], 4);
    assert_eq!(room[32 * 17 + 31], 4);
    // top door, level 2, and its ledges
    for col in 14..18 {
        assert_eq!(room[col], 2);
        assert_eq!(room[32 * 17 + col], 1);
    }
    assert_eq!(room[13], 4);
    assert_eq!(room[18], 4);
    assert_eq!(room[32 + 13], 4);
    assert_eq!(room[32 * 2 + 14], 4);
    for col in 13..17 {
        assert_eq!(room[32 * 5 + col], 4);
    }
    for col in 9..12 {
        assert_eq!(room[32 * 9 + col], 4);
    }
    for col in 5..8 {
        assert_eq!(room[32 * 13 + col], 4);
    }
    assert_eq!(room[32 * 5 + 17], 0);
    assert_eq!(room[32 * 3 + 3], 0);
    // the room at the far left has only a right door, of level 3
    let room = w.room(p(-3, 0)).unwrap();
    assert_eq!(room[32 * 15 + 31], 3);
    assert_eq!(room[32 * 15], 4);
    assert_eq!(room[15], 4);
    assert_eq!(room[32 + 13], 0);
}

#[test]
fn empty_room_is_walled() {
    let r = empty_room();
    assert_eq!(r.len(), 576);
    for i in 0..576 {
        let (row, col) = (i / 32, i % 32);
        let border = row == 0 || row == 17 || col == 0 || col == 31;
        assert_eq!(r[i], if border { 4 } else { 0 });
    }
}

#[test]
fn build_room_cuts_bottom_door() {
    let r = build_room(DoorLevels { left: None, right: None, top: None, bottom: Some(2) });
    for col in 0..32 {
        let expected = if (14..18).contains(&col) { 2 } else { 4 };
        assert_eq!(r[32 * 17 + col], expected);
    }
    assert_eq!(r[32 + 13], 0);
}

#[test]
fn neighbours_exist_only_where_rooms_are() {
    let w = World::new(sample_walks());
    assert_eq!(w.neighbor(p(0, 0), Exit::Right), Some(p(1, 0)));
    assert_eq!(w.neighbor(p(0, 0), Exit::Left), Some(p(-1, 0)));
    assert_eq!(w.neighbor(p(0, 0), Exit::Top), None);
    assert_eq!(w.neighbor(p(0, 0), Exit::Bottom), None);
    assert_eq!(w.neighbor(p(1, 0), Exit::Top), Some(p(1, 1)));
    assert_eq!(w.neighbor(p(1, 0), Exit::Bottom), Some(p(1, -1)));
    assert_eq!(w.neighbor(p(i32::MAX, 0), Exit::Right), None);
    assert_eq!(w.neighbor(p(0, i32::MIN), Exit::Bottom), None);
}

#[test]
fn every_room_is_reachable_through_doors() {
    let w = World::new(sample_walks());
    let rooms = w.room_positions();
    let mut reached = vec![p(0, 0)];
    let mut frontier = vec![p(0, 0)];
    while let Some(q) = frontier.pop() {
        for r in rooms.iter() {
            if !reached.contains(r) && w.door(q, *r).is_some() {
                reached.push(*r);
                frontier.push(*r);
            }
        }
    }
    assert_eq!(reached.len(), rooms.len());
}

#[test]
fn doors_join_neighbouring_rooms_and_show_on_both_sides() {
    let w = World::new(sample_walks());
    for ((a, b), level) in w.door_entries() {
        assert!(w.has_room(a) && w.has_room(b));
        assert!((1..=3).contains(&level));
        let ra = w.room(a).unwrap();
        let rb = w.room(b).unwrap();
        if b == p(a.x + 1, a.y) {
            for row in 14..17 {
                assert_eq!(ra[32 * row + 31], level);
                assert_eq!(rb[32 * row], level);
            }
        } else {
            assert_eq!(b, p(a.x, a.y + 1));
            for col in 14..18 {
                assert_eq!(ra[col], level);
                assert_eq!(rb[32 * 17 + col], level);
            }
        }
    }
}

#[test]
fn tiles_stay_between_empty_and_wall() {
    let w = World::new(sample_walks());
    for q in w.room_positions() {
        assert!(w.room(q).unwrap().iter().all(|t| *t <= 4));
    }
}

#[test]
fn each_walk_leads_to_its_orb_through_low_doors() {
    let walks = sample_walks();
    let w = World::new(walks);
    for (k, walk) in walks.iter().enumerate() {
        let (mut x, mut y) = (0, 0);
        for m in walk.iter() {
            let prev = p(x, y);
            move_to(&mut x, &mut y, *m);
            let level = w.door(prev, p(x, y)).unwrap();
            assert!(level as usize <= k + 1);
        }
        let orbs = w.orbs(p(x, y)).unwrap();
        assert!(orbs.iter().any(|o| o.level as usize == k + 2));
    }
}
