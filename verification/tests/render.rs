use antisun::map::{Orb, Pos};
use antisun::render::{door_color, map_rects, orb_color, orb_rects, player_rects, tile_color, tile_rects, Color, GridRect};
use antisun::room::empty_room;

fn r(cx: i64, cy: i64, ex: i64, ey: i64, color: Color) -> GridRect {
    GridRect { center_x: cx, center_y: cy, extent_x: ex, extent_y: ey, color }
}

#[test]
fn palette() {
    assert_eq!(tile_color(1), Color::Red);
    assert_eq!(tile_color(2), Color::Green);
    assert_eq!(tile_color(3), Color::Blue);
    assert_eq!(tile_color(4), Color::Rock);
    assert_eq!(tile_color(5), Color::Black);
    assert_eq!(tile_color(9), Color::DebugPink);
    assert_eq!(orb_color(1), Color::Red);
    assert_eq!(orb_color(4), Color::Black);
    assert_eq!(door_color(0), Color::Rock);
    assert_eq!(door_color(3), Color::Blue);
    assert_eq!(door_color(7), Color::Black);
}

#[test]
fn tiles_are_drawn_from_the_top_row_down() {
    let mut room = empty_room();
    room[32 * 15] = 2;
    let rects = tile_rects(&room);
    assert_eq!(rects.len(), 32 * 2 + 16 * 2);
    assert_eq!(rects[0], r(10, 350, 10, 10, Color::Rock));
    assert_eq!(rects[31], r(630, 350, 10, 10, Color::Rock));
    assert!(rects.contains(&r(10, 50, 10, 10, Color::Green)));
    assert_eq!(rects[rects.len() - 1], r(630, 10, 10, 10, Color::Rock));
}

#[test]
fn orbs_are_drawn_in_their_colour() {
    let orbs = vec![Orb { x: 3, y: 3, level: 1 }, Orb { x: 3, y: 3, level: 4 }];
    assert_eq!(orb_rects(&orbs), vec![r(60, 60, 10, 10, Color::Red), r(60, 60, 10, 10, Color::Black)]);
}

#[test]
fn player_shows_badges() {
    assert_eq!(
        player_rects(0, false),
        vec![r(0, 20, 10, 20, Color::LightBlue), r(0, 0, 8, 2, Color::DebugPink)]
    );
    assert_eq!(
        player_rects(3, true),
        vec![
            r(0, 20, 10, 20, Color::LightBlue),
            r(0, 40, 8, 5, Color::Red),
            r(0, 45, 6, 5, Color::Green),
            r(0, 50, 4, 5, Color::Blue),
            r(0, 0, 8, 2, Color::DarkBlue),
        ]
    );
    assert_eq!(player_rects(2, true).len(), 4);
}

#[test]
fn map_view_marks_rooms_then_doors() {
    let rooms = vec![Pos { x: 0, y: 0 }, Pos { x: 1, y: 0 }];
    let doors = vec![((Pos { x: 0, y: 0 }, Pos { x: 1, y: 0 }), 1u8), ((Pos { x: 1, y: -1 }, Pos { x: 1, y: 0 }), 3u8)];
    let rects = map_rects(&rooms, &doors, Pos { x: 1, y: 0 });
    assert_eq!(
        rects,
        vec![
            r(320, 180, 10, 10, Color::DebugPink),
            r(320, 180, 8, 8, Color::Gray),
            r(340, 180, 10, 10, Color::DebugPink),
            r(340, 180, 8, 8, Color::Gray),
            r(340, 180, 5, 5, Color::LightBlue),
            r(330, 180, 4, 4, Color::Red),
            r(340, 170, 4, 4, Color::Blue),
        ]
    );
}
