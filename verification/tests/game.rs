use antisun::game::{feels_gravity, handle_map_key, pick_up, solid_tiles, steering, GameMode, Input, Key};
use antisun::room::empty_room;

#[test]
fn map_key_toggles_and_is_used_up() {
    let mut mode = GameMode::Playing;
    let mut input = Input::new();
    handle_map_key(&mut mode, &mut input);
    assert_eq!(mode, GameMode::Playing);
    input.view_map = true;
    input.left = true;
    handle_map_key(&mut mode, &mut input);
    assert_eq!(mode, GameMode::ViewingTheMap);
    assert!(!input.view_map);
    assert!(input.left);
    input.view_map = true;
    handle_map_key(&mut mode, &mut input);
    assert_eq!(mode, GameMode::Playing);
    assert_eq!(GameMode::Playing.toggled().toggled(), GameMode::Playing);
}

#[test]
fn keys_set_input() {
    let mut input = Input::new();
    input.on_key(Key::from_code(87), true);
    assert!(input.up);
    input.on_key(Key::from_code(87), false);
    assert!(!input.up);
    input.on_key(Key::from_code(65), true);
    input.on_key(Key::from_code(68), true);
    input.on_key(Key::from_code(83), true);
    assert!(input.left && input.right && input.down);
    input.on_key(Key::from_code(32), true);
    assert!(input.jump);
    input.on_key(Key::from_code(32), false);
    assert!(input.jump);
    input.on_key(Key::from_code(77), true);
    assert!(input.view_map);
    let before = input;
    input.on_key(Key::from_code(13), true);
    assert_eq!(input, before);
    assert_eq!(Key::from_code(13), Key::Other);
}

#[test]
fn steering_follows_keys() {
    let mut input = Input::new();
    assert_eq!(steering(&input, 0), (0, 0));
    input.left = true;
    assert_eq!(steering(&input, 0), (-1, 0));
    input.right = true;
    assert_eq!(steering(&input, 0), (0, 0));
    input.left = false;
    input.up = true;
    assert_eq!(steering(&input, 3), (1, 0));
    assert_eq!(steering(&input, 4), (1, 1));
    input.down = true;
    assert_eq!(steering(&input, 4), (1, 0));
    input.up = false;
    assert_eq!(steering(&input, 5), (1, -1));
}

#[test]
fn gravity_until_flying() {
    assert!(feels_gravity(0));
    assert!(feels_gravity(3));
    assert!(!feels_gravity(4));
    assert!(!feels_gravity(255));
}

#[test]
fn solid_tiles_depend_on_power() {
    let mut room = empty_room();
    room[32 * 15] = 1;
    room[32 * 5 + 7] = 2;
    let all = solid_tiles(&room, 0);
    assert_eq!(all.len(), 32 * 2 + 16 * 2 + 1);
    assert!(all.contains(&(0, 15)));
    assert!(all.contains(&(7, 5)));
    assert_eq!(all[0], (0, 0));
    let some = solid_tiles(&room, 1);
    assert!(!some.contains(&(0, 15)));
    assert!(some.contains(&(7, 5)));
    assert_eq!(some.len(), all.len() - 1);
    let walls = solid_tiles(&room, 3);
    assert_eq!(walls.len(), all.len() - 2);
    assert!(solid_tiles(&room, 4).is_empty());
}

#[test]
fn orbs_raise_power() {
    assert_eq!(pick_up(0, 1, true), 1);
    assert_eq!(pick_up(0, 1, false), 0);
    assert_eq!(pick_up(2, 1, true), 2);
    assert_eq!(pick_up(2, 4, true), 4);
    assert_eq!(pick_up(3, 3, true), 3);
}
