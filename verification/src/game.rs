//! The discrete rules of play: the map key, which way the player pushes, which tiles block
//! the player, and picking up orbs.
use vstd::prelude::*;

verus! {

/// The level of power from which the player flies instead of falling.
pub const FLYING_LEVEL: u8 = 4;

/// Whether the player is playing inside a room or looking at the whole map.
#[derive(PartialEq, Eq, Structural, Clone, Copy, Debug)]
pub enum GameMode {
    Playing,
    ViewingTheMap,
}

impl GameMode {
    /// The other mode.
    pub fn toggled(&self) -> (r: GameMode)
        ensures
            r == self.toggled_spec(),
            r != *self,
    {
        match self {
            GameMode::Playing => GameMode::ViewingTheMap,
            GameMode::ViewingTheMap => GameMode::Playing,
        }
    }
}

/// Which keys are held (and, for jump and the map, pressed since they were last handled).
#[derive(PartialEq, Eq, Structural, Clone, Copy, Debug)]
pub struct Input {
    pub up: bool,
    pub down: bool,
    pub left: bool,
    pub right: bool,
    pub jump: bool,
    pub view_map: bool,
}

/// The keys the game listens to.
#[derive(PartialEq, Eq, Structural, Clone, Copy, Debug)]
pub enum Key {
    W,
    S,
    A,
    D,
    M,
    Space,
    Other,
}

impl Key {
    /// The key with the given DOM key code.
    pub open spec fn from_code_spec(code: u32) -> Key {
        if code == 87 {
            Key::W
        } else if code == 83 {
            Key::S
        } else if code == 65 {
            Key::A
        } else if code == 68 {
            Key::D
        } else if code == 77 {
            Key::M
        } else if code == 32 {
            Key::Space
        } else {
            Key::Other
        }
    }

    /// The key with the given DOM key code.
    pub fn from_code(code: u32) -> (k: Key)
        ensures
            k == Key::from_code_spec(code),
    {
        if code == 87 {
            Key::W
        } else if code == 83 {
            Key::S
        } else if code == 65 {
            Key::A
        } else if code == 68 {
            Key::D
        } else if code == 77 {
            Key::M
        } else if code == 32 {
            Key::Space
        } else {
            Key::Other
        }
    }
}

/// The state of the keys after `key` went down (`pressed`) or up: W, S, A and D hold up,
/// down, left and right, M holds the map key; space only ever sets jump, which the game
/// clears once it has seen it.
pub open spec fn after_key(input: Input, key: Key, pressed: bool) -> Input {
    match key {
        Key::W => Input { up: pressed, ..input },
        Key::S => Input { down: pressed, ..input },
        Key::A => Input { left: pressed, ..input },
        Key::D => Input { right: pressed, ..input },
        Key::M => Input { view_map: pressed, ..input },
        Key::Space => if pressed { Input { jump: true, ..input } } else { input },
        Key::Other => input,
    }
}

impl Input {
    /// No key held.
    pub fn new() -> (i: Input)
        ensures
            !i.up && !i.down && !i.left && !i.right && !i.jump && !i.view_map,
    {
        Input { up: false, down: false, left: false, right: false, jump: false, view_map: false }
    }

    /// Records that `key` went down (`pressed`) or up.
    pub fn on_key(&mut self, key: Key, pressed: bool)
        ensures
            *final(self) == after_key(*old(self), key, pressed),
    {
        match key {
            Key::W => self.up = pressed,
            Key::S => self.down = pressed,
            Key::A => self.left = pressed,
            Key::D => self.right = pressed,
            Key::M => self.view_map = pressed,
            Key::Space => {
                if pressed {
                    self.jump = true;
                }
            },
            Key::Other => {},
        }
    }
}

/// The mode and keys after handling the map key.
pub open spec fn map_key_spec(mode: GameMode, input: Input) -> (GameMode, Input) {
    if input.view_map {
        (mode.toggled_spec(), Input { view_map: false, ..input })
    } else {
        (mode, input)
    }
}

/// Handles the map key: a press switches between playing and viewing the map, and is used up.
pub fn handle_map_key(mode: &mut GameMode, input: &mut Input)
    ensures
        (*final(mode), *final(input)) == map_key_spec(*old(mode), *old(input)),
{
    if input.view_map {
        *mode = mode.toggled();
        input.view_map = false;
    }
}

impl GameMode {
    /// The other mode.
    pub open spec fn toggled_spec(self) -> GameMode {
        match self {
            GameMode::Playing => GameMode::ViewingTheMap,
            GameMode::ViewingTheMap => GameMode::Playing,
        }
    }
}

/// From this level of power on the player flies.
pub open spec fn can_fly(can_pass: u8) -> bool {
    can_pass >= FLYING_LEVEL
}

/// Whether gravity pulls the player: it does until the player can fly.
pub fn feels_gravity(can_pass: u8) -> (r: bool)
    ensures
        r == !can_fly(can_pass),
{
    can_pass < FLYING_LEVEL
}

/// The direction the player pushes in, on each axis -1, 0 or 1: left and right on the
/// horizontal axis (both cancel out); up and down on the vertical one only when flying.
pub open spec fn steering_spec(input: Input, can_pass: u8) -> (int, int) {
    let x = (if input.right { 1int } else { 0int }) - (if input.left { 1int } else { 0int });
    let y = if can_fly(can_pass) {
        (if input.up { 1int } else { 0int }) - (if input.down { 1int } else { 0int })
    } else {
        0int
    };
    (x, y)
}

/// The direction the player pushes in.
pub fn steering(input: &Input, can_pass: u8) -> (r: (i8, i8))
    ensures
        (r.0 as int, r.1 as int) == steering_spec(*input, can_pass),
{
    let mut x: i8 = 0;
    let mut y: i8 = 0;
    if input.left {
        x = x - 1;
    }
    if input.right {
        x = x + 1;
    }
    if can_pass >= FLYING_LEVEL {
        if input.up {
            y = y + 1;
        }
        if input.down {
            y = y - 1;
        }
    }
    (x, y)
}

/// A tile blocks the player when its value is above the player's level of power.
pub open spec fn is_solid(tile: u8, can_pass: u8) -> bool {
    tile > can_pass
}

/// The column and row of each tile that blocks the player, in the order the tiles are stored.
pub open spec fn solid_tiles_spec(tiles: Seq<u8>, can_pass: u8) -> Seq<(usize, usize)>
    decreases tiles.len(),
{
    if tiles.len() == 0 {
        Seq::empty()
    } else {
        let i = tiles.len() - 1;
        let rest = solid_tiles_spec(tiles.drop_last(), can_pass);
        if is_solid(tiles.last(), can_pass) {
            rest.push(((i % 32) as usize, (i / 32) as usize))
        } else {
            rest
        }
    }
}

/// The column and row of each tile of `tiles` that blocks a player of level `can_pass`.
pub fn solid_tiles(tiles: &Vec<u8>, can_pass: u8) -> (v: Vec<(usize, usize)>)
    ensures
        v@ == solid_tiles_spec(tiles@, can_pass),
{
    let mut v: Vec<(usize, usize)> = Vec::new();
    let mut i: usize = 0;
    while i < tiles.len()
        invariant
            i <= tiles@.len(),
            v@ == solid_tiles_spec(tiles@.take(i as int), can_pass),
        decreases tiles@.len() - i,
    {
        if tiles[i] > can_pass {
            v.push((i % 32, i / 32));
        }
        proof {
            assert(tiles@.take(i + 1).drop_last() =~= tiles@.take(i as int));
        }
        i = i + 1;
    }
    proof {
        assert(tiles@.take(tiles@.len() as int) =~= tiles@);
    }
    v
}

/// The player's level after touching (`hit`) or missing an orb of level `orb_level`: an orb
/// above the player's level raises it to the orb's level.
pub open spec fn pick_up_spec(can_pass: u8, orb_level: u8, hit: bool) -> u8 {
    if hit && orb_level > can_pass {
        orb_level
    } else {
        can_pass
    }
}

/// The player's level after touching (`hit`) or missing an orb of level `orb_level`.
pub fn pick_up(can_pass: u8, orb_level: u8, hit: bool) -> (r: u8)
    ensures
        r == pick_up_spec(can_pass, orb_level, hit),
{
    if hit && orb_level > can_pass {
        orb_level
    } else {
        can_pass
    }
}


/// Switching the mode twice gives back the mode one started from.
pub proof fn lemma_toggle_twice(m: GameMode)
    ensures
        m.toggled_spec().toggled_spec() == m,
        m.toggled_spec() != m,
{
}

/// Picking up orbs never takes power away; touching an orb leaves the player at the higher
/// of the two levels.
pub proof fn lemma_pick_up_keeps_power(can_pass: u8, orb_level: u8, hit: bool)
    ensures
        pick_up_spec(can_pass, orb_level, hit) >= can_pass,
        hit ==> pick_up_spec(can_pass, orb_level, hit) >= orb_level,
        !hit ==> pick_up_spec(can_pass, orb_level, hit) == can_pass,
        pick_up_spec(can_pass, orb_level, hit) == can_pass || pick_up_spec(can_pass, orb_level, hit)
            == orb_level,
{
}

/// A tile's column and row are listed as solid exactly when some tile at that place is above
/// the player's level.
pub proof fn lemma_solid_tiles_members(tiles: Seq<u8>, can_pass: u8, c: usize, r: usize)
    requires
        tiles.len() <= usize::MAX,
    ensures
        solid_tiles_spec(tiles, can_pass).contains((c, r)) <==> exists|i: int|
            0 <= i < tiles.len() && #[trigger] tiles[i] > can_pass && c == i % 32 && r == i / 32,
    decreases tiles.len(),
{
    if tiles.len() > 0 {
        let t = tiles.drop_last();
        let n = tiles.len() - 1;
        lemma_solid_tiles_members(t, can_pass, c, r);
        let rest = solid_tiles_spec(t, can_pass);
        let full = solid_tiles_spec(tiles, can_pass);
        if full.contains((c, r)) {
            let k = choose|k: int| 0 <= k < full.len() && full[k] == (c, r);
            if is_solid(tiles.last(), can_pass) && k == rest.len() {
                assert(tiles[n] == tiles.last());
            } else {
                assert(rest[k] == (c, r));
                assert(rest.contains((c, r)));
                let i = choose|i: int|
                    0 <= i < t.len() && #[trigger] t[i] > can_pass && c == i % 32 && r == i / 32;
                assert(tiles[i] == t[i]);
            }
        }
        if exists|i: int|
            0 <= i < tiles.len() && #[trigger] tiles[i] > can_pass && c == i % 32 && r == i / 32 {
            let i = choose|i: int|
                0 <= i < tiles.len() && #[trigger] tiles[i] > can_pass && c == i % 32 && r == i / 32;
            if i == n {
                assert(full[full.len() - 1] == (c, r));
            } else {
                assert(t[i] == tiles[i]);
                assert(rest.contains((c, r)));
                let k = choose|k: int| 0 <= k < rest.len() && rest[k] == (c, r);
                if is_solid(tiles.last(), can_pass) {
                    assert(full[k] == (c, r));
                }
            }
        }
    }
}

/// More power never makes more tiles solid: whatever blocks a stronger player also blocks a
/// weaker one.
pub proof fn lemma_solid_tiles_shrink(tiles: Seq<u8>, weaker: u8, stronger: u8, c: usize, r: usize)
    requires
        tiles.len() <= usize::MAX,
        weaker <= stronger,
        solid_tiles_spec(tiles, stronger).contains((c, r)),
    ensures
        solid_tiles_spec(tiles, weaker).contains((c, r)),
{
    lemma_solid_tiles_members(tiles, stronger, c, r);
    lemma_solid_tiles_members(tiles, weaker, c, r);
    let i = choose|i: int|
        0 <= i < tiles.len() && #[trigger] tiles[i] > stronger && c == i % 32 && r == i / 32;
}


/// Steering: left and right always count, pulling -1 and +1 on the horizontal axis and
/// cancelling out when both are held; up and down are ignored below level 4 and pull +1 and -1
/// on the vertical axis from level 4 on.
pub proof fn lemma_steering_axes(input: Input, can_pass: u8)
    ensures
        steering_spec(input, can_pass).0 == 1 <==> (input.right && !input.left),
        steering_spec(input, can_pass).0 == -1 <==> (input.left && !input.right),
        steering_spec(input, can_pass).0 == 0 <==> (input.left == input.right),
        can_pass < 4 ==> steering_spec(input, can_pass).1 == 0,
        can_pass >= 4 ==> {
            &&& steering_spec(input, can_pass).1 == 1 <==> (input.up && !input.down)
            &&& steering_spec(input, can_pass).1 == -1 <==> (input.down && !input.up)
            &&& steering_spec(input, can_pass).1 == 0 <==> (input.up == input.down)
        },
{
}

/// Steering does not depend on jump or the map key, and below level 4 not on up or down.
pub proof fn lemma_steering_ignores(a: Input, b: Input, can_pass: u8)
    requires
        a.left == b.left,
        a.right == b.right,
        can_pass >= 4 ==> a.up == b.up && a.down == b.down,
    ensures
        steering_spec(a, can_pass) == steering_spec(b, can_pass),
{
}

/// A key event sets the held state of its key to exactly whether it is pressed (W up, S down,
/// A left, D right, M the map key) and leaves every other key alone; space sets jump when
/// pressed and changes nothing when released; other keys change nothing.
pub proof fn lemma_on_key_sets_its_field(input: Input, key: Key, pressed: bool)
    ensures
        ({
            let after = after_key(input, key, pressed);
            &&& after.up == (if key == Key::W { pressed } else { input.up })
            &&& after.down == (if key == Key::S { pressed } else { input.down })
            &&& after.left == (if key == Key::A { pressed } else { input.left })
            &&& after.right == (if key == Key::D { pressed } else { input.right })
            &&& after.view_map == (if key == Key::M { pressed } else { input.view_map })
            &&& after.jump == (if key == Key::Space && pressed { true } else { input.jump })
        }),
{
}

/// Pressing and then releasing a held key (W, S, A, D or M) leaves it released, whatever it
/// was before.
pub proof fn lemma_press_release(input: Input, key: Key)
    requires
        key != Key::Space,
        key != Key::Other,
    ensures
        after_key(after_key(input, key, true), key, false) == after_key(input, key, false),
        after_key(input, key, false) != after_key(input, key, true),
{
}


/// The map key: a press switches between playing and viewing the map and is used up; without
/// a press nothing changes. No other key is touched.
pub proof fn lemma_map_key(mode: GameMode, input: Input)
    ensures
        !map_key_spec(mode, input).1.view_map,
        (map_key_spec(mode, input).0 != mode) == input.view_map,
        map_key_spec(mode, input).1.up == input.up,
        map_key_spec(mode, input).1.down == input.down,
        map_key_spec(mode, input).1.left == input.left,
        map_key_spec(mode, input).1.right == input.right,
        map_key_spec(mode, input).1.jump == input.jump,
        input.view_map ==> map_key_spec(map_key_spec(mode, input).0, Input { view_map: true, ..input }).0
            == mode,
{
}

/// Gravity pulls the player exactly below level 4, that is exactly when the vertical keys do
/// nothing.
pub proof fn lemma_gravity_until_level_4(can_pass: u8)
    ensures
        !can_fly(can_pass) <==> can_pass < 4,
{
}

/// The key codes: W 87, S 83, A 65, D 68, M 77, space 32; any other code is no key of the game.
pub proof fn lemma_key_codes(code: u32)
    ensures
        (Key::from_code_spec(code) == Key::W) <==> code == 87,
        (Key::from_code_spec(code) == Key::S) <==> code == 83,
        (Key::from_code_spec(code) == Key::A) <==> code == 65,
        (Key::from_code_spec(code) == Key::D) <==> code == 68,
        (Key::from_code_spec(code) == Key::M) <==> code == 77,
        (Key::from_code_spec(code) == Key::Space) <==> code == 32,
{
}

} // verus!
