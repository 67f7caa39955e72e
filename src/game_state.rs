use vstd::prelude::*;

verus! {

/// Side of a square tile on screen, in pixels.
pub const TILE_SIZE: u32 = 32;

/// The tools of build mode.
#[derive(Clone, Copy, Debug, PartialEq, Eq, Structural)]
pub enum BuildTool {
    ArcherTower,
    FireballTower,
    Goblin,
    Wall,
    Base,
}

/// The tools of seed mode.
#[derive(Clone, Copy, Debug, PartialEq, Eq, Structural)]
pub enum SeedTool {
    Shovel,
    Hoe,
    Carrot,
    Tomato,
}

/// A tool applied to the tile under the pointer.
#[derive(Clone, Copy, Debug, PartialEq, Eq, Structural)]
pub enum Action {
    Build(BuildTool),
    Seed(SeedTool),
}

/// The picture shown over a tile while a placement is previewed.
#[derive(Clone, Copy, Debug, PartialEq, Eq, Structural)]
pub enum PreviewIcon {
    ArcherTower,
    FireballTower,
    Goblin,
    Cobblestone,
    House,
    Shovel,
    Hoe,
    Carrot,
    Tomato,
}

/// A previewed placement: what would be placed, and where.
#[derive(Clone, Copy, Debug, PartialEq, Eq, Structural)]
pub struct Preview {
    pub icon: PreviewIcon,
    pub col: usize,
    pub row: usize,
}

/// A one-shot message for the player.
#[derive(Clone, Copy, Debug, PartialEq, Eq, Structural)]
pub enum Advisory {
    /// Seeds were aimed at something other than an empty field.
    PlantOnField,
    /// The base has just been built.
    BaseCreated,
}

/// The keys the simulation reacts to.
#[derive(Clone, Copy, Debug, PartialEq, Eq, Structural)]
pub enum Key {
    P,
    Escape,
    Q,
    W,
    A,
    S,
    D,
    T,
    Y,
    Num1,
    Num2,
    Other,
}

/// One input event, as the window reports it.
#[derive(Clone, Copy, Debug, PartialEq, Eq, Structural)]
pub enum InputEvent {
    Quit,
    KeyDown(Key),
    KeyUp(Key),
    MouseMotion(i32, i32),
    /// A mouse button went down; `true` for the left (confirm) button.
    MouseDown(bool),
    MouseUp,
}

/// The state that input, placement and enemies share during a run.
pub struct GameState {
    pub quit: bool,
    pub up: bool,
    pub down: bool,
    pub left: bool,
    pub right: bool,
    pub build_mode: bool,
    pub seed_mode: bool,
    pub current_build: Option<BuildTool>,
    pub current_seed: Option<SeedTool>,
    /// The button of the current tool is highlighted.
    pub tool_highlighted: bool,
    /// The pointer is over a piece of the user interface.
    pub hovering_button: bool,
    /// The confirm (left) mouse button is held.
    pub confirm: bool,
    pub mouse_point: (i32, i32),
    pub cam: (i32, i32),
    pub preview_mode: bool,
    /// Set by a committed placement; cleared when the mouse button is released.
    pub placed: bool,
    pub preview: Option<Preview>,
    pub message: Option<Advisory>,
    pub carrot_amount: u64,
    pub tomato_amount: u64,
    pub target_vec: Vec<(usize, usize)>,
    pub base_location: Option<(usize, usize)>,
    pub frame_time: u64,
    pub is_pathfinding: bool,
}

/// The pointer, shifted by the camera, lies on tile `(c, r)`.
pub open spec fn over_tile(mouse: (i32, i32), cam: (i32, i32), c: int, r: int) -> bool {
    let px = mouse.0 + cam.0;
    let py = mouse.1 + cam.1;
    &&& px >= 0
    &&& py >= 0
    &&& px / (TILE_SIZE as int) == c
    &&& py / (TILE_SIZE as int) == r
}

/// The tool that acts on the pointed tile: build mode's, else seed mode's.
pub open spec fn active_action(g: GameState) -> Option<Action> {
    if g.build_mode && g.current_build is Some {
        Some(Action::Build(g.current_build->0))
    } else if g.seed_mode && g.current_seed is Some {
        Some(Action::Seed(g.current_seed->0))
    } else {
        None
    }
}

/// `a` and `b` agree on everything that input events set.
pub open spec fn same_inputs(a: GameState, b: GameState) -> bool {
    &&& a.quit == b.quit
    &&& a.up == b.up
    &&& a.down == b.down
    &&& a.left == b.left
    &&& a.right == b.right
    &&& a.build_mode == b.build_mode
    &&& a.seed_mode == b.seed_mode
    &&& a.current_build == b.current_build
    &&& a.current_seed == b.current_seed
    &&& a.tool_highlighted == b.tool_highlighted
    &&& a.hovering_button == b.hovering_button
    &&& a.confirm == b.confirm
    &&& a.mouse_point == b.mouse_point
    &&& a.cam == b.cam
    &&& a.frame_time == b.frame_time
}

/// `a` and `b` agree on everything but the placement protocol's fields.
pub open spec fn same_but_placement(a: GameState, b: GameState) -> bool {
    &&& same_inputs(a, b)
    &&& a.carrot_amount == b.carrot_amount
    &&& a.tomato_amount == b.tomato_amount
    &&& a.target_vec@ == b.target_vec@
    &&& a.base_location == b.base_location
    &&& a.is_pathfinding == b.is_pathfinding
}

/// `a` and `b` agree on everything but the movement and mode flags that keys set.
pub open spec fn same_but_keys(a: GameState, b: GameState) -> bool {
    &&& a.current_build == b.current_build
    &&& a.current_seed == b.current_seed
    &&& a.tool_highlighted == b.tool_highlighted
    &&& a.hovering_button == b.hovering_button
    &&& a.confirm == b.confirm
    &&& a.mouse_point == b.mouse_point
    &&& a.cam == b.cam
    &&& a.frame_time == b.frame_time
    &&& a.preview_mode == b.preview_mode
    &&& a.placed == b.placed
    &&& a.preview == b.preview
    &&& a.message == b.message
    &&& a.carrot_amount == b.carrot_amount
    &&& a.tomato_amount == b.tomato_amount
    &&& a.base_location == b.base_location
    &&& a.is_pathfinding == b.is_pathfinding
}

/// Movement flag that a key holds: `Some(index)` into (up, down, left, right).
pub open spec fn movement_key(k: Key) -> Option<int> {
    match k {
        Key::W => Some(0),
        Key::S => Some(1),
        Key::A => Some(2),
        Key::D => Some(3),
        _ => None,
    }
}

pub open spec fn movement_flags(g: GameState) -> (bool, bool, bool, bool) {
    (g.up, g.down, g.left, g.right)
}

pub open spec fn set_flag(f: (bool, bool, bool, bool), i: int, v: bool) -> (bool, bool, bool, bool) {
    if i == 0 {
        (v, f.1, f.2, f.3)
    } else if i == 1 {
        (f.0, v, f.2, f.3)
    } else if i == 2 {
        (f.0, f.1, v, f.3)
    } else {
        (f.0, f.1, f.2, v)
    }
}

/// What a key going down does to the state.
pub open spec fn key_down_post(a: GameState, b: GameState, key: Key) -> bool {
    &&& same_but_keys(a, b)
    &&& key == Key::P ==> b.target_vec@.len() == 0
    &&& key != Key::P ==> b.target_vec@ == a.target_vec@
    &&& b.quit == (a.quit || key == Key::Escape || key == Key::Q)
    &&& movement_key(key) is Some ==> movement_flags(b) == set_flag(movement_flags(a), movement_key(key)->0, true)
    &&& movement_key(key) is None ==> movement_flags(b) == movement_flags(a)
    &&& key == Key::T ==> b.build_mode == !a.build_mode && b.seed_mode == (a.seed_mode && a.build_mode)
    &&& key == Key::Y ==> b.seed_mode == !a.seed_mode && b.build_mode == (a.build_mode && a.seed_mode)
    &&& key != Key::T && key != Key::Y ==> b.build_mode == a.build_mode && b.seed_mode == a.seed_mode
}

/// What a key going up does to the state.
pub open spec fn key_up_post(a: GameState, b: GameState, key: Key) -> bool {
    &&& same_but_keys(a, b)
    &&& b.target_vec@ == a.target_vec@
    &&& b.quit == a.quit
    &&& b.build_mode == a.build_mode
    &&& b.seed_mode == a.seed_mode
    &&& movement_key(key) is Some ==> movement_flags(b) == set_flag(movement_flags(a), movement_key(key)->0, false)
    &&& movement_key(key) is None ==> movement_flags(b) == movement_flags(a)
}

/// What a mouse event does to the state.
pub open spec fn mouse_post(a: GameState, b: GameState, event: InputEvent) -> bool {
    &&& a.current_build == b.current_build
    &&& a.current_seed == b.current_seed
    &&& a.tool_highlighted == b.tool_highlighted
    &&& a.hovering_button == b.hovering_button
    &&& a.cam == b.cam
    &&& a.frame_time == b.frame_time
    &&& a.preview_mode == b.preview_mode
    &&& a.preview == b.preview
    &&& a.message == b.message
    &&& a.carrot_amount == b.carrot_amount
    &&& a.tomato_amount == b.tomato_amount
    &&& a.base_location == b.base_location
    &&& a.is_pathfinding == b.is_pathfinding
    &&& b.quit == a.quit
    &&& b.build_mode == a.build_mode
    &&& b.seed_mode == a.seed_mode
    &&& movement_flags(b) == movement_flags(a)
    &&& b.target_vec@ == a.target_vec@
    &&& b.mouse_point == (if event is MouseMotion {
        (event->MouseMotion_0, event->MouseMotion_1)
    } else {
        a.mouse_point
    })
    &&& b.confirm == (if event is MouseDown {
        event->MouseDown_0
    } else if event is MouseUp {
        false
    } else {
        a.confirm
    })
    &&& b.placed == (a.placed && !(event is MouseUp))
}

impl GameState {
    /// A state at the start of a run: no mode, no tool, no targets, nothing harvested.
    pub fn new() -> (g: GameState)
        ensures
            !g.quit && !g.up && !g.down && !g.left && !g.right,
            !g.build_mode && !g.seed_mode,
            g.current_build is None && g.current_seed is None,
            !g.tool_highlighted && !g.hovering_button && !g.confirm,
            g.mouse_point == (0i32, 0i32) && g.cam == (0i32, 0i32),
            !g.preview_mode && !g.placed,
            g.preview is None && g.message is None,
            g.carrot_amount == 0 && g.tomato_amount == 0,
            g.target_vec@.len() == 0,
            g.base_location is None,
            g.frame_time == 0,
            !g.is_pathfinding,
    {
        GameState {
            quit: false,
            up: false,
            down: false,
            left: false,
            right: false,
            build_mode: false,
            seed_mode: false,
            current_build: None,
            current_seed: None,
            tool_highlighted: false,
            hovering_button: false,
            confirm: false,
            mouse_point: (0, 0),
            cam: (0, 0),
            preview_mode: false,
            placed: false,
            preview: None,
            message: None,
            carrot_amount: 0,
            tomato_amount: 0,
            target_vec: Vec::new(),
            base_location: None,
            frame_time: 0,
            is_pathfinding: false,
        }
    }

    /// Whether the pointer lies on tile `(c, r)`.
    pub fn over_tile(&self, c: usize, r: usize) -> (b: bool)
        ensures
            b == over_tile(self.mouse_point, self.cam, c as int, r as int),
    {
        let px: i64 = self.mouse_point.0 as i64 + self.cam.0 as i64;
        let py: i64 = self.mouse_point.1 as i64 + self.cam.1 as i64;
        if px < 0 || py < 0 {
            false
        } else {
            let tc: i64 = px / (TILE_SIZE as i64);
            let tr: i64 = py / (TILE_SIZE as i64);
            c as i128 == tc as i128 && r as i128 == tr as i128
        }
    }

    /// The tool that acts on the pointed tile, if any.
    pub fn active_action(&self) -> (a: Option<Action>)
        ensures
            a == active_action(*self),
    {
        if self.build_mode && self.current_build.is_some() {
            match self.current_build {
                Some(b) => Some(Action::Build(b)),
                None => None,
            }
        } else if self.seed_mode && self.current_seed.is_some() {
            match self.current_seed {
                Some(s) => Some(Action::Seed(s)),
                None => None,
            }
        } else {
            None
        }
    }

    /// Reacts to a key going down. `P` clears the targets; `Escape` and `Q` quit; `W`, `S`,
    /// `A`, `D` hold a movement flag; `T` and `Y` toggle build and seed mode, turning the
    /// other mode off when they turn theirs on.
    #[verifier::rlimit(30)]
    pub fn do_key_down(&mut self, key: Key)
        ensures
            key_down_post(*old(self), *final(self), key),
    {
        match key {
            Key::P => {
                self.target_vec.clear();
            },
            Key::Escape => {
                self.quit = true;
            },
            Key::Q => {
                self.quit = true;
            },
            Key::W => {
                self.up = true;
            },
            Key::S => {
                self.down = true;
            },
            Key::A => {
                self.left = true;
            },
            Key::D => {
                self.right = true;
            },
            Key::T => {
                if self.build_mode {
                    self.build_mode = false;
                } else {
                    self.build_mode = true;
                    self.seed_mode = false;
                }
            },
            Key::Y => {
                if self.seed_mode {
                    self.seed_mode = false;
                } else {
                    self.seed_mode = true;
                    self.build_mode = false;
                }
            },
            _ => {},
        }
    }

    /// Reacts to a key going up: `W`, `S`, `A`, `D` release their movement flag.
    pub fn do_key_up(&mut self, key: Key)
        ensures
            key_up_post(*old(self), *final(self), key),
    {
        match key {
            Key::W => {
                self.up = false;
            },
            Key::S => {
                self.down = false;
            },
            Key::A => {
                self.left = false;
            },
            Key::D => {
                self.right = false;
            },
            _ => {},
        }
    }

    /// Applies one input event. Returns `true` where the caller stops reading events for
    /// this frame: after a quit request or a key event. Releasing the mouse button ends the
    /// input event, which clears the placement latch.
    #[verifier::rlimit(40)]
    pub fn do_event(&mut self, event: InputEvent) -> (stop: bool)
        ensures
            stop == (event is Quit || event is KeyDown || event is KeyUp),
            event is Quit ==> final(self).quit && same_but_keys(*old(self), *final(self))
                && final(self).target_vec@ == old(self).target_vec@,
            event is KeyDown ==> key_down_post(*old(self), *final(self), event->KeyDown_0),
            event is KeyUp ==> key_up_post(*old(self), *final(self), event->KeyUp_0),
            event is MouseMotion || event is MouseDown || event is MouseUp ==> mouse_post(
                *old(self),
                *final(self),
                event,
            ),
    {
        match event {
            InputEvent::Quit => {
                self.quit = true;
                true
            },
            InputEvent::KeyDown(k) => {
                self.do_key_down(k);
                true
            },
            InputEvent::KeyUp(k) => {
                self.do_key_up(k);
                true
            },
            InputEvent::MouseMotion(x, y) => {
                self.mouse_point = (x, y);
                false
            },
            InputEvent::MouseDown(left) => {
                self.confirm = left;
                false
            },
            InputEvent::MouseUp => {
                self.confirm = false;
                self.placed = false;
                false
            },
        }
    }
}

} // verus!
