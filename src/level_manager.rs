use vstd::prelude::*;
use vstd::arithmetic::div_mod::lemma_fundamental_div_mod_converse;

use crate::building_manager::{
    BuildingManager,
    is_legal,
    acts,
    action_post,
    buildings_wf,
    base_placed,
    commits,
    farm_step,
    tile_after_action,
};
use crate::enemy_manager::{EnemyManager, enemies_consistent, spawned};
use crate::game_state::{Action, BuildTool, GameState, TILE_SIZE, active_action};
use crate::tile::{
    is_crop,
    is_occupant,
    LevelTile,
    TextureKey,
    TileData,
    TileType,
    MAX_HEIGHT,
    MAX_WIDTH,
    plain_tile,
    tile_of_char,
    tile_wf,
};

verus! {

/// Why a grid access or a level description was refused.
#[derive(Clone, Copy, Debug, PartialEq, Eq, Structural)]
pub enum LevelError {
    /// A coordinate outside the grid.
    OutOfBounds,
    /// Two lines of a level description decode to rows of different lengths.
    RaggedRows,
}

/// The level grid: `height` rows of `width` tiles, stored row after row.
pub struct LevelManager {
    pub level_vec: Vec<LevelTile>,
    pub width: usize,
    pub height: usize,
}

/// Position of column `c`, row `r` in a grid stored row after row.
pub open spec fn ix(w: int, c: int, r: int) -> int {
    r * w + c
}

pub proof fn lemma_ix_bounds(w: int, h: int, c: int, r: int)
    requires
        0 <= c < w,
        0 <= r < h,
    ensures
        0 <= ix(w, c, r) < w * h,
        (ix(w, c, r) % w) == c,
        (ix(w, c, r) / w) == r,
{
    assert(0 <= r * w + c < w * h) by (nonlinear_arith)
        requires
            0 <= c < w,
            0 <= r < h,
    ;
    lemma_fundamental_div_mod_converse(r * w + c, w, r, c);
}

pub proof fn lemma_pos_of(w: int, h: int, i: int)
    requires
        0 <= i < w * h,
        w > 0,
    ensures
        0 <= i % w < w,
        0 <= i / w < h,
        ix(w, i % w, i / w) == i,
{
    vstd::arithmetic::div_mod::lemma_fundamental_div_mod(i, w);
    vstd::arithmetic::div_mod::lemma_mod_pos_bound(i, w);
    vstd::arithmetic::mul::lemma_mul_is_commutative(w, i / w);
    assert(0 <= i / w < h) by (nonlinear_arith)
        requires
            0 <= i < w * h,
            w > 0,
            i == w * (i / w) + i % w,
            0 <= i % w < w,
    ;
}

/// The cell under the pointer, shifted by the camera (it may lie outside the grid).
pub open spec fn pointer_cell(g: GameState) -> (int, int) {
    ((g.mouse_point.0 + g.cam.0) / (TILE_SIZE as int), (g.mouse_point.1 + g.cam.1) / (TILE_SIZE as int))
}

/// The tile a tool acts on during a sweep, if any.
pub open spec fn acting_tile(g: GameState, level: LevelManager) -> Option<(usize, usize)> {
    let p = pointer_cell(g);
    if level.in_bounds(p.0, p.1) && acts(g, p.0 as usize, p.1 as usize) {
        Some((p.0 as usize, p.1 as usize))
    } else {
        None
    }
}

/// A tile after one sweep: acted on where the tool acts on it, then grown.
pub open spec fn swept_tile(g: GameState, bs: Seq<crate::building_manager::Building>, t: LevelTile, c: usize, r: usize) -> LevelTile {
    if acts(g, c, r) {
        farm_step(tile_after_action(g, bs, active_action(g)->0, t))
    } else {
        farm_step(t)
    }
}

pub open spec fn is_tower(a: Action) -> bool {
    a == Action::Build(BuildTool::ArcherTower) || a == Action::Build(BuildTool::FireballTower)
}

/// The tile where a sweep builds a tower, if it does.
pub open spec fn tower_placed(g: GameState, level: LevelManager) -> Option<(usize, usize)> {
    match acting_tile(g, level) {
        Some(p) => if is_tower(active_action(g)->0) && commits(
            g,
            active_action(g)->0,
            level.tile_at(p.0 as int, p.1 as int),
        ) {
            Some(p)
        } else {
            None
        },
        None => None,
    }
}

/// The tile where a sweep builds the base, if it does.
pub open spec fn base_built(
    g: GameState,
    bs: Seq<crate::building_manager::Building>,
    level: LevelManager,
) -> Option<(usize, usize)> {
    match acting_tile(g, level) {
        Some(p) => if base_placed(g, bs, active_action(g)->0, level.tile_at(p.0 as int, p.1 as int)) {
            Some(p)
        } else {
            None
        },
        None => None,
    }
}

/// `(c, r)` is one of the three tiles a base anchored at `p` covers besides `p`: the one to
/// its right and the two above them.
pub open spec fn in_base_footprint(p: (usize, usize), c: int, r: int) -> bool {
    &&& (c, r) != (p.0 as int, p.1 as int)
    &&& (c == p.0 || c == p.0 + 1)
    &&& (r == p.1 || r + 1 == p.1)
}

/// A free grass tile.
pub open spec fn free_grass(t: LevelTile) -> bool {
    t.tile_type == TileType::Grass && !t.is_occupied
}

/// A tile taken by part of a structure.
pub open spec fn marked(t: LevelTile, ty: TileType, d: TileData) -> LevelTile {
    LevelTile { tile_type: ty, tile_data: d, is_occupied: true, ..t }
}

/// The data of the top of a tower built by `a`.
pub open spec fn top_data(a: Action) -> TileData {
    if a == Action::Build(BuildTool::FireballTower) {
        TileData::FireballTowerTop
    } else {
        TileData::ArcherTowerTop
    }
}

/// Tile `sw` at `(c, r)` once the structures built in a sweep have taken their tiles: the
/// free grass above a tower at `tower` becomes its top (`top`); the free grass of the
/// footprint of a base at `base` becomes base.
pub open spec fn structure_mark(
    sw: LevelTile,
    tower: Option<(usize, usize)>,
    base: Option<(usize, usize)>,
    top: TileData,
    c: int,
    r: int,
) -> LevelTile {
    match tower {
        Some(p) => if p.0 == c && p.1 == r + 1 && free_grass(sw) {
            marked(sw, TileType::TowerTop, top)
        } else {
            sw
        },
        None => match base {
            Some(p) => if in_base_footprint(p, c, r) && free_grass(sw) {
                marked(sw, TileType::Base, TileData::Base)
            } else {
                sw
            },
            None => sw,
        },
    }
}

/// Tile `(c, r)` after a sweep: swept, then taken by a structure built in the sweep where
/// it is free grass next to it (see `structure_mark`).
pub open spec fn sweep_result(
    g: GameState,
    bs: Seq<crate::building_manager::Building>,
    level: LevelManager,
    c: int,
    r: int,
) -> LevelTile {
    structure_mark(
        swept_tile(g, bs, level.tile_at(c, r), c as usize, r as usize),
        tower_placed(g, level),
        base_built(g, bs, level),
        top_data(active_action(g)->0),
        c,
        r,
    )
}

/// Replacing a tile that holds no enemy by another that holds none keeps enemies and
/// tiles in step.
proof fn lemma_retile_consistent(
    l0: LevelManager,
    l1: LevelManager,
    es: Seq<crate::enemy_manager::Enemy>,
    c: int,
    r: int,
    t: LevelTile,
)
    requires
        l0.wf(),
        enemies_consistent(l0, es),
        l0.in_bounds(c, r),
        l0.tile_at(c, r).tile_type != TileType::Goblin,
        t.tile_type != TileType::Goblin,
        l1.width == l0.width,
        l1.height == l0.height,
        l1.level_vec@ == l0.level_vec@.update(ix(l0.width as int, c, r), t),
    ensures
        enemies_consistent(l1, es),
{
    let w = l0.width as int;
    lemma_ix_bounds(w, l0.height as int, c, r);
    assert forall|i: int| 0 <= i < es.len() implies {
        let p = #[trigger] es[i].grid_index;
        &&& l1.in_bounds(p.0 as int, p.1 as int)
        &&& l1.tile_at(p.0 as int, p.1 as int).tile_type == TileType::Goblin
        &&& l1.tile_at(p.0 as int, p.1 as int).is_occupied
    } by {
        let p = es[i].grid_index;
        lemma_ix_bounds(w, l0.height as int, p.0 as int, p.1 as int);
        assert(ix(w, p.0 as int, p.1 as int) != ix(w, c, r));
    }
    assert forall|x: int, y: int|
        l1.in_bounds(x, y) && #[trigger] l1.tile_at(x, y).tile_type == TileType::Goblin implies exists|i: int|
            0 <= i < es.len() && #[trigger] es[i].grid_index == (x as usize, y as usize) by {
        lemma_ix_bounds(w, l0.height as int, x, y);
        assert(l0.tile_at(x, y).tile_type == TileType::Goblin);
    }
}

/// Whether the active tool, aimed at `t`, commits the building of a tower.
fn tower_commit(game: &GameState, t: &LevelTile) -> (b: bool)
    ensures
        b == (active_action(*game) is Some && is_tower(active_action(*game)->0) && commits(
            *game,
            active_action(*game)->0,
            *t,
        )),
{
    match game.active_action() {
        Some(a) => {
            (a == Action::Build(BuildTool::ArcherTower) || a == Action::Build(BuildTool::FireballTower))
                && is_legal(a, t) && !game.placed && game.preview_mode && game.confirm
        },
        None => false,
    }
}

/// Whether the active tool, aimed at `t`, commits the building of the first base.
fn base_commit(game: &GameState, t: &LevelTile, buildings: &BuildingManager) -> (b: bool)
    ensures
        b == (active_action(*game) is Some && base_placed(
            *game,
            buildings.building_vec@,
            active_action(*game)->0,
            *t,
        )),
{
    match game.active_action() {
        Some(a) => {
            a == Action::Build(BuildTool::Base) && is_legal(a, t) && !game.placed
                && game.preview_mode && game.confirm && !buildings.has_base()
        },
        None => false,
    }
}

/// An enemy's tile is left alone by a sweep, and a sweep marks a tile as an enemy's only
/// where it spawns one.
proof fn lemma_goblin_tiles(g: GameState, bs: Seq<crate::building_manager::Building>, t: LevelTile, c: usize, r: usize)
    requires
        tile_wf(t),
    ensures
        t.tile_type == TileType::Goblin ==> swept_tile(g, bs, t, c, r) == t,
        swept_tile(g, bs, t, c, r).tile_type == TileType::Goblin ==> t.tile_type == TileType::Goblin || (
        acts(g, c, r) && commits(g, active_action(g)->0, t) && active_action(g)->0 == Action::Build(
            BuildTool::Goblin,
        )),
{
}

/// A sweep keeps enemies and their tiles in step: it leaves enemies' tiles alone and marks
/// a tile as an enemy's only where it spawns that enemy.
proof fn lemma_sweep_consistent(
    l0: LevelManager,
    l1: LevelManager,
    g0: GameState,
    b0: Seq<crate::building_manager::Building>,
    e0: Seq<crate::enemy_manager::Enemy>,
    e1: Seq<crate::enemy_manager::Enemy>,
)
    requires
        l0.wf(),
        l1.width == l0.width,
        l1.height == l0.height,
        enemies_consistent(l0, e0),
        forall|c: int, r: int|
            l0.in_bounds(c, r) ==> #[trigger] l1.tile_at(c, r) == swept_tile(
                g0,
                b0,
                l0.tile_at(c, r),
                c as usize,
                r as usize,
            ),
        match acting_tile(g0, l0) {
            Some(p) => e1 == if commits(g0, active_action(g0)->0, l0.tile_at(p.0 as int, p.1 as int))
                && active_action(g0)->0 == Action::Build(BuildTool::Goblin) {
                e0.push(spawned(TileData::Goblin, p))
            } else {
                e0
            },
            None => e1 == e0,
        },
    ensures
        enemies_consistent(l1, e1),
{
    let act = acting_tile(g0, l0);
    let a = active_action(g0)->0;
    let spawns = act is Some && commits(g0, a, l0.tile_at((act->0).0 as int, (act->0).1 as int))
        && a == Action::Build(BuildTool::Goblin);
    assert forall|c: int, r: int| l0.in_bounds(c, r) implies {
        &&& (l0.tile_at(c, r).tile_type == TileType::Goblin ==> #[trigger] l1.tile_at(c, r)
            == l0.tile_at(c, r))
        &&& (l1.tile_at(c, r).tile_type == TileType::Goblin ==> l0.tile_at(c, r).tile_type
            == TileType::Goblin || (spawns && act->0 == (c as usize, r as usize)))
    } by {
        lemma_ix_bounds(l0.width as int, l0.height as int, c, r);
        lemma_goblin_tiles(g0, b0, l0.tile_at(c, r), c as usize, r as usize);
        if acts(g0, c as usize, r as usize) {
            assert(pointer_cell(g0) == (c, r));
        }
    }
    if spawns {
        let p = act->0;
        assert(e1 == e0.push(spawned(TileData::Goblin, p)));
        assert(l0.tile_at(p.0 as int, p.1 as int).tile_type == TileType::Grass);
        assert(l1.tile_at(p.0 as int, p.1 as int).tile_type == TileType::Goblin);
    }
    assert forall|i: int| 0 <= i < e1.len() implies {
        let p = #[trigger] e1[i].grid_index;
        &&& l1.in_bounds(p.0 as int, p.1 as int)
        &&& l1.tile_at(p.0 as int, p.1 as int).tile_type == TileType::Goblin
        &&& l1.tile_at(p.0 as int, p.1 as int).is_occupied
    } by {
        if i < e0.len() {
            assert(e1[i] == e0[i]);
        }
    }
    assert forall|i: int, j: int|
        0 <= i < e1.len() && 0 <= j < e1.len() && i != j implies #[trigger] e1[i].grid_index
            != #[trigger] e1[j].grid_index by {
        if i < e0.len() && j < e0.len() {
            assert(e1[i] == e0[i] && e1[j] == e0[j]);
            assert(e0[i].grid_index != e0[j].grid_index);
        } else if i < e0.len() {
            assert(e1[i] == e0[i]);
            let q = e0[i].grid_index;
            assert(l0.tile_at(q.0 as int, q.1 as int).tile_type == TileType::Goblin);
        } else {
            assert(e1[j] == e0[j]);
            let q = e0[j].grid_index;
            assert(l0.tile_at(q.0 as int, q.1 as int).tile_type == TileType::Goblin);
        }
    }
    assert forall|c: int, r: int|
        l1.in_bounds(c, r) && #[trigger] l1.tile_at(c, r).tile_type == TileType::Goblin implies exists|i: int|
            0 <= i < e1.len() && #[trigger] e1[i].grid_index == (c as usize, r as usize) by {
        if l0.tile_at(c, r).tile_type == TileType::Goblin {
            let k = choose|k: int| 0 <= k < e0.len() && #[trigger] e0[k].grid_index == (c as usize, r as usize);
            assert(e1[k] == e0[k]);
        } else {
            assert(e1[e0.len() as int].grid_index == (c as usize, r as usize));
        }
    }
}

/// The tiles a line of a level description stands for, left to right; characters that
/// stand for no tile are skipped.
pub open spec fn decode_row(s: Seq<char>) -> Seq<LevelTile>
    decreases s.len(),
{
    if s.len() == 0 {
        Seq::empty()
    } else {
        let prev = decode_row(s.drop_last());
        match tile_of_char(s.last()) {
            Some(t) => prev.push(t),
            None => prev,
        }
    }
}

/// Every line of the description decodes to a row as long as the first line's.
pub open spec fn rows_even(lines: Seq<String>) -> bool {
    forall|i: int| 0 <= i < lines.len() ==> #[trigger] decode_row(lines[i]@).len() == decode_row(lines[0]@).len()
}

/// Decodes one line of a level description (see `decode_row`).
pub fn decode_line(line: &String) -> (row: Vec<LevelTile>)
    ensures
        row@ == decode_row(line@),
        forall|i: int| 0 <= i < row@.len() ==> tile_wf(#[trigger] row@[i]),
{
    let st = line.as_str();
    let n = st.unicode_len();
    let mut row: Vec<LevelTile> = Vec::new();
    let mut i: usize = 0;
    while i < n
        invariant
            i <= n,
            n == st@.len(),
            st@ == line@,
            row@ == decode_row(st@.subrange(0, i as int)),
            forall|k: int| 0 <= k < row@.len() ==> tile_wf(#[trigger] row@[k]),
        decreases n - i,
    {
        let ch = st.get_char(i);
        proof {
            assert(st@.subrange(0, i as int + 1).drop_last() =~= st@.subrange(0, i as int));
        }
        match LevelTile::from_char(ch) {
            Some(t) => {
                row.push(t);
            },
            None => {},
        }
        i = i + 1;
    }
    proof {
        assert(st@.subrange(0, n as int) =~= st@);
    }
    row
}

impl LevelManager {
    pub open spec fn wf(&self) -> bool {
        &&& self.level_vec@.len() == self.width * self.height
        &&& forall|i: int| 0 <= i < self.level_vec@.len() ==> tile_wf(#[trigger] self.level_vec@[i])
    }

    pub open spec fn in_bounds(&self, c: int, r: int) -> bool {
        0 <= c < self.width && 0 <= r < self.height
    }

    pub open spec fn tile_at(&self, c: int, r: int) -> LevelTile {
        self.level_vec@[ix(self.width as int, c, r)]
    }

    /// An in-bounds tile that is neither a wall nor occupied.
    pub open spec fn walkable(&self, c: int, r: int) -> bool {
        &&& self.in_bounds(c, r)
        &&& self.tile_at(c, r).tile_type != TileType::Wall
        &&& !self.tile_at(c, r).is_occupied
    }

    /// An empty level with no tiles.
    pub fn new() -> (r: LevelManager)
        ensures
            r.wf(),
            r.width == 0,
            r.height == 0,
    {
        LevelManager { level_vec: Vec::new(), width: 0, height: 0 }
    }

    /// Replaces the level by a `MAX_WIDTH` by `MAX_HEIGHT` field of plain grass.
    pub fn create_level(&mut self)
        ensures
            final(self).wf(),
            final(self).width == MAX_WIDTH,
            final(self).height == MAX_HEIGHT,
            forall|c: int, r: int|
                final(self).in_bounds(c, r) ==> #[trigger] final(self).tile_at(c, r) == plain_tile(
                    TileType::Grass,
                    TextureKey::TileGrass,
                ),
    {
        let n: usize = MAX_WIDTH * MAX_HEIGHT;
        let mut v: Vec<LevelTile> = Vec::with_capacity(n);
        let mut i: usize = 0;
        while i < n
            invariant
                i <= n,
                n == MAX_WIDTH * MAX_HEIGHT,
                v@.len() == i,
                forall|k: int| 0 <= k < i ==> #[trigger] v@[k] == plain_tile(
                    TileType::Grass,
                    TextureKey::TileGrass,
                ),
            decreases n - i,
        {
            v.push(LevelTile::plain(TileType::Grass, TextureKey::TileGrass));
            i = i + 1;
        }
        self.level_vec = v;
        self.width = MAX_WIDTH;
        self.height = MAX_HEIGHT;
        assert forall|c: int, r: int| self.in_bounds(c, r) implies #[trigger] self.tile_at(c, r)
            == plain_tile(TileType::Grass, TextureKey::TileGrass) by {
            lemma_ix_bounds(MAX_WIDTH as int, MAX_HEIGHT as int, c, r);
        }
    }

    /// Position of `(c, r)` in `level_vec`.
    pub fn index_of(&self, c: usize, r: usize) -> (i: usize)
        requires
            self.wf(),
            self.in_bounds(c as int, r as int),
        ensures
            i == ix(self.width as int, c as int, r as int),
            i < self.level_vec@.len(),
    {
        let n = self.level_vec.len();
        proof {
            lemma_ix_bounds(self.width as int, self.height as int, c as int, r as int);
        }
        r * self.width + c
    }

    /// The tile at column `c`, row `r`.
    pub fn get(&self, c: usize, r: usize) -> (res: Result<LevelTile, LevelError>)
        requires
            self.wf(),
        ensures
            self.in_bounds(c as int, r as int) ==> res == Ok::<LevelTile, LevelError>(
                self.tile_at(c as int, r as int),
            ),
            !self.in_bounds(c as int, r as int) ==> res == Err::<LevelTile, LevelError>(
                LevelError::OutOfBounds,
            ),
    {
        if c < self.width && r < self.height {
            let i = self.index_of(c, r);
            Ok(self.level_vec[i])
        } else {
            Err(LevelError::OutOfBounds)
        }
    }

    /// Whether `(c, r)` is an in-bounds tile that is neither a wall nor occupied.
    pub fn is_walkable(&self, c: usize, r: usize) -> (b: bool)
        requires
            self.wf(),
        ensures
            b == self.walkable(c as int, r as int),
    {
        if c < self.width && r < self.height {
            let i = self.index_of(c, r);
            self.level_vec[i].tile_type != TileType::Wall && !self.level_vec[i].is_occupied
        } else {
            false
        }
    }

    /// Replaces the tile at `(c, r)`.
    pub fn set_tile(&mut self, c: usize, r: usize, t: LevelTile)
        requires
            old(self).wf(),
            old(self).in_bounds(c as int, r as int),
            tile_wf(t),
        ensures
            final(self).wf(),
            final(self).width == old(self).width,
            final(self).height == old(self).height,
            final(self).level_vec@ == old(self).level_vec@.update(
                ix(old(self).width as int, c as int, r as int),
                t,
            ),
    {
        let i = self.index_of(c, r);
        self.level_vec.set(i, t);
    }

    /// `(width, height)` of the grid.
    pub fn dimensions(&self) -> (d: (usize, usize))
        ensures
            d == (self.width, self.height),
    {
        (self.width, self.height)
    }

    /// One sweep of the whole grid, row after row: the active tool acts on the tile under
    /// the pointer (see `action_post`) and every crop grows one tick (see `farm_step`). A
    /// tower built in the sweep takes the free grass tile above it as its top (see
    /// `sweep_result`); so does a base built in the sweep with the free grass of its two-by-two
    /// footprint.
    pub fn update_buildings(
        &mut self,
        game: &mut GameState,
        buildings: &mut BuildingManager,
        enemies: &mut EnemyManager,
    )
        requires
            old(self).wf(),
            buildings_wf(old(buildings).building_vec@),
            enemies_consistent(*old(self), old(enemies).enemy_vec@),
        ensures
            final(self).wf(),
            final(self).width == old(self).width,
            final(self).height == old(self).height,
            buildings_wf(final(buildings).building_vec@),
            enemies_consistent(*final(self), final(enemies).enemy_vec@),
            forall|c: int, r: int|
                old(self).in_bounds(c, r) ==> #[trigger] final(self).tile_at(c, r) == sweep_result(
                    *old(game),
                    old(buildings).building_vec@,
                    *old(self),
                    c,
                    r,
                ),
            match acting_tile(*old(game), *old(self)) {
                Some(p) => action_post(
                    old(buildings).building_vec@,
                    *old(game),
                    old(enemies).enemy_vec@,
                    old(self).tile_at(p.0 as int, p.1 as int),
                    p.0,
                    p.1,
                    active_action(*old(game))->0,
                    final(buildings).building_vec@,
                    *final(game),
                    final(enemies).enemy_vec@,
                ),
                None => {
                    &&& final(buildings).building_vec@ == old(buildings).building_vec@
                    &&& *final(game) == *old(game)
                    &&& final(enemies).enemy_vec@ == old(enemies).enemy_vec@
                },
            },
    {
        let ghost l0 = *self;
        let ghost g0 = *game;
        let ghost b0 = buildings.building_vec@;
        let ghost e0 = enemies.enemy_vec@;
        let ghost act = acting_tile(g0, l0);
        let ghost pi: int = match act {
            Some(p) => ix(l0.width as int, p.0 as int, p.1 as int),
            None => -1,
        };
        let w = self.width;
        let n = self.level_vec.len();
        let ghost wi = w as int;
        proof {
            if act is Some {
                lemma_ix_bounds(wi, l0.height as int, (act->0).0 as int, (act->0).1 as int);
            }
        }
        let mut tower_at: Option<(usize, usize)> = None;
        let mut base_at: Option<(usize, usize)> = None;
        let mut k: usize = 0;
        while k < n
            invariant
                0 <= k <= n,
                tower_at == (if act is Some && pi < k {
                    tower_placed(g0, l0)
                } else {
                    None
                }),
                base_at == (if act is Some && pi < k {
                    base_built(g0, b0, l0)
                } else {
                    None
                }),
                n == l0.level_vec@.len(),
                n == l0.width * l0.height,
                w == l0.width,
                wi == w as int,
                self.width == l0.width,
                self.height == l0.height,
                self.level_vec@.len() == n,
                l0.wf(),
                pi == match act {
                    Some(p) => ix(l0.width as int, p.0 as int, p.1 as int),
                    None => -1,
                },
                act == acting_tile(g0, l0),
                act is Some ==> 0 <= pi < n,
                forall|q: int| 0 <= q < n ==> tile_wf(#[trigger] self.level_vec@[q]),
                forall|q: int|
                    0 <= q < k ==> #[trigger] self.level_vec@[q] == swept_tile(
                        g0,
                        b0,
                        l0.level_vec@[q],
                        (q % wi) as usize,
                        (q / wi) as usize,
                    ),
                forall|q: int| k <= q < n ==> #[trigger] self.level_vec@[q] == l0.level_vec@[q],
                buildings_wf(buildings.building_vec@),
                if act is Some && pi < k {
                    action_post(
                        b0,
                        g0,
                        e0,
                        l0.level_vec@[pi],
                        (act->0).0,
                        (act->0).1,
                        active_action(g0)->0,
                        buildings.building_vec@,
                        *game,
                        enemies.enemy_vec@,
                    )
                } else {
                    &&& buildings.building_vec@ == b0
                    &&& *game == g0
                    &&& enemies.enemy_vec@ == e0
                },
            decreases n - k,
        {
            proof {
                lemma_pos_of(wi, l0.height as int, k as int);
            }
            let c = k % w;
            let r = k / w;
            let mut t = self.level_vec[k];
            let ghost gk = *game;
            proof {
                assert(t == l0.level_vec@[k as int]);
                assert(tile_wf(t));
                if act is Some {
                    lemma_ix_bounds(wi, l0.height as int, (act->0).0 as int, (act->0).1 as int);
                }
                if acts(g0, c, r) {
                    assert(pointer_cell(g0) == (c as int, r as int));
                    assert(act == Some((c, r)));
                }
                assert(acts(gk, c, r) == acts(g0, c, r));
            }
            if !game.hovering_button && game.over_tile(c, r) && tower_commit(game, &t) {
                tower_at = Some((c, r));
            }
            if !game.hovering_button && game.over_tile(c, r) && base_commit(game, &t, buildings) {
                base_at = Some((c, r));
            }
            buildings.update_buildings(game, enemies, &mut t, c, r);
            self.level_vec.set(k, t);
            k = k + 1;
        }
        proof {
            let l1 = *self;
            assert forall|c: int, r: int| l0.in_bounds(c, r) implies #[trigger] l1.tile_at(c, r)
                == swept_tile(g0, b0, l0.tile_at(c, r), c as usize, r as usize) by {
                lemma_ix_bounds(wi, l0.height as int, c, r);
            }
            lemma_sweep_consistent(l0, l1, g0, b0, e0, enemies.enemy_vec@);
            assert(active_action(*game) == active_action(g0));
        }
        let top = match game.active_action() {
            Some(Action::Build(BuildTool::FireballTower)) => TileData::FireballTowerTop,
            _ => TileData::ArcherTowerTop,
        };
        proof {
            if tower_at is Some {
                lemma_ix_bounds(wi, l0.height as int, (tower_at->0).0 as int, (tower_at->0).1 as int);
            }
            if base_at is Some {
                lemma_ix_bounds(wi, l0.height as int, (base_at->0).0 as int, (base_at->0).1 as int);
            }
        }
        let ghost lm = *self;
        self.mark_structures(tower_at, base_at, top, Ghost(enemies.enemy_vec@));
        proof {
            assert forall|c: int, r: int| l0.in_bounds(c, r) implies #[trigger] self.tile_at(c, r)
                == sweep_result(g0, b0, l0, c, r) by {
                assert(lm.tile_at(c, r) == swept_tile(g0, b0, l0.tile_at(c, r), c as usize, r as usize));
            }
        }
    }

    #[verifier::rlimit(60)]
    /// Lets the tower at `tower`, or the base at `base`, take the free grass next to it that
    /// it covers (see `structure_mark`).
    fn mark_structures(
        &mut self,
        tower: Option<(usize, usize)>,
        base: Option<(usize, usize)>,
        top: TileData,
        Ghost(es): Ghost<Seq<crate::enemy_manager::Enemy>>,
    )
        requires
            old(self).wf(),
            enemies_consistent(*old(self), es),
            tower is None || base is None,
            tower is Some ==> old(self).in_bounds((tower->0).0 as int, (tower->0).1 as int),
            base is Some ==> old(self).in_bounds((base->0).0 as int, (base->0).1 as int),
            top == TileData::ArcherTowerTop || top == TileData::FireballTowerTop,
        ensures
            final(self).wf(),
            final(self).width == old(self).width,
            final(self).height == old(self).height,
            enemies_consistent(*final(self), es),
            forall|c: int, r: int|
                old(self).in_bounds(c, r) ==> #[trigger] final(self).tile_at(c, r) == structure_mark(
                    old(self).tile_at(c, r),
                    tower,
                    base,
                    top,
                    c,
                    r,
                ),
    {
        let ghost l0 = *self;
        let ghost wi = self.width as int;
        let ghost hi = self.height as int;
        let w = self.width;
        match tower {
            Some(p) => {
                if p.1 > 0 {
                    self.mark_cell(p.0, p.1 - 1, TileType::TowerTop, top, Ghost(es));
                }
                proof {
                    assert forall|c: int, r: int| l0.in_bounds(c, r) implies #[trigger] self.tile_at(c, r)
                        == structure_mark(l0.tile_at(c, r), tower, base, top, c, r) by {
                        lemma_ix_bounds(wi, hi, c, r);
                        if p.1 > 0 {
                            lemma_ix_bounds(wi, hi, p.0 as int, p.1 - 1);
                        }
                    }
                }
            },
            None => {
                match base {
                    Some(p) => {
                        let ghost l1 = *self;
                        if p.0 + 1 < w {
                            self.mark_cell(p.0 + 1, p.1, TileType::Base, TileData::Base, Ghost(es));
                        }
                        let ghost l2 = *self;
                        if p.1 > 0 {
                            self.mark_cell(p.0, p.1 - 1, TileType::Base, TileData::Base, Ghost(es));
                        }
                        let ghost l3 = *self;
                        if p.1 > 0 && p.0 + 1 < w {
                            self.mark_cell(p.0 + 1, p.1 - 1, TileType::Base, TileData::Base, Ghost(es));
                        }
                        proof {
                            assert forall|c: int, r: int| l0.in_bounds(c, r) implies #[trigger] self.tile_at(c, r)
                                == structure_mark(l0.tile_at(c, r), tower, base, top, c, r) by {
                                lemma_ix_bounds(wi, hi, c, r);
                                if p.0 + 1 < w {
                                    lemma_ix_bounds(wi, hi, p.0 + 1, p.1 as int);
                                }
                                if p.1 > 0 {
                                    lemma_ix_bounds(wi, hi, p.0 as int, p.1 - 1);
                                    if p.0 + 1 < w {
                                        lemma_ix_bounds(wi, hi, p.0 + 1, p.1 - 1);
                                    }
                                }
                            }
                        }
                    },
                    None => {},
                }
            },
        }
    }

    /// Takes tile `(c, r)` for part of a structure, where it is free grass.
    fn mark_cell(
        &mut self,
        c: usize,
        r: usize,
        ty: TileType,
        d: TileData,
        Ghost(es): Ghost<Seq<crate::enemy_manager::Enemy>>,
    )
        requires
            old(self).wf(),
            old(self).in_bounds(c as int, r as int),
            is_occupant(ty),
            ty != TileType::Goblin,
            !is_crop(d),
            enemies_consistent(*old(self), es),
        ensures
            final(self).wf(),
            final(self).width == old(self).width,
            final(self).height == old(self).height,
            enemies_consistent(*final(self), es),
            final(self).level_vec@ == if free_grass(old(self).tile_at(c as int, r as int)) {
                old(self).level_vec@.update(
                    ix(old(self).width as int, c as int, r as int),
                    marked(old(self).tile_at(c as int, r as int), ty, d),
                )
            } else {
                old(self).level_vec@
            },
    {
        let i = self.index_of(c, r);
        let t = self.level_vec[i];
        if t.tile_type == TileType::Grass && !t.is_occupied {
            let ghost l0 = *self;
            proof {
                assert(tile_wf(t));
            }
            self.set_tile(c, r, LevelTile { tile_type: ty, tile_data: d, is_occupied: true, ..t });
            proof {
                lemma_retile_consistent(l0, *self, es, c as int, r as int, marked(t, ty, d));
            }
        }
    }

    /// Replaces the level by the one a description gives, one line per row (see
    /// `decode_row`). Fails, leaving the level as it was, where two lines decode to rows of
    /// different lengths.
    pub fn load_level(&mut self, lines: &Vec<String>) -> (res: Result<(), LevelError>)
        ensures
            rows_even(lines@) ==> {
                &&& res is Ok
                &&& final(self).wf()
                &&& final(self).height == lines@.len()
                &&& final(self).width == if lines@.len() == 0 {
                    0
                } else {
                    decode_row(lines@[0]@).len()
                }
                &&& forall|c: int, r: int|
                    final(self).in_bounds(c, r) ==> #[trigger] final(self).tile_at(c, r) == decode_row(
                        lines@[r]@,
                    )[c]
            },
            !rows_even(lines@) ==> res == Err::<(), LevelError>(LevelError::RaggedRows),
            !rows_even(lines@) ==> *final(self) == *old(self),
    {
        let h = lines.len();
        let mut rows: Vec<Vec<LevelTile>> = Vec::new();
        let mut i: usize = 0;
        while i < h
            invariant
                i <= h,
                h == lines@.len(),
                rows@.len() == i,
                forall|k: int| 0 <= k < i ==> #[trigger] rows@[k]@ == decode_row(lines@[k]@),
                forall|k: int, q: int|
                    0 <= k < i && 0 <= q < rows@[k]@.len() ==> tile_wf(#[trigger] rows@[k]@[q]),
            decreases h - i,
        {
            let row = decode_line(&lines[i]);
            rows.push(row);
            i = i + 1;
        }
        let w: usize = if h == 0 {
            0
        } else {
            rows[0].len()
        };
        let mut j: usize = 0;
        while j < h
            invariant
                j <= h,
                h == lines@.len(),
                rows@.len() == h,
                forall|k: int| 0 <= k < h ==> #[trigger] rows@[k]@ == decode_row(lines@[k]@),
                h > 0 ==> w == decode_row(lines@[0]@).len(),
                forall|k: int| 0 <= k < j ==> #[trigger] rows@[k]@.len() == w,
            decreases h - j,
        {
            if rows[j].len() != w {
                proof {
                    assert(decode_row(lines@[j as int]@).len() != decode_row(lines@[0]@).len());
                }
                return Err(LevelError::RaggedRows);
            }
            j = j + 1;
        }
        proof {
            if h > 0 {
                assert forall|k: int| 0 <= k < lines@.len() implies #[trigger] decode_row(lines@[k]@).len()
                    == decode_row(lines@[0]@).len() by {
                    assert(rows@[k]@.len() == w);
                }
            }
        }
        let mut v: Vec<LevelTile> = Vec::new();
        let mut r: usize = 0;
        while r < h
            invariant
                r <= h,
                h == lines@.len(),
                rows@.len() == h,
                rows_even(lines@),
                forall|k: int| 0 <= k < h ==> #[trigger] rows@[k]@ == decode_row(lines@[k]@),
                h > 0 ==> w == decode_row(lines@[0]@).len(),
                forall|k: int| 0 <= k < h ==> #[trigger] rows@[k]@.len() == w,
                forall|k: int, q: int|
                    0 <= k < h && 0 <= q < rows@[k]@.len() ==> tile_wf(#[trigger] rows@[k]@[q]),
                v@.len() == r * w,
                forall|q: int| 0 <= q < v@.len() ==> tile_wf(#[trigger] v@[q]),
                forall|cc: int, rr: int|
                    0 <= cc < w && 0 <= rr < r ==> #[trigger] v@[ix(w as int, cc, rr)] == rows@[rr]@[cc],
            decreases h - r,
        {
            let mut c: usize = 0;
            while c < w
                invariant
                    r < h,
                    c <= w,
                    rows@.len() == h,
                    forall|k: int| 0 <= k < h ==> #[trigger] rows@[k]@.len() == w,
                    forall|k: int, q: int|
                        0 <= k < h && 0 <= q < rows@[k]@.len() ==> tile_wf(#[trigger] rows@[k]@[q]),
                    v@.len() == r * w + c,
                    forall|q: int| 0 <= q < v@.len() ==> tile_wf(#[trigger] v@[q]),
                    forall|cc: int, rr: int|
                        0 <= cc < w && 0 <= rr < r ==> #[trigger] v@[ix(w as int, cc, rr)] == rows@[rr]@[cc],
                    forall|cc: int| 0 <= cc < c ==> #[trigger] v@[ix(w as int, cc, r as int)] == rows@[r as int]@[cc],
                decreases w - c,
            {
                let t = rows[r][c];
                let ghost v0 = v@;
                v.push(t);
                proof {
                    assert forall|cc: int, rr: int| 0 <= cc < w && 0 <= rr < r implies #[trigger] v@[ix(
                        w as int,
                        cc,
                        rr,
                    )] == rows@[rr]@[cc] by {
                        lemma_ix_bounds(w as int, r as int, cc, rr);
                        vstd::arithmetic::mul::lemma_mul_is_commutative(w as int, r as int);
                        assert(v@[ix(w as int, cc, rr)] == v0[ix(w as int, cc, rr)]);
                    }
                    assert forall|cc: int| 0 <= cc < c + 1 implies #[trigger] v@[ix(w as int, cc, r as int)]
                        == rows@[r as int]@[cc] by {
                        if cc < c {
                            assert(v@[ix(w as int, cc, r as int)] == v0[ix(w as int, cc, r as int)]);
                        }
                    }
                }
                c = c + 1;
            }
            proof {
                assert((r + 1) * w == r * w + w) by (nonlinear_arith);
            }
            r = r + 1;
        }
        self.level_vec = v;
        self.width = w;
        self.height = h;
        proof {
            assert(rows_even(lines@));
            assert forall|cc: int, rr: int| self.in_bounds(cc, rr) implies #[trigger] self.tile_at(cc, rr)
                == decode_row(lines@[rr]@)[cc] by {
                assert(rows@[rr]@ == decode_row(lines@[rr]@));
            }
            assert(self.level_vec@.len() == self.width * self.height) by (nonlinear_arith)
                requires
                    self.level_vec@.len() == h * w,
                    self.width == w,
                    self.height == h,
            ;
        }
        Ok(())
    }
}

} // verus!
