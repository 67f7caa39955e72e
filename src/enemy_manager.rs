use vstd::prelude::*;

use crate::game_state::GameState;
use crate::level_manager::{LevelManager, ix, lemma_ix_bounds};
use crate::pathfinding::{absdiff, find_path, is_path, no_repeats, reachable};
use crate::tile::{LevelTile, TileData, TileType, tile_wf};

verus! {

pub const ENEMY_GOBLIN_SPEED: u8 = 2;

pub const ENEMY_GOBLIN_DAMAGE: u8 = 5;

pub const ENEMY_GOBLIN_RADIUS: u8 = 1;

pub const ENEMY_GOBLIN_ATTACK_SPEED: u8 = 1;

pub const ENEMY_GOBLIN_HEALTH: u16 = 100;

/// Microseconds in a second: elapsed time is counted in microseconds.
pub const MICROS_PER_SECOND: u64 = 1_000_000;

pub struct Enemy {
    /// Microseconds since the last step.
    pub elapsed_time: u64,
    /// The cells still to walk, nearest first; never empty when present.
    pub final_path: Option<Vec<(usize, usize)>>,
    pub grid_index: (usize, usize),
    pub max_health: u16,
    pub health: u16,
    /// Steps per second.
    pub movement_speed: u8,
    pub attack_damage: u8,
    pub attack_radius: u8,
    pub attack_speed: u8,
    pub found_target: bool,
}

/// What a step of movement reads and writes of an enemy.
pub struct Walker {
    pub pos: (usize, usize),
    pub path: Option<Seq<(usize, usize)>>,
    pub elapsed: u64,
}

impl Enemy {
    pub open spec fn path_view(&self) -> Option<Seq<(usize, usize)>> {
        match self.final_path {
            Some(v) => Some(v@),
            None => None,
        }
    }

    pub open spec fn walker(&self) -> Walker {
        Walker { pos: self.grid_index, path: self.path_view(), elapsed: self.elapsed_time }
    }

    /// `self` and `e` agree on everything but position, path and elapsed time.
    pub open spec fn same_stats(&self, e: Enemy) -> bool {
        &&& self.max_health == e.max_health
        &&& self.health == e.health
        &&& self.movement_speed == e.movement_speed
        &&& self.attack_damage == e.attack_damage
        &&& self.attack_radius == e.attack_radius
        &&& self.attack_speed == e.attack_speed
        &&& self.found_target == e.found_target
    }
}

/// Microseconds between two steps at `speed` steps per second; a speed of zero never steps.
pub open spec fn movement_interval(speed: u8) -> u64 {
    if speed == 0 {
        u64::MAX
    } else {
        (MICROS_PER_SECOND / (speed as u64)) as u64
    }
}

pub open spec fn sat_add(a: u64, b: u64) -> u64 {
    if a + b > u64::MAX {
        u64::MAX
    } else {
        (a + b) as u64
    }
}

/// The tile an enemy leaves: back to its ground type, empty and free.
pub open spec fn vacated(t: LevelTile) -> LevelTile {
    LevelTile { tile_type: t.original_type, tile_data: TileData::Empty, is_occupied: false, ..t }
}

/// The tile an enemy enters.
pub open spec fn entered(t: LevelTile) -> LevelTile {
    LevelTile { tile_type: TileType::Goblin, tile_data: TileData::Goblin, is_occupied: true, ..t }
}

/// The tiles after an enemy moves from `a` to `b`.
pub open spec fn step_tiles(
    tiles: Seq<LevelTile>,
    w: int,
    a: (usize, usize),
    b: (usize, usize),
) -> Seq<LevelTile> {
    let ia = ix(w, a.0 as int, a.1 as int);
    let ib = ix(w, b.0 as int, b.1 as int);
    tiles.update(ia, vacated(tiles[ia])).update(ib, entered(tiles[ib]))
}

/// The enemy is due to step this tick.
pub open spec fn can_step(e: Walker, found_target: bool, speed: u8, dt: u64) -> bool {
    !found_target && sat_add(e.elapsed, dt) > movement_interval(speed)
}

/// The next cell of the enemy's path can be entered.
pub open spec fn next_free(e: Walker, level: LevelManager) -> bool {
    &&& e.path is Some
    &&& e.path->0.len() > 0
    &&& level.walkable(e.path->0[0].0 as int, e.path->0[0].1 as int)
}

/// The enemy is due to step, and the next cell of its path is free (`free`) to enter.
pub open spec fn steps(e: Walker, found_target: bool, speed: u8, free: bool, dt: u64) -> bool {
    &&& can_step(e, found_target, speed, dt)
    &&& e.path is Some
    &&& e.path->0.len() > 0
    &&& free
}

/// One tick of walking: time accrues; an enemy that is due takes the next cell of its path
/// and restarts its clock, or drops a path whose next cell is not free.
pub open spec fn walk(e: Walker, found_target: bool, speed: u8, free: bool, dt: u64) -> Walker {
    if steps(e, found_target, speed, free, dt) {
        let p = e.path->0;
        Walker {
            pos: p[0],
            path: if p.len() > 1 {
                Some(p.drop_first())
            } else {
                None
            },
            elapsed: 0,
        }
    } else if can_step(e, found_target, speed, dt) && e.path is Some {
        Walker { pos: e.pos, path: None, elapsed: sat_add(e.elapsed, dt) }
    } else {
        Walker { pos: e.pos, path: e.path, elapsed: sat_add(e.elapsed, dt) }
    }
}

/// The level after one tick of walking.
pub open spec fn walk_level(
    e: Walker,
    found_target: bool,
    speed: u8,
    level: LevelManager,
    dt: u64,
) -> Seq<LevelTile> {
    if steps(e, found_target, speed, next_free(e, level), dt) {
        step_tiles(level.level_vec@, level.width as int, e.pos, e.path->0[0])
    } else {
        level.level_vec@
    }
}

/// Both coordinates within `radius` of each other.
pub open spec fn within_area(a: (usize, usize), b: (usize, usize), radius: int) -> bool {
    absdiff(a.0 as int, b.0 as int) <= radius && absdiff(a.1 as int, b.1 as int) <= radius
}

/// The target moved one cell in direction `dir` (right, left, down, up), bouncing off the
/// zero edge.
pub open spec fn nudge(t: (usize, usize), dir: int) -> (usize, usize) {
    if dir == 0 {
        ((t.0 + 1) as usize, t.1)
    } else if dir == 1 {
        if t.0 > 0 {
            ((t.0 - 1) as usize, t.1)
        } else {
            ((t.0 + 1) as usize, t.1)
        }
    } else if dir == 2 {
        (t.0, (t.1 + 1) as usize)
    } else {
        if t.1 > 0 {
            (t.0, (t.1 - 1) as usize)
        } else {
            (t.0, (t.1 + 1) as usize)
        }
    }
}

/// The path an enemy holds after searching for `target`: the found route without the cell
/// it stands on, with no cell twice, or nothing: where no route exists or it already stands
/// on the target.
pub open spec fn searched_path(
    level: LevelManager,
    pos: (usize, usize),
    target: (usize, usize),
    path: Option<Seq<(usize, usize)>>,
) -> bool {
    match path {
        Some(rest) => {
            &&& rest.len() >= 1
            &&& pos != target
            &&& is_path(level, seq![pos] + rest, pos, target)
            &&& no_repeats(seq![pos] + rest)
        },
        None => !reachable(level, pos, target) || pos == target,
    }
}

/// Every enemy stands on an in-bounds tile marked as held by an enemy, no two share a
/// tile, and every such tile holds an enemy.
pub open spec fn enemies_consistent(level: LevelManager, enemies: Seq<Enemy>) -> bool {
    &&& forall|i: int|
        0 <= i < enemies.len() ==> {
            let p = #[trigger] enemies[i].grid_index;
            &&& level.in_bounds(p.0 as int, p.1 as int)
            &&& level.tile_at(p.0 as int, p.1 as int).tile_type == TileType::Goblin
            &&& level.tile_at(p.0 as int, p.1 as int).is_occupied
        }
    &&& forall|i: int, j: int|
        0 <= i < enemies.len() && 0 <= j < enemies.len() && i != j ==> #[trigger] enemies[i].grid_index
            != #[trigger] enemies[j].grid_index
    &&& forall|c: int, r: int|
        level.in_bounds(c, r) && #[trigger] level.tile_at(c, r).tile_type == TileType::Goblin
            ==> exists|i: int|
            0 <= i < enemies.len() && #[trigger] enemies[i].grid_index == (c as usize, r as usize)
}

/// Every enemy's path, where it has one, is not empty.
pub open spec fn paths_nonempty(enemies: Seq<Enemy>) -> bool {
    forall|i: int|
        0 <= i < enemies.len() ==> (#[trigger] enemies[i].path_view() is Some
            ==> enemies[i].path_view()->0.len() > 0)
}

/// The enemy that spawns on a tile: a goblin where the tile says so, else a weak default.
pub open spec fn spawned(data: TileData, index: (usize, usize)) -> Enemy {
    if data == TileData::Goblin {
        Enemy {
            elapsed_time: 0,
            final_path: None,
            grid_index: index,
            max_health: ENEMY_GOBLIN_HEALTH,
            health: ENEMY_GOBLIN_HEALTH,
            movement_speed: ENEMY_GOBLIN_SPEED,
            attack_damage: ENEMY_GOBLIN_DAMAGE,
            attack_radius: ENEMY_GOBLIN_RADIUS,
            attack_speed: ENEMY_GOBLIN_ATTACK_SPEED,
            found_target: false,
        }
    } else {
        Enemy {
            elapsed_time: 0,
            final_path: None,
            grid_index: index,
            max_health: 1,
            health: 1,
            movement_speed: 1,
            attack_damage: 1,
            attack_radius: 1,
            attack_speed: 1,
            found_target: false,
        }
    }
}

/// Distinct in-bounds cells are stored at distinct positions.
proof fn lemma_ix_injective(level: LevelManager, a: (usize, usize), b: (usize, usize))
    requires
        level.in_bounds(a.0 as int, a.1 as int),
        level.in_bounds(b.0 as int, b.1 as int),
        a != b,
    ensures
        ix(level.width as int, a.0 as int, a.1 as int) != ix(level.width as int, b.0 as int, b.1 as int),
{
    lemma_ix_bounds(level.width as int, level.height as int, a.0 as int, a.1 as int);
    lemma_ix_bounds(level.width as int, level.height as int, b.0 as int, b.1 as int);
}

/// One enemy staying put, or stepping onto a walkable cell while its old tile is vacated
/// and the new one entered, keeps enemies and tiles in step.
proof fn lemma_step_keeps_consistent(
    l0: LevelManager,
    es: Seq<Enemy>,
    i: int,
    e1: Enemy,
    l1: LevelManager,
)
    requires
        l0.wf(),
        enemies_consistent(l0, es),
        0 <= i < es.len(),
        l1.width == l0.width,
        l1.height == l0.height,
        (l1.level_vec@ == l0.level_vec@ && e1.grid_index == es[i].grid_index) || (l0.walkable(
            e1.grid_index.0 as int,
            e1.grid_index.1 as int,
        ) && l1.level_vec@ == step_tiles(
            l0.level_vec@,
            l0.width as int,
            es[i].grid_index,
            e1.grid_index,
        )),
    ensures
        enemies_consistent(l1, es.update(i, e1)),
{
    let es1 = es.update(i, e1);
    let a = es[i].grid_index;
    let b = e1.grid_index;
    let w = l0.width as int;
    if l1.level_vec@ == l0.level_vec@ && b == a {
        assert forall|c: int, r: int|
            l1.in_bounds(c, r) && #[trigger] l1.tile_at(c, r).tile_type == TileType::Goblin implies exists|k: int|
                0 <= k < es1.len() && #[trigger] es1[k].grid_index == (c as usize, r as usize) by {
            assert(l0.tile_at(c, r).tile_type == TileType::Goblin);
            let k = choose|k: int| 0 <= k < es.len() && #[trigger] es[k].grid_index == (c as usize, r as usize);
            assert(es1[k].grid_index == (c as usize, r as usize));
        }
        assert forall|x: int, y: int|
            0 <= x < es1.len() && 0 <= y < es1.len() && x != y implies #[trigger] es1[x].grid_index
                != #[trigger] es1[y].grid_index by {
            assert(es[x].grid_index != es[y].grid_index);
        }
    } else {
        let ia = ix(w, a.0 as int, a.1 as int);
        let ib = ix(w, b.0 as int, b.1 as int);
        assert(es[i].grid_index == a);
        lemma_ix_bounds(w, l0.height as int, a.0 as int, a.1 as int);
        lemma_ix_bounds(w, l0.height as int, b.0 as int, b.1 as int);
        assert(tile_wf(l0.level_vec@[ia]));
        assert(a != b);
        lemma_ix_injective(l0, a, b);
        assert forall|k: int| 0 <= k < es1.len() implies {
            let p = #[trigger] es1[k].grid_index;
            &&& l1.in_bounds(p.0 as int, p.1 as int)
            &&& l1.tile_at(p.0 as int, p.1 as int).tile_type == TileType::Goblin
            &&& l1.tile_at(p.0 as int, p.1 as int).is_occupied
        } by {
            if k != i {
                let p = es[k].grid_index;
                assert(es[k].grid_index != es[i].grid_index);
                assert(l0.tile_at(p.0 as int, p.1 as int).is_occupied);
                assert(p != b);
                lemma_ix_injective(l0, p, a);
                lemma_ix_injective(l0, p, b);
                let ip = ix(w, p.0 as int, p.1 as int);
                lemma_ix_bounds(w, l0.height as int, p.0 as int, p.1 as int);
                assert(l1.level_vec@[ip] == l0.level_vec@[ip]);
                assert(es1[k] == es[k]);
            } else {
                assert(es1[k] == e1);
                assert(l1.level_vec@[ib] == entered(l0.level_vec@[ib]));
            }
        }
        assert forall|x: int, y: int|
            0 <= x < es1.len() && 0 <= y < es1.len() && x != y implies #[trigger] es1[x].grid_index
                != #[trigger] es1[y].grid_index by {
            if x != i && y != i {
                assert(es[x].grid_index != es[y].grid_index);
            } else if x == i {
                assert(l0.tile_at(es[y].grid_index.0 as int, es[y].grid_index.1 as int).is_occupied);
            } else {
                assert(l0.tile_at(es[x].grid_index.0 as int, es[x].grid_index.1 as int).is_occupied);
            }
        }
        assert forall|c: int, r: int|
            l1.in_bounds(c, r) && #[trigger] l1.tile_at(c, r).tile_type == TileType::Goblin implies exists|k: int|
                0 <= k < es1.len() && #[trigger] es1[k].grid_index == (c as usize, r as usize) by {
            let q = (c as usize, r as usize);
            if q == b {
                assert(es1[i].grid_index == q);
            } else if q == a {
                lemma_ix_injective(l0, q, b);
                assert(l1.level_vec@[ia] == vacated(l0.level_vec@[ia]));
                assert(false);
            } else {
                lemma_ix_injective(l0, q, b);
                if q == a {
                    assert(false);
                } else {
                    lemma_ix_injective(l0, q, a);
                    let iq = ix(w, c, r);
                    lemma_ix_bounds(w, l0.height as int, c, r);
                    assert(l1.level_vec@[iq] == l0.level_vec@[iq]);
                    assert(l0.tile_at(c, r).tile_type == TileType::Goblin);
                    let k = choose|k: int| 0 <= k < es.len() && #[trigger] es[k].grid_index == q;
                    assert(k != i);
                    assert(es1[k].grid_index == q);
                }
            }
        }
    }
}

pub struct EnemyManager {
    pub enemy_vec: Vec<Enemy>,
}

/// The target an idle enemy picks: the entry at the frame counter modulo the list's
/// length, nudged one cell (direction: the frame counter modulo four) where its tile is
/// occupied.
pub open spec fn target_index(g: GameState) -> int {
    (g.frame_time as int) % (g.target_vec@.len() as int)
}

pub open spec fn picked_target(g: GameState, level: LevelManager) -> (usize, usize) {
    let t = g.target_vec@[target_index(g)];
    if level.in_bounds(t.0 as int, t.1 as int) && level.tile_at(t.0 as int, t.1 as int).is_occupied {
        nudge(t, (g.frame_time as int) % 4)
    } else {
        t
    }
}

/// An enemy looks for a target: it has targets to pick from, no path and no target lock.
pub open spec fn acquiring(g: GameState, e: Enemy) -> bool {
    g.target_vec@.len() > 0 && e.final_path is None && !e.found_target
}

/// What picking a target does: the picked entry is stored back, a search is requested
/// unless one already ran this tick or the enemy is within reach, and the tick's search
/// slot is taken.
pub open spec fn acquire_post(
    g0: GameState,
    g1: GameState,
    level: LevelManager,
    e0: Enemy,
    e1: Enemy,
) -> bool {
    let t = picked_target(g0, level);
    &&& g1 == GameState {
        target_vec: g1.target_vec,
        is_pathfinding: true,
        ..g0
    }
    &&& g1.target_vec@ == g0.target_vec@.update(target_index(g0), t)
    &&& e1.same_stats(e0)
    &&& e1.grid_index == e0.grid_index
    &&& e1.elapsed_time == e0.elapsed_time
    &&& if !g0.is_pathfinding && !within_area(e0.grid_index, t, e0.attack_radius as int) {
        searched_path(level, e0.grid_index, t, e1.path_view())
    } else {
        e1.final_path is None
    }
}

/// One tick of one enemy (see `move_enemies`): the level after walking, the enemy's walk or,
/// for an idle enemy, its choice of target and route.
pub open spec fn enemy_tick(
    g0: GameState,
    l0: LevelManager,
    e0: Enemy,
    g1: GameState,
    l1: LevelManager,
    e1: Enemy,
    dt: u64,
) -> bool {
    &&& l1.width == l0.width
    &&& l1.height == l0.height
    &&& l1.level_vec@ == walk_level(e0.walker(), e0.found_target, e0.movement_speed, l0, dt)
    &&& e1.same_stats(e0)
    &&& !acquiring(g0, e0) ==> {
        &&& e1.walker() == walk(
            e0.walker(),
            e0.found_target,
            e0.movement_speed,
            next_free(e0.walker(), l0),
            dt,
        )
        &&& g1 == g0
    }
    &&& acquiring(g0, e0) ==> acquire_post(
        g0,
        g1,
        l0,
        Enemy { elapsed_time: sat_add(e0.elapsed_time, dt), ..e0 },
        e1,
    )
}

/// A whole tick: starting from `g0` with the search slot free and from `l0`, the enemies
/// `es0` take one `enemy_tick` each, in order, through the states `gs` and `ls`, and become
/// `es1`.
pub open spec fn tick_trace(
    gs: Seq<GameState>,
    ls: Seq<LevelManager>,
    es0: Seq<Enemy>,
    es1: Seq<Enemy>,
    g0: GameState,
    l0: LevelManager,
    dt: u64,
) -> bool {
    let n = es0.len();
    &&& es1.len() == n
    &&& gs.len() == n + 1
    &&& ls.len() == n + 1
    &&& gs[0] == (GameState { is_pathfinding: false, ..g0 })
    &&& ls[0] == l0
    &&& forall|k: int|
        0 <= k < n ==> #[trigger] enemy_tick(gs[k], ls[k], es0[k], gs[k + 1], ls[k + 1], es1[k], dt)
}

/// Whether `a` and `b` are within `radius` of each other along both axes.
pub fn is_within_area(a: (usize, usize), b: (usize, usize), radius: u8) -> (r: bool)
    ensures
        r == within_area(a, b, radius as int),
{
    let dx = if a.0 >= b.0 {
        a.0 - b.0
    } else {
        b.0 - a.0
    };
    let dy = if a.1 >= b.1 {
        a.1 - b.1
    } else {
        b.1 - a.1
    };
    dx <= radius as usize && dy <= radius as usize
}

impl EnemyManager {
    pub fn new() -> (r: EnemyManager)
        ensures
            r.enemy_vec@.len() == 0,
    {
        EnemyManager { enemy_vec: Vec::new() }
    }

    /// Adds an enemy at `index`, with the goblin's stats where `temp_tile` carries a goblin.
    pub fn place_enemy(&mut self, temp_tile: &LevelTile, index: (usize, usize))
        ensures
            final(self).enemy_vec@ == old(self).enemy_vec@.push(spawned(temp_tile.tile_data, index)),
    {
        let e = if temp_tile.tile_data == TileData::Goblin {
            Enemy {
                elapsed_time: 0,
                final_path: None,
                grid_index: index,
                max_health: ENEMY_GOBLIN_HEALTH,
                health: ENEMY_GOBLIN_HEALTH,
                movement_speed: ENEMY_GOBLIN_SPEED,
                attack_damage: ENEMY_GOBLIN_DAMAGE,
                attack_radius: ENEMY_GOBLIN_RADIUS,
                attack_speed: ENEMY_GOBLIN_ATTACK_SPEED,
                found_target: false,
            }
        } else {
            Enemy {
                elapsed_time: 0,
                final_path: None,
                grid_index: index,
                max_health: 1,
                health: 1,
                movement_speed: 1,
                attack_damage: 1,
                attack_radius: 1,
                attack_speed: 1,
                found_target: false,
            }
        };
        self.enemy_vec.push(e);
    }

    /// Searches a route from the enemy's cell to `target` and gives the enemy that route,
    /// less the cell it stands on; no path where there is no route or it stands on the target.
    pub fn astar(enemy: &mut Enemy, target: (usize, usize), level: &LevelManager)
        requires
            level.wf(),
            level.in_bounds(old(enemy).grid_index.0 as int, old(enemy).grid_index.1 as int),
        ensures
            final(enemy).same_stats(*old(enemy)),
            final(enemy).grid_index == old(enemy).grid_index,
            final(enemy).elapsed_time == old(enemy).elapsed_time,
            searched_path(*level, old(enemy).grid_index, target, final(enemy).path_view()),
            old(enemy).grid_index == target ==> final(enemy).final_path is None,
    {
        match find_path(level, enemy.grid_index, target) {
            Some(p) => {
                if p.len() > 1 {
                    let ghost whole = p@;
                    let mut rest = p;
                    rest.remove(0);
                    proof {
                        assert(seq![whole[0]] + rest@ =~= whole);
                    }
                    enemy.final_path = Some(rest);
                } else {
                    enemy.final_path = None;
                }
            },
            None => {
                enemy.final_path = None;
            },
        }
    }

    fn acquire_target(game: &mut GameState, level: &LevelManager, enemy: &mut Enemy)
        requires
            old(game).target_vec@.len() > 0,
            level.wf(),
            level.in_bounds(old(enemy).grid_index.0 as int, old(enemy).grid_index.1 as int),
            old(enemy).final_path is None,
        ensures
            acquire_post(*old(game), *final(game), *level, *old(enemy), *final(enemy)),
    {
        let len = game.target_vec.len();
        let idx = (game.frame_time % (len as u64)) as usize;
        let t0 = game.target_vec[idx];
        if t0.0 < level.width && t0.1 < level.height {
            let i = level.index_of(t0.0, t0.1);
            if level.level_vec[i].is_occupied {
                let dir = game.frame_time % 4;
                let t1 = if dir == 0 {
                    (t0.0 + 1, t0.1)
                } else if dir == 1 {
                    if t0.0 > 0 {
                        (t0.0 - 1, t0.1)
                    } else {
                        (t0.0 + 1, t0.1)
                    }
                } else if dir == 2 {
                    (t0.0, t0.1 + 1)
                } else {
                    if t0.1 > 0 {
                        (t0.0, t0.1 - 1)
                    } else {
                        (t0.0, t0.1 + 1)
                    }
                };
                game.target_vec.set(idx, t1);
            }
        }
        let target = game.target_vec[idx];
        if !game.is_pathfinding && !is_within_area(enemy.grid_index, target, enemy.attack_radius) {
            Self::astar(enemy, target, level);
        }
        game.is_pathfinding = true;
        proof {
            assert(game.target_vec@ =~= old(game).target_vec@.update(idx as int, target));
        }
    }

    /// One tick of an enemy: time accrues and, when its interval has passed, it steps to the
    /// next cell of its path, leaving its tile to its ground type and taking the new one in
    /// the same operation. An enemy without a path and without a target lock picks a target
    /// and asks for a route (see `acquire_post`).
    pub fn move_enemies(
        game: &mut GameState,
        level: &mut LevelManager,
        enemy: &mut Enemy,
        delta_time: u64,
    )
        requires
            old(level).wf(),
            old(level).in_bounds(old(enemy).grid_index.0 as int, old(enemy).grid_index.1 as int),
            old(level).tile_at(old(enemy).grid_index.0 as int, old(enemy).grid_index.1 as int).is_occupied,
            old(enemy).path_view() is Some ==> old(enemy).path_view()->0.len() > 0,
        ensures
            final(level).wf(),
            enemy_tick(
                *old(game),
                *old(level),
                *old(enemy),
                *final(game),
                *final(level),
                *final(enemy),
                delta_time,
            ),
            final(enemy).path_view() is Some ==> final(enemy).path_view()->0.len() > 0,
    {
        let pos = enemy.grid_index;
        let acquire = !game.target_vec.is_empty() && enemy.final_path.is_none() && !enemy.found_target;
        let speed = enemy.movement_speed;
        let interval: u64 = if speed == 0 {
            u64::MAX
        } else {
            MICROS_PER_SECOND / (speed as u64)
        };
        let ghost l0 = *level;
        enemy.elapsed_time = enemy.elapsed_time.saturating_add(delta_time);
        if !enemy.found_target && enemy.elapsed_time > interval {
            let path = enemy.final_path.take();
            match path {
                Some(p) => {
                    if p.len() > 0 {
                        let next = p[0];
                        if level.is_walkable(next.0, next.1) {
                            let i = level.index_of(pos.0, pos.1);
                            let j = level.index_of(next.0, next.1);
                            let from = level.level_vec[i];
                            let to = level.level_vec[j];
                            proof {
                                lemma_ix_bounds(level.width as int, level.height as int, pos.0 as int, pos.1 as int);
                                assert(tile_wf(level.level_vec@[i as int]));
                            }
                            level.set_tile(
                                pos.0,
                                pos.1,
                                LevelTile {
                                    tile_type: from.original_type,
                                    tile_data: TileData::Empty,
                                    is_occupied: false,
                                    ..from
                                },
                            );
                            level.set_tile(
                                next.0,
                                next.1,
                                LevelTile {
                                    tile_type: TileType::Goblin,
                                    tile_data: TileData::Goblin,
                                    is_occupied: true,
                                    ..to
                                },
                            );
                            enemy.grid_index = next;
                            let mut rest = p;
                            rest.remove(0);
                            if rest.len() > 0 {
                                enemy.final_path = Some(rest);
                            } else {
                                enemy.final_path = None;
                            }
                            enemy.elapsed_time = 0;
                            proof {
                                assert(i != j);
                                assert(level.level_vec@ =~= step_tiles(l0.level_vec@, l0.width as int, pos, next));
                            }
                        }
                    }
                },
                None => {},
            }
        }
        if acquire {
            Self::acquire_target(game, level, enemy);
        }
    }

    /// One tick of every enemy, in order; the tick's search slot is freed first, so at
    /// most one route search runs per tick. Enemies and the tiles marked as theirs stay in
    /// step throughout.
    pub fn update_enemies(&mut self, game: &mut GameState, level: &mut LevelManager, delta_time: u64)
        requires
            old(level).wf(),
            enemies_consistent(*old(level), old(self).enemy_vec@),
            paths_nonempty(old(self).enemy_vec@),
        ensures
            final(level).wf(),
            final(level).width == old(level).width,
            final(level).height == old(level).height,
            enemies_consistent(*final(level), final(self).enemy_vec@),
            paths_nonempty(final(self).enemy_vec@),
            final(self).enemy_vec@.len() == old(self).enemy_vec@.len(),
            exists|gs: Seq<GameState>, ls: Seq<LevelManager>|
                #[trigger] tick_trace(
                    gs,
                    ls,
                    old(self).enemy_vec@,
                    final(self).enemy_vec@,
                    *old(game),
                    *old(level),
                    delta_time,
                ) && gs.last() == *final(game) && ls.last() == *final(level),
    {
        game.is_pathfinding = false;
        let ghost w0 = level.width;
        let ghost h0 = level.height;
        let ghost mut gs: Seq<GameState> = seq![*game];
        let ghost mut ls: Seq<LevelManager> = seq![*level];
        let mut i: usize = 0;
        while i < self.enemy_vec.len()
            invariant
                level.wf(),
                level.width == w0,
                level.height == h0,
                enemies_consistent(*level, self.enemy_vec@),
                paths_nonempty(self.enemy_vec@),
                self.enemy_vec@.len() == old(self).enemy_vec@.len(),
                i <= self.enemy_vec@.len(),
                gs.len() == i + 1,
                ls.len() == i + 1,
                gs[0] == (GameState { is_pathfinding: false, ..*old(game) }),
                ls[0] == *old(level),
                gs[i as int] == *game,
                ls[i as int] == *level,
                forall|k: int|
                    0 <= k < i ==> #[trigger] enemy_tick(
                        gs[k],
                        ls[k],
                        old(self).enemy_vec@[k],
                        gs[k + 1],
                        ls[k + 1],
                        self.enemy_vec@[k],
                        delta_time,
                    ),
                forall|k: int| i <= k < self.enemy_vec@.len() ==> #[trigger] self.enemy_vec@[k] == old(self).enemy_vec@[k],
            decreases self.enemy_vec@.len() - i,
        {
            let ghost es = self.enemy_vec@;
            let ghost l0 = *level;
            let mut e = self.enemy_vec.remove(i);
            proof {
                assert(e == es[i as int]);
                assert(es[i as int].path_view() is Some ==> es[i as int].path_view()->0.len() > 0);
            }
            Self::move_enemies(game, level, &mut e, delta_time);
            self.enemy_vec.insert(i, e);
            proof {
                assert(self.enemy_vec@ =~= es.update(i as int, e));
                lemma_step_keeps_consistent(l0, es, i as int, e, *level);
                assert forall|k: int| 0 <= k < self.enemy_vec@.len() implies (#[trigger] self.enemy_vec@[k].path_view() is Some
                    ==> self.enemy_vec@[k].path_view()->0.len() > 0) by {
                    if k != i {
                        assert(self.enemy_vec@[k] == es[k]);
                    }
                }
                gs = gs.push(*game);
                ls = ls.push(*level);
                assert forall|k: int|
                    0 <= k < i + 1 implies #[trigger] enemy_tick(
                        gs[k],
                        ls[k],
                        old(self).enemy_vec@[k],
                        gs[k + 1],
                        ls[k + 1],
                        self.enemy_vec@[k],
                        delta_time,
                    ) by {
                    if k < i {
                        assert(self.enemy_vec@[k] == es[k]);
                    } else {
                        assert(es[k] == old(self).enemy_vec@[k]);
                    }
                }
                assert forall|k: int| i + 1 <= k < self.enemy_vec@.len() implies #[trigger] self.enemy_vec@[k]
                    == old(self).enemy_vec@[k] by {
                    assert(self.enemy_vec@[k] == es[k]);
                }
            }
            i = i + 1;
        }
        proof {
            assert(tick_trace(
                gs,
                ls,
                old(self).enemy_vec@,
                self.enemy_vec@,
                *old(game),
                *old(level),
                delta_time,
            ));
        }
    }
}

} // verus!
