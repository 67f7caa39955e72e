use vstd::prelude::*;

use crate::building_manager::{
    Building,
    action_post,
    acts,
    commits,
    farm_step,
    has_base,
    tile_after_action,
    tile_step,
};
use crate::enemy_manager::{Enemy, Walker, enemies_consistent, movement_interval, walk};
use crate::game_state::{Action, BuildTool, GameState, SeedTool, active_action};
use crate::level_manager::{LevelManager, ix, lemma_ix_bounds};
use crate::tile::{CROP_TIME, LevelTile, TextureKey, TileData, TileType, is_crop, is_field, tile_wf};

verus! {

/// In a well-formed level, every tile that carries a crop is a field, and no occupied tile
/// is grass or wall. Every operation that changes the level keeps it well-formed.
pub proof fn lemma_tiles_sound(level: LevelManager, c: int, r: int)
    requires
        level.wf(),
        level.in_bounds(c, r),
    ensures
        is_crop(level.tile_at(c, r).tile_data) ==> is_field(level.tile_at(c, r).tile_type),
        level.tile_at(c, r).is_occupied ==> level.tile_at(c, r).tile_type != TileType::Grass
            && level.tile_at(c, r).tile_type != TileType::Wall,
{
    lemma_ix_bounds(level.width as int, level.height as int, c, r);
    assert(tile_wf(level.level_vec@[ix(level.width as int, c, r)]));
}

/// A tile after `k` ticks of growth.
pub open spec fn farm_steps(t: LevelTile, k: nat) -> LevelTile
    decreases k,
{
    if k == 0 {
        t
    } else {
        farm_step(farm_steps(t, (k - 1) as nat))
    }
}

proof fn lemma_farm_steps_add(t: LevelTile, a: nat, b: nat)
    ensures
        farm_steps(t, a + b) == farm_steps(farm_steps(t, a), b),
    decreases b,
{
    if b > 0 {
        lemma_farm_steps_add(t, a, (b - 1) as nat);
        assert((a + b - 1) as nat == a + (b - 1) as nat);
    }
}

/// Within a growth stage the timer counts the ticks.
proof fn lemma_stage(t: LevelTile, k: nat)
    requires
        t.tile_type == TileType::FieldEmpty || t.tile_type == TileType::FieldGrowing,
        is_crop(t.tile_data),
        t.growth_timer == 0,
        k < CROP_TIME,
    ensures
        farm_steps(t, k) == (LevelTile { growth_timer: k as u64, ..t }),
    decreases k,
{
    if k > 0 {
        lemma_stage(t, (k - 1) as nat);
    }
}

/// An empty field sown with carrots grows after `CROP_TIME` ticks, with its timer reset,
/// and is ready to harvest, with the carrot texture and its timer reset, after `CROP_TIME`
/// more.
pub proof fn lemma_growth_round_trip(t: LevelTile)
    requires
        t.tile_type == TileType::FieldEmpty,
        t.tile_data == TileData::Carrots,
        t.growth_timer == 0,
    ensures
        farm_steps(t, CROP_TIME as nat) == (LevelTile {
            tile_type: TileType::FieldGrowing,
            texture: TextureKey::FieldGrowing,
            growth_timer: 0,
            ..t
        }),
        farm_steps(t, 2 * CROP_TIME as nat) == (LevelTile {
            tile_type: TileType::FieldHarvestable,
            texture: TextureKey::FieldCarrot,
            growth_timer: 0,
            ..t
        }),
{
    let k = (CROP_TIME - 1) as nat;
    lemma_stage(t, k);
    let g = LevelTile {
        tile_type: TileType::FieldGrowing,
        texture: TextureKey::FieldGrowing,
        growth_timer: 0,
        ..t
    };
    assert(farm_steps(t, CROP_TIME as nat) == farm_step(farm_steps(t, k)));
    lemma_stage(g, k);
    lemma_farm_steps_add(t, CROP_TIME as nat, CROP_TIME as nat);
    assert(farm_steps(g, CROP_TIME as nat) == farm_step(farm_steps(g, k)));
}

/// A committed hoe on a harvestable carrot field counts exactly one carrot and leaves an
/// empty field without a crop.
pub proof fn lemma_harvest_carrot(
    b0: Seq<Building>,
    g0: GameState,
    e0: Seq<Enemy>,
    t: LevelTile,
    c: usize,
    r: usize,
    b1: Seq<Building>,
    g1: GameState,
    e1: Seq<Enemy>,
)
    requires
        action_post(b0, g0, e0, t, c, r, Action::Seed(SeedTool::Hoe), b1, g1, e1),
        commits(g0, Action::Seed(SeedTool::Hoe), t),
        t.tile_type == TileType::FieldHarvestable,
        t.tile_data == TileData::Carrots,
        g0.carrot_amount < u64::MAX,
    ensures
        g1.carrot_amount == g0.carrot_amount + 1,
        g1.tomato_amount == g0.tomato_amount,
        tile_after_action(g0, b0, Action::Seed(SeedTool::Hoe), t).tile_type == TileType::FieldEmpty,
        tile_after_action(g0, b0, Action::Seed(SeedTool::Hoe), t).tile_data == TileData::Empty,
{
}

/// Within one input event, while the placement latch is not cleared, a committed base
/// placement followed by any further tile update (of the same tile or another) yields
/// exactly one new building and exactly one new target.
pub proof fn lemma_base_commits_once(
    b0: Seq<Building>,
    g0: GameState,
    e0: Seq<Enemy>,
    t0: LevelTile,
    c0: usize,
    r0: usize,
    b1: Seq<Building>,
    g1: GameState,
    e1: Seq<Enemy>,
    t1: LevelTile,
    u1: LevelTile,
    c1: usize,
    r1: usize,
    b2: Seq<Building>,
    g2: GameState,
    e2: Seq<Enemy>,
    u2: LevelTile,
)
    requires
        tile_step(b0, g0, e0, t0, c0, r0, b1, g1, e1, t1),
        tile_step(b1, g1, e1, u1, c1, r1, b2, g2, e2, u2),
        acts(g0, c0, r0),
        active_action(g0) == Some(Action::Build(BuildTool::Base)),
        commits(g0, Action::Build(BuildTool::Base), t0),
        !has_base(b0),
    ensures
        b2.len() == b0.len() + 1,
        g2.target_vec@.len() == g0.target_vec@.len() + 1,
{
    assert(g1.placed);
    if acts(g1, c1, r1) {
        assert(!commits(g1, active_action(g1)->0, u1));
    }
}

/// With its interval passed on every tick and each next cell free, an enemy given a path
/// of three cells takes one cell per tick, stands on the last after three ticks and then
/// holds no path; a tick that does not pass the interval moves it nowhere.
pub proof fn lemma_three_step_path(e0: Walker, speed: u8, dt: u64)
    requires
        e0.path is Some,
        e0.path->0.len() == 3,
        e0.elapsed == 0,
        dt > movement_interval(speed),
    ensures
        ({
            let p = e0.path->0;
            let e1 = walk(e0, false, speed, true, dt);
            let e2 = walk(e1, false, speed, true, dt);
            let e3 = walk(e2, false, speed, true, dt);
            &&& e1.pos == p[0] && e1.elapsed == 0
            &&& e2.pos == p[1] && e2.elapsed == 0
            &&& e3.pos == p[2] && e3.elapsed == 0
            &&& e3.path is None
        }),
        forall|short: u64| #![auto]
            short <= movement_interval(speed) ==> walk(e0, false, speed, true, short).pos == e0.pos,
{
    let p = e0.path->0;
    let e1 = walk(e0, false, speed, true, dt);
    assert(e1.path == Some(p.drop_first()));
    let e2 = walk(e1, false, speed, true, dt);
    assert(e2.path == Some(p.drop_first().drop_first()));
}

/// Enemies and their tiles stay in step (as every enemy update keeps them): each enemy's
/// cell is marked as held by an enemy, and any other cell so marked belongs to another
/// enemy, so each enemy holds exactly one tile.
pub proof fn lemma_one_tile_per_enemy(level: LevelManager, enemies: Seq<Enemy>, i: int)
    requires
        enemies_consistent(level, enemies),
        0 <= i < enemies.len(),
    ensures
        level.tile_at(enemies[i].grid_index.0 as int, enemies[i].grid_index.1 as int).tile_type
            == TileType::Goblin,
        level.tile_at(enemies[i].grid_index.0 as int, enemies[i].grid_index.1 as int).is_occupied,
        forall|c: int, r: int|
            level.in_bounds(c, r) && #[trigger] level.tile_at(c, r).tile_type == TileType::Goblin && (
            c as usize, r as usize) != enemies[i].grid_index ==> exists|j: int|
                0 <= j < enemies.len() && j != i && #[trigger] enemies[j].grid_index == (
                c as usize,
                r as usize,
            ),
{
    let p = enemies[i].grid_index;
    assert forall|c: int, r: int|
        level.in_bounds(c, r) && #[trigger] level.tile_at(c, r).tile_type == TileType::Goblin && (
        c as usize, r as usize) != p implies exists|j: int|
            0 <= j < enemies.len() && j != i && #[trigger] enemies[j].grid_index == (
            c as usize,
            r as usize,
        ) by {
        let j = choose|j: int| 0 <= j < enemies.len() && #[trigger] enemies[j].grid_index == (c as usize, r as usize);
        assert(j != i);
    }
}

} // verus!
