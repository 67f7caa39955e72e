use vstd::prelude::*;

use crate::enemy_manager::{Enemy, EnemyManager, spawned};
use crate::game_state::{
    Action,
    Advisory,
    BuildTool,
    GameState,
    Preview,
    PreviewIcon,
    SeedTool,
    active_action,
    over_tile,
};
use crate::tile::{
    CROP_TIME,
    LevelTile,
    TextureKey,
    TileData,
    TileType,
    is_crop,
    is_field,
    tile_wf,
};

verus! {

/// Health a base starts with.
pub const BUILDING_BASE_HEALTH: u16 = 1000;

/// Ticks a damaged building waits before it heals.
pub const REGEN_DELAY: u16 = 256;

#[derive(Clone, Copy, Debug, PartialEq, Eq, Structural)]
pub enum BuildingType {
    Base,
    Empty,
}

/// A building, anchored at its bottom-left tile; a base covers that tile, the one to its
/// right, and the two above them.
#[derive(Clone, Copy, Debug)]
pub struct Building {
    pub building_type: BuildingType,
    pub grid_index: (usize, usize),
    pub last_damaged: u16,
    pub max_health: u16,
    pub health: u16,
}

pub struct BuildingManager {
    pub building_vec: Vec<Building>,
}

pub open spec fn has_base(bs: Seq<Building>) -> bool {
    exists|i: int| 0 <= i < bs.len() && #[trigger] bs[i].building_type == BuildingType::Base
}

/// At most one base.
pub open spec fn buildings_wf(bs: Seq<Building>) -> bool {
    forall|i: int, j: int|
        0 <= i < bs.len() && 0 <= j < bs.len() && #[trigger] bs[i].building_type
            == BuildingType::Base && #[trigger] bs[j].building_type == BuildingType::Base ==> i == j
}

pub open spec fn base_building(c: usize, r: usize) -> Building {
    Building {
        building_type: BuildingType::Base,
        grid_index: (c, r),
        last_damaged: 0,
        max_health: BUILDING_BASE_HEALTH,
        health: BUILDING_BASE_HEALTH,
    }
}

pub open spec fn empty_building(c: usize, r: usize) -> Building {
    Building {
        building_type: BuildingType::Empty,
        grid_index: (c, r),
        last_damaged: 0,
        max_health: 0,
        health: 0,
    }
}

pub open spec fn sat_inc(x: u64) -> u64 {
    if x == u64::MAX {
        x
    } else {
        (x + 1) as u64
    }
}

/// One tick of a tile's crop: the timer of a field that carries a crop counts up; an empty
/// field whose timer reaches `CROP_TIME` starts growing (or, without a crop, goes back to
/// grass); a growing field whose timer reaches `CROP_TIME` becomes harvestable with its
/// crop's texture (or, without a crop, goes back to grass). Each change restarts the timer.
pub open spec fn farm_step(t: LevelTile) -> LevelTile {
    let t1 = if is_crop(t.tile_data) && is_field(t.tile_type) {
        LevelTile { growth_timer: sat_inc(t.growth_timer), ..t }
    } else {
        t
    };
    let t2 = if t1.tile_type == TileType::FieldEmpty && t1.growth_timer == CROP_TIME {
        if is_crop(t1.tile_data) {
            LevelTile {
                tile_type: TileType::FieldGrowing,
                texture: TextureKey::FieldGrowing,
                growth_timer: 0,
                ..t1
            }
        } else {
            LevelTile {
                tile_type: TileType::Grass,
                texture: TextureKey::TileGrass,
                growth_timer: 0,
                ..t1
            }
        }
    } else {
        t1
    };
    if t2.tile_type == TileType::FieldGrowing && t2.growth_timer == CROP_TIME {
        if t2.tile_data == TileData::Carrots {
            LevelTile {
                tile_type: TileType::FieldHarvestable,
                texture: TextureKey::FieldCarrot,
                growth_timer: 0,
                ..t2
            }
        } else if t2.tile_data == TileData::Tomatoes {
            LevelTile {
                tile_type: TileType::FieldHarvestable,
                texture: TextureKey::FieldTomato,
                growth_timer: 0,
                ..t2
            }
        } else {
            LevelTile {
                tile_type: TileType::Grass,
                texture: TextureKey::TileGrass,
                growth_timer: 0,
                ..t2
            }
        }
    } else {
        t2
    }
}

/// Whether a tool may be applied to a tile.
pub open spec fn legal(a: Action, t: LevelTile) -> bool {
    match a {
        Action::Build(BuildTool::Wall) | Action::Build(BuildTool::Base) => t.tile_type
            == TileType::Grass && !t.is_occupied,
        Action::Build(_) => t.tile_type == TileType::Grass,
        Action::Seed(SeedTool::Shovel) => !t.is_occupied,
        Action::Seed(SeedTool::Hoe) => t.tile_type == TileType::Grass || is_field(t.tile_type),
        Action::Seed(_) => t.tile_type == TileType::FieldEmpty,
    }
}

/// The tile once a tool has been applied to it.
pub open spec fn committed(a: Action, t: LevelTile) -> LevelTile {
    match a {
        Action::Build(BuildTool::ArcherTower) => LevelTile {
            tile_type: TileType::ArcherTowerBottom,
            tile_data: TileData::ArcherTowerBottom,
            is_occupied: true,
            ..t
        },
        Action::Build(BuildTool::FireballTower) => LevelTile {
            tile_type: TileType::FireballTowerBottom,
            tile_data: TileData::FireballTowerBottom,
            is_occupied: true,
            ..t
        },
        Action::Build(BuildTool::Goblin) => LevelTile {
            tile_type: TileType::Goblin,
            tile_data: TileData::Goblin,
            is_occupied: true,
            ..t
        },
        Action::Build(BuildTool::Wall) => LevelTile {
            tile_type: TileType::Wall,
            texture: TextureKey::TileWall,
            tile_data: TileData::Empty,
            ..t
        },
        Action::Build(BuildTool::Base) => LevelTile {
            tile_type: TileType::Base,
            tile_data: TileData::Base,
            is_occupied: true,
            ..t
        },
        Action::Seed(SeedTool::Shovel) => LevelTile {
            tile_type: t.original_type,
            texture: if t.original_type == TileType::Grass {
                TextureKey::TileGrass
            } else {
                t.texture
            },
            tile_data: TileData::Empty,
            growth_timer: 0,
            ..t
        },
        Action::Seed(SeedTool::Hoe) => LevelTile {
            tile_type: TileType::FieldEmpty,
            texture: TextureKey::FieldEmpty,
            tile_data: TileData::Empty,
            growth_timer: 0,
            ..t
        },
        Action::Seed(SeedTool::Carrot) => LevelTile {
            texture: TextureKey::FieldSeeds,
            tile_data: TileData::Carrots,
            growth_timer: 0,
            ..t
        },
        Action::Seed(SeedTool::Tomato) => LevelTile {
            texture: TextureKey::FieldSeeds,
            tile_data: TileData::Tomatoes,
            growth_timer: 0,
            ..t
        },
    }
}

pub open spec fn icon(a: Action) -> PreviewIcon {
    match a {
        Action::Build(BuildTool::ArcherTower) => PreviewIcon::ArcherTower,
        Action::Build(BuildTool::FireballTower) => PreviewIcon::FireballTower,
        Action::Build(BuildTool::Goblin) => PreviewIcon::Goblin,
        Action::Build(BuildTool::Wall) => PreviewIcon::Cobblestone,
        Action::Build(BuildTool::Base) => PreviewIcon::House,
        Action::Seed(SeedTool::Shovel) => PreviewIcon::Shovel,
        Action::Seed(SeedTool::Hoe) => PreviewIcon::Hoe,
        Action::Seed(SeedTool::Carrot) => PreviewIcon::Carrot,
        Action::Seed(SeedTool::Tomato) => PreviewIcon::Tomato,
    }
}

/// The second phase of placement: a legal tile, no placement yet in this input event, the
/// preview showing and the confirm button held.
pub open spec fn commits(g: GameState, a: Action, t: LevelTile) -> bool {
    legal(a, t) && !g.placed && g.preview_mode && g.confirm
}

/// A committed base placement that goes through: there is no base yet.
pub open spec fn base_placed(g: GameState, bs: Seq<Building>, a: Action, t: LevelTile) -> bool {
    commits(g, a, t) && a == Action::Build(BuildTool::Base) && !has_base(bs)
}

/// The tile after a tool was aimed at it.
pub open spec fn tile_after_action(g: GameState, bs: Seq<Building>, a: Action, t: LevelTile) -> LevelTile {
    if commits(g, a, t) && (a != Action::Build(BuildTool::Base) || !has_base(bs)) {
        committed(a, t)
    } else {
        t
    }
}

/// Seeds aimed, with the confirm button held, at something other than an empty field.
pub open spec fn misplanted(g: GameState, a: Action, t: LevelTile) -> bool {
    (a == Action::Seed(SeedTool::Carrot) || a == Action::Seed(SeedTool::Tomato)) && g.confirm
        && t.tile_type != TileType::FieldEmpty
}

/// A committed hoe on a harvestable field of the given crop.
pub open spec fn harvests(g: GameState, a: Action, t: LevelTile, crop: TileData) -> bool {
    commits(g, a, t) && a == Action::Seed(SeedTool::Hoe) && t.tile_type == TileType::FieldHarvestable
        && t.tile_data == crop
}

/// Everything that aiming tool `a` at tile `t` at `(c, r)` does besides changing the tile:
/// the placement protocol's fields, the harvest counters, the base, its target, the
/// buildings and the enemies.
pub open spec fn action_post(
    b0: Seq<Building>,
    g0: GameState,
    e0: Seq<Enemy>,
    t: LevelTile,
    c: usize,
    r: usize,
    a: Action,
    b1: Seq<Building>,
    g1: GameState,
    e1: Seq<Enemy>,
) -> bool {
    let ok = legal(a, t) && !g0.placed;
    let confirming = g0.preview_mode && g0.confirm;
    let shows = ok && !confirming && g0.tool_highlighted;
    let based = base_placed(g0, b0, a, t);
    &&& g1 == GameState {
        placed: g0.placed || commits(g0, a, t),
        preview_mode: if ok {
            if confirming {
                true
            } else {
                g0.tool_highlighted
            }
        } else {
            false
        },
        preview: if shows {
            Some(Preview { icon: icon(a), col: c, row: r })
        } else {
            g0.preview
        },
        message: if misplanted(g0, a, t) {
            Some(Advisory::PlantOnField)
        } else if based {
            Some(Advisory::BaseCreated)
        } else {
            g0.message
        },
        carrot_amount: if harvests(g0, a, t, TileData::Carrots) {
            sat_inc(g0.carrot_amount)
        } else {
            g0.carrot_amount
        },
        tomato_amount: if harvests(g0, a, t, TileData::Tomatoes) {
            sat_inc(g0.tomato_amount)
        } else {
            g0.tomato_amount
        },
        base_location: if based {
            Some((c, r))
        } else {
            g0.base_location
        },
        target_vec: g1.target_vec,
        ..g0
    }
    &&& g1.target_vec@ == if based {
        g0.target_vec@.push((c, r))
    } else {
        g0.target_vec@
    }
    &&& b1 == if based {
        b0.push(base_building(c, r))
    } else {
        b0
    }
    &&& e1 == if commits(g0, a, t) && a == Action::Build(BuildTool::Goblin) {
        e0.push(spawned(TileData::Goblin, (c, r)))
    } else {
        e0
    }
}

/// The tool acts on tile `(c, r)`: the pointer is on it, not on the interface, and a tool
/// is active.
pub open spec fn acts(g: GameState, c: usize, r: usize) -> bool {
    !g.hovering_button && over_tile(g.mouse_point, g.cam, c as int, r as int) && active_action(g) is Some
}

/// One tick of tile `(c, r)`: the active tool acts on it where the pointer is on it, then
/// its crop grows.
pub open spec fn tile_step(
    b0: Seq<Building>,
    g0: GameState,
    e0: Seq<Enemy>,
    t0: LevelTile,
    c: usize,
    r: usize,
    b1: Seq<Building>,
    g1: GameState,
    e1: Seq<Enemy>,
    t1: LevelTile,
) -> bool {
    if acts(g0, c, r) {
        let a = active_action(g0)->0;
        &&& action_post(b0, g0, e0, t0, c, r, a, b1, g1, e1)
        &&& t1 == farm_step(tile_after_action(g0, b0, a, t0))
    } else {
        &&& b1 == b0
        &&& g1 == g0
        &&& e1 == e0
        &&& t1 == farm_step(t0)
    }
}

pub open spec fn sat_inc16(x: u16) -> u16 {
    if x == u16::MAX {
        x
    } else {
        (x + 1) as u16
    }
}

/// One tick of a building's healing: a damaged building counts the ticks since it was
/// damaged and, once more than `REGEN_DELAY` have passed, heals one point per tick.
pub open spec fn regen(b: Building) -> Building {
    if b.health < b.max_health {
        let ld = sat_inc16(b.last_damaged);
        Building {
            last_damaged: ld,
            health: if ld > REGEN_DELAY {
                (b.health + 1) as u16
            } else {
                b.health
            },
            ..b
        }
    } else {
        b
    }
}

/// Whether tool `a` may be applied to `t`.
pub fn is_legal(a: Action, t: &LevelTile) -> (b: bool)
    ensures
        b == legal(a, *t),
{
    match a {
        Action::Build(BuildTool::Wall) | Action::Build(BuildTool::Base) => t.tile_type
            == TileType::Grass && !t.is_occupied,
        Action::Build(_) => t.tile_type == TileType::Grass,
        Action::Seed(SeedTool::Shovel) => !t.is_occupied,
        Action::Seed(SeedTool::Hoe) => t.tile_type == TileType::Grass || t.is_field_type(),
        Action::Seed(_) => t.tile_type == TileType::FieldEmpty,
    }
}

/// `t` once tool `a` has been applied to it.
pub fn apply_action(a: Action, t: LevelTile) -> (r: LevelTile)
    ensures
        r == committed(a, t),
        legal(a, t) && tile_wf(t) ==> tile_wf(r),
{
    match a {
        Action::Build(BuildTool::ArcherTower) => LevelTile {
            tile_type: TileType::ArcherTowerBottom,
            tile_data: TileData::ArcherTowerBottom,
            is_occupied: true,
            ..t
        },
        Action::Build(BuildTool::FireballTower) => LevelTile {
            tile_type: TileType::FireballTowerBottom,
            tile_data: TileData::FireballTowerBottom,
            is_occupied: true,
            ..t
        },
        Action::Build(BuildTool::Goblin) => LevelTile {
            tile_type: TileType::Goblin,
            tile_data: TileData::Goblin,
            is_occupied: true,
            ..t
        },
        Action::Build(BuildTool::Wall) => LevelTile {
            tile_type: TileType::Wall,
            texture: TextureKey::TileWall,
            tile_data: TileData::Empty,
            ..t
        },
        Action::Build(BuildTool::Base) => LevelTile {
            tile_type: TileType::Base,
            tile_data: TileData::Base,
            is_occupied: true,
            ..t
        },
        Action::Seed(SeedTool::Shovel) => LevelTile {
            tile_type: t.original_type,
            texture: if t.original_type == TileType::Grass {
                TextureKey::TileGrass
            } else {
                t.texture
            },
            tile_data: TileData::Empty,
            growth_timer: 0,
            ..t
        },
        Action::Seed(SeedTool::Hoe) => LevelTile {
            tile_type: TileType::FieldEmpty,
            texture: TextureKey::FieldEmpty,
            tile_data: TileData::Empty,
            growth_timer: 0,
            ..t
        },
        Action::Seed(SeedTool::Carrot) => LevelTile {
            texture: TextureKey::FieldSeeds,
            tile_data: TileData::Carrots,
            growth_timer: 0,
            ..t
        },
        Action::Seed(SeedTool::Tomato) => LevelTile {
            texture: TextureKey::FieldSeeds,
            tile_data: TileData::Tomatoes,
            growth_timer: 0,
            ..t
        },
    }
}

pub fn preview_icon(a: Action) -> (i: PreviewIcon)
    ensures
        i == icon(a),
{
    match a {
        Action::Build(BuildTool::ArcherTower) => PreviewIcon::ArcherTower,
        Action::Build(BuildTool::FireballTower) => PreviewIcon::FireballTower,
        Action::Build(BuildTool::Goblin) => PreviewIcon::Goblin,
        Action::Build(BuildTool::Wall) => PreviewIcon::Cobblestone,
        Action::Build(BuildTool::Base) => PreviewIcon::House,
        Action::Seed(SeedTool::Shovel) => PreviewIcon::Shovel,
        Action::Seed(SeedTool::Hoe) => PreviewIcon::Hoe,
        Action::Seed(SeedTool::Carrot) => PreviewIcon::Carrot,
        Action::Seed(SeedTool::Tomato) => PreviewIcon::Tomato,
    }
}

/// The two-phase protocol for one tool on one tile. Where the placement is allowed (`ok`),
/// a showing preview and a held confirm button commit it, latching `placed`; otherwise a
/// highlighted tool shows the preview; otherwise, and wherever it is not allowed, the
/// preview is switched off. Returns whether the placement commits.
fn advance_preview(game: &mut GameState, a: Action, ok: bool, c: usize, r: usize) -> (commit: bool)
    ensures
        commit == (ok && old(game).preview_mode && old(game).confirm),
        *final(game) == (GameState {
            placed: old(game).placed || commit,
            preview_mode: if ok {
                if old(game).preview_mode && old(game).confirm {
                    true
                } else {
                    old(game).tool_highlighted
                }
            } else {
                false
            },
            preview: if ok && !(old(game).preview_mode && old(game).confirm)
                && old(game).tool_highlighted {
                Some(Preview { icon: icon(a), col: c, row: r })
            } else {
                old(game).preview
            },
            ..*old(game)
        }),
{
    if ok {
        if game.preview_mode && game.confirm {
            game.placed = true;
            true
        } else if game.tool_highlighted {
            game.preview_mode = true;
            game.preview = Some(Preview { icon: preview_icon(a), col: c, row: r });
            false
        } else {
            game.preview_mode = false;
            false
        }
    } else {
        game.preview_mode = false;
        false
    }
}

impl BuildingManager {
    pub fn new() -> (b: BuildingManager)
        ensures
            b.building_vec@.len() == 0,
    {
        BuildingManager { building_vec: Vec::new() }
    }

    /// Whether a base has been built.
    pub fn has_base(&self) -> (b: bool)
        ensures
            b == has_base(self.building_vec@),
    {
        let mut i: usize = 0;
        while i < self.building_vec.len()
            invariant
                i <= self.building_vec@.len(),
                forall|k: int| 0 <= k < i ==> #[trigger] self.building_vec@[k].building_type
                    != BuildingType::Base,
            decreases self.building_vec@.len() - i,
        {
            if self.building_vec[i].building_type == BuildingType::Base {
                return true;
            }
            i = i + 1;
        }
        false
    }

    /// One tick of a tile's crop (see `farm_step`).
    pub fn update_farms(temp_tile: &mut LevelTile)
        requires
            tile_wf(*old(temp_tile)),
        ensures
            *final(temp_tile) == farm_step(*old(temp_tile)),
            tile_wf(*final(temp_tile)),
    {
        if temp_tile.is_crop_data() && temp_tile.is_field_type() {
            temp_tile.growth_timer = temp_tile.growth_timer.saturating_add(1);
        }
        if temp_tile.tile_type == TileType::FieldEmpty && temp_tile.growth_timer == CROP_TIME {
            if temp_tile.is_crop_data() {
                temp_tile.tile_type = TileType::FieldGrowing;
                temp_tile.texture = TextureKey::FieldGrowing;
                temp_tile.growth_timer = 0;
            } else {
                temp_tile.tile_type = TileType::Grass;
                temp_tile.texture = TextureKey::TileGrass;
                temp_tile.growth_timer = 0;
            }
        }
        if temp_tile.tile_type == TileType::FieldGrowing && temp_tile.growth_timer == CROP_TIME {
            if temp_tile.tile_data == TileData::Carrots {
                temp_tile.tile_type = TileType::FieldHarvestable;
                temp_tile.texture = TextureKey::FieldCarrot;
                temp_tile.growth_timer = 0;
            } else if temp_tile.tile_data == TileData::Tomatoes {
                temp_tile.tile_type = TileType::FieldHarvestable;
                temp_tile.texture = TextureKey::FieldTomato;
                temp_tile.growth_timer = 0;
            } else {
                temp_tile.tile_type = TileType::Grass;
                temp_tile.texture = TextureKey::TileGrass;
                temp_tile.growth_timer = 0;
            }
        }
    }

    /// Builds on tile `(col, row)`. A base goes up only on unoccupied grass while no base
    /// stands: the tile becomes the base's, the base becomes the first-built building, its
    /// tile is remembered and appended to the targets, and the player is told. Otherwise a
    /// base request changes nothing. An `Empty` building is recorded as it is.
    pub fn create_building(
        &mut self,
        game: &mut GameState,
        building_type: BuildingType,
        temp_tile: &mut LevelTile,
        col: usize,
        row: usize,
    )
        requires
            tile_wf(*old(temp_tile)),
            buildings_wf(old(self).building_vec@),
        ensures
            tile_wf(*final(temp_tile)),
            buildings_wf(final(self).building_vec@),
            building_type == BuildingType::Empty ==> {
                &&& final(self).building_vec@ == old(self).building_vec@.push(empty_building(col, row))
                &&& *final(game) == *old(game)
                &&& *final(temp_tile) == *old(temp_tile)
            },
            building_type == BuildingType::Base ==> {
                let ok = old(temp_tile).tile_type == TileType::Grass && !old(temp_tile).is_occupied
                    && !has_base(old(self).building_vec@);
                &&& final(self).building_vec@ == if ok {
                    old(self).building_vec@.push(base_building(col, row))
                } else {
                    old(self).building_vec@
                }
                &&& *final(temp_tile) == if ok {
                    committed(Action::Build(BuildTool::Base), *old(temp_tile))
                } else {
                    *old(temp_tile)
                }
                &&& *final(game) == (GameState {
                    message: if ok {
                        Some(Advisory::BaseCreated)
                    } else {
                        old(game).message
                    },
                    base_location: if ok {
                        Some((col, row))
                    } else {
                        old(game).base_location
                    },
                    target_vec: final(game).target_vec,
                    ..*old(game)
                })
                &&& final(game).target_vec@ == if ok {
                    old(game).target_vec@.push((col, row))
                } else {
                    old(game).target_vec@
                }
            },
    {
        match building_type {
            BuildingType::Base => {
                if temp_tile.tile_type == TileType::Grass && !temp_tile.is_occupied
                    && !self.has_base() {
                    *temp_tile = apply_action(Action::Build(BuildTool::Base), *temp_tile);
                    self.building_vec.push(
                        Building {
                            building_type: BuildingType::Base,
                            grid_index: (col, row),
                            last_damaged: 0,
                            max_health: BUILDING_BASE_HEALTH,
                            health: BUILDING_BASE_HEALTH,
                        },
                    );
                    game.base_location = Some((col, row));
                    game.target_vec.push((col, row));
                    game.message = Some(Advisory::BaseCreated);
                }
            },
            BuildingType::Empty => {
                self.building_vec.push(
                    Building {
                        building_type: BuildingType::Empty,
                        grid_index: (col, row),
                        last_damaged: 0,
                        max_health: 0,
                        health: 0,
                    },
                );
            },
        }
    }

    /// Build mode on the pointed tile with `tool` (see `action_post`).
    pub fn build_mode(
        &mut self,
        game: &mut GameState,
        enemies: &mut EnemyManager,
        temp_tile: &mut LevelTile,
        col: usize,
        row: usize,
        tool: BuildTool,
    )
        requires
            tile_wf(*old(temp_tile)),
            buildings_wf(old(self).building_vec@),
        ensures
            action_post(
                old(self).building_vec@,
                *old(game),
                old(enemies).enemy_vec@,
                *old(temp_tile),
                col,
                row,
                Action::Build(tool),
                final(self).building_vec@,
                *final(game),
                final(enemies).enemy_vec@,
            ),
            *final(temp_tile) == tile_after_action(
                *old(game),
                old(self).building_vec@,
                Action::Build(tool),
                *old(temp_tile),
            ),
            tile_wf(*final(temp_tile)),
            buildings_wf(final(self).building_vec@),
    {
        let a = Action::Build(tool);
        let ok = is_legal(a, temp_tile) && !game.placed;
        let commit = advance_preview(game, a, ok, col, row);
        if commit {
            match tool {
                BuildTool::Base => {
                    self.create_building(game, BuildingType::Base, temp_tile, col, row);
                },
                BuildTool::Goblin => {
                    *temp_tile = apply_action(a, *temp_tile);
                    enemies.place_enemy(temp_tile, (col, row));
                },
                _ => {
                    *temp_tile = apply_action(a, *temp_tile);
                },
            }
        }
    }

    /// Seed mode on the pointed tile with `tool` (see `action_post`); a committed hoe on a
    /// harvestable field first counts its crop.
    pub fn seed_mode(
        &self,
        game: &mut GameState,
        temp_tile: &mut LevelTile,
        col: usize,
        row: usize,
        tool: SeedTool,
    )
        requires
            tile_wf(*old(temp_tile)),
        ensures
            forall|e: Seq<Enemy>|
                #[trigger] action_post(
                    self.building_vec@,
                    *old(game),
                    e,
                    *old(temp_tile),
                    col,
                    row,
                    Action::Seed(tool),
                    self.building_vec@,
                    *final(game),
                    e,
                ),
            *final(temp_tile) == tile_after_action(
                *old(game),
                self.building_vec@,
                Action::Seed(tool),
                *old(temp_tile),
            ),
            tile_wf(*final(temp_tile)),
    {
        let a = Action::Seed(tool);
        if (tool == SeedTool::Carrot || tool == SeedTool::Tomato) && game.confirm
            && temp_tile.tile_type != TileType::FieldEmpty {
            game.message = Some(Advisory::PlantOnField);
        }
        let ok = is_legal(a, temp_tile) && !game.placed;
        let commit = advance_preview(game, a, ok, col, row);
        if commit {
            if tool == SeedTool::Hoe && temp_tile.tile_type == TileType::FieldHarvestable {
                if temp_tile.tile_data == TileData::Carrots {
                    game.carrot_amount = game.carrot_amount.saturating_add(1);
                } else if temp_tile.tile_data == TileData::Tomatoes {
                    game.tomato_amount = game.tomato_amount.saturating_add(1);
                }
            }
            *temp_tile = apply_action(a, *temp_tile);
        }
    }

    /// One tick of tile `(col, row)` (see `tile_step`).
    pub fn update_buildings(
        &mut self,
        game: &mut GameState,
        enemies: &mut EnemyManager,
        temp_tile: &mut LevelTile,
        col: usize,
        row: usize,
    )
        requires
            tile_wf(*old(temp_tile)),
            buildings_wf(old(self).building_vec@),
        ensures
            tile_step(
                old(self).building_vec@,
                *old(game),
                old(enemies).enemy_vec@,
                *old(temp_tile),
                col,
                row,
                final(self).building_vec@,
                *final(game),
                final(enemies).enemy_vec@,
                *final(temp_tile),
            ),
            tile_wf(*final(temp_tile)),
            buildings_wf(final(self).building_vec@),
    {
        if !game.hovering_button && game.over_tile(col, row) {
            match game.active_action() {
                Some(Action::Build(tool)) => {
                    self.build_mode(game, enemies, temp_tile, col, row, tool);
                },
                Some(Action::Seed(tool)) => {
                    self.seed_mode(game, temp_tile, col, row, tool);
                },
                None => {},
            }
        }
        Self::update_farms(temp_tile);
    }

    /// One tick of healing for every building (see `regen`).
    pub fn regenerate_buildings(&mut self)
        ensures
            final(self).building_vec@.len() == old(self).building_vec@.len(),
            forall|i: int|
                0 <= i < old(self).building_vec@.len() ==> #[trigger] final(self).building_vec@[i]
                    == regen(old(self).building_vec@[i]),
    {
        let mut i: usize = 0;
        while i < self.building_vec.len()
            invariant
                i <= self.building_vec@.len(),
                self.building_vec@.len() == old(self).building_vec@.len(),
                forall|k: int| 0 <= k < i ==> #[trigger] self.building_vec@[k] == regen(old(self).building_vec@[k]),
                forall|k: int| i <= k < self.building_vec@.len() ==> #[trigger] self.building_vec@[k] == old(self).building_vec@[k],
            decreases self.building_vec@.len() - i,
        {
            let b = self.building_vec[i];
            if b.health < b.max_health {
                let ld = b.last_damaged.saturating_add(1);
                let hp = if ld > REGEN_DELAY {
                    b.health + 1
                } else {
                    b.health
                };
                self.building_vec.set(i, Building { last_damaged: ld, health: hp, ..b });
            }
            i = i + 1;
        }
    }
}

} // verus!
