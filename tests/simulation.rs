use farm_defense::building_manager::{BuildingManager, BuildingType};
use farm_defense::enemy_manager::{
    is_within_area, Enemy, EnemyManager, ENEMY_GOBLIN_HEALTH, ENEMY_GOBLIN_SPEED,
};
use farm_defense::game_state::{
    Action, Advisory, BuildTool, GameState, InputEvent, Key, PreviewIcon, SeedTool, TILE_SIZE,
};
use farm_defense::level_manager::{decode_line, LevelError, LevelManager};
use farm_defense::pathfinding::{find_path, heuristic};
use farm_defense::tile::{LevelTile, TextureKey, TileData, TileType, CROP_TIME, MAX_HEIGHT, MAX_WIDTH};

fn level_from(rows: &[&str]) -> LevelManager {
    let mut level = LevelManager::new();
    let lines: Vec<String> = rows.iter().map(|r| r.to_string()).collect();
    level.load_level(&lines).unwrap();
    level
}

fn field(data: TileData) -> LevelTile {
    LevelTile {
        tile_type: TileType::FieldEmpty,
        original_type: TileType::Grass,
        texture: TextureKey::FieldSeeds,
        growth_timer: 0,
        tile_data: data,
        is_occupied: false,
    }
}

/// A state whose pointer lies on tile `(c, r)` with the given tool selected and the
/// preview showing, ready to commit on a confirm click.
fn pointing(c: usize, r: usize, action: Action) -> GameState {
    let mut g = GameState::new();
    g.mouse_point = ((c as u32 * TILE_SIZE + 1) as i32, (r as u32 * TILE_SIZE + 1) as i32);
    match action {
        Action::Build(b) => {
            g.build_mode = true;
            g.current_build = Some(b);
        }
        Action::Seed(s) => {
            g.seed_mode = true;
            g.current_seed = Some(s);
        }
    }
    g.preview_mode = true;
    g.confirm = true;
    g.tool_highlighted = true;
    g
}

fn count_goblin_tiles(level: &LevelManager) -> usize {
    level.level_vec.iter().filter(|t| t.tile_type == TileType::Goblin).count()
}

#[test]
fn astar_crosses_empty_grid_diagonally() {
    let level = level_from(&["ggggg", "ggggg", "ggggg", "ggggg", "ggggg"]);
    let path = find_path(&level, (0, 0), (4, 4)).expect("a route exists");
    assert_eq!(path.len(), 5);
    assert_eq!(path, vec![(0, 0), (1, 1), (2, 2), (3, 3), (4, 4)]);
}

#[test]
fn astar_fails_on_walled_goal() {
    let level = level_from(&["ggggg", "gwwwg", "gwgwg", "gwwwg", "ggggg"]);
    assert!(find_path(&level, (0, 0), (2, 2)).is_none());
}

#[test]
fn astar_goes_around_walls_and_occupied_tiles() {
    let mut level = level_from(&["ggg", "wwg", "ggg"]);
    let mut t = level.get(2, 1).unwrap();
    t.tile_type = TileType::Goblin;
    t.is_occupied = true;
    level.set_tile(2, 1, t);
    assert!(find_path(&level, (0, 0), (0, 2)).is_none());
    let level = level_from(&["ggg", "wwg", "ggg"]);
    let path = find_path(&level, (0, 0), (0, 2)).unwrap();
    assert_eq!(path[0], (0, 0));
    assert_eq!(*path.last().unwrap(), (0, 2));
    for w in path.windows(2) {
        let dx = (w[0].0 as i64 - w[1].0 as i64).abs();
        let dy = (w[0].1 as i64 - w[1].1 as i64).abs();
        assert!(dx <= 1 && dy <= 1 && (dx + dy) > 0);
        assert!(level.is_walkable(w[1].0, w[1].1));
    }
}

#[test]
fn astar_start_equals_goal() {
    let level = level_from(&["gg", "gg"]);
    assert_eq!(find_path(&level, (1, 1), (1, 1)), Some(vec![(1, 1)]));
}

#[test]
fn astar_goal_outside_grid() {
    let level = level_from(&["gg", "gg"]);
    assert!(find_path(&level, (0, 0), (5, 0)).is_none());
}

#[test]
fn heuristic_is_manhattan() {
    assert_eq!(heuristic((0, 0), (4, 4)), 8);
    assert_eq!(heuristic((7, 2), (3, 5)), 7);
    assert_eq!(heuristic((0, 0), (usize::MAX, 1)), usize::MAX);
}

#[test]
fn crop_grows_then_ripens() {
    let mut t = field(TileData::Carrots);
    for _ in 0..CROP_TIME - 1 {
        BuildingManager::update_farms(&mut t);
    }
    assert_eq!(t.tile_type, TileType::FieldEmpty);
    assert_eq!(t.growth_timer, CROP_TIME - 1);
    BuildingManager::update_farms(&mut t);
    assert_eq!(t.tile_type, TileType::FieldGrowing);
    assert_eq!(t.growth_timer, 0);
    for _ in 0..CROP_TIME {
        BuildingManager::update_farms(&mut t);
    }
    assert_eq!(t.tile_type, TileType::FieldHarvestable);
    assert_eq!(t.growth_timer, 0);
    assert_eq!(t.texture, TextureKey::FieldCarrot);
    assert_eq!(t.tile_data, TileData::Carrots);
}

#[test]
fn tomato_ripens_with_tomato_texture() {
    let mut t = field(TileData::Tomatoes);
    for _ in 0..2 * CROP_TIME {
        BuildingManager::update_farms(&mut t);
    }
    assert_eq!(t.tile_type, TileType::FieldHarvestable);
    assert_eq!(t.texture, TextureKey::FieldTomato);
}

#[test]
fn field_without_crop_does_not_count() {
    let mut t = field(TileData::Empty);
    for _ in 0..10 {
        BuildingManager::update_farms(&mut t);
    }
    assert_eq!(t.growth_timer, 0);
    assert_eq!(t.tile_type, TileType::FieldEmpty);
}

#[test]
fn abandoned_field_reverts_to_grass() {
    let mut t = field(TileData::Empty);
    t.growth_timer = CROP_TIME;
    BuildingManager::update_farms(&mut t);
    assert_eq!(t.tile_type, TileType::Grass);
    assert_eq!(t.growth_timer, 0);
}

#[test]
fn harvesting_carrot_counts_one() {
    let bm = BuildingManager::new();
    let mut g = pointing(0, 0, Action::Seed(SeedTool::Hoe));
    let mut t = field(TileData::Carrots);
    t.tile_type = TileType::FieldHarvestable;
    bm.seed_mode(&mut g, &mut t, 0, 0, SeedTool::Hoe);
    assert_eq!(g.carrot_amount, 1);
    assert_eq!(g.tomato_amount, 0);
    assert_eq!(t.tile_type, TileType::FieldEmpty);
    assert_eq!(t.tile_data, TileData::Empty);
    assert!(g.placed);
}

#[test]
fn planting_needs_an_empty_field() {
    let bm = BuildingManager::new();
    let mut g = pointing(0, 0, Action::Seed(SeedTool::Carrot));
    let mut t = LevelTile::plain(TileType::Grass, TextureKey::TileGrass);
    bm.seed_mode(&mut g, &mut t, 0, 0, SeedTool::Carrot);
    assert_eq!(g.message, Some(Advisory::PlantOnField));
    assert_eq!(t, LevelTile::plain(TileType::Grass, TextureKey::TileGrass));
    assert!(!g.preview_mode);

    let mut g = pointing(0, 0, Action::Seed(SeedTool::Tomato));
    let mut t = field(TileData::Empty);
    bm.seed_mode(&mut g, &mut t, 0, 0, SeedTool::Tomato);
    assert_eq!(g.message, None);
    assert_eq!(t.tile_data, TileData::Tomatoes);
    assert_eq!(t.texture, TextureKey::FieldSeeds);
}

#[test]
fn shovel_restores_ground() {
    let bm = BuildingManager::new();
    let mut g = pointing(0, 0, Action::Seed(SeedTool::Shovel));
    let mut t = field(TileData::Carrots);
    t.growth_timer = 5;
    bm.seed_mode(&mut g, &mut t, 0, 0, SeedTool::Shovel);
    assert_eq!(t.tile_type, TileType::Grass);
    assert_eq!(t.texture, TextureKey::TileGrass);
    assert_eq!(t.tile_data, TileData::Empty);
    assert_eq!(t.growth_timer, 0);
}

#[test]
fn preview_phase_does_not_mutate() {
    let bm = BuildingManager::new();
    let mut g = pointing(3, 4, Action::Seed(SeedTool::Hoe));
    g.preview_mode = false;
    let mut t = LevelTile::plain(TileType::Grass, TextureKey::TileGrass);
    bm.seed_mode(&mut g, &mut t, 3, 4, SeedTool::Hoe);
    assert_eq!(t, LevelTile::plain(TileType::Grass, TextureKey::TileGrass));
    assert!(g.preview_mode);
    let p = g.preview.unwrap();
    assert_eq!((p.icon, p.col, p.row), (PreviewIcon::Hoe, 3, 4));
    bm.seed_mode(&mut g, &mut t, 3, 4, SeedTool::Hoe);
    assert_eq!(t.tile_type, TileType::FieldEmpty);
}

#[test]
fn base_commits_once_per_input_event() {
    let mut level = level_from(&["gggg", "gggg", "gggg"]);
    let mut bm = BuildingManager::new();
    let mut em = EnemyManager::new();
    let mut g = pointing(1, 2, Action::Build(BuildTool::Base));
    level.update_buildings(&mut g, &mut bm, &mut em);
    level.update_buildings(&mut g, &mut bm, &mut em);
    assert_eq!(bm.building_vec.len(), 1);
    assert_eq!(g.target_vec, vec![(1, 2)]);
    assert_eq!(g.base_location, Some((1, 2)));
    assert_eq!(g.message, Some(Advisory::BaseCreated));
    let t = level.get(1, 2).unwrap();
    assert_eq!(t.tile_type, TileType::Base);
    assert!(t.is_occupied);
}

#[test]
fn second_base_is_refused() {
    let mut level = level_from(&["gggg", "gggg"]);
    let mut bm = BuildingManager::new();
    let mut em = EnemyManager::new();
    let mut g = pointing(0, 0, Action::Build(BuildTool::Base));
    level.update_buildings(&mut g, &mut bm, &mut em);
    assert!(g.do_event(InputEvent::MouseUp) == false);
    assert!(!g.placed);
    g.confirm = true;
    g.mouse_point = ((3 * TILE_SIZE + 1) as i32, (TILE_SIZE + 1) as i32);
    level.update_buildings(&mut g, &mut bm, &mut em);
    assert_eq!(bm.building_vec.len(), 1);
    assert_eq!(g.target_vec.len(), 1);
    assert_eq!(level.get(3, 1).unwrap().tile_type, TileType::Grass);
}

#[test]
fn create_building_empty_is_recorded() {
    let mut bm = BuildingManager::new();
    let mut g = GameState::new();
    let mut t = LevelTile::plain(TileType::Grass, TextureKey::TileGrass);
    bm.create_building(&mut g, BuildingType::Empty, &mut t, 2, 3);
    assert_eq!(bm.building_vec.len(), 1);
    assert_eq!(bm.building_vec[0].building_type, BuildingType::Empty);
    assert_eq!(bm.building_vec[0].grid_index, (2, 3));
    assert!(!bm.has_base());
    assert_eq!(t.tile_type, TileType::Grass);
}

#[test]
fn buildings_heal_after_delay() {
    let mut bm = BuildingManager::new();
    let mut g = GameState::new();
    let mut t = LevelTile::plain(TileType::Grass, TextureKey::TileGrass);
    bm.create_building(&mut g, BuildingType::Base, &mut t, 0, 0);
    bm.building_vec[0].health = 10;
    for _ in 0..256 {
        bm.regenerate_buildings();
    }
    assert_eq!(bm.building_vec[0].health, 10);
    bm.regenerate_buildings();
    assert_eq!(bm.building_vec[0].health, 11);
    assert_eq!(bm.building_vec[0].last_damaged, 257);
}

#[test]
fn towers_and_walls_follow_rules() {
    let mut bm = BuildingManager::new();
    let mut em = EnemyManager::new();
    let mut g = pointing(0, 0, Action::Build(BuildTool::ArcherTower));
    let mut t = LevelTile::plain(TileType::Grass, TextureKey::TileGrass);
    bm.build_mode(&mut g, &mut em, &mut t, 0, 0, BuildTool::ArcherTower);
    assert_eq!(t.tile_type, TileType::ArcherTowerBottom);
    assert!(t.is_occupied);

    let mut g = pointing(0, 0, Action::Build(BuildTool::Wall));
    let mut w = LevelTile::plain(TileType::Grass, TextureKey::TileGrass);
    bm.build_mode(&mut g, &mut em, &mut w, 0, 0, BuildTool::Wall);
    assert_eq!(w.tile_type, TileType::Wall);
    assert_eq!(w.texture, TextureKey::TileWall);
    assert!(!w.is_occupied);

    let mut g = pointing(0, 0, Action::Build(BuildTool::FireballTower));
    let mut f = LevelTile::plain(TileType::Floor, TextureKey::TileFloor);
    bm.build_mode(&mut g, &mut em, &mut f, 0, 0, BuildTool::FireballTower);
    assert_eq!(f.tile_type, TileType::Floor);
    assert!(!g.placed);
}

#[test]
fn goblin_spawns_on_grass() {
    let mut level = level_from(&["ggg", "ggg"]);
    let mut bm = BuildingManager::new();
    let mut em = EnemyManager::new();
    let mut g = pointing(2, 1, Action::Build(BuildTool::Goblin));
    level.update_buildings(&mut g, &mut bm, &mut em);
    assert_eq!(em.enemy_vec.len(), 1);
    let e = &em.enemy_vec[0];
    assert_eq!(e.grid_index, (2, 1));
    assert_eq!(e.health, ENEMY_GOBLIN_HEALTH);
    assert_eq!(e.movement_speed, ENEMY_GOBLIN_SPEED);
    assert_eq!(level.get(2, 1).unwrap().tile_type, TileType::Goblin);
    assert_eq!(count_goblin_tiles(&level), 1);
}

#[test]
fn place_enemy_default_stats() {
    let mut em = EnemyManager::new();
    let t = LevelTile::plain(TileType::Grass, TextureKey::TileGrass);
    em.place_enemy(&t, (4, 5));
    assert_eq!(em.enemy_vec[0].health, 1);
    assert_eq!(em.enemy_vec[0].movement_speed, 1);
    assert_eq!(em.enemy_vec[0].grid_index, (4, 5));
}

fn spawn_goblin(level: &mut LevelManager, em: &mut EnemyManager, c: usize, r: usize) {
    let mut t = level.get(c, r).unwrap();
    t.tile_type = TileType::Goblin;
    t.tile_data = TileData::Goblin;
    t.is_occupied = true;
    level.set_tile(c, r, t);
    em.place_enemy(&t, (c, r));
}

#[test]
fn enemy_walks_one_tile_per_interval() {
    let mut level = level_from(&["gggg", "gggg"]);
    let mut em = EnemyManager::new();
    let mut g = GameState::new();
    spawn_goblin(&mut level, &mut em, 0, 0);
    let mut e: Enemy = em.enemy_vec.remove(0);
    e.final_path = Some(vec![(1, 0), (2, 1), (3, 1)]);
    let interval = 1_000_000 / e.movement_speed as u64;

    EnemyManager::move_enemies(&mut g, &mut level, &mut e, interval);
    assert_eq!(e.grid_index, (0, 0));

    EnemyManager::move_enemies(&mut g, &mut level, &mut e, 1);
    assert_eq!(e.grid_index, (1, 0));
    assert_eq!(e.elapsed_time, 0);
    assert_eq!(count_goblin_tiles(&level), 1);
    assert_eq!(level.get(0, 0).unwrap().tile_type, TileType::Grass);
    assert!(!level.get(0, 0).unwrap().is_occupied);

    EnemyManager::move_enemies(&mut g, &mut level, &mut e, interval + 1);
    assert_eq!(e.grid_index, (2, 1));
    EnemyManager::move_enemies(&mut g, &mut level, &mut e, interval + 1);
    assert_eq!(e.grid_index, (3, 1));
    assert!(e.final_path.is_none());
    assert_eq!(count_goblin_tiles(&level), 1);
    assert!(level.get(3, 1).unwrap().is_occupied);
}

#[test]
fn blocked_step_drops_path() {
    let mut level = level_from(&["gwg"]);
    let mut em = EnemyManager::new();
    let mut g = GameState::new();
    spawn_goblin(&mut level, &mut em, 0, 0);
    let mut e = em.enemy_vec.remove(0);
    e.final_path = Some(vec![(1, 0), (2, 0)]);
    EnemyManager::move_enemies(&mut g, &mut level, &mut e, 2_000_000);
    assert_eq!(e.grid_index, (0, 0));
    assert!(e.final_path.is_none());
}

#[test]
fn idle_enemy_finds_route_to_base() {
    let mut level = level_from(&["ggggg", "ggggg", "ggggg"]);
    let mut bm = BuildingManager::new();
    let mut em = EnemyManager::new();
    let mut g = pointing(4, 2, Action::Build(BuildTool::Base));
    level.update_buildings(&mut g, &mut bm, &mut em);
    spawn_goblin(&mut level, &mut em, 0, 0);
    g.frame_time = 0;
    em.update_enemies(&mut g, &mut level, 0);
    // The base's tile is occupied, so the target is nudged one cell right of it: off the grid.
    assert_eq!(g.target_vec, vec![(5, 2)]);
    assert!(em.enemy_vec[0].final_path.is_none());
    assert!(g.is_pathfinding);

    g.target_vec = vec![(4, 0)];
    g.frame_time = 1;
    em.update_enemies(&mut g, &mut level, 0);
    let path = em.enemy_vec[0].final_path.clone().unwrap();
    assert_eq!(*path.last().unwrap(), (4, 0));
    assert_eq!(path.len(), 4);
    for _ in 0..4 {
        em.update_enemies(&mut g, &mut level, 600_000);
        assert_eq!(count_goblin_tiles(&level), em.enemy_vec.len());
    }
    assert_eq!(em.enemy_vec[0].grid_index, (4, 0));
    assert!(em.enemy_vec[0].final_path.is_none());
}

#[test]
fn nudged_target_clamps_at_zero() {
    let mut level = level_from(&["ggg", "ggg"]);
    let mut em = EnemyManager::new();
    let mut g = GameState::new();
    spawn_goblin(&mut level, &mut em, 0, 0);
    spawn_goblin(&mut level, &mut em, 2, 1);
    g.target_vec = vec![(0, 0)];
    g.frame_time = 1;
    let mut e = em.enemy_vec.remove(1);
    EnemyManager::move_enemies(&mut g, &mut level, &mut e, 0);
    assert_eq!(g.target_vec, vec![(1, 0)]);
    g.frame_time = 3;
    g.target_vec = vec![(0, 0)];
    g.is_pathfinding = false;
    e.final_path = None;
    EnemyManager::move_enemies(&mut g, &mut level, &mut e, 0);
    assert_eq!(g.target_vec, vec![(0, 1)]);
}

#[test]
fn within_area_is_square() {
    assert!(is_within_area((3, 3), (4, 4), 1));
    assert!(!is_within_area((3, 3), (5, 3), 1));
    assert!(is_within_area((0, 0), (0, 0), 0));
}

#[test]
fn sweep_keeps_tiles_sound() {
    let mut level = level_from(&["gefw", "eegg"]);
    let mut bm = BuildingManager::new();
    let mut em = EnemyManager::new();
    let mut g = pointing(1, 0, Action::Seed(SeedTool::Carrot));
    for _ in 0..3 {
        level.update_buildings(&mut g, &mut bm, &mut em);
        for t in level.level_vec.iter() {
            if matches!(t.tile_data, TileData::Carrots | TileData::Tomatoes) {
                assert!(matches!(
                    t.tile_type,
                    TileType::FieldEmpty | TileType::FieldGrowing | TileType::FieldHarvestable
                ));
            }
            if t.is_occupied {
                assert!(t.tile_type != TileType::Grass && t.tile_type != TileType::Wall);
            }
        }
    }
    let t = level.get(1, 0).unwrap();
    assert_eq!(t.tile_data, TileData::Carrots);
    assert_eq!(t.growth_timer, 3);
}

#[test]
fn level_loading_skips_unknown_characters() {
    let level = level_from(&["g?w", "fe!"]);
    assert_eq!(level.dimensions(), (2, 2));
    assert_eq!(level.get(1, 0).unwrap().tile_type, TileType::Wall);
    assert_eq!(level.get(0, 1).unwrap().tile_type, TileType::Floor);
    assert_eq!(level.get(1, 1).unwrap().tile_type, TileType::FieldEmpty);
    assert_eq!(decode_line(&"x-g".to_string()).len(), 1);
}

#[test]
fn ragged_level_is_refused() {
    let mut level = level_from(&["gg"]);
    let lines = vec!["ggg".to_string(), "gg".to_string()];
    assert_eq!(level.load_level(&lines), Err(LevelError::RaggedRows));
    assert_eq!(level.dimensions(), (2, 1));
}

#[test]
fn empty_level_description() {
    let mut level = LevelManager::new();
    assert_eq!(level.load_level(&Vec::new()), Ok(()));
    assert_eq!(level.dimensions(), (0, 0));
}

#[test]
fn grid_access_out_of_bounds() {
    let level = level_from(&["gg"]);
    assert_eq!(level.get(2, 0), Err(LevelError::OutOfBounds));
    assert_eq!(level.get(0, 1), Err(LevelError::OutOfBounds));
    assert!(level.get(1, 0).is_ok());
}

#[test]
fn created_level_is_grass() {
    let mut level = LevelManager::new();
    level.create_level();
    assert_eq!(level.dimensions(), (MAX_WIDTH, MAX_HEIGHT));
    assert_eq!(level.level_vec.len(), MAX_WIDTH * MAX_HEIGHT);
    assert!(level.level_vec.iter().all(|t| t.tile_type == TileType::Grass));
}

#[test]
fn keys_toggle_modes() {
    let mut g = GameState::new();
    g.do_key_down(Key::T);
    assert!(g.build_mode && !g.seed_mode);
    g.do_key_down(Key::Y);
    assert!(g.seed_mode && !g.build_mode);
    g.do_key_down(Key::Y);
    assert!(!g.seed_mode && !g.build_mode);
    g.do_key_down(Key::W);
    assert!(g.up);
    g.do_key_up(Key::W);
    assert!(!g.up);
    g.target_vec.push((1, 1));
    g.do_key_down(Key::P);
    assert!(g.target_vec.is_empty());
    assert!(g.do_event(InputEvent::KeyDown(Key::Q)));
    assert!(g.quit);
}

#[test]
fn mouse_events_update_pointer() {
    let mut g = GameState::new();
    assert!(!g.do_event(InputEvent::MouseMotion(70, 33)));
    assert!(g.over_tile(2, 1));
    assert!(!g.over_tile(1, 1));
    g.do_event(InputEvent::MouseDown(true));
    assert!(g.confirm);
    g.placed = true;
    g.do_event(InputEvent::MouseUp);
    assert!(!g.confirm && !g.placed);
    g.cam = (-100, 0);
    assert!(!g.over_tile(0, 1));
    assert!(g.do_event(InputEvent::Quit));
    assert!(g.quit);
}

#[test]
fn active_action_prefers_build_mode() {
    let mut g = GameState::new();
    assert_eq!(g.active_action(), None);
    g.seed_mode = true;
    g.current_seed = Some(SeedTool::Hoe);
    assert_eq!(g.active_action(), Some(Action::Seed(SeedTool::Hoe)));
    g.build_mode = true;
    g.current_build = Some(BuildTool::Wall);
    assert_eq!(g.active_action(), Some(Action::Build(BuildTool::Wall)));
}

#[test]
fn tower_takes_the_grass_above_as_its_top() {
    let mut level = level_from(&["ggg", "ggg", "ggg"]);
    let mut bm = BuildingManager::new();
    let mut em = EnemyManager::new();
    let mut g = pointing(1, 1, Action::Build(BuildTool::ArcherTower));
    level.update_buildings(&mut g, &mut bm, &mut em);
    let bottom = level.get(1, 1).unwrap();
    assert_eq!(bottom.tile_type, TileType::ArcherTowerBottom);
    let top = level.get(1, 0).unwrap();
    assert_eq!(top.tile_type, TileType::TowerTop);
    assert_eq!(top.tile_data, TileData::ArcherTowerTop);
    assert!(top.is_occupied);

    // The top can no longer be built on.
    let mut g = pointing(1, 0, Action::Build(BuildTool::Wall));
    level.update_buildings(&mut g, &mut bm, &mut em);
    assert_eq!(level.get(1, 0).unwrap().tile_type, TileType::TowerTop);
}

#[test]
fn tower_on_top_row_has_no_top_tile() {
    let mut level = level_from(&["ggg", "ggg"]);
    let mut bm = BuildingManager::new();
    let mut em = EnemyManager::new();
    let mut g = pointing(2, 0, Action::Build(BuildTool::FireballTower));
    level.update_buildings(&mut g, &mut bm, &mut em);
    assert_eq!(level.get(2, 0).unwrap().tile_type, TileType::FireballTowerBottom);
    assert_eq!(level.get(2, 1).unwrap().tile_type, TileType::Grass);
    let occupied = level.level_vec.iter().filter(|t| t.is_occupied).count();
    assert_eq!(occupied, 1);
}

#[test]
fn enemy_on_its_target_gets_no_path() {
    let mut level = level_from(&["ggg", "ggg"]);
    let mut em = EnemyManager::new();
    spawn_goblin(&mut level, &mut em, 1, 1);
    let mut e = em.enemy_vec.remove(0);
    EnemyManager::astar(&mut e, (1, 1), &level);
    assert!(e.final_path.is_none());
    EnemyManager::astar(&mut e, (2, 0), &level);
    assert_eq!(e.final_path, Some(vec![(2, 0)]));
}

#[test]
fn routes_repeat_no_cell() {
    let level = level_from(&["gggggg", "gwwwwg", "gggggg", "wwwwwg", "gggggg"]);
    let path = find_path(&level, (0, 4), (0, 0)).unwrap();
    let mut seen = std::collections::HashSet::new();
    for p in path.iter() {
        assert!(seen.insert(*p));
    }
    assert_eq!(path[0], (0, 4));
    assert_eq!(*path.last().unwrap(), (0, 0));
}

#[test]
fn one_route_search_per_tick() {
    let mut level = level_from(&["ggggg", "ggggg", "ggggg"]);
    let mut em = EnemyManager::new();
    let mut g = GameState::new();
    spawn_goblin(&mut level, &mut em, 0, 0);
    spawn_goblin(&mut level, &mut em, 0, 2);
    g.target_vec = vec![(4, 1)];
    g.is_pathfinding = true;
    em.update_enemies(&mut g, &mut level, 0);
    assert!(em.enemy_vec[0].final_path.is_some());
    assert!(em.enemy_vec[1].final_path.is_none());
    assert!(g.is_pathfinding);
    em.update_enemies(&mut g, &mut level, 0);
    assert!(em.enemy_vec[1].final_path.is_some());
    assert_eq!(count_goblin_tiles(&level), 2);
}

#[test]
fn base_takes_its_two_by_two_footprint() {
    let mut level = level_from(&["gwgg", "gggg", "gggg"]);
    let mut bm = BuildingManager::new();
    let mut em = EnemyManager::new();
    let mut g = pointing(1, 1, Action::Build(BuildTool::Base));
    level.update_buildings(&mut g, &mut bm, &mut em);
    assert_eq!(level.get(1, 1).unwrap().tile_type, TileType::Base);
    assert_eq!(level.get(2, 1).unwrap().tile_type, TileType::Base);
    assert_eq!(level.get(2, 0).unwrap().tile_type, TileType::Base);
    assert!(level.get(2, 0).unwrap().is_occupied);
    // A wall in the footprint stays a wall.
    assert_eq!(level.get(1, 0).unwrap().tile_type, TileType::Wall);
    assert_eq!(level.get(0, 1).unwrap().tile_type, TileType::Grass);
    assert_eq!(level.get(1, 2).unwrap().tile_type, TileType::Grass);
    assert_eq!(bm.building_vec.len(), 1);
}
