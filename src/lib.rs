//! Simulation core of a grid-based tower-defense and farming game: the tile grid and its
//! invariants, the placement and crop lifecycle of tiles, A* route search over the grid,
//! and enemy movement that keeps enemies and their tiles in step.

pub mod tile;
pub mod level_manager;
pub mod pathfinding;
pub mod game_state;
pub mod enemy_manager;
pub mod building_manager;
pub mod laws;
