use vstd::prelude::*;

verus! {

/// Number of simulation ticks a crop spends in each growth stage.
pub const CROP_TIME: u64 = 1000;

/// Width (columns) of a freshly created level.
pub const MAX_WIDTH: usize = 300;

/// Height (rows) of a freshly created level.
pub const MAX_HEIGHT: usize = 30;

/// What a tile is, as far as walking, building and farming are concerned.
#[derive(Clone, Copy, Debug, PartialEq, Eq, Structural)]
pub enum TileType {
    Grass,
    Wall,
    Floor,
    FieldEmpty,
    FieldGrowing,
    FieldHarvestable,
    ArcherTowerBottom,
    FireballTowerBottom,
    TowerTop,
    Base,
    Goblin,
}

/// What a tile carries on top of its type: a crop, or the occupant drawn on it.
#[derive(Clone, Copy, Debug, PartialEq, Eq, Structural)]
pub enum TileData {
    Carrots,
    Tomatoes,
    ArcherTowerBottom,
    ArcherTowerTop,
    FireballTowerBottom,
    FireballTowerTop,
    Goblin,
    Base,
    Empty,
}

/// The image a renderer draws for a tile's ground.
#[derive(Clone, Copy, Debug, PartialEq, Eq, Structural)]
pub enum TextureKey {
    Default,
    TileGrass,
    TileWall,
    TileFloor,
    FieldEmpty,
    FieldSeeds,
    FieldGrowing,
    FieldCarrot,
    FieldTomato,
}

/// One cell of the level grid.
#[derive(Clone, Copy, Debug, PartialEq, Eq, Structural)]
pub struct LevelTile {
    pub tile_type: TileType,
    /// The type the tile goes back to when a transient occupant leaves or it is shovelled.
    pub original_type: TileType,
    pub texture: TextureKey,
    /// Ticks spent in the current growth stage.
    pub growth_timer: u64,
    pub tile_data: TileData,
    pub is_occupied: bool,
}

pub open spec fn is_field(t: TileType) -> bool {
    t == TileType::FieldEmpty || t == TileType::FieldGrowing || t == TileType::FieldHarvestable
}

pub open spec fn is_crop(d: TileData) -> bool {
    d == TileData::Carrots || d == TileData::Tomatoes
}

/// The types a level description can give a tile.
pub open spec fn is_ground(t: TileType) -> bool {
    t == TileType::Grass || t == TileType::Wall || t == TileType::Floor || t == TileType::FieldEmpty
}

/// The types that mark a tile as held by a tower, a base or an enemy.
pub open spec fn is_occupant(t: TileType) -> bool {
    t == TileType::ArcherTowerBottom || t == TileType::FireballTowerBottom || t == TileType::TowerTop
        || t == TileType::Base || t == TileType::Goblin
}

/// A crop grows only on a field; a tile is occupied exactly when its type names an
/// occupant; a tile goes back to a ground type.
pub open spec fn tile_wf(t: LevelTile) -> bool {
    &&& is_crop(t.tile_data) ==> is_field(t.tile_type)
    &&& t.is_occupied <==> is_occupant(t.tile_type)
    &&& is_ground(t.original_type)
}


/// The tile that a level character stands for, if any.
pub open spec fn tile_of_char(c: char) -> Option<LevelTile> {
    if c == 'g' {
        Some(plain_tile(TileType::Grass, TextureKey::TileGrass))
    } else if c == 'w' {
        Some(plain_tile(TileType::Wall, TextureKey::TileWall))
    } else if c == 'f' {
        Some(plain_tile(TileType::Floor, TextureKey::TileFloor))
    } else if c == 'e' {
        Some(plain_tile(TileType::FieldEmpty, TextureKey::FieldEmpty))
    } else {
        None
    }
}

pub open spec fn plain_tile(t: TileType, tex: TextureKey) -> LevelTile {
    LevelTile {
        tile_type: t,
        original_type: t,
        texture: tex,
        growth_timer: 0,
        tile_data: TileData::Empty,
        is_occupied: false,
    }
}

impl LevelTile {
    /// A fresh, unoccupied tile of the given type.
    pub fn plain(t: TileType, tex: TextureKey) -> (r: LevelTile)
        requires
            is_ground(t),
        ensures
            r == plain_tile(t, tex),
            tile_wf(r),
    {
        LevelTile {
            tile_type: t,
            original_type: t,
            texture: tex,
            growth_timer: 0,
            tile_data: TileData::Empty,
            is_occupied: false,
        }
    }

    /// Decodes one character of a level description: `g` grass, `w` wall, `f` floor,
    /// `e` empty field. Any other character stands for no tile.
    pub fn from_char(c: char) -> (r: Option<LevelTile>)
        ensures
            r == tile_of_char(c),
            r is Some ==> tile_wf(r->0),
    {
        if c == 'g' {
            Some(LevelTile::plain(TileType::Grass, TextureKey::TileGrass))
        } else if c == 'w' {
            Some(LevelTile::plain(TileType::Wall, TextureKey::TileWall))
        } else if c == 'f' {
            Some(LevelTile::plain(TileType::Floor, TextureKey::TileFloor))
        } else if c == 'e' {
            Some(LevelTile::plain(TileType::FieldEmpty, TextureKey::FieldEmpty))
        } else {
            None
        }
    }

    pub fn is_crop_data(&self) -> (r: bool)
        ensures
            r == is_crop(self.tile_data),
    {
        self.tile_data == TileData::Carrots || self.tile_data == TileData::Tomatoes
    }

    pub fn is_field_type(&self) -> (r: bool)
        ensures
            r == is_field(self.tile_type),
    {
        self.tile_type == TileType::FieldEmpty || self.tile_type == TileType::FieldGrowing
            || self.tile_type == TileType::FieldHarvestable
    }
}

} // verus!
