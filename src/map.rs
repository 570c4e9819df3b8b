//! Terrain and the tiles of the world map.
use crate::hex::Grid;
use vstd::prelude::*;

verus! {

/// Kind of terrain of a tile.
#[derive(Clone, Copy, Debug, PartialEq, Eq, Structural)]
pub enum TileType {
    Floor,
    GlassWall,
    Wall,
    Sand,
}

/// Light that a wall absorbs: more than any budget, so nothing is seen past it.
pub const WALL_OPAQUENESS: u32 = 1000000;

/// Light that glass absorbs.
pub const GLASS_OPAQUENESS: u32 = 3;

/// Light that open ground absorbs.
pub const OPEN_OPAQUENESS: u32 = 1;

/// Extra light absorbed by a creature standing on a tile.
pub const OCCUPANT_OPAQUENESS: u32 = 4;

/// Extra delay of moving on sand.
pub const SAND_MOVE_DELAY: u32 = 6;

impl TileType {
    pub open spec fn spec_move_delay(self) -> nat {
        match self {
            TileType::Sand => SAND_MOVE_DELAY as nat,
            _ => 0,
        }
    }

    /// Extra delay that this terrain adds to moving, running and turning.
    pub fn move_delay(&self) -> (r: u32)
        ensures
            r == self.spec_move_delay(),
    {
        match self {
            TileType::Sand => SAND_MOVE_DELAY,
            _ => 0,
        }
    }

    pub open spec fn spec_is_passable_type(self) -> bool {
        self == TileType::Floor || self == TileType::Sand
    }
}

/// One cell of the world: its terrain and the creature standing on it, by
/// identifier.
#[derive(Clone, Copy, Debug, PartialEq, Eq, Structural)]
pub struct Tile {
    pub tiletype: TileType,
    pub creature: Option<usize>,
}

/// The world map.
pub type WorldMap = Grid<Tile>;

impl Tile {
    pub open spec fn spec_opaqueness(self) -> nat {
        let base = match self.tiletype {
            TileType::Wall => WALL_OPAQUENESS,
            TileType::GlassWall => GLASS_OPAQUENESS,
            _ => OPEN_OPAQUENESS,
        };
        (base + if self.creature.is_some() {
            OCCUPANT_OPAQUENESS
        } else {
            0
        }) as nat
    }

    pub open spec fn spec_is_passable(self) -> bool {
        self.tiletype.spec_is_passable_type() && self.creature.is_none()
    }

    /// How much light this tile absorbs.
    pub fn opaqueness(&self) -> (r: u32)
        ensures
            r == self.spec_opaqueness(),
            1 <= r,
    {
        let o = match self.tiletype {
            TileType::Wall => WALL_OPAQUENESS,
            TileType::GlassWall => GLASS_OPAQUENESS,
            _ => OPEN_OPAQUENESS,
        };
        o + if self.creature.is_some() {
            OCCUPANT_OPAQUENESS
        } else {
            0
        }
    }

    /// Whether the terrain lets a creature stand here.
    pub fn is_passable_type(&self) -> (r: bool)
        ensures
            r == self.tiletype.spec_is_passable_type(),
    {
        match self.tiletype {
            TileType::Wall | TileType::GlassWall => false,
            _ => true,
        }
    }

    /// Whether a creature may step onto this tile now.
    pub fn is_passable(&self) -> (r: bool)
        ensures
            r == self.spec_is_passable(),
    {
        self.is_passable_type() && self.creature.is_none()
    }
}

} // verus!
