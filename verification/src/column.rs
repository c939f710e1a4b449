//! What the terrain model says of one column of the world, and the rules
//! that turn it into a block for each level of that column.
//!
//! Heights are real quantities. The rules only ever compare them with whole
//! levels, so a quantity is carried as the pair of integers around it.

use vstd::prelude::*;
use crate::block::BlockType;

verus! {

/// A real quantity known by the integers around it: `floor` is the largest
/// integer not above the quantity, `ceil` the smallest not below it.
#[derive(Clone, Copy, Debug, PartialEq, Eq, Structural)]
pub struct Bracket {
    pub floor: i64,
    pub ceil: i64,
}

impl Bracket {
    /// The quantity is strictly greater than the whole number `level`.
    pub open spec fn above(self, level: int) -> bool {
        self.ceil > level
    }

    /// The quantity is strictly less than the whole number `level`.
    pub open spec fn below(self, level: int) -> bool {
        self.floor < level
    }

    /// The whole number `level` is the greatest one not above the quantity.
    pub open spec fn floor_is(self, level: int) -> bool {
        self.floor == level
    }
}

/// The terrain model's answer for one column `(x, z)` of the world.
#[derive(Clone, Copy, Debug, PartialEq, Eq, Structural)]
pub struct ColumnProfile {
    /// The surface height of the column.
    pub height: Bracket,
    /// The surface height minus the sea level.
    pub relief: Bracket,
    /// The sea level.
    pub sea_level: Bracket,
    /// The biome value of the column is above the desert threshold.
    pub arid: bool,
    /// The threshold on the 0 to 99 placement hash below which a tree stands.
    pub tree_density: i32,
}

/// What the rules write at one voxel.
#[derive(Clone, Copy, Debug, PartialEq, Eq, Structural)]
pub enum Placement {
    /// The voxel is filled with this block.
    Fill(BlockType),
    /// A tree is rooted at the voxel.
    Tree,
}

/// The 0 to 99 hash of a column that gates tree placement.
pub open spec fn tree_hash(world_x: int, world_z: int) -> int {
    let v = world_x * 73 + world_z * 179;
    (if v < 0 { -v } else { v }) % 100
}

impl ColumnProfile {
    /// The surface lies strictly between two below and three above sea level.
    pub open spec fn is_beach(self) -> bool {
        self.relief.above(-2) && self.relief.below(3)
    }

    /// The column is arid and its surface lies above sea level.
    pub open spec fn is_desert(self) -> bool {
        self.arid && self.relief.above(0)
    }

    /// The surface lies above level 15.
    pub open spec fn is_mountain(self) -> bool {
        self.height.above(15)
    }

    /// The block of a voxel less than two levels under the surface.
    pub open spec fn soil(self, world_y: int) -> BlockType {
        if self.is_beach() || self.relief.below(1) {
            BlockType::Sand
        } else if self.is_desert() {
            BlockType::Sand
        } else if self.is_mountain() && world_y > 20 {
            BlockType::Stone
        } else {
            BlockType::Dirt
        }
    }

    /// The block of the voxel that holds the surface itself.
    pub open spec fn cap(self, world_y: int) -> BlockType {
        if self.sea_level.above(world_y) && self.relief.below(0) {
            BlockType::Water
        } else if self.is_beach() || self.is_desert() {
            BlockType::Sand
        } else if self.is_mountain() && world_y > 25 {
            BlockType::Stone
        } else {
            BlockType::Grass
        }
    }

    /// A tree may be rooted at level `world_y`: it is the first whole level
    /// above the surface, and the column is no beach, desert or mountain.
    pub open spec fn tree_level(self, world_y: int) -> bool {
        self.height.floor_is(world_y - 1) && !self.is_beach() && !self.is_desert()
            && !self.is_mountain()
    }

    /// The rules, in order of priority, for the voxel at `(world_x, world_y,
    /// world_z)` of this column. `cavern` says that the cave density there is
    /// above the cave threshold.
    pub open spec fn classify(self, world_x: int, world_y: int, world_z: int, cavern: bool)
        -> Placement {
        if cavern && self.height.above(world_y + 5) {
            Placement::Fill(BlockType::Air)
        } else if self.height.above(world_y + 2) {
            Placement::Fill(BlockType::Stone)
        } else if self.height.above(world_y) {
            Placement::Fill(self.soil(world_y))
        } else if self.height.above(world_y - 1) {
            Placement::Fill(self.cap(world_y))
        } else if self.sea_level.above(world_y) {
            Placement::Fill(BlockType::Water)
        } else if self.tree_level(world_y) && tree_hash(world_x, world_z) < self.tree_density {
            Placement::Tree
        } else {
            Placement::Fill(BlockType::Air)
        }
    }

    /// Decides what stands at the voxel `(world_x, world_y, world_z)` of this
    /// column.
    pub fn place(&self, world_x: i64, world_y: i64, world_z: i64, cavern: bool) -> (placement:
        Placement)
        ensures
            placement == self.classify(world_x as int, world_y as int, world_z as int, cavern),
    {
        let level: i128 = world_y as i128;
        let height: i128 = self.height.ceil as i128;
        let relief_floor: i128 = self.relief.floor as i128;
        let relief_ceil: i128 = self.relief.ceil as i128;
        let beach: bool = relief_ceil > -2 && relief_floor < 3;
        let desert: bool = self.arid && relief_ceil > 0;
        let mountain: bool = height > 15;
        let under_sea: bool = self.sea_level.ceil as i128 > level;
        if cavern && height > level + 5 {
            Placement::Fill(BlockType::Air)
        } else if height > level + 2 {
            Placement::Fill(BlockType::Stone)
        } else if height > level {
            if beach || relief_floor < 1 || desert {
                Placement::Fill(BlockType::Sand)
            } else if mountain && level > 20 {
                Placement::Fill(BlockType::Stone)
            } else {
                Placement::Fill(BlockType::Dirt)
            }
        } else if height > level - 1 {
            if under_sea && relief_floor < 0 {
                Placement::Fill(BlockType::Water)
            } else if beach || desert {
                Placement::Fill(BlockType::Sand)
            } else if mountain && level > 25 {
                Placement::Fill(BlockType::Stone)
            } else {
                Placement::Fill(BlockType::Grass)
            }
        } else if under_sea {
            Placement::Fill(BlockType::Water)
        } else if self.height.floor as i128 == level - 1 && !beach && !desert && !mountain
            && column_hash(world_x, world_z) < self.tree_density {
            Placement::Tree
        } else {
            Placement::Fill(BlockType::Air)
        }
    }
}

/// The 0 to 99 placement hash of the column `(world_x, world_z)`.
pub fn column_hash(world_x: i64, world_z: i64) -> (hash: i32)
    ensures
        hash == tree_hash(world_x as int, world_z as int),
        0 <= hash < 100,
{
    let v: i128 = (world_x as i128) * 73 + (world_z as i128) * 179;
    let magnitude: i128 = if v < 0 {
        -v
    } else {
        v
    };
    (magnitude % 100) as i32
}

} // verus!
