//! Block kinds, their numeric codes and their colours.

use vstd::prelude::*;

verus! {

/// The kind of material that fills one voxel.
#[derive(Clone, Copy, Debug, PartialEq, Eq, Structural)]
pub enum BlockType {
    Air,
    Stone,
    Grass,
    Dirt,
    Water,
    Sand,
    Wood,
    Leaves,
}

/// The block kind that a stored code stands for. Codes above 7 read as air.
pub open spec fn block_of_code(code: u32) -> BlockType {
    if code == 1 {
        BlockType::Stone
    } else if code == 2 {
        BlockType::Grass
    } else if code == 3 {
        BlockType::Dirt
    } else if code == 4 {
        BlockType::Water
    } else if code == 5 {
        BlockType::Sand
    } else if code == 6 {
        BlockType::Wood
    } else if code == 7 {
        BlockType::Leaves
    } else {
        BlockType::Air
    }
}

/// The code under which a block kind is stored.
pub open spec fn code_of_block(block: BlockType) -> u32 {
    match block {
        BlockType::Air => 0,
        BlockType::Stone => 1,
        BlockType::Grass => 2,
        BlockType::Dirt => 3,
        BlockType::Water => 4,
        BlockType::Sand => 5,
        BlockType::Wood => 6,
        BlockType::Leaves => 7,
    }
}

/// Red, green and blue of a block kind, each in thousandths of full intensity.
pub open spec fn color_of_block(block: BlockType) -> Seq<u16> {
    match block {
        BlockType::Air => seq![0u16, 0u16, 0u16],
        BlockType::Stone => seq![500u16, 500u16, 500u16],
        BlockType::Grass => seq![0u16, 1000u16, 0u16],
        BlockType::Dirt => seq![545u16, 271u16, 75u16],
        BlockType::Water => seq![0u16, 500u16, 1000u16],
        BlockType::Sand => seq![957u16, 894u16, 757u16],
        BlockType::Wood => seq![396u16, 263u16, 129u16],
        BlockType::Leaves => seq![133u16, 545u16, 133u16],
    }
}

impl BlockType {
    /// Decodes a stored code; an unknown code is air.
    pub fn from_u32(value: u32) -> (block: BlockType)
        ensures
            block == block_of_code(value),
    {
        match value {
            1 => BlockType::Stone,
            2 => BlockType::Grass,
            3 => BlockType::Dirt,
            4 => BlockType::Water,
            5 => BlockType::Sand,
            6 => BlockType::Wood,
            7 => BlockType::Leaves,
            _ => BlockType::Air,
        }
    }

    /// The code under which this kind is stored in a chunk.
    pub fn code(&self) -> (code: u32)
        ensures
            code == code_of_block(*self),
    {
        match self {
            BlockType::Air => 0,
            BlockType::Stone => 1,
            BlockType::Grass => 2,
            BlockType::Dirt => 3,
            BlockType::Water => 4,
            BlockType::Sand => 5,
            BlockType::Wood => 6,
            BlockType::Leaves => 7,
        }
    }

    /// The flat colour of this kind, in thousandths per channel.
    pub fn get_color(&self) -> (color: [u16; 3])
        ensures
            color@ == color_of_block(*self),
    {
        match self {
            BlockType::Air => [0, 0, 0],
            BlockType::Stone => [500, 500, 500],
            BlockType::Grass => [0, 1000, 0],
            BlockType::Dirt => [545, 271, 75],
            BlockType::Water => [0, 500, 1000],
            BlockType::Sand => [957, 894, 757],
            BlockType::Wood => [396, 263, 129],
            BlockType::Leaves => [133, 545, 133],
        }
    }
}

/// Decoding undoes encoding: every kind is read back from its own code.
pub proof fn lemma_code_round_trip(block: BlockType)
    ensures
        block_of_code(code_of_block(block)) == block,
        code_of_block(block) < 8,
{
}

} // verus!
