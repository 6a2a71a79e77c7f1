//! Block materials, face directions, and the texture-atlas lookup table.

use vstd::prelude::*;

verus! {

/// The closed set of block materials. `Air` is the absence of matter: it is
/// never stored as a generated block's material and is never meshed.
#[derive(Clone, Copy, PartialEq, Eq, Hash, Debug, Structural)]
pub enum BlockType {
    Air,
    Grass,
    Dirt,
    Stone,
    Water,
}

impl BlockType {
    /// A block occupies its cell exactly when it is not `Air`. Water blocks
    /// are stored in the grid and therefore cull their neighbors' faces,
    /// just as earth blocks do.
    pub open spec fn spec_is_solid(self) -> bool {
        self !== BlockType::Air
    }

    /// Runtime counterpart of [`Self::spec_is_solid`].
    pub fn is_solid(&self) -> (r: bool)
        ensures
            r == self.spec_is_solid(),
    {
        !matches!(self, BlockType::Air)
    }
}

/// The six axis-aligned face directions of a unit block.
#[derive(Clone, Copy, PartialEq, Eq, Hash, Debug, Structural)]
pub enum FaceDir {
    XNeg,
    XPos,
    YNeg,
    YPos,
    ZNeg,
    ZPos,
}

impl FaceDir {
    /// Unit offset to the neighboring cell on this side.
    pub open spec fn spec_offset(self) -> (int, int, int) {
        match self {
            FaceDir::XNeg => (-1, 0, 0),
            FaceDir::XPos => (1, 0, 0),
            FaceDir::YNeg => (0, -1, 0),
            FaceDir::YPos => (0, 1, 0),
            FaceDir::ZNeg => (0, 0, -1),
            FaceDir::ZPos => (0, 0, 1),
        }
    }
}

/// Column and row of the texture-atlas cell for a material's face, on a
/// 16 x 16 atlas. Grass and stone have distinct side, top, and bottom
/// tiles; dirt and water use one tile per vertical side. `Air` is never
/// meshed; it is mapped to the atlas's placeholder tile.
pub open spec fn spec_atlas_tile(b: BlockType, d: FaceDir) -> (u8, u8) {
    match b {
        BlockType::Grass => match d {
            FaceDir::ZPos => (1, 10),
            FaceDir::ZNeg => (4, 8),
            FaceDir::XNeg => (3, 5),
            FaceDir::XPos => (2, 9),
            FaceDir::YPos => (16, 1),
            FaceDir::YNeg => (15, 5),
        },
        BlockType::Dirt => match d {
            FaceDir::YPos => (15, 5),
            FaceDir::YNeg => (15, 5),
            _ => (3, 5),
        },
        BlockType::Stone => match d {
            FaceDir::YPos => (13, 1),
            FaceDir::YNeg => (12, 3),
            _ => (14, 3),
        },
        BlockType::Water => (0, 0),
        BlockType::Air => (4, 15),
    }
}

/// Runtime counterpart of [`spec_atlas_tile`].
pub fn atlas_tile(b: BlockType, d: FaceDir) -> (t: (u8, u8))
    ensures
        t == spec_atlas_tile(b, d),
{
    match b {
        BlockType::Grass => match d {
            FaceDir::ZPos => (1, 10),
            FaceDir::ZNeg => (4, 8),
            FaceDir::XNeg => (3, 5),
            FaceDir::XPos => (2, 9),
            FaceDir::YPos => (16, 1),
            FaceDir::YNeg => (15, 5),
        },
        BlockType::Dirt => match d {
            FaceDir::YPos => (15, 5),
            FaceDir::YNeg => (15, 5),
            _ => (3, 5),
        },
        BlockType::Stone => match d {
            FaceDir::YPos => (13, 1),
            FaceDir::YNeg => (12, 3),
            _ => (14, 3),
        },
        BlockType::Water => (0, 0),
        BlockType::Air => (4, 15),
    }
}

} // verus!
