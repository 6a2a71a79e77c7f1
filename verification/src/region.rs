//! Regions: finite block grids generated deterministically from per-column
//! terrain heights.

use crate::block::BlockType;
use crate::config::Config;
use crate::coords::RegionCoord;
use vstd::arithmetic::div_mod::{
    lemma_div_denominator, lemma_fundamental_div_mod, lemma_fundamental_div_mod_converse,
    lemma_mod_division_less_than_divisor, lemma_multiply_divide_lt,
};
use vstd::prelude::*;

verus! {

/// Flat index of local cell `(x, y, z)` in a region's block vector:
/// `x` varies fastest, then `z`, then `y`.
pub open spec fn spec_cell_index(size: int, x: int, y: int, z: int) -> int {
    x + size * z + size * size * y
}

/// One region (chunk) of the world: a columnar grid of `size * size` block
/// columns, `height` cells tall, owned by region coordinate `coord`. The
/// grid is exhaustively generated: every cell holds a material, with `Air`
/// for empty cells, so a region is never partially generated.
#[derive(Debug)]
pub struct Region {
    pub coord: RegionCoord,
    pub size: u8,
    pub height: u16,
    pub blocks: Vec<BlockType>,
}

impl Region {
    /// Well-formed: positive horizontal size and a fully populated grid.
    pub open spec fn wf(self) -> bool {
        &&& 1 <= self.size
        &&& self.blocks@.len() == self.size * self.size * self.height
    }

    /// Whether a local coordinate lies inside this region's grid.
    pub open spec fn in_bounds(self, x: int, y: int, z: int) -> bool {
        &&& 0 <= x < self.size
        &&& 0 <= y < self.height
        &&& 0 <= z < self.size
    }

    /// The material stored at an in-bounds local coordinate.
    pub open spec fn block_at(self, x: int, y: int, z: int) -> BlockType {
        self.blocks@[spec_cell_index(self.size as int, x, y, z)]
    }

    /// A cell is present (culls its neighbors' faces) when it is inside
    /// the grid and holds a non-`Air` material. Cells outside the grid are
    /// absent; faces toward them are emitted, a deliberate policy at region
    /// boundaries: neighboring regions are never consulted, so a slab
    /// spanning two regions shows seam faces until viewed from outside.
    pub open spec fn present(self, x: int, y: int, z: int) -> bool {
        self.in_bounds(x, y, z) && self.block_at(x, y, z).spec_is_solid()
    }

    /// Runtime lookup of the material at an in-bounds local coordinate.
    pub fn block(&self, x: usize, y: usize, z: usize) -> (b: BlockType)
        requires
            self.wf(),
            self.in_bounds(x as int, y as int, z as int),
        ensures
            b == self.block_at(x as int, y as int, z as int),
    {
        let s = self.size as usize;
        proof {
            assert((s as int) * (z as int) <= 65025 && (s as int) * (s as int) <= 65025 && (
            s as int) * (s as int) * (y as int) <= 4261348350 && (x as int) + (s as int) * (
            z as int) + (s as int) * (s as int) * (y as int) < self.blocks@.len())
                by (nonlinear_arith)
                requires
                    1 <= s <= 255,
                    0 <= (x as int) < s,
                    0 <= (z as int) < s,
                    0 <= (y as int) < self.height as int,
                    self.height <= 65535,
                    self.blocks@.len() == (s as int) * (s as int) * (self.height as int),
            ;
        }
        self.blocks[x + s * z + s * s * y]
    }

    /// Runtime presence test, total over all of `i64`: coordinates outside
    /// the grid are absent.
    pub fn present_at(&self, x: i64, y: i64, z: i64) -> (r: bool)
        requires
            self.wf(),
        ensures
            r == self.present(x as int, y as int, z as int),
    {
        if x < 0 || y < 0 || z < 0 || x >= self.size as i64 || y >= self.height as i64
            || z >= self.size as i64 {
            false
        } else {
            self.block(x as usize, y as usize, z as usize).is_solid()
        }
    }

    /// Number of cells of material `b` in this region's grid.
    pub fn count_blocks(&self, b: BlockType) -> (n: usize)
        ensures
            n == spec_count(self.blocks@, b),
    {
        let mut n: usize = 0;
        let mut i: usize = 0;
        while i < self.blocks.len()
            invariant
                i <= self.blocks@.len(),
                n <= i,
                n == spec_count(self.blocks@.take(i as int), b),
            decreases self.blocks@.len() - i,
        {
            proof {
                assert(self.blocks@.take(i + 1).drop_last() =~= self.blocks@.take(i as int));
            }
            if self.blocks[i] == b {
                n = n + 1;
            }
            i = i + 1;
        }
        proof {
            assert(self.blocks@.take(self.blocks@.len() as int) =~= self.blocks@);
        }
        n
    }
}

/// Number of occurrences of material `b` in a cell sequence.
pub open spec fn spec_count(s: Seq<BlockType>, b: BlockType) -> nat
    decreases s.len(),
{
    if s.len() == 0 {
        0
    } else {
        spec_count(s.drop_last(), b) + if s.last() == b {
            1nat
        } else {
            0nat
        }
    }
}

/// The material generated at height `y` of a column of terrain height `h`:
/// below the terrain height, the depth band of `y` decides; at the
/// configured water level, water fills columns whose terrain stays below
/// it; everywhere else the cell is empty.
pub open spec fn spec_block_for(cfg: Config, h: int, y: int) -> BlockType {
    if y < h {
        if y < cfg.stone_band {
            BlockType::Stone
        } else if y < cfg.dirt_band {
            BlockType::Dirt
        } else {
            BlockType::Grass
        }
    } else {
        match cfg.water_level {
            Some(w) => if y == w {
                BlockType::Water
            } else {
                BlockType::Air
            },
            None => BlockType::Air,
        }
    }
}

/// Runtime counterpart of [`spec_block_for`].
pub fn block_for(cfg: &Config, h: u8, y: usize) -> (b: BlockType)
    ensures
        b == spec_block_for(*cfg, h as int, y as int),
{
    if y < h as usize {
        if y < cfg.stone_band as usize {
            BlockType::Stone
        } else if y < cfg.dirt_band as usize {
            BlockType::Dirt
        } else {
            BlockType::Grass
        }
    } else {
        match cfg.water_level {
            Some(w) => if y == w as usize {
                BlockType::Water
            } else {
                BlockType::Air
            },
            None => BlockType::Air,
        }
    }
}

/// Vertical extent a column needs: its terrain height, or one cell above
/// the water level when water is configured, whichever is larger.
pub open spec fn spec_column_extent(cfg: Config, h: int) -> int {
    match cfg.water_level {
        Some(w) => if h >= w + 1 {
            h
        } else {
            w + 1
        },
        None => h,
    }
}

/// Grid height of a region generated from `heights`: the largest column
/// extent, so that every generated block and the water surface fit.
pub open spec fn spec_grid_height(cfg: Config, heights: Seq<u8>) -> int
    decreases heights.len(),
{
    if heights.len() == 0 {
        0
    } else {
        let rest = spec_grid_height(cfg, heights.drop_last());
        let last = spec_column_extent(cfg, heights.last() as int);
        if last >= rest {
            last
        } else {
            rest
        }
    }
}

/// The full functional description of generation: `r` is the region that
/// generation of `coord` from per-column terrain `heights` under `cfg`
/// produces. Cell `(x, y, z)` depends only on the height of column
/// `(x, z)` — `heights[x + size * z]` — and on `y`.
pub open spec fn generated_from(
    r: Region,
    coord: RegionCoord,
    heights: Seq<u8>,
    cfg: Config,
) -> bool {
    &&& r.coord == coord
    &&& r.size == cfg.region_size
    &&& r.height == spec_grid_height(cfg, heights)
    &&& r.blocks@.len() == r.size * r.size * r.height
    &&& forall|x: int, y: int, z: int|
        r.in_bounds(x, y, z) ==> #[trigger] r.block_at(x, y, z) == spec_block_for(
            cfg,
            heights[x + cfg.region_size * z] as int,
            y,
        )
}

/// The value generation stores at flat cell index `j`, phrased over the
/// index decomposition; the loop in [`generate`] establishes this form.
pub open spec fn spec_cell_value(cfg: Config, heights: Seq<u8>, size: int, j: int) -> BlockType {
    spec_block_for(
        cfg,
        heights[j % size + size * ((j / size) % size)] as int,
        j / (size * size),
    )
}

pub(crate) proof fn lemma_cell_index_bounds(size: int, height: int, x: int, y: int, z: int)
    requires
        1 <= size,
        0 <= x < size,
        0 <= y < height,
        0 <= z < size,
    ensures
        0 <= spec_cell_index(size, x, y, z) < size * size * height,
        x + size * z < size * size,
{
    assert(0 <= x + size * z + size * size * y < size * size * height && x + size * z < size
        * size) by (nonlinear_arith)
        requires
            1 <= size,
            0 <= x < size,
            0 <= y < height,
            0 <= z < size,
    ;
}

pub(crate) proof fn lemma_cell_index_decompose(size: int, height: int, x: int, y: int, z: int)
    requires
        1 <= size,
        0 <= x < size,
        0 <= y < height,
        0 <= z < size,
    ensures
        spec_cell_index(size, x, y, z) % size == x,
        (spec_cell_index(size, x, y, z) / size) % size == z,
        spec_cell_index(size, x, y, z) / (size * size) == y,
{
    let j = spec_cell_index(size, x, y, z);
    assert(x + size * z + size * size * y == (z + size * y) * size + x) by (nonlinear_arith);
    lemma_fundamental_div_mod_converse(j, size, z + size * y, x);
    assert(z + size * y == y * size + z) by (nonlinear_arith);
    lemma_fundamental_div_mod_converse(j / size, size, y, z);
    lemma_cell_index_bounds(size, height, x, y, z);
    lemma_div_denominator(j, size, size);
}

pub(crate) proof fn lemma_cell_index_recompose(size: int, height: int, j: int)
    requires
        1 <= size,
        0 <= j < size * size * height,
    ensures
        0 <= j % size < size,
        0 <= (j / size) % size < size,
        0 <= j / (size * size) < height,
        j == spec_cell_index(size, j % size, j / (size * size), (j / size) % size),
{
    lemma_mod_division_less_than_divisor(j, size);
    lemma_fundamental_div_mod(j, size);
    lemma_mod_division_less_than_divisor(j / size, size);
    lemma_fundamental_div_mod(j / size, size);
    lemma_div_denominator(j, size, size);
    assert(0 < size * size) by (nonlinear_arith)
        requires
            1 <= size,
    ;
    lemma_multiply_divide_lt(j, size * size, height);
    assert(j == j % size + size * ((j / size) % size) + size * size * (j / (size * size)))
        by (nonlinear_arith)
        requires
            1 <= size,
            j == size * (j / size) + j % size,
            j / size == size * ((j / size) / size) + (j / size) % size,
            (j / size) / size == j / (size * size),
    ;
}

/// Generates the region at `coord` from the per-column terrain heights
/// `heights` (row-major, `heights[x + size * z]`) under configuration
/// `cfg`. The result is pinned exactly by [`generated_from`]: generation
/// is a pure function of its inputs.
pub fn generate(coord: RegionCoord, heights: &Vec<u8>, cfg: &Config) -> (r: Region)
    requires
        cfg.wf(),
        heights@.len() == cfg.region_size * cfg.region_size,
    ensures
        r.wf(),
        generated_from(r, coord, heights@, *cfg),
{
    let s = cfg.region_size as usize;

    // First pass: the grid height, the largest column extent.
    let mut hmax: u16 = 0;
    let mut i: usize = 0;
    while i < heights.len()
        invariant
            i <= heights@.len(),
            hmax == spec_grid_height(*cfg, heights@.take(i as int)),
            hmax <= 256,
        decreases heights@.len() - i,
    {
        proof {
            assert(heights@.take(i + 1).drop_last() =~= heights@.take(i as int));
        }
        let h = heights[i];
        let ext: u16 = match cfg.water_level {
            Some(w) => if h as u16 >= w as u16 + 1 {
                h as u16
            } else {
                w as u16 + 1
            },
            None => h as u16,
        };
        if ext > hmax {
            hmax = ext;
        }
        i = i + 1;
    }
    proof {
        assert(heights@.take(heights@.len() as int) =~= heights@);
    }

    // Second pass: fill the grid cell by cell, `x` fastest.
    proof {
        assert(1 <= (s as int) * (s as int) <= 65025 && (s as int) * (s as int) * (
        hmax as int) <= 16646400) by (nonlinear_arith)
            requires
                1 <= s <= 255,
                hmax <= 256,
        ;
    }
    let total = s * s * hmax as usize;
    let mut blocks: Vec<BlockType> = Vec::new();
    let mut j: usize = 0;
    while j < total
        invariant
            cfg.wf(),
            s == cfg.region_size,
            heights@.len() == s * s,
            total == s * s * hmax,
            j <= total,
            blocks@.len() == j,
            forall|k: int|
                0 <= k < j ==> blocks@[k] == spec_cell_value(*cfg, heights@, s as int, k),
        decreases total - j,
    {
        proof {
            assert(1 <= (s as int) * (s as int) <= 65025) by (nonlinear_arith)
                requires
                    1 <= s <= 255,
            ;
        }
        let x = j % s;
        let z = (j / s) % s;
        let y = j / (s * s);
        proof {
            lemma_mod_division_less_than_divisor(j as int, s as int);
            lemma_mod_division_less_than_divisor(j as int / s as int, s as int);
            assert((x as int) + (s as int) * (z as int) < (s as int) * (s as int)) by (nonlinear_arith)
                requires
                    1 <= s,
                    0 <= x < s,
                    0 <= z < s,
            ;
        }
        let b = block_for(cfg, heights[x + s * z], y);
        blocks.push(b);
        j = j + 1;
    }

    let r = Region { coord, size: cfg.region_size, height: hmax, blocks };
    proof {
        assert forall|x: int, y: int, z: int| r.in_bounds(x, y, z) implies #[trigger] r.block_at(
            x,
            y,
            z,
        ) == spec_block_for(*cfg, heights@[x + cfg.region_size * z] as int, y) by {
            lemma_cell_index_bounds(s as int, hmax as int, x, y, z);
            lemma_cell_index_decompose(s as int, hmax as int, x, y, z);
        }
    }
    r
}

/// Determinism: generation is a pure function of the coordinate, the
/// heights, and the configuration. Two regions generated from the same
/// inputs hold bitwise-identical block grids.
pub proof fn lemma_generate_deterministic(
    r1: Region,
    r2: Region,
    coord: RegionCoord,
    heights: Seq<u8>,
    cfg: Config,
)
    requires
        cfg.wf(),
        generated_from(r1, coord, heights, cfg),
        generated_from(r2, coord, heights, cfg),
    ensures
        r1.coord == r2.coord,
        r1.size == r2.size,
        r1.height == r2.height,
        r1.blocks@ == r2.blocks@,
{
    let size = cfg.region_size as int;
    let height = spec_grid_height(cfg, heights);
    assert forall|j: int| 0 <= j < r1.blocks@.len() implies r1.blocks@[j] == r2.blocks@[j] by {
        lemma_cell_index_recompose(size, height, j);
        let x = j % size;
        let z = (j / size) % size;
        let y = j / (size * size);
        assert(r1.block_at(x, y, z) == spec_block_for(cfg, heights[x + size * z] as int, y));
        assert(r2.block_at(x, y, z) == spec_block_for(cfg, heights[x + size * z] as int, y));
    }
    assert(r1.blocks@ =~= r2.blocks@);
}

} // verus!
