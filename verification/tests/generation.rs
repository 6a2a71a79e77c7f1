use voxelstream::block::BlockType;
use voxelstream::config::{Config, ConfigError};
use voxelstream::coords::RegionCoord;
use voxelstream::region::{block_for, generate};

fn slab_config() -> Config {
    // Region size 4, depth bands stone below 1 and dirt below 3, no water.
    Config::new(4, 1, 2, 7, 1, 3, None).unwrap()
}

#[test]
fn config_accepts_valid() {
    let cfg = Config::new(32, 3, 5, 14, 4, 7, Some(7)).unwrap();
    assert_eq!(cfg.region_size, 32);
    assert_eq!(cfg.active_radius, 3);
    assert_eq!(cfg.cache_radius, 5);
    assert_eq!(cfg.seed, 14);
    assert_eq!(cfg.stone_band, 4);
    assert_eq!(cfg.dirt_band, 7);
    assert_eq!(cfg.water_level, Some(7));
}

#[test]
fn config_rejects_zero_region_size() {
    assert_eq!(Config::new(0, 3, 5, 14, 4, 7, None), Err(ConfigError::RegionSizeZero));
}

#[test]
fn config_rejects_zero_active_radius() {
    assert_eq!(Config::new(32, 0, 5, 14, 4, 7, None), Err(ConfigError::ActiveRadiusZero));
}

#[test]
fn config_rejects_small_cache_radius() {
    assert_eq!(Config::new(32, 3, 3, 14, 4, 7, None), Err(ConfigError::CacheRadiusNotLarger));
    assert_eq!(Config::new(32, 3, 2, 14, 4, 7, None), Err(ConfigError::CacheRadiusNotLarger));
}

#[test]
fn block_bands_exact() {
    let cfg = Config::new(32, 3, 5, 14, 4, 7, None).unwrap();
    // Terrain of height 10: stone below 4, dirt below 7, grass above.
    assert_eq!(block_for(&cfg, 10, 0), BlockType::Stone);
    assert_eq!(block_for(&cfg, 10, 3), BlockType::Stone);
    assert_eq!(block_for(&cfg, 10, 4), BlockType::Dirt);
    assert_eq!(block_for(&cfg, 10, 6), BlockType::Dirt);
    assert_eq!(block_for(&cfg, 10, 7), BlockType::Grass);
    assert_eq!(block_for(&cfg, 10, 9), BlockType::Grass);
    assert_eq!(block_for(&cfg, 10, 10), BlockType::Air);
}

#[test]
fn water_block_placement() {
    let cfg = Config::new(32, 3, 5, 14, 4, 7, Some(7)).unwrap();
    // A column of height 2 gets water exactly at the water level.
    assert_eq!(block_for(&cfg, 2, 2), BlockType::Air);
    assert_eq!(block_for(&cfg, 2, 7), BlockType::Water);
    assert_eq!(block_for(&cfg, 2, 8), BlockType::Air);
    // Terrain above the water level stays terrain.
    assert_eq!(block_for(&cfg, 9, 7), BlockType::Grass);
}

#[test]
fn flat_slab_counts() {
    // A 4 x 4 region with constant terrain height 5 and no water holds
    // exactly 80 blocks: 16 stone at the bottom layer, 32 dirt in the two
    // layers above, 32 grass in the top two layers.
    let cfg = slab_config();
    let heights = vec![5u8; 16];
    let r = generate(RegionCoord { x: 0, z: 0 }, &heights, &cfg);
    assert_eq!(r.height, 5);
    assert_eq!(r.blocks.len(), 80);
    assert_eq!(r.count_blocks(BlockType::Stone), 16);
    assert_eq!(r.count_blocks(BlockType::Dirt), 32);
    assert_eq!(r.count_blocks(BlockType::Grass), 32);
    assert_eq!(r.count_blocks(BlockType::Air), 0);
    assert_eq!(r.count_blocks(BlockType::Water), 0);
}

#[test]
fn generation_deterministic() {
    let cfg = Config::new(8, 1, 2, 3, 2, 4, Some(3)).unwrap();
    let heights: Vec<u8> = (0..64u32).map(|i| ((i * 7) % 11) as u8).collect();
    let coord = RegionCoord { x: -3, z: 9 };
    let r1 = generate(coord, &heights, &cfg);
    let r2 = generate(coord, &heights, &cfg);
    assert_eq!(r1.coord, r2.coord);
    assert_eq!(r1.size, r2.size);
    assert_eq!(r1.height, r2.height);
    assert_eq!(r1.blocks, r2.blocks);
}

#[test]
fn empty_heights_empty_grid() {
    let cfg = slab_config();
    let heights = vec![0u8; 16];
    let r = generate(RegionCoord { x: 2, z: -2 }, &heights, &cfg);
    assert_eq!(r.height, 0);
    assert_eq!(r.blocks.len(), 0);
}

#[test]
fn water_fills_low_columns() {
    // Water level 2 over a 2 x 2 region: one tall column, three at zero.
    let cfg = Config::new(2, 1, 2, 0, 1, 2, Some(2)).unwrap();
    let heights = vec![4u8, 0, 0, 0];
    let r = generate(RegionCoord { x: 0, z: 0 }, &heights, &cfg);
    // Grid height is the tall column's terrain height.
    assert_eq!(r.height, 4);
    // The tall column: stone, dirt, grass, grass; no water inside terrain.
    assert_eq!(r.block(0, 0, 0), BlockType::Stone);
    assert_eq!(r.block(0, 1, 0), BlockType::Dirt);
    assert_eq!(r.block(0, 2, 0), BlockType::Grass);
    assert_eq!(r.block(0, 3, 0), BlockType::Grass);
    // Each empty column holds water exactly at the water level.
    assert_eq!(r.block(1, 1, 0), BlockType::Air);
    assert_eq!(r.block(1, 2, 0), BlockType::Water);
    assert_eq!(r.block(1, 3, 0), BlockType::Air);
    assert_eq!(r.count_blocks(BlockType::Water), 3);
}

#[test]
fn largest_region_size() {
    let cfg = Config::new(255, 1, 2, 0, 1, 2, None).unwrap();
    let heights = vec![1u8; 255 * 255];
    let r = generate(RegionCoord { x: 0, z: 0 }, &heights, &cfg);
    assert_eq!(r.height, 1);
    assert_eq!(r.blocks.len(), 255 * 255);
    assert_eq!(r.count_blocks(BlockType::Stone), 255 * 255);
}
