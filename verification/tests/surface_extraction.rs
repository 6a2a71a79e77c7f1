use voxelstream::block::{atlas_tile, BlockType, FaceDir};
use voxelstream::config::Config;
use voxelstream::coords::RegionCoord;
use voxelstream::region::generate;
use voxelstream::surface::{assemble_batch, extract_faces, extract_surface, faces_of_material};

#[test]
fn atlas_tiles_exact() {
    assert_eq!(atlas_tile(BlockType::Grass, FaceDir::YPos), (16, 1));
    assert_eq!(atlas_tile(BlockType::Grass, FaceDir::YNeg), (15, 5));
    assert_eq!(atlas_tile(BlockType::Grass, FaceDir::ZPos), (1, 10));
    assert_eq!(atlas_tile(BlockType::Grass, FaceDir::ZNeg), (4, 8));
    assert_eq!(atlas_tile(BlockType::Grass, FaceDir::XNeg), (3, 5));
    assert_eq!(atlas_tile(BlockType::Grass, FaceDir::XPos), (2, 9));
    assert_eq!(atlas_tile(BlockType::Dirt, FaceDir::XPos), (3, 5));
    assert_eq!(atlas_tile(BlockType::Dirt, FaceDir::YPos), (15, 5));
    assert_eq!(atlas_tile(BlockType::Stone, FaceDir::ZNeg), (14, 3));
    assert_eq!(atlas_tile(BlockType::Stone, FaceDir::YPos), (13, 1));
    assert_eq!(atlas_tile(BlockType::Stone, FaceDir::YNeg), (12, 3));
    assert_eq!(atlas_tile(BlockType::Water, FaceDir::XNeg), (0, 0));
}

#[test]
fn flat_slab_faces() {
    // The 4 x 4 x 5 slab has 16 top, 16 bottom, and 4 * 5 * 4 = 80 side
    // faces: 112 quads, 448 vertices, 672 indices, and nothing interior.
    let cfg = Config::new(4, 1, 2, 7, 1, 3, None).unwrap();
    let heights = vec![5u8; 16];
    let r = generate(RegionCoord { x: 0, z: 0 }, &heights, &cfg);
    let faces = extract_faces(&r);
    assert_eq!(faces.len(), 112);
    assert_eq!(faces.iter().filter(|f| f.dir == FaceDir::YPos).count(), 16);
    assert_eq!(faces.iter().filter(|f| f.dir == FaceDir::YNeg).count(), 16);
    let batch = extract_surface(&r);
    assert_eq!(batch.vertices.len(), 448);
    assert_eq!(batch.indices.len(), 672);
}

#[test]
fn lone_block_six_faces() {
    // A region holding exactly one block emits exactly its six faces.
    let cfg = Config::new(3, 1, 2, 0, 0, 0, None).unwrap();
    let heights = vec![0u8, 0, 0, 0, 1, 0, 0, 0, 0];
    let r = generate(RegionCoord { x: 0, z: 0 }, &heights, &cfg);
    assert_eq!(r.count_blocks(BlockType::Grass), 1);
    let faces = extract_faces(&r);
    assert_eq!(faces.len(), 6);
    assert!(faces.iter().all(|f| f.x == 1 && f.y == 0 && f.z == 1));
    let batch = assemble_batch(&faces);
    assert_eq!(batch.vertices.len(), 24);
    assert_eq!(batch.indices.len(), 36);
}

#[test]
fn buried_block_no_faces() {
    // In a solid 3 x 3 x 3 cube, the center block emits no face at all.
    let cfg = Config::new(3, 1, 2, 0, 0, 0, None).unwrap();
    let heights = vec![3u8; 9];
    let r = generate(RegionCoord { x: 0, z: 0 }, &heights, &cfg);
    let faces = extract_faces(&r);
    assert!(faces.iter().all(|f| !(f.x == 1 && f.y == 1 && f.z == 1)));
    // The cube's shell: 9 top, 9 bottom, 4 * 9 sides.
    assert_eq!(faces.len(), 54);
}

#[test]
fn empty_region_no_faces() {
    let cfg = Config::new(4, 1, 2, 0, 1, 3, None).unwrap();
    let heights = vec![0u8; 16];
    let r = generate(RegionCoord { x: 0, z: 0 }, &heights, &cfg);
    assert_eq!(extract_faces(&r).len(), 0);
    let batch = extract_surface(&r);
    assert_eq!(batch.vertices.len(), 0);
    assert_eq!(batch.indices.len(), 0);
}

#[test]
fn material_grouping() {
    // Splitting the slab's faces by material loses and invents nothing.
    let cfg = Config::new(4, 1, 2, 7, 1, 3, None).unwrap();
    let heights = vec![5u8; 16];
    let r = generate(RegionCoord { x: 0, z: 0 }, &heights, &cfg);
    let faces = extract_faces(&r);
    let stone = faces_of_material(&faces, BlockType::Stone);
    let dirt = faces_of_material(&faces, BlockType::Dirt);
    let grass = faces_of_material(&faces, BlockType::Grass);
    let water = faces_of_material(&faces, BlockType::Water);
    assert_eq!(stone.len() + dirt.len() + grass.len() + water.len(), faces.len());
    assert!(stone.iter().all(|f| f.btype == BlockType::Stone));
    assert_eq!(water.len(), 0);
    // Stone only in the bottom layer: 16 bottom faces plus 4 * 4 sides.
    assert_eq!(stone.len(), 32);
}

#[test]
fn batch_indices_reference_vertices() {
    let cfg = Config::new(4, 1, 2, 7, 1, 3, None).unwrap();
    let heights: Vec<u8> = (0..16u32).map(|i| (i % 5) as u8).collect();
    let r = generate(RegionCoord { x: 0, z: 0 }, &heights, &cfg);
    let batch = extract_surface(&r);
    assert_eq!(batch.indices.len() % 6, 0);
    for &ix in batch.indices.iter() {
        assert!((ix as usize) < batch.vertices.len());
    }
}

#[test]
fn water_surface_culls_terrain_top() {
    // A grass block directly under water has its top face culled: water
    // occupies the neighboring cell, so the face can never be seen.
    let cfg = Config::new(1, 1, 2, 0, 0, 0, Some(1)).unwrap();
    let heights = vec![1u8];
    let r = generate(RegionCoord { x: 0, z: 0 }, &heights, &cfg);
    assert_eq!(r.block(0, 0, 0), BlockType::Grass);
    assert_eq!(r.block(0, 1, 0), BlockType::Water);
    let faces = extract_faces(&r);
    assert!(!faces.iter().any(|f| f.y == 0 && f.dir == FaceDir::YPos));
    assert!(faces.iter().any(|f| f.y == 1 && f.dir == FaceDir::YPos && f.btype == BlockType::Water));
}
