use geometry_engine::block::BlockType;
use geometry_engine::column::{Bracket, ColumnProfile};
use geometry_engine::voxel::{Face, VoxelChunk};

fn level(value: i64) -> Bracket {
    Bracket { floor: value, ceil: value }
}

// A column whose surface lies at the whole height `height`, far above the sea.
fn ground(height: i64, tree_density: i32) -> ColumnProfile {
    ColumnProfile {
        height: level(height),
        relief: level(height + 1000),
        sea_level: level(-1000),
        arid: false,
        tree_density,
    }
}

// A column whose surface lies far below the chunk: nothing but air.
fn void() -> ColumnProfile {
    ColumnProfile {
        height: level(-100000),
        relief: level(0),
        sea_level: level(-200000),
        arid: false,
        tree_density: 0,
    }
}

fn tables(column: impl Fn(usize, usize) -> ColumnProfile) -> (Vec<ColumnProfile>, Vec<bool>) {
    let mut columns = Vec::new();
    for x in 0..16 {
        for z in 0..16 {
            columns.push(column(x, z));
        }
    }
    (columns, vec![false; 4096])
}

fn count(chunk: &VoxelChunk, kind: BlockType) -> usize {
    let mut n = 0;
    for x in 0..16 {
        for y in 0..16 {
            for z in 0..16 {
                if chunk.get_block(x, y, z) == kind {
                    n += 1;
                }
            }
        }
    }
    n
}

#[test]
fn flat_ground_is_layered() {
    let (columns, caverns) = tables(|_, _| ground(4, 0));
    let chunk = VoxelChunk::from_samples(0, 0, 0, &columns, &caverns);
    assert_eq!(chunk.position(), (0, 0, 0));
    for x in 0..16 {
        for z in 0..16 {
            assert_eq!(chunk.get_block(x, 0, z), BlockType::Stone);
            assert_eq!(chunk.get_block(x, 1, z), BlockType::Stone);
            assert_eq!(chunk.get_block(x, 2, z), BlockType::Dirt);
            assert_eq!(chunk.get_block(x, 3, z), BlockType::Dirt);
            assert_eq!(chunk.get_block(x, 4, z), BlockType::Grass);
            for y in 5..16 {
                assert_eq!(chunk.get_block(x, y, z), BlockType::Air);
            }
        }
    }
}

#[test]
fn chunk_reads_world_coordinates() {
    // the same ground seen from the chunk below: its top voxel is world level -1
    let (columns, caverns) = tables(|_, _| ground(4, 0));
    let below = VoxelChunk::from_samples(0, -1, 0, &columns, &caverns);
    assert_eq!(below.position(), (0, -1, 0));
    assert_eq!(count(&below, BlockType::Stone), 4096);
    // and from the chunk above: world levels 16 to 31, all air
    let above = VoxelChunk::from_samples(7, 1, -3, &columns, &caverns);
    assert_eq!(count(&above, BlockType::Air), 4096);
}

#[test]
fn caves_are_read_per_voxel() {
    let (columns, mut caverns) = tables(|_, _| ground(40, 0));
    caverns[3 * 256 + 7 * 16 + 5] = true;
    caverns[3 * 256 + 15 * 16 + 5] = true;
    let chunk = VoxelChunk::from_samples(0, 0, 0, &columns, &caverns);
    assert_eq!(chunk.get_block(3, 7, 5), BlockType::Air);
    assert_eq!(chunk.get_block(3, 15, 5), BlockType::Air);
    assert_eq!(chunk.get_block(5, 7, 3), BlockType::Stone);
    assert_eq!(count(&chunk, BlockType::Air), 2);
    // a chunk higher up, at world levels 32 to 47: level 35 is not below 40 - 5
    let mut high = vec![false; 4096];
    high[3 * 256 + 2 * 16 + 5] = true;
    high[3 * 256 + 3 * 16 + 5] = true;
    let chunk = VoxelChunk::from_samples(0, 2, 0, &columns, &high);
    assert_eq!(chunk.get_block(3, 2, 5), BlockType::Air);
    assert_eq!(chunk.get_block(3, 3, 5), BlockType::Stone);
}

#[test]
fn tree_keeps_its_foot_and_the_leaves_in_earlier_columns() {
    // with density 1 the columns of hash 0 carry a tree: (0, 0), (8, 4), (1, 13)
    let (columns, caverns) = tables(|_, _| ground(4, 1));
    let chunk = VoxelChunk::from_samples(0, 0, 0, &columns, &caverns);
    assert_eq!(chunk.get_block(0, 5, 0), BlockType::Wood);
    assert_eq!(chunk.get_block(8, 5, 4), BlockType::Wood);
    assert_eq!(chunk.get_block(1, 5, 13), BlockType::Wood);
    assert_eq!(count(&chunk, BlockType::Wood), 3);
    // the levels of the trunk above the foot are filled again as air
    for y in 6..16 {
        assert_eq!(chunk.get_block(8, y, 4), BlockType::Air);
    }
    // leaves three above the foot, in the columns that were filled before
    assert_eq!(chunk.get_block(7, 8, 3), BlockType::Leaves);
    assert_eq!(chunk.get_block(7, 8, 4), BlockType::Leaves);
    assert_eq!(chunk.get_block(7, 8, 5), BlockType::Leaves);
    assert_eq!(chunk.get_block(8, 8, 3), BlockType::Leaves);
    // none in the columns that are filled later
    assert_eq!(chunk.get_block(8, 8, 5), BlockType::Air);
    assert_eq!(chunk.get_block(9, 8, 3), BlockType::Air);
    assert_eq!(chunk.get_block(9, 8, 4), BlockType::Air);
    assert_eq!(chunk.get_block(9, 8, 5), BlockType::Air);
    // the tree in the corner has no earlier column
    assert_eq!(chunk.get_block(1, 8, 0), BlockType::Air);
    assert_eq!(chunk.get_block(0, 8, 1), BlockType::Air);
    // the tree at (1, 13)
    assert_eq!(chunk.get_block(0, 8, 12), BlockType::Leaves);
    assert_eq!(chunk.get_block(0, 8, 13), BlockType::Leaves);
    assert_eq!(chunk.get_block(0, 8, 14), BlockType::Leaves);
    assert_eq!(chunk.get_block(1, 8, 12), BlockType::Leaves);
    assert_eq!(count(&chunk, BlockType::Leaves), 8);
}

#[test]
fn forest_leaves_cover_all_but_the_last_column() {
    let (columns, caverns) = tables(|_, _| ground(4, 100));
    let chunk = VoxelChunk::from_samples(0, 0, 0, &columns, &caverns);
    assert_eq!(count(&chunk, BlockType::Wood), 256);
    assert_eq!(count(&chunk, BlockType::Leaves), 255);
    for x in 0..16 {
        for z in 0..16 {
            assert_eq!(chunk.get_block(x, 5, z), BlockType::Wood);
            let expected = if x == 15 && z == 15 { BlockType::Air } else { BlockType::Leaves };
            assert_eq!(chunk.get_block(x, 8, z), expected);
        }
    }
}

#[test]
fn leaves_do_not_replace_a_filled_voxel() {
    // a tree at (8, 4) on ground 4; the column (7, 4) before it rises to level 8
    let (columns, caverns) = tables(|x, z| {
        if x == 7 && z == 4 {
            ground(8, 0)
        } else if x == 8 && z == 4 {
            ground(4, 1)
        } else {
            ground(4, 0)
        }
    });
    let chunk = VoxelChunk::from_samples(0, 0, 0, &columns, &caverns);
    assert_eq!(chunk.get_block(8, 5, 4), BlockType::Wood);
    assert_eq!(chunk.get_block(7, 8, 4), BlockType::Grass);
    assert_eq!(chunk.get_block(7, 8, 3), BlockType::Leaves);
    assert_eq!(chunk.get_block(7, 8, 5), BlockType::Leaves);
    assert_eq!(chunk.get_block(8, 8, 3), BlockType::Leaves);
    assert_eq!(count(&chunk, BlockType::Leaves), 3);
}

#[test]
fn tree_parts_above_the_chunk_are_left_out() {
    // foot at level 14: the canopy would lie at level 17
    let (columns, caverns) = tables(|x, z| ground(13, if x == 8 && z == 4 { 1 } else { 0 }));
    let chunk = VoxelChunk::from_samples(0, 0, 0, &columns, &caverns);
    assert_eq!(chunk.get_block(8, 14, 4), BlockType::Wood);
    assert_eq!(chunk.get_block(8, 15, 4), BlockType::Air);
    assert_eq!(count(&chunk, BlockType::Wood), 1);
    assert_eq!(count(&chunk, BlockType::Leaves), 0);
    // foot at level 12: the canopy lies at level 15, the top of the chunk
    let (columns, caverns) = tables(|x, z| ground(11, if x == 8 && z == 4 { 1 } else { 0 }));
    let chunk = VoxelChunk::from_samples(0, 0, 0, &columns, &caverns);
    assert_eq!(chunk.get_block(8, 12, 4), BlockType::Wood);
    assert_eq!(chunk.get_block(7, 15, 4), BlockType::Leaves);
    assert_eq!(count(&chunk, BlockType::Leaves), 4);
    // foot at level 15
    let (columns, caverns) = tables(|x, z| ground(14, if x == 8 && z == 4 { 1 } else { 0 }));
    let chunk = VoxelChunk::from_samples(0, 0, 0, &columns, &caverns);
    assert_eq!(chunk.get_block(8, 15, 4), BlockType::Wood);
    assert_eq!(count(&chunk, BlockType::Leaves), 0);
}

#[test]
fn tree_parts_beside_the_chunk_are_left_out() {
    let (columns, caverns) = tables(|x, z| ground(4, if x == 15 && z == 0 { 100 } else { 0 }));
    let chunk = VoxelChunk::from_samples(0, 0, 0, &columns, &caverns);
    assert_eq!(chunk.get_block(15, 5, 0), BlockType::Wood);
    assert_eq!(chunk.get_block(14, 8, 0), BlockType::Leaves);
    assert_eq!(chunk.get_block(14, 8, 1), BlockType::Leaves);
    assert_eq!(chunk.get_block(15, 8, 1), BlockType::Air);
    assert_eq!(count(&chunk, BlockType::Leaves), 2);
}

#[test]
fn tree_hash_reads_world_columns() {
    // chunk (1, 0, -1): the world column (24, -12) has hash |1752 - 2148| % 100 = 96
    let (columns, caverns) = tables(|_, _| ground(4, 97));
    let chunk = VoxelChunk::from_samples(1, 0, -1, &columns, &caverns);
    assert_eq!(chunk.get_block(8, 5, 4), BlockType::Wood);
    let (columns, caverns) = tables(|_, _| ground(4, 96));
    let chunk = VoxelChunk::from_samples(1, 0, -1, &columns, &caverns);
    assert_eq!(chunk.get_block(8, 5, 4), BlockType::Air);
}

#[test]
fn samplers_are_asked_by_world_coordinates() {
    let column = |x: i64, z: i64, base: &i64| ground(*base + (x + z).rem_euclid(3), 0);
    let cave = |x: i64, y: i64, z: i64, _: &i64| x == 35 && y == -13 && z == -20;
    let chunk = VoxelChunk::new_with_terrain_params(2, -1, -2, &-10i64, &column, &cave);
    assert_eq!(chunk.position(), (2, -1, -2));
    // world column (32, -32): height -10, surface voxel at world level -10, local 6
    assert_eq!(chunk.get_block(0, 6, 0), BlockType::Grass);
    assert_eq!(chunk.get_block(0, 7, 0), BlockType::Air);
    // world column (33, -32): height -10 + 1
    assert_eq!(chunk.get_block(1, 7, 0), BlockType::Grass);
    assert_eq!(chunk.get_block(1, 8, 0), BlockType::Air);
    // world column (35, -20): 15 mod 3 = 0, height -10; the cave at world level -13 is not
    // more than five below the surface
    assert_eq!(chunk.get_block(3, 3, 12), BlockType::Stone);
    let deep = |x: i64, y: i64, z: i64, _: &i64| x == 35 && y == -16 && z == -20;
    let chunk = VoxelChunk::new_with_terrain_params(2, -1, -2, &-10i64, &column, &deep);
    assert_eq!(chunk.get_block(3, 0, 12), BlockType::Air);
    assert_eq!(chunk.get_block(3, 1, 12), BlockType::Stone);
}

#[test]
fn samplers_and_tables_give_the_same_chunk() {
    let column = |x: i64, z: i64, density: &i32| ground(3 + (x * x + z).rem_euclid(5), *density);
    let cave = |x: i64, y: i64, z: i64, _: &i32| (x + 2 * y + 3 * z).rem_euclid(7) == 0;
    let sampled = VoxelChunk::new_with_terrain_params(-1, 0, 3, &40, &column, &cave);
    let mut columns = Vec::new();
    let mut caverns = Vec::new();
    for x in 0..16i64 {
        for z in 0..16i64 {
            columns.push(column(-16 + x, 48 + z, &40));
        }
        for y in 0..16i64 {
            for z in 0..16i64 {
                caverns.push(cave(-16 + x, y, 48 + z, &40));
            }
        }
    }
    let tabled = VoxelChunk::from_samples(-1, 0, 3, &columns, &caverns);
    for x in 0..16 {
        for y in 0..16 {
            for z in 0..16 {
                assert_eq!(sampled.get_block(x, y, z), tabled.get_block(x, y, z));
            }
        }
    }
}

#[test]
fn faces_are_hidden_between_filled_voxels() {
    let (columns, caverns) = tables(|x, z| {
        if (4..7).contains(&x) && (4..7).contains(&z) {
            ground(2, 0)
        } else {
            void()
        }
    });
    let chunk = VoxelChunk::from_samples(0, 0, 0, &columns, &caverns);
    assert_eq!(count(&chunk, BlockType::Air), 4096 - 27);
    let faces = [Face::Top, Face::Bottom, Face::Left, Face::Right, Face::Front, Face::Back];
    // the voxel in the middle of the cube
    for face in faces {
        assert!(!chunk.is_face_visible(5, 1, 5, face));
    }
    // the middle of the top
    assert!(chunk.is_face_visible(5, 2, 5, Face::Top));
    assert!(!chunk.is_face_visible(5, 2, 5, Face::Bottom));
    assert!(!chunk.is_face_visible(5, 2, 5, Face::Left));
    // a corner of the cube
    assert!(chunk.is_face_visible(4, 2, 4, Face::Top));
    assert!(chunk.is_face_visible(4, 2, 4, Face::Left));
    assert!(chunk.is_face_visible(4, 2, 4, Face::Back));
    assert!(!chunk.is_face_visible(4, 2, 4, Face::Right));
    assert!(!chunk.is_face_visible(4, 2, 4, Face::Front));
    assert!(!chunk.is_face_visible(4, 2, 4, Face::Bottom));
    // the bottom of the cube lies on the boundary of the chunk
    assert!(chunk.is_face_visible(5, 0, 5, Face::Bottom));
    assert!(!chunk.is_face_visible(5, 0, 5, Face::Top));
    // an empty voxel has no face
    for face in faces {
        assert!(!chunk.is_face_visible(5, 3, 5, face));
        assert!(!chunk.is_face_visible(0, 0, 0, face));
    }
}

#[test]
fn faces_on_the_boundary_are_always_visible() {
    let (columns, caverns) = tables(|_, _| ground(100, 0));
    let chunk = VoxelChunk::from_samples(0, 0, 0, &columns, &caverns);
    assert_eq!(count(&chunk, BlockType::Stone), 4096);
    assert!(chunk.is_face_visible(0, 7, 7, Face::Left));
    assert!(chunk.is_face_visible(15, 7, 7, Face::Right));
    assert!(chunk.is_face_visible(7, 0, 7, Face::Bottom));
    assert!(chunk.is_face_visible(7, 15, 7, Face::Top));
    assert!(chunk.is_face_visible(7, 7, 0, Face::Back));
    assert!(chunk.is_face_visible(7, 7, 15, Face::Front));
    assert!(!chunk.is_face_visible(0, 7, 7, Face::Right));
    assert!(!chunk.is_face_visible(15, 7, 7, Face::Left));
    assert!(!chunk.is_face_visible(7, 7, 7, Face::Top));
    // the corner voxel shows three faces
    assert!(chunk.is_face_visible(0, 0, 0, Face::Left));
    assert!(chunk.is_face_visible(0, 0, 0, Face::Bottom));
    assert!(chunk.is_face_visible(0, 0, 0, Face::Back));
    assert!(!chunk.is_face_visible(0, 0, 0, Face::Top));
}
