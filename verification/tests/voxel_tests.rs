use rustix_runtime::voxel::{
    exposed_faces, face_indices, generate_chunk_terrain, hash_noise_bits, hit_normal, BlockType, Chunk, CHUNK_HEIGHT, CHUNK_SIZE,
};

#[test]
fn new_chunk_is_all_air() {
    let c = Chunk::new(3, -2);
    assert_eq!(c.chunk_x, 3);
    assert_eq!(c.chunk_z, -2);
    for x in 0..CHUNK_SIZE {
        for y in 0..CHUNK_HEIGHT {
            for z in 0..CHUNK_SIZE {
                assert_eq!(c.get(x, y, z), BlockType::Air);
            }
        }
    }
}

#[test]
fn get_returns_what_set_stored() {
    let mut c = Chunk::new(0, 0);
    c.set(2, 5, 7, BlockType::Stone);
    assert_eq!(c.get(2, 5, 7), BlockType::Stone);
    assert_eq!(c.get(2, 5, 8), BlockType::Air);
    c.set(2, 5, 7, BlockType::Water);
    assert_eq!(c.get(2, 5, 7), BlockType::Water);
}

#[test]
fn outside_the_chunk_reads_air_and_ignores_writes() {
    let mut c = Chunk::new(0, 0);
    c.set(CHUNK_SIZE, 0, 0, BlockType::Stone);
    c.set(0, CHUNK_HEIGHT, 0, BlockType::Stone);
    assert_eq!(c.get(CHUNK_SIZE, 0, 0), BlockType::Air);
    assert_eq!(c.get(0, 0, CHUNK_SIZE + 10), BlockType::Air);
    for x in 0..CHUNK_SIZE {
        for z in 0..CHUNK_SIZE {
            assert_eq!(c.get(x, 0, z), BlockType::Air);
        }
    }
}

#[test]
fn solid_blocks() {
    assert!(!BlockType::Air.is_solid());
    assert!(!BlockType::Water.is_solid());
    assert!(BlockType::Stone.is_solid());
    assert!(BlockType::Leaves.is_solid());
    assert!(BlockType::Bedrock.is_solid());
    assert_eq!(BlockType::default(), BlockType::Air);
}

#[test]
fn generated_column_layers() {
    let mut c = Chunk::new(0, 0);
    let heights = [[10i32; CHUNK_SIZE]; CHUNK_SIZE];
    let rolls = [[false; CHUNK_SIZE]; CHUNK_SIZE];
    generate_chunk_terrain(&mut c, &heights, &rolls);
    for x in 0..CHUNK_SIZE {
        for z in 0..CHUNK_SIZE {
            assert_eq!(c.get(x, 0, z), BlockType::Bedrock);
            for y in 1..7 {
                assert_eq!(c.get(x, y, z), BlockType::Stone);
            }
            for y in 7..10 {
                assert_eq!(c.get(x, y, z), BlockType::Dirt);
            }
            assert_eq!(c.get(x, 10, z), BlockType::Grass);
            for y in 11..CHUNK_HEIGHT {
                assert_eq!(c.get(x, y, z), BlockType::Air);
            }
        }
    }
}

#[test]
fn low_and_high_columns() {
    let mut c = Chunk::new(0, 0);
    let mut heights = [[1i32; CHUNK_SIZE]; CHUNK_SIZE];
    heights[3][4] = 40;
    let rolls = [[true; CHUNK_SIZE]; CHUNK_SIZE];
    generate_chunk_terrain(&mut c, &heights, &rolls);
    // height 1: bedrock then grass, and too low for a tree
    assert_eq!(c.get(0, 0, 0), BlockType::Bedrock);
    assert_eq!(c.get(0, 1, 0), BlockType::Grass);
    assert_eq!(c.get(0, 2, 0), BlockType::Air);
    // a column above the chunk's top is stone up to four rows below its height
    assert_eq!(c.get(3, 0, 4), BlockType::Bedrock);
    assert_eq!(c.get(3, CHUNK_HEIGHT - 1, 4), BlockType::Stone);
}

#[test]
fn tree_trunk_and_crown() {
    let mut c = Chunk::new(0, 0);
    let heights = [[10i32; CHUNK_SIZE]; CHUNK_SIZE];
    let mut rolls = [[false; CHUNK_SIZE]; CHUNK_SIZE];
    rolls[5][5] = true;
    generate_chunk_terrain(&mut c, &heights, &rolls);
    for y in 11..15 {
        assert_eq!(c.get(5, y, 5), BlockType::Wood);
    }
    assert_eq!(c.get(5, 15, 5), BlockType::Leaves);
    // columns generated before the tree keep their leaves
    for y in 13..16 {
        assert_eq!(c.get(4, y, 4), BlockType::Leaves);
        assert_eq!(c.get(4, y, 6), BlockType::Leaves);
        assert_eq!(c.get(5, y, 4), BlockType::Leaves);
    }
    // columns generated after it are refilled, so their leaves are gone
    for y in 13..16 {
        assert_eq!(c.get(5, y, 6), BlockType::Air);
        assert_eq!(c.get(6, y, 5), BlockType::Air);
    }
    assert_eq!(c.get(4, 12, 4), BlockType::Air);
}

#[test]
fn noise_hash_values() {
    assert_eq!(hash_noise_bits(0, 0, 0), 0);
    assert_eq!(hash_noise_bits(1, 0, 0), 2112582102);
    assert_eq!(hash_noise_bits(3, -7, 42), 240322834);
    assert_eq!(hash_noise_bits(-100, 250, 1), 1002267827);
    assert!(hash_noise_bits(i32::MAX, i32::MIN, -1) >= 0);
}

#[test]
fn exposed_faces_of_a_block() {
    let mut c = Chunk::new(0, 0);
    c.set(1, 1, 1, BlockType::Stone);
    assert_eq!(exposed_faces(&c, 1, 1, 1), [true; 6]);
    c.set(1, 2, 1, BlockType::Dirt);
    c.set(2, 1, 1, BlockType::Water);
    c.set(1, 1, 0, BlockType::Grass);
    assert_eq!(exposed_faces(&c, 1, 1, 1), [false, true, true, false, true, true]);
    c.set(0, 0, 0, BlockType::Stone);
    c.set(1, 0, 0, BlockType::Stone);
    c.set(0, 1, 0, BlockType::Stone);
    assert_eq!(exposed_faces(&c, 0, 0, 0), [false, true, true, true, false, true]);
}

#[test]
fn hit_normal_points_back_along_the_ray() {
    assert_eq!(hit_normal([1, 5, 1], [2, 5, 1]), [-1, 0, 0]);
    assert_eq!(hit_normal([3, 5, 1], [2, 5, 1]), [1, 0, 0]);
    assert_eq!(hit_normal([2, 6, 1], [2, 5, 1]), [0, 1, 0]);
    assert_eq!(hit_normal([2, 4, 1], [2, 5, 1]), [0, -1, 0]);
    assert_eq!(hit_normal([2, 5, 0], [2, 5, 1]), [0, 0, -1]);
    assert_eq!(hit_normal([2, 5, 2], [2, 5, 1]), [0, 0, 1]);
    // x is checked first
    assert_eq!(hit_normal([1, 4, 0], [2, 5, 1]), [-1, 0, 0]);
    // a ray that starts inside a block hits it from above
    assert_eq!(hit_normal([i32::MAX; 3], [i32::MAX; 3]), [0, 1, 0]);
    assert_eq!(hit_normal([i32::MAX; 3], [2, 5, 1]), [1, 0, 0]);
}

#[test]
fn face_indices_follow_the_quad_pattern() {
    assert!(face_indices(0).is_empty());
    assert_eq!(face_indices(2), vec![0, 1, 2, 0, 2, 3, 4, 5, 6, 4, 6, 7]);
    // the vertex count is kept in u16: face 16384 starts again at 0
    let idx = face_indices(16385);
    assert_eq!(&idx[6 * 16383..6 * 16383 + 6], &[65532, 65533, 65534, 65532, 65534, 65535]);
    assert_eq!(&idx[6 * 16384..], &[0, 1, 2, 0, 2, 3]);
}
