//! Voxel world: block types, chunks of blocks, and terrain generation from
//! column heights.
use vstd::prelude::*;

verus! {

pub const CHUNK_SIZE: usize = 16;

pub const CHUNK_HEIGHT: usize = 32;

/// Block types in the voxel world.
#[derive(Debug, Clone, Copy, PartialEq, Eq, Structural)]
pub enum BlockType {
    Air,
    Grass,
    Dirt,
    Stone,
    Wood,
    Leaves,
    Sand,
    Water,
    Bedrock,
}

impl Default for BlockType {
    fn default() -> (b: Self)
        ensures
            b == BlockType::Air,
    {
        BlockType::Air
    }
}

pub open spec fn spec_is_solid(b: BlockType) -> bool {
    !(b == BlockType::Air || b == BlockType::Water)
}

impl BlockType {
    pub fn is_solid(self) -> (r: bool)
        ensures
            r == spec_is_solid(self),
    {
        !matches!(self, BlockType::Air | BlockType::Water)
    }
}

/// A single chunk of the voxel world, indexed `blocks[x][y][z]`.
#[derive(Debug, Clone)]
pub struct Chunk {
    pub blocks: [[[BlockType; CHUNK_SIZE]; CHUNK_HEIGHT]; CHUNK_SIZE],
    pub chunk_x: i32,
    pub chunk_z: i32,
}

pub open spec fn in_chunk(x: int, y: int, z: int) -> bool {
    0 <= x < CHUNK_SIZE && 0 <= y < CHUNK_HEIGHT && 0 <= z < CHUNK_SIZE
}

/// The block stored at (x, y, z).
pub open spec fn block_at(c: Chunk, x: int, y: int, z: int) -> BlockType {
    c.blocks@[x]@[y]@[z]
}

/// The block that `get` reads at (x, y, z): the stored one inside the chunk, air
/// outside it.
pub open spec fn read_block(c: Chunk, x: int, y: int, z: int) -> BlockType {
    if in_chunk(x, y, z) {
        block_at(c, x, y, z)
    } else {
        BlockType::Air
    }
}

/// `after` is `before` with block `b` written at (x, y, z), when that position lies
/// inside the chunk.
pub open spec fn stores(before: Chunk, after: Chunk, x: int, y: int, z: int, b: BlockType) -> bool {
    forall|i: int, j: int, k: int|
        in_chunk(i, j, k) ==> #[trigger] block_at(after, i, j, k) == if i == x && j == y && k == z {
            b
        } else {
            block_at(before, i, j, k)
        }
}

impl Chunk {
    pub fn new(chunk_x: i32, chunk_z: i32) -> (c: Self)
        ensures
            c.chunk_x == chunk_x,
            c.chunk_z == chunk_z,
            forall|x: int, y: int, z: int|
                in_chunk(x, y, z) ==> block_at(c, x, y, z) == BlockType::Air,
    {
        Self {
            blocks: [[[BlockType::Air; CHUNK_SIZE]; CHUNK_HEIGHT]; CHUNK_SIZE],
            chunk_x,
            chunk_z,
        }
    }

    /// The block at (x, y, z); outside the chunk everything is air.
    pub fn get(&self, x: usize, y: usize, z: usize) -> (b: BlockType)
        ensures
            b == read_block(*self, x as int, y as int, z as int),
    {
        if x >= CHUNK_SIZE || y >= CHUNK_HEIGHT || z >= CHUNK_SIZE {
            return BlockType::Air;
        }
        self.blocks[x][y][z]
    }

    /// Store a block at (x, y, z); positions outside the chunk are ignored.
    pub fn set(&mut self, x: usize, y: usize, z: usize, block: BlockType)
        ensures
            final(self).chunk_x == old(self).chunk_x,
            final(self).chunk_z == old(self).chunk_z,
            stores(*old(self), *final(self), x as int, y as int, z as int, block),
    {
        if x < CHUNK_SIZE && y < CHUNK_HEIGHT && z < CHUNK_SIZE {
            self.blocks[x][y][z] = block;
        }
    }
}

/// The blocks of a chunk as a function of position.
pub open spec fn chunk_fn(c: Chunk) -> spec_fn(int, int, int) -> BlockType {
    |i: int, j: int, k: int| block_at(c, i, j, k)
}

/// The block of a terrain column of height `h` at row `y`: bedrock at the bottom,
/// stone up to four rows below the surface, dirt up to the surface, grass on it,
/// air above.
pub open spec fn column_block(y: int, h: int) -> BlockType {
    if y == 0 {
        BlockType::Bedrock
    } else if y < h - 3 {
        BlockType::Stone
    } else if y < h {
        BlockType::Dirt
    } else if y == h {
        BlockType::Grass
    } else {
        BlockType::Air
    }
}

/// A tree grows on a column when its roll says so and its height leaves room.
pub open spec fn grows_tree(h: int, roll: bool) -> bool {
    roll && 4 <= h < CHUNK_HEIGHT - 6
}

pub open spec fn fill_column(
    b: spec_fn(int, int, int) -> BlockType,
    x: int,
    z: int,
    h: int,
) -> spec_fn(int, int, int) -> BlockType {
    |i: int, j: int, k: int|
        if i == x && k == z {
            column_block(j, h)
        } else {
            b(i, j, k)
        }
}

/// The trunk: wood in the four rows above the surface.
pub open spec fn add_trunk(
    b: spec_fn(int, int, int) -> BlockType,
    x: int,
    z: int,
    h: int,
) -> spec_fn(int, int, int) -> BlockType {
    |i: int, j: int, k: int|
        if i == x && k == z && h + 1 <= j <= h + 4 {
            BlockType::Wood
        } else {
            b(i, j, k)
        }
}

/// The cells around the top of the trunk that the crown may fill: the columns next
/// to it inside the chunk, from one row below the trunk's top to one row above.
pub open spec fn in_leaf_box(x: int, z: int, h: int, i: int, j: int, k: int) -> bool {
    &&& (if x >= 1 { x - 1 } else { 0 }) <= i <= (if x + 1 < CHUNK_SIZE { x + 1 } else { CHUNK_SIZE - 1 })
    &&& (if z >= 1 { z - 1 } else { 0 }) <= k <= (if z + 1 < CHUNK_SIZE { z + 1 } else { CHUNK_SIZE - 1 })
    &&& h + 3 <= j <= h + 5
}

/// The crown: leaves in every air cell of the leaf box.
pub open spec fn add_leaves(
    b: spec_fn(int, int, int) -> BlockType,
    x: int,
    z: int,
    h: int,
) -> spec_fn(int, int, int) -> BlockType {
    |i: int, j: int, k: int|
        if in_leaf_box(x, z, h, i, j, k) && b(i, j, k) == BlockType::Air {
            BlockType::Leaves
        } else {
            b(i, j, k)
        }
}

/// One column of terrain generation: the column, then its tree if it grows one.
pub open spec fn column_step(
    b: spec_fn(int, int, int) -> BlockType,
    x: int,
    z: int,
    h: int,
    roll: bool,
) -> spec_fn(int, int, int) -> BlockType {
    let f = fill_column(b, x, z, h);
    if grows_tree(h, roll) {
        add_leaves(add_trunk(f, x, z, h), x, z, h)
    } else {
        f
    }
}

/// The blocks after generating the first `c` columns, taken in order of x and then z.
pub open spec fn terrain_fold(
    b0: spec_fn(int, int, int) -> BlockType,
    heights: Seq<Seq<i32>>,
    rolls: Seq<Seq<bool>>,
    c: nat,
) -> spec_fn(int, int, int) -> BlockType
    decreases c,
{
    if c == 0 {
        b0
    } else {
        let x = (c - 1) / CHUNK_SIZE as int;
        let z = (c - 1) % CHUNK_SIZE as int;
        column_step(
            terrain_fold(b0, heights, rolls, (c - 1) as nat),
            x,
            z,
            heights[x][z] as int,
            rolls[x][z],
        )
    }
}

/// Fill a chunk with terrain: `heights[x][z]` is the surface row of column (x, z)
/// and `tree_rolls[x][z]` says whether a tree would grow there if the height
/// leaves room. Columns are generated in order of x and then z; a crown may spill
/// into neighbouring columns, and a later column overwrites its own cells.
pub fn generate_chunk_terrain(
    chunk: &mut Chunk,
    heights: &[[i32; CHUNK_SIZE]; CHUNK_SIZE],
    tree_rolls: &[[bool; CHUNK_SIZE]; CHUNK_SIZE],
)
    requires
        forall|x: int, z: int|
            0 <= x < CHUNK_SIZE && 0 <= z < CHUNK_SIZE ==> #[trigger] heights@[x]@[z] > i32::MIN
                + 2,
    ensures
        final(chunk).chunk_x == old(chunk).chunk_x,
        final(chunk).chunk_z == old(chunk).chunk_z,
        forall|i: int, j: int, k: int|
            in_chunk(i, j, k) ==> #[trigger] block_at(*final(chunk), i, j, k) == terrain_fold(
                chunk_fn(*old(chunk)),
                heights@.map_values(|r: [i32; CHUNK_SIZE]| r@),
                tree_rolls@.map_values(|r: [bool; CHUNK_SIZE]| r@),
                (CHUNK_SIZE * CHUNK_SIZE) as nat,
            )(i, j, k),
{
    let ghost b0 = chunk_fn(*chunk);
    let ghost hs = heights@.map_values(|r: [i32; CHUNK_SIZE]| r@);
    let ghost rs = tree_rolls@.map_values(|r: [bool; CHUNK_SIZE]| r@);
    let ghost cx = chunk.chunk_x;
    let ghost cz = chunk.chunk_z;
    let mut x: usize = 0;
    while x < CHUNK_SIZE
        invariant
            0 <= x <= CHUNK_SIZE,
            chunk.chunk_x == cx,
            chunk.chunk_z == cz,
            hs == heights@.map_values(|r: [i32; CHUNK_SIZE]| r@),
            rs == tree_rolls@.map_values(|r: [bool; CHUNK_SIZE]| r@),
            forall|a: int, c: int|
                0 <= a < CHUNK_SIZE && 0 <= c < CHUNK_SIZE ==> #[trigger] heights@[a]@[c]
                    > i32::MIN + 2,
            forall|i: int, j: int, k: int|
                in_chunk(i, j, k) ==> #[trigger] block_at(*chunk, i, j, k) == terrain_fold(
                    b0,
                    hs,
                    rs,
                    (x * CHUNK_SIZE) as nat,
                )(i, j, k),
        decreases CHUNK_SIZE - x,
    {
        let mut z: usize = 0;
        while z < CHUNK_SIZE
            invariant
                0 <= x < CHUNK_SIZE,
                0 <= z <= CHUNK_SIZE,
                chunk.chunk_x == cx,
                chunk.chunk_z == cz,
                hs == heights@.map_values(|r: [i32; CHUNK_SIZE]| r@),
                rs == tree_rolls@.map_values(|r: [bool; CHUNK_SIZE]| r@),
                forall|a: int, c: int|
                    0 <= a < CHUNK_SIZE && 0 <= c < CHUNK_SIZE ==> #[trigger] heights@[a]@[c]
                        > i32::MIN + 2,
                forall|i: int, j: int, k: int|
                    in_chunk(i, j, k) ==> #[trigger] block_at(*chunk, i, j, k) == terrain_fold(
                        b0,
                        hs,
                        rs,
                        (x * CHUNK_SIZE + z) as nat,
                    )(i, j, k),
            decreases CHUNK_SIZE - z,
        {
            let ghost c = (x * CHUNK_SIZE + z) as nat;
            let ghost prev = terrain_fold(b0, hs, rs, c);
            let h = heights[x][z];
            proof {
                assert(hs[x as int][z as int] == h);
                assert(rs[x as int][z as int] == tree_rolls@[x as int]@[z as int]);
                assert((c + 1 - 1) / CHUNK_SIZE as int == x) by (nonlinear_arith)
                    requires
                        c == x * CHUNK_SIZE + z,
                        z < CHUNK_SIZE,
                ;
                assert((c + 1 - 1) % CHUNK_SIZE as int == z) by (nonlinear_arith)
                    requires
                        c == x * CHUNK_SIZE + z,
                        z < CHUNK_SIZE,
                ;
            }
            let mut y: usize = 0;
            while y < CHUNK_HEIGHT
                invariant
                    0 <= x < CHUNK_SIZE,
                    0 <= z < CHUNK_SIZE,
                    0 <= y <= CHUNK_HEIGHT,
                    h > i32::MIN + 2,
                    chunk.chunk_x == cx,
                    chunk.chunk_z == cz,
                    forall|i: int, j: int, k: int|
                        in_chunk(i, j, k) ==> #[trigger] block_at(*chunk, i, j, k) == if i == x
                            && k == z && j < y {
                            column_block(j, h as int)
                        } else {
                            prev(i, j, k)
                        },
                decreases CHUNK_HEIGHT - y,
            {
                let block = if y == 0 {
                    BlockType::Bedrock
                } else if (y as i32) < h - 3 {
                    BlockType::Stone
                } else if (y as i32) < h {
                    BlockType::Dirt
                } else if (y as i32) == h {
                    BlockType::Grass
                } else {
                    BlockType::Air
                };
                chunk.set(x, y, z, block);
                y = y + 1;
            }
            let ghost filled = fill_column(prev, x as int, z as int, h as int);
            assert forall|i: int, j: int, k: int| in_chunk(i, j, k) implies #[trigger] block_at(
                *chunk,
                i,
                j,
                k,
            ) == filled(i, j, k) by {}
            // Occasional trees
            if h >= 4 && h < CHUNK_HEIGHT as i32 - 6 {
                if tree_rolls[x][z] {
                    // Trunk
                    let top = if h + 4 < CHUNK_HEIGHT as i32 - 1 {
                        h + 4
                    } else {
                        CHUNK_HEIGHT as i32 - 1
                    };
                    let mut ty = h + 1;
                    while ty <= top
                        invariant
                            0 <= x < CHUNK_SIZE,
                            0 <= z < CHUNK_SIZE,
                            4 <= h < CHUNK_HEIGHT - 6,
                            top == h + 4,
                            h + 1 <= ty <= top + 1,
                            chunk.chunk_x == cx,
                            chunk.chunk_z == cz,
                            forall|i: int, j: int, k: int|
                                in_chunk(i, j, k) ==> #[trigger] block_at(*chunk, i, j, k) == if i
                                    == x && k == z && h + 1 <= j < ty {
                                    BlockType::Wood
                                } else {
                                    filled(i, j, k)
                                },
                        decreases top + 1 - ty,
                    {
                        chunk.set(x, ty as usize, z, BlockType::Wood);
                        ty = ty + 1;
                    }
                    let ghost trunk = add_trunk(filled, x as int, z as int, h as int);
                    assert forall|i: int, j: int, k: int| in_chunk(i, j, k) implies #[trigger] block_at(
                        *chunk,
                        i,
                        j,
                        k,
                    ) == trunk(i, j, k) by {}
                    // Leaves
                    let leaf_y = top as usize;
                    let lx_end = if x + 1 < CHUNK_SIZE {
                        x + 1
                    } else {
                        CHUNK_SIZE - 1
                    };
                    let lz_end = if z + 1 < CHUNK_SIZE {
                        z + 1
                    } else {
                        CHUNK_SIZE - 1
                    };
                    let lz_start = z.saturating_sub(1);
                    let mut lx = x.saturating_sub(1);
                    while lx <= lx_end
                        invariant
                            0 <= x < CHUNK_SIZE,
                            0 <= z < CHUNK_SIZE,
                            4 <= h < CHUNK_HEIGHT - 6,
                            leaf_y == h + 4,
                            lx_end == (if x + 1 < CHUNK_SIZE { x + 1 } else { CHUNK_SIZE - 1 }),
                            lz_end == (if z + 1 < CHUNK_SIZE { z + 1 } else { CHUNK_SIZE - 1 }),
                            lz_start == (if z >= 1 { z - 1 } else { 0 }),
                            (if x >= 1 { x - 1 } else { 0 }) <= lx <= lx_end + 1,
                            chunk.chunk_x == cx,
                            chunk.chunk_z == cz,
                            forall|i: int, j: int, k: int|
                                in_chunk(i, j, k) ==> #[trigger] block_at(*chunk, i, j, k) == if i
                                    < lx && in_leaf_box(
                                    x as int,
                                    z as int,
                                    h as int,
                                    i,
                                    j,
                                    k,
                                ) && trunk(i, j, k) == BlockType::Air {
                                    BlockType::Leaves
                                } else {
                                    trunk(i, j, k)
                                },
                        decreases lx_end + 1 - lx,
                    {
                        let mut lz = lz_start;
                        while lz <= lz_end
                            invariant
                                0 <= x < CHUNK_SIZE,
                                0 <= z < CHUNK_SIZE,
                                4 <= h < CHUNK_HEIGHT - 6,
                                leaf_y == h + 4,
                                lx <= lx_end,
                                lx_end == (if x + 1 < CHUNK_SIZE { x + 1 } else { CHUNK_SIZE - 1 }),
                                lz_end == (if z + 1 < CHUNK_SIZE { z + 1 } else { CHUNK_SIZE - 1 }),
                                lz_start == (if z >= 1 { z - 1 } else { 0 }),
                                (if x >= 1 { x - 1 } else { 0 }) <= lx,
                                lz_start <= lz <= lz_end + 1,
                                chunk.chunk_x == cx,
                                chunk.chunk_z == cz,
                                forall|i: int, j: int, k: int|
                                    in_chunk(i, j, k) ==> #[trigger] block_at(*chunk, i, j, k) == if (i
                                        < lx || (i == lx && k < lz)) && in_leaf_box(
                                        x as int,
                                        z as int,
                                        h as int,
                                        i,
                                        j,
                                        k,
                                    ) && trunk(i, j, k) == BlockType::Air {
                                        BlockType::Leaves
                                    } else {
                                        trunk(i, j, k)
                                    },
                            decreases lz_end + 1 - lz,
                        {
                            let mut ly = leaf_y - 1;
                            while ly <= leaf_y + 1
                                invariant
                                    0 <= x < CHUNK_SIZE,
                                    0 <= z < CHUNK_SIZE,
                                    4 <= h < CHUNK_HEIGHT - 6,
                                    leaf_y == h + 4,
                                    lx <= lx_end,
                                    lz <= lz_end,
                                    lx_end == (if x + 1 < CHUNK_SIZE { x + 1 } else { CHUNK_SIZE - 1 }),
                                    lz_end == (if z + 1 < CHUNK_SIZE { z + 1 } else { CHUNK_SIZE - 1 }),
                                    lz_start == (if z >= 1 { z - 1 } else { 0 }),
                                    (if x >= 1 { x - 1 } else { 0 }) <= lx,
                                    lz_start <= lz,
                                    leaf_y - 1 <= ly <= leaf_y + 2,
                                    chunk.chunk_x == cx,
                                    chunk.chunk_z == cz,
                                    forall|i: int, j: int, k: int|
                                        in_chunk(i, j, k) ==> #[trigger] block_at(*chunk, i, j, k)
                                            == if (i < lx || (i == lx && k < lz) || (i == lx && k
                                            == lz && j < ly)) && in_leaf_box(
                                            x as int,
                                            z as int,
                                            h as int,
                                            i,
                                            j,
                                            k,
                                        ) && trunk(i, j, k) == BlockType::Air {
                                            BlockType::Leaves
                                        } else {
                                            trunk(i, j, k)
                                        },
                                decreases leaf_y + 2 - ly,
                            {
                                if ly < CHUNK_HEIGHT && chunk.get(lx, ly, lz) == BlockType::Air {
                                    chunk.set(lx, ly, lz, BlockType::Leaves);
                                }
                                ly = ly + 1;
                            }
                            lz = lz + 1;
                        }
                        lx = lx + 1;
                    }
                }
            }
            assert forall|i: int, j: int, k: int| in_chunk(i, j, k) implies #[trigger] block_at(
                *chunk,
                i,
                j,
                k,
            ) == terrain_fold(b0, hs, rs, c + 1)(i, j, k) by {}
            z = z + 1;
        }
        x = x + 1;
    }
}

/// What a read gives back of a write: after `set`, `get` at the written position
/// returns the written block when the position lies inside the chunk, and every
/// other read is unchanged.
pub proof fn lemma_get_after_set(before: Chunk, after: Chunk, x: int, y: int, z: int, b: BlockType)
    requires
        stores(before, after, x, y, z, b),
    ensures
        in_chunk(x, y, z) ==> read_block(after, x, y, z) == b,
        forall|i: int, j: int, k: int|
            !(i == x && j == y && k == z) ==> #[trigger] read_block(after, i, j, k) == read_block(
                before,
                i,
                j,
                k,
            ),
{
}

proof fn lemma_fold_floor(
    b0: spec_fn(int, int, int) -> BlockType,
    heights: Seq<Seq<i32>>,
    rolls: Seq<Seq<bool>>,
    c: nat,
)
    ensures
        forall|i: int, k: int|
            0 <= i < CHUNK_SIZE && 0 <= k < CHUNK_SIZE && i * CHUNK_SIZE + k < c
                ==> #[trigger] terrain_fold(b0, heights, rolls, c)(i, 0, k) == BlockType::Bedrock,
    decreases c,
{
    if c > 0 {
        lemma_fold_floor(b0, heights, rolls, (c - 1) as nat);
        let x = (c - 1) / CHUNK_SIZE as int;
        let z = (c - 1) % CHUNK_SIZE as int;
        assert forall|i: int, k: int|
            0 <= i < CHUNK_SIZE && 0 <= k < CHUNK_SIZE && i * CHUNK_SIZE + k
                < c implies #[trigger] terrain_fold(b0, heights, rolls, c)(i, 0, k)
            == BlockType::Bedrock by {
            if !(i == x && k == z) {
                assert(i * CHUNK_SIZE + k != c - 1) by (nonlinear_arith)
                    requires
                        x == (c - 1) / 16,
                        z == (c - 1) % 16,
                        0 <= k < 16,
                        c >= 1,
                        !(i == x && k == z),
                ;
            }
        }
    }
}

/// Every generated chunk has a bedrock floor: the bottom block of each column is
/// bedrock, whatever the heights and the tree rolls.
pub proof fn lemma_generated_floor_is_bedrock(
    b0: spec_fn(int, int, int) -> BlockType,
    heights: Seq<Seq<i32>>,
    rolls: Seq<Seq<bool>>,
)
    ensures
        forall|i: int, k: int|
            0 <= i < CHUNK_SIZE && 0 <= k < CHUNK_SIZE ==> #[trigger] terrain_fold(
                b0,
                heights,
                rolls,
                (CHUNK_SIZE * CHUNK_SIZE) as nat,
            )(i, 0, k) == BlockType::Bedrock,
{
    lemma_fold_floor(b0, heights, rolls, (CHUNK_SIZE * CHUNK_SIZE) as nat);
    assert forall|i: int, k: int| 0 <= i < CHUNK_SIZE && 0 <= k < CHUNK_SIZE implies #[trigger] terrain_fold(
        b0,
        heights,
        rolls,
        (CHUNK_SIZE * CHUNK_SIZE) as nat,
    )(i, 0, k) == BlockType::Bedrock by {
        assert(i * 16 + k < 256) by (nonlinear_arith)
            requires
                0 <= i < 16,
                0 <= k < 16,
        ;
    }
}

/// The integer hash behind the terrain noise, a non-negative `i32`.
pub open spec fn noise_hash(x: i32, z: i32, seed: i32) -> i32 {
    let h0 = x.wrapping_mul(374761393).wrapping_add(z.wrapping_mul(668265263)).wrapping_add(
        seed.wrapping_mul(12345),
    );
    let h1 = (h0 ^ (h0 >> 13u32)).wrapping_mul(1274126177);
    let h2 = h1 ^ (h1 >> 16u32);
    h2 & 0x7FFF_FFFFi32
}

/// Pseudo-random hash of a column and a seed, in 0..=i32::MAX; the terrain noise
/// is this value divided by i32::MAX.
pub fn hash_noise_bits(x: i32, z: i32, seed: i32) -> (r: i32)
    ensures
        r == noise_hash(x, z, seed),
        r >= 0,
{
    let mut h = x.wrapping_mul(374761393).wrapping_add(z.wrapping_mul(668265263)).wrapping_add(
        seed.wrapping_mul(12345),
    );
    h = (h ^ (h >> 13u32)).wrapping_mul(1274126177);
    h = h ^ (h >> 16u32);
    let r = h & 0x7FFF_FFFFi32;
    assert(r >= 0) by (bit_vector)
        requires
            r == h & 0x7FFF_FFFFi32,
    ;
    r
}

/// Whether the neighbour of (x, y, z) in direction (dx, dy, dz) leaves that face of
/// the block visible: it lies outside the chunk or is not solid.
pub open spec fn face_exposed(c: Chunk, x: int, y: int, z: int, dx: int, dy: int, dz: int) -> bool {
    !in_chunk(x + dx, y + dy, z + dz) || !spec_is_solid(block_at(c, x + dx, y + dy, z + dz))
}

/// The faces of the block at (x, y, z) that a mesh draws, in the order top (+y),
/// bottom (-y), front (+z), back (-z), right (+x), left (-x).
pub fn exposed_faces(chunk: &Chunk, x: usize, y: usize, z: usize) -> (r: [bool; 6])
    requires
        in_chunk(x as int, y as int, z as int),
    ensures
        r@[0] == face_exposed(*chunk, x as int, y as int, z as int, 0, 1, 0),
        r@[1] == face_exposed(*chunk, x as int, y as int, z as int, 0, -1, 0),
        r@[2] == face_exposed(*chunk, x as int, y as int, z as int, 0, 0, 1),
        r@[3] == face_exposed(*chunk, x as int, y as int, z as int, 0, 0, -1),
        r@[4] == face_exposed(*chunk, x as int, y as int, z as int, 1, 0, 0),
        r@[5] == face_exposed(*chunk, x as int, y as int, z as int, -1, 0, 0),
{
    let top = y + 1 >= CHUNK_HEIGHT || !chunk.get(x, y + 1, z).is_solid();
    let bottom = y == 0 || !chunk.get(x, y.saturating_sub(1), z).is_solid();
    let front = z + 1 >= CHUNK_SIZE || !chunk.get(x, y, z + 1).is_solid();
    let back = z == 0 || !chunk.get(x, y, z.saturating_sub(1)).is_solid();
    let right = x + 1 >= CHUNK_SIZE || !chunk.get(x + 1, y, z).is_solid();
    let left = x == 0 || !chunk.get(x.saturating_sub(1), y, z).is_solid();
    [top, bottom, front, back, right, left]
}


/// The normal of the face through which a ray passes from cell `prev` into cell
/// `cur`: along the first axis (x, then y, then z) on which the cells differ,
/// pointing back towards `prev`; straight up when they are the same cell.
pub open spec fn entry_normal(prev: Seq<i32>, cur: Seq<i32>) -> Seq<i32> {
    if prev[0] != cur[0] {
        if prev[0] < cur[0] {
            seq![-1i32, 0, 0]
        } else {
            seq![1i32, 0, 0]
        }
    } else if prev[1] != cur[1] {
        if prev[1] < cur[1] {
            seq![0i32, -1i32, 0i32]
        } else {
            seq![0i32, 1, 0]
        }
    } else if prev[2] != cur[2] {
        if prev[2] < cur[2] {
            seq![0i32, 0i32, -1i32]
        } else {
            seq![0i32, 0, 1]
        }
    } else {
        seq![0i32, 1, 0]
    }
}

/// The normal of the block face that a ray hits when it steps from cell `prev`
/// into the solid cell `cur`.
pub fn hit_normal(prev: [i32; 3], cur: [i32; 3]) -> (n: [i32; 3])
    ensures
        n@ == entry_normal(prev@, cur@),
{
    let n = if prev[0] != cur[0] {
        if prev[0] < cur[0] {
            [-1, 0, 0]
        } else {
            [1, 0, 0]
        }
    } else if prev[1] != cur[1] {
        if prev[1] < cur[1] {
            [0, -1, 0]
        } else {
            [0, 1, 0]
        }
    } else if prev[2] != cur[2] {
        if prev[2] < cur[2] {
            [0, 0, -1]
        } else {
            [0, 0, 1]
        }
    } else {
        [0, 1, 0]
    };
    assert(n@ =~= entry_normal(prev@, cur@));
    n
}

/// Where the corners of a face's quad start among a chunk mesh's vertices: face
/// `k` adds four vertices after the `4 * k` of the faces before it, and the
/// vertex count is taken as a `u16`, so it wraps at 65536.
pub open spec fn face_base(k: int) -> int {
    (4 * k) % 0x10000
}

/// The `j`-th of the six triangle indices of face `k`: the quad's corners
/// 0, 1, 2 and 0, 2, 3, counted from the face's base.
pub open spec fn face_index_at(k: int, j: int) -> int {
    face_base(k) + if j == 0 || j == 3 {
        0int
    } else if j == 1 {
        1int
    } else if j == 2 || j == 4 {
        2int
    } else {
        3int
    }
}

/// The triangle indices of a chunk mesh with `faces` quads, six per face in
/// face order. Every index fits in `u16`: a face's base is a multiple of four
/// below 65536.
pub fn face_indices(faces: usize) -> (idx: Vec<u16>)
    requires
        6 * faces <= usize::MAX,
    ensures
        idx@.len() == 6 * faces,
        forall|k: int, j: int|
            0 <= k < faces && 0 <= j < 6 ==> #[trigger] idx@[6 * k + j] as int == face_index_at(k, j),
{
    let mut idx: Vec<u16> = Vec::new();
    let mut k: usize = 0;
    while k < faces
        invariant
            0 <= k <= faces,
            6 * faces <= usize::MAX,
            idx@.len() == 6 * k,
            forall|m: int, j: int|
                0 <= m < k && 0 <= j < 6 ==> #[trigger] idx@[6 * m + j] as int == face_index_at(m, j),
        decreases faces - k,
    {
        let q: usize = k % 16384;
        assert(4 * q == (4 * k) % 0x10000) by (nonlinear_arith)
            requires
                q == k % 16384,
        ;
        let b: u16 = (4 * q) as u16;
        let ghost before = idx@;
        idx.push(b);
        idx.push(b + 1);
        idx.push(b + 2);
        idx.push(b);
        idx.push(b + 2);
        idx.push(b + 3);
        assert forall|m: int, j: int| 0 <= m < k + 1 && 0 <= j < 6 implies #[trigger] idx@[6 * m
            + j] as int == face_index_at(m, j) by {
            if m < k {
                assert(idx@[6 * m + j] == before[6 * m + j]);
            }
        }
        k = k + 1;
    }
    idx
}

} // verus!
