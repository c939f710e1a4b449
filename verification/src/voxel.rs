//! A chunk: a cube of 16 x 16 x 16 voxels at an integer chunk coordinate, and
//! the generator that fills it from the terrain model's samples.

use vstd::prelude::*;
use crate::block::BlockType;
use crate::column::{ColumnProfile, Placement};

verus! {

/// The number of voxels along each edge of a chunk.
pub const CHUNK_SIZE: usize = 16;

/// The number of voxels in a chunk.
pub const CHUNK_VOLUME: usize = 4096;

/// The number of columns in a chunk.
pub const CHUNK_COLUMNS: usize = 256;

/// `(x, y, z)` is a local coordinate of a chunk.
pub open spec fn in_chunk(x: int, y: int, z: int) -> bool {
    0 <= x < 16 && 0 <= y < 16 && 0 <= z < 16
}

/// Where the voxel `(x, y, z)` lies in the flat grid of a chunk.
pub open spec fn cell_index(x: int, y: int, z: int) -> int {
    x * 256 + y * 16 + z
}

/// Where the column `(x, z)` lies in the table of column profiles.
pub open spec fn column_index(x: int, z: int) -> int {
    x * 16 + z
}

/// The world coordinate of the local coordinate `local` in chunk `chunk`.
pub open spec fn world_coord(chunk: i32, local: int) -> int {
    chunk * 16 + local
}

/// The sample tables have one profile per column and one cave flag per voxel.
pub open spec fn samples_fit(columns: Seq<ColumnProfile>, caverns: Seq<bool>) -> bool {
    columns.len() == 256 && caverns.len() == 4096
}

/// What the rules write at the voxel `(x, y, z)` of the chunk at `pos`.
pub open spec fn placement_at(
    pos: (i32, i32, i32),
    columns: Seq<ColumnProfile>,
    caverns: Seq<bool>,
    x: int,
    y: int,
    z: int,
) -> Placement {
    columns[column_index(x, z)].classify(
        world_coord(pos.0, x),
        world_coord(pos.1, y),
        world_coord(pos.2, z),
        caverns[cell_index(x, y, z)],
    )
}

/// A tree is rooted at the voxel `(x, y, z)` of the chunk.
pub open spec fn roots_tree(
    pos: (i32, i32, i32),
    columns: Seq<ColumnProfile>,
    caverns: Seq<bool>,
    x: int,
    y: int,
    z: int,
) -> bool {
    in_chunk(x, y, z) && placement_at(pos, columns, caverns, x, y, z) == Placement::Tree
}

/// The block that the voxel's own column gives it: the block of the rules,
/// or the foot of a trunk where a tree is rooted.
pub open spec fn ground_block(
    pos: (i32, i32, i32),
    columns: Seq<ColumnProfile>,
    caverns: Seq<bool>,
    x: int,
    y: int,
    z: int,
) -> BlockType {
    match placement_at(pos, columns, caverns, x, y, z) {
        Placement::Fill(block) => block,
        Placement::Tree => BlockType::Wood,
    }
}

/// A tree whose canopy reaches the voxel `(x, y, z)` is rooted three levels
/// lower in a neighbouring column that is filled after the voxel's own.
///
/// Columns are filled with `x` ascending and, for one `x`, with `z` ascending.
/// A canopy leaf lands only in an empty voxel, and a column that is filled
/// later writes over whatever a canopy left in it.
pub open spec fn under_canopy(
    pos: (i32, i32, i32),
    columns: Seq<ColumnProfile>,
    caverns: Seq<bool>,
    x: int,
    y: int,
    z: int,
) -> bool {
    ||| roots_tree(pos, columns, caverns, x, y - 3, z + 1)
    ||| roots_tree(pos, columns, caverns, x + 1, y - 3, z - 1)
    ||| roots_tree(pos, columns, caverns, x + 1, y - 3, z)
    ||| roots_tree(pos, columns, caverns, x + 1, y - 3, z + 1)
}

/// The block of the voxel `(x, y, z)` in the generated chunk.
pub open spec fn generated_block(
    pos: (i32, i32, i32),
    columns: Seq<ColumnProfile>,
    caverns: Seq<bool>,
    x: int,
    y: int,
    z: int,
) -> BlockType {
    let ground = ground_block(pos, columns, caverns, x, y, z);
    if ground == BlockType::Air && under_canopy(pos, columns, caverns, x, y, z) {
        BlockType::Leaves
    } else {
        ground
    }
}

/// The grid of the chunk at `pos` that is generated from the given samples.
pub open spec fn generated_blocks(
    pos: (i32, i32, i32),
    columns: Seq<ColumnProfile>,
    caverns: Seq<bool>,
) -> Seq<BlockType> {
    Seq::new(
        4096,
        |i: int| generated_block(pos, columns, caverns, i / 256, (i / 16) % 16, i % 16),
    )
}

/// The place of the voxel `(x, y, z)` in the order in which voxels are filled.
spec fn scan_index(x: int, y: int, z: int) -> int {
    x * 256 + z * 16 + y
}

/// A tree is rooted at `(x, y, z)`, and that voxel is among the first `done`.
spec fn rooted_before(
    done: int,
    pos: (i32, i32, i32),
    columns: Seq<ColumnProfile>,
    caverns: Seq<bool>,
    x: int,
    y: int,
    z: int,
) -> bool {
    roots_tree(pos, columns, caverns, x, y, z) && scan_index(x, y, z) < done
}

/// The block of an already filled voxel once the first `done` are filled.
spec fn settled_block(
    done: int,
    pos: (i32, i32, i32),
    columns: Seq<ColumnProfile>,
    caverns: Seq<bool>,
    x: int,
    y: int,
    z: int,
) -> BlockType {
    let ground = ground_block(pos, columns, caverns, x, y, z);
    let shaded = {
        ||| rooted_before(done, pos, columns, caverns, x, y - 3, z + 1)
        ||| rooted_before(done, pos, columns, caverns, x + 1, y - 3, z - 1)
        ||| rooted_before(done, pos, columns, caverns, x + 1, y - 3, z)
        ||| rooted_before(done, pos, columns, caverns, x + 1, y - 3, z + 1)
    };
    if ground == BlockType::Air && shaded {
        BlockType::Leaves
    } else {
        ground
    }
}

/// The first `done` voxels of the grid are settled.
spec fn filled_to(
    grid: Seq<BlockType>,
    done: int,
    pos: (i32, i32, i32),
    columns: Seq<ColumnProfile>,
    caverns: Seq<bool>,
) -> bool {
    &&& grid.len() == 4096
    &&& forall|x: int, y: int, z: int|
        in_chunk(x, y, z) && scan_index(x, y, z) < done ==> #[trigger] grid[cell_index(x, y, z)]
            == settled_block(done, pos, columns, caverns, x, y, z)
}

/// The block at `(a, b, c)` after a tree has been planted at `(x, y, z)`: a
/// trunk of four, a leaf on top of it, and leaves in the empty voxels around
/// the trunk's fourth level.
spec fn planted_block(grid: Seq<BlockType>, x: int, y: int, z: int, a: int, b: int, c: int)
    -> BlockType {
    if a == x && c == z && y <= b < y + 4 {
        BlockType::Wood
    } else if a == x && c == z && b == y + 4 {
        BlockType::Leaves
    } else if b == y + 3 && x - 1 <= a <= x + 1 && z - 1 <= c <= z + 1 && grid[cell_index(
        a,
        b,
        c,
    )] == BlockType::Air {
        BlockType::Leaves
    } else {
        grid[cell_index(a, b, c)]
    }
}

/// The grid is `before` with a tree planted at `(x, y, z)`.
spec fn planted(after: Seq<BlockType>, before: Seq<BlockType>, x: int, y: int, z: int) -> bool {
    &&& after.len() == 4096
    &&& forall|a: int, b: int, c: int|
        in_chunk(a, b, c) ==> #[trigger] after[cell_index(a, b, c)] == planted_block(
            before,
            x,
            y,
            z,
            a,
            b,
            c,
        )
}

/// Filling one voxel by the rules settles it and leaves the others settled.
proof fn lemma_fill_step(
    grid: Seq<BlockType>,
    pos: (i32, i32, i32),
    columns: Seq<ColumnProfile>,
    caverns: Seq<bool>,
    x: int,
    y: int,
    z: int,
    block: BlockType,
)
    requires
        in_chunk(x, y, z),
        filled_to(grid, scan_index(x, y, z), pos, columns, caverns),
        placement_at(pos, columns, caverns, x, y, z) == Placement::Fill(block),
    ensures
        filled_to(
            grid.update(cell_index(x, y, z), block),
            scan_index(x, y, z) + 1,
            pos,
            columns,
            caverns,
        ),
{
    let done = scan_index(x, y, z);
    let next = grid.update(cell_index(x, y, z), block);
    assert forall|a: int, b: int, c: int| in_chunk(a, b, c) && scan_index(a, b, c) < done + 1
    implies #[trigger] next[cell_index(a, b, c)] == settled_block(
        done + 1,
        pos,
        columns,
        caverns,
        a,
        b,
        c,
    ) by {
        if a == x && b == y && c == z {
        } else {
            assert(cell_index(a, b, c) != cell_index(x, y, z));
            assert(scan_index(a, b, c) != done);
            assert(grid[cell_index(a, b, c)] == settled_block(done, pos, columns, caverns, a, b, c));
        }
    }
}

/// Planting a tree settles its foot and leaves the others settled.
proof fn lemma_tree_step(
    grid: Seq<BlockType>,
    next: Seq<BlockType>,
    pos: (i32, i32, i32),
    columns: Seq<ColumnProfile>,
    caverns: Seq<bool>,
    x: int,
    y: int,
    z: int,
)
    requires
        in_chunk(x, y, z),
        filled_to(grid, scan_index(x, y, z), pos, columns, caverns),
        placement_at(pos, columns, caverns, x, y, z) == Placement::Tree,
        planted(next, grid, x, y, z),
    ensures
        filled_to(next, scan_index(x, y, z) + 1, pos, columns, caverns),
{
    let done = scan_index(x, y, z);
    assert(roots_tree(pos, columns, caverns, x, y, z));
    assert forall|a: int, b: int, c: int| in_chunk(a, b, c) && scan_index(a, b, c) < done + 1
    implies #[trigger] next[cell_index(a, b, c)] == settled_block(
        done + 1,
        pos,
        columns,
        caverns,
        a,
        b,
        c,
    ) by {
        let planted_here = planted_block(grid, x, y, z, a, b, c);
        assert(next[cell_index(a, b, c)] == planted_here);
        if a == x && b == y && c == z {
            assert(planted_here == BlockType::Wood);
            assert(ground_block(pos, columns, caverns, a, b, c) == BlockType::Wood);
        } else {
            assert(scan_index(a, b, c) != done);
            let was = settled_block(done, pos, columns, caverns, a, b, c);
            let now = settled_block(done + 1, pos, columns, caverns, a, b, c);
            let ground = ground_block(pos, columns, caverns, a, b, c);
            assert(grid[cell_index(a, b, c)] == was);
            // The voxel's column comes before the tree's, or is the tree's own
            // at a lower level: the trunk does not reach it.
            assert(!(a == x && c == z && y <= b));
            let near = b == y + 3 && x - 1 <= a <= x + 1 && z - 1 <= c <= z + 1;
            if near {
                assert(a * 16 + c < x * 16 + z);
                assert(rooted_before(done + 1, pos, columns, caverns, x, b - 3, z));
                assert((x == a && z == c + 1) || (x == a + 1 && z == c - 1) || (x == a + 1 && z
                    == c) || (x == a + 1 && z == c + 1));
                if was == BlockType::Air {
                    assert(ground == BlockType::Air);
                    assert(now == BlockType::Leaves);
                } else {
                    assert(now == was);
                }
            } else {
                assert(planted_here == was);
                assert(now == was);
            }
        }
    }
}

/// Once every voxel is filled, the settled blocks are the generated ones.
proof fn lemma_filled_is_generated(
    grid: Seq<BlockType>,
    pos: (i32, i32, i32),
    columns: Seq<ColumnProfile>,
    caverns: Seq<bool>,
)
    requires
        filled_to(grid, 4096, pos, columns, caverns),
    ensures
        grid == generated_blocks(pos, columns, caverns),
{
    let target = generated_blocks(pos, columns, caverns);
    assert forall|i: int| 0 <= i < 4096 implies grid[i] == target[i] by {
        let x = i / 256;
        let y = (i / 16) % 16;
        let z = i % 16;
        assert(i == cell_index(x, y, z));
        assert(in_chunk(x, y, z));
        assert(scan_index(x, y, z) < 4096);
        assert(grid[cell_index(x, y, z)] == settled_block(4096, pos, columns, caverns, x, y, z));
    }
    assert(grid =~= target);
}

/// The block at `(a, b, c)` once the lowest `k` levels of a tree at
/// `(x, y, z)` have been written.
spec fn trunk_block(
    grid: Seq<BlockType>,
    x: int,
    y: int,
    z: int,
    k: int,
    a: int,
    b: int,
    c: int,
) -> BlockType {
    if a == x && c == z && y <= b < y + k {
        if b < y + 4 {
            BlockType::Wood
        } else {
            BlockType::Leaves
        }
    } else {
        grid[cell_index(a, b, c)]
    }
}

/// The block at `(a, b, c)` once the trunk of a tree at `(x, y, z)` stands
/// and the first `n` of the nine places around its fourth level were visited.
spec fn canopy_block(
    grid: Seq<BlockType>,
    x: int,
    y: int,
    z: int,
    n: int,
    a: int,
    b: int,
    c: int,
) -> BlockType {
    let trunk = trunk_block(grid, x, y, z, 5, a, b, c);
    if b == y + 3 && x - 1 <= a <= x + 1 && z - 1 <= c <= z + 1 && !(a == x && c == z) && (a - x
        + 1) * 3 + (c - z + 1) < n && trunk == BlockType::Air {
        BlockType::Leaves
    } else {
        trunk
    }
}

/// A grid of empty voxels.
fn empty_grid() -> (blocks: Vec<BlockType>)
    ensures
        blocks@.len() == 4096,
        forall|i: int| 0 <= i < 4096 ==> blocks@[i] == BlockType::Air,
{
    let mut blocks: Vec<BlockType> = Vec::with_capacity(CHUNK_VOLUME);
    let mut i: usize = 0;
    while i < CHUNK_VOLUME
        invariant
            i <= 4096,
            blocks@.len() == i,
            forall|j: int| 0 <= j < i ==> blocks@[j] == BlockType::Air,
        decreases 4096 - i,
    {
        blocks.push(BlockType::Air);
        i = i + 1;
    }
    blocks
}

/// Plants a tree at `(x, y, z)`: four levels of wood, a leaf above them, and
/// leaves in the empty voxels around the fourth level. What would fall
/// outside the chunk is left out.
fn plant_tree(blocks: &mut Vec<BlockType>, x: usize, y: usize, z: usize)
    requires
        old(blocks)@.len() == 4096,
        x < 16,
        y < 16,
        z < 16,
    ensures
        planted(final(blocks)@, old(blocks)@, x as int, y as int, z as int),
{
    let ghost before = blocks@;
    let mut k: usize = 0;
    while k < 5
        invariant
            k <= 5,
            x < 16,
            y < 16,
            z < 16,
            blocks@.len() == 4096,
            forall|a: int, b: int, c: int|
                in_chunk(a, b, c) ==> #[trigger] blocks@[cell_index(a, b, c)] == trunk_block(
                    before,
                    x as int,
                    y as int,
                    z as int,
                    k as int,
                    a,
                    b,
                    c,
                ),
        decreases 5 - k,
    {
        if y + k < CHUNK_SIZE {
            let block = if k < 4 {
                BlockType::Wood
            } else {
                BlockType::Leaves
            };
            let ghost stage = blocks@;
            blocks.set(x * 256 + (y + k) * 16 + z, block);
            proof {
                assert forall|a: int, b: int, c: int| in_chunk(a, b, c) implies #[trigger] blocks@[cell_index(
                    a,
                    b,
                    c,
                )] == trunk_block(before, x as int, y as int, z as int, k + 1, a, b, c) by {
                    assert(stage[cell_index(a, b, c)] == trunk_block(
                        before,
                        x as int,
                        y as int,
                        z as int,
                        k as int,
                        a,
                        b,
                        c,
                    ));
                }
            }
        }
        k = k + 1;
    }
    if y + 3 < CHUNK_SIZE {
        let mut n: usize = 0;
        while n < 9
            invariant
                n <= 9,
                x < 16,
                y < 13,
                z < 16,
                blocks@.len() == 4096,
                forall|a: int, b: int, c: int|
                    in_chunk(a, b, c) ==> #[trigger] blocks@[cell_index(a, b, c)] == canopy_block(
                        before,
                        x as int,
                        y as int,
                        z as int,
                        n as int,
                        a,
                        b,
                        c,
                    ),
            decreases 9 - n,
        {
            let dx: usize = n / 3;
            let dz: usize = n % 3;
            let ghost stage = blocks@;
            if n != 4 && 1 <= x + dx && x + dx <= CHUNK_SIZE && 1 <= z + dz && z + dz
                <= CHUNK_SIZE {
                let index: usize = (x + dx - 1) * 256 + (y + 3) * 16 + (z + dz - 1);
                assert(index == cell_index(x + dx - 1, y + 3, z + dz - 1));
                assert(in_chunk(x + dx - 1, y + 3, z + dz - 1));
                if blocks[index] == BlockType::Air {
                    blocks.set(index, BlockType::Leaves);
                }
            }
            proof {
                assert forall|a: int, b: int, c: int| in_chunk(a, b, c) implies #[trigger] blocks@[cell_index(
                    a,
                    b,
                    c,
                )] == canopy_block(before, x as int, y as int, z as int, n + 1, a, b, c) by {
                    assert(stage[cell_index(a, b, c)] == canopy_block(
                        before,
                        x as int,
                        y as int,
                        z as int,
                        n as int,
                        a,
                        b,
                        c,
                    ));
                    if (a - x + 1) * 3 + (c - z + 1) == n && x - 1 <= a <= x + 1 && z - 1 <= c <= z
                        + 1 {
                        assert(a - x + 1 == dx && c - z + 1 == dz);
                    }
                }
            }
            n = n + 1;
        }
    }
}

/// The samples of the columns of the chunk at `pos` are answers of
/// `column_fn` under `params`.
pub open spec fn columns_sampled<P, F: Fn(i64, i64, &P) -> ColumnProfile>(
    column_fn: &F,
    params: &P,
    pos: (i32, i32, i32),
    columns: Seq<ColumnProfile>,
) -> bool {
    &&& columns.len() == 256
    &&& forall|x: int, z: int|
        0 <= x < 16 && 0 <= z < 16 ==> call_ensures(
            *column_fn,
            (world_coord(pos.0, x) as i64, world_coord(pos.2, z) as i64, params),
            #[trigger] columns[column_index(x, z)],
        )
}

/// The cave flags of the voxels of the chunk at `pos` are answers of
/// `cave_fn` under `params`.
pub open spec fn caverns_sampled<P, H: Fn(i64, i64, i64, &P) -> bool>(
    cave_fn: &H,
    params: &P,
    pos: (i32, i32, i32),
    caverns: Seq<bool>,
) -> bool {
    &&& caverns.len() == 4096
    &&& forall|x: int, y: int, z: int|
        in_chunk(x, y, z) ==> call_ensures(
            *cave_fn,
            (
                world_coord(pos.0, x) as i64,
                world_coord(pos.1, y) as i64,
                world_coord(pos.2, z) as i64,
                params,
            ),
            #[trigger] caverns[cell_index(x, y, z)],
        )
}

/// `grid` is the chunk at `pos` generated from some answers of the two
/// samplers under `params`.
pub open spec fn sampled_blocks<
    P,
    F: Fn(i64, i64, &P) -> ColumnProfile,
    H: Fn(i64, i64, i64, &P) -> bool,
>(grid: Seq<BlockType>, pos: (i32, i32, i32), params: &P, column_fn: &F, cave_fn: &H) -> bool {
    exists|columns: Seq<ColumnProfile>, caverns: Seq<bool>|
        {
            &&& columns_sampled(column_fn, params, pos, columns)
            &&& caverns_sampled(cave_fn, params, pos, caverns)
            &&& grid == #[trigger] generated_blocks(pos, columns, caverns)
        }
}

/// The column sampler gives one answer to each question.
pub open spec fn column_sampler_deterministic<P, F: Fn(i64, i64, &P) -> ColumnProfile>(
    column_fn: &F,
) -> bool {
    forall|x: i64, z: i64, params: &P, one: ColumnProfile, two: ColumnProfile|
        call_ensures(*column_fn, (x, z, params), one) && call_ensures(
            *column_fn,
            (x, z, params),
            two,
        ) ==> one == two
}

/// The cave sampler gives one answer to each question.
pub open spec fn cave_sampler_deterministic<P, H: Fn(i64, i64, i64, &P) -> bool>(
    cave_fn: &H,
) -> bool {
    forall|x: i64, y: i64, z: i64, params: &P, one: bool, two: bool|
        call_ensures(*cave_fn, (x, y, z, params), one) && call_ensures(
            *cave_fn,
            (x, y, z, params),
            two,
        ) ==> one == two
}

/// With samplers that give one answer to each question, the blocks of the
/// chunk at `pos` under `params` are determined: any two chunks generated
/// there hold the same blocks.
pub proof fn lemma_sampled_blocks_unique<
    P,
    F: Fn(i64, i64, &P) -> ColumnProfile,
    H: Fn(i64, i64, i64, &P) -> bool,
>(
    one: Seq<BlockType>,
    two: Seq<BlockType>,
    pos: (i32, i32, i32),
    params: &P,
    column_fn: &F,
    cave_fn: &H,
)
    requires
        column_sampler_deterministic(column_fn),
        cave_sampler_deterministic(cave_fn),
        sampled_blocks(one, pos, params, column_fn, cave_fn),
        sampled_blocks(two, pos, params, column_fn, cave_fn),
    ensures
        one == two,
{
    let (columns_one, caverns_one) = choose|columns: Seq<ColumnProfile>, caverns: Seq<bool>|
        {
            &&& columns_sampled(column_fn, params, pos, columns)
            &&& caverns_sampled(cave_fn, params, pos, caverns)
            &&& one == #[trigger] generated_blocks(pos, columns, caverns)
        };
    let (columns_two, caverns_two) = choose|columns: Seq<ColumnProfile>, caverns: Seq<bool>|
        {
            &&& columns_sampled(column_fn, params, pos, columns)
            &&& caverns_sampled(cave_fn, params, pos, caverns)
            &&& two == #[trigger] generated_blocks(pos, columns, caverns)
        };
    assert forall|i: int| 0 <= i < 256 implies columns_one[i] == columns_two[i] by {
        let x = i / 16;
        let z = i % 16;
        assert(i == column_index(x, z));
        assert(call_ensures(
            *column_fn,
            (world_coord(pos.0, x) as i64, world_coord(pos.2, z) as i64, params),
            columns_one[column_index(x, z)],
        ));
        assert(call_ensures(
            *column_fn,
            (world_coord(pos.0, x) as i64, world_coord(pos.2, z) as i64, params),
            columns_two[column_index(x, z)],
        ));
    }
    assert forall|i: int| 0 <= i < 4096 implies caverns_one[i] == caverns_two[i] by {
        let x = i / 256;
        let y = (i / 16) % 16;
        let z = i % 16;
        assert(i == cell_index(x, y, z));
        assert(in_chunk(x, y, z));
        assert(call_ensures(
            *cave_fn,
            (
                world_coord(pos.0, x) as i64,
                world_coord(pos.1, y) as i64,
                world_coord(pos.2, z) as i64,
                params,
            ),
            caverns_one[cell_index(x, y, z)],
        ));
        assert(call_ensures(
            *cave_fn,
            (
                world_coord(pos.0, x) as i64,
                world_coord(pos.1, y) as i64,
                world_coord(pos.2, z) as i64,
                params,
            ),
            caverns_two[cell_index(x, y, z)],
        ));
    }
    assert(columns_one =~= columns_two);
    assert(caverns_one =~= caverns_two);
}

/// One of the six faces of a voxel.
#[derive(Clone, Copy, Debug, PartialEq, Eq, Structural)]
pub enum Face {
    Top,
    Bottom,
    Left,
    Right,
    Front,
    Back,
}

impl Face {
    /// The outward direction of the face: a unit step along one axis.
    pub open spec fn direction(self) -> (int, int, int) {
        match self {
            Face::Top => (0, 1, 0),
            Face::Bottom => (0, -1, 0),
            Face::Left => (-1, 0, 0),
            Face::Right => (1, 0, 0),
            Face::Front => (0, 0, 1),
            Face::Back => (0, 0, -1),
        }
    }
}

/// The face `face` of the voxel `(x, y, z)` of `grid` is drawn: the voxel is
/// not empty, and the voxel that the face looks at is empty or lies outside
/// the chunk.
pub open spec fn face_visible(grid: Seq<BlockType>, x: int, y: int, z: int, face: Face) -> bool {
    let (dx, dy, dz) = face.direction();
    &&& grid[cell_index(x, y, z)] != BlockType::Air
    &&& (!in_chunk(x + dx, y + dy, z + dz) || grid[cell_index(x + dx, y + dy, z + dz)]
        == BlockType::Air)
}

/// A cube of 16 x 16 x 16 voxels and the chunk coordinate at which it lies.
pub struct VoxelChunk {
    blocks: Vec<BlockType>,
    position: (i32, i32, i32),
}

impl View for VoxelChunk {
    type V = Seq<BlockType>;

    /// The blocks of the chunk, the voxel `(x, y, z)` at `cell_index(x, y, z)`.
    closed spec fn view(&self) -> Seq<BlockType> {
        self.blocks@
    }
}

impl VoxelChunk {
    #[verifier::type_invariant]
    spec fn well_formed(&self) -> bool {
        self.blocks@.len() == 4096
    }

    /// The chunk coordinate at which the chunk lies.
    pub closed spec fn coordinate(&self) -> (i32, i32, i32) {
        self.position
    }

    /// The block of the voxel `(x, y, z)`.
    pub open spec fn block_at(&self, x: int, y: int, z: int) -> BlockType {
        self@[cell_index(x, y, z)]
    }

    /// Generates the chunk at `(chunk_x, chunk_y, chunk_z)` from one profile
    /// per column, the column `(x, z)` at `x * 16 + z`, and one cave flag per
    /// voxel, the voxel `(x, y, z)` at `x * 256 + y * 16 + z`.
    ///
    /// Voxels are filled column by column, `x` ascending, then `z`, then `y`.
    pub fn from_samples(
        chunk_x: i32,
        chunk_y: i32,
        chunk_z: i32,
        columns: &Vec<ColumnProfile>,
        caverns: &Vec<bool>,
    ) -> (chunk: VoxelChunk)
        requires
            samples_fit(columns@, caverns@),
        ensures
            chunk@ == generated_blocks((chunk_x, chunk_y, chunk_z), columns@, caverns@),
            chunk.coordinate() == (chunk_x, chunk_y, chunk_z),
    {
        let ghost pos = (chunk_x, chunk_y, chunk_z);
        let base_x: i64 = chunk_x as i64 * 16;
        let base_y: i64 = chunk_y as i64 * 16;
        let base_z: i64 = chunk_z as i64 * 16;
        let mut blocks = empty_grid();
        let mut x: usize = 0;
        while x < CHUNK_SIZE
            invariant
                x <= 16,
                samples_fit(columns@, caverns@),
                base_x == chunk_x * 16,
                base_y == chunk_y * 16,
                base_z == chunk_z * 16,
                pos == (chunk_x, chunk_y, chunk_z),
                filled_to(blocks@, scan_index(x as int, 0, 0), pos, columns@, caverns@),
            decreases 16 - x,
        {
            let mut z: usize = 0;
            while z < CHUNK_SIZE
                invariant
                    x < 16,
                    z <= 16,
                    samples_fit(columns@, caverns@),
                    base_x == chunk_x * 16,
                    base_y == chunk_y * 16,
                    base_z == chunk_z * 16,
                    pos == (chunk_x, chunk_y, chunk_z),
                    filled_to(blocks@, scan_index(x as int, 0, z as int), pos, columns@, caverns@),
                decreases 16 - z,
            {
                let profile = columns[x * 16 + z];
                let mut y: usize = 0;
                while y < CHUNK_SIZE
                    invariant
                        x < 16,
                        z < 16,
                        y <= 16,
                        samples_fit(columns@, caverns@),
                        base_x == chunk_x * 16,
                        base_y == chunk_y * 16,
                        base_z == chunk_z * 16,
                        pos == (chunk_x, chunk_y, chunk_z),
                        profile == columns@[column_index(x as int, z as int)],
                        filled_to(
                            blocks@,
                            scan_index(x as int, y as int, z as int),
                            pos,
                            columns@,
                            caverns@,
                        ),
                    decreases 16 - y,
                {
                    let index: usize = x * 256 + y * 16 + z;
                    let cavern = caverns[index];
                    let ghost before = blocks@;
                    match profile.place(
                        base_x + x as i64,
                        base_y + y as i64,
                        base_z + z as i64,
                        cavern,
                    ) {
                        Placement::Fill(block) => {
                            blocks.set(index, block);
                            proof {
                                lemma_fill_step(
                                    before,
                                    pos,
                                    columns@,
                                    caverns@,
                                    x as int,
                                    y as int,
                                    z as int,
                                    block,
                                );
                            }
                        },
                        Placement::Tree => {
                            plant_tree(&mut blocks, x, y, z);
                            proof {
                                lemma_tree_step(
                                    before,
                                    blocks@,
                                    pos,
                                    columns@,
                                    caverns@,
                                    x as int,
                                    y as int,
                                    z as int,
                                );
                            }
                        },
                    }
                    y = y + 1;
                }
                z = z + 1;
            }
            x = x + 1;
        }
        proof {
            lemma_filled_is_generated(blocks@, pos, columns@, caverns@);
        }
        VoxelChunk { blocks, position: (chunk_x, chunk_y, chunk_z) }
    }

    /// Generates the chunk at `(chunk_x, chunk_y, chunk_z)` under `params`.
    /// `column_fn` answers for a column of the world, `cave_fn` says of a
    /// voxel whether its cave density is above the threshold. Each column and
    /// each voxel of the chunk is asked about once, by its world coordinates.
    pub fn new_with_terrain_params<P, F, H>(
        chunk_x: i32,
        chunk_y: i32,
        chunk_z: i32,
        params: &P,
        column_fn: &F,
        cave_fn: &H,
    ) -> (chunk: VoxelChunk) where
        F: Fn(i64, i64, &P) -> ColumnProfile,
        H: Fn(i64, i64, i64, &P) -> bool,

        requires
            forall|x: i64, z: i64| call_requires(*column_fn, (x, z, params)),
            forall|x: i64, y: i64, z: i64| call_requires(*cave_fn, (x, y, z, params)),
        ensures
            sampled_blocks(chunk@, (chunk_x, chunk_y, chunk_z), params, column_fn, cave_fn),
            chunk.coordinate() == (chunk_x, chunk_y, chunk_z),
    {
        let ghost pos = (chunk_x, chunk_y, chunk_z);
        let base_x: i64 = chunk_x as i64 * 16;
        let base_y: i64 = chunk_y as i64 * 16;
        let base_z: i64 = chunk_z as i64 * 16;
        let mut columns: Vec<ColumnProfile> = Vec::with_capacity(CHUNK_COLUMNS);
        let mut caverns: Vec<bool> = Vec::with_capacity(CHUNK_VOLUME);
        let mut x: usize = 0;
        while x < CHUNK_SIZE
            invariant
                x <= 16,
                base_x == chunk_x * 16,
                base_y == chunk_y * 16,
                base_z == chunk_z * 16,
                pos == (chunk_x, chunk_y, chunk_z),
                forall|a: i64, c: i64| call_requires(*column_fn, (a, c, params)),
                forall|a: i64, b: i64, c: i64| call_requires(*cave_fn, (a, b, c, params)),
                columns@.len() == x * 16,
                caverns@.len() == x * 256,
                forall|a: int, c: int|
                    0 <= a < x && 0 <= c < 16 ==> call_ensures(
                        *column_fn,
                        (world_coord(pos.0, a) as i64, world_coord(pos.2, c) as i64, params),
                        #[trigger] columns@[column_index(a, c)],
                    ),
                forall|a: int, b: int, c: int|
                    in_chunk(a, b, c) && a < x ==> call_ensures(
                        *cave_fn,
                        (
                            world_coord(pos.0, a) as i64,
                            world_coord(pos.1, b) as i64,
                            world_coord(pos.2, c) as i64,
                            params,
                        ),
                        #[trigger] caverns@[cell_index(a, b, c)],
                    ),
            decreases 16 - x,
        {
            let mut z: usize = 0;
            while z < CHUNK_SIZE
                invariant
                    x < 16,
                    z <= 16,
                    base_x == chunk_x * 16,
                    base_z == chunk_z * 16,
                    pos == (chunk_x, chunk_y, chunk_z),
                    forall|a: i64, c: i64| call_requires(*column_fn, (a, c, params)),
                    columns@.len() == x * 16 + z,
                    forall|a: int, c: int|
                        0 <= a < 16 && 0 <= c < 16 && column_index(a, c) < x * 16 + z
                            ==> call_ensures(
                            *column_fn,
                            (world_coord(pos.0, a) as i64, world_coord(pos.2, c) as i64, params),
                            #[trigger] columns@[column_index(a, c)],
                        ),
                decreases 16 - z,
            {
                let profile = column_fn(base_x + x as i64, base_z + z as i64, params);
                let ghost stage = columns@;
                columns.push(profile);
                proof {
                    assert forall|a: int, c: int|
                        0 <= a < 16 && 0 <= c < 16 && column_index(a, c) < x * 16 + z + 1
                    implies call_ensures(
                        *column_fn,
                        (world_coord(pos.0, a) as i64, world_coord(pos.2, c) as i64, params),
                        #[trigger] columns@[column_index(a, c)],
                    ) by {
                        if column_index(a, c) < x * 16 + z {
                            assert(columns@[column_index(a, c)] == stage[column_index(a, c)]);
                        } else {
                            assert(a == x && c == z);
                        }
                    }
                }
                z = z + 1;
            }
            let mut n: usize = 0;
            while n < 256
                invariant
                    x < 16,
                    n <= 256,
                    base_x == chunk_x * 16,
                    base_y == chunk_y * 16,
                    base_z == chunk_z * 16,
                    pos == (chunk_x, chunk_y, chunk_z),
                    forall|a: i64, b: i64, c: i64| call_requires(*cave_fn, (a, b, c, params)),
                    caverns@.len() == x * 256 + n,
                    forall|a: int, b: int, c: int|
                        in_chunk(a, b, c) && cell_index(a, b, c) < x * 256 + n ==> call_ensures(
                            *cave_fn,
                            (
                                world_coord(pos.0, a) as i64,
                                world_coord(pos.1, b) as i64,
                                world_coord(pos.2, c) as i64,
                                params,
                            ),
                            #[trigger] caverns@[cell_index(a, b, c)],
                        ),
                decreases 256 - n,
            {
                let y: usize = n / 16;
                let z: usize = n % 16;
                let cavern = cave_fn(base_x + x as i64, base_y + y as i64, base_z + z as i64, params);
                let ghost stage = caverns@;
                caverns.push(cavern);
                proof {
                    assert forall|a: int, b: int, c: int|
                        in_chunk(a, b, c) && cell_index(a, b, c) < x * 256 + n + 1
                    implies call_ensures(
                        *cave_fn,
                        (
                            world_coord(pos.0, a) as i64,
                            world_coord(pos.1, b) as i64,
                            world_coord(pos.2, c) as i64,
                            params,
                        ),
                        #[trigger] caverns@[cell_index(a, b, c)],
                    ) by {
                        if cell_index(a, b, c) < x * 256 + n {
                            assert(caverns@[cell_index(a, b, c)] == stage[cell_index(a, b, c)]);
                        } else {
                            assert(a == x && b == y && c == z);
                        }
                    }
                }
                n = n + 1;
            }
            x = x + 1;
        }
        let chunk = VoxelChunk::from_samples(chunk_x, chunk_y, chunk_z, &columns, &caverns);
        proof {
            assert(columns_sampled(column_fn, params, pos, columns@));
            assert(caverns_sampled(cave_fn, params, pos, caverns@));
            assert(chunk@ == generated_blocks(pos, columns@, caverns@));
        }
        chunk
    }

    /// The chunk coordinate at which the chunk lies.
    pub fn position(&self) -> (pos: (i32, i32, i32))
        ensures
            pos == self.coordinate(),
    {
        self.position
    }

    /// The block of the voxel `(x, y, z)`.
    pub fn get_block(&self, x: usize, y: usize, z: usize) -> (block: BlockType)
        requires
            x < 16,
            y < 16,
            z < 16,
        ensures
            block == self.block_at(x as int, y as int, z as int),
    {
        proof {
            use_type_invariant(self);
        }
        self.blocks[x * 256 + y * 16 + z]
    }
    /// Whether the face `face` of the voxel `(x, y, z)` is drawn. A face on
    /// the boundary of the chunk is drawn whatever lies beyond it.
    pub fn is_face_visible(&self, x: usize, y: usize, z: usize, face: Face) -> (visible: bool)
        requires
            x < 16,
            y < 16,
            z < 16,
        ensures
            visible == face_visible(self@, x as int, y as int, z as int, face),
    {
        if self.get_block(x, y, z) == BlockType::Air {
            return false;
        }
        match face {
            Face::Top => y == 15 || self.get_block(x, y + 1, z) == BlockType::Air,
            Face::Bottom => y == 0 || self.get_block(x, y - 1, z) == BlockType::Air,
            Face::Left => x == 0 || self.get_block(x - 1, y, z) == BlockType::Air,
            Face::Right => x == 15 || self.get_block(x + 1, y, z) == BlockType::Air,
            Face::Front => z == 15 || self.get_block(x, y, z + 1) == BlockType::Air,
            Face::Back => z == 0 || self.get_block(x, y, z - 1) == BlockType::Air,
        }
    }
}

} // verus!
