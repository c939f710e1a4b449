//! The terrain generator: the window of chunks around the viewer, the cache
//! of generated chunks, and the mesh of the whole window.

use std::collections::HashMap;
use vstd::prelude::*;
use vstd::arithmetic::div_mod::{lemma_div_denominator, lemma_fundamental_div_mod_converse};
use crate::block::BlockType;
use crate::column::ColumnProfile;
use crate::mesh::{
    chunk_quads, lemma_chunk_quads_len, lemma_mesh_of_concat, lemma_mesh_valid, mesh_of,
    valid_mesh, vertex_count, winding, Mesh, Quad,
};
use crate::voxel::{
    cave_sampler_deterministic, column_sampler_deterministic, lemma_sampled_blocks_unique,
    sampled_blocks, VoxelChunk,
};

verus! {

/// The least render distance.
pub const MIN_RENDER_DISTANCE: i32 = 1;

/// The greatest render distance.
pub const MAX_RENDER_DISTANCE: i32 = 5;

/// The coordinate of the chunk that holds the voxel coordinate `voxel`.
pub open spec fn chunk_of(voxel: i32) -> int {
    voxel as int / 16
}

/// A render distance brought into the range from 1 to 5.
pub open spec fn clamped_distance(distance: i32) -> i32 {
    if distance < 1 {
        1
    } else if distance > 5 {
        5
    } else {
        distance
    }
}

/// The chunks around the viewer at voxel `camera` that are drawn at render
/// distance `distance`: those at most `distance` chunks away along `x` and
/// `z` and at most `distance + 1` along `y`, with `x` ascending, then `y`,
/// then `z`.
pub open spec fn visible_window(camera: (i32, i32, i32), distance: int) -> Seq<(i32, i32, i32)> {
    let width = 2 * distance + 1;
    let height = 2 * distance + 3;
    Seq::new(
        (width * height * width) as nat,
        |i: int|
            (
                (chunk_of(camera.0) - distance + i / (height * width)) as i32,
                (chunk_of(camera.1) - (distance + 1) + (i / width) % height) as i32,
                (chunk_of(camera.2) - distance + i % width) as i32,
            ),
    )
}

/// The quads of the chunks at `positions`, chunk after chunk.
pub open spec fn window_quads(
    chunks: Map<(i32, i32, i32), Seq<BlockType>>,
    positions: Seq<(i32, i32, i32)>,
) -> Seq<Quad>
    decreases positions.len(),
{
    if positions.len() == 0 {
        Seq::empty()
    } else {
        window_quads(chunks, positions.drop_last()) + chunk_quads(
            chunks[positions.last()],
            positions.last(),
        )
    }
}

/// `after` is the cache `before` once the chunks at `positions` were asked
/// for: it holds those and what `before` held, what `before` held is
/// unchanged, and each new chunk was generated from answers of the two
/// samplers under `params`.
pub open spec fn cache_filled<
    P,
    F: Fn(i64, i64, &P) -> ColumnProfile,
    H: Fn(i64, i64, i64, &P) -> bool,
>(
    before: Map<(i32, i32, i32), Seq<BlockType>>,
    after: Map<(i32, i32, i32), Seq<BlockType>>,
    positions: Seq<(i32, i32, i32)>,
    params: &P,
    column_fn: &F,
    cave_fn: &H,
) -> bool {
    &&& forall|pos: (i32, i32, i32)| #[trigger]
        after.contains_key(pos) <==> before.contains_key(pos) || positions.contains(pos)
    &&& forall|pos: (i32, i32, i32)| #[trigger]
        before.contains_key(pos) ==> after[pos] == before[pos]
    &&& forall|pos: (i32, i32, i32)| #[trigger]
        after.contains_key(pos) && !before.contains_key(pos) ==> sampled_blocks(
            after[pos],
            pos,
            params,
            column_fn,
            cave_fn,
        )
}

/// The key under which the chunk at `pos` is cached.
spec fn chunk_key(pos: (i32, i32, i32)) -> u128 {
    ((pos.0 + 0x8000_0000) * 0x1_0000_0000_0000_0000 + (pos.1 + 0x8000_0000) * 0x1_0000_0000 + (
    pos.2 + 0x8000_0000)) as u128
}

/// Distinct chunk coordinates have distinct keys.
proof fn lemma_chunk_key_injective(p: (i32, i32, i32), q: (i32, i32, i32))
    requires
        chunk_key(p) == chunk_key(q),
    ensures
        p == q,
{
}

/// The key under which the chunk at `pos` is cached.
fn key_of(pos: (i32, i32, i32)) -> (key: u128)
    ensures
        key == chunk_key(pos),
{
    let a: u128 = (pos.0 as i64 + 0x8000_0000) as u128;
    let b: u128 = (pos.1 as i64 + 0x8000_0000) as u128;
    let c: u128 = (pos.2 as i64 + 0x8000_0000) as u128;
    a * 0x1_0000_0000_0000_0000 + b * 0x1_0000_0000 + c
}

/// The coordinate of the chunk that holds the voxel coordinate `voxel`.
pub fn chunk_coordinate(voxel: i32) -> (chunk: i32)
    ensures
        chunk == chunk_of(voxel),
        -0x800_0000 <= chunk < 0x800_0000,
{
    let lifted: i64 = voxel as i64 + 0x8000_0000;
    (lifted / 16 - 0x800_0000) as i32
}

/// An index of the window splits into its three offsets.
proof fn lemma_window_index(a: int, b: int, c: int, width: int, height: int)
    requires
        0 <= a,
        0 <= b < height,
        0 <= c < width,
    ensures
        ((a * height + b) * width + c) / (height * width) == a,
        (((a * height + b) * width + c) / width) % height == b,
        ((a * height + b) * width + c) % width == c,
{
    let row = a * height + b;
    let i = row * width + c;
    lemma_fundamental_div_mod_converse(i, width, row, c);
    lemma_fundamental_div_mod_converse(row, height, a, b);
    lemma_div_denominator(i, width, height);
    assert(width * height == height * width) by (nonlinear_arith);
}

/// A window is no wider than that of the greatest render distance.
proof fn lemma_window_len(camera: (i32, i32, i32), distance: int)
    requires
        1 <= distance <= 5,
    ensures
        visible_window(camera, distance).len() == (2 * distance + 1) * (2 * distance + 3) * (2
            * distance + 1),
        visible_window(camera, distance).len() <= 1573,
{
    let width = 2 * distance + 1;
    let height = 2 * distance + 3;
    assert(0 <= width * height * width <= 1573) by (nonlinear_arith)
        requires
            3 <= width <= 11,
            5 <= height <= 13,
    ;
}

/// The quads of a window depend only on the chunks at its positions.
proof fn lemma_window_quads_agree(
    first: Map<(i32, i32, i32), Seq<BlockType>>,
    second: Map<(i32, i32, i32), Seq<BlockType>>,
    positions: Seq<(i32, i32, i32)>,
)
    requires
        forall|j: int| 0 <= j < positions.len() ==> first[positions[j]] == second[positions[j]],
    ensures
        window_quads(first, positions) == window_quads(second, positions),
    decreases positions.len(),
{
    if positions.len() > 0 {
        lemma_window_quads_agree(first, second, positions.drop_last());
    }
}

/// A window of `n` chunks draws at most `n` times the faces of one chunk.
proof fn lemma_window_quads_len(
    chunks: Map<(i32, i32, i32), Seq<BlockType>>,
    positions: Seq<(i32, i32, i32)>,
)
    ensures
        window_quads(chunks, positions).len() <= 24576 * positions.len(),
    decreases positions.len(),
{
    if positions.len() > 0 {
        lemma_window_quads_len(chunks, positions.drop_last());
        lemma_chunk_quads_len(chunks[positions.last()], positions.last());
    }
}

/// A window holds each chunk coordinate whose offset from the viewer's chunk
/// is at most `distance` along `x` and `z` and at most `distance + 1` along
/// `y`, and no other.
pub proof fn lemma_window_members(camera: (i32, i32, i32), distance: int, pos: (i32, i32, i32))
    requires
        1 <= distance <= 5,
    ensures
        visible_window(camera, distance).contains(pos) <==> {
            &&& -distance <= pos.0 - chunk_of(camera.0) <= distance
            &&& -(distance + 1) <= pos.1 - chunk_of(camera.1) <= distance + 1
            &&& -distance <= pos.2 - chunk_of(camera.2) <= distance
        },
{
    let window = visible_window(camera, distance);
    let width = 2 * distance + 1;
    let height = 2 * distance + 3;
    lemma_window_len(camera, distance);
    if window.contains(pos) {
        let i = choose|i: int| 0 <= i < window.len() && window[i] == pos;
        let row = i / width;
        lemma_div_denominator(i, width, height);
        assert(width * height == height * width) by (nonlinear_arith);
        assert(0 <= row / height < width) by (nonlinear_arith)
            requires
                0 <= i < width * height * width,
                row == i / width,
                width > 0,
                height > 0,
        ;
        assert(0 <= row % height < height);
        assert(0 <= i % width < width);
    }
    if -distance <= pos.0 - chunk_of(camera.0) <= distance && -(distance + 1) <= pos.1 - chunk_of(
        camera.1,
    ) <= distance + 1 && -distance <= pos.2 - chunk_of(camera.2) <= distance {
        let a = pos.0 - chunk_of(camera.0) + distance;
        let b = pos.1 - chunk_of(camera.1) + distance + 1;
        let c = pos.2 - chunk_of(camera.2) + distance;
        let i = (a * height + b) * width + c;
        lemma_window_index(a, b, c, width, height);
        assert(0 <= i < width * height * width) by (nonlinear_arith)
            requires
                i == (a * height + b) * width + c,
                0 <= a < width,
                0 <= b < height,
                0 <= c < width,
        ;
        assert(window[i] == pos);
    }
}

/// A run over a window whose chunks are all cached changes nothing: the
/// cache after it is the cache before it.
pub proof fn lemma_cached_window_unchanged<
    P,
    F: Fn(i64, i64, &P) -> ColumnProfile,
    H: Fn(i64, i64, i64, &P) -> bool,
>(
    before: Map<(i32, i32, i32), Seq<BlockType>>,
    after: Map<(i32, i32, i32), Seq<BlockType>>,
    window: Seq<(i32, i32, i32)>,
    params: &P,
    column_fn: &F,
    cave_fn: &H,
)
    requires
        cache_filled(before, after, window, params, column_fn, cave_fn),
        forall|i: int| 0 <= i < window.len() ==> before.contains_key(#[trigger] window[i]),
    ensures
        after == before,
{
    assert forall|pos: (i32, i32, i32)| after.contains_key(pos) <==> before.contains_key(pos) by {
        if after.contains_key(pos) && !before.contains_key(pos) {
            assert(window.contains(pos));
            let i = choose|i: int| 0 <= i < window.len() && window[i] == pos;
            assert(before.contains_key(window[i]));
        }
    }
    assert forall|pos: (i32, i32, i32)| before.contains_key(pos) implies after[pos] == before[pos] by {}
    assert(after =~= before);
}

/// After the cache was emptied, nothing stale is left: every chunk that the
/// next run leaves in the cache belongs to its window and was generated
/// during that run, under the parameters of that run.
pub proof fn lemma_nothing_stale_after_clear<
    P,
    F: Fn(i64, i64, &P) -> ColumnProfile,
    H: Fn(i64, i64, i64, &P) -> bool,
>(
    after: Map<(i32, i32, i32), Seq<BlockType>>,
    window: Seq<(i32, i32, i32)>,
    params: &P,
    column_fn: &F,
    cave_fn: &H,
)
    requires
        cache_filled(
            Map::<(i32, i32, i32), Seq<BlockType>>::empty(),
            after,
            window,
            params,
            column_fn,
            cave_fn,
        ),
    ensures
        forall|pos: (i32, i32, i32)| #[trigger] after.contains_key(pos) <==> window.contains(pos),
        forall|pos: (i32, i32, i32)| #[trigger]
            after.contains_key(pos) ==> sampled_blocks(after[pos], pos, params, column_fn, cave_fn),
{
    let empty = Map::<(i32, i32, i32), Seq<BlockType>>::empty();
    assert forall|pos: (i32, i32, i32)| #[trigger] after.contains_key(pos) implies sampled_blocks(
        after[pos],
        pos,
        params,
        column_fn,
        cave_fn,
    ) by {
        assert(!empty.contains_key(pos));
    }
    assert forall|pos: (i32, i32, i32)| #[trigger]
        after.contains_key(pos) <==> window.contains(pos) by {
        assert(!empty.contains_key(pos));
    }
}

/// With samplers that always give the same answer to the same question, the
/// blocks of a chunk do not depend on what else is generated: whatever the
/// caches held before and whatever the windows were, two runs that both
/// generate the chunk at `pos` leave the same blocks in it.
pub proof fn lemma_chunk_independent_of_batch<
    P,
    F: Fn(i64, i64, &P) -> ColumnProfile,
    H: Fn(i64, i64, i64, &P) -> bool,
>(
    before_one: Map<(i32, i32, i32), Seq<BlockType>>,
    after_one: Map<(i32, i32, i32), Seq<BlockType>>,
    window_one: Seq<(i32, i32, i32)>,
    before_two: Map<(i32, i32, i32), Seq<BlockType>>,
    after_two: Map<(i32, i32, i32), Seq<BlockType>>,
    window_two: Seq<(i32, i32, i32)>,
    pos: (i32, i32, i32),
    params: &P,
    column_fn: &F,
    cave_fn: &H,
)
    requires
        column_sampler_deterministic(column_fn),
        cave_sampler_deterministic(cave_fn),
        cache_filled(before_one, after_one, window_one, params, column_fn, cave_fn),
        cache_filled(before_two, after_two, window_two, params, column_fn, cave_fn),
        window_one.contains(pos),
        window_two.contains(pos),
        !before_one.contains_key(pos),
        !before_two.contains_key(pos),
    ensures
        after_one[pos] == after_two[pos],
{
    assert(after_one.contains_key(pos));
    assert(after_two.contains_key(pos));
    lemma_sampled_blocks_unique(after_one[pos], after_two[pos], pos, params, column_fn, cave_fn);
}

/// The generator of the terrain around a viewer, under a snapshot `P` of the
/// terrain parameters.
pub struct TerrainGenerator<P> {
    camera: (i32, i32, i32),
    render_distance: i32,
    params: P,
    voxel_chunks: HashMap<u128, VoxelChunk>,
}

impl<P> TerrainGenerator<P> {
    /// The render distance lies between 1 and 5, and each cached chunk is
    /// kept under its own coordinate.
    pub closed spec fn wf(&self) -> bool {
        &&& 1 <= self.render_distance <= 5
        &&& forall|key: u128| #[trigger]
            self.voxel_chunks@.contains_key(key) ==> key == chunk_key(
                self.voxel_chunks@[key].coordinate(),
            )
    }

    /// The voxel coordinate of the viewer.
    pub closed spec fn camera_voxel(&self) -> (i32, i32, i32) {
        self.camera
    }

    /// The render distance, in chunks.
    pub closed spec fn distance(&self) -> i32 {
        self.render_distance
    }

    /// The snapshot of the terrain parameters.
    pub closed spec fn snapshot(&self) -> P {
        self.params
    }

    /// The cached chunks: the grid of each, by its chunk coordinate.
    pub closed spec fn chunks(&self) -> Map<(i32, i32, i32), Seq<BlockType>> {
        Map::new(
            |pos: (i32, i32, i32)| self.voxel_chunks@.contains_key(chunk_key(pos)),
            |pos: (i32, i32, i32)| self.voxel_chunks@[chunk_key(pos)]@,
        )
    }

    /// The chunks that are drawn around the viewer.
    pub open spec fn window(&self) -> Seq<(i32, i32, i32)> {
        visible_window(self.camera_voxel(), self.distance() as int)
    }

    /// A generator with the viewer at the origin, render distance 1, the
    /// given parameters and an empty cache.
    pub fn new(params: P) -> (generator: Self)
        ensures
            generator.wf(),
            generator.camera_voxel() == (0i32, 0i32, 0i32),
            generator.distance() == 1,
            generator.snapshot() == params,
            generator.chunks() == Map::<(i32, i32, i32), Seq<BlockType>>::empty(),
    {
        let generator = TerrainGenerator {
            camera: (0, 0, 0),
            render_distance: 1,
            params,
            voxel_chunks: HashMap::new(),
        };
        assert(generator.chunks() =~= Map::<(i32, i32, i32), Seq<BlockType>>::empty());
        generator
    }

    /// Records the voxel in which the viewer stands. The cache is kept.
    pub fn update_camera(&mut self, x: i32, y: i32, z: i32)
        requires
            old(self).wf(),
        ensures
            final(self).wf(),
            final(self).camera_voxel() == (x, y, z),
            final(self).distance() == old(self).distance(),
            final(self).snapshot() == old(self).snapshot(),
            final(self).chunks() == old(self).chunks(),
    {
        self.camera = (x, y, z);
    }

    /// Sets the render distance, brought into the range from 1 to 5, and
    /// empties the cache.
    pub fn set_render_distance(&mut self, distance: i32)
        ensures
            final(self).wf(),
            final(self).distance() == clamped_distance(distance),
            final(self).chunks() == Map::<(i32, i32, i32), Seq<BlockType>>::empty(),
            final(self).camera_voxel() == old(self).camera_voxel(),
            final(self).snapshot() == old(self).snapshot(),
    {
        let clamped = if distance < MIN_RENDER_DISTANCE {
            MIN_RENDER_DISTANCE
        } else if distance > MAX_RENDER_DISTANCE {
            MAX_RENDER_DISTANCE
        } else {
            distance
        };
        self.render_distance = clamped;
        self.voxel_chunks.clear();
        assert(self.chunks() =~= Map::<(i32, i32, i32), Seq<BlockType>>::empty());
    }

    /// Replaces the snapshot of the terrain parameters and empties the cache.
    pub fn set_terrain_params(&mut self, params: P)
        requires
            old(self).wf(),
        ensures
            final(self).wf(),
            final(self).snapshot() == params,
            final(self).chunks() == Map::<(i32, i32, i32), Seq<BlockType>>::empty(),
            final(self).camera_voxel() == old(self).camera_voxel(),
            final(self).distance() == old(self).distance(),
    {
        self.params = params;
        self.voxel_chunks.clear();
        assert(self.chunks() =~= Map::<(i32, i32, i32), Seq<BlockType>>::empty());
    }

    /// The render distance, in chunks.
    pub fn render_distance(&self) -> (distance: i32)
        requires
            self.wf(),
        ensures
            distance == self.distance(),
            1 <= distance <= 5,
    {
        self.render_distance
    }

    /// The voxel coordinate of the viewer.
    pub fn camera(&self) -> (camera: (i32, i32, i32))
        ensures
            camera == self.camera_voxel(),
    {
        self.camera
    }

    /// The snapshot of the terrain parameters.
    pub fn params(&self) -> (params: &P)
        ensures
            *params == self.snapshot(),
    {
        &self.params
    }

    /// Whether the chunk at `pos` is cached.
    pub fn has_chunk(&self, pos: (i32, i32, i32)) -> (cached: bool)
        ensures
            cached == self.chunks().contains_key(pos),
    {
        self.voxel_chunks.contains_key(&key_of(pos))
    }

    /// The number of cached chunks.
    pub fn chunk_count(&self) -> (count: usize)
        requires
            self.wf(),
        ensures
            count == self.chunks().dom().len(),
            self.chunks().dom().finite(),
    {
        proof {
            self.lemma_cache_size();
        }
        self.voxel_chunks.len()
    }

    /// The cache holds as many chunks as the map under it has keys.
    proof fn lemma_cache_size(&self)
        requires
            self.wf(),
        ensures
            self.chunks().dom().finite(),
            self.chunks().dom().len() == self.voxel_chunks@.dom().len(),
    {
        let keys = self.voxel_chunks@.dom();
        let positions = self.chunks().dom();
        let back = |key: u128| self.voxel_chunks@[key].coordinate();
        assert(keys.map(back) =~= positions) by {
            assert forall|pos: (i32, i32, i32)| positions.contains(pos) implies keys.map(
                back,
            ).contains(pos) by {
                let key = chunk_key(pos);
                assert(keys.contains(key));
                assert(self.voxel_chunks@.contains_key(key));
                lemma_chunk_key_injective(pos, back(key));
            }
            assert forall|pos: (i32, i32, i32)| keys.map(back).contains(pos) implies positions.contains(
                pos,
            ) by {
                let key = choose|key: u128| keys.contains(key) && back(key) == pos;
                assert(self.voxel_chunks@.contains_key(key));
            }
        }
        assert(vstd::relations::injective_on(back, keys)) by {
            assert forall|k1: u128, k2: u128|
                keys.contains(k1) && keys.contains(k2) && #[trigger] back(k1) == #[trigger] back(
                    k2,
                ) implies k1 == k2 by {
                assert(self.voxel_chunks@.contains_key(k1));
                assert(self.voxel_chunks@.contains_key(k2));
            }
        }
        vstd::set_lib::lemma_map_size(keys, positions, back);
        keys.lemma_map_finite(back);
    }

    /// The coordinates of the chunks that are drawn around the viewer.
    pub fn get_visible_chunk_positions(&self) -> (positions: Vec<(i32, i32, i32)>)
        requires
            self.wf(),
        ensures
            positions@ == self.window(),
            positions@.len() <= 1573,
    {
        let chunk_x = chunk_coordinate(self.camera.0);
        let chunk_y = chunk_coordinate(self.camera.1);
        let chunk_z = chunk_coordinate(self.camera.2);
        let dist = self.render_distance;
        let width: i32 = 2 * dist + 1;
        let height: i32 = 2 * dist + 3;
        let ghost target = visible_window(self.camera, dist as int);
        proof {
            lemma_window_len(self.camera, dist as int);
        }
        let mut positions: Vec<(i32, i32, i32)> = Vec::new();
        let mut a: i32 = 0;
        while a < width
            invariant
                0 <= a <= width,
                1 <= dist <= 5,
                width == 2 * dist + 1,
                height == 2 * dist + 3,
                chunk_x == chunk_of(self.camera.0),
                chunk_y == chunk_of(self.camera.1),
                chunk_z == chunk_of(self.camera.2),
                -0x800_0000 <= chunk_x < 0x800_0000,
                -0x800_0000 <= chunk_y < 0x800_0000,
                -0x800_0000 <= chunk_z < 0x800_0000,
                target == visible_window(self.camera, dist as int),
                target.len() == width * height * width,
                positions@.len() == a * height * width,
                forall|i: int| 0 <= i < positions@.len() ==> positions@[i] == target[i],
            decreases width - a,
        {
            let mut b: i32 = 0;
            while b < height
                invariant
                    0 <= a < width,
                    0 <= b <= height,
                    1 <= dist <= 5,
                    width == 2 * dist + 1,
                    height == 2 * dist + 3,
                    chunk_x == chunk_of(self.camera.0),
                    chunk_y == chunk_of(self.camera.1),
                    chunk_z == chunk_of(self.camera.2),
                    -0x800_0000 <= chunk_x < 0x800_0000,
                    -0x800_0000 <= chunk_y < 0x800_0000,
                    -0x800_0000 <= chunk_z < 0x800_0000,
                    target == visible_window(self.camera, dist as int),
                    target.len() == width * height * width,
                    positions@.len() == (a * height + b) * width,
                    forall|i: int| 0 <= i < positions@.len() ==> positions@[i] == target[i],
                decreases height - b,
            {
                let mut c: i32 = 0;
                while c < width
                    invariant
                        0 <= a < width,
                        0 <= b < height,
                        0 <= c <= width,
                        1 <= dist <= 5,
                        width == 2 * dist + 1,
                        height == 2 * dist + 3,
                        chunk_x == chunk_of(self.camera.0),
                        chunk_y == chunk_of(self.camera.1),
                        chunk_z == chunk_of(self.camera.2),
                        -0x800_0000 <= chunk_x < 0x800_0000,
                        -0x800_0000 <= chunk_y < 0x800_0000,
                        -0x800_0000 <= chunk_z < 0x800_0000,
                        target == visible_window(self.camera, dist as int),
                        target.len() == width * height * width,
                        positions@.len() == (a * height + b) * width + c,
                        forall|i: int| 0 <= i < positions@.len() ==> positions@[i] == target[i],
                    decreases width - c,
                {
                    proof {
                        let i = (a * height + b) * width + c;
                        lemma_window_index(a as int, b as int, c as int, width as int, height as int);
                        assert(i < width * height * width) by (nonlinear_arith)
                            requires
                                i == (a * height + b) * width + c,
                                0 <= a < width,
                                0 <= b < height,
                                0 <= c < width,
                        ;
                    }
                    positions.push((chunk_x - dist + a, chunk_y - (dist + 1) + b, chunk_z - dist + c));
                    c = c + 1;
                }
                assert((a * height + b) * width + width == (a * height + (b + 1)) * width)
                    by (nonlinear_arith);
                b = b + 1;
            }
            assert((a * height + height) * width == (a + 1) * height * width) by (nonlinear_arith);
            a = a + 1;
        }
        assert(positions@ =~= target);
        positions
    }

    /// The cached chunk at `pos`. Where none is cached yet, one is generated
    /// under the current parameters and cached; a cached chunk is returned as
    /// it is.
    pub fn get_or_create_chunk<F, H>(
        &mut self,
        pos: (i32, i32, i32),
        column_fn: &F,
        cave_fn: &H,
    ) -> (chunk: &VoxelChunk) where
        F: Fn(i64, i64, &P) -> ColumnProfile,
        H: Fn(i64, i64, i64, &P) -> bool,

        requires
            old(self).wf(),
            forall|x: i64, z: i64| call_requires(*column_fn, (x, z, &old(self).snapshot())),
            forall|x: i64, y: i64, z: i64|
                call_requires(*cave_fn, (x, y, z, &old(self).snapshot())),
        ensures
            final(self).wf(),
            final(self).camera_voxel() == old(self).camera_voxel(),
            final(self).distance() == old(self).distance(),
            final(self).snapshot() == old(self).snapshot(),
            final(self).chunks().contains_key(pos),
            chunk@ == final(self).chunks()[pos],
            chunk.coordinate() == pos,
            old(self).chunks().contains_key(pos) ==> final(self).chunks() == old(self).chunks(),
            !old(self).chunks().contains_key(pos) ==> final(self).chunks() == old(
                self,
            ).chunks().insert(pos, chunk@) && sampled_blocks(
                chunk@,
                pos,
                &old(self).snapshot(),
                column_fn,
                cave_fn,
            ),
    {
        let key = key_of(pos);
        if !self.voxel_chunks.contains_key(&key) {
            proof {
                let params = &self.params;
                assert(*params == old(self).snapshot());
                assert forall|x: i64, z: i64| call_requires(*column_fn, (x, z, params)) by {
                    assert(call_requires(*column_fn, (x, z, &old(self).snapshot())));
                }
                assert forall|x: i64, y: i64, z: i64|
                    call_requires(*cave_fn, (x, y, z, params)) by {
                    assert(call_requires(*cave_fn, (x, y, z, &old(self).snapshot())));
                }
            }
            let chunk = VoxelChunk::new_with_terrain_params(
                pos.0,
                pos.1,
                pos.2,
                &self.params,
                column_fn,
                cave_fn,
            );
            let ghost grid = chunk@;
            self.voxel_chunks.insert(key, chunk);
            proof {
                assert forall|other: (i32, i32, i32)| other != pos implies chunk_key(other)
                    != key by {
                    if chunk_key(other) == key {
                        lemma_chunk_key_injective(other, pos);
                    }
                }
                assert(self.chunks() =~= old(self).chunks().insert(pos, grid));
            }
        }
        let chunk = self.voxel_chunks.get(&key).unwrap();
        chunk
    }

    /// The mesh of the window around the viewer. Each chunk of the window, in
    /// the order of the window, is taken from the cache or generated into it,
    /// and its mesh is appended to the mesh of those before it.
    pub fn generate<F, H>(&mut self, column_fn: &F, cave_fn: &H) -> (mesh: Mesh) where
        F: Fn(i64, i64, &P) -> ColumnProfile,
        H: Fn(i64, i64, i64, &P) -> bool,

        requires
            old(self).wf(),
            forall|x: i64, z: i64| call_requires(*column_fn, (x, z, &old(self).snapshot())),
            forall|x: i64, y: i64, z: i64|
                call_requires(*cave_fn, (x, y, z, &old(self).snapshot())),
        ensures
            final(self).wf(),
            final(self).camera_voxel() == old(self).camera_voxel(),
            final(self).distance() == old(self).distance(),
            final(self).snapshot() == old(self).snapshot(),
            cache_filled(
                old(self).chunks(),
                final(self).chunks(),
                old(self).window(),
                &old(self).snapshot(),
                column_fn,
                cave_fn,
            ),
            mesh@ == mesh_of(window_quads(final(self).chunks(), old(self).window())),
            valid_mesh(mesh@),
    {
        let positions = self.get_visible_chunk_positions();
        let ghost window = positions@;
        let ghost start = self.chunks();
        let mut mesh = Mesh::new();
        let mut i: usize = 0;
        assert(window.take(0) =~= Seq::<(i32, i32, i32)>::empty());
        while i < positions.len()
            invariant
                i <= positions@.len(),
                positions@ == window,
                window == old(self).window(),
                window.len() <= 1573,
                start == old(self).chunks(),
                self.wf(),
                self.camera_voxel() == old(self).camera_voxel(),
                self.distance() == old(self).distance(),
                self.snapshot() == old(self).snapshot(),
                forall|x: i64, z: i64| call_requires(*column_fn, (x, z, &old(self).snapshot())),
                forall|x: i64, y: i64, z: i64|
                    call_requires(*cave_fn, (x, y, z, &old(self).snapshot())),
                cache_filled(
                    start,
                    self.chunks(),
                    window.take(i as int),
                    &old(self).snapshot(),
                    column_fn,
                    cave_fn,
                ),
                mesh@ == mesh_of(window_quads(self.chunks(), window.take(i as int))),
            decreases positions@.len() - i,
        {
            let pos = positions[i];
            let ghost before = self.chunks();
            let ghost done = window.take(i as int);
            let ghost drawn = window_quads(before, done);
            let chunk = self.get_or_create_chunk(pos, column_fn, cave_fn);
            let part = chunk.generate_mesh();
            let ghost after = self.chunks();
            let ghost more = chunk_quads(after[pos], pos);
            proof {
                let next = window.take(i + 1);
                assert(next.drop_last() =~= done);
                assert(next.last() == pos);
                assert forall|j: int| 0 <= j < done.len() implies before[done[j]] == after[done[j]] by {
                    assert(done.contains(done[j]));
                    assert(before.contains_key(done[j]));
                }
                lemma_window_quads_agree(before, after, done);
                assert(window_quads(after, next) == drawn + more);
                lemma_mesh_of_concat(drawn, more);
                lemma_window_quads_len(before, done);
                lemma_chunk_quads_len(after[pos], pos);
                assert(vertex_count(mesh@) == 4 * drawn.len());
                assert forall|j: int| 0 <= j < part.indices@.len() implies #[trigger] part.indices@[j]
                    + vertex_count(mesh@) <= u32::MAX by {
                    assert(part@.indices[j] == part.indices@[j] as int);
                    assert(part@.indices[j] == 4 * (j / 6) + winding(j % 6));
                }
                assert forall|p: (i32, i32, i32)| #[trigger]
                    after.contains_key(p) <==> start.contains_key(p) || next.contains(p) by {
                    if next.contains(p) {
                        let j = choose|j: int| 0 <= j < next.len() && next[j] == p;
                        if j < i {
                            assert(done[j] == p);
                            assert(done.contains(p));
                        }
                    }
                    if done.contains(p) {
                        let j = choose|j: int| 0 <= j < done.len() && done[j] == p;
                        assert(next[j] == p);
                    }
                    assert(next[i as int] == pos);
                }
                assert forall|p: (i32, i32, i32)| #[trigger]
                    after.contains_key(p) && !start.contains_key(p) implies sampled_blocks(
                    after[p],
                    p,
                    &old(self).snapshot(),
                    column_fn,
                    cave_fn,
                ) by {
                    if before.contains_key(p) {
                        assert(after[p] == before[p]);
                    }
                }
            }
            mesh.append(&part);
            i = i + 1;
        }
        assert(window.take(i as int) =~= window);
        proof {
            lemma_mesh_valid(window_quads(self.chunks(), window));
        }
        mesh
    }
}

} // verus!
