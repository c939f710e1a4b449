//! The mesh of a chunk: one quad of four vertices and two triangles for each
//! face of a voxel that borders empty space or the boundary of the chunk.
//!
//! Coordinates are whole numbers of voxel edges, normals are unit steps along
//! an axis, colours are thousandths per channel.

use vstd::prelude::*;
use crate::block::{color_of_block, BlockType};
use crate::voxel::{cell_index, face_visible, in_chunk, world_coord, Face, VoxelChunk};

verus! {

/// The number of faces of all voxels of a chunk.
pub const CHUNK_FACES: usize = 24576;

/// A drawn face: the world coordinate of its voxel, the side of the voxel it
/// lies on, and the block that colours it.
pub struct Quad {
    pub x: int,
    pub y: int,
    pub z: int,
    pub face: Face,
    pub block: BlockType,
}

/// The four buffers of a mesh as sequences of whole numbers: three
/// coordinates, three normal components and three colour channels per
/// vertex, and three indices per triangle.
pub struct MeshModel {
    pub vertices: Seq<int>,
    pub indices: Seq<int>,
    pub normals: Seq<int>,
    pub colors: Seq<int>,
}

/// The component `axis` of a triple.
pub open spec fn component(triple: (int, int, int), axis: int) -> int {
    if axis == 0 {
        triple.0
    } else if axis == 1 {
        triple.1
    } else {
        triple.2
    }
}

/// Where the corner `corner` of a face lies, measured from the least corner
/// of its voxel. The corners of each face run counter-clockwise as seen from
/// outside.
pub open spec fn corner_offset(face: Face, corner: int) -> (int, int, int) {
    match face {
        Face::Top => if corner == 0 {
            (0, 1, 0)
        } else if corner == 1 {
            (1, 1, 0)
        } else if corner == 2 {
            (1, 1, 1)
        } else {
            (0, 1, 1)
        },
        Face::Bottom => if corner == 0 {
            (0, 0, 1)
        } else if corner == 1 {
            (1, 0, 1)
        } else if corner == 2 {
            (1, 0, 0)
        } else {
            (0, 0, 0)
        },
        Face::Left => if corner == 0 {
            (0, 0, 0)
        } else if corner == 1 {
            (0, 0, 1)
        } else if corner == 2 {
            (0, 1, 1)
        } else {
            (0, 1, 0)
        },
        Face::Right => if corner == 0 {
            (1, 0, 1)
        } else if corner == 1 {
            (1, 0, 0)
        } else if corner == 2 {
            (1, 1, 0)
        } else {
            (1, 1, 1)
        },
        Face::Front => if corner == 0 {
            (0, 0, 1)
        } else if corner == 1 {
            (1, 0, 1)
        } else if corner == 2 {
            (1, 1, 1)
        } else {
            (0, 1, 1)
        },
        Face::Back => if corner == 0 {
            (1, 0, 0)
        } else if corner == 1 {
            (0, 0, 0)
        } else if corner == 2 {
            (0, 1, 0)
        } else {
            (1, 1, 0)
        },
    }
}

/// The corner of a quad that each of the six indices of its two triangles
/// names.
pub open spec fn winding(k: int) -> int {
    if k == 0 {
        0
    } else if k == 1 {
        1
    } else if k == 2 {
        2
    } else if k == 3 {
        0
    } else if k == 4 {
        2
    } else {
        3
    }
}

/// The twelve coordinates of the four corners of a quad.
pub open spec fn quad_vertices(quad: Quad) -> Seq<int> {
    Seq::new(
        12,
        |j: int|
            component((quad.x, quad.y, quad.z), j % 3) + component(
                corner_offset(quad.face, j / 3),
                j % 3,
            ),
    )
}

/// The normal of a quad, once for each of its four corners.
pub open spec fn quad_normals(quad: Quad) -> Seq<int> {
    Seq::new(12, |j: int| component(quad.face.direction(), j % 3))
}

/// The colour of a quad, once for each of its four corners.
pub open spec fn quad_colors(quad: Quad) -> Seq<int> {
    Seq::new(12, |j: int| color_of_block(quad.block)[j % 3] as int)
}

/// The six indices of the two triangles of the quad whose first vertex is
/// `first`.
pub open spec fn quad_indices(first: int) -> Seq<int> {
    Seq::new(6, |j: int| first + winding(j))
}

/// The mesh that draws the given quads, one after the other.
pub open spec fn mesh_of(quads: Seq<Quad>) -> MeshModel {
    MeshModel {
        vertices: Seq::new((quads.len() * 12) as nat, |i: int| quad_vertices(quads[i / 12])[i % 12]),
        indices: Seq::new((quads.len() * 6) as nat, |i: int| quad_indices(4 * (i / 6))[i % 6]),
        normals: Seq::new((quads.len() * 12) as nat, |i: int| quad_normals(quads[i / 12])[i % 12]),
        colors: Seq::new((quads.len() * 12) as nat, |i: int| quad_colors(quads[i / 12])[i % 12]),
    }
}

/// The face with the given number, in the order in which the faces of a
/// voxel are drawn.
pub open spec fn face_of(k: int) -> Face {
    if k == 0 {
        Face::Top
    } else if k == 1 {
        Face::Bottom
    } else if k == 2 {
        Face::Left
    } else if k == 3 {
        Face::Right
    } else if k == 4 {
        Face::Front
    } else {
        Face::Back
    }
}

/// The face slot `slot` of a chunk is drawn. Slots run through the voxels
/// in the order of their cells, six faces each.
pub open spec fn slot_visible(grid: Seq<BlockType>, slot: int) -> bool {
    let cell = slot / 6;
    face_visible(grid, cell / 256, (cell / 16) % 16, cell % 16, face_of(slot % 6))
}

/// The quad of the face slot `slot` of the chunk at `pos`.
pub open spec fn slot_quad(grid: Seq<BlockType>, pos: (i32, i32, i32), slot: int) -> Quad {
    let cell = slot / 6;
    Quad {
        x: world_coord(pos.0, cell / 256),
        y: world_coord(pos.1, (cell / 16) % 16),
        z: world_coord(pos.2, cell % 16),
        face: face_of(slot % 6),
        block: grid[cell],
    }
}

/// The quads of the drawn faces among the first `slots` face slots.
pub open spec fn quads_upto(grid: Seq<BlockType>, pos: (i32, i32, i32), slots: nat) -> Seq<Quad>
    decreases slots,
{
    if slots == 0 {
        Seq::empty()
    } else {
        let before = quads_upto(grid, pos, (slots - 1) as nat);
        if slot_visible(grid, slots - 1) {
            before.push(slot_quad(grid, pos, slots - 1))
        } else {
            before
        }
    }
}

/// The quads of a chunk: those of its drawn faces, in slot order.
pub open spec fn chunk_quads(grid: Seq<BlockType>, pos: (i32, i32, i32)) -> Seq<Quad> {
    quads_upto(grid, pos, 24576)
}

/// A mesh: four parallel buffers.
pub struct Mesh {
    /// Three coordinates per vertex.
    pub vertices: Vec<i64>,
    /// Three vertex numbers per triangle.
    pub indices: Vec<u32>,
    /// Three normal components per vertex.
    pub normals: Vec<i8>,
    /// Three colour channels per vertex, in thousandths.
    pub colors: Vec<u16>,
}

impl View for Mesh {
    type V = MeshModel;

    open spec fn view(&self) -> MeshModel {
        MeshModel {
            vertices: self.vertices@.map_values(|v: i64| v as int),
            indices: self.indices@.map_values(|v: u32| v as int),
            normals: self.normals@.map_values(|v: i8| v as int),
            colors: self.colors@.map_values(|v: u16| v as int),
        }
    }
}

/// Drawing one more quad appends its block of entries to each buffer.
pub proof fn lemma_mesh_of_push(quads: Seq<Quad>, quad: Quad)
    ensures
        mesh_of(quads.push(quad)).vertices == mesh_of(quads).vertices + quad_vertices(quad),
        mesh_of(quads.push(quad)).normals == mesh_of(quads).normals + quad_normals(quad),
        mesh_of(quads.push(quad)).colors == mesh_of(quads).colors + quad_colors(quad),
        mesh_of(quads.push(quad)).indices == mesh_of(quads).indices + quad_indices(
            4 * (quads.len() as int),
        ),
{
    let more = quads.push(quad);
    let n = quads.len() as int;
    let grown = mesh_of(more);
    let base = mesh_of(quads);
    let vertices = base.vertices + quad_vertices(quad);
    let normals = base.normals + quad_normals(quad);
    let colors = base.colors + quad_colors(quad);
    let indices = base.indices + quad_indices(4 * n);
    assert forall|i: int| 0 <= i < 12 * (n + 1) implies grown.vertices[i] == vertices[i]
        && grown.normals[i] == normals[i] && grown.colors[i] == colors[i] by {
        if i < 12 * n {
            assert(more[i / 12] == quads[i / 12]);
        } else {
            assert(i / 12 == n && i % 12 == i - 12 * n);
            assert(more[i / 12] == quad);
        }
    }
    assert forall|i: int| 0 <= i < 6 * (n + 1) implies grown.indices[i] == indices[i] by {
        if i >= 6 * n {
            assert(i / 6 == n && i % 6 == i - 6 * n);
        }
    }
    assert(grown.vertices =~= vertices);
    assert(grown.normals =~= normals);
    assert(grown.colors =~= colors);
    assert(grown.indices =~= indices);
}

/// The number of vertices of a mesh.
pub open spec fn vertex_count(mesh: MeshModel) -> int {
    mesh.vertices.len() as int / 3
}

/// The mesh `first` followed by the mesh `second`: the buffers of the second
/// come after those of the first, and each index of the second is raised by
/// the number of vertices of the first.
pub open spec fn joined(first: MeshModel, second: MeshModel) -> MeshModel {
    MeshModel {
        vertices: first.vertices + second.vertices,
        indices: first.indices + second.indices.map_values(|i: int| i + vertex_count(first)),
        normals: first.normals + second.normals,
        colors: first.colors + second.colors,
    }
}

/// Drawing two runs of quads one after the other joins their meshes.
pub proof fn lemma_mesh_of_concat(first: Seq<Quad>, second: Seq<Quad>)
    ensures
        mesh_of(first + second) == joined(mesh_of(first), mesh_of(second)),
{
    let all = first + second;
    let n = first.len() as int;
    let m = second.len() as int;
    let whole = mesh_of(all);
    let parts = joined(mesh_of(first), mesh_of(second));
    assert forall|i: int| 0 <= i < 12 * (n + m) implies whole.vertices[i] == parts.vertices[i]
        && whole.normals[i] == parts.normals[i] && whole.colors[i] == parts.colors[i] by {
        if i < 12 * n {
            assert(all[i / 12] == first[i / 12]);
        } else {
            let j = i - 12 * n;
            assert(i / 12 == n + j / 12 && i % 12 == j % 12);
            assert(all[i / 12] == second[j / 12]);
        }
    }
    assert forall|i: int| 0 <= i < 6 * (n + m) implies whole.indices[i] == parts.indices[i] by {
        if i >= 6 * n {
            let j = i - 6 * n;
            assert(i / 6 == n + j / 6 && i % 6 == j % 6);
        }
    }
    assert(whole.vertices =~= parts.vertices);
    assert(whole.normals =~= parts.normals);
    assert(whole.colors =~= parts.colors);
    assert(whole.indices =~= parts.indices);
}

/// The triple is a unit step along one axis.
pub open spec fn unit_axis(a: int, b: int, c: int) -> bool {
    ||| (a == 1 || a == -1) && b == 0 && c == 0
    ||| a == 0 && (b == 1 || b == -1) && c == 0
    ||| a == 0 && b == 0 && (c == 1 || c == -1)
}

/// The buffers of the mesh fit together: vertices come in fours and indices
/// in sixes, each vertex has a normal and a colour, each index names a
/// vertex, and each normal is a unit step along an axis.
pub open spec fn valid_mesh(mesh: MeshModel) -> bool {
    &&& mesh.vertices.len() % 3 == 0
    &&& vertex_count(mesh) % 4 == 0
    &&& mesh.indices.len() % 6 == 0
    &&& mesh.normals.len() == mesh.vertices.len()
    &&& mesh.colors.len() == mesh.vertices.len()
    &&& forall|i: int| 0 <= i < mesh.indices.len() ==> 0 <= #[trigger] mesh.indices[i] < vertex_count(mesh)
    &&& forall|v: int|
        0 <= v < vertex_count(mesh) ==> unit_axis(
            #[trigger] mesh.normals[3 * v],
            mesh.normals[3 * v + 1],
            mesh.normals[3 * v + 2],
        )
}

/// The mesh of any run of quads is valid, with four vertices and six indices
/// for each quad.
pub proof fn lemma_mesh_valid(quads: Seq<Quad>)
    ensures
        valid_mesh(mesh_of(quads)),
        vertex_count(mesh_of(quads)) == 4 * quads.len(),
        mesh_of(quads).indices.len() == 6 * quads.len(),
{
    let mesh = mesh_of(quads);
    let n = quads.len() as int;
    assert(vertex_count(mesh) == 4 * n);
    assert forall|i: int| 0 <= i < mesh.indices.len() implies 0 <= #[trigger] mesh.indices[i]
        < vertex_count(mesh) by {
        assert(0 <= i / 6 < n);
        assert(0 <= winding(i % 6) <= 3);
    }
    assert forall|v: int| 0 <= v < vertex_count(mesh) implies unit_axis(
        #[trigger] mesh.normals[3 * v],
        mesh.normals[3 * v + 1],
        mesh.normals[3 * v + 2],
    ) by {
        let q = v / 4;
        let r = v % 4;
        assert((3 * v) / 12 == q && (3 * v + 1) / 12 == q && (3 * v + 2) / 12 == q);
        assert((3 * v) % 12 == 3 * r && (3 * v + 1) % 12 == 3 * r + 1 && (3 * v + 2) % 12 == 3
            * r + 2);
        assert((3 * r) % 3 == 0 && (3 * r + 1) % 3 == 1 && (3 * r + 2) % 3 == 2);
    }
}

/// Each quad of a chunk is the quad of a drawn face slot, and each drawn face
/// slot has its quad among them.
pub proof fn lemma_quads_are_drawn_slots(grid: Seq<BlockType>, pos: (i32, i32, i32), slots: nat)
    ensures
        forall|i: int|
            0 <= i < quads_upto(grid, pos, slots).len() ==> exists|slot: int|
                0 <= slot < slots && slot_visible(grid, slot) && #[trigger] quads_upto(
                    grid,
                    pos,
                    slots,
                )[i] == slot_quad(grid, pos, slot),
        forall|slot: int|
            0 <= slot < slots && slot_visible(grid, slot) ==> quads_upto(
                grid,
                pos,
                slots,
            ).contains(#[trigger] slot_quad(grid, pos, slot)),
    decreases slots,
{
    if slots > 0 {
        let before = quads_upto(grid, pos, (slots - 1) as nat);
        let now = quads_upto(grid, pos, slots);
        lemma_quads_are_drawn_slots(grid, pos, (slots - 1) as nat);
        assert forall|i: int| 0 <= i < now.len() implies exists|slot: int|
            0 <= slot < slots && slot_visible(grid, slot) && #[trigger] now[i] == slot_quad(
                grid,
                pos,
                slot,
            ) by {
            if i < before.len() {
                assert(now[i] == before[i]);
                let slot = choose|slot: int|
                    0 <= slot < slots - 1 && slot_visible(grid, slot) && before[i] == slot_quad(
                        grid,
                        pos,
                        slot,
                    );
                assert(0 <= slot < slots && slot_visible(grid, slot) && now[i] == slot_quad(
                    grid,
                    pos,
                    slot,
                ));
            } else {
                assert(now[i] == slot_quad(grid, pos, slots - 1));
            }
        }
        assert forall|slot: int| 0 <= slot < slots && slot_visible(grid, slot) implies now.contains(
            #[trigger] slot_quad(grid, pos, slot),
        ) by {
            if slot < slots - 1 {
                let i = choose|i: int|
                    0 <= i < before.len() && before[i] == slot_quad(grid, pos, slot);
                assert(now[i] == slot_quad(grid, pos, slot));
            } else {
                assert(now[now.len() - 1] == slot_quad(grid, pos, slot));
            }
        }
    }
}

/// An empty voxel is never drawn: each quad of a chunk shows a block that is
/// not air.
pub proof fn lemma_no_quad_of_air(grid: Seq<BlockType>, pos: (i32, i32, i32))
    ensures
        forall|i: int|
            0 <= i < chunk_quads(grid, pos).len() ==> (#[trigger] chunk_quads(grid, pos)[i]).block
                != BlockType::Air,
{
    lemma_quads_are_drawn_slots(grid, pos, 24576);
    let quads = chunk_quads(grid, pos);
    assert forall|i: int| 0 <= i < quads.len() implies (#[trigger] quads[i]).block
        != BlockType::Air by {
        let slot = choose|slot: int|
            0 <= slot < 24576 && slot_visible(grid, slot) && quads[i] == slot_quad(
                grid,
                pos,
                slot,
            );
        let cell = slot / 6;
        assert(cell_index(cell / 256, (cell / 16) % 16, cell % 16) == cell);
    }
}

/// A chunk of empty voxels has an empty mesh: no vertex and no index.
pub proof fn lemma_empty_chunk_draws_nothing(grid: Seq<BlockType>, pos: (i32, i32, i32))
    requires
        grid.len() == 4096,
        forall|cell: int| 0 <= cell < 4096 ==> grid[cell] == BlockType::Air,
    ensures
        chunk_quads(grid, pos) == Seq::<Quad>::empty(),
        mesh_of(chunk_quads(grid, pos)).vertices.len() == 0,
        mesh_of(chunk_quads(grid, pos)).indices.len() == 0,
        mesh_of(chunk_quads(grid, pos)).normals.len() == 0,
        mesh_of(chunk_quads(grid, pos)).colors.len() == 0,
{
    lemma_quads_are_drawn_slots(grid, pos, 24576);
    let quads = chunk_quads(grid, pos);
    if quads.len() > 0 {
        let slot = choose|slot: int|
            0 <= slot < 24576 && slot_visible(grid, slot) && quads[0] == slot_quad(
                grid,
                pos,
                slot,
            );
        let cell = slot / 6;
        assert(cell_index(cell / 256, (cell / 16) % 16, cell % 16) == cell);
        assert(false);
    }
    assert(quads =~= Seq::<Quad>::empty());
}

/// The quad lies on the voxel `(x, y, z)` of the chunk at `pos`.
pub open spec fn quad_on(quad: Quad, pos: (i32, i32, i32), x: int, y: int, z: int) -> bool {
    quad.x == world_coord(pos.0, x) && quad.y == world_coord(pos.1, y) && quad.z == world_coord(
        pos.2,
        z,
    )
}

/// The number of a face in the order in which the faces of a voxel are drawn.
pub open spec fn face_number(face: Face) -> int {
    match face {
        Face::Top => 0,
        Face::Bottom => 1,
        Face::Left => 2,
        Face::Right => 3,
        Face::Front => 4,
        Face::Back => 5,
    }
}

/// The quad of the face `face` of the voxel `(x, y, z)` of the chunk at `pos`.
pub open spec fn voxel_quad(
    grid: Seq<BlockType>,
    pos: (i32, i32, i32),
    x: int,
    y: int,
    z: int,
    face: Face,
) -> Quad {
    Quad {
        x: world_coord(pos.0, x),
        y: world_coord(pos.1, y),
        z: world_coord(pos.2, z),
        face,
        block: grid[cell_index(x, y, z)],
    }
}

/// A drawn face of a voxel has its quad in the mesh of the chunk, and a quad
/// of the chunk that lies on a voxel is one of that voxel's drawn faces.
pub proof fn lemma_quads_of_voxel(
    grid: Seq<BlockType>,
    pos: (i32, i32, i32),
    x: int,
    y: int,
    z: int,
)
    requires
        in_chunk(x, y, z),
    ensures
        forall|face: Face|
            face_visible(grid, x, y, z, face) ==> chunk_quads(grid, pos).contains(
                #[trigger] voxel_quad(grid, pos, x, y, z, face),
            ),
        forall|i: int|
            0 <= i < chunk_quads(grid, pos).len() && quad_on(
                #[trigger] chunk_quads(grid, pos)[i],
                pos,
                x,
                y,
                z,
            ) ==> face_visible(grid, x, y, z, chunk_quads(grid, pos)[i].face),
{
    let quads = chunk_quads(grid, pos);
    let cell = cell_index(x, y, z);
    lemma_quads_are_drawn_slots(grid, pos, 24576);
    assert forall|face: Face| face_visible(grid, x, y, z, face) implies quads.contains(
        #[trigger] voxel_quad(grid, pos, x, y, z, face),
    ) by {
        let slot = cell * 6 + face_number(face);
        assert(slot / 6 == cell && slot % 6 == face_number(face));
        assert(cell / 256 == x && (cell / 16) % 16 == y && cell % 16 == z);
        assert(face_of(face_number(face)) == face);
        assert(slot_visible(grid, slot));
        assert(quads.contains(slot_quad(grid, pos, slot)));
    }
    assert forall|i: int| 0 <= i < quads.len() && quad_on(#[trigger] quads[i], pos, x, y, z)
    implies face_visible(grid, x, y, z, quads[i].face) by {
        let slot = choose|slot: int|
            0 <= slot < 24576 && slot_visible(grid, slot) && quads[i] == slot_quad(
                grid,
                pos,
                slot,
            );
        let c = slot / 6;
        assert(c / 256 == x && (c / 16) % 16 == y && c % 16 == z);
    }
}

/// A voxel whose six neighbours in the chunk are all filled shows no face:
/// none of its faces is drawn, and no quad of the chunk lies on it.
pub proof fn lemma_enclosed_voxel_hidden(
    grid: Seq<BlockType>,
    pos: (i32, i32, i32),
    x: int,
    y: int,
    z: int,
)
    requires
        1 <= x < 15,
        1 <= y < 15,
        1 <= z < 15,
        grid[cell_index(x + 1, y, z)] != BlockType::Air,
        grid[cell_index(x - 1, y, z)] != BlockType::Air,
        grid[cell_index(x, y + 1, z)] != BlockType::Air,
        grid[cell_index(x, y - 1, z)] != BlockType::Air,
        grid[cell_index(x, y, z + 1)] != BlockType::Air,
        grid[cell_index(x, y, z - 1)] != BlockType::Air,
    ensures
        forall|face: Face| !face_visible(grid, x, y, z, face),
        forall|i: int|
            0 <= i < chunk_quads(grid, pos).len() ==> !quad_on(
                #[trigger] chunk_quads(grid, pos)[i],
                pos,
                x,
                y,
                z,
            ),
{
    lemma_quads_of_voxel(grid, pos, x, y, z);
}

/// A filled voxel on the boundary of the chunk shows each face that looks out
/// of the chunk, whatever the rest of the chunk holds.
pub proof fn lemma_boundary_face_drawn(
    grid: Seq<BlockType>,
    pos: (i32, i32, i32),
    x: int,
    y: int,
    z: int,
    face: Face,
)
    requires
        in_chunk(x, y, z),
        grid[cell_index(x, y, z)] != BlockType::Air,
        !in_chunk(x + face.direction().0, y + face.direction().1, z + face.direction().2),
    ensures
        face_visible(grid, x, y, z, face),
        chunk_quads(grid, pos).contains(voxel_quad(grid, pos, x, y, z, face)),
{
    lemma_quads_of_voxel(grid, pos, x, y, z);
}

/// The quads among the first slots never outnumber the slots.
proof fn lemma_quads_upto_len(grid: Seq<BlockType>, pos: (i32, i32, i32), slots: nat)
    ensures
        quads_upto(grid, pos, slots).len() <= slots,
    decreases slots,
{
    if slots > 0 {
        lemma_quads_upto_len(grid, pos, (slots - 1) as nat);
    }
}

/// A chunk draws at most all the faces of its voxels.
pub proof fn lemma_chunk_quads_len(grid: Seq<BlockType>, pos: (i32, i32, i32))
    ensures
        chunk_quads(grid, pos).len() <= 24576,
{
    lemma_quads_upto_len(grid, pos, 24576);
}

impl Face {
    /// The face with the number `k`, in the order in which the faces of a
    /// voxel are drawn.
    pub fn from_index(k: usize) -> (face: Face)
        ensures
            face == face_of(k as int),
    {
        if k == 0 {
            Face::Top
        } else if k == 1 {
            Face::Bottom
        } else if k == 2 {
            Face::Left
        } else if k == 3 {
            Face::Right
        } else if k == 4 {
            Face::Front
        } else {
            Face::Back
        }
    }

    /// The outward unit normal of the face.
    pub fn normal(&self) -> (normal: (i8, i8, i8))
        ensures
            (normal.0 as int, normal.1 as int, normal.2 as int) == self.direction(),
    {
        match self {
            Face::Top => (0, 1, 0),
            Face::Bottom => (0, -1, 0),
            Face::Left => (-1, 0, 0),
            Face::Right => (1, 0, 0),
            Face::Front => (0, 0, 1),
            Face::Back => (0, 0, -1),
        }
    }

    /// Where the corner `corner` of the face lies, measured from the least
    /// corner of its voxel.
    pub fn corner(&self, corner: usize) -> (offset: (i64, i64, i64))
        ensures
            (offset.0 as int, offset.1 as int, offset.2 as int) == corner_offset(
                *self,
                corner as int,
            ),
            0 <= offset.0 <= 1,
            0 <= offset.1 <= 1,
            0 <= offset.2 <= 1,
    {
        match self {
            Face::Top => if corner == 0 {
                (0, 1, 0)
            } else if corner == 1 {
                (1, 1, 0)
            } else if corner == 2 {
                (1, 1, 1)
            } else {
                (0, 1, 1)
            },
            Face::Bottom => if corner == 0 {
                (0, 0, 1)
            } else if corner == 1 {
                (1, 0, 1)
            } else if corner == 2 {
                (1, 0, 0)
            } else {
                (0, 0, 0)
            },
            Face::Left => if corner == 0 {
                (0, 0, 0)
            } else if corner == 1 {
                (0, 0, 1)
            } else if corner == 2 {
                (0, 1, 1)
            } else {
                (0, 1, 0)
            },
            Face::Right => if corner == 0 {
                (1, 0, 1)
            } else if corner == 1 {
                (1, 0, 0)
            } else if corner == 2 {
                (1, 1, 0)
            } else {
                (1, 1, 1)
            },
            Face::Front => if corner == 0 {
                (0, 0, 1)
            } else if corner == 1 {
                (1, 0, 1)
            } else if corner == 2 {
                (1, 1, 1)
            } else {
                (0, 1, 1)
            },
            Face::Back => if corner == 0 {
                (1, 0, 0)
            } else if corner == 1 {
                (0, 0, 0)
            } else if corner == 2 {
                (0, 1, 0)
            } else {
                (1, 1, 0)
            },
        }
    }
}

impl Mesh {
    /// A mesh without vertices.
    pub fn new() -> (mesh: Mesh)
        ensures
            mesh@ == mesh_of(Seq::empty()),
    {
        let mesh = Mesh {
            vertices: Vec::new(),
            indices: Vec::new(),
            normals: Vec::new(),
            colors: Vec::new(),
        };
        proof {
            let empty = mesh_of(Seq::empty());
            assert(mesh@.vertices =~= empty.vertices);
            assert(mesh@.indices =~= empty.indices);
            assert(mesh@.normals =~= empty.normals);
            assert(mesh@.colors =~= empty.colors);
        }
        mesh
    }

    /// Appends the quad of the face `face` of the voxel at the world
    /// coordinate `(x, y, z)`, coloured as `block`.
    fn push_quad(
        &mut self,
        x: i64,
        y: i64,
        z: i64,
        face: Face,
        block: BlockType,
        Ghost(quads): Ghost<Seq<Quad>>,
    )
        requires
            old(self)@ == mesh_of(quads),
            quads.len() * 4 + 4 <= u32::MAX,
            x < i64::MAX,
            y < i64::MAX,
            z < i64::MAX,
        ensures
            final(self)@ == mesh_of(
                quads.push(Quad { x: x as int, y: y as int, z: z as int, face, block }),
            ),
    {
        let ghost quad = Quad { x: x as int, y: y as int, z: z as int, face, block };
        let ghost base = mesh_of(quads);
        assert(self.vertices@.len() == base.vertices.len());
        let first: u32 = (self.vertices.len() / 3) as u32;
        let normal = face.normal();
        let color = block.get_color();
        let mut corner: usize = 0;
        while corner < 4
            invariant
                corner <= 4,
                x < i64::MAX,
                y < i64::MAX,
                z < i64::MAX,
                quad == (Quad { x: x as int, y: y as int, z: z as int, face, block }),
                (normal.0 as int, normal.1 as int, normal.2 as int) == face.direction(),
                color@ == color_of_block(block),
                self.indices@ == old(self).indices@,
                self@.vertices =~= base.vertices + quad_vertices(quad).take(3 * corner),
                self@.normals =~= base.normals + quad_normals(quad).take(3 * corner),
                self@.colors =~= base.colors + quad_colors(quad).take(3 * corner),
            decreases 4 - corner,
        {
            let offset = face.corner(corner);
            let ghost before = self@;
            self.vertices.push(x + offset.0);
            self.vertices.push(y + offset.1);
            self.vertices.push(z + offset.2);
            self.normals.push(normal.0);
            self.normals.push(normal.1);
            self.normals.push(normal.2);
            self.colors.push(color[0]);
            self.colors.push(color[1]);
            self.colors.push(color[2]);
            proof {
                let k = 3 * corner as int;
                let target_v = quad_vertices(quad);
                let target_n = quad_normals(quad);
                let target_c = quad_colors(quad);
                assert((k + 0) / 3 == corner && (k + 1) / 3 == corner && (k + 2) / 3 == corner);
                assert((k + 0) % 3 == 0 && (k + 1) % 3 == 1 && (k + 2) % 3 == 2);
                assert(self@.vertices =~= before.vertices.push(target_v[k]).push(
                    target_v[k + 1],
                ).push(target_v[k + 2]));
                assert(self@.normals =~= before.normals.push(target_n[k]).push(
                    target_n[k + 1],
                ).push(target_n[k + 2]));
                assert(self@.colors =~= before.colors.push(target_c[k]).push(
                    target_c[k + 1],
                ).push(target_c[k + 2]));
                assert(self@.vertices =~= base.vertices + target_v.take(k + 3));
                assert(self@.normals =~= base.normals + target_n.take(k + 3));
                assert(self@.colors =~= base.colors + target_c.take(k + 3));
            }
            corner = corner + 1;
        }
        self.indices.push(first);
        self.indices.push(first + 1);
        self.indices.push(first + 2);
        self.indices.push(first);
        self.indices.push(first + 2);
        self.indices.push(first + 3);
        proof {
            lemma_mesh_of_push(quads, quad);
            let grown = mesh_of(quads.push(quad));
            assert(first == 4 * quads.len());
            assert(quad_vertices(quad).take(12) =~= quad_vertices(quad));
            assert(quad_normals(quad).take(12) =~= quad_normals(quad));
            assert(quad_colors(quad).take(12) =~= quad_colors(quad));
            assert(self@.vertices =~= grown.vertices);
            assert(self@.normals =~= grown.normals);
            assert(self@.colors =~= grown.colors);
            let six = quad_indices(first as int);
            assert(self@.indices =~= base.indices.push(six[0]).push(six[1]).push(six[2]).push(
                six[3],
            ).push(six[4]).push(six[5]));
            assert(self@.indices =~= grown.indices);
        }
    }
}

impl Mesh {
    /// The number of vertices in the mesh.
    pub fn vertex_total(&self) -> (count: usize)
        ensures
            count == vertex_count(self@),
    {
        self.vertices.len() / 3
    }

    /// Appends `other` to this mesh, raising each of its indices by the
    /// number of vertices that this mesh held.
    pub fn append(&mut self, other: &Mesh)
        requires
            forall|i: int|
                0 <= i < other.indices@.len() ==> #[trigger] other.indices@[i] + vertex_count(
                    old(self)@,
                ) <= u32::MAX,
        ensures
            final(self)@ == joined(old(self)@, other@),
    {
        let count: usize = self.vertices.len() / 3;
        let ghost start = self@;
        let mut i: usize = 0;
        while i < other.vertices.len()
            invariant
                i <= other.vertices@.len(),
                self.indices@ == old(self).indices@,
                self.normals@ == old(self).normals@,
                self.colors@ == old(self).colors@,
                self.vertices@ == old(self).vertices@ + other.vertices@.take(i as int),
            decreases other.vertices@.len() - i,
        {
            self.vertices.push(other.vertices[i]);
            assert(other.vertices@.take(i + 1) =~= other.vertices@.take(i as int).push(
                other.vertices@[i as int],
            ));
            assert(self.vertices@ =~= old(self).vertices@ + other.vertices@.take(i + 1));
            i = i + 1;
        }
        assert(other.vertices@.take(i as int) =~= other.vertices@);
        i = 0;
        while i < other.normals.len()
            invariant
                i <= other.normals@.len(),
                self.indices@ == old(self).indices@,
                self.vertices@ == old(self).vertices@ + other.vertices@,
                self.colors@ == old(self).colors@,
                self.normals@ == old(self).normals@ + other.normals@.take(i as int),
            decreases other.normals@.len() - i,
        {
            self.normals.push(other.normals[i]);
            assert(other.normals@.take(i + 1) =~= other.normals@.take(i as int).push(
                other.normals@[i as int],
            ));
            assert(self.normals@ =~= old(self).normals@ + other.normals@.take(i + 1));
            i = i + 1;
        }
        assert(other.normals@.take(i as int) =~= other.normals@);
        i = 0;
        while i < other.colors.len()
            invariant
                i <= other.colors@.len(),
                self.indices@ == old(self).indices@,
                self.vertices@ == old(self).vertices@ + other.vertices@,
                self.normals@ == old(self).normals@ + other.normals@,
                self.colors@ == old(self).colors@ + other.colors@.take(i as int),
            decreases other.colors@.len() - i,
        {
            self.colors.push(other.colors[i]);
            assert(other.colors@.take(i + 1) =~= other.colors@.take(i as int).push(
                other.colors@[i as int],
            ));
            assert(self.colors@ =~= old(self).colors@ + other.colors@.take(i + 1));
            i = i + 1;
        }
        assert(other.colors@.take(i as int) =~= other.colors@);
        i = 0;
        while i < other.indices.len()
            invariant
                i <= other.indices@.len(),
                count == vertex_count(start),
                start == old(self)@,
                forall|j: int|
                    0 <= j < other.indices@.len() ==> #[trigger] other.indices@[j] + vertex_count(
                        start,
                    ) <= u32::MAX,
                self.vertices@ == old(self).vertices@ + other.vertices@,
                self.normals@ == old(self).normals@ + other.normals@,
                self.colors@ == old(self).colors@ + other.colors@,
                self.indices@.len() == old(self).indices@.len() + i,
                forall|j: int|
                    0 <= j < old(self).indices@.len() ==> self.indices@[j] == old(
                        self,
                    ).indices@[j],
                forall|j: int|
                    0 <= j < i ==> self.indices@[old(self).indices@.len() + j] == other.indices@[j]
                        + count,
            decreases other.indices@.len() - i,
        {
            let raised: u32 = other.indices[i] + count as u32;
            self.indices.push(raised);
            i = i + 1;
        }
        proof {
            let target = joined(start, other@);
            assert(self@.vertices =~= target.vertices);
            assert(self@.normals =~= target.normals);
            assert(self@.colors =~= target.colors);
            assert(self@.indices =~= target.indices);
        }
    }
}

impl VoxelChunk {
    /// Builds the mesh of the chunk: for each voxel that is not empty, in the
    /// order of the cells, and for each of its faces that is drawn, top,
    /// bottom, left, right, front, back, one quad in world coordinates.
    pub fn generate_mesh(&self) -> (mesh: Mesh)
        ensures
            mesh@ == mesh_of(chunk_quads(self@, self.coordinate())),
            valid_mesh(mesh@),
    {
        let pos = self.position();
        let base_x: i64 = pos.0 as i64 * 16;
        let base_y: i64 = pos.1 as i64 * 16;
        let base_z: i64 = pos.2 as i64 * 16;
        let mut mesh = Mesh::new();
        let mut cell: usize = 0;
        while cell < 4096
            invariant
                cell <= 4096,
                pos == self.coordinate(),
                base_x == pos.0 * 16,
                base_y == pos.1 * 16,
                base_z == pos.2 * 16,
                mesh@ == mesh_of(quads_upto(self@, pos, (cell * 6) as nat)),
            decreases 4096 - cell,
        {
            let x: usize = cell / 256;
            let y: usize = (cell / 16) % 16;
            let z: usize = cell % 16;
            assert(cell == cell_index(x as int, y as int, z as int));
            let block = self.get_block(x, y, z);
            let mut k: usize = 0;
            while k < 6
                invariant
                    k <= 6,
                    cell < 4096,
                    x == cell / 256,
                    y == (cell / 16) % 16,
                    z == cell % 16,
                    block == self@[cell as int],
                    pos == self.coordinate(),
                    base_x == pos.0 * 16,
                    base_y == pos.1 * 16,
                    base_z == pos.2 * 16,
                    mesh@ == mesh_of(quads_upto(self@, pos, (cell * 6 + k) as nat)),
                decreases 6 - k,
            {
                let face = Face::from_index(k);
                let ghost slot = (cell * 6 + k) as int;
                let ghost before = quads_upto(self@, pos, slot as nat);
                proof {
                    assert(slot / 6 == cell && slot % 6 == k);
                    lemma_quads_upto_len(self@, pos, slot as nat);
                }
                if self.is_face_visible(x, y, z, face) {
                    mesh.push_quad(
                        base_x + x as i64,
                        base_y + y as i64,
                        base_z + z as i64,
                        face,
                        block,
                        Ghost(before),
                    );
                    assert(slot_quad(self@, pos, slot) == (Quad {
                        x: base_x + x,
                        y: base_y + y,
                        z: base_z + z,
                        face,
                        block,
                    }));
                }
                assert(quads_upto(self@, pos, (slot + 1) as nat) == if slot_visible(self@, slot) {
                    before.push(slot_quad(self@, pos, slot))
                } else {
                    before
                });
                k = k + 1;
            }
            cell = cell + 1;
        }
        proof {
            lemma_mesh_valid(chunk_quads(self@, pos));
        }
        mesh
    }
}

} // verus!
