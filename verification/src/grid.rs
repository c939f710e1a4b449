//! Triangle indices for surfaces laid out as a square lattice of vertices:
//! `n` cells along each side, `n + 1` vertices along each side, the vertex of
//! row `r` and column `c` at `r * (n + 1) + c`, two triangles per cell.

use vstd::prelude::*;
use vstd::arithmetic::div_mod::lemma_fundamental_div_mod_converse;

verus! {

/// The greatest number of cells along a side for which every vertex number
/// fits in 32 bits.
pub const MAX_CELLS: u32 = 65534;

/// The vertex of the cell `cell` of a lattice of `n` cells a side that lies
/// `down` rows and `right` columns from the cell's first vertex.
pub open spec fn cell_vertex(n: int, cell: int, down: int, right: int) -> int {
    (cell / n + down) * (n + 1) + cell % n + right
}

/// The index at place `k` of a lattice whose cells are each cut along the
/// diagonal from the second row's first vertex to the first row's second,
/// both triangles starting on the first row.
pub open spec fn surface_index(n: int, k: int) -> int {
    let cell = k / 6;
    let corner = k % 6;
    if corner == 0 {
        cell_vertex(n, cell, 0, 0)
    } else if corner == 1 {
        cell_vertex(n, cell, 1, 0)
    } else if corner == 2 {
        cell_vertex(n, cell, 0, 1)
    } else if corner == 3 {
        cell_vertex(n, cell, 1, 0)
    } else if corner == 4 {
        cell_vertex(n, cell, 1, 1)
    } else {
        cell_vertex(n, cell, 0, 1)
    }
}

/// The index at place `k` of a lattice whose cells are cut along the same
/// diagonal, the second triangle starting on the first row's second vertex.
pub open spec fn field_index(n: int, k: int) -> int {
    let cell = k / 6;
    let corner = k % 6;
    if corner == 0 {
        cell_vertex(n, cell, 0, 0)
    } else if corner == 1 {
        cell_vertex(n, cell, 1, 0)
    } else if corner == 2 {
        cell_vertex(n, cell, 0, 1)
    } else if corner == 3 {
        cell_vertex(n, cell, 0, 1)
    } else if corner == 4 {
        cell_vertex(n, cell, 1, 0)
    } else {
        cell_vertex(n, cell, 1, 1)
    }
}

/// Each vertex of a cell is a vertex of the lattice.
pub proof fn lemma_cell_vertex_bound(n: int, cell: int, down: int, right: int)
    requires
        0 < n,
        0 <= cell < n * n,
        0 <= down <= 1,
        0 <= right <= 1,
    ensures
        0 <= cell_vertex(n, cell, down, right) < (n + 1) * (n + 1),
{
    let row = cell / n;
    let col = cell % n;
    assert(0 <= row < n) by (nonlinear_arith)
        requires
            0 < n,
            0 <= cell < n * n,
            row == cell / n,
    ;
    assert(0 <= col < n);
    assert(0 <= (row + down) * (n + 1) + col + right < (n + 1) * (n + 1)) by (nonlinear_arith)
        requires
            0 <= row < n,
            0 <= col < n,
            0 <= down <= 1,
            0 <= right <= 1,
    ;
}

/// Every index of either cut names a vertex of the lattice.
pub proof fn lemma_indices_name_vertices(n: int, k: int)
    requires
        0 < n,
        0 <= k < 6 * n * n,
    ensures
        0 <= surface_index(n, k) < (n + 1) * (n + 1),
        0 <= field_index(n, k) < (n + 1) * (n + 1),
{
    let cell = k / 6;
    assert(0 <= cell < n * n) by (nonlinear_arith)
        requires
            0 <= k < 6 * n * n,
            cell == k / 6,
    ;
    lemma_cell_vertex_bound(n, cell, 0, 0);
    lemma_cell_vertex_bound(n, cell, 0, 1);
    lemma_cell_vertex_bound(n, cell, 1, 0);
    lemma_cell_vertex_bound(n, cell, 1, 1);
}

/// The four vertices of the cell in row `row` and column `col`.
fn cell_corners(n: u32, row: u32, col: u32) -> (corners: (u32, u32, u32, u32))
    requires
        0 < n <= MAX_CELLS,
        row < n,
        col < n,
    ensures
        corners.0 == cell_vertex(n as int, row * n + col, 0, 0),
        corners.1 == cell_vertex(n as int, row * n + col, 0, 1),
        corners.2 == cell_vertex(n as int, row * n + col, 1, 0),
        corners.3 == cell_vertex(n as int, row * n + col, 1, 1),
{
    proof {
        lemma_fundamental_div_mod_converse(row * n + col, n as int, row as int, col as int);
        assert((row + 1) * (n + 1) + col + 1 <= 65535 * 65535) by (nonlinear_arith)
            requires
                row < n,
                col < n,
                n <= 65534,
        ;
        assert(0 <= row * (n + 1) <= (row + 1) * (n + 1)) by (nonlinear_arith)
            requires
                0 <= row,
                0 < n,
        ;
    }
    let first: u32 = row * (n + 1) + col;
    let second: u32 = first + n + 1;
    assert(second == (row + 1) * (n + 1) + col) by (nonlinear_arith)
        requires
            second == row * (n + 1) + col + n + 1,
    ;
    (first, first + 1, second, second + 1)
}

/// The triangle indices of a closed surface of `subdivisions` cells a side.
pub fn surface_indices(subdivisions: u32) -> (indices: Vec<u32>)
    requires
        subdivisions <= MAX_CELLS,
    ensures
        indices@.len() == 6 * subdivisions * subdivisions,
        forall|k: int|
            0 <= k < indices@.len() ==> #[trigger] indices@[k] == surface_index(
                subdivisions as int,
                k,
            ),
{
    let n = subdivisions;
    let mut indices: Vec<u32> = Vec::new();
    let mut row: u32 = 0;
    while row < n
        invariant
            row <= n,
            n == subdivisions,
            n <= MAX_CELLS,
            indices@.len() == 6 * (row * n),
            forall|k: int|
                0 <= k < indices@.len() ==> #[trigger] indices@[k] == surface_index(n as int, k),
        decreases n - row,
    {
        let mut col: u32 = 0;
        while col < n
            invariant
                row < n,
                col <= n,
                n == subdivisions,
                n <= MAX_CELLS,
                indices@.len() == 6 * (row * n + col),
                forall|k: int|
                    0 <= k < indices@.len() ==> #[trigger] indices@[k] == surface_index(
                        n as int,
                        k,
                    ),
            decreases n - col,
        {
            let (first, beside, second, across) = cell_corners(n, row, col);
            let ghost cell = row * n + col;
            let ghost before = indices@;
            indices.push(first);
            indices.push(second);
            indices.push(beside);
            indices.push(second);
            indices.push(across);
            indices.push(beside);
            proof {
                assert forall|k: int| 0 <= k < indices@.len() implies #[trigger] indices@[k]
                    == surface_index(n as int, k) by {
                    if k < 6 * cell {
                        assert(indices@[k] == before[k]);
                    } else {
                        assert(k / 6 == cell && k % 6 == k - 6 * cell);
                    }
                }
            }
            col = col + 1;
        }
        assert(row * n + n == (row + 1) * n) by (nonlinear_arith);
        row = row + 1;
    }
    assert(row * n == subdivisions * subdivisions);
    assert(6 * (subdivisions * subdivisions) == 6 * subdivisions * subdivisions) by (nonlinear_arith);
    indices
}

/// The triangle indices of a height field of `grid_size` cells a side.
pub fn field_indices(grid_size: u32) -> (indices: Vec<u32>)
    requires
        grid_size <= MAX_CELLS,
    ensures
        indices@.len() == 6 * grid_size * grid_size,
        forall|k: int|
            0 <= k < indices@.len() ==> #[trigger] indices@[k] == field_index(grid_size as int, k),
{
    let n = grid_size;
    let mut indices: Vec<u32> = Vec::new();
    let mut row: u32 = 0;
    while row < n
        invariant
            row <= n,
            n == grid_size,
            n <= MAX_CELLS,
            indices@.len() == 6 * (row * n),
            forall|k: int|
                0 <= k < indices@.len() ==> #[trigger] indices@[k] == field_index(n as int, k),
        decreases n - row,
    {
        let mut col: u32 = 0;
        while col < n
            invariant
                row < n,
                col <= n,
                n == grid_size,
                n <= MAX_CELLS,
                indices@.len() == 6 * (row * n + col),
                forall|k: int|
                    0 <= k < indices@.len() ==> #[trigger] indices@[k] == field_index(n as int, k),
            decreases n - col,
        {
            let (first, beside, second, across) = cell_corners(n, row, col);
            let ghost cell = row * n + col;
            let ghost before = indices@;
            indices.push(first);
            indices.push(second);
            indices.push(beside);
            indices.push(beside);
            indices.push(second);
            indices.push(across);
            proof {
                assert forall|k: int| 0 <= k < indices@.len() implies #[trigger] indices@[k]
                    == field_index(n as int, k) by {
                    if k < 6 * cell {
                        assert(indices@[k] == before[k]);
                    } else {
                        assert(k / 6 == cell && k % 6 == k - 6 * cell);
                    }
                }
            }
            col = col + 1;
        }
        assert(row * n + n == (row + 1) * n) by (nonlinear_arith);
        row = row + 1;
    }
    assert(row * n == grid_size * grid_size);
    assert(6 * (grid_size * grid_size) == 6 * grid_size * grid_size) by (nonlinear_arith);
    indices
}

} // verus!
