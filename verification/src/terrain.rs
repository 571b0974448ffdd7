//! The index buffer of the terrain mesh: a square grid of cells, each drawn
//! as two triangles over a vertex grid that has one vertex more per row
//! than the grid has divisions.

use vstd::prelude::*;
use vstd::arithmetic::div_mod::lemma_fundamental_div_mod_converse;
use crate::fixed::lemma_product_bound;

verus! {

/// The largest number of divisions whose vertex indices fit 32 bits.
pub const MAX_DIVISIONS: i32 = 46340;

/// Number of cells along one side of the indexed grid.
pub open spec fn cells_per_side(divisions: int) -> int {
    if divisions <= 1 {
        0
    } else {
        divisions - 1
    }
}

/// Index `t` (0 to 5) of the cell in row `row` and column `col`: the two
/// triangles `(corner, diagonal, below)` and `(corner, right, diagonal)`,
/// where `corner` is the cell's own vertex and a row of vertices is
/// `divisions + 1` long.
pub open spec fn cell_index(divisions: int, row: int, col: int, t: int) -> int {
    let corner = row * (divisions + 1) + col;
    if t == 0 || t == 3 {
        corner
    } else if t == 1 || t == 5 {
        corner + (divisions + 1) + 1
    } else if t == 2 {
        corner + (divisions + 1)
    } else {
        corner + 1
    }
}

/// Entry `k` of the index buffer: the cells follow each other row by row,
/// six indices each.
pub open spec fn ebo_entry(divisions: int, k: int) -> int {
    let cell = k / 6;
    cell_index(
        divisions,
        cell / cells_per_side(divisions),
        cell % cells_per_side(divisions),
        k % 6,
    )
}

/// The index buffer of a terrain of `divisions` divisions.
pub open spec fn terrain_ebo(divisions: int) -> Seq<i32> {
    Seq::new(
        (6 * cells_per_side(divisions) * cells_per_side(divisions)) as nat,
        |k: int| ebo_entry(divisions, k) as i32,
    )
}

/// Entry `6 * (row * side + col) + t` of the index buffer is index `t` of the
/// cell at `row`, `col`.
proof fn lemma_entry_of_cell(divisions: int, row: int, col: int, t: int)
    requires
        divisions > 1,
        0 <= row < divisions - 1,
        0 <= col < divisions - 1,
        0 <= t < 6,
    ensures
        ebo_entry(divisions, 6 * (row * (divisions - 1) + col) + t) == cell_index(
            divisions,
            row,
            col,
            t,
        ),
        0 <= 6 * (row * (divisions - 1) + col) + t < 6 * (divisions - 1) * (divisions - 1),
{
    let side = divisions - 1;
    let cell = row * side + col;
    let k = 6 * cell + t;
    assert(0 <= row * side) by (nonlinear_arith)
        requires
            0 <= row,
            0 <= side,
    ;
    lemma_fundamental_div_mod_converse(k, 6, cell, t);
    lemma_fundamental_div_mod_converse(cell, side, row, col);
    assert(6 * cell + t < 6 * side * side) by (nonlinear_arith)
        requires
            cell == row * side + col,
            0 <= row <= side - 1,
            0 <= col <= side - 1,
            0 <= t < 6,
    ;
}

/// The largest index of a cell fits 32 bits.
proof fn lemma_cell_index_fits(divisions: int, row: int, col: int)
    requires
        1 < divisions <= MAX_DIVISIONS,
        0 <= row < divisions - 1,
        0 <= col < divisions - 1,
    ensures
        0 <= row * (divisions + 1),
        row * (divisions + 1) + col + (divisions + 1) + 1 <= i32::MAX,
{
    lemma_product_bound(row, divisions + 1, 46338, 46341);
    assert(0 <= row * (divisions + 1)) by (nonlinear_arith)
        requires
            0 <= row,
            0 <= divisions + 1,
    ;
}

/// Builds the index buffer of a terrain of `divisions` divisions: for every
/// cell of the grid, row by row, the six vertex indices of its two
/// triangles. A terrain of one division or fewer has no cell.
pub fn generate_terrian_ebo(divisions: i32) -> (output: Vec<i32>)
    requires
        divisions <= MAX_DIVISIONS,
    ensures
        output@ == terrain_ebo(divisions as int),
{
    let mut output: Vec<i32> = Vec::new();
    if divisions <= 1 {
        assert(output@ =~= terrain_ebo(divisions as int));
        return output;
    }
    let side = divisions - 1;
    let ghost all = terrain_ebo(divisions as int);
    for row in 0..side
        invariant
            1 < divisions <= MAX_DIVISIONS,
            side == divisions - 1,
            all == terrain_ebo(divisions as int),
            output@ == all.take(6 * (row * side)),
            0 <= 6 * (row * side) <= all.len(),
    {
        for col in 0..side
            invariant
                1 < divisions <= MAX_DIVISIONS,
                side == divisions - 1,
                0 <= row < side,
                all == terrain_ebo(divisions as int),
                output@ == all.take(6 * (row * side + col)),
                0 <= 6 * (row * side + col) <= all.len(),
        {
            proof {
                lemma_cell_index_fits(divisions as int, row as int, col as int);
                lemma_entry_of_cell(divisions as int, row as int, col as int, 0);
                lemma_entry_of_cell(divisions as int, row as int, col as int, 1);
                lemma_entry_of_cell(divisions as int, row as int, col as int, 2);
                lemma_entry_of_cell(divisions as int, row as int, col as int, 3);
                lemma_entry_of_cell(divisions as int, row as int, col as int, 4);
                lemma_entry_of_cell(divisions as int, row as int, col as int, 5);
            }
            let index = row * (divisions + 1) + col;
            let ghost base = 6 * (row * side + col);
            output.push(index);
            output.push(index + (divisions + 1) + 1);
            output.push(index + (divisions + 1));
            output.push(index);
            output.push(index + 1);
            output.push(index + (divisions + 1) + 1);
            assert(output@ =~= all.take(base + 6));
        }
        assert(6 * (row * side + side) == 6 * ((row + 1) * side)) by (nonlinear_arith);
    }
    assert(6 * (side * side) == 6 * side * side) by (nonlinear_arith);
    assert(all.take(all.len() as int) =~= all);
    output
}

} // verus!
