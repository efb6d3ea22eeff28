use crate::cell::CellState;
use crate::grid_state::GridState;
use vstd::prelude::*;

verus! {

/// A cell's index lies in `cells`, and its column and row are read back from it.
pub proof fn lemma_index_of(g: GridState, x: int, y: int)
    requires
        g.shaped(),
        g.in_bounds(x, y),
    ensures
        0 <= g.index_of(x, y) < g.cells.len(),
        g.column_of(g.index_of(x, y)) == x,
        g.row_of(g.index_of(x, y)) == y,
{
    let w = g.width as int;
    let h = g.height as int;
    assert(0 <= y * w && y * w + w <= h * w) by (nonlinear_arith)
        requires
            0 <= y < h,
            0 < w,
    ;
    assert(h * w == w * h) by (nonlinear_arith);
    vstd::arithmetic::div_mod::lemma_fundamental_div_mod_converse(y * w + x, w, y, x);
}

/// Every index of `cells` is the index of the cell at its column and row.
pub proof fn lemma_coordinates_of(g: GridState, i: int)
    requires
        g.shaped(),
        0 <= i < g.cells.len(),
    ensures
        g.in_bounds(g.column_of(i), g.row_of(i)),
        g.index_of(g.column_of(i), g.row_of(i)) == i,
{
    let w = g.width as int;
    let h = g.height as int;
    vstd::arithmetic::div_mod::lemma_fundamental_div_mod(i, w);
    vstd::arithmetic::div_mod::lemma_mod_pos_bound(i, w);
    let q = i / w;
    let r = i % w;
    assert(w * q == q * w) by (nonlinear_arith);
    assert(0 <= q < h) by (nonlinear_arith)
        requires
            0 <= r < w,
            0 <= i < w * h,
            i == q * w + r,
    ;
}

/// Two grids of one shape whose cells agree at every position are the same cells.
pub proof fn lemma_same_cells(a: GridState, b: GridState)
    requires
        a.shaped(),
        a.width == b.width,
        a.height == b.height,
        a.cells.len() == b.cells.len(),
        forall|x: int, y: int| a.in_bounds(x, y) ==> #[trigger] a.at(x, y) == b.at(x, y),
    ensures
        a.cells == b.cells,
{
    assert forall|i: int| 0 <= i < a.cells.len() implies a.cells[i] == b.cells[i] by {
        lemma_coordinates_of(a, i);
        assert(a.at(a.column_of(i), a.row_of(i)) == b.at(a.column_of(i), a.row_of(i)));
    }
    assert(a.cells =~= b.cells);
}

/// In a remapped grid, the cell at a position is what the function makes of that position
/// and the cell that stood there.
pub proof fn lemma_remap_at(g: GridState, f: spec_fn(int, int, CellState) -> CellState)
    requires
        g.shaped(),
    ensures
        g.remap(f).shaped(),
        forall|x: int, y: int|
            g.in_bounds(x, y) ==> #[trigger] g.remap(f).at(x, y) == f(x, y, g.at(x, y)),
{
    assert forall|x: int, y: int| g.in_bounds(x, y) implies #[trigger] g.remap(f).at(x, y) == f(
        x,
        y,
        g.at(x, y),
    ) by {
        lemma_index_of(g, x, y);
    }
}

/// An index is that of the cell `(x, y)` exactly when its column is `x` and its row is `y`.
pub proof fn lemma_index_matches(g: GridState, x: int, y: int, i: int)
    requires
        g.shaped(),
        g.in_bounds(x, y),
        0 <= i < g.cells.len(),
    ensures
        (g.column_of(i) == x && g.row_of(i) == y) <==> i == g.index_of(x, y),
{
    lemma_index_of(g, x, y);
    lemma_coordinates_of(g, i);
}

/// Changes that leave every trap and every number in place keep the numbers right and
/// the trap total the same.
pub proof fn lemma_traps_kept(a: GridState, b: GridState)
    requires
        a.shaped(),
        a.width == b.width,
        a.height == b.height,
        a.cells.len() == b.cells.len(),
        forall|i: int|
            0 <= i < a.cells.len() ==> (#[trigger] b.cells[i]).trap == a.cells[i].trap
                && b.cells[i].adjacent_traps == a.cells[i].adjacent_traps,
    ensures
        b.trap_total() == a.trap_total(),
        a.counts_consistent() ==> b.counts_consistent(),
        forall|x: int, y: int| #[trigger] b.trap_neighbours(x, y) == a.trap_neighbours(x, y),
{
    crate::tally::lemma_count_agree(
        a.cells.len() as int,
        |i: int| a.cells[i].trap,
        |i: int| b.cells[i].trap,
    );
    assert forall|x: int, y: int| #[trigger] b.trap_weight(x, y) == a.trap_weight(x, y) by {
        if a.in_bounds(x, y) {
            lemma_index_of(a, x, y);
        }
    }
    assert forall|x: int, y: int| #[trigger]
        b.trap_neighbours(x, y) == a.trap_neighbours(x, y) by {}
    if a.counts_consistent() {
        assert forall|x: int, y: int| b.in_bounds(x, y) implies #[trigger] b.count_right(x, y) by {
            lemma_index_of(a, x, y);
            assert(a.count_right(x, y));
        }
    }
}

/// In a grid with one cell replaced, that cell is the new one and every other is as before.
pub proof fn lemma_with_cell_at(g: GridState, x: int, y: int, cell: CellState)
    requires
        g.shaped(),
        g.in_bounds(x, y),
    ensures
        g.with_cell(x, y, cell).shaped(),
        g.with_cell(x, y, cell).at(x, y) == cell,
        forall|px: int, py: int|
            g.in_bounds(px, py) && !(px == x && py == y) ==> #[trigger] g.with_cell(x, y, cell).at(
                px,
                py,
            ) == g.at(px, py),
{
    lemma_index_of(g, x, y);
    assert forall|px: int, py: int| g.in_bounds(px, py) && !(px == x && py == y) implies #[trigger]
        g.with_cell(x, y, cell).at(px, py) == g.at(px, py) by {
        lemma_index_of(g, px, py);
    }
}

/// A fresh grid with room for its traps and one safe cell satisfies the invariant.
pub proof fn lemma_fresh_wf(width: nat, height: nat, trap_count: nat)
    requires
        width > 0,
        height > 0,
        trap_count < width * height,
    ensures
        GridState::fresh(width, height, trap_count).wf(),
{
    let g = GridState::fresh(width, height, trap_count);
    assert forall|x: int, y: int| g.in_bounds(x, y) implies #[trigger] g.count_right(x, y) by {
        lemma_index_of(g, x, y);
        assert forall|px: int, py: int| #[trigger] g.trap_weight(px, py) == 0 by {
            if g.in_bounds(px, py) {
                lemma_index_of(g, px, py);
            }
        }
    }
}

} // verus!
