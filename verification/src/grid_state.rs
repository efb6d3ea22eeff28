use crate::cell::CellState;
use crate::tally::{count_below, nth_where};
use vstd::prelude::*;

verus! {

/// Whether two positions are neighbours: distinct, and at most one step apart along each
/// axis. Every position has up to eight neighbours.
pub open spec fn adjacent(ax: int, ay: int, bx: int, by: int) -> bool {
    &&& -1 <= bx - ax <= 1
    &&& -1 <= by - ay <= 1
    &&& !(ax == bx && ay == by)
}

/// The grid as a mathematical value: its dimensions, the number of traps it is meant to
/// hold, whether the traps have been placed, and the cells row by row.
pub struct GridState {
    pub width: nat,
    pub height: nat,
    pub trap_count: nat,
    pub generated: bool,
    pub cells: Seq<CellState>,
}

impl GridState {
    /// Whether `(x, y)` names a cell of the grid.
    pub open spec fn in_bounds(self, x: int, y: int) -> bool {
        0 <= x < self.width && 0 <= y < self.height
    }

    /// Where the cell `(x, y)` stands in `cells`.
    pub open spec fn index_of(self, x: int, y: int) -> int {
        y * self.width + x
    }

    /// The column of the cell at index `i`.
    pub open spec fn column_of(self, i: int) -> int {
        i % (self.width as int)
    }

    /// The row of the cell at index `i`.
    pub open spec fn row_of(self, i: int) -> int {
        i / (self.width as int)
    }

    /// The cell at `(x, y)`.
    pub open spec fn at(self, x: int, y: int) -> CellState {
        self.cells[self.index_of(x, y)]
    }

    /// Whether `(x, y)` is a cell of the grid that holds a trap.
    pub open spec fn trap_at(self, x: int, y: int) -> bool {
        self.in_bounds(x, y) && self.at(x, y).trap
    }

    /// One if `(x, y)` is a cell of the grid that holds a trap, zero otherwise.
    pub open spec fn trap_weight(self, x: int, y: int) -> nat {
        if self.trap_at(x, y) {
            1
        } else {
            0
        }
    }

    /// How many of the eight positions around `(x, y)` are cells that hold a trap.
    pub open spec fn trap_neighbours(self, x: int, y: int) -> nat {
        self.trap_weight(x, y + 1) + self.trap_weight(x + 1, y + 1) + self.trap_weight(x + 1, y)
            + self.trap_weight(x + 1, y - 1) + self.trap_weight(x, y - 1) + self.trap_weight(
            x - 1,
            y - 1,
        ) + self.trap_weight(x - 1, y) + self.trap_weight(x - 1, y + 1)
    }

    /// How many cells hold a trap.
    pub open spec fn trap_total(self) -> nat {
        count_below(self.cells.len() as int, |i: int| self.cells[i].trap)
    }

    /// How many cells are still hidden.
    pub open spec fn hidden_total(self) -> nat {
        count_below(self.cells.len() as int, |i: int| self.cells[i].hidden)
    }

    /// The grid has at least one cell, and `cells` holds exactly its rows.
    pub open spec fn shaped(self) -> bool {
        &&& self.width > 0
        &&& self.height > 0
        &&& self.cells.len() == self.width * self.height
    }

    /// The number on the cell at `(x, y)` is the number of traps around it.
    pub open spec fn count_right(self, x: int, y: int) -> bool {
        self.at(x, y).adjacent_traps == self.trap_neighbours(x, y)
    }

    /// The number on every cell is the number of traps around it.
    pub open spec fn counts_consistent(self) -> bool {
        forall|x: int, y: int| self.in_bounds(x, y) ==> #[trigger] self.count_right(x, y)
    }

    /// Nothing has happened to any cell but, perhaps, flagging.
    pub open spec fn untouched(self) -> bool {
        forall|i: int|
            #![trigger self.cells[i]]
            0 <= i < self.cells.len() ==> self.cells[i].hidden && !self.cells[i].trap
                && self.cells[i].adjacent_traps == 0
    }

    /// The invariant of the grid. There is room for the traps and one safe cell; the
    /// numbers on the cells are right; once the traps are placed there are exactly
    /// `trap_count` of them, and until then no cell holds a trap or has been revealed.
    pub open spec fn wf(self) -> bool {
        &&& self.shaped()
        &&& self.trap_count < self.cells.len()
        &&& self.counts_consistent()
        &&& self.generated ==> self.trap_total() == self.trap_count
        &&& !self.generated ==> self.untouched()
    }

    /// The grid as it is right after construction.
    pub open spec fn fresh(width: nat, height: nat, trap_count: nat) -> GridState {
        GridState {
            width,
            height,
            trap_count,
            generated: false,
            cells: Seq::new(width * height, |i: int| CellState::fresh()),
        }
    }

    /// The grid in which every cell is replaced by what `f` makes of its column, its row
    /// and its old state.
    pub open spec fn remap(self, f: spec_fn(int, int, CellState) -> CellState) -> GridState {
        GridState {
            cells: Seq::new(
                self.cells.len(),
                |i: int| f(self.column_of(i), self.row_of(i), self.cells[i]),
            ),
            ..self
        }
    }

    /// The grid with the cell at `(x, y)` replaced by `cell`.
    pub open spec fn with_cell(self, x: int, y: int, cell: CellState) -> GridState {
        GridState { cells: self.cells.update(self.index_of(x, y), cell), ..self }
    }

    /// The grid after the flag at `(x, y)` was toggled. Outside the grid there is nothing
    /// to toggle.
    pub open spec fn flag_toggled(self, x: int, y: int) -> GridState {
        self.remap(
            |cx: int, cy: int, c: CellState|
                if cx == x && cy == y {
                    c.flag_toggled()
                } else {
                    c
                },
        )
    }

    /// Whether revealing the cell at `(x, y)` opens up its neighbours: it is a covered,
    /// unflagged, safe cell with no trap around it.
    pub open spec fn opens(self, x: int, y: int) -> bool {
        &&& self.in_bounds(x, y)
        &&& self.at(x, y).hidden
        &&& !self.at(x, y).flagged
        &&& !self.at(x, y).trap
        &&& self.at(x, y).adjacent_traps == 0
    }

    /// Whether `path[k]` and `path[k + 1]` are neighbours.
    pub open spec fn step_at(path: Seq<(int, int)>, k: int) -> bool {
        adjacent(path[k].0, path[k].1, path[k + 1].0, path[k + 1].1)
    }

    /// Whether `path` is a chain: a walk from neighbour to neighbour over cells that all
    /// open up their neighbours.
    pub open spec fn is_chain(self, path: Seq<(int, int)>) -> bool {
        &&& path.len() > 0
        &&& forall|k: int| 0 <= k < path.len() ==> self.opens((#[trigger] path[k]).0, path[k].1)
        &&& forall|k: int| 0 <= k < path.len() - 1 ==> #[trigger] Self::step_at(path, k)
    }

    /// Whether a chain leads from `(sx, sy)` to `(x, y)`.
    pub open spec fn reaches(self, sx: int, sy: int, x: int, y: int) -> bool {
        exists|path: Seq<(int, int)>|
            #[trigger] self.is_chain(path) && path[0] == (sx, sy) && path.last() == (x, y)
    }

    /// Whether a reveal at `(sx, sy)` uncovers the cell at `(x, y)`. Only covered cells
    /// without a flag are uncovered: the cell that was asked for, every cell that a chain
    /// leads to from there, and every neighbour of such a cell.
    pub open spec fn uncovers(self, sx: int, sy: int, x: int, y: int) -> bool {
        &&& self.in_bounds(sx, sy)
        &&& self.in_bounds(x, y)
        &&& self.at(x, y).hidden
        &&& !self.at(x, y).flagged
        &&& {
            ||| (x == sx && y == sy)
            ||| self.reaches(sx, sy, x, y)
            ||| exists|qx: int, qy: int| #[trigger]
                self.reaches(sx, sy, qx, qy) && adjacent(qx, qy, x, y)
        }
    }

    /// The grid after a reveal at `(sx, sy)`, once the traps are in place.
    pub open spec fn revealed(self, sx: int, sy: int) -> GridState {
        self.remap(
            |x: int, y: int, c: CellState|
                if self.uncovers(sx, sy, x, y) {
                    c.uncovered()
                } else {
                    c
                },
        )
    }

    /// Whether the cell at index `i` may still take a trap while `(fx, fy)` is kept safe.
    pub open spec fn free(self, fx: int, fy: int, i: int) -> bool {
        !(self.column_of(i) == fx && self.row_of(i) == fy) && !self.cells[i].trap
    }

    /// How many cells may still take a trap while `(fx, fy)` is kept safe.
    pub open spec fn free_total(self, fx: int, fy: int) -> nat {
        count_below(self.cells.len() as int, |i: int| self.free(fx, fy, i))
    }

    /// The index of the `r`-th cell, counting from zero and row by row, that may still take
    /// a trap while `(fx, fy)` is kept safe.
    pub open spec fn nth_free(self, fx: int, fy: int, r: int) -> int {
        nth_where(self.cells.len() as int, |i: int| self.free(fx, fy, i), r)
    }

    /// How many cells may take a trap at all while `(fx, fy)` is kept safe.
    pub open spec fn candidates(self, fx: int, fy: int) -> int {
        if self.in_bounds(fx, fy) {
            self.cells.len() - 1
        } else {
            self.cells.len() as int
        }
    }

    /// Whether `picks` can direct the placement of the traps: one rank for each trap, each
    /// below the number of cells that are still free when its turn comes.
    pub open spec fn valid_picks(self, fx: int, fy: int, picks: Seq<usize>) -> bool {
        &&& picks.len() == self.trap_count
        &&& forall|k: int|
            0 <= k < picks.len() ==> (#[trigger] picks[k]) < self.candidates(fx, fy) - k
    }

    /// The grid with one more trap, at `(tx, ty)`, and the numbers around it raised by one.
    pub open spec fn with_trap(self, tx: int, ty: int) -> GridState {
        self.remap(
            |x: int, y: int, c: CellState|
                if x == tx && y == ty {
                    c.trapped()
                } else if adjacent(tx, ty, x, y) {
                    c.with_one_more_adjacent()
                } else {
                    c
                },
        )
    }

    /// The grid after one trap was placed for each of `picks`, in order: each goes to the
    /// free cell of that rank, where `(fx, fy)` is never free.
    pub open spec fn trapped_by(self, fx: int, fy: int, picks: Seq<usize>) -> GridState
        decreases picks.len(),
    {
        if picks.len() == 0 {
            self
        } else {
            let i = self.nth_free(fx, fy, picks[0] as int);
            self.with_trap(self.column_of(i), self.row_of(i)).trapped_by(
                fx,
                fy,
                picks.drop_first(),
            )
        }
    }

    /// The grid after generation directed by `picks`, with `(fx, fy)` kept safe.
    pub open spec fn seeded(self, fx: int, fy: int, picks: Seq<usize>) -> GridState {
        GridState { generated: true, ..self.trapped_by(fx, fy, picks) }
    }

    /// Whether `after` may be what a reveal at `(x, y)` leaves of this grid. Outside the
    /// grid nothing happens. On a grid without traps yet, they are placed first, with
    /// `(x, y)` kept safe, as some valid picks direct.
    pub open spec fn reveal_outcome(self, x: int, y: int, after: GridState) -> bool {
        if !self.in_bounds(x, y) {
            after == self
        } else if self.generated {
            after == self.revealed(x, y)
        } else {
            exists|picks: Seq<usize>|
                self.valid_picks(x, y, picks) && after == (#[trigger] self.seeded(
                    x,
                    y,
                    picks,
                )).revealed(x, y)
        }
    }
}

} // verus!
