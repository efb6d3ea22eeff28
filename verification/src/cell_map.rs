use crate::cell::{Cell, CellState};
use crate::flood::{
    expanding, flooding, lemma_flood_begin, lemma_flood_done, lemma_flood_end, lemma_flood_skip,
    lemma_flood_take, lemma_flood_uncover, lemma_reveal_nothing, lemma_reveal_single,
    lemma_uncover_counts,
};
use crate::grid_lemmas::{
    lemma_coordinates_of, lemma_fresh_wf, lemma_index_matches, lemma_index_of, lemma_traps_kept,
    lemma_with_cell_at,
};
use crate::grid_state::GridState;
use crate::laws::lemma_reveal_respects_flags;
use crate::neighbours::{adjacency_offset, offset, shifted};
use crate::random::random_below;
use crate::seeding::{
    lemma_nth_free, lemma_seeded, lemma_seeding_begins, lemma_trap_placed,
    lemma_trap_spread_done, lemma_trap_spread_skip, lemma_trap_spread_step, same_cover, seeding,
    trap_spreading,
};
use crate::tally::{count_below, lemma_nth_where_is};
use vstd::prelude::*;

verus! {

/// Why a grid could not be built, or its traps not placed.
#[derive(Clone, Copy, Debug, PartialEq, Eq, Structural)]
pub enum GridError {
    /// The width or the height is zero.
    EmptyGrid,
    /// The number of cells does not fit the machine's word.
    TooLarge,
    /// There are at least as many traps as cells, so no cell could be kept safe.
    TooManyTraps,
    /// The ranks handed in for the traps are too few, too many, or out of range.
    BadPicks,
}

/// The grid of cells: a rectangle of fixed size, the number of traps it is to hold, and
/// whether they have been placed yet.
pub struct CellMap {
    width: usize,
    height: usize,
    cells: Vec<Cell>,
    has_generated: bool,
    trap_count: usize,
}

impl View for CellMap {
    type V = GridState;

    closed spec fn view(&self) -> GridState {
        GridState {
            width: self.width as nat,
            height: self.height as nat,
            trap_count: self.trap_count as nat,
            generated: self.has_generated,
            cells: states_of(self.cells@),
        }
    }
}

/// The states of a row of cells, in the same order.
pub open spec fn states_of(cells: Seq<Cell>) -> Seq<CellState> {
    cells.map_values(|c: Cell| c@)
}

/// Replacing one cell replaces its state and no other.
proof fn lemma_states_of_update(cells: Seq<Cell>, i: int)
    requires
        0 <= i < cells.len(),
    ensures
        forall|c: Cell| #[trigger] states_of(cells.update(i, c)) == states_of(cells).update(i, c@),
{
    assert forall|c: Cell| #[trigger]
        states_of(cells.update(i, c)) == states_of(cells).update(i, c@) by {
        assert(states_of(cells.update(i, c)) =~= states_of(cells).update(i, c@));
    }
}

impl CellMap {
    /// Builds a grid of `width` by `height` fresh cells that is to hold `trap_count` traps.
    /// A grid without cells is refused, and so is one that cannot keep a cell safe.
    pub fn new(width: usize, height: usize, trap_count: usize) -> (r: Result<CellMap, GridError>)
        ensures
            r matches Ok(grid) ==> grid@ == GridState::fresh(
                width as nat,
                height as nat,
                trap_count as nat,
            ) && grid@.wf(),
            r is Ok <==> width > 0 && height > 0 && width * height <= usize::MAX && trap_count
                < width * height,
            r == Err::<CellMap, GridError>(GridError::EmptyGrid) <==> width == 0 || height == 0,
            r == Err::<CellMap, GridError>(GridError::TooLarge) <==> width > 0 && height > 0
                && width * height > usize::MAX,
            r == Err::<CellMap, GridError>(GridError::TooManyTraps) <==> width > 0 && height > 0
                && width * height <= usize::MAX && trap_count >= width * height,
    {
        if width == 0 || height == 0 {
            return Err(GridError::EmptyGrid);
        }
        let total = match width.checked_mul(height) {
            Some(total) => total,
            None => {
                return Err(GridError::TooLarge);
            },
        };
        if trap_count >= total {
            return Err(GridError::TooManyTraps);
        }
        let mut cells = Vec::<Cell>::with_capacity(total);
        for n in 0..total
            invariant
                cells@.len() == n,
                forall|i: int| 0 <= i < n ==> (#[trigger] cells@[i])@ == CellState::fresh(),
        {
            cells.push(Cell::default());
        }
        let grid = CellMap { cells, width, height, has_generated: false, trap_count };
        proof {
            let fresh = GridState::fresh(width as nat, height as nat, trap_count as nat);
            assert(grid@.cells =~= fresh.cells);
            lemma_fresh_wf(width as nat, height as nat, trap_count as nat);
        }
        Ok(grid)
    }

    /// The width and the height of the grid.
    pub fn get_dimensions(&self) -> (r: (usize, usize))
        ensures
            r.0 == self@.width,
            r.1 == self@.height,
    {
        (self.width, self.height)
    }

    /// The cell at `(x, y)`, or nothing where `(x, y)` lies outside the grid. Whatever the
    /// caller leaves in the cell is what the grid holds at `(x, y)` afterwards.
    pub fn get_cell(&mut self, x: i32, y: i32) -> (r: Option<&mut Cell>)
        requires
            old(self)@.shaped(),
        ensures
            r is Some <==> old(self)@.in_bounds(x as int, y as int),
            r matches Some(cell) ==> cell@ == old(self)@.at(x as int, y as int) && final(self)@
                == old(self)@.with_cell(x as int, y as int, final(cell)@),
            r is None ==> final(self)@ == old(self)@,
    {
        if x >= 0 && y >= 0 && (x as usize) < self.width && (y as usize) < self.height {
            Some(self.cell_at_mut(x as usize, y as usize))
        } else {
            None
        }
    }

    /// The cell at `(x, y)`, which lies in the grid.
    fn cell_at(&self, x: usize, y: usize) -> (cell: &Cell)
        requires
            self@.shaped(),
            self@.in_bounds(x as int, y as int),
        ensures
            cell@ == self@.at(x as int, y as int),
    {
        proof {
            lemma_index_of(self@, x as int, y as int);
            assert(self.cells@.len() == self.cells.len() <= usize::MAX);
        }
        &self.cells[x + y * self.width]
    }

    /// The cell at `(x, y)`, which lies in the grid, to be changed in place.
    fn cell_at_mut(&mut self, x: usize, y: usize) -> (cell: &mut Cell)
        requires
            old(self)@.shaped(),
            old(self)@.in_bounds(x as int, y as int),
        ensures
            cell@ == old(self)@.at(x as int, y as int),
            final(self)@ == old(self)@.with_cell(x as int, y as int, final(cell)@),
    {
        proof {
            lemma_index_of(self@, x as int, y as int);
            assert(self.cells@.len() == self.cells.len() <= usize::MAX);
            lemma_states_of_update(self.cells@, self@.index_of(x as int, y as int));
        }
        &mut self.cells[x + y * self.width]
    }

    /// The neighbour of `(x, y)` that step `k` of the walk leads to, if the grid has one
    /// there.
    fn neighbour(&self, x: usize, y: usize, k: usize) -> (r: Option<(usize, usize)>)
        requires
            self@.in_bounds(x as int, y as int),
            k < 8,
        ensures
            r is Some <==> self@.in_bounds(x + offset(k as int).0, y + offset(k as int).1),
            r matches Some(n) ==> n.0 == x + offset(k as int).0 && n.1 == y + offset(k as int).1,
    {
        let (dx, dy) = adjacency_offset(k);
        match (shifted(x, dx, self.width), shifted(y, dy, self.height)) {
            (Some(nx), Some(ny)) => Some((nx, ny)),
            _ => None,
        }
    }

    /// Puts a trap on the cell at `(x, y)`, which holds none, and raises the numbers on
    /// the cells around it.
    fn place_bomb(&mut self, x: usize, y: usize)
        requires
            old(self)@.shaped(),
            old(self)@.counts_consistent(),
            old(self)@.in_bounds(x as int, y as int),
            !old(self)@.at(x as int, y as int).trap,
        ensures
            final(self)@ == old(self)@.with_trap(x as int, y as int),
    {
        let ghost start = self@;
        self.cell_at_mut(x, y).make_trap();
        proof {
            lemma_with_cell_at(start, x as int, y as int, start.at(x as int, y as int).trapped());
        }
        let mut k: usize = 0;
        while k < 8
            invariant
                k <= 8,
                start.shaped(),
                start.counts_consistent(),
                start.in_bounds(x as int, y as int),
                !start.at(x as int, y as int).trap,
                trap_spreading(start, self@, x as int, y as int, k as int),
            decreases 8 - k,
        {
            let ghost now = self@;
            match self.neighbour(x, y, k) {
                Some((nx, ny)) => {
                    proof {
                        lemma_trap_spread_step(
                            start,
                            now,
                            x as int,
                            y as int,
                            k as int,
                            nx as int,
                            ny as int,
                        );
                    }
                    self.cell_at_mut(nx, ny).increment_adjacent_trap_count();
                },
                None => {
                    proof {
                        lemma_trap_spread_skip(start, now, x as int, y as int, k as int);
                    }
                },
            }
            k += 1;
        }
        proof {
            lemma_trap_spread_done(start, self@, x as int, y as int);
        }
    }

    /// Whether the cell at index `i` may take a trap while `(first_x, first_y)` is kept
    /// safe.
    fn is_free(&self, first_x: i32, first_y: i32, i: usize) -> (r: bool)
        requires
            self@.shaped(),
            i < self@.cells.len(),
        ensures
            r == self@.free(first_x as int, first_y as int, i as int),
    {
        proof {
            lemma_coordinates_of(self@, i as int);
        }
        let kept_safe = first_x >= 0 && first_y >= 0 && i % self.width == first_x as usize && i
            / self.width == first_y as usize;
        !kept_safe && !self.cells[i].is_trap()
    }

    /// The cell of rank `rank` among those that may take a trap while
    /// `(first_x, first_y)` is kept safe.
    fn nth_free_cell(&self, first_x: i32, first_y: i32, rank: usize) -> (r: (usize, usize))
        requires
            self@.shaped(),
            rank < self@.free_total(first_x as int, first_y as int),
        ensures
            self@.in_bounds(r.0 as int, r.1 as int),
            r.0 == self@.column_of(self@.nth_free(first_x as int, first_y as int, rank as int)),
            r.1 == self@.row_of(self@.nth_free(first_x as int, first_y as int, rank as int)),
    {
        let ghost free = |i: int| self@.free(first_x as int, first_y as int, i);
        let ghost total = self@.cells.len() as int;
        let mut seen: usize = 0;
        let mut i: usize = 0;
        proof {
            assert(self.cells@.len() == self.cells.len() <= usize::MAX);
        }
        loop
            invariant
                self@.shaped(),
                total == self@.cells.len() == self.cells@.len() <= usize::MAX,
                free == |i: int| self@.free(first_x as int, first_y as int, i),
                i < total,
                seen == count_below(i as int, free),
                seen <= rank < count_below(total, free),
            decreases total - i,
        {
            if self.is_free(first_x, first_y, i) {
                if seen == rank {
                    proof {
                        lemma_nth_where_is(total, free, rank as int, i as int);
                        lemma_coordinates_of(self@, i as int);
                    }
                    return (i % self.width, i / self.width);
                }
                seen += 1;
            }
            i += 1;
        }
    }

    /// Whether `picks` can direct the placement of the traps while
    /// `(first_x, first_y)` is kept safe.
    fn picks_fit(&self, first_x: i32, first_y: i32, picks: &Vec<usize>) -> (r: bool)
        requires
            self@.shaped(),
        ensures
            r == self@.valid_picks(first_x as int, first_y as int, picks@),
    {
        if picks.len() != self.trap_count {
            return false;
        }
        proof {
            assert(self.cells@.len() == self.cells.len() <= usize::MAX);
        }
        let inside = first_x >= 0 && first_y >= 0 && (first_x as usize) < self.width && (
        first_y as usize) < self.height;
        proof {
            if inside {
                lemma_index_of(self@, first_x as int, first_y as int);
            }
        }
        let candidates = if inside {
            self.cells.len() - 1
        } else {
            self.cells.len()
        };
        let mut k: usize = 0;
        while k < picks.len()
            invariant
                k <= picks.len(),
                candidates == self@.candidates(first_x as int, first_y as int),
                forall|j: int| 0 <= j < k ==> (#[trigger] picks@[j]) < candidates - j,
            decreases picks.len() - k,
        {
            if k >= candidates || picks[k] >= candidates - k {
                return false;
            }
            k += 1;
        }
        true
    }

    /// Places one trap for each of `picks`, which fit, on a grid that holds none yet.
    fn place_traps(&mut self, first_x: i32, first_y: i32, picks: &Vec<usize>)
        requires
            old(self)@.wf(),
            !old(self)@.generated,
            old(self)@.valid_picks(first_x as int, first_y as int, picks@),
        ensures
            final(self)@.wf(),
            final(self)@ == old(self)@.seeded(first_x as int, first_y as int, picks@),
    {
        let ghost start = self@;
        let ghost fx = first_x as int;
        let ghost fy = first_y as int;
        proof {
            lemma_seeding_begins(start, fx, fy);
            assert(picks@.skip(0) =~= picks@);
        }
        let mut k: usize = 0;
        while k < picks.len()
            invariant
                k <= picks.len(),
                fx == first_x,
                fy == first_y,
                start.valid_picks(fx, fy, picks@),
                !self@.generated,
                self@.trap_count == start.trap_count,
                self@.cells.len() == start.cells.len(),
                self@.width == start.width,
                self@.height == start.height,
                seeding(self@, fx, fy, k as int),
                self@.trapped_by(fx, fy, picks@.skip(k as int)) == start.trapped_by(fx, fy, picks@),
            decreases picks.len() - k,
        {
            let ghost now = self@;
            proof {
                assert(picks@[k as int] < start.candidates(fx, fy) - k);
                lemma_nth_free(now, fx, fy, picks@[k as int] as int);
            }
            let (tx, ty) = self.nth_free_cell(first_x, first_y, picks[k]);
            self.place_bomb(tx, ty);
            proof {
                lemma_trap_placed(now, fx, fy, k as int, tx as int, ty as int);
                let rest = picks@.skip(k as int);
                assert(rest[0] == picks@[k as int]);
                assert(rest.drop_first() =~= picks@.skip(k + 1));
            }
            k += 1;
        }
        self.has_generated = true;
        proof {
            assert(picks@.skip(picks@.len() as int) =~= Seq::<usize>::empty());
            lemma_seeded(start, fx, fy, picks@);
            assert(self@ == start.seeded(fx, fy, picks@));
        }
    }

    /// Places the traps as `picks` direct, unless they are in place already: one trap for
    /// each pick, in order, on the cell of that rank among the cells that are still free.
    /// A cell is free while it holds no trap and is not `(first_x, first_y)`, which is kept
    /// safe; the free cells are ranked from zero, row by row. Picks that do not fit are
    /// refused, and the grid stays as it is.
    pub fn generate_with(&mut self, first_x: i32, first_y: i32, picks: &Vec<usize>) -> (r: Result<
        (),
        GridError,
    >)
        requires
            old(self)@.wf(),
        ensures
            final(self)@.wf(),
            old(self)@.generated ==> r is Ok && final(self)@ == old(self)@,
            !old(self)@.generated && !old(self)@.valid_picks(first_x as int, first_y as int, picks@)
                ==> r == Err::<(), GridError>(GridError::BadPicks) && final(self)@ == old(self)@,
            !old(self)@.generated && old(self)@.valid_picks(first_x as int, first_y as int, picks@)
                ==> r is Ok && final(self)@ == old(self)@.seeded(
                first_x as int,
                first_y as int,
                picks@,
            ),
    {
        if self.has_generated {
            return Ok(());
        }
        if !self.picks_fit(first_x, first_y, picks) {
            return Err(GridError::BadPicks);
        }
        self.place_traps(first_x, first_y, picks);
        Ok(())
    }

    /// Places the traps at random, unless they are in place already. The cell at
    /// `(first_x, first_y)` is kept safe. Each trap goes to a cell drawn evenly from those
    /// that are still free.
    pub fn generate(&mut self, first_x: i32, first_y: i32)
        requires
            old(self)@.wf(),
        ensures
            final(self)@.wf(),
            final(self)@.generated,
            same_cover(old(self)@, final(self)@),
            old(self)@.generated ==> final(self)@ == old(self)@,
            !old(self)@.generated ==> !final(self)@.trap_at(first_x as int, first_y as int),
            !old(self)@.generated ==> exists|picks: Seq<usize>|
                old(self)@.valid_picks(first_x as int, first_y as int, picks) && final(self)@
                    == #[trigger] old(self)@.seeded(first_x as int, first_y as int, picks),
    {
        if self.has_generated {
            return ;
        }
        proof {
            assert(self.cells@.len() == self.cells.len() <= usize::MAX);
        }
        let inside = first_x >= 0 && first_y >= 0 && (first_x as usize) < self.width && (
        first_y as usize) < self.height;
        let candidates = if inside {
            self.cells.len() - 1
        } else {
            self.cells.len()
        };
        let mut picks: Vec<usize> = Vec::new();
        let mut k: usize = 0;
        while k < self.trap_count
            invariant
                k <= self.trap_count <= candidates,
                picks@.len() == k,
                forall|j: int| 0 <= j < k ==> (#[trigger] picks@[j]) < candidates - j,
            decreases self.trap_count - k,
        {
            picks.push(random_below(candidates - k));
            k += 1;
        }
        proof {
            lemma_seeded(self@, first_x as int, first_y as int, picks@);
        }
        self.place_traps(first_x, first_y, &picks);
    }

    /// Reveals at `(x, y)`, which lies in the grid, whatever traps the grid holds.
    fn cascade(&mut self, x: usize, y: usize)
        requires
            old(self)@.shaped(),
            old(self)@.in_bounds(x as int, y as int),
        ensures
            final(self)@ == old(self)@.revealed(x as int, y as int),
    {
        let ghost start = self@;
        let cell = self.cell_at(x, y);
        if cell.is_flagged() || !cell.is_hidden() {
            proof {
                lemma_reveal_nothing(start, x as int, y as int);
            }
            return ;
        }
        let blank = !cell.is_trap() && cell.get_adjacent_trap_count() == 0;
        self.cell_at_mut(x, y).uncover();
        if !blank {
            proof {
                lemma_reveal_single(start, x as int, y as int);
            }
            return ;
        }
        let mut pending: Vec<(usize, usize)> = Vec::new();
        pending.push((x, y));
        proof {
            lemma_flood_begin(start, x, y);
            assert(pending@ =~= seq![(x, y)]);
        }
        while pending.len() > 0
            invariant
                flooding(start, self@, x as int, y as int, pending@),
            decreases self@.hidden_total() + pending.len(),
        {
            let ghost queue = pending@;
            let (cx, cy) = pending.pop().unwrap();
            proof {
                lemma_flood_take(start, self@, x as int, y as int, queue);
            }
            let ghost budget = self@.hidden_total() + pending@.len();
            let mut k: usize = 0;
            while k < 8
                invariant
                    k <= 8,
                    self@.in_bounds(cx as int, cy as int),
                    expanding(
                        start,
                        self@,
                        x as int,
                        y as int,
                        pending@,
                        cx as int,
                        cy as int,
                        k as int,
                    ),
                    self@.hidden_total() + pending@.len() <= budget,
                decreases 8 - k,
            {
                let ghost now = self@;
                let ghost waiting_cells = pending@;
                let mut found = false;
                if let Some((nx, ny)) = self.neighbour(cx, cy, k) {
                    let cell = self.cell_at(nx, ny);
                    if cell.is_hidden() && !cell.is_flagged() {
                        let blank = !cell.is_trap() && cell.get_adjacent_trap_count() == 0;
                        proof {
                            lemma_flood_uncover(
                                start,
                                now,
                                x as int,
                                y as int,
                                waiting_cells,
                                cx as int,
                                cy as int,
                                k as int,
                                nx,
                                ny,
                            );
                            lemma_uncover_counts(now, nx as int, ny as int);
                        }
                        self.cell_at_mut(nx, ny).uncover();
                        if blank {
                            pending.push((nx, ny));
                        }
                        found = true;
                    }
                }
                proof {
                    if !found {
                        lemma_flood_skip(
                            start,
                            now,
                            x as int,
                            y as int,
                            waiting_cells,
                            cx as int,
                            cy as int,
                            k as int,
                        );
                    }
                }
                k += 1;
            }
            proof {
                lemma_flood_done(start, self@, x as int, y as int, pending@, cx as int, cy as int);
            }
        }
        proof {
            assert(pending@ =~= Seq::empty());
            lemma_flood_end(start, self@, x as int, y as int);
        }
    }

    /// Reveals at `(x, y)`. Outside the grid nothing happens. On a grid without traps yet,
    /// they are placed first, with `(x, y)` kept safe. Then a flagged or uncovered cell
    /// stays as it is; a covered cell is uncovered, and where it is safe and has no trap
    /// around it, so are its neighbours, and theirs in turn under the same rule.
    pub fn reveal_cell(&mut self, x: i32, y: i32)
        requires
            old(self)@.wf(),
        ensures
            final(self)@.wf(),
            old(self)@.reveal_outcome(x as int, y as int, final(self)@),
            forall|cx: int, cy: int|
                old(self)@.in_bounds(cx, cy) ==> (#[trigger] final(self)@.at(cx, cy)).flagged
                    == old(self)@.at(cx, cy).flagged && (old(self)@.at(cx, cy).flagged
                    ==> final(self)@.at(cx, cy).hidden == old(self)@.at(cx, cy).hidden),
    {
        let ghost before = self@;
        if x >= 0 && y >= 0 && (x as usize) < self.width && (y as usize) < self.height {
            if !self.has_generated {
                self.generate(x, y);
            }
            self.cascade(x as usize, y as usize);
        }
        proof {
            lemma_reveal_respects_flags(before, x as int, y as int, self@);
        }
    }

    /// Toggles the flag on the cell at `(x, y)`. Outside the grid nothing happens.
    pub fn flag_cell(&mut self, x: i32, y: i32)
        requires
            old(self)@.wf(),
        ensures
            final(self)@.wf(),
            final(self)@ == old(self)@.flag_toggled(x as int, y as int),
    {
        let ghost before = self@;
        if let Some(cell) = self.get_cell(x, y) {
            cell.toggle_flag();
        }
        proof {
            let after = before.flag_toggled(x as int, y as int);
            if before.in_bounds(x as int, y as int) {
                lemma_index_of(before, x as int, y as int);
            }
            assert(self@.cells =~= after.cells) by {
                assert forall|i: int| 0 <= i < before.cells.len() implies self@.cells[i]
                    == after.cells[i] by {
                    if before.in_bounds(x as int, y as int) {
                        lemma_index_matches(before, x as int, y as int, i);
                    } else {
                        lemma_coordinates_of(before, i);
                    }
                }
            }
            lemma_traps_kept(before, self@);
        }
    }
}

} // verus!
