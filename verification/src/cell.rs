use vstd::prelude::*;

verus! {

/// What one grid position holds, as a mathematical value.
pub struct CellState {
    /// The cell has not been revealed yet.
    pub hidden: bool,
    /// The cell holds a trap.
    pub trap: bool,
    /// The player has put a flag on the cell.
    pub flagged: bool,
    /// The number recorded on the cell: how many of its neighbours hold a trap.
    pub adjacent_traps: nat,
}

impl CellState {
    /// The state every cell starts in: covered, safe, unflagged, with a count of zero.
    pub open spec fn fresh() -> CellState {
        CellState { hidden: true, trap: false, flagged: false, adjacent_traps: 0 }
    }

    /// The same cell, no longer hidden.
    pub open spec fn uncovered(self) -> CellState {
        CellState { hidden: false, ..self }
    }

    /// The same cell, now holding a trap.
    pub open spec fn trapped(self) -> CellState {
        CellState { trap: true, ..self }
    }

    /// The same cell with its flag flipped.
    pub open spec fn flag_toggled(self) -> CellState {
        CellState { flagged: !self.flagged, ..self }
    }

    /// The same cell with one more trap counted among its neighbours.
    pub open spec fn with_one_more_adjacent(self) -> CellState {
        CellState { adjacent_traps: self.adjacent_traps + 1, ..self }
    }
}

/// One addressable position of the grid.
#[derive(Debug)]
pub struct Cell {
    hidden: bool,
    is_trap: bool,
    is_flagged: bool,
    adjacent_trap_count: u8,
}

impl View for Cell {
    type V = CellState;

    closed spec fn view(&self) -> CellState {
        CellState {
            hidden: self.hidden,
            trap: self.is_trap,
            flagged: self.is_flagged,
            adjacent_traps: self.adjacent_trap_count as nat,
        }
    }
}

impl Cell {
    /// Whether the cell is still covered.
    pub fn is_hidden(&self) -> (r: bool)
        ensures
            r == self@.hidden,
    {
        self.hidden
    }

    /// Uncovers the cell. Uncovering an uncovered cell changes nothing.
    pub(crate) fn uncover(&mut self)
        ensures
            final(self)@ == old(self)@.uncovered(),
    {
        self.hidden = false;
    }

    /// Whether the cell holds a trap.
    pub fn is_trap(&self) -> (r: bool)
        ensures
            r == self@.trap,
    {
        self.is_trap
    }

    /// Puts a trap on the cell.
    pub(crate) fn make_trap(&mut self)
        ensures
            final(self)@ == old(self)@.trapped(),
    {
        self.is_trap = true;
    }

    /// Whether the cell carries a flag.
    pub fn is_flagged(&self) -> (r: bool)
        ensures
            r == self@.flagged,
    {
        self.is_flagged
    }

    /// Sets the flag if it was clear, and clears it if it was set.
    pub(crate) fn toggle_flag(&mut self)
        ensures
            final(self)@ == old(self)@.flag_toggled(),
    {
        self.is_flagged = !self.is_flagged;
    }

    /// The number of neighbouring traps recorded on the cell.
    pub fn get_adjacent_trap_count(&self) -> (r: u8)
        ensures
            r == self@.adjacent_traps,
    {
        self.adjacent_trap_count
    }

    /// Records one more neighbouring trap. A cell has eight neighbours at most, so the
    /// count may only be raised while it is below eight.
    pub(crate) fn increment_adjacent_trap_count(&mut self)
        requires
            old(self)@.adjacent_traps < 8,
        ensures
            final(self)@ == old(self)@.with_one_more_adjacent(),
    {
        self.adjacent_trap_count += 1;
    }
}

impl Default for Cell {
    fn default() -> (r: Cell)
        ensures
            r@ == CellState::fresh(),
    {
        Cell { hidden: true, is_trap: false, is_flagged: false, adjacent_trap_count: 0 }
    }
}

} // verus!
