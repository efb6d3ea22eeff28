use crate::cell::CellState;
use crate::flood::{lemma_reaches_opens, lemma_reveal_nothing};
use crate::grid_lemmas::{lemma_index_of, lemma_same_cells, lemma_traps_kept};
use crate::grid_state::{adjacent, GridState};
use crate::seeding::lemma_seeded;
use vstd::prelude::*;

verus! {

/// Right after construction every cell is hidden, unflagged and safe, with a count of
/// zero.
pub proof fn lemma_fresh_cells(width: nat, height: nat, trap_count: nat, x: int, y: int)
    requires
        width > 0,
        height > 0,
        GridState::fresh(width, height, trap_count).in_bounds(x, y),
    ensures
        GridState::fresh(width, height, trap_count).at(x, y) == CellState::fresh(),
        !GridState::fresh(width, height, trap_count).generated,
{
    lemma_index_of(GridState::fresh(width, height, trap_count), x, y);
}

/// What a reveal does to each cell: those it uncovers are uncovered, and nothing else
/// changes. The invariant of a grid whose traps are in place is kept.
pub proof fn lemma_revealed_at(g: GridState, sx: int, sy: int)
    requires
        g.shaped(),
    ensures
        g.revealed(sx, sy).shaped(),
        g.revealed(sx, sy).width == g.width,
        g.revealed(sx, sy).height == g.height,
        g.revealed(sx, sy).trap_count == g.trap_count,
        g.revealed(sx, sy).generated == g.generated,
        forall|x: int, y: int|
            g.in_bounds(x, y) ==> #[trigger] g.revealed(sx, sy).at(x, y) == if g.uncovers(
                sx,
                sy,
                x,
                y,
            ) {
                g.at(x, y).uncovered()
            } else {
                g.at(x, y)
            },
        g.wf() && g.generated ==> g.revealed(sx, sy).wf(),
{
    let after = g.revealed(sx, sy);
    assert forall|x: int, y: int| g.in_bounds(x, y) implies #[trigger] after.at(x, y)
        == if g.uncovers(sx, sy, x, y) {
        g.at(x, y).uncovered()
    } else {
        g.at(x, y)
    } by {
        lemma_index_of(g, x, y);
    }
    if g.wf() && g.generated {
        lemma_traps_kept(g, after);
    }
}

/// A reveal uncovers no flagged cell and moves no flag, wherever it is asked for.
pub proof fn lemma_flag_blocks_reveal(g: GridState, sx: int, sy: int, x: int, y: int)
    requires
        g.shaped(),
        g.in_bounds(x, y),
    ensures
        g.revealed(sx, sy).at(x, y).flagged == g.at(x, y).flagged,
        g.at(x, y).flagged ==> g.revealed(sx, sy).at(x, y) == g.at(x, y),
{
    lemma_revealed_at(g, sx, sy);
}

/// A reveal that is asked for a covered, unflagged, safe cell with no trap around it
/// uncovers that cell, every cell that a chain of such cells leads to from there, and
/// every unflagged neighbour of those cells. Every other cell stays as it is.
pub proof fn lemma_cascade(g: GridState, sx: int, sy: int)
    requires
        g.shaped(),
        g.opens(sx, sy),
    ensures
        !g.revealed(sx, sy).at(sx, sy).hidden,
        forall|x: int, y: int| #[trigger]
            g.reaches(sx, sy, x, y) ==> !g.revealed(sx, sy).at(x, y).hidden,
        forall|qx: int, qy: int, x: int, y: int|
            #![trigger g.reaches(sx, sy, qx, qy), g.revealed(sx, sy).at(x, y)]
            g.reaches(sx, sy, qx, qy) && adjacent(qx, qy, x, y) && g.in_bounds(x, y) && !g.at(
                x,
                y,
            ).flagged ==> !g.revealed(sx, sy).at(x, y).hidden,
        forall|x: int, y: int|
            g.in_bounds(x, y) && !g.uncovers(sx, sy, x, y) ==> #[trigger] g.revealed(sx, sy).at(
                x,
                y,
            ) == g.at(x, y),
{
    lemma_revealed_at(g, sx, sy);
    let after = g.revealed(sx, sy);
    assert forall|x: int, y: int| #[trigger] g.reaches(sx, sy, x, y) implies !after.at(
        x,
        y,
    ).hidden by {
        lemma_reaches_opens(g, sx, sy, x, y);
    }
}

/// A reveal asked for a second time at the same place changes nothing more.
pub proof fn lemma_reveal_idempotent(g: GridState, x: int, y: int)
    requires
        g.shaped(),
    ensures
        g.revealed(x, y).revealed(x, y) == g.revealed(x, y),
{
    lemma_revealed_at(g, x, y);
    let once = g.revealed(x, y);
    if g.in_bounds(x, y) && g.at(x, y).hidden && !g.at(x, y).flagged {
        assert(g.uncovers(x, y, x, y));
        assert(!once.at(x, y).hidden);
    } else if g.in_bounds(x, y) {
        assert(!g.uncovers(x, y, x, y));
        assert(once.at(x, y) == g.at(x, y));
    }
    lemma_reveal_nothing(once, x, y);
}

/// Two reveals at the same place, one after the other, leave what the first one left,
/// whether or not the first one had to place the traps.
pub proof fn lemma_reveal_twice(a: GridState, x: int, y: int, b: GridState, c: GridState)
    requires
        a.wf(),
        a.reveal_outcome(x, y, b),
        b.reveal_outcome(x, y, c),
    ensures
        c == b,
{
    if !a.in_bounds(x, y) {
    } else if a.generated {
        lemma_revealed_at(a, x, y);
        lemma_reveal_idempotent(a, x, y);
    } else {
        let picks = choose|picks: Seq<usize>|
            a.valid_picks(x, y, picks) && b == (#[trigger] a.seeded(x, y, picks)).revealed(x, y);
        let mid = a.seeded(x, y, picks);
        lemma_seeded(a, x, y, picks);
        lemma_revealed_at(mid, x, y);
        lemma_reveal_idempotent(mid, x, y);
    }
}

/// What a flag toggle does to each cell: the flag of the cell that is asked for flips,
/// and nothing else changes.
pub proof fn lemma_flag_toggled_at(g: GridState, fx: int, fy: int)
    requires
        g.shaped(),
    ensures
        g.flag_toggled(fx, fy).shaped(),
        forall|x: int, y: int|
            g.in_bounds(x, y) ==> #[trigger] g.flag_toggled(fx, fy).at(x, y) == if x == fx && y
                == fy {
                g.at(x, y).flag_toggled()
            } else {
                g.at(x, y)
            },
{
    assert forall|x: int, y: int| g.in_bounds(x, y) implies #[trigger] g.flag_toggled(fx, fy).at(
        x,
        y,
    ) == if x == fx && y == fy {
        g.at(x, y).flag_toggled()
    } else {
        g.at(x, y)
    } by {
        lemma_index_of(g, x, y);
    }
}

/// Toggling the flag of a cell twice brings the grid back to what it was.
pub proof fn lemma_flag_twice(g: GridState, x: int, y: int)
    requires
        g.shaped(),
    ensures
        g.flag_toggled(x, y).flag_toggled(x, y) == g,
{
    lemma_flag_toggled_at(g, x, y);
    lemma_flag_toggled_at(g.flag_toggled(x, y), x, y);
    lemma_same_cells(g.flag_toggled(x, y).flag_toggled(x, y), g);
}

/// A reveal outside the grid leaves every cell as it is.
pub proof fn lemma_reveal_outside(g: GridState, x: int, y: int)
    requires
        g.shaped(),
        !g.in_bounds(x, y),
    ensures
        g.revealed(x, y) == g,
        forall|after: GridState| g.reveal_outcome(x, y, after) ==> after == g,
{
    lemma_reveal_nothing(g, x, y);
}

/// Whatever a reveal does, placing the traps included, it moves no flag and uncovers no
/// flagged cell.
pub proof fn lemma_reveal_respects_flags(a: GridState, sx: int, sy: int, b: GridState)
    requires
        a.wf(),
        a.reveal_outcome(sx, sy, b),
    ensures
        b.wf(),
        forall|x: int, y: int|
            a.in_bounds(x, y) ==> (#[trigger] b.at(x, y)).flagged == a.at(x, y).flagged && (a.at(
                x,
                y,
            ).flagged ==> b.at(x, y).hidden == a.at(x, y).hidden),
{
    if !a.in_bounds(sx, sy) {
    } else if a.generated {
        lemma_revealed_at(a, sx, sy);
    } else {
        let picks = choose|picks: Seq<usize>|
            a.valid_picks(sx, sy, picks) && b == (#[trigger] a.seeded(sx, sy, picks)).revealed(
                sx,
                sy,
            );
        let mid = a.seeded(sx, sy, picks);
        lemma_seeded(a, sx, sy, picks);
        lemma_revealed_at(mid, sx, sy);
        assert forall|x: int, y: int| a.in_bounds(x, y) implies (#[trigger] b.at(x, y)).flagged
            == a.at(x, y).flagged && (a.at(x, y).flagged ==> b.at(x, y).hidden == a.at(
            x,
            y,
        ).hidden) by {
            lemma_index_of(a, x, y);
            assert(mid.cells[a.index_of(x, y)].flagged == a.cells[a.index_of(x, y)].flagged);
            assert(mid.at(x, y).flagged == a.at(x, y).flagged);
        }
    }
}

} // verus!
