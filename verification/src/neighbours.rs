use crate::grid_state::adjacent;
use vstd::prelude::*;

verus! {

/// The eight steps that lead from a cell to its neighbours, in the order in which they are
/// walked.
pub open spec fn offset(k: int) -> (int, int) {
    if k == 0 {
        (0, 1)
    } else if k == 1 {
        (1, 1)
    } else if k == 2 {
        (1, 0)
    } else if k == 3 {
        (1, -1)
    } else if k == 4 {
        (0, -1)
    } else if k == 5 {
        (-1, -1)
    } else if k == 6 {
        (-1, 0)
    } else {
        (-1, 1)
    }
}

/// The place of the step `(dx, dy)` in the walk; eight for what is no step to a neighbour.
pub open spec fn offset_rank(dx: int, dy: int) -> int {
    if dx == 0 && dy == 1 {
        0
    } else if dx == 1 && dy == 1 {
        1
    } else if dx == 1 && dy == 0 {
        2
    } else if dx == 1 && dy == -1 {
        3
    } else if dx == 0 && dy == -1 {
        4
    } else if dx == -1 && dy == -1 {
        5
    } else if dx == -1 && dy == 0 {
        6
    } else if dx == -1 && dy == 1 {
        7
    } else {
        8
    }
}

/// The walk visits each neighbour once and nothing else.
pub proof fn lemma_offsets_cover_neighbours(ax: int, ay: int, bx: int, by: int)
    ensures
        adjacent(ax, ay, bx, by) <==> 0 <= offset_rank(bx - ax, by - ay) < 8,
        adjacent(ax, ay, bx, by) ==> offset(offset_rank(bx - ax, by - ay)) == (bx - ax, by - ay),
        forall|k: int|
            0 <= k < 8 ==> offset_rank((#[trigger] offset(k)).0, offset(k).1) == k,
{
}

/// The `k`-th step of the walk.
pub(crate) fn adjacency_offset(k: usize) -> (d: (i32, i32))
    requires
        k < 8,
    ensures
        d.0 == offset(k as int).0,
        d.1 == offset(k as int).1,
{
    if k == 0 {
        (0, 1)
    } else if k == 1 {
        (1, 1)
    } else if k == 2 {
        (1, 0)
    } else if k == 3 {
        (1, -1)
    } else if k == 4 {
        (0, -1)
    } else if k == 5 {
        (-1, -1)
    } else if k == 6 {
        (-1, 0)
    } else {
        (-1, 1)
    }
}

/// One coordinate moved by a step of -1, 0 or 1, where that stays below `limit`.
pub(crate) fn shifted(v: usize, d: i32, limit: usize) -> (r: Option<usize>)
    requires
        -1 <= d <= 1,
        v < limit,
    ensures
        r is Some <==> 0 <= v + d < limit,
        r matches Some(moved) ==> moved == v + d,
{
    if d < 0 {
        if v > 0 {
            Some(v - 1)
        } else {
            None
        }
    } else if d > 0 {
        if v + 1 < limit {
            Some(v + 1)
        } else {
            None
        }
    } else {
        Some(v)
    }
}

} // verus!
