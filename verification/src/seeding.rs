use crate::grid_lemmas::{lemma_coordinates_of, lemma_index_matches, lemma_index_of};
use crate::grid_state::{adjacent, GridState};
use crate::neighbours::{lemma_offsets_cover_neighbours, offset, offset_rank};
use crate::tally::{
    lemma_count_agree, lemma_count_all, lemma_count_none, lemma_count_one_more, lemma_rank_exists,
};
use vstd::prelude::*;

verus! {

/// What holds of the grid while its traps are placed, when `placed` of them are in place
/// and `(fx, fy)` is kept safe: the numbers are right, there are `placed` traps, none of
/// them at `(fx, fy)`, and each has used up one of the cells that could take a trap.
pub open spec fn seeding(g: GridState, fx: int, fy: int, placed: int) -> bool {
    &&& g.shaped()
    &&& g.counts_consistent()
    &&& g.trap_total() == placed
    &&& g.free_total(fx, fy) == g.candidates(fx, fy) - placed
    &&& !g.trap_at(fx, fy)
}

/// Whether `after` is `before` with nothing changed but traps and the numbers on the cells.
pub open spec fn same_cover(before: GridState, after: GridState) -> bool {
    &&& after.width == before.width
    &&& after.height == before.height
    &&& after.trap_count == before.trap_count
    &&& after.cells.len() == before.cells.len()
    &&& forall|i: int|
        0 <= i < before.cells.len() ==> (#[trigger] after.cells[i]).hidden
            == before.cells[i].hidden && after.cells[i].flagged == before.cells[i].flagged
}

/// A grid on which nothing but flagging has happened is ready for its traps.
pub proof fn lemma_seeding_begins(g: GridState, fx: int, fy: int)
    requires
        g.wf(),
        !g.generated,
    ensures
        seeding(g, fx, fy, 0),
{
    let n = g.cells.len() as int;
    lemma_count_none(n, |i: int| g.cells[i].trap);
    if g.in_bounds(fx, fy) {
        lemma_index_of(g, fx, fy);
        assert forall|i: int| 0 <= i < n && i != g.index_of(fx, fy) implies #[trigger] g.free(
            fx,
            fy,
            i,
        ) by {
            lemma_index_matches(g, fx, fy, i);
        }
        lemma_count_one_more(n, |i: int| g.free(fx, fy, i), |i: int| true, g.index_of(fx, fy));
        lemma_count_all(n, |i: int| true);
    } else {
        assert forall|i: int| 0 <= i < n implies #[trigger] g.free(fx, fy, i) by {
            lemma_coordinates_of(g, i);
        }
        lemma_count_all(n, |i: int| g.free(fx, fy, i));
    }
}

/// While cells are free, every rank below their number names one of them: a cell of the
/// grid other than `(fx, fy)` that holds no trap.
pub proof fn lemma_nth_free(g: GridState, fx: int, fy: int, r: int)
    requires
        g.shaped(),
        0 <= r < g.free_total(fx, fy),
    ensures
        ({
            let i = g.nth_free(fx, fy, r);
            &&& 0 <= i < g.cells.len()
            &&& g.free(fx, fy, i)
            &&& g.in_bounds(g.column_of(i), g.row_of(i))
            &&& !g.at(g.column_of(i), g.row_of(i)).trap
            &&& !(g.column_of(i) == fx && g.row_of(i) == fy)
        }),
{
    let found = lemma_rank_exists(g.cells.len() as int, |i: int| g.free(fx, fy, i), r);
    lemma_coordinates_of(g, g.nth_free(fx, fy, r));
}

/// In a grid with one more trap, the cell that took it holds a trap, its neighbours count
/// one more, and every other cell is as before.
pub proof fn lemma_with_trap_at(g: GridState, tx: int, ty: int)
    requires
        g.shaped(),
    ensures
        g.with_trap(tx, ty).shaped(),
        g.with_trap(tx, ty).trap_count == g.trap_count,
        g.with_trap(tx, ty).generated == g.generated,
        forall|x: int, y: int|
            g.in_bounds(x, y) ==> #[trigger] g.with_trap(tx, ty).at(x, y) == if x == tx && y == ty {
                g.at(x, y).trapped()
            } else if adjacent(tx, ty, x, y) {
                g.at(x, y).with_one_more_adjacent()
            } else {
                g.at(x, y)
            },
{
    assert forall|x: int, y: int| g.in_bounds(x, y) implies #[trigger] g.with_trap(tx, ty).at(
        x,
        y,
    ) == if x == tx && y == ty {
        g.at(x, y).trapped()
    } else if adjacent(tx, ty, x, y) {
        g.at(x, y).with_one_more_adjacent()
    } else {
        g.at(x, y)
    } by {
        lemma_index_of(g, x, y);
    }
}

/// After a trap was placed on a cell that held none, that cell weighs one more and no
/// other weighs more or less.
proof fn lemma_trap_weights(g: GridState, tx: int, ty: int)
    requires
        g.shaped(),
        g.in_bounds(tx, ty),
        !g.at(tx, ty).trap,
    ensures
        forall|x: int, y: int| #[trigger]
            g.with_trap(tx, ty).trap_weight(x, y) == g.trap_weight(x, y) + if x == tx && y == ty {
                1nat
            } else {
                0nat
            },
{
    lemma_with_trap_at(g, tx, ty);
    let after = g.with_trap(tx, ty);
    assert forall|x: int, y: int| #[trigger]
        after.trap_weight(x, y) == g.trap_weight(x, y) + if x == tx && y == ty {
            1nat
        } else {
            0nat
        } by {
        if g.in_bounds(x, y) {
            assert(after.at(x, y).trap == (g.at(x, y).trap || (x == tx && y == ty)));
        }
    }
}

/// After a trap was placed on a cell that held none, the numbers are right again.
proof fn lemma_trap_counts(g: GridState, tx: int, ty: int)
    requires
        g.shaped(),
        g.counts_consistent(),
        g.in_bounds(tx, ty),
        !g.at(tx, ty).trap,
    ensures
        g.with_trap(tx, ty).counts_consistent(),
{
    lemma_with_trap_at(g, tx, ty);
    lemma_trap_weights(g, tx, ty);
    let after = g.with_trap(tx, ty);
    assert forall|x: int, y: int| after.in_bounds(x, y) implies #[trigger] after.count_right(
        x,
        y,
    ) by {
        assert(g.count_right(x, y));
        let more: nat = if adjacent(tx, ty, x, y) {
            1
        } else {
            0
        };
        assert(after.at(x, y).adjacent_traps == g.at(x, y).adjacent_traps + more);
        assert(after.trap_neighbours(x, y) == g.trap_neighbours(x, y) + more);
    }
}

/// Placing a trap on a free cell keeps the numbers right, adds one trap and uses up one
/// free cell.
pub proof fn lemma_trap_placed(g: GridState, fx: int, fy: int, placed: int, tx: int, ty: int)
    requires
        seeding(g, fx, fy, placed),
        g.in_bounds(tx, ty),
        !g.at(tx, ty).trap,
        !(tx == fx && ty == fy),
    ensures
        seeding(g.with_trap(tx, ty), fx, fy, placed + 1),
        same_cover(g, g.with_trap(tx, ty)),
        g.with_trap(tx, ty).generated == g.generated,
{
    let after = g.with_trap(tx, ty);
    lemma_with_trap_at(g, tx, ty);
    lemma_trap_counts(g, tx, ty);
    lemma_index_of(g, tx, ty);
    let n = g.cells.len() as int;
    let t = g.index_of(tx, ty);
    assert forall|i: int| 0 <= i < n implies (#[trigger] after.cells[i]).hidden
        == g.cells[i].hidden && after.cells[i].flagged == g.cells[i].flagged && (after.cells[i].trap
        == (g.cells[i].trap || i == t)) by {
        lemma_index_matches(g, tx, ty, i);
    }
    lemma_count_one_more(n, |i: int| g.cells[i].trap, |i: int| after.cells[i].trap, t);
    assert forall|i: int| 0 <= i < n && i != t implies (#[trigger] after.free(fx, fy, i)) == g.free(
        fx,
        fy,
        i,
    ) by {
        assert(after.cells[i].trap == g.cells[i].trap);
    }
    assert(g.free(fx, fy, t)) by {
        lemma_index_matches(g, tx, ty, t);
    }
    assert(!after.free(fx, fy, t));
    lemma_count_one_more(n, |i: int| after.free(fx, fy, i), |i: int| g.free(fx, fy, i), t);
    if g.in_bounds(fx, fy) {
        assert(after.at(fx, fy) == g.at(fx, fy) || after.at(fx, fy) == g.at(
            fx,
            fy,
        ).with_one_more_adjacent());
    }
}

/// Around a cell that holds no trap, no number is at eight yet.
pub proof fn lemma_room_for_one_more(g: GridState, tx: int, ty: int, x: int, y: int)
    requires
        g.shaped(),
        g.counts_consistent(),
        g.in_bounds(tx, ty),
        !g.at(tx, ty).trap,
        g.in_bounds(x, y),
        adjacent(tx, ty, x, y),
    ensures
        g.at(x, y).adjacent_traps < 8,
{
    assert(g.count_right(x, y));
    assert(g.trap_weight(tx, ty) == 0);
}

/// Placing the traps that valid picks direct, one after the other, keeps what `seeding`
/// says and touches neither cover nor flags.
pub proof fn lemma_trapped_by(g: GridState, fx: int, fy: int, placed: int, picks: Seq<usize>)
    requires
        seeding(g, fx, fy, placed),
        forall|k: int|
            0 <= k < picks.len() ==> (#[trigger] picks[k]) < g.candidates(fx, fy) - placed - k,
    ensures
        seeding(g.trapped_by(fx, fy, picks), fx, fy, placed + picks.len()),
        same_cover(g, g.trapped_by(fx, fy, picks)),
        g.trapped_by(fx, fy, picks).generated == g.generated,
    decreases picks.len(),
{
    if picks.len() > 0 {
        assert(picks[0] < g.candidates(fx, fy) - placed - 0);
        lemma_nth_free(g, fx, fy, picks[0] as int);
        let i = g.nth_free(fx, fy, picks[0] as int);
        let next = g.with_trap(g.column_of(i), g.row_of(i));
        lemma_trap_placed(g, fx, fy, placed, g.column_of(i), g.row_of(i));
        let rest = picks.drop_first();
        assert forall|k: int| 0 <= k < rest.len() implies (#[trigger] rest[k]) < next.candidates(
            fx,
            fy,
        ) - (placed + 1) - k by {
            assert(rest[k] == picks[k + 1]);
        }
        lemma_trapped_by(next, fx, fy, placed + 1, rest);
        let last = next.trapped_by(fx, fy, rest);
        assert forall|j: int| 0 <= j < g.cells.len() implies (#[trigger] last.cells[j]).hidden
            == g.cells[j].hidden && last.cells[j].flagged == g.cells[j].flagged by {
            assert(next.cells[j].hidden == g.cells[j].hidden);
        }
    }
}

/// Generation on valid picks leaves a grid that satisfies the invariant: it holds exactly
/// `trap_count` traps, none of them on the cell that was kept safe, the number on every
/// cell is the number of traps around it, and no cover or flag has changed.
pub proof fn lemma_seeded(g: GridState, fx: int, fy: int, picks: Seq<usize>)
    requires
        g.wf(),
        !g.generated,
        g.valid_picks(fx, fy, picks),
    ensures
        g.seeded(fx, fy, picks).wf(),
        g.seeded(fx, fy, picks).generated,
        g.seeded(fx, fy, picks).trap_total() == g.trap_count,
        !g.seeded(fx, fy, picks).trap_at(fx, fy),
        g.seeded(fx, fy, picks).counts_consistent(),
        same_cover(g, g.seeded(fx, fy, picks)),
{
    lemma_seeding_begins(g, fx, fy);
    lemma_trapped_by(g, fx, fy, 0, picks);
    let mid = g.trapped_by(fx, fy, picks);
    let end = g.seeded(fx, fy, picks);
    assert(end.cells == mid.cells);
    lemma_seeded_frame(mid, end);
}

/// Marking the grid as generated changes nothing that is said of its cells.
pub proof fn lemma_seeded_frame(mid: GridState, end: GridState)
    requires
        end == (GridState { generated: true, ..mid }),
    ensures
        end.trap_total() == mid.trap_total(),
        mid.counts_consistent() ==> end.counts_consistent(),
        forall|x: int, y: int| end.trap_at(x, y) == mid.trap_at(x, y),
{
    lemma_count_agree(
        mid.cells.len() as int,
        |i: int| mid.cells[i].trap,
        |i: int| end.cells[i].trap,
    );
    assert forall|x: int, y: int| #[trigger] end.trap_weight(x, y) == mid.trap_weight(x, y) by {}
    if mid.counts_consistent() {
        assert forall|x: int, y: int| end.in_bounds(x, y) implies #[trigger] end.count_right(
            x,
            y,
        ) by {
            assert(mid.count_right(x, y));
        }
    }
}

/// What holds while a new trap at `(tx, ty)` is made known to its neighbours, when those
/// before step `k` of the walk have been told.
pub open spec fn trap_spreading(
    start: GridState,
    now: GridState,
    tx: int,
    ty: int,
    k: int,
) -> bool {
    &&& now.shaped()
    &&& now.width == start.width
    &&& now.height == start.height
    &&& now.trap_count == start.trap_count
    &&& now.generated == start.generated
    &&& now.cells.len() == start.cells.len()
    &&& forall|x: int, y: int|
        start.in_bounds(x, y) ==> #[trigger] now.at(x, y) == if x == tx && y == ty {
            start.at(x, y).trapped()
        } else if adjacent(tx, ty, x, y) && offset_rank(x - tx, y - ty) < k {
            start.at(x, y).with_one_more_adjacent()
        } else {
            start.at(x, y)
        }
}

/// Step `k` of the walk leads outside the grid: nobody to tell.
pub proof fn lemma_trap_spread_skip(start: GridState, now: GridState, tx: int, ty: int, k: int)
    requires
        trap_spreading(start, now, tx, ty, k),
        0 <= k < 8,
        !now.in_bounds(tx + offset(k).0, ty + offset(k).1),
    ensures
        trap_spreading(start, now, tx, ty, k + 1),
{
    assert forall|x: int, y: int| start.in_bounds(x, y) implies #[trigger] now.at(x, y) == if x
        == tx && y == ty {
        start.at(x, y).trapped()
    } else if adjacent(tx, ty, x, y) && offset_rank(x - tx, y - ty) < k + 1 {
        start.at(x, y).with_one_more_adjacent()
    } else {
        start.at(x, y)
    } by {
        lemma_offsets_cover_neighbours(tx, ty, x, y);
    }
}

/// Step `k` of the walk leads to a cell: it counts one more, and it had room to.
pub proof fn lemma_trap_spread_step(
    start: GridState,
    now: GridState,
    tx: int,
    ty: int,
    k: int,
    nx: int,
    ny: int,
)
    requires
        start.shaped(),
        start.counts_consistent(),
        start.in_bounds(tx, ty),
        !start.at(tx, ty).trap,
        trap_spreading(start, now, tx, ty, k),
        0 <= k < 8,
        nx == tx + offset(k).0,
        ny == ty + offset(k).1,
        now.in_bounds(nx, ny),
    ensures
        now.at(nx, ny) == start.at(nx, ny),
        now.at(nx, ny).adjacent_traps < 8,
        trap_spreading(
            start,
            now.with_cell(nx, ny, now.at(nx, ny).with_one_more_adjacent()),
            tx,
            ty,
            k + 1,
        ),
{
    lemma_offsets_cover_neighbours(tx, ty, nx, ny);
    lemma_room_for_one_more(start, tx, ty, nx, ny);
    let after = now.with_cell(nx, ny, now.at(nx, ny).with_one_more_adjacent());
    crate::grid_lemmas::lemma_with_cell_at(now, nx, ny, now.at(nx, ny).with_one_more_adjacent());
    assert forall|x: int, y: int| start.in_bounds(x, y) implies #[trigger] after.at(x, y) == if x
        == tx && y == ty {
        start.at(x, y).trapped()
    } else if adjacent(tx, ty, x, y) && offset_rank(x - tx, y - ty) < k + 1 {
        start.at(x, y).with_one_more_adjacent()
    } else {
        start.at(x, y)
    } by {
        lemma_offsets_cover_neighbours(tx, ty, x, y);
        if !(x == nx && y == ny) {
            assert(after.at(x, y) == now.at(x, y));
        }
    }
}

/// All eight steps of the walk are done: the grid is the one with the trap.
pub proof fn lemma_trap_spread_done(start: GridState, now: GridState, tx: int, ty: int)
    requires
        start.shaped(),
        trap_spreading(start, now, tx, ty, 8),
    ensures
        now == start.with_trap(tx, ty),
{
    lemma_with_trap_at(start, tx, ty);
    let goal = start.with_trap(tx, ty);
    assert forall|x: int, y: int| now.in_bounds(x, y) implies #[trigger] now.at(x, y) == goal.at(
        x,
        y,
    ) by {
        lemma_offsets_cover_neighbours(tx, ty, x, y);
    }
    crate::grid_lemmas::lemma_same_cells(now, goal);
}

} // verus!
