use crate::grid_lemmas::{lemma_remap_at, lemma_same_cells, lemma_with_cell_at};
use crate::grid_state::{adjacent, GridState};
use crate::neighbours::{lemma_offsets_cover_neighbours, offset, offset_rank};
use vstd::prelude::*;

verus! {

/// Whether `(x, y)` is among the cells that wait to have their neighbours uncovered.
pub open spec fn waiting(pending: Seq<(usize, usize)>, x: int, y: int) -> bool {
    exists|j: int| 0 <= j < pending.len() && (#[trigger] pending[j]).0 == x && pending[j].1 == y
}

/// Whether every unflagged neighbour of `(x, y)` is uncovered.
pub open spec fn spread(now: GridState, x: int, y: int) -> bool {
    forall|nx: int, ny: int|
        now.in_bounds(nx, ny) && adjacent(x, y, nx, ny) && !(#[trigger] now.at(nx, ny)).flagged
            ==> !now.at(nx, ny).hidden
}

/// Whether `(x, y)` is a cell of the region around `(sx, sy)` that is uncovered and waits
/// no longer.
pub open spec fn settled(
    start: GridState,
    now: GridState,
    sx: int,
    sy: int,
    pending: Seq<(usize, usize)>,
    x: int,
    y: int,
) -> bool {
    start.reaches(sx, sy, x, y) && !now.at(x, y).hidden && !waiting(pending, x, y)
}

/// What holds of the grid all through a cascade that began at `(sx, sy)` on the grid
/// `start`: only cells that the reveal uncovers have changed, and only by being uncovered;
/// and the cells that wait belong to the region and are uncovered.
pub open spec fn flood_base(
    start: GridState,
    now: GridState,
    sx: int,
    sy: int,
    pending: Seq<(usize, usize)>,
) -> bool {
    &&& start.shaped()
    &&& now.width == start.width
    &&& now.height == start.height
    &&& now.trap_count == start.trap_count
    &&& now.generated == start.generated
    &&& now.cells.len() == start.cells.len()
    &&& start.opens(sx, sy)
    &&& !now.at(sx, sy).hidden
    &&& forall|x: int, y: int|
        start.in_bounds(x, y) ==> {
            ||| #[trigger] now.at(x, y) == start.at(x, y)
            ||| start.uncovers(sx, sy, x, y) && now.at(x, y) == start.at(x, y).uncovered()
        }
    &&& forall|j: int|
        0 <= j < pending.len() ==> start.reaches(
            sx,
            sy,
            (#[trigger] pending[j]).0 as int,
            pending[j].1 as int,
        ) && !now.at(pending[j].0 as int, pending[j].1 as int).hidden
}

/// What holds between two cells taken from the waiting list: no neighbour of a cell of
/// the region is left behind once that cell waits no longer.
pub open spec fn flooding(
    start: GridState,
    now: GridState,
    sx: int,
    sy: int,
    pending: Seq<(usize, usize)>,
) -> bool {
    &&& flood_base(start, now, sx, sy, pending)
    &&& forall|qx: int, qy: int| #[trigger]
        settled(start, now, sx, sy, pending, qx, qy) ==> spread(now, qx, qy)
}

/// What holds while the neighbours of `(cx, cy)` are uncovered: as `flooding`, but of the
/// neighbours of `(cx, cy)` only those before step `k` of the walk are done.
pub open spec fn expanding(
    start: GridState,
    now: GridState,
    sx: int,
    sy: int,
    pending: Seq<(usize, usize)>,
    cx: int,
    cy: int,
    k: int,
) -> bool {
    &&& flood_base(start, now, sx, sy, pending)
    &&& start.reaches(sx, sy, cx, cy)
    &&& !now.at(cx, cy).hidden
    &&& forall|qx: int, qy: int| #[trigger]
        settled(start, now, sx, sy, pending, qx, qy) && !(qx == cx && qy == cy) ==> spread(
            now,
            qx,
            qy,
        )
    &&& forall|nx: int, ny: int|
        now.in_bounds(nx, ny) && adjacent(cx, cy, nx, ny) && offset_rank(nx - cx, ny - cy) < k
            && !(#[trigger] now.at(nx, ny)).flagged ==> !now.at(nx, ny).hidden
}

/// A chain that ends next to a cell that opens up its neighbours goes on to that cell.
pub proof fn lemma_reaches_step(g: GridState, sx: int, sy: int, qx: int, qy: int, x: int, y: int)
    requires
        g.reaches(sx, sy, qx, qy),
        adjacent(qx, qy, x, y),
        g.opens(x, y),
    ensures
        g.reaches(sx, sy, x, y),
{
    let path = choose|path: Seq<(int, int)>| #[trigger]
        g.is_chain(path) && path[0] == (sx, sy) && path.last() == (qx, qy);
    let longer = path.push((x, y));
    assert forall|k: int| 0 <= k < longer.len() - 1 implies #[trigger] GridState::step_at(
        longer,
        k,
    ) by {
        if k < path.len() - 1 {
            assert(GridState::step_at(path, k));
        }
    }
    assert forall|k: int| 0 <= k < longer.len() implies g.opens(
        (#[trigger] longer[k]).0,
        longer[k].1,
    ) by {
        if k < path.len() {
            assert(g.opens(path[k].0, path[k].1));
        }
    }
    assert(g.is_chain(longer) && longer[0] == (sx, sy) && longer.last() == (x, y));
}

/// A cell that opens up its neighbours is reached from itself.
pub proof fn lemma_reaches_itself(g: GridState, x: int, y: int)
    requires
        g.opens(x, y),
    ensures
        g.reaches(x, y, x, y),
{
    let path = seq![(x, y)];
    assert(g.is_chain(path) && path[0] == (x, y) && path.last() == (x, y));
}

/// Chains begin and end on cells that open up their neighbours.
pub proof fn lemma_reaches_opens(g: GridState, sx: int, sy: int, x: int, y: int)
    requires
        g.reaches(sx, sy, x, y),
    ensures
        g.opens(sx, sy),
        g.opens(x, y),
{
    let path = choose|path: Seq<(int, int)>| #[trigger]
        g.is_chain(path) && path[0] == (sx, sy) && path.last() == (x, y);
    assert(g.opens(path[0].0, path[0].1));
    assert(g.opens(path[path.len() - 1].0, path[path.len() - 1].1));
}

/// A reveal that asks for a cell outside the grid, a flagged cell or an uncovered cell
/// changes nothing.
pub proof fn lemma_reveal_nothing(g: GridState, sx: int, sy: int)
    requires
        g.shaped(),
        !g.in_bounds(sx, sy) || g.at(sx, sy).flagged || !g.at(sx, sy).hidden,
    ensures
        g.revealed(sx, sy) == g,
{
    let f = |x: int, y: int, c: crate::cell::CellState|
        if g.uncovers(sx, sy, x, y) {
            c.uncovered()
        } else {
            c
        };
    lemma_remap_at(g, f);
    assert forall|x: int, y: int| g.in_bounds(x, y) implies !g.uncovers(sx, sy, x, y) by {
        if g.in_bounds(sx, sy) {
            if g.reaches(sx, sy, x, y) {
                lemma_reaches_opens(g, sx, sy, x, y);
            }
            if exists|qx: int, qy: int| #[trigger]
                g.reaches(sx, sy, qx, qy) && adjacent(qx, qy, x, y) {
                let (qx, qy) = choose|qx: int, qy: int| #[trigger]
                    g.reaches(sx, sy, qx, qy) && adjacent(qx, qy, x, y);
                lemma_reaches_opens(g, sx, sy, qx, qy);
            }
        }
    }
    lemma_same_cells(g.revealed(sx, sy), g);
}

/// A reveal that asks for a covered, unflagged cell with a trap on it or around it
/// uncovers that cell and no other.
pub proof fn lemma_reveal_single(g: GridState, sx: int, sy: int)
    requires
        g.shaped(),
        g.in_bounds(sx, sy),
        g.at(sx, sy).hidden,
        !g.at(sx, sy).flagged,
        !g.opens(sx, sy),
    ensures
        g.revealed(sx, sy) == g.with_cell(sx, sy, g.at(sx, sy).uncovered()),
{
    let f = |x: int, y: int, c: crate::cell::CellState|
        if g.uncovers(sx, sy, x, y) {
            c.uncovered()
        } else {
            c
        };
    lemma_remap_at(g, f);
    lemma_with_cell_at(g, sx, sy, g.at(sx, sy).uncovered());
    assert forall|x: int, y: int| g.in_bounds(x, y) implies (g.uncovers(sx, sy, x, y) <==> (x == sx
        && y == sy)) by {
        if g.reaches(sx, sy, x, y) {
            lemma_reaches_opens(g, sx, sy, x, y);
        }
        if exists|qx: int, qy: int| #[trigger]
            g.reaches(sx, sy, qx, qy) && adjacent(qx, qy, x, y) {
            let (qx, qy) = choose|qx: int, qy: int| #[trigger]
                g.reaches(sx, sy, qx, qy) && adjacent(qx, qy, x, y);
            lemma_reaches_opens(g, sx, sy, qx, qy);
        }
    }
    lemma_same_cells(g.revealed(sx, sy), g.with_cell(sx, sy, g.at(sx, sy).uncovered()));
}

/// Uncovering a covered cell leaves one hidden cell fewer.
pub proof fn lemma_uncover_counts(g: GridState, x: int, y: int)
    requires
        g.shaped(),
        g.in_bounds(x, y),
        g.at(x, y).hidden,
    ensures
        g.with_cell(x, y, g.at(x, y).uncovered()).hidden_total() + 1 == g.hidden_total(),
{
    let after = g.with_cell(x, y, g.at(x, y).uncovered());
    crate::grid_lemmas::lemma_index_of(g, x, y);
    crate::tally::lemma_count_one_more(
        g.cells.len() as int,
        |i: int| after.cells[i].hidden,
        |i: int| g.cells[i].hidden,
        g.index_of(x, y),
    );
}

/// The cascade begins: the cell that was asked for is uncovered and waits.
pub proof fn lemma_flood_begin(start: GridState, sx: usize, sy: usize)
    requires
        start.shaped(),
        start.opens(sx as int, sy as int),
    ensures
        flooding(
            start,
            start.with_cell(sx as int, sy as int, start.at(sx as int, sy as int).uncovered()),
            sx as int,
            sy as int,
            seq![(sx, sy)],
        ),
{
    let now = start.with_cell(sx as int, sy as int, start.at(sx as int, sy as int).uncovered());
    let pending = seq![(sx, sy)];
    lemma_with_cell_at(start, sx as int, sy as int, start.at(sx as int, sy as int).uncovered());
    lemma_reaches_itself(start, sx as int, sy as int);
    assert(pending[0] == (sx, sy));
    assert forall|qx: int, qy: int| #[trigger]
        settled(start, now, sx as int, sy as int, pending, qx, qy) implies spread(now, qx, qy) by {
        lemma_reaches_opens(start, sx as int, sy as int, qx, qy);
        assert(qx == sx && qy == sy);
        assert(waiting(pending, qx, qy));
    }
}

/// A cell is taken from the waiting list: none of its neighbours is done yet.
pub proof fn lemma_flood_take(
    start: GridState,
    now: GridState,
    sx: int,
    sy: int,
    pending: Seq<(usize, usize)>,
)
    requires
        flooding(start, now, sx, sy, pending),
        pending.len() > 0,
    ensures
        expanding(
            start,
            now,
            sx,
            sy,
            pending.drop_last(),
            pending.last().0 as int,
            pending.last().1 as int,
            0,
        ),
        now.in_bounds(pending.last().0 as int, pending.last().1 as int),
{
    let rest = pending.drop_last();
    let cx = pending.last().0 as int;
    let cy = pending.last().1 as int;
    let top = pending[pending.len() - 1];
    assert(start.reaches(sx, sy, top.0 as int, top.1 as int));
    lemma_reaches_opens(start, sx, sy, cx, cy);
    assert forall|j: int| 0 <= j < rest.len() implies start.reaches(
        sx,
        sy,
        (#[trigger] rest[j]).0 as int,
        rest[j].1 as int,
    ) && !now.at(rest[j].0 as int, rest[j].1 as int).hidden by {
        assert(rest[j] == pending[j]);
    }
    assert forall|qx: int, qy: int| #[trigger]
        settled(start, now, sx, sy, rest, qx, qy) && !(qx == cx && qy == cy) implies spread(
        now,
        qx,
        qy,
    ) by {
        if waiting(pending, qx, qy) {
            let j = choose|j: int|
                0 <= j < pending.len() && (#[trigger] pending[j]).0 == qx && pending[j].1 == qy;
            assert(rest[j] == pending[j]);
            assert(waiting(rest, qx, qy));
        }
        assert(settled(start, now, sx, sy, pending, qx, qy));
    }
    assert forall|nx: int, ny: int|
        now.in_bounds(nx, ny) && adjacent(cx, cy, nx, ny) && offset_rank(nx - cx, ny - cy) < 0
            && !(#[trigger] now.at(nx, ny)).flagged implies !now.at(nx, ny).hidden by {}
}

/// Step `k` of the walk finds nothing to uncover: no cell there, or a flagged or an
/// uncovered one.
pub proof fn lemma_flood_skip(
    start: GridState,
    now: GridState,
    sx: int,
    sy: int,
    pending: Seq<(usize, usize)>,
    cx: int,
    cy: int,
    k: int,
)
    requires
        expanding(start, now, sx, sy, pending, cx, cy, k),
        0 <= k < 8,
        ({
            let nx = cx + offset(k).0;
            let ny = cy + offset(k).1;
            !now.in_bounds(nx, ny) || !now.at(nx, ny).hidden || now.at(nx, ny).flagged
        }),
    ensures
        expanding(start, now, sx, sy, pending, cx, cy, k + 1),
{
    assert forall|nx: int, ny: int|
        now.in_bounds(nx, ny) && adjacent(cx, cy, nx, ny) && offset_rank(nx - cx, ny - cy) < k + 1
            && !(#[trigger] now.at(nx, ny)).flagged implies !now.at(nx, ny).hidden by {
        lemma_offsets_cover_neighbours(cx, cy, nx, ny);
    }
}

/// Step `k` of the walk finds a covered cell without a flag: it is uncovered, and waits
/// in its turn if it opens up its own neighbours.
pub proof fn lemma_flood_uncover(
    start: GridState,
    now: GridState,
    sx: int,
    sy: int,
    pending: Seq<(usize, usize)>,
    cx: int,
    cy: int,
    k: int,
    nx: usize,
    ny: usize,
)
    requires
        expanding(start, now, sx, sy, pending, cx, cy, k),
        0 <= k < 8,
        nx == cx + offset(k).0,
        ny == cy + offset(k).1,
        now.in_bounds(nx as int, ny as int),
        now.at(nx as int, ny as int).hidden,
        !now.at(nx as int, ny as int).flagged,
    ensures
        start.opens(nx as int, ny as int) <==> !now.at(nx as int, ny as int).trap && now.at(
            nx as int,
            ny as int,
        ).adjacent_traps == 0,
        expanding(
            start,
            now.with_cell(nx as int, ny as int, now.at(nx as int, ny as int).uncovered()),
            sx,
            sy,
            if start.opens(nx as int, ny as int) {
                pending.push((nx, ny))
            } else {
                pending
            },
            cx,
            cy,
            k + 1,
        ),
{
    let x = nx as int;
    let y = ny as int;
    let after = now.with_cell(x, y, now.at(x, y).uncovered());
    let queue = if start.opens(x, y) {
        pending.push((nx, ny))
    } else {
        pending
    };
    lemma_with_cell_at(now, x, y, now.at(x, y).uncovered());
    lemma_reaches_opens(start, sx, sy, cx, cy);
    lemma_offsets_cover_neighbours(cx, cy, x, y);
    assert(now.at(x, y) == start.at(x, y));
    assert(start.uncovers(sx, sy, x, y));
    if start.opens(x, y) {
        lemma_reaches_step(start, sx, sy, cx, cy, x, y);
        assert(queue[pending.len() as int] == (nx, ny));
        assert(waiting(queue, x, y));
    }
    assert forall|px: int, py: int| start.in_bounds(px, py) implies {
        ||| #[trigger] after.at(px, py) == start.at(px, py)
        ||| start.uncovers(sx, sy, px, py) && after.at(px, py) == start.at(px, py).uncovered()
    } by {
        assert(now.at(px, py) == start.at(px, py) || (start.uncovers(sx, sy, px, py) && now.at(
            px,
            py,
        ) == start.at(px, py).uncovered()));
    }
    assert forall|j: int| 0 <= j < queue.len() implies start.reaches(
        sx,
        sy,
        (#[trigger] queue[j]).0 as int,
        queue[j].1 as int,
    ) && !after.at(queue[j].0 as int, queue[j].1 as int).hidden by {
        if j < pending.len() {
            assert(queue[j] == pending[j]);
            lemma_reaches_opens(start, sx, sy, pending[j].0 as int, pending[j].1 as int);
        }
    }
    assert forall|qx: int, qy: int| #[trigger]
        settled(start, after, sx, sy, queue, qx, qy) && !(qx == cx && qy == cy) implies spread(
        after,
        qx,
        qy,
    ) by {
        lemma_reaches_opens(start, sx, sy, qx, qy);
        if qx == x && qy == y {
            assert(false);
        } else {
            if waiting(pending, qx, qy) {
                let j = choose|j: int|
                    0 <= j < pending.len() && (#[trigger] pending[j]).0 == qx && pending[j].1
                        == qy;
                assert(queue[j] == pending[j]);
                assert(waiting(queue, qx, qy));
            }
            assert(settled(start, now, sx, sy, pending, qx, qy));
            assert(spread(now, qx, qy));
            assert forall|mx: int, my: int|
                after.in_bounds(mx, my) && adjacent(qx, qy, mx, my) && !(#[trigger] after.at(
                    mx,
                    my,
                )).flagged implies !after.at(mx, my).hidden by {
                if !(mx == x && my == y) {
                    assert(!now.at(mx, my).flagged);
                }
            }
        }
    }
    assert forall|mx: int, my: int|
        after.in_bounds(mx, my) && adjacent(cx, cy, mx, my) && offset_rank(mx - cx, my - cy) < k
            + 1 && !(#[trigger] after.at(mx, my)).flagged implies !after.at(mx, my).hidden by {
        lemma_offsets_cover_neighbours(cx, cy, mx, my);
        if !(mx == x && my == y) {
            assert(!now.at(mx, my).flagged);
        }
    }
}

/// All eight steps of the walk are done: the cell is settled like the others.
pub proof fn lemma_flood_done(
    start: GridState,
    now: GridState,
    sx: int,
    sy: int,
    pending: Seq<(usize, usize)>,
    cx: int,
    cy: int,
)
    requires
        expanding(start, now, sx, sy, pending, cx, cy, 8),
    ensures
        flooding(start, now, sx, sy, pending),
{
    assert forall|qx: int, qy: int| #[trigger]
        settled(start, now, sx, sy, pending, qx, qy) implies spread(now, qx, qy) by {
        if qx == cx && qy == cy {
            assert forall|nx: int, ny: int|
                now.in_bounds(nx, ny) && adjacent(qx, qy, nx, ny) && !(#[trigger] now.at(
                    nx,
                    ny,
                )).flagged implies !now.at(nx, ny).hidden by {
                lemma_offsets_cover_neighbours(cx, cy, nx, ny);
            }
        }
    }
}

/// With nothing waiting, every cell along a chain from the start is uncovered.
pub proof fn lemma_chain_uncovered(
    start: GridState,
    now: GridState,
    sx: int,
    sy: int,
    path: Seq<(int, int)>,
    k: int,
)
    requires
        flooding(start, now, sx, sy, Seq::empty()),
        start.is_chain(path),
        path[0] == (sx, sy),
        0 <= k < path.len(),
    ensures
        !now.at(path[k].0, path[k].1).hidden,
        start.reaches(sx, sy, path[k].0, path[k].1),
    decreases k,
{
    let prefix = path.take(k + 1);
    assert forall|j: int| 0 <= j < prefix.len() - 1 implies #[trigger] GridState::step_at(
        prefix,
        j,
    ) by {
        assert(GridState::step_at(path, j));
    }
    assert forall|j: int| 0 <= j < prefix.len() implies start.opens(
        (#[trigger] prefix[j]).0,
        prefix[j].1,
    ) by {
        assert(start.opens(path[j].0, path[j].1));
    }
    assert(start.is_chain(prefix) && prefix[0] == (sx, sy) && prefix.last() == path[k]);
    if k > 0 {
        lemma_chain_uncovered(start, now, sx, sy, path, k - 1);
        let qx = path[k - 1].0;
        let qy = path[k - 1].1;
        assert(!waiting(Seq::<(usize, usize)>::empty(), qx, qy));
        assert(settled(start, now, sx, sy, Seq::empty(), qx, qy));
        assert(spread(now, qx, qy));
        assert(GridState::step_at(path, k - 1));
        assert(start.opens(path[k].0, path[k].1));
        assert(now.at(path[k].0, path[k].1).flagged == start.at(path[k].0, path[k].1).flagged);
    }
}

/// With nothing waiting, the grid is what the reveal is said to leave.
pub proof fn lemma_flood_end(start: GridState, now: GridState, sx: int, sy: int)
    requires
        flooding(start, now, sx, sy, Seq::empty()),
    ensures
        now == start.revealed(sx, sy),
{
    let f = |x: int, y: int, c: crate::cell::CellState|
        if start.uncovers(sx, sy, x, y) {
            c.uncovered()
        } else {
            c
        };
    lemma_remap_at(start, f);
    let goal = start.revealed(sx, sy);
    assert forall|x: int, y: int| now.in_bounds(x, y) implies #[trigger] now.at(x, y) == goal.at(
        x,
        y,
    ) by {
        if start.uncovers(sx, sy, x, y) {
            if x == sx && y == sy {
            } else if start.reaches(sx, sy, x, y) {
                let path = choose|path: Seq<(int, int)>| #[trigger]
                    start.is_chain(path) && path[0] == (sx, sy) && path.last() == (x, y);
                lemma_chain_uncovered(start, now, sx, sy, path, path.len() - 1);
            } else {
                let (qx, qy) = choose|qx: int, qy: int| #[trigger]
                    start.reaches(sx, sy, qx, qy) && adjacent(qx, qy, x, y);
                let path = choose|path: Seq<(int, int)>| #[trigger]
                    start.is_chain(path) && path[0] == (sx, sy) && path.last() == (qx, qy);
                lemma_chain_uncovered(start, now, sx, sy, path, path.len() - 1);
                assert(!waiting(Seq::<(usize, usize)>::empty(), qx, qy));
                assert(settled(start, now, sx, sy, Seq::empty(), qx, qy));
                assert(spread(now, qx, qy));
                assert(now.at(x, y).flagged == start.at(x, y).flagged);
            }
            assert(!now.at(x, y).hidden);
        }
    }
    lemma_same_cells(now, goal);
}

} // verus!
