//! The rectangles of the span grid: every rendered cell covers the rows of its
//! height and the columns of its width, and these rectangles part the grid
//! between them.

use vstd::prelude::*;
use crate::document::table::VMergeState;
use crate::markdown::spans::{
    CellMerge,
    Layout,
    CellSpan,
    Place,
    RowWalk,
    TableWalk,
    blank_grid,
    continues_at,
    greater,
    has_shape,
    lemma_max_grid_columns_nonnegative,
    lesser,
    max_grid_columns,
    none_open,
    row_width,
    span_grid,
    step_cell,
    table_layout,
    walk_cells,
    walk_row,
    walk_rows,
    widths_fit,
    widths_positive,
};

verus! {

/// The position `r`, `g` lies in the rectangle of the cell at `r0`, `g0`: in the
/// rows of its height and the columns of its width.
pub open spec fn in_rectangle(grid: Seq<Seq<CellSpan>>, r0: int, g0: int, r: int, g: int) -> bool {
    &&& r0 <= r < r0 + grid[r0][g0].rowspan
    &&& g0 <= g < g0 + grid[r0][g0].colspan
}

/// The position is one of the grid, and a cell is rendered at it.
pub open spec fn renders(grid: Seq<Seq<CellSpan>>, r: int, g: int) -> bool {
    0 <= r < grid.len() && 0 <= g < grid[r].len() && !grid[r][g].skip
}

/// The walk has come to the position: it lies in a row above row `r`, or in row
/// `r` before the cursor.
spec fn reached(r: int, cursor: int, q: int, g: int) -> bool {
    q < r || (q == r && g < cursor)
}

/// What holds of the grid while row `r` is walked, with the rendered cell that
/// owns every position that the walk has come to.
spec fn rectangles_hold(
    grid: Seq<Seq<CellSpan>>,
    owner: Seq<Seq<(int, int)>>,
    above: Seq<Option<usize>>,
    open: Seq<Option<usize>>,
    r: int,
    cursor: int,
    n_rows: int,
    n_cols: int,
) -> bool {
    &&& has_shape(grid, n_rows, n_cols)
    &&& owner.len() == n_rows
    &&& forall|q: int| 0 <= q < n_rows ==> (#[trigger] owner[q]).len() == n_cols
    &&& 0 <= r
    &&& 0 <= cursor
    &&& above.len() == n_cols
    &&& open.len() == n_cols
    &&& forall|q: int, g: int|
        0 <= q < n_rows && 0 <= g < n_cols && !reached(r, cursor, q, g) ==> #[trigger] grid[q][g]
            == CellSpan::spec_new()
    &&& forall|r0: int, g0: int|
        0 <= r0 < n_rows && 0 <= g0 < n_cols && reached(r, cursor, r0, g0) && !(
        #[trigger] grid[r0][g0]).skip ==> {
            &&& grid[r0][g0].rowspan >= 1
            &&& grid[r0][g0].colspan >= 1
            &&& r0 + grid[r0][g0].rowspan <= r + 1
            &&& r0 + grid[r0][g0].rowspan <= n_rows
            &&& g0 + grid[r0][g0].colspan <= n_cols
            &&& (r0 + grid[r0][g0].rowspan == r + 1 ==> g0 + grid[r0][g0].colspan <= cursor)
        }
    &&& forall|q: int, g: int|
        0 <= q < n_rows && 0 <= g < n_cols && reached(r, cursor, q, g) ==> {
            let o = #[trigger] owner[q][g];
            &&& 0 <= o.0 < n_rows
            &&& 0 <= o.1 < n_cols
            &&& reached(r, cursor, o.0, o.1)
            &&& !grid[o.0][o.1].skip
            &&& in_rectangle(grid, o.0, o.1, q, g)
        }
    &&& forall|r0: int, g0: int, q: int, g: int|
        0 <= r0 < n_rows && 0 <= g0 < n_cols && reached(r, cursor, r0, g0) && !grid[r0][g0].skip
            && 0 <= q < n_rows && 0 <= g < n_cols && #[trigger] in_rectangle(grid, r0, g0, q, g)
            ==> reached(r, cursor, q, g) && owner[q][g] == (r0, g0)
    &&& forall|g: int|
        0 <= g < n_cols && (#[trigger] above[g]) is Some ==> {
            let r0 = above[g]->0 as int;
            &&& 0 <= r0 < r
            &&& !grid[r0][g].skip
            &&& (g >= cursor ==> grid[r0][g].rowspan == r - r0)
        }
    &&& forall|g: int|
        0 <= g < n_cols && (#[trigger] open[g]) is Some ==> {
            let r0 = open[g]->0 as int;
            &&& 0 <= r0 <= r
            &&& g < cursor
            &&& !grid[r0][g].skip
            &&& r0 + grid[r0][g].rowspan == r + 1
        }
}

/// The owners after a cell was placed at the cursor with the width `colspan`.
spec fn owners_placed(owner: Seq<Seq<(int, int)>>, r: int, cursor: int, colspan: int) -> Seq<
    Seq<(int, int)>,
> {
    owner.update(
        r,
        Seq::new(
            owner[r].len(),
            |g: int|
                if cursor <= g < cursor + colspan {
                    (r, cursor)
                } else {
                    owner[r][g]
                },
        ),
    )
}

/// The owners after a cell was taken up at the cursor by the merge that the cell
/// at `r0` restarted with the width `width`, the cursor moving on to `next`.
spec fn owners_taken_up(
    owner: Seq<Seq<(int, int)>>,
    r: int,
    r0: int,
    cursor: int,
    width: int,
    next: int,
) -> Seq<Seq<(int, int)>> {
    owner.update(
        r,
        Seq::new(
            owner[r].len(),
            |g: int|
                if cursor <= g < cursor + width {
                    (r0, cursor)
                } else if cursor + width <= g < next {
                    (r, g)
                } else {
                    owner[r][g]
                },
        ),
    )
}

proof fn lemma_step_placed(
    w: RowWalk,
    owner: Seq<Seq<(int, int)>>,
    above: Seq<Option<usize>>,
    r: int,
    cell: CellMerge,
    n_rows: int,
    n_cols: int,
) -> (next: Seq<Seq<(int, int)>>)
    requires
        rectangles_hold(w.grid, owner, above, w.open, r, w.cursor, n_rows, n_cols),
        r < n_rows <= usize::MAX,
        cell.grid_span >= 1,
        w.cursor < n_cols,
        !continues_at(cell, above, w.cursor),
    ensures
        ({
            let after = step_cell(w, above, r, cell, n_cols);
            rectangles_hold(after.grid, next, above, after.open, r, after.cursor, n_rows, n_cols)
        }),
        next == owners_placed(
            owner,
            r,
            w.cursor,
            lesser(cell.grid_span as int, n_cols - w.cursor),
        ),
{
    let cur = w.cursor;
    let after = step_cell(w, above, r, cell, n_cols);
    let colspan = lesser(cell.grid_span as int, n_cols - cur);
    let next = owners_placed(owner, r, cur, colspan);
    let grid = w.grid;
    let ag = after.grid;
    assert(grid[r].len() == n_cols);
    assert(owner[r].len() == n_cols);
    assert forall|q: int| 0 <= q < n_rows implies (#[trigger] ag[q]).len() == n_cols && (
    #[trigger] next[q]).len() == n_cols by {
        assert(grid[q].len() == n_cols);
        assert(owner[q].len() == n_cols);
    }
    assert forall|q: int, g: int| 0 <= q < n_rows && 0 <= g < n_cols implies #[trigger] ag[q][g] == (
    if q == r && g == cur {
        CellSpan { colspan: colspan as usize, rowspan: 1, skip: false }
    } else if q == r && cur < g < cur + colspan {
        CellSpan::spec_skipped()
    } else {
        grid[q][g]
    }) by {
        assert(grid[q].len() == n_cols);
    }
    assert forall|q: int, g: int| 0 <= q < n_rows && 0 <= g < n_cols implies #[trigger] next[q][g] == (
    if q == r && cur <= g < cur + colspan {
        (r, cur)
    } else {
        owner[q][g]
    }) by {
        assert(owner[q].len() == n_cols);
    }
    assert forall|q: int, g: int|
        0 <= q < n_rows && 0 <= g < n_cols && !reached(r, after.cursor, q, g) implies #[trigger] ag[q][g]
        == CellSpan::spec_new() by {
        assert(!reached(r, cur, q, g));
        assert(grid[q][g] == CellSpan::spec_new());
    }
    assert forall|r0: int, g0: int|
        0 <= r0 < n_rows && 0 <= g0 < n_cols && reached(r, after.cursor, r0, g0) && !(
        #[trigger] ag[r0][g0]).skip implies {
        &&& ag[r0][g0].rowspan >= 1
        &&& ag[r0][g0].colspan >= 1
        &&& r0 + ag[r0][g0].rowspan <= r + 1
        &&& r0 + ag[r0][g0].rowspan <= n_rows
        &&& g0 + ag[r0][g0].colspan <= n_cols
        &&& (r0 + ag[r0][g0].rowspan == r + 1 ==> g0 + ag[r0][g0].colspan <= after.cursor)
    } by {
        if r0 == r && g0 >= cur {
            if g0 > cur {
                assert(grid[r0][g0] == CellSpan::spec_new());
            }
        } else {
            assert(reached(r, cur, r0, g0));
            assert(!grid[r0][g0].skip);
        }
    }
    assert forall|q: int, g: int|
        0 <= q < n_rows && 0 <= g < n_cols && reached(r, after.cursor, q, g) implies {
        let o = #[trigger] next[q][g];
        &&& 0 <= o.0 < n_rows
        &&& 0 <= o.1 < n_cols
        &&& reached(r, after.cursor, o.0, o.1)
        &&& !ag[o.0][o.1].skip
        &&& in_rectangle(ag, o.0, o.1, q, g)
    } by {
        if q == r && g >= cur {
            assert(g < cur + colspan);
        } else {
            assert(reached(r, cur, q, g));
            let o = owner[q][g];
            assert(reached(r, cur, o.0, o.1));
            assert(ag[o.0][o.1] == grid[o.0][o.1]);
            assert(in_rectangle(grid, o.0, o.1, q, g));
        }
    }
    assert forall|r0: int, g0: int, q: int, g: int|
        0 <= r0 < n_rows && 0 <= g0 < n_cols && reached(r, after.cursor, r0, g0) && !ag[r0][g0].skip
            && 0 <= q < n_rows && 0 <= g < n_cols && #[trigger] in_rectangle(
            ag,
            r0,
            g0,
            q,
            g,
        ) implies reached(r, after.cursor, q, g) && next[q][g] == (r0, g0) by {
        if r0 == r && g0 >= cur {
            if g0 > cur {
                assert(grid[r0][g0] == CellSpan::spec_new());
                assert(ag[r0][g0] == CellSpan::spec_new());
            }
        } else {
            assert(reached(r, cur, r0, g0));
            assert(ag[r0][g0] == grid[r0][g0]);
            assert(in_rectangle(grid, r0, g0, q, g));
            assert(reached(r, cur, q, g));
        }
    }
    assert forall|g: int| 0 <= g < n_cols && (#[trigger] above[g]) is Some implies {
        let r0 = above[g]->0 as int;
        &&& 0 <= r0 < r
        &&& !ag[r0][g].skip
        &&& (g >= after.cursor ==> ag[r0][g].rowspan == r - r0)
    } by {
        let r0 = above[g]->0 as int;
        assert(ag[r0][g] == grid[r0][g]);
    }
    assert forall|g: int| 0 <= g < n_cols && (#[trigger] after.open[g]) is Some implies {
        let r0 = after.open[g]->0 as int;
        &&& 0 <= r0 <= r
        &&& g < after.cursor
        &&& !ag[r0][g].skip
        &&& r0 + ag[r0][g].rowspan == r + 1
    } by {
        if g != cur {
            assert(after.open[g] == w.open[g]);
            let r0 = w.open[g]->0 as int;
            assert(g < cur);
            assert(ag[r0][g] == grid[r0][g]);
        }
    }
    next
}


proof fn lemma_step_taken_up(
    w: RowWalk,
    owner: Seq<Seq<(int, int)>>,
    above: Seq<Option<usize>>,
    r: int,
    cell: CellMerge,
    n_rows: int,
    n_cols: int,
) -> (next: Seq<Seq<(int, int)>>)
    requires
        rectangles_hold(w.grid, owner, above, w.open, r, w.cursor, n_rows, n_cols),
        r < n_rows <= usize::MAX,
        cell.grid_span >= 1,
        w.cursor < n_cols,
        continues_at(cell, above, w.cursor),
    ensures
        ({
            let after = step_cell(w, above, r, cell, n_cols);
            rectangles_hold(after.grid, next, above, after.open, r, after.cursor, n_rows, n_cols)
        }),
        next == owners_taken_up(
            owner,
            r,
            above[w.cursor]->0 as int,
            w.cursor,
            w.grid[above[w.cursor]->0 as int][w.cursor].colspan as int,
            step_cell(w, above, r, cell, n_cols).cursor,
        ),
{
    let cur = w.cursor;
    let after = step_cell(w, above, r, cell, n_cols);
    let grid = w.grid;
    let ag = after.grid;
    let r0 = above[cur]->0 as int;
    assert(above[cur] is Some);
    assert(0 <= r0 < r);
    let root = grid[r0][cur];
    assert(!root.skip && root.rowspan == r - r0);
    assert(reached(r, cur, r0, cur));
    let cw = root.colspan as int;
    assert(cw >= 1 && cur + cw <= n_cols);
    let nx = after.cursor;
    assert(nx == cur + greater(cell.grid_span as int, cw));
    let next = owners_taken_up(owner, r, r0, cur, cw, nx);
    assert(grid[r].len() == n_cols);
    assert(grid[r0].len() == n_cols);
    assert(owner[r].len() == n_cols);
    let raised = CellSpan { colspan: root.colspan, rowspan: (r - r0 + 1) as usize, skip: false };
    assert forall|q: int| 0 <= q < n_rows implies (#[trigger] ag[q]).len() == n_cols && (
    #[trigger] next[q]).len() == n_cols by {
        assert(grid[q].len() == n_cols);
        assert(owner[q].len() == n_cols);
    }
    assert forall|q: int, g: int| 0 <= q < n_rows && 0 <= g < n_cols implies #[trigger] ag[q][g] == (
    if q == r && cur <= g < cur + cw {
        CellSpan::spec_skipped()
    } else if q == r0 && g == cur {
        raised
    } else {
        grid[q][g]
    }) by {
        assert(grid[q].len() == n_cols);
    }
    assert forall|q: int, g: int| 0 <= q < n_rows && 0 <= g < n_cols implies #[trigger] next[q][g] == (
    if q == r && cur <= g < cur + cw {
        (r0, cur)
    } else if q == r && cur + cw <= g < nx {
        (r, g)
    } else {
        owner[q][g]
    }) by {
        assert(owner[q].len() == n_cols);
    }
    assert forall|q: int, g: int|
        0 <= q < n_rows && 0 <= g < n_cols && !reached(r, nx, q, g) implies #[trigger] ag[q][g]
        == CellSpan::spec_new() by {
        assert(!reached(r, cur, q, g));
        assert(grid[q][g] == CellSpan::spec_new());
    }
    assert forall|r1: int, g1: int|
        0 <= r1 < n_rows && 0 <= g1 < n_cols && reached(r, nx, r1, g1) && !(
        #[trigger] ag[r1][g1]).skip implies {
        &&& ag[r1][g1].rowspan >= 1
        &&& ag[r1][g1].colspan >= 1
        &&& r1 + ag[r1][g1].rowspan <= r + 1
        &&& r1 + ag[r1][g1].rowspan <= n_rows
        &&& g1 + ag[r1][g1].colspan <= n_cols
        &&& (r1 + ag[r1][g1].rowspan == r + 1 ==> g1 + ag[r1][g1].colspan <= nx)
    } by {
        if r1 == r && g1 >= cur {
            assert(grid[r1][g1] == CellSpan::spec_new());
        } else if r1 == r0 && g1 == cur {
        } else {
            assert(reached(r, cur, r1, g1));
            assert(!grid[r1][g1].skip);
        }
    }
    assert forall|q: int, g: int| 0 <= q < n_rows && 0 <= g < n_cols && reached(r, nx, q, g) implies {
        let o = #[trigger] next[q][g];
        &&& 0 <= o.0 < n_rows
        &&& 0 <= o.1 < n_cols
        &&& reached(r, nx, o.0, o.1)
        &&& !ag[o.0][o.1].skip
        &&& in_rectangle(ag, o.0, o.1, q, g)
    } by {
        if q == r && g >= cur {
            if g >= cur + cw {
                assert(grid[q][g] == CellSpan::spec_new());
            }
        } else {
            assert(reached(r, cur, q, g));
            let o = owner[q][g];
            assert(reached(r, cur, o.0, o.1));
            assert(in_rectangle(grid, o.0, o.1, q, g));
            if o.0 == r0 && o.1 == cur {
            } else {
                assert(ag[o.0][o.1] == grid[o.0][o.1]);
            }
        }
    }
    assert forall|r1: int, g1: int, q: int, g: int|
        0 <= r1 < n_rows && 0 <= g1 < n_cols && reached(r, nx, r1, g1) && !ag[r1][g1].skip && 0 <= q
            < n_rows && 0 <= g < n_cols && #[trigger] in_rectangle(ag, r1, g1, q, g) implies reached(
        r,
        nx,
        q,
        g,
    ) && next[q][g] == (r1, g1) by {
        if r1 == r && g1 >= cur {
            assert(grid[r1][g1] == CellSpan::spec_new());
            assert(ag[r1][g1] == CellSpan::spec_new());
        } else if r1 == r0 && g1 == cur {
            if q < r {
                assert(in_rectangle(grid, r0, cur, q, g));
                assert(reached(r, cur, q, g));
            }
        } else {
            assert(reached(r, cur, r1, g1));
            assert(ag[r1][g1] == grid[r1][g1]);
            assert(in_rectangle(grid, r1, g1, q, g));
            assert(reached(r, cur, q, g));
        }
    }
    assert forall|g: int| 0 <= g < n_cols && (#[trigger] above[g]) is Some implies {
        let r2 = above[g]->0 as int;
        &&& 0 <= r2 < r
        &&& !ag[r2][g].skip
        &&& (g >= nx ==> ag[r2][g].rowspan == r - r2)
    } by {
        let r2 = above[g]->0 as int;
        if g != cur {
            assert(ag[r2][g] == grid[r2][g]);
        }
    }
    assert forall|g: int| 0 <= g < n_cols && (#[trigger] after.open[g]) is Some implies {
        let r2 = after.open[g]->0 as int;
        &&& 0 <= r2 <= r
        &&& g < nx
        &&& !ag[r2][g].skip
        &&& r2 + ag[r2][g].rowspan == r + 1
    } by {
        if g != cur {
            assert(after.open[g] == w.open[g]);
            let r2 = w.open[g]->0 as int;
            assert(g < cur);
            assert(ag[r2][g] == grid[r2][g]);
        }
    }
    next
}


proof fn lemma_walk_cells_rectangles(
    w: RowWalk,
    owner: Seq<Seq<(int, int)>>,
    above: Seq<Option<usize>>,
    cells: Seq<CellMerge>,
    r: int,
    i: int,
    n_rows: int,
    n_cols: int,
) -> (next: Seq<Seq<(int, int)>>)
    requires
        rectangles_hold(w.grid, owner, above, w.open, r, w.cursor, n_rows, n_cols),
        r < n_rows <= usize::MAX,
        0 <= i,
        forall|k: int| 0 <= k < cells.len() ==> (#[trigger] cells[k]).grid_span >= 1,
    ensures
        ({
            let end = walk_cells(w, above, cells, r, i, n_cols);
            rectangles_hold(end.grid, next, above, end.open, r, end.cursor, n_rows, n_cols)
        }),
    decreases cells.len() - i,
{
    if i < cells.len() {
        let cell = cells[i];
        let after = step_cell(w, above, r, cell, n_cols);
        let stepped = if w.cursor >= n_cols {
            owner
        } else if continues_at(cell, above, w.cursor) {
            lemma_step_taken_up(w, owner, above, r, cell, n_rows, n_cols)
        } else {
            lemma_step_placed(w, owner, above, r, cell, n_rows, n_cols)
        };
        lemma_walk_cells_rectangles(after, stepped, above, cells, r, i + 1, n_rows, n_cols)
    } else {
        owner
    }
}

/// The owners after the walk along row `r` has ended at `cursor`: the positions
/// that it did not come to are unmerged cells of their own.
spec fn owners_of_row_end(owner: Seq<Seq<(int, int)>>, r: int, cursor: int) -> Seq<Seq<(int, int)>> {
    owner.update(
        r,
        Seq::new(
            owner[r].len(),
            |g: int|
                if g >= cursor {
                    (r, g)
                } else {
                    owner[r][g]
                },
        ),
    )
}

proof fn lemma_row_end_rectangles(
    w: RowWalk,
    owner: Seq<Seq<(int, int)>>,
    above: Seq<Option<usize>>,
    r: int,
    n_rows: int,
    n_cols: int,
)
    requires
        rectangles_hold(w.grid, owner, above, w.open, r, w.cursor, n_rows, n_cols),
        r < n_rows,
    ensures
        rectangles_hold(
            w.grid,
            owners_of_row_end(owner, r, w.cursor),
            w.open,
            none_open(n_cols),
            r + 1,
            0,
            n_rows,
            n_cols,
        ),
{
    let grid = w.grid;
    let c = w.cursor;
    let next = owners_of_row_end(owner, r, c);
    assert(owner[r].len() == n_cols);
    assert forall|q: int| 0 <= q < n_rows implies (#[trigger] next[q]).len() == n_cols by {
        assert(owner[q].len() == n_cols);
    }
    assert forall|q: int, g: int| 0 <= q < n_rows && 0 <= g < n_cols implies #[trigger] next[q][g] == (
    if q == r && g >= c {
        (r, g)
    } else {
        owner[q][g]
    }) by {
        assert(owner[q].len() == n_cols);
    }
    assert forall|q: int, g: int|
        0 <= q < n_rows && 0 <= g < n_cols && !reached(r + 1, 0, q, g) implies #[trigger] grid[q][g]
        == CellSpan::spec_new() by {
        assert(!reached(r, c, q, g));
    }
    assert forall|r0: int, g0: int|
        0 <= r0 < n_rows && 0 <= g0 < n_cols && reached(r + 1, 0, r0, g0) && !(
        #[trigger] grid[r0][g0]).skip implies {
        &&& grid[r0][g0].rowspan >= 1
        &&& grid[r0][g0].colspan >= 1
        &&& r0 + grid[r0][g0].rowspan <= r + 1 + 1
        &&& r0 + grid[r0][g0].rowspan <= n_rows
        &&& g0 + grid[r0][g0].colspan <= n_cols
        &&& (r0 + grid[r0][g0].rowspan == r + 1 + 1 ==> g0 + grid[r0][g0].colspan <= 0)
    } by {
        if reached(r, c, r0, g0) {
        } else {
            assert(grid[r0][g0] == CellSpan::spec_new());
        }
    }
    assert forall|q: int, g: int| 0 <= q < n_rows && 0 <= g < n_cols && reached(r + 1, 0, q, g) implies {
        let o = #[trigger] next[q][g];
        &&& 0 <= o.0 < n_rows
        &&& 0 <= o.1 < n_cols
        &&& reached(r + 1, 0, o.0, o.1)
        &&& !grid[o.0][o.1].skip
        &&& in_rectangle(grid, o.0, o.1, q, g)
    } by {
        if reached(r, c, q, g) {
            let o = owner[q][g];
            assert(reached(r, c, o.0, o.1));
        } else {
            assert(grid[q][g] == CellSpan::spec_new());
        }
    }
    assert forall|r0: int, g0: int, q: int, g: int|
        0 <= r0 < n_rows && 0 <= g0 < n_cols && reached(r + 1, 0, r0, g0) && !grid[r0][g0].skip && 0
            <= q < n_rows && 0 <= g < n_cols && #[trigger] in_rectangle(
            grid,
            r0,
            g0,
            q,
            g,
        ) implies reached(r + 1, 0, q, g) && next[q][g] == (r0, g0) by {
        if reached(r, c, r0, g0) {
            assert(reached(r, c, q, g));
        } else {
            assert(grid[r0][g0] == CellSpan::spec_new());
        }
    }
    assert forall|g: int| 0 <= g < n_cols && (#[trigger] w.open[g]) is Some implies {
        let r0 = w.open[g]->0 as int;
        &&& 0 <= r0 < r + 1
        &&& !grid[r0][g].skip
        &&& (g >= 0 ==> grid[r0][g].rowspan == r + 1 - r0)
    } by {
    }
    assert forall|g: int| 0 <= g < n_cols implies !((#[trigger] none_open(n_cols)[g]) is Some) by {
    }
}

proof fn lemma_walk_rows_rectangles(
    t: TableWalk,
    owner: Seq<Seq<(int, int)>>,
    rows: Seq<Seq<CellMerge>>,
    r: int,
    n_cols: int,
) -> (next: Seq<Seq<(int, int)>>)
    requires
        rectangles_hold(
            t.grid,
            owner,
            t.open,
            none_open(n_cols),
            r,
            0,
            rows.len() as int,
            n_cols,
        ),
        r <= rows.len() <= usize::MAX,
        widths_positive(rows),
    ensures
        ({
            let end = walk_rows(t, rows, r, n_cols);
            rectangles_hold(
                end.grid,
                next,
                end.open,
                none_open(n_cols),
                rows.len() as int,
                0,
                rows.len() as int,
                n_cols,
            )
        }),
    decreases rows.len() - r,
{
    let n_rows = rows.len() as int;
    if r < n_rows {
        let start = RowWalk { grid: t.grid, open: none_open(n_cols), places: Seq::empty(), cursor: 0 };
        assert forall|k: int| 0 <= k < rows[r].len() implies (#[trigger] rows[r][k]).grid_span >= 1 by {
        }
        let walked = lemma_walk_cells_rectangles(start, owner, t.open, rows[r], r, 0, n_rows, n_cols);
        let w = walk_row(t.grid, t.open, rows[r], r, n_cols);
        lemma_row_end_rectangles(w, walked, t.open, r, n_rows, n_cols);
        let after = TableWalk { grid: w.grid, open: w.open, places: t.places.push(w.places) };
        lemma_walk_rows_rectangles(
            after,
            owners_of_row_end(walked, r, w.cursor),
            rows,
            r + 1,
            n_cols,
        )
    } else {
        owner
    }
}

/// The position is covered by the rectangle of a rendered cell other than itself.
pub open spec fn in_rectangle_of_another(grid: Seq<Seq<CellSpan>>, r: int, g: int) -> bool {
    exists|r0: int, g0: int|
        renders(grid, r0, g0) && (r0, g0) != (r, g) && #[trigger] in_rectangle(grid, r0, g0, r, g)
}

/// The rectangles of the rendered cells part the grid between them.
///
/// Of a table whose cells are at least one column wide: every rendered cell of
/// the span grid is at least one row high and one column wide, and its rectangle
/// lies within the grid. A position is marked as covered exactly when it lies in
/// the rectangle of a rendered cell other than itself. No position lies in the
/// rectangles of two rendered cells.
pub proof fn lemma_span_grid_rectangles(rows: Seq<Seq<CellMerge>>)
    requires
        widths_positive(rows),
        rows.len() <= usize::MAX,
    ensures
        has_shape(span_grid(rows), rows.len() as int, max_grid_columns(rows)),
        forall|r0: int, g0: int|
            renders(span_grid(rows), r0, g0) ==> {
                &&& (#[trigger] span_grid(rows)[r0][g0]).rowspan >= 1
                &&& span_grid(rows)[r0][g0].colspan >= 1
                &&& r0 + span_grid(rows)[r0][g0].rowspan <= rows.len()
                &&& g0 + span_grid(rows)[r0][g0].colspan <= max_grid_columns(rows)
            },
        forall|r: int, g: int|
            0 <= r < rows.len() && 0 <= g < max_grid_columns(rows) ==> ((
            #[trigger] span_grid(rows)[r][g]).skip <==> in_rectangle_of_another(
                span_grid(rows),
                r,
                g,
            )),
        forall|r1: int, g1: int, r2: int, g2: int, r: int, g: int|
            renders(span_grid(rows), r1, g1) && renders(span_grid(rows), r2, g2) && 0 <= r
                < rows.len() && 0 <= g < max_grid_columns(rows) && #[trigger] in_rectangle(
                span_grid(rows),
                r1,
                g1,
                r,
                g,
            ) && #[trigger] in_rectangle(span_grid(rows), r2, g2, r, g) ==> (r1, g1) == (r2, g2),
{
    let n_rows = rows.len() as int;
    let n_cols = max_grid_columns(rows);
    lemma_max_grid_columns_nonnegative(rows);
    let start = TableWalk {
        grid: blank_grid(n_rows, n_cols),
        open: none_open(n_cols),
        places: Seq::empty(),
    };
    let first = Seq::new(n_rows as nat, |q: int| Seq::new(n_cols as nat, |g: int| (q, g)));
    assert(rectangles_hold(start.grid, first, start.open, none_open(n_cols), 0, 0, n_rows, n_cols));
    let owner = lemma_walk_rows_rectangles(start, first, rows, 0, n_cols);
    let grid = span_grid(rows);
    assert(grid == walk_rows(start, rows, 0, n_cols).grid);
    assert forall|r0: int, g0: int| renders(grid, r0, g0) implies {
        &&& (#[trigger] grid[r0][g0]).rowspan >= 1
        &&& grid[r0][g0].colspan >= 1
        &&& r0 + grid[r0][g0].rowspan <= rows.len()
        &&& g0 + grid[r0][g0].colspan <= n_cols
    } by {
        assert(grid[r0].len() == n_cols);
        assert(reached(n_rows, 0, r0, g0));
    }
    assert forall|r: int, g: int| 0 <= r < n_rows && 0 <= g < n_cols implies ((
    #[trigger] grid[r][g]).skip <==> in_rectangle_of_another(grid, r, g)) by {
        assert(grid[r].len() == n_cols);
        assert(reached(n_rows, 0, r, g));
        let o = owner[r][g];
        if grid[r][g].skip {
            assert(grid[o.0].len() == n_cols);
            assert(renders(grid, o.0, o.1) && in_rectangle(grid, o.0, o.1, r, g));
        }
        if in_rectangle_of_another(grid, r, g) {
            let (r0, g0) = choose|r0: int, g0: int|
                renders(grid, r0, g0) && (r0, g0) != (r, g) && #[trigger] in_rectangle(
                    grid,
                    r0,
                    g0,
                    r,
                    g,
                );
            assert(grid[r0].len() == n_cols);
            assert(reached(n_rows, 0, r0, g0));
            assert(owner[r][g] == (r0, g0));
            if !grid[r][g].skip {
                assert(in_rectangle(grid, r, g, r, g));
                assert(owner[r][g] == (r, g));
            }
        }
    }
    assert forall|r1: int, g1: int, r2: int, g2: int, r: int, g: int|
        renders(grid, r1, g1) && renders(grid, r2, g2) && 0 <= r < n_rows && 0 <= g < n_cols
            && #[trigger] in_rectangle(grid, r1, g1, r, g) && #[trigger] in_rectangle(
            grid,
            r2,
            g2,
            r,
            g,
        ) implies (r1, g1) == (r2, g2) by {
        assert(grid[r1].len() == n_cols && grid[r2].len() == n_cols);
        assert(reached(n_rows, 0, r1, g1) && reached(n_rows, 0, r2, g2));
        assert(owner[r][g] == (r1, g1));
        assert(owner[r][g] == (r2, g2));
    }
}


/// The row holds a cell that was taken up by the vertical merge at grid column `g`.
pub open spec fn taken_up_at(places: Seq<Place>, g: int) -> bool {
    exists|i: int| 0 <= i < places.len() && #[trigger] places[i] == Place::Under(g as usize)
}

/// The row holds a cell that stands at grid column `g` and restarts a vertical
/// merge.
pub open spec fn restarts_at(places: Seq<Place>, cells: Seq<CellMerge>, g: int) -> bool {
    exists|i: int|
        0 <= i < places.len() && i < cells.len() && #[trigger] places[i] == Place::At(g as usize)
            && cells[i].v_merge == Some(VMergeState::Restart)
}

proof fn lemma_taken_up_push(places: Seq<Place>, p: Place, g: int)
    ensures
        taken_up_at(places.push(p), g) <==> (taken_up_at(places, g) || p == Place::Under(
            g as usize,
        )),
{
    let more = places.push(p);
    if taken_up_at(places, g) {
        let i = choose|i: int| 0 <= i < places.len() && #[trigger] places[i] == Place::Under(g as usize);
        assert(more[i] == Place::Under(g as usize));
    }
    if p == Place::Under(g as usize) {
        assert(more[places.len() as int] == Place::Under(g as usize));
    }
    if taken_up_at(more, g) {
        let i = choose|i: int| 0 <= i < more.len() && #[trigger] more[i] == Place::Under(g as usize);
        if i < places.len() {
            assert(places[i] == Place::Under(g as usize));
        }
    }
}

proof fn lemma_restarts_push(places: Seq<Place>, p: Place, cells: Seq<CellMerge>, g: int)
    ensures
        restarts_at(places, cells, g) ==> restarts_at(places.push(p), cells, g),
        places.len() < cells.len() && p == Place::At(g as usize) && cells[places.len() as int].v_merge
            == Some(VMergeState::Restart) ==> restarts_at(places.push(p), cells, g),
{
    let more = places.push(p);
    if restarts_at(places, cells, g) {
        let i = choose|i: int|
            0 <= i < places.len() && i < cells.len() && #[trigger] places[i] == Place::At(g as usize)
                && cells[i].v_merge == Some(VMergeState::Restart);
        assert(more[i] == Place::At(g as usize));
    }
    if places.len() < cells.len() && p == Place::At(g as usize) && cells[places.len() as int].v_merge
        == Some(VMergeState::Restart) {
        assert(more[places.len() as int] == Place::At(g as usize));
    }
}

/// What holds of the places of the rows above row `r`.
spec fn rows_merged(
    grid: Seq<Seq<CellSpan>>,
    owner: Seq<Seq<(int, int)>>,
    done: Seq<Seq<Place>>,
    rows: Seq<Seq<CellMerge>>,
    r: int,
    n_cols: int,
) -> bool {
    &&& done.len() == r
    &&& 0 <= r <= rows.len()
    &&& forall|q: int, g: int|
        0 <= q < r && 0 <= g < n_cols ==> (#[trigger] taken_up_at(done[q], g) <==> (grid[q][g].skip
            && owner[q][g].1 == g))
    &&& forall|q: int, g: int|
        0 <= q < r && 0 <= g < n_cols && !(#[trigger] grid[q][g]).skip && grid[q][g].rowspan > 1
            ==> restarts_at(done[q], rows[q], g)
    &&& forall|q: int, i: int|
        0 <= q < r && 0 <= i < done[q].len() && (#[trigger] done[q][i]) is Under ==> i
            < rows[q].len() && rows[q][i].v_merge == Some(VMergeState::Continue)
}

/// What holds of the places of row `r` while it is walked.
spec fn row_merged(
    grid: Seq<Seq<CellSpan>>,
    owner: Seq<Seq<(int, int)>>,
    here: Seq<Place>,
    cells: Seq<CellMerge>,
    r: int,
    cursor: int,
    n_cols: int,
) -> bool {
    &&& forall|g: int|
        0 <= g < n_cols && g < cursor ==> (#[trigger] taken_up_at(here, g) <==> (grid[r][g].skip
            && owner[r][g].1 == g))
    &&& forall|g: int| 0 <= g < n_cols && g >= cursor ==> !#[trigger] taken_up_at(here, g)
    &&& forall|i: int|
        0 <= i < here.len() && (#[trigger] here[i]) is Under ==> i < cells.len() && cells[i].v_merge
            == Some(VMergeState::Continue)
}

/// Every open merge was restarted by a cell that stands at its column.
spec fn opened_by_restarts(
    open: Seq<Option<usize>>,
    done: Seq<Seq<Place>>,
    here: Seq<Place>,
    rows: Seq<Seq<CellMerge>>,
    r: int,
) -> bool {
    forall|g: int|
        0 <= g < open.len() && (#[trigger] open[g]) is Some ==> {
            let r0 = open[g]->0 as int;
            &&& (0 <= r0 < r ==> restarts_at(done[r0], rows[r0], g))
            &&& (r0 == r ==> restarts_at(here, rows[r], g))
        }
}

proof fn lemma_step_merges(
    w: RowWalk,
    owner: Seq<Seq<(int, int)>>,
    above: Seq<Option<usize>>,
    done: Seq<Seq<Place>>,
    rows: Seq<Seq<CellMerge>>,
    r: int,
    n_cols: int,
) -> (next: Seq<Seq<(int, int)>>)
    requires
        0 <= r < rows.len() <= usize::MAX,
        rectangles_hold(w.grid, owner, above, w.open, r, w.cursor, rows.len() as int, n_cols),
        rows_merged(w.grid, owner, done, rows, r, n_cols),
        row_merged(w.grid, owner, w.places, rows[r], r, w.cursor, n_cols),
        opened_by_restarts(above, done, w.places, rows, r),
        opened_by_restarts(w.open, done, w.places, rows, r),
        n_cols <= usize::MAX,
        w.places.len() < rows[r].len(),
        rows[r][w.places.len() as int].grid_span >= 1,
    ensures
        ({
            let after = step_cell(w, above, r, rows[r][w.places.len() as int], n_cols);
            &&& rectangles_hold(
                after.grid,
                next,
                above,
                after.open,
                r,
                after.cursor,
                rows.len() as int,
                n_cols,
            )
            &&& rows_merged(after.grid, next, done, rows, r, n_cols)
            &&& row_merged(after.grid, next, after.places, rows[r], r, after.cursor, n_cols)
            &&& opened_by_restarts(above, done, after.places, rows, r)
            &&& opened_by_restarts(after.open, done, after.places, rows, r)
            &&& after.places.len() == w.places.len() + 1
        }),
{
    let n_rows = rows.len() as int;
    let i = w.places.len() as int;
    let cells = rows[r];
    let cell = cells[i];
    let cur = w.cursor;
    let grid = w.grid;
    let after = step_cell(w, above, r, cell, n_cols);
    let ag = after.grid;
    assert(grid[r].len() == n_cols);
    assert(owner[r].len() == n_cols);
    if cur >= n_cols {
        assert(after.grid == grid);
        assert(after.cursor == cur && after.open == w.open);
        assert forall|q: int, g: int| 0 <= q < r && 0 <= g < n_cols implies (#[trigger] taken_up_at(
            done[q],
            g,
        ) <==> (grid[q][g].skip && owner[q][g].1 == g)) by {
        }
        assert(ag =~= grid);
        assert forall|g: int| 0 <= g < n_cols implies (#[trigger] taken_up_at(after.places, g)
            <==> taken_up_at(w.places, g)) by {
            lemma_taken_up_push(w.places, Place::Outside, g);
        }
        assert forall|g: int| 0 <= g < above.len() implies (restarts_at(w.places, cells, g)
            ==> restarts_at(after.places, cells, g)) by {
            lemma_restarts_push(w.places, Place::Outside, cells, g);
        }
        assert forall|k: int|
            0 <= k < after.places.len() && (#[trigger] after.places[k]) is Under implies k
            < cells.len() && cells[k].v_merge == Some(VMergeState::Continue) by {
            if k < i {
                assert(w.places[k] is Under);
            }
        }
        owner
    } else if continues_at(cell, above, cur) {
        let next = lemma_step_taken_up(w, owner, above, r, cell, n_rows, n_cols);
        let r0 = above[cur]->0 as int;
        assert(above[cur] is Some);
        assert(0 <= r0 < r);
        assert(grid[r0].len() == n_cols);
        let cw = grid[r0][cur].colspan as int;
        let nx = after.cursor;
        assert(reached(r, cur, r0, cur));
        assert(!grid[r0][cur].skip);
        assert(cw >= 1 && cur + cw <= n_cols);
        assert forall|q: int, g: int| 0 <= q < n_rows && 0 <= g < n_cols implies #[trigger] ag[q][g] == (
        if q == r && cur <= g < cur + cw {
            CellSpan::spec_skipped()
        } else if q == r0 && g == cur {
            CellSpan {
                colspan: grid[r0][cur].colspan,
                rowspan: (r - r0 + 1) as usize,
                skip: false,
            }
        } else {
            grid[q][g]
        }) by {
            assert(grid[q].len() == n_cols);
        }
        assert forall|q: int, g: int| 0 <= q < n_rows && 0 <= g < n_cols implies #[trigger] next[q][g]
            == (if q == r && cur <= g < cur + cw {
            (r0, cur)
        } else if q == r && cur + cw <= g < nx {
            (r, g)
        } else {
            owner[q][g]
        }) by {
            assert(owner[q].len() == n_cols);
        }
        assert forall|q: int, g: int| 0 <= q < r && 0 <= g < n_cols implies (#[trigger] taken_up_at(
            done[q],
            g,
        ) <==> (ag[q][g].skip && next[q][g].1 == g)) by {
            assert(next[q][g] == owner[q][g]);
            assert(ag[q][g].skip == grid[q][g].skip);
        }
        assert forall|q: int, g: int|
            0 <= q < r && 0 <= g < n_cols && !(#[trigger] ag[q][g]).skip && ag[q][g].rowspan
                > 1 implies restarts_at(done[q], rows[q], g) by {
            if q == r0 && g == cur {
            } else {
                assert(ag[q][g] == grid[q][g]);
            }
        }
        assert forall|g: int| 0 <= g < n_cols && g < nx implies (#[trigger] taken_up_at(
            after.places,
            g,
        ) <==> (ag[r][g].skip && next[r][g].1 == g)) by {
            lemma_taken_up_push(w.places, Place::Under(cur as usize), g);
            if g < cur {
                assert(next[r][g] == owner[r][g]);
                assert(ag[r][g] == grid[r][g]);
            } else {
                assert(!taken_up_at(w.places, g));
                if g >= cur + cw {
                    assert(grid[r][g] == CellSpan::spec_new());
                }
            }
        }
        assert forall|g: int| 0 <= g < n_cols && g >= nx implies !#[trigger] taken_up_at(
            after.places,
            g,
        ) by {
            lemma_taken_up_push(w.places, Place::Under(cur as usize), g);
            assert(!taken_up_at(w.places, g));
        }
        assert forall|k: int|
            0 <= k < after.places.len() && (#[trigger] after.places[k]) is Under implies k
            < cells.len() && cells[k].v_merge == Some(VMergeState::Continue) by {
            if k < i {
                assert(w.places[k] is Under);
            }
        }
        assert forall|g: int| 0 <= g < above.len() implies (restarts_at(w.places, cells, g)
            ==> restarts_at(after.places, cells, g)) by {
            lemma_restarts_push(w.places, Place::Under(cur as usize), cells, g);
        }
        assert forall|g: int| 0 <= g < after.open.len() && (#[trigger] after.open[g]) is Some implies {
            let q = after.open[g]->0 as int;
            &&& (0 <= q < r ==> restarts_at(done[q], rows[q], g))
            &&& (q == r ==> restarts_at(after.places, rows[r], g))
        } by {
            if g != cur {
                assert(after.open[g] == w.open[g]);
            }
        }
        next
    } else {
        let next = lemma_step_placed(w, owner, above, r, cell, n_rows, n_cols);
        let colspan = lesser(cell.grid_span as int, n_cols - cur);
        assert forall|q: int, g: int| 0 <= q < n_rows && 0 <= g < n_cols implies #[trigger] ag[q][g] == (
        if q == r && g == cur {
            CellSpan { colspan: colspan as usize, rowspan: 1, skip: false }
        } else if q == r && cur < g < cur + colspan {
            CellSpan::spec_skipped()
        } else {
            grid[q][g]
        }) by {
            assert(grid[q].len() == n_cols);
        }
        assert forall|q: int, g: int| 0 <= q < n_rows && 0 <= g < n_cols implies #[trigger] next[q][g]
            == (if q == r && cur <= g < cur + colspan {
            (r, cur)
        } else {
            owner[q][g]
        }) by {
            assert(owner[q].len() == n_cols);
        }
        assert forall|q: int, g: int| 0 <= q < r && 0 <= g < n_cols implies (#[trigger] taken_up_at(
            done[q],
            g,
        ) <==> (ag[q][g].skip && next[q][g].1 == g)) by {
            assert(next[q][g] == owner[q][g]);
            assert(ag[q][g] == grid[q][g]);
        }
        assert forall|q: int, g: int|
            0 <= q < r && 0 <= g < n_cols && !(#[trigger] ag[q][g]).skip && ag[q][g].rowspan
                > 1 implies restarts_at(done[q], rows[q], g) by {
            assert(ag[q][g] == grid[q][g]);
        }
        assert forall|g: int| 0 <= g < n_cols && g < after.cursor implies (#[trigger] taken_up_at(
            after.places,
            g,
        ) <==> (ag[r][g].skip && next[r][g].1 == g)) by {
            lemma_taken_up_push(w.places, Place::At(cur as usize), g);
            if g < cur {
                assert(next[r][g] == owner[r][g]);
                assert(ag[r][g] == grid[r][g]);
            } else {
                assert(!taken_up_at(w.places, g));
                assert(g < cur + colspan);
            }
        }
        assert forall|g: int| 0 <= g < n_cols && g >= after.cursor implies !#[trigger] taken_up_at(
            after.places,
            g,
        ) by {
            lemma_taken_up_push(w.places, Place::At(cur as usize), g);
            assert(!taken_up_at(w.places, g));
        }
        assert forall|k: int|
            0 <= k < after.places.len() && (#[trigger] after.places[k]) is Under implies k
            < cells.len() && cells[k].v_merge == Some(VMergeState::Continue) by {
            if k < i {
                assert(w.places[k] is Under);
            }
        }
        assert forall|g: int| 0 <= g < above.len() implies (restarts_at(w.places, cells, g)
            ==> restarts_at(after.places, cells, g)) by {
            lemma_restarts_push(w.places, Place::At(cur as usize), cells, g);
        }
        assert forall|g: int| 0 <= g < after.open.len() && (#[trigger] after.open[g]) is Some implies {
            let q = after.open[g]->0 as int;
            &&& (0 <= q < r ==> restarts_at(done[q], rows[q], g))
            &&& (q == r ==> restarts_at(after.places, rows[r], g))
        } by {
            if g != cur {
                assert(after.open[g] == w.open[g]);
            } else {
                lemma_restarts_push(w.places, Place::At(cur as usize), cells, cur);
            }
        }
        next
    }
}


proof fn lemma_walk_cells_merges(
    w: RowWalk,
    owner: Seq<Seq<(int, int)>>,
    above: Seq<Option<usize>>,
    done: Seq<Seq<Place>>,
    rows: Seq<Seq<CellMerge>>,
    r: int,
    n_cols: int,
) -> (next: Seq<Seq<(int, int)>>)
    requires
        0 <= r < rows.len() <= usize::MAX,
        rectangles_hold(w.grid, owner, above, w.open, r, w.cursor, rows.len() as int, n_cols),
        rows_merged(w.grid, owner, done, rows, r, n_cols),
        row_merged(w.grid, owner, w.places, rows[r], r, w.cursor, n_cols),
        opened_by_restarts(above, done, w.places, rows, r),
        opened_by_restarts(w.open, done, w.places, rows, r),
        n_cols <= usize::MAX,
        w.places.len() <= rows[r].len(),
        forall|k: int| 0 <= k < rows[r].len() ==> (#[trigger] rows[r][k]).grid_span >= 1,
    ensures
        ({
            let end = walk_cells(w, above, rows[r], r, w.places.len() as int, n_cols);
            &&& rectangles_hold(
                end.grid,
                next,
                above,
                end.open,
                r,
                end.cursor,
                rows.len() as int,
                n_cols,
            )
            &&& rows_merged(end.grid, next, done, rows, r, n_cols)
            &&& row_merged(end.grid, next, end.places, rows[r], r, end.cursor, n_cols)
            &&& opened_by_restarts(end.open, done, end.places, rows, r)
        }),
    decreases rows[r].len() - w.places.len(),
{
    if w.places.len() < rows[r].len() {
        let cell = rows[r][w.places.len() as int];
        let stepped = lemma_step_merges(w, owner, above, done, rows, r, n_cols);
        let after = step_cell(w, above, r, cell, n_cols);
        lemma_walk_cells_merges(after, stepped, above, done, rows, r, n_cols)
    } else {
        owner
    }
}

proof fn lemma_row_end_merges(
    w: RowWalk,
    owner: Seq<Seq<(int, int)>>,
    above: Seq<Option<usize>>,
    done: Seq<Seq<Place>>,
    rows: Seq<Seq<CellMerge>>,
    r: int,
    n_cols: int,
)
    requires
        0 <= r < rows.len(),
        rectangles_hold(w.grid, owner, above, w.open, r, w.cursor, rows.len() as int, n_cols),
        rows_merged(w.grid, owner, done, rows, r, n_cols),
        row_merged(w.grid, owner, w.places, rows[r], r, w.cursor, n_cols),
        opened_by_restarts(w.open, done, w.places, rows, r),
    ensures
        rows_merged(
            w.grid,
            owners_of_row_end(owner, r, w.cursor),
            done.push(w.places),
            rows,
            r + 1,
            n_cols,
        ),
        opened_by_restarts(w.open, done.push(w.places), Seq::empty(), rows, r + 1),
{
    let n_rows = rows.len() as int;
    let grid = w.grid;
    let c = w.cursor;
    let next = owners_of_row_end(owner, r, c);
    let more = done.push(w.places);
    assert(owner[r].len() == n_cols);
    assert(grid[r].len() == n_cols);
    assert forall|q: int, g: int| 0 <= q < r + 1 && 0 <= g < n_cols implies (#[trigger] taken_up_at(
        more[q],
        g,
    ) <==> (grid[q][g].skip && next[q][g].1 == g)) by {
        assert(owner[q].len() == n_cols);
        if q < r {
            assert(more[q] == done[q]);
            assert(next[q][g] == owner[q][g]);
            assert(taken_up_at(done[q], g) == (grid[q][g].skip && owner[q][g].1 == g));
        } else {
            assert(more[q] == w.places);
            if g < c {
                assert(next[q][g] == owner[q][g]);
                assert(taken_up_at(w.places, g) == (grid[r][g].skip && owner[r][g].1 == g));
            } else {
                assert(!taken_up_at(w.places, g));
                assert(!reached(r, c, r, g));
                assert(grid[r][g] == CellSpan::spec_new());
            }
        }
    }
    assert forall|q: int, g: int|
        0 <= q < r + 1 && 0 <= g < n_cols && !(#[trigger] grid[q][g]).skip && grid[q][g].rowspan
            > 1 implies restarts_at(more[q], rows[q], g) by {
        if q < r {
            assert(more[q] == done[q]);
        } else {
            if reached(r, c, r, g) {
            } else {
                assert(grid[r][g] == CellSpan::spec_new());
            }
        }
    }
    assert forall|q: int, i: int|
        0 <= q < r + 1 && 0 <= i < more[q].len() && (#[trigger] more[q][i]) is Under implies i
        < rows[q].len() && rows[q][i].v_merge == Some(VMergeState::Continue) by {
        if q < r {
            assert(more[q] == done[q]);
            assert(done[q][i] is Under);
        } else {
            assert(w.places[i] is Under);
        }
    }
    assert forall|g: int| 0 <= g < w.open.len() && (#[trigger] w.open[g]) is Some implies {
        let r0 = w.open[g]->0 as int;
        &&& (0 <= r0 < r + 1 ==> restarts_at(more[r0], rows[r0], g))
        &&& (r0 == r + 1 ==> restarts_at(Seq::<Place>::empty(), rows[r + 1], g))
    } by {
        let r0 = w.open[g]->0 as int;
        assert(0 <= r0 <= r);
        if r0 < r {
            assert(more[r0] == done[r0]);
        } else {
            assert(more[r0] == w.places);
        }
    }
}

proof fn lemma_walk_rows_merges(
    t: TableWalk,
    owner: Seq<Seq<(int, int)>>,
    rows: Seq<Seq<CellMerge>>,
    r: int,
    n_cols: int,
) -> (next: Seq<Seq<(int, int)>>)
    requires
        0 <= r <= rows.len() <= usize::MAX,
        rectangles_hold(
            t.grid,
            owner,
            t.open,
            none_open(n_cols),
            r,
            0,
            rows.len() as int,
            n_cols,
        ),
        rows_merged(t.grid, owner, t.places, rows, r, n_cols),
        opened_by_restarts(t.open, t.places, Seq::empty(), rows, r),
        0 <= n_cols <= usize::MAX,
        widths_positive(rows),
    ensures
        ({
            let end = walk_rows(t, rows, r, n_cols);
            &&& rectangles_hold(
                end.grid,
                next,
                end.open,
                none_open(n_cols),
                rows.len() as int,
                0,
                rows.len() as int,
                n_cols,
            )
            &&& rows_merged(end.grid, next, end.places, rows, rows.len() as int, n_cols)
        }),
    decreases rows.len() - r,
{
    let n_rows = rows.len() as int;
    if r < n_rows {
        let start = RowWalk { grid: t.grid, open: none_open(n_cols), places: Seq::empty(), cursor: 0 };
        assert forall|k: int| 0 <= k < rows[r].len() implies (#[trigger] rows[r][k]).grid_span >= 1 by {
        }
        assert forall|g: int| 0 <= g < n_cols implies !#[trigger] taken_up_at(start.places, g) by {
        }
        assert(row_merged(t.grid, owner, start.places, rows[r], r, 0, n_cols));
        assert(opened_by_restarts(start.open, t.places, start.places, rows, r));
        assert forall|g: int| 0 <= g < t.open.len() && (#[trigger] t.open[g]) is Some implies {
            let r0 = t.open[g]->0 as int;
            &&& (0 <= r0 < r ==> restarts_at(t.places[r0], rows[r0], g))
            &&& (r0 == r ==> restarts_at(start.places, rows[r], g))
        } by {
        }
        let walked = lemma_walk_cells_merges(start, owner, t.open, t.places, rows, r, n_cols);
        let w = walk_row(t.grid, t.open, rows[r], r, n_cols);
        lemma_row_end_rectangles(w, walked, t.open, r, n_rows, n_cols);
        lemma_row_end_merges(w, walked, t.open, t.places, rows, r, n_cols);
        let after = TableWalk { grid: w.grid, open: w.open, places: t.places.push(w.places) };
        lemma_walk_rows_merges(after, owners_of_row_end(walked, r, w.cursor), rows, r + 1, n_cols)
    } else {
        owner
    }
}

/// The grid of a table whose rows fit a `usize` is no wider than a `usize` can
/// hold.
pub proof fn lemma_grid_columns_fit(rows: Seq<Seq<CellMerge>>)
    requires
        widths_fit(rows),
    ensures
        max_grid_columns(rows) <= usize::MAX,
    decreases rows.len(),
{
    if rows.len() > 0 {
        let front = rows.drop_last();
        assert forall|r: int| 0 <= r < front.len() implies #[trigger] row_width(front[r])
            <= usize::MAX by {
            assert(front[r] == rows[r]);
        }
        lemma_grid_columns_fit(front);
        assert(rows.last() == rows[rows.len() - 1]);
    }
}

/// The height of the cell at `r0`, `g0` is what its vertical merge makes it: a
/// cell higher than one row restarts a merge at its column; every row that the
/// height covers below the first holds a cell that the merge has taken up at that
/// column; and the row after the last, if there is one, holds none.
pub open spec fn height_is_merge(
    layout: Layout,
    rows: Seq<Seq<CellMerge>>,
    r0: int,
    g0: int,
) -> bool {
    let height = layout.grid[r0][g0].rowspan as int;
    &&& (height > 1 ==> restarts_at(layout.places[r0], rows[r0], g0))
    &&& forall|q: int| r0 < q < r0 + height ==> #[trigger] taken_up_at(layout.places[q], g0)
    &&& (r0 + height < rows.len() ==> !taken_up_at(layout.places[r0 + height], g0))
}

/// A restart's height is 1 plus the rows that continue it at its grid column.
///
/// Of a table whose cells are at least one column wide: a cell is taken up by a
/// merge only if it continues a vertical merge. A rendered cell is higher than one
/// row only if it restarts a vertical merge, and its height is 1 plus the number
/// of rows that follow its own without a gap and hold a cell which the merge has
/// taken up at its column. Every other rendered cell is one row high.
pub proof fn lemma_span_grid_heights(rows: Seq<Seq<CellMerge>>)
    requires
        widths_positive(rows),
        widths_fit(rows),
        rows.len() <= usize::MAX,
    ensures
        table_layout(rows).places.len() == rows.len(),
        forall|r: int, i: int|
            0 <= r < rows.len() && 0 <= i < table_layout(rows).places[r].len() && (
            #[trigger] table_layout(rows).places[r][i]) is Under ==> i < rows[r].len()
                && rows[r][i].v_merge == Some(VMergeState::Continue),
        forall|r0: int, g0: int|
            renders(table_layout(rows).grid, r0, g0) ==> #[trigger] height_is_merge(
                table_layout(rows),
                rows,
                r0,
                g0,
            ),
{
    let n_rows = rows.len() as int;
    let n_cols = max_grid_columns(rows);
    lemma_max_grid_columns_nonnegative(rows);
    lemma_grid_columns_fit(rows);
    let start = TableWalk {
        grid: blank_grid(n_rows, n_cols),
        open: none_open(n_cols),
        places: Seq::empty(),
    };
    let first = Seq::new(n_rows as nat, |q: int| Seq::new(n_cols as nat, |g: int| (q, g)));
    assert(rectangles_hold(start.grid, first, start.open, none_open(n_cols), 0, 0, n_rows, n_cols));
    let owner = lemma_walk_rows_merges(start, first, rows, 0, n_cols);
    let layout = table_layout(rows);
    let end = walk_rows(start, rows, 0, n_cols);
    assert(layout.grid == end.grid && layout.places == end.places);
    let grid = layout.grid;
    let places = layout.places;
    assert forall|r0: int, g0: int| renders(grid, r0, g0) implies #[trigger] height_is_merge(
        layout,
        rows,
        r0,
        g0,
    ) by {
        assert(grid[r0].len() == n_cols);
        assert(reached(n_rows, 0, r0, g0));
        let height = grid[r0][g0].rowspan as int;
        assert(height >= 1 && grid[r0][g0].colspan >= 1 && r0 + height <= n_rows);
        assert(in_rectangle(grid, r0, g0, r0, g0));
        assert(owner[r0][g0] == (r0, g0));
        assert forall|q: int| r0 < q < r0 + height implies #[trigger] taken_up_at(places[q], g0) by {
            assert(in_rectangle(grid, r0, g0, q, g0));
            assert(owner[q][g0] == (r0, g0));
            assert(grid[q].len() == n_cols);
            if !grid[q][g0].skip {
                assert(reached(n_rows, 0, q, g0));
                assert(grid[q][g0].rowspan >= 1 && grid[q][g0].colspan >= 1);
                assert(in_rectangle(grid, q, g0, q, g0));
            }
            assert(taken_up_at(places[q], g0) == (grid[q][g0].skip && owner[q][g0].1 == g0));
        }
        if r0 + height < n_rows && taken_up_at(places[r0 + height], g0) {
            let q = r0 + height;
            assert(grid[q].len() == n_cols);
            assert(taken_up_at(places[q], g0) == (grid[q][g0].skip && owner[q][g0].1 == g0));
            assert(reached(n_rows, 0, q, g0));
            let o = owner[q][g0];
            assert(o.1 == g0);
            assert(in_rectangle(grid, o.0, o.1, q, g0));
            assert(!grid[o.0][o.1].skip);
            assert(reached(n_rows, 0, o.0, o.1));
            assert(grid[o.0][o.1].colspan >= 1);
            if o.0 <= r0 {
                assert(in_rectangle(grid, o.0, g0, r0, g0));
                assert(owner[r0][g0] == (o.0, g0));
            } else {
                assert(in_rectangle(grid, r0, g0, o.0, g0));
                assert(owner[o.0][g0] == (r0, g0));
                assert(in_rectangle(grid, o.0, g0, o.0, g0));
                assert(owner[o.0][g0] == (o.0, g0));
            }
        }
    }
}

} // verus!
