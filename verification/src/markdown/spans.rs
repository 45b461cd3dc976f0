//! The span grid of a table: for every row and grid column, how many columns and
//! rows the cell that starts there covers, or that the position is covered by
//! another cell's merge. With it comes the place of every cell: the grid column
//! that it stands at, or the merge that it continues.

use vstd::prelude::*;
use crate::document::table::VMergeState;

verus! {

/// The merge data of one cell, as it was read from the table.
#[derive(Debug, Clone, Copy, PartialEq, Eq)]
pub struct CellMerge {
    /// The number of grid columns that the cell occupies.
    pub grid_span: usize,
    /// The part that the cell plays in a vertical merge, if any.
    pub v_merge: Option<VMergeState>,
}

/// The span of one grid position.
#[derive(Debug, Clone, Copy, PartialEq, Eq)]
pub struct CellSpan {
    /// Number of columns this cell spans (horizontal merge).
    pub colspan: usize,
    /// Number of rows this cell spans (vertical merge).
    pub rowspan: usize,
    /// Whether this position is covered by a merge and is not rendered.
    pub skip: bool,
}

impl CellSpan {
    /// The span of a cell that is not merged.
    pub open spec fn spec_new() -> CellSpan {
        CellSpan { colspan: 1, rowspan: 1, skip: false }
    }

    /// The span of a position that a merge covers.
    pub open spec fn spec_skipped() -> CellSpan {
        CellSpan { colspan: 1, rowspan: 1, skip: true }
    }

    /// Create a new cell span with default values (no merge).
    pub fn new() -> (s: Self)
        ensures
            s == Self::spec_new(),
    {
        CellSpan { colspan: 1, rowspan: 1, skip: false }
    }

    /// Create a cell span that should be skipped.
    pub fn skipped() -> (s: Self)
        ensures
            s == Self::spec_skipped(),
    {
        CellSpan { colspan: 1, rowspan: 1, skip: true }
    }
}

/// Where a cell of a row went in the grid.
#[derive(Debug, Clone, Copy, PartialEq, Eq)]
pub enum Place {
    /// The cell stands at this grid column and is rendered with the span of that
    /// position.
    At(usize),
    /// The cell continues the vertical merge that covers this grid column. It is
    /// part of the cell that restarted the merge and is not rendered.
    Under(usize),
    /// The row had left the grid before the cell.
    Outside,
}

/// A vector of rows as a sequence of sequences.
pub open spec fn rows_view<T>(v: &Vec<Vec<T>>) -> Seq<Seq<T>> {
    Seq::new(v@.len(), |i: int| v@[i]@)
}

/// The number of grid columns that the cells of a row occupy together.
pub open spec fn row_width(row: Seq<CellMerge>) -> int
    decreases row.len(),
{
    if row.len() == 0 {
        0
    } else {
        row_width(row.drop_last()) + row.last().grid_span
    }
}

/// The width of the grid: the greatest width of a row, 0 for no rows.
pub open spec fn max_grid_columns(rows: Seq<Seq<CellMerge>>) -> int
    decreases rows.len(),
{
    if rows.len() == 0 {
        0
    } else {
        let rest = max_grid_columns(rows.drop_last());
        let last = row_width(rows.last());
        if last > rest {
            last
        } else {
            rest
        }
    }
}

/// Every row's width can be held in a `usize`.
pub open spec fn widths_fit(rows: Seq<Seq<CellMerge>>) -> bool {
    forall|r: int| 0 <= r < rows.len() ==> #[trigger] row_width(rows[r]) <= usize::MAX
}

/// A grid of `n_rows` rows and `n_cols` columns in which no cell is merged.
pub open spec fn blank_grid(n_rows: int, n_cols: int) -> Seq<Seq<CellSpan>> {
    Seq::new(n_rows as nat, |r: int| Seq::new(n_cols as nat, |c: int| CellSpan::spec_new()))
}

/// The row with the positions from `from` up to, not including, `to` marked as covered.
pub open spec fn mark_range(row: Seq<CellSpan>, from: int, to: int) -> Seq<CellSpan> {
    Seq::new(
        row.len(),
        |c: int|
            if from <= c < to {
                CellSpan::spec_skipped()
            } else {
                row[c]
            },
    )
}

/// The span grid of a table and the places of its cells.
pub struct Layout {
    /// The spans, by row and grid column.
    pub grid: Seq<Seq<CellSpan>>,
    /// The places, by row and index of the cell in its row.
    pub places: Seq<Seq<Place>>,
}

/// How far the walk along a row has come.
pub struct RowWalk {
    /// The grid as the cells before the cursor have made it.
    pub grid: Seq<Seq<CellSpan>>,
    /// By grid column: the row of the cell that restarted the vertical merge which
    /// this row starts or continues at that column.
    pub open: Seq<Option<usize>>,
    /// The places of the cells before the cursor.
    pub places: Seq<Place>,
    /// The grid column that the next cell meets.
    pub cursor: int,
}

/// How far the walk down the rows has come.
pub struct TableWalk {
    pub grid: Seq<Seq<CellSpan>>,
    /// By grid column: the row of the cell that restarted the vertical merge which
    /// the last row started or continued at that column.
    pub open: Seq<Option<usize>>,
    pub places: Seq<Seq<Place>>,
}

/// No merge is open at any of the `n_cols` columns.
pub open spec fn none_open(n_cols: int) -> Seq<Option<usize>> {
    Seq::new(n_cols as nat, |g: int| None::<usize>)
}

/// The cell continues a vertical merge at grid column `g`: it says so, and the row
/// above started or continued a merge at that column.
pub open spec fn continues_at(cell: CellMerge, above: Seq<Option<usize>>, g: int) -> bool {
    cell.v_merge == Some(VMergeState::Continue) && 0 <= g < above.len() && above[g] is Some
}

/// The lesser of two numbers.
pub open spec fn lesser(a: int, b: int) -> int {
    if a < b {
        a
    } else {
        b
    }
}

/// The greater of two numbers.
pub open spec fn greater(a: int, b: int) -> int {
    if a > b {
        a
    } else {
        b
    }
}

/// The walk after the cell `cell` of row `r`.
///
/// - A cell that the row has left the grid before has no place in it.
/// - A cell that continues a vertical merge at the column of the cursor is taken
///   up by the merge: the columns of the cell that restarted the merge are covered
///   in this row, that cell is one row higher, and the cursor passes the covered
///   columns and the width of the cell.
/// - Any other cell stands at the column of the cursor, with its width or, if
///   that is less, the width that the grid has room for. The columns of its width
///   after the first are covered, and the cursor moves on by its width. A cell that
///   restarts a vertical merge opens one at its column.
pub open spec fn step_cell(
    w: RowWalk,
    above: Seq<Option<usize>>,
    r: int,
    cell: CellMerge,
    n_cols: int,
) -> RowWalk {
    let g = w.cursor;
    if g >= n_cols {
        RowWalk { places: w.places.push(Place::Outside), ..w }
    } else if continues_at(cell, above, g) {
        let r0 = above[g]->0 as int;
        let root = w.grid[r0][g];
        let covered = w.grid.update(r, mark_range(w.grid[r], g, g + root.colspan));
        RowWalk {
            grid: covered.update(
                r0,
                covered[r0].update(
                    g,
                    CellSpan {
                        colspan: root.colspan,
                        rowspan: (r - r0 + 1) as usize,
                        skip: root.skip,
                    },
                ),
            ),
            open: w.open.update(g, above[g]),
            places: w.places.push(Place::Under(g as usize)),
            cursor: g + greater(cell.grid_span as int, root.colspan as int),
        }
    } else {
        let colspan = lesser(cell.grid_span as int, n_cols - g);
        RowWalk {
            grid: w.grid.update(
                r,
                mark_range(
                    w.grid[r].update(
                        g,
                        CellSpan { colspan: colspan as usize, rowspan: 1, skip: false },
                    ),
                    g + 1,
                    g + colspan,
                ),
            ),
            open: w.open.update(
                g,
                if cell.v_merge == Some(VMergeState::Restart) {
                    Some(r as usize)
                } else {
                    None
                },
            ),
            places: w.places.push(Place::At(g as usize)),
            cursor: g + cell.grid_span,
        }
    }
}

/// The walk after the cells of row `r` from index `i` on.
pub open spec fn walk_cells(
    w: RowWalk,
    above: Seq<Option<usize>>,
    cells: Seq<CellMerge>,
    r: int,
    i: int,
    n_cols: int,
) -> RowWalk
    decreases cells.len() - i,
{
    if 0 <= i < cells.len() {
        walk_cells(step_cell(w, above, r, cells[i], n_cols), above, cells, r, i + 1, n_cols)
    } else {
        w
    }
}

/// The walk along row `r` from its first cell, the cursor at the first column.
pub open spec fn walk_row(
    grid: Seq<Seq<CellSpan>>,
    above: Seq<Option<usize>>,
    cells: Seq<CellMerge>,
    r: int,
    n_cols: int,
) -> RowWalk {
    walk_cells(
        RowWalk { grid, open: none_open(n_cols), places: Seq::empty(), cursor: 0 },
        above,
        cells,
        r,
        0,
        n_cols,
    )
}

/// The walk down the rows from row `r` on.
pub open spec fn walk_rows(t: TableWalk, rows: Seq<Seq<CellMerge>>, r: int, n_cols: int) -> TableWalk
    decreases rows.len() - r,
{
    if 0 <= r < rows.len() {
        let w = walk_row(t.grid, t.open, rows[r], r, n_cols);
        walk_rows(
            TableWalk { grid: w.grid, open: w.open, places: t.places.push(w.places) },
            rows,
            r + 1,
            n_cols,
        )
    } else {
        t
    }
}

/// The span grid of a table and the places of its cells.
///
/// The grid is as wide as the widest row. The rows are walked from the top, each
/// from the left, on a grid in which no cell is merged.
pub open spec fn table_layout(rows: Seq<Seq<CellMerge>>) -> Layout {
    let n_cols = max_grid_columns(rows);
    let t = walk_rows(
        TableWalk {
            grid: blank_grid(rows.len() as int, n_cols),
            open: none_open(n_cols),
            places: Seq::empty(),
        },
        rows,
        0,
        n_cols,
    );
    Layout { grid: t.grid, places: t.places }
}

/// The span grid of a table, indexed by row and grid column.
pub open spec fn span_grid(rows: Seq<Seq<CellMerge>>) -> Seq<Seq<CellSpan>> {
    table_layout(rows).grid
}

/// The open merges are as many as the grid has columns, and each was restarted
/// in a row before row `r`.
pub open spec fn open_before(open: Seq<Option<usize>>, r: int, n_cols: int) -> bool {
    &&& open.len() == n_cols
    &&& forall|g: int| 0 <= g < open.len() ==> ((#[trigger] open[g]) matches Some(r0) ==> r0 < r)
}

/// Every row of the grid has `n_cols` columns.
pub open spec fn has_shape(grid: Seq<Seq<CellSpan>>, n_rows: int, n_cols: int) -> bool {
    &&& grid.len() == n_rows
    &&& forall|r: int| 0 <= r < grid.len() ==> (#[trigger] grid[r]).len() == n_cols
}

/// The width of a prefix of a row is no more than the width of the row.
pub proof fn lemma_row_width_prefix(row: Seq<CellMerge>, i: int)
    requires
        0 <= i <= row.len(),
    ensures
        0 <= row_width(row.take(i)) <= row_width(row),
        i < row.len() ==> row_width(row.take(i + 1)) == row_width(row.take(i)) + row[i].grid_span,
    decreases row.len(),
{
    if i < row.len() {
        assert(row.take(i + 1).drop_last() =~= row.take(i));
        assert(row.drop_last().take(i) =~= row.take(i));
        lemma_row_width_prefix(row.drop_last(), i);
    } else {
        assert(row.take(i) =~= row);
        if row.len() > 0 {
            lemma_row_width_prefix(row.drop_last(), i - 1);
            assert(row.drop_last().take(i - 1) =~= row.drop_last());
        }
    }
}

/// The width of a row.
fn width_of_row(row: &Vec<CellMerge>) -> (w: usize)
    requires
        row_width(row@) <= usize::MAX,
    ensures
        w == row_width(row@),
{
    let mut w: usize = 0;
    let mut i: usize = 0;
    while i < row.len()
        invariant
            i <= row@.len(),
            w == row_width(row@.take(i as int)),
            row_width(row@) <= usize::MAX,
        decreases row@.len() - i,
    {
        proof {
            lemma_row_width_prefix(row@, i as int);
            lemma_row_width_prefix(row@, i + 1);
        }
        w = w + row[i].grid_span;
        i = i + 1;
    }
    proof {
        assert(row@.take(i as int) =~= row@);
    }
    w
}

/// The width of the grid of a table.
pub fn grid_columns(rows: &Vec<Vec<CellMerge>>) -> (n: usize)
    requires
        widths_fit(rows_view(rows)),
    ensures
        n == max_grid_columns(rows_view(rows)),
{
    let mut n: usize = 0;
    let mut r: usize = 0;
    while r < rows.len()
        invariant
            r <= rows@.len(),
            n == max_grid_columns(rows_view(rows).take(r as int)),
            widths_fit(rows_view(rows)),
        decreases rows@.len() - r,
    {
        proof {
            assert(rows_view(rows).take(r + 1).drop_last() =~= rows_view(rows).take(r as int));
            assert(rows_view(rows).take(r + 1).last() == rows@[r as int]@);
            assert(row_width(rows_view(rows)[r as int]) <= usize::MAX);
        }
        let w = width_of_row(&rows[r]);
        if w > n {
            n = w;
        }
        r = r + 1;
    }
    proof {
        assert(rows_view(rows).take(r as int) =~= rows_view(rows));
    }
    n
}

/// A grid in which no cell is merged.
fn new_grid(n_rows: usize, n_cols: usize) -> (grid: Vec<Vec<CellSpan>>)
    ensures
        rows_view(&grid) == blank_grid(n_rows as int, n_cols as int),
{
    let mut grid: Vec<Vec<CellSpan>> = Vec::new();
    let mut r: usize = 0;
    while r < n_rows
        invariant
            r <= n_rows,
            grid@.len() == r,
            forall|j: int| 0 <= j < r ==> (#[trigger] grid@[j])@ == Seq::new(
                n_cols as nat,
                |c: int| CellSpan::spec_new(),
            ),
        decreases n_rows - r,
    {
        let mut row: Vec<CellSpan> = Vec::new();
        let mut c: usize = 0;
        while c < n_cols
            invariant
                c <= n_cols,
                row@.len() == c,
                forall|j: int| 0 <= j < c ==> #[trigger] row@[j] == CellSpan::spec_new(),
            decreases n_cols - c,
        {
            row.push(CellSpan::new());
            c = c + 1;
        }
        assert(row@ =~= Seq::new(n_cols as nat, |c: int| CellSpan::spec_new()));
        grid.push(row);
        r = r + 1;
    }
    assert(rows_view(&grid) =~= blank_grid(n_rows as int, n_cols as int));
    grid
}

/// Marks the positions from `from` up to, not including, `to` of row `r` as covered.
fn mark_skipped(grid: &mut Vec<Vec<CellSpan>>, r: usize, from: usize, to: usize)
    requires
        r < old(grid)@.len(),
        from <= to <= old(grid)@[r as int]@.len(),
    ensures
        rows_view(final(grid)) == rows_view(old(grid)).update(
            r as int,
            mark_range(rows_view(old(grid))[r as int], from as int, to as int),
        ),
{
    let ghost before = rows_view(grid);
    let mut c: usize = from;
    proof {
        assert(mark_range(before[r as int], from as int, from as int) =~= before[r as int]);
        assert(before.update(r as int, before[r as int]) =~= before);
    }
    while c < to
        invariant
            from <= c <= to,
            r < grid@.len(),
            before.len() == grid@.len(),
            to <= before[r as int].len(),
            grid@[r as int]@.len() == before[r as int].len(),
            rows_view(grid) == before.update(
                r as int,
                mark_range(before[r as int], from as int, c as int),
            ),
        decreases to - c,
    {
        let ghost prev = rows_view(grid);
        grid[r][c] = CellSpan::skipped();
        proof {
            assert(rows_view(grid) =~= before.update(
                r as int,
                mark_range(before[r as int], from as int, c + 1),
            )) by {
                assert forall|j: int| 0 <= j < before.len() implies #[trigger] rows_view(grid)[j]
                    =~= before.update(
                    r as int,
                    mark_range(before[r as int], from as int, c + 1),
                )[j] by {
                    if j == r {
                        assert(prev[j] == mark_range(before[r as int], from as int, c as int));
                    } else {
                        assert(prev[j] == before[j]);
                    }
                }
            }
        }
        c = c + 1;
    }
}

/// The width of a grid is not negative.
pub proof fn lemma_max_grid_columns_nonnegative(rows: Seq<Seq<CellMerge>>)
    ensures
        0 <= max_grid_columns(rows),
    decreases rows.len(),
{
    if rows.len() > 0 {
        lemma_max_grid_columns_nonnegative(rows.drop_last());
    }
}

/// Every cell of the table is at least one column wide.
pub open spec fn widths_positive(rows: Seq<Seq<CellMerge>>) -> bool {
    forall|r: int, i: int|
        0 <= r < rows.len() && 0 <= i < rows[r].len() ==> (#[trigger] rows[r][i]).grid_span >= 1
}

/// The row is tiled: every cell that is rendered is at least one column wide, its
/// width lies within the row, and the positions that its width covers after the
/// first are all marked as covered. So no rendered cell lies within the width of
/// another, and the widths of two rendered cells share no position.
pub open spec fn row_tiled(row: Seq<CellSpan>) -> bool {
    forall|g: int|
        0 <= g < row.len() && !(#[trigger] row[g]).skip ==> {
            &&& row[g].colspan >= 1
            &&& g + row[g].colspan <= row.len()
            &&& forall|d: int| g < d < g + row[g].colspan ==> (#[trigger] row[d]).skip
        }
}

/// The columns that a walk along the row from position `g` counts: the width of
/// every rendered cell that it meets, and one for every covered position that it
/// meets outside the width of a rendered cell of the row. A covered position
/// within such a width is counted once, through that width.
pub open spec fn columns_from(row: Seq<CellSpan>, g: int) -> int
    decreases row.len() - g,
{
    if g < 0 || g >= row.len() {
        0
    } else if row[g].skip {
        1 + columns_from(row, g + 1)
    } else if row[g].colspan >= 1 && g + row[g].colspan <= row.len() {
        row[g].colspan + columns_from(row, g + row[g].colspan)
    } else {
        row[g].colspan as int
    }
}

/// In a tiled row the widths of the rendered cells and the covered positions
/// outside them add up to the length of the row, and the widths of two rendered
/// cells are apart.
pub proof fn lemma_tiled_row_counts(row: Seq<CellSpan>, g: int)
    requires
        row_tiled(row),
        0 <= g <= row.len(),
    ensures
        columns_from(row, g) == row.len() - g,
        forall|a: int, b: int|
            0 <= a < b < row.len() && !(#[trigger] row[a]).skip && !(#[trigger] row[b]).skip
                ==> a + row[a].colspan <= b,
    decreases row.len() - g,
{
    if g < row.len() {
        if row[g].skip {
            lemma_tiled_row_counts(row, g + 1);
        } else {
            lemma_tiled_row_counts(row, g + row[g].colspan);
        }
    }
    assert forall|a: int, b: int|
        0 <= a < b < row.len() && !(#[trigger] row[a]).skip && !(#[trigger] row[b]).skip implies a
        + row[a].colspan <= b by {
        if b < a + row[a].colspan {
            assert(row[b].skip);
        }
    }
}

/// A row of `n_cols` columns in which no cell is merged.
spec fn blank_row(n_cols: int) -> Seq<CellSpan> {
    Seq::new(n_cols as nat, |c: int| CellSpan::spec_new())
}

/// A row that the walk has come along up to the cursor: from the cursor on every
/// position is unmerged, and every rendered cell before it ends at or before it.
spec fn row_settled(row: Seq<CellSpan>, cursor: int) -> bool {
    &&& forall|g: int| cursor <= g < row.len() && 0 <= g ==> #[trigger] row[g] == CellSpan::spec_new()
    &&& forall|g: int|
        0 <= g < row.len() && g < cursor && !(#[trigger] row[g]).skip ==> {
            &&& row[g].colspan >= 1
            &&& g + row[g].colspan <= row.len()
            &&& g + row[g].colspan <= cursor
            &&& forall|d: int| g < d < g + row[g].colspan ==> (#[trigger] row[d]).skip
        }
}

/// What holds of the walk along row `r`.
spec fn walk_tiles(w: RowWalk, above: Seq<Option<usize>>, r: int, n_rows: int, n_cols: int) -> bool {
    &&& has_shape(w.grid, n_rows, n_cols)
    &&& 0 <= r < n_rows
    &&& 0 <= w.cursor
    &&& open_before(above, r, n_cols)
    &&& open_before(w.open, r + 1, n_cols)
    &&& forall|j: int| 0 <= j < r ==> row_tiled(#[trigger] w.grid[j])
    &&& row_settled(w.grid[r], w.cursor)
    &&& forall|j: int| r < j < n_rows ==> #[trigger] w.grid[j] == blank_row(n_cols)
}

/// What holds of the walk down the rows before row `r`.
spec fn rows_tile(t: TableWalk, r: int, n_rows: int, n_cols: int) -> bool {
    &&& has_shape(t.grid, n_rows, n_cols)
    &&& 0 <= r <= n_rows
    &&& 0 <= n_cols
    &&& open_before(t.open, r, n_cols)
    &&& forall|j: int| 0 <= j < r ==> row_tiled(#[trigger] t.grid[j])
    &&& forall|j: int| r <= j < n_rows ==> #[trigger] t.grid[j] == blank_row(n_cols)
}

proof fn lemma_step_tiles(
    w: RowWalk,
    above: Seq<Option<usize>>,
    r: int,
    cell: CellMerge,
    n_rows: int,
    n_cols: int,
)
    requires
        walk_tiles(w, above, r, n_rows, n_cols),
        cell.grid_span >= 1,
    ensures
        walk_tiles(step_cell(w, above, r, cell, n_cols), above, r, n_rows, n_cols),
{
    let g = w.cursor;
    let after = step_cell(w, above, r, cell, n_cols);
    let row = w.grid[r];
    assert(row.len() == n_cols);
    if g >= n_cols {
    } else if continues_at(cell, above, g) {
        let r0 = above[g]->0 as int;
        assert(r0 < r);
        let root = w.grid[r0][g];
        let covered = w.grid.update(r, mark_range(row, g, g + root.colspan));
        assert(w.grid[r0].len() == n_cols);
        let raised = covered[r0].update(
            g,
            CellSpan { colspan: root.colspan, rowspan: (r - r0 + 1) as usize, skip: root.skip },
        );
        assert(after.grid == covered.update(r0, raised));
        assert forall|j: int| 0 <= j < n_rows implies (#[trigger] after.grid[j]).len() == n_cols by {
            assert(w.grid[j].len() == n_cols);
        }
        assert(after.grid[r] == mark_range(row, g, g + root.colspan));
        assert forall|j: int| 0 <= j < r implies row_tiled(#[trigger] after.grid[j]) by {
            assert(row_tiled(w.grid[j]));
            if j == r0 {
                let before = w.grid[r0];
                assert forall|a: int| 0 <= a < raised.len() && !(#[trigger] raised[a]).skip implies {
                    &&& raised[a].colspan >= 1
                    &&& a + raised[a].colspan <= raised.len()
                    &&& forall|d: int| a < d < a + raised[a].colspan ==> (#[trigger] raised[d]).skip
                } by {
                    assert(!before[a].skip);
                    assert forall|d: int| a < d < a + raised[a].colspan implies (
                    #[trigger] raised[d]).skip by {
                        assert(before[d].skip);
                    }
                }
            } else {
                assert(after.grid[j] == w.grid[j]);
            }
        }
        assert forall|j: int| r < j < n_rows implies #[trigger] after.grid[j] == blank_row(
            n_cols,
        ) by {
            assert(after.grid[j] == w.grid[j]);
        }
        let done = after.grid[r];
        assert forall|a: int|
            0 <= a < done.len() && a < after.cursor && !(#[trigger] done[a]).skip implies {
            &&& done[a].colspan >= 1
            &&& a + done[a].colspan <= done.len()
            &&& a + done[a].colspan <= after.cursor
            &&& forall|d: int| a < d < a + done[a].colspan ==> (#[trigger] done[d]).skip
        } by {
            if a < g {
                assert(!row[a].skip);
                assert forall|d: int| a < d < a + done[a].colspan implies (#[trigger] done[d]).skip by {
                    assert(row[d].skip);
                }
            } else {
                assert(row[a] == CellSpan::spec_new());
            }
        }
        assert forall|j: int| 0 <= j < after.open.len() implies ((
        #[trigger] after.open[j]) matches Some(q) ==> q < r + 1) by {
            if j != g {
                assert(after.open[j] == w.open[j]);
            }
        }
    } else {
        let colspan = lesser(cell.grid_span as int, n_cols - g);
        let done = after.grid[r];
        assert forall|j: int| 0 <= j < n_rows implies (#[trigger] after.grid[j]).len() == n_cols by {
            assert(w.grid[j].len() == n_cols);
        }
        assert forall|j: int| 0 <= j < r implies row_tiled(#[trigger] after.grid[j]) by {
            assert(after.grid[j] == w.grid[j]);
        }
        assert forall|j: int| r < j < n_rows implies #[trigger] after.grid[j] == blank_row(
            n_cols,
        ) by {
            assert(after.grid[j] == w.grid[j]);
        }
        assert forall|a: int|
            0 <= a < done.len() && a < after.cursor && !(#[trigger] done[a]).skip implies {
            &&& done[a].colspan >= 1
            &&& a + done[a].colspan <= done.len()
            &&& a + done[a].colspan <= after.cursor
            &&& forall|d: int| a < d < a + done[a].colspan ==> (#[trigger] done[d]).skip
        } by {
            if a < g {
                assert(!row[a].skip);
                assert forall|d: int| a < d < a + done[a].colspan implies (#[trigger] done[d]).skip by {
                    assert(row[d].skip);
                }
            } else if a > g {
                assert(row[a] == CellSpan::spec_new());
            }
        }
        assert forall|j: int| 0 <= j < after.open.len() implies ((
        #[trigger] after.open[j]) matches Some(q) ==> q < r + 1) by {
            if j != g {
                assert(after.open[j] == w.open[j]);
            }
        }
    }
}

proof fn lemma_walk_cells_tiles(
    w: RowWalk,
    above: Seq<Option<usize>>,
    cells: Seq<CellMerge>,
    r: int,
    i: int,
    n_rows: int,
    n_cols: int,
)
    requires
        walk_tiles(w, above, r, n_rows, n_cols),
        0 <= i,
        forall|k: int| 0 <= k < cells.len() ==> (#[trigger] cells[k]).grid_span >= 1,
    ensures
        walk_tiles(walk_cells(w, above, cells, r, i, n_cols), above, r, n_rows, n_cols),
    decreases cells.len() - i,
{
    if i < cells.len() {
        lemma_step_tiles(w, above, r, cells[i], n_rows, n_cols);
        lemma_walk_cells_tiles(
            step_cell(w, above, r, cells[i], n_cols),
            above,
            cells,
            r,
            i + 1,
            n_rows,
            n_cols,
        );
    }
}

proof fn lemma_walk_rows_tiles(
    t: TableWalk,
    rows: Seq<Seq<CellMerge>>,
    r: int,
    n_cols: int,
)
    requires
        rows_tile(t, r, rows.len() as int, n_cols),
        widths_positive(rows),
    ensures
        rows_tile(walk_rows(t, rows, r, n_cols), rows.len() as int, rows.len() as int, n_cols),
    decreases rows.len() - r,
{
    let n_rows = rows.len() as int;
    if r < n_rows {
        let start = RowWalk { grid: t.grid, open: none_open(n_cols), places: Seq::empty(), cursor: 0 };
        assert(t.grid[r] == blank_row(n_cols));
        assert(walk_tiles(start, t.open, r, n_rows, n_cols));
        assert forall|k: int| 0 <= k < rows[r].len() implies (#[trigger] rows[r][k]).grid_span >= 1 by {
        }
        lemma_walk_cells_tiles(start, t.open, rows[r], r, 0, n_rows, n_cols);
        let w = walk_row(t.grid, t.open, rows[r], r, n_cols);
        let next = TableWalk { grid: w.grid, open: w.open, places: t.places.push(w.places) };
        assert(row_tiled(w.grid[r])) by {
            let row = w.grid[r];
            assert forall|g: int| 0 <= g < row.len() && !(#[trigger] row[g]).skip implies {
                &&& row[g].colspan >= 1
                &&& g + row[g].colspan <= row.len()
                &&& forall|d: int| g < d < g + row[g].colspan ==> (#[trigger] row[d]).skip
            } by {
                if g >= w.cursor {
                    assert(row[g] == CellSpan::spec_new());
                }
            }
        }
        assert(rows_tile(next, r + 1, n_rows, n_cols));
        lemma_walk_rows_tiles(next, rows, r + 1, n_cols);
    }
}

/// The span grid tiles every row.
///
/// Of a table whose cells are at least one column wide: the grid has one row for
/// each row of the table and as many columns as the widest row. In every row the
/// cells that are rendered lie within the grid and apart from one another, and
/// the positions that the width of a cell covers after the first are marked as
/// covered. The widths of the rendered cells and the number of the covered
/// positions outside these widths add up to the width of the grid.
pub proof fn lemma_span_grid_tiles(rows: Seq<Seq<CellMerge>>, r: int)
    requires
        widths_positive(rows),
        0 <= r < rows.len(),
    ensures
        has_shape(span_grid(rows), rows.len() as int, max_grid_columns(rows)),
        row_tiled(span_grid(rows)[r]),
        columns_from(span_grid(rows)[r], 0) == max_grid_columns(rows),
        forall|a: int, b: int|
            0 <= a < b < max_grid_columns(rows) && !(#[trigger] span_grid(rows)[r][a]).skip && !(
            #[trigger] span_grid(rows)[r][b]).skip ==> a + span_grid(rows)[r][a].colspan <= b,
{
    let n_cols = max_grid_columns(rows);
    lemma_max_grid_columns_nonnegative(rows);
    let start = TableWalk {
        grid: blank_grid(rows.len() as int, n_cols),
        open: none_open(n_cols),
        places: Seq::empty(),
    };
    assert forall|j: int| 0 <= j < rows.len() implies #[trigger] start.grid[j] == blank_row(
        n_cols,
    ) by {
        assert(start.grid[j] =~= blank_row(n_cols));
    }
    assert(rows_tile(start, 0, rows.len() as int, n_cols));
    lemma_walk_rows_tiles(start, rows, 0, n_cols);
    lemma_tiled_row_counts(span_grid(rows)[r], 0);
}

/// A table in which some cell covers more than one column or row.
pub open spec fn has_merges(grid: Seq<Seq<CellSpan>>) -> bool {
    exists|r: int, c: int|
        0 <= r < grid.len() && 0 <= c < grid[r].len() && ((#[trigger] grid[r][c]).colspan > 1
            || grid[r][c].rowspan > 1)
}

/// Check if a span grid shows merged cells: a width or a height greater than 1.
pub fn has_merged_cells(spans: &Vec<Vec<CellSpan>>) -> (b: bool)
    ensures
        b == has_merges(rows_view(spans)),
{
    let ghost grid = rows_view(spans);
    let mut r: usize = 0;
    while r < spans.len()
        invariant
            r <= spans@.len(),
            grid == rows_view(spans),
            forall|j: int, c: int|
                0 <= j < r && 0 <= c < grid[j].len() ==> (#[trigger] grid[j][c]).colspan <= 1
                    && grid[j][c].rowspan <= 1,
        decreases spans@.len() - r,
    {
        let mut c: usize = 0;
        while c < spans[r].len()
            invariant
                r < spans@.len(),
                c <= spans@[r as int]@.len(),
                grid == rows_view(spans),
                forall|j: int, c: int|
                    0 <= j < r && 0 <= c < grid[j].len() ==> (#[trigger] grid[j][c]).colspan <= 1
                        && grid[j][c].rowspan <= 1,
                forall|d: int|
                    0 <= d < c ==> (#[trigger] grid[r as int][d]).colspan <= 1
                        && grid[r as int][d].rowspan <= 1,
            decreases spans@[r as int]@.len() - c,
        {
            assert(grid[r as int][c as int] == spans@[r as int]@[c as int]);
            if spans[r][c].colspan > 1 || spans[r][c].rowspan > 1 {
                return true;
            }
            c = c + 1;
        }
        assert(grid[r as int].len() == spans@[r as int]@.len());
        r = r + 1;
    }
    false
}

/// Whether every row's width can be held in a `usize`.
pub fn widths_fit_in_usize(rows: &Vec<Vec<CellMerge>>) -> (b: bool)
    ensures
        b == widths_fit(rows_view(rows)),
{
    let mut r: usize = 0;
    while r < rows.len()
        invariant
            r <= rows@.len(),
            forall|j: int| 0 <= j < r ==> #[trigger] row_width(rows_view(rows)[j]) <= usize::MAX,
        decreases rows@.len() - r,
    {
        let row = &rows[r];
        let mut w: usize = 0;
        let mut i: usize = 0;
        while i < row.len()
            invariant
                i <= row@.len(),
                w == row_width(row@.take(i as int)),
                r < rows@.len(),
                row@ == rows_view(rows)[r as int],
            decreases row@.len() - i,
        {
            proof {
                lemma_row_width_prefix(row@, i as int);
                lemma_row_width_prefix(row@, i + 1);
            }
            match w.checked_add(row[i].grid_span) {
                Some(sum) => {
                    w = sum;
                },
                None => {
                    proof {
                        assert(row_width(rows_view(rows)[r as int]) > usize::MAX);
                    }
                    return false;
                },
            }
            i = i + 1;
        }
        proof {
            assert(row@.take(i as int) =~= row@);
            assert(rows_view(rows)[r as int] == row@);
        }
        r = r + 1;
    }
    true
}

/// The span grid of a table and the places of its cells, as they are computed.
#[derive(Debug, PartialEq, Eq)]
pub struct TableLayout {
    /// The spans, by row and grid column.
    pub spans: Vec<Vec<CellSpan>>,
    /// The places, by row and index of the cell in its row.
    pub places: Vec<Vec<Place>>,
}

impl View for TableLayout {
    type V = Layout;

    open spec fn view(&self) -> Layout {
        Layout { grid: rows_view(&self.spans), places: rows_view(&self.places) }
    }
}

/// Walks one cell of row `r`, the cursor standing at column `col` or, beyond the
/// grid, at the width of the grid. Returns where the cursor stands after it.
fn put_cell(
    spans: &mut Vec<Vec<CellSpan>>,
    open: &mut Vec<Option<usize>>,
    places: &mut Vec<Place>,
    above: &Vec<Option<usize>>,
    r: usize,
    col: usize,
    cell: CellMerge,
    n_cols: usize,
    Ghost(cursor): Ghost<int>,
) -> (next: usize)
    requires
        r < old(spans)@.len(),
        has_shape(rows_view(old(spans)), old(spans)@.len() as int, n_cols as int),
        open_before(above@, r as int, n_cols as int),
        old(open)@.len() == n_cols,
        0 <= cursor,
        col == lesser(cursor, n_cols as int),
    ensures
        has_shape(rows_view(final(spans)), old(spans)@.len() as int, n_cols as int),
        ({
            let w = RowWalk {
                grid: rows_view(old(spans)),
                open: old(open)@,
                places: old(places)@,
                cursor,
            };
            let after = step_cell(w, above@, r as int, cell, n_cols as int);
            &&& rows_view(final(spans)) == after.grid
            &&& final(open)@ == after.open
            &&& final(places)@ == after.places
            &&& 0 <= after.cursor
            &&& next == lesser(after.cursor, n_cols as int)
        }),
{
    let ghost grid = rows_view(spans);
    let n_rows = spans.len();
    if col >= n_cols {
        places.push(Place::Outside);
        return col;
    }
    let root_row = match cell.v_merge {
        Some(VMergeState::Continue) => above[col],
        _ => None,
    };
    match root_row {
        Some(r0) => {
            assert(above@[col as int] == Some(r0) && r0 < r);
            assert(grid[r0 as int] == spans@[r0 as int]@ && grid[r0 as int].len() == n_cols);
            assert(grid[r as int] == spans@[r as int]@ && grid[r as int].len() == n_cols);
            let root = spans[r0][col];
            let end = if root.colspan >= n_cols - col {
                n_cols
            } else {
                col + root.colspan
            };
            mark_skipped(spans, r, col, end);
            let ghost covered = grid.update(
                r as int,
                mark_range(grid[r as int], col as int, col + root.colspan),
            );
            assert(rows_view(spans) =~= covered) by {
                assert(mark_range(grid[r as int], col as int, end as int) =~= mark_range(
                    grid[r as int],
                    col as int,
                    col + root.colspan,
                ));
            }
            assert(rows_view(spans).len() == spans@.len());
            assert(rows_view(spans)[r0 as int] == spans@[r0 as int]@);
            assert(covered[r0 as int] == grid[r0 as int]);
            assert(above@[col as int] == Some(r0) && r0 < r);
            spans[r0][col] = CellSpan { colspan: root.colspan, rowspan: r - r0 + 1, skip: root.skip };
            let ghost raised = covered.update(
                r0 as int,
                covered[r0 as int].update(
                    col as int,
                    CellSpan {
                        colspan: root.colspan,
                        rowspan: (r - r0 + 1) as usize,
                        skip: root.skip,
                    },
                ),
            );
            assert(rows_view(spans) =~= raised) by {
                assert forall|j: int| 0 <= j < n_rows implies #[trigger] rows_view(spans)[j]
                    =~= raised[j] by {
                    assert(rows_view(spans)[j] == spans@[j]@);
                }
            }
            assert(has_shape(raised, n_rows as int, n_cols as int)) by {
                assert forall|j: int| 0 <= j < raised.len() implies (#[trigger] raised[j]).len()
                    == n_cols by {
                    assert(grid[j].len() == n_cols);
                }
            }
            open.set(col, Some(r0));
            places.push(Place::Under(col));
            let far = if cell.grid_span > root.colspan {
                cell.grid_span
            } else {
                root.colspan
            };
            if far >= n_cols - col {
                n_cols
            } else {
                col + far
            }
        },
        None => {
            assert(grid[r as int] == spans@[r as int]@ && grid[r as int].len() == n_cols);
            let colspan = if cell.grid_span < n_cols - col {
                cell.grid_span
            } else {
                n_cols - col
            };
            spans[r][col] = CellSpan { colspan, rowspan: 1, skip: false };
            let ghost widened = grid[r as int].update(
                col as int,
                CellSpan { colspan, rowspan: 1, skip: false },
            );
            assert(rows_view(spans) =~= grid.update(r as int, widened)) by {
                assert forall|j: int| 0 <= j < n_rows implies #[trigger] rows_view(spans)[j]
                    =~= grid.update(r as int, widened)[j] by {
                    assert(rows_view(spans)[j] == spans@[j]@);
                    assert(grid[j].len() == n_cols);
                }
            }
            if colspan > 1 {
                mark_skipped(spans, r, col + 1, col + colspan);
            }
            let ghost placed = grid.update(
                r as int,
                mark_range(widened, col + 1, col + colspan),
            );
            assert(rows_view(spans) =~= placed) by {
                if colspan <= 1 {
                    assert(mark_range(widened, col + 1, col + colspan) =~= widened);
                }
            }
            assert(has_shape(placed, n_rows as int, n_cols as int)) by {
                assert forall|j: int| 0 <= j < placed.len() implies (#[trigger] placed[j]).len()
                    == n_cols by {
                    assert(grid[j].len() == n_cols);
                }
            }
            let opened = match cell.v_merge {
                Some(VMergeState::Restart) => Some(r),
                _ => None,
            };
            open.set(col, opened);
            places.push(Place::At(col));
            if cell.grid_span >= n_cols - col {
                n_cols
            } else {
                col + cell.grid_span
            }
        },
    }
}

/// Walks the cells of row `r` from the left. Returns the merges that the row
/// starts or continues, and the places of its cells.
fn put_row(
    spans: &mut Vec<Vec<CellSpan>>,
    above: &Vec<Option<usize>>,
    cells: &Vec<CellMerge>,
    r: usize,
    n_cols: usize,
) -> (out: (Vec<Option<usize>>, Vec<Place>))
    requires
        r < old(spans)@.len(),
        has_shape(rows_view(old(spans)), old(spans)@.len() as int, n_cols as int),
        open_before(above@, r as int, n_cols as int),
    ensures
        has_shape(rows_view(final(spans)), old(spans)@.len() as int, n_cols as int),
        ({
            let w = walk_row(rows_view(old(spans)), above@, cells@, r as int, n_cols as int);
            &&& rows_view(final(spans)) == w.grid
            &&& out.0@ == w.open
            &&& out.1@ == w.places
        }),
        open_before(out.0@, r + 1, n_cols as int),
{
    let ghost n_rows = spans@.len();
    let ghost start = RowWalk {
        grid: rows_view(spans),
        open: none_open(n_cols as int),
        places: Seq::empty(),
        cursor: 0,
    };
    let mut open: Vec<Option<usize>> = Vec::new();
    let mut g: usize = 0;
    while g < n_cols
        invariant
            g <= n_cols,
            open@.len() == g,
            forall|j: int| 0 <= j < g ==> #[trigger] open@[j] == None::<usize>,
        decreases n_cols - g,
    {
        open.push(None);
        g = g + 1;
    }
    assert(open@ =~= none_open(n_cols as int));
    let mut places: Vec<Place> = Vec::new();
    let mut col: usize = 0;
    let ghost mut cursor: int = 0;
    let mut i: usize = 0;
    while i < cells.len()
        invariant
            i <= cells@.len(),
            r < n_rows,
            n_rows == spans@.len(),
            has_shape(rows_view(spans), n_rows as int, n_cols as int),
            open_before(above@, r as int, n_cols as int),
            open_before(open@, r + 1, n_cols as int),
            0 <= cursor,
            col == lesser(cursor, n_cols as int),
            walk_cells(
                RowWalk { grid: rows_view(spans), open: open@, places: places@, cursor },
                above@,
                cells@,
                r as int,
                i as int,
                n_cols as int,
            ) == walk_cells(start, above@, cells@, r as int, 0, n_cols as int),
        decreases cells@.len() - i,
    {
        let ghost w = RowWalk { grid: rows_view(spans), open: open@, places: places@, cursor };
        let cell = cells[i];
        col = put_cell(spans, &mut open, &mut places, above, r, col, cell, n_cols, Ghost(cursor));
        proof {
            cursor = step_cell(w, above@, r as int, cell, n_cols as int).cursor;
        }
        i = i + 1;
    }
    (open, places)
}

/// Analyze a table to compute the span grid and the place of every cell.
///
/// The grid is as wide as the widest row. Every row is walked from the left: a
/// cell that continues a vertical merge at its grid column is taken up by the
/// cell that restarted the merge, which grows by a row and covers its columns in
/// this row; any other cell stands at the next column.
pub fn analyze_table_layout(rows: &Vec<Vec<CellMerge>>) -> (layout: TableLayout)
    requires
        widths_fit(rows_view(rows)),
    ensures
        layout@ == table_layout(rows_view(rows)),
        has_shape(layout@.grid, rows@.len() as int, max_grid_columns(rows_view(rows))),
        layout@.places.len() == rows@.len(),
{
    let n_cols = grid_columns(rows);
    let n_rows = rows.len();
    let mut spans = new_grid(n_rows, n_cols);
    let mut places: Vec<Vec<Place>> = Vec::new();
    let ghost model = rows_view(rows);
    let mut open: Vec<Option<usize>> = Vec::new();
    let mut g: usize = 0;
    while g < n_cols
        invariant
            g <= n_cols,
            open@.len() == g,
            forall|j: int| 0 <= j < g ==> #[trigger] open@[j] == None::<usize>,
        decreases n_cols - g,
    {
        open.push(None);
        g = g + 1;
    }
    assert(open@ =~= none_open(n_cols as int));
    assert(rows_view(&places) =~= Seq::<Seq<Place>>::empty());
    assert(rows_view(&spans).len() == spans@.len());
    assert(has_shape(rows_view(&spans), n_rows as int, n_cols as int));
    let ghost start = TableWalk {
        grid: rows_view(&spans),
        open: open@,
        places: Seq::empty(),
    };
    let mut r: usize = 0;
    while r < n_rows
        invariant
            r <= n_rows,
            n_rows == rows@.len(),
            n_rows == spans@.len(),
            places@.len() == r,
            model == rows_view(rows),
            has_shape(rows_view(&spans), n_rows as int, n_cols as int),
            open_before(open@, r as int, n_cols as int),
            walk_rows(
                TableWalk { grid: rows_view(&spans), open: open@, places: rows_view(&places) },
                model,
                r as int,
                n_cols as int,
            ) == walk_rows(start, model, 0, n_cols as int),
        decreases n_rows - r,
    {
        let ghost before = rows_view(&places);
        assert(model[r as int] == rows@[r as int]@);
        let (next_open, row_places) = put_row(&mut spans, &open, &rows[r], r, n_cols);
        let ghost row_view = row_places@;
        places.push(row_places);
        assert(rows_view(&places) =~= before.push(row_view));
        open = next_open;
        r = r + 1;
    }
    TableLayout { spans, places }
}

/// Analyze a table to compute cell spans (colspan/rowspan) for proper HTML rendering.
///
/// The result is the span grid of [`analyze_table_layout`], indexed by row and
/// grid column.
pub fn analyze_table_spans(rows: &Vec<Vec<CellMerge>>) -> (spans: Vec<Vec<CellSpan>>)
    requires
        widths_fit(rows_view(rows)),
    ensures
        rows_view(&spans) == span_grid(rows_view(rows)),
        has_shape(
            rows_view(&spans),
            rows@.len() as int,
            max_grid_columns(rows_view(rows)),
        ),
{
    analyze_table_layout(rows).spans
}

} // verus!
