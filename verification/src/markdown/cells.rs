//! The one pass over the cells of a table that reads their text and merge data.

use vstd::prelude::*;
use vstd::string::*;
use crate::document::run::clone_text;
use crate::document::table::{Cell, Row, Table};
use crate::error::{Error, ErrorView, text_outcome};
use crate::markdown::spans::{CellMerge, rows_view};
use crate::parallel::{
    all_or_first_error,
    collect_results,
    first_error,
    lemma_all_values_no_error,
    lemma_first_error_at,
    lemma_first_error_prefix,
    lemma_no_error_all_values,
    outcome_with,
    par_map_index,
    values,
};

verus! {

/// The number of rows that a table exceeds to have them handed out to threads.
pub const TABLE_PARALLEL_THRESHOLD: usize = 20;

/// The text and the merge data of the cells of one row, in the order of the cells.
#[derive(Debug, PartialEq, Eq)]
pub struct RowData {
    pub texts: Vec<String>,
    pub merges: Vec<CellMerge>,
}

/// The text and the merge data of the cells of a table, row by row.
#[derive(Debug, PartialEq, Eq)]
pub struct TableData {
    pub texts: Vec<Vec<String>>,
    pub merges: Vec<Vec<CellMerge>>,
}

/// A [`RowData`] as a mathematical value.
pub struct RowModel {
    pub texts: Seq<Seq<char>>,
    pub merges: Seq<CellMerge>,
}

/// A [`TableData`] as a mathematical value.
pub struct TableModel {
    pub texts: Seq<Seq<Seq<char>>>,
    pub merges: Seq<Seq<CellMerge>>,
}

impl View for RowData {
    type V = RowModel;

    open spec fn view(&self) -> RowModel {
        RowModel { texts: self.texts.deep_view(), merges: self.merges@ }
    }
}

impl View for TableData {
    type V = TableModel;

    open spec fn view(&self) -> TableModel {
        TableModel { texts: self.texts.deep_view(), merges: rows_view(&self.merges) }
    }
}

impl TableModel {
    /// A table with as many merge records as texts, row by row.
    pub open spec fn aligned(&self) -> bool {
        &&& self.texts.len() == self.merges.len()
        &&& forall|r: int|
            0 <= r < self.texts.len() ==> (#[trigger] self.texts[r]).len() == self.merges[r].len()
    }
}

/// The merge data of a cell: a width that could not be read is 1, a merge state
/// that could not be read is none.
pub open spec fn cell_merge(cell: Cell) -> CellMerge {
    CellMerge {
        grid_span: match cell.grid_span {
            Ok(n) => n,
            Err(_) => 1,
        },
        v_merge: match cell.v_merge {
            Ok(v) => v,
            Err(_) => None,
        },
    }
}

/// The text of a cell, or the error of reading it.
pub open spec fn cell_text(cell: Cell) -> Result<Seq<char>, ErrorView> {
    text_outcome(cell.text)
}

/// The data of the cells of a row, or the first error of reading a text.
pub open spec fn cells_model(cells: Seq<Cell>) -> Result<RowModel, ErrorView> {
    match all_or_first_error(cells.map_values(|c: Cell| cell_text(c))) {
        Err(e) => Err(e),
        Ok(texts) => Ok(RowModel { texts, merges: cells.map_values(|c: Cell| cell_merge(c)) }),
    }
}

/// The data of a row, or the error of reading its cells or one of their texts.
pub open spec fn row_model(row: Row) -> Result<RowModel, ErrorView> {
    match row.cells {
        Err(e) => Err(e@),
        Ok(cells) => cells_model(cells@),
    }
}

/// The data of the rows, or the first error of reading one.
pub open spec fn rows_model(rows: Seq<Row>) -> Result<TableModel, ErrorView> {
    match all_or_first_error(rows.map_values(|r: Row| row_model(r))) {
        Err(e) => Err(e),
        Ok(models) => Ok(
            TableModel {
                texts: models.map_values(|m: RowModel| m.texts),
                merges: models.map_values(|m: RowModel| m.merges),
            },
        ),
    }
}

/// The data of a table, or the first error of reading it, in the order of the
/// rows and, in a row, of the cells.
pub open spec fn table_model(table: Table) -> Result<TableModel, ErrorView> {
    match table.rows {
        Err(e) => Err(e@),
        Ok(rows) => rows_model(rows@),
    }
}

/// The view of the result of an extraction.
pub open spec fn row_outcome(r: Result<RowData, Error>) -> Result<RowModel, ErrorView> {
    outcome_with(r, |d: RowData| d@)
}

/// The view of the result of an extraction.
pub open spec fn table_outcome(r: Result<TableData, Error>) -> Result<TableModel, ErrorView> {
    outcome_with(r, |d: TableData| d@)
}

/// Reads the merge data of a cell.
pub fn read_cell_merge(cell: &Cell) -> (m: CellMerge)
    ensures
        m == cell_merge(*cell),
{
    let grid_span = match &cell.grid_span {
        Ok(n) => *n,
        Err(_) => 1,
    };
    let v_merge = match &cell.v_merge {
        Ok(v) => *v,
        Err(_) => None,
    };
    CellMerge { grid_span, v_merge }
}

/// Reads the text and the merge data of the cells of a row.
pub fn extract_row_data(row: &Row) -> (r: Result<RowData, Error>)
    ensures
        row_outcome(r) == row_model(*row),
{
    let cells = match &row.cells {
        Ok(cells) => cells,
        Err(e) => {
            return Err(e.clone());
        },
    };
    let ghost outcomes = cells@.map_values(|c: Cell| cell_text(c));
    let mut texts: Vec<String> = Vec::new();
    let mut merges: Vec<CellMerge> = Vec::new();
    let mut i: usize = 0;
    while i < cells.len()
        invariant
            i <= cells@.len(),
            row.cells == Ok::<Vec<Cell>, Error>(*cells),
            outcomes == cells@.map_values(|c: Cell| cell_text(c)),
            first_error(outcomes.take(i as int)) is None,
            texts@.len() == i,
            merges@.len() == i,
            forall|j: int| 0 <= j < i ==> outcomes[j] == Ok::<Seq<char>, ErrorView>((#[trigger] texts@[j])@),
            forall|j: int| 0 <= j < i ==> #[trigger] merges@[j] == cell_merge(cells@[j]),
        decreases cells@.len() - i,
    {
        proof {
            assert(outcomes.take(i + 1).drop_last() =~= outcomes.take(i as int));
            assert(outcomes.take(i + 1).last() == cell_text(cells@[i as int]));
        }
        match clone_text(&cells[i].text) {
            Ok(t) => {
                texts.push(t);
            },
            Err(e) => {
                proof {
                    assert(cell_text(cells@[i as int]) == Err::<Seq<char>, ErrorView>(e@));
                    assert(first_error(outcomes.take(i + 1)) == Some(e@));
                    lemma_first_error_prefix(outcomes, i + 1);
                    assert(cells_model(cells@) == Err::<RowModel, ErrorView>(e@));
                }
                return Err(e);
            },
        }
        merges.push(read_cell_merge(&cells[i]));
        i = i + 1;
    }
    proof {
        assert(outcomes.take(i as int) =~= outcomes);
        assert(texts.deep_view() =~= values(outcomes));
        assert(merges@ =~= cells@.map_values(|c: Cell| cell_merge(c)));
    }
    Ok(RowData { texts, merges })
}

/// Parts the rows into their texts and their merge data.
fn unzip_rows(rows: Vec<RowData>) -> (d: TableData)
    ensures
        d@.texts == rows@.map_values(|m: RowData| m@.texts),
        d@.merges == rows@.map_values(|m: RowData| m@.merges),
{
    let ghost all = rows@;
    let mut texts: Vec<Vec<String>> = Vec::new();
    let mut merges: Vec<Vec<CellMerge>> = Vec::new();
    for row in it: rows
        invariant
            it.seq() == all,
            texts@.len() == it.index(),
            merges@.len() == it.index(),
            forall|j: int| 0 <= j < it.index() ==> (#[trigger] texts@[j]).deep_view() == all[j]@.texts,
            forall|j: int| 0 <= j < it.index() ==> (#[trigger] merges@[j])@ == all[j]@.merges,
    {
        texts.push(row.texts);
        merges.push(row.merges);
    }
    let d = TableData { texts, merges };
    proof {
        assert(d@.texts =~= all.map_values(|m: RowData| m@.texts));
        assert(d@.merges =~= all.map_values(|m: RowData| m@.merges));
    }
    d
}

/// The data of the rows, read one row after the other.
fn extract_rows_in_turn(rows: &Vec<Row>) -> (r: Result<TableData, Error>)
    ensures
        table_outcome(r) == rows_model(rows@),
{
    let ghost outcomes = rows@.map_values(|r: Row| row_model(r));
    let mut data: Vec<RowData> = Vec::new();
    let mut i: usize = 0;
    while i < rows.len()
        invariant
            i <= rows@.len(),
            outcomes == rows@.map_values(|r: Row| row_model(r)),
            first_error(outcomes.take(i as int)) is None,
            data@.len() == i,
            forall|j: int| 0 <= j < i ==> outcomes[j] == Ok::<RowModel, ErrorView>((#[trigger] data@[j])@),
        decreases rows@.len() - i,
    {
        proof {
            assert(outcomes.take(i + 1).drop_last() =~= outcomes.take(i as int));
            assert(outcomes.take(i + 1).last() == row_model(rows@[i as int]));
        }
        match extract_row_data(&rows[i]) {
            Ok(d) => {
                data.push(d);
            },
            Err(e) => {
                proof {
                    assert(first_error(outcomes.take(i + 1)) == Some(e@));
                    lemma_first_error_prefix(outcomes, i + 1);
                }
                return Err(e);
            },
        }
        i = i + 1;
    }
    proof {
        assert(outcomes.take(i as int) =~= outcomes);
        assert(data@.map_values(|m: RowData| m@) =~= values(outcomes));
    }
    let d = unzip_rows(data);
    proof {
        let models = values(outcomes);
        assert(d@.texts =~= models.map_values(|m: RowModel| m.texts));
        assert(d@.merges =~= models.map_values(|m: RowModel| m.merges));
    }
    Ok(d)
}

/// The data of the rows, read on several threads.
fn extract_rows_in_parallel(rows: &Vec<Row>) -> (r: Result<TableData, Error>)
    ensures
        table_outcome(r) == rows_model(rows@),
{
    let ghost outcomes = rows@.map_values(|r: Row| row_model(r));
    let read = |i: usize| -> (r: Result<RowData, Error>)
        requires
            i < rows@.len(),
        ensures
            row_outcome(r) == row_model(rows@[i as int]),
        { extract_row_data(&rows[i]) };
    let results = par_map_index(rows.len(), read);
    proof {
        assert forall|i: int| 0 <= i < rows@.len() implies row_outcome(#[trigger] results@[i])
            == outcomes[i] by {
            assert(call_ensures(read, (i as usize,), results@[i as usize as int]));
        }
    }
    match collect_results(results) {
        Err(e) => {
            proof {
                let k = choose|k: int|
                    {
                        &&& 0 <= k < results@.len()
                        &&& (#[trigger] results@[k]) == Err::<RowData, Error>(e)
                        &&& forall|i: int| 0 <= i < k ==> (#[trigger] results@[i]) is Ok
                    };
                assert(row_outcome(results@[k]) == outcomes[k]);
                assert forall|i: int| 0 <= i < k implies (#[trigger] outcomes[i]) is Ok by {
                    assert(results@[i] is Ok);
                    assert(row_outcome(results@[i]) == outcomes[i]);
                }
                lemma_first_error_at(outcomes, k);
            }
            Err(e)
        },
        Ok(data) => {
            proof {
                assert forall|i: int| 0 <= i < outcomes.len() implies (#[trigger] outcomes[i])
                    == Ok::<RowModel, ErrorView>(data@[i]@) by {
                    assert(results@[i] == Ok::<RowData, Error>(data@[i]));
                    assert(row_outcome(results@[i]) == outcomes[i]);
                }
                lemma_all_values_no_error(outcomes);
                assert(data@.map_values(|m: RowData| m@) =~= values(outcomes));
            }
            let d = unzip_rows(data);
            proof {
                let models = values(outcomes);
                assert(d@.texts =~= models.map_values(|m: RowModel| m.texts));
                assert(d@.merges =~= models.map_values(|m: RowModel| m.merges));
            }
            Ok(d)
        },
    }
}

/// Extract all cell data from a table in a single pass.
///
/// A table of more than [`TABLE_PARALLEL_THRESHOLD`] rows is read on several
/// threads where `use_parallel` is set. The result is the same either way: the
/// data in the order of the rows, or the first error in that order.
pub fn extract_table_cell_data(table: &Table, use_parallel: bool) -> (r: Result<TableData, Error>)
    ensures
        table_outcome(r) == table_model(*table),
        r matches Ok(d) ==> d@.aligned(),
{
    let rows = match &table.rows {
        Ok(rows) => rows,
        Err(e) => {
            return Err(e.clone());
        },
    };
    let r = if use_parallel && rows.len() > TABLE_PARALLEL_THRESHOLD {
        extract_rows_in_parallel(rows)
    } else {
        extract_rows_in_turn(rows)
    };
    proof {
        lemma_rows_model_aligned(rows@);
    }
    r
}

/// The data of a row has as many merge records as texts.
pub proof fn lemma_rows_model_aligned(rows: Seq<Row>)
    ensures
        rows_model(rows) matches Ok(m) ==> m.aligned(),
{
    let outcomes = rows.map_values(|r: Row| row_model(r));
    if first_error(outcomes) is None {
        lemma_no_error_all_values(outcomes);
        let m = rows_model(rows)->Ok_0;
        assert forall|r: int| 0 <= r < m.texts.len() implies (#[trigger] m.texts[r]).len()
            == m.merges[r].len() by {
            assert(outcomes[r] is Ok);
            let cells = rows[r].cells->Ok_0@;
            assert(row_model(rows[r]) == cells_model(cells));
        }
    }
}

} // verus!
