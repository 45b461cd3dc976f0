use litchi::document::table::{Cell, Row, Table, VMergeState};
use litchi::error::Error;
use litchi::markdown::cells::{extract_row_data, extract_table_cell_data, read_cell_merge, RowData, TableData};
use litchi::markdown::document::table_is_renderable;
use litchi::markdown::spans::{analyze_table_layout, CellMerge, CellSpan, Place, TableLayout};
use litchi::markdown::table::{
    render_html_row, render_markdown_row, write_html_cell, write_html_table, write_markdown_table,
};
use litchi::markdown::traits::ToMarkdown;
use litchi::markdown::writer::MarkdownWriter;
use litchi::markdown::config::{MarkdownOptions, TableStyle};

fn cell(text: &str) -> Cell {
    Cell { text: Ok(text.to_string()), grid_span: Ok(1), v_merge: Ok(None) }
}

fn wide(text: &str, grid_span: usize) -> Cell {
    Cell { text: Ok(text.to_string()), grid_span: Ok(grid_span), v_merge: Ok(None) }
}

fn merged(text: &str, grid_span: usize, state: VMergeState) -> Cell {
    Cell { text: Ok(text.to_string()), grid_span: Ok(grid_span), v_merge: Ok(Some(state)) }
}

fn table(rows: Vec<Vec<Cell>>) -> Table {
    Table { rows: Ok(rows.into_iter().map(|cells| Row { cells: Ok(cells) }).collect()) }
}

fn texts(rows: &[&[&str]]) -> Vec<Vec<String>> {
    rows.iter().map(|r| r.iter().map(|t| t.to_string()).collect()).collect()
}

fn style(table_style: TableStyle) -> MarkdownOptions {
    MarkdownOptions { table_style, ..MarkdownOptions::default() }
}

fn written(table: &Table, options: MarkdownOptions) -> String {
    let mut writer = MarkdownWriter::new(options);
    writer.write_table(table).unwrap();
    writer.finish()
}

fn boom() -> Error {
    Error::Other("boom".to_string())
}

fn numbered(rows: usize, columns: usize) -> Table {
    table(
        (0..rows)
            .map(|r| (0..columns).map(|c| cell(&format!("r{}|c{}\n<&>", r, c))).collect())
            .collect(),
    )
}

#[test]
fn two_by_two_pipe_table() {
    let mut buffer = String::new();
    write_markdown_table(&mut buffer, &texts(&[&["A", "B"], &["C", "D"]]), true);
    assert_eq!(buffer, "| A | B |\n|----------|----------|\n| C | D |\n");
    let t = table(vec![vec![cell("A"), cell("B")], vec![cell("C"), cell("D")]]);
    assert_eq!(
        written(&t, style(TableStyle::Markdown)),
        "| A | B |\n|----------|----------|\n| C | D |\n\n\n"
    );
    assert_eq!(
        t.to_markdown_with_options(&style(TableStyle::Markdown)),
        Ok("| A | B |\n|----------|----------|\n| C | D |".to_string())
    );
}

#[test]
fn pipe_table_escapes_its_cells() {
    let mut buffer = String::new();
    write_markdown_table(&mut buffer, &texts(&[&["a|b", "c\nd"], &["<&>"]]), false);
    assert_eq!(buffer, "| a\\|b | c d |\n|----------|----------|\n| <&> |\n");
    assert_eq!(render_markdown_row(&vec!["x".to_string(), "".to_string()]), "| x |  |\n");
    assert_eq!(render_markdown_row(&Vec::new()), "|\n");
}

#[test]
fn table_without_rows_is_written_as_nothing() {
    let mut buffer = String::from("kept");
    write_markdown_table(&mut buffer, &Vec::new(), true);
    let empty = TableLayout { spans: Vec::new(), places: Vec::new() };
    write_html_table(&mut buffer, &Vec::new(), &empty, Some("  "), true);
    write_html_table(&mut buffer, &Vec::new(), &empty, None, true);
    assert_eq!(buffer, "kept");
    assert_eq!(written(&table(Vec::new()), style(TableStyle::Markdown)), "\n\n");
    assert_eq!(written(&table(Vec::new()), style(TableStyle::StyledHtml)), "\n\n");
}

#[test]
fn header_only_pipe_table() {
    let mut buffer = String::new();
    write_markdown_table(&mut buffer, &texts(&[&["H1", "H2", "H3"]]), false);
    assert_eq!(buffer, "| H1 | H2 | H3 |\n|----------|----------|----------|\n");
}

#[test]
fn merged_header_is_written_as_html_with_colspan() {
    let t = table(vec![vec![wide("Head", 2)], vec![cell("a"), cell("b")]]);
    assert_eq!(
        written(&t, style(TableStyle::Markdown)),
        "<table><tr><th colspan=\"2\">Head</th></tr><tr><td>a</td><td>b</td></tr></table>\n\n"
    );
    assert_eq!(
        written(&t, style(TableStyle::MinimalHtml)),
        "<table><tr><th colspan=\"2\">Head</th></tr><tr><td>a</td><td>b</td></tr></table>\n\n"
    );
}

#[test]
fn styled_html_table_is_indented() {
    let t = table(vec![vec![wide("Head", 2)], vec![cell("a"), cell("b")]]);
    assert_eq!(
        written(&t, style(TableStyle::StyledHtml)),
        "<table>\n  <tr>\n    <th colspan=\"2\">Head</th>\n  </tr>\n  <tr>\n    <td>a</td>\n    <td>b</td>\n  </tr>\n</table>\n\n"
    );
    let options = MarkdownOptions { html_table_indent: 1, ..style(TableStyle::StyledHtml) };
    assert_eq!(
        written(&table(vec![vec![cell("x")]]), options),
        "<table>\n <tr>\n  <th>x</th>\n </tr>\n</table>\n\n"
    );
    let options = MarkdownOptions { html_table_indent: 0, ..style(TableStyle::StyledHtml) };
    assert_eq!(
        written(&table(vec![vec![cell("x")]]), options),
        "<table>\n<tr>\n<th>x</th>\n</tr>\n</table>\n\n"
    );
}

#[test]
fn html_style_is_used_without_merges_too() {
    let t = table(vec![vec![cell("A")], vec![cell("<B>")]]);
    assert_eq!(
        written(&t, style(TableStyle::MinimalHtml)),
        "<table><tr><th>A</th></tr><tr><td>&lt;B&gt;</td></tr></table>\n\n"
    );
}

#[test]
fn vertical_merge_is_written_with_rowspan() {
    let t = table(vec![
        vec![merged("tall", 1, VMergeState::Restart), cell("b")],
        vec![merged("", 1, VMergeState::Continue), cell("d")],
    ]);
    assert_eq!(
        written(&t, style(TableStyle::Markdown)),
        "<table><tr><th rowspan=\"2\">tall</th><th>b</th></tr><tr><td>d</td></tr></table>\n\n"
    );
    let t = table(vec![
        vec![merged("A", 1, VMergeState::Restart), cell("B")],
        vec![merged("", 1, VMergeState::Continue), cell("D")],
    ]);
    assert_eq!(
        written(&t, style(TableStyle::MinimalHtml)),
        "<table><tr><th rowspan=\"2\">A</th><th>B</th></tr><tr><td>D</td></tr></table>\n\n"
    );
    let t = table(vec![
        vec![wide("a", 2), merged("m", 1, VMergeState::Restart)],
        vec![wide("b", 2), merged("hidden", 1, VMergeState::Continue)],
        vec![cell("c"), cell("d"), cell("shown")],
    ]);
    assert_eq!(
        written(&t, style(TableStyle::MinimalHtml)),
        "<table><tr><th colspan=\"2\">a</th><th rowspan=\"2\">m</th></tr><tr><td colspan=\"2\">b</td></tr><tr><td>c</td><td>d</td><td>shown</td></tr></table>\n\n"
    );
}

#[test]
fn inert_continue_leaves_a_pipe_table() {
    let t = table(vec![
        vec![cell("a"), cell("b")],
        vec![merged("c", 1, VMergeState::Continue), cell("d")],
    ]);
    assert_eq!(written(&t, style(TableStyle::Markdown)), "| a | b |\n|----------|----------|\n| c | d |\n\n\n");
    let writer = MarkdownWriter::new(MarkdownOptions::default());
    assert_eq!(writer.table_has_merged_cells(&t), Ok(false));
}

#[test]
fn merged_cells_are_detected_on_the_span_grid() {
    let writer = MarkdownWriter::new(MarkdownOptions::default());
    let t = table(vec![vec![wide("x", 3)]]);
    assert_eq!(writer.table_has_merged_cells(&t), Ok(true));
    let t = table(vec![vec![merged("x", 1, VMergeState::Restart)], vec![cell("y")]]);
    assert_eq!(writer.table_has_merged_cells(&t), Ok(false));
    let t = table(vec![vec![merged("x", 1, VMergeState::Restart)], vec![merged("y", 1, VMergeState::Continue)]]);
    assert_eq!(writer.table_has_merged_cells(&t), Ok(true));
    assert_eq!(writer.table_has_merged_cells(&Table { rows: Err(boom()) }), Err(boom()));
}

#[test]
fn html_cell_with_both_attributes() {
    let mut buffer = String::new();
    let span = CellSpan { colspan: 12, rowspan: 100, skip: false };
    write_html_cell(&mut buffer, "a&b", "td", span, None);
    assert_eq!(buffer, "<td colspan=\"12\" rowspan=\"100\">a&amp;b</td>");
    let mut buffer = String::new();
    write_html_cell(&mut buffer, "x\ny", "th", CellSpan::new(), Some("\t"));
    assert_eq!(buffer, "\t<th>x<br>y</th>\n");
}

#[test]
fn cells_beyond_the_grid_are_written_unmerged() {
    let row = vec!["a".to_string(), "b".to_string(), "c".to_string()];
    let spans = vec![CellSpan { colspan: 2, rowspan: 1, skip: false }, CellSpan::skipped()];
    let places = vec![Place::At(0), Place::Outside, Place::Outside];
    assert_eq!(
        render_html_row(&row, &places, &spans, 0, None, None),
        "<tr><th colspan=\"2\">a</th><th>b</th><th>c</th></tr>"
    );
    assert_eq!(
        render_html_row(&row, &Vec::new(), &Vec::new(), 1, None, None),
        "<tr><td>a</td><td>b</td><td>c</td></tr>"
    );
    let spans = vec![CellSpan { colspan: usize::MAX, rowspan: 1, skip: false }, CellSpan::new()];
    assert_eq!(
        render_html_row(&row[..2].to_vec(), &vec![Place::At(0), Place::At(1)], &spans, 1, None, None),
        format!("<tr><td colspan=\"{}\">a</td><td>b</td></tr>", usize::MAX)
    );
}

#[test]
fn covered_positions_are_passed_over() {
    let row = vec!["hidden".to_string(), "a".to_string(), "b".to_string()];
    let spans = vec![CellSpan::skipped(), CellSpan::new(), CellSpan::skipped(), CellSpan { colspan: 1, rowspan: 3, skip: false }];
    assert_eq!(
        render_html_row(&row, &vec![Place::Under(0), Place::At(1), Place::At(3)], &spans, 2, Some(" "), Some("  ")),
        " <tr>\n  <td>a</td>\n  <td rowspan=\"3\">b</td>\n </tr>\n"
    );
}

#[test]
fn merge_data_defaults_where_it_cannot_be_read() {
    let c = Cell { text: Ok("t".to_string()), grid_span: Err(boom()), v_merge: Err(boom()) };
    assert_eq!(read_cell_merge(&c), CellMerge { grid_span: 1, v_merge: None });
    let c = Cell { text: Err(boom()), grid_span: Ok(4), v_merge: Ok(Some(VMergeState::Continue)) };
    assert_eq!(read_cell_merge(&c), CellMerge { grid_span: 4, v_merge: Some(VMergeState::Continue) });
}

#[test]
fn extraction_reads_texts_and_merges_in_order() {
    let t = table(vec![vec![wide("a", 2), cell("b")], vec![], vec![merged("c", 1, VMergeState::Restart)]]);
    let expected = TableData {
        texts: texts(&[&["a", "b"], &[], &["c"]]),
        merges: vec![
            vec![CellMerge { grid_span: 2, v_merge: None }, CellMerge { grid_span: 1, v_merge: None }],
            vec![],
            vec![CellMerge { grid_span: 1, v_merge: Some(VMergeState::Restart) }],
        ],
    };
    assert_eq!(extract_table_cell_data(&t, false), Ok(expected));
    let row = Row { cells: Ok(vec![cell("x")]) };
    assert_eq!(
        extract_row_data(&row),
        Ok(RowData { texts: vec!["x".to_string()], merges: vec![CellMerge { grid_span: 1, v_merge: None }] })
    );
}

#[test]
fn extraction_hands_on_the_first_error() {
    let mut t = numbered(30, 2);
    if let Ok(rows) = &mut t.rows {
        rows[7] = Row { cells: Ok(vec![cell("ok"), Cell { text: Err(Error::Other("cell 7".to_string())), grid_span: Ok(1), v_merge: Ok(None) }]) };
        rows[5] = Row { cells: Err(Error::Other("row 5".to_string())) };
        rows[20] = Row { cells: Err(Error::Other("row 20".to_string())) };
    }
    assert_eq!(extract_table_cell_data(&t, false), Err(Error::Other("row 5".to_string())));
    assert_eq!(extract_table_cell_data(&t, true), Err(Error::Other("row 5".to_string())));
    if let Ok(rows) = &mut t.rows {
        rows[5] = Row { cells: Ok(Vec::new()) };
    }
    assert_eq!(extract_table_cell_data(&t, false), Err(Error::Other("cell 7".to_string())));
    assert_eq!(extract_table_cell_data(&t, true), Err(Error::Other("cell 7".to_string())));
    let t = Table { rows: Err(boom()) };
    assert_eq!(extract_table_cell_data(&t, true), Err(boom()));
    let mut writer = MarkdownWriter::new(MarkdownOptions::default());
    writer.push_str("kept");
    assert_eq!(writer.write_table(&t), Err(boom()));
    assert_eq!(writer.finish(), "kept");
    assert_eq!(t.to_markdown_with_options(&MarkdownOptions::default()), Err(boom()));
}

#[test]
fn large_tables_are_the_same_on_one_thread_and_on_several() {
    for rows in [1usize, 20, 21, 64] {
        let t = numbered(rows, 3);
        let data = extract_table_cell_data(&t, false).unwrap();
        assert_eq!(extract_table_cell_data(&t, true).unwrap(), data);
        let layout = analyze_table_layout(&data.merges);
        for table_style in [TableStyle::Markdown, TableStyle::MinimalHtml, TableStyle::StyledHtml] {
            let parallel = MarkdownOptions { use_parallel: true, ..style(table_style) };
            let in_turn = MarkdownOptions { use_parallel: false, ..style(table_style) };
            assert_eq!(written(&t, parallel), written(&t, in_turn));
        }
        let mut a = String::new();
        let mut b = String::new();
        write_markdown_table(&mut a, &data.texts, true);
        write_markdown_table(&mut b, &data.texts, false);
        assert_eq!(a, b);
        assert_eq!(a.lines().count(), rows + 1);
        let mut a = String::new();
        let mut b = String::new();
        write_html_table(&mut a, &data.texts, &layout, Some("  "), true);
        write_html_table(&mut b, &data.texts, &layout, Some("  "), false);
        assert_eq!(a, b);
    }
}

#[test]
fn large_merged_table_is_the_same_on_one_thread_and_on_several() {
    let mut rows: Vec<Vec<Cell>> = Vec::new();
    for r in 0..40 {
        let state = if r % 4 == 0 { VMergeState::Restart } else { VMergeState::Continue };
        rows.push(vec![merged(&format!("m{}", r), 2, state), cell(&format!("x{}", r)), wide("w", (r % 3) + 1)]);
    }
    let t = table(rows);
    let parallel = MarkdownOptions { use_parallel: true, ..style(TableStyle::Markdown) };
    let in_turn = MarkdownOptions { use_parallel: false, ..style(TableStyle::Markdown) };
    let out = written(&t, parallel);
    assert_eq!(out, written(&t, in_turn));
    assert!(out.starts_with("<table><tr><th colspan=\"2\" rowspan=\"4\">m0</th>"));
}

#[test]
fn tables_too_wide_for_the_machine_are_not_renderable() {
    let t = table(vec![vec![wide("a", usize::MAX), wide("b", 2)]]);
    assert!(!table_is_renderable(&t));
    assert!(table_is_renderable(&numbered(3, 3)));
    assert!(table_is_renderable(&Table { rows: Err(boom()) }));
}
