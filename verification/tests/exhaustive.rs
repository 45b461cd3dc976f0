use litchi::document::table::VMergeState;
use litchi::markdown::escape::{escape_html_to_buffer, escape_markdown_to_buffer};
use litchi::markdown::list::{detect_list_item, ListType};
use litchi::markdown::spans::{
    analyze_table_layout, analyze_table_spans, CellMerge, CellSpan, Place,
};
use litchi::markdown::table::render_html_row;

/// The span grid and the places worked out row by row with plain loops.
fn layout_by_loops(rows: &[Vec<CellMerge>]) -> (Vec<Vec<CellSpan>>, Vec<Vec<Place>>) {
    let blank = CellSpan { colspan: 1, rowspan: 1, skip: false };
    let hidden = CellSpan { colspan: 1, rowspan: 1, skip: true };
    let max: usize = rows.iter().map(|r| r.iter().map(|c| c.grid_span).sum()).max().unwrap_or(0);
    let mut spans = vec![vec![blank; max]; rows.len()];
    let mut places = Vec::new();
    let mut above: Vec<Option<usize>> = vec![None; max];
    for (r, cells) in rows.iter().enumerate() {
        let mut open: Vec<Option<usize>> = vec![None; max];
        let mut row_places = Vec::new();
        let mut col = 0;
        for cell in cells {
            if col >= max {
                row_places.push(Place::Outside);
                continue;
            }
            let root = if cell.v_merge == Some(VMergeState::Continue) { above[col] } else { None };
            if let Some(r0) = root {
                let width = spans[r0][col].colspan;
                for g in col..max.min(col + width) {
                    spans[r][g] = hidden;
                }
                spans[r0][col].rowspan = r - r0 + 1;
                open[col] = Some(r0);
                row_places.push(Place::Under(col));
                col += width.max(cell.grid_span);
            } else {
                let width = cell.grid_span.min(max - col);
                spans[r][col] = CellSpan { colspan: width, rowspan: 1, skip: false };
                for g in col + 1..col + width {
                    spans[r][g] = hidden;
                }
                open[col] = if cell.v_merge == Some(VMergeState::Restart) { Some(r) } else { None };
                row_places.push(Place::At(col));
                col += cell.grid_span;
            }
        }
        places.push(row_places);
        above = open;
    }
    (spans, places)
}

/// Whether the position lies in the rows and columns that the cell at `r0`, `g0`
/// covers.
fn in_rectangle(spans: &[Vec<CellSpan>], r0: usize, g0: usize, r: usize, g: usize) -> bool {
    let s = spans[r0][g0];
    r0 <= r && r < r0 + s.rowspan && g0 <= g && g < g0 + s.colspan
}

/// What holds of the layout of every table whose cells are at least one column
/// wide.
fn check_layout(rows: &[Vec<CellMerge>]) {
    let table: Vec<Vec<CellMerge>> = rows.to_vec();
    let layout = analyze_table_layout(&table);
    let (spans, places) = layout_by_loops(rows);
    assert_eq!(layout.spans, spans, "{:?}", rows);
    assert_eq!(layout.places, places, "{:?}", rows);
    assert_eq!(analyze_table_spans(&table), spans);
    if rows.iter().any(|r| r.iter().any(|c| c.grid_span == 0)) {
        return;
    }
    let n = rows.len();
    let m: usize = rows.iter().map(|r| r.iter().map(|c| c.grid_span).sum()).max().unwrap_or(0);
    for r in 0..n {
        assert_eq!(spans[r].len(), m);
        let mut in_width = vec![false; m];
        let mut rendered = 0;
        for g in 0..m {
            let s = spans[r][g];
            if !s.skip {
                assert!(s.colspan >= 1 && g + s.colspan <= m, "{:?}", rows);
                assert!(s.rowspan >= 1 && r + s.rowspan <= n, "{:?}", rows);
                rendered += s.colspan;
                for d in g..g + s.colspan {
                    assert!(!in_width[d], "{:?}", rows);
                    in_width[d] = true;
                    assert!(d == g || spans[r][d].skip, "{:?}", rows);
                }
            }
        }
        let outside = (0..m).filter(|g| spans[r][*g].skip && !in_width[*g]).count();
        assert_eq!(rendered + outside, m, "{:?}", rows);
        for g in 0..m {
            let mut owners = 0;
            for r0 in 0..n {
                for g0 in 0..m {
                    if !spans[r0][g0].skip && in_rectangle(&spans, r0, g0, r, g) {
                        owners += 1;
                        assert_eq!((r0, g0) != (r, g), spans[r][g].skip, "{:?}", rows);
                    }
                }
            }
            assert_eq!(owners, 1, "{:?} at {} {}", rows, r, g);
        }
        for g in 0..m {
            let s = spans[r][g];
            if s.skip {
                continue;
            }
            let here = places[r].iter().position(|p| *p == Place::At(g));
            let restarts = here.map_or(false, |i| rows[r][i].v_merge == Some(VMergeState::Restart));
            let mut height = 1;
            while restarts && r + height < n {
                match places[r + height].iter().position(|p| *p == Place::Under(g)) {
                    Some(i) => {
                        assert_eq!(rows[r + height][i].v_merge, Some(VMergeState::Continue));
                        height += 1;
                    }
                    None => break,
                }
            }
            assert_eq!(s.rowspan, height, "{:?} at {} {}", rows, r, g);
        }
    }
    for (r, row) in places.iter().enumerate() {
        assert_eq!(row.len(), rows[r].len());
        let mut last = 0;
        for (i, place) in row.iter().enumerate() {
            match place {
                Place::At(g) => {
                    assert!(*g >= last && !spans[r][*g].skip, "{:?}", rows);
                    last = *g + 1;
                }
                Place::Under(g) => {
                    assert!(*g >= last && spans[r][*g].skip, "{:?}", rows);
                    assert_eq!(rows[r][i].v_merge, Some(VMergeState::Continue));
                    last = *g + 1;
                }
                Place::Outside => {}
            }
        }
    }
}

fn all_cells(max_span: usize) -> Vec<CellMerge> {
    let mut cells = Vec::new();
    for grid_span in 0..=max_span {
        for v_merge in [None, Some(VMergeState::Restart), Some(VMergeState::Continue)] {
            cells.push(CellMerge { grid_span, v_merge });
        }
    }
    cells
}

fn all_rows(cells: &[CellMerge], max_len: usize) -> Vec<Vec<CellMerge>> {
    let mut rows: Vec<Vec<CellMerge>> = vec![Vec::new()];
    let mut last: Vec<Vec<CellMerge>> = vec![Vec::new()];
    for _ in 0..max_len {
        let mut next = Vec::new();
        for row in &last {
            for cell in cells {
                let mut longer = row.clone();
                longer.push(*cell);
                next.push(longer);
            }
        }
        rows.extend(next.iter().cloned());
        last = next;
    }
    rows
}

#[test]
fn layouts_of_all_small_tables_of_two_rows() {
    let rows = all_rows(&all_cells(3), 2);
    for first in &rows {
        for second in &rows {
            check_layout(&[first.clone(), second.clone()]);
        }
    }
}

#[test]
fn layouts_of_all_small_tables_of_three_rows() {
    let rows = all_rows(&all_cells(2)[3..], 2);
    for first in &rows {
        for second in &rows {
            for third in &rows {
                check_layout(&[first.clone(), second.clone(), third.clone()]);
            }
        }
    }
}

#[test]
fn layouts_of_tables_with_long_rows() {
    let rows = all_rows(&all_cells(2)[3..], 3);
    for first in rows.iter().step_by(7) {
        for second in rows.iter().step_by(5) {
            for third in rows.iter().step_by(11) {
                check_layout(&[first.clone(), second.clone(), third.clone(), first.clone()]);
            }
        }
    }
}

/// The cells of a row written each at its place.
fn row_by_places(texts: &[String], places: &[Place], spans: &[CellSpan], tag: &str) -> String {
    let mut out = String::from("<tr>");
    for (i, text) in texts.iter().enumerate() {
        let span = match places.get(i) {
            Some(Place::Under(_)) => continue,
            Some(Place::At(g)) => spans.get(*g).copied().unwrap_or(CellSpan { colspan: 1, rowspan: 1, skip: false }),
            _ => CellSpan { colspan: 1, rowspan: 1, skip: false },
        };
        out.push('<');
        out.push_str(tag);
        if span.colspan > 1 {
            out.push_str(&format!(" colspan=\"{}\"", span.colspan));
        }
        if span.rowspan > 1 {
            out.push_str(&format!(" rowspan=\"{}\"", span.rowspan));
        }
        out.push('>');
        out.push_str(text);
        out.push_str(&format!("</{}>", tag));
    }
    out.push_str("</tr>");
    out
}

#[test]
fn html_rows_of_all_small_rows_of_places() {
    let spans = vec![
        CellSpan { colspan: 2, rowspan: 3, skip: false },
        CellSpan { colspan: 1, rowspan: 1, skip: true },
        CellSpan { colspan: 1, rowspan: 1, skip: false },
    ];
    let options = [Place::At(0), Place::At(2), Place::At(7), Place::Under(1), Place::Outside];
    let mut rows: Vec<Vec<Place>> = vec![Vec::new()];
    let mut last = rows.clone();
    for _ in 0..4 {
        let mut next = Vec::new();
        for row in &last {
            for o in &options {
                let mut longer = row.clone();
                longer.push(*o);
                next.push(longer);
            }
        }
        rows.extend(next.iter().cloned());
        last = next;
    }
    for places in &rows {
        for n in 0..5usize {
            let texts: Vec<String> = (0..n).map(|i| format!("t{}", i)).collect();
            assert_eq!(
                render_html_row(&texts, places, &spans, 1, None, None),
                row_by_places(&texts, places, &spans, "td")
            );
        }
    }
}

/// The marker as the text has it, and the content, found with the string methods of std.
fn marker_by_search(text: &str) -> Option<(ListType, String, String)> {
    if let Some(pos) = text.find('.') {
        if pos > 0 && text[..pos].chars().all(|c| c.is_ascii_digit()) {
            let end = pos + 1;
            if text.len() > end && text.as_bytes()[end] == b' ' {
                return Some((ListType::Ordered, text[..end].to_string(), text[end + 1..].to_string()));
            }
        }
    }
    if let Some(pos) = text.find(')') {
        if pos > 0 && text[..pos].chars().all(|c| c.is_ascii_digit()) {
            let end = pos + 1;
            if text.len() > end && text.as_bytes()[end] == b' ' {
                return Some((ListType::Ordered, text[..end].to_string(), text[end + 1..].to_string()));
            }
        }
    }
    if text.starts_with('(') {
        if let Some(end) = text.find(") ") {
            if end > 1 && text[1..end].chars().all(|c| c.is_ascii_digit()) {
                return Some((ListType::Ordered, text[..end + 1].to_string(), text[end + 2..].to_string()));
            }
        }
    }
    for marker in ["-", "*", "\u{2022}"] {
        if let Some(rest) = text.strip_prefix(marker) {
            if rest.starts_with(' ') || rest.starts_with('\t') {
                return Some((ListType::Unordered, marker.to_string(), rest.trim_start().to_string()));
            }
        }
    }
    None
}

fn digits_of(marker: &str) -> String {
    marker.chars().filter(|c| c.is_ascii_digit()).collect()
}

#[test]
fn list_items_of_all_short_texts() {
    let alphabet = ['1', '7', '.', ')', '(', ' ', '\t', '-', '*', '\u{2022}', 'a', '\u{a0}'];
    let mut texts: Vec<String> = vec![String::new()];
    let mut last = texts.clone();
    for _ in 0..5 {
        let mut next = Vec::new();
        for t in &last {
            for c in alphabet {
                let mut longer = t.clone();
                longer.push(c);
                next.push(longer);
            }
        }
        texts.extend(next.iter().cloned());
        last = next;
    }
    for text in &texts {
        let trimmed = text.trim_start();
        let lead = text.chars().count() - trimmed.chars().count();
        for indent in [1usize, 2, 4] {
            let found = detect_list_item(text, indent);
            match marker_by_search(trimmed) {
                None => assert_eq!(found, None, "{:?}", text),
                Some((list_type, marker, content)) => {
                    let info = found.unwrap();
                    assert_eq!(info.list_type, list_type, "{:?}", text);
                    assert_eq!(info.level, lead / indent, "{:?}", text);
                    assert_eq!(info.content, content, "{:?}", text);
                    assert_eq!(
                        info.content_start,
                        text.chars().count() - content.chars().count(),
                        "{:?}",
                        text
                    );
                    match list_type {
                        ListType::Ordered => assert_eq!(info.marker, format!("{}.", digits_of(&marker))),
                        ListType::Unordered => assert_eq!(info.marker, "-"),
                    }
                }
            }
        }
    }
}

#[test]
fn escaped_forms_of_all_short_texts() {
    let alphabet = ['|', '\n', '&', '<', '>', 'a', '\\', '\u{e9}', '\u{4e2d}', '\u{1f600}', '\r'];
    let mut texts: Vec<String> = vec![String::new()];
    let mut last = texts.clone();
    for _ in 0..4 {
        let mut next = Vec::new();
        for t in &last {
            for c in alphabet {
                let mut longer = t.clone();
                longer.push(c);
                next.push(longer);
            }
        }
        texts.extend(next.iter().cloned());
        last = next;
    }
    for text in &texts {
        let mut markdown = String::new();
        escape_markdown_to_buffer(&mut markdown, text);
        assert_eq!(markdown, text.replace('|', "\\|").replace('\n', " "));
        let mut html = String::new();
        escape_html_to_buffer(&mut html, text);
        assert_eq!(
            html,
            text.replace('&', "&amp;").replace('<', "&lt;").replace('>', "&gt;").replace('\n', "<br>")
        );
    }
}
