//! Tables written as pipe tables and as HTML tables.

use vstd::prelude::*;
use vstd::string::*;
use crate::markdown::cells::TABLE_PARALLEL_THRESHOLD;
use crate::markdown::escape::{
    escape_html,
    escape_html_to_buffer,
    escape_markdown,
    escape_markdown_to_buffer,
};
use crate::markdown::spans::{CellSpan, Layout, Place, TableLayout};
use crate::parallel::par_map_index;
use crate::text::{concat, decimal, lemma_concat_step, push_all, push_decimal};

verus! {

/// A cell of a pipe table.
pub open spec fn markdown_cell(text: Seq<char>) -> Seq<char> {
    " "@ + escape_markdown(text) + " |"@
}

/// A row of a pipe table, with its line feed.
pub open spec fn markdown_row(texts: Seq<Seq<char>>) -> Seq<char> {
    "|"@ + concat(texts.map_values(|t: Seq<char>| markdown_cell(t))) + "\n"@
}

/// The row of dashes under the header of a pipe table of `n` columns.
pub open spec fn markdown_separator(n: nat) -> Seq<char> {
    "|"@ + concat(Seq::new(n, |i: int| "----------|"@)) + "\n"@
}

/// The rows of a pipe table, one after the other.
pub open spec fn markdown_rows(rows: Seq<Seq<Seq<char>>>) -> Seq<char> {
    concat(rows.map_values(|r: Seq<Seq<char>>| markdown_row(r)))
}

/// A pipe table: the first row as the header, the row of dashes, and the other
/// rows. A table without rows is written as nothing.
pub open spec fn markdown_table(rows: Seq<Seq<Seq<char>>>) -> Seq<char> {
    if rows.len() == 0 {
        Seq::empty()
    } else {
        markdown_row(rows[0]) + markdown_separator(rows[0].len()) + markdown_rows(rows.skip(1))
    }
}

/// Appends a row of a pipe table.
pub fn write_markdown_row(buffer: &mut String, texts: &Vec<String>)
    ensures
        final(buffer)@ == old(buffer)@ + markdown_row(texts.deep_view()),
{
    let ghost cells = texts.deep_view().map_values(|t: Seq<char>| markdown_cell(t));
    buffer.append("|");
    let mut i: usize = 0;
    proof {
        assert(old(buffer)@ + "|"@ + concat(cells.take(0)) =~= old(buffer)@ + "|"@);
    }
    while i < texts.len()
        invariant
            i <= texts@.len(),
            cells == texts.deep_view().map_values(|t: Seq<char>| markdown_cell(t)),
            buffer@ == old(buffer)@ + "|"@ + concat(cells.take(i as int)),
        decreases texts@.len() - i,
    {
        let ghost before = buffer@;
        buffer.append(" ");
        escape_markdown_to_buffer(buffer, texts[i].as_str());
        buffer.append(" |");
        proof {
            lemma_concat_step(cells, i as int);
            assert(cells[i as int] == markdown_cell(texts@[i as int]@));
            assert(buffer@ =~= before + cells[i as int]);
            assert(buffer@ =~= old(buffer)@ + "|"@ + concat(cells.take(i + 1)));
        }
        i = i + 1;
    }
    buffer.append("\n");
    proof {
        assert(cells.take(i as int) =~= cells);
        assert(buffer@ =~= old(buffer)@ + markdown_row(texts.deep_view()));
    }
}

/// A row of a pipe table as a string of its own.
pub fn render_markdown_row(texts: &Vec<String>) -> (s: String)
    ensures
        s@ == markdown_row(texts.deep_view()),
{
    let mut s = String::new();
    write_markdown_row(&mut s, texts);
    proof {
        assert(Seq::<char>::empty() + markdown_row(texts.deep_view()) =~= markdown_row(
            texts.deep_view(),
        ));
    }
    s
}

/// Appends the row of dashes for `n` columns.
fn write_markdown_separator(buffer: &mut String, n: usize)
    ensures
        final(buffer)@ == old(buffer)@ + markdown_separator(n as nat),
{
    let ghost dashes = Seq::new(n as nat, |i: int| "----------|"@);
    buffer.append("|");
    let mut i: usize = 0;
    proof {
        assert(old(buffer)@ + "|"@ + concat(dashes.take(0)) =~= old(buffer)@ + "|"@);
    }
    while i < n
        invariant
            i <= n,
            dashes == Seq::new(n as nat, |i: int| "----------|"@),
            buffer@ == old(buffer)@ + "|"@ + concat(dashes.take(i as int)),
        decreases n - i,
    {
        buffer.append("----------|");
        proof {
            lemma_concat_step(dashes, i as int);
            assert(buffer@ =~= old(buffer)@ + "|"@ + concat(dashes.take(i + 1)));
        }
        i = i + 1;
    }
    buffer.append("\n");
    proof {
        assert(dashes.take(i as int) =~= dashes);
        assert(buffer@ =~= old(buffer)@ + markdown_separator(n as nat));
    }
}

/// Appends the rows after the first, written one after the other.
fn write_markdown_rows_in_turn(buffer: &mut String, texts: &Vec<Vec<String>>)
    requires
        texts@.len() > 0,
    ensures
        final(buffer)@ == old(buffer)@ + markdown_rows(texts.deep_view().skip(1)),
{
    let ghost rows = texts.deep_view().skip(1).map_values(|r: Seq<Seq<char>>| markdown_row(r));
    let mut i: usize = 1;
    proof {
        assert(old(buffer)@ + concat(rows.take(0)) =~= old(buffer)@);
    }
    while i < texts.len()
        invariant
            1 <= i <= texts@.len(),
            rows == texts.deep_view().skip(1).map_values(|r: Seq<Seq<char>>| markdown_row(r)),
            buffer@ == old(buffer)@ + concat(rows.take(i - 1)),
        decreases texts@.len() - i,
    {
        let ghost before = buffer@;
        write_markdown_row(buffer, &texts[i]);
        proof {
            lemma_concat_step(rows, i - 1);
            assert(rows[i - 1] == markdown_row(texts@[i as int].deep_view()));
            assert(buffer@ =~= old(buffer)@ + concat(rows.take(i as int)));
        }
        i = i + 1;
    }
    proof {
        assert(rows.take(i - 1) =~= rows);
    }
}

/// Appends the rows after the first, each written on a thread of its own.
fn write_markdown_rows_in_parallel(buffer: &mut String, texts: &Vec<Vec<String>>)
    requires
        texts@.len() > 0,
    ensures
        final(buffer)@ == old(buffer)@ + markdown_rows(texts.deep_view().skip(1)),
{
    let ghost rows = texts.deep_view().skip(1).map_values(|r: Seq<Seq<char>>| markdown_row(r));
    let n = texts.len();
    let render = |i: usize| -> (s: String)
        requires
            i + 1 < n,
            n == texts@.len(),
        ensures
            s@ == markdown_row(texts@[i + 1].deep_view()),
        { render_markdown_row(&texts[i + 1]) };
    let row_strings = par_map_index(n - 1, render);
    proof {
        assert forall|i: int| 0 <= i < rows.len() implies (#[trigger] row_strings@[i])@
            == rows[i] by {
            assert(call_ensures(render, (i as usize,), row_strings@[i as usize as int]));
        }
        assert(row_strings.deep_view() =~= rows);
    }
    push_all(buffer, &row_strings);
}

/// Write a table in Markdown format.
///
/// The first row is the header. A table of more than
/// [`TABLE_PARALLEL_THRESHOLD`] rows has its rows written on several threads
/// where `use_parallel` is set; the text is the same either way.
pub fn write_markdown_table(buffer: &mut String, texts: &Vec<Vec<String>>, use_parallel: bool)
    ensures
        final(buffer)@ == old(buffer)@ + markdown_table(texts.deep_view()),
{
    if texts.len() == 0 {
        proof {
            assert(old(buffer)@ + markdown_table(texts.deep_view()) =~= old(buffer)@);
        }
        return ;
    }
    write_markdown_row(buffer, &texts[0]);
    write_markdown_separator(buffer, texts[0].len());
    if use_parallel && texts.len() > TABLE_PARALLEL_THRESHOLD {
        write_markdown_rows_in_parallel(buffer, texts);
    } else {
        write_markdown_rows_in_turn(buffer, texts);
    }
    proof {
        assert(texts.deep_view()[0] == texts@[0].deep_view());
        assert(texts.deep_view()[0].len() == texts@[0]@.len());
        assert(buffer@ =~= old(buffer)@ + markdown_table(texts.deep_view()));
    }
}

/// The `colspan` attribute of a cell: written only for a width greater than 1.
pub open spec fn colspan_attribute(n: usize) -> Seq<char> {
    if n > 1 {
        " colspan=\""@ + decimal(n as nat) + "\""@
    } else {
        Seq::empty()
    }
}

/// The `rowspan` attribute of a cell: written only for a height greater than 1.
pub open spec fn rowspan_attribute(n: usize) -> Seq<char> {
    if n > 1 {
        " rowspan=\""@ + decimal(n as nat) + "\""@
    } else {
        Seq::empty()
    }
}

/// The opening tag of a cell, with the attributes of its span.
pub open spec fn html_opening(tag: Seq<char>, span: CellSpan) -> Seq<char> {
    "<"@ + tag + colspan_attribute(span.colspan) + rowspan_attribute(span.rowspan) + ">"@
}

/// The closing tag of a cell.
pub open spec fn html_closing(tag: Seq<char>) -> Seq<char> {
    "</"@ + tag + ">"@
}

/// A cell of an HTML table. With an indent the cell stands on a line of its own.
pub open spec fn html_cell(
    text: Seq<char>,
    tag: Seq<char>,
    span: CellSpan,
    indent: Option<Seq<char>>,
) -> Seq<char> {
    match indent {
        Some(i) => i + html_opening(tag, span) + escape_html(text) + html_closing(tag) + "\n"@,
        None => html_opening(tag, span) + escape_html(text) + html_closing(tag),
    }
}

/// The span that the cell at grid column `c` is written with: the one of the
/// grid, or that of an unmerged cell beyond the grid.
pub open spec fn span_at(spans: Seq<CellSpan>, c: int) -> CellSpan {
    if 0 <= c < spans.len() {
        spans[c]
    } else {
        CellSpan::spec_new()
    }
}

/// The place of cell `i` of a row; a cell that the places do not reach is outside
/// the grid.
pub open spec fn place_of(places: Seq<Place>, i: int) -> Place {
    if 0 <= i < places.len() {
        places[i]
    } else {
        Place::Outside
    }
}

/// What is written for a cell at its place: a cell that stands at a grid column
/// is written with the span of that position, a cell that continues a vertical
/// merge is not written, and a cell outside the grid is written unmerged.
pub open spec fn html_placed_cell(
    text: Seq<char>,
    place: Place,
    spans: Seq<CellSpan>,
    tag: Seq<char>,
    indent: Option<Seq<char>>,
) -> Seq<char> {
    match place {
        Place::At(g) => html_cell(text, tag, span_at(spans, g as int), indent),
        Place::Under(_) => Seq::empty(),
        Place::Outside => html_cell(text, tag, CellSpan::spec_new(), indent),
    }
}

/// The cells of a row, each written at its place.
pub open spec fn html_cells(
    texts: Seq<Seq<char>>,
    places: Seq<Place>,
    spans: Seq<CellSpan>,
    tag: Seq<char>,
    indent: Option<Seq<char>>,
) -> Seq<char> {
    concat(
        Seq::new(
            texts.len(),
            |i: int| html_placed_cell(texts[i], place_of(places, i), spans, tag, indent),
        ),
    )
}

/// The tag of the cells of a row: the first row is the header.
pub open spec fn row_tag(row: int) -> Seq<char> {
    if row == 0 {
        "th"@
    } else {
        "td"@
    }
}

/// A row of an HTML table. With an indent the row is written over several lines,
/// its cells indented twice.
pub open spec fn html_row(
    texts: Seq<Seq<char>>,
    places: Seq<Place>,
    spans: Seq<CellSpan>,
    row: int,
    indent: Option<Seq<char>>,
) -> Seq<char> {
    match indent {
        Some(i) => i + "<tr>\n"@ + html_cells(texts, places, spans, row_tag(row), Some(i + i)) + i
            + "</tr>\n"@,
        None => "<tr>"@ + html_cells(texts, places, spans, row_tag(row), None) + "</tr>"@,
    }
}

/// The rows of an HTML table, one after the other.
pub open spec fn html_rows(
    texts: Seq<Seq<Seq<char>>>,
    layout: Layout,
    indent: Option<Seq<char>>,
) -> Seq<Seq<char>> {
    Seq::new(
        texts.len(),
        |r: int| html_row(texts[r], layout.places[r], layout.grid[r], r, indent),
    )
}

/// An HTML table. A table without rows is written as nothing.
pub open spec fn html_table(
    texts: Seq<Seq<Seq<char>>>,
    layout: Layout,
    indent: Option<Seq<char>>,
) -> Seq<char> {
    if texts.len() == 0 {
        Seq::empty()
    } else {
        (if indent is Some {
            "<table>\n"@
        } else {
            "<table>"@
        }) + concat(html_rows(texts, layout, indent)) + "</table>"@
    }
}

/// The view of an indent that may be absent.
pub open spec fn indent_view(indent: Option<&str>) -> Option<Seq<char>> {
    match indent {
        Some(i) => Some(i@),
        None => None,
    }
}

/// Appends the opening tag of a cell.
fn write_html_opening(buffer: &mut String, tag: &str, span: CellSpan)
    ensures
        final(buffer)@ == old(buffer)@ + html_opening(tag@, span),
{
    buffer.append("<");
    buffer.append(tag);
    let ghost named = buffer@;
    if span.colspan > 1 {
        buffer.append(" colspan=\"");
        push_decimal(buffer, span.colspan);
        buffer.append("\"");
    }
    let ghost widened = buffer@;
    proof {
        assert(widened =~= named + colspan_attribute(span.colspan));
    }
    if span.rowspan > 1 {
        buffer.append(" rowspan=\"");
        push_decimal(buffer, span.rowspan);
        buffer.append("\"");
    }
    proof {
        assert(buffer@ =~= widened + rowspan_attribute(span.rowspan));
    }
    buffer.append(">");
    proof {
        assert(named =~= old(buffer)@ + ("<"@ + tag@));
        assert(buffer@ =~= old(buffer)@ + html_opening(tag@, span));
    }
}

/// Appends the closing tag of a cell.
fn write_html_closing(buffer: &mut String, tag: &str)
    ensures
        final(buffer)@ == old(buffer)@ + html_closing(tag@),
{
    buffer.append("</");
    buffer.append(tag);
    buffer.append(">");
    proof {
        assert(buffer@ =~= old(buffer)@ + html_closing(tag@));
    }
}

/// Appends a cell of an HTML table.
pub fn write_html_cell(
    buffer: &mut String,
    text: &str,
    tag: &str,
    span: CellSpan,
    indent: Option<&str>,
)
    ensures
        final(buffer)@ == old(buffer)@ + html_cell(text@, tag@, span, indent_view(indent)),
{
    match indent {
        Some(i) => {
            buffer.append(i);
        },
        None => {},
    }
    let ghost start = buffer@;
    write_html_opening(buffer, tag, span);
    escape_html_to_buffer(buffer, text);
    write_html_closing(buffer, tag);
    let ghost body = html_opening(tag@, span) + escape_html(text@) + html_closing(tag@);
    proof {
        assert(buffer@ =~= start + body);
    }
    match indent {
        Some(i) => {
            buffer.append("\n");
            proof {
                assert(buffer@ =~= old(buffer)@ + (i@ + body + "\n"@));
                assert(i@ + body + "\n"@ =~= html_cell(text@, tag@, span, indent_view(indent)));
            }
        },
        None => {
            proof {
                assert(start =~= old(buffer)@);
            }
        },
    }
}

/// Appends the cells of a row of an HTML table, each at its place.
pub fn write_html_cells(
    buffer: &mut String,
    texts: &Vec<String>,
    places: &Vec<Place>,
    spans: &Vec<CellSpan>,
    tag: &str,
    indent: Option<&str>,
)
    ensures
        final(buffer)@ == old(buffer)@ + html_cells(
            texts.deep_view(),
            places@,
            spans@,
            tag@,
            indent_view(indent),
        ),
{
    let ghost all = texts.deep_view();
    let ghost ind = indent_view(indent);
    let ghost parts = Seq::new(
        all.len(),
        |i: int| html_placed_cell(all[i], place_of(places@, i), spans@, tag@, ind),
    );
    let mut i: usize = 0;
    proof {
        assert(old(buffer)@ + concat(parts.take(0)) =~= old(buffer)@);
    }
    while i < texts.len()
        invariant
            i <= texts@.len(),
            all == texts.deep_view(),
            ind == indent_view(indent),
            parts == Seq::new(
                all.len(),
                |i: int| html_placed_cell(all[i], place_of(places@, i), spans@, tag@, ind),
            ),
            buffer@ == old(buffer)@ + concat(parts.take(i as int)),
        decreases texts@.len() - i,
    {
        let ghost before = buffer@;
        let place = if i < places.len() {
            places[i]
        } else {
            Place::Outside
        };
        match place {
            Place::At(g) => {
                let span = if g < spans.len() {
                    spans[g]
                } else {
                    CellSpan::new()
                };
                write_html_cell(buffer, texts[i].as_str(), tag, span, indent);
            },
            Place::Under(_) => {},
            Place::Outside => {
                write_html_cell(buffer, texts[i].as_str(), tag, CellSpan::new(), indent);
            },
        }
        proof {
            lemma_concat_step(parts, i as int);
            assert(all[i as int] == texts@[i as int]@);
            assert(buffer@ =~= before + parts[i as int]);
            assert(buffer@ =~= old(buffer)@ + concat(parts.take(i + 1)));
        }
        i = i + 1;
    }
    proof {
        assert(parts.take(i as int) =~= parts);
    }
}

/// Appends a row of an HTML table. `indent` is the indent of a styled table.
pub fn write_html_row(
    buffer: &mut String,
    texts: &Vec<String>,
    places: &Vec<Place>,
    spans: &Vec<CellSpan>,
    row: usize,
    indent: Option<&str>,
    double_indent: Option<&str>,
)
    requires
        match indent {
            Some(i) => double_indent matches Some(d) && d@ == i@ + i@,
            None => double_indent is None,
        },
    ensures
        final(buffer)@ == old(buffer)@ + html_row(
            texts.deep_view(),
            places@,
            spans@,
            row as int,
            indent_view(indent),
        ),
{
    let tag = if row == 0 {
        "th"
    } else {
        "td"
    };
    match indent {
        Some(i) => {
            buffer.append(i);
            buffer.append("<tr>\n");
            write_html_cells(buffer, texts, places, spans, tag, double_indent);
            buffer.append(i);
            buffer.append("</tr>\n");
        },
        None => {
            buffer.append("<tr>");
            write_html_cells(buffer, texts, places, spans, tag, None);
            buffer.append("</tr>");
        },
    }
    proof {
        assert(buffer@ =~= old(buffer)@ + html_row(
            texts.deep_view(),
            places@,
            spans@,
            row as int,
            indent_view(indent),
        ));
    }
}

/// A row of an HTML table as a string of its own.
pub fn render_html_row(
    texts: &Vec<String>,
    places: &Vec<Place>,
    spans: &Vec<CellSpan>,
    row: usize,
    indent: Option<&str>,
    double_indent: Option<&str>,
) -> (s: String)
    requires
        match indent {
            Some(i) => double_indent matches Some(d) && d@ == i@ + i@,
            None => double_indent is None,
        },
    ensures
        s@ == html_row(texts.deep_view(), places@, spans@, row as int, indent_view(indent)),
{
    let mut s = String::new();
    write_html_row(&mut s, texts, places, spans, row, indent, double_indent);
    proof {
        assert(Seq::<char>::empty() + html_row(
            texts.deep_view(),
            places@,
            spans@,
            row as int,
            indent_view(indent),
        ) =~= html_row(texts.deep_view(), places@, spans@, row as int, indent_view(indent)));
    }
    s
}

/// Appends the rows of an HTML table, written one after the other.
fn write_html_rows_in_turn(
    buffer: &mut String,
    texts: &Vec<Vec<String>>,
    layout: &TableLayout,
    indent: Option<&str>,
    double_indent: Option<&str>,
)
    requires
        texts@.len() == layout.spans@.len(),
        texts@.len() == layout.places@.len(),
        match indent {
            Some(i) => double_indent matches Some(d) && d@ == i@ + i@,
            None => double_indent is None,
        },
    ensures
        final(buffer)@ == old(buffer)@ + concat(
            html_rows(texts.deep_view(), layout@, indent_view(indent)),
        ),
{
    let ghost rows = html_rows(texts.deep_view(), layout@, indent_view(indent));
    let mut r: usize = 0;
    proof {
        assert(old(buffer)@ + concat(rows.take(0)) =~= old(buffer)@);
    }
    while r < texts.len()
        invariant
            r <= texts@.len(),
            texts@.len() == layout.spans@.len(),
            texts@.len() == layout.places@.len(),
            match indent {
                Some(i) => double_indent matches Some(d) && d@ == i@ + i@,
                None => double_indent is None,
            },
            rows == html_rows(texts.deep_view(), layout@, indent_view(indent)),
            buffer@ == old(buffer)@ + concat(rows.take(r as int)),
        decreases texts@.len() - r,
    {
        write_html_row(
            buffer,
            &texts[r],
            &layout.places[r],
            &layout.spans[r],
            r,
            indent,
            double_indent,
        );
        proof {
            lemma_concat_step(rows, r as int);
            assert(rows[r as int] == html_row(
                texts@[r as int].deep_view(),
                layout.places@[r as int]@,
                layout.spans@[r as int]@,
                r as int,
                indent_view(indent),
            ));
            assert(buffer@ =~= old(buffer)@ + concat(rows.take(r + 1)));
        }
        r = r + 1;
    }
    proof {
        assert(rows.take(r as int) =~= rows);
    }
}

/// Appends the rows of an HTML table, each written on a thread of its own.
fn write_html_rows_in_parallel(
    buffer: &mut String,
    texts: &Vec<Vec<String>>,
    layout: &TableLayout,
    indent: Option<&str>,
    double_indent: Option<&str>,
)
    requires
        texts@.len() == layout.spans@.len(),
        texts@.len() == layout.places@.len(),
        match indent {
            Some(i) => double_indent matches Some(d) && d@ == i@ + i@,
            None => double_indent is None,
        },
    ensures
        final(buffer)@ == old(buffer)@ + concat(
            html_rows(texts.deep_view(), layout@, indent_view(indent)),
        ),
{
    let ghost rows = html_rows(texts.deep_view(), layout@, indent_view(indent));
    let n = texts.len();
    let render = |r: usize| -> (s: String)
        requires
            r < n,
            n == texts@.len(),
            n == layout.spans@.len(),
            n == layout.places@.len(),
            match indent {
                Some(i) => double_indent matches Some(d) && d@ == i@ + i@,
                None => double_indent is None,
            },
        ensures
            s@ == html_row(
                texts@[r as int].deep_view(),
                layout.places@[r as int]@,
                layout.spans@[r as int]@,
                r as int,
                indent_view(indent),
            ),
        {
            render_html_row(
                &texts[r],
                &layout.places[r],
                &layout.spans[r],
                r,
                indent,
                double_indent,
            )
        };
    let row_strings = par_map_index(n, render);
    proof {
        assert forall|r: int| 0 <= r < rows.len() implies (#[trigger] row_strings@[r])@
            == rows[r] by {
            assert(call_ensures(render, (r as usize,), row_strings@[r as usize as int]));
        }
        assert(row_strings.deep_view() =~= rows);
    }
    push_all(buffer, &row_strings);
}

/// Write a table in HTML format with proper colspan and rowspan attributes.
///
/// Every cell is written at its place in the grid, with the span of that
/// position; a cell that continues a vertical merge is part of the cell that
/// restarted it and is not written. A styled table (`indent` given) has its rows
/// and cells on lines of their own, indented; a minimal one has neither indent nor
/// line feed. A table of more than [`TABLE_PARALLEL_THRESHOLD`] rows has its rows
/// written on several threads where `use_parallel` is set; the text is the same
/// either way.
pub fn write_html_table(
    buffer: &mut String,
    texts: &Vec<Vec<String>>,
    layout: &TableLayout,
    indent: Option<&str>,
    use_parallel: bool,
)
    requires
        texts@.len() == layout.spans@.len(),
        texts@.len() == layout.places@.len(),
    ensures
        final(buffer)@ == old(buffer)@ + html_table(
            texts.deep_view(),
            layout@,
            indent_view(indent),
        ),
{
    if texts.len() == 0 {
        proof {
            assert(old(buffer)@ + Seq::<char>::empty() =~= old(buffer)@);
        }
        return ;
    }
    let doubled = match indent {
        Some(i) => {
            let mut d = String::from_str(i);
            d.append(i);
            Some(d)
        },
        None => None,
    };
    let double_indent: Option<&str> = match &doubled {
        Some(d) => Some(d.as_str()),
        None => None,
    };
    match indent {
        Some(_) => {
            buffer.append("<table>\n");
        },
        None => {
            buffer.append("<table>");
        },
    }
    if use_parallel && texts.len() > TABLE_PARALLEL_THRESHOLD {
        write_html_rows_in_parallel(buffer, texts, layout, indent, double_indent);
    } else {
        write_html_rows_in_turn(buffer, texts, layout, indent, double_indent);
    }
    buffer.append("</table>");
    proof {
        assert(buffer@ =~= old(buffer)@ + html_table(
            texts.deep_view(),
            layout@,
            indent_view(indent),
        ));
    }
}

} // verus!
