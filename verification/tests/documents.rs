use litchi::common::{MathPayload, Metadata};
use litchi::document::paragraph::Paragraph;
use litchi::document::run::{DocxRun, RtfRun, Run};
use litchi::document::table::{Cell, Row, Table};
use litchi::document::{Document, DocumentElement};
use litchi::error::Error;
use litchi::markdown::document::{
    document_is_renderable, elements_are_renderable, render_element, render_elements_in_parallel,
    render_elements_in_turn,
};
use litchi::markdown::traits::ToMarkdown;
use litchi::markdown::writer::MarkdownWriter;
use litchi::markdown::config::{MarkdownOptions, TableStyle};

fn run(text: &str, bold: bool) -> Run {
    Run::Rtf(RtfRun {
        text: text.to_string(),
        bold: Some(bold),
        italic: None,
        strikethrough: None,
        vertical_position: None,
    })
}

fn para(runs: Vec<Run>) -> DocumentElement {
    let text: String = runs.iter().map(|r| r.text().unwrap()).collect();
    DocumentElement::Paragraph(Paragraph { text: Ok(text), runs: Ok(runs), display_formulas: Ok(Vec::new()) })
}

fn formulas(n: usize) -> DocumentElement {
    DocumentElement::Paragraph(Paragraph {
        text: Ok(String::new()),
        runs: Ok(Vec::new()),
        display_formulas: Ok((0..n).map(|i| MathPayload::Latex(format!("x_{}", i))).collect()),
    })
}

fn table(rows: usize) -> DocumentElement {
    DocumentElement::Table(Table {
        rows: Ok((0..rows)
            .map(|r| Row {
                cells: Ok((0..2)
                    .map(|c| Cell {
                        text: Ok(format!("{}.{}", r, c)),
                        grid_span: Ok(if r == 0 && c == 0 { 2 } else { 1 }),
                        v_merge: Ok(None),
                    })
                    .collect()),
            })
            .collect()),
    })
}

fn failing(message: &str) -> DocumentElement {
    DocumentElement::Paragraph(Paragraph {
        text: Err(Error::Other(message.to_string())),
        runs: Err(Error::Other(message.to_string())),
        display_formulas: Ok(Vec::new()),
    })
}

fn mixed(n: usize) -> Vec<DocumentElement> {
    (0..n)
        .map(|i| match i % 5 {
            0 => para(vec![run(&format!("p{} ", i), false), run("bold", true)]),
            1 => table(1 + i % 30),
            2 => para(vec![run(&format!("{}) item", i), true)]),
            3 => formulas(1 + i % 3),
            _ => para(vec![run("open ", true), run("end\n", true)]),
        })
        .collect()
}

fn document(elements: Vec<DocumentElement>) -> Document {
    Document { metadata: Ok(Metadata { front_matter: Ok("---\ntitle: T\n---\n\n".to_string()) }), elements: Ok(elements) }
}

fn options(use_parallel: bool, include_metadata: bool) -> MarkdownOptions {
    MarkdownOptions { use_parallel, include_metadata, ..MarkdownOptions::default() }
}

fn boom() -> Error {
    Error::Other("boom".to_string())
}

#[test]
fn document_is_front_matter_and_elements_in_order() {
    let doc = document(vec![para(vec![run("Hello ", false), run("world", true), run("!", false)]), table(2)]);
    assert_eq!(
        doc.to_markdown_with_options(&options(true, true)),
        Ok("---\ntitle: T\n---\n\nHello **world**!\n\n<table><tr><th colspan=\"2\">0.0</th><th>0.1</th></tr><tr><td>1.0</td><td>1.1</td></tr></table>\n\n".to_string())
    );
    assert_eq!(
        document(vec![para(vec![run("a", false)])]).to_markdown_with_options(&options(true, false)),
        Ok("a\n\n".to_string())
    );
    assert_eq!(document(Vec::new()).to_markdown_with_options(&options(false, false)), Ok(String::new()));
}

#[test]
fn both_paths_render_the_same_elements() {
    for n in [0usize, 1, 2, 7, 49, 50, 51, 120] {
        let elements = mixed(n);
        let o = options(true, false);
        let in_turn = render_elements_in_turn(&elements, &o);
        let in_parallel = render_elements_in_parallel(&elements, &o);
        assert!(in_turn.is_ok());
        assert_eq!(in_turn, in_parallel);
        let each: String = elements.iter().map(|e| render_element(e, &o).unwrap()).collect();
        assert_eq!(in_turn, Ok(each));
    }
}

#[test]
fn both_paths_render_the_same_document() {
    for n in [3usize, 50, 77] {
        for table_style in [TableStyle::Markdown, TableStyle::StyledHtml] {
            let doc = document(mixed(n));
            let parallel = MarkdownOptions { table_style, ..options(true, true) };
            let in_turn = MarkdownOptions { table_style, ..options(false, true) };
            let a = doc.to_markdown_with_options(&parallel);
            assert!(a.is_ok());
            assert_eq!(a, doc.to_markdown_with_options(&in_turn));
        }
    }
}

#[test]
fn both_paths_hand_on_the_first_error() {
    let mut elements = mixed(80);
    elements[60] = failing("sixty");
    elements[33] = failing("thirty-three");
    elements[70] = DocumentElement::Table(Table { rows: Err(boom()) });
    let o = options(true, false);
    assert_eq!(render_elements_in_turn(&elements, &o), Err(Error::Other("thirty-three".to_string())));
    assert_eq!(render_elements_in_parallel(&elements, &o), Err(Error::Other("thirty-three".to_string())));
    let doc = document(elements);
    assert_eq!(doc.to_markdown_with_options(&options(true, false)), Err(Error::Other("thirty-three".to_string())));
    assert_eq!(doc.to_markdown_with_options(&options(false, false)), Err(Error::Other("thirty-three".to_string())));
}

#[test]
fn metadata_errors_come_first() {
    let mut doc = document(vec![failing("element")]);
    doc.metadata = Err(Error::Other("metadata".to_string()));
    assert_eq!(doc.to_markdown_with_options(&options(true, true)), Err(Error::Other("metadata".to_string())));
    assert_eq!(doc.to_markdown_with_options(&options(true, false)), Err(Error::Other("element".to_string())));
    doc.metadata = Ok(Metadata { front_matter: Err("no yaml".to_string()) });
    assert_eq!(
        doc.to_markdown_with_options(&options(true, true)),
        Err(Error::Other("Failed to generate YAML front matter: no yaml".to_string()))
    );
    doc.elements = Err(boom());
    doc.metadata = Ok(Metadata { front_matter: Ok(String::new()) });
    assert_eq!(doc.to_markdown_with_options(&options(true, true)), Err(boom()));
}

#[test]
fn write_metadata_writes_the_front_matter_if_asked() {
    let metadata = Metadata { front_matter: Ok("---\na: 1\n---\n".to_string()) };
    let mut writer = MarkdownWriter::new(options(false, true));
    assert_eq!(writer.write_metadata(&metadata), Ok(()));
    assert_eq!(writer.write_metadata(&Metadata { front_matter: Ok(String::new()) }), Ok(()));
    assert_eq!(
        writer.write_metadata(&Metadata { front_matter: Err("e".to_string()) }),
        Err(Error::Other("Failed to generate YAML front matter: e".to_string()))
    );
    assert_eq!(writer.finish(), "---\na: 1\n---\n");
    let mut writer = MarkdownWriter::new(options(false, false));
    assert_eq!(writer.write_metadata(&metadata), Ok(()));
    assert_eq!(writer.write_metadata(&Metadata { front_matter: Err("e".to_string()) }), Ok(()));
    assert_eq!(writer.finish(), "");
}

#[test]
fn element_on_its_own_is_what_one_writer_writes_for_it() {
    let o = options(false, false);
    let e = para(vec![run("x", true)]);
    assert_eq!(render_element(&e, &o), Ok("**x**\n\n".to_string()));
    assert_eq!(render_element(&formulas(2), &o), Ok("\\[x_0\\]\n\\[x_1\\]\n\n\n".to_string()));
    assert_eq!(render_element(&failing("f"), &o), Err(Error::Other("f".to_string())));
    let mut bad = DocxRun {
        text: Ok("t".to_string()),
        bold: Ok(None),
        italic: Err(boom()),
        strikethrough: Ok(None),
        vertical_position: Ok(None),
        formula: Ok(None),
    };
    assert_eq!(render_element(&para_with(vec![run("a", true), Run::Docx(bad.clone())]), &o), Err(boom()));
    bad.italic = Ok(Some(true));
    assert_eq!(render_element(&para_with(vec![run("a", true), Run::Docx(bad)]), &o), Ok("**a***t*\n\n".to_string()));
}

fn para_with(runs: Vec<Run>) -> DocumentElement {
    DocumentElement::Paragraph(Paragraph { text: Ok("at".to_string()), runs: Ok(runs), display_formulas: Ok(Vec::new()) })
}

#[test]
fn renderable_documents() {
    let too_wide = DocumentElement::Table(Table {
        rows: Ok(vec![Row {
            cells: Ok(vec![
                Cell { text: Ok(String::new()), grid_span: Ok(usize::MAX), v_merge: Ok(None) },
                Cell { text: Ok(String::new()), grid_span: Ok(1), v_merge: Ok(None) },
            ]),
        }]),
    });
    assert!(elements_are_renderable(&mixed(20)));
    assert!(!elements_are_renderable(&vec![table(2), too_wide.clone()]));
    let o = MarkdownOptions::default();
    assert!(o.is_valid());
    assert!(document_is_renderable(&document(mixed(5)), &o));
    assert!(!document_is_renderable(&document(vec![too_wide]), &o));
    let no_indent = MarkdownOptions { list_indent: 0, ..o };
    assert!(!no_indent.is_valid());
    assert!(!document_is_renderable(&document(Vec::new()), &no_indent));
    let mut unread = document(Vec::new());
    unread.elements = Err(boom());
    assert!(document_is_renderable(&unread, &o));
}

#[test]
fn default_options() {
    let o = MarkdownOptions::default();
    assert!(o.include_metadata && o.include_styles && o.use_parallel);
    assert_eq!(o.table_style, TableStyle::Markdown);
    assert_eq!(o.list_indent, 2);
    assert_eq!(o.html_table_indent, 2);
}
