use litchi::common::MathPayload;
use litchi::document::paragraph::Paragraph;
use litchi::document::run::{DocxRun, RtfRun, Run};
use litchi::error::Error;
use litchi::markdown::list::detect_list_item;
use litchi::markdown::traits::ToMarkdown;
use litchi::markdown::writer::MarkdownWriter;
use litchi::markdown::config::{FormulaStyle, MarkdownOptions};

fn plain(text: &str) -> Run {
    styled(text, false, false)
}

fn styled(text: &str, bold: bool, italic: bool) -> Run {
    Run::Rtf(RtfRun {
        text: text.to_string(),
        bold: Some(bold),
        italic: Some(italic),
        strikethrough: None,
        vertical_position: None,
    })
}

fn para_of_runs(runs: Vec<Run>) -> Paragraph {
    let text: String = runs.iter().map(|r| r.text().unwrap()).collect();
    Paragraph { text: Ok(text), runs: Ok(runs), display_formulas: Ok(Vec::new()) }
}

fn para_of_text(text: &str) -> Paragraph {
    Paragraph { text: Ok(text.to_string()), runs: Ok(Vec::new()), display_formulas: Ok(Vec::new()) }
}

fn with_styles() -> MarkdownOptions {
    MarkdownOptions { include_styles: true, ..MarkdownOptions::default() }
}

fn without_styles() -> MarkdownOptions {
    MarkdownOptions { include_styles: false, ..MarkdownOptions::default() }
}

fn written(para: &Paragraph, options: MarkdownOptions) -> String {
    let mut writer = MarkdownWriter::new(options);
    writer.write_paragraph(para).unwrap();
    writer.finish()
}

fn boom() -> Error {
    Error::Other("boom".to_string())
}

#[test]
fn hello_bold_world() {
    let para = para_of_runs(vec![plain("Hello "), styled("world", true, false), plain("!")]);
    assert_eq!(written(&para, with_styles()), "Hello **world**!\n\n");
}

#[test]
fn open_markers_are_closed_at_the_end_of_the_paragraph() {
    let para = para_of_runs(vec![plain("a "), styled("b", true, true)]);
    let mut writer = MarkdownWriter::new(with_styles());
    writer.write_paragraph(&para).unwrap();
    let state = writer.state();
    assert!(!state.bold && !state.italic && !state.strikethrough);
    assert_eq!(writer.finish(), "a ***b***\n\n");
}

#[test]
fn without_styles_the_text_is_written() {
    let para = para_of_runs(vec![plain("Hello "), styled("world", true, false)]);
    assert_eq!(written(&para, without_styles()), "Hello world\n\n");
}

#[test]
fn paragraph_without_runs_is_written_from_its_text() {
    assert_eq!(written(&para_of_text("direct text"), with_styles()), "direct text\n\n");
    assert_eq!(written(&para_of_text(""), with_styles()), "\n\n");
    assert_eq!(written(&para_of_text("  - item"), with_styles()), "  - item\n\n");
}

#[test]
fn plain_list_items() {
    assert_eq!(written(&para_of_text("1) First"), without_styles()), "1. First\n\n");
    assert_eq!(written(&para_of_text("(12) Twelfth"), without_styles()), "12. Twelfth\n\n");
    assert_eq!(written(&para_of_text("* star"), without_styles()), "- star\n\n");
    assert_eq!(written(&para_of_text("    \u{2022}  deep"), without_styles()), "    - deep\n\n");
    assert_eq!(written(&para_of_text("   - odd indent"), without_styles()), "  - odd indent\n\n");
    let wide = MarkdownOptions { list_indent: 4, include_styles: false, ..MarkdownOptions::default() };
    assert_eq!(written(&para_of_text("         1. x"), wide), "        1. x\n\n");
}

#[test]
fn list_item_from_runs_leaves_the_marker_out() {
    let para = para_of_runs(vec![plain("1) "), styled("First", true, false)]);
    assert_eq!(written(&para, with_styles()), "1. **First**\n\n");
    let para = para_of_runs(vec![plain("(1)"), plain(" "), styled("First", false, true)]);
    assert_eq!(written(&para, with_styles()), "1. *First*\n\n");
}

#[test]
fn run_that_the_content_starts_in_keeps_its_formatting() {
    let para = para_of_runs(vec![styled("- item", true, false), styled(" more", true, false)]);
    assert_eq!(written(&para, with_styles()), "- **item more**\n\n");
    let para = para_of_runs(vec![styled("\u{2022} \u{e9}t\u{e9}", false, true)]);
    assert_eq!(written(&para, with_styles()), "- *\u{e9}t\u{e9}*\n\n");
    let para = para_of_runs(vec![styled("(3)", true, true), styled(" c", false, false)]);
    assert_eq!(written(&para, with_styles()), "3. c\n\n");
}

#[test]
fn indented_list_item_is_written_once_from_runs() {
    let para = para_of_runs(vec![plain("  "), plain("- item")]);
    let info = detect_list_item("  - item", 2).unwrap();
    assert_eq!(info.level, 1);
    assert_eq!(written(&para, with_styles()), "  - item\n\n");
    let para = para_of_runs(vec![plain("  - item")]);
    assert_eq!(written(&para, with_styles()), "  - item\n\n");
    assert_eq!(written(&para, with_styles()), written(&para, without_styles()));
    let para = para_of_runs(vec![plain("    -  "), plain(" it"), styled("em", true, false)]);
    assert_eq!(written(&para, with_styles()), "    - it**em**\n\n");
    assert_eq!(written(&para, without_styles()), "    - item\n\n");
}

#[test]
fn empty_runs_before_the_end_of_the_marker_are_left_out() {
    let mut formula = docx("");
    formula.formula = Ok(Some(MathPayload::Latex("x".to_string())));
    let para = Paragraph {
        text: Ok("- a".to_string()),
        runs: Ok(vec![plain("- "), Run::Docx(formula.clone()), plain("a"), Run::Docx(formula)]),
        display_formulas: Ok(Vec::new()),
    };
    assert_eq!(written(&para, with_styles()), "- a\\(x\\)\n\n");
}

fn docx(text: &str) -> DocxRun {
    DocxRun {
        text: Ok(text.to_string()),
        bold: Ok(None),
        italic: Ok(None),
        strikethrough: Ok(None),
        vertical_position: Ok(None),
        formula: Ok(None),
    }
}

#[test]
fn display_formulas_follow_the_text_each_on_its_own_line() {
    let para = Paragraph {
        text: Ok("Area".to_string()),
        runs: Ok(vec![styled("Area", true, false), plain("  ")]),
        display_formulas: Ok(vec![
            MathPayload::Latex("a^2".to_string()),
            MathPayload::ConversionFailed,
        ]),
    };
    assert_eq!(written(&para, with_styles()), "Area\n\\[a^2\\]\n\\[[Formula conversion error]\\]\n\n\n");
    let dollar = MarkdownOptions { formula_style: FormulaStyle::Dollar, ..MarkdownOptions::default() };
    assert_eq!(written(&para, dollar), "Area\n$$a^2$$\n$$[Formula conversion error]$$\n\n\n");
}

#[test]
fn display_formulas_without_text_start_the_paragraph() {
    let para = Paragraph {
        text: Ok(String::new()),
        runs: Ok(vec![plain(" ")]),
        display_formulas: Ok(vec![MathPayload::Latex("e".to_string())]),
    };
    assert_eq!(written(&para, with_styles()), "\\[e\\]\n\n\n");
    let mut writer = MarkdownWriter::new(with_styles());
    writer.push_str("no line feed");
    writer.write_paragraph(&para).unwrap();
    assert_eq!(writer.finish(), "no line feed\\[e\\]\n\n\n");
}

#[test]
fn text_that_ends_in_a_line_feed_gets_no_other() {
    let para = Paragraph {
        text: Ok("t\n".to_string()),
        runs: Ok(vec![plain("t\n")]),
        display_formulas: Ok(vec![MathPayload::Unsupported]),
    };
    assert_eq!(written(&para, with_styles()), "t\n\\[[Formula support disabled]\\]\n\n\n");
}

#[test]
fn errors_of_a_paragraph_are_handed_on() {
    let mut writer = MarkdownWriter::new(with_styles());
    let mut para = para_of_text("t");
    para.text = Err(Error::Other("text".to_string()));
    assert_eq!(writer.write_paragraph(&para), Err(Error::Other("text".to_string())));
    para.runs = Err(Error::Other("runs".to_string()));
    assert_eq!(writer.write_paragraph(&para), Err(Error::Other("runs".to_string())));
    para.display_formulas = Err(Error::Other("formulas".to_string()));
    assert_eq!(writer.write_paragraph(&para), Err(Error::Other("formulas".to_string())));
    assert_eq!(writer.finish(), "");
    let mut writer = MarkdownWriter::new(without_styles());
    let mut para = para_of_text("t");
    para.runs = Err(Error::Other("runs".to_string()));
    assert_eq!(writer.write_paragraph(&para), Ok(()));
    assert_eq!(writer.finish(), "t\n\n");
}

#[test]
fn failing_run_text_stops_a_styled_paragraph_before_anything_is_written() {
    let mut bad = docx("x");
    bad.text = Err(boom());
    let para = Paragraph {
        text: Ok("ax".to_string()),
        runs: Ok(vec![plain("a"), Run::Docx(bad)]),
        display_formulas: Ok(Vec::new()),
    };
    let mut writer = MarkdownWriter::new(with_styles());
    assert_eq!(writer.write_paragraph(&para), Err(boom()));
    assert_eq!(writer.finish(), "");
}

#[test]
fn failing_run_property_stops_a_paragraph_after_the_runs_before_it() {
    let mut bad = docx("x");
    bad.bold = Err(boom());
    let para = para_of_runs(vec![styled("a", false, true), Run::Docx(bad), plain("z")]);
    let mut writer = MarkdownWriter::new(with_styles());
    assert_eq!(writer.write_paragraph(&para), Err(boom()));
    assert!(writer.state().italic);
    assert_eq!(writer.finish(), "*a");
}

#[test]
fn paragraph_to_markdown_has_no_white_space_at_its_end() {
    let para = para_of_runs(vec![plain("Hello "), styled("world", true, false), plain("! ")]);
    assert_eq!(para.to_markdown_with_options(&with_styles()), Ok("Hello **world**!".to_string()));
    let mut bad = para_of_text("t");
    bad.runs = Err(boom());
    assert_eq!(bad.to_markdown_with_options(&with_styles()), Err(boom()));
}

#[test]
fn extract_text_from_runs_joins_the_texts() {
    let writer = MarkdownWriter::new(with_styles());
    let runs = vec![plain("a"), styled("b", true, true), plain(""), plain("c")];
    assert_eq!(writer.extract_text_from_runs(&runs), Ok("abc".to_string()));
    assert_eq!(writer.extract_text_from_runs(&Vec::new()), Ok(String::new()));
    let mut bad = docx("x");
    bad.text = Err(boom());
    let mut worse = docx("y");
    worse.text = Err(Error::Other("later".to_string()));
    let runs = vec![plain("a"), Run::Docx(bad), Run::Docx(worse)];
    assert_eq!(writer.extract_text_from_runs(&runs), Err(boom()));
}

#[test]
fn write_list_item_writes_the_plain_item() {
    let mut writer = MarkdownWriter::new(MarkdownOptions { list_indent: 3, ..MarkdownOptions::default() });
    let info = detect_list_item("      2) two", 3).unwrap();
    writer.write_list_item(&info);
    assert_eq!(writer.finish(), "      2. two");
}
