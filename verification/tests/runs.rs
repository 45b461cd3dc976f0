use litchi::common::{MathPayload, VerticalPosition};
use litchi::document::run::{DocRun, DocxRun, OdtRun, RtfRun, Run};
use litchi::error::{Error, ErrorKind};
use litchi::markdown::formula::format_formula;
use litchi::markdown::traits::ToMarkdown;
use litchi::markdown::writer::MarkdownWriter;
use litchi::markdown::config::{FormulaStyle, MarkdownOptions, ScriptStyle, StrikethroughStyle};

fn rtf(text: &str, bold: bool, italic: bool, strikethrough: bool) -> Run {
    Run::Rtf(RtfRun {
        text: text.to_string(),
        bold: Some(bold),
        italic: Some(italic),
        strikethrough: Some(strikethrough),
        vertical_position: None,
    })
}

fn raised(text: &str, pos: VerticalPosition) -> Run {
    Run::Rtf(RtfRun {
        text: text.to_string(),
        bold: Some(true),
        italic: None,
        strikethrough: None,
        vertical_position: Some(pos),
    })
}

fn docx(text: &str) -> DocxRun {
    DocxRun {
        text: Ok(text.to_string()),
        bold: Ok(None),
        italic: Ok(None),
        strikethrough: Ok(None),
        vertical_position: Ok(None),
        formula: Ok(None),
    }
}

fn doc(text: &str) -> DocRun {
    DocRun {
        text: Ok(text.to_string()),
        bold: None,
        italic: None,
        strikethrough: None,
        vertical_position: VerticalPosition::Normal,
        formula: None,
    }
}

fn written(runs: &[Run], options: MarkdownOptions) -> String {
    let mut writer = MarkdownWriter::new(options);
    for run in runs {
        writer.write_run(run).unwrap();
    }
    writer.finish()
}

fn boom() -> Error {
    Error::Other("boom".to_string())
}

#[test]
fn getters_of_a_rich_text_run() {
    let run = Run::Rtf(RtfRun {
        text: "abc".to_string(),
        bold: Some(true),
        italic: Some(false),
        strikethrough: None,
        vertical_position: Some(VerticalPosition::Normal),
    });
    assert_eq!(run.text(), Ok("abc".to_string()));
    assert_eq!(run.bold(), Ok(Some(true)));
    assert_eq!(run.italic(), Ok(Some(false)));
    assert_eq!(run.strikethrough(), Ok(None));
    assert_eq!(run.vertical_position(), Ok(None));
    assert_eq!(run.formula(), Ok(None));
}

#[test]
fn getters_of_a_pages_run() {
    let run = Run::Pages("text".to_string());
    assert_eq!(run.text(), Ok("text".to_string()));
    assert_eq!(run.bold(), Ok(None));
    assert_eq!(run.italic(), Ok(None));
    assert_eq!(run.strikethrough(), Ok(None));
    assert_eq!(run.vertical_position(), Ok(None));
    assert_eq!(run.formula(), Ok(None));
}

#[test]
fn normal_position_of_a_binary_run_is_none() {
    let mut r = doc("x");
    assert_eq!(Run::Doc(r.clone()).vertical_position(), Ok(None));
    r.vertical_position = VerticalPosition::Superscript;
    assert_eq!(Run::Doc(r.clone()).vertical_position(), Ok(Some(VerticalPosition::Superscript)));
    r.vertical_position = VerticalPosition::Subscript;
    assert_eq!(Run::Doc(r).vertical_position(), Ok(Some(VerticalPosition::Subscript)));
}

#[test]
fn normal_position_of_an_xml_run_is_none() {
    let mut r = docx("x");
    r.vertical_position = Ok(Some(VerticalPosition::Normal));
    assert_eq!(Run::Docx(r.clone()).vertical_position(), Ok(None));
    r.vertical_position = Ok(Some(VerticalPosition::Subscript));
    assert_eq!(Run::Docx(r.clone()).vertical_position(), Ok(Some(VerticalPosition::Subscript)));
    r.vertical_position = Ok(Some(VerticalPosition::Superscript));
    assert_eq!(Run::Docx(r.clone()).vertical_position(), Ok(Some(VerticalPosition::Superscript)));
    r.vertical_position = Err(boom());
    assert_eq!(Run::Docx(r).vertical_position(), Err(boom()));
}

#[test]
fn errors_of_an_xml_run_are_handed_on() {
    let mut r = docx("x");
    r.text = Err(Error::ParseError("bad xml".to_string()));
    r.bold = Err(boom());
    r.italic = Err(Error::Other("i".to_string()));
    r.strikethrough = Err(Error::Other("s".to_string()));
    r.formula = Err(Error::Other("f".to_string()));
    let run = Run::Docx(r);
    assert_eq!(run.text(), Err(Error::ParseError("bad xml".to_string())));
    assert_eq!(run.bold(), Err(boom()));
    assert_eq!(run.italic(), Err(Error::Other("i".to_string())));
    assert_eq!(run.strikethrough(), Err(Error::Other("s".to_string())));
    assert_eq!(run.formula(), Err(Error::Other("f".to_string())));
}

#[test]
fn text_error_of_an_open_document_run_is_a_parse_error() {
    let run = Run::Odt(OdtRun {
        text: Err("missing span".to_string()),
        bold: Some(true),
        italic: None,
        strikethrough: None,
        vertical_position: None,
    });
    let e = run.text().unwrap_err();
    assert_eq!(e, Error::ParseError("Failed to get run text: missing span".to_string()));
    assert_eq!(e.kind(), ErrorKind::Parse);
    assert_eq!(e.message(), "Failed to get run text: missing span");
    assert_eq!(run.bold(), Ok(Some(true)));
}

#[test]
fn error_kinds_and_messages() {
    assert_eq!(boom().kind(), ErrorKind::Other);
    assert_eq!(boom().message(), "boom");
    assert_eq!(boom().clone(), boom());
}

#[test]
fn consecutive_bold_runs_share_one_pair_of_markers() {
    let runs = vec![
        rtf("a", true, false, false),
        rtf("b", true, false, false),
        rtf("c", true, false, false),
        rtf("d", false, false, false),
    ];
    assert_eq!(written(&runs, MarkdownOptions::default()), "**abc**d");
}

#[test]
fn markers_close_inner_first_and_open_outer_first() {
    let runs = vec![rtf("x", true, true, true), rtf("y", false, false, false)];
    assert_eq!(written(&runs, MarkdownOptions::default()), "***~~x~~***y");
    let runs = vec![rtf("x", true, true, false), rtf("y", false, true, true)];
    assert_eq!(written(&runs, MarkdownOptions::default()), "***x**~~y");
}

#[test]
fn close_formatting_closes_what_is_open() {
    let mut writer = MarkdownWriter::new(MarkdownOptions::default());
    writer.apply_formatting(true, true, true);
    writer.push_str("x");
    writer.close_formatting();
    writer.close_formatting();
    assert_eq!(writer.finish(), "***~~x~~***");
}

#[test]
fn apply_formatting_writes_nothing_for_what_stays() {
    let mut writer = MarkdownWriter::new(MarkdownOptions::default());
    writer.apply_formatting(true, false, false);
    writer.apply_formatting(true, false, false);
    writer.apply_formatting(true, true, false);
    writer.apply_formatting(false, true, false);
    let state = writer.state();
    assert!(!state.bold && state.italic && !state.strikethrough);
    assert_eq!(writer.finish(), "*****");
}

#[test]
fn run_without_text_writes_nothing() {
    let runs = vec![rtf("", true, true, true)];
    assert_eq!(written(&runs, MarkdownOptions::default()), "");
}

#[test]
fn unset_flags_are_off() {
    let run = Run::Rtf(RtfRun {
        text: "t".to_string(),
        bold: None,
        italic: None,
        strikethrough: None,
        vertical_position: None,
    });
    assert_eq!(written(&[run], MarkdownOptions::default()), "t");
}

#[test]
fn superscript_and_subscript_in_html_style() {
    let options = MarkdownOptions { script_style: ScriptStyle::Html, ..MarkdownOptions::default() };
    assert_eq!(written(&[raised("2", VerticalPosition::Superscript)], options), "<sup>2</sup>");
    assert_eq!(written(&[raised("2", VerticalPosition::Subscript)], options), "<sub>2</sub>");
    assert_eq!(written(&[raised("2", VerticalPosition::Normal)], options), "**2");
}

#[test]
fn superscript_and_subscript_in_unicode_style() {
    let options = MarkdownOptions { script_style: ScriptStyle::Unicode, ..MarkdownOptions::default() };
    assert_eq!(written(&[raised("2n+1", VerticalPosition::Superscript)], options), "\u{b2}\u{207f}\u{207a}\u{b9}");
    assert_eq!(written(&[raised("2x", VerticalPosition::Subscript)], options), "\u{2082}\u{2093}");
    assert_eq!(written(&[raised("xyz", VerticalPosition::Superscript)], options), "<sup>xyz</sup>");
    assert_eq!(written(&[raised("i", VerticalPosition::Subscript)], options), "<sub>i</sub>");
    assert_eq!(written(&[raised("a b", VerticalPosition::Normal)], options), "**a b");
}

#[test]
fn vertical_position_leaves_open_markers_as_they_are() {
    let runs = vec![
        rtf("a", true, false, false),
        raised("2", VerticalPosition::Superscript),
        rtf("b", true, false, false),
        rtf("c", false, false, false),
    ];
    assert_eq!(written(&runs, MarkdownOptions::default()), "**a<sup>2</sup>b**c");
}

#[test]
fn html_strikethrough_is_a_unit_of_its_own() {
    let options = MarkdownOptions {
        strikethrough_style: StrikethroughStyle::Html,
        ..MarkdownOptions::default()
    };
    assert_eq!(written(&[rtf("x", false, false, true)], options), "<del>x</del>");
    assert_eq!(written(&[rtf("x", true, false, true)], options), "<del>**x**</del>");
    assert_eq!(written(&[rtf("x", false, true, true)], options), "<del>*x*</del>");
    assert_eq!(written(&[rtf("x", true, true, true)], options), "<del>***x***</del>");
    let runs = vec![rtf("a", true, false, false), rtf("b", true, false, true), rtf("c", true, false, false)];
    assert_eq!(written(&runs, options), "**a**<del>**b**</del>**c");
}

#[test]
fn markdown_strikethrough_uses_tildes() {
    let runs = vec![rtf("a", false, false, true), rtf("b", false, false, false)];
    assert_eq!(written(&runs, MarkdownOptions::default()), "~~a~~b");
}

#[test]
fn inline_formula_in_both_styles() {
    let mut r = docx("ignored");
    r.formula = Ok(Some(MathPayload::Latex("x^2".to_string())));
    let run = Run::Docx(r);
    let latex = MarkdownOptions { formula_style: FormulaStyle::LaTeX, ..MarkdownOptions::default() };
    let dollar = MarkdownOptions { formula_style: FormulaStyle::Dollar, ..MarkdownOptions::default() };
    assert_eq!(written(&[run.clone()], latex), "\\(x^2\\)");
    assert_eq!(written(&[run], dollar), "$x^2$");
}

#[test]
fn formula_placeholders() {
    let options = MarkdownOptions { formula_style: FormulaStyle::Dollar, ..MarkdownOptions::default() };
    let mut r = doc("");
    r.formula = Some(MathPayload::ConversionFailed);
    assert_eq!(written(&[Run::Doc(r.clone())], options), "$[Formula conversion error]$");
    r.formula = Some(MathPayload::Unreadable);
    assert_eq!(written(&[Run::Doc(r.clone())], options), "$[Formula]$");
    r.formula = Some(MathPayload::Unsupported);
    assert_eq!(written(&[Run::Doc(r)], options), "$[Formula support disabled]$");
}

#[test]
fn extract_formula_from_run_gives_the_markdown() {
    let writer = MarkdownWriter::new(MarkdownOptions::default());
    let mut r = docx("t");
    assert_eq!(writer.extract_formula_from_run(&Run::Docx(r.clone())), Ok(None));
    r.formula = Ok(Some(MathPayload::Latex("a+b".to_string())));
    assert_eq!(writer.extract_formula_from_run(&Run::Docx(r.clone())), Ok(Some("\\(a+b\\)".to_string())));
    r.formula = Err(boom());
    assert_eq!(writer.extract_formula_from_run(&Run::Docx(r)), Err(boom()));
    assert_eq!(writer.extract_formula_from_run(&rtf("t", false, false, false)), Ok(None));
}

#[test]
fn write_run_stops_at_the_first_error_in_reading_order() {
    let mut r = docx("t");
    r.bold = Err(Error::Other("bold".to_string()));
    r.italic = Err(Error::Other("italic".to_string()));
    let mut writer = MarkdownWriter::new(MarkdownOptions::default());
    writer.push_str("before");
    assert_eq!(writer.write_run(&Run::Docx(r.clone())), Err(Error::Other("bold".to_string())));
    r.text = Err(Error::Other("text".to_string()));
    assert_eq!(writer.write_run(&Run::Docx(r.clone())), Err(Error::Other("text".to_string())));
    r.formula = Err(Error::Other("formula".to_string()));
    assert_eq!(writer.write_run(&Run::Docx(r)), Err(Error::Other("formula".to_string())));
    assert_eq!(writer.finish(), "before");
}

#[test]
fn empty_text_is_not_asked_for_its_formatting() {
    let mut r = docx("");
    r.bold = Err(boom());
    let mut writer = MarkdownWriter::new(MarkdownOptions::default());
    assert_eq!(writer.write_run(&Run::Docx(r)), Ok(()));
    assert_eq!(writer.finish(), "");
}

#[test]
fn write_runs_keeps_what_was_written_before_an_error() {
    let mut bad = docx("t");
    bad.italic = Err(boom());
    let runs = vec![rtf("a", true, false, false), Run::Docx(bad), rtf("never", false, false, false)];
    let mut writer = MarkdownWriter::new(MarkdownOptions::default());
    assert_eq!(writer.write_runs(&runs), Err(boom()));
    assert!(writer.state().bold);
    assert_eq!(writer.finish(), "**a");
}

#[test]
fn run_to_markdown_leaves_markers_open() {
    let run = rtf("b", true, false, false);
    assert_eq!(run.to_markdown_with_options(&MarkdownOptions::default()), Ok("**b".to_string()));
}

#[test]
fn write_run_with_properties_writes_a_fragment() {
    let mut writer = MarkdownWriter::new(MarkdownOptions::default());
    assert_eq!(writer.write_run_with_properties("a".to_string(), true, true, false, None), Ok(()));
    assert_eq!(
        writer.write_run_with_properties("2".to_string(), false, false, false, Some(VerticalPosition::Subscript)),
        Ok(())
    );
    assert_eq!(writer.write_run_with_properties("b".to_string(), false, false, false, None), Ok(()));
    assert_eq!(writer.finish(), "***a<sub>2</sub>***b");
}

#[test]
fn normal_position_goes_through_the_markers() {
    let mut writer = MarkdownWriter::new(MarkdownOptions::default());
    assert_eq!(
        writer.write_run_with_properties("x".to_string(), true, false, false, Some(VerticalPosition::Normal)),
        Ok(())
    );
    assert!(writer.state().bold);
    assert_eq!(writer.finish(), "**x");
}

#[test]
fn no_run_reports_a_normal_position() {
    for pos in [None, Some(VerticalPosition::Normal)] {
        let rtf = Run::Rtf(RtfRun {
            text: "t".to_string(),
            bold: None,
            italic: None,
            strikethrough: None,
            vertical_position: pos,
        });
        assert_eq!(rtf.vertical_position(), Ok(None));
        let odt = Run::Odt(OdtRun {
            text: Ok("t".to_string()),
            bold: None,
            italic: None,
            strikethrough: None,
            vertical_position: pos,
        });
        assert_eq!(odt.vertical_position(), Ok(None));
    }
    let odt = Run::Odt(OdtRun {
        text: Ok("t".to_string()),
        bold: None,
        italic: None,
        strikethrough: None,
        vertical_position: Some(VerticalPosition::Subscript),
    });
    assert_eq!(odt.vertical_position(), Ok(Some(VerticalPosition::Subscript)));
}

#[test]
fn write_run_from_leaves_characters_out() {
    let mut writer = MarkdownWriter::new(MarkdownOptions::default());
    assert_eq!(writer.write_run_from(&rtf("\u{e9}bc", true, false, false), 1), Ok(()));
    assert_eq!(writer.write_run_from(&rtf("xyz", true, false, false), 3), Ok(()));
    assert_eq!(writer.write_run_from(&rtf("xyz", false, true, false), 9), Ok(()));
    assert_eq!(writer.write_run_from(&rtf("d", false, false, false), 0), Ok(()));
    assert_eq!(writer.finish(), "**bc**d");
}

#[test]
fn push_reserve_and_options() {
    let options = MarkdownOptions { list_indent: 4, ..MarkdownOptions::default() };
    let mut writer = MarkdownWriter::new(options);
    writer.push_str("ab");
    writer.reserve(1000);
    writer.push('\u{e9}');
    writer.reserve(usize::MAX);
    writer.push('!');
    assert_eq!(writer.options(), options);
    assert_eq!(writer.finish(), "ab\u{e9}!");
}

#[test]
fn format_formula_puts_the_delimiters_around() {
    assert_eq!(format_formula("a", true, FormulaStyle::LaTeX), "\\(a\\)");
    assert_eq!(format_formula("a", false, FormulaStyle::LaTeX), "\\[a\\]");
    assert_eq!(format_formula("a", true, FormulaStyle::Dollar), "$a$");
    assert_eq!(format_formula("", false, FormulaStyle::Dollar), "$$$$");
}
