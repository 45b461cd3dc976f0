use litchi::common::Metadata;
use litchi::error::Error;
use litchi::markdown::presentation::{
    first_line_of, render_slide, render_slides_in_parallel, render_slides_in_turn,
};
use litchi::markdown::traits::ToMarkdown;
use litchi::markdown::config::MarkdownOptions;
use litchi::presentation::{Presentation, Slide, SlideText};

fn slide(number: usize, text: &str) -> SlideText {
    SlideText { number, text: text.to_string() }
}

fn slides(n: usize) -> Vec<SlideText> {
    (0..n)
        .map(|i| match i % 4 {
            0 => slide(i + 1, &format!("Title {}\nBody | of {}\n", i, i)),
            1 => slide(i + 1, ""),
            2 => slide(i + 1, &format!("\nno title {}", i)),
            _ => slide(i + 1, &format!("Windows {}\r\nline", i)),
        })
        .collect()
}

fn presentation(slide_texts: Vec<SlideText>) -> Presentation {
    Presentation {
        metadata: Ok(Some(Metadata { front_matter: Ok("---\ntitle: Deck\n---\n\n".to_string()) })),
        slide_texts: Ok(slide_texts),
    }
}

fn options(use_parallel: bool, include_metadata: bool) -> MarkdownOptions {
    MarkdownOptions { use_parallel, include_metadata, ..MarkdownOptions::default() }
}

fn boom() -> Error {
    Error::Other("boom".to_string())
}

#[test]
fn first_lines() {
    assert_eq!(first_line_of(""), "");
    assert_eq!(first_line_of("one"), "one");
    assert_eq!(first_line_of("one\ntwo\nthree"), "one");
    assert_eq!(first_line_of("one\r\ntwo"), "one");
    assert_eq!(first_line_of("one\r"), "one\r");
    assert_eq!(first_line_of("one\r\r\ntwo"), "one\r");
    assert_eq!(first_line_of("\ntwo"), "");
    assert_eq!(first_line_of("\r\ntwo"), "");
    assert_eq!(first_line_of("a\rb\nc"), "a\rb");
    assert_eq!(first_line_of("\u{e9}t\u{e9}\n"), "\u{e9}t\u{e9}");
    for text in ["", "a", "a\n", "a\r\n", "\n", "\r", "\r\n", "a\r", "a\n\r\n", "\r\r\n", "x\u{2028}y\nz"] {
        assert_eq!(first_line_of(text), text.lines().next().unwrap_or(""));
    }
}

#[test]
fn slide_is_header_and_text() {
    let o = MarkdownOptions::default();
    assert_eq!(render_slide(&slide(3, "Title\nBody"), &o), "# Slide 3 Title\n\nTitle\nBody\n\n");
    assert_eq!(render_slide(&slide(12, ""), &o), "# Slide 12\n\n");
    assert_eq!(render_slide(&slide(0, "\nBody"), &o), "# Slide 0\n\n\nBody\n\n");
    assert_eq!(render_slide(&slide(1, "T\r\nB"), &o), "# Slide 1 T\n\nT\r\nB\n\n");
}

#[test]
fn slides_are_parted_by_a_rule() {
    let o = MarkdownOptions::default();
    assert_eq!(render_slides_in_turn(&Vec::new(), &o), "");
    assert_eq!(render_slides_in_turn(&vec![slide(1, "A")], &o), "# Slide 1 A\n\nA\n\n");
    assert_eq!(
        render_slides_in_turn(&vec![slide(1, "A"), slide(2, ""), slide(3, "C")], &o),
        "# Slide 1 A\n\nA\n\n\n\n---\n\n# Slide 2\n\n\n\n---\n\n# Slide 3 C\n\nC\n\n"
    );
}

#[test]
fn both_paths_render_the_same_slides() {
    let o = MarkdownOptions::default();
    for n in [0usize, 1, 2, 9, 10, 11, 37] {
        let s = slides(n);
        let in_turn = render_slides_in_turn(&s, &o);
        assert_eq!(in_turn, render_slides_in_parallel(&s, &o));
        let each: Vec<String> = s.iter().map(|x| render_slide(x, &o)).collect();
        assert_eq!(in_turn, each.join("\n\n---\n\n"));
    }
}

#[test]
fn both_paths_render_the_same_presentation() {
    for n in [2usize, 10, 25] {
        let p = presentation(slides(n));
        let a = p.to_markdown_with_options(&options(true, true));
        assert!(a.is_ok());
        assert_eq!(a, p.to_markdown_with_options(&options(false, true)));
        assert!(a.unwrap().starts_with("---\ntitle: Deck\n---\n\n# Slide 1 Title 0\n\n"));
    }
}

#[test]
fn presentation_metadata() {
    let mut p = presentation(vec![slide(1, "A")]);
    assert_eq!(p.to_markdown_with_options(&options(true, false)), Ok("# Slide 1 A\n\nA\n\n".to_string()));
    p.metadata = Ok(None);
    assert_eq!(p.to_markdown_with_options(&options(true, true)), Ok("# Slide 1 A\n\nA\n\n".to_string()));
    p.metadata = Err(boom());
    assert_eq!(p.to_markdown_with_options(&options(true, true)), Err(boom()));
    assert_eq!(p.to_markdown_with_options(&options(true, false)), Ok("# Slide 1 A\n\nA\n\n".to_string()));
    p.metadata = Ok(Some(Metadata { front_matter: Err("bad".to_string()) }));
    assert_eq!(
        p.to_markdown_with_options(&options(true, true)),
        Err(Error::Other("Failed to generate YAML front matter: bad".to_string()))
    );
    p.metadata = Ok(None);
    p.slide_texts = Err(Error::ParseError("slides".to_string()));
    assert_eq!(p.to_markdown_with_options(&options(true, true)), Err(Error::ParseError("slides".to_string())));
}

#[test]
fn slide_on_its_own_is_its_text() {
    let o = MarkdownOptions::default();
    assert_eq!(Slide { text: Ok("Title\nBody".to_string()) }.to_markdown_with_options(&o), Ok("Title\nBody".to_string()));
    assert_eq!(Slide { text: Err(boom()) }.to_markdown_with_options(&o), Err(boom()));
}
