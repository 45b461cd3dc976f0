use litchi::markdown::escape::{escape_html_to_buffer, escape_markdown_to_buffer, find_first_of, split_at_first};

fn markdown_escaped(text: &str) -> String {
    let mut buffer = String::new();
    escape_markdown_to_buffer(&mut buffer, text);
    buffer
}

fn html_escaped(text: &str) -> String {
    let mut buffer = String::new();
    escape_html_to_buffer(&mut buffer, text);
    buffer
}

#[test]
fn markdown_escapes_pipe_and_line_feed() {
    assert_eq!(markdown_escaped("a|b\nc"), "a\\|b c");
}

#[test]
fn html_escapes_entities_and_line_feed() {
    assert_eq!(html_escaped("a&b<c>d\n"), "a&amp;b&lt;c&gt;d<br>");
}

#[test]
fn text_without_trigger_characters_is_unchanged() {
    assert_eq!(markdown_escaped("plain text, with & < > but no pipe"), "plain text, with & < > but no pipe");
    assert_eq!(html_escaped("plain | text"), "plain | text");
    assert_eq!(markdown_escaped(""), "");
    assert_eq!(html_escaped(""), "");
}

#[test]
fn escaping_appends_to_what_the_buffer_holds() {
    let mut buffer = String::from("x=");
    escape_markdown_to_buffer(&mut buffer, "|");
    escape_html_to_buffer(&mut buffer, "<");
    assert_eq!(buffer, "x=\\|&lt;");
}

#[test]
fn escaping_keeps_characters_of_several_bytes() {
    assert_eq!(markdown_escaped("\u{e9}|\u{4e2d}\n\u{1f600}"), "\u{e9}\\|\u{4e2d} \u{1f600}");
    assert_eq!(html_escaped("\u{e9}&\u{4e2d}>\u{1f600}"), "\u{e9}&amp;\u{4e2d}&gt;\u{1f600}");
}

#[test]
fn adjacent_trigger_characters_are_each_escaped() {
    assert_eq!(markdown_escaped("||\n\n"), "\\|\\|  ");
    assert_eq!(html_escaped("<<>>&&"), "&lt;&lt;&gt;&gt;&amp;&amp;");
}

#[test]
fn first_of_several_needles_is_found() {
    assert_eq!(find_first_of(b"hello|world\n", &[b'\n', b'|']), Some(5));
    assert_eq!(find_first_of(b"hello\nworld|", &[b'\n', b'|']), Some(5));
    assert_eq!(find_first_of(b"hello", &[b'\n', b'|']), None);
    assert_eq!(find_first_of(b"", &[b'|']), None);
    assert_eq!(find_first_of(b"abc", &[]), None);
}

#[test]
fn split_gives_the_parts_around_the_first_needle() {
    assert_eq!(split_at_first("ab|cd|e", &[b'|']), Some(("ab", b'|', "cd|e")));
    assert_eq!(split_at_first("|", &[b'|']), Some(("", b'|', "")));
    assert_eq!(split_at_first("abc", &[b'|']), None);
    assert_eq!(split_at_first("\u{e9}\n\u{e9}", &[b'\n']), Some(("\u{e9}", b'\n', "\u{e9}")));
}
