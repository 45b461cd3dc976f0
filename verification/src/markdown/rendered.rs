//! What the writer appends for a run, a paragraph or a table, as mathematical
//! functions of the element, the open markers and the options.

use vstd::prelude::*;
use crate::common::{MathPayload, Metadata, VerticalPosition};
use crate::document::paragraph::Paragraph;
use crate::document::run::Run;
use crate::document::table::Table;
use crate::error::{ErrorKind, ErrorView};
use crate::markdown::cells::{TableModel, table_model};
use crate::markdown::format::{FormatState, close_all, lemma_transition_to_same, transition};
use crate::markdown::formula::payload_markdown;
use crate::markdown::list::{list_item, list_item_prefix, plain_list_item};
use crate::markdown::spans::{has_merges, table_layout, widths_fit};
use crate::markdown::table::{html_table, markdown_table};
use crate::markdown::unicode::{can_convert, converted};
use crate::markdown::config::{MarkdownOptions, ScriptStyle, TableStyle};
use crate::parallel::all_or_first_error;
use crate::text::{concat, leading_whitespace, spaces};

verus! {

/// What a step of the writer does: the text that it appends, the markers that
/// are open after it, and the error that stopped it, if one did. A step that an
/// error stopped has appended what it had written until then.
pub struct Rendered {
    pub text: Seq<char>,
    pub state: FormatState,
    pub error: Option<ErrorView>,
}

impl Rendered {
    /// A step that appends nothing.
    pub open spec fn nothing(state: FormatState) -> Rendered {
        Rendered { text: Seq::empty(), state, error: None }
    }

    /// A step that appends `text` and leaves the markers of `state` open.
    pub open spec fn wrote(text: Seq<char>, state: FormatState) -> Rendered {
        Rendered { text, state, error: None }
    }

    /// A step that `error` stops before it appends anything.
    pub open spec fn failed(state: FormatState, error: ErrorView) -> Rendered {
        Rendered { text: Seq::empty(), state, error: Some(error) }
    }

    /// This step followed by `next`, which starts where this one ended. Where
    /// this step was stopped, `next` does not happen.
    pub open spec fn followed_by(self, next: Rendered) -> Rendered {
        if self.error is Some {
            self
        } else {
            Rendered { text: self.text + next.text, state: next.state, error: next.error }
        }
    }

    /// The text of a step that was not stopped, or the error that stopped it.
    pub open spec fn outcome(self) -> Result<Seq<char>, ErrorView> {
        match self.error {
            Some(e) => Err(e),
            None => Ok(self.text),
        }
    }
}

/// Text that stands above the baseline (`raised`) or below it. In the Unicode
/// style the text is written in superscript or subscript characters if every
/// character has such a form, else between tags like in the HTML style.
pub open spec fn script_markdown(text: Seq<char>, raised: bool, style: ScriptStyle) -> Seq<char> {
    if style is Unicode && can_convert(text, raised) {
        converted(text, raised)
    } else if raised {
        "<sup>"@ + text + "</sup>"@
    } else {
        "<sub>"@ + text + "</sub>"@
    }
}

/// Text between the markers of its own emphasis.
pub open spec fn emphasized(text: Seq<char>, bold: bool, italic: bool) -> Seq<char> {
    if bold && italic {
        "***"@ + text + "***"@
    } else if bold {
        "**"@ + text + "**"@
    } else if italic {
        "*"@ + text + "*"@
    } else {
        text
    }
}

/// Struck-through text as a unit of its own: the emphasis inside a `<del>` tag.
pub open spec fn struck_html(text: Seq<char>, bold: bool, italic: bool) -> Seq<char> {
    "<del>"@ + emphasized(text, bold, italic) + "</del>"@
}

/// A fragment of text on the baseline, with its formatting.
///
/// A struck-through fragment in the HTML style closes every open marker and is a
/// unit of its own. Any other fragment is written after the markers that lead from
/// the open ones to its own.
pub open spec fn marked_fragment(
    text: Seq<char>,
    want: FormatState,
    state: FormatState,
    options: MarkdownOptions,
) -> Rendered {
    if options.strikethrough_style is Html && want.strikethrough {
        Rendered::wrote(
            close_all(state) + struck_html(text, want.bold, want.italic),
            FormatState::plain(),
        )
    } else {
        Rendered::wrote(transition(state, want) + text, want)
    }
}

/// A fragment of text with its formatting.
///
/// A superscript or subscript fragment is a unit of its own and leaves the open
/// markers as they are; its other formatting is not written. A fragment on the
/// baseline, whether its position is normal or not given, goes through the
/// markers.
pub open spec fn styled_fragment(
    text: Seq<char>,
    want: FormatState,
    pos: Option<VerticalPosition>,
    state: FormatState,
    options: MarkdownOptions,
) -> Rendered {
    match pos {
        Some(VerticalPosition::Superscript) => Rendered::wrote(
            script_markdown(text, true, options.script_style),
            state,
        ),
        Some(VerticalPosition::Subscript) => Rendered::wrote(
            script_markdown(text, false, options.script_style),
            state,
        ),
        _ => marked_fragment(text, want, state, options),
    }
}

/// A tri-state flag as a flag: unset is off.
pub open spec fn flag(f: Option<bool>) -> bool {
    match f {
        Some(b) => b,
        None => false,
    }
}

/// The formatting of a run, or the first error of reading it, in the order bold,
/// italic, strikethrough, vertical position.
pub open spec fn run_format(run: Run) -> Result<
    (FormatState, Option<VerticalPosition>),
    ErrorView,
> {
    match run.spec_bold() {
        Err(e) => Err(e),
        Ok(bold) => match run.spec_italic() {
            Err(e) => Err(e),
            Ok(italic) => match run.spec_strikethrough() {
                Err(e) => Err(e),
                Ok(strikethrough) => match run.spec_vertical_position() {
                    Err(e) => Err(e),
                    Ok(pos) => Ok(
                        (
                            FormatState {
                                bold: flag(bold),
                                italic: flag(italic),
                                strikethrough: flag(strikethrough),
                            },
                            pos,
                        ),
                    ),
                },
            },
        },
    }
}

/// The text without its first `skip` characters; nothing where it has no more.
pub open spec fn rest_of(text: Seq<char>, skip: nat) -> Seq<char> {
    if skip == 0 {
        text
    } else if skip <= text.len() {
        text.skip(skip as int)
    } else {
        Seq::empty()
    }
}

/// What is written for a run without the first `skip` characters of its text.
///
/// A run with a formula is written as the formula, inline. A run of which no text
/// is left is not written. Any other run is written as a fragment with its
/// formatting. The first error of reading the formula, the text or the formatting
/// stops the run.
pub open spec fn run_step_from(
    run: Run,
    skip: nat,
    state: FormatState,
    options: MarkdownOptions,
) -> Rendered {
    match run.spec_formula() {
        Err(e) => Rendered::failed(state, e),
        Ok(Some(p)) => Rendered::wrote(payload_markdown(p, true, options.formula_style), state),
        Ok(None) => match run.spec_text() {
            Err(e) => Rendered::failed(state, e),
            Ok(text) => if rest_of(text, skip).len() == 0 {
                Rendered::nothing(state)
            } else {
                match run_format(run) {
                    Err(e) => Rendered::failed(state, e),
                    Ok((want, pos)) => styled_fragment(
                        rest_of(text, skip),
                        want,
                        pos,
                        state,
                        options,
                    ),
                }
            },
        },
    }
}

/// What is written for a run.
pub open spec fn run_step(run: Run, state: FormatState, options: MarkdownOptions) -> Rendered {
    run_step_from(run, 0, state, options)
}

/// What is written for runs, one after the other.
pub open spec fn runs_step(runs: Seq<Run>, state: FormatState, options: MarkdownOptions) -> Rendered
    decreases runs.len(),
{
    if runs.len() == 0 {
        Rendered::nothing(state)
    } else {
        let first = run_step(runs[0], state, options);
        first.followed_by(runs_step(runs.drop_first(), first.state, options))
    }
}

/// The texts of the runs, or the first error of reading one.
pub open spec fn run_texts(runs: Seq<Run>) -> Result<Seq<Seq<char>>, ErrorView> {
    all_or_first_error(runs.map_values(|r: Run| r.spec_text()))
}

/// The text of the runs together, or the first error of reading one.
pub open spec fn runs_text(runs: Seq<Run>) -> Result<Seq<char>, ErrorView> {
    match run_texts(runs) {
        Err(e) => Err(e),
        Ok(texts) => Ok(concat(texts)),
    }
}

/// The characters of a run that are left out of a list item, where `passed`
/// characters stand before the run and the content starts after `content_start`.
pub open spec fn left_out(passed: nat, content_start: nat) -> nat {
    if passed < content_start {
        (content_start - passed) as nat
    } else {
        0
    }
}

/// What is written for the runs of a list item after its marker.
///
/// The first `content_start` characters of the runs are the white space before
/// the marker, the marker and the white space after it, and are left out:
/// `passed` counts the characters of the runs before these. A run that ends
/// within them is left out. Any other run is written without those of its
/// characters that lie within them, with its formatting.
pub open spec fn list_runs_step(
    runs: Seq<Run>,
    passed: nat,
    content_start: nat,
    state: FormatState,
    options: MarkdownOptions,
) -> Rendered
    decreases runs.len(),
{
    if runs.len() == 0 {
        Rendered::nothing(state)
    } else {
        match runs[0].spec_text() {
            Err(e) => Rendered::failed(state, e),
            Ok(text) => {
                let rest = runs.drop_first();
                let after = passed + text.len();
                if after <= content_start {
                    list_runs_step(rest, after, content_start, state, options)
                } else {
                    let first = run_step_from(
                        runs[0],
                        left_out(passed, content_start),
                        state,
                        options,
                    );
                    first.followed_by(
                        list_runs_step(rest, after, content_start, first.state, options),
                    )
                }
            },
        }
    }
}

/// What is written for the runs of a list item from run `i` on is what is written
/// for run `i`, followed by what is written for the runs after it.
pub proof fn lemma_list_runs_step_at(
    runs: Seq<Run>,
    i: int,
    passed: nat,
    content_start: nat,
    state: FormatState,
    options: MarkdownOptions,
)
    requires
        0 <= i < runs.len(),
    ensures
        list_runs_step(runs.skip(i), passed, content_start, state, options) == match runs[i].spec_text() {
            Err(e) => Rendered::failed(state, e),
            Ok(text) => {
                let tail = runs.skip(i + 1);
                let after = passed + text.len();
                if after <= content_start {
                    list_runs_step(tail, after, content_start, state, options)
                } else {
                    let first = run_step_from(
                        runs[i],
                        left_out(passed, content_start),
                        state,
                        options,
                    );
                    first.followed_by(
                        list_runs_step(tail, after, content_start, first.state, options),
                    )
                }
            },
        },
{
    assert(runs.skip(i).drop_first() =~= runs.skip(i + 1));
    assert(runs.skip(i)[0] == runs[i]);
}

/// What is written for runs from run `i` on is what is written for run `i`,
/// followed by what is written for the runs after it.
pub proof fn lemma_runs_step_at(
    runs: Seq<Run>,
    i: int,
    state: FormatState,
    options: MarkdownOptions,
)
    requires
        0 <= i < runs.len(),
    ensures
        runs_step(runs.skip(i), state, options) == run_step(runs[i], state, options).followed_by(
            runs_step(runs.skip(i + 1), run_step(runs[i], state, options).state, options),
        ),
{
    assert(runs.skip(i).drop_first() =~= runs.skip(i + 1));
    assert(runs.skip(i)[0] == runs[i]);
}

/// A step that was not stopped, followed by a step: the texts one after the other,
/// and the markers and the error of the second.
pub proof fn lemma_progress(
    buffer: Seq<char>,
    done: Rendered,
    first: Rendered,
    rest: Rendered,
)
    requires
        done.error is None,
    ensures
        done.followed_by(first.followed_by(rest)) == done.followed_by(first).followed_by(rest),
        (buffer + done.text) + first.text == buffer + done.followed_by(first).text,
        done.followed_by(first).state == first.state,
        done.followed_by(first).error == first.error,
        first.error is Some ==> done.followed_by(first.followed_by(rest)) == done.followed_by(
            first,
        ),
{
    lemma_followed_by_assoc(done, first, rest);
    assert((buffer + done.text) + first.text =~= buffer + (done.text + first.text));
}

/// Text that is empty or white space only.
pub open spec fn is_blank(text: Seq<char>) -> bool {
    leading_whitespace(text) == text.len()
}

/// The texts of the runs that are not blank, one after the other, without their
/// formatting.
pub open spec fn raw_runs_step(runs: Seq<Run>, state: FormatState) -> Rendered
    decreases runs.len(),
{
    if runs.len() == 0 {
        Rendered::nothing(state)
    } else {
        match runs[0].spec_text() {
            Err(e) => Rendered::failed(state, e),
            Ok(text) => Rendered::wrote(
                if is_blank(text) {
                    Seq::empty()
                } else {
                    text
                },
                state,
            ).followed_by(raw_runs_step(runs.drop_first(), state)),
        }
    }
}

/// The display formulas, each on a line of its own.
pub open spec fn display_formulas_markdown(
    formulas: Seq<MathPayload>,
    options: MarkdownOptions,
) -> Seq<char> {
    concat(
        formulas.map_values(
            |p: MathPayload| payload_markdown(p, false, options.formula_style) + "\n"@,
        ),
    )
}

/// The line feed between the text of a paragraph and its display formulas: none
/// where there is no text or the text ends in one.
pub open spec fn line_break_after(text: Seq<char>) -> Seq<char> {
    if text.len() > 0 && text.last() != '\n' {
        "\n"@
    } else {
        Seq::empty()
    }
}

/// What is written for a paragraph with display formulas: the texts of its runs,
/// then the formulas, each on a line of its own.
pub open spec fn display_paragraph_step(
    para: Paragraph,
    formulas: Seq<MathPayload>,
    state: FormatState,
    options: MarkdownOptions,
) -> Rendered {
    match para.runs {
        Err(e) => Rendered::failed(state, e@),
        Ok(runs) => {
            let texts = raw_runs_step(runs@, state);
            texts.followed_by(
                Rendered::wrote(
                    line_break_after(texts.text) + display_formulas_markdown(formulas, options),
                    state,
                ),
            )
        },
    }
}

/// What is written for a paragraph from its text alone: a list item, or the text.
pub open spec fn plain_paragraph_step(
    para: Paragraph,
    state: FormatState,
    options: MarkdownOptions,
) -> Rendered {
    match para.text {
        Err(e) => Rendered::failed(state, e@),
        Ok(text) => match list_item(text@, options.list_indent as nat) {
            Some(item) => Rendered::wrote(plain_list_item(item, options.list_indent as nat), state),
            None => Rendered::wrote(text@, state),
        },
    }
}

/// What is written for a paragraph from its runs: a list item whose marker is
/// written in its one form, or the runs one after the other.
pub open spec fn styled_paragraph_step(
    runs: Seq<Run>,
    state: FormatState,
    options: MarkdownOptions,
) -> Rendered {
    match runs_text(runs) {
        Err(e) => Rendered::failed(state, e),
        Ok(text) => match list_item(text, options.list_indent as nat) {
            Some(item) => Rendered::wrote(
                list_item_prefix(item, options.list_indent as nat),
                state,
            ).followed_by(list_runs_step(runs, 0, item.content_start, state, options)),
            None => runs_step(runs, state, options),
        },
    }
}

/// What is written for the content of a paragraph without display formulas.
pub open spec fn paragraph_body_step(
    para: Paragraph,
    state: FormatState,
    options: MarkdownOptions,
) -> Rendered {
    if options.include_styles {
        match para.runs {
            Err(e) => Rendered::failed(state, e@),
            Ok(runs) => if runs@.len() == 0 {
                plain_paragraph_step(para, state, options)
            } else {
                styled_paragraph_step(runs@, state, options)
            },
        }
    } else {
        plain_paragraph_step(para, state, options)
    }
}

/// What is written for a paragraph.
///
/// A paragraph with display formulas is written as the texts of its runs and the
/// formulas. Any other paragraph is written as its content, after which every
/// open marker is closed. A blank line ends the paragraph.
pub open spec fn paragraph_step(
    para: Paragraph,
    state: FormatState,
    options: MarkdownOptions,
) -> Rendered {
    match para.display_formulas {
        Err(e) => Rendered::failed(state, e@),
        Ok(formulas) => if formulas@.len() > 0 {
            display_paragraph_step(para, formulas@, state, options).followed_by(
                Rendered::wrote("\n\n"@, state),
            )
        } else {
            let body = paragraph_body_step(para, state, options);
            body.followed_by(Rendered::wrote(close_all(body.state) + "\n\n"@, FormatState::plain()))
        },
    }
}

/// A table as it is written for the options: a pipe table where the style asks
/// for Markdown and no cell is merged, else an HTML table.
pub open spec fn table_markdown(table: TableModel, options: MarkdownOptions) -> Seq<char> {
    let layout = table_layout(table.merges);
    match options.table_style {
        TableStyle::Markdown => if has_merges(layout.grid) {
            html_table(table.texts, layout, None)
        } else {
            markdown_table(table.texts)
        },
        TableStyle::MinimalHtml => html_table(table.texts, layout, None),
        TableStyle::StyledHtml => html_table(
            table.texts,
            layout,
            Some(spaces(options.html_table_indent as nat)),
        ),
    }
}

/// What is written for a table: the table and a blank line, or nothing where the
/// table could not be read.
pub open spec fn table_step(
    table: Table,
    state: FormatState,
    options: MarkdownOptions,
) -> Rendered {
    match table_model(table) {
        Err(e) => Rendered::failed(state, e),
        Ok(model) => Rendered::wrote(table_markdown(model, options) + "\n\n"@, state),
    }
}

/// A table whose rows are no wider than a `usize` can hold.
pub open spec fn table_fits(table: Table) -> bool {
    table_model(table) matches Ok(model) ==> widths_fit(model.merges)
}

/// A fragment that has the formatting of the open markers is written as its text
/// alone.
///
/// Runs of the same formatting that follow one another share one pair of markers:
/// the first opens it, and nothing is written between the runs.
pub proof fn lemma_same_formatting_writes_text_only(
    text: Seq<char>,
    state: FormatState,
    options: MarkdownOptions,
)
    requires
        !(options.strikethrough_style is Html && state.strikethrough),
    ensures
        styled_fragment(text, state, None, state, options) == Rendered::wrote(text, state),
        styled_fragment(text, state, Some(VerticalPosition::Normal), state, options)
            == Rendered::wrote(text, state),
{
    lemma_transition_to_same(state);
    assert(transition(state, state) + text =~= text);
}

/// Three steps in a row are the same however they are grouped.
pub proof fn lemma_followed_by_assoc(a: Rendered, b: Rendered, c: Rendered)
    ensures
        a.followed_by(b).followed_by(c) == a.followed_by(b.followed_by(c)),
{
    if a.error is None && b.error is None {
        assert((a.text + b.text) + c.text =~= a.text + (b.text + c.text));
    }
}

/// A step after a step that appends nothing is that step.
pub proof fn lemma_followed_by_nothing(state: FormatState, b: Rendered)
    ensures
        Rendered::nothing(state).followed_by(b) == b,
        b.followed_by(Rendered::nothing(b.state)) == b,
{
    assert(Seq::<char>::empty() + b.text =~= b.text);
    assert(b.text + Seq::<char>::empty() =~= b.text);
}

/// The front matter that is written before the content: nothing where the
/// options leave it out, else the front matter of the metadata, or the error of
/// generating it.
pub open spec fn front_matter(metadata: Metadata, options: MarkdownOptions) -> Result<
    Seq<char>,
    ErrorView,
> {
    if !options.include_metadata {
        Ok(Seq::empty())
    } else {
        match metadata.front_matter {
            Ok(yaml) => Ok(yaml@),
            Err(m) => Err(
                ErrorView {
                    kind: ErrorKind::Other,
                    message: "Failed to generate YAML front matter: "@ + m@,
                },
            ),
        }
    }
}

} // verus!
