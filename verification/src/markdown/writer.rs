//! Low-level writer for Markdown generation.
//!
//! The writer owns the output buffer and knows which inline markers are open.
//! Every method says what it appends and which markers it leaves open.

use vstd::prelude::*;
use vstd::string::*;
use crate::common::{MathPayload, Metadata, VerticalPosition};
use crate::document::paragraph::Paragraph;
use crate::document::run::Run;
use crate::document::table::Table;
use crate::error::{Error, ErrorView, text_outcome};
use crate::markdown::cells::{TableData, TableModel, extract_table_cell_data, table_model};
use crate::markdown::format::{
    FormatState,
    close_all,
    transition,
    write_closing_markers,
    write_transition,
};
use crate::markdown::formula::{payload_markdown, write_payload};
use crate::markdown::list::{
    ListItemInfo,
    detect_list_item,
    list_item_prefix,
    plain_list_item,
    write_list_item_prefix,
    write_plain_list_item,
};
use crate::markdown::rendered::{
    Rendered,
    display_formulas_markdown,
    display_paragraph_step,
    emphasized,
    front_matter,
    is_blank,
    lemma_followed_by_assoc,
    lemma_followed_by_nothing,
    lemma_list_runs_step_at,
    lemma_progress,
    lemma_runs_step_at,
    line_break_after,
    list_runs_step,
    paragraph_body_step,
    paragraph_step,
    plain_paragraph_step,
    raw_runs_step,
    left_out,
    rest_of,
    run_step,
    run_step_from,
    runs_step,
    runs_text,
    script_markdown,
    struck_html,
    styled_fragment,
    styled_paragraph_step,
    table_fits,
    table_markdown,
    table_step,
};
use crate::markdown::spans::{
    analyze_table_layout,
    analyze_table_spans,
    has_merged_cells,
    has_merges,
    span_grid,
    widths_fit,
};
use crate::markdown::table::{write_html_table, write_markdown_table};
use crate::markdown::unicode::write_script_if_possible;
use crate::markdown::config::{MarkdownOptions, ScriptStyle, StrikethroughStyle, TableStyle};
use crate::parallel::{first_error, lemma_first_error_prefix, values};
use crate::text::{
    concat,
    count_leading_whitespace,
    lemma_concat_step,
    push_spaces,
    spaces,
    to_chars,
};

verus! {

/// Low-level writer for efficient Markdown generation.
pub struct MarkdownWriter {
    /// The output buffer.
    buffer: String,
    /// Current options.
    options: MarkdownOptions,
    /// Current formatting state to avoid duplicate markers.
    current_bold: bool,
    current_italic: bool,
    current_strikethrough: bool,
}

/// A [`MarkdownWriter`] as a mathematical value.
pub struct WriterView {
    /// The text written so far.
    pub buffer: Seq<char>,
    pub options: MarkdownOptions,
    /// The inline markers that are open at the end of the text.
    pub state: FormatState,
}

impl View for MarkdownWriter {
    type V = WriterView;

    closed spec fn view(&self) -> WriterView {
        WriterView {
            buffer: self.buffer@,
            options: self.options,
            state: FormatState {
                bold: self.current_bold,
                italic: self.current_italic,
                strikethrough: self.current_strikethrough,
            },
        }
    }
}

/// The writer went from `before` to `after` by `step`, and `r` reports it: the
/// text of the step was appended, its markers are open, the options are as they
/// were, and `r` is the error that stopped the step, if one did.
pub open spec fn did(
    before: WriterView,
    after: WriterView,
    step: Rendered,
    r: Result<(), Error>,
) -> bool {
    &&& after.options == before.options
    &&& after.buffer == before.buffer + step.text
    &&& after.state == step.state
    &&& match r {
        Ok(_) => step.error is None,
        Err(e) => step.error == Some(e@),
    }
}

/// The writer went from `before` to `after` by appending `text`: the options and
/// the open markers are as they were.
pub open spec fn appended(before: WriterView, after: WriterView, text: Seq<char>) -> bool {
    after == (WriterView { buffer: before.buffer + text, ..before })
}

/// `String::try_reserve` of std, its answer dropped: room for `additional` more
/// bytes is asked for, and the text stays as it is whether or not it was given.
#[verifier::external_body]
fn reserve_hint(buffer: &mut String, additional: usize)
    ensures
        final(buffer)@ == old(buffer)@,
{
    let _ = buffer.try_reserve(additional);
}

impl MarkdownWriter {
    /// Create a new writer with the given options.
    pub fn new(options: MarkdownOptions) -> (w: Self)
        ensures
            w@ == (WriterView {
                buffer: Seq::empty(),
                options,
                state: FormatState::plain(),
            }),
    {
        let mut buffer = String::new();
        reserve_hint(&mut buffer, 4096);
        MarkdownWriter {
            buffer,
            options,
            current_bold: false,
            current_italic: false,
            current_strikethrough: false,
        }
    }

    /// Get the final markdown output.
    pub fn finish(self) -> (s: String)
        ensures
            s@ == self@.buffer,
    {
        self.buffer
    }

    /// The options of the writer.
    pub fn options(&self) -> (o: MarkdownOptions)
        ensures
            o == self@.options,
    {
        self.options
    }

    /// The inline markers that are open.
    pub fn state(&self) -> (s: FormatState)
        ensures
            s == self@.state,
    {
        FormatState {
            bold: self.current_bold,
            italic: self.current_italic,
            strikethrough: self.current_strikethrough,
        }
    }

    /// Append text to the buffer.
    pub fn push_str(&mut self, text: &str)
        ensures
            appended(old(self)@, final(self)@, text@),
    {
        self.buffer.append(text);
    }

    /// Append a single character to the buffer.
    pub fn push(&mut self, ch: char)
        ensures
            appended(old(self)@, final(self)@, seq![ch]),
    {
        self.buffer.push(ch);
        proof {
            assert(old(self).buffer@.push(ch) =~= old(self).buffer@ + seq![ch]);
        }
    }

    /// Reserve additional capacity in the buffer.
    pub fn reserve(&mut self, additional: usize)
        ensures
            final(self)@ == old(self)@,
    {
        reserve_hint(&mut self.buffer, additional);
    }

    /// Sets which markers are open.
    fn set_state(&mut self, state: FormatState)
        ensures
            final(self)@ == (WriterView { state, ..old(self)@ }),
    {
        self.current_bold = state.bold;
        self.current_italic = state.italic;
        self.current_strikethrough = state.strikethrough;
    }

    /// Close any currently open formatting.
    ///
    /// This is called at paragraph boundaries: emphasis does not go on over a
    /// paragraph break.
    pub fn close_formatting(&mut self)
        ensures
            final(self)@ == (WriterView {
                buffer: old(self)@.buffer + close_all(old(self)@.state),
                state: FormatState::plain(),
                ..old(self)@
            }),
    {
        let cur = self.state();
        write_closing_markers(&mut self.buffer, cur, FormatState::none());
        self.set_state(FormatState::none());
    }

    /// Apply formatting changes by closing and opening markers as needed.
    ///
    /// What is no longer wanted is closed, innermost first; what is newly wanted
    /// is opened, outermost first. Nothing is written for what stays.
    pub fn apply_formatting(&mut self, bold: bool, italic: bool, strikethrough: bool)
        ensures
            final(self)@ == (WriterView {
                buffer: old(self)@.buffer + transition(
                    old(self)@.state,
                    FormatState { bold, italic, strikethrough },
                ),
                state: FormatState { bold, italic, strikethrough },
                ..old(self)@
            }),
    {
        let cur = self.state();
        let want = FormatState { bold, italic, strikethrough };
        write_transition(&mut self.buffer, cur, want);
        self.set_state(want);
    }

    /// Appends text between a pair of tags.
    fn push_tagged(&mut self, opening: &str, text: &str, closing: &str)
        ensures
            appended(old(self)@, final(self)@, opening@ + text@ + closing@),
    {
        self.buffer.append(opening);
        self.buffer.append(text);
        self.buffer.append(closing);
        proof {
            assert(self.buffer@ =~= old(self).buffer@ + (opening@ + text@ + closing@));
        }
    }

    /// Appends text that stands above the baseline (`raised`) or below it.
    fn write_script(&mut self, text: &str, raised: bool)
        ensures
            appended(
                old(self)@,
                final(self)@,
                script_markdown(text@, raised, old(self)@.options.script_style),
            ),
    {
        let converted = match self.options.script_style {
            ScriptStyle::Unicode => write_script_if_possible(&mut self.buffer, text, raised),
            ScriptStyle::Html => false,
        };
        if !converted {
            if raised {
                self.push_tagged("<sup>", text, "</sup>");
            } else {
                self.push_tagged("<sub>", text, "</sub>");
            }
        }
    }

    /// Appends text between the markers of its own emphasis.
    fn write_emphasized(&mut self, text: &str, bold: bool, italic: bool)
        ensures
            appended(old(self)@, final(self)@, emphasized(text@, bold, italic)),
    {
        if bold && italic {
            self.push_tagged("***", text, "***");
        } else if bold {
            self.push_tagged("**", text, "**");
        } else if italic {
            self.push_tagged("*", text, "*");
        } else {
            self.buffer.append(text);
        }
    }

    /// Appends struck-through text as a unit of its own, after closing every
    /// open marker.
    fn write_struck_html(&mut self, text: &str, bold: bool, italic: bool)
        ensures
            final(self)@ == (WriterView {
                buffer: old(self)@.buffer + (close_all(old(self)@.state) + struck_html(
                    text@,
                    bold,
                    italic,
                )),
                state: FormatState::plain(),
                ..old(self)@
            }),
    {
        self.close_formatting();
        let ghost closed = self.buffer@;
        self.buffer.append("<del>");
        self.write_emphasized(text, bold, italic);
        self.buffer.append("</del>");
        proof {
            assert(self.buffer@ =~= closed + struck_html(text@, bold, italic));
            assert(closed + struck_html(text@, bold, italic) =~= old(self).buffer@ + (close_all(
                old(self)@.state,
            ) + struck_html(text@, bold, italic)));
        }
    }

    /// Appends text after the markers that lead from the open ones to `want`.
    fn write_marked(&mut self, text: &str, want: FormatState)
        ensures
            final(self)@ == (WriterView {
                buffer: old(self)@.buffer + (transition(old(self)@.state, want) + text@),
                state: want,
                ..old(self)@
            }),
    {
        self.apply_formatting(want.bold, want.italic, want.strikethrough);
        self.buffer.append(text);
        proof {
            assert(self.buffer@ =~= old(self).buffer@ + (transition(old(self)@.state, want)
                + text@));
        }
    }

    /// Write a fragment of text with its formatting.
    ///
    /// Superscript and subscript text is a unit of its own. Text on the baseline
    /// goes through the markers, whether its position is normal or not given.
    pub fn write_run_with_properties(
        &mut self,
        text: String,
        bold: bool,
        italic: bool,
        strikethrough: bool,
        vertical_pos: Option<VerticalPosition>,
    ) -> (r: Result<(), Error>)
        ensures
            r is Ok,
            did(
                old(self)@,
                final(self)@,
                styled_fragment(
                    text@,
                    FormatState { bold, italic, strikethrough },
                    vertical_pos,
                    old(self)@.state,
                    old(self)@.options,
                ),
                r,
            ),
    {
        match vertical_pos {
            Some(VerticalPosition::Superscript) => {
                self.write_script(text.as_str(), true);
                return Ok(());
            },
            Some(VerticalPosition::Subscript) => {
                self.write_script(text.as_str(), false);
                return Ok(());
            },
            _ => {},
        }
        let html_strike = match self.options.strikethrough_style {
            StrikethroughStyle::Html => strikethrough,
            StrikethroughStyle::Markdown => false,
        };
        if html_strike {
            self.write_struck_html(text.as_str(), bold, italic);
        } else {
            self.write_marked(text.as_str(), FormatState { bold, italic, strikethrough });
        }
        Ok(())
    }

    /// Extract formula content from a run and convert to markdown.
    ///
    /// Returns the markdown representation of the formula if one is found, `None`
    /// otherwise.
    pub fn extract_formula_from_run(&self, run: &Run) -> (r: Result<Option<String>, Error>)
        ensures
            match r {
                Ok(Some(s)) => run.spec_formula() matches Ok(Some(p)) && s@ == payload_markdown(
                    p,
                    true,
                    self@.options.formula_style,
                ),
                Ok(None) => run.spec_formula() == Ok::<_, ErrorView>(None::<MathPayload>),
                Err(e) => run.spec_formula() == Err::<Option<MathPayload>, _>(e@),
            },
    {
        match run.formula() {
            Err(e) => Err(e),
            Ok(None) => Ok(None),
            Ok(Some(payload)) => {
                let mut s = String::new();
                write_payload(&mut s, payload, true, self.options.formula_style);
                proof {
                    assert(s@ =~= payload_markdown(*payload, true, self@.options.formula_style));
                }
                Ok(Some(s))
            },
        }
    }

    /// The text without its first `skip` characters.
    fn text_from(text: String, skip: usize) -> (rest: String)
        ensures
            rest@ == rest_of(text@, skip as nat),
    {
        if skip == 0 {
            text
        } else {
            let n = text.as_str().unicode_len();
            if skip <= n {
                let rest = text.as_str().substring_char(skip, n);
                proof {
                    assert(text@.subrange(skip as int, n as int) =~= text@.skip(skip as int));
                }
                String::from_str(rest)
            } else {
                String::new()
            }
        }
    }

    /// Write a run with formatting, without the first `skip` characters of its
    /// text.
    pub fn write_run_from(&mut self, run: &Run, skip: usize) -> (r: Result<(), Error>)
        ensures
            did(
                old(self)@,
                final(self)@,
                run_step_from(*run, skip as nat, old(self)@.state, old(self)@.options),
                r,
            ),
    {
        proof {
            assert(self.buffer@ + Seq::<char>::empty() =~= self.buffer@);
        }
        match self.extract_formula_from_run(run) {
            Err(e) => {
                return Err(e);
            },
            Ok(Some(formula_markdown)) => {
                self.buffer.append(formula_markdown.as_str());
                return Ok(());
            },
            Ok(None) => {},
        }
        let text = match run.text() {
            Ok(t) => Self::text_from(t, skip),
            Err(e) => {
                return Err(e);
            },
        };
        if text.as_str().is_empty() {
            return Ok(());
        }
        let bold = match run.bold() {
            Ok(b) => b.unwrap_or(false),
            Err(e) => {
                return Err(e);
            },
        };
        let italic = match run.italic() {
            Ok(b) => b.unwrap_or(false),
            Err(e) => {
                return Err(e);
            },
        };
        let strikethrough = match run.strikethrough() {
            Ok(b) => b.unwrap_or(false),
            Err(e) => {
                return Err(e);
            },
        };
        let vertical_pos = match run.vertical_position() {
            Ok(p) => p,
            Err(e) => {
                return Err(e);
            },
        };
        self.write_run_with_properties(text, bold, italic, strikethrough, vertical_pos)
    }

    /// Write a run with formatting.
    pub fn write_run(&mut self, run: &Run) -> (r: Result<(), Error>)
        ensures
            did(
                old(self)@,
                final(self)@,
                run_step(*run, old(self)@.state, old(self)@.options),
                r,
            ),
    {
        self.write_run_from(run, 0)
    }
}

impl MarkdownWriter {
    /// Write runs with formatting, one after the other.
    pub fn write_runs(&mut self, runs: &Vec<Run>) -> (r: Result<(), Error>)
        ensures
            did(
                old(self)@,
                final(self)@,
                runs_step(runs@, old(self)@.state, old(self)@.options),
                r,
            ),
    {
        let ghost start = self@;
        let ghost mut done = Rendered::nothing(start.state);
        let mut i: usize = 0;
        proof {
            lemma_followed_by_nothing(start.state, runs_step(runs@, start.state, start.options));
            assert(runs@.skip(0) =~= runs@);
            assert(start.buffer + done.text =~= start.buffer);
        }
        while i < runs.len()
            invariant
                i <= runs@.len(),
                start == old(self)@,
                done.error is None,
                self@ == (WriterView { buffer: start.buffer + done.text, state: done.state, ..start }),
                done.followed_by(runs_step(runs@.skip(i as int), done.state, start.options))
                    == runs_step(runs@, start.state, start.options),
            decreases runs@.len() - i,
        {
            let ghost first = run_step(runs@[i as int], done.state, start.options);
            let ghost rest = runs_step(runs@.skip(i + 1), first.state, start.options);
            proof {
                lemma_runs_step_at(runs@, i as int, done.state, start.options);
                lemma_progress(start.buffer, done, first, rest);
            }
            match self.write_run(&runs[i]) {
                Ok(_) => {},
                Err(e) => {
                    return Err(e);
                },
            }
            proof {
                done = done.followed_by(first);
            }
            i = i + 1;
        }
        proof {
            assert(runs@.skip(i as int) =~= Seq::<Run>::empty());
            lemma_followed_by_nothing(done.state, done);
        }
        Ok(())
    }

    /// Extract text from runs: the texts of the runs, one after the other.
    pub fn extract_text_from_runs(&self, runs: &Vec<Run>) -> (r: Result<String, Error>)
        ensures
            text_outcome(r) == runs_text(runs@),
    {
        let ghost outcomes = runs@.map_values(|r: Run| r.spec_text());
        let mut text = String::new();
        let mut i: usize = 0;
        proof {
            assert(concat(values(outcomes).take(0)) =~= Seq::<char>::empty());
        }
        while i < runs.len()
            invariant
                i <= runs@.len(),
                outcomes == runs@.map_values(|r: Run| r.spec_text()),
                first_error(outcomes.take(i as int)) is None,
                forall|j: int| 0 <= j < i ==> (#[trigger] outcomes[j]) is Ok,
                text@ == concat(values(outcomes).take(i as int)),
            decreases runs@.len() - i,
        {
            proof {
                assert(outcomes.take(i + 1).drop_last() =~= outcomes.take(i as int));
                assert(outcomes.take(i + 1).last() == runs@[i as int].spec_text());
                lemma_concat_step(values(outcomes), i as int);
            }
            match runs[i].text() {
                Ok(run_text) => {
                    text.append(run_text.as_str());
                },
                Err(e) => {
                    proof {
                        assert(first_error(outcomes.take(i + 1)) == Some(e@));
                        lemma_first_error_prefix(outcomes, i + 1);
                    }
                    return Err(e);
                },
            }
            i = i + 1;
        }
        proof {
            assert(outcomes.take(i as int) =~= outcomes);
            assert(values(outcomes).take(i as int) =~= values(outcomes));
        }
        Ok(text)
    }

    /// Write a list item with proper formatting: the indent of its level, the
    /// marker, a space, and the content as plain text.
    pub fn write_list_item(&mut self, info: &ListItemInfo)
        requires
            info.fits(old(self)@.options.list_indent),
        ensures
            appended(
                old(self)@,
                final(self)@,
                plain_list_item(info@, old(self)@.options.list_indent as nat),
            ),
    {
        write_plain_list_item(&mut self.buffer, info, self.options.list_indent);
    }

    /// Writes one run of a list item. `to_skip` characters before the content are
    /// yet to be left out, unless the content was reached (`past`).
    fn write_list_run(&mut self, run: &Run, to_skip: usize, past: bool) -> (r: Result<
        (usize, bool),
        Error,
    >)
        requires
            past ==> to_skip == 0,
        ensures
            final(self)@.options == old(self)@.options,
            match run.spec_text() {
                Err(e) => r matches Err(x) && x@ == e && final(self)@ == old(self)@,
                Ok(text) => {
                    if !past && text.len() <= to_skip {
                        &&& r == Ok::<_, Error>(((to_skip - text.len()) as usize, false))
                        &&& final(self)@ == old(self)@
                    } else {
                        let step = run_step_from(
                            *run,
                            to_skip as nat,
                            old(self)@.state,
                            old(self)@.options,
                        );
                        &&& final(self)@.buffer == old(self)@.buffer + step.text
                        &&& final(self)@.state == step.state
                        &&& match r {
                            Ok(next) => step.error is None && next == (0usize, true),
                            Err(e) => step.error == Some(e@),
                        }
                    }
                },
            },
    {
        let run_text = match run.text() {
            Ok(t) => t,
            Err(e) => {
                return Err(e);
            },
        };
        let run_len = run_text.as_str().unicode_len();
        if !past && run_len <= to_skip {
            Ok((to_skip - run_len, false))
        } else {
            match self.write_run_from(run, to_skip) {
                Ok(_) => Ok((0, true)),
                Err(e) => Err(e),
            }
        }
    }

    /// Write a list item from runs with proper formatting.
    ///
    /// The marker is written in its one form. The runs follow without what stands
    /// before the content in them: the white space before the marker, the marker
    /// as the paragraph has it, and the white space after it. A run that the
    /// content starts in keeps its formatting.
    #[verifier::spinoff_prover]
    pub fn write_list_item_from_runs(&mut self, runs: &Vec<Run>, info: &ListItemInfo) -> (r: Result<
        (),
        Error,
    >)
        requires
            info.fits(old(self)@.options.list_indent),
        ensures
            did(
                old(self)@,
                final(self)@,
                Rendered::wrote(
                    list_item_prefix(info@, old(self)@.options.list_indent as nat),
                    old(self)@.state,
                ).followed_by(
                    list_runs_step(
                        runs@,
                        0,
                        info.content_start as nat,
                        old(self)@.state,
                        old(self)@.options,
                    ),
                ),
                r,
            ),
    {
        let ghost start = self@;
        let content_start: usize = info.content_start;
        write_list_item_prefix(&mut self.buffer, info, self.options.list_indent);
        let ghost mut done = Rendered::wrote(
            list_item_prefix(info@, start.options.list_indent as nat),
            start.state,
        );
        let ghost total = done.followed_by(
            list_runs_step(runs@, 0, content_start as nat, start.state, start.options),
        );
        let ghost mut passed: nat = 0;
        let mut to_skip: usize = content_start;
        let mut past = false;
        let mut i: usize = 0;
        proof {
            assert(runs@.skip(0) =~= runs@);
        }
        while i < runs.len()
            invariant
                i <= runs@.len(),
                start == old(self)@,
                done.error is None,
                self@ == (WriterView { buffer: start.buffer + done.text, state: done.state, ..start }),
                content_start == info.content_start,
                total == Rendered::wrote(
                    list_item_prefix(info@, start.options.list_indent as nat),
                    start.state,
                ).followed_by(
                    list_runs_step(runs@, 0, content_start as nat, start.state, start.options),
                ),
                !past ==> passed <= content_start && to_skip == content_start - passed,
                past ==> passed > content_start && to_skip == 0,
                done.followed_by(
                    list_runs_step(
                        runs@.skip(i as int),
                        passed,
                        content_start as nat,
                        done.state,
                        start.options,
                    ),
                ) == total,
            decreases runs@.len() - i,
        {
            let ghost run = runs@[i as int];
            let ghost tail = runs@.skip(i + 1);
            proof {
                lemma_list_runs_step_at(
                    runs@,
                    i as int,
                    passed,
                    content_start as nat,
                    done.state,
                    start.options,
                );
                assert(to_skip == left_out(passed, content_start as nat));
            }
            let written = self.write_list_run(&runs[i], to_skip, past);
            proof {
                match run.spec_text() {
                    Err(x) => {
                        lemma_progress(
                            start.buffer,
                            done,
                            Rendered::failed(done.state, x),
                            Rendered::nothing(done.state),
                        );
                    },
                    Ok(text) => {
                        let after = passed + text.len();
                        if !past && text.len() <= to_skip {
                        } else {
                            let first = run_step_from(
                                run,
                                to_skip as nat,
                                done.state,
                                start.options,
                            );
                            let rest = list_runs_step(
                                tail,
                                after,
                                content_start as nat,
                                first.state,
                                start.options,
                            );
                            lemma_progress(start.buffer, done, first, rest);
                            if first.error is None {
                                done = done.followed_by(first);
                            }
                        }
                        passed = after;
                    },
                }
            }
            match written {
                Err(e) => {
                    return Err(e);
                },
                Ok(next) => {
                    to_skip = next.0;
                    past = next.1;
                },
            }
            i = i + 1;
        }
        proof {
            assert(runs@.skip(i as int) =~= Seq::<Run>::empty());
            lemma_followed_by_nothing(done.state, done);
        }
        Ok(())
    }
}

impl MarkdownWriter {
    /// Appends the texts of the runs that are not blank, without their formatting,
    /// and returns the last character that it appended, if it appended any.
    fn write_raw_runs(&mut self, runs: &Vec<Run>) -> (r: Result<Option<char>, Error>)
        ensures
            ({
                let step = raw_runs_step(runs@, old(self)@.state);
                &&& step.state == old(self)@.state
                &&& final(self)@ == (WriterView {
                    buffer: old(self)@.buffer + step.text,
                    ..old(self)@
                })
                &&& match r {
                    Ok(last) => step.error is None && last == if step.text.len() > 0 {
                        Some(step.text.last())
                    } else {
                        None
                    },
                    Err(e) => step.error == Some(e@),
                }
            }),
    {
        let ghost start = self@;
        let ghost mut done = Rendered::nothing(start.state);
        let mut last: Option<char> = None;
        let mut i: usize = 0;
        proof {
            lemma_followed_by_nothing(start.state, raw_runs_step(runs@, start.state));
            assert(runs@.skip(0) =~= runs@);
            assert(start.buffer + done.text =~= start.buffer);
        }
        while i < runs.len()
            invariant
                i <= runs@.len(),
                start == old(self)@,
                done.error is None,
                done.state == start.state,
                self@ == (WriterView { buffer: start.buffer + done.text, ..start }),
                last == if done.text.len() > 0 {
                    Some(done.text.last())
                } else {
                    None
                },
                done.followed_by(raw_runs_step(runs@.skip(i as int), start.state))
                    == raw_runs_step(runs@, start.state),
            decreases runs@.len() - i,
        {
            let ghost run = runs@[i as int];
            let ghost rest = raw_runs_step(runs@.skip(i + 1), start.state);
            proof {
                assert(runs@.skip(i as int).drop_first() =~= runs@.skip(i + 1));
                assert(runs@.skip(i as int)[0] == run);
            }
            let text = match runs[i].text() {
                Ok(t) => t,
                Err(e) => {
                    proof {
                        assert(done.text + Seq::<char>::empty() =~= done.text);
                    }
                    return Err(e);
                },
            };
            let chars = to_chars(text.as_str());
            let blank = count_leading_whitespace(&chars, 0);
            proof {
                assert(chars@.skip(0) =~= chars@);
            }
            let ghost first = Rendered::wrote(
                if is_blank(text@) {
                    Seq::empty()
                } else {
                    text@
                },
                start.state,
            );
            if blank != chars.len() {
                self.buffer.append(text.as_str());
                last = Some(chars[chars.len() - 1]);
            }
            proof {
                assert(raw_runs_step(runs@.skip(i as int), start.state) == first.followed_by(rest));
                lemma_followed_by_assoc(done, first, rest);
                assert((start.buffer + done.text) + first.text =~= start.buffer + (done.text
                    + first.text));
                done = done.followed_by(first);
            }
            i = i + 1;
        }
        proof {
            assert(runs@.skip(i as int) =~= Seq::<Run>::empty());
            lemma_followed_by_nothing(done.state, done);
        }
        Ok(last)
    }

    /// Appends the display formulas, each on a line of its own.
    fn write_display_formulas(&mut self, formulas: &Vec<MathPayload>)
        ensures
            appended(
                old(self)@,
                final(self)@,
                display_formulas_markdown(formulas@, old(self)@.options),
            ),
    {
        let ghost start = self@;
        let ghost lines = formulas@.map_values(
            |p: MathPayload| payload_markdown(p, false, start.options.formula_style) + "\n"@,
        );
        let mut i: usize = 0;
        proof {
            assert(start.buffer + concat(lines.take(0)) =~= start.buffer);
        }
        while i < formulas.len()
            invariant
                i <= formulas@.len(),
                start == old(self)@,
                lines == formulas@.map_values(
                    |p: MathPayload| payload_markdown(p, false, start.options.formula_style) + "\n"@,
                ),
                self@ == (WriterView { buffer: start.buffer + concat(lines.take(i as int)), ..start }),
            decreases formulas@.len() - i,
        {
            write_payload(&mut self.buffer, &formulas[i], false, self.options.formula_style);
            self.buffer.append("\n");
            proof {
                lemma_concat_step(lines, i as int);
                assert(self.buffer@ =~= start.buffer + concat(lines.take(i + 1)));
            }
            i = i + 1;
        }
        proof {
            assert(lines.take(i as int) =~= lines);
        }
    }

    /// Write a paragraph that contains display-level formulas.
    ///
    /// The texts of the runs come first, without their formatting. The formulas
    /// follow, each on a line of its own.
    pub fn write_paragraph_with_display_formulas(
        &mut self,
        para: &Paragraph,
        display_formulas: &Vec<MathPayload>,
    ) -> (r: Result<(), Error>)
        ensures
            did(
                old(self)@,
                final(self)@,
                display_paragraph_step(
                    *para,
                    display_formulas@,
                    old(self)@.state,
                    old(self)@.options,
                ),
                r,
            ),
    {
        let ghost start = self@;
        let runs = match &para.runs {
            Ok(runs) => runs,
            Err(e) => {
                proof {
                    assert(start.buffer + Seq::<char>::empty() =~= start.buffer);
                }
                return Err(e.clone());
            },
        };
        let ghost texts = raw_runs_step(runs@, start.state);
        let last = match self.write_raw_runs(runs) {
            Ok(last) => last,
            Err(e) => {
                return Err(e);
            },
        };
        match last {
            Some(c) => {
                if c != '\n' {
                    self.buffer.append("\n");
                }
            },
            None => {},
        }
        proof {
            assert(self.buffer@ =~= start.buffer + texts.text + line_break_after(texts.text));
        }
        self.write_display_formulas(display_formulas);
        proof {
            assert(self.buffer@ =~= start.buffer + (texts.text + (line_break_after(texts.text)
                + display_formulas_markdown(display_formulas@, start.options))));
        }
        Ok(())
    }

    /// Appends a paragraph as its text alone says it: a list item, or the text.
    fn write_plain_paragraph(&mut self, para: &Paragraph) -> (r: Result<(), Error>)
        requires
            old(self)@.options.valid(),
        ensures
            did(
                old(self)@,
                final(self)@,
                plain_paragraph_step(*para, old(self)@.state, old(self)@.options),
                r,
            ),
    {
        let text = match &para.text {
            Ok(text) => text,
            Err(e) => {
                proof {
                    assert(self.buffer@ + Seq::<char>::empty() =~= self.buffer@);
                }
                return Err(e.clone());
            },
        };
        match detect_list_item(text.as_str(), self.options.list_indent) {
            Some(list_info) => {
                self.write_list_item(&list_info);
            },
            None => {
                self.buffer.append(text.as_str());
            },
        }
        Ok(())
    }

    /// Appends a paragraph as its runs say it: a list item, or the runs.
    fn write_styled_paragraph(&mut self, runs: &Vec<Run>) -> (r: Result<(), Error>)
        requires
            old(self)@.options.valid(),
        ensures
            did(
                old(self)@,
                final(self)@,
                styled_paragraph_step(runs@, old(self)@.state, old(self)@.options),
                r,
            ),
    {
        let text = match self.extract_text_from_runs(runs) {
            Ok(text) => text,
            Err(e) => {
                proof {
                    assert(self.buffer@ + Seq::<char>::empty() =~= self.buffer@);
                }
                return Err(e);
            },
        };
        match detect_list_item(text.as_str(), self.options.list_indent) {
            Some(list_info) => self.write_list_item_from_runs(runs, &list_info),
            None => self.write_runs(runs),
        }
    }

    /// Appends the content of a paragraph without display formulas.
    fn write_paragraph_body(&mut self, para: &Paragraph) -> (r: Result<(), Error>)
        requires
            old(self)@.options.valid(),
        ensures
            did(
                old(self)@,
                final(self)@,
                paragraph_body_step(*para, old(self)@.state, old(self)@.options),
                r,
            ),
    {
        if self.options.include_styles {
            let runs = match &para.runs {
                Ok(runs) => runs,
                Err(e) => {
                    proof {
                        assert(self.buffer@ + Seq::<char>::empty() =~= self.buffer@);
                    }
                    return Err(e.clone());
                },
            };
            if runs.len() == 0 {
                self.write_plain_paragraph(para)
            } else {
                self.write_styled_paragraph(runs)
            }
        } else {
            self.write_plain_paragraph(para)
        }
    }

    /// Write a paragraph to the buffer.
    ///
    /// The paragraph ends in a blank line. Before it every open marker is closed,
    /// so that no emphasis goes on into the next paragraph.
    pub fn write_paragraph(&mut self, para: &Paragraph) -> (r: Result<(), Error>)
        requires
            old(self)@.options.valid(),
        ensures
            did(
                old(self)@,
                final(self)@,
                paragraph_step(*para, old(self)@.state, old(self)@.options),
                r,
            ),
    {
        let ghost start = self@;
        let display_formulas = match &para.display_formulas {
            Ok(formulas) => formulas,
            Err(e) => {
                proof {
                    assert(start.buffer + Seq::<char>::empty() =~= start.buffer);
                }
                return Err(e.clone());
            },
        };
        if display_formulas.len() > 0 {
            match self.write_paragraph_with_display_formulas(para, display_formulas) {
                Ok(_) => {},
                Err(e) => {
                    return Err(e);
                },
            }
            self.buffer.append("\n\n");
            proof {
                let shown = display_paragraph_step(
                    *para,
                    display_formulas@,
                    start.state,
                    start.options,
                );
                assert(self.buffer@ =~= start.buffer + (shown.text + "\n\n"@));
            }
            return Ok(());
        }
        let ghost body = paragraph_body_step(*para, start.state, start.options);
        match self.write_paragraph_body(para) {
            Ok(_) => {},
            Err(e) => {
                return Err(e);
            },
        }
        self.close_formatting();
        self.buffer.append("\n\n");
        proof {
            assert(self.buffer@ =~= start.buffer + (body.text + (close_all(body.state) + "\n\n"@)));
        }
        Ok(())
    }

    /// Appends a table of the data that was read, in the style of the options.
    fn write_table_data(&mut self, data: &TableData)
        requires
            data@.aligned(),
            widths_fit(data@.merges),
        ensures
            appended(old(self)@, final(self)@, table_markdown(data@, old(self)@.options)),
    {
        let layout = analyze_table_layout(&data.merges);
        let has_merged = has_merged_cells(&layout.spans);
        let use_parallel = self.options.use_parallel;
        match self.options.table_style {
            TableStyle::Markdown => {
                if has_merged {
                    write_html_table(&mut self.buffer, &data.texts, &layout, None, use_parallel);
                } else {
                    write_markdown_table(&mut self.buffer, &data.texts, use_parallel);
                }
            },
            TableStyle::MinimalHtml => {
                write_html_table(&mut self.buffer, &data.texts, &layout, None, use_parallel);
            },
            TableStyle::StyledHtml => {
                let mut indent = String::new();
                push_spaces(&mut indent, self.options.html_table_indent);
                proof {
                    assert(indent@ =~= spaces(self.options.html_table_indent as nat));
                }
                write_html_table(
                    &mut self.buffer,
                    &data.texts,
                    &layout,
                    Some(indent.as_str()),
                    use_parallel,
                );
            },
        }
    }

    /// Write a table to the buffer.
    ///
    /// The cells are read in one pass. The table is written as a pipe table where
    /// the style asks for Markdown and the span grid shows no merged cell, else as
    /// an HTML table. A blank line follows.
    pub fn write_table(&mut self, table: &Table) -> (r: Result<(), Error>)
        requires
            table_fits(*table),
        ensures
            did(
                old(self)@,
                final(self)@,
                table_step(*table, old(self)@.state, old(self)@.options),
                r,
            ),
    {
        let ghost start = self@;
        let data = match extract_table_cell_data(table, self.options.use_parallel) {
            Ok(data) => data,
            Err(e) => {
                proof {
                    assert(start.buffer + Seq::<char>::empty() =~= start.buffer);
                }
                return Err(e);
            },
        };
        self.write_table_data(&data);
        self.buffer.append("\n\n");
        proof {
            assert(self.buffer@ =~= start.buffer + (table_markdown(data@, start.options) + "\n\n"@));
        }
        Ok(())
    }

    /// Check if a table has merged cells: whether its span grid shows a cell that
    /// covers more than one column or row.
    pub fn table_has_merged_cells(&self, table: &Table) -> (r: Result<bool, Error>)
        requires
            table_fits(*table),
        ensures
            match r {
                Ok(b) => table_model(*table) matches Ok(model) && b == has_merges(
                    span_grid(model.merges),
                ),
                Err(e) => table_model(*table) == Err::<TableModel, _>(e@),
            },
    {
        let data = match extract_table_cell_data(table, self.options.use_parallel) {
            Ok(data) => data,
            Err(e) => {
                return Err(e);
            },
        };
        let spans = analyze_table_spans(&data.merges);
        Ok(has_merged_cells(&spans))
    }

    /// Write document metadata as YAML front matter.
    ///
    /// Nothing is written where the options leave the metadata out.
    pub fn write_metadata(&mut self, metadata: &Metadata) -> (r: Result<(), Error>)
        ensures
            match r {
                Ok(_) => front_matter(*metadata, old(self)@.options) matches Ok(text) && appended(
                    old(self)@,
                    final(self)@,
                    text,
                ),
                Err(e) => front_matter(*metadata, old(self)@.options) == Err::<Seq<char>, _>(e@)
                    && final(self)@ == old(self)@,
            },
    {
        proof {
            assert(self.buffer@ + Seq::<char>::empty() =~= self.buffer@);
        }
        if !self.options.include_metadata {
            return Ok(());
        }
        match &metadata.front_matter {
            Ok(yaml_front_matter) => {
                if !yaml_front_matter.as_str().is_empty() {
                    self.buffer.append(yaml_front_matter.as_str());
                }
                Ok(())
            },
            Err(m) => {
                let mut message = String::from_str("Failed to generate YAML front matter: ");
                message.append(m.as_str());
                Err(Error::Other(message))
            },
        }
    }
}

} // verus!
