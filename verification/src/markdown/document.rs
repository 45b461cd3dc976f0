//! Conversion of documents and of their parts.

use vstd::prelude::*;
use vstd::string::*;
use crate::document::paragraph::Paragraph;
use crate::document::run::Run;
use crate::document::table::Table;
use crate::document::{Document, DocumentElement};
use crate::error::{Error, ErrorView, text_outcome};
use crate::markdown::cells::extract_table_cell_data;
use crate::markdown::format::FormatState;
use crate::markdown::rendered::{
    Rendered,
    front_matter,
    paragraph_step,
    run_step,
    table_fits,
    table_step,
};
use crate::markdown::spans::widths_fit_in_usize;
use crate::markdown::traits::ToMarkdown;
use crate::markdown::writer::{MarkdownWriter, WriterView};
use crate::markdown::config::MarkdownOptions;
use crate::parallel::{
    all_or_first_error,
    collect_results,
    lemma_all_values_no_error,
    lemma_first_error_at,
    lemma_first_error_prefix,
    par_map_index,
    values,
};
use crate::text::{concat, push_all, trim_end, trimmed_end};

verus! {

/// The number of elements that a document exceeds to have them handed out to
/// threads.
pub const PARALLEL_THRESHOLD: usize = 50;

/// What is written for an element of a document.
pub open spec fn element_step(
    element: DocumentElement,
    state: FormatState,
    options: MarkdownOptions,
) -> Rendered {
    match element {
        DocumentElement::Paragraph(para) => paragraph_step(para, state, options),
        DocumentElement::Table(table) => table_step(table, state, options),
    }
}

/// What is written for elements, one after the other by one writer.
pub open spec fn elements_step(
    elements: Seq<DocumentElement>,
    state: FormatState,
    options: MarkdownOptions,
) -> Rendered
    decreases elements.len(),
{
    if elements.len() == 0 {
        Rendered::nothing(state)
    } else {
        let before = elements_step(elements.drop_last(), state, options);
        before.followed_by(element_step(elements.last(), before.state, options))
    }
}

/// The Markdown of an element written on its own, or the error that stopped it.
pub open spec fn element_markdown(element: DocumentElement, options: MarkdownOptions) -> Result<
    Seq<char>,
    ErrorView,
> {
    element_step(element, FormatState::plain(), options).outcome()
}

/// The Markdown of elements that are each written on their own and put together
/// in their order, or the first error in that order.
pub open spec fn elements_markdown(
    elements: Seq<DocumentElement>,
    options: MarkdownOptions,
) -> Result<Seq<char>, ErrorView> {
    match all_or_first_error(
        elements.map_values(|e: DocumentElement| element_markdown(e, options)),
    ) {
        Err(e) => Err(e),
        Ok(parts) => Ok(concat(parts)),
    }
}

/// The front matter of a document, or the error of reading it. The metadata is
/// not read where the options leave it out.
pub open spec fn document_front_matter(doc: Document, options: MarkdownOptions) -> Result<
    Seq<char>,
    ErrorView,
> {
    if !options.include_metadata {
        Ok(Seq::empty())
    } else {
        match doc.metadata {
            Err(e) => Err(e@),
            Ok(metadata) => front_matter(metadata, options),
        }
    }
}

/// The Markdown of a document: the front matter, then the elements in their
/// order. The first error stops the conversion: of the front matter, of reading
/// the elements, or of an element.
pub open spec fn document_markdown(doc: Document, options: MarkdownOptions) -> Result<
    Seq<char>,
    ErrorView,
> {
    match document_front_matter(doc, options) {
        Err(e) => Err(e),
        Ok(front) => match doc.elements {
            Err(e) => Err(e@),
            Ok(elements) => match elements_markdown(elements@, options) {
                Err(e) => Err(e),
                Ok(content) => Ok(front + content),
            },
        },
    }
}

/// An element whose table, if it is one, has rows no wider than a `usize` can hold.
pub open spec fn element_fits(element: DocumentElement) -> bool {
    element matches DocumentElement::Table(table) ==> table_fits(table)
}

/// Elements that all fit.
pub open spec fn elements_fit(elements: Seq<DocumentElement>) -> bool {
    forall|i: int| 0 <= i < elements.len() ==> element_fits(#[trigger] elements[i])
}

/// A document whose elements, if they can be read, all fit.
pub open spec fn document_fits(doc: Document) -> bool {
    doc.elements matches Ok(elements) ==> elements_fit(elements@)
}

/// An element leaves no marker open that was not open before it.
pub proof fn lemma_element_ends_plain(element: DocumentElement, options: MarkdownOptions)
    ensures
        ({
            let step = element_step(element, FormatState::plain(), options);
            step.error is None ==> step.state == FormatState::plain()
        }),
{
}

/// One writer for all elements writes what a writer for each element writes.
///
/// The elements written one after the other by one writer give the same text,
/// or the same error, as the elements written each by a writer of its own and put
/// together in their order. After them no marker is open.
pub proof fn lemma_elements_same_on_both_paths(
    elements: Seq<DocumentElement>,
    options: MarkdownOptions,
)
    ensures
        elements_step(elements, FormatState::plain(), options).outcome() == elements_markdown(
            elements,
            options,
        ),
        elements_step(elements, FormatState::plain(), options).error is None ==> elements_step(
            elements,
            FormatState::plain(),
            options,
        ).state == FormatState::plain(),
    decreases elements.len(),
{
    let outcomes = elements.map_values(|e: DocumentElement| element_markdown(e, options));
    if elements.len() == 0 {
        assert(concat(values(outcomes)) =~= Seq::<char>::empty());
    } else {
        let front = elements.drop_last();
        let front_outcomes = front.map_values(|e: DocumentElement| element_markdown(e, options));
        lemma_elements_same_on_both_paths(front, options);
        lemma_element_ends_plain(elements.last(), options);
        assert(outcomes.drop_last() =~= front_outcomes);
        assert(outcomes.last() == element_markdown(elements.last(), options));
        let before = elements_step(front, FormatState::plain(), options);
        if before.error is None {
            let last = element_step(elements.last(), FormatState::plain(), options);
            if last.error is None {
                assert(values(outcomes).drop_last() =~= values(front_outcomes));
                assert(values(outcomes).last() == last.text);
            }
        }
    }
}

/// Renders one element with a writer of its own.
pub fn render_element(element: &DocumentElement, options: &MarkdownOptions) -> (r: Result<
    String,
    Error,
>)
    requires
        options.valid(),
        element_fits(*element),
    ensures
        text_outcome(r) == element_markdown(*element, *options),
{
    let mut writer = MarkdownWriter::new(*options);
    let written = match element {
        DocumentElement::Paragraph(para) => writer.write_paragraph(para),
        DocumentElement::Table(table) => writer.write_table(table),
    };
    proof {
        let step = element_step(*element, FormatState::plain(), *options);
        assert(Seq::<char>::empty() + step.text =~= step.text);
    }
    match written {
        Ok(_) => Ok(writer.finish()),
        Err(e) => Err(e),
    }
}

/// Renders the elements one after the other with one writer.
pub fn render_elements_in_turn(
    elements: &Vec<DocumentElement>,
    options: &MarkdownOptions,
) -> (r: Result<String, Error>)
    requires
        options.valid(),
        elements_fit(elements@),
    ensures
        text_outcome(r) == elements_markdown(elements@, *options),
{
    let mut writer = MarkdownWriter::new(*options);
    match elements.len().checked_mul(150) {
        Some(estimated_size) => writer.reserve(estimated_size),
        None => {},
    }
    let ghost mut done = Rendered::nothing(FormatState::plain());
    let mut i: usize = 0;
    proof {
        assert(elements@.take(0) =~= Seq::<DocumentElement>::empty());
        assert(Seq::<char>::empty() + done.text =~= Seq::<char>::empty());
    }
    while i < elements.len()
        invariant
            i <= elements@.len(),
            options.valid(),
            elements_fit(elements@),
            done.error is None,
            done == elements_step(elements@.take(i as int), FormatState::plain(), *options),
            writer@ == (WriterView { buffer: done.text, options: *options, state: done.state }),
        decreases elements@.len() - i,
    {
        let ghost first = element_step(elements@[i as int], done.state, *options);
        proof {
            assert(elements@.take(i + 1).drop_last() =~= elements@.take(i as int));
            assert(elements@.take(i + 1).last() == elements@[i as int]);
            assert(element_fits(elements@[i as int]));
        }
        let written = match &elements[i] {
            DocumentElement::Paragraph(para) => writer.write_paragraph(para),
            DocumentElement::Table(table) => writer.write_table(table),
        };
        match written {
            Ok(_) => {},
            Err(e) => {
                proof {
                    let stopped = elements_step(
                        elements@.take(i + 1),
                        FormatState::plain(),
                        *options,
                    );
                    assert(stopped.error == Some(e@));
                    lemma_elements_same_on_both_paths(elements@.take(i + 1), *options);
                    let outcomes = elements@.map_values(
                        |e: DocumentElement| element_markdown(e, *options),
                    );
                    assert(outcomes.take(i + 1) =~= elements@.take(i + 1).map_values(
                        |e: DocumentElement| element_markdown(e, *options),
                    ));
                    lemma_first_error_prefix(outcomes, i + 1);
                }
                return Err(e);
            },
        }
        proof {
            done = done.followed_by(first);
        }
        i = i + 1;
    }
    proof {
        assert(elements@.take(i as int) =~= elements@);
        lemma_elements_same_on_both_paths(elements@, *options);
    }
    Ok(writer.finish())
}

/// Renders the elements on several threads, each with a writer of its own, and
/// puts the results together in the order of the elements.
pub fn render_elements_in_parallel(
    elements: &Vec<DocumentElement>,
    options: &MarkdownOptions,
) -> (r: Result<String, Error>)
    requires
        options.valid(),
        elements_fit(elements@),
    ensures
        text_outcome(r) == elements_markdown(elements@, *options),
{
    let ghost outcomes = elements@.map_values(|e: DocumentElement| element_markdown(e, *options));
    let n = elements.len();
    let render = |i: usize| -> (r: Result<String, Error>)
        requires
            i < n,
            n == elements@.len(),
            options.valid(),
            elements_fit(elements@),
        ensures
            text_outcome(r) == element_markdown(elements@[i as int], *options),
        {
            assert(element_fits(elements@[i as int]));
            render_element(&elements[i], options)
        };
    let results = par_map_index(n, render);
    proof {
        assert forall|i: int| 0 <= i < n implies text_outcome(#[trigger] results@[i])
            == outcomes[i] by {
            assert(call_ensures(render, (i as usize,), results@[i as usize as int]));
        }
    }
    match collect_results(results) {
        Err(e) => {
            proof {
                let k = choose|k: int|
                    {
                        &&& 0 <= k < results@.len()
                        &&& (#[trigger] results@[k]) == Err::<String, Error>(e)
                        &&& forall|i: int| 0 <= i < k ==> (#[trigger] results@[i]) is Ok
                    };
                assert(text_outcome(results@[k]) == outcomes[k]);
                assert forall|i: int| 0 <= i < k implies (#[trigger] outcomes[i]) is Ok by {
                    assert(results@[i] is Ok);
                    assert(text_outcome(results@[i]) == outcomes[i]);
                }
                lemma_first_error_at(outcomes, k);
            }
            Err(e)
        },
        Ok(parts) => {
            proof {
                assert forall|i: int| 0 <= i < outcomes.len() implies (#[trigger] outcomes[i])
                    == Ok::<Seq<char>, ErrorView>(parts@[i]@) by {
                    assert(results@[i] == Ok::<String, Error>(parts@[i]));
                    assert(text_outcome(results@[i]) == outcomes[i]);
                }
                lemma_all_values_no_error(outcomes);
                assert(parts.deep_view() =~= values(outcomes));
            }
            let mut result = String::new();
            push_all(&mut result, &parts);
            proof {
                assert(Seq::<char>::empty() + concat(parts.deep_view()) =~= concat(
                    parts.deep_view(),
                ));
            }
            Ok(result)
        },
    }
}

/// Renders the front matter of a document.
fn render_document_front_matter(doc: &Document, options: &MarkdownOptions) -> (r: Result<
    String,
    Error,
>)
    ensures
        text_outcome(r) == document_front_matter(*doc, *options),
{
    if options.include_metadata {
        let mut metadata_writer = MarkdownWriter::new(*options);
        let metadata = match &doc.metadata {
            Ok(metadata) => metadata,
            Err(e) => {
                return Err(e.clone());
            },
        };
        match metadata_writer.write_metadata(metadata) {
            Ok(_) => {},
            Err(e) => {
                return Err(e);
            },
        }
        proof {
            let text = front_matter(*metadata, *options)->Ok_0;
            assert(Seq::<char>::empty() + text =~= text);
        }
        Ok(metadata_writer.finish())
    } else {
        Ok(String::new())
    }
}

impl ToMarkdown for Document {
    open spec fn renderable(&self, options: MarkdownOptions) -> bool {
        options.valid() && document_fits(*self)
    }

    open spec fn markdown(&self, options: MarkdownOptions) -> Result<Seq<char>, ErrorView> {
        document_markdown(*self, options)
    }

    /// The front matter comes first, then the elements in their order. A
    /// document of more than [`PARALLEL_THRESHOLD`] elements is rendered on
    /// several threads where the options allow it; the result is the same either
    /// way.
    fn to_markdown_with_options(&self, options: &MarkdownOptions) -> (r: Result<String, Error>) {
        let metadata_md = match render_document_front_matter(self, options) {
            Ok(text) => text,
            Err(e) => {
                return Err(e);
            },
        };
        let elements = match &self.elements {
            Ok(elements) => elements,
            Err(e) => {
                return Err(e.clone());
            },
        };
        let rendered = if options.use_parallel && elements.len() > PARALLEL_THRESHOLD {
            render_elements_in_parallel(elements, options)
        } else {
            render_elements_in_turn(elements, options)
        };
        match rendered {
            Ok(content_md) => {
                let mut result = metadata_md;
                result.append(content_md.as_str());
                Ok(result)
            },
            Err(e) => Err(e),
        }
    }
}

/// The text of a step that was not stopped, without the white space at its end.
pub open spec fn trimmed_outcome(step: Rendered) -> Result<Seq<char>, ErrorView> {
    match step.error {
        Some(e) => Err(e),
        None => Ok(trim_end(step.text)),
    }
}

impl ToMarkdown for Paragraph {
    open spec fn renderable(&self, options: MarkdownOptions) -> bool {
        options.valid()
    }

    open spec fn markdown(&self, options: MarkdownOptions) -> Result<Seq<char>, ErrorView> {
        trimmed_outcome(paragraph_step(*self, FormatState::plain(), options))
    }

    fn to_markdown_with_options(&self, options: &MarkdownOptions) -> (r: Result<String, Error>) {
        let mut writer = MarkdownWriter::new(*options);
        let written = writer.write_paragraph(self);
        proof {
            let step = paragraph_step(*self, FormatState::plain(), *options);
            assert(Seq::<char>::empty() + step.text =~= step.text);
        }
        match written {
            Ok(_) => Ok(trimmed_end(writer.finish().as_str())),
            Err(e) => Err(e),
        }
    }
}

impl ToMarkdown for Run {
    open spec fn renderable(&self, options: MarkdownOptions) -> bool {
        true
    }

    open spec fn markdown(&self, options: MarkdownOptions) -> Result<Seq<char>, ErrorView> {
        run_step(*self, FormatState::plain(), options).outcome()
    }

    fn to_markdown_with_options(&self, options: &MarkdownOptions) -> (r: Result<String, Error>) {
        let mut writer = MarkdownWriter::new(*options);
        let written = writer.write_run(self);
        proof {
            let step = run_step(*self, FormatState::plain(), *options);
            assert(Seq::<char>::empty() + step.text =~= step.text);
        }
        match written {
            Ok(_) => Ok(writer.finish()),
            Err(e) => Err(e),
        }
    }
}

impl ToMarkdown for Table {
    open spec fn renderable(&self, options: MarkdownOptions) -> bool {
        table_fits(*self)
    }

    open spec fn markdown(&self, options: MarkdownOptions) -> Result<Seq<char>, ErrorView> {
        trimmed_outcome(table_step(*self, FormatState::plain(), options))
    }

    fn to_markdown_with_options(&self, options: &MarkdownOptions) -> (r: Result<String, Error>) {
        let mut writer = MarkdownWriter::new(*options);
        let written = writer.write_table(self);
        proof {
            let step = table_step(*self, FormatState::plain(), *options);
            assert(Seq::<char>::empty() + step.text =~= step.text);
        }
        match written {
            Ok(_) => Ok(trimmed_end(writer.finish().as_str())),
            Err(e) => Err(e),
        }
    }
}

/// Whether the rows of the table are no wider than a `usize` can hold. A table
/// that cannot be read has no rows to be too wide.
pub fn table_is_renderable(table: &Table) -> (b: bool)
    ensures
        b == table_fits(*table),
{
    match extract_table_cell_data(table, false) {
        Ok(data) => widths_fit_in_usize(&data.merges),
        Err(_) => true,
    }
}

/// Whether the tables among the elements are all renderable.
pub fn elements_are_renderable(elements: &Vec<DocumentElement>) -> (b: bool)
    ensures
        b == elements_fit(elements@),
{
    let mut i: usize = 0;
    while i < elements.len()
        invariant
            i <= elements@.len(),
            forall|j: int| 0 <= j < i ==> element_fits(#[trigger] elements@[j]),
        decreases elements@.len() - i,
    {
        match &elements[i] {
            DocumentElement::Table(table) => {
                if !table_is_renderable(table) {
                    return false;
                }
            },
            DocumentElement::Paragraph(_) => {},
        }
        i = i + 1;
    }
    true
}

/// Whether the document can be converted with the options.
pub fn document_is_renderable(doc: &Document, options: &MarkdownOptions) -> (b: bool)
    ensures
        b == doc.renderable(*options),
{
    if !options.is_valid() {
        return false;
    }
    match &doc.elements {
        Ok(elements) => elements_are_renderable(elements),
        Err(_) => true,
    }
}

} // verus!
