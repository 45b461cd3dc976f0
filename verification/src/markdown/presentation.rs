//! Conversion of presentations and slides.

use vstd::prelude::*;
use vstd::string::*;
use crate::document::run::clone_text;
use crate::error::{Error, ErrorView, text_outcome};
use crate::markdown::escape::{is_one_of, split_at_first};
use crate::markdown::rendered::front_matter;
use crate::markdown::traits::ToMarkdown;
use crate::markdown::writer::{MarkdownWriter, appended};
use crate::markdown::config::MarkdownOptions;
use crate::parallel::par_map_index;
use crate::presentation::{Presentation, Slide, SlideText};
use crate::text::{decimal, push_decimal, string_of, to_chars};

verus! {

/// The number of slides that a presentation exceeds to have them handed out to
/// threads.
pub const PARALLEL_THRESHOLD: usize = 10;

/// The number of characters before the first line feed of the text.
pub open spec fn line_end(text: Seq<char>) -> nat
    decreases text.len(),
{
    if text.len() == 0 || text[0] == '\n' {
        0
    } else {
        1 + line_end(text.drop_first())
    }
}

/// The first line of a text: what stands before the first line feed, without
/// the carriage return that may stand before that line feed. The whole text where
/// it has no line feed.
pub open spec fn first_line(text: Seq<char>) -> Seq<char> {
    let n = line_end(text) as int;
    if n < text.len() && n > 0 && text[n - 1] == '\r' {
        text.take(n - 1)
    } else {
        text.take(n)
    }
}

/// A text without a line feed ends its first line where it ends, or at the line
/// feed that follows it.
pub proof fn lemma_line_end(head: Seq<char>, rest: Seq<char>)
    requires
        forall|j: int| 0 <= j < head.len() ==> #[trigger] head[j] != '\n',
        rest.len() == 0 || rest[0] == '\n',
    ensures
        line_end(head + rest) == head.len(),
    decreases head.len(),
{
    if head.len() == 0 {
        assert(head + rest =~= rest);
    } else {
        assert((head + rest).drop_first() =~= head.drop_first() + rest);
        assert((head + rest)[0] == head[0]);
        assert forall|j: int| 0 <= j < head.drop_first().len() implies #[trigger] head.drop_first()[j]
            != '\n' by {
            assert(head.drop_first()[j] == head[j + 1]);
        }
        lemma_line_end(head.drop_first(), rest);
    }
}

/// The header of a slide: its number, and its first line as the title.
pub open spec fn slide_header(number: usize, text: Seq<char>) -> Seq<char> {
    if first_line(text).len() == 0 {
        "# Slide "@ + decimal(number as nat)
    } else {
        "# Slide "@ + decimal(number as nat) + " "@ + first_line(text)
    }
}

/// A slide: its header, a blank line, and its text with a blank line after it
/// where it has any.
pub open spec fn slide_markdown(number: usize, text: Seq<char>) -> Seq<char> {
    if text.len() == 0 {
        slide_header(number, text) + "\n\n"@
    } else {
        slide_header(number, text) + "\n\n"@ + text + "\n\n"@
    }
}

/// The slides from the first up to, not including, slide `n`, with a horizontal
/// rule between every two.
pub open spec fn slides_markdown(slides: Seq<SlideText>, n: int) -> Seq<char>
    decreases n,
{
    if n <= 0 {
        Seq::empty()
    } else if n == 1 {
        slide_markdown(slides[0].number, slides[0].text@)
    } else {
        slides_markdown(slides, n - 1) + "\n\n---\n\n"@ + slide_markdown(
            slides[n - 1].number,
            slides[n - 1].text@,
        )
    }
}

/// The front matter of a presentation, or the error of reading it. The metadata
/// is not read where the options leave it out; a presentation without metadata
/// has no front matter.
pub open spec fn presentation_front_matter(
    presentation: Presentation,
    options: MarkdownOptions,
) -> Result<Seq<char>, ErrorView> {
    if !options.include_metadata {
        Ok(Seq::empty())
    } else {
        match presentation.metadata {
            Err(e) => Err(e@),
            Ok(None) => Ok(Seq::empty()),
            Ok(Some(metadata)) => front_matter(metadata, options),
        }
    }
}

/// The Markdown of a presentation: the front matter, then the slides in their
/// order with a horizontal rule between every two.
pub open spec fn presentation_markdown(
    presentation: Presentation,
    options: MarkdownOptions,
) -> Result<Seq<char>, ErrorView> {
    match presentation_front_matter(presentation, options) {
        Err(e) => Err(e),
        Ok(front) => match presentation.slide_texts {
            Err(e) => Err(e@),
            Ok(slides) => Ok(front + slides_markdown(slides@, slides@.len() as int)),
        },
    }
}

/// The first line of a text.
pub fn first_line_of(text: &str) -> (line: String)
    ensures
        line@ == first_line(text@),
{
    let needles: [u8; 1] = [0x0a];
    match split_at_first(text, needles.as_slice()) {
        None => {
            proof {
                assert forall|j: int| 0 <= j < text@.len() implies #[trigger] text@[j] != '\n' by {
                    assert(!is_one_of(text@[j], needles@));
                    assert(needles@[0] == 0x0a);
                }
                lemma_line_end(text@, Seq::<char>::empty());
                assert(text@ + Seq::<char>::empty() =~= text@);
                assert(text@.take(text@.len() as int) =~= text@);
            }
            String::from_str(text)
        },
        Some((head, b, tail)) => {
            let chars = to_chars(head);
            let n = chars.len();
            proof {
                let k = choose|k: int| 0 <= k < needles@.len() && needles@[k] == b;
                assert(b == 0x0a);
                assert forall|j: int| 0 <= j < head@.len() implies #[trigger] head@[j] != '\n' by {
                    assert(!is_one_of(head@[j], needles@));
                    assert(needles@[0] == 0x0a);
                }
                let rest = seq![b as char] + tail@;
                assert(text@ =~= head@ + rest);
                lemma_line_end(head@, rest);
                assert(text@.take(n as int) =~= head@);
                assert(n > 0 ==> text@[n - 1] == head@[n - 1]);
                assert(n > 0 ==> text@.take(n - 1) =~= head@.subrange(0, n - 1));
                assert(head@.subrange(0, n as int) =~= head@);
            }
            if n > 0 && chars[n - 1] == '\r' {
                string_of(&chars, 0, n - 1)
            } else {
                string_of(&chars, 0, n)
            }
        },
    }
}

/// Appends a slide: its header and its text.
pub fn write_slide(writer: &mut MarkdownWriter, slide: &SlideText)
    ensures
        appended(
            old(writer)@,
            final(writer)@,
            slide_markdown(slide.number, slide.text@),
        ),
{
    let ghost start = writer@;
    let line = first_line_of(slide.text.as_str());
    let mut header_text = String::from_str("# Slide ");
    push_decimal(&mut header_text, slide.number);
    if !line.as_str().is_empty() {
        header_text.append(" ");
        header_text.append(line.as_str());
    }
    proof {
        assert(header_text@ =~= slide_header(slide.number, slide.text@));
    }
    writer.push_str(header_text.as_str());
    writer.push_str("\n\n");
    if !slide.text.as_str().is_empty() {
        writer.push_str(slide.text.as_str());
        writer.push_str("\n\n");
    }
    proof {
        assert(writer@.buffer =~= start.buffer + slide_markdown(slide.number, slide.text@));
    }
}

/// A slide rendered with a writer of its own.
pub fn render_slide(slide: &SlideText, options: &MarkdownOptions) -> (s: String)
    ensures
        s@ == slide_markdown(slide.number, slide.text@),
{
    let mut writer = MarkdownWriter::new(*options);
    write_slide(&mut writer, slide);
    proof {
        assert(Seq::<char>::empty() + slide_markdown(slide.number, slide.text@) =~= slide_markdown(
            slide.number,
            slide.text@,
        ));
    }
    writer.finish()
}

/// Renders the slides one after the other with one writer.
pub fn render_slides_in_turn(slides: &Vec<SlideText>, options: &MarkdownOptions) -> (s: String)
    ensures
        s@ == slides_markdown(slides@, slides@.len() as int),
{
    let mut writer = MarkdownWriter::new(*options);
    let mut i: usize = 0;
    while i < slides.len()
        invariant
            i <= slides@.len(),
            writer@.buffer == slides_markdown(slides@, i as int),
        decreases slides@.len() - i,
    {
        let ghost before = writer@.buffer;
        if i > 0 {
            writer.push_str("\n\n---\n\n");
        }
        write_slide(&mut writer, &slides[i]);
        proof {
            if i == 0 {
                assert(Seq::<char>::empty() + slide_markdown(slides@[0].number, slides@[0].text@)
                    =~= slide_markdown(slides@[0].number, slides@[0].text@));
            }
        }
        i = i + 1;
    }
    writer.finish()
}

/// Renders the slides on several threads, each with a writer of its own, and puts
/// the results together in the order of the slides.
pub fn render_slides_in_parallel(slides: &Vec<SlideText>, options: &MarkdownOptions) -> (s: String)
    ensures
        s@ == slides_markdown(slides@, slides@.len() as int),
{
    let n = slides.len();
    let render = |i: usize| -> (s: String)
        requires
            i < n,
            n == slides@.len(),
        ensures
            s@ == slide_markdown(slides@[i as int].number, slides@[i as int].text@),
        { render_slide(&slides[i], options) };
    let slide_strings = par_map_index(n, render);
    proof {
        assert forall|i: int| 0 <= i < n implies (#[trigger] slide_strings@[i])@ == slide_markdown(
            slides@[i].number,
            slides@[i].text@,
        ) by {
            assert(call_ensures(render, (i as usize,), slide_strings@[i as usize as int]));
        }
    }
    let mut result = String::new();
    let mut i: usize = 0;
    while i < n
        invariant
            i <= n,
            n == slides@.len(),
            n == slide_strings@.len(),
            forall|j: int|
                0 <= j < n ==> (#[trigger] slide_strings@[j])@ == slide_markdown(
                    slides@[j].number,
                    slides@[j].text@,
                ),
            result@ == slides_markdown(slides@, i as int),
        decreases n - i,
    {
        if i > 0 {
            result.append("\n\n---\n\n");
        }
        result.append(slide_strings[i].as_str());
        proof {
            if i == 0 {
                assert(Seq::<char>::empty() + slide_strings@[0]@ =~= slide_strings@[0]@);
            }
        }
        i = i + 1;
    }
    result
}

/// Renders the front matter of a presentation.
fn render_presentation_front_matter(presentation: &Presentation, options: &MarkdownOptions) -> (r:
    Result<String, Error>)
    ensures
        text_outcome(r) == presentation_front_matter(*presentation, *options),
{
    if !options.include_metadata {
        return Ok(String::new());
    }
    match &presentation.metadata {
        Err(e) => Err(e.clone()),
        Ok(None) => Ok(String::new()),
        Ok(Some(metadata)) => {
            let mut metadata_writer = MarkdownWriter::new(*options);
            match metadata_writer.write_metadata(metadata) {
                Ok(_) => {},
                Err(e) => {
                    return Err(e);
                },
            }
            proof {
                let text = front_matter(*metadata, *options)->Ok_0;
                assert(Seq::<char>::empty() + text =~= text);
            }
            Ok(metadata_writer.finish())
        },
    }
}

impl ToMarkdown for Presentation {
    open spec fn renderable(&self, options: MarkdownOptions) -> bool {
        true
    }

    open spec fn markdown(&self, options: MarkdownOptions) -> Result<Seq<char>, ErrorView> {
        presentation_markdown(*self, options)
    }

    /// The front matter comes first, then the slides in their order. A
    /// presentation of more than [`PARALLEL_THRESHOLD`] slides is rendered on
    /// several threads where the options allow it; the result is the same either
    /// way.
    fn to_markdown_with_options(&self, options: &MarkdownOptions) -> (r: Result<String, Error>) {
        let metadata_md = match render_presentation_front_matter(self, options) {
            Ok(text) => text,
            Err(e) => {
                return Err(e);
            },
        };
        let slide_texts = match &self.slide_texts {
            Ok(slides) => slides,
            Err(e) => {
                return Err(e.clone());
            },
        };
        let content_md = if options.use_parallel && slide_texts.len() > PARALLEL_THRESHOLD {
            render_slides_in_parallel(slide_texts, options)
        } else {
            render_slides_in_turn(slide_texts, options)
        };
        let mut result = metadata_md;
        result.append(content_md.as_str());
        Ok(result)
    }
}

impl ToMarkdown for Slide {
    open spec fn renderable(&self, options: MarkdownOptions) -> bool {
        true
    }

    open spec fn markdown(&self, options: MarkdownOptions) -> Result<Seq<char>, ErrorView> {
        text_outcome(self.text)
    }

    /// A slide on its own is its text.
    fn to_markdown_with_options(&self, options: &MarkdownOptions) -> (r: Result<String, Error>) {
        clone_text(&self.text)
    }
}

} // verus!
