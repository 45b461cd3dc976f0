//! The options of a conversion.

use vstd::prelude::*;

verus! {

/// How a table is written.
#[derive(Debug, Clone, Copy, PartialEq, Eq)]
pub enum TableStyle {
    /// A pipe table, unless the table has merged cells.
    Markdown,
    /// A compact HTML table, without indentation or line feeds.
    MinimalHtml,
    /// An HTML table with indentation and line feeds.
    StyledHtml,
}

/// How superscript and subscript text is written.
#[derive(Debug, Clone, Copy, PartialEq, Eq)]
pub enum ScriptStyle {
    /// `<sup>` and `<sub>` tags.
    Html,
    /// Unicode superscript and subscript characters where every character has one.
    Unicode,
}

/// How struck-through text is written.
#[derive(Debug, Clone, Copy, PartialEq, Eq)]
pub enum StrikethroughStyle {
    /// `~~text~~`.
    Markdown,
    /// `<del>text</del>`.
    Html,
}

/// The delimiters put around a formula.
#[derive(Debug, Clone, Copy, PartialEq, Eq)]
pub enum FormulaStyle {
    /// `\( \)` inline and `\[ \]` on display.
    LaTeX,
    /// `$ $` inline and `$$ $$` on display.
    Dollar,
}

/// The options of a render.
#[derive(Debug, Clone, Copy, PartialEq, Eq)]
pub struct MarkdownOptions {
    /// Write the front matter before the content.
    pub include_metadata: bool,
    /// Write bold, italic and the other run properties.
    pub include_styles: bool,
    /// Render large inputs on several threads.
    pub use_parallel: bool,
    pub table_style: TableStyle,
    pub script_style: ScriptStyle,
    pub strikethrough_style: StrikethroughStyle,
    pub formula_style: FormulaStyle,
    /// Spaces per list level; a list level is a whole number of these.
    pub list_indent: usize,
    /// Spaces per indentation step of a styled HTML table.
    pub html_table_indent: usize,
}

impl MarkdownOptions {
    /// Options that the writer can work with: a list level has a width.
    pub open spec fn valid(&self) -> bool {
        self.list_indent > 0
    }

    /// Whether the options are [`valid`](Self::valid).
    pub fn is_valid(&self) -> (r: bool)
        ensures
            r == self.valid(),
    {
        self.list_indent > 0
    }
}

impl Default for MarkdownOptions {
    fn default() -> (r: Self)
        ensures
            r == (MarkdownOptions {
                include_metadata: true,
                include_styles: true,
                use_parallel: true,
                table_style: TableStyle::Markdown,
                script_style: ScriptStyle::Html,
                strikethrough_style: StrikethroughStyle::Markdown,
                formula_style: FormulaStyle::LaTeX,
                list_indent: 2,
                html_table_indent: 2,
            }),
            r.valid(),
    {
        MarkdownOptions {
            include_metadata: true,
            include_styles: true,
            use_parallel: true,
            table_style: TableStyle::Markdown,
            script_style: ScriptStyle::Html,
            strikethrough_style: StrikethroughStyle::Markdown,
            formula_style: FormulaStyle::LaTeX,
            list_indent: 2,
            html_table_indent: 2,
        }
    }
}

} // verus!
