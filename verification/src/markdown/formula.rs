//! Formulas, written between the delimiters of the chosen style.

use vstd::prelude::*;
use vstd::string::*;
use crate::common::MathPayload;
use crate::markdown::config::FormulaStyle;

verus! {

/// The text that stands for a formula: its LaTeX, or a fixed placeholder where
/// there is none.
pub open spec fn formula_text(payload: MathPayload) -> Seq<char> {
    match payload {
        MathPayload::Latex(latex) => latex@,
        MathPayload::ConversionFailed => "[Formula conversion error]"@,
        MathPayload::Unreadable => "[Formula]"@,
        MathPayload::Unsupported => "[Formula support disabled]"@,
    }
}

/// The delimiter before a formula.
pub open spec fn formula_opening(inline: bool, style: FormulaStyle) -> Seq<char> {
    match style {
        FormulaStyle::LaTeX => if inline {
            "\\("@
        } else {
            "\\["@
        },
        FormulaStyle::Dollar => if inline {
            "$"@
        } else {
            "$$"@
        },
    }
}

/// The delimiter after a formula.
pub open spec fn formula_closing(inline: bool, style: FormulaStyle) -> Seq<char> {
    match style {
        FormulaStyle::LaTeX => if inline {
            "\\)"@
        } else {
            "\\]"@
        },
        FormulaStyle::Dollar => if inline {
            "$"@
        } else {
            "$$"@
        },
    }
}

/// A formula between its delimiters.
pub open spec fn formula_markdown(formula: Seq<char>, inline: bool, style: FormulaStyle) -> Seq<
    char,
> {
    formula_opening(inline, style) + formula + formula_closing(inline, style)
}

/// A formula of the document between its delimiters.
pub open spec fn payload_markdown(payload: MathPayload, inline: bool, style: FormulaStyle) -> Seq<
    char,
> {
    formula_markdown(formula_text(payload), inline, style)
}

/// Appends a formula with the appropriate delimiters.
pub fn write_formula(buffer: &mut String, formula: &str, inline: bool, style: FormulaStyle)
    ensures
        final(buffer)@ == old(buffer)@ + formula_markdown(formula@, inline, style),
{
    match style {
        FormulaStyle::LaTeX => {
            if inline {
                buffer.append("\\(");
                buffer.append(formula);
                buffer.append("\\)");
            } else {
                buffer.append("\\[");
                buffer.append(formula);
                buffer.append("\\]");
            }
        },
        FormulaStyle::Dollar => {
            if inline {
                buffer.append("$");
                buffer.append(formula);
                buffer.append("$");
            } else {
                buffer.append("$$");
                buffer.append(formula);
                buffer.append("$$");
            }
        },
    }
    proof {
        assert(buffer@ =~= old(buffer)@ + formula_markdown(formula@, inline, style));
    }
}

/// Format a formula with the appropriate delimiters.
pub fn format_formula(formula: &str, inline: bool, style: FormulaStyle) -> (s: String)
    ensures
        s@ == formula_markdown(formula@, inline, style),
{
    let mut s = String::new();
    write_formula(&mut s, formula, inline, style);
    proof {
        assert(Seq::<char>::empty() + formula_markdown(formula@, inline, style)
            =~= formula_markdown(formula@, inline, style));
    }
    s
}

/// Appends a formula of the document: its LaTeX, or the placeholder that stands
/// for a formula that could not be converted.
pub fn write_payload(buffer: &mut String, payload: &MathPayload, inline: bool, style: FormulaStyle)
    ensures
        final(buffer)@ == old(buffer)@ + payload_markdown(*payload, inline, style),
{
    match payload {
        MathPayload::Latex(latex) => write_formula(buffer, latex.as_str(), inline, style),
        MathPayload::ConversionFailed => write_formula(
            buffer,
            "[Formula conversion error]",
            inline,
            style,
        ),
        MathPayload::Unreadable => write_formula(buffer, "[Formula]", inline, style),
        MathPayload::Unsupported => write_formula(
            buffer,
            "[Formula support disabled]",
            inline,
            style,
        ),
    }
}

} // verus!
