//! The inline markers that are open at a point of the output, and the markers
//! that lead from one such state to the next.

use vstd::prelude::*;
use vstd::string::*;

verus! {

/// Which inline markers are open.
#[derive(Debug, Clone, Copy, PartialEq, Eq)]
pub struct FormatState {
    pub bold: bool,
    pub italic: bool,
    pub strikethrough: bool,
}

impl FormatState {
    /// No marker is open.
    pub open spec fn plain() -> FormatState {
        FormatState { bold: false, italic: false, strikethrough: false }
    }

    /// The state in which no marker is open.
    pub fn none() -> (s: Self)
        ensures
            s == Self::plain(),
    {
        FormatState { bold: false, italic: false, strikethrough: false }
    }
}

/// The markers that close what `want` no longer has, innermost first:
/// strikethrough, italic, bold.
pub open spec fn closing_markers(cur: FormatState, want: FormatState) -> Seq<char> {
    (if cur.strikethrough && !want.strikethrough {
        "~~"@
    } else {
        Seq::empty()
    }) + (if cur.italic && !want.italic {
        "*"@
    } else {
        Seq::empty()
    }) + (if cur.bold && !want.bold {
        "**"@
    } else {
        Seq::empty()
    })
}

/// The markers that open what `cur` does not have yet, outermost first: bold,
/// italic, strikethrough.
pub open spec fn opening_markers(cur: FormatState, want: FormatState) -> Seq<char> {
    (if !cur.bold && want.bold {
        "**"@
    } else {
        Seq::empty()
    }) + (if !cur.italic && want.italic {
        "*"@
    } else {
        Seq::empty()
    }) + (if !cur.strikethrough && want.strikethrough {
        "~~"@
    } else {
        Seq::empty()
    })
}

/// The markers that lead from `cur` to `want`: first the closing ones, then the
/// opening ones. Only what differs between the two is written.
pub open spec fn transition(cur: FormatState, want: FormatState) -> Seq<char> {
    closing_markers(cur, want) + opening_markers(cur, want)
}

/// The markers that close everything that is open.
pub open spec fn close_all(cur: FormatState) -> Seq<char> {
    closing_markers(cur, FormatState::plain())
}

/// Between two fragments of the same formatting no marker is written.
pub proof fn lemma_transition_to_same(s: FormatState)
    ensures
        transition(s, s) == Seq::<char>::empty(),
{
    assert(transition(s, s) =~= Seq::<char>::empty());
}

/// Appends the markers that close what `want` no longer has.
pub fn write_closing_markers(buffer: &mut String, cur: FormatState, want: FormatState)
    ensures
        final(buffer)@ == old(buffer)@ + closing_markers(cur, want),
{
    if cur.strikethrough && !want.strikethrough {
        buffer.append("~~");
    }
    if cur.italic && !want.italic {
        buffer.append("*");
    }
    if cur.bold && !want.bold {
        buffer.append("**");
    }
    proof {
        assert(buffer@ =~= old(buffer)@ + closing_markers(cur, want));
    }
}

/// Appends the markers that open what `cur` does not have yet.
pub fn write_opening_markers(buffer: &mut String, cur: FormatState, want: FormatState)
    ensures
        final(buffer)@ == old(buffer)@ + opening_markers(cur, want),
{
    if !cur.bold && want.bold {
        buffer.append("**");
    }
    if !cur.italic && want.italic {
        buffer.append("*");
    }
    if !cur.strikethrough && want.strikethrough {
        buffer.append("~~");
    }
    proof {
        assert(buffer@ =~= old(buffer)@ + opening_markers(cur, want));
    }
}

/// Appends the markers that lead from `cur` to `want`.
pub fn write_transition(buffer: &mut String, cur: FormatState, want: FormatState)
    ensures
        final(buffer)@ == old(buffer)@ + transition(cur, want),
{
    write_closing_markers(buffer, cur, want);
    write_opening_markers(buffer, cur, want);
    proof {
        assert(buffer@ =~= old(buffer)@ + transition(cur, want));
    }
}

} // verus!
