//! List items: the marker that a paragraph begins with, brought to one form.

use vstd::prelude::*;
use vstd::string::*;
use crate::text::{
    count_leading_whitespace,
    is_ascii_digit,
    char_is_ascii_digit,
    leading_whitespace,
    push_spaces,
    spaces,
    string_of,
    to_chars,
    trim_start,
};

verus! {

/// Types of lists supported.
#[derive(Debug, Clone, Copy, PartialEq, Eq)]
pub enum ListType {
    /// Ordered list (numbered).
    Ordered,
    /// Unordered list (bulleted).
    Unordered,
}

/// Information about a detected list item.
#[derive(Debug, PartialEq, Eq)]
pub struct ListItemInfo {
    /// The type of list.
    pub list_type: ListType,
    /// The nesting level (0 = top level).
    pub level: usize,
    /// The marker in its one form: the digits and a full stop, or a hyphen.
    pub marker: String,
    /// The content after the marker.
    pub content: String,
    /// The number of characters of the paragraph text that stand before the
    /// content: the white space at its start, the marker as the text has it, and
    /// the white space that parts the marker from the content.
    pub content_start: usize,
}

/// A [`ListItemInfo`] as a mathematical value.
pub struct ListItemModel {
    pub list_type: ListType,
    pub level: nat,
    pub marker: Seq<char>,
    pub content: Seq<char>,
    pub content_start: nat,
}

impl ListItemInfo {
    /// The indent of the level can be held in a `usize`.
    pub open spec fn fits(&self, list_indent: usize) -> bool {
        self.level * list_indent <= usize::MAX
    }
}

impl View for ListItemInfo {
    type V = ListItemModel;

    open spec fn view(&self) -> ListItemModel {
        ListItemModel {
            list_type: self.list_type,
            level: self.level as nat,
            marker: self.marker@,
            content: self.content@,
            content_start: self.content_start as nat,
        }
    }
}

/// The number of ASCII digits at the start of the text.
pub open spec fn leading_digits(s: Seq<char>) -> nat
    decreases s.len(),
{
    if s.len() > 0 && is_ascii_digit(s[0]) {
        1 + leading_digits(s.drop_first())
    } else {
        0
    }
}

/// A character that marks an item of an unordered list: hyphen, asterisk, bullet.
pub open spec fn is_bullet(c: char) -> bool {
    c == '-' || c == '*' || c == '\u{2022}'
}

/// The text begins with digits, a full stop or closing parenthesis, and a space.
pub open spec fn has_numbered_marker(t: Seq<char>) -> bool {
    let k = leading_digits(t) as int;
    k > 0 && k + 1 < t.len() && (t[k] == '.' || t[k] == ')') && t[k + 1] == ' '
}

/// The text begins with digits in parentheses and a space. There is at least one
/// digit between the parentheses.
pub open spec fn has_parenthesized_marker(t: Seq<char>) -> bool {
    t.len() > 0 && t[0] == '(' && {
        let m = leading_digits(t.skip(1)) as int;
        m > 0 && m + 2 < t.len() && t[m + 1] == ')' && t[m + 2] == ' '
    }
}

/// The text begins with a bullet and a space or tab.
pub open spec fn has_bullet_marker(t: Seq<char>) -> bool {
    t.len() > 1 && is_bullet(t[0]) && (t[1] == ' ' || t[1] == '\t')
}

/// The ordered item that a text is after the `lead` characters of white space at
/// its start, if it is one: digits before a full stop or closing parenthesis, or
/// digits in parentheses, and a space. Its marker is the digits and a full stop,
/// whatever form it had.
pub open spec fn ordered_list_item(t: Seq<char>, level: nat, lead: nat) -> Option<ListItemModel> {
    if has_numbered_marker(t) {
        let k = leading_digits(t) as int;
        Some(
            ListItemModel {
                list_type: ListType::Ordered,
                level,
                marker: t.take(k).push('.'),
                content: t.skip(k + 2),
                content_start: lead + (k + 2) as nat,
            },
        )
    } else if has_parenthesized_marker(t) {
        let m = leading_digits(t.skip(1)) as int;
        Some(
            ListItemModel {
                list_type: ListType::Ordered,
                level,
                marker: t.subrange(1, m + 1).push('.'),
                content: t.skip(m + 3),
                content_start: lead + (m + 3) as nat,
            },
        )
    } else {
        None
    }
}

/// The unordered item that a text is after the `lead` characters of white space
/// at its start, if it is one: a bullet and a space or tab. Its marker is a hyphen,
/// whatever bullet it had, and its content begins after the white space that
/// follows the bullet.
pub open spec fn unordered_list_item(t: Seq<char>, level: nat, lead: nat) -> Option<ListItemModel> {
    if has_bullet_marker(t) {
        Some(
            ListItemModel {
                list_type: ListType::Unordered,
                level,
                marker: "-"@,
                content: trim_start(t.skip(1)),
                content_start: lead + 1 + leading_whitespace(t.skip(1)),
            },
        )
    } else {
        None
    }
}

/// The level of a paragraph text: the length of the white space at its start,
/// divided by the indent width.
pub open spec fn indent_level(text: Seq<char>, list_indent: nat) -> nat {
    leading_whitespace(text) / list_indent
}

/// The list item that a paragraph text is, if it is one.
///
/// The white space at the start of the text gives the level. What follows is
/// tried as an ordered item, then as an unordered one.
pub open spec fn list_item(text: Seq<char>, list_indent: nat) -> Option<ListItemModel> {
    let level = indent_level(text, list_indent);
    let lead = leading_whitespace(text);
    match ordered_list_item(trim_start(text), level, lead) {
        Some(item) => Some(item),
        None => unordered_list_item(trim_start(text), level, lead),
    }
}

/// What stands before the content of a list item: the indent of its level, the
/// marker, and a space.
pub open spec fn list_item_prefix(item: ListItemModel, list_indent: nat) -> Seq<char> {
    spaces(item.level * list_indent) + item.marker + " "@
}

/// A list item written without regard to runs.
pub open spec fn plain_list_item(item: ListItemModel, list_indent: nat) -> Seq<char> {
    list_item_prefix(item, list_indent) + item.content
}

/// Every character of the text is an ASCII digit.
pub open spec fn all_digits(s: Seq<char>) -> bool {
    forall|i: int| 0 <= i < s.len() ==> is_ascii_digit(#[trigger] s[i])
}

/// Digits followed by something that does not begin with a digit are the leading
/// digits of the whole.
pub proof fn lemma_leading_digits_of(digits: Seq<char>, rest: Seq<char>)
    requires
        all_digits(digits),
        rest.len() == 0 || !is_ascii_digit(rest[0]),
    ensures
        leading_digits(digits + rest) == digits.len(),
    decreases digits.len(),
{
    if digits.len() == 0 {
        assert(digits + rest =~= rest);
    } else {
        assert((digits + rest)[0] == digits[0]);
        assert((digits + rest).drop_first() =~= digits.drop_first() + rest);
        assert forall|i: int| 0 <= i < digits.drop_first().len() implies is_ascii_digit(
            #[trigger] digits.drop_first()[i],
        ) by {
            assert(digits.drop_first()[i] == digits[i + 1]);
        }
        lemma_leading_digits_of(digits.drop_first(), rest);
    }
}

/// The ordered item with the number `digits` and the content `content`, at the
/// top level.
pub open spec fn numbered_item(
    digits: Seq<char>,
    content: Seq<char>,
    content_start: nat,
) -> ListItemModel {
    ListItemModel {
        list_type: ListType::Ordered,
        level: 0,
        marker: digits.push('.'),
        content,
        content_start,
    }
}

/// The three forms of an ordered marker give the same marker and content.
///
/// Whatever the number and the content: `1. `, `1) ` and `(1) ` before the content
/// are all read as the item with the marker `1.` and that content.
pub proof fn lemma_ordered_forms_agree(digits: Seq<char>, content: Seq<char>, list_indent: nat)
    requires
        digits.len() > 0,
        all_digits(digits),
        list_indent > 0,
    ensures
        list_item(digits + seq!['.', ' '] + content, list_indent) == Some(
            numbered_item(digits, content, digits.len() + 2),
        ),
        list_item(digits + seq![')', ' '] + content, list_indent) == Some(
            numbered_item(digits, content, digits.len() + 2),
        ),
        list_item(seq!['('] + digits + seq![')', ' '] + content, list_indent) == Some(
            numbered_item(digits, content, digits.len() + 3),
        ),
{
    let k = digits.len() as int;
    assert(is_ascii_digit(digits[0]));
    assert(0int / (list_indent as int) == 0) by (nonlinear_arith)
        requires
            list_indent > 0,
    ;
    let dotted = digits + seq!['.', ' '] + content;
    assert(dotted =~= digits + (seq!['.', ' '] + content));
    lemma_leading_digits_of(digits, seq!['.', ' '] + content);
    assert(dotted[0] == digits[0]);
    assert(dotted.skip(0) =~= dotted);
    assert(dotted.take(k) =~= digits);
    assert(dotted.skip(k + 2) =~= content);
    assert(has_numbered_marker(dotted));

    let closed = digits + seq![')', ' '] + content;
    assert(closed =~= digits + (seq![')', ' '] + content));
    lemma_leading_digits_of(digits, seq![')', ' '] + content);
    assert(closed[0] == digits[0]);
    assert(closed.skip(0) =~= closed);
    assert(closed.take(k) =~= digits);
    assert(closed.skip(k + 2) =~= content);
    assert(has_numbered_marker(closed));

    let wrapped = seq!['('] + digits + seq![')', ' '] + content;
    assert(wrapped.skip(1) =~= digits + (seq![')', ' '] + content));
    lemma_leading_digits_of(digits, seq![')', ' '] + content);
    assert(wrapped[0] == '(');
    assert(wrapped.skip(0) =~= wrapped);
    assert(leading_digits(wrapped) == 0);
    assert(!has_numbered_marker(wrapped));
    assert(wrapped.subrange(1, k + 1) =~= digits);
    assert(wrapped.skip(k + 3) =~= content);
    assert(has_parenthesized_marker(wrapped));
}

/// The number of ASCII digits that the text has from index `from` on, without a gap.
fn count_leading_digits(chars: &Vec<char>, from: usize) -> (n: usize)
    requires
        from <= chars@.len(),
    ensures
        n == leading_digits(chars@.skip(from as int)),
        from + n <= chars@.len(),
{
    let mut i: usize = from;
    while i < chars.len() && char_is_ascii_digit(chars[i])
        invariant
            from <= i <= chars@.len(),
            leading_digits(chars@.skip(from as int)) == (i - from) + leading_digits(
                chars@.skip(i as int),
            ),
        decreases chars@.len() - i,
    {
        proof {
            assert(chars@.skip(i as int).drop_first() =~= chars@.skip(i + 1));
        }
        i = i + 1;
    }
    i - from
}

/// The digits and a full stop.
fn numbered_marker(chars: &Vec<char>, from: usize, to: usize) -> (s: String)
    requires
        from <= to <= chars@.len(),
    ensures
        s@ == chars@.subrange(from as int, to as int).push('.'),
{
    let mut s = string_of(chars, from, to);
    s.push('.');
    s
}

/// The ordered item of the form `1. ` or `1) ` that the text is from index `lead` on.
fn detect_numbered(chars: &Vec<char>, lead: usize, level: usize) -> (r: Option<ListItemInfo>)
    requires
        lead <= chars@.len(),
    ensures
        match r {
            Some(info) => {
                let t = chars@.skip(lead as int);
                let k = leading_digits(t) as int;
                &&& has_numbered_marker(t)
                &&& info@ == ListItemModel {
                    list_type: ListType::Ordered,
                    level: level as nat,
                    marker: t.take(k).push('.'),
                    content: t.skip(k + 2),
                    content_start: (lead + k + 2) as nat,
                }
            },
            None => !has_numbered_marker(chars@.skip(lead as int)),
        },
{
    let n = chars.len();
    let ghost t = chars@.skip(lead as int);
    let k = count_leading_digits(chars, lead);
    let dot = lead + k;
    if k > 0 && n - dot > 1 && (chars[dot] == '.' || chars[dot] == ')') && chars[dot + 1] == ' ' {
        let marker = numbered_marker(chars, lead, dot);
        let content = string_of(chars, dot + 2, n);
        proof {
            assert(marker@ =~= t.take(k as int).push('.'));
            assert(content@ =~= t.skip(k + 2));
        }
        Some(
            ListItemInfo {
                list_type: ListType::Ordered,
                level,
                marker,
                content,
                content_start: dot + 2,
            },
        )
    } else {
        None
    }
}

/// The ordered item of the form `(1) ` that the text is from index `lead` on.
fn detect_parenthesized(chars: &Vec<char>, lead: usize, level: usize) -> (r: Option<ListItemInfo>)
    requires
        lead <= chars@.len(),
    ensures
        match r {
            Some(info) => {
                let t = chars@.skip(lead as int);
                let m = leading_digits(t.skip(1)) as int;
                &&& has_parenthesized_marker(t)
                &&& info@ == ListItemModel {
                    list_type: ListType::Ordered,
                    level: level as nat,
                    marker: t.subrange(1, m + 1).push('.'),
                    content: t.skip(m + 3),
                    content_start: (lead + m + 3) as nat,
                }
            },
            None => !has_parenthesized_marker(chars@.skip(lead as int)),
        },
{
    let n = chars.len();
    let ghost t = chars@.skip(lead as int);
    if lead < n && chars[lead] == '(' {
        let m = count_leading_digits(chars, lead + 1);
        let close = lead + 1 + m;
        proof {
            assert(t.skip(1) =~= chars@.skip(lead + 1));
        }
        if m > 0 && n - close > 1 && chars[close] == ')' && chars[close + 1] == ' ' {
            let marker = numbered_marker(chars, lead + 1, close);
            let content = string_of(chars, close + 2, n);
            proof {
                assert(marker@ =~= t.subrange(1, m + 1).push('.'));
                assert(content@ =~= t.skip(m + 3));
            }
            return Some(
                ListItemInfo {
                    list_type: ListType::Ordered,
                    level,
                    marker,
                    content,
                    content_start: close + 2,
                },
            );
        }
    }
    None
}

/// Extract ordered list marker and content: the ordered item that the text is
/// from index `lead` on.
fn extract_ordered_list_marker(chars: &Vec<char>, lead: usize, level: usize) -> (r: Option<
    ListItemInfo,
>)
    requires
        lead <= chars@.len(),
    ensures
        match r {
            Some(info) => ordered_list_item(chars@.skip(lead as int), level as nat, lead as nat)
                == Some(info@),
            None => ordered_list_item(chars@.skip(lead as int), level as nat, lead as nat) is None,
        },
{
    match detect_numbered(chars, lead, level) {
        Some(info) => Some(info),
        None => detect_parenthesized(chars, lead, level),
    }
}

/// Extract unordered list marker and content: the unordered item that the text
/// is from index `lead` on.
fn extract_unordered_list_marker(chars: &Vec<char>, lead: usize, level: usize) -> (r: Option<
    ListItemInfo,
>)
    requires
        lead <= chars@.len(),
    ensures
        match r {
            Some(info) => unordered_list_item(chars@.skip(lead as int), level as nat, lead as nat)
                == Some(info@),
            None => unordered_list_item(chars@.skip(lead as int), level as nat, lead as nat)
                is None,
        },
{
    let n = chars.len();
    let ghost t = chars@.skip(lead as int);
    if n - lead > 1 && (chars[lead] == '-' || chars[lead] == '*' || chars[lead] == '\u{2022}') && (
    chars[lead + 1] == ' ' || chars[lead + 1] == '\t') {
        let blank = count_leading_whitespace(chars, lead + 1);
        let content = string_of(chars, lead + 1 + blank, n);
        proof {
            assert(t.skip(1) =~= chars@.skip(lead + 1));
            assert(content@ =~= trim_start(t.skip(1)));
        }
        Some(
            ListItemInfo {
                list_type: ListType::Unordered,
                level,
                marker: String::from_str("-"),
                content,
                content_start: lead + 1 + blank,
            },
        )
    } else {
        None
    }
}

/// Calculate the indentation level from the white space at the start of the
/// text: its length and the level that it gives.
fn calculate_indent_level(chars: &Vec<char>, list_indent: usize) -> (r: (usize, usize))
    requires
        list_indent > 0,
    ensures
        r.0 == leading_whitespace(chars@),
        r.0 <= chars@.len(),
        r.1 == indent_level(chars@, list_indent as nat),
        r.1 * list_indent <= usize::MAX,
{
    let lead = count_leading_whitespace(chars, 0);
    proof {
        assert(chars@.skip(0) =~= chars@);
        assert((lead / list_indent) * list_indent <= lead) by (nonlinear_arith)
            requires
                list_indent > 0,
                lead >= 0,
        ;
    }
    (lead, lead / list_indent)
}

/// Detect if a paragraph is a list item and extract list information.
pub fn detect_list_item(text: &str, list_indent: usize) -> (r: Option<ListItemInfo>)
    requires
        list_indent > 0,
    ensures
        match r {
            Some(info) => list_item(text@, list_indent as nat) == Some(info@) && info.fits(
                list_indent,
            ),
            None => list_item(text@, list_indent as nat) is None,
        },
{
    let chars = to_chars(text);
    let (lead, level) = calculate_indent_level(&chars, list_indent);
    match extract_ordered_list_marker(&chars, lead, level) {
        Some(info) => Some(info),
        None => extract_unordered_list_marker(&chars, lead, level),
    }
}

/// Appends what stands before the content of a list item.
pub fn write_list_item_prefix(buffer: &mut String, info: &ListItemInfo, list_indent: usize)
    requires
        info.fits(list_indent),
    ensures
        final(buffer)@ == old(buffer)@ + list_item_prefix(info@, list_indent as nat),
{
    push_spaces(buffer, info.level * list_indent);
    buffer.append(info.marker.as_str());
    buffer.append(" ");
    proof {
        assert(buffer@ =~= old(buffer)@ + list_item_prefix(info@, list_indent as nat));
    }
}

/// Appends a list item written without regard to runs: the indent of its level,
/// the marker, a space, and the content.
pub fn write_plain_list_item(buffer: &mut String, info: &ListItemInfo, list_indent: usize)
    requires
        info.fits(list_indent),
    ensures
        final(buffer)@ == old(buffer)@ + plain_list_item(info@, list_indent as nat),
{
    write_list_item_prefix(buffer, info, list_indent);
    buffer.append(info.content.as_str());
    proof {
        assert(buffer@ =~= old(buffer)@ + plain_list_item(info@, list_indent as nat));
    }
}

} // verus!
