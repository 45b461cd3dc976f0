//! Superscript and subscript text written with the characters that Unicode has
//! for them.

use vstd::prelude::*;
use vstd::string::*;
use crate::text::to_chars;

verus! {

/// The superscript form of a character, where Unicode has one: the digits, the
/// signs `+ - = ( )`, and the letters `i` and `n`.
pub open spec fn superscript_of(c: char) -> Option<char> {
    match c {
        '0' => Some('\u{2070}'),
        '1' => Some('\u{00B9}'),
        '2' => Some('\u{00B2}'),
        '3' => Some('\u{00B3}'),
        '4' => Some('\u{2074}'),
        '5' => Some('\u{2075}'),
        '6' => Some('\u{2076}'),
        '7' => Some('\u{2077}'),
        '8' => Some('\u{2078}'),
        '9' => Some('\u{2079}'),
        '+' => Some('\u{207A}'),
        '-' => Some('\u{207B}'),
        '=' => Some('\u{207C}'),
        '(' => Some('\u{207D}'),
        ')' => Some('\u{207E}'),
        'i' => Some('\u{2071}'),
        'n' => Some('\u{207F}'),
        _ => None,
    }
}

/// The subscript form of a character, where Unicode has one: the digits, the
/// signs `+ - = ( )`, and the letters `a e h k l m n o p s t x`.
pub open spec fn subscript_of(c: char) -> Option<char> {
    match c {
        '0' => Some('\u{2080}'),
        '1' => Some('\u{2081}'),
        '2' => Some('\u{2082}'),
        '3' => Some('\u{2083}'),
        '4' => Some('\u{2084}'),
        '5' => Some('\u{2085}'),
        '6' => Some('\u{2086}'),
        '7' => Some('\u{2087}'),
        '8' => Some('\u{2088}'),
        '9' => Some('\u{2089}'),
        '+' => Some('\u{208A}'),
        '-' => Some('\u{208B}'),
        '=' => Some('\u{208C}'),
        '(' => Some('\u{208D}'),
        ')' => Some('\u{208E}'),
        'a' => Some('\u{2090}'),
        'e' => Some('\u{2091}'),
        'o' => Some('\u{2092}'),
        'x' => Some('\u{2093}'),
        'h' => Some('\u{2095}'),
        'k' => Some('\u{2096}'),
        'l' => Some('\u{2097}'),
        'm' => Some('\u{2098}'),
        'n' => Some('\u{2099}'),
        'p' => Some('\u{209A}'),
        's' => Some('\u{209B}'),
        't' => Some('\u{209C}'),
        _ => None,
    }
}

/// The raised or lowered form of a character.
pub open spec fn script_of(c: char, raised: bool) -> Option<char> {
    if raised {
        superscript_of(c)
    } else {
        subscript_of(c)
    }
}

/// Every character of the text has a raised or lowered form.
pub open spec fn can_convert(s: Seq<char>, raised: bool) -> bool {
    forall|i: int| 0 <= i < s.len() ==> script_of(#[trigger] s[i], raised) is Some
}

/// The text with every character in its raised or lowered form; a character
/// without one stays as it is.
pub open spec fn converted(s: Seq<char>, raised: bool) -> Seq<char> {
    Seq::new(
        s.len(),
        |i: int|
            match script_of(s[i], raised) {
                Some(c) => c,
                None => s[i],
            },
    )
}

/// The superscript form of a character, where Unicode has one.
pub fn to_superscript(c: char) -> (r: Option<char>)
    ensures
        r == superscript_of(c),
{
    match c {
        '0' => Some('\u{2070}'),
        '1' => Some('\u{00B9}'),
        '2' => Some('\u{00B2}'),
        '3' => Some('\u{00B3}'),
        '4' => Some('\u{2074}'),
        '5' => Some('\u{2075}'),
        '6' => Some('\u{2076}'),
        '7' => Some('\u{2077}'),
        '8' => Some('\u{2078}'),
        '9' => Some('\u{2079}'),
        '+' => Some('\u{207A}'),
        '-' => Some('\u{207B}'),
        '=' => Some('\u{207C}'),
        '(' => Some('\u{207D}'),
        ')' => Some('\u{207E}'),
        'i' => Some('\u{2071}'),
        'n' => Some('\u{207F}'),
        _ => None,
    }
}

/// The subscript form of a character, where Unicode has one.
pub fn to_subscript(c: char) -> (r: Option<char>)
    ensures
        r == subscript_of(c),
{
    match c {
        '0' => Some('\u{2080}'),
        '1' => Some('\u{2081}'),
        '2' => Some('\u{2082}'),
        '3' => Some('\u{2083}'),
        '4' => Some('\u{2084}'),
        '5' => Some('\u{2085}'),
        '6' => Some('\u{2086}'),
        '7' => Some('\u{2087}'),
        '8' => Some('\u{2088}'),
        '9' => Some('\u{2089}'),
        '+' => Some('\u{208A}'),
        '-' => Some('\u{208B}'),
        '=' => Some('\u{208C}'),
        '(' => Some('\u{208D}'),
        ')' => Some('\u{208E}'),
        'a' => Some('\u{2090}'),
        'e' => Some('\u{2091}'),
        'o' => Some('\u{2092}'),
        'x' => Some('\u{2093}'),
        'h' => Some('\u{2095}'),
        'k' => Some('\u{2096}'),
        'l' => Some('\u{2097}'),
        'm' => Some('\u{2098}'),
        'n' => Some('\u{2099}'),
        'p' => Some('\u{209A}'),
        's' => Some('\u{209B}'),
        't' => Some('\u{209C}'),
        _ => None,
    }
}

/// The raised or lowered form of a character.
fn to_script(c: char, raised: bool) -> (r: Option<char>)
    ensures
        r == script_of(c, raised),
{
    if raised {
        to_superscript(c)
    } else {
        to_subscript(c)
    }
}

/// Whether every character of the text has a raised or lowered form.
fn can_convert_chars(chars: &Vec<char>, raised: bool) -> (b: bool)
    ensures
        b == can_convert(chars@, raised),
{
    let mut i: usize = 0;
    while i < chars.len()
        invariant
            i <= chars@.len(),
            forall|j: int| 0 <= j < i ==> script_of(#[trigger] chars@[j], raised) is Some,
        decreases chars@.len() - i,
    {
        if to_script(chars[i], raised).is_none() {
            return false;
        }
        i = i + 1;
    }
    true
}

/// Appends the text with every character in its raised or lowered form.
fn push_converted(buffer: &mut String, chars: &Vec<char>, raised: bool)
    ensures
        final(buffer)@ == old(buffer)@ + converted(chars@, raised),
{
    let mut i: usize = 0;
    proof {
        assert(old(buffer)@ + converted(chars@, raised).take(0) =~= old(buffer)@);
    }
    while i < chars.len()
        invariant
            i <= chars@.len(),
            buffer@ == old(buffer)@ + converted(chars@, raised).take(i as int),
        decreases chars@.len() - i,
    {
        let c = match to_script(chars[i], raised) {
            Some(c) => c,
            None => chars[i],
        };
        buffer.push(c);
        proof {
            assert(converted(chars@, raised).take(i + 1) =~= converted(chars@, raised).take(
                i as int,
            ).push(c));
        }
        i = i + 1;
    }
    proof {
        assert(converted(chars@, raised).take(i as int) =~= converted(chars@, raised));
    }
}

/// Whether the text can be written in superscript characters alone.
pub fn can_convert_to_superscript(text: &str) -> (b: bool)
    ensures
        b == can_convert(text@, true),
{
    let chars = to_chars(text);
    can_convert_chars(&chars, true)
}

/// Whether the text can be written in subscript characters alone.
pub fn can_convert_to_subscript(text: &str) -> (b: bool)
    ensures
        b == can_convert(text@, false),
{
    let chars = to_chars(text);
    can_convert_chars(&chars, false)
}

/// The text in superscript characters; a character without one stays as it is.
pub fn convert_to_superscript(text: &str) -> (s: String)
    ensures
        s@ == converted(text@, true),
{
    let chars = to_chars(text);
    let mut s = String::new();
    push_converted(&mut s, &chars, true);
    proof {
        assert(Seq::<char>::empty() + converted(text@, true) =~= converted(text@, true));
    }
    s
}

/// The text in subscript characters; a character without one stays as it is.
pub fn convert_to_subscript(text: &str) -> (s: String)
    ensures
        s@ == converted(text@, false),
{
    let chars = to_chars(text);
    let mut s = String::new();
    push_converted(&mut s, &chars, false);
    proof {
        assert(Seq::<char>::empty() + converted(text@, false) =~= converted(text@, false));
    }
    s
}

/// Appends the text in raised or lowered characters if every character has such
/// a form, and says whether it did.
pub fn write_script_if_possible(buffer: &mut String, text: &str, raised: bool) -> (done: bool)
    ensures
        done == can_convert(text@, raised),
        done ==> final(buffer)@ == old(buffer)@ + converted(text@, raised),
        !done ==> final(buffer)@ == old(buffer)@,
{
    let chars = to_chars(text);
    if can_convert_chars(&chars, raised) {
        push_converted(buffer, &chars, raised);
        true
    } else {
        false
    }
}

} // verus!
