//! Characters and strings: white space, trimming, decimal numbers, and the
//! passage between strings and sequences of characters.

use vstd::prelude::*;
use vstd::string::*;

verus! {

/// `String::push` of std appends the character to the end of the string.
pub assume_specification[ String::push ](s: &mut String, c: char)
    ensures
        final(s)@ == old(s)@.push(c),
;

/// White space, as Unicode's property `White_Space` has it.
pub open spec fn is_whitespace(c: char) -> bool {
    let u = c as u32;
    ||| 0x09 <= u <= 0x0D
    ||| u == 0x20
    ||| u == 0x85
    ||| u == 0xA0
    ||| u == 0x1680
    ||| 0x2000 <= u <= 0x200A
    ||| u == 0x2028
    ||| u == 0x2029
    ||| u == 0x202F
    ||| u == 0x205F
    ||| u == 0x3000
}

/// Whether the character is white space.
#[verifier::when_used_as_spec(is_whitespace)]
pub fn char_is_whitespace(c: char) -> (b: bool)
    ensures
        b == is_whitespace(c),
{
    let u: u32 = c as u32;
    (0x09 <= u && u <= 0x0D) || u == 0x20 || u == 0x85 || u == 0xA0 || u == 0x1680 || (0x2000 <= u
        && u <= 0x200A) || u == 0x2028 || u == 0x2029 || u == 0x202F || u == 0x205F || u == 0x3000
}

/// An ASCII digit, `0` to `9`.
pub open spec fn is_ascii_digit(c: char) -> bool {
    '0' <= c <= '9'
}

/// Whether the character is an ASCII digit.
#[verifier::when_used_as_spec(is_ascii_digit)]
pub fn char_is_ascii_digit(c: char) -> (b: bool)
    ensures
        b == is_ascii_digit(c),
{
    '0' <= c && c <= '9'
}

/// The number of white-space characters at the start of the text.
pub open spec fn leading_whitespace(s: Seq<char>) -> nat
    decreases s.len(),
{
    if s.len() > 0 && is_whitespace(s[0]) {
        1 + leading_whitespace(s.drop_first())
    } else {
        0
    }
}

/// The number of white-space characters at the end of the text.
pub open spec fn trailing_whitespace(s: Seq<char>) -> nat
    decreases s.len(),
{
    if s.len() > 0 && is_whitespace(s.last()) {
        1 + trailing_whitespace(s.drop_last())
    } else {
        0
    }
}

/// The text without the white space at its start.
pub open spec fn trim_start(s: Seq<char>) -> Seq<char> {
    s.skip(leading_whitespace(s) as int)
}

/// The text without the white space at its end.
pub open spec fn trim_end(s: Seq<char>) -> Seq<char> {
    s.take(s.len() - trailing_whitespace(s))
}

/// The characters of a string.
pub fn to_chars(s: &str) -> (v: Vec<char>)
    ensures
        v@ == s@,
{
    let mut v: Vec<char> = Vec::new();
    for c in it: s.chars()
        invariant
            v@ == it.seq().take(it.index() as int),
            it.seq() == s@,
    {
        v.push(c);
    }
    v
}

/// Appends the characters from index `from` up to, not including, index `to`.
pub fn push_chars(buf: &mut String, chars: &Vec<char>, from: usize, to: usize)
    requires
        from <= to <= chars@.len(),
    ensures
        final(buf)@ == old(buf)@ + chars@.subrange(from as int, to as int),
{
    let mut i: usize = from;
    while i < to
        invariant
            from <= i <= to <= chars@.len(),
            buf@ == old(buf)@ + chars@.subrange(from as int, i as int),
        decreases to - i,
    {
        buf.push(chars[i]);
        proof {
            assert(chars@.subrange(from as int, i + 1) =~= chars@.subrange(
                from as int,
                i as int,
            ).push(chars@[i as int]));
        }
        i = i + 1;
    }
}

/// The string of the characters from index `from` up to, not including, index `to`.
pub fn string_of(chars: &Vec<char>, from: usize, to: usize) -> (s: String)
    requires
        from <= to <= chars@.len(),
    ensures
        s@ == chars@.subrange(from as int, to as int),
{
    let mut s = String::new();
    push_chars(&mut s, chars, from, to);
    s
}

/// The number of white-space characters that the text has from index `from` on,
/// without a gap.
pub fn count_leading_whitespace(chars: &Vec<char>, from: usize) -> (n: usize)
    requires
        from <= chars@.len(),
    ensures
        n == leading_whitespace(chars@.skip(from as int)),
        from + n <= chars@.len(),
{
    let mut i: usize = from;
    while i < chars.len() && char_is_whitespace(chars[i])
        invariant
            from <= i <= chars@.len(),
            leading_whitespace(chars@.skip(from as int)) == (i - from) + leading_whitespace(
                chars@.skip(i as int),
            ),
        decreases chars@.len() - i,
    {
        proof {
            assert(chars@.skip(i as int).drop_first() =~= chars@.skip(i + 1));
        }
        i = i + 1;
    }
    i - from
}

/// The number of white-space characters that the first `to` characters of the text
/// end in.
pub fn count_trailing_whitespace(chars: &Vec<char>, to: usize) -> (n: usize)
    requires
        to <= chars@.len(),
    ensures
        n == trailing_whitespace(chars@.take(to as int)),
        n <= to,
{
    let mut i: usize = to;
    while i > 0 && char_is_whitespace(chars[i - 1])
        invariant
            i <= to <= chars@.len(),
            trailing_whitespace(chars@.take(to as int)) == (to - i) + trailing_whitespace(
                chars@.take(i as int),
            ),
        decreases i,
    {
        proof {
            assert(chars@.take(i as int).drop_last() =~= chars@.take(i - 1));
        }
        i = i - 1;
    }
    to - i
}

/// The text without the white space at its end.
pub fn trimmed_end(text: &str) -> (s: String)
    ensures
        s@ == trim_end(text@),
{
    let chars = to_chars(text);
    let n = chars.len();
    let blank = count_trailing_whitespace(&chars, n);
    proof {
        assert(chars@.take(n as int) =~= chars@);
        assert(chars@.subrange(0, n - blank) =~= chars@.take(n - blank));
    }
    string_of(&chars, 0, n - blank)
}

/// The character of a decimal digit.
pub open spec fn digit_char(d: int) -> char {
    ((48 + d) as u8) as char
}

/// The decimal numeral of a number, without leading zeros.
pub open spec fn decimal(n: nat) -> Seq<char>
    decreases n,
{
    if n < 10 {
        seq![digit_char(n as int)]
    } else {
        decimal(n / 10).push(digit_char((n % 10) as int))
    }
}

/// Appends the decimal numeral of `n`.
pub fn push_decimal(buf: &mut String, n: usize)
    ensures
        final(buf)@ == old(buf)@ + decimal(n as nat),
    decreases n,
{
    if n >= 10 {
        push_decimal(buf, n / 10);
    }
    let d: u8 = (n % 10) as u8;
    buf.push((48u8 + d) as char);
    proof {
        if n >= 10 {
            assert(old(buf)@ + decimal(n as nat) =~= (old(buf)@ + decimal((n / 10) as nat)).push(
                digit_char((n % 10) as int),
            ));
        } else {
            assert(old(buf)@ + decimal(n as nat) =~= old(buf)@.push(digit_char(n as int)));
        }
    }
}

/// `n` spaces.
pub open spec fn spaces(n: nat) -> Seq<char> {
    Seq::new(n, |i: int| ' ')
}

/// Appends `n` spaces.
pub fn push_spaces(buf: &mut String, n: usize)
    ensures
        final(buf)@ == old(buf)@ + spaces(n as nat),
{
    let mut i: usize = 0;
    proof {
        assert(old(buf)@ + spaces(0) =~= old(buf)@);
    }
    while i < n
        invariant
            i <= n,
            buf@ == old(buf)@ + spaces(i as nat),
        decreases n - i,
    {
        buf.push(' ');
        proof {
            assert(old(buf)@ + spaces((i + 1) as nat) =~= (old(buf)@ + spaces(i as nat)).push(' '));
        }
        i = i + 1;
    }
}

/// The parts written one after the other.
pub open spec fn concat(parts: Seq<Seq<char>>) -> Seq<char>
    decreases parts.len(),
{
    if parts.len() == 0 {
        Seq::empty()
    } else {
        concat(parts.drop_last()) + parts.last()
    }
}

/// Written one after the other, the first `n + 1` parts are the first `n` parts
/// and the next.
pub proof fn lemma_concat_step(parts: Seq<Seq<char>>, n: int)
    requires
        0 <= n < parts.len(),
    ensures
        concat(parts.take(n + 1)) == concat(parts.take(n)) + parts[n],
{
    assert(parts.take(n + 1).drop_last() =~= parts.take(n));
}

/// Appends the strings, one after the other.
pub fn push_all(buf: &mut String, parts: &Vec<String>)
    ensures
        final(buf)@ == old(buf)@ + concat(parts.deep_view()),
{
    let ghost all = parts.deep_view();
    let mut i: usize = 0;
    proof {
        assert(old(buf)@ + concat(all.take(0)) =~= old(buf)@);
    }
    while i < parts.len()
        invariant
            i <= parts@.len(),
            all == parts.deep_view(),
            buf@ == old(buf)@ + concat(all.take(i as int)),
        decreases parts@.len() - i,
    {
        proof {
            lemma_concat_step(all, i as int);
            assert(all[i as int] == parts@[i as int]@);
        }
        buf.append(parts[i].as_str());
        proof {
            assert(old(buf)@ + (concat(all.take(i as int)) + all[i as int]) =~= old(buf)@ + concat(
                all.take(i as int),
            ) + all[i as int]);
        }
        i = i + 1;
    }
    proof {
        assert(all.take(i as int) =~= all);
    }
}

} // verus!
