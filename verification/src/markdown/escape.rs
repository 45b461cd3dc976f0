//! Escaping of cell text for pipe tables and for HTML, in one pass over the bytes.

use vstd::prelude::*;
use vstd::string::*;
use vstd::utf8::*;

verus! {

/// The index of the first occurrence of `needle` in `haystack`, by `memchr::memchr`:
/// `Some` index that holds the needle and has none before it, or `None` where
/// the haystack holds none.
#[verifier::external_body]
fn find_byte(needle: u8, haystack: &[u8]) -> (r: Option<usize>)
    ensures
        match r {
            Some(i) => i < haystack@.len() && haystack@[i as int] == needle && forall|j: int|
                0 <= j < i ==> haystack@[j] != needle,
            None => forall|j: int| 0 <= j < haystack@.len() ==> haystack@[j] != needle,
        },
{
    memchr::memchr(needle, haystack)
}

/// The first index of `haystack` that holds one of the `needles`.
pub fn find_first_of(haystack: &[u8], needles: &[u8]) -> (r: Option<usize>)
    ensures
        match r {
            Some(i) => i < haystack@.len() && needles@.contains(haystack@[i as int])
                && forall|j: int| 0 <= j < i ==> !needles@.contains(#[trigger] haystack@[j]),
            None => forall|j: int|
                0 <= j < haystack@.len() ==> !needles@.contains(#[trigger] haystack@[j]),
        },
{
    let mut best: Option<usize> = None;
    let mut n: usize = 0;
    while n < needles.len()
        invariant
            n <= needles@.len(),
            match best {
                Some(i) => i < haystack@.len() && needles@.take(n as int).contains(
                    haystack@[i as int],
                ) && forall|j: int|
                    0 <= j < i ==> !needles@.take(n as int).contains(#[trigger] haystack@[j]),
                None => forall|j: int|
                    0 <= j < haystack@.len() ==> !needles@.take(n as int).contains(
                        #[trigger] haystack@[j],
                    ),
            },
        decreases needles@.len() - n,
    {
        let ghost seen = needles@.take(n as int);
        let ghost more = needles@.take(n + 1);
        let needle = needles[n];
        proof {
            assert(more =~= seen.push(needle));
            assert forall|b: u8| more.contains(b) <==> (seen.contains(b) || b == needle) by {
                if seen.contains(b) {
                    let k = choose|k: int| 0 <= k < seen.len() && seen[k] == b;
                    assert(more[k] == b);
                }
                if b == needle {
                    assert(more[n as int] == b);
                }
            }
        }
        let found = find_byte(needle, haystack);
        match found {
            Some(i) => {
                match best {
                    Some(b) => {
                        if i < b {
                            best = Some(i);
                        }
                    },
                    None => {
                        best = Some(i);
                    },
                }
            },
            None => {},
        }
        n = n + 1;
    }
    proof {
        assert(needles@.take(n as int) =~= needles@);
    }
    best
}

/// The encoding of a text in two parts is the encoding of the first part followed
/// by the encoding of the second.
pub proof fn lemma_encode_concat(a: Seq<char>, b: Seq<char>)
    ensures
        encode_utf8(a + b) =~= encode_utf8(a) + encode_utf8(b),
    decreases a.len(),
{
    if a.len() == 0 {
        assert(a + b =~= b);
    } else {
        assert((a + b).drop_first() =~= a.drop_first() + b);
        assert((a + b)[0] == a[0]);
        lemma_encode_concat(a.drop_first(), b);
    }
}

/// An ASCII character is encoded as the one byte of its code.
pub proof fn lemma_encode_ascii(c: char)
    requires
        (c as u32) < 128,
    ensures
        encode_utf8(seq![c]) =~= seq![c as u8],
{
    let s = seq![c];
    assert(is_ascii_chars(s));
    is_ascii_chars_encode_utf8(s);
    assert(encode_utf8(s)[0] == s[0] as u8);
}

/// Two texts with the same encoding are the same text.
pub proof fn lemma_encoding_determines_text(a: Seq<char>, b: Seq<char>)
    requires
        encode_utf8(a) == encode_utf8(b),
    ensures
        a == b,
{
    encode_utf8_decode_utf8(a);
    encode_utf8_decode_utf8(b);
}

/// An ASCII character of a text is one of the bytes of its encoding.
pub proof fn lemma_ascii_char_in_bytes(s: Seq<char>, j: int)
    requires
        0 <= j < s.len(),
        (s[j] as u32) < 128,
    ensures
        exists|p: int| 0 <= p < encode_utf8(s).len() && encode_utf8(s)[p] == s[j] as u8,
{
    let x = s.take(j);
    let y = s.skip(j + 1);
    assert(s =~= x + seq![s[j]] + y);
    lemma_encode_concat(x + seq![s[j]], y);
    lemma_encode_concat(x, seq![s[j]]);
    lemma_encode_ascii(s[j]);
    let p = encode_utf8(x).len() as int;
    assert(encode_utf8(s)[p] == s[j] as u8);
}

/// Whether the character is the character of one of the bytes.
pub open spec fn is_one_of(c: char, needles: Seq<u8>) -> bool {
    (c as u32) < 128 && needles.contains(c as u8)
}

/// Splits the text around the first character that is one of the ASCII bytes
/// `needles`: the text before it, its byte, and the text after it. `None` where the
/// text holds none of them.
pub fn split_at_first<'a>(text: &'a str, needles: &[u8]) -> (r: Option<(&'a str, u8, &'a str)>)
    requires
        forall|i: int| 0 <= i < needles@.len() ==> needles@[i] < 128,
    ensures
        match r {
            Some((head, b, tail)) => {
                &&& text@ == head@ + seq![b as char] + tail@
                &&& needles@.contains(b)
                &&& forall|j: int| 0 <= j < head@.len() ==> !is_one_of(#[trigger] head@[j], needles@)
            },
            None => forall|j: int| 0 <= j < text@.len() ==> !is_one_of(#[trigger] text@[j], needles@),
        },
{
    let bytes = text.as_bytes();
    let ghost all = text.spec_bytes();
    proof {
        encode_utf8_valid_utf8(text@);
    }
    match find_first_of(bytes, needles) {
        None => {
            proof {
                assert forall|j: int| 0 <= j < text@.len() implies !is_one_of(
                    #[trigger] text@[j],
                    needles@,
                ) by {
                    if is_one_of(text@[j], needles@) {
                        lemma_ascii_char_in_bytes(text@, j);
                        let p = choose|p: int|
                            0 <= p < encode_utf8(text@).len() && encode_utf8(text@)[p]
                                == text@[j] as u8;
                        assert(!needles@.contains(all[p]));
                    }
                }
            }
            None
        },
        Some(p) => {
            let b = bytes[p];
            proof {
                let k = choose|k: int| 0 <= k < needles@.len() && needles@[k] == b;
                assert(b < 128);
                is_char_boundary_iff_not_is_continuation_byte(all, p as int);
            }
            let (head, rest) = text.split_at(p);
            let ghost after = rest.spec_bytes();
            proof {
                encode_utf8_valid_utf8(rest@);
                assert(after.len() > 0 && after[0] == b);
                reveal_with_fuel(is_char_boundary, 2);
                reveal_with_fuel(valid_utf8, 2);
                assert(length_of_first_scalar(after) == 1);
                assert(is_char_boundary(after, 1));
            }
            let (special, tail) = rest.split_at(1);
            proof {
                let c = b as char;
                lemma_encode_ascii(c);
                assert(all =~= head.spec_bytes() + seq![b] + tail.spec_bytes());
                lemma_encode_concat(head@, seq![c]);
                lemma_encode_concat(head@ + seq![c], tail@);
                lemma_encoding_determines_text(text@, head@ + seq![c] + tail@);
                assert forall|j: int| 0 <= j < head@.len() implies !is_one_of(
                    #[trigger] head@[j],
                    needles@,
                ) by {
                    if is_one_of(head@[j], needles@) {
                        lemma_ascii_char_in_bytes(head@, j);
                        let q = choose|q: int|
                            0 <= q < encode_utf8(head@).len() && encode_utf8(head@)[q]
                                == head@[j] as u8;
                        assert(all[q] == head.spec_bytes()[q]);
                        assert(!needles@.contains(all[q]));
                    }
                }
            }
            Some((head, b, tail))
        },
    }
}

/// The text with every character replaced by what `f` gives for it.
pub open spec fn replace_chars(s: Seq<char>, f: spec_fn(char) -> Seq<char>) -> Seq<char>
    decreases s.len(),
{
    if s.len() == 0 {
        Seq::empty()
    } else {
        f(s[0]) + replace_chars(s.drop_first(), f)
    }
}

/// Replacing the characters of a text in two parts replaces them in each part.
pub proof fn lemma_replace_chars_concat(a: Seq<char>, b: Seq<char>, f: spec_fn(char) -> Seq<char>)
    ensures
        replace_chars(a + b, f) =~= replace_chars(a, f) + replace_chars(b, f),
    decreases a.len(),
{
    if a.len() == 0 {
        assert(a + b =~= b);
    } else {
        assert((a + b).drop_first() =~= a.drop_first() + b);
        assert((a + b)[0] == a[0]);
        lemma_replace_chars_concat(a.drop_first(), b, f);
    }
}

/// A text whose every character is replaced by itself stays as it is.
pub proof fn lemma_replace_chars_unchanged(s: Seq<char>, f: spec_fn(char) -> Seq<char>)
    requires
        forall|j: int| 0 <= j < s.len() ==> f(#[trigger] s[j]) == seq![s[j]],
    ensures
        replace_chars(s, f) =~= s,
    decreases s.len(),
{
    if s.len() > 0 {
        assert forall|j: int| 0 <= j < s.drop_first().len() implies f(
            #[trigger] s.drop_first()[j],
        ) == seq![s.drop_first()[j]] by {
            assert(s.drop_first()[j] == s[j + 1]);
        }
        lemma_replace_chars_unchanged(s.drop_first(), f);
    }
}

/// What a character of a pipe-table cell is written as: a pipe is escaped, a line
/// feed becomes a space.
pub open spec fn markdown_escaped_char(c: char) -> Seq<char> {
    if c == '|' {
        "\\|"@
    } else if c == '\n' {
        " "@
    } else {
        seq![c]
    }
}

/// The text of a pipe-table cell, escaped.
pub open spec fn escape_markdown(s: Seq<char>) -> Seq<char> {
    replace_chars(s, |c: char| markdown_escaped_char(c))
}

/// What a character of an HTML cell is written as.
pub open spec fn html_escaped_char(c: char) -> Seq<char> {
    if c == '&' {
        "&amp;"@
    } else if c == '<' {
        "&lt;"@
    } else if c == '>' {
        "&gt;"@
    } else if c == '\n' {
        "<br>"@
    } else {
        seq![c]
    }
}

/// The text of an HTML cell, escaped.
pub open spec fn escape_html(s: Seq<char>) -> Seq<char> {
    replace_chars(s, |c: char| html_escaped_char(c))
}

/// A text without a pipe and without a line feed is its own escaped form.
pub proof fn lemma_escape_markdown_plain(s: Seq<char>)
    requires
        forall|j: int| 0 <= j < s.len() ==> #[trigger] s[j] != '|' && s[j] != '\n',
    ensures
        escape_markdown(s) == s,
{
    lemma_replace_chars_unchanged(s, |c: char| markdown_escaped_char(c));
}

/// A text without `&`, `<`, `>` and line feed is its own escaped form.
pub proof fn lemma_escape_html_plain(s: Seq<char>)
    requires
        forall|j: int|
            0 <= j < s.len() ==> #[trigger] s[j] != '&' && s[j] != '<' && s[j] != '>' && s[j]
                != '\n',
    ensures
        escape_html(s) == s,
{
    lemma_replace_chars_unchanged(s, |c: char| html_escaped_char(c));
}

/// Escaping a text in two parts escapes each part.
pub proof fn lemma_escape_markdown_concat(a: Seq<char>, b: Seq<char>)
    ensures
        escape_markdown(a + b) == escape_markdown(a) + escape_markdown(b),
{
    lemma_replace_chars_concat(a, b, |c: char| markdown_escaped_char(c));
}

/// Escaping a text in two parts escapes each part.
pub proof fn lemma_escape_html_concat(a: Seq<char>, b: Seq<char>)
    ensures
        escape_html(a + b) == escape_html(a) + escape_html(b),
{
    lemma_replace_chars_concat(a, b, |c: char| html_escaped_char(c));
}

/// Appends the text, escaped for a pipe-table cell: `|` as `\|`, a line feed as a
/// space.
pub fn escape_markdown_to_buffer(buffer: &mut String, text: &str)
    ensures
        final(buffer)@ == old(buffer)@ + escape_markdown(text@),
{
    let needles: [u8; 2] = [0x7c, 0x0a];
    let mut rest: &str = text;
    let mut more = true;
    while more
        invariant
            needles@ == seq![0x7cu8, 0x0au8],
            more ==> old(buffer)@ + escape_markdown(text@) == buffer@ + escape_markdown(rest@),
            !more ==> old(buffer)@ + escape_markdown(text@) == buffer@,
        decreases rest@.len(), if more { 1int } else { 0int },
    {
        let ghost f = |c: char| markdown_escaped_char(c);
        match split_at_first(rest, needles.as_slice()) {
            None => {
                proof {
                    assert forall|j: int| 0 <= j < rest@.len() implies #[trigger] rest@[j] != '|'
                        && rest@[j] != '\n' by {
                        assert(!is_one_of(rest@[j], needles@));
                        assert(needles@[0] == 0x7c && needles@[1] == 0x0a);
                    }
                    lemma_escape_markdown_plain(rest@);
                }
                buffer.append(rest);
                more = false;
            },
            Some((head, b, tail)) => {
                proof {
                    assert forall|j: int| 0 <= j < head@.len() implies #[trigger] head@[j] != '|'
                        && head@[j] != '\n' by {
                        assert(!is_one_of(head@[j], needles@));
                        assert(needles@[0] == 0x7c && needles@[1] == 0x0a);
                    }
                    lemma_escape_markdown_plain(head@);
                    lemma_escape_markdown_concat(head@ + seq![b as char], tail@);
                    lemma_escape_markdown_concat(head@, seq![b as char]);
                    assert(escape_markdown(seq![b as char]) =~= markdown_escaped_char(b as char)) by {
                        assert(seq![b as char].drop_first() =~= Seq::<char>::empty());
                        reveal_with_fuel(replace_chars, 2);
                    }
                    let k = choose|k: int| 0 <= k < needles@.len() && needles@[k] == b;
                    assert(b == 0x7c || b == 0x0a);
                }
                buffer.append(head);
                if b == 0x7c {
                    buffer.append("\\|");
                } else {
                    buffer.append(" ");
                }
                rest = tail;
            },
        }
    }
}

/// Appends the text, escaped for an HTML cell: `&`, `<` and `>` as entities, a
/// line feed as `<br>`.
pub fn escape_html_to_buffer(buffer: &mut String, text: &str)
    ensures
        final(buffer)@ == old(buffer)@ + escape_html(text@),
{
    let needles: [u8; 4] = [0x26, 0x3c, 0x3e, 0x0a];
    let mut rest: &str = text;
    let mut more = true;
    while more
        invariant
            needles@ == seq![0x26u8, 0x3cu8, 0x3eu8, 0x0au8],
            more ==> old(buffer)@ + escape_html(text@) == buffer@ + escape_html(rest@),
            !more ==> old(buffer)@ + escape_html(text@) == buffer@,
        decreases rest@.len(), if more { 1int } else { 0int },
    {
        match split_at_first(rest, needles.as_slice()) {
            None => {
                proof {
                    assert forall|j: int| 0 <= j < rest@.len() implies #[trigger] rest@[j] != '&'
                        && rest@[j] != '<' && rest@[j] != '>' && rest@[j] != '\n' by {
                        assert(!is_one_of(rest@[j], needles@));
                        assert(needles@[0] == 0x26 && needles@[1] == 0x3c && needles@[2] == 0x3e
                            && needles@[3] == 0x0a);
                    }
                    lemma_escape_html_plain(rest@);
                }
                buffer.append(rest);
                more = false;
            },
            Some((head, b, tail)) => {
                proof {
                    assert forall|j: int| 0 <= j < head@.len() implies #[trigger] head@[j] != '&'
                        && head@[j] != '<' && head@[j] != '>' && head@[j] != '\n' by {
                        assert(!is_one_of(head@[j], needles@));
                        assert(needles@[0] == 0x26 && needles@[1] == 0x3c && needles@[2] == 0x3e
                            && needles@[3] == 0x0a);
                    }
                    lemma_escape_html_plain(head@);
                    lemma_escape_html_concat(head@ + seq![b as char], tail@);
                    lemma_escape_html_concat(head@, seq![b as char]);
                    assert(escape_html(seq![b as char]) =~= html_escaped_char(b as char)) by {
                        assert(seq![b as char].drop_first() =~= Seq::<char>::empty());
                        reveal_with_fuel(replace_chars, 2);
                    }
                    let k = choose|k: int| 0 <= k < needles@.len() && needles@[k] == b;
                    assert(b == 0x26 || b == 0x3c || b == 0x3e || b == 0x0a);
                }
                buffer.append(head);
                if b == 0x26 {
                    buffer.append("&amp;");
                } else if b == 0x3c {
                    buffer.append("&lt;");
                } else if b == 0x3e {
                    buffer.append("&gt;");
                } else {
                    buffer.append("<br>");
                }
                rest = tail;
            },
        }
    }
}

} // verus!
