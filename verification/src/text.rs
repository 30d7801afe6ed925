//! Characters and strings: the parts of the standard library the tokenizer
//! leans on, and conversions between strings and character vectors.

use vstd::prelude::*;
use vstd::utf8::{encode_utf8, encode_utf8_decode_utf8};

verus! {

/// Whether the standard library counts a character as alphabetic.
pub uninterp spec fn char_alphabetic(c: char) -> bool;

/// Whether the standard library counts a character as numeric.
pub uninterp spec fn char_numeric(c: char) -> bool;

/// Whether the normalization tables count a character as a combining mark.
pub uninterp spec fn char_mark(c: char) -> bool;

/// White space: the characters with the Unicode `White_Space` property.
pub open spec fn char_whitespace(c: char) -> bool {
    let code = c as u32;
    ||| 0x9 <= code <= 0xd
    ||| code == 0x20
    ||| code == 0x85
    ||| code == 0xa0
    ||| code == 0x1680
    ||| 0x2000 <= code <= 0x200a
    ||| code == 0x2028
    ||| code == 0x2029
    ||| code == 0x202f
    ||| code == 0x205f
    ||| code == 0x3000
}

/// `char::is_alphabetic`: the Unicode `Alphabetic` property, named
/// [`char_alphabetic`].
pub assume_specification[ char::is_alphabetic ](c: char) -> (r: bool)
    ensures
        r == char_alphabetic(c),
;

/// `char::is_numeric`: the general categories for numbers, named
/// [`char_numeric`].
pub assume_specification[ char::is_numeric ](c: char) -> (r: bool)
    ensures
        r == char_numeric(c),
;

/// `char::is_whitespace`: the Unicode `White_Space` property, which
/// [`char_whitespace`] lists.
pub assume_specification[ char::is_whitespace ](c: char) -> (r: bool)
    ensures
        r == char_whitespace(c),
;

/// `unicode_normalization::char::is_combining_mark`: the general category for
/// marks, named [`char_mark`].
pub assume_specification[ unicode_normalization::char::is_combining_mark ](c: char) -> (r: bool)
    ensures
        r == char_mark(c),
;

/// `String::push`: appends one character to the end of a string.
pub assume_specification[ String::push ](s: &mut String, c: char)
    ensures
        final(s)@ == old(s)@.push(c),
;

/// The characters of a text, in order.
pub fn chars_of(text: &str) -> (v: Vec<char>)
    ensures
        v@ == text@,
{
    let mut v: Vec<char> = Vec::new();
    for c in it: text.chars()
        invariant
            v@ == it.seq().take(it.index() as int),
            it.seq() == text@,
    {
        v.push(c);
        assert(v@ =~= it.seq().take(it.index() + 1));
    }
    assert(v@ =~= text@);
    v
}

/// The string made of the characters `from .. to` of a slice.
pub fn string_of(chars: &[char], from: usize, to: usize) -> (s: String)
    requires
        from <= to <= chars@.len(),
    ensures
        s@ == chars@.subrange(from as int, to as int),
{
    let mut s = String::new();
    let mut i: usize = from;
    while i < to
        invariant
            from <= i <= to <= chars@.len(),
            s@ == chars@.subrange(from as int, i as int),
        decreases to - i,
    {
        s.push(chars[i]);
        i = i + 1;
        assert(s@ =~= chars@.subrange(from as int, i as int));
    }
    s
}

/// Whether two strings are equal.
pub fn str_eq(a: &str, b: &str) -> (r: bool)
    ensures
        r == (a@ == b@),
{
    let x = a.as_bytes();
    let y = b.as_bytes();
    proof {
        encode_utf8_decode_utf8(a@);
        encode_utf8_decode_utf8(b@);
    }
    if x.len() != y.len() {
        return false;
    }
    let mut i: usize = 0;
    while i < x.len()
        invariant
            i <= x@.len(),
            x@.len() == y@.len(),
            x@ == encode_utf8(a@),
            y@ == encode_utf8(b@),
            forall|k: int| 0 <= k < i ==> x@[k] == y@[k],
        decreases x@.len() - i,
    {
        if x[i] != y[i] {
            return false;
        }
        i = i + 1;
    }
    assert(x@ =~= y@);
    true
}

/// A text without the white space at its ends.
pub open spec fn trimmed(text: Seq<char>) -> Seq<char>
    decreases text.len(),
{
    if text.len() == 0 {
        text
    } else if char_whitespace(text.first()) {
        trimmed(text.skip(1))
    } else if char_whitespace(text.last()) {
        trimmed(text.drop_last())
    } else {
        text
    }
}

/// Where a part of a text begins and ends without the white space at its ends.
pub fn trim(chars: &[char], from: usize, to: usize) -> (part: (usize, usize))
    requires
        from <= to <= chars@.len(),
    ensures
        from <= part.0 <= part.1 <= to,
        chars@.subrange(part.0 as int, part.1 as int) == trimmed(
            chars@.subrange(from as int, to as int),
        ),
{
    let mut a: usize = from;
    let mut b: usize = to;
    let ghost whole = chars@.subrange(from as int, to as int);
    while a < b && chars[a].is_whitespace()
        invariant
            from <= a <= b <= to <= chars@.len(),
            trimmed(chars@.subrange(a as int, b as int)) == trimmed(whole),
        decreases b - a,
    {
        assert(chars@.subrange(a as int, b as int).skip(1) =~= chars@.subrange(a + 1, b as int));
        a = a + 1;
    }
    while a < b && chars[b - 1].is_whitespace()
        invariant
            from <= a <= b <= to <= chars@.len(),
            trimmed(chars@.subrange(a as int, b as int)) == trimmed(whole),
            a < b ==> !char_whitespace(chars@[a as int]),
        decreases b - a,
    {
        assert(chars@.subrange(a as int, b as int).drop_last() =~= chars@.subrange(
            a as int,
            b - 1,
        ));
        b = b - 1;
    }
    (a, b)
}

/// Trimming takes off exactly the white space at the ends of a text: where `a..b`
/// is what lies between the first and the last visible character, that is what
/// remains.
pub proof fn trimming_keeps_what_lies_between(text: Seq<char>, a: int, b: int)
    requires
        0 <= a < b <= text.len(),
        !char_whitespace(text[a]),
        !char_whitespace(text[b - 1]),
        forall|k: int| 0 <= k < a ==> char_whitespace(#[trigger] text[k]),
        forall|k: int| b <= k < text.len() ==> char_whitespace(#[trigger] text[k]),
    ensures
        trimmed(text) == text.subrange(a, b),
    decreases text.len(),
{
    if a > 0 {
        let t = text.skip(1);
        assert(char_whitespace(text[0]));
        assert(t[a - 1] == text[a] && t[b - 2] == text[b - 1]);
        trimming_keeps_what_lies_between(t, a - 1, b - 1);
        assert(t.subrange(a - 1, b - 1) =~= text.subrange(a, b));
    } else if b < text.len() {
        let t = text.drop_last();
        assert(char_whitespace(text[text.len() - 1]));
        trimming_keeps_what_lies_between(t, a, b);
        assert(t.subrange(a, b) =~= text.subrange(a, b));
    } else {
        assert(text.subrange(a, b) =~= text);
    }
}

/// Of a text that is all white space nothing remains.
pub proof fn blank_texts_trim_to_nothing(text: Seq<char>)
    requires
        forall|k: int| 0 <= k < text.len() ==> char_whitespace(#[trigger] text[k]),
    ensures
        trimmed(text).len() == 0,
    decreases text.len(),
{
    if text.len() > 0 {
        assert(char_whitespace(text[0]));
        blank_texts_trim_to_nothing(text.skip(1));
    }
}

/// What is left of a text has no white space at its ends.
pub proof fn trimmed_texts_have_visible_ends(text: Seq<char>)
    ensures
        trimmed(text).len() > 0 ==> !char_whitespace(trimmed(text)[0]) && !char_whitespace(
            trimmed(text)[trimmed(text).len() - 1],
        ),
        trimmed(trimmed(text)) == trimmed(text),
    decreases text.len(),
{
    if text.len() > 0 {
        if char_whitespace(text.first()) {
            trimmed_texts_have_visible_ends(text.skip(1));
        } else if char_whitespace(text.last()) {
            trimmed_texts_have_visible_ends(text.drop_last());
        }
    }
}

} // verus!
