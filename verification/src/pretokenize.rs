//! Splitting text into the pieces that byte-pair merging works on.
//!
//! The pattern a `tokenizer.json` declares is
//!
//! ```text
//! (?i:'s|'t|'re|'ve|'m|'ll|'d)|[^\r\n\p{L}\p{N}]?\p{L}+|\p{N}| ?[^\s\p{L}\p{N}]+[\r\n]*|\s*[\r\n]+|\s+(?!\S)|\s+
//! ```
//!
//! and its alternatives are tried in order, as a leftmost-first engine does.
//! Each alternative is a function from a text and a position to the end of what
//! it matches there; a piece ends where the first alternative that matches says.

use unicode_normalization::char::is_combining_mark;
use vstd::prelude::*;

use crate::text::{char_alphabetic, char_mark, char_numeric, char_whitespace, chars_of, string_of};

verus! {

/// A class of characters that runs are measured in.
#[derive(Clone, Copy, PartialEq, Eq, Structural)]
pub enum CharClass {
    /// `\p{L}`
    Letter,
    /// `[^\s\p{L}\p{N}]`
    Symbol,
    /// `[\r\n]`
    Newline,
    /// `\s`
    Space,
}

/// `\r` or `\n`.
pub open spec fn newline(c: char) -> bool {
    c == '\r' || c == '\n'
}

/// `\p{L}`: what is alphabetic without being a number, such as a Roman numeral, a
/// combining mark, such as a vowel sign, or a letter in a circle or a square.
pub open spec fn letter(c: char) -> bool {
    char_alphabetic(c) && !char_numeric(c) && !char_mark(c) && !enclosed(c)
}

/// The letters in circles and squares, which are alphabetic and yet symbols.
pub open spec fn enclosed(c: char) -> bool {
    let code = c as u32;
    ||| 0x24b6 <= code <= 0x24e9
    ||| 0x1f130 <= code <= 0x1f149
    ||| 0x1f150 <= code <= 0x1f169
    ||| 0x1f170 <= code <= 0x1f189
}

/// Neither white space nor a letter nor a number.
pub open spec fn symbol(c: char) -> bool {
    !char_whitespace(c) && !letter(c) && !char_numeric(c)
}

impl CharClass {
    /// Whether a character belongs to the class.
    pub open spec fn has(self, c: char) -> bool {
        match self {
            CharClass::Letter => letter(c),
            CharClass::Symbol => symbol(c),
            CharClass::Newline => newline(c),
            CharClass::Space => char_whitespace(c),
        }
    }

    /// Tests a character for membership.
    pub fn contains(self, c: char) -> (r: bool)
        ensures
            r == self.has(c),
    {
        match self {
            CharClass::Letter => is_letter(c),
            CharClass::Symbol => !c.is_whitespace() && !is_letter(c) && !is_number(c),
            CharClass::Newline => is_nl(c),
            CharClass::Space => c.is_whitespace(),
        }
    }
}

/// Where the run of `class` that starts at `i` ends: the first position at or
/// after `i` whose character is outside the class, or the end of the text.
pub open spec fn run_end(s: Seq<char>, i: int, class: CharClass) -> int
    decreases s.len() - i,
{
    if 0 <= i < s.len() && class.has(s[i]) {
        run_end(s, i + 1, class)
    } else {
        i
    }
}

/// The small form of the letters that contractions are made of. The long s is a
/// form of `s`.
pub open spec fn folded(c: char) -> char {
    match c {
        'S' => 's',
        '\u{17f}' => 's',
        'T' => 't',
        'R' => 'r',
        'E' => 'e',
        'V' => 'v',
        'M' => 'm',
        'L' => 'l',
        'D' => 'd',
        _ => c,
    }
}

/// Whether some letters, small or not, stand at `i`.
pub open spec fn stands(s: Seq<char>, i: int, letters: Seq<char>) -> bool {
    &&& i + letters.len() <= s.len()
    &&& forall|k: int| 0 <= k < letters.len() ==> folded(s[i + k]) == #[trigger] letters[k]
}

/// `(?i:'s|'t|'re|'ve|'m|'ll|'d)`
pub open spec fn contraction(s: Seq<char>, i: int) -> Option<int> {
    if s[i] != '\'' {
        None
    } else if stands(s, i + 1, seq!['r', 'e']) || stands(s, i + 1, seq!['v', 'e']) || stands(
        s,
        i + 1,
        seq!['l', 'l'],
    ) {
        Some(i + 3)
    } else if stands(s, i + 1, seq!['s']) || stands(s, i + 1, seq!['t']) || stands(
        s,
        i + 1,
        seq!['m'],
    ) || stands(s, i + 1, seq!['d']) {
        Some(i + 2)
    } else {
        None
    }
}

/// `[^\r\n\p{L}\p{N}]?\p{L}+`
pub open spec fn word(s: Seq<char>, i: int) -> Option<int> {
    if !newline(s[i]) && !letter(s[i]) && !char_numeric(s[i]) && i + 1 < s.len() && letter(
        s[i + 1],
    ) {
        Some(run_end(s, i + 1, CharClass::Letter))
    } else if letter(s[i]) {
        Some(run_end(s, i, CharClass::Letter))
    } else {
        None
    }
}

/// `\p{N}`
pub open spec fn number(s: Seq<char>, i: int) -> Option<int> {
    if char_numeric(s[i]) {
        Some(i + 1)
    } else {
        None
    }
}

/// ` ?[^\s\p{L}\p{N}]+[\r\n]*`
pub open spec fn symbols(s: Seq<char>, i: int) -> Option<int> {
    if s[i] == ' ' && i + 1 < s.len() && symbol(s[i + 1]) {
        Some(run_end(s, run_end(s, i + 1, CharClass::Symbol), CharClass::Newline))
    } else if symbol(s[i]) {
        Some(run_end(s, run_end(s, i, CharClass::Symbol), CharClass::Newline))
    } else {
        None
    }
}

/// The end of the last newline in `from .. to`.
pub open spec fn last_newline_end(s: Seq<char>, from: int, to: int) -> Option<int>
    decreases to - from,
{
    if to <= from {
        None
    } else if newline(s[to - 1]) {
        Some(to)
    } else {
        last_newline_end(s, from, to - 1)
    }
}

/// `\s*[\r\n]+`: a run of white space up to and with its last newline.
pub open spec fn newlines(s: Seq<char>, i: int) -> Option<int> {
    last_newline_end(s, i, run_end(s, i, CharClass::Space))
}

/// `\s+(?!\S)`: a run of white space that no visible character follows. Where
/// the run meets a visible character its last one is left behind.
pub open spec fn held_back(s: Seq<char>, i: int) -> Option<int> {
    let end = run_end(s, i, CharClass::Space);
    if i < end && end == s.len() {
        Some(end)
    } else if i + 1 < end {
        Some(end - 1)
    } else {
        None
    }
}

/// `\s+`
pub open spec fn spaces(s: Seq<char>, i: int) -> Option<int> {
    let end = run_end(s, i, CharClass::Space);
    if i < end {
        Some(end)
    } else {
        None
    }
}

/// The first of two matches.
pub open spec fn or_else(first: Option<int>, second: Option<int>) -> Option<int> {
    match first {
        Some(e) => Some(e),
        None => second,
    }
}

/// What the whole pattern matches at `i`: the first alternative that matches.
pub open spec fn matched(s: Seq<char>, i: int) -> Option<int> {
    or_else(
        contraction(s, i),
        or_else(
            word(s, i),
            or_else(
                number(s, i),
                or_else(symbols(s, i), or_else(newlines(s, i), or_else(held_back(s, i), spaces(s, i)))),
            ),
        ),
    )
}

/// Where the piece that starts at `i` ends. A character that nothing matches is
/// a piece of its own.
pub open spec fn piece_end(s: Seq<char>, i: int) -> int {
    match matched(s, i) {
        Some(e) => e,
        None => i + 1,
    }
}

proof fn lemma_run_end(s: Seq<char>, i: int, class: CharClass)
    requires
        0 <= i <= s.len(),
    ensures
        i <= run_end(s, i, class) <= s.len(),
        i < s.len() && class.has(s[i]) ==> i < run_end(s, i, class),
    decreases s.len() - i,
{
    if i < s.len() && class.has(s[i]) {
        lemma_run_end(s, i + 1, class);
    }
}

proof fn lemma_last_newline_end(s: Seq<char>, from: int, to: int)
    ensures
        last_newline_end(s, from, to) matches Some(e) ==> from < e <= to,
    decreases to - from,
{
    if from < to && !newline(s[to - 1]) {
        lemma_last_newline_end(s, from, to - 1);
    }
}

/// A piece is never empty and never runs past the text.
pub proof fn lemma_piece_end(s: Seq<char>, i: int)
    requires
        0 <= i < s.len(),
    ensures
        i < piece_end(s, i) <= s.len(),
{
    lemma_run_end(s, i, CharClass::Letter);
    lemma_run_end(s, i + 1, CharClass::Letter);
    lemma_run_end(s, i, CharClass::Symbol);
    lemma_run_end(s, i + 1, CharClass::Symbol);
    lemma_run_end(s, run_end(s, i, CharClass::Symbol), CharClass::Newline);
    lemma_run_end(s, run_end(s, i + 1, CharClass::Symbol), CharClass::Newline);
    lemma_run_end(s, i, CharClass::Space);
    lemma_last_newline_end(s, i, run_end(s, i, CharClass::Space));
    assert(seq!['r', 'e'].len() == 2 && seq!['v', 'e'].len() == 2 && seq!['l', 'l'].len() == 2);
}

/// The pieces of the text from position `i` on.
pub open spec fn pieces_from(s: Seq<char>, i: int) -> Seq<Seq<char>>
    decreases s.len() - i,
    when 0 <= i
{
    if i < s.len() {
        proof {
            lemma_piece_end(s, i);
        }
        seq![s.subrange(i, piece_end(s, i))] + pieces_from(s, piece_end(s, i))
    } else {
        seq![]
    }
}

/// The pieces of a text.
pub open spec fn pieces_of(s: Seq<char>) -> Seq<Seq<char>> {
    pieces_from(s, 0)
}

proof fn lemma_pieces_from_reassemble(s: Seq<char>, i: int)
    requires
        0 <= i <= s.len(),
    ensures
        pieces_from(s, i).flatten() == s.skip(i),
        forall|k: int| 0 <= k < pieces_from(s, i).len() ==> #[trigger] pieces_from(s, i)[k].len() > 0,
    decreases s.len() - i,
{
    if i < s.len() {
        lemma_piece_end(s, i);
        let e = piece_end(s, i);
        lemma_pieces_from_reassemble(s, e);
        let rest = pieces_from(s, e);
        let all = seq![s.subrange(i, e)] + rest;
        assert(all.drop_first() =~= rest);
        assert(all.first() == s.subrange(i, e));
        assert(all.flatten() == s.subrange(i, e) + rest.flatten());
        assert(s.subrange(i, e) + s.skip(e) =~= s.skip(i));
        assert forall|k: int| 0 <= k < all.len() implies #[trigger] all[k].len() > 0 by {
            if k > 0 {
                assert(all[k] == rest[k - 1]);
            }
        }
    } else {
        assert(pieces_from(s, i) =~= seq![]);
        assert(s.skip(i) =~= seq![]);
    }
}

/// The pieces of a text put end to end are the text, and none of them is empty.
pub proof fn pieces_reassemble(s: Seq<char>)
    ensures
        pieces_of(s).flatten() == s,
        forall|k: int| 0 <= k < pieces_of(s).len() ==> #[trigger] pieces_of(s)[k].len() > 0,
{
    lemma_pieces_from_reassemble(s, 0);
    assert(s.skip(0) =~= s);
}

/// A run within the beginning of a text ends where it does in the text, or where
/// the beginning ends.
proof fn lemma_run_in_part(s: Seq<char>, i: int, e: int, k: int, class: CharClass)
    requires
        0 <= i <= k <= e <= s.len(),
    ensures
        run_end(s.subrange(i, e), k - i, class) == if run_end(s, k, class) <= e {
            run_end(s, k, class) - i
        } else {
            e - i
        },
    decreases e - k,
{
    lemma_run_end(s, k, class);
    if k < e {
        assert(s.subrange(i, e)[k - i] == s[k]);
        if class.has(s[k]) {
            lemma_run_in_part(s, i, e, k + 1, class);
        }
    }
}

/// The last newline of a part of a text is where it is in the text.
proof fn lemma_newline_in_part(s: Seq<char>, i: int, e: int, to: int)
    requires
        0 <= i <= to <= e <= s.len(),
    ensures
        last_newline_end(s.subrange(i, e), 0, to - i) == match last_newline_end(s, i, to) {
            Some(x) => Some(x - i),
            None => None::<int>,
        },
    decreases to - i,
{
    if i < to {
        assert(s.subrange(i, e)[to - i - 1] == s[to - 1]);
        if !newline(s[to - 1]) {
            lemma_newline_in_part(s, i, e, to - 1);
        }
    }
}

/// Without a newline before `to` there is none before an earlier place.
proof fn lemma_no_newline(s: Seq<char>, from: int, mid: int, to: int)
    requires
        from <= mid <= to,
        last_newline_end(s, from, to) is None,
    ensures
        last_newline_end(s, from, mid) is None,
    decreases to - mid,
{
    if mid < to {
        lemma_no_newline(s, from, mid, to - 1);
    }
}

/// A newline that ends a part is its last.
proof fn lemma_ends_in_newline(s: Seq<char>, from: int, to: int)
    ensures
        last_newline_end(s, from, to) matches Some(e) ==> last_newline_end(s, from, e) == Some(e),
    decreases to - from,
{
    if from < to && !newline(s[to - 1]) {
        lemma_ends_in_newline(s, from, to - 1);
    }
}

/// A contraction at the beginning of a part is one in the text; and one that
/// the part has room for is one in the part.
proof fn lemma_contraction_in_part(s: Seq<char>, i: int, e: int)
    requires
        0 <= i < e <= s.len(),
    ensures
        contraction(s.subrange(i, e), 0) is Some ==> contraction(s, i) is Some,
        contraction(s, i) == Some(e) ==> contraction(s.subrange(i, e), 0) == Some(e - i),
{
    let p = s.subrange(i, e);
    assert(p[0] == s[i]);
    if i + 1 < e {
        assert(p[1] == s[i + 1]);
    }
    if i + 2 < e {
        assert(p[2] == s[i + 2]);
    }
    lemma_stands_two(s, i + 1, 'r', 'e');
    lemma_stands_two(s, i + 1, 'v', 'e');
    lemma_stands_two(s, i + 1, 'l', 'l');
    lemma_stands_one(s, i + 1, 's');
    lemma_stands_one(s, i + 1, 't');
    lemma_stands_one(s, i + 1, 'm');
    lemma_stands_one(s, i + 1, 'd');
    lemma_stands_two(p, 1, 'r', 'e');
    lemma_stands_two(p, 1, 'v', 'e');
    lemma_stands_two(p, 1, 'l', 'l');
    lemma_stands_one(p, 1, 's');
    lemma_stands_one(p, 1, 't');
    lemma_stands_one(p, 1, 'm');
    lemma_stands_one(p, 1, 'd');
}

/// A piece is all of its own first piece.
proof fn lemma_piece_is_whole(s: Seq<char>, i: int)
    requires
        0 <= i < s.len(),
    ensures
        piece_end(s.subrange(i, piece_end(s, i)), 0) == piece_end(s, i) - i,
{
    lemma_piece_end(s, i);
    let e = piece_end(s, i);
    let p = s.subrange(i, e);
    assert(p[0] == s[i]);
    if i + 1 < e {
        assert(p[1] == s[i + 1]);
    }
    lemma_contraction_in_part(s, i, e);
    if contraction(s, i) is None {
        if word(s, i) is Some {
            let from = if letter(s[i]) {
                i
            } else {
                i + 1
            };
            lemma_run_end(s, from, CharClass::Letter);
            lemma_run_in_part(s, i, e, from, CharClass::Letter);
        } else if number(s, i) is None {
            if symbols(s, i) is Some {
                let from = if symbol(s[i]) {
                    i
                } else {
                    i + 1
                };
                let mid = run_end(s, from, CharClass::Symbol);
                lemma_run_end(s, from, CharClass::Symbol);
                lemma_run_end(s, mid, CharClass::Newline);
                lemma_run_in_part(s, i, e, from, CharClass::Symbol);
                lemma_run_in_part(s, i, e, mid, CharClass::Newline);
            } else {
                let end = run_end(s, i, CharClass::Space);
                lemma_run_end(s, i, CharClass::Space);
                lemma_run_in_part(s, i, e, i, CharClass::Space);
                lemma_newline_in_part(s, i, e, e);
                match newlines(s, i) {
                    Some(x) => {
                        lemma_last_newline_end(s, i, end);
                        lemma_ends_in_newline(s, i, end);
                    },
                    None => {
                        lemma_no_newline(s, i, e, end);
                    },
                }
            }
        }
    }
}

proof fn lemma_pieces_are_whole(s: Seq<char>, i: int, k: int)
    requires
        0 <= i <= s.len(),
        0 <= k < pieces_from(s, i).len(),
    ensures
        ({
            let p = pieces_from(s, i)[k];
            p.len() > 0 && piece_end(p, 0) == p.len()
        }),
    decreases s.len() - i,
{
    if i < s.len() {
        lemma_piece_end(s, i);
        if k == 0 {
            lemma_piece_is_whole(s, i);
        } else {
            lemma_pieces_are_whole(s, piece_end(s, i), k - 1);
        }
    }
}

/// Every piece is a fixed point: it is the one piece of itself.
pub proof fn pieces_are_fixed_points(s: Seq<char>, k: int)
    requires
        0 <= k < pieces_of(s).len(),
    ensures
        pieces_of(pieces_of(s)[k]) == seq![pieces_of(s)[k]],
{
    let p = pieces_of(s)[k];
    lemma_pieces_are_whole(s, 0, k);
    assert(p.subrange(0, p.len() as int) =~= p);
    assert(pieces_from(p, p.len() as int) =~= seq![]);
    assert(pieces_of(p) =~= seq![p]);
}

// --------------------------------------------------- what the pieces are

/// Where a run ends: everything before is of the class, and what follows is not.
proof fn lemma_run(s: Seq<char>, i: int, class: CharClass)
    requires
        0 <= i <= s.len(),
    ensures
        i <= run_end(s, i, class) <= s.len(),
        forall|k: int| i <= k < run_end(s, i, class) ==> class.has(#[trigger] s[k]),
        run_end(s, i, class) < s.len() ==> !class.has(s[run_end(s, i, class)]),
    decreases s.len() - i,
{
    if i < s.len() && class.has(s[i]) {
        lemma_run(s, i + 1, class);
    }
}

/// Where the last newline of a part ends.
proof fn lemma_newline(s: Seq<char>, from: int, to: int)
    requires
        0 <= from <= to <= s.len(),
    ensures
        match last_newline_end(s, from, to) {
            Some(e) => {
                &&& from < e <= to
                &&& newline(s[e - 1])
                &&& forall|k: int| e <= k < to ==> !newline(#[trigger] s[k])
            },
            None => forall|k: int| from <= k < to ==> !newline(#[trigger] s[k]),
        },
    decreases to - from,
{
    if from < to && !newline(s[to - 1]) {
        lemma_newline(s, from, to - 1);
    }
}

/// What is split off at a place depends on what stands there and behind it alone.
proof fn lemma_piece_shift(s: Seq<char>, i: int)
    requires
        0 <= i < s.len(),
    ensures
        piece_end(s.skip(i), 0) == piece_end(s, i) - i,
{
    let t = s.skip(i);
    let n = s.len() as int;
    assert(t =~= s.subrange(i, n));
    assert(t[0] == s[i]);
    if i + 1 < n {
        assert(t[1] == s[i + 1]);
    }
    if i + 2 < n {
        assert(t[2] == s[i + 2]);
    }
    lemma_stands_two(s, i + 1, 'r', 'e');
    lemma_stands_two(s, i + 1, 'v', 'e');
    lemma_stands_two(s, i + 1, 'l', 'l');
    lemma_stands_one(s, i + 1, 's');
    lemma_stands_one(s, i + 1, 't');
    lemma_stands_one(s, i + 1, 'm');
    lemma_stands_one(s, i + 1, 'd');
    lemma_stands_two(t, 1, 'r', 'e');
    lemma_stands_two(t, 1, 'v', 'e');
    lemma_stands_two(t, 1, 'l', 'l');
    lemma_stands_one(t, 1, 's');
    lemma_stands_one(t, 1, 't');
    lemma_stands_one(t, 1, 'm');
    lemma_stands_one(t, 1, 'd');
    lemma_run_end(s, i, CharClass::Letter);
    lemma_run_in_part(s, i, n, i, CharClass::Letter);
    lemma_run_end(s, i, CharClass::Symbol);
    lemma_run_in_part(s, i, n, i, CharClass::Symbol);
    let a = run_end(s, i, CharClass::Symbol);
    lemma_run_end(s, a, CharClass::Newline);
    lemma_run_in_part(s, i, n, a, CharClass::Newline);
    if i + 1 < n {
        lemma_run_end(s, i + 1, CharClass::Letter);
        lemma_run_in_part(s, i, n, i + 1, CharClass::Letter);
        lemma_run_end(s, i + 1, CharClass::Symbol);
        lemma_run_in_part(s, i, n, i + 1, CharClass::Symbol);
        let b = run_end(s, i + 1, CharClass::Symbol);
        lemma_run_end(s, b, CharClass::Newline);
        lemma_run_in_part(s, i, n, b, CharClass::Newline);
    }
    let e = run_end(s, i, CharClass::Space);
    lemma_run_end(s, i, CharClass::Space);
    lemma_run_in_part(s, i, n, i, CharClass::Space);
    lemma_newline_in_part(s, i, n, e);
}

proof fn lemma_pieces_shift(s: Seq<char>, i: int, k: int)
    requires
        0 <= i <= k <= s.len(),
    ensures
        pieces_from(s, k) == pieces_from(s.skip(i), k - i),
    decreases s.len() - k,
{
    let t = s.skip(i);
    if k < s.len() {
        lemma_piece_end(s, k);
        lemma_piece_end(t, k - i);
        let e = piece_end(s, k);
        lemma_piece_shift(s, k);
        lemma_piece_shift(t, k - i);
        assert(t.skip(k - i) =~= s.skip(k));
        assert(s.subrange(k, e) =~= t.subrange(k - i, e - i));
        lemma_pieces_shift(s, i, e);
    }
}

/// A text is its first piece and then the pieces of what remains, as if that were
/// a text of its own.
pub proof fn pieces_follow_each_other(s: Seq<char>)
    requires
        s.len() > 0,
    ensures
        pieces_of(s).len() > 0,
        0 < pieces_of(s)[0].len() <= s.len(),
        pieces_of(s)[0] == s.take(pieces_of(s)[0].len() as int),
        pieces_of(s) == seq![pieces_of(s)[0]] + pieces_of(s.skip(pieces_of(s)[0].len() as int)),
        pieces_of(s)[0].len() == piece_end(s, 0),
{
    lemma_piece_end(s, 0);
    let e = piece_end(s, 0);
    assert(s.subrange(0, e) =~= s.take(e));
    lemma_pieces_shift(s, e, e);
}

/// `\p{L}`, by the properties of Unicode: alphabetic, and neither a number nor a
/// mark nor a letter in a circle or a square.
pub open spec fn unicode_letter(c: char) -> bool {
    &&& char_alphabetic(c)
    &&& !char_numeric(c)
    &&& !char_mark(c)
    &&& !(0x24b6 <= c as u32 <= 0x24e9)
    &&& !(0x1f130 <= c as u32 <= 0x1f149)
    &&& !(0x1f150 <= c as u32 <= 0x1f169)
    &&& !(0x1f170 <= c as u32 <= 0x1f189)
}

/// `[^\s\p{L}\p{N}]`
pub open spec fn unicode_symbol(c: char) -> bool {
    !char_whitespace(c) && !unicode_letter(c) && !char_numeric(c)
}

/// The length of the contraction that a text begins with, and zero where it
/// begins with none.
pub open spec fn contraction_len(s: Seq<char>) -> int {
    if s.len() >= 2 && s[0] == '\'' && (s[1] == 's' || s[1] == 'S' || s[1] == '\u{17f}' || s[1]
        == 't' || s[1] == 'T' || s[1] == 'm' || s[1] == 'M' || s[1] == 'd' || s[1] == 'D') {
        2
    } else if s.len() >= 3 && s[0] == '\'' && (((s[1] == 'r' || s[1] == 'R' || s[1] == 'v' || s[1]
        == 'V') && (s[2] == 'e' || s[2] == 'E')) || ((s[1] == 'l' || s[1] == 'L') && (s[2] == 'l'
        || s[2] == 'L'))) {
        3
    } else {
        0
    }
}

proof fn lemma_contraction(s: Seq<char>)
    requires
        s.len() > 0,
    ensures
        contraction(s, 0) == if contraction_len(s) > 0 {
            Some(contraction_len(s))
        } else {
            None::<int>
        },
{
    lemma_stands_two(s, 1, 'r', 'e');
    lemma_stands_two(s, 1, 'v', 'e');
    lemma_stands_two(s, 1, 'l', 'l');
    lemma_stands_one(s, 1, 's');
    lemma_stands_one(s, 1, 't');
    lemma_stands_one(s, 1, 'm');
    lemma_stands_one(s, 1, 'd');
}

/// A contraction such as `'s` or `'LL` is a piece of its own, whatever follows.
pub proof fn contractions_stand_alone(s: Seq<char>)
    requires
        contraction_len(s) > 0,
    ensures
        pieces_of(s).len() > 0,
        pieces_of(s)[0] == s.take(contraction_len(s)),
{
    pieces_follow_each_other(s);
    lemma_contraction(s);
}

/// A text that begins with a letter begins with a word: all letters up to the
/// first character that is none.
pub proof fn words_are_runs_of_letters(s: Seq<char>)
    requires
        s.len() > 0,
        unicode_letter(s[0]),
        contraction_len(s) == 0,
    ensures
        pieces_of(s).len() > 0,
        forall|k: int| 0 <= k < pieces_of(s)[0].len() ==> unicode_letter(#[trigger] s[k]),
        pieces_of(s)[0].len() < s.len() ==> !unicode_letter(s[pieces_of(s)[0].len() as int]),
{
    pieces_follow_each_other(s);
    lemma_contraction(s);
    lemma_run(s, 0, CharClass::Letter);
    let e = run_end(s, 0, CharClass::Letter);
    assert(piece_end(s, 0) == e);
    assert forall|k: int| 0 <= k < e implies unicode_letter(#[trigger] s[k]) by {
        assert(CharClass::Letter.has(s[k]));
    }
}

/// One character before a word belongs to it, unless it is a letter, a number or
/// the end of a line.
pub proof fn words_take_what_stands_before_them(s: Seq<char>)
    requires
        s.len() > 1,
        !unicode_letter(s[0]),
        !char_numeric(s[0]),
        s[0] != '\r',
        s[0] != '\n',
        unicode_letter(s[1]),
        contraction_len(s) == 0,
    ensures
        pieces_of(s).len() > 0,
        pieces_of(s)[0].len() >= 2,
        forall|k: int| 1 <= k < pieces_of(s)[0].len() ==> unicode_letter(#[trigger] s[k]),
        pieces_of(s)[0].len() < s.len() ==> !unicode_letter(s[pieces_of(s)[0].len() as int]),
{
    pieces_follow_each_other(s);
    lemma_contraction(s);
    lemma_run(s, 1, CharClass::Letter);
    lemma_run_end(s, 1, CharClass::Letter);
    let e = run_end(s, 1, CharClass::Letter);
    assert(piece_end(s, 0) == e);
    assert forall|k: int| 1 <= k < e implies unicode_letter(#[trigger] s[k]) by {
        assert(CharClass::Letter.has(s[k]));
    }
}

/// Every number is a piece of its own.
pub proof fn numbers_stand_alone(s: Seq<char>)
    requires
        s.len() > 0,
        char_numeric(s[0]),
        contraction_len(s) == 0,
    ensures
        pieces_of(s).len() > 0,
        pieces_of(s)[0] == seq![s[0]],
{
    pieces_follow_each_other(s);
    lemma_contraction(s);
    assert(piece_end(s, 0) == 1);
    assert(s.take(1) =~= seq![s[0]]);
}

/// Whether the first `n` characters of a text, from `i` on, are all symbols there
/// are and then all ends of lines that follow them.
pub open spec fn symbols_and_line_ends(s: Seq<char>, i: int, n: int) -> bool {
    &&& i < n <= s.len()
    &&& unicode_symbol(s[i])
    &&& forall|k: int|
        i <= k < n ==> unicode_symbol(#[trigger] s[k]) || s[k] == '\r' || s[k] == '\n'
    &&& forall|j: int, k: int|
        #![trigger s[j], s[k]]
        i <= j < k < n && unicode_symbol(s[k]) ==> unicode_symbol(s[j])
    &&& n < s.len() ==> s[n] != '\r' && s[n] != '\n'
    &&& n < s.len() && unicode_symbol(s[n - 1]) ==> !unicode_symbol(s[n])
}

proof fn lemma_symbols(s: Seq<char>, i: int)
    requires
        0 <= i < s.len(),
        unicode_symbol(s[i]),
    ensures
        symbols_and_line_ends(
            s,
            i,
            run_end(s, run_end(s, i, CharClass::Symbol), CharClass::Newline),
        ),
{
    let m = run_end(s, i, CharClass::Symbol);
    let n = run_end(s, m, CharClass::Newline);
    lemma_run(s, i, CharClass::Symbol);
    lemma_run(s, m, CharClass::Newline);
    assert forall|k: int| i <= k < n implies unicode_symbol(#[trigger] s[k]) || s[k] == '\r' || s[k]
        == '\n' by {
        if k < m {
            assert(CharClass::Symbol.has(s[k]));
        } else {
            assert(CharClass::Newline.has(s[k]));
        }
    }
    assert forall|j: int, k: int|
        #![trigger s[j], s[k]]
        i <= j < k < n && unicode_symbol(s[k]) implies unicode_symbol(s[j]) by {
        if j < m {
            assert(CharClass::Symbol.has(s[j]));
        } else {
            assert(CharClass::Newline.has(s[k]));
        }
    }
    if m < n {
        assert(CharClass::Newline.has(s[n - 1]));
    }
}

/// One space before symbols belongs to them: they and the ends of lines behind
/// them are one piece with it, and no piece is a lone space before a symbol.
pub proof fn symbols_take_the_space_before_them(s: Seq<char>)
    requires
        s.len() > 1,
        s[0] == ' ',
        !unicode_letter(s[0]),
        !char_numeric(s[0]),
        unicode_symbol(s[1]),
    ensures
        pieces_of(s).len() > 0,
        symbols_and_line_ends(s, 1, pieces_of(s)[0].len() as int),
{
    pieces_follow_each_other(s);
    lemma_contraction(s);
    lemma_symbols(s, 1);
    lemma_run_end(s, 1, CharClass::Symbol);
    assert(piece_end(s, 0) == run_end(s, run_end(s, 1, CharClass::Symbol), CharClass::Newline));
}

/// Symbols before which nothing stands, and behind the first of which no word
/// does, are one piece with the ends of lines behind them.
pub proof fn symbols_are_runs(s: Seq<char>)
    requires
        s.len() > 0,
        unicode_symbol(s[0]),
        s.len() > 1 ==> !unicode_letter(s[1]),
        contraction_len(s) == 0,
    ensures
        pieces_of(s).len() > 0,
        symbols_and_line_ends(s, 0, pieces_of(s)[0].len() as int),
{
    pieces_follow_each_other(s);
    lemma_contraction(s);
    lemma_symbols(s, 0);
    lemma_run_end(s, 0, CharClass::Symbol);
    assert(piece_end(s, 0) == run_end(s, run_end(s, 0, CharClass::Symbol), CharClass::Newline));
}

/// A text that begins with `r` characters of white space, and where the first of
/// them does not belong to a word or to symbols: they are split behind the last
/// end of a line among them; where there is none, the last of them is left for
/// what follows, unless nothing follows or it is the only one.
pub proof fn white_space_is_held_back(s: Seq<char>, r: int)
    requires
        0 < r <= s.len(),
        forall|k: int| 0 <= k < r ==> char_whitespace(#[trigger] s[k]),
        r < s.len() ==> !char_whitespace(s[r]),
        !unicode_letter(s[0]),
        !char_numeric(s[0]),
        s.len() > 1 && unicode_letter(s[1]) ==> s[0] == '\r' || s[0] == '\n',
        s.len() > 1 && unicode_symbol(s[1]) ==> s[0] != ' ',
    ensures
        pieces_of(s).len() > 0,
        ({
            let n = pieces_of(s)[0].len() as int;
            &&& 0 < n <= r
            &&& (exists|k: int| 0 <= k < r && (#[trigger] s[k] == '\r' || s[k] == '\n')) ==> {
                &&& s[n - 1] == '\r' || s[n - 1] == '\n'
                &&& forall|k: int| n <= k < r ==> #[trigger] s[k] != '\r' && s[k] != '\n'
            }
            &&& (forall|k: int| 0 <= k < r ==> #[trigger] s[k] != '\r' && s[k] != '\n') ==> n
                == if r < s.len() && r > 1 {
                r - 1
            } else {
                r
            }
        }),
{
    pieces_follow_each_other(s);
    lemma_contraction(s);
    lemma_run(s, 0, CharClass::Space);
    lemma_run_end(s, 0, CharClass::Space);
    let e = run_end(s, 0, CharClass::Space);
    if e < r {
        assert(char_whitespace(s[e]));
    } else if r < e {
        assert(CharClass::Space.has(s[r]));
    }
    lemma_newline(s, 0, r);
}

/// Whether a character is a letter.
pub fn is_letter(c: char) -> (r: bool)
    ensures
        r == letter(c),
{
    c.is_alphabetic() && !c.is_numeric() && !is_combining_mark(c) && !is_enclosed(c)
}

/// Whether a character is a letter in a circle or a square.
fn is_enclosed(c: char) -> (r: bool)
    ensures
        r == enclosed(c),
{
    let code: u32 = c as u32;
    (0x24b6 <= code && code <= 0x24e9) || (0x1f130 <= code && code <= 0x1f149) || (0x1f150 <= code
        && code <= 0x1f169) || (0x1f170 <= code && code <= 0x1f189)
}

/// Whether a character is a number.
pub fn is_number(c: char) -> (r: bool)
    ensures
        r == char_numeric(c),
{
    c.is_numeric()
}

/// Whether a character ends a line.
pub fn is_nl(c: char) -> (r: bool)
    ensures
        r == newline(c),
{
    c == '\r' || c == '\n'
}

/// Measures a run of one class.
fn scan(chars: &[char], i: usize, class: CharClass) -> (end: usize)
    requires
        i <= chars@.len(),
    ensures
        end == run_end(chars@, i as int, class),
        i <= end <= chars@.len(),
{
    let mut k: usize = i;
    while k < chars.len() && class.contains(chars[k])
        invariant
            i <= k <= chars@.len(),
            run_end(chars@, i as int, class) == run_end(chars@, k as int, class),
        decreases chars@.len() - k,
    {
        k = k + 1;
    }
    k
}

/// The small form of a letter that contractions are made of.
fn fold(c: char) -> (small: char)
    ensures
        small == folded(c),
{
    match c {
        'S' => 's',
        '\u{17f}' => 's',
        'T' => 't',
        'R' => 'r',
        'E' => 'e',
        'V' => 'v',
        'M' => 'm',
        'L' => 'l',
        'D' => 'd',
        _ => c,
    }
}

/// Where the contraction ends that an apostrophe at `i` begins.
fn scan_contraction(chars: &[char], i: usize) -> (end: Option<usize>)
    requires
        i < chars@.len(),
    ensures
        match (end, contraction(chars@, i as int)) {
            (Some(e), Some(want)) => e == want,
            (None, None) => true,
            _ => false,
        },
{
    let ghost s = chars@;
    let ghost at = i + 1;
    proof {
        lemma_stands_two(s, at, 'r', 'e');
        lemma_stands_two(s, at, 'v', 'e');
        lemma_stands_two(s, at, 'l', 'l');
        lemma_stands_one(s, at, 's');
        lemma_stands_one(s, at, 't');
        lemma_stands_one(s, at, 'm');
        lemma_stands_one(s, at, 'd');
    }
    if chars[i] != '\'' {
        return None;
    }
    let left: usize = chars.len() - i - 1;
    if left == 0 {
        return None;
    }
    let a = fold(chars[i + 1]);
    if left > 1 {
        let b = fold(chars[i + 2]);
        if (a == 'r' && b == 'e') || (a == 'v' && b == 'e') || (a == 'l' && b == 'l') {
            return Some(i + 3);
        }
    }
    if a == 's' || a == 't' || a == 'm' || a == 'd' {
        Some(i + 2)
    } else {
        None
    }
}

proof fn lemma_stands_one(s: Seq<char>, i: int, a: char)
    ensures
        stands(s, i, seq![a]) <==> i + 1 <= s.len() && folded(s[i]) == a,
{
    assert(seq![a][0] == a);
}

proof fn lemma_stands_two(s: Seq<char>, i: int, a: char, b: char)
    ensures
        stands(s, i, seq![a, b]) <==> i + 2 <= s.len() && folded(s[i]) == a && folded(s[i + 1]) == b,
{
    assert(seq![a, b][0] == a && seq![a, b][1] == b);
}

/// Finds the end of the piece that starts at `i`.
fn next_piece_end(chars: &[char], i: usize) -> (end: usize)
    requires
        i < chars@.len(),
    ensures
        end == piece_end(chars@, i as int),
        i < end <= chars@.len(),
{
    proof {
        lemma_piece_end(chars@, i as int);
    }
    let c = chars[i];
    let last = i + 1 == chars.len();

    if let Some(end) = scan_contraction(chars, i) {
        return end;
    }
    if !is_nl(c) && !is_letter(c) && !is_number(c) && !last && is_letter(chars[i + 1]) {
        return scan(chars, i + 1, CharClass::Letter);
    }
    if is_letter(c) {
        return scan(chars, i, CharClass::Letter);
    }
    if is_number(c) {
        return i + 1;
    }
    if c == ' ' && !last && CharClass::Symbol.contains(chars[i + 1]) {
        let k: usize = scan(chars, i + 1, CharClass::Symbol);
        return scan(chars, k, CharClass::Newline);
    }
    if CharClass::Symbol.contains(c) {
        let k: usize = scan(chars, i, CharClass::Symbol);
        return scan(chars, k, CharClass::Newline);
    }
    let mut end: usize = i;
    let mut last_nl: Option<usize> = None;
    while end < chars.len() && chars[end].is_whitespace()
        invariant
            i <= end <= chars@.len(),
            run_end(chars@, i as int, CharClass::Space) == run_end(
                chars@,
                end as int,
                CharClass::Space,
            ),
            match (last_nl, last_newline_end(chars@, i as int, end as int)) {
                (Some(e), Some(want)) => e == want,
                (None, None) => true,
                _ => false,
            },
        decreases chars@.len() - end,
    {
        if is_nl(chars[end]) {
            last_nl = Some(end + 1);
        }
        end = end + 1;
    }
    if let Some(nl_end) = last_nl {
        return nl_end;
    }
    if end > i {
        if end < chars.len() && end - 1 > i {
            end - 1
        } else {
            end
        }
    } else {
        i + 1
    }
}

/// Splits text into pieces.
///
/// The pieces put end to end are the text, and each holds at least one
/// character.
pub fn pre_tokenize(text: &str) -> (pieces: Vec<String>)
    ensures
        pieces@.map_values(|p: String| p@) == pieces_of(text@),
        pieces@.map_values(|p: String| p@).flatten() == text@,
        forall|k: int| 0 <= k < pieces@.len() ==> (#[trigger] pieces@[k])@.len() > 0,
{
    let chars = chars_of(text);
    let mut out: Vec<String> = Vec::new();
    let mut i: usize = 0;
    while i < chars.len()
        invariant
            i <= chars@.len(),
            chars@ == text@,
            out@.map_values(|p: String| p@) + pieces_from(text@, i as int) == pieces_of(text@),
        decreases chars@.len() - i,
    {
        let end: usize = next_piece_end(chars.as_slice(), i);
        let piece = string_of(chars.as_slice(), i, end);
        let ghost before = out@.map_values(|p: String| p@);
        out.push(piece);
        proof {
            let after = out@.map_values(|p: String| p@);
            assert(after =~= before.push(piece@));
            assert(before + (seq![piece@] + pieces_from(text@, end as int)) =~= after + pieces_from(
                text@,
                end as int,
            ));
        }
        i = end;
    }
    proof {
        let got = out@.map_values(|p: String| p@);
        assert(got + pieces_from(text@, i as int) =~= got);
        pieces_reassemble(text@);
        assert forall|k: int| 0 <= k < out@.len() implies (#[trigger] out@[k])@.len() > 0 by {
            assert(got[k] == pieces_of(text@)[k]);
        }
    }
    out
}

} // verus!
