//! Lossy decoding of UTF-8, in one go or as the bytes arrive.
//!
//! A byte sequence is read scalar by scalar. Where no scalar can be read, either
//! the input ends inside one, or it holds bytes that nothing can complete: those
//! are replaced by U+FFFD, one for each longest stretch that might have begun a
//! scalar.

use vstd::prelude::*;
use vstd::utf8::{
    decode_first_scalar, decode_utf8, is_continuation_byte, is_leading_byte_width_1,
    is_leading_byte_width_2, is_leading_byte_width_3, is_leading_byte_width_4, is_scalar,
    length_of_first_scalar, pop_first_scalar, valid_first_scalar, valid_utf8,
};

verus! {

/// U+FFFD, which stands for bytes that are not UTF-8.
pub const REPLACEMENT: char = '\u{fffd}';

/// What the first bytes of a sequence amount to.
#[derive(Clone, Copy, PartialEq, Eq, Structural)]
pub enum Utf8Step {
    /// A scalar of this many bytes.
    Scalar(usize),
    /// This many bytes that nothing can complete.
    Bad(usize),
    /// The beginning of a scalar that the input cuts off.
    Cut,
}

/// Whether some continuation makes the bytes begin with a scalar.
pub open spec fn begins_scalar(b: Seq<u8>) -> bool {
    exists|ext: Seq<u8>| valid_first_scalar(#[trigger] (b + ext))
}

/// What the first bytes of a non-empty sequence amount to.
pub open spec fn first_step(b: Seq<u8>) -> Utf8Step {
    if valid_first_scalar(b) {
        Utf8Step::Scalar(length_of_first_scalar(b) as usize)
    } else if begins_scalar(b) {
        Utf8Step::Cut
    } else if b.len() > 3 && begins_scalar(b.take(3)) {
        Utf8Step::Bad(3)
    } else if b.len() > 2 && begins_scalar(b.take(2)) {
        Utf8Step::Bad(2)
    } else {
        Utf8Step::Bad(1)
    }
}

/// The text of a byte sequence, with U+FFFD for what is not UTF-8.
pub open spec fn lossy(b: Seq<u8>) -> Seq<char>
    decreases b.len(),
{
    if b.len() == 0 {
        seq![]
    } else {
        match first_step(b) {
            Utf8Step::Scalar(n) => if 0 < n <= b.len() {
                seq![decode_first_scalar(b) as char] + lossy(b.skip(n as int))
            } else {
                seq![]
            },
            Utf8Step::Bad(n) => if 0 < n <= b.len() {
                seq![REPLACEMENT] + lossy(b.skip(n as int))
            } else {
                seq![]
            },
            Utf8Step::Cut => seq![REPLACEMENT],
        }
    }
}

/// The text of a byte sequence that is settled whatever follows it.
pub open spec fn settled(b: Seq<u8>) -> Seq<char>
    decreases b.len(),
{
    if b.len() == 0 {
        seq![]
    } else {
        match first_step(b) {
            Utf8Step::Scalar(n) => if 0 < n <= b.len() {
                seq![decode_first_scalar(b) as char] + settled(b.skip(n as int))
            } else {
                seq![]
            },
            Utf8Step::Bad(n) => if 0 < n <= b.len() {
                seq![REPLACEMENT] + settled(b.skip(n as int))
            } else {
                seq![]
            },
            Utf8Step::Cut => seq![],
        }
    }
}

/// The cut-off scalar at the end of a byte sequence, if there is one.
pub open spec fn unsettled(b: Seq<u8>) -> Seq<u8>
    decreases b.len(),
{
    if b.len() == 0 {
        seq![]
    } else {
        match first_step(b) {
            Utf8Step::Scalar(n) => if 0 < n <= b.len() {
                unsettled(b.skip(n as int))
            } else {
                seq![]
            },
            Utf8Step::Bad(n) => if 0 < n <= b.len() {
                unsettled(b.skip(n as int))
            } else {
                seq![]
            },
            Utf8Step::Cut => b,
        }
    }
}

/// The number of bytes a scalar has that begins with this byte; zero if none does.
spec fn width(b0: u8) -> int {
    if b0 <= 0x7f {
        1
    } else if 0xc2 <= b0 <= 0xdf {
        2
    } else if 0xe0 <= b0 <= 0xef {
        3
    } else if 0xf0 <= b0 <= 0xf4 {
        4
    } else {
        0
    }
}

/// Whether the second byte can follow the first, for scalars of two bytes or more.
spec fn follows(b0: u8, b1: u8) -> bool {
    &&& b0 == 0xe0 ==> 0xa0 <= b1
    &&& b0 == 0xed ==> b1 <= 0x9f
    &&& b0 == 0xf0 ==> 0x90 <= b1
    &&& b0 == 0xf4 ==> b1 <= 0x8f
    &&& 0x80 <= b1 <= 0xbf
}

/// The table of well-formed byte sequences, up to the bytes that are there.
spec fn in_table(b: Seq<u8>) -> bool {
    &&& b.len() > 0
    &&& width(b[0]) > 0
    &&& b.len() > 1 && width(b[0]) > 1 ==> follows(b[0], b[1])
    &&& b.len() > 2 && width(b[0]) > 2 ==> is_continuation_byte(b[2])
    &&& b.len() > 3 && width(b[0]) > 3 ==> is_continuation_byte(b[3])
}

proof fn lemma_two(b0: u8, b1: u8)
    by (bit_vector)
    requires
        0xc0 <= b0 <= 0xdf,
        0x80 <= b1 <= 0xbf,
    ensures
        (0x80 <= ((((b0 & 0x1f) as u32) << 6) | ((b1 & 0x3f) as u32))) == (0xc2 <= b0),
        !(0xD800 <= ((((b0 & 0x1f) as u32) << 6) | ((b1 & 0x3f) as u32)) <= 0xDFFF),
{
}

proof fn lemma_three(b0: u8, b1: u8, b2: u8)
    by (bit_vector)
    requires
        0xe0 <= b0 <= 0xef,
        0x80 <= b1 <= 0xbf,
        0x80 <= b2 <= 0xbf,
    ensures
        (0x800 <= ((((b0 & 0x0f) as u32) << 12) | (((b1 & 0x3f) as u32) << 6) | ((b2 & 0x3f) as u32)))
            == (b0 == 0xe0 ==> 0xa0 <= b1),
        (0xD800 <= ((((b0 & 0x0f) as u32) << 12) | (((b1 & 0x3f) as u32) << 6) | ((b2 & 0x3f) as u32))
            <= 0xDFFF) == (b0 == 0xed && 0xa0 <= b1),
{
}

proof fn lemma_four(b0: u8, b1: u8, b2: u8, b3: u8)
    by (bit_vector)
    requires
        0xf0 <= b0 <= 0xf7,
        0x80 <= b1 <= 0xbf,
        0x80 <= b2 <= 0xbf,
        0x80 <= b3 <= 0xbf,
    ensures
        (0x10000 <= ((((b0 & 0x07) as u32) << 18) | (((b1 & 0x3f) as u32) << 12) | (((b2 & 0x3f) as u32)
            << 6) | ((b3 & 0x3f) as u32))) == (b0 == 0xf0 ==> 0x90 <= b1),
        (((((b0 & 0x07) as u32) << 18) | (((b1 & 0x3f) as u32) << 12) | (((b2 & 0x3f) as u32) << 6) | ((b3
            & 0x3f) as u32)) <= 0x10ffff) == (b0 <= 0xf3 || (b0 == 0xf4 && b1 <= 0x8f)),
        (b0 == 0xf0 ==> 0x90 <= b1) ==> !(0xD800 <= ((((b0 & 0x07) as u32) << 18) | (((b1 & 0x3f) as u32)
            << 12) | (((b2 & 0x3f) as u32) << 6) | ((b3 & 0x3f) as u32)) <= 0xDFFF),
{
}

/// A scalar stands at the front exactly when the table holds the whole of it.
proof fn lemma_table(b: Seq<u8>)
    ensures
        valid_first_scalar(b) <==> in_table(b) && width(b[0]) <= b.len(),
        valid_first_scalar(b) ==> length_of_first_scalar(b) == width(b[0]),
{
    if b.len() >= 1 && is_leading_byte_width_1(b[0]) {
        let b0 = b[0];
        assert(b0 <= 0x7f ==> !(0xD800 <= (b0 & 0x7f) as u32 <= 0xDFFF)) by (bit_vector);
    }
    if b.len() >= 2 && is_leading_byte_width_2(b[0]) && is_continuation_byte(b[1]) {
        lemma_two(b[0], b[1]);
    }
    if b.len() >= 3 && is_leading_byte_width_3(b[0]) && is_continuation_byte(b[1])
        && is_continuation_byte(b[2]) {
        lemma_three(b[0], b[1], b[2]);
    }
    if b.len() >= 4 && is_leading_byte_width_4(b[0]) && is_continuation_byte(b[1])
        && is_continuation_byte(b[2]) && is_continuation_byte(b[3]) {
        lemma_four(b[0], b[1], b[2], b[3]);
    }
}

/// A sequence shorter than the scalar it begins can be completed exactly when
/// the table holds what is there of it.
proof fn lemma_begins(b: Seq<u8>)
    requires
        b.len() > 0,
    ensures
        begins_scalar(b) <==> in_table(b),
{
    if begins_scalar(b) {
        let ext = choose|ext: Seq<u8>| valid_first_scalar(#[trigger] (b + ext));
        lemma_table(b + ext);
        let whole = b + ext;
        assert(forall|k: int| 0 <= k < b.len() ==> whole[k] == b[k]);
        assert(in_table(whole));
    }
    if in_table(b) {
        let b1: u8 = if b[0] == 0xe0 {
            0xa0
        } else if b[0] == 0xf0 {
            0x90
        } else {
            0x80
        };
        let full = seq![b[0], b1, 0x80u8, 0x80u8];
        let ext: Seq<u8> = if b.len() >= 4 {
            seq![]
        } else {
            full.skip(b.len() as int)
        };
        let whole = b + ext;
        assert(whole.len() >= 4);
        assert(whole[0] == b[0]);
        assert(b.len() <= 1 ==> whole[1] == b1);
        assert(b.len() > 1 ==> whole[1] == b[1]);
        assert(b.len() <= 2 ==> whole[2] == 0x80);
        assert(b.len() > 2 ==> whole[2] == b[2]);
        assert(b.len() <= 3 ==> whole[3] == 0x80);
        assert(b.len() > 3 ==> whole[3] == b[3]);
        assert(in_table(whole));
        lemma_table(whole);
        assert(valid_first_scalar(b + ext));
    }
}

/// The first step takes between one byte and all of them, and a step that is
/// not a cut stays the same whatever follows.
proof fn lemma_first_step(b: Seq<u8>, more: Seq<u8>)
    requires
        b.len() > 0,
    ensures
        first_step(b) matches Utf8Step::Scalar(n) ==> 0 < n <= b.len() && n <= 4,
        first_step(b) matches Utf8Step::Bad(n) ==> 0 < n < b.len() || n == 1,
        first_step(b) is Cut || first_step(b + more) == first_step(b),
        first_step(b) is Scalar ==> decode_first_scalar(b + more) == decode_first_scalar(b),
        first_step(b) is Cut ==> b.len() <= 3,
{
    let w = b + more;
    lemma_table(b);
    lemma_table(w);
    lemma_begins(b);
    lemma_begins(w);
    assert(w[0] == b[0]);
    assert(b.len() > 1 ==> w[1] == b[1]);
    assert(b.len() > 2 ==> w[2] == b[2]);
    assert(b.len() > 3 ==> w[3] == b[3]);
    if b.len() > 2 {
        lemma_begins(b.take(2));
        lemma_begins(w.take(2));
    } else if w.len() > 2 {
        lemma_begins(w.take(2));
    }
    if b.len() > 3 {
        lemma_begins(b.take(3));
        lemma_begins(w.take(3));
    } else if w.len() > 3 {
        lemma_begins(w.take(3));
    }
}

/// Decoding what has arrived and then the rest gives what decoding all of it
/// gives: the settled text stands, and the unsettled bytes go before the rest.
pub proof fn settled_then_rest(b: Seq<u8>, more: Seq<u8>)
    ensures
        lossy(b + more) == settled(b) + lossy(unsettled(b) + more),
        settled(b + more) == settled(b) + settled(unsettled(b) + more),
        unsettled(b + more) == unsettled(unsettled(b) + more),
    decreases b.len(),
{
    if b.len() == 0 {
        assert(b + more =~= more);
        assert(unsettled(b) + more =~= more);
        assert(settled(b) + lossy(more) =~= lossy(more));
        assert(settled(b) + settled(more) =~= settled(more));
    } else {
        lemma_first_step(b, more);
        let w = b + more;
        match first_step(b) {
            Utf8Step::Scalar(n) => {
                settled_then_rest(b.skip(n as int), more);
                assert(w.skip(n as int) =~= b.skip(n as int) + more);
                let head = seq![decode_first_scalar(b) as char];
                let tail = b.skip(n as int);
                assert(head + (settled(tail) + lossy(unsettled(tail) + more)) =~= (head + settled(tail))
                    + lossy(unsettled(tail) + more));
                assert(head + (settled(tail) + settled(unsettled(tail) + more)) =~= (head + settled(tail))
                    + settled(unsettled(tail) + more));
            },
            Utf8Step::Bad(n) => {
                settled_then_rest(b.skip(n as int), more);
                assert(w.skip(n as int) =~= b.skip(n as int) + more);
                let head = seq![REPLACEMENT];
                let tail = b.skip(n as int);
                assert(head + (settled(tail) + lossy(unsettled(tail) + more)) =~= (head + settled(tail))
                    + lossy(unsettled(tail) + more));
                assert(head + (settled(tail) + settled(unsettled(tail) + more)) =~= (head + settled(tail))
                    + settled(unsettled(tail) + more));
            },
            Utf8Step::Cut => {
                assert(seq![] + lossy(w) =~= lossy(w));
                assert(seq![] + settled(w) =~= settled(w));
            },
        }
    }
}

/// What is held back is never more than three bytes, and holding back changes
/// nothing about them.
pub proof fn held_back_is_short(b: Seq<u8>)
    ensures
        unsettled(b).len() <= 3,
        settled(unsettled(b)) == Seq::<char>::empty(),
        unsettled(unsettled(b)) == unsettled(b),
    decreases b.len(),
{
    if b.len() > 0 {
        lemma_first_step(b, seq![]);
        match first_step(b) {
            Utf8Step::Scalar(n) => held_back_is_short(b.skip(n as int)),
            Utf8Step::Bad(n) => held_back_is_short(b.skip(n as int)),
            Utf8Step::Cut => {},
        }
    }
}

/// Lossy decoding loses nothing of what is UTF-8.
pub proof fn lossy_keeps_utf8(b: Seq<u8>)
    requires
        valid_utf8(b),
    ensures
        lossy(b) == decode_utf8(b),
    decreases b.len(),
{
    if b.len() > 0 {
        lemma_first_step(b, seq![]);
        lossy_keeps_utf8(pop_first_scalar(b));
        assert(b.skip(length_of_first_scalar(b)) =~= pop_first_scalar(b));
    }
}

/// `char::from_u32`: the character with a code, for every code that is a Unicode
/// scalar value, and nothing for the others.
pub assume_specification[ char::from_u32 ](i: u32) -> (r: Option<char>)
    ensures
        r matches Some(c) ==> c as u32 == i,
        r is Some <==> is_scalar(i),
;

/// Reads the first step of the bytes from `at` on.
fn read_step(b: &[u8], at: usize) -> (step: Utf8Step)
    requires
        at < b@.len(),
    ensures
        step == first_step(b@.skip(at as int)),
{
    let ghost s = b@.skip(at as int);
    proof {
        lemma_table(s);
        lemma_begins(s);
        if s.len() > 2 {
            lemma_begins(s.take(2));
        }
        if s.len() > 3 {
            lemma_begins(s.take(3));
        }
    }
    let left: usize = b.len() - at;
    let b0 = b[at];
    let w: usize = if b0 <= 0x7f {
        1
    } else if 0xc2 <= b0 && b0 <= 0xdf {
        2
    } else if 0xe0 <= b0 && b0 <= 0xef {
        3
    } else if 0xf0 <= b0 && b0 <= 0xf4 {
        4
    } else {
        0
    };
    if w == 0 {
        return Utf8Step::Bad(1);
    }
    if w == 1 {
        return Utf8Step::Scalar(1);
    }
    if left < 2 {
        return Utf8Step::Cut;
    }
    let b1 = b[at + 1];
    if b1 < 0x80 || b1 > 0xbf || (b0 == 0xe0 && b1 < 0xa0) || (b0 == 0xed && b1 > 0x9f) || (b0 == 0xf0
        && b1 < 0x90) || (b0 == 0xf4 && b1 > 0x8f) {
        return Utf8Step::Bad(1);
    }
    if w == 2 {
        return Utf8Step::Scalar(2);
    }
    if left < 3 {
        return Utf8Step::Cut;
    }
    let b2 = b[at + 2];
    if b2 < 0x80 || b2 > 0xbf {
        return Utf8Step::Bad(2);
    }
    if w == 3 {
        return Utf8Step::Scalar(3);
    }
    if left < 4 {
        return Utf8Step::Cut;
    }
    let b3 = b[at + 3];
    if b3 < 0x80 || b3 > 0xbf {
        return Utf8Step::Bad(3);
    }
    Utf8Step::Scalar(4)
}

/// Reads the scalar of `n` bytes at `at`.
fn read_scalar(b: &[u8], at: usize, n: usize) -> (c: char)
    requires
        at < b@.len(),
        valid_first_scalar(b@.skip(at as int)),
        n == length_of_first_scalar(b@.skip(at as int)),
    ensures
        c == decode_first_scalar(b@.skip(at as int)) as char,
{
    let ghost s = b@.skip(at as int);
    proof {
        lemma_table(s);
    }
    let code: u32 = if n == 1 {
        (b[at] & 0x7f) as u32
    } else if n == 2 {
        (((b[at] & 0x1f) as u32) << 6) | ((b[at + 1] & 0x3f) as u32)
    } else if n == 3 {
        (((b[at] & 0x0f) as u32) << 12) | (((b[at + 1] & 0x3f) as u32) << 6) | ((b[at + 2] & 0x3f) as u32)
    } else {
        (((b[at] & 0x07) as u32) << 18) | (((b[at + 1] & 0x3f) as u32) << 12) | (((b[at + 2] & 0x3f) as u32)
            << 6) | ((b[at + 3] & 0x3f) as u32)
    };
    assert(code == decode_first_scalar(s));
    proof {
        let b0 = s[0];
        assert((b0 & 0x7f) as u32 <= 0x7f) by (bit_vector);
        if n == 2 {
            let b1 = s[1];
            assert(((((b0 & 0x1f) as u32) << 6) | ((b1 & 0x3f) as u32)) <= 0x7ff) by (bit_vector);
        }
        if n == 3 {
            let b1 = s[1];
            let b2 = s[2];
            assert(((((b0 & 0x0f) as u32) << 12) | (((b1 & 0x3f) as u32) << 6) | ((b2 & 0x3f) as u32))
                <= 0xffff) by (bit_vector);
        }
        assert(is_scalar(code));
    }
    match char::from_u32(code) {
        Some(c) => {
            proof {
                vstd::utf8::char_u32_cast(c, code);
            }
            c
        },
        None => REPLACEMENT,
    }
}

/// Decodes as much as is settled, appends it to `out`, and says where the
/// unsettled rest begins.
pub fn decode_settled(b: &[u8], out: &mut String) -> (rest: usize)
    ensures
        final(out)@ == old(out)@ + settled(b@),
        rest <= b@.len(),
        b@.skip(rest as int) == unsettled(b@),
{
    let mut at: usize = 0;
    proof {
        assert(b@.skip(0) =~= b@);
    }
    while at < b.len()
        invariant
            at <= b@.len(),
            out@ + settled(b@.skip(at as int)) == old(out)@ + settled(b@),
            unsettled(b@.skip(at as int)) == unsettled(b@),
        decreases b@.len() - at,
    {
        let ghost s = b@.skip(at as int);
        let ghost before = out@;
        proof {
            lemma_first_step(s, seq![]);
        }
        match read_step(b, at) {
            Utf8Step::Scalar(n) => {
                let c = read_scalar(b, at, n);
                out.push(c);
                at = at + n;
                proof {
                    assert(s.skip(n as int) =~= b@.skip(at as int));
                    assert(before.push(c) + settled(b@.skip(at as int)) =~= before + (seq![c] + settled(
                        b@.skip(at as int),
                    )));
                }
            },
            Utf8Step::Bad(n) => {
                out.push(REPLACEMENT);
                at = at + n;
                proof {
                    assert(s.skip(n as int) =~= b@.skip(at as int));
                    assert(before.push(REPLACEMENT) + settled(b@.skip(at as int)) =~= before + (
                    seq![REPLACEMENT] + settled(b@.skip(at as int))));
                }
            },
            Utf8Step::Cut => {
                assert(out@ + settled(s) =~= out@);
                return at;
            },
        }
    }
    assert(b@.skip(at as int) =~= seq![]);
    assert(out@ + settled(b@.skip(at as int)) =~= out@);
    at
}

/// Decodes bytes to a string, with U+FFFD for anything that is not UTF-8.
pub fn decode_lossy(b: &[u8]) -> (text: String)
    ensures
        text@ == lossy(b@),
{
    let mut out = String::new();
    let rest: usize = decode_settled(b, &mut out);
    proof {
        settled_then_rest(b@, seq![]);
        held_back_is_short(b@);
        assert(b@ + Seq::<u8>::empty() =~= b@);
        assert(unsettled(b@) + Seq::<u8>::empty() =~= unsettled(b@));
        assert(Seq::<char>::empty() + settled(b@) =~= settled(b@));
        if rest < b@.len() {
            lemma_cut_tail(b@);
            assert(settled(b@) + seq![REPLACEMENT] =~= settled(b@).push(REPLACEMENT));
        } else {
            assert(unsettled(b@) =~= seq![]);
            assert(settled(b@) + Seq::<char>::empty() =~= settled(b@));
        }
    }
    if rest < b.len() {
        out.push(REPLACEMENT);
    }
    out
}

/// Bytes that are held back decode to a single U+FFFD when nothing follows.
proof fn lemma_cut_tail(b: Seq<u8>)
    ensures
        unsettled(b).len() > 0 ==> lossy(unsettled(b)) == seq![REPLACEMENT],
    decreases b.len(),
{
    if b.len() > 0 {
        lemma_first_step(b, seq![]);
        match first_step(b) {
            Utf8Step::Scalar(n) => lemma_cut_tail(b.skip(n as int)),
            Utf8Step::Bad(n) => lemma_cut_tail(b.skip(n as int)),
            Utf8Step::Cut => {},
        }
    }
}

/// Decodes bytes that are UTF-8 throughout; nothing where they are not.
pub fn decode_strict(b: &[u8]) -> (text: Option<String>)
    ensures
        text is Some <==> valid_utf8(b@),
        text matches Some(s) ==> s@ == decode_utf8(b@),
{
    let mut out = String::new();
    let mut at: usize = 0;
    assert(b@.skip(0) =~= b@);
    while at < b.len()
        invariant
            at <= b@.len(),
            valid_utf8(b@) == valid_utf8(b@.skip(at as int)),
            valid_utf8(b@) ==> out@ + decode_utf8(b@.skip(at as int)) == decode_utf8(b@),
        decreases b@.len() - at,
    {
        let ghost s = b@.skip(at as int);
        let ghost before = out@;
        proof {
            lemma_first_step(s, seq![]);
        }
        match read_step(b, at) {
            Utf8Step::Scalar(n) => {
                let c = read_scalar(b, at, n);
                out.push(c);
                at = at + n;
                proof {
                    assert(pop_first_scalar(s) =~= b@.skip(at as int));
                    if valid_utf8(b@) {
                        let rest = decode_utf8(b@.skip(at as int));
                        assert(before.push(c) + rest =~= before + (seq![c] + rest));
                    }
                }
            },
            _ => {
                return None;
            },
        }
    }
    proof {
        assert(b@.skip(at as int) =~= seq![]);
        assert(out@ + decode_utf8(seq![]) =~= out@);
    }
    Some(out)
}

/// Text that is UTF-8 is read as it stands, whatever follows it, and nothing of it
/// is held back.
pub proof fn text_is_read_as_it_stands(a: Seq<u8>, b: Seq<u8>)
    requires
        valid_utf8(a),
    ensures
        lossy(a + b) == decode_utf8(a) + lossy(b),
        settled(a + b) == decode_utf8(a) + settled(b),
        unsettled(a + b) == unsettled(b),
    decreases a.len(),
{
    if a.len() == 0 {
        assert(a + b =~= b);
        assert(decode_utf8(a) =~= Seq::<char>::empty());
        assert(decode_utf8(a) + lossy(b) =~= lossy(b));
        assert(decode_utf8(a) + settled(b) =~= settled(b));
    } else {
        lemma_first_step(a, b);
        let n = length_of_first_scalar(a);
        let rest = pop_first_scalar(a);
        text_is_read_as_it_stands(rest, b);
        assert(a.skip(n) =~= rest);
        assert((a + b).skip(n) =~= rest + b);
        let c = decode_first_scalar(a) as char;
        assert(decode_utf8(a) == seq![c] + decode_utf8(rest));
        assert(seq![c] + (decode_utf8(rest) + lossy(b)) =~= decode_utf8(a) + lossy(b));
        assert(seq![c] + (decode_utf8(rest) + settled(b)) =~= decode_utf8(a) + settled(b));
    }
}

/// Bytes that might have begun a scalar, up to one that rules every scalar out,
/// are replaced together by one U+FFFD, and reading goes on with that byte. A byte
/// that can begin no scalar is replaced by itself.
pub proof fn bad_bytes_are_replaced_once(b: Seq<u8>, n: int)
    requires
        1 <= n < b.len(),
        n == 1 || exists|ext: Seq<u8>| valid_first_scalar(#[trigger] (b.take(n) + ext)),
        forall|ext: Seq<u8>| !valid_first_scalar(#[trigger] (b.take(n + 1) + ext)),
        !valid_first_scalar(b),
    ensures
        lossy(b) == seq!['\u{fffd}'] + lossy(b.skip(n)),
        settled(b) == seq!['\u{fffd}'] + settled(b.skip(n)),
        unsettled(b) == unsettled(b.skip(n)),
{
    assert(!begins_scalar(b.take(n + 1)));
    lemma_begins_monotone(b, n + 1, b.len() as int);
    assert(b.take(b.len() as int) =~= b);
    if n < 3 && b.len() > 3 {
        lemma_begins_monotone(b, n + 1, 3);
    }
    if n < 2 && b.len() > 2 {
        lemma_begins_monotone(b, n + 1, 2);
    }
    if n > 1 {
        assert(begins_scalar(b.take(n)));
    }
    lemma_first_step(b, seq![]);
    if n > 3 {
        lemma_long_prefix(b, n);
    }
}

/// What no longer prefix can begin, no sequence that goes on with it can.
proof fn lemma_begins_monotone(b: Seq<u8>, m: int, k: int)
    requires
        0 <= m <= b.len(),
        0 <= k <= b.len(),
        !begins_scalar(b.take(m)),
    ensures
        m <= k ==> !begins_scalar(b.take(k)),
{
    if m <= k && begins_scalar(b.take(k)) {
        let ext = choose|ext: Seq<u8>| valid_first_scalar(#[trigger] (b.take(k) + ext));
        let more = b.subrange(m, k) + ext;
        assert(b.take(m) + more =~= b.take(k) + ext);
        assert(valid_first_scalar(b.take(m) + more));
    }
}

/// A prefix of four bytes or more that begins a scalar holds one.
proof fn lemma_long_prefix(b: Seq<u8>, n: int)
    requires
        4 <= n < b.len(),
        begins_scalar(b.take(n)),
    ensures
        valid_first_scalar(b),
{
    let ext = choose|ext: Seq<u8>| valid_first_scalar(#[trigger] (b.take(n) + ext));
    let w = b.take(n) + ext;
    assert(w[0] == b[0] && w[1] == b[1] && w[2] == b[2] && w[3] == b[3]);
}

/// The beginning of a scalar that the input cuts off is one U+FFFD where the input
/// ends, and is held back where more may come.
pub proof fn a_cut_off_scalar_is_held_back(b: Seq<u8>)
    requires
        b.len() > 0,
        !valid_first_scalar(b),
        exists|ext: Seq<u8>| valid_first_scalar(#[trigger] (b + ext)),
    ensures
        lossy(b) == seq!['\u{fffd}'],
        settled(b).len() == 0,
        unsettled(b) == b,
{
    assert(begins_scalar(b));
}

} // verus!
