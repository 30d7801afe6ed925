//! Little-endian numbers in byte sequences.

use vstd::prelude::*;

verus! {

/// The number two bytes state.
pub open spec fn le16(s: Seq<u8>) -> u16 {
    (s[0] + s[1] * 0x100) as u16
}

/// The number four bytes state.
pub open spec fn le32(s: Seq<u8>) -> u32 {
    (s[0] + s[1] * 0x100 + s[2] * 0x1_0000 + s[3] * 0x100_0000) as u32
}

/// The number eight bytes state.
pub open spec fn le64(s: Seq<u8>) -> u64 {
    (le32(s.take(4)) + le32(s.subrange(4, 8)) * 0x1_0000_0000) as u64
}

/// The two bytes of a number.
pub open spec fn le16_bytes(x: u16) -> Seq<u8> {
    seq![(x % 0x100) as u8, (x / 0x100) as u8]
}

/// The four bytes of a number.
pub open spec fn le32_bytes(x: u32) -> Seq<u8> {
    seq![
        (x % 0x100) as u8,
        (x / 0x100 % 0x100) as u8,
        (x / 0x1_0000 % 0x100) as u8,
        (x / 0x100_0000) as u8,
    ]
}

/// The eight bytes of a number.
pub open spec fn le64_bytes(x: u64) -> Seq<u8> {
    le32_bytes((x % 0x1_0000_0000) as u32) + le32_bytes((x / 0x1_0000_0000) as u32)
}

/// Reading the bytes of a number gives the number back.
pub proof fn le_round_trip(a: u16, b: u32, c: u64)
    ensures
        le16(le16_bytes(a)) == a,
        le32(le32_bytes(b)) == b,
        le64(le64_bytes(c)) == c,
{
    le32_round_trip(b);
    let lo = (c % 0x1_0000_0000) as u32;
    let hi = (c / 0x1_0000_0000) as u32;
    le32_round_trip(lo);
    le32_round_trip(hi);
    let s = le64_bytes(c);
    assert(s.take(4) =~= le32_bytes(lo));
    assert(s.subrange(4, 8) =~= le32_bytes(hi));
}

proof fn le32_round_trip(x: u32)
    ensures
        le32(le32_bytes(x)) == x,
{
}

/// Reads two bytes.
pub fn read_le16(b: &[u8], at: usize) -> (x: u16)
    requires
        at + 2 <= b@.len(),
    ensures
        x == le16(b@.subrange(at as int, at + 2)),
{
    b[at] as u16 + b[at + 1] as u16 * 0x100
}

/// Reads four bytes.
pub fn read_le32(b: &[u8], at: usize) -> (x: u32)
    requires
        at + 4 <= b.len(),
    ensures
        x == le32(b@.subrange(at as int, at + 4)),
{
    b[at] as u32 + b[at + 1] as u32 * 0x100 + b[at + 2] as u32 * 0x1_0000 + b[at + 3] as u32 * 0x100_0000
}

/// Reads eight bytes.
pub fn read_le64(b: &[u8], at: usize) -> (x: u64)
    requires
        at + 8 <= b.len(),
    ensures
        x == le64(b@.subrange(at as int, at + 8)),
{
    let lo: u32 = read_le32(b, at);
    let hi: u32 = read_le32(b, at + 4);
    proof {
        let s = b@.subrange(at as int, at + 8);
        assert(s.take(4) =~= b@.subrange(at as int, at + 4));
        assert(s.subrange(4, 8) =~= b@.subrange(at + 4, at + 8));
    }
    lo as u64 + hi as u64 * 0x1_0000_0000
}

/// Appends the two bytes of a number.
pub fn push_le16(out: &mut Vec<u8>, x: u16)
    ensures
        final(out)@ == old(out)@ + le16_bytes(x),
{
    out.push((x % 0x100) as u8);
    out.push((x / 0x100) as u8);
    assert(out@ =~= old(out)@ + le16_bytes(x));
}

/// Appends the four bytes of a number.
pub fn push_le32(out: &mut Vec<u8>, x: u32)
    ensures
        final(out)@ == old(out)@ + le32_bytes(x),
{
    out.push((x % 0x100) as u8);
    out.push((x / 0x100 % 0x100) as u8);
    out.push((x / 0x1_0000 % 0x100) as u8);
    out.push((x / 0x100_0000) as u8);
    assert(out@ =~= old(out)@ + le32_bytes(x));
}

/// Appends the eight bytes of a number.
pub fn push_le64(out: &mut Vec<u8>, x: u64)
    ensures
        final(out)@ == old(out)@ + le64_bytes(x),
{
    push_le32(out, (x % 0x1_0000_0000) as u32);
    push_le32(out, (x / 0x1_0000_0000) as u32);
    assert(out@ =~= old(out)@ + le64_bytes(x));
}

/// The bytes of a list of 32-bit numbers.
pub open spec fn words_bytes(words: Seq<u32>) -> Seq<u8>
    decreases words.len(),
{
    if words.len() == 0 {
        seq![]
    } else {
        words_bytes(words.drop_last()) + le32_bytes(words.last())
    }
}

/// The bytes of a list of 16-bit numbers.
pub open spec fn halves_bytes(halves: Seq<u16>) -> Seq<u8>
    decreases halves.len(),
{
    if halves.len() == 0 {
        seq![]
    } else {
        halves_bytes(halves.drop_last()) + le16_bytes(halves.last())
    }
}

/// The 32-bit numbers a byte sequence states; a rest of fewer than four bytes
/// states none.
pub open spec fn words_of(b: Seq<u8>) -> Seq<u32> {
    Seq::new(b.len() / 4, |i: int| le32(b.subrange(4 * i, 4 * i + 4)))
}

/// The 16-bit numbers a byte sequence states; an odd last byte states none.
pub open spec fn halves_of(b: Seq<u8>) -> Seq<u16> {
    Seq::new(b.len() / 2, |i: int| le16(b.subrange(2 * i, 2 * i + 2)))
}

/// Reading the bytes of a list of numbers gives the list back.
pub proof fn words_round_trip(words: Seq<u32>)
    ensures
        words_bytes(words).len() == 4 * words.len(),
        words_of(words_bytes(words)) == words,
    decreases words.len(),
{
    let b = words_bytes(words);
    if words.len() > 0 {
        let front = words.drop_last();
        words_round_trip(front);
        le32_round_trip(words.last());
        let fb = words_bytes(front);
        assert forall|i: int| 0 <= i < words.len() implies words_of(b)[i] == words[i] by {
            if i < front.len() {
                assert(b.subrange(4 * i, 4 * i + 4) =~= fb.subrange(4 * i, 4 * i + 4));
                assert(words_of(fb)[i] == front[i]);
            } else {
                assert(b.subrange(4 * i, 4 * i + 4) =~= le32_bytes(words.last()));
            }
        }
        assert(words_of(b) =~= words);
    } else {
        assert(words_of(b) =~= words);
    }
}

/// Reading the bytes of a list of 16-bit numbers gives the list back.
pub proof fn halves_round_trip(halves: Seq<u16>)
    ensures
        halves_bytes(halves).len() == 2 * halves.len(),
        halves_of(halves_bytes(halves)) == halves,
    decreases halves.len(),
{
    let b = halves_bytes(halves);
    if halves.len() > 0 {
        let front = halves.drop_last();
        halves_round_trip(front);
        let last = halves.last();
        assert(le16(le16_bytes(last)) == last);
        let fb = halves_bytes(front);
        assert forall|i: int| 0 <= i < halves.len() implies halves_of(b)[i] == halves[i] by {
            if i < front.len() {
                assert(b.subrange(2 * i, 2 * i + 2) =~= fb.subrange(2 * i, 2 * i + 2));
                assert(halves_of(fb)[i] == front[i]);
            } else {
                assert(b.subrange(2 * i, 2 * i + 2) =~= le16_bytes(last));
            }
        }
        assert(halves_of(b) =~= halves);
    } else {
        assert(halves_of(b) =~= halves);
    }
}

/// The bytes of a list of 32-bit numbers.
pub fn bytes_of_words(words: &[u32]) -> (b: Vec<u8>)
    ensures
        b@ == words_bytes(words@),
        b@.len() == 4 * words@.len(),
{
    let mut out: Vec<u8> = Vec::new();
    let mut i: usize = 0;
    assert(words@.take(0) =~= seq![]);
    while i < words.len()
        invariant
            i <= words@.len(),
            out@ == words_bytes(words@.take(i as int)),
        decreases words@.len() - i,
    {
        push_le32(&mut out, words[i]);
        i = i + 1;
        assert(words@.take(i as int).drop_last() =~= words@.take(i - 1));
    }
    assert(words@.take(i as int) =~= words@);
    proof {
        words_round_trip(words@);
    }
    out
}

/// The bytes of a list of 16-bit numbers.
pub fn bytes_of_halves(halves: &[u16]) -> (b: Vec<u8>)
    ensures
        b@ == halves_bytes(halves@),
        b@.len() == 2 * halves@.len(),
{
    let mut out: Vec<u8> = Vec::new();
    let mut i: usize = 0;
    assert(halves@.take(0) =~= seq![]);
    while i < halves.len()
        invariant
            i <= halves@.len(),
            out@ == halves_bytes(halves@.take(i as int)),
        decreases halves@.len() - i,
    {
        push_le16(&mut out, halves[i]);
        i = i + 1;
        assert(halves@.take(i as int).drop_last() =~= halves@.take(i - 1));
    }
    assert(halves@.take(i as int) =~= halves@);
    proof {
        halves_round_trip(halves@);
    }
    out
}

/// Reads the 32-bit numbers in a range of a file.
pub fn read_u32(bytes: &[u8], offset: u64, len: u64) -> (words: Vec<u32>)
    requires
        offset + len <= bytes@.len(),
    ensures
        words@ == words_of(bytes@.subrange(offset as int, offset + len)),
{
    let total: usize = bytes.len();
    let start: usize = offset as usize;
    let n: usize = len as usize / 4;
    let ghost part = bytes@.subrange(offset as int, offset + len);
    let mut out: Vec<u32> = Vec::new();
    let mut i: usize = 0;
    while i < n
        invariant
            i <= n,
            n == len as int / 4,
            start == offset,
            total == bytes@.len(),
            offset + len <= total,
            part == bytes@.subrange(offset as int, offset + len),
            out@.len() == i,
            forall|k: int| 0 <= k < i ==> #[trigger] out@[k] == le32(part.subrange(4 * k, 4 * k + 4)),
        decreases n - i,
    {
        let x: u32 = read_le32(bytes, start + 4 * i);
        assert(bytes@.subrange(start + 4 * i, start + 4 * i + 4) =~= part.subrange(4 * i, 4 * i + 4));
        out.push(x);
        i = i + 1;
    }
    assert(out@ =~= words_of(part));
    out
}

/// Reads the 16-bit numbers in a range of a file.
pub fn read_u16(bytes: &[u8], offset: u64, len: u64) -> (halves: Vec<u16>)
    requires
        offset + len <= bytes@.len(),
    ensures
        halves@ == halves_of(bytes@.subrange(offset as int, offset + len)),
{
    let total: usize = bytes.len();
    let start: usize = offset as usize;
    let n: usize = len as usize / 2;
    let ghost part = bytes@.subrange(offset as int, offset + len);
    let mut out: Vec<u16> = Vec::new();
    let mut i: usize = 0;
    while i < n
        invariant
            i <= n,
            n == len as int / 2,
            start == offset,
            total == bytes@.len(),
            offset + len <= total,
            part == bytes@.subrange(offset as int, offset + len),
            out@.len() == i,
            forall|k: int| 0 <= k < i ==> #[trigger] out@[k] == le16(part.subrange(2 * k, 2 * k + 2)),
        decreases n - i,
    {
        let x: u16 = read_le16(bytes, start + 2 * i);
        assert(bytes@.subrange(start + 2 * i, start + 2 * i + 2) =~= part.subrange(2 * i, 2 * i + 2));
        out.push(x);
        i = i + 1;
    }
    assert(out@ =~= halves_of(part));
    out
}

} // verus!
