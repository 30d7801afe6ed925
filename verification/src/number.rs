//! Decimal numbers in text.

use vstd::prelude::*;

verus! {

/// Whether a character is a decimal digit.
pub open spec fn is_digit(c: char) -> bool {
    '0' <= c <= '9'
}

/// The value of a run of digits.
pub open spec fn digits_value(s: Seq<char>) -> nat
    decreases s.len(),
{
    if s.len() == 0 {
        0
    } else {
        10 * digits_value(s.drop_last()) + (s.last() as nat - '0' as nat) as nat
    }
}

/// The number a text of digits states, if it is one.
pub open spec fn plain_decimal(s: Seq<char>) -> Option<nat> {
    if s.len() > 0 && (forall|i: int| 0 <= i < s.len() ==> is_digit(#[trigger] s[i])) {
        Some(digits_value(s))
    } else {
        None
    }
}

/// The number a text states: digits, after a plus sign or not.
pub open spec fn decimal(s: Seq<char>) -> Option<nat> {
    if s.len() > 0 && s[0] == '+' {
        plain_decimal(s.skip(1))
    } else {
        plain_decimal(s)
    }
}

/// The number a text states: digits, after a plus or a minus sign or not.
pub open spec fn signed_decimal(s: Seq<char>) -> Option<int> {
    if s.len() > 0 && s[0] == '-' {
        match plain_decimal(s.skip(1)) {
            Some(n) => Some(-(n as int)),
            None => None,
        }
    } else {
        match decimal(s) {
            Some(n) => Some(n as int),
            None => None,
        }
    }
}

/// A longer run of digits is worth no less than one that begins it.
proof fn lemma_digits_grow(s: Seq<char>, k: int)
    requires
        0 <= k <= s.len(),
    ensures
        digits_value(s.take(k)) <= digits_value(s),
    decreases s.len() - k,
{
    if k < s.len() {
        lemma_digits_grow(s, k + 1);
        assert(s.take(k + 1).drop_last() =~= s.take(k));
    } else {
        assert(s.take(k) =~= s);
    }
}

/// Reads a run of digits of at most a given value.
fn parse_digits(chars: &[char], from: usize, to: usize, max: u64) -> (n: Option<u64>)
    requires
        from <= to <= chars@.len(),
    ensures
        match n {
            Some(v) => v <= max && plain_decimal(chars@.subrange(from as int, to as int)) == Some(
                v as nat,
            ),
            None => match plain_decimal(chars@.subrange(from as int, to as int)) {
                Some(v) => v > max,
                None => true,
            },
        },
{
    let ghost s = chars@.subrange(from as int, to as int);
    if from == to {
        return None;
    }
    let mut v: u64 = 0;
    let mut i: usize = from;
    while i < to
        invariant
            from <= i <= to <= chars@.len(),
            s == chars@.subrange(from as int, to as int),
            v <= max,
            v == digits_value(s.take(i - from)),
            forall|k: int| 0 <= k < i - from ==> is_digit(#[trigger] s[k]),
        decreases to - i,
    {
        let c = chars[i];
        assert(s[i - from] == c);
        if c < '0' || '9' < c {
            return None;
        }
        let d: u64 = c as u64 - '0' as u64;
        assert(s.take(i + 1 - from).drop_last() =~= s.take(i - from));
        assert(digits_value(s.take(i + 1 - from)) == 10 * v + d);
        if max / 10 < v || max - 10 * v < d {
            proof {
                lemma_digits_grow(s, i + 1 - from);
            }
            return None;
        }
        v = 10 * v + d;
        i += 1;
    }
    assert(s.take(i - from) =~= s);
    Some(v)
}

/// Reads a number of at most a given value from a part of a text: digits, after
/// a plus sign or not, and nothing else.
pub fn parse_unsigned(chars: &[char], from: usize, to: usize, max: u64) -> (n: Option<u64>)
    requires
        from <= to <= chars@.len(),
    ensures
        match n {
            Some(v) => v <= max && decimal(chars@.subrange(from as int, to as int)) == Some(
                v as nat,
            ),
            None => match decimal(chars@.subrange(from as int, to as int)) {
                Some(v) => v > max,
                None => true,
            },
        },
{
    if from < to && chars[from] == '+' {
        assert(chars@.subrange(from as int, to as int).skip(1) =~= chars@.subrange(
            from + 1,
            to as int,
        ));
        parse_digits(chars, from + 1, to, max)
    } else {
        parse_digits(chars, from, to, max)
    }
}

/// Reads an `i32` from a part of a text: digits, after a sign or not, and
/// nothing else.
pub fn parse_i32(chars: &[char], from: usize, to: usize) -> (n: Option<i32>)
    requires
        from <= to <= chars@.len(),
    ensures
        match n {
            Some(v) => signed_decimal(chars@.subrange(from as int, to as int)) == Some(v as int),
            None => match signed_decimal(chars@.subrange(from as int, to as int)) {
                Some(v) => v < i32::MIN || i32::MAX < v,
                None => true,
            },
        },
{
    if from < to && chars[from] == '-' {
        assert(chars@.subrange(from as int, to as int).skip(1) =~= chars@.subrange(
            from + 1,
            to as int,
        ));
        match parse_digits(chars, from + 1, to, 0x8000_0000) {
            Some(v) => Some((0i64 - v as i64) as i32),
            None => None,
        }
    } else {
        match parse_unsigned(chars, from, to, 0x7fff_ffff) {
            Some(v) => Some(v as i32),
            None => None,
        }
    }
}

/// The character of a digit.
pub open spec fn digit_char(d: nat) -> char {
    ('0' as nat + d) as char
}

/// The digits of a number, without leading zeros.
pub open spec fn decimal_text(n: nat) -> Seq<char>
    decreases n,
{
    if n < 10 {
        seq![digit_char(n)]
    } else {
        decimal_text(n / 10).push(digit_char(n % 10))
    }
}

/// The text of a number, with a minus sign where it is negative.
pub open spec fn signed_text(n: int) -> Seq<char> {
    if n < 0 {
        seq!['-'] + decimal_text((-n) as nat)
    } else {
        decimal_text(n as nat)
    }
}

/// Reading the digits of a number gives the number back.
pub proof fn decimal_round_trip(n: nat)
    ensures
        decimal(decimal_text(n)) == Some(n),
{
    lemma_decimal_text(n);
}

/// Reading the text of a number gives the number back.
pub proof fn signed_round_trip(n: int)
    ensures
        signed_decimal(signed_text(n)) == Some(n),
{
    if n < 0 {
        lemma_decimal_text((-n) as nat);
        assert(signed_text(n).skip(1) =~= decimal_text((-n) as nat));
    } else {
        lemma_decimal_text(n as nat);
    }
}

proof fn lemma_decimal_text(n: nat)
    ensures
        decimal_text(n).len() > 0,
        forall|i: int| 0 <= i < decimal_text(n).len() ==> is_digit(#[trigger] decimal_text(n)[i]),
        digits_value(decimal_text(n)) == n,
    decreases n,
{
    let s = decimal_text(n);
    if n < 10 {
        assert(s.drop_last() =~= Seq::<char>::empty());
        assert(digits_value(Seq::<char>::empty()) == 0);
    } else {
        lemma_decimal_text(n / 10);
        assert(s.drop_last() =~= decimal_text(n / 10));
    }
}

/// Appends the digits of a number to a text.
pub fn push_decimal(text: &mut String, n: u64)
    ensures
        final(text)@ == old(text)@ + decimal_text(n as nat),
    decreases n,
{
    let ghost before = text@;
    if n < 10 {
        text.push((48 + n as u8) as char);
        assert(text@ =~= before + decimal_text(n as nat));
    } else {
        push_decimal(text, n / 10);
        text.push((48 + (n % 10) as u8) as char);
        assert(text@ =~= before + decimal_text(n as nat));
    }
}

/// Appends the text of a number to a text.
pub fn push_signed(text: &mut String, n: i64)
    ensures
        final(text)@ == old(text)@ + signed_text(n as int),
{
    let ghost before = text@;
    if n < 0 {
        text.push('-');
        let size: u64 = (-(n as i128)) as u64;
        push_decimal(text, size);
        assert(text@ =~= before + signed_text(n as int));
    } else {
        push_decimal(text, n as u64);
    }
}

/// A digit behind a number makes it ten times as much and the digit more.
pub proof fn digits_count_in_tens(s: Seq<char>, n: nat, d: nat)
    requires
        decimal(s) == Some(n),
        d < 10,
    ensures
        decimal(s.push(('0' as nat + d) as char)) == Some(10 * n + d),
{
    let c = ('0' as nat + d) as char;
    let t = s.push(c);
    if s[0] == '+' {
        assert(t.skip(1) =~= s.skip(1).push(c));
        lemma_one_more_digit(s.skip(1), c);
    } else {
        lemma_one_more_digit(s, c);
    }
}

proof fn lemma_one_more_digit(s: Seq<char>, c: char)
    requires
        plain_decimal(s) is Some,
        is_digit(c),
    ensures
        plain_decimal(s.push(c)) == Some(10 * plain_decimal(s)->0 + (c as nat - '0' as nat) as nat),
{
    let t = s.push(c);
    assert(t.drop_last() =~= s);
    assert forall|i: int| 0 <= i < t.len() implies is_digit(#[trigger] t[i]) by {
        if i < s.len() {
            assert(t[i] == s[i]);
        }
    }
}

/// A digit by itself is a number, a sign before one is kept or dropped as it says,
/// and nothing but digits behind a sign is a number.
pub proof fn numbers_are_signs_and_digits(s: Seq<char>, d: nat)
    requires
        d < 10,
    ensures
        decimal(seq![('0' as nat + d) as char]) == Some(d),
        decimal(s) is Some && s[0] != '+' ==> decimal(seq!['+'] + s) == decimal(s),
        decimal(s) is Some && s[0] != '+' ==> signed_decimal(seq!['-'] + s) == Some(
            -(decimal(s)->0 as int),
        ),
        decimal(s) is Some ==> signed_decimal(s) == Some(decimal(s)->0 as int),
        decimal(s) is Some ==> s.len() > 0 && forall|i: int|
            0 < i < s.len() ==> '0' <= #[trigger] s[i] <= '9',
        decimal(s) is Some ==> s[0] == '+' || '0' <= s[0] <= '9',
{
    let one = seq![('0' as nat + d) as char];
    assert(one.drop_last() =~= Seq::<char>::empty());
    assert(digits_value(Seq::<char>::empty()) == 0);
    assert((seq!['+'] + s).skip(1) =~= s);
    assert((seq!['-'] + s).skip(1) =~= s);
    if decimal(s) is Some {
        assert forall|i: int| 0 < i < s.len() implies '0' <= #[trigger] s[i] <= '9' by {
            if s[0] == '+' {
                assert(is_digit(s.skip(1)[i - 1]));
            } else {
                assert(is_digit(s[i]));
            }
        }
        if s[0] != '+' {
            assert(is_digit(s[0]));
        }
    }
}

/// The text of a number is the text of its tens and then its ones, with no zero
/// before it.
pub proof fn numbers_are_written_in_tens(n: nat, d: nat)
    requires
        n > 0,
        d < 10,
    ensures
        decimal_text(10 * n + d) == decimal_text(n).push(('0' as nat + d) as char),
        decimal_text(d) == seq![('0' as nat + d) as char],
        decimal_text(n)[0] != '0',
        signed_text(-(n as int)) == seq!['-'] + signed_text(n as int),
    decreases n,
{
    if n >= 10 {
        numbers_are_written_in_tens(n / 10, d);
    }
}

} // verus!
