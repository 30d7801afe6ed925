//! The reversible map between bytes and printable characters.
//!
//! Printable ASCII, the Latin-1 letters and a few symbols stand for themselves;
//! every other byte is shifted to U+0100 and up, in byte order. All byte values
//! become characters that merging can treat as text, so no byte sequence is
//! unrepresentable.

use std::collections::HashMap;

use vstd::prelude::*;
use vstd::utf8::is_scalar;

verus! {

/// The bytes that stand for themselves.
pub open spec fn printable(b: int) -> bool {
    0x21 <= b <= 0x7e || 0xa1 <= b <= 0xac || 0xae <= b <= 0xff
}

/// How many bytes below `b` do not stand for themselves.
pub open spec fn shifted_below(b: int) -> int
    decreases b,
{
    if b <= 0 {
        0
    } else if printable(b - 1) {
        shifted_below(b - 1)
    } else {
        shifted_below(b - 1) + 1
    }
}

/// The code of the character a byte stands as.
pub open spec fn byte_code(b: u8) -> u32 {
    if printable(b as int) {
        b as u32
    } else {
        (256 + shifted_below(b as int)) as u32
    }
}

/// The character a byte stands as.
pub open spec fn byte_char(b: u8) -> char {
    byte_code(b) as char
}

/// The byte a character stands for, if it is one of the 256.
pub open spec fn char_byte(c: char) -> Option<u8> {
    if exists|b: u8| byte_char(b) == c {
        Some(choose|b: u8| byte_char(b) == c)
    } else {
        None
    }
}

/// The characters that bytes stand as, in order.
pub open spec fn byte_chars(bytes: Seq<u8>) -> Seq<char> {
    bytes.map_values(|b: u8| byte_char(b))
}

proof fn lemma_shifted_bound(b: int)
    requires
        0 <= b <= 256,
    ensures
        0 <= shifted_below(b) <= b,
    decreases b,
{
    if b > 0 {
        lemma_shifted_bound(b - 1);
    }
}

proof fn lemma_shifted_strict(a: int, b: int)
    requires
        0 <= a < b <= 256,
        !printable(a),
    ensures
        shifted_below(a) < shifted_below(b),
    decreases b - a,
{
    if a + 1 < b {
        lemma_shifted_strict(a, b - 1);
    } else {
        assert(shifted_below(b) == shifted_below(a) + 1);
    }
}

proof fn lemma_byte_code(b: u8)
    ensures
        byte_code(b) < 512,
        is_scalar(byte_code(b)),
        byte_char(b) as u32 == byte_code(b),
        !printable(b as int) ==> byte_code(b) == 256 + shifted_below(b as int),
        !printable(b as int) ==> 256 <= byte_code(b),
{
    lemma_shifted_bound(b as int);
}

/// The map is one to one: a byte's character stands for that byte and no other.
pub proof fn byte_map_is_a_bijection(b: u8)
    ensures
        char_byte(byte_char(b)) == Some(b),
        forall|other: u8| #[trigger] byte_char(other) == byte_char(b) ==> other == b,
{
    assert forall|other: u8| #[trigger] byte_char(other) == byte_char(b) implies other == b by {
        lemma_byte_code(b);
        lemma_byte_code(other);
        if !printable(b as int) && !printable(other as int) {
            if b < other {
                lemma_shifted_strict(b as int, other as int);
            } else if other < b {
                lemma_shifted_strict(other as int, b as int);
            }
        }
    }
    let back = choose|x: u8| byte_char(x) == byte_char(b);
    assert(byte_char(b) == byte_char(b));
    assert(byte_char(back) == byte_char(b));
}

/// A character stands for a byte exactly when its code is one of the 256.
pub proof fn lemma_char_byte(c: char)
    ensures
        char_byte(c) is Some <==> exists|b: u8| #[trigger] byte_code(b) == c as u32,
        char_byte(c) matches Some(b) ==> byte_code(b) == c as u32 && byte_char(b) == c,
{
    if exists|b: u8| #[trigger] byte_code(b) == c as u32 {
        let b = choose|b: u8| #[trigger] byte_code(b) == c as u32;
        lemma_byte_code(b);
        assert(byte_char(b) == c);
    }
    if exists|b: u8| byte_char(b) == c {
        let b = choose|b: u8| byte_char(b) == c;
        assert(byte_char(b) == c);
        lemma_byte_code(b);
        assert(byte_code(b) == c as u32);
    }
}

/// Visible ASCII characters stand for their own bytes.
pub proof fn visible_ascii_stands_for_itself(c: char)
    requires
        0x21 <= c as int <= 0x7e,
    ensures
        char_byte(c) == Some(c as u8),
{
    let b = c as u8;
    assert(byte_code(b) == b as u32);
    assert(byte_char(b) == c);
    byte_map_is_a_bijection(b);
}

/// Builds the map in both directions. Characters are keyed by their codes.
pub fn byte_maps() -> (maps: ([char; 256], HashMap<u32, u8>))
    ensures
        forall|b: u8| maps.0@[b as int] == #[trigger] byte_char(b),
        forall|code: u32|
            #[trigger] maps.1@.contains_key(code) <==> exists|b: u8| #[trigger] byte_code(b) == code,
        forall|b: u8| maps.1@[#[trigger] byte_code(b)] == b,
        maps.1@.len() == 256,
{
    broadcast use vstd::std_specs::hash::group_hash_axioms;

    let mut fwd: [char; 256] = ['\0'; 256];
    let mut rev: HashMap<u32, u8> = HashMap::new();
    let mut n: u32 = 0;
    let mut b: u16 = 0;
    while b < 256
        invariant
            b <= 256,
            n == shifted_below(b as int),
            n <= b,
            fwd@.len() == 256,
            forall|k: u8| k < b ==> fwd@[k as int] == #[trigger] byte_char(k),
            forall|code: u32|
                #[trigger] rev@.contains_key(code) <==> exists|k: u8|
                    k < b && #[trigger] byte_code(k) == code,
            forall|k: u8| k < b ==> rev@[#[trigger] byte_code(k)] == k,
            rev@.len() == b,
        decreases 256 - b,
    {
        let byte = b as u8;
        let shown = (0x21 <= byte && byte <= 0x7e) || (0xa1 <= byte && byte <= 0xac) || 0xae <= byte;
        let code: u32 = if shown {
            byte as u32
        } else {
            256 + n
        };
        proof {
            lemma_byte_code(byte);
            assert(code == byte_code(byte));
            if rev@.contains_key(code) {
                let k = choose|k: u8| k < b && #[trigger] byte_code(k) == code;
                byte_map_is_a_bijection(byte);
                assert(byte_char(k) == byte_char(byte));
                assert(false);
            }
        }
        let ch = match char::from_u32(code) {
            Some(c) => c,
            None => '\0',
        };
        proof {
            vstd::utf8::char_u32_cast(ch, code);
        }
        fwd[byte as usize] = ch;
        let ghost before = rev@;
        rev.insert(code, byte);
        proof {
            assert forall|c: u32| #[trigger] rev@.contains_key(c) <==> exists|k: u8|
                k < b + 1 && #[trigger] byte_code(k) == c by {
                if rev@.contains_key(c) {
                    if c == code {
                        assert(byte_code(byte) == c);
                    } else {
                        assert(before.contains_key(c));
                        let k = choose|k: u8| k < b && #[trigger] byte_code(k) == c;
                        assert(byte_code(k) == c);
                    }
                }
                if exists|k: u8| k < b + 1 && #[trigger] byte_code(k) == c {
                    let k = choose|k: u8| k < b + 1 && #[trigger] byte_code(k) == c;
                    if k < b {
                        assert(before.contains_key(c));
                    }
                }
            }
            assert forall|k: u8| k < b + 1 implies rev@[#[trigger] byte_code(k)] == k by {
                if k < b {
                    byte_map_is_a_bijection(byte);
                    assert(byte_char(k) != byte_char(byte));
                }
            }
        }
        if !shown {
            n = n + 1;
        }
        b = b + 1;
    }
    proof {
        assert forall|k: u8| fwd@[k as int] == #[trigger] byte_char(k) by {
            assert(k < 256);
        }
        assert forall|k: u8| rev@[#[trigger] byte_code(k)] == k by {
            assert(k < 256);
        }
    }
    (fwd, rev)
}

} // verus!
