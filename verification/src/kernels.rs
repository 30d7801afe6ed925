//! The rules the device kernels are called by.
//!
//! A kernel indexes the buffers it is given without looking at their sizes, so
//! every call is checked on the host first. This module and those under it hold
//! the checks, the meaning of the device's status codes, and what is decided on
//! the host about how a kernel runs. Buffers appear as the numbers of elements
//! they hold.

use vstd::prelude::*;

use crate::number::{push_signed, signed_text};
use crate::utf8::{decode_lossy, lossy};

pub mod chunk;
pub mod decode;
pub mod gemv;
pub mod moe;
pub mod rescore;

verus! {

/// What a buffer is used for.
#[derive(Debug, Clone, Copy, PartialEq, Eq, Structural)]
pub enum Operand {
    /// What a projection reads.
    X,
    /// What a projection writes.
    Y,
    /// What is added to a projection.
    Bias,
    /// A dense matrix.
    Weights,
    /// Packed weights.
    Packed,
    /// Scales of packed weights.
    Scales,
    /// What a kernel other than a projection writes.
    Output,
    /// Queries, keys and values.
    Qkv,
    /// Gate and up projections.
    GateUp,
    /// Scores of the vocabulary.
    Logits,
    /// Token ids.
    Tokens,
    /// A running sum and a count.
    Accumulator,
    /// What is copied from.
    Source,
}

/// What is wrong with the sizes a kernel was to be called with.
#[derive(Debug)]
pub enum ShapeRule {
    /// The width is not a multiple of this number.
    Width { width: usize, multiple: usize },
    /// A buffer does not hold as many elements as it should.
    Length { of: Operand, got: usize, expected: usize },
    /// A buffer does not hold this many rows of this width.
    Matrix { of: Operand, got: usize, rows: usize, width: usize },
    /// A buffer holds fewer than this many rows of this width.
    Rows { of: Operand, got: usize, rows: usize, width: usize },
    /// A buffer does not hold this many rows of queries, keys and values.
    Heads { of: Operand, got: usize, rows: usize, n_q: usize, n_kv: usize, head_dim: usize },
    /// The arrays of a packed matrix do not have the sizes its shape calls for.
    Arrays { in_features: usize, out_features: usize },
    /// A pass over no rows was asked for.
    NoRows,
    /// The head width is zero or odd.
    OddHead(usize),
    /// The rotary table is not for this cache.
    RotaryTable,
    /// The rows would run past the end of the cache.
    PastCache { pos: usize, rows: usize, capacity: usize },
    /// The gains of the queries and keys are not as wide as a head.
    Gains { q: usize, k: usize, head_dim: usize },
    /// A buffer is empty.
    Empty(Operand),
    /// The token is not in the vocabulary.
    Target { target: u32, vocab: usize },
    /// This many experts cannot be routed.
    Experts(usize),
    /// This many of the experts cannot be chosen.
    Chosen { k: usize, among: usize },
    /// This place is not among those of the chosen experts.
    Slot { slot: usize, k: usize },
    /// The device says so itself, in these words.
    Device(String),
}

/// A failure of the device layer.
#[derive(Debug)]
pub enum Error {
    /// The device reported an error.
    Cuda(String),
    /// An argument was not acceptable.
    InvalidArg(String),
    /// The device is of an architecture that is not supported.
    UnsupportedArch(String),
    /// The device is out of memory.
    Oom(String),
    /// Sizes do not fit each other.
    Shape(ShapeRule),
    /// There is no device.
    NoDevice,
}

/// Whether a check answers as it should: well where there is no fault, and with
/// the fault where there is one.
pub open spec fn answers(ok: Result<(), Error>, fault: Option<ShapeRule>) -> bool {
    match fault {
        None => ok is Ok,
        Some(rule) => ok == Err::<(), Error>(Error::Shape(rule)),
    }
}

/// What a status code of the device layer means, with the words the device has
/// for it.
pub open spec fn status_error(status: i32, words: Seq<char>, e: Error) -> bool {
    match status {
        1 => e matches Error::Cuda(w) && w@ == words,
        2 => e matches Error::InvalidArg(w) && w@ == words,
        3 => e matches Error::UnsupportedArch(w) && w@ == words,
        4 => e matches Error::Oom(w) && w@ == words,
        5 => e matches Error::Shape(ShapeRule::Device(w)) && w@ == words,
        _ => e matches Error::Cuda(w) && w@ == unknown_status(status, words),
    }
}

/// What is said of a status code that is not known.
pub open spec fn unknown_status(status: i32, words: Seq<char>) -> Seq<char> {
    "unknown status "@ + signed_text(status as int) + ": "@ + words
}

/// Turns a status code of the device layer into a result. Zero is success; a code
/// that is not known counts as an error of the device.
pub fn check(status: i32, words: String) -> (ok: Result<(), Error>)
    ensures
        match ok {
            Ok(_) => status == 0,
            Err(e) => status != 0 && status_error(status, words@, e),
        },
{
    if status == 0 {
        Ok(())
    } else if status == 1 {
        Err(Error::Cuda(words))
    } else if status == 2 {
        Err(Error::InvalidArg(words))
    } else if status == 3 {
        Err(Error::UnsupportedArch(words))
    } else if status == 4 {
        Err(Error::Oom(words))
    } else if status == 5 {
        Err(Error::Shape(ShapeRule::Device(words)))
    } else {
        let mut text = String::from_str("unknown status ");
        push_signed(&mut text, status as i64);
        text.append(": ");
        text.append(words.as_str());
        assert(text@ =~= unknown_status(status, words@));
        Err(Error::Cuda(text))
    }
}

/// Refuses to go on without a device.
pub fn require_device(count: i32) -> (ok: Result<(), Error>)
    ensures
        match ok {
            Ok(_) => count != 0,
            Err(e) => count == 0 && e == Error::NoDevice,
        },
{
    if count == 0 {
        Err(Error::NoDevice)
    } else {
        Ok(())
    }
}

/// The compute capability of a device as one number, e.g. 75.
pub fn compute_capability(major: i32, minor: i32) -> (cc: i32)
    requires
        i32::MIN <= major * 10,
        i32::MIN <= major * 10 + minor <= i32::MAX,
        major * 10 <= i32::MAX,
    ensures
        cc == major * 10 + minor,
{
    major * 10 + minor
}

/// The bytes of a name up to the first zero, or all of them.
pub open spec fn up_to_zero(name: Seq<u8>) -> Seq<u8>
    decreases name.len(),
{
    if name.len() == 0 || name[0] == 0 {
        Seq::empty()
    } else {
        seq![name[0]] + up_to_zero(name.skip(1))
    }
}

proof fn lemma_up_to_zero(name: Seq<u8>, n: int)
    requires
        0 <= n <= name.len(),
        forall|i: int| 0 <= i < n ==> name[i] != 0,
        n < name.len() ==> name[n] == 0,
    ensures
        up_to_zero(name) == name.take(n),
    decreases n,
{
    if n == 0 {
        assert(name.take(0) =~= Seq::<u8>::empty());
    } else {
        lemma_up_to_zero(name.skip(1), n - 1);
        assert(seq![name[0]] + name.skip(1).take(n - 1) =~= name.take(n));
    }
}

/// The name of a device, from the zero-terminated field the driver fills.
pub fn device_name(field: &[u8]) -> (name: String)
    ensures
        name@ == lossy(up_to_zero(field@)),
{
    let mut bytes: Vec<u8> = Vec::new();
    let mut i: usize = 0;
    while i < field.len() && field[i] != 0
        invariant
            i <= field@.len(),
            bytes@ == field@.take(i as int),
            forall|j: int| 0 <= j < i ==> field@[j] != 0,
        decreases field@.len() - i,
    {
        bytes.push(field[i]);
        i += 1;
        assert(bytes@ =~= field@.take(i as int));
    }
    proof {
        lemma_up_to_zero(field@, i as int);
    }
    decode_lossy(bytes.as_slice())
}

/// The sizes the device layer and the host agree on for the structures they
/// share.
#[derive(Debug, Clone, Copy, PartialEq, Eq, Structural)]
pub struct AbiLayout {
    pub device_info_size: u32,
    pub device_info_align: u32,
    pub probe_size: u32,
    pub probe_align: u32,
}

impl Default for AbiLayout {
    fn default() -> (layout: Self)
        ensures
            layout == (AbiLayout {
                device_info_size: 0,
                device_info_align: 0,
                probe_size: 0,
                probe_align: 0,
            }),
    {
        AbiLayout { device_info_size: 0, device_info_align: 0, probe_size: 0, probe_align: 0 }
    }
}

/// The bytes an allocation of `len` elements takes, where that is a number a
/// machine can state.
pub fn allocation_bytes(len: usize, size: usize) -> (bytes: Result<usize, Error>)
    ensures
        match bytes {
            Ok(n) => n == len * size,
            Err(e) => len * size > usize::MAX && e is InvalidArg,
        },
{
    match len.checked_mul(size) {
        Some(n) => Ok(n),
        None => Err(Error::InvalidArg(String::from_str("allocation size overflowed usize"))),
    }
}

/// Whether a copy between a buffer of `have` elements and one of `len` may be
/// made, and whether there is anything to copy.
pub fn check_copy(have: usize, len: usize) -> (ok: Result<bool, Error>)
    ensures
        match ok {
            Ok(any) => have == len && any == (len > 0),
            Err(e) => have != len && e == Error::Shape(
                ShapeRule::Length { of: Operand::Source, got: have, expected: len },
            ),
        },
{
    if have != len {
        return Err(
            Error::Shape(ShapeRule::Length { of: Operand::Source, got: have, expected: len }),
        );
    }
    Ok(len != 0)
}

/// Whether a part of one buffer may be copied over all of another.
pub fn check_range_copy(source: usize, from: usize, len: usize, target: usize) -> (ok: Result<
    bool,
    Error,
>)
    ensures
        match ok {
            Ok(any) => from + len <= source && len == target && any == (len > 0),
            Err(e) => if from + len > source {
                e == Error::Shape(
                    ShapeRule::PastCache { pos: from, rows: len, capacity: source },
                )
            } else {
                len != target && e == Error::Shape(
                    ShapeRule::Length { of: Operand::Source, got: len, expected: target },
                )
            },
        },
{
    if from > source || len > source - from {
        return Err(Error::Shape(ShapeRule::PastCache { pos: from, rows: len, capacity: source }));
    }
    check_copy(len, target)
}

/// Whether a buffer holds at least this many rows of this width.
pub(crate) fn holds(len: usize, rows: usize, width: usize) -> (yes: bool)
    ensures
        yes == (len >= rows * width),
{
    match rows.checked_mul(width) {
        Some(n) => len >= n,
        None => false,
    }
}

/// Whether a buffer holds exactly this many rows of this width.
pub(crate) fn exactly(len: usize, rows: usize, width: usize) -> (yes: bool)
    ensures
        yes == (len == rows * width),
{
    match rows.checked_mul(width) {
        Some(n) => len == n,
        None => false,
    }
}

/// The elements of one row of queries, keys and values.
pub open spec fn qkv_width(n_q: int, n_kv: int, head_dim: int) -> int {
    (n_q + 2 * n_kv) * head_dim
}

/// The elements of one row of queries, keys and values, where a machine can
/// state it.
pub(crate) fn qkv_stride(n_q: usize, n_kv: usize, head_dim: usize) -> (n: Option<usize>)
    ensures
        match n {
            Some(n) => n == qkv_width(n_q as int, n_kv as int, head_dim as int),
            None => qkv_width(n_q as int, n_kv as int, head_dim as int) > usize::MAX,
        },
{
    if head_dim == 0 {
        assert(qkv_width(n_q as int, n_kv as int, 0) == 0) by (nonlinear_arith);
        return Some(0);
    }
    match n_kv.checked_mul(2) {
        Some(kv) => match n_q.checked_add(kv) {
            Some(heads) => heads.checked_mul(head_dim),
            None => {
                assert((n_q + 2 * n_kv) * head_dim >= n_q + 2 * n_kv) by (nonlinear_arith)
                    requires
                        1 <= head_dim,
                ;
                None
            },
        },
        None => {
            assert((n_q + 2 * n_kv) * head_dim >= n_q + 2 * n_kv) by (nonlinear_arith)
                requires
                    1 <= head_dim,
            ;
            None
        },
    }
}

} // verus!
