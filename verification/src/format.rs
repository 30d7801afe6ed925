//! The `.wstone` container format.
//!
//! ```text
//! 0   magic        8   "WHETSTON"
//! 8   version      4   u32 LE
//! 12  flags        4   u32 LE
//! 16  header_len   8   u64 LE
//! 24  header_hash  8   u64 LE   checksum of the header bytes
//! 32  header       header_len   UTF-8 JSON
//!     padding                   to ALIGN
//!     payloads                  each blob ALIGN-aligned
//! ```
//!
//! Every blob carries a checksum. A truncated download or a corrupt byte must be
//! an error at load time, not a garbage generation ten minutes later.

use vstd::prelude::*;

use crate::bytes::{le32, le32_bytes, le64, le64_bytes, le_round_trip, push_le32, push_le64, read_le32, read_le64};
use crate::checksum::{checksum, checksum_detects_a_changed_byte, fnv1a};
use crate::json::{Json, JsonView};
use crate::quant::Error;
use crate::text::str_eq;

verus! {

/// Current format version.
pub const VERSION: u32 = 1;

/// Payload alignment in bytes.
pub const ALIGN: u64 = 256;

/// Fixed prefix length before the JSON header.
pub const PREFIX: u64 = 32;

/// File magic, `WHETSTON`. Eight bytes so the header stays 8-byte aligned.
pub open spec fn magic() -> Seq<u8> {
    seq![0x57u8, 0x48, 0x45, 0x54, 0x53, 0x54, 0x4f, 0x4e]
}

/// What is wrong with a `.wstone` file.
#[derive(Debug)]
pub enum FormatIssue {
    /// The file is too short to be a `.wstone`.
    TooShort,
    /// The file does not begin with the magic.
    BadMagic,
    /// The file is of this version, which is not understood.
    Version(u32),
    /// The header's length does not fit a file.
    HeaderOverflow,
    /// The header runs past the end of the file.
    HeaderPastEnd,
    /// The header's checksum does not match.
    HeaderChecksum,
    /// The header is not the JSON it should be; the parser's own words.
    HeaderJson(String),
    /// The header is longer than the room set aside for it.
    HeaderTooLarge { len: u64, reserved: u64 },
    /// The range of this extra overflows.
    ExtraOverflow(String),
    /// This extra ends past the end of the file.
    ExtraPastEnd(String),
    /// The range of this blob of this tensor overflows.
    BlobOverflow(String, String),
    /// This blob of this tensor ends past the end of the file.
    BlobPastEnd(String, String),
    /// This blob of this tensor is not aligned.
    BlobMisaligned(String, String),
    /// This tensor lacks this blob, which its kind requires.
    BlobMissing(String, String),
    /// The checksum of this extra does not match.
    ExtraChecksum(String),
    /// The checksum of this blob of this tensor does not match.
    BlobChecksum(String, String),
    /// There is no tensor of this name.
    NoTensor(String),
    /// This tensor has no blob of this name.
    NoBlob(String, String),
    /// Writing the file failed; the system's own words.
    Write(String),
}

/// How a tensor's bytes are encoded.
#[derive(Debug, Clone, Copy, PartialEq, Eq, Structural)]
pub enum TensorKind {
    /// IEEE-754 binary16, row-major, dense.
    Fp16,
    /// IEEE-754 binary32, row-major, dense.
    Fp32,
    /// int4 asymmetric, groups of 128 along the input dimension.
    ///
    /// Two blobs: `qw` (eight nibbles to a word) and `sz` (an fp16 scale in the
    /// low half and an fp16 zero in the high half).
    Int4G128,
    /// int4 with hierarchical scales, groups of 32 along the input dimension.
    ///
    /// Three blobs: `qw` (eight nibbles to a word), `si` (a 4-bit scale index low
    /// and a 4-bit min index high) and `sb` (an fp16 `d` low and an fp16 `dmin`
    /// high, one per row).
    Int4HierG32,
}

/// A byte range within the payload region.
#[derive(Debug, Clone, Copy, PartialEq, Eq, Structural)]
pub struct Blob {
    /// Absolute file offset.
    pub offset: u64,
    /// Length in bytes.
    pub len: u64,
    /// Checksum of the blob's bytes.
    pub hash: u64,
}

/// One tensor's directory entry.
#[derive(Debug)]
pub struct TensorEntry {
    /// Tensor name, matching the source checkpoint.
    pub name: String,
    /// Encoding.
    pub kind: TensorKind,
    /// Logical shape, outermost first.
    pub shape: Vec<usize>,
    /// Named byte ranges, in the order of their names.
    pub blobs: Vec<(String, Blob)>,
}

/// What a directory entry says.
#[verifier::ext_equal]
pub struct EntryView {
    pub name: Seq<char>,
    pub kind: TensorKind,
    pub shape: Seq<usize>,
    pub blobs: Seq<(Seq<char>, Blob)>,
}

/// The JSON header.
pub struct Header {
    /// Always `"wstone"`.
    pub format: String,
    /// Format version.
    pub version: u32,
    /// Producer identification.
    pub producer: String,
    /// The source model's `config.json`, so no sidecar is needed.
    pub model_config: Json,
    /// Quantization scheme description, for provenance.
    pub quant: Vec<(String, String)>,
    /// Tensor directory, sorted by name.
    pub tensors: Vec<TensorEntry>,
    /// Non-tensor payloads, in the order of their names.
    pub extras: Vec<(String, Blob)>,
}

/// What a header says about the file's payloads.
#[verifier::ext_equal]
pub struct HeaderView {
    pub model_config: JsonView,
    pub quant: Seq<(Seq<char>, Seq<char>)>,
    pub tensors: Seq<EntryView>,
    pub extras: Seq<(Seq<char>, Blob)>,
}

/// The names and ranges of a list of blobs.
pub open spec fn blob_views(list: Seq<(String, Blob)>) -> Seq<(Seq<char>, Blob)> {
    list.map_values(|b: (String, Blob)| (b.0@, b.1))
}

impl TensorEntry {
    /// What the entry says.
    pub open spec fn view(&self) -> EntryView {
        EntryView {
            name: self.name@,
            kind: self.kind,
            shape: self.shape@,
            blobs: blob_views(self.blobs@),
        }
    }
}

impl Header {
    /// What the header says about the file's payloads.
    pub open spec fn view(&self) -> HeaderView {
        HeaderView {
            model_config: self.model_config@,
            quant: self.quant@.map_values(|q: (String, String)| (q.0@, q.1@)),
            tensors: self.tensors@.map_values(|t: TensorEntry| t@),
            extras: blob_views(self.extras@),
        }
    }
}

// -------------------------------------------------------------- simple sums

/// The product of the first `n` numbers of a shape.
pub open spec fn product(shape: Seq<usize>, n: int) -> nat
    decreases n,
{
    if n <= 0 {
        1
    } else {
        product(shape, n - 1) * shape[n - 1] as nat
    }
}

/// Whether multiplying a shape out stays within bounds at every step.
pub open spec fn product_fits(shape: Seq<usize>) -> bool {
    forall|n: int| 0 <= n <= shape.len() ==> #[trigger] product(shape, n) <= usize::MAX
}

/// The bytes of the first `n` blobs.
pub open spec fn blobs_len(blobs: Seq<(Seq<char>, Blob)>, n: int) -> nat
    decreases n,
{
    if n <= 0 {
        0
    } else {
        blobs_len(blobs, n - 1) + blobs[n - 1].1.len as nat
    }
}

/// The bytes a tensor stores.
pub open spec fn entry_len(e: EntryView) -> nat {
    blobs_len(e.blobs, e.blobs.len() as int)
}

/// The bytes the first `n` tensors store, those left out that `skip` names.
pub open spec fn tensors_len(tensors: Seq<EntryView>, n: int, skip: Option<Seq<char>>) -> nat
    decreases n,
{
    if n <= 0 {
        0
    } else if skip == Some(tensors[n - 1].name) {
        tensors_len(tensors, n - 1, skip)
    } else {
        tensors_len(tensors, n - 1, skip) + entry_len(tensors[n - 1])
    }
}

/// Whether a model's configuration ties its output projection to its embedding.
pub open spec fn ties_embeddings(config: JsonView) -> bool {
    config.get("tie_word_embeddings"@) == Some(JsonView::Bool(true))
}

/// Where the first blob of a name is, from `i` on.
pub open spec fn blob_index(blobs: Seq<(Seq<char>, Blob)>, name: Seq<char>, i: int) -> Option<int>
    decreases blobs.len() - i,
    when 0 <= i
{
    if i >= blobs.len() {
        None
    } else if blobs[i].0 == name {
        Some(i)
    } else {
        blob_index(blobs, name, i + 1)
    }
}

/// Where the first tensor of a name is, from `i` on.
pub open spec fn tensor_index(tensors: Seq<EntryView>, name: Seq<char>, i: int) -> Option<int>
    decreases tensors.len() - i,
    when 0 <= i
{
    if i >= tensors.len() {
        None
    } else if tensors[i].name == name {
        Some(i)
    } else {
        tensor_index(tensors, name, i + 1)
    }
}

proof fn lemma_blobs_len(blobs: Seq<(Seq<char>, Blob)>, a: int, b: int)
    requires
        a <= b,
    ensures
        blobs_len(blobs, a) <= blobs_len(blobs, b),
    decreases b - a,
{
    if a < b {
        lemma_blobs_len(blobs, a, b - 1);
    }
}

pub(crate) proof fn lemma_tensors_len(tensors: Seq<EntryView>, a: int, b: int, skip: Option<Seq<char>>)
    requires
        a <= b,
    ensures
        tensors_len(tensors, a, skip) <= tensors_len(tensors, b, skip),
    decreases b - a,
{
    if a < b {
        lemma_tensors_len(tensors, a, b - 1, skip);
    }
}

/// Finds the first blob of a name.
fn find_blob(blobs: &Vec<(String, Blob)>, name: &str) -> (at: Option<usize>)
    ensures
        match (at, blob_index(blob_views(blobs@), name@, 0)) {
            (Some(i), Some(want)) => i == want && i < blobs@.len(),
            (None, None) => true,
            _ => false,
        },
{
    let ghost all = blob_views(blobs@);
    let mut i: usize = 0;
    while i < blobs.len()
        invariant
            i <= blobs@.len(),
            all == blob_views(blobs@),
            blob_index(all, name@, 0) == blob_index(all, name@, i as int),
        decreases blobs@.len() - i,
    {
        assert(all[i as int].0 == blobs@[i as int].0@);
        if str_eq(blobs[i].0.as_str(), name) {
            return Some(i);
        }
        i = i + 1;
    }
    None
}

impl TensorEntry {
    /// Element count.
    pub fn numel(&self) -> (n: usize)
        requires
            product_fits(self.shape@),
        ensures
            n == product(self.shape@, self.shape@.len() as int),
    {
        shape_numel(&self.shape)
    }

    /// Total stored bytes, where they can be counted.
    pub fn checked_bytes(&self) -> (n: Option<u64>)
        ensures
            n is Some <==> entry_len(self@) <= u64::MAX,
            n matches Some(n) ==> n == entry_len(self@),
    {
        let ghost all = self@.blobs;
        let mut n: u64 = 0;
        let mut i: usize = 0;
        while i < self.blobs.len()
            invariant
                i <= self.blobs@.len(),
                all == blob_views(self.blobs@),
                all == self@.blobs,
                n == blobs_len(all, i as int),
            decreases self.blobs@.len() - i,
        {
            assert(all[i as int].1 == self.blobs@[i as int].1);
            proof {
                lemma_blobs_len(all, i + 1, all.len() as int);
            }
            n = match n.checked_add(self.blobs[i].1.len) {
                Some(n) => n,
                None => {
                    return None;
                },
            };
            i = i + 1;
        }
        Some(n)
    }

    /// Total stored bytes.
    pub fn stored_bytes(&self) -> (n: u64)
        requires
            entry_len(self@) <= u64::MAX,
        ensures
            n == entry_len(self@),
    {
        let ghost all = self@.blobs;
        let mut n: u64 = 0;
        let mut i: usize = 0;
        while i < self.blobs.len()
            invariant
                i <= self.blobs@.len(),
                all == blob_views(self.blobs@),
                n == blobs_len(all, i as int),
                blobs_len(all, all.len() as int) <= u64::MAX,
            decreases self.blobs@.len() - i,
        {
            assert(all[i as int].1 == self.blobs@[i as int].1);
            proof {
                lemma_blobs_len(all, i + 1, all.len() as int);
            }
            n = n + self.blobs[i].1.len;
            i = i + 1;
        }
        n
    }

    /// Looks up a blob by name.
    pub fn blob(&self, name: &str) -> (r: Result<&Blob, Error>)
        ensures
            match blob_index(self@.blobs, name@, 0) {
                Some(i) => r == Ok::<&Blob, Error>(&self@.blobs[i].1),
                None => r matches Err(Error::Format(FormatIssue::NoBlob(t, b))) && t@ == self.name@ && b@ == name@,
            },
    {
        match find_blob(&self.blobs, name) {
            Some(i) => {
                assert(self@.blobs[i as int].1 == self.blobs@[i as int].1);
                Ok(&self.blobs[i].1)
            },
            None => Err(Error::Format(FormatIssue::NoBlob(self.name.clone(), name.to_owned()))),
        }
    }
}

/// Whether a shape can be multiplied out.
pub fn shape_fits(shape: &[usize]) -> (yes: bool)
    ensures
        yes == product_fits(shape@),
{
    let mut n: usize = 1;
    let mut i: usize = 0;
    while i < shape.len()
        invariant
            i <= shape@.len(),
            n == product(shape@, i as int),
            forall|k: int| 0 <= k <= i ==> #[trigger] product(shape@, k) <= usize::MAX,
        decreases shape@.len() - i,
    {
        match n.checked_mul(shape[i]) {
            Some(m) => {
                n = m;
            },
            None => {
                assert(product(shape@, i + 1) > usize::MAX);
                return false;
            },
        }
        i = i + 1;
    }
    true
}

/// The product of a shape.
pub fn shape_numel(shape: &Vec<usize>) -> (n: usize)
    requires
        product_fits(shape@),
    ensures
        n == product(shape@, shape@.len() as int),
{
    let mut n: usize = 1;
    let mut i: usize = 0;
    while i < shape.len()
        invariant
            i <= shape@.len(),
            product_fits(shape@),
            n == product(shape@, i as int),
        decreases shape@.len() - i,
    {
        assert(product(shape@, i + 1) <= usize::MAX);
        n = n * shape[i];
        i = i + 1;
    }
    n
}

impl Header {
    /// Finds a tensor entry.
    pub fn tensor(&self, name: &str) -> (r: Result<&TensorEntry, Error>)
        ensures
            match tensor_index(self@.tensors, name@, 0) {
                Some(i) => r matches Ok(t) && t == self.tensors@[i] && t@ == self@.tensors[i],
                None => r matches Err(Error::Format(FormatIssue::NoTensor(n))) && n@ == name@,
            },
    {
        let ghost all = self@.tensors;
        let mut i: usize = 0;
        while i < self.tensors.len()
            invariant
                i <= self.tensors@.len(),
                all == self@.tensors,
                tensor_index(all, name@, 0) == tensor_index(all, name@, i as int),
            decreases self.tensors@.len() - i,
        {
            assert(all[i as int] == self.tensors@[i as int]@);
            if str_eq(self.tensors[i].name.as_str(), name) {
                return Ok(&self.tensors[i]);
            }
            i = i + 1;
        }
        Err(Error::Format(FormatIssue::NoTensor(name.to_owned())))
    }

    /// Sums what tensors store, those left out that `skip` names.
    fn sum_tensors(&self, skip: Option<&str>) -> (n: u64)
        requires
            tensors_len(
                self@.tensors,
                self.tensors@.len() as int,
                match skip {
                    Some(s) => Some(s@),
                    None => None,
                },
            ) <= u64::MAX,
            forall|i: int| 0 <= i < self.tensors@.len() ==> entry_len((#[trigger] self.tensors@[i])@) <= u64::MAX,
        ensures
            n == tensors_len(
                self@.tensors,
                self.tensors@.len() as int,
                match skip {
                    Some(s) => Some(s@),
                    None => None,
                },
            ),
    {
        let ghost all = self@.tensors;
        let ghost gone = match skip {
            Some(s) => Some(s@),
            None => None,
        };
        let mut n: u64 = 0;
        let mut i: usize = 0;
        while i < self.tensors.len()
            invariant
                i <= self.tensors@.len(),
                all == self@.tensors,
                gone == (match skip {
                    Some(s) => Some(s@),
                    None => None,
                }),
                n == tensors_len(all, i as int, gone),
                tensors_len(all, self.tensors@.len() as int, gone) <= u64::MAX,
                forall|k: int|
                    0 <= k < self.tensors@.len() ==> entry_len((#[trigger] self.tensors@[k])@) <= u64::MAX,
            decreases self.tensors@.len() - i,
        {
            assert(all[i as int] == self.tensors@[i as int]@);
            proof {
                lemma_tensors_len(all, i + 1, all.len() as int, gone);
            }
            let left_out = match skip {
                Some(s) => str_eq(self.tensors[i].name.as_str(), s),
                None => false,
            };
            if !left_out {
                n = n + self.tensors[i].stored_bytes();
            }
            i = i + 1;
        }
        n
    }

    /// Total payload bytes across all tensors.
    pub fn payload_bytes(&self) -> (n: u64)
        requires
            tensors_len(self@.tensors, self.tensors@.len() as int, None) <= u64::MAX,
        ensures
            n == tensors_len(self@.tensors, self.tensors@.len() as int, None),
    {
        proof {
            lemma_each_entry_fits(self@.tensors, self.tensors@.len() as int);
            assert forall|i: int| 0 <= i < self.tensors@.len() implies entry_len(
                (#[trigger] self.tensors@[i])@,
            ) <= u64::MAX by {
                assert(self@.tensors[i] == self.tensors@[i]@);
            }
        }
        self.sum_tensors(None)
    }

    /// Whether the output projection reuses the embedding matrix.
    pub fn tied(&self) -> (r: bool)
        ensures
            r == ties_embeddings(self@.model_config),
    {
        match self.model_config.get("tie_word_embeddings") {
            Some(Json::Bool(b)) => *b,
            _ => false,
        }
    }

    /// Weight bytes read on a decode step: everything except the input
    /// embedding, unless it is the output projection too.
    pub fn decode_resident_bytes(&self) -> (n: u64)
        requires
            tensors_len(self@.tensors, self.tensors@.len() as int, None) <= u64::MAX,
        ensures
            n == tensors_len(
                self@.tensors,
                self.tensors@.len() as int,
                if ties_embeddings(self@.model_config) {
                    None
                } else {
                    Some("model.embed_tokens.weight"@)
                },
            ),
    {
        proof {
            lemma_each_entry_fits(self@.tensors, self.tensors@.len() as int);
            lemma_skipping_shrinks(
                self@.tensors,
                self.tensors@.len() as int,
                Some("model.embed_tokens.weight"@),
            );
            assert forall|i: int| 0 <= i < self.tensors@.len() implies entry_len(
                (#[trigger] self.tensors@[i])@,
            ) <= u64::MAX by {
                assert(self@.tensors[i] == self.tensors@[i]@);
            }
        }
        if self.tied() {
            self.sum_tensors(None)
        } else {
            self.sum_tensors(Some("model.embed_tokens.weight"))
        }
    }
}

proof fn lemma_each_entry_fits(tensors: Seq<EntryView>, n: int)
    requires
        0 <= n <= tensors.len(),
        tensors_len(tensors, n, None) <= u64::MAX,
    ensures
        forall|i: int| 0 <= i < n ==> entry_len(#[trigger] tensors[i]) <= u64::MAX,
    decreases n,
{
    if n > 0 {
        lemma_each_entry_fits(tensors, n - 1);
    }
}

proof fn lemma_skipping_shrinks(tensors: Seq<EntryView>, n: int, skip: Option<Seq<char>>)
    ensures
        tensors_len(tensors, n, skip) <= tensors_len(tensors, n, None),
    decreases n,
{
    if n > 0 {
        lemma_skipping_shrinks(tensors, n - 1, skip);
    }
}

/// What a decode step reads is never more than all payloads, whichever tensor it
/// leaves out.
pub proof fn resident_is_part_of_payload(h: HeaderView, left_out: Option<Seq<char>>)
    ensures
        tensors_len(h.tensors, h.tensors.len() as int, left_out) <= tensors_len(
            h.tensors,
            h.tensors.len() as int,
            None,
        ),
{
    lemma_skipping_shrinks(h.tensors, h.tensors.len() as int, left_out);
}

// ----------------------------------------------------------------- alignment

/// The least multiple of `a` that is not below `n`.
pub open spec fn aligned_up(n: int, a: int) -> int {
    (n + a - 1) / a * a
}

/// The least multiple of `a` that is not below `n`.
pub fn align_up(n: u64, a: u64) -> (r: u64)
    requires
        a > 0,
        aligned_up(n as int, a as int) <= u64::MAX,
    ensures
        r == aligned_up(n as int, a as int),
        r >= n,
        r as int % a as int == 0,
        r < n + a,
{
    proof {
        lemma_aligned_up(n as int, a as int);
    }
    let whole: u64 = n / a;
    let rest: u64 = n % a;
    proof {
        lemma_ceiling(n as int, a as int);
    }
    if rest == 0 {
        whole * a
    } else {
        (whole + 1) * a
    }
}

proof fn lemma_ceiling(n: int, a: int)
    requires
        0 <= n,
        a > 0,
    ensures
        (n + a - 1) / a == if n % a == 0 {
            n / a
        } else {
            n / a + 1
        },
        n / a * a <= n,
        n / a + 1 <= n + 1,
{
    let q = n / a;
    let r = n % a;
    vstd::arithmetic::div_mod::lemma_fundamental_div_mod(n, a);
    assert(a * q == q * a) by (nonlinear_arith);
    if r == 0 {
        vstd::arithmetic::div_mod::lemma_fundamental_div_mod_converse(n + a - 1, a, q, a - 1);
    } else {
        assert((q + 1) * a == q * a + a) by (nonlinear_arith);
        vstd::arithmetic::div_mod::lemma_fundamental_div_mod_converse(n + a - 1, a, q + 1, r - 1);
    }
    assert(q <= n) by (nonlinear_arith)
        requires
            q * a <= n,
            a >= 1,
            0 <= n,
    ;
}

/// Aligning moves up, by less than the alignment, to a multiple of it.
pub proof fn lemma_aligned_up(n: int, a: int)
    requires
        0 <= n,
        a > 0,
    ensures
        n <= aligned_up(n, a) < n + a,
        aligned_up(n, a) % a == 0,
{
    let q = (n + a - 1) / a;
    vstd::arithmetic::div_mod::lemma_fundamental_div_mod(n + a - 1, a);
    assert(a * q == q * a) by (nonlinear_arith);
    vstd::arithmetic::div_mod::lemma_mod_multiples_basic(q, a);
}

// -------------------------------------------------------------------- reader

/// What keeps a file's leading bytes from holding a header; nothing where they
/// hold one.
pub open spec fn frame_fault(b: Seq<u8>, file_len: u64) -> Option<FormatIssue> {
    let len = le64(b.subrange(16, 24));
    if b.len() < PREFIX {
        Some(FormatIssue::TooShort)
    } else if b.take(8) != magic() {
        Some(FormatIssue::BadMagic)
    } else if le32(b.subrange(8, 12)) != VERSION {
        Some(FormatIssue::Version(le32(b.subrange(8, 12))))
    } else if PREFIX + len > u64::MAX {
        Some(FormatIssue::HeaderOverflow)
    } else if PREFIX + len > file_len || PREFIX + len > b.len() {
        Some(FormatIssue::HeaderPastEnd)
    } else if checksum(framed(b)) != le64(b.subrange(24, 32)) {
        Some(FormatIssue::HeaderChecksum)
    } else {
        None
    }
}

/// The header's bytes in a file that holds one.
pub open spec fn framed(b: Seq<u8>) -> Seq<u8> {
    b.subrange(PREFIX as int, PREFIX + le64(b.subrange(16, 24)))
}

fn has_magic(b: &[u8]) -> (r: bool)
    requires
        b@.len() >= 8,
    ensures
        r == (b@.take(8) == magic()),
{
    let r = b[0] == 0x57 && b[1] == 0x48 && b[2] == 0x45 && b[3] == 0x54 && b[4] == 0x53 && b[5] == 0x54
        && b[6] == 0x4f && b[7] == 0x4e;
    proof {
        let t = b@.take(8);
        if r {
            assert(t =~= magic());
        } else {
            assert(t[0] == b@[0] && t[1] == b@[1] && t[2] == b@[2] && t[3] == b@[3] && t[4] == b@[4] && t[5]
                == b@[5] && t[6] == b@[6] && t[7] == b@[7]);
        }
    }
    r
}

/// Finds the JSON header among a file's leading bytes.
///
/// The input is taken as hostile: a bad length must produce an error rather than
/// an out-of-bounds read.
pub fn header_json(bytes: &[u8], file_len: u64) -> (r: Result<&[u8], Error>)
    ensures
        match frame_fault(bytes@, file_len) {
            None => r matches Ok(json) && json@ == framed(bytes@),
            Some(issue) => r == Err::<&[u8], Error>(Error::Format(issue)),
        },
{
    if bytes.len() < 32 {
        return Err(Error::Format(FormatIssue::TooShort));
    }
    if !has_magic(bytes) {
        return Err(Error::Format(FormatIssue::BadMagic));
    }
    let version: u32 = read_le32(bytes, 8);
    if version != VERSION {
        return Err(Error::Format(FormatIssue::Version(version)));
    }
    let header_len: u64 = read_le64(bytes, 16);
    let want_hash: u64 = read_le64(bytes, 24);
    let end: u64 = match PREFIX.checked_add(header_len) {
        Some(e) => e,
        None => {
            return Err(Error::Format(FormatIssue::HeaderOverflow));
        },
    };
    if end > file_len || end > bytes.len() as u64 {
        return Err(Error::Format(FormatIssue::HeaderPastEnd));
    }
    let json = &bytes[32..end as usize];
    assert(json@ =~= framed(bytes@));
    if fnv1a(json) != want_hash {
        return Err(Error::Format(FormatIssue::HeaderChecksum));
    }
    Ok(json)
}

/// A fault in the ranges a header declares, by position.
pub enum RangeFault {
    ExtraOverflow(int),
    ExtraPastEnd(int),
    BlobOverflow(int, int),
    BlobPastEnd(int, int),
    BlobMisaligned(int, int),
    BlobMissing(int, Seq<char>),
}

/// The first extra from `i` on whose range does not lie in the file.
pub open spec fn extra_fault(extras: Seq<(Seq<char>, Blob)>, file_len: u64, i: int) -> Option<RangeFault>
    decreases extras.len() - i,
    when 0 <= i
{
    if i >= extras.len() {
        None
    } else if extras[i].1.offset + extras[i].1.len > u64::MAX {
        Some(RangeFault::ExtraOverflow(i))
    } else if extras[i].1.offset + extras[i].1.len > file_len {
        Some(RangeFault::ExtraPastEnd(i))
    } else {
        extra_fault(extras, file_len, i + 1)
    }
}

/// The first blob of tensor `t` from `i` on whose range does not lie in the file,
/// aligned.
pub open spec fn blob_fault(blobs: Seq<(Seq<char>, Blob)>, file_len: u64, t: int, i: int) -> Option<RangeFault>
    decreases blobs.len() - i,
    when 0 <= i
{
    if i >= blobs.len() {
        None
    } else if blobs[i].1.offset + blobs[i].1.len > u64::MAX {
        Some(RangeFault::BlobOverflow(t, i))
    } else if blobs[i].1.offset + blobs[i].1.len > file_len {
        Some(RangeFault::BlobPastEnd(t, i))
    } else if blobs[i].1.offset % ALIGN != 0 {
        Some(RangeFault::BlobMisaligned(t, i))
    } else {
        blob_fault(blobs, file_len, t, i + 1)
    }
}

/// The names of the blobs a kind requires.
pub open spec fn required_blobs(kind: TensorKind) -> Seq<Seq<char>> {
    match kind {
        TensorKind::Int4G128 => seq!["qw"@, "sz"@],
        TensorKind::Int4HierG32 => seq!["qw"@, "si"@, "sb"@],
        TensorKind::Fp16 => seq!["data"@],
        TensorKind::Fp32 => seq!["data"@],
    }
}

/// The first of a list of names from `i` on that no blob has.
pub open spec fn missing_blob(
    blobs: Seq<(Seq<char>, Blob)>,
    names: Seq<Seq<char>>,
    t: int,
    i: int,
) -> Option<RangeFault>
    decreases names.len() - i,
    when 0 <= i
{
    if i >= names.len() {
        None
    } else if blob_index(blobs, names[i], 0) is None {
        Some(RangeFault::BlobMissing(t, names[i]))
    } else {
        missing_blob(blobs, names, t, i + 1)
    }
}

/// The first fault of tensor `t`.
pub open spec fn entry_fault(e: EntryView, file_len: u64, t: int) -> Option<RangeFault> {
    match blob_fault(e.blobs, file_len, t, 0) {
        Some(f) => Some(f),
        None => missing_blob(e.blobs, required_blobs(e.kind), t, 0),
    }
}

/// The first fault among the tensors from `t` on.
pub open spec fn tensor_fault(tensors: Seq<EntryView>, file_len: u64, t: int) -> Option<RangeFault>
    decreases tensors.len() - t,
    when 0 <= t
{
    if t >= tensors.len() {
        None
    } else {
        match entry_fault(tensors[t], file_len, t) {
            Some(f) => Some(f),
            None => tensor_fault(tensors, file_len, t + 1),
        }
    }
}

/// The first fault in the ranges a header declares.
pub open spec fn range_fault(h: HeaderView, file_len: u64) -> Option<RangeFault> {
    match extra_fault(h.extras, file_len, 0) {
        Some(f) => Some(f),
        None => tensor_fault(h.tensors, file_len, 0),
    }
}

/// Whether an issue is the account of a fault.
pub open spec fn accounts_for(issue: FormatIssue, h: HeaderView, f: RangeFault) -> bool {
    match f {
        RangeFault::ExtraOverflow(i) => issue matches FormatIssue::ExtraOverflow(n) && n@ == h.extras[i].0,
        RangeFault::ExtraPastEnd(i) => issue matches FormatIssue::ExtraPastEnd(n) && n@ == h.extras[i].0,
        RangeFault::BlobOverflow(t, i) => issue matches FormatIssue::BlobOverflow(n, b) && n@
            == h.tensors[t].name && b@ == h.tensors[t].blobs[i].0,
        RangeFault::BlobPastEnd(t, i) => issue matches FormatIssue::BlobPastEnd(n, b) && n@
            == h.tensors[t].name && b@ == h.tensors[t].blobs[i].0,
        RangeFault::BlobMisaligned(t, i) => issue matches FormatIssue::BlobMisaligned(n, b) && n@
            == h.tensors[t].name && b@ == h.tensors[t].blobs[i].0,
        RangeFault::BlobMissing(t, name) => issue matches FormatIssue::BlobMissing(n, b) && n@
            == h.tensors[t].name && b@ == name,
    }
}

/// Checks that the extras lie in the file.
fn check_extras(extras: &Vec<(String, Blob)>, file_len: u64) -> (r: Result<(), FormatIssue>)
    ensures
        match extra_fault(blob_views(extras@), file_len, 0) {
            None => r is Ok,
            Some(RangeFault::ExtraOverflow(i)) => r matches Err(FormatIssue::ExtraOverflow(n)) && n@
                == blob_views(extras@)[i].0,
            Some(RangeFault::ExtraPastEnd(i)) => r matches Err(FormatIssue::ExtraPastEnd(n)) && n@
                == blob_views(extras@)[i].0,
            _ => false,
        },
{
    let ghost all = blob_views(extras@);
    let mut i: usize = 0;
    while i < extras.len()
        invariant
            i <= extras@.len(),
            all == blob_views(extras@),
            extra_fault(all, file_len, 0) == extra_fault(all, file_len, i as int),
        decreases extras@.len() - i,
    {
        assert(all[i as int] == (extras@[i as int].0@, extras@[i as int].1));
        let b = extras[i].1;
        match b.offset.checked_add(b.len) {
            None => {
                return Err(FormatIssue::ExtraOverflow(extras[i].0.clone()));
            },
            Some(last) => {
                if last > file_len {
                    return Err(FormatIssue::ExtraPastEnd(extras[i].0.clone()));
                }
            },
        }
        i = i + 1;
    }
    Ok(())
}

/// Checks one blob name that a kind requires.
fn require_blob(t: &TensorEntry, name: &str) -> (r: Result<(), FormatIssue>)
    ensures
        blob_index(t@.blobs, name@, 0) is Some ==> r is Ok,
        blob_index(t@.blobs, name@, 0) is None ==> (r matches Err(FormatIssue::BlobMissing(n, b)) && n@
            == t.name@ && b@ == name@),
{
    match find_blob(&t.blobs, name) {
        Some(_) => Ok(()),
        None => Err(FormatIssue::BlobMissing(t.name.clone(), name.to_owned())),
    }
}

/// Checks that the blobs a tensor's kind requires are there.
fn check_required(t: &TensorEntry, Ghost(at): Ghost<int>) -> (r: Result<(), FormatIssue>)
    ensures
        match missing_blob(t@.blobs, required_blobs(t.kind), at, 0) {
            None => r is Ok,
            Some(RangeFault::BlobMissing(k, name)) => k == at && (r matches Err(FormatIssue::BlobMissing(n, b))
                && n@ == t.name@ && b@ == name),
            _ => false,
        },
{
    proof {
        reveal_with_fuel(missing_blob, 4);
    }
    match t.kind {
        TensorKind::Int4G128 => {
            match require_blob(t, "qw") {
                Ok(()) => require_blob(t, "sz"),
                Err(e) => Err(e),
            }
        },
        TensorKind::Int4HierG32 => {
            match require_blob(t, "qw") {
                Ok(()) => match require_blob(t, "si") {
                    Ok(()) => require_blob(t, "sb"),
                    Err(e) => Err(e),
                },
                Err(e) => Err(e),
            }
        },
        TensorKind::Fp16 => require_blob(t, "data"),
        TensorKind::Fp32 => require_blob(t, "data"),
    }
}

/// Checks one tensor's ranges.
fn check_entry(t: &TensorEntry, file_len: u64, Ghost(at): Ghost<int>, Ghost(h): Ghost<HeaderView>) -> (r: Result<
    (),
    FormatIssue,
>)
    requires
        0 <= at < h.tensors.len(),
        h.tensors[at] == t@,
    ensures
        match entry_fault(t@, file_len, at) {
            None => r is Ok,
            Some(f) => r matches Err(issue) && accounts_for(issue, h, f),
        },
{
    let ghost all = t@.blobs;
    let mut i: usize = 0;
    while i < t.blobs.len()
        invariant
            i <= t.blobs@.len(),
            all == blob_views(t.blobs@),
            h.tensors[at] == t@,
            blob_fault(all, file_len, at, 0) == blob_fault(all, file_len, at, i as int),
        decreases t.blobs@.len() - i,
    {
        assert(all[i as int] == (t.blobs@[i as int].0@, t.blobs@[i as int].1));
        let b = t.blobs[i].1;
        match b.offset.checked_add(b.len) {
            None => {
                return Err(FormatIssue::BlobOverflow(t.name.clone(), t.blobs[i].0.clone()));
            },
            Some(last) => {
                if last > file_len {
                    return Err(FormatIssue::BlobPastEnd(t.name.clone(), t.blobs[i].0.clone()));
                }
            },
        }
        if b.offset % ALIGN != 0 {
            return Err(FormatIssue::BlobMisaligned(t.name.clone(), t.blobs[i].0.clone()));
        }
        i = i + 1;
    }
    check_required(t, Ghost(at))
}

/// Checks every range a parsed header declares, before anyone indexes with it.
///
/// `parsed` is what the JSON of [`header_json`] was parsed to, or the parser's
/// account of what is wrong with it.
pub fn read_header(parsed: Result<Header, String>, file_len: u64) -> (r: Result<Header, Error>)
    ensures
        match parsed {
            Err(words) => r == Err::<Header, Error>(Error::Format(FormatIssue::HeaderJson(words))),
            Ok(h) => match range_fault(h@, file_len) {
                None => r == Ok::<Header, Error>(h),
                Some(f) => r matches Err(Error::Format(issue)) && accounts_for(issue, h@, f),
            },
        },
{
    let header = match parsed {
        Ok(h) => h,
        Err(words) => {
            return Err(Error::Format(FormatIssue::HeaderJson(words)));
        },
    };
    if let Err(issue) = check_extras(&header.extras, file_len) {
        return Err(Error::Format(issue));
    }
    let ghost h = header@;
    let mut t: usize = 0;
    while t < header.tensors.len()
        invariant
            t <= header.tensors@.len(),
            h == header@,
            parsed == Ok::<Header, String>(header),
            extra_fault(h.extras, file_len, 0) is None,
            tensor_fault(h.tensors, file_len, 0) == tensor_fault(h.tensors, file_len, t as int),
        decreases header.tensors@.len() - t,
    {
        assert(h.tensors[t as int] == header.tensors@[t as int]@);
        if let Err(issue) = check_entry(&header.tensors[t], file_len, Ghost(t as int), Ghost(h)) {
            return Err(Error::Format(issue));
        }
        t = t + 1;
    }
    Ok(header)
}

/// Every blob of a header that passes lies in the file, and those of tensors are
/// aligned.
pub proof fn checked_ranges_lie_in_the_file(h: HeaderView, file_len: u64)
    requires
        range_fault(h, file_len) is None,
    ensures
        forall|i: int|
            0 <= i < h.extras.len() ==> (#[trigger] h.extras[i]).1.offset + h.extras[i].1.len <= file_len,
        forall|t: int, i: int|
            0 <= t < h.tensors.len() && 0 <= i < h.tensors[t].blobs.len() ==> {
                let b = (#[trigger] h.tensors[t].blobs[i]).1;
                b.offset + b.len <= file_len && b.offset % ALIGN == 0
            },
        forall|t: int, k: int|
            0 <= t < h.tensors.len() && 0 <= k < required_blobs(h.tensors[t].kind).len() ==> blob_index(
                h.tensors[t].blobs,
                #[trigger] required_blobs(h.tensors[t].kind)[k],
                0,
            ) is Some,
{
    lemma_extras_in_file(h.extras, file_len, 0);
    lemma_tensors_in_file(h.tensors, file_len, 0);
}

proof fn lemma_extras_in_file(extras: Seq<(Seq<char>, Blob)>, file_len: u64, i: int)
    requires
        0 <= i,
        extra_fault(extras, file_len, i) is None,
    ensures
        forall|k: int|
            i <= k < extras.len() ==> (#[trigger] extras[k]).1.offset + extras[k].1.len <= file_len,
    decreases extras.len() - i,
{
    if i < extras.len() {
        lemma_extras_in_file(extras, file_len, i + 1);
    }
}

proof fn lemma_blobs_in_file(blobs: Seq<(Seq<char>, Blob)>, file_len: u64, t: int, i: int)
    requires
        0 <= i,
        blob_fault(blobs, file_len, t, i) is None,
    ensures
        forall|k: int|
            i <= k < blobs.len() ==> (#[trigger] blobs[k]).1.offset + blobs[k].1.len <= file_len
                && blobs[k].1.offset % ALIGN == 0,
    decreases blobs.len() - i,
{
    if i < blobs.len() {
        lemma_blobs_in_file(blobs, file_len, t, i + 1);
    }
}

proof fn lemma_required_there(blobs: Seq<(Seq<char>, Blob)>, names: Seq<Seq<char>>, t: int, i: int)
    requires
        0 <= i,
        missing_blob(blobs, names, t, i) is None,
    ensures
        forall|k: int| i <= k < names.len() ==> blob_index(blobs, #[trigger] names[k], 0) is Some,
    decreases names.len() - i,
{
    if i < names.len() {
        lemma_required_there(blobs, names, t, i + 1);
    }
}

proof fn lemma_tensors_in_file(tensors: Seq<EntryView>, file_len: u64, t: int)
    requires
        0 <= t,
        tensor_fault(tensors, file_len, t) is None,
    ensures
        forall|k: int, i: int|
            t <= k < tensors.len() && 0 <= i < tensors[k].blobs.len() ==> {
                let b = (#[trigger] tensors[k].blobs[i]).1;
                b.offset + b.len <= file_len && b.offset % ALIGN == 0
            },
        forall|k: int, j: int|
            t <= k < tensors.len() && 0 <= j < required_blobs(tensors[k].kind).len() ==> blob_index(
                tensors[k].blobs,
                #[trigger] required_blobs(tensors[k].kind)[j],
                0,
            ) is Some,
    decreases tensors.len() - t,
{
    if t < tensors.len() {
        lemma_blobs_in_file(tensors[t].blobs, file_len, t, 0);
        lemma_required_there(tensors[t].blobs, required_blobs(tensors[t].kind), t, 0);
        lemma_tensors_in_file(tensors, file_len, t + 1);
    }
}

// ---------------------------------------------------------------- checksums

/// A fault in the payloads of a file, by position.
pub enum PayloadFault {
    ExtraPastEnd(int),
    ExtraChecksum(int),
    BlobPastEnd(int, int),
    BlobChecksum(int, int),
}

/// The bytes of a blob.
pub open spec fn blob_bytes(file: Seq<u8>, b: Blob) -> Seq<u8> {
    file.subrange(b.offset as int, b.offset + b.len)
}

/// The first extra from `i` on that the file does not hold as declared.
pub open spec fn extra_payload_fault(extras: Seq<(Seq<char>, Blob)>, file: Seq<u8>, i: int) -> Option<PayloadFault>
    decreases extras.len() - i,
    when 0 <= i
{
    if i >= extras.len() {
        None
    } else if extras[i].1.offset + extras[i].1.len > file.len() {
        Some(PayloadFault::ExtraPastEnd(i))
    } else if checksum(blob_bytes(file, extras[i].1)) != extras[i].1.hash {
        Some(PayloadFault::ExtraChecksum(i))
    } else {
        extra_payload_fault(extras, file, i + 1)
    }
}

/// The first blob of tensor `t` from `i` on that the file does not hold as
/// declared.
pub open spec fn blob_payload_fault(
    blobs: Seq<(Seq<char>, Blob)>,
    file: Seq<u8>,
    t: int,
    i: int,
) -> Option<PayloadFault>
    decreases blobs.len() - i,
    when 0 <= i
{
    if i >= blobs.len() {
        None
    } else if blobs[i].1.offset + blobs[i].1.len > file.len() {
        Some(PayloadFault::BlobPastEnd(t, i))
    } else if checksum(blob_bytes(file, blobs[i].1)) != blobs[i].1.hash {
        Some(PayloadFault::BlobChecksum(t, i))
    } else {
        blob_payload_fault(blobs, file, t, i + 1)
    }
}

/// The first fault among the tensors from `t` on.
pub open spec fn tensor_payload_fault(tensors: Seq<EntryView>, file: Seq<u8>, t: int) -> Option<PayloadFault>
    decreases tensors.len() - t,
    when 0 <= t
{
    if t >= tensors.len() {
        None
    } else {
        match blob_payload_fault(tensors[t].blobs, file, t, 0) {
            Some(f) => Some(f),
            None => tensor_payload_fault(tensors, file, t + 1),
        }
    }
}

/// The first payload that the file does not hold as declared.
pub open spec fn payload_fault(h: HeaderView, file: Seq<u8>) -> Option<PayloadFault> {
    match extra_payload_fault(h.extras, file, 0) {
        Some(f) => Some(f),
        None => tensor_payload_fault(h.tensors, file, 0),
    }
}

/// Whether an issue is the account of a payload fault.
pub open spec fn accounts_for_payload(issue: FormatIssue, h: HeaderView, f: PayloadFault) -> bool {
    match f {
        PayloadFault::ExtraPastEnd(i) => issue matches FormatIssue::ExtraPastEnd(n) && n@ == h.extras[i].0,
        PayloadFault::ExtraChecksum(i) => issue matches FormatIssue::ExtraChecksum(n) && n@ == h.extras[i].0,
        PayloadFault::BlobPastEnd(t, i) => issue matches FormatIssue::BlobPastEnd(n, b) && n@
            == h.tensors[t].name && b@ == h.tensors[t].blobs[i].0,
        PayloadFault::BlobChecksum(t, i) => issue matches FormatIssue::BlobChecksum(n, b) && n@
            == h.tensors[t].name && b@ == h.tensors[t].blobs[i].0,
    }
}

/// Whether the end of every range of a header can be computed.
pub open spec fn ranges_computable(h: HeaderView) -> bool {
    &&& forall|i: int|
        0 <= i < h.extras.len() ==> (#[trigger] h.extras[i]).1.offset + h.extras[i].1.len <= u64::MAX
    &&& forall|t: int, i: int|
        0 <= t < h.tensors.len() && 0 <= i < h.tensors[t].blobs.len() ==> (
        #[trigger] h.tensors[t].blobs[i]).1.offset + h.tensors[t].blobs[i].1.len <= u64::MAX
}

/// Whether a blob lies in the file, and whether it has the checksum it should.
fn blob_intact(b: &Blob, file: &[u8]) -> (r: Option<bool>)
    requires
        b.offset + b.len <= u64::MAX,
    ensures
        r is None <==> b.offset + b.len > file@.len(),
        r matches Some(ok) ==> ok == (checksum(blob_bytes(file@, *b)) == b.hash),
{
    let hi: u64 = b.offset + b.len;
    if hi > file.len() as u64 {
        return None;
    }
    let part = &file[b.offset as usize..hi as usize];
    assert(part@ =~= blob_bytes(file@, *b));
    Some(fnv1a(part) == b.hash)
}

/// Verifies every blob's checksum against the file contents.
///
/// Linear in file size, so it is opt-in rather than automatic on load.
pub fn verify_payloads(header: &Header, file: &[u8]) -> (r: Result<(), Error>)
    requires
        ranges_computable(header@),
    ensures
        match payload_fault(header@, file@) {
            None => r is Ok,
            Some(f) => r matches Err(Error::Format(issue)) && accounts_for_payload(issue, header@, f),
        },
{
    let ghost h = header@;
    let mut i: usize = 0;
    while i < header.extras.len()
        invariant
            i <= header.extras@.len(),
            h == header@,
            ranges_computable(h),
            extra_payload_fault(h.extras, file@, 0) == extra_payload_fault(h.extras, file@, i as int),
        decreases header.extras@.len() - i,
    {
        assert(h.extras[i as int] == (header.extras@[i as int].0@, header.extras@[i as int].1));
        match blob_intact(&header.extras[i].1, file) {
            None => {
                return Err(Error::Format(FormatIssue::ExtraPastEnd(header.extras[i].0.clone())));
            },
            Some(ok) => {
                if !ok {
                    return Err(Error::Format(FormatIssue::ExtraChecksum(header.extras[i].0.clone())));
                }
            },
        }
        i = i + 1;
    }
    let mut t: usize = 0;
    while t < header.tensors.len()
        invariant
            t <= header.tensors@.len(),
            h == header@,
            ranges_computable(h),
            extra_payload_fault(h.extras, file@, 0) is None,
            tensor_payload_fault(h.tensors, file@, 0) == tensor_payload_fault(h.tensors, file@, t as int),
        decreases header.tensors@.len() - t,
    {
        let entry = &header.tensors[t];
        assert(h.tensors[t as int] == entry@);
        let ghost all = entry@.blobs;
        let mut k: usize = 0;
        while k < entry.blobs.len()
            invariant
                k <= entry.blobs@.len(),
                t < header.tensors@.len(),
                h == header@,
                h.tensors[t as int] == entry@,
                all == entry@.blobs,
                ranges_computable(h),
                extra_payload_fault(h.extras, file@, 0) is None,
                tensor_payload_fault(h.tensors, file@, 0) == tensor_payload_fault(h.tensors, file@, t as int),
                blob_payload_fault(all, file@, t as int, 0) == blob_payload_fault(
                    all,
                    file@,
                    t as int,
                    k as int,
                ),
            decreases entry.blobs@.len() - k,
        {
            assert(all[k as int] == (entry.blobs@[k as int].0@, entry.blobs@[k as int].1));
            assert(h.tensors[t as int].blobs[k as int] == all[k as int]);
            match blob_intact(&entry.blobs[k].1, file) {
                None => {
                    return Err(
                        Error::Format(
                            FormatIssue::BlobPastEnd(entry.name.clone(), entry.blobs[k].0.clone()),
                        ),
                    );
                },
                Some(ok) => {
                    if !ok {
                        return Err(
                            Error::Format(
                                FormatIssue::BlobChecksum(entry.name.clone(), entry.blobs[k].0.clone()),
                            ),
                        );
                    }
                },
            }
            k = k + 1;
        }
        t = t + 1;
    }
    Ok(())
}

// -------------------------------------------------------------------- prefix

/// The bytes before the header.
pub open spec fn prefix_bytes(json: Seq<u8>) -> Seq<u8> {
    magic() + le32_bytes(VERSION) + le32_bytes(0) + le64_bytes(json.len() as u64) + le64_bytes(
        checksum(json),
    )
}

/// Builds the bytes before the header, where the header fits the room set aside
/// for it.
///
/// Payloads are written before the directory, so it cannot be grown in place.
pub fn frame_header(json: &[u8], header_reserve: u64) -> (r: Result<Vec<u8>, Error>)
    ensures
        r is Ok <==> json@.len() <= header_reserve,
        r matches Ok(prefix) ==> prefix@ == prefix_bytes(json@) && prefix@.len() == PREFIX,
        r matches Err(e) ==> e == Error::Format(
            (FormatIssue::HeaderTooLarge { len: json@.len() as u64, reserved: header_reserve }),
        ),
{
    let len: u64 = json.len() as u64;
    if len > header_reserve {
        return Err(Error::Format(FormatIssue::HeaderTooLarge { len, reserved: header_reserve }));
    }
    let mut prefix: Vec<u8> = vec![0x57u8, 0x48, 0x45, 0x54, 0x53, 0x54, 0x4f, 0x4e];
    assert(prefix@ =~= magic());
    push_le32(&mut prefix, VERSION);
    push_le32(&mut prefix, 0);
    push_le64(&mut prefix, len);
    push_le64(&mut prefix, fnv1a(json));
    Ok(prefix)
}

proof fn lemma_five_parts(a: Seq<u8>, b: Seq<u8>, c: Seq<u8>, d: Seq<u8>, e: Seq<u8>)
    requires
        a.len() == 8,
        b.len() == 4,
        c.len() == 4,
        d.len() == 8,
        e.len() == 8,
    ensures
        (a + b + c + d + e).len() == 32,
        (a + b + c + d + e).take(8) == a,
        (a + b + c + d + e).subrange(8, 12) == b,
        (a + b + c + d + e).subrange(16, 24) == d,
        (a + b + c + d + e).subrange(24, 32) == e,
{
    let p = a + b + c + d + e;
    assert(p.take(8) =~= a);
    assert(p.subrange(8, 12) =~= b);
    assert(p.subrange(16, 24) =~= d);
    assert(p.subrange(24, 32) =~= e);
}

/// What the prefix holds, read back.
proof fn lemma_prefix(json: Seq<u8>)
    requires
        json.len() <= u64::MAX,
    ensures
        prefix_bytes(json).len() == 32,
        prefix_bytes(json).take(8) == magic(),
        le32(prefix_bytes(json).subrange(8, 12)) == VERSION,
        le64(prefix_bytes(json).subrange(16, 24)) == json.len(),
        le64(prefix_bytes(json).subrange(24, 32)) == checksum(json),
{
    let len = json.len() as u64;
    le_round_trip(0, VERSION, len);
    le_round_trip(0, 0, checksum(json));
    lemma_five_parts(
        magic(),
        le32_bytes(VERSION),
        le32_bytes(0),
        le64_bytes(len),
        le64_bytes(checksum(json)),
    );
}

/// What stands before a header always has the same length.
pub proof fn prefix_has_its_length(json: Seq<u8>)
    requires
        json.len() <= u64::MAX,
    ensures
        prefix_bytes(json).len() == PREFIX,
{
    lemma_prefix(json);
}

/// Bytes that begin with a good prefix frame what follows it.
proof fn lemma_frame(p: Seq<u8>, body: Seq<u8>, b: Seq<u8>, len: u64)
    requires
        p.len() == 32,
        p + body == b,
        le64(p.subrange(16, 24)) == len,
        len <= body.len(),
    ensures
        b.take(8) == p.take(8),
        b.subrange(8, 12) == p.subrange(8, 12),
        b.subrange(16, 24) == p.subrange(16, 24),
        b.subrange(24, 32) == p.subrange(24, 32),
        framed(b) == body.take(len as int),
{
    assert(b.take(8) =~= p.take(8));
    assert(b.subrange(8, 12) =~= p.subrange(8, 12));
    assert(b.subrange(16, 24) =~= p.subrange(16, 24));
    assert(b.subrange(24, 32) =~= p.subrange(24, 32));
    assert(framed(b) =~= body.take(len as int));
}

/// A header that was framed is found again, whatever follows it in the file.
pub proof fn framing_round_trips(json: Seq<u8>, rest: Seq<u8>, file_len: u64)
    requires
        PREFIX + json.len() <= file_len,
    ensures
        frame_fault(prefix_bytes(json) + json + rest, file_len) is None,
        framed(prefix_bytes(json) + json + rest) == json,
{
    let p = prefix_bytes(json);
    let body = json + rest;
    lemma_prefix(json);
    assert(p + body =~= p + json + rest);
    lemma_frame(p, body, p + json + rest, json.len() as u64);
    assert(body.take(json.len() as int) =~= json);
}

proof fn lemma_corrupt(p: Seq<u8>, json: Seq<u8>, rest: Seq<u8>, file_len: u64, at: int, value: u8)
    requires
        PREFIX + json.len() <= file_len,
        0 <= at < json.len(),
        json[at] != value,
        p.len() == 32,
        p.take(8) == magic(),
        le32(p.subrange(8, 12)) == VERSION,
        le64(p.subrange(16, 24)) == json.len(),
        le64(p.subrange(24, 32)) == checksum(json),
    ensures
        frame_fault((p + json + rest).update(PREFIX + at, value), file_len) == Some(
            FormatIssue::HeaderChecksum,
        ),
{
    let body = json.update(at, value) + rest;
    let b = (p + json + rest).update(PREFIX + at, value);
    assert(p + body =~= b);
    lemma_frame(p, body, b, json.len() as u64);
    assert(body.take(json.len() as int) =~= json.update(at, value));
    checksum_detects_a_changed_byte(json, at, value);
}

/// A header whose bytes were changed in one place is refused.
pub proof fn corrupt_header_is_refused(json: Seq<u8>, rest: Seq<u8>, file_len: u64, at: int, value: u8)
    requires
        PREFIX + json.len() <= file_len,
        0 <= at < json.len(),
        json[at] != value,
    ensures
        frame_fault((prefix_bytes(json) + json + rest).update(PREFIX + at, value), file_len) == Some(
            FormatIssue::HeaderChecksum,
        ),
{
    lemma_prefix(json);
    lemma_corrupt(prefix_bytes(json), json, rest, file_len, at, value);
}

} // verus!
