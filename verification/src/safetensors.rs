//! Reading `safetensors` files.
//!
//! Format: an 8-byte little-endian header length `n`, `n` bytes of JSON
//! metadata, then a tensor data region. Each JSON entry gives a dtype, a shape,
//! and a `[start, end)` byte range relative to the start of the data region.
//!
//! Every offset in the header is treated as untrusted input. A checkpoint is a
//! file from the internet, and a bad range must produce an error rather than an
//! out-of-bounds read.

use vstd::prelude::*;
use vstd::utf8::{decode_utf8, valid_utf8};

use crate::bytes::{le64, read_le64};
use crate::error::{Error, FileIssue, ShapeFault};
use crate::format::{product, product_fits};
use crate::json::{borrowed_view, items_view, parsed_json, Json, JsonView};
use crate::names::{ascending, name_before, names_ascend, ordering_keeps_the_last_of_each_name};
use crate::text::str_eq;
use crate::utf8::decode_strict;

verus! {

/// Element types that can be read from a checkpoint.
#[derive(Debug, Clone, Copy, PartialEq, Eq, Structural)]
pub enum Dtype {
    /// IEEE-754 binary16.
    F16,
    /// bfloat16: an f32 with the low 16 mantissa bits removed.
    BF16,
    /// IEEE-754 binary32.
    F32,
    /// Signed 8-bit integer.
    I8,
    /// Unsigned 8-bit integer.
    U8,
    /// Signed 32-bit integer.
    I32,
    /// Signed 64-bit integer.
    I64,
    /// Boolean, one byte per element.
    Bool,
}

/// The element type of a name.
pub open spec fn dtype_of(s: Seq<char>) -> Option<Dtype> {
    if s == "F16"@ {
        Some(Dtype::F16)
    } else if s == "BF16"@ {
        Some(Dtype::BF16)
    } else if s == "F32"@ {
        Some(Dtype::F32)
    } else if s == "I8"@ {
        Some(Dtype::I8)
    } else if s == "U8"@ {
        Some(Dtype::U8)
    } else if s == "I32"@ {
        Some(Dtype::I32)
    } else if s == "I64"@ {
        Some(Dtype::I64)
    } else if s == "BOOL"@ {
        Some(Dtype::Bool)
    } else {
        None
    }
}

impl Dtype {
    /// Bytes occupied by one element.
    pub open spec fn width(self) -> int {
        match self {
            Dtype::F16 => 2,
            Dtype::BF16 => 2,
            Dtype::F32 => 4,
            Dtype::I32 => 4,
            Dtype::I64 => 8,
            Dtype::I8 => 1,
            Dtype::U8 => 1,
            Dtype::Bool => 1,
        }
    }

    /// Reads the name of an element type.
    pub fn parse(s: &str) -> (r: Result<Dtype, Error>)
        ensures
            r matches Ok(d) ==> dtype_of(s@) == Some(d),
            r matches Err(e) ==> dtype_of(s@) is None && (e matches Error::Format(FileIssue::Dtype(n)) && n@
                == s@),
    {
        if str_eq(s, "F16") {
            Ok(Dtype::F16)
        } else if str_eq(s, "BF16") {
            Ok(Dtype::BF16)
        } else if str_eq(s, "F32") {
            Ok(Dtype::F32)
        } else if str_eq(s, "I8") {
            Ok(Dtype::I8)
        } else if str_eq(s, "U8") {
            Ok(Dtype::U8)
        } else if str_eq(s, "I32") {
            Ok(Dtype::I32)
        } else if str_eq(s, "I64") {
            Ok(Dtype::I64)
        } else if str_eq(s, "BOOL") {
            Ok(Dtype::Bool)
        } else {
            Err(Error::Format(FileIssue::Dtype(s.to_owned())))
        }
    }

    /// Bytes occupied by one element.
    pub fn size(self) -> (n: usize)
        ensures
            n == self.width(),
    {
        match self {
            Dtype::F16 => 2,
            Dtype::BF16 => 2,
            Dtype::F32 => 4,
            Dtype::I32 => 4,
            Dtype::I64 => 8,
            Dtype::I8 => 1,
            Dtype::U8 => 1,
            Dtype::Bool => 1,
        }
    }
}

// ----------------------------------------------------------------- one entry

/// What a tensor's entry in the header states.
#[verifier::ext_equal]
pub struct RawEntryView {
    pub dtype: Seq<char>,
    pub shape: Seq<usize>,
    pub begin: usize,
    pub end: usize,
}

/// What a tensor's entry in the header states.
struct RawEntry {
    dtype: String,
    shape: Vec<usize>,
    begin: usize,
    end: usize,
}

impl RawEntry {
    spec fn view(&self) -> RawEntryView {
        RawEntryView { dtype: self.dtype@, shape: self.shape@, begin: self.begin, end: self.end }
    }
}

/// A list of sizes; nothing where an element is not one.
pub open spec fn sizes(a: Seq<JsonView>) -> Option<Seq<usize>> {
    if forall|i: int|
        0 <= i < a.len() ==> (#[trigger] a[i]).as_u64() is Some && a[i].as_u64()->0 <= usize::MAX {
        Some(Seq::new(a.len(), |i: int| a[i].as_u64()->0 as usize))
    } else {
        None
    }
}

/// A list of sizes in a document.
pub open spec fn sizes_of(j: JsonView) -> Option<Seq<usize>> {
    match j.as_array() {
        Some(a) => sizes(a),
        None => None,
    }
}

/// The three parts of an entry: the members of an object by name, or the elements
/// of an array of three.
pub open spec fn entry_parts(j: JsonView) -> Option<(JsonView, JsonView, JsonView)> {
    match j {
        JsonView::Array(a) => if a.len() == 3 {
            Some((a[0], a[1], a[2]))
        } else {
            None
        },
        _ => match (j.get("dtype"@), j.get("shape"@), j.get("data_offsets"@)) {
            (Some(d), Some(s), Some(o)) => Some((d, s, o)),
            _ => None,
        },
    }
}

/// What an entry states: a type's name, a list of sizes and a pair of them.
pub open spec fn entry_of(j: JsonView) -> Option<RawEntryView> {
    match entry_parts(j) {
        None => None,
        Some((d, s, o)) => match (d.as_text(), sizes_of(s), sizes_of(o)) {
            (Some(dtype), Some(shape), Some(offsets)) => if offsets.len() == 2 {
                Some(RawEntryView { dtype, shape, begin: offsets[0], end: offsets[1] })
            } else {
                None
            },
            _ => None,
        },
    }
}

/// Reads a list of sizes.
fn read_sizes(j: &Json) -> (r: Option<Vec<usize>>)
    ensures
        match (r, sizes_of(j@)) {
            (Some(v), Some(want)) => v@ == want,
            (None, None) => true,
            _ => false,
        },
{
    let items = match j.as_array() {
        Some(a) => a,
        None => {
            return None;
        },
    };
    let ghost all = items_view(items@);
    let mut out: Vec<usize> = Vec::new();
    let mut i: usize = 0;
    while i < items.len()
        invariant
            i <= items@.len(),
            all == items_view(items@),
            j@.as_array() == Some(all),
            out@.len() == i,
            forall|k: int|
                0 <= k < i ==> (#[trigger] all[k]).as_u64() is Some && all[k].as_u64()->0 <= usize::MAX,
            forall|k: int| 0 <= k < i ==> #[trigger] out@[k] == all[k].as_u64()->0 as usize,
        decreases items@.len() - i,
    {
        assert(all[i as int] == items@[i as int]@);
        match items[i].as_u64() {
            Some(n) => {
                if n > usize::MAX as u64 {
                    return None;
                }
                out.push(n as usize);
            },
            None => {
                return None;
            },
        }
        i = i + 1;
    }
    assert(out@ =~= Seq::new(all.len(), |k: int| all[k].as_u64()->0 as usize));
    Some(out)
}

/// Reads an entry from its three parts.
fn read_parts(d: &Json, s: &Json, o: &Json) -> (r: Option<RawEntry>)
    ensures
        match (d@.as_text(), sizes_of(s@), sizes_of(o@)) {
            (Some(dtype), Some(shape), Some(offsets)) => if offsets.len() == 2 {
                r matches Some(e) && e@ == (RawEntryView {
                    dtype,
                    shape,
                    begin: offsets[0],
                    end: offsets[1],
                })
            } else {
                r is None
            },
            _ => r is None,
        },
{
    match (d.as_text(), read_sizes(s), read_sizes(o)) {
        (Some(dtype), Some(shape), Some(offsets)) => {
            if offsets.len() == 2 {
                Some(RawEntry { dtype: dtype.clone(), shape, begin: offsets[0], end: offsets[1] })
            } else {
                None
            }
        },
        _ => None,
    }
}

/// Reads an entry.
fn read_entry(j: &Json) -> (r: Option<RawEntry>)
    ensures
        match (r, entry_of(j@)) {
            (Some(e), Some(want)) => e@ == want,
            (None, None) => true,
            _ => false,
        },
{
    if let Some(a) = j.as_array() {
        if a.len() == 3 {
            let ghost all = items_view(a@);
            assert(all[0] == a@[0]@ && all[1] == a@[1]@ && all[2] == a@[2]@);
            assert(j@ == JsonView::Array(all));
            return read_parts(&a[0], &a[1], &a[2]);
        }
        return None;
    }
    match (j.get("dtype"), j.get("shape"), j.get("data_offsets")) {
        (Some(d), Some(s), Some(o)) => read_parts(d, s, o),
        _ => None,
    }
}

// ---------------------------------------------------------------- validation

/// A tensor located inside a checkpoint.
#[verifier::ext_equal]
pub struct TensorSpec {
    pub name: Seq<char>,
    pub dtype: Dtype,
    pub shape: Seq<usize>,
    /// Where its bytes begin in the file.
    pub begin: int,
    /// Where they end.
    pub end: int,
}

/// What is wrong with an entry.
pub enum EntryFault {
    Bad,
    Dtype(Seq<char>),
    Inverted,
    PastEnd,
    ShapeOverflow,
    SizeMismatch,
}

/// What is wrong with an entry, the first thing found.
pub open spec fn entry_fault(j: JsonView, data_len: int) -> Option<EntryFault> {
    match entry_of(j) {
        None => Some(EntryFault::Bad),
        Some(e) => {
            let numel = product(e.shape, e.shape.len() as int);
            if dtype_of(e.dtype) is None {
                Some(EntryFault::Dtype(e.dtype))
            } else if e.end < e.begin {
                Some(EntryFault::Inverted)
            } else if e.end > data_len {
                Some(EntryFault::PastEnd)
            } else if !product_fits(e.shape) || numel * dtype_of(e.dtype)->0.width() > usize::MAX {
                Some(EntryFault::ShapeOverflow)
            } else if e.end - e.begin != numel * dtype_of(e.dtype)->0.width() {
                Some(EntryFault::SizeMismatch)
            } else {
                None
            }
        },
    }
}

/// Whether a member of the header is a tensor's entry.
pub open spec fn is_tensor(m: (Seq<char>, JsonView)) -> bool {
    m.0 != "__metadata__"@
}

/// The first tensor's entry from `i` on that something is wrong with.
pub open spec fn bad_member(members: Seq<(Seq<char>, JsonView)>, data_len: int, i: int) -> Option<int>
    decreases members.len() - i,
    when 0 <= i
{
    if i >= members.len() {
        None
    } else if is_tensor(members[i]) && entry_fault(members[i].1, data_len) is Some {
        Some(i)
    } else {
        bad_member(members, data_len, i + 1)
    }
}

/// The tensor an entry locates.
pub open spec fn located(m: (Seq<char>, JsonView), data_start: int) -> TensorSpec {
    let e = entry_of(m.1)->0;
    TensorSpec {
        name: m.0,
        dtype: dtype_of(e.dtype)->0,
        shape: e.shape,
        begin: data_start + e.begin,
        end: data_start + e.end,
    }
}

/// The tensors of the first `n` members.
pub open spec fn tensors_of(members: Seq<(Seq<char>, JsonView)>, data_start: int, n: int) -> Seq<TensorSpec>
    decreases n,
{
    if n <= 0 {
        seq![]
    } else if is_tensor(members[n - 1]) {
        tensors_of(members, data_start, n - 1).push(located(members[n - 1], data_start))
    } else {
        tensors_of(members, data_start, n - 1)
    }
}

/// The texts of an object whose members are all texts, in the order of their
/// names.
pub open spec fn text_map(j: JsonView) -> Option<Seq<(Seq<char>, Seq<char>)>> {
    match j.by_name() {
        Some(m) => if forall|i: int| 0 <= i < m.len() ==> (#[trigger] m[i]).1.as_text() is Some {
            Some(Seq::new(m.len(), |i: int| (m[i].0, m[i].1.as_text()->0)))
        } else {
            None
        },
        None => None,
    }
}

/// The metadata among the first `n` members; empty where it is not a map of
/// texts.
pub open spec fn metadata_of(members: Seq<(Seq<char>, JsonView)>, n: int) -> Seq<(Seq<char>, Seq<char>)>
    decreases n,
{
    if n <= 0 {
        seq![]
    } else if !is_tensor(members[n - 1]) && text_map(members[n - 1].1) is Some {
        text_map(members[n - 1].1)->0
    } else {
        metadata_of(members, n - 1)
    }
}

/// Whether two tensors share no byte, and neither lies inside the other.
pub open spec fn apart(a: TensorSpec, b: TensorSpec) -> bool {
    a.end <= b.begin || b.end <= a.begin
}

/// Whether the names of tensors ascend.
pub open spec fn sorted_by_name(tensors: Seq<TensorSpec>) -> bool {
    forall|i: int, j: int|
        #![trigger tensors[i], tensors[j]]
        0 <= i < j < tensors.len() ==> name_before(tensors[i].name, tensors[j].name)
}

/// The tensors of members in the order of their names stand in that order too.
proof fn lemma_tensors_sorted(members: Seq<(Seq<char>, JsonView)>, data_start: int, n: int)
    requires
        ascending(members),
        0 <= n <= members.len(),
    ensures
        sorted_by_name(tensors_of(members, data_start, n)),
        forall|i: int, k: int|
            #![trigger tensors_of(members, data_start, n)[i], members[k]]
            0 <= i < tensors_of(members, data_start, n).len() && n <= k < members.len() ==> name_before(
                tensors_of(members, data_start, n)[i].name,
                members[k].0,
            ),
    decreases n,
{
    if n > 0 {
        lemma_tensors_sorted(members, data_start, n - 1);
        let before = tensors_of(members, data_start, n - 1);
        let ts = tensors_of(members, data_start, n);
        let m = members[n - 1];
        assert forall|i: int, k: int|
            #![trigger ts[i], members[k]]
            0 <= i < ts.len() && n <= k < members.len() implies name_before(
            ts[i].name,
            members[k].0,
        ) by {
            if i < before.len() {
                assert(ts[i] == before[i]);
            }
        }
        assert forall|i: int, j: int|
            #![trigger ts[i], ts[j]]
            0 <= i < j < ts.len() implies name_before(ts[i].name, ts[j].name) by {
            assert(ts[i] == before[i]);
            if j < before.len() {
                assert(ts[j] == before[j]);
            } else {
                assert(ts[j].name == m.0);
            }
        }
    }
}

/// Metadata stands in the order of its names.
proof fn lemma_metadata_sorted(members: Seq<(Seq<char>, JsonView)>, n: int)
    ensures
        ascending(metadata_of(members, n)),
    decreases n,
{
    if n > 0 {
        lemma_metadata_sorted(members, n - 1);
        if !is_tensor(members[n - 1]) && text_map(members[n - 1].1) is Some {
            let listed = members[n - 1].1.as_object()->0;
            let m = members[n - 1].1.by_name()->0;
            ordering_keeps_the_last_of_each_name(listed);
            let texts = text_map(members[n - 1].1)->0;
            assert forall|i: int, j: int|
                #![trigger texts[i], texts[j]]
                0 <= i < j < texts.len() implies name_before(texts[i].0, texts[j].0) by {
                assert(texts[i].0 == m[i].0 && texts[j].0 == m[j].0);
            }
        }
    }
}

/// Whether all tensors lie apart.
pub open spec fn all_apart(tensors: Seq<TensorSpec>) -> bool {
    forall|i: int, j: int|
        #![trigger tensors[i], tensors[j]]
        0 <= i < j < tensors.len() ==> apart(tensors[i], tensors[j])
}

/// What a checkpoint's header says.
#[verifier::ext_equal]
pub struct SafeTensorsView {
    pub tensors: Seq<TensorSpec>,
    pub metadata: Seq<(Seq<char>, Seq<char>)>,
}

/// Whether an error is the account of a fault in the entry of a name.
pub open spec fn entry_account(e: Error, name: Seq<char>, f: EntryFault) -> bool {
    match f {
        EntryFault::Bad => e matches Error::Format(FileIssue::BadEntry(n)) && n@ == name,
        EntryFault::Dtype(d) => e matches Error::Format(FileIssue::Dtype(n)) && n@ == d,
        EntryFault::Inverted => e matches Error::Format(FileIssue::Inverted(n)) && n@ == name,
        EntryFault::PastEnd => e matches Error::Format(FileIssue::PastEnd(n)) && n@ == name,
        EntryFault::ShapeOverflow => e matches Error::Format(FileIssue::ShapeOverflow(n)) && n@ == name,
        EntryFault::SizeMismatch => e matches Error::Format(FileIssue::SizeMismatch(n)) && n@ == name,
    }
}

/// A tensor located inside a checkpoint.
#[derive(Debug)]
pub struct TensorView {
    /// Tensor name, e.g. `model.layers.0.mlp.gate_proj.weight`.
    pub name: String,
    /// Element type as stored.
    pub dtype: Dtype,
    /// Dimensions, outermost first.
    pub shape: Vec<usize>,
    /// Byte range within the file.
    range: (usize, usize),
}

impl TensorView {
    /// What the descriptor says.
    pub closed spec fn view(&self) -> TensorSpec {
        TensorSpec {
            name: self.name@,
            dtype: self.dtype,
            shape: self.shape@,
            begin: self.range.0 as int,
            end: self.range.1 as int,
        }
    }

    /// Element type as stored.
    pub(crate) fn element_type(&self) -> (d: Dtype)
        ensures
            d == self@.dtype,
    {
        self.dtype
    }

    /// Total element count.
    pub fn numel(&self) -> (n: usize)
        requires
            product_fits(self@.shape),
        ensures
            n == product(self@.shape, self@.shape.len() as int),
    {
        crate::format::shape_numel(&self.shape)
    }

    /// Stored size in bytes.
    pub fn nbytes(&self) -> (n: usize)
        requires
            self@.begin <= self@.end,
        ensures
            n == self@.end - self@.begin,
    {
        self.range.1 - self.range.0
    }

    /// Shape as `(rows, cols)`, for the weight matrices.
    pub fn shape_2d(&self) -> (r: Result<(usize, usize), Error>)
        ensures
            r matches Ok((rows, cols)) ==> self@.shape == seq![rows, cols],
            r matches Err(e) ==> self@.shape.len() != 2 && (e matches Error::Shape(
                ShapeFault::NotMatrix(n, dims),
            ) && n@ == self@.name && dims == self@.shape.len()),
    {
        if self.shape.len() == 2 {
            assert(self.shape@ =~= seq![self.shape@[0], self.shape@[1]]);
            Ok((self.shape[0], self.shape[1]))
        } else {
            Err(Error::Shape(ShapeFault::NotMatrix(self.name.clone(), self.shape.len())))
        }
    }
}

/// The product of a shape times an element size, where it is representable at
/// every step.
fn checked_size(shape: &Vec<usize>, width: usize) -> (r: Option<usize>)
    requires
        width > 0,
    ensures
        r is Some <==> product_fits(shape@) && product(shape@, shape@.len() as int) * width <= usize::MAX,
        r matches Some(n) ==> n == product(shape@, shape@.len() as int) * width,
{
    let mut n: usize = 1;
    let mut i: usize = 0;
    while i < shape.len()
        invariant
            i <= shape@.len(),
            n == product(shape@, i as int),
            forall|k: int| 0 <= k <= i ==> #[trigger] product(shape@, k) <= usize::MAX,
        decreases shape@.len() - i,
    {
        match n.checked_mul(shape[i]) {
            Some(m) => {
                n = m;
            },
            None => {
                assert(product(shape@, i + 1) > usize::MAX);
                return None;
            },
        }
        i = i + 1;
    }
    n.checked_mul(width)
}

/// Validates one entry and locates its tensor.
fn locate(name: &String, j: &Json, data_start: usize, data_len: usize) -> (r: Result<TensorView, Error>)
    requires
        data_start + data_len <= usize::MAX,
    ensures
        r is Ok <==> entry_fault(j@, data_len as int) is None,
        r matches Ok(t) ==> t@ == located((name@, j@), data_start as int) && product_fits(t.shape@),
        r matches Err(e) ==> entry_account(e, name@, entry_fault(j@, data_len as int)->0),
{
    let entry = match read_entry(j) {
        Some(e) => e,
        None => {
            return Err(Error::Format(FileIssue::BadEntry(name.clone())));
        },
    };
    let dtype = match Dtype::parse(entry.dtype.as_str()) {
        Ok(d) => d,
        Err(e) => {
            return Err(e);
        },
    };
    if entry.end < entry.begin {
        return Err(Error::Format(FileIssue::Inverted(name.clone())));
    }
    if entry.end > data_len {
        return Err(Error::Format(FileIssue::PastEnd(name.clone())));
    }
    let expected: usize = match checked_size(&entry.shape, dtype.size()) {
        Some(n) => n,
        None => {
            return Err(Error::Format(FileIssue::ShapeOverflow(name.clone())));
        },
    };
    if entry.end - entry.begin != expected {
        return Err(Error::Format(FileIssue::SizeMismatch(name.clone())));
    }
    Ok(
        TensorView {
            name: name.clone(),
            dtype,
            shape: entry.shape,
            range: (data_start + entry.begin, data_start + entry.end),
        },
    )
}

/// What a list of descriptors says.
pub open spec fn tensor_specs(list: Seq<TensorView>) -> Seq<TensorSpec> {
    list.map_values(|t: TensorView| t@)
}

/// Whether tensors `a` and `b` stand in order of their ranges; of two with the
/// same range, the one listed earlier comes first.
pub open spec fn in_order(tensors: Seq<TensorSpec>, a: int, b: int) -> bool {
    ||| tensors[a].begin < tensors[b].begin
    ||| tensors[a].begin == tensors[b].begin && tensors[a].end < tensors[b].end
    ||| tensors[a].begin == tensors[b].begin && tensors[a].end == tensors[b].end && a < b
}

/// Whether a list of positions names tensor `k`.
pub open spec fn listed(order: Seq<usize>, k: int) -> bool {
    exists|p: int| 0 <= p < order.len() && #[trigger] order[p] == k
}

/// Whether a list of positions names each of the first `n` tensors once, in order
/// of their ranges.
pub open spec fn orders(order: Seq<usize>, tensors: Seq<TensorSpec>, n: int) -> bool {
    &&& order.len() == n
    &&& forall|p: int| 0 <= p < n ==> #[trigger] order[p] < n
    &&& forall|k: int| 0 <= k < n ==> #[trigger] listed(order, k)
    &&& forall|p: int, q: int|
        #![trigger order[p], order[q]]
        0 <= p < q < n ==> order[p] != order[q] && in_order(tensors, order[p] as int, order[q] as int)
}

/// Orders tensors by their ranges.
fn order_by_range(list: &Vec<TensorView>) -> (order: Vec<usize>)
    ensures
        orders(order@, tensor_specs(list@), list@.len() as int),
{
    let ghost all = tensor_specs(list@);
    let mut order: Vec<usize> = Vec::new();
    let mut i: usize = 0;
    while i < list.len()
        invariant
            i <= list@.len(),
            all == tensor_specs(list@),
            orders(order@, all, i as int),
        decreases list@.len() - i,
    {
        let (b, e) = (list[i].range.0, list[i].range.1);
        assert(all[i as int] == list@[i as int]@);
        let mut at: usize = order.len();
        while at > 0 && (b < list[order[at - 1]].range.0 || (b == list[order[at - 1]].range.0 && e
            < list[order[at - 1]].range.1))
            invariant
                at <= order@.len(),
                i < list@.len(),
                all == tensor_specs(list@),
                orders(order@, all, i as int),
                b == all[i as int].begin,
                e == all[i as int].end,
                forall|q: int| at <= q < order@.len() ==> in_order(all, i as int, #[trigger] order@[q] as int),
            decreases at,
        {
            assert(order@[at - 1] < i);
            assert(all[order@[at - 1] as int] == list@[order@[at - 1] as int]@);
            at = at - 1;
        }
        proof {
            if at > 0 {
                assert(order@[at - 1] < i);
                assert(all[order@[at - 1] as int] == list@[order@[at - 1] as int]@);
                assert(in_order(all, order@[at - 1] as int, i as int));
            }
            assert forall|p: int| 0 <= p < at implies in_order(all, #[trigger] order@[p] as int, i as int) by {
                if p < at - 1 {
                    assert(in_order(all, order@[p] as int, order@[at - 1] as int));
                }
            }
        }
        let ghost before = order@;
        order.insert(at, i);
        proof {
            let after = order@;
            assert(after =~= before.take(at as int) + seq![i] + before.skip(at as int));
            assert forall|k: int| 0 <= k < i + 1 implies #[trigger] listed(after, k) by {
                if k == i {
                    assert(after[at as int] == k);
                } else {
                    assert(listed(before, k));
                    let p = choose|p: int| 0 <= p < i && #[trigger] before[p] == k;
                    if p < at {
                        assert(after[p] == k);
                    } else {
                        assert(after[p + 1] == k);
                    }
                }
            }
            assert forall|p: int| 0 <= p < i + 1 implies #[trigger] after[p] < i + 1 by {
                if p < at {
                    assert(after[p] == before[p]);
                } else if p > at {
                    assert(after[p] == before[p - 1]);
                }
            }
            assert forall|p: int, q: int|
                #![trigger after[p], after[q]]
                0 <= p < q < i + 1 implies after[p] != after[q] && in_order(
                all,
                after[p] as int,
                after[q] as int,
            ) by {
                let p0 = if p < at {
                    p
                } else {
                    p - 1
                };
                let q0 = if q < at {
                    q
                } else {
                    q - 1
                };
                if p != at && q != at {
                    assert(after[p] == before[p0] && after[q] == before[q0]);
                } else if p == at {
                    assert(after[q] == before[q0]);
                    assert(before[q0] < i);
                } else {
                    assert(after[p] == before[p0]);
                    assert(before[p0] < i);
                }
            }
        }
        i = i + 1;
    }
    order
}

/// Whether the tensor at place `p` ends before the next one begins.
pub open spec fn next_apart(order: Seq<usize>, tensors: Seq<TensorSpec>, p: int) -> bool {
    tensors[order[p] as int].end <= tensors[order[p + 1] as int].begin
}

/// Whether these names are of the first two tensors, in order of their ranges, of
/// which one runs into the next.
pub open spec fn first_overlap(
    order: Seq<usize>,
    tensors: Seq<TensorSpec>,
    p: int,
    a: Seq<char>,
    b: Seq<char>,
) -> bool {
    &&& orders(order, tensors, tensors.len() as int)
    &&& 0 <= p && p + 1 < order.len()
    &&& !next_apart(order, tensors, p)
    &&& forall|r: int| 0 <= r < p ==> #[trigger] next_apart(order, tensors, r)
    &&& tensors[order[p] as int].name == a
    &&& tensors[order[p + 1] as int].name == b
}

/// Whether these names are of the first two tensors that overlap.
pub open spec fn overlap_first(tensors: Seq<TensorSpec>, a: Seq<char>, b: Seq<char>) -> bool {
    exists|order: Seq<usize>, p: int| #[trigger] first_overlap(order, tensors, p, a, b)
}

/// Whether an error names the first two tensors that overlap.
pub open spec fn says_overlap(e: Error, tensors: Seq<TensorSpec>) -> bool {
    e matches Error::Format(FileIssue::Overlap(a, b)) && overlap_first(tensors, a@, b@)
}

/// Tensors in order of their ranges lie apart when each ends before the next
/// begins.
proof fn lemma_apart(order: Seq<usize>, tensors: Seq<TensorSpec>)
    requires
        orders(order, tensors, tensors.len() as int),
        forall|i: int| 0 <= i < tensors.len() ==> (#[trigger] tensors[i]).begin <= tensors[i].end,
        forall|p: int| 0 <= p && p + 1 < order.len() ==> #[trigger] next_apart(order, tensors, p),
    ensures
        all_apart(tensors),
{
    assert forall|i: int, j: int|
        #![trigger tensors[i], tensors[j]]
        0 <= i < j < tensors.len() implies apart(tensors[i], tensors[j]) by {
        assert(listed(order, i) && listed(order, j));
        let p = choose|p: int| 0 <= p < order.len() && #[trigger] order[p] == i;
        let q = choose|q: int| 0 <= q < order.len() && #[trigger] order[q] == j;
        if p < q {
            lemma_ends_before(order, tensors, p, q);
        } else {
            lemma_ends_before(order, tensors, q, p);
        }
    }
}

proof fn lemma_ends_before(order: Seq<usize>, tensors: Seq<TensorSpec>, p: int, q: int)
    requires
        orders(order, tensors, tensors.len() as int),
        forall|i: int| 0 <= i < tensors.len() ==> (#[trigger] tensors[i]).begin <= tensors[i].end,
        forall|r: int| 0 <= r && r + 1 < order.len() ==> #[trigger] next_apart(order, tensors, r),
        0 <= p < q < order.len(),
    ensures
        tensors[order[p] as int].end <= tensors[order[q] as int].begin,
    decreases q - p,
{
    assert(next_apart(order, tensors, p));
    if p + 1 < q {
        lemma_ends_before(order, tensors, p + 1, q);
        assert(order[p + 1] < tensors.len());
        let mid = tensors[order[p + 1] as int];
        assert(mid.begin <= mid.end);
    }
}

/// Checks that no two tensors overlap.
fn check_apart(list: &Vec<TensorView>) -> (r: Result<(), Error>)
    requires
        forall|i: int| 0 <= i < list@.len() ==> (#[trigger] list@[i])@.begin <= list@[i]@.end,
    ensures
        r is Ok <==> all_apart(tensor_specs(list@)),
        r matches Err(e) ==> says_overlap(e, tensor_specs(list@)),
{
    let ghost all = tensor_specs(list@);
    let order = order_by_range(list);
    assert forall|i: int| 0 <= i < all.len() implies (#[trigger] all[i]).begin <= all[i].end by {
        assert(all[i] == list@[i]@);
    }
    let mut p: usize = 0;
    while p < order.len() && order.len() - p > 1
        invariant
            p <= order@.len(),
            all == tensor_specs(list@),
            orders(order@, all, list@.len() as int),
            forall|i: int| 0 <= i < all.len() ==> (#[trigger] all[i]).begin <= all[i].end,
            forall|r: int|
                0 <= r < p && r + 1 < order@.len() ==> #[trigger] next_apart(order@, all, r),
        decreases order@.len() - p,
    {
        let (a, b) = (order[p], order[p + 1]);
        assert(order@[p as int] < list@.len() && order@[p + 1] < list@.len());
        assert(all[a as int] == list@[a as int]@ && all[b as int] == list@[b as int]@);
        if list[a].range.1 > list[b].range.0 {
            proof {
                assert(in_order(all, a as int, b as int));
                assert(a != b);
                assert(!apart(all[a as int], all[b as int]));
                assert(!all_apart(all)) by {
                    if a < b {
                        assert(!apart(all[a as int], all[b as int]));
                    } else {
                        assert(!apart(all[b as int], all[a as int]));
                    }
                }
            }
            let (first, second) = (list[a].name.clone(), list[b].name.clone());
            assert(!next_apart(order@, all, p as int));
            assert(first_overlap(order@, all, p as int, first@, second@));
            assert(overlap_first(all, first@, second@));
            return Err(Error::Format(FileIssue::Overlap(first, second)));
        }
        p = p + 1;
    }
    proof {
        lemma_apart(order@, all);
    }
    Ok(())
}

/// The tensors of a safetensors checkpoint.
pub struct SafeTensors {
    tensors: Vec<TensorView>,
    metadata: Vec<(String, String)>,
}

/// Reads a map of texts.
fn read_text_map(j: &Json) -> (r: Option<Vec<(String, String)>>)
    ensures
        match (r, text_map(j@)) {
            (Some(v), Some(want)) => v@.map_values(|m: (String, String)| (m.0@, m.1@)) == want,
            (None, None) => true,
            _ => false,
        },
{
    let members = match j.by_name() {
        Some(m) => m,
        None => {
            return None;
        },
    };
    let ghost all = borrowed_view(members@);
    let mut out: Vec<(String, String)> = Vec::new();
    let mut i: usize = 0;
    while i < members.len()
        invariant
            i <= members@.len(),
            all == borrowed_view(members@),
            j@.by_name() == Some(all),
            out@.len() == i,
            forall|k: int| 0 <= k < i ==> (#[trigger] all[k]).1.as_text() is Some,
            forall|k: int|
                0 <= k < i ==> (#[trigger] out@[k]).0@ == all[k].0 && out@[k].1@ == all[k].1.as_text()->0,
        decreases members@.len() - i,
    {
        assert(all[i as int] == (members@[i as int].0@, members@[i as int].1@));
        match members[i].1.as_text() {
            Some(s) => {
                out.push((members[i].0.clone(), s.clone()));
            },
            None => {
                return None;
            },
        }
        i = i + 1;
    }
    assert(out@.map_values(|m: (String, String)| (m.0@, m.1@)) =~= Seq::new(
        all.len(),
        |k: int| (all[k].0, all[k].1.as_text()->0),
    ));
    Some(out)
}

/// Whether a parsed header describes a checkpoint.
pub open spec fn header_holds(doc: JsonView, data_start: int, data_len: int) -> bool {
    &&& doc.by_name() is Some
    &&& bad_member(doc.by_name()->0, data_len, 0) is None
    &&& all_apart(tensors_of(doc.by_name()->0, data_start, doc.by_name()->0.len() as int))
}

/// Whether an error is the account of what is wrong with a parsed header.
pub open spec fn header_account(e: Error, doc: JsonView, data_start: int, data_len: int) -> bool {
    match doc.by_name() {
        None => e == Error::Format(FileIssue::HeaderShape),
        Some(members) => match bad_member(members, data_len, 0) {
            Some(i) => entry_account(e, members[i].0, entry_fault(members[i].1, data_len)->0),
            None => says_overlap(e, tensors_of(members, data_start, members.len() as int)),
        },
    }
}

/// Where the data region of a file begins.
pub open spec fn data_start_of(file: Seq<u8>) -> int {
    8 + le64(file.take(8))
}

/// The header's bytes in a file.
pub open spec fn header_bytes(file: Seq<u8>) -> Seq<u8> {
    file.subrange(8, data_start_of(file))
}

/// What keeps a file from holding a header text; nothing where it holds one.
pub open spec fn file_fault(file: Seq<u8>) -> Option<FileIssue> {
    if file.len() < 8 {
        Some(FileIssue::TooShort)
    } else if data_start_of(file) > u64::MAX {
        Some(FileIssue::HeaderOverflow)
    } else if data_start_of(file) > file.len() {
        Some(FileIssue::HeaderPastEnd)
    } else if !valid_utf8(header_bytes(file)) {
        Some(FileIssue::HeaderText)
    } else {
        None
    }
}

/// What a file's header text parses to.
pub open spec fn header_document(file: Seq<u8>) -> Option<JsonView> {
    parsed_json(decode_utf8(header_bytes(file)))
}

impl SafeTensors {
    /// What the header says.
    pub closed spec fn view(&self) -> SafeTensorsView {
        SafeTensorsView {
            tensors: tensor_specs(self.tensors@),
            metadata: self.metadata@.map_values(|m: (String, String)| (m.0@, m.1@)),
        }
    }

    /// Every tensor's range runs forward, the sizes can be computed, and names
    /// ascend.
    #[verifier::type_invariant]
    spec fn wf(self) -> bool {
        &&& sorted_by_name(self@.tensors)
        &&& ascending(self@.metadata)
        &&& forall|i: int|
            0 <= i < self.tensors@.len() ==> {
                let t = (#[trigger] self.tensors@[i])@;
                t.begin <= t.end && product_fits(t.shape)
            }
    }

    /// Validates a parsed header against the data region it describes.
    ///
    /// Every declared byte range must lie inside the data region, match the shape
    /// times the element size, and not overlap another tensor. Entries are taken
    /// in the order of their names.
    pub fn from_header(doc: &Json, data_start: usize, data_len: usize) -> (r: Result<SafeTensors, Error>)
        requires
            data_start + data_len <= usize::MAX,
        ensures
            r is Ok <==> header_holds(doc@, data_start as int, data_len as int),
            r matches Ok(st) ==> ({
                let members = doc@.by_name()->0;
                st@ == (SafeTensorsView {
                    tensors: tensors_of(members, data_start as int, members.len() as int),
                    metadata: metadata_of(members, members.len() as int),
                })
            }),
            r matches Err(e) ==> header_account(e, doc@, data_start as int, data_len as int),
    {
        let members = match doc.by_name() {
            Some(m) => m,
            None => {
                return Err(Error::Format(FileIssue::HeaderShape));
            },
        };
        let ghost all = borrowed_view(members@);
        let mut tensors: Vec<TensorView> = Vec::new();
        let mut metadata: Vec<(String, String)> = Vec::new();
        let mut i: usize = 0;
        assert(tensor_specs(tensors@) =~= seq![]);
        assert(metadata@.map_values(|m: (String, String)| (m.0@, m.1@)) =~= seq![]);
        while i < members.len()
            invariant
                i <= members@.len(),
                data_start + data_len <= usize::MAX,
                all == borrowed_view(members@),
                doc@.by_name() == Some(all),
                bad_member(all, data_len as int, 0) == bad_member(all, data_len as int, i as int),
                tensor_specs(tensors@) == tensors_of(all, data_start as int, i as int),
                metadata@.map_values(|m: (String, String)| (m.0@, m.1@)) == metadata_of(all, i as int),
                forall|k: int|
                    0 <= k < tensors@.len() ==> (#[trigger] tensors@[k])@.begin <= tensors@[k]@.end
                        && product_fits(tensors@[k]@.shape),
            decreases members@.len() - i,
        {
            assert(all[i as int] == (members@[i as int].0@, members@[i as int].1@));
            if str_eq(members[i].0.as_str(), "__metadata__") {
                if let Some(m) = read_text_map(members[i].1) {
                    metadata = m;
                }
            } else {
                let ghost before = tensor_specs(tensors@);
                match locate(&members[i].0, members[i].1, data_start, data_len) {
                    Ok(t) => {
                        let ghost said = t@;
                        tensors.push(t);
                        assert(tensor_specs(tensors@) =~= before.push(said));
                    },
                    Err(e) => {
                        return Err(e);
                    },
                }
            }
            i = i + 1;
        }
        proof {
            ordering_keeps_the_last_of_each_name(doc@.as_object()->0);
            lemma_tensors_sorted(all, data_start as int, all.len() as int);
            lemma_metadata_sorted(all, all.len() as int);
        }
        match check_apart(&tensors) {
            Ok(()) => Ok(SafeTensors { tensors, metadata }),
            Err(e) => Err(e),
        }
    }

    /// Validates a checkpoint file's header.
    pub fn from_file(file: &[u8]) -> (r: Result<SafeTensors, Error>)
        ensures
            r is Ok <==> file_fault(file@) is None && header_document(file@) is Some && header_holds(
                header_document(file@)->0,
                data_start_of(file@),
                file@.len() - data_start_of(file@),
            ),
            r matches Ok(st) ==> ({
                let members = header_document(file@)->0.by_name()->0;
                st@ == (SafeTensorsView {
                    tensors: tensors_of(members, data_start_of(file@), members.len() as int),
                    metadata: metadata_of(members, members.len() as int),
                })
            }),
            r matches Err(e) ==> match file_fault(file@) {
                Some(issue) => e == Error::Format(issue),
                None => match header_document(file@) {
                    None => e matches Error::Format(FileIssue::HeaderJson(_)),
                    Some(doc) => header_account(
                        e,
                        doc,
                        data_start_of(file@),
                        file@.len() - data_start_of(file@),
                    ),
                },
            },
    {
        if file.len() < 8 {
            return Err(Error::Format(FileIssue::TooShort));
        }
        let header_len: u64 = read_le64(file, 0);
        assert(file@.subrange(0, 8) =~= file@.take(8));
        let data_start: u64 = match header_len.checked_add(8) {
            Some(n) => n,
            None => {
                return Err(Error::Format(FileIssue::HeaderOverflow));
            },
        };
        if data_start > file.len() as u64 {
            return Err(Error::Format(FileIssue::HeaderPastEnd));
        }
        let start: usize = data_start as usize;
        let head = &file[8..start];
        assert(head@ =~= header_bytes(file@));
        let text = match decode_strict(head) {
            Some(t) => t,
            None => {
                return Err(Error::Format(FileIssue::HeaderText));
            },
        };
        let doc = match Json::parse(text.as_str()) {
            Ok(d) => d,
            Err(words) => {
                return Err(Error::Format(FileIssue::HeaderJson(words)));
            },
        };
        SafeTensors::from_header(&doc, start, file.len() - start)
    }

    /// Number of tensors in the checkpoint.
    pub fn len(&self) -> (n: usize)
        ensures
            n == self@.tensors.len(),
    {
        self.tensors.len()
    }

    /// True when the checkpoint contains no tensors.
    pub fn is_empty(&self) -> (r: bool)
        ensures
            r == (self@.tensors.len() == 0),
    {
        self.tensors.len() == 0
    }

    /// All tensor descriptors, in the order of their names.
    pub fn tensors(&self) -> (list: &Vec<TensorView>)
        ensures
            tensor_specs(list@) == self@.tensors,
            sorted_by_name(self@.tensors),
    {
        proof {
            use_type_invariant(self);
        }
        &self.tensors
    }

    /// Tensor names, sorted.
    pub fn names(&self) -> (names: Vec<String>)
        ensures
            names@.len() == self@.tensors.len(),
            forall|i: int| 0 <= i < names@.len() ==> (#[trigger] names@[i])@ == self@.tensors[i].name,
            names_ascend(names@),
    {
        proof {
            use_type_invariant(self);
        }
        let mut out: Vec<String> = Vec::new();
        let mut i: usize = 0;
        while i < self.tensors.len()
            invariant
                i <= self.tensors@.len(),
                out@.len() == i,
                forall|k: int| 0 <= k < i ==> (#[trigger] out@[k])@ == tensor_specs(self.tensors@)[k].name,
            decreases self.tensors@.len() - i,
        {
            out.push(self.tensors[i].name.clone());
            i = i + 1;
        }
        proof {
            let ts = self@.tensors;
            assert forall|a: int, b: int|
                #![trigger out@[a], out@[b]]
                0 <= a < b < out@.len() implies name_before(out@[a]@, out@[b]@) by {
                assert(name_before(ts[a].name, ts[b].name));
            }
        }
        out
    }

    /// Header `__metadata__` entries, in the order of their names.
    pub fn metadata(&self) -> (m: &Vec<(String, String)>)
        ensures
            m@.map_values(|e: (String, String)| (e.0@, e.1@)) == self@.metadata,
            ascending(self@.metadata),
    {
        proof {
            use_type_invariant(self);
        }
        &self.metadata
    }

    /// Looks up a tensor descriptor.
    pub fn get(&self, name: &str) -> (r: Result<&TensorView, Error>)
        ensures
            match spec_index_of(self@.tensors, name@, 0) {
                Some(i) => r matches Ok(t) && t@ == self@.tensors[i] && t@.begin <= t@.end && product_fits(
                    t@.shape,
                ),
                None => r matches Err(Error::MissingTensor(n)) && n@ == name@,
            },
    {
        proof {
            use_type_invariant(self);
        }
        let ghost all = self@.tensors;
        let mut i: usize = 0;
        while i < self.tensors.len()
            invariant
                i <= self.tensors@.len(),
                all == tensor_specs(self.tensors@),
                self.wf(),
                spec_index_of(all, name@, 0) == spec_index_of(all, name@, i as int),
            decreases self.tensors@.len() - i,
        {
            assert(all[i as int] == self.tensors@[i as int]@);
            if str_eq(self.tensors[i].name.as_str(), name) {
                return Ok(&self.tensors[i]);
            }
            i = i + 1;
        }
        Err(Error::MissingTensor(name.to_owned()))
    }

    /// Raw bytes of a tensor, borrowed from the file it was located in.
    pub fn bytes<'a>(&self, file: &'a [u8], name: &str) -> (r: Result<&'a [u8], Error>)
        requires
            forall|i: int| 0 <= i < self@.tensors.len() ==> 0 <= (#[trigger] self@.tensors[i]).begin
                && self@.tensors[i].end <= file@.len(),
        ensures
            match spec_index_of(self@.tensors, name@, 0) {
                Some(i) => r matches Ok(b) && b@ == file@.subrange(
                    self@.tensors[i].begin,
                    self@.tensors[i].end,
                ),
                None => r matches Err(Error::MissingTensor(n)) && n@ == name@,
            },
    {
        proof {
            lemma_spec_index(self@.tensors, name@, 0);
        }
        match self.get(name) {
            Ok(t) => {
                let (begin, end) = t.range;
                Ok(&file[begin..end])
            },
            Err(e) => Err(e),
        }
    }

    /// Total bytes of tensor data.
    pub fn data_bytes(&self) -> (n: usize)
        requires
            sizes_sum(self@.tensors, self@.tensors.len() as int) <= usize::MAX,
        ensures
            n == sizes_sum(self@.tensors, self@.tensors.len() as int),
    {
        proof {
            use_type_invariant(self);
        }
        let ghost all = self@.tensors;
        let mut n: usize = 0;
        let mut i: usize = 0;
        while i < self.tensors.len()
            invariant
                i <= self.tensors@.len(),
                all == tensor_specs(self.tensors@),
                self.wf(),
                n == sizes_sum(all, i as int),
                sizes_sum(all, all.len() as int) <= usize::MAX,
            decreases self.tensors@.len() - i,
        {
            assert(all[i as int] == self.tensors@[i as int]@);
            proof {
                lemma_sizes_sum(all, i + 1, all.len() as int);
            }
            n = n + self.tensors[i].nbytes();
            i = i + 1;
        }
        n
    }
}

/// Where the first tensor of a name is, from `i` on.
pub open spec fn spec_index_of(tensors: Seq<TensorSpec>, name: Seq<char>, i: int) -> Option<int>
    decreases tensors.len() - i,
    when 0 <= i
{
    if i >= tensors.len() {
        None
    } else if tensors[i].name == name {
        Some(i)
    } else {
        spec_index_of(tensors, name, i + 1)
    }
}

proof fn lemma_spec_index(tensors: Seq<TensorSpec>, name: Seq<char>, i: int)
    requires
        0 <= i,
    ensures
        spec_index_of(tensors, name, i) matches Some(k) ==> i <= k < tensors.len() && tensors[k].name == name,
    decreases tensors.len() - i,
{
    if i < tensors.len() && tensors[i].name != name {
        lemma_spec_index(tensors, name, i + 1);
    }
}

/// The bytes of the first `n` tensors; a range that runs backward has none.
pub open spec fn sizes_sum(tensors: Seq<TensorSpec>, n: int) -> nat
    decreases n,
{
    if n <= 0 {
        0
    } else if tensors[n - 1].end >= tensors[n - 1].begin {
        sizes_sum(tensors, n - 1) + (tensors[n - 1].end - tensors[n - 1].begin) as nat
    } else {
        sizes_sum(tensors, n - 1)
    }
}

proof fn lemma_sizes_sum(tensors: Seq<TensorSpec>, a: int, b: int)
    requires
        a <= b,
    ensures
        sizes_sum(tensors, a) <= sizes_sum(tensors, b),
    decreases b - a,
{
    if a < b {
        lemma_sizes_sum(tensors, a, b - 1);
    }
}

/// The tensors of a checkpoint that passes lie in its data region, have the size
/// of their shapes, share no byte and stand in the order of their names.
pub proof fn accepted_tensors_are_sound(doc: JsonView, data_start: int, data_len: int)
    requires
        data_start >= 0,
        header_holds(doc, data_start, data_len),
    ensures
        ({
            let members = doc.by_name()->0;
            let ts = tensors_of(members, data_start, members.len() as int);
            &&& all_apart(ts)
            &&& sorted_by_name(ts)
            &&& forall|i: int|
                0 <= i < ts.len() ==> {
                    let t = #[trigger] ts[i];
                    &&& data_start <= t.begin <= t.end <= data_start + data_len
                    &&& t.end - t.begin == product(t.shape, t.shape.len() as int) * t.dtype.width()
                }
        }),
{
    let members = doc.by_name()->0;
    lemma_no_bad_member(members, data_len, 0);
    lemma_tensors_sound(members, data_start, data_len, members.len() as int);
    ordering_keeps_the_last_of_each_name(doc.as_object()->0);
    lemma_tensors_sorted(members, data_start, members.len() as int);
}

proof fn lemma_no_bad_member(members: Seq<(Seq<char>, JsonView)>, data_len: int, i: int)
    requires
        0 <= i,
        bad_member(members, data_len, i) is None,
    ensures
        forall|k: int|
            i <= k < members.len() && is_tensor(#[trigger] members[k]) ==> entry_fault(
                members[k].1,
                data_len,
            ) is None,
    decreases members.len() - i,
{
    if i < members.len() {
        lemma_no_bad_member(members, data_len, i + 1);
    }
}

proof fn lemma_tensors_sound(
    members: Seq<(Seq<char>, JsonView)>,
    data_start: int,
    data_len: int,
    n: int,
)
    requires
        data_start >= 0,
        0 <= n <= members.len(),
        forall|k: int|
            0 <= k < members.len() && is_tensor(#[trigger] members[k]) ==> entry_fault(
                members[k].1,
                data_len,
            ) is None,
    ensures
        ({
            let ts = tensors_of(members, data_start, n);
            forall|i: int|
                0 <= i < ts.len() ==> {
                    let t = #[trigger] ts[i];
                    &&& data_start <= t.begin <= t.end <= data_start + data_len
                    &&& t.end - t.begin == product(t.shape, t.shape.len() as int) * t.dtype.width()
                }
        }),
    decreases n,
{
    if n > 0 {
        lemma_tensors_sound(members, data_start, data_len, n - 1);
        let before = tensors_of(members, data_start, n - 1);
        let ts = tensors_of(members, data_start, n);
        assert forall|i: int| 0 <= i < ts.len() implies {
            let t = #[trigger] ts[i];
            &&& data_start <= t.begin <= t.end <= data_start + data_len
            &&& t.end - t.begin == product(t.shape, t.shape.len() as int) * t.dtype.width()
        } by {
            if i < before.len() {
                assert(ts[i] == before[i]);
            }
        }
    }
}

/// Whether elements of a type can be read as 32-bit floats.
pub open spec fn widens(d: Dtype) -> bool {
    d != Dtype::I64 && d != Dtype::Bool
}

impl SafeTensors {
    /// Looks up a tensor whose elements can be read as 32-bit floats.
    ///
    /// The others are refused before anything is allocated for them.
    pub fn get_readable(&self, name: &str) -> (r: Result<&TensorView, Error>)
        ensures
            match spec_index_of(self@.tensors, name@, 0) {
                Some(i) => if widens(self@.tensors[i].dtype) {
                    r matches Ok(t) && t@ == self@.tensors[i]
                } else {
                    r matches Err(Error::Format(FileIssue::Unreadable(n))) && n@ == name@
                },
                None => r matches Err(Error::MissingTensor(n)) && n@ == name@,
            },
    {
        match self.get(name) {
            Ok(t) => match t.dtype {
                Dtype::I64 | Dtype::Bool => Err(Error::Format(FileIssue::Unreadable(name.to_owned()))),
                _ => Ok(t),
            },
            Err(e) => Err(e),
        }
    }
}

/// The bit pattern of the 32-bit float that a bfloat16 stands for: bfloat16 is
/// the top half of one.
pub open spec fn bf16_widened(bits: u16) -> u32 {
    (bits * 0x1_0000) as u32
}

/// Widens bfloat16 bit patterns to those of 32-bit floats.
pub fn widen_bf16(halves: &[u16]) -> (words: Vec<u32>)
    ensures
        words@ == halves@.map_values(|b: u16| bf16_widened(b)),
{
    let mut out: Vec<u32> = Vec::new();
    let mut i: usize = 0;
    while i < halves.len()
        invariant
            i <= halves@.len(),
            out@ == halves@.take(i as int).map_values(|b: u16| bf16_widened(b)),
        decreases halves@.len() - i,
    {
        out.push(halves[i] as u32 * 0x1_0000);
        i = i + 1;
        assert(out@ =~= halves@.take(i as int).map_values(|b: u16| bf16_widened(b)));
    }
    assert(halves@.take(i as int) =~= halves@);
    out
}

} // verus!
