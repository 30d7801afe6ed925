//! What a `.wstone` file holds of a model, matrix by matrix.
//!
//! A `.wstone` is not a checkpoint that needs converting: the packing already
//! happened. Loading looks the tensors up, checks that they fit the architecture
//! and each other, and joins those that are run as one. Nothing is transposed,
//! repacked or dequantized on the way.
//!
//! The query, key and value projections share an input, and so do the two that
//! enter the MLP. Each group is run as one matrix, which gives the projection
//! enough rows to keep a device busy. Joining along the output dimension is
//! appending rows.

use vstd::prelude::*;

use crate::bytes::{halves_of, read_u16, read_u32, words_of};
use crate::error::{Error, FileIssue, ShapeFault};
use crate::format::{blob_index, required_blobs, tensor_index, EntryView, FormatIssue, Header, HeaderView, TensorEntry, TensorKind};
use crate::kernels;
use crate::kernels::gemv::{packed_len, QuantLinear, QuantLinearHier, GROUP, HGROUP};
use crate::quant;

verus! {

/// Why a matrix could not be had.
pub enum LoadFault {
    /// There is no tensor of this name.
    Missing(Seq<char>),
    /// This tensor is not a matrix.
    NotMatrix(Seq<char>),
    /// This tensor has no blob of this name.
    NoBlob(Seq<char>, Seq<char>),
    /// The range of this blob of this tensor overflows.
    BlobOverflow(Seq<char>, Seq<char>),
    /// This blob of this tensor ends past the end of the file.
    BlobPastEnd(Seq<char>, Seq<char>),
    /// This tensor is not as wide as those it is to be joined to.
    UnequalWidth(Seq<char>),
    /// This tensor is stored otherwise than those it is to be joined to.
    MixedKinds(Seq<char>),
    /// The rows cannot be counted.
    TooManyRows,
    /// This tensor is stored in a form that cannot be executed.
    NotExecutable(Seq<char>),
    /// This tensor is not stored as fp16.
    NotFp16(Seq<char>),
    /// What is stored of this tensor does not have as many elements as its shape.
    Elements(Seq<char>),
    /// The packed arrays do not have the sizes the shape calls for.
    Packed,
    /// This bias is not as wide as its projection.
    BiasWidth(Seq<char>),
}

/// Whether an error is the account of a fault.
pub open spec fn accounts(e: Error, f: LoadFault) -> bool {
    match f {
        LoadFault::Missing(n) => e matches Error::MissingTensor(m) && m@ == n,
        LoadFault::NotMatrix(n) => e matches Error::Shape(ShapeFault::NotMatrix(m, _)) && m@ == n,
        LoadFault::NoBlob(n, b) => e matches Error::Format(
            FileIssue::Container(quant::Error::Format(FormatIssue::NoBlob(m, c))),
        ) && m@ == n && c@ == b,
        LoadFault::BlobOverflow(n, b) => e matches Error::Format(
            FileIssue::Container(quant::Error::Format(FormatIssue::BlobOverflow(m, c))),
        ) && m@ == n && c@ == b,
        LoadFault::BlobPastEnd(n, b) => e matches Error::Format(
            FileIssue::Container(quant::Error::Format(FormatIssue::BlobPastEnd(m, c))),
        ) && m@ == n && c@ == b,
        LoadFault::UnequalWidth(n) => e matches Error::Shape(
            ShapeFault::UnequalWidth { name, .. },
        ) && name@ == n,
        LoadFault::MixedKinds(n) => e matches Error::Format(FileIssue::MixedKinds(m)) && m@ == n,
        LoadFault::TooManyRows => e == Error::Shape(ShapeFault::TooManyRows),
        LoadFault::NotExecutable(n) => e matches Error::Format(FileIssue::NotExecutable(m)) && m@
            == n,
        LoadFault::NotFp16(n) => e matches Error::Format(FileIssue::NotFp16(m)) && m@ == n,
        LoadFault::Elements(n) => e matches Error::Shape(ShapeFault::Elements { name, .. })
            && name@ == n,
        LoadFault::Packed => e matches Error::Kernel(kernels::Error::Shape(_)),
        LoadFault::BiasWidth(n) => e matches Error::Shape(ShapeFault::BiasWidth { name, .. })
            && name@ == n,
    }
}

/// The bytes of a blob, where they lie in the file.
pub open spec fn blob_content(file: Seq<u8>, e: EntryView, which: Seq<char>) -> Result<
    Seq<u8>,
    LoadFault,
> {
    match blob_index(e.blobs, which, 0) {
        None => Err(LoadFault::NoBlob(e.name, which)),
        Some(i) => {
            let b = e.blobs[i].1;
            if b.offset + b.len > u64::MAX {
                Err(LoadFault::BlobOverflow(e.name, which))
            } else if b.offset + b.len > file.len() {
                Err(LoadFault::BlobPastEnd(e.name, which))
            } else {
                Ok(file.subrange(b.offset as int, b.offset + b.len))
            }
        },
    }
}

/// The entry of a name.
pub fn tensor<'h>(h: &'h Header, name: &str) -> (r: Result<&'h TensorEntry, Error>)
    ensures
        match r {
            Ok(e) => tensor_index(h@.tensors, name@, 0) is Some && e@ == entry_of(h@, name@),
            Err(e) => tensor_index(h@.tensors, name@, 0) is None && accounts(
                e,
                LoadFault::Missing(name@),
            ),
        },
{
    match h.tensor(name) {
        Ok(t) => Ok(t),
        Err(_) => Err(Error::MissingTensor(name.to_owned())),
    }
}

/// The entry of a name that there is one of.
pub open spec fn entry_of(h: HeaderView, name: Seq<char>) -> EntryView {
    h.tensors[tensor_index(h.tensors, name, 0)->0]
}

/// The rows and the width of a matrix.
pub fn shape2(t: &TensorEntry) -> (r: Result<(usize, usize), Error>)
    ensures
        match r {
            Ok(s) => t@.shape.len() == 2 && s == (t@.shape[0], t@.shape[1]),
            Err(e) => t@.shape.len() != 2 && accounts(e, LoadFault::NotMatrix(t@.name)),
        },
{
    if t.shape.len() == 2 {
        Ok((t.shape[0], t.shape[1]))
    } else {
        Err(Error::Shape(ShapeFault::NotMatrix(t.name.clone(), t.shape.len())))
    }
}

/// Where a blob lies in the file: the place it begins at and its length.
fn blob_range(file: &[u8], t: &TensorEntry, which: &str) -> (r: Result<(u64, u64), Error>)
    ensures
        match r {
            Ok((offset, len)) => {
                &&& offset + len <= file@.len() <= usize::MAX
                &&& blob_content(file@, t@, which@) == Ok::<Seq<u8>, LoadFault>(
                    file@.subrange(offset as int, offset + len),
                )
            },
            Err(e) => blob_content(file@, t@, which@) matches Err(f) && accounts(e, f),
        },
{
    match t.blob(which) {
        Ok(b) => {
            if b.len > u64::MAX - b.offset {
                return Err(
                    Error::Format(
                        FileIssue::Container(
                            quant::Error::Format(
                                FormatIssue::BlobOverflow(t.name.clone(), which.to_owned()),
                            ),
                        ),
                    ),
                );
            }
            if b.offset + b.len > file.len() as u64 {
                return Err(
                    Error::Format(
                        FileIssue::Container(
                            quant::Error::Format(
                                FormatIssue::BlobPastEnd(t.name.clone(), which.to_owned()),
                            ),
                        ),
                    ),
                );
            }
            Ok((b.offset, b.len))
        },
        Err(e) => Err(Error::Format(FileIssue::Container(e))),
    }
}

/// The bytes of a blob.
pub fn blob_bytes<'b>(file: &'b [u8], t: &TensorEntry, which: &str) -> (r: Result<
    &'b [u8],
    Error,
>)
    ensures
        match r {
            Ok(b) => blob_content(file@, t@, which@) == Ok::<Seq<u8>, LoadFault>(b@),
            Err(e) => blob_content(file@, t@, which@) matches Err(f) && accounts(e, f),
        },
{
    match blob_range(file, t, which) {
        Ok((offset, len)) => {
            let lo: usize = offset as usize;
            let hi: usize = (offset + len) as usize;
            let part = &file[lo..hi];
            assert(part@ =~= file@.subrange(offset as int, offset + len));
            Ok(part)
        },
        Err(e) => Err(e),
    }
}

/// The numbers of a blob, read as 32-bit words.
fn blob_words(file: &[u8], t: &TensorEntry, which: &str) -> (r: Result<Vec<u32>, Error>)
    ensures
        match r {
            Ok(v) => blob_content(file@, t@, which@) matches Ok(b) && v@ == words_of(b),
            Err(e) => blob_content(file@, t@, which@) matches Err(f) && accounts(e, f),
        },
{
    match blob_range(file, t, which) {
        Ok((offset, len)) => Ok(read_u32(file, offset, len)),
        Err(e) => Err(e),
    }
}

/// The numbers of a blob, read as 16-bit halves.
pub(crate) fn blob_halves(file: &[u8], t: &TensorEntry, which: &str) -> (r: Result<Vec<u16>, Error>)
    ensures
        match r {
            Ok(v) => blob_content(file@, t@, which@) matches Ok(b) && v@ == halves_of(b),
            Err(e) => blob_content(file@, t@, which@) matches Err(f) && accounts(e, f),
        },
{
    match blob_range(file, t, which) {
        Ok((offset, len)) => Ok(read_u16(file, offset, len)),
        Err(e) => Err(e),
    }
}

// ---------------------------------------------------------------- matrices

/// A linear layer as it goes to the device, in whatever precision it was stored.
pub enum DeviceLinear {
    /// int4, groups of 128.
    Int4 { qw: Vec<u32>, sz: Vec<u32>, in_features: usize, out_features: usize },
    /// int4 with hierarchical scales, groups of 32.
    Int4Hier {
        qw: Vec<u32>,
        si: Vec<u8>,
        sb: Vec<u32>,
        in_features: usize,
        out_features: usize,
    },
    /// Dense fp16, row-major bit patterns.
    Fp16 { w: Vec<u16>, in_features: usize, out_features: usize },
}

/// A linear layer.
#[verifier::ext_equal]
pub enum LinearView {
    Int4 { qw: Seq<u32>, sz: Seq<u32>, in_features: int, out_features: int },
    Int4Hier { qw: Seq<u32>, si: Seq<u8>, sb: Seq<u32>, in_features: int, out_features: int },
    Fp16 { w: Seq<u16>, in_features: int, out_features: int },
}

impl View for DeviceLinear {
    type V = LinearView;

    open spec fn view(&self) -> LinearView {
        match *self {
            DeviceLinear::Int4 { qw, sz, in_features, out_features } => LinearView::Int4 {
                qw: qw@,
                sz: sz@,
                in_features: in_features as int,
                out_features: out_features as int,
            },
            DeviceLinear::Int4Hier { qw, si, sb, in_features, out_features } =>
                LinearView::Int4Hier {
                    qw: qw@,
                    si: si@,
                    sb: sb@,
                    in_features: in_features as int,
                    out_features: out_features as int,
                },
            DeviceLinear::Fp16 { w, in_features, out_features } => LinearView::Fp16 {
                w: w@,
                in_features: in_features as int,
                out_features: out_features as int,
            },
        }
    }
}

impl LinearView {
    /// Input width.
    pub open spec fn width(self) -> int {
        match self {
            LinearView::Int4 { in_features, .. } => in_features,
            LinearView::Int4Hier { in_features, .. } => in_features,
            LinearView::Fp16 { in_features, .. } => in_features,
        }
    }

    /// Output width.
    pub open spec fn rows(self) -> int {
        match self {
            LinearView::Int4 { out_features, .. } => out_features,
            LinearView::Int4Hier { out_features, .. } => out_features,
            LinearView::Fp16 { out_features, .. } => out_features,
        }
    }

    /// Weight bytes streamed per invocation.
    pub open spec fn streamed(self) -> nat {
        match self {
            LinearView::Int4 { qw, sz, .. } => 4 * qw.len() + 4 * sz.len(),
            LinearView::Int4Hier { qw, si, sb, .. } => 4 * qw.len() + si.len() + 4 * sb.len(),
            LinearView::Fp16 { w, .. } => 2 * w.len(),
        }
    }
}

impl DeviceLinear {
    /// Input width.
    pub fn in_features(&self) -> (n: usize)
        ensures
            n == self@.width(),
    {
        match self {
            DeviceLinear::Int4 { in_features, .. } => *in_features,
            DeviceLinear::Int4Hier { in_features, .. } => *in_features,
            DeviceLinear::Fp16 { in_features, .. } => *in_features,
        }
    }

    /// Output width.
    pub fn out_features(&self) -> (n: usize)
        ensures
            n == self@.rows(),
    {
        match self {
            DeviceLinear::Int4 { out_features, .. } => *out_features,
            DeviceLinear::Int4Hier { out_features, .. } => *out_features,
            DeviceLinear::Fp16 { out_features, .. } => *out_features,
        }
    }

    /// Weight bytes streamed per invocation.
    pub fn bytes(&self) -> (n: usize)
        requires
            self@.streamed() <= usize::MAX,
        ensures
            n == self@.streamed(),
    {
        match self {
            DeviceLinear::Int4 { qw, sz, .. } => 4 * qw.len() + 4 * sz.len(),
            DeviceLinear::Int4Hier { qw, si, sb, .. } => 4 * qw.len() + si.len() + 4 * sb.len(),
            DeviceLinear::Fp16 { w, .. } => 2 * w.len(),
        }
    }

    /// Whether several tokens can be run in one pass. Only the legacy format with
    /// groups of 128 has no kernel for that.
    pub fn supports_chunk(&self) -> (yes: bool)
        ensures
            yes == !(self@ is Int4),
    {
        match self {
            DeviceLinear::Int4 { .. } => false,
            _ => true,
        }
    }
}

/// The texts of some names.
pub open spec fn texts(names: Seq<String>) -> Seq<Seq<char>> {
    names.map_values(|n: String| n@)
}

/// The first of some names, from `i` on, that there is no tensor of.
pub open spec fn missing_from(h: HeaderView, names: Seq<Seq<char>>, i: int) -> Option<Seq<char>>
    decreases names.len() - i,
    when 0 <= i
{
    if i >= names.len() {
        None
    } else if tensor_index(h.tensors, names[i], 0) is None {
        Some(names[i])
    } else {
        missing_from(h, names, i + 1)
    }
}

/// The entries of some names.
pub open spec fn entries_of(h: HeaderView, names: Seq<Seq<char>>) -> Seq<EntryView> {
    names.map_values(|n: Seq<char>| entry_of(h, n))
}

/// What keeps some matrices, from `i` on, from being joined to one of this width
/// and kind.
pub open spec fn join_fault(
    entries: Seq<EntryView>,
    width: usize,
    kind: TensorKind,
    i: int,
) -> Option<LoadFault>
    decreases entries.len() - i,
    when 0 <= i
{
    if i >= entries.len() {
        None
    } else if entries[i].shape.len() != 2 {
        Some(LoadFault::NotMatrix(entries[i].name))
    } else if entries[i].shape[1] != width {
        Some(LoadFault::UnequalWidth(entries[i].name))
    } else if entries[i].kind != kind {
        Some(LoadFault::MixedKinds(entries[i].name))
    } else {
        join_fault(entries, width, kind, i + 1)
    }
}

/// The rows of the first `n` matrices.
pub open spec fn rows_of(entries: Seq<EntryView>, n: int) -> int
    decreases n,
{
    if n <= 0 {
        0
    } else {
        rows_of(entries, n - 1) + entries[n - 1].shape[0]
    }
}

/// The first of a matrix's blobs, of those named from `j` on, that cannot be
/// read.
pub open spec fn unread_blob(file: Seq<u8>, e: EntryView, names: Seq<Seq<char>>, j: int) -> Option<
    LoadFault,
>
    decreases names.len() - j,
    when 0 <= j
{
    if j >= names.len() {
        None
    } else {
        match blob_content(file, e, names[j]) {
            Err(f) => Some(f),
            Ok(_) => unread_blob(file, e, names, j + 1),
        }
    }
}

/// The first blob of some matrices, from `i` on, that cannot be read.
pub open spec fn unread(file: Seq<u8>, entries: Seq<EntryView>, names: Seq<Seq<char>>, i: int) ->
    Option<LoadFault>
    decreases entries.len() - i,
    when 0 <= i
{
    if i >= entries.len() {
        None
    } else {
        match unread_blob(file, entries[i], names, 0) {
            Some(f) => Some(f),
            None => unread(file, entries, names, i + 1),
        }
    }
}

/// The words of one blob of each of the first `n` matrices, one after another.
pub open spec fn joined_words(
    file: Seq<u8>,
    entries: Seq<EntryView>,
    which: Seq<char>,
    n: int,
) -> Seq<u32>
    decreases n,
{
    if n <= 0 {
        Seq::empty()
    } else {
        joined_words(file, entries, which, n - 1) + words_of(
            blob_content(file, entries[n - 1], which)->Ok_0,
        )
    }
}

/// The halves of one blob of each of the first `n` matrices, one after another.
pub open spec fn joined_halves(
    file: Seq<u8>,
    entries: Seq<EntryView>,
    which: Seq<char>,
    n: int,
) -> Seq<u16>
    decreases n,
{
    if n <= 0 {
        Seq::empty()
    } else {
        joined_halves(file, entries, which, n - 1) + halves_of(
            blob_content(file, entries[n - 1], which)->Ok_0,
        )
    }
}

/// The bytes of one blob of each of the first `n` matrices, one after another.
pub open spec fn joined_bytes(
    file: Seq<u8>,
    entries: Seq<EntryView>,
    which: Seq<char>,
    n: int,
) -> Seq<u8>
    decreases n,
{
    if n <= 0 {
        Seq::empty()
    } else {
        joined_bytes(file, entries, which, n - 1) + blob_content(
            file,
            entries[n - 1],
            which,
        )->Ok_0
    }
}

/// The matrix some blobs make, where they have the sizes its shape calls for.
pub open spec fn assembled(
    file: Seq<u8>,
    entries: Seq<EntryView>,
    kind: TensorKind,
    rows: usize,
    width: usize,
) -> Result<LinearView, LoadFault> {
    let n = entries.len() as int;
    match kind {
        TensorKind::Int4G128 => {
            let qw = joined_words(file, entries, "qw"@, n);
            let sz = joined_words(file, entries, "sz"@, n);
            if width % GROUP == 0 && qw.len() == packed_len(rows, width, 8) && sz.len()
                == packed_len(rows, width, GROUP) {
                Ok(
                    LinearView::Int4 {
                        qw,
                        sz,
                        in_features: width as int,
                        out_features: rows as int,
                    },
                )
            } else {
                Err(LoadFault::Packed)
            }
        },
        TensorKind::Int4HierG32 => {
            let qw = joined_words(file, entries, "qw"@, n);
            let si = joined_bytes(file, entries, "si"@, n);
            let sb = joined_words(file, entries, "sb"@, n);
            if width % HGROUP == 0 && qw.len() == packed_len(rows, width, 8) && si.len()
                == packed_len(rows, width, HGROUP) && sb.len() == rows {
                Ok(
                    LinearView::Int4Hier {
                        qw,
                        si,
                        sb,
                        in_features: width as int,
                        out_features: rows as int,
                    },
                )
            } else {
                Err(LoadFault::Packed)
            }
        },
        TensorKind::Fp16 => {
            let w = joined_halves(file, entries, "data"@, n);
            if w.len() == rows * width {
                Ok(LinearView::Fp16 { w, in_features: width as int, out_features: rows as int })
            } else {
                Err(LoadFault::Elements(entries[0].name))
            }
        },
        TensorKind::Fp32 => Err(LoadFault::NotExecutable(entries[0].name)),
    }
}

/// The matrix some entries make together.
pub open spec fn joined(file: Seq<u8>, entries: Seq<EntryView>) -> Result<LinearView, LoadFault> {
    let width = entries[0].shape[1];
    let kind = entries[0].kind;
    match join_fault(entries, width, kind, 0) {
        Some(f) => Err(f),
        None => if rows_of(entries, entries.len() as int) > usize::MAX {
            Err(LoadFault::TooManyRows)
        } else if kind == TensorKind::Fp32 {
            Err(LoadFault::NotExecutable(entries[0].name))
        } else {
            match unread(file, entries, required_blobs(kind), 0) {
                Some(f) => Err(f),
                None => assembled(
                    file,
                    entries,
                    kind,
                    rows_of(entries, entries.len() as int) as usize,
                    width,
                ),
            }
        },
    }
}

/// The matrix the tensors of some names make together.
pub open spec fn fused(h: HeaderView, file: Seq<u8>, names: Seq<Seq<char>>) -> Result<
    LinearView,
    LoadFault,
> {
    match missing_from(h, names, 0) {
        Some(n) => Err(LoadFault::Missing(n)),
        None => joined(file, entries_of(h, names)),
    }
}

/// Whether a result of loading is the one it should be.
pub open spec fn gives<T, V>(r: Result<T, Error>, want: Result<V, LoadFault>, same: spec_fn(
    T,
    V,
) -> bool) -> bool {
    match (r, want) {
        (Ok(t), Ok(v)) => same(t, v),
        (Err(e), Err(f)) => accounts(e, f),
        _ => false,
    }
}

/// What some entries say, in order.
spec fn entry_views(list: Seq<&TensorEntry>) -> Seq<EntryView> {
    list.map_values(|e: &TensorEntry| e@)
}

/// Looks some tensors up.
fn find_all<'h>(h: &'h Header, names: &[String]) -> (r: Result<Vec<&'h TensorEntry>, Error>)
    ensures
        match r {
            Ok(list) => {
                &&& missing_from(h@, texts(names@), 0) is None
                &&& entry_views(list@) == entries_of(h@, texts(names@))
            },
            Err(e) => missing_from(h@, texts(names@), 0) matches Some(n) && accounts(
                e,
                LoadFault::Missing(n),
            ),
        },
{
    let ghost want = texts(names@);
    let mut list: Vec<&'h TensorEntry> = Vec::new();
    let mut i: usize = 0;
    while i < names.len()
        invariant
            i <= names@.len(),
            want == texts(names@),
            missing_from(h@, want, 0) == missing_from(h@, want, i as int),
            list@.len() == i,
            forall|k: int| 0 <= k < i ==> (#[trigger] list@[k])@ == entry_of(h@, want[k]),
        decreases names@.len() - i,
    {
        assert(want[i as int] == names@[i as int]@);
        match tensor(h, names[i].as_str()) {
            Ok(t) => {
                list.push(t);
            },
            Err(e) => {
                return Err(e);
            },
        }
        i += 1;
    }
    assert(entry_views(list@) =~= entries_of(h@, want));
    Ok(list)
}

/// Checks that some matrices can be joined to one of this width and kind, and
/// counts the rows it has.
fn count_rows(list: &Vec<&TensorEntry>, width: usize, kind: TensorKind) -> (r: Result<
    usize,
    Error,
>)
    ensures
        match r {
            Ok(n) => {
                &&& join_fault(entry_views(list@), width, kind, 0) is None
                &&& n == rows_of(entry_views(list@), list@.len() as int)
            },
            Err(e) => match join_fault(entry_views(list@), width, kind, 0) {
                Some(f) => accounts(e, f),
                None => {
                    &&& rows_of(entry_views(list@), list@.len() as int) > usize::MAX
                    &&& accounts(e, LoadFault::TooManyRows)
                },
            },
        },
{
    let ghost all = entry_views(list@);
    let mut total: Option<usize> = Some(0);
    let mut i: usize = 0;
    while i < list.len()
        invariant
            i <= list@.len(),
            all == entry_views(list@),
            join_fault(all, width, kind, 0) == join_fault(all, width, kind, i as int),
            match total {
                Some(n) => n == rows_of(all, i as int),
                None => rows_of(all, i as int) > usize::MAX,
            },
        decreases list@.len() - i,
    {
        let t = list[i];
        assert(all[i as int] == t@);
        match shape2(t) {
            Ok((rows, w)) => {
                if w != width {
                    return Err(
                        Error::Shape(
                            ShapeFault::UnequalWidth {
                                name: t.name.clone(),
                                got: w,
                                expected: width,
                            },
                        ),
                    );
                }
                if t.kind != kind {
                    return Err(Error::Format(FileIssue::MixedKinds(t.name.clone())));
                }
                total = match total {
                    Some(n) => n.checked_add(rows),
                    None => None,
                };
            },
            Err(e) => {
                return Err(e);
            },
        }
        i += 1;
    }
    match total {
        Some(n) => Ok(n),
        None => Err(Error::Shape(ShapeFault::TooManyRows)),
    }
}

/// Appends one list to another.
pub(crate) fn extend<T: Copy>(list: &mut Vec<T>, more: &Vec<T>)
    ensures
        final(list)@ == old(list)@ + more@,
{
    let ghost before = list@;
    let mut i: usize = 0;
    while i < more.len()
        invariant
            i <= more@.len(),
            list@ == before + more@.take(i as int),
        decreases more@.len() - i,
    {
        list.push(more[i]);
        i += 1;
        assert(list@ =~= before + more@.take(i as int));
    }
    assert(more@.take(i as int) =~= more@);
}

/// Reads and joins the blobs of matrices packed in groups of 128.
fn join_int4(file: &[u8], list: &Vec<&TensorEntry>, rows: usize, width: usize) -> (r: Result<
    DeviceLinear,
    Error,
>)
    requires
        list@.len() > 0,
    ensures
        match unread(file@, entry_views(list@), required_blobs(TensorKind::Int4G128), 0) {
            Some(f) => r matches Err(e) && accounts(e, f),
            None => gives(
                r,
                assembled(file@, entry_views(list@), TensorKind::Int4G128, rows, width),
                |l: DeviceLinear, v: LinearView| l@ == v,
            ),
        },
{
    let ghost all = entry_views(list@);
    let ghost blobs = required_blobs(TensorKind::Int4G128);
    let mut qw: Vec<u32> = Vec::new();
    let mut sz: Vec<u32> = Vec::new();
    let mut i: usize = 0;
    while i < list.len()
        invariant
            i <= list@.len(),
            all == entry_views(list@),
            blobs == seq!["qw"@, "sz"@],
            unread(file@, all, blobs, 0) == unread(file@, all, blobs, i as int),
            qw@ == joined_words(file@, all, "qw"@, i as int),
            sz@ == joined_words(file@, all, "sz"@, i as int),
        decreases list@.len() - i,
    {
        let t = list[i];
        assert(all[i as int] == t@);
        proof {
            reveal_with_fuel(unread_blob, 3);
        }
        match blob_words(file, t, "qw") {
            Ok(v) => extend(&mut qw, &v),
            Err(e) => {
                return Err(e);
            },
        }
        match blob_words(file, t, "sz") {
            Ok(v) => extend(&mut sz, &v),
            Err(e) => {
                return Err(e);
            },
        }
        i += 1;
    }
    match QuantLinear::from_packed(qw.as_slice(), sz.as_slice(), width, rows) {
        Ok(_) => Ok(DeviceLinear::Int4 { qw, sz, in_features: width, out_features: rows }),
        Err(e) => Err(Error::Kernel(e)),
    }
}

/// Reads and joins the blobs of matrices in the hierarchical format.
fn join_hier(file: &[u8], list: &Vec<&TensorEntry>, rows: usize, width: usize) -> (r: Result<
    DeviceLinear,
    Error,
>)
    requires
        list@.len() > 0,
    ensures
        match unread(file@, entry_views(list@), required_blobs(TensorKind::Int4HierG32), 0) {
            Some(f) => r matches Err(e) && accounts(e, f),
            None => gives(
                r,
                assembled(file@, entry_views(list@), TensorKind::Int4HierG32, rows, width),
                |l: DeviceLinear, v: LinearView| l@ == v,
            ),
        },
{
    let ghost all = entry_views(list@);
    let ghost blobs = required_blobs(TensorKind::Int4HierG32);
    let mut qw: Vec<u32> = Vec::new();
    let mut si: Vec<u8> = Vec::new();
    let mut sb: Vec<u32> = Vec::new();
    let mut i: usize = 0;
    while i < list.len()
        invariant
            i <= list@.len(),
            all == entry_views(list@),
            blobs == seq!["qw"@, "si"@, "sb"@],
            unread(file@, all, blobs, 0) == unread(file@, all, blobs, i as int),
            qw@ == joined_words(file@, all, "qw"@, i as int),
            si@ == joined_bytes(file@, all, "si"@, i as int),
            sb@ == joined_words(file@, all, "sb"@, i as int),
        decreases list@.len() - i,
    {
        let t = list[i];
        assert(all[i as int] == t@);
        proof {
            reveal_with_fuel(unread_blob, 4);
        }
        match blob_words(file, t, "qw") {
            Ok(v) => extend(&mut qw, &v),
            Err(e) => {
                return Err(e);
            },
        }
        match blob_bytes(file, t, "si") {
            Ok(b) => {
                si.extend_from_slice(b);
                assert(si@ =~= joined_bytes(file@, all, "si"@, i + 1));
            },
            Err(e) => {
                return Err(e);
            },
        }
        match blob_words(file, t, "sb") {
            Ok(v) => extend(&mut sb, &v),
            Err(e) => {
                return Err(e);
            },
        }
        i += 1;
    }
    match QuantLinearHier::from_packed(qw.as_slice(), si.as_slice(), sb.as_slice(), width, rows) {
        Ok(_) => Ok(DeviceLinear::Int4Hier { qw, si, sb, in_features: width, out_features: rows }),
        Err(e) => Err(Error::Kernel(e)),
    }
}

/// Reads and joins the blobs of dense matrices.
fn join_fp16(file: &[u8], list: &Vec<&TensorEntry>, rows: usize, width: usize) -> (r: Result<
    DeviceLinear,
    Error,
>)
    requires
        list@.len() > 0,
    ensures
        match unread(file@, entry_views(list@), required_blobs(TensorKind::Fp16), 0) {
            Some(f) => r matches Err(e) && accounts(e, f),
            None => gives(
                r,
                assembled(file@, entry_views(list@), TensorKind::Fp16, rows, width),
                |l: DeviceLinear, v: LinearView| l@ == v,
            ),
        },
{
    let ghost all = entry_views(list@);
    let ghost blobs = required_blobs(TensorKind::Fp16);
    let mut w: Vec<u16> = Vec::new();
    let mut i: usize = 0;
    while i < list.len()
        invariant
            i <= list@.len(),
            all == entry_views(list@),
            blobs == seq!["data"@],
            unread(file@, all, blobs, 0) == unread(file@, all, blobs, i as int),
            w@ == joined_halves(file@, all, "data"@, i as int),
        decreases list@.len() - i,
    {
        let t = list[i];
        assert(all[i as int] == t@);
        proof {
            reveal_with_fuel(unread_blob, 2);
        }
        match blob_halves(file, t, "data") {
            Ok(v) => extend(&mut w, &v),
            Err(e) => {
                return Err(e);
            },
        }
        i += 1;
    }
    if !kernels::exactly(w.len(), rows, width) {
        assert(all[0] == list@[0]@);
        return Err(
            Error::Shape(ShapeFault::Elements { name: list[0].name.clone(), got: w.len() }),
        );
    }
    Ok(DeviceLinear::Fp16 { w, in_features: width, out_features: rows })
}

/// Joins several matrices along the output dimension.
///
/// They share the input width, being projections of the same stream, so this is
/// a plain append of rows. Nothing is requantized: the result is bit for bit
/// what running them separately would use.
pub fn fuse_linears(h: &Header, file: &[u8], names: &[String]) -> (r: Result<DeviceLinear, Error>)
    requires
        names@.len() > 0,
    ensures
        gives(
            r,
            fused(h@, file@, texts(names@)),
            |l: DeviceLinear, v: LinearView| l@ == v,
        ),
{
    let list = match find_all(h, names) {
        Ok(list) => list,
        Err(e) => {
            return Err(e);
        },
    };
    let ghost all = entry_views(list@);
    assert(all.len() == names@.len());
    let first = list[0];
    assert(all[0] == first@);
    let width: usize = match shape2(first) {
        Ok((_, w)) => w,
        Err(e) => {
            return Err(e);
        },
    };
    let kind = first.kind;
    let rows: usize = match count_rows(&list, width, kind) {
        Ok(n) => n,
        Err(e) => {
            return Err(e);
        },
    };
    match kind {
        TensorKind::Int4G128 => join_int4(file, &list, rows, width),
        TensorKind::Int4HierG32 => join_hier(file, &list, rows, width),
        TensorKind::Fp16 => join_fp16(file, &list, rows, width),
        TensorKind::Fp32 => Err(Error::Format(FileIssue::NotExecutable(first.name.clone()))),
    }
}

/// Reads one matrix.
pub fn load_linear(h: &Header, file: &[u8], name: &str) -> (r: Result<DeviceLinear, Error>)
    ensures
        gives(
            r,
            fused(h@, file@, seq![name@]),
            |l: DeviceLinear, v: LinearView| l@ == v,
        ),
{
    let mut names: Vec<String> = Vec::new();
    names.push(name.to_owned());
    assert(texts(names@) =~= seq![name@]);
    fuse_linears(h, file, names.as_slice())
}

} // verus!
