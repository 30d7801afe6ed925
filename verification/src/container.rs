//! The container, byte by byte.
//!
//! What a file holds where, and which files are accepted. The numbers are those of
//! the format: other programs read and write it too.

use vstd::prelude::*;

use crate::bytes::{halves_bytes, halves_round_trip, le32, le64, words_bytes, words_round_trip};
use crate::calls::packed_matrices_take_whole_units;
use crate::checksum::checksum;
use crate::format::{
    blob_fault, blob_index, blob_payload_fault, entry_fault, extra_fault, extra_payload_fault,
    frame_fault, framed, lemma_aligned_up, magic, missing_blob, payload_fault, prefix_bytes,
    prefix_has_its_length, range_fault, required_blobs, tensor_fault, tensor_index,
    tensor_payload_fault, ties_embeddings, Blob, EntryView, FormatIssue, HeaderView, TensorKind,
};
use crate::hier::PackedInt4Hier;
use crate::json::{member_index, JsonView};
use crate::layout::numbers_are_written_lowest_byte_first;
use crate::model::{assembled, blob_content, LinearView};
use crate::quant::PackedInt4;
use crate::writer::{
    after_extra, after_fp16, after_int4, after_int4_hier, next_offset, placed, placed_blob,
    WriterView,
};

verus! {

// ----------------------------------------------------------------- by name

/// Of several blobs, tensors or members of one name the first counts, and where
/// nothing is found there is none.
pub proof fn the_first_of_a_name_counts(
    blobs: Seq<(Seq<char>, Blob)>,
    tensors: Seq<EntryView>,
    members: Seq<(Seq<char>, JsonView)>,
    name: Seq<char>,
)
    ensures
        match blob_index(blobs, name, 0) {
            Some(i) => 0 <= i < blobs.len() && blobs[i].0 == name && forall|k: int|
                0 <= k < i ==> (#[trigger] blobs[k]).0 != name,
            None => forall|k: int| 0 <= k < blobs.len() ==> (#[trigger] blobs[k]).0 != name,
        },
        match tensor_index(tensors, name, 0) {
            Some(i) => 0 <= i < tensors.len() && tensors[i].name == name && forall|k: int|
                0 <= k < i ==> (#[trigger] tensors[k]).name != name,
            None => forall|k: int| 0 <= k < tensors.len() ==> (#[trigger] tensors[k]).name != name,
        },
        match member_index(members, name, 0) {
            Some(i) => 0 <= i < members.len() && members[i].0 == name && JsonView::Object(members).get(name)
                == Some(members[i].1) && forall|k: int| 0 <= k < i ==> (#[trigger] members[k]).0 != name,
            None => JsonView::Object(members).get(name) is None && forall|k: int|
                0 <= k < members.len() ==> (#[trigger] members[k]).0 != name,
        },
{
    lemma_blob_found(blobs, name, 0);
    lemma_tensor_found(tensors, name, 0);
    lemma_member_found(members, name, 0);
}

proof fn lemma_blob_found(blobs: Seq<(Seq<char>, Blob)>, name: Seq<char>, from: int)
    requires
        0 <= from,
    ensures
        match blob_index(blobs, name, from) {
            Some(i) => from <= i < blobs.len() && blobs[i].0 == name && forall|k: int|
                from <= k < i ==> (#[trigger] blobs[k]).0 != name,
            None => forall|k: int| from <= k < blobs.len() ==> (#[trigger] blobs[k]).0 != name,
        },
    decreases blobs.len() - from,
{
    if from < blobs.len() && blobs[from].0 != name {
        lemma_blob_found(blobs, name, from + 1);
    }
}

proof fn lemma_tensor_found(tensors: Seq<EntryView>, name: Seq<char>, from: int)
    requires
        0 <= from,
    ensures
        match tensor_index(tensors, name, from) {
            Some(i) => from <= i < tensors.len() && tensors[i].name == name && forall|k: int|
                from <= k < i ==> (#[trigger] tensors[k]).name != name,
            None => forall|k: int| from <= k < tensors.len() ==> (#[trigger] tensors[k]).name != name,
        },
    decreases tensors.len() - from,
{
    if from < tensors.len() && tensors[from].name != name {
        lemma_tensor_found(tensors, name, from + 1);
    }
}

proof fn lemma_member_found(members: Seq<(Seq<char>, JsonView)>, name: Seq<char>, from: int)
    requires
        0 <= from,
    ensures
        match member_index(members, name, from) {
            Some(i) => from <= i < members.len() && members[i].0 == name && forall|k: int|
                from <= k < i ==> (#[trigger] members[k]).0 != name,
            None => forall|k: int| from <= k < members.len() ==> (#[trigger] members[k]).0 != name,
        },
    decreases members.len() - from,
{
    if from < members.len() && members[from].0 != name {
        lemma_member_found(members, name, from + 1);
    }
}

/// A model ties its output projection to its embedding where its configuration
/// says so with a `true`, and not where it says anything else or nothing.
pub proof fn models_are_tied_that_say_so(members: Seq<(Seq<char>, JsonView)>, i: int)
    requires
        0 <= i < members.len(),
        members[i].0 == "tie_word_embeddings"@,
        forall|k: int| 0 <= k < members.len() && k != i ==> (#[trigger] members[k]).0
            != "tie_word_embeddings"@,
    ensures
        ties_embeddings(JsonView::Object(members)) <==> members[i].1 == JsonView::Bool(true),
        !ties_embeddings(JsonView::Object(members.remove(i))),
{
    lemma_member_found(members, "tie_word_embeddings"@, 0);
    let others = members.remove(i);
    lemma_member_found(others, "tie_word_embeddings"@, 0);
    if let Some(k) = member_index(others, "tie_word_embeddings"@, 0) {
        if k < i {
            assert(others[k] == members[k]);
        } else {
            assert(others[k] == members[k + 1]);
        }
    }
}

// ------------------------------------------------------------------ framing

/// The 32 bytes before a header: `WHETSTON`, the version, which is 1, four zeros,
/// the length of the header and its checksum, every number with its lowest byte
/// first.
pub proof fn the_prefix_has_its_places(json: Seq<u8>)
    requires
        json.len() <= u64::MAX,
    ensures
        ({
            let p = prefix_bytes(json);
            &&& p.len() == 32
            &&& p.take(8) == seq![0x57u8, 0x48, 0x45, 0x54, 0x53, 0x54, 0x4f, 0x4e]
            &&& p.subrange(8, 16) == seq![1u8, 0, 0, 0, 0, 0, 0, 0]
            &&& forall|i: int|
                0 <= i < 8 ==> #[trigger] p[16 + i] == (json.len() as u64 >> ((8 * i) as u64)) & 0xff
            &&& forall|i: int| 0 <= i < 8 ==> #[trigger] p[24 + i] == (checksum(json) >> ((8 * i) as u64)) & 0xff
        }),
{
    let p = prefix_bytes(json);
    prefix_has_its_length(json);
    assert(p.take(8) =~= seq![0x57u8, 0x48, 0x45, 0x54, 0x53, 0x54, 0x4f, 0x4e]);
    assert(p.subrange(8, 16) =~= seq![1u8, 0, 0, 0, 0, 0, 0, 0]);
    let len = json.len() as u64;
    assert forall|i: int| 0 <= i < 8 implies #[trigger] p[16 + i] == (len >> ((8 * i) as u64)) & 0xff by {
        numbers_are_written_lowest_byte_first(0, 0, len, i);
    }
    assert forall|i: int| 0 <= i < 8 implies #[trigger] p[24 + i] == (checksum(json) >> ((8 * i) as u64))
        & 0xff by {
        numbers_are_written_lowest_byte_first(0, 0, checksum(json), i);
    }
}

/// A header is found exactly where the bytes begin with `WHETSTON` and version 1,
/// the length at byte 16 stays within the bytes and the file, and the checksum at
/// byte 24 is that of the bytes from 32 on; and these bytes are the header.
pub proof fn headers_are_found_where_they_are(b: Seq<u8>, file_len: u64)
    ensures
        ({
            let len = le64(b.subrange(16, 24));
            let whole = 32 <= b.len() && b.take(8) == seq![0x57u8, 0x48, 0x45, 0x54, 0x53, 0x54, 0x4f, 0x4e]
                && le32(b.subrange(8, 12)) == 1 && 32 + len <= file_len && 32 + len <= b.len();
            &&& frame_fault(b, file_len) is None <==> whole && checksum(b.subrange(32, 32 + len)) == le64(
                b.subrange(24, 32),
            )
            &&& frame_fault(b, file_len) == Some(FormatIssue::HeaderChecksum) <==> whole && checksum(
                b.subrange(32, 32 + len),
            ) != le64(b.subrange(24, 32))
            &&& frame_fault(b, file_len) == Some(FormatIssue::TooShort) <==> b.len() < 32
            &&& whole ==> framed(b) == b.subrange(32, 32 + len)
        }),
{
    assert(magic() =~= seq![0x57u8, 0x48, 0x45, 0x54, 0x53, 0x54, 0x4f, 0x4e]);
}

// ------------------------------------------------------------------- ranges

/// The arrays of each format: words of levels and of scales for groups of 128;
/// words of levels, indices and words of scales for groups of 32; one array of
/// what is dense.
pub proof fn formats_have_their_arrays()
    ensures
        required_blobs(TensorKind::Int4G128).to_set() == set!["qw"@, "sz"@],
        required_blobs(TensorKind::Int4HierG32).to_set() == set!["qw"@, "si"@, "sb"@],
        required_blobs(TensorKind::Fp16).to_set() == set!["data"@],
        required_blobs(TensorKind::Fp32).to_set() == set!["data"@],
{
    let a = required_blobs(TensorKind::Int4G128);
    assert(a[0] == "qw"@ && a[1] == "sz"@);
    assert(a.to_set() =~= set!["qw"@, "sz"@]);
    let b = required_blobs(TensorKind::Int4HierG32);
    assert(b[0] == "qw"@ && b[1] == "si"@ && b[2] == "sb"@);
    assert(b.to_set() =~= set!["qw"@, "si"@, "sb"@]);
    let c = required_blobs(TensorKind::Fp16);
    assert(c[0] == "data"@);
    assert(c.to_set() =~= set!["data"@]);
    let d = required_blobs(TensorKind::Fp32);
    assert(d[0] == "data"@);
    assert(d.to_set() =~= set!["data"@]);
}

/// Whether a blob lies in a file of a length.
pub open spec fn lies_in(b: Blob, file_len: int) -> bool {
    b.offset + b.len <= file_len
}

/// Whether some list has a blob of a name.
pub open spec fn has_blob(blobs: Seq<(Seq<char>, Blob)>, name: Seq<char>) -> bool {
    exists|k: int| 0 <= k < blobs.len() && (#[trigger] blobs[k]).0 == name
}

/// Whether a tensor's blobs lie in a file, at multiples of 256, and its format's
/// arrays are among them.
pub open spec fn tensor_lies_in(e: EntryView, file_len: int) -> bool {
    &&& forall|i: int|
        0 <= i < e.blobs.len() ==> lies_in((#[trigger] e.blobs[i]).1, file_len) && e.blobs[i].1.offset % 256 == 0
    &&& match e.kind {
        TensorKind::Int4G128 => has_blob(e.blobs, "qw"@) && has_blob(e.blobs, "sz"@),
        TensorKind::Int4HierG32 => has_blob(e.blobs, "qw"@) && has_blob(e.blobs, "si"@) && has_blob(
            e.blobs,
            "sb"@,
        ),
        _ => has_blob(e.blobs, "data"@),
    }
}

/// A directory is accepted exactly where everything it lists lies in the file,
/// tensors at multiples of 256 and with the arrays of their formats.
pub proof fn directories_are_accepted_that_fit_the_file(h: HeaderView, file_len: u64)
    ensures
        range_fault(h, file_len) is None <==> (forall|i: int|
            0 <= i < h.extras.len() ==> lies_in((#[trigger] h.extras[i]).1, file_len as int)) && (forall|t: int|
            0 <= t < h.tensors.len() ==> tensor_lies_in(#[trigger] h.tensors[t], file_len as int)),
{
    lemma_extras(h.extras, file_len, 0);
    lemma_tensors(h.tensors, file_len, 0);
}

proof fn lemma_extras(extras: Seq<(Seq<char>, Blob)>, file_len: u64, from: int)
    requires
        0 <= from,
    ensures
        extra_fault(extras, file_len, from) is None <==> forall|i: int|
            from <= i < extras.len() ==> lies_in((#[trigger] extras[i]).1, file_len as int),
    decreases extras.len() - from,
{
    if from < extras.len() {
        lemma_extras(extras, file_len, from + 1);
        assert(lies_in(extras[from].1, file_len as int) <==> extras[from].1.offset + extras[from].1.len
            <= file_len);
    }
}

proof fn lemma_blobs(blobs: Seq<(Seq<char>, Blob)>, file_len: u64, t: int, from: int)
    requires
        0 <= from,
    ensures
        blob_fault(blobs, file_len, t, from) is None <==> forall|i: int|
            from <= i < blobs.len() ==> lies_in((#[trigger] blobs[i]).1, file_len as int)
                && blobs[i].1.offset % 256 == 0,
    decreases blobs.len() - from,
{
    if from < blobs.len() {
        lemma_blobs(blobs, file_len, t, from + 1);
        assert(lies_in(blobs[from].1, file_len as int) <==> blobs[from].1.offset + blobs[from].1.len <= file_len);
    }
}

proof fn lemma_missing(blobs: Seq<(Seq<char>, Blob)>, names: Seq<Seq<char>>, t: int, from: int)
    requires
        0 <= from,
    ensures
        missing_blob(blobs, names, t, from) is None <==> forall|i: int|
            from <= i < names.len() ==> has_blob(blobs, #[trigger] names[i]),
    decreases names.len() - from,
{
    if from < names.len() {
        lemma_missing(blobs, names, t, from + 1);
        lemma_blob_found(blobs, names[from], 0);
        assert(has_blob(blobs, names[from]) <==> blob_index(blobs, names[from], 0) is Some);
    }
}

proof fn lemma_entry(e: EntryView, file_len: u64, t: int)
    ensures
        entry_fault(e, file_len, t) is None <==> tensor_lies_in(e, file_len as int),
{
    let names = required_blobs(e.kind);
    lemma_blobs(e.blobs, file_len, t, 0);
    lemma_missing(e.blobs, names, t, 0);
    match e.kind {
        TensorKind::Int4G128 => {
            assert(names[0] == "qw"@ && names[1] == "sz"@);
        },
        TensorKind::Int4HierG32 => {
            assert(names[0] == "qw"@ && names[1] == "si"@ && names[2] == "sb"@);
        },
        TensorKind::Fp16 => {
            assert(names[0] == "data"@);
        },
        TensorKind::Fp32 => {
            assert(names[0] == "data"@);
        },
    }
}

proof fn lemma_tensors(tensors: Seq<EntryView>, file_len: u64, from: int)
    requires
        0 <= from,
    ensures
        tensor_fault(tensors, file_len, from) is None <==> forall|t: int|
            from <= t < tensors.len() ==> tensor_lies_in(#[trigger] tensors[t], file_len as int),
    decreases tensors.len() - from,
{
    if from < tensors.len() {
        lemma_entry(tensors[from], file_len, from);
        lemma_tensors(tensors, file_len, from + 1);
    }
}

/// Whether a file holds a blob as it is declared: all of it, with its checksum.
pub open spec fn held(file: Seq<u8>, b: Blob) -> bool {
    &&& b.offset + b.len <= file.len()
    &&& checksum(file.subrange(b.offset as int, b.offset + b.len)) == b.hash
}

/// A file passes exactly where it holds every payload as it is declared.
pub proof fn files_pass_that_hold_their_payloads(h: HeaderView, file: Seq<u8>)
    ensures
        payload_fault(h, file) is None <==> (forall|i: int|
            0 <= i < h.extras.len() ==> held(file, (#[trigger] h.extras[i]).1)) && (forall|t: int, i: int|
            0 <= t < h.tensors.len() && 0 <= i < h.tensors[t].blobs.len() ==> held(
                file,
                (#[trigger] h.tensors[t].blobs[i]).1,
            )),
{
    lemma_extras_held(h.extras, file, 0);
    lemma_tensors_held(h.tensors, file, 0);
}

proof fn lemma_extras_held(extras: Seq<(Seq<char>, Blob)>, file: Seq<u8>, from: int)
    requires
        0 <= from,
    ensures
        extra_payload_fault(extras, file, from) is None <==> forall|i: int|
            from <= i < extras.len() ==> held(file, (#[trigger] extras[i]).1),
    decreases extras.len() - from,
{
    if from < extras.len() {
        lemma_extras_held(extras, file, from + 1);
        let own = held(file, extras[from].1);
        assert(extra_payload_fault(extras, file, from) is None <==> own && extra_payload_fault(
            extras,
            file,
            from + 1,
        ) is None);
    }
}

proof fn lemma_blobs_held(blobs: Seq<(Seq<char>, Blob)>, file: Seq<u8>, t: int, from: int)
    requires
        0 <= from,
    ensures
        blob_payload_fault(blobs, file, t, from) is None <==> forall|i: int|
            from <= i < blobs.len() ==> held(file, (#[trigger] blobs[i]).1),
    decreases blobs.len() - from,
{
    if from < blobs.len() {
        lemma_blobs_held(blobs, file, t, from + 1);
        let own = held(file, blobs[from].1);
        assert(blob_payload_fault(blobs, file, t, from) is None <==> own && blob_payload_fault(
            blobs,
            file,
            t,
            from + 1,
        ) is None);
    }
}

proof fn lemma_tensors_held(tensors: Seq<EntryView>, file: Seq<u8>, from: int)
    requires
        0 <= from,
    ensures
        tensor_payload_fault(tensors, file, from) is None <==> forall|t: int, i: int|
            from <= t < tensors.len() && 0 <= i < tensors[t].blobs.len() ==> held(
                file,
                (#[trigger] tensors[t].blobs[i]).1,
            ),
    decreases tensors.len() - from,
{
    if from < tensors.len() {
        lemma_blobs_held(tensors[from].blobs, file, from, 0);
        lemma_tensors_held(tensors, file, from + 1);
        let all = forall|t: int, i: int|
            from <= t < tensors.len() && 0 <= i < tensors[t].blobs.len() ==> held(
                file,
                (#[trigger] tensors[t].blobs[i]).1,
            );
        if all {
            assert forall|i: int| 0 <= i < tensors[from].blobs.len() implies held(
                file,
                (#[trigger] tensors[from].blobs[i]).1,
            ) by {}
        }
    }
}

// ----------------------------------------------------------------- payloads

/// Bytes are laid out behind what is there, at the next multiple of 256, with
/// zeros up to it; and their blob says where they are, how many, and their
/// checksum.
pub proof fn payloads_are_laid_out_in_turn(w: WriterView, bytes: Seq<u8>)
    requires
        w.start + w.image.len() + bytes.len() + 256 <= u64::MAX,
    ensures
        ({
            let end = w.start + w.image.len();
            let b = placed_blob(w, bytes);
            let after = placed(w, bytes);
            let pad = b.offset - end;
            &&& b.offset % 256 == 0
            &&& 0 <= pad < 256
            &&& b.len == bytes.len()
            &&& b.hash == checksum(bytes)
            &&& after.start == w.start
            &&& after.entries == w.entries
            &&& after.extras == w.extras
            &&& after.image.len() == w.image.len() + pad + bytes.len()
            &&& after.image.take(w.image.len() as int) == w.image
            &&& forall|i: int| w.image.len() <= i < w.image.len() + pad ==> #[trigger] after.image[i] == 0
            &&& after.image.skip(w.image.len() + pad) == bytes
            &&& after.pending == w.pending + after.image.skip(w.image.len() as int)
        }),
{
    let end = w.start + w.image.len();
    lemma_aligned_up(end, 256);
    let b = placed_blob(w, bytes);
    let after = placed(w, bytes);
    let pad = b.offset - end;
    assert(next_offset(w) == b.offset);
    assert(after.image.take(w.image.len() as int) =~= w.image);
    assert(after.image.skip(w.image.len() + pad) =~= bytes);
    assert(after.pending =~= w.pending + after.image.skip(w.image.len() as int));
}

/// A matrix in groups of 128 is listed under its name with its rows and its width,
/// in this order, and has its levels under `qw` and its scales and zeros under
/// `sz`, four bytes to a word. Nothing that was listed before changes.
pub proof fn a_packed_matrix_is_listed(w: WriterView, name: Seq<char>, p: PackedInt4)
    requires
        w.start + w.image.len() + 4 * p.qw@.len() + 4 * p.sz@.len() + 512 <= u64::MAX,
    ensures
        ({
            let after = after_int4(w, name, p);
            let e = after.entries.last();
            let qw = words_bytes(p.qw@);
            let sz = words_bytes(p.sz@);
            &&& after.entries == w.entries.push(e)
            &&& e.name == name && e.kind == TensorKind::Int4G128
            &&& e.shape == seq![p.out_features, p.in_features]
            &&& e.blobs.len() == 2
            &&& e.blobs[0] == ("qw"@, placed_blob(w, qw)) && e.blobs[0].1.len == 4 * p.qw@.len()
            &&& e.blobs[1] == ("sz"@, placed_blob(placed(w, qw), sz)) && e.blobs[1].1.len == 4 * p.sz@.len()
            &&& after.image == placed(placed(w, qw), sz).image
        }),
{
    words_round_trip(p.qw@);
    words_round_trip(p.sz@);
    let after = after_int4(w, name, p);
    assert(after.entries =~= w.entries.push(after.entries.last()));
}

/// A matrix in groups of 32 is listed in the same way, with its levels under `qw`,
/// its indices under `si`, and the scales of its rows under `sb`.
pub proof fn a_hierarchical_matrix_is_listed(w: WriterView, name: Seq<char>, p: PackedInt4Hier)
    requires
        w.start + w.image.len() + 4 * p.qw@.len() + p.si@.len() + 4 * p.sb@.len() + 768 <= u64::MAX,
    ensures
        ({
            let after = after_int4_hier(w, name, p);
            let e = after.entries.last();
            let qw = words_bytes(p.qw@);
            let si = p.si@;
            let sb = words_bytes(p.sb@);
            &&& after.entries == w.entries.push(e)
            &&& e.name == name && e.kind == TensorKind::Int4HierG32
            &&& e.shape == seq![p.out_features, p.in_features]
            &&& e.blobs.len() == 3
            &&& e.blobs.contains(("qw"@, placed_blob(w, qw)))
            &&& e.blobs.contains(("si"@, placed_blob(placed(w, qw), si)))
            &&& e.blobs.contains(("sb"@, placed_blob(placed(placed(w, qw), si), sb)))
            &&& after.image == placed(placed(placed(w, qw), si), sb).image
        }),
{
    let after = after_int4_hier(w, name, p);
    let e = after.entries.last();
    assert(after.entries =~= w.entries.push(e));
    assert(e.blobs[0].0 == "qw"@);
    assert(e.blobs[1].0 == "sb"@);
    assert(e.blobs[2].0 == "si"@);
}

/// A dense tensor is listed under its name with its shape, and has its elements
/// under `data`, two bytes to each. What is no tensor is listed under its name and
/// is not among the tensors.
pub proof fn dense_tensors_and_extras_are_listed(
    w: WriterView,
    name: Seq<char>,
    data: Seq<u16>,
    shape: Seq<usize>,
    bytes: Seq<u8>,
)
    requires
        w.start + w.image.len() + 2 * data.len() + bytes.len() + 256 <= u64::MAX,
    ensures
        ({
            let after = after_fp16(w, name, data, shape);
            let e = after.entries.last();
            &&& after.entries == w.entries.push(e)
            &&& e.name == name && e.kind == TensorKind::Fp16 && e.shape == shape
            &&& e.blobs == seq![("data"@, placed_blob(w, halves_bytes(data)))]
            &&& e.blobs[0].1.len == 2 * data.len()
            &&& after.image == placed(w, halves_bytes(data)).image
        }),
        after_extra(w, name, bytes).entries == w.entries,
        after_extra(w, name, bytes).image == placed(w, bytes).image,
{
    halves_round_trip(data);
    let after = after_fp16(w, name, data, shape);
    assert(after.entries =~= w.entries.push(after.entries.last()));
}

// ------------------------------------------------------------------ loading

/// The bytes of a blob are those of the file from its offset on, as many as its
/// length says; and they are had exactly where the tensor has a blob of the name
/// that lies in the file.
pub proof fn a_blob_is_read_from_its_range(file: Seq<u8>, e: EntryView, k: int)
    requires
        0 <= k < e.blobs.len(),
        forall|i: int| 0 <= i < k ==> (#[trigger] e.blobs[i]).0 != e.blobs[k].0,
        file.len() <= u64::MAX,
    ensures
        ({
            let b = e.blobs[k].1;
            let read = blob_content(file, e, e.blobs[k].0);
            &&& read is Ok <==> lies_in(b, file.len() as int)
            &&& read matches Ok(bytes) ==> bytes.len() == b.len && forall|i: int|
                0 <= i < b.len ==> #[trigger] bytes[i] == file[b.offset + i]
        }),
{
    lemma_blob_found(e.blobs, e.blobs[k].0, 0);
}

/// A tensor that has no blob of a name gives none.
pub proof fn no_blob_is_made_up(file: Seq<u8>, e: EntryView, name: Seq<char>)
    requires
        !has_blob(e.blobs, name),
    ensures
        blob_content(file, e, name) is Err,
{
    lemma_blob_found(e.blobs, name, 0);
}

/// A matrix that loads has the rows and the width asked for, and arrays that fill
/// them: eight levels to a word; for groups of 128 a word of scale and zero to
/// each; for groups of 32 a byte of indices to each and a word of scales to each
/// row; or a dense element for every weight.
pub proof fn loaded_matrices_are_filled(
    file: Seq<u8>,
    entries: Seq<EntryView>,
    kind: TensorKind,
    rows: usize,
    width: usize,
)
    requires
        entries.len() > 0,
    ensures
        assembled(file, entries, kind, rows, width) matches Ok(m) ==> {
            &&& m.rows() == rows && m.width() == width
            &&& match m {
                LinearView::Int4 { qw, sz, .. } => kind == TensorKind::Int4G128 && width % 128 == 0 && qw.len() * 8
                    == rows * width && sz.len() * 128 == rows * width,
                LinearView::Int4Hier { qw, si, sb, .. } => kind == TensorKind::Int4HierG32 && width % 32 == 0
                    && qw.len() * 8 == rows * width && si.len() * 32 == rows * width && sb.len() == rows,
                LinearView::Fp16 { w, .. } => kind == TensorKind::Fp16 && w.len() == rows * width,
            }
        },
{
    if width % 32 == 0 {
        assert(width % 8 == 0);
        packed_matrices_take_whole_units(rows, width, 8);
        packed_matrices_take_whole_units(rows, width, 32);
    }
    if width % 128 == 0 {
        assert(width % 8 == 0);
        packed_matrices_take_whole_units(rows, width, 8);
        packed_matrices_take_whole_units(rows, width, 128);
    }
}

/// What a matrix streams is what it takes in a file.
pub proof fn a_matrix_streams_what_it_stores(m: LinearView)
    ensures
        m.streamed() == match m {
            LinearView::Int4 { qw, sz, .. } => words_bytes(qw).len() + words_bytes(sz).len(),
            LinearView::Int4Hier { qw, si, sb, .. } => words_bytes(qw).len() + si.len() + words_bytes(sb).len(),
            LinearView::Fp16 { w, .. } => halves_bytes(w).len(),
        },
{
    match m {
        LinearView::Int4 { qw, sz, .. } => {
            words_round_trip(qw);
            words_round_trip(sz);
        },
        LinearView::Int4Hier { qw, si, sb, .. } => {
            words_round_trip(qw);
            words_round_trip(sb);
        },
        LinearView::Fp16 { w, .. } => {
            halves_round_trip(w);
        },
    }
}

} // verus!
