//! What is written to a container is what is read from it.

use vstd::prelude::*;
use vstd::utf8::encode_utf8;

use crate::bytes::{halves_bytes, halves_round_trip, words_bytes, words_of, words_round_trip};
use crate::format::{blob_index, frame_fault, framed, framing_round_trips, lemma_aligned_up, payload_fault, prefix_bytes, prefix_has_its_length, product, range_fault, required_blobs, tensor_index, Blob, EntryView, HeaderView, TensorKind, ALIGN, PREFIX};
use crate::hier::PackedInt4Hier;
use crate::kernels::gemv::{packed_len, GROUP, HGROUP};
use crate::model::{assembled, blob_content, entries_of, entry_of, fused, join_fault, joined_bytes, joined_words, missing_from, rows_of, unread, unread_blob, LinearView, LoadFault};
use crate::quant::PackedInt4;
use crate::weights::dense;
use crate::names::{lemma_before_once, lemma_not_before, name_before};
use crate::writer::{after_extra, after_fp16, after_int4, after_int4_hier, all_sound, has_room, insert_entry, next_offset, placed, placed_blob, room_kept, sorted_entries, sorting_keeps_entries, what_is_written_checks_out, with_entry, zeros, WriterView};

verus! {

/// Whether a writer has gone on from one state to another: what was laid out is
/// still there, and what was recorded is still recorded.
pub open spec fn goes_on(w: WriterView, later: WriterView) -> bool {
    &&& later.reserve == w.reserve
    &&& later.start == w.start
    &&& w.image.len() <= later.image.len()
    &&& later.image.take(w.image.len() as int) == w.image
    &&& forall|e: EntryView| w.entries.contains(e) ==> #[trigger] later.entries.contains(e)
}

/// Whether no two tensors have the same name.
pub open spec fn distinct_names(entries: Seq<EntryView>) -> bool {
    forall|i: int, j: int|
        0 <= i < entries.len() && 0 <= j < entries.len() && (#[trigger] entries[i]).name == (
        #[trigger] entries[j]).name ==> i == j
}

/// Whether a file is what a writer laid out, with the directory of it.
pub open spec fn is_file_of(w: WriterView, h: HeaderView, file: Seq<u8>) -> bool {
    &&& h.tensors == sorted_entries(w.entries)
    &&& h.extras == w.extras
    &&& file.len() == w.start + w.image.len()
    &&& file.len() <= u64::MAX
    &&& file.skip(w.start as int) == w.image
}

/// The bytes of a file: the prefix and the header, zeros up to the payloads, and
/// the payloads.
pub open spec fn file_bytes(w: WriterView, json: Seq<u8>) -> Seq<u8> {
    prefix_bytes(json) + json + zeros(w.start - PREFIX - json.len()) + w.image
}

/// A header that fits what was set aside for it ends before the payloads begin.
/// The file made of both gives the header back, is what was laid out, and passes
/// every check.
pub proof fn a_framed_file_is_whole(w: WriterView, h: HeaderView, json: Seq<u8>)
    requires
        room_kept(w),
        all_sound(w),
        w.start + w.image.len() <= u64::MAX,
        h.tensors == sorted_entries(w.entries),
        h.extras == w.extras,
        json.len() <= w.reserve,
    ensures
        PREFIX + json.len() <= w.start,
        is_file_of(w, h, file_bytes(w, json)),
        frame_fault(file_bytes(w, json), file_bytes(w, json).len() as u64) is None,
        framed(file_bytes(w, json)) == json,
        range_fault(h, file_bytes(w, json).len() as u64) is None,
        payload_fault(h, file_bytes(w, json)) is None,
{
    let file = file_bytes(w, json);
    let rest = zeros(w.start - PREFIX - json.len()) + w.image;
    assert(file =~= prefix_bytes(json) + json + rest);
    prefix_has_its_length(json);
    assert(file.skip(w.start as int) =~= w.image);
    framing_round_trips(json, rest, file.len() as u64);
    what_is_written_checks_out(w, h, file);
}

/// Whether a blob holds some bytes.
spec fn holds(w: WriterView, b: Blob, bytes: Seq<u8>) -> bool {
    &&& w.start <= b.offset
    &&& b.len == bytes.len()
    &&& b.offset + b.len <= w.start + w.image.len()
    &&& w.image.subrange(b.offset - w.start, b.offset - w.start + b.len) == bytes
}

/// Laying out some bytes makes a blob that holds them.
proof fn lemma_placed_holds(w: WriterView, bytes: Seq<u8>)
    requires
        has_room(w, bytes.len(), 1),
    ensures
        holds(placed(w, bytes), placed_blob(w, bytes), bytes),
        placed(w, bytes).image.take(w.image.len() as int) == w.image,
        w.image.len() <= placed(w, bytes).image.len(),
        placed(w, bytes).start + placed(w, bytes).image.len() <= w.start + w.image.len()
            + bytes.len() + ALIGN,
{
    lemma_aligned_up(w.start + w.image.len(), ALIGN as int);
    let after = placed(w, bytes);
    let b = placed_blob(w, bytes);
    assert(b.offset == next_offset(w));
    assert(after.image.subrange(b.offset - w.start, b.offset - w.start + b.len) =~= bytes);
    assert(after.image.take(w.image.len() as int) =~= w.image);
}

/// A blob that holds some bytes still does when more is laid out.
proof fn lemma_still_holds(w: WriterView, later: WriterView, b: Blob, bytes: Seq<u8>)
    requires
        holds(w, b, bytes),
        later.start == w.start,
        w.image.len() <= later.image.len(),
        later.image.take(w.image.len() as int) == w.image,
    ensures
        holds(later, b, bytes),
{
    assert(later.image.subrange(b.offset - w.start, b.offset - w.start + b.len)
        =~= later.image.take(w.image.len() as int).subrange(
        b.offset - w.start,
        b.offset - w.start + b.len,
    ));
}

/// A blob that holds some bytes reads as them.
proof fn lemma_reads(w: WriterView, file: Seq<u8>, e: EntryView, which: Seq<char>, i: int, bytes: Seq<u8>)
    requires
        blob_index(e.blobs, which, 0) == Some(i),
        holds(w, e.blobs[i].1, bytes),
        file.len() == w.start + w.image.len(),
        file.len() <= u64::MAX,
        file.skip(w.start as int) == w.image,
    ensures
        blob_content(file, e, which) == Ok::<Seq<u8>, LoadFault>(bytes),
{
    let b = e.blobs[i].1;
    assert(file.subrange(b.offset as int, b.offset + b.len) =~= file.skip(
        w.start as int,
    ).subrange(b.offset - w.start, b.offset - w.start + b.len));
}

/// An entry with a name of its own is found by it.
proof fn lemma_found(entries: Seq<EntryView>, e: EntryView, i: int)
    requires
        0 <= i,
        exists|k: int| i <= k < entries.len() && entries[k] == e,
        forall|k: int| 0 <= k < entries.len() && (#[trigger] entries[k]).name == e.name
            ==> entries[k] == e,
    ensures
        tensor_index(entries, e.name, i) matches Some(k) && entries[k] == e,
    decreases entries.len() - i,
{
    let k = choose|k: int| i <= k < entries.len() && entries[k] == e;
    if entries[i].name != e.name {
        assert(i < k);
        lemma_found(entries, e, i + 1);
    }
}

/// In the directory of a file, an entry with a name of its own is found by it.
proof fn lemma_in_directory(w: WriterView, h: HeaderView, file: Seq<u8>, e: EntryView)
    requires
        is_file_of(w, h, file),
        w.entries.contains(e),
        distinct_names(w.entries),
    ensures
        tensor_index(h.tensors, e.name, 0) is Some,
        entry_of(h, e.name) == e,
{
    sorting_keeps_entries(w.entries);
    let s = sorted_entries(w.entries);
    assert(s.contains(e));
    let at = choose|k: int| 0 <= k < s.len() && s[k] == e;
    let j = choose|j: int| 0 <= j < w.entries.len() && w.entries[j] == e;
    assert forall|k: int| 0 <= k < s.len() && (#[trigger] s[k]).name == e.name implies s[k]
        == e by {
        assert(s.contains(s[k]));
        let m = choose|m: int| 0 <= m < w.entries.len() && w.entries[m] == s[k];
        assert(w.entries[m].name == w.entries[j].name);
    }
    assert(s[at] == e);
    lemma_found(s, e, 0);
}

/// One matrix by itself is joined from its own blobs.
proof fn lemma_alone(h: HeaderView, file: Seq<u8>, e: EntryView)
    requires
        tensor_index(h.tensors, e.name, 0) is Some,
        entry_of(h, e.name) == e,
        e.shape.len() == 2,
        e.kind != TensorKind::Fp32,
        unread_blob(file, e, required_blobs(e.kind), 0) is None,
    ensures
        fused(h, file, seq![e.name]) == assembled(
            file,
            seq![e],
            e.kind,
            e.shape[0],
            e.shape[1],
        ),
{
    let names = seq![e.name];
    reveal_with_fuel(missing_from, 2);
    assert(entries_of(h, names) =~= seq![e]);
    reveal_with_fuel(join_fault, 2);
    reveal_with_fuel(rows_of, 2);
    reveal_with_fuel(unread, 2);
}

/// A matrix packed in groups of 128 that is written to a file is read from it as
/// it was: the same words in the same order, whatever else is written later.
pub proof fn packed_matrices_survive(
    w: WriterView,
    name: Seq<char>,
    packed: PackedInt4,
    later: WriterView,
    h: HeaderView,
    file: Seq<u8>,
)
    requires
        packed.wf(),
        has_room(w, 4 * packed.qw@.len() + 4 * packed.sz@.len(), 2),
        goes_on(after_int4(w, name, packed), later),
        distinct_names(later.entries),
        is_file_of(later, h, file),
    ensures
        fused(h, file, seq![name]) == Ok::<LinearView, LoadFault>(
            LinearView::Int4 {
                qw: packed.qw@,
                sz: packed.sz@,
                in_features: packed.in_features as int,
                out_features: packed.out_features as int,
            },
        ),
{
    let e = lemma_int4_written(w, name, packed, later);
    lemma_in_directory(later, h, file, e);
    lemma_int4_reads(later, h, file, e, packed.qw@, packed.sz@);
    lemma_packed_len(packed.qw@.len() as int, packed.out_features, packed.in_features, 8);
    lemma_packed_len(packed.sz@.len() as int, packed.out_features, packed.in_features, GROUP);
}

/// Writing a matrix packed in groups of 128 records an entry whose blobs hold its
/// arrays.
#[verifier::rlimit(40)]
proof fn lemma_int4_written(
    w: WriterView,
    name: Seq<char>,
    packed: PackedInt4,
    later: WriterView,
) -> (e: EntryView)
    requires
        has_room(w, 4 * packed.qw@.len() + 4 * packed.sz@.len(), 2),
        goes_on(after_int4(w, name, packed), later),
    ensures
        later.entries.contains(e),
        e.name == name,
        e.kind == TensorKind::Int4G128,
        e.shape == seq![packed.out_features, packed.in_features],
        e.blobs.len() == 2,
        e.blobs[0].0 == "qw"@,
        e.blobs[1].0 == "sz"@,
        holds(later, e.blobs[0].1, words_bytes(packed.qw@)),
        holds(later, e.blobs[1].1, words_bytes(packed.sz@)),
{
    let qw = words_bytes(packed.qw@);
    let sz = words_bytes(packed.sz@);
    assert(qw.len() == 4 * packed.qw@.len() && sz.len() == 4 * packed.sz@.len()) by {
        words_round_trip(packed.qw@);
        words_round_trip(packed.sz@);
    }
    let w1 = placed(w, qw);
    let w2 = placed(w1, sz);
    lemma_two_placed(w, qw, sz);
    let written = after_int4(w, name, packed);
    let e = written.entries.last();
    assert(written.entries.contains(e));
    lemma_still_holds(w2, later, placed_blob(w, qw), qw);
    lemma_still_holds(w2, later, placed_blob(w1, sz), sz);
    e
}

/// An entry packed in groups of 128 whose blobs hold some arrays reads as them.
proof fn lemma_int4_reads(
    w: WriterView,
    h: HeaderView,
    file: Seq<u8>,
    e: EntryView,
    qw: Seq<u32>,
    sz: Seq<u32>,
)
    requires
        is_file_of(w, h, file),
        tensor_index(h.tensors, e.name, 0) is Some,
        entry_of(h, e.name) == e,
        e.kind == TensorKind::Int4G128,
        e.shape.len() == 2,
        e.blobs.len() == 2,
        e.blobs[0].0 == "qw"@,
        e.blobs[1].0 == "sz"@,
        holds(w, e.blobs[0].1, words_bytes(qw)),
        holds(w, e.blobs[1].1, words_bytes(sz)),
    ensures
        fused(h, file, seq![e.name]) == assembled(file, seq![e], e.kind, e.shape[0], e.shape[1]),
        joined_words(file, seq![e], "qw"@, 1) == qw,
        joined_words(file, seq![e], "sz"@, 1) == sz,
{
    words_round_trip(qw);
    words_round_trip(sz);
    reveal_strlit("qw");
    reveal_strlit("sz");
    assert("qw"@[0] != "sz"@[0]);
    assert(blob_index(e.blobs, "qw"@, 0) == Some(0int));
    assert(blob_index(e.blobs, "sz"@, 1) == Some(1int));
    assert(blob_index(e.blobs, "sz"@, 0) == Some(1int));
    lemma_reads(w, file, e, "qw"@, 0, words_bytes(qw));
    lemma_reads(w, file, e, "sz"@, 1, words_bytes(sz));
    assert(unread_blob(file, e, required_blobs(e.kind), 0) is None) by {
        reveal_with_fuel(unread_blob, 3);
    }
    lemma_alone(h, file, e);
    reveal_with_fuel(joined_words, 2);
    let one = seq![e];
    assert(joined_words(file, one, "qw"@, 1) =~= qw);
    assert(joined_words(file, one, "sz"@, 1) =~= sz);
}

/// The number of units a matrix takes.
proof fn lemma_packed_len(len: int, rows: usize, width: usize, per: usize)
    requires
        0 < per,
        len * per == width * rows,
    ensures
        packed_len(rows, width, per) == len,
{
    assert(rows * width / (per as int) == len) by (nonlinear_arith)
        requires
            0 < per,
            len * per == width * rows,
    ;
}

/// A matrix in the hierarchical format that is written to a file is read from it
/// as it was.
pub proof fn hierarchical_matrices_survive(
    w: WriterView,
    name: Seq<char>,
    packed: PackedInt4Hier,
    later: WriterView,
    h: HeaderView,
    file: Seq<u8>,
)
    requires
        packed.wf(),
        has_room(w, 4 * packed.qw@.len() + packed.si@.len() + 4 * packed.sb@.len(), 3),
        goes_on(after_int4_hier(w, name, packed), later),
        distinct_names(later.entries),
        is_file_of(later, h, file),
    ensures
        fused(h, file, seq![name]) == Ok::<LinearView, LoadFault>(
            LinearView::Int4Hier {
                qw: packed.qw@,
                si: packed.si@,
                sb: packed.sb@,
                in_features: packed.in_features as int,
                out_features: packed.out_features as int,
            },
        ),
{
    let e = lemma_hier_written(w, name, packed, later);
    lemma_in_directory(later, h, file, e);
    lemma_hier_reads(later, h, file, e, packed.qw@, packed.si@, packed.sb@);
    lemma_packed_len(packed.qw@.len() as int, packed.out_features, packed.in_features, 8);
    lemma_packed_len(packed.si@.len() as int, packed.out_features, packed.in_features, HGROUP);
}

/// Writing a matrix in the hierarchical format records an entry whose blobs hold
/// its arrays.
#[verifier::rlimit(40)]
proof fn lemma_hier_written(
    w: WriterView,
    name: Seq<char>,
    packed: PackedInt4Hier,
    later: WriterView,
) -> (e: EntryView)
    requires
        has_room(w, 4 * packed.qw@.len() + packed.si@.len() + 4 * packed.sb@.len(), 3),
        goes_on(after_int4_hier(w, name, packed), later),
    ensures
        later.entries.contains(e),
        e.name == name,
        e.kind == TensorKind::Int4HierG32,
        e.shape == seq![packed.out_features, packed.in_features],
        e.blobs.len() == 3,
        e.blobs[0].0 == "qw"@,
        e.blobs[1].0 == "sb"@,
        e.blobs[2].0 == "si"@,
        holds(later, e.blobs[0].1, words_bytes(packed.qw@)),
        holds(later, e.blobs[1].1, words_bytes(packed.sb@)),
        holds(later, e.blobs[2].1, packed.si@),
{
    let qw = words_bytes(packed.qw@);
    let si = packed.si@;
    let sb = words_bytes(packed.sb@);
    assert(qw.len() == 4 * packed.qw@.len() && sb.len() == 4 * packed.sb@.len()) by {
        words_round_trip(packed.qw@);
        words_round_trip(packed.sb@);
    }
    let w1 = placed(w, qw);
    let w2 = placed(w1, si);
    let w3 = placed(w2, sb);
    let written = after_int4_hier(w, name, packed);
    let e = written.entries.last();
    assert(later.entries.contains(e)) by {
        assert(written.entries.contains(e));
    }
    lemma_three_placed(w, qw, si, sb);
    lemma_still_holds(w3, later, placed_blob(w, qw), qw);
    lemma_still_holds(w3, later, placed_blob(w1, si), si);
    lemma_still_holds(w3, later, placed_blob(w2, sb), sb);
    e
}

/// Two blobs laid out one after another both hold their bytes.
proof fn lemma_two_placed(w: WriterView, a: Seq<u8>, b: Seq<u8>)
    requires
        has_room(w, a.len() + b.len(), 2),
    ensures
        ({
            let w1 = placed(w, a);
            let w2 = placed(w1, b);
            holds(w2, placed_blob(w, a), a) && holds(w2, placed_blob(w1, b), b)
        }),
{
    let w1 = placed(w, a);
    lemma_placed_holds(w, a);
    let w2 = placed(w1, b);
    lemma_placed_holds(w1, b);
    lemma_still_holds(w1, w2, placed_blob(w, a), a);
}

/// Three blobs laid out one after another all hold their bytes.
proof fn lemma_three_placed(w: WriterView, a: Seq<u8>, b: Seq<u8>, c: Seq<u8>)
    requires
        has_room(w, a.len() + b.len() + c.len(), 3),
    ensures
        ({
            let w1 = placed(w, a);
            let w2 = placed(w1, b);
            let w3 = placed(w2, c);
            &&& holds(w3, placed_blob(w, a), a)
            &&& holds(w3, placed_blob(w1, b), b)
            &&& holds(w3, placed_blob(w2, c), c)
        }),
{
    let w1 = placed(w, a);
    lemma_placed_holds(w, a);
    let w2 = placed(w1, b);
    lemma_placed_holds(w1, b);
    let w3 = placed(w2, c);
    lemma_placed_holds(w2, c);
    lemma_still_holds(w1, w2, placed_blob(w, a), a);
    lemma_still_holds(w2, w3, placed_blob(w, a), a);
    lemma_still_holds(w2, w3, placed_blob(w1, b), b);
}

/// An entry in the hierarchical format whose blobs hold some arrays reads as
/// them.
proof fn lemma_hier_reads(
    w: WriterView,
    h: HeaderView,
    file: Seq<u8>,
    e: EntryView,
    qw: Seq<u32>,
    si: Seq<u8>,
    sb: Seq<u32>,
)
    requires
        is_file_of(w, h, file),
        tensor_index(h.tensors, e.name, 0) is Some,
        entry_of(h, e.name) == e,
        e.kind == TensorKind::Int4HierG32,
        e.shape.len() == 2,
        e.blobs.len() == 3,
        e.blobs[0].0 == "qw"@,
        e.blobs[1].0 == "sb"@,
        e.blobs[2].0 == "si"@,
        holds(w, e.blobs[0].1, words_bytes(qw)),
        holds(w, e.blobs[1].1, words_bytes(sb)),
        holds(w, e.blobs[2].1, si),
    ensures
        fused(h, file, seq![e.name]) == assembled(file, seq![e], e.kind, e.shape[0], e.shape[1]),
        joined_words(file, seq![e], "qw"@, 1) == qw,
        joined_bytes(file, seq![e], "si"@, 1) == si,
        joined_words(file, seq![e], "sb"@, 1) == sb,
{
    words_round_trip(qw);
    words_round_trip(sb);
    reveal_strlit("qw");
    reveal_strlit("sb");
    reveal_strlit("si");
    assert("qw"@[0] != "sb"@[0]);
    assert("qw"@[0] != "si"@[0]);
    assert("sb"@[1] != "si"@[1]);
    assert(blob_index(e.blobs, "qw"@, 0) == Some(0int));
    assert(blob_index(e.blobs, "sb"@, 1) == Some(1int));
    assert(blob_index(e.blobs, "sb"@, 0) == Some(1int));
    assert(blob_index(e.blobs, "si"@, 2) == Some(2int));
    assert(blob_index(e.blobs, "si"@, 1) == Some(2int));
    assert(blob_index(e.blobs, "si"@, 0) == Some(2int));
    lemma_reads(w, file, e, "qw"@, 0, words_bytes(qw));
    lemma_reads(w, file, e, "sb"@, 1, words_bytes(sb));
    lemma_reads(w, file, e, "si"@, 2, si);
    assert(unread_blob(file, e, required_blobs(e.kind), 0) is None) by {
        reveal_with_fuel(unread_blob, 4);
    }
    lemma_alone(h, file, e);
    reveal_with_fuel(joined_words, 2);
    reveal_with_fuel(joined_bytes, 2);
    let one = seq![e];
    assert(joined_words(file, one, "qw"@, 1) =~= qw);
    assert(joined_bytes(file, one, "si"@, 1) =~= si);
    assert(joined_words(file, one, "sb"@, 1) =~= sb);
}

/// A dense tensor that is written to a file is read from it as it was.
pub proof fn dense_tensors_survive(
    w: WriterView,
    name: Seq<char>,
    data: Seq<u16>,
    shape: Seq<usize>,
    later: WriterView,
    h: HeaderView,
    file: Seq<u8>,
)
    requires
        data.len() == product(shape, shape.len() as int),
        has_room(w, 2 * data.len(), 1),
        goes_on(after_fp16(w, name, data, shape), later),
        distinct_names(later.entries),
        is_file_of(later, h, file),
    ensures
        dense(h, file, name) == Ok::<Seq<u16>, LoadFault>(data),
{
    let bytes = halves_bytes(data);
    halves_round_trip(data);
    let w1 = placed(w, bytes);
    lemma_placed_holds(w, bytes);
    let e = EntryView {
        name,
        kind: TensorKind::Fp16,
        shape,
        blobs: seq![("data"@, placed_blob(w, bytes))],
    };
    let written = with_entry(w1, e);
    assert(written.entries[written.entries.len() - 1] == e);
    assert(written.entries.contains(e));
    assert(later.entries.contains(e));
    lemma_still_holds(w1, later, placed_blob(w, bytes), bytes);
    lemma_in_directory(later, h, file, e);
    reveal_with_fuel(blob_index, 2);
    lemma_reads(later, file, e, "data"@, 0, bytes);
}

/// A payload that is no tensor, such as the tokenizer, is read from a file as it
/// was written, as long as no other is written under its name.
pub proof fn extras_survive(
    w: WriterView,
    name: Seq<char>,
    bytes: Seq<u8>,
    later: WriterView,
    h: HeaderView,
    file: Seq<u8>,
)
    requires
        has_room(w, bytes.len(), 1),
        goes_on(after_extra(w, name, bytes), later),
        later.extras.contains((name, placed_blob(w, bytes))),
        forall|i: int, j: int|
            0 <= i < later.extras.len() && 0 <= j < later.extras.len() && (
            #[trigger] later.extras[i]).0 == (#[trigger] later.extras[j]).0 ==> i == j,
        is_file_of(later, h, file),
    ensures
        blob_index(h.extras, name, 0) matches Some(i) && ({
            let b = h.extras[i].1;
            &&& b.offset + b.len <= file.len()
            &&& file.subrange(b.offset as int, b.offset + b.len) == bytes
        }),
{
    let w1 = placed(w, bytes);
    let b = placed_blob(w, bytes);
    lemma_placed_holds(w, bytes);
    lemma_still_holds(w1, later, b, bytes);
    let k = choose|k: int| 0 <= k < later.extras.len() && later.extras[k] == (name, b);
    lemma_extra_found(later.extras, k, 0);
    assert(file.subrange(b.offset as int, b.offset + b.len) =~= file.skip(
        later.start as int,
    ).subrange(b.offset - later.start, b.offset - later.start + b.len));
}

/// An extra with a name of its own is found by it.
proof fn lemma_extra_found(extras: Seq<(Seq<char>, Blob)>, k: int, i: int)
    requires
        0 <= i <= k < extras.len(),
        forall|i: int, j: int|
            0 <= i < extras.len() && 0 <= j < extras.len() && (#[trigger] extras[i]).0 == (
            #[trigger] extras[j]).0 ==> i == j,
    ensures
        blob_index(extras, extras[k].0, i) == Some(k),
    decreases k - i,
{
    if i < k {
        lemma_extra_found(extras, k, i + 1);
        assert(extras[i].0 != extras[k].0);
    }
}

/// Laying more out never disturbs what was laid out or recorded before.
pub proof fn writing_goes_on(
    w: WriterView,
    name: Seq<char>,
    int4: PackedInt4,
    hier: PackedInt4Hier,
    data: Seq<u16>,
    shape: Seq<usize>,
    extra: Seq<u8>,
)
    requires
        w.start + w.image.len() <= u64::MAX,
    ensures
        goes_on(w, after_int4(w, name, int4)),
        goes_on(w, after_int4_hier(w, name, hier)),
        goes_on(w, after_fp16(w, name, data, shape)),
        goes_on(w, after_extra(w, name, extra)),
{
    let a = words_bytes(int4.qw@);
    let b = words_bytes(int4.sz@);
    let a1 = placed(w, a);
    lemma_placed_goes_on(w, a);
    lemma_placed_goes_on(a1, b);
    going_on_is_transitive(w, a1, placed(a1, b));
    lemma_entry_goes_on(placed(a1, b), after_int4(w, name, int4).entries.last());
    going_on_is_transitive(w, placed(a1, b), after_int4(w, name, int4));
    let c = words_bytes(hier.qw@);
    let d = hier.si@;
    let e = words_bytes(hier.sb@);
    let c1 = placed(w, c);
    let c2 = placed(c1, d);
    let c3 = placed(c2, e);
    lemma_placed_goes_on(w, c);
    lemma_placed_goes_on(c1, d);
    lemma_placed_goes_on(c2, e);
    going_on_is_transitive(w, c1, c2);
    going_on_is_transitive(w, c2, c3);
    lemma_entry_goes_on(c3, after_int4_hier(w, name, hier).entries.last());
    going_on_is_transitive(w, c3, after_int4_hier(w, name, hier));
    let f = placed(w, halves_bytes(data));
    lemma_placed_goes_on(w, halves_bytes(data));
    lemma_entry_goes_on(f, after_fp16(w, name, data, shape).entries.last());
    going_on_is_transitive(w, f, after_fp16(w, name, data, shape));
    lemma_placed_goes_on(w, extra);
}

/// Going on twice is going on.
pub proof fn going_on_is_transitive(a: WriterView, b: WriterView, c: WriterView)
    requires
        goes_on(a, b),
        goes_on(b, c),
    ensures
        goes_on(a, c),
{
    assert(c.image.take(a.image.len() as int) =~= c.image.take(b.image.len() as int).take(
        a.image.len() as int,
    ));
    assert forall|e: EntryView| a.entries.contains(e) implies #[trigger] c.entries.contains(
        e,
    ) by {
        assert(b.entries.contains(e));
    }
}

proof fn lemma_placed_goes_on(w: WriterView, bytes: Seq<u8>)
    ensures
        goes_on(w, placed(w, bytes)),
{
    assert(placed(w, bytes).image.take(w.image.len() as int) =~= w.image);
}

proof fn lemma_entry_goes_on(w: WriterView, e: EntryView)
    ensures
        goes_on(w, with_entry(w, e)),
{
    let after = with_entry(w, e);
    assert(after.image.take(w.image.len() as int) =~= w.image);
    assert forall|x: EntryView| w.entries.contains(x) implies #[trigger] after.entries.contains(
        x,
    ) by {
        let k = choose|k: int| 0 <= k < w.entries.len() && w.entries[k] == x;
        assert(after.entries[k] == x);
    }
}

// ------------------------------------------------------------------- order

/// Whether no entry comes before one that stands ahead of it.
pub open spec fn in_order(entries: Seq<EntryView>) -> bool {
    forall|i: int, j: int|
        0 <= i < j < entries.len() ==> !name_before(
            (#[trigger] entries[j]).name,
            (#[trigger] entries[i]).name,
        )
}

/// The directory of a file is in the order of its names.
pub proof fn the_directory_is_sorted(list: Seq<EntryView>)
    ensures
        in_order(sorted_entries(list)),
    decreases list.len(),
{
    if list.len() > 0 {
        the_directory_is_sorted(list.drop_last());
        lemma_insert_in_order(sorted_entries(list.drop_last()), list.last());
    }
}

proof fn lemma_insert_in_order(list: Seq<EntryView>, e: EntryView)
    requires
        in_order(list),
    ensures
        in_order(insert_entry(list, e)),
        forall|k: int|
            0 <= k < insert_entry(list, e).len() ==> (#[trigger] insert_entry(list, e)[k]) == e
                || list.contains(insert_entry(list, e)[k]),
    decreases list.len(),
{
    let out = insert_entry(list, e);
    if list.len() > 0 {
        let front = list.drop_last();
        let last = list.last();
        if name_before(e.name, last.name) {
            assert(in_order(front)) by {
                assert forall|i: int, j: int| 0 <= i < j < front.len() implies !name_before(
                    (#[trigger] front[j]).name,
                    (#[trigger] front[i]).name,
                ) by {
                    assert(!name_before(list[j].name, list[i].name));
                }
            }
            lemma_insert_in_order(front, e);
            let sub = insert_entry(front, e);
            lemma_before_once(encode_utf8(e.name), encode_utf8(last.name));
            assert forall|k: int| 0 <= k < sub.len() implies !name_before(
                last.name,
                (#[trigger] sub[k]).name,
            ) by {
                if sub[k] != e {
                    let m = choose|m: int| 0 <= m < front.len() && front[m] == sub[k];
                    assert(list[m] == sub[k]);
                    assert(!name_before(list[list.len() - 1].name, list[m].name));
                }
            }
            assert forall|k: int| 0 <= k < out.len() implies (#[trigger] out[k]) == e
                || list.contains(out[k]) by {
                if k < sub.len() {
                    if sub[k] != e {
                        let m = choose|m: int| 0 <= m < front.len() && front[m] == sub[k];
                        assert(list[m] == out[k]);
                    }
                } else {
                    assert(list[list.len() - 1] == out[k]);
                }
            }
        } else {
            assert forall|i: int, j: int| 0 <= i < j < out.len() implies !name_before(
                (#[trigger] out[j]).name,
                (#[trigger] out[i]).name,
            ) by {
                if j == list.len() {
                    if i < list.len() - 1 {
                        assert(!name_before(list[list.len() - 1].name, list[i].name));
                        lemma_not_before(
                            encode_utf8(list[i].name),
                            encode_utf8(last.name),
                            encode_utf8(e.name),
                        );
                    }
                } else {
                    assert(!name_before(list[j].name, list[i].name));
                }
            }
            assert forall|k: int| 0 <= k < out.len() implies (#[trigger] out[k]) == e
                || list.contains(out[k]) by {
                if k < list.len() {
                    assert(list[k] == out[k]);
                }
            }
        }
    }
}

// ----------------------------------------------------------------- joining

/// The words of the first `n` matrices.
pub open spec fn words_before(file: Seq<u8>, entries: Seq<EntryView>, which: Seq<char>, n: int) ->
    nat {
    joined_words(file, entries, which, n).len()
}

/// Joined matrices are the matrices themselves, one behind the other: the words
/// of each stand in the joined one where those before it end.
pub proof fn joining_keeps_every_matrix(
    file: Seq<u8>,
    entries: Seq<EntryView>,
    which: Seq<char>,
    i: int,
    n: int,
)
    requires
        0 <= i < n <= entries.len(),
    ensures
        ({
            let all = joined_words(file, entries, which, n);
            let from = words_before(file, entries, which, i) as int;
            let own = words_of(blob_content(file, entries[i], which)->Ok_0);
            from + own.len() <= all.len() && all.subrange(from, from + own.len()) == own
        }),
    decreases n - i,
{
    let all = joined_words(file, entries, which, n);
    let from = words_before(file, entries, which, i) as int;
    let own = words_of(blob_content(file, entries[i], which)->Ok_0);
    if i == n - 1 {
        assert(all.subrange(from, from + own.len()) =~= own);
    } else {
        joining_keeps_every_matrix(file, entries, which, i, n - 1);
        let shorter = joined_words(file, entries, which, n - 1);
        assert(all.subrange(from, from + own.len()) =~= shorter.subrange(from, from + own.len()));
    }
}

} // verus!
