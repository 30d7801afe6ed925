//! Laying out a `.wstone` file.
//!
//! Tensors are laid out one at a time and the directory comes last, so writing a
//! model never needs the whole model in memory. The writer decides where every
//! blob goes and hands out the bytes to append; putting them on disk is the
//! caller's part.

use vstd::prelude::*;

use crate::bytes::{bytes_of_halves, bytes_of_words, halves_bytes, words_bytes};
use crate::checksum::{checksum, fnv1a};
use crate::format::{
    align_up, aligned_up, blob_bytes, blob_fault, blob_index, blob_payload_fault, blob_views,
    extra_fault, extra_payload_fault, lemma_aligned_up, missing_blob, payload_fault, product,
    product_fits, range_fault, required_blobs, shape_numel, tensor_fault, tensor_payload_fault,
    Blob, EntryView, Header, HeaderView, TensorEntry, TensorKind, ALIGN, PREFIX, VERSION,
};
use crate::hier::PackedInt4Hier;
use crate::json::{Json, JsonView};
use crate::names::{insert_named, lemma_put_values, name_before, name_precedes, named, put};
use crate::quant::{Error, PackedInt4, ShapeIssue};

verus! {

// -------------------------------------------------------- order of entries

/// Directory entries ordered by name, with one more behind those that do not
/// come after it.
pub open spec fn insert_entry(list: Seq<EntryView>, e: EntryView) -> Seq<EntryView>
    decreases list.len(),
{
    if list.len() == 0 {
        seq![e]
    } else if name_before(e.name, list.last().name) {
        insert_entry(list.drop_last(), e).push(list.last())
    } else {
        list.push(e)
    }
}

/// Directory entries in the order of their names; entries of one name keep the
/// order they had.
pub open spec fn sorted_entries(list: Seq<EntryView>) -> Seq<EntryView>
    decreases list.len(),
{
    if list.len() == 0 {
        seq![]
    } else {
        insert_entry(sorted_entries(list.drop_last()), list.last())
    }
}

/// What a list of entries says.
pub open spec fn entry_views(list: Seq<TensorEntry>) -> Seq<EntryView> {
    list.map_values(|t: TensorEntry| t@)
}

/// Orders directory entries by name.
fn sort_entries(list: Vec<TensorEntry>) -> (sorted: Vec<TensorEntry>)
    ensures
        entry_views(sorted@) == sorted_entries(entry_views(list@)),
{
    let ghost all = entry_views(list@);
    let mut out: Vec<TensorEntry> = Vec::new();
    assert(all.take(0) =~= seq![]);
    for item in it: list
        invariant
            it.seq() == list@,
            all == entry_views(list@),
            entry_views(out@) == sorted_entries(all.take(it.index() as int)),
    {
        let ghost before = entry_views(out@);
        let ghost one = item@;
        let mut at: usize = out.len();
        proof {
            assert(before.take(at as int) =~= before);
            assert(insert_entry(before, one) + before.skip(at as int) =~= insert_entry(before, one));
        }
        while at > 0 && name_precedes(item.name.as_str(), out[at - 1].name.as_str())
            invariant
                at <= out@.len(),
                before == entry_views(out@),
                one == item@,
                insert_entry(before, one) == insert_entry(before.take(at as int), one) + before.skip(
                    at as int,
                ),
            decreases at,
        {
            at = at - 1;
            proof {
                let upto = before.take(at + 1);
                assert(upto.last() == before[at as int]);
                assert(before[at as int] == out@[at as int]@);
                assert(upto.drop_last() =~= before.take(at as int));
                let placed = insert_entry(before.take(at as int), one);
                assert(placed.push(before[at as int]) + before.skip(at + 1) =~= placed + before.skip(at as int));
            }
        }
        out.insert(at, item);
        proof {
            let upto = before.take(at as int);
            if at > 0 {
                assert(upto.last() == before[at - 1]);
            }
            assert(insert_entry(upto, one) =~= upto.push(one));
            assert(entry_views(out@) =~= upto.push(one) + before.skip(at as int));
            let next = all.take(it.index() + 1);
            assert(next.drop_last() =~= all.take(it.index() as int));
            assert(next.last() == one);
        }
    }
    assert(all.take(all.len() as int) =~= all);
    out
}

// ----------------------------------------------------------------- the writer

/// What a writer has laid out so far.
#[verifier::ext_equal]
pub struct WriterView {
    /// The bytes set aside for the directory.
    pub reserve: u64,
    /// Where the payloads begin in the file.
    pub start: u64,
    /// The bytes of the file from there on.
    pub image: Seq<u8>,
    /// The bytes at the end of the image that have not been handed out yet.
    pub pending: Seq<u8>,
    pub entries: Seq<EntryView>,
    pub extras: Seq<(Seq<char>, Blob)>,
    pub quant: Seq<(Seq<char>, Seq<char>)>,
    pub config: JsonView,
}

/// Lays out a `.wstone` file.
pub struct Writer {
    reserve: u64,
    start: u64,
    cursor: u64,
    entries: Vec<TensorEntry>,
    extras: Vec<(String, Blob)>,
    model_config: Json,
    quant: Vec<(String, String)>,
    pending: Vec<u8>,
    image: Ghost<Seq<u8>>,
}

/// Where the next blob goes.
pub open spec fn next_offset(w: WriterView) -> int {
    aligned_up(w.start + w.image.len(), ALIGN as int)
}

/// The blob that some bytes become when they are laid out next.
pub open spec fn placed_blob(w: WriterView, bytes: Seq<u8>) -> Blob {
    Blob { offset: next_offset(w) as u64, len: bytes.len() as u64, hash: checksum(bytes) }
}

/// Zero bytes.
pub open spec fn zeros(n: int) -> Seq<u8> {
    Seq::new(n as nat, |i: int| 0u8)
}

/// The bytes that laying out a blob appends: padding, then its own.
pub open spec fn appended(w: WriterView, bytes: Seq<u8>) -> Seq<u8> {
    zeros(next_offset(w) - (w.start + w.image.len())) + bytes
}

/// What has been laid out once some bytes were laid out too.
pub open spec fn placed(w: WriterView, bytes: Seq<u8>) -> WriterView {
    WriterView {
        image: w.image + appended(w, bytes),
        pending: w.pending + appended(w, bytes),
        ..w
    }
}

/// What has been laid out, with one more directory entry.
pub open spec fn with_entry(w: WriterView, e: EntryView) -> WriterView {
    WriterView { entries: w.entries.push(e), ..w }
}

/// What has been laid out once a matrix packed in groups of 128 was written.
pub open spec fn after_int4(w: WriterView, name: Seq<char>, packed: PackedInt4) -> WriterView {
    let qw = words_bytes(packed.qw@);
    let sz = words_bytes(packed.sz@);
    let w1 = placed(w, qw);
    with_entry(
        placed(w1, sz),
        EntryView {
            name,
            kind: TensorKind::Int4G128,
            shape: seq![packed.out_features, packed.in_features],
            blobs: seq![("qw"@, placed_blob(w, qw)), ("sz"@, placed_blob(w1, sz))],
        },
    )
}

/// What has been laid out once a matrix in the hierarchical format was written.
pub open spec fn after_int4_hier(
    w: WriterView,
    name: Seq<char>,
    packed: PackedInt4Hier,
) -> WriterView {
    let qw = words_bytes(packed.qw@);
    let si = packed.si@;
    let sb = words_bytes(packed.sb@);
    let w1 = placed(w, qw);
    let w2 = placed(w1, si);
    with_entry(
        placed(w2, sb),
        EntryView {
            name,
            kind: TensorKind::Int4HierG32,
            shape: seq![packed.out_features, packed.in_features],
            blobs: seq![
                ("qw"@, placed_blob(w, qw)),
                ("sb"@, placed_blob(w2, sb)),
                ("si"@, placed_blob(w1, si)),
            ],
        },
    )
}

/// What has been laid out once a dense tensor was written.
pub open spec fn after_fp16(
    w: WriterView,
    name: Seq<char>,
    data: Seq<u16>,
    shape: Seq<usize>,
) -> WriterView {
    with_entry(
        placed(w, halves_bytes(data)),
        EntryView {
            name,
            kind: TensorKind::Fp16,
            shape,
            blobs: seq![("data"@, placed_blob(w, halves_bytes(data)))],
        },
    )
}

/// What has been laid out once a payload that is no tensor was written.
pub open spec fn after_extra(w: WriterView, name: Seq<char>, bytes: Seq<u8>) -> WriterView {
    let w1 = placed(w, bytes);
    WriterView { extras: put(w1.extras, name, placed_blob(w, bytes)), ..w1 }
}

/// Whether there is room for `n` more bytes and `k` paddings in a file.
pub open spec fn has_room(w: WriterView, n: nat, k: nat) -> bool {
    w.start + w.image.len() + n + k * ALIGN <= u64::MAX
}

/// Whether the payloads begin behind the room for the directory.
pub open spec fn room_kept(w: WriterView) -> bool {
    PREFIX + w.reserve <= w.start
}

/// Whether a blob lies in the payloads, aligned and with the right checksum.
pub open spec fn blob_sound(w: WriterView, b: Blob) -> bool {
    &&& w.start <= b.offset
    &&& b.offset + b.len <= w.start + w.image.len()
    &&& b.offset % ALIGN == 0
    &&& b.hash == checksum(w.image.subrange(b.offset - w.start, b.offset - w.start + b.len))
}

/// Whether an entry's blobs are sound and are those its kind requires.
pub open spec fn entry_sound(w: WriterView, e: EntryView) -> bool {
    &&& forall|i: int| 0 <= i < e.blobs.len() ==> blob_sound(w, (#[trigger] e.blobs[i]).1)
    &&& forall|k: int|
        0 <= k < required_blobs(e.kind).len() ==> blob_index(
            e.blobs,
            #[trigger] required_blobs(e.kind)[k],
            0,
        ) is Some
}

/// Whether everything a writer has recorded is sound.
pub open spec fn all_sound(w: WriterView) -> bool {
    &&& forall|t: int| 0 <= t < w.entries.len() ==> entry_sound(w, #[trigger] w.entries[t])
    &&& forall|i: int| 0 <= i < w.extras.len() ==> blob_sound(w, (#[trigger] w.extras[i]).1)
}

/// Laying out more bytes leaves what was recorded sound, and the new blob is too.
proof fn lemma_placed_sound(w: WriterView, bytes: Seq<u8>)
    requires
        all_sound(w),
        has_room(w, bytes.len(), 1),
    ensures
        all_sound(placed(w, bytes)),
        blob_sound(placed(w, bytes), placed_blob(w, bytes)),
        forall|b: Blob| #[trigger] blob_sound(w, b) ==> blob_sound(placed(w, bytes), b),
        placed(w, bytes).start + placed(w, bytes).image.len() <= w.start + w.image.len() + bytes.len() + ALIGN,
        has_room(w, bytes.len(), 1) ==> next_offset(w) <= u64::MAX,
{
    let after = placed(w, bytes);
    lemma_aligned_up(w.start + w.image.len(), ALIGN as int);
    assert forall|b: Blob| #[trigger] blob_sound(w, b) implies blob_sound(after, b) by {
        assert(after.image.subrange(b.offset - w.start, b.offset - w.start + b.len) =~= w.image.subrange(
            b.offset - w.start,
            b.offset - w.start + b.len,
        ));
    }
    assert forall|t: int| 0 <= t < after.entries.len() implies entry_sound(after, #[trigger] after.entries[t]) by {
        assert(entry_sound(w, w.entries[t]));
    }
    let b = placed_blob(w, bytes);
    assert(after.image.subrange(b.offset - w.start, b.offset - w.start + b.len) =~= bytes);
}

impl Writer {
    /// What has been laid out so far.
    pub closed spec fn view(&self) -> WriterView {
        WriterView {
            reserve: self.reserve,
            start: self.start,
            image: self.image@,
            pending: self.pending@,
            entries: entry_views(self.entries@),
            extras: blob_views(self.extras@),
            quant: self.quant@.map_values(|q: (String, String)| (q.0@, q.1@)),
            config: self.model_config@,
        }
    }

    /// The cursor stands at the end of the image, the payloads begin behind what
    /// was set aside, and everything recorded is sound.
    pub closed spec fn wf(&self) -> bool {
        &&& room_kept(self@)
        &&& self.cursor == self.start + self.image@.len()
        &&& all_sound(self@)
    }

    /// Everything a writer has recorded is sound, at any time.
    pub proof fn records_are_sound(&self)
        requires
            self.wf(),
        ensures
            all_sound(self@),
    {
    }

    /// The payloads begin behind the room for the directory, at any time.
    pub proof fn room_for_the_header_is_kept(&self)
        requires
            self.wf(),
        ensures
            room_kept(self@),
    {
    }

    /// Begins a file. `header_reserve` bytes are set aside for the directory,
    /// which is written last; payloads begin behind them.
    pub fn new(model_config: Json, header_reserve: u64) -> (w: Writer)
        requires
            PREFIX + header_reserve + ALIGN <= u64::MAX,
        ensures
            w.wf(),
            w@ == (WriterView {
                reserve: header_reserve,
                start: aligned_up(PREFIX + header_reserve, ALIGN as int) as u64,
                image: seq![],
                pending: seq![],
                entries: seq![],
                extras: seq![],
                quant: seq![],
                config: model_config@,
            }),
    {
        proof {
            lemma_aligned_up(PREFIX + header_reserve, ALIGN as int);
        }
        let start: u64 = align_up(PREFIX + header_reserve, ALIGN);
        let w = Writer {
            reserve: header_reserve,
            start,
            cursor: start,
            entries: Vec::new(),
            extras: Vec::new(),
            model_config,
            quant: Vec::new(),
            pending: Vec::new(),
            image: Ghost(Seq::empty()),
        };
        assert(w@.entries =~= seq![]);
        assert(w@.extras =~= seq![]);
        assert(w@.quant =~= seq![]);
        w
    }

    /// The bytes set aside for the directory.
    pub fn header_reserve(&self) -> (n: u64)
        ensures
            n == self@.reserve,
    {
        self.reserve
    }

    /// Where the payloads begin in the file.
    pub fn start(&self) -> (n: u64)
        ensures
            n == self@.start,
    {
        self.start
    }

    /// Whether there is room for some more bytes and blobs in a file.
    pub fn room_for(&self, bytes: usize, blobs: u64) -> (yes: bool)
        requires
            self.wf(),
        ensures
            yes == has_room(self@, bytes as nat, blobs as nat),
    {
        match blobs.checked_mul(ALIGN) {
            Some(padding) => match self.cursor.checked_add(bytes as u64) {
                Some(end) => end.checked_add(padding).is_some(),
                None => false,
            },
            None => false,
        }
    }

    /// Records a provenance key and value in the header.
    pub fn set_quant_meta(&mut self, key: &str, value: &str)
        requires
            old(self).wf(),
        ensures
            final(self).wf(),
            final(self)@ == (WriterView { quant: put(old(self)@.quant, key@, value@), ..old(self)@ }),
    {
        let ghost before = self@;
        insert_text(&mut self.quant, key.to_owned(), value.to_owned());
        assert(self@.quant == put(before.quant, key@, value@));
        assert(self@ =~= (WriterView { quant: put(before.quant, key@, value@), ..before }));
        proof {
            lemma_sound_frame(before, self@);
        }
    }

    /// Hands out the bytes that are to be appended to the file.
    pub fn take_pending(&mut self) -> (bytes: Vec<u8>)
        requires
            old(self).wf(),
        ensures
            final(self).wf(),
            bytes@ == old(self)@.pending,
            final(self)@ == (WriterView { pending: seq![], ..old(self)@ }),
    {
        let mut out: Vec<u8> = Vec::new();
        let ghost before = self@;
        std::mem::swap(&mut out, &mut self.pending);
        assert(self@ =~= (WriterView { pending: seq![], ..before }));
        proof {
            lemma_sound_frame(before, self@);
        }
        out
    }

    /// Lays out a blob.
    fn write_blob(&mut self, bytes: &[u8]) -> (b: Blob)
        requires
            old(self).wf(),
            has_room(old(self)@, bytes@.len(), 1),
        ensures
            final(self).wf(),
            b == placed_blob(old(self)@, bytes@),
            final(self)@ == placed(old(self)@, bytes@),
    {
        let ghost before = self@;
        proof {
            lemma_aligned_up(self.cursor as int, ALIGN as int);
            lemma_placed_sound(before, bytes@);
        }
        let offset: u64 = align_up(self.cursor, ALIGN);
        let pad: u64 = offset - self.cursor;
        let mut i: u64 = 0;
        while i < pad
            invariant
                i <= pad,
                self.pending@ == before.pending + zeros(i as int),
                self.image@ == before.image,
                self.reserve == before.reserve,
                self.start == before.start,
                self.cursor == before.start + before.image.len(),
                entry_views(self.entries@) == before.entries,
                blob_views(self.extras@) == before.extras,
                self.quant@.map_values(|q: (String, String)| (q.0@, q.1@)) == before.quant,
                self.model_config@ == before.config,
            decreases pad - i,
        {
            self.pending.push(0);
            i = i + 1;
            assert(self.pending@ =~= before.pending + zeros(i as int));
        }
        self.pending.extend_from_slice(bytes);
        let len: u64 = bytes.len() as u64;
        let hash: u64 = fnv1a(bytes);
        self.cursor = offset + len;
        self.image = Ghost(before.image + appended(before, bytes@));
        proof {
            assert(self.pending@ =~= before.pending + appended(before, bytes@));
            assert(self@ =~= placed(before, bytes@));
        }
        Blob { offset, len, hash }
    }

    /// Records a directory entry.
    fn push_entry(&mut self, e: TensorEntry)
        requires
            old(self).wf(),
            entry_sound(old(self)@, e@),
        ensures
            final(self).wf(),
            final(self)@ == with_entry(old(self)@, e@),
    {
        let ghost before = self@;
        let ghost said = e@;
        self.entries.push(e);
        proof {
            assert(self@.entries =~= before.entries.push(said));
            assert(self@ =~= with_entry(before, said));
            assert forall|t: int| 0 <= t < self@.entries.len() implies entry_sound(
                self@,
                #[trigger] self@.entries[t],
            ) by {
                if t < before.entries.len() {
                    assert(entry_sound(before, before.entries[t]));
                    lemma_entry_frame(before, self@, before.entries[t]);
                } else {
                    lemma_entry_frame(before, self@, said);
                }
            }
            assert forall|i: int| 0 <= i < self@.extras.len() implies blob_sound(
                self@,
                (#[trigger] self@.extras[i]).1,
            ) by {
                assert(blob_sound(before, before.extras[i].1));
            }
        }
    }

    /// Appends an int4 group-128 tensor.
    pub fn write_int4(&mut self, name: &str, packed: &PackedInt4)
        requires
            old(self).wf(),
            has_room(old(self)@, 4 * packed.qw@.len() + 4 * packed.sz@.len(), 2),
        ensures
            final(self).wf(),
            final(self)@ == after_int4(old(self)@, name@, *packed),
    {
        let qw_bytes = bytes_of_words(packed.qw.as_slice());
        let sz_bytes = bytes_of_words(packed.sz.as_slice());
        let ghost w0 = self@;
        proof {
            lemma_placed_sound(w0, qw_bytes@);
        }
        let qw = self.write_blob(qw_bytes.as_slice());
        let ghost w1 = self@;
        proof {
            lemma_placed_sound(w1, sz_bytes@);
        }
        let sz = self.write_blob(sz_bytes.as_slice());
        let e = TensorEntry {
            name: name.to_owned(),
            kind: TensorKind::Int4G128,
            shape: vec![packed.out_features, packed.in_features],
            blobs: vec![("qw".to_owned(), qw), ("sz".to_owned(), sz)],
        };
        proof {
            assert(e@.shape =~= seq![packed.out_features, packed.in_features]);
            assert(e@.blobs =~= seq![("qw"@, qw), ("sz"@, sz)]);
            reveal_with_fuel(blob_index, 3);
        }
        self.push_entry(e);
    }

    /// Appends an int4 hierarchical-scale tensor.
    pub fn write_int4_hier(&mut self, name: &str, packed: &PackedInt4Hier)
        requires
            old(self).wf(),
            has_room(old(self)@, 4 * packed.qw@.len() + packed.si@.len() + 4 * packed.sb@.len(), 3),
        ensures
            final(self).wf(),
            final(self)@ == after_int4_hier(old(self)@, name@, *packed),
    {
        let qw_bytes = bytes_of_words(packed.qw.as_slice());
        let sb_bytes = bytes_of_words(packed.sb.as_slice());
        let ghost w0 = self@;
        proof {
            lemma_placed_sound(w0, qw_bytes@);
        }
        let qw = self.write_blob(qw_bytes.as_slice());
        let ghost w1 = self@;
        proof {
            lemma_placed_sound(w1, packed.si@);
        }
        let si = self.write_blob(packed.si.as_slice());
        let ghost w2 = self@;
        proof {
            lemma_placed_sound(w2, sb_bytes@);
        }
        let sb = self.write_blob(sb_bytes.as_slice());
        let e = TensorEntry {
            name: name.to_owned(),
            kind: TensorKind::Int4HierG32,
            shape: vec![packed.out_features, packed.in_features],
            blobs: vec![("qw".to_owned(), qw), ("sb".to_owned(), sb), ("si".to_owned(), si)],
        };
        proof {
            assert(e@.shape =~= seq![packed.out_features, packed.in_features]);
            assert(e@.blobs =~= seq![("qw"@, qw), ("sb"@, sb), ("si"@, si)]);
            assert(blob_sound(w1, qw));
            assert(blob_sound(w2, qw) && blob_sound(w2, si));
            reveal_with_fuel(blob_index, 4);
        }
        self.push_entry(e);
    }

    /// Appends a dense fp16 tensor. `data` holds raw f16 bit patterns.
    pub fn write_fp16(&mut self, name: &str, data: &[u16], shape: &Vec<usize>) -> (r: Result<(), Error>)
        requires
            old(self).wf(),
            product_fits(shape@),
            has_room(old(self)@, 2 * data@.len(), 1),
        ensures
            final(self).wf(),
            r is Ok <==> data@.len() == product(shape@, shape@.len() as int),
            r matches Err(e) ==> e == Error::Shape(
                (ShapeIssue::Elements {
                    got: data@.len() as usize,
                    want: product(shape@, shape@.len() as int) as usize,
                }),
            ) && final(self)@ == old(self)@,
            r is Ok ==> final(self)@ == after_fp16(old(self)@, name@, data@, shape@),
    {
        let want: usize = shape_numel(shape);
        if data.len() != want {
            return Err(Error::Shape(ShapeIssue::Elements { got: data.len(), want }));
        }
        let bytes = bytes_of_halves(data);
        let ghost w0 = self@;
        proof {
            lemma_placed_sound(w0, bytes@);
        }
        let blob = self.write_blob(bytes.as_slice());
        let e = TensorEntry {
            name: name.to_owned(),
            kind: TensorKind::Fp16,
            shape: shape.clone(),
            blobs: vec![("data".to_owned(), blob)],
        };
        proof {
            assert(e@.shape =~= shape@);
            assert(e@.blobs =~= seq![("data"@, blob)]);
            reveal_with_fuel(blob_index, 2);
        }
        self.push_entry(e);
        Ok(())
    }

    /// Appends a non-tensor payload, such as the source `tokenizer.json`.
    pub fn write_extra(&mut self, name: &str, bytes: &[u8])
        requires
            old(self).wf(),
            has_room(old(self)@, bytes@.len(), 1),
        ensures
            final(self).wf(),
            final(self)@ == after_extra(old(self)@, name@, bytes@),
    {
        let ghost w0 = self@;
        proof {
            lemma_placed_sound(w0, bytes@);
        }
        let blob = self.write_blob(bytes);
        let ghost w1 = self@;
        insert_named(&mut self.extras, name.to_owned(), blob);
        proof {
            assert(named(self.extras@) =~= blob_views(self.extras@));
            assert(self@.extras == put(w1.extras, name@, blob));
            assert(self@ =~= (WriterView { extras: put(w1.extras, name@, blob), ..w1 }));
            lemma_put_members(w1.extras, name@, blob);
            assert forall|t: int| 0 <= t < self@.entries.len() implies entry_sound(
                self@,
                #[trigger] self@.entries[t],
            ) by {
                assert(entry_sound(w1, w1.entries[t]));
                lemma_entry_frame(w1, self@, w1.entries[t]);
            }
            assert forall|i: int| 0 <= i < self@.extras.len() implies blob_sound(
                self@,
                (#[trigger] self@.extras[i]).1,
            ) by {
                let m = self@.extras[i];
                if m.1 != blob {
                    let j = choose|j: int| 0 <= j < w1.extras.len() && w1.extras[j] == m;
                    assert(blob_sound(w1, w1.extras[j].1));
                } else {
                    assert(blob_sound(w1, blob));
                }
            }
        }
    }

    /// Closes the directory: the header of everything that was laid out, its
    /// tensors in the order of their names.
    pub fn finish(self) -> (h: Header)
        ensures
            h.format@ == "wstone"@,
            h.version == VERSION,
            h.producer@ == "whetstone-quant 0.5.0"@,
            h@ == (HeaderView {
                model_config: self@.config,
                quant: self@.quant,
                tensors: sorted_entries(self@.entries),
                extras: self@.extras,
            }),
    {
        let tensors = sort_entries(self.entries);
        let h = Header {
            format: "wstone".to_owned(),
            version: VERSION,
            producer: "whetstone-quant 0.5.0".to_owned(),
            model_config: self.model_config,
            quant: self.quant,
            tensors,
            extras: self.extras,
        };
        assert(h@.tensors =~= entry_views(tensors@));
        h
    }
}

proof fn lemma_put_members(list: Seq<(Seq<char>, Blob)>, key: Seq<char>, value: Blob)
    ensures
        forall|i: int|
            0 <= i < put(list, key, value).len() ==> (#[trigger] put(list, key, value)[i]).1 == value
                || list.contains(put(list, key, value)[i]),
    decreases list.len(),
{
    let out = put(list, key, value);
    if list.len() > 0 {
        let tail = list.drop_first();
        lemma_put_members(tail, key, value);
        assert forall|i: int| 0 <= i < out.len() implies (#[trigger] out[i]).1 == value || list.contains(
            out[i],
        ) by {
            if name_before(list[0].0, key) {
                if i == 0 {
                    assert(out[0] == list[0]);
                } else {
                    let sub = put(tail, key, value);
                    assert(out[i] == sub[i - 1]);
                    if sub[i - 1].1 != value {
                        let j = choose|j: int| 0 <= j < tail.len() && tail[j] == sub[i - 1];
                        assert(list[j + 1] == out[i]);
                    }
                }
            } else if i > 0 {
                if list[0].0 == key {
                    assert(out[i] == list[i]);
                } else {
                    assert(out[i] == list[i - 1]);
                }
            }
        }
    }
}

/// What is recorded stays sound while the image does not change.
proof fn lemma_entry_frame(a: WriterView, b: WriterView, e: EntryView)
    requires
        a.start == b.start,
        a.image == b.image,
        entry_sound(a, e),
    ensures
        entry_sound(b, e),
{
    assert forall|i: int| 0 <= i < e.blobs.len() implies blob_sound(b, (#[trigger] e.blobs[i]).1) by {
        assert(blob_sound(a, e.blobs[i].1));
    }
}

proof fn lemma_sound_frame(a: WriterView, b: WriterView)
    requires
        a.start == b.start,
        a.image == b.image,
        a.entries == b.entries,
        a.extras == b.extras,
        all_sound(a),
    ensures
        all_sound(b),
{
    assert forall|t: int| 0 <= t < b.entries.len() implies entry_sound(b, #[trigger] b.entries[t]) by {
        assert(entry_sound(a, a.entries[t]));
        lemma_entry_frame(a, b, a.entries[t]);
    }
    assert forall|i: int| 0 <= i < b.extras.len() implies blob_sound(b, (#[trigger] b.extras[i]).1) by {
        assert(blob_sound(a, a.extras[i].1));
    }
}

/// Puts a text into a list of texts ordered by name.
fn insert_text(list: &mut Vec<(String, String)>, key: String, value: String)
    ensures
        final(list)@.map_values(|q: (String, String)| (q.0@, q.1@)) == put(
            old(list)@.map_values(|q: (String, String)| (q.0@, q.1@)),
            key@,
            value@,
        ),
{
    let ghost before = named(list@);
    let ghost said = list@.map_values(|q: (String, String)| (q.0@, q.1@));
    let ghost k = key@;
    let ghost v = value;
    insert_named(list, key, value);
    proof {
        let text = |t: String| t@;
        lemma_put_values(before, k, v, text);
        assert(before.map_values(|m: (Seq<char>, String)| (m.0, text(m.1))) =~= said);
        assert(list@.map_values(|q: (String, String)| (q.0@, q.1@)) =~= named(list@).map_values(
            |m: (Seq<char>, String)| (m.0, text(m.1)),
        ));
    }
}

proof fn lemma_insert_members(list: Seq<EntryView>, e: EntryView)
    ensures
        insert_entry(list, e).to_multiset() == list.to_multiset().insert(e),
    decreases list.len(),
{
    broadcast use vstd::seq_lib::group_to_multiset_ensures;

    if list.len() == 0 {
        assert(insert_entry(list, e) =~= list.push(e));
    } else if name_before(e.name, list.last().name) {
        let front = list.drop_last();
        lemma_insert_members(front, e);
        assert(list =~= front.push(list.last()));
        assert(front.to_multiset().insert(e).insert(list.last()) =~= front.to_multiset().insert(
            list.last(),
        ).insert(e));
    }
}

/// Ordering directory entries adds none and drops none.
pub proof fn sorting_keeps_entries(list: Seq<EntryView>)
    ensures
        sorted_entries(list).to_multiset() == list.to_multiset(),
        forall|e: EntryView| #[trigger] sorted_entries(list).contains(e) <==> list.contains(e),
    decreases list.len(),
{
    broadcast use vstd::seq_lib::group_to_multiset_ensures;

    if list.len() > 0 {
        let front = list.drop_last();
        sorting_keeps_entries(front);
        lemma_insert_members(sorted_entries(front), list.last());
        assert(list =~= front.push(list.last()));
    } else {
        assert(sorted_entries(list) =~= list);
    }
    assert forall|e: EntryView| #[trigger] sorted_entries(list).contains(e) <==> list.contains(e) by {
        assert(sorted_entries(list).to_multiset().count(e) == list.to_multiset().count(e));
    }
}

proof fn lemma_blobs_check(
    w: WriterView,
    blobs: Seq<(Seq<char>, Blob)>,
    file: Seq<u8>,
    t: int,
    i: int,
)
    requires
        0 <= i,
        forall|k: int| 0 <= k < blobs.len() ==> blob_sound(w, (#[trigger] blobs[k]).1),
        file.len() == w.start + w.image.len(),
        file.len() <= u64::MAX,
        file.skip(w.start as int) == w.image,
    ensures
        blob_fault(blobs, file.len() as u64, t, i) is None,
        extra_fault(blobs, file.len() as u64, i) is None,
        blob_payload_fault(blobs, file, t, i) is None,
        extra_payload_fault(blobs, file, i) is None,
    decreases blobs.len() - i,
{
    if i < blobs.len() {
        let b = blobs[i].1;
        assert(blob_sound(w, b));
        assert(blob_bytes(file, b) =~= file.skip(w.start as int).subrange(
            b.offset - w.start,
            b.offset - w.start + b.len,
        ));
        lemma_blobs_check(w, blobs, file, t, i + 1);
    }
}

proof fn lemma_none_missing(blobs: Seq<(Seq<char>, Blob)>, names: Seq<Seq<char>>, t: int, i: int)
    requires
        0 <= i,
        forall|k: int| 0 <= k < names.len() ==> blob_index(blobs, #[trigger] names[k], 0) is Some,
    ensures
        missing_blob(blobs, names, t, i) is None,
    decreases names.len() - i,
{
    if i < names.len() {
        assert(blob_index(blobs, names[i], 0) is Some);
        lemma_none_missing(blobs, names, t, i + 1);
    }
}

proof fn lemma_tensors_check(w: WriterView, tensors: Seq<EntryView>, file: Seq<u8>, t: int)
    requires
        0 <= t,
        forall|k: int| 0 <= k < tensors.len() ==> entry_sound(w, #[trigger] tensors[k]),
        file.len() == w.start + w.image.len(),
        file.len() <= u64::MAX,
        file.skip(w.start as int) == w.image,
    ensures
        tensor_fault(tensors, file.len() as u64, t) is None,
        tensor_payload_fault(tensors, file, t) is None,
    decreases tensors.len() - t,
{
    if t < tensors.len() {
        let e = tensors[t];
        assert(entry_sound(w, e));
        lemma_blobs_check(w, e.blobs, file, t, 0);
        lemma_none_missing(e.blobs, required_blobs(e.kind), t, 0);
        lemma_tensors_check(w, tensors, file, t + 1);
    }
}

/// A file that was written passes every check: with the payloads in their place,
/// the header's ranges lie in the file and every checksum matches.
pub proof fn what_is_written_checks_out(w: WriterView, h: HeaderView, file: Seq<u8>)
    requires
        all_sound(w),
        h.tensors == sorted_entries(w.entries),
        h.extras == w.extras,
        file.len() == w.start + w.image.len(),
        file.len() <= u64::MAX,
        file.skip(w.start as int) == w.image,
    ensures
        range_fault(h, file.len() as u64) is None,
        payload_fault(h, file) is None,
{
    sorting_keeps_entries(w.entries);
    assert forall|k: int| 0 <= k < h.tensors.len() implies entry_sound(w, #[trigger] h.tensors[k]) by {
        assert(sorted_entries(w.entries).contains(h.tensors[k]));
        let j = choose|j: int| 0 <= j < w.entries.len() && w.entries[j] == h.tensors[k];
        assert(entry_sound(w, w.entries[j]));
    }
    lemma_blobs_check(w, h.extras, file, 0, 0);
    lemma_tensors_check(w, h.tensors, file, 0);
}

} // verus!
