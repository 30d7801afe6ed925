//! What a checkpoint's files say.
//!
//! The format is not this project's own: these are its names, its widths and its
//! places, and what is made of them.

use vstd::prelude::*;
use vstd::utf8::valid_utf8;

use crate::bytes::{le64, le64_bytes, le_round_trip};
use crate::checkpoint::{
    astray, file_index, owner_index, routes, shard_files, unnamed, weight_map, CheckpointView,
    ShardPlanView,
};
use crate::error::FileIssue;
use crate::format::{product, product_fits};
use crate::json::JsonView;
use crate::safetensors::{
    apart, bf16_widened, data_start_of, dtype_of, entry_fault, entry_of, file_fault, first_overlap,
    header_bytes, in_order, located, metadata_of, overlap_first, sizes_sum, spec_index_of, tensors_of, text_map, widens, Dtype,
    RawEntryView, TensorSpec,
};

verus! {

// ------------------------------------------------------------ element types

proof fn lemma_type_names_differ()
    ensures
        "F16"@.len() == 3 && "F16"@[0] == 'F' && "F16"@[1] == '1',
        "BF16"@.len() == 4 && "BF16"@[1] == 'F',
        "F32"@.len() == 3 && "F32"@[0] == 'F' && "F32"@[1] == '3',
        "I8"@.len() == 2 && "I8"@[0] == 'I',
        "U8"@.len() == 2 && "U8"@[0] == 'U',
        "I32"@.len() == 3 && "I32"@[0] == 'I' && "I32"@[1] == '3',
        "I64"@.len() == 3 && "I64"@[0] == 'I' && "I64"@[1] == '6',
        "BOOL"@.len() == 4 && "BOOL"@[1] == 'O',
{
    reveal_strlit("F16");
    reveal_strlit("BF16");
    reveal_strlit("F32");
    reveal_strlit("I8");
    reveal_strlit("U8");
    reveal_strlit("I32");
    reveal_strlit("I64");
    reveal_strlit("BOOL");
}

/// Every element type has its own name, and no other name is one.
pub proof fn element_types_have_their_names(s: Seq<char>)
    ensures
        dtype_of(s) == Some(Dtype::F16) <==> s == "F16"@,
        dtype_of(s) == Some(Dtype::BF16) <==> s == "BF16"@,
        dtype_of(s) == Some(Dtype::F32) <==> s == "F32"@,
        dtype_of(s) == Some(Dtype::I8) <==> s == "I8"@,
        dtype_of(s) == Some(Dtype::U8) <==> s == "U8"@,
        dtype_of(s) == Some(Dtype::I32) <==> s == "I32"@,
        dtype_of(s) == Some(Dtype::I64) <==> s == "I64"@,
        dtype_of(s) == Some(Dtype::Bool) <==> s == "BOOL"@,
{
    lemma_type_names_differ();
}

/// A type takes as many bytes as its name has bits, eight to a byte, and a truth
/// value takes one; those of 64 bits and truth values cannot be read as 32-bit
/// floats, all others can.
pub proof fn element_types_have_their_widths(d: Dtype)
    ensures
        8 * d.width() == match d {
            Dtype::F16 | Dtype::BF16 => 16,
            Dtype::F32 | Dtype::I32 => 32,
            Dtype::I64 => 64,
            Dtype::I8 | Dtype::U8 | Dtype::Bool => 8int,
        },
        widens(d) <==> d == Dtype::F16 || d == Dtype::BF16 || d == Dtype::F32 || d == Dtype::I8 || d == Dtype::U8
            || d == Dtype::I32,
{
}

/// A bfloat16 is the top half of the float it stands for; the bottom half is zero.
pub proof fn a_bfloat_is_the_top_half(bits: u16)
    ensures
        bf16_widened(bits) >> 16u32 == bits,
        bf16_widened(bits) & 0xffff == 0,
{
    let w = bf16_widened(bits);
    assert(w == bits * 0x1_0000);
    assert(w >> 16u32 == w / 0x1_0000 && w & 0xffff == w % 0x1_0000) by (bit_vector);
}

// ------------------------------------------------------------------ entries

/// Whether a list of numbers states these sizes.
pub open spec fn states_sizes(numbers: Seq<JsonView>, sizes: Seq<usize>) -> bool {
    &&& numbers.len() == sizes.len()
    &&& forall|i: int| 0 <= i < numbers.len() ==> (#[trigger] numbers[i]) == JsonView::Number(Some(sizes[i] as u64))
}

proof fn lemma_sizes(numbers: Seq<JsonView>, sizes: Seq<usize>)
    requires
        states_sizes(numbers, sizes),
    ensures
        crate::safetensors::sizes_of(JsonView::Array(numbers)) == Some(sizes),
{
    assert(crate::safetensors::sizes(numbers)->0 =~= sizes);
}

/// An entry states its type under `dtype`, its dimensions under `shape` and its
/// range under `data_offsets`, first where it begins and then where it ends; or
/// all three in this order without names.
pub proof fn an_entry_states_type_shape_and_range(
    entry: JsonView,
    dtype: Seq<char>,
    dims: Seq<JsonView>,
    shape: Seq<usize>,
    begin: usize,
    end: usize,
)
    requires
        states_sizes(dims, shape),
        entry is Object,
        entry.get("dtype"@) == Some(JsonView::Text(dtype)),
        entry.get("shape"@) == Some(JsonView::Array(dims)),
        entry.get("data_offsets"@) == Some(
            JsonView::Array(
                seq![JsonView::Number(Some(begin as u64)), JsonView::Number(Some(end as u64))],
            ),
        ),
    ensures
        entry_of(entry) == Some(RawEntryView { dtype, shape, begin, end }),
        entry_of(
            JsonView::Array(
                seq![
                    JsonView::Text(dtype),
                    JsonView::Array(dims),
                    JsonView::Array(
                        seq![JsonView::Number(Some(begin as u64)), JsonView::Number(Some(end as u64))],
                    ),
                ],
            ),
        ) == Some(RawEntryView { dtype, shape, begin, end }),
{
    let range = seq![JsonView::Number(Some(begin as u64)), JsonView::Number(Some(end as u64))];
    lemma_sizes(dims, shape);
    lemma_sizes(range, seq![begin, end]);
}

/// An entry that lacks a part states nothing.
pub proof fn an_entry_needs_all_parts(entry: JsonView)
    requires
        entry is Object,
        entry.get("dtype"@) is None || entry.get("shape"@) is None || entry.get("data_offsets"@) is None,
    ensures
        entry_of(entry) is None,
{
}

/// An entry is accepted exactly where its range runs forward, stays in the data,
/// and has as many bytes as its dimensions and its type call for.
pub proof fn entries_are_accepted_that_fill_their_range(entry: JsonView, data_len: int, e: RawEntryView, d: Dtype)
    requires
        entry_of(entry) == Some(e),
        dtype_of(e.dtype) == Some(d),
        data_len <= usize::MAX,
    ensures
        entry_fault(entry, data_len) is None <==> e.begin <= e.end <= data_len && product_fits(e.shape) && e.end
            == e.begin + product(e.shape, e.shape.len() as int) * d.width(),
{
}

/// A tensor has the name of its entry, and the range that its entry states behind
/// the header.
pub proof fn tensors_lie_behind_the_header(name: Seq<char>, entry: JsonView, data_start: int, e: RawEntryView, d: Dtype)
    requires
        entry_of(entry) == Some(e),
        dtype_of(e.dtype) == Some(d),
    ensures
        located((name, entry), data_start) == (TensorSpec {
            name,
            dtype: d,
            shape: e.shape,
            begin: data_start + e.begin,
            end: data_start + e.end,
        }),
{
}

/// Every member of a header but `__metadata__` is a tensor, and the tensors stand
/// in the members' order.
pub proof fn every_other_member_is_a_tensor(members: Seq<(Seq<char>, JsonView)>, data_start: int)
    ensures
        tensors_of(members, data_start, members.len() as int) == members.filter(
            |m: (Seq<char>, JsonView)| m.0 != "__metadata__"@,
        ).map_values(|m: (Seq<char>, JsonView)| located(m, data_start)),
    decreases members.len(),
{
    reveal(Seq::filter);
    let keep = |m: (Seq<char>, JsonView)| m.0 != "__metadata__"@;
    let place = |m: (Seq<char>, JsonView)| located(m, data_start);
    if members.len() > 0 {
        let front = members.drop_last();
        every_other_member_is_a_tensor(front, data_start);
        lemma_tensors_front(members, front, data_start, front.len() as int);
        if keep(members.last()) {
            assert(front.filter(keep).push(members.last()).map_values(place) =~= front.filter(keep).map_values(
                place,
            ).push(place(members.last())));
        }
    } else {
        assert(members.filter(keep).map_values(place) =~= tensors_of(members, data_start, 0));
    }
}

proof fn lemma_tensors_front(
    members: Seq<(Seq<char>, JsonView)>,
    front: Seq<(Seq<char>, JsonView)>,
    data_start: int,
    n: int,
)
    requires
        n <= front.len() <= members.len(),
        forall|i: int| 0 <= i < front.len() ==> #[trigger] front[i] == members[i],
    ensures
        tensors_of(members, data_start, n) == tensors_of(front, data_start, n),
    decreases n,
{
    if n > 0 {
        lemma_tensors_front(members, front, data_start, n - 1);
    }
}

/// The metadata is what stands under `__metadata__`, where that is a map of texts,
/// and there is none where nothing stands there.
pub proof fn metadata_stands_under_its_name(members: Seq<(Seq<char>, JsonView)>, i: int)
    requires
        0 <= i < members.len(),
        members[i].0 == "__metadata__"@,
        forall|k: int| 0 <= k < members.len() && k != i ==> (#[trigger] members[k]).0 != "__metadata__"@,
    ensures
        metadata_of(members, members.len() as int) == match text_map(members[i].1) {
            Some(texts) => texts,
            None => seq![],
        },
        metadata_of(members, i) == Seq::<(Seq<char>, Seq<char>)>::empty(),
{
    lemma_metadata(members, i, members.len() as int);
    lemma_metadata(members, i, i);
}

proof fn lemma_metadata(members: Seq<(Seq<char>, JsonView)>, i: int, n: int)
    requires
        0 <= i < members.len(),
        0 <= n <= members.len(),
        members[i].0 == "__metadata__"@,
        forall|k: int| 0 <= k < members.len() && k != i ==> (#[trigger] members[k]).0 != "__metadata__"@,
    ensures
        metadata_of(members, n) == if i < n {
            match text_map(members[i].1) {
                Some(texts) => texts,
                None => seq![],
            }
        } else {
            seq![]
        },
    decreases n,
{
    if n > 0 {
        lemma_metadata(members, i, n - 1);
    }
}

// --------------------------------------------------------------------- files

/// A file is the length of its header in eight bytes, the header, and the data: of
/// such a file the header is found, and the data begins behind it.
pub proof fn a_file_is_length_header_and_data(header: Seq<u8>, data: Seq<u8>)
    requires
        valid_utf8(header),
        8 + header.len() <= u64::MAX,
    ensures
        ({
            let file = le64_bytes(header.len() as u64) + header + data;
            &&& file_fault(file) is None
            &&& header_bytes(file) == header
            &&& data_start_of(file) == 8 + header.len()
            &&& file.skip(data_start_of(file)) == data
        }),
{
    let len = le64_bytes(header.len() as u64);
    let file = len + header + data;
    le_round_trip(0, 0, header.len() as u64);
    assert(file.take(8) =~= len);
    assert(header_bytes(file) =~= header);
    assert(file.skip(8 + header.len() as int) =~= data);
}

/// A file is refused that is shorter than the length, or than the length says, or
/// whose header is no text.
pub proof fn broken_files_are_refused(file: Seq<u8>)
    ensures
        file.len() < 8 <==> file_fault(file) == Some(FileIssue::TooShort),
        file.len() >= 8 && 8 + le64(file.take(8)) > file.len() ==> file_fault(file) is Some,
        file.len() >= 8 && 8 + le64(file.take(8)) <= file.len() <= u64::MAX && !valid_utf8(
            file.subrange(8, 8 + le64(file.take(8))),
        ) ==> file_fault(file) == Some(FileIssue::HeaderText),
{
}

/// Whether the byte at a place of a file is a tensor's.
pub open spec fn has_byte(t: TensorSpec, x: int) -> bool {
    t.begin <= x < t.end
}

/// Two tensors that have bytes lie apart exactly where there is no byte that both
/// have.
pub proof fn tensors_apart_share_no_byte(a: TensorSpec, b: TensorSpec)
    requires
        a.begin < a.end,
        b.begin < b.end,
    ensures
        apart(a, b) <==> forall|x: int| !(#[trigger] has_byte(a, x) && has_byte(b, x)),
{
    let low = if a.begin < b.begin {
        b.begin
    } else {
        a.begin
    };
    assert(has_byte(a, low) && has_byte(b, low) || apart(a, b));
}

/// The tensor of a name is the first that has it, and there is none where none
/// has.
pub proof fn a_tensor_is_found_by_name(tensors: Seq<TensorSpec>, name: Seq<char>)
    ensures
        match spec_index_of(tensors, name, 0) {
            Some(i) => 0 <= i < tensors.len() && tensors[i].name == name && forall|k: int|
                0 <= k < i ==> (#[trigger] tensors[k]).name != name,
            None => forall|k: int| 0 <= k < tensors.len() ==> (#[trigger] tensors[k]).name != name,
        },
{
    lemma_spec_found(tensors, name, 0);
}

proof fn lemma_spec_found(tensors: Seq<TensorSpec>, name: Seq<char>, from: int)
    requires
        0 <= from,
    ensures
        match spec_index_of(tensors, name, from) {
            Some(i) => from <= i < tensors.len() && tensors[i].name == name && forall|k: int|
                from <= k < i ==> (#[trigger] tensors[k]).name != name,
            None => forall|k: int| from <= k < tensors.len() ==> (#[trigger] tensors[k]).name != name,
        },
    decreases tensors.len() - from,
{
    if from < tensors.len() && tensors[from].name != name {
        lemma_spec_found(tensors, name, from + 1);
    }
}

/// The data of a file is what its tensors' ranges hold: one tensor more holds its
/// own range more.
pub proof fn data_is_what_the_ranges_hold(tensors: Seq<TensorSpec>, t: TensorSpec)
    requires
        t.begin <= t.end,
    ensures
        sizes_sum(seq![], 0) == 0,
        sizes_sum(tensors.push(t), tensors.len() as int + 1) == sizes_sum(tensors, tensors.len() as int) + (t.end
            - t.begin),
{
    lemma_sum_front(tensors, t, tensors.len() as int);
}

proof fn lemma_sum_front(tensors: Seq<TensorSpec>, t: TensorSpec, n: int)
    requires
        n <= tensors.len(),
    ensures
        sizes_sum(tensors.push(t), n) == sizes_sum(tensors, n),
    decreases n,
{
    if n > 0 {
        lemma_sum_front(tensors, t, n - 1);
    }
}

// -------------------------------------------------------------------- shards

/// An index names the file of every tensor under `weight_map`. It is refused where
/// there is none, or where one names no file.
pub proof fn an_index_names_a_file_for_each(doc: JsonView, members: Seq<(Seq<char>, JsonView)>)
    ensures
        doc.get("weight_map"@) is None ==> weight_map(doc) is None,
        doc.get("weight_map"@) matches Some(m) ==> weight_map(doc) == m.by_name(),
        match unnamed(members, 0) {
            Some(i) => 0 <= i < members.len() && !(members[i].1 is Text) && forall|k: int|
                0 <= k < i ==> (#[trigger] members[k]).1 is Text,
            None => forall|k: int| 0 <= k < members.len() ==> (#[trigger] members[k]).1 is Text,
        },
{
    lemma_unnamed(members, 0);
}

proof fn lemma_unnamed(members: Seq<(Seq<char>, JsonView)>, from: int)
    requires
        0 <= from,
    ensures
        match unnamed(members, from) {
            Some(i) => from <= i < members.len() && !(members[i].1 is Text) && forall|k: int|
                from <= k < i ==> (#[trigger] members[k]).1 is Text,
            None => forall|k: int| from <= k < members.len() ==> (#[trigger] members[k]).1 is Text,
        },
    decreases members.len() - from,
{
    if from < members.len() && members[from].1.as_text() is Some {
        lemma_unnamed(members, from + 1);
    }
}

/// The files of an index are those its tensors name, each listed once, and one
/// that is named later stands later.
pub proof fn files_are_listed_as_they_are_named(members: Seq<(Seq<char>, JsonView)>, n: int, file: Seq<char>)
    requires
        0 <= n <= members.len(),
        forall|k: int| 0 <= k < n ==> (#[trigger] members[k]).1 is Text,
    ensures
        shard_files(members, n).contains(file) <==> exists|k: int|
            0 <= k < n && (#[trigger] members[k]).1 == JsonView::Text(file),
        shard_files(members, n).no_duplicates(),
        n > 0 ==> shard_files(members, n - 1).is_prefix_of(shard_files(members, n)),
    decreases n,
{
    if n > 0 {
        let before = shard_files(members, n - 1);
        let now = shard_files(members, n);
        let own = members[n - 1].1.as_text()->0;
        assert(members[n - 1].1 == JsonView::Text(own));
        files_are_listed_as_they_are_named(members, n - 1, file);
        files_are_listed_as_they_are_named(members, n - 1, own);
        lemma_file_found(before, own, 0);
        if file_index(before, own, 0) is Some {
            let i = file_index(before, own, 0)->0;
            assert(before[i] == own);
            assert(before.contains(own));
            assert(now == before);
        } else {
            assert(!before.contains(own));
            assert(now == before.push(own));
            assert(now[before.len() as int] == own);
            assert forall|k: int| 0 <= k < before.len() implies now.contains(#[trigger] before[k]) by {
                assert(now[k] == before[k]);
            }
            if now.contains(file) && file != own {
                let k = now.index_of(file);
                assert(before[k] == file);
            }
        }
        if exists|k: int| 0 <= k < n && (#[trigger] members[k]).1 == JsonView::Text(file) {
            let k = choose|k: int| 0 <= k < n && (#[trigger] members[k]).1 == JsonView::Text(file);
            if k < n - 1 {
                assert(before.contains(file));
                let i = before.index_of(file);
                assert(now[i] == before[i]);
            }
        }
    }
}

proof fn lemma_file_found(files: Seq<Seq<char>>, file: Seq<char>, from: int)
    requires
        0 <= from,
    ensures
        match file_index(files, file, from) {
            Some(i) => from <= i < files.len() && files[i] == file,
            None => forall|k: int| from <= k < files.len() ==> #[trigger] files[k] != file,
        },
    decreases files.len() - from,
{
    if from < files.len() && files[from] != file {
        lemma_file_found(files, file, from + 1);
    }
}

/// A tensor is looked up in the shard it is routed to, and is the one of its name
/// there; a name that is not routed is not found.
pub proof fn a_tensor_is_looked_up_in_its_shard(c: CheckpointView, name: Seq<char>)
    ensures
        match owner_index(c.owner, name, 0) {
            Some(i) => 0 <= i < c.owner.len() && c.owner[i].0 == name && (forall|k: int|
                0 <= k < i ==> (#[trigger] c.owner[k]).0 != name) && ({
                let shard = c.shards[c.owner[i].1 as int];
                match c.find(name) {
                    Some(t) => t.name == name && shard.contains(t),
                    None => forall|k: int| 0 <= k < shard.len() ==> (#[trigger] shard[k]).name != name,
                }
            }),
            None => c.find(name) is None && forall|k: int|
                0 <= k < c.owner.len() ==> (#[trigger] c.owner[k]).0 != name,
        },
{
    lemma_owner_found(c.owner, name, 0);
    if let Some(i) = owner_index(c.owner, name, 0) {
        lemma_spec_found(c.shards[c.owner[i].1 as int], name, 0);
    }
}

proof fn lemma_owner_found(owner: Seq<(Seq<char>, usize)>, name: Seq<char>, from: int)
    requires
        0 <= from,
    ensures
        match owner_index(owner, name, from) {
            Some(i) => from <= i < owner.len() && owner[i].0 == name && forall|k: int|
                from <= k < i ==> (#[trigger] owner[k]).0 != name,
            None => forall|k: int| from <= k < owner.len() ==> (#[trigger] owner[k]).0 != name,
        },
    decreases owner.len() - from,
{
    if from < owner.len() && owner[from].0 != name {
        lemma_owner_found(owner, name, from + 1);
    }
}

/// Shards are joined exactly where every tensor is in the shard it is routed to.
pub proof fn shards_are_joined_that_hold_their_tensors(c: CheckpointView)
    ensures
        astray(c.owner, c.shards, 0) is None <==> forall|i: int|
            0 <= i < c.owner.len() ==> holds_tensor(c.shards[(#[trigger] c.owner[i]).1 as int], c.owner[i].0),
{
    lemma_astray(c.owner, c.shards, 0);
}

/// Whether a shard has a tensor of a name.
pub open spec fn holds_tensor(shard: Seq<TensorSpec>, name: Seq<char>) -> bool {
    exists|k: int| 0 <= k < shard.len() && (#[trigger] shard[k]).name == name
}

proof fn lemma_astray(owner: Seq<(Seq<char>, usize)>, shards: Seq<Seq<TensorSpec>>, from: int)
    requires
        0 <= from,
    ensures
        astray(owner, shards, from) is None <==> forall|i: int|
            from <= i < owner.len() ==> holds_tensor(shards[(#[trigger] owner[i]).1 as int], owner[i].0),
    decreases owner.len() - from,
{
    if from < owner.len() {
        lemma_astray(owner, shards, from + 1);
        let shard = shards[owner[from].1 as int];
        lemma_spec_found(shard, owner[from].0, 0);
        assert(holds_tensor(shard, owner[from].0) <==> spec_index_of(shard, owner[from].0, 0) is Some);
    }
}

/// The bytes a checkpoint lists are those of the tensors it lists.
pub proof fn bytes_are_those_of_the_tensors(c: CheckpointView, n: int, t: TensorSpec)
    requires
        0 <= n < c.owner.len(),
        c.find(c.owner[n].0) == Some(t),
        t.begin <= t.end,
    ensures
        c.listed_bytes(0) == 0,
        c.listed_bytes(n + 1) == c.listed_bytes(n) + (t.end - t.begin),
{
}

/// A plan routes every tensor of a weight map, in its order, to the file that it
/// names.
pub proof fn tensors_are_routed_to_the_files_they_name(
    plan: ShardPlanView,
    members: Seq<(Seq<char>, JsonView)>,
    i: int,
)
    requires
        routes(plan, members, members.len() as int),
        0 <= i < members.len(),
        members[i].1 is Text,
    ensures
        plan.owner.len() == members.len(),
        plan.owner[i].0 == members[i].0,
        plan.owner[i].1 < plan.files.len(),
        members[i].1 == JsonView::Text(plan.files[plan.owner[i].1 as int]),
        plan.files == shard_files(members, members.len() as int),
{
    let o = plan.owner[i];
}

/// Tensors overlap first that are next to each other in the order of their ranges,
/// and of which the first ends behind where the next begins.
pub proof fn an_overlap_is_named_by_its_tensors(tensors: Seq<TensorSpec>, a: Seq<char>, b: Seq<char>)
    requires
        overlap_first(tensors, a, b),
    ensures
        exists|i: int, j: int|
            0 <= i < tensors.len() && 0 <= j < tensors.len() && i != j && (#[trigger] tensors[i]).name == a && (
            #[trigger] tensors[j]).name == b && tensors[i].begin <= tensors[j].begin < tensors[i].end,
{
    let (order, p) = choose|order: Seq<usize>, p: int| #[trigger] first_overlap(order, tensors, p, a, b);
    let i = order[p] as int;
    let j = order[p + 1] as int;
    assert(in_order(tensors, i, j));
    assert(tensors[i].name == a && tensors[j].name == b);
}

} // verus!
