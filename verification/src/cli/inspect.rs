//! Which tensors a checkpoint must have, and what it holds.

use vstd::prelude::*;

use crate::checkpoint::{Checkpoint, CheckpointView};
use crate::format::product;
use crate::safetensors::Dtype;
use crate::weights::{block_name, name_in_block};

verus! {

/// The tensors every block must have.
pub open spec fn required_suffixes() -> Seq<Seq<char>> {
    seq![
        ".input_layernorm.weight"@,
        ".post_attention_layernorm.weight"@,
        ".self_attn.q_proj.weight"@,
        ".self_attn.k_proj.weight"@,
        ".self_attn.v_proj.weight"@,
        ".self_attn.o_proj.weight"@,
        ".mlp.gate_proj.weight"@,
        ".mlp.up_proj.weight"@,
        ".mlp.down_proj.weight"@,
    ]
}

/// The tensors a block must have.
pub open spec fn block_required(l: nat) -> Seq<Seq<char>> {
    Seq::new(9, |i: int| block_name(l, required_suffixes()[i]))
}

/// The tensors a model of some blocks must have.
pub open spec fn required(layers: nat) -> Seq<Seq<char>>
    decreases layers,
{
    if layers == 0 {
        seq!["model.embed_tokens.weight"@, "model.norm.weight"@]
    } else {
        required((layers - 1) as nat) + block_required((layers - 1) as nat)
    }
}

/// The texts of some names.
pub open spec fn name_texts(names: Seq<String>) -> Seq<Seq<char>> {
    names.map_values(|n: String| n@)
}

/// Nine tensors are required for each block, and two more.
pub proof fn required_are_counted(layers: nat)
    ensures
        required(layers).len() == 2 + 9 * layers,
    decreases layers,
{
    if layers > 0 {
        required_are_counted((layers - 1) as nat);
    }
}

/// Appends a name.
fn push_name(names: &mut Vec<String>, name: String)
    ensures
        name_texts(final(names)@) == name_texts(old(names)@).push(name@),
{
    let ghost before = names@;
    let ghost text = name@;
    names.push(name);
    assert(name_texts(names@) =~= name_texts(before).push(text));
}

/// Lists the tensors a model of some blocks must have.
pub fn required_tensors(layers: usize) -> (names: Vec<String>)
    ensures
        name_texts(names@) == required(layers as nat),
{
    let mut names: Vec<String> = Vec::new();
    push_name(&mut names, "model.embed_tokens.weight".to_owned());
    push_name(&mut names, "model.norm.weight".to_owned());
    let mut l: usize = 0;
    assert(name_texts(names@) =~= required(0));
    while l < layers
        invariant
            l <= layers,
            name_texts(names@) == required(l as nat),
        decreases layers - l,
    {
        let ghost before = name_texts(names@);
        push_name(&mut names, name_in_block(l, ".input_layernorm.weight"));
        push_name(&mut names, name_in_block(l, ".post_attention_layernorm.weight"));
        push_name(&mut names, name_in_block(l, ".self_attn.q_proj.weight"));
        push_name(&mut names, name_in_block(l, ".self_attn.k_proj.weight"));
        push_name(&mut names, name_in_block(l, ".self_attn.v_proj.weight"));
        push_name(&mut names, name_in_block(l, ".self_attn.o_proj.weight"));
        push_name(&mut names, name_in_block(l, ".mlp.gate_proj.weight"));
        push_name(&mut names, name_in_block(l, ".mlp.up_proj.weight"));
        push_name(&mut names, name_in_block(l, ".mlp.down_proj.weight"));
        assert(name_texts(names@) =~= before + block_required(l as nat));
        l += 1;
    }
    names
}

/// Those of the first `n` names that a checkpoint does not have, in order.
pub open spec fn absent(c: CheckpointView, names: Seq<Seq<char>>, n: int) -> Seq<Seq<char>>
    decreases n,
{
    if n <= 0 {
        Seq::empty()
    } else if c.find(names[n - 1]) is None {
        absent(c, names, n - 1).push(names[n - 1])
    } else {
        absent(c, names, n - 1)
    }
}

/// Lists the required tensors that a checkpoint does not have.
pub fn missing_tensors(c: &Checkpoint, layers: usize) -> (missing: Vec<String>)
    ensures
        name_texts(missing@) == absent(
            c@,
            required(layers as nat),
            required(layers as nat).len() as int,
        ),
{
    let names = required_tensors(layers);
    let ghost all = required(layers as nat);
    let mut missing: Vec<String> = Vec::new();
    let mut i: usize = 0;
    assert(name_texts(missing@) =~= absent(c@, all, 0));
    while i < names.len()
        invariant
            i <= names@.len(),
            all == name_texts(names@),
            name_texts(missing@) == absent(c@, all, i as int),
        decreases names@.len() - i,
    {
        assert(all[i as int] == names@[i as int]@);
        if c.get(names[i].as_str()).is_err() {
            push_name(&mut missing, names[i].clone());
        }
        i += 1;
    }
    missing
}

/// The elements of the tensor at a place of the list.
pub open spec fn elements_at(c: CheckpointView, i: int) -> nat {
    match c.find(c.owner[i].0) {
        Some(t) => product(t.shape, t.shape.len() as int),
        None => 0,
    }
}

/// Whether the tensor at a place of the list has elements of a type.
pub open spec fn has_type(c: CheckpointView, d: Dtype, i: int) -> bool {
    c.find(c.owner[i].0) matches Some(t) && t.dtype == d
}

/// The elements of the first `n` tensors.
pub open spec fn elements(c: CheckpointView, n: int) -> nat
    decreases n,
{
    if n <= 0 {
        0
    } else {
        elements(c, n - 1) + elements_at(c, n - 1)
    }
}

/// The elements of a type among the first `n` tensors.
pub open spec fn elements_of(c: CheckpointView, d: Dtype, n: int) -> nat
    decreases n,
{
    if n <= 0 {
        0
    } else {
        elements_of(c, d, n - 1) + if has_type(c, d, n - 1) {
            elements_at(c, n - 1)
        } else {
            0nat
        }
    }
}

/// How many of the first `n` tensors have elements of a type.
pub open spec fn tensors_of_type(c: CheckpointView, d: Dtype, n: int) -> nat
    decreases n,
{
    if n <= 0 {
        0
    } else {
        tensors_of_type(c, d, n - 1) + if has_type(c, d, n - 1) {
            1nat
        } else {
            0nat
        }
    }
}

/// The element types, in the order of their names.
pub open spec fn type_order() -> Seq<Dtype> {
    seq![
        Dtype::BF16,
        Dtype::Bool,
        Dtype::F16,
        Dtype::F32,
        Dtype::I32,
        Dtype::I64,
        Dtype::I8,
        Dtype::U8,
    ]
}

/// The elements of each of the first `k` types, where there are tensors of it.
pub open spec fn by_type(c: CheckpointView, k: int) -> Seq<(Dtype, usize)>
    decreases k,
{
    if k <= 0 {
        Seq::empty()
    } else {
        let before = by_type(c, k - 1);
        let d = type_order()[k - 1];
        let n = c.owner.len() as int;
        if tensors_of_type(c, d, n) > 0 {
            before.push((d, elements_of(c, d, n) as usize))
        } else {
            before
        }
    }
}

proof fn lemma_elements(c: CheckpointView, d: Dtype, a: int, b: int)
    requires
        0 <= a <= b,
    ensures
        elements(c, a) <= elements(c, b),
        elements_of(c, d, a) <= elements(c, a),
        tensors_of_type(c, d, a) <= a,
    decreases b,
{
    if a < b {
        lemma_elements(c, d, a, b - 1);
    } else if a > 0 {
        lemma_elements(c, d, a - 1, a - 1);
    }
}

/// Counts the elements of a checkpoint, where they can be counted.
pub fn count_elements(c: &Checkpoint) -> (n: Option<usize>)
    ensures
        n is Some <==> elements(c@, c@.owner.len() as int) <= usize::MAX,
        n matches Some(n) ==> n == elements(c@, c@.owner.len() as int),
{
    let names = c.names();
    let mut n: usize = 0;
    let mut i: usize = 0;
    while i < names.len()
        invariant
            i <= names@.len(),
            names@.len() == c@.owner.len(),
            forall|k: int| 0 <= k < names@.len() ==> (#[trigger] names@[k])@ == c@.owner[k].0,
            n == elements(c@, i as int),
        decreases names@.len() - i,
    {
        proof {
            lemma_elements(c@, Dtype::F16, i + 1, names@.len() as int);
        }
        if let Ok(t) = c.get(names[i].as_str()) {
            n = match n.checked_add(t.numel()) {
                Some(n) => n,
                None => {
                    return None;
                },
            };
        }
        i += 1;
    }
    Some(n)
}

/// Counts the tensors and the elements of a type.
fn count_type(c: &Checkpoint, d: Dtype) -> (r: (usize, usize))
    requires
        elements(c@, c@.owner.len() as int) <= usize::MAX,
    ensures
        r.0 == tensors_of_type(c@, d, c@.owner.len() as int),
        r.1 == elements_of(c@, d, c@.owner.len() as int),
{
    let names = c.names();
    let mut count: usize = 0;
    let mut n: usize = 0;
    let mut i: usize = 0;
    while i < names.len()
        invariant
            i <= names@.len(),
            names@.len() == c@.owner.len(),
            forall|k: int| 0 <= k < names@.len() ==> (#[trigger] names@[k])@ == c@.owner[k].0,
            count == tensors_of_type(c@, d, i as int),
            n == elements_of(c@, d, i as int),
            elements(c@, c@.owner.len() as int) <= usize::MAX,
        decreases names@.len() - i,
    {
        proof {
            lemma_elements(c@, d, i as int, i as int);
            lemma_elements(c@, d, i + 1, names@.len() as int);
        }
        if let Ok(t) = c.get(names[i].as_str()) {
            if t.element_type() == d {
                count += 1;
                n += t.numel();
            }
        }
        i += 1;
    }
    (count, n)
}

/// Counts the elements of each type, in the order of the types' names. Types of
/// which there is no tensor are left out.
pub fn elements_by_type(c: &Checkpoint) -> (list: Vec<(Dtype, usize)>)
    requires
        elements(c@, c@.owner.len() as int) <= usize::MAX,
    ensures
        list@ == by_type(c@, 8),
{
    let types: [Dtype; 8] = [
        Dtype::BF16,
        Dtype::Bool,
        Dtype::F16,
        Dtype::F32,
        Dtype::I32,
        Dtype::I64,
        Dtype::I8,
        Dtype::U8,
    ];
    assert(types@ =~= type_order());
    let mut list: Vec<(Dtype, usize)> = Vec::new();
    let mut k: usize = 0;
    assert(list@ =~= by_type(c@, 0));
    while k < 8
        invariant
            k <= 8,
            types@ == type_order(),
            type_order().len() == 8,
            elements(c@, c@.owner.len() as int) <= usize::MAX,
            list@ == by_type(c@, k as int),
        decreases 8 - k,
    {
        let (count, n) = count_type(c, types[k]);
        if count > 0 {
            list.push((types[k], n));
        }
        k += 1;
    }
    list
}

/// The elements of all types together are those of the checkpoint.
pub proof fn types_add_up(c: CheckpointView, n: int)
    ensures
        elements(c, n) == elements_of(c, Dtype::BF16, n) + elements_of(c, Dtype::Bool, n)
            + elements_of(c, Dtype::F16, n) + elements_of(c, Dtype::F32, n) + elements_of(
            c,
            Dtype::I32,
            n,
        ) + elements_of(c, Dtype::I64, n) + elements_of(c, Dtype::I8, n) + elements_of(
            c,
            Dtype::U8,
            n,
        ),
    decreases n,
{
    if n > 0 {
        types_add_up(c, n - 1);
        if let Some(t) = c.find(c.owner[n - 1].0) {
            match t.dtype {
                Dtype::F16 => {},
                Dtype::BF16 => {},
                Dtype::F32 => {},
                Dtype::I8 => {},
                Dtype::U8 => {},
                Dtype::I32 => {},
                Dtype::I64 => {},
                Dtype::Bool => {},
            }
        }
    }
}

proof fn lemma_required(layers: nat, l: nat, i: int)
    requires
        l < layers,
        0 <= i < 9,
    ensures
        required(layers).contains(block_name(l, required_suffixes()[i])),
    decreases layers,
{
    let names = required(layers);
    let before = required((layers - 1) as nat);
    let own = block_required((layers - 1) as nat);
    if l + 1 == layers {
        assert(names[before.len() + i] == own[i]);
    } else {
        lemma_required((layers - 1) as nat, l, i);
        let k = before.index_of(block_name(l, required_suffixes()[i]));
        assert(names[k] == before[k]);
    }
}

/// A model cannot do without its embedding, its final gain, and the gains and
/// projections of every block.
pub proof fn what_a_model_cannot_do_without(layers: nat, l: nat)
    ensures
        required(layers).contains("model.embed_tokens.weight"@),
        required(layers).contains("model.norm.weight"@),
        l < layers ==> {
            let names = required(layers);
            &&& names.contains(block_name(l, ".input_layernorm.weight"@))
            &&& names.contains(block_name(l, ".post_attention_layernorm.weight"@))
            &&& names.contains(block_name(l, ".self_attn.q_proj.weight"@))
            &&& names.contains(block_name(l, ".self_attn.k_proj.weight"@))
            &&& names.contains(block_name(l, ".self_attn.v_proj.weight"@))
            &&& names.contains(block_name(l, ".self_attn.o_proj.weight"@))
            &&& names.contains(block_name(l, ".mlp.gate_proj.weight"@))
            &&& names.contains(block_name(l, ".mlp.up_proj.weight"@))
            &&& names.contains(block_name(l, ".mlp.down_proj.weight"@))
        },
{
    lemma_required_first(layers);
    assert(required(layers)[0] == "model.embed_tokens.weight"@);
    assert(required(layers)[1] == "model.norm.weight"@);
    if l < layers {
        lemma_required(layers, l, 0);
        lemma_required(layers, l, 1);
        lemma_required(layers, l, 2);
        lemma_required(layers, l, 3);
        lemma_required(layers, l, 4);
        lemma_required(layers, l, 5);
        lemma_required(layers, l, 6);
        lemma_required(layers, l, 7);
        lemma_required(layers, l, 8);
    }
}

proof fn lemma_required_first(layers: nat)
    ensures
        required(layers).len() >= 2,
        required(layers)[0] == "model.embed_tokens.weight"@,
        required(layers)[1] == "model.norm.weight"@,
    decreases layers,
{
    if layers > 0 {
        lemma_required_first((layers - 1) as nat);
    }
}

/// What is missing is what is required and not there: the required names without
/// those that the checkpoint has, in their order.
pub proof fn missing_is_required_and_not_there(c: CheckpointView, names: Seq<Seq<char>>)
    ensures
        absent(c, names, names.len() as int) == names.filter(|n: Seq<char>| c.find(n) is None),
    decreases names.len(),
{
    reveal(Seq::filter);
    if names.len() > 0 {
        missing_is_required_and_not_there(c, names.drop_last());
        lemma_absent_front(c, names, names.drop_last(), names.len() - 1);
    }
}

proof fn lemma_absent_front(c: CheckpointView, names: Seq<Seq<char>>, front: Seq<Seq<char>>, n: int)
    requires
        n <= front.len() <= names.len(),
        forall|i: int| 0 <= i < front.len() ==> #[trigger] front[i] == names[i],
    ensures
        absent(c, names, n) == absent(c, front, n),
    decreases n,
{
    if n > 0 {
        lemma_absent_front(c, names, front, n - 1);
    }
}

/// A tensor counts as many elements as its dimensions multiply to, and counts them
/// under its own type and no other.
pub proof fn a_tensor_counts_under_its_type(c: CheckpointView, d: Dtype, n: int)
    requires
        0 <= n < c.owner.len(),
    ensures
        elements(c, 0) == 0,
        elements_of(c, d, 0) == 0,
        tensors_of_type(c, d, 0) == 0,
        c.find(c.owner[n].0) matches Some(t) ==> {
            let own = product(t.shape, t.shape.len() as int);
            &&& elements(c, n + 1) == elements(c, n) + own
            &&& t.dtype == d ==> elements_of(c, d, n + 1) == elements_of(c, d, n) + own
                && tensors_of_type(c, d, n + 1) == tensors_of_type(c, d, n) + 1
            &&& t.dtype != d ==> elements_of(c, d, n + 1) == elements_of(c, d, n) && tensors_of_type(
                c,
                d,
                n + 1,
            ) == tensors_of_type(c, d, n)
        },
{
}

/// Where a type stands in the order of the types' names.
pub open spec fn place_of_type(d: Dtype) -> int {
    match d {
        Dtype::BF16 => 0,
        Dtype::Bool => 1,
        Dtype::F16 => 2,
        Dtype::F32 => 3,
        Dtype::I32 => 4,
        Dtype::I64 => 5,
        Dtype::I8 => 6,
        Dtype::U8 => 7,
    }
}

/// The summary of a checkpoint has one line for every type there is a tensor of, in
/// the order of the types' names, and each line states the elements of its type.
pub proof fn every_type_has_its_line(c: CheckpointView, d: Dtype)
    ensures
        ({
            let list = by_type(c, 8);
            let n = c.owner.len() as int;
            &&& forall|i: int|
                0 <= i < list.len() ==> (#[trigger] list[i]).1 == elements_of(c, list[i].0, n) as usize
            &&& forall|i: int, j: int|
                0 <= i < j < list.len() ==> place_of_type((#[trigger] list[i]).0) < place_of_type(
                    (#[trigger] list[j]).0,
                )
            &&& (exists|i: int| 0 <= i < list.len() && (#[trigger] list[i]).0 == d) <==> tensors_of_type(
                c,
                d,
                n,
            ) > 0
        }),
{
    lemma_type_lines(c, 8);
    let list = by_type(c, 8);
    if tensors_of_type(c, d, c.owner.len() as int) > 0 {
        let i = lemma_type_line(c, d, 8);
        assert(list[i].0 == d);
    }
}

proof fn lemma_type_lines(c: CheckpointView, k: int)
    requires
        0 <= k <= 8,
    ensures
        ({
            let list = by_type(c, k);
            let n = c.owner.len() as int;
            &&& forall|i: int|
                0 <= i < list.len() ==> (#[trigger] list[i]).1 == elements_of(c, list[i].0, n) as usize
                    && place_of_type(list[i].0) < k && tensors_of_type(c, list[i].0, n) > 0
            &&& forall|i: int, j: int|
                0 <= i < j < list.len() ==> place_of_type((#[trigger] list[i]).0) < place_of_type(
                    (#[trigger] list[j]).0,
                )
        }),
    decreases k,
{
    if k > 0 {
        lemma_type_lines(c, k - 1);
        assert(k == 1 || k == 2 || k == 3 || k == 4 || k == 5 || k == 6 || k == 7 || k == 8);
        let d = type_order()[k - 1];
        assert(place_of_type(d) == k - 1);
        let n = c.owner.len() as int;
        let before = by_type(c, k - 1);
        let list = by_type(c, k);
        if tensors_of_type(c, d, n) > 0 {
            assert(list == before.push((d, elements_of(c, d, n) as usize)));
            assert forall|i: int| 0 <= i < list.len() implies (#[trigger] list[i]).1 == elements_of(
                c,
                list[i].0,
                n,
            ) as usize && place_of_type(list[i].0) < k && tensors_of_type(c, list[i].0, n) > 0 by {
                if i < before.len() {
                    assert(list[i] == before[i]);
                }
            }
        } else {
            assert(list == before);
        }
    }
}

proof fn lemma_type_line(c: CheckpointView, d: Dtype, k: int) -> (at: int)
    requires
        place_of_type(d) < k <= 8,
        tensors_of_type(c, d, c.owner.len() as int) > 0,
    ensures
        0 <= at < by_type(c, k).len(),
        by_type(c, k)[at].0 == d,
    decreases k,
{
    if place_of_type(d) == k - 1 {
        by_type(c, k - 1).len() as int
    } else {
        lemma_type_line(c, d, k - 1)
    }
}

} // verus!
