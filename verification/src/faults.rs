//! What is said when something is wrong.
//!
//! An error names what it is about, so that whoever reads it can find it: the
//! tensor, the blob, the entry, and the numbers that do not fit.

use vstd::prelude::*;

use crate::config::{reports, ConfigFault, ModelConfig};
use crate::engine::says_full;
use crate::error::{ConfigIssue, Error, FileIssue, RunIssue, ShapeFault};
use crate::format::{
    accounts_for, accounts_for_payload, FormatIssue, HeaderView, PayloadFault, RangeFault,
};
use crate::json::JsonView;
use crate::model::{accounts, LoadFault};
use crate::quant;
use crate::safetensors::{entry_account, EntryFault};
use crate::specials::longest_first;
use crate::tokenizer::{
    added_list, added_tokens, bad_entry, bad_merge, base_vocab, described_by, describes, fault,
    merge_list, merge_pair, rank_map, vocab_members, with_added, TokenizerView,
};
use crate::weights::{model_account, ModelFault};

verus! {

/// A configuration that cannot be executed is refused with the values that make it
/// so.
pub proof fn refused_configurations_are_quoted(e: Error, c: ModelConfig)
    ensures
        reports(e, ConfigFault::Zero, c) ==> e == Error::Config(ConfigIssue::ZeroSize),
        reports(e, ConfigFault::UnevenHeads, c) ==> e == Error::Config(
            (ConfigIssue::UnevenHeads { hidden: c.hidden_size, heads: c.num_attention_heads }),
        ),
        reports(e, ConfigFault::KvHeads, c) ==> e == Error::Config(
            (ConfigIssue::KvHeads { heads: c.num_attention_heads, kv: c.kv_heads() }),
        ),
        reports(e, ConfigFault::Activation, c) ==> (e matches Error::Config(ConfigIssue::Activation(name)) && name@
            == c.hidden_act@),
        reports(e, ConfigFault::Family, c) ==> (e matches Error::Config(ConfigIssue::Family(name)) && name@
            == c.model_type@),
{
}

/// A full context is refused with its capacity.
pub proof fn a_full_context_states_its_capacity(e: Error, capacity: usize)
    ensures
        says_full(e, capacity as int) <==> e == Error::Shape(ShapeFault::Run(RunIssue::ContextFull(capacity))),
{
}

/// What keeps a matrix from being loaded is said of the tensor it is wrong with,
/// and of the blob, where it is one.
pub proof fn load_errors_name_the_tensor(e: Error, name: Seq<char>, blob: Seq<char>)
    ensures
        accounts(e, LoadFault::Missing(name)) <==> (e matches Error::MissingTensor(m) && m@ == name),
        accounts(e, LoadFault::NotMatrix(name)) <==> (e matches Error::Shape(ShapeFault::NotMatrix(m, _)) && m@
            == name),
        accounts(e, LoadFault::NoBlob(name, blob)) <==> (e matches Error::Format(
            FileIssue::Container(quant::Error::Format(FormatIssue::NoBlob(m, b))),
        ) && m@ == name && b@ == blob),
        accounts(e, LoadFault::BlobOverflow(name, blob)) <==> (e matches Error::Format(
            FileIssue::Container(quant::Error::Format(FormatIssue::BlobOverflow(m, b))),
        ) && m@ == name && b@ == blob),
        accounts(e, LoadFault::BlobPastEnd(name, blob)) <==> (e matches Error::Format(
            FileIssue::Container(quant::Error::Format(FormatIssue::BlobPastEnd(m, b))),
        ) && m@ == name && b@ == blob),
        accounts(e, LoadFault::MixedKinds(name)) <==> (e matches Error::Format(FileIssue::MixedKinds(m)) && m@
            == name),
        accounts(e, LoadFault::NotExecutable(name)) <==> (e matches Error::Format(FileIssue::NotExecutable(m))
            && m@ == name),
        accounts(e, LoadFault::NotFp16(name)) <==> (e matches Error::Format(FileIssue::NotFp16(m)) && m@ == name),
        accounts(e, LoadFault::UnequalWidth(name)) ==> (e matches Error::Shape(
            ShapeFault::UnequalWidth { name: m, .. },
        ) && m@ == name),
        accounts(e, LoadFault::Elements(name)) ==> (e matches Error::Shape(ShapeFault::Elements { name: m, .. }) && m@
            == name),
        accounts(e, LoadFault::BiasWidth(name)) ==> (e matches Error::Shape(
            ShapeFault::BiasWidth { name: m, .. },
        ) && m@ == name),
        accounts(e, LoadFault::TooManyRows) ==> e == Error::Shape(ShapeFault::TooManyRows),
{
}

/// What keeps a model from being read is said with what its configuration calls
/// for.
pub proof fn model_errors_state_what_was_expected(e: Error, c: ModelConfig)
    ensures
        model_account(e, ModelFault::EmbeddingWidth, c) ==> (e matches Error::Shape(
            ShapeFault::EmbeddingWidth { expected, .. },
        ) && expected == c.hidden_size),
        model_account(e, ModelFault::EmbeddingRows, c) ==> (e matches Error::Shape(
            ShapeFault::EmbeddingRows { expected, .. },
        ) && expected == c.vocab_size),
        model_account(e, ModelFault::TokenizerRange, c) ==> e matches Error::Format(FileIssue::TokenizerRange),
        model_account(e, ModelFault::TokenizerText, c) ==> e matches Error::Format(FileIssue::TokenizerText),
{
}

/// What is wrong with a directory or a payload is said of the extra, or of the
/// tensor and its blob, that it is wrong with.
pub proof fn container_errors_name_the_blob(issue: FormatIssue, h: HeaderView, t: int, i: int, name: Seq<char>)
    ensures
        accounts_for(issue, h, RangeFault::ExtraOverflow(i)) <==> (issue matches FormatIssue::ExtraOverflow(n) && n@
            == h.extras[i].0),
        accounts_for(issue, h, RangeFault::ExtraPastEnd(i)) <==> (issue matches FormatIssue::ExtraPastEnd(n) && n@
            == h.extras[i].0),
        accounts_for(issue, h, RangeFault::BlobOverflow(t, i)) <==> (issue matches FormatIssue::BlobOverflow(n, b)
            && n@ == h.tensors[t].name && b@ == h.tensors[t].blobs[i].0),
        accounts_for(issue, h, RangeFault::BlobPastEnd(t, i)) <==> (issue matches FormatIssue::BlobPastEnd(n, b) && n@
            == h.tensors[t].name && b@ == h.tensors[t].blobs[i].0),
        accounts_for(issue, h, RangeFault::BlobMisaligned(t, i)) <==> (issue matches FormatIssue::BlobMisaligned(n, b)
            && n@ == h.tensors[t].name && b@ == h.tensors[t].blobs[i].0),
        accounts_for(issue, h, RangeFault::BlobMissing(t, name)) <==> (issue matches FormatIssue::BlobMissing(n, b)
            && n@ == h.tensors[t].name && b@ == name),
        accounts_for_payload(issue, h, PayloadFault::ExtraPastEnd(i)) <==> (issue matches FormatIssue::ExtraPastEnd(n)
            && n@ == h.extras[i].0),
        accounts_for_payload(issue, h, PayloadFault::ExtraChecksum(i)) <==> (issue matches FormatIssue::ExtraChecksum(
            n,
        ) && n@ == h.extras[i].0),
        accounts_for_payload(issue, h, PayloadFault::BlobPastEnd(t, i)) <==> (issue matches FormatIssue::BlobPastEnd(
            n,
            b,
        ) && n@ == h.tensors[t].name && b@ == h.tensors[t].blobs[i].0),
        accounts_for_payload(issue, h, PayloadFault::BlobChecksum(t, i)) <==> (issue matches FormatIssue::BlobChecksum(
            n,
            b,
        ) && n@ == h.tensors[t].name && b@ == h.tensors[t].blobs[i].0),
{
}

/// What is wrong with an entry of a checkpoint is said of its tensor, and an
/// unknown element type by its own name.
pub proof fn entry_errors_name_the_tensor(e: Error, name: Seq<char>, dtype: Seq<char>)
    ensures
        entry_account(e, name, EntryFault::Bad) <==> (e matches Error::Format(FileIssue::BadEntry(n)) && n@ == name),
        entry_account(e, name, EntryFault::Dtype(dtype)) <==> (e matches Error::Format(FileIssue::Dtype(n)) && n@
            == dtype),
        entry_account(e, name, EntryFault::Inverted) <==> (e matches Error::Format(FileIssue::Inverted(n)) && n@
            == name),
        entry_account(e, name, EntryFault::PastEnd) <==> (e matches Error::Format(FileIssue::PastEnd(n)) && n@
            == name),
        entry_account(e, name, EntryFault::ShapeOverflow) <==> (e matches Error::Format(FileIssue::ShapeOverflow(n))
            && n@ == name),
        entry_account(e, name, EntryFault::SizeMismatch) <==> (e matches Error::Format(FileIssue::SizeMismatch(n))
            && n@ == name),
{
}

// ----------------------------------------------------------- tokenizer files

/// A tokenizer stands in its places: the vocabulary and the merges under `model`,
/// by `vocab` and `merges`, and the added tokens under `added_tokens`. The longest
/// of these are looked for first.
pub proof fn a_tokenizer_stands_in_its_places(
    tok: TokenizerView,
    doc: JsonView,
    model: JsonView,
    members: Seq<(Seq<char>, JsonView)>,
    merges: Seq<JsonView>,
    list: Seq<JsonView>,
)
    requires
        doc.get("model"@) == Some(model),
        model.get("vocab"@) == Some(JsonView::Object(members)),
        model.get("merges"@) == Some(JsonView::Array(merges)),
        doc.get("added_tokens"@) == Some(JsonView::Array(list)),
        described_by(tok, doc),
    ensures
        ({
            let added = added_tokens(list, list.len() as int);
            &&& tok.vocab == with_added(base_vocab(members, members.len() as int), added, added.len() as int)
            &&& tok.ranks == rank_map(merges, merges.len() as int)
            &&& tok.specials == longest_first(added)
        }),
{
}

/// A file without a list of added tokens has none.
pub proof fn added_tokens_may_be_left_out(doc: JsonView)
    requires
        doc.get("added_tokens"@) is None,
    ensures
        added_list(doc).len() == 0,
{
}

/// A document describes a tokenizer exactly where its vocabulary is an object of
/// whole numbers and its merges are a list of pairs.
pub proof fn documents_that_describe_a_tokenizer(doc: JsonView)
    ensures
        describes(doc) <==> (vocab_members(doc) matches Some(members) && forall|i: int|
            0 <= i < members.len() ==> (#[trigger] members[i]).1.as_u64() is Some) && (merge_list(doc) matches Some(
            merges,
        ) && forall|i: int| 0 <= i < merges.len() ==> merge_pair(#[trigger] merges[i]) is Some),
{
    if let Some(members) = vocab_members(doc) {
        lemma_bad_entry(members, 0);
    }
    if let Some(merges) = merge_list(doc) {
        lemma_bad_merge(merges, 0);
    }
}

/// What is wrong with a tokenizer's document is said in the order in which it is
/// read: no model, no vocabulary, the first entry that is no number, no merges, the
/// first merge that is no pair.
pub proof fn tokenizer_errors_come_in_order(doc: JsonView, issue: ConfigIssue)
    requires
        fault(doc, issue),
    ensures
        doc.get("model"@) is None <==> issue is NoModel,
        doc.get("model"@) is Some && vocab_members(doc) is None <==> issue is NoVocab,
        issue is NoMerges ==> merge_list(doc) is None,
        issue is BadMerge ==> merge_list(doc) is Some,
{
}

/// The vocabulary entry that a refusal names is the first that is no number.
pub proof fn the_first_bad_entry_is_named(
    doc: JsonView,
    issue: ConfigIssue,
    members: Seq<(Seq<char>, JsonView)>,
    i: int,
)
    requires
        fault(doc, issue),
        vocab_members(doc) == Some(members),
        0 <= i < members.len(),
        members[i].1.as_u64() is None,
        forall|k: int| 0 <= k < i ==> (#[trigger] members[k]).1.as_u64() is Some,
    ensures
        issue matches ConfigIssue::VocabEntry(key) && key@ == members[i].0,
{
    lemma_bad_entry(members, 0);
    let at = bad_entry(members, 0)->0;
    assert(members[at].1.as_u64() is None);
}

proof fn lemma_bad_entry(members: Seq<(Seq<char>, JsonView)>, from: int)
    requires
        0 <= from,
    ensures
        match bad_entry(members, from) {
            Some(i) => from <= i < members.len() && members[i].1.as_u64() is None && forall|k: int|
                from <= k < i ==> (#[trigger] members[k]).1.as_u64() is Some,
            None => forall|k: int| from <= k < members.len() ==> (#[trigger] members[k]).1.as_u64() is Some,
        },
    decreases members.len() - from,
{
    if from < members.len() && members[from].1.as_u64() is Some {
        lemma_bad_entry(members, from + 1);
    }
}

proof fn lemma_bad_merge(merges: Seq<JsonView>, from: int)
    requires
        0 <= from,
    ensures
        match bad_merge(merges, from) {
            Some(i) => from <= i < merges.len() && merge_pair(merges[i]) is None,
            None => forall|k: int| from <= k < merges.len() ==> merge_pair(#[trigger] merges[k]) is Some,
        },
    decreases merges.len() - from,
{
    if from < merges.len() && merge_pair(merges[from]) is Some {
        lemma_bad_merge(merges, from + 1);
    }
}

/// The merge that a refusal names is the first that states no pair.
pub proof fn the_first_bad_merge_is_named(merges: Seq<JsonView>, i: int)
    requires
        0 <= i < merges.len(),
        merge_pair(merges[i]) is None,
        forall|k: int| 0 <= k < i ==> merge_pair(#[trigger] merges[k]) is Some,
    ensures
        bad_merge(merges, 0) == Some(i),
{
    lemma_bad_at(merges, 0, i);
}

proof fn lemma_bad_at(merges: Seq<JsonView>, from: int, i: int)
    requires
        0 <= from <= i < merges.len(),
        merge_pair(merges[i]) is None,
        forall|k: int| from <= k < i ==> merge_pair(#[trigger] merges[k]) is Some,
    ensures
        bad_merge(merges, from) == Some(i),
    decreases i - from,
{
    if from < i {
        assert(merge_pair(merges[from]) is Some);
        lemma_bad_at(merges, from + 1, i);
    }
}

} // verus!
