//! Byte-level byte-pair encoding, read straight from a `tokenizer.json`.
//!
//! Text is normalised to NFC, split into pieces, and every byte of a piece is
//! turned into a printable character before merging by rank. Added tokens such
//! as `<|im_start|>` are recognised before any splitting, so that a chat
//! template can be built as a plain string.

use std::collections::HashMap;

use unicode_normalization::UnicodeNormalization;
use vstd::hash_map::StringHashMap;
use vstd::prelude::*;
use vstd::utf8::encode_utf8;

use crate::bpe::{ids_of, merge, merge_all, push_ids, singles, MergeTable, Pair};
use crate::bytemap::{byte_char, byte_chars, byte_code, byte_maps, char_byte, lemma_char_byte};
use crate::error::{ConfigIssue, Error};
use crate::json::{items_view, members_view, parsed_json, Json, JsonView};
use crate::pretokenize::{pieces_of, pre_tokenize};
use crate::specials::{
    find_special, laid_out, lemma_next_special, longest_first, next_special, scan_ends,
    sort_longest_first, special_views,
};
use crate::text::{chars_of, string_of};
use crate::utf8::{decode_lossy, decode_settled, lossy, settled, settled_then_rest, unsettled};

verus! {

/// What a tokenizer knows.
#[verifier::ext_equal]
pub struct TokenizerView {
    /// Token text, in printable characters, to id.
    pub vocab: Map<Seq<char>, u32>,
    /// Id to token text; empty where no token has the id.
    pub texts: Seq<Seq<char>>,
    /// Merge priority of each pair that merges; lower wins.
    pub ranks: Map<Pair, u32>,
    /// Added tokens, longest first.
    pub specials: Seq<(Seq<char>, u32)>,
}

/// A byte-level BPE tokenizer.
pub struct Tokenizer {
    vocab: StringHashMap<u32>,
    inv: Vec<String>,
    ranks: MergeTable,
    specials: Vec<(String, u32)>,
    byte_to_char: [char; 256],
    char_to_byte: HashMap<u32, u8>,
}

// ------------------------------------------------------------------ the file

/// The member of `model` with a key.
pub open spec fn model_member(doc: JsonView, key: Seq<char>) -> Option<JsonView> {
    match doc.get("model"@) {
        Some(m) => m.get(key),
        None => None,
    }
}

/// The vocabulary map, as its members.
pub open spec fn vocab_members(doc: JsonView) -> Option<Seq<(Seq<char>, JsonView)>> {
    match model_member(doc, "vocab"@) {
        Some(v) => v.as_object(),
        None => None,
    }
}

/// The list of merges.
pub open spec fn merge_list(doc: JsonView) -> Option<Seq<JsonView>> {
    match model_member(doc, "merges"@) {
        Some(v) => v.as_array(),
        None => None,
    }
}

/// The list of added tokens; empty where there is none.
pub open spec fn added_list(doc: JsonView) -> Seq<JsonView> {
    match doc.get("added_tokens"@) {
        Some(v) => match v.as_array() {
            Some(a) => a,
            None => seq![],
        },
        None => seq![],
    }
}

/// The position of the first vocabulary entry from `i` on that is not an integer.
pub open spec fn bad_entry(members: Seq<(Seq<char>, JsonView)>, i: int) -> Option<int>
    decreases members.len() - i,
    when 0 <= i
{
    if i >= members.len() {
        None
    } else if members[i].1.as_u64() is None {
        Some(i)
    } else {
        bad_entry(members, i + 1)
    }
}

/// The id a vocabulary entry or an added token states: the low half of its value.
pub open spec fn id_of(v: JsonView) -> u32 {
    v.as_u64()->0 as u32
}

/// The ids of the first `n` vocabulary entries, by their texts.
pub open spec fn base_vocab(members: Seq<(Seq<char>, JsonView)>, n: int) -> Map<Seq<char>, u32>
    decreases n,
{
    if n <= 0 {
        Map::empty()
    } else {
        base_vocab(members, n - 1).insert(members[n - 1].0, id_of(members[n - 1].1))
    }
}

/// What one entry of the added tokens says; nothing where it lacks its text or id.
pub open spec fn added_token(t: JsonView) -> Option<(Seq<char>, u32)> {
    match (t.get("content"@), t.get("id"@)) {
        (Some(c), Some(id)) => match (c.as_text(), id.as_u64()) {
            (Some(text), Some(n)) => Some((text, n as u32)),
            _ => None,
        },
        _ => None,
    }
}

/// The first `n` entries of the added tokens that say something.
pub open spec fn added_tokens(list: Seq<JsonView>, n: int) -> Seq<(Seq<char>, u32)>
    decreases n,
{
    if n <= 0 {
        seq![]
    } else {
        match added_token(list[n - 1]) {
            Some(t) => added_tokens(list, n - 1).push(t),
            None => added_tokens(list, n - 1),
        }
    }
}

/// A vocabulary with the first `n` added tokens. Texts it has keep their ids.
pub open spec fn with_added(vocab: Map<Seq<char>, u32>, added: Seq<(Seq<char>, u32)>, n: int) -> Map<
    Seq<char>,
    u32,
>
    decreases n,
{
    if n <= 0 {
        vocab
    } else {
        let before = with_added(vocab, added, n - 1);
        if before.contains_key(added[n - 1].0) {
            before
        } else {
            before.insert(added[n - 1].0, added[n - 1].1)
        }
    }
}

/// The highest id among the first `n` vocabulary entries and `m` added tokens,
/// or zero.
pub open spec fn highest_id(
    members: Seq<(Seq<char>, JsonView)>,
    n: int,
    added: Seq<(Seq<char>, u32)>,
    m: int,
) -> u32
    decreases n, m,
{
    if m > 0 {
        let low = highest_id(members, n, added, m - 1);
        if added[m - 1].1 > low {
            added[m - 1].1
        } else {
            low
        }
    } else if n > 0 {
        let low = highest_id(members, n - 1, added, 0);
        if id_of(members[n - 1].1) > low {
            id_of(members[n - 1].1)
        } else {
            low
        }
    } else {
        0
    }
}

/// Where the first space of a text is, from `i` on.
pub open spec fn first_space(text: Seq<char>, i: int) -> Option<int>
    decreases text.len() - i,
    when 0 <= i
{
    if i >= text.len() {
        None
    } else if text[i] == ' ' {
        Some(i)
    } else {
        first_space(text, i + 1)
    }
}

/// The pair a merge states: `"a b"`, cut at its first space, or `["a", "b"]`.
pub open spec fn merge_pair(m: JsonView) -> Option<Pair> {
    match m {
        JsonView::Text(s) => match first_space(s, 0) {
            Some(i) => Some((s.take(i), s.skip(i + 1))),
            None => None,
        },
        JsonView::Array(a) => if a.len() >= 2 {
            match (a[0].as_text(), a[1].as_text()) {
                (Some(x), Some(y)) => Some((x, y)),
                _ => None,
            }
        } else {
            None
        },
        _ => None,
    }
}

/// The position of the first merge from `i` on that states no pair.
pub open spec fn bad_merge(merges: Seq<JsonView>, i: int) -> Option<int>
    decreases merges.len() - i,
    when 0 <= i
{
    if i >= merges.len() {
        None
    } else if merge_pair(merges[i]) is None {
        Some(i)
    } else {
        bad_merge(merges, i + 1)
    }
}

/// The ranks of the first `n` merges: their positions, the last where a pair
/// occurs more than once.
pub open spec fn rank_map(merges: Seq<JsonView>, n: int) -> Map<Pair, u32>
    decreases n,
{
    if n <= 0 {
        Map::empty()
    } else {
        rank_map(merges, n - 1).insert(merge_pair(merges[n - 1])->0, (n - 1) as u32)
    }
}

/// Whether the texts by id fit a vocabulary: every id that a token has is that
/// of the text filed under it, and the rest are empty.
pub open spec fn texts_fit(vocab: Map<Seq<char>, u32>, texts: Seq<Seq<char>>) -> bool {
    &&& forall|t: Seq<char>| #[trigger] vocab.contains_key(t) ==> vocab[t] < texts.len()
    &&& forall|id: int|
        0 <= id < texts.len() ==> {
            ||| vocab.contains_key(#[trigger] texts[id]) && vocab[texts[id]] == id
            ||| texts[id] == Seq::<char>::empty() && forall|t: Seq<char>| #[trigger]
                vocab.contains_key(t) ==> vocab[t] != id
        }
}

/// Whether a tokenizer is the one a document describes.
///
/// Where two tokens share an id, which of them is filed under it is left open.
pub open spec fn described_by(tok: TokenizerView, doc: JsonView) -> bool {
    let members = vocab_members(doc)->0;
    let merges = merge_list(doc)->0;
    let list = added_list(doc);
    let added = added_tokens(list, list.len() as int);
    &&& tok.vocab == with_added(
        base_vocab(members, members.len() as int),
        added,
        added.len() as int,
    )
    &&& tok.specials == longest_first(added)
    &&& tok.ranks == rank_map(merges, merges.len() as int)
    &&& tok.texts.len() == highest_id(members, members.len() as int, added, added.len() as int) + 1
    &&& texts_fit(tok.vocab, tok.texts)
}

/// What is wrong with a document, the first thing found; nothing where it
/// describes a tokenizer.
pub open spec fn fault(doc: JsonView, issue: ConfigIssue) -> bool {
    if doc.get("model"@) is None {
        issue is NoModel
    } else if vocab_members(doc) is None {
        issue is NoVocab
    } else if bad_entry(vocab_members(doc)->0, 0) is Some {
        issue matches ConfigIssue::VocabEntry(key) && key@ == vocab_members(doc)->0[bad_entry(
            vocab_members(doc)->0,
            0,
        )->0].0
    } else if merge_list(doc) is None {
        issue is NoMerges
    } else {
        bad_merge(merge_list(doc)->0, 0) is Some && issue == ConfigIssue::BadMerge(
            bad_merge(merge_list(doc)->0, 0)->0 as usize,
        )
    }
}

/// Whether a document describes a tokenizer.
pub open spec fn describes(doc: JsonView) -> bool {
    &&& vocab_members(doc) is Some
    &&& bad_entry(vocab_members(doc)->0, 0) is None
    &&& merge_list(doc) is Some
    &&& bad_merge(merge_list(doc)->0, 0) is None
}

// ------------------------------------------------------------------ encoding

/// The form in which the outside crate normalises a text to NFC.
pub uninterp spec fn nfc_of(text: Seq<char>) -> Seq<char>;

/// The ids of one piece.
pub open spec fn piece_ids(tok: TokenizerView, piece: Seq<char>) -> Seq<u32> {
    word_ids(tok, byte_chars(encode_utf8(piece)))
}

/// The ids of a word in printable characters.
pub open spec fn word_ids(tok: TokenizerView, word: Seq<char>) -> Seq<u32> {
    ids_of(tok.vocab, merge_all(tok.ranks, singles(word)))
}

/// The ids of the first `n` pieces.
pub open spec fn pieces_ids(tok: TokenizerView, pieces: Seq<Seq<char>>, n: int) -> Seq<u32>
    decreases n,
{
    if n <= 0 {
        seq![]
    } else {
        pieces_ids(tok, pieces, n - 1) + piece_ids(tok, pieces[n - 1])
    }
}

/// The ids of a text that holds no added token.
pub open spec fn plain_ids(tok: TokenizerView, text: Seq<char>) -> Seq<u32> {
    pieces_ids(tok, pieces_of(text), pieces_of(text).len() as int)
}

/// The ids of a normalised text: those of what stands before the next added
/// token, its id, and those of what follows it.
pub open spec fn text_ids(tok: TokenizerView, text: Seq<char>) -> Seq<u32>
    decreases text.len(),
{
    if text.len() == 0 {
        seq![]
    } else {
        match next_special(tok.specials, text, 0) {
            None => plain_ids(tok, text),
            Some((p, k)) => {
                let rest = text.skip(p + tok.specials[k].0.len());
                plain_ids(tok, text.take(p)) + seq![tok.specials[k].1] + (if rest.len() < text.len() {
                    text_ids(tok, rest)
                } else {
                    seq![]
                })
            },
        }
    }
}

// ------------------------------------------------------------------ decoding

/// The bytes one character of a token stands for: its byte, or for a character
/// that stands for none its own UTF-8.
pub open spec fn char_bytes(c: char) -> Seq<u8> {
    match char_byte(c) {
        Some(b) => seq![b],
        None => encode_utf8(seq![c]),
    }
}

/// The bytes a token's text stands for.
pub open spec fn token_bytes(text: Seq<char>) -> Seq<u8>
    decreases text.len(),
{
    if text.len() == 0 {
        seq![]
    } else {
        token_bytes(text.drop_last()) + char_bytes(text.last())
    }
}

/// The bytes one id stands for; none where it is past the vocabulary.
pub open spec fn id_bytes(tok: TokenizerView, id: u32) -> Seq<u8> {
    if id < tok.texts.len() {
        token_bytes(tok.texts[id as int])
    } else {
        seq![]
    }
}

/// The bytes a list of ids stands for.
pub open spec fn ids_bytes(tok: TokenizerView, ids: Seq<u32>) -> Seq<u8>
    decreases ids.len(),
{
    if ids.len() == 0 {
        seq![]
    } else {
        ids_bytes(tok, ids.drop_last()) + id_bytes(tok, ids.last())
    }
}

// ---------------------------------------------------------------- the reader

/// The vocabulary entries read from a file, the highest id among them, and their
/// texts.
fn read_vocab(members: &Vec<(String, Json)>) -> (r: Result<(StringHashMap<u32>, u32, Vec<String>), ConfigIssue>)
    ensures
        ({
            let all = members_view(members@);
            match r {
                Ok((vocab, top, order)) => {
                    &&& bad_entry(all, 0) is None
                    &&& vocab@ == base_vocab(all, all.len() as int)
                    &&& top == highest_id(all, all.len() as int, seq![], 0)
                    &&& order@.len() == all.len()
                    &&& forall|i: int| 0 <= i < order@.len() ==> (#[trigger] order@[i])@ == all[i].0
                },
                Err(issue) => {
                    &&& bad_entry(all, 0) is Some
                    &&& issue matches ConfigIssue::VocabEntry(key) && key@ == all[bad_entry(all, 0)->0].0
                },
            }
        }),
{
    let ghost all = members_view(members@);
    let mut vocab: StringHashMap<u32> = StringHashMap::new();
    let mut order: Vec<String> = Vec::new();
    let mut top: u32 = 0;
    let mut i: usize = 0;
    while i < members.len()
        invariant
            i <= members@.len(),
            all == members_view(members@),
            bad_entry(all, 0) == bad_entry(all, i as int),
            vocab@ == base_vocab(all, i as int),
            top == highest_id(all, i as int, seq![], 0),
            order@.len() == i,
            forall|k: int| 0 <= k < order@.len() ==> (#[trigger] order@[k])@ == all[k].0,
        decreases members@.len() - i,
    {
        assert(all[i as int] == (members@[i as int].0@, members@[i as int].1@));
        let id: u32 = match members[i].1.as_u64() {
            Some(v) => v as u32,
            None => {
                return Err(ConfigIssue::VocabEntry(members[i].0.clone()));
            },
        };
        if id > top {
            top = id;
        }
        vocab.insert(members[i].0.clone(), id);
        order.push(members[i].0.clone());
        i = i + 1;
    }
    Ok((vocab, top, order))
}

/// Reads one entry of the added tokens.
fn read_added_token(t: &Json) -> (r: Option<(String, u32)>)
    ensures
        match (r, added_token(t@)) {
            (Some((text, id)), Some(want)) => text@ == want.0 && id == want.1,
            (None, None) => true,
            _ => false,
        },
{
    match (t.get("content"), t.get("id")) {
        (Some(c), Some(id)) => match (c.as_text(), id.as_u64()) {
            (Some(text), Some(n)) => Some((text.clone(), n as u32)),
            _ => None,
        },
        _ => None,
    }
}

/// Reads the added tokens.
fn read_added(list: &Vec<Json>) -> (added: Vec<(String, u32)>)
    ensures
        special_views(added@) == added_tokens(items_view(list@), list@.len() as int),
{
    let ghost all = items_view(list@);
    let mut added: Vec<(String, u32)> = Vec::new();
    let mut i: usize = 0;
    assert(special_views(added@) =~= seq![]);
    while i < list.len()
        invariant
            i <= list@.len(),
            all == items_view(list@),
            special_views(added@) == added_tokens(all, i as int),
        decreases list@.len() - i,
    {
        assert(all[i as int] == list@[i as int]@);
        let ghost before = special_views(added@);
        if let Some(t) = read_added_token(&list[i]) {
            added.push(t);
            assert(special_views(added@) =~= before.push((t.0@, t.1)));
        }
        i = i + 1;
    }
    added
}

/// Reads the pair that one merge states.
fn read_merge(m: &Json) -> (r: Option<(String, String)>)
    ensures
        match (r, merge_pair(m@)) {
            (Some((a, b)), Some(want)) => a@ == want.0 && b@ == want.1,
            (None, None) => true,
            _ => false,
        },
{
    if let Some(s) = m.as_text() {
        let chars = chars_of(s.as_str());
        let mut i: usize = 0;
        while i < chars.len()
            invariant
                i <= chars@.len(),
                chars@ == s@,
                m@ == JsonView::Text(s@),
                first_space(s@, 0) == first_space(s@, i as int),
            decreases chars@.len() - i,
        {
            if chars[i] == ' ' {
                let a = string_of(chars.as_slice(), 0, i);
                let b = string_of(chars.as_slice(), i + 1, chars.len());
                assert(a@ =~= s@.take(i as int));
                assert(b@ =~= s@.skip(i + 1));
                return Some((a, b));
            }
            i = i + 1;
        }
        return None;
    }
    if let Some(a) = m.as_array() {
        if a.len() >= 2 {
            assert(m@->Array_0[0] == a@[0]@ && m@->Array_0[1] == a@[1]@);
            if let (Some(x), Some(y)) = (a[0].as_text(), a[1].as_text()) {
                return Some((x.clone(), y.clone()));
            }
        }
    }
    None
}

/// Reads the list of merges.
fn read_merges(list: &Vec<Json>) -> (r: Result<MergeTable, ConfigIssue>)
    ensures
        ({
            let all = items_view(list@);
            match r {
                Ok(t) => {
                    &&& t.wf()
                    &&& bad_merge(all, 0) is None
                    &&& t@ == rank_map(all, all.len() as int)
                },
                Err(issue) => bad_merge(all, 0) is Some && issue == ConfigIssue::BadMerge(
                    bad_merge(all, 0)->0 as usize,
                ),
            }
        }),
{
    let ghost all = items_view(list@);
    let mut table = MergeTable::new();
    let mut i: usize = 0;
    while i < list.len()
        invariant
            i <= list@.len(),
            all == items_view(list@),
            table.wf(),
            bad_merge(all, 0) == bad_merge(all, i as int),
            table@ == rank_map(all, i as int),
        decreases list@.len() - i,
    {
        assert(all[i as int] == list@[i as int]@);
        match read_merge(&list[i]) {
            Some((a, b)) => {
                table.insert(&a, &b, i as u32);
            },
            None => {
                return Err(ConfigIssue::BadMerge(i));
            },
        }
        i = i + 1;
    }
    Ok(table)
}

proof fn lemma_base_vocab(members: Seq<(Seq<char>, JsonView)>, n: int)
    requires
        0 <= n <= members.len(),
    ensures
        forall|t: Seq<char>| #[trigger]
            base_vocab(members, n).contains_key(t) <==> exists|i: int|
                0 <= i < n && (#[trigger] members[i]).0 == t,
        forall|t: Seq<char>| #[trigger]
            base_vocab(members, n).contains_key(t) ==> base_vocab(members, n)[t] <= highest_id(
                members,
                n,
                seq![],
                0,
            ),
    decreases n,
{
    if n > 0 {
        lemma_base_vocab(members, n - 1);
        assert forall|t: Seq<char>| #[trigger]
            base_vocab(members, n).contains_key(t) <==> exists|i: int|
                0 <= i < n && (#[trigger] members[i]).0 == t by {
            if base_vocab(members, n).contains_key(t) {
                if t == members[n - 1].0 {
                    assert(members[n - 1].0 == t);
                } else {
                    assert(base_vocab(members, n - 1).contains_key(t));
                    let i = choose|i: int| 0 <= i < n - 1 && (#[trigger] members[i]).0 == t;
                    assert(members[i].0 == t);
                }
            }
            if exists|i: int| 0 <= i < n && (#[trigger] members[i]).0 == t {
                let i = choose|i: int| 0 <= i < n && (#[trigger] members[i]).0 == t;
                if i < n - 1 {
                    assert(base_vocab(members, n - 1).contains_key(t));
                }
            }
        }
        assert forall|t: Seq<char>| #[trigger]
            base_vocab(members, n).contains_key(t) implies base_vocab(members, n)[t] <= highest_id(
            members,
            n,
            seq![],
            0,
        ) by {
            if t != members[n - 1].0 {
                assert(base_vocab(members, n - 1).contains_key(t));
            }
        }
    }
}

proof fn lemma_highest_ignores_later(
    members: Seq<(Seq<char>, JsonView)>,
    n: int,
    added: Seq<(Seq<char>, u32)>,
    other: Seq<(Seq<char>, u32)>,
    m: int,
)
    requires
        0 <= m <= added.len(),
        m <= other.len(),
        forall|k: int| 0 <= k < m ==> added[k] == other[k],
    ensures
        highest_id(members, n, added, m) == highest_id(members, n, other, m),
    decreases n, m,
{
    if m > 0 {
        lemma_highest_ignores_later(members, n, added, other, m - 1);
    } else if n > 0 {
        lemma_highest_ignores_later(members, n - 1, added, other, 0);
    }
}

/// Files each text under its id.
fn file_texts(vocab: &StringHashMap<u32>, order: &Vec<String>, top: u32) -> (inv: Vec<String>)
    requires
        forall|t: Seq<char>| #[trigger]
            vocab@.contains_key(t) <==> exists|i: int| 0 <= i < order@.len() && (#[trigger] order@[i])@ == t,
        forall|t: Seq<char>| #[trigger] vocab@.contains_key(t) ==> vocab@[t] <= top,
    ensures
        inv@.len() == top + 1,
        texts_fit(vocab@, inv@.map_values(|s: String| s@)),
{
    let mut inv: Vec<String> = Vec::new();
    let mut n: u64 = 0;
    while n <= top as u64
        invariant
            n <= top + 1,
            inv@.len() == n,
            forall|id: int| 0 <= id < inv@.len() ==> (#[trigger] inv@[id])@ == Seq::<char>::empty(),
        decreases top + 1 - n,
    {
        inv.push(String::new());
        n = n + 1;
    }
    let mut i: usize = 0;
    while i < order.len()
        invariant
            i <= order@.len(),
            inv@.len() == top + 1,
            forall|t: Seq<char>| #[trigger]
                vocab@.contains_key(t) <==> exists|k: int|
                    0 <= k < order@.len() && (#[trigger] order@[k])@ == t,
            forall|t: Seq<char>| #[trigger] vocab@.contains_key(t) ==> vocab@[t] <= top,
            forall|id: int|
                0 <= id < inv@.len() ==> {
                    ||| vocab@.contains_key((#[trigger] inv@[id])@) && vocab@[inv@[id]@] == id
                    ||| inv@[id]@ == Seq::<char>::empty() && forall|k: int|
                        0 <= k < i ==> vocab@[(#[trigger] order@[k])@] != id
                },
        decreases order@.len() - i,
    {
        assert(vocab@.contains_key(order@[i as int]@));
        if let Some(id) = vocab.get(order[i].as_str()) {
            inv[*id as usize] = order[i].clone();
        }
        i = i + 1;
    }
    proof {
        let texts = inv@.map_values(|s: String| s@);
        assert forall|id: int| 0 <= id < texts.len() implies {
            ||| vocab@.contains_key(#[trigger] texts[id]) && vocab@[texts[id]] == id
            ||| texts[id] == Seq::<char>::empty() && forall|t: Seq<char>| #[trigger]
                vocab@.contains_key(t) ==> vocab@[t] != id
        } by {
            assert(texts[id] == inv@[id]@);
            if !(vocab@.contains_key(texts[id]) && vocab@[texts[id]] == id) {
                assert forall|t: Seq<char>| #[trigger] vocab@.contains_key(t) implies vocab@[t] != id by {
                    let k = choose|k: int| 0 <= k < order@.len() && (#[trigger] order@[k])@ == t;
                    assert(vocab@[order@[k]@] != id);
                }
            }
        }
    }
    inv
}

/// `UnicodeNormalization::nfc`, collected: the NFC form of a text, named
/// [`nfc_of`].
#[verifier::external_body]
fn normalize(text: &str) -> (r: String)
    ensures
        r@ == nfc_of(text@),
{
    text.nfc().collect()
}

impl Tokenizer {
    /// What the tokenizer knows.
    pub closed spec fn view(&self) -> TokenizerView {
        TokenizerView {
            vocab: self.vocab@,
            texts: self.inv@.map_values(|s: String| s@),
            ranks: self.ranks@,
            specials: special_views(self.specials@),
        }
    }

    #[verifier::type_invariant]
    spec fn wf(self) -> bool {
        &&& self.ranks.wf()
        &&& forall|b: u8| self.byte_to_char@[b as int] == #[trigger] byte_char(b)
        &&& forall|code: u32| #[trigger]
            self.char_to_byte@.contains_key(code) <==> exists|b: u8| #[trigger] byte_code(b) == code
        &&& forall|b: u8| self.char_to_byte@[#[trigger] byte_code(b)] == b
    }

    /// Builds the tokenizer that a parsed `tokenizer.json` describes.
    pub fn from_document(doc: &Json) -> (r: Result<Tokenizer, Error>)
        ensures
            r is Ok <==> describes(doc@),
            r matches Ok(tok) ==> described_by(tok@, doc@),
            r matches Err(e) ==> e matches Error::Config(issue) && fault(doc@, issue),
    {
        let model = match doc.get("model") {
            Some(m) => m,
            None => {
                return Err(Error::Config(ConfigIssue::NoModel));
            },
        };
        let members = match model.get("vocab") {
            Some(v) => match v.as_object() {
                Some(m) => m,
                None => {
                    return Err(Error::Config(ConfigIssue::NoVocab));
                },
            },
            None => {
                return Err(Error::Config(ConfigIssue::NoVocab));
            },
        };
        let ghost all = members_view(members@);
        let (mut vocab, mut top, mut order) = match read_vocab(members) {
            Ok(v) => v,
            Err(issue) => {
                return Err(Error::Config(issue));
            },
        };
        let added: Vec<(String, u32)> = match doc.get("added_tokens") {
            Some(v) => match v.as_array() {
                Some(list) => read_added(list),
                None => Vec::new(),
            },
            None => Vec::new(),
        };
        let ghost specials = special_views(added@);
        assert(specials =~= added_tokens(added_list(doc@), added_list(doc@).len() as int));
        let ghost base = base_vocab(all, all.len() as int);
        proof {
            lemma_base_vocab(all, all.len() as int);
            lemma_highest_ignores_later(all, all.len() as int, seq![], specials, 0);
            assert forall|t: Seq<char>| #[trigger] vocab@.contains_key(t) <==> exists|i: int|
                0 <= i < order@.len() && (#[trigger] order@[i])@ == t by {
                if vocab@.contains_key(t) {
                    let i = choose|i: int| 0 <= i < all.len() && (#[trigger] all[i]).0 == t;
                    assert(order@[i]@ == t);
                }
                if exists|i: int| 0 <= i < order@.len() && (#[trigger] order@[i])@ == t {
                    let i = choose|i: int| 0 <= i < order@.len() && (#[trigger] order@[i])@ == t;
                    assert(all[i].0 == t);
                }
            }
        }
        let mut i: usize = 0;
        while i < added.len()
            invariant
                i <= added@.len(),
                specials == special_views(added@),
                vocab@ == with_added(base, specials, i as int),
                top == highest_id(all, all.len() as int, specials, i as int),
                forall|t: Seq<char>| #[trigger]
                    vocab@.contains_key(t) <==> exists|k: int|
                        0 <= k < order@.len() && (#[trigger] order@[k])@ == t,
                forall|t: Seq<char>| #[trigger] vocab@.contains_key(t) ==> vocab@[t] <= top,
            decreases added@.len() - i,
        {
            let id: u32 = added[i].1;
            let ghost text = added@[i as int].0@;
            assert(specials[i as int] == (text, id));
            if id > top {
                top = id;
            }
            if !vocab.contains_key(added[i].0.as_str()) {
                let ghost before = vocab@;
                let ghost listed = order@;
                vocab.insert(added[i].0.clone(), id);
                order.push(added[i].0.clone());
                proof {
                    assert forall|t: Seq<char>| #[trigger] vocab@.contains_key(t) <==> exists|k: int|
                        0 <= k < order@.len() && (#[trigger] order@[k])@ == t by {
                        if vocab@.contains_key(t) {
                            if t == text {
                                assert(order@[listed.len() as int]@ == t);
                            } else {
                                assert(before.contains_key(t));
                                let k = choose|k: int| 0 <= k < listed.len() && (#[trigger] listed[k])@ == t;
                                assert(order@[k]@ == t);
                            }
                        }
                        if exists|k: int| 0 <= k < order@.len() && (#[trigger] order@[k])@ == t {
                            let k = choose|k: int| 0 <= k < order@.len() && (#[trigger] order@[k])@ == t;
                            if k < listed.len() {
                                assert(listed[k]@ == t);
                                assert(before.contains_key(t));
                            }
                        }
                    }
                }
            }
            i = i + 1;
        }
        let inv = file_texts(&vocab, &order, top);
        let merges = match model.get("merges") {
            Some(v) => match v.as_array() {
                Some(m) => m,
                None => {
                    return Err(Error::Config(ConfigIssue::NoMerges));
                },
            },
            None => {
                return Err(Error::Config(ConfigIssue::NoMerges));
            },
        };
        let ranks = match read_merges(merges) {
            Ok(t) => t,
            Err(issue) => {
                return Err(Error::Config(issue));
            },
        };
        let specials = sort_longest_first(added);
        let (byte_to_char, char_to_byte) = byte_maps();
        Ok(Tokenizer { vocab, inv, ranks, specials, byte_to_char, char_to_byte })
    }

    /// Parses a `tokenizer.json`.
    pub fn from_json(text: &str) -> (r: Result<Tokenizer, Error>)
        ensures
            r is Ok <==> parsed_json(text@) is Some && describes(parsed_json(text@)->0),
            r matches Ok(tok) ==> described_by(tok@, parsed_json(text@)->0),
            r matches Err(e) ==> e matches Error::Config(issue) && match parsed_json(text@) {
                None => issue is NotJson,
                Some(doc) => fault(doc, issue),
            },
    {
        match Json::parse(text) {
            Ok(doc) => Tokenizer::from_document(&doc),
            Err(words) => Err(Error::Config(ConfigIssue::NotJson(words))),
        }
    }

    /// Vocabulary size, counting added tokens: one more than the highest id.
    pub fn vocab_size(&self) -> (n: usize)
        ensures
            n == self@.texts.len(),
    {
        self.inv.len()
    }

    /// Looks up a token by its literal text, e.g. `"<|im_end|>"`.
    pub fn token_id(&self, text: &str) -> (id: Option<u32>)
        ensures
            id matches Some(n) ==> self@.vocab.contains_key(text@) && self@.vocab[text@] == n,
            id is None ==> !self@.vocab.contains_key(text@),
    {
        match self.vocab.get(text) {
            Some(id) => Some(*id),
            None => None,
        }
    }

    /// Greedy BPE: merges the adjacent pair with the lowest rank until none is
    /// left, and appends the ids of the parts.
    pub fn bpe(&self, word: &str, out: &mut Vec<u32>)
        ensures
            final(out)@ == old(out)@ + word_ids(self@, word@),
    {
        proof {
            use_type_invariant(self);
        }
        let chars = chars_of(word);
        let parts = merge(&self.ranks, chars.as_slice());
        push_ids(&self.vocab, &parts, out);
    }

    /// Encodes text that holds no added token.
    pub fn encode_plain(&self, text: &str, out: &mut Vec<u32>)
        ensures
            final(out)@ == old(out)@ + plain_ids(self@, text@),
    {
        let pieces = pre_tokenize(text);
        let ghost all = pieces_of(text@);
        let ghost start = out@;
        let mut i: usize = 0;
        assert(out@ =~= start + pieces_ids(self@, all, 0));
        while i < pieces.len()
            invariant
                i <= pieces@.len(),
                pieces@.map_values(|p: String| p@) == all,
                out@ == start + pieces_ids(self@, all, i as int),
            decreases pieces@.len() - i,
        {
            assert(all[i as int] == pieces@[i as int]@);
            let mapped = self.byte_level(pieces[i].as_str());
            self.bpe(mapped.as_str(), out);
            i = i + 1;
            assert(out@ =~= start + pieces_ids(self@, all, i as int));
        }
        assert(pieces@.len() == all.len());
    }

    /// The printable characters that the bytes of a text stand as.
    fn byte_level(&self, text: &str) -> (mapped: String)
        ensures
            mapped@ == byte_chars(encode_utf8(text@)),
    {
        proof {
            use_type_invariant(self);
        }
        let bytes = text.as_bytes();
        let mut mapped = String::new();
        let mut i: usize = 0;
        while i < bytes.len()
            invariant
                i <= bytes@.len(),
                bytes@ == encode_utf8(text@),
                mapped@ == byte_chars(bytes@.take(i as int)),
                forall|b: u8| self.byte_to_char@[b as int] == #[trigger] byte_char(b),
            decreases bytes@.len() - i,
        {
            mapped.push(self.byte_to_char[bytes[i] as usize]);
            i = i + 1;
            assert(mapped@ =~= byte_chars(bytes@.take(i as int)));
        }
        assert(bytes@.take(i as int) =~= bytes@);
        mapped
    }

    /// Encodes normalised text, recognising added tokens.
    ///
    /// With an empty added token the reading may never come to an end; such texts
    /// are left out by the precondition.
    pub fn encode_with_specials(&self, text: &str, out: &mut Vec<u32>)
        requires
            scan_ends(self@.specials, text@),
        ensures
            final(out)@ == old(out)@ + text_ids(self@, text@),
    {
        let ghost tok = self@;
        let chars = chars_of(text);
        let patterns = self.patterns();
        let mut from: usize = 0;
        assert(chars@.skip(0) =~= chars@);
        while from < chars.len()
            invariant
                from <= chars@.len(),
                chars@ == text@,
                tok == self@,
                laid_out(patterns@, tok.specials),
                scan_ends(tok.specials, text@.skip(from as int)),
                out@ + text_ids(tok, text@.skip(from as int)) == old(out)@ + text_ids(tok, text@),
            decreases chars@.len() - from,
        {
            let ghost rest = text@.skip(from as int);
            let ghost done = out@;
            let tail = string_of(chars.as_slice(), from, chars.len());
            let left = chars_of(tail.as_str());
            assert(left@ =~= rest);
            proof {
                lemma_next_special(tok.specials, rest, 0);
            }
            match find_special(&patterns, left.as_slice(), 0, Ghost(tok.specials)) {
                Some((pos, k)) => {
                    let before = string_of(left.as_slice(), 0, pos);
                    assert(before@ =~= rest.take(pos as int));
                    self.encode_plain(before.as_str(), out);
                    let id: u32 = self.specials[k].1;
                    assert(id == tok.specials[k as int].1);
                    out.push(id);
                    let len: usize = patterns[k].len();
                    from = from + pos + len;
                    proof {
                        assert(rest.skip(pos + len) =~= text@.skip(from as int));
                        assert(out@ + text_ids(tok, text@.skip(from as int)) =~= done + (plain_ids(
                            tok,
                            rest.take(pos as int),
                        ) + seq![id] + text_ids(tok, text@.skip(from as int))));
                    }
                },
                None => {
                    self.encode_plain(tail.as_str(), out);
                    return;
                },
            }
        }
        assert(text@.skip(from as int) =~= seq![]);
        assert(out@ + Seq::<u32>::empty() =~= out@);
    }

    /// The added tokens' characters, laid out for searching.
    fn patterns(&self) -> (patterns: Vec<Vec<char>>)
        ensures
            laid_out(patterns@, self@.specials),
    {
        let mut patterns: Vec<Vec<char>> = Vec::new();
        let mut i: usize = 0;
        while i < self.specials.len()
            invariant
                i <= self.specials@.len(),
                patterns@.len() == i,
                forall|k: int|
                    0 <= k < i ==> (#[trigger] patterns@[k])@ == special_views(self.specials@)[k].0,
            decreases self.specials@.len() - i,
        {
            patterns.push(chars_of(self.specials[i].0.as_str()));
            i = i + 1;
        }
        patterns
    }

    /// Encodes text to token ids.
    ///
    /// Added tokens such as `<|im_start|>` are recognised in the input, which is
    /// what lets a chat template be built as a plain string.
    pub fn encode(&self, text: &str) -> (ids: Vec<u32>)
        requires
            scan_ends(self@.specials, nfc_of(text@)),
        ensures
            ids@ == text_ids(self@, nfc_of(text@)),
    {
        let normalized = normalize(text);
        let mut out: Vec<u32> = Vec::new();
        self.encode_with_specials(normalized.as_str(), &mut out);
        assert(out@ =~= text_ids(self@, nfc_of(text@)));
        out
    }

    /// Whether reading a text for added tokens comes to an end.
    fn reading_ends(&self, text: &str) -> (r: bool)
        ensures
            r == scan_ends(self@.specials, text@),
    {
        let ghost tok = self@;
        let patterns = self.patterns();
        let mut left = chars_of(text);
        while left.len() > 0
            invariant
                laid_out(patterns@, tok.specials),
                scan_ends(tok.specials, text@) == scan_ends(tok.specials, left@),
                tok == self@,
            decreases left@.len(),
        {
            proof {
                lemma_next_special(tok.specials, left@, 0);
            }
            match find_special(&patterns, left.as_slice(), 0, Ghost(tok.specials)) {
                Some((pos, k)) => {
                    let len: usize = patterns[k].len();
                    if len == 0 {
                        return false;
                    }
                    let rest = string_of(left.as_slice(), pos + len, left.len());
                    assert(rest@ =~= left@.skip(pos + len));
                    left = chars_of(rest.as_str());
                },
                None => {
                    return true;
                },
            }
        }
        true
    }

    /// Encodes text to token ids; nothing where an empty added token keeps the
    /// reading from coming to an end.
    pub fn try_encode(&self, text: &str) -> (ids: Option<Vec<u32>>)
        ensures
            ids is Some <==> scan_ends(self@.specials, nfc_of(text@)),
            ids matches Some(v) ==> v@ == text_ids(self@, nfc_of(text@)),
    {
        let normalized = normalize(text);
        if self.reading_ends(normalized.as_str()) {
            Some(self.encode(text))
        } else {
            None
        }
    }

    /// Decodes ids back to bytes.
    ///
    /// Bytes rather than a string, because a single token can end inside a
    /// character, and a streaming caller must be able to hold the tail until it
    /// completes. See [`StreamDecoder`].
    pub fn decode_bytes(&self, ids: &[u32]) -> (bytes: Vec<u8>)
        ensures
            bytes@ == ids_bytes(self@, ids@),
    {
        broadcast use vstd::std_specs::hash::group_hash_axioms;

        proof {
            use_type_invariant(self);
        }
        let ghost tok = self@;
        let mut out: Vec<u8> = Vec::new();
        let mut i: usize = 0;
        assert(ids@.take(0) =~= seq![]);
        while i < ids.len()
            invariant
                i <= ids@.len(),
                tok == self@,
                out@ == ids_bytes(tok, ids@.take(i as int)),
            decreases ids@.len() - i,
        {
            let id: u32 = ids[i];
            let ghost before = out@;
            if (id as usize) < self.inv.len() {
                self.push_token_bytes(self.inv[id as usize].as_str(), &mut out);
                assert(tok.texts[id as int] == self.inv@[id as int]@);
            }
            i = i + 1;
            proof {
                let next = ids@.take(i as int);
                assert(next.drop_last() =~= ids@.take(i - 1));
                assert(out@ =~= before + id_bytes(tok, id));
            }
        }
        assert(ids@.take(i as int) =~= ids@);
        out
    }

    /// Appends the bytes that a token's text stands for.
    fn push_token_bytes(&self, text: &str, out: &mut Vec<u8>)
        ensures
            final(out)@ == old(out)@ + token_bytes(text@),
    {
        broadcast use vstd::std_specs::hash::group_hash_axioms;

        proof {
            use_type_invariant(self);
        }
        let chars = chars_of(text);
        let mut i: usize = 0;
        assert(text@.take(0) =~= seq![]);
        assert(out@ =~= old(out)@ + token_bytes(text@.take(0)));
        while i < chars.len()
            invariant
                i <= chars@.len(),
                chars@ == text@,
                out@ == old(out)@ + token_bytes(text@.take(i as int)),
                forall|code: u32| #[trigger]
                    self.char_to_byte@.contains_key(code) <==> exists|b: u8| #[trigger]
                        byte_code(b) == code,
                forall|b: u8| self.char_to_byte@[#[trigger] byte_code(b)] == b,
            decreases chars@.len() - i,
        {
            let c = chars[i];
            let ghost before = out@;
            proof {
                lemma_char_byte(c);
            }
            match self.char_to_byte.get(&(c as u32)) {
                Some(b) => {
                    out.push(*b);
                },
                None => {
                    let mut own = String::new();
                    own.push(c);
                    assert(own@ =~= seq![c]);
                    out.extend_from_slice(own.as_str().as_bytes());
                },
            }
            i = i + 1;
            proof {
                let next = text@.take(i as int);
                assert(next.drop_last() =~= text@.take(i - 1));
                assert(out@ =~= before + char_bytes(c));
                assert(out@ =~= old(out)@ + token_bytes(next));
            }
        }
        assert(text@.take(i as int) =~= text@);
    }

    /// Decodes ids to a string, replacing anything that is not valid UTF-8.
    pub fn decode(&self, ids: &[u32]) -> (text: String)
        ensures
            text@ == lossy(ids_bytes(self@, ids@)),
    {
        let bytes = self.decode_bytes(ids);
        decode_lossy(bytes.as_slice())
    }
}

// ----------------------------------------------------------------- streaming

/// Emits text as tokens arrive, holding back incomplete UTF-8.
///
/// A multi-byte character is usually several tokens, so decoding each token on
/// its own produces replacement characters mid-word. This holds the tail until
/// it forms valid UTF-8.
pub struct StreamDecoder {
    buf: Vec<u8>,
}

impl Default for StreamDecoder {
    fn default() -> (d: StreamDecoder)
        ensures
            d@ == Seq::<u8>::empty(),
    {
        StreamDecoder { buf: Vec::new() }
    }
}

impl StreamDecoder {
    /// The bytes held back.
    pub closed spec fn view(&self) -> Seq<u8> {
        self.buf@
    }

    /// Feeds one token and returns whatever text is now settled.
    ///
    /// A truncated but still valid beginning of a character is held, for the next
    /// token may complete it. Bytes that can never become valid are replaced and
    /// passed over, so that one malformed byte cannot silence the stream.
    pub fn push(&mut self, tok: &Tokenizer, id: u32) -> (text: String)
        ensures
            text@ == settled(old(self)@ + id_bytes(tok@, id)),
            final(self)@ == unsettled(old(self)@ + id_bytes(tok@, id)),
    {
        let one: [u32; 1] = [id];
        let more = tok.decode_bytes(one.as_slice());
        proof {
            lemma_one_id(tok@, id);
            assert(one@ =~= seq![id]);
        }
        let mut bytes = self.buf.clone();
        assert(bytes@ =~= self.buf@);
        bytes.extend_from_slice(more.as_slice());
        assert(bytes@ =~= old(self)@ + id_bytes(tok@, id));
        let mut out = String::new();
        let rest: usize = decode_settled(bytes.as_slice(), &mut out);
        assert(out@ =~= settled(bytes@));
        let ghost all = bytes@;
        let held = bytes.split_off(rest);
        assert(held@ =~= all.skip(rest as int));
        self.buf = held;
        out
    }

    /// Flushes anything left, lossily. Call at the end of a generation.
    pub fn finish(&mut self) -> (text: String)
        ensures
            text@ == lossy(old(self)@),
            final(self)@ == Seq::<u8>::empty(),
    {
        let out = decode_lossy(self.buf.as_slice());
        self.buf = Vec::new();
        out
    }
}

/// The text that feeding a list of ids to a decoder and finishing emits, put end
/// to end, when it holds some bytes at the start.
pub open spec fn streamed(tok: TokenizerView, held: Seq<u8>, ids: Seq<u32>) -> Seq<char>
    decreases ids.len(),
{
    if ids.len() == 0 {
        lossy(held)
    } else {
        let bytes = held + id_bytes(tok, ids.first());
        settled(bytes) + streamed(tok, unsettled(bytes), ids.drop_first())
    }
}

pub proof fn lemma_one_id(tok: TokenizerView, id: u32)
    ensures
        ids_bytes(tok, seq![id]) == id_bytes(tok, id),
{
    let one = seq![id];
    assert(one.drop_last() =~= seq![]);
    assert(ids_bytes(tok, seq![]) =~= seq![]);
    assert(ids_bytes(tok, one) =~= id_bytes(tok, id));
}

/// The bytes of two lists of ids, one behind the other.
pub proof fn ids_bytes_concat(tok: TokenizerView, a: Seq<u32>, b: Seq<u32>)
    ensures
        ids_bytes(tok, a + b) == ids_bytes(tok, a) + ids_bytes(tok, b),
    decreases b.len(),
{
    if b.len() == 0 {
        assert(a + b =~= a);
        assert(ids_bytes(tok, a) + ids_bytes(tok, b) =~= ids_bytes(tok, a));
    } else {
        ids_bytes_concat(tok, a, b.drop_last());
        assert((a + b).drop_last() =~= a + b.drop_last());
        assert(ids_bytes(tok, a + b) =~= ids_bytes(tok, a) + ids_bytes(tok, b));
    }
}

/// Streaming emits exactly what a decoding in one go gives, whatever the decoder
/// holds at the start.
pub proof fn streaming_is_bulk_decoding(tok: TokenizerView, held: Seq<u8>, ids: Seq<u32>)
    ensures
        streamed(tok, held, ids) == lossy(held + ids_bytes(tok, ids)),
    decreases ids.len(),
{
    if ids.len() == 0 {
        assert(held + ids_bytes(tok, ids) =~= held);
    } else {
        let first = id_bytes(tok, ids.first());
        let rest = ids_bytes(tok, ids.drop_first());
        streaming_is_bulk_decoding(tok, unsettled(held + first), ids.drop_first());
        settled_then_rest(held + first, rest);
        let one = seq![ids.first()];
        ids_bytes_concat(tok, one, ids.drop_first());
        assert(one + ids.drop_first() =~= ids);
        lemma_one_id(tok, ids.first());
        assert(held + ids_bytes(tok, ids) =~= (held + first) + rest);
    }
}

} // verus!
