//! What the ids of a text are, step by step.

use vstd::prelude::*;
use vstd::utf8::encode_utf8;

use crate::bpe::{
    best_pair, char_ids, ids_of, is_best, merge_all, merged_at, part_ids, rank_at, ranked, singles,
    Pair,
};
use crate::bytemap::{byte_char, byte_chars, byte_code, byte_map_is_a_bijection, shifted_below};
use crate::json::JsonView;
use crate::pretokenize::{pieces_follow_each_other, pieces_of};
use crate::specials::{next_special, occurs_at, special_at};
use crate::tokenizer::{
    added_tokens, base_vocab, first_space, highest_id, id_of, ids_bytes, merge_pair, piece_ids,
    pieces_ids, plain_ids, rank_map, text_ids, token_bytes, with_added, TokenizerView,
};

verus! {

// ------------------------------------------------------------------ merging

/// Whether no two neighbours of a list merge.
pub open spec fn nothing_merges(ranks: Map<Pair, u32>, parts: Seq<Seq<char>>) -> bool {
    forall|i: int, j: int|
        0 <= i && j == i + 1 && j < parts.len() ==> !ranks.contains_key(
            (#[trigger] parts[i], #[trigger] parts[j]),
        )
}

/// Among pairs that merge there is one to merge first.
proof fn lemma_best_exists(ranks: Map<Pair, u32>, parts: Seq<Seq<char>>, n: int, i: int) -> (b: int)
    requires
        ranked(ranks, parts, i),
        i < n,
    ensures
        ranked(ranks, parts, b),
        b < n,
        forall|j: int|
            j < n && #[trigger] ranked(ranks, parts, j) ==> rank_at(ranks, parts, b) < rank_at(
                ranks,
                parts,
                j,
            ) || (rank_at(ranks, parts, b) == rank_at(ranks, parts, j) && b <= j),
    decreases n,
{
    let last = n - 1;
    if exists|k: int| k < last && ranked(ranks, parts, k) {
        let k = choose|k: int| k < last && ranked(ranks, parts, k);
        assert(0 <= k);
        let b = lemma_best_exists(ranks, parts, last, k);
        if ranked(ranks, parts, last) && rank_at(ranks, parts, last) < rank_at(ranks, parts, b) {
            last
        } else {
            b
        }
    } else {
        assert(i == last);
        i
    }
}

/// There is a pair to merge as long as some pair merges.
proof fn lemma_best_pair(ranks: Map<Pair, u32>, parts: Seq<Seq<char>>)
    ensures
        match best_pair(ranks, parts) {
            Some(i) => is_best(ranks, parts, i),
            None => forall|i: int| !#[trigger] ranked(ranks, parts, i),
        },
{
    if exists|i: int| ranked(ranks, parts, i) {
        let i = choose|i: int| ranked(ranks, parts, i);
        let b = lemma_best_exists(ranks, parts, parts.len() as int, i);
        assert(is_best(ranks, parts, b));
    }
}

/// Merging goes on until nothing merges any more.
pub proof fn merging_goes_on_to_the_end(ranks: Map<Pair, u32>, parts: Seq<Seq<char>>)
    ensures
        nothing_merges(ranks, merge_all(ranks, parts)),
        nothing_merges(ranks, parts) ==> merge_all(ranks, parts) == parts,
    decreases parts.len(),
{
    lemma_best_pair(ranks, parts);
    match best_pair(ranks, parts) {
        Some(i) => {
            merging_goes_on_to_the_end(ranks, merged_at(parts, i));
            if nothing_merges(ranks, parts) {
                let (x, y) = (parts[i], parts[i + 1]);
                assert(!ranks.contains_key((x, y)));
            }
        },
        None => {
            assert forall|i: int, j: int| 0 <= i && j == i + 1 && j < parts.len() implies !ranks.contains_key(
                (#[trigger] parts[i], #[trigger] parts[j]),
            ) by {
                assert(!ranked(ranks, parts, i));
            }
        },
    }
}

/// The pair of the lowest rank merges first, and of several of that rank the
/// leftmost; then merging goes on with the two made one.
pub proof fn the_lowest_rank_merges_first(ranks: Map<Pair, u32>, parts: Seq<Seq<char>>, i: int)
    requires
        0 <= i,
        i + 1 < parts.len(),
        ranks.contains_key((parts[i], parts[i + 1])),
        forall|j: int, k: int|
            0 <= j < i && k == j + 1 && ranks.contains_key(
                (#[trigger] parts[j], #[trigger] parts[k]),
            ) ==> ranks[(parts[i], parts[i + 1])] < ranks[(parts[j], parts[k])],
        forall|j: int, k: int|
            i < j && k == j + 1 && k < parts.len() && ranks.contains_key(
                (#[trigger] parts[j], #[trigger] parts[k]),
            ) ==> ranks[(parts[i], parts[i + 1])] <= ranks[(parts[j], parts[k])],
    ensures
        merge_all(ranks, parts) == merge_all(
            ranks,
            parts.take(i) + seq![parts[i] + parts[i + 1]] + parts.skip(i + 2),
        ),
{
    assert forall|j: int| #[trigger] ranked(ranks, parts, j) implies rank_at(ranks, parts, i)
        < rank_at(ranks, parts, j) || (rank_at(ranks, parts, i) == rank_at(ranks, parts, j) && i
        <= j) by {
        let (x, y) = (parts[j], parts[j + 1]);
    }
    assert(ranked(ranks, parts, i));
    assert(is_best(ranks, parts, i));
    lemma_best_pair(ranks, parts);
    let b = best_pair(ranks, parts)->0;
    assert(ranked(ranks, parts, b));
    assert(b == i);
}

/// Merging starts from the characters of a word, one by one.
pub proof fn words_start_as_characters(word: Seq<char>)
    ensures
        singles(word).len() == word.len(),
        forall|i: int| 0 <= i < word.len() ==> #[trigger] singles(word)[i] == seq![word[i]],
{
}

// ---------------------------------------------------------------------- ids

/// A part that has an id is that id.
pub proof fn known_parts_are_one_id(vocab: Map<Seq<char>, u32>, part: Seq<char>)
    requires
        vocab.contains_key(part),
    ensures
        ids_of(vocab, seq![part]) == seq![vocab[part]],
{
    let one = seq![part];
    assert(one.drop_last() =~= Seq::empty());
    assert(ids_of(vocab, one.drop_last()) =~= Seq::empty());
    assert(one.last() == part);
    assert(ids_of(vocab, one) =~= seq![vocab[part]]);
}

/// A part without an id is the ids of its characters, in order; one that has none
/// itself is left out.
pub proof fn unknown_parts_fall_apart(vocab: Map<Seq<char>, u32>, front: Seq<char>, c: char)
    requires
        !vocab.contains_key(front.push(c)),
        front.len() > 0 ==> !vocab.contains_key(front),
    ensures
        ids_of(vocab, seq![front.push(c)]) == (if front.len() > 0 {
            ids_of(vocab, seq![front])
        } else {
            Seq::empty()
        }) + (if vocab.contains_key(seq![c]) {
            seq![vocab[seq![c]]]
        } else {
            Seq::empty()
        }),
{
    let part = front.push(c);
    assert(part.drop_last() =~= front);
    let one = seq![part];
    assert(one.drop_last() =~= Seq::empty());
    assert(ids_of(vocab, one.drop_last()) =~= Seq::empty());
    assert(ids_of(vocab, one) =~= char_ids(vocab, part));
    let f = seq![front];
    assert(f.drop_last() =~= Seq::empty());
    assert(ids_of(vocab, f) =~= part_ids(vocab, front));
}

/// The ids of parts one after another are their ids one after another.
pub proof fn ids_follow_the_parts(vocab: Map<Seq<char>, u32>, a: Seq<Seq<char>>, b: Seq<Seq<char>>)
    ensures
        ids_of(vocab, a + b) == ids_of(vocab, a) + ids_of(vocab, b),
    decreases b.len(),
{
    if b.len() == 0 {
        assert(a + b =~= a);
        assert(ids_of(vocab, a) + ids_of(vocab, b) =~= ids_of(vocab, a));
    } else {
        ids_follow_the_parts(vocab, a, b.drop_last());
        assert((a + b).drop_last() =~= a + b.drop_last());
        assert((a + b).last() == b.last());
        assert(ids_of(vocab, a + b) =~= ids_of(vocab, a) + ids_of(vocab, b));
    }
}

/// The bytes of a piece's UTF-8, each as its character, are what is merged; the
/// parts that are left give the ids.
pub proof fn a_piece_is_merged_from_its_bytes(tok: TokenizerView, piece: Seq<char>)
    ensures
        ({
            let bytes = encode_utf8(piece);
            let start = Seq::new(bytes.len(), |i: int| seq![byte_char(bytes[i])]);
            piece_ids(tok, piece) == ids_of(tok.vocab, merge_all(tok.ranks, start))
        }),
{
    let bytes = encode_utf8(piece);
    let start = Seq::new(bytes.len(), |i: int| seq![byte_char(bytes[i])]);
    assert(singles(byte_chars(bytes)) =~= start);
}

/// A text without added tokens is encoded piece by piece.
pub proof fn texts_are_encoded_piece_by_piece(tok: TokenizerView, text: Seq<char>)
    requires
        text.len() > 0,
    ensures
        pieces_of(text).len() > 0,
        plain_ids(tok, text) == piece_ids(tok, pieces_of(text)[0]) + plain_ids(
            tok,
            text.skip(pieces_of(text)[0].len() as int),
        ),
        plain_ids(tok, Seq::empty()) == Seq::<u32>::empty(),
{
    pieces_follow_each_other(text);
    let all = pieces_of(text);
    let rest = pieces_of(text.skip(all[0].len() as int));
    lemma_pieces_ids(tok, all[0], rest, rest.len() as int);
    assert(pieces_of(Seq::empty()) =~= Seq::empty());
    assert(plain_ids(tok, Seq::empty()) =~= Seq::<u32>::empty());
}

proof fn lemma_pieces_ids(tok: TokenizerView, first: Seq<char>, rest: Seq<Seq<char>>, n: int)
    requires
        0 <= n <= rest.len(),
    ensures
        pieces_ids(tok, seq![first] + rest, n + 1) == piece_ids(tok, first) + pieces_ids(
            tok,
            rest,
            n,
        ),
    decreases n,
{
    let all = seq![first] + rest;
    if n == 0 {
        assert(pieces_ids(tok, all, 0) =~= Seq::empty());
        assert(all[0] == first);
        assert(pieces_ids(tok, all, 1) =~= piece_ids(tok, first) + pieces_ids(tok, rest, 0));
    } else {
        lemma_pieces_ids(tok, first, rest, n - 1);
        assert(all[n] == rest[n - 1]);
        assert(pieces_ids(tok, all, n + 1) =~= piece_ids(tok, first) + pieces_ids(tok, rest, n));
    }
}

// ------------------------------------------------------------- added tokens

proof fn lemma_special_none(specials: Seq<(Seq<char>, u32)>, text: Seq<char>, at: int, k: int)
    requires
        0 <= k,
        forall|j: int| k <= j < specials.len() ==> !occurs_at(text, (#[trigger] specials[j]).0, at),
    ensures
        special_at(specials, text, at, k) is None,
    decreases specials.len() - k,
{
    if k < specials.len() {
        assert(!occurs_at(text, specials[k].0, at));
        lemma_special_none(specials, text, at, k + 1);
    }
}

proof fn lemma_special_first(specials: Seq<(Seq<char>, u32)>, text: Seq<char>, at: int, k: int, j: int)
    requires
        0 <= j <= k < specials.len(),
        occurs_at(text, specials[k].0, at),
        forall|i: int| j <= i < k ==> !occurs_at(text, (#[trigger] specials[i]).0, at),
    ensures
        special_at(specials, text, at, j) == Some(k),
    decreases k - j,
{
    if j < k {
        assert(!occurs_at(text, specials[j].0, at));
        lemma_special_first(specials, text, at, k, j + 1);
    }
}

proof fn lemma_next(specials: Seq<(Seq<char>, u32)>, text: Seq<char>, from: int, p: int, k: int)
    requires
        0 <= from <= p < text.len(),
        special_at(specials, text, p, 0) == Some(k),
        forall|q: int| from <= q < p ==> special_at(specials, text, q, 0) is None,
    ensures
        next_special(specials, text, from) == Some((p, k)),
    decreases p - from,
{
    if from < p {
        assert(special_at(specials, text, from, 0) is None);
        lemma_next(specials, text, from + 1, p, k);
    }
}

proof fn lemma_next_none(specials: Seq<(Seq<char>, u32)>, text: Seq<char>, from: int)
    requires
        0 <= from,
        forall|q: int| from <= q < text.len() ==> special_at(specials, text, q, 0) is None,
    ensures
        next_special(specials, text, from) is None,
    decreases text.len() - from,
{
    if from < text.len() {
        assert(special_at(specials, text, from, 0) is None);
        lemma_next_none(specials, text, from + 1);
    }
}

/// A text in which no added token stands is encoded as plain text.
pub proof fn texts_without_added_tokens_are_plain(tok: TokenizerView, text: Seq<char>)
    requires
        forall|k: int, q: int|
            #![trigger tok.specials[k], text.skip(q)]
            0 <= k < tok.specials.len() && 0 <= q < text.len() ==> !tok.specials[k].0.is_prefix_of(
                text.skip(q),
            ),
    ensures
        text_ids(tok, text) == plain_ids(tok, text),
{
    assert forall|q: int| 0 <= q < text.len() implies special_at(tok.specials, text, q, 0) is None by {
        assert forall|j: int| 0 <= j < tok.specials.len() implies !occurs_at(
            text,
            (#[trigger] tok.specials[j]).0,
            q,
        ) by {
            lemma_occurs(text, tok.specials[j].0, q);
            let t = text.skip(q);
        }
        lemma_special_none(tok.specials, text, q, 0);
    }
    lemma_next_none(tok.specials, text, 0);
    if text.len() == 0 {
        assert(text =~= Seq::empty());
        assert(pieces_of(text) =~= Seq::empty());
        assert(plain_ids(tok, text) =~= Seq::<u32>::empty());
    }
}

proof fn lemma_occurs(text: Seq<char>, pattern: Seq<char>, at: int)
    requires
        0 <= at <= text.len(),
    ensures
        occurs_at(text, pattern, at) <==> pattern.is_prefix_of(text.skip(at)),
{
    let t = text.skip(at);
    if at + pattern.len() <= text.len() {
        assert(text.subrange(at, at + pattern.len()) =~= t.take(pattern.len() as int));
    }
    if occurs_at(text, pattern, at) {
        assert(pattern =~= t.take(pattern.len() as int));
    }
}

/// Where an added token stands behind some text, none stands anywhere earlier, and
/// none that is listed before it stands there too: the text before it is encoded
/// as plain text, the added token is its id, and reading goes on behind it.
pub proof fn added_tokens_are_cut_out(tok: TokenizerView, before: Seq<char>, k: int, rest: Seq<char>)
    requires
        0 <= k < tok.specials.len(),
        tok.specials[k].0.len() > 0,
        forall|j: int, q: int|
            #![trigger tok.specials[j], (before + tok.specials[k].0 + rest).skip(q)]
            0 <= j < tok.specials.len() && 0 <= q < before.len() ==> !tok.specials[j].0.is_prefix_of(
                (before + tok.specials[k].0 + rest).skip(q),
            ),
        forall|j: int|
            0 <= j < k ==> !(#[trigger] tok.specials[j]).0.is_prefix_of(tok.specials[k].0 + rest),
    ensures
        text_ids(tok, before + tok.specials[k].0 + rest) == plain_ids(tok, before) + seq![
            tok.specials[k].1,
        ] + text_ids(tok, rest),
{
    let special = tok.specials[k].0;
    let text = before + special + rest;
    let p = before.len() as int;
    assert(text.skip(p) =~= special + rest);
    assert forall|q: int| 0 <= q < p implies special_at(tok.specials, text, q, 0) is None by {
        assert forall|j: int| 0 <= j < tok.specials.len() implies !occurs_at(
            text,
            (#[trigger] tok.specials[j]).0,
            q,
        ) by {
            lemma_occurs(text, tok.specials[j].0, q);
            let t = text.skip(q);
        }
        lemma_special_none(tok.specials, text, q, 0);
    }
    assert(text.subrange(p, p + special.len()) =~= special);
    assert forall|i: int| 0 <= i < k implies !occurs_at(text, (#[trigger] tok.specials[i]).0, p) by {
        lemma_occurs(text, tok.specials[i].0, p);
    }
    lemma_special_first(tok.specials, text, p, k, 0);
    lemma_next(tok.specials, text, 0, p, k);
    assert(text.take(p) =~= before);
    assert(text.skip(p + special.len()) =~= rest);
}

// ------------------------------------------------------------------ the bytes

/// The characters bytes stand as: the visible ones of Latin-1 as themselves, the
/// control characters and the space from U+0100 on, then those from 0x7f to 0xa0,
/// then 0xad.
pub proof fn bytes_have_their_characters(b: u8)
    ensures
        byte_code(b) == if b <= 0x20 {
            0x100 + b
        } else if b <= 0x7e {
            b as int
        } else if b <= 0xa0 {
            0x121 + b - 0x7f
        } else if b == 0xad {
            0x143
        } else {
            b as int
        },
{
    lemma_shifted(b as int);
}

proof fn lemma_shifted(b: int)
    requires
        0 <= b <= 0xff,
    ensures
        shifted_below(b) == if b <= 0x21 {
            b
        } else if b <= 0x7f {
            0x21
        } else if b <= 0xa1 {
            0x21 + b - 0x7f
        } else if b <= 0xad {
            0x43
        } else {
            0x44
        },
    decreases b,
{
    if b > 0 {
        lemma_shifted(b - 1);
    }
}

/// The bytes of a token's text are those of its characters in order; a character
/// that a byte stands as is that byte, and any other is its own UTF-8.
pub proof fn tokens_are_the_bytes_of_their_characters(a: Seq<char>, c: char, b: u8)
    ensures
        token_bytes(a.push(byte_char(b))) == token_bytes(a).push(b),
        (forall|x: u8| #[trigger] byte_char(x) != c) ==> token_bytes(a.push(c)) == token_bytes(a)
            + encode_utf8(seq![c]),
        token_bytes(Seq::empty()) == Seq::<u8>::empty(),
{
    byte_map_is_a_bijection(b);
    let x = a.push(byte_char(b));
    assert(x.drop_last() =~= a);
    assert(token_bytes(x) =~= token_bytes(a).push(b));
    assert(a.push(c).drop_last() =~= a);
}

/// An id is the bytes of its token, and an id that no token has is nothing.
pub proof fn ids_are_the_bytes_of_their_tokens(tok: TokenizerView, ids: Seq<u32>, id: u32)
    ensures
        id < tok.texts.len() ==> ids_bytes(tok, ids.push(id)) == ids_bytes(tok, ids) + token_bytes(
            tok.texts[id as int],
        ),
        id >= tok.texts.len() ==> ids_bytes(tok, ids.push(id)) == ids_bytes(tok, ids),
        ids_bytes(tok, Seq::empty()) == Seq::<u8>::empty(),
{
    assert(ids.push(id).drop_last() =~= ids);
    assert(ids_bytes(tok, ids) + Seq::<u8>::empty() =~= ids_bytes(tok, ids));
}

// ------------------------------------------------------------------- the file

proof fn lemma_vocab_later(members: Seq<(Seq<char>, JsonView)>, n: int, k: int)
    requires
        0 <= k < n <= members.len(),
        forall|j: int| k < j < n ==> (#[trigger] members[j]).0 != members[k].0,
    ensures
        base_vocab(members, n).contains_key(members[k].0),
        base_vocab(members, n)[members[k].0] == id_of(members[k].1),
    decreases n,
{
    if k < n - 1 {
        lemma_vocab_later(members, n - 1, k);
        assert(members[n - 1].0 != members[k].0);
    }
}

proof fn lemma_vocab_only(members: Seq<(Seq<char>, JsonView)>, n: int, t: Seq<char>)
    requires
        0 <= n <= members.len(),
        forall|j: int| 0 <= j < n ==> (#[trigger] members[j]).0 != t,
    ensures
        !base_vocab(members, n).contains_key(t),
    decreases n,
{
    if n > 0 {
        lemma_vocab_only(members, n - 1, t);
        assert(members[n - 1].0 != t);
    }
}

/// A vocabulary has the texts of its entries and no others, each with the id its
/// last entry states.
pub proof fn vocabularies_say_what_they_list(members: Seq<(Seq<char>, JsonView)>, k: int, t: Seq<char>)
    requires
        0 <= k < members.len(),
        forall|j: int| k < j < members.len() ==> (#[trigger] members[j]).0 != members[k].0,
    ensures
        ({
            let vocab = base_vocab(members, members.len() as int);
            &&& vocab.contains_key(members[k].0)
            &&& members[k].1 matches JsonView::Number(Some(id)) ==> id <= u32::MAX ==> vocab[members[k].0]
                == id
            &&& (forall|j: int| 0 <= j < members.len() ==> (#[trigger] members[j]).0 != t)
                ==> !vocab.contains_key(t)
        }),
{
    lemma_vocab_later(members, members.len() as int, k);
    if forall|j: int| 0 <= j < members.len() ==> (#[trigger] members[j]).0 != t {
        lemma_vocab_only(members, members.len() as int, t);
    }
}

/// Added tokens join a vocabulary: a text it has keeps its id, a new one gets the
/// id its first entry states, and nothing else comes in.
pub proof fn added_tokens_join_a_vocabulary(
    vocab: Map<Seq<char>, u32>,
    added: Seq<(Seq<char>, u32)>,
    n: int,
    t: Seq<char>,
)
    requires
        0 <= n <= added.len(),
    ensures
        vocab.contains_key(t) ==> with_added(vocab, added, n).contains_key(t) && with_added(
            vocab,
            added,
            n,
        )[t] == vocab[t],
        forall|k: int|
            0 <= k < n && (#[trigger] added[k]).0 == t && !vocab.contains_key(t) && (forall|j: int|
                0 <= j < k ==> (#[trigger] added[j]).0 != t) ==> with_added(vocab, added, n).contains_key(
                t,
            ) && with_added(vocab, added, n)[t] == added[k].1,
        with_added(vocab, added, n).contains_key(t) ==> vocab.contains_key(t) || exists|k: int|
            0 <= k < n && (#[trigger] added[k]).0 == t,
    decreases n,
{
    if n > 0 {
        added_tokens_join_a_vocabulary(vocab, added, n - 1, t);
        assert(added[n - 1].0 == added[n - 1].0);
    }
}

/// The pair of a merge that is written as two texts with a space between them, or
/// as a list of two.
pub proof fn merges_are_pairs(a: Seq<char>, b: Seq<char>)
    requires
        forall|i: int| 0 <= i < a.len() ==> #[trigger] a[i] != ' ',
    ensures
        merge_pair(JsonView::Text(a + seq![' '] + b)) == Some((a, b)),
        merge_pair(JsonView::Array(seq![JsonView::Text(a), JsonView::Text(b)])) == Some((a, b)),
        merge_pair(JsonView::Text(a)) is None,
{
    let s = a + seq![' '] + b;
    lemma_first_space(s, 0, a.len() as int);
    assert(s.take(a.len() as int) =~= a);
    assert(s.skip(a.len() as int + 1) =~= b);
    lemma_no_space(a, 0);
}

proof fn lemma_first_space(s: Seq<char>, i: int, at: int)
    requires
        0 <= i <= at < s.len(),
        s[at] == ' ',
        forall|k: int| i <= k < at ==> #[trigger] s[k] != ' ',
    ensures
        first_space(s, i) == Some(at),
    decreases at - i,
{
    if i < at {
        lemma_first_space(s, i + 1, at);
    }
}

proof fn lemma_no_space(s: Seq<char>, i: int)
    requires
        0 <= i,
        forall|k: int| i <= k < s.len() ==> #[trigger] s[k] != ' ',
    ensures
        first_space(s, i) is None,
    decreases s.len() - i,
{
    if i < s.len() {
        lemma_no_space(s, i + 1);
    }
}

/// A merge ranks by its place in the list, so that an earlier one goes first; a
/// pair that is listed again has its last place.
pub proof fn merges_rank_by_their_places(merges: Seq<JsonView>, n: int, k: int)
    requires
        0 <= k < n <= merges.len(),
        n <= u32::MAX,
        merge_pair(merges[k]) is Some,
        forall|j: int| k < j < n ==> merge_pair(#[trigger] merges[j]) != merge_pair(merges[k]),
        forall|j: int| 0 <= j < n ==> merge_pair(#[trigger] merges[j]) is Some,
    ensures
        rank_map(merges, n).contains_key(merge_pair(merges[k])->0),
        rank_map(merges, n)[merge_pair(merges[k])->0] == k,
    decreases n,
{
    if k < n - 1 {
        merges_rank_by_their_places(merges, n - 1, k);
        assert(merge_pair(merges[n - 1]) != merge_pair(merges[k]));
    }
}

/// Every pair that merges is listed.
pub proof fn only_listed_pairs_merge(merges: Seq<JsonView>, n: int, p: Pair)
    requires
        0 <= n <= merges.len(),
        forall|j: int| 0 <= j < n ==> merge_pair(#[trigger] merges[j]) is Some,
        rank_map(merges, n).contains_key(p),
    ensures
        exists|j: int| 0 <= j < n && merge_pair(#[trigger] merges[j]) == Some(p),
    decreases n,
{
    if merge_pair(merges[n - 1]) != Some(p) {
        only_listed_pairs_merge(merges, n - 1, p);
    }
}

/// An added token counts that states a text and an id.
pub proof fn added_tokens_state_a_text_and_an_id(
    list: Seq<JsonView>,
    t: JsonView,
    text: Seq<char>,
    id: u32,
)
    requires
        t.get("content"@) == Some(JsonView::Text(text)),
        t.get("id"@) == Some(JsonView::Number(Some(id as u64))),
    ensures
        added_tokens(list.push(t), list.len() as int + 1) == added_tokens(list, list.len() as int).push(
            (text, id),
        ),
        added_tokens(Seq::empty(), 0) == Seq::<(Seq<char>, u32)>::empty(),
{
    let n = list.len() as int;
    assert(list.push(t)[n] == t);
    lemma_added_prefix(list, t, n);
}

/// One that lacks its text or its id is passed over.
pub proof fn incomplete_added_tokens_are_passed_over(list: Seq<JsonView>, t: JsonView)
    requires
        !(t.get("content"@) matches Some(JsonView::Text(_))) || !(t.get("id"@) matches Some(
            JsonView::Number(Some(_)),
        )),
    ensures
        added_tokens(list.push(t), list.len() as int + 1) == added_tokens(list, list.len() as int),
{
    let n = list.len() as int;
    assert(list.push(t)[n] == t);
    lemma_added_prefix(list, t, n);
}

proof fn lemma_added_prefix(list: Seq<JsonView>, t: JsonView, n: int)
    requires
        0 <= n <= list.len(),
    ensures
        added_tokens(list.push(t), n) == added_tokens(list, n),
    decreases n,
{
    if n > 0 {
        lemma_added_prefix(list, t, n - 1);
        assert(list.push(t)[n - 1] == list[n - 1]);
    }
}

/// The vocabulary is as large as its highest id calls for: none is higher, and
/// some entry or added token has it, unless there is none.
pub proof fn the_highest_id_is_the_highest(
    members: Seq<(Seq<char>, JsonView)>,
    n: int,
    added: Seq<(Seq<char>, u32)>,
    m: int,
)
    requires
        0 <= n <= members.len(),
        0 <= m <= added.len(),
    ensures
        forall|i: int| 0 <= i < n ==> id_of((#[trigger] members[i]).1) <= highest_id(members, n, added, m),
        forall|i: int| 0 <= i < m ==> (#[trigger] added[i]).1 <= highest_id(members, n, added, m),
        highest_id(members, n, added, m) == 0 || (exists|i: int|
            0 <= i < n && id_of((#[trigger] members[i]).1) == highest_id(members, n, added, m)) || (
        exists|i: int| 0 <= i < m && (#[trigger] added[i]).1 == highest_id(members, n, added, m)),
    decreases n, m,
{
    if m > 0 {
        the_highest_id_is_the_highest(members, n, added, m - 1);
        assert(added[m - 1].1 == added[m - 1].1);
    } else if n > 0 {
        the_highest_id_is_the_highest(members, n - 1, added, 0);
        assert(id_of(members[n - 1].1) == id_of(members[n - 1].1));
    }
}

} // verus!
