//! Encoding and decoding undo each other.
//!
//! Everything here is proof: what a faithful tokenizer encodes, it decodes back.

use vstd::prelude::*;
use vstd::seq_lib::lemma_flatten_concat;
use vstd::utf8::{
    encode_utf8, encode_utf8_decode_utf8, encode_utf8_first_scalar, encode_utf8_valid_utf8,
};

use crate::bpe::{
    char_ids, ids_of, merge_all, merging_keeps_text, part_ids, singles, singles_keep_text,
};
use crate::bytemap::{byte_char, byte_chars, byte_map_is_a_bijection};
use crate::pretokenize::{pieces_of, pieces_reassemble};
use crate::specials::{
    byte_len, lemma_next_special, next_special, occurs_at, scan_ends, special_at,
};
use crate::tokenizer::{
    char_bytes, ids_bytes, ids_bytes_concat, lemma_one_id, piece_ids, pieces_ids,
    plain_ids, text_ids, token_bytes, TokenizerView,
};
use crate::utf8::{lossy, lossy_keeps_utf8};

verus! {

/// Whether a tokenizer can represent every text: each byte has a token, no two
/// tokens share an id, and every added token is filed under its id and decodes
/// to itself.
pub open spec fn faithful(tok: TokenizerView) -> bool {
    &&& forall|b: u8| tok.vocab.contains_key(seq![#[trigger] byte_char(b)])
    &&& forall|t: Seq<char>| #[trigger]
        tok.vocab.contains_key(t) ==> tok.vocab[t] < tok.texts.len() && tok.texts[tok.vocab[t] as int] == t
    &&& forall|k: int|
        0 <= k < tok.specials.len() ==> {
            let (text, id) = #[trigger] tok.specials[k];
            &&& id < tok.texts.len()
            &&& tok.texts[id as int] == text
            &&& token_bytes(text) == encode_utf8(text)
        }
}

proof fn lemma_encode_concat(a: Seq<char>, b: Seq<char>)
    ensures
        encode_utf8(a + b) == encode_utf8(a) + encode_utf8(b),
    decreases a.len(),
{
    if a.len() == 0 {
        assert(a + b =~= b);
        assert(encode_utf8(a) =~= seq![]);
    } else {
        lemma_encode_concat(a.drop_first(), b);
        assert((a + b).drop_first() =~= a.drop_first() + b);
        assert(encode_utf8(a + b) =~= encode_utf8(a) + encode_utf8(b));
    }
}

proof fn lemma_token_bytes(bytes: Seq<u8>)
    ensures
        token_bytes(byte_chars(bytes)) == bytes,
    decreases bytes.len(),
{
    let word = byte_chars(bytes);
    if bytes.len() > 0 {
        lemma_token_bytes(bytes.drop_last());
        assert(word.drop_last() =~= byte_chars(bytes.drop_last()));
        byte_map_is_a_bijection(bytes.last());
        assert(char_bytes(word.last()) == seq![bytes.last()]);
        assert(token_bytes(word) =~= bytes);
    } else {
        assert(token_bytes(word) =~= bytes);
    }
}

proof fn lemma_char_ids(tok: TokenizerView, bytes: Seq<u8>)
    requires
        faithful(tok),
    ensures
        ids_bytes(tok, char_ids(tok.vocab, byte_chars(bytes))) == bytes,
    decreases bytes.len(),
{
    let word = byte_chars(bytes);
    if bytes.len() > 0 {
        let front = bytes.drop_last();
        lemma_char_ids(tok, front);
        assert(word.drop_last() =~= byte_chars(front));
        let one = seq![byte_char(bytes.last())];
        assert(seq![word.last()] =~= one);
        assert(tok.vocab.contains_key(one));
        let id = tok.vocab[one];
        let before = char_ids(tok.vocab, byte_chars(front));
        assert(char_ids(tok.vocab, word) == before.push(id));
        assert(before.push(id) =~= before + seq![id]);
        ids_bytes_concat(tok, before, seq![id]);
        lemma_one_id(tok, id);
        lemma_token_bytes(seq![bytes.last()]);
        assert(byte_chars(seq![bytes.last()]) =~= one);
        assert(front + seq![bytes.last()] =~= bytes);
    } else {
        assert(char_ids(tok.vocab, word) =~= seq![]);
        assert(ids_bytes(tok, seq![]) =~= bytes);
    }
}

proof fn lemma_part_ids(tok: TokenizerView, bytes: Seq<u8>)
    requires
        faithful(tok),
    ensures
        ids_bytes(tok, part_ids(tok.vocab, byte_chars(bytes))) == bytes,
{
    let part = byte_chars(bytes);
    if tok.vocab.contains_key(part) {
        lemma_one_id(tok, tok.vocab[part]);
        lemma_token_bytes(bytes);
    } else {
        lemma_char_ids(tok, bytes);
    }
}

proof fn lemma_ids_of(tok: TokenizerView, parts: Seq<Seq<char>>, bytes: Seq<u8>)
    requires
        faithful(tok),
        parts.flatten() == byte_chars(bytes),
    ensures
        ids_bytes(tok, ids_of(tok.vocab, parts)) == bytes,
    decreases parts.len(),
{
    if parts.len() == 0 {
        assert(byte_chars(bytes).len() == 0);
        assert(bytes =~= seq![]);
        assert(ids_bytes(tok, seq![]) =~= bytes);
    } else {
        let front = parts.drop_last();
        let last = seq![parts.last()];
        lemma_flatten_concat(front, last);
        assert(front + last =~= parts);
        last.lemma_flatten_one_element();
        let cut = front.flatten().len() as int;
        let word = byte_chars(bytes);
        assert(word.len() == bytes.len());
        assert(word == front.flatten() + parts.last());
        assert(front.flatten() =~= word.take(cut));
        assert(parts.last() =~= word.skip(cut));
        assert(word.take(cut) =~= byte_chars(bytes.take(cut)));
        assert(word.skip(cut) =~= byte_chars(bytes.skip(cut)));
        lemma_ids_of(tok, front, bytes.take(cut));
        lemma_part_ids(tok, bytes.skip(cut));
        ids_bytes_concat(tok, ids_of(tok.vocab, front), part_ids(tok.vocab, parts.last()));
        assert(bytes.take(cut) + bytes.skip(cut) =~= bytes);
    }
}

proof fn lemma_piece_ids(tok: TokenizerView, piece: Seq<char>)
    requires
        faithful(tok),
    ensures
        ids_bytes(tok, piece_ids(tok, piece)) == encode_utf8(piece),
{
    let word = byte_chars(encode_utf8(piece));
    merging_keeps_text(tok.ranks, singles(word));
    singles_keep_text(word);
    lemma_ids_of(tok, merge_all(tok.ranks, singles(word)), encode_utf8(piece));
}

proof fn lemma_pieces_ids(tok: TokenizerView, pieces: Seq<Seq<char>>, n: int)
    requires
        faithful(tok),
        0 <= n <= pieces.len(),
    ensures
        ids_bytes(tok, pieces_ids(tok, pieces, n)) == encode_utf8(pieces.take(n).flatten()),
    decreases n,
{
    if n > 0 {
        lemma_pieces_ids(tok, pieces, n - 1);
        lemma_piece_ids(tok, pieces[n - 1]);
        ids_bytes_concat(tok, pieces_ids(tok, pieces, n - 1), piece_ids(tok, pieces[n - 1]));
        let last = seq![pieces[n - 1]];
        lemma_flatten_concat(pieces.take(n - 1), last);
        assert(pieces.take(n - 1) + last =~= pieces.take(n));
        last.lemma_flatten_one_element();
        lemma_encode_concat(pieces.take(n - 1).flatten(), pieces[n - 1]);
    } else {
        assert(pieces.take(0) =~= seq![]);
        assert(pieces.take(0).flatten() =~= seq![]);
        assert(ids_bytes(tok, seq![]) =~= seq![]);
        assert(encode_utf8(seq![]) =~= seq![]);
    }
}

proof fn lemma_plain_ids(tok: TokenizerView, text: Seq<char>)
    requires
        faithful(tok),
    ensures
        ids_bytes(tok, plain_ids(tok, text)) == encode_utf8(text),
{
    let pieces = pieces_of(text);
    pieces_reassemble(text);
    lemma_pieces_ids(tok, pieces, pieces.len() as int);
    assert(pieces.take(pieces.len() as int) =~= pieces);
}

/// Text survives a round trip: the bytes of a text's ids are its UTF-8, and
/// decoding them gives the text back.
pub proof fn text_survives_a_round_trip(tok: TokenizerView, text: Seq<char>)
    requires
        faithful(tok),
        scan_ends(tok.specials, text),
    ensures
        ids_bytes(tok, text_ids(tok, text)) == encode_utf8(text),
        lossy(ids_bytes(tok, text_ids(tok, text))) == text,
    decreases text.len(),
{
    if text.len() == 0 {
        assert(ids_bytes(tok, seq![]) =~= encode_utf8(text));
    } else {
        lemma_next_special(tok.specials, text, 0);
        match next_special(tok.specials, text, 0) {
            None => lemma_plain_ids(tok, text),
            Some((p, k)) => {
                let (special, id) = tok.specials[k];
                let head = text.take(p);
                let rest = text.skip(p + special.len());
                text_survives_a_round_trip(tok, rest);
                lemma_plain_ids(tok, head);
                let a = plain_ids(tok, head);
                ids_bytes_concat(tok, a, seq![id]);
                ids_bytes_concat(tok, a + seq![id], text_ids(tok, rest));
                lemma_one_id(tok, id);
                lemma_encode_concat(head, special);
                lemma_encode_concat(head + special, rest);
                assert(text.subrange(p, p + special.len()) == special);
                assert(head + special + rest =~= text);
            },
        }
    }
    encode_utf8_valid_utf8(text);
    encode_utf8_decode_utf8(text);
    lossy_keeps_utf8(encode_utf8(text));
}

proof fn lemma_not_before(tok: TokenizerView, text: Seq<char>, j: int, k: int)
    requires
        0 <= j <= k < tok.specials.len(),
        occurs_at(text, tok.specials[k].0, 0),
        forall|i: int| j <= i < k ==> !occurs_at(text, (#[trigger] tok.specials[i]).0, 0),
    ensures
        special_at(tok.specials, text, 0, j) == Some(k),
    decreases k - j,
{
    if j < k {
        assert(!occurs_at(text, tok.specials[j].0, 0));
        lemma_not_before(tok, text, j + 1, k);
    }
}

/// The text of an added token encodes to its id alone, where the added tokens
/// stand longest first and no earlier one has the same text.
pub proof fn added_token_is_one_id(tok: TokenizerView, k: int)
    requires
        0 <= k < tok.specials.len(),
        tok.specials[k].0.len() > 0,
        forall|i: int, j: int|
            #![trigger tok.specials[i], tok.specials[j]]
            0 <= i <= j < tok.specials.len() ==> byte_len(tok.specials[i].0) >= byte_len(
                tok.specials[j].0,
            ),
        forall|j: int| 0 <= j < k ==> (#[trigger] tok.specials[j]).0 != tok.specials[k].0,
    ensures
        text_ids(tok, tok.specials[k].0) == seq![tok.specials[k].1],
{
    let text = tok.specials[k].0;
    assert(text.subrange(0, text.len() as int) =~= text);
    assert forall|i: int| 0 <= i < k implies !occurs_at(text, (#[trigger] tok.specials[i]).0, 0) by {
        let other = tok.specials[i].0;
        if occurs_at(text, other, 0) {
            let tail = text.skip(other.len() as int);
            lemma_encode_concat(other, tail);
            assert(other + tail =~= text);
            assert(tok.specials[k].0 == text);
            assert(byte_len(other) >= byte_len(text));
            if tail.len() > 0 {
                encode_utf8_first_scalar(tail);
            }
            assert(tail =~= seq![]);
            assert(other =~= text);
        }
    }
    lemma_not_before(tok, text, 0, k);
    assert(text.skip(text.len() as int) =~= seq![]);
    assert(text.take(0) =~= seq![]);
    assert(pieces_of(seq![]) =~= seq![]);
    assert(plain_ids(tok, text.take(0)) =~= seq![]);
    assert(text_ids(tok, seq![]) =~= seq![]);
    assert(text_ids(tok, text) =~= seq![tok.specials[k].1]);
}

} // verus!
