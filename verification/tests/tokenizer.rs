//! The pre-tokenizer, the byte map and the tokenizer.

use whetstone::bytemap::byte_maps;
use whetstone::error::{ConfigIssue, Error};
use whetstone::pretokenize::pre_tokenize;
use whetstone::{StreamDecoder, Tokenizer};

#[test]
fn byte_map_is_a_bijection() {
    let (fwd, rev) = byte_maps();
    assert_eq!(rev.len(), 256);
    for b in 0u8..=255 {
        assert_eq!(rev[&(fwd[b as usize] as u32)], b, "byte {b} did not round trip");
    }
}

#[test]
fn pre_tokenizer_holds_back_the_space_before_a_word() {
    // The run of spaces before "hello" must leave its last space to be absorbed
    // into " hello".
    assert_eq!(pre_tokenize("a  hello"), vec!["a", " ", " hello"]);
    assert_eq!(pre_tokenize("hi there"), vec!["hi", " there"]);
    // Trailing whitespace has nothing after it, so it is kept whole.
    assert_eq!(pre_tokenize("hi  "), vec!["hi", "  "]);
}

#[test]
fn pre_tokenizer_stops_a_newline_run_after_its_last_newline() {
    assert_eq!(pre_tokenize("a  \n\n  b"), vec!["a", "  \n\n", " ", " b"]);
    assert_eq!(pre_tokenize("x\ny"), vec!["x", "\n", "y"]);
}

#[test]
fn pre_tokenizer_splits_digits_singly_and_keeps_contractions() {
    assert_eq!(pre_tokenize("in 2024"), vec!["in", " ", "2", "0", "2", "4"]);
    assert_eq!(pre_tokenize("don't"), vec!["don", "'t"]);
    assert_eq!(pre_tokenize("It's"), vec!["It", "'s"]);
    assert_eq!(pre_tokenize("we'll"), vec!["we", "'ll"]);
}

#[test]
fn pre_tokenizer_terminates_on_every_input() {
    for s in ["", " ", "\u{0}", "🙂", "\u{200b}", "a\u{301}", "!!!", "\r\n\r\n"] {
        let parts = pre_tokenize(s);
        assert_eq!(parts.concat(), s, "pieces must reassemble {s:?}");
    }
}

#[test]
fn pre_tokenizer_output_always_reassembles() {
    let corpus = "The quick brown fox — 42 apples, 3.14159!\n\n  Résumé naïve \
                  \u{4f60}\u{597d} 🙂🙃 tabs\there\r\n  trailing   ";
    assert_eq!(pre_tokenize(corpus).concat(), corpus);
}

#[test]
fn stream_decoder_holds_partial_utf8() {
    // A hand-built tokenizer whose first two tokens begin one 3-byte character:
    // 0xE4 0xBD 0xA0 is U+4F60.
    let spec = r#"{"added_tokens": [],
        "model": {"type": "BPE", "vocab": {"ä": 0, "½": 1, " ": 2, "A": 3}, "merges": []}}"#;
    let t = Tokenizer::from_json(spec).unwrap();

    let mut d = StreamDecoder::default();
    assert_eq!(d.push(&t, 0), "", "an incomplete character must not be emitted");
    assert_eq!(d.push(&t, 1), "", "still incomplete");

    // Now break it. The two held bytes can never complete, so they become a
    // replacement character and the stream continues.
    assert_eq!(d.push(&t, 3), "\u{fffd}A");
    assert_eq!(d.push(&t, 3), "A", "the decoder recovered");
    assert_eq!(d.finish(), "", "nothing left held");
}

#[test]
fn stream_decoder_completes_a_split_character() {
    // U+4F60 is the bytes E4 BD A0. E4 and BD stand for themselves in the byte
    // map, but A0 lands on U+0142.
    let spec = r#"{"added_tokens": [],
        "model": {"type": "BPE", "vocab": {"ä": 0, "½": 1, "ł": 2}, "merges": []}}"#;
    let t = Tokenizer::from_json(spec).unwrap();

    let mut d = StreamDecoder::default();
    assert_eq!(d.push(&t, 0), "");
    assert_eq!(d.push(&t, 1), "");
    assert_eq!(d.push(&t, 2), "\u{4f60}", "the character emits once complete");
    assert_eq!(d.finish(), "");
}

/// A tokenizer with one token for each byte, a few merges and the chat markup.
fn byte_level() -> Tokenizer {
    let (fwd, _) = byte_maps();
    let mut vocab = serde_json::Map::new();
    for (id, c) in fwd.iter().enumerate() {
        vocab.insert(c.to_string(), serde_json::Value::from(id as u64));
    }
    for (i, t) in ["th", "the", "\u{120}a", "in"].iter().enumerate() {
        vocab.insert(t.to_string(), serde_json::Value::from(256 + i as u64));
    }
    let merges = r#"["t h", ["th", "e"], "\u0120 a", "i n"]"#;
    let spec = format!(
        r#"{{"added_tokens": [{{"content": "<|endoftext|>", "id": 300}}, {{"content": "<|im_start|>", "id": 301}},
            {{"content": "<|im_end|>", "id": 302}}],
            "model": {{"type": "BPE", "vocab": {}, "merges": {merges}}}}}"#,
        serde_json::Value::Object(vocab)
    );
    Tokenizer::from_json(&spec).unwrap()
}

#[test]
fn text_survives_a_round_trip() {
    let t = byte_level();
    let cases = [
        "The capital of France is Paris.",
        "def fib(n):\n    return n if n < 2 else fib(n-1) + fib(n-2)",
        "  leading and trailing   ",
        "line one\n\nline two\r\nline three",
        "\u{4f60}\u{597d}\u{ff0c}\u{4e16}\u{754c}",
        "emoji: \u{1f642}\u{1f643}\u{1f680}",
        "caf\u{e9} vs cafe\u{301}",
        "1234567890 and 3.14159",
        "don't can't we'll they've I'm he'd It's",
        "<|im_start|>user\nhi<|im_end|>",
        "",
        " ",
        "\t\t",
    ];

    for c in cases {
        let ids = t.encode(c);
        let back = t.decode(&ids);
        // The composed form is what comes back.
        let want: String = unicode_normalization::UnicodeNormalization::nfc(c).collect();
        assert_eq!(back, want, "round trip failed for {c:?} (ids {ids:?})");
    }
}

#[test]
fn chat_markup_tokenizes_as_single_tokens() {
    let t = byte_level();
    for s in ["<|im_start|>", "<|im_end|>", "<|endoftext|>"] {
        let ids = t.encode(s);
        assert_eq!(ids.len(), 1, "{s} tokenized as {ids:?}, expected one token");
        assert_eq!(t.token_id(s), Some(ids[0]));
    }

    let prompt = "<|im_start|>system\nYou are helpful.<|im_end|>\n<|im_start|>user\nhi<|im_end|>\n";
    let ids = t.encode(prompt);
    let start = t.token_id("<|im_start|>").unwrap();
    let end = t.token_id("<|im_end|>").unwrap();
    assert_eq!(ids.iter().filter(|&&i| i == start).count(), 2);
    assert_eq!(ids.iter().filter(|&&i| i == end).count(), 2);
    assert_eq!(t.decode(&ids), prompt);
}

#[test]
fn streaming_reassembles_exactly_what_a_bulk_decode_gives() {
    let t = byte_level();
    let text = "\u{4f60}\u{597d} \u{1f680} caf\u{e9} \u{4e16}\u{754c}!";
    let ids = t.encode(text);

    let mut d = StreamDecoder::default();
    let mut streamed = String::new();
    for &id in &ids {
        streamed.push_str(&d.push(&t, id));
    }
    streamed.push_str(&d.finish());

    assert_eq!(streamed, t.decode(&ids));
    assert!(!streamed.contains('\u{fffd}'), "streaming emitted a replacement char");
}

#[test]
fn merges_apply_by_rank() {
    let t = byte_level();
    // "t h" merges first, then "th e"; a lone "a" behind a space is one token.
    assert_eq!(t.encode("the"), vec![257]);
    assert_eq!(t.encode("th"), vec![256]);
    assert_eq!(t.encode("x a"), vec!['x' as u32, 258]);
    assert_eq!(t.encode("tin"), vec!['t' as u32, 259]);
    let mut out = vec![7];
    t.bpe("the", &mut out);
    assert_eq!(out, vec![7, 257]);
    // One id of each kind and the ids that no token has.
    assert_eq!(t.vocab_size(), 303);
    assert_eq!(t.token_id("the"), Some(257));
    assert_eq!(t.token_id("thei"), None);
}

#[test]
fn decomposed_text_is_composed_before_it_is_encoded() {
    let t = byte_level();
    assert_eq!(t.encode("e\u{301}"), vec![0xc3, 0xa9]);
    assert_eq!(t.encode("e\u{301}"), t.encode("\u{e9}"));
    assert_eq!(t.try_encode("e\u{301}"), Some(vec![0xc3, 0xa9]));
    let mut out = Vec::new();
    t.encode_plain("<|im_end|>", &mut out);
    assert!(out.len() > 1, "plain text knows no markup");
    out.clear();
    t.encode_with_specials("a<|im_end|>", &mut out);
    assert_eq!(out, vec!['a' as u32, 302]);
}

#[test]
fn broken_bytes_decode_to_replacement_characters() {
    let t = byte_level();
    assert_eq!(t.decode_bytes(&[0xe4, 0x41, 9999]), vec![0xe4, 0x41]);
    assert_eq!(t.decode(&[0xe4, 0x41]), "\u{fffd}A");
    let mut d = StreamDecoder::default();
    assert_eq!(d.push(&t, 0xe4), "");
    assert_eq!(d.finish(), "\u{fffd}");
    assert_eq!(d.finish(), "");
}

#[test]
fn each_fault_of_a_tokenizer_is_named() {
    let fault = |text: &str| match Tokenizer::from_json(text) {
        Err(Error::Config(issue)) => issue,
        _ => panic!("{text} must be refused"),
    };
    assert!(matches!(fault("{ not json }"), ConfigIssue::NotJson(_)));
    assert!(matches!(fault("{}"), ConfigIssue::NoModel));
    assert!(matches!(fault(r#"{"model": {}}"#), ConfigIssue::NoVocab));
    assert!(matches!(fault(r#"{"model": {"vocab": {"a": "x"}}}"#), ConfigIssue::VocabEntry(k) if k == "a"));
    assert!(matches!(fault(r#"{"model": {"vocab": {"a": 0}}}"#), ConfigIssue::NoMerges));
    assert!(matches!(
        fault(r#"{"model": {"vocab": {"a": 0}, "merges": ["a a", "aa"]}}"#),
        ConfigIssue::BadMerge(1)
    ));
}

#[test]
fn letters_digits_and_spaces_are_those_of_unicode() {
    // A superscript is a number, and U+3000 is white space.
    assert_eq!(pre_tokenize("\u{e9}t\u{e9}\u{b2}"), vec!["\u{e9}t\u{e9}", "\u{b2}"]);
    assert_eq!(pre_tokenize("a\u{3000}\u{3000}b"), vec!["a", "\u{3000}", "\u{3000}b"]);
    // So are U+0085 and U+2028; U+200B is not.
    assert_eq!(pre_tokenize("a\u{85}\u{2028}b"), vec!["a", "\u{85}", "\u{2028}b"]);
    assert_eq!(pre_tokenize("a\u{200b}\u{200b}"), vec!["a", "\u{200b}\u{200b}"]);
    // Contractions are found whatever their case.
    assert_eq!(pre_tokenize("WE'LL"), vec!["WE", "'LL"]);
}

#[test]
fn what_is_alphabetic_need_not_be_a_letter() {
    // A Roman numeral is a number.
    assert_eq!(pre_tokenize("a\u{2167}"), vec!["a", "\u{2167}"]);
    assert_eq!(pre_tokenize("\u{2167}\u{2167}"), vec!["\u{2167}", "\u{2167}"]);
    // A combining mark is a symbol, though a vowel sign is alphabetic.
    assert_eq!(pre_tokenize("\u{915}\u{93f}"), vec!["\u{915}", "\u{93f}"]);
    assert_eq!(pre_tokenize("\u{915}\u{93f}\u{915}"), vec!["\u{915}", "\u{93f}\u{915}"]);
    assert_eq!(pre_tokenize("e\u{301}t"), vec!["e", "\u{301}t"]);
    // So are letters in circles and squares.
    assert_eq!(pre_tokenize("a\u{24d0}\u{1f130}"), vec!["a", "\u{24d0}\u{1f130}"]);
    assert_eq!(pre_tokenize("a\u{1f150}\u{1f189}"), vec!["a", "\u{1f150}\u{1f189}"]);
    // Beyond ASCII, letters stay letters.
    assert_eq!(pre_tokenize("\u{3b1}\u{5d0}\u{4e2d}"), vec!["\u{3b1}\u{5d0}\u{4e2d}"]);
}

#[test]
fn the_long_s_contracts_like_an_s() {
    assert_eq!(pre_tokenize("it'\u{17f}x"), vec!["it", "'\u{17f}", "x"]);
    assert_eq!(pre_tokenize("it'sx"), vec!["it", "'s", "x"]);
    assert_eq!(pre_tokenize("I'Ve"), vec!["I", "'Ve"]);
    assert_eq!(pre_tokenize("a'x"), vec!["a", "'x"]);
}

#[test]
fn a_piece_is_not_split_again() {
    for s in ["a  \n\n  b", "don't  stop: 2024!!\r\n", "\u{915}\u{93f}\u{915} 'll'LL", " \t x\u{2167}\u{24d0}\n"] {
        for p in pre_tokenize(s) {
            assert_eq!(pre_tokenize(&p), vec![p.clone()], "{p:?} of {s:?}");
        }
    }
}
