//! The container format: writing, framing, checking and reading back.

use serde_json::Value;

use whetstone::bytes::{bytes_of_halves, bytes_of_words};
use whetstone::checksum::fnv1a;
use whetstone::format::{
    align_up, frame_header, header_json, read_header, shape_fits, verify_payloads, Blob, FormatIssue, Header,
    TensorEntry, TensorKind, ALIGN, PREFIX, VERSION,
};
use whetstone::hier::PackedInt4Hier;
use whetstone::json::Json;
use whetstone::quant::{Error, PackedInt4, GROUP};
use whetstone::writer::Writer;

fn sample_config() -> Json {
    Json::parse(r#"{"hidden_size": 896, "num_hidden_layers": 2, "vocab_size": 1024, "tie_word_embeddings": true}"#)
        .unwrap()
}

/// Levels of the weights `(i % 37) / 37 - 0.5`, rounded over each group's range.
fn levels_of(weights: &[f32]) -> (Vec<u8>, Vec<u16>, Vec<u16>) {
    let (mut levels, mut scales, mut zeros) = (Vec::new(), Vec::new(), Vec::new());
    for group in weights.chunks(GROUP) {
        let lo = group.iter().copied().fold(f32::INFINITY, f32::min);
        let hi = group.iter().copied().fold(f32::NEG_INFINITY, f32::max);
        let step = ((hi - lo) / 15.0).max(1e-8);
        for w in group {
            levels.push(((w - lo) / step).round().clamp(0.0, 15.0) as u8);
        }
        scales.push(half::f16::from_f32(step).to_bits());
        zeros.push(half::f16::from_f32(lo).to_bits());
    }
    (levels, scales, zeros)
}

fn packed(weights: &[f32], in_features: usize, out_features: usize) -> PackedInt4 {
    let (levels, scales, zeros) = levels_of(weights);
    PackedInt4::from_levels(&levels, &scales, &zeros, in_features, out_features).unwrap()
}

fn number(n: u64) -> Value {
    Value::from(n)
}

fn blob_value(b: &Blob) -> Value {
    let mut m = serde_json::Map::new();
    m.insert("offset".to_string(), number(b.offset));
    m.insert("len".to_string(), number(b.len));
    m.insert("hash".to_string(), number(b.hash));
    Value::Object(m)
}

fn blobs_value(blobs: &[(String, Blob)]) -> Value {
    Value::Object(blobs.iter().map(|(n, b)| (n.clone(), blob_value(b))).collect())
}

fn json_value(j: &Json) -> Value {
    match j {
        Json::Null => Value::Null,
        Json::Bool(b) => Value::Bool(*b),
        Json::Number(Some(n)) => number(*n),
        Json::Number(None) => panic!("only whole numbers here"),
        Json::Text(t) => Value::String(t.clone()),
        Json::Array(a) => Value::Array(a.iter().map(json_value).collect()),
        Json::Object(o) => Value::Object(o.iter().map(|(k, v)| (k.clone(), json_value(v))).collect()),
    }
}

fn kind_name(k: TensorKind) -> &'static str {
    match k {
        TensorKind::Fp16 => "fp16",
        TensorKind::Fp32 => "fp32",
        TensorKind::Int4G128 => "int4_g128",
        TensorKind::Int4HierG32 => "int4_hier_g32",
    }
}

fn kind_of(name: &str) -> TensorKind {
    match name {
        "fp16" => TensorKind::Fp16,
        "fp32" => TensorKind::Fp32,
        "int4_g128" => TensorKind::Int4G128,
        "int4_hier_g32" => TensorKind::Int4HierG32,
        other => panic!("unknown kind {other}"),
    }
}

fn header_text(h: &Header) -> Vec<u8> {
    let mut m = serde_json::Map::new();
    m.insert("format".to_string(), Value::from(h.format.clone()));
    m.insert("version".to_string(), number(h.version as u64));
    m.insert("producer".to_string(), Value::from(h.producer.clone()));
    m.insert("model_config".to_string(), json_value(&h.model_config));
    let quant = h.quant.iter().map(|(k, v)| (k.clone(), Value::from(v.clone()))).collect();
    m.insert("quant".to_string(), Value::Object(quant));
    let tensors = h
        .tensors
        .iter()
        .map(|t| {
            let mut e = serde_json::Map::new();
            e.insert("name".to_string(), Value::from(t.name.clone()));
            e.insert("kind".to_string(), Value::from(kind_name(t.kind)));
            e.insert("shape".to_string(), Value::Array(t.shape.iter().map(|&n| number(n as u64)).collect()));
            e.insert("blobs".to_string(), blobs_value(&t.blobs));
            Value::Object(e)
        })
        .collect();
    m.insert("tensors".to_string(), Value::Array(tensors));
    m.insert("extras".to_string(), blobs_value(&h.extras));
    serde_json::to_vec(&Value::Object(m)).unwrap()
}

fn blob_of(v: &Value) -> Blob {
    Blob {
        offset: v["offset"].as_u64().unwrap(),
        len: v["len"].as_u64().unwrap(),
        hash: v["hash"].as_u64().unwrap(),
    }
}

fn blobs_of(v: Option<&Value>) -> Vec<(String, Blob)> {
    v.and_then(Value::as_object).map(|m| m.iter().map(|(k, b)| (k.clone(), blob_of(b))).collect()).unwrap_or_default()
}

fn parse_header(json: &[u8]) -> Result<Header, String> {
    let v: Value = serde_json::from_slice(json).map_err(|e| e.to_string())?;
    Ok(Header {
        format: v["format"].as_str().unwrap().to_string(),
        version: v["version"].as_u64().unwrap() as u32,
        producer: v["producer"].as_str().unwrap().to_string(),
        model_config: Json::parse(&v["model_config"].to_string()).unwrap(),
        quant: v["quant"]
            .as_object()
            .unwrap()
            .iter()
            .map(|(k, s)| (k.clone(), s.as_str().unwrap().to_string()))
            .collect(),
        tensors: v["tensors"]
            .as_array()
            .unwrap()
            .iter()
            .map(|t| TensorEntry {
                name: t["name"].as_str().unwrap().to_string(),
                kind: kind_of(t["kind"].as_str().unwrap()),
                shape: t["shape"].as_array().unwrap().iter().map(|n| n.as_u64().unwrap() as usize).collect(),
                blobs: blobs_of(t.get("blobs")),
            })
            .collect(),
        extras: blobs_of(v.get("extras")),
    })
}

/// Reads the header of a file as a loader does.
fn load(bytes: &[u8], file_len: u64) -> Result<Header, Error> {
    let json = header_json(bytes, file_len)?;
    read_header(parse_header(json), file_len)
}

/// The file that a writer's payloads and header make.
fn assemble(mut w: Writer) -> Result<Vec<u8>, Error> {
    let reserve = w.header_reserve();
    let start = w.start() as usize;
    let payload = w.take_pending();
    let json = header_text(&w.finish());
    let prefix = frame_header(&json, reserve)?;
    let mut file = prefix;
    file.extend_from_slice(&json);
    file.resize(start, 0);
    file.extend_from_slice(&payload);
    Ok(file)
}

fn refused(r: Result<Header, Error>) -> FormatIssue {
    match r {
        Err(Error::Format(issue)) => issue,
        Err(e) => panic!("unexpected error: {e:?}"),
        Ok(_) => panic!("the file should have been refused"),
    }
}

#[test]
fn round_trips_through_a_file() {
    let w: Vec<f32> = (0..128 * 8).map(|i| (i % 37) as f32 / 37.0 - 0.5).collect();
    let p = packed(&w, 128, 8);

    let mut writer = Writer::new(sample_config(), 64 * 1024);
    writer.set_quant_meta("scheme", "int4-g128");
    writer.write_int4("gate", &p);
    writer.write_fp16("norm", &[0x3C00u16; 64], &vec![64]).unwrap();
    let bytes = assemble(writer).unwrap();

    let h = load(&bytes, bytes.len() as u64).unwrap();
    assert_eq!(h.format, "wstone");
    assert_eq!(h.version, VERSION);
    assert_eq!(h.tensors.len(), 2);
    assert_eq!(h.quant, vec![("scheme".to_string(), "int4-g128".to_string())]);

    let gate = h.tensor("gate").unwrap();
    assert_eq!(gate.kind, TensorKind::Int4G128);
    assert_eq!(gate.shape, vec![8, 128]);
    assert_eq!(gate.numel(), 1024);

    verify_payloads(&h, &bytes).unwrap();

    // The packed bytes must survive the round trip exactly.
    let qw = gate.blob("qw").unwrap();
    let stored = &bytes[qw.offset as usize..(qw.offset + qw.len) as usize];
    assert_eq!(stored, bytes_of_words(&p.qw).as_slice());
}

#[test]
fn extras_round_trip_and_old_files_still_load() {
    let w = vec![0.1f32; 128];
    let p = packed(&w, 128, 1);
    let mut writer = Writer::new(sample_config(), 8192);
    writer.write_int4("a", &p);
    writer.write_extra("tokenizer.json", br#"{"model":{}}"#);
    let bytes = assemble(writer).unwrap();
    let h = load(&bytes, bytes.len() as u64).unwrap();
    verify_payloads(&h, &bytes).unwrap();

    let (_, e) = h.extras.iter().find(|(n, _)| n == "tokenizer.json").expect("extra missing");
    assert_eq!(&bytes[e.offset as usize..(e.offset + e.len) as usize], br#"{"model":{}}"#);

    // A header written before `extras` existed must still be read.
    let old = parse_header(
        br#"{"format": "wstone", "version": 1, "producer": "test",
             "model_config": {"hidden_size": 896, "num_hidden_layers": 2, "vocab_size": 1024, "tie_word_embeddings": true},
             "quant": {}, "tensors": []}"#,
    );
    let old = read_header(old, 0).unwrap();
    assert!(old.extras.is_empty());
}

#[test]
fn payloads_are_aligned_for_vector_loads() {
    let w = vec![0.1f32; 128 * 8];
    let p = packed(&w, 128, 8);
    let mut writer = Writer::new(sample_config(), 8192);
    writer.write_int4("a", &p);
    writer.write_int4("b", &p);
    let bytes = assemble(writer).unwrap();
    let h = load(&bytes, bytes.len() as u64).unwrap();
    for t in &h.tensors {
        for (name, b) in &t.blobs {
            assert_eq!(b.offset % ALIGN, 0, "{}/{name} misaligned at {}", t.name, b.offset);
        }
    }
}

#[test]
fn rejects_foreign_and_corrupt_files() {
    // Not a .wstone at all.
    let mut junk = vec![0u8; 512];
    junk[0..8].copy_from_slice(b"GGUF\0\0\0\0");
    assert!(load(&junk, junk.len() as u64).is_err());

    // Too short.
    assert!(load(&[0u8; 8], 8).is_err());

    // Valid file with a flipped header byte.
    let w = vec![0.1f32; 128];
    let p = packed(&w, 128, 1);
    let mut writer = Writer::new(sample_config(), 8192);
    writer.write_int4("a", &p);
    let mut bytes = assemble(writer).unwrap();
    bytes[PREFIX as usize + 5] ^= 0xFF;
    let issue = refused(load(&bytes, bytes.len() as u64));
    assert!(matches!(issue, FormatIssue::HeaderChecksum), "unexpected error: {issue:?}");
}

#[test]
fn truncation_is_caught_at_header_parse() {
    let w = vec![0.1f32; 128 * 8];
    let p = packed(&w, 128, 8);
    let mut writer = Writer::new(sample_config(), 8192);
    writer.write_int4("a", &p);
    let bytes = assemble(writer).unwrap();

    // Claim the file is shorter than the payloads it declares.
    let issue = refused(load(&bytes, 1024));
    assert!(
        matches!(issue, FormatIssue::BlobPastEnd(..) | FormatIssue::HeaderPastEnd),
        "unexpected error: {issue:?}"
    );
}

#[test]
fn header_overflow_is_reported_not_silently_truncated() {
    let w = vec![0.1f32; 128];
    let p = packed(&w, 128, 1);
    let mut writer = Writer::new(sample_config(), 16); // absurdly small
    writer.write_int4("a", &p);
    match assemble(writer) {
        Err(Error::Format(FormatIssue::HeaderTooLarge { len, reserved })) => {
            assert!(len > 16);
            assert_eq!(reserved, 16);
        }
        other => panic!("unexpected outcome: {:?}", other.map(|f| f.len())),
    }
}

#[test]
fn fnv_detects_single_bit_flips() {
    let a = b"the quick brown fox";
    let mut b = *a;
    b[7] ^= 1;
    assert_ne!(fnv1a(a), fnv1a(&b));
}

#[test]
fn the_checksum_multiplies_by_its_own_factor() {
    // The factor has one digit more than the usual one, and existing files rely
    // on it.
    assert_eq!(fnv1a(b""), 0xcbf2_9ce4_8422_2325);
    assert_eq!(fnv1a(b"a"), 0xaf74_d84c_8601_ec8c);
    assert_eq!(fnv1a(b"foobar"), 0xf8ac_2471_f739_67e8);
}

#[test]
fn rounding_up_to_the_alignment() {
    assert_eq!(align_up(0, 256), 0);
    assert_eq!(align_up(1, 256), 256);
    assert_eq!(align_up(256, 256), 256);
    assert_eq!(align_up(257, 256), 512);
}

#[test]
fn the_prefix_is_magic_version_length_and_checksum() {
    let json = b"{}";
    let prefix = frame_header(json, 2).unwrap();
    let mut want = b"WHETSTON".to_vec();
    want.extend_from_slice(&1u32.to_le_bytes());
    want.extend_from_slice(&0u32.to_le_bytes());
    want.extend_from_slice(&2u64.to_le_bytes());
    want.extend_from_slice(&fnv1a(json).to_le_bytes());
    assert_eq!(prefix, want);

    let mut file = prefix;
    file.extend_from_slice(json);
    assert_eq!(header_json(&file, file.len() as u64).unwrap(), json);
}

#[test]
fn each_fault_of_the_frame_is_named() {
    let good = {
        let mut f = frame_header(b"{}", 2).unwrap();
        f.extend_from_slice(b"{}");
        f
    };
    let fault = |f: &[u8]| match header_json(f, f.len() as u64) {
        Err(Error::Format(issue)) => issue,
        _ => panic!("a broken frame must be refused"),
    };
    assert!(matches!(fault(&good[..31]), FormatIssue::TooShort));
    let mut f = good.clone();
    f[0] = b'w';
    assert!(matches!(fault(&f), FormatIssue::BadMagic));
    let mut f = good.clone();
    f[8] = 2;
    assert!(matches!(fault(&f), FormatIssue::Version(2)));
    let mut f = good.clone();
    f[16..24].copy_from_slice(&u64::MAX.to_le_bytes());
    assert!(matches!(fault(&f), FormatIssue::HeaderOverflow));
    let mut f = good.clone();
    f[16] = 3;
    assert!(matches!(fault(&f), FormatIssue::HeaderPastEnd));
    let mut f = good.clone();
    f[33] = b' ';
    assert!(matches!(fault(&f), FormatIssue::HeaderChecksum));
}

fn header_of(tensors: Vec<TensorEntry>, extras: Vec<(String, Blob)>) -> Header {
    Header {
        format: "wstone".to_string(),
        version: VERSION,
        producer: "test".to_string(),
        model_config: Json::Null,
        quant: vec![],
        tensors,
        extras,
    }
}

fn entry(kind: TensorKind, blobs: Vec<(&str, u64, u64)>) -> TensorEntry {
    TensorEntry {
        name: "t".to_string(),
        kind,
        shape: vec![1, 128],
        blobs: blobs
            .into_iter()
            .map(|(n, offset, len)| (n.to_string(), Blob { offset, len, hash: fnv1a(&[]) }))
            .collect(),
    }
}

#[test]
fn each_fault_of_a_range_is_named() {
    let read = |h: Header| refused(read_header(Ok(h), 4096));
    let e = |offset: u64, len: u64| vec![("x".to_string(), Blob { offset, len, hash: 0 })];
    assert!(matches!(read(header_of(vec![], e(u64::MAX, 1))), FormatIssue::ExtraOverflow(n) if n == "x"));
    assert!(matches!(read(header_of(vec![], e(4090, 7))), FormatIssue::ExtraPastEnd(n) if n == "x"));

    let t = |blobs| header_of(vec![entry(TensorKind::Int4G128, blobs)], vec![]);
    assert!(matches!(
        read(t(vec![("qw", u64::MAX, 1), ("sz", 0, 0)])),
        FormatIssue::BlobOverflow(n, b) if n == "t" && b == "qw"
    ));
    assert!(matches!(
        read(t(vec![("qw", 0, 64), ("sz", 3840, 257)])),
        FormatIssue::BlobPastEnd(n, b) if n == "t" && b == "sz"
    ));
    assert!(matches!(
        read(t(vec![("qw", 128, 64), ("sz", 0, 0)])),
        FormatIssue::BlobMisaligned(n, b) if n == "t" && b == "qw"
    ));
    assert!(matches!(
        read(t(vec![("qw", 0, 64)])),
        FormatIssue::BlobMissing(n, b) if n == "t" && b == "sz"
    ));
    assert!(matches!(refused(read_header(Err("no".to_string()), 0)), FormatIssue::HeaderJson(w) if w == "no"));
    assert!(read_header(Ok(t(vec![("qw", 0, 64), ("sz", 256, 4)])), 4096).is_ok());
}

#[test]
fn each_fault_of_a_payload_is_named() {
    let w = vec![0.1f32; 128];
    let p = packed(&w, 128, 1);
    let mut writer = Writer::new(sample_config(), 8192);
    writer.write_int4("a", &p);
    writer.write_extra("note", b"hello");
    let bytes = assemble(writer).unwrap();
    let h = load(&bytes, bytes.len() as u64).unwrap();
    verify_payloads(&h, &bytes).unwrap();

    let spoil = |at: u64| {
        let mut b = bytes.clone();
        b[at as usize] ^= 1;
        match verify_payloads(&h, &b) {
            Err(Error::Format(issue)) => issue,
            _ => panic!("a changed byte must be noticed"),
        }
    };
    let at = h.tensors[0].blob("sz").unwrap().offset;
    assert!(matches!(spoil(at), FormatIssue::BlobChecksum(n, b) if n == "a" && b == "sz"));
    let at = h.extras[0].1.offset;
    assert!(matches!(spoil(at), FormatIssue::ExtraChecksum(n) if n == "note"));
}

#[test]
fn lookups_say_what_is_missing() {
    let h = header_of(vec![entry(TensorKind::Fp16, vec![("data", 0, 0)])], vec![]);
    assert_eq!(h.tensor("t").unwrap().name, "t");
    assert!(matches!(h.tensor("u"), Err(Error::Format(FormatIssue::NoTensor(n))) if n == "u"));
    assert!(matches!(
        h.tensors[0].blob("qw"),
        Err(Error::Format(FormatIssue::NoBlob(t, b))) if t == "t" && b == "qw"
    ));
}

#[test]
fn the_directory_comes_out_sorted() {
    let mut writer = Writer::new(sample_config(), 8192);
    for name in ["norm.b", "zeta", "alpha", "norm.a"] {
        writer.write_fp16(name, &[0u16; 4], &vec![4]).unwrap();
    }
    let names: Vec<String> = writer.finish().tensors.into_iter().map(|t| t.name).collect();
    assert_eq!(names, vec!["alpha", "norm.a", "norm.b", "zeta"]);
}

#[test]
fn dense_data_must_have_the_size_of_its_shape() {
    let mut writer = Writer::new(sample_config(), 8192);
    assert!(writer.write_fp16("n", &[0u16; 5], &vec![2, 3]).is_err());
    assert!(writer.write_fp16("n", &[0u16; 6], &vec![2, 3]).is_ok());
    let halves: Vec<u16> = vec![1, 0x1234];
    assert_eq!(bytes_of_halves(&halves), vec![1, 0, 0x34, 0x12]);
}

#[test]
fn hierarchical_matrices_are_stored_as_three_blobs() {
    let levels: Vec<u8> = (0..64).map(|i| (i % 16) as u8).collect();
    let p = PackedInt4Hier::from_levels(&levels, &[1, 15], &[0, 7], &[0x3c00], &[0xbc00], 64, 1).unwrap();
    let mut writer = Writer::new(sample_config(), 8192);
    writer.write_int4_hier("h", &p);
    let bytes = assemble(writer).unwrap();
    let h = load(&bytes, bytes.len() as u64).unwrap();
    let t = h.tensor("h").unwrap();
    assert_eq!(t.kind, TensorKind::Int4HierG32);
    assert_eq!(t.shape, vec![1, 64]);
    assert_eq!(t.blob("qw").unwrap().len, 32);
    let si = t.blob("si").unwrap();
    assert_eq!(&bytes[si.offset as usize..(si.offset + si.len) as usize], &[0x01, 0x7f]);
    let sb = t.blob("sb").unwrap();
    assert_eq!(&bytes[sb.offset as usize..(sb.offset + sb.len) as usize], &[0x00, 0x3c, 0x00, 0xbc]);
    assert_eq!(t.stored_bytes(), 32 + 2 + 4);
    assert_eq!(h.payload_bytes(), 32 + 2 + 4);
}

#[test]
fn decoding_reads_everything_but_an_untied_embedding() {
    let fp16 = |name: &str| {
        let mut e = entry(TensorKind::Fp16, vec![("data", 0, 10)]);
        e.name = name.to_string();
        e
    };
    let mut h = header_of(vec![fp16("model.embed_tokens.weight"), fp16("model.norm.weight")], vec![]);
    h.model_config = Json::parse(r#"{"tie_word_embeddings": true}"#).unwrap();
    assert!(h.tied());
    assert_eq!(h.decode_resident_bytes(), 20);
    h.model_config = Json::parse(r#"{"tie_word_embeddings": false}"#).unwrap();
    assert!(!h.tied());
    assert_eq!(h.decode_resident_bytes(), 10);
    assert_eq!(h.payload_bytes(), 20);
}

#[test]
fn a_header_that_fills_its_room_ends_before_the_payloads() {
    let w = vec![0.1f32; 128];
    let p = packed(&w, 128, 1);
    let write = |reserve: u64| {
        let mut writer = Writer::new(sample_config(), reserve);
        writer.write_int4("a", &p);
        writer
    };
    // Payloads that begin at the same place have a header of the same length.
    let need = header_text(&write(400).finish()).len() as u64;
    for reserve in [need, need + 1, need + 60] {
        let writer = write(reserve);
        assert_eq!(writer.start(), 512);
        assert_eq!(writer.header_reserve(), reserve);
        assert_eq!(writer.start() % ALIGN, 0);
        assert!(PREFIX + need <= writer.start());
        let bytes = assemble(writer).unwrap();
        let h = load(&bytes, bytes.len() as u64).unwrap();
        assert_eq!(header_json(&bytes, bytes.len() as u64).unwrap().len() as u64, need);
        verify_payloads(&h, &bytes).unwrap();
        assert_eq!(h.producer, "whetstone-quant 0.5.0");
    }
    assert!(assemble(write(need - 1)).is_err());
}

#[test]
fn a_file_has_places_of_64_bits() {
    let writer = Writer::new(sample_config(), 8192);
    let end = writer.start();
    assert_eq!(end, align_up(PREFIX + 8192, ALIGN));
    assert!(writer.room_for(0, 0));
    assert!(writer.room_for((u64::MAX - end) as usize, 0));
    assert!(!writer.room_for((u64::MAX - end) as usize, 1));
    assert!(writer.room_for((u64::MAX - end - ALIGN) as usize, 1));
    assert!(!writer.room_for(0, u64::MAX / ALIGN + 1));
    assert!(!writer.room_for(usize::MAX, 0));
    assert!(shape_fits(&[]) && shape_fits(&[usize::MAX]) && shape_fits(&[0, usize::MAX, 2]));
    assert!(!shape_fits(&[usize::MAX, 2]) && !shape_fits(&[usize::MAX, 2, 0]));
}
