//! Reading checkpoints: one file, or several and their index.

use whetstone::bytes::read_u16;
use whetstone::checkpoint::{choose_layout, read_index, require_shard, Layout};
use whetstone::error::{ConfigIssue, Error, FileIssue, ShapeFault};
use whetstone::names::name_precedes;
use whetstone::safetensors::widen_bf16;
use whetstone::{Checkpoint, Dtype, SafeTensors};

/// A safetensors file.
fn file_of(header: &str, data: &[u8]) -> Vec<u8> {
    let mut f = (header.len() as u64).to_le_bytes().to_vec();
    f.extend_from_slice(header.as_bytes());
    f.extend_from_slice(data);
    f
}

fn open(header: &str, data: &[u8]) -> Result<SafeTensors, Error> {
    SafeTensors::from_file(&file_of(header, data))
}

fn fault(header: &str, data: &[u8]) -> FileIssue {
    match open(header, data) {
        Err(Error::Format(issue)) => issue,
        Err(e) => panic!("unexpected error: {e:?}"),
        Ok(_) => panic!("{header} must be refused"),
    }
}

/// A tensor as 32-bit floats, from the bytes that the reader locates.
fn to_f32(st: &SafeTensors, file: &[u8], name: &str) -> Vec<f32> {
    let t = st.get_readable(name).unwrap();
    let raw = st.bytes(file, name).unwrap();
    match t.dtype {
        Dtype::F32 => raw.chunks_exact(4).map(|c| f32::from_le_bytes([c[0], c[1], c[2], c[3]])).collect(),
        Dtype::BF16 => {
            let halves = read_u16(raw, 0, raw.len() as u64);
            widen_bf16(&halves).into_iter().map(f32::from_bits).collect()
        }
        other => panic!("no conversion from {other:?} here"),
    }
}

#[test]
fn reads_tensors_and_converts_dtypes() {
    // f32 [2,2] then bf16 [2]
    let mut data = Vec::new();
    for v in [1.0f32, -2.0, 3.5, 0.0] {
        data.extend_from_slice(&v.to_le_bytes());
    }
    // bf16 of 1.0 is 0x3F80, of -0.5 is 0xBF00
    data.extend_from_slice(&0x3F80u16.to_le_bytes());
    data.extend_from_slice(&0xBF00u16.to_le_bytes());

    let header = r#"{"a":{"dtype":"F32","shape":[2,2],"data_offsets":[0,16]},
                     "b":{"dtype":"BF16","shape":[2],"data_offsets":[16,20]}}"#;
    let file = file_of(header, &data);

    let st = SafeTensors::from_file(&file).unwrap();
    assert_eq!(st.len(), 2);
    assert!(!st.is_empty());
    assert_eq!(st.names(), vec!["a", "b"]);
    assert_eq!(st.get("a").unwrap().shape_2d().unwrap(), (2, 2));
    assert_eq!(st.get("a").unwrap().numel(), 4);
    assert_eq!(to_f32(&st, &file, "a"), vec![1.0, -2.0, 3.5, 0.0]);
    assert_eq!(to_f32(&st, &file, "b"), vec![1.0, -0.5]);
    assert_eq!(st.data_bytes(), 20);
    assert!(matches!(st.get("nope"), Err(Error::MissingTensor(_))));
}

#[test]
fn bf16_widening_is_a_bit_shift() {
    // The conversion must be exact, not an approximation: bf16 is literally
    // the high half of an f32.
    for bits in [0x3F80u16, 0xBF00, 0x0000, 0x7F80, 0x4049] {
        let via_shift = f32::from_bits(widen_bf16(&[bits])[0]);
        let via_half = half::bf16::from_bits(bits).to_f32();
        assert_eq!(via_shift.to_bits(), via_half.to_bits(), "bf16 {bits:#06x}");
    }
}

#[test]
fn truncated_file_is_rejected() {
    // Declares 32 bytes of data but supplies 8: an interrupted download.
    let header = r#"{"a":{"dtype":"F32","shape":[2,4],"data_offsets":[0,32]}}"#;
    let issue = fault(header, &[0u8; 8]);
    assert!(matches!(&issue, FileIssue::PastEnd(n) if n == "a"), "unexpected error: {issue:?}");
}

#[test]
fn shape_and_range_disagreement_is_rejected() {
    // shape [2,2] of F32 needs 16 bytes, but the range spans 8.
    let header = r#"{"a":{"dtype":"F32","shape":[2,2],"data_offsets":[0,8]}}"#;
    assert!(matches!(fault(header, &[0u8; 8]), FileIssue::SizeMismatch(n) if n == "a"));
}

#[test]
fn overlapping_tensors_are_rejected() {
    let header = r#"{"a":{"dtype":"F32","shape":[2],"data_offsets":[0,8]},
                     "b":{"dtype":"F32","shape":[2],"data_offsets":[4,12]}}"#;
    let issue = fault(header, &[0u8; 12]);
    assert!(matches!(&issue, FileIssue::Overlap(a, b) if a == "a" && b == "b"), "unexpected error: {issue:?}");
}

#[test]
fn absurd_header_length_is_rejected_not_panicked() {
    let mut f = u64::MAX.to_le_bytes().to_vec();
    f.extend_from_slice(b"{}");
    assert!(matches!(SafeTensors::from_file(&f), Err(Error::Format(FileIssue::HeaderOverflow))));
}

#[test]
fn each_fault_of_a_file_is_named() {
    assert!(matches!(SafeTensors::from_file(&[0u8; 7]), Err(Error::Format(FileIssue::TooShort))));
    let mut f = 3u64.to_le_bytes().to_vec();
    f.extend_from_slice(b"{}");
    assert!(matches!(SafeTensors::from_file(&f), Err(Error::Format(FileIssue::HeaderPastEnd))));
    let mut f = 1u64.to_le_bytes().to_vec();
    f.push(0xff);
    assert!(matches!(SafeTensors::from_file(&f), Err(Error::Format(FileIssue::HeaderText))));
    assert!(matches!(fault("{", &[]), FileIssue::HeaderJson(_)));
    assert!(matches!(fault("[]", &[]), FileIssue::HeaderShape));
    assert!(matches!(fault(r#"{"a":{"dtype":"F32","shape":[1]}}"#, &[0u8; 4]), FileIssue::BadEntry(n) if n == "a"));
    assert!(matches!(
        fault(r#"{"a":{"dtype":"F64","shape":[1],"data_offsets":[0,8]}}"#, &[0u8; 8]),
        FileIssue::Dtype(n) if n == "F64"
    ));
    assert!(matches!(
        fault(r#"{"a":{"dtype":"F32","shape":[1],"data_offsets":[8,4]}}"#, &[0u8; 8]),
        FileIssue::Inverted(n) if n == "a"
    ));
    assert!(matches!(
        fault(r#"{"a":{"dtype":"U8","shape":[4294967296,4294967296],"data_offsets":[0,0]}}"#, &[]),
        FileIssue::ShapeOverflow(n) if n == "a"
    ));
}

#[test]
fn metadata_is_kept_and_is_no_tensor() {
    let st = open(
        r#"{"__metadata__":{"format":"pt"},"a":{"dtype":"I64","shape":[1],"data_offsets":[0,8]}}"#,
        &[0u8; 8],
    )
    .unwrap();
    assert_eq!(st.len(), 1);
    assert_eq!(st.metadata(), &vec![("format".to_string(), "pt".to_string())]);
    assert!(matches!(st.get_readable("a"), Err(Error::Format(FileIssue::Unreadable(n))) if n == "a"));
    assert!(matches!(
        st.get("a").unwrap().shape_2d(),
        Err(Error::Shape(ShapeFault::NotMatrix(n, 1))) if n == "a"
    ));
}

#[test]
fn elements_have_the_width_of_their_type() {
    let widths = [
        (Dtype::F16, 2),
        (Dtype::BF16, 2),
        (Dtype::F32, 4),
        (Dtype::I8, 1),
        (Dtype::U8, 1),
        (Dtype::I32, 4),
        (Dtype::I64, 8),
        (Dtype::Bool, 1),
    ];
    for (dtype, width) in widths {
        assert_eq!(dtype.size(), width, "{dtype:?}");
    }
    assert_eq!(Dtype::parse("BOOL").unwrap(), Dtype::Bool);
    assert!(Dtype::parse("bool").is_err());
}

#[test]
fn a_directory_with_neither_layout_says_so_clearly() {
    assert!(matches!(choose_layout(false, false), Err(Error::Config(ConfigIssue::NoWeights))));
    assert_eq!(choose_layout(true, true).unwrap(), Layout::Single);
    assert_eq!(choose_layout(false, true).unwrap(), Layout::Sharded);
}

#[test]
fn a_truncated_shard_set_is_caught_at_open() {
    let plan = read_index(r#"{"weight_map":{"a.weight":"model-00001-of-00002.safetensors"}}"#).unwrap();
    assert_eq!(plan.files(), &vec!["model-00001-of-00002.safetensors"]);
    assert!(require_shard(&plan, 0, true).is_ok());
    assert!(matches!(
        require_shard(&plan, 0, false),
        Err(Error::Config(ConfigIssue::ShardMissing(f))) if f == "model-00001-of-00002.safetensors"
    ));
}

const TWO: &str = r#"{"weight_map":{"a":"one.safetensors","b":"two.safetensors","c":"one.safetensors"}}"#;

#[test]
fn shards_are_routed_by_name() {
    let plan = read_index(TWO).unwrap();
    assert_eq!(plan.files(), &vec!["one.safetensors", "two.safetensors"]);
    let one = open(
        r#"{"a":{"dtype":"U8","shape":[3],"data_offsets":[0,3]},"c":{"dtype":"U8","shape":[1,2],"data_offsets":[3,5]}}"#,
        &[0u8; 5],
    )
    .unwrap();
    let two = open(r#"{"b":{"dtype":"F32","shape":[2],"data_offsets":[0,8]}}"#, &[0u8; 8]).unwrap();
    let c = Checkpoint::assemble(plan, vec![one, two]).unwrap();
    assert_eq!(c.shard_count(), 2);
    assert_eq!(c.files().len(), 2);
    assert_eq!(c.len(), 3);
    assert!(!c.is_empty());
    assert_eq!(c.names(), vec!["a", "b", "c"]);
    assert_eq!(c.shard_of("b"), Some(1));
    assert_eq!(c.shard_of("d"), None);
    assert_eq!(c.get("c").unwrap().shape_2d().unwrap(), (1, 2));
    assert!(matches!(c.get("d"), Err(Error::MissingTensor(n)) if n == "d"));
    assert_eq!(c.shard(1).len(), 1);
    assert!(c.data_bytes_fit());
    assert_eq!(c.data_bytes(), 13);
}

#[test]
fn an_index_that_lies_is_refused() {
    let plan = read_index(TWO).unwrap();
    let one = open(r#"{"a":{"dtype":"U8","shape":[3],"data_offsets":[0,3]}}"#, &[0u8; 3]).unwrap();
    let two = open(r#"{"b":{"dtype":"F32","shape":[2],"data_offsets":[0,8]}}"#, &[0u8; 8]).unwrap();
    assert!(matches!(
        Checkpoint::assemble(plan, vec![one, two]),
        Err(Error::Config(ConfigIssue::NotInShard(n, f))) if n == "c" && f == "one.safetensors"
    ));
    assert!(matches!(read_index("{"), Err(Error::Config(ConfigIssue::NotJson(_)))));
    assert!(matches!(read_index("{}"), Err(Error::Config(ConfigIssue::NoWeightMap))));
    assert!(matches!(
        read_index(r#"{"weight_map":{"a":1}}"#),
        Err(Error::Config(ConfigIssue::WeightEntry(n))) if n == "a"
    ));
}

#[test]
fn a_single_file_lists_all_it_has() {
    let st = open(r#"{"a":{"dtype":"U8","shape":[3],"data_offsets":[0,3]}}"#, &[0u8; 3]).unwrap();
    let c = Checkpoint::single(st, "model.safetensors".to_string());
    assert_eq!(c.shard_count(), 1);
    assert_eq!(c.names(), vec!["a"]);
    assert_eq!(c.get("a").unwrap().nbytes(), 3);
}

#[test]
fn names_come_sorted_whatever_the_header_says_first() {
    let st = open(
        r#"{"z":{"dtype":"U8","shape":[1],"data_offsets":[0,1]},
            "__metadata__":{"k":"2","a":"1"},
            "b.10":{"dtype":"U8","shape":[2],"data_offsets":[1,3]},
            "b.9":{"dtype":"U8","shape":[1],"data_offsets":[3,4]},
            "A":{"dtype":"U8","shape":[1],"data_offsets":[4,5]}}"#,
        &[0u8; 5],
    )
    .unwrap();
    assert_eq!(st.names(), vec!["A", "b.10", "b.9", "z"]);
    let shapes: Vec<usize> = st.tensors().iter().map(|t| t.shape[0]).collect();
    assert_eq!(shapes, vec![1, 2, 1, 1]);
    let pairs: Vec<(&str, &str)> = st.metadata().iter().map(|(k, v)| (k.as_str(), v.as_str())).collect();
    assert_eq!(pairs, vec![("a", "1"), ("k", "2")]);
    let c = Checkpoint::single(st, "model.safetensors".to_string());
    assert_eq!(c.names(), vec!["A", "b.10", "b.9", "z"]);
}

#[test]
fn the_first_fault_is_that_of_the_first_name() {
    let header = r#"{"b":{"dtype":"U8","shape":[1],"data_offsets":[3,2]},"a":{"dtype":"U8","shape":[1],"data_offsets":[0,9]}}"#;
    assert!(matches!(fault(header, &[0u8; 3]), FileIssue::PastEnd(n) if n == "a"));
    // Of two tensors with one range, the first name is reported first.
    let twins = r#"{"y":{"dtype":"U8","shape":[2],"data_offsets":[0,2]},"x":{"dtype":"U8","shape":[2],"data_offsets":[0,2]}}"#;
    assert!(matches!(fault(twins, &[0u8; 2]), FileIssue::Overlap(a, b) if a == "x" && b == "y"));
}

#[test]
fn the_last_of_a_repeated_name_counts() {
    let st = open(
        r#"{"a":{"dtype":"U8","shape":[1],"data_offsets":[0,1]},"a":{"dtype":"U8","shape":[2],"data_offsets":[0,2]}}"#,
        &[0u8; 2],
    )
    .unwrap();
    assert_eq!(st.names(), vec!["a"]);
    assert_eq!(st.get("a").unwrap().nbytes(), 2);
}

#[test]
fn an_index_is_read_in_the_order_of_its_names() {
    let plan = read_index(r#"{"weight_map":{"c":"two.safetensors","a":"one.safetensors","b":"two.safetensors"}}"#).unwrap();
    assert_eq!(plan.files(), &vec!["one.safetensors", "two.safetensors"]);
    let one = open(r#"{"a":{"dtype":"U8","shape":[1],"data_offsets":[0,1]}}"#, &[0u8; 1]).unwrap();
    let two = open(
        r#"{"c":{"dtype":"U8","shape":[1],"data_offsets":[0,1]},"b":{"dtype":"U8","shape":[1],"data_offsets":[1,2]}}"#,
        &[0u8; 2],
    )
    .unwrap();
    let c = Checkpoint::assemble(plan, vec![one, two]).unwrap();
    assert_eq!(c.names(), vec!["a", "b", "c"]);
    assert_eq!(c.shard_count(), 2);
    assert_eq!(c.shard_of("a"), Some(0));
    assert_eq!(c.shard_of("c"), Some(1));
    assert!(matches!(
        read_index(r#"{"weight_map":{"b":1,"a":2}}"#),
        Err(Error::Config(ConfigIssue::WeightEntry(n))) if n == "a"
    ));
}

#[test]
fn names_are_compared_by_their_bytes() {
    assert!(name_precedes("", "a"));
    assert!(name_precedes("a", "ab"));
    assert!(name_precedes("b.10", "b.9"));
    assert!(name_precedes("Z", "a"));
    assert!(name_precedes("z", "\u{e9}"));
    assert!(!name_precedes("a", "a"));
    assert!(!name_precedes("ab", "a"));
}
