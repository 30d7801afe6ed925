//! Packed weights, and which instructions pack them.

use whetstone::bytes::{bytes_of_words, read_u16, read_u32};
use whetstone::cpu::{detect, Isa};
use whetstone::hier::{pack_index, pack_indices, split_index, PackedInt4Hier, HGROUP};
use whetstone::quant::{
    check_pack_shape, pack_levels, pack_pair, pack_pairs, read_nibble, split_pair, PackedInt4, ShapeIssue, GROUP,
};

#[test]
fn packing_layout_is_eight_nibbles_per_word() {
    let (in_f, out_f) = (128usize, 2usize);
    let p = PackedInt4::from_levels(&vec![0u8; in_f * out_f], &[0x3c00; 2], &[0; 2], in_f, out_f).unwrap();

    assert_eq!(p.qw.len(), out_f * in_f / 8);
    assert_eq!(p.sz.len(), out_f * in_f / GROUP);
    assert_eq!(p.bytes(), p.qw.len() * 4 + p.sz.len() * 4);

    // 4 bits per weight plus one fp16 scale and one fp16 zero per 128.
    let expected = 4.0 + 32.0 / GROUP as f64;
    let bits_per_weight = p.bytes() as f64 * 8.0 / (in_f * out_f) as f64;
    assert!((bits_per_weight - expected).abs() < 1e-9);
}

#[test]
fn lib_rejects_bad_shapes() {
    assert!(
        PackedInt4::from_levels(&[0; 100], &[0; 1], &[0; 1], 100, 1).is_err(),
        "100 is not a multiple of 128"
    );
    assert!(
        PackedInt4::from_levels(&[0; 10], &[0; 1], &[0; 1], 128, 1).is_err(),
        "slice too short for shape"
    );
    assert!(matches!(check_pack_shape(100, 100, 1, GROUP), Err(ShapeIssue::Width { in_features: 100, group: 128 })));
    assert!(matches!(check_pack_shape(10, 128, 1, GROUP), Err(ShapeIssue::Weights { got: 10, want: 128 })));
    assert!(check_pack_shape(256, 128, 2, GROUP).is_ok());
}

#[test]
fn packing_widths_are_what_the_roofline_assumes() {
    let (in_f, out_f) = (4864usize, 4usize);
    let groups = in_f * out_f / HGROUP;
    let p = PackedInt4Hier::from_levels(
        &vec![9u8; in_f * out_f],
        &vec![1u8; groups],
        &vec![0u8; groups],
        &[0x3c00; 4],
        &[0; 4],
        in_f,
        out_f,
    )
    .unwrap();
    assert_eq!(p.qw.len(), out_f * in_f / 8);
    assert_eq!(p.si.len(), out_f * in_f / HGROUP);
    assert_eq!(p.sb.len(), out_f);
    // 4 + 8/32 + 32/4864
    let bits_per_weight = p.bytes() as f64 * 8.0 / (in_f * out_f) as f64;
    assert!((bits_per_weight - 4.2566).abs() < 1e-3);
}

#[test]
fn hier_rejects_bad_shapes() {
    assert!(PackedInt4Hier::from_levels(&[0; 100], &[1; 3], &[0; 3], &[0; 1], &[0; 1], 100, 1).is_err());
    assert!(PackedInt4Hier::from_levels(&[0; 10], &[1; 1], &[0; 1], &[0; 1], &[0; 1], 32, 1).is_err());
}

#[test]
fn every_level_comes_back() {
    let levels: Vec<u8> = (0..256).map(|i| ((i * 7 + i / 128) % 16) as u8).collect();
    let p = PackedInt4::from_levels(&levels, &[1, 2], &[3, 4], 128, 2).unwrap();
    for row in 0..2 {
        for col in 0..128 {
            assert_eq!(p.level(row, col), levels[row * 128 + col], "row {row}, column {col}");
        }
    }
    let (scale, zero) = split_pair(p.sz[1]);
    assert_eq!((scale, zero), (2, 4));

    let h =
        PackedInt4Hier::from_levels(&levels[..64], &[15, 2], &[0, 15], &[0x1234], &[0x5678], 64, 1).unwrap();
    for col in 0..64 {
        assert_eq!(h.level(0, col), levels[col]);
    }
    assert_eq!(split_index(h.si[0]), (15, 0));
    assert_eq!(split_index(h.si[1]), (2, 15));
    assert_eq!(h.sb, vec![0x5678_1234]);
}

#[test]
fn the_first_of_two_goes_low() {
    assert_eq!(pack_levels(&[1, 2, 3, 4, 5, 6, 7, 8]), vec![0x8765_4321]);
    assert_eq!(read_nibble(0x8765_4321, 0), 1);
    assert_eq!(read_nibble(0x8765_4321, 7), 8);
    assert_eq!(pack_pair(0x1234, 0xabcd), 0xabcd_1234);
    assert_eq!(pack_pairs(&[1, 2], &[3, 4]), vec![0x3_0001, 0x4_0002]);
    assert_eq!(pack_index(3, 12), 0xc3);
    assert_eq!(pack_indices(&[1, 2], &[3, 4]), vec![0x31, 0x42]);
}

#[test]
fn words_survive_as_bytes() {
    let words = vec![0x0403_0201u32, 0xffff_fffe];
    let bytes = bytes_of_words(&words);
    assert_eq!(bytes, vec![1, 2, 3, 4, 0xfe, 0xff, 0xff, 0xff]);
    assert_eq!(read_u32(&bytes, 0, 8), words);
    assert_eq!(read_u32(&bytes, 4, 4), words[1..].to_vec());
    assert_eq!(read_u16(&bytes, 2, 4), vec![0x0403, 0xfffe]);
}

#[test]
fn detection_is_consistent_with_std() {
    for code in 0u8..16 {
        let (avx2, fma, f16c, sse41) = (code & 1 != 0, code & 2 != 0, code & 4 != 0, code & 8 != 0);
        let isa = detect(avx2, fma, f16c, sse41);
        if isa == Isa::Sse41 {
            assert!(sse41);
        }
        if isa >= Isa::Avx2 {
            assert!(avx2);
            assert!(fma);
            assert!(f16c);
        }
        assert!(!isa.name(true).is_empty());
    }
    assert_eq!(detect(true, true, true, true), Isa::Avx2);
    assert_eq!(detect(true, false, true, true), Isa::Sse41);
    assert_eq!(detect(true, true, false, false), Isa::Baseline);
    assert_eq!(Isa::Avx2.name(true), "avx2+fma+f16c");
    assert_eq!(Isa::Sse41.name(true), "sse4.1");
    assert_eq!(Isa::Baseline.name(true), "sse2 (baseline)");
    assert_eq!(Isa::Baseline.name(false), "generic");
}
