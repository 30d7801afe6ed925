//! The shape rules of the device layer.

use whetstone::kernels::gemv::{
    gemv_fp16_ex, hier_rule_from_env, reported_index, variant_of, QuantLinear, QuantLinearHier, Selection,
};
use whetstone::kernels::moe::{accumulate, router, ExpertChoice};
use whetstone::kernels::rescore::HeadRescore;
use whetstone::kernels::{
    allocation_bytes, check, check_copy, check_range_copy, chunk, compute_capability, decode, device_name,
    require_device, AbiLayout, Error, Operand, ShapeRule,
};

#[test]
fn rejects_shape_violations() {
    // in_features must be a multiple of the group size.
    assert!(matches!(
        QuantLinear::from_packed(&[0u32; 100], &[0u32; 1], 100, 8),
        Err(Error::Shape(ShapeRule::Width { width: 100, multiple: 128 }))
    ));
    // Packed array sizes must match the declared shape.
    assert!(matches!(QuantLinear::from_packed(&[0u32; 8], &[0u32; 1], 128, 1), Err(Error::Shape(_))));
    let q = QuantLinear::from_packed(&[0u32; 16], &[0u32; 1], 128, 1).unwrap();
    assert_eq!((q.in_features(), q.out_features(), q.bytes()), (128, 1, 68));
}

#[test]
fn length_mismatch_is_rejected_not_ub() {
    // A buffer of 64, a source of 32 and a target of 16.
    assert!(matches!(check_copy(32, 64), Err(Error::Shape(_))));
    assert!(matches!(check_copy(16, 64), Err(Error::Shape(_))));
    assert_eq!(check_copy(64, 64).unwrap(), true);
    assert_eq!(check_copy(0, 0).unwrap(), false);
    assert!(matches!(
        check_range_copy(64, 60, 5, 5),
        Err(Error::Shape(ShapeRule::PastCache { pos: 60, rows: 5, capacity: 64 }))
    ));
    assert!(matches!(check_range_copy(64, 60, 4, 5), Err(Error::Shape(ShapeRule::Length { .. }))));
    assert_eq!(check_range_copy(64, 60, 4, 4).unwrap(), true);
}

#[test]
fn an_allocation_that_cannot_be_stated_errors_cleanly() {
    assert_eq!(allocation_bytes(1 << 42, 4).unwrap(), 1 << 44);
    assert!(matches!(allocation_bytes(usize::MAX, 4), Err(Error::InvalidArg(_))));
}

#[test]
fn mismatched_shapes_are_refused() {
    let (vocab, hidden) = (512usize, 64usize);
    assert!(HeadRescore::new(vocab * hidden, vocab, hidden + 1, 8).is_err());
    assert!(HeadRescore::new(vocab * hidden, vocab, hidden, 0).is_err());

    let rs = HeadRescore::new(vocab * hidden, vocab, hidden, 8).unwrap();
    assert!(rs.apply(vocab + 1, hidden).is_err());
    assert!(rs.apply(vocab, hidden - 1).is_err());
    assert!(rs.apply(vocab, hidden).is_ok());
    assert_eq!(rs.cap(), 128);
    assert_eq!(rs.scratch(), 15);
    assert_eq!(rs.bytes(), 512 * 64 * 2 + 128 * 4 + 15 * 4 + 8);
}

#[test]
fn status_codes_become_errors() {
    let e = |status: i32| check(status, "words".to_string()).unwrap_err();
    assert!(check(0, "words".to_string()).is_ok());
    assert!(matches!(e(1), Error::Cuda(w) if w == "words"));
    assert!(matches!(e(2), Error::InvalidArg(w) if w == "words"));
    assert!(matches!(e(3), Error::UnsupportedArch(w) if w == "words"));
    assert!(matches!(e(4), Error::Oom(w) if w == "words"));
    assert!(matches!(e(5), Error::Shape(ShapeRule::Device(w)) if w == "words"));
    assert!(matches!(e(-7), Error::Cuda(w) if w == "unknown status -7: words"));
    assert!(matches!(require_device(0), Err(Error::NoDevice)));
    assert!(require_device(1).is_ok());
}

#[test]
fn devices_are_described() {
    assert_eq!(compute_capability(7, 5), 75);
    assert_eq!(device_name(b"GTX 1660\0\0junk"), "GTX 1660");
    assert_eq!(device_name(b"full"), "full");
    let none = AbiLayout { device_info_size: 0, device_info_align: 0, probe_size: 0, probe_align: 0 };
    assert_eq!(AbiLayout::default(), none);
}

#[test]
fn projections_check_their_vectors() {
    let q = QuantLinear::from_packed(&[0u32; 32], &[0u32; 2], 128, 2).unwrap();
    assert!(q.gemv_ex(128, None, 2).is_ok());
    assert!(q.gemv_ex(128, Some(2), 2).is_ok());
    let of = |r: Result<(), Error>| match r {
        Err(Error::Shape(ShapeRule::Length { of, .. })) => of,
        other => panic!("unexpected outcome: {other:?}"),
    };
    assert_eq!(of(q.gemv_ex(127, None, 2)), Operand::X);
    assert_eq!(of(q.gemv_ex(128, None, 3)), Operand::Y);
    assert_eq!(of(q.gemv_ex(128, Some(3), 2)), Operand::Bias);
    assert_eq!(of(q.gather_row(127)), Operand::Output);
    assert!(q.gather_row(128).is_ok());

    let h = QuantLinearHier::from_packed(&[0u32; 8], &[0u8; 2], &[0u32; 1], 64, 1).unwrap();
    assert_eq!((h.in_features(), h.out_features(), h.bytes()), (64, 1, 32 + 2 + 4));
    assert!(h.gemv_ex(64, None, 1).is_ok());
    assert!(h.gemm_ex(128, None, 2, 2).is_ok());
    assert!(matches!(h.gemm_ex(128, None, 2, 0), Err(Error::Shape(ShapeRule::NoRows))));
    assert!(matches!(h.gemm_ex(127, None, 2, 2), Err(Error::Shape(ShapeRule::Rows { of: Operand::X, .. }))));
    assert!(QuantLinearHier::from_packed(&[0u32; 8], &[0u8; 2], &[0u32; 2], 64, 1).is_err());
    assert!(QuantLinearHier::from_packed(&[0u32; 8], &[0u8; 2], &[0u32; 1], 63, 1).is_err());

    assert!(gemv_fp16_ex(6, 3, None, 2, 3, 2).is_ok());
    assert!(matches!(
        gemv_fp16_ex(7, 3, None, 2, 3, 2),
        Err(Error::Shape(ShapeRule::Matrix { of: Operand::Weights, got: 7, rows: 2, width: 3 }))
    ));
}

#[test]
fn variants_are_chosen_or_left_to_the_shape() {
    let auto = Selection::auto();
    assert!(auto.is_auto());
    assert_eq!(auto.selected(4), Some(4));
    assert_eq!(auto.for_projection(9), Some(9));
    let three = Selection::select(Some(3));
    assert!(!three.is_auto());
    assert_eq!(three.selected(4), Some(3));
    assert_eq!(three.for_projection(9), Some(3));
    let plain = Selection::select(None);
    assert_eq!(plain.selected(4), None);
    assert_eq!(plain.for_projection(9), None);
    assert_eq!(variant_of(-1), None);
    assert_eq!(variant_of(5), Some(5));
    assert_eq!(reported_index(-1), 0);
    assert_eq!(reported_index(7), 7);
}

#[test]
fn a_rule_is_three_numbers() {
    assert_eq!(hier_rule_from_env("3,4,9"), Some((3, 4, 9)));
    assert_eq!(hier_rule_from_env(" 3 , -4,\t9"), Some((3, -4, 9)));
    // What is no number is passed over.
    assert_eq!(hier_rule_from_env("3,x,4,9"), Some((3, 4, 9)));
    assert_eq!(hier_rule_from_env("3,4"), None);
    assert_eq!(hier_rule_from_env("3,4,9,9"), None);
    assert_eq!(hier_rule_from_env(""), None);
}

#[test]
fn decode_kernels_check_their_buffers() {
    assert!(decode::rmsnorm(64, 64, 64).is_ok());
    assert!(decode::rmsnorm(64, 63, 64).is_err());
    assert!(decode::rmsnorm(64, 64, 63).is_err());

    let table = decode::RopeTable::new(16, 8).unwrap();
    assert_eq!(table.bytes(), 16 * 4 * 8);
    assert!(matches!(decode::RopeTable::new(16, 7), Err(Error::Shape(ShapeRule::OddHead(7)))));
    assert!(matches!(decode::RopeTable::new(16, 0), Err(Error::Shape(ShapeRule::OddHead(0)))));
    let cache = decode::KvCache::new(2, 8, 16, 100);
    assert_eq!(cache.len(), 2 * 16 * 8);
    assert_eq!(cache.bytes(), 2 * 16 * 8 * 4 + 400);
    assert!(decode::rope_cache((4 + 2 * 2) * 8, &cache, &table, 4).is_ok());
    assert!(matches!(
        decode::rope_cache(63, &cache, &table, 4),
        Err(Error::Shape(ShapeRule::Heads { got: 63, rows: 1, n_q: 4, n_kv: 2, head_dim: 8, .. }))
    ));
    let short = decode::RopeTable::new(15, 8).unwrap();
    assert!(matches!(decode::rope_cache(64, &cache, &short, 4), Err(Error::Shape(ShapeRule::RotaryTable))));
    assert!(decode::attn_decode(64, &cache, 32, 4).is_ok());
    assert!(decode::attn_decode(31, &cache, 32, 4).is_err());
    assert!(decode::attn_decode(64, &cache, 33, 4).is_err());
    assert!(decode::swiglu(20, 10).is_ok());
    assert!(decode::swiglu(21, 10).is_err());

    assert_eq!(decode::embed_fp16(640, 64).unwrap(), 10);
    assert!(decode::embed_fp16(641, 64).is_err());
    assert!(decode::embed_int4(32, 2, 128).is_ok());
    assert!(decode::embed_int4(32, 3, 128).is_err());
    assert!(decode::embed_int4(32, 2, 64).is_err());
    assert_eq!(decode::whetstone_hgroup(), 32);
    assert!(decode::embed_int4_hier(16, 4, 2, 64).is_ok());
    assert!(decode::embed_int4_hier(16, 4, 1, 64).is_err());

    assert!(decode::argmax(10, 1).is_ok());
    assert!(matches!(decode::argmax(0, 1), Err(Error::Shape(ShapeRule::Empty(Operand::Logits)))));
    assert!(decode::argmax(10, 2).is_err());
    assert!(decode::nll(10, 9, 2).is_ok());
    assert!(matches!(
        decode::nll(10, 10, 2),
        Err(Error::Shape(ShapeRule::Target { target: 10, vocab: 10 }))
    ));
    assert!(decode::nll(10, 9, 1).is_err());
}

#[test]
fn chunk_kernels_check_their_rows() {
    assert_eq!(chunk::max_tokens(8), 8);
    assert_eq!(chunk::max_tokens(-1), 1);
    assert!(chunk::check_rows(20, 10, 10, 5, 2).is_ok());
    assert!(chunk::check_rows(19, 10, 10, 5, 2).is_err());
    assert!(chunk::check_rows(20, 9, 10, 5, 2).is_err());
    assert!(matches!(chunk::check_rows(20, 10, 10, 5, 0), Err(Error::Shape(ShapeRule::NoRows))));
    assert!(chunk::gemm_fp16(50, 20, None, 10, 10, 5, 2).is_ok());
    assert!(chunk::gemm_fp16(51, 20, None, 10, 10, 5, 2).is_err());
    assert!(chunk::gemm_fp16(50, 20, Some(4), 10, 10, 5, 2).is_err());
    assert!(chunk::rmsnorm_eps(20, 10, 20, 10, 2).is_ok());
    assert!(chunk::rmsnorm_eps(20, 9, 20, 10, 2).is_err());

    let cache = decode::KvCache::new(2, 8, 16, 0);
    let table = decode::RopeTable::new(16, 8).unwrap();
    assert!(chunk::rope_cache(128, &cache, &table, 4, 14, 2, None).is_ok());
    assert!(chunk::rope_cache(128, &cache, &table, 4, 14, 2, Some((8, 8))).is_ok());
    assert!(matches!(
        chunk::rope_cache(128, &cache, &table, 4, 14, 2, Some((8, 7))),
        Err(Error::Shape(ShapeRule::Gains { q: 8, k: 7, head_dim: 8 }))
    ));
    assert!(matches!(
        chunk::rope_cache(128, &cache, &table, 4, 15, 2, None),
        Err(Error::Shape(ShapeRule::PastCache { pos: 15, rows: 2, capacity: 16 }))
    ));
    assert!(chunk::attn(128, &cache, 64, 4, 14, 2).is_ok());
    assert!(chunk::attn(128, &cache, 63, 4, 14, 2).is_err());
    assert!(chunk::attn(127, &cache, 64, 4, 14, 2).is_err());
    assert!(chunk::attn(128, &cache, 64, 4, 15, 2).is_err());
    assert!(chunk::swiglu(40, 20, 10, 2).is_ok());
    assert!(chunk::swiglu(39, 20, 10, 2).is_err());
    assert!(chunk::swiglu(40, 19, 10, 2).is_err());
    assert!(chunk::check_gather(2, 20, 10, 2).is_ok());
    assert!(chunk::check_gather(1, 20, 10, 2).is_err());
    assert!(chunk::check_gather(2, 19, 10, 2).is_err());
    assert!(chunk::argmax(20, 2, 10, 2).is_ok());
    assert!(chunk::argmax(19, 2, 10, 2).is_err());
    assert!(chunk::argmax(20, 1, 10, 2).is_err());
}

#[test]
fn experts_are_chosen_among_those_there_are() {
    let choice = ExpertChoice::new(8, 2).unwrap();
    assert!(router(8, &choice).is_ok());
    assert!(router(7, &choice).is_err());
    assert!(accumulate(16, 16, &choice, 1).is_ok());
    assert!(accumulate(16, 15, &choice, 1).is_err());
    assert!(matches!(accumulate(16, 16, &choice, 2), Err(Error::Shape(ShapeRule::Slot { slot: 2, k: 2 }))));
    assert!(matches!(ExpertChoice::new(0, 1), Err(Error::Shape(ShapeRule::Experts(0)))));
    assert!(matches!(ExpertChoice::new(8, 9), Err(Error::Shape(ShapeRule::Chosen { k: 9, among: 8 }))));
    assert!(matches!(ExpertChoice::new(8, 0), Err(Error::Shape(ShapeRule::Chosen { .. }))));
}
