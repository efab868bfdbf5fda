use kv_core::cache::{gather_cached_kv, reshape_and_cache};
use kv_core::layout::{CacheLayout, slot_block, slot_offset};
use kv_core::meta::{
    check_cont_bf16_or_f16, check_copy_blocks_meta, is_bf16_or_f16, DeviceId, ElemKind,
    TensorMeta,
};
use kv_core::paged::{block_table_slot, check_paged_args, paged_slot_mapping};
use kv_core::rotary::rotary_pair;
use kv_core::varlen::check_max_seqlen;
use kv_core::stats::{CudaProps, Stats};

#[test]
fn slot_arithmetic_decomposes_flat_slots() {
    assert_eq!(slot_block(5, 16), 0);
    assert_eq!(slot_offset(5, 16), 5);
    assert_eq!(slot_block(21, 16), 1);
    assert_eq!(slot_offset(21, 16), 5);
}

#[test]
fn block_table_addresses_noncontiguous_blocks() {
    let layout = CacheLayout { num_blocks: 4, num_heads: 1, head_size: 2, block_size: 4, x: 2 };
    // logical history blocks 0 and 1 live in physical blocks 3 and 1
    let bt: Vec<usize> = vec![3, 1];
    assert_eq!(block_table_slot(&bt, &layout, 0), 12);
    assert_eq!(block_table_slot(&bt, &layout, 3), 15);
    assert_eq!(block_table_slot(&bt, &layout, 4), 4);
    assert_eq!(block_table_slot(&bt, &layout, 5), 5);
    let slots = paged_slot_mapping(&bt, &layout, 6);
    assert_eq!(slots, vec![12, 13, 14, 15, 4, 5]);
}

#[test]
fn paged_read_matches_dense_content() {
    // cross-path consistency on one sequence: scatter its keys/values to
    // the slots its block table names, then read the history back through
    // the same table; the paged path sees exactly the dense buffers
    let layout = CacheLayout { num_blocks: 4, num_heads: 2, head_size: 2, block_size: 2, x: 2 };
    let bt: Vec<usize> = vec![2, 0];
    let context_len = 3;
    let slots = paged_slot_mapping(&bt, &layout, context_len);

    let mut key_cache: Vec<u16> = vec![0; layout.cache_len_exec()];
    let mut value_cache: Vec<u16> = vec![0; layout.cache_len_exec()];
    let per_token = layout.num_heads * layout.head_size;
    let mut key: Vec<u16> = Vec::new();
    let mut value: Vec<u16> = Vec::new();
    for i in 0..context_len * per_token {
        key.push(300 + i as u16);
        value.push(600 + i as u16);
    }
    reshape_and_cache(&key, &value, &mut key_cache, &mut value_cache, &slots, &layout);

    let mut key_out: Vec<u16> = vec![0; context_len * per_token];
    let mut value_out: Vec<u16> = vec![0; context_len * per_token];
    gather_cached_kv(&mut key_out, &mut value_out, &key_cache, &value_cache, &slots, &layout);
    assert_eq!(key_out, key);
    assert_eq!(value_out, value);
}

fn half_meta() -> TensorMeta {
    TensorMeta {
        kind: ElemKind::Half,
        device: DeviceId { cuda: true, ordinal: 0 },
        contiguous: true,
        numel: 64,
    }
}

#[test]
fn half_kind_classification() {
    assert!(is_bf16_or_f16(ElemKind::Half));
    assert!(is_bf16_or_f16(ElemKind::BFloat16));
    assert!(!is_bf16_or_f16(ElemKind::Float));
    assert!(!is_bf16_or_f16(ElemKind::Double));
    assert!(!is_bf16_or_f16(ElemKind::Int));
    assert!(!is_bf16_or_f16(ElemKind::Int64));
    assert!(!is_bf16_or_f16(ElemKind::Uint8));
    assert!(!is_bf16_or_f16(ElemKind::Int8));
    assert!(!is_bf16_or_f16(ElemKind::Int16));
    assert!(!is_bf16_or_f16(ElemKind::Bool));
}

#[test]
fn copy_path_buffer_check() {
    let good = half_meta();
    assert!(check_cont_bf16_or_f16(&good));
    let mut host = good;
    host.device.cuda = false;
    assert!(!check_cont_bf16_or_f16(&host));
    let mut strided = good;
    strided.contiguous = false;
    assert!(!check_cont_bf16_or_f16(&strided));
    let mut wide = good;
    wide.kind = ElemKind::Float;
    assert!(!check_cont_bf16_or_f16(&wide));
}

#[test]
fn copy_blocks_metadata_validation() {
    let m = half_meta();
    assert!(check_copy_blocks_meta(&vec![m, m], &vec![m, m]));
    // empty layer list is admitted (the copy is a no-op)
    assert!(check_copy_blocks_meta(&vec![], &vec![]));
    // mismatched layer counts
    assert!(!check_copy_blocks_meta(&vec![m, m], &vec![m]));
    // one buffer on another device
    let mut other = m;
    other.device.ordinal = 1;
    assert!(!check_copy_blocks_meta(&vec![m, m], &vec![m, other]));
    // one buffer with another element count
    let mut bigger = m;
    bigger.numel = 128;
    assert!(!check_copy_blocks_meta(&vec![m, bigger], &vec![m, m]));
}

#[test]
fn rotary_pairing_conventions() {
    // split-half convention over 8 rotated dimensions
    assert_eq!(rotary_pair(true, 8, 0), (0, 4));
    assert_eq!(rotary_pair(true, 8, 1), (1, 5));
    assert_eq!(rotary_pair(true, 8, 3), (3, 7));
    // interleaved convention over 8 rotated dimensions
    assert_eq!(rotary_pair(false, 8, 0), (0, 1));
    assert_eq!(rotary_pair(false, 8, 1), (2, 3));
    assert_eq!(rotary_pair(false, 8, 3), (6, 7));
}

#[test]
fn memory_counters_start_at_zero() {
    let s = Stats::default();
    assert_eq!(s.current, 0);
    assert_eq!(s.peak, 0);
    assert_eq!(s.allocated, 0);
    assert_eq!(s.freed, 0);
    let s2 = s.clone();
    assert_eq!(s2.current, 0);
    let p = CudaProps::default();
    assert_eq!(p.major, 0);
    assert_eq!(p.minor, 0);
    assert_eq!(p.multi_processor_count, 0);
    assert_eq!(p.max_threads_per_multi_processor, 0);
    assert_eq!(p.total_memory, 0);
    let p2 = p.clone();
    assert_eq!(p2.total_memory, 0);
}

#[test]
fn paged_argument_validation() {
    let layout = CacheLayout { num_blocks: 8, num_heads: 4, head_size: 2, block_size: 4, x: 2 };
    let ctx: Vec<usize> = vec![3, 8, 5];
    // 2 blocks per sequence hold up to 8 positions
    assert!(check_paged_args(&layout, &ctx, 8, 2, 4, 2));
    // a context length over the traversal bound
    assert!(!check_paged_args(&layout, &ctx, 7, 2, 4, 2));
    // a context length that does not fit its block-table row
    assert!(!check_paged_args(&layout, &ctx, 8, 1, 4, 2));
    // head counts that do not divide evenly
    assert!(!check_paged_args(&layout, &ctx, 8, 2, 4, 3));
}

#[test]
fn max_seqlen_validation() {
    let cu: Vec<usize> = vec![0, 3, 5, 10];
    assert!(check_max_seqlen(&cu, 5));
    assert!(check_max_seqlen(&cu, 7));
    assert!(!check_max_seqlen(&cu, 4));
    let single: Vec<usize> = vec![0];
    assert!(check_max_seqlen(&single, 0));
}
