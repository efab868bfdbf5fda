use kv_core::cache::{
    copy_blocks, flatten_block_mapping, gather_cached_kv, normalize_slot_mapping,
    reshape_and_cache,
};
use kv_core::layout::CacheLayout;

fn small_layout() -> CacheLayout {
    CacheLayout { num_blocks: 2, num_heads: 1, head_size: 2, block_size: 16, x: 2 }
}

fn filled_cache(layout: &CacheLayout) -> Vec<u16> {
    let len = layout.cache_len_exec();
    let mut v: Vec<u16> = Vec::new();
    for i in 0..len {
        v.push(i as u16);
    }
    v
}

#[test]
fn scatter_then_gather_at_written_slot() {
    // block_size = 16, 2 cache blocks, 1 token written at slot 5
    // (block 0, offset 5)
    let layout = small_layout();
    assert!(layout.check_wf());
    let mut key_cache = filled_cache(&layout);
    let mut value_cache = filled_cache(&layout);
    let key: Vec<u16> = vec![0xAAAA, 0xBBBB];
    let value: Vec<u16> = vec![0x1111, 0x2222];
    let slots: Vec<usize> = vec![5];
    reshape_and_cache(&key, &value, &mut key_cache, &mut value_cache, &slots, &layout);

    let mut key_out: Vec<u16> = vec![0, 0];
    let mut value_out: Vec<u16> = vec![0, 0];
    gather_cached_kv(&mut key_out, &mut value_out, &key_cache, &value_cache, &slots, &layout);
    assert_eq!(key_out, key);
    assert_eq!(value_out, value);
}

#[test]
fn gather_at_untouched_slot_returns_preexisting_content() {
    // after writing slot 5, slot 21 (block 1, offset 5) still holds the
    // pre-existing cache content
    let layout = small_layout();
    let mut key_cache = filled_cache(&layout);
    let mut value_cache = filled_cache(&layout);
    let key: Vec<u16> = vec![0xAAAA, 0xBBBB];
    let value: Vec<u16> = vec![0x1111, 0x2222];
    let write_slots: Vec<usize> = vec![5];
    reshape_and_cache(&key, &value, &mut key_cache, &mut value_cache, &write_slots, &layout);

    let read_slots: Vec<usize> = vec![21];
    let mut key_out: Vec<u16> = vec![0, 0];
    let mut value_out: Vec<u16> = vec![0, 0];
    gather_cached_kv(&mut key_out, &mut value_out, &key_cache, &value_cache, &read_slots,
        &layout);
    // key layout [blocks, heads, head_size / x, block_size, x]:
    // element (block 1, head 0, dim h, offset 5) sits at 32 + 5 * 2 + h
    assert_eq!(key_out, vec![42, 43]);
    // value layout [blocks, heads, head_size, block_size]:
    // element (block 1, head 0, dim h, offset 5) sits at 32 + h * 16 + 5
    assert_eq!(value_out, vec![37, 53]);
}

#[test]
fn scatter_gather_round_trip_many_tokens() {
    let layout = CacheLayout { num_blocks: 3, num_heads: 2, head_size: 4, block_size: 4, x: 2 };
    assert!(layout.check_wf());
    let mut key_cache = filled_cache(&layout);
    let mut value_cache = filled_cache(&layout);
    let num_tokens = 5;
    let per_token = layout.num_heads * layout.head_size;
    let mut key: Vec<u16> = Vec::new();
    let mut value: Vec<u16> = Vec::new();
    for i in 0..num_tokens * per_token {
        key.push(1000 + i as u16);
        value.push(2000 + i as u16);
    }
    let slots: Vec<usize> = vec![7, 0, 11, 4, 9];
    reshape_and_cache(&key, &value, &mut key_cache, &mut value_cache, &slots, &layout);

    let mut key_out: Vec<u16> = vec![0; num_tokens * per_token];
    let mut value_out: Vec<u16> = vec![0; num_tokens * per_token];
    gather_cached_kv(&mut key_out, &mut value_out, &key_cache, &value_cache, &slots, &layout);
    assert_eq!(key_out, key);
    assert_eq!(value_out, value);
}

#[test]
fn copy_blocks_fans_out_source_to_all_destinations() {
    let layout = CacheLayout { num_blocks: 4, num_heads: 1, head_size: 2, block_size: 2, x: 2 };
    assert!(layout.check_wf());
    let epb = 1 * 2 * 2;
    // two layers, each with its own content
    let mut key_caches: Vec<Vec<u16>> = Vec::new();
    let mut value_caches: Vec<Vec<u16>> = Vec::new();
    for layer in 0..2u16 {
        let mut kc: Vec<u16> = Vec::new();
        let mut vc: Vec<u16> = Vec::new();
        for i in 0..layout.cache_len_exec() {
            kc.push(100 * layer + i as u16);
            vc.push(100 * layer + 50 + i as u16);
        }
        key_caches.push(kc);
        value_caches.push(vc);
    }
    let before_key: Vec<Vec<u16>> = key_caches.clone();
    let before_value: Vec<Vec<u16>> = value_caches.clone();

    // fan-out: block 0 copied onto blocks 2 and 3
    let mapping: Vec<(usize, Vec<usize>)> = vec![(0, vec![2, 3])];
    copy_blocks(&mut key_caches, &mut value_caches, &mapping, &layout);

    for l in 0..2 {
        for dst in [2usize, 3] {
            for k in 0..epb {
                assert_eq!(key_caches[l][dst * epb + k], before_key[l][k]);
                assert_eq!(value_caches[l][dst * epb + k], before_value[l][k]);
            }
        }
        // block 1 is no destination: unchanged
        for k in 0..epb {
            assert_eq!(key_caches[l][epb + k], before_key[l][epb + k]);
            assert_eq!(value_caches[l][epb + k], before_value[l][epb + k]);
        }
    }
}

#[test]
fn flatten_block_mapping_lists_every_edge() {
    let mapping: Vec<(usize, Vec<usize>)> = vec![(0, vec![2, 3]), (1, vec![5])];
    let pairs = flatten_block_mapping(&mapping);
    assert_eq!(pairs.len(), 3);
    assert!(pairs.contains(&(0, 2)));
    assert!(pairs.contains(&(0, 3)));
    assert!(pairs.contains(&(1, 5)));
}

#[test]
fn normalize_slot_mapping_accepts_valid_slots() {
    let layout = small_layout();
    let raw: Vec<i64> = vec![0, 5, 31];
    let slots = normalize_slot_mapping(&raw, &layout).unwrap();
    assert_eq!(slots, vec![0usize, 5, 31]);
}

#[test]
fn normalize_slot_mapping_rejects_negative_slot() {
    let layout = small_layout();
    let raw: Vec<i64> = vec![0, -1];
    assert!(normalize_slot_mapping(&raw, &layout).is_none());
}

#[test]
fn normalize_slot_mapping_rejects_out_of_range_slot() {
    let layout = small_layout();
    // 2 blocks of 16 slots: slot 32 does not exist
    let raw: Vec<i64> = vec![32];
    assert!(normalize_slot_mapping(&raw, &layout).is_none());
}

#[test]
fn check_wf_rejects_degenerate_layouts() {
    let mut layout = small_layout();
    assert!(layout.check_wf());
    layout.x = 3; // does not divide head_size = 2
    assert!(!layout.check_wf());
    layout.x = 2;
    layout.num_blocks = 0;
    assert!(!layout.check_wf());
}

#[test]
fn index_helpers_follow_documented_layouts() {
    let layout = small_layout();
    // key cache [2, 1, 1, 16, 2]: (block 1, head 0, dim 1, offset 5)
    assert_eq!(layout.key_index_at(1, 0, 1, 5), 32 + 5 * 2 + 1);
    // value cache [2, 1, 2, 16]: (block 1, head 0, dim 1, offset 5)
    assert_eq!(layout.value_index_at(1, 0, 1, 5), 32 + 16 + 5);
    assert_eq!(layout.cache_len_exec(), 64);
    assert_eq!(layout.elems_per_block_exec(), 32);
    assert_eq!(layout.num_slots_exec(), 32);
}
