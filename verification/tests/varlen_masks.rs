use kv_core::varlen::{
    attends_check, check_cu_seqlens, check_varlen_args, kv_head_of, repeat_kv_heads, seq_of_pos,
};

#[test]
fn causal_mask_in_second_sequence() {
    // cu_seqlens_q = cu_seqlens_k = [0, 3, 5], causal: query position 4
    // (second sequence, second token) attends to key positions 3 and 4
    // only, never to positions 0..2
    let cu: Vec<usize> = vec![0, 3, 5];
    for k in 0..5 {
        let expected = k == 3 || k == 4;
        assert_eq!(attends_check(&cu, &cu, true, 4, k), expected);
    }
}

#[test]
fn causal_mask_first_token_of_second_sequence() {
    let cu: Vec<usize> = vec![0, 3, 5];
    // query position 3 (second sequence, first token) attends to key
    // position 3 only
    for k in 0..5 {
        assert_eq!(attends_check(&cu, &cu, true, 3, k), k == 3);
    }
}

#[test]
fn non_causal_mask_stays_within_sequence() {
    let cu: Vec<usize> = vec![0, 3, 5];
    // without causal masking a query sees its whole sequence, and still
    // never crosses the sequence boundary
    for k in 0..5 {
        assert_eq!(attends_check(&cu, &cu, false, 4, k), k >= 3);
        assert_eq!(attends_check(&cu, &cu, false, 1, k), k < 3);
    }
}

#[test]
fn single_sequence_causal_matches_dense_mask() {
    // one sequence [0, n]: the mask is the dense causal triangle
    let cu: Vec<usize> = vec![0, 4];
    for q in 0..4 {
        for k in 0..4 {
            assert_eq!(attends_check(&cu, &cu, true, q, k), k <= q);
        }
    }
}

#[test]
fn causal_mask_aligns_query_to_end_of_keys() {
    // one sequence: 2 query positions over 4 key positions (a decode step
    // over history): the queries are the last two positions
    let cu_q: Vec<usize> = vec![0, 2];
    let cu_k: Vec<usize> = vec![0, 4];
    // query 0 is absolute position 2: attends keys 0..=2
    for k in 0..4 {
        assert_eq!(attends_check(&cu_q, &cu_k, true, 0, k), k <= 2);
    }
    // query 1 is absolute position 3: attends keys 0..=3
    for k in 0..4 {
        assert!(attends_check(&cu_q, &cu_k, true, 1, k));
    }
}

#[test]
fn cu_seqlens_validation() {
    assert!(check_cu_seqlens(&vec![0]));
    assert!(check_cu_seqlens(&vec![0, 3, 3, 5]));
    assert!(!check_cu_seqlens(&vec![]));
    assert!(!check_cu_seqlens(&vec![1, 3]));
    assert!(!check_cu_seqlens(&vec![0, 4, 2]));
}

#[test]
fn seq_of_pos_finds_the_segment() {
    let cu: Vec<usize> = vec![0, 3, 3, 5];
    assert_eq!(seq_of_pos(&cu, 0), 0);
    assert_eq!(seq_of_pos(&cu, 2), 0);
    assert_eq!(seq_of_pos(&cu, 3), 2);
    assert_eq!(seq_of_pos(&cu, 4), 2);
}

#[test]
fn grouped_query_head_mapping() {
    // 8 query heads over 2 key/value heads: each kv head serves 4 query
    // heads, exactly as materializing the repeated kv heads would place
    // them
    for q_head in 0..4 {
        assert_eq!(kv_head_of(q_head, 8, 2), 0);
    }
    for q_head in 4..8 {
        assert_eq!(kv_head_of(q_head, 8, 2), 1);
    }
    // equal head counts: the identity mapping
    for q_head in 0..4 {
        assert_eq!(kv_head_of(q_head, 4, 4), q_head);
    }
}

#[test]
fn varlen_argument_validation() {
    let cu_q: Vec<usize> = vec![0, 3, 5];
    let cu_k: Vec<usize> = vec![0, 4, 6];
    assert!(check_varlen_args(&cu_q, &cu_k, 5, 6, 8, 2));
    // query heads not a multiple of kv heads
    assert!(!check_varlen_args(&cu_q, &cu_k, 5, 6, 8, 3));
    // totals that do not match the offsets
    assert!(!check_varlen_args(&cu_q, &cu_k, 4, 6, 8, 2));
    // batch sizes that do not match
    let cu_short: Vec<usize> = vec![0, 6];
    assert!(!check_varlen_args(&cu_q, &cu_short, 5, 6, 8, 2));
}

#[test]
fn materialized_kv_heads_match_grouped_lookup() {
    // 2 tokens, 2 kv heads of 2 dims each, repeated onto 4 query heads:
    // the equal-heads buffer places kv head hq / 2 at query head hq
    let num_tokens = 2;
    let num_heads_kv = 2;
    let num_heads_q = 4;
    let head_size = 2;
    let mut src: Vec<u16> = Vec::new();
    for i in 0..num_tokens * num_heads_kv * head_size {
        src.push(10 + i as u16);
    }
    let out = repeat_kv_heads(&src, num_tokens, num_heads_kv, num_heads_q, head_size);
    assert_eq!(out.len(), num_tokens * num_heads_q * head_size);
    for t in 0..num_tokens {
        for hq in 0..num_heads_q {
            let kvh = kv_head_of(hq, num_heads_q, num_heads_kv);
            for h in 0..head_size {
                assert_eq!(
                    out[(t * num_heads_q + hq) * head_size + h],
                    src[(t * num_heads_kv + kvh) * head_size + h]
                );
            }
        }
    }
    // one exact row: token 1, query head 3 reads kv head 1 of token 1
    assert_eq!(out[(1 * 4 + 3) * 2], src[(1 * 2 + 1) * 2]);
}
