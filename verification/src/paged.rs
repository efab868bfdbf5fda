//! Block-table indexing of the block-indirected (paged) attention path.
//!
//! During incremental decoding each sequence's key/value history lives in
//! non-contiguous cache blocks; a per-sequence block table maps logical
//! block numbers to physical block ids. Logical position `p` of the
//! history lives in slot `block_table[p / block_size] * block_size
//! + p % block_size`. The lemmas here show that reading the history
//! through the block table yields exactly the vectors that were written
//! for those positions — so the paged path consumes the same key/value
//! content as the dense variable-length path.

use vstd::prelude::*;
use crate::layout::{CacheLayout, slot_id};
use crate::cache::{
    scattered, gathered, valid_slot_mapping, distinct_slots, token_buf_len,
    lemma_scatter_gather_roundtrip,
};
use crate::radix::{lemma_mix_bound, lemma_mix_inject, lemma_mix_decode};

verus! {

/// Every entry of a block table names a block that exists in the layout.
pub open spec fn valid_block_table(layout: CacheLayout, bt: Seq<usize>) -> bool {
    forall|c: int| 0 <= c < bt.len() ==> ((#[trigger] bt[c]) as int) < layout.num_blocks
}

/// No two entries of a block table name the same physical block.
pub open spec fn distinct_block_table(bt: Seq<usize>) -> bool {
    forall|c1: int, c2: int|
        0 <= c1 < c2 < bt.len() ==> #[trigger] bt[c1] != #[trigger] bt[c2]
}

/// The slot holding logical history position `p` under a block table.
pub open spec fn paged_slot(bt: Seq<usize>, block_size: int, p: int) -> int {
    slot_id(bt[p / block_size] as int, p % block_size, block_size)
}

/// The slot of logical position `p`, computed executably.
pub fn block_table_slot(bt: &Vec<usize>, layout: &CacheLayout, p: usize) -> (s: usize)
    requires
        layout.wf(),
        valid_block_table(*layout, bt@),
        (p as int) < bt@.len() * layout.block_size,
    ensures
        s as int == paged_slot(bt@, layout.block_size as int, p as int),
        (s as int) < layout.num_slots(),
{
    proof {
        layout.lemma_extents();
        lemma_mix_decode(p as int, bt@.len() as int, layout.block_size as int);
        let c = p as int / layout.block_size as int;
        lemma_mix_bound(bt@[c] as int, p as int % layout.block_size as int,
            layout.num_blocks as int, layout.block_size as int);
    }
    let c = p / layout.block_size;
    bt[c] * layout.block_size + p % layout.block_size
}

/// Builds the slot mapping that reads a sequence's first `context_len`
/// history positions through its block table.
#[verifier::loop_isolation(false)]
pub fn paged_slot_mapping(
    bt: &Vec<usize>,
    layout: &CacheLayout,
    context_len: usize,
) -> (slots: Vec<usize>)
    requires
        layout.wf(),
        valid_block_table(*layout, bt@),
        context_len as int <= bt@.len() * layout.block_size,
    ensures
        slots@.len() == context_len,
        forall|p: int|
            0 <= p < context_len
                ==> (#[trigger] slots@[p]) as int
                    == paged_slot(bt@, layout.block_size as int, p),
        valid_slot_mapping(*layout, slots@),
{
    let mut slots: Vec<usize> = Vec::new();
    let mut p: usize = 0;
    while p < context_len
        invariant
            p <= context_len,
            slots@.len() == p,
            forall|p2: int|
                0 <= p2 < p
                    ==> (#[trigger] slots@[p2]) as int
                        == paged_slot(bt@, layout.block_size as int, p2),
            forall|p2: int|
                0 <= p2 < p ==> ((#[trigger] slots@[p2]) as int) < layout.num_slots(),
        decreases context_len - p,
    {
        let s = block_table_slot(bt, layout, p);
        slots.push(s);
        p = p + 1;
    }
    slots
}

/// The arguments of a block-indirected attention call fit together: every
/// sequence's context length is bounded by the traversal bound and fits in
/// its block-table row, and the query head count is a positive multiple of
/// the key/value head count.
pub open spec fn paged_args_ok(
    layout: CacheLayout,
    context_lens: Seq<usize>,
    max_context_len: int,
    blocks_per_seq: int,
    num_heads_q: int,
    num_heads_kv: int,
) -> bool {
    &&& forall|s: int|
        0 <= s < context_lens.len()
            ==> (#[trigger] context_lens[s]) <= max_context_len
                && context_lens[s] <= blocks_per_seq * layout.block_size
    &&& 0 < num_heads_kv <= num_heads_q
    &&& num_heads_q % num_heads_kv == 0
}

/// Whether the arguments of a block-indirected attention call fit
/// together, decided executably.
#[verifier::loop_isolation(false)]
pub fn check_paged_args(
    layout: &CacheLayout,
    context_lens: &Vec<usize>,
    max_context_len: usize,
    blocks_per_seq: usize,
    num_heads_q: usize,
    num_heads_kv: usize,
) -> (r: bool)
    requires
        layout.wf(),
    ensures
        r == paged_args_ok(*layout, context_lens@, max_context_len as int,
            blocks_per_seq as int, num_heads_q as int, num_heads_kv as int),
{
    if !(num_heads_kv > 0 && num_heads_kv <= num_heads_q && num_heads_q % num_heads_kv == 0) {
        return false;
    }
    let cap = blocks_per_seq.checked_mul(layout.block_size);
    let mut s: usize = 0;
    while s < context_lens.len()
        invariant
            s <= context_lens@.len(),
            forall|s2: int|
                0 <= s2 < s
                    ==> (#[trigger] context_lens@[s2]) <= max_context_len
                        && context_lens@[s2] <= blocks_per_seq * layout.block_size,
        decreases context_lens@.len() - s,
    {
        let c = context_lens[s];
        if c > max_context_len {
            return false;
        }
        match cap {
            Some(v) => {
                if c > v {
                    return false;
                }
            },
            None => {
                proof {
                    assert(c <= blocks_per_seq * layout.block_size) by (nonlinear_arith)
                        requires
                            blocks_per_seq * layout.block_size > usize::MAX,
                            c <= usize::MAX,
                    ;
                }
            },
        }
        s = s + 1;
    }
    true
}

/// A block table with distinct entries maps distinct history positions to
/// distinct slots, so its slot mapping is valid and free of repeats.
pub proof fn lemma_paged_slots_distinct(layout: CacheLayout, bt: Seq<usize>, slots: Seq<usize>)
    requires
        layout.wf(),
        valid_block_table(layout, bt),
        distinct_block_table(bt),
        slots.len() as int <= bt.len() * layout.block_size,
        forall|p: int|
            0 <= p < slots.len()
                ==> (#[trigger] slots[p]) as int
                    == paged_slot(bt, layout.block_size as int, p),
    ensures
        distinct_slots(slots),
{
    let bs = layout.block_size as int;
    assert forall|p1: int, p2: int| 0 <= p1 < p2 < slots.len()
        implies #[trigger] slots[p1] != #[trigger] slots[p2] by {
        lemma_mix_decode(p1, bt.len() as int, bs);
        lemma_mix_decode(p2, bt.len() as int, bs);
        let c1 = p1 / bs;
        let c2 = p2 / bs;
        if slots[p1] == slots[p2] {
            lemma_mix_inject(bt[c1] as int, p1 % bs, bt[c2] as int, p2 % bs, bs);
            assert(bt[c1] == bt[c2]);
            assert(c1 == c2);
        }
    }
}

/// Cross-path consistency of the cache: the key/value vectors that the
/// block-indirected path reads for a sequence's history are exactly the
/// vectors the dense path wrote for those positions. Scattering a
/// sequence's keys and values to the slots its block table names and then
/// gathering through the same table returns the dense buffers unchanged,
/// so the two attention paths consume identical key/value content.
pub proof fn lemma_paged_matches_dense<T>(
    layout: CacheLayout,
    bt: Seq<usize>,
    slots: Seq<usize>,
    key: Seq<T>,
    value: Seq<T>,
    kc0: Seq<T>,
    kc1: Seq<T>,
    vc0: Seq<T>,
    vc1: Seq<T>,
    key_out: Seq<T>,
    value_out: Seq<T>,
)
    requires
        layout.wf(),
        valid_block_table(layout, bt),
        distinct_block_table(bt),
        slots.len() as int <= bt.len() * layout.block_size,
        forall|p: int|
            0 <= p < slots.len()
                ==> (#[trigger] slots[p]) as int
                    == paged_slot(bt, layout.block_size as int, p),
        valid_slot_mapping(layout, slots),
        key.len() == token_buf_len(layout, slots.len() as int),
        value.len() == token_buf_len(layout, slots.len() as int),
        kc0.len() == layout.cache_len(),
        vc0.len() == layout.cache_len(),
        scattered(layout, slots, key, kc0, kc1, true),
        scattered(layout, slots, value, vc0, vc1, false),
        gathered(layout, slots, kc1, key_out, true),
        gathered(layout, slots, vc1, value_out, false),
    ensures
        key_out == key,
        value_out == value,
{
    lemma_paged_slots_distinct(layout, bt, slots);
    lemma_scatter_gather_roundtrip(
        layout, slots, key, value, kc0, kc1, vc0, vc1, key_out, value_out,
    );
}

} // verus!
