//! The paged key/value cache store and its mutation primitives.
//!
//! `reshape_and_cache` scatters `num_tokens` new key/value vectors into the
//! two cache tensors at the slots named by a slot mapping;
//! `gather_cached_kv` reads them back into dense buffers; `copy_blocks`
//! copies whole blocks between block ids across all layers at once. All
//! three are stated over flat element sequences and the layout's index
//! functions, and leave every element they do not name untouched.

use vstd::prelude::*;
use crate::layout::{
    CacheLayout, slot_id, spec_slot_block, spec_slot_offset, slot_block, slot_offset,
    lemma_slot_decode,
};
use crate::radix::{mix, lemma_mix_bound};

verus! {

/// Some entry among the first `n` of the slot mapping names `slot`.
pub open spec fn slot_in(slots: Seq<usize>, n: int, slot: int) -> bool {
    exists|t: int| 0 <= t < n && slots[t] == slot
}

/// Every entry of the slot mapping addresses a slot that exists in the
/// layout.
pub open spec fn valid_slot_mapping(layout: CacheLayout, slots: Seq<usize>) -> bool {
    forall|t: int| 0 <= t < slots.len() ==> (#[trigger] slots[t]) < layout.num_slots()
}

/// No two entries of the slot mapping name the same slot.
pub open spec fn distinct_slots(slots: Seq<usize>) -> bool {
    forall|t1: int, t2: int|
        0 <= t1 < t2 < slots.len() ==> #[trigger] slots[t1] != #[trigger] slots[t2]
}

/// Flat index of `(token, head, dim)` in a dense token buffer laid out
/// `[num_tokens, num_heads, head_size]`.
pub open spec fn token_index(layout: CacheLayout, t: int, hd: int, h: int) -> int {
    mix(mix(t, hd, layout.num_heads as int), h, layout.head_size as int)
}

/// Length of a dense token buffer of `n` tokens.
pub open spec fn token_buf_len(layout: CacheLayout, n: int) -> int {
    n * layout.num_heads * layout.head_size
}

/// The block id of the slot an entry names.
pub open spec fn slot_block_of(layout: CacheLayout, slots: Seq<usize>, t: int) -> int {
    spec_slot_block(slots[t] as int, layout.block_size as int)
}

/// The in-block offset of the slot an entry names.
pub open spec fn slot_offset_of(layout: CacheLayout, slots: Seq<usize>, t: int) -> int {
    spec_slot_offset(slots[t] as int, layout.block_size as int)
}

/// `c1` is `c0` with the key vectors of `key` scattered to the slots of
/// the mapping: every written element holds the token's vector, and every
/// element of a slot the mapping does not name is unchanged.
pub open spec fn scattered<T>(
    layout: CacheLayout,
    slots: Seq<usize>,
    key: Seq<T>,
    c0: Seq<T>,
    c1: Seq<T>,
    key_cache: bool,
) -> bool {
    &&& c1.len() == c0.len()
    &&& forall|t: int, hd: int, h: int|
        0 <= t < slots.len() && 0 <= hd < layout.num_heads && 0 <= h < layout.head_size
            ==> c1[cache_index(layout, slot_block_of(layout, slots, t), hd, h,
                    slot_offset_of(layout, slots, t), key_cache)]
                == key[#[trigger] token_index(layout, t, hd, h)]
    &&& forall|b: int, hd: int, h: int, o: int|
        layout.valid_coord(b, hd, h, o)
            && !slot_in(slots, slots.len() as int, slot_id(b, o, layout.block_size as int))
            ==> c1[#[trigger] cache_index(layout, b, hd, h, o, key_cache)]
                == c0[cache_index(layout, b, hd, h, o, key_cache)]
}

/// Key-cache or value-cache flat index, selected by `key_cache`.
pub open spec fn cache_index(
    layout: CacheLayout,
    b: int,
    hd: int,
    h: int,
    o: int,
    key_cache: bool,
) -> int {
    if key_cache {
        layout.key_index(b, hd, h, o)
    } else {
        layout.value_index(b, hd, h, o)
    }
}

/// `out` holds, for every token of the mapping, the vector read from the
/// token's slot of the cache tensor.
pub open spec fn gathered<T>(
    layout: CacheLayout,
    slots: Seq<usize>,
    cache: Seq<T>,
    out: Seq<T>,
    key_cache: bool,
) -> bool {
    &&& out.len() == token_buf_len(layout, slots.len() as int)
    &&& forall|t: int, hd: int, h: int|
        0 <= t < slots.len() && 0 <= hd < layout.num_heads && 0 <= h < layout.head_size
            ==> out[#[trigger] token_index(layout, t, hd, h)]
                == cache[cache_index(layout, slot_block_of(layout, slots, t), hd, h,
                        slot_offset_of(layout, slots, t), key_cache)]
}

/// Normalizes a slot mapping given in the wide signed integer type of the
/// caller's buffers to the flat unsigned slot indices the cache
/// primitives take — the single width-conversion point of this module.
/// Returns the converted mapping exactly when every entry addresses a
/// slot that exists in the layout, and rejects the mapping otherwise.
#[verifier::loop_isolation(false)]
pub fn normalize_slot_mapping(raw: &Vec<i64>, layout: &CacheLayout) -> (r: Option<Vec<usize>>)
    requires
        layout.wf(),
    ensures
        r is Some <==> (forall|t: int|
            0 <= t < raw@.len() ==> 0 <= #[trigger] raw@[t] < layout.num_slots()),
        r is Some ==> {
            let slots = r->Some_0;
            &&& slots@.len() == raw@.len()
            &&& forall|t: int| 0 <= t < raw@.len() ==> #[trigger] slots@[t] == raw@[t]
            &&& valid_slot_mapping(*layout, slots@)
        },
{
    proof {
        layout.lemma_extents();
    }
    let num_slots = layout.num_slots_exec();
    let mut slots: Vec<usize> = Vec::new();
    let mut t: usize = 0;
    while t < raw.len()
        invariant
            t <= raw@.len(),
            slots@.len() == t,
            forall|t2: int| 0 <= t2 < t ==> 0 <= #[trigger] raw@[t2] < layout.num_slots(),
            forall|t2: int| 0 <= t2 < t ==> #[trigger] slots@[t2] == raw@[t2],
        decreases raw@.len() - t,
    {
        let s = raw[t];
        if s < 0 || s as u64 >= num_slots as u64 {
            return None;
        }
        slots.push(s as usize);
        t = t + 1;
    }
    Some(slots)
}

/// A dense token-buffer index stays within the buffer.
pub proof fn lemma_token_index_bound(layout: CacheLayout, n: int, t: int, hd: int, h: int)
    requires
        layout.wf(),
        0 <= t < n,
        0 <= hd < layout.num_heads,
        0 <= h < layout.head_size,
    ensures
        0 <= token_index(layout, t, hd, h) < token_buf_len(layout, n),
{
    let nh = layout.num_heads as int;
    let hs = layout.head_size as int;
    lemma_mix_bound(t, hd, n, nh);
    lemma_mix_bound(mix(t, hd, nh), h, n * nh, hs);
    assert((n * nh) * hs == n * nh * hs) by (nonlinear_arith);
}

/// Distinct `(token, head, dim)` triples never share a dense token-buffer
/// index.
pub proof fn lemma_token_index_inject(
    layout: CacheLayout,
    t1: int, hd1: int, h1: int,
    t2: int, hd2: int, h2: int,
)
    requires
        layout.wf(),
        0 <= t1 && 0 <= t2,
        0 <= hd1 < layout.num_heads,
        0 <= hd2 < layout.num_heads,
        0 <= h1 < layout.head_size,
        0 <= h2 < layout.head_size,
        token_index(layout, t1, hd1, h1) == token_index(layout, t2, hd2, h2),
    ensures
        t1 == t2 && hd1 == hd2 && h1 == h2,
{
    let nh = layout.num_heads as int;
    let hs = layout.head_size as int;
    crate::radix::lemma_mix_inject(mix(t1, hd1, nh), h1, mix(t2, hd2, nh), h2, hs);
    crate::radix::lemma_mix_inject(t1, hd1, t2, hd2, nh);
}

/// Flat index of `(token, head, dim)` in a dense token buffer, computed
/// executably.
pub fn token_index_at(
    layout: &CacheLayout,
    num_tokens: usize,
    t: usize,
    hd: usize,
    h: usize,
) -> (j: usize)
    requires
        layout.wf(),
        t < num_tokens,
        hd < layout.num_heads,
        h < layout.head_size,
        token_buf_len(*layout, num_tokens as int) <= usize::MAX,
    ensures
        j as int == token_index(*layout, t as int, hd as int, h as int),
        (j as int) < token_buf_len(*layout, num_tokens as int),
{
    proof {
        let n = num_tokens as int;
        let nh = layout.num_heads as int;
        let hs = layout.head_size as int;
        lemma_mix_bound(t as int, hd as int, n, nh);
        lemma_mix_bound(mix(t as int, hd as int, nh), h as int, n * nh, hs);
        assert(n * nh <= n * nh * hs && (n * nh) * hs == n * nh * hs) by (nonlinear_arith)
            requires
                1 <= hs,
                0 <= n && 0 <= nh,
        ;
    }
    (t * layout.num_heads + hd) * layout.head_size + h
}

/// Writes one token's key vector into the key cache at `(block, offset)`
/// for every head, leaving every other coordinate of the key cache
/// unchanged.
#[verifier::loop_isolation(false)]
fn write_key_token<T: Copy>(
    cache: &mut Vec<T>,
    src: &Vec<T>,
    layout: &CacheLayout,
    b: usize,
    o: usize,
    t: usize,
    num_tokens: usize,
)
    requires
        layout.wf(),
        (b as int) < layout.num_blocks,
        (o as int) < layout.block_size,
        t < num_tokens,
        src@.len() == token_buf_len(*layout, num_tokens as int),
        old(cache)@.len() == layout.cache_len(),
    ensures
        final(cache)@.len() == old(cache)@.len(),
        forall|hd: int, h: int|
            0 <= hd < layout.num_heads && 0 <= h < layout.head_size
                ==> final(cache)@[#[trigger] layout.key_index(b as int, hd, h, o as int)]
                    == src@[token_index(*layout, t as int, hd, h)],
        forall|b2: int, hd2: int, h2: int, o2: int|
            layout.valid_coord(b2, hd2, h2, o2) && (b2 != b || o2 != o)
                ==> final(cache)@[#[trigger] layout.key_index(b2, hd2, h2, o2)]
                    == old(cache)@[layout.key_index(b2, hd2, h2, o2)],
{
    proof {
        vstd::std_specs::vec::axiom_spec_len(src);
    }
    let mut hd: usize = 0;
    while hd < layout.num_heads
        invariant
            hd <= layout.num_heads,
            cache@.len() == old(cache)@.len(),
            forall|hd2: int, h2: int|
                0 <= hd2 < hd && 0 <= h2 < layout.head_size
                    ==> cache@[#[trigger] layout.key_index(b as int, hd2, h2, o as int)]
                        == src@[token_index(*layout, t as int, hd2, h2)],
            forall|b2: int, hd2: int, h2: int, o2: int|
                layout.valid_coord(b2, hd2, h2, o2) && (b2 != b || o2 != o)
                    ==> cache@[#[trigger] layout.key_index(b2, hd2, h2, o2)]
                        == old(cache)@[layout.key_index(b2, hd2, h2, o2)],
        decreases layout.num_heads - hd,
    {
        let mut h: usize = 0;
        while h < layout.head_size
            invariant
                hd < layout.num_heads,
                h <= layout.head_size,
                cache@.len() == old(cache)@.len(),
                forall|hd2: int, h2: int|
                    0 <= hd2 < hd && 0 <= h2 < layout.head_size
                        ==> cache@[#[trigger] layout.key_index(b as int, hd2, h2, o as int)]
                            == src@[token_index(*layout, t as int, hd2, h2)],
                forall|h2: int|
                    0 <= h2 < h
                        ==> cache@[#[trigger] layout.key_index(b as int, hd as int, h2, o as int)]
                            == src@[token_index(*layout, t as int, hd as int, h2)],
                forall|b2: int, hd2: int, h2: int, o2: int|
                    layout.valid_coord(b2, hd2, h2, o2) && (b2 != b || o2 != o)
                        ==> cache@[#[trigger] layout.key_index(b2, hd2, h2, o2)]
                            == old(cache)@[layout.key_index(b2, hd2, h2, o2)],
            decreases layout.head_size - h,
        {
            let i = layout.key_index_at(b, hd, h, o);
            let j = token_index_at(layout, num_tokens, t, hd, h);
            let ghost prev = cache@;
            cache[i] = src[j];
            proof {
                assert forall|b2: int, hd2: int, h2: int, o2: int|
                    layout.valid_coord(b2, hd2, h2, o2)
                        && (b2 != b || hd2 != hd || h2 != h || o2 != o)
                        implies cache@[#[trigger] layout.key_index(b2, hd2, h2, o2)]
                            == prev[layout.key_index(b2, hd2, h2, o2)] by {
                    layout.lemma_key_index_bound(b2, hd2, h2, o2);
                    if layout.key_index(b2, hd2, h2, o2) == i as int {
                        layout.lemma_key_index_inject(
                            b2, hd2, h2, o2,
                            b as int, hd as int, h as int, o as int,
                        );
                    }
                }
            }
            h = h + 1;
        }
        hd = hd + 1;
    }
}

/// Writes one token's value vector into the value cache at
/// `(block, offset)` for every head, leaving every other coordinate of the
/// value cache unchanged.
#[verifier::loop_isolation(false)]
fn write_value_token<T: Copy>(
    cache: &mut Vec<T>,
    src: &Vec<T>,
    layout: &CacheLayout,
    b: usize,
    o: usize,
    t: usize,
    num_tokens: usize,
)
    requires
        layout.wf(),
        (b as int) < layout.num_blocks,
        (o as int) < layout.block_size,
        t < num_tokens,
        src@.len() == token_buf_len(*layout, num_tokens as int),
        old(cache)@.len() == layout.cache_len(),
    ensures
        final(cache)@.len() == old(cache)@.len(),
        forall|hd: int, h: int|
            0 <= hd < layout.num_heads && 0 <= h < layout.head_size
                ==> final(cache)@[#[trigger] layout.value_index(b as int, hd, h, o as int)]
                    == src@[token_index(*layout, t as int, hd, h)],
        forall|b2: int, hd2: int, h2: int, o2: int|
            layout.valid_coord(b2, hd2, h2, o2) && (b2 != b || o2 != o)
                ==> final(cache)@[#[trigger] layout.value_index(b2, hd2, h2, o2)]
                    == old(cache)@[layout.value_index(b2, hd2, h2, o2)],
{
    proof {
        vstd::std_specs::vec::axiom_spec_len(src);
    }
    let mut hd: usize = 0;
    while hd < layout.num_heads
        invariant
            hd <= layout.num_heads,
            cache@.len() == old(cache)@.len(),
            forall|hd2: int, h2: int|
                0 <= hd2 < hd && 0 <= h2 < layout.head_size
                    ==> cache@[#[trigger] layout.value_index(b as int, hd2, h2, o as int)]
                        == src@[token_index(*layout, t as int, hd2, h2)],
            forall|b2: int, hd2: int, h2: int, o2: int|
                layout.valid_coord(b2, hd2, h2, o2) && (b2 != b || o2 != o)
                    ==> cache@[#[trigger] layout.value_index(b2, hd2, h2, o2)]
                        == old(cache)@[layout.value_index(b2, hd2, h2, o2)],
        decreases layout.num_heads - hd,
    {
        let mut h: usize = 0;
        while h < layout.head_size
            invariant
                hd < layout.num_heads,
                h <= layout.head_size,
                cache@.len() == old(cache)@.len(),
                forall|hd2: int, h2: int|
                    0 <= hd2 < hd && 0 <= h2 < layout.head_size
                        ==> cache@[#[trigger] layout.value_index(b as int, hd2, h2, o as int)]
                            == src@[token_index(*layout, t as int, hd2, h2)],
                forall|h2: int|
                    0 <= h2 < h
                        ==> cache@[#[trigger] layout.value_index(b as int, hd as int, h2, o as int)]
                            == src@[token_index(*layout, t as int, hd as int, h2)],
                forall|b2: int, hd2: int, h2: int, o2: int|
                    layout.valid_coord(b2, hd2, h2, o2) && (b2 != b || o2 != o)
                        ==> cache@[#[trigger] layout.value_index(b2, hd2, h2, o2)]
                            == old(cache)@[layout.value_index(b2, hd2, h2, o2)],
            decreases layout.head_size - h,
        {
            let i = layout.value_index_at(b, hd, h, o);
            let j = token_index_at(layout, num_tokens, t, hd, h);
            let ghost prev = cache@;
            cache[i] = src[j];
            proof {
                assert forall|b2: int, hd2: int, h2: int, o2: int|
                    layout.valid_coord(b2, hd2, h2, o2)
                        && (b2 != b || hd2 != hd || h2 != h || o2 != o)
                        implies cache@[#[trigger] layout.value_index(b2, hd2, h2, o2)]
                            == prev[layout.value_index(b2, hd2, h2, o2)] by {
                    layout.lemma_value_index_bound(b2, hd2, h2, o2);
                    if layout.value_index(b2, hd2, h2, o2) == i as int {
                        layout.lemma_value_index_inject(
                            b2, hd2, h2, o2,
                            b as int, hd as int, h as int, o as int,
                        );
                    }
                }
            }
            h = h + 1;
        }
        hd = hd + 1;
    }
}

/// Scatters `num_tokens` new key and value vectors (dense buffers of shape
/// `[num_tokens, num_heads, head_size]`) into the key and value cache
/// tensors at the slots named by the slot mapping. Mutates exactly those
/// slots; every other slot of both caches is unchanged.
#[verifier::loop_isolation(false)]
pub fn reshape_and_cache<T: Copy>(
    key: &Vec<T>,
    value: &Vec<T>,
    key_cache: &mut Vec<T>,
    value_cache: &mut Vec<T>,
    slot_mapping: &Vec<usize>,
    layout: &CacheLayout,
)
    requires
        layout.wf(),
        valid_slot_mapping(*layout, slot_mapping@),
        distinct_slots(slot_mapping@),
        key@.len() == token_buf_len(*layout, slot_mapping@.len() as int),
        value@.len() == token_buf_len(*layout, slot_mapping@.len() as int),
        old(key_cache)@.len() == layout.cache_len(),
        old(value_cache)@.len() == layout.cache_len(),
    ensures
        scattered(*layout, slot_mapping@, key@, old(key_cache)@, final(key_cache)@, true),
        scattered(*layout, slot_mapping@, value@, old(value_cache)@, final(value_cache)@, false),
{
    let ghost slots = slot_mapping@;
    let ghost bs = layout.block_size as int;
    let n = slot_mapping.len();
    let mut t: usize = 0;
    while t < n
        invariant
            t <= n,
            key_cache@.len() == old(key_cache)@.len(),
            value_cache@.len() == old(value_cache)@.len(),
            forall|t2: int, hd: int, h: int|
                0 <= t2 < t && 0 <= hd < layout.num_heads && 0 <= h < layout.head_size
                    ==> key_cache@[cache_index(*layout, slot_block_of(*layout, slots, t2), hd, h,
                            slot_offset_of(*layout, slots, t2), true)]
                        == key@[#[trigger] token_index(*layout, t2, hd, h)],
            forall|t2: int, hd: int, h: int|
                0 <= t2 < t && 0 <= hd < layout.num_heads && 0 <= h < layout.head_size
                    ==> value_cache@[cache_index(*layout, slot_block_of(*layout, slots, t2), hd, h,
                            slot_offset_of(*layout, slots, t2), false)]
                        == value@[#[trigger] token_index(*layout, t2, hd, h)],
            forall|b: int, hd: int, h: int, o: int|
                layout.valid_coord(b, hd, h, o) && !slot_in(slots, t as int, slot_id(b, o, bs))
                    ==> key_cache@[#[trigger] cache_index(*layout, b, hd, h, o, true)]
                        == old(key_cache)@[cache_index(*layout, b, hd, h, o, true)],
            forall|b: int, hd: int, h: int, o: int|
                layout.valid_coord(b, hd, h, o) && !slot_in(slots, t as int, slot_id(b, o, bs))
                    ==> value_cache@[#[trigger] cache_index(*layout, b, hd, h, o, false)]
                        == old(value_cache)@[cache_index(*layout, b, hd, h, o, false)],
        decreases n - t,
    {
        let slot = slot_mapping[t];
        let b = slot_block(slot, layout.block_size);
        let o = slot_offset(slot, layout.block_size);
        proof {
            lemma_slot_decode(*layout, slot as int);
        }
        let ghost kc_before = key_cache@;
        let ghost vc_before = value_cache@;
        write_key_token(key_cache, key, layout, b, o, t, n);
        write_value_token(value_cache, value, layout, b, o, t, n);
        proof {
            assert(slot_id(b as int, o as int, bs) == slots[t as int]);
            assert forall|t2: int, hd: int, h: int|
                0 <= t2 < t + 1 && 0 <= hd < layout.num_heads && 0 <= h < layout.head_size
                    implies key_cache@[cache_index(*layout, slot_block_of(*layout, slots, t2),
                            hd, h, slot_offset_of(*layout, slots, t2), true)]
                        == key@[#[trigger] token_index(*layout, t2, hd, h)]
                    && value_cache@[cache_index(*layout, slot_block_of(*layout, slots, t2),
                            hd, h, slot_offset_of(*layout, slots, t2), false)]
                        == value@[token_index(*layout, t2, hd, h)] by {
                lemma_slot_decode(*layout, slots[t2] as int);
                let b2 = slot_block_of(*layout, slots, t2);
                let o2 = slot_offset_of(*layout, slots, t2);
                if t2 < t {
                    assert(slots[t2] != slots[t as int]);
                    assert(slot_id(b2, o2, bs) == slots[t2] as int);
                    assert(b2 != b || o2 != o);
                }
            }
            assert forall|b2: int, hd: int, h: int, o2: int|
                layout.valid_coord(b2, hd, h, o2)
                    && !slot_in(slots, t + 1, slot_id(b2, o2, bs))
                    implies key_cache@[#[trigger] cache_index(*layout, b2, hd, h, o2, true)]
                        == old(key_cache)@[cache_index(*layout, b2, hd, h, o2, true)]
                    && value_cache@[#[trigger] cache_index(*layout, b2, hd, h, o2, false)]
                        == old(value_cache)@[cache_index(*layout, b2, hd, h, o2, false)] by {
                assert(!slot_in(slots, t as int, slot_id(b2, o2, bs)));
                assert(slots[t as int] != slot_id(b2, o2, bs));
                if b2 == b && o2 == o {
                    assert(slot_id(b2, o2, bs) == slots[t as int]);
                }
                assert(kc_before[cache_index(*layout, b2, hd, h, o2, true)]
                    == old(key_cache)@[cache_index(*layout, b2, hd, h, o2, true)]);
                assert(vc_before[cache_index(*layout, b2, hd, h, o2, false)]
                    == old(value_cache)@[cache_index(*layout, b2, hd, h, o2, false)]);
            }
        }
        t = t + 1;
    }
}

/// Gathers the key and value vectors of the slots named by the slot
/// mapping out of the cache tensors into dense buffers of shape
/// `[num_tokens, num_heads, head_size]` — the inverse of
/// `reshape_and_cache` over the same mapping.
#[verifier::loop_isolation(false)]
pub fn gather_cached_kv<T: Copy>(
    key: &mut Vec<T>,
    value: &mut Vec<T>,
    key_cache: &Vec<T>,
    value_cache: &Vec<T>,
    slot_mapping: &Vec<usize>,
    layout: &CacheLayout,
)
    requires
        layout.wf(),
        valid_slot_mapping(*layout, slot_mapping@),
        old(key)@.len() == token_buf_len(*layout, slot_mapping@.len() as int),
        old(value)@.len() == token_buf_len(*layout, slot_mapping@.len() as int),
        key_cache@.len() == layout.cache_len(),
        value_cache@.len() == layout.cache_len(),
    ensures
        gathered(*layout, slot_mapping@, key_cache@, final(key)@, true),
        gathered(*layout, slot_mapping@, value_cache@, final(value)@, false),
{
    proof {
        vstd::std_specs::vec::axiom_spec_len(key);
    }
    let ghost slots = slot_mapping@;
    let n = slot_mapping.len();
    let mut t: usize = 0;
    while t < n
        invariant
            t <= n,
            token_buf_len(*layout, n as int) <= usize::MAX,
            key@.len() == old(key)@.len(),
            value@.len() == old(value)@.len(),
            forall|t2: int, hd: int, h: int|
                0 <= t2 < t && 0 <= hd < layout.num_heads && 0 <= h < layout.head_size
                    ==> key@[#[trigger] token_index(*layout, t2, hd, h)]
                        == key_cache@[cache_index(*layout, slot_block_of(*layout, slots, t2),
                                hd, h, slot_offset_of(*layout, slots, t2), true)],
            forall|t2: int, hd: int, h: int|
                0 <= t2 < t && 0 <= hd < layout.num_heads && 0 <= h < layout.head_size
                    ==> value@[#[trigger] token_index(*layout, t2, hd, h)]
                        == value_cache@[cache_index(*layout, slot_block_of(*layout, slots, t2),
                                hd, h, slot_offset_of(*layout, slots, t2), false)],
        decreases n - t,
    {
        let slot = slot_mapping[t];
        let b = slot_block(slot, layout.block_size);
        let o = slot_offset(slot, layout.block_size);
        proof {
            lemma_slot_decode(*layout, slot as int);
        }
        let mut hd: usize = 0;
        while hd < layout.num_heads
            invariant
                hd <= layout.num_heads,
                key@.len() == old(key)@.len(),
                value@.len() == old(value)@.len(),
                forall|t2: int, hd2: int, h2: int|
                    0 <= t2 < t && 0 <= hd2 < layout.num_heads && 0 <= h2 < layout.head_size
                        ==> key@[#[trigger] token_index(*layout, t2, hd2, h2)]
                            == key_cache@[cache_index(*layout, slot_block_of(*layout, slots, t2),
                                    hd2, h2, slot_offset_of(*layout, slots, t2), true)],
                forall|t2: int, hd2: int, h2: int|
                    0 <= t2 < t && 0 <= hd2 < layout.num_heads && 0 <= h2 < layout.head_size
                        ==> value@[#[trigger] token_index(*layout, t2, hd2, h2)]
                            == value_cache@[cache_index(*layout, slot_block_of(*layout, slots, t2),
                                    hd2, h2, slot_offset_of(*layout, slots, t2), false)],
                forall|hd2: int, h2: int|
                    0 <= hd2 < hd && 0 <= h2 < layout.head_size
                        ==> key@[#[trigger] token_index(*layout, t as int, hd2, h2)]
                            == key_cache@[layout.key_index(b as int, hd2, h2, o as int)],
                forall|hd2: int, h2: int|
                    0 <= hd2 < hd && 0 <= h2 < layout.head_size
                        ==> value@[#[trigger] token_index(*layout, t as int, hd2, h2)]
                            == value_cache@[layout.value_index(b as int, hd2, h2, o as int)],
            decreases layout.num_heads - hd,
        {
            let mut h: usize = 0;
            while h < layout.head_size
                invariant
                    hd < layout.num_heads,
                    h <= layout.head_size,
                    key@.len() == old(key)@.len(),
                    value@.len() == old(value)@.len(),
                    forall|t2: int, hd2: int, h2: int|
                        0 <= t2 < t && 0 <= hd2 < layout.num_heads && 0 <= h2 < layout.head_size
                            ==> key@[#[trigger] token_index(*layout, t2, hd2, h2)]
                                == key_cache@[cache_index(*layout,
                                        slot_block_of(*layout, slots, t2),
                                        hd2, h2, slot_offset_of(*layout, slots, t2), true)],
                    forall|t2: int, hd2: int, h2: int|
                        0 <= t2 < t && 0 <= hd2 < layout.num_heads && 0 <= h2 < layout.head_size
                            ==> value@[#[trigger] token_index(*layout, t2, hd2, h2)]
                                == value_cache@[cache_index(*layout,
                                        slot_block_of(*layout, slots, t2),
                                        hd2, h2, slot_offset_of(*layout, slots, t2), false)],
                    forall|hd2: int, h2: int|
                        0 <= hd2 < hd && 0 <= h2 < layout.head_size
                            ==> key@[#[trigger] token_index(*layout, t as int, hd2, h2)]
                                == key_cache@[layout.key_index(b as int, hd2, h2, o as int)],
                    forall|hd2: int, h2: int|
                        0 <= hd2 < hd && 0 <= h2 < layout.head_size
                            ==> value@[#[trigger] token_index(*layout, t as int, hd2, h2)]
                                == value_cache@[layout.value_index(b as int, hd2, h2, o as int)],
                    forall|h2: int|
                        0 <= h2 < h
                            ==> key@[#[trigger] token_index(*layout, t as int, hd as int, h2)]
                                == key_cache@[layout.key_index(b as int, hd as int, h2, o as int)],
                    forall|h2: int|
                        0 <= h2 < h
                            ==> value@[#[trigger] token_index(*layout, t as int, hd as int, h2)]
                                == value_cache@[layout.value_index(b as int, hd as int, h2,
                                        o as int)],
                decreases layout.head_size - h,
            {
                let ki = layout.key_index_at(b, hd, h, o);
                let vi = layout.value_index_at(b, hd, h, o);
                let j = token_index_at(layout, n, t, hd, h);
                let ghost kprev = key@;
                let ghost vprev = value@;
                key[j] = key_cache[ki];
                value[j] = value_cache[vi];
                proof {
                    assert forall|t2: int, hd2: int, h2: int|
                        0 <= t2 < n && 0 <= hd2 < layout.num_heads && 0 <= h2 < layout.head_size
                            && (t2 != t || hd2 != hd || h2 != h)
                            implies key@[#[trigger] token_index(*layout, t2, hd2, h2)]
                                == kprev[token_index(*layout, t2, hd2, h2)]
                            && value@[token_index(*layout, t2, hd2, h2)]
                                == vprev[token_index(*layout, t2, hd2, h2)] by {
                        lemma_token_index_bound(*layout, n as int, t2, hd2, h2);
                        if token_index(*layout, t2, hd2, h2) == j as int {
                            lemma_token_index_inject(
                                *layout, t2, hd2, h2, t as int, hd as int, h as int,
                            );
                        }
                    }
                }
                h = h + 1;
            }
            hd = hd + 1;
        }
        t = t + 1;
    }
}

/// Every index of a dense token buffer is the index of some
/// `(token, head, dim)` triple.
pub proof fn lemma_token_index_decode(layout: CacheLayout, n: int, j: int)
    requires
        layout.wf(),
        0 < n,
        0 <= j < token_buf_len(layout, n),
    ensures
        exists|t: int, hd: int, h: int|
            0 <= t < n && 0 <= hd < layout.num_heads && 0 <= h < layout.head_size
                && j == #[trigger] token_index(layout, t, hd, h),
{
    let nh = layout.num_heads as int;
    let hs = layout.head_size as int;
    assert((n * nh) * hs == token_buf_len(layout, n) && 0 < n * nh) by (nonlinear_arith)
        requires
            0 < n && 0 < nh,
            token_buf_len(layout, n) == n * nh * hs,
    ;
    crate::radix::lemma_mix_decode(j, n * nh, hs);
    let rest = j / hs;
    crate::radix::lemma_mix_decode(rest, n, nh);
    let t = rest / nh;
    let hd = rest % nh;
    let h = j % hs;
    assert(j == token_index(layout, t, hd, h));
}

/// Round-trip identity of the cache store: scattering key and value
/// vectors to the slots of a mapping with no repeated slot and gathering
/// through the same mapping returns exactly the vectors written, for every
/// element kind and head configuration.
pub proof fn lemma_scatter_gather_roundtrip<T>(
    layout: CacheLayout,
    slots: Seq<usize>,
    key: Seq<T>,
    value: Seq<T>,
    kc0: Seq<T>,
    kc1: Seq<T>,
    vc0: Seq<T>,
    vc1: Seq<T>,
    key_out: Seq<T>,
    value_out: Seq<T>,
)
    requires
        layout.wf(),
        valid_slot_mapping(layout, slots),
        distinct_slots(slots),
        key.len() == token_buf_len(layout, slots.len() as int),
        value.len() == token_buf_len(layout, slots.len() as int),
        kc0.len() == layout.cache_len(),
        vc0.len() == layout.cache_len(),
        scattered(layout, slots, key, kc0, kc1, true),
        scattered(layout, slots, value, vc0, vc1, false),
        gathered(layout, slots, kc1, key_out, true),
        gathered(layout, slots, vc1, value_out, false),
    ensures
        key_out == key,
        value_out == value,
{
    let n = slots.len() as int;
    assert forall|j: int| 0 <= j < key.len()
        implies key_out[j] == key[j] && value_out[j] == value[j] by {
        assert(0 < n) by (nonlinear_arith)
            requires
                0 <= n,
                0 <= j < n * (layout.num_heads as int) * (layout.head_size as int),
        ;
        lemma_token_index_decode(layout, n, j);
        let (t, hd, h) = choose|t: int, hd: int, h: int|
            0 <= t < n && 0 <= hd < layout.num_heads && 0 <= h < layout.head_size
                && j == #[trigger] token_index(layout, t, hd, h);
    }
    assert(key_out =~= key);
    assert(value_out =~= value);
}

/// Contents of one cache block: the contiguous range of the flat tensor
/// that block `b` occupies (both layouts keep the block outermost).
pub open spec fn block_seq<T>(layout: CacheLayout, data: Seq<T>, b: int) -> Seq<T> {
    data.subrange(b * layout.elems_per_block(), b * layout.elems_per_block() + layout.elems_per_block())
}

/// A block mapping sends each source block to one or more destination
/// blocks. It is valid when every named block exists, no destination is
/// also a source, and no two entries name the same destination (fan-out is
/// allowed, fan-in is not).
pub open spec fn valid_block_mapping(layout: CacheLayout, m: Seq<(usize, Vec<usize>)>) -> bool {
    &&& forall|i: int| 0 <= i < m.len() ==> ((#[trigger] m[i]).0 as int) < layout.num_blocks
    &&& forall|i: int, j: int|
        0 <= i < m.len() && 0 <= j < m[i].1@.len()
            ==> ((#[trigger] m[i].1@[j]) as int) < layout.num_blocks
    &&& forall|i1: int, j1: int, i2: int|
        0 <= i1 < m.len() && 0 <= j1 < m[i1].1@.len() && 0 <= i2 < m.len()
            ==> #[trigger] m[i1].1@[j1] != (#[trigger] m[i2]).0
    &&& forall|i1: int, j1: int, i2: int, j2: int|
        0 <= i1 < m.len() && 0 <= j1 < m[i1].1@.len() && 0 <= i2 < m.len()
            && 0 <= j2 < m[i2].1@.len() && (i1 != i2 || j1 != j2)
            ==> #[trigger] m[i1].1@[j1] != #[trigger] m[i2].1@[j2]
}

/// Some entry of the block mapping names `b` as a destination.
pub open spec fn is_dst(m: Seq<(usize, Vec<usize>)>, b: int) -> bool {
    exists|i: int, j: int|
        0 <= i < m.len() && 0 <= j < m[i].1@.len() && #[trigger] m[i].1@[j] == b
}

/// Some pair among the first `k` names `b` as its destination.
pub open spec fn dst_in_pairs(pairs: Seq<(usize, usize)>, k: int, b: int) -> bool {
    exists|k2: int| 0 <= k2 < k && (#[trigger] pairs[k2]).1 == b
}

/// An index inside block `dst`'s range belongs to no other block's range.
proof fn lemma_block_range_disjoint(epb: int, b: int, dst: int, k: int)
    requires
        0 < epb,
        0 <= k < epb,
        0 <= b,
        0 <= dst,
        b != dst,
    ensures
        !(dst * epb <= b * epb + k < dst * epb + epb),
{
    crate::radix::lemma_mix_div_mod(b, k, epb);
    if dst * epb <= b * epb + k < dst * epb + epb {
        let i = b * epb + k;
        crate::radix::lemma_mix_div_mod(dst, i - dst * epb, epb);
    }
}

/// Copies the full contents of block `src` onto block `dst` within one
/// flat cache tensor, leaving every other block unchanged.
#[verifier::loop_isolation(false)]
fn copy_block_one<T: Copy>(data: &mut Vec<T>, layout: &CacheLayout, src: usize, dst: usize)
    requires
        layout.wf(),
        (src as int) < layout.num_blocks,
        (dst as int) < layout.num_blocks,
        src != dst,
        old(data)@.len() == layout.cache_len(),
    ensures
        final(data)@.len() == old(data)@.len(),
        block_seq(*layout, final(data)@, dst as int) == block_seq(*layout, old(data)@, src as int),
        forall|i: int|
            0 <= i < old(data)@.len()
                && !(dst * layout.elems_per_block() <= i
                    < dst * layout.elems_per_block() + layout.elems_per_block())
                ==> final(data)@[i] == old(data)@[i],
{
    proof {
        layout.lemma_extents();
    }
    let epb = layout.elems_per_block_exec();
    proof {
        lemma_mix_bound(src as int, 0, layout.num_blocks as int, epb as int);
        lemma_mix_bound(dst as int, 0, layout.num_blocks as int, epb as int);
    }
    let src_base = src * epb;
    let dst_base = dst * epb;
    let mut k: usize = 0;
    while k < epb
        invariant
            k <= epb,
            data@.len() == old(data)@.len(),
            forall|k2: int|
                0 <= k2 < k
                    ==> data@[#[trigger] (dst_base + k2)] == old(data)@[src_base + k2],
            forall|i: int|
                0 <= i < old(data)@.len() && !(dst_base <= i < dst_base + epb)
                    ==> data@[i] == old(data)@[i],
        decreases epb - k,
    {
        proof {
            lemma_mix_bound(src as int, k as int, layout.num_blocks as int, epb as int);
            lemma_mix_bound(dst as int, k as int, layout.num_blocks as int, epb as int);
            lemma_block_range_disjoint(epb as int, src as int, dst as int, k as int);
        }
        let v = data[src_base + k];
        data[dst_base + k] = v;
        k = k + 1;
    }
    proof {
        let epbi = layout.elems_per_block();
        lemma_mix_bound(src as int, epb - 1, layout.num_blocks as int, epbi);
        lemma_mix_bound(dst as int, epb - 1, layout.num_blocks as int, epbi);
        assert forall|k2: int| 0 <= k2 < epbi
            implies block_seq(*layout, data@, dst as int)[k2]
                == block_seq(*layout, old(data)@, src as int)[k2] by {
            assert(data@[dst_base + k2] == old(data)@[src_base + k2]);
        }
        assert(block_seq(*layout, data@, dst as int)
            =~= block_seq(*layout, old(data)@, src as int));
    }
}

/// The pair list holds an entry copying `src` onto `dst`.
pub open spec fn pair_present(pairs: Seq<(usize, usize)>, src: usize, dst: usize) -> bool {
    exists|k: int| 0 <= k < pairs.len() && #[trigger] pairs[k] == (src, dst)
}

/// The pair is one of the block mapping's edges: its source is an entry's
/// source and its destination one of that entry's destinations.
pub open spec fn pair_of_mapping(m: Seq<(usize, Vec<usize>)>, p: (usize, usize)) -> bool {
    exists|i: int, j: int|
        0 <= i < m.len() && 0 <= j < m[i].1@.len() && p == (m[i].0, #[trigger] m[i].1@[j])
}

/// A pair stays present when the list grows.
proof fn lemma_pair_present_push(
    pairs: Seq<(usize, usize)>,
    p: (usize, usize),
    src: usize,
    dst: usize,
)
    requires
        pair_present(pairs, src, dst),
    ensures
        pair_present(pairs.push(p), src, dst),
{
    let k = choose|k: int| 0 <= k < pairs.len() && #[trigger] pairs[k] == (src, dst);
    assert(pairs.push(p)[k] == (src, dst));
}

/// Flattens a block mapping into a list of `(source, destination)` pairs,
/// one pair per destination, covering exactly the mapping's edges.
#[verifier::loop_isolation(false)]
pub fn flatten_block_mapping(m: &Vec<(usize, Vec<usize>)>) -> (pairs: Vec<(usize, usize)>)
    ensures
        forall|i: int, j: int|
            0 <= i < m@.len() && 0 <= j < m@[i].1@.len()
                ==> pair_present(pairs@, m@[i].0, #[trigger] m@[i].1@[j]),
        forall|k: int|
            0 <= k < pairs@.len() ==> pair_of_mapping(m@, #[trigger] pairs@[k]),
{
    let mut pairs: Vec<(usize, usize)> = Vec::new();
    let mut i: usize = 0;
    while i < m.len()
        invariant
            i <= m@.len(),
            forall|i2: int, j2: int|
                0 <= i2 < i && 0 <= j2 < m@[i2].1@.len()
                    ==> pair_present(pairs@, m@[i2].0, #[trigger] m@[i2].1@[j2]),
            forall|k: int|
                0 <= k < pairs@.len() ==> pair_of_mapping(m@, #[trigger] pairs@[k]),
        decreases m@.len() - i,
    {
        let src = m[i].0;
        let ndst = m[i].1.len();
        let mut j: usize = 0;
        while j < ndst
            invariant
                i < m@.len(),
                j <= ndst,
                ndst == m@[i as int].1@.len(),
                src == m@[i as int].0,
                forall|i2: int, j2: int|
                    0 <= i2 < i && 0 <= j2 < m@[i2].1@.len()
                        ==> pair_present(pairs@, m@[i2].0, #[trigger] m@[i2].1@[j2]),
                forall|j2: int|
                    0 <= j2 < j
                        ==> pair_present(pairs@, m@[i as int].0,
                            #[trigger] m@[i as int].1@[j2]),
                forall|k: int|
                    0 <= k < pairs@.len() ==> pair_of_mapping(m@, #[trigger] pairs@[k]),
            decreases ndst - j,
        {
            let dst = m[i].1[j];
            let ghost prev = pairs@;
            pairs.push((src, dst));
            proof {
                assert forall|i2: int, j2: int|
                    0 <= i2 < i && 0 <= j2 < m@[i2].1@.len()
                    implies pair_present(pairs@, m@[i2].0, #[trigger] m@[i2].1@[j2]) by {
                    lemma_pair_present_push(prev, (src, dst), m@[i2].0, m@[i2].1@[j2]);
                }
                assert forall|j2: int| 0 <= j2 < j + 1
                    implies pair_present(pairs@, m@[i as int].0,
                        #[trigger] m@[i as int].1@[j2]) by {
                    if j2 == j {
                        assert(pairs@[pairs@.len() - 1] == (src, dst));
                    } else {
                        lemma_pair_present_push(prev, (src, dst), m@[i as int].0,
                            m@[i as int].1@[j2]);
                    }
                }
                assert forall|k: int| 0 <= k < pairs@.len()
                    implies pair_of_mapping(m@, #[trigger] pairs@[k]) by {
                    if k < prev.len() {
                        assert(pairs@[k] == prev[k]);
                    } else {
                        assert(pairs@[k] == (m@[i as int].0, m@[i as int].1@[j as int]));
                    }
                }
            }
            j = j + 1;
        }
        i = i + 1;
    }
    pairs
}

/// A change confined to one block's range leaves every other block's
/// contents equal.
proof fn lemma_blocks_unchanged<T>(layout: CacheLayout, d0: Seq<T>, d1: Seq<T>, dst: int)
    requires
        layout.wf(),
        0 <= dst,
        d0.len() == layout.cache_len(),
        d1.len() == d0.len(),
        forall|i: int|
            0 <= i < d0.len()
                && !(dst * layout.elems_per_block() <= i
                    < dst * layout.elems_per_block() + layout.elems_per_block())
                ==> d1[i] == d0[i],
    ensures
        forall|b: int|
            0 <= b < layout.num_blocks && b != dst
                ==> block_seq(layout, d1, b) == block_seq(layout, d0, b),
{
    let epb = layout.elems_per_block();
    layout.lemma_extents();
    assert forall|b: int| 0 <= b < layout.num_blocks && b != dst
        implies block_seq(layout, d1, b) == block_seq(layout, d0, b) by {
        lemma_mix_bound(b, 0, layout.num_blocks as int, epb);
        lemma_mix_bound(b, epb - 1, layout.num_blocks as int, epb);
        assert forall|k: int| 0 <= k < epb
            implies d1[#[trigger] (b * epb + k)] == d0[b * epb + k] by {
            lemma_mix_bound(b, k, layout.num_blocks as int, epb);
            lemma_block_range_disjoint(epb, b, dst, k);
        }
        assert forall|k: int| 0 <= k < epb
            implies block_seq(layout, d1, b)[k] == block_seq(layout, d0, b)[k] by {
            assert(d1[b * epb + k] == d0[b * epb + k]);
        }
        assert(block_seq(layout, d1, b) =~= block_seq(layout, d0, b));
    }
}

/// Applies a flat list of `(source, destination)` block-copy pairs to one
/// cache tensor: afterwards every destination block holds its source's
/// original contents, and every block no pair names as a destination is
/// unchanged.
#[verifier::loop_isolation(false)]
fn copy_layer<T: Copy>(data: &mut Vec<T>, layout: &CacheLayout, pairs: &Vec<(usize, usize)>)
    requires
        layout.wf(),
        old(data)@.len() == layout.cache_len(),
        forall|k: int|
            0 <= k < pairs@.len()
                ==> ((#[trigger] pairs@[k]).0 as int) < layout.num_blocks
                    && ((pairs@[k]).1 as int) < layout.num_blocks,
        forall|k1: int, k2: int|
            0 <= k1 < pairs@.len() && 0 <= k2 < pairs@.len()
                ==> (#[trigger] pairs@[k1]).0 != (#[trigger] pairs@[k2]).1,
        forall|k1: int, k2: int|
            0 <= k1 < pairs@.len() && 0 <= k2 < pairs@.len()
                && (#[trigger] pairs@[k1]).1 == (#[trigger] pairs@[k2]).1
                ==> pairs@[k1].0 == pairs@[k2].0,
    ensures
        final(data)@.len() == old(data)@.len(),
        forall|k: int|
            0 <= k < pairs@.len()
                ==> block_seq(*layout, final(data)@, (#[trigger] pairs@[k]).1 as int)
                    == block_seq(*layout, old(data)@, pairs@[k].0 as int),
        forall|b: int|
            0 <= b < layout.num_blocks && !dst_in_pairs(pairs@, pairs@.len() as int, b)
                ==> block_seq(*layout, final(data)@, b) == block_seq(*layout, old(data)@, b),
{
    let n = pairs.len();
    let mut k: usize = 0;
    while k < n
        invariant
            k <= n,
            data@.len() == old(data)@.len(),
            forall|k2: int|
                0 <= k2 < k
                    ==> block_seq(*layout, data@, (#[trigger] pairs@[k2]).1 as int)
                        == block_seq(*layout, old(data)@, pairs@[k2].0 as int),
            forall|b: int|
                0 <= b < layout.num_blocks && !dst_in_pairs(pairs@, k as int, b)
                    ==> block_seq(*layout, data@, b) == block_seq(*layout, old(data)@, b),
        decreases n - k,
    {
        let src = pairs[k].0;
        let dst = pairs[k].1;
        let ghost prev = data@;
        copy_block_one(data, layout, src, dst);
        proof {
            lemma_blocks_unchanged(*layout, prev, data@, dst as int);
            assert(!dst_in_pairs(pairs@, k as int, src as int));
            assert(block_seq(*layout, prev, src as int)
                == block_seq(*layout, old(data)@, src as int));
            assert forall|k2: int| 0 <= k2 < k + 1
                implies block_seq(*layout, data@, (#[trigger] pairs@[k2]).1 as int)
                    == block_seq(*layout, old(data)@, pairs@[k2].0 as int) by {
                if k2 < k {
                    if pairs@[k2].1 == dst {
                        assert(pairs@[k2].0 == src);
                    } else {
                        assert(block_seq(*layout, data@, pairs@[k2].1 as int)
                            == block_seq(*layout, prev, pairs@[k2].1 as int));
                    }
                }
            }
            assert forall|b: int|
                0 <= b < layout.num_blocks && !dst_in_pairs(pairs@, k + 1, b)
                    implies block_seq(*layout, data@, b)
                        == block_seq(*layout, old(data)@, b) by {
                assert(!dst_in_pairs(pairs@, k as int, b));
                assert(pairs@[k as int].1 != b);
            }
        }
        k = k + 1;
    }
}

/// Copies, for every layer's key and value cache tensors at once, each
/// source block's contents onto every destination block the mapping lists
/// for it — the copy-on-write fork of cached history. Blocks the mapping
/// does not name as destinations are unchanged, in every layer, in both
/// caches.
#[verifier::loop_isolation(false)]
#[verifier::rlimit(50)]
pub fn copy_blocks<T: Copy>(
    key_caches: &mut Vec<Vec<T>>,
    value_caches: &mut Vec<Vec<T>>,
    block_mapping: &Vec<(usize, Vec<usize>)>,
    layout: &CacheLayout,
)
    requires
        layout.wf(),
        old(key_caches)@.len() == old(value_caches)@.len(),
        forall|l: int|
            0 <= l < old(key_caches)@.len()
                ==> (#[trigger] old(key_caches)@[l])@.len() == layout.cache_len(),
        forall|l: int|
            0 <= l < old(value_caches)@.len()
                ==> (#[trigger] old(value_caches)@[l])@.len() == layout.cache_len(),
        valid_block_mapping(*layout, block_mapping@),
    ensures
        final(key_caches)@.len() == old(key_caches)@.len(),
        final(value_caches)@.len() == old(value_caches)@.len(),
        forall|l: int|
            #![trigger final(key_caches)@[l]]
            #![trigger final(value_caches)@[l]]
            0 <= l < old(key_caches)@.len()
                ==> final(key_caches)@[l]@.len() == layout.cache_len()
                    && final(value_caches)@[l]@.len() == layout.cache_len(),
        forall|l: int, i: int, j: int|
            #![trigger block_seq(*layout, final(key_caches)@[l]@, block_mapping@[i].1@[j] as int)]
            0 <= l < old(key_caches)@.len() && 0 <= i < block_mapping@.len()
                && 0 <= j < block_mapping@[i].1@.len()
                ==> block_seq(*layout, final(key_caches)@[l]@,
                        block_mapping@[i].1@[j] as int)
                    == block_seq(*layout, old(key_caches)@[l]@, block_mapping@[i].0 as int)
                    && block_seq(*layout, final(value_caches)@[l]@,
                        block_mapping@[i].1@[j] as int)
                    == block_seq(*layout, old(value_caches)@[l]@, block_mapping@[i].0 as int),
        forall|l: int, b: int|
            #![trigger final(key_caches)@[l], is_dst(block_mapping@, b)]
            0 <= l < old(key_caches)@.len() && 0 <= b < layout.num_blocks
                && !is_dst(block_mapping@, b)
                ==> block_seq(*layout, final(key_caches)@[l]@, b)
                    == block_seq(*layout, old(key_caches)@[l]@, b)
                    && block_seq(*layout, final(value_caches)@[l]@, b)
                    == block_seq(*layout, old(value_caches)@[l]@, b),
{
    let ghost m = block_mapping@;
    let pairs = flatten_block_mapping(block_mapping);
    proof {
        assert forall|k: int| 0 <= k < pairs@.len()
            implies ((#[trigger] pairs@[k]).0 as int) < layout.num_blocks
                && ((pairs@[k]).1 as int) < layout.num_blocks by {
            assert(pair_of_mapping(m, pairs@[k]));
            let (i, j) = choose|i: int, j: int|
                0 <= i < m.len() && 0 <= j < m[i].1@.len()
                    && pairs@[k] == (m[i].0, #[trigger] m[i].1@[j]);
        }
        assert forall|k1: int, k2: int|
            0 <= k1 < pairs@.len() && 0 <= k2 < pairs@.len()
            implies (#[trigger] pairs@[k1]).0 != (#[trigger] pairs@[k2]).1 by {
            assert(pair_of_mapping(m, pairs@[k1]));
            assert(pair_of_mapping(m, pairs@[k2]));
            let (i1, j1) = choose|i1: int, j1: int|
                0 <= i1 < m.len() && 0 <= j1 < m[i1].1@.len()
                    && pairs@[k1] == (m[i1].0, #[trigger] m[i1].1@[j1]);
            let (i2, j2) = choose|i2: int, j2: int|
                0 <= i2 < m.len() && 0 <= j2 < m[i2].1@.len()
                    && pairs@[k2] == (m[i2].0, #[trigger] m[i2].1@[j2]);
            assert(m[i2].1@[j2] != m[i1].0);
        }
        assert forall|k1: int, k2: int|
            0 <= k1 < pairs@.len() && 0 <= k2 < pairs@.len()
                && (#[trigger] pairs@[k1]).1 == (#[trigger] pairs@[k2]).1
            implies pairs@[k1].0 == pairs@[k2].0 by {
            assert(pair_of_mapping(m, pairs@[k1]));
            assert(pair_of_mapping(m, pairs@[k2]));
            let (i1, j1) = choose|i1: int, j1: int|
                0 <= i1 < m.len() && 0 <= j1 < m[i1].1@.len()
                    && pairs@[k1] == (m[i1].0, #[trigger] m[i1].1@[j1]);
            let (i2, j2) = choose|i2: int, j2: int|
                0 <= i2 < m.len() && 0 <= j2 < m[i2].1@.len()
                    && pairs@[k2] == (m[i2].0, #[trigger] m[i2].1@[j2]);
            if i1 != i2 || j1 != j2 {
                assert(m[i1].1@[j1] != m[i2].1@[j2]);
            }
        }
    }
    let num_layers = key_caches.len();
    let mut l: usize = 0;
    while l < num_layers
        invariant
            l <= num_layers,
            key_caches@.len() == old(key_caches)@.len(),
            value_caches@.len() == old(value_caches)@.len(),
            forall|l2: int|
                #![trigger key_caches@[l2]]
                #![trigger value_caches@[l2]]
                l <= l2 < num_layers
                    ==> key_caches@[l2] == old(key_caches)@[l2]
                        && value_caches@[l2] == old(value_caches)@[l2],
            forall|l2: int|
                #![trigger key_caches@[l2]]
                #![trigger value_caches@[l2]]
                0 <= l2 < l
                    ==> key_caches@[l2]@.len() == layout.cache_len()
                        && value_caches@[l2]@.len() == layout.cache_len(),
            forall|l2: int, k: int|
                #![trigger block_seq(*layout, key_caches@[l2]@, pairs@[k].1 as int)]
                0 <= l2 < l && 0 <= k < pairs@.len()
                    ==> block_seq(*layout, key_caches@[l2]@,
                            pairs@[k].1 as int)
                        == block_seq(*layout, old(key_caches)@[l2]@, pairs@[k].0 as int)
                        && block_seq(*layout, value_caches@[l2]@, pairs@[k].1 as int)
                        == block_seq(*layout, old(value_caches)@[l2]@, pairs@[k].0 as int),
            forall|l2: int, b: int|
                #![trigger key_caches@[l2], dst_in_pairs(pairs@, pairs@.len() as int, b)]
                0 <= l2 < l && 0 <= b < layout.num_blocks
                    && !dst_in_pairs(pairs@, pairs@.len() as int, b)
                    ==> block_seq(*layout, key_caches@[l2]@, b)
                        == block_seq(*layout, old(key_caches)@[l2]@, b)
                        && block_seq(*layout, value_caches@[l2]@, b)
                        == block_seq(*layout, old(value_caches)@[l2]@, b),
        decreases num_layers - l,
    {
        proof {
            assert(key_caches@[l as int] == old(key_caches)@[l as int]);
            assert(value_caches@[l as int] == old(value_caches)@[l as int]);
            assert(old(key_caches)@[l as int]@.len() == layout.cache_len());
            assert(old(value_caches)@[l as int]@.len() == layout.cache_len());
        }
        let ghost kc_before = key_caches@;
        copy_layer(&mut key_caches[l], layout, &pairs);
        let ghost vc_before = value_caches@;
        copy_layer(&mut value_caches[l], layout, &pairs);
        proof {
            assert forall|l2: int|
                #![trigger key_caches@[l2]]
                #![trigger value_caches@[l2]]
                l + 1 <= l2 < num_layers
                implies key_caches@[l2] == old(key_caches)@[l2]
                    && value_caches@[l2] == old(value_caches)@[l2] by {
                assert(key_caches@[l2] == kc_before[l2]);
                assert(value_caches@[l2] == vc_before[l2]);
            }
            assert forall|l2: int, b: int|
                #![trigger key_caches@[l2], dst_in_pairs(pairs@, pairs@.len() as int, b)]
                0 <= l2 < l + 1 && 0 <= b < layout.num_blocks
                    && !dst_in_pairs(pairs@, pairs@.len() as int, b)
                implies block_seq(*layout, key_caches@[l2]@, b)
                    == block_seq(*layout, old(key_caches)@[l2]@, b)
                    && block_seq(*layout, value_caches@[l2]@, b)
                    == block_seq(*layout, old(value_caches)@[l2]@, b) by {
                if l2 == l {
                    assert(kc_before[l2] == old(key_caches)@[l2]);
                    assert(vc_before[l2] == old(value_caches)@[l2]);
                }
            }
        }
        l = l + 1;
    }
    proof {
        assert forall|l2: int, i: int, j: int|
            #![trigger block_seq(*layout, key_caches@[l2]@, m[i].1@[j] as int)]
            0 <= l2 < old(key_caches)@.len() && 0 <= i < m.len() && 0 <= j < m[i].1@.len()
            implies block_seq(*layout, key_caches@[l2]@, m[i].1@[j] as int)
                == block_seq(*layout, old(key_caches)@[l2]@, m[i].0 as int)
                && block_seq(*layout, value_caches@[l2]@, m[i].1@[j] as int)
                == block_seq(*layout, old(value_caches)@[l2]@, m[i].0 as int) by {
            assert(pair_present(pairs@, m[i].0, m[i].1@[j]));
            let k = choose|k: int|
                0 <= k < pairs@.len() && #[trigger] pairs@[k] == (m[i].0, m[i].1@[j]);
            assert(pairs@[k].1 == m[i].1@[j] && pairs@[k].0 == m[i].0);
            assert(block_seq(*layout, key_caches@[l2]@, pairs@[k].1 as int)
                == block_seq(*layout, old(key_caches)@[l2]@, pairs@[k].0 as int));
            assert(block_seq(*layout, value_caches@[l2]@, pairs@[k].1 as int)
                == block_seq(*layout, old(value_caches)@[l2]@, pairs@[k].0 as int));
        }
        assert forall|l2: int, b: int|
            #![trigger key_caches@[l2], is_dst(m, b)]
            0 <= l2 < old(key_caches)@.len() && 0 <= b < layout.num_blocks
                && !is_dst(m, b)
            implies block_seq(*layout, key_caches@[l2]@, b)
                == block_seq(*layout, old(key_caches)@[l2]@, b)
                && block_seq(*layout, value_caches@[l2]@, b)
                == block_seq(*layout, old(value_caches)@[l2]@, b) by {
            if dst_in_pairs(pairs@, pairs@.len() as int, b) {
                let k = choose|k: int| 0 <= k < pairs@.len() && (#[trigger] pairs@[k]).1 == b;
                assert(pair_of_mapping(m, pairs@[k]));
                let (i, j) = choose|i: int, j: int|
                    0 <= i < m.len() && 0 <= j < m[i].1@.len()
                        && pairs@[k] == (m[i].0, #[trigger] m[i].1@[j]);
                assert(m[i].1@[j] == b);
            }
        }
    }
}

} // verus!
