//! Geometry of the block-structured key/value cache.
//!
//! A cache tensor for one layer is an array of `num_blocks` fixed-capacity
//! blocks; each block holds `block_size` token-slots of per-head vectors of
//! `head_size` elements. The key cache splits the head dimension into
//! `head_size / x` outer chunks of inner width `x` (the vectorized access
//! pattern of the kernels); the value cache keeps the head dimension flat.
//! Both layouts keep the block outermost, so a block occupies one
//! contiguous range of the flat buffer.
//!
//! A slot is a flat integer naming `(block, offset)`:
//! `block = slot / block_size`, `offset = slot % block_size`.

use vstd::prelude::*;
use crate::radix::{mix, lemma_mix_bound, lemma_mix_inject, lemma_mix_decode};
use vstd::arithmetic::div_mod::lemma_fundamental_div_mod;

verus! {

/// Shape of one layer's key and value cache tensors.
#[derive(Clone, Copy)]
pub struct CacheLayout {
    /// Number of cache blocks in the tensor.
    pub num_blocks: usize,
    /// Number of attention heads stored per slot.
    pub num_heads: usize,
    /// Elements of one head's key (or value) vector.
    pub head_size: usize,
    /// Token-slots per block.
    pub block_size: usize,
    /// Inner vector width of the key-cache head-dimension split.
    pub x: usize,
}

impl CacheLayout {
    /// A layout is well formed when every extent is positive, the key-cache
    /// split divides the head size evenly, and a whole cache tensor fits in
    /// a flat buffer addressable by `usize`.
    pub open spec fn wf(self) -> bool {
        &&& 0 < self.num_blocks
        &&& 0 < self.num_heads
        &&& 0 < self.head_size
        &&& 0 < self.block_size
        &&& 0 < self.x
        &&& self.head_size % self.x == 0
        &&& self.num_blocks * self.num_heads * self.head_size * self.block_size <= usize::MAX
    }

    /// Outer chunk count of the key-cache head-dimension split.
    pub open spec fn chunk_count(self) -> int {
        self.head_size as int / self.x as int
    }

    /// Elements of one block: all heads, all dimensions, all slots.
    pub open spec fn elems_per_block(self) -> int {
        self.num_heads * self.head_size * self.block_size
    }

    /// Elements of one whole cache tensor.
    pub open spec fn cache_len(self) -> int {
        self.num_blocks * self.elems_per_block()
    }

    /// Number of addressable slots of one cache tensor.
    pub open spec fn num_slots(self) -> int {
        self.num_blocks * self.block_size
    }

    /// The coordinate `(block, head, dim, offset)` addresses one element of
    /// a cache tensor.
    pub open spec fn valid_coord(self, b: int, hd: int, h: int, o: int) -> bool {
        &&& 0 <= b < self.num_blocks
        &&& 0 <= hd < self.num_heads
        &&& 0 <= h < self.head_size
        &&& 0 <= o < self.block_size
    }

    /// Position of `(head, dim, offset)` inside one key-cache block:
    /// row-major over `[num_heads, head_size / x, block_size, x]` with the
    /// dimension split as `dim = chunk * x + rest`.
    pub open spec fn key_local(self, hd: int, h: int, o: int) -> int {
        mix(mix(mix(hd, h / self.x as int, self.chunk_count()), o, self.block_size as int),
            h % self.x as int, self.x as int)
    }

    /// Flat index of `(block, head, dim, offset)` in the key cache, laid
    /// out `[num_blocks, num_heads, head_size / x, block_size, x]`.
    pub open spec fn key_index(self, b: int, hd: int, h: int, o: int) -> int {
        mix(b, self.key_local(hd, h, o), self.elems_per_block())
    }

    /// Position of `(head, dim, offset)` inside one value-cache block:
    /// row-major over `[num_heads, head_size, block_size]`.
    pub open spec fn value_local(self, hd: int, h: int, o: int) -> int {
        mix(mix(hd, h, self.head_size as int), o, self.block_size as int)
    }

    /// Flat index of `(block, head, dim, offset)` in the value cache, laid
    /// out `[num_blocks, num_heads, head_size, block_size]`.
    pub open spec fn value_index(self, b: int, hd: int, h: int, o: int) -> int {
        mix(b, self.value_local(hd, h, o), self.elems_per_block())
    }

    /// The dimension split of the key cache is consistent: the chunk count
    /// times the inner width gives back the head size.
    pub proof fn lemma_split(self)
        requires
            self.wf(),
        ensures
            self.chunk_count() * self.x == self.head_size,
            0 < self.chunk_count(),
    {
        lemma_fundamental_div_mod(self.head_size as int, self.x as int);
        assert(self.chunk_count() * self.x == self.x * self.chunk_count()) by (nonlinear_arith);
        assert(0 < self.chunk_count()) by (nonlinear_arith)
            requires
                self.chunk_count() * self.x == self.head_size,
                0 < self.head_size,
                0 < self.x,
                0 <= self.chunk_count(),
        ;
        assert(0 <= self.chunk_count()) by {
            vstd::arithmetic::div_mod::lemma_div_pos_is_pos(self.head_size as int, self.x as int);
        }
    }

    /// A key-cache block position stays within one block's extent.
    pub proof fn lemma_key_local_bound(self, hd: int, h: int, o: int)
        requires
            self.wf(),
            0 <= hd < self.num_heads,
            0 <= h < self.head_size,
            0 <= o < self.block_size,
        ensures
            0 <= self.key_local(hd, h, o) < self.elems_per_block(),
    {
        self.lemma_split();
        let cc = self.chunk_count();
        let c = h / self.x as int;
        let r = h % self.x as int;
        lemma_fundamental_div_mod(h, self.x as int);
        assert(0 <= c < cc) by (nonlinear_arith)
            requires
                h == self.x * c + r,
                0 <= r < self.x,
                0 <= h < self.head_size,
                cc * self.x == self.head_size,
                0 < self.x,
        ;
        lemma_mix_bound(hd, c, self.num_heads as int, cc);
        lemma_mix_bound(mix(hd, c, cc), o, self.num_heads * cc, self.block_size as int);
        lemma_mix_bound(
            mix(mix(hd, c, cc), o, self.block_size as int),
            r,
            self.num_heads * cc * self.block_size,
            self.x as int,
        );
        assert(self.num_heads * cc * self.block_size * self.x == self.elems_per_block())
            by (nonlinear_arith)
            requires
                cc * self.x == self.head_size,
                self.elems_per_block() == self.num_heads * self.head_size * self.block_size,
        ;
    }

    /// A key-cache flat index stays within the cache tensor.
    pub proof fn lemma_key_index_bound(self, b: int, hd: int, h: int, o: int)
        requires
            self.wf(),
            self.valid_coord(b, hd, h, o),
        ensures
            0 <= self.key_index(b, hd, h, o) < self.cache_len(),
    {
        self.lemma_key_local_bound(hd, h, o);
        lemma_mix_bound(b, self.key_local(hd, h, o), self.num_blocks as int,
            self.elems_per_block());
    }

    /// Distinct coordinates never share a key-cache flat index.
    pub proof fn lemma_key_index_inject(
        self,
        b1: int, hd1: int, h1: int, o1: int,
        b2: int, hd2: int, h2: int, o2: int,
    )
        requires
            self.wf(),
            self.valid_coord(b1, hd1, h1, o1),
            self.valid_coord(b2, hd2, h2, o2),
            self.key_index(b1, hd1, h1, o1) == self.key_index(b2, hd2, h2, o2),
        ensures
            b1 == b2 && hd1 == hd2 && h1 == h2 && o1 == o2,
    {
        self.lemma_split();
        self.lemma_key_local_bound(hd1, h1, o1);
        self.lemma_key_local_bound(hd2, h2, o2);
        lemma_mix_inject(
            b1, self.key_local(hd1, h1, o1),
            b2, self.key_local(hd2, h2, o2),
            self.elems_per_block(),
        );
        let cc = self.chunk_count();
        let xi = self.x as int;
        let c1 = h1 / xi;
        let r1 = h1 % xi;
        let c2 = h2 / xi;
        let r2 = h2 % xi;
        lemma_fundamental_div_mod(h1, xi);
        lemma_fundamental_div_mod(h2, xi);
        lemma_mix_inject(
            mix(mix(hd1, c1, cc), o1, self.block_size as int), r1,
            mix(mix(hd2, c2, cc), o2, self.block_size as int), r2,
            xi,
        );
        lemma_mix_inject(mix(hd1, c1, cc), o1, mix(hd2, c2, cc), o2, self.block_size as int);
        assert(0 <= c1 < cc && 0 <= c2 < cc) by (nonlinear_arith)
            requires
                h1 == xi * c1 + r1,
                h2 == xi * c2 + r2,
                0 <= r1 < xi,
                0 <= r2 < xi,
                0 <= h1 < self.head_size,
                0 <= h2 < self.head_size,
                cc * xi == self.head_size,
                0 < xi,
        ;
        lemma_mix_inject(hd1, c1, hd2, c2, cc);
    }

    /// A value-cache block position stays within one block's extent.
    pub proof fn lemma_value_local_bound(self, hd: int, h: int, o: int)
        requires
            self.wf(),
            0 <= hd < self.num_heads,
            0 <= h < self.head_size,
            0 <= o < self.block_size,
        ensures
            0 <= self.value_local(hd, h, o) < self.elems_per_block(),
    {
        lemma_mix_bound(hd, h, self.num_heads as int, self.head_size as int);
        lemma_mix_bound(mix(hd, h, self.head_size as int), o,
            self.num_heads * self.head_size, self.block_size as int);
    }

    /// A value-cache flat index stays within the cache tensor.
    pub proof fn lemma_value_index_bound(self, b: int, hd: int, h: int, o: int)
        requires
            self.wf(),
            self.valid_coord(b, hd, h, o),
        ensures
            0 <= self.value_index(b, hd, h, o) < self.cache_len(),
    {
        self.lemma_value_local_bound(hd, h, o);
        lemma_mix_bound(b, self.value_local(hd, h, o), self.num_blocks as int,
            self.elems_per_block());
    }

    /// Distinct coordinates never share a value-cache flat index.
    pub proof fn lemma_value_index_inject(
        self,
        b1: int, hd1: int, h1: int, o1: int,
        b2: int, hd2: int, h2: int, o2: int,
    )
        requires
            self.wf(),
            self.valid_coord(b1, hd1, h1, o1),
            self.valid_coord(b2, hd2, h2, o2),
            self.value_index(b1, hd1, h1, o1) == self.value_index(b2, hd2, h2, o2),
        ensures
            b1 == b2 && hd1 == hd2 && h1 == h2 && o1 == o2,
    {
        self.lemma_value_local_bound(hd1, h1, o1);
        self.lemma_value_local_bound(hd2, h2, o2);
        lemma_mix_inject(
            b1, self.value_local(hd1, h1, o1),
            b2, self.value_local(hd2, h2, o2),
            self.elems_per_block(),
        );
        lemma_mix_inject(
            mix(hd1, h1, self.head_size as int), o1,
            mix(hd2, h2, self.head_size as int), o2,
            self.block_size as int,
        );
        lemma_mix_inject(hd1, h1, hd2, h2, self.head_size as int);
    }

    /// Bounds on every intermediate value of the executable key-cache
    /// index computation, so that it can be carried out in `usize`.
    pub proof fn lemma_key_exec_bounds(self, b: int, hd: int, h: int, o: int)
        requires
            self.wf(),
            self.valid_coord(b, hd, h, o),
        ensures
            0 <= mix(hd, h / self.x as int, self.chunk_count())
                < self.num_heads * self.chunk_count(),
            0 <= mix(mix(hd, h / self.x as int, self.chunk_count()), o, self.block_size as int)
                < self.num_heads * self.chunk_count() * self.block_size,
            self.num_heads * self.chunk_count() <= self.elems_per_block(),
            self.num_heads * self.chunk_count() * self.block_size <= self.elems_per_block(),
            self.num_heads * self.head_size <= self.elems_per_block(),
            self.elems_per_block() <= self.cache_len(),
            self.cache_len() <= usize::MAX,
            0 <= self.key_local(hd, h, o) < self.elems_per_block(),
            0 <= self.key_index(b, hd, h, o) < self.cache_len(),
            0 <= self.value_local(hd, h, o) < self.elems_per_block(),
            0 <= self.value_index(b, hd, h, o) < self.cache_len(),
            0 <= h / self.x as int,
            0 <= h % self.x as int,
    {
        self.lemma_split();
        let cc = self.chunk_count();
        let xi = self.x as int;
        let nh = self.num_heads as int;
        let hs = self.head_size as int;
        let bs = self.block_size as int;
        let nb = self.num_blocks as int;
        let c = h / xi;
        let r = h % xi;
        lemma_fundamental_div_mod(h, xi);
        assert(0 <= c < cc) by (nonlinear_arith)
            requires
                h == xi * c + r,
                0 <= r < xi,
                0 <= h < hs,
                cc * xi == hs,
                0 < xi,
        ;
        lemma_mix_bound(hd, c, nh, cc);
        lemma_mix_bound(mix(hd, c, cc), o, nh * cc, bs);
        self.lemma_key_local_bound(hd, h, o);
        self.lemma_key_index_bound(b, hd, h, o);
        self.lemma_value_local_bound(hd, h, o);
        self.lemma_value_index_bound(b, hd, h, o);
        assert(nh * cc <= nh * (cc * xi) * bs
            && nh * cc * bs <= nh * (cc * xi) * bs
            && nh * (cc * xi) * bs == self.elems_per_block()
            && nh * hs <= self.elems_per_block()
            && self.elems_per_block() <= nb * (nh * hs * bs)
            && nb * (nh * hs * bs) == nb * nh * hs * bs) by (nonlinear_arith)
            requires
                cc * xi == hs,
                0 < cc && 0 < xi && 0 < nh && 0 < bs && 0 < nb && 0 < hs,
                self.elems_per_block() == nh * hs * bs,
        ;
    }

    /// Flat key-cache index of `(block, head, dim, offset)`, computed
    /// executably.
    pub fn key_index_at(&self, b: usize, hd: usize, h: usize, o: usize) -> (i: usize)
        requires
            self.wf(),
            self.valid_coord(b as int, hd as int, h as int, o as int),
        ensures
            i as int == self.key_index(b as int, hd as int, h as int, o as int),
            (i as int) < self.cache_len(),
    {
        proof {
            self.lemma_key_exec_bounds(b as int, hd as int, h as int, o as int);
        }
        let cc = self.head_size / self.x;
        let epb = self.num_heads * self.head_size * self.block_size;
        let local = ((hd * cc + h / self.x) * self.block_size + o) * self.x + h % self.x;
        b * epb + local
    }

    /// Flat value-cache index of `(block, head, dim, offset)`, computed
    /// executably.
    pub fn value_index_at(&self, b: usize, hd: usize, h: usize, o: usize) -> (i: usize)
        requires
            self.wf(),
            self.valid_coord(b as int, hd as int, h as int, o as int),
        ensures
            i as int == self.value_index(b as int, hd as int, h as int, o as int),
            (i as int) < self.cache_len(),
    {
        proof {
            self.lemma_key_exec_bounds(b as int, hd as int, h as int, o as int);
            lemma_mix_bound(hd as int, h as int, self.num_heads as int, self.head_size as int);
        }
        let epb = self.num_heads * self.head_size * self.block_size;
        let local = (hd * self.head_size + h) * self.block_size + o;
        b * epb + local
    }

    /// Whether the layout is well formed, decided executably.
    pub fn check_wf(&self) -> (r: bool)
        ensures
            r == self.wf(),
    {
        if self.num_blocks == 0 || self.num_heads == 0 || self.head_size == 0
            || self.block_size == 0 || self.x == 0 {
            return false;
        }
        if self.head_size % self.x != 0 {
            return false;
        }
        proof {
            let nb = self.num_blocks as int;
            let nh = self.num_heads as int;
            let hs = self.head_size as int;
            let bs = self.block_size as int;
            assert((nb * nh) * hs == nb * nh * hs
                && (nb * nh * hs) * bs == nb * nh * hs * bs
                && (nb * nh * hs * bs <= usize::MAX ==> nb * nh <= usize::MAX)
                && (nb * nh * hs * bs <= usize::MAX ==> nb * nh * hs <= usize::MAX))
                by (nonlinear_arith)
                requires
                    1 <= nb && 1 <= nh && 1 <= hs && 1 <= bs,
            ;
        }
        let c1 = self.num_blocks.checked_mul(self.num_heads);
        let c2 = match c1 {
            Some(v) => v.checked_mul(self.head_size),
            None => None,
        };
        let c3 = match c2 {
            Some(v) => v.checked_mul(self.block_size),
            None => None,
        };
        c3.is_some()
    }

    /// One block's extent and the whole tensor's extent are positive, and
    /// the former bounds the latter.
    pub proof fn lemma_extents(self)
        requires
            self.wf(),
        ensures
            0 < self.elems_per_block(),
            self.elems_per_block() <= self.cache_len(),
            self.cache_len() <= usize::MAX,
            (self.num_heads * self.head_size) * self.block_size == self.elems_per_block(),
            self.num_heads * self.head_size <= self.elems_per_block(),
            self.num_blocks * self.elems_per_block() == self.cache_len(),
            self.num_slots() <= self.cache_len(),
            (self.num_blocks * self.block_size) == self.num_slots(),
    {
        let nb = self.num_blocks as int;
        let nh = self.num_heads as int;
        let hs = self.head_size as int;
        let bs = self.block_size as int;
        assert(0 < nh * hs * bs
            && (nh * hs) * bs == nh * hs * bs
            && nh * hs <= nh * hs * bs
            && nh * hs * bs <= nb * (nh * hs * bs)
            && nb * (nh * hs * bs) == nb * nh * hs * bs
            && nb * bs <= nb * nh * hs * bs) by (nonlinear_arith)
            requires
                1 <= nb && 1 <= nh && 1 <= hs && 1 <= bs,
        ;
    }

    /// Extent of one block, computed executably.
    pub fn elems_per_block_exec(&self) -> (n: usize)
        requires
            self.wf(),
        ensures
            n as int == self.elems_per_block(),
    {
        proof {
            self.lemma_extents();
        }
        self.num_heads * self.head_size * self.block_size
    }

    /// Number of addressable slots, computed executably.
    pub fn num_slots_exec(&self) -> (n: usize)
        requires
            self.wf(),
        ensures
            n as int == self.num_slots(),
    {
        proof {
            self.lemma_extents();
        }
        self.num_blocks * self.block_size
    }

    /// Flat length of one cache tensor, computed executably.
    pub fn cache_len_exec(&self) -> (n: usize)
        requires
            self.wf(),
        ensures
            n as int == self.cache_len(),
    {
        proof {
            let nb = self.num_blocks as int;
            let nh = self.num_heads as int;
            let hs = self.head_size as int;
            let bs = self.block_size as int;
            assert(((nb * nh) * hs) * bs == self.cache_len()
                && nb * nh <= self.cache_len()
                && (nb * nh) * hs <= self.cache_len()) by (nonlinear_arith)
                requires
                    1 <= nb && 1 <= nh && 1 <= hs && 1 <= bs,
                    self.cache_len() == nb * (nh * hs * bs),
            ;
        }
        self.num_blocks * self.num_heads * self.head_size * self.block_size
    }
}

/// Block id addressed by a flat slot index.
pub open spec fn spec_slot_block(slot: int, block_size: int) -> int {
    slot / block_size
}

/// Offset within its block of a flat slot index.
pub open spec fn spec_slot_offset(slot: int, block_size: int) -> int {
    slot % block_size
}

/// Flat slot index of `(block, offset)`.
pub open spec fn slot_id(b: int, o: int, block_size: int) -> int {
    mix(b, o, block_size)
}

/// A slot index below `num_slots` decodes into a block id below
/// `num_blocks` and an offset below `block_size`, and they re-encode to it.
pub proof fn lemma_slot_decode(layout: CacheLayout, slot: int)
    requires
        layout.wf(),
        0 <= slot < layout.num_slots(),
    ensures
        0 <= spec_slot_block(slot, layout.block_size as int) < layout.num_blocks,
        0 <= spec_slot_offset(slot, layout.block_size as int) < layout.block_size,
        slot_id(
            spec_slot_block(slot, layout.block_size as int),
            spec_slot_offset(slot, layout.block_size as int),
            layout.block_size as int,
        ) == slot,
{
    lemma_mix_decode(slot, layout.num_blocks as int, layout.block_size as int);
}

/// Block id of a flat slot index, computed executably.
pub fn slot_block(slot: usize, block_size: usize) -> (b: usize)
    requires
        0 < block_size,
    ensures
        b as int == spec_slot_block(slot as int, block_size as int),
{
    slot / block_size
}

/// Offset within its block of a flat slot index, computed executably.
pub fn slot_offset(slot: usize, block_size: usize) -> (o: usize)
    requires
        0 < block_size,
    ensures
        o as int == spec_slot_offset(slot as int, block_size as int),
{
    slot % block_size
}

} // verus!
