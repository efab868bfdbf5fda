//! Masking and head-mapping logic of variable-length batched attention.
//!
//! A batch of ragged sequences is packed into one buffer; cumulative
//! sequence-length offsets of `batch_size + 1` entries delimit the
//! per-sequence segments. `attends` says exactly which query/key position
//! pairs contribute to the attention result: the positions must lie in the
//! same sequence, and under causal masking a query may only attend to key
//! positions at or before its own, with the query segment aligned to the
//! end of the key segment when the two segments differ in length.
//!
//! Grouped/multi-query head ratios are the other piece of indexing logic:
//! each key/value head serves `num_heads_q / num_heads_kv` query heads.

use vstd::prelude::*;
use crate::radix::{mix, lemma_mix_bound};

verus! {

/// Cumulative sequence-length offsets are well formed: at least one entry,
/// starting at zero, non-decreasing.
pub open spec fn cu_seqlens_wf(cu: Seq<usize>) -> bool {
    &&& cu.len() >= 1
    &&& cu[0] == 0
    &&& forall|i: int| 0 <= i < cu.len() - 1 ==> #[trigger] cu[i] <= cu[i + 1]
}

/// Number of sequences the offsets delimit.
pub open spec fn batch_size(cu: Seq<usize>) -> int {
    cu.len() - 1
}

/// Total number of packed positions the offsets cover.
pub open spec fn total_len(cu: Seq<usize>) -> int {
    cu[cu.len() - 1] as int
}

/// Packed position `pos` lies in sequence `i`'s segment.
pub open spec fn pos_in_seq(cu: Seq<usize>, i: int, pos: int) -> bool {
    0 <= i < batch_size(cu) && cu[i] <= pos < cu[i + 1]
}

/// Well-formed offsets are monotone over any distance.
pub proof fn lemma_cu_monotone(cu: Seq<usize>, i: int, j: int)
    requires
        cu_seqlens_wf(cu),
        0 <= i <= j < cu.len(),
    ensures
        cu[i] <= cu[j],
    decreases j - i,
{
    if i < j {
        lemma_cu_monotone(cu, i, j - 1);
        assert(cu[j - 1] <= cu[j]);
    }
}

/// A packed position lies in at most one sequence's segment.
pub proof fn lemma_pos_in_seq_unique(cu: Seq<usize>, i1: int, i2: int, pos: int)
    requires
        cu_seqlens_wf(cu),
        pos_in_seq(cu, i1, pos),
        pos_in_seq(cu, i2, pos),
    ensures
        i1 == i2,
{
    if i1 < i2 {
        lemma_cu_monotone(cu, i1 + 1, i2);
    }
    if i2 < i1 {
        lemma_cu_monotone(cu, i2 + 1, i1);
    }
}

/// Whether a vector of offsets is well formed, decided executably.
#[verifier::loop_isolation(false)]
pub fn check_cu_seqlens(cu: &Vec<usize>) -> (r: bool)
    ensures
        r == cu_seqlens_wf(cu@),
{
    if cu.len() == 0 {
        return false;
    }
    if cu[0] != 0 {
        return false;
    }
    let mut i: usize = 0;
    while i + 1 < cu.len()
        invariant
            0 <= i < cu@.len(),
            forall|i2: int| 0 <= i2 < i ==> #[trigger] cu@[i2] <= cu@[i2 + 1],
        decreases cu@.len() - i,
    {
        if cu[i] > cu[i + 1] {
            return false;
        }
        i = i + 1;
    }
    true
}

/// Finds the sequence whose segment holds packed position `pos`.
#[verifier::loop_isolation(false)]
pub fn seq_of_pos(cu: &Vec<usize>, pos: usize) -> (i: usize)
    requires
        cu_seqlens_wf(cu@),
        (pos as int) < total_len(cu@),
    ensures
        pos_in_seq(cu@, i as int, pos as int),
{
    let last = cu.len() - 1;
    let mut i: usize = 0;
    while i + 1 < last && cu[i + 1] <= pos
        invariant
            0 <= i < cu@.len() - 1,
            cu@[i as int] <= pos,
        decreases cu@.len() - i,
    {
        i = i + 1;
    }
    proof {
        if !(pos < cu@[i as int + 1]) {
            assert(i as int + 1 == cu@.len() - 1);
        }
    }
    i
}

/// Query position `q` attends to key position `k` within sequence `i`:
/// both positions lie in sequence `i`'s segment, and under causal masking
/// the key's position does not exceed the query's, with the query segment
/// aligned to the end of the key segment.
pub open spec fn attends_in_seq(
    cu_q: Seq<usize>,
    cu_k: Seq<usize>,
    causal: bool,
    i: int,
    q: int,
    k: int,
) -> bool {
    &&& pos_in_seq(cu_q, i, q)
    &&& pos_in_seq(cu_k, i, k)
    &&& (causal ==> (k - cu_k[i]) + (cu_q[i + 1] - cu_q[i]) <= (q - cu_q[i]) + (cu_k[i + 1]
        - cu_k[i]))
}

/// Query position `q` attends to key position `k` in the packed batch:
/// some sequence holds both, and the causal rule allows the pair.
/// Positions in different sequences never attend to each other, whatever
/// the causal flag.
pub open spec fn attends(
    cu_q: Seq<usize>,
    cu_k: Seq<usize>,
    causal: bool,
    q: int,
    k: int,
) -> bool {
    exists|i: int| attends_in_seq(cu_q, cu_k, causal, i, q, k)
}

/// Whether query position `q` attends to key position `k`, decided
/// executably. The sum bound on the two total lengths is a machine limit
/// of the comparison arithmetic.
pub fn attends_check(
    cu_q: &Vec<usize>,
    cu_k: &Vec<usize>,
    causal: bool,
    q: usize,
    k: usize,
) -> (r: bool)
    requires
        cu_seqlens_wf(cu_q@),
        cu_seqlens_wf(cu_k@),
        cu_q@.len() == cu_k@.len(),
        (q as int) < total_len(cu_q@),
        (k as int) < total_len(cu_k@),
        total_len(cu_q@) + total_len(cu_k@) <= usize::MAX,
    ensures
        r == attends(cu_q@, cu_k@, causal, q as int, k as int),
{
    let nseq = cu_q.len() - 1;
    let i = seq_of_pos(cu_q, q);
    proof {
        assert(i < nseq);
        lemma_cu_monotone(cu_q@, i as int, cu_q@.len() - 1);
        lemma_cu_monotone(cu_q@, i as int + 1, cu_q@.len() - 1);
        lemma_cu_monotone(cu_k@, i as int, cu_k@.len() - 1);
        lemma_cu_monotone(cu_k@, i as int + 1, cu_k@.len() - 1);
        assert forall|i2: int| attends_in_seq(cu_q@, cu_k@, causal, i2, q as int, k as int)
            implies i2 == i as int by {
            lemma_pos_in_seq_unique(cu_q@, i2, i as int, q as int);
        }
    }
    if k < cu_k[i] || k >= cu_k[i + 1] {
        return false;
    }
    if !causal {
        proof {
            assert(attends_in_seq(cu_q@, cu_k@, causal, i as int, q as int, k as int));
        }
        return true;
    }
    // key-local + query-segment-length <= query-local + key-segment-length,
    // with the segment bases added to both sides to stay in unsigned range
    let allowed = (k - cu_k[i]) + (cu_q[i + 1] - cu_q[i])
        <= (q - cu_q[i]) + (cu_k[i + 1] - cu_k[i]);
    proof {
        if allowed {
            assert(attends_in_seq(cu_q@, cu_k@, causal, i as int, q as int, k as int));
        }
    }
    allowed
}

/// With a single sequence, causal masking reduces to the dense causal
/// rule: query position `q` attends to key position `k` exactly when both
/// are in range and `k` does not exceed `q`.
pub proof fn lemma_single_sequence_causal(cu: Seq<usize>, n: usize, q: int, k: int)
    requires
        cu =~= seq![0usize, n],
    ensures
        attends(cu, cu, true, q, k) <==> (0 <= k <= q < n),
{
    assert(cu_seqlens_wf(cu));
    if 0 <= k <= q < n {
        assert(attends_in_seq(cu, cu, true, 0, q, k));
    }
    if attends(cu, cu, true, q, k) {
        let i = choose|i: int| attends_in_seq(cu, cu, true, i, q, k);
        assert(i == 0);
    }
}

/// Attending pairs always lie in one sequence: if `q` is in sequence `iq`
/// and `k` in sequence `ik` and `q` attends to `k`, the sequences are the
/// same.
pub proof fn lemma_attends_same_sequence(
    cu_q: Seq<usize>,
    cu_k: Seq<usize>,
    causal: bool,
    iq: int,
    ik: int,
    q: int,
    k: int,
)
    requires
        cu_seqlens_wf(cu_q),
        cu_seqlens_wf(cu_k),
        attends(cu_q, cu_k, causal, q, k),
        pos_in_seq(cu_q, iq, q),
        pos_in_seq(cu_k, ik, k),
    ensures
        iq == ik,
{
    let i = choose|i: int| attends_in_seq(cu_q, cu_k, causal, i, q, k);
    lemma_pos_in_seq_unique(cu_q, i, iq, q);
    lemma_pos_in_seq_unique(cu_k, i, ik, k);
}

/// The arguments of a variable-length attention call fit together: both
/// offset vectors are well formed and delimit the same number of
/// sequences, they cover exactly the packed query and key/value buffers,
/// and the query head count is a positive multiple of the key/value head
/// count.
pub open spec fn varlen_args_ok(
    cu_q: Seq<usize>,
    cu_k: Seq<usize>,
    total_q: int,
    total_k: int,
    num_heads_q: int,
    num_heads_kv: int,
) -> bool {
    &&& cu_seqlens_wf(cu_q)
    &&& cu_seqlens_wf(cu_k)
    &&& cu_q.len() == cu_k.len()
    &&& total_len(cu_q) == total_q
    &&& total_len(cu_k) == total_k
    &&& 0 < num_heads_kv <= num_heads_q
    &&& num_heads_q % num_heads_kv == 0
}

/// Whether the arguments of a variable-length attention call fit
/// together, decided executably.
pub fn check_varlen_args(
    cu_q: &Vec<usize>,
    cu_k: &Vec<usize>,
    total_q: usize,
    total_k: usize,
    num_heads_q: usize,
    num_heads_kv: usize,
) -> (r: bool)
    ensures
        r == varlen_args_ok(cu_q@, cu_k@, total_q as int, total_k as int, num_heads_q as int,
            num_heads_kv as int),
{
    if !check_cu_seqlens(cu_q) || !check_cu_seqlens(cu_k) {
        return false;
    }
    if cu_q.len() != cu_k.len() {
        return false;
    }
    if cu_q[cu_q.len() - 1] != total_q || cu_k[cu_k.len() - 1] != total_k {
        return false;
    }
    num_heads_kv > 0 && num_heads_kv <= num_heads_q && num_heads_q % num_heads_kv == 0
}

/// Whether every sequence the offsets delimit is at most `max_seqlen`
/// positions long — the kernel-sizing bound of the attention call —
/// decided executably.
#[verifier::loop_isolation(false)]
pub fn check_max_seqlen(cu: &Vec<usize>, max_seqlen: usize) -> (r: bool)
    requires
        cu_seqlens_wf(cu@),
    ensures
        r == (forall|i: int|
            0 <= i < batch_size(cu@) ==> cu@[i + 1] - (#[trigger] cu@[i]) <= max_seqlen),
{
    proof {
        vstd::std_specs::vec::axiom_spec_len(cu);
    }
    let mut i: usize = 0;
    while i + 1 < cu.len()
        invariant
            0 <= i < cu@.len(),
            forall|i2: int| 0 <= i2 < i ==> cu@[i2 + 1] - (#[trigger] cu@[i2]) <= max_seqlen,
        decreases cu@.len() - i,
    {
        if cu[i + 1] - cu[i] > max_seqlen {
            return false;
        }
        i = i + 1;
    }
    true
}

/// Flat index of `(token, head, dim)` in a packed buffer of shape
/// `[num_tokens, num_heads, head_size]`.
pub open spec fn qkv_index(num_heads: int, head_size: int, t: int, hd: int, h: int) -> int {
    mix(mix(t, hd, num_heads), h, head_size)
}

/// The key/value head that serves query head `q_head` under a
/// grouped/multi-query ratio where `num_heads_q` is a multiple of
/// `num_heads_kv`.
pub fn kv_head_of(q_head: usize, num_heads_q: usize, num_heads_kv: usize) -> (r: usize)
    requires
        0 < num_heads_kv,
        num_heads_kv <= num_heads_q,
        num_heads_q % num_heads_kv == 0,
        q_head < num_heads_q,
    ensures
        r as int == q_head as int / (num_heads_q as int / num_heads_kv as int),
        (r as int) < num_heads_kv,
{
    let g = num_heads_q / num_heads_kv;
    proof {
        let hq = num_heads_q as int;
        let hkv = num_heads_kv as int;
        let gi = g as int;
        vstd::arithmetic::div_mod::lemma_fundamental_div_mod(hq, hkv);
        assert(0 < gi) by (nonlinear_arith)
            requires
                hq == hkv * gi,
                0 < hq,
                0 < hkv,
                0 <= gi,
        ;
        assert(0 <= gi) by {
            vstd::arithmetic::div_mod::lemma_div_pos_is_pos(hq, hkv);
        }
        vstd::arithmetic::div_mod::lemma_fundamental_div_mod(q_head as int, gi);
        assert((q_head as int) / gi < hkv) by (nonlinear_arith)
            requires
                q_head as int == gi * ((q_head as int) / gi) + (q_head as int) % gi,
                0 <= (q_head as int) % gi < gi,
                (q_head as int) < hq,
                hq == hkv * gi,
                0 < gi,
                0 < hkv,
        ;
        assert(0 <= (q_head as int) / gi) by {
            vstd::arithmetic::div_mod::lemma_div_pos_is_pos(q_head as int, gi);
        }
    }
    q_head / g
}

/// A packed-buffer index below the write frontier: positions
/// lexicographically before `(t, hq, h)` sit below
/// `t * num_heads * head_size + hq * head_size + h` in the flat buffer.
proof fn lemma_qkv_prefix(
    num_heads: int,
    head_size: int,
    t_cur: int,
    hq_cur: int,
    h_cur: int,
    t2: int,
    hq2: int,
    h2: int,
)
    requires
        0 < num_heads,
        0 < head_size,
        0 <= t_cur,
        0 <= hq_cur < num_heads,
        0 <= h_cur <= head_size,
        0 <= t2,
        0 <= hq2 < num_heads,
        0 <= h2 < head_size,
        t2 < t_cur || (t2 == t_cur && hq2 < hq_cur)
            || (t2 == t_cur && hq2 == hq_cur && h2 < h_cur),
    ensures
        qkv_index(num_heads, head_size, t2, hq2, h2)
            == t2 * num_heads * head_size + hq2 * head_size + h2,
        0 <= qkv_index(num_heads, head_size, t2, hq2, h2)
            < t_cur * num_heads * head_size + hq_cur * head_size + h_cur,
{
    assert((t2 * num_heads + hq2) * head_size + h2
        == t2 * num_heads * head_size + hq2 * head_size + h2
        && 0 <= t2 * num_heads * head_size + hq2 * head_size + h2
        && (t2 < t_cur || (t2 == t_cur && hq2 < hq_cur)
            || (t2 == t_cur && hq2 == hq_cur && h2 < h_cur)
            ==> t2 * num_heads * head_size + hq2 * head_size + h2
                < t_cur * num_heads * head_size + hq_cur * head_size + h_cur))
        by (nonlinear_arith)
        requires
            0 < num_heads,
            0 < head_size,
            0 <= t_cur,
            0 <= hq_cur < num_heads,
            0 <= h_cur <= head_size,
            0 <= t2,
            0 <= hq2 < num_heads,
            0 <= h2 < head_size,
    ;
}

/// Materializes the repeated key/value heads of a grouped/multi-query
/// buffer: each of a token's `num_heads_kv` heads appears
/// `num_heads_q / num_heads_kv` times in the result, which has one head
/// per query head — the equal-heads form of the same content, so running
/// the equal-heads path on it reads exactly what the grouped path reads.
#[verifier::loop_isolation(false)]
pub fn repeat_kv_heads<T: Copy>(
    src: &Vec<T>,
    num_tokens: usize,
    num_heads_kv: usize,
    num_heads_q: usize,
    head_size: usize,
) -> (out: Vec<T>)
    requires
        0 < num_heads_kv,
        num_heads_kv <= num_heads_q,
        num_heads_q % num_heads_kv == 0,
        0 < head_size,
        src@.len() == num_tokens * num_heads_kv * head_size,
        num_tokens * num_heads_q * head_size <= usize::MAX,
    ensures
        out@.len() == num_tokens * num_heads_q * head_size,
        forall|t: int, hq: int, h: int|
            0 <= t < num_tokens && 0 <= hq < num_heads_q && 0 <= h < head_size
                ==> out@[#[trigger] qkv_index(num_heads_q as int, head_size as int, t, hq, h)]
                    == src@[qkv_index(num_heads_kv as int, head_size as int, t,
                        hq as int / (num_heads_q as int / num_heads_kv as int), h)],
{
    let ghost n = num_tokens as int;
    let ghost hqn = num_heads_q as int;
    let ghost hkn = num_heads_kv as int;
    let ghost hs = head_size as int;
    let ghost g = hqn / hkn;
    proof {
        vstd::std_specs::vec::axiom_spec_len(src);
        assert((n * hqn) * hs == n * hqn * hs && (n * hkn) * hs == n * hkn * hs
            && n * hkn <= n * hkn * hs && 0 * hqn * hs == 0) by (nonlinear_arith)
            requires
                1 <= hs,
                0 <= n && 0 <= hkn && 0 <= hqn,
        ;
    }
    let mut out: Vec<T> = Vec::new();
    let mut t: usize = 0;
    while t < num_tokens
        invariant
            t <= num_tokens,
            out@.len() == t * hqn * hs,
            forall|t2: int, hq2: int, h2: int|
                0 <= t2 < t && 0 <= hq2 < hqn && 0 <= h2 < hs
                    ==> out@[#[trigger] qkv_index(hqn, hs, t2, hq2, h2)]
                        == src@[qkv_index(hkn, hs, t2, hq2 / g, h2)],
        decreases num_tokens - t,
    {
        proof {
            assert(t * hqn * hs + 0 * hs == t * hqn * hs) by (nonlinear_arith);
        }
        let mut hq: usize = 0;
        while hq < num_heads_q
            invariant
                t < num_tokens,
                hq <= num_heads_q,
                out@.len() == t * hqn * hs + hq * hs,
                forall|t2: int, hq2: int, h2: int|
                    0 <= t2 < t && 0 <= hq2 < hqn && 0 <= h2 < hs
                        ==> out@[#[trigger] qkv_index(hqn, hs, t2, hq2, h2)]
                            == src@[qkv_index(hkn, hs, t2, hq2 / g, h2)],
                forall|hq2: int, h2: int|
                    0 <= hq2 < hq && 0 <= h2 < hs
                        ==> out@[#[trigger] qkv_index(hqn, hs, t as int, hq2, h2)]
                            == src@[qkv_index(hkn, hs, t as int, hq2 / g, h2)],
            decreases num_heads_q - hq,
        {
            let kvh = kv_head_of(hq, num_heads_q, num_heads_kv);
            let mut h: usize = 0;
            while h < head_size
                invariant
                    t < num_tokens,
                    hq < num_heads_q,
                    h <= head_size,
                    kvh as int == hq as int / g,
                    (kvh as int) < hkn,
                    out@.len() == t * hqn * hs + hq * hs + h,
                    forall|t2: int, hq2: int, h2: int|
                        0 <= t2 < t && 0 <= hq2 < hqn && 0 <= h2 < hs
                            ==> out@[#[trigger] qkv_index(hqn, hs, t2, hq2, h2)]
                                == src@[qkv_index(hkn, hs, t2, hq2 / g, h2)],
                    forall|hq2: int, h2: int|
                        0 <= hq2 < hq && 0 <= h2 < hs
                            ==> out@[#[trigger] qkv_index(hqn, hs, t as int, hq2, h2)]
                                == src@[qkv_index(hkn, hs, t as int, hq2 / g, h2)],
                    forall|h2: int|
                        0 <= h2 < h
                            ==> out@[#[trigger] qkv_index(hqn, hs, t as int, hq as int, h2)]
                                == src@[qkv_index(hkn, hs, t as int, hq as int / g, h2)],
                decreases head_size - h,
            {
                proof {
                    lemma_mix_bound(t as int, kvh as int, n, hkn);
                    lemma_mix_bound(mix(t as int, kvh as int, hkn), h as int, n * hkn, hs);
                    assert(t * hqn * hs + hq * hs + h == mix(mix(t as int, hq as int, hqn),
                        h as int, hs)) by (nonlinear_arith);
                    assert(n * hkn <= n * hkn * hs && (n * hkn) * hs == n * hkn * hs)
                        by (nonlinear_arith)
                        requires
                            1 <= hs,
                            0 <= n && 0 <= hkn,
                    ;
                }
                let j = (t * num_heads_kv + kvh) * head_size + h;
                let ghost prev = out@;
                out.push(src[j]);
                proof {
                    assert forall|t2: int, hq2: int, h2: int|
                        0 <= t2 < n && 0 <= hq2 < hqn && 0 <= h2 < hs
                            && (t2 < t || (t2 == t && hq2 < hq)
                                || (t2 == t && hq2 == hq && h2 < h))
                        implies out@[#[trigger] qkv_index(hqn, hs, t2, hq2, h2)]
                            == prev[qkv_index(hqn, hs, t2, hq2, h2)] by {
                        lemma_qkv_prefix(hqn, hs, t as int, hq as int, h as int, t2, hq2, h2);
                        assert(t2 * hqn * hs + hq2 * hs + h2 < prev.len())
                            by (nonlinear_arith)
                            requires
                                t2 * hqn * hs + hq2 * hs + h2
                                    < t * hqn * hs + hq * hs + h,
                                prev.len() == t * hqn * hs + hq * hs + h,
                        ;
                    }
                    assert(out@[t * hqn * hs + hq * hs + h]
                        == src@[qkv_index(hkn, hs, t as int, hq as int / g, h as int)]);
                }
                h = h + 1;
            }
            proof {
                assert(hq * hs + hs == (hq + 1) * hs) by (nonlinear_arith);
            }
            hq = hq + 1;
        }
        proof {
            assert(t * hqn * hs + hqn * hs == (t + 1) * hqn * hs) by (nonlinear_arith);
        }
        t = t + 1;
    }
    out
}

/// Each entry of a sequence repeated `g` times in place: position `i` of
/// the result holds entry `i / g` of the original.
pub open spec fn repeat_each<T>(s: Seq<T>, g: int) -> Seq<T> {
    Seq::new((s.len() * g) as nat, |i: int| s[i / g])
}

/// Grouped-query lookup agrees with materialized repetition: the key/value
/// entry the grouped path reads for query head `hq` is exactly the entry
/// that repeating each of the `g`-fold shared entries places at `hq`.
pub proof fn lemma_grouped_lookup<T>(s: Seq<T>, g: int, hq: int)
    requires
        0 < g,
        0 <= hq < s.len() * g,
    ensures
        repeat_each(s, g)[hq] == s[hq / g],
        0 <= hq / g < s.len(),
{
    vstd::arithmetic::div_mod::lemma_fundamental_div_mod(hq, g);
    assert(0 <= hq / g < s.len()) by (nonlinear_arith)
        requires
            hq == g * (hq / g) + hq % g,
            0 <= hq % g < g,
            0 <= hq < s.len() * g,
            0 < g,
    ;
}

} // verus!
