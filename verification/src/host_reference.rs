//! The index work of the host-side reference computations: spreading key/value heads
//! over query heads for grouped-query attention, unpacking a packed top logit, and
//! comparing the tokens of two top-logit lists. The arithmetic on the values is the
//! caller's.
use vstd::prelude::*;

verus! {

/// The key/value head that query head `q_head` reads when `n_heads` query heads share
/// `n_kv_heads` key/value heads.
pub open spec fn kv_head_of(q_head: int, n_heads: int, n_kv_heads: int) -> int {
    q_head / (n_heads / n_kv_heads)
}

/// Spreads one token's key/value heads over the query heads: query head `h` gets a copy
/// of key/value head `h / (n_heads / n_kv_heads)`.
pub fn single_token_gqa<T: Copy>(value: &[T], n_heads: usize, n_kv_heads: usize, head_dim: usize) -> (r: Vec<T>)
    requires
        n_kv_heads > 0,
        n_heads >= n_kv_heads,
        n_heads % n_kv_heads == 0,
        n_heads * head_dim <= usize::MAX,
        value@.len() >= n_kv_heads * head_dim,
    ensures
        r@.len() == n_heads * head_dim,
        forall|h: int, d: int|
            0 <= h < n_heads && 0 <= d < head_dim ==> #[trigger] r@[h * head_dim + d] == value@[kv_head_of(
                h,
                n_heads as int,
                n_kv_heads as int,
            ) * head_dim + d],
{
    let heads_per_kv = n_heads / n_kv_heads;
    assert(heads_per_kv >= 1) by (nonlinear_arith)
        requires
            heads_per_kv == n_heads / n_kv_heads,
            n_heads >= n_kv_heads,
            n_kv_heads > 0,
    ;
    assert(n_heads == heads_per_kv * n_kv_heads) by (nonlinear_arith)
        requires
            heads_per_kv == n_heads / n_kv_heads,
            n_heads % n_kv_heads == 0,
            n_kv_heads > 0,
    ;
    assert(n_kv_heads * head_dim <= n_heads * head_dim) by (nonlinear_arith)
        requires
            n_kv_heads <= n_heads,
    ;
    let mut out: Vec<T> = Vec::new();
    let mut q_head: usize = 0;
    while q_head < n_heads
        invariant
            heads_per_kv == n_heads / n_kv_heads,
            n_heads == heads_per_kv * n_kv_heads,
            n_kv_heads * head_dim <= n_heads * head_dim,
            heads_per_kv >= 1,
            n_kv_heads > 0,
            q_head <= n_heads,
            n_heads * head_dim <= usize::MAX,
            value@.len() >= n_kv_heads * head_dim,
            out@.len() == q_head * head_dim,
            forall|h: int, d: int|
                0 <= h < q_head && 0 <= d < head_dim ==> #[trigger] out@[h * head_dim + d] == value@[kv_head_of(
                    h,
                    n_heads as int,
                    n_kv_heads as int,
                ) * head_dim + d],
        decreases n_heads - q_head,
    {
        let kv_head = q_head / heads_per_kv;
        assert(kv_head < n_kv_heads) by (nonlinear_arith)
            requires
                kv_head == q_head / heads_per_kv,
                n_heads == heads_per_kv * n_kv_heads,
                heads_per_kv >= 1,
                q_head < n_heads,
                n_kv_heads > 0,
        ;
        assert((kv_head + 1) * head_dim <= n_kv_heads * head_dim) by (nonlinear_arith)
            requires
                kv_head < n_kv_heads,
        ;
        assert((q_head + 1) * head_dim <= n_heads * head_dim) by (nonlinear_arith)
            requires
                q_head < n_heads,
        ;
        assert(kv_head * head_dim + head_dim <= n_kv_heads * head_dim) by (nonlinear_arith)
            requires
                kv_head < n_kv_heads,
        ;
        let src = kv_head * head_dim;
        let mut d: usize = 0;
        while d < head_dim
            invariant
                heads_per_kv == n_heads / n_kv_heads,
                kv_head == q_head / heads_per_kv,
                src == kv_head * head_dim,
                (kv_head + 1) * head_dim <= n_kv_heads * head_dim,
                src + head_dim <= n_kv_heads * head_dim,
                n_kv_heads * head_dim <= n_heads * head_dim,
                n_heads * head_dim <= usize::MAX,
                (q_head + 1) * head_dim <= n_heads * head_dim,
                q_head < n_heads,
                value@.len() >= n_kv_heads * head_dim,
                d <= head_dim,
                out@.len() == q_head * head_dim + d,
                forall|h: int, e: int|
                    0 <= h < q_head && 0 <= e < head_dim ==> #[trigger] out@[h * head_dim + e] == value@[kv_head_of(
                        h,
                        n_heads as int,
                        n_kv_heads as int,
                    ) * head_dim + e],
                forall|e: int| 0 <= e < d ==> #[trigger] out@[q_head * head_dim + e] == value@[src + e],
            decreases head_dim - d,
        {
            assert(src + d < value@.len()) by (nonlinear_arith)
                requires
                    src == kv_head * head_dim,
                    d < head_dim,
                    (kv_head + 1) * head_dim <= n_kv_heads * head_dim,
                    value@.len() >= n_kv_heads * head_dim,
            ;
            let ghost before = out@;
            out.push(value[src + d]);
            proof {
                assert forall|h: int, e: int| 0 <= h < q_head && 0 <= e < head_dim implies #[trigger] out@[h * head_dim
                    + e] == value@[kv_head_of(h, n_heads as int, n_kv_heads as int) * head_dim + e] by {
                    assert(h * head_dim + e < q_head * head_dim) by (nonlinear_arith)
                        requires
                            0 <= h < q_head,
                            0 <= e < head_dim,
                    ;
                    assert(out@[h * head_dim + e] == before[h * head_dim + e]);
                }
            }
            d = d + 1;
        }
        proof {
            assert forall|h: int, e: int| 0 <= h < q_head + 1 && 0 <= e < head_dim implies #[trigger] out@[h * head_dim
                + e] == value@[kv_head_of(h, n_heads as int, n_kv_heads as int) * head_dim + e] by {
                if h == q_head {
                    assert(out@[q_head * head_dim + e] == value@[src + e]);
                }
            }
            assert(out@.len() == (q_head + 1) * head_dim) by (nonlinear_arith)
                requires
                    out@.len() == q_head * head_dim + head_dim,
            ;
        }
        q_head = q_head + 1;
    }
    out
}

/// A packed top logit: the token in the low 32 bits, the logit's bits in the high 32.
pub fn unpack_packed_top_logit_bits(packed: u64) -> (r: (u32, u32))
    ensures
        r.0 == packed % 0x1_0000_0000,
        r.1 == packed / 0x1_0000_0000,
{
    let token = (packed & 0xffff_ffff) as u32;
    let bits = (packed >> 32u64) as u32;
    assert(packed & 0xffff_ffff == packed % 0x1_0000_0000) by (bit_vector);
    assert(packed >> 32u64 == packed / 0x1_0000_0000) by (bit_vector);
    (token, bits)
}

/// Whether two top-logit lists name the same tokens in the same order.
pub fn top_logit_tokens_match<T>(lhs: &[(u32, T)], rhs: &[(u32, T)]) -> (r: bool)
    ensures
        r == (lhs@.len() == rhs@.len() && forall|i: int| 0 <= i < lhs@.len() ==> #[trigger] lhs@[i].0 == rhs@[i].0),
{
    if lhs.len() != rhs.len() {
        return false;
    }
    let mut i: usize = 0;
    while i < lhs.len()
        invariant
            lhs@.len() == rhs@.len(),
            i <= lhs@.len(),
            forall|k: int| 0 <= k < i ==> #[trigger] lhs@[k].0 == rhs@[k].0,
        decreases lhs@.len() - i,
    {
        if lhs[i].0 != rhs[i].0 {
            return false;
        }
        i = i + 1;
    }
    true
}

} // verus!
