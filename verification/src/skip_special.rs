//! Decoding with special tokens skipped is decoding the other tokens alone, for both
//! tokenizers.
use vstd::prelude::*;

use crate::qwen_tokenizer::qwen_decode_bytes;
use crate::tekken::spec_decode_bytes;

verus! {

/// Decoding the first `n` Tekken tokens reads only those tokens.
proof fn lemma_tekken_prefix(
    token_bytes: Seq<Option<Seq<u8>>>,
    start: usize,
    specials: Seq<Option<Seq<char>>>,
    a: Seq<u32>,
    b: Seq<u32>,
    skip: bool,
    n: int,
)
    requires
        0 <= n <= a.len(),
        n <= b.len(),
        a.take(n) == b.take(n),
    ensures
        spec_decode_bytes(token_bytes, start, specials, a, skip, n) == spec_decode_bytes(
            token_bytes,
            start,
            specials,
            b,
            skip,
            n,
        ),
    decreases n,
{
    if n > 0 {
        assert(a.take(n - 1) =~= a.take(n).take(n - 1));
        assert(b.take(n - 1) =~= b.take(n).take(n - 1));
        assert(a[n - 1] == a.take(n)[n - 1]);
        assert(b[n - 1] == b.take(n)[n - 1]);
        lemma_tekken_prefix(token_bytes, start, specials, a, b, skip, n - 1);
    }
}

/// Whether a Tekken token is an ordinary one, kept when special tokens are skipped.
pub open spec fn tekken_ordinary(start: usize) -> spec_fn(u32) -> bool {
    |t: u32| t as usize >= start
}

/// Decoding Tekken tokens with special tokens skipped gives what decoding only the
/// ordinary tokens gives.
pub proof fn lemma_tekken_skip_special(
    token_bytes: Seq<Option<Seq<u8>>>,
    start: usize,
    specials: Seq<Option<Seq<char>>>,
    tokens: Seq<u32>,
)
    ensures
        spec_decode_bytes(token_bytes, start, specials, tokens, true, tokens.len() as int) == spec_decode_bytes(
            token_bytes,
            start,
            specials,
            tokens.filter(tekken_ordinary(start)),
            false,
            tokens.filter(tekken_ordinary(start)).len() as int,
        ),
    decreases tokens.len(),
{
    reveal(Seq::filter);
    let p = tekken_ordinary(start);
    if tokens.len() == 0 {
        assert(tokens.filter(p) =~= Seq::<u32>::empty());
    } else {
        let front = tokens.drop_last();
        let x = tokens.last();
        let n = tokens.len() as int;
        lemma_tekken_skip_special(token_bytes, start, specials, front);
        assert(tokens.take(n - 1) =~= front.take(n - 1));
        lemma_tekken_prefix(token_bytes, start, specials, tokens, front, true, n - 1);
        assert(front.take(n - 1) =~= front);
        let kept = front.filter(p);
        let all = tokens.filter(p);
        if p(x) {
            assert(all == kept.push(x));
            let m = all.len() as int;
            assert(all.take(m - 1) =~= kept.take(m - 1));
            lemma_tekken_prefix(token_bytes, start, specials, all, kept, false, m - 1);
            assert(kept.take(m - 1) =~= kept);
            assert(all[m - 1] == x);
        } else {
            assert(all == kept);
        }
    }
}

/// Decoding the first `n` Qwen tokens reads only those tokens.
proof fn lemma_qwen_prefix(
    slots: Seq<Option<Seq<char>>>,
    added: Seq<u32>,
    special: Seq<u32>,
    a: Seq<u32>,
    b: Seq<u32>,
    skip: bool,
    n: int,
)
    requires
        0 <= n <= a.len(),
        n <= b.len(),
        a.take(n) == b.take(n),
    ensures
        qwen_decode_bytes(slots, added, special, a, skip, n) == qwen_decode_bytes(slots, added, special, b, skip, n),
    decreases n,
{
    if n > 0 {
        assert(a.take(n - 1) =~= a.take(n).take(n - 1));
        assert(b.take(n - 1) =~= b.take(n).take(n - 1));
        assert(a[n - 1] == a.take(n)[n - 1]);
        assert(b[n - 1] == b.take(n)[n - 1]);
        lemma_qwen_prefix(slots, added, special, a, b, skip, n - 1);
    }
}

/// Whether a Qwen token is kept when special tokens are skipped: it is not an added
/// token marked special.
pub open spec fn qwen_kept(added: Seq<u32>, special: Seq<u32>) -> spec_fn(u32) -> bool {
    |t: u32| !(added.contains(t) && special.contains(t))
}

/// Decoding Qwen tokens with special tokens skipped gives what decoding only the kept
/// tokens gives.
pub proof fn lemma_qwen_skip_special(slots: Seq<Option<Seq<char>>>, added: Seq<u32>, special: Seq<u32>, tokens: Seq<u32>)
    ensures
        qwen_decode_bytes(slots, added, special, tokens, true, tokens.len() as int) == qwen_decode_bytes(
            slots,
            added,
            special,
            tokens.filter(qwen_kept(added, special)),
            false,
            tokens.filter(qwen_kept(added, special)).len() as int,
        ),
    decreases tokens.len(),
{
    reveal(Seq::filter);
    let p = qwen_kept(added, special);
    if tokens.len() == 0 {
        assert(tokens.filter(p) =~= Seq::<u32>::empty());
    } else {
        let front = tokens.drop_last();
        let x = tokens.last();
        let n = tokens.len() as int;
        lemma_qwen_skip_special(slots, added, special, front);
        assert(tokens.take(n - 1) =~= front.take(n - 1));
        lemma_qwen_prefix(slots, added, special, tokens, front, true, n - 1);
        assert(front.take(n - 1) =~= front);
        let kept = front.filter(p);
        let all = tokens.filter(p);
        if p(x) {
            assert(all == kept.push(x));
            let m = all.len() as int;
            assert(all.take(m - 1) =~= kept.take(m - 1));
            lemma_qwen_prefix(slots, added, special, all, kept, false, m - 1);
            assert(kept.take(m - 1) =~= kept);
            assert(all[m - 1] == x);
        } else {
            assert(all == kept);
        }
    }
}

} // verus!
