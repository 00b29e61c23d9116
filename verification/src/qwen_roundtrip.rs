//! Decoding what the Qwen tokenizer encodes gives back the text, for vocabularies
//! whose ids name one token each.
use vstd::prelude::*;

use crate::byte_level::{byte_level_code, byte_of_code, lemma_byte_level_round_trip, lemma_byte_level_code_is_char};
use crate::byte_table::table_get;
use crate::pretokenize::{concat_pieces, pieces_from};
use crate::qwen_tokenizer::{
    added_from, byte_level_bytes, byte_level_pieces, qwen_best_pair, qwen_bpe_ids, qwen_bpe_merge, qwen_decode_bytes,
    qwen_encode_from, qwen_piece_ids, qwen_pieces_ids, qwen_span_ids, set_slot, slot_at, vocab_entries, vocab_slots,
    QwenByteLevelBpeTokenizer, QwenError, lemma_qwen_bpe_keeps_text,
};
use crate::tekken::{
    first_special_at, flatten_bytes, lemma_concat_pieces_push, lemma_encode_utf8_concat, lemma_first_special_at_bounds,
    lemma_flatten_concat, lemma_next_special_bounds, lemma_sort_specials_members, next_special, sort_specials,
    tokens_non_empty,
};

verus! {

/// The decoding of a whole token sequence, special tokens kept.
pub open spec fn qwen_decode_all(slots: Seq<Option<Seq<char>>>, added: Seq<u32>, special: Seq<u32>, tokens: Seq<u32>) -> Result<
    Seq<u8>,
    QwenError,
> {
    qwen_decode_bytes(slots, added, special, tokens, false, tokens.len() as int)
}

/// The bytes of both, or the first error.
pub open spec fn join_decoded(a: Result<Seq<u8>, QwenError>, b: Result<Seq<u8>, QwenError>) -> Result<Seq<u8>, QwenError> {
    match a {
        Err(e) => Err(e),
        Ok(x) => match b {
            Err(e) => Err(e),
            Ok(y) => Ok(x + y),
        },
    }
}

proof fn lemma_decode_prefix(
    slots: Seq<Option<Seq<char>>>,
    added: Seq<u32>,
    special: Seq<u32>,
    a: Seq<u32>,
    b: Seq<u32>,
    n: int,
)
    requires
        0 <= n <= a.len(),
        n <= b.len(),
        a.take(n) == b.take(n),
    ensures
        qwen_decode_bytes(slots, added, special, a, false, n) == qwen_decode_bytes(slots, added, special, b, false, n),
    decreases n,
{
    if n > 0 {
        assert(a.take(n - 1) =~= a.take(n).take(n - 1));
        assert(b.take(n - 1) =~= b.take(n).take(n - 1));
        assert(a[n - 1] == a.take(n)[n - 1]);
        assert(b[n - 1] == b.take(n)[n - 1]);
        lemma_decode_prefix(slots, added, special, a, b, n - 1);
    }
}

/// Decoding two token sequences one after the other decodes each in turn.
pub proof fn lemma_qwen_decode_append(
    slots: Seq<Option<Seq<char>>>,
    added: Seq<u32>,
    special: Seq<u32>,
    a: Seq<u32>,
    b: Seq<u32>,
)
    ensures
        qwen_decode_all(slots, added, special, a + b) == join_decoded(
            qwen_decode_all(slots, added, special, a),
            qwen_decode_all(slots, added, special, b),
        ),
    decreases b.len(),
{
    if b.len() == 0 {
        assert(a + b =~= a);
        if let Ok(x) = qwen_decode_all(slots, added, special, a) {
            assert(x + Seq::<u8>::empty() =~= x);
        }
    } else {
        let b1 = b.drop_last();
        lemma_qwen_decode_append(slots, added, special, a, b1);
        let ab = a + b;
        let n = ab.len() as int;
        assert((a + b1) =~= ab.take(n - 1));
        assert(ab.take(n - 1) =~= (a + b1).take(n - 1));
        lemma_decode_prefix(slots, added, special, ab, a + b1, n - 1);
        assert(b1 =~= b.take(b.len() - 1));
        assert(b.take(b.len() - 1) =~= b1.take(b.len() - 1));
        lemma_decode_prefix(slots, added, special, b, b1, b.len() - 1);
        assert(ab[n - 1] == b[b.len() - 1]);
        if let Ok(x) = qwen_decode_all(slots, added, special, a) {
            if let Ok(y) = qwen_decode_all(slots, added, special, b1) {
                let id = b[b.len() - 1];
                if added.contains(id) {
                    if let Some(c) = slot_at(slots, id) {
                        assert(x + (y + vstd::utf8::encode_utf8(c)) =~= (x + y) + vstd::utf8::encode_utf8(c));
                    }
                } else if let Some(t) = slot_at(slots, id) {
                    if let Ok(bb) = byte_level_bytes(t, t.len() as int) {
                        assert(x + (y + bb) =~= (x + y) + bb);
                    }
                }
            }
        }
    }
}

/// One token alone decodes as its step does.
proof fn lemma_decode_one(slots: Seq<Option<Seq<char>>>, added: Seq<u32>, special: Seq<u32>, id: u32)
    ensures
        qwen_decode_all(slots, added, special, seq![id]) == qwen_decode_bytes(
            slots,
            added,
            special,
            seq![id],
            false,
            1,
        ),
        qwen_decode_bytes(slots, added, special, seq![id], false, 0) == Ok::<Seq<u8>, QwenError>(seq![]),
{
}

/// Every character of `p` is a byte-level character.
pub open spec fn all_byte_level(p: Seq<char>) -> bool {
    forall|j: int| 0 <= j < p.len() ==> #[trigger] byte_of_code(p[j] as u32) is Some
}

/// The bytes byte-level characters stand for.
pub open spec fn byte_level_decoded(p: Seq<char>) -> Seq<u8> {
    p.map_values(|c: char| byte_of_code(c as u32)->Some_0)
}

/// Byte-level characters decode one by one.
proof fn lemma_byte_level_bytes_ok(p: Seq<char>, k: int)
    requires
        0 <= k <= p.len(),
        all_byte_level(p),
    ensures
        byte_level_bytes(p, k) == Ok::<Seq<u8>, char>(byte_level_decoded(p).take(k)),
    decreases k,
{
    if k == 0 {
        assert(byte_level_decoded(p).take(0) =~= Seq::<u8>::empty());
    } else {
        lemma_byte_level_bytes_ok(p, k - 1);
        assert(byte_of_code(p[k - 1] as u32) is Some);
        assert(byte_level_decoded(p).take(k) =~= byte_level_decoded(p).take(k - 1).push(byte_of_code(p[k - 1] as u32)->Some_0));
    }
}

/// The characters of each piece of a flattening are characters of the flattening.
proof fn lemma_piece_within_flatten(pieces: Seq<Seq<char>>, k: int)
    requires
        0 <= k < pieces.len(),
        all_byte_level(flatten_bytes(pieces)),
    ensures
        all_byte_level(pieces[k]),
{
    let before = pieces.take(k);
    let after = pieces.skip(k + 1);
    assert(pieces =~= before + seq![pieces[k]] + after);
    lemma_flatten_concat(before + seq![pieces[k]], after);
    lemma_flatten_concat(before, seq![pieces[k]]);
    let one = seq![pieces[k]];
    assert(one.drop_last() =~= Seq::<Seq<char>>::empty());
    assert(flatten_bytes(Seq::<Seq<char>>::empty()) == Seq::<char>::empty());
    assert(flatten_bytes(one) =~= pieces[k]);
    let all = flatten_bytes(pieces);
    let off = flatten_bytes(before).len();
    assert forall|j: int| 0 <= j < pieces[k].len() implies #[trigger] byte_of_code(pieces[k][j] as u32) is Some by {
        assert(all[off + j] == pieces[k][j]);
    }
}

/// The byte-level characters of `bytes`, one piece each, spell them.
proof fn lemma_byte_level_pieces_spell(bytes: Seq<u8>)
    ensures
        all_byte_level(flatten_bytes(byte_level_pieces(bytes))),
        byte_level_decoded(flatten_bytes(byte_level_pieces(bytes))) == bytes,
    decreases bytes.len(),
{
    let pieces = byte_level_pieces(bytes);
    let flat = flatten_bytes(pieces);
    if bytes.len() == 0 {
        assert(pieces =~= Seq::<Seq<char>>::empty());
        assert(byte_level_decoded(flat) =~= bytes);
    } else {
        let front = bytes.drop_last();
        lemma_byte_level_pieces_spell(front);
        assert(pieces.drop_last() =~= byte_level_pieces(front));
        let b = bytes.last();
        let c = byte_level_code(b) as char;
        lemma_byte_level_code_is_char(b);
        vstd::utf8::char_u32_cast(c, byte_level_code(b));
        lemma_byte_level_round_trip(b, byte_level_code(b));
        assert(pieces.last() == seq![c]);
        assert(flat == flatten_bytes(byte_level_pieces(front)) + seq![c]);
        assert(byte_level_decoded(flat) =~= byte_level_decoded(flatten_bytes(byte_level_pieces(front))).push(b));
        assert(front.push(b) =~= bytes);
        assert forall|j: int| 0 <= j < flat.len() implies #[trigger] byte_of_code(flat[j] as u32) is Some by {
            if j < flat.len() - 1 {
                assert(flat[j] == flatten_bytes(byte_level_pieces(front))[j]);
            }
        }
    }
}

/// Reading a slot after one slot is set.
proof fn lemma_set_slot_at(s: Seq<Option<Seq<char>>>, id: u32, val: Option<Seq<char>>, j: u32)
    ensures
        slot_at(set_slot(s, id as int, val), j) == if j == id {
            val
        } else {
            slot_at(s, j)
        },
{
    let t = set_slot(s, id as int, val);
    if (id as int) < s.len() {
        assert(t.len() == s.len());
    } else {
        assert(t.len() == id + 1);
        if j != id && (j as int) < t.len() && (j as int) >= s.len() {
            assert(t[j as int] is None);
        }
    }
}

/// Placing the vocabulary gives each of its ids its token, when no two entries share
/// an id.
proof fn lemma_vocab_slot(v: Seq<(Seq<char>, u32)>, n: int, k: int)
    requires
        0 <= k < n <= v.len(),
        forall|i: int, j: int| #![trigger v[i], v[j]] 0 <= i < j < v.len() ==> v[i].1 != v[j].1,
    ensures
        slot_at(vocab_slots(v, n), v[k].1) == Some(v[k].0),
    decreases n,
{
    lemma_set_slot_at(vocab_slots(v, n - 1), v[n - 1].1, Some(v[n - 1].0), v[k].1);
    if k < n - 1 {
        lemma_vocab_slot(v, n - 1, k);
    }
}

/// What the added tokens make of the slots: their ids in list order, every slot whose
/// id none of them has unchanged, and, when no two share an id, each one's text in its
/// slot.
proof fn lemma_added_state(
    fields: Seq<(Option<u64>, Option<Seq<char>>, Option<bool>)>,
    n: int,
    slots: Seq<Option<Seq<char>>>,
)
    requires
        0 <= n <= fields.len(),
        added_from(fields, n, slots) is Ok,
    ensures
        ({
            let st = added_from(fields, n, slots)->Ok_0;
            &&& st.2.len() == st.1.len()
            &&& forall|i: int| 0 <= i < st.1.len() ==> #[trigger] st.2[i] == st.1[i].1
            &&& forall|j: u32| !st.2.contains(j) ==> #[trigger] slot_at(st.0, j) == slot_at(slots, j)
            &&& (forall|a: int, b: int| #![trigger st.2[a], st.2[b]] 0 <= a < b < st.2.len() ==> st.2[a] != st.2[b])
                ==> forall|i: int| 0 <= i < st.1.len() ==> #[trigger] slot_at(st.0, st.1[i].1) == Some(st.1[i].0)
        }),
    decreases n,
{
    if n > 0 {
        lemma_added_state(fields, n - 1, slots);
        let prev = added_from(fields, n - 1, slots)->Ok_0;
        let st = added_from(fields, n, slots)->Ok_0;
        let id32 = (fields[n - 1].0->Some_0) as u32;
        let c = fields[n - 1].1->Some_0;
        assert(st.0 == set_slot(prev.0, id32 as int, Some(c)));
        assert(st.1 == prev.1.push((c, id32)));
        assert(st.2 == prev.2.push(id32));
        assert forall|j: u32| !st.2.contains(j) implies #[trigger] slot_at(st.0, j) == slot_at(slots, j) by {
            if prev.2.contains(j) {
                let i = choose|i: int| 0 <= i < prev.2.len() && prev.2[i] == j;
                assert(st.2[i] == j);
            }
            assert(j != id32) by {
                assert(st.2[st.2.len() - 1] == id32);
            }
            lemma_set_slot_at(prev.0, id32, Some(c), j);
        }
        if forall|a: int, b: int| #![trigger st.2[a], st.2[b]] 0 <= a < b < st.2.len() ==> st.2[a] != st.2[b] {
            assert forall|a: int, b: int| #![trigger prev.2[a], prev.2[b]] 0 <= a < b < prev.2.len() implies prev.2[a]
                != prev.2[b] by {
                assert(st.2[a] == prev.2[a] && st.2[b] == prev.2[b]);
            }
            assert forall|i: int| 0 <= i < st.1.len() implies #[trigger] slot_at(st.0, st.1[i].1) == Some(st.1[i].0) by {
                if i < prev.1.len() {
                    assert(st.1[i] == prev.1[i]);
                    assert(st.2[i] == prev.2[i]);
                    assert(st.2[i] != st.2[st.2.len() - 1]);
                    lemma_set_slot_at(prev.0, id32, Some(c), prev.1[i].1);
                } else {
                    lemma_set_slot_at(prev.0, id32, Some(c), id32);
                }
            }
        }
    }
}

/// Every vocabulary id is no added token's id, and its slot holds its token.
pub open spec fn vocab_decodes(v: Seq<(Seq<char>, u32)>, slots: Seq<Option<Seq<char>>>, added_ids: Seq<u32>) -> bool {
    forall|k: int| 0 <= k < v.len() ==> !added_ids.contains(#[trigger] v[k].1) && slot_at(slots, v[k].1) == Some(v[k].0)
}

/// Every added token's id is an added id, and its slot holds its text.
pub open spec fn added_decodes(
    added: Seq<(Seq<char>, u32)>,
    slots: Seq<Option<Seq<char>>>,
    added_ids: Seq<u32>,
) -> bool {
    forall|k: int| 0 <= k < added.len() ==> added_ids.contains(#[trigger] added[k].1) && slot_at(slots, added[k].1) == Some(added[k].0)
}

/// A piece the vocabulary holds decodes to the bytes its characters stand for.
proof fn lemma_vocab_piece_decode(
    v: Seq<(Seq<char>, u32)>,
    slots: Seq<Option<Seq<char>>>,
    added_ids: Seq<u32>,
    special: Seq<u32>,
    p: Seq<char>,
)
    requires
        vocab_decodes(v, slots, added_ids),
        all_byte_level(p),
        table_get(vocab_entries(v), vstd::utf8::encode_utf8(p)) is Some,
    ensures
        qwen_decode_all(slots, added_ids, special, seq![table_get(vocab_entries(v), vstd::utf8::encode_utf8(p))->Some_0 as u32])
            == Ok::<Seq<u8>, QwenError>(byte_level_decoded(p)),
{
    let entries = vocab_entries(v);
    let key = vstd::utf8::encode_utf8(p);
    let val = table_get(entries, key)->Some_0;
    crate::byte_table::lemma_found_value_is_entry(entries, key, entries.len() as int);
    let k = choose|k: int| 0 <= k < entries.len() && entries[k].0 == key && #[trigger] entries[k].1 == val;
    assert(entries[k] == (vstd::utf8::encode_utf8(v[k].0), v[k].1 as u64));
    vstd::utf8::encode_utf8_decode_utf8(p);
    vstd::utf8::encode_utf8_decode_utf8(v[k].0);
    assert(v[k].0 == p);
    assert(val as u32 == v[k].1);
    lemma_byte_level_bytes_ok(p, p.len() as int);
    assert(byte_level_decoded(p).take(p.len() as int) =~= byte_level_decoded(p));
    lemma_decode_one(slots, added_ids, special, v[k].1);
    assert(Seq::<u8>::empty() + byte_level_decoded(p) =~= byte_level_decoded(p));
}

/// The ids of byte-level pieces the vocabulary holds decode to the bytes the pieces
/// stand for.
proof fn lemma_qwen_piece_ids_decode(
    v: Seq<(Seq<char>, u32)>,
    slots: Seq<Option<Seq<char>>>,
    added_ids: Seq<u32>,
    special: Seq<u32>,
    pieces: Seq<Seq<char>>,
    n: int,
)
    requires
        0 <= n <= pieces.len(),
        vocab_decodes(v, slots, added_ids),
        forall|k: int| 0 <= k < pieces.len() ==> all_byte_level(#[trigger] pieces[k]),
    ensures
        qwen_piece_ids(vocab_entries(v), pieces, n) matches Ok(ids) ==> qwen_decode_all(slots, added_ids, special, ids)
            == Ok::<Seq<u8>, QwenError>(byte_level_decoded(flatten_bytes(pieces.take(n)))),
    decreases n,
{
    let entries = vocab_entries(v);
    if n == 0 {
        assert(pieces.take(0) =~= Seq::<Seq<char>>::empty());
        assert(byte_level_decoded(Seq::<char>::empty()) =~= Seq::<u8>::empty());
        assert(flatten_bytes(Seq::<Seq<char>>::empty()) == Seq::<char>::empty());
    } else {
        lemma_qwen_piece_ids_decode(v, slots, added_ids, special, pieces, n - 1);
        if let Ok(ids) = qwen_piece_ids(entries, pieces, n) {
            let prev = qwen_piece_ids(entries, pieces, n - 1)->Ok_0;
            let p = pieces[n - 1];
            let val = table_get(entries, vstd::utf8::encode_utf8(p))->Some_0;
            let one = seq![val as u32];
            assert(ids =~= prev + one);
            assert(all_byte_level(p));
            lemma_vocab_piece_decode(v, slots, added_ids, special, p);
            lemma_qwen_decode_append(slots, added_ids, special, prev, one);
            assert(pieces.take(n) =~= pieces.take(n - 1).push(p));
            crate::tekken::lemma_flatten_push(pieces.take(n - 1), p);
            let front = flatten_bytes(pieces.take(n - 1));
            assert(byte_level_decoded(front + p) =~= byte_level_decoded(front) + byte_level_decoded(p));
        }
    }
}

/// The tokens of one pre-tokenized piece's bytes decode to those bytes.
proof fn lemma_qwen_bpe_ids_decode(
    v: Seq<(Seq<char>, u32)>,
    merges: Seq<(Seq<u8>, u64)>,
    slots: Seq<Option<Seq<char>>>,
    added_ids: Seq<u32>,
    special: Seq<u32>,
    bytes: Seq<u8>,
)
    requires
        vocab_decodes(v, slots, added_ids),
    ensures
        qwen_bpe_ids(vocab_entries(v), merges, bytes) matches Ok(ids) ==> qwen_decode_all(slots, added_ids, special, ids)
            == Ok::<Seq<u8>, QwenError>(bytes),
{
    if bytes.len() == 0 {
        assert(qwen_decode_all(slots, added_ids, special, Seq::<u32>::empty()) == Ok::<Seq<u8>, QwenError>(seq![]));
        assert(bytes =~= Seq::<u8>::empty());
    } else {
        let start = byte_level_pieces(bytes);
        let pieces = qwen_bpe_merge(merges, start);
        lemma_qwen_bpe_keeps_text(merges, start);
        lemma_byte_level_pieces_spell(bytes);
        assert forall|k: int| 0 <= k < pieces.len() implies all_byte_level(#[trigger] pieces[k]) by {
            lemma_piece_within_flatten(pieces, k);
        }
        lemma_qwen_piece_ids_decode(v, slots, added_ids, special, pieces, pieces.len() as int);
        assert(pieces.take(pieces.len() as int) =~= pieces);
    }
}

/// The tokens of the first `n` pre-tokenized pieces decode to their bytes.
proof fn lemma_qwen_pieces_ids_decode(
    v: Seq<(Seq<char>, u32)>,
    merges: Seq<(Seq<u8>, u64)>,
    slots: Seq<Option<Seq<char>>>,
    added_ids: Seq<u32>,
    special: Seq<u32>,
    pieces: Seq<Seq<char>>,
    n: int,
)
    requires
        0 <= n <= pieces.len(),
        vocab_decodes(v, slots, added_ids),
    ensures
        qwen_pieces_ids(vocab_entries(v), merges, pieces, n) matches Ok(ids) ==> qwen_decode_all(
            slots,
            added_ids,
            special,
            ids,
        ) == Ok::<Seq<u8>, QwenError>(vstd::utf8::encode_utf8(concat_pieces(pieces.take(n)))),
    decreases n,
{
    let entries = vocab_entries(v);
    if n == 0 {
        assert(pieces.take(0) =~= Seq::<Seq<char>>::empty());
        assert(qwen_decode_all(slots, added_ids, special, Seq::<u32>::empty()) == Ok::<Seq<u8>, QwenError>(seq![]));
    } else {
        lemma_qwen_pieces_ids_decode(v, merges, slots, added_ids, special, pieces, n - 1);
        if let Ok(ids) = qwen_pieces_ids(entries, merges, pieces, n) {
            let prev = qwen_pieces_ids(entries, merges, pieces, n - 1)->Ok_0;
            let bytes = vstd::utf8::encode_utf8(pieces[n - 1]);
            let more = qwen_bpe_ids(entries, merges, bytes)->Ok_0;
            lemma_qwen_bpe_ids_decode(v, merges, slots, added_ids, special, bytes);
            lemma_qwen_decode_append(slots, added_ids, special, prev, more);
            assert(pieces.take(n) =~= pieces.take(n - 1).push(pieces[n - 1]));
            lemma_concat_pieces_push(pieces.take(n - 1), pieces[n - 1]);
            lemma_encode_utf8_concat(concat_pieces(pieces.take(n - 1)), pieces[n - 1]);
        }
    }
}

/// The tokens of a stretch of text that holds no added token decode to its bytes.
proof fn lemma_qwen_span_ids_decode(
    v: Seq<(Seq<char>, u32)>,
    merges: Seq<(Seq<u8>, u64)>,
    slots: Seq<Option<Seq<char>>>,
    added_ids: Seq<u32>,
    special: Seq<u32>,
    span: Seq<char>,
)
    requires
        vocab_decodes(v, slots, added_ids),
    ensures
        qwen_span_ids(vocab_entries(v), merges, span) matches Ok(ids) ==> qwen_decode_all(slots, added_ids, special, ids)
            == Ok::<Seq<u8>, QwenError>(vstd::utf8::encode_utf8(span)),
{
    let pieces = pieces_from(span, 0);
    lemma_qwen_pieces_ids_decode(v, merges, slots, added_ids, special, pieces, pieces.len() as int);
    assert(pieces.take(pieces.len() as int) =~= pieces);
    crate::pretokenize::lemma_pieces_partition(span, 0);
    assert(span.subrange(0, span.len() as int) =~= span);
}

/// What encoding gives from `i` on decodes, special tokens kept, to the bytes of the
/// text from `i` on.
proof fn lemma_qwen_encode_from_decodes(
    v: Seq<(Seq<char>, u32)>,
    merges: Seq<(Seq<u8>, u64)>,
    added: Seq<(Seq<char>, u32)>,
    slots: Seq<Option<Seq<char>>>,
    added_ids: Seq<u32>,
    special: Seq<u32>,
    text: Seq<char>,
    i: int,
)
    requires
        0 <= i <= text.len(),
        vocab_decodes(v, slots, added_ids),
        added_decodes(added, slots, added_ids),
        tokens_non_empty(added),
    ensures
        qwen_encode_from(sort_specials(added), vocab_entries(v), merges, text, i) matches Ok(ids) ==> qwen_decode_all(
            slots,
            added_ids,
            special,
            ids,
        ) == Ok::<Seq<u8>, QwenError>(vstd::utf8::encode_utf8(text.subrange(i, text.len() as int))),
    decreases text.len() - i,
{
    let order = sort_specials(added);
    let entries = vocab_entries(v);
    if i >= text.len() {
        assert(text.subrange(i, text.len() as int) =~= Seq::<char>::empty());
        assert(qwen_decode_all(slots, added_ids, special, Seq::<u32>::empty()) == Ok::<Seq<u8>, QwenError>(seq![]));
        return;
    }
    match first_special_at(order, text, i, 0) {
        Some(k) => {
            lemma_first_special_at_bounds(order, text, i, 0);
            crate::tekken::lemma_sort_keeps_non_empty(added);
            assert(order[k].0.len() > 0);
            let tok = order[k].0;
            let id = order[k].1;
            let next = i + tok.len();
            lemma_qwen_encode_from_decodes(v, merges, added, slots, added_ids, special, text, next);
            if let Ok(ids) = qwen_encode_from(order, entries, merges, text, i) {
                let rest = qwen_encode_from(order, entries, merges, text, next)->Ok_0;
                lemma_sort_specials_members(added);
                assert(added.contains(order[k]));
                let j = choose|j: int| 0 <= j < added.len() && added[j] == order[k];
                assert(added_ids.contains(added[j].1) && slot_at(slots, added[j].1) == Some(added[j].0));
                lemma_decode_one(slots, added_ids, special, id);
                assert(Seq::<u8>::empty() + vstd::utf8::encode_utf8(tok) =~= vstd::utf8::encode_utf8(tok));
                lemma_qwen_decode_append(slots, added_ids, special, seq![id], rest);
                assert(ids =~= seq![id] + rest);
                assert(text.subrange(i, text.len() as int) =~= tok + text.subrange(next, text.len() as int));
                lemma_encode_utf8_concat(tok, text.subrange(next, text.len() as int));
            }
        },
        None => {
            lemma_next_special_bounds(order, text, i, order.len() as int);
            let end = match next_special(order, text, i, order.len() as int) {
                Some(e) => e,
                None => text.len() as int,
            };
            if i < end <= text.len() {
                lemma_qwen_encode_from_decodes(v, merges, added, slots, added_ids, special, text, end);
                if let Ok(ids) = qwen_encode_from(order, entries, merges, text, i) {
                    let span = text.subrange(i, end);
                    lemma_qwen_span_ids_decode(v, merges, slots, added_ids, special, span);
                    let first = qwen_span_ids(entries, merges, span)->Ok_0;
                    let rest = qwen_encode_from(order, entries, merges, text, end)->Ok_0;
                    lemma_qwen_decode_append(slots, added_ids, special, first, rest);
                    assert(text.subrange(i, text.len() as int) =~= span + text.subrange(end, text.len() as int));
                    lemma_encode_utf8_concat(span, text.subrange(end, text.len() as int));
                }
            }
        },
    }
}

/// Each vocabulary id names one token, the added tokens have distinct ids, and no
/// added token has a vocabulary id.
pub open spec fn qwen_ids_unique(v: Seq<(Seq<char>, u32)>, added: Seq<(Seq<char>, u32)>) -> bool {
    &&& forall|i: int, j: int| #![trigger v[i], v[j]] 0 <= i < j < v.len() ==> v[i].1 != v[j].1
    &&& forall|i: int, j: int| #![trigger added[i], added[j]] 0 <= i < j < added.len() ==> added[i].1 != added[j].1
    &&& forall|i: int, j: int| #![trigger v[i], added[j]] 0 <= i < v.len() && 0 <= j < added.len() ==> v[i].1 != added[j].1
}

/// A tokenizer built from the vocabulary `v` and the added token entries `added`
/// decodes what it encodes, special tokens kept, back to the text's bytes, when each id
/// names one token and no added token is empty.
pub proof fn lemma_qwen_decode_encode(
    t: QwenByteLevelBpeTokenizer,
    v: Seq<(Seq<char>, u32)>,
    added: Seq<(Option<u64>, Option<Seq<char>>, Option<bool>)>,
    text: Seq<char>,
)
    requires
        t.spec_vocab_entries() == vocab_entries(v),
        added_from(added, added.len() as int, vocab_slots(v, v.len() as int)) matches Ok(state) && t.spec_id_to_token()
            == state.0 && t.spec_added_order() == sort_specials(state.1) && t.spec_added_ids() == state.2
            && t.spec_special_ids() == state.3 && qwen_ids_unique(v, state.1) && tokens_non_empty(state.1),
    ensures
        t.spec_encode(text, false) matches Ok(ids) ==> qwen_decode_bytes(
            t.spec_id_to_token(),
            t.spec_added_ids(),
            t.spec_special_ids(),
            ids,
            false,
            ids.len() as int,
        ) == Ok::<Seq<u8>, QwenError>(vstd::utf8::encode_utf8(text)),
{
    let slots0 = vocab_slots(v, v.len() as int);
    let state = added_from(added, added.len() as int, slots0)->Ok_0;
    lemma_added_state(added, added.len() as int, slots0);
    assert forall|i: int, j: int| #![trigger state.2[i], state.2[j]] 0 <= i < j < state.2.len() implies state.2[i]
        != state.2[j] by {
        assert(state.1[i].1 != state.1[j].1);
    }
    assert forall|k: int| 0 <= k < v.len() implies !state.2.contains(#[trigger] v[k].1) && slot_at(state.0, v[k].1)
        == Some(v[k].0) by {
        if state.2.contains(v[k].1) {
            let j = choose|j: int| 0 <= j < state.2.len() && state.2[j] == v[k].1;
            assert(v[k].1 != state.1[j].1);
        }
        lemma_vocab_slot(v, v.len() as int, k);
    }
    assert forall|k: int| 0 <= k < state.1.len() implies state.2.contains(#[trigger] state.1[k].1) && slot_at(
        state.0,
        state.1[k].1,
    ) == Some(state.1[k].0) by {
        assert(state.2[k] == state.1[k].1);
    }
    lemma_qwen_encode_from_decodes(
        v,
        t.spec_merge_entries(),
        state.1,
        state.0,
        state.2,
        state.3,
        text,
        0,
    );
    assert(text.subrange(0, text.len() as int) =~= text);
}

} // verus!
