//! The byte-level BPE tokenizer of Qwen models, read from `vocab.json`, `merges.txt`
//! and the added tokens of `tokenizer.json`.
use vstd::prelude::*;

use crate::byte_level::{byte_level_char, byte_level_code, byte_of_code, byte_unicode_maps, ByteLevelDecoder};
use crate::byte_table::{table_get, ByteTable};
use crate::pretokenize::{char_is_whitespace, pieces_from, tekken_pre_tokenize, whitespace};
use crate::tekken::{
    first_special_at, first_token_at, flatten_bytes, join_ids, lemma_merge_keeps_bytes, merge_at, tokens_non_empty, lemma_first_special_at_bounds, lemma_join_ids_assoc,
    lemma_join_ids_empty, lemma_next_special_bounds, next_special, next_token_start, sort_special_ids,
    sort_specials, token_order,
};
use crate::text::{chars_of, extend_bytes, has_prefix_at, string_from_chars};
use std::collections::BTreeMap;
use std::path::{Path, PathBuf};

verus! {

/// Why a Qwen tokenizer could not be built, or a text not be encoded or decoded.
#[derive(Debug, Clone, Copy, PartialEq, Eq, Structural)]
pub enum QwenError {
    /// `vocab.json` is not a JSON object from token texts to 32-bit ids.
    VocabJson,
    /// `vocab.json` holds no entries.
    EmptyVocab,
    /// The merge line with this (1-based) number has no space between its two parts.
    MergeMissingSeparator(usize),
    /// `merges.txt` holds no merges.
    NoMerges,
    /// An added token has no numeric `id`.
    AddedTokenMissingId,
    /// An added token has no `content` text.
    AddedTokenMissingContent,
    /// There is no `<|endoftext|>` token to start a sequence with.
    MissingBos,
    /// An added token id has no text.
    MissingAddedTokenContent(u32),
    /// A token id has no vocabulary entry.
    MissingTokenId(u32),
    /// A vocabulary entry holds a character outside the byte-level alphabet.
    NonByteLevelChar { id: u32, ch: char },
    /// A byte-level piece that BPE left over is not in the vocabulary.
    MissingVocabPiece,
}

// ---------------------------------------------------------------------------
// vocab.json
// ---------------------------------------------------------------------------

/// `serde_json::Error`, carried through unread.
#[verifier::external_type_specification]
#[verifier::external_body]
pub struct ExSerdeJsonError(serde_json::Error);

/// The entries that `serde_json` reads from a `vocab.json` text as a map from token
/// text to 32-bit id, in increasing order of token text; `None` when the text is no
/// such map.
pub uninterp spec fn vocab_json_map(json: Seq<char>) -> Option<Seq<(Seq<char>, u32)>>;

/// `serde_json::from_str` into a `BTreeMap<String, u32>`: the map's entries in key
/// order, or the parse error. What the parse accepts is serde_json's and is only named.
#[verifier::external_body]
fn read_vocab_json(json: &str) -> (r: Result<Vec<(String, u32)>, serde_json::Error>)
    ensures
        match r {
            Ok(v) => vocab_json_map(json@) == Some(token_order(v@)),
            Err(_) => vocab_json_map(json@) is None,
        },
{
    match serde_json::from_str::<BTreeMap<String, u32>>(json) {
        Ok(map) => Ok(map.into_iter().collect()),
        Err(e) => Err(e),
    }
}

/// `slots` with `value` at `id`, grown with empty slots first when it is too short.
pub open spec fn set_slot(slots: Seq<Option<Seq<char>>>, id: int, value: Option<Seq<char>>) -> Seq<
    Option<Seq<char>>,
> {
    if id < slots.len() {
        slots.update(id, value)
    } else {
        (slots + Seq::new((id + 1 - slots.len()) as nat, |k: int| None::<Seq<char>>)).update(id, value)
    }
}

/// The token text of each id after the first `n` vocabulary entries are placed.
pub open spec fn vocab_slots(vocab: Seq<(Seq<char>, u32)>, n: int) -> Seq<Option<Seq<char>>>
    decreases n,
{
    if n <= 0 {
        seq![]
    } else {
        set_slot(vocab_slots(vocab, n - 1), vocab[n - 1].1 as int, Some(vocab[n - 1].0))
    }
}

/// The vocabulary lookup entries: each token's UTF-8 bytes with its id.
pub open spec fn vocab_entries(vocab: Seq<(Seq<char>, u32)>) -> Seq<(Seq<u8>, u64)> {
    vocab.map_values(|e: (Seq<char>, u32)| (vstd::utf8::encode_utf8(e.0), e.1 as u64))
}

/// Places `value` at `id` in `slots`.
fn put_slot(slots: &mut Vec<Option<String>>, id: u32, value: String)
    ensures
        final(slots)@.map_values(|o: Option<String>| opt_text(o)) == set_slot(
            old(slots)@.map_values(|o: Option<String>| opt_text(o)),
            id as int,
            Some(value@),
        ),
{
    let ghost start = old(slots)@.map_values(|o: Option<String>| opt_text(o));
    let index = id as usize;
    while slots.len() <= index
        invariant
            old(slots)@.len() <= slots@.len(),
            forall|k: int| 0 <= k < old(slots)@.len() ==> #[trigger] slots@[k] == old(slots)@[k],
            forall|k: int| old(slots)@.len() <= k < slots@.len() ==> #[trigger] slots@[k] is None,
            slots@.len() <= index + 1 || slots@.len() == old(slots)@.len(),
        decreases index + 1 - slots@.len(),
    {
        slots.push(None);
    }
    slots.set(index, Some(value));
    proof {
        let after = slots@.map_values(|o: Option<String>| opt_text(o));
        assert(after =~= set_slot(start, id as int, Some(value@)));
    }
}

/// The text in a slot.
pub open spec fn opt_text(o: Option<String>) -> Option<Seq<char>> {
    match o {
        Some(s) => Some(s@),
        None => None,
    }
}

// ---------------------------------------------------------------------------
// merges.txt
// ---------------------------------------------------------------------------

/// Where the line that starts at `i` ends: at the next `\n`, or at the end.
pub open spec fn line_end(s: Seq<char>, i: int) -> int
    decreases s.len() - i,
{
    if i < 0 || i >= s.len() || s[i] == '\n' {
        i
    } else {
        line_end(s, i + 1)
    }
}

pub proof fn lemma_line_end_bounds(s: Seq<char>, i: int)
    requires
        0 <= i <= s.len(),
    ensures
        i <= line_end(s, i) <= s.len(),
        line_end(s, i) < s.len() ==> s[line_end(s, i)] == '\n',
        forall|k: int| i <= k < line_end(s, i) ==> #[trigger] s[k] != '\n',
    decreases s.len() - i,
{
    if i < s.len() && s[i] != '\n' {
        lemma_line_end_bounds(s, i + 1);
    }
}

/// The text of the line from `i` to `e`, as `str::lines` gives it: a `\r` before the
/// `\n` that ends it is dropped.
pub open spec fn line_text(s: Seq<char>, i: int, e: int) -> Seq<char> {
    let raw = s.subrange(i, e);
    if e < s.len() && raw.len() > 0 && raw.last() == '\r' {
        raw.drop_last()
    } else {
        raw
    }
}

/// `s` without its trailing whitespace.
pub open spec fn trim_end_chars(s: Seq<char>) -> Seq<char>
    decreases s.len(),
{
    if s.len() > 0 && char_is_whitespace(s.last()) {
        trim_end_chars(s.drop_last())
    } else {
        s
    }
}

/// The first position at or after `p` that holds a space, if any.
pub open spec fn first_space(line: Seq<char>, p: int) -> Option<int>
    decreases line.len() - p,
{
    if p < 0 || p >= line.len() {
        None
    } else if line[p] == ' ' {
        Some(p)
    } else {
        first_space(line, p + 1)
    }
}

/// The marker that starts the header line of `merges.txt`.
pub open spec fn version_marker() -> Seq<char> {
    seq!['#', 'v', 'e', 'r', 's', 'i', 'o', 'n']
}

/// The merges of the lines from `i` on, the first of them having number `rank`: each
/// line's left and right parts with its number. Empty lines and lines that start with
/// the version marker are passed over, but they are counted.
pub open spec fn merges_from(s: Seq<char>, i: int, rank: int) -> Result<Seq<(Seq<char>, Seq<char>, int)>, QwenError>
    decreases s.len() + 1 - i,
{
    if i < 0 || i >= s.len() {
        Ok(seq![])
    } else {
        let e = line_end(s, i);
        proof {
            lemma_line_end_bounds(s, i);
        }
        let line = trim_end_chars(line_text(s, i, e));
        let rest = merges_from(s, e + 1, rank + 1);
        if line.len() == 0 || has_prefix_at(line, 0, version_marker()) {
            rest
        } else {
            match first_space(line, 0) {
                None => Err(QwenError::MergeMissingSeparator((rank + 1) as usize)),
                Some(p) => match rest {
                    Ok(more) => Ok(seq![(line.subrange(0, p), line.subrange(p + 1, line.len() as int), rank)] + more),
                    Err(e) => Err(e),
                },
            }
        }
    }
}

/// The merges of the lines from `i` on have ranks from `rank` on that grow strictly
/// with the line: a line further down merges later.
proof fn lemma_merges_from_ranks(s: Seq<char>, i: int, rank: int)
    ensures
        merges_from(s, i, rank) matches Ok(m) ==> (forall|k: int| 0 <= k < m.len() ==> rank <= #[trigger] m[k].2)
            && (forall|a: int, b: int| 0 <= a < b < m.len() ==> #[trigger] m[a].2 < #[trigger] m[b].2),
    decreases s.len() + 1 - i,
{
    if 0 <= i < s.len() {
        let e = line_end(s, i);
        lemma_line_end_bounds(s, i);
        lemma_merges_from_ranks(s, e + 1, rank + 1);
        let line = trim_end_chars(line_text(s, i, e));
        if !(line.len() == 0 || has_prefix_at(line, 0, version_marker())) {
            if let Some(p) = first_space(line, 0) {
                if let Ok(more) = merges_from(s, e + 1, rank + 1) {
                    let head = (line.subrange(0, p), line.subrange(p + 1, line.len() as int), rank);
                    let m = seq![head] + more;
                    assert forall|k: int| 0 <= k < m.len() implies rank <= #[trigger] m[k].2 by {
                        if k > 0 {
                            assert(m[k] == more[k - 1]);
                        }
                    }
                    assert forall|a: int, b: int| 0 <= a < b < m.len() implies #[trigger] m[a].2 < #[trigger] m[b].2 by {
                        assert(m[b] == more[b - 1]);
                        if a > 0 {
                            assert(m[a] == more[a - 1]);
                        }
                    }
                }
            }
        }
    }
}

/// The ranks of `merges.txt` follow its lines: every rank is at least zero, and a
/// merge on a later line has a higher rank, so it is joined later.
pub proof fn lemma_merge_ranks_follow_lines(s: Seq<char>)
    ensures
        spec_merge_ranks(s) matches Ok(m) ==> (forall|k: int| 0 <= k < m.len() ==> 0 <= #[trigger] m[k].2) && (forall|
            a: int,
            b: int,
        | 0 <= a < b < m.len() ==> #[trigger] m[a].2 < #[trigger] m[b].2),
{
    lemma_merges_from_ranks(s, 0, 0);
}

/// The merges of a `merges.txt` text, or why it has none.
pub open spec fn spec_merge_ranks(s: Seq<char>) -> Result<Seq<(Seq<char>, Seq<char>, int)>, QwenError> {
    match merges_from(s, 0, 0) {
        Err(e) => Err(e),
        Ok(m) => if m.len() == 0 {
            Err(QwenError::NoMerges)
        } else {
            Ok(m)
        },
    }
}

/// The lookup key of a merge pair: the two parts' UTF-8 bytes around a 0xFF byte,
/// which UTF-8 never holds.
pub open spec fn merge_key(left: Seq<char>, right: Seq<char>) -> Seq<u8> {
    vstd::utf8::encode_utf8(left) + seq![0xffu8] + vstd::utf8::encode_utf8(right)
}

/// The merge lookup entries: each pair's key with its rank.
pub open spec fn merge_entries(merges: Seq<(Seq<char>, Seq<char>, int)>) -> Seq<(Seq<u8>, u64)> {
    merges.map_values(|m: (Seq<char>, Seq<char>, int)| (merge_key(m.0, m.1), m.2 as u64))
}

/// The lookup key of a merge pair.
fn merge_key_bytes(left: &str, right: &str) -> (r: Vec<u8>)
    ensures
        r@ == merge_key(left@, right@),
{
    let mut key: Vec<u8> = Vec::new();
    extend_bytes(&mut key, left.as_bytes());
    key.push(0xff);
    extend_bytes(&mut key, right.as_bytes());
    proof {
        assert(key@ =~= merge_key(left@, right@));
    }
    key
}

/// `line` without its trailing whitespace: the length that is kept.
fn trimmed_len(line: &[char]) -> (r: usize)
    ensures
        r <= line@.len(),
        trim_end_chars(line@) == line@.subrange(0, r as int),
{
    let mut end = line.len();
    proof {
        assert(line@.subrange(0, end as int) =~= line@);
    }
    while end > 0 && whitespace(line[end - 1])
        invariant
            end <= line@.len(),
            trim_end_chars(line@) == trim_end_chars(line@.subrange(0, end as int)),
        decreases end,
    {
        proof {
            assert(line@.subrange(0, end as int).drop_last() =~= line@.subrange(0, end - 1));
        }
        end = end - 1;
    }
    end
}

/// Reads the merge ranks of a `merges.txt` text: each pair's rank is the number of
/// its line, counted from zero; a later line with the same pair wins.
pub fn parse_merge_ranks(merges: &str) -> (r: Result<ByteTable, QwenError>)
    ensures
        match spec_merge_ranks(merges@) {
            Ok(m) => r matches Ok(t) && t.entries() == merge_entries(m),
            Err(e) => r matches Err(x) && x == e,
        },
{
    let chars = chars_of(merges);
    let n = chars.len();
    let ghost s = chars@;
    let marker: Vec<char> = vec!['#', 'v', 'e', 'r', 's', 'i', 'o', 'n'];
    proof {
        assert(marker@ =~= version_marker());
    }
    let mut table = ByteTable::new();
    let mut count: usize = 0;
    let ghost mut acc: Seq<(Seq<char>, Seq<char>, int)> = seq![];
    let mut i: usize = 0;
    let mut rank: usize = 0;
    proof {
        assert(merges_from(s, 0, 0) == match merges_from(s, i as int, rank as int) {
            Ok(more) => Ok(acc + more),
            Err(e) => Err::<Seq<(Seq<char>, Seq<char>, int)>, QwenError>(e),
        }) by {
            if let Ok(more) = merges_from(s, 0, 0) {
                assert(acc + more =~= more);
            }
        }
    }
    while i < n
        invariant
            s == chars@,
            s == merges@,
            n == s.len(),
            marker@ == version_marker(),
            i <= n,
            rank <= i,
            count == acc.len(),
            count <= rank,
            table.entries() == merge_entries(acc),
            merges_from(s, 0, 0) == match merges_from(s, i as int, rank as int) {
                Ok(more) => Ok(acc + more),
                Err(e) => Err::<Seq<(Seq<char>, Seq<char>, int)>, QwenError>(e),
            },
        decreases n - i,
    {
        proof {
            lemma_line_end_bounds(s, i as int);
        }
        let mut e = i;
        while e < n && chars[e] != '\n'
            invariant
                s == chars@,
                n == s.len(),
                i <= e <= n,
                line_end(s, e as int) == line_end(s, i as int),
            decreases n - e,
        {
            e = e + 1;
        }
        let mut raw_end = e;
        if e < n && e > i && chars[e - 1] == '\r' {
            raw_end = e - 1;
        }
        let raw = &chars.as_slice()[i..raw_end];
        proof {
            assert(raw@ == line_text(s, i as int, e as int));
        }
        let kept = trimmed_len(raw);
        let line = &raw[0..kept];
        let ghost line_view = trim_end_chars(line_text(s, i as int, e as int));
        proof {
            assert(line@ == line_view);
        }
        let next_i = if e < n { e + 1 } else { n };
        let ghost old_acc = acc;
        proof {
            assert(merges_from(s, next_i as int, rank + 1) == merges_from(s, e + 1, rank + 1));
        }
        if kept == 0 || crate::text::chars_match_at(line, 0, marker.as_slice()) {
        } else {
            let mut p: usize = 0;
            while p < kept && line[p] != ' '
                invariant
                    kept == line@.len(),
                    p <= kept,
                    first_space(line@, p as int) == first_space(line@, 0),
                decreases kept - p,
            {
                p = p + 1;
            }
            if p == kept {
                proof {
                    assert(first_space(line_view, 0) is None);
                    assert(merges_from(s, i as int, rank as int) == Err::<Seq<(Seq<char>, Seq<char>, int)>, QwenError>(
                        QwenError::MergeMissingSeparator((rank + 1) as usize),
                    ));
                }
                return Err(QwenError::MergeMissingSeparator(rank + 1));
            }
            let left = string_from_chars(&line[0..p]);
            let right = string_from_chars(&line[p + 1..kept]);
            let key = merge_key_bytes(left.as_str(), right.as_str());
            table.push(key, rank as u64);
            count = count + 1;
            proof {
                acc = acc.push((line_view.subrange(0, p as int), line_view.subrange(p + 1, kept as int), rank as int));
                assert(table.entries() =~= merge_entries(acc));
                if let Ok(more) = merges_from(s, next_i as int, rank + 1) {
                    assert(old_acc + (seq![acc.last()] + more) =~= acc + more);
                }
            }
        }
        i = next_i;
        rank = rank + 1;
    }
    proof {
        assert(merges_from(s, i as int, rank as int) == Ok::<Seq<(Seq<char>, Seq<char>, int)>, QwenError>(seq![]));
        assert(acc + Seq::<(Seq<char>, Seq<char>, int)>::empty() =~= acc);
    }
    if count == 0 {
        return Err(QwenError::NoMerges);
    }
    Ok(table)
}

// ---------------------------------------------------------------------------
// Added tokens and the tokenizer
// ---------------------------------------------------------------------------

/// One entry of the `added_tokens` list of `tokenizer.json`, as read: its `id` when
/// that is an unsigned integer, its `content` when that is a string, and its
/// `special` flag when that is a boolean.
#[derive(Debug, Clone, PartialEq, Eq)]
pub struct AddedToken {
    pub id: Option<u64>,
    pub content: Option<String>,
    pub special: Option<bool>,
}

impl AddedToken {
    /// The entry's fields as plain values.
    pub open spec fn fields(self) -> (Option<u64>, Option<Seq<char>>, Option<bool>) {
        (self.id, opt_text(self.content), self.special)
    }
}

/// The added token entries as plain values.
pub open spec fn added_fields(tokens: Seq<AddedToken>) -> Seq<(Option<u64>, Option<Seq<char>>, Option<bool>)> {
    tokens.map_values(|t: AddedToken| t.fields())
}

/// What the first `n` added tokens make of the id slots `slots`: the slots with each
/// token's text at its id (truncated to 32 bits), the tokens with their ids in list
/// order, their ids, and the ids of those marked special; or the first entry's fault.
pub open spec fn added_from(
    tokens: Seq<(Option<u64>, Option<Seq<char>>, Option<bool>)>,
    n: int,
    slots: Seq<Option<Seq<char>>>,
) -> Result<(Seq<Option<Seq<char>>>, Seq<(Seq<char>, u32)>, Seq<u32>, Seq<u32>), QwenError>
    decreases n,
{
    if n <= 0 {
        Ok((slots, seq![], seq![], seq![]))
    } else {
        match added_from(tokens, n - 1, slots) {
            Err(e) => Err(e),
            Ok(state) => {
                let t = tokens[n - 1];
                match t.0 {
                    None => Err(QwenError::AddedTokenMissingId),
                    Some(id) => match t.1 {
                        None => Err(QwenError::AddedTokenMissingContent),
                        Some(c) => {
                            let id32 = id as u32;
                            Ok(
                                (
                                    set_slot(state.0, id32 as int, Some(c)),
                                    state.1.push((c, id32)),
                                    state.2.push(id32),
                                    if t.2 == Some(true) {
                                        state.3.push(id32)
                                    } else {
                                        state.3
                                    },
                                ),
                            )
                        },
                    },
                }
            },
        }
    }
}

pub proof fn lemma_added_from_error_sticks(
    tokens: Seq<(Option<u64>, Option<Seq<char>>, Option<bool>)>,
    k: int,
    n: int,
    slots: Seq<Option<Seq<char>>>,
)
    requires
        0 <= k <= n,
        added_from(tokens, k, slots) is Err,
    ensures
        added_from(tokens, n, slots) == added_from(tokens, k, slots),
    decreases n - k,
{
    if k < n {
        lemma_added_from_error_sticks(tokens, k, n - 1, slots);
    }
}

/// A Qwen byte-level BPE tokenizer: the vocabulary both ways, the merge ranks, the
/// added tokens, and the byte-level alphabet both ways.
pub struct QwenByteLevelBpeTokenizer {
    vocab: ByteTable,
    id_to_token: Vec<Option<String>>,
    merge_ranks: ByteTable,
    added_tokens_by_content: Vec<(String, u32)>,
    added_token_ids: Vec<u32>,
    special_token_ids: Vec<u32>,
    byte_to_char: Vec<char>,
    char_to_byte: ByteLevelDecoder,
}

/// `r` is what building a tokenizer gives from the vocabulary entries `v`, the
/// `merges.txt` text `merges` and the added tokens `added`: an error for an empty
/// vocabulary, a bad merges line or a bad added token, and otherwise a tokenizer with
/// those tables.
pub open spec fn qwen_built_from(
    v: Seq<(Seq<char>, u32)>,
    merges: Seq<char>,
    added: Seq<AddedToken>,
    r: Result<QwenByteLevelBpeTokenizer, QwenError>,
) -> bool {
    if v.len() == 0 {
        r matches Err(x) && x == QwenError::EmptyVocab
    } else {
        match spec_merge_ranks(merges) {
            Err(e) => r matches Err(x) && x == e,
            Ok(m) => match added_from(added_fields(added), added.len() as int, vocab_slots(v, v.len() as int)) {
                Err(e) => r matches Err(x) && x == e,
                Ok(state) => r matches Ok(t) && t.spec_vocab_entries() == vocab_entries(v) && t.spec_merge_entries()
                    == merge_entries(m) && t.spec_id_to_token() == state.0 && t.spec_added_order() == sort_specials(
                    state.1,
                ) && t.spec_added_ids() == state.2 && t.spec_special_ids() == state.3,
            },
        }
    }
}

impl QwenByteLevelBpeTokenizer {
    /// The vocabulary lookup entries: token bytes with their ids.
    pub closed spec fn spec_vocab_entries(self) -> Seq<(Seq<u8>, u64)> {
        self.vocab.entries()
    }

    /// The text of each id: its vocabulary entry, or the added token with that id.
    pub closed spec fn spec_id_to_token(self) -> Seq<Option<Seq<char>>> {
        self.id_to_token@.map_values(|o: Option<String>| opt_text(o))
    }

    /// The merge lookup entries: pair keys with their ranks.
    pub closed spec fn spec_merge_entries(self) -> Seq<(Seq<u8>, u64)> {
        self.merge_ranks.entries()
    }

    /// The added tokens in the order they are tried: longest first, then in byte order.
    pub closed spec fn spec_added_order(self) -> Seq<(Seq<char>, u32)> {
        token_order(self.added_tokens_by_content@)
    }

    /// The ids of the added tokens.
    pub closed spec fn spec_added_ids(self) -> Seq<u32> {
        self.added_token_ids@
    }

    /// The ids of the added tokens marked special.
    pub closed spec fn spec_special_ids(self) -> Seq<u32> {
        self.special_token_ids@
    }

    /// The byte-level alphabet is indexed by byte.
    #[verifier::type_invariant]
    closed spec fn alphabet_indexed(self) -> bool {
        &&& self.byte_to_char@.len() == 256
        &&& forall|b: int| 0 <= b < 256 ==> #[trigger] self.byte_to_char@[b] as u32 == byte_level_code(b as u8)
    }

    /// Builds a tokenizer from the text of `vocab.json`, the text of `merges.txt`, and
    /// the added tokens of `tokenizer.json`.
    pub fn from_model_files(vocab_json: &str, merges: &str, added_tokens: &[AddedToken]) -> (r: Result<
        Self,
        QwenError,
    >)
        ensures
            match vocab_json_map(vocab_json@) {
                None => r matches Err(x) && x == QwenError::VocabJson,
                Some(v) => qwen_built_from(v, merges@, added_tokens@, r),
            },
    {
        let vocab_list = match read_vocab_json(vocab_json) {
            Ok(v) => v,
            Err(_) => {
                return Err(QwenError::VocabJson);
            },
        };
        Self::from_vocab_entries(vocab_list, merges, added_tokens)
    }

    /// Builds a tokenizer from the entries of `vocab.json` (token text and id, in the
    /// order they are placed), the text of `merges.txt`, and the added tokens of
    /// `tokenizer.json`.
    pub fn from_vocab_entries(vocab_list: Vec<(String, u32)>, merges: &str, added_tokens: &[AddedToken]) -> (r: Result<
        Self,
        QwenError,
    >)
        ensures
            qwen_built_from(token_order(vocab_list@), merges@, added_tokens@, r),
    {
        let ghost v = token_order(vocab_list@);
        if vocab_list.len() == 0 {
            return Err(QwenError::EmptyVocab);
        }
        let mut vocab = ByteTable::new();
        let mut id_to_token: Vec<Option<String>> = Vec::new();
        let mut k: usize = 0;
        proof {
            assert(vocab.entries() =~= vocab_entries(v.take(0)));
            assert(id_to_token@.map_values(|o: Option<String>| opt_text(o)) =~= vocab_slots(v, 0));
        }
        while k < vocab_list.len()
            invariant
                v == token_order(vocab_list@),
                k <= vocab_list@.len(),
                vocab.entries() == vocab_entries(v.take(k as int)),
                id_to_token@.map_values(|o: Option<String>| opt_text(o)) == vocab_slots(v, k as int),
            decreases vocab_list@.len() - k,
        {
            let token = vocab_list[k].0.clone();
            proof {
                assert(v[k as int] == (vocab_list@[k as int].0@, vocab_list@[k as int].1));
            }
            let id = vocab_list[k].1;
            let mut key: Vec<u8> = Vec::new();
            extend_bytes(&mut key, token.as_str().as_bytes());
            proof {
                assert(key@ =~= vstd::utf8::encode_utf8(v[k as int].0));
            }
            vocab.push(key, id as u64);
            put_slot(&mut id_to_token, id, token);
            proof {
                assert(v.take(k + 1) =~= v.take(k as int).push(v[k as int]));
                assert(vocab.entries() =~= vocab_entries(v.take(k + 1)));
            }
            k = k + 1;
        }
        proof {
            assert(v.take(vocab_list@.len() as int) =~= v);
        }
        let merge_ranks = match parse_merge_ranks(merges) {
            Ok(t) => t,
            Err(e) => {
                return Err(e);
            },
        };
        let ghost fields = added_fields(added_tokens@);
        let ghost slots0 = vocab_slots(v, v.len() as int);
        let mut by_content: Vec<(String, u32)> = Vec::new();
        let mut added_ids: Vec<u32> = Vec::new();
        let mut special_ids: Vec<u32> = Vec::new();
        let mut j: usize = 0;
        while j < added_tokens.len()
            invariant
                fields == added_fields(added_tokens@),
                v == token_order(vocab_list@),
                v.len() > 0,
                slots0 == vocab_slots(v, v.len() as int),
                vocab.entries() == vocab_entries(v),
                spec_merge_ranks(merges@) matches Ok(m) && merge_ranks.entries() == merge_entries(m),
                j <= added_tokens@.len(),
                added_from(fields, j as int, slots0) matches Ok(state) && state.0 == id_to_token@.map_values(
                    |o: Option<String>| opt_text(o),
                ) && state.1 == token_order(by_content@) && state.2 == added_ids@ && state.3 == special_ids@,
            decreases added_tokens@.len() - j,
        {
            let entry = &added_tokens[j];
            proof {
                assert(fields[j as int] == entry.fields());
            }
            let id = match entry.id {
                Some(id) => id,
                None => {
                    proof {
                        lemma_added_from_error_sticks(fields, j + 1, added_tokens@.len() as int, slots0);
                    }
                    return Err(QwenError::AddedTokenMissingId);
                },
            };
            let content = match &entry.content {
                Some(c) => c.clone(),
                None => {
                    proof {
                        lemma_added_from_error_sticks(fields, j + 1, added_tokens@.len() as int, slots0);
                    }
                    return Err(QwenError::AddedTokenMissingContent);
                },
            };
            let id32 = id as u32;
            put_slot(&mut id_to_token, id32, content.clone());
            by_content.push((content, id32));
            added_ids.push(id32);
            if entry.special == Some(true) {
                special_ids.push(id32);
            }
            proof {
                assert(token_order(by_content@) =~= added_from(fields, j as int, slots0)->Ok_0.1.push((content@, id32)));
            }
            j = j + 1;
        }
        let added_tokens_by_content = sort_special_ids(by_content);
        let (byte_to_char, char_to_byte) = byte_unicode_maps();
        Ok(QwenByteLevelBpeTokenizer {
            vocab,
            id_to_token,
            merge_ranks,
            added_tokens_by_content,
            added_token_ids: added_ids,
            special_token_ids: special_ids,
            byte_to_char,
            char_to_byte,
        })
    }
}

// ---------------------------------------------------------------------------
// Looking up and decoding
// ---------------------------------------------------------------------------

/// The id of the first token in `order`, from the `k`-th on, whose text is `token`.
pub open spec fn first_content_id(order: Seq<(Seq<char>, u32)>, token: Seq<char>, k: int) -> Option<u32>
    decreases order.len() - k,
{
    if k < 0 || k >= order.len() {
        None
    } else if order[k].0 == token {
        Some(order[k].1)
    } else {
        first_content_id(order, token, k + 1)
    }
}

/// The text in slot `id`, if there is one.
pub open spec fn slot_at(slots: Seq<Option<Seq<char>>>, id: u32) -> Option<Seq<char>> {
    if (id as int) < slots.len() {
        slots[id as int]
    } else {
        None
    }
}

/// The bytes the first `k` byte-level characters of `token` stand for, or the first
/// character that stands for none.
pub open spec fn byte_level_bytes(token: Seq<char>, k: int) -> Result<Seq<u8>, char>
    decreases k,
{
    if k <= 0 {
        Ok(seq![])
    } else {
        match byte_level_bytes(token, k - 1) {
            Err(c) => Err(c),
            Ok(bytes) => match byte_of_code(token[k - 1] as u32) {
                Some(b) => Ok(bytes.push(b)),
                None => Err(token[k - 1]),
            },
        }
    }
}

/// The bytes the first `n` tokens decode to, or the first token that has none.
pub open spec fn qwen_decode_bytes(
    slots: Seq<Option<Seq<char>>>,
    added: Seq<u32>,
    special: Seq<u32>,
    tokens: Seq<u32>,
    skip_special: bool,
    n: int,
) -> Result<Seq<u8>, QwenError>
    decreases n,
{
    if n <= 0 {
        Ok(seq![])
    } else {
        match qwen_decode_bytes(slots, added, special, tokens, skip_special, n - 1) {
            Err(e) => Err(e),
            Ok(bytes) => {
                let id = tokens[n - 1];
                if added.contains(id) {
                    if skip_special && special.contains(id) {
                        Ok(bytes)
                    } else {
                        match slot_at(slots, id) {
                            Some(c) => Ok(bytes + vstd::utf8::encode_utf8(c)),
                            None => Err(QwenError::MissingAddedTokenContent(id)),
                        }
                    }
                } else {
                    match slot_at(slots, id) {
                        None => Err(QwenError::MissingTokenId(id)),
                        Some(t) => match byte_level_bytes(t, t.len() as int) {
                            Ok(b) => Ok(bytes + b),
                            Err(ch) => Err(QwenError::NonByteLevelChar { id, ch }),
                        },
                    }
                }
            },
        }
    }
}

pub proof fn lemma_qwen_decode_error_sticks(
    slots: Seq<Option<Seq<char>>>,
    added: Seq<u32>,
    special: Seq<u32>,
    tokens: Seq<u32>,
    skip_special: bool,
    k: int,
    n: int,
)
    requires
        k <= n,
        qwen_decode_bytes(slots, added, special, tokens, skip_special, k) is Err,
    ensures
        qwen_decode_bytes(slots, added, special, tokens, skip_special, n) == qwen_decode_bytes(
            slots,
            added,
            special,
            tokens,
            skip_special,
            k,
        ),
    decreases n - k,
{
    if k < n {
        lemma_qwen_decode_error_sticks(slots, added, special, tokens, skip_special, k, n - 1);
    }
}

/// Whether `ids` holds `id`.
fn holds_id(ids: &Vec<u32>, id: u32) -> (r: bool)
    ensures
        r == ids@.contains(id),
{
    let mut k: usize = 0;
    while k < ids.len()
        invariant
            k <= ids@.len(),
            forall|j: int| 0 <= j < k ==> ids@[j] != id,
        decreases ids@.len() - k,
    {
        if ids[k] == id {
            return true;
        }
        k = k + 1;
    }
    false
}

impl QwenByteLevelBpeTokenizer {
    /// The id of the added token whose text is `token`, the first in the order
    /// they are tried.
    pub fn special_token_id(&self, token: &str) -> (r: Option<u32>)
        ensures
            r == first_content_id(self.spec_added_order(), token@, 0),
    {
        let ghost order = self.spec_added_order();
        let mut k: usize = 0;
        while k < self.added_tokens_by_content.len()
            invariant
                order == self.spec_added_order(),
                order == token_order(self.added_tokens_by_content@),
                k <= order.len(),
                first_content_id(order, token@, k as int) == first_content_id(order, token@, 0),
            decreases order.len() - k,
        {
            if crate::text::chars_eq(self.added_tokens_by_content[k].0.as_str(), token) {
                return Some(self.added_tokens_by_content[k].1);
            }
            k = k + 1;
        }
        None
    }

    /// The id of `<|endoftext|>`, which starts a sequence.
    pub fn bos_token_id(&self) -> (r: Option<u32>)
        ensures
            r == first_content_id(self.spec_added_order(), "<|endoftext|>"@, 0),
    {
        self.special_token_id("<|endoftext|>")
    }

    /// The id of `<|endoftext|>`, which ends a sequence.
    pub fn eos_token_id(&self) -> (r: Option<u32>)
        ensures
            r == first_content_id(self.spec_added_order(), "<|endoftext|>"@, 0),
    {
        self.special_token_id("<|endoftext|>")
    }

    /// The id of `<|im_end|>`, which ends a chat turn.
    pub fn im_end_token_id(&self) -> (r: Option<u32>)
        ensures
            r == first_content_id(self.spec_added_order(), "<|im_end|>"@, 0),
    {
        self.special_token_id("<|im_end|>")
    }

    /// `tokenizer.json` inside a model directory.
    pub fn default_qwen_path(model_dir: &Path) -> (r: PathBuf)
        ensures
            r == crate::safetensors::joined_path(model_dir, "tokenizer.json"@),
    {
        crate::safetensors::path_join(model_dir, "tokenizer.json")
    }

    /// Decodes tokens to text, leaving special added tokens out.
    pub fn decode_lossy(&self, tokens: &[u32]) -> (r: Result<String, QwenError>)
        ensures
            match qwen_decode_bytes(
                self.spec_id_to_token(),
                self.spec_added_ids(),
                self.spec_special_ids(),
                tokens@,
                true,
                tokens@.len() as int,
            ) {
                Ok(b) => r matches Ok(s) && s@ == crate::text::utf8_lossy(b) && (vstd::utf8::valid_utf8(b) ==> s@
                    == vstd::utf8::decode_utf8(b)),
                Err(e) => r matches Err(x) && x == e,
            },
    {
        self.decode_lossy_with_options(tokens, true)
    }

    /// Decodes tokens to text: added tokens as their text (special ones left out when
    /// `skip_special` is set), vocabulary tokens through the byte-level alphabet, and
    /// the bytes read as UTF-8 with invalid sequences replaced.
    pub fn decode_lossy_with_options(&self, tokens: &[u32], skip_special: bool) -> (r: Result<String, QwenError>)
        ensures
            match qwen_decode_bytes(
                self.spec_id_to_token(),
                self.spec_added_ids(),
                self.spec_special_ids(),
                tokens@,
                skip_special,
                tokens@.len() as int,
            ) {
                Ok(b) => r matches Ok(s) && s@ == crate::text::utf8_lossy(b) && (vstd::utf8::valid_utf8(b) ==> s@
                    == vstd::utf8::decode_utf8(b)),
                Err(e) => r matches Err(x) && x == e,
            },
    {
        let ghost slots = self.spec_id_to_token();
        let ghost added = self.spec_added_ids();
        let ghost special = self.spec_special_ids();
        let mut bytes: Vec<u8> = Vec::new();
        let mut n: usize = 0;
        while n < tokens.len()
            invariant
                slots == self.spec_id_to_token(),
                slots == self.id_to_token@.map_values(|o: Option<String>| opt_text(o)),
                added == self.added_token_ids@,
                special == self.special_token_ids@,
                n <= tokens@.len(),
                qwen_decode_bytes(slots, added, special, tokens@, skip_special, n as int) == Ok::<
                    Seq<u8>,
                    QwenError,
                >(bytes@),
            decreases tokens@.len() - n,
        {
            let id = tokens[n];
            let index = id as usize;
            proof {
                if (id as int) < slots.len() {
                    assert(slot_at(slots, id) == opt_text(self.id_to_token@[id as int]));
                }
            }
            if holds_id(&self.added_token_ids, id) {
                if skip_special && holds_id(&self.special_token_ids, id) {
                } else {
                    if index < self.id_to_token.len() {
                        match &self.id_to_token[index] {
                            Some(content) => {
                                extend_bytes(&mut bytes, content.as_str().as_bytes());
                            },
                            None => {
                                proof {
                                    lemma_qwen_decode_error_sticks(slots, added, special, tokens@, skip_special, n + 1, tokens@.len() as int);
                                }
                                return Err(QwenError::MissingAddedTokenContent(id));
                            },
                        }
                    } else {
                        proof {
                            lemma_qwen_decode_error_sticks(slots, added, special, tokens@, skip_special, n + 1, tokens@.len() as int);
                        }
                        return Err(QwenError::MissingAddedTokenContent(id));
                    }
                }
            } else {
                if index >= self.id_to_token.len() {
                    proof {
                        lemma_qwen_decode_error_sticks(slots, added, special, tokens@, skip_special, n + 1, tokens@.len() as int);
                    }
                    return Err(QwenError::MissingTokenId(id));
                }
                match &self.id_to_token[index] {
                    None => {
                        proof {
                            lemma_qwen_decode_error_sticks(slots, added, special, tokens@, skip_special, n + 1, tokens@.len() as int);
                        }
                        return Err(QwenError::MissingTokenId(id));
                    },
                    Some(token) => {
                        let chars = chars_of(token.as_str());
                        let ghost before = bytes@;
                        let mut c: usize = 0;
                        while c < chars.len()
                            invariant
                                c <= chars@.len(),
                                chars@ == token@,
                                slots == self.spec_id_to_token(),
                                added == self.spec_added_ids(),
                                special == self.spec_special_ids(),
                                n < tokens@.len(),
                                id == tokens@[n as int],
                                !added.contains(id),
                                slot_at(slots, id) == Some(token@),
                                qwen_decode_bytes(slots, added, special, tokens@, skip_special, n as int) == Ok::<
                                    Seq<u8>,
                                    QwenError,
                                >(before),
                                byte_level_bytes(chars@, c as int) matches Ok(bs) && bytes@ == before + bs,
                            decreases chars@.len() - c,
                        {
                            match self.char_to_byte.get(&chars[c]) {
                                Some(b) => {
                                    bytes.push(*b);
                                    proof {
                                        assert(bytes@ =~= before + byte_level_bytes(chars@, c + 1)->Ok_0);
                                    }
                                },
                                None => {
                                    proof {
                                        lemma_byte_level_error_sticks(chars@, c + 1, chars@.len() as int);
                                        lemma_qwen_decode_error_sticks(slots, added, special, tokens@, skip_special, n + 1, tokens@.len() as int);
                                    }
                                    return Err(QwenError::NonByteLevelChar { id, ch: chars[c] });
                                },
                            }
                            c = c + 1;
                        }
                    },
                }
            }
            n = n + 1;
        }
        Ok(crate::text::string_from_utf8_lossy(bytes.as_slice()))
    }
}

pub proof fn lemma_byte_level_error_sticks(token: Seq<char>, k: int, n: int)
    requires
        k <= n,
        byte_level_bytes(token, k) is Err,
    ensures
        byte_level_bytes(token, n) == byte_level_bytes(token, k),
    decreases n - k,
{
    if k < n {
        lemma_byte_level_error_sticks(token, k, n - 1);
    }
}

// ---------------------------------------------------------------------------
// Encoding
// ---------------------------------------------------------------------------

/// The rank of merging the pieces `a` and `b`, if they are a merge pair.
pub open spec fn qwen_pair_rank(merges: Seq<(Seq<u8>, u64)>, a: Seq<char>, b: Seq<char>) -> Option<int> {
    match table_get(merges, merge_key(a, b)) {
        Some(v) => Some(v as int),
        None => None,
    }
}

/// The leftmost pair among the first `k` pairs with the lowest merge rank, and that rank.
pub open spec fn qwen_best_pair(merges: Seq<(Seq<u8>, u64)>, pieces: Seq<Seq<char>>, k: int) -> Option<(int, int)>
    decreases k,
{
    if k <= 0 {
        None
    } else {
        let before = qwen_best_pair(merges, pieces, k - 1);
        match qwen_pair_rank(merges, pieces[k - 1], pieces[k]) {
            None => before,
            Some(rank) => match before {
                Some((i, best)) => if rank < best {
                    Some((k - 1, rank))
                } else {
                    before
                },
                None => Some((k - 1, rank)),
            },
        }
    }
}

/// Merges the best pair again and again until no pair is a merge pair.
pub open spec fn qwen_bpe_merge(merges: Seq<(Seq<u8>, u64)>, pieces: Seq<Seq<char>>) -> Seq<Seq<char>>
    decreases pieces.len(),
{
    if pieces.len() <= 1 {
        pieces
    } else {
        match qwen_best_pair(merges, pieces, pieces.len() - 1) {
            None => pieces,
            Some((m, _)) => if 0 <= m < pieces.len() - 1 {
                qwen_bpe_merge(merges, merge_at(pieces, m))
            } else {
                pieces
            },
        }
    }
}

/// The merge rank of the adjacent pair at `j`.
pub open spec fn qwen_rank_at(merges: Seq<(Seq<u8>, u64)>, pieces: Seq<Seq<char>>, j: int) -> Option<int> {
    qwen_pair_rank(merges, pieces[j], pieces[j + 1])
}

/// `qwen_best_pair` over the first `k` pairs picks the leftmost pair of lowest rank.
proof fn lemma_qwen_best_pair_lowest(merges: Seq<(Seq<u8>, u64)>, pieces: Seq<Seq<char>>, k: int)
    ensures
        match qwen_best_pair(merges, pieces, k) {
            None => forall|j: int| 0 <= j < k ==> #[trigger] qwen_rank_at(merges, pieces, j) is None,
            Some((i, r)) => {
                &&& 0 <= i < k
                &&& qwen_rank_at(merges, pieces, i) == Some(r)
                &&& forall|j: int|
                    0 <= j < k && #[trigger] qwen_rank_at(merges, pieces, j) is Some ==> r <= qwen_rank_at(
                        merges,
                        pieces,
                        j,
                    )->0
                &&& forall|j: int|
                    0 <= j < i && #[trigger] qwen_rank_at(merges, pieces, j) is Some ==> r < qwen_rank_at(
                        merges,
                        pieces,
                        j,
                    )->0
            },
        },
    decreases k,
{
    if k > 0 {
        lemma_qwen_best_pair_lowest(merges, pieces, k - 1);
    }
}

/// Each byte-level BPE step joins the adjacent pair whose `merges.txt` rank is the
/// lowest, the leftmost of them on a tie, and the merging stops when no adjacent pair
/// is a merge pair.
#[verifier::rlimit(40)]
pub proof fn lemma_qwen_bpe_joins_lowest_rank_pair(merges: Seq<(Seq<u8>, u64)>, pieces: Seq<Seq<char>>)
    ensures
        (forall|j: int| 0 <= j < pieces.len() - 1 ==> #[trigger] qwen_rank_at(merges, pieces, j) is None)
            ==> qwen_bpe_merge(merges, pieces) == pieces,
        (exists|j: int| 0 <= j < pieces.len() - 1 && #[trigger] qwen_rank_at(merges, pieces, j) is Some)
            ==> exists|m: int, r: int|
            {
                &&& 0 <= m < pieces.len() - 1
                &&& qwen_rank_at(merges, pieces, m) == Some(r)
                &&& (forall|j: int|
                    0 <= j < pieces.len() - 1 && #[trigger] qwen_rank_at(merges, pieces, j) is Some ==> r
                        <= qwen_rank_at(merges, pieces, j)->0)
                &&& (forall|j: int|
                    0 <= j < m && #[trigger] qwen_rank_at(merges, pieces, j) is Some ==> r < qwen_rank_at(
                        merges,
                        pieces,
                        j,
                    )->0)
                &&& qwen_bpe_merge(merges, pieces) == qwen_bpe_merge(
                    merges,
                    pieces.take(m) + seq![pieces[m] + pieces[m + 1]] + pieces.skip(m + 2),
                )
            },
{
    if pieces.len() >= 2 {
        let k = pieces.len() - 1;
        lemma_qwen_best_pair_lowest(merges, pieces, k);
        match qwen_best_pair(merges, pieces, k) {
            None => {
                if exists|j: int| 0 <= j < pieces.len() - 1 && #[trigger] qwen_rank_at(merges, pieces, j) is Some {
                    let j = choose|j: int| 0 <= j < pieces.len() - 1 && #[trigger] qwen_rank_at(merges, pieces, j) is Some;
                    assert(qwen_rank_at(merges, pieces, j) is None);
                }
            },
            Some((m, r)) => {
                assert(merge_at(pieces, m) =~= pieces.take(m) + seq![pieces[m] + pieces[m + 1]] + pieces.skip(m + 2));
                assert(qwen_bpe_merge(merges, pieces) == qwen_bpe_merge(merges, merge_at(pieces, m)));
                assert(qwen_rank_at(merges, pieces, m) == Some(r));
            },
        }
    }
}

/// The one-character pieces of `bytes` in the byte-level alphabet.
pub open spec fn byte_level_pieces(bytes: Seq<u8>) -> Seq<Seq<char>> {
    Seq::new(bytes.len(), |i: int| seq![byte_level_code(bytes[i]) as char])
}

/// The vocabulary ids of the first `n` pieces.
pub open spec fn qwen_piece_ids(vocab: Seq<(Seq<u8>, u64)>, pieces: Seq<Seq<char>>, n: int) -> Result<Seq<u32>, QwenError>
    decreases n,
{
    if n <= 0 {
        Ok(seq![])
    } else {
        match qwen_piece_ids(vocab, pieces, n - 1) {
            Err(e) => Err(e),
            Ok(ids) => match table_get(vocab, vstd::utf8::encode_utf8(pieces[n - 1])) {
                Some(v) => Ok(ids.push(v as u32)),
                None => Err(QwenError::MissingVocabPiece),
            },
        }
    }
}

pub proof fn lemma_qwen_piece_ids_error_sticks(vocab: Seq<(Seq<u8>, u64)>, pieces: Seq<Seq<char>>, k: int, n: int)
    requires
        k <= n,
        qwen_piece_ids(vocab, pieces, k) is Err,
    ensures
        qwen_piece_ids(vocab, pieces, n) == qwen_piece_ids(vocab, pieces, k),
    decreases n - k,
{
    if k < n {
        lemma_qwen_piece_ids_error_sticks(vocab, pieces, k, n - 1);
    }
}

/// The tokens of one pre-tokenized piece's bytes.
pub open spec fn qwen_bpe_ids(vocab: Seq<(Seq<u8>, u64)>, merges: Seq<(Seq<u8>, u64)>, bytes: Seq<u8>) -> Result<
    Seq<u32>,
    QwenError,
> {
    if bytes.len() == 0 {
        Ok(seq![])
    } else {
        let pieces = qwen_bpe_merge(merges, byte_level_pieces(bytes));
        qwen_piece_ids(vocab, pieces, pieces.len() as int)
    }
}

/// The tokens of the first `n` pre-tokenized pieces, or the first error.
pub open spec fn qwen_pieces_ids(
    vocab: Seq<(Seq<u8>, u64)>,
    merges: Seq<(Seq<u8>, u64)>,
    pieces: Seq<Seq<char>>,
    n: int,
) -> Result<Seq<u32>, QwenError>
    decreases n,
{
    if n <= 0 {
        Ok(seq![])
    } else {
        match qwen_pieces_ids(vocab, merges, pieces, n - 1) {
            Err(e) => Err(e),
            Ok(ids) => match qwen_bpe_ids(vocab, merges, vstd::utf8::encode_utf8(pieces[n - 1])) {
                Ok(more) => Ok(ids + more),
                Err(e) => Err(e),
            },
        }
    }
}

pub proof fn lemma_qwen_pieces_ids_error_sticks(
    vocab: Seq<(Seq<u8>, u64)>,
    merges: Seq<(Seq<u8>, u64)>,
    pieces: Seq<Seq<char>>,
    k: int,
    n: int,
)
    requires
        k <= n,
        qwen_pieces_ids(vocab, merges, pieces, k) is Err,
    ensures
        qwen_pieces_ids(vocab, merges, pieces, n) == qwen_pieces_ids(vocab, merges, pieces, k),
    decreases n - k,
{
    if k < n {
        lemma_qwen_pieces_ids_error_sticks(vocab, merges, pieces, k, n - 1);
    }
}

/// The tokens of a stretch of text that holds no added token.
pub open spec fn qwen_span_ids(vocab: Seq<(Seq<u8>, u64)>, merges: Seq<(Seq<u8>, u64)>, span: Seq<char>) -> Result<
    Seq<u32>,
    QwenError,
> {
    let pieces = pieces_from(span, 0);
    qwen_pieces_ids(vocab, merges, pieces, pieces.len() as int)
}

/// The tokens of `text` from `i` on: an added token where one starts (the first in
/// the order they are tried), else the byte-pair tokens of the text up to the next
/// added token. An empty added token never ends a step; it stops the encoding.
pub open spec fn qwen_encode_from(
    order: Seq<(Seq<char>, u32)>,
    vocab: Seq<(Seq<u8>, u64)>,
    merges: Seq<(Seq<u8>, u64)>,
    text: Seq<char>,
    i: int,
) -> Result<Seq<u32>, QwenError>
    decreases text.len() - i,
{
    if i < 0 || i >= text.len() {
        Ok(seq![])
    } else {
        match first_special_at(order, text, i, 0) {
            Some(k) => if 0 <= k < order.len() && order[k].0.len() > 0 {
                proof {
                    lemma_first_special_at_bounds(order, text, i, 0);
                }
                join_ids(Ok(seq![order[k].1]), qwen_encode_from(order, vocab, merges, text, i + order[k].0.len()))
            } else {
                Ok(seq![])
            },
            None => {
                let end = match next_special(order, text, i, order.len() as int) {
                    Some(e) => e,
                    None => text.len() as int,
                };
                if i < end <= text.len() {
                    join_ids(qwen_span_ids(vocab, merges, text.subrange(i, end)), qwen_encode_from(order, vocab, merges, text, end))
                } else {
                    Ok(seq![])
                }
            },
        }
    }
}

impl QwenByteLevelBpeTokenizer {
    /// The tokens of `text` with `<|endoftext|>` in front when `add_bos` is set.
    pub open spec fn spec_encode(self, text: Seq<char>, add_bos: bool) -> Result<Seq<u32>, QwenError> {
        let body = qwen_encode_from(self.spec_added_order(), self.spec_vocab_entries(), self.spec_merge_entries(), text, 0);
        if add_bos {
            match first_content_id(self.spec_added_order(), "<|endoftext|>"@, 0) {
                None => Err(QwenError::MissingBos),
                Some(b) => join_ids(Ok(seq![b]), body),
            }
        } else {
            body
        }
    }

    /// Whether this tokenizer can encode: no added token is empty.
    pub fn can_encode(&self) -> (r: bool)
        ensures
            r == tokens_non_empty(self.spec_added_order()),
    {
        let ghost order = self.spec_added_order();
        let mut k: usize = 0;
        while k < self.added_tokens_by_content.len()
            invariant
                order == self.spec_added_order(),
                order == token_order(self.added_tokens_by_content@),
                k <= order.len(),
                forall|j: int| 0 <= j < k ==> (#[trigger] order[j]).0.len() > 0,
            decreases order.len() - k,
        {
            let text = self.added_tokens_by_content[k].0.as_str();
            let text_bytes = text.as_bytes();
            proof {
                crate::tekken::lemma_utf8_len_zero(text@);
                assert(order[k as int].0 == text@);
            }
            if text_bytes.len() == 0 {
                return false;
            }
            k = k + 1;
        }
        true
    }

    /// The byte-pair tokens of one pre-tokenized piece, appended to `tokens`.
    fn encode_bpe_bytes(&self, bytes: &[u8], tokens: &mut Vec<u32>) -> (r: Result<(), QwenError>)
        ensures
            match qwen_bpe_ids(self.spec_vocab_entries(), self.spec_merge_entries(), bytes@) {
                Ok(ids) => r is Ok && final(tokens)@ == old(tokens)@ + ids,
                Err(e) => r == Err::<(), QwenError>(e),
            },
    {
        proof {
            use_type_invariant(self);
        }
        if bytes.len() == 0 {
            proof {
                assert(tokens@ =~= old(tokens)@ + Seq::<u32>::empty());
            }
            return Ok(());
        }
        let ghost vocab = self.spec_vocab_entries();
        let ghost merges = self.spec_merge_entries();
        let ghost target = qwen_bpe_merge(merges, byte_level_pieces(bytes@));
        let mut pieces: Vec<String> = Vec::new();
        let mut b: usize = 0;
        while b < bytes.len()
            invariant
                self.byte_to_char@.len() == 256,
                forall|c: int| 0 <= c < 256 ==> #[trigger] self.byte_to_char@[c] as u32 == byte_level_code(c as u8),
                b <= bytes@.len(),
                pieces@.len() == b,
                forall|k: int| 0 <= k < b ==> #[trigger] pieces@[k]@ == seq![byte_level_code(bytes@[k]) as char],
            decreases bytes@.len() - b,
        {
            let mut one = String::new();
            let ch = self.byte_to_char[bytes[b] as usize];
            crate::text::push_char(&mut one, ch);
            proof {
                assert(ch as u32 == byte_level_code(bytes@[b as int]));
                vstd::utf8::char_u32_cast(ch, byte_level_code(bytes@[b as int]));
                assert(one@ =~= seq![byte_level_code(bytes@[b as int]) as char]);
            }
            pieces.push(one);
            b = b + 1;
        }
        proof {
            assert(pieces@.map_values(|p: String| p@) =~= byte_level_pieces(bytes@));
        }
        while pieces.len() > 1
            invariant
                merges == self.merge_ranks.entries(),
                merges == self.spec_merge_entries(),
                qwen_bpe_merge(merges, pieces@.map_values(|p: String| p@)) == target,
            ensures
                pieces@.map_values(|p: String| p@) == target,
            decreases pieces@.len(),
        {
            let ghost view = pieces@.map_values(|p: String| p@);
            let mut best: Option<(usize, u64)> = None;
            let mut i: usize = 0;
            let last = pieces.len() - 1;
            while i < last
                invariant
                    merges == self.merge_ranks.entries(),
                    view == pieces@.map_values(|p: String| p@),
                    last == pieces@.len() - 1,
                    i <= last,
                    match qwen_best_pair(merges, view, i as int) {
                        None => best is None,
                        Some((m, rank)) => best matches Some((bm, br)) && bm == m && br == rank && m < i,
                    },
                decreases last - i,
            {
                let key = merge_key_bytes(pieces[i].as_str(), pieces[i + 1].as_str());
                proof {
                    assert(key@ == merge_key(view[i as int], view[i + 1]));
                }
                match self.merge_ranks.get(key.as_slice()) {
                    Some(rank) => {
                        let better = match best {
                            Some((_, best_rank)) => rank < best_rank,
                            None => true,
                        };
                        if better {
                            best = Some((i, rank));
                        }
                    },
                    None => {},
                }
                i = i + 1;
            }
            let merge_index = match best {
                Some((m, _)) => m,
                None => {
                    proof {
                        assert(qwen_bpe_merge(merges, view) == view);
                    }
                    break;
                },
            };
            let right = pieces.remove(merge_index + 1);
            let mut joined = pieces[merge_index].clone();
            crate::text::push_str(&mut joined, right.as_str());
            pieces.set(merge_index, joined);
            proof {
                assert(pieces@.map_values(|p: String| p@) =~= merge_at(view, merge_index as int));
            }
        }
        let ghost final_pieces = pieces@.map_values(|p: String| p@);
        let mut k: usize = 0;
        while k < pieces.len()
            invariant
                vocab == self.vocab.entries(),
                vocab == self.spec_vocab_entries(),
                merges == self.spec_merge_entries(),
                final_pieces == pieces@.map_values(|p: String| p@),
                final_pieces == target,
                target == qwen_bpe_merge(merges, byte_level_pieces(bytes@)),
                bytes@.len() > 0,
                k <= pieces@.len(),
                qwen_piece_ids(vocab, final_pieces, k as int) matches Ok(ids) && tokens@ == old(tokens)@ + ids,
            decreases pieces@.len() - k,
        {
            let piece_bytes = pieces[k].as_str().as_bytes();
            proof {
                assert(piece_bytes@ == vstd::utf8::encode_utf8(final_pieces[k as int]));
            }
            match self.vocab.get(piece_bytes) {
                Some(v) => {
                    tokens.push(v as u32);
                },
                None => {
                    proof {
                        assert(qwen_piece_ids(vocab, final_pieces, k + 1) is Err);
                        lemma_qwen_piece_ids_error_sticks(vocab, final_pieces, k + 1, final_pieces.len() as int);
                    }
                    return Err(QwenError::MissingVocabPiece);
                },
            }
            k = k + 1;
        }
        Ok(())
    }

    /// The tokens of a stretch of text that holds no added token, appended to `tokens`.
    fn encode_text_span(&self, span: &[char], tokens: &mut Vec<u32>) -> (r: Result<(), QwenError>)
        ensures
            match qwen_span_ids(self.spec_vocab_entries(), self.spec_merge_entries(), span@) {
                Ok(ids) => r is Ok && final(tokens)@ == old(tokens)@ + ids,
                Err(e) => r == Err::<(), QwenError>(e),
            },
    {
        let text = string_from_chars(span);
        let pieces = tekken_pre_tokenize(text.as_str());
        let ghost vocab = self.spec_vocab_entries();
        let ghost merges = self.spec_merge_entries();
        let ghost views = pieces@.map_values(|p: String| p@);
        let mut n: usize = 0;
        proof {
            assert(tokens@ =~= old(tokens)@ + Seq::<u32>::empty());
        }
        while n < pieces.len()
            invariant
                vocab == self.spec_vocab_entries(),
                merges == self.spec_merge_entries(),
                views == pieces@.map_values(|p: String| p@),
                views == pieces_from(span@, 0),
                n <= pieces@.len(),
                qwen_pieces_ids(vocab, merges, views, n as int) matches Ok(ids) && tokens@ == old(tokens)@ + ids,
            decreases pieces@.len() - n,
        {
            let piece_bytes = pieces[n].as_str().as_bytes();
            proof {
                assert(piece_bytes@ == vstd::utf8::encode_utf8(views[n as int]));
            }
            match self.encode_bpe_bytes(piece_bytes, tokens) {
                Ok(()) => {
                    proof {
                        assert(tokens@ =~= old(tokens)@ + qwen_pieces_ids(vocab, merges, views, n + 1)->Ok_0);
                    }
                },
                Err(e) => {
                    proof {
                        lemma_qwen_pieces_ids_error_sticks(vocab, merges, views, n + 1, views.len() as int);
                    }
                    return Err(e);
                },
            }
            n = n + 1;
        }
        Ok(())
    }

    /// Encodes text to token ids: added tokens where their text occurs, byte-level BPE
    /// tokens for the text between them, and `<|endoftext|>` first when `add_bos` is set.
    pub fn encode_lossy(&self, text: &str, add_bos: bool) -> (r: Result<Vec<u32>, QwenError>)
        requires
            tokens_non_empty(self.spec_added_order()),
        ensures
            match self.spec_encode(text@, add_bos) {
                Ok(ids) => r matches Ok(v) && v@ == ids,
                Err(e) => r == Err::<Vec<u32>, QwenError>(e),
            },
    {
        let ghost order = self.spec_added_order();
        let ghost vocab = self.spec_vocab_entries();
        let ghost merges = self.spec_merge_entries();
        let ghost goal = self.spec_encode(text@, add_bos);
        let mut tokens: Vec<u32> = Vec::new();
        if add_bos {
            match self.bos_token_id() {
                Some(bos) => tokens.push(bos),
                None => return Err(QwenError::MissingBos),
            }
        } else {
            proof {
                lemma_join_ids_empty(qwen_encode_from(order, vocab, merges, text@, 0));
                assert(tokens@ =~= Seq::<u32>::empty());
            }
        }
        let chars = chars_of(text);
        let n = chars.len();
        let mut i: usize = 0;
        while i < n
            invariant
                order == self.spec_added_order(),
                order == token_order(self.added_tokens_by_content@),
                tokens_non_empty(order),
                vocab == self.spec_vocab_entries(),
                merges == self.spec_merge_entries(),
                chars@ == text@,
                n == chars@.len(),
                i <= n,
                goal == self.spec_encode(text@, add_bos),
                join_ids(Ok(tokens@), qwen_encode_from(order, vocab, merges, chars@, i as int)) == goal,
            decreases n - i,
        {
            match first_token_at(&self.added_tokens_by_content, chars.as_slice(), i) {
                Some(k) => {
                    proof {
                        lemma_first_special_at_bounds(order, chars@, i as int, 0);
                        lemma_join_ids_assoc(
                            tokens@,
                            Ok(seq![order[k as int].1]),
                            qwen_encode_from(order, vocab, merges, chars@, i + order[k as int].0.len()),
                        );
                        assert(tokens@.push(order[k as int].1) =~= tokens@ + seq![order[k as int].1]);
                    }
                    let id = self.added_tokens_by_content[k].1;
                    let width = chars_of(self.added_tokens_by_content[k].0.as_str()).len();
                    proof {
                        assert(width == order[k as int].0.len());
                        assert(i + width <= n);
                    }
                    tokens.push(id);
                    i = i + width;
                },
                None => {
                    proof {
                        lemma_next_special_bounds(order, chars@, i as int, order.len() as int);
                    }
                    let end = match next_token_start(&self.added_tokens_by_content, chars.as_slice(), i) {
                        Some(e) => e,
                        None => n,
                    };
                    let ghost before = tokens@;
                    let ghost span = chars@.subrange(i as int, end as int);
                    proof {
                        lemma_join_ids_assoc(
                            before,
                            qwen_span_ids(vocab, merges, span),
                            qwen_encode_from(order, vocab, merges, chars@, end as int),
                        );
                    }
                    let piece = &chars.as_slice()[i..end];
                    assert(piece@ == span);
                    match self.encode_text_span(piece, &mut tokens) {
                        Ok(()) => {},
                        Err(e) => {
                            return Err(e);
                        },
                    }
                    i = end;
                },
            }
        }
        Ok(tokens)
    }
}

/// Byte-pair merging never changes the text the pieces spell.
pub proof fn lemma_qwen_bpe_keeps_text(merges: Seq<(Seq<u8>, u64)>, pieces: Seq<Seq<char>>)
    ensures
        flatten_bytes(qwen_bpe_merge(merges, pieces)) == flatten_bytes(pieces),
    decreases pieces.len(),
{
    if pieces.len() > 1 {
        if let Some((m, _)) = qwen_best_pair(merges, pieces, pieces.len() - 1) {
            if 0 <= m < pieces.len() - 1 {
                lemma_merge_keeps_bytes(pieces, m);
                lemma_qwen_bpe_keeps_text(merges, merge_at(pieces, m));
            }
        }
    }
}

} // verus!
