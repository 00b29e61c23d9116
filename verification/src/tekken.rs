//! The Tekken tokenizer of Mistral models, read from its `tekken.json`: a byte-level
//! BPE vocabulary whose merge priority is the token's rank, and special tokens that
//! occupy the ids below the first ordinary token.
use vstd::prelude::*;

use crate::byte_table::{table_get, ByteTable};
use crate::json::{
    find_bytes_from, json_field_value_start, lemma_find_from_found, parse_json_string_at, quoted,
    quoted_name, spec_field_value_start, spec_find_from, spec_json_string_at, JsonError,
};
use crate::pretokenize::{pieces_from, tekken_pre_tokenize};
use crate::safetensors::path_join;
use crate::text::{
    ascii_digit, ascii_whitespace, chars_of, is_ascii_whitespace, lemma_digit_run_bounds,
    lemma_skip_ws_bounds, parse_usize, spec_digit_run_end, spec_parse_usize, string_from_chars,
};
use std::path::{Path, PathBuf};

verus! {

/// Why a Tekken vocabulary could not be read or a text not be encoded or decoded.
#[derive(Debug, Clone, Copy, PartialEq, Eq, Structural)]
pub enum TekkenError {
    Json(JsonError),
    /// The vocabulary lists no ranks.
    NoVocabRanks,
    /// A `token_bytes` value holds a byte that is not base64.
    InvalidBase64(u8),
    /// A vocabulary rank of `usize::MAX` leaves no room for the table that holds it.
    RankOverflow,
    /// A special token id has no text.
    MissingSpecialToken(usize),
    /// An ordinary token id has no bytes.
    MissingOrdinaryToken { token: usize, rank: usize },
    /// The vocabulary has no `<s>` token to start a sequence with.
    MissingBos,
    /// A byte string that BPE left over is not in the vocabulary.
    MissingOrdinaryBytes,
}

// ---------------------------------------------------------------------------
// Field reading
// ---------------------------------------------------------------------------

/// The number in the field whose name starts at `field_pos`: a run of ASCII digits.
pub open spec fn spec_usize_at_field(s: Seq<u8>, field_pos: int, field: Seq<u8>) -> Result<usize, TekkenError> {
    match spec_field_value_start(s, field_pos, field.len() as int) {
        Err(e) => Err(TekkenError::Json(e)),
        Ok(start) => {
            let end = spec_digit_run_end(s, start);
            if end == start {
                Err(TekkenError::Json(JsonError::ExpectedNumber))
            } else {
                match spec_parse_usize(s, start, end) {
                    None => Err(TekkenError::Json(JsonError::InvalidNumber)),
                    Some(v) => Ok(v),
                }
            }
        },
    }
}

/// The string in the field whose name starts at `field_pos`.
pub open spec fn spec_string_at_field(s: Seq<u8>, field_pos: int, field: Seq<u8>) -> Result<Seq<char>, TekkenError> {
    match spec_field_value_start(s, field_pos, field.len() as int) {
        Err(e) => Err(TekkenError::Json(e)),
        Ok(start) => match spec_json_string_at(s, start) {
            Err(e) => Err(TekkenError::Json(e)),
            Ok((v, _)) => Ok(v),
        },
    }
}

fn parse_usize_at_field(json: &[u8], field_pos: usize, field: &[u8]) -> (r: Result<usize, TekkenError>)
    requires
        field_pos + field@.len() + 2 <= json@.len(),
    ensures
        r == spec_usize_at_field(json@, field_pos as int, field@),
{
    let start = match json_field_value_start(json, field_pos, field) {
        Ok(i) => i,
        Err(e) => {
            return Err(TekkenError::Json(e));
        },
    };
    proof {
        lemma_digit_run_bounds(json@, start as int);
    }
    let mut i = start;
    while i < json.len() && ascii_digit(json[i])
        invariant
            start <= i <= json@.len(),
            spec_digit_run_end(json@, i as int) == spec_digit_run_end(json@, start as int),
        decreases json@.len() - i,
    {
        i = i + 1;
    }
    if i == start {
        return Err(TekkenError::Json(JsonError::ExpectedNumber));
    }
    match parse_usize(json, start, i) {
        Some(v) => Ok(v),
        None => Err(TekkenError::Json(JsonError::InvalidNumber)),
    }
}

fn parse_string_at_field(json: &[u8], field_pos: usize, field: &[u8]) -> (r: Result<String, TekkenError>)
    requires
        field_pos + field@.len() + 2 <= json@.len(),
        spec_string_at_field(json@, field_pos as int, field@) != Err::<Seq<char>, TekkenError>(
            TekkenError::Json(JsonError::EscapeSplitsCharacter),
        ),
    ensures
        match spec_string_at_field(json@, field_pos as int, field@) {
            Ok(v) => r matches Ok(text) && text@ == v,
            Err(e) => r == Err::<String, TekkenError>(e),
        },
{
    let start = match json_field_value_start(json, field_pos, field) {
        Ok(i) => i,
        Err(e) => {
            return Err(TekkenError::Json(e));
        },
    };
    match parse_json_string_at(json, start) {
        Ok((value, _)) => Ok(value),
        Err(e) => Err(TekkenError::Json(e)),
    }
}

/// The first offset at or after `start` where the quoted name `field` occurs.
pub open spec fn spec_find_field_after(s: Seq<u8>, start: int, field: Seq<u8>) -> Result<int, TekkenError> {
    match spec_find_from(s, quoted(field), start) {
        Some(p) => Ok(p),
        None => Err(TekkenError::Json(JsonError::MissingField)),
    }
}

fn find_field_after(json: &[u8], start: usize, field: &[u8]) -> (r: Result<usize, TekkenError>)
    ensures
        spec_find_field_after(json@, start as int, field@) == match r {
            Ok(p) => Ok(p as int),
            Err(e) => Err::<int, TekkenError>(e),
        },
        r matches Ok(p) ==> start <= p && p + field@.len() + 2 <= json@.len(),
{
    let needle = quoted_name(field);
    proof {
        lemma_find_from_found(json@, needle@, start as int);
    }
    match find_bytes_from(json, needle.as_slice(), start) {
        Some(p) => Ok(p),
        None => Err(TekkenError::Json(JsonError::MissingField)),
    }
}

/// The number in the first field named `field`.
pub open spec fn spec_usize_field(s: Seq<u8>, field: Seq<u8>) -> Result<usize, TekkenError> {
    match spec_find_field_after(s, 0, field) {
        Err(e) => Err(e),
        Ok(p) => spec_usize_at_field(s, p, field),
    }
}

fn parse_usize_field(json: &[u8], field: &[u8]) -> (r: Result<usize, TekkenError>)
    ensures
        r == spec_usize_field(json@, field@),
{
    let p = find_field_after(json, 0, field)?;
    parse_usize_at_field(json, p, field)
}

// ---------------------------------------------------------------------------
// Base64
// ---------------------------------------------------------------------------

/// The six bits a base64 digit stands for.
pub open spec fn base64_value(b: u8) -> Option<u8> {
    if 0x41 <= b <= 0x5a {
        Some((b - 0x41) as u8)
    } else if 0x61 <= b <= 0x7a {
        Some((b - 0x61 + 26) as u8)
    } else if 0x30 <= b <= 0x39 {
        Some((b - 0x30 + 52) as u8)
    } else if b == 0x2b {
        Some(62)
    } else if b == 0x2f {
        Some(63)
    } else {
        None
    }
}

/// Decodes base64 digits from `i` on, with `bits` undecoded bits (fewer than eight)
/// in the low end of `buffer` and `out` decoded so far; whitespace is skipped and
/// `=` ends the input.
pub open spec fn spec_base64_from(s: Seq<u8>, i: int, buffer: u32, bits: u32, out: Seq<u8>) -> Result<Seq<u8>, TekkenError>
    decreases s.len() - i,
{
    if i < 0 || i >= s.len() || s[i] == 0x3d {
        Ok(out)
    } else if is_ascii_whitespace(s[i]) {
        spec_base64_from(s, i + 1, buffer, bits, out)
    } else {
        match base64_value(s[i]) {
            None => Err(TekkenError::InvalidBase64(s[i])),
            Some(v) => {
                let next = (buffer << 6u32) | (v as u32);
                if bits + 6 >= 8 {
                    let left = (bits + 6 - 8) as u32;
                    spec_base64_from(s, i + 1, next, left, out.push(((next >> left) & 0xff) as u8))
                } else {
                    spec_base64_from(s, i + 1, next, (bits + 6) as u32, out)
                }
            },
        }
    }
}

pub open spec fn spec_base64(s: Seq<u8>) -> Result<Seq<u8>, TekkenError> {
    spec_base64_from(s, 0, 0, 0, seq![])
}

fn base64_digit(b: u8) -> (r: Option<u8>)
    ensures
        r == base64_value(b),
{
    if 0x41 <= b && b <= 0x5a {
        Some(b - 0x41)
    } else if 0x61 <= b && b <= 0x7a {
        Some(b - 0x61 + 26)
    } else if 0x30 <= b && b <= 0x39 {
        Some(b - 0x30 + 52)
    } else if b == 0x2b {
        Some(62)
    } else if b == 0x2f {
        Some(63)
    } else {
        None
    }
}

/// Decodes base64 text; `=` ends it and whitespace is skipped.
pub fn decode_base64(input: &str) -> (r: Result<Vec<u8>, TekkenError>)
    ensures
        match spec_base64(vstd::utf8::encode_utf8(input@)) {
            Ok(v) => r matches Ok(out) && out@ == v,
            Err(e) => r == Err::<Vec<u8>, TekkenError>(e),
        },
{
    let bytes = input.as_bytes();
    let mut out: Vec<u8> = Vec::new();
    let mut buffer: u32 = 0;
    let mut bits: u32 = 0;
    let mut i: usize = 0;
    while i < bytes.len()
        invariant
            bytes@ == vstd::utf8::encode_utf8(input@),
            i <= bytes@.len(),
            bits < 8,
            spec_base64_from(bytes@, i as int, buffer, bits, out@) == spec_base64(bytes@),
        decreases bytes@.len() - i,
    {
        let byte = bytes[i];
        if byte == 0x3d {
            return Ok(out);
        }
        if ascii_whitespace(byte) {
            i = i + 1;
            continue;
        }
        let value = match base64_digit(byte) {
            Some(v) => v,
            None => {
                return Err(TekkenError::InvalidBase64(byte));
            },
        };
        buffer = (buffer << 6u32) | (value as u32);
        bits = bits + 6;
        if bits >= 8 {
            bits = bits - 8;
            out.push(((buffer >> bits) & 0xff) as u8);
        }
        i = i + 1;
    }
    Ok(out)
}

// ---------------------------------------------------------------------------
// Vocabulary and special tokens
// ---------------------------------------------------------------------------

/// The field names the vocabulary is read by.
pub open spec fn rank_field() -> Seq<u8> {
    vstd::utf8::encode_utf8("rank"@)
}

pub open spec fn token_bytes_field() -> Seq<u8> {
    vstd::utf8::encode_utf8("token_bytes"@)
}

pub open spec fn token_str_field() -> Seq<u8> {
    vstd::utf8::encode_utf8("token_str"@)
}

pub open spec fn special_tokens_field() -> Seq<u8> {
    vstd::utf8::encode_utf8("special_tokens"@)
}

pub open spec fn default_special_field() -> Seq<u8> {
    vstd::utf8::encode_utf8("default_num_special_tokens"@)
}

/// `out` with position `rank` set to `value`, grown with empty positions first when
/// it is too short.
pub open spec fn set_rank<T>(out: Seq<Option<T>>, rank: int, value: T) -> Seq<Option<T>> {
    let grown = if rank >= out.len() {
        out + Seq::new((rank + 1 - out.len()) as nat, |k: int| None::<T>)
    } else {
        out
    };
    grown.update(rank, Some(value))
}

/// The vocabulary entries from offset `i` on, with `out` read so far: each `rank`
/// field whose number reads, with the base64 `token_bytes` field after it. A rank
/// that does not read is skipped; the first missing `token_bytes` ends the list
/// once something has been read.
pub open spec fn spec_vocab_from(s: Seq<u8>, i: int, out: Seq<Option<Seq<u8>>>) -> Result<
    Seq<Option<Seq<u8>>>,
    TekkenError,
>
    decreases s.len() - i,
{
    match spec_find_from(s, quoted(rank_field()), i) {
        None => if out.len() == 0 {
            Err(TekkenError::NoVocabRanks)
        } else {
            Ok(out)
        },
        Some(rank_pos) => {
            proof {
                lemma_find_from_found(s, quoted(rank_field()), i);
            }
            match spec_usize_at_field(s, rank_pos, rank_field()) {
                Err(_) => if rank_pos + 1 > i {
                    spec_vocab_from(s, rank_pos + 1, out)
                } else {
                    Err(TekkenError::NoVocabRanks)
                },
                Ok(rank) => match spec_find_field_after(s, rank_pos, token_bytes_field()) {
                    Err(e) => if out.len() > 0 {
                        Ok(out)
                    } else {
                        Err(e)
                    },
                    Ok(tb_pos) => match spec_string_at_field(s, tb_pos, token_bytes_field()) {
                        Err(e) => Err(e),
                        Ok(text) => match spec_base64(vstd::utf8::encode_utf8(text)) {
                            Err(e) => Err(e),
                            Ok(bytes) => {
                                proof {
                                    lemma_find_from_found(s, quoted(token_bytes_field()), rank_pos);
                                }
                                if rank == usize::MAX {
                                    Err(TekkenError::RankOverflow)
                                } else if tb_pos + token_bytes_field().len() + 2 > i {
                                    spec_vocab_from(
                                        s,
                                        tb_pos + token_bytes_field().len() + 2,
                                        set_rank(out, rank as int, bytes),
                                    )
                                } else {
                                    Err(TekkenError::NoVocabRanks)
                                }
                            },
                        },
                    },
                },
            }
        },
    }
}

/// The bytes of each ordinary token, indexed by rank.
pub open spec fn spec_vocab(s: Seq<u8>) -> Result<Seq<Option<Seq<u8>>>, TekkenError> {
    spec_vocab_from(s, 0, seq![])
}

/// Sets position `rank` of `out`, growing it with empty positions when needed.
fn set_rank_bytes(out: &mut Vec<Option<Vec<u8>>>, rank: usize, value: Vec<u8>)
    requires
        rank < usize::MAX,
    ensures
        final(out)@.map_values(|o: Option<Vec<u8>>| opt_bytes(o)) == set_rank(
            old(out)@.map_values(|o: Option<Vec<u8>>| opt_bytes(o)),
            rank as int,
            value@,
        ),
{
    let ghost start = out@.map_values(|o: Option<Vec<u8>>| opt_bytes(o));
    let ghost n0 = out@.len();
    while out.len() <= rank
        invariant
            n0 == old(out)@.len(),
            start == old(out)@.map_values(|o: Option<Vec<u8>>| opt_bytes(o)),
            rank < usize::MAX,
            out@.len() <= rank + 1 || out@.len() == n0,
            out@.len() >= n0,
            forall|k: int| 0 <= k < n0 ==> #[trigger] out@[k] == old(out)@[k],
            forall|k: int| n0 <= k < out@.len() ==> #[trigger] out@[k] is None,
        decreases rank + 1 - out@.len(),
    {
        out.push(None);
    }
    out.set(rank, Some(value));
    proof {
        assert(out@.map_values(|o: Option<Vec<u8>>| opt_bytes(o)) =~= set_rank(start, rank as int, value@));
    }
}

/// An optional byte vector seen as a sequence.
pub open spec fn opt_bytes(o: Option<Vec<u8>>) -> Option<Seq<u8>> {
    match o {
        Some(v) => Some(v@),
        None => None,
    }
}

/// An optional string seen as characters.
pub open spec fn opt_chars(o: Option<String>) -> Option<Seq<char>> {
    match o {
        Some(v) => Some(v@),
        None => None,
    }
}

/// Reads the vocabulary's token bytes, indexed by rank.
pub fn parse_vocab_token_bytes(json: &str) -> (r: Result<Vec<Option<Vec<u8>>>, TekkenError>)
    requires
        spec_vocab(vstd::utf8::encode_utf8(json@)) != Err::<Seq<Option<Seq<u8>>>, TekkenError>(
            TekkenError::Json(JsonError::EscapeSplitsCharacter),
        ),
        spec_vocab(vstd::utf8::encode_utf8(json@)) != Err::<Seq<Option<Seq<u8>>>, TekkenError>(
            TekkenError::RankOverflow,
        ),
    ensures
        match spec_vocab(vstd::utf8::encode_utf8(json@)) {
            Ok(v) => r matches Ok(out) && out@.map_values(|o: Option<Vec<u8>>| opt_bytes(o)) == v,
            Err(e) => r matches Err(re) && re == e,
        },
{
    let bytes = json.as_bytes();
    let n = bytes.len();
    let rank_name = "rank".as_bytes();
    let token_bytes_name = "token_bytes".as_bytes();
    let mut out: Vec<Option<Vec<u8>>> = Vec::new();
    let mut i: usize = 0;
    proof {
        assert(out@.map_values(|o: Option<Vec<u8>>| opt_bytes(o)) =~= Seq::<Option<Seq<u8>>>::empty());
    }
    loop
        invariant
            bytes@ == vstd::utf8::encode_utf8(json@),
            n == bytes@.len(),
            rank_name@ == rank_field(),
            token_bytes_name@ == token_bytes_field(),
            i <= bytes@.len() + 1,
            spec_vocab_from(bytes@, i as int, out@.map_values(|o: Option<Vec<u8>>| opt_bytes(o))) == spec_vocab(
                bytes@,
            ),
            spec_vocab(bytes@) != Err::<Seq<Option<Seq<u8>>>, TekkenError>(
                TekkenError::Json(JsonError::EscapeSplitsCharacter),
            ),
            spec_vocab(bytes@) != Err::<Seq<Option<Seq<u8>>>, TekkenError>(TekkenError::RankOverflow),
        decreases bytes@.len() + 1 - i,
    {
        let ghost view = out@.map_values(|o: Option<Vec<u8>>| opt_bytes(o));
        let rank_pos = match find_field_after(bytes, i, rank_name) {
            Ok(p) => p,
            Err(_) => {
                if out.len() == 0 {
                    return Err(TekkenError::NoVocabRanks);
                }
                return Ok(out);
            },
        };
        let rank = match parse_usize_at_field(bytes, rank_pos, rank_name) {
            Ok(r) => r,
            Err(_) => {
                i = rank_pos + 1;
                continue;
            },
        };
        let tb_pos = match find_field_after(bytes, rank_pos, token_bytes_name) {
            Ok(p) => p,
            Err(e) => {
                if out.len() > 0 {
                    return Ok(out);
                }
                return Err(e);
            },
        };
        let text = parse_string_at_field(bytes, tb_pos, token_bytes_name)?;
        let token_bytes = decode_base64(text.as_str())?;
        set_rank_bytes(&mut out, rank, token_bytes);
        i = tb_pos + token_bytes_name.len() + 2;
    }
}

/// The special tokens from offset `i` on, with `out` read so far: each `rank` field
/// and the `token_str` field after it; ranks at or past `count` are ignored.
pub open spec fn spec_specials_from(s: Seq<u8>, i: int, count: usize, out: Seq<Option<Seq<char>>>) -> Result<
    Seq<Option<Seq<char>>>,
    TekkenError,
>
    decreases s.len() - i,
{
    match spec_find_from(s, quoted(rank_field()), i) {
        None => Ok(out),
        Some(rank_pos) => {
            proof {
                lemma_find_from_found(s, quoted(rank_field()), i);
            }
            match spec_usize_at_field(s, rank_pos, rank_field()) {
                Err(e) => Err(e),
                Ok(rank) => match spec_find_field_after(s, rank_pos, token_str_field()) {
                    Err(e) => Err(e),
                    Ok(ts_pos) => match spec_string_at_field(s, ts_pos, token_str_field()) {
                        Err(e) => Err(e),
                        Ok(token) => {
                            proof {
                                lemma_find_from_found(s, quoted(token_str_field()), rank_pos);
                            }
                            if ts_pos + token_str_field().len() + 2 > i {
                                spec_specials_from(
                                    s,
                                    ts_pos + token_str_field().len() + 2,
                                    count,
                                    if rank < count {
                                        out.update(rank as int, Some(token))
                                    } else {
                                        out
                                    },
                                )
                            } else {
                                Err(TekkenError::NoVocabRanks)
                            }
                        },
                    },
                },
            }
        },
    }
}

/// The text of each special token id below `count`, when the document lists it.
pub open spec fn spec_special_tokens(s: Seq<u8>, count: usize) -> Result<Seq<Option<Seq<char>>>, TekkenError> {
    let none = Seq::new(count as nat, |k: int| None::<Seq<char>>);
    match spec_find_from(s, quoted(special_tokens_field()), 0) {
        None => Ok(none),
        Some(p) => spec_specials_from(s, p, count, none),
    }
}

/// Reads the texts of the special tokens below `ordinary_token_start`.
pub fn parse_special_tokens(json: &str, ordinary_token_start: usize) -> (r: Result<Vec<Option<String>>, TekkenError>)
    requires
        spec_special_tokens(vstd::utf8::encode_utf8(json@), ordinary_token_start) != Err::<
            Seq<Option<Seq<char>>>,
            TekkenError,
        >(TekkenError::Json(JsonError::EscapeSplitsCharacter)),
    ensures
        match spec_special_tokens(vstd::utf8::encode_utf8(json@), ordinary_token_start) {
            Ok(v) => r matches Ok(out) && out@.map_values(|o: Option<String>| opt_chars(o)) == v,
            Err(e) => r matches Err(re) && re == e,
        },
{
    let bytes = json.as_bytes();
    let n = bytes.len();
    let rank_name = "rank".as_bytes();
    let token_str_name = "token_str".as_bytes();
    let mut out: Vec<Option<String>> = Vec::new();
    let mut k: usize = 0;
    while k < ordinary_token_start
        invariant
            k <= ordinary_token_start,
            out@.len() == k,
            forall|j: int| 0 <= j < k ==> #[trigger] out@[j] is None,
        decreases ordinary_token_start - k,
    {
        out.push(None);
        k = k + 1;
    }
    proof {
        assert(out@.map_values(|o: Option<String>| opt_chars(o)) =~= Seq::new(
            ordinary_token_start as nat,
            |k: int| None::<Seq<char>>,
        ));
    }
    let mut i = match find_field_after(bytes, 0, "special_tokens".as_bytes()) {
        Ok(p) => p,
        Err(_) => {
            return Ok(out);
        },
    };
    loop
        invariant
            bytes@ == vstd::utf8::encode_utf8(json@),
            n == bytes@.len(),
            rank_name@ == rank_field(),
            token_str_name@ == token_str_field(),
            out@.len() == ordinary_token_start,
            i <= bytes@.len() + 1,
            spec_specials_from(
                bytes@,
                i as int,
                ordinary_token_start,
                out@.map_values(|o: Option<String>| opt_chars(o)),
            ) == spec_special_tokens(bytes@, ordinary_token_start),
            spec_special_tokens(bytes@, ordinary_token_start) != Err::<Seq<Option<Seq<char>>>, TekkenError>(
                TekkenError::Json(JsonError::EscapeSplitsCharacter),
            ),
        decreases bytes@.len() + 1 - i,
    {
        let rank_pos = match find_field_after(bytes, i, rank_name) {
            Ok(p) => p,
            Err(_) => {
                return Ok(out);
            },
        };
        let rank = parse_usize_at_field(bytes, rank_pos, rank_name)?;
        let ts_pos = find_field_after(bytes, rank_pos, token_str_name)?;
        let token = parse_string_at_field(bytes, ts_pos, token_str_name)?;
        let ghost before = out@.map_values(|o: Option<String>| opt_chars(o));
        if rank < ordinary_token_start {
            let ghost token_view = token@;
            out.set(rank, Some(token));
            proof {
                assert(out@.map_values(|o: Option<String>| opt_chars(o)) =~= before.update(
                    rank as int,
                    Some(token_view),
                ));
            }
        }
        i = ts_pos + token_str_name.len() + 2;
    }
}

// ---------------------------------------------------------------------------
// Ordering of special tokens
// ---------------------------------------------------------------------------

/// Byte-wise lexicographic order, as `str` compares.
pub open spec fn bytes_lt(a: Seq<u8>, b: Seq<u8>) -> bool
    decreases a.len(),
{
    if a.len() == 0 {
        b.len() > 0
    } else if b.len() == 0 {
        false
    } else if a[0] != b[0] {
        a[0] < b[0]
    } else {
        bytes_lt(a.drop_first(), b.drop_first())
    }
}

/// Special tokens are tried longest first, and in byte order among equal lengths.
pub open spec fn special_before(a: Seq<char>, b: Seq<char>) -> bool {
    let x = vstd::utf8::encode_utf8(a);
    let y = vstd::utf8::encode_utf8(b);
    x.len() > y.len() || (x.len() == y.len() && bytes_lt(x, y))
}

/// The first position at or after `from` whose token comes after `x`.
pub open spec fn first_after(s: Seq<(Seq<char>, u32)>, x: Seq<char>, from: int) -> int
    decreases s.len() - from,
{
    if from < 0 || from >= s.len() || special_before(x, s[from].0) {
        from
    } else {
        first_after(s, x, from + 1)
    }
}

/// The entries in the order they are tried; equal keys keep their order.
pub open spec fn sort_specials(s: Seq<(Seq<char>, u32)>) -> Seq<(Seq<char>, u32)>
    decreases s.len(),
{
    if s.len() == 0 {
        seq![]
    } else {
        let sorted = sort_specials(s.drop_last());
        sorted.insert(first_after(sorted, s.last().0, 0), s.last())
    }
}

pub(crate) fn bytes_less(a: &[u8], b: &[u8]) -> (r: bool)
    ensures
        r == bytes_lt(a@, b@),
{
    let mut i: usize = 0;
    proof {
        assert(a@.skip(0) =~= a@);
        assert(b@.skip(0) =~= b@);
    }
    while i < a.len() && i < b.len() && a[i] == b[i]
        invariant
            i <= a@.len(),
            i <= b@.len(),
            bytes_lt(a@.skip(i as int), b@.skip(i as int)) == bytes_lt(a@, b@),
        decreases a@.len() - i,
    {
        proof {
            assert(a@.skip(i as int).drop_first() =~= a@.skip(i + 1));
            assert(b@.skip(i as int).drop_first() =~= b@.skip(i + 1));
        }
        i = i + 1;
    }
    if i == a.len() {
        i < b.len()
    } else if i == b.len() {
        false
    } else {
        a[i] < b[i]
    }
}

pub(crate) fn comes_before(a: &str, b: &str) -> (r: bool)
    ensures
        r == special_before(a@, b@),
{
    let x = a.as_bytes();
    let y = b.as_bytes();
    x.len() > y.len() || (x.len() == y.len() && bytes_less(x, y))
}

/// The special token entries in the order they are tried.
pub(crate) fn sort_special_ids(entries: Vec<(String, u32)>) -> (r: Vec<(String, u32)>)
    ensures
        r@.map_values(|e: (String, u32)| (e.0@, e.1)) == sort_specials(entries@.map_values(|e: (String, u32)| (e.0@, e.1))),
{
    let ghost input = entries@.map_values(|e: (String, u32)| (e.0@, e.1));
    let n = entries.len();
    let mut rest = entries;
    let mut sorted: Vec<(String, u32)> = Vec::new();
    let mut k: usize = 0;
    proof {
        assert(sorted@.map_values(|e: (String, u32)| (e.0@, e.1)) =~= sort_specials(input.take(0)));
    }
    while k < n
        invariant
            n == input.len(),
            k <= n,
            rest@.map_values(|e: (String, u32)| (e.0@, e.1)) == input.skip(k as int),
            sorted@.map_values(|e: (String, u32)| (e.0@, e.1)) == sort_specials(input.take(k as int)),
        decreases n - k,
    {
        let ghost rest_view = rest@.map_values(|e: (String, u32)| (e.0@, e.1));
        assert(rest_view.len() == rest@.len());
        let ghost old_rest = rest@;
        let entry = rest.remove(0);
        proof {
            assert(rest_view[0] == (entry.0@, entry.1));
            assert forall|j: int| 0 <= j < rest@.len() implies #[trigger] rest@[j] == old_rest[j + 1] by {}
            assert(rest@.map_values(|e: (String, u32)| (e.0@, e.1)) =~= rest_view.skip(1));
            assert(input.skip(k as int).skip(1) =~= input.skip(k + 1));
            assert(rest@.map_values(|e: (String, u32)| (e.0@, e.1)) =~= input.skip(k + 1));
            assert(input.take(k + 1).drop_last() =~= input.take(k as int));
            assert(input.take(k + 1).last() == input[k as int]);
            assert(input[k as int] == rest_view[0]);
        }
        let ghost sorted_view = sorted@.map_values(|e: (String, u32)| (e.0@, e.1));
        let mut p: usize = 0;
        while p < sorted.len() && !comes_before(entry.0.as_str(), sorted[p].0.as_str())
            invariant
                p <= sorted@.len(),
                sorted_view == sorted@.map_values(|e: (String, u32)| (e.0@, e.1)),
                first_after(sorted_view, entry.0@, p as int) == first_after(sorted_view, entry.0@, 0),
            decreases sorted@.len() - p,
        {
            p = p + 1;
        }
        let ghost entry_view = (entry.0@, entry.1);
        sorted.insert(p, entry);
        proof {
            assert(sorted@.map_values(|e: (String, u32)| (e.0@, e.1)) =~= sorted_view.insert(p as int, entry_view));
        }
        k = k + 1;
    }
    proof {
        assert(input.take(n as int) =~= input);
    }
    sorted
}

// ---------------------------------------------------------------------------
// The tokenizer
// ---------------------------------------------------------------------------

/// The lookup entries of the ordinary tokens among the first `n` ranks: each token's
/// bytes with its id, `rank + start` truncated to 32 bits.
pub open spec fn ordinary_entries(token_bytes: Seq<Option<Seq<u8>>>, start: usize, n: int) -> Seq<(Seq<u8>, u64)>
    decreases n,
{
    if n <= 0 {
        seq![]
    } else {
        let before = ordinary_entries(token_bytes, start, n - 1);
        match token_bytes[n - 1] {
            Some(b) => before.push((b, (((n - 1) + start) as u32) as u64)),
            None => before,
        }
    }
}

/// The special tokens that have a text, with their ids (truncated to 32 bits), by id.
pub open spec fn special_entries(specials: Seq<Option<Seq<char>>>, n: int) -> Seq<(Seq<char>, u32)>
    decreases n,
{
    if n <= 0 {
        seq![]
    } else {
        let before = special_entries(specials, n - 1);
        match specials[n - 1] {
            Some(t) => before.push((t, (n - 1) as u32)),
            None => before,
        }
    }
}

/// A Tekken tokenizer: token bytes by rank, special token texts by id, and the
/// lookup from bytes to ordinary token ids.
pub struct TekkenJsonTokenizer {
    token_bytes: Vec<Option<Vec<u8>>>,
    ordinary_token_by_bytes: ByteTable,
    ordinary_token_start: usize,
    special_tokens: Vec<Option<String>>,
    special_token_ids: Vec<(String, u32)>,
}

impl TekkenJsonTokenizer {
    /// The bytes of each ordinary token, by rank.
    pub closed spec fn spec_token_bytes(self) -> Seq<Option<Seq<u8>>> {
        self.token_bytes@.map_values(|o: Option<Vec<u8>>| opt_bytes(o))
    }

    /// The id of the first ordinary token.
    pub closed spec fn spec_start(self) -> usize {
        self.ordinary_token_start
    }

    /// The text of each special token, by id.
    pub closed spec fn spec_special_tokens(self) -> Seq<Option<Seq<char>>> {
        self.special_tokens@.map_values(|o: Option<String>| opt_chars(o))
    }

    /// The special tokens in the order they are tried when encoding.
    pub open spec fn spec_special_order(self) -> Seq<(Seq<char>, u32)> {
        sort_specials(special_entries(self.spec_special_tokens(), self.spec_special_tokens().len() as int))
    }

    /// The lookup entries, oldest first.
    pub open spec fn spec_lookup_entries(self) -> Seq<(Seq<u8>, u64)> {
        ordinary_entries(self.spec_token_bytes(), self.spec_start(), self.spec_token_bytes().len() as int)
    }

    /// The lookup and the special token order are built from the other fields.
    #[verifier::type_invariant]
    closed spec fn derived_fields_agree(self) -> bool {
        &&& self.ordinary_token_by_bytes.entries() == self.spec_lookup_entries()
        &&& self.special_token_ids@.map_values(|e: (String, u32)| (e.0@, e.1)) == self.spec_special_order()
    }
}

/// Builds the lookup from token bytes to ordinary token ids; a later rank with the
/// same bytes wins.
fn build_ordinary_token_lookup(token_bytes: &Vec<Option<Vec<u8>>>, ordinary_token_start: usize) -> (r: ByteTable)
    requires
        token_bytes@.len() + ordinary_token_start <= usize::MAX,
    ensures
        r.entries() == ordinary_entries(
            token_bytes@.map_values(|o: Option<Vec<u8>>| opt_bytes(o)),
            ordinary_token_start,
            token_bytes@.len() as int,
        ),
{
    let ghost view = token_bytes@.map_values(|o: Option<Vec<u8>>| opt_bytes(o));
    let mut table = ByteTable::new();
    let mut rank: usize = 0;
    while rank < token_bytes.len()
        invariant
            view == token_bytes@.map_values(|o: Option<Vec<u8>>| opt_bytes(o)),
            token_bytes@.len() + ordinary_token_start <= usize::MAX,
            rank <= token_bytes@.len(),
            table.entries() == ordinary_entries(view, ordinary_token_start, rank as int),
        decreases token_bytes@.len() - rank,
    {
        match &token_bytes[rank] {
            Some(bytes) => {
                let mut copy: Vec<u8> = Vec::new();
                crate::text::extend_bytes(&mut copy, bytes.as_slice());
                let id = (rank + ordinary_token_start) as u32;
                table.push(copy, id as u64);
            },
            None => {},
        }
        rank = rank + 1;
    }
    table
}

/// The special token entries with a text, by id.
fn special_token_entries(special_tokens: &Vec<Option<String>>) -> (r: Vec<(String, u32)>)
    ensures
        r@.map_values(|e: (String, u32)| (e.0@, e.1)) == special_entries(
            special_tokens@.map_values(|o: Option<String>| opt_chars(o)),
            special_tokens@.len() as int,
        ),
{
    let ghost view = special_tokens@.map_values(|o: Option<String>| opt_chars(o));
    let mut out: Vec<(String, u32)> = Vec::new();
    let mut id: usize = 0;
    while id < special_tokens.len()
        invariant
            view == special_tokens@.map_values(|o: Option<String>| opt_chars(o)),
            id <= special_tokens@.len(),
            out@.map_values(|e: (String, u32)| (e.0@, e.1)) == special_entries(view, id as int),
        decreases special_tokens@.len() - id,
    {
        match &special_tokens[id] {
            Some(token) => {
                let ghost before = out@.map_values(|e: (String, u32)| (e.0@, e.1));
                out.push((token.clone(), id as u32));
                proof {
                    assert(out@.map_values(|e: (String, u32)| (e.0@, e.1)) =~= before.push((token@, id as u32)));
                }
            },
            None => {},
        }
        id = id + 1;
    }
    out
}

/// The id of the first ordinary token that a document declares: its
/// `default_num_special_tokens` field, or zero.
pub open spec fn spec_start_of(s: Seq<u8>) -> usize {
    match spec_usize_field(s, default_special_field()) {
        Ok(v) => v,
        Err(_) => 0,
    }
}

/// The documents this reader accepts without failing inside: no `\u` escape ends
/// inside a multi-byte character, no rank is `usize::MAX`, and ids of ordinary tokens
/// stay within `usize`.
pub open spec fn tekken_readable(s: Seq<u8>) -> bool {
    let start = spec_start_of(s);
    &&& spec_vocab(s) != Err::<Seq<Option<Seq<u8>>>, TekkenError>(TekkenError::Json(JsonError::EscapeSplitsCharacter))
    &&& spec_vocab(s) != Err::<Seq<Option<Seq<u8>>>, TekkenError>(TekkenError::RankOverflow)
    &&& spec_vocab(s) is Ok ==> spec_special_tokens(s, start) != Err::<Seq<Option<Seq<char>>>, TekkenError>(
        TekkenError::Json(JsonError::EscapeSplitsCharacter),
    )
    &&& spec_vocab(s) matches Ok(v) ==> (spec_special_tokens(s, start) is Ok ==> v.len() + start <= usize::MAX)
}

/// The first special token id whose text is `token`, as a 32-bit id.
pub open spec fn first_special_id(specials: Seq<Option<Seq<char>>>, token: Seq<char>, k: int) -> Option<u32>
    decreases specials.len() - k,
{
    if k < 0 || k >= specials.len() {
        None
    } else if specials[k] == Some(token) {
        Some(k as u32)
    } else {
        first_special_id(specials, token, k + 1)
    }
}

/// The bytes the first `n` tokens decode to, or the first token that has none.
pub open spec fn spec_decode_bytes(
    token_bytes: Seq<Option<Seq<u8>>>,
    start: usize,
    specials: Seq<Option<Seq<char>>>,
    tokens: Seq<u32>,
    skip_special: bool,
    n: int,
) -> Result<Seq<u8>, TekkenError>
    decreases n,
{
    if n <= 0 {
        Ok(seq![])
    } else {
        match spec_decode_bytes(token_bytes, start, specials, tokens, skip_special, n - 1) {
            Err(e) => Err(e),
            Ok(bytes) => {
                let t = tokens[n - 1] as usize;
                if t < start {
                    if skip_special {
                        Ok(bytes)
                    } else if t < specials.len() && specials[t as int] is Some {
                        Ok(bytes + vstd::utf8::encode_utf8(specials[t as int]->Some_0))
                    } else {
                        Err(TekkenError::MissingSpecialToken(t))
                    }
                } else {
                    let rank = (t - start) as usize;
                    if rank < token_bytes.len() && token_bytes[rank as int] is Some {
                        Ok(bytes + token_bytes[rank as int]->Some_0)
                    } else {
                        Err(TekkenError::MissingOrdinaryToken { token: t, rank })
                    }
                }
            },
        }
    }
}

/// Once a token fails to decode, decoding more tokens fails the same way.
pub proof fn lemma_decode_error_sticks(
    token_bytes: Seq<Option<Seq<u8>>>,
    start: usize,
    specials: Seq<Option<Seq<char>>>,
    tokens: Seq<u32>,
    skip_special: bool,
    k: int,
    n: int,
)
    requires
        k <= n,
        spec_decode_bytes(token_bytes, start, specials, tokens, skip_special, k) is Err,
    ensures
        spec_decode_bytes(token_bytes, start, specials, tokens, skip_special, n) == spec_decode_bytes(
            token_bytes,
            start,
            specials,
            tokens,
            skip_special,
            k,
        ),
    decreases n - k,
{
    if k < n {
        lemma_decode_error_sticks(token_bytes, start, specials, tokens, skip_special, k, n - 1);
    }
}

impl TekkenJsonTokenizer {
    /// Reads a tokenizer from the text of its `tekken.json`.
    pub fn from_tekken_json(json: &str) -> (r: Result<Self, TekkenError>)
        requires
            tekken_readable(vstd::utf8::encode_utf8(json@)),
        ensures
            ({
                let s = vstd::utf8::encode_utf8(json@);
                match spec_vocab(s) {
                    Err(e) => r == Err::<Self, TekkenError>(e),
                    Ok(v) => match spec_special_tokens(s, spec_start_of(s)) {
                        Err(e) => r == Err::<Self, TekkenError>(e),
                        Ok(sp) => r matches Ok(t) && t.spec_token_bytes() == v && t.spec_start() == spec_start_of(s)
                            && t.spec_special_tokens() == sp && sp.len() == spec_start_of(s),
                    },
                }
            }),
    {
        let bytes = json.as_bytes();
        let ordinary_token_start = match parse_usize_field(bytes, "default_num_special_tokens".as_bytes()) {
            Ok(v) => v,
            Err(_) => 0,
        };
        let token_bytes = parse_vocab_token_bytes(json)?;
        let special_tokens = parse_special_tokens(json, ordinary_token_start)?;
        proof {
            lemma_special_tokens_len(vstd::utf8::encode_utf8(json@), ordinary_token_start);
            assert(token_bytes@.map_values(|o: Option<Vec<u8>>| opt_bytes(o)).len() == token_bytes@.len());
        }
        let ordinary_token_by_bytes = build_ordinary_token_lookup(&token_bytes, ordinary_token_start);
        let entries = special_token_entries(&special_tokens);
        let special_token_ids = sort_special_ids(entries);
        Ok(TekkenJsonTokenizer {
            token_bytes,
            ordinary_token_by_bytes,
            ordinary_token_start,
            special_tokens,
            special_token_ids,
        })
    }

    /// The id of the special token whose text is `token`.
    pub fn special_token_id(&self, token: &str) -> (r: Option<u32>)
        ensures
            r == first_special_id(self.spec_special_tokens(), token@, 0),
    {
        let mut k: usize = 0;
        while k < self.special_tokens.len()
            invariant
                k <= self.special_tokens@.len(),
                first_special_id(self.spec_special_tokens(), token@, k as int) == first_special_id(
                    self.spec_special_tokens(),
                    token@,
                    0,
                ),
            decreases self.special_tokens@.len() - k,
        {
            match &self.special_tokens[k] {
                Some(candidate) => {
                    if crate::text::chars_eq(candidate.as_str(), token) {
                        return Some(k as u32);
                    }
                },
                None => {},
            }
            k = k + 1;
        }
        None
    }

    /// The id of `<s>`.
    pub fn bos_token_id(&self) -> (r: Option<u32>)
        ensures
            r == first_special_id(self.spec_special_tokens(), "<s>"@, 0),
    {
        self.special_token_id("<s>")
    }

    /// The id of `</s>`.
    pub fn eos_token_id(&self) -> (r: Option<u32>)
        ensures
            r == first_special_id(self.spec_special_tokens(), "</s>"@, 0),
    {
        self.special_token_id("</s>")
    }

    /// The id of `<pad>`.
    pub fn pad_token_id(&self) -> (r: Option<u32>)
        ensures
            r == first_special_id(self.spec_special_tokens(), "<pad>"@, 0),
    {
        self.special_token_id("<pad>")
    }

    /// Decodes tokens to text, leaving special tokens out.
    pub fn decode_lossy(&self, tokens: &[u32]) -> (r: Result<String, TekkenError>)
        ensures
            match spec_decode_bytes(
                self.spec_token_bytes(),
                self.spec_start(),
                self.spec_special_tokens(),
                tokens@,
                true,
                tokens@.len() as int,
            ) {
                Ok(bytes) => r matches Ok(text) && text@ == crate::text::utf8_lossy(bytes) && (
                vstd::utf8::valid_utf8(bytes) ==> text@ == vstd::utf8::decode_utf8(bytes)),
                Err(e) => r == Err::<String, TekkenError>(e),
            },
    {
        self.decode_lossy_with_options(tokens, true)
    }

    /// Decodes tokens to text: ordinary tokens to their bytes, special tokens to their
    /// text unless `skip_special`; the bytes are read as UTF-8, replacing what is not.
    pub fn decode_lossy_with_options(&self, tokens: &[u32], skip_special: bool) -> (r: Result<String, TekkenError>)
        ensures
            match spec_decode_bytes(
                self.spec_token_bytes(),
                self.spec_start(),
                self.spec_special_tokens(),
                tokens@,
                skip_special,
                tokens@.len() as int,
            ) {
                Ok(bytes) => r matches Ok(text) && text@ == crate::text::utf8_lossy(bytes) && (
                vstd::utf8::valid_utf8(bytes) ==> text@ == vstd::utf8::decode_utf8(bytes)),
                Err(e) => r == Err::<String, TekkenError>(e),
            },
    {
        let mut bytes: Vec<u8> = Vec::new();
        let mut k: usize = 0;
        while k < tokens.len()
            invariant
                k <= tokens@.len(),
                spec_decode_bytes(
                    self.spec_token_bytes(),
                    self.spec_start(),
                    self.spec_special_tokens(),
                    tokens@,
                    skip_special,
                    k as int,
                ) == Ok::<Seq<u8>, TekkenError>(bytes@),
            decreases tokens@.len() - k,
        {
            let token = tokens[k] as usize;
            if token < self.ordinary_token_start {
                if !skip_special {
                    if token >= self.special_tokens.len() {
                        proof {
                            lemma_decode_error_sticks(
                                self.spec_token_bytes(),
                                self.spec_start(),
                                self.spec_special_tokens(),
                                tokens@,
                                skip_special,
                                k + 1,
                                tokens@.len() as int,
                            );
                        }
                        return Err(TekkenError::MissingSpecialToken(token));
                    }
                    match &self.special_tokens[token] {
                        Some(piece) => crate::text::extend_bytes(&mut bytes, piece.as_str().as_bytes()),
                        None => {
                            proof {
                            lemma_decode_error_sticks(
                                self.spec_token_bytes(),
                                self.spec_start(),
                                self.spec_special_tokens(),
                                tokens@,
                                skip_special,
                                k + 1,
                                tokens@.len() as int,
                            );
                        }
                        return Err(TekkenError::MissingSpecialToken(token));
                        },
                    }
                }
            } else {
                let rank = token - self.ordinary_token_start;
                if rank >= self.token_bytes.len() {
                    proof {
                            lemma_decode_error_sticks(
                                self.spec_token_bytes(),
                                self.spec_start(),
                                self.spec_special_tokens(),
                                tokens@,
                                skip_special,
                                k + 1,
                                tokens@.len() as int,
                            );
                        }
                        return Err(TekkenError::MissingOrdinaryToken { token, rank });
                }
                match &self.token_bytes[rank] {
                    Some(piece) => crate::text::extend_bytes(&mut bytes, piece.as_slice()),
                    None => {
                        proof {
                            lemma_decode_error_sticks(
                                self.spec_token_bytes(),
                                self.spec_start(),
                                self.spec_special_tokens(),
                                tokens@,
                                skip_special,
                                k + 1,
                                tokens@.len() as int,
                            );
                        }
                        return Err(TekkenError::MissingOrdinaryToken { token, rank });
                    },
                }
            }
            k = k + 1;
        }
        Ok(crate::text::string_from_utf8_lossy(bytes.as_slice()))
    }
}

/// `tekken.json` inside a model directory.
pub fn default_tekken_path(model_dir: &Path) -> (r: PathBuf)
    ensures
        r == crate::safetensors::joined_path(model_dir, "tekken.json"@),
{
    path_join(model_dir, "tekken.json")
}

// ---------------------------------------------------------------------------
// Byte-pair encoding
// ---------------------------------------------------------------------------

/// Every ordinary entry's id lies in `[start, start + n)`, below 2^32 when that fits.
pub proof fn lemma_ordinary_entry_ids(token_bytes: Seq<Option<Seq<u8>>>, start: usize, n: int)
    requires
        0 <= n <= token_bytes.len(),
        n + start <= u32::MAX + 1,
    ensures
        forall|k: int| 0 <= k < ordinary_entries(token_bytes, start, n).len() ==> start <= #[trigger] ordinary_entries(
            token_bytes,
            start,
            n,
        )[k].1 < start + n,
    decreases n,
{
    if n > 0 {
        lemma_ordinary_entry_ids(token_bytes, start, n - 1);
        let before = ordinary_entries(token_bytes, start, n - 1);
        let out = ordinary_entries(token_bytes, start, n);
        assert forall|k: int| 0 <= k < out.len() implies start <= #[trigger] out[k].1 < start + n by {
            if k < before.len() {
                assert(out[k] == before[k]);
            }
        }
    }
}

/// The merge rank of the pair `a`, `b`: the rank of the ordinary token with bytes `a + b`.
pub open spec fn pair_rank(entries: Seq<(Seq<u8>, u64)>, start: usize, a: Seq<u8>, b: Seq<u8>) -> Option<int> {
    match table_get(entries, a + b) {
        Some(v) => Some((v as u32) as int - start),
        None => None,
    }
}

/// The leftmost pair among the first `k` pairs with the lowest rank, and that rank.
pub open spec fn best_pair(entries: Seq<(Seq<u8>, u64)>, start: usize, pieces: Seq<Seq<u8>>, k: int) -> Option<(int, int)>
    decreases k,
{
    if k <= 0 {
        None
    } else {
        let before = best_pair(entries, start, pieces, k - 1);
        match pair_rank(entries, start, pieces[k - 1], pieces[k]) {
            None => before,
            Some(rank) => match before {
                Some((i, best)) => if rank < best {
                    Some((k - 1, rank))
                } else {
                    before
                },
                None => Some((k - 1, rank)),
            },
        }
    }
}

/// The pieces with the pair at `m` joined.
pub open spec fn merge_at<T>(pieces: Seq<Seq<T>>, m: int) -> Seq<Seq<T>> {
    pieces.update(m, pieces[m] + pieces[m + 1]).remove(m + 1)
}

/// Joins the best pair again and again until no pair is a token.
pub open spec fn bpe_merge(entries: Seq<(Seq<u8>, u64)>, start: usize, pieces: Seq<Seq<u8>>) -> Seq<Seq<u8>>
    decreases pieces.len(),
{
    if pieces.len() <= 1 {
        pieces
    } else {
        match best_pair(entries, start, pieces, pieces.len() - 1) {
            None => pieces,
            Some((m, _)) => if 0 <= m < pieces.len() - 1 {
                bpe_merge(entries, start, merge_at(pieces, m))
            } else {
                pieces
            },
        }
    }
}

proof fn lemma_latest_push(s: Seq<(Seq<u8>, u64)>, e: (Seq<u8>, u64), key: Seq<u8>, k: int)
    requires
        0 <= k <= s.len(),
    ensures
        crate::byte_table::latest_value(s.push(e), key, k) == crate::byte_table::latest_value(s, key, k),
    decreases k,
{
    if k > 0 {
        lemma_latest_push(s, e, key, k - 1);
        assert(s.push(e)[k - 1] == s[k - 1]);
    }
}

/// A token's lookup among the ordinary tokens of the first `n` ranks finds the last
/// rank whose token has those bytes, with the id `start + rank`.
proof fn lemma_ordinary_lookup(token_bytes: Seq<Option<Seq<u8>>>, start: usize, n: int, key: Seq<u8>)
    requires
        0 <= n <= token_bytes.len(),
        start + n <= u32::MAX + 1,
    ensures
        match table_get(ordinary_entries(token_bytes, start, n), key) {
            Some(v) => exists|r: int|
                0 <= r < n && v == start + r && token_bytes[r] == Some(key) && forall|k: int|
                    r < k < n ==> #[trigger] token_bytes[k] != Some(key),
            None => forall|k: int| 0 <= k < n ==> #[trigger] token_bytes[k] != Some(key),
        },
    decreases n,
{
    if n > 0 {
        lemma_ordinary_lookup(token_bytes, start, n - 1, key);
        let before = ordinary_entries(token_bytes, start, n - 1);
        match token_bytes[n - 1] {
            Some(b) => {
                let e = (b, (((n - 1) + start) as u32) as u64);
                lemma_latest_push(before, e, key, before.len() as int);
                assert(before.push(e)[before.len() as int] == e);
                if b == key {
                    assert(table_get(before.push(e), key) == Some(e.1));
                    assert(e.1 == start + (n - 1));
                } else {
                    assert(table_get(before.push(e), key) == table_get(before, key));
                    if let Some(v) = table_get(before, key) {
                        let r = choose|r: int|
                            0 <= r < n - 1 && v == start + r && token_bytes[r] == Some(key) && forall|k: int|
                                r < k < n - 1 ==> #[trigger] token_bytes[k] != Some(key);
                        assert forall|k: int| r < k < n implies #[trigger] token_bytes[k] != Some(key) by {
                            if k < n - 1 {
                            }
                        }
                    }
                }
            },
            None => {
                if let Some(v) = table_get(before, key) {
                    let r = choose|r: int|
                        0 <= r < n - 1 && v == start + r && token_bytes[r] == Some(key) && forall|k: int|
                            r < k < n - 1 ==> #[trigger] token_bytes[k] != Some(key);
                    assert forall|k: int| r < k < n implies #[trigger] token_bytes[k] != Some(key) by {
                        if k < n - 1 {
                        }
                    }
                }
            },
        }
    }
}

/// The merge rank of a pair is the rank of the ordinary token whose bytes are the two
/// pieces joined: the last rank that holds those bytes, or none when no ordinary token
/// does.
pub proof fn lemma_pair_rank_is_token_rank(token_bytes: Seq<Option<Seq<u8>>>, start: usize, a: Seq<u8>, b: Seq<u8>)
    requires
        start + token_bytes.len() <= u32::MAX + 1,
    ensures
        match pair_rank(ordinary_entries(token_bytes, start, token_bytes.len() as int), start, a, b) {
            Some(r) => 0 <= r < token_bytes.len() && token_bytes[r] == Some(a + b) && forall|k: int|
                r < k < token_bytes.len() ==> #[trigger] token_bytes[k] != Some(a + b),
            None => forall|k: int| 0 <= k < token_bytes.len() ==> #[trigger] token_bytes[k] != Some(a + b),
        },
{
    lemma_ordinary_lookup(token_bytes, start, token_bytes.len() as int, a + b);
}

/// The merge rank of the adjacent pair at `j`.
pub open spec fn rank_at(entries: Seq<(Seq<u8>, u64)>, start: usize, pieces: Seq<Seq<u8>>, j: int) -> Option<int> {
    pair_rank(entries, start, pieces[j], pieces[j + 1])
}

/// `best_pair` over the first `k` pairs picks the leftmost pair of lowest rank.
proof fn lemma_best_pair_lowest(entries: Seq<(Seq<u8>, u64)>, start: usize, pieces: Seq<Seq<u8>>, k: int)
    ensures
        match best_pair(entries, start, pieces, k) {
            None => forall|j: int| 0 <= j < k ==> #[trigger] rank_at(entries, start, pieces, j) is None,
            Some((i, r)) => {
                &&& 0 <= i < k
                &&& rank_at(entries, start, pieces, i) == Some(r)
                &&& forall|j: int|
                    0 <= j < k && #[trigger] rank_at(entries, start, pieces, j) is Some ==> r <= rank_at(
                        entries,
                        start,
                        pieces,
                        j,
                    )->0
                &&& forall|j: int|
                    0 <= j < i && #[trigger] rank_at(entries, start, pieces, j) is Some ==> r < rank_at(
                        entries,
                        start,
                        pieces,
                        j,
                    )->0
            },
        },
    decreases k,
{
    if k > 0 {
        lemma_best_pair_lowest(entries, start, pieces, k - 1);
    }
}

/// Each BPE step joins the adjacent pair of lowest rank, the leftmost of them on a
/// tie, and the merging stops when no adjacent pair forms an ordinary token.
#[verifier::rlimit(40)]
pub proof fn lemma_bpe_joins_lowest_rank_pair(entries: Seq<(Seq<u8>, u64)>, start: usize, pieces: Seq<Seq<u8>>)
    ensures
        (forall|j: int| 0 <= j < pieces.len() - 1 ==> #[trigger] rank_at(entries, start, pieces, j) is None)
            ==> bpe_merge(entries, start, pieces) == pieces,
        (exists|j: int| 0 <= j < pieces.len() - 1 && #[trigger] rank_at(entries, start, pieces, j) is Some)
            ==> exists|m: int, r: int|
            {
                &&& 0 <= m < pieces.len() - 1
                &&& rank_at(entries, start, pieces, m) == Some(r)
                &&& (forall|j: int|
                    0 <= j < pieces.len() - 1 && #[trigger] rank_at(entries, start, pieces, j) is Some ==> r
                        <= rank_at(entries, start, pieces, j)->0)
                &&& (forall|j: int|
                    0 <= j < m && #[trigger] rank_at(entries, start, pieces, j) is Some ==> r < rank_at(
                        entries,
                        start,
                        pieces,
                        j,
                    )->0)
                &&& bpe_merge(entries, start, pieces) == bpe_merge(
                    entries,
                    start,
                    pieces.take(m) + seq![pieces[m] + pieces[m + 1]] + pieces.skip(m + 2),
                )
            },
{
    if pieces.len() >= 2 {
        let k = pieces.len() - 1;
        lemma_best_pair_lowest(entries, start, pieces, k);
        match best_pair(entries, start, pieces, k) {
            None => {
                if exists|j: int| 0 <= j < pieces.len() - 1 && #[trigger] rank_at(entries, start, pieces, j) is Some {
                    let j = choose|j: int| 0 <= j < pieces.len() - 1 && #[trigger] rank_at(entries, start, pieces, j) is Some;
                    assert(rank_at(entries, start, pieces, j) is None);
                }
            },
            Some((m, r)) => {
                assert(merge_at(pieces, m) =~= pieces.take(m) + seq![pieces[m] + pieces[m + 1]] + pieces.skip(m + 2));
                assert(bpe_merge(entries, start, pieces) == bpe_merge(entries, start, merge_at(pieces, m)));
                assert(rank_at(entries, start, pieces, m) == Some(r));
            },
        }
    }
}

/// The one-byte pieces of `bytes`.
pub open spec fn singletons(bytes: Seq<u8>) -> Seq<Seq<u8>> {
    Seq::new(bytes.len(), |i: int| seq![bytes[i]])
}

/// The token ids of the first `n` pieces.
pub open spec fn piece_ids(entries: Seq<(Seq<u8>, u64)>, pieces: Seq<Seq<u8>>, n: int) -> Result<Seq<u32>, TekkenError>
    decreases n,
{
    if n <= 0 {
        Ok(seq![])
    } else {
        match piece_ids(entries, pieces, n - 1) {
            Err(e) => Err(e),
            Ok(ids) => match table_get(entries, pieces[n - 1]) {
                Some(v) => Ok(ids.push(v as u32)),
                None => Err(TekkenError::MissingOrdinaryBytes),
            },
        }
    }
}

/// The tokens of one pre-tokenized piece.
pub open spec fn spec_bpe_ids(entries: Seq<(Seq<u8>, u64)>, start: usize, bytes: Seq<u8>) -> Result<Seq<u32>, TekkenError> {
    if bytes.len() == 0 {
        Ok(seq![])
    } else {
        let pieces = bpe_merge(entries, start, singletons(bytes));
        piece_ids(entries, pieces, pieces.len() as int)
    }
}

/// All pieces laid end to end.
pub open spec fn flatten_bytes<T>(pieces: Seq<Seq<T>>) -> Seq<T>
    decreases pieces.len(),
{
    if pieces.len() == 0 {
        seq![]
    } else {
        flatten_bytes(pieces.drop_last()) + pieces.last()
    }
}

pub proof fn lemma_flatten_push<T>(pieces: Seq<Seq<T>>, p: Seq<T>)
    ensures
        flatten_bytes(pieces.push(p)) == flatten_bytes(pieces) + p,
{
    assert(pieces.push(p).drop_last() =~= pieces);
}

pub proof fn lemma_flatten_concat<T>(a: Seq<Seq<T>>, b: Seq<Seq<T>>)
    ensures
        flatten_bytes(a + b) == flatten_bytes(a) + flatten_bytes(b),
    decreases b.len(),
{
    if b.len() == 0 {
        assert(a + b =~= a);
        assert(flatten_bytes(a) + flatten_bytes(b) =~= flatten_bytes(a));
    } else {
        lemma_flatten_concat(a, b.drop_last());
        assert((a + b).drop_last() =~= a + b.drop_last());
        assert((a + b).last() == b.last());
        assert(flatten_bytes(a) + (flatten_bytes(b.drop_last()) + b.last()) =~= (flatten_bytes(a) + flatten_bytes(
            b.drop_last(),
        )) + b.last());
    }
}

/// Joining a pair keeps the bytes the pieces spell.
pub proof fn lemma_merge_keeps_bytes<T>(pieces: Seq<Seq<T>>, m: int)
    requires
        0 <= m < pieces.len() - 1,
    ensures
        flatten_bytes(merge_at(pieces, m)) == flatten_bytes(pieces),
{
    let before = pieces.subrange(0, m);
    let after = pieces.subrange(m + 2, pieces.len() as int);
    let pair = seq![pieces[m], pieces[m + 1]];
    let joined = seq![pieces[m] + pieces[m + 1]];
    assert(pieces =~= before + pair + after);
    assert(merge_at(pieces, m) =~= before + joined + after);
    lemma_flatten_concat(before + pair, after);
    lemma_flatten_concat(before, pair);
    lemma_flatten_concat(before + joined, after);
    lemma_flatten_concat(before, joined);
    let empty = Seq::<Seq<T>>::empty();
    lemma_flatten_push(empty, pieces[m]);
    lemma_flatten_push(empty.push(pieces[m]), pieces[m + 1]);
    lemma_flatten_push(empty, pieces[m] + pieces[m + 1]);
    assert(flatten_bytes(empty) =~= Seq::<T>::empty());
    assert(empty.push(pieces[m]).push(pieces[m + 1]) =~= pair);
    assert(empty.push(pieces[m] + pieces[m + 1]) =~= joined);
    assert(flatten_bytes(pair) =~= pieces[m] + pieces[m + 1]);
    assert(flatten_bytes(joined) =~= pieces[m] + pieces[m + 1]);
}

/// Byte-pair merging never changes the bytes the pieces spell.
pub proof fn lemma_bpe_keeps_bytes(entries: Seq<(Seq<u8>, u64)>, start: usize, pieces: Seq<Seq<u8>>)
    ensures
        flatten_bytes(bpe_merge(entries, start, pieces)) == flatten_bytes(pieces),
    decreases pieces.len(),
{
    if pieces.len() > 1 {
        if let Some((m, _)) = best_pair(entries, start, pieces, pieces.len() - 1) {
            if 0 <= m < pieces.len() - 1 {
                lemma_merge_keeps_bytes(pieces, m);
                lemma_bpe_keeps_bytes(entries, start, merge_at(pieces, m));
            }
        }
    }
}

/// The one-byte pieces of a byte string spell it.
pub proof fn lemma_singletons_spell(bytes: Seq<u8>)
    ensures
        flatten_bytes(singletons(bytes)) == bytes,
    decreases bytes.len(),
{
    if bytes.len() > 0 {
        lemma_singletons_spell(bytes.drop_last());
        assert(singletons(bytes).drop_last() =~= singletons(bytes.drop_last()));
        assert(bytes.drop_last() + seq![bytes.last()] =~= bytes);
    } else {
        assert(singletons(bytes) =~= Seq::<Seq<u8>>::empty());
    }
}

/// A byte string made of two.
fn concat_bytes(a: &[u8], b: &[u8]) -> (r: Vec<u8>)
    ensures
        r@ == a@ + b@,
{
    let mut out: Vec<u8> = Vec::new();
    crate::text::extend_bytes(&mut out, a);
    crate::text::extend_bytes(&mut out, b);
    proof {
        assert(out@ =~= a@ + b@);
    }
    out
}

impl TekkenJsonTokenizer {
    /// Every ordinary token id fits in 32 bits.
    pub open spec fn ids_fit(self) -> bool {
        self.spec_token_bytes().len() + self.spec_start() <= u32::MAX + 1
    }

    /// Every special token has a non-empty text.
    pub open spec fn specials_non_empty(self) -> bool {
        forall|k: int| 0 <= k < self.spec_special_tokens().len() ==> (#[trigger] self.spec_special_tokens()[k] matches Some(
            t,
        ) ==> t.len() > 0)
    }

    /// The byte-pair tokens of one pre-tokenized piece, appended to `tokens`.
    fn encode_bpe_bytes(&self, bytes: &[u8], tokens: &mut Vec<u32>) -> (r: Result<(), TekkenError>)
        requires
            self.ids_fit(),
        ensures
            match spec_bpe_ids(self.spec_lookup_entries(), self.spec_start(), bytes@) {
                Ok(ids) => r is Ok && final(tokens)@ == old(tokens)@ + ids,
                Err(e) => r == Err::<(), TekkenError>(e),
            },
    {
        proof {
            use_type_invariant(self);
        }
        if bytes.len() == 0 {
            proof {
                assert(tokens@ =~= old(tokens)@ + Seq::<u32>::empty());
            }
            return Ok(());
        }
        let ghost entries = self.spec_lookup_entries();
        let ghost start = self.spec_start();
        let ghost target = bpe_merge(entries, start, singletons(bytes@));
        let mut pieces: Vec<Vec<u8>> = Vec::new();
        let mut b: usize = 0;
        while b < bytes.len()
            invariant
                b <= bytes@.len(),
                pieces@.len() == b,
                forall|k: int| 0 <= k < b ==> #[trigger] pieces@[k]@ == seq![bytes@[k]],
            decreases bytes@.len() - b,
        {
            let mut one: Vec<u8> = Vec::new();
            one.push(bytes[b]);
            proof {
                assert(one@ =~= seq![bytes@[b as int]]);
            }
            pieces.push(one);
            b = b + 1;
        }
        proof {
            assert(pieces@.map_values(|p: Vec<u8>| p@) =~= singletons(bytes@));
            lemma_ordinary_entry_ids(self.spec_token_bytes(), start, self.spec_token_bytes().len() as int);
        }
        while pieces.len() > 1
            invariant
                entries == self.ordinary_token_by_bytes.entries(),
                entries == self.spec_lookup_entries(),
                start == self.ordinary_token_start,
                self.ids_fit(),
                forall|k: int|
                    0 <= k < entries.len() ==> start <= #[trigger] entries[k].1 < start + self.spec_token_bytes().len(),
                bpe_merge(entries, start, pieces@.map_values(|p: Vec<u8>| p@)) == target,
            ensures
                pieces@.map_values(|p: Vec<u8>| p@) == target,
            decreases pieces@.len(),
        {
            let ghost view = pieces@.map_values(|p: Vec<u8>| p@);
            let mut best: Option<(usize, usize)> = None;
            let mut i: usize = 0;
            let last = pieces.len() - 1;
            while i < last
                invariant
                    entries == self.ordinary_token_by_bytes.entries(),
                    start == self.ordinary_token_start,
                    forall|k: int|
                        0 <= k < entries.len() ==> start <= #[trigger] entries[k].1 < start
                            + self.spec_token_bytes().len(),
                    self.ids_fit(),
                    view == pieces@.map_values(|p: Vec<u8>| p@),
                    last == pieces@.len() - 1,
                    i <= last,
                    match best_pair(entries, start, view, i as int) {
                        None => best is None,
                        Some((m, rank)) => best matches Some((bm, br)) && bm == m && br == rank && m < i,
                    },
                decreases last - i,
            {
                let merged = concat_bytes(pieces[i].as_slice(), pieces[i + 1].as_slice());
                proof {
                    assert(merged@ == view[i as int] + view[i + 1]);
                }
                match self.ordinary_token_by_bytes.get(merged.as_slice()) {
                    Some(v) => {
                        proof {
                            crate::byte_table::lemma_found_value_is_entry(entries, merged@, entries.len() as int);
                        }
                        let token_id = v as u32;
                        let rank = token_id as usize - self.ordinary_token_start;
                        let better = match best {
                            Some((_, best_rank)) => rank < best_rank,
                            None => true,
                        };
                        if better {
                            best = Some((i, rank));
                        }
                    },
                    None => {},
                }
                i = i + 1;
            }
            let merge_index = match best {
                Some((m, _)) => m,
                None => {
                    proof {
                        assert(bpe_merge(entries, start, view) == view);
                    }
                    break;
                },
            };
            let right = pieces.remove(merge_index + 1);
            let joined = concat_bytes(pieces[merge_index].as_slice(), right.as_slice());
            pieces.set(merge_index, joined);
            proof {
                assert(pieces@.map_values(|p: Vec<u8>| p@) =~= merge_at(view, merge_index as int));
            }
        }
        let ghost final_pieces = pieces@.map_values(|p: Vec<u8>| p@);
        let mut k: usize = 0;
        while k < pieces.len()
            invariant
                entries == self.ordinary_token_by_bytes.entries(),
                forall|j: int|
                    0 <= j < entries.len() ==> start <= #[trigger] entries[j].1 < start + self.spec_token_bytes().len(),
                self.ids_fit(),
                final_pieces == pieces@.map_values(|p: Vec<u8>| p@),
                final_pieces == target,
                entries == self.spec_lookup_entries(),
                start == self.spec_start(),
                target == bpe_merge(entries, start, singletons(bytes@)),
                bytes@.len() > 0,
                k <= pieces@.len(),
                piece_ids(entries, final_pieces, k as int) matches Ok(ids) && tokens@ == old(tokens)@ + ids,
            decreases pieces@.len() - k,
        {
            match self.ordinary_token_by_bytes.get(pieces[k].as_slice()) {
                Some(v) => {
                    proof {
                        crate::byte_table::lemma_found_value_is_entry(entries, pieces@[k as int]@, entries.len() as int);
                    }
                    tokens.push(v as u32);
                },
                None => {
                    proof {
                        assert(final_pieces[k as int] == pieces@[k as int]@);
                        assert(table_get(entries, final_pieces[k as int]) is None);
                        assert(piece_ids(entries, final_pieces, k + 1) is Err);
                        lemma_piece_ids_error_sticks(entries, final_pieces, k + 1, final_pieces.len() as int);
                    }
                    return Err(TekkenError::MissingOrdinaryBytes);
                },
            }
            k = k + 1;
        }
        Ok(())
    }
}

/// Once a piece is missing, the ids of more pieces fail the same way.
pub proof fn lemma_piece_ids_error_sticks(entries: Seq<(Seq<u8>, u64)>, pieces: Seq<Seq<u8>>, k: int, n: int)
    requires
        k <= n,
        piece_ids(entries, pieces, k) is Err,
    ensures
        piece_ids(entries, pieces, n) == piece_ids(entries, pieces, k),
    decreases n - k,
{
    if k < n {
        lemma_piece_ids_error_sticks(entries, pieces, k, n - 1);
    }
}

// ---------------------------------------------------------------------------
// Encoding text
// ---------------------------------------------------------------------------

/// The first special token, from the `k`-th on in the order they are tried, that
/// occurs in `text` at `i`.
pub open spec fn first_special_at(order: Seq<(Seq<char>, u32)>, text: Seq<char>, i: int, k: int) -> Option<int>
    decreases order.len() - k,
{
    if k < 0 || k >= order.len() {
        None
    } else if crate::text::has_prefix_at(text, i, order[k].0) {
        Some(k)
    } else {
        first_special_at(order, text, i, k + 1)
    }
}

/// The first place at or after `j` where `token` occurs in `text`.
pub open spec fn first_occurrence(text: Seq<char>, token: Seq<char>, j: int) -> Option<int>
    decreases text.len() + 1 - j,
{
    if j < 0 || j + token.len() > text.len() {
        None
    } else if crate::text::has_prefix_at(text, j, token) {
        Some(j)
    } else {
        first_occurrence(text, token, j + 1)
    }
}

/// The nearest place after `i` where one of the first `k` special tokens first
/// occurs from `i` on; a token whose first occurrence is at `i` itself is passed over.
pub open spec fn next_special(order: Seq<(Seq<char>, u32)>, text: Seq<char>, i: int, k: int) -> Option<int>
    decreases k,
{
    if k <= 0 {
        None
    } else {
        let before = next_special(order, text, i, k - 1);
        match first_occurrence(text, order[k - 1].0, i) {
            Some(j) => if j > i {
                match before {
                    Some(b) => Some(if j < b { j } else { b }),
                    None => Some(j),
                }
            } else {
                before
            },
            None => before,
        }
    }
}

/// The tokens of the first `n` pre-tokenized pieces, or the first error.
pub open spec fn pieces_ids(entries: Seq<(Seq<u8>, u64)>, start: usize, pieces: Seq<Seq<char>>, n: int) -> Result<
    Seq<u32>,
    TekkenError,
>
    decreases n,
{
    if n <= 0 {
        Ok(seq![])
    } else {
        match pieces_ids(entries, start, pieces, n - 1) {
            Err(e) => Err(e),
            Ok(ids) => match spec_bpe_ids(entries, start, vstd::utf8::encode_utf8(pieces[n - 1])) {
                Ok(more) => Ok(ids + more),
                Err(e) => Err(e),
            },
        }
    }
}

/// The tokens of a stretch of text that holds no special token.
pub open spec fn span_ids(entries: Seq<(Seq<u8>, u64)>, start: usize, span: Seq<char>) -> Result<Seq<u32>, TekkenError> {
    let pieces = pieces_from(span, 0);
    pieces_ids(entries, start, pieces, pieces.len() as int)
}

/// `ids` in front of what `rest` holds, or the error of either.
pub open spec fn join_ids<E>(ids: Result<Seq<u32>, E>, rest: Result<Seq<u32>, E>) -> Result<Seq<u32>, E> {
    match ids {
        Err(e) => Err(e),
        Ok(a) => match rest {
            Err(e) => Err(e),
            Ok(b) => Ok(a + b),
        },
    }
}

/// The tokens of `text` from `i` on: a special token where one starts (the first in
/// the order they are tried), else the ordinary tokens of the text up to the next
/// special token. An empty special token never ends a step; it stops the encoding.
pub open spec fn encode_from(
    order: Seq<(Seq<char>, u32)>,
    entries: Seq<(Seq<u8>, u64)>,
    start: usize,
    text: Seq<char>,
    i: int,
) -> Result<Seq<u32>, TekkenError>
    decreases text.len() - i,
{
    if i < 0 || i >= text.len() {
        Ok(seq![])
    } else {
        match first_special_at(order, text, i, 0) {
            Some(k) => if 0 <= k < order.len() && order[k].0.len() > 0 {
                proof {
                    lemma_first_special_at_bounds(order, text, i, 0);
                }
                join_ids(Ok(seq![order[k].1]), encode_from(order, entries, start, text, i + order[k].0.len()))
            } else {
                Ok(seq![])
            },
            None => {
                let end = match next_special(order, text, i, order.len() as int) {
                    Some(e) => e,
                    None => text.len() as int,
                };
                if i < end <= text.len() {
                    join_ids(span_ids(entries, start, text.subrange(i, end)), encode_from(order, entries, start, text, end))
                } else {
                    Ok(seq![])
                }
            },
        }
    }
}

pub proof fn lemma_first_special_at_bounds(order: Seq<(Seq<char>, u32)>, text: Seq<char>, i: int, k: int)
    ensures
        first_special_at(order, text, i, k) matches Some(m) ==> k <= m < order.len() && crate::text::has_prefix_at(
            text,
            i,
            order[m].0,
        ),
    decreases order.len() - k,
{
    if 0 <= k < order.len() && !crate::text::has_prefix_at(text, i, order[k].0) {
        lemma_first_special_at_bounds(order, text, i, k + 1);
    }
}

pub proof fn lemma_first_occurrence_bounds(text: Seq<char>, token: Seq<char>, j: int)
    ensures
        first_occurrence(text, token, j) matches Some(p) ==> j <= p && p + token.len() <= text.len(),
    decreases text.len() + 1 - j,
{
    if !(j < 0 || j + token.len() > text.len()) && !crate::text::has_prefix_at(text, j, token) {
        lemma_first_occurrence_bounds(text, token, j + 1);
    }
}

pub proof fn lemma_next_special_bounds(order: Seq<(Seq<char>, u32)>, text: Seq<char>, i: int, k: int)
    ensures
        next_special(order, text, i, k) matches Some(e) ==> i < e <= text.len(),
    decreases k,
{
    if k > 0 {
        lemma_next_special_bounds(order, text, i, k - 1);
        lemma_first_occurrence_bounds(text, order[k - 1].0, i);
    }
}

/// The first place at or after `j` where `token` occurs in `text`.
pub(crate) fn find_chars_from(text: &[char], token: &[char], j: usize) -> (r: Option<usize>)
    requires
        j <= text@.len(),
    ensures
        r is Some == first_occurrence(text@, token@, j as int) is Some,
        r matches Some(p) ==> first_occurrence(text@, token@, j as int) == Some(p as int),
        r matches Some(p) ==> j <= p && p + token@.len() <= text@.len(),
{
    proof {
        lemma_first_occurrence_bounds(text@, token@, j as int);
    }
    if token.len() > text.len() {
        return None;
    }
    let last = text.len() - token.len();
    let mut p = j;
    while p <= last
        invariant
            j <= p,
            last == text@.len() - token@.len(),
            first_occurrence(text@, token@, p as int) == first_occurrence(text@, token@, j as int),
        ensures
            first_occurrence(text@, token@, j as int) is None,
        decreases last + 1 - p,
    {
        if crate::text::chars_match_at(text, p, token) {
            return Some(p);
        }
        if p == last {
            proof {
                assert(first_occurrence(text@, token@, p + 1) is None);
            }
            break;
        }
        p = p + 1;
    }
    None
}

/// A text is empty exactly when its UTF-8 bytes are.
pub proof fn lemma_utf8_len_zero(s: Seq<char>)
    ensures
        (vstd::utf8::encode_utf8(s).len() == 0) == (s.len() == 0),
{
    if s.len() > 0 {
        assert(vstd::utf8::encode_scalar(s[0] as u32).len() > 0);
    }
}

impl TekkenJsonTokenizer {
    /// Whether this tokenizer can encode: its ordinary token ids fit in 32 bits and
    /// no special token is empty.
    pub fn can_encode(&self) -> (r: bool)
        ensures
            r == (self.ids_fit() && self.specials_non_empty()),
    {
        if self.token_bytes.len() as u128 + self.ordinary_token_start as u128 > 0x1_0000_0000u128 {
            return false;
        }
        let mut k: usize = 0;
        while k < self.special_tokens.len()
            invariant
                k <= self.special_tokens@.len(),
                forall|j: int|
                    0 <= j < k ==> (#[trigger] self.spec_special_tokens()[j] matches Some(t) ==> t.len() > 0),
            decreases self.special_tokens@.len() - k,
        {
            match &self.special_tokens[k] {
                Some(t) => {
                    proof {
                        assert(self.spec_special_tokens()[k as int] == Some(t@));
                        lemma_utf8_len_zero(t@);
                    }
                    let text = t.as_str();
                    let text_bytes = text.as_bytes();
                    if text_bytes.len() == 0 {
                        proof {
                            assert(text@ == t@);
                            assert(vstd::utf8::encode_utf8(text@).len() == 0);
                            lemma_utf8_len_zero(text@);
                            assert(t@.len() == 0);
                            assert(self.spec_special_tokens()[k as int] == Some(t@));
                        }
                        return false;
                    }
                },
                None => {},
            }
            k = k + 1;
        }
        true
    }
}

/// Every token in `order` is non-empty.
pub open spec fn tokens_non_empty(order: Seq<(Seq<char>, u32)>) -> bool {
    forall|k: int| 0 <= k < order.len() ==> (#[trigger] order[k]).0.len() > 0
}

pub proof fn lemma_first_after_bounds(s: Seq<(Seq<char>, u32)>, x: Seq<char>, from: int)
    requires
        0 <= from <= s.len(),
    ensures
        from <= first_after(s, x, from) <= s.len(),
    decreases s.len() - from,
{
    if from < s.len() && !special_before(x, s[from].0) {
        lemma_first_after_bounds(s, x, from + 1);
    }
}

pub proof fn lemma_sort_keeps_non_empty(s: Seq<(Seq<char>, u32)>)
    requires
        tokens_non_empty(s),
    ensures
        tokens_non_empty(sort_specials(s)),
        sort_specials(s).len() == s.len(),
    decreases s.len(),
{
    if s.len() > 0 {
        let rest = s.drop_last();
        assert(tokens_non_empty(rest)) by {
            assert forall|k: int| 0 <= k < rest.len() implies (#[trigger] rest[k]).0.len() > 0 by {
                assert(rest[k] == s[k]);
            }
        }
        lemma_sort_keeps_non_empty(rest);
        let sorted = sort_specials(rest);
        lemma_first_after_bounds(sorted, s.last().0, 0);
        let p = first_after(sorted, s.last().0, 0);
        let out = sorted.insert(p, s.last());
        assert(s.last() == s[s.len() - 1]);
        assert forall|k: int| 0 <= k < out.len() implies (#[trigger] out[k]).0.len() > 0 by {
            if k < p {
                assert(out[k] == sorted[k]);
            } else if k == p {
                assert(out[k] == s.last());
            } else {
                assert(out[k] == sorted[k - 1]);
            }
        }
    }
}

pub proof fn lemma_special_entries_non_empty(specials: Seq<Option<Seq<char>>>, n: int)
    requires
        0 <= n <= specials.len(),
        forall|k: int| 0 <= k < specials.len() ==> (#[trigger] specials[k] matches Some(t) ==> t.len() > 0),
    ensures
        tokens_non_empty(special_entries(specials, n)),
    decreases n,
{
    if n > 0 {
        lemma_special_entries_non_empty(specials, n - 1);
        let before = special_entries(specials, n - 1);
        let out = special_entries(specials, n);
        assert(specials[n - 1] matches Some(t) ==> t.len() > 0);
        assert forall|k: int| 0 <= k < out.len() implies (#[trigger] out[k]).0.len() > 0 by {
            if k < before.len() {
                assert(out[k] == before[k]);
            }
        }
    }
}

pub proof fn lemma_join_ids_empty<E>(r: Result<Seq<u32>, E>)
    ensures
        join_ids(Ok(seq![]), r) == r,
{
    if let Ok(b) = r {
        assert(Seq::<u32>::empty() + b =~= b);
    }
}

pub proof fn lemma_join_ids_assoc<E>(a: Seq<u32>, b: Result<Seq<u32>, E>, r: Result<Seq<u32>, E>)
    ensures
        join_ids(Ok(a), join_ids(b, r)) == match b {
            Ok(bs) => join_ids(Ok(a + bs), r),
            Err(e) => Err(e),
        },
{
    if let Ok(bs) = b {
        if let Ok(rs) = r {
            assert(a + (bs + rs) =~= (a + bs) + rs);
        }
    }
}

pub proof fn lemma_pieces_ids_error_sticks(
    entries: Seq<(Seq<u8>, u64)>,
    start: usize,
    pieces: Seq<Seq<char>>,
    k: int,
    n: int,
)
    requires
        k <= n,
        pieces_ids(entries, start, pieces, k) is Err,
    ensures
        pieces_ids(entries, start, pieces, n) == pieces_ids(entries, start, pieces, k),
    decreases n - k,
{
    if k < n {
        lemma_pieces_ids_error_sticks(entries, start, pieces, k, n - 1);
    }
}

/// The texts and ids of a token list.
pub open spec fn token_order(tokens: Seq<(String, u32)>) -> Seq<(Seq<char>, u32)> {
    tokens.map_values(|e: (String, u32)| (e.0@, e.1))
}

/// The position in `tokens` of the first one that occurs in `text` at `start`.
pub(crate) fn first_token_at(tokens: &Vec<(String, u32)>, text: &[char], start: usize) -> (r: Option<usize>)
    ensures
        r is Some == first_special_at(token_order(tokens@), text@, start as int, 0) is Some,
        r matches Some(m) ==> first_special_at(token_order(tokens@), text@, start as int, 0) == Some(m as int),
{
    let ghost order = token_order(tokens@);
    proof {
        lemma_first_special_at_bounds(order, text@, start as int, 0);
    }
    let mut k: usize = 0;
    while k < tokens.len()
        invariant
            order == tokens@.map_values(|e: (String, u32)| (e.0@, e.1)),
            k <= tokens@.len(),
            first_special_at(order, text@, start as int, k as int) == first_special_at(order, text@, start as int, 0),
            first_special_at(order, text@, start as int, 0) matches Some(m) ==> m < order.len(),
        decreases tokens@.len() - k,
    {
        let token = chars_of(tokens[k].0.as_str());
        proof {
            assert(order[k as int].0 == token@);
        }
        if crate::text::chars_match_at(text, start, token.as_slice()) {
            return Some(k);
        }
        k = k + 1;
    }
    None
}

/// The nearest place after `start` where one of `tokens` begins, among their first
/// occurrences from `start` on.
pub(crate) fn next_token_start(tokens: &Vec<(String, u32)>, text: &[char], start: usize) -> (r: Option<usize>)
    requires
        start <= text@.len(),
    ensures
        r is Some == next_special(token_order(tokens@), text@, start as int, tokens@.len() as int) is Some,
        r matches Some(e) ==> next_special(token_order(tokens@), text@, start as int, tokens@.len() as int) == Some(e as int),
{
    let ghost order = token_order(tokens@);
    let mut best: Option<usize> = None;
    let mut k: usize = 0;
    while k < tokens.len()
        invariant
            order == tokens@.map_values(|e: (String, u32)| (e.0@, e.1)),
            start <= text@.len(),
            k <= tokens@.len(),
            best is Some == next_special(order, text@, start as int, k as int) is Some,
            best matches Some(b) ==> next_special(order, text@, start as int, k as int) == Some(b as int),
        decreases tokens@.len() - k,
    {
        let token = chars_of(tokens[k].0.as_str());
        proof {
            assert(order[k as int].0 == token@);
            lemma_next_special_bounds(order, text@, start as int, k as int);
            lemma_next_special_bounds(order, text@, start as int, k + 1);
        }
        let ghost prev = next_special(order, text@, start as int, k as int);
        let found = find_chars_from(text, token.as_slice(), start);
        proof {
            assert(next_special(order, text@, start as int, k + 1) == match first_occurrence(
                text@,
                token@,
                start as int,
            ) {
                Some(j) => if j > start {
                    match prev {
                        Some(b) => Some(if j < b { j } else { b }),
                        None => Some(j),
                    }
                } else {
                    prev
                },
                None => prev,
            });
        }
        match found {
            Some(j) => {
                if j > start {
                    best = match best {
                        Some(b) => Some(if j < b { j } else { b }),
                        None => Some(j),
                    };
                }
            },
            None => {},
        }
        k = k + 1;
    }
    best
}

impl TekkenJsonTokenizer {
    /// The tokens of `text` with `<s>` in front when `add_bos` is set.
    pub open spec fn spec_encode(self, text: Seq<char>, add_bos: bool) -> Result<Seq<u32>, TekkenError> {
        let body = encode_from(self.spec_special_order(), self.spec_lookup_entries(), self.spec_start(), text, 0);
        if add_bos {
            match first_special_id(self.spec_special_tokens(), "<s>"@, 0) {
                None => Err(TekkenError::MissingBos),
                Some(b) => join_ids(Ok(seq![b]), body),
            }
        } else {
            body
        }
    }

    /// The position, in the order special tokens are tried, of the first one that
    /// occurs in `text` at `start`.
    fn match_special_at(&self, text: &[char], start: usize) -> (r: Option<usize>)
        ensures
            r is Some == first_special_at(self.spec_special_order(), text@, start as int, 0) is Some,
            r matches Some(m) ==> first_special_at(self.spec_special_order(), text@, start as int, 0) == Some(m as int),
    {
        proof {
            use_type_invariant(self);
        }
        first_token_at(&self.special_token_ids, text, start)
    }

    /// The nearest place after `start` where a special token begins, among the first
    /// occurrences from `start` on.
    fn next_special_start(&self, text: &[char], start: usize) -> (r: Option<usize>)
        requires
            start <= text@.len(),
        ensures
            r is Some == next_special(self.spec_special_order(), text@, start as int, self.spec_special_order().len() as int) is Some,
            r matches Some(e) ==> next_special(self.spec_special_order(), text@, start as int, self.spec_special_order().len() as int) == Some(e as int),
    {
        proof {
            use_type_invariant(self);
        }
        next_token_start(&self.special_token_ids, text, start)
    }

    /// The tokens of a stretch of text that holds no special token, appended to `tokens`.
    fn encode_text_span(&self, span: &[char], tokens: &mut Vec<u32>) -> (r: Result<(), TekkenError>)
        requires
            self.ids_fit(),
        ensures
            match span_ids(self.spec_lookup_entries(), self.spec_start(), span@) {
                Ok(ids) => r is Ok && final(tokens)@ == old(tokens)@ + ids,
                Err(e) => r == Err::<(), TekkenError>(e),
            },
    {
        let text = string_from_chars(span);
        let pieces = tekken_pre_tokenize(text.as_str());
        let ghost entries = self.spec_lookup_entries();
        let ghost start = self.spec_start();
        let ghost views = pieces@.map_values(|p: String| p@);
        let mut n: usize = 0;
        proof {
            assert(tokens@ =~= old(tokens)@ + Seq::<u32>::empty());
        }
        while n < pieces.len()
            invariant
                entries == self.spec_lookup_entries(),
                start == self.spec_start(),
                self.ids_fit(),
                views == pieces@.map_values(|p: String| p@),
                views == pieces_from(span@, 0),
                n <= pieces@.len(),
                pieces_ids(entries, start, views, n as int) matches Ok(ids) && tokens@ == old(tokens)@ + ids,
            decreases pieces@.len() - n,
        {
            let ghost before = tokens@;
            let piece_bytes = pieces[n].as_str().as_bytes();
            proof {
                assert(piece_bytes@ == vstd::utf8::encode_utf8(views[n as int]));
            }
            match self.encode_bpe_bytes(piece_bytes, tokens) {
                Ok(()) => {
                    proof {
                        assert(tokens@ =~= old(tokens)@ + pieces_ids(entries, start, views, n + 1)->Ok_0);
                    }
                },
                Err(e) => {
                    proof {
                        lemma_pieces_ids_error_sticks(entries, start, views, n + 1, views.len() as int);
                    }
                    return Err(e);
                },
            }
            n = n + 1;
        }
        Ok(())
    }

    /// Encodes text to token ids: special tokens where their text occurs, byte-pair
    /// tokens for the text between them, and `<s>` first when `add_bos` is set.
    pub fn encode_lossy(&self, text: &str, add_bos: bool) -> (r: Result<Vec<u32>, TekkenError>)
        requires
            self.ids_fit(),
            self.specials_non_empty(),
        ensures
            match self.spec_encode(text@, add_bos) {
                Ok(ids) => r matches Ok(v) && v@ == ids,
                Err(e) => r == Err::<Vec<u32>, TekkenError>(e),
            },
    {
        proof {
            use_type_invariant(self);
            lemma_special_entries_non_empty(
                self.spec_special_tokens(),
                self.spec_special_tokens().len() as int,
            );
            lemma_sort_keeps_non_empty(
                special_entries(self.spec_special_tokens(), self.spec_special_tokens().len() as int),
            );
        }
        let ghost order = self.spec_special_order();
        let ghost entries = self.spec_lookup_entries();
        let ghost start = self.spec_start();
        let ghost goal = self.spec_encode(text@, add_bos);
        let mut tokens: Vec<u32> = Vec::new();
        if add_bos {
            match self.bos_token_id() {
                Some(bos) => tokens.push(bos),
                None => return Err(TekkenError::MissingBos),
            }
        } else {
            proof {
                lemma_join_ids_empty(encode_from(order, entries, start, text@, 0));
                assert(tokens@ =~= Seq::<u32>::empty());
            }
        }
        let chars = chars_of(text);
        let n = chars.len();
        let mut i: usize = 0;
        while i < n
            invariant
                order == self.spec_special_order(),
                order == self.special_token_ids@.map_values(|e: (String, u32)| (e.0@, e.1)),
                tokens_non_empty(order),
                entries == self.spec_lookup_entries(),
                start == self.spec_start(),
                self.ids_fit(),
                chars@ == text@,
                n == chars@.len(),
                i <= n,
                goal == self.spec_encode(text@, add_bos),
                join_ids(Ok(tokens@), encode_from(order, entries, start, chars@, i as int)) == goal,
            decreases n - i,
        {
            match self.match_special_at(chars.as_slice(), i) {
                Some(k) => {
                    proof {
                        lemma_first_special_at_bounds(order, chars@, i as int, 0);
                        lemma_join_ids_assoc(
                            tokens@,
                            Ok(seq![order[k as int].1]),
                            encode_from(order, entries, start, chars@, i + order[k as int].0.len()),
                        );
                        assert(tokens@.push(order[k as int].1) =~= tokens@ + seq![order[k as int].1]);
                    }
                    let id = self.special_token_ids[k].1;
                    let width = chars_of(self.special_token_ids[k].0.as_str()).len();
                    proof {
                        assert(order[k as int] == (self.special_token_ids@[k as int].0@, self.special_token_ids@[k as int].1));
                        assert(width == order[k as int].0.len());
                        assert(i + width <= n);
                    }
                    tokens.push(id);
                    i = i + width;
                },
                None => {
                    proof {
                        lemma_next_special_bounds(order, chars@, i as int, order.len() as int);
                    }
                    let end = match self.next_special_start(chars.as_slice(), i) {
                        Some(e) => e,
                        None => n,
                    };
                    let ghost before = tokens@;
                    let ghost span = chars@.subrange(i as int, end as int);
                    proof {
                        lemma_join_ids_assoc(
                            before,
                            span_ids(entries, start, span),
                            encode_from(order, entries, start, chars@, end as int),
                        );
                    }
                    let piece = &chars.as_slice()[i..end];
                    assert(piece@ == span);
                    match self.encode_text_span(piece, &mut tokens) {
                        Ok(()) => {},
                        Err(e) => {
                            return Err(e);
                        },
                    }
                    i = end;
                },
            }
        }
        Ok(tokens)
    }
}

// ---------------------------------------------------------------------------
// Decoding what was encoded
// ---------------------------------------------------------------------------

/// Reading special tokens keeps the list's length.
pub proof fn lemma_specials_from_len(s: Seq<u8>, i: int, count: usize, out: Seq<Option<Seq<char>>>)
    requires
        out.len() == count,
    ensures
        spec_specials_from(s, i, count, out) matches Ok(v) ==> v.len() == count,
    decreases s.len() - i,
{
    match spec_find_from(s, quoted(rank_field()), i) {
        None => {},
        Some(rank_pos) => {
            lemma_find_from_found(s, quoted(rank_field()), i);
            match spec_usize_at_field(s, rank_pos, rank_field()) {
                Err(_) => {},
                Ok(rank) => match spec_find_field_after(s, rank_pos, token_str_field()) {
                    Err(_) => {},
                    Ok(ts_pos) => match spec_string_at_field(s, ts_pos, token_str_field()) {
                        Err(_) => {},
                        Ok(token) => {
                            lemma_find_from_found(s, quoted(token_str_field()), rank_pos);
                            if ts_pos + token_str_field().len() + 2 > i {
                                lemma_specials_from_len(
                                    s,
                                    ts_pos + token_str_field().len() + 2,
                                    count,
                                    if rank < count {
                                        out.update(rank as int, Some(token))
                                    } else {
                                        out
                                    },
                                );
                            }
                        },
                    },
                },
            }
        },
    }
}

/// A document's special token list has one slot per id below the first ordinary one.
pub proof fn lemma_special_tokens_len(s: Seq<u8>, count: usize)
    ensures
        spec_special_tokens(s, count) matches Ok(v) ==> v.len() == count,
{
    let none = Seq::new(count as nat, |k: int| None::<Seq<char>>);
    if let Some(p) = spec_find_from(s, quoted(special_tokens_field()), 0) {
        lemma_specials_from_len(s, p, count, none);
    }
}

/// Every entry of the sorted order is an entry of the list it sorts.
pub proof fn lemma_sort_specials_members(s: Seq<(Seq<char>, u32)>)
    ensures
        sort_specials(s).len() == s.len(),
        forall|k: int| 0 <= k < sort_specials(s).len() ==> s.contains(#[trigger] sort_specials(s)[k]),
    decreases s.len(),
{
    if s.len() > 0 {
        let rest = s.drop_last();
        lemma_sort_specials_members(rest);
        let sorted = sort_specials(rest);
        lemma_first_after_bounds(sorted, s.last().0, 0);
        let p = first_after(sorted, s.last().0, 0);
        let out = sorted.insert(p, s.last());
        assert forall|k: int| 0 <= k < out.len() implies s.contains(#[trigger] out[k]) by {
            if k < p {
                assert(out[k] == sorted[k]);
                let j = choose|j: int| 0 <= j < rest.len() && rest[j] == sorted[k];
                assert(s[j] == rest[j]);
            } else if k == p {
                assert(s[s.len() - 1] == s.last());
            } else {
                assert(out[k] == sorted[k - 1]);
                let j = choose|j: int| 0 <= j < rest.len() && rest[j] == sorted[k - 1];
                assert(s[j] == rest[j]);
            }
        }
    }
}

/// Each special entry names the slot it was read from.
pub proof fn lemma_special_entries_slots(specials: Seq<Option<Seq<char>>>, n: int)
    requires
        0 <= n <= specials.len(),
        n <= u32::MAX + 1,
    ensures
        forall|k: int|
            0 <= k < special_entries(specials, n).len() ==> (#[trigger] special_entries(specials, n)[k]).1 < n
                && specials[special_entries(specials, n)[k].1 as int] == Some(special_entries(specials, n)[k].0),
    decreases n,
{
    if n > 0 {
        lemma_special_entries_slots(specials, n - 1);
        let before = special_entries(specials, n - 1);
        let out = special_entries(specials, n);
        assert forall|k: int| 0 <= k < out.len() implies (#[trigger] out[k]).1 < n && specials[out[k].1 as int] == Some(
            out[k].0,
        ) by {
            if k < before.len() {
                assert(out[k] == before[k]);
            }
        }
    }
}

/// Each ordinary lookup entry holds the bytes of the rank its id stands for.
pub proof fn lemma_ordinary_entries_ranks(token_bytes: Seq<Option<Seq<u8>>>, start: usize, n: int)
    requires
        0 <= n <= token_bytes.len(),
        n + start <= u32::MAX + 1,
    ensures
        forall|k: int|
            0 <= k < ordinary_entries(token_bytes, start, n).len() ==> {
                let e = #[trigger] ordinary_entries(token_bytes, start, n)[k];
                &&& start <= e.1 < start + n
                &&& token_bytes[e.1 - start] == Some(e.0)
            },
    decreases n,
{
    if n > 0 {
        lemma_ordinary_entries_ranks(token_bytes, start, n - 1);
        let before = ordinary_entries(token_bytes, start, n - 1);
        let out = ordinary_entries(token_bytes, start, n);
        assert forall|k: int| 0 <= k < out.len() implies {
            let e = #[trigger] out[k];
            &&& start <= e.1 < start + n
            &&& token_bytes[e.1 - start] == Some(e.0)
        } by {
            if k < before.len() {
                assert(out[k] == before[k]);
            }
        }
    }
}

/// The decoding of a whole token sequence, special tokens kept.
pub open spec fn decode_all(
    token_bytes: Seq<Option<Seq<u8>>>,
    start: usize,
    specials: Seq<Option<Seq<char>>>,
    tokens: Seq<u32>,
) -> Result<Seq<u8>, TekkenError> {
    spec_decode_bytes(token_bytes, start, specials, tokens, false, tokens.len() as int)
}

/// The bytes of both, or the first error.
pub open spec fn join_bytes(a: Result<Seq<u8>, TekkenError>, b: Result<Seq<u8>, TekkenError>) -> Result<
    Seq<u8>,
    TekkenError,
> {
    match a {
        Err(e) => Err(e),
        Ok(x) => match b {
            Err(e) => Err(e),
            Ok(y) => Ok(x + y),
        },
    }
}

/// Decoding the first `n` tokens reads only those tokens.
pub proof fn lemma_decode_prefix(
    token_bytes: Seq<Option<Seq<u8>>>,
    start: usize,
    specials: Seq<Option<Seq<char>>>,
    a: Seq<u32>,
    b: Seq<u32>,
    n: int,
)
    requires
        0 <= n <= a.len(),
        n <= b.len(),
        a.take(n) == b.take(n),
    ensures
        spec_decode_bytes(token_bytes, start, specials, a, false, n) == spec_decode_bytes(
            token_bytes,
            start,
            specials,
            b,
            false,
            n,
        ),
    decreases n,
{
    if n > 0 {
        assert(a.take(n - 1) =~= a.take(n).take(n - 1));
        assert(b.take(n - 1) =~= b.take(n).take(n - 1));
        assert(a[n - 1] == a.take(n)[n - 1]);
        assert(b[n - 1] == b.take(n)[n - 1]);
        lemma_decode_prefix(token_bytes, start, specials, a, b, n - 1);
    }
}

/// Decoding two token sequences one after the other decodes each in turn.
pub proof fn lemma_decode_append(
    token_bytes: Seq<Option<Seq<u8>>>,
    start: usize,
    specials: Seq<Option<Seq<char>>>,
    a: Seq<u32>,
    b: Seq<u32>,
)
    ensures
        decode_all(token_bytes, start, specials, a + b) == join_bytes(
            decode_all(token_bytes, start, specials, a),
            decode_all(token_bytes, start, specials, b),
        ),
    decreases b.len(),
{
    if b.len() == 0 {
        assert(a + b =~= a);
        if let Ok(x) = decode_all(token_bytes, start, specials, a) {
            assert(x + Seq::<u8>::empty() =~= x);
        }
    } else {
        let b1 = b.drop_last();
        lemma_decode_append(token_bytes, start, specials, a, b1);
        let ab = a + b;
        let n = ab.len() as int;
        assert((a + b1) =~= ab.take(n - 1));
        assert(ab.take(n - 1) =~= (a + b1).take(n - 1));
        lemma_decode_prefix(token_bytes, start, specials, ab, a + b1, n - 1);
        assert(b1 =~= b.take(b.len() - 1));
        assert(b.take(b.len() - 1) =~= b1.take(b.len() - 1));
        lemma_decode_prefix(token_bytes, start, specials, b, b1, b.len() - 1);
        assert(ab[n - 1] == b[b.len() - 1]);
        if let Ok(x) = decode_all(token_bytes, start, specials, a) {
            if let Ok(y) = decode_all(token_bytes, start, specials, b1) {
                let t = b[b.len() - 1] as usize;
                if t >= start {
                    let rank = (t - start) as usize;
                    if rank < token_bytes.len() && token_bytes[rank as int] is Some {
                        assert(x + (y + token_bytes[rank as int]->Some_0) =~= (x + y) + token_bytes[rank as int]->Some_0);
                    }
                } else if t < specials.len() && specials[t as int] is Some {
                    assert(x + (y + vstd::utf8::encode_utf8(specials[t as int]->Some_0)) =~= (x + y)
                        + vstd::utf8::encode_utf8(specials[t as int]->Some_0));
                }
            }
        }
    }
}

/// A flattening that appends one piece.
pub proof fn lemma_flatten_take(pieces: Seq<Seq<u8>>, n: int)
    requires
        0 < n <= pieces.len(),
    ensures
        flatten_bytes(pieces.take(n)) == flatten_bytes(pieces.take(n - 1)) + pieces[n - 1],
{
    assert(pieces.take(n).drop_last() =~= pieces.take(n - 1));
}

/// The ids BPE found for its pieces decode to the pieces' bytes.
pub proof fn lemma_piece_ids_decode(token_bytes: Seq<Option<Seq<u8>>>, start: usize, specials: Seq<Option<Seq<char>>>, pieces: Seq<Seq<u8>>, n: int)
    requires
        0 <= n <= pieces.len(),
        token_bytes.len() + start <= u32::MAX + 1,
    ensures
        piece_ids(ordinary_entries(token_bytes, start, token_bytes.len() as int), pieces, n) matches Ok(ids)
            ==> decode_all(token_bytes, start, specials, ids) == Ok::<Seq<u8>, TekkenError>(flatten_bytes(pieces.take(n))),
    decreases n,
{
    let entries = ordinary_entries(token_bytes, start, token_bytes.len() as int);
    if n == 0 {
        assert(pieces.take(0) =~= Seq::<Seq<u8>>::empty());
    } else {
        lemma_piece_ids_decode(token_bytes, start, specials, pieces, n - 1);
        if let Ok(ids) = piece_ids(entries, pieces, n) {
            let prev = piece_ids(entries, pieces, n - 1)->Ok_0;
            let v = table_get(entries, pieces[n - 1])->Some_0;
            crate::byte_table::lemma_found_value_is_entry(entries, pieces[n - 1], entries.len() as int);
            lemma_ordinary_entries_ranks(token_bytes, start, token_bytes.len() as int);
            let k = choose|k: int| 0 <= k < entries.len() && entries[k].0 == pieces[n - 1] && #[trigger] entries[k].1 == v;
            assert(entries[k] == (pieces[n - 1], v));
            let one = seq![v as u32];
            assert(ids =~= prev + one);
            lemma_decode_append(token_bytes, start, specials, prev, one);
            assert(spec_decode_bytes(token_bytes, start, specials, one, false, 0) == Ok::<Seq<u8>, TekkenError>(seq![]));
            assert(decode_all(token_bytes, start, specials, one) == Ok::<Seq<u8>, TekkenError>(
                Seq::<u8>::empty() + pieces[n - 1],
            ));
            assert(Seq::<u8>::empty() + pieces[n - 1] =~= pieces[n - 1]);
            lemma_flatten_take(pieces, n);
        }
    }
}

/// The tokens of one pre-tokenized piece decode to its bytes.
pub proof fn lemma_bpe_ids_decode(token_bytes: Seq<Option<Seq<u8>>>, start: usize, specials: Seq<Option<Seq<char>>>, bytes: Seq<u8>)
    requires
        token_bytes.len() + start <= u32::MAX + 1,
    ensures
        spec_bpe_ids(ordinary_entries(token_bytes, start, token_bytes.len() as int), start, bytes) matches Ok(ids)
            ==> decode_all(token_bytes, start, specials, ids) == Ok::<Seq<u8>, TekkenError>(bytes),
{
    let entries = ordinary_entries(token_bytes, start, token_bytes.len() as int);
    if bytes.len() == 0 {
        assert(decode_all(token_bytes, start, specials, Seq::<u32>::empty()) == Ok::<Seq<u8>, TekkenError>(seq![]));
        assert(bytes =~= Seq::<u8>::empty());
    } else {
        let pieces = bpe_merge(entries, start, singletons(bytes));
        lemma_piece_ids_decode(token_bytes, start, specials, pieces, pieces.len() as int);
        assert(pieces.take(pieces.len() as int) =~= pieces);
        lemma_bpe_keeps_bytes(entries, start, singletons(bytes));
        lemma_singletons_spell(bytes);
    }
}

/// UTF-8 encoding goes piece by piece.
pub proof fn lemma_encode_utf8_concat(a: Seq<char>, b: Seq<char>)
    ensures
        vstd::utf8::encode_utf8(a + b) == vstd::utf8::encode_utf8(a) + vstd::utf8::encode_utf8(b),
    decreases a.len(),
{
    if a.len() == 0 {
        assert(a + b =~= b);
        assert(Seq::<u8>::empty() + vstd::utf8::encode_utf8(b) =~= vstd::utf8::encode_utf8(b));
    } else {
        lemma_encode_utf8_concat(a.drop_first(), b);
        assert((a + b).drop_first() =~= a.drop_first() + b);
        assert((a + b)[0] == a[0]);
        let head = vstd::utf8::encode_scalar(a[0] as u32);
        assert(head + (vstd::utf8::encode_utf8(a.drop_first()) + vstd::utf8::encode_utf8(b)) =~= (head
            + vstd::utf8::encode_utf8(a.drop_first())) + vstd::utf8::encode_utf8(b));
    }
}

/// Laying pieces end to end, one more at the end.
pub proof fn lemma_concat_pieces_push(pieces: Seq<Seq<char>>, p: Seq<char>)
    ensures
        crate::pretokenize::concat_pieces(pieces.push(p)) == crate::pretokenize::concat_pieces(pieces) + p,
    decreases pieces.len(),
{
    if pieces.len() == 0 {
        assert(pieces.push(p).drop_first() =~= Seq::<Seq<char>>::empty());
        assert(pieces.push(p)[0] == p);
        assert(crate::pretokenize::concat_pieces(Seq::<Seq<char>>::empty()) == Seq::<char>::empty());
        assert(crate::pretokenize::concat_pieces(pieces) == Seq::<char>::empty());
        assert(p + Seq::<char>::empty() =~= p);
        assert(Seq::<char>::empty() + p =~= p);
    } else {
        lemma_concat_pieces_push(pieces.drop_first(), p);
        assert(pieces.push(p).drop_first() =~= pieces.drop_first().push(p));
        assert(pieces[0] + (crate::pretokenize::concat_pieces(pieces.drop_first()) + p) =~= (pieces[0]
            + crate::pretokenize::concat_pieces(pieces.drop_first())) + p);
    }
}

/// The tokens of the first `n` pre-tokenized pieces decode to their bytes.
pub proof fn lemma_pieces_ids_decode(token_bytes: Seq<Option<Seq<u8>>>, start: usize, specials: Seq<Option<Seq<char>>>, pieces: Seq<Seq<char>>, n: int)
    requires
        0 <= n <= pieces.len(),
        token_bytes.len() + start <= u32::MAX + 1,
    ensures
        pieces_ids(ordinary_entries(token_bytes, start, token_bytes.len() as int), start, pieces, n) matches Ok(ids)
            ==> decode_all(token_bytes, start, specials, ids) == Ok::<Seq<u8>, TekkenError>(
            vstd::utf8::encode_utf8(crate::pretokenize::concat_pieces(pieces.take(n))),
        ),
    decreases n,
{
    let entries = ordinary_entries(token_bytes, start, token_bytes.len() as int);
    if n == 0 {
        assert(pieces.take(0) =~= Seq::<Seq<char>>::empty());
        assert(decode_all(token_bytes, start, specials, Seq::<u32>::empty()) == Ok::<Seq<u8>, TekkenError>(seq![]));
    } else {
        lemma_pieces_ids_decode(token_bytes, start, specials, pieces, n - 1);
        if let Ok(ids) = pieces_ids(entries, start, pieces, n) {
            let prev = pieces_ids(entries, start, pieces, n - 1)->Ok_0;
            let bytes = vstd::utf8::encode_utf8(pieces[n - 1]);
            let more = spec_bpe_ids(entries, start, bytes)->Ok_0;
            lemma_bpe_ids_decode(token_bytes, start, specials, bytes);
            lemma_decode_append(token_bytes, start, specials, prev, more);
            assert(pieces.take(n) =~= pieces.take(n - 1).push(pieces[n - 1]));
            lemma_concat_pieces_push(pieces.take(n - 1), pieces[n - 1]);
            lemma_encode_utf8_concat(crate::pretokenize::concat_pieces(pieces.take(n - 1)), pieces[n - 1]);
        }
    }
}

/// A special token id decodes to its text.
pub proof fn lemma_special_id_decode(
    token_bytes: Seq<Option<Seq<u8>>>,
    start: usize,
    specials: Seq<Option<Seq<char>>>,
    id: u32,
    text: Seq<char>,
)
    requires
        id < specials.len(),
        specials.len() <= start,
        specials[id as int] == Some(text),
    ensures
        decode_all(token_bytes, start, specials, seq![id]) == Ok::<Seq<u8>, TekkenError>(vstd::utf8::encode_utf8(text)),
{
    let one = seq![id];
    assert(spec_decode_bytes(token_bytes, start, specials, one, false, 0) == Ok::<Seq<u8>, TekkenError>(seq![]));
    assert(Seq::<u8>::empty() + vstd::utf8::encode_utf8(text) =~= vstd::utf8::encode_utf8(text));
}

/// Each entry of the order of special tokens names the slot it came from.
pub proof fn lemma_order_entry_slot(specials: Seq<Option<Seq<char>>>, k: int)
    requires
        specials.len() <= u32::MAX + 1,
        0 <= k < sort_specials(special_entries(specials, specials.len() as int)).len(),
    ensures
        ({
            let e = sort_specials(special_entries(specials, specials.len() as int))[k];
            e.1 < specials.len() && specials[e.1 as int] == Some(e.0)
        }),
{
    let sp = special_entries(specials, specials.len() as int);
    lemma_sort_specials_members(sp);
    lemma_special_entries_slots(specials, specials.len() as int);
    let e = sort_specials(sp)[k];
    let j = choose|j: int| 0 <= j < sp.len() && sp[j] == e;
    assert(sp[j] == e);
}

/// A special token at `i` followed by text that decodes back decodes back.
proof fn lemma_special_step(
    token_bytes: Seq<Option<Seq<u8>>>,
    start: usize,
    specials: Seq<Option<Seq<char>>>,
    text: Seq<char>,
    i: int,
    tok: Seq<char>,
    id: u32,
    rest: Seq<u32>,
)
    requires
        id < specials.len(),
        specials.len() <= start,
        specials[id as int] == Some(tok),
        0 <= i,
        i + tok.len() <= text.len(),
        text.subrange(i, i + tok.len()) == tok,
        decode_all(token_bytes, start, specials, rest) == Ok::<Seq<u8>, TekkenError>(
            vstd::utf8::encode_utf8(text.subrange(i + tok.len(), text.len() as int)),
        ),
    ensures
        decode_all(token_bytes, start, specials, seq![id] + rest) == Ok::<Seq<u8>, TekkenError>(
            vstd::utf8::encode_utf8(text.subrange(i, text.len() as int)),
        ),
{
    let next = i + tok.len();
    lemma_special_id_decode(token_bytes, start, specials, id, tok);
    lemma_decode_append(token_bytes, start, specials, seq![id], rest);
    assert(text.subrange(i, text.len() as int) =~= tok + text.subrange(next, text.len() as int));
    lemma_encode_utf8_concat(tok, text.subrange(next, text.len() as int));
}

/// A stretch of ordinary text followed by text that decodes back decodes back.
proof fn lemma_span_step(
    token_bytes: Seq<Option<Seq<u8>>>,
    start: usize,
    specials: Seq<Option<Seq<char>>>,
    text: Seq<char>,
    i: int,
    end: int,
    first: Seq<u32>,
    rest: Seq<u32>,
)
    requires
        0 <= i <= end <= text.len(),
        decode_all(token_bytes, start, specials, first) == Ok::<Seq<u8>, TekkenError>(
            vstd::utf8::encode_utf8(text.subrange(i, end)),
        ),
        decode_all(token_bytes, start, specials, rest) == Ok::<Seq<u8>, TekkenError>(
            vstd::utf8::encode_utf8(text.subrange(end, text.len() as int)),
        ),
    ensures
        decode_all(token_bytes, start, specials, first + rest) == Ok::<Seq<u8>, TekkenError>(
            vstd::utf8::encode_utf8(text.subrange(i, text.len() as int)),
        ),
{
    lemma_decode_append(token_bytes, start, specials, first, rest);
    assert(text.subrange(i, text.len() as int) =~= text.subrange(i, end) + text.subrange(end, text.len() as int));
    lemma_encode_utf8_concat(text.subrange(i, end), text.subrange(end, text.len() as int));
}

/// The tokens of a stretch of ordinary text decode to its bytes.
proof fn lemma_span_ids_decode(
    token_bytes: Seq<Option<Seq<u8>>>,
    start: usize,
    specials: Seq<Option<Seq<char>>>,
    span: Seq<char>,
)
    requires
        token_bytes.len() + start <= u32::MAX + 1,
    ensures
        span_ids(ordinary_entries(token_bytes, start, token_bytes.len() as int), start, span) matches Ok(ids)
            ==> decode_all(token_bytes, start, specials, ids) == Ok::<Seq<u8>, TekkenError>(vstd::utf8::encode_utf8(span)),
{
    let pieces = pieces_from(span, 0);
    lemma_pieces_ids_decode(token_bytes, start, specials, pieces, pieces.len() as int);
    assert(pieces.take(pieces.len() as int) =~= pieces);
    crate::pretokenize::lemma_pieces_partition(span, 0);
    assert(span.subrange(0, span.len() as int) =~= span);
}

/// What encoding gives from `i` on decodes, special tokens kept, to the bytes of the
/// text from `i` on.
pub proof fn lemma_encode_from_decodes(
    token_bytes: Seq<Option<Seq<u8>>>,
    start: usize,
    specials: Seq<Option<Seq<char>>>,
    text: Seq<char>,
    i: int,
)
    requires
        0 <= i <= text.len(),
        token_bytes.len() + start <= u32::MAX + 1,
        specials.len() <= start,
        forall|k: int| 0 <= k < specials.len() ==> (#[trigger] specials[k] matches Some(t) ==> t.len() > 0),
    ensures
        encode_from(
            sort_specials(special_entries(specials, specials.len() as int)),
            ordinary_entries(token_bytes, start, token_bytes.len() as int),
            start,
            text,
            i,
        ) matches Ok(ids) ==> decode_all(token_bytes, start, specials, ids) == Ok::<Seq<u8>, TekkenError>(
            vstd::utf8::encode_utf8(text.subrange(i, text.len() as int)),
        ),
    decreases text.len() - i,
{
    let order = sort_specials(special_entries(specials, specials.len() as int));
    let entries = ordinary_entries(token_bytes, start, token_bytes.len() as int);
    if i >= text.len() {
        assert(text.subrange(i, text.len() as int) =~= Seq::<char>::empty());
        assert(decode_all(token_bytes, start, specials, Seq::<u32>::empty()) == Ok::<Seq<u8>, TekkenError>(seq![]));
        return;
    }
    match first_special_at(order, text, i, 0) {
        Some(k) => {
            lemma_first_special_at_bounds(order, text, i, 0);
            lemma_special_entries_non_empty(specials, specials.len() as int);
            lemma_sort_keeps_non_empty(special_entries(specials, specials.len() as int));
            assert(order[k].0.len() > 0);
            if 0 <= k < order.len() && order[k].0.len() > 0 {
                let next = i + order[k].0.len();
                lemma_encode_from_decodes(token_bytes, start, specials, text, next);
                if let Ok(ids) = encode_from(order, entries, start, text, i) {
                    let rest = encode_from(order, entries, start, text, next)->Ok_0;
                    lemma_order_entry_slot(specials, k);
                    lemma_special_step(token_bytes, start, specials, text, i, order[k].0, order[k].1, rest);
                }
            }
        },
        None => {
            lemma_next_special_bounds(order, text, i, order.len() as int);
            let end = match next_special(order, text, i, order.len() as int) {
                Some(e) => e,
                None => text.len() as int,
            };
            if i < end <= text.len() {
                lemma_encode_from_decodes(token_bytes, start, specials, text, end);
                if let Ok(ids) = encode_from(order, entries, start, text, i) {
                    let span = text.subrange(i, end);
                    lemma_span_ids_decode(token_bytes, start, specials, span);
                    let first = span_ids(entries, start, span)->Ok_0;
                    let rest = encode_from(order, entries, start, text, end)->Ok_0;
                    lemma_span_step(token_bytes, start, specials, text, i, end, first, rest);
                }
            }
        },
    }
}

/// Decoding what encoding gives, special tokens kept, gives back the text's bytes.
pub proof fn lemma_tekken_decode_encode(t: TekkenJsonTokenizer, text: Seq<char>)
    requires
        t.ids_fit(),
        t.specials_non_empty(),
        t.spec_special_tokens().len() <= t.spec_start(),
    ensures
        t.spec_encode(text, false) matches Ok(ids) ==> spec_decode_bytes(
            t.spec_token_bytes(),
            t.spec_start(),
            t.spec_special_tokens(),
            ids,
            false,
            ids.len() as int,
        ) == Ok::<Seq<u8>, TekkenError>(vstd::utf8::encode_utf8(text)),
{
    lemma_encode_from_decodes(t.spec_token_bytes(), t.spec_start(), t.spec_special_tokens(), text, 0);
    assert(text.subrange(0, text.len() as int) =~= text);
}

/// Reading a string field of such a text never meets a splitting escape.
proof fn lemma_string_at_field_whole(s: Seq<u8>, field_pos: int, field: Seq<u8>)
    requires
        crate::json::escapes_end_whole(s),
    ensures
        spec_string_at_field(s, field_pos, field) != Err::<Seq<char>, TekkenError>(
            TekkenError::Json(JsonError::EscapeSplitsCharacter),
        ),
{
    if let Ok(start) = crate::json::spec_field_value_start(s, field_pos, field.len() as int) {
        crate::json::lemma_string_body_whole(s, start + 1, seq![]);
    }
}

proof fn lemma_base64_error(s: Seq<u8>, i: int, buffer: u32, bits: u32, out: Seq<u8>)
    ensures
        spec_base64_from(s, i, buffer, bits, out) matches Err(e) ==> e is InvalidBase64,
    decreases s.len() - i,
{
    if !(i < 0 || i >= s.len() || s[i] == 0x3d) {
        if is_ascii_whitespace(s[i]) {
            lemma_base64_error(s, i + 1, buffer, bits, out);
        } else if let Some(v) = base64_value(s[i]) {
            let next = (buffer << 6u32) | (v as u32);
            if bits + 6 >= 8 {
                let left = (bits + 6 - 8) as u32;
                lemma_base64_error(s, i + 1, next, left, out.push(((next >> left) & 0xff) as u8));
            } else {
                lemma_base64_error(s, i + 1, next, (bits + 6) as u32, out);
            }
        }
    }
}

proof fn lemma_vocab_from_whole(s: Seq<u8>, i: int, out: Seq<Option<Seq<u8>>>)
    requires
        crate::json::escapes_end_whole(s),
    ensures
        spec_vocab_from(s, i, out) != Err::<Seq<Option<Seq<u8>>>, TekkenError>(
            TekkenError::Json(JsonError::EscapeSplitsCharacter),
        ),
    decreases s.len() - i,
{
    if let Some(rank_pos) = spec_find_from(s, quoted(rank_field()), i) {
        lemma_find_from_found(s, quoted(rank_field()), i);
        match spec_usize_at_field(s, rank_pos, rank_field()) {
            Err(_) => {
                if rank_pos + 1 > i {
                    lemma_vocab_from_whole(s, rank_pos + 1, out);
                }
            },
            Ok(rank) => {
                if let Ok(tb_pos) = spec_find_field_after(s, rank_pos, token_bytes_field()) {
                    lemma_string_at_field_whole(s, tb_pos, token_bytes_field());
                    if let Ok(text) = spec_string_at_field(s, tb_pos, token_bytes_field()) {
                        lemma_base64_error(vstd::utf8::encode_utf8(text), 0, 0, 0, seq![]);
                        if let Ok(bytes) = spec_base64(vstd::utf8::encode_utf8(text)) {
                            lemma_find_from_found(s, quoted(token_bytes_field()), rank_pos);
                            if rank != usize::MAX && tb_pos + token_bytes_field().len() + 2 > i {
                                lemma_vocab_from_whole(
                                    s,
                                    tb_pos + token_bytes_field().len() + 2,
                                    set_rank(out, rank as int, bytes),
                                );
                            }
                        }
                    }
                }
            },
        }
    }
}

proof fn lemma_specials_from_whole(s: Seq<u8>, i: int, count: usize, out: Seq<Option<Seq<char>>>)
    requires
        crate::json::escapes_end_whole(s),
    ensures
        spec_specials_from(s, i, count, out) != Err::<Seq<Option<Seq<char>>>, TekkenError>(
            TekkenError::Json(JsonError::EscapeSplitsCharacter),
        ),
    decreases s.len() - i,
{
    if let Some(rank_pos) = spec_find_from(s, quoted(rank_field()), i) {
        lemma_find_from_found(s, quoted(rank_field()), i);
        if let Ok(rank) = spec_usize_at_field(s, rank_pos, rank_field()) {
            if let Ok(ts_pos) = spec_find_field_after(s, rank_pos, token_str_field()) {
                lemma_string_at_field_whole(s, ts_pos, token_str_field());
                if let Ok(token) = spec_string_at_field(s, ts_pos, token_str_field()) {
                    lemma_find_from_found(s, quoted(token_str_field()), rank_pos);
                    if ts_pos + token_str_field().len() + 2 > i {
                        lemma_specials_from_whole(
                            s,
                            ts_pos + token_str_field().len() + 2,
                            count,
                            if rank < count {
                                out.update(rank as int, Some(token))
                            } else {
                                out
                            },
                        );
                    }
                }
            }
        }
    }
}

/// In a Tekken text whose `\u` escapes all end on character boundaries, neither the
/// vocabulary nor the special tokens meet an escape that splits a character; what
/// `tekken_readable` asks beyond that is a rank below `usize::MAX` and ids that fit.
pub proof fn lemma_tekken_escapes_whole(s: Seq<u8>)
    requires
        crate::json::escapes_end_whole(s),
    ensures
        spec_vocab(s) != Err::<Seq<Option<Seq<u8>>>, TekkenError>(TekkenError::Json(JsonError::EscapeSplitsCharacter)),
        spec_special_tokens(s, spec_start_of(s)) != Err::<Seq<Option<Seq<char>>>, TekkenError>(
            TekkenError::Json(JsonError::EscapeSplitsCharacter),
        ),
{
    lemma_vocab_from_whole(s, 0, seq![]);
    if let Some(p) = spec_find_from(s, quoted(special_tokens_field()), 0) {
        lemma_specials_from_whole(s, p, spec_start_of(s), Seq::new(spec_start_of(s) as nat, |k: int| None::<Seq<char>>));
    }
}

} // verus!
