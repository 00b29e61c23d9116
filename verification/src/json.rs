//! A small reader for the flat JSON documents that model directories carry
//! (`config.json`, export manifests): fields are found by searching for their
//! quoted name, and only the value at that place is decoded.
use vstd::prelude::*;

use crate::text::{
    ascii_digit, char_of_byte, is_ascii_digit, push_char, skip_ws, spec_parse_usize, spec_skip_ws,
};

verus! {

/// Why a JSON document could not be read.
#[derive(Debug, Clone, Copy, PartialEq, Eq, Structural)]
pub enum JsonError {
    /// The document has no field of the requested name.
    MissingField,
    /// A particular byte was expected at `offset`; `actual` is `None` at the end of input.
    ExpectedByte { expected: u8, actual: Option<u8>, offset: usize },
    /// A string has no closing quote.
    UnterminatedString,
    /// A string ends right after a backslash.
    UnterminatedEscape,
    /// A `\u` escape is cut short by the end of input.
    UnterminatedUnicodeEscape,
    /// A `\u` escape does not hold hexadecimal digits.
    InvalidHexEscape,
    /// A `\u` escape names a surrogate code point.
    InvalidUnicodeEscape,
    /// A backslash is followed by a byte that is no JSON escape.
    UnsupportedEscape(u8),
    /// A `\u` escape's four bytes end inside a multi-byte character; such text is
    /// outside what the readers accept (see their `requires`).
    EscapeSplitsCharacter,
    /// An object has no closing brace.
    UnterminatedObject,
    /// More closing than opening braces.
    ObjectDepthUnderflow,
    /// No number where one was expected.
    ExpectedNumber,
    /// A number does not fit or is not an unsigned integer.
    InvalidNumber,
    /// An array has no closing bracket.
    UnterminatedArray,
    /// An array element is followed by neither `,` nor `]`.
    ExpectedCommaOrBracket,
}

/// An offset result seen as a mathematical integer.
pub open spec fn int_result(r: Result<usize, JsonError>) -> Result<int, JsonError> {
    match r {
        Ok(i) => Ok(i as int),
        Err(e) => Err(e),
    }
}

// ---------------------------------------------------------------------------
// Substring search
// ---------------------------------------------------------------------------

/// True when `needle` occurs in `hay` at byte offset `i`.
pub open spec fn matches_at(hay: Seq<u8>, needle: Seq<u8>, i: int) -> bool {
    0 <= i && i + needle.len() <= hay.len() && hay.subrange(i, i + needle.len()) == needle
}

/// The first offset at or after `from` where `needle` occurs in `hay`.
pub open spec fn spec_find_from(hay: Seq<u8>, needle: Seq<u8>, from: int) -> Option<int>
    decreases hay.len() + 1 - from,
{
    if from < 0 || from + needle.len() > hay.len() {
        None
    } else if matches_at(hay, needle, from) {
        Some(from)
    } else {
        spec_find_from(hay, needle, from + 1)
    }
}

pub proof fn lemma_find_from_found(hay: Seq<u8>, needle: Seq<u8>, from: int)
    ensures
        spec_find_from(hay, needle, from) matches Some(i) ==> from <= i && matches_at(hay, needle, i)
            && i + needle.len() <= hay.len(),
    decreases hay.len() + 1 - from,
{
    if !(from < 0 || from + needle.len() > hay.len()) && !matches_at(hay, needle, from) {
        lemma_find_from_found(hay, needle, from + 1);
    }
}

fn bytes_match_at(hay: &[u8], needle: &[u8], i: usize) -> (r: bool)
    requires
        i + needle@.len() <= hay@.len(),
    ensures
        r == matches_at(hay@, needle@, i as int),
{
    let hay_len = hay.len();
    let mut k: usize = 0;
    while k < needle.len()
        invariant
            hay_len == hay@.len(),
            i + needle@.len() <= hay@.len(),
            k <= needle@.len(),
            forall|j: int| 0 <= j < k ==> hay@[i + j] == needle@[j],
        decreases needle@.len() - k,
    {
        if hay[i + k] != needle[k] {
            proof {
                assert(hay@.subrange(i as int, i + needle@.len())[k as int] != needle@[k as int]);
            }
            return false;
        }
        k = k + 1;
    }
    proof {
        assert(hay@.subrange(i as int, i + needle@.len()) =~= needle@);
    }
    true
}

/// `hay[from..].find(needle)`, as an offset into `hay`.
pub fn find_bytes_from(hay: &[u8], needle: &[u8], from: usize) -> (r: Option<usize>)
    ensures
        spec_find_from(hay@, needle@, from as int) == (match r {
            Some(i) => Some(i as int),
            None => None::<int>,
        }),
{
    if needle.len() > hay.len() || from > hay.len() - needle.len() {
        return None;
    }
    let last = hay.len() - needle.len();
    let mut i = from;
    loop
        invariant
            from <= i <= last,
            last == hay@.len() - needle@.len(),
            spec_find_from(hay@, needle@, i as int) == spec_find_from(hay@, needle@, from as int),
        decreases last - i,
    {
        if bytes_match_at(hay, needle, i) {
            return Some(i);
        }
        if i == last {
            return None;
        }
        i = i + 1;
    }
}

/// The bytes of `"name"`: a field name in quotes.
pub open spec fn quoted(name: Seq<u8>) -> Seq<u8> {
    seq![0x22u8] + name + seq![0x22u8]
}

pub fn quoted_name(name: &[u8]) -> (r: Vec<u8>)
    ensures
        r@ == quoted(name@),
{
    let mut out: Vec<u8> = Vec::new();
    out.push(0x22);
    let mut i: usize = 0;
    while i < name.len()
        invariant
            i <= name@.len(),
            out@ == seq![0x22u8] + name@.subrange(0, i as int),
        decreases name@.len() - i,
    {
        out.push(name[i]);
        i = i + 1;
        proof {
            assert(name@.subrange(0, i as int) =~= name@.subrange(0, i - 1).push(name@[i - 1]));
        }
    }
    out.push(0x22);
    proof {
        assert(name@.subrange(0, name@.len() as int) =~= name@);
        assert(out@ =~= quoted(name@));
    }
    out
}

// ---------------------------------------------------------------------------
// Tokens
// ---------------------------------------------------------------------------

pub open spec fn spec_expect_byte(s: Seq<u8>, offset: int, expected: u8) -> Result<(), JsonError> {
    if 0 <= offset < s.len() && s[offset] == expected {
        Ok(())
    } else {
        Err(
            JsonError::ExpectedByte {
                expected,
                actual: if 0 <= offset < s.len() {
                    Some(s[offset])
                } else {
                    None
                },
                offset: offset as usize,
            },
        )
    }
}

/// Checks that `input[offset]` is `expected`.
pub fn expect_json_byte(input: &[u8], offset: usize, expected: u8) -> (r: Result<(), JsonError>)
    ensures
        r == spec_expect_byte(input@, offset as int, expected),
{
    if offset < input.len() {
        let actual = input[offset];
        if actual == expected {
            Ok(())
        } else {
            Err(JsonError::ExpectedByte { expected, actual: Some(actual), offset })
        }
    } else {
        Err(JsonError::ExpectedByte { expected, actual: None, offset })
    }
}

/// True when a text's byte offset `k` starts a character (or is its end).
pub open spec fn at_char_boundary(s: Seq<u8>, k: int) -> bool {
    k == s.len() || (0 <= k < s.len() && !(0x80 <= s[k] <= 0xbf))
}

pub open spec fn is_hex_digit(b: u8) -> bool {
    is_ascii_digit(b) || (0x61 <= b <= 0x66) || (0x41 <= b <= 0x46)
}

pub open spec fn hex_digit_value(b: u8) -> nat {
    if is_ascii_digit(b) {
        (b - 0x30) as nat
    } else if 0x61 <= b <= 0x66 {
        (b - 0x61 + 10) as nat
    } else {
        (b - 0x41 + 10) as nat
    }
}

/// The value of the hexadecimal digits `s[a..b]`.
pub open spec fn hex_value(s: Seq<u8>, a: int, b: int) -> nat
    decreases b - a,
{
    if b <= a {
        0
    } else {
        hex_value(s, a, b - 1) * 16 + hex_digit_value(s[b - 1])
    }
}

/// What `u16::from_str_radix(text, 16)` gives for the four bytes `s[a..a + 4]`.
pub open spec fn spec_hex4(s: Seq<u8>, a: int) -> Option<u16> {
    let d = if s[a] == 0x2b {
        a + 1
    } else {
        a
    };
    if forall|k: int| d <= k < a + 4 ==> is_hex_digit(#[trigger] s[k]) {
        Some(hex_value(s, d, a + 4) as u16)
    } else {
        None
    }
}

pub open spec fn pow16(n: nat) -> nat
    decreases n,
{
    if n == 0 {
        1
    } else {
        16 * pow16((n - 1) as nat)
    }
}

pub proof fn lemma_pow16_facts(n: nat, m: nat)
    requires
        n <= m,
    ensures
        pow16(n) <= pow16(m),
        pow16(4) == 65536,
    decreases m - n,
{
    assert(pow16(0) == 1);
    assert(pow16(1) == 16);
    assert(pow16(2) == 256);
    assert(pow16(3) == 4096);
    assert(pow16(4) == 65536);
    if n < m {
        lemma_pow16_facts(n, (m - 1) as nat);
    }
}

pub proof fn lemma_hex_value_bound(s: Seq<u8>, a: int, b: int)
    requires
        a <= b,
        forall|k: int| a <= k < b ==> is_hex_digit(#[trigger] s[k]),
    ensures
        hex_value(s, a, b) < pow16((b - a) as nat),
    decreases b - a,
{
    if a < b {
        lemma_hex_value_bound(s, a, b - 1);
        let p = pow16((b - 1 - a) as nat);
        assert(pow16((b - a) as nat) == 16 * p);
        assert(hex_value(s, a, b - 1) * 16 + hex_digit_value(s[b - 1]) < p * 16) by (nonlinear_arith)
            requires
                hex_value(s, a, b - 1) < p,
                hex_digit_value(s[b - 1]) < 16,
        ;
    }
}

fn parse_hex4(input: &[u8], a: usize) -> (r: Option<u16>)
    requires
        a + 4 <= input@.len(),
    ensures
        r == spec_hex4(input@, a as int),
{
    let n = input.len();
    let d = if input[a] == 0x2b {
        a + 1
    } else {
        a
    };
    let mut value: u32 = 0;
    let mut k = d;
    while k < a + 4
        invariant
            n == input@.len(),
            a + 4 <= input@.len(),
            d == (if input@[a as int] == 0x2b {
                a + 1
            } else {
                a as int
            }),
            d <= k <= a + 4,
            forall|j: int| d <= j < k ==> is_hex_digit(#[trigger] input@[j]),
            value == hex_value(input@, d as int, k as int),
        decreases a + 4 - k,
    {
        let b = input[k];
        let digit: u32 = if 0x30 <= b && b <= 0x39 {
            (b - 0x30) as u32
        } else if 0x61 <= b && b <= 0x66 {
            (b - 0x61 + 10) as u32
        } else if 0x41 <= b && b <= 0x46 {
            (b - 0x41 + 10) as u32
        } else {
            assert(!is_hex_digit(input@[k as int]));
            return None;
        };
        proof {
            lemma_hex_value_bound(input@, d as int, k as int);
            lemma_pow16_facts((k - d) as nat, 3);
        }
        value = value * 16 + digit;
        k = k + 1;
    }
    proof {
        lemma_hex_value_bound(input@, d as int, (a + 4) as int);
        lemma_pow16_facts((a + 4 - d) as nat, 4);
    }
    Some(value as u16)
}

/// `char::from_u32`: the character with that code point, if it is a Unicode scalar value.
#[verifier::external_body]
pub(crate) fn char_from_u32(v: u32) -> (r: Option<char>)
    ensures
        r is Some <==> (v < 0xD800 || (0xE000 <= v && v <= 0x10FFFF)),
        r matches Some(c) ==> c as u32 == v,
{
    char::from_u32(v)
}

/// The character a one-byte escape (the byte after a backslash) stands for.
pub open spec fn simple_escape(e: u8) -> Option<char> {
    if e == 0x22 {
        Some('"')
    } else if e == 0x5c {
        Some('\\')
    } else if e == 0x2f {
        Some('/')
    } else if e == 0x62 {
        Some('\u{0008}')
    } else if e == 0x66 {
        Some('\u{000c}')
    } else if e == 0x6e {
        Some('\n')
    } else if e == 0x72 {
        Some('\r')
    } else if e == 0x74 {
        Some('\t')
    } else {
        None
    }
}

/// Decodes the rest of a JSON string whose body continues at `i`, with `acc`
/// decoded so far: the characters and the offset after the closing quote.
/// Bytes outside escapes stand each for the character of the same value.
pub open spec fn spec_string_body(s: Seq<u8>, i: int, acc: Seq<char>) -> Result<(Seq<char>, int), JsonError>
    decreases s.len() - i,
{
    if i < 0 || i >= s.len() {
        Err(JsonError::UnterminatedString)
    } else if s[i] == 0x22 {
        Ok((acc, i + 1))
    } else if s[i] == 0x5c {
        if i + 1 >= s.len() {
            Err(JsonError::UnterminatedEscape)
        } else {
            let e = s[i + 1];
            if simple_escape(e) is Some {
                spec_string_body(s, i + 2, acc.push(simple_escape(e)->Some_0))
            } else if e == 0x75 {
                if i + 6 > s.len() {
                    Err(JsonError::UnterminatedUnicodeEscape)
                } else if !at_char_boundary(s, i + 6) {
                    Err(JsonError::EscapeSplitsCharacter)
                } else {
                    match spec_hex4(s, i + 2) {
                        None => Err(JsonError::InvalidHexEscape),
                        Some(v) => if 0xD800 <= v <= 0xDFFF {
                            Err(JsonError::InvalidUnicodeEscape)
                        } else {
                            spec_string_body(s, i + 6, acc.push((v as u32) as char))
                        },
                    }
                }
            } else {
                Err(JsonError::UnsupportedEscape(e))
            }
        }
    } else {
        spec_string_body(s, i + 1, acc.push(s[i] as char))
    }
}

/// The JSON string that starts with a quote at `start`.
pub open spec fn spec_json_string_at(s: Seq<u8>, start: int) -> Result<(Seq<char>, int), JsonError> {
    match spec_expect_byte(s, start, 0x22) {
        Err(e) => Err(e),
        Ok(_) => spec_string_body(s, start + 1, seq![]),
    }
}

pub proof fn lemma_string_body_advances(s: Seq<u8>, i: int, acc: Seq<char>)
    ensures
        spec_string_body(s, i, acc) matches Ok((v, next)) ==> i < next <= s.len(),
    decreases s.len() - i,
{
    if 0 <= i < s.len() && s[i] != 0x22 {
        if s[i] == 0x5c {
            if i + 1 < s.len() {
                let e = s[i + 1];
                if simple_escape(e) is Some {
                    lemma_string_body_advances(s, i + 2, acc.push(simple_escape(e)->Some_0));
                } else if e == 0x75 && i + 6 <= s.len() {
                    if let Some(v) = spec_hex4(s, i + 2) {
                        lemma_string_body_advances(s, i + 6, acc.push((v as u32) as char));
                    }
                }
            }
        } else {
            lemma_string_body_advances(s, i + 1, acc.push(s[i] as char));
        }
    }
}

/// Decodes the JSON string that starts with a quote at `start`; gives its text and
/// the offset just after its closing quote.
pub fn parse_json_string_at(input: &[u8], start: usize) -> (r: Result<(String, usize), JsonError>)
    requires
        spec_json_string_at(input@, start as int) != Err::<(Seq<char>, int), JsonError>(
            JsonError::EscapeSplitsCharacter,
        ),
    ensures
        match spec_json_string_at(input@, start as int) {
            Ok((v, next)) => r matches Ok((text, n)) && text@ == v && n == next,
            Err(e) => r == Err::<(String, usize), JsonError>(e),
        },
{
    let n = input.len();
    expect_json_byte(input, start, 0x22)?;
    let mut out = String::new();
    let mut i = start + 1;
    while i < input.len()
        invariant
            n == input@.len(),
            start < i,
            i <= input@.len() + 1,
            input@[start as int] == 0x22,
            spec_string_body(input@, i as int, out@) == spec_json_string_at(input@, start as int),
            spec_json_string_at(input@, start as int) != Err::<(Seq<char>, int), JsonError>(
                JsonError::EscapeSplitsCharacter,
            ),
        decreases input@.len() - i,
    {
        let b = input[i];
        if b == 0x22 {
            return Ok((out, i + 1));
        } else if b == 0x5c {
            if i + 1 >= input.len() {
                return Err(JsonError::UnterminatedEscape);
            }
            let e = input[i + 1];
            if e == 0x22 {
                push_char(&mut out, '"');
                i = i + 2;
            } else if e == 0x5c {
                push_char(&mut out, '\\');
                i = i + 2;
            } else if e == 0x2f {
                push_char(&mut out, '/');
                i = i + 2;
            } else if e == 0x62 {
                push_char(&mut out, '\u{0008}');
                i = i + 2;
            } else if e == 0x66 {
                push_char(&mut out, '\u{000c}');
                i = i + 2;
            } else if e == 0x6e {
                push_char(&mut out, '\n');
                i = i + 2;
            } else if e == 0x72 {
                push_char(&mut out, '\r');
                i = i + 2;
            } else if e == 0x74 {
                push_char(&mut out, '\t');
                i = i + 2;
            } else if e == 0x75 {
                if input.len() - i < 6 {
                    return Err(JsonError::UnterminatedUnicodeEscape);
                }
                let value = match parse_hex4(input, i + 2) {
                    Some(v) => v,
                    None => {
                        return Err(JsonError::InvalidHexEscape);
                    },
                };
                let ch = match char_from_u32(value as u32) {
                    Some(c) => c,
                    None => {
                        return Err(JsonError::InvalidUnicodeEscape);
                    },
                };
                proof {
                    vstd::utf8::char_u32_cast(ch, value as u32);
                }
                push_char(&mut out, ch);
                i = i + 6;
            } else {
                return Err(JsonError::UnsupportedEscape(e));
            }
        } else {
            push_char(&mut out, char_of_byte(b));
            i = i + 1;
        }
    }
    Err(JsonError::UnterminatedString)
}

// ---------------------------------------------------------------------------
// Fields
// ---------------------------------------------------------------------------

/// The offset of the first `"field"` in the document.
pub open spec fn spec_find_json_field(s: Seq<u8>, field: Seq<u8>) -> Result<int, JsonError> {
    match spec_find_from(s, quoted(field), 0) {
        Some(i) => Ok(i),
        None => Err(JsonError::MissingField),
    }
}

pub fn find_json_field(json: &[u8], field: &[u8]) -> (r: Result<usize, JsonError>)
    ensures
        spec_find_json_field(json@, field@) == int_result(r),
        r matches Ok(i) ==> i + field@.len() + 2 <= json@.len(),
{
    let needle = quoted_name(field);
    proof {
        lemma_find_from_found(json@, needle@, 0);
    }
    match find_bytes_from(json, needle.as_slice(), 0) {
        Some(i) => Ok(i),
        None => Err(JsonError::MissingField),
    }
}

/// Where the value of the field named at `field_pos` starts: after the name,
/// whitespace, a colon and whitespace.
pub open spec fn spec_field_value_start(s: Seq<u8>, field_pos: int, field_len: int) -> Result<int, JsonError> {
    let i = spec_skip_ws(s, field_pos + field_len + 2);
    match spec_expect_byte(s, i, 0x3a) {
        Err(e) => Err(e),
        Ok(_) => Ok(spec_skip_ws(s, i + 1)),
    }
}

pub fn json_field_value_start(json: &[u8], field_pos: usize, field: &[u8]) -> (r: Result<usize, JsonError>)
    requires
        field_pos + field@.len() + 2 <= json@.len(),
    ensures
        spec_field_value_start(json@, field_pos as int, field@.len() as int) == int_result(r),
        r matches Ok(i) ==> i <= json@.len(),
{
    let n = json.len();
    let i = skip_ws(json, field_pos + field.len() + 2);
    proof {
        crate::text::lemma_skip_ws_bounds(json@, (field_pos + field@.len() + 2) as int);
    }
    expect_json_byte(json, i, 0x3a)?;
    let j = skip_ws(json, i + 1);
    proof {
        crate::text::lemma_skip_ws_bounds(json@, (i + 1) as int);
    }
    Ok(j)
}

/// Where the value of the first field named `field` starts.
pub open spec fn spec_field_value(s: Seq<u8>, field: Seq<u8>) -> Result<int, JsonError> {
    match spec_find_json_field(s, field) {
        Err(e) => Err(e),
        Ok(pos) => spec_field_value_start(s, pos, field.len() as int),
    }
}

fn field_value(json: &[u8], field: &[u8]) -> (r: Result<usize, JsonError>)
    ensures
        spec_field_value(json@, field@) == int_result(r),
        r matches Ok(i) ==> i <= json@.len(),
{
    let field_pos = find_json_field(json, field)?;
    json_field_value_start(json, field_pos, field)
}

/// The end of the run of number characters (`0-9 + - . e E`) that starts at `start`.
pub open spec fn is_number_byte(b: u8) -> bool {
    is_ascii_digit(b) || b == 0x2b || b == 0x2d || b == 0x2e || b == 0x65 || b == 0x45
}

fn number_byte(b: u8) -> (r: bool)
    ensures
        r == is_number_byte(b),
{
    ascii_digit(b) || b == 0x2b || b == 0x2d || b == 0x2e || b == 0x65 || b == 0x45
}

pub open spec fn spec_number_run_end(s: Seq<u8>, i: int) -> int
    decreases s.len() - i,
{
    if 0 <= i < s.len() && is_number_byte(s[i]) {
        spec_number_run_end(s, i + 1)
    } else {
        i
    }
}

pub open spec fn spec_json_number_end(s: Seq<u8>, start: int) -> Result<int, JsonError> {
    if spec_number_run_end(s, start) == start {
        Err(JsonError::ExpectedNumber)
    } else {
        Ok(spec_number_run_end(s, start))
    }
}

pub proof fn lemma_number_run_bounds(s: Seq<u8>, i: int)
    requires
        0 <= i <= s.len(),
    ensures
        i <= spec_number_run_end(s, i) <= s.len(),
    decreases s.len() - i,
{
    if i < s.len() && is_number_byte(s[i]) {
        lemma_number_run_bounds(s, i + 1);
    }
}

pub fn json_number_end(json: &[u8], start: usize) -> (r: Result<usize, JsonError>)
    requires
        start <= json@.len(),
    ensures
        spec_json_number_end(json@, start as int) == int_result(r),
        r matches Ok(i) ==> start < i <= json@.len(),
{
    proof {
        lemma_number_run_bounds(json@, start as int);
    }
    let mut i = start;
    while i < json.len() && number_byte(json[i])
        invariant
            start <= i <= json@.len(),
            spec_number_run_end(json@, i as int) == spec_number_run_end(json@, start as int),
        decreases json@.len() - i,
    {
        i = i + 1;
    }
    if i == start {
        return Err(JsonError::ExpectedNumber);
    }
    Ok(i)
}

/// The `usize` value of the first field named `field`.
pub open spec fn spec_json_usize_field(s: Seq<u8>, field: Seq<u8>) -> Result<usize, JsonError> {
    match spec_field_value(s, field) {
        Err(e) => Err(e),
        Ok(start) => match spec_json_number_end(s, start) {
            Err(e) => Err(e),
            Ok(end) => match spec_parse_usize(s, start, end) {
                Some(v) => Ok(v),
                None => Err(JsonError::InvalidNumber),
            },
        },
    }
}

pub fn parse_json_usize_field(json: &[u8], field: &[u8]) -> (r: Result<usize, JsonError>)
    ensures
        r == spec_json_usize_field(json@, field@),
{
    let start = field_value(json, field)?;
    let end = json_number_end(json, start)?;
    match crate::text::parse_usize(json, start, end) {
        Some(v) => Ok(v),
        None => Err(JsonError::InvalidNumber),
    }
}

pub fn parse_optional_json_usize_field(json: &[u8], field: &[u8]) -> (r: Option<usize>)
    ensures
        r == (match spec_json_usize_field(json@, field@) {
            Ok(v) => Some(v),
            Err(_) => None,
        }),
{
    match parse_json_usize_field(json, field) {
        Ok(v) => Some(v),
        Err(_) => None,
    }
}

/// The string value of the first field named `field`.
pub open spec fn spec_json_string_field(s: Seq<u8>, field: Seq<u8>) -> Result<Seq<char>, JsonError> {
    match spec_field_value(s, field) {
        Err(e) => Err(e),
        Ok(start) => match spec_json_string_at(s, start) {
            Err(e) => Err(e),
            Ok((v, _)) => Ok(v),
        },
    }
}

pub fn parse_json_string_field(json: &[u8], field: &[u8]) -> (r: Result<String, JsonError>)
    requires
        spec_json_string_field(json@, field@) != Err::<Seq<char>, JsonError>(
            JsonError::EscapeSplitsCharacter,
        ),
    ensures
        match spec_json_string_field(json@, field@) {
            Ok(v) => r matches Ok(text) && text@ == v,
            Err(e) => r == Err::<String, JsonError>(e),
        },
{
    let start = field_value(json, field)?;
    let (value, _) = parse_json_string_at(json, start)?;
    Ok(value)
}

pub fn parse_optional_json_string_field(json: &[u8], field: &[u8]) -> (r: Option<String>)
    requires
        spec_json_string_field(json@, field@) != Err::<Seq<char>, JsonError>(
            JsonError::EscapeSplitsCharacter,
        ),
    ensures
        match spec_json_string_field(json@, field@) {
            Ok(v) => r matches Some(text) && text@ == v,
            Err(_) => r is None,
        },
{
    match parse_json_string_field(json, field) {
        Ok(v) => Some(v),
        Err(_) => None,
    }
}

// ---------------------------------------------------------------------------
// Arrays and objects
// ---------------------------------------------------------------------------

/// The strings of a JSON string array whose next element (or closing bracket)
/// is expected at or after `i`, with `acc` read so far.
pub open spec fn spec_string_array_from(s: Seq<u8>, i: int, acc: Seq<Seq<char>>) -> Result<
    Seq<Seq<char>>,
    JsonError,
>
    decreases s.len() - i,
{
    let j = spec_skip_ws(s, i);
    if j >= s.len() {
        Err(JsonError::UnterminatedArray)
    } else if s[j] == 0x5d {
        Ok(acc)
    } else {
        match spec_json_string_at(s, j) {
            Err(e) => Err(e),
            Ok((v, next)) => {
                let k = spec_skip_ws(s, next);
                if k >= s.len() {
                    Err(JsonError::UnterminatedArray)
                } else if s[k] == 0x2c {
                    proof {
                        lemma_array_step_advances(s, i);
                    }
                    spec_string_array_from(s, k + 1, acc.push(v))
                } else if s[k] == 0x5d {
                    Ok(acc.push(v))
                } else {
                    Err(JsonError::ExpectedCommaOrBracket)
                }
            },
        }
    }
}

pub proof fn lemma_array_step_advances(s: Seq<u8>, i: int)
    ensures
        ({
            let j = spec_skip_ws(s, i);
            0 <= i && j < s.len() && s[j] != 0x5d ==> (spec_json_string_at(s, j) matches Ok((v, next))
                ==> spec_skip_ws(s, next) >= i)
        }),
{
    if 0 <= i {
        crate::text::lemma_skip_ws_bounds(s, i);
        let j = spec_skip_ws(s, i);
        lemma_string_body_advances(s, j + 1, seq![]);
        if let Ok((v, next)) = spec_json_string_at(s, j) {
            crate::text::lemma_skip_ws_bounds(s, next);
        }
    }
}

pub open spec fn spec_string_array_at(s: Seq<u8>, start: int) -> Result<Seq<Seq<char>>, JsonError> {
    match spec_expect_byte(s, start, 0x5b) {
        Err(e) => Err(e),
        Ok(_) => spec_string_array_from(s, start + 1, seq![]),
    }
}

/// A reading of the array that never meets a `\u` escape splitting a character.
pub open spec fn string_array_escapes_whole(s: Seq<u8>, i: int) -> bool
    decreases s.len() - i,
{
    let j = spec_skip_ws(s, i);
    if j >= s.len() || s[j] == 0x5d {
        true
    } else {
        match spec_json_string_at(s, j) {
            Err(e) => e != JsonError::EscapeSplitsCharacter,
            Ok((v, next)) => {
                let k = spec_skip_ws(s, next);
                if k < s.len() && s[k] == 0x2c {
                    proof {
                        lemma_array_step_advances(s, i);
                    }
                    string_array_escapes_whole(s, k + 1)
                } else {
                    true
                }
            },
        }
    }
}

pub fn parse_json_string_array_at(input: &[u8], start: usize) -> (r: Result<Vec<String>, JsonError>)
    requires
        string_array_escapes_whole(input@, start + 1),
    ensures
        match spec_string_array_at(input@, start as int) {
            Ok(v) => r matches Ok(values) && values@.map_values(|x: String| x@) == v,
            Err(e) => r == Err::<Vec<String>, JsonError>(e),
        },
{
    let n = input.len();
    expect_json_byte(input, start, 0x5b)?;
    let mut values: Vec<String> = Vec::new();
    let mut i = start + 1;
    proof {
        assert(values@.map_values(|x: String| x@) =~= Seq::<Seq<char>>::empty());
    }
    loop
        invariant
            n == input@.len(),
            start < i <= input@.len() + 1,
            spec_string_array_from(input@, i as int, values@.map_values(|x: String| x@))
                == spec_string_array_at(input@, start as int),
            string_array_escapes_whole(input@, i as int),
        decreases input@.len() + 1 - i,
    {
        let ghost i0 = i as int;
        proof {
            crate::text::lemma_skip_ws_bounds(input@, i as int);
        }
        i = skip_ws(input, i);
        if i >= input.len() {
            return Err(JsonError::UnterminatedArray);
        }
        if input[i] == 0x5d {
            return Ok(values);
        }
        proof {
            lemma_string_body_advances(input@, i + 1, seq![]);
        }
        let (value, next) = parse_json_string_at(input, i)?;
        proof {
            crate::text::lemma_skip_ws_bounds(input@, next as int);
        }
        let ghost old_values = values@;
        values.push(value);
        proof {
            assert(values@.map_values(|x: String| x@) =~= old_values.map_values(|x: String| x@).push(
                value@,
            ));
        }
        i = skip_ws(input, next);
        if i < input.len() && input[i] == 0x2c {
            i = i + 1;
        } else if i < input.len() && input[i] == 0x5d {
            return Ok(values);
        } else if i < input.len() {
            return Err(JsonError::ExpectedCommaOrBracket);
        } else {
            return Err(JsonError::UnterminatedArray);
        }
    }
}

/// The strings of the first field named `field`, when there is one.
pub open spec fn spec_optional_string_array_field(s: Seq<u8>, field: Seq<u8>) -> Result<
    Option<Seq<Seq<char>>>,
    JsonError,
> {
    match spec_find_json_field(s, field) {
        Err(_) => Ok(None),
        Ok(pos) => match spec_field_value_start(s, pos, field.len() as int) {
            Err(e) => Err(e),
            Ok(start) => match spec_string_array_at(s, start) {
                Err(e) => Err(e),
                Ok(v) => Ok(Some(v)),
            },
        },
    }
}

pub open spec fn optional_string_array_escapes_whole(s: Seq<u8>, field: Seq<u8>) -> bool {
    match spec_field_value(s, field) {
        Ok(start) => string_array_escapes_whole(s, start + 1),
        Err(_) => true,
    }
}

pub fn parse_optional_json_string_array_field(json: &[u8], field: &[u8]) -> (r: Result<
    Option<Vec<String>>,
    JsonError,
>)
    requires
        optional_string_array_escapes_whole(json@, field@),
    ensures
        match spec_optional_string_array_field(json@, field@) {
            Ok(Some(v)) => r matches Ok(Some(values)) && values@.map_values(|x: String| x@) == v,
            Ok(None) => r matches Ok(None),
            Err(e) => r == Err::<Option<Vec<String>>, JsonError>(e),
        },
{
    let field_pos = match find_json_field(json, field) {
        Ok(pos) => pos,
        Err(_) => {
            return Ok(None);
        },
    };
    let start = json_field_value_start(json, field_pos, field)?;
    let values = parse_json_string_array_at(json, start)?;
    Ok(Some(values))
}

/// The object that starts with a brace at `i`, read at nesting `depth` so far:
/// the offset of its closing brace. Strings inside are skipped as strings.
pub open spec fn spec_object_from(s: Seq<u8>, i: int, depth: nat) -> Result<int, JsonError>
    decreases s.len() - i,
{
    if i < 0 || i >= s.len() {
        Err(JsonError::UnterminatedObject)
    } else if s[i] == 0x22 {
        match spec_json_string_at(s, i) {
            Err(e) => Err(e),
            Ok((_, next)) => {
                proof {
                    lemma_string_body_advances(s, i + 1, seq![]);
                }
                spec_object_from(s, next, depth)
            },
        }
    } else if s[i] == 0x7b {
        spec_object_from(s, i + 1, depth + 1)
    } else if s[i] == 0x7d {
        if depth == 0 {
            Err(JsonError::ObjectDepthUnderflow)
        } else if depth == 1 {
            Ok(i)
        } else {
            spec_object_from(s, i + 1, (depth - 1) as nat)
        }
    } else {
        spec_object_from(s, i + 1, depth)
    }
}

/// A reading of the object that never meets a `\u` escape splitting a character.
pub open spec fn object_escapes_whole(s: Seq<u8>, i: int, depth: nat) -> bool
    decreases s.len() - i,
{
    if i < 0 || i >= s.len() {
        true
    } else if s[i] == 0x22 {
        match spec_json_string_at(s, i) {
            Err(e) => e != JsonError::EscapeSplitsCharacter,
            Ok((_, next)) => {
                proof {
                    lemma_string_body_advances(s, i + 1, seq![]);
                }
                object_escapes_whole(s, next, depth)
            },
        }
    } else if s[i] == 0x7b {
        object_escapes_whole(s, i + 1, depth + 1)
    } else if s[i] == 0x7d {
        depth <= 1 || object_escapes_whole(s, i + 1, (depth - 1) as nat)
    } else {
        object_escapes_whole(s, i + 1, depth)
    }
}

pub open spec fn spec_json_object_at(s: Seq<u8>, start: int) -> Result<int, JsonError> {
    match spec_expect_byte(s, start, 0x7b) {
        Err(e) => Err(e),
        Ok(_) => spec_object_from(s, start, 0),
    }
}

/// The object that starts with a brace at `start`: the offset of its closing brace.
pub fn json_object_at(json: &[u8], start: usize) -> (r: Result<usize, JsonError>)
    requires
        object_escapes_whole(json@, start as int, 0),
    ensures
        spec_json_object_at(json@, start as int) == int_result(r),
        r matches Ok(e) ==> start <= e < json@.len() && json@[e as int] == 0x7d,
{
    expect_json_byte(json, start, 0x7b)?;
    let mut depth: usize = 0;
    let mut i = start;
    while i < json.len()
        invariant
            start <= i,
            depth <= i - start,
            spec_object_from(json@, i as int, depth as nat) == spec_object_from(json@, start as int, 0),
            object_escapes_whole(json@, i as int, depth as nat),
            spec_expect_byte(json@, start as int, 0x7b) is Ok,
        decreases json@.len() - i,
    {
        let b = json[i];
        if b == 0x22 {
            proof {
                lemma_string_body_advances(json@, i + 1, seq![]);
            }
            let (_, next) = parse_json_string_at(json, i)?;
            i = next;
        } else if b == 0x7b {
            depth = depth + 1;
            i = i + 1;
        } else if b == 0x7d {
            if depth == 0 {
                return Err(JsonError::ObjectDepthUnderflow);
            }
            depth = depth - 1;
            if depth == 0 {
                return Ok(i);
            }
            i = i + 1;
        } else {
            i = i + 1;
        }
    }
    Err(JsonError::UnterminatedObject)
}

/// The object value of the first field named `field`: its offsets `[start, end]`.
pub open spec fn spec_json_object_field(s: Seq<u8>, field: Seq<u8>) -> Result<(int, int), JsonError> {
    match spec_field_value(s, field) {
        Err(e) => Err(e),
        Ok(start) => match spec_json_object_at(s, start) {
            Err(e) => Err(e),
            Ok(end) => Ok((start, end)),
        },
    }
}

pub open spec fn object_field_escapes_whole(s: Seq<u8>, field: Seq<u8>) -> bool {
    match spec_field_value(s, field) {
        Ok(start) => object_escapes_whole(s, start, 0),
        Err(_) => true,
    }
}

/// The text of the object value of the first field named `field`.
pub fn parse_json_object_field<'a>(json: &'a [u8], field: &[u8]) -> (r: Result<&'a [u8], JsonError>)
    requires
        object_field_escapes_whole(json@, field@),
    ensures
        match spec_json_object_field(json@, field@) {
            Ok((a, b)) => r matches Ok(obj) && obj@ == json@.subrange(a, b + 1),
            Err(e) => r == Err::<&[u8], JsonError>(e),
        },
{
    let n = json.len();
    let start = field_value(json, field)?;
    let end = json_object_at(json, start)?;
    Ok(&json[start..end + 1])
}

/// The text of the number value of the first field named `field`: its run of number
/// characters.
pub open spec fn spec_json_number_text_field(s: Seq<u8>, field: Seq<u8>) -> Result<Seq<u8>, JsonError> {
    match spec_field_value(s, field) {
        Err(e) => Err(e),
        Ok(start) => match spec_json_number_end(s, start) {
            Err(e) => Err(e),
            Ok(end) => Ok(s.subrange(start, end)),
        },
    }
}

/// The text of the number value of the first field named `field`, for the caller to
/// read as a number of its choosing.
pub fn json_number_text_field<'a>(json: &'a [u8], field: &[u8]) -> (r: Result<&'a [u8], JsonError>)
    ensures
        match spec_json_number_text_field(json@, field@) {
            Ok(t) => r matches Ok(x) && x@ == t,
            Err(e) => r == Err::<&[u8], JsonError>(e),
        },
{
    let start = field_value(json, field)?;
    let end = json_number_end(json, start)?;
    Ok(&json[start..end])
}

// ---------------------------------------------------------------------------
// Escapes that split characters
// ---------------------------------------------------------------------------

/// A `\u` escape at `k`, when there is one with its four bytes, ends on a character
/// boundary.
pub open spec fn escape_ends_whole(s: Seq<u8>, k: int) -> bool {
    (0 <= k && k + 6 <= s.len() && s[k] == 0x5c && s[k + 1] == 0x75) ==> at_char_boundary(s, k + 6)
}

/// Every `\u` escape of the text, wherever it stands, ends on a character boundary;
/// then no reading of a JSON string in the text meets one that splits a character.
pub open spec fn escapes_end_whole(s: Seq<u8>) -> bool {
    forall|k: int| #[trigger] escape_ends_whole(s, k)
}

/// Whether every `\u` escape of the text ends on a character boundary.
pub fn unicode_escapes_end_whole(s: &[u8]) -> (r: bool)
    ensures
        r == escapes_end_whole(s@),
{
    let mut k: usize = 0;
    while k < s.len()
        invariant
            k <= s@.len(),
            forall|j: int| 0 <= j < k ==> #[trigger] escape_ends_whole(s@, j),
        decreases s@.len() - k,
    {
        if s.len() - k >= 6 && s[k] == 0x5c && s[k + 1] == 0x75 {
            let e = k + 6;
            if e < s.len() && 0x80 <= s[e] && s[e] <= 0xbf {
                proof {
                    assert(!escape_ends_whole(s@, k as int));
                }
                return false;
            }
        }
        k = k + 1;
    }
    proof {
        assert forall|j: int| #[trigger] escape_ends_whole(s@, j) by {
            if 0 <= j < k {
            }
        }
    }
    true
}

/// Reading a string body never meets a splitting escape in such a text.
pub proof fn lemma_string_body_whole(s: Seq<u8>, i: int, acc: Seq<char>)
    requires
        escapes_end_whole(s),
    ensures
        spec_string_body(s, i, acc) != Err::<(Seq<char>, int), JsonError>(JsonError::EscapeSplitsCharacter),
    decreases s.len() - i,
{
    if 0 <= i < s.len() && s[i] != 0x22 {
        if s[i] == 0x5c {
            if i + 1 < s.len() {
                let e = s[i + 1];
                if simple_escape(e) is Some {
                    lemma_string_body_whole(s, i + 2, acc.push(simple_escape(e)->Some_0));
                } else if e == 0x75 && i + 6 <= s.len() {
                    assert(escape_ends_whole(s, i));
                    if let Some(v) = spec_hex4(s, i + 2) {
                        lemma_string_body_whole(s, i + 6, acc.push((v as u32) as char));
                    }
                }
            }
        } else {
            lemma_string_body_whole(s, i + 1, acc.push(s[i] as char));
        }
    }
}

/// Reading a string field never meets a splitting escape in such a text.
pub proof fn lemma_string_field_whole(s: Seq<u8>, field: Seq<u8>)
    requires
        escapes_end_whole(s),
    ensures
        spec_json_string_field(s, field) != Err::<Seq<char>, JsonError>(JsonError::EscapeSplitsCharacter),
{
    if let Ok(start) = spec_field_value(s, field) {
        lemma_string_body_whole(s, start + 1, seq![]);
    }
}

/// Reading an object never meets a splitting escape in such a text.
pub proof fn lemma_object_whole(s: Seq<u8>, i: int, depth: nat)
    requires
        escapes_end_whole(s),
    ensures
        object_escapes_whole(s, i, depth),
    decreases s.len() - i,
{
    if 0 <= i < s.len() {
        if s[i] == 0x22 {
            lemma_string_body_whole(s, i + 1, seq![]);
            lemma_string_body_advances(s, i + 1, seq![]);
            if let Ok((_, next)) = spec_json_string_at(s, i) {
                lemma_object_whole(s, next, depth);
            }
        } else if s[i] == 0x7b {
            lemma_object_whole(s, i + 1, depth + 1);
        } else if s[i] == 0x7d {
            if depth > 1 {
                lemma_object_whole(s, i + 1, (depth - 1) as nat);
            }
        } else {
            lemma_object_whole(s, i + 1, depth);
        }
    }
}

/// Reading a string array never meets a splitting escape in such a text.
pub proof fn lemma_string_array_whole(s: Seq<u8>, i: int)
    requires
        escapes_end_whole(s),
    ensures
        string_array_escapes_whole(s, i),
    decreases s.len() - i,
{
    let j = spec_skip_ws(s, i);
    if !(j >= s.len() || s[j] == 0x5d) {
        lemma_string_body_whole(s, j + 1, seq![]);
        if let Ok((_, next)) = spec_json_string_at(s, j) {
            let k = spec_skip_ws(s, next);
            if k < s.len() && s[k] == 0x2c {
                lemma_array_step_advances(s, i);
                lemma_string_array_whole(s, k + 1);
            }
        }
    }
}

/// A stretch of such a text is such a text.
pub proof fn lemma_escapes_end_whole_subrange(s: Seq<u8>, a: int, b: int)
    requires
        escapes_end_whole(s),
        0 <= a <= b <= s.len(),
    ensures
        escapes_end_whole(s.subrange(a, b)),
{
    let t = s.subrange(a, b);
    assert forall|k: int| #[trigger] escape_ends_whole(t, k) by {
        if 0 <= k && k + 6 <= t.len() && t[k] == 0x5c && t[k + 1] == 0x75 {
            assert(s[a + k] == t[k] && s[a + k + 1] == t[k + 1]);
            assert(escape_ends_whole(s, a + k));
            if k + 6 < t.len() {
                assert(t[k + 6] == s[a + k + 6]);
            }
        }
    }
}

/// Where a field's value starts lies within the text.
pub proof fn lemma_field_value_bounds(s: Seq<u8>, field: Seq<u8>)
    ensures
        spec_field_value(s, field) matches Ok(start) ==> 0 <= start <= s.len(),
{
    lemma_find_from_found(s, quoted(field), 0);
    if let Some(pos) = spec_find_from(s, quoted(field), 0) {
        crate::text::lemma_skip_ws_bounds(s, pos + field.len() + 2);
        let i = spec_skip_ws(s, pos + field.len() + 2);
        if spec_expect_byte(s, i, 0x3a) is Ok {
            crate::text::lemma_skip_ws_bounds(s, i + 1);
        }
    }
}

/// An object's closing brace comes at or after where its reading starts.
pub proof fn lemma_object_from_bounds(s: Seq<u8>, i: int, depth: nat)
    ensures
        spec_object_from(s, i, depth) matches Ok(e) ==> i <= e < s.len(),
    decreases s.len() - i,
{
    if 0 <= i < s.len() {
        if s[i] == 0x22 {
            lemma_string_body_advances(s, i + 1, seq![]);
            if let Ok((_, next)) = spec_json_string_at(s, i) {
                lemma_object_from_bounds(s, next, depth);
            }
        } else if s[i] == 0x7b {
            lemma_object_from_bounds(s, i + 1, depth + 1);
        } else if s[i] == 0x7d {
            if depth > 1 {
                lemma_object_from_bounds(s, i + 1, (depth - 1) as nat);
            }
        } else {
            lemma_object_from_bounds(s, i + 1, depth);
        }
    }
}

/// An object field's value lies within the text.
pub proof fn lemma_object_field_bounds(s: Seq<u8>, field: Seq<u8>)
    ensures
        spec_json_object_field(s, field) matches Ok((a, b)) ==> 0 <= a <= b < s.len(),
{
    lemma_field_value_bounds(s, field);
    if let Ok(start) = spec_field_value(s, field) {
        lemma_object_from_bounds(s, start, 0);
    }
}

/// Reading an object field never meets a splitting escape in such a text.
pub proof fn lemma_object_field_whole(s: Seq<u8>, field: Seq<u8>)
    requires
        escapes_end_whole(s),
    ensures
        object_field_escapes_whole(s, field),
{
    if let Ok(start) = spec_field_value(s, field) {
        lemma_object_whole(s, start, 0);
    }
}

/// Reading a string-array field never meets a splitting escape in such a text.
pub proof fn lemma_string_array_field_whole(s: Seq<u8>, field: Seq<u8>)
    requires
        escapes_end_whole(s),
    ensures
        optional_string_array_escapes_whole(s, field),
{
    if let Ok(start) = spec_field_value(s, field) {
        lemma_string_array_whole(s, start + 1);
    }
}

} // verus!
