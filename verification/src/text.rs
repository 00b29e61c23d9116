//! Byte-level text helpers shared by the hand-written JSON and protobuf readers.
use vstd::prelude::*;
use vstd::utf8::*;

verus! {

/// `u8::is_ascii_whitespace`: space, tab, line feed, form feed or carriage return.
pub open spec fn is_ascii_whitespace(b: u8) -> bool {
    b == 0x20 || b == 0x09 || b == 0x0a || b == 0x0c || b == 0x0d
}

/// `u8::is_ascii_digit`.
pub open spec fn is_ascii_digit(b: u8) -> bool {
    0x30 <= b <= 0x39
}

/// `u8::is_ascii_alphanumeric`.
pub open spec fn is_ascii_alphanumeric(b: u8) -> bool {
    is_ascii_digit(b) || (0x41 <= b <= 0x5a) || (0x61 <= b <= 0x7a)
}

/// The character whose code point is the byte's value (how `byte as char` reads a byte).
pub open spec fn byte_char(b: u8) -> char {
    b as char
}

pub fn ascii_whitespace(b: u8) -> (r: bool)
    ensures
        r == is_ascii_whitespace(b),
{
    b == 0x20 || b == 0x09 || b == 0x0a || b == 0x0c || b == 0x0d
}

pub fn ascii_digit(b: u8) -> (r: bool)
    ensures
        r == is_ascii_digit(b),
{
    0x30 <= b && b <= 0x39
}

pub fn ascii_alphanumeric(b: u8) -> (r: bool)
    ensures
        r == is_ascii_alphanumeric(b),
{
    (0x30 <= b && b <= 0x39) || (0x41 <= b && b <= 0x5a) || (0x61 <= b && b <= 0x7a)
}

pub fn char_of_byte(b: u8) -> (c: char)
    ensures
        c == byte_char(b),
{
    b as char
}

/// The first position at or after `i` that does not hold ASCII whitespace.
pub open spec fn spec_skip_ws(s: Seq<u8>, i: int) -> int
    decreases s.len() - i,
{
    if 0 <= i < s.len() && is_ascii_whitespace(s[i]) {
        spec_skip_ws(s, i + 1)
    } else {
        i
    }
}

pub proof fn lemma_skip_ws_bounds(s: Seq<u8>, i: int)
    requires
        0 <= i,
    ensures
        i <= spec_skip_ws(s, i),
        i <= s.len() ==> spec_skip_ws(s, i) <= s.len(),
        forall|k: int| i <= k < spec_skip_ws(s, i) ==> is_ascii_whitespace(#[trigger] s[k]),
        spec_skip_ws(s, i) < s.len() ==> !is_ascii_whitespace(s[spec_skip_ws(s, i)]),
    decreases s.len() - i,
{
    if 0 <= i < s.len() && is_ascii_whitespace(s[i]) {
        lemma_skip_ws_bounds(s, i + 1);
    }
}

/// Skips ASCII whitespace starting at byte offset `i`.
pub fn skip_ws(input: &[u8], i: usize) -> (r: usize)
    ensures
        r == spec_skip_ws(input@, i as int),
{
    let mut j = i;
    while j < input.len() && ascii_whitespace(input[j])
        invariant
            i <= j,
            j <= i || j <= input@.len(),
            spec_skip_ws(input@, j as int) == spec_skip_ws(input@, i as int),
        decreases input@.len() - j,
    {
        j = j + 1;
    }
    j
}

/// The value of the decimal digits `s[start..end]`.
pub open spec fn decimal_value(s: Seq<u8>, start: int, end: int) -> nat
    decreases end - start,
{
    if end <= start {
        0
    } else {
        decimal_value(s, start, end - 1) * 10 + (s[end - 1] - 0x30) as nat
    }
}

/// True when `s[start..end]` is a non-empty run of ASCII digits.
pub open spec fn all_digits(s: Seq<u8>, start: int, end: int) -> bool {
    start < end && forall|k: int| start <= k < end ==> is_ascii_digit(#[trigger] s[k])
}

/// What `str::parse::<usize>` gives on the bytes `s[start..end]`: an optional `+`
/// followed by at least one digit, whose value fits in `usize`.
pub open spec fn spec_parse_usize(s: Seq<u8>, start: int, end: int) -> Option<usize> {
    let digits_start = if start < end && s[start] == 0x2b { start + 1 } else { start };
    if all_digits(s, digits_start, end) && decimal_value(s, digits_start, end) <= usize::MAX {
        Some(decimal_value(s, digits_start, end) as usize)
    } else {
        None
    }
}

/// The same as [`spec_parse_usize`] for `u64`.
pub open spec fn spec_parse_u64(s: Seq<u8>, start: int, end: int) -> Option<u64> {
    let digits_start = if start < end && s[start] == 0x2b { start + 1 } else { start };
    if all_digits(s, digits_start, end) && decimal_value(s, digits_start, end) <= u64::MAX {
        Some(decimal_value(s, digits_start, end) as u64)
    } else {
        None
    }
}

/// Parses `input[start..end]` as a decimal `u64` in the way `str::parse::<u64>` does.
pub fn parse_u64(input: &[u8], start: usize, end: usize) -> (r: Option<u64>)
    requires
        start <= end <= input@.len(),
    ensures
        r == spec_parse_u64(input@, start as int, end as int),
{
    let digits_start = if start < end && input[start] == 0x2b {
        start + 1
    } else {
        start
    };
    if digits_start >= end {
        return None;
    }
    let mut value: u64 = 0;
    let mut i = digits_start;
    while i < end
        invariant
            digits_start <= i <= end <= input@.len(),
            digits_start < end,
            digits_start == (if start < end && input@[start as int] == 0x2b {
                start + 1
            } else {
                start as int
            }),
            forall|k: int| digits_start <= k < i ==> is_ascii_digit(#[trigger] input@[k]),
            value == decimal_value(input@, digits_start as int, i as int),
        decreases end - i,
    {
        let b = input[i];
        if !ascii_digit(b) {
            assert(!is_ascii_digit(input@[i as int]));
            assert(!all_digits(input@, digits_start as int, end as int));
            return None;
        }
        let digit = (b - 0x30) as u64;
        assert(decimal_value(input@, digits_start as int, i + 1) == value * 10 + digit);
        if value > (u64::MAX - digit) / 10 {
            proof {
                assert(value * 10 + digit > u64::MAX) by (nonlinear_arith)
                    requires
                        value > (u64::MAX - digit) / 10,
                        digit <= 9,
                ;
                lemma_decimal_value_monotone(input@, digits_start as int, (i + 1) as int, end as int);
                assert(decimal_value(input@, digits_start as int, end as int) > u64::MAX);
            }
            return None;
        }
        assert(value * 10 + digit <= u64::MAX) by (nonlinear_arith)
            requires
                value <= (u64::MAX - digit) / 10,
                digit <= 9,
        ;
        value = value * 10 + digit;
        i = i + 1;
    }
    Some(value)
}

/// Parses `input[start..end]` as a decimal `usize` in the way `str::parse::<usize>` does.
pub fn parse_usize(input: &[u8], start: usize, end: usize) -> (r: Option<usize>)
    requires
        start <= end <= input@.len(),
    ensures
        r == spec_parse_usize(input@, start as int, end as int),
{
    let digits_start = if start < end && input[start] == 0x2b {
        start + 1
    } else {
        start
    };
    if digits_start >= end {
        return None;
    }
    let mut value: usize = 0;
    let mut i = digits_start;
    while i < end
        invariant
            digits_start <= i <= end <= input@.len(),
            digits_start < end,
            digits_start == (if start < end && input@[start as int] == 0x2b {
                start + 1
            } else {
                start as int
            }),
            forall|k: int| digits_start <= k < i ==> is_ascii_digit(#[trigger] input@[k]),
            value == decimal_value(input@, digits_start as int, i as int),
        decreases end - i,
    {
        let b = input[i];
        if !ascii_digit(b) {
            assert(!is_ascii_digit(input@[i as int]));
            assert(!all_digits(input@, digits_start as int, end as int));
            return None;
        }
        let digit = (b - 0x30) as usize;
        assert(decimal_value(input@, digits_start as int, i + 1) == value * 10 + digit);
        if value > (usize::MAX - digit) / 10 {
            proof {
                assert(value * 10 + digit > usize::MAX) by (nonlinear_arith)
                    requires
                        value > (usize::MAX - digit) / 10,
                        digit <= 9,
                ;
                lemma_decimal_value_monotone(input@, digits_start as int, (i + 1) as int, end as int);
                assert(decimal_value(input@, digits_start as int, end as int) > usize::MAX);
            }
            return None;
        }
        assert(value * 10 + digit <= usize::MAX) by (nonlinear_arith)
            requires
                value <= (usize::MAX - digit) / 10,
                digit <= 9,
        ;
        value = value * 10 + digit;
        i = i + 1;
    }
    Some(value)
}

/// A longer run of digits never has a smaller value.
pub proof fn lemma_decimal_value_monotone(s: Seq<u8>, start: int, mid: int, end: int)
    requires
        start <= mid <= end,
    ensures
        decimal_value(s, start, mid) <= decimal_value(s, start, end),
    decreases end - mid,
{
    if mid < end {
        lemma_decimal_value_monotone(s, start, mid, end - 1);
    }
}

/// `String::push`.
#[verifier::external_body]
pub(crate) fn push_char(s: &mut String, c: char)
    ensures
        final(s)@ == old(s)@.push(c),
{
    s.push(c)
}

/// `String::from_utf8` on a copy of the bytes: succeeds exactly on well-formed UTF-8,
/// and then holds the decoded characters.
#[verifier::external_body]
pub(crate) fn string_from_utf8(bytes: &[u8]) -> (r: Option<String>)
    ensures
        r is Some <==> valid_utf8(bytes@),
        r matches Some(s) ==> s@ == decode_utf8(bytes@),
{
    String::from_utf8(bytes.to_vec()).ok()
}

/// The text `String::from_utf8_lossy` makes of the bytes: ill-formed sequences become
/// U+FFFD.
pub uninterp spec fn utf8_lossy(bytes: Seq<u8>) -> Seq<char>;

/// `String::from_utf8_lossy`, owned: the bytes decoded, each ill-formed sequence
/// replaced by U+FFFD; well-formed UTF-8 decodes unchanged.
#[verifier::external_body]
pub(crate) fn string_from_utf8_lossy(bytes: &[u8]) -> (r: String)
    ensures
        r@ == utf8_lossy(bytes@),
        valid_utf8(bytes@) ==> r@ == decode_utf8(bytes@),
{
    String::from_utf8_lossy(bytes).into_owned()
}

/// Appends the bytes of `tail` to `out`.
pub fn extend_bytes(out: &mut Vec<u8>, tail: &[u8])
    ensures
        final(out)@ == old(out)@ + tail@,
{
    let mut i: usize = 0;
    while i < tail.len()
        invariant
            i <= tail@.len(),
            out@ == old(out)@ + tail@.take(i as int),
        decreases tail@.len() - i,
    {
        out.push(tail[i]);
        i = i + 1;
        proof {
            assert(tail@.take(i as int) =~= tail@.take(i - 1).push(tail@[i - 1]));
        }
    }
    proof {
        assert(tail@.take(tail@.len() as int) =~= tail@);
    }
}

/// `str::to_string`.
pub fn string_of(s: &str) -> (r: String)
    ensures
        r@ == s@,
{
    s.to_owned()
}

/// True when two character sequences are equal, compared one character at a time.
pub fn chars_eq(a: &str, b: &str) -> (r: bool)
    ensures
        r == (a@ == b@),
{
    let ab = a.as_bytes();
    let bb = b.as_bytes();
    proof {
        vstd::utf8::encode_utf8_decode_utf8(a@);
        vstd::utf8::encode_utf8_decode_utf8(b@);
    }
    if ab.len() != bb.len() {
        return false;
    }
    let mut i: usize = 0;
    while i < ab.len()
        invariant
            ab@.len() == bb@.len(),
            i <= ab@.len(),
            ab@ == vstd::utf8::encode_utf8(a@),
            bb@ == vstd::utf8::encode_utf8(b@),
            forall|k: int| 0 <= k < i ==> ab@[k] == bb@[k],
        decreases ab@.len() - i,
    {
        if ab[i] != bb[i] {
            return false;
        }
        i = i + 1;
    }
    assert(ab@ =~= bb@);
    true
}


/// `String::push_str`.
#[verifier::external_body]
pub(crate) fn push_str(s: &mut String, other: &str)
    ensures
        final(s)@ == old(s)@ + other@,
{
    s.push_str(other)
}

/// The characters of a string slice.
pub fn chars_of(s: &str) -> (r: Vec<char>)
    ensures
        r@ == s@,
{
    broadcast use vstd::string::group_string_axioms;

    let mut out: Vec<char> = Vec::new();
    for c in iter: s.chars()
        invariant
            out@ == iter.seq().take(iter.index() as int),
            iter.seq() == s@,
    {
        out.push(c);
    }
    out
}

/// A string made of the given characters.
pub fn string_from_chars(chars: &[char]) -> (r: String)
    ensures
        r@ == chars@,
{
    let mut out = String::new();
    let mut i: usize = 0;
    while i < chars.len()
        invariant
            i <= chars@.len(),
            out@ == chars@.subrange(0, i as int),
        decreases chars@.len() - i,
    {
        push_char(&mut out, chars[i]);
        i = i + 1;
        proof {
            assert(chars@.subrange(0, i as int) =~= chars@.subrange(0, i - 1).push(chars@[i - 1]));
        }
    }
    proof {
        assert(chars@.subrange(0, chars@.len() as int) =~= chars@);
    }
    out
}

/// True when `s[start..start + prefix.len()]` is `prefix`.
pub open spec fn has_prefix_at<T>(s: Seq<T>, start: int, prefix: Seq<T>) -> bool {
    0 <= start && start + prefix.len() <= s.len() && s.subrange(start, start + prefix.len()) == prefix
}

/// True when `prefix` occurs in `s` at offset `start`.
pub fn chars_match_at(s: &[char], start: usize, prefix: &[char]) -> (r: bool)
    ensures
        r == has_prefix_at(s@, start as int, prefix@),
{
    let n = s.len();
    if start > n || prefix.len() > n - start {
        return false;
    }
    let mut k: usize = 0;
    while k < prefix.len()
        invariant
            n == s@.len(),
            start + prefix@.len() <= s@.len(),
            k <= prefix@.len(),
            forall|j: int| 0 <= j < k ==> s@[start + j] == prefix@[j],
        decreases prefix@.len() - k,
    {
        if s[start + k] != prefix[k] {
            proof {
                assert(s@.subrange(start as int, start + prefix@.len())[k as int] != prefix@[k as int]);
            }
            return false;
        }
        k = k + 1;
    }
    proof {
        assert(s@.subrange(start as int, start + prefix@.len()) =~= prefix@);
    }
    true
}


/// The end of the run of ASCII digits that starts at `i`.
pub open spec fn spec_digit_run_end(s: Seq<u8>, i: int) -> int
    decreases s.len() - i,
{
    if 0 <= i < s.len() && is_ascii_digit(s[i]) {
        spec_digit_run_end(s, i + 1)
    } else {
        i
    }
}

pub proof fn lemma_digit_run_bounds(s: Seq<u8>, i: int)
    requires
        0 <= i,
    ensures
        i <= spec_digit_run_end(s, i),
        i <= s.len() ==> spec_digit_run_end(s, i) <= s.len(),
        forall|k: int| i <= k < spec_digit_run_end(s, i) ==> is_ascii_digit(#[trigger] s[k]),
        spec_digit_run_end(s, i) < s.len() ==> !is_ascii_digit(s[spec_digit_run_end(s, i)]),
    decreases s.len() - i,
{
    if 0 <= i < s.len() && is_ascii_digit(s[i]) {
        lemma_digit_run_bounds(s, i + 1);
    }
}

} // verus!
