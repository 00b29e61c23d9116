//! The pre-tokenizer of the Tekken and Qwen tokenizers: splits text into words
//! (with an optional leading space or symbol), single digits, punctuation runs and
//! whitespace runs, in the manner of their split regular expression.
use vstd::prelude::*;

use crate::text::{chars_of, string_from_chars};

verus! {

// ---------------------------------------------------------------------------
// Character classes
// ---------------------------------------------------------------------------

/// Whether `char::is_alphabetic` holds (the Unicode `Alphabetic` property).
pub uninterp spec fn char_is_alphabetic(c: char) -> bool;

/// Whether `char::is_uppercase` holds (the Unicode `Uppercase` property).
pub uninterp spec fn char_is_uppercase(c: char) -> bool;

/// Whether `char::is_numeric` holds (general categories `Nd`, `Nl` and `No`).
pub uninterp spec fn char_is_numeric(c: char) -> bool;

/// Whether `char::is_whitespace` holds: the Unicode `White_Space` property, which
/// holds of exactly these code points.
pub open spec fn char_is_whitespace(c: char) -> bool {
    let v = c as u32;
    ||| 0x9 <= v <= 0xD
    ||| v == 0x20
    ||| v == 0x85
    ||| v == 0xA0
    ||| v == 0x1680
    ||| 0x2000 <= v <= 0x200A
    ||| v == 0x2028
    ||| v == 0x2029
    ||| v == 0x202F
    ||| v == 0x205F
    ||| v == 0x3000
}

/// `char::is_alphabetic`; its Unicode table is std's, so only its name is stated.
#[verifier::external_body]
fn alphabetic(c: char) -> (r: bool)
    ensures
        r == char_is_alphabetic(c),
{
    c.is_alphabetic()
}

/// `char::is_uppercase`; its Unicode table is std's, so only its name is stated.
#[verifier::external_body]
fn uppercase(c: char) -> (r: bool)
    ensures
        r == char_is_uppercase(c),
{
    c.is_uppercase()
}

/// `char::is_numeric`; its Unicode table is std's, so only its name is stated.
#[verifier::external_body]
fn numeric(c: char) -> (r: bool)
    ensures
        r == char_is_numeric(c),
{
    c.is_numeric()
}

/// Whether `c` is white space in the sense of `char::is_whitespace`.
pub fn whitespace(c: char) -> (r: bool)
    ensures
        r == char_is_whitespace(c),
{
    let v = c as u32;
    (0x9 <= v && v <= 0xD) || v == 0x20 || v == 0x85 || v == 0xA0 || v == 0x1680 || (0x2000 <= v && v
        <= 0x200A) || v == 0x2028 || v == 0x2029 || v == 0x202F || v == 0x205F || v == 0x3000
}

/// Combining marks and other characters that continue a word (the nonspacing and
/// enclosing marks of the Unicode tables, by code point).
pub open spec fn is_markish(ch: char) -> bool {
    let v = ch as u32;
    (0x0300 <= v && v <= 0x036F) || (0x0483 <= v && v <= 0x0489) || (0x0591 <= v && v <= 0x05BD)
        || v == 0x05BF || (0x05C1 <= v && v <= 0x05C2) || (0x05C4 <= v && v <= 0x05C5)
        || v == 0x05C7 || (0x0610 <= v && v <= 0x061A) || (0x064B <= v && v <= 0x065F)
        || v == 0x0670 || (0x06D6 <= v && v <= 0x06DC) || (0x06DF <= v && v <= 0x06E4)
        || (0x06E7 <= v && v <= 0x06E8) || (0x06EA <= v && v <= 0x06ED) || v == 0x0711
        || (0x0730 <= v && v <= 0x074A) || (0x07A6 <= v && v <= 0x07B0) || (0x07EB <= v && v <= 0x07F3)
        || (0x0816 <= v && v <= 0x0819) || (0x081B <= v && v <= 0x0823) || (0x0825 <= v && v <= 0x0827)
        || (0x0829 <= v && v <= 0x082D) || (0x0859 <= v && v <= 0x085B) || (0x08D3 <= v && v <= 0x08E1)
        || (0x08E3 <= v && v <= 0x0903) || (0x093A <= v && v <= 0x093C) || (0x0941 <= v && v <= 0x0948)
        || v == 0x094D || (0x0951 <= v && v <= 0x0957) || (0x0962 <= v && v <= 0x0963)
        || v == 0x0981 || v == 0x09BC || (0x09C1 <= v && v <= 0x09C4)
        || v == 0x09CD || (0x09E2 <= v && v <= 0x09E3) || (0x0A01 <= v && v <= 0x0A02)
        || v == 0x0A3C || (0x0A41 <= v && v <= 0x0A42) || (0x0A47 <= v && v <= 0x0A48)
        || (0x0A4B <= v && v <= 0x0A4D) || v == 0x0A51 || (0x0A70 <= v && v <= 0x0A71)
        || v == 0x0A75 || (0x0A81 <= v && v <= 0x0A82) || v == 0x0ABC
        || (0x0AC1 <= v && v <= 0x0AC5) || (0x0AC7 <= v && v <= 0x0AC8) || v == 0x0ACD
        || (0x0AE2 <= v && v <= 0x0AE3) || v == 0x0B01 || v == 0x0B3C
        || v == 0x0B3F || (0x0B41 <= v && v <= 0x0B44) || v == 0x0B4D
        || v == 0x0B56 || (0x0B62 <= v && v <= 0x0B63) || v == 0x0B82
        || v == 0x0BC0 || v == 0x0BCD || v == 0x0C00
        || v == 0x0C04 || (0x0C3E <= v && v <= 0x0C40) || (0x0C46 <= v && v <= 0x0C48)
        || (0x0C4A <= v && v <= 0x0C4D) || (0x0C55 <= v && v <= 0x0C56) || (0x0C62 <= v && v <= 0x0C63)
        || v == 0x0C81 || v == 0x0CBC || v == 0x0CBF
        || v == 0x0CC6 || (0x0CCC <= v && v <= 0x0CCD) || (0x0CE2 <= v && v <= 0x0CE3)
        || (0x0D00 <= v && v <= 0x0D01) || (0x0D3B <= v && v <= 0x0D3C) || (0x0D41 <= v && v <= 0x0D44)
        || v == 0x0D4D || (0x0D62 <= v && v <= 0x0D63) || v == 0x0DCA
        || (0x0DD2 <= v && v <= 0x0DD4) || v == 0x0DD6 || v == 0x0E31
        || (0x0E34 <= v && v <= 0x0E3A) || (0x0E47 <= v && v <= 0x0E4E) || v == 0x0EB1
        || (0x0EB4 <= v && v <= 0x0EBC) || (0x0EC8 <= v && v <= 0x0ECD) || (0x0F18 <= v && v <= 0x0F19)
        || v == 0x0F35 || v == 0x0F37 || v == 0x0F39
        || (0x0F71 <= v && v <= 0x0F7E) || (0x0F80 <= v && v <= 0x0F84) || (0x0F86 <= v && v <= 0x0F87)
        || (0x0F8D <= v && v <= 0x0F97) || (0x0F99 <= v && v <= 0x0FBC) || v == 0x0FC6
        || (0x102D <= v && v <= 0x1030) || (0x1032 <= v && v <= 0x1037) || (0x1039 <= v && v <= 0x103A)
        || (0x103D <= v && v <= 0x103E) || (0x1058 <= v && v <= 0x1059) || (0x105E <= v && v <= 0x1060)
        || (0x1071 <= v && v <= 0x1074) || v == 0x1082 || (0x1085 <= v && v <= 0x1086)
        || v == 0x108D || v == 0x109D || (0x135D <= v && v <= 0x135F)
        || (0x1712 <= v && v <= 0x1714) || (0x1732 <= v && v <= 0x1734) || (0x1752 <= v && v <= 0x1753)
        || (0x1772 <= v && v <= 0x1773) || (0x17B4 <= v && v <= 0x17B5) || (0x17B7 <= v && v <= 0x17BD)
        || v == 0x17C6 || (0x17C9 <= v && v <= 0x17D3) || v == 0x17DD
        || (0x180B <= v && v <= 0x180D) || (0x1885 <= v && v <= 0x1886) || v == 0x18A9
        || (0x1920 <= v && v <= 0x1922) || (0x1927 <= v && v <= 0x1928) || v == 0x1932
        || (0x1939 <= v && v <= 0x193B) || (0x1A17 <= v && v <= 0x1A18) || v == 0x1A1B
        || v == 0x1A56 || (0x1A58 <= v && v <= 0x1A5E) || v == 0x1A60
        || v == 0x1A62 || (0x1A65 <= v && v <= 0x1A6C) || (0x1A73 <= v && v <= 0x1A7C)
        || v == 0x1A7F || (0x1AB0 <= v && v <= 0x1AFF) || (0x1B00 <= v && v <= 0x1B03)
        || v == 0x1B34 || (0x1B36 <= v && v <= 0x1B3A) || v == 0x1B3C
        || v == 0x1B42 || (0x1B6B <= v && v <= 0x1B73) || (0x1B80 <= v && v <= 0x1B81)
        || (0x1BA2 <= v && v <= 0x1BA5) || (0x1BA8 <= v && v <= 0x1BA9) || (0x1BAB <= v && v <= 0x1BAD)
        || v == 0x1BE6 || (0x1BE8 <= v && v <= 0x1BE9) || v == 0x1BED
        || (0x1BEF <= v && v <= 0x1BF1) || (0x1C2C <= v && v <= 0x1C33) || (0x1C36 <= v && v <= 0x1C37)
        || (0x1CD0 <= v && v <= 0x1CD2) || (0x1CD4 <= v && v <= 0x1CE0) || (0x1CE2 <= v && v <= 0x1CE8)
        || v == 0x1CED || v == 0x1CF4 || (0x1CF8 <= v && v <= 0x1CF9)
        || (0x1DC0 <= v && v <= 0x1DFF) || (0x20D0 <= v && v <= 0x20FF) || (0x2CEF <= v && v <= 0x2CF1)
        || v == 0x2D7F || (0x2DE0 <= v && v <= 0x2DFF) || (0x302A <= v && v <= 0x302F)
        || (0x3099 <= v && v <= 0x309A) || v == 0xA66F || (0xA674 <= v && v <= 0xA67D)
        || (0xA69E <= v && v <= 0xA69F) || (0xA6F0 <= v && v <= 0xA6F1) || v == 0xA802
        || v == 0xA806 || v == 0xA80B || (0xA825 <= v && v <= 0xA826)
        || v == 0xA82C || (0xA8C4 <= v && v <= 0xA8C5) || (0xA8E0 <= v && v <= 0xA8F1)
        || v == 0xA8FF || (0xA926 <= v && v <= 0xA92D) || (0xA947 <= v && v <= 0xA951)
        || (0xA980 <= v && v <= 0xA982) || v == 0xA9B3 || (0xA9B6 <= v && v <= 0xA9B9)
        || v == 0xA9BC || v == 0xA9E5 || (0xAA29 <= v && v <= 0xAA2E)
        || (0xAA31 <= v && v <= 0xAA32) || (0xAA35 <= v && v <= 0xAA36) || v == 0xAA43
        || v == 0xAA4C || v == 0xAA7C || v == 0xAAB0
        || (0xAAB2 <= v && v <= 0xAAB4) || (0xAAB7 <= v && v <= 0xAAB8) || (0xAABE <= v && v <= 0xAABF)
        || v == 0xAAC1 || (0xAAEC <= v && v <= 0xAAED) || v == 0xAAF6
        || v == 0xABE5 || v == 0xABE8 || v == 0xABED
        || v == 0xFB1E || (0xFE00 <= v && v <= 0xFE0F) || (0xFE20 <= v && v <= 0xFE2F)
        || v == 0x101FD || v == 0x102E0 || (0x10376 <= v && v <= 0x1037A)
        || (0x10A01 <= v && v <= 0x10A03) || (0x10A05 <= v && v <= 0x10A06) || (0x10A0C <= v && v <= 0x10A0F)
        || (0x10A38 <= v && v <= 0x10A3A) || v == 0x10A3F || (0x10AE5 <= v && v <= 0x10AE6)
        || (0x10D24 <= v && v <= 0x10D27) || (0x10EAB <= v && v <= 0x10EAC) || (0x10F46 <= v && v <= 0x10F50)
        || (0x10F82 <= v && v <= 0x10F85) || v == 0x11001 || (0x11038 <= v && v <= 0x11046)
        || v == 0x11070 || (0x11073 <= v && v <= 0x11074) || (0x1107F <= v && v <= 0x11081)
        || (0x110B3 <= v && v <= 0x110B6) || (0x110B9 <= v && v <= 0x110BA) || v == 0x110C2
        || (0x11100 <= v && v <= 0x11102) || (0x11127 <= v && v <= 0x1112B) || (0x1112D <= v && v <= 0x11134)
        || v == 0x11173 || (0x11180 <= v && v <= 0x11181) || (0x111B6 <= v && v <= 0x111BE)
        || (0x111C9 <= v && v <= 0x111CC) || v == 0x111CF || (0x1122F <= v && v <= 0x11231)
        || v == 0x11234 || (0x11236 <= v && v <= 0x11237) || v == 0x1123E
        || v == 0x112DF || (0x112E3 <= v && v <= 0x112EA) || (0x11300 <= v && v <= 0x11301)
        || (0x1133B <= v && v <= 0x1133C) || v == 0x11340 || (0x11366 <= v && v <= 0x1136C)
        || (0x11370 <= v && v <= 0x11374) || (0x11438 <= v && v <= 0x1143F) || (0x11442 <= v && v <= 0x11444)
        || v == 0x11446 || v == 0x1145E || (0x114B3 <= v && v <= 0x114B8)
        || v == 0x114BA || (0x114BF <= v && v <= 0x114C0) || (0x114C2 <= v && v <= 0x114C3)
        || (0x115B2 <= v && v <= 0x115B5) || (0x115BC <= v && v <= 0x115BD) || (0x115BF <= v && v <= 0x115C0)
        || (0x115DC <= v && v <= 0x115DD) || (0x11633 <= v && v <= 0x1163A) || v == 0x1163D
        || (0x1163F <= v && v <= 0x11640) || v == 0x116AB || v == 0x116AD
        || (0x116B0 <= v && v <= 0x116B5) || v == 0x116B7 || (0x1171D <= v && v <= 0x1171F)
        || (0x11722 <= v && v <= 0x11725) || (0x11727 <= v && v <= 0x1172B) || (0x1182F <= v && v <= 0x11837)
        || (0x11839 <= v && v <= 0x1183A) || (0x1193B <= v && v <= 0x1193C) || v == 0x1193E
        || v == 0x11943 || (0x119D4 <= v && v <= 0x119D7) || (0x119DA <= v && v <= 0x119DB)
        || v == 0x119E0 || (0x11A01 <= v && v <= 0x11A0A) || (0x11A33 <= v && v <= 0x11A38)
        || (0x11A3B <= v && v <= 0x11A3E) || v == 0x11A47 || (0x11A51 <= v && v <= 0x11A56)
        || (0x11A59 <= v && v <= 0x11A5B) || (0x11A8A <= v && v <= 0x11A96) || (0x11A98 <= v && v <= 0x11A99)
        || (0x11C30 <= v && v <= 0x11C36) || (0x11C38 <= v && v <= 0x11C3D) || v == 0x11C3F
        || (0x11C92 <= v && v <= 0x11CA7) || (0x11CAA <= v && v <= 0x11CB0) || (0x11CB2 <= v && v <= 0x11CB3)
        || (0x11CB5 <= v && v <= 0x11CB6) || (0x11D31 <= v && v <= 0x11D36) || v == 0x11D3A
        || (0x11D3C <= v && v <= 0x11D3D) || (0x11D3F <= v && v <= 0x11D45) || v == 0x11D47
        || (0x11D90 <= v && v <= 0x11D91) || v == 0x11D95 || v == 0x11D97
        || (0x11EF3 <= v && v <= 0x11EF4) || (0x16AF0 <= v && v <= 0x16AF4) || (0x16B30 <= v && v <= 0x16B36)
        || v == 0x16F4F || (0x16F8F <= v && v <= 0x16F92) || v == 0x16FE4
        || (0x1BC9D <= v && v <= 0x1BC9E) || (0x1CF00 <= v && v <= 0x1CF2D) || (0x1CF30 <= v && v <= 0x1CF46)
        || (0x1D167 <= v && v <= 0x1D169) || (0x1D17B <= v && v <= 0x1D182) || (0x1D185 <= v && v <= 0x1D18B)
        || (0x1D1AA <= v && v <= 0x1D1AD) || (0x1D242 <= v && v <= 0x1D244) || (0x1DA00 <= v && v <= 0x1DA36)
        || (0x1DA3B <= v && v <= 0x1DA6C) || v == 0x1DA75 || v == 0x1DA84
        || (0x1DA9B <= v && v <= 0x1DA9F) || (0x1DAA1 <= v && v <= 0x1DAAF) || (0x1E000 <= v && v <= 0x1E006)
        || (0x1E008 <= v && v <= 0x1E018) || (0x1E01B <= v && v <= 0x1E021) || (0x1E023 <= v && v <= 0x1E024)
        || (0x1E026 <= v && v <= 0x1E02A) || (0x1E130 <= v && v <= 0x1E136) || v == 0x1E2AE
        || (0x1E2EC <= v && v <= 0x1E2EF) || (0x1E8D0 <= v && v <= 0x1E8D6) || (0x1E944 <= v && v <= 0x1E94A)
        || (0xE0100 <= v && v <= 0xE01EF)
}

fn markish(ch: char) -> (r: bool)
    ensures
        r == is_markish(ch),
{
    let v = ch as u32;
    (0x0300 <= v && v <= 0x036F) || (0x0483 <= v && v <= 0x0489) || (0x0591 <= v && v <= 0x05BD)
        || v == 0x05BF || (0x05C1 <= v && v <= 0x05C2) || (0x05C4 <= v && v <= 0x05C5)
        || v == 0x05C7 || (0x0610 <= v && v <= 0x061A) || (0x064B <= v && v <= 0x065F)
        || v == 0x0670 || (0x06D6 <= v && v <= 0x06DC) || (0x06DF <= v && v <= 0x06E4)
        || (0x06E7 <= v && v <= 0x06E8) || (0x06EA <= v && v <= 0x06ED) || v == 0x0711
        || (0x0730 <= v && v <= 0x074A) || (0x07A6 <= v && v <= 0x07B0) || (0x07EB <= v && v <= 0x07F3)
        || (0x0816 <= v && v <= 0x0819) || (0x081B <= v && v <= 0x0823) || (0x0825 <= v && v <= 0x0827)
        || (0x0829 <= v && v <= 0x082D) || (0x0859 <= v && v <= 0x085B) || (0x08D3 <= v && v <= 0x08E1)
        || (0x08E3 <= v && v <= 0x0903) || (0x093A <= v && v <= 0x093C) || (0x0941 <= v && v <= 0x0948)
        || v == 0x094D || (0x0951 <= v && v <= 0x0957) || (0x0962 <= v && v <= 0x0963)
        || v == 0x0981 || v == 0x09BC || (0x09C1 <= v && v <= 0x09C4)
        || v == 0x09CD || (0x09E2 <= v && v <= 0x09E3) || (0x0A01 <= v && v <= 0x0A02)
        || v == 0x0A3C || (0x0A41 <= v && v <= 0x0A42) || (0x0A47 <= v && v <= 0x0A48)
        || (0x0A4B <= v && v <= 0x0A4D) || v == 0x0A51 || (0x0A70 <= v && v <= 0x0A71)
        || v == 0x0A75 || (0x0A81 <= v && v <= 0x0A82) || v == 0x0ABC
        || (0x0AC1 <= v && v <= 0x0AC5) || (0x0AC7 <= v && v <= 0x0AC8) || v == 0x0ACD
        || (0x0AE2 <= v && v <= 0x0AE3) || v == 0x0B01 || v == 0x0B3C
        || v == 0x0B3F || (0x0B41 <= v && v <= 0x0B44) || v == 0x0B4D
        || v == 0x0B56 || (0x0B62 <= v && v <= 0x0B63) || v == 0x0B82
        || v == 0x0BC0 || v == 0x0BCD || v == 0x0C00
        || v == 0x0C04 || (0x0C3E <= v && v <= 0x0C40) || (0x0C46 <= v && v <= 0x0C48)
        || (0x0C4A <= v && v <= 0x0C4D) || (0x0C55 <= v && v <= 0x0C56) || (0x0C62 <= v && v <= 0x0C63)
        || v == 0x0C81 || v == 0x0CBC || v == 0x0CBF
        || v == 0x0CC6 || (0x0CCC <= v && v <= 0x0CCD) || (0x0CE2 <= v && v <= 0x0CE3)
        || (0x0D00 <= v && v <= 0x0D01) || (0x0D3B <= v && v <= 0x0D3C) || (0x0D41 <= v && v <= 0x0D44)
        || v == 0x0D4D || (0x0D62 <= v && v <= 0x0D63) || v == 0x0DCA
        || (0x0DD2 <= v && v <= 0x0DD4) || v == 0x0DD6 || v == 0x0E31
        || (0x0E34 <= v && v <= 0x0E3A) || (0x0E47 <= v && v <= 0x0E4E) || v == 0x0EB1
        || (0x0EB4 <= v && v <= 0x0EBC) || (0x0EC8 <= v && v <= 0x0ECD) || (0x0F18 <= v && v <= 0x0F19)
        || v == 0x0F35 || v == 0x0F37 || v == 0x0F39
        || (0x0F71 <= v && v <= 0x0F7E) || (0x0F80 <= v && v <= 0x0F84) || (0x0F86 <= v && v <= 0x0F87)
        || (0x0F8D <= v && v <= 0x0F97) || (0x0F99 <= v && v <= 0x0FBC) || v == 0x0FC6
        || (0x102D <= v && v <= 0x1030) || (0x1032 <= v && v <= 0x1037) || (0x1039 <= v && v <= 0x103A)
        || (0x103D <= v && v <= 0x103E) || (0x1058 <= v && v <= 0x1059) || (0x105E <= v && v <= 0x1060)
        || (0x1071 <= v && v <= 0x1074) || v == 0x1082 || (0x1085 <= v && v <= 0x1086)
        || v == 0x108D || v == 0x109D || (0x135D <= v && v <= 0x135F)
        || (0x1712 <= v && v <= 0x1714) || (0x1732 <= v && v <= 0x1734) || (0x1752 <= v && v <= 0x1753)
        || (0x1772 <= v && v <= 0x1773) || (0x17B4 <= v && v <= 0x17B5) || (0x17B7 <= v && v <= 0x17BD)
        || v == 0x17C6 || (0x17C9 <= v && v <= 0x17D3) || v == 0x17DD
        || (0x180B <= v && v <= 0x180D) || (0x1885 <= v && v <= 0x1886) || v == 0x18A9
        || (0x1920 <= v && v <= 0x1922) || (0x1927 <= v && v <= 0x1928) || v == 0x1932
        || (0x1939 <= v && v <= 0x193B) || (0x1A17 <= v && v <= 0x1A18) || v == 0x1A1B
        || v == 0x1A56 || (0x1A58 <= v && v <= 0x1A5E) || v == 0x1A60
        || v == 0x1A62 || (0x1A65 <= v && v <= 0x1A6C) || (0x1A73 <= v && v <= 0x1A7C)
        || v == 0x1A7F || (0x1AB0 <= v && v <= 0x1AFF) || (0x1B00 <= v && v <= 0x1B03)
        || v == 0x1B34 || (0x1B36 <= v && v <= 0x1B3A) || v == 0x1B3C
        || v == 0x1B42 || (0x1B6B <= v && v <= 0x1B73) || (0x1B80 <= v && v <= 0x1B81)
        || (0x1BA2 <= v && v <= 0x1BA5) || (0x1BA8 <= v && v <= 0x1BA9) || (0x1BAB <= v && v <= 0x1BAD)
        || v == 0x1BE6 || (0x1BE8 <= v && v <= 0x1BE9) || v == 0x1BED
        || (0x1BEF <= v && v <= 0x1BF1) || (0x1C2C <= v && v <= 0x1C33) || (0x1C36 <= v && v <= 0x1C37)
        || (0x1CD0 <= v && v <= 0x1CD2) || (0x1CD4 <= v && v <= 0x1CE0) || (0x1CE2 <= v && v <= 0x1CE8)
        || v == 0x1CED || v == 0x1CF4 || (0x1CF8 <= v && v <= 0x1CF9)
        || (0x1DC0 <= v && v <= 0x1DFF) || (0x20D0 <= v && v <= 0x20FF) || (0x2CEF <= v && v <= 0x2CF1)
        || v == 0x2D7F || (0x2DE0 <= v && v <= 0x2DFF) || (0x302A <= v && v <= 0x302F)
        || (0x3099 <= v && v <= 0x309A) || v == 0xA66F || (0xA674 <= v && v <= 0xA67D)
        || (0xA69E <= v && v <= 0xA69F) || (0xA6F0 <= v && v <= 0xA6F1) || v == 0xA802
        || v == 0xA806 || v == 0xA80B || (0xA825 <= v && v <= 0xA826)
        || v == 0xA82C || (0xA8C4 <= v && v <= 0xA8C5) || (0xA8E0 <= v && v <= 0xA8F1)
        || v == 0xA8FF || (0xA926 <= v && v <= 0xA92D) || (0xA947 <= v && v <= 0xA951)
        || (0xA980 <= v && v <= 0xA982) || v == 0xA9B3 || (0xA9B6 <= v && v <= 0xA9B9)
        || v == 0xA9BC || v == 0xA9E5 || (0xAA29 <= v && v <= 0xAA2E)
        || (0xAA31 <= v && v <= 0xAA32) || (0xAA35 <= v && v <= 0xAA36) || v == 0xAA43
        || v == 0xAA4C || v == 0xAA7C || v == 0xAAB0
        || (0xAAB2 <= v && v <= 0xAAB4) || (0xAAB7 <= v && v <= 0xAAB8) || (0xAABE <= v && v <= 0xAABF)
        || v == 0xAAC1 || (0xAAEC <= v && v <= 0xAAED) || v == 0xAAF6
        || v == 0xABE5 || v == 0xABE8 || v == 0xABED
        || v == 0xFB1E || (0xFE00 <= v && v <= 0xFE0F) || (0xFE20 <= v && v <= 0xFE2F)
        || v == 0x101FD || v == 0x102E0 || (0x10376 <= v && v <= 0x1037A)
        || (0x10A01 <= v && v <= 0x10A03) || (0x10A05 <= v && v <= 0x10A06) || (0x10A0C <= v && v <= 0x10A0F)
        || (0x10A38 <= v && v <= 0x10A3A) || v == 0x10A3F || (0x10AE5 <= v && v <= 0x10AE6)
        || (0x10D24 <= v && v <= 0x10D27) || (0x10EAB <= v && v <= 0x10EAC) || (0x10F46 <= v && v <= 0x10F50)
        || (0x10F82 <= v && v <= 0x10F85) || v == 0x11001 || (0x11038 <= v && v <= 0x11046)
        || v == 0x11070 || (0x11073 <= v && v <= 0x11074) || (0x1107F <= v && v <= 0x11081)
        || (0x110B3 <= v && v <= 0x110B6) || (0x110B9 <= v && v <= 0x110BA) || v == 0x110C2
        || (0x11100 <= v && v <= 0x11102) || (0x11127 <= v && v <= 0x1112B) || (0x1112D <= v && v <= 0x11134)
        || v == 0x11173 || (0x11180 <= v && v <= 0x11181) || (0x111B6 <= v && v <= 0x111BE)
        || (0x111C9 <= v && v <= 0x111CC) || v == 0x111CF || (0x1122F <= v && v <= 0x11231)
        || v == 0x11234 || (0x11236 <= v && v <= 0x11237) || v == 0x1123E
        || v == 0x112DF || (0x112E3 <= v && v <= 0x112EA) || (0x11300 <= v && v <= 0x11301)
        || (0x1133B <= v && v <= 0x1133C) || v == 0x11340 || (0x11366 <= v && v <= 0x1136C)
        || (0x11370 <= v && v <= 0x11374) || (0x11438 <= v && v <= 0x1143F) || (0x11442 <= v && v <= 0x11444)
        || v == 0x11446 || v == 0x1145E || (0x114B3 <= v && v <= 0x114B8)
        || v == 0x114BA || (0x114BF <= v && v <= 0x114C0) || (0x114C2 <= v && v <= 0x114C3)
        || (0x115B2 <= v && v <= 0x115B5) || (0x115BC <= v && v <= 0x115BD) || (0x115BF <= v && v <= 0x115C0)
        || (0x115DC <= v && v <= 0x115DD) || (0x11633 <= v && v <= 0x1163A) || v == 0x1163D
        || (0x1163F <= v && v <= 0x11640) || v == 0x116AB || v == 0x116AD
        || (0x116B0 <= v && v <= 0x116B5) || v == 0x116B7 || (0x1171D <= v && v <= 0x1171F)
        || (0x11722 <= v && v <= 0x11725) || (0x11727 <= v && v <= 0x1172B) || (0x1182F <= v && v <= 0x11837)
        || (0x11839 <= v && v <= 0x1183A) || (0x1193B <= v && v <= 0x1193C) || v == 0x1193E
        || v == 0x11943 || (0x119D4 <= v && v <= 0x119D7) || (0x119DA <= v && v <= 0x119DB)
        || v == 0x119E0 || (0x11A01 <= v && v <= 0x11A0A) || (0x11A33 <= v && v <= 0x11A38)
        || (0x11A3B <= v && v <= 0x11A3E) || v == 0x11A47 || (0x11A51 <= v && v <= 0x11A56)
        || (0x11A59 <= v && v <= 0x11A5B) || (0x11A8A <= v && v <= 0x11A96) || (0x11A98 <= v && v <= 0x11A99)
        || (0x11C30 <= v && v <= 0x11C36) || (0x11C38 <= v && v <= 0x11C3D) || v == 0x11C3F
        || (0x11C92 <= v && v <= 0x11CA7) || (0x11CAA <= v && v <= 0x11CB0) || (0x11CB2 <= v && v <= 0x11CB3)
        || (0x11CB5 <= v && v <= 0x11CB6) || (0x11D31 <= v && v <= 0x11D36) || v == 0x11D3A
        || (0x11D3C <= v && v <= 0x11D3D) || (0x11D3F <= v && v <= 0x11D45) || v == 0x11D47
        || (0x11D90 <= v && v <= 0x11D91) || v == 0x11D95 || v == 0x11D97
        || (0x11EF3 <= v && v <= 0x11EF4) || (0x16AF0 <= v && v <= 0x16AF4) || (0x16B30 <= v && v <= 0x16B36)
        || v == 0x16F4F || (0x16F8F <= v && v <= 0x16F92) || v == 0x16FE4
        || (0x1BC9D <= v && v <= 0x1BC9E) || (0x1CF00 <= v && v <= 0x1CF2D) || (0x1CF30 <= v && v <= 0x1CF46)
        || (0x1D167 <= v && v <= 0x1D169) || (0x1D17B <= v && v <= 0x1D182) || (0x1D185 <= v && v <= 0x1D18B)
        || (0x1D1AA <= v && v <= 0x1D1AD) || (0x1D242 <= v && v <= 0x1D244) || (0x1DA00 <= v && v <= 0x1DA36)
        || (0x1DA3B <= v && v <= 0x1DA6C) || v == 0x1DA75 || v == 0x1DA84
        || (0x1DA9B <= v && v <= 0x1DA9F) || (0x1DAA1 <= v && v <= 0x1DAAF) || (0x1E000 <= v && v <= 0x1E006)
        || (0x1E008 <= v && v <= 0x1E018) || (0x1E01B <= v && v <= 0x1E021) || (0x1E023 <= v && v <= 0x1E024)
        || (0x1E026 <= v && v <= 0x1E02A) || (0x1E130 <= v && v <= 0x1E136) || v == 0x1E2AE
        || (0x1E2EC <= v && v <= 0x1E2EF) || (0x1E8D0 <= v && v <= 0x1E8D6) || (0x1E944 <= v && v <= 0x1E94A)
        || (0xE0100 <= v && v <= 0xE01EF)
}

pub open spec fn is_letterish(ch: char) -> bool {
    char_is_alphabetic(ch) || is_markish(ch)
}

/// A character that may start a word before its first letter.
pub open spec fn is_optional_word_prefix(ch: char) -> bool {
    ch != '\r' && ch != '\n' && !is_letterish(ch) && !char_is_numeric(ch)
}

pub open spec fn is_upper_letterish(ch: char) -> bool {
    char_is_uppercase(ch)
}

pub open spec fn is_lower_or_uncased_letterish(ch: char) -> bool {
    is_letterish(ch) && !is_upper_letterish(ch)
}

pub open spec fn is_token_punctuation(ch: char) -> bool {
    !char_is_whitespace(ch) && !is_letterish(ch) && !char_is_numeric(ch)
}

fn letterish(ch: char) -> (r: bool)
    ensures
        r == is_letterish(ch),
{
    alphabetic(ch) || markish(ch)
}

fn optional_word_prefix(ch: char) -> (r: bool)
    ensures
        r == is_optional_word_prefix(ch),
{
    ch != '\r' && ch != '\n' && !letterish(ch) && !numeric(ch)
}

fn lower_or_uncased_letterish(ch: char) -> (r: bool)
    ensures
        r == is_lower_or_uncased_letterish(ch),
{
    letterish(ch) && !uppercase(ch)
}

fn token_punctuation(ch: char) -> (r: bool)
    ensures
        r == is_token_punctuation(ch),
{
    !whitespace(ch) && !letterish(ch) && !numeric(ch)
}

// ---------------------------------------------------------------------------
// Runs
// ---------------------------------------------------------------------------

/// The end of the run of lower-case or uncased letters from `i`.
pub open spec fn lower_run_end(s: Seq<char>, i: int) -> int
    decreases s.len() - i,
{
    if 0 <= i < s.len() && is_lower_or_uncased_letterish(s[i]) {
        lower_run_end(s, i + 1)
    } else {
        i
    }
}

/// The end of the run of upper-case characters from `i`.
pub open spec fn upper_run_end(s: Seq<char>, i: int) -> int
    decreases s.len() - i,
{
    if 0 <= i < s.len() && is_upper_letterish(s[i]) {
        upper_run_end(s, i + 1)
    } else {
        i
    }
}

/// The end of the run of punctuation from `i`.
pub open spec fn punctuation_run_end(s: Seq<char>, i: int) -> int
    decreases s.len() - i,
{
    if 0 <= i < s.len() && is_token_punctuation(s[i]) {
        punctuation_run_end(s, i + 1)
    } else {
        i
    }
}

/// The end of the run of `\r`, `\n` and `/` from `i`.
pub open spec fn line_break_run_end(s: Seq<char>, i: int) -> int
    decreases s.len() - i,
{
    if 0 <= i < s.len() && (s[i] == '\r' || s[i] == '\n' || s[i] == '/') {
        line_break_run_end(s, i + 1)
    } else {
        i
    }
}

/// The end of the run of whitespace from `i`.
pub open spec fn whitespace_run_end(s: Seq<char>, i: int) -> int
    decreases s.len() - i,
{
    if 0 <= i < s.len() && char_is_whitespace(s[i]) {
        whitespace_run_end(s, i + 1)
    } else {
        i
    }
}

/// The end of the word that starts with the character at `start`: upper-case
/// letters, then lower-case or uncased ones.
pub open spec fn word_end(s: Seq<char>, start: int) -> int {
    if !is_upper_letterish(s[start]) {
        lower_run_end(s, start + 1)
    } else {
        lower_run_end(s, upper_run_end(s, start + 1))
    }
}

/// The end of a punctuation run from `i` together with the line breaks and slashes
/// after it.
pub open spec fn punctuation_end(s: Seq<char>, i: int) -> int {
    line_break_run_end(s, punctuation_run_end(s, i))
}

/// The end of the piece that starts at `i`.
pub open spec fn piece_end(s: Seq<char>, i: int) -> int {
    let ch = s[i];
    let next = i + 1;
    if is_optional_word_prefix(ch) && next < s.len() && is_letterish(s[next]) {
        word_end(s, next)
    } else if is_optional_word_prefix(ch) && next < s.len() && ch == ' ' && is_token_punctuation(s[next]) {
        punctuation_end(s, next + 1)
    } else if is_letterish(ch) {
        word_end(s, i)
    } else if char_is_numeric(ch) {
        next
    } else if is_token_punctuation(ch) {
        punctuation_end(s, next)
    } else if char_is_whitespace(ch) {
        whitespace_run_end(s, next)
    } else {
        next
    }
}

pub proof fn lemma_run_ends(s: Seq<char>, i: int)
    requires
        0 <= i <= s.len(),
    ensures
        i <= lower_run_end(s, i) <= s.len(),
        i <= upper_run_end(s, i) <= s.len(),
        i <= punctuation_run_end(s, i) <= s.len(),
        i <= line_break_run_end(s, i) <= s.len(),
        i <= whitespace_run_end(s, i) <= s.len(),
    decreases s.len() - i,
{
    if i < s.len() {
        lemma_run_ends(s, i + 1);
    }
}

/// Each piece is at least one character long and ends within the text.
pub proof fn lemma_piece_end_bounds(s: Seq<char>, i: int)
    requires
        0 <= i < s.len(),
    ensures
        i < piece_end(s, i) <= s.len(),
{
    lemma_run_ends(s, i + 1);
    if i + 2 <= s.len() {
        lemma_run_ends(s, i + 2);
        lemma_run_ends(s, upper_run_end(s, i + 2));
        lemma_run_ends(s, punctuation_run_end(s, i + 2));
    }
    lemma_run_ends(s, upper_run_end(s, i + 1));
    lemma_run_ends(s, punctuation_run_end(s, i + 1));
}

/// The pieces of `s` from character `i` on.
pub open spec fn pieces_from(s: Seq<char>, i: int) -> Seq<Seq<char>>
    decreases s.len() - i,
{
    if i < 0 || i >= s.len() {
        seq![]
    } else {
        proof {
            lemma_piece_end_bounds(s, i);
        }
        seq![s.subrange(i, piece_end(s, i))] + pieces_from(s, piece_end(s, i))
    }
}

/// All pieces laid end to end.
pub open spec fn concat_pieces(pieces: Seq<Seq<char>>) -> Seq<char>
    decreases pieces.len(),
{
    if pieces.len() == 0 {
        seq![]
    } else {
        pieces[0] + concat_pieces(pieces.drop_first())
    }
}

/// The pieces of a text make up the text, in order, and none is empty.
pub proof fn lemma_pieces_partition(s: Seq<char>, i: int)
    requires
        0 <= i <= s.len(),
    ensures
        concat_pieces(pieces_from(s, i)) == s.subrange(i, s.len() as int),
        forall|k: int| 0 <= k < pieces_from(s, i).len() ==> #[trigger] pieces_from(s, i)[k].len() > 0,
    decreases s.len() - i,
{
    if i < s.len() {
        lemma_piece_end_bounds(s, i);
        let e = piece_end(s, i);
        lemma_pieces_partition(s, e);
        let ps = pieces_from(s, i);
        assert(ps.drop_first() =~= pieces_from(s, e));
        assert(s.subrange(i, e) + s.subrange(e, s.len() as int) =~= s.subrange(i, s.len() as int));
        assert forall|k: int| 0 <= k < ps.len() implies #[trigger] ps[k].len() > 0 by {
            if k > 0 {
                assert(ps[k] == pieces_from(s, e)[k - 1]);
            }
        }
    } else {
        assert(s.subrange(i, s.len() as int) =~= Seq::<char>::empty());
    }
}

fn lower_run(s: &[char], i: usize) -> (r: usize)
    requires
        i <= s@.len(),
    ensures
        r == lower_run_end(s@, i as int),
{
    let mut j = i;
    while j < s.len() && lower_or_uncased_letterish(s[j])
        invariant
            i <= j <= s@.len(),
            lower_run_end(s@, j as int) == lower_run_end(s@, i as int),
        decreases s@.len() - j,
    {
        j = j + 1;
    }
    j
}

fn upper_run(s: &[char], i: usize) -> (r: usize)
    requires
        i <= s@.len(),
    ensures
        r == upper_run_end(s@, i as int),
{
    let mut j = i;
    while j < s.len() && uppercase(s[j])
        invariant
            i <= j <= s@.len(),
            upper_run_end(s@, j as int) == upper_run_end(s@, i as int),
        decreases s@.len() - j,
    {
        j = j + 1;
    }
    j
}

fn take_whitespace(s: &[char], i: usize) -> (r: usize)
    requires
        i <= s@.len(),
    ensures
        r == whitespace_run_end(s@, i as int),
{
    let mut j = i;
    while j < s.len() && whitespace(s[j])
        invariant
            i <= j <= s@.len(),
            whitespace_run_end(s@, j as int) == whitespace_run_end(s@, i as int),
        decreases s@.len() - j,
    {
        j = j + 1;
    }
    j
}

fn take_punctuation(s: &[char], i: usize) -> (r: usize)
    requires
        i <= s@.len(),
    ensures
        r == punctuation_end(s@, i as int),
{
    let mut j = i;
    while j < s.len() && token_punctuation(s[j])
        invariant
            i <= j <= s@.len(),
            punctuation_run_end(s@, j as int) == punctuation_run_end(s@, i as int),
        decreases s@.len() - j,
    {
        j = j + 1;
    }
    let k = j;
    while j < s.len() && (s[j] == '\r' || s[j] == '\n' || s[j] == '/')
        invariant
            k <= j <= s@.len(),
            line_break_run_end(s@, j as int) == line_break_run_end(s@, k as int),
        decreases s@.len() - j,
    {
        j = j + 1;
    }
    j
}

fn take_word(s: &[char], start: usize) -> (r: usize)
    requires
        start < s@.len(),
    ensures
        r == word_end(s@, start as int),
{
    if !uppercase(s[start]) {
        return lower_run(s, start + 1);
    }
    let i = upper_run(s, start + 1);
    proof {
        lemma_run_ends(s@, start + 1);
    }
    lower_run(s, i)
}

fn next_piece_end(s: &[char], i: usize) -> (r: usize)
    requires
        i < s@.len(),
    ensures
        r == piece_end(s@, i as int),
{
    let ch = s[i];
    let next = i + 1;
    if optional_word_prefix(ch) && next < s.len() {
        let next_ch = s[next];
        if letterish(next_ch) {
            return take_word(s, next);
        }
        if ch == ' ' && token_punctuation(next_ch) {
            return take_punctuation(s, next + 1);
        }
    }
    if letterish(ch) {
        take_word(s, i)
    } else if numeric(ch) {
        next
    } else if token_punctuation(ch) {
        take_punctuation(s, next)
    } else if whitespace(ch) {
        take_whitespace(s, next)
    } else {
        next
    }
}

/// Splits `text` into its pieces, in order.
pub fn tekken_pre_tokenize(text: &str) -> (r: Vec<String>)
    ensures
        r@.map_values(|p: String| p@) == pieces_from(text@, 0),
{
    let chars = chars_of(text);
    let n = chars.len();
    let mut pieces: Vec<String> = Vec::new();
    let mut i: usize = 0;
    while i < n
        invariant
            n == chars@.len(),
            chars@ == text@,
            i <= n,
            pieces@.map_values(|p: String| p@) + pieces_from(chars@, i as int) == pieces_from(chars@, 0),
        decreases n - i,
    {
        let end = next_piece_end(chars.as_slice(), i);
        proof {
            lemma_piece_end_bounds(chars@, i as int);
        }
        let piece = string_from_chars(&chars.as_slice()[i..end]);
        let ghost before = pieces@.map_values(|p: String| p@);
        pieces.push(piece);
        proof {
            assert(pieces@.map_values(|p: String| p@) =~= before.push(chars@.subrange(i as int, end as int)));
            assert(pieces_from(chars@, i as int) == seq![chars@.subrange(i as int, end as int)] + pieces_from(
                chars@,
                end as int,
            ));
            assert(before.push(chars@.subrange(i as int, end as int)) + pieces_from(chars@, end as int)
                =~= before + pieces_from(chars@, i as int));
        }
        i = end;
    }
    proof {
        assert(pieces_from(chars@, n as int) == Seq::<Seq<char>>::empty());
        assert(pieces@.map_values(|p: String| p@) =~= pieces@.map_values(|p: String| p@) + Seq::<Seq<char>>::empty());
    }
    pieces
}

} // verus!
