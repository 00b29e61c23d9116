//! The byte-level alphabet of GPT-2 style tokenizers: every byte stands for one
//! printable character, so that any byte string can be written as text.
use vstd::prelude::*;

verus! {

/// Bytes that stand for themselves: `!` to `~`, `¡` to `¬`, and `®` to `ÿ`.
pub open spec fn is_printable_byte(b: u8) -> bool {
    (0x21 <= b <= 0x7e) || (0xa1 <= b <= 0xac) || (0xae <= b)
}

/// The code point a byte is written as: a printable byte as itself, the others in
/// increasing order from U+0100 on (control bytes and space first, then U+007F to
/// U+00A0, then the soft hyphen U+00AD).
pub open spec fn byte_level_code(b: u8) -> u32 {
    if is_printable_byte(b) {
        b as u32
    } else if b <= 0x20 {
        (256 + b) as u32
    } else if b <= 0xa0 {
        (b + 162) as u32
    } else {
        323
    }
}

/// The byte a byte-level code point stands for, if any.
pub open spec fn byte_of_code(c: u32) -> Option<u8> {
    if c <= 0xff && is_printable_byte(c as u8) {
        Some(c as u8)
    } else if 256 <= c <= 256 + 0x20 {
        Some((c - 256) as u8)
    } else if 0x7f + 162 <= c <= 0xa0 + 162 {
        Some((c - 162) as u8)
    } else if c == 323 {
        Some(0xad)
    } else {
        None
    }
}

/// Writing a byte as its character and reading it back gives the byte, and no other
/// code point reads back as a byte it does not stand for.
pub proof fn lemma_byte_level_round_trip(b: u8, c: u32)
    ensures
        byte_of_code(byte_level_code(b)) == Some(b),
        byte_of_code(c) == Some(b) ==> c == byte_level_code(b),
{
}

/// Every byte-level code point is a character (it is below U+0144).
pub proof fn lemma_byte_level_code_is_char(b: u8)
    ensures
        byte_level_code(b) < 0xD800,
{
}

fn printable_byte(b: u8) -> (r: bool)
    ensures
        r == is_printable_byte(b),
{
    (0x21 <= b && b <= 0x7e) || (0xa1 <= b && b <= 0xac) || 0xae <= b
}

/// The character a byte is written as.
pub fn byte_level_char(b: u8) -> (c: char)
    ensures
        c as u32 == byte_level_code(b),
{
    let code: u32 = if printable_byte(b) {
        b as u32
    } else if b <= 0x20 {
        256 + b as u32
    } else if b <= 0xa0 {
        b as u32 + 162
    } else {
        323
    };
    match crate::json::char_from_u32(code) {
        Some(c) => c,
        None => {
            assert(false);
            '\0'
        },
    }
}

/// Reads byte-level characters back as bytes.
#[derive(Debug)]
pub struct ByteLevelDecoder {
    bytes: Vec<u8>,
}

impl Clone for ByteLevelDecoder {
    fn clone(&self) -> (r: Self) {
        proof {
            use_type_invariant(self);
        }
        let bytes = self.bytes.clone();
        proof {
            assert(bytes@ =~= self.bytes@);
        }
        ByteLevelDecoder { bytes }
    }
}

impl ByteLevelDecoder {
    /// Indexed by code point: the byte each byte-level code point stands for.
    #[verifier::type_invariant]
    spec fn indexes_codes(self) -> bool {
        &&& self.bytes@.len() == 324
        &&& forall|c: int| 0 <= c < 324 ==> match byte_of_code(c as u32) {
            Some(b) => #[trigger] self.bytes@[c] == b,
            None => true,
        }
    }

    /// The byte `ch` stands for, when it is a byte-level character.
    pub fn get(&self, ch: &char) -> (r: Option<&u8>)
        ensures
            match byte_of_code(*ch as u32) {
                Some(b) => r == Some(&b),
                None => r is None,
            },
    {
        proof {
            use_type_invariant(self);
        }
        let code = *ch as u32;
        if code >= 324 {
            return None;
        }
        let index = code as usize;
        let printable = code <= 0xff && printable_byte(code as u8);
        let known = printable || (256 <= code && code <= 256 + 0x20) || (0x7f + 162 <= code && code <= 0xa0 + 162) || code == 323;
        if !known {
            return None;
        }
        assert(byte_of_code(code) is Some);
        Some(&self.bytes[index])
    }
}

/// The byte-level alphabet: the character each byte is written as, indexed by byte,
/// and the reader that maps those characters back to bytes.
pub fn byte_unicode_maps() -> (r: (Vec<char>, ByteLevelDecoder))
    ensures
        r.0@.len() == 256,
        forall|b: int| 0 <= b < 256 ==> #[trigger] r.0@[b] as u32 == byte_level_code(b as u8),
{
    let mut byte_to_char: Vec<char> = Vec::new();
    let mut b: usize = 0;
    while b < 256
        invariant
            b <= 256,
            byte_to_char@.len() == b,
            forall|k: int| 0 <= k < b ==> #[trigger] byte_to_char@[k] as u32 == byte_level_code(k as u8),
        decreases 256 - b,
    {
        byte_to_char.push(byte_level_char(b as u8));
        b = b + 1;
    }
    let mut bytes: Vec<u8> = Vec::new();
    let mut c: u32 = 0;
    while c < 324
        invariant
            c <= 324,
            bytes@.len() == c,
            forall|k: int| 0 <= k < c ==> match byte_of_code(k as u32) {
                Some(v) => #[trigger] bytes@[k] == v,
                None => true,
            },
        decreases 324 - c,
    {
        let v: u8 = if c <= 0xff && printable_byte(c as u8) {
            c as u8
        } else if 256 <= c && c <= 256 + 0x20 {
            (c - 256) as u8
        } else if 0x7f + 162 <= c && c <= 0xa0 + 162 {
            (c - 162) as u8
        } else if c == 323 {
            0xad
        } else {
            0
        };
        bytes.push(v);
        c = c + 1;
    }
    (byte_to_char, ByteLevelDecoder { bytes })
}

} // verus!
