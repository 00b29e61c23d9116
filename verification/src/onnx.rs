//! ONNX model files: a protobuf wire-format reader and the metadata it yields
//! (graph structure, initializer types and shapes, raw data locations).
use vstd::prelude::*;
use vstd::utf8::*;

use crate::dtypes::DType;
use crate::text::{chars_eq, string_from_utf8};
use std::path::{Path, PathBuf};

verus! {

/// Why an ONNX file could not be read.
#[derive(Debug, Clone, Copy, PartialEq, Eq, Structural)]
pub enum OnnxError {
    /// A varint ran past the end of its message.
    UnterminatedVarint,
    /// A varint carried more than 64 bits.
    VarintTooLong,
    /// A length-delimited field declared a length that does not fit `usize`.
    LengthDoesNotFitUsize,
    /// Skipping a field overflowed the cursor position.
    CursorOverflow,
    /// A field extends past the end of its message.
    FieldOverrunsInput,
    /// A field key carried a wire type this reader does not know.
    UnsupportedWireType(u8),
    /// A field that should be a varint has another wire type.
    ExpectedVarint { number: u32, wire_type: u8 },
    /// A field that should be length-delimited has another wire type.
    ExpectedLengthDelimited { number: u32, wire_type: u8 },
    /// A string field is not well-formed UTF-8.
    InvalidUtf8,
    /// No initializer has the requested name.
    MissingInitializer,
}

/// The element type of an ONNX tensor (`TensorProto.DataType`).
#[derive(Debug, Clone, Copy, PartialEq, Eq, Structural)]
pub enum OnnxTensorElementType {
    DType(DType),
    String,
    Complex64,
    Complex128,
    Float8E4M3Fn,
    Float8E4M3FnUz,
    Float8E5M2,
    Float8E5M2FnUz,
    Uint4,
    Int4,
    Unsupported(i32),
}

/// The element type an ONNX data-type code stands for.
pub open spec fn spec_from_onnx_code(code: i32) -> OnnxTensorElementType {
    if code == 1 {
        OnnxTensorElementType::DType(DType::F32)
    } else if code == 2 {
        OnnxTensorElementType::DType(DType::U8)
    } else if code == 3 {
        OnnxTensorElementType::DType(DType::I8)
    } else if code == 4 {
        OnnxTensorElementType::DType(DType::U16)
    } else if code == 5 {
        OnnxTensorElementType::DType(DType::I16)
    } else if code == 6 {
        OnnxTensorElementType::DType(DType::I32)
    } else if code == 7 {
        OnnxTensorElementType::DType(DType::I64)
    } else if code == 8 {
        OnnxTensorElementType::String
    } else if code == 9 {
        OnnxTensorElementType::DType(DType::Bool)
    } else if code == 10 {
        OnnxTensorElementType::DType(DType::F16)
    } else if code == 11 {
        OnnxTensorElementType::DType(DType::F64)
    } else if code == 12 {
        OnnxTensorElementType::DType(DType::U32)
    } else if code == 13 {
        OnnxTensorElementType::DType(DType::U64)
    } else if code == 14 {
        OnnxTensorElementType::Complex64
    } else if code == 15 {
        OnnxTensorElementType::Complex128
    } else if code == 16 {
        OnnxTensorElementType::DType(DType::Bf16)
    } else if code == 17 {
        OnnxTensorElementType::Float8E4M3Fn
    } else if code == 18 {
        OnnxTensorElementType::Float8E4M3FnUz
    } else if code == 19 {
        OnnxTensorElementType::Float8E5M2
    } else if code == 20 {
        OnnxTensorElementType::Float8E5M2FnUz
    } else if code == 21 {
        OnnxTensorElementType::Uint4
    } else if code == 22 {
        OnnxTensorElementType::Int4
    } else {
        OnnxTensorElementType::Unsupported(code)
    }
}

/// The ONNX name of an element type.
pub open spec fn spec_onnx_name(t: OnnxTensorElementType) -> Seq<char> {
    match t {
        OnnxTensorElementType::DType(DType::F32) => "FLOAT"@,
        OnnxTensorElementType::DType(DType::U8) => "UINT8"@,
        OnnxTensorElementType::DType(DType::I8) => "INT8"@,
        OnnxTensorElementType::DType(DType::U16) => "UINT16"@,
        OnnxTensorElementType::DType(DType::I16) => "INT16"@,
        OnnxTensorElementType::DType(DType::I32) => "INT32"@,
        OnnxTensorElementType::DType(DType::I64) => "INT64"@,
        OnnxTensorElementType::String => "STRING"@,
        OnnxTensorElementType::DType(DType::Bool) => "BOOL"@,
        OnnxTensorElementType::DType(DType::F16) => "FLOAT16"@,
        OnnxTensorElementType::DType(DType::F64) => "DOUBLE"@,
        OnnxTensorElementType::DType(DType::U32) => "UINT32"@,
        OnnxTensorElementType::DType(DType::U64) => "UINT64"@,
        OnnxTensorElementType::Complex64 => "COMPLEX64"@,
        OnnxTensorElementType::Complex128 => "COMPLEX128"@,
        OnnxTensorElementType::DType(DType::Bf16) => "BFLOAT16"@,
        OnnxTensorElementType::Float8E4M3Fn => "FLOAT8E4M3FN"@,
        OnnxTensorElementType::Float8E4M3FnUz => "FLOAT8E4M3FNUZ"@,
        OnnxTensorElementType::Float8E5M2 => "FLOAT8E5M2"@,
        OnnxTensorElementType::Float8E5M2FnUz => "FLOAT8E5M2FNUZ"@,
        OnnxTensorElementType::Uint4 => "UINT4"@,
        OnnxTensorElementType::Int4 => "INT4"@,
        OnnxTensorElementType::Unsupported(_) => "UNSUPPORTED"@,
    }
}

impl OnnxTensorElementType {
    /// Maps an ONNX `TensorProto.DataType` code to its element type.
    pub fn from_onnx_code(code: i32) -> (r: Self)
        ensures
            r == spec_from_onnx_code(code),
    {
        match code {
            1 => Self::DType(DType::F32),
            2 => Self::DType(DType::U8),
            3 => Self::DType(DType::I8),
            4 => Self::DType(DType::U16),
            5 => Self::DType(DType::I16),
            6 => Self::DType(DType::I32),
            7 => Self::DType(DType::I64),
            8 => Self::String,
            9 => Self::DType(DType::Bool),
            10 => Self::DType(DType::F16),
            11 => Self::DType(DType::F64),
            12 => Self::DType(DType::U32),
            13 => Self::DType(DType::U64),
            14 => Self::Complex64,
            15 => Self::Complex128,
            16 => Self::DType(DType::Bf16),
            17 => Self::Float8E4M3Fn,
            18 => Self::Float8E4M3FnUz,
            19 => Self::Float8E5M2,
            20 => Self::Float8E5M2FnUz,
            21 => Self::Uint4,
            22 => Self::Int4,
            _ => Self::Unsupported(code),
        }
    }

    /// The library dtype of a numeric element type this library can store.
    pub fn dtype(self) -> (r: Option<DType>)
        ensures
            r == (match self {
                OnnxTensorElementType::DType(d) => Some(d),
                _ => None,
            }),
    {
        match self {
            Self::DType(dtype) => Some(dtype),
            _ => None,
        }
    }

    /// The name ONNX gives this element type.
    pub fn onnx_name(self) -> (r: &'static str)
        ensures
            r@ == spec_onnx_name(self),
    {
        match self {
            Self::DType(DType::F32) => "FLOAT",
            Self::DType(DType::U8) => "UINT8",
            Self::DType(DType::I8) => "INT8",
            Self::DType(DType::U16) => "UINT16",
            Self::DType(DType::I16) => "INT16",
            Self::DType(DType::I32) => "INT32",
            Self::DType(DType::I64) => "INT64",
            Self::String => "STRING",
            Self::DType(DType::Bool) => "BOOL",
            Self::DType(DType::F16) => "FLOAT16",
            Self::DType(DType::F64) => "DOUBLE",
            Self::DType(DType::U32) => "UINT32",
            Self::DType(DType::U64) => "UINT64",
            Self::Complex64 => "COMPLEX64",
            Self::Complex128 => "COMPLEX128",
            Self::DType(DType::Bf16) => "BFLOAT16",
            Self::Float8E4M3Fn => "FLOAT8E4M3FN",
            Self::Float8E4M3FnUz => "FLOAT8E4M3FNUZ",
            Self::Float8E5M2 => "FLOAT8E5M2",
            Self::Float8E5M2FnUz => "FLOAT8E5M2FNUZ",
            Self::Uint4 => "UINT4",
            Self::Int4 => "INT4",
            Self::Unsupported(_) => "UNSUPPORTED",
        }
    }
}


// ---------------------------------------------------------------------------
// Protobuf wire format
// ---------------------------------------------------------------------------

/// A field value as the wire format carries it; a length-delimited value is the
/// byte range `[start, end)` of the whole file that holds it.
pub enum SpecProtoValue {
    Varint(u64),
    Fixed64,
    LengthDelimited(int, int),
    Fixed32,
}

/// One decoded field: its number, wire type, value and the position just after it.
pub struct SpecProtoField {
    pub number: u32,
    pub wire_type: u8,
    pub value: SpecProtoValue,
    pub next: int,
}

/// Decodes the varint whose byte at `pos` carries the bits from `shift` on, with
/// the lower bits already gathered in `acc`; the message ends at `end`.
pub open spec fn spec_varint_from(s: Seq<u8>, pos: int, end: int, shift: u32, acc: u64) -> Result<
    (u64, int),
    OnnxError,
>
    decreases 64 - shift,
{
    if pos >= end {
        Err(OnnxError::UnterminatedVarint)
    } else {
        let b = s[pos];
        let acc2 = acc | (((b & 0x7f) as u64) << shift);
        if b & 0x80 == 0 {
            Ok((acc2, pos + 1))
        } else if shift + 7 >= 64 {
            Err(OnnxError::VarintTooLong)
        } else {
            spec_varint_from(s, pos + 1, end, (shift + 7) as u32, acc2)
        }
    }
}

/// The varint at `pos` and the position after it: little-endian groups of seven bits,
/// each byte but the last with its high bit set, at most ten bytes.
pub open spec fn spec_read_varint(s: Seq<u8>, pos: int, end: int) -> Result<(u64, int), OnnxError> {
    spec_varint_from(s, pos, end, 0, 0)
}

/// Skipping `len` bytes at `pos` inside the message `[start, end)`.
pub open spec fn spec_skip(start: int, pos: int, len: int, end: int) -> Result<int, OnnxError> {
    if (pos - start) + len > usize::MAX {
        Err(OnnxError::CursorOverflow)
    } else if (pos - start) + len > end - start {
        Err(OnnxError::FieldOverrunsInput)
    } else {
        Ok(pos + len)
    }
}

/// The field whose key starts at `pos` inside the message `[start, end)`.
pub open spec fn spec_next_field(s: Seq<u8>, start: int, pos: int, end: int) -> Result<
    SpecProtoField,
    OnnxError,
> {
    match spec_read_varint(s, pos, end) {
        Err(e) => Err(e),
        Ok((key, p1)) => {
            let number = (key >> 3u64) as u32;
            let wire_type = (key & 0x07u64) as u8;
            if wire_type == 0 {
                match spec_read_varint(s, p1, end) {
                    Err(e) => Err(e),
                    Ok((v, p2)) => Ok(
                        SpecProtoField { number, wire_type, value: SpecProtoValue::Varint(v), next: p2 },
                    ),
                }
            } else if wire_type == 1 {
                match spec_skip(start, p1, 8, end) {
                    Err(e) => Err(e),
                    Ok(p2) => Ok(
                        SpecProtoField { number, wire_type, value: SpecProtoValue::Fixed64, next: p2 },
                    ),
                }
            } else if wire_type == 2 {
                match spec_read_varint(s, p1, end) {
                    Err(e) => Err(e),
                    Ok((len, p2)) => if len > usize::MAX {
                        Err(OnnxError::LengthDoesNotFitUsize)
                    } else {
                        match spec_skip(start, p2, len as int, end) {
                            Err(e) => Err(e),
                            Ok(p3) => Ok(
                                SpecProtoField {
                                    number,
                                    wire_type,
                                    value: SpecProtoValue::LengthDelimited(p2, p3),
                                    next: p3,
                                },
                            ),
                        }
                    },
                }
            } else if wire_type == 5 {
                match spec_skip(start, p1, 4, end) {
                    Err(e) => Err(e),
                    Ok(p2) => Ok(
                        SpecProtoField { number, wire_type, value: SpecProtoValue::Fixed32, next: p2 },
                    ),
                }
            } else {
                Err(OnnxError::UnsupportedWireType(wire_type))
            }
        },
    }
}

pub proof fn lemma_varint_advances(s: Seq<u8>, pos: int, end: int, shift: u32, acc: u64)
    ensures
        spec_varint_from(s, pos, end, shift, acc) matches Ok((v, p)) ==> pos < p <= end,
    decreases 64 - shift,
{
    if pos < end {
        let b = s[pos];
        let acc2 = acc | (((b & 0x7f) as u64) << shift);
        if b & 0x80 != 0 && shift + 7 < 64 {
            lemma_varint_advances(s, pos + 1, end, (shift + 7) as u32, acc2);
        }
    }
}

/// A decoded field always lies after its key position and inside its message;
/// a length-delimited value lies inside the field.
pub proof fn lemma_next_field_advances(s: Seq<u8>, start: int, pos: int, end: int)
    ensures
        spec_next_field(s, start, pos, end) matches Ok(f) ==> {
            &&& pos < f.next <= end
            &&& (f.value matches SpecProtoValue::LengthDelimited(a, b) ==> pos < a <= b && b
                == f.next)
        },
{
    lemma_varint_advances(s, pos, end, 0, 0);
    if let Ok((key, p1)) = spec_read_varint(s, pos, end) {
        lemma_varint_advances(s, p1, end, 0, 0);
    }
}

/// A byte range `[absolute_start, absolute_end)` of the file being read.
#[derive(Clone, Copy)]
pub struct LocatedBytes {
    pub absolute_start: usize,
    pub absolute_end: usize,
}

enum ProtoValue {
    Varint(u64),
    Fixed64,
    LengthDelimited(LocatedBytes),
    Fixed32,
}

struct ProtoField {
    number: u32,
    wire_type: u8,
    value: ProtoValue,
}

impl ProtoField {
    spec fn matches_spec(self, f: SpecProtoField) -> bool {
        &&& self.number == f.number
        &&& self.wire_type == f.wire_type
        &&& match (self.value, f.value) {
            (ProtoValue::Varint(a), SpecProtoValue::Varint(b)) => a == b,
            (ProtoValue::Fixed64, SpecProtoValue::Fixed64) => true,
            (ProtoValue::Fixed32, SpecProtoValue::Fixed32) => true,
            (ProtoValue::LengthDelimited(l), SpecProtoValue::LengthDelimited(a, b)) => l.absolute_start
                == a && l.absolute_end == b,
            _ => false,
        }
    }
}

/// Reads the fields of the message `bytes[start..end]` one after the other.
struct ProtoCursor<'a> {
    bytes: &'a [u8],
    start: usize,
    end: usize,
    offset: usize,
}

impl<'a> ProtoCursor<'a> {
    spec fn wf(self) -> bool {
        self.start <= self.offset <= self.end <= self.bytes@.len()
    }

    /// A cursor over a whole file.
    fn new(bytes: &'a [u8]) -> (r: Self)
        ensures
            r.wf(),
            r.bytes == bytes,
            r.start == 0,
            r.offset == 0,
            r.end == bytes@.len(),
    {
        ProtoCursor { bytes, start: 0, end: bytes.len(), offset: 0 }
    }

    /// A cursor over the message held by a length-delimited field of `bytes`.
    fn from_located(bytes: &'a [u8], located: LocatedBytes) -> (r: Self)
        requires
            located.absolute_start <= located.absolute_end <= bytes@.len(),
        ensures
            r.wf(),
            r.bytes == bytes,
            r.start == located.absolute_start,
            r.offset == located.absolute_start,
            r.end == located.absolute_end,
    {
        ProtoCursor {
            bytes,
            start: located.absolute_start,
            end: located.absolute_end,
            offset: located.absolute_start,
        }
    }

    fn has_remaining(&self) -> (r: bool)
        ensures
            r == (self.offset < self.end),
    {
        self.offset < self.end
    }

    fn read_varint(&mut self) -> (r: Result<u64, OnnxError>)
        requires
            old(self).wf(),
        ensures
            final(self).wf(),
            final(self).bytes == old(self).bytes,
            final(self).start == old(self).start,
            final(self).end == old(self).end,
            match spec_read_varint(old(self).bytes@, old(self).offset as int, old(self).end as int) {
                Ok((v, p)) => r == Ok::<u64, OnnxError>(v) && final(self).offset == p,
                Err(e) => r == Err::<u64, OnnxError>(e),
            },
    {
        let mut out: u64 = 0;
        let mut shift: u32 = 0;
        loop
            invariant
                self.wf(),
                self.bytes == old(self).bytes,
                self.start == old(self).start,
                self.end == old(self).end,
                shift < 64,
                spec_varint_from(self.bytes@, self.offset as int, self.end as int, shift, out)
                    == spec_read_varint(old(self).bytes@, old(self).offset as int, old(self).end as int),
            decreases self.end - self.offset,
        {
            if self.offset >= self.end {
                return Err(OnnxError::UnterminatedVarint);
            }
            let byte = self.bytes[self.offset];
            self.offset = self.offset + 1;
            out = out | (((byte & 0x7f) as u64) << shift);
            if byte & 0x80 == 0 {
                return Ok(out);
            }
            if shift + 7 >= 64 {
                return Err(OnnxError::VarintTooLong);
            }
            shift = shift + 7;
        }
    }

    fn skip_exact(&mut self, len: usize) -> (r: Result<(), OnnxError>)
        requires
            old(self).wf(),
        ensures
            final(self).wf(),
            final(self).bytes == old(self).bytes,
            final(self).start == old(self).start,
            final(self).end == old(self).end,
            match spec_skip(old(self).start as int, old(self).offset as int, len as int, old(self).end as int) {
                Ok(p) => r is Ok && final(self).offset == p,
                Err(e) => r == Err::<(), OnnxError>(e),
            },
    {
        let relative = self.offset - self.start;
        let relative_end = match relative.checked_add(len) {
            Some(e) => e,
            None => {
                return Err(OnnxError::CursorOverflow);
            },
        };
        if relative_end > self.end - self.start {
            return Err(OnnxError::FieldOverrunsInput);
        }
        self.offset = self.start + relative_end;
        Ok(())
    }

    /// Decodes the field that starts at the cursor and moves past it.
    fn next_field(&mut self) -> (r: Result<ProtoField, OnnxError>)
        requires
            old(self).wf(),
            old(self).offset < old(self).end,
        ensures
            final(self).wf(),
            final(self).bytes == old(self).bytes,
            final(self).start == old(self).start,
            final(self).end == old(self).end,
            match spec_next_field(
                old(self).bytes@,
                old(self).start as int,
                old(self).offset as int,
                old(self).end as int,
            ) {
                Ok(f) => r matches Ok(pf) && pf.matches_spec(f) && final(self).offset == f.next,
                Err(e) => r matches Err(re) && re == e,
            },
    {
        let key = self.read_varint()?;
        let number = (key >> 3u64) as u32;
        let wire_type = (key & 0x07u64) as u8;
        let value = if wire_type == 0 {
            ProtoValue::Varint(self.read_varint()?)
        } else if wire_type == 1 {
            self.skip_exact(8)?;
            ProtoValue::Fixed64
        } else if wire_type == 2 {
            let len = self.read_varint()?;
            if len > usize::MAX as u64 {
                return Err(OnnxError::LengthDoesNotFitUsize);
            }
            let len = len as usize;
            let start = self.offset;
            self.skip_exact(len)?;
            ProtoValue::LengthDelimited(
                LocatedBytes { absolute_start: start, absolute_end: self.offset },
            )
        } else if wire_type == 5 {
            self.skip_exact(4)?;
            ProtoValue::Fixed32
        } else {
            return Err(OnnxError::UnsupportedWireType(wire_type));
        };
        Ok(ProtoField { number, wire_type, value })
    }
}


// ---------------------------------------------------------------------------
// Field values
// ---------------------------------------------------------------------------

pub open spec fn spec_expect_varint(f: SpecProtoField) -> Result<u64, OnnxError> {
    match f.value {
        SpecProtoValue::Varint(v) => Ok(v),
        _ => Err(OnnxError::ExpectedVarint { number: f.number, wire_type: f.wire_type }),
    }
}

pub open spec fn spec_expect_bytes(f: SpecProtoField) -> Result<(int, int), OnnxError> {
    match f.value {
        SpecProtoValue::LengthDelimited(a, b) => Ok((a, b)),
        _ => Err(OnnxError::ExpectedLengthDelimited { number: f.number, wire_type: f.wire_type }),
    }
}

/// A length-delimited field read as UTF-8 text.
pub open spec fn spec_expect_string(s: Seq<u8>, f: SpecProtoField) -> Result<Seq<char>, OnnxError> {
    match spec_expect_bytes(f) {
        Err(e) => Err(e),
        Ok((a, b)) => if valid_utf8(s.subrange(a, b)) {
            Ok(decode_utf8(s.subrange(a, b)))
        } else {
            Err(OnnxError::InvalidUtf8)
        },
    }
}

impl ProtoField {
    fn expect_varint(self) -> (r: Result<u64, OnnxError>)
        ensures
            forall|f: SpecProtoField| #[trigger] self.matches_spec(f) ==> match spec_expect_varint(f) {
                Ok(v) => r == Ok::<u64, OnnxError>(v),
                Err(e) => r == Err::<u64, OnnxError>(e),
            },
    {
        match self.value {
            ProtoValue::Varint(value) => Ok(value),
            _ => Err(OnnxError::ExpectedVarint { number: self.number, wire_type: self.wire_type }),
        }
    }

    fn expect_bytes(self) -> (r: Result<LocatedBytes, OnnxError>)
        ensures
            forall|f: SpecProtoField| #[trigger] self.matches_spec(f) ==> match spec_expect_bytes(f) {
                Ok((a, b)) => r matches Ok(l) && l.absolute_start == a && l.absolute_end == b,
                Err(e) => r matches Err(re) && re == e,
            },
            self.value matches ProtoValue::LengthDelimited(l) ==> r matches Ok(rl) && rl == l,
    {
        match self.value {
            ProtoValue::LengthDelimited(bytes) => Ok(bytes),
            _ => Err(
                OnnxError::ExpectedLengthDelimited { number: self.number, wire_type: self.wire_type },
            ),
        }
    }

    fn expect_string(self, bytes: &[u8]) -> (r: Result<String, OnnxError>)
        requires
            self.value matches ProtoValue::LengthDelimited(l) ==> l.absolute_start <= l.absolute_end
                <= bytes@.len(),
        ensures
            forall|f: SpecProtoField| #[trigger] self.matches_spec(f) ==> match spec_expect_string(
                bytes@,
                f,
            ) {
                Ok(x) => r matches Ok(rs) && rs@ == x,
                Err(e) => r matches Err(re) && re == e,
            },
    {
        let located = match self.value {
            ProtoValue::LengthDelimited(l) => l,
            _ => {
                return Err(
                    OnnxError::ExpectedLengthDelimited {
                        number: self.number,
                        wire_type: self.wire_type,
                    },
                );
            },
        };
        let slice = &bytes[located.absolute_start..located.absolute_end];
        match string_from_utf8(slice) {
            Some(text) => Ok(text),
            None => Err(OnnxError::InvalidUtf8),
        }
    }
}

// ---------------------------------------------------------------------------
// Messages
// ---------------------------------------------------------------------------

pub open spec fn strings_view(v: Seq<String>) -> Seq<Seq<char>> {
    v.map_values(|x: String| x@)
}

pub open spec fn opt_string_view(o: Option<String>) -> Option<Seq<char>> {
    match o {
        Some(x) => Some(x@),
        None => None,
    }
}

pub open spec fn pairs_view(v: Seq<(String, String)>) -> Seq<(Seq<char>, Seq<char>)> {
    v.map_values(|p: (String, String)| (p.0@, p.1@))
}

/// `NodeProto`: inputs (1), outputs (2), name (3), op_type (4).
pub struct SpecOnnxNode {
    pub op_type: Option<Seq<char>>,
    pub name: Option<Seq<char>>,
    pub inputs: Seq<Seq<char>>,
    pub outputs: Seq<Seq<char>>,
}

/// `OperatorSetIdProto`: domain (1), version (2).
pub struct SpecOnnxOpset {
    pub domain: Seq<char>,
    pub version: i64,
}

/// `TensorProto` metadata: dims (1), data_type (2), name (8), raw_data (9),
/// external_data (13), data_location (14).
pub struct SpecOnnxTensorInfo {
    pub name: Seq<char>,
    pub element_type: OnnxTensorElementType,
    pub shape: Seq<i64>,
    pub raw_data_offsets: Option<(usize, usize)>,
    pub external_data: Seq<(Seq<char>, Seq<char>)>,
    pub data_location: Option<i32>,
}

/// `GraphProto`: node (1), name (2), initializer (5), input (11), output (12).
pub struct SpecOnnxGraph {
    pub name: Option<Seq<char>>,
    pub inputs: Seq<Seq<char>>,
    pub outputs: Seq<Seq<char>>,
    pub nodes: Seq<SpecOnnxNode>,
    pub initializers: Seq<SpecOnnxTensorInfo>,
}

/// `ModelProto`: ir_version (1), producer_name (2), producer_version (3), domain (4),
/// model_version (5), doc_string (6), graph (7), opset_import (8), metadata_props (14).
pub struct SpecOnnxModel {
    pub ir_version: Option<i64>,
    pub producer_name: Option<Seq<char>>,
    pub producer_version: Option<Seq<char>>,
    pub domain: Option<Seq<char>>,
    pub model_version: Option<i64>,
    pub doc_string: Option<Seq<char>>,
    pub graph: SpecOnnxGraph,
    pub opsets: Seq<SpecOnnxOpset>,
    pub metadata: Seq<(Seq<char>, Seq<char>)>,
}

#[derive(Debug, Clone)]
pub struct OnnxNode {
    pub op_type: Option<String>,
    pub name: Option<String>,
    pub inputs: Vec<String>,
    pub outputs: Vec<String>,
}

#[derive(Debug, Clone, PartialEq, Eq)]
pub struct OnnxOpset {
    pub domain: String,
    pub version: i64,
}

#[derive(Debug, Clone, PartialEq, Eq)]
pub struct OnnxTensorInfo {
    pub name: String,
    pub element_type: OnnxTensorElementType,
    pub shape: Vec<i64>,
    pub raw_data_offsets: Option<[usize; 2]>,
    pub external_data: Vec<(String, String)>,
    pub data_location: Option<i32>,
}

#[derive(Debug, Clone)]
pub struct OnnxGraph {
    pub name: Option<String>,
    pub inputs: Vec<String>,
    pub outputs: Vec<String>,
    pub nodes: Vec<OnnxNode>,
    pub initializers: Vec<OnnxTensorInfo>,
}

#[derive(Debug, Clone)]
pub struct OnnxModel {
    pub ir_version: Option<i64>,
    pub producer_name: Option<String>,
    pub producer_version: Option<String>,
    pub domain: Option<String>,
    pub model_version: Option<i64>,
    pub doc_string: Option<String>,
    pub graph: OnnxGraph,
    pub opsets: Vec<OnnxOpset>,
    pub metadata: Vec<(String, String)>,
}

impl View for OnnxNode {
    type V = SpecOnnxNode;

    open spec fn view(&self) -> SpecOnnxNode {
        SpecOnnxNode {
            op_type: opt_string_view(self.op_type),
            name: opt_string_view(self.name),
            inputs: strings_view(self.inputs@),
            outputs: strings_view(self.outputs@),
        }
    }
}

impl View for OnnxOpset {
    type V = SpecOnnxOpset;

    open spec fn view(&self) -> SpecOnnxOpset {
        SpecOnnxOpset { domain: self.domain@, version: self.version }
    }
}

pub open spec fn offsets_view(o: Option<[usize; 2]>) -> Option<(usize, usize)> {
    match o {
        Some(a) => Some((a@[0], a@[1])),
        None => None,
    }
}

impl View for OnnxTensorInfo {
    type V = SpecOnnxTensorInfo;

    open spec fn view(&self) -> SpecOnnxTensorInfo {
        SpecOnnxTensorInfo {
            name: self.name@,
            element_type: self.element_type,
            shape: self.shape@,
            raw_data_offsets: offsets_view(self.raw_data_offsets),
            external_data: pairs_view(self.external_data@),
            data_location: self.data_location,
        }
    }
}

impl View for OnnxGraph {
    type V = SpecOnnxGraph;

    open spec fn view(&self) -> SpecOnnxGraph {
        SpecOnnxGraph {
            name: opt_string_view(self.name),
            inputs: strings_view(self.inputs@),
            outputs: strings_view(self.outputs@),
            nodes: self.nodes@.map_values(|n: OnnxNode| n@),
            initializers: self.initializers@.map_values(|t: OnnxTensorInfo| t@),
        }
    }
}

impl View for OnnxModel {
    type V = SpecOnnxModel;

    open spec fn view(&self) -> SpecOnnxModel {
        SpecOnnxModel {
            ir_version: self.ir_version,
            producer_name: opt_string_view(self.producer_name),
            producer_version: opt_string_view(self.producer_version),
            domain: opt_string_view(self.domain),
            model_version: self.model_version,
            doc_string: opt_string_view(self.doc_string),
            graph: self.graph@,
            opsets: self.opsets@.map_values(|o: OnnxOpset| o@),
            metadata: pairs_view(self.metadata@),
        }
    }
}

pub open spec fn empty_node() -> SpecOnnxNode {
    SpecOnnxNode { op_type: None, name: None, inputs: seq![], outputs: seq![] }
}

/// Folds the fields at `pos..end` of a `NodeProto` into `acc`.
pub open spec fn spec_node_fields(s: Seq<u8>, start: int, pos: int, end: int, acc: SpecOnnxNode) -> Result<
    SpecOnnxNode,
    OnnxError,
>
    decreases end - pos,
{
    if pos >= end {
        Ok(acc)
    } else {
        match spec_next_field(s, start, pos, end) {
            Err(e) => Err(e),
            Ok(f) => {
                proof {
                    lemma_next_field_advances(s, start, pos, end);
                }
                if f.number == 1 || f.number == 2 || f.number == 3 || f.number == 4 {
                    match spec_expect_string(s, f) {
                        Err(e) => Err(e),
                        Ok(x) => spec_node_fields(
                            s,
                            start,
                            f.next,
                            end,
                            if f.number == 1 {
                                SpecOnnxNode { inputs: acc.inputs.push(x), ..acc }
                            } else if f.number == 2 {
                                SpecOnnxNode { outputs: acc.outputs.push(x), ..acc }
                            } else if f.number == 3 {
                                SpecOnnxNode { name: Some(x), ..acc }
                            } else {
                                SpecOnnxNode { op_type: Some(x), ..acc }
                            },
                        ),
                    }
                } else {
                    spec_node_fields(s, start, f.next, end, acc)
                }
            },
        }
    }
}

/// The `NodeProto` held by the bytes `[start, end)`.
pub open spec fn spec_parse_node(s: Seq<u8>, start: int, end: int) -> Result<SpecOnnxNode, OnnxError> {
    spec_node_fields(s, start, start, end, empty_node())
}

/// The fields of the message bytes `[pos, end)`, in order, or the first fault.
pub open spec fn proto_fields(s: Seq<u8>, start: int, pos: int, end: int) -> Result<Seq<SpecProtoField>, OnnxError>
    decreases end - pos,
{
    if pos >= end {
        Ok(seq![])
    } else {
        match spec_next_field(s, start, pos, end) {
            Err(e) => Err(e),
            Ok(f) => {
                proof {
                    lemma_next_field_advances(s, start, pos, end);
                }
                match proto_fields(s, start, f.next, end) {
                    Err(e) => Err(e),
                    Ok(rest) => Ok(seq![f] + rest),
                }
            },
        }
    }
}

/// The string of the last of `fields` numbered `number` that holds a string, if there
/// is one.
pub open spec fn last_string_field(s: Seq<u8>, fields: Seq<SpecProtoField>, number: u32) -> Option<Seq<char>>
    decreases fields.len(),
{
    if fields.len() == 0 {
        None
    } else if fields.last().number == number && spec_expect_string(s, fields.last()) is Ok {
        Some(spec_expect_string(s, fields.last())->Ok_0)
    } else {
        last_string_field(s, fields.drop_last(), number)
    }
}

/// The strings of the fields numbered `number`, in order.
pub open spec fn string_fields(s: Seq<u8>, fields: Seq<SpecProtoField>, number: u32) -> Seq<Seq<char>>
    decreases fields.len(),
{
    if fields.len() == 0 {
        seq![]
    } else {
        let rest = string_fields(s, fields.drop_last(), number);
        if fields.last().number == number {
            match spec_expect_string(s, fields.last()) {
                Ok(x) => rest.push(x),
                Err(_) => rest,
            }
        } else {
            rest
        }
    }
}

/// `a` when it holds a value, otherwise `b`.
pub open spec fn or_else(a: Option<Seq<char>>, b: Option<Seq<char>>) -> Option<Seq<char>> {
    if a is Some {
        a
    } else {
        b
    }
}

proof fn lemma_last_string_prepend(s: Seq<u8>, f: SpecProtoField, rest: Seq<SpecProtoField>, number: u32)
    ensures
        last_string_field(s, seq![f] + rest, number) == or_else(
            last_string_field(s, rest, number),
            last_string_field(s, seq![f], number),
        ),
    decreases rest.len(),
{
    let all = seq![f] + rest;
    if rest.len() > 0 {
        assert(all.drop_last() =~= seq![f] + rest.drop_last());
        assert(all.last() == rest.last());
        lemma_last_string_prepend(s, f, rest.drop_last(), number);
    } else {
        assert(all =~= seq![f]);
    }
}

proof fn lemma_string_fields_prepend(s: Seq<u8>, f: SpecProtoField, rest: Seq<SpecProtoField>, number: u32)
    ensures
        string_fields(s, seq![f] + rest, number) == string_fields(s, seq![f], number) + string_fields(s, rest, number),
    decreases rest.len(),
{
    let all = seq![f] + rest;
    if rest.len() > 0 {
        assert(all.drop_last() =~= seq![f] + rest.drop_last());
        assert(all.last() == rest.last());
        lemma_string_fields_prepend(s, f, rest.drop_last(), number);
        let a = string_fields(s, seq![f], number);
        let b = string_fields(s, rest.drop_last(), number);
        if rest.last().number == number {
            if let Ok(x) = spec_expect_string(s, rest.last()) {
                assert((a + b).push(x) =~= a + b.push(x));
            }
        }
    } else {
        assert(all =~= seq![f]);
        assert(seq![f].drop_last() =~= Seq::<SpecProtoField>::empty());
        assert(string_fields(s, rest, number) =~= Seq::<Seq<char>>::empty());
    }
}

/// Folding the fields at `pos..end` into `acc` keeps the last name and op type fields
/// and appends the input and output fields, in order.
proof fn lemma_node_fields_from(s: Seq<u8>, start: int, pos: int, end: int, acc: SpecOnnxNode)
    ensures
        spec_node_fields(s, start, pos, end, acc) matches Ok(n) ==> proto_fields(s, start, pos, end) matches Ok(fs)
            && n.op_type == or_else(last_string_field(s, fs, 4), acc.op_type) && n.name == or_else(
            last_string_field(s, fs, 3),
            acc.name,
        ) && n.inputs == acc.inputs + string_fields(s, fs, 1) && n.outputs == acc.outputs + string_fields(s, fs, 2),
    decreases end - pos,
{
    if pos >= end {
        assert(acc.inputs + Seq::<Seq<char>>::empty() =~= acc.inputs);
        assert(acc.outputs + Seq::<Seq<char>>::empty() =~= acc.outputs);
    } else {
        lemma_next_field_advances(s, start, pos, end);
        if let Ok(f) = spec_next_field(s, start, pos, end) {
            let one = seq![f];
            assert(one.drop_last() =~= Seq::<SpecProtoField>::empty());
            assert(one.last() == f);
            assert(string_fields(s, one.drop_last(), 1) == Seq::<Seq<char>>::empty());
            assert(string_fields(s, one.drop_last(), 2) == Seq::<Seq<char>>::empty());
            assert(last_string_field(s, one.drop_last(), 3) is None);
            assert(last_string_field(s, one.drop_last(), 4) is None);
            if f.number == 1 || f.number == 2 || f.number == 3 || f.number == 4 {
                if let Ok(x) = spec_expect_string(s, f) {
                    let acc2 = if f.number == 1 {
                        SpecOnnxNode { inputs: acc.inputs.push(x), ..acc }
                    } else if f.number == 2 {
                        SpecOnnxNode { outputs: acc.outputs.push(x), ..acc }
                    } else if f.number == 3 {
                        SpecOnnxNode { name: Some(x), ..acc }
                    } else {
                        SpecOnnxNode { op_type: Some(x), ..acc }
                    };
                    lemma_node_fields_from(s, start, f.next, end, acc2);
                    if let Ok(rest) = proto_fields(s, start, f.next, end) {
                        lemma_last_string_prepend(s, f, rest, 3);
                        lemma_last_string_prepend(s, f, rest, 4);
                        lemma_string_fields_prepend(s, f, rest, 1);
                        lemma_string_fields_prepend(s, f, rest, 2);
                        assert(acc.inputs.push(x) + string_fields(s, rest, 1) =~= acc.inputs + (seq![x]
                            + string_fields(s, rest, 1)));
                        assert(acc.outputs.push(x) + string_fields(s, rest, 2) =~= acc.outputs + (seq![x]
                            + string_fields(s, rest, 2)));
                        assert(string_fields(s, one, 1) =~= (if f.number == 1 { seq![x] } else { seq![] }));
                        assert(string_fields(s, one, 2) =~= (if f.number == 2 { seq![x] } else { seq![] }));
                        assert(acc.inputs + (Seq::<Seq<char>>::empty() + string_fields(s, rest, 1)) =~= acc.inputs
                            + string_fields(s, rest, 1));
                        assert(acc.outputs + (Seq::<Seq<char>>::empty() + string_fields(s, rest, 2)) =~= acc.outputs
                            + string_fields(s, rest, 2));
                    }
                }
            } else {
                lemma_node_fields_from(s, start, f.next, end, acc);
                if let Ok(rest) = proto_fields(s, start, f.next, end) {
                    lemma_last_string_prepend(s, f, rest, 3);
                    lemma_last_string_prepend(s, f, rest, 4);
                    lemma_string_fields_prepend(s, f, rest, 1);
                    lemma_string_fields_prepend(s, f, rest, 2);
                    assert(string_fields(s, one, 1) =~= Seq::<Seq<char>>::empty());
                    assert(string_fields(s, one, 2) =~= Seq::<Seq<char>>::empty());
                    assert(Seq::<Seq<char>>::empty() + string_fields(s, rest, 1) =~= string_fields(s, rest, 1));
                    assert(Seq::<Seq<char>>::empty() + string_fields(s, rest, 2) =~= string_fields(s, rest, 2));
                }
            }
        }
    }
}

/// A parsed node's op type is the string of its last field 4 and its name the string
/// of its last field 3; its inputs are the strings of its fields 1 and its outputs
/// those of its fields 2, in order.
pub proof fn lemma_node_takes_its_fields(s: Seq<u8>, start: int, end: int)
    ensures
        spec_parse_node(s, start, end) matches Ok(n) ==> proto_fields(s, start, start, end) matches Ok(fs)
            && n.op_type == last_string_field(s, fs, 4) && n.name == last_string_field(s, fs, 3) && n.inputs
            == string_fields(s, fs, 1) && n.outputs == string_fields(s, fs, 2),
{
    lemma_node_fields_from(s, start, start, end, empty_node());
    assert(Seq::<Seq<char>>::empty() + string_fields(s, proto_fields(s, start, start, end)->Ok_0, 1)
        =~= string_fields(s, proto_fields(s, start, start, end)->Ok_0, 1));
    assert(Seq::<Seq<char>>::empty() + string_fields(s, proto_fields(s, start, start, end)->Ok_0, 2)
        =~= string_fields(s, proto_fields(s, start, start, end)->Ok_0, 2));
}

fn parse_node(bytes: &[u8], located: LocatedBytes) -> (r: Result<OnnxNode, OnnxError>)
    requires
        located.absolute_start <= located.absolute_end <= bytes@.len(),
    ensures
        match spec_parse_node(bytes@, located.absolute_start as int, located.absolute_end as int) {
            Ok(n) => r matches Ok(rn) && rn@ == n,
            Err(e) => r matches Err(re) && re == e,
        },
{
    let mut node = OnnxNode { op_type: None, name: None, inputs: Vec::new(), outputs: Vec::new() };
    let mut cursor = ProtoCursor::from_located(bytes, located);
    proof {
        assert(strings_view(node.inputs@) =~= Seq::<Seq<char>>::empty());
        assert(strings_view(node.outputs@) =~= Seq::<Seq<char>>::empty());
    }
    while cursor.has_remaining()
        invariant
            cursor.wf(),
            cursor.bytes == bytes,
            cursor.start == located.absolute_start,
            cursor.end == located.absolute_end,
            spec_node_fields(bytes@, cursor.start as int, cursor.offset as int, cursor.end as int, node@)
                == spec_parse_node(bytes@, located.absolute_start as int, located.absolute_end as int),
        decreases cursor.end - cursor.offset,
    {
        let ghost pos = cursor.offset as int;
        proof {
            lemma_next_field_advances(bytes@, cursor.start as int, pos, cursor.end as int);
        }
        let field = cursor.next_field()?;
        let ghost f = spec_next_field(bytes@, cursor.start as int, pos, cursor.end as int)->Ok_0;
        if field.number == 1 {
            let text = field.expect_string(bytes)?;
            let ghost old_inputs = node.inputs@;
            node.inputs.push(text);
            proof {
                assert(strings_view(node.inputs@) =~= strings_view(old_inputs).push(text@));
            }
        } else if field.number == 2 {
            let text = field.expect_string(bytes)?;
            let ghost old_outputs = node.outputs@;
            node.outputs.push(text);
            proof {
                assert(strings_view(node.outputs@) =~= strings_view(old_outputs).push(text@));
            }
        } else if field.number == 3 {
            node.name = Some(field.expect_string(bytes)?);
        } else if field.number == 4 {
            node.op_type = Some(field.expect_string(bytes)?);
        }
    }
    Ok(node)
}


pub open spec fn empty_opset() -> SpecOnnxOpset {
    SpecOnnxOpset { domain: seq![], version: 0 }
}

/// Folds the fields at `pos..end` of an `OperatorSetIdProto` into `acc`.
pub open spec fn spec_opset_fields(s: Seq<u8>, start: int, pos: int, end: int, acc: SpecOnnxOpset) -> Result<
    SpecOnnxOpset,
    OnnxError,
>
    decreases end - pos,
{
    if pos >= end {
        Ok(acc)
    } else {
        match spec_next_field(s, start, pos, end) {
            Err(e) => Err(e),
            Ok(f) => {
                proof {
                    lemma_next_field_advances(s, start, pos, end);
                }
                if f.number == 1 {
                    match spec_expect_string(s, f) {
                        Err(e) => Err(e),
                        Ok(x) => spec_opset_fields(s, start, f.next, end, SpecOnnxOpset { domain: x, ..acc }),
                    }
                } else if f.number == 2 {
                    match spec_expect_varint(f) {
                        Err(e) => Err(e),
                        Ok(v) => spec_opset_fields(
                            s,
                            start,
                            f.next,
                            end,
                            SpecOnnxOpset { version: v as i64, ..acc },
                        ),
                    }
                } else {
                    spec_opset_fields(s, start, f.next, end, acc)
                }
            },
        }
    }
}

pub open spec fn spec_parse_opset(s: Seq<u8>, start: int, end: int) -> Result<SpecOnnxOpset, OnnxError> {
    spec_opset_fields(s, start, start, end, empty_opset())
}

fn parse_opset(bytes: &[u8], located: LocatedBytes) -> (r: Result<OnnxOpset, OnnxError>)
    requires
        located.absolute_start <= located.absolute_end <= bytes@.len(),
    ensures
        match spec_parse_opset(bytes@, located.absolute_start as int, located.absolute_end as int) {
            Ok(o) => r matches Ok(ro) && ro@ == o,
            Err(e) => r matches Err(re) && re == e,
        },
{
    let mut domain = String::new();
    let mut version: i64 = 0;
    let mut cursor = ProtoCursor::from_located(bytes, located);
    while cursor.has_remaining()
        invariant
            cursor.wf(),
            cursor.bytes == bytes,
            cursor.start == located.absolute_start,
            cursor.end == located.absolute_end,
            spec_opset_fields(
                bytes@,
                cursor.start as int,
                cursor.offset as int,
                cursor.end as int,
                SpecOnnxOpset { domain: domain@, version },
            ) == spec_parse_opset(bytes@, located.absolute_start as int, located.absolute_end as int),
        decreases cursor.end - cursor.offset,
    {
        let ghost pos = cursor.offset as int;
        proof {
            lemma_next_field_advances(bytes@, cursor.start as int, pos, cursor.end as int);
        }
        let field = cursor.next_field()?;
        if field.number == 1 {
            domain = field.expect_string(bytes)?;
        } else if field.number == 2 {
            version = field.expect_varint()? as i64;
        }
    }
    Ok(OnnxOpset { domain, version })
}

/// Folds the fields at `pos..end` of a `StringStringEntryProto` (key (1), value (2)) into `acc`.
pub open spec fn spec_string_entry_fields(
    s: Seq<u8>,
    start: int,
    pos: int,
    end: int,
    acc: (Seq<char>, Seq<char>),
) -> Result<(Seq<char>, Seq<char>), OnnxError>
    decreases end - pos,
{
    if pos >= end {
        Ok(acc)
    } else {
        match spec_next_field(s, start, pos, end) {
            Err(e) => Err(e),
            Ok(f) => {
                proof {
                    lemma_next_field_advances(s, start, pos, end);
                }
                if f.number == 1 || f.number == 2 {
                    match spec_expect_string(s, f) {
                        Err(e) => Err(e),
                        Ok(x) => spec_string_entry_fields(
                            s,
                            start,
                            f.next,
                            end,
                            if f.number == 1 {
                                (x, acc.1)
                            } else {
                                (acc.0, x)
                            },
                        ),
                    }
                } else {
                    spec_string_entry_fields(s, start, f.next, end, acc)
                }
            },
        }
    }
}

pub open spec fn spec_parse_string_entry(s: Seq<u8>, start: int, end: int) -> Result<
    (Seq<char>, Seq<char>),
    OnnxError,
> {
    spec_string_entry_fields(s, start, start, end, (seq![], seq![]))
}

fn parse_string_entry(bytes: &[u8], located: LocatedBytes) -> (r: Result<(String, String), OnnxError>)
    requires
        located.absolute_start <= located.absolute_end <= bytes@.len(),
    ensures
        match spec_parse_string_entry(bytes@, located.absolute_start as int, located.absolute_end as int) {
            Ok(p) => r matches Ok(rp) && rp.0@ == p.0 && rp.1@ == p.1,
            Err(e) => r matches Err(re) && re == e,
        },
{
    let mut key = String::new();
    let mut value = String::new();
    let mut cursor = ProtoCursor::from_located(bytes, located);
    while cursor.has_remaining()
        invariant
            cursor.wf(),
            cursor.bytes == bytes,
            cursor.start == located.absolute_start,
            cursor.end == located.absolute_end,
            spec_string_entry_fields(
                bytes@,
                cursor.start as int,
                cursor.offset as int,
                cursor.end as int,
                (key@, value@),
            ) == spec_parse_string_entry(bytes@, located.absolute_start as int, located.absolute_end as int),
        decreases cursor.end - cursor.offset,
    {
        let ghost pos = cursor.offset as int;
        proof {
            lemma_next_field_advances(bytes@, cursor.start as int, pos, cursor.end as int);
        }
        let field = cursor.next_field()?;
        if field.number == 1 {
            key = field.expect_string(bytes)?;
        } else if field.number == 2 {
            value = field.expect_string(bytes)?;
        }
    }
    Ok((key, value))
}

/// The name (field 1) of a `ValueInfoProto` at `pos..end`: the first such field.
pub open spec fn spec_value_info_from(s: Seq<u8>, start: int, pos: int, end: int) -> Result<
    Option<Seq<char>>,
    OnnxError,
>
    decreases end - pos,
{
    if pos >= end {
        Ok(None)
    } else {
        match spec_next_field(s, start, pos, end) {
            Err(e) => Err(e),
            Ok(f) => {
                proof {
                    lemma_next_field_advances(s, start, pos, end);
                }
                if f.number == 1 {
                    match spec_expect_string(s, f) {
                        Err(e) => Err(e),
                        Ok(x) => Ok(Some(x)),
                    }
                } else {
                    spec_value_info_from(s, start, f.next, end)
                }
            },
        }
    }
}

pub open spec fn spec_parse_value_info_name(s: Seq<u8>, start: int, end: int) -> Result<
    Option<Seq<char>>,
    OnnxError,
> {
    spec_value_info_from(s, start, start, end)
}

fn parse_value_info_name(bytes: &[u8], located: LocatedBytes) -> (r: Result<Option<String>, OnnxError>)
    requires
        located.absolute_start <= located.absolute_end <= bytes@.len(),
    ensures
        match spec_parse_value_info_name(bytes@, located.absolute_start as int, located.absolute_end as int) {
            Ok(o) => r matches Ok(ro) && opt_string_view(ro) == o,
            Err(e) => r matches Err(re) && re == e,
        },
{
    let mut cursor = ProtoCursor::from_located(bytes, located);
    while cursor.has_remaining()
        invariant
            cursor.wf(),
            cursor.bytes == bytes,
            cursor.start == located.absolute_start,
            cursor.end == located.absolute_end,
            spec_value_info_from(bytes@, cursor.start as int, cursor.offset as int, cursor.end as int)
                == spec_parse_value_info_name(bytes@, located.absolute_start as int, located.absolute_end as int),
        decreases cursor.end - cursor.offset,
    {
        let ghost pos = cursor.offset as int;
        proof {
            lemma_next_field_advances(bytes@, cursor.start as int, pos, cursor.end as int);
        }
        let field = cursor.next_field()?;
        if field.number == 1 {
            return Ok(Some(field.expect_string(bytes)?));
        }
    }
    Ok(None)
}

pub open spec fn empty_tensor() -> SpecOnnxTensorInfo {
    SpecOnnxTensorInfo {
        name: seq![],
        element_type: OnnxTensorElementType::Unsupported(0),
        shape: seq![],
        raw_data_offsets: None,
        external_data: seq![],
        data_location: None,
    }
}

/// Folds the fields at `pos..end` of a `TensorProto` into `acc`.
pub open spec fn spec_tensor_fields(
    s: Seq<u8>,
    start: int,
    pos: int,
    end: int,
    acc: SpecOnnxTensorInfo,
) -> Result<SpecOnnxTensorInfo, OnnxError>
    decreases end - pos,
{
    if pos >= end {
        Ok(acc)
    } else {
        match spec_next_field(s, start, pos, end) {
            Err(e) => Err(e),
            Ok(f) => {
                proof {
                    lemma_next_field_advances(s, start, pos, end);
                }
                if f.number == 1 || f.number == 2 || f.number == 14 {
                    match spec_expect_varint(f) {
                        Err(e) => Err(e),
                        Ok(v) => spec_tensor_fields(
                            s,
                            start,
                            f.next,
                            end,
                            if f.number == 1 {
                                SpecOnnxTensorInfo { shape: acc.shape.push(v as i64), ..acc }
                            } else if f.number == 2 {
                                SpecOnnxTensorInfo { element_type: spec_from_onnx_code(v as i32), ..acc }
                            } else {
                                SpecOnnxTensorInfo { data_location: Some(v as i32), ..acc }
                            },
                        ),
                    }
                } else if f.number == 8 {
                    match spec_expect_string(s, f) {
                        Err(e) => Err(e),
                        Ok(x) => spec_tensor_fields(s, start, f.next, end, SpecOnnxTensorInfo { name: x, ..acc }),
                    }
                } else if f.number == 9 {
                    match spec_expect_bytes(f) {
                        Err(e) => Err(e),
                        Ok((a, b)) => spec_tensor_fields(
                            s,
                            start,
                            f.next,
                            end,
                            SpecOnnxTensorInfo { raw_data_offsets: Some((a as usize, b as usize)), ..acc },
                        ),
                    }
                } else if f.number == 13 {
                    match spec_expect_bytes(f) {
                        Err(e) => Err(e),
                        Ok((a, b)) => match spec_parse_string_entry(s, a, b) {
                            Err(e) => Err(e),
                            Ok(p) => spec_tensor_fields(
                                s,
                                start,
                                f.next,
                                end,
                                SpecOnnxTensorInfo { external_data: acc.external_data.push(p), ..acc },
                            ),
                        },
                    }
                } else {
                    spec_tensor_fields(s, start, f.next, end, acc)
                }
            },
        }
    }
}

pub open spec fn spec_parse_tensor(s: Seq<u8>, start: int, end: int) -> Result<SpecOnnxTensorInfo, OnnxError> {
    spec_tensor_fields(s, start, start, end, empty_tensor())
}

fn parse_tensor(bytes: &[u8], located: LocatedBytes) -> (r: Result<OnnxTensorInfo, OnnxError>)
    requires
        located.absolute_start <= located.absolute_end <= bytes@.len(),
    ensures
        match spec_parse_tensor(bytes@, located.absolute_start as int, located.absolute_end as int) {
            Ok(t) => r matches Ok(rt) && rt@ == t,
            Err(e) => r matches Err(re) && re == e,
        },
{
    let mut tensor = OnnxTensorInfo {
        name: String::new(),
        element_type: OnnxTensorElementType::Unsupported(0),
        shape: Vec::new(),
        raw_data_offsets: None,
        external_data: Vec::new(),
        data_location: None,
    };
    let mut cursor = ProtoCursor::from_located(bytes, located);
    proof {
        assert(pairs_view(tensor.external_data@) =~= Seq::<(Seq<char>, Seq<char>)>::empty());
        assert(tensor@.shape =~= Seq::<i64>::empty());
    }
    while cursor.has_remaining()
        invariant
            cursor.wf(),
            cursor.bytes == bytes,
            cursor.start == located.absolute_start,
            cursor.end == located.absolute_end,
            spec_tensor_fields(bytes@, cursor.start as int, cursor.offset as int, cursor.end as int, tensor@)
                == spec_parse_tensor(bytes@, located.absolute_start as int, located.absolute_end as int),
        decreases cursor.end - cursor.offset,
    {
        let ghost pos = cursor.offset as int;
        proof {
            lemma_next_field_advances(bytes@, cursor.start as int, pos, cursor.end as int);
        }
        let field = cursor.next_field()?;
        if field.number == 1 {
            let v = field.expect_varint()?;
            tensor.shape.push(v as i64);
        } else if field.number == 2 {
            let v = field.expect_varint()?;
            tensor.element_type = OnnxTensorElementType::from_onnx_code(v as i32);
        } else if field.number == 14 {
            let v = field.expect_varint()?;
            tensor.data_location = Some(v as i32);
        } else if field.number == 8 {
            tensor.name = field.expect_string(bytes)?;
        } else if field.number == 9 {
            let raw = field.expect_bytes()?;
            tensor.raw_data_offsets = Some([raw.absolute_start, raw.absolute_end]);
            proof {
                assert(offsets_view(tensor.raw_data_offsets) == Some((raw.absolute_start, raw.absolute_end)));
            }
        } else if field.number == 13 {
            let located_entry = field.expect_bytes()?;
            let entry = parse_string_entry(bytes, located_entry)?;
            let ghost old_entries = tensor.external_data@;
            tensor.external_data.push(entry);
            proof {
                assert(pairs_view(tensor.external_data@) =~= pairs_view(old_entries).push((entry.0@, entry.1@)));
            }
        }
    }
    Ok(tensor)
}


pub open spec fn empty_graph() -> SpecOnnxGraph {
    SpecOnnxGraph { name: None, inputs: seq![], outputs: seq![], nodes: seq![], initializers: seq![] }
}

/// Folds the fields at `pos..end` of a `GraphProto` into `acc`.
pub open spec fn spec_graph_fields(s: Seq<u8>, start: int, pos: int, end: int, acc: SpecOnnxGraph) -> Result<
    SpecOnnxGraph,
    OnnxError,
>
    decreases end - pos,
{
    if pos >= end {
        Ok(acc)
    } else {
        match spec_next_field(s, start, pos, end) {
            Err(e) => Err(e),
            Ok(f) => {
                proof {
                    lemma_next_field_advances(s, start, pos, end);
                }
                if f.number == 2 {
                    match spec_expect_string(s, f) {
                        Err(e) => Err(e),
                        Ok(x) => spec_graph_fields(s, start, f.next, end, SpecOnnxGraph { name: Some(x), ..acc }),
                    }
                } else if f.number == 1 || f.number == 5 || f.number == 11 || f.number == 12 {
                    match spec_expect_bytes(f) {
                        Err(e) => Err(e),
                        Ok((a, b)) => if f.number == 1 {
                            match spec_parse_node(s, a, b) {
                                Err(e) => Err(e),
                                Ok(n) => spec_graph_fields(
                                    s,
                                    start,
                                    f.next,
                                    end,
                                    SpecOnnxGraph { nodes: acc.nodes.push(n), ..acc },
                                ),
                            }
                        } else if f.number == 5 {
                            match spec_parse_tensor(s, a, b) {
                                Err(e) => Err(e),
                                Ok(t) => spec_graph_fields(
                                    s,
                                    start,
                                    f.next,
                                    end,
                                    SpecOnnxGraph { initializers: acc.initializers.push(t), ..acc },
                                ),
                            }
                        } else {
                            match spec_parse_value_info_name(s, a, b) {
                                Err(e) => Err(e),
                                Ok(None) => spec_graph_fields(s, start, f.next, end, acc),
                                Ok(Some(x)) => spec_graph_fields(
                                    s,
                                    start,
                                    f.next,
                                    end,
                                    if f.number == 11 {
                                        SpecOnnxGraph { inputs: acc.inputs.push(x), ..acc }
                                    } else {
                                        SpecOnnxGraph { outputs: acc.outputs.push(x), ..acc }
                                    },
                                ),
                            }
                        },
                    }
                } else {
                    spec_graph_fields(s, start, f.next, end, acc)
                }
            },
        }
    }
}

pub open spec fn spec_parse_graph(s: Seq<u8>, start: int, end: int) -> Result<SpecOnnxGraph, OnnxError> {
    spec_graph_fields(s, start, start, end, empty_graph())
}

fn parse_graph(bytes: &[u8], located: LocatedBytes) -> (r: Result<OnnxGraph, OnnxError>)
    requires
        located.absolute_start <= located.absolute_end <= bytes@.len(),
    ensures
        match spec_parse_graph(bytes@, located.absolute_start as int, located.absolute_end as int) {
            Ok(g) => r matches Ok(rg) && rg@ == g,
            Err(e) => r matches Err(re) && re == e,
        },
{
    let mut graph = OnnxGraph::default();
    let mut cursor = ProtoCursor::from_located(bytes, located);
    while cursor.has_remaining()
        invariant
            cursor.wf(),
            cursor.bytes == bytes,
            cursor.start == located.absolute_start,
            cursor.end == located.absolute_end,
            spec_graph_fields(bytes@, cursor.start as int, cursor.offset as int, cursor.end as int, graph@)
                == spec_parse_graph(bytes@, located.absolute_start as int, located.absolute_end as int),
        decreases cursor.end - cursor.offset,
    {
        let ghost pos = cursor.offset as int;
        proof {
            lemma_next_field_advances(bytes@, cursor.start as int, pos, cursor.end as int);
        }
        let field = cursor.next_field()?;
        if field.number == 2 {
            graph.name = Some(field.expect_string(bytes)?);
        } else if field.number == 1 {
            let located_node = field.expect_bytes()?;
            let node = parse_node(bytes, located_node)?;
            let ghost old_nodes = graph.nodes@;
            graph.nodes.push(node);
            proof {
                assert(graph.nodes@.map_values(|n: OnnxNode| n@) =~= old_nodes.map_values(
                    |n: OnnxNode| n@,
                ).push(node@));
            }
        } else if field.number == 5 {
            let located_tensor = field.expect_bytes()?;
            let tensor = parse_tensor(bytes, located_tensor)?;
            let ghost old_tensors = graph.initializers@;
            graph.initializers.push(tensor);
            proof {
                assert(graph.initializers@.map_values(|t: OnnxTensorInfo| t@) =~= old_tensors.map_values(
                    |t: OnnxTensorInfo| t@,
                ).push(tensor@));
            }
        } else if field.number == 11 {
            let located_info = field.expect_bytes()?;
            if let Some(name) = parse_value_info_name(bytes, located_info)? {
                let ghost old_inputs = graph.inputs@;
                graph.inputs.push(name);
                proof {
                    assert(strings_view(graph.inputs@) =~= strings_view(old_inputs).push(name@));
                }
            }
        } else if field.number == 12 {
            let located_info = field.expect_bytes()?;
            if let Some(name) = parse_value_info_name(bytes, located_info)? {
                let ghost old_outputs = graph.outputs@;
                graph.outputs.push(name);
                proof {
                    assert(strings_view(graph.outputs@) =~= strings_view(old_outputs).push(name@));
                }
            }
        }
    }
    Ok(graph)
}

pub open spec fn empty_model() -> SpecOnnxModel {
    SpecOnnxModel {
        ir_version: None,
        producer_name: None,
        producer_version: None,
        domain: None,
        model_version: None,
        doc_string: None,
        graph: empty_graph(),
        opsets: seq![],
        metadata: seq![],
    }
}

/// Folds the fields at `pos..end` of a `ModelProto` into `acc`.
pub open spec fn spec_model_fields(s: Seq<u8>, start: int, pos: int, end: int, acc: SpecOnnxModel) -> Result<
    SpecOnnxModel,
    OnnxError,
>
    decreases end - pos,
{
    if pos >= end {
        Ok(acc)
    } else {
        match spec_next_field(s, start, pos, end) {
            Err(e) => Err(e),
            Ok(f) => {
                proof {
                    lemma_next_field_advances(s, start, pos, end);
                }
                if f.number == 1 || f.number == 5 {
                    match spec_expect_varint(f) {
                        Err(e) => Err(e),
                        Ok(v) => spec_model_fields(
                            s,
                            start,
                            f.next,
                            end,
                            if f.number == 1 {
                                SpecOnnxModel { ir_version: Some(v as i64), ..acc }
                            } else {
                                SpecOnnxModel { model_version: Some(v as i64), ..acc }
                            },
                        ),
                    }
                } else if f.number == 2 || f.number == 3 || f.number == 4 || f.number == 6 {
                    match spec_expect_string(s, f) {
                        Err(e) => Err(e),
                        Ok(x) => spec_model_fields(
                            s,
                            start,
                            f.next,
                            end,
                            if f.number == 2 {
                                SpecOnnxModel { producer_name: Some(x), ..acc }
                            } else if f.number == 3 {
                                SpecOnnxModel { producer_version: Some(x), ..acc }
                            } else if f.number == 4 {
                                SpecOnnxModel { domain: Some(x), ..acc }
                            } else {
                                SpecOnnxModel { doc_string: Some(x), ..acc }
                            },
                        ),
                    }
                } else if f.number == 7 || f.number == 8 || f.number == 14 {
                    match spec_expect_bytes(f) {
                        Err(e) => Err(e),
                        Ok((a, b)) => if f.number == 7 {
                            match spec_parse_graph(s, a, b) {
                                Err(e) => Err(e),
                                Ok(g) => spec_model_fields(s, start, f.next, end, SpecOnnxModel { graph: g, ..acc }),
                            }
                        } else if f.number == 8 {
                            match spec_parse_opset(s, a, b) {
                                Err(e) => Err(e),
                                Ok(o) => spec_model_fields(
                                    s,
                                    start,
                                    f.next,
                                    end,
                                    SpecOnnxModel { opsets: acc.opsets.push(o), ..acc },
                                ),
                            }
                        } else {
                            match spec_parse_string_entry(s, a, b) {
                                Err(e) => Err(e),
                                Ok(p) => spec_model_fields(
                                    s,
                                    start,
                                    f.next,
                                    end,
                                    SpecOnnxModel { metadata: acc.metadata.push(p), ..acc },
                                ),
                            }
                        },
                    }
                } else {
                    spec_model_fields(s, start, f.next, end, acc)
                }
            },
        }
    }
}

/// The `ModelProto` that a whole ONNX file holds.
pub open spec fn spec_parse_model(s: Seq<u8>) -> Result<SpecOnnxModel, OnnxError> {
    spec_model_fields(s, 0, 0, s.len() as int, empty_model())
}

/// Decodes the `ModelProto` of an ONNX file: its metadata, graph structure and
/// initializer descriptions, with raw tensor data given as byte ranges of `bytes`.
pub fn parse_model(bytes: &[u8]) -> (r: Result<OnnxModel, OnnxError>)
    ensures
        match spec_parse_model(bytes@) {
            Ok(m) => r matches Ok(rm) && rm@ == m,
            Err(e) => r matches Err(re) && re == e,
        },
{
    let mut model = OnnxModel::default();
    let mut cursor = ProtoCursor::new(bytes);
    while cursor.has_remaining()
        invariant
            cursor.wf(),
            cursor.bytes == bytes,
            cursor.start == 0,
            cursor.end == bytes@.len(),
            spec_model_fields(bytes@, 0, cursor.offset as int, cursor.end as int, model@)
                == spec_parse_model(bytes@),
        decreases cursor.end - cursor.offset,
    {
        let ghost pos = cursor.offset as int;
        proof {
            lemma_next_field_advances(bytes@, 0, pos, cursor.end as int);
        }
        let field = cursor.next_field()?;
        if field.number == 1 {
            model.ir_version = Some(field.expect_varint()? as i64);
        } else if field.number == 5 {
            model.model_version = Some(field.expect_varint()? as i64);
        } else if field.number == 2 {
            model.producer_name = Some(field.expect_string(bytes)?);
        } else if field.number == 3 {
            model.producer_version = Some(field.expect_string(bytes)?);
        } else if field.number == 4 {
            model.domain = Some(field.expect_string(bytes)?);
        } else if field.number == 6 {
            model.doc_string = Some(field.expect_string(bytes)?);
        } else if field.number == 7 {
            let located_graph = field.expect_bytes()?;
            model.graph = parse_graph(bytes, located_graph)?;
        } else if field.number == 8 {
            let located_opset = field.expect_bytes()?;
            let opset = parse_opset(bytes, located_opset)?;
            let ghost old_opsets = model.opsets@;
            model.opsets.push(opset);
            proof {
                assert(model.opsets@.map_values(|o: OnnxOpset| o@) =~= old_opsets.map_values(
                    |o: OnnxOpset| o@,
                ).push(opset@));
            }
        } else if field.number == 14 {
            let located_entry = field.expect_bytes()?;
            let entry = parse_string_entry(bytes, located_entry)?;
            let ghost old_entries = model.metadata@;
            model.metadata.push(entry);
            proof {
                assert(pairs_view(model.metadata@) =~= pairs_view(old_entries).push((entry.0@, entry.1@)));
            }
        }
    }
    Ok(model)
}

impl Default for OnnxNode {
    fn default() -> (r: Self)
        ensures
            r@ == empty_node(),
    {
        let r = OnnxNode { op_type: None, name: None, inputs: Vec::new(), outputs: Vec::new() };
        proof {
            assert(strings_view(r.inputs@) =~= Seq::<Seq<char>>::empty());
            assert(strings_view(r.outputs@) =~= Seq::<Seq<char>>::empty());
        }
        r
    }
}

impl Default for OnnxGraph {
    fn default() -> (r: Self)
        ensures
            r@ == empty_graph(),
    {
        let r = OnnxGraph {
            name: None,
            inputs: Vec::new(),
            outputs: Vec::new(),
            nodes: Vec::new(),
            initializers: Vec::new(),
        };
        proof {
            assert(strings_view(r.inputs@) =~= Seq::<Seq<char>>::empty());
            assert(strings_view(r.outputs@) =~= Seq::<Seq<char>>::empty());
            assert(r.nodes@.map_values(|n: OnnxNode| n@) =~= Seq::<SpecOnnxNode>::empty());
            assert(r.initializers@.map_values(|t: OnnxTensorInfo| t@) =~= Seq::<SpecOnnxTensorInfo>::empty());
        }
        r
    }
}

impl Default for OnnxModel {
    fn default() -> (r: Self)
        ensures
            r@ == empty_model(),
    {
        let r = OnnxModel {
            ir_version: None,
            producer_name: None,
            producer_version: None,
            domain: None,
            model_version: None,
            doc_string: None,
            graph: OnnxGraph::default(),
            opsets: Vec::new(),
            metadata: Vec::new(),
        };
        proof {
            assert(r.opsets@.map_values(|o: OnnxOpset| o@) =~= Seq::<SpecOnnxOpset>::empty());
            assert(pairs_view(r.metadata@) =~= Seq::<(Seq<char>, Seq<char>)>::empty());
        }
        r
    }
}


/// `std::path::PathBuf`, carried through unread.
#[verifier::external_type_specification]
#[verifier::external_body]
pub struct ExPathBuf(PathBuf);

/// `std::path::Path`, carried through unread.
#[verifier::external_type_specification]
#[verifier::external_body]
pub struct ExPath(Path);

/// The path that `PathBuf::as_path` borrows from `buf`: a function of `buf` alone.
pub uninterp spec fn buf_as_path(buf: &PathBuf) -> &Path;

/// `PathBuf::as_path`: the path the buffer holds, named by `buf_as_path`.
#[verifier::external_body]
fn path_buf_as_path(p: &PathBuf) -> (r: &Path)
    ensures
        r == buf_as_path(p),
{
    p.as_path()
}

/// An ONNX model together with the path it was read from.
#[derive(Debug)]
pub struct OnnxFile {
    path: PathBuf,
    model: OnnxModel,
}

/// The index of the first initializer named `name`, if any.
pub open spec fn spec_find_initializer(tensors: Seq<SpecOnnxTensorInfo>, name: Seq<char>) -> Option<int> {
    if exists|i: int| 0 <= i < tensors.len() && (#[trigger] tensors[i]).name == name {
        Some(
            choose|i: int|
                0 <= i < tensors.len() && (#[trigger] tensors[i]).name == name && forall|j: int|
                    0 <= j < i ==> (#[trigger] tensors[j]).name != name,
        )
    } else {
        None
    }
}

impl OnnxFile {
    /// Decodes the ONNX file that `bytes` holds, read from `path`.
    pub fn from_file_bytes(path: PathBuf, bytes: &[u8]) -> (r: Result<Self, OnnxError>)
        ensures
            match spec_parse_model(bytes@) {
                Ok(m) => r matches Ok(f) && f.spec_model() == m && f.spec_path() == path,
                Err(e) => r matches Err(re) && re == e,
            },
    {
        let model = parse_model(bytes)?;
        Ok(OnnxFile { path, model })
    }

    /// The path the model was read from.
    pub closed spec fn spec_path(&self) -> PathBuf {
        self.path
    }

    pub closed spec fn spec_model(&self) -> SpecOnnxModel {
        self.model@
    }

    pub fn path(&self) -> (r: &Path)
        ensures
            r == buf_as_path(&self.spec_path()),
    {
        path_buf_as_path(&self.path)
    }

    pub fn model(&self) -> (r: &OnnxModel)
        ensures
            r@ == self.spec_model(),
    {
        &self.model
    }

    pub fn graph(&self) -> (r: &OnnxGraph)
        ensures
            r@ == self.spec_model().graph,
    {
        &self.model.graph
    }

    pub fn initializers(&self) -> (r: &[OnnxTensorInfo])
        ensures
            r@.map_values(|t: OnnxTensorInfo| t@) == self.spec_model().graph.initializers,
    {
        self.model.graph.initializers.as_slice()
    }

    /// The first initializer named `name`; an error when none has that name.
    pub fn initializer(&self, name: &str) -> (r: Result<&OnnxTensorInfo, OnnxError>)
        ensures
            match spec_find_initializer(self.spec_model().graph.initializers, name@) {
                Some(i) => r matches Ok(t) && t@ == self.spec_model().graph.initializers[i],
                None => r == Err::<&OnnxTensorInfo, OnnxError>(OnnxError::MissingInitializer),
            },
    {
        let tensors = &self.model.graph.initializers;
        let ghost views = tensors@.map_values(|t: OnnxTensorInfo| t@);
        let mut i: usize = 0;
        while i < tensors.len()
            invariant
                i <= tensors@.len(),
                views == tensors@.map_values(|t: OnnxTensorInfo| t@),
                views == self.spec_model().graph.initializers,
                forall|j: int| 0 <= j < i ==> (#[trigger] views[j]).name != name@,
            decreases tensors@.len() - i,
        {
            if chars_eq(tensors[i].name.as_str(), name) {
                proof {
                    assert(views[i as int].name == name@);
                    let k = spec_find_initializer(views, name@)->Some_0;
                    assert(views[k].name == name@);
                    if k < i {
                    } else if k > i {
                    }
                    assert(k == i);
                }
                return Ok(&tensors[i]);
            }
            i = i + 1;
        }
        Err(OnnxError::MissingInitializer)
    }
}

} // verus!
