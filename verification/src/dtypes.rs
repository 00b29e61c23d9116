//! Element types of stored tensors.
use vstd::prelude::*;

use crate::text::chars_eq;

verus! {

/// The element types that model files store.
#[derive(Debug, Clone, Copy, PartialEq, Eq, Structural)]
pub enum DType {
    Bool,
    U8,
    I8,
    U16,
    I16,
    F16,
    Bf16,
    U32,
    I32,
    F32,
    U64,
    I64,
    F64,
}

/// The safetensors header name of a dtype.
pub open spec fn spec_safetensors_name(dtype: DType) -> Seq<char> {
    match dtype {
        DType::Bool => seq!['B', 'O', 'O', 'L'],
        DType::U8 => seq!['U', '8'],
        DType::I8 => seq!['I', '8'],
        DType::U16 => seq!['U', '1', '6'],
        DType::I16 => seq!['I', '1', '6'],
        DType::F16 => seq!['F', '1', '6'],
        DType::Bf16 => seq!['B', 'F', '1', '6'],
        DType::U32 => seq!['U', '3', '2'],
        DType::I32 => seq!['I', '3', '2'],
        DType::F32 => seq!['F', '3', '2'],
        DType::U64 => seq!['U', '6', '4'],
        DType::I64 => seq!['I', '6', '4'],
        DType::F64 => seq!['F', '6', '4'],
    }
}

/// The number of bytes one element of a dtype occupies.
pub open spec fn spec_size_in_bytes(dtype: DType) -> usize {
    match dtype {
        DType::Bool | DType::U8 | DType::I8 => 1,
        DType::U16 | DType::I16 | DType::F16 | DType::Bf16 => 2,
        DType::U32 | DType::I32 | DType::F32 => 4,
        DType::U64 | DType::I64 | DType::F64 => 8,
    }
}

/// The dtype that a safetensors header names, if any.
pub open spec fn spec_from_safetensors_name(name: Seq<char>) -> Option<DType> {
    if name == spec_safetensors_name(DType::Bool) {
        Some(DType::Bool)
    } else if name == spec_safetensors_name(DType::U8) {
        Some(DType::U8)
    } else if name == spec_safetensors_name(DType::I8) {
        Some(DType::I8)
    } else if name == spec_safetensors_name(DType::U16) {
        Some(DType::U16)
    } else if name == spec_safetensors_name(DType::I16) {
        Some(DType::I16)
    } else if name == spec_safetensors_name(DType::F16) {
        Some(DType::F16)
    } else if name == spec_safetensors_name(DType::Bf16) {
        Some(DType::Bf16)
    } else if name == spec_safetensors_name(DType::U32) {
        Some(DType::U32)
    } else if name == spec_safetensors_name(DType::I32) {
        Some(DType::I32)
    } else if name == spec_safetensors_name(DType::F32) {
        Some(DType::F32)
    } else if name == spec_safetensors_name(DType::U64) {
        Some(DType::U64)
    } else if name == spec_safetensors_name(DType::I64) {
        Some(DType::I64)
    } else if name == spec_safetensors_name(DType::F64) {
        Some(DType::F64)
    } else {
        None
    }
}

impl DType {
    /// The safetensors header name of this dtype.
    pub fn safetensors_name(self) -> (r: &'static str)
        ensures
            r@ == spec_safetensors_name(self),
    {
        match self {
            DType::Bool => {
                proof {
                    reveal_strlit("BOOL");
                }
                "BOOL"
            },
            DType::U8 => {
                proof {
                    reveal_strlit("U8");
                }
                "U8"
            },
            DType::I8 => {
                proof {
                    reveal_strlit("I8");
                }
                "I8"
            },
            DType::U16 => {
                proof {
                    reveal_strlit("U16");
                }
                "U16"
            },
            DType::I16 => {
                proof {
                    reveal_strlit("I16");
                }
                "I16"
            },
            DType::F16 => {
                proof {
                    reveal_strlit("F16");
                }
                "F16"
            },
            DType::Bf16 => {
                proof {
                    reveal_strlit("BF16");
                }
                "BF16"
            },
            DType::U32 => {
                proof {
                    reveal_strlit("U32");
                }
                "U32"
            },
            DType::I32 => {
                proof {
                    reveal_strlit("I32");
                }
                "I32"
            },
            DType::F32 => {
                proof {
                    reveal_strlit("F32");
                }
                "F32"
            },
            DType::U64 => {
                proof {
                    reveal_strlit("U64");
                }
                "U64"
            },
            DType::I64 => {
                proof {
                    reveal_strlit("I64");
                }
                "I64"
            },
            DType::F64 => {
                proof {
                    reveal_strlit("F64");
                }
                "F64"
            },
        }
    }

    /// The dtype that a safetensors header names; `None` for a name this library does not know.
    pub fn from_safetensors_name(name: &str) -> (r: Option<DType>)
        ensures
            r == spec_from_safetensors_name(name@),
    {
        if chars_eq(name, DType::Bool.safetensors_name()) {
            Some(DType::Bool)
        } else if chars_eq(name, DType::U8.safetensors_name()) {
            Some(DType::U8)
        } else if chars_eq(name, DType::I8.safetensors_name()) {
            Some(DType::I8)
        } else if chars_eq(name, DType::U16.safetensors_name()) {
            Some(DType::U16)
        } else if chars_eq(name, DType::I16.safetensors_name()) {
            Some(DType::I16)
        } else if chars_eq(name, DType::F16.safetensors_name()) {
            Some(DType::F16)
        } else if chars_eq(name, DType::Bf16.safetensors_name()) {
            Some(DType::Bf16)
        } else if chars_eq(name, DType::U32.safetensors_name()) {
            Some(DType::U32)
        } else if chars_eq(name, DType::I32.safetensors_name()) {
            Some(DType::I32)
        } else if chars_eq(name, DType::F32.safetensors_name()) {
            Some(DType::F32)
        } else if chars_eq(name, DType::U64.safetensors_name()) {
            Some(DType::U64)
        } else if chars_eq(name, DType::I64.safetensors_name()) {
            Some(DType::I64)
        } else if chars_eq(name, DType::F64.safetensors_name()) {
            Some(DType::F64)
        } else {
            None
        }
    }

    /// The number of bytes one element occupies.
    pub fn size_in_bytes(self) -> (r: Option<usize>)
        ensures
            r == Some(spec_size_in_bytes(self)),
    {
        match self {
            DType::Bool | DType::U8 | DType::I8 => Some(1),
            DType::U16 | DType::I16 | DType::F16 | DType::Bf16 => Some(2),
            DType::U32 | DType::I32 | DType::F32 => Some(4),
            DType::U64 | DType::I64 | DType::F64 => Some(8),
        }
    }
}

} // verus!
