//! safetensors files: the JSON header that lists each tensor's dtype, shape and byte
//! range, the shard index of sharded checkpoints, and the names under which
//! checkpoints of different origins store the same weight.
use vstd::prelude::*;

use crate::dtypes::{spec_from_safetensors_name, spec_safetensors_name, spec_size_in_bytes, DType};
use crate::profile_json::{decimal, push_decimal};
use crate::json::{
    expect_json_byte, find_bytes_from, quoted, quoted_name, spec_expect_byte, spec_find_from,
    JsonError,
};
use crate::text::{
    ascii_digit, chars_eq, chars_match_at, chars_of, char_of_byte, has_prefix_at, is_ascii_digit,
    lemma_skip_ws_bounds, parse_u64, push_char, push_str, skip_ws, spec_parse_u64, spec_skip_ws,
    string_from_chars, string_of,
};
use std::path::{Path, PathBuf};

verus! {

/// Why a safetensors header or index could not be read.
#[derive(Debug, Clone, PartialEq, Eq)]
pub enum SafetensorsError {
    Json(JsonError),
    /// The header object has no closing brace.
    UnterminatedHeader,
    /// A header entry is not an object.
    FieldNotObject,
    /// A tensor names a dtype this library does not know.
    UnsupportedDtype,
    /// `data_offsets` does not hold exactly two numbers.
    WrongOffsetCount { count: usize },
    /// A shape dimension does not fit `usize`.
    ValueDoesNotFitUsize,
    /// An array field has no closing bracket.
    UnterminatedArray,
    /// An array element is not a number.
    ExpectedNumber,
    /// A number does not fit `u64`.
    InvalidNumber,
    /// An array element is followed by neither `,` nor `]`.
    ExpectedCommaOrBracket,
    /// The `weight_map` object has no closing brace.
    UnterminatedWeightMap,
    /// A `weight_map` entry is followed by neither `,` nor `}`.
    ExpectedCommaOrBrace,
    /// The tensor `name` has another dtype than the one asked for.
    DtypeMismatch { name: String, actual: DType, expected: DType },
}

/// The sentence that describes a safetensors fault. Where the reader's wording names
/// a field, key or dtype name that the error does not carry, the sentence leaves it out.
pub open spec fn safetensors_error_message(e: SafetensorsError) -> Seq<char> {
    match e {
        SafetensorsError::Json(_) => "safetensors header JSON could not be read"@,
        SafetensorsError::UnterminatedHeader => "unterminated safetensors header"@,
        SafetensorsError::FieldNotObject => "header field is not an object"@,
        SafetensorsError::UnsupportedDtype => "unsupported safetensors dtype"@,
        SafetensorsError::WrongOffsetCount { count } => "tensor has "@ + decimal(count as nat) + " data offsets, expected 2"@,
        SafetensorsError::ValueDoesNotFitUsize => "shape value does not fit usize"@,
        SafetensorsError::UnterminatedArray => "unterminated array field"@,
        SafetensorsError::ExpectedNumber => "expected number in array field"@,
        SafetensorsError::InvalidNumber => "array field number does not fit u64"@,
        SafetensorsError::ExpectedCommaOrBracket => "expected comma or ] in array field"@,
        SafetensorsError::UnterminatedWeightMap => "unterminated safetensors weight_map"@,
        SafetensorsError::ExpectedCommaOrBrace => "expected comma or } in safetensors weight_map"@,
        SafetensorsError::DtypeMismatch { name, actual, expected } => "tensor "@ + name@ + " has dtype "@
            + spec_safetensors_name(actual) + ", expected "@ + spec_safetensors_name(expected),
    }
}

impl SafetensorsError {
    /// The error as a sentence.
    pub fn message(&self) -> (r: String)
        ensures
            r@ == safetensors_error_message(*self),
    {
        let mut out = String::new();
        match self {
            SafetensorsError::Json(_) => {
                push_str(&mut out, "safetensors header JSON could not be read");
            },
            SafetensorsError::UnterminatedHeader => {
                push_str(&mut out, "unterminated safetensors header");
            },
            SafetensorsError::FieldNotObject => {
                push_str(&mut out, "header field is not an object");
            },
            SafetensorsError::UnsupportedDtype => {
                push_str(&mut out, "unsupported safetensors dtype");
            },
            SafetensorsError::WrongOffsetCount { count } => {
                push_str(&mut out, "tensor has ");
                push_decimal(&mut out, *count as u128);
                push_str(&mut out, " data offsets, expected 2");
            },
            SafetensorsError::ValueDoesNotFitUsize => {
                push_str(&mut out, "shape value does not fit usize");
            },
            SafetensorsError::UnterminatedArray => {
                push_str(&mut out, "unterminated array field");
            },
            SafetensorsError::ExpectedNumber => {
                push_str(&mut out, "expected number in array field");
            },
            SafetensorsError::InvalidNumber => {
                push_str(&mut out, "array field number does not fit u64");
            },
            SafetensorsError::ExpectedCommaOrBracket => {
                push_str(&mut out, "expected comma or ] in array field");
            },
            SafetensorsError::UnterminatedWeightMap => {
                push_str(&mut out, "unterminated safetensors weight_map");
            },
            SafetensorsError::ExpectedCommaOrBrace => {
                push_str(&mut out, "expected comma or } in safetensors weight_map");
            },
            SafetensorsError::DtypeMismatch { name, actual, expected } => {
                push_str(&mut out, "tensor ");
                push_str(&mut out, name.as_str());
                push_str(&mut out, " has dtype ");
                push_str(&mut out, actual.safetensors_name());
                push_str(&mut out, ", expected ");
                push_str(&mut out, expected.safetensors_name());
            },
        }
        out
    }
}

/// One tensor of a safetensors file: `data_offsets` is its byte range within the
/// data section that follows the header.
#[derive(Debug, Clone)]
pub struct TensorInfo {
    pub name: String,
    pub dtype: DType,
    pub shape: Vec<usize>,
    pub data_offsets: [u64; 2],
}

pub struct SpecTensorInfo {
    pub name: Seq<char>,
    pub dtype: DType,
    pub shape: Seq<usize>,
    pub data_offsets: (u64, u64),
}

impl View for TensorInfo {
    type V = SpecTensorInfo;

    open spec fn view(&self) -> SpecTensorInfo {
        SpecTensorInfo {
            name: self.name@,
            dtype: self.dtype,
            shape: self.shape@,
            data_offsets: (self.data_offsets@[0], self.data_offsets@[1]),
        }
    }
}

/// The product of a shape's dimensions.
pub open spec fn shape_product(shape: Seq<usize>) -> nat
    decreases shape.len(),
{
    if shape.len() == 0 {
        1
    } else {
        shape_product(shape.drop_last()) * shape.last() as nat
    }
}

/// True when no partial product of the shape, taken left to right, exceeds `usize`.
pub open spec fn shape_fits_usize(shape: Seq<usize>) -> bool {
    forall|i: int| 0 <= i <= shape.len() ==> #[trigger] shape_product(shape.take(i)) <= usize::MAX
}

/// The size in bytes of one element of `dtype`.
pub fn tensor_element_byte_size(dtype: DType) -> (r: usize)
    ensures
        r == spec_size_in_bytes(dtype),
{
    match dtype.size_in_bytes() {
        Some(size) => size,
        None => 1,
    }
}

impl TensorInfo {
    /// The number of elements: the product of the shape.
    pub fn element_count(&self) -> (r: usize)
        requires
            shape_fits_usize(self.shape@),
        ensures
            r == shape_product(self.shape@),
    {
        let mut product: usize = 1;
        let mut i: usize = 0;
        while i < self.shape.len()
            invariant
                i <= self.shape@.len(),
                product == shape_product(self.shape@.take(i as int)),
                shape_fits_usize(self.shape@),
            decreases self.shape@.len() - i,
        {
            proof {
                assert(self.shape@.take(i + 1).drop_last() =~= self.shape@.take(i as int));
                assert(shape_product(self.shape@.take(i + 1)) <= usize::MAX);
            }
            product = product * self.shape[i];
            i = i + 1;
        }
        proof {
            assert(self.shape@.take(self.shape@.len() as int) =~= self.shape@);
        }
        product
    }

    /// The number of bytes the tensor's data occupies.
    pub fn byte_len(&self) -> (r: u64)
        requires
            self.data_offsets@[0] <= self.data_offsets@[1],
        ensures
            r == self.data_offsets@[1] - self.data_offsets@[0],
    {
        self.data_offsets[1] - self.data_offsets[0]
    }

    /// Checks that the tensor stores elements of `dtype`.
    pub fn expect_dtype(&self, dtype: DType) -> (r: Result<(), SafetensorsError>)
        ensures
            r == (if self.dtype == dtype {
                Ok::<(), SafetensorsError>(())
            } else {
                Err(SafetensorsError::DtypeMismatch { name: self.name, actual: self.dtype, expected: dtype })
            }),
    {
        if self.dtype == dtype {
            return Ok(());
        }
        Err(SafetensorsError::DtypeMismatch { name: self.name.clone(), actual: self.dtype, expected: dtype })
    }

    /// The number of `dtype` elements the tensor's bytes hold.
    pub fn typed_element_count(&self, dtype: DType) -> (r: Result<usize, SafetensorsError>)
        requires
            self.data_offsets@[0] <= self.data_offsets@[1],
        ensures
            self.dtype != dtype ==> r == Err::<usize, SafetensorsError>(
                SafetensorsError::DtypeMismatch { name: self.name, actual: self.dtype, expected: dtype },
            ),
            self.dtype == dtype ==> r == Ok::<usize, SafetensorsError>(
                ((self.data_offsets@[1] - self.data_offsets@[0]) as usize) / spec_size_in_bytes(dtype),
            ),
    {
        self.expect_dtype(dtype)?;
        Ok((self.byte_len() as usize) / tensor_element_byte_size(dtype))
    }
}

/// The path that `Path::join` makes of the directory `dir` and the component `name`.
/// Joining is a function of its two arguments alone.
pub uninterp spec fn joined_path(dir: &Path, name: Seq<char>) -> PathBuf;

/// `Path::join`: the result is `name` adjoined to `dir`, named by `joined_path`.
#[verifier::external_body]
pub(crate) fn path_join(dir: &Path, name: &str) -> (r: PathBuf)
    ensures
        r == joined_path(dir, name@),
{
    dir.join(name)
}

/// `consolidated.safetensors` inside a model directory.
pub fn default_consolidated_path(model_dir: &Path) -> (r: PathBuf)
    ensures
        r == joined_path(model_dir, "consolidated.safetensors"@),
{
    path_join(model_dir, "consolidated.safetensors")
}

/// `model.safetensors` inside a model directory.
pub fn default_model_safetensors_path(model_dir: &Path) -> (r: PathBuf)
    ensures
        r == joined_path(model_dir, "model.safetensors"@),
{
    path_join(model_dir, "model.safetensors")
}

// ---------------------------------------------------------------------------
// Header JSON
// ---------------------------------------------------------------------------

/// The string that starts with a quote at `start`, as the header reader decodes it:
/// each byte stands for the character of the same value, and a backslash makes
/// the byte after it literal.
pub open spec fn spec_raw_string_body(s: Seq<u8>, i: int, acc: Seq<char>) -> Result<(Seq<char>, int), JsonError>
    decreases s.len() - i,
{
    if i < 0 || i >= s.len() {
        Err(JsonError::UnterminatedString)
    } else if s[i] == 0x22 {
        Ok((acc, i + 1))
    } else if s[i] == 0x5c {
        if i + 1 >= s.len() {
            Err(JsonError::UnterminatedEscape)
        } else {
            spec_raw_string_body(s, i + 2, acc.push(s[i + 1] as char))
        }
    } else {
        spec_raw_string_body(s, i + 1, acc.push(s[i] as char))
    }
}

pub open spec fn spec_raw_string_at(s: Seq<u8>, start: int) -> Result<(Seq<char>, int), JsonError> {
    match spec_expect_byte(s, start, 0x22) {
        Err(e) => Err(e),
        Ok(_) => spec_raw_string_body(s, start + 1, seq![]),
    }
}

pub proof fn lemma_raw_string_advances(s: Seq<u8>, i: int, acc: Seq<char>)
    ensures
        spec_raw_string_body(s, i, acc) matches Ok((v, next)) ==> i < next <= s.len(),
    decreases s.len() - i,
{
    if 0 <= i < s.len() && s[i] != 0x22 {
        if s[i] == 0x5c {
            if i + 1 < s.len() {
                lemma_raw_string_advances(s, i + 2, acc.push(s[i + 1] as char));
            }
        } else {
            lemma_raw_string_advances(s, i + 1, acc.push(s[i] as char));
        }
    }
}

/// Reads the string that starts with a quote at `start`; gives its text and the
/// offset after the closing quote.
pub fn parse_json_string(input: &[u8], start: usize) -> (r: Result<(String, usize), JsonError>)
    ensures
        match spec_raw_string_at(input@, start as int) {
            Ok((v, next)) => r matches Ok((text, n)) && text@ == v && n == next,
            Err(e) => r == Err::<(String, usize), JsonError>(e),
        },
{
    let n = input.len();
    expect_json_byte(input, start, 0x22)?;
    let mut out = String::new();
    let mut i = start + 1;
    while i < input.len()
        invariant
            n == input@.len(),
            start < i <= input@.len() + 1,
            input@[start as int] == 0x22,
            spec_raw_string_body(input@, i as int, out@) == spec_raw_string_at(input@, start as int),
        decreases input@.len() - i,
    {
        let b = input[i];
        if b == 0x22 {
            return Ok((out, i + 1));
        } else if b == 0x5c {
            if i + 1 >= input.len() {
                return Err(JsonError::UnterminatedEscape);
            }
            push_char(&mut out, char_of_byte(input[i + 1]));
            i = i + 2;
        } else {
            push_char(&mut out, char_of_byte(b));
            i = i + 1;
        }
    }
    Err(JsonError::UnterminatedString)
}

/// Where the value of the first field named `field` starts: just after the colon
/// that follows the name.
pub open spec fn spec_st_field_value_start(s: Seq<u8>, field: Seq<u8>) -> Result<int, JsonError> {
    match spec_find_from(s, quoted(field), 0) {
        None => Err(JsonError::MissingField),
        Some(pos) => {
            let i = spec_skip_ws(s, pos + field.len() + 2);
            match spec_expect_byte(s, i, 0x3a) {
                Err(e) => Err(e),
                Ok(_) => Ok(i + 1),
            }
        },
    }
}

pub fn field_value_start(object: &[u8], field: &[u8]) -> (r: Result<usize, JsonError>)
    ensures
        spec_st_field_value_start(object@, field@) == crate::json::int_result(r),
        r matches Ok(i) ==> i <= object@.len(),
{
    let n = object.len();
    let needle = quoted_name(field);
    proof {
        crate::json::lemma_find_from_found(object@, needle@, 0);
    }
    let field_pos = match find_bytes_from(object, needle.as_slice(), 0) {
        Some(pos) => pos,
        None => {
            return Err(JsonError::MissingField);
        },
    };
    let i = skip_ws(object, field_pos + needle.len());
    proof {
        lemma_skip_ws_bounds(object@, (field_pos + needle@.len()) as int);
    }
    expect_json_byte(object, i, 0x3a)?;
    Ok(i + 1)
}

/// The string value of the first field named `field`.
pub open spec fn spec_string_field(s: Seq<u8>, field: Seq<u8>) -> Result<Seq<char>, JsonError> {
    match spec_st_field_value_start(s, field) {
        Err(e) => Err(e),
        Ok(start) => match spec_raw_string_at(s, spec_skip_ws(s, start)) {
            Err(e) => Err(e),
            Ok((v, _)) => Ok(v),
        },
    }
}

pub fn string_field(object: &[u8], field: &[u8]) -> (r: Result<String, JsonError>)
    ensures
        match spec_string_field(object@, field@) {
            Ok(v) => r matches Ok(text) && text@ == v,
            Err(e) => r == Err::<String, JsonError>(e),
        },
{
    let start = field_value_start(object, field)?;
    let start = skip_ws(object, start);
    let (value, _) = parse_json_string(object, start)?;
    Ok(value)
}

/// The numbers of an array of unsigned integers whose next element (or closing
/// bracket) is expected at or after `i`, with `acc` read so far.
pub open spec fn spec_u64_array_from(s: Seq<u8>, i: int, acc: Seq<u64>) -> Result<Seq<u64>, SafetensorsError>
    decreases s.len() - i,
{
    let j = spec_skip_ws(s, i);
    if j < 0 || j >= s.len() {
        Err(SafetensorsError::UnterminatedArray)
    } else if s[j] == 0x5d {
        Ok(acc)
    } else {
        let e = crate::text::spec_digit_run_end(s, j);
        if e == j {
            Err(SafetensorsError::ExpectedNumber)
        } else {
            match spec_parse_u64(s, j, e) {
                None => Err(SafetensorsError::InvalidNumber),
                Some(v) => {
                    let k = spec_skip_ws(s, e);
                    if 0 <= k < s.len() && s[k] == 0x2c {
                        proof {
                            crate::text::lemma_digit_run_bounds(s, j);
                            lemma_skip_ws_bounds(s, i);
                            lemma_skip_ws_bounds(s, e);
                        }
                        spec_u64_array_from(s, k + 1, acc.push(v))
                    } else if 0 <= k < s.len() && s[k] == 0x5d {
                        Ok(acc.push(v))
                    } else {
                        Err(SafetensorsError::ExpectedCommaOrBracket)
                    }
                },
            }
        }
    }
}

/// The numbers of the first array field named `field`.
pub open spec fn spec_u64_array_field(s: Seq<u8>, field: Seq<u8>) -> Result<Seq<u64>, SafetensorsError> {
    match spec_st_field_value_start(s, field) {
        Err(e) => Err(SafetensorsError::Json(e)),
        Ok(start) => {
            let i = spec_skip_ws(s, start);
            match spec_expect_byte(s, i, 0x5b) {
                Err(e) => Err(SafetensorsError::Json(e)),
                Ok(_) => spec_u64_array_from(s, i + 1, seq![]),
            }
        },
    }
}

pub fn u64_array_field(object: &[u8], field: &[u8]) -> (r: Result<Vec<u64>, SafetensorsError>)
    ensures
        match spec_u64_array_field(object@, field@) {
            Ok(v) => r matches Ok(values) && values@ == v,
            Err(e) => r == Err::<Vec<u64>, SafetensorsError>(e),
        },
{
    let n = object.len();
    let start = match field_value_start(object, field) {
        Ok(s) => s,
        Err(e) => {
            return Err(SafetensorsError::Json(e));
        },
    };
    let mut i = skip_ws(object, start);
    proof {
        lemma_skip_ws_bounds(object@, start as int);
    }
    match expect_json_byte(object, i, 0x5b) {
        Ok(()) => {},
        Err(e) => {
            return Err(SafetensorsError::Json(e));
        },
    }
    i = i + 1;
    let mut values: Vec<u64> = Vec::new();
    loop
        invariant
            n == object@.len(),
            i <= object@.len(),
            spec_u64_array_from(object@, i as int, values@) == spec_u64_array_field(object@, field@),
        decreases object@.len() - i,
    {
        let ghost i0 = i as int;
        proof {
            lemma_skip_ws_bounds(object@, i as int);
        }
        i = skip_ws(object, i);
        if i >= object.len() {
            return Err(SafetensorsError::UnterminatedArray);
        }
        if object[i] == 0x5d {
            return Ok(values);
        }
        let number_start = i;
        proof {
            crate::text::lemma_digit_run_bounds(object@, i as int);
        }
        while i < object.len() && ascii_digit(object[i])
            invariant
                n == object@.len(),
                number_start <= i <= object@.len(),
                crate::text::spec_digit_run_end(object@, i as int) == crate::text::spec_digit_run_end(
                    object@,
                    number_start as int,
                ),
            decreases object@.len() - i,
        {
            i = i + 1;
        }
        if i == number_start {
            return Err(SafetensorsError::ExpectedNumber);
        }
        let value = match parse_u64(object, number_start, i) {
            Some(v) => v,
            None => {
                return Err(SafetensorsError::InvalidNumber);
            },
        };
        values.push(value);
        proof {
            lemma_skip_ws_bounds(object@, i as int);
        }
        i = skip_ws(object, i);
        if i < object.len() && object[i] == 0x2c {
            i = i + 1;
        } else if i < object.len() && object[i] == 0x5d {
            return Ok(values);
        } else {
            return Err(SafetensorsError::ExpectedCommaOrBracket);
        }
    }
}

/// The numbers of the first array field named `field`, each of which must fit `usize`.
pub open spec fn spec_usize_array_field(s: Seq<u8>, field: Seq<u8>) -> Result<Seq<usize>, SafetensorsError> {
    match spec_u64_array_field(s, field) {
        Err(e) => Err(e),
        Ok(v) => if forall|k: int| 0 <= k < v.len() ==> v[k] <= usize::MAX {
            Ok(v.map_values(|x: u64| x as usize))
        } else {
            Err(SafetensorsError::ValueDoesNotFitUsize)
        },
    }
}

pub fn usize_array_field(object: &[u8], field: &[u8]) -> (r: Result<Vec<usize>, SafetensorsError>)
    ensures
        match spec_usize_array_field(object@, field@) {
            Ok(v) => r matches Ok(values) && values@ == v,
            Err(e) => r == Err::<Vec<usize>, SafetensorsError>(e),
        },
{
    let values = u64_array_field(object, field)?;
    let mut out: Vec<usize> = Vec::new();
    let mut i: usize = 0;
    while i < values.len()
        invariant
            i <= values@.len(),
            spec_u64_array_field(object@, field@) == Ok::<Seq<u64>, SafetensorsError>(values@),
            out@ == values@.take(i as int).map_values(|x: u64| x as usize),
            forall|k: int| 0 <= k < i ==> values@[k] <= usize::MAX,
        decreases values@.len() - i,
    {
        let v = values[i];
        if v > usize::MAX as u64 {
            proof {
                assert(!(forall|k: int| 0 <= k < values@.len() ==> values@[k] <= usize::MAX)) by {
                    assert(values@[i as int] > usize::MAX);
                }
            }
            return Err(SafetensorsError::ValueDoesNotFitUsize);
        }
        out.push(v as usize);
        i = i + 1;
        proof {
            assert(out@ =~= values@.take(i as int).map_values(|x: u64| x as usize));
        }
    }
    proof {
        assert(values@.take(values@.len() as int) =~= values@);
    }
    Ok(out)
}

/// The tensor that a header entry named `name` with object text `object` describes.
pub open spec fn spec_parse_tensor_info(name: Seq<char>, object: Seq<u8>) -> Result<SpecTensorInfo, SafetensorsError> {
    match spec_string_field(object, vstd::utf8::encode_utf8("dtype"@)) {
        Err(e) => Err(SafetensorsError::Json(e)),
        Ok(dtype_name) => match spec_from_safetensors_name(dtype_name) {
            None => Err(SafetensorsError::UnsupportedDtype),
            Some(dtype) => match spec_usize_array_field(object, vstd::utf8::encode_utf8("shape"@)) {
                Err(e) => Err(e),
                Ok(shape) => match spec_u64_array_field(object, vstd::utf8::encode_utf8("data_offsets"@)) {
                    Err(e) => Err(e),
                    Ok(offsets) => if offsets.len() != 2 {
                        Err(SafetensorsError::WrongOffsetCount { count: offsets.len() as usize })
                    } else {
                        Ok(SpecTensorInfo { name, dtype, shape, data_offsets: (offsets[0], offsets[1]) })
                    },
                },
            },
        },
    }
}

pub fn parse_tensor_info(name: String, object: &[u8]) -> (r: Result<TensorInfo, SafetensorsError>)
    ensures
        match spec_parse_tensor_info(name@, object@) {
            Ok(t) => r matches Ok(rt) && rt@ == t,
            Err(e) => r == Err::<TensorInfo, SafetensorsError>(e),
        },
{
    let dtype_name = match string_field(object, "dtype".as_bytes()) {
        Ok(v) => v,
        Err(e) => {
            return Err(SafetensorsError::Json(e));
        },
    };
    let dtype = match DType::from_safetensors_name(dtype_name.as_str()) {
        Some(d) => d,
        None => {
            return Err(SafetensorsError::UnsupportedDtype);
        },
    };
    let shape = usize_array_field(object, "shape".as_bytes())?;
    let offsets = u64_array_field(object, "data_offsets".as_bytes())?;
    if offsets.len() != 2 {
        return Err(SafetensorsError::WrongOffsetCount { count: offsets.len() });
    }
    let r = TensorInfo { name, dtype, shape, data_offsets: [offsets[0], offsets[1]] };
    proof {
        assert(r.data_offsets@[0] == offsets@[0] && r.data_offsets@[1] == offsets@[1]);
    }
    Ok(r)
}

/// The offset of the brace that closes the object starting at `i`, scanning with the
/// given string/escape state and nesting depth.
pub open spec fn spec_brace_from(s: Seq<u8>, i: int, depth: int, in_string: bool, escaped: bool) -> Result<int, JsonError>
    decreases s.len() - i,
{
    if i < 0 || i >= s.len() {
        Err(JsonError::UnterminatedObject)
    } else if in_string {
        if escaped {
            spec_brace_from(s, i + 1, depth, true, false)
        } else if s[i] == 0x5c {
            spec_brace_from(s, i + 1, depth, true, true)
        } else if s[i] == 0x22 {
            spec_brace_from(s, i + 1, depth, false, false)
        } else {
            spec_brace_from(s, i + 1, depth, true, false)
        }
    } else if s[i] == 0x22 {
        spec_brace_from(s, i + 1, depth, true, false)
    } else if s[i] == 0x7b {
        spec_brace_from(s, i + 1, depth + 1, false, false)
    } else if s[i] == 0x7d {
        if depth - 1 == 0 {
            Ok(i)
        } else {
            spec_brace_from(s, i + 1, depth - 1, false, false)
        }
    } else {
        spec_brace_from(s, i + 1, depth, false, false)
    }
}

pub open spec fn spec_matching_brace(s: Seq<u8>, start: int) -> Result<int, JsonError> {
    match spec_expect_byte(s, start, 0x7b) {
        Err(e) => Err(e),
        Ok(_) => spec_brace_from(s, start, 0, false, false),
    }
}

/// The offset of the brace that closes the object opening at `start`; strings and
/// their escapes are skipped.
pub fn find_matching_brace(input: &[u8], start: usize) -> (r: Result<usize, JsonError>)
    ensures
        spec_matching_brace(input@, start as int) == crate::json::int_result(r),
        r matches Ok(e) ==> start < e < input@.len() && input@[e as int] == 0x7d,
{
    expect_json_byte(input, start, 0x7b)?;
    let mut depth: usize = 0;
    let mut in_string = false;
    let mut escaped = false;
    let mut i = start;
    while i < input.len()
        invariant
            start <= i,
            input@[start as int] == 0x7b,
            i == start ==> depth == 0 && !in_string && !escaped,
            i > start ==> depth >= 1,
            !in_string ==> !escaped,
            depth <= i - start,
            spec_brace_from(input@, i as int, depth as int, in_string, escaped) == spec_brace_from(
                input@,
                start as int,
                0,
                false,
                false,
            ),
        decreases input@.len() - i,
    {
        let byte = input[i];
        if in_string {
            if escaped {
                escaped = false;
            } else if byte == 0x5c {
                escaped = true;
            } else if byte == 0x22 {
                in_string = false;
            }
        } else if byte == 0x22 {
            in_string = true;
        } else if byte == 0x7b {
            depth = depth + 1;
        } else if byte == 0x7d {
            depth = depth - 1;
            if depth == 0 {
                return Ok(i);
            }
        }
        i = i + 1;
    }
    Err(JsonError::UnterminatedObject)
}

/// The tensors listed by the header entries from `i` on, with `acc` read so far;
/// the `__metadata__` entry is skipped.
pub open spec fn spec_header_from(s: Seq<u8>, i: int, acc: Seq<SpecTensorInfo>) -> Result<
    Seq<SpecTensorInfo>,
    SafetensorsError,
>
    decreases s.len() - i,
{
    let j = spec_skip_ws(s, i);
    if j < 0 || j >= s.len() {
        Err(SafetensorsError::UnterminatedHeader)
    } else if s[j] == 0x7d {
        Ok(acc)
    } else {
        match spec_raw_string_at(s, j) {
            Err(e) => Err(SafetensorsError::Json(e)),
            Ok((key, next)) => {
                let k = spec_skip_ws(s, next);
                match spec_expect_byte(s, k, 0x3a) {
                    Err(e) => Err(SafetensorsError::Json(e)),
                    Ok(_) => {
                        let m = spec_skip_ws(s, k + 1);
                        if m >= s.len() || s[m] != 0x7b {
                            Err(SafetensorsError::FieldNotObject)
                        } else {
                            match spec_matching_brace(s, m) {
                                Err(e) => Err(SafetensorsError::Json(e)),
                                Ok(object_end) => {
                                    let after = spec_skip_ws(s, object_end + 1);
                                    let next_i = if 0 <= after < s.len() && s[after] == 0x2c {
                                        after + 1
                                    } else {
                                        after
                                    };
                                    proof {
                                        lemma_skip_ws_bounds(s, i);
                                        lemma_raw_string_advances(s, j + 1, seq![]);
                                        lemma_skip_ws_bounds(s, next);
                                        lemma_skip_ws_bounds(s, k + 1);
                                        lemma_brace_from_bound(s, m, 0, false, false);
                                        lemma_skip_ws_bounds(s, object_end + 1);
                                    }
                                    if key == "__metadata__"@ {
                                        spec_header_from(s, next_i, acc)
                                    } else {
                                        match spec_parse_tensor_info(key, s.subrange(m, object_end + 1)) {
                                            Err(e) => Err(e),
                                            Ok(t) => spec_header_from(s, next_i, acc.push(t)),
                                        }
                                    }
                                },
                            }
                        }
                    },
                }
            },
        }
    }
}

pub proof fn lemma_brace_from_bound(s: Seq<u8>, i: int, depth: int, in_string: bool, escaped: bool)
    ensures
        spec_brace_from(s, i, depth, in_string, escaped) matches Ok(e) ==> i <= e < s.len(),
    decreases s.len() - i,
{
    if 0 <= i < s.len() {
        if in_string {
            if escaped {
                lemma_brace_from_bound(s, i + 1, depth, true, false);
            } else if s[i] == 0x5c {
                lemma_brace_from_bound(s, i + 1, depth, true, true);
            } else if s[i] == 0x22 {
                lemma_brace_from_bound(s, i + 1, depth, false, false);
            } else {
                lemma_brace_from_bound(s, i + 1, depth, true, false);
            }
        } else if s[i] == 0x22 {
            lemma_brace_from_bound(s, i + 1, depth, true, false);
        } else if s[i] == 0x7b {
            lemma_brace_from_bound(s, i + 1, depth + 1, false, false);
        } else if s[i] == 0x7d {
            if depth - 1 != 0 {
                lemma_brace_from_bound(s, i + 1, depth - 1, false, false);
            }
        } else {
            lemma_brace_from_bound(s, i + 1, depth, false, false);
        }
    }
}

/// The tensors a safetensors header lists, in order.
pub open spec fn spec_parse_header(s: Seq<u8>) -> Result<Seq<SpecTensorInfo>, SafetensorsError> {
    let i = spec_skip_ws(s, 0);
    match spec_expect_byte(s, i, 0x7b) {
        Err(e) => Err(SafetensorsError::Json(e)),
        Ok(_) => spec_header_from(s, i + 1, seq![]),
    }
}

/// Reads the tensor list of a safetensors header (the JSON text after the length prefix).
pub fn parse_header(header: &str) -> (r: Result<Vec<TensorInfo>, SafetensorsError>)
    ensures
        match spec_parse_header(vstd::utf8::encode_utf8(header@)) {
            Ok(v) => r matches Ok(tensors) && tensors@.map_values(|t: TensorInfo| t@) == v,
            Err(e) => r matches Err(re) && re == e,
        },
{
    let bytes = header.as_bytes();
    let n = bytes.len();
    let mut tensors: Vec<TensorInfo> = Vec::new();
    let mut i = skip_ws(bytes, 0);
    proof {
        lemma_skip_ws_bounds(bytes@, 0);
    }
    match expect_json_byte(bytes, i, 0x7b) {
        Ok(()) => {},
        Err(e) => {
            return Err(SafetensorsError::Json(e));
        },
    }
    i = i + 1;
    proof {
        assert(tensors@.map_values(|t: TensorInfo| t@) =~= Seq::<SpecTensorInfo>::empty());
    }
    loop
        invariant
            n == bytes@.len(),
            bytes@ == vstd::utf8::encode_utf8(header@),
            i <= bytes@.len(),
            spec_header_from(bytes@, i as int, tensors@.map_values(|t: TensorInfo| t@)) == spec_parse_header(
                bytes@,
            ),
        decreases bytes@.len() - i,
    {
        let ghost i0 = i as int;
        proof {
            lemma_skip_ws_bounds(bytes@, i as int);
        }
        i = skip_ws(bytes, i);
        if i >= bytes.len() {
            return Err(SafetensorsError::UnterminatedHeader);
        }
        if bytes[i] == 0x7d {
            return Ok(tensors);
        }
        let (key, next) = match parse_json_string(bytes, i) {
            Ok(p) => p,
            Err(e) => {
                return Err(SafetensorsError::Json(e));
            },
        };
        proof {
            lemma_raw_string_advances(bytes@, i + 1, seq![]);
            lemma_skip_ws_bounds(bytes@, next as int);
        }
        i = skip_ws(bytes, next);
        match expect_json_byte(bytes, i, 0x3a) {
            Ok(()) => {},
            Err(e) => {
                return Err(SafetensorsError::Json(e));
            },
        }
        proof {
            lemma_skip_ws_bounds(bytes@, i + 1);
        }
        i = skip_ws(bytes, i + 1);
        if i >= bytes.len() || bytes[i] != 0x7b {
            return Err(SafetensorsError::FieldNotObject);
        }
        let object_end = match find_matching_brace(bytes, i) {
            Ok(e) => e,
            Err(e) => {
                return Err(SafetensorsError::Json(e));
            },
        };
        if !chars_eq(key.as_str(), "__metadata__") {
            let object = &bytes[i..object_end + 1];
            let info = parse_tensor_info(key, object)?;
            let ghost old_tensors = tensors@;
            tensors.push(info);
            proof {
                assert(tensors@.map_values(|t: TensorInfo| t@) =~= old_tensors.map_values(
                    |t: TensorInfo| t@,
                ).push(info@));
            }
        }
        proof {
            lemma_skip_ws_bounds(bytes@, object_end + 1);
        }
        i = skip_ws(bytes, object_end + 1);
        if i < bytes.len() && bytes[i] == 0x2c {
            i = i + 1;
        }
    }
}


// ---------------------------------------------------------------------------
// Shard index
// ---------------------------------------------------------------------------

/// The `(tensor, file)` pairs of a `weight_map` object whose next entry (or closing
/// brace) is expected at or after `i`, with `acc` read so far.
pub open spec fn spec_weight_map_from(s: Seq<u8>, i: int, acc: Seq<(Seq<char>, Seq<char>)>) -> Result<
    Seq<(Seq<char>, Seq<char>)>,
    SafetensorsError,
>
    decreases s.len() - i,
{
    let j = spec_skip_ws(s, i);
    if j < 0 || j >= s.len() {
        Err(SafetensorsError::UnterminatedWeightMap)
    } else if s[j] == 0x7d {
        Ok(acc)
    } else {
        match spec_raw_string_at(s, j) {
            Err(e) => Err(SafetensorsError::Json(e)),
            Ok((tensor_name, next)) => {
                let k = spec_skip_ws(s, next);
                match spec_expect_byte(s, k, 0x3a) {
                    Err(e) => Err(SafetensorsError::Json(e)),
                    Ok(_) => match spec_raw_string_at(s, spec_skip_ws(s, k + 1)) {
                        Err(e) => Err(SafetensorsError::Json(e)),
                        Ok((file_name, next2)) => {
                            let after = spec_skip_ws(s, next2);
                            let acc2 = acc.push((tensor_name, file_name));
                            if 0 <= after < s.len() && s[after] == 0x2c {
                                proof {
                                    lemma_skip_ws_bounds(s, i);
                                    lemma_raw_string_advances(s, j + 1, seq![]);
                                    lemma_skip_ws_bounds(s, next);
                                    lemma_skip_ws_bounds(s, k + 1);
                                    lemma_raw_string_advances(s, spec_skip_ws(s, k + 1) + 1, seq![]);
                                    lemma_skip_ws_bounds(s, next2);
                                }
                                spec_weight_map_from(s, after + 1, acc2)
                            } else if 0 <= after < s.len() && s[after] == 0x7d {
                                Ok(acc2)
                            } else {
                                Err(SafetensorsError::ExpectedCommaOrBrace)
                            }
                        },
                    },
                }
            },
        }
    }
}

/// The `(tensor, file)` pairs of the `weight_map` object of a shard index, in the
/// order they are written.
pub open spec fn spec_parse_weight_map(s: Seq<u8>) -> Result<Seq<(Seq<char>, Seq<char>)>, SafetensorsError> {
    match spec_st_field_value_start(s, vstd::utf8::encode_utf8("weight_map"@)) {
        Err(e) => Err(SafetensorsError::Json(e)),
        Ok(start) => {
            let i = spec_skip_ws(s, start);
            match spec_expect_byte(s, i, 0x7b) {
                Err(e) => Err(SafetensorsError::Json(e)),
                Ok(_) => spec_weight_map_from(s, i + 1, seq![]),
            }
        },
    }
}

/// A `(tensor, file)` pair seen through the views of its strings.
pub open spec fn pair_view(p: (String, String)) -> (Seq<char>, Seq<char>) {
    (p.0@, p.1@)
}

/// Reads the `weight_map` of a `model.safetensors.index.json` document: which shard
/// file holds each tensor.
pub fn parse_weight_map(index_json: &str) -> (r: Result<Vec<(String, String)>, SafetensorsError>)
    ensures
        match spec_parse_weight_map(vstd::utf8::encode_utf8(index_json@)) {
            Ok(v) => r matches Ok(entries) && entries@.map_values(|p: (String, String)| pair_view(p)) == v,
            Err(e) => r matches Err(re) && re == e,
        },
{
    let bytes = index_json.as_bytes();
    let n = bytes.len();
    let start = match field_value_start(bytes, "weight_map".as_bytes()) {
        Ok(s) => s,
        Err(e) => {
            return Err(SafetensorsError::Json(e));
        },
    };
    let mut i = skip_ws(bytes, start);
    proof {
        lemma_skip_ws_bounds(bytes@, start as int);
    }
    match expect_json_byte(bytes, i, 0x7b) {
        Ok(()) => {},
        Err(e) => {
            return Err(SafetensorsError::Json(e));
        },
    }
    i = i + 1;
    let mut entries: Vec<(String, String)> = Vec::new();
    proof {
        assert(entries@.map_values(|p: (String, String)| pair_view(p)) =~= Seq::<(Seq<char>, Seq<char>)>::empty());
    }
    loop
        invariant
            n == bytes@.len(),
            bytes@ == vstd::utf8::encode_utf8(index_json@),
            i <= bytes@.len(),
            spec_weight_map_from(bytes@, i as int, entries@.map_values(|p: (String, String)| pair_view(p)))
                == spec_parse_weight_map(bytes@),
        decreases bytes@.len() - i,
    {
        proof {
            lemma_skip_ws_bounds(bytes@, i as int);
        }
        i = skip_ws(bytes, i);
        if i >= bytes.len() {
            return Err(SafetensorsError::UnterminatedWeightMap);
        }
        if bytes[i] == 0x7d {
            return Ok(entries);
        }
        let (tensor_name, next) = match parse_json_string(bytes, i) {
            Ok(p) => p,
            Err(e) => {
                return Err(SafetensorsError::Json(e));
            },
        };
        proof {
            lemma_raw_string_advances(bytes@, i + 1, seq![]);
            lemma_skip_ws_bounds(bytes@, next as int);
        }
        i = skip_ws(bytes, next);
        match expect_json_byte(bytes, i, 0x3a) {
            Ok(()) => {},
            Err(e) => {
                return Err(SafetensorsError::Json(e));
            },
        }
        proof {
            lemma_skip_ws_bounds(bytes@, i + 1);
        }
        i = skip_ws(bytes, i + 1);
        let (file_name, next2) = match parse_json_string(bytes, i) {
            Ok(p) => p,
            Err(e) => {
                return Err(SafetensorsError::Json(e));
            },
        };
        proof {
            lemma_raw_string_advances(bytes@, i + 1, seq![]);
            lemma_skip_ws_bounds(bytes@, next2 as int);
        }
        let ghost old_entries = entries@;
        entries.push((tensor_name, file_name));
        proof {
            assert(entries@.map_values(|p: (String, String)| pair_view(p)) =~= old_entries.map_values(
                |p: (String, String)| pair_view(p),
            ).push(pair_view(entries@.last())));
        }
        i = skip_ws(bytes, next2);
        if i < bytes.len() && bytes[i] == 0x2c {
            i = i + 1;
        } else if i < bytes.len() && bytes[i] == 0x7d {
            return Ok(entries);
        } else {
            return Err(SafetensorsError::ExpectedCommaOrBrace);
        }
    }
}

// ---------------------------------------------------------------------------
// Tensor names
// ---------------------------------------------------------------------------

/// The Hugging Face name of a per-layer weight, given the part of the internal name
/// after `layers.<layer>.`.
pub open spec fn spec_hf_layer_suffix(suffix: Seq<char>) -> Option<Seq<char>> {
    if suffix == "attention_norm.weight"@ {
        Some("input_layernorm.weight"@)
    } else if suffix == "ffn_norm.weight"@ {
        Some("post_attention_layernorm.weight"@)
    } else if suffix == "attention.wq.weight"@ {
        Some("self_attn.q_proj.weight"@)
    } else if suffix == "attention.wk.weight"@ {
        Some("self_attn.k_proj.weight"@)
    } else if suffix == "attention.wv.weight"@ {
        Some("self_attn.v_proj.weight"@)
    } else if suffix == "attention.wo.weight"@ {
        Some("self_attn.o_proj.weight"@)
    } else if suffix == "attention.q_norm.weight"@ {
        Some("self_attn.q_norm.weight"@)
    } else if suffix == "attention.k_norm.weight"@ {
        Some("self_attn.k_norm.weight"@)
    } else if suffix == "feed_forward.w1.weight"@ {
        Some("mlp.gate_proj.weight"@)
    } else if suffix == "feed_forward.w2.weight"@ {
        Some("mlp.down_proj.weight"@)
    } else if suffix == "feed_forward.w3.weight"@ {
        Some("mlp.up_proj.weight"@)
    } else {
        None
    }
}

/// The offset of the first `c` in `s`.
pub open spec fn first_index_of(s: Seq<char>, c: char) -> Option<int> {
    if exists|k: int| 0 <= k < s.len() && s[k] == c {
        Some(choose|k: int| 0 <= k < s.len() && s[k] == c && forall|j: int| 0 <= j < k ==> s[j] != c)
    } else {
        None
    }
}

/// The names under which other checkpoints store the weight that this library calls
/// `name`, most likely first: the Mistral-style internal names map to the three Hugging
/// Face layouts (multimodal `language_model.model.`, plain `model.`, and Qwen's
/// `model.language_model.`).
pub open spec fn spec_model_tensor_aliases(name: Seq<char>) -> Seq<Seq<char>> {
    if name == "tok_embeddings.weight"@ {
        seq![
            "language_model.model.embed_tokens.weight"@,
            "model.embed_tokens.weight"@,
            "model.language_model.embed_tokens.weight"@,
        ]
    } else if name == "norm.weight"@ {
        seq!["language_model.model.norm.weight"@, "model.norm.weight"@, "model.language_model.norm.weight"@]
    } else if name == "output.weight"@ {
        seq!["language_model.lm_head.weight"@, "lm_head.weight"@]
    } else if !has_prefix_at(name, 0, "layers."@) {
        seq![]
    } else {
        let rest = name.skip("layers."@.len() as int);
        match first_index_of(rest, '.') {
            None => seq![],
            Some(p) => {
                let layer = rest.take(p);
                match spec_hf_layer_suffix(rest.skip(p + 1)) {
                    None => seq![],
                    Some(hf) => seq![
                        "language_model.model.layers."@ + layer + "."@ + hf,
                        "model.layers."@ + layer + "."@ + hf,
                        "model.language_model.layers."@ + layer + "."@ + hf,
                    ],
                }
            },
        }
    }
}

/// The Hugging Face name of a per-layer weight suffix, as a string literal.
fn hf_layer_suffix(suffix: &str) -> (r: Option<&'static str>)
    ensures
        match spec_hf_layer_suffix(suffix@) {
            None => r is None,
            Some(h) => r matches Some(t) && t@ == h,
        },
{
    if chars_eq(suffix, "attention_norm.weight") {
        Some("input_layernorm.weight")
    } else if chars_eq(suffix, "ffn_norm.weight") {
        Some("post_attention_layernorm.weight")
    } else if chars_eq(suffix, "attention.wq.weight") {
        Some("self_attn.q_proj.weight")
    } else if chars_eq(suffix, "attention.wk.weight") {
        Some("self_attn.k_proj.weight")
    } else if chars_eq(suffix, "attention.wv.weight") {
        Some("self_attn.v_proj.weight")
    } else if chars_eq(suffix, "attention.wo.weight") {
        Some("self_attn.o_proj.weight")
    } else if chars_eq(suffix, "attention.q_norm.weight") {
        Some("self_attn.q_norm.weight")
    } else if chars_eq(suffix, "attention.k_norm.weight") {
        Some("self_attn.k_norm.weight")
    } else if chars_eq(suffix, "feed_forward.w1.weight") {
        Some("mlp.gate_proj.weight")
    } else if chars_eq(suffix, "feed_forward.w2.weight") {
        Some("mlp.down_proj.weight")
    } else if chars_eq(suffix, "feed_forward.w3.weight") {
        Some("mlp.up_proj.weight")
    } else {
        None
    }
}

/// `prefix + layer + "." + hf` as a new string.
fn layer_alias(prefix: &str, layer: &str, hf: &str) -> (r: String)
    ensures
        r@ == prefix@ + layer@ + "."@ + hf@,
{
    let mut out = string_of(prefix);
    push_str(&mut out, layer);
    push_str(&mut out, ".");
    push_str(&mut out, hf);
    out
}

/// Every alias of `name`, most likely first; empty when the name has none.
pub fn model_tensor_aliases(name: &str) -> (r: Vec<String>)
    ensures
        r@.map_values(|a: String| a@) == spec_model_tensor_aliases(name@),
{
    let mut aliases: Vec<String> = Vec::new();
    if chars_eq(name, "tok_embeddings.weight") {
        aliases.push(string_of("language_model.model.embed_tokens.weight"));
        aliases.push(string_of("model.embed_tokens.weight"));
        aliases.push(string_of("model.language_model.embed_tokens.weight"));
        proof {
            assert(aliases@.map_values(|a: String| a@) =~= spec_model_tensor_aliases(name@));
        }
        return aliases;
    }
    if chars_eq(name, "norm.weight") {
        aliases.push(string_of("language_model.model.norm.weight"));
        aliases.push(string_of("model.norm.weight"));
        aliases.push(string_of("model.language_model.norm.weight"));
        proof {
            assert(aliases@.map_values(|a: String| a@) =~= spec_model_tensor_aliases(name@));
        }
        return aliases;
    }
    if chars_eq(name, "output.weight") {
        aliases.push(string_of("language_model.lm_head.weight"));
        aliases.push(string_of("lm_head.weight"));
        proof {
            assert(aliases@.map_values(|a: String| a@) =~= spec_model_tensor_aliases(name@));
        }
        return aliases;
    }
    proof {
        assert(aliases@.map_values(|a: String| a@) =~= Seq::<Seq<char>>::empty());
    }
    let chars = chars_of(name);
    let prefix = chars_of("layers.");
    if !chars_match_at(chars.as_slice(), 0, prefix.as_slice()) {
        return aliases;
    }
    let rest_start = prefix.len();
    let ghost rest = name@.skip(rest_start as int);
    let mut p = rest_start;
    while p < chars.len() && chars[p] != '.'
        invariant
            rest_start <= p <= chars@.len(),
            chars@ == name@,
            rest == chars@.skip(rest_start as int),
            forall|j: int| rest_start <= j < p ==> chars@[j] != '.',
        decreases chars@.len() - p,
    {
        p = p + 1;
    }
    if p >= chars.len() {
        proof {
            assert(!exists|k: int| 0 <= k < rest.len() && rest[k] == '.') by {
                assert forall|k: int| 0 <= k < rest.len() implies rest[k] != '.' by {
                    assert(rest[k] == chars@[rest_start + k]);
                }
            }
        }
        return aliases;
    }
    proof {
        let q = (p - rest_start) as int;
        assert(rest[q] == '.');
        let c = choose|k: int| 0 <= k < rest.len() && rest[k] == '.' && forall|j: int| 0 <= j < k ==> rest[j] != '.';
        assert(c == q) by {
            if c < q {
                assert(rest[c] == chars@[rest_start + c]);
            }
            if q < c {
                assert(rest[q] != '.');
            }
        }
    }
    let layer = string_from_chars(&chars[rest_start..p]);
    let suffix = string_from_chars(&chars[p + 1..chars.len()]);
    proof {
        let q = (p - rest_start) as int;
        assert(layer@ =~= rest.take(q));
        assert(suffix@ =~= rest.skip(q + 1));
    }
    let hf = match hf_layer_suffix(suffix.as_str()) {
        Some(h) => h,
        None => {
            return aliases;
        },
    };
    aliases.push(layer_alias("language_model.model.layers.", layer.as_str(), hf));
    aliases.push(layer_alias("model.layers.", layer.as_str(), hf));
    aliases.push(layer_alias("model.language_model.layers.", layer.as_str(), hf));
    proof {
        assert(aliases@.map_values(|a: String| a@) =~= spec_model_tensor_aliases(name@));
    }
    aliases
}

/// The most likely alias of `name`, if it has one.
pub fn model_tensor_alias(name: &str) -> (r: Option<String>)
    ensures
        spec_model_tensor_aliases(name@).len() == 0 ==> r is None,
        spec_model_tensor_aliases(name@).len() > 0 ==> (r matches Some(a) && a@ == spec_model_tensor_aliases(name@)[0]),
{
    let mut aliases = model_tensor_aliases(name);
    if aliases.len() == 0 {
        return None;
    }
    proof {
        assert(aliases@.map_values(|a: String| a@)[0] == aliases@[0]@);
    }
    Some(aliases.swap_remove(0))
}

} // verus!
