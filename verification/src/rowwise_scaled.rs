//! Naming and shape checks for row-wise scaled int8 matrices and the files an int8
//! export archive keeps them in.
use vstd::prelude::*;

use crate::profile_json::{decimal, digit_char};
use crate::safetensors::path_join;
use crate::text::push_char;
use std::path::{Path, PathBuf};

verus! {

/// Why the parts of a row-wise scaled int8 matrix do not fit its shape.
#[derive(Debug, Clone, Copy, PartialEq, Eq, Structural)]
pub enum RowwiseScaledError {
    /// The values do not number `rows * cols`.
    ValuesLenMismatch { len: usize, rows: usize, cols: usize },
    /// The scales do not number `rows`.
    ScalesLenMismatch { len: usize, rows: usize },
}

/// True for ASCII letters and digits.
pub open spec fn is_ascii_alphanumeric_char(c: char) -> bool {
    ('0' <= c <= '9') || ('A' <= c <= 'Z') || ('a' <= c <= 'z')
}

/// A tensor name with every character but ASCII letters and digits replaced by `_`.
pub open spec fn spec_export_file_stem(name: Seq<char>) -> Seq<char> {
    name.map_values(|c: char| if is_ascii_alphanumeric_char(c) { c } else { '_' })
}

/// The decimal digits of `n`, with zeros in front up to `width` digits.
pub open spec fn padded_decimal(n: nat, width: nat) -> Seq<char> {
    let digits = decimal(n);
    if digits.len() < width {
        Seq::new((width - digits.len()) as nat, |i: int| '0') + digits
    } else {
        digits
    }
}

/// The common start of the two file names of an exported tensor: its index in four
/// or more digits, `_`, and its name's stem.
pub open spec fn spec_export_file_prefix(index: usize, name: Seq<char>) -> Seq<char> {
    padded_decimal(index as nat, 4) + seq!['_'] + spec_export_file_stem(name)
}

fn ascii_alphanumeric_char(c: char) -> (r: bool)
    ensures
        r == is_ascii_alphanumeric_char(c),
{
    ('0' <= c && c <= '9') || ('A' <= c && c <= 'Z') || ('a' <= c && c <= 'z')
}

/// `name` with every character but ASCII letters and digits replaced by `_`.
pub fn rowwise_scaled_i8_export_file_stem(name: &str) -> (r: String)
    ensures
        r@ == spec_export_file_stem(name@),
{
    let chars = crate::text::chars_of(name);
    let mut out = String::new();
    let mut i: usize = 0;
    while i < chars.len()
        invariant
            chars@ == name@,
            i <= chars@.len(),
            out@ == spec_export_file_stem(name@).take(i as int),
        decreases chars@.len() - i,
    {
        let c = chars[i];
        let kept = if ascii_alphanumeric_char(c) {
            c
        } else {
            '_'
        };
        push_char(&mut out, kept);
        proof {
            assert(spec_export_file_stem(name@).take(i + 1) =~= spec_export_file_stem(name@).take(i as int).push(kept));
        }
        i = i + 1;
    }
    proof {
        assert(spec_export_file_stem(name@).take(chars@.len() as int) =~= spec_export_file_stem(name@));
    }
    out
}

/// The number of decimal digits of `n`.
proof fn lemma_decimal_len(n: nat)
    ensures
        decimal(n).len() >= 1,
        n < 10 ==> decimal(n).len() == 1,
        10 <= n < 100 ==> decimal(n).len() == 2,
        100 <= n < 1000 ==> decimal(n).len() == 3,
        1000 <= n ==> decimal(n).len() >= 4,
    decreases n,
{
    if n >= 10 {
        lemma_decimal_len(n / 10);
    }
}

/// Writes `value` in decimal with zeros in front up to four digits.
fn push_padded_index(out: &mut String, value: usize)
    ensures
        final(out)@ == old(out)@ + padded_decimal(value as nat, 4),
{
    proof {
        lemma_decimal_len(value as nat);
    }
    let ghost digits = decimal(value as nat);
    let zeros: usize = if value < 10 {
        3
    } else if value < 100 {
        2
    } else if value < 1000 {
        1
    } else {
        0
    };
    let mut k: usize = 0;
    while k < zeros
        invariant
            k <= zeros,
            out@ == old(out)@ + Seq::new(k as nat, |i: int| '0'),
        decreases zeros - k,
    {
        push_char(out, '0');
        proof {
            assert(Seq::new((k + 1) as nat, |i: int| '0') =~= Seq::new(k as nat, |i: int| '0').push('0'));
        }
        k = k + 1;
    }
    crate::profile_json::push_decimal(out, value as u128);
    proof {
        assert(zeros == 0 ==> Seq::new(0, |i: int| '0') + digits =~= digits);
        assert(out@ =~= old(out)@ + padded_decimal(value as nat, 4));
    }
}

/// The two file names of an exported tensor: its int8 values and its f32 row scales.
pub fn rowwise_scaled_i8_export_file_names(index: usize, name: &str) -> (r: (String, String))
    ensures
        r.0@ == spec_export_file_prefix(index, name@) + seq!['.', 'i', '8'],
        r.1@ == spec_export_file_prefix(index, name@) + seq!['.', 's', 'c', 'a', 'l', 'e', 's', '.', 'f', '3', '2'],
{
    let mut stem = String::new();
    push_padded_index(&mut stem, index);
    push_char(&mut stem, '_');
    let tail = rowwise_scaled_i8_export_file_stem(name);
    crate::text::push_str(&mut stem, tail.as_str());
    let mut values = stem.clone();
    let mut scales = stem.clone();
    let values_suffix: [char; 3] = ['.', 'i', '8'];
    let scales_suffix: [char; 11] = ['.', 's', 'c', 'a', 'l', 'e', 's', '.', 'f', '3', '2'];
    let mut k: usize = 0;
    while k < 3
        invariant
            k <= 3,
            values_suffix@ == seq!['.', 'i', '8'],
            values@ == stem@ + values_suffix@.take(k as int),
        decreases 3 - k,
    {
        push_char(&mut values, values_suffix[k]);
        proof {
            assert(values_suffix@.take(k + 1) =~= values_suffix@.take(k as int).push(values_suffix@[k as int]));
        }
        k = k + 1;
    }
    let mut j: usize = 0;
    while j < 11
        invariant
            j <= 11,
            scales_suffix@ == seq!['.', 's', 'c', 'a', 'l', 'e', 's', '.', 'f', '3', '2'],
            scales@ == stem@ + scales_suffix@.take(j as int),
        decreases 11 - j,
    {
        push_char(&mut scales, scales_suffix[j]);
        proof {
            assert(scales_suffix@.take(j + 1) =~= scales_suffix@.take(j as int).push(scales_suffix@[j as int]));
        }
        j = j + 1;
    }
    proof {
        assert(values_suffix@.take(3) =~= values_suffix@);
        assert(scales_suffix@.take(11) =~= scales_suffix@);
        assert(stem@ =~= spec_export_file_prefix(index, name@));
    }
    (values, scales)
}

/// The paths of the int8 values file and the f32 row-scales file of an exported
/// tensor inside `export_dir`.
pub fn rowwise_scaled_i8_export_file_paths(export_dir: &Path, index: usize, name: &str) -> (r: (PathBuf, PathBuf))
    ensures
        r.0 == crate::safetensors::joined_path(export_dir, spec_export_file_prefix(index, name@) + seq!['.', 'i', '8']),
        r.1 == crate::safetensors::joined_path(export_dir, spec_export_file_prefix(index, name@) + seq!['.', 's', 'c', 'a', 'l', 'e', 's', '.', 'f', '3', '2'],
        ),
{
    let (values, scales) = rowwise_scaled_i8_export_file_names(index, name);
    (path_join(export_dir, values.as_str()), path_join(export_dir, scales.as_str()))
}

/// Checks that `values_len` int8 values and `scales_len` row scales make a matrix of
/// `rows` rows and `cols` columns.
pub fn validate_rowwise_i8_parts(values_len: usize, scales_len: usize, rows: usize, cols: usize) -> (r: Result<
    (),
    RowwiseScaledError,
>)
    requires
        rows * cols <= usize::MAX,
    ensures
        values_len != rows * cols ==> r == Err::<(), RowwiseScaledError>(
            RowwiseScaledError::ValuesLenMismatch { len: values_len, rows, cols },
        ),
        values_len == rows * cols && scales_len != rows ==> r == Err::<(), RowwiseScaledError>(
            RowwiseScaledError::ScalesLenMismatch { len: scales_len, rows },
        ),
        values_len == rows * cols && scales_len == rows ==> r is Ok,
{
    if values_len != rows * cols {
        return Err(RowwiseScaledError::ValuesLenMismatch { len: values_len, rows, cols });
    }
    if scales_len != rows {
        return Err(RowwiseScaledError::ScalesLenMismatch { len: scales_len, rows });
    }
    Ok(())
}

} // verus!
