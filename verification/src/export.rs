//! The layout of an all-linear int8 export archive: which tensors it holds, under
//! which file names and with how many bytes, and the checks of its manifest and files.
use vstd::prelude::*;

use crate::json::{parse_json_string_field, spec_json_string_field, JsonError};
use crate::model::{checked_export_file_len, exported_int8_layer_tensor_index, ModelError, TextDims};
use crate::profile_json::{decimal, push_decimal};
use crate::rowwise_scaled::{rowwise_scaled_i8_export_file_names, spec_export_file_prefix};
use crate::text::push_str;

verus! {

/// One tensor of the archive: its index, its name, and its shape.
#[derive(Debug, Clone, PartialEq, Eq)]
pub struct ExportedInt8TensorSpec {
    pub index: usize,
    pub name: String,
    pub rows: usize,
    pub cols: usize,
}

impl View for ExportedInt8TensorSpec {
    type V = (usize, Seq<char>, usize, usize);

    open spec fn view(&self) -> (usize, Seq<char>, usize, usize) {
        (self.index, self.name@, self.rows, self.cols)
    }
}

/// The dimensions for which the archive's indices and shapes fit `usize`.
pub open spec fn export_dims_fit(dims: TextDims) -> bool {
    &&& dims.n_heads * dims.head_dim <= usize::MAX
    &&& dims.n_kv_heads * dims.head_dim <= usize::MAX
    &&& 1 + dims.n_layers * 7 <= usize::MAX
}

/// The name of the tensor at `offset` of decoder layer `layer`.
pub open spec fn layer_tensor_name(layer: usize, offset: int) -> Seq<char> {
    let tail = if offset == 0 {
        ".attention.wq.weight"@
    } else if offset == 1 {
        ".attention.wk.weight"@
    } else if offset == 2 {
        ".attention.wv.weight"@
    } else if offset == 3 {
        ".attention.wo.weight"@
    } else if offset == 4 {
        ".feed_forward.w1.weight"@
    } else if offset == 5 {
        ".feed_forward.w3.weight"@
    } else {
        ".feed_forward.w2.weight"@
    };
    "layers."@ + decimal(layer as nat) + tail
}

/// The shape of the tensor at `offset` of a decoder layer.
pub open spec fn layer_tensor_shape(dims: TextDims, offset: int) -> (usize, usize) {
    let q_len = (dims.n_heads * dims.head_dim) as usize;
    let kv_len = (dims.n_kv_heads * dims.head_dim) as usize;
    if offset == 0 {
        (q_len, dims.dim)
    } else if offset == 1 || offset == 2 {
        (kv_len, dims.dim)
    } else if offset == 3 {
        (dims.dim, q_len)
    } else if offset == 4 || offset == 5 {
        (dims.hidden_dim, dims.dim)
    } else {
        (dims.dim, dims.hidden_dim)
    }
}

/// The archive's tensors: the output projection, then the seven linear weights of
/// each decoder layer, the `k`-th of them at index `k`.
pub open spec fn spec_export_tensor_specs(dims: TextDims) -> Seq<(usize, Seq<char>, usize, usize)> {
    Seq::new(
        (1 + dims.n_layers * 7) as nat,
        |k: int|
            if k == 0 {
                (0usize, "output.weight"@, dims.vocab_size, dims.dim)
            } else {
                let layer = ((k - 1) / 7) as usize;
                let offset = (k - 1) % 7;
                let shape = layer_tensor_shape(dims, offset);
                (k as usize, layer_tensor_name(layer, offset), shape.0, shape.1)
            },
    )
}

proof fn lemma_layer_slot(layer: usize, o: int)
    requires
        0 <= o < 7,
    ensures
        (1 + 7 * layer + o - 1) / 7 == layer,
        (1 + 7 * layer + o - 1) % 7 == o,
{
    assert((1 + 7 * layer + o - 1) / 7 == layer && (1 + 7 * layer + o - 1) % 7 == o) by (nonlinear_arith)
        requires
            0 <= o < 7,
    ;
}

/// The archive holds the output projection at index 0 and then, for each decoder layer
/// `l`, its seven linear weights at indices `1 + 7 * l` on, in the order `wq`, `wk`,
/// `wv`, `wo`, `w1`, `w3`, `w2`, each with its own shape.
pub proof fn lemma_export_tensor_order(dims: TextDims, layer: usize)
    requires
        export_dims_fit(dims),
        layer < dims.n_layers,
    ensures
        ({
            let specs = spec_export_tensor_specs(dims);
            let p = "layers."@ + decimal(layer as nat);
            let b = 1 + 7 * layer;
            let q_len = (dims.n_heads * dims.head_dim) as usize;
            let kv_len = (dims.n_kv_heads * dims.head_dim) as usize;
            &&& specs.len() == 1 + 7 * dims.n_layers
            &&& specs[0] == (0usize, "output.weight"@, dims.vocab_size, dims.dim)
            &&& specs[b] == (b as usize, p + ".attention.wq.weight"@, q_len, dims.dim)
            &&& specs[b + 1] == ((b + 1) as usize, p + ".attention.wk.weight"@, kv_len, dims.dim)
            &&& specs[b + 2] == ((b + 2) as usize, p + ".attention.wv.weight"@, kv_len, dims.dim)
            &&& specs[b + 3] == ((b + 3) as usize, p + ".attention.wo.weight"@, dims.dim, q_len)
            &&& specs[b + 4] == ((b + 4) as usize, p + ".feed_forward.w1.weight"@, dims.hidden_dim, dims.dim)
            &&& specs[b + 5] == ((b + 5) as usize, p + ".feed_forward.w3.weight"@, dims.hidden_dim, dims.dim)
            &&& specs[b + 6] == ((b + 6) as usize, p + ".feed_forward.w2.weight"@, dims.dim, dims.hidden_dim)
        }),
{
    assert(7 * layer + 7 <= 7 * dims.n_layers) by (nonlinear_arith)
        requires
            layer < dims.n_layers,
    ;
    lemma_layer_slot(layer, 0);
    lemma_layer_slot(layer, 1);
    lemma_layer_slot(layer, 2);
    lemma_layer_slot(layer, 3);
    lemma_layer_slot(layer, 4);
    lemma_layer_slot(layer, 5);
    lemma_layer_slot(layer, 6);
}

/// The tensors of an all-linear int8 export archive of a model with `dims`.
pub fn all_linear_int8_export_tensor_specs(dims: &TextDims) -> (r: Vec<ExportedInt8TensorSpec>)
    requires
        export_dims_fit(*dims),
    ensures
        r@.map_values(|s: ExportedInt8TensorSpec| s@) == spec_export_tensor_specs(*dims),
{
    let q_len = dims.n_heads * dims.head_dim;
    let kv_len = dims.n_kv_heads * dims.head_dim;
    let ghost target = spec_export_tensor_specs(*dims);
    let mut specs: Vec<ExportedInt8TensorSpec> = Vec::new();
    let mut output_name = String::new();
    push_str(&mut output_name, "output.weight");
    specs.push(ExportedInt8TensorSpec { index: 0, name: output_name, rows: dims.vocab_size, cols: dims.dim });
    let tails: [&str; 7] = [
        ".attention.wq.weight",
        ".attention.wk.weight",
        ".attention.wv.weight",
        ".attention.wo.weight",
        ".feed_forward.w1.weight",
        ".feed_forward.w3.weight",
        ".feed_forward.w2.weight",
    ];
    let rows: [usize; 7] = [q_len, kv_len, kv_len, dims.dim, dims.hidden_dim, dims.hidden_dim, dims.dim];
    let cols: [usize; 7] = [dims.dim, dims.dim, dims.dim, q_len, dims.dim, dims.dim, dims.hidden_dim];
    let mut layer: usize = 0;
    while layer < dims.n_layers
        invariant
            export_dims_fit(*dims),
            q_len == dims.n_heads * dims.head_dim,
            kv_len == dims.n_kv_heads * dims.head_dim,
            target == spec_export_tensor_specs(*dims),
            layer <= dims.n_layers,
            specs@.len() == 1 + layer * 7,
            forall|k: int| 0 <= k < specs@.len() ==> (#[trigger] specs@[k])@ == target[k],
            forall|o: int| 0 <= o < 7 ==> (rows@[o], cols@[o]) == layer_tensor_shape(*dims, o),
            tails@[0]@ == ".attention.wq.weight"@,
            tails@[1]@ == ".attention.wk.weight"@,
            tails@[2]@ == ".attention.wv.weight"@,
            tails@[3]@ == ".attention.wo.weight"@,
            tails@[4]@ == ".feed_forward.w1.weight"@,
            tails@[5]@ == ".feed_forward.w3.weight"@,
            tails@[6]@ == ".feed_forward.w2.weight"@,
        decreases dims.n_layers - layer,
    {
        let mut offset: usize = 0;
        while offset < 7
            invariant
                export_dims_fit(*dims),
                target == spec_export_tensor_specs(*dims),
                layer < dims.n_layers,
                offset <= 7,
                specs@.len() == 1 + layer * 7 + offset,
                forall|k: int| 0 <= k < specs@.len() ==> (#[trigger] specs@[k])@ == target[k],
                forall|o: int| 0 <= o < 7 ==> (rows@[o], cols@[o]) == layer_tensor_shape(*dims, o),
                tails@[0]@ == ".attention.wq.weight"@,
                tails@[1]@ == ".attention.wk.weight"@,
                tails@[2]@ == ".attention.wv.weight"@,
                tails@[3]@ == ".attention.wo.weight"@,
                tails@[4]@ == ".feed_forward.w1.weight"@,
                tails@[5]@ == ".feed_forward.w3.weight"@,
                tails@[6]@ == ".feed_forward.w2.weight"@,
            decreases 7 - offset,
        {
            proof {
                assert(layer * 7 + offset + 1 <= dims.n_layers * 7) by (nonlinear_arith)
                    requires
                        layer < dims.n_layers,
                        offset < 7,
                ;
            }
            let index = exported_int8_layer_tensor_index(layer, offset);
            let mut name = String::new();
            push_str(&mut name, "layers.");
            push_decimal(&mut name, layer as u128);
            push_str(&mut name, tails[offset]);
            let ghost k = index as int;
            proof {
                assert((k - 1) / 7 == layer && (k - 1) % 7 == offset) by (nonlinear_arith)
                    requires
                        k == 1 + layer * 7 + offset,
                        offset < 7,
                ;
                assert(name@ == layer_tensor_name(layer, offset as int));
                assert(layer_tensor_shape(*dims, offset as int) == (rows@[offset as int], cols@[offset as int]));
            }
            specs.push(ExportedInt8TensorSpec { index, name, rows: rows[offset], cols: cols[offset] });
            offset = offset + 1;
        }
        layer = layer + 1;
    }
    proof {
        assert(specs@.map_values(|s: ExportedInt8TensorSpec| s@) =~= target);
    }
    specs
}

/// What the archive must hold for one tensor: the names of its values and scales
/// files, and their byte lengths.
#[derive(Debug, Clone, PartialEq, Eq)]
pub struct ExportFileExpectation {
    pub values_file: String,
    pub values_bytes: usize,
    pub scales_file: String,
    pub scales_bytes: usize,
}

/// The files of one exported tensor: `rows * cols` int8 values and `rows` f32 scales,
/// or the overflow of either length.
pub fn export_file_expectation(spec: &ExportedInt8TensorSpec) -> (r: Result<ExportFileExpectation, ModelError>)
    ensures
        spec.rows * spec.cols > usize::MAX ==> (r matches Err(e) && e == ModelError::ExportLenOverflow),
        spec.rows * spec.cols <= usize::MAX && spec.rows * 4 > usize::MAX ==> (r matches Err(e) && e
            == ModelError::ExportLenOverflow),
        spec.rows * spec.cols <= usize::MAX && spec.rows * 4 <= usize::MAX ==> (r matches Ok(x) && x.values_bytes
            == spec.rows * spec.cols && x.scales_bytes == spec.rows * 4 && x.values_file@ == spec_export_file_prefix(
            spec.index,
            spec.name@,
        ) + seq!['.', 'i', '8'] && x.scales_file@ == spec_export_file_prefix(spec.index, spec.name@) + seq![
            '.',
            's',
            'c',
            'a',
            'l',
            'e',
            's',
            '.',
            'f',
            '3',
            '2',
        ]),
{
    let (values_file, scales_file) = rowwise_scaled_i8_export_file_names(spec.index, spec.name.as_str());
    let values_bytes = match checked_export_file_len(spec.rows, spec.cols) {
        Ok(n) => n,
        Err(e) => {
            return Err(e);
        },
    };
    let scales_bytes = match checked_export_file_len(spec.rows, 4) {
        Ok(n) => n,
        Err(e) => {
            return Err(e);
        },
    };
    Ok(ExportFileExpectation { values_file, values_bytes, scales_file, scales_bytes })
}

/// Why a file of the archive was refused.
#[derive(Debug, Clone, Copy, PartialEq, Eq, Structural)]
pub enum ExportFileError {
    /// The path could not be read.
    Unreadable,
    /// The path is not a regular file.
    NotRegularFile,
    /// The file does not have the expected length.
    WrongLength { actual: u64, expected: u64 },
}

/// Checks a file of the archive from what the file system says of it: readable, a
/// regular file, and of the expected length when one is expected.
pub fn validate_export_regular_file_len(readable: bool, is_file: bool, actual_bytes: u64, expected_bytes: Option<
    u64,
>) -> (r: Result<(), ExportFileError>)
    ensures
        !readable ==> r == Err::<(), ExportFileError>(ExportFileError::Unreadable),
        readable && !is_file ==> r == Err::<(), ExportFileError>(ExportFileError::NotRegularFile),
        readable && is_file ==> match expected_bytes {
            Some(e) => if actual_bytes != e {
                r == Err::<(), ExportFileError>(ExportFileError::WrongLength { actual: actual_bytes, expected: e })
            } else {
                r is Ok
            },
            None => r is Ok,
        },
{
    if !readable {
        return Err(ExportFileError::Unreadable);
    }
    if !is_file {
        return Err(ExportFileError::NotRegularFile);
    }
    match expected_bytes {
        Some(e) => {
            if actual_bytes != e {
                return Err(ExportFileError::WrongLength { actual: actual_bytes, expected: e });
            }
        },
        None => {},
    }
    Ok(())
}

/// The quantization every archive manifest must name.
pub open spec fn row_symmetric_int8_name() -> Seq<char> {
    "row-symmetric-int8-with-f32-row-scales"@
}

/// Why a manifest was refused.
#[derive(Debug, Clone, PartialEq, Eq)]
pub enum ManifestError {
    Json(JsonError),
    /// The manifest names another quantization.
    UnsupportedQuantization(String),
}

/// Checks an archive manifest's quantization and, when `want_weights_path` is set,
/// reads the weights path it was made from, for the caller to compare with the
/// model's own.
pub fn validate_int8_export_manifest_metadata(manifest: &[u8], want_weights_path: bool) -> (r: Result<
    Option<String>,
    ManifestError,
>)
    requires
        spec_json_string_field(manifest@, "quantization"@.map_values(|c: char| c as u8))
            != Err::<Seq<char>, JsonError>(JsonError::EscapeSplitsCharacter),
        spec_json_string_field(manifest@, "weights_path"@.map_values(|c: char| c as u8))
            != Err::<Seq<char>, JsonError>(JsonError::EscapeSplitsCharacter),
    ensures
        match spec_json_string_field(manifest@, "quantization"@.map_values(|c: char| c as u8)) {
            Err(e) => r == Err::<Option<String>, ManifestError>(ManifestError::Json(e)),
            Ok(q) => if q != row_symmetric_int8_name() {
                r matches Err(ManifestError::UnsupportedQuantization(s)) && s@ == q
            } else if !want_weights_path {
                r == Ok::<Option<String>, ManifestError>(None)
            } else {
                match spec_json_string_field(manifest@, "weights_path"@.map_values(|c: char| c as u8)) {
                    Err(e) => r == Err::<Option<String>, ManifestError>(ManifestError::Json(e)),
                    Ok(p) => r matches Ok(Some(s)) && s@ == p,
                }
            },
        },
{
    let quantization_field: [u8; 12] = [113, 117, 97, 110, 116, 105, 122, 97, 116, 105, 111, 110];
    let weights_field: [u8; 12] = [119, 101, 105, 103, 104, 116, 115, 95, 112, 97, 116, 104];
    proof {
        reveal_strlit("quantization");
        reveal_strlit("weights_path");
        assert(quantization_field@ =~= "quantization"@.map_values(|c: char| c as u8));
        assert(weights_field@ =~= "weights_path"@.map_values(|c: char| c as u8));
    }
    let quantization = match parse_json_string_field(manifest, quantization_field.as_slice()) {
        Ok(q) => q,
        Err(e) => {
            return Err(ManifestError::Json(e));
        },
    };
    if !crate::text::chars_eq(quantization.as_str(), "row-symmetric-int8-with-f32-row-scales") {
        return Err(ManifestError::UnsupportedQuantization(quantization));
    }
    if !want_weights_path {
        return Ok(None);
    }
    match parse_json_string_field(manifest, weights_field.as_slice()) {
        Ok(p) => Ok(Some(p)),
        Err(e) => Err(ManifestError::Json(e)),
    }
}

/// What the file system says of one path: whether it could be read, whether it is a
/// regular file, and its length in bytes.
#[derive(Debug, Clone, Copy, PartialEq, Eq, Structural)]
pub struct ExportFileFacts {
    pub readable: bool,
    pub is_file: bool,
    pub len: u64,
}

/// Why an export archive was refused.
#[derive(Debug, Clone, Copy, PartialEq, Eq, Structural)]
pub enum ExportArchiveError {
    /// The archive directory could not be read.
    DirUnreadable,
    /// The archive path is not a directory.
    NotADirectory,
    /// The manifest file was refused.
    ManifestFile(ExportFileError),
    /// A byte length of the tensor with this index does not fit in `usize`.
    TensorSize { index: usize },
    /// The values file of the tensor with this index was refused.
    ValuesFile { index: usize, error: ExportFileError },
    /// The scales file of the tensor with this index was refused.
    ScalesFile { index: usize, error: ExportFileError },
}

/// What `validate_export_regular_file_len` answers for `facts`.
pub open spec fn file_check(facts: ExportFileFacts, expected: Option<u64>) -> Result<(), ExportFileError> {
    if !facts.readable {
        Err(ExportFileError::Unreadable)
    } else if !facts.is_file {
        Err(ExportFileError::NotRegularFile)
    } else {
        match expected {
            Some(e) => if facts.len != e {
                Err(ExportFileError::WrongLength { actual: facts.len, expected: e })
            } else {
                Ok(())
            },
            None => Ok(()),
        }
    }
}

/// Checks the archive directory and its manifest file, in that order.
pub fn validate_export_archive_head(dir_readable: bool, dir_is_dir: bool, manifest: ExportFileFacts) -> (r: Result<
    (),
    ExportArchiveError,
>)
    ensures
        !dir_readable ==> r == Err::<(), ExportArchiveError>(ExportArchiveError::DirUnreadable),
        dir_readable && !dir_is_dir ==> r == Err::<(), ExportArchiveError>(ExportArchiveError::NotADirectory),
        dir_readable && dir_is_dir ==> match file_check(manifest, None) {
            Ok(_) => r is Ok,
            Err(e) => r == Err::<(), ExportArchiveError>(ExportArchiveError::ManifestFile(e)),
        },
{
    if !dir_readable {
        return Err(ExportArchiveError::DirUnreadable);
    }
    if !dir_is_dir {
        return Err(ExportArchiveError::NotADirectory);
    }
    match validate_export_regular_file_len(manifest.readable, manifest.is_file, manifest.len, None) {
        Ok(()) => Ok(()),
        Err(e) => Err(ExportArchiveError::ManifestFile(e)),
    }
}

/// The check of the first `n` tensors' files, tensor by tensor: both byte lengths
/// must fit, then the values file, then the scales file; the first fault is the answer.
pub open spec fn tensor_files_check(
    specs: Seq<(usize, Seq<char>, usize, usize)>,
    files: Seq<(ExportFileFacts, ExportFileFacts)>,
    n: int,
) -> Result<(), ExportArchiveError>
    decreases n,
{
    if n <= 0 {
        Ok(())
    } else {
        match tensor_files_check(specs, files, n - 1) {
            Err(e) => Err(e),
            Ok(_) => {
                let (index, _, rows, cols) = specs[n - 1];
                if rows * cols > usize::MAX || rows * 4 > usize::MAX {
                    Err(ExportArchiveError::TensorSize { index })
                } else {
                    match file_check(files[n - 1].0, Some((rows * cols) as u64)) {
                        Err(e) => Err(ExportArchiveError::ValuesFile { index, error: e }),
                        Ok(_) => match file_check(files[n - 1].1, Some((rows * 4) as u64)) {
                            Err(e) => Err(ExportArchiveError::ScalesFile { index, error: e }),
                            Ok(_) => Ok(()),
                        },
                    }
                }
            },
        }
    }
}

proof fn lemma_tensor_files_error_sticks(
    specs: Seq<(usize, Seq<char>, usize, usize)>,
    files: Seq<(ExportFileFacts, ExportFileFacts)>,
    k: int,
    n: int,
)
    requires
        k <= n,
        tensor_files_check(specs, files, k) is Err,
    ensures
        tensor_files_check(specs, files, n) == tensor_files_check(specs, files, k),
    decreases n - k,
{
    if k < n {
        lemma_tensor_files_error_sticks(specs, files, k, n - 1);
    }
}

/// Checks each tensor's values and scales files, as the file system describes them in
/// `files` (one pair per tensor of `specs`, in order), against the lengths the tensor's
/// shape asks for.
pub fn validate_export_tensor_files(specs: &[ExportedInt8TensorSpec], files: &[(ExportFileFacts, ExportFileFacts)]) -> (r:
    Result<(), ExportArchiveError>)
    requires
        specs.len() == files.len(),
    ensures
        r == tensor_files_check(
            specs@.map_values(|s: ExportedInt8TensorSpec| s@),
            files@,
            specs.len() as int,
        ),
{
    let ghost views = specs@.map_values(|s: ExportedInt8TensorSpec| s@);
    let mut k: usize = 0;
    while k < specs.len()
        invariant
            specs.len() == files.len(),
            views == specs@.map_values(|s: ExportedInt8TensorSpec| s@),
            k <= specs.len(),
            tensor_files_check(views, files@, k as int) is Ok,
        decreases specs.len() - k,
    {
        let spec = &specs[k];
        proof {
            assert(views[k as int] == spec@);
        }
        let expectation = match export_file_expectation(spec) {
            Ok(x) => x,
            Err(_) => {
                proof {
                    lemma_tensor_files_error_sticks(views, files@, k + 1, specs.len() as int);
                }
                return Err(ExportArchiveError::TensorSize { index: spec.index });
            },
        };
        let (values, scales) = files[k];
        match validate_export_regular_file_len(values.readable, values.is_file, values.len, Some(
            expectation.values_bytes as u64,
        )) {
            Ok(()) => {},
            Err(e) => {
                proof {
                    lemma_tensor_files_error_sticks(views, files@, k + 1, specs.len() as int);
                }
                return Err(ExportArchiveError::ValuesFile { index: spec.index, error: e });
            },
        }
        match validate_export_regular_file_len(scales.readable, scales.is_file, scales.len, Some(
            expectation.scales_bytes as u64,
        )) {
            Ok(()) => {},
            Err(e) => {
                proof {
                    lemma_tensor_files_error_sticks(views, files@, k + 1, specs.len() as int);
                }
                return Err(ExportArchiveError::ScalesFile { index: spec.index, error: e });
            },
        }
        k = k + 1;
    }
    Ok(())
}

} // verus!
