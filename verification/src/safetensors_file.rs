//! Looking tensors up in a safetensors file's header and in the shard index of a
//! sharded checkpoint, and the byte ranges that reading a tensor needs. Opening and
//! reading the files is left to the caller.
use vstd::prelude::*;

use crate::dtypes::{spec_size_in_bytes, DType};
use crate::safetensors::{
    model_tensor_aliases, parse_header, spec_model_tensor_aliases, spec_parse_header, tensor_element_byte_size,
    SafetensorsError, SpecTensorInfo, TensorInfo,
};
use crate::tekken::{bytes_less, bytes_lt};
use crate::text::chars_eq;

verus! {

/// Why a tensor could not be found or read.
#[derive(Debug, Clone, PartialEq, Eq)]
pub enum TensorLookupError {
    /// No tensor has the name.
    MissingTensor,
    /// None of the names is a tensor.
    NoneExist,
    /// The element range `[start, end)` goes past the tensor's `total` elements.
    RangeOutOfBounds { start: usize, end: usize, total: usize },
    /// The header could not be read, or the tensor has another dtype.
    Header(SafetensorsError),
    /// The shard index maps no tensor.
    EmptyWeightMap,
}

/// The first tensor, from the `k`-th on, named `name`.
pub open spec fn find_tensor(tensors: Seq<SpecTensorInfo>, name: Seq<char>, k: int) -> Option<int>
    decreases tensors.len() - k,
{
    if k < 0 || k >= tensors.len() {
        None
    } else if tensors[k].name == name {
        Some(k)
    } else {
        find_tensor(tensors, name, k + 1)
    }
}

/// The first tensor, from the `k`-th on, whose name is one of `names`.
pub open spec fn find_any_tensor(tensors: Seq<SpecTensorInfo>, names: Seq<Seq<char>>, k: int) -> Option<int>
    decreases tensors.len() - k,
{
    if k < 0 || k >= tensors.len() {
        None
    } else if names.contains(tensors[k].name) {
        Some(k)
    } else {
        find_any_tensor(tensors, names, k + 1)
    }
}

/// The tensor a name stands for in one file: the tensor of that name, else the first
/// tensor named by one of its aliases.
pub open spec fn resolve_in_file(tensors: Seq<SpecTensorInfo>, name: Seq<char>) -> Option<int> {
    match find_tensor(tensors, name, 0) {
        Some(i) => Some(i),
        None => find_any_tensor(tensors, spec_model_tensor_aliases(name), 0),
    }
}

/// The tensor of the first name, from the `j`-th on, that names one.
pub open spec fn first_existing(tensors: Seq<SpecTensorInfo>, names: Seq<Seq<char>>, j: int) -> Option<int>
    decreases names.len() - j,
{
    if j < 0 || j >= names.len() {
        None
    } else {
        match find_tensor(tensors, names[j], 0) {
            Some(i) => Some(i),
            None => first_existing(tensors, names, j + 1),
        }
    }
}

pub(crate) proof fn lemma_find_tensor_bounds(tensors: Seq<SpecTensorInfo>, name: Seq<char>, k: int)
    ensures
        find_tensor(tensors, name, k) matches Some(i) ==> k <= i < tensors.len() && tensors[i].name == name,
    decreases tensors.len() - k,
{
    if 0 <= k < tensors.len() && tensors[k].name != name {
        lemma_find_tensor_bounds(tensors, name, k + 1);
    }
}

pub(crate) proof fn lemma_find_any_tensor_bounds(tensors: Seq<SpecTensorInfo>, names: Seq<Seq<char>>, k: int)
    ensures
        find_any_tensor(tensors, names, k) matches Some(i) ==> k <= i < tensors.len(),
    decreases tensors.len() - k,
{
    if 0 <= k < tensors.len() && !names.contains(tensors[k].name) {
        lemma_find_any_tensor_bounds(tensors, names, k + 1);
    }
}

proof fn lemma_first_existing_bounds(tensors: Seq<SpecTensorInfo>, names: Seq<Seq<char>>, j: int)
    ensures
        first_existing(tensors, names, j) matches Some(i) ==> 0 <= i < tensors.len(),
    decreases names.len() - j,
{
    if 0 <= j < names.len() {
        lemma_find_tensor_bounds(tensors, names[j], 0);
        lemma_first_existing_bounds(tensors, names, j + 1);
    }
}

/// The index of the first tensor named `name`.
fn find_tensor_index(tensors: &Vec<TensorInfo>, name: &str) -> (r: Option<usize>)
    ensures
        r is Some == find_tensor(tensors@.map_values(|t: TensorInfo| t@), name@, 0) is Some,
        r matches Some(i) ==> find_tensor(tensors@.map_values(|t: TensorInfo| t@), name@, 0) == Some(i as int),
{
    let ghost view = tensors@.map_values(|t: TensorInfo| t@);
    proof {
        lemma_find_tensor_bounds(view, name@, 0);
    }
    let mut k: usize = 0;
    while k < tensors.len()
        invariant
            view == tensors@.map_values(|t: TensorInfo| t@),
            k <= tensors@.len(),
            find_tensor(view, name@, k as int) == find_tensor(view, name@, 0),
        decreases tensors@.len() - k,
    {
        if chars_eq(tensors[k].name.as_str(), name) {
            return Some(k);
        }
        k = k + 1;
    }
    None
}

/// A safetensors file's header: its length, where the data section starts, and the
/// tensors it lists.
pub struct SafetensorsHeader {
    header_len: u64,
    data_start: u64,
    tensors: Vec<TensorInfo>,
}

impl SafetensorsHeader {
    /// The header's length in bytes.
    pub closed spec fn spec_header_len(self) -> u64 {
        self.header_len
    }

    /// Where the data section starts: after the eight length bytes and the header.
    pub closed spec fn spec_data_start(self) -> u64 {
        self.data_start
    }

    /// The tensors the header lists, in its order.
    pub closed spec fn spec_tensors(self) -> Seq<SpecTensorInfo> {
        self.tensors@.map_values(|t: TensorInfo| t@)
    }

    /// Reads a header of `header_len` bytes whose text is `header`.
    pub fn from_header_text(header_len: u64, header: &str) -> (r: Result<Self, TensorLookupError>)
        requires
            header_len <= u64::MAX - 8,
        ensures
            match spec_parse_header(vstd::utf8::encode_utf8(header@)) {
                Ok(v) => r matches Ok(h) && h.spec_header_len() == header_len && h.spec_data_start() == 8
                    + header_len && h.spec_tensors() == v,
                Err(e) => r == Err::<Self, TensorLookupError>(TensorLookupError::Header(e)),
            },
    {
        match parse_header(header) {
            Ok(tensors) => Ok(SafetensorsHeader { header_len, data_start: 8 + header_len, tensors }),
            Err(e) => Err(TensorLookupError::Header(e)),
        }
    }

    /// The header's length in bytes.
    pub fn header_len(&self) -> (r: u64)
        ensures
            r == self.spec_header_len(),
    {
        self.header_len
    }

    /// Where the data section starts.
    pub fn data_start(&self) -> (r: u64)
        ensures
            r == self.spec_data_start(),
    {
        self.data_start
    }

    /// The tensors the header lists.
    pub fn tensors(&self) -> (r: &[TensorInfo])
        ensures
            r@.map_values(|t: TensorInfo| t@) == self.spec_tensors(),
    {
        self.tensors.as_slice()
    }

    /// The first tensor named `name`.
    pub fn tensor(&self, name: &str) -> (r: Result<&TensorInfo, TensorLookupError>)
        ensures
            match find_tensor(self.spec_tensors(), name@, 0) {
                Some(i) => r matches Ok(t) && t@ == self.spec_tensors()[i],
                None => r matches Err(e) && e == TensorLookupError::MissingTensor,
            },
    {
        proof {
            lemma_find_tensor_bounds(self.spec_tensors(), name@, 0);
        }
        match find_tensor_index(&self.tensors, name) {
            Some(i) => Ok(&self.tensors[i]),
            None => Err(TensorLookupError::MissingTensor),
        }
    }

    /// The tensor of the first of `names` that names one.
    pub fn first_existing_tensor(&self, names: &[&str]) -> (r: Result<&TensorInfo, TensorLookupError>)
        ensures
            match first_existing(self.spec_tensors(), names@.map_values(|n: &str| n@), 0) {
                Some(i) => r matches Ok(t) && t@ == self.spec_tensors()[i],
                None => r matches Err(e) && e == TensorLookupError::NoneExist,
            },
    {
        let ghost view = self.spec_tensors();
        let ghost wanted = names@.map_values(|n: &str| n@);
        proof {
            lemma_first_existing_bounds(view, wanted, 0);
        }
        let mut j: usize = 0;
        while j < names.len()
            invariant
                view == self.spec_tensors(),
                view == self.tensors@.map_values(|t: TensorInfo| t@),
                wanted == names@.map_values(|n: &str| n@),
                j <= names@.len(),
                first_existing(view, wanted, j as int) == first_existing(view, wanted, 0),
            decreases names@.len() - j,
        {
            proof {
                lemma_find_tensor_bounds(view, wanted[j as int], 0);
            }
            match find_tensor_index(&self.tensors, names[j]) {
                Some(i) => {
                    return Ok(&self.tensors[i]);
                },
                None => {},
            }
            j = j + 1;
        }
        Err(TensorLookupError::NoneExist)
    }

    /// The tensor `name` stands for: the tensor of that name, else the first tensor
    /// named by one of its aliases.
    pub fn resolve_tensor(&self, name: &str) -> (r: Option<&TensorInfo>)
        ensures
            match resolve_in_file(self.spec_tensors(), name@) {
                Some(i) => r matches Some(t) && t@ == self.spec_tensors()[i],
                None => r is None,
            },
    {
        let ghost view = self.spec_tensors();
        proof {
            lemma_find_tensor_bounds(view, name@, 0);
        }
        match find_tensor_index(&self.tensors, name) {
            Some(i) => {
                return Some(&self.tensors[i]);
            },
            None => {},
        }
        let aliases = model_tensor_aliases(name);
        let ghost alias_view = aliases@.map_values(|a: String| a@);
        proof {
            lemma_find_any_tensor_bounds(view, alias_view, 0);
        }
        let mut k: usize = 0;
        while k < self.tensors.len()
            invariant
                view == self.spec_tensors(),
                view == self.tensors@.map_values(|t: TensorInfo| t@),
                alias_view == aliases@.map_values(|a: String| a@),
                alias_view == spec_model_tensor_aliases(name@),
                find_tensor(view, name@, 0) is None,
                k <= self.tensors@.len(),
                find_any_tensor(view, alias_view, k as int) == find_any_tensor(view, alias_view, 0),
            decreases self.tensors@.len() - k,
        {
            let mut a: usize = 0;
            let mut hit = false;
            while a < aliases.len()
                invariant
                    view == self.tensors@.map_values(|t: TensorInfo| t@),
                    alias_view == aliases@.map_values(|a: String| a@),
                    k < self.tensors@.len(),
                    a <= aliases@.len(),
                    hit ==> alias_view.contains(view[k as int].name),
                    !hit ==> forall|x: int| 0 <= x < a ==> #[trigger] alias_view[x] != view[k as int].name,
                decreases aliases@.len() - a,
            {
                if chars_eq(aliases[a].as_str(), self.tensors[k].name.as_str()) {
                    proof {
                        assert(alias_view[a as int] == view[k as int].name);
                    }
                    hit = true;
                }
                a = a + 1;
            }
            proof {
                if !hit && alias_view.contains(view[k as int].name) {
                    let x = choose|x: int| 0 <= x < alias_view.len() && alias_view[x] == view[k as int].name;
                    assert(alias_view[x] != view[k as int].name);
                }
            }
            if hit {
                return Some(&self.tensors[k]);
            }
            k = k + 1;
        }
        None
    }

    /// Where the bytes of `element_count` elements of `dtype` from `element_start` on
    /// lie in the file: the offset of the first byte and the number of bytes.
    pub fn tensor_byte_range(&self, tensor: &TensorInfo, dtype: DType, element_start: usize, element_count: usize) -> (r:
        Result<(u64, usize), TensorLookupError>)
        requires
            tensor.data_offsets@[0] <= tensor.data_offsets@[1],
            self.spec_data_start() + tensor.data_offsets@[1] <= u64::MAX,
            element_start + element_count <= usize::MAX,
        ensures
            ({
                let elem = spec_size_in_bytes(dtype);
                let total = ((tensor.data_offsets@[1] - tensor.data_offsets@[0]) as usize) / elem;
                if tensor.dtype != dtype {
                    r == Err::<(u64, usize), TensorLookupError>(
                        TensorLookupError::Header(SafetensorsError::DtypeMismatch { name: tensor.name, actual: tensor.dtype, expected: dtype }),
                    )
                } else if element_start + element_count > total {
                    r == Err::<(u64, usize), TensorLookupError>(
                        TensorLookupError::RangeOutOfBounds {
                            start: element_start,
                            end: (element_start + element_count) as usize,
                            total: total as usize,
                        },
                    )
                } else {
                    r == Ok::<(u64, usize), TensorLookupError>(
                        (
                            (self.spec_data_start() + tensor.data_offsets@[0] + element_start * elem) as u64,
                            (element_count * elem) as usize,
                        ),
                    )
                }
            }),
    {
        let elem_bytes = tensor_element_byte_size(dtype);
        let total = match tensor.typed_element_count(dtype) {
            Ok(t) => t,
            Err(e) => {
                return Err(TensorLookupError::Header(e));
            },
        };
        if element_start + element_count > total {
            return Err(
                TensorLookupError::RangeOutOfBounds {
                    start: element_start,
                    end: element_start + element_count,
                    total,
                },
            );
        }
        proof {
            let byte_len = (tensor.data_offsets@[1] - tensor.data_offsets@[0]) as usize;
            assert(total * elem_bytes <= byte_len) by (nonlinear_arith)
                requires
                    total == byte_len / elem_bytes,
                    elem_bytes > 0,
            ;
            assert(element_start * elem_bytes + element_count * elem_bytes <= total * elem_bytes) by (nonlinear_arith)
                requires
                    element_start + element_count <= total,
            ;
            assert(byte_len <= tensor.data_offsets@[1] - tensor.data_offsets@[0]);
        }
        let offset = self.data_start + tensor.data_offsets[0] + (element_start as u64) * (elem_bytes as u64);
        Ok((offset, element_count * elem_bytes))
    }
}

// ---------------------------------------------------------------------------
// Sharded checkpoints
// ---------------------------------------------------------------------------

pub proof fn lemma_bytes_lt_irreflexive(a: Seq<u8>)
    ensures
        !bytes_lt(a, a),
    decreases a.len(),
{
    if a.len() > 0 {
        lemma_bytes_lt_irreflexive(a.drop_first());
    }
}

pub proof fn lemma_bytes_lt_transitive(a: Seq<u8>, b: Seq<u8>, c: Seq<u8>)
    requires
        bytes_lt(a, b),
        bytes_lt(b, c),
    ensures
        bytes_lt(a, c),
    decreases a.len(),
{
    if a.len() > 0 && b.len() > 0 && c.len() > 0 && a[0] == b[0] && b[0] == c[0] {
        lemma_bytes_lt_transitive(a.drop_first(), b.drop_first(), c.drop_first());
    }
}

pub proof fn lemma_bytes_lt_total(a: Seq<u8>, b: Seq<u8>)
    requires
        a != b,
    ensures
        bytes_lt(a, b) || bytes_lt(b, a),
    decreases a.len(),
{
    if a.len() > 0 && b.len() > 0 && a[0] == b[0] {
        if a.drop_first() == b.drop_first() {
            assert(a =~= seq![a[0]] + a.drop_first());
            assert(b =~= seq![b[0]] + b.drop_first());
        }
        lemma_bytes_lt_total(a.drop_first(), b.drop_first());
    } else if a.len() == 0 && b.len() == 0 {
        assert(a =~= b);
    }
}

/// The byte key by which file names are ordered.
pub open spec fn name_key(s: Seq<char>) -> Seq<u8> {
    vstd::utf8::encode_utf8(s)
}

/// Each name comes before the next, so no name occurs twice.
pub open spec fn strictly_sorted(names: Seq<Seq<char>>) -> bool {
    forall|i: int, j: int| 0 <= i < j < names.len() ==> bytes_lt(#[trigger] name_key(names[i]), #[trigger] name_key(names[j]))
}

/// True when some entry of the weight map names the shard file `file`.
pub open spec fn names_a_shard(weight_map: Seq<(String, String)>, file: Seq<char>) -> bool {
    exists|q: int| 0 <= q < weight_map.len() && weight_map[q].1@ == file
}

/// The shard file names of a weight map, once each and in byte order.
pub fn shard_file_names(weight_map: &[(String, String)]) -> (r: Vec<String>)
    ensures
        strictly_sorted(r@.map_values(|s: String| s@)),
        forall|k: int| 0 <= k < weight_map@.len() ==> r@.map_values(|s: String| s@).contains(#[trigger] weight_map@[k].1@),
        forall|j: int| 0 <= j < r@.len() ==> names_a_shard(weight_map@, #[trigger] r@[j]@),
{
    let mut out: Vec<String> = Vec::new();
    let mut k: usize = 0;
    while k < weight_map.len()
        invariant
            k <= weight_map@.len(),
            strictly_sorted(out@.map_values(|s: String| s@)),
            forall|q: int| 0 <= q < k ==> out@.map_values(|s: String| s@).contains(#[trigger] weight_map@[q].1@),
            forall|j: int| 0 <= j < out@.len() ==> names_a_shard(weight_map@, #[trigger] out@[j]@),
        decreases weight_map@.len() - k,
    {
        let name = &weight_map[k].1;
        let key = name.as_str().as_bytes();
        let ghost view = out@.map_values(|s: String| s@);
        let mut p: usize = 0;
        while p < out.len() && bytes_less(out[p].as_str().as_bytes(), key)
            invariant
                view == out@.map_values(|s: String| s@),
                p <= out@.len(),
                key@ == name_key(name@),
                forall|i: int| 0 <= i < p ==> bytes_lt(#[trigger] name_key(view[i]), name_key(name@)),
            decreases out@.len() - p,
        {
            p = p + 1;
        }
        let present = p < out.len() && chars_eq(out[p].as_str(), name.as_str());
        if !present {
            proof {
                if p < out@.len() {
                    assert(!bytes_lt(name_key(view[p as int]), name_key(name@)));
                    assert(view[p as int] != name@);
                    vstd::utf8::encode_utf8_decode_utf8(view[p as int]);
                    vstd::utf8::encode_utf8_decode_utf8(name@);
                    lemma_bytes_lt_total(name_key(view[p as int]), name_key(name@));
                    assert(bytes_lt(name_key(name@), name_key(view[p as int])));
                    assert forall|j: int| p < j < view.len() implies bytes_lt(name_key(name@), name_key(view[j])) by {
                        lemma_bytes_lt_transitive(name_key(name@), name_key(view[p as int]), name_key(view[j]));
                    }
                }
            }
            let ghost old_out = out@;
            out.insert(p, name.clone());
            proof {
                let nv = out@.map_values(|s: String| s@);
                assert(nv =~= view.insert(p as int, name@));
                assert forall|i: int, j: int| 0 <= i < j < nv.len() implies bytes_lt(
                    #[trigger] name_key(nv[i]),
                    #[trigger] name_key(nv[j]),
                ) by {
                    if j < p {
                        assert(nv[i] == view[i] && nv[j] == view[j]);
                    } else if j == p {
                        assert(nv[i] == view[i]);
                    } else if i < p {
                        assert(nv[i] == view[i] && nv[j] == view[j - 1]);
                        if p < view.len() {
                            lemma_bytes_lt_transitive(name_key(view[i]), name_key(name@), name_key(view[j - 1]));
                        }
                    } else if i == p {
                        assert(nv[j] == view[j - 1]);
                    } else {
                        assert(nv[i] == view[i - 1] && nv[j] == view[j - 1]);
                    }
                }
                assert forall|q: int| 0 <= q < k + 1 implies nv.contains(#[trigger] weight_map@[q].1@) by {
                    if q == k {
                        assert(nv[p as int] == name@);
                    } else {
                        let x = choose|x: int| 0 <= x < view.len() && view[x] == weight_map@[q].1@;
                        if x < p {
                            assert(nv[x] == view[x]);
                        } else {
                            assert(nv[x + 1] == view[x]);
                        }
                    }
                }
                assert forall|j: int| 0 <= j < out@.len() implies names_a_shard(weight_map@, #[trigger] out@[j]@) by {
                    if j < p {
                        assert(out@[j] == old_out[j]);
                    } else if j == p {
                        assert(out@[j]@ == weight_map@[k as int].1@);
                    } else {
                        assert(out@[j] == old_out[j - 1]);
                    }
                }
            }
        } else {
            proof {
                assert(view[p as int] == name@);
            }
        }
        k = k + 1;
    }
    out
}

/// True when some entry of `index` is for the tensor `name`.
pub open spec fn indexes_tensor(index: Seq<(Seq<char>, usize)>, name: Seq<char>) -> bool {
    exists|k: int| 0 <= k < index.len() && index[k].0 == name
}

/// The shard of the last entry, among the first `n`, for the tensor `name`.
pub open spec fn shard_of(index: Seq<(Seq<char>, usize)>, name: Seq<char>, n: int) -> Option<usize>
    decreases n,
{
    if n <= 0 {
        None
    } else if index[n - 1].0 == name {
        Some(index[n - 1].1)
    } else {
        shard_of(index, name, n - 1)
    }
}

/// The first alias, from the `k`-th on, that the index holds.
pub open spec fn first_indexed_alias(index: Seq<(Seq<char>, usize)>, aliases: Seq<Seq<char>>, k: int) -> Option<
    Seq<char>,
>
    decreases aliases.len() - k,
{
    if k < 0 || k >= aliases.len() {
        None
    } else if indexes_tensor(index, aliases[k]) {
        Some(aliases[k])
    } else {
        first_indexed_alias(index, aliases, k + 1)
    }
}

/// The tensor name a name stands for in a sharded checkpoint: itself when indexed,
/// else its first indexed alias.
pub open spec fn spec_resolve_tensor_name(index: Seq<(Seq<char>, usize)>, name: Seq<char>) -> Option<Seq<char>> {
    if indexes_tensor(index, name) {
        Some(name)
    } else {
        first_indexed_alias(index, spec_model_tensor_aliases(name), 0)
    }
}

/// Which shard file holds each tensor of a sharded checkpoint.
pub struct ShardIndex {
    files: Vec<String>,
    tensor_file_index: Vec<(String, usize)>,
}

impl ShardIndex {
    /// The shard file names, in byte order.
    pub closed spec fn spec_files(self) -> Seq<Seq<char>> {
        self.files@.map_values(|s: String| s@)
    }

    /// Each tensor name with the position of its shard file, in weight-map order.
    pub closed spec fn spec_index(self) -> Seq<(Seq<char>, usize)> {
        self.tensor_file_index@.map_values(|e: (String, usize)| (e.0@, e.1))
    }

    /// Every entry points at a shard file.
    #[verifier::type_invariant]
    closed spec fn entries_point_at_files(self) -> bool {
        forall|k: int| 0 <= k < self.tensor_file_index@.len() ==> #[trigger] self.tensor_file_index@[k].1 < self.files@.len()
    }

    /// Plans a sharded checkpoint from its weight map: the shard files, once each and
    /// in byte order, and for each tensor the position of its file.
    pub fn from_weight_map(weight_map: &[(String, String)]) -> (r: Result<Self, TensorLookupError>)
        ensures
            weight_map@.len() == 0 ==> (r matches Err(e) && e == TensorLookupError::EmptyWeightMap),
            weight_map@.len() > 0 ==> (r matches Ok(ix) && strictly_sorted(ix.spec_files()) && (forall|k: int|
                0 <= k < weight_map@.len() ==> ix.spec_files().contains(#[trigger] weight_map@[k].1@)) && (forall|
                j: int,
            | 0 <= j < ix.spec_files().len() ==> names_a_shard(weight_map@, #[trigger] ix.spec_files()[j]))
                && ix.spec_index().len() == weight_map@.len() && (forall|k: int|
                0 <= k < weight_map@.len() ==> (#[trigger] ix.spec_index()[k]).0 == weight_map@[k].0@
                    && ix.spec_files()[ix.spec_index()[k].1 as int] == weight_map@[k].1@)),
    {
        if weight_map.len() == 0 {
            return Err(TensorLookupError::EmptyWeightMap);
        }
        let files = shard_file_names(weight_map);
        let ghost fv = files@.map_values(|s: String| s@);
        let mut index: Vec<(String, usize)> = Vec::new();
        let mut k: usize = 0;
        while k < weight_map.len()
            invariant
                fv == files@.map_values(|s: String| s@),
                forall|q: int| 0 <= q < weight_map@.len() ==> fv.contains(#[trigger] weight_map@[q].1@),
                k <= weight_map@.len(),
                index@.len() == k,
                forall|q: int|
                    0 <= q < k ==> (#[trigger] index@[q]).0@ == weight_map@[q].0@ && index@[q].1 < files@.len()
                        && fv[index@[q].1 as int] == weight_map@[q].1@,
            decreases weight_map@.len() - k,
        {
            let wanted = weight_map[k].1.as_str();
            proof {
                assert(fv.contains(weight_map@[k as int].1@));
            }
            let mut j: usize = 0;
            while j < files.len() && !chars_eq(files[j].as_str(), wanted)
                invariant
                    fv == files@.map_values(|s: String| s@),
                    fv.contains(wanted@),
                    j <= files@.len(),
                    forall|x: int| 0 <= x < j ==> fv[x] != wanted@,
                decreases files@.len() - j,
            {
                j = j + 1;
            }
            proof {
                if j == files@.len() {
                    let x = choose|x: int| 0 <= x < fv.len() && fv[x] == wanted@;
                    assert(fv[x] != wanted@);
                }
            }
            index.push((weight_map[k].0.clone(), j));
            k = k + 1;
        }
        let r = ShardIndex { files, tensor_file_index: index };
        proof {
            assert(r.spec_files() == fv);
        }
        Ok(r)
    }

    /// The shard file names, in byte order.
    pub fn file_names(&self) -> (r: &[String])
        ensures
            r@.map_values(|s: String| s@) == self.spec_files(),
    {
        self.files.as_slice()
    }

    /// Whether the index holds the tensor `name`.
    pub fn contains_tensor(&self, name: &str) -> (r: bool)
        ensures
            r == indexes_tensor(self.spec_index(), name@),
    {
        let ghost view = self.spec_index();
        let mut k: usize = 0;
        while k < self.tensor_file_index.len()
            invariant
                view == self.spec_index(),
                k <= view.len(),
                forall|q: int| 0 <= q < k ==> (#[trigger] view[q]).0 != name@,
            decreases view.len() - k,
        {
            if chars_eq(self.tensor_file_index[k].0.as_str(), name) {
                proof {
                    assert(view[k as int].0 == name@);
                }
                return true;
            }
            k = k + 1;
        }
        proof {
            if indexes_tensor(view, name@) {
                let q = choose|q: int| 0 <= q < view.len() && view[q].0 == name@;
                assert(view[q].0 != name@);
            }
        }
        false
    }

    /// The position of the shard file that holds the tensor `name` (the last entry
    /// for it wins).
    pub fn shard_file_index(&self, name: &str) -> (r: Option<usize>)
        ensures
            r == shard_of(self.spec_index(), name@, self.spec_index().len() as int),
            r matches Some(f) ==> f < self.spec_files().len(),
    {
        proof {
            use_type_invariant(self);
        }
        let ghost view = self.spec_index();
        let mut k = self.tensor_file_index.len();
        while k > 0
            invariant
                view == self.spec_index(),
                view.len() == self.tensor_file_index@.len(),
                k <= view.len(),
                forall|q: int| k <= q < view.len() ==> (#[trigger] view[q]).0 != name@,
                forall|q: int| 0 <= q < view.len() ==> #[trigger] view[q].1 < self.files@.len(),
            decreases k,
        {
            if chars_eq(self.tensor_file_index[k - 1].0.as_str(), name) {
                proof {
                    lemma_shard_of_skips(view, name@, k as int, view.len() as int);
                }
                return Some(self.tensor_file_index[k - 1].1);
            }
            k = k - 1;
        }
        proof {
            lemma_shard_of_skips(view, name@, 0, view.len() as int);
        }
        None
    }

    /// The tensor name that `name` stands for: itself when indexed, else its first
    /// indexed alias.
    pub fn resolve_tensor_name(&self, name: &str) -> (r: Option<String>)
        ensures
            match spec_resolve_tensor_name(self.spec_index(), name@) {
                Some(n) => r matches Some(s) && s@ == n,
                None => r is None,
            },
    {
        if self.contains_tensor(name) {
            return Some(crate::text::string_of(name));
        }
        let aliases = model_tensor_aliases(name);
        let ghost alias_view = aliases@.map_values(|a: String| a@);
        let mut k: usize = 0;
        while k < aliases.len()
            invariant
                alias_view == aliases@.map_values(|a: String| a@),
                alias_view == spec_model_tensor_aliases(name@),
                !indexes_tensor(self.spec_index(), name@),
                k <= aliases@.len(),
                first_indexed_alias(self.spec_index(), alias_view, k as int) == first_indexed_alias(
                    self.spec_index(),
                    alias_view,
                    0,
                ),
            decreases aliases@.len() - k,
        {
            if self.contains_tensor(aliases[k].as_str()) {
                return Some(aliases[k].clone());
            }
            k = k + 1;
        }
        None
    }
}

/// Skipping entries for other tensors at the end does not change the last one.
proof fn lemma_shard_of_skips(index: Seq<(Seq<char>, usize)>, name: Seq<char>, k: int, n: int)
    requires
        0 <= k <= n <= index.len(),
        forall|q: int| k <= q < n ==> (#[trigger] index[q]).0 != name,
    ensures
        shard_of(index, name, n) == shard_of(index, name, k),
    decreases n - k,
{
    if k < n {
        lemma_shard_of_skips(index, name, k, n - 1);
    }
}

/// Checks that every tensor of the index is in the header of its shard file.
pub fn check_shard_tensors(index: &ShardIndex, headers: &[SafetensorsHeader]) -> (r: Result<(), TensorLookupError>)
    requires
        headers@.len() == index.spec_files().len(),
    ensures
        r is Ok <==> forall|k: int|
            0 <= k < index.spec_index().len() ==> find_tensor(
                headers@[#[trigger] index.spec_index()[k].1 as int].spec_tensors(),
                index.spec_index()[k].0,
                0,
            ) is Some,
        r is Err ==> r == Err::<(), TensorLookupError>(TensorLookupError::MissingTensor),
{
    proof {
        use_type_invariant(index);
    }
    let ghost view = index.spec_index();
    let mut k: usize = 0;
    while k < index.tensor_file_index.len()
        invariant
            view == index.spec_index(),
            view.len() == index.tensor_file_index@.len(),
            headers@.len() == index.files@.len(),
            forall|q: int| 0 <= q < view.len() ==> #[trigger] view[q].1 < index.files@.len(),
            k <= view.len(),
            forall|q: int| 0 <= q < k ==> find_tensor(headers@[#[trigger] view[q].1 as int].spec_tensors(), view[q].0, 0) is Some,
        decreases view.len() - k,
    {
        let file = index.tensor_file_index[k].1;
        proof {
            assert(view[k as int].1 == file);
        }
        match headers[file].tensor(index.tensor_file_index[k].0.as_str()) {
            Ok(_) => {},
            Err(_) => {
                return Err(TensorLookupError::MissingTensor);
            },
        }
        k = k + 1;
    }
    Ok(())
}

/// The shard file and the tensor that `name` stands for in a sharded checkpoint whose
/// shard headers are `headers`, or `None` when it stands for none.
pub fn sharded_tensor<'a>(index: &ShardIndex, headers: &'a [SafetensorsHeader], name: &str) -> (r: Result<
    Option<(usize, &'a TensorInfo)>,
    TensorLookupError,
>)
    requires
        headers@.len() == index.spec_files().len(),
    ensures
        match spec_resolve_tensor_name(index.spec_index(), name@) {
            None => r matches Ok(None),
            Some(n) => match shard_of(index.spec_index(), n, index.spec_index().len() as int) {
                None => r matches Err(e) && e == TensorLookupError::MissingTensor,
                Some(f) => match find_tensor(headers@[f as int].spec_tensors(), n, 0) {
                    Some(i) => r matches Ok(Some((g, t))) && g == f && t@ == headers@[f as int].spec_tensors()[i],
                    None => r matches Err(e) && e == TensorLookupError::MissingTensor,
                },
            },
        },
        spec_resolve_tensor_name(index.spec_index(), name@) matches Some(n) ==> (shard_of(
            index.spec_index(),
            n,
            index.spec_index().len() as int,
        ) matches Some(f) ==> f < headers@.len()),
{
    let resolved = match index.resolve_tensor_name(name) {
        Some(n) => n,
        None => {
            return Ok(None);
        },
    };
    let file = match index.shard_file_index(resolved.as_str()) {
        Some(f) => f,
        None => {
            return Err(TensorLookupError::MissingTensor);
        },
    };
    match headers[file].tensor(resolved.as_str()) {
        Ok(t) => Ok(Some((file, t))),
        Err(e) => Err(e),
    }
}

} // verus!
