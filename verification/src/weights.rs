//! The tensors of a model checkpoint as their headers list them (one consolidated
//! file, or shards behind an index), looked up by name, and the Qwen3.5 weight layout
//! those tensors are checked against. Opening the files is left to the caller.
use vstd::prelude::*;

use crate::dtypes::DType;
use crate::model::{
    ModelError, Qwen35AttentionWeightLayout, Qwen35FullAttentionWeightLayout, Qwen35LayerWeightLayout,
    Qwen35LinearAttentionWeightLayout, Qwen35MlpWeightLayout, Qwen35TensorLayout, Qwen35TextParams, TextDims,
    TextLayerKind, TextModelKind,
};
use crate::profile_json::{decimal, push_decimal};
use crate::safetensors::{SpecTensorInfo, TensorInfo};
use crate::safetensors_file::{
    check_shard_tensors, find_tensor, resolve_in_file, shard_of, sharded_tensor, spec_resolve_tensor_name,
    SafetensorsHeader, ShardIndex, TensorLookupError,
};
use crate::text::push_str;
use crate::text_config::TextConfigCore;

verus! {

/// The tensor lists of a checkpoint: one file's, or the shard index (each tensor name
/// with the position of its shard) and each shard's list.
pub enum TensorSourceView {
    Consolidated(Seq<SpecTensorInfo>),
    Sharded(Seq<(Seq<char>, usize)>, Seq<Seq<SpecTensorInfo>>),
}

/// The shard and the tensor that `name` stands for, `None` when it stands for none, or
/// the fault of an index entry whose shard lacks the tensor.
pub open spec fn source_lookup(src: TensorSourceView, name: Seq<char>) -> Result<
    Option<(usize, SpecTensorInfo)>,
    TensorLookupError,
> {
    match src {
        TensorSourceView::Consolidated(tensors) => match resolve_in_file(tensors, name) {
            Some(i) => Ok(Some((0usize, tensors[i]))),
            None => Ok(None),
        },
        TensorSourceView::Sharded(index, shards) => match spec_resolve_tensor_name(index, name) {
            None => Ok(None),
            Some(n) => match shard_of(index, n, index.len() as int) {
                None => Err(TensorLookupError::MissingTensor),
                Some(f) => if (f as int) < shards.len() {
                    match find_tensor(shards[f as int], n, 0) {
                        Some(i) => Ok(Some((f, shards[f as int][i]))),
                        None => Err(TensorLookupError::MissingTensor),
                    }
                } else {
                    Err(TensorLookupError::MissingTensor)
                },
            },
        },
    }
}

/// The shard and the tensor that `name` stands for, or why there is none.
pub open spec fn source_tensor(src: TensorSourceView, name: Seq<char>) -> Result<
    (usize, SpecTensorInfo),
    TensorLookupError,
> {
    match source_lookup(src, name) {
        Err(e) => Err(e),
        Ok(None) => Err(TensorLookupError::MissingTensor),
        Ok(Some(found)) => Ok(found),
    }
}

/// The tensor of the first of `names`, from the `j`-th on, that stands for one.
pub open spec fn source_first_existing(src: TensorSourceView, names: Seq<Seq<char>>, j: int) -> Result<
    (usize, SpecTensorInfo),
    TensorLookupError,
>
    decreases names.len() - j,
{
    if j < 0 || j >= names.len() {
        Err(TensorLookupError::NoneExist)
    } else {
        match source_tensor(src, names[j]) {
            Ok(found) => Ok(found),
            Err(_) => source_first_existing(src, names, j + 1),
        }
    }
}

/// Every tensor's data offsets are in order, so its byte length is their difference.
pub open spec fn offsets_ordered(src: TensorSourceView) -> bool {
    match src {
        TensorSourceView::Consolidated(tensors) => forall|i: int|
            0 <= i < tensors.len() ==> (#[trigger] tensors[i]).data_offsets.0 <= tensors[i].data_offsets.1,
        TensorSourceView::Sharded(_, shards) => forall|f: int, i: int|
            0 <= f < shards.len() && 0 <= i < shards[f].len() ==> (#[trigger] shards[f][i]).data_offsets.0
                <= shards[f][i].data_offsets.1,
    }
}

enum TensorSource {
    Consolidated(SafetensorsHeader),
    Sharded(ShardIndex, Vec<SafetensorsHeader>),
}

/// The headers of a checkpoint's files: one consolidated file, or the shard index with
/// one header per shard file, in the index's file order.
pub struct ModelTensors {
    source: TensorSource,
}

/// Whether every tensor of `tensors` has its data offsets in order.
fn header_offsets_in_order(tensors: &[TensorInfo]) -> (r: bool)
    ensures
        r == forall|i: int|
            0 <= i < tensors@.len() ==> (#[trigger] tensors@[i]).data_offsets@[0] <= tensors@[i].data_offsets@[1],
{
    let mut i: usize = 0;
    while i < tensors.len()
        invariant
            i <= tensors@.len(),
            forall|k: int| 0 <= k < i ==> (#[trigger] tensors@[k]).data_offsets@[0] <= tensors@[k].data_offsets@[1],
        decreases tensors@.len() - i,
    {
        if tensors[i].data_offsets[0] > tensors[i].data_offsets[1] {
            return false;
        }
        i = i + 1;
    }
    true
}

impl ModelTensors {
    /// The tensor lists the headers hold.
    pub closed spec fn spec_source(self) -> TensorSourceView {
        match self.source {
            TensorSource::Consolidated(h) => TensorSourceView::Consolidated(h.spec_tensors()),
            TensorSource::Sharded(index, headers) => TensorSourceView::Sharded(
                index.spec_index(),
                headers@.map_values(|h: SafetensorsHeader| h.spec_tensors()),
            ),
        }
    }

    /// A sharded checkpoint has one header per shard file.
    #[verifier::type_invariant]
    closed spec fn one_header_per_shard(self) -> bool {
        match self.source {
            TensorSource::Consolidated(_) => true,
            TensorSource::Sharded(index, headers) => headers@.len() == index.spec_files().len(),
        }
    }

    /// The tensors of one consolidated file.
    pub fn consolidated(header: SafetensorsHeader) -> (r: Self)
        ensures
            r.spec_source() == TensorSourceView::Consolidated(header.spec_tensors()),
    {
        ModelTensors { source: TensorSource::Consolidated(header) }
    }

    /// The tensors of a sharded checkpoint, `headers` holding one header per file of
    /// the index in its order; refused when a shard lacks a tensor the index puts there.
    pub fn sharded(index: ShardIndex, headers: Vec<SafetensorsHeader>) -> (r: Result<Self, TensorLookupError>)
        requires
            headers@.len() == index.spec_files().len(),
        ensures
            (forall|k: int|
                0 <= k < index.spec_index().len() ==> find_tensor(
                    headers@[#[trigger] index.spec_index()[k].1 as int].spec_tensors(),
                    index.spec_index()[k].0,
                    0,
                ) is Some) ==> (r matches Ok(t) && t.spec_source() == TensorSourceView::Sharded(
                index.spec_index(),
                headers@.map_values(|h: SafetensorsHeader| h.spec_tensors()),
            )),
            !(forall|k: int|
                0 <= k < index.spec_index().len() ==> find_tensor(
                    headers@[#[trigger] index.spec_index()[k].1 as int].spec_tensors(),
                    index.spec_index()[k].0,
                    0,
                ) is Some) ==> r == Err::<Self, TensorLookupError>(TensorLookupError::MissingTensor),
    {
        match check_shard_tensors(&index, headers.as_slice()) {
            Ok(()) => Ok(ModelTensors { source: TensorSource::Sharded(index, headers) }),
            Err(e) => Err(e),
        }
    }

    /// The header of file `f`: the one file of a consolidated checkpoint, or shard `f`.
    pub fn header(&self, f: usize) -> (r: Option<&SafetensorsHeader>)
        ensures
            match self.spec_source() {
                TensorSourceView::Consolidated(tensors) => if f == 0 {
                    r matches Some(h) && h.spec_tensors() == tensors
                } else {
                    r is None
                },
                TensorSourceView::Sharded(_, shards) => if (f as int) < shards.len() {
                    r matches Some(h) && h.spec_tensors() == shards[f as int]
                } else {
                    r is None
                },
            },
    {
        match &self.source {
            TensorSource::Consolidated(h) => if f == 0 {
                Some(h)
            } else {
                None
            },
            TensorSource::Sharded(_, headers) => if f < headers.len() {
                Some(&headers[f])
            } else {
                None
            },
        }
    }

    /// The number of files: one, or the number of shards.
    pub fn file_count(&self) -> (r: usize)
        ensures
            r == match self.spec_source() {
                TensorSourceView::Consolidated(_) => 1nat,
                TensorSourceView::Sharded(_, shards) => shards.len(),
            },
    {
        match &self.source {
            TensorSource::Consolidated(_) => 1,
            TensorSource::Sharded(_, headers) => headers.len(),
        }
    }

    /// Whether every tensor's data offsets are in order.
    pub fn offsets_in_order(&self) -> (r: bool)
        ensures
            r == offsets_ordered(self.spec_source()),
    {
        match &self.source {
            TensorSource::Consolidated(h) => {
                let tensors = h.tensors();
                let ok = header_offsets_in_order(tensors);
                proof {
                    let view = h.spec_tensors();
                    assert(tensors@.map_values(|t: TensorInfo| t@) == view);
                    if !ok {
                        let i = choose|i: int|
                            0 <= i < tensors@.len() && !(tensors@[i].data_offsets@[0] <= tensors@[i].data_offsets@[1]);
                        assert(view[i] == tensors@[i]@);
                    }
                    if ok {
                        assert forall|i: int| 0 <= i < view.len() implies (#[trigger] view[i]).data_offsets.0
                            <= view[i].data_offsets.1 by {
                            assert(view[i] == tensors@[i]@);
                        }
                    }
                }
                ok
            },
            TensorSource::Sharded(index, headers) => {
                let ghost shards = headers@.map_values(|h: SafetensorsHeader| h.spec_tensors());
                let mut f: usize = 0;
                while f < headers.len()
                    invariant
                        shards == headers@.map_values(|h: SafetensorsHeader| h.spec_tensors()),
                        self.spec_source() == TensorSourceView::Sharded(index.spec_index(), shards),
                        f <= headers@.len(),
                        forall|g: int, i: int|
                            0 <= g < f && 0 <= i < shards[g].len() ==> (#[trigger] shards[g][i]).data_offsets.0
                                <= shards[g][i].data_offsets.1,
                    decreases headers@.len() - f,
                {
                    let tensors = headers[f].tensors();
                    let ok = header_offsets_in_order(tensors);
                    proof {
                        assert(tensors@.map_values(|t: TensorInfo| t@) == shards[f as int]);
                        if !ok {
                            let i = choose|i: int|
                                0 <= i < tensors@.len() && !(tensors@[i].data_offsets@[0]
                                    <= tensors@[i].data_offsets@[1]);
                            assert(shards[f as int][i] == tensors@[i]@);
                            assert(0 <= i < shards[f as int].len());
                            assert(!(shards[f as int][i].data_offsets.0 <= shards[f as int][i].data_offsets.1));
                        }
                    }
                    if !ok {
                        return false;
                    }
                    proof {
                        assert forall|g: int, i: int|
                            0 <= g < f + 1 && 0 <= i < shards[g].len() implies (#[trigger] shards[g][i]).data_offsets.0
                            <= shards[g][i].data_offsets.1 by {
                            if g == f {
                                assert(shards[g][i] == tensors@[i]@);
                            }
                        }
                    }
                    f = f + 1;
                }
                true
            },
        }
    }

    /// The shard and the tensor that `name` stands for: the tensor of that name, else
    /// of one of its aliases; `None` when it stands for none.
    pub fn tensor_opt(&self, name: &str) -> (r: Result<Option<(usize, &TensorInfo)>, TensorLookupError>)
        ensures
            match source_lookup(self.spec_source(), name@) {
                Ok(None) => r matches Ok(None),
                Ok(Some((f, t))) => r matches Ok(Some((g, x))) && g == f && x@ == t,
                Err(e) => r == Err::<Option<(usize, &TensorInfo)>, TensorLookupError>(e),
            },
    {
        proof {
            use_type_invariant(self);
        }
        match &self.source {
            TensorSource::Consolidated(h) => match h.resolve_tensor(name) {
                Some(t) => Ok(Some((0, t))),
                None => Ok(None),
            },
            TensorSource::Sharded(index, headers) => {
                let found = sharded_tensor(index, headers.as_slice(), name);
                proof {
                    let shards = headers@.map_values(|h: SafetensorsHeader| h.spec_tensors());
                    if let Some(n) = spec_resolve_tensor_name(index.spec_index(), name@) {
                        if let Some(f) = shard_of(index.spec_index(), n, index.spec_index().len() as int) {
                            assert(shards[f as int] == headers@[f as int].spec_tensors());
                        }
                    }
                }
                found
            },
        }
    }

    /// The shard and the tensor that `name` stands for, or why there is none.
    pub fn tensor(&self, name: &str) -> (r: Result<(usize, &TensorInfo), TensorLookupError>)
        ensures
            match source_tensor(self.spec_source(), name@) {
                Ok((f, t)) => r matches Ok((g, x)) && g == f && x@ == t,
                Err(e) => r == Err::<(usize, &TensorInfo), TensorLookupError>(e),
            },
    {
        match self.tensor_opt(name) {
            Ok(Some(found)) => Ok(found),
            Ok(None) => Err(TensorLookupError::MissingTensor),
            Err(e) => Err(e),
        }
    }

    /// The tensor of the first of `names` that stands for one.
    pub fn first_existing_tensor(&self, names: &[&str]) -> (r: Result<(usize, &TensorInfo), TensorLookupError>)
        ensures
            match source_first_existing(self.spec_source(), names@.map_values(|n: &str| n@), 0) {
                Ok((f, t)) => r matches Ok((g, x)) && g == f && x@ == t,
                Err(e) => r == Err::<(usize, &TensorInfo), TensorLookupError>(e),
            },
    {
        let ghost wanted = names@.map_values(|n: &str| n@);
        let mut j: usize = 0;
        while j < names.len()
            invariant
                wanted == names@.map_values(|n: &str| n@),
                j <= names@.len(),
                source_first_existing(self.spec_source(), wanted, j as int) == source_first_existing(
                    self.spec_source(),
                    wanted,
                    0,
                ),
            decreases names@.len() - j,
        {
            proof {
                assert(wanted[j as int] == names@[j as int]@);
            }
            match self.tensor(names[j]) {
                Ok(found) => {
                    return Ok(found);
                },
                Err(_) => {},
            }
            j = j + 1;
        }
        Err(TensorLookupError::NoneExist)
    }
}

// ---------------------------------------------------------------------------
// The Qwen3.5 weight layout
// ---------------------------------------------------------------------------

/// Why a checkpoint does not have the Qwen3.5 weight layout.
#[derive(Debug, Clone, PartialEq, Eq)]
pub enum WeightLayoutError {
    /// The configuration is not a Qwen3.5 text configuration.
    NotQwen35,
    /// A tensor is missing or its shard lacks it.
    Tensor(TensorLookupError),
    /// A tensor has another shape, a layer index is out of range, or the
    /// linear-attention parameters are missing.
    Model(ModelError),
}

/// A tensor's layout as plain values: name, dtype, shape and byte length.
pub type LayoutView = (Seq<char>, DType, Seq<usize>, u64);

impl View for Qwen35TensorLayout {
    type V = LayoutView;

    open spec fn view(&self) -> LayoutView {
        (self.name@, self.dtype, self.shape@, self.byte_len)
    }
}

/// The layout of tensor `t`.
pub open spec fn layout_of(t: SpecTensorInfo) -> LayoutView {
    (t.name, t.dtype, t.shape, (t.data_offsets.1 - t.data_offsets.0) as u64)
}

/// The layout of the tensor `name` stands for, which must have the shape `expected`.
pub open spec fn spec_tensor_layout(src: TensorSourceView, name: Seq<char>, expected: Seq<usize>) -> Result<
    LayoutView,
    WeightLayoutError,
> {
    match source_tensor(src, name) {
        Err(e) => Err(WeightLayoutError::Tensor(e)),
        Ok((_, t)) => if t.shape == expected {
            Ok(layout_of(t))
        } else {
            Err(WeightLayoutError::Model(ModelError::ShapeMismatch))
        },
    }
}

/// The layouts of the first `n` wanted tensors, each a name with its expected shape,
/// or the first fault.
pub open spec fn spec_tensor_layouts(src: TensorSourceView, wanted: Seq<(Seq<char>, Seq<usize>)>, n: int) -> Result<
    Seq<LayoutView>,
    WeightLayoutError,
>
    decreases n,
{
    if n <= 0 {
        Ok(seq![])
    } else {
        match spec_tensor_layouts(src, wanted, n - 1) {
            Err(e) => Err(e),
            Ok(ls) => match spec_tensor_layout(src, wanted[n - 1].0, wanted[n - 1].1) {
                Err(e) => Err(e),
                Ok(l) => Ok(ls.push(l)),
            },
        }
    }
}

proof fn lemma_tensor_layouts_len(src: TensorSourceView, wanted: Seq<(Seq<char>, Seq<usize>)>, n: int)
    requires
        n >= 0,
    ensures
        spec_tensor_layouts(src, wanted, n) matches Ok(ls) ==> ls.len() == n,
    decreases n,
{
    if n > 0 {
        lemma_tensor_layouts_len(src, wanted, n - 1);
    }
}

proof fn lemma_tensor_layouts_error_sticks(src: TensorSourceView, wanted: Seq<(Seq<char>, Seq<usize>)>, k: int, n: int)
    requires
        k <= n,
        spec_tensor_layouts(src, wanted, k) is Err,
    ensures
        spec_tensor_layouts(src, wanted, n) == spec_tensor_layouts(src, wanted, k),
    decreases n - k,
{
    if k < n {
        lemma_tensor_layouts_error_sticks(src, wanted, k, n - 1);
    }
}

impl ModelTensors {
    /// The layout of the tensor `name` stands for, checked against `expected`.
    pub fn qwen35_tensor_layout(&self, name: &str, expected: &[usize]) -> (r: Result<Qwen35TensorLayout, WeightLayoutError>)
        requires
            offsets_ordered(self.spec_source()),
        ensures
            match spec_tensor_layout(self.spec_source(), name@, expected@) {
                Ok(l) => r matches Ok(x) && x@ == l,
                Err(e) => r matches Err(x) && x == e,
            },
    {
        let (f, tensor) = match self.tensor(name) {
            Ok(found) => found,
            Err(e) => {
                return Err(WeightLayoutError::Tensor(e));
            },
        };
        match crate::model::expect_shape(tensor, expected) {
            Ok(()) => {},
            Err(e) => {
                return Err(WeightLayoutError::Model(e));
            },
        }
        proof {
            self.lemma_found_tensor_ordered(name@);
        }
        let shape = copy_shape(tensor.shape.as_slice());
        Ok(Qwen35TensorLayout {
            name: crate::text::string_of(tensor.name.as_str()),
            dtype: tensor.dtype,
            shape,
            byte_len: tensor.byte_len(),
        })
    }

    /// A tensor a name stands for has its offsets in order when all tensors do.
    proof fn lemma_found_tensor_ordered(self, name: Seq<char>)
        requires
            offsets_ordered(self.spec_source()),
        ensures
            source_tensor(self.spec_source(), name) matches Ok((_, t)) ==> t.data_offsets.0 <= t.data_offsets.1,
    {
        let src = self.spec_source();
        match src {
            TensorSourceView::Consolidated(tensors) => {
                if let Some(i) = resolve_in_file(tensors, name) {
                    crate::safetensors_file::lemma_find_tensor_bounds(tensors, name, 0);
                    crate::safetensors_file::lemma_find_any_tensor_bounds(
                        tensors,
                        crate::safetensors::spec_model_tensor_aliases(name),
                        0,
                    );
                    assert(tensors[i].data_offsets.0 <= tensors[i].data_offsets.1);
                }
            },
            TensorSourceView::Sharded(index, shards) => {
                if let Some(n) = spec_resolve_tensor_name(index, name) {
                    if let Some(f) = shard_of(index, n, index.len() as int) {
                        if (f as int) < shards.len() {
                            crate::safetensors_file::lemma_find_tensor_bounds(shards[f as int], n, 0);
                            if let Some(i) = find_tensor(shards[f as int], n, 0) {
                                assert(shards[f as int][i].data_offsets.0 <= shards[f as int][i].data_offsets.1);
                            }
                        }
                    }
                }
            },
        }
    }

    /// The layouts of the wanted tensors, each a name with its expected shape.
    pub fn qwen35_tensor_layouts(&self, wanted: &[(String, Vec<usize>)]) -> (r: Result<
        Vec<Qwen35TensorLayout>,
        WeightLayoutError,
    >)
        requires
            offsets_ordered(self.spec_source()),
        ensures
            match spec_tensor_layouts(self.spec_source(), wanted_view(wanted@), wanted@.len() as int) {
                Ok(ls) => r matches Ok(v) && layouts_view(v@) == ls,
                Err(e) => r matches Err(x) && x == e,
            },
    {
        let ghost src = self.spec_source();
        let ghost want = wanted_view(wanted@);
        let mut out: Vec<Qwen35TensorLayout> = Vec::new();
        proof {
            assert(layouts_view(out@) =~= Seq::<LayoutView>::empty());
        }
        let mut k: usize = 0;
        while k < wanted.len()
            invariant
                src == self.spec_source(),
                offsets_ordered(src),
                want == wanted_view(wanted@),
                k <= wanted@.len(),
                spec_tensor_layouts(src, want, k as int) == Ok::<Seq<LayoutView>, WeightLayoutError>(layouts_view(out@)),
            decreases wanted@.len() - k,
        {
            proof {
                assert(want[k as int] == (wanted@[k as int].0@, wanted@[k as int].1@));
            }
            match self.qwen35_tensor_layout(wanted[k].0.as_str(), wanted[k].1.as_slice()) {
                Ok(l) => {
                    out.push(l);
                    proof {
                        assert(layouts_view(out@) =~= spec_tensor_layouts(src, want, k as int)->Ok_0.push(l@));
                    }
                },
                Err(e) => {
                    proof {
                        lemma_tensor_layouts_error_sticks(src, want, k + 1, wanted@.len() as int);
                    }
                    return Err(e);
                },
            }
            k = k + 1;
        }
        Ok(out)
    }
}

/// A copy of a shape.
fn copy_shape(shape: &[usize]) -> (r: Vec<usize>)
    ensures
        r@ == shape@,
{
    let mut out: Vec<usize> = Vec::new();
    let mut i: usize = 0;
    while i < shape.len()
        invariant
            i <= shape@.len(),
            out@ == shape@.take(i as int),
        decreases shape@.len() - i,
    {
        out.push(shape[i]);
        proof {
            assert(shape@.take(i + 1) =~= shape@.take(i as int).push(shape@[i as int]));
        }
        i = i + 1;
    }
    proof {
        assert(shape@.take(shape@.len() as int) =~= shape@);
    }
    out
}

/// The wanted tensors as plain values.
pub open spec fn wanted_view(wanted: Seq<(String, Vec<usize>)>) -> Seq<(Seq<char>, Seq<usize>)> {
    wanted.map_values(|w: (String, Vec<usize>)| (w.0@, w.1@))
}

/// Layouts as plain values.
pub open spec fn layouts_view(ls: Seq<Qwen35TensorLayout>) -> Seq<LayoutView> {
    ls.map_values(|l: Qwen35TensorLayout| l@)
}

/// The name prefix of decoder layer `layer`'s tensors.
pub open spec fn qwen35_layer_prefix(layer: usize) -> Seq<char> {
    "model.language_model.layers."@ + decimal(layer as nat)
}

/// The name of a tensor of decoder layer `layer`.
fn layer_tensor_name(layer: usize, suffix: &str) -> (r: String)
    ensures
        r@ == qwen35_layer_prefix(layer) + suffix@,
{
    let mut out = String::new();
    push_str(&mut out, "model.language_model.layers.");
    push_decimal(&mut out, layer as u128);
    push_str(&mut out, suffix);
    proof {
        assert(out@ =~= qwen35_layer_prefix(layer) + suffix@);
    }
    out
}

/// A shape of one dimension.
fn shape1(a: usize) -> (r: Vec<usize>)
    ensures
        r@ == seq![a],
{
    let mut v: Vec<usize> = Vec::new();
    v.push(a);
    proof {
        assert(v@ =~= seq![a]);
    }
    v
}

/// A shape of two dimensions.
fn shape2(a: usize, b: usize) -> (r: Vec<usize>)
    ensures
        r@ == seq![a, b],
{
    let mut v: Vec<usize> = Vec::new();
    v.push(a);
    v.push(b);
    proof {
        assert(v@ =~= seq![a, b]);
    }
    v
}

/// A shape of three dimensions.
fn shape3(a: usize, b: usize, c: usize) -> (r: Vec<usize>)
    ensures
        r@ == seq![a, b, c],
{
    let mut v: Vec<usize> = Vec::new();
    v.push(a);
    v.push(b);
    v.push(c);
    proof {
        assert(v@ =~= seq![a, b, c]);
    }
    v
}

/// The feed-forward tensors of layer `layer`: gate, up and down projections.
pub open spec fn mlp_wanted(dims: TextDims, layer: usize) -> Seq<(Seq<char>, Seq<usize>)> {
    let p = qwen35_layer_prefix(layer);
    seq![
        (p + ".mlp.gate_proj.weight"@, seq![dims.hidden_dim, dims.dim]),
        (p + ".mlp.up_proj.weight"@, seq![dims.hidden_dim, dims.dim]),
        (p + ".mlp.down_proj.weight"@, seq![dims.dim, dims.hidden_dim]),
    ]
}

/// The full-attention tensors of layer `layer`: the query projection (queries and
/// gates, twice the query width), key, value and output projections, and the query and
/// key norms.
pub open spec fn full_wanted(dims: TextDims, layer: usize) -> Seq<(Seq<char>, Seq<usize>)> {
    let p = qwen35_layer_prefix(layer);
    let q_dim = (dims.n_heads * dims.head_dim) as usize;
    let kv_dim = (dims.n_kv_heads * dims.head_dim) as usize;
    seq![
        (p + ".self_attn.q_proj.weight"@, seq![(q_dim * 2) as usize, dims.dim]),
        (p + ".self_attn.k_proj.weight"@, seq![kv_dim, dims.dim]),
        (p + ".self_attn.v_proj.weight"@, seq![kv_dim, dims.dim]),
        (p + ".self_attn.o_proj.weight"@, seq![dims.dim, q_dim]),
        (p + ".self_attn.q_norm.weight"@, seq![dims.head_dim]),
        (p + ".self_attn.k_norm.weight"@, seq![dims.head_dim]),
    ]
}

/// The fused query/key/value width of the linear-attention layers.
pub open spec fn linear_qkv_dim(p: Qwen35TextParams) -> usize {
    (p.linear_num_key_heads * p.linear_key_head_dim * 2 + p.linear_num_value_heads * p.linear_value_head_dim) as usize
}

/// The value width of the linear-attention layers.
pub open spec fn linear_value_dim(p: Qwen35TextParams) -> usize {
    (p.linear_num_value_heads * p.linear_value_head_dim) as usize
}

/// The linear-attention tensors of layer `layer`.
pub open spec fn linear_wanted(dims: TextDims, params: Qwen35TextParams, layer: usize) -> Seq<(Seq<char>, Seq<usize>)> {
    let p = qwen35_layer_prefix(layer);
    let qkv = linear_qkv_dim(params);
    let value = linear_value_dim(params);
    let heads = params.linear_num_value_heads;
    seq![
        (p + ".linear_attn.in_proj_qkv.weight"@, seq![qkv, dims.dim]),
        (p + ".linear_attn.in_proj_z.weight"@, seq![value, dims.dim]),
        (p + ".linear_attn.in_proj_a.weight"@, seq![heads, dims.dim]),
        (p + ".linear_attn.in_proj_b.weight"@, seq![heads, dims.dim]),
        (p + ".linear_attn.conv1d.weight"@, seq![qkv, 1usize, params.linear_conv_kernel_dim]),
        (p + ".linear_attn.A_log"@, seq![heads]),
        (p + ".linear_attn.dt_bias"@, seq![heads]),
        (p + ".linear_attn.norm.weight"@, seq![params.linear_value_head_dim]),
        (p + ".linear_attn.out_proj.weight"@, seq![dims.dim, value]),
    ]
}

impl View for Qwen35MlpWeightLayout {
    type V = Seq<LayoutView>;

    open spec fn view(&self) -> Seq<LayoutView> {
        seq![self.gate_proj@, self.up_proj@, self.down_proj@]
    }
}

impl View for Qwen35FullAttentionWeightLayout {
    type V = Seq<LayoutView>;

    open spec fn view(&self) -> Seq<LayoutView> {
        seq![self.q_proj@, self.k_proj@, self.v_proj@, self.o_proj@, self.q_norm@, self.k_norm@]
    }
}

impl View for Qwen35LinearAttentionWeightLayout {
    type V = Seq<LayoutView>;

    open spec fn view(&self) -> Seq<LayoutView> {
        seq![
            self.in_proj_qkv@,
            self.in_proj_z@,
            self.in_proj_a@,
            self.in_proj_b@,
            self.conv1d@,
            self.a_log@,
            self.dt_bias@,
            self.norm@,
            self.out_proj@,
        ]
    }
}

impl View for Qwen35AttentionWeightLayout {
    /// Whether the layer is a full-attention one, and its tensors' layouts.
    type V = (bool, Seq<LayoutView>);

    open spec fn view(&self) -> (bool, Seq<LayoutView>) {
        match self {
            Qwen35AttentionWeightLayout::Full(f) => (true, f@),
            Qwen35AttentionWeightLayout::Linear(l) => (false, l@),
        }
    }
}

/// A layer's layout as plain values: its index, input norm, attention, post-attention
/// norm and feed-forward layouts.
pub type LayerView = (usize, LayoutView, (bool, Seq<LayoutView>), LayoutView, Seq<LayoutView>);

impl View for Qwen35LayerWeightLayout {
    type V = LayerView;

    open spec fn view(&self) -> LayerView {
        (self.layer, self.input_layernorm@, self.attention@, self.post_attention_layernorm@, self.mlp@)
    }
}

/// The dimensions of the Qwen3.5 tensors fit `usize` for every layer: the query and
/// key/value widths for a full-attention layer, the linear-attention widths for a
/// linear-attention one.
pub open spec fn qwen35_layout_fits(core: TextConfigCore) -> bool {
    forall|l: int| 0 <= l < core.dims.n_layers ==> #[trigger] layer_fits(core, l)
}

/// The widths of layer `l`'s tensors fit `usize`.
pub open spec fn layer_fits(core: TextConfigCore, l: int) -> bool {
    if l < core.layer_kinds.spec_len() && core.layer_kinds.spec_kind(l) == TextLayerKind::FullAttention {
        &&& core.dims.n_heads * core.dims.head_dim * 2 <= usize::MAX
        &&& core.dims.n_kv_heads * core.dims.head_dim <= usize::MAX
    } else if l < core.layer_kinds.spec_len() {
        match core.qwen3_5 {
            Some(p) => p.linear_num_key_heads * p.linear_key_head_dim * 2 + p.linear_num_value_heads
                * p.linear_value_head_dim <= usize::MAX,
            None => true,
        }
    } else {
        true
    }
}

/// The layout of layer `layer`'s attention: its kind and its tensors' layouts.
pub open spec fn spec_attention_layout(src: TensorSourceView, core: TextConfigCore, layer: usize) -> Result<
    (bool, Seq<LayoutView>),
    WeightLayoutError,
> {
    if layer >= core.layer_kinds.spec_len() {
        Err(WeightLayoutError::Model(ModelError::LayerIndexOutOfRange { layer, len: core.layer_kinds.spec_len() }))
    } else if core.layer_kinds.spec_kind(layer as int) == TextLayerKind::FullAttention {
        match spec_tensor_layouts(src, full_wanted(core.dims, layer), 6) {
            Ok(ls) => Ok((true, ls)),
            Err(e) => Err(e),
        }
    } else {
        match core.qwen3_5 {
            None => Err(WeightLayoutError::Model(ModelError::MissingQwenParams)),
            Some(p) => match spec_tensor_layouts(src, linear_wanted(core.dims, p, layer), 9) {
                Ok(ls) => Ok((false, ls)),
                Err(e) => Err(e),
            },
        }
    }
}

/// The layout of layer `layer`, checked in order: input norm, attention,
/// post-attention norm, feed-forward.
#[verifier::opaque]
pub open spec fn spec_layer_layout(src: TensorSourceView, core: TextConfigCore, layer: usize) -> Result<
    LayerView,
    WeightLayoutError,
> {
    let p = qwen35_layer_prefix(layer);
    match spec_tensor_layout(src, p + ".input_layernorm.weight"@, seq![core.dims.dim]) {
        Err(e) => Err(e),
        Ok(input) => match spec_attention_layout(src, core, layer) {
            Err(e) => Err(e),
            Ok(attention) => match spec_tensor_layout(src, p + ".post_attention_layernorm.weight"@, seq![core.dims.dim]) {
                Err(e) => Err(e),
                Ok(post) => match spec_tensor_layouts(src, mlp_wanted(core.dims, layer), 3) {
                    Err(e) => Err(e),
                    Ok(mlp) => Ok((layer, input, attention, post, mlp)),
                },
            },
        },
    }
}

/// The feed-forward tensors of layer `layer`, each with its expected shape.
fn mlp_wanted_list(dims: &TextDims, layer: usize) -> (r: Vec<(String, Vec<usize>)>)
    ensures
        wanted_view(r@) == mlp_wanted(*dims, layer),
{
    let mut wanted: Vec<(String, Vec<usize>)> = Vec::new();
    wanted.push((layer_tensor_name(layer, ".mlp.gate_proj.weight"), shape2(dims.hidden_dim, dims.dim)));
    wanted.push((layer_tensor_name(layer, ".mlp.up_proj.weight"), shape2(dims.hidden_dim, dims.dim)));
    wanted.push((layer_tensor_name(layer, ".mlp.down_proj.weight"), shape2(dims.dim, dims.hidden_dim)));
    proof {
        assert(wanted_view(wanted@) =~= mlp_wanted(*dims, layer));
    }
    wanted
}

/// The full-attention tensors of layer `layer`, each with its expected shape.
fn full_wanted_list(dims: &TextDims, layer: usize) -> (r: Vec<(String, Vec<usize>)>)
    requires
        dims.n_heads * dims.head_dim * 2 <= usize::MAX,
        dims.n_kv_heads * dims.head_dim <= usize::MAX,
    ensures
        wanted_view(r@) == full_wanted(*dims, layer),
{
    assert(dims.n_heads * dims.head_dim <= usize::MAX) by (nonlinear_arith)
        requires
            dims.n_heads * dims.head_dim * 2 <= usize::MAX,
    ;
    let q_dim = dims.n_heads * dims.head_dim;
    let kv_dim = dims.n_kv_heads * dims.head_dim;
    let mut wanted: Vec<(String, Vec<usize>)> = Vec::new();
    wanted.push((layer_tensor_name(layer, ".self_attn.q_proj.weight"), shape2(q_dim * 2, dims.dim)));
    wanted.push((layer_tensor_name(layer, ".self_attn.k_proj.weight"), shape2(kv_dim, dims.dim)));
    wanted.push((layer_tensor_name(layer, ".self_attn.v_proj.weight"), shape2(kv_dim, dims.dim)));
    wanted.push((layer_tensor_name(layer, ".self_attn.o_proj.weight"), shape2(dims.dim, q_dim)));
    wanted.push((layer_tensor_name(layer, ".self_attn.q_norm.weight"), shape1(dims.head_dim)));
    wanted.push((layer_tensor_name(layer, ".self_attn.k_norm.weight"), shape1(dims.head_dim)));
    proof {
        assert(wanted_view(wanted@) =~= full_wanted(*dims, layer));
    }
    wanted
}

/// The linear-attention tensors of layer `layer`, each with its expected shape.
fn linear_wanted_list(dims: &TextDims, params: Qwen35TextParams, layer: usize) -> (r: Vec<(String, Vec<usize>)>)
    requires
        params.linear_num_key_heads * params.linear_key_head_dim * 2 + params.linear_num_value_heads
            * params.linear_value_head_dim <= usize::MAX,
    ensures
        wanted_view(r@) == linear_wanted(*dims, params, layer),
{
    let qkv_dim = params.qkv_dim();
    assert(params.linear_num_value_heads * params.linear_value_head_dim <= usize::MAX) by (nonlinear_arith)
        requires
            params.linear_num_key_heads * params.linear_key_head_dim * 2 + params.linear_num_value_heads
                * params.linear_value_head_dim <= usize::MAX,
    ;
    let value_dim = params.value_dim();
    let value_heads = params.linear_num_value_heads;
    let mut wanted: Vec<(String, Vec<usize>)> = Vec::new();
    wanted.push((layer_tensor_name(layer, ".linear_attn.in_proj_qkv.weight"), shape2(qkv_dim, dims.dim)));
    wanted.push((layer_tensor_name(layer, ".linear_attn.in_proj_z.weight"), shape2(value_dim, dims.dim)));
    wanted.push((layer_tensor_name(layer, ".linear_attn.in_proj_a.weight"), shape2(value_heads, dims.dim)));
    wanted.push((layer_tensor_name(layer, ".linear_attn.in_proj_b.weight"), shape2(value_heads, dims.dim)));
    wanted.push(
        (layer_tensor_name(layer, ".linear_attn.conv1d.weight"), shape3(qkv_dim, 1, params.linear_conv_kernel_dim)),
    );
    wanted.push((layer_tensor_name(layer, ".linear_attn.A_log"), shape1(value_heads)));
    wanted.push((layer_tensor_name(layer, ".linear_attn.dt_bias"), shape1(value_heads)));
    wanted.push((layer_tensor_name(layer, ".linear_attn.norm.weight"), shape1(params.linear_value_head_dim)));
    wanted.push((layer_tensor_name(layer, ".linear_attn.out_proj.weight"), shape2(dims.dim, value_dim)));
    proof {
        assert(wanted_view(wanted@) =~= linear_wanted(*dims, params, layer));
    }
    wanted
}

/// Pops the last layout of `v`.
fn pop_layout(v: &mut Vec<Qwen35TensorLayout>) -> (r: Qwen35TensorLayout)
    requires
        old(v)@.len() > 0,
    ensures
        r@ == layouts_view(old(v)@).last(),
        layouts_view(final(v)@) == layouts_view(old(v)@).drop_last(),
        final(v)@.len() == old(v)@.len() - 1,
{
    let ghost before = layouts_view(v@);
    match v.pop() {
        Some(l) => {
            proof {
                assert(layouts_view(v@) =~= before.drop_last());
            }
            l
        },
        None => {
            proof {
                assert(false);
            }
            Qwen35TensorLayout { name: String::new(), dtype: DType::F32, shape: Vec::new(), byte_len: 0 }
        },
    }
}

impl ModelTensors {
    /// The feed-forward layout of layer `layer`.
    fn qwen35_mlp_weight_layout(&self, dims: &TextDims, layer: usize) -> (r: Result<Qwen35MlpWeightLayout, WeightLayoutError>)
        requires
            offsets_ordered(self.spec_source()),
        ensures
            match spec_tensor_layouts(self.spec_source(), mlp_wanted(*dims, layer), 3) {
                Ok(ls) => r matches Ok(m) && m@ == ls,
                Err(e) => r matches Err(x) && x == e,
            },
    {
        let wanted = mlp_wanted_list(dims, layer);
        proof {
            assert(wanted@.len() == wanted_view(wanted@).len());
            assert(mlp_wanted(*dims, layer).len() == 3);
            lemma_tensor_layouts_len(self.spec_source(), mlp_wanted(*dims, layer), 3);
        }
        let mut v = match self.qwen35_tensor_layouts(wanted.as_slice()) {
            Ok(v) => v,
            Err(e) => {
                return Err(e);
            },
        };
        let ghost ls = layouts_view(v@);
        let down_proj = pop_layout(&mut v);
        let up_proj = pop_layout(&mut v);
        let gate_proj = pop_layout(&mut v);
        let m = Qwen35MlpWeightLayout { gate_proj, up_proj, down_proj };
        proof {
            assert(m@ =~= ls);
        }
        Ok(m)
    }

    /// The full-attention layout of layer `layer`.
    fn qwen35_full_attention_weight_layout(&self, dims: &TextDims, layer: usize) -> (r: Result<
        Qwen35FullAttentionWeightLayout,
        WeightLayoutError,
    >)
        requires
            offsets_ordered(self.spec_source()),
            dims.n_heads * dims.head_dim * 2 <= usize::MAX,
            dims.n_kv_heads * dims.head_dim <= usize::MAX,
        ensures
            match spec_tensor_layouts(self.spec_source(), full_wanted(*dims, layer), 6) {
                Ok(ls) => r matches Ok(m) && m@ == ls,
                Err(e) => r matches Err(x) && x == e,
            },
    {
        let wanted = full_wanted_list(dims, layer);
        proof {
            assert(wanted@.len() == wanted_view(wanted@).len());
            assert(full_wanted(*dims, layer).len() == 6);
            lemma_tensor_layouts_len(self.spec_source(), full_wanted(*dims, layer), 6);
        }
        let mut v = match self.qwen35_tensor_layouts(wanted.as_slice()) {
            Ok(v) => v,
            Err(e) => {
                return Err(e);
            },
        };
        let ghost ls = layouts_view(v@);
        let k_norm = pop_layout(&mut v);
        let q_norm = pop_layout(&mut v);
        let o_proj = pop_layout(&mut v);
        let v_proj = pop_layout(&mut v);
        let k_proj = pop_layout(&mut v);
        let q_proj = pop_layout(&mut v);
        let m = Qwen35FullAttentionWeightLayout { q_proj, k_proj, v_proj, o_proj, q_norm, k_norm };
        proof {
            assert(m@ =~= ls);
        }
        Ok(m)
    }

    /// The linear-attention layout of layer `layer`.
    #[verifier::rlimit(40)]
    fn qwen35_linear_attention_weight_layout(&self, dims: &TextDims, params: Qwen35TextParams, layer: usize) -> (r:
        Result<Qwen35LinearAttentionWeightLayout, WeightLayoutError>)
        requires
            offsets_ordered(self.spec_source()),
            params.linear_num_key_heads * params.linear_key_head_dim * 2 + params.linear_num_value_heads
                * params.linear_value_head_dim <= usize::MAX,
        ensures
            match spec_tensor_layouts(self.spec_source(), linear_wanted(*dims, params, layer), 9) {
                Ok(ls) => r matches Ok(m) && m@ == ls,
                Err(e) => r matches Err(x) && x == e,
            },
    {
        let wanted = linear_wanted_list(dims, params, layer);
        proof {
            assert(wanted@.len() == wanted_view(wanted@).len());
            assert(linear_wanted(*dims, params, layer).len() == 9);
            lemma_tensor_layouts_len(self.spec_source(), linear_wanted(*dims, params, layer), 9);
        }
        let mut v = match self.qwen35_tensor_layouts(wanted.as_slice()) {
            Ok(v) => v,
            Err(e) => {
                return Err(e);
            },
        };
        let ghost ls = layouts_view(v@);
        let out_proj = pop_layout(&mut v);
        let norm = pop_layout(&mut v);
        let dt_bias = pop_layout(&mut v);
        let a_log = pop_layout(&mut v);
        let conv1d = pop_layout(&mut v);
        let in_proj_b = pop_layout(&mut v);
        let in_proj_a = pop_layout(&mut v);
        let in_proj_z = pop_layout(&mut v);
        let in_proj_qkv = pop_layout(&mut v);
        let m = Qwen35LinearAttentionWeightLayout {
            in_proj_qkv,
            in_proj_z,
            in_proj_a,
            in_proj_b,
            conv1d,
            a_log,
            dt_bias,
            norm,
            out_proj,
        };
        proof {
            assert(m@ =~= ls);
        }
        Ok(m)
    }

    /// The layout of decoder layer `layer`: input norm, attention of the layer's kind,
    /// post-attention norm and feed-forward tensors, checked in that order.
    pub fn qwen35_layer_weight_layout(&self, core: &TextConfigCore, layer: usize) -> (r: Result<
        Qwen35LayerWeightLayout,
        WeightLayoutError,
    >)
        requires
            offsets_ordered(self.spec_source()),
            layer_fits(*core, layer as int),
        ensures
            match spec_layer_layout(self.spec_source(), *core, layer) {
                Ok(l) => r matches Ok(x) && x@ == l,
                Err(e) => r matches Err(x) && x == e,
            },
    {
        proof {
            reveal(spec_layer_layout);
        }
        let input_layernorm = match self.qwen35_tensor_layout(
            layer_tensor_name(layer, ".input_layernorm.weight").as_str(),
            shape1(core.dims.dim).as_slice(),
        ) {
            Ok(l) => l,
            Err(e) => {
                return Err(e);
            },
        };
        let kind = match core.layer_kinds.kind(layer) {
            Ok(k) => k,
            Err(e) => {
                return Err(WeightLayoutError::Model(e));
            },
        };
        let attention = match kind {
            TextLayerKind::FullAttention => match self.qwen35_full_attention_weight_layout(&core.dims, layer) {
                Ok(f) => Qwen35AttentionWeightLayout::Full(f),
                Err(e) => {
                    return Err(e);
                },
            },
            TextLayerKind::LinearAttention => match core.qwen3_5 {
                None => {
                    return Err(WeightLayoutError::Model(ModelError::MissingQwenParams));
                },
                Some(params) => match self.qwen35_linear_attention_weight_layout(&core.dims, params, layer) {
                    Ok(l) => Qwen35AttentionWeightLayout::Linear(l),
                    Err(e) => {
                        return Err(e);
                    },
                },
            },
        };
        let post_attention_layernorm = match self.qwen35_tensor_layout(
            layer_tensor_name(layer, ".post_attention_layernorm.weight").as_str(),
            shape1(core.dims.dim).as_slice(),
        ) {
            Ok(l) => l,
            Err(e) => {
                return Err(e);
            },
        };
        let mlp = match self.qwen35_mlp_weight_layout(&core.dims, layer) {
            Ok(m) => m,
            Err(e) => {
                return Err(e);
            },
        };
        Ok(Qwen35LayerWeightLayout { layer, input_layernorm, attention, post_attention_layernorm, mlp })
    }
}

/// The Qwen3.5 weight layout of a checkpoint: embedding, final norm, output
/// projection, and each decoder layer's tensors.
#[derive(Debug, Clone)]
pub struct Qwen35WeightLayout {
    pub embedding: Qwen35TensorLayout,
    pub norm: Qwen35TensorLayout,
    pub output: Qwen35TensorLayout,
    pub layers: Vec<Qwen35LayerWeightLayout>,
}

impl View for Qwen35WeightLayout {
    type V = (LayoutView, LayoutView, LayoutView, Seq<LayerView>);

    open spec fn view(&self) -> (LayoutView, LayoutView, LayoutView, Seq<LayerView>) {
        (self.embedding@, self.norm@, self.output@, self.layers@.map_values(|l: Qwen35LayerWeightLayout| l@))
    }
}

/// The layouts of the first `n` decoder layers, or the first fault.
pub open spec fn spec_layers_layout(src: TensorSourceView, core: TextConfigCore, n: int) -> Result<
    Seq<LayerView>,
    WeightLayoutError,
>
    decreases n,
{
    if n <= 0 {
        Ok(seq![])
    } else {
        match spec_layers_layout(src, core, n - 1) {
            Err(e) => Err(e),
            Ok(ls) => match spec_layer_layout(src, core, (n - 1) as usize) {
                Err(e) => Err(e),
                Ok(l) => Ok(ls.push(l)),
            },
        }
    }
}

proof fn lemma_layers_layout_error_sticks(src: TensorSourceView, core: TextConfigCore, k: int, n: int)
    requires
        k <= n,
        spec_layers_layout(src, core, k) is Err,
    ensures
        spec_layers_layout(src, core, n) == spec_layers_layout(src, core, k),
    decreases n - k,
{
    if k < n {
        lemma_layers_layout_error_sticks(src, core, k, n - 1);
    }
}

/// The Qwen3.5 weight layout, checked in order: the configuration's kind, the
/// embedding, the final norm, the output projection, then each layer.
pub open spec fn spec_weight_layout(src: TensorSourceView, core: TextConfigCore) -> Result<
    (LayoutView, LayoutView, LayoutView, Seq<LayerView>),
    WeightLayoutError,
> {
    if core.model_kind != TextModelKind::Qwen35Text {
        Err(WeightLayoutError::NotQwen35)
    } else {
        match spec_tensor_layout(
            src,
            "model.language_model.embed_tokens.weight"@,
            seq![core.dims.vocab_size, core.dims.dim],
        ) {
            Err(e) => Err(e),
            Ok(embedding) => match spec_tensor_layout(src, "model.language_model.norm.weight"@, seq![core.dims.dim]) {
                Err(e) => Err(e),
                Ok(norm) => match spec_tensor_layout(src, "lm_head.weight"@, seq![core.dims.vocab_size, core.dims.dim]) {
                    Err(e) => Err(e),
                    Ok(output) => match spec_layers_layout(src, core, core.dims.n_layers as int) {
                        Err(e) => Err(e),
                        Ok(layers) => Ok((embedding, norm, output, layers)),
                    },
                },
            },
        }
    }
}

/// Whether the widths of every layer's tensors fit `usize`.
pub fn qwen35_layout_dims_fit(core: &TextConfigCore) -> (r: bool)
    ensures
        r == qwen35_layout_fits(*core),
{
    let mut l: usize = 0;
    while l < core.dims.n_layers
        invariant
            l <= core.dims.n_layers,
            forall|k: int| 0 <= k < l ==> #[trigger] layer_fits(*core, k),
        decreases core.dims.n_layers - l,
    {
        let fits = match core.layer_kinds.kind(l) {
            Err(_) => true,
            Ok(TextLayerKind::FullAttention) => {
                match core.dims.n_heads.checked_mul(core.dims.head_dim) {
                    None => false,
                    Some(q) => q.checked_mul(2).is_some() && core.dims.n_kv_heads.checked_mul(core.dims.head_dim).is_some(),
                }
            },
            Ok(TextLayerKind::LinearAttention) => match core.qwen3_5 {
                None => true,
                Some(p) => match p.linear_num_key_heads.checked_mul(p.linear_key_head_dim) {
                    None => false,
                    Some(k) => match k.checked_mul(2) {
                        None => false,
                        Some(k2) => match p.linear_num_value_heads.checked_mul(p.linear_value_head_dim) {
                            None => false,
                            Some(v) => k2.checked_add(v).is_some(),
                        },
                    },
                },
            },
        };
        proof {
            let d = core.dims;
            if core.layer_kinds.spec_len() > l && core.layer_kinds.spec_kind(l as int) == TextLayerKind::FullAttention {
                if d.n_heads * d.head_dim > usize::MAX {
                    assert(d.n_heads * d.head_dim * 2 > usize::MAX) by (nonlinear_arith)
                        requires
                            d.n_heads * d.head_dim > usize::MAX,
                    ;
                }
            }
            if let Some(p) = core.qwen3_5 {
                if p.linear_num_key_heads * p.linear_key_head_dim > usize::MAX {
                    assert(p.linear_num_key_heads * p.linear_key_head_dim * 2 + p.linear_num_value_heads
                        * p.linear_value_head_dim > usize::MAX) by (nonlinear_arith)
                        requires
                            p.linear_num_key_heads * p.linear_key_head_dim > usize::MAX,
                    ;
                }
                if p.linear_num_value_heads * p.linear_value_head_dim > usize::MAX {
                    assert(p.linear_num_key_heads * p.linear_key_head_dim * 2 + p.linear_num_value_heads
                        * p.linear_value_head_dim > usize::MAX) by (nonlinear_arith)
                        requires
                            p.linear_num_value_heads * p.linear_value_head_dim > usize::MAX,
                    ;
                }
            }
        }
        if !fits {
            proof {
                assert(!layer_fits(*core, l as int));
            }
            return false;
        }
        l = l + 1;
    }
    true
}

impl ModelTensors {
    /// The Qwen3.5 weight layout of the checkpoint, with every tensor checked against
    /// the shape `core` asks for.
    pub fn qwen35_weight_layout(&self, core: &TextConfigCore) -> (r: Result<Qwen35WeightLayout, WeightLayoutError>)
        requires
            offsets_ordered(self.spec_source()),
            qwen35_layout_fits(*core),
        ensures
            match spec_weight_layout(self.spec_source(), *core) {
                Ok(l) => r matches Ok(x) && x@ == l,
                Err(e) => r matches Err(x) && x == e,
            },
    {
        if core.model_kind != TextModelKind::Qwen35Text {
            return Err(WeightLayoutError::NotQwen35);
        }
        let embedding = match self.qwen35_tensor_layout(
            "model.language_model.embed_tokens.weight",
            shape2(core.dims.vocab_size, core.dims.dim).as_slice(),
        ) {
            Ok(l) => l,
            Err(e) => {
                return Err(e);
            },
        };
        let norm = match self.qwen35_tensor_layout("model.language_model.norm.weight", shape1(core.dims.dim).as_slice()) {
            Ok(l) => l,
            Err(e) => {
                return Err(e);
            },
        };
        let output = match self.qwen35_tensor_layout(
            "lm_head.weight",
            shape2(core.dims.vocab_size, core.dims.dim).as_slice(),
        ) {
            Ok(l) => l,
            Err(e) => {
                return Err(e);
            },
        };
        let ghost src = self.spec_source();
        let mut layers: Vec<Qwen35LayerWeightLayout> = Vec::new();
        proof {
            assert(layers@.map_values(|l: Qwen35LayerWeightLayout| l@) =~= Seq::<LayerView>::empty());
        }
        let mut layer: usize = 0;
        while layer < core.dims.n_layers
            invariant
                src == self.spec_source(),
                offsets_ordered(src),
                qwen35_layout_fits(*core),
                core.model_kind == TextModelKind::Qwen35Text,
                spec_tensor_layout(src, "model.language_model.embed_tokens.weight"@, seq![core.dims.vocab_size, core.dims.dim])
                    == Ok::<LayoutView, WeightLayoutError>(embedding@),
                spec_tensor_layout(src, "model.language_model.norm.weight"@, seq![core.dims.dim]) == Ok::<
                    LayoutView,
                    WeightLayoutError,
                >(norm@),
                spec_tensor_layout(src, "lm_head.weight"@, seq![core.dims.vocab_size, core.dims.dim]) == Ok::<
                    LayoutView,
                    WeightLayoutError,
                >(output@),
                layer <= core.dims.n_layers,
                spec_layers_layout(src, *core, layer as int) == Ok::<Seq<LayerView>, WeightLayoutError>(
                    layers@.map_values(|l: Qwen35LayerWeightLayout| l@),
                ),
            decreases core.dims.n_layers - layer,
        {
            proof {
                assert(layer_fits(*core, layer as int));
            }
            match self.qwen35_layer_weight_layout(core, layer) {
                Ok(l) => {
                    let ghost before = layers@.map_values(|l: Qwen35LayerWeightLayout| l@);
                    layers.push(l);
                    proof {
                        assert(layers@.map_values(|l: Qwen35LayerWeightLayout| l@) =~= before.push(l@));
                        assert(spec_layers_layout(src, *core, layer + 1) == Ok::<Seq<LayerView>, WeightLayoutError>(
                            before.push(l@),
                        ));
                    }
                },
                Err(e) => {
                    proof {
                        assert(spec_layer_layout(src, *core, layer) == Err::<LayerView, WeightLayoutError>(e));
                        assert(spec_layers_layout(src, *core, layer + 1) == Err::<Seq<LayerView>, WeightLayoutError>(e));
                        lemma_layers_layout_error_sticks(src, *core, layer + 1, core.dims.n_layers as int);
                    }
                    return Err(e);
                },
            }
            layer = layer + 1;
        }
        Ok(Qwen35WeightLayout { embedding, norm, output, layers })
    }
}

} // verus!
