//! Launch plans of the Qwen3.5 kernels: the grid and block each kernel is launched
//! with, and the typed description of the operation it performs.
use vstd::prelude::*;

use crate::profiling::{
    lemma_profile_type_kinds, opt_launch_view, Bf16ProfileType, CudaLaunchSpec, F32ProfileType, NumericKind, OperationKind,
    OperationRoute, SpecLaunch, SpecTensorType, TensorType, TensorTypeSpec, TypedOperationSpec,
};

verus! {

/// The grid, block and dynamic shared memory of a kernel launch.
#[derive(Debug, Clone, Copy, PartialEq, Eq)]
pub struct LaunchConfig {
    pub grid_dim: (u32, u32, u32),
    pub block_dim: (u32, u32, u32),
    pub shared_mem_bytes: u32,
}

/// Threads per block of the default launch shape (`LaunchConfig::for_num_elems`).
pub const DEFAULT_BLOCK_SIZE: u32 = 256;

/// Threads per block of the RMSNorm kernels (one 256-thread block per row).
pub const RMSNORM_BLOCK_THREADS: u32 = 256;

/// One block of 256 threads per 256 elements, rounding up
/// (`cuda_core::LaunchConfig::for_num_elems`).
pub open spec fn spec_for_num_elems(n: u32) -> LaunchConfig {
    LaunchConfig {
        grid_dim: (((n + 255) / 256) as u32, 1, 1),
        block_dim: (256, 1, 1),
        shared_mem_bytes: 0,
    }
}

/// The launch that covers `n` elements with one thread each.
pub fn launch_for_num_elems(n: u32) -> (r: LaunchConfig)
    ensures
        r == spec_for_num_elems(n),
{
    let grid_x = n / DEFAULT_BLOCK_SIZE + if n % DEFAULT_BLOCK_SIZE == 0 { 0 } else { 1 };
    assert(grid_x == (n + 255) / 256) by (nonlinear_arith)
        requires
            grid_x == n / 256 + if n % 256 == 0 { 0int } else { 1int },
    ;
    LaunchConfig { grid_dim: (grid_x, 1, 1), block_dim: (DEFAULT_BLOCK_SIZE, 1, 1), shared_mem_bytes: 0 }
}

/// A kernel's launch and the operation it performs.
#[derive(Debug, Clone)]
pub struct QwenLaunchPlan {
    pub config: LaunchConfig,
    pub operation: TypedOperationSpec,
}

/// A one-dimensional contiguous tensor description.
pub open spec fn contiguous(kind: NumericKind, len: usize) -> SpecTensorType {
    SpecTensorType {
        dtype: kind,
        accumulator: NumericKind::F32,
        shape: seq![len],
        layout: Some("contiguous"@),
    }
}

/// A row-major `[batch, dim]` f32 tensor description.
pub open spec fn row_major_f32(batch: usize, dim: usize) -> SpecTensorType {
    SpecTensorType {
        dtype: NumericKind::F32,
        accumulator: NumericKind::F32,
        shape: seq![batch, dim],
        layout: Some("row-major"@),
    }
}

/// The launch description of `kernel` launched with `config`.
pub open spec fn spec_launch(kernel: Seq<char>, config: LaunchConfig) -> SpecLaunch {
    SpecLaunch {
        kernel,
        grid_dim: crate::profiling::LaunchDimensions {
            x: config.grid_dim.0,
            y: config.grid_dim.1,
            z: config.grid_dim.2,
        },
        block_dim: crate::profiling::LaunchDimensions {
            x: config.block_dim.0,
            y: config.block_dim.1,
            z: config.block_dim.2,
        },
        shared_mem_bytes: config.shared_mem_bytes,
    }
}

/// The tensor descriptions of a list, taken by value.
pub open spec fn tensor_views(specs: Seq<TensorTypeSpec>) -> Seq<SpecTensorType> {
    specs.map_values(|t: TensorTypeSpec| t@)
}

/// The plan launches `kernel` with `config` and describes an operation named `name`
/// of kind `kind` on the CUDA kernel route with the given inputs and outputs.
pub open spec fn plan_is(
    plan: QwenLaunchPlan,
    name: Seq<char>,
    kind: OperationKind,
    inputs: Seq<SpecTensorType>,
    outputs: Seq<SpecTensorType>,
    kernel: Seq<char>,
    config: LaunchConfig,
) -> bool {
    &&& plan.config == config
    &&& plan.operation.name@ == name
    &&& plan.operation.kind == kind
    &&& plan.operation.route == OperationRoute::CudaKernel
    &&& tensor_views(plan.operation.inputs@) == inputs
    &&& tensor_views(plan.operation.outputs@) == outputs
    &&& opt_launch_view(plan.operation.launch) == Some(spec_launch(kernel, config))
}

fn contiguous_f32(len: usize) -> (r: TensorTypeSpec)
    ensures
        r@ == contiguous(NumericKind::F32, len),
{
    let shape: [usize; 1] = [len];
    let r = TensorType::<F32ProfileType, 1>::new(shape).with_static_layout("contiguous").erase();
    proof {
        lemma_profile_type_kinds();
        assert(r@.shape =~= seq![len]);
    }
    r
}

fn contiguous_bf16(len: usize) -> (r: TensorTypeSpec)
    ensures
        r@ == contiguous(NumericKind::Bf16, len),
{
    let shape: [usize; 1] = [len];
    let r = TensorType::<Bf16ProfileType, 1>::new(shape).with_static_layout("contiguous").erase();
    proof {
        lemma_profile_type_kinds();
        assert(r@.shape =~= seq![len]);
    }
    r
}

fn row_major(batch: usize, dim: usize) -> (r: TensorTypeSpec)
    ensures
        r@ == row_major_f32(batch, dim),
{
    let shape: [usize; 2] = [batch, dim];
    let r = TensorType::<F32ProfileType, 2>::new(shape).with_static_layout("row-major").erase();
    proof {
        lemma_profile_type_kinds();
        assert(r@.shape =~= seq![batch, dim]);
    }
    r
}

fn launch_spec(kernel: &str, config: LaunchConfig) -> (r: CudaLaunchSpec)
    ensures
        r@ == spec_launch(kernel@, config),
{
    CudaLaunchSpec::new(kernel, config.grid_dim, config.block_dim, config.shared_mem_bytes)
}

/// `value` as a `u32`; the caller guarantees it fits.
pub fn checked_u32(value: usize) -> (r: u32)
    requires
        value <= u32::MAX,
    ensures
        r == value,
{
    value as u32
}

fn launch_for_elems(value: usize) -> (r: LaunchConfig)
    requires
        value <= u32::MAX,
    ensures
        r == spec_for_num_elems(value as u32),
{
    launch_for_num_elems(checked_u32(value))
}

/// Builds the operation of a plan from its parts.
fn operation(
    name: &str,
    kind: OperationKind,
    inputs: Vec<TensorTypeSpec>,
    outputs: Vec<TensorTypeSpec>,
    kernel: &str,
    config: LaunchConfig,
) -> (r: QwenLaunchPlan)
    ensures
        plan_is(r, name@, kind, tensor_views(inputs@), tensor_views(outputs@), kernel@, config),
{
    let mut op = TypedOperationSpec::new(name, kind, OperationRoute::CudaKernel);
    op.inputs = inputs;
    op.outputs = outputs;
    op.launch = Some(launch_spec(kernel, config));
    QwenLaunchPlan { config, operation: op }
}

/// The RMSNorm of one `len`-element row with a BF16 weight.
pub fn qwen_rmsnorm_bf16_plan(len: usize) -> (r: QwenLaunchPlan)
    ensures
        plan_is(
            r,
            "qwen-rmsnorm-bf16"@,
            OperationKind::RmsNorm,
            seq![contiguous(NumericKind::F32, len), contiguous(NumericKind::Bf16, len)],
            seq![contiguous(NumericKind::F32, len)],
            "qwen_rmsnorm_bf16_kernel"@,
            LaunchConfig { grid_dim: (1, 1, 1), block_dim: (RMSNORM_BLOCK_THREADS, 1, 1), shared_mem_bytes: 0 },
        ),
{
    let config = LaunchConfig { grid_dim: (1, 1, 1), block_dim: (RMSNORM_BLOCK_THREADS, 1, 1), shared_mem_bytes: 0 };
    let mut inputs: Vec<TensorTypeSpec> = Vec::new();
    inputs.push(contiguous_f32(len));
    inputs.push(contiguous_bf16(len));
    let mut outputs: Vec<TensorTypeSpec> = Vec::new();
    outputs.push(contiguous_f32(len));
    proof {
        assert(tensor_views(inputs@) =~= seq![contiguous(NumericKind::F32, len), contiguous(NumericKind::Bf16, len)]);
        assert(tensor_views(outputs@) =~= seq![contiguous(NumericKind::F32, len)]);
    }
    operation("qwen-rmsnorm-bf16", OperationKind::RmsNorm, inputs, outputs, "qwen_rmsnorm_bf16_kernel", config)
}

/// The RMSNorm of `batch` rows of `dim` elements, one block per row.
pub fn qwen_rmsnorm_batched_bf16_plan(batch: usize, dim: usize) -> (r: QwenLaunchPlan)
    requires
        batch * dim <= usize::MAX,
        batch <= u32::MAX,
    ensures
        plan_is(
            r,
            "qwen-rmsnorm-batched-bf16"@,
            OperationKind::RmsNorm,
            seq![row_major_f32(batch, dim), contiguous(NumericKind::Bf16, dim)],
            seq![row_major_f32(batch, dim)],
            "qwen_rmsnorm_batched_bf16_kernel"@,
            LaunchConfig { grid_dim: (batch as u32, 1, 1), block_dim: (RMSNORM_BLOCK_THREADS, 1, 1), shared_mem_bytes: 0 },
        ),
{
    let config = LaunchConfig {
        grid_dim: (checked_u32(batch), 1, 1),
        block_dim: (RMSNORM_BLOCK_THREADS, 1, 1),
        shared_mem_bytes: 0,
    };
    let mut inputs: Vec<TensorTypeSpec> = Vec::new();
    inputs.push(row_major(batch, dim));
    inputs.push(contiguous_bf16(dim));
    let mut outputs: Vec<TensorTypeSpec> = Vec::new();
    outputs.push(row_major(batch, dim));
    proof {
        assert(tensor_views(inputs@) =~= seq![row_major_f32(batch, dim), contiguous(NumericKind::Bf16, dim)]);
        assert(tensor_views(outputs@) =~= seq![row_major_f32(batch, dim)]);
    }
    operation(
        "qwen-rmsnorm-batched-bf16",
        OperationKind::RmsNorm,
        inputs,
        outputs,
        "qwen_rmsnorm_batched_bf16_kernel",
        config,
    )
}

/// Splits the interleaved query/gate projection of `n_heads` heads of `head_dim`.
pub fn qwen_split_query_gate_plan(n_heads: usize, head_dim: usize) -> (r: QwenLaunchPlan)
    requires
        n_heads * head_dim * 2 <= usize::MAX,
        n_heads * head_dim <= u32::MAX,
    ensures
        plan_is(
            r,
            "qwen-split-query-gate"@,
            OperationKind::Attention,
            seq![contiguous(NumericKind::F32, (n_heads * head_dim * 2) as usize)],
            seq![
                contiguous(NumericKind::F32, (n_heads * head_dim) as usize),
                contiguous(NumericKind::F32, (n_heads * head_dim) as usize),
            ],
            "qwen_split_query_gate_kernel"@,
            spec_for_num_elems((n_heads * head_dim) as u32),
        ),
{
    assert(n_heads * head_dim <= n_heads * head_dim * 2) by (nonlinear_arith);
    let q_len = n_heads * head_dim;
    let q_gate_len = q_len * 2;
    let config = launch_for_elems(q_len);
    let mut inputs: Vec<TensorTypeSpec> = Vec::new();
    inputs.push(contiguous_f32(q_gate_len));
    let mut outputs: Vec<TensorTypeSpec> = Vec::new();
    outputs.push(contiguous_f32(q_len));
    outputs.push(contiguous_f32(q_len));
    proof {
        assert(tensor_views(inputs@) =~= seq![contiguous(NumericKind::F32, q_gate_len)]);
        assert(tensor_views(outputs@) =~= seq![contiguous(NumericKind::F32, q_len), contiguous(NumericKind::F32, q_len)]);
    }
    operation(
        "qwen-split-query-gate",
        OperationKind::Attention,
        inputs,
        outputs,
        "qwen_split_query_gate_kernel",
        config,
    )
}

/// One step of the causal depthwise convolution with SiLU over `channels` channels.
pub fn qwen_linear_conv_silu_step_plan(channels: usize, kernel_size: usize) -> (r: QwenLaunchPlan)
    requires
        channels * kernel_size <= usize::MAX,
        channels <= u32::MAX,
    ensures
        plan_is(
            r,
            "qwen-linear-conv-silu-step"@,
            OperationKind::Attention,
            seq![
                contiguous(NumericKind::F32, channels),
                contiguous(NumericKind::Bf16, (channels * kernel_size) as usize),
                contiguous(NumericKind::F32, (channels * kernel_size) as usize),
            ],
            seq![
                contiguous(NumericKind::F32, (channels * kernel_size) as usize),
                contiguous(NumericKind::F32, channels),
            ],
            "qwen_linear_conv_silu_step_kernel"@,
            spec_for_num_elems(channels as u32),
        ),
{
    let state_len = channels * kernel_size;
    let config = launch_for_elems(channels);
    let mut inputs: Vec<TensorTypeSpec> = Vec::new();
    inputs.push(contiguous_f32(channels));
    inputs.push(contiguous_bf16(state_len));
    inputs.push(contiguous_f32(state_len));
    let mut outputs: Vec<TensorTypeSpec> = Vec::new();
    outputs.push(contiguous_f32(state_len));
    outputs.push(contiguous_f32(channels));
    proof {
        assert(tensor_views(inputs@) =~= seq![
            contiguous(NumericKind::F32, channels),
            contiguous(NumericKind::Bf16, state_len),
            contiguous(NumericKind::F32, state_len),
        ]);
        assert(tensor_views(outputs@) =~= seq![
            contiguous(NumericKind::F32, state_len),
            contiguous(NumericKind::F32, channels),
        ]);
    }
    operation(
        "qwen-linear-conv-silu-step",
        OperationKind::Attention,
        inputs,
        outputs,
        "qwen_linear_conv_silu_step_kernel",
        config,
    )
}

/// Splits the packed linear-attention projection into queries and keys repeated up to
/// `value_heads` heads, and values.
pub fn qwen_split_linear_qkv_plan(value_heads: usize, key_heads: usize, key_dim: usize, value_dim: usize) -> (r: QwenLaunchPlan)
    requires
        key_heads > 0,
        value_heads % key_heads == 0,
        key_heads * key_dim * 2 + value_heads * value_dim <= usize::MAX,
        value_heads * key_dim <= usize::MAX,
        value_heads * key_dim <= u32::MAX,
        value_heads * value_dim <= u32::MAX,
    ensures
        plan_is(
            r,
            "qwen-split-linear-qkv"@,
            OperationKind::Attention,
            seq![contiguous(NumericKind::F32, (key_heads * key_dim * 2 + value_heads * value_dim) as usize)],
            seq![
                contiguous(NumericKind::F32, (value_heads * key_dim) as usize),
                contiguous(NumericKind::F32, (value_heads * key_dim) as usize),
                contiguous(NumericKind::F32, (value_heads * value_dim) as usize),
            ],
            "qwen_split_linear_qkv_kernel"@,
            spec_for_num_elems(
                (if value_heads * key_dim >= value_heads * value_dim {
                    value_heads * key_dim
                } else {
                    value_heads * value_dim
                }) as u32,
            ),
        ),
{
    assert(key_heads * key_dim <= key_heads * key_dim * 2) by (nonlinear_arith);
    assert(0 <= value_heads * value_dim) by (nonlinear_arith);
    let key_len = key_heads * key_dim;
    let query_len = value_heads * key_dim;
    let value_len = value_heads * value_dim;
    let qkv_len = key_len * 2 + value_len;
    let longest = if query_len >= value_len { query_len } else { value_len };
    let config = launch_for_elems(longest);
    let mut inputs: Vec<TensorTypeSpec> = Vec::new();
    inputs.push(contiguous_f32(qkv_len));
    let mut outputs: Vec<TensorTypeSpec> = Vec::new();
    outputs.push(contiguous_f32(query_len));
    outputs.push(contiguous_f32(query_len));
    outputs.push(contiguous_f32(value_len));
    proof {
        assert(tensor_views(inputs@) =~= seq![contiguous(NumericKind::F32, qkv_len)]);
        assert(tensor_views(outputs@) =~= seq![
            contiguous(NumericKind::F32, query_len),
            contiguous(NumericKind::F32, query_len),
            contiguous(NumericKind::F32, value_len),
        ]);
    }
    operation(
        "qwen-split-linear-qkv",
        OperationKind::Attention,
        inputs,
        outputs,
        "qwen_split_linear_qkv_kernel",
        config,
    )
}

/// The per-head decay of the gated delta rule over `len` heads.
pub fn qwen_gated_delta_decay_plan(len: usize) -> (r: QwenLaunchPlan)
    requires
        len <= u32::MAX,
    ensures
        plan_is(
            r,
            "qwen-gated-delta-decay"@,
            OperationKind::Attention,
            seq![
                contiguous(NumericKind::F32, len),
                contiguous(NumericKind::Bf16, len),
                contiguous(NumericKind::Bf16, len),
            ],
            seq![contiguous(NumericKind::F32, len)],
            "qwen_gated_delta_decay_kernel"@,
            spec_for_num_elems(len as u32),
        ),
{
    let config = launch_for_elems(len);
    let mut inputs: Vec<TensorTypeSpec> = Vec::new();
    inputs.push(contiguous_f32(len));
    inputs.push(contiguous_bf16(len));
    inputs.push(contiguous_bf16(len));
    let mut outputs: Vec<TensorTypeSpec> = Vec::new();
    outputs.push(contiguous_f32(len));
    proof {
        assert(tensor_views(inputs@) =~= seq![
            contiguous(NumericKind::F32, len),
            contiguous(NumericKind::Bf16, len),
            contiguous(NumericKind::Bf16, len),
        ]);
        assert(tensor_views(outputs@) =~= seq![contiguous(NumericKind::F32, len)]);
    }
    operation(
        "qwen-gated-delta-decay",
        OperationKind::Attention,
        inputs,
        outputs,
        "qwen_gated_delta_decay_kernel",
        config,
    )
}

/// One recurrent step of the gated delta rule for `value_heads` heads.
pub fn qwen_gated_delta_step_plan(value_heads: usize, key_dim: usize, value_dim: usize) -> (r: QwenLaunchPlan)
    requires
        value_heads * key_dim * value_dim <= usize::MAX,
        value_heads * key_dim <= usize::MAX,
        value_heads * value_dim <= u32::MAX,
    ensures
        plan_is(
            r,
            "qwen-gated-delta-step"@,
            OperationKind::Attention,
            seq![
                contiguous(NumericKind::F32, (value_heads * key_dim) as usize),
                contiguous(NumericKind::F32, (value_heads * key_dim) as usize),
                contiguous(NumericKind::F32, (value_heads * value_dim) as usize),
                contiguous(NumericKind::F32, value_heads),
                contiguous(NumericKind::F32, value_heads),
                contiguous(NumericKind::F32, (value_heads * key_dim * value_dim) as usize),
            ],
            seq![
                contiguous(NumericKind::F32, (value_heads * value_dim) as usize),
                contiguous(NumericKind::F32, (value_heads * key_dim * value_dim) as usize),
            ],
            "qwen_gated_delta_step_kernel"@,
            spec_for_num_elems((value_heads * value_dim) as u32),
        ),
{
    let key_len = value_heads * key_dim;
    let value_len = value_heads * value_dim;
    let state_len = key_len * value_dim;
    let config = launch_for_elems(value_len);
    let mut inputs: Vec<TensorTypeSpec> = Vec::new();
    inputs.push(contiguous_f32(key_len));
    inputs.push(contiguous_f32(key_len));
    inputs.push(contiguous_f32(value_len));
    inputs.push(contiguous_f32(value_heads));
    inputs.push(contiguous_f32(value_heads));
    inputs.push(contiguous_f32(state_len));
    let mut outputs: Vec<TensorTypeSpec> = Vec::new();
    outputs.push(contiguous_f32(value_len));
    outputs.push(contiguous_f32(state_len));
    proof {
        assert(tensor_views(inputs@) =~= seq![
            contiguous(NumericKind::F32, key_len),
            contiguous(NumericKind::F32, key_len),
            contiguous(NumericKind::F32, value_len),
            contiguous(NumericKind::F32, value_heads),
            contiguous(NumericKind::F32, value_heads),
            contiguous(NumericKind::F32, state_len),
        ]);
        assert(tensor_views(outputs@) =~= seq![
            contiguous(NumericKind::F32, value_len),
            contiguous(NumericKind::F32, state_len),
        ]);
    }
    operation(
        "qwen-gated-delta-step",
        OperationKind::Attention,
        inputs,
        outputs,
        "qwen_gated_delta_step_kernel",
        config,
    )
}

/// The RMSNorm of `batch` rows of `dim` elements gated by a second input.
pub fn qwen_gated_rmsnorm_bf16_plan(batch: usize, dim: usize) -> (r: QwenLaunchPlan)
    requires
        batch * dim <= usize::MAX,
        batch <= u32::MAX,
    ensures
        plan_is(
            r,
            "qwen-gated-rmsnorm-bf16"@,
            OperationKind::RmsNorm,
            seq![row_major_f32(batch, dim), row_major_f32(batch, dim), contiguous(NumericKind::Bf16, dim)],
            seq![row_major_f32(batch, dim)],
            "qwen_gated_rmsnorm_bf16_kernel"@,
            LaunchConfig { grid_dim: (batch as u32, 1, 1), block_dim: (RMSNORM_BLOCK_THREADS, 1, 1), shared_mem_bytes: 0 },
        ),
{
    let config = LaunchConfig {
        grid_dim: (checked_u32(batch), 1, 1),
        block_dim: (RMSNORM_BLOCK_THREADS, 1, 1),
        shared_mem_bytes: 0,
    };
    let mut inputs: Vec<TensorTypeSpec> = Vec::new();
    inputs.push(row_major(batch, dim));
    inputs.push(row_major(batch, dim));
    inputs.push(contiguous_bf16(dim));
    let mut outputs: Vec<TensorTypeSpec> = Vec::new();
    outputs.push(row_major(batch, dim));
    proof {
        assert(tensor_views(inputs@) =~= seq![
            row_major_f32(batch, dim),
            row_major_f32(batch, dim),
            contiguous(NumericKind::Bf16, dim),
        ]);
        assert(tensor_views(outputs@) =~= seq![row_major_f32(batch, dim)]);
    }
    operation(
        "qwen-gated-rmsnorm-bf16",
        OperationKind::RmsNorm,
        inputs,
        outputs,
        "qwen_gated_rmsnorm_bf16_kernel",
        config,
    )
}

/// Batch rows each tensor-core tile covers.
pub const TF32_TILE_M: usize = 16;

/// Output columns each tensor-core tile covers.
pub const TF32_TILE_N: usize = 8;

/// `n / d` rounded up.
pub open spec fn ceil_div(n: nat, d: nat) -> nat {
    ((n + d - 1) / d as int) as nat
}

/// The launch of the TF32 tensor-core batched linear kernel: one warp per tile of 16
/// batch rows by 8 output columns, the tile counts truncated to 32 bits.
pub open spec fn spec_tf32_linear_launch(batch: usize, output_dim: usize) -> LaunchConfig {
    LaunchConfig {
        grid_dim: (ceil_div(output_dim as nat, 8) as u32, ceil_div(batch as nat, 16) as u32, 1),
        block_dim: (32, 1, 1),
        shared_mem_bytes: 0,
    }
}

/// The launch of the TF32 tensor-core batched linear kernel, or `None` when a
/// dimension is zero and there is nothing to compute.
pub fn tf32_linear_launch(batch: usize, input_dim: usize, output_dim: usize) -> (r: Option<LaunchConfig>)
    ensures
        batch == 0 || input_dim == 0 || output_dim == 0 ==> r is None,
        batch > 0 && input_dim > 0 && output_dim > 0 ==> r == Some(spec_tf32_linear_launch(batch, output_dim)),
{
    if batch == 0 || input_dim == 0 || output_dim == 0 {
        return None;
    }
    let cols = output_dim / TF32_TILE_N + if output_dim % TF32_TILE_N == 0 { 0 } else { 1 };
    let rows = batch / TF32_TILE_M + if batch % TF32_TILE_M == 0 { 0 } else { 1 };
    assert(cols == ceil_div(output_dim as nat, 8)) by (nonlinear_arith)
        requires
            cols == output_dim / 8 + if output_dim % 8 == 0 { 0int } else { 1int },
            output_dim > 0,
    ;
    assert(rows == ceil_div(batch as nat, 16)) by (nonlinear_arith)
        requires
            rows == batch / 16 + if batch % 16 == 0 { 0int } else { 1int },
            batch > 0,
    ;
    Some(LaunchConfig { grid_dim: (cols as u32, rows as u32, 1), block_dim: (32, 1, 1), shared_mem_bytes: 0 })
}

} // verus!
