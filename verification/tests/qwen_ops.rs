use nn_rust_verified::profiling::{NumericKind, OperationKind, OperationRoute};
use nn_rust_verified::qwen_ops::{
    launch_for_num_elems, qwen_gated_delta_decay_plan, qwen_gated_delta_step_plan,
    qwen_gated_rmsnorm_bf16_plan, qwen_linear_conv_silu_step_plan, qwen_rmsnorm_batched_bf16_plan,
    qwen_rmsnorm_bf16_plan, qwen_split_linear_qkv_plan, qwen_split_query_gate_plan, tf32_linear_launch,
};

#[test]
fn rmsnorm_plan_carries_qwen_launch_and_types() {
    let plan = qwen_rmsnorm_bf16_plan(5120);
    assert_eq!(plan.config.grid_dim, (1, 1, 1));
    assert_eq!(
        plan.operation.launch.as_ref().unwrap().kernel,
        "qwen_rmsnorm_bf16_kernel"
    );
    assert_eq!(plan.operation.kind, OperationKind::RmsNorm);
    assert_eq!(plan.operation.route, OperationRoute::CudaKernel);
    assert_eq!(plan.operation.inputs[0].dtype, NumericKind::F32);
    assert_eq!(plan.operation.inputs[1].dtype, NumericKind::Bf16);
    assert_eq!(plan.operation.outputs[0].accumulator, NumericKind::F32);
}

#[test]
fn split_linear_qkv_plan_tracks_repeated_key_shape() {
    let plan = qwen_split_linear_qkv_plan(48, 8, 128, 128);
    assert_eq!(plan.config.grid_dim, (24, 1, 1));
    assert_eq!(
        plan.operation.launch.as_ref().unwrap().kernel,
        "qwen_split_linear_qkv_kernel"
    );
    assert_eq!(plan.operation.inputs[0].shape, vec![8192]);
    assert_eq!(plan.operation.outputs[0].shape, vec![6144]);
    assert_eq!(plan.operation.outputs[1].shape, vec![6144]);
    assert_eq!(plan.operation.outputs[2].shape, vec![6144]);
}

#[test]
fn gated_delta_step_plan_tracks_state_shape() {
    let plan = qwen_gated_delta_step_plan(48, 128, 128);
    assert_eq!(plan.config.grid_dim, (24, 1, 1));
    assert_eq!(
        plan.operation.launch.as_ref().unwrap().kernel,
        "qwen_gated_delta_step_kernel"
    );
    assert_eq!(plan.operation.inputs[0].shape, vec![6144]);
    assert_eq!(plan.operation.inputs[5].shape, vec![786432]);
    assert_eq!(plan.operation.outputs[0].shape, vec![6144]);
    assert_eq!(plan.operation.outputs[1].shape, vec![786432]);
}

#[test]
fn element_launches_round_up_to_whole_blocks() {
    assert_eq!(launch_for_num_elems(0).grid_dim, (0, 1, 1));
    assert_eq!(launch_for_num_elems(1).grid_dim, (1, 1, 1));
    assert_eq!(launch_for_num_elems(256).grid_dim, (1, 1, 1));
    assert_eq!(launch_for_num_elems(257).grid_dim, (2, 1, 1));
    assert_eq!(launch_for_num_elems(u32::MAX).grid_dim, (16777216, 1, 1));
    assert_eq!(launch_for_num_elems(7).block_dim, (256, 1, 1));
    assert_eq!(launch_for_num_elems(7).shared_mem_bytes, 0);
}

#[test]
fn other_plans_describe_their_tensors() {
    let batched = qwen_rmsnorm_batched_bf16_plan(3, 64);
    assert_eq!(batched.config.grid_dim, (3, 1, 1));
    assert_eq!(batched.operation.inputs[0].shape, vec![3, 64]);
    assert_eq!(batched.operation.inputs[0].layout.as_deref(), Some("row-major"));
    let gate = qwen_split_query_gate_plan(4, 64);
    assert_eq!(gate.operation.inputs[0].shape, vec![512]);
    assert_eq!(gate.operation.outputs.len(), 2);
    assert_eq!(gate.config.grid_dim, (1, 1, 1));
    let conv = qwen_linear_conv_silu_step_plan(300, 4);
    assert_eq!(conv.config.grid_dim, (2, 1, 1));
    assert_eq!(conv.operation.inputs[1].dtype, NumericKind::Bf16);
    assert_eq!(conv.operation.inputs[1].shape, vec![1200]);
    let decay = qwen_gated_delta_decay_plan(48);
    assert_eq!(decay.operation.name, "qwen-gated-delta-decay");
    assert_eq!(decay.operation.inputs.len(), 3);
    let gated = qwen_gated_rmsnorm_bf16_plan(2, 128);
    assert_eq!(gated.operation.kind, OperationKind::RmsNorm);
    assert_eq!(gated.operation.inputs.len(), 3);
    assert_eq!(gated.config.block_dim, (256, 1, 1));
}

#[test]
fn tf32_linear_launch_covers_partial_tiles() {
    let launch = tf32_linear_launch(17, 64, 9).unwrap();
    assert_eq!(launch.grid_dim, (2, 2, 1));
    assert_eq!(launch.block_dim, (32, 1, 1));
    assert_eq!(launch.shared_mem_bytes, 0);
    let exact = tf32_linear_launch(32, 5, 16).unwrap();
    assert_eq!(exact.grid_dim, (2, 2, 1));
}

#[test]
fn tf32_linear_launch_skips_empty_shapes() {
    assert!(tf32_linear_launch(0, 64, 9).is_none());
    assert!(tf32_linear_launch(4, 0, 9).is_none());
    assert!(tf32_linear_launch(4, 64, 0).is_none());
}
