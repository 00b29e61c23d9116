use nn_rust_verified::profiling::{
    Bf16ProfileType, CudaLaunchSpec, F32ProfileType, LaunchDimensions, NumericKind, OperationKind,
    OperationRoute, OptimizationActionMaterialization, OptimizationActionOp,
    OptimizationActionSpec, OptimizationScoreSource, ProfileDuration, ProfileTimeSource,
    TensorType, TensorTypeSpec, TypedOperationSpec,
};
use nn_rust_verified::trace::{
    clipped_child_interval, covered_nanos, merge_intervals, with_self_durations, ProfileSegment,
    ProfileSpan, ProfileTimeline, ProfileTrace, ProfileTraceBuilder, QueueOperationProfile,
};
use std::time::Duration;

fn span(id: usize, parent_id: Option<usize>, start: u64, duration: u64) -> ProfileSpan {
    ProfileSpan {
        id,
        parent_id,
        name: format!("span-{id}"),
        category: "test".to_string(),
        source: ProfileTimeSource::WallClock,
        start_offset: ProfileDuration::from_nanos(start),
        duration: ProfileDuration::from_nanos(duration),
        self_duration: ProfileDuration::zero(),
        operation: None,
    }
}

#[test]
fn typed_tensor_erases_precision_and_accumulator() {
    let tensor = TensorType::<Bf16ProfileType, 2>::new([4096, 5120])
        .with_static_layout("row-major")
        .erase();

    assert_eq!(tensor.dtype, NumericKind::Bf16);
    assert_eq!(tensor.accumulator, NumericKind::F32);
    assert_eq!(tensor.shape, vec![4096, 5120]);
    assert_eq!(tensor.layout.as_deref(), Some("row-major"));
}

#[test]
fn operation_spec_carries_launch_metadata() {
    let input = TensorType::<F32ProfileType, 1>::new([1024]).erase();
    let output = TensorType::<F32ProfileType, 1>::new([1024]).erase();
    let launch = CudaLaunchSpec::new("relu_kernel", (4, 1, 1), (256, 1, 1), 0);
    let operation = TypedOperationSpec::new(
        "relu",
        OperationKind::Elementwise,
        OperationRoute::CudaKernel,
    )
    .with_input(input)
    .with_output(output)
    .with_launch(launch.clone());

    assert_eq!(operation.kind, OperationKind::Elementwise);
    assert_eq!(operation.route, OperationRoute::CudaKernel);
    assert_eq!(operation.launch, Some(launch));
}

#[test]
fn trace_credits_parent_self_time() {
    let parent = ProfileSpan {
        id: 1,
        parent_id: Some(0),
        name: "parent".to_string(),
        category: "model-phase".to_string(),
        source: ProfileTimeSource::WallClock,
        start_offset: ProfileDuration::from_nanos(0),
        duration: ProfileDuration::from_nanos(100),
        self_duration: ProfileDuration::zero(),
        operation: None,
    };
    let child_a = ProfileSpan {
        id: 2,
        parent_id: Some(1),
        name: "child-a".to_string(),
        category: "matvec".to_string(),
        source: ProfileTimeSource::WallClock,
        start_offset: ProfileDuration::from_nanos(10),
        duration: ProfileDuration::from_nanos(40),
        self_duration: ProfileDuration::zero(),
        operation: None,
    };
    let child_b = ProfileSpan {
        id: 3,
        parent_id: Some(1),
        name: "child-b".to_string(),
        category: "activation".to_string(),
        source: ProfileTimeSource::WallClock,
        start_offset: ProfileDuration::from_nanos(40),
        duration: ProfileDuration::from_nanos(30),
        self_duration: ProfileDuration::zero(),
        operation: None,
    };

    let spans = with_self_durations(vec![parent, child_a, child_b]);
    let parent = spans.iter().find(|span| span.id == 1).unwrap();
    assert_eq!(parent.self_duration.as_nanos_u128(), 40);
}

#[test]
fn self_time_orders_by_id_and_clips_children_to_the_parent() {
    let spans = with_self_durations(vec![
        span(5, Some(0), 50, 100),
        span(0, None, 0, 120),
        span(3, Some(5), 20, 60),
        span(4, Some(5), 140, 30),
    ]);
    let ids: Vec<usize> = spans.iter().map(|s| s.id).collect();
    assert_eq!(ids, vec![0, 3, 4, 5]);
    // Span 5 runs over [50, 150); its children cover [50, 80) and [140, 150).
    assert_eq!(spans[3].self_duration.as_nanos_u128(), 60);
    // The root covers [0, 120); span 5 covers [50, 120) of it.
    assert_eq!(spans[0].self_duration.as_nanos_u128(), 50);
    // Leaves keep their duration.
    assert_eq!(spans[1].self_duration.as_nanos_u128(), 60);
    assert_eq!(spans[2].self_duration.as_nanos_u128(), 30);
}

#[test]
fn intervals_merge_in_order_and_count_their_cover() {
    assert_eq!(
        merge_intervals(vec![(0, 10), (5, 20), (30, 40), (40, 45)]),
        vec![(0, 20), (30, 45)]
    );
    assert_eq!(merge_intervals(vec![(50, 60), (10, 20)]), vec![(50, 60)]);
    assert_eq!(covered_nanos(&[(0, 20), (30, 45)]), 35);
    assert_eq!(covered_nanos(&[]), 0);
    let parent = span(1, None, 100, 50);
    assert_eq!(clipped_child_interval(&parent, &span(2, Some(1), 90, 20)), Some((100, 110)));
    assert_eq!(clipped_child_interval(&parent, &span(2, Some(1), 200, 20)), None);
}

#[test]
fn durations_convert_and_saturate() {
    let d = ProfileDuration::from_nanos(1_500_000_000);
    assert_eq!(d.as_nanos_u128(), 1_500_000_000);
    assert_eq!(d.as_duration(), Duration::from_millis(1500));
    assert_eq!(ProfileDuration::from_duration(d.as_duration()), d);
    let longest = ProfileDuration::from_duration(Duration::MAX);
    assert_eq!(longest.as_duration(), Duration::MAX);
    assert_eq!(longest.saturating_add(d), longest);
    assert_eq!(
        ProfileDuration::from_nanos(5).saturating_sub(ProfileDuration::from_nanos(7)),
        ProfileDuration::zero()
    );
    assert_eq!(
        ProfileDuration::from_nanos(7).saturating_sub(ProfileDuration::from_nanos(5)),
        ProfileDuration::from_nanos(2)
    );
}

#[test]
fn labels_and_widths() {
    assert_eq!(ProfileTimeSource::SelfTimeAccounting.label(), "host-self-time");
    assert_eq!(NumericKind::F8E4M3.label(), "f8_e4m3");
    assert_eq!(NumericKind::F6E2M3.bits(), 6);
    assert_eq!(NumericKind::C64.bits(), 64);
    assert_eq!(OperationKind::RmsNorm.label(), "rmsnorm");
    assert_eq!(OperationRoute::TokioCudaWorker.label(), "tokio-cuda-worker");
    assert_eq!(OptimizationActionOp::TileGemm.label(), "tile-gemm");
    assert_eq!(
        OptimizationActionMaterialization::DeferredGenerated.label(),
        "deferred-generated"
    );
    assert_eq!(OptimizationScoreSource::Measured.label(), "measured");
    let action = OptimizationActionSpec::split(0, 8, OptimizationActionMaterialization::Existing);
    assert_eq!(action.op, OptimizationActionOp::Split);
    assert_eq!(action.axis, Some(0));
    let unroll = OptimizationActionSpec::unroll(1, 4);
    assert_eq!(unroll.materialization, OptimizationActionMaterialization::DeferredGenerated);
    assert_eq!(LaunchDimensions::from_tuple((2, 3, 4)), LaunchDimensions::new(2, 3, 4));
}

#[test]
fn segments_take_the_launch_of_their_operation() {
    let launch = CudaLaunchSpec::new("k", (1, 1, 1), (32, 1, 1), 64);
    let operation = TypedOperationSpec::new("op", OperationKind::Gemm, OperationRoute::CudaKernel)
        .with_launch(launch.clone());
    let segment = ProfileSegment::wall_clock(
        "gemm",
        "gemm",
        ProfileDuration::from_nanos(10),
        ProfileDuration::from_nanos(5),
    )
    .with_operation(operation);
    assert_eq!(segment.launch, Some(launch));
    assert_eq!(segment.end_offset(), Some(ProfileDuration::from_nanos(15)));
    let event = ProfileSegment::cuda_event("k", "gemm", ProfileDuration::from_nanos(3), None);
    assert_eq!(event.end_offset(), None);
    assert_eq!(event.source, ProfileTimeSource::CudaEvent);
}

#[test]
fn timeline_records_segments_in_order() {
    let mut timeline = ProfileTimeline::start("run");
    let value = timeline.time("work", "host", || 41 + 1);
    assert_eq!(value, 42);
    timeline.record_cuda_event("kernel", "gemm", ProfileDuration::from_nanos(9), None);
    let segments = timeline.segments();
    assert_eq!(segments.len(), 2);
    assert_eq!(segments[0].name, "work");
    assert_eq!(segments[0].source, ProfileTimeSource::WallClock);
    assert!(segments[0].start_offset.is_some());
    assert_eq!(segments[1].duration, ProfileDuration::from_nanos(9));
}

#[test]
fn builder_nests_spans_under_the_root() {
    let mut builder = ProfileTraceBuilder::start("trace");
    builder.time("outer", "model-phase", |b| {
        b.time("inner", "matvec", |_| ());
    });
    let trace = builder.finalize();
    assert_eq!(trace.name, "trace");
    let ids: Vec<usize> = trace.spans.iter().map(|s| s.id).collect();
    assert_eq!(ids, vec![0, 1, 2]);
    let root = trace.root().unwrap();
    assert_eq!(root.id, 0);
    assert_eq!(root.category, "root");
    assert_eq!(trace.spans[1].name, "outer");
    assert_eq!(trace.spans[1].parent_id, Some(0));
    assert_eq!(trace.spans[2].name, "inner");
    assert_eq!(trace.spans[2].parent_id, Some(1));
    for span in &trace.spans {
        assert!(span.self_duration.as_nanos_u128() <= span.duration.as_nanos_u128());
    }
}

#[test]
fn builder_returns_the_closure_value_and_keeps_the_root_first() {
    let mut builder = ProfileTraceBuilder::start("run");
    let a = builder.time("first", "phase", |b| {
        let inner = b.time("leaf", "op", |_| 20);
        inner + 1
    });
    let c = builder.time("second", "phase", |_| 5);
    assert_eq!(a, 21);
    assert_eq!(c, 5);
    let trace = builder.finalize();
    let ids: Vec<usize> = trace.spans.iter().map(|s| s.id).collect();
    assert_eq!(ids, vec![0, 1, 2, 3]);
    assert_eq!(trace.spans[0].parent_id, None);
    assert_eq!(trace.spans[0].name, "run");
    assert_eq!(trace.spans[1].parent_id, Some(0));
    assert_eq!(trace.spans[2].parent_id, Some(1));
    assert_eq!(trace.spans[3].parent_id, Some(0));
    for (i, span) in trace.spans.iter().enumerate().skip(1) {
        let parent = span.parent_id.unwrap();
        assert!(trace.spans[..i].iter().any(|s| s.id == parent));
    }
}

#[test]
fn trace_json_has_fixed_layout() {
    let trace = ProfileTrace {
        name: "t\"1".to_string(),
        total: ProfileDuration::from_nanos(1_500_000_000),
        spans: vec![ProfileSpan {
            id: 0,
            parent_id: None,
            name: "root".to_string(),
            category: "root".to_string(),
            source: ProfileTimeSource::WallClock,
            start_offset: ProfileDuration::zero(),
            duration: ProfileDuration::from_nanos(1_500_000_000),
            self_duration: ProfileDuration::from_nanos(250),
            operation: None,
        }],
    };
    let expected = [
        "{\n",
        "  \"name\": \"t\\\"1\",\n",
        "  \"total_seconds\": 1.500000000000,\n",
        "  \"spans\": [\n",
        "    {\n",
        "      \"id\": 0,\n",
        "      \"parent_id\": null,\n",
        "      \"name\": \"root\",\n",
        "      \"category\": \"root\",\n",
        "      \"source\": \"wall-clock\",\n",
        "      \"start_seconds\": 0.000000000000,\n",
        "      \"duration_seconds\": 1.500000000000,\n",
        "      \"self_seconds\": 0.000000250000,\n",
        "      \"operation\": null\n",
        "    }\n",
        "  ]\n",
        "}\n"
    ].concat();
    assert_eq!(trace.to_json_string(), expected);
}

#[test]
fn queue_operation_json_lists_its_phases() {
    let operation = TypedOperationSpec::new("copy", OperationKind::Upload, OperationRoute::CudaMemcpy)
        .with_input(TensorTypeSpec::new(NumericKind::U8, NumericKind::U8, vec![2, 3]).with_layout("flat"))
        .with_launch(CudaLaunchSpec::new("copy_kernel", (1, 2, 3), (4, 5, 6), 7));
    let profile = QueueOperationProfile {
        operation,
        worker_index: 3,
        send_wait: ProfileDuration::from_nanos(1),
        queue_to_worker: ProfileDuration::from_nanos(2),
        worker_execute: ProfileDuration::from_nanos(3),
        completion_wait: ProfileDuration::from_nanos(4),
        total: ProfileDuration::from_nanos(10),
    };
    let mut out = String::new();
    profile.push_json(&mut out, 0);
    let expected = [
        "{\n",
        "  \"worker_index\": 3,\n",
        "  \"operation\": {\n",
        "    \"name\": \"copy\",\n",
        "    \"kind\": \"upload\",\n",
        "    \"route\": \"cuda-memcpy\",\n",
        "    \"inputs\": [{\"dtype\": \"u8\", \"accumulator\": \"u8\", \"shape\": [2, 3], \"layout\": \"flat\"}],\n",
        "    \"outputs\": [],\n",
        "    \"launch\": {\n",
        "      \"kernel\": \"copy_kernel\",\n",
        "      \"grid_dim\": {\"x\": 1, \"y\": 2, \"z\": 3},\n",
        "      \"block_dim\": {\"x\": 4, \"y\": 5, \"z\": 6},\n",
        "      \"shared_mem_bytes\": 7\n",
        "    }\n",
        "  },\n",
        "  \"send_wait_seconds\": 0.000000001000,\n",
        "  \"queue_to_worker_seconds\": 0.000000002000,\n",
        "  \"worker_execute_seconds\": 0.000000003000,\n",
        "  \"completion_wait_seconds\": 0.000000004000,\n",
        "  \"total_seconds\": 0.000000010000\n",
        "}"
    ].concat();
    assert_eq!(out, expected);
}

#[test]
fn json_strings_escape_control_characters() {
    let trace = ProfileTrace {
        name: "a\u{1}\tb\\".to_string(),
        total: ProfileDuration::zero(),
        spans: vec![],
    };
    let json = trace.to_json_string();
    assert!(json.contains("\"name\": \"a\\u0001\\tb\\\\\","));
    assert!(json.contains("\"spans\": [\n\n  ]\n"));
}
