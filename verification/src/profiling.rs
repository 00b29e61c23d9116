//! Profiling records: durations, CUDA launch shapes, typed tensor and operation
//! descriptions, and the labels under which they are reported.
use vstd::prelude::*;

use crate::text::string_of;
use std::time::{Duration, Instant};

verus! {

// ---------------------------------------------------------------------------
// Durations and clocks
// ---------------------------------------------------------------------------

/// The number of nanoseconds in the longest `Duration`: `u64::MAX` whole seconds
/// and 999 999 999 nanoseconds.
pub const MAX_DURATION_NANOS: u128 = 18446744073709551615999999999u128;

pub const NANOS_PER_SECOND: u128 = 1000000000u128;

/// The total number of nanoseconds that a `Duration` holds (`Duration::as_nanos`).
pub uninterp spec fn duration_nanos(d: Duration) -> nat;

/// `Duration::as_nanos`: the whole duration in nanoseconds, at most the nanoseconds
/// of `Duration::MAX`.
#[verifier::external_body]
fn duration_as_nanos(d: &Duration) -> (r: u128)
    ensures
        r == duration_nanos(*d),
        r <= MAX_DURATION_NANOS,
{
    d.as_nanos()
}

/// `Duration::new`: `secs` seconds and `subsec_nanos` nanoseconds; below one second of
/// nanoseconds no carry occurs, so the call cannot panic.
#[verifier::external_body]
fn duration_new(secs: u64, subsec_nanos: u32) -> (r: Duration)
    requires
        subsec_nanos < 1000000000,
    ensures
        duration_nanos(r) == secs * 1000000000 + subsec_nanos,
{
    Duration::new(secs, subsec_nanos)
}

/// A reading of the monotonic clock; nothing inside it is visible to proofs.
#[verifier::external_type_specification]
#[verifier::external_body]
pub struct ExInstant(Instant);

/// `Instant::now`: a reading of the monotonic clock; nothing is known of its value.
#[verifier::external_body]
pub(crate) fn instant_now() -> Instant {
    Instant::now()
}

/// `Instant::elapsed`: the time since `instant`; nothing is known of its value.
#[verifier::external_body]
pub(crate) fn instant_elapsed(instant: &Instant) -> Duration {
    instant.elapsed()
}

/// `Instant::checked_duration_since`: `None` when `earlier` is later than `later`;
/// the clock decides, so nothing is stated.
#[verifier::external_body]
pub(crate) fn instant_checked_duration_since(later: &Instant, earlier: &Instant) -> Option<Duration> {
    later.checked_duration_since(*earlier)
}

/// `Instant::duration_since`, which saturates at zero; the clock decides the value.
#[verifier::external_body]
pub(crate) fn instant_duration_since(later: &Instant, earlier: &Instant) -> Duration {
    later.duration_since(*earlier)
}

/// A span of time with nanosecond resolution, no longer than `Duration::MAX`.
#[derive(Debug, Clone, Copy, PartialEq, Eq, Structural)]
pub struct ProfileDuration {
    nanos: u128,
}

impl ProfileDuration {
    /// The duration in nanoseconds.
    pub closed spec fn nanos(self) -> nat {
        self.nanos as nat
    }

    /// The duration of `n` nanoseconds (meaningful for `n` up to `MAX_DURATION_NANOS`).
    pub closed spec fn of_nanos(n: nat) -> Self {
        ProfileDuration { nanos: n as u128 }
    }

    /// A duration's nanoseconds fit `u128`.
    pub proof fn lemma_nanos_fit(self)
        ensures
            self.nanos() <= u128::MAX,
    {
    }

    pub broadcast proof fn lemma_of_nanos(n: nat)
        requires
            n <= MAX_DURATION_NANOS,
        ensures
            #[trigger] Self::of_nanos(n).nanos() == n,
    {
    }

    /// Every duration is at most `Duration::MAX` long.
    #[verifier::type_invariant]
    pub open spec fn fits_duration(self) -> bool {
        self.nanos() <= MAX_DURATION_NANOS
    }

    /// The empty duration.
    pub fn zero() -> (r: Self)
        ensures
            r.nanos() == 0,
    {
        ProfileDuration { nanos: 0 }
    }

    /// A duration of `nanos` nanoseconds, when it is no longer than `Duration::MAX`.
    pub fn from_nanos_u128(nanos: u128) -> (r: Self)
        requires
            nanos <= MAX_DURATION_NANOS,
        ensures
            r.nanos() == nanos,
    {
        ProfileDuration { nanos }
    }

    pub fn from_duration(duration: Duration) -> (r: Self)
        ensures
            r.nanos() == duration_nanos(duration),
    {
        ProfileDuration { nanos: duration_as_nanos(&duration) }
    }

    pub fn from_nanos(nanos: u64) -> (r: Self)
        ensures
            r.nanos() == nanos,
    {
        ProfileDuration { nanos: nanos as u128 }
    }

    pub fn as_duration(self) -> (r: Duration)
        ensures
            duration_nanos(r) == self.nanos(),
    {
        proof {
            use_type_invariant(self);
        }
        let secs = self.nanos / NANOS_PER_SECOND;
        let subsec = self.nanos % NANOS_PER_SECOND;
        assert(secs <= u64::MAX) by (nonlinear_arith)
            requires
                self.nanos <= MAX_DURATION_NANOS,
                secs == self.nanos / NANOS_PER_SECOND,
                NANOS_PER_SECOND == 1000000000,
                MAX_DURATION_NANOS == 18446744073709551615999999999,
        ;
        assert(secs * 1000000000 + subsec == self.nanos) by (nonlinear_arith)
            requires
                secs == self.nanos / NANOS_PER_SECOND,
                subsec == self.nanos % NANOS_PER_SECOND,
                NANOS_PER_SECOND == 1000000000,
        ;
        duration_new(secs as u64, subsec as u32)
    }

    pub fn as_nanos_u128(self) -> (r: u128)
        ensures
            r == self.nanos(),
    {
        self.nanos
    }

    /// `self - other`, or zero when `other` is longer.
    pub fn saturating_sub(self, other: Self) -> (r: Self)
        ensures
            r.nanos() == if self.nanos() >= other.nanos() {
                self.nanos() - other.nanos()
            } else {
                0
            },
    {
        proof {
            use_type_invariant(self);
        }
        if self.nanos >= other.nanos {
            ProfileDuration { nanos: self.nanos - other.nanos }
        } else {
            ProfileDuration { nanos: 0 }
        }
    }

    /// `self + other`, or `Duration::MAX` when the sum is longer.
    pub fn saturating_add(self, other: Self) -> (r: Self)
        ensures
            r.nanos() == if self.nanos() + other.nanos() <= MAX_DURATION_NANOS {
                self.nanos() + other.nanos()
            } else {
                MAX_DURATION_NANOS as nat
            },
    {
        proof {
            use_type_invariant(self);
            use_type_invariant(other);
        }
        let sum = self.nanos + other.nanos;
        if sum <= MAX_DURATION_NANOS {
            ProfileDuration { nanos: sum }
        } else {
            ProfileDuration { nanos: MAX_DURATION_NANOS }
        }
    }
}

/// Turning a duration into a `Duration` and reading it back gives the same duration:
/// `from_duration(d.as_duration()) == d`.
pub proof fn lemma_duration_round_trip(d: ProfileDuration, through: Duration, back: ProfileDuration)
    requires
        duration_nanos(through) == d.nanos(),
        back.nanos() == duration_nanos(through),
    ensures
        back == d,
{
}

/// Two durations of the same length are the same value.
pub proof fn lemma_duration_ext(a: ProfileDuration, b: ProfileDuration)
    requires
        a.nanos() == b.nanos(),
    ensures
        a == b,
{
}

/// A started wall clock.
#[derive(Debug)]
pub struct ProfileTimer {
    started_at: Instant,
}

impl Clone for ProfileTimer {
    fn clone(&self) -> (r: Self) {
        ProfileTimer { started_at: self.started_at }
    }
}

impl ProfileTimer {
    /// A timer started at the clock's current reading; the clock decides that reading.
    pub fn start() -> (r: Self) {
        ProfileTimer { started_at: instant_now() }
    }

    /// The time since the timer started; the clock decides its value.
    pub fn elapsed(&self) -> (r: ProfileDuration) {
        ProfileDuration::from_duration(instant_elapsed(&self.started_at))
    }
}

/// How a profiled duration was measured.
#[derive(Debug, Clone, Copy, PartialEq, Eq, Structural)]
pub enum ProfileTimeSource {
    WallClock,
    CudaEvent,
    SelfTimeAccounting,
}

pub open spec fn spec_time_source_label(source: ProfileTimeSource) -> Seq<char> {
    match source {
        ProfileTimeSource::WallClock => "wall-clock"@,
        ProfileTimeSource::CudaEvent => "cuda-event"@,
        ProfileTimeSource::SelfTimeAccounting => "host-self-time"@,
    }
}

impl ProfileTimeSource {
    pub fn label(self) -> (r: &'static str)
        ensures
            r@ == spec_time_source_label(self),
    {
        match self {
            Self::WallClock => "wall-clock",
            Self::CudaEvent => "cuda-event",
            Self::SelfTimeAccounting => "host-self-time",
        }
    }
}

// ---------------------------------------------------------------------------
// CUDA launches
// ---------------------------------------------------------------------------

/// The three extents of a CUDA grid or block.
#[derive(Debug, Clone, Copy, PartialEq, Eq, Structural)]
pub struct LaunchDimensions {
    pub x: u32,
    pub y: u32,
    pub z: u32,
}

impl LaunchDimensions {
    pub fn new(x: u32, y: u32, z: u32) -> (r: Self)
        ensures
            r == (LaunchDimensions { x, y, z }),
    {
        LaunchDimensions { x, y, z }
    }

    pub fn from_tuple(dim: (u32, u32, u32)) -> (r: Self)
        ensures
            r == (LaunchDimensions { x: dim.0, y: dim.1, z: dim.2 }),
    {
        Self::new(dim.0, dim.1, dim.2)
    }
}

/// A kernel launch: the kernel's name, its grid and block, and its dynamic shared memory.
#[derive(Debug, Clone, PartialEq, Eq)]
pub struct CudaLaunchSpec {
    pub kernel: String,
    pub grid_dim: LaunchDimensions,
    pub block_dim: LaunchDimensions,
    pub shared_mem_bytes: u32,
}

/// The value of a launch description, its kernel name taken as characters.
pub struct SpecLaunch {
    pub kernel: Seq<char>,
    pub grid_dim: LaunchDimensions,
    pub block_dim: LaunchDimensions,
    pub shared_mem_bytes: u32,
}

impl View for CudaLaunchSpec {
    type V = SpecLaunch;

    open spec fn view(&self) -> SpecLaunch {
        SpecLaunch {
            kernel: self.kernel@,
            grid_dim: self.grid_dim,
            block_dim: self.block_dim,
            shared_mem_bytes: self.shared_mem_bytes,
        }
    }
}

impl CudaLaunchSpec {
    pub fn new(kernel: &str, grid_dim: (u32, u32, u32), block_dim: (u32, u32, u32), shared_mem_bytes: u32) -> (r: Self)
        ensures
            r.kernel@ == kernel@,
            r.grid_dim == (LaunchDimensions { x: grid_dim.0, y: grid_dim.1, z: grid_dim.2 }),
            r.block_dim == (LaunchDimensions { x: block_dim.0, y: block_dim.1, z: block_dim.2 }),
            r.shared_mem_bytes == shared_mem_bytes,
    {
        CudaLaunchSpec {
            kernel: string_of(kernel),
            grid_dim: LaunchDimensions::from_tuple(grid_dim),
            block_dim: LaunchDimensions::from_tuple(block_dim),
            shared_mem_bytes,
        }
    }

    /// A copy with the same kernel name and shape.
    pub fn duplicate(&self) -> (r: Self)
        ensures
            r@ == self@,
    {
        CudaLaunchSpec {
            kernel: self.kernel.clone(),
            grid_dim: self.grid_dim,
            block_dim: self.block_dim,
            shared_mem_bytes: self.shared_mem_bytes,
        }
    }
}

// ---------------------------------------------------------------------------
// Numeric types
// ---------------------------------------------------------------------------

/// Element and accumulator precisions that kernels use.
#[derive(Debug, Clone, Copy, PartialEq, Eq, Structural)]
pub enum NumericKind {
    Bool,
    Fp4,
    F6E2M3,
    F6E3M2,
    U8,
    I8,
    F8E5M2,
    F8E4M3,
    F8E8M0,
    I16,
    U16,
    F16,
    Bf16,
    I32,
    U32,
    F32,
    C64,
    F64,
    I64,
    U64,
}

pub open spec fn spec_numeric_label(kind: NumericKind) -> Seq<char> {
    match kind {
        NumericKind::Bool => "bool"@,
        NumericKind::Fp4 => "fp4"@,
        NumericKind::F6E2M3 => "f6_e2m3"@,
        NumericKind::F6E3M2 => "f6_e3m2"@,
        NumericKind::U8 => "u8"@,
        NumericKind::I8 => "i8"@,
        NumericKind::F8E5M2 => "f8_e5m2"@,
        NumericKind::F8E4M3 => "f8_e4m3"@,
        NumericKind::F8E8M0 => "f8_e8m0"@,
        NumericKind::I16 => "i16"@,
        NumericKind::U16 => "u16"@,
        NumericKind::F16 => "f16"@,
        NumericKind::Bf16 => "bf16"@,
        NumericKind::I32 => "i32"@,
        NumericKind::U32 => "u32"@,
        NumericKind::F32 => "f32"@,
        NumericKind::C64 => "c64"@,
        NumericKind::F64 => "f64"@,
        NumericKind::I64 => "i64"@,
        NumericKind::U64 => "u64"@,
    }
}

/// The width of one element in bits.
pub open spec fn spec_numeric_bits(kind: NumericKind) -> usize {
    match kind {
        NumericKind::Bool => 1,
        NumericKind::Fp4 => 4,
        NumericKind::F6E2M3 | NumericKind::F6E3M2 => 6,
        NumericKind::U8 | NumericKind::I8 | NumericKind::F8E5M2 | NumericKind::F8E4M3
        | NumericKind::F8E8M0 => 8,
        NumericKind::I16 | NumericKind::U16 | NumericKind::F16 | NumericKind::Bf16 => 16,
        NumericKind::I32 | NumericKind::U32 | NumericKind::F32 => 32,
        NumericKind::C64 | NumericKind::F64 | NumericKind::I64 | NumericKind::U64 => 64,
    }
}

impl NumericKind {
    pub fn label(self) -> (r: &'static str)
        ensures
            r@ == spec_numeric_label(self),
    {
        match self {
            Self::Bool => "bool",
            Self::Fp4 => "fp4",
            Self::F6E2M3 => "f6_e2m3",
            Self::F6E3M2 => "f6_e3m2",
            Self::U8 => "u8",
            Self::I8 => "i8",
            Self::F8E5M2 => "f8_e5m2",
            Self::F8E4M3 => "f8_e4m3",
            Self::F8E8M0 => "f8_e8m0",
            Self::I16 => "i16",
            Self::U16 => "u16",
            Self::F16 => "f16",
            Self::Bf16 => "bf16",
            Self::I32 => "i32",
            Self::U32 => "u32",
            Self::F32 => "f32",
            Self::C64 => "c64",
            Self::F64 => "f64",
            Self::I64 => "i64",
            Self::U64 => "u64",
        }
    }

    pub fn bits(self) -> (r: usize)
        ensures
            r == spec_numeric_bits(self),
    {
        match self {
            Self::Bool => 1,
            Self::Fp4 => 4,
            Self::F6E2M3 | Self::F6E3M2 => 6,
            Self::U8 | Self::I8 | Self::F8E5M2 | Self::F8E4M3 | Self::F8E8M0 => 8,
            Self::I16 | Self::U16 | Self::F16 | Self::Bf16 => 16,
            Self::I32 | Self::U32 | Self::F32 => 32,
            Self::C64 | Self::F64 | Self::I64 | Self::U64 => 64,
        }
    }
}

/// A host element type with the precision its values are stored in and the one
/// they accumulate in.
pub trait ProfileNumericType: Copy {
    const KIND: NumericKind;
    const ACCUMULATOR: NumericKind;
}

#[derive(Debug, Clone, Copy, PartialEq, Eq)]
pub struct F32ProfileType;

impl ProfileNumericType for F32ProfileType {
    const KIND: NumericKind = NumericKind::F32;
    const ACCUMULATOR: NumericKind = NumericKind::F32;
}

#[derive(Debug, Clone, Copy, PartialEq, Eq)]
pub struct Bf16ProfileType;

impl ProfileNumericType for Bf16ProfileType {
    const KIND: NumericKind = NumericKind::Bf16;
    const ACCUMULATOR: NumericKind = NumericKind::F32;
}

#[derive(Debug, Clone, Copy, PartialEq, Eq)]
pub struct I8ProfileType;

impl ProfileNumericType for I8ProfileType {
    const KIND: NumericKind = NumericKind::I8;
    const ACCUMULATOR: NumericKind = NumericKind::F32;
}

/// The element and accumulator kinds of the host element types.
pub proof fn lemma_profile_type_kinds()
    ensures
        F32ProfileType::KIND == NumericKind::F32,
        F32ProfileType::ACCUMULATOR == NumericKind::F32,
        Bf16ProfileType::KIND == NumericKind::Bf16,
        Bf16ProfileType::ACCUMULATOR == NumericKind::F32,
        I8ProfileType::KIND == NumericKind::I8,
        I8ProfileType::ACCUMULATOR == NumericKind::F32,
{
}

// ---------------------------------------------------------------------------
// Tensor and operation descriptions
// ---------------------------------------------------------------------------

/// A tensor's element and accumulator precision, shape and optional layout name.
#[derive(Debug, Clone, PartialEq, Eq)]
pub struct TensorTypeSpec {
    pub dtype: NumericKind,
    pub accumulator: NumericKind,
    pub shape: Vec<usize>,
    pub layout: Option<String>,
}

/// The value of a tensor description, its strings taken as characters.
pub struct SpecTensorType {
    pub dtype: NumericKind,
    pub accumulator: NumericKind,
    pub shape: Seq<usize>,
    pub layout: Option<Seq<char>>,
}

pub open spec fn opt_string_view(s: Option<String>) -> Option<Seq<char>> {
    match s {
        Some(t) => Some(t@),
        None => None,
    }
}

impl View for TensorTypeSpec {
    type V = SpecTensorType;

    open spec fn view(&self) -> SpecTensorType {
        SpecTensorType {
            dtype: self.dtype,
            accumulator: self.accumulator,
            shape: self.shape@,
            layout: opt_string_view(self.layout),
        }
    }
}

impl TensorTypeSpec {
    pub fn new(dtype: NumericKind, accumulator: NumericKind, shape: Vec<usize>) -> (r: Self)
        ensures
            r@ == (SpecTensorType { dtype, accumulator, shape: shape@, layout: None }),
    {
        TensorTypeSpec { dtype, accumulator, shape, layout: None }
    }

    pub fn with_layout(self, layout: &str) -> (r: Self)
        ensures
            r@ == (SpecTensorType { layout: Some(layout@), ..self@ }),
    {
        let mut spec = self;
        spec.layout = Some(string_of(layout));
        spec
    }
}

/// A tensor description whose element type and rank are fixed by its type.
#[derive(Debug, PartialEq, Eq)]
pub struct TensorType<T: ProfileNumericType, const RANK: usize> {
    pub shape: [usize; RANK],
    pub layout: Option<&'static str>,
    _dtype: core::marker::PhantomData<T>,
}

impl<T: ProfileNumericType, const RANK: usize> Clone for TensorType<T, RANK> {
    fn clone(&self) -> (r: Self) {
        TensorType { shape: self.shape, layout: self.layout, _dtype: core::marker::PhantomData }
    }
}

impl<T: ProfileNumericType, const RANK: usize> TensorType<T, RANK> {
    /// The dimensions.
    pub closed spec fn spec_shape(self) -> Seq<usize> {
        self.shape@
    }

    /// The layout name, if one was given.
    pub closed spec fn spec_layout(self) -> Option<&'static str> {
        self.layout
    }

    pub fn new(shape: [usize; RANK]) -> (r: Self)
        ensures
            r.spec_shape() == shape@,
            r.spec_layout() is None,
    {
        TensorType { shape, layout: None, _dtype: core::marker::PhantomData }
    }

    pub fn with_static_layout(self, layout: &'static str) -> (r: Self)
        ensures
            r.spec_shape() == self.spec_shape(),
            r.spec_layout() == Some(layout),
    {
        let mut t = self;
        t.layout = Some(layout);
        t
    }

    /// The same description with the element type taken from `T` as a value.
    pub fn erase(&self) -> (r: TensorTypeSpec)
        ensures
            r@.dtype == T::KIND,
            r@.accumulator == T::ACCUMULATOR,
            r@.shape == self.spec_shape(),
            r@.layout == (match self.spec_layout() {
                Some(l) => Some(l@),
                None => None::<Seq<char>>,
            }),
    {
        let mut shape: Vec<usize> = Vec::new();
        let mut i: usize = 0;
        while i < RANK
            invariant
                i <= RANK,
                RANK == self.shape@.len(),
                shape@ == self.shape@.take(i as int),
            decreases RANK - i,
        {
            shape.push(self.shape[i]);
            i = i + 1;
        }
        proof {
            assert(self.shape@.take(RANK as int) =~= self.shape@);
        }
        let mut spec = TensorTypeSpec::new(T::KIND, T::ACCUMULATOR, shape);
        if let Some(layout) = self.layout {
            spec = spec.with_layout(layout);
        }
        spec
    }
}

/// What an operation does.
#[derive(Debug, Clone, Copy, PartialEq, Eq, Structural)]
pub enum OperationKind {
    Tokenize,
    RuntimeInit,
    Upload,
    Download,
    Elementwise,
    Matvec,
    Gemm,
    RmsNorm,
    Activation,
    Attention,
    Logits,
    QueueSubmit,
    WorkerDispatch,
    CudaSync,
    ModelPhase,
}

pub open spec fn spec_operation_kind_label(kind: OperationKind) -> Seq<char> {
    match kind {
        OperationKind::Tokenize => "tokenize"@,
        OperationKind::RuntimeInit => "runtime-init"@,
        OperationKind::Upload => "upload"@,
        OperationKind::Download => "download"@,
        OperationKind::Elementwise => "elementwise"@,
        OperationKind::Matvec => "matvec"@,
        OperationKind::Gemm => "gemm"@,
        OperationKind::RmsNorm => "rmsnorm"@,
        OperationKind::Activation => "activation"@,
        OperationKind::Attention => "attention"@,
        OperationKind::Logits => "logits"@,
        OperationKind::QueueSubmit => "queue-submit"@,
        OperationKind::WorkerDispatch => "worker-dispatch"@,
        OperationKind::CudaSync => "cuda-sync"@,
        OperationKind::ModelPhase => "model-phase"@,
    }
}

impl OperationKind {
    pub fn label(self) -> (r: &'static str)
        ensures
            r@ == spec_operation_kind_label(self),
    {
        match self {
            Self::Tokenize => "tokenize",
            Self::RuntimeInit => "runtime-init",
            Self::Upload => "upload",
            Self::Download => "download",
            Self::Elementwise => "elementwise",
            Self::Matvec => "matvec",
            Self::Gemm => "gemm",
            Self::RmsNorm => "rmsnorm",
            Self::Activation => "activation",
            Self::Attention => "attention",
            Self::Logits => "logits",
            Self::QueueSubmit => "queue-submit",
            Self::WorkerDispatch => "worker-dispatch",
            Self::CudaSync => "cuda-sync",
            Self::ModelPhase => "model-phase",
        }
    }
}

/// Where an operation runs.
#[derive(Debug, Clone, Copy, PartialEq, Eq, Structural)]
pub enum OperationRoute {
    Host,
    TokioCudaWorker,
    CudaKernel,
    CudaMemcpy,
    CudaSynchronize,
}

pub open spec fn spec_operation_route_label(route: OperationRoute) -> Seq<char> {
    match route {
        OperationRoute::Host => "host"@,
        OperationRoute::TokioCudaWorker => "tokio-cuda-worker"@,
        OperationRoute::CudaKernel => "cuda-kernel"@,
        OperationRoute::CudaMemcpy => "cuda-memcpy"@,
        OperationRoute::CudaSynchronize => "cuda-synchronize"@,
    }
}

impl OperationRoute {
    pub fn label(self) -> (r: &'static str)
        ensures
            r@ == spec_operation_route_label(self),
    {
        match self {
            Self::Host => "host",
            Self::TokioCudaWorker => "tokio-cuda-worker",
            Self::CudaKernel => "cuda-kernel",
            Self::CudaMemcpy => "cuda-memcpy",
            Self::CudaSynchronize => "cuda-synchronize",
        }
    }
}

/// An operation with its typed inputs and outputs and, for a kernel, its launch.
#[derive(Debug, Clone, PartialEq, Eq)]
pub struct TypedOperationSpec {
    pub name: String,
    pub kind: OperationKind,
    pub route: OperationRoute,
    pub inputs: Vec<TensorTypeSpec>,
    pub outputs: Vec<TensorTypeSpec>,
    pub launch: Option<CudaLaunchSpec>,
}

pub open spec fn opt_launch_view(l: Option<CudaLaunchSpec>) -> Option<SpecLaunch> {
    match l {
        Some(v) => Some(v@),
        None => None,
    }
}

impl TypedOperationSpec {
    pub fn new(name: &str, kind: OperationKind, route: OperationRoute) -> (r: Self)
        ensures
            r.name@ == name@,
            r.kind == kind,
            r.route == route,
            r.inputs@.len() == 0,
            r.outputs@.len() == 0,
            r.launch is None,
    {
        TypedOperationSpec {
            name: string_of(name),
            kind,
            route,
            inputs: Vec::new(),
            outputs: Vec::new(),
            launch: None,
        }
    }

    pub fn with_input(self, input: TensorTypeSpec) -> (r: Self)
        ensures
            r.name == self.name,
            r.kind == self.kind,
            r.route == self.route,
            r.inputs@ == self.inputs@.push(input),
            r.outputs == self.outputs,
            r.launch == self.launch,
    {
        let mut op = self;
        op.inputs.push(input);
        op
    }

    pub fn with_output(self, output: TensorTypeSpec) -> (r: Self)
        ensures
            r.name == self.name,
            r.kind == self.kind,
            r.route == self.route,
            r.inputs == self.inputs,
            r.outputs@ == self.outputs@.push(output),
            r.launch == self.launch,
    {
        let mut op = self;
        op.outputs.push(output);
        op
    }

    pub fn with_launch(self, launch: CudaLaunchSpec) -> (r: Self)
        ensures
            r.name == self.name,
            r.kind == self.kind,
            r.route == self.route,
            r.inputs == self.inputs,
            r.outputs == self.outputs,
            r.launch == Some(launch),
    {
        let mut op = self;
        op.launch = Some(launch);
        op
    }
}

// ---------------------------------------------------------------------------
// Optimization actions
// ---------------------------------------------------------------------------

/// A schedule transformation of a kernel.
#[derive(Debug, Clone, Copy, PartialEq, Eq, Hash, Structural)]
pub enum OptimizationActionOp {
    Split,
    Unroll,
    TileGemm,
    StrideOrder,
}

impl OptimizationActionOp {
    pub fn label(self) -> (r: &'static str)
        ensures
            r@ == (match self {
                OptimizationActionOp::Split => "split"@,
                OptimizationActionOp::Unroll => "unroll"@,
                OptimizationActionOp::TileGemm => "tile-gemm"@,
                OptimizationActionOp::StrideOrder => "stride-order"@,
            }),
    {
        match self {
            Self::Split => "split",
            Self::Unroll => "unroll",
            Self::TileGemm => "tile-gemm",
            Self::StrideOrder => "stride-order",
        }
    }
}

/// Whether a transformation names a kernel that exists or one still to be generated.
#[derive(Debug, Clone, Copy, PartialEq, Eq, Hash, Structural)]
pub enum OptimizationActionMaterialization {
    Existing,
    DeferredGenerated,
}

impl OptimizationActionMaterialization {
    pub fn label(self) -> (r: &'static str)
        ensures
            r@ == (match self {
                OptimizationActionMaterialization::Existing => "existing"@,
                OptimizationActionMaterialization::DeferredGenerated => "deferred-generated"@,
            }),
    {
        match self {
            Self::Existing => "existing",
            Self::DeferredGenerated => "deferred-generated",
        }
    }
}

/// The parameter of a transformation.
#[derive(Debug, Clone, PartialEq, Eq, Hash)]
pub enum OptimizationActionArg {
    Factor(u32),
    Tile3d { m: u32, n: u32, k: u32 },
    AxisOrder(Vec<u8>),
}

/// One transformation of a kernel's schedule.
#[derive(Debug, Clone, PartialEq, Eq, Hash)]
pub struct OptimizationActionSpec {
    pub op: OptimizationActionOp,
    pub axis: Option<u8>,
    pub arg: OptimizationActionArg,
    pub materialization: OptimizationActionMaterialization,
}

impl OptimizationActionSpec {
    pub fn split(axis: u8, factor: u32, materialization: OptimizationActionMaterialization) -> (r: Self)
        ensures
            r == (OptimizationActionSpec {
                op: OptimizationActionOp::Split,
                axis: Some(axis),
                arg: OptimizationActionArg::Factor(factor),
                materialization,
            }),
    {
        OptimizationActionSpec {
            op: OptimizationActionOp::Split,
            axis: Some(axis),
            arg: OptimizationActionArg::Factor(factor),
            materialization,
        }
    }

    pub fn unroll(axis: u8, factor: u32) -> (r: Self)
        ensures
            r == (OptimizationActionSpec {
                op: OptimizationActionOp::Unroll,
                axis: Some(axis),
                arg: OptimizationActionArg::Factor(factor),
                materialization: OptimizationActionMaterialization::DeferredGenerated,
            }),
    {
        OptimizationActionSpec {
            op: OptimizationActionOp::Unroll,
            axis: Some(axis),
            arg: OptimizationActionArg::Factor(factor),
            materialization: OptimizationActionMaterialization::DeferredGenerated,
        }
    }

    pub fn tile_gemm(m: u32, n: u32, k: u32, materialization: OptimizationActionMaterialization) -> (r: Self)
        ensures
            r == (OptimizationActionSpec {
                op: OptimizationActionOp::TileGemm,
                axis: None,
                arg: OptimizationActionArg::Tile3d { m, n, k },
                materialization,
            }),
    {
        OptimizationActionSpec {
            op: OptimizationActionOp::TileGemm,
            axis: None,
            arg: OptimizationActionArg::Tile3d { m, n, k },
            materialization,
        }
    }

    pub fn stride_order(axes: Vec<u8>) -> (r: Self)
        ensures
            r.op == OptimizationActionOp::StrideOrder,
            r.axis is None,
            r.arg matches OptimizationActionArg::AxisOrder(a) && a@ == axes@,
            r.materialization == OptimizationActionMaterialization::DeferredGenerated,
    {
        OptimizationActionSpec {
            op: OptimizationActionOp::StrideOrder,
            axis: None,
            arg: OptimizationActionArg::AxisOrder(axes),
            materialization: OptimizationActionMaterialization::DeferredGenerated,
        }
    }
}

/// Whether a candidate's score was estimated or measured.
#[derive(Debug, Clone, Copy, PartialEq, Eq, Structural)]
pub enum OptimizationScoreSource {
    Heuristic,
    Measured,
}

impl OptimizationScoreSource {
    pub fn label(self) -> (r: &'static str)
        ensures
            r@ == (match self {
                OptimizationScoreSource::Heuristic => "heuristic"@,
                OptimizationScoreSource::Measured => "measured"@,
            }),
    {
        match self {
            Self::Heuristic => "heuristic",
            Self::Measured => "measured",
        }
    }
}

} // verus!
