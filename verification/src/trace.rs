//! Timelines of measured segments and traces of nested spans, with the self time of
//! each span: its duration less the part its children cover.
use vstd::prelude::*;

use crate::profiling::{
    instant_checked_duration_since, instant_duration_since, instant_elapsed, instant_now,
    opt_launch_view, spec_operation_kind_label, CudaLaunchSpec, ProfileDuration, ProfileTimeSource,
    TypedOperationSpec, MAX_DURATION_NANOS,
};
use crate::text::string_of;
use std::time::{Duration, Instant};

verus! {

/// `start + duration`, or the longest duration when the sum is longer.
pub open spec fn saturating_end(start: nat, duration: nat) -> nat {
    if start + duration <= MAX_DURATION_NANOS {
        start + duration
    } else {
        MAX_DURATION_NANOS as nat
    }
}

/// `value`, or `u64::MAX` when it is larger.
pub open spec fn saturating_u64(value: nat) -> nat {
    if value <= u64::MAX {
        value
    } else {
        u64::MAX as nat
    }
}

// ---------------------------------------------------------------------------
// Segments and timelines
// ---------------------------------------------------------------------------

/// One measured (or accounted) stretch of a profile.
#[derive(Debug, Clone, PartialEq)]
pub struct ProfileSegment {
    pub name: String,
    pub category: String,
    pub source: ProfileTimeSource,
    pub start_offset: Option<ProfileDuration>,
    pub duration: ProfileDuration,
    pub launch: Option<CudaLaunchSpec>,
    pub operation: Option<TypedOperationSpec>,
}

impl ProfileSegment {
    pub fn new(
        name: &str,
        category: &str,
        source: ProfileTimeSource,
        start_offset: Option<ProfileDuration>,
        duration: ProfileDuration,
    ) -> (r: Self)
        ensures
            r.name@ == name@,
            r.category@ == category@,
            r.source == source,
            r.start_offset == start_offset,
            r.duration == duration,
            r.launch is None,
            r.operation is None,
    {
        ProfileSegment {
            name: string_of(name),
            category: string_of(category),
            source,
            start_offset,
            duration,
            launch: None,
            operation: None,
        }
    }

    pub fn wall_clock(name: &str, category: &str, start_offset: ProfileDuration, duration: ProfileDuration) -> (r: Self)
        ensures
            r.name@ == name@,
            r.category@ == category@,
            r.source == ProfileTimeSource::WallClock,
            r.start_offset == Some(start_offset),
            r.duration == duration,
            r.launch is None,
            r.operation is None,
    {
        Self::new(name, category, ProfileTimeSource::WallClock, Some(start_offset), duration)
    }

    pub fn cuda_event(name: &str, category: &str, duration: ProfileDuration, launch: Option<CudaLaunchSpec>) -> (r: Self)
        ensures
            r.name@ == name@,
            r.category@ == category@,
            r.source == ProfileTimeSource::CudaEvent,
            r.start_offset is None,
            r.duration == duration,
            r.launch == launch,
            r.operation is None,
    {
        let mut segment = Self::new(name, category, ProfileTimeSource::CudaEvent, None, duration);
        segment.launch = launch;
        segment
    }

    pub fn self_time_accounting(name: &str, category: &str, start_offset: ProfileDuration, duration: ProfileDuration) -> (r: Self)
        ensures
            r.name@ == name@,
            r.category@ == category@,
            r.source == ProfileTimeSource::SelfTimeAccounting,
            r.start_offset == Some(start_offset),
            r.duration == duration,
            r.launch is None,
            r.operation is None,
    {
        Self::new(name, category, ProfileTimeSource::SelfTimeAccounting, Some(start_offset), duration)
    }

    pub fn with_launch(self, launch: CudaLaunchSpec) -> (r: Self)
        ensures
            r.name == self.name,
            r.category == self.category,
            r.source == self.source,
            r.start_offset == self.start_offset,
            r.duration == self.duration,
            r.launch == Some(launch),
            r.operation == self.operation,
    {
        let mut segment = self;
        segment.launch = Some(launch);
        segment
    }

    /// Attaches the operation; a segment without a launch takes the operation's.
    pub fn with_operation(self, operation: TypedOperationSpec) -> (r: Self)
        ensures
            r.name == self.name,
            r.category == self.category,
            r.source == self.source,
            r.start_offset == self.start_offset,
            r.duration == self.duration,
            self.launch is Some ==> r.launch == self.launch,
            self.launch is None ==> opt_launch_view(r.launch) == opt_launch_view(operation.launch),
            r.operation == Some(operation),
    {
        let mut segment = self;
        if segment.launch.is_none() {
            segment.launch = match &operation.launch {
                Some(launch) => Some(launch.duplicate()),
                None => None,
            };
        }
        segment.operation = Some(operation);
        segment
    }

    /// Where the segment ends, when its start is known.
    pub fn end_offset(&self) -> (r: Option<ProfileDuration>)
        ensures
            match self.start_offset {
                None => r is None,
                Some(start) => r matches Some(end) && end.nanos() == saturating_end(
                    start.nanos(),
                    self.duration.nanos(),
                ),
            },
    {
        match self.start_offset {
            Some(start) => Some(start.saturating_add(self.duration)),
            None => None,
        }
    }
}

/// A named profile that collects segments, measuring wall-clock spans from its start.
#[derive(Debug)]
pub struct ProfileTimeline {
    name: String,
    started_at: Instant,
    segments: Vec<ProfileSegment>,
}

impl Clone for ProfileTimeline {
    fn clone(&self) -> (r: Self) {
        ProfileTimeline {
            name: self.name.clone(),
            started_at: self.started_at,
            segments: self.segments.clone(),
        }
    }
}

impl ProfileTimeline {
    /// The timeline's name.
    pub closed spec fn spec_name(self) -> Seq<char> {
        self.name@
    }

    /// The segments recorded so far, in order.
    pub closed spec fn spec_segments(self) -> Seq<ProfileSegment> {
        self.segments@
    }

    pub fn start(name: &str) -> (r: Self)
        ensures
            r.spec_name() == name@,
            r.spec_segments() == Seq::<ProfileSegment>::empty(),
    {
        ProfileTimeline { name: string_of(name), started_at: instant_now(), segments: Vec::new() }
    }

    /// Runs `f` and records how long it took as a wall-clock segment; the clock decides
    /// the offsets.
    pub fn time<T>(&mut self, name: &str, category: &str, f: impl FnOnce() -> T) -> (r: T)
        requires
            f.requires(()),
        ensures
            f.ensures((), r),
            final(self).spec_name() == old(self).spec_name(),
            final(self).spec_segments().len() == old(self).spec_segments().len() + 1,
            final(self).spec_segments().drop_last() == old(self).spec_segments(),
            final(self).spec_segments().last().name@ == name@,
            final(self).spec_segments().last().category@ == category@,
            final(self).spec_segments().last().source == ProfileTimeSource::WallClock,
            final(self).spec_segments().last().start_offset is Some,
            final(self).spec_segments().last().launch is None,
            final(self).spec_segments().last().operation is None,
    {
        let started_at = instant_now();
        let result = f();
        let ended_at = instant_now();
        self.push_wall_clock_span(name, category, started_at, ended_at);
        result
    }

    pub fn record_cuda_event(&mut self, name: &str, category: &str, duration: ProfileDuration, launch: Option<CudaLaunchSpec>)
        ensures
            final(self).spec_name() == old(self).spec_name(),
            final(self).spec_segments().len() == old(self).spec_segments().len() + 1,
            final(self).spec_segments().drop_last() == old(self).spec_segments(),
            final(self).spec_segments().last().name@ == name@,
            final(self).spec_segments().last().category@ == category@,
            final(self).spec_segments().last().source == ProfileTimeSource::CudaEvent,
            final(self).spec_segments().last().start_offset is None,
            final(self).spec_segments().last().duration == duration,
            final(self).spec_segments().last().launch == launch,
            final(self).spec_segments().last().operation is None,
    {
        self.segments.push(ProfileSegment::cuda_event(name, category, duration, launch));
    }

    pub fn push_segment(&mut self, segment: ProfileSegment)
        ensures
            final(self).spec_name() == old(self).spec_name(),
            final(self).spec_segments() == old(self).spec_segments().push(segment),
    {
        self.segments.push(segment);
    }

    fn push_wall_clock_span(&mut self, name: &str, category: &str, started_at: Instant, ended_at: Instant)
        ensures
            final(self).spec_name() == old(self).spec_name(),
            final(self).spec_segments().len() == old(self).spec_segments().len() + 1,
            final(self).spec_segments().drop_last() == old(self).spec_segments(),
            final(self).spec_segments().last().name@ == name@,
            final(self).spec_segments().last().category@ == category@,
            final(self).spec_segments().last().source == ProfileTimeSource::WallClock,
            final(self).spec_segments().last().start_offset is Some,
            final(self).spec_segments().last().launch is None,
            final(self).spec_segments().last().operation is None,
    {
        let start_offset = match instant_checked_duration_since(&started_at, &self.started_at) {
            Some(d) => ProfileDuration::from_duration(d),
            None => ProfileDuration::zero(),
        };
        let duration = ProfileDuration::from_duration(instant_duration_since(&ended_at, &started_at));
        let ghost before = self.segments@;
        self.segments.push(ProfileSegment::wall_clock(name, category, start_offset, duration));
        proof {
            assert(self.segments@.drop_last() =~= before);
        }
    }

    /// Accredits the time since the timeline started with its segments: every stretch
    /// no measured segment covers gets an accounting segment. The clock decides the total.
    pub fn finalize(self, accounting_name: &str, accounting_category: &str) -> (r: crate::accredited::AccreditedProfile)
        requires
            crate::accredited::sum_durations(self.spec_segments(), self.spec_segments().len() as int, false)
                + MAX_DURATION_NANOS <= u128::MAX,
        ensures
            r.accredits(self.spec_name(), r.total, self.spec_segments(), accounting_name@, accounting_category@),
    {
        let ProfileTimeline { name, started_at, segments } = self;
        let total = ProfileDuration::from_duration(instant_elapsed(&started_at));
        proof {
            use_type_invariant(&total);
        }
        crate::accredited::AccreditedProfile::new(name.as_str(), total, segments, accounting_name, accounting_category)
    }

    /// The timeline's name.
    pub fn name(&self) -> (r: &str)
        ensures
            r@ == self.spec_name(),
    {
        self.name.as_str()
    }

    /// The clock reading the timeline started at.
    pub closed spec fn spec_started_at(&self) -> Instant {
        self.started_at
    }

    /// When the timeline started.
    pub fn started_at(&self) -> (r: Instant)
        ensures
            r == self.spec_started_at(),
    {
        self.started_at
    }

    /// The segments recorded so far.
    pub fn segments(&self) -> (r: &[ProfileSegment])
        ensures
            r@ == self.spec_segments(),
    {
        self.segments.as_slice()
    }
}

// ---------------------------------------------------------------------------
// Spans and traces
// ---------------------------------------------------------------------------

/// A timed span of a trace; `parent_id` names the span it ran inside.
#[derive(Debug, Clone, PartialEq)]
pub struct ProfileSpan {
    pub id: usize,
    pub parent_id: Option<usize>,
    pub name: String,
    pub category: String,
    pub source: ProfileTimeSource,
    pub start_offset: ProfileDuration,
    pub duration: ProfileDuration,
    pub self_duration: ProfileDuration,
    pub operation: Option<TypedOperationSpec>,
}

/// Where a span ends, in nanoseconds.
pub open spec fn span_end(span: ProfileSpan) -> nat {
    saturating_end(span.start_offset.nanos(), span.duration.nanos())
}

impl ProfileSpan {
    pub fn end_offset(&self) -> (r: ProfileDuration)
        ensures
            r.nanos() == span_end(*self),
    {
        self.start_offset.saturating_add(self.duration)
    }
}

/// The spans of one traced run; the span without a parent is the whole run.
#[derive(Debug, Clone, PartialEq)]
pub struct ProfileTrace {
    pub name: String,
    pub total: ProfileDuration,
    pub spans: Vec<ProfileSpan>,
}

impl ProfileTrace {
    /// The first span without a parent.
    pub fn root(&self) -> (r: Option<&ProfileSpan>)
        ensures
            match r {
                None => forall|i: int| 0 <= i < self.spans@.len() ==> self.spans@[i].parent_id is Some,
                Some(span) => exists|i: int|
                    0 <= i < self.spans@.len() && *span == self.spans@[i] && span.parent_id is None
                        && forall|j: int| 0 <= j < i ==> self.spans@[j].parent_id is Some,
            },
    {
        let mut i: usize = 0;
        while i < self.spans.len()
            invariant
                i <= self.spans@.len(),
                forall|j: int| 0 <= j < i ==> self.spans@[j].parent_id is Some,
            decreases self.spans@.len() - i,
        {
            if self.spans[i].parent_id.is_none() {
                return Some(&self.spans[i]);
            }
            i = i + 1;
        }
        None
    }
}

// ---------------------------------------------------------------------------
// Intervals
// ---------------------------------------------------------------------------

/// The part of `child` that lies inside `parent`, when it is not empty.
pub open spec fn spec_clipped_child(parent: ProfileSpan, child: ProfileSpan) -> Option<(u128, u128)> {
    let parent_start = parent.start_offset.nanos();
    let parent_end = span_end(parent);
    let child_start = if child.start_offset.nanos() >= parent_start {
        child.start_offset.nanos()
    } else {
        parent_start
    };
    let child_end = if span_end(child) <= parent_end {
        span_end(child)
    } else {
        parent_end
    };
    if child_end > child_start {
        Some((child_start as u128, child_end as u128))
    } else {
        None
    }
}

/// The clipped intervals of the children of `parent` among the first `n` spans, in order.
pub open spec fn spec_child_intervals(spans: Seq<ProfileSpan>, parent: ProfileSpan, n: int) -> Seq<(u128, u128)>
    decreases n,
{
    if n <= 0 {
        seq![]
    } else {
        let before = spec_child_intervals(spans, parent, n - 1);
        let child = spans[n - 1];
        if child.parent_id == Some(parent.id) {
            match spec_clipped_child(parent, child) {
                Some(interval) => before.push(interval),
                None => before,
            }
        } else {
            before
        }
    }
}

/// Adds one interval to a merged list: it extends the last interval when it starts
/// no later than that one ends, and is appended otherwise.
pub open spec fn merge_step(merged: Seq<(u128, u128)>, interval: (u128, u128)) -> Seq<(u128, u128)> {
    if merged.len() > 0 && interval.0 <= merged.last().1 {
        let last = merged.last();
        merged.update(
            merged.len() - 1,
            (last.0, if last.1 >= interval.1 { last.1 } else { interval.1 }),
        )
    } else {
        merged.push(interval)
    }
}

/// The intervals merged in the order given.
pub open spec fn spec_merge(intervals: Seq<(u128, u128)>) -> Seq<(u128, u128)>
    decreases intervals.len(),
{
    if intervals.len() == 0 {
        seq![]
    } else {
        merge_step(spec_merge(intervals.drop_last()), intervals.last())
    }
}

/// The total length of the intervals, an interval that ends before it starts counting zero.
pub open spec fn spec_covered(intervals: Seq<(u128, u128)>) -> nat
    decreases intervals.len(),
{
    if intervals.len() == 0 {
        0
    } else {
        let last = intervals.last();
        spec_covered(intervals.drop_last()) + if last.1 >= last.0 {
            (last.1 - last.0) as nat
        } else {
            0
        }
    }
}

/// Every interval lies in `[lo, hi]`, is not empty, and starts after the one before ends.
pub open spec fn is_chain(intervals: Seq<(u128, u128)>, lo: nat, hi: nat) -> bool {
    &&& forall|k: int| 0 <= k < intervals.len() ==> lo <= #[trigger] intervals[k].0 < intervals[k].1 <= hi
    &&& forall|k: int| 0 <= k < intervals.len() - 1 ==> #[trigger] intervals[k].1 < intervals[k + 1].0
}

/// Every interval lies in `[lo, hi]` and is not empty.
pub open spec fn all_within(intervals: Seq<(u128, u128)>, lo: nat, hi: nat) -> bool {
    forall|k: int| 0 <= k < intervals.len() ==> lo <= #[trigger] intervals[k].0 < intervals[k].1 <= hi
}

/// Merging intervals that lie in `[lo, hi]` gives a chain in `[lo, hi]`.
pub proof fn lemma_merge_is_chain(intervals: Seq<(u128, u128)>, lo: nat, hi: nat)
    requires
        all_within(intervals, lo, hi),
    ensures
        is_chain(spec_merge(intervals), lo, hi),
    decreases intervals.len(),
{
    if intervals.len() > 0 {
        let rest = intervals.drop_last();
        assert(all_within(rest, lo, hi)) by {
            assert forall|k: int| 0 <= k < rest.len() implies lo <= #[trigger] rest[k].0 < rest[k].1 <= hi by {
                assert(rest[k] == intervals[k]);
            }
        }
        lemma_merge_is_chain(rest, lo, hi);
        let m = spec_merge(rest);
        let iv = intervals.last();
        assert(lo <= iv.0 < iv.1 <= hi) by {
            assert(iv == intervals[intervals.len() - 1]);
        }
        let out = merge_step(m, iv);
        if m.len() > 0 && iv.0 <= m.last().1 {
            assert forall|k: int| 0 <= k < out.len() implies lo <= #[trigger] out[k].0 < out[k].1 <= hi by {
                if k < out.len() - 1 {
                    assert(out[k] == m[k]);
                } else {
                    assert(m[m.len() - 1] == m.last());
                }
            }
            assert forall|k: int| 0 <= k < out.len() - 1 implies #[trigger] out[k].1 < out[k + 1].0 by {
                assert(out[k] == m[k]);
                if k + 1 < out.len() - 1 {
                    assert(out[k + 1] == m[k + 1]);
                } else {
                    assert(out[k + 1].0 == m[k + 1].0);
                }
            }
        } else {
            assert forall|k: int| 0 <= k < out.len() implies lo <= #[trigger] out[k].0 < out[k].1 <= hi by {
                if k < m.len() {
                    assert(out[k] == m[k]);
                }
            }
            assert forall|k: int| 0 <= k < out.len() - 1 implies #[trigger] out[k].1 < out[k + 1].0 by {
                assert(out[k] == m[k]);
                if k + 1 < m.len() {
                    assert(out[k + 1] == m[k + 1]);
                } else {
                    assert(m[m.len() - 1] == m.last());
                }
            }
        }
    }
}

/// A chain in `[lo, hi]` covers no more than its own span: `lo + covered <= last end`.
pub proof fn lemma_chain_covered(intervals: Seq<(u128, u128)>, lo: nat, hi: nat)
    requires
        is_chain(intervals, lo, hi),
    ensures
        lo + spec_covered(intervals) <= if intervals.len() == 0 {
            lo
        } else {
            intervals.last().1 as nat
        },
        spec_covered(intervals) + lo <= hi || intervals.len() == 0,
    decreases intervals.len(),
{
    if intervals.len() > 0 {
        let rest = intervals.drop_last();
        assert(is_chain(rest, lo, hi)) by {
            assert forall|k: int| 0 <= k < rest.len() implies lo <= #[trigger] rest[k].0 < rest[k].1 <= hi by {
                assert(rest[k] == intervals[k]);
            }
            assert forall|k: int| 0 <= k < rest.len() - 1 implies #[trigger] rest[k].1 < rest[k + 1].0 by {
                assert(rest[k] == intervals[k]);
                assert(rest[k + 1] == intervals[k + 1]);
            }
        }
        lemma_chain_covered(rest, lo, hi);
        let last = intervals.last();
        assert(last == intervals[intervals.len() - 1]);
        if rest.len() > 0 {
            assert(rest.last() == intervals[intervals.len() - 2]);
            assert(intervals[intervals.len() - 2].1 < intervals[intervals.len() - 1].0);
        }
    }
}

/// The interval of `child` inside `parent`, when not empty.
pub fn clipped_child_interval(parent: &ProfileSpan, child: &ProfileSpan) -> (r: Option<(u128, u128)>)
    ensures
        r == spec_clipped_child(*parent, *child),
{
    let parent_start = parent.start_offset.as_nanos_u128();
    let parent_end = parent.end_offset().as_nanos_u128();
    let child_start_raw = child.start_offset.as_nanos_u128();
    let child_start = if child_start_raw >= parent_start { child_start_raw } else { parent_start };
    let child_end_raw = child.end_offset().as_nanos_u128();
    let child_end = if child_end_raw <= parent_end { child_end_raw } else { parent_end };
    if child_end > child_start {
        Some((child_start, child_end))
    } else {
        None
    }
}

/// Merges intervals in the order given: each one that starts no later than the
/// last merged interval ends extends it.
pub fn merge_intervals(intervals: Vec<(u128, u128)>) -> (r: Vec<(u128, u128)>)
    ensures
        r@ == spec_merge(intervals@),
{
    let mut merged: Vec<(u128, u128)> = Vec::new();
    let mut i: usize = 0;
    while i < intervals.len()
        invariant
            i <= intervals@.len(),
            merged@ == spec_merge(intervals@.take(i as int)),
        decreases intervals@.len() - i,
    {
        let (start, end) = intervals[i];
        proof {
            assert(intervals@.take(i + 1).drop_last() =~= intervals@.take(i as int));
            assert(intervals@.take(i + 1).last() == intervals@[i as int]);
        }
        let n = merged.len();
        if n > 0 && start <= merged[n - 1].1 {
            let (last_start, last_end) = merged[n - 1];
            let new_end = if last_end >= end { last_end } else { end };
            merged.set(n - 1, (last_start, new_end));
        } else {
            merged.push((start, end));
        }
        i = i + 1;
    }
    proof {
        assert(intervals@.take(intervals@.len() as int) =~= intervals@);
    }
    merged
}

/// The total length of the intervals.
pub fn covered_nanos(intervals: &[(u128, u128)]) -> (r: u128)
    requires
        spec_covered(intervals@) <= u128::MAX,
    ensures
        r == spec_covered(intervals@),
{
    let mut total: u128 = 0;
    let mut i: usize = 0;
    while i < intervals.len()
        invariant
            i <= intervals@.len(),
            total == spec_covered(intervals@.take(i as int)),
            spec_covered(intervals@) <= u128::MAX,
        decreases intervals@.len() - i,
    {
        proof {
            assert(intervals@.take(i + 1).drop_last() =~= intervals@.take(i as int));
            lemma_covered_prefix(intervals@, i + 1);
        }
        let (start, end) = intervals[i];
        let len = if end >= start { end - start } else { 0 };
        total = total + len;
        i = i + 1;
    }
    proof {
        assert(intervals@.take(intervals@.len() as int) =~= intervals@);
    }
    total
}

/// A prefix covers no more than the whole list.
pub proof fn lemma_covered_prefix(intervals: Seq<(u128, u128)>, n: int)
    requires
        0 <= n <= intervals.len(),
    ensures
        spec_covered(intervals.take(n)) <= spec_covered(intervals),
    decreases intervals.len() - n,
{
    if n < intervals.len() {
        lemma_covered_prefix(intervals, n + 1);
        assert(intervals.take(n + 1).drop_last() =~= intervals.take(n));
    } else {
        assert(intervals.take(n) =~= intervals);
    }
}

// ---------------------------------------------------------------------------
// Self time
// ---------------------------------------------------------------------------

/// The child intervals of `parent` all lie inside it and are not empty.
pub proof fn lemma_child_intervals_within(spans: Seq<ProfileSpan>, parent: ProfileSpan, n: int)
    requires
        0 <= n <= spans.len(),
    ensures
        all_within(spec_child_intervals(spans, parent, n), parent.start_offset.nanos(), span_end(parent)),
    decreases n,
{
    if n > 0 {
        lemma_child_intervals_within(spans, parent, n - 1);
        let before = spec_child_intervals(spans, parent, n - 1);
        let out = spec_child_intervals(spans, parent, n);
        assert forall|k: int| 0 <= k < out.len() implies parent.start_offset.nanos() <= #[trigger] out[k].0
            < out[k].1 <= span_end(parent) by {
            if k < before.len() {
                assert(out[k] == before[k]);
            }
        }
    }
}

/// The time `span` spends outside its children: its duration less the length that
/// its children's clipped, merged intervals cover, at least zero and at most
/// `u64::MAX` nanoseconds.
pub open spec fn spec_self_nanos(spans: Seq<ProfileSpan>, span: ProfileSpan) -> nat {
    let covered = spec_covered(spec_merge(spec_child_intervals(spans, span, spans.len() as int)));
    saturating_u64(
        if span.duration.nanos() >= covered {
            (span.duration.nanos() - covered) as nat
        } else {
            0
        },
    )
}

/// `span` with its self time replaced.
pub open spec fn with_self(span: ProfileSpan, self_duration: ProfileDuration) -> ProfileSpan {
    ProfileSpan {
        id: span.id,
        parent_id: span.parent_id,
        name: span.name,
        category: span.category,
        source: span.source,
        start_offset: span.start_offset,
        duration: span.duration,
        self_duration,
        operation: span.operation,
    }
}

/// Every span with its self time filled in, in the original order.
pub open spec fn spec_with_self(spans: Seq<ProfileSpan>) -> Seq<ProfileSpan> {
    Seq::new(
        spans.len(),
        |i: int| with_self(spans[i], ProfileDuration::of_nanos(spec_self_nanos(spans, spans[i]))),
    )
}

/// The first position at or after `from` whose id is greater than `id`.
pub open spec fn first_greater(s: Seq<ProfileSpan>, id: usize, from: int) -> int
    decreases s.len() - from,
{
    if from < 0 || from >= s.len() || s[from].id > id {
        from
    } else {
        first_greater(s, id, from + 1)
    }
}

/// `x` inserted after every span whose id is not greater than its own.
pub open spec fn insert_by_id(sorted: Seq<ProfileSpan>, x: ProfileSpan) -> Seq<ProfileSpan> {
    sorted.insert(first_greater(sorted, x.id, 0), x)
}

/// The spans ordered by id; spans with equal ids keep their order.
pub open spec fn sort_by_id(s: Seq<ProfileSpan>) -> Seq<ProfileSpan>
    decreases s.len(),
{
    if s.len() == 0 {
        seq![]
    } else {
        insert_by_id(sort_by_id(s.drop_last()), s.last())
    }
}

/// The spans with their self times, ordered by id.
pub open spec fn spec_with_self_durations(spans: Seq<ProfileSpan>) -> Seq<ProfileSpan> {
    sort_by_id(spec_with_self(spans))
}

pub open spec fn sorted_by_id(s: Seq<ProfileSpan>) -> bool {
    forall|i: int, j: int| 0 <= i < j < s.len() ==> s[i].id <= s[j].id
}

pub proof fn lemma_first_greater(s: Seq<ProfileSpan>, id: usize, from: int)
    requires
        0 <= from <= s.len(),
    ensures
        from <= first_greater(s, id, from) <= s.len(),
        forall|k: int| from <= k < first_greater(s, id, from) ==> s[k].id <= id,
        first_greater(s, id, from) < s.len() ==> s[first_greater(s, id, from)].id > id,
    decreases s.len() - from,
{
    if from < s.len() && s[from].id <= id {
        lemma_first_greater(s, id, from + 1);
    }
}

pub proof fn lemma_insert_sorted(s: Seq<ProfileSpan>, x: ProfileSpan)
    requires
        sorted_by_id(s),
    ensures
        sorted_by_id(insert_by_id(s, x)),
        insert_by_id(s, x).len() == s.len() + 1,
        insert_by_id(s, x).to_multiset() == s.to_multiset().insert(x),
{
    lemma_first_greater(s, x.id, 0);
    let p = first_greater(s, x.id, 0);
    let t = s.insert(p, x);
    assert forall|i: int, j: int| 0 <= i < j < t.len() implies t[i].id <= t[j].id by {
        if j < p {
            assert(t[i] == s[i] && t[j] == s[j]);
        } else if j == p {
            assert(t[i] == s[i]);
        } else if i < p {
            assert(t[i] == s[i] && t[j] == s[j - 1]);
            assert(s[p].id > x.id);
            if j - 1 > p {
                assert(s[p].id <= s[j - 1].id);
            }
        } else if i == p {
            assert(t[j] == s[j - 1]);
            assert(s[p].id <= s[j - 1].id || p == j - 1);
        } else {
            assert(t[i] == s[i - 1] && t[j] == s[j - 1]);
        }
    }
    vstd::seq_lib::to_multiset_insert(s, p, x);
}

/// Ordering by id gives a list sorted by id that holds the same spans.
pub proof fn lemma_sort_by_id(s: Seq<ProfileSpan>)
    ensures
        sorted_by_id(sort_by_id(s)),
        sort_by_id(s).len() == s.len(),
        sort_by_id(s).to_multiset() == s.to_multiset(),
    decreases s.len(),
{
    broadcast use vstd::seq_lib::to_multiset_build;

    if s.len() == 0 {
        assert(s =~= Seq::<ProfileSpan>::empty());
        assert(sort_by_id(s) =~= Seq::<ProfileSpan>::empty());
    } else {
        lemma_sort_by_id(s.drop_last());
        lemma_insert_sorted(sort_by_id(s.drop_last()), s.last());
        assert(s.drop_last().push(s.last()) =~= s);
    }
}

/// The self time that `with_self_durations` gives a span.
fn span_self_duration(spans: &Vec<ProfileSpan>, i: usize) -> (r: ProfileDuration)
    requires
        i < spans@.len(),
    ensures
        r.nanos() == spec_self_nanos(spans@, spans@[i as int]),
{
    let n = spans.len();
    let parent = &spans[i];
    let mut children: Vec<(u128, u128)> = Vec::new();
    let mut j: usize = 0;
    while j < n
        invariant
            n == spans@.len(),
            i < n,
            *parent == spans@[i as int],
            j <= n,
            children@ == spec_child_intervals(spans@, spans@[i as int], j as int),
        decreases n - j,
    {
        let child = &spans[j];
        let is_child = match child.parent_id {
            Some(p) => p == parent.id,
            None => false,
        };
        if is_child {
            match clipped_child_interval(parent, child) {
                Some(interval) => {
                    children.push(interval);
                },
                None => {},
            }
        }
        j = j + 1;
    }
    proof {
        lemma_child_intervals_within(spans@, *parent, n as int);
        lemma_merge_is_chain(children@, parent.start_offset.nanos(), span_end(*parent));
        lemma_chain_covered(spec_merge(children@), parent.start_offset.nanos(), span_end(*parent));
    }
    let merged = merge_intervals(children);
    let covered = covered_nanos(merged.as_slice());
    let duration = parent.duration.as_nanos_u128();
    let self_nanos = if duration >= covered { duration - covered } else { 0 };
    let capped = if self_nanos > u64::MAX as u128 { u64::MAX } else { self_nanos as u64 };
    ProfileDuration::from_nanos(capped)
}

/// Fills in each span's self time (its duration less what its children cover) and
/// orders the spans by id, spans with equal ids keeping their order.
pub fn with_self_durations(spans: Vec<ProfileSpan>) -> (r: Vec<ProfileSpan>)
    ensures
        r@ == spec_with_self_durations(spans@),
{
    broadcast use crate::profiling::ProfileDuration::lemma_of_nanos;

    let n = spans.len();
    let mut self_durations: Vec<ProfileDuration> = Vec::new();
    let mut i: usize = 0;
    while i < n
        invariant
            n == spans@.len(),
            i <= n,
            self_durations@.len() == i,
            forall|k: int| 0 <= k < i ==> #[trigger] self_durations@[k] == ProfileDuration::of_nanos(
                spec_self_nanos(spans@, spans@[k]),
            ),
        decreases n - i,
    {
        let d = span_self_duration(&spans, i);
        proof {
            let v = spec_self_nanos(spans@, spans@[i as int]);
            ProfileDuration::lemma_of_nanos(v);
            crate::profiling::lemma_duration_ext(d, ProfileDuration::of_nanos(v));
        }
        self_durations.push(d);
        i = i + 1;
    }
    let ghost updated = spec_with_self(spans@);
    let ghost original = spans@;
    let mut rest = spans;
    let mut sorted: Vec<ProfileSpan> = Vec::new();
    let mut k: usize = 0;
    while k < n
        invariant
            n == original.len(),
            updated == spec_with_self(original),
            self_durations@.len() == n,
            forall|m: int| 0 <= m < n ==> #[trigger] self_durations@[m] == ProfileDuration::of_nanos(
                spec_self_nanos(original, original[m]),
            ),
            k <= n,
            rest@ == original.skip(k as int),
            sorted@ == sort_by_id(updated.take(k as int)),
        decreases n - k,
    {
        let mut span = rest.remove(0);
        span.self_duration = self_durations[k];
        proof {
            assert(span == updated[k as int]);
            assert(updated.take(k + 1).drop_last() =~= updated.take(k as int));
            assert(updated.take(k + 1).last() == updated[k as int]);
            assert(rest@ =~= original.skip(k + 1));
        }
        let id = span.id;
        let mut p: usize = 0;
        while p < sorted.len() && sorted[p].id <= id
            invariant
                p <= sorted@.len(),
                first_greater(sorted@, id, p as int) == first_greater(sorted@, id, 0),
            decreases sorted@.len() - p,
        {
            p = p + 1;
        }
        sorted.insert(p, span);
        k = k + 1;
    }
    proof {
        assert(updated.take(n as int) =~= updated);
    }
    sorted
}

/// The self time of every span is at most its duration, and is exactly its duration
/// less what its children cover whenever that is below `u64::MAX` nanoseconds.
pub proof fn lemma_self_time_within_duration(spans: Seq<ProfileSpan>, k: int)
    requires
        0 <= k < spans.len(),
    ensures
        spec_self_nanos(spans, spans[k]) <= spans[k].duration.nanos(),
        spec_self_nanos(spans, spans[k]) + spec_covered(
            spec_merge(spec_child_intervals(spans, spans[k], spans.len() as int)),
        ) >= spans[k].duration.nanos() || spec_self_nanos(spans, spans[k]) == u64::MAX,
{
}

/// Filling in self times keeps every span, orders them by id, and changes nothing of a
/// span but its self time.
pub proof fn lemma_with_self_durations_permutes(spans: Seq<ProfileSpan>)
    ensures
        sorted_by_id(spec_with_self_durations(spans)),
        spec_with_self_durations(spans).len() == spans.len(),
        spec_with_self_durations(spans).to_multiset() == spec_with_self(spans).to_multiset(),
        forall|i: int| 0 <= i < spans.len() ==> #[trigger] spec_with_self(spans)[i] == with_self(
            spans[i],
            ProfileDuration::of_nanos(spec_self_nanos(spans, spans[i])),
        ),
{
    lemma_sort_by_id(spec_with_self(spans));
}

/// Filling in self times keeps the number of spans.
proof fn lemma_with_self_durations_len(spans: Seq<ProfileSpan>)
    ensures
        spec_with_self_durations(spans).len() == spans.len(),
{
    lemma_sort_by_id(spec_with_self(spans));
}

/// A span that no other span names as its parent keeps its whole duration as self time
/// (up to `u64::MAX` nanoseconds).
pub proof fn lemma_leaf_self_time(spans: Seq<ProfileSpan>, k: int)
    requires
        0 <= k < spans.len(),
        forall|j: int| 0 <= j < spans.len() ==> spans[j].parent_id != Some(spans[k].id),
    ensures
        spec_self_nanos(spans, spans[k]) == saturating_u64(spans[k].duration.nanos()),
{
    lemma_no_children(spans, spans[k], spans.len() as int);
    assert(spec_merge(Seq::<(u128, u128)>::empty()) =~= Seq::<(u128, u128)>::empty());
}

proof fn lemma_no_children(spans: Seq<ProfileSpan>, parent: ProfileSpan, n: int)
    requires
        0 <= n <= spans.len(),
        forall|j: int| 0 <= j < spans.len() ==> spans[j].parent_id != Some(parent.id),
    ensures
        spec_child_intervals(spans, parent, n) == Seq::<(u128, u128)>::empty(),
    decreases n,
{
    if n > 0 {
        lemma_no_children(spans, parent, n - 1);
    }
}

/// The intervals start in order.
pub open spec fn starts_sorted(intervals: Seq<(u128, u128)>) -> bool {
    forall|i: int, j: int| 0 <= i < j < intervals.len() ==> #[trigger] intervals[i].0 <= #[trigger] intervals[j].0
}

/// The instant `t` lies in one of the intervals.
pub open spec fn covers(intervals: Seq<(u128, u128)>, t: int) -> bool {
    exists|k: int| 0 <= k < intervals.len() && #[trigger] intervals[k].0 <= t < intervals[k].1
}

/// The children of `parent` appear in `spans` in the order they started.
pub open spec fn children_in_start_order(spans: Seq<ProfileSpan>, parent: ProfileSpan) -> bool {
    forall|i: int, j: int|
        0 <= i < j < spans.len() && spans[i].parent_id == Some(parent.id) && spans[j].parent_id == Some(parent.id)
            ==> #[trigger] spans[i].start_offset.nanos() <= #[trigger] spans[j].start_offset.nanos()
}

/// Where the interval of `child` inside `parent` starts.
pub open spec fn clip_start(parent: ProfileSpan, child: ProfileSpan) -> u128 {
    (if child.start_offset.nanos() >= parent.start_offset.nanos() {
        child.start_offset.nanos()
    } else {
        parent.start_offset.nanos()
    }) as u128
}

/// Children in start order give clipped intervals in start order, each starting no
/// later than any child still to come.
proof fn lemma_child_intervals_sorted(spans: Seq<ProfileSpan>, parent: ProfileSpan, n: int)
    requires
        children_in_start_order(spans, parent),
        0 <= n <= spans.len(),
    ensures
        starts_sorted(spec_child_intervals(spans, parent, n)),
        forall|k: int, j: int|
            0 <= k < spec_child_intervals(spans, parent, n).len() && n <= j < spans.len() && spans[j].parent_id
                == Some(parent.id) ==> #[trigger] spec_child_intervals(spans, parent, n)[k].0 <= #[trigger] clip_start(
                parent,
                spans[j],
            ),
    decreases n,
{
    if n > 0 {
        lemma_child_intervals_sorted(spans, parent, n - 1);
        let before = spec_child_intervals(spans, parent, n - 1);
        let out = spec_child_intervals(spans, parent, n);
        let child = spans[n - 1];
        parent.start_offset.lemma_nanos_fit();
        child.start_offset.lemma_nanos_fit();
        if child.parent_id == Some(parent.id) && spec_clipped_child(parent, child) is Some {
            assert forall|j: int| n <= j < spans.len() && spans[j].parent_id == Some(parent.id) implies clip_start(
                parent,
                child,
            ) <= #[trigger] clip_start(parent, spans[j]) by {
                spans[j].start_offset.lemma_nanos_fit();
                assert(spans[n - 1].start_offset.nanos() <= spans[j].start_offset.nanos());
            }
            let iv = spec_clipped_child(parent, child)->0;
            assert(iv.0 == clip_start(parent, child));
            assert(out == before.push(iv));
            assert forall|i: int, j: int| 0 <= i < j < out.len() implies #[trigger] out[i].0 <= #[trigger] out[j].0 by {
                assert(out[i] == before[i]);
                if j < before.len() {
                    assert(out[j] == before[j]);
                } else {
                    assert(before[i].0 <= clip_start(parent, spans[n - 1]));
                }
            }
            assert forall|k: int, j: int|
                0 <= k < out.len() && n <= j < spans.len() && spans[j].parent_id == Some(parent.id) implies #[trigger] out[k].0
                <= #[trigger] clip_start(parent, spans[j]) by {
                if k < before.len() {
                    assert(out[k] == before[k]);
                }
            }
        }
    }
}

/// Merging intervals that start in order covers exactly the instants the intervals
/// cover, and the last merged interval starts no later than the last interval.
pub proof fn lemma_merge_covers(intervals: Seq<(u128, u128)>)
    requires
        starts_sorted(intervals),
    ensures
        forall|t: int| #[trigger] covers(spec_merge(intervals), t) == covers(intervals, t),
        intervals.len() > 0 ==> spec_merge(intervals).len() > 0 && spec_merge(intervals).last().0
            <= intervals.last().0,
    decreases intervals.len(),
{
    if intervals.len() > 0 {
        let rest = intervals.drop_last();
        let x = intervals.last();
        assert(starts_sorted(rest)) by {
            assert forall|i: int, j: int| 0 <= i < j < rest.len() implies #[trigger] rest[i].0 <= #[trigger] rest[j].0 by {
                assert(rest[i] == intervals[i] && rest[j] == intervals[j]);
            }
        }
        lemma_merge_covers(rest);
        let m = spec_merge(rest);
        let out = spec_merge(intervals);
        assert(out == merge_step(m, x));
        if rest.len() > 0 {
            assert(rest.last() == intervals[rest.len() - 1]);
            assert(x == intervals[intervals.len() - 1]);
            assert(rest.last().0 <= x.0);
        }
        assert forall|t: int| #[trigger] covers(out, t) == covers(intervals, t) by {
            assert(covers(intervals, t) == (covers(rest, t) || (x.0 <= t < x.1))) by {
                if covers(intervals, t) {
                    let k = choose|k: int| 0 <= k < intervals.len() && #[trigger] intervals[k].0 <= t < intervals[k].1;
                    if k < rest.len() {
                        assert(rest[k] == intervals[k]);
                    }
                }
                if covers(rest, t) {
                    let k = choose|k: int| 0 <= k < rest.len() && #[trigger] rest[k].0 <= t < rest[k].1;
                    assert(rest[k] == intervals[k]);
                }
                if x.0 <= t < x.1 {
                    assert(intervals[intervals.len() - 1] == x);
                }
            }
            if m.len() > 0 && x.0 <= m.last().1 {
                let last = m.last();
                let n = m.len() - 1;
                assert(last == m[n]);
                if covers(out, t) {
                    let k = choose|k: int| 0 <= k < out.len() && #[trigger] out[k].0 <= t < out[k].1;
                    if k < n {
                        assert(out[k] == m[k]);
                    } else if t < last.1 {
                        assert(m[n].0 <= t < m[n].1);
                    }
                }
                if covers(m, t) {
                    let k = choose|k: int| 0 <= k < m.len() && #[trigger] m[k].0 <= t < m[k].1;
                    if k < n {
                        assert(out[k] == m[k]);
                    } else {
                        assert(out[n].0 <= t < out[n].1);
                    }
                }
                if x.0 <= t < x.1 {
                    assert(out[n].0 <= t < out[n].1);
                }
            } else {
                if covers(out, t) {
                    let k = choose|k: int| 0 <= k < out.len() && #[trigger] out[k].0 <= t < out[k].1;
                    if k < m.len() {
                        assert(out[k] == m[k]);
                    }
                }
                if covers(m, t) {
                    let k = choose|k: int| 0 <= k < m.len() && #[trigger] m[k].0 <= t < m[k].1;
                    assert(out[k] == m[k]);
                }
                if x.0 <= t < x.1 {
                    assert(out[m.len() as int] == x);
                }
            }
        }
    }
}

/// The instants some interval covers.
pub open spec fn covered_instants(intervals: Seq<(u128, u128)>) -> Set<int> {
    Set::new(|t: int| covers(intervals, t))
}

/// In a chain, no interval ends after the last one does.
proof fn lemma_chain_last_end(m: Seq<(u128, u128)>, lo: nat, hi: nat, i: int)
    requires
        is_chain(m, lo, hi),
        0 <= i < m.len(),
    ensures
        m[i].1 <= m.last().1,
    decreases m.len() - i,
{
    if i < m.len() - 1 {
        lemma_chain_last_end(m, lo, hi, i + 1);
        assert(m[i].1 < m[i + 1].0);
    }
}

/// The number of instants a chain covers is its total length.
proof fn lemma_chain_measure(m: Seq<(u128, u128)>, lo: nat, hi: nat)
    requires
        is_chain(m, lo, hi),
    ensures
        covered_instants(m).finite(),
        covered_instants(m).len() == spec_covered(m),
    decreases m.len(),
{
    if m.len() == 0 {
        assert(covered_instants(m) =~= Set::<int>::empty());
    } else {
        let rest = m.drop_last();
        let last = m.last();
        assert(last == m[m.len() - 1]);
        assert(is_chain(rest, lo, hi)) by {
            assert forall|k: int| 0 <= k < rest.len() implies lo <= #[trigger] rest[k].0 < rest[k].1 <= hi by {
                assert(rest[k] == m[k]);
            }
            assert forall|k: int| 0 <= k < rest.len() - 1 implies #[trigger] rest[k].1 < rest[k + 1].0 by {
                assert(rest[k] == m[k]);
                assert(rest[k + 1] == m[k + 1]);
            }
        }
        lemma_chain_measure(rest, lo, hi);
        vstd::set_lib::lemma_int_range(last.0 as int, last.1 as int);
        let range = vstd::set_lib::set_int_range(last.0 as int, last.1 as int);
        assert(covered_instants(m) =~= covered_instants(rest) + range) by {
            assert forall|t: int| covered_instants(m).contains(t) implies (covered_instants(rest) + range).contains(t) by {
                let k = choose|k: int| 0 <= k < m.len() && #[trigger] m[k].0 <= t < m[k].1;
                if k < rest.len() {
                    assert(rest[k] == m[k]);
                    assert(covers(rest, t));
                }
            }
            assert forall|t: int| (covered_instants(rest) + range).contains(t) implies covered_instants(m).contains(t) by {
                if covers(rest, t) {
                    let k = choose|k: int| 0 <= k < rest.len() && #[trigger] rest[k].0 <= t < rest[k].1;
                    assert(rest[k] == m[k]);
                } else {
                    assert(m[m.len() - 1].0 <= t < m[m.len() - 1].1);
                }
            }
        }
        assert(covered_instants(rest).disjoint(range)) by {
            assert forall|t: int| covered_instants(rest).contains(t) implies !range.contains(t) by {
                let k = choose|k: int| 0 <= k < rest.len() && #[trigger] rest[k].0 <= t < rest[k].1;
                lemma_chain_last_end(rest, lo, hi, k);
                assert(rest.last() == m[m.len() - 2]);
                assert(m[m.len() - 2].1 < m[m.len() - 1].0);
            }
        }
        vstd::set_lib::lemma_set_disjoint_lens(covered_instants(rest), range);
    }
}

/// Merging intervals that are not empty and start in order, as the self-time
/// accounting does, gives intervals whose total length is the number of instants the
/// intervals together cover: the measure of their union.
pub proof fn lemma_merged_length_is_union_measure(intervals: Seq<(u128, u128)>)
    requires
        starts_sorted(intervals),
        forall|k: int| 0 <= k < intervals.len() ==> #[trigger] intervals[k].0 < intervals[k].1,
    ensures
        covered_instants(intervals).finite(),
        spec_covered(spec_merge(intervals)) == covered_instants(intervals).len(),
{
    let merged = spec_merge(intervals);
    assert(all_within(intervals, 0, u128::MAX as nat));
    lemma_merge_is_chain(intervals, 0, u128::MAX as nat);
    lemma_merge_covers(intervals);
    assert(covered_instants(merged) =~= covered_instants(intervals)) by {
        assert forall|t: int| covered_instants(merged).contains(t) == covered_instants(intervals).contains(t) by {
            assert(covers(merged, t) == covers(intervals, t));
        }
    }
    lemma_chain_measure(merged, 0, u128::MAX as nat);
}

/// A span's self time is its duration less the time its children cover: when its
/// children appear in the order they started, the self time is the span's duration
/// less the number of instants of the span that some child covers (at least zero, at
/// most `u64::MAX` nanoseconds), and the children's clipped intervals merge into
/// disjoint, ordered intervals inside the span that cover exactly those instants.
pub proof fn lemma_self_time_is_uncovered_time(spans: Seq<ProfileSpan>, k: int)
    requires
        0 <= k < spans.len(),
        children_in_start_order(spans, spans[k]),
    ensures
        ({
            let children = spec_child_intervals(spans, spans[k], spans.len() as int);
            let merged = spec_merge(children);
            let union = covered_instants(children).len();
            &&& is_chain(merged, spans[k].start_offset.nanos(), span_end(spans[k]))
            &&& forall|t: int| #[trigger] covers(merged, t) == covers(children, t)
            &&& covered_instants(children).finite()
            &&& spec_self_nanos(spans, spans[k]) == saturating_u64(
                if spans[k].duration.nanos() >= union {
                    (spans[k].duration.nanos() - union) as nat
                } else {
                    0
                },
            )
        }),
{
    let parent = spans[k];
    let children = spec_child_intervals(spans, parent, spans.len() as int);
    lemma_child_intervals_within(spans, parent, spans.len() as int);
    lemma_merge_is_chain(children, parent.start_offset.nanos(), span_end(parent));
    lemma_child_intervals_sorted(spans, parent, spans.len() as int);
    lemma_merge_covers(children);
    assert forall|j: int| 0 <= j < children.len() implies #[trigger] children[j].0 < children[j].1 by {}
    lemma_merged_length_is_union_measure(children);
}

// ---------------------------------------------------------------------------
// Queue operations and the trace builder
// ---------------------------------------------------------------------------

/// Where the time of one operation sent to a CUDA worker queue went.
#[derive(Debug, Clone, PartialEq)]
pub struct QueueOperationProfile {
    pub operation: TypedOperationSpec,
    pub worker_index: usize,
    pub send_wait: ProfileDuration,
    pub queue_to_worker: ProfileDuration,
    pub worker_execute: ProfileDuration,
    pub completion_wait: ProfileDuration,
    pub total: ProfileDuration,
}

/// A span that has started and not yet ended.
#[derive(Debug, Clone, Copy)]
struct OpenProfileSpan {
    id: usize,
}

/// Records nested wall-clock spans; span 0 is the whole run and is added by `finalize`.
#[derive(Debug)]
pub struct ProfileTraceBuilder {
    name: String,
    started_at: Instant,
    next_id: usize,
    open: Vec<OpenProfileSpan>,
    spans: Vec<ProfileSpan>,
}

impl Clone for ProfileTraceBuilder {
    fn clone(&self) -> (r: Self) {
        proof {
            use_type_invariant(self);
        }
        let spans = copy_spans(&self.spans);
        let open = copy_open(&self.open);
        proof {
            lemma_well_nested_copy(open_ids(open@), self.next_id, self.spans@, spans@);
        }
        ProfileTraceBuilder {
            name: self.name.clone(),
            started_at: self.started_at,
            next_id: self.next_id,
            open,
            spans,
        }
    }
}

/// Spans with the same ids and parents are as well nested.
proof fn lemma_well_nested_copy(open: Seq<usize>, next_id: usize, spans: Seq<ProfileSpan>, copy: Seq<ProfileSpan>)
    requires
        well_nested(open, next_id, spans),
        copy.len() == spans.len(),
        forall|k: int| #![trigger copy[k]] 0 <= k < spans.len() ==> copy[k].id == spans[k].id && copy[k].parent_id
            == spans[k].parent_id,
    ensures
        well_nested(open, next_id, copy),
{
    assert forall|k: int| 0 <= k < copy.len() implies #[trigger] parent_known(open, copy, copy[k]) by {
        assert(copy[k].id == spans[k].id && copy[k].parent_id == spans[k].parent_id);
        assert(parent_known(open, spans, spans[k]));
        let p = spans[k].parent_id->0;
        if !open.contains(p) {
            let m = choose|m: int| 0 <= m < spans.len() && #[trigger] spans[m].id == p;
            assert(copy[m].id == spans[m].id);
        }
    }
    assert forall|k: int, m: int| 0 <= k < m < copy.len() implies #[trigger] copy[k].id != #[trigger] copy[m].id by {
        assert(copy[k].id == spans[k].id && copy[m].id == spans[m].id);
    }
    assert forall|k: int| 0 <= k < copy.len() implies 1 <= #[trigger] copy[k].id < next_id by {
        assert(copy[k].id == spans[k].id);
    }
}

/// A copy of the open spans.
fn copy_open(open: &Vec<OpenProfileSpan>) -> (r: Vec<OpenProfileSpan>)
    ensures
        r@ == open@,
{
    let mut out: Vec<OpenProfileSpan> = Vec::new();
    let mut k: usize = 0;
    while k < open.len()
        invariant
            k <= open@.len(),
            out@ == open@.take(k as int),
        decreases open@.len() - k,
    {
        out.push(OpenProfileSpan { id: open[k].id });
        proof {
            assert(open@.take(k + 1) =~= open@.take(k as int).push(open@[k as int]));
        }
        k = k + 1;
    }
    proof {
        assert(open@.take(open@.len() as int) =~= open@);
    }
    out
}

/// A copy of the ended spans: the same ids and parents, the other fields cloned.
fn copy_spans(spans: &Vec<ProfileSpan>) -> (r: Vec<ProfileSpan>)
    ensures
        r@.len() == spans@.len(),
        forall|k: int| 0 <= k < spans@.len() ==> #[trigger] r@[k].id == spans@[k].id && r@[k].parent_id == spans@[k].parent_id,
{
    let mut out: Vec<ProfileSpan> = Vec::new();
    let mut k: usize = 0;
    while k < spans.len()
        invariant
            k <= spans@.len(),
            out@.len() == k,
            forall|j: int| 0 <= j < k ==> #[trigger] out@[j].id == spans@[j].id && out@[j].parent_id == spans@[j].parent_id,
        decreases spans@.len() - k,
    {
        let s = &spans[k];
        out.push(
            ProfileSpan {
                id: s.id,
                parent_id: s.parent_id,
                name: s.name.clone(),
                category: s.category.clone(),
                source: s.source,
                start_offset: s.start_offset,
                duration: s.duration,
                self_duration: s.self_duration,
                operation: s.operation.clone(),
            },
        );
        k = k + 1;
    }
    out
}

/// The root span that `finalize` adds for a run of `total` length named `name`.
pub open spec fn is_root_span(root: ProfileSpan, name: Seq<char>, total: ProfileDuration) -> bool {
    &&& root.id == 0
    &&& root.parent_id is None
    &&& root.name@ == name
    &&& root.category@ == "root"@
    &&& root.source == ProfileTimeSource::WallClock
    &&& root.start_offset.nanos() == 0
    &&& root.duration == total
    &&& root.self_duration.nanos() == 0
    &&& root.operation is None
}

/// The bookkeeping of a trace builder is well nested: the root span 0 is the outermost
/// open span, open spans are innermost last with growing ids below `next_id`, ended
/// spans have distinct ids in `1..next_id`, and each ended span's parent started
/// before it and is still open or has ended too.
pub open spec fn well_nested(open: Seq<usize>, next_id: usize, spans: Seq<ProfileSpan>) -> bool {
    &&& open.len() >= 1
    &&& open[0] == 0
    &&& forall|i: int, j: int| 0 <= i < j < open.len() ==> open[i] < open[j]
    &&& forall|i: int| 0 <= i < open.len() ==> #[trigger] open[i] < next_id
    &&& forall|k: int| 0 <= k < spans.len() ==> 1 <= #[trigger] spans[k].id < next_id
    &&& forall|k: int, m: int| 0 <= k < m < spans.len() ==> #[trigger] spans[k].id != #[trigger] spans[m].id
    &&& forall|k: int| 0 <= k < spans.len() ==> #[trigger] parent_known(open, spans, spans[k])
}

/// `span` has a parent that started before it and is open or among `spans`.
pub open spec fn parent_known(open: Seq<usize>, spans: Seq<ProfileSpan>, span: ProfileSpan) -> bool {
    &&& span.parent_id is Some
    &&& span.parent_id->0 < span.id
    &&& (open.contains(span.parent_id->0) || exists|m: int| 0 <= m < spans.len() && #[trigger] spans[m].id == span.parent_id->0)
}

/// The ids of open spans.
spec fn open_ids(open: Seq<OpenProfileSpan>) -> Seq<usize> {
    open.map_values(|s: OpenProfileSpan| s.id)
}

proof fn lemma_open_ids_push(open: Seq<OpenProfileSpan>, x: OpenProfileSpan)
    ensures
        open_ids(open.push(x)) == open_ids(open).push(x.id),
{
    assert(open_ids(open.push(x)) =~= open_ids(open).push(x.id));
}

proof fn lemma_open_ids_drop_last(open: Seq<OpenProfileSpan>)
    requires
        open.len() > 0,
    ensures
        open_ids(open.drop_last()) == open_ids(open).drop_last(),
{
    assert(open_ids(open.drop_last()) =~= open_ids(open).drop_last());
}

impl ProfileTraceBuilder {
    /// The trace's name.
    pub closed spec fn spec_name(self) -> Seq<char> {
        self.name@
    }

    /// The id the next span gets.
    pub closed spec fn spec_next_id(self) -> usize {
        self.next_id
    }

    /// The ids of the spans that have started and not ended, innermost last.
    pub closed spec fn spec_open_ids(self) -> Seq<usize> {
        open_ids(self.open@)
    }

    /// The spans that have ended, in the order they ended.
    pub closed spec fn spec_spans(self) -> Seq<ProfileSpan> {
        self.spans@
    }

    /// The clock reading the trace started at.
    pub closed spec fn spec_started_at(self) -> Instant {
        self.started_at
    }

    /// The builder's bookkeeping is well nested.
    pub open spec fn wf(self) -> bool {
        well_nested(self.spec_open_ids(), self.spec_next_id(), self.spec_spans())
    }

    /// Every builder is well nested.
    #[verifier::type_invariant]
    pub open spec fn always_well_nested(self) -> bool {
        self.wf()
    }

    /// `after` is `self` once some spans have run and ended inside the innermost open
    /// span: the same trace with the same open spans, every span ended before kept in
    /// place, the new ones appended with fresh ids, and the bookkeeping well nested.
    pub open spec fn grows_to(self, after: Self) -> bool {
        &&& after.spec_name() == self.spec_name()
        &&& after.spec_started_at() == self.spec_started_at()
        &&& after.spec_open_ids() == self.spec_open_ids()
        &&& self.spec_next_id() <= after.spec_next_id()
        &&& self.spec_spans().len() <= after.spec_spans().len()
        &&& after.spec_spans().take(self.spec_spans().len() as int) == self.spec_spans()
        &&& forall|k: int|
            self.spec_spans().len() <= k < after.spec_spans().len() ==> self.spec_next_id()
                <= #[trigger] after.spec_spans()[k].id < after.spec_next_id()
        &&& after.wf()
    }

    /// `inner` is the builder a span's closure receives: `self` with span
    /// `self.spec_next_id()` opened inside the innermost open span.
    pub open spec fn entered(self, inner: Self) -> bool {
        &&& inner.spec_name() == self.spec_name()
        &&& inner.spec_started_at() == self.spec_started_at()
        &&& inner.spec_open_ids() == self.spec_open_ids().push(self.spec_next_id())
        &&& inner.spec_next_id() == self.spec_next_id() + 1
        &&& inner.spec_spans() == self.spec_spans()
    }

    pub fn start(name: &str) -> (r: Self)
        ensures
            r.spec_name() == name@,
            r.spec_next_id() == 1,
            r.spec_open_ids() == seq![0usize],
            r.spec_spans() == Seq::<ProfileSpan>::empty(),
    {
        let started_at = instant_now();
        let mut open: Vec<OpenProfileSpan> = Vec::new();
        open.push(OpenProfileSpan { id: 0 });
        proof {
            assert(open_ids(open@) =~= seq![0usize]);
        }
        ProfileTraceBuilder { name: string_of(name), started_at, next_id: 1, open, spans: Vec::new() }
    }

    /// Runs `f` inside a new wall-clock span named `name` and returns what `f` returns;
    /// spans that `f` opens on the builder become its children.
    pub fn time<T>(&mut self, name: &str, category: &str, f: impl FnOnce(&mut Self) -> T) -> (r: T)
        requires
            old(self).spec_next_id() < usize::MAX,
            forall|b: &mut Self| f.requires((b,)),
            forall|b: &mut Self, res: T| #[trigger] f.ensures((b,), res) ==> b.grows_to(*final(b)),
        ensures
            old(self).grows_to(*final(self)),
            exists|b: &mut Self|
                #[trigger] f.ensures((b,), r) && old(self).entered(*b) && final(self).spec_next_id()
                    == final(b).spec_next_id() && final(self).spec_spans().drop_last() == final(b).spec_spans(),
            final(self).spec_spans().len() >= 1,
            final(self).spec_spans().last().id == old(self).spec_next_id(),
            final(self).spec_spans().last().parent_id == Some(old(self).spec_open_ids().last()),
            final(self).spec_spans().last().name@ == name@,
            final(self).spec_spans().last().category@ == category@,
            final(self).spec_spans().last().source == ProfileTimeSource::WallClock,
            final(self).spec_spans().last().self_duration.nanos() == 0,
            final(self).spec_spans().last().operation is None,
    {
        self.time_inner(string_of(name), string_of(category), ProfileTimeSource::WallClock, None, f)
    }

    /// Runs `f` inside a new span named after `operation` and categorized by its kind,
    /// and returns what `f` returns.
    pub fn time_operation<T>(&mut self, operation: TypedOperationSpec, f: impl FnOnce(&mut Self) -> T) -> (r: T)
        requires
            old(self).spec_next_id() < usize::MAX,
            forall|b: &mut Self| f.requires((b,)),
            forall|b: &mut Self, res: T| #[trigger] f.ensures((b,), res) ==> b.grows_to(*final(b)),
        ensures
            old(self).grows_to(*final(self)),
            exists|b: &mut Self|
                #[trigger] f.ensures((b,), r) && old(self).entered(*b) && final(self).spec_next_id()
                    == final(b).spec_next_id() && final(self).spec_spans().drop_last() == final(b).spec_spans(),
            final(self).spec_spans().len() >= 1,
            final(self).spec_spans().last().id == old(self).spec_next_id(),
            final(self).spec_spans().last().parent_id == Some(old(self).spec_open_ids().last()),
            final(self).spec_spans().last().name@ == operation.name@,
            final(self).spec_spans().last().category@ == spec_operation_kind_label(operation.kind),
            final(self).spec_spans().last().source == ProfileTimeSource::WallClock,
            final(self).spec_spans().last().self_duration.nanos() == 0,
            final(self).spec_spans().last().operation == Some(operation),
    {
        let name = operation.name.clone();
        let category = string_of(operation.kind.label());
        self.time_inner(name, category, ProfileTimeSource::WallClock, Some(operation), f)
    }

    /// Ends the run: adds the root span, which lasts from the start until now, fills in
    /// every span's self time and orders the spans by id. When no span is running, the
    /// root comes first, ids grow strictly, and every other span names a parent that
    /// comes before it.
    pub fn finalize(self) -> (r: ProfileTrace)
        ensures
            r.name@ == self.spec_name(),
            r.spans@.len() == self.spec_spans().len() + 1,
            exists|root: ProfileSpan|
                is_root_span(root, self.spec_name(), r.total) && r.spans@ == spec_with_self_durations(
                    self.spec_spans().push(root),
                ),
            self.spec_open_ids() == seq![0usize] ==> finalized_shape(r.spans@, self.spec_name(), r.total),
    {
        proof {
            use_type_invariant(&self);
        }
        let total = ProfileDuration::from_duration(instant_elapsed(&self.started_at));
        let root = ProfileSpan {
            id: 0,
            parent_id: None,
            name: self.name.clone(),
            category: string_of("root"),
            source: ProfileTimeSource::WallClock,
            start_offset: ProfileDuration::zero(),
            duration: total,
            self_duration: ProfileDuration::zero(),
            operation: None,
        };
        let ghost root_value = root;
        let ghost this = self;
        let ProfileTraceBuilder { name, started_at, next_id, open, spans } = self;
        let mut spans = spans;
        spans.push(root);
        let ordered = with_self_durations(spans);
        let r = ProfileTrace { name, total, spans: ordered };
        proof {
            assert(is_root_span(root_value, this.spec_name(), r.total) && r.spans@ == spec_with_self_durations(
                this.spec_spans().push(root_value),
            ));
            lemma_with_self_durations_len(this.spec_spans().push(root_value));
            if this.spec_open_ids() == seq![0usize] {
                lemma_finalized_shape(this.spec_spans(), root_value, this.spec_next_id());
            }
        }
        r
    }

    /// Opens span `next_id` under the innermost open span, runs `f`, records the span
    /// and closes it.
    fn time_inner<T>(
        &mut self,
        name: String,
        category: String,
        source: ProfileTimeSource,
        operation: Option<TypedOperationSpec>,
        f: impl FnOnce(&mut Self) -> T,
    ) -> (r: T)
        requires
            old(self).spec_next_id() < usize::MAX,
            forall|b: &mut Self| f.requires((b,)),
            forall|b: &mut Self, res: T| #[trigger] f.ensures((b,), res) ==> b.grows_to(*final(b)),
        ensures
            old(self).grows_to(*final(self)),
            exists|b: &mut Self|
                #[trigger] f.ensures((b,), r) && old(self).entered(*b) && final(self).spec_next_id()
                    == final(b).spec_next_id() && final(self).spec_spans().drop_last() == final(b).spec_spans(),
            final(self).spec_spans().len() >= 1,
            final(self).spec_spans().last().id == old(self).spec_next_id(),
            final(self).spec_spans().last().parent_id == Some(old(self).spec_open_ids().last()),
            final(self).spec_spans().last().name == name,
            final(self).spec_spans().last().category == category,
            final(self).spec_spans().last().source == source,
            final(self).spec_spans().last().self_duration.nanos() == 0,
            final(self).spec_spans().last().operation == operation,
    {
        proof {
            use_type_invariant(&*self);
        }
        let ghost before = *self;
        let (trace_name, trace_start, id, mut open, spans) = self.take_parts();
        let n_open = open.len();
        proof {
            assert(before.spec_open_ids()[0] == 0);
            assert(before.spec_open_ids().last() == open@[n_open - 1].id);
            lemma_enter(before.spec_open_ids(), id, before.spec_spans());
            lemma_open_ids_push(open@, OpenProfileSpan { id });
        }
        let parent = open[n_open - 1].id;
        let started_at = instant_now();
        open.push(OpenProfileSpan { id });
        *self = ProfileTraceBuilder { name: trace_name, started_at: trace_start, next_id: id + 1, open, spans };
        let ghost inner = *self;
        let result = f(self);
        let ghost mid = *self;
        let ended_at = instant_now();
        proof {
            use_type_invariant(&*self);
        }
        let (trace_name, trace_start, next_id, mut open, mut spans) = self.take_parts();
        let start_offset = match instant_checked_duration_since(&started_at, &trace_start) {
            Some(d) => ProfileDuration::from_duration(d),
            None => ProfileDuration::zero(),
        };
        let duration = ProfileDuration::from_duration(instant_duration_since(&ended_at, &started_at));
        let span = ProfileSpan {
            id,
            parent_id: Some(parent),
            name,
            category,
            source,
            start_offset,
            duration,
            self_duration: ProfileDuration::zero(),
            operation,
        };
        proof {
            lemma_mid_ids(before, inner, mid);
            lemma_record(before.spec_open_ids(), id, mid.spec_next_id(), mid.spec_spans(), span);
            lemma_open_ids_drop_last(open@);
            assert(before.spec_open_ids().push(id).drop_last() =~= before.spec_open_ids());
        }
        spans.push(span);
        let _ = open.pop();
        *self = ProfileTraceBuilder { name: trace_name, started_at: trace_start, next_id, open, spans };
        proof {
            assert(self.spec_spans().drop_last() =~= mid.spec_spans());
            lemma_closed_span_grows(before, inner, mid, *self);
        }
        result
    }

    /// Takes the builder's parts out, leaving an empty trace in their place.
    fn take_parts(&mut self) -> (r: (String, Instant, usize, Vec<OpenProfileSpan>, Vec<ProfileSpan>))
        ensures
            r.0@ == old(self).spec_name(),
            r.1 == old(self).spec_started_at(),
            r.2 == old(self).spec_next_id(),
            open_ids(r.3@) == old(self).spec_open_ids(),
            r.3@ == old(self).open@,
            r.4@ == old(self).spec_spans(),
    {
        let mut empty_open: Vec<OpenProfileSpan> = Vec::new();
        empty_open.push(OpenProfileSpan { id: 0 });
        proof {
            assert(open_ids(empty_open@) =~= seq![0usize]);
        }
        let mut taken = ProfileTraceBuilder {
            name: String::new(),
            started_at: self.started_at,
            next_id: 1,
            open: empty_open,
            spans: Vec::new(),
        };
        std::mem::swap(&mut taken, self);
        let ProfileTraceBuilder { name, started_at, next_id, open, spans } = taken;
        (name, started_at, next_id, open, spans)
    }
}

/// Opening span `id` below `next_id = id + 1` keeps the bookkeeping well nested.
proof fn lemma_enter(open: Seq<usize>, id: usize, spans: Seq<ProfileSpan>)
    requires
        well_nested(open, id, spans),
        id < usize::MAX,
    ensures
        well_nested(open, (id + 1) as usize, spans),
        well_nested(open.push(id), (id + 1) as usize, spans),
{
    let o2 = open.push(id);
    assert forall|i: int, j: int| 0 <= i < j < o2.len() implies o2[i] < o2[j] by {
        if j < open.len() {
            assert(o2[i] == open[i] && o2[j] == open[j]);
        } else {
            assert(o2[i] == open[i]);
        }
    }
    assert forall|i: int| 0 <= i < o2.len() implies #[trigger] o2[i] < id + 1 by {
        if i < open.len() {
            assert(o2[i] == open[i]);
        }
    }
    assert forall|k: int| 0 <= k < spans.len() implies #[trigger] parent_known(o2, spans, spans[k]) by {
        assert(parent_known(open, spans, spans[k]));
        let p = spans[k].parent_id->0;
        if open.contains(p) {
            let i = choose|i: int| 0 <= i < open.len() && open[i] == p;
            assert(o2[i] == p);
        }
    }
}

/// The spans the closure of span `id` leaves all have ids other than `id`.
proof fn lemma_mid_ids(before: ProfileTraceBuilder, inner: ProfileTraceBuilder, mid: ProfileTraceBuilder)
    requires
        before.wf(),
        before.entered(inner),
        inner.grows_to(mid),
    ensures
        forall|k: int| 0 <= k < mid.spec_spans().len() ==> #[trigger] mid.spec_spans()[k].id != before.spec_next_id(),
        mid.spec_open_ids() == before.spec_open_ids().push(before.spec_next_id()),
        before.spec_next_id() < mid.spec_next_id(),
{
    let n0 = before.spec_spans().len();
    assert forall|k: int| 0 <= k < mid.spec_spans().len() implies #[trigger] mid.spec_spans()[k].id
        != before.spec_next_id() by {
        if k < n0 {
            assert(mid.spec_spans().take(n0 as int)[k] == mid.spec_spans()[k]);
            assert(before.spec_spans()[k] == mid.spec_spans()[k]);
        }
    }
    let mo = mid.spec_open_ids();
    assert(mo[mo.len() - 1] == before.spec_next_id());
}

/// Recording span `id`, whose closure left `next_id` and `spans`, and then closing it,
/// keeps the bookkeeping well nested at both steps.
proof fn lemma_record(open: Seq<usize>, id: usize, next_id: usize, spans: Seq<ProfileSpan>, span: ProfileSpan)
    requires
        well_nested(open.push(id), next_id, spans),
        open.len() >= 1,
        forall|i: int| 0 <= i < open.len() ==> #[trigger] open[i] < id,
        forall|k: int| 0 <= k < spans.len() ==> #[trigger] spans[k].id != id,
        span.id == id,
        span.parent_id == Some(open.last()),
    ensures
        well_nested(open.push(id), next_id, spans.push(span)),
        well_nested(open, next_id, spans.push(span)),
{
    let o2 = open.push(id);
    let s2 = spans.push(span);
    assert(o2[0] == 0);
    assert(open[0] == o2[0]);
    assert(o2[o2.len() - 1] == id);
    assert(id < next_id);
    assert(open[0] < id);
    assert(open.last() == open[open.len() - 1]);
    assert(open[open.len() - 1] < id);
    assert forall|k: int| 0 <= k < s2.len() implies 1 <= #[trigger] s2[k].id < next_id by {
        if k < spans.len() {
            assert(s2[k] == spans[k]);
        }
    }
    assert forall|k: int, m: int| 0 <= k < m < s2.len() implies #[trigger] s2[k].id != #[trigger] s2[m].id by {
        assert(s2[k] == spans[k]);
        if m < spans.len() {
            assert(s2[m] == spans[m]);
        }
    }
    assert(open.contains(open.last()));
    assert forall|k: int| 0 <= k < s2.len() implies #[trigger] parent_known(o2, s2, s2[k]) by {
        if k < spans.len() {
            assert(s2[k] == spans[k]);
            assert(parent_known(o2, spans, spans[k]));
            let p = spans[k].parent_id->0;
            if !o2.contains(p) {
                let m = choose|m: int| 0 <= m < spans.len() && #[trigger] spans[m].id == p;
                assert(s2[m] == spans[m]);
            }
        } else {
            let i = open.len() - 1;
            assert(o2[i] == open[i]);
        }
    }
    assert forall|i: int| 0 <= i < open.len() implies #[trigger] open[i] < next_id by {}
    assert forall|i: int, j: int| 0 <= i < j < open.len() implies open[i] < open[j] by {
        assert(o2[i] == open[i] && o2[j] == open[j]);
    }
    assert forall|k: int| 0 <= k < s2.len() implies #[trigger] parent_known(open, s2, s2[k]) by {
        assert(parent_known(o2, s2, s2[k]));
        let p = s2[k].parent_id->0;
        if o2.contains(p) {
            let i = choose|i: int| 0 <= i < o2.len() && o2[i] == p;
            if i < open.len() {
                assert(o2[i] == open[i]);
            } else {
                assert(s2[s2.len() - 1].id == p);
            }
        }
    }
}

/// Closing the span that `inner` entered, after its closure grew `inner` into `mid`,
/// grows `before` into `after`.
proof fn lemma_closed_span_grows(
    before: ProfileTraceBuilder,
    inner: ProfileTraceBuilder,
    mid: ProfileTraceBuilder,
    after: ProfileTraceBuilder,
)
    requires
        before.wf(),
        before.entered(inner),
        inner.grows_to(mid),
        after.wf(),
        after.spec_name() == mid.spec_name(),
        after.spec_started_at() == mid.spec_started_at(),
        after.spec_open_ids() == before.spec_open_ids(),
        after.spec_next_id() == mid.spec_next_id(),
        after.spec_spans().len() == mid.spec_spans().len() + 1,
        after.spec_spans().drop_last() == mid.spec_spans(),
        after.spec_spans().last().id == before.spec_next_id(),
    ensures
        before.grows_to(after),
{
    let id = before.spec_next_id();
    let ms = mid.spec_spans();
    let s = after.spec_spans();
    let n0 = before.spec_spans().len();
    let mo = mid.spec_open_ids();
    assert(mo[mo.len() - 1] == id);
    assert(mo[mo.len() - 1] < mid.spec_next_id());
    assert forall|k: int| 0 <= k < s.len() - 1 implies s[k] == #[trigger] ms[k] by {}
    assert(s.take(n0 as int) =~= before.spec_spans()) by {
        assert forall|k: int| 0 <= k < n0 implies s.take(n0 as int)[k] == before.spec_spans()[k] by {
            assert(s[k] == ms[k]);
            assert(ms.take(n0 as int)[k] == ms[k]);
        }
    }
    assert forall|k: int| n0 <= k < s.len() implies id <= #[trigger] s[k].id < after.spec_next_id() by {
        if k < s.len() - 1 {
            assert(s[k] == ms[k]);
        }
    }
}

/// What the spans of a finished trace look like: ordered by strictly growing id, the
/// root span first, and every other span naming a parent that comes before it.
pub open spec fn finalized_shape(spans: Seq<ProfileSpan>, name: Seq<char>, total: ProfileDuration) -> bool {
    &&& spans.len() >= 1
    &&& spans[0].id == 0
    &&& spans[0].parent_id is None
    &&& spans[0].name@ == name
    &&& spans[0].category@ == "root"@
    &&& spans[0].duration == total
    &&& spans[0].start_offset.nanos() == 0
    &&& forall|i: int, j: int| 0 <= i < j < spans.len() ==> #[trigger] spans[i].id < #[trigger] spans[j].id
    &&& forall|i: int|
        1 <= i < spans.len() ==> (#[trigger] spans[i]).parent_id is Some && exists|j: int|
            0 <= j < i && #[trigger] spans[j].id == spans[i].parent_id->0
}

/// Spans with distinct ids keep distinct ids once ordered by id.
proof fn lemma_sort_distinct(s: Seq<ProfileSpan>)
    requires
        forall|k: int, m: int| 0 <= k < m < s.len() ==> #[trigger] s[k].id != #[trigger] s[m].id,
    ensures
        forall|i: int, j: int|
            0 <= i < j < sort_by_id(s).len() ==> #[trigger] sort_by_id(s)[i].id != #[trigger] sort_by_id(s)[j].id,
    decreases s.len(),
{
    if s.len() > 0 {
        let d = s.drop_last();
        let x = s.last();
        assert forall|k: int, m: int| 0 <= k < m < d.len() implies #[trigger] d[k].id != #[trigger] d[m].id by {
            assert(d[k] == s[k] && d[m] == s[m]);
        }
        lemma_sort_distinct(d);
        lemma_sort_by_id(d);
        let t = sort_by_id(d);
        assert forall|i: int| 0 <= i < t.len() implies #[trigger] t[i].id != x.id by {
            vstd::seq_lib::to_multiset_contains(t, t[i]);
            assert(t.contains(t[i]));
            vstd::seq_lib::to_multiset_contains(d, t[i]);
            let k = choose|k: int| 0 <= k < d.len() && d[k] == t[i];
            assert(d[k] == s[k]);
            assert(s[s.len() - 1] == x);
        }
        lemma_first_greater(t, x.id, 0);
        let p = first_greater(t, x.id, 0);
        let u = t.insert(p, x);
        assert(sort_by_id(s) == u);
        assert forall|i: int, j: int| 0 <= i < j < u.len() implies #[trigger] u[i].id != #[trigger] u[j].id by {
            if j < p {
                assert(u[i] == t[i] && u[j] == t[j]);
            } else if j == p {
                assert(u[i] == t[i]);
            } else if i < p {
                assert(u[i] == t[i] && u[j] == t[j - 1]);
            } else if i == p {
                assert(u[j] == t[j - 1]);
            } else {
                assert(u[i] == t[i - 1] && u[j] == t[j - 1]);
            }
        }
    }
}

/// Finishing a well-nested builder with no span running, with `root` added, gives spans
/// in the shape `finalized_shape` describes.
pub proof fn lemma_finalized_shape(spans: Seq<ProfileSpan>, root: ProfileSpan, next_id: usize)
    requires
        well_nested(seq![0usize], next_id, spans),
        root.id == 0,
        root.parent_id is None,
        root.start_offset.nanos() == 0,
        root.category@ == "root"@,
    ensures
        finalized_shape(spec_with_self_durations(spans.push(root)), root.name@, root.duration),
{
    let all = spans.push(root);
    let up = spec_with_self(all);
    lemma_sort_by_id(up);
    assert forall|k: int| 0 <= k < spans.len() implies #[trigger] up[k].id == spans[k].id && up[k].parent_id
        == spans[k].parent_id by {
        assert(all[k] == spans[k]);
    }
    let last = spans.len() as int;
    assert(all[last] == root);
    assert(up[last].id == 0 && up[last].parent_id is None && up[last].name == root.name && up[last].category
        == root.category && up[last].duration == root.duration && up[last].start_offset == root.start_offset);
    lemma_ids_distinct(spans, up, next_id);
    lemma_sort_distinct(up);
    lemma_strictly_sorted(sort_by_id(up));
    lemma_sorted_shape(spans, up, sort_by_id(up), root, next_id);
}

/// `spans` followed by a span with id 0 have distinct ids.
proof fn lemma_ids_distinct(spans: Seq<ProfileSpan>, up: Seq<ProfileSpan>, next_id: usize)
    requires
        well_nested(seq![0usize], next_id, spans),
        up.len() == spans.len() + 1,
        forall|k: int| 0 <= k < spans.len() ==> #[trigger] up[k].id == spans[k].id,
        up[spans.len() as int].id == 0,
    ensures
        forall|k: int, m: int| 0 <= k < m < up.len() ==> #[trigger] up[k].id != #[trigger] up[m].id,
{
    assert forall|k: int, m: int| 0 <= k < m < up.len() implies #[trigger] up[k].id != #[trigger] up[m].id by {
        if m < spans.len() {
            assert(up[k].id == spans[k].id && up[m].id == spans[m].id);
        } else {
            assert(up[k].id == spans[k].id);
        }
    }
}

/// A position of `b[x]` in `a`, where `a` and `b` hold the same spans.
proof fn position_in(a: Seq<ProfileSpan>, b: Seq<ProfileSpan>, x: int) -> (j: int)
    requires
        a.to_multiset() == b.to_multiset(),
        0 <= x < b.len(),
    ensures
        0 <= j < a.len(),
        a[j] == b[x],
{
    vstd::seq_lib::to_multiset_contains(b, b[x]);
    assert(b.contains(b[x]));
    vstd::seq_lib::to_multiset_contains(a, b[x]);
    choose|j: int| 0 <= j < a.len() && a[j] == b[x]
}

/// Spans sorted by id whose ids are distinct are ordered by strictly growing id.
proof fn lemma_strictly_sorted(out: Seq<ProfileSpan>)
    requires
        sorted_by_id(out),
        forall|i: int, j: int| 0 <= i < j < out.len() ==> #[trigger] out[i].id != #[trigger] out[j].id,
    ensures
        forall|i: int, j: int| 0 <= i < j < out.len() ==> #[trigger] out[i].id < #[trigger] out[j].id,
{
}

/// The shape of `out`, the spans of `up` ordered by id, where `up` is `spans` (with
/// their ids and parents) followed by a root.
proof fn lemma_sorted_shape(
    spans: Seq<ProfileSpan>,
    up: Seq<ProfileSpan>,
    out: Seq<ProfileSpan>,
    root: ProfileSpan,
    next_id: usize,
)
    requires
        well_nested(seq![0usize], next_id, spans),
        root.start_offset.nanos() == 0,
        up.len() == spans.len() + 1,
        forall|k: int| 0 <= k < spans.len() ==> #[trigger] up[k].id == spans[k].id && up[k].parent_id
            == spans[k].parent_id,
        up[spans.len() as int].id == 0,
        up[spans.len() as int].parent_id is None,
        up[spans.len() as int].name == root.name,
        up[spans.len() as int].category == root.category,
        up[spans.len() as int].duration == root.duration,
        up[spans.len() as int].start_offset == root.start_offset,
        root.category@ == "root"@,
        forall|i: int, j: int| 0 <= i < j < out.len() ==> #[trigger] out[i].id < #[trigger] out[j].id,
        out.len() == up.len(),
        out.to_multiset() == up.to_multiset(),
    ensures
        finalized_shape(out, root.name@, root.duration),
{
    let last = spans.len() as int;
    let i0 = position_in(out, up, last);
    if i0 > 0 {
        assert(out[0].id < out[i0].id);
    }
    assert(out[0] == up[last]);
    assert forall|i: int| 1 <= i < out.len() implies (#[trigger] out[i]).parent_id is Some && exists|j: int|
        0 <= j < i && #[trigger] out[j].id == out[i].parent_id->0 by {
        lemma_parent_before(spans, up, out, next_id, i);
    }
}

/// The parent of the `i`-th span of `out`, past the root, comes before it.
proof fn lemma_parent_before(
    spans: Seq<ProfileSpan>,
    up: Seq<ProfileSpan>,
    out: Seq<ProfileSpan>,
    next_id: usize,
    i: int,
)
    requires
        well_nested(seq![0usize], next_id, spans),
        up.len() == spans.len() + 1,
        forall|k: int| 0 <= k < spans.len() ==> #[trigger] up[k].id == spans[k].id && up[k].parent_id
            == spans[k].parent_id,
        up[spans.len() as int].id == 0,
        forall|a: int, b: int| 0 <= a < b < out.len() ==> #[trigger] out[a].id < #[trigger] out[b].id,
        out.len() == up.len(),
        out.to_multiset() == up.to_multiset(),
        out[0].id == 0,
        1 <= i < out.len(),
    ensures
        out[i].parent_id is Some,
        exists|j: int| 0 <= j < i && #[trigger] out[j].id == out[i].parent_id->0,
{
    let open = seq![0usize];
    let last = spans.len() as int;
    let k = position_in(up, out, i);
    assert(out[0].id < out[i].id);
    assert(k != last);
    assert(up[k].id == spans[k].id && up[k].parent_id == spans[k].parent_id);
    assert(parent_known(open, spans, spans[k]));
    let p = spans[k].parent_id->0;
    if p == 0 {
        assert(out[0].id == p);
    } else {
        assert(!open.contains(p)) by {
            if open.contains(p) {
                let q = choose|q: int| 0 <= q < open.len() && open[q] == p;
                assert(open[q] == 0);
            }
        }
        let m = choose|m: int| 0 <= m < spans.len() && #[trigger] spans[m].id == p;
        assert(up[m].id == spans[m].id);
        let j = position_in(out, up, m);
        if j > i {
            assert(out[i].id < out[j].id);
        }
        assert(out[j].id == p);
    }
}

/// A finished trace has a span without a parent: the root that `finalize` adds.
pub proof fn lemma_finalized_trace_has_root(spans: Seq<ProfileSpan>, root: ProfileSpan)
    requires
        root.parent_id is None,
    ensures
        exists|i: int|
            0 <= i < spec_with_self_durations(spans.push(root)).len()
                && (#[trigger] spec_with_self_durations(spans.push(root))[i]).parent_id is None,
{
    let all = spans.push(root);
    let updated = spec_with_self(all);
    let sorted = spec_with_self_durations(all);
    lemma_sort_by_id(updated);
    let last = updated[all.len() - 1];
    assert(last.parent_id is None);
    vstd::seq_lib::to_multiset_contains(updated, last);
    assert(updated.contains(last)) by {
        assert(updated[all.len() - 1] == last);
    }
    vstd::seq_lib::to_multiset_contains(sorted, last);
    let i = choose|i: int| 0 <= i < sorted.len() && sorted[i] == last;
    assert(sorted[i].parent_id is None);
}

} // verus!
