use nn_rust_verified::accredited::{
    complement_intervals, saturating_u128_to_u64, sort_intervals, timeline_intervals,
    AccreditedProfile, ProfileCoverageNanos,
};
use nn_rust_verified::profiling::{ProfileDuration, ProfileTimeSource};
use nn_rust_verified::trace::{ProfileSegment, ProfileTimeline};

fn ns(n: u64) -> ProfileDuration {
    ProfileDuration::from_nanos(n)
}

#[test]
fn intervals_are_sorted_then_merged() {
    assert_eq!(
        sort_intervals(vec![(5, 9), (1, 4), (5, 6), (1, 2)]),
        vec![(1, 2), (1, 4), (5, 6), (5, 9)]
    );
    let segments = vec![
        ProfileSegment::wall_clock("a", "c", ns(30), ns(10)),
        ProfileSegment::wall_clock("b", "c", ns(10), ns(25)),
        ProfileSegment::cuda_event("k", "c", ns(7), None),
        ProfileSegment::self_time_accounting("s", "c", ns(50), ns(5)),
        ProfileSegment::wall_clock("late", "c", ns(95), ns(50)),
    ];
    assert_eq!(
        timeline_intervals(ns(100), &segments),
        vec![(10, 40), (95, 100)]
    );
}

#[test]
fn complement_lists_the_gaps() {
    assert_eq!(
        complement_intervals(100, &[(10, 40), (95, 100)]),
        vec![(0, 10), (40, 95)]
    );
    assert_eq!(complement_intervals(5, &[]), vec![(0, 5)]);
    assert_eq!(complement_intervals(0, &[]), Vec::<(u128, u128)>::new());
    assert_eq!(saturating_u128_to_u64(u128::MAX), u64::MAX);
    assert_eq!(saturating_u128_to_u64(7), 7);
}

#[test]
fn accredited_profile_accounts_for_every_gap() {
    let measured = vec![
        ProfileSegment::wall_clock("a", "work", ns(10), ns(20)),
        ProfileSegment::wall_clock("b", "work", ns(25), ns(10)),
        ProfileSegment::cuda_event("k", "gpu", ns(5), None),
    ];
    let profile = AccreditedProfile::new("run", ns(100), measured.clone(), "host", "accounting");
    assert_eq!(profile.name, "run");
    assert_eq!(profile.total, ns(100));
    assert_eq!(profile.segments.len(), 5);
    assert_eq!(&profile.segments[..3], &measured[..]);
    let first = &profile.segments[3];
    assert_eq!(first.name, "host");
    assert_eq!(first.category, "accounting");
    assert_eq!(first.source, ProfileTimeSource::SelfTimeAccounting);
    assert_eq!(first.start_offset, Some(ns(0)));
    assert_eq!(first.duration, ns(10));
    let second = &profile.segments[4];
    assert_eq!(second.name, "host[1]");
    assert_eq!(second.start_offset, Some(ns(35)));
    assert_eq!(second.duration, ns(65));
    assert_eq!(
        profile.coverage,
        ProfileCoverageNanos {
            total: 100,
            measured_covered: 25,
            self_time_accounting: 75,
            credited_work: 110
        }
    );
    assert_eq!(
        profile.coverage.measured_covered + profile.coverage.self_time_accounting,
        profile.coverage.total
    );
}

#[test]
fn fully_covered_profile_needs_no_accounting() {
    let measured = vec![ProfileSegment::wall_clock("all", "work", ns(0), ns(40))];
    let profile = AccreditedProfile::new("run", ns(40), measured, "host", "accounting");
    assert_eq!(profile.segments.len(), 1);
    assert_eq!(profile.coverage.self_time_accounting, 0);
    assert_eq!(profile.coverage.measured_covered, 40);
}

#[test]
fn timeline_finalize_accredits_its_segments() {
    let mut timeline = ProfileTimeline::start("decode");
    timeline.record_cuda_event("kernel", "gpu", ns(3), None);
    let profile = timeline.finalize("host", "accounting");
    assert_eq!(profile.name, "decode");
    assert_eq!(profile.segments[0].name, "kernel");
    assert_eq!(
        profile.coverage.measured_covered + profile.coverage.self_time_accounting,
        profile.coverage.total
    );
    assert_eq!(profile.coverage.measured_covered, 0);
}
