//! Accredited profiles: a timeline's measured segments, plus self-time accounting
//! segments for the stretches of the total that no measured segment covers.
use vstd::prelude::*;

use crate::profile_json::{decimal, push_decimal};
use crate::profiling::{ProfileDuration, ProfileTimeSource, MAX_DURATION_NANOS};
use crate::text::{push_char, push_str, string_of};
use crate::trace::{
    all_within, covered_nanos, is_chain, lemma_chain_covered, lemma_merge_is_chain, merge_intervals, saturating_u64,
    spec_covered, spec_merge, ProfileSegment,
};
use vstd::relations::{sorted_by, total_ordering};

verus! {

/// Intervals are ordered by start, then by end.
pub open spec fn pair_leq(a: (u128, u128), b: (u128, u128)) -> bool {
    a.0 < b.0 || (a.0 == b.0 && a.1 <= b.1)
}

/// The order of intervals as a relation.
pub open spec fn pair_order() -> spec_fn((u128, u128), (u128, u128)) -> bool {
    |a: (u128, u128), b: (u128, u128)| pair_leq(a, b)
}

pub proof fn lemma_pair_order_total()
    ensures
        total_ordering(pair_order()),
{
    let r = pair_order();
    assert(vstd::relations::reflexive(r));
    assert(vstd::relations::antisymmetric(r));
    assert(vstd::relations::transitive(r));
    assert(vstd::relations::strongly_connected(r));
}

/// The part of a segment that was measured on the timeline, within `[0, total]`: none
/// for accounting segments, segments without a start, or empty parts.
pub open spec fn measured_interval(segment: ProfileSegment, total: u128) -> Option<(u128, u128)> {
    if segment.source == ProfileTimeSource::SelfTimeAccounting {
        None
    } else {
        match segment.start_offset {
            None => None,
            Some(offset) => {
                let start = if offset.nanos() <= total { offset.nanos() } else { total as nat };
                let sum = start + segment.duration.nanos();
                let end = if sum <= total { sum } else { total as nat };
                if end > start {
                    Some((start as u128, end as u128))
                } else {
                    None
                }
            },
        }
    }
}

/// The measured intervals of the first `n` segments, in segment order.
pub open spec fn measured_intervals(segments: Seq<ProfileSegment>, total: u128, n: int) -> Seq<(u128, u128)>
    decreases n,
{
    if n <= 0 {
        seq![]
    } else {
        let before = measured_intervals(segments, total, n - 1);
        match measured_interval(segments[n - 1], total) {
            Some(iv) => before.push(iv),
            None => before,
        }
    }
}

/// The stretches of the timeline that measured segments cover: their intervals sorted,
/// then merged where they touch or overlap.
pub open spec fn spec_timeline_intervals(segments: Seq<ProfileSegment>, total: u128) -> Seq<(u128, u128)> {
    spec_merge(measured_intervals(segments, total, segments.len() as int).sort_by(pair_order()))
}

/// The gaps of `covered` from its `k`-th interval on, with the timeline covered up to
/// `cursor`, up to `total`.
pub open spec fn gaps_from(covered: Seq<(u128, u128)>, k: int, cursor: u128, total: u128) -> Seq<(u128, u128)>
    decreases covered.len() - k,
{
    if k < 0 || k >= covered.len() {
        if cursor < total {
            seq![(cursor, total)]
        } else {
            seq![]
        }
    } else {
        let iv = covered[k];
        let head = if iv.0 > cursor {
            seq![(cursor, iv.0)]
        } else {
            seq![]
        };
        head + gaps_from(covered, k + 1, if cursor >= iv.1 { cursor } else { iv.1 }, total)
    }
}

/// The stretches of `[0, total]` that `covered` leaves out.
pub open spec fn spec_complement(total: u128, covered: Seq<(u128, u128)>) -> Seq<(u128, u128)> {
    gaps_from(covered, 0, 0, total)
}

pub proof fn lemma_measured_intervals_within(segments: Seq<ProfileSegment>, total: u128, n: int)
    requires
        0 <= n <= segments.len(),
    ensures
        all_within(measured_intervals(segments, total, n), 0, total as nat),
    decreases n,
{
    if n > 0 {
        lemma_measured_intervals_within(segments, total, n - 1);
        let before = measured_intervals(segments, total, n - 1);
        let out = measured_intervals(segments, total, n);
        assert forall|k: int| 0 <= k < out.len() implies 0 <= #[trigger] out[k].0 < out[k].1 <= total by {
            if k < before.len() {
                assert(out[k] == before[k]);
            }
        }
    }
}

/// The gaps of a chain and the chain itself, from its `k`-th interval on, add up to
/// the rest of the timeline.
pub proof fn lemma_gaps_fill(covered: Seq<(u128, u128)>, k: int, cursor: u128, total: u128)
    requires
        is_chain(covered, 0, total as nat),
        0 <= k <= covered.len(),
        k == 0 ==> cursor == 0,
        k > 0 ==> cursor == covered[k - 1].1,
    ensures
        spec_covered(covered.subrange(k, covered.len() as int)) + spec_covered(gaps_from(covered, k, cursor, total))
            + cursor == total,
        all_within(gaps_from(covered, k, cursor, total), 0, total as nat),
    decreases covered.len() - k,
{
    let rest = covered.subrange(k, covered.len() as int);
    if k >= covered.len() {
        assert(rest =~= Seq::<(u128, u128)>::empty());
        assert(spec_covered(Seq::<(u128, u128)>::empty()) == 0);
        if k > 0 {
            let j = k - 1;
            assert(0 <= j < covered.len());
            assert(0 <= covered[j].0 < covered[j].1 <= total);
            assert(cursor <= total);
        }
        if cursor < total {
            let g = seq![(cursor, total)];
            assert(g.drop_last() =~= Seq::<(u128, u128)>::empty());
            assert(g.last() == (cursor, total));
            assert(spec_covered(g) == total - cursor);
        } else {
            assert(gaps_from(covered, k, cursor, total) =~= Seq::<(u128, u128)>::empty());
        }
    } else {
        let iv = covered[k];
        assert(0 <= iv.0 < iv.1 <= total);
        if k > 0 {
            assert(covered[k - 1].1 < covered[k].0);
        }
        let next = if cursor >= iv.1 { cursor } else { iv.1 };
        assert(next == iv.1);
        lemma_gaps_fill(covered, k + 1, next, total);
        let tail = gaps_from(covered, k + 1, next, total);
        let head = if iv.0 > cursor { seq![(cursor, iv.0)] } else { seq![] };
        lemma_covered_concat(head, tail);
        lemma_covered_front(rest);
        assert(rest.drop_first() =~= covered.subrange(k + 1, covered.len() as int));
        assert(rest[0] == iv);
        if iv.0 > cursor {
            assert(head.drop_last() =~= Seq::<(u128, u128)>::empty());
            assert(head.last() == (cursor, iv.0));
            assert(spec_covered(Seq::<(u128, u128)>::empty()) == 0);
            assert(spec_covered(head) == iv.0 - cursor);
        } else {
            assert(head =~= Seq::<(u128, u128)>::empty());
            assert(spec_covered(head) == 0);
            assert(iv.0 == cursor);
        }
        assert forall|j: int| 0 <= j < head.len() + tail.len() implies 0 <= #[trigger] (head + tail)[j].0 < (head
            + tail)[j].1 <= total by {
            if j < head.len() {
            } else {
                assert((head + tail)[j] == tail[j - head.len()]);
            }
        }
    }
}

/// The covered length of two lists laid end to end.
pub proof fn lemma_covered_concat(a: Seq<(u128, u128)>, b: Seq<(u128, u128)>)
    ensures
        spec_covered(a + b) == spec_covered(a) + spec_covered(b),
    decreases b.len(),
{
    if b.len() == 0 {
        assert(a + b =~= a);
    } else {
        lemma_covered_concat(a, b.drop_last());
        assert((a + b).drop_last() =~= a + b.drop_last());
        assert((a + b).last() == b.last());
    }
}

/// The covered length counted from the front.
pub proof fn lemma_covered_front(a: Seq<(u128, u128)>)
    requires
        a.len() > 0,
    ensures
        spec_covered(a) == spec_covered(a.drop_first()) + if a[0].1 >= a[0].0 {
            (a[0].1 - a[0].0) as nat
        } else {
            0
        },
{
    let one = seq![a[0]];
    lemma_covered_concat(one, a.drop_first());
    assert(one + a.drop_first() =~= a);
    assert(one.drop_last() =~= Seq::<(u128, u128)>::empty());
    assert(spec_covered(Seq::<(u128, u128)>::empty()) == 0);
    assert(one.last() == a[0]);
}

/// A timeline's covered stretches and its gaps add up to the whole timeline, and the
/// gaps lie within it.
pub proof fn lemma_complement_fills(total: u128, covered: Seq<(u128, u128)>)
    requires
        is_chain(covered, 0, total as nat),
    ensures
        spec_covered(covered) + spec_covered(spec_complement(total, covered)) == total,
        all_within(spec_complement(total, covered), 0, total as nat),
{
    lemma_gaps_fill(covered, 0, 0, total);
    assert(covered.subrange(0, covered.len() as int) =~= covered);
}

/// The covered stretches of a timeline form a chain within it.
pub proof fn lemma_timeline_intervals_chain(segments: Seq<ProfileSegment>, total: u128)
    ensures
        is_chain(spec_timeline_intervals(segments, total), 0, total as nat),
{
    let raw = measured_intervals(segments, total, segments.len() as int);
    lemma_measured_intervals_within(segments, total, segments.len() as int);
    lemma_pair_order_total();
    raw.lemma_sort_by_ensures(pair_order());
    let sorted = raw.sort_by(pair_order());
    assert forall|k: int| 0 <= k < sorted.len() implies 0 <= #[trigger] sorted[k].0 < sorted[k].1 <= total by {
        assert(sorted.contains(sorted[k]));
    }
    lemma_merge_is_chain(sorted, 0, total as nat);
}

fn pair_le(a: (u128, u128), b: (u128, u128)) -> (r: bool)
    ensures
        r == pair_leq(a, b),
{
    a.0 < b.0 || (a.0 == b.0 && a.1 <= b.1)
}

/// The intervals sorted by start, then end.
pub fn sort_intervals(intervals: Vec<(u128, u128)>) -> (r: Vec<(u128, u128)>)
    ensures
        r@ == intervals@.sort_by(pair_order()),
{
    broadcast use vstd::seq_lib::group_to_multiset_ensures;
    broadcast use vstd::multiset::group_multiset_axioms;

    let ghost leq = pair_order();
    let mut out: Vec<(u128, u128)> = Vec::new();
    let mut k: usize = 0;
    proof {
        assert(intervals@.take(0) =~= Seq::<(u128, u128)>::empty());
    }
    while k < intervals.len()
        invariant
            leq == pair_order(),
            k <= intervals@.len(),
            sorted_by(out@, leq),
            out@.to_multiset() == intervals@.take(k as int).to_multiset(),
        decreases intervals@.len() - k,
    {
        let x = intervals[k];
        let mut p: usize = 0;
        while p < out.len() && pair_le(out[p], x)
            invariant
                p <= out@.len(),
                forall|i: int| 0 <= i < p ==> pair_leq(#[trigger] out@[i], x),
            decreases out@.len() - p,
        {
            p = p + 1;
        }
        let ghost before = out@;
        out.insert(p, x);
        proof {
            let t = out@;
            assert(t == before.insert(p as int, x));
            assert forall|i: int, j: int| 0 <= i < j < t.len() implies #[trigger] leq(t[i], t[j]) by {
                if j < p {
                    assert(t[i] == before[i] && t[j] == before[j]);
                    assert(leq(before[i], before[j]));
                } else if j == p {
                    assert(t[i] == before[i]);
                } else if i < p {
                    assert(t[i] == before[i] && t[j] == before[j - 1]);
                    assert(leq(before[i], before[j - 1]));
                } else if i == p {
                    assert(t[j] == before[j - 1]);
                    assert(!pair_leq(before[p as int], x));
                    if j - 1 > p {
                        assert(leq(before[p as int], before[j - 1]));
                    }
                } else {
                    assert(t[i] == before[i - 1] && t[j] == before[j - 1]);
                    assert(leq(before[i - 1], before[j - 1]));
                }
            }
            assert(t.remove(p as int) =~= before);
            assert(t[p as int] == x);
            t.to_multiset_ensures();
            intervals@.take(k as int).to_multiset_ensures();
            assert(t.remove(p as int).to_multiset() == t.to_multiset().remove(t[p as int]));
            assert(t.contains(x));
            assert(t.to_multiset().count(x) > 0);
            assert(t.to_multiset() =~= t.to_multiset().remove(x).insert(x));
            assert(intervals@.take(k + 1) =~= intervals@.take(k as int).push(x));
            assert(intervals@.take(k + 1).to_multiset() == intervals@.take(k as int).to_multiset().insert(x));
            assert(t.to_multiset() =~= before.to_multiset().insert(x));
        }
        k = k + 1;
    }
    proof {
        assert(intervals@.take(intervals@.len() as int) =~= intervals@);
        lemma_pair_order_total();
        intervals@.lemma_sort_by_ensures(leq);
        vstd::seq_lib::lemma_sorted_unique(out@, intervals@.sort_by(leq), leq);
    }
    out
}

/// The measured intervals of the segments, clipped to `[0, total]`.
fn collect_measured_intervals(total: u128, segments: &[ProfileSegment]) -> (r: Vec<(u128, u128)>)
    ensures
        r@ == measured_intervals(segments@, total, segments@.len() as int),
{
    let mut out: Vec<(u128, u128)> = Vec::new();
    let mut k: usize = 0;
    while k < segments.len()
        invariant
            k <= segments@.len(),
            out@ == measured_intervals(segments@, total, k as int),
        decreases segments@.len() - k,
    {
        let segment = &segments[k];
        if segment.source != ProfileTimeSource::SelfTimeAccounting {
            match segment.start_offset {
                Some(offset) => {
                    proof {
                        use_type_invariant(&offset);
                        use_type_invariant(&segment.duration);
                    }
                    let raw_start = offset.as_nanos_u128();
                    let start = if raw_start <= total { raw_start } else { total };
                    let sum = start + segment.duration.as_nanos_u128();
                    let end = if sum <= total { sum } else { total };
                    if end > start {
                        out.push((start, end));
                    }
                },
                None => {},
            }
        }
        k = k + 1;
    }
    out
}

/// The stretches of `[0, total]` that measured segments cover, sorted and merged.
pub fn timeline_intervals(total: ProfileDuration, segments: &[ProfileSegment]) -> (r: Vec<(u128, u128)>)
    ensures
        r@ == spec_timeline_intervals(segments@, total.nanos() as u128),
{
    proof {
        use_type_invariant(&total);
    }
    let raw = collect_measured_intervals(total.as_nanos_u128(), segments);
    let sorted = sort_intervals(raw);
    merge_intervals(sorted)
}

/// The stretches of `[0, total_nanos]` that `covered` leaves out, in order.
pub fn complement_intervals(total_nanos: u128, covered: &[(u128, u128)]) -> (r: Vec<(u128, u128)>)
    ensures
        r@ == spec_complement(total_nanos, covered@),
{
    let mut result: Vec<(u128, u128)> = Vec::new();
    let mut cursor: u128 = 0;
    let mut k: usize = 0;
    while k < covered.len()
        invariant
            k <= covered@.len(),
            result@ + gaps_from(covered@, k as int, cursor, total_nanos) == spec_complement(total_nanos, covered@),
        decreases covered@.len() - k,
    {
        let (start, end) = covered[k];
        let ghost before = result@;
        if start > cursor {
            result.push((cursor, start));
        }
        let ghost head = if start > cursor { seq![(cursor, start)] } else { Seq::<(u128, u128)>::empty() };
        let next = if cursor >= end { cursor } else { end };
        proof {
            assert(result@ =~= before + head);
            assert(before + (head + gaps_from(covered@, k + 1, next, total_nanos)) =~= (before + head) + gaps_from(
                covered@,
                k + 1,
                next,
                total_nanos,
            ));
        }
        cursor = next;
        k = k + 1;
    }
    let ghost before = result@;
    if cursor < total_nanos {
        result.push((cursor, total_nanos));
    }
    proof {
        assert(result@ =~= before + gaps_from(covered@, k as int, cursor, total_nanos));
    }
    result
}

// ---------------------------------------------------------------------------
// Accredited profiles
// ---------------------------------------------------------------------------

/// The name of the `index`-th accounting stretch: the accounting name itself for the
/// first, with `[index]` after it for the others.
pub open spec fn accounting_label(name: Seq<char>, index: nat) -> Seq<char> {
    if index == 0 {
        name
    } else {
        name + seq!['['] + decimal(index) + seq![']']
    }
}

/// The accounting segments for the first `n` gaps, as (name, start, duration): one
/// per non-empty gap, its nanoseconds capped at `u64::MAX`.
pub open spec fn accounting_parts(gaps: Seq<(u128, u128)>, name: Seq<char>, n: int) -> Seq<(Seq<char>, nat, nat)>
    decreases n,
{
    if n <= 0 {
        seq![]
    } else {
        let before = accounting_parts(gaps, name, n - 1);
        let g = gaps[n - 1];
        let d: nat = if g.1 >= g.0 { (g.1 - g.0) as nat } else { 0 };
        if d == 0 {
            before
        } else {
            before.push((accounting_label(name, (n - 1) as nat), saturating_u64(g.0 as nat), saturating_u64(d)))
        }
    }
}

/// The total duration of the first `n` segments, or only of the accounting ones.
pub open spec fn sum_durations(segments: Seq<ProfileSegment>, n: int, accounting_only: bool) -> nat
    decreases n,
{
    if n <= 0 {
        0
    } else {
        let s = segments[n - 1];
        sum_durations(segments, n - 1, accounting_only) + if !accounting_only || s.source
            == ProfileTimeSource::SelfTimeAccounting {
            s.duration.nanos()
        } else {
            0
        }
    }
}

/// The total duration of the accounting parts.
pub open spec fn sum_parts(parts: Seq<(Seq<char>, nat, nat)>) -> nat
    decreases parts.len(),
{
    if parts.len() == 0 {
        0
    } else {
        sum_parts(parts.drop_last()) + parts.last().2
    }
}

/// The accounting parts of a timeline's gaps add up to at most the gaps' length, and
/// exactly to it when no gap is longer than `u64::MAX` nanoseconds.
pub proof fn lemma_parts_sum(gaps: Seq<(u128, u128)>, name: Seq<char>, n: int, cap: nat)
    requires
        0 <= n <= gaps.len(),
        all_within(gaps, 0, cap),
    ensures
        sum_parts(accounting_parts(gaps, name, n)) <= spec_covered(gaps.take(n)),
        cap <= u64::MAX ==> sum_parts(accounting_parts(gaps, name, n)) == spec_covered(gaps.take(n)),
    decreases n,
{
    if n > 0 {
        lemma_parts_sum(gaps, name, n - 1, cap);
        assert(gaps.take(n).drop_last() =~= gaps.take(n - 1));
        assert(gaps.take(n).last() == gaps[n - 1]);
        let j = n - 1;
        assert(0 <= j < gaps.len());
        assert(0 <= gaps[j].0 < gaps[j].1 <= cap);
        let before = accounting_parts(gaps, name, n - 1);
        let g = gaps[n - 1];
        let d: nat = (g.1 - g.0) as nat;
        if d != 0 {
            let out = before.push((accounting_label(name, (n - 1) as nat), saturating_u64(g.0 as nat), saturating_u64(d)));
            assert(out.drop_last() =~= before);
        }
    }
}

/// The coverage of an accredited profile in nanoseconds: the total, the part that
/// measured segments cover, the accounting segments' part, and all segments' work.
#[derive(Debug, Clone, Copy, PartialEq, Eq, Structural)]
pub struct ProfileCoverageNanos {
    pub total: u128,
    pub measured_covered: u128,
    pub self_time_accounting: u128,
    pub credited_work: u128,
}

/// A profile whose segments account for all of its total time: the measured
/// segments, then one accounting segment per stretch that none of them covers.
#[derive(Debug, Clone, PartialEq)]
pub struct AccreditedProfile {
    pub name: String,
    pub total: ProfileDuration,
    pub coverage: ProfileCoverageNanos,
    pub segments: Vec<ProfileSegment>,
}

/// The total duration of the segments, or only of the accounting ones.
fn segments_duration(segments: &Vec<ProfileSegment>, accounting_only: bool) -> (r: u128)
    requires
        sum_durations(segments@, segments@.len() as int, false) <= u128::MAX,
    ensures
        r == sum_durations(segments@, segments@.len() as int, accounting_only),
{
    let mut total: u128 = 0;
    let mut k: usize = 0;
    while k < segments.len()
        invariant
            k <= segments@.len(),
            total == sum_durations(segments@, k as int, accounting_only),
            sum_durations(segments@, segments@.len() as int, false) <= u128::MAX,
        decreases segments@.len() - k,
    {
        proof {
            lemma_sum_durations_prefix(segments@, k + 1, segments@.len() as int, accounting_only);
            lemma_sum_durations_le_all(segments@, segments@.len() as int, accounting_only);
        }
        if !accounting_only || segments[k].source == ProfileTimeSource::SelfTimeAccounting {
            total = total + segments[k].duration.as_nanos_u128();
        }
        k = k + 1;
    }
    total
}

proof fn lemma_sum_durations_prefix(segments: Seq<ProfileSegment>, k: int, n: int, accounting_only: bool)
    requires
        0 <= k <= n,
    ensures
        sum_durations(segments, k, accounting_only) <= sum_durations(segments, n, accounting_only),
    decreases n - k,
{
    if k < n {
        lemma_sum_durations_prefix(segments, k, n - 1, accounting_only);
    }
}

proof fn lemma_sum_durations_le_all(segments: Seq<ProfileSegment>, n: int, accounting_only: bool)
    ensures
        sum_durations(segments, n, accounting_only) <= sum_durations(segments, n, false),
    decreases n,
{
    if n > 0 {
        lemma_sum_durations_le_all(segments, n - 1, accounting_only);
    }
}

proof fn lemma_sum_durations_push(segments: Seq<ProfileSegment>, s: ProfileSegment, accounting_only: bool)
    ensures
        sum_durations(segments.push(s), segments.len() + 1 as int, accounting_only) == sum_durations(
            segments,
            segments.len() as int,
            accounting_only,
        ) + if !accounting_only || s.source == ProfileTimeSource::SelfTimeAccounting {
            s.duration.nanos()
        } else {
            0
        },
{
    lemma_sum_durations_same(segments.push(s), segments, segments.len() as int, accounting_only);
}

proof fn lemma_sum_durations_same(a: Seq<ProfileSegment>, b: Seq<ProfileSegment>, n: int, accounting_only: bool)
    requires
        0 <= n <= a.len(),
        n <= b.len(),
        forall|k: int| 0 <= k < n ==> a[k] == b[k],
    ensures
        sum_durations(a, n, accounting_only) == sum_durations(b, n, accounting_only),
    decreases n,
{
    if n > 0 {
        lemma_sum_durations_same(a, b, n - 1, accounting_only);
    }
}

/// The name of the `index`-th accounting stretch.
fn accounting_label_of(name: &str, index: usize) -> (r: String)
    ensures
        r@ == accounting_label(name@, index as nat),
{
    let mut label = string_of(name);
    if index != 0 {
        push_char(&mut label, '[');
        push_decimal(&mut label, index as u128);
        push_char(&mut label, ']');
    }
    label
}

/// `value`, or `u64::MAX` when it is larger.
pub fn saturating_u128_to_u64(value: u128) -> (r: u64)
    ensures
        r == saturating_u64(value as nat),
{
    if value <= u64::MAX as u128 {
        value as u64
    } else {
        u64::MAX
    }
}

impl AccreditedProfile {
    /// This profile is the accreditation of `total` with the `measured` segments:
    /// their covered stretches merged, one accounting segment per gap, and the sums.
    pub open spec fn accredits(
        self,
        name: Seq<char>,
        total: ProfileDuration,
        measured: Seq<ProfileSegment>,
        accounting_name: Seq<char>,
        accounting_category: Seq<char>,
    ) -> bool {
        let covered = spec_timeline_intervals(measured, total.nanos() as u128);
        let gaps = spec_complement(total.nanos() as u128, covered);
        let parts = accounting_parts(gaps, accounting_name, gaps.len() as int);
        let m = measured.len();
        &&& self.name@ == name
        &&& self.total == total
        &&& self.segments@.len() == m + parts.len()
        &&& self.segments@.take(m as int) == measured
        &&& forall|k: int|
            0 <= k < parts.len() ==> {
                let s = #[trigger] self.segments@[m + k];
                &&& s.name@ == parts[k].0
                &&& s.category@ == accounting_category
                &&& s.source == ProfileTimeSource::SelfTimeAccounting
                &&& s.start_offset matches Some(o) && o.nanos() == parts[k].1
                &&& s.duration.nanos() == parts[k].2
                &&& s.launch is None
                &&& s.operation is None
            }
        &&& self.coverage.total == total.nanos()
        &&& self.coverage.measured_covered == spec_covered(covered)
        &&& self.coverage.self_time_accounting == sum_durations(self.segments@, self.segments@.len() as int, true)
        &&& self.coverage.credited_work == sum_durations(self.segments@, self.segments@.len() as int, false)
        &&& self.coverage.self_time_accounting == sum_durations(measured, m as int, true) + sum_parts(
            parts,
        )
        &&& total.nanos() <= u64::MAX && sum_durations(measured, m as int, true) == 0
            ==> self.coverage.measured_covered + self.coverage.self_time_accounting == self.coverage.total
    }
}

impl AccreditedProfile {
    /// Accredits `total` with the measured segments: their covered stretches are
    /// merged, every stretch of `[0, total]` they leave out gets an accounting segment
    /// named after `accounting_name`, and the coverage is summed up.
    pub fn new(
        name: &str,
        total: ProfileDuration,
        measured_segments: Vec<ProfileSegment>,
        accounting_name: &str,
        accounting_category: &str,
    ) -> (r: Self)
        requires
            sum_durations(measured_segments@, measured_segments@.len() as int, false) + total.nanos() <= u128::MAX,
        ensures
            r.accredits(name@, total, measured_segments@, accounting_name@, accounting_category@),
    {
        proof {
            use_type_invariant(&total);
        }
        let total_nanos = total.as_nanos_u128();
        let ghost measured = measured_segments@;
        let ghost m = measured.len();
        let mut segments = measured_segments;
        let covered = timeline_intervals(total, segments.as_slice());
        proof {
            lemma_timeline_intervals_chain(measured, total_nanos);
            lemma_chain_covered(covered@, 0, total_nanos as nat);
            lemma_complement_fills(total_nanos, covered@);
        }
        let measured_covered = covered_nanos(covered.as_slice());
        let gaps = complement_intervals(total_nanos, covered.as_slice());
        let ghost parts = accounting_parts(gaps@, accounting_name@, gaps@.len() as int);
        proof {
            lemma_parts_sum(gaps@, accounting_name@, gaps@.len() as int, total_nanos as nat);
            assert(gaps@.take(gaps@.len() as int) =~= gaps@);
        }
        let mut index: usize = 0;
        while index < gaps.len()
            invariant
                index <= gaps@.len(),
                all_within(gaps@, 0, total_nanos as nat),
                segments@.len() == m + accounting_parts(gaps@, accounting_name@, index as int).len(),
                segments@.take(m as int) == measured,
                forall|k: int|
                    0 <= k < accounting_parts(gaps@, accounting_name@, index as int).len() ==> {
                        let s = #[trigger] segments@[m + k];
                        let p = accounting_parts(gaps@, accounting_name@, index as int)[k];
                        &&& s.name@ == p.0
                        &&& s.category@ == accounting_category@
                        &&& s.source == ProfileTimeSource::SelfTimeAccounting
                        &&& s.start_offset matches Some(o) && o.nanos() == p.1
                        &&& s.duration.nanos() == p.2
                        &&& s.launch is None
                        &&& s.operation is None
                    },
                sum_durations(segments@, segments@.len() as int, true) == sum_durations(measured, m as int, true)
                    + sum_parts(accounting_parts(gaps@, accounting_name@, index as int)),
                sum_durations(segments@, segments@.len() as int, false) == sum_durations(measured, m as int, false)
                    + sum_parts(accounting_parts(gaps@, accounting_name@, index as int)),
            decreases gaps@.len() - index,
        {
            let (start, end) = gaps[index];
            let duration = if end >= start { end - start } else { 0 };
            let ghost before = segments@;
            let ghost before_parts = accounting_parts(gaps@, accounting_name@, index as int);
            if duration != 0 {
                let label = accounting_label_of(accounting_name, index);
                let segment = ProfileSegment::self_time_accounting(
                    label.as_str(),
                    accounting_category,
                    ProfileDuration::from_nanos(saturating_u128_to_u64(start)),
                    ProfileDuration::from_nanos(saturating_u128_to_u64(duration)),
                );
                segments.push(segment);
                proof {
                    let after_parts = accounting_parts(gaps@, accounting_name@, index + 1);
                    assert(after_parts == before_parts.push(
                        (accounting_label(accounting_name@, index as nat), saturating_u64(start as nat), saturating_u64(
                            duration as nat,
                        )),
                    ));
                    assert(after_parts.drop_last() =~= before_parts);
                    assert(segments@.take(m as int) =~= before.take(m as int));
                    assert forall|k: int| 0 <= k < after_parts.len() implies {
                        let s = #[trigger] segments@[m + k];
                        let p = after_parts[k];
                        &&& s.name@ == p.0
                        &&& s.category@ == accounting_category@
                        &&& s.source == ProfileTimeSource::SelfTimeAccounting
                        &&& s.start_offset matches Some(o) && o.nanos() == p.1
                        &&& s.duration.nanos() == p.2
                        &&& s.launch is None
                        &&& s.operation is None
                    } by {
                        if k < before_parts.len() {
                            assert(segments@[m + k] == before[m + k]);
                            assert(after_parts[k] == before_parts[k]);
                        }
                    }
                    lemma_sum_durations_push(before, segment, true);
                    lemma_sum_durations_push(before, segment, false);
                }
            }
            index = index + 1;
        }
        proof {
            assert(sum_durations(segments@, segments@.len() as int, false) <= u128::MAX);
        }
        let self_time_accounting = segments_duration(&segments, true);
        let credited_work = segments_duration(&segments, false);
        AccreditedProfile {
            name: string_of(name),
            total,
            coverage: ProfileCoverageNanos { total: total_nanos, measured_covered, self_time_accounting, credited_work },
            segments,
        }
    }
}

} // verus!
