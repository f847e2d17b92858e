//! Correlation of attribution hunks against the specification regions.
//!
//! Both regions and hunks are half-open intervals of zero-indexed line
//! numbers.  A hunk that overlaps a region yields one reportable event per
//! overlapping region, in region order; a hunk outside every region yields
//! nothing.  The part of a hunk that lies beyond the end of the file is
//! dropped before any overlap test.

use vstd::prelude::*;
use crate::regions::RegionModel;
use crate::regions::SpecRegion;
use crate::regions::SpecRegionSet;

verus! {

/// The earliest timestamp the report can format, in seconds since the epoch.
pub const MIN_FORMAT_SECONDS: i64 = -8000000000000;

/// The latest timestamp the report can format, in seconds since the epoch.
pub const MAX_FORMAT_SECONDS: i64 = 8000000000000;

/// One attribution hunk from the change-history feed: the contiguous
/// half-open range of zero-indexed final lines `[start_line ..
/// start_line + line_count)`, with the timestamp, time-zone offset and commit
/// identity of the change that last touched them.
pub struct AttributionHunk {
    pub start_line: usize,
    pub line_count: usize,
    pub timestamp: i64,
    pub offset_minutes: i32,
    pub commit_id: String,
}

/// The mathematical value of a hunk: its interval and its moment in time.
pub ghost struct HunkModel {
    pub start: int,
    pub end: int,
    pub timestamp: int,
    pub offset: int,
}

impl View for AttributionHunk {
    type V = HunkModel;

    open spec fn view(&self) -> HunkModel {
        HunkModel {
            start: self.start_line as int,
            end: self.start_line as int + self.line_count as int,
            timestamp: self.timestamp as int,
            offset: self.offset_minutes as int,
        }
    }
}

/// The models of a sequence of hunks.
pub open spec fn hunk_models(s: Seq<AttributionHunk>) -> Seq<HunkModel> {
    s.map(|k: int, h: AttributionHunk| h@)
}

impl AttributionHunk {
    /// The hunk's range stays within `usize`, and its timestamp and offset
    /// within what the time formatter accepts.
    pub open spec fn wf(&self) -> bool {
        &&& self.start_line + self.line_count <= usize::MAX
        &&& MIN_FORMAT_SECONDS <= self.timestamp <= MAX_FORMAT_SECONDS
        &&& -1439 <= self.offset_minutes <= 1439
    }

    /// Builds a hunk from the fields the change-history feed exposes, whose
    /// start line is one-indexed.  Returns `None` exactly when a field is out
    /// of range: a start line of zero, a range past `usize`, a timestamp the
    /// formatter cannot take, or an offset of a whole day or more.
    pub fn new_from_blame(
        final_start_line: usize,
        lines_in_hunk: usize,
        seconds: i64,
        offset_minutes: i32,
        commit_id: String,
    ) -> (r: Option<AttributionHunk>)
        ensures
            r is Some <==> {
                &&& final_start_line >= 1
                &&& final_start_line - 1 + lines_in_hunk <= usize::MAX
                &&& MIN_FORMAT_SECONDS <= seconds <= MAX_FORMAT_SECONDS
                &&& -1439 <= offset_minutes <= 1439
            },
            r matches Some(h) ==> {
                &&& h.wf()
                &&& h@.start == final_start_line - 1
                &&& h@.end == final_start_line - 1 + lines_in_hunk
                &&& h@.timestamp == seconds
                &&& h@.offset == offset_minutes
                &&& h.commit_id@ == commit_id@
            },
    {
        if final_start_line == 0 {
            return None;
        }
        let start_line = final_start_line - 1;
        if lines_in_hunk > usize::MAX - start_line {
            return None;
        }
        if seconds < MIN_FORMAT_SECONDS || seconds > MAX_FORMAT_SECONDS {
            return None;
        }
        if offset_minutes < -1439 || offset_minutes > 1439 {
            return None;
        }
        Some(
            AttributionHunk {
                start_line,
                line_count: lines_in_hunk,
                timestamp: seconds,
                offset_minutes,
                commit_id,
            },
        )
    }
}

/// The larger of two interval bounds.
pub open spec fn bound_max(a: int, b: int) -> int {
    if a >= b {
        a
    } else {
        b
    }
}

/// The smaller of two interval bounds.
pub open spec fn bound_min(a: int, b: int) -> int {
    if a <= b {
        a
    } else {
        b
    }
}

/// Whether the half-open intervals `[a_start .. a_end)` and
/// `[b_start .. b_end)` share a line: their intersection is non-empty.  An
/// interval that merely touches the other's boundary does not overlap it,
/// and a zero-length interval overlaps nothing.
pub open spec fn ranges_overlap(a_start: int, a_end: int, b_start: int, b_end: int) -> bool {
    bound_max(a_start, b_start) < bound_min(a_end, b_end)
}

/// The overlap test does not depend on the order of its two intervals.
pub proof fn lemma_overlap_symmetric(a_start: int, a_end: int, b_start: int, b_end: int)
    ensures
        ranges_overlap(a_start, a_end, b_start, b_end) == ranges_overlap(
            b_start,
            b_end,
            a_start,
            a_end,
        ),
{
}

/// For two non-empty intervals the overlap test agrees with the usual
/// exclusion formula: they overlap unless one ends at or before the other's
/// start.
pub proof fn lemma_overlap_formula(a_start: int, a_end: int, b_start: int, b_end: int)
    requires
        a_start < a_end,
        b_start < b_end,
    ensures
        ranges_overlap(a_start, a_end, b_start, b_end) == (a_start < b_end && b_start < a_end),
{
}

/// The clipped range of two overlapping intervals lies inside both of them,
/// and is never empty.
pub proof fn lemma_clip_containment(a_start: int, a_end: int, b_start: int, b_end: int)
    requires
        ranges_overlap(a_start, a_end, b_start, b_end),
    ensures
        a_start <= bound_max(a_start, b_start),
        b_start <= bound_max(a_start, b_start),
        bound_min(a_end, b_end) <= a_end,
        bound_min(a_end, b_end) <= b_end,
        bound_max(a_start, b_start) < bound_min(a_end, b_end),
{
}

/// Whether `region` and `hunk` share a line, under the half-open convention
/// used throughout: a hunk that ends exactly where a region starts does not
/// overlap it, and the other way round.
pub fn overlaps(region: &SpecRegion, hunk: &AttributionHunk) -> (r: bool)
    requires
        hunk.wf(),
    ensures
        r == ranges_overlap(region@.start, region@.end, hunk@.start, hunk@.end),
{
    let lo = if region.start >= hunk.start_line {
        region.start
    } else {
        hunk.start_line
    };
    let hunk_end = hunk.start_line + hunk.line_count;
    let hi = if region.end <= hunk_end {
        region.end
    } else {
        hunk_end
    };
    lo < hi
}

/// The clipped intersection of an overlapping region and hunk, as the
/// half-open range `[r.0 .. r.1)`.
pub fn hunk_limits(region: &SpecRegion, hunk: &AttributionHunk) -> (r: (usize, usize))
    requires
        hunk.wf(),
        ranges_overlap(region@.start, region@.end, hunk@.start, hunk@.end),
    ensures
        r.0 == bound_max(region@.start, hunk@.start),
        r.1 == bound_min(region@.end, hunk@.end),
        r.0 < r.1,
{
    let lo = if region.start >= hunk.start_line {
        region.start
    } else {
        hunk.start_line
    };
    let hunk_end = hunk.start_line + hunk.line_count;
    let hi = if region.end <= hunk_end {
        region.end
    } else {
        hunk_end
    };
    (lo, hi)
}

/// One reportable event: a change that touched a specification region, with
/// the clipped half-open line range and the lines it covers.
pub struct ReportableEvent {
    pub timestamp: i64,
    pub offset_minutes: i32,
    pub clipped_start: usize,
    pub clipped_end: usize,
    pub matched_lines: Vec<String>,
}

/// The mathematical value of an event.
#[verifier::ext_equal]
pub ghost struct EventModel {
    pub timestamp: int,
    pub offset: int,
    pub start: int,
    pub end: int,
    pub lines: Seq<Seq<char>>,
}

impl View for ReportableEvent {
    type V = EventModel;

    open spec fn view(&self) -> EventModel {
        EventModel {
            timestamp: self.timestamp as int,
            offset: self.offset_minutes as int,
            start: self.clipped_start as int,
            end: self.clipped_end as int,
            lines: self.matched_lines.deep_view(),
        }
    }
}

/// The models of a sequence of events.
pub open spec fn event_models(s: Seq<ReportableEvent>) -> Seq<EventModel> {
    s.map(|k: int, e: ReportableEvent| e@)
}

impl ReportableEvent {
    /// The clipped range runs forward and carries exactly its lines, and the
    /// timestamp and offset stay within what the time formatter accepts.
    pub open spec fn wf(&self) -> bool {
        &&& self.clipped_start <= self.clipped_end
        &&& self.matched_lines.len() == self.clipped_end - self.clipped_start
        &&& MIN_FORMAT_SECONDS <= self.timestamp <= MAX_FORMAT_SECONDS
        &&& -1439 <= self.offset_minutes <= 1439
    }
}

/// The end of the part of `h` that lies within a file of `line_total` lines.
pub open spec fn effective_end(h: HunkModel, line_total: int) -> int {
    bound_min(h.end, line_total)
}

/// The event that an overlap of `region` and the in-file part of `h` yields:
/// the clipped range and the slice of the file's lines over it.
pub open spec fn event_of(region: RegionModel, h: HunkModel, lines: Seq<Seq<char>>) -> EventModel {
    let cs = bound_max(region.start, h.start);
    let ce = bound_min(region.end, effective_end(h, lines.len() as int));
    EventModel {
        timestamp: h.timestamp,
        offset: h.offset,
        start: cs,
        end: ce,
        lines: lines.subrange(cs, ce),
    }
}

/// The events that hunk `h` yields against the regions from position `j` on,
/// one per overlapping region, in region order.
pub open spec fn hunk_events_from(
    regions: Seq<RegionModel>,
    h: HunkModel,
    lines: Seq<Seq<char>>,
    j: int,
) -> Seq<EventModel>
    decreases regions.len() - j,
{
    if j < 0 || j >= regions.len() {
        Seq::empty()
    } else {
        let rest = hunk_events_from(regions, h, lines, j + 1);
        if ranges_overlap(
            regions[j].start,
            regions[j].end,
            h.start,
            effective_end(h, lines.len() as int),
        ) {
            seq![event_of(regions[j], h, lines)] + rest
        } else {
            rest
        }
    }
}

/// All events that hunk `h` yields against `regions`.
pub open spec fn hunk_events(
    regions: Seq<RegionModel>,
    h: HunkModel,
    lines: Seq<Seq<char>>,
) -> Seq<EventModel> {
    hunk_events_from(regions, h, lines, 0)
}

/// A hunk that overlaps no region yields no event at all.
pub proof fn lemma_no_match_silent(regions: Seq<RegionModel>, h: HunkModel, lines: Seq<Seq<char>>)
    requires
        forall|k: int|
            0 <= k < regions.len() ==> !ranges_overlap(
                (#[trigger] regions[k]).start,
                regions[k].end,
                h.start,
                effective_end(h, lines.len() as int),
            ),
    ensures
        hunk_events(regions, h, lines) == Seq::<EventModel>::empty(),
{
    lemma_no_match_silent_from(regions, h, lines, 0);
}

proof fn lemma_no_match_silent_from(
    regions: Seq<RegionModel>,
    h: HunkModel,
    lines: Seq<Seq<char>>,
    j: int,
)
    requires
        forall|k: int|
            0 <= k < regions.len() ==> !ranges_overlap(
                (#[trigger] regions[k]).start,
                regions[k].end,
                h.start,
                effective_end(h, lines.len() as int),
            ),
        j >= 0,
    ensures
        hunk_events_from(regions, h, lines, j) == Seq::<EventModel>::empty(),
    decreases regions.len() - j,
{
    if j < regions.len() {
        lemma_no_match_silent_from(regions, h, lines, j + 1);
    }
}

/// The events of the hunks from position `i` on, in arrival order.
pub open spec fn correlate_from(
    regions: Seq<RegionModel>,
    hunks: Seq<HunkModel>,
    lines: Seq<Seq<char>>,
    i: int,
) -> Seq<EventModel>
    decreases hunks.len() - i,
{
    if i < 0 || i >= hunks.len() {
        Seq::empty()
    } else {
        hunk_events(regions, hunks[i], lines) + correlate_from(regions, hunks, lines, i + 1)
    }
}

/// All events of all hunks against all regions, in arrival order: for each
/// hunk, one event per region it overlaps.
pub open spec fn spec_correlate(
    regions: Seq<RegionModel>,
    hunks: Seq<HunkModel>,
    lines: Seq<Seq<char>>,
) -> Seq<EventModel> {
    correlate_from(regions, hunks, lines, 0)
}

/// A copy of the slice `[from .. to)` of the file's lines.
fn slice_lines(lines: &Vec<String>, from: usize, to: usize) -> (r: Vec<String>)
    requires
        from <= to <= lines.len(),
    ensures
        r.deep_view() == lines.deep_view().subrange(from as int, to as int),
{
    let mut r: Vec<String> = Vec::new();
    let mut k: usize = from;
    while k < to
        invariant
            from <= k <= to <= lines.len(),
            r.deep_view() == lines.deep_view().subrange(from as int, k as int),
        decreases to - k,
    {
        let ghost prev = r.deep_view();
        let elem = lines[k].clone();
        let ghost ev = elem@;
        proof {
            assert(ev == lines.deep_view()[k as int]);
        }
        r.push(elem);
        proof {
            assert(r.deep_view() =~= prev.push(ev));
            assert(prev.push(ev) =~= lines.deep_view().subrange(from as int, k as int + 1));
        }
        k = k + 1;
    }
    r
}

/// Tests every hunk against every region and returns one event per overlap,
/// in arrival order over hunks and file order over regions.  A hunk outside
/// every region is dropped silently; the part of a hunk beyond the end of
/// the file is ignored.
pub fn correlate(set: &SpecRegionSet, hunks: &Vec<AttributionHunk>, lines: &Vec<String>) -> (r: Vec<
    ReportableEvent,
>)
    requires
        forall|k: int| 0 <= k < hunks@.len() ==> (#[trigger] hunks@[k]).wf(),
    ensures
        event_models(r@) == spec_correlate(set@, hunk_models(hunks@), lines.deep_view()),
        forall|k: int| 0 <= k < r@.len() ==> (#[trigger] r@[k]).wf(),
{
    let ghost rs = set@;
    let ghost hms = hunk_models(hunks@);
    let ghost l = lines.deep_view();
    let mut out: Vec<ReportableEvent> = Vec::new();
    let mut i: usize = 0;
    while i < hunks.len()
        invariant
            i <= hunks.len(),
            rs == set@,
            hms == hunk_models(hunks@),
            l == lines.deep_view(),
            hms.len() == hunks@.len(),
            l.len() == lines@.len(),
            forall|k: int| 0 <= k < hunks@.len() ==> (#[trigger] hunks@[k]).wf(),
            forall|k: int| 0 <= k < out@.len() ==> (#[trigger] out@[k]).wf(),
            spec_correlate(rs, hms, l) == event_models(out@) + correlate_from(rs, hms, l, i as int),
        decreases hunks.len() - i,
    {
        let h_start = hunks[i].start_line;
        let h_count = hunks[i].line_count;
        let h_ts = hunks[i].timestamp;
        let h_off = hunks[i].offset_minutes;
        let ghost hm = hunks@[i as int]@;
        proof {
            assert(hunks@[i as int].wf());
            assert(hm == hms[i as int]);
        }
        let hunk_end = h_start + h_count;
        let eff_end = if hunk_end <= lines.len() {
            hunk_end
        } else {
            lines.len()
        };
        assert(eff_end == effective_end(hm, l.len() as int));
        let mut j: usize = 0;
        proof {
            assert(correlate_from(rs, hms, l, i as int) == hunk_events_from(rs, hm, l, 0)
                + correlate_from(rs, hms, l, i as int + 1));
            assert(event_models(out@) + (hunk_events_from(rs, hm, l, 0) + correlate_from(
                rs,
                hms,
                l,
                i as int + 1,
            )) =~= event_models(out@) + hunk_events_from(rs, hm, l, 0) + correlate_from(
                rs,
                hms,
                l,
                i as int + 1,
            ));
        }
        while j < set.regions.len()
            invariant
                j <= set.regions.len(),
                rs == set@,
                l == lines.deep_view(),
                l.len() == lines@.len(),
                rs.len() == set.regions@.len(),
                hm.start == h_start as int,
                hm.end == h_start as int + h_count as int,
                hm.timestamp == h_ts as int,
                hm.offset == h_off as int,
                MIN_FORMAT_SECONDS <= h_ts <= MAX_FORMAT_SECONDS,
                -1439 <= h_off <= 1439,
                eff_end == effective_end(hm, l.len() as int),
                eff_end <= lines.len(),
                forall|k: int| 0 <= k < out@.len() ==> (#[trigger] out@[k]).wf(),
                spec_correlate(rs, hms, l) == event_models(out@) + hunk_events_from(
                    rs,
                    hm,
                    l,
                    j as int,
                ) + correlate_from(rs, hms, l, i as int + 1),
            decreases set.regions.len() - j,
        {
            let region = set.regions[j];
            assert(rs[j as int] == region@);
            let cs = if region.start >= h_start {
                region.start
            } else {
                h_start
            };
            let ce = if region.end <= eff_end {
                region.end
            } else {
                eff_end
            };
            if cs < ce {
                let matched = slice_lines(lines, cs, ce);
                let ev = ReportableEvent {
                    timestamp: h_ts,
                    offset_minutes: h_off,
                    clipped_start: cs,
                    clipped_end: ce,
                    matched_lines: matched,
                };
                proof {
                    assert(ev.matched_lines@.len() == ev.matched_lines.deep_view().len());
                    assert(ev.wf());
                    assert(ev@ =~= event_of(rs[j as int], hm, l));
                    assert(event_models(out@.push(ev)) =~= event_models(out@) + seq![ev@]);
                    assert(hunk_events_from(rs, hm, l, j as int) == seq![
                        event_of(rs[j as int], hm, l),
                    ] + hunk_events_from(rs, hm, l, j as int + 1));
                    assert((event_models(out@) + seq![ev@]) + hunk_events_from(
                        rs,
                        hm,
                        l,
                        j as int + 1,
                    ) =~= event_models(out@) + (seq![ev@] + hunk_events_from(
                        rs,
                        hm,
                        l,
                        j as int + 1,
                    )));
                }
                out.push(ev);
            } else {
                proof {
                    assert(!ranges_overlap(
                        rs[j as int].start,
                        rs[j as int].end,
                        hm.start,
                        effective_end(hm, l.len() as int),
                    ));
                }
            }
            j = j + 1;
        }
        proof {
            assert(hunk_events_from(rs, hm, l, set.regions@.len() as int)
                == Seq::<EventModel>::empty());
            assert(event_models(out@) + Seq::<EventModel>::empty() =~= event_models(out@));
        }
        i = i + 1;
    }
    proof {
        assert(correlate_from(rs, hms, l, hunks@.len() as int) == Seq::<EventModel>::empty());
        assert(event_models(out@) + Seq::<EventModel>::empty() =~= event_models(out@));
    }
    out
}

} // verus!
