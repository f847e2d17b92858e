use lockblame::correlate::hunk_limits;
use lockblame::correlate::overlaps;
use lockblame::regions::extract_regions;
use lockblame::report::run_report;
use lockblame::timefmt::relative_label;
use lockblame::AttributionHunk;
use lockblame::SpecRegion;

fn lines_of(strs: &[&str]) -> Vec<String> {
    strs.iter().map(|s| s.to_string()).collect()
}

// builds a hunk over the zero-indexed lines [start_line, start_line + line_count)
fn hunk(start_line: usize, line_count: usize, timestamp: i64) -> AttributionHunk {
    AttributionHunk {
        start_line,
        line_count,
        timestamp,
        offset_minutes: 0,
        commit_id: String::new(),
    }
}

#[test]
fn marker_block_yields_one_region() {
    let lines = lines_of(&["", "", "", "specs:", "  foo (1.0.0)", "  bar (2.0)", ""]);
    let set = extract_regions(&lines);
    assert_eq!(set.regions.len(), 1);
    assert_eq!(set.regions[0], SpecRegion { start: 4, end: 6 });
}

#[test]
fn extraction_is_deterministic() {
    let lines = lines_of(&["gems:", "  specs:", "  a (1.0)", "", "specs:", "  b (2.0)", ""]);
    let first = extract_regions(&lines);
    let second = extract_regions(&lines);
    assert_eq!(first.regions.len(), second.regions.len());
    for k in 0..first.regions.len() {
        assert_eq!(first.regions[k], second.regions[k]);
    }
}

#[test]
fn indented_marker_counts() {
    let lines = lines_of(&["GEM", "  specs:", "    rake (13.0.6)", "", "DEPENDENCIES"]);
    let set = extract_regions(&lines);
    assert_eq!(set.regions.len(), 1);
    assert_eq!(set.regions[0], SpecRegion { start: 2, end: 3 });
}

#[test]
fn marker_needs_trailing_colon_position() {
    let lines = lines_of(&["specs: and more", "x", ""]);
    let set = extract_regions(&lines);
    assert_eq!(set.regions.len(), 0);
}

#[test]
fn unterminated_region_closes_at_end_of_file() {
    let lines = lines_of(&["specs:", "  foo (1.0)"]);
    let set = extract_regions(&lines);
    assert_eq!(set.regions.len(), 1);
    assert_eq!(set.regions[0], SpecRegion { start: 1, end: 2 });
}

#[test]
fn zero_length_region_overlaps_nothing() {
    let lines = lines_of(&["specs:", "", "x"]);
    let set = extract_regions(&lines);
    assert_eq!(set.regions.len(), 1);
    assert_eq!(set.regions[0], SpecRegion { start: 1, end: 1 });
    let out = run_report(&lines, &vec![hunk(1, 3, 7)], 1000);
    assert_eq!(out.len(), 0);
}

#[test]
fn no_marker_means_no_events() {
    let lines = lines_of(&["gems", "  foo (1.0.0)", ""]);
    let set = extract_regions(&lines);
    assert_eq!(set.regions.len(), 0);
    let out = run_report(&lines, &vec![hunk(1, 3, 123456)], 1000000);
    assert_eq!(out.len(), 0);
}

#[test]
fn hunk_outside_every_region_is_silent() {
    let lines = lines_of(&["", "", "", "specs:", "  foo (1.0.0)", "  bar (2.0)", ""]);
    let out = run_report(&lines, &vec![hunk(1, 3, 50)], 1000);
    assert_eq!(out.len(), 0);
}

#[test]
fn adjacent_hunk_does_not_overlap() {
    // the region is [4, 6); a hunk ending exactly at line 4 touches it only
    // at the boundary, as does one starting exactly at line 6
    let region = SpecRegion { start: 4, end: 6 };
    let ends_at_start = hunk(0, 4, 0);
    assert!(!overlaps(&region, &ends_at_start));
    let starts_at_end = hunk(6, 3, 0);
    assert!(!overlaps(&region, &starts_at_end));
    let reaches_in = hunk(0, 5, 0);
    assert!(overlaps(&region, &reaches_in));
}

#[test]
fn clip_is_intersection() {
    let region = SpecRegion { start: 4, end: 6 };
    let reaches_in = hunk(0, 5, 0);
    let (lo, hi) = hunk_limits(&region, &reaches_in);
    assert_eq!((lo, hi), (4, 5));
    let inside = hunk(5, 1, 0);
    let (lo, hi) = hunk_limits(&region, &inside);
    assert_eq!((lo, hi), (5, 6));
}

#[test]
fn relative_label_tiers() {
    assert_eq!(relative_label(0, 0), "just now");
    assert_eq!(relative_label(59, 0), "just now");
    assert_eq!(relative_label(60, 0), "1 minutes ago");
    assert_eq!(relative_label(3599, 0), "59 minutes ago");
    assert_eq!(relative_label(3600, 0), "1 hours ago");
    assert_eq!(relative_label(86340, 0), "23 hours ago");
    assert_eq!(relative_label(86400, 0), "1 days ago");
    assert_eq!(relative_label(86400 * 10 + 3600, 0), "10 days ago");
}

#[test]
fn relative_label_truncates() {
    // ninety minutes report as one hour, not two, and not in minutes
    assert_eq!(relative_label(5400, 0), "1 hours ago");
}

#[test]
fn future_event_reports_just_now() {
    assert_eq!(relative_label(100, 500), "just now");
}

#[test]
fn hunk_from_blame_checks_its_fields() {
    let ok = AttributionHunk::new_from_blame(5, 2, 1000, 60, "abc".to_string());
    let h = ok.expect("in-range fields");
    assert_eq!(h.start_line, 4);
    assert_eq!(h.line_count, 2);
    assert_eq!(h.timestamp, 1000);
    assert_eq!(h.offset_minutes, 60);
    assert_eq!(h.commit_id, "abc");
    assert!(AttributionHunk::new_from_blame(0, 2, 1000, 0, String::new()).is_none());
    assert!(AttributionHunk::new_from_blame(5, 2, 8_000_000_000_001, 0, String::new()).is_none());
    assert!(AttributionHunk::new_from_blame(5, 2, -8_000_000_000_001, 0, String::new()).is_none());
    assert!(AttributionHunk::new_from_blame(5, 2, 1000, 1440, String::new()).is_none());
    assert!(AttributionHunk::new_from_blame(5, 2, 1000, -1440, String::new()).is_none());
    assert!(AttributionHunk::new_from_blame(2, usize::MAX, 1000, 0, String::new()).is_none());
}

#[test]
fn report_renders_clipped_block() {
    let lines = lines_of(&["", "", "", "specs:", "  foo (1.0.0)", "  bar (2.0)", ""]);
    // a hunk over zero-indexed lines [4, 6), attributed at the epoch
    let hunks = vec![hunk(4, 2, 0)];
    let out = run_report(&lines, &hunks, 0);
    assert_eq!(
        out,
        vec![
            "Updated just now (1970-01-01), lines 5-6:".to_string(),
            "  foo (1.0.0)".to_string(),
            "  bar (2.0)".to_string(),
            String::new(),
        ]
    );
}

#[test]
fn date_follows_the_hunk_offset() {
    let lines = lines_of(&["specs:", "  foo (1.0.0)", ""]);
    let mut west = hunk(1, 1, 0);
    west.offset_minutes = -60;
    let out = run_report(&lines, &vec![west], 0);
    assert_eq!(out[0], "Updated just now (1969-12-31), lines 2-2:");
    let mut east = hunk(1, 1, 0);
    east.offset_minutes = 60;
    let out = run_report(&lines, &vec![east], 0);
    assert_eq!(out[0], "Updated just now (1970-01-01), lines 2-2:");
}

#[test]
fn hunk_spanning_two_blocks_yields_two_events() {
    let lines = lines_of(&["specs:", "  foo (1.0)", "", "specs:", "  bar (2.0)", ""]);
    let set = extract_regions(&lines);
    assert_eq!(set.regions.len(), 2);
    assert_eq!(set.regions[0], SpecRegion { start: 1, end: 2 });
    assert_eq!(set.regions[1], SpecRegion { start: 4, end: 5 });
    // one hunk over the whole file: one event per overlapped region
    let out = run_report(&lines, &vec![hunk(0, 6, 0)], 0);
    assert_eq!(
        out,
        vec![
            "Updated just now (1970-01-01), lines 2-2:".to_string(),
            "  foo (1.0)".to_string(),
            String::new(),
            "Updated just now (1970-01-01), lines 5-5:".to_string(),
            "  bar (2.0)".to_string(),
            String::new(),
        ]
    );
}

#[test]
fn blocks_come_out_ascending_in_time() {
    let lines = lines_of(&["specs:", "  foo (1.0)", "  bar (2.0)", ""]);
    let late = hunk(1, 1, 864000);
    let early = hunk(2, 1, 0);
    let now = 864000;
    let out = run_report(&lines, &vec![late, early], now);
    assert_eq!(
        out,
        vec![
            "Updated 10 days ago (1970-01-01), lines 3-3:".to_string(),
            "  bar (2.0)".to_string(),
            String::new(),
            "Updated just now (1970-01-11), lines 2-2:".to_string(),
            "  foo (1.0)".to_string(),
            String::new(),
        ]
    );
}

#[test]
fn hunk_past_end_of_file_is_clipped() {
    let lines = lines_of(&["specs:", "  foo (1.0)"]);
    // the hunk claims five lines; only the two real ones count
    let out = run_report(&lines, &vec![hunk(1, 5, 0)], 0);
    assert_eq!(
        out,
        vec![
            "Updated just now (1970-01-01), lines 2-2:".to_string(),
            "  foo (1.0)".to_string(),
            String::new(),
        ]
    );
}
