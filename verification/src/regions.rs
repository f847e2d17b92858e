//! Extraction of specification regions from the lines of a lock file.
//!
//! A region is delimited by a marker line (a line ending in `specs:`) and the
//! first blank line after it.  All intervals here are half-open over
//! zero-indexed line numbers: a region covers the lines `[start .. end)`.
//! A trailing region that the file ends before a blank line closes is kept
//! and closed at end of file.

use vstd::prelude::*;

verus! {

/// One specification block: the half-open interval `[start .. end)` of
/// zero-indexed line numbers.
#[derive(Clone, Copy, Debug, PartialEq, Eq, Structural)]
pub struct SpecRegion {
    pub start: usize,
    pub end: usize,
}

/// The mathematical value of a region: a half-open interval of integers.
pub ghost struct RegionModel {
    pub start: int,
    pub end: int,
}

impl View for SpecRegion {
    type V = RegionModel;

    open spec fn view(&self) -> RegionModel {
        RegionModel { start: self.start as int, end: self.end as int }
    }
}

/// The models of a sequence of regions.
pub open spec fn region_models(s: Seq<SpecRegion>) -> Seq<RegionModel> {
    s.map(|k: int, r: SpecRegion| r@)
}

/// An ordered set of non-overlapping regions, in file order.
pub struct SpecRegionSet {
    pub regions: Vec<SpecRegion>,
}

impl View for SpecRegionSet {
    type V = Seq<RegionModel>;

    open spec fn view(&self) -> Seq<RegionModel> {
        region_models(self.regions@)
    }
}

/// Well-formedness of a region sequence: every region runs forward, and the
/// regions stand in file order without touching each other's interior.
pub open spec fn regions_wf(rs: Seq<RegionModel>) -> bool {
    &&& forall|k: int| 0 <= k < rs.len() ==> (#[trigger] rs[k]).start <= rs[k].end
    &&& forall|k: int| 0 < k < rs.len() ==> rs[k - 1].end <= (#[trigger] rs[k]).start
}

impl SpecRegionSet {
    pub open spec fn wf(&self) -> bool {
        regions_wf(self@)
    }
}

/// A marker line ends in the six characters `specs:`.
pub open spec fn is_marker_line(s: Seq<char>) -> bool {
    &&& s.len() >= 6
    &&& s[s.len() - 6] == 's'
    &&& s[s.len() - 5] == 'p'
    &&& s[s.len() - 4] == 'e'
    &&& s[s.len() - 3] == 'c'
    &&& s[s.len() - 2] == 's'
    &&& s[s.len() - 1] == ':'
}

/// A blank line has no characters at all.
pub open spec fn is_blank_line(s: Seq<char>) -> bool {
    s.len() == 0
}

/// The regions of `lines` from position `i` on, with `cur` the start of the
/// region that is open at `i`, if one is.  A region begins on the line after a
/// marker line, and closes on the first blank line after it; one still open at
/// end of file closes there.
pub open spec fn extract_from(lines: Seq<Seq<char>>, i: int, cur: Option<int>) -> Seq<RegionModel>
    decreases lines.len() - i,
{
    if i < 0 || i >= lines.len() {
        match cur {
            None => Seq::empty(),
            Some(s) => seq![RegionModel { start: s, end: lines.len() as int }],
        }
    } else {
        match cur {
            None => {
                if is_marker_line(lines[i]) {
                    extract_from(lines, i + 1, Some(i + 1))
                } else {
                    extract_from(lines, i + 1, None)
                }
            },
            Some(s) => {
                if is_blank_line(lines[i]) {
                    seq![RegionModel { start: s, end: i }] + extract_from(lines, i + 1, None)
                } else {
                    extract_from(lines, i + 1, Some(s))
                }
            },
        }
    }
}

/// All specification regions of `lines`, in file order.
pub open spec fn extract(lines: Seq<Seq<char>>) -> Seq<RegionModel> {
    extract_from(lines, 0, None)
}

/// Extraction is a function of the line sequence alone: two runs over the
/// same lines yield the same region set.
pub proof fn lemma_extract_deterministic(
    lines: Seq<Seq<char>>,
    a: Seq<RegionModel>,
    b: Seq<RegionModel>,
)
    requires
        a == extract(lines),
        b == extract(lines),
    ensures
        a == b,
{
}

/// What `extract_from` promises of its result: every region is well formed,
/// and no region starts before the open region's start (or before the line
/// after `i`, when none is open).
proof fn lemma_extract_from_wf(lines: Seq<Seq<char>>, i: int, cur: Option<int>)
    requires
        0 <= i <= lines.len(),
        cur matches Some(s) ==> 0 <= s <= i,
    ensures
        regions_wf(extract_from(lines, i, cur)),
        forall|k: int|
            0 <= k < extract_from(lines, i, cur).len() ==> (#[trigger] extract_from(
                lines,
                i,
                cur,
            )[k]).start >= (match cur {
                Some(s) => s,
                None => i + 1,
            }),
    decreases lines.len() - i,
{
    let res = extract_from(lines, i, cur);
    if i >= lines.len() {
        // base case: at most one region, closed at end of file
    } else {
        match cur {
            None => {
                if is_marker_line(lines[i]) {
                    lemma_extract_from_wf(lines, i + 1, Some(i + 1));
                } else {
                    lemma_extract_from_wf(lines, i + 1, None);
                }
            },
            Some(s) => {
                if is_blank_line(lines[i]) {
                    lemma_extract_from_wf(lines, i + 1, None);
                    let first = RegionModel { start: s, end: i };
                    assert(res == seq![first] + extract_from(lines, i + 1, None));
                    assert forall|k: int| 0 <= k < res.len() implies (#[trigger] res[k]).start
                        <= res[k].end by {
                        if k > 0 {
                            assert(res[k] == extract_from(lines, i + 1, None)[k - 1]);
                        }
                    }
                    assert forall|k: int| 0 < k < res.len() implies res[k - 1].end
                        <= (#[trigger] res[k]).start by {
                        assert(res[k] == extract_from(lines, i + 1, None)[k - 1]);
                        assert(extract_from(lines, i + 1, None)[k - 1].start >= i + 2);
                        if k > 1 {
                            assert(res[k - 1] == extract_from(lines, i + 1, None)[k - 2]);
                            assert(extract_from(lines, i + 1, None)[k - 2].end <= extract_from(
                                lines,
                                i + 1,
                                None,
                            )[k - 1].start);
                        }
                    }
                } else {
                    lemma_extract_from_wf(lines, i + 1, Some(s));
                }
            },
        }
    }
}

/// The extracted region set is well formed: regions run forward and stand in
/// file order, pairwise disjoint.
pub proof fn lemma_extract_wf(lines: Seq<Seq<char>>)
    ensures
        regions_wf(extract(lines)),
{
    lemma_extract_from_wf(lines, 0, None);
}

/// In a well-formed region sequence, every earlier region ends no later than
/// any later one starts.
proof fn lemma_regions_chain(rs: Seq<RegionModel>, i: int, j: int)
    requires
        regions_wf(rs),
        0 <= i < j < rs.len(),
    ensures
        rs[i].end <= rs[j].start,
    decreases j - i,
{
    assert(rs[j - 1].end <= rs[j].start);
    if j > i + 1 {
        lemma_regions_chain(rs, i, j - 1);
        assert(rs[j - 1].start <= rs[j - 1].end);
    }
}

/// No two distinct regions of a well-formed region sequence overlap.
pub proof fn lemma_regions_nonoverlap(rs: Seq<RegionModel>)
    requires
        regions_wf(rs),
    ensures
        forall|i: int, j: int|
            0 <= i < rs.len() && 0 <= j < rs.len() && i != j ==> !((#[trigger] rs[i]).start
                < (#[trigger] rs[j]).end && rs[j].start < rs[i].end),
{
    assert forall|i: int, j: int|
        0 <= i < rs.len() && 0 <= j < rs.len() && i != j implies !((#[trigger] rs[i]).start
        < (#[trigger] rs[j]).end && rs[j].start < rs[i].end) by {
        if i < j {
            lemma_regions_chain(rs, i, j);
        } else {
            lemma_regions_chain(rs, j, i);
        }
    }
}

/// Whether `line` ends in the marker `specs:`.
pub fn is_marker(line: &str) -> (r: bool)
    ensures
        r == is_marker_line(line@),
{
    let n = line.unicode_len();
    if n < 6 {
        return false;
    }
    line.get_char(n - 6) == 's' && line.get_char(n - 5) == 'p' && line.get_char(n - 4) == 'e'
        && line.get_char(n - 3) == 'c' && line.get_char(n - 2) == 's' && line.get_char(n - 1) == ':'
}

/// Whether `line` is blank.
pub fn is_blank(line: &str) -> (r: bool)
    ensures
        r == is_blank_line(line@),
{
    line.unicode_len() == 0
}

/// Scans the lines once and returns every specification region, in file
/// order.  A file without a marker yields an empty set; a region still open
/// at end of file is closed there.
pub fn extract_regions(lines: &Vec<String>) -> (r: SpecRegionSet)
    ensures
        r@ == extract(lines.deep_view()),
        r.wf(),
{
    let ghost l = lines.deep_view();
    let mut out: Vec<SpecRegion> = Vec::new();
    let mut cur: Option<usize> = None;
    let mut i: usize = 0;
    while i < lines.len()
        invariant
            i <= lines.len(),
            l == lines.deep_view(),
            l.len() == lines.len(),
            cur matches Some(s) ==> s <= i,
            extract(l) == region_models(out@) + extract_from(
                l,
                i as int,
                match cur {
                    Some(s) => Some(s as int),
                    None => None,
                },
            ),
        decreases lines.len() - i,
    {
        assert(l[i as int] == lines[i as int]@);
        match cur {
            None => {
                if is_marker(lines[i].as_str()) {
                    cur = Some(i + 1);
                }
            },
            Some(s) => {
                if is_blank(lines[i].as_str()) {
                    let region = SpecRegion { start: s, end: i };
                    proof {
                        let ghost rest = extract_from(l, i + 1, None);
                        assert(region_models(out@.push(region)) =~= region_models(out@).push(
                            region@,
                        ));
                        assert(region_models(out@).push(region@) + rest =~= region_models(out@) + (
                        seq![region@] + rest));
                    }
                    out.push(region);
                    cur = None;
                }
            },
        }
        i = i + 1;
    }
    match cur {
        None => {},
        Some(s) => {
            let region = SpecRegion { start: s, end: lines.len() };
            proof {
                assert(region_models(out@.push(region)) =~= region_models(out@) + seq![region@]);
            }
            out.push(region);
        },
    }
    let r = SpecRegionSet { regions: out };
    proof {
        assert(r@ =~= extract(l));
        lemma_extract_wf(l);
    }
    r
}

} // verus!
