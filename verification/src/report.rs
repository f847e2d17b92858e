//! Chronological ordering and rendering of the reportable events.
//!
//! Events are sorted ascending by timestamp with a stable insertion sort:
//! an event goes after every event already placed whose timestamp is not
//! larger, so ties keep their arrival order.  Each event with at least one
//! matched line renders as a header line, the matched lines, and a blank
//! separator line; an event with no matched line renders nothing.

use vstd::prelude::*;
use vstd::string::StringExecFns;
use crate::correlate::AttributionHunk;
use crate::correlate::EventModel;
use crate::correlate::ReportableEvent;
use crate::correlate::event_models;
use crate::correlate::hunk_models;
use crate::correlate::spec_correlate;
use crate::regions::extract;
use crate::regions::extract_regions;
use crate::timefmt::date_label_of;
use crate::timefmt::format_date;
use crate::timefmt::push_decimal;
use crate::timefmt::rel_label;
use crate::timefmt::relative_label;
use crate::timefmt::spec_decimal;
use crate::timefmt::spec_delta;
use crate::correlate::correlate;

verus! {

/// `e` placed into the already-sorted `s`: before the first event with a
/// strictly later timestamp, and so after every event with the same one.
pub open spec fn insert_by_time(s: Seq<EventModel>, e: EventModel) -> Seq<EventModel>
    decreases s.len(),
{
    if s.len() == 0 {
        seq![e]
    } else if e.timestamp < s[0].timestamp {
        seq![e] + s
    } else {
        seq![s[0]] + insert_by_time(s.drop_first(), e)
    }
}

/// The events of `s` sorted ascending by timestamp, stably: each event in
/// turn, in arrival order, is placed after every already-placed event whose
/// timestamp is not larger.
pub open spec fn sort_by_time(s: Seq<EventModel>) -> Seq<EventModel>
    decreases s.len(),
{
    if s.len() == 0 {
        Seq::empty()
    } else {
        insert_by_time(sort_by_time(s.drop_last()), s.last())
    }
}

/// Whether the events of `s` stand in ascending order of timestamp.
pub open spec fn sorted_by_time(s: Seq<EventModel>) -> bool {
    forall|i: int, j: int|
        0 <= i <= j < s.len() ==> (#[trigger] s[i]).timestamp <= (#[trigger] s[j]).timestamp
}

proof fn lemma_insert_sorted(s: Seq<EventModel>, e: EventModel)
    requires
        sorted_by_time(s),
    ensures
        sorted_by_time(insert_by_time(s, e)),
        insert_by_time(s, e).len() == s.len() + 1,
        forall|k: int|
            0 <= k < insert_by_time(s, e).len() ==> (#[trigger] insert_by_time(s, e)[k]) == e
                || s.contains(insert_by_time(s, e)[k]),
    decreases s.len(),
{
    let ins = insert_by_time(s, e);
    if s.len() == 0 {
    } else if e.timestamp < s[0].timestamp {
        assert forall|k: int| 0 <= k < ins.len() implies (#[trigger] ins[k]) == e || s.contains(
            ins[k],
        ) by {
            if k > 0 {
                assert(ins[k] == s[k - 1]);
            }
        }
    } else {
        let rest = s.drop_first();
        assert(sorted_by_time(rest)) by {
            assert forall|i: int, j: int| 0 <= i <= j < rest.len() implies (#[trigger] rest[i]).timestamp
                <= (#[trigger] rest[j]).timestamp by {
                assert(rest[i] == s[i + 1]);
                assert(rest[j] == s[j + 1]);
            }
        }
        lemma_insert_sorted(rest, e);
        let tail = insert_by_time(rest, e);
        assert(ins == seq![s[0]] + tail);
        assert forall|k: int| 0 <= k < ins.len() implies (#[trigger] ins[k]) == e || s.contains(
            ins[k],
        ) by {
            if k > 0 {
                assert(ins[k] == tail[k - 1]);
                if tail[k - 1] == e {
                } else {
                    assert(rest.contains(tail[k - 1]));
                    let m = choose|m: int| 0 <= m < rest.len() && rest[m] == tail[k - 1];
                    assert(s[m + 1] == rest[m]);
                }
            } else {
                assert(s.contains(s[0]));
            }
        }
        assert forall|i: int, j: int| 0 <= i <= j < ins.len() implies (#[trigger] ins[i]).timestamp
            <= (#[trigger] ins[j]).timestamp by {
            if i == 0 && j > 0 {
                assert(ins[j] == tail[j - 1]);
                if tail[j - 1] == e {
                    assert(s[0].timestamp <= e.timestamp);
                } else {
                    assert(rest.contains(tail[j - 1]));
                    let m = choose|m: int| 0 <= m < rest.len() && rest[m] == tail[j - 1];
                    assert(s[m + 1] == rest[m]);
                    assert(s[0].timestamp <= s[m + 1].timestamp);
                }
            } else if i > 0 {
                assert(ins[i] == tail[i - 1]);
                assert(ins[j] == tail[j - 1]);
            }
        }
    }
}

/// The sorted sequence holds as many events as went in, and its timestamps
/// are non-decreasing from the first rendered event to the last.
pub proof fn lemma_sort_ascending(s: Seq<EventModel>)
    ensures
        sorted_by_time(sort_by_time(s)),
        sort_by_time(s).len() == s.len(),
    decreases s.len(),
{
    if s.len() > 0 {
        lemma_sort_ascending(s.drop_last());
        lemma_insert_sorted(sort_by_time(s.drop_last()), s.last());
    }
}

/// Placing `e` at position `k` of `s` is what `insert_by_time` does, when
/// everything before `k` has a timestamp not after `e`'s and the event at
/// `k`, if any, a strictly later one.
proof fn lemma_insert_by_time_at(s: Seq<EventModel>, e: EventModel, k: int)
    requires
        0 <= k <= s.len(),
        forall|m: int| 0 <= m < k ==> (#[trigger] s[m]).timestamp <= e.timestamp,
        k < s.len() ==> s[k].timestamp > e.timestamp,
    ensures
        insert_by_time(s, e) == s.insert(k, e),
    decreases s.len(),
{
    if s.len() == 0 {
        assert(insert_by_time(s, e) =~= s.insert(0, e));
    } else if e.timestamp < s[0].timestamp {
        assert(k == 0);
        assert(insert_by_time(s, e) =~= s.insert(0, e));
    } else {
        assert(s[0].timestamp <= e.timestamp);
        assert(k > 0);
        let rest = s.drop_first();
        assert forall|m: int| 0 <= m < k - 1 implies (#[trigger] rest[m]).timestamp
            <= e.timestamp by {
            assert(rest[m] == s[m + 1]);
        }
        assert(k - 1 < rest.len() ==> rest[k - 1].timestamp > e.timestamp);
        lemma_insert_by_time_at(rest, e, k - 1);
        assert(seq![s[0]] + rest.insert(k - 1, e) =~= s.insert(k, e));
    }
}

/// Consumes the events and returns them sorted ascending by timestamp, ties
/// in arrival order.
pub fn sort_events(events: Vec<ReportableEvent>) -> (r: Vec<ReportableEvent>)
    ensures
        event_models(r@) == sort_by_time(event_models(events@)),
        forall|k: int|
            0 <= k < r@.len() ==> exists|m: int|
                0 <= m < events@.len() && (#[trigger] r@[k]) == events@[m],
{
    let ghost orig = events@;
    let mut rest = events;
    let mut acc: Vec<ReportableEvent> = Vec::new();
    let ghost done: int = 0;
    while rest.len() > 0
        invariant
            0 <= done <= orig.len(),
            rest@ == orig.skip(done),
            event_models(acc@) == sort_by_time(event_models(orig.take(done))),
            forall|k: int|
                0 <= k < acc@.len() ==> exists|m: int|
                    0 <= m < orig.len() && (#[trigger] acc@[k]) == orig[m],
        decreases rest.len(),
    {
        let e = rest.remove(0);
        proof {
            assert(orig.skip(done).drop_first() =~= orig.skip(done + 1));
            assert(e == orig[done]);
        }
        insert_event(&mut acc, e);
        proof {
            assert(event_models(orig.take(done + 1)).drop_last() =~= event_models(
                orig.take(done),
            ));
            assert(event_models(orig.take(done + 1)).last() == orig[done]@);
            assert(event_models(orig.take(done + 1)).len() == done + 1);
            assert(sort_by_time(event_models(orig.take(done + 1))) == insert_by_time(
                sort_by_time(event_models(orig.take(done))),
                orig[done]@,
            ));
        }
        proof {
            done = done + 1;
        }
    }
    proof {
        assert(orig.take(done) =~= orig);
    }
    acc
}

/// Places `e` into the sorted `acc`, after every event whose timestamp is
/// not larger.
fn insert_event(acc: &mut Vec<ReportableEvent>, e: ReportableEvent)
    ensures
        event_models(final(acc)@) == insert_by_time(event_models(old(acc)@), e@),
        forall|k: int|
            0 <= k < final(acc)@.len() ==> (#[trigger] final(acc)@[k]) == e || old(
                acc,
            )@.contains(final(acc)@[k]),
{
    let ghost s = event_models(acc@);
    let mut k: usize = 0;
    while k < acc.len() && acc[k].timestamp <= e.timestamp
        invariant
            0 <= k <= acc@.len(),
            s == event_models(acc@),
            s.len() == acc@.len(),
            forall|m: int| 0 <= m < k ==> (#[trigger] s[m]).timestamp <= e@.timestamp,
        decreases acc.len() - k,
    {
        assert(s[k as int] == acc@[k as int]@);
        k = k + 1;
    }
    proof {
        if (k as int) < acc@.len() {
            assert(s[k as int] == acc@[k as int]@);
        }
        lemma_insert_by_time_at(s, e@, k as int);
    }
    acc.insert(k, e);
    proof {
        assert(event_models(acc@) =~= s.insert(k as int, e@));
        assert forall|m: int| 0 <= m < acc@.len() implies (#[trigger] acc@[m]) == e || old(
            acc,
        )@.contains(acc@[m]) by {
            if m < k as int {
                assert(acc@[m] == old(acc)@[m]);
            } else if m > k as int {
                assert(acc@[m] == old(acc)@[m - 1]);
            }
        }
    }
}

/// The header line of a rendered event: the relative and absolute time of
/// the change, then the clipped line range, one-indexed and inclusive.
pub open spec fn header_line(e: EventModel, now: int) -> Seq<char> {
    "Updated "@ + rel_label(spec_delta(now, e.timestamp)) + " ("@ + date_label_of(
        e.timestamp,
        e.offset,
    ) + "), lines "@ + spec_decimal(e.start + 1) + "-"@ + spec_decimal(e.end) + ":"@
}

/// The output block of one event: nothing for an event without matched
/// lines, else the header, the matched lines, and a blank separator line.
pub open spec fn render_event(e: EventModel, now: int) -> Seq<Seq<char>> {
    if e.lines.len() == 0 {
        Seq::empty()
    } else {
        seq![header_line(e, now)] + e.lines + seq![Seq::<char>::empty()]
    }
}

/// The output blocks of the events from position `i` on, in sequence order.
pub open spec fn render_events_from(s: Seq<EventModel>, now: int, i: int) -> Seq<Seq<char>>
    decreases s.len() - i,
{
    if i < 0 || i >= s.len() {
        Seq::empty()
    } else {
        render_event(s[i], now) + render_events_from(s, now, i + 1)
    }
}

/// The output blocks of all events of `s`, in sequence order.
pub open spec fn render_events(s: Seq<EventModel>, now: int) -> Seq<Seq<char>> {
    render_events_from(s, now, 0)
}

/// The header line of `ev`, seen from `now`.
fn render_header(ev: &ReportableEvent, now: i64) -> (r: String)
    requires
        ev.wf(),
        ev.matched_lines.len() > 0,
    ensures
        r@ == header_line(ev@, now as int),
{
    let mut s = "Updated ".to_owned();
    let rel = relative_label(now, ev.timestamp);
    s.append(rel.as_str());
    s.append(" (");
    let date = format_date(ev.timestamp, ev.offset_minutes);
    s.append(date.as_str());
    s.append("), lines ");
    push_decimal(&mut s, (ev.clipped_start + 1) as u64);
    s.append("-");
    push_decimal(&mut s, ev.clipped_end as u64);
    s.append(":");
    proof {
        assert(s@ =~= header_line(ev@, now as int));
    }
    s
}

/// Sorts the events ascending by timestamp, ties in arrival order, and
/// renders one block per event that matched at least one line: its header,
/// its lines, and a blank separator line.
pub fn render_report(events: Vec<ReportableEvent>, now: i64) -> (r: Vec<String>)
    requires
        forall|k: int| 0 <= k < events@.len() ==> (#[trigger] events@[k]).wf(),
    ensures
        r.deep_view() == render_events(sort_by_time(event_models(events@)), now as int),
{
    let ghost models = event_models(events@);
    let sorted = sort_events(events);
    let ghost sm = event_models(sorted@);
    proof {
        assert forall|k: int| 0 <= k < sorted@.len() implies (#[trigger] sorted@[k]).wf() by {
            let m = choose|m: int| 0 <= m < events@.len() && sorted@[k] == events@[m];
            assert(events@[m].wf());
        }
    }
    let mut out: Vec<String> = Vec::new();
    proof {
        assert(out.deep_view() =~= Seq::<Seq<char>>::empty());
        assert(Seq::<Seq<char>>::empty() + render_events(sm, now as int) =~= render_events(
            sm,
            now as int,
        ));
    }
    let mut i: usize = 0;
    while i < sorted.len()
        invariant
            i <= sorted@.len(),
            sm == event_models(sorted@),
            sm.len() == sorted@.len(),
            forall|k: int| 0 <= k < sorted@.len() ==> (#[trigger] sorted@[k]).wf(),
            out.deep_view() + render_events_from(sm, now as int, i as int) == render_events(
                sm,
                now as int,
            ),
        decreases sorted.len() - i,
    {
        proof {
            assert(sm[i as int] == sorted@[i as int]@);
        }
        let ev = &sorted[i];
        if ev.matched_lines.len() > 0 {
            let ghost before = out.deep_view();
            let header = render_header(ev, now);
            out.push(header);
            let mut m: usize = 0;
            while m < ev.matched_lines.len()
                invariant
                    m <= ev.matched_lines@.len(),
                    out.deep_view() == before + seq![header_line(ev@, now as int)]
                        + ev@.lines.take(m as int),
                decreases ev.matched_lines.len() - m,
            {
                let ghost prev = out.deep_view();
                let line = ev.matched_lines[m].clone();
                let ghost lv = line@;
                proof {
                    assert(lv == ev@.lines[m as int]);
                }
                out.push(line);
                proof {
                    assert(out.deep_view() =~= prev.push(lv));
                    assert(prev.push(lv) =~= before + seq![header_line(ev@, now as int)]
                        + ev@.lines.take(m as int + 1));
                }
                m = m + 1;
            }
            let ghost mid = out.deep_view();
            out.push(String::new());
            proof {
                assert(ev@.lines.take(ev.matched_lines@.len() as int) =~= ev@.lines);
                assert(mid == before + seq![header_line(ev@, now as int)] + ev@.lines);
                assert(out.deep_view() =~= mid.push(Seq::<char>::empty()));
                assert(ev@.lines.len() > 0);
                assert(render_event(ev@, now as int) == seq![header_line(ev@, now as int)]
                    + ev@.lines + seq![Seq::<char>::empty()]);
                assert(mid.push(Seq::<char>::empty()) =~= before + render_event(
                    ev@,
                    now as int,
                ));
                assert(out.deep_view() =~= before + render_event(sm[i as int], now as int));
                assert(render_events_from(sm, now as int, i as int) == render_event(
                    sm[i as int],
                    now as int,
                ) + render_events_from(sm, now as int, i as int + 1));
                assert((before + render_event(sm[i as int], now as int)) + render_events_from(
                    sm,
                    now as int,
                    i as int + 1,
                ) =~= before + render_events_from(sm, now as int, i as int));
            }
        } else {
            proof {
                assert(render_event(sm[i as int], now as int) == Seq::<Seq<char>>::empty());
                assert(render_events_from(sm, now as int, i as int) =~= render_events_from(
                    sm,
                    now as int,
                    i as int + 1,
                ));
            }
        }
        i = i + 1;
    }
    proof {
        assert(render_events_from(sm, now as int, sorted@.len() as int) == Seq::<
            Seq<char>,
        >::empty());
        assert(out.deep_view() + Seq::<Seq<char>>::empty() =~= out.deep_view());
    }
    out
}

/// The whole pipeline over the loaded lines and the attribution feed:
/// extract the specification regions, correlate every hunk against them,
/// and render the overlaps ascending in time, seen from `now`.
pub fn run_report(lines: &Vec<String>, hunks: &Vec<AttributionHunk>, now: i64) -> (r: Vec<String>)
    requires
        forall|k: int| 0 <= k < hunks@.len() ==> (#[trigger] hunks@[k]).wf(),
    ensures
        r.deep_view() == render_events(
            sort_by_time(
                spec_correlate(extract(lines.deep_view()), hunk_models(hunks@), lines.deep_view()),
            ),
            now as int,
        ),
{
    let set = extract_regions(lines);
    let events = correlate(&set, hunks, lines);
    render_report(events, now)
}

} // verus!
