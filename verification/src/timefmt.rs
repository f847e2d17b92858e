//! Rendering of timestamps: the absolute calendar date of a change, and a
//! coarse relative label against the current time handed in by the caller.
//!
//! The relative tiers are mutually exclusive and tried in the order days,
//! hours, minutes; each divides with truncation, so a duration of one day
//! less a minute still reports in hours.

use vstd::prelude::*;
use vstd::string::StringExecFns;
use crate::correlate::MAX_FORMAT_SECONDS;
use crate::correlate::MIN_FORMAT_SECONDS;

verus! {

/// The decimal digit character for `d`.
pub open spec fn digit_char(d: int) -> char {
    if d == 0 {
        '0'
    } else if d == 1 {
        '1'
    } else if d == 2 {
        '2'
    } else if d == 3 {
        '3'
    } else if d == 4 {
        '4'
    } else if d == 5 {
        '5'
    } else if d == 6 {
        '6'
    } else if d == 7 {
        '7'
    } else if d == 8 {
        '8'
    } else {
        '9'
    }
}

/// The decimal digits of a non-negative number, most significant first.
pub open spec fn spec_decimal(n: int) -> Seq<char>
    recommends
        n >= 0,
    decreases n,
{
    if n < 10 {
        seq![digit_char(n)]
    } else {
        spec_decimal(n / 10) + seq![digit_char(n % 10)]
    }
}

/// The one-character string for the decimal digit `d`.
fn digit_str(d: u64) -> (r: &'static str)
    requires
        d < 10,
    ensures
        r@ == seq![digit_char(d as int)],
{
    proof {
        reveal_strlit("0");
        reveal_strlit("1");
        reveal_strlit("2");
        reveal_strlit("3");
        reveal_strlit("4");
        reveal_strlit("5");
        reveal_strlit("6");
        reveal_strlit("7");
        reveal_strlit("8");
        reveal_strlit("9");
    }
    let r = match d {
        0 => "0",
        1 => "1",
        2 => "2",
        3 => "3",
        4 => "4",
        5 => "5",
        6 => "6",
        7 => "7",
        8 => "8",
        _ => "9",
    };
    proof {
        assert(r@ =~= seq![digit_char(d as int)]);
    }
    r
}

/// Appends the decimal digits of `n` to `out`.
pub fn push_decimal(out: &mut String, n: u64)
    ensures
        final(out)@ == old(out)@ + spec_decimal(n as int),
    decreases n,
{
    if n >= 10 {
        push_decimal(out, n / 10);
        out.append(digit_str(n % 10));
        proof {
            assert(old(out)@ + spec_decimal(n as int / 10) + seq![digit_char(n as int % 10)]
                =~= old(out)@ + spec_decimal(n as int));
        }
    } else {
        out.append(digit_str(n));
    }
}

/// How many seconds lie between the current time and an event: zero for an
/// event not in the past.
pub open spec fn spec_delta(now: int, event_ts: int) -> int {
    if event_ts >= now {
        0
    } else {
        now - event_ts
    }
}

/// The relative-time label for a duration of `delta` seconds: whole days if
/// at least one, else whole hours if at least one, else whole minutes if at
/// least one, else `just now`.
pub open spec fn rel_label(delta: int) -> Seq<char>
    recommends
        delta >= 0,
{
    if delta >= 86400 {
        spec_decimal(delta / 86400) + " days ago"@
    } else if delta >= 3600 {
        spec_decimal(delta / 3600) + " hours ago"@
    } else if delta >= 60 {
        spec_decimal(delta / 60) + " minutes ago"@
    } else {
        "just now"@
    }
}

/// The relative-time label of an event stamped `event_ts`, seen from `now`,
/// both in seconds since the epoch.  An event at or after `now` reports as
/// `just now`.
pub fn relative_label(now: i64, event_ts: i64) -> (r: String)
    ensures
        r@ == rel_label(spec_delta(now as int, event_ts as int)),
{
    if event_ts >= now {
        return "just now".to_owned();
    }
    let wide: i128 = now as i128 - event_ts as i128;
    assert(0 < wide <= u64::MAX);
    let delta: u64 = wide as u64;
    assert(delta as int == spec_delta(now as int, event_ts as int));
    let mut r = String::new();
    if delta >= 86400 {
        push_decimal(&mut r, delta / 86400);
        r.append(" days ago");
    } else if delta >= 3600 {
        push_decimal(&mut r, delta / 3600);
        r.append(" hours ago");
    } else if delta >= 60 {
        push_decimal(&mut r, delta / 60);
        r.append(" minutes ago");
    } else {
        r.append("just now");
    }
    proof {
        assert(r@ =~= rel_label(spec_delta(now as int, event_ts as int)));
    }
    r
}

/// The calendar date, written `%Y-%m-%d`, of the moment `seconds` after the
/// epoch, in the time zone `offset_minutes` east of UTC.  The result is a
/// function of the two arguments alone.
pub uninterp spec fn date_label_of(seconds: int, offset_minutes: int) -> Seq<char>;

/// Relies on chrono: `FixedOffset::east_opt` accepts any offset under a day,
/// `TimeZone::timestamp_opt` maps an in-range timestamp to a single moment,
/// and formatting with `%Y-%m-%d` writes its calendar date, a value that
/// depends on the timestamp and the offset alone.
#[verifier::external_body]
pub(crate) fn format_date(seconds: i64, offset_minutes: i32) -> (r: String)
    requires
        MIN_FORMAT_SECONDS <= seconds <= MAX_FORMAT_SECONDS,
        -1439 <= offset_minutes <= 1439,
    ensures
        r@ == date_label_of(seconds as int, offset_minutes as int),
{
    let offset = chrono::FixedOffset::east_opt(offset_minutes * 60).unwrap();
    let moment = chrono::TimeZone::timestamp_opt(&offset, seconds, 0).unwrap();
    moment.format("%Y-%m-%d").to_string()
}

} // verus!
