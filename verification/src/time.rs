//! Timestamps as plain UTC calendar fields, with their fixed-width text
//! renderings and the trusted bridge to the calendar library.

use vstd::prelude::*;
use chrono::Datelike;
use chrono::Timelike;
use crate::bytes::{pad2_spec, pad4_spec, push_pad2, push_pad4};

verus! {

/// A point in time, timezone-normalized to UTC, held as calendar fields.
#[derive(Clone, Copy, Debug, PartialEq, Eq, Structural)]
pub struct UtcTime {
    pub year: u16,
    pub month: u8,
    pub day: u8,
    pub hour: u8,
    pub minute: u8,
    pub second: u8,
}

impl UtcTime {
    /// Field ranges of a renderable timestamp.
    pub open spec fn wf(self) -> bool {
        self.year <= 9999 && 1 <= self.month <= 12 && 1 <= self.day <= 31 && self.hour < 24
            && self.minute < 60 && self.second < 60
    }
}

/// `YYYY-MM-DD` for `t`.
pub open spec fn ymd_spec(t: UtcTime) -> Seq<u8> {
    pad4_spec(t.year as nat) + seq![45u8] + pad2_spec(t.month as nat) + seq![45u8] + pad2_spec(
        t.day as nat,
    )
}

/// `HH:MM:SS` for `t`.
pub open spec fn hms_spec(t: UtcTime) -> Seq<u8> {
    pad2_spec(t.hour as nat) + seq![58u8] + pad2_spec(t.minute as nat) + seq![58u8] + pad2_spec(
        t.second as nat,
    )
}

/// `YYYY-MM-DD HH:MM:SS` for `t`.
pub open spec fn ymd_hms_spec(t: UtcTime) -> Seq<u8> {
    ymd_spec(t) + seq![32u8] + hms_spec(t)
}

/// `YYYYMMDD_HHMMSS` for `t`, the form file names carry.
pub open spec fn compact_spec(t: UtcTime) -> Seq<u8> {
    pad4_spec(t.year as nat) + pad2_spec(t.month as nat) + pad2_spec(t.day as nat) + seq![95u8]
        + pad2_spec(t.hour as nat) + pad2_spec(t.minute as nat) + pad2_spec(t.second as nat)
}

/// Appends `YYYY-MM-DD` to `out`.
pub fn push_ymd(out: &mut Vec<u8>, t: &UtcTime)
    requires
        t.wf(),
    ensures
        final(out)@ == old(out)@ + ymd_spec(*t),
{
    push_pad4(out, t.year);
    out.push(45);
    push_pad2(out, t.month);
    out.push(45);
    push_pad2(out, t.day);
    proof {
        assert(final(out)@ =~= old(out)@ + ymd_spec(*t));
    }
}

/// Appends `YYYY-MM-DD HH:MM:SS` to `out`.
pub fn push_ymd_hms(out: &mut Vec<u8>, t: &UtcTime)
    requires
        t.wf(),
    ensures
        final(out)@ == old(out)@ + ymd_hms_spec(*t),
{
    push_ymd(out, t);
    out.push(32);
    push_pad2(out, t.hour);
    out.push(58);
    push_pad2(out, t.minute);
    out.push(58);
    push_pad2(out, t.second);
    proof {
        assert(final(out)@ =~= old(out)@ + ymd_hms_spec(*t));
    }
}

/// Appends `YYYYMMDD_HHMMSS` to `out`.
pub fn push_compact(out: &mut Vec<u8>, t: &UtcTime)
    requires
        t.wf(),
    ensures
        final(out)@ == old(out)@ + compact_spec(*t),
{
    push_pad4(out, t.year);
    push_pad2(out, t.month);
    push_pad2(out, t.day);
    out.push(95);
    push_pad2(out, t.hour);
    push_pad2(out, t.minute);
    push_pad2(out, t.second);
    proof {
        assert(final(out)@ =~= old(out)@ + compact_spec(*t));
    }
}

/// What the calendar library answers when asked to read `s` as an RFC 3339
/// timestamp and normalize it to UTC fields (year, month, day, hour, minute,
/// second). The answer depends on the bytes alone.
pub uninterp spec fn rfc3339_utc_of(s: Seq<u8>) -> Option<(i32, u32, u32, u32, u32, u32)>;

/// Relies on chrono's `DateTime::parse_from_rfc3339` followed by
/// `with_timezone(&Utc)`: reads an RFC 3339 timestamp and reports its UTC
/// calendar fields. The field ranges are the ones chrono documents for
/// `Datelike::month`/`day` and `Timelike::hour`/`minute`/`second`.
#[verifier::external_body]
pub(crate) fn parse_rfc3339_utc(s: &[u8]) -> (r: Option<(i32, u32, u32, u32, u32, u32)>)
    ensures
        r == rfc3339_utc_of(s@),
        r matches Some(p) ==> 1 <= p.1 <= 12 && 1 <= p.2 <= 31 && p.3 < 24 && p.4 < 60 && p.5
            < 60,
{
    match core::str::from_utf8(s) {
        Ok(text) => match chrono::DateTime::parse_from_rfc3339(text) {
            Ok(dt) => {
                let u = dt.with_timezone(&chrono::Utc);
                Some((u.year(), u.month(), u.day(), u.hour(), u.minute(), u.second()))
            },
            Err(_) => None,
        },
        Err(_) => None,
    }
}

/// Relies on chrono's `Utc::now`: reads the clock. Nothing is assumed of the
/// moment beyond the calendar-field ranges chrono documents; two calls may
/// differ.
#[verifier::external_body]
pub(crate) fn now_parts() -> (r: (i32, u32, u32, u32, u32, u32))
    ensures
        1 <= r.1 <= 12 && 1 <= r.2 <= 31 && r.3 < 24 && r.4 < 60 && r.5 < 60,
{
    let u = chrono::Utc::now();
    (u.year(), u.month(), u.day(), u.hour(), u.minute(), u.second())
}

/// The renderable timestamp the raw fields `p` describe, if they are in
/// range; a year outside `0..=9999` has no fixed-width rendering and is
/// treated as out of range.
pub open spec fn time_from_parts_spec(p: (i32, u32, u32, u32, u32, u32)) -> Option<UtcTime> {
    if 0 <= p.0 <= 9999 && 1 <= p.1 <= 12 && 1 <= p.2 <= 31 && p.3 < 24 && p.4 < 60 && p.5
        < 60 {
        Some(
            UtcTime {
                year: p.0 as u16,
                month: p.1 as u8,
                day: p.2 as u8,
                hour: p.3 as u8,
                minute: p.4 as u8,
                second: p.5 as u8,
            },
        )
    } else {
        None
    }
}

/// Builds a renderable timestamp from raw calendar fields.
pub fn time_from_parts(p: (i32, u32, u32, u32, u32, u32)) -> (r: Option<UtcTime>)
    ensures
        r == time_from_parts_spec(p),
        r matches Some(t) ==> t.wf(),
{
    if 0 <= p.0 && p.0 <= 9999 && 1 <= p.1 && p.1 <= 12 && 1 <= p.2 && p.2 <= 31 && p.3 < 24
        && p.4 < 60 && p.5 < 60 {
        Some(
            UtcTime {
                year: p.0 as u16,
                month: p.1 as u8,
                day: p.2 as u8,
                hour: p.3 as u8,
                minute: p.4 as u8,
                second: p.5 as u8,
            },
        )
    } else {
        None
    }
}

/// The timestamp a history line's date field resolves to: its RFC 3339
/// reading where one exists and is renderable, else the fallback. The
/// fallback stands in for "now" — unparseable dates are tolerated, not fatal.
pub open spec fn timestamp_spec(s: Seq<u8>, fallback: UtcTime) -> UtcTime {
    match rfc3339_utc_of(s) {
        Some(p) => match time_from_parts_spec(p) {
            Some(t) => t,
            None => fallback,
        },
        None => fallback,
    }
}

/// Reads a date field, falling back to `fallback` when it does not parse.
pub fn parse_timestamp(s: &[u8], fallback: UtcTime) -> (t: UtcTime)
    requires
        fallback.wf(),
    ensures
        t == timestamp_spec(s@, fallback),
        t.wf(),
{
    match parse_rfc3339_utc(s) {
        Some(p) => match time_from_parts(p) {
            Some(t) => t,
            None => fallback,
        },
        None => fallback,
    }
}

/// The moment of the call as a renderable UTC timestamp.
pub fn now_time() -> (t: UtcTime)
    ensures
        t.wf(),
{
    let p = now_parts();
    match time_from_parts(p) {
        Some(t) => t,
        None => UtcTime { year: 1970, month: 1, day: 1, hour: 0, minute: 0, second: 0 },
    }
}

} // verus!
