//! The `Date` header.
//!
//! The calendar fields of the current moment come from the `time` crate
//! through one trusted wrapper; everything after that — rendering them per
//! the HTTP date syntax `Day, DD Mon YYYY HH:MM:SS GMT` — is verified.

use vstd::prelude::*;

use crate::common::Header;
use crate::sbytes;

verus! {

/// A moment in UTC, split into calendar fields.
pub struct DateParts {
    pub year: u16,
    /// 1 = January .. 12 = December.
    pub month: u8,
    pub day: u8,
    pub hour: u8,
    pub minute: u8,
    pub second: u8,
    /// Days from Sunday: 0 = Sunday .. 6 = Saturday.
    pub weekday: u8,
}

impl DateParts {
    /// The field ranges a calendar moment satisfies.
    pub open spec fn wf(&self) -> bool {
        &&& 1 <= self.month <= 12
        &&& 1 <= self.day <= 31
        &&& self.hour <= 23
        &&& self.minute <= 59
        &&& self.second <= 59
        &&& self.weekday <= 6
    }
}

/// The current moment in UTC.
///
/// Relies on `time::OffsetDateTime::now_utc` and its component accessors:
/// the crate documents `day` as in `1..=31`, `hour` below 24, `minute`
/// and `second` below 60, `Month` as the twelve months (1-based as `u8`),
/// and `Weekday::number_days_from_sunday` as in `0..=6`.  Nothing is
/// assumed about the clock itself, so nothing further is promised of the
/// value.
#[verifier::external_body]
pub(crate) fn now_utc_parts() -> (r: DateParts)
    ensures
        r.wf(),
{
    let t = time::OffsetDateTime::now_utc();
    DateParts {
        year: t.year() as u16,
        month: u8::from(t.month()),
        day: t.day(),
        hour: t.hour(),
        minute: t.minute(),
        second: t.second(),
        weekday: t.weekday().number_days_from_sunday(),
    }
}

/// The three-letter English name of a weekday (0 = Sunday).
pub open spec fn spec_weekday_name(w: u8) -> &'static str {
    match w {
        0u8 => "Sun",
        1u8 => "Mon",
        2u8 => "Tue",
        3u8 => "Wed",
        4u8 => "Thu",
        5u8 => "Fri",
        _ => "Sat",
    }
}

/// The three-letter English name of a month (1 = January).
pub open spec fn spec_month_name(m: u8) -> &'static str {
    match m {
        1u8 => "Jan",
        2u8 => "Feb",
        3u8 => "Mar",
        4u8 => "Apr",
        5u8 => "May",
        6u8 => "Jun",
        7u8 => "Jul",
        8u8 => "Aug",
        9u8 => "Sep",
        10u8 => "Oct",
        11u8 => "Nov",
        _ => "Dec",
    }
}

/// A number rendered as exactly two decimal digits (modulo 100).
pub open spec fn two_digits(n: u8) -> Seq<u8> {
    seq![(48 + (n / 10) % 10) as u8, (48 + n % 10) as u8]
}

/// A year rendered as exactly four decimal digits (modulo 10000).
pub open spec fn four_digits(n: u16) -> Seq<u8> {
    seq![
        (48 + (n / 1000) % 10) as u8,
        (48 + (n / 100) % 10) as u8,
        (48 + (n / 10) % 10) as u8,
        (48 + n % 10) as u8,
    ]
}

/// The HTTP date syntax: `Day, DD Mon YYYY HH:MM:SS GMT`.
pub open spec fn spec_http_date(d: DateParts) -> Seq<u8> {
    sbytes(spec_weekday_name(d.weekday)@) + sbytes(", "@) + two_digits(d.day) + sbytes(" "@)
        + sbytes(spec_month_name(d.month)@) + sbytes(" "@) + four_digits(d.year) + sbytes(" "@)
        + two_digits(d.hour) + sbytes(":"@) + two_digits(d.minute) + sbytes(":"@) + two_digits(
        d.second,
    ) + sbytes(" GMT"@)
}

/// Appends exactly two decimal digits of `n`.
fn push_two_digits(out: &mut Vec<u8>, n: u8)
    ensures
        final(out)@ == old(out)@ + two_digits(n),
{
    out.push(48 + (n / 10) % 10);
    out.push(48 + n % 10);
    proof {
        assert(final(out)@ =~= old(out)@ + two_digits(n));
    }
}

/// Renders a calendar moment per the HTTP date syntax.
pub fn format_http_date(d: &DateParts) -> (r: Vec<u8>)
    ensures
        r@ == spec_http_date(*d),
{
    proof {
        reveal_strlit("Sun");
        reveal_strlit("Mon");
        reveal_strlit("Tue");
        reveal_strlit("Wed");
        reveal_strlit("Thu");
        reveal_strlit("Fri");
        reveal_strlit("Sat");
        reveal_strlit("Jan");
        reveal_strlit("Feb");
        reveal_strlit("Mar");
        reveal_strlit("Apr");
        reveal_strlit("May");
        reveal_strlit("Jun");
        reveal_strlit("Jul");
        reveal_strlit("Aug");
        reveal_strlit("Sep");
        reveal_strlit("Oct");
        reveal_strlit("Nov");
        reveal_strlit("Dec");
        reveal_strlit(", ");
        reveal_strlit(" ");
        reveal_strlit(":");
        reveal_strlit(" GMT");
    }
    let wd: &str = match d.weekday {
        0u8 => "Sun",
        1u8 => "Mon",
        2u8 => "Tue",
        3u8 => "Wed",
        4u8 => "Thu",
        5u8 => "Fri",
        _ => "Sat",
    };
    let mon: &str = match d.month {
        1u8 => "Jan",
        2u8 => "Feb",
        3u8 => "Mar",
        4u8 => "Apr",
        5u8 => "May",
        6u8 => "Jun",
        7u8 => "Jul",
        8u8 => "Aug",
        9u8 => "Sep",
        10u8 => "Oct",
        11u8 => "Nov",
        _ => "Dec",
    };
    proof {
        assert(vstd::string::is_ascii(wd));
        assert(vstd::string::is_ascii(mon));
        assert(vstd::string::is_ascii(", "));
        assert(vstd::string::is_ascii(" "));
        assert(vstd::string::is_ascii(":"));
        assert(vstd::string::is_ascii(" GMT"));
    }
    let mut out: Vec<u8> = crate::ascii_bytes(wd);
    append_vec(&mut out, crate::ascii_bytes(", "));
    push_two_digits(&mut out, d.day);
    append_vec(&mut out, crate::ascii_bytes(" "));
    append_vec(&mut out, crate::ascii_bytes(mon));
    append_vec(&mut out, crate::ascii_bytes(" "));
    out.push(48 + ((d.year / 1000) % 10) as u8);
    out.push(48 + ((d.year / 100) % 10) as u8);
    out.push(48 + ((d.year / 10) % 10) as u8);
    out.push(48 + (d.year % 10) as u8);
    append_vec(&mut out, crate::ascii_bytes(" "));
    push_two_digits(&mut out, d.hour);
    append_vec(&mut out, crate::ascii_bytes(":"));
    push_two_digits(&mut out, d.minute);
    append_vec(&mut out, crate::ascii_bytes(":"));
    push_two_digits(&mut out, d.second);
    append_vec(&mut out, crate::ascii_bytes(" GMT"));
    proof {
        assert(out@ =~= spec_http_date(*d));
    }
    out
}

/// Appends `tail` to `out`.
pub fn append_vec(out: &mut Vec<u8>, tail: Vec<u8>)
    ensures
        final(out)@ == old(out)@ + tail@,
{
    let mut i: usize = 0;
    while i < tail.len()
        invariant
            i <= tail@.len(),
            out@ == old(out)@ + tail@.take(i as int),
        decreases tail@.len() - i,
    {
        out.push(tail[i]);
        proof {
            assert(old(out)@ + tail@.take(i + 1) =~= (old(out)@ + tail@.take(i as int)).push(
                tail@[i as int],
            ));
        }
        i += 1;
    }
    proof {
        assert(tail@.take(tail@.len() as int) =~= tail@);
    }
}

/// Builds the `Date` header for the current moment, per the HTTP date
/// syntax.
pub fn build_date_header() -> (r: Header)
    ensures
        r@.field == sbytes("Date"@),
        exists|d: DateParts| #[trigger] d.wf() && r@.value == spec_http_date(d),
{
    proof {
        reveal_strlit("Date");
        assert(vstd::string::is_ascii("Date"));
    }
    let parts = now_utc_parts();
    let value = format_http_date(&parts);
    let r = Header { field: crate::ascii_bytes("Date"), value };
    proof {
        assert(parts.wf() && r@.value == spec_http_date(parts));
    }
    r
}

} // verus!
