//! The `Date` header: the current UTC time, rendered in the fixed
//! `IMF-fixdate` form of RFC 7231 (`Sun, 06 Nov 1994 08:49:37 GMT`).

use vstd::prelude::*;
use crate::ascii::ascii_bytes;
use crate::ascii::dec_bytes;
use crate::ascii::push_dec_u64;
use crate::ascii::push_str_bytes;

verus! {

/// A calendar date and time in UTC, broken into its components.
#[derive(Clone, Copy, Debug, PartialEq, Eq, Structural)]
pub struct UtcTime {
    /// The year, anno domini.
    pub year: i64,
    /// Months since January: 0 to 11.
    pub month: u8,
    /// Day of the month: 1 to 31.
    pub day: u8,
    /// Hours after midnight: 0 to 23.
    pub hour: u8,
    /// Minutes after the hour: 0 to 59.
    pub minute: u8,
    /// Seconds after the minute: 0 to 60 (a leap second).
    pub second: u8,
    /// Days since Sunday: 0 to 6.
    pub weekday: u8,
}

impl UtcTime {
    /// The documented ranges of a broken-down time.
    pub open spec fn wf(&self) -> bool {
        &&& self.month <= 11
        &&& 1 <= self.day <= 31
        &&& self.hour <= 23
        &&& self.minute <= 59
        &&& self.second <= 60
        &&& self.weekday <= 6
    }
}

/// Relies on time::now_utc: the current UTC time as a broken-down
/// `Tm`, whose fields the crate documents as seconds 0..=60, minutes
/// 0..=59, hours 0..=23, day of month 1..=31, month 0..=11, weekday
/// 0..=6, and the year as an offset since 1900. Nothing can be
/// promised of which moment comes back. Returned in field order:
/// second, minute, hour, day, month, year offset, weekday.
#[verifier::external_body]
fn system_now_utc() -> (t: (i32, i32, i32, i32, i32, i32, i32))
    ensures
        0 <= t.0 <= 60,
        0 <= t.1 <= 59,
        0 <= t.2 <= 23,
        1 <= t.3 <= 31,
        0 <= t.4 <= 11,
        0 <= t.6 <= 6,
{
    let tm = time::now_utc();
    (tm.tm_sec, tm.tm_min, tm.tm_hour, tm.tm_mday, tm.tm_mon, tm.tm_year, tm.tm_wday)
}

/// The current UTC time, within the documented field ranges. A clock
/// set outside the years 0 through 9999 is pinned to that range, so
/// the rendered date always fits the fixed four-digit form.
pub fn now_utc() -> (t: UtcTime)
    ensures
        t.wf(),
        0 <= t.year <= 9999,
{
    let (sec, min, hour, mday, mon, year_off, wday) = system_now_utc();
    let year_ad: i64 = year_off as i64 + 1900;
    let year: i64 = if year_ad < 0 {
        0
    } else if year_ad > 9999 {
        9999
    } else {
        year_ad
    };
    UtcTime {
        year,
        month: mon as u8,
        day: mday as u8,
        hour: hour as u8,
        minute: min as u8,
        second: sec as u8,
        weekday: wday as u8,
    }
}

/// The three-letter day names, Sunday first.
pub open spec fn weekday_name(w: u8) -> Seq<char> {
    if w == 0 {
        "Sun"@
    } else if w == 1 {
        "Mon"@
    } else if w == 2 {
        "Tue"@
    } else if w == 3 {
        "Wed"@
    } else if w == 4 {
        "Thu"@
    } else if w == 5 {
        "Fri"@
    } else {
        "Sat"@
    }
}

/// The three-letter month names, January first.
pub open spec fn month_name(m: u8) -> Seq<char> {
    if m == 0 {
        "Jan"@
    } else if m == 1 {
        "Feb"@
    } else if m == 2 {
        "Mar"@
    } else if m == 3 {
        "Apr"@
    } else if m == 4 {
        "May"@
    } else if m == 5 {
        "Jun"@
    } else if m == 6 {
        "Jul"@
    } else if m == 7 {
        "Aug"@
    } else if m == 8 {
        "Sep"@
    } else if m == 9 {
        "Oct"@
    } else if m == 10 {
        "Nov"@
    } else {
        "Dec"@
    }
}

/// A number rendered in decimal, left-padded with zeros to two digits.
pub open spec fn two_digits(n: nat) -> Seq<u8> {
    if n < 10 {
        seq![48u8] + dec_bytes(n)
    } else {
        dec_bytes(n)
    }
}

/// A year rendered in decimal, left-padded with zeros to four digits.
pub open spec fn four_digit_year(y: nat) -> Seq<u8> {
    if y < 10 {
        seq![48u8, 48u8, 48u8] + dec_bytes(y)
    } else if y < 100 {
        seq![48u8, 48u8] + dec_bytes(y)
    } else if y < 1000 {
        seq![48u8] + dec_bytes(y)
    } else {
        dec_bytes(y)
    }
}

/// The `IMF-fixdate` rendering of a time:
/// `day-name, DD mon-name YYYY HH:MM:SS GMT`.
pub open spec fn imf_fixdate_bytes(t: UtcTime) -> Seq<u8> {
    ascii_bytes(weekday_name(t.weekday)) + ascii_bytes(", "@) + two_digits(t.day as nat)
        + ascii_bytes(" "@) + ascii_bytes(month_name(t.month)) + ascii_bytes(" "@)
        + four_digit_year(t.year as nat) + ascii_bytes(" "@) + two_digits(t.hour as nat)
        + ascii_bytes(":"@) + two_digits(t.minute as nat) + ascii_bytes(":"@) + two_digits(
        t.second as nat,
    ) + ascii_bytes(" GMT"@)
}

/// Appends a number as exactly two decimal digits.
fn push_two_digits(out: &mut Vec<u8>, n: u8)
    requires
        n < 100,
    ensures
        final(out)@ == old(out)@ + two_digits(n as nat),
{
    if n < 10 {
        out.push(48);
    }
    push_dec_u64(out, n as u64);
    proof {
        assert(out@ =~= old(out)@ + two_digits(n as nat));
    }
}

/// Appends the day name for a weekday index.
fn push_weekday(out: &mut Vec<u8>, w: u8)
    requires
        w <= 6,
    ensures
        final(out)@ == old(out)@ + ascii_bytes(weekday_name(w)),
{
    if w == 0 {
        proof {
            reveal_strlit("Sun");
        }
        push_str_bytes(out, "Sun");
    } else if w == 1 {
        proof {
            reveal_strlit("Mon");
        }
        push_str_bytes(out, "Mon");
    } else if w == 2 {
        proof {
            reveal_strlit("Tue");
        }
        push_str_bytes(out, "Tue");
    } else if w == 3 {
        proof {
            reveal_strlit("Wed");
        }
        push_str_bytes(out, "Wed");
    } else if w == 4 {
        proof {
            reveal_strlit("Thu");
        }
        push_str_bytes(out, "Thu");
    } else if w == 5 {
        proof {
            reveal_strlit("Fri");
        }
        push_str_bytes(out, "Fri");
    } else {
        proof {
            reveal_strlit("Sat");
        }
        push_str_bytes(out, "Sat");
    }
}

/// Appends the month name for a month index.
fn push_month(out: &mut Vec<u8>, m: u8)
    requires
        m <= 11,
    ensures
        final(out)@ == old(out)@ + ascii_bytes(month_name(m)),
{
    if m == 0 {
        proof {
            reveal_strlit("Jan");
        }
        push_str_bytes(out, "Jan");
    } else if m == 1 {
        proof {
            reveal_strlit("Feb");
        }
        push_str_bytes(out, "Feb");
    } else if m == 2 {
        proof {
            reveal_strlit("Mar");
        }
        push_str_bytes(out, "Mar");
    } else if m == 3 {
        proof {
            reveal_strlit("Apr");
        }
        push_str_bytes(out, "Apr");
    } else if m == 4 {
        proof {
            reveal_strlit("May");
        }
        push_str_bytes(out, "May");
    } else if m == 5 {
        proof {
            reveal_strlit("Jun");
        }
        push_str_bytes(out, "Jun");
    } else if m == 6 {
        proof {
            reveal_strlit("Jul");
        }
        push_str_bytes(out, "Jul");
    } else if m == 7 {
        proof {
            reveal_strlit("Aug");
        }
        push_str_bytes(out, "Aug");
    } else if m == 8 {
        proof {
            reveal_strlit("Sep");
        }
        push_str_bytes(out, "Sep");
    } else if m == 9 {
        proof {
            reveal_strlit("Oct");
        }
        push_str_bytes(out, "Oct");
    } else if m == 10 {
        proof {
            reveal_strlit("Nov");
        }
        push_str_bytes(out, "Nov");
    } else {
        proof {
            reveal_strlit("Dec");
        }
        push_str_bytes(out, "Dec");
    }
}

/// Renders a time in the fixed RFC 7231 form. Years run through 9999;
/// the current era is well inside that.
pub fn format_http_date(t: UtcTime) -> (r: Vec<u8>)
    requires
        t.wf(),
        0 <= t.year <= 9999,
    ensures
        r@ == imf_fixdate_bytes(t),
{
    let mut out: Vec<u8> = Vec::new();
    push_weekday(&mut out, t.weekday);
    proof {
        reveal_strlit(", ");
        reveal_strlit(" ");
        reveal_strlit(":");
        reveal_strlit(" GMT");
    }
    push_str_bytes(&mut out, ", ");
    push_two_digits(&mut out, t.day);
    push_str_bytes(&mut out, " ");
    push_month(&mut out, t.month);
    push_str_bytes(&mut out, " ");
    let y = t.year as u64;
    if y < 10 {
        out.push(48);
        out.push(48);
        out.push(48);
    } else if y < 100 {
        out.push(48);
        out.push(48);
    } else if y < 1000 {
        out.push(48);
    }
    push_dec_u64(&mut out, y);
    proof {
        assert(out@ =~= old_year_prefix(t) + four_digit_year(t.year as nat));
    }
    push_str_bytes(&mut out, " ");
    push_two_digits(&mut out, t.hour);
    push_str_bytes(&mut out, ":");
    push_two_digits(&mut out, t.minute);
    push_str_bytes(&mut out, ":");
    push_two_digits(&mut out, t.second);
    push_str_bytes(&mut out, " GMT");
    proof {
        assert(out@ =~= imf_fixdate_bytes(t));
    }
    out
}

/// The rendered date up to and including the month, as the year
/// formatter finds it.
pub open spec fn old_year_prefix(t: UtcTime) -> Seq<u8> {
    ascii_bytes(weekday_name(t.weekday)) + ascii_bytes(", "@) + two_digits(t.day as nat)
        + ascii_bytes(" "@) + ascii_bytes(month_name(t.month)) + ascii_bytes(" "@)
}

/// Whether a byte string is a syntactically valid `IMF-fixdate`: some
/// in-range time renders to it. Every date the library injects is one.
pub open spec fn is_imf_fixdate(s: Seq<u8>) -> bool {
    exists|t: UtcTime| t.wf() && 0 <= t.year <= 9999 && s == #[trigger] imf_fixdate_bytes(t)
}

/// The date the library injects is always a syntactically valid
/// RFC 7231 date.
pub proof fn lemma_injected_date_valid(t: UtcTime)
    requires
        t.wf(),
        0 <= t.year <= 9999,
    ensures
        is_imf_fixdate(imf_fixdate_bytes(t)),
{
}

} // verus!
