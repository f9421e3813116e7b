//! Points in time as the task file writes them: a local date and time to the
//! second, with the offset from UTC.
use crate::text::{digit_char, digit_of};
use chrono::{Datelike, Timelike};
use vstd::prelude::*;

verus! {

/// A local calendar date and time of day, to the second, with the offset of
/// that local time from UTC in seconds (east of Greenwich is positive).
#[derive(Clone, Copy, Debug, PartialEq, Eq, Structural)]
pub struct Timestamp {
    pub year: i32,
    pub month: u32,
    pub day: u32,
    pub hour: u32,
    pub minute: u32,
    pub second: u32,
    pub offset_seconds: i32,
}

pub open spec fn is_leap_year(y: int) -> bool {
    (y % 4 == 0 && y % 100 != 0) || y % 400 == 0
}

pub open spec fn days_in_month(y: int, m: int) -> int {
    if m == 2 {
        if is_leap_year(y) {
            29
        } else {
            28
        }
    } else if m == 4 || m == 6 || m == 9 || m == 11 {
        30
    } else {
        31
    }
}

impl Timestamp {
    /// The fields name an existing calendar day and time of day, the year has
    /// four digits, and the offset is a whole number of minutes under a day.
    pub open spec fn wf(&self) -> bool {
        &&& 0 <= self.year <= 9999
        &&& 1 <= self.month <= 12
        &&& 1 <= self.day <= days_in_month(self.year as int, self.month as int)
        &&& self.hour < 24
        &&& self.minute < 60
        &&& self.second < 60
        &&& self.offset_seconds % 60 == 0
        &&& -86400 < self.offset_seconds < 86400
    }

    /// What a clock can read: a real calendar day and time of day, any year,
    /// an offset under a day.
    pub open spec fn is_clock_reading(&self) -> bool {
        &&& 1 <= self.month <= 12
        &&& 1 <= self.day <= days_in_month(self.year as int, self.month as int)
        &&& self.hour < 24
        &&& self.minute < 60
        &&& self.second < 60
        &&& -86400 < self.offset_seconds < 86400
    }

    pub open spec fn abs_offset(&self) -> nat {
        if self.offset_seconds < 0 {
            (-self.offset_seconds) as nat
        } else {
            self.offset_seconds as nat
        }
    }

    /// The RFC 3339 text `YYYY-MM-DDTHH:MM:SS+HH:MM` (the offset's sign is
    /// `-` west of UTC, `+` otherwise).
    pub open spec fn render(&self) -> Seq<char> {
        let y = self.year as nat;
        let mo = self.month as nat;
        let d = self.day as nat;
        let h = self.hour as nat;
        let mi = self.minute as nat;
        let s = self.second as nat;
        let oh = self.abs_offset() / 3600;
        let om = (self.abs_offset() % 3600) / 60;
        seq![
            digit_char(y / 1000), digit_char((y / 100) % 10), digit_char((y / 10) % 10),
            digit_char(y % 10), '-', digit_char(mo / 10), digit_char(mo % 10), '-',
            digit_char(d / 10), digit_char(d % 10), 'T', digit_char(h / 10), digit_char(h % 10),
            ':', digit_char(mi / 10), digit_char(mi % 10), ':', digit_char(s / 10),
            digit_char(s % 10), if self.offset_seconds < 0 { '-' } else { '+' },
            digit_char(oh / 10), digit_char(oh % 10), ':', digit_char(om / 10),
            digit_char(om % 10),
        ]
    }

    /// Whether the fields name a time that the text form can hold.
    pub fn is_valid(&self) -> (r: bool)
        ensures
            r == self.wf(),
    {
        if self.year < 0 || self.year > 9999 || self.month < 1 || self.month > 12 {
            return false;
        }
        let y = self.year;
        let leap = (y % 4 == 0 && y % 100 != 0) || y % 400 == 0;
        let m = self.month;
        let days: u32 = if m == 2 {
            if leap {
                29
            } else {
                28
            }
        } else if m == 4 || m == 6 || m == 9 || m == 11 {
            30
        } else {
            31
        };
        1 <= self.day && self.day <= days && self.hour < 24 && self.minute < 60 && self.second < 60
            && self.offset_seconds % 60 == 0 && -86400 < self.offset_seconds
            && self.offset_seconds < 86400
    }

    /// Appends the RFC 3339 text of this time to `out`.
    pub fn push_rfc3339(&self, out: &mut Vec<char>)
        requires
            self.wf(),
        ensures
            final(out)@ == old(out)@ + self.render(),
    {
        let ghost o = out@;
        let y: u32 = self.year as u32;
        out.push(digit_of(y / 1000));
        out.push(digit_of((y / 100) % 10));
        out.push(digit_of((y / 10) % 10));
        out.push(digit_of(y % 10));
        out.push('-');
        push_pad2(out, self.month);
        out.push('-');
        push_pad2(out, self.day);
        out.push('T');
        push_pad2(out, self.hour);
        out.push(':');
        push_pad2(out, self.minute);
        out.push(':');
        push_pad2(out, self.second);
        let ghost mid = out@;
        assert(mid.len() == o.len() + 19);
        let a: u32 = if self.offset_seconds < 0 {
            out.push('-');
            (-self.offset_seconds) as u32
        } else {
            out.push('+');
            self.offset_seconds as u32
        };
        assert(a == self.abs_offset());
        push_pad2(out, a / 3600);
        out.push(':');
        push_pad2(out, (a % 3600) / 60);
        let ghost r = self.render();
        assert forall|k: int| 0 <= k < 19 implies mid[o.len() + k] == r[k] by {}
        assert forall|k: int| 19 <= k < 25 implies out@[o.len() + k] == r[k] by {}
        assert(out@ =~= o + r);
    }

    /// The offset cut to whole minutes, toward zero.
    pub open spec fn whole_minutes(o: int) -> int {
        if o >= 0 {
            o - o % 60
        } else {
            -((-o) - (-o) % 60)
        }
    }

    /// The time that a clock reading stands for in the text form: `None` for
    /// a year that does not have four digits; an offset with leftover seconds
    /// is cut to whole minutes, as the text form writes it.
    pub open spec fn text_time_of_clock(c: Timestamp) -> Option<Timestamp> {
        if 0 <= c.year <= 9999 {
            Some(
                Timestamp { offset_seconds: Self::whole_minutes(c.offset_seconds as int) as i32, ..c },
            )
        } else {
            None
        }
    }

    /// The time that a clock reading stands for in the text form.
    pub fn from_clock_reading(c: Timestamp) -> (r: Option<Timestamp>)
        requires
            c.is_clock_reading(),
        ensures
            r == Self::text_time_of_clock(c),
            r matches Some(t) ==> t.wf(),
    {
        if c.year < 0 || c.year > 9999 {
            None
        } else {
            let off: i32 = c.offset_seconds - c.offset_seconds % 60;
            Some(Timestamp { offset_seconds: off, ..c })
        }
    }

    /// The current local time, to the second, as `from_clock_reading` takes
    /// it: `None` only where the clock reads a year outside 0 to 9999.
    pub fn now() -> (r: Option<Timestamp>)
        ensures
            exists|c: Timestamp| c.is_clock_reading() && r == #[trigger] Self::text_time_of_clock(c),
            r matches Some(t) ==> t.wf(),
    {
        let c = clock_now();
        let r = Self::from_clock_reading(c);
        assert(c.is_clock_reading() && r == Self::text_time_of_clock(c));
        r
    }

    /// Reads an RFC 3339 text.
    pub fn parse(s: &str) -> (r: Option<Timestamp>)
        ensures
            r == rfc3339_of(s@),
            r matches Some(t) ==> t.wf(),
            forall|t: Timestamp| t.wf() && s@ == #[trigger] t.render() ==> r == Some(t),
            s@.len() < 19 ==> r is None,
    {
        parse_rfc3339(s)
    }
}

fn push_pad2(out: &mut Vec<char>, n: u32)
    requires
        n < 100,
    ensures
        final(out)@ == old(out)@ + seq![digit_char(n as nat / 10), digit_char(n as nat % 10)],
{
    out.push(digit_of(n / 10));
    out.push(digit_of(n % 10));
    assert(final(out)@ =~= old(out)@ + seq![digit_char(n as nat / 10), digit_char(n as nat % 10)]);
}

/// What chrono reads from an RFC 3339 text, as a `Timestamp`.
pub uninterp spec fn rfc3339_of(s: Seq<char>) -> Option<Timestamp>;

/// Relies on chrono's `DateTime::parse_from_rfc3339` (read back through the
/// `Datelike` and `Timelike` accessors and `FixedOffset::local_minus_utc`):
/// it accepts a four-digit year, a valid calendar date, hours to 23, minutes
/// and seconds to 59 (a leap second reads as 59), and an offset of whole
/// minutes up to 23:59, and it reads the text it would write back exactly. A
/// text under 19 bytes is refused, and the first 19 bytes of an accepted one
/// are ASCII, so a text of fewer than 19 characters is refused.
#[verifier::external_body]
fn parse_rfc3339(s: &str) -> (r: Option<Timestamp>)
    ensures
        r == rfc3339_of(s@),
        r matches Some(t) ==> t.wf(),
        forall|t: Timestamp| t.wf() && s@ == #[trigger] t.render() ==> r == Some(t),
        s@.len() < 19 ==> r is None,
{
    match chrono::DateTime::parse_from_rfc3339(s) {
        Ok(dt) => Some(
            Timestamp {
                year: dt.year(),
                month: dt.month(),
                day: dt.day(),
                hour: dt.hour(),
                minute: dt.minute(),
                second: dt.second(),
                offset_seconds: dt.offset().local_minus_utc(),
            },
        ),
        Err(_) => None,
    }
}

/// Relies on chrono's `Local::now`, read through the `Datelike` and
/// `Timelike` accessors and `FixedOffset::local_minus_utc`: a valid calendar
/// day and time of day (a leap second reads as 59), an offset under a day.
#[verifier::external_body]
fn clock_now() -> (r: Timestamp)
    ensures
        r.is_clock_reading(),
{
    let dt = chrono::Local::now();
    Timestamp {
        year: dt.year(),
        month: dt.month(),
        day: dt.day(),
        hour: dt.hour(),
        minute: dt.minute(),
        second: dt.second(),
        offset_seconds: dt.offset().local_minus_utc(),
    }
}

} // verus!
