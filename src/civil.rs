//! UTC calendar times at second resolution and their text forms.

use crate::error::MetaError;
use crate::text::{four_digits, push_char, push_four_digits, push_two_digits, two_digits};
use chrono::{Datelike, Timelike};
use vstd::prelude::*;

verus! {

/// Seconds from 0000-01-01T00:00:00 to the Unix epoch.
pub const EARLIEST_SECONDS: i64 = -62167219200;

/// Seconds from the Unix epoch to 9999-12-31T23:59:59.
pub const LATEST_SECONDS: i64 = 253402300799;

pub open spec fn is_leap_year(y: int) -> bool {
    (y % 4 == 0 && y % 100 != 0) || y % 400 == 0
}

pub open spec fn days_in_month(y: int, m: int) -> int {
    if m == 2 {
        if is_leap_year(y) {
            29
        } else {
            28
        }
    } else if m == 4 || m == 6 || m == 9 || m == 11 {
        30
    } else {
        31
    }
}

/// Days from 1970-01-01 to the proleptic Gregorian date `y-m-d`.
pub open spec fn days_from_civil(y: int, m: int, d: int) -> int {
    let yy = if m <= 2 {
        y - 1
    } else {
        y
    };
    let era = yy / 400;
    let yoe = yy - era * 400;
    let mp = if m > 2 {
        m - 3
    } else {
        m + 9
    };
    let doy = (153 * mp + 2) / 5 + d - 1;
    let doe = yoe * 365 + yoe / 4 - yoe / 100 + doy;
    era * 146097 + doe - 719468
}

/// Seconds since the Unix epoch of the given UTC calendar time.
pub open spec fn seconds_of(y: int, mo: int, d: int, h: int, mi: int, s: int) -> int {
    days_from_civil(y, mo, d) * 86400 + h * 3600 + mi * 60 + s
}

/// A UTC instant at second resolution, as calendar fields.
#[derive(Clone, Copy, Debug, PartialEq, Eq, Structural)]
pub struct CivilTime {
    pub year: u16,
    pub month: u8,
    pub day: u8,
    pub hour: u8,
    pub minute: u8,
    pub second: u8,
}

impl CivilTime {
    /// Fields name a real date and time of a four-digit year.
    pub open spec fn wf(&self) -> bool {
        &&& self.year <= 9999
        &&& 1 <= self.month <= 12
        &&& 1 <= self.day <= days_in_month(self.year as int, self.month as int)
        &&& self.hour < 24
        &&& self.minute < 60
        &&& self.second < 60
    }

    /// Seconds since the Unix epoch.
    pub open spec fn epoch_seconds(&self) -> int {
        seconds_of(
            self.year as int,
            self.month as int,
            self.day as int,
            self.hour as int,
            self.minute as int,
            self.second as int,
        )
    }

    /// `YYYY:MM:DD HH:MM:SS`, the metadata block's date format.
    pub open spec fn exif_text(&self) -> Seq<char> {
        four_digits(self.year as int) + seq![':'] + two_digits(self.month as int) + seq![':']
            + two_digits(self.day as int) + seq![' '] + two_digits(self.hour as int) + seq![':']
            + two_digits(self.minute as int) + seq![':'] + two_digits(self.second as int)
    }

    /// The hour on a twelve-hour clock, 1 to 12.
    pub open spec fn hour12(&self) -> int {
        if self.hour % 12 == 0 {
            12
        } else {
            (self.hour % 12) as int
        }
    }

    /// `YYYY-MM-DD hh:MM:SS AM` (or `PM`), as shown beside a comment.
    pub open spec fn display_text(&self) -> Seq<char> {
        four_digits(self.year as int) + seq!['-'] + two_digits(self.month as int) + seq!['-']
            + two_digits(self.day as int) + seq![' '] + two_digits(self.hour12()) + seq![':']
            + two_digits(self.minute as int) + seq![':'] + two_digits(self.second as int) + (
        if self.hour < 12 {
            seq![' ', 'A', 'M']
        } else {
            seq![' ', 'P', 'M']
        })
    }

    /// The calendar time of `secs` seconds after the Unix epoch.
    pub fn from_epoch_seconds(secs: i64) -> (r: Result<CivilTime, MetaError>)
        ensures
            r matches Ok(t) ==> t.wf() && t.epoch_seconds() == secs,
            r matches Err(e) ==> e == MetaError::TimestampOutOfRange,
            r is Ok <==> EARLIEST_SECONDS <= secs <= LATEST_SECONDS,
    {
        match utc_fields(secs) {
            None => Err(MetaError::TimestampOutOfRange),
            Some((y, mo, d, h, mi, s)) => {
                if 0 <= y && y <= 9999 {
                    proof {
                        lemma_four_digit_window(y as int, mo as int, d as int, h as int, mi as int, s as int);
                    }
                    Ok(
                        CivilTime {
                            year: y as u16,
                            month: mo as u8,
                            day: d as u8,
                            hour: h as u8,
                            minute: mi as u8,
                            second: s as u8,
                        },
                    )
                } else {
                    proof {
                        lemma_year_window(y as int, mo as int, d as int, h as int, mi as int, s as int);
                    }
                    Err(MetaError::TimestampOutOfRange)
                }
            },
        }
    }

    /// The date in the metadata block's format, `YYYY:MM:DD HH:MM:SS`.
    pub fn exif_string(&self) -> (r: String)
        requires
            self.wf(),
        ensures
            r@ == self.exif_text(),
    {
        let mut s = String::new();
        push_four_digits(&mut s, self.year);
        push_char(&mut s, ':');
        push_two_digits(&mut s, self.month);
        push_char(&mut s, ':');
        push_two_digits(&mut s, self.day);
        push_char(&mut s, ' ');
        push_two_digits(&mut s, self.hour);
        push_char(&mut s, ':');
        push_two_digits(&mut s, self.minute);
        push_char(&mut s, ':');
        push_two_digits(&mut s, self.second);
        assert(s@ =~= self.exif_text());
        s
    }

    /// The date as shown beside a comment, `YYYY-MM-DD hh:MM:SS AM`.
    pub fn display_string(&self) -> (r: String)
        requires
            self.wf(),
        ensures
            r@ == self.display_text(),
    {
        let mut s = String::new();
        push_four_digits(&mut s, self.year);
        push_char(&mut s, '-');
        push_two_digits(&mut s, self.month);
        push_char(&mut s, '-');
        push_two_digits(&mut s, self.day);
        push_char(&mut s, ' ');
        let h12: u8 = if self.hour % 12 == 0 {
            12
        } else {
            self.hour % 12
        };
        push_two_digits(&mut s, h12);
        push_char(&mut s, ':');
        push_two_digits(&mut s, self.minute);
        push_char(&mut s, ':');
        push_two_digits(&mut s, self.second);
        push_char(&mut s, ' ');
        if self.hour < 12 {
            push_char(&mut s, 'A');
        } else {
            push_char(&mut s, 'P');
        }
        push_char(&mut s, 'M');
        assert(s@ =~= self.display_text());
        s
    }
}

/// Valid calendar fields whose year lies outside 0..=9999 denote an instant
/// outside the window of four-digit years.
proof fn lemma_year_window(y: int, mo: int, d: int, h: int, mi: int, s: int)
    requires
        1 <= mo <= 12,
        1 <= d <= 31,
        0 <= h < 24,
        0 <= mi < 60,
        0 <= s < 60,
        y < 0 || y > 9999,
    ensures
        seconds_of(y, mo, d, h, mi, s) < EARLIEST_SECONDS || seconds_of(y, mo, d, h, mi, s)
            > LATEST_SECONDS,
{
    let yy = if mo <= 2 {
        y - 1
    } else {
        y
    };
    let era = yy / 400;
    let yoe = yy - era * 400;
    let mp = if mo > 2 {
        mo - 3
    } else {
        mo + 9
    };
    let doy = (153 * mp + 2) / 5 + d - 1;
    let days = days_from_civil(y, mo, d);
    assert(0 <= yoe < 400);
    assert(0 <= yoe / 100 <= yoe / 4 <= 99);
    assert(0 <= doy <= 367);
    assert(days == era * 146097 + yoe * 365 + yoe / 4 - yoe / 100 + doy - 719468);
    if y > 9999 {
        if yy == 9999 {
            assert(era == 24);
            assert(doy >= 306);
            assert(days >= 2932897);
        } else {
            assert(era >= 25);
            assert(days >= 2932897);
        }
    } else {
        if era == -1 && yoe == 399 {
            assert(mp <= 9);
            assert(doy <= 305);
            assert(days <= -719529);
        } else if era == -1 {
            assert(yoe <= 398);
            assert(days <= -719529);
        } else {
            assert(era <= -2);
            assert(days <= -719529);
        }
    }
}

/// Valid calendar fields of a year in 0..=9999 denote an instant inside the
/// window of four-digit years.
proof fn lemma_four_digit_window(y: int, mo: int, d: int, h: int, mi: int, s: int)
    requires
        1 <= mo <= 12,
        1 <= d <= 31,
        0 <= h < 24,
        0 <= mi < 60,
        0 <= s < 60,
        0 <= y <= 9999,
    ensures
        EARLIEST_SECONDS <= seconds_of(y, mo, d, h, mi, s) <= LATEST_SECONDS,
{
    let yy = if mo <= 2 {
        y - 1
    } else {
        y
    };
    let era = yy / 400;
    let yoe = yy - era * 400;
    let mp = if mo > 2 {
        mo - 3
    } else {
        mo + 9
    };
    let doy = (153 * mp + 2) / 5 + d - 1;
    let days = days_from_civil(y, mo, d);
    assert(0 <= yoe < 400);
    assert(0 <= yoe / 100 <= yoe / 4 <= 99);
    assert(0 <= doy <= 367);
    assert(days == era * 146097 + yoe * 365 + yoe / 4 - yoe / 100 + doy - 719468);
    if yy < 0 {
        assert(era == -1 && yoe == 399);
        assert(doy >= 306);
        assert(days >= -719528);
    } else {
        assert(era >= 0);
        assert(days >= -719468);
    }
    if yy == 9999 {
        assert(era == 24 && yoe == 399);
        assert(mp <= 9);
        assert(doy <= 305);
        assert(days <= 2932896);
    } else if era == 24 {
        assert(yoe <= 398);
        assert(days <= 2932896);
    } else {
        assert(era <= 23);
        assert(days <= 2932896);
    }
}

/// Relies on chrono's `DateTime::from_timestamp` with zero nanoseconds and the
/// `Datelike` / `Timelike` accessors of its UTC date: year, month, day, hour,
/// minute and second of `secs` seconds after the Unix epoch, proleptic
/// Gregorian; `None` only outside chrono's range of about 262,000 years.
#[verifier::external_body]
fn utc_fields(secs: i64) -> (r: Option<(i32, u32, u32, u32, u32, u32)>)
    ensures
        r matches Some((y, mo, d, h, mi, s)) ==> {
            &&& 1 <= mo <= 12
            &&& 1 <= d <= days_in_month(y as int, mo as int)
            &&& h < 24
            &&& mi < 60
            &&& s < 60
            &&& seconds_of(y as int, mo as int, d as int, h as int, mi as int, s as int) == secs
        },
        EARLIEST_SECONDS <= secs <= LATEST_SECONDS ==> r is Some,
{
    match chrono::DateTime::from_timestamp(secs, 0) {
        Some(t) => Some((t.year(), t.month(), t.day(), t.hour(), t.minute(), t.second())),
        None => None,
    }
}

} // verus!
