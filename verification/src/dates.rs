//! Moments as seconds since 1970 and as dates of the Gregorian calendar.

use vstd::prelude::*;
use vstd::string::*;
use crate::text::{self, chars_of, decimal_text, parse_i64, parse_u32, parse_u64, slice_text};

verus! {

// ------------------------------------------------------------------ the calendar

pub open spec fn is_leap(y: int) -> bool {
    y % 4 == 0 && (y % 100 != 0 || y % 400 == 0)
}

/// The days of the years before `y`, counted from the year 1.
pub open spec fn days_before_year(y: int) -> int {
    365 * (y - 1) + (y - 1) / 4 - (y - 1) / 100 + (y - 1) / 400
}

/// The days of a common year before a month.
pub open spec fn days_before_month(m: int) -> int {
    if m == 1 {
        0
    } else if m == 2 {
        31
    } else if m == 3 {
        59
    } else if m == 4 {
        90
    } else if m == 5 {
        120
    } else if m == 6 {
        151
    } else if m == 7 {
        181
    } else if m == 8 {
        212
    } else if m == 9 {
        243
    } else if m == 10 {
        273
    } else if m == 11 {
        304
    } else {
        334
    }
}

pub open spec fn days_in_month(y: int, m: int) -> int {
    if m == 2 {
        if is_leap(y) {
            29
        } else {
            28
        }
    } else if m == 4 || m == 6 || m == 9 || m == 11 {
        30
    } else {
        31
    }
}

/// The number of a day, the first of January 1970 being 0.
pub open spec fn day_number(y: int, m: int, d: int) -> int {
    days_before_year(y) + days_before_month(m) + (if m > 2 && is_leap(y) {
        1int
    } else {
        0
    }) + d - 1 - 719_162
}

/// A date and a time of day.
#[derive(Debug, Clone, Copy, PartialEq, Eq, Structural)]
pub struct Civil {
    pub year: i64,
    pub month: u32,
    pub day: u32,
    pub hour: u32,
    pub minute: u32,
    pub second: u32,
}

impl Civil {
    /// Whether the calendar and the clock have such a moment.
    pub open spec fn exists_in_calendar(self) -> bool {
        &&& 1 <= self.month <= 12
        &&& 1 <= self.day <= days_in_month(self.year as int, self.month as int)
        &&& self.hour < 24
        &&& self.minute < 60
        &&& self.second < 60
    }

    /// The seconds since 1970.
    pub open spec fn seconds(self) -> int {
        day_number(self.year as int, self.month as int, self.day as int) * 86_400 + self.hour * 3600
            + self.minute * 60 + self.second
    }
}

// ------------------------------------------------------------ years from March on

/// The days before the first of March of `y`, counted from that of the year 0.
spec fn march_days(y: int) -> int {
    365 * y + y / 4 - y / 100 + y / 400
}

proof fn lemma_march_days(y: int)
    ensures
        march_days(y) == days_before_year(y) + 365 + (if is_leap(y) {
            1int
        } else {
            0
        }),
        march_days(y - 1) == days_before_year(y),
{
    let x = y - 1;
    assert(y / 4 == x / 4 + (if y % 4 == 0 { 1int } else { 0 }));
    assert(y / 100 == x / 100 + (if y % 100 == 0 { 1int } else { 0 }));
    assert(y / 400 == x / 400 + (if y % 400 == 0 { 1int } else { 0 }));
    assert(y % 400 == 0 ==> y % 100 == 0);
    assert(y % 100 == 0 ==> y % 4 == 0);
}

/// The year, counted from March on, that a date falls in.
spec fn march_year(y: int, m: int) -> int {
    if m <= 2 {
        y - 1
    } else {
        y
    }
}

/// How many months a month comes after March.
spec fn march_month(m: int) -> int {
    if m > 2 {
        m - 3
    } else {
        m + 9
    }
}

proof fn lemma_day_number(y: int, m: int, d: int)
    requires
        1 <= m <= 12,
    ensures
        day_number(y, m, d) == march_days(march_year(y, m)) + (153 * march_month(m) + 2) / 5 + d - 1
            - 719_468,
{
    lemma_march_days(y);
}

/// A span of years within the four hundred after which the calendar repeats.
proof fn lemma_march_era(era: int, yoe: int)
    requires
        0 <= yoe < 400,
    ensures
        march_days(era * 400 + yoe) == era * 146_097 + yoe * 365 + yoe / 4 - yoe / 100,
{
    let y = era * 400 + yoe;
    assert(y / 4 == era * 100 + yoe / 4);
    assert(y / 100 == era * 4 + yoe / 100);
    assert(y / 400 == era);
}

/// The year that a day of the four hundred falls in.
spec fn year_of_era(doe: int) -> int {
    (doe - doe / 1460 + doe / 36_524 - doe / 146_096) / 365
}

proof fn lemma_year_of_era(doe: int)
    requires
        0 <= doe < 146_097,
    ensures
        0 <= year_of_era(doe) < 400,
        year_of_era(doe) * 365 + year_of_era(doe) / 4 - year_of_era(doe) / 100 <= doe,
        doe - (year_of_era(doe) * 365 + year_of_era(doe) / 4 - year_of_era(doe) / 100) <= 365,
        doe - (year_of_era(doe) * 365 + year_of_era(doe) / 4 - year_of_era(doe) / 100) == 365 ==> (
        year_of_era(doe) + 1) % 4 == 0 && ((year_of_era(doe) + 1) % 100 != 0 || year_of_era(doe)
            == 399),
{
    // Centuries, spans of four years, years, days.
    let c = if doe / 36_524 > 3 {
        3
    } else {
        doe / 36_524
    };
    let r = doe - 36_524 * c;
    assert(0 <= c <= 3);
    assert(0 <= r <= 36_524 && (r == 36_524 ==> c == 3));
    let t = r / 1461;
    let q = r % 1461;
    assert(r == 1461 * t + q && 0 <= q < 1461);
    assert(0 <= t <= 24);
    let k = if q / 365 > 3 {
        3
    } else {
        q / 365
    };
    let e = q - 365 * k;
    assert(0 <= k <= 3);
    assert(0 <= e <= 365 && (e == 365 ==> k == 3));
    assert(doe == 36_524 * c + 1461 * t + 365 * k + e);
    let f = (24 * c + t + 365 * k + e) / 1460;
    assert(doe / 1460 == 25 * c + t + f);
    assert(f == 0 || f == 1);
    assert(f == 1 <==> 24 * c + t + 365 * k + e >= 1460);
    assert(f == 1 ==> k == 3 && e >= 1);
    assert(e == 365 ==> f == 1);
    assert(doe / 36_524 == c + (if r == 36_524 { 1int } else { 0 }));
    assert(doe / 146_096 == (if doe == 146_096 { 1int } else { 0 }));
    assert(r == 36_524 <==> doe == 146_096);
    let y = 100 * c + 4 * t + k;
    assert(doe - doe / 1460 + doe / 36_524 - doe / 146_096 == 365 * y + e - f);
    assert(0 <= e - f < 365);
    assert(year_of_era(doe) == y);
    assert(y / 4 == 25 * c + t);
    assert(y / 100 == c);
    assert(y * 365 + y / 4 - y / 100 == doe - e);
    if e == 365 {
        assert(k == 3);
        assert((y + 1) % 4 == 0);
        if (y + 1) % 100 == 0 {
            assert(t == 24);
            assert(c == 3);
        }
    }
}

/// The day of the year counted from March on, as month and day.
proof fn lemma_month_of_year(doy: int)
    requires
        0 <= doy <= 365,
    ensures
        ({
            let mp = (5 * doy + 2) / 153;
            let d = doy - (153 * mp + 2) / 5 + 1;
            let m = if mp < 10 {
                mp + 3
            } else {
                mp - 9
            };
            &&& 0 <= mp <= 11
            &&& 1 <= m <= 12
            &&& march_month(m) == mp
            &&& 1 <= d
            &&& m != 2 ==> d <= days_in_month(1, m)
            &&& m == 2 ==> d <= 29 && (d == 29 ==> doy == 365)
        }),
{
    let mp = (5 * doy + 2) / 153;
    assert(mp == 0 || mp == 1 || mp == 2 || mp == 3 || mp == 4 || mp == 5 || mp == 6 || mp == 7
        || mp == 8 || mp == 9 || mp == 10 || mp == 11);
}

// -------------------------------------------------------------------- functions

/// A date and a time of day as a value.
pub open spec fn civil(t: (i64, u32, u32, u32, u32, u32)) -> Civil {
    Civil { year: t.0, month: t.1, day: t.2, hour: t.3, minute: t.4, second: t.5 }
}

/// The date of a day.
fn date_of_day(day: i64) -> (r: (i64, u32, u32))
    requires
        -200_000_000_000_000 < day < 200_000_000_000_000,
    ensures
        1 <= r.1 <= 12,
        1 <= r.2 <= days_in_month(r.0 as int, r.1 as int),
        day_number(r.0 as int, r.1 as int, r.2 as int) == day,
{
    let z: i64 = day + 719_468;
    let era: i64 = if z >= 0 {
        z / 146_097
    } else {
        -((-(z + 1)) / 146_097) - 1
    };
    proof {
        assert(era == z as int / 146_097);
    }
    let doe: i64 = z - era * 146_097;
    proof {
        assert(0 <= doe < 146_097);
        lemma_year_of_era(doe as int);
    }
    let yoe: i64 = (doe - doe / 1460 + doe / 36_524 - doe / 146_096) / 365;
    proof {
        assert(yoe == year_of_era(doe as int));
    }
    let y0: i64 = yoe + era * 400;
    let doy: i64 = doe - (365 * yoe + yoe / 4 - yoe / 100);
    proof {
        assert(0 <= doy <= 365);
        lemma_month_of_year(doy as int);
        lemma_march_era(era as int, yoe as int);
    }
    let mp: i64 = (5 * doy + 2) / 153;
    let d: i64 = doy - (153 * mp + 2) / 5 + 1;
    let m: i64 = if mp < 10 {
        mp + 3
    } else {
        mp - 9
    };
    let y: i64 = if m <= 2 {
        y0 + 1
    } else {
        y0
    };
    proof {
        lemma_day_number(y as int, m as int, d as int);
        assert(march_year(y as int, m as int) == y0);
        assert(day_number(y as int, m as int, d as int) == day);
        if m == 2 && d == 29 {
            lemma_leap_in_era(era as int, yoe as int);
        }
    }
    (y, m as u32, d as u32)
}

/// A year is a leap year by its place among the four hundred.
proof fn lemma_leap_in_era(era: int, yoe: int)
    requires
        0 <= yoe < 400,
        (yoe + 1) % 4 == 0,
        (yoe + 1) % 100 != 0 || yoe == 399,
    ensures
        is_leap(era * 400 + yoe + 1),
{
    let y = era * 400 + yoe + 1;
    assert(y % 4 == (yoe + 1) % 4);
    assert(y % 100 == (yoe + 1) % 100);
    assert(y % 400 == (yoe + 1) % 400);
}

/// The date and time of day, in UTC, of a moment.
pub fn unix_to_ymd_hms(secs: i64) -> (r: (i64, u32, u32, u32, u32, u32))
    ensures
        civil(r).exists_in_calendar(),
        civil(r).seconds() == secs,
        secs >= 0 ==> r.0 >= 1970,
{
    let day: i64 = if secs >= 0 {
        secs / 86_400
    } else {
        -((-(secs + 1)) / 86_400) - 1
    };
    proof {
        assert(day == secs as int / 86_400);
    }
    let tod: i64 = (secs as i128 - day as i128 * 86_400) as i64;
    proof {
        assert(0 <= tod < 86_400);
    }
    let h: u32 = (tod / 3600) as u32;
    let mi: u32 = ((tod % 3600) / 60) as u32;
    let s: u32 = (tod % 60) as u32;
    proof {
        assert(tod == h * 3600 + mi * 60 + s);
    }
    let (y, m, d) = date_of_day(day);
    proof {
        if secs >= 0 && y < 1970 {
            lemma_years_ascend(y as int, 1969);
            assert(days_before_year(1969) == 718_797);
        }
    }
    (y, m, d, h, mi, s)
}

proof fn lemma_years_ascend(a: int, b: int)
    requires
        a <= b,
    ensures
        days_before_year(a) <= days_before_year(b),
{
    let x = a - 1;
    let y = b - 1;
    assert(365 * x + x / 4 - x / 100 + x / 400 <= 365 * y + y / 4 - y / 100 + y / 400);
}

/// The seconds since 1970 of a date and a time of day; none where the month is
/// not a month, the day is beyond the thirty-first, or the seconds do not fit.
/// Days beyond the end of their month count on into the next.
pub fn ymd_hms_to_unix(y: i64, m: u32, d: u32, h: u32, mi: u32, s: u32) -> (r: Option<i64>)
    ensures
        ({
            let c = Civil { year: y, month: m, day: d, hour: h, minute: mi, second: s };
            let days = day_number(y as int, m as int, d as int) * 86_400;
            match r {
                Some(n) => 1 <= m <= 12 && 1 <= d <= 31 && n == c.seconds(),
                None => !(1 <= m <= 12) || !(1 <= d <= 31) || !(i64::MIN <= days <= i64::MAX) || !(
                i64::MIN <= c.seconds() <= i64::MAX),
            }
        }),
        r is Some ==> i64::MIN <= day_number(y as int, m as int, d as int) * 86_400 <= i64::MAX,
{
    if m < 1 || m > 12 || d < 1 || d > 31 {
        return None;
    }
    let y0: i128 = if m <= 2 {
        y as i128 - 1
    } else {
        y as i128
    };
    let era: i128 = if y0 >= 0 {
        y0 / 400
    } else {
        -((-(y0 + 1)) / 400) - 1
    };
    proof {
        assert(era == y0 as int / 400);
    }
    let yoe: i128 = y0 - era * 400;
    let mp: i128 = if m > 2 {
        m as i128 - 3
    } else {
        m as i128 + 9
    };
    let doy: i128 = (153 * mp + 2) / 5 + d as i128 - 1;
    let doe: i128 = yoe * 365 + yoe / 4 - yoe / 100 + doy;
    let days: i128 = era * 146_097 + doe - 719_468;
    proof {
        assert(0 <= yoe < 400);
        lemma_march_era(era as int, yoe as int);
        lemma_day_number(y as int, m as int, d as int);
        assert(march_year(y as int, m as int) == y0);
        assert(days == day_number(y as int, m as int, d as int));
    }
    let base: i128 = days * 86_400;
    let total: i128 = base + h as i128 * 3600 + mi as i128 * 60 + s as i128;
    if base < i64::MIN as i128 || base > i64::MAX as i128 || total < i64::MIN as i128 || total
        > i64::MAX as i128 {
        return None;
    }
    Some(total as i64)
}

// ---------------------------------------------------------------------- writing

pub open spec fn zeros(n: nat) -> Seq<char> {
    Seq::new(n, |i: int| '0')
}

/// A number with zeros in front, to at least `width` digits.
pub open spec fn padded(n: nat, width: nat) -> Seq<char> {
    let d = text::decimal(n);
    if d.len() < width {
        zeros((width - d.len()) as nat) + d
    } else {
        d
    }
}

/// A moment, in milliseconds since 1970, as a date and time in UTC to the
/// second.
pub open spec fn iso_text(c: Civil) -> Seq<char> {
    padded(c.year as nat, 4) + "-"@ + padded(c.month as nat, 2) + "-"@ + padded(c.day as nat, 2)
        + "T"@ + padded(c.hour as nat, 2) + ":"@ + padded(c.minute as nat, 2) + ":"@ + padded(
        c.second as nat,
        2,
    ) + ".000Z"@
}

fn push_padded(out: &mut String, n: u64, width: usize)
    ensures
        final(out)@ == old(out)@ + padded(n as nat, width as nat),
{
    let d = decimal_text(n);
    let len: usize = chars_of(d.as_str()).len();
    let ghost before = out@;
    let mut i: usize = len;
    proof {
        assert(before + zeros(0) =~= before);
    }
    while i < width
        invariant
            len <= i,
            i <= len || i <= width,
            out@ == before + zeros((i - len) as nat),
        decreases width - i,
    {
        out.push('0');
        proof {
            assert(zeros((i + 1 - len) as nat) =~= zeros((i - len) as nat).push('0'));
            assert(before + zeros((i + 1 - len) as nat) =~= (before + zeros((i - len) as nat)).push(
                '0',
            ));
        }
        i += 1;
    }
    out.append(d.as_str());
    proof {
        if len < width {
            assert(out@ =~= before + (zeros((width - len) as nat) + d@));
        } else {
            assert(out@ =~= before + d@);
        }
    }
}

/// Whether a text is the date and time in UTC of a moment, in milliseconds since
/// 1970.
pub open spec fn writes_moment(t: Seq<char>, ms: u64) -> bool {
    exists|c: Civil| #[trigger]
        c.exists_in_calendar() && c.seconds() == ms / 1000 && t == iso_text(c)
}

/// Writes a moment, in milliseconds since 1970, as a date and time in UTC.
pub fn unix_ms_to_iso8601(ms: u64) -> (r: String)
    ensures
        writes_moment(r@, ms),
{
    let secs: i64 = (ms / 1000) as i64;
    let t = unix_to_ymd_hms(secs);
    let mut out: String = String::new();
    push_padded(&mut out, t.0 as u64, 4);
    out.append("-");
    push_padded(&mut out, t.1 as u64, 2);
    out.append("-");
    push_padded(&mut out, t.2 as u64, 2);
    out.append("T");
    push_padded(&mut out, t.3 as u64, 2);
    out.append(":");
    push_padded(&mut out, t.4 as u64, 2);
    out.append(":");
    push_padded(&mut out, t.5 as u64, 2);
    out.append(".000Z");
    proof {
        assert(out@ == iso_text(civil(t)));
        assert(civil(t).exists_in_calendar());
    }
    out
}

// ---------------------------------------------------------------------- reading

pub open spec fn ascii_head(s: Seq<char>) -> bool {
    s.len() >= 19 && forall|i: int| 0 <= i < 19 ==> #[trigger] s[i] <= '\u{7f}'
}

/// The fields of a date and time that is written out; what stands between them
/// is not looked at.
pub open spec fn fields_of(s: Seq<char>) -> Option<(int, int, int, int, int, int)> {
    match (
        text::parse_signed(s.subrange(0, 4)),
        text::parse_unsigned(s.subrange(5, 7), u32::MAX as int),
        text::parse_unsigned(s.subrange(8, 10), u32::MAX as int),
        text::parse_unsigned(s.subrange(11, 13), u32::MAX as int),
        text::parse_unsigned(s.subrange(14, 16), u32::MAX as int),
        text::parse_unsigned(s.subrange(17, 19), u32::MAX as int),
    ) {
        (Some(y), Some(m), Some(d), Some(h), Some(mi), Some(sec)) => Some((y, m, d, h, mi, sec)),
        _ => None,
    }
}

/// Seconds as milliseconds in an unsigned number; a moment before 1970 and one
/// too far ahead are the largest number.
pub open spec fn seconds_to_ms(n: int) -> int {
    if n < 0 || n * 1000 > u64::MAX {
        u64::MAX as int
    } else {
        n * 1000
    }
}

/// Milliseconds since 1970 from a number, or from a date and time.
pub open spec fn time_of(s: Seq<char>) -> Option<int> {
    match text::parse_unsigned(s, u64::MAX as int) {
        Some(n) => Some(n),
        None => if ascii_head(s) {
            match fields_of(s) {
                Some((y, m, d, h, mi, sec)) => if 1 <= m <= 12 && 1 <= d <= 31 {
                    Some(seconds_to_ms(day_number(y, m, d) * 86_400 + h * 3600 + mi * 60 + sec))
                } else {
                    None
                },
                None => None,
            }
        } else {
            None
        },
    }
}

proof fn lemma_small_year(s: Seq<char>)
    requires
        s.len() == 4,
    ensures
        text::parse_signed(s) matches Some(y) ==> -10_000 < y < 10_000,
{
    if s[0] == '-' {
        lemma_few_digits(s.subrange(1, 4), 10_000);
    } else {
        lemma_few_digits(text::unsigned_digits(s), 10_000);
    }
}

proof fn lemma_small_field(s: Seq<char>)
    requires
        s.len() == 2,
    ensures
        text::parse_unsigned(s, u32::MAX as int) matches Some(n) ==> 0 <= n < 100,
{
    lemma_few_digits(text::unsigned_digits(s), 100);
}

proof fn lemma_few_digits(s: Seq<char>, bound: int)
    requires
        s.len() <= 4,
        bound == 10_000 || (bound == 100 && s.len() <= 2),
    ensures
        text::all_digits(s) ==> 0 <= text::digits_value(s) < bound,
{
    reveal_with_fuel(text::digits_value, 5);
    if text::all_digits(s) {
        if s.len() > 0 {
            assert(text::is_digit(s[s.len() - 1]));
        }
        if s.len() > 1 {
            assert(text::is_digit(s[s.len() - 2]));
            assert(s.drop_last().last() == s[s.len() - 2]);
        }
        if s.len() > 2 {
            assert(text::is_digit(s[s.len() - 3]));
            assert(s.drop_last().drop_last().last() == s[s.len() - 3]);
        }
        if s.len() > 3 {
            assert(text::is_digit(s[s.len() - 4]));
            assert(s.drop_last().drop_last().drop_last().last() == s[s.len() - 4]);
        }
    }
}

fn head_is_ascii(v: &Vec<char>) -> (r: bool)
    ensures
        r == ascii_head(v@),
{
    if v.len() < 19 {
        return false;
    }
    let mut i: usize = 0;
    while i < 19
        invariant
            i <= 19,
            v@.len() >= 19,
            forall|k: int| 0 <= k < i ==> #[trigger] v@[k] <= '\u{7f}',
        decreases 19 - i,
    {
        if v[i] > '\u{7f}' {
            return false;
        }
        i += 1;
    }
    true
}

fn read_field(v: &Vec<char>, a: usize) -> (r: Option<u32>)
    requires
        a + 2 <= v@.len(),
    ensures
        match r {
            Some(n) => text::parse_unsigned(v@.subrange(a as int, a + 2), u32::MAX as int) == Some(
                n as int,
            ),
            None => text::parse_unsigned(v@.subrange(a as int, a + 2), u32::MAX as int) is None,
        },
{
    let n: usize = v.len();
    parse_u32(slice_text(v.as_slice(), a, n - (n - a - 2)).as_str())
}

/// Reads a time that is written as milliseconds since 1970 or as a date and
/// time in UTC.
pub fn parse_time_ms(s: &str) -> (r: Option<u64>)
    ensures
        match r {
            Some(n) => time_of(s@) == Some(n as int),
            None => time_of(s@) is None,
        },
{
    if let Some(ms) = parse_u64(s) {
        return Some(ms);
    }
    let v = chars_of(s);
    if !head_is_ascii(&v) {
        return None;
    }
    let year = parse_i64(slice_text(v.as_slice(), 0, 4).as_str());
    match (
        year,
        read_field(&v, 5),
        read_field(&v, 8),
        read_field(&v, 11),
        read_field(&v, 14),
        read_field(&v, 17),
    ) {
        (Some(y), Some(m), Some(d), Some(h), Some(mi), Some(sec)) => {
            proof {
                lemma_small_year(s@.subrange(0, 4));
                lemma_small_field(s@.subrange(5, 7));
                lemma_small_field(s@.subrange(8, 10));
                lemma_small_field(s@.subrange(11, 13));
                lemma_small_field(s@.subrange(14, 16));
                lemma_small_field(s@.subrange(17, 19));
                assert(-10_000_000 < day_number(y as int, m as int, d as int) < 10_000_000);
            }
            match ymd_hms_to_unix(y, m, d, h, mi, sec) {
                Some(n) => if n < 0 {
                    Some(u64::MAX)
                } else {
                    match (n as u64).checked_mul(1000) {
                        Some(ms) => Some(ms),
                        None => Some(u64::MAX),
                    }
                },
                None => None,
            }
        },
        _ => None,
    }
}

// ------------------------------------------------------------------------ laws

/// The days of a year before a date of it.
spec fn day_of_year(y: int, m: int, d: int) -> int {
    days_before_month(m) + (if m > 2 && is_leap(y) {
        1int
    } else {
        0
    }) + d - 1
}

proof fn lemma_day_of_year(y: int, m: int, d: int)
    requires
        1 <= m <= 12,
        1 <= d <= days_in_month(y, m),
    ensures
        0 <= day_of_year(y, m, d) < 365 + (if is_leap(y) {
            1int
        } else {
            0
        }),
{
}

proof fn lemma_next_year(a: int, b: int)
    requires
        a < b,
    ensures
        days_before_year(a) + 365 + (if is_leap(a) {
            1int
        } else {
            0
        }) <= days_before_year(b),
{
    lemma_march_days(a);
    lemma_march_days(a + 1);
    lemma_years_ascend(a + 1, b);
}

proof fn lemma_day_number_splits(y: int, m: int, d: int)
    ensures
        day_number(y, m, d) == days_before_year(y) + day_of_year(y, m, d) - 719_162,
{
}

/// A day has one date: two dates of the calendar that are the same day are the
/// same date.
pub proof fn law_a_day_has_one_date(y1: int, m1: int, d1: int, y2: int, m2: int, d2: int)
    requires
        1 <= m1 <= 12,
        1 <= d1 <= days_in_month(y1, m1),
        1 <= m2 <= 12,
        1 <= d2 <= days_in_month(y2, m2),
        day_number(y1, m1, d1) == day_number(y2, m2, d2),
    ensures
        y1 == y2,
        m1 == m2,
        d1 == d2,
{
    lemma_day_of_year(y1, m1, d1);
    lemma_day_of_year(y2, m2, d2);
    lemma_day_number_splits(y1, m1, d1);
    lemma_day_number_splits(y2, m2, d2);
    if y1 < y2 {
        lemma_next_year(y1, y2);
    } else if y2 < y1 {
        lemma_next_year(y2, y1);
    }
}

/// A moment has one date and time: two that are the same second are the same.
pub proof fn law_a_moment_has_one_date(a: Civil, b: Civil)
    requires
        a.exists_in_calendar(),
        b.exists_in_calendar(),
        a.seconds() == b.seconds(),
    ensures
        a == b,
{
    let ta = a.hour * 3600 + a.minute * 60 + a.second;
    let tb = b.hour * 3600 + b.minute * 60 + b.second;
    assert(0 <= ta < 86_400 && 0 <= tb < 86_400);
    let na = day_number(a.year as int, a.month as int, a.day as int);
    let nb = day_number(b.year as int, b.month as int, b.day as int);
    assert(na == nb);
    law_a_day_has_one_date(
        a.year as int,
        a.month as int,
        a.day as int,
        b.year as int,
        b.month as int,
        b.day as int,
    );
}

proof fn lemma_zeros_value(k: nat, d: Seq<char>)
    requires
        text::all_digits(d),
    ensures
        text::all_digits(zeros(k) + d),
        text::digits_value(zeros(k) + d) == text::digits_value(d),
    decreases d.len(), k,
{
    assert forall|i: int| 0 <= i < (zeros(k) + d).len() implies text::is_digit(
        #[trigger] (zeros(k) + d)[i],
    ) by {
        if i >= k {
            assert((zeros(k) + d)[i] == d[i - k]);
        }
    }
    if d.len() > 0 {
        assert((zeros(k) + d).drop_last() =~= zeros(k) + d.drop_last());
        lemma_zeros_value(k, d.drop_last());
    } else if k > 0 {
        assert((zeros(k) + d).drop_last() =~= zeros((k - 1) as nat) + d);
        lemma_zeros_value((k - 1) as nat, d);
    } else {
        assert(zeros(0) + d =~= d);
    }
}

proof fn lemma_padded(n: nat, width: nat)
    requires
        (width == 2 && n < 100) || (width == 4 && n < 10_000),
    ensures
        padded(n, width).len() == width,
        text::all_digits(padded(n, width)),
        text::digits_value(padded(n, width)) == n,
{
    let d = text::decimal(n);
    text::lemma_decimal_digits(n);
    reveal_with_fuel(text::decimal, 5);
    assert(d.len() <= width);
    if d.len() < width {
        lemma_zeros_value((width - d.len()) as nat, d);
    }
}

proof fn lemma_padded_parses(n: nat, width: nat, s: Seq<char>)
    requires
        (width == 2 && n < 100) || (width == 4 && n < 10_000),
        s == padded(n, width),
    ensures
        text::parse_unsigned(s, u32::MAX as int) == Some(n as int),
        text::parse_signed(s) == Some(n as int),
{
    lemma_padded(n, width);
    assert(text::is_digit(s[0]));
    assert(text::unsigned_digits(s) == s);
}

/// A moment that is written down is read back to the second, from 1970 up to
/// the end of the year 9999.
pub proof fn law_written_times_read_back(c: Civil)
    requires
        c.exists_in_calendar(),
        0 <= c.year <= 9999,
        c.seconds() >= 0,
    ensures
        time_of(iso_text(c)) == Some(c.seconds() * 1000),
{
    let s = iso_text(c);
    reveal_strlit("-");
    reveal_strlit("T");
    reveal_strlit(":");
    reveal_strlit(".000Z");
    let y = padded(c.year as nat, 4);
    let m = padded(c.month as nat, 2);
    let d = padded(c.day as nat, 2);
    let h = padded(c.hour as nat, 2);
    let mi = padded(c.minute as nat, 2);
    let sec = padded(c.second as nat, 2);
    lemma_padded(c.year as nat, 4);
    lemma_padded(c.month as nat, 2);
    lemma_padded(c.day as nat, 2);
    lemma_padded(c.hour as nat, 2);
    lemma_padded(c.minute as nat, 2);
    lemma_padded(c.second as nat, 2);
    assert(s.len() == 24);
    assert(s.subrange(0, 4) =~= y);
    assert(s.subrange(5, 7) =~= m);
    assert(s.subrange(8, 10) =~= d);
    assert(s.subrange(11, 13) =~= h);
    assert(s.subrange(14, 16) =~= mi);
    assert(s.subrange(17, 19) =~= sec);
    lemma_padded_parses(c.year as nat, 4, s.subrange(0, 4));
    lemma_padded_parses(c.month as nat, 2, s.subrange(5, 7));
    lemma_padded_parses(c.day as nat, 2, s.subrange(8, 10));
    lemma_padded_parses(c.hour as nat, 2, s.subrange(11, 13));
    lemma_padded_parses(c.minute as nat, 2, s.subrange(14, 16));
    lemma_padded_parses(c.second as nat, 2, s.subrange(17, 19));
    assert(s[4] == '-' && s[7] == '-' && s[10] == 'T' && s[13] == ':' && s[16] == ':');
    // A date is not a number.
    assert(text::parse_unsigned(s, u64::MAX as int) is None) by {
        assert(s[0] == y[0]);
        assert(text::is_digit(y[0]));
        assert(text::unsigned_digits(s) == s);
        assert(!text::is_digit(s[4]));
    }
    assert(ascii_head(s)) by {
        assert forall|i: int| 0 <= i < 19 implies #[trigger] s[i] <= '\u{7f}' by {
            if i < 4 {
                assert(s[i] == y[i] && text::is_digit(y[i]));
            } else if 5 <= i < 7 {
                assert(s[i] == m[i - 5] && text::is_digit(m[i - 5]));
            } else if 8 <= i < 10 {
                assert(s[i] == d[i - 8] && text::is_digit(d[i - 8]));
            } else if 11 <= i < 13 {
                assert(s[i] == h[i - 11] && text::is_digit(h[i - 11]));
            } else if 14 <= i < 16 {
                assert(s[i] == mi[i - 14] && text::is_digit(mi[i - 14]));
            } else if 17 <= i < 19 {
                assert(s[i] == sec[i - 17] && text::is_digit(sec[i - 17]));
            }
        }
    }
    assert(c.seconds() * 1000 <= u64::MAX) by {
        lemma_years_ascend(c.year as int, 9999);
        assert(days_before_year(9999) == 3_651_694);
        lemma_day_of_year(c.year as int, c.month as int, c.day as int);
        lemma_day_number_splits(c.year as int, c.month as int, c.day as int);
    }
}

} // verus!
