//! Time ranges: relative ones like `5m`, and absolute ones made of two UTC
//! datetimes.

use crate::numbers::{
    all_digits, ascii_bytes, decimal, digit, digits_value, lemma_decimal,
    lemma_digits_value_prefix, padded, padded_string, parse_i64, parse_signed, parse_u64,
    parse_unsigned, unsigned_part, zeros,
};
use crate::text::{
    cat3, lemma_boundary_after_ascii, lemma_encode_concat, lemma_text_split, str_eq, substr,
    text_in, trimmed, white_space,
};
use vstd::prelude::*;
use vstd::string::*;
use vstd::utf8::*;

verus! {

/// The ranges offered for selection.
pub const PRESETS: [&'static str; 11] = [
    "5m",
    "15m",
    "30m",
    "1h",
    "3h",
    "6h",
    "12h",
    "24h",
    "2d",
    "7d",
    "30d",
];

// ── Relative ranges ──────────────────────────────────────────────────────────

/// Seconds in the unit that a suffix names.
pub open spec fn unit_secs(suffix: u8) -> Option<int> {
    if suffix == 's' as u8 {
        Some(1)
    } else if suffix == 'm' as u8 {
        Some(60)
    } else if suffix == 'h' as u8 {
        Some(3600)
    } else if suffix == 'd' as u8 {
        Some(86400)
    } else {
        None
    }
}

/// The seconds of a range like `5m`, as a mathematical number.
pub open spec fn range_secs(s: Seq<char>) -> Option<int> {
    let b = encode_utf8(trimmed(s));
    if b.len() == 0 || unit_secs(b.last()) is None {
        None
    } else {
        match parse_unsigned(b.drop_last(), u64::MAX as int) {
            Some(v) => Some(v * unit_secs(b.last())->0),
            None => None,
        }
    }
}

/// Whether a range, if it is one, is short enough for its seconds to be counted.
pub open spec fn range_fits(s: Seq<char>) -> bool {
    range_secs(s) is Some ==> range_secs(s)->0 <= u64::MAX
}

/// Number and unit of a range.
pub(crate) fn read_range(s: &str) -> (r: Option<(u64, u64)>)
    ensures
        match r {
            Some((v, unit)) => {
                &&& range_secs(s@) == Some(v * unit)
                &&& encode_utf8(trimmed(s@)).len() > 0
                &&& unit_secs(encode_utf8(trimmed(s@)).last()) == Some(unit as int)
            },
            None => range_secs(s@) is None,
        },
{
    let s = s.trim();
    let b = s.as_bytes();
    if b.len() == 0 {
        return None;
    }
    let last = b[b.len() - 1];
    let unit: u64 = if last == 's' as u8 {
        1
    } else if last == 'm' as u8 {
        60
    } else if last == 'h' as u8 {
        3600
    } else if last == 'd' as u8 {
        86400
    } else {
        return None;
    };
    proof {
        encode_utf8_valid_utf8(s@);
        lemma_boundary_after_ascii(b@, b.len() - 1);
        is_char_boundary_start_end_of_seq(b@);
        assert(b@.drop_last() =~= b@.subrange(0, b.len() - 1));
    }
    match parse_u64(substr(s, 0, b.len() - 1)) {
        Some(v) => Some((v, unit)),
        None => None,
    }
}

/// Parses "5m", "1h", "2d", "30s" to seconds. Returns `None` if unrecognised.
pub fn parse_time_range(s: &str) -> (r: Option<u64>)
    requires
        range_fits(s@),
    ensures
        match r {
            Some(v) => range_secs(s@) == Some(v as int),
            None => range_secs(s@) is None,
        },
{
    match read_range(s) {
        Some((v, unit)) => Some(v * unit),
        None => None,
    }
}

/// Whether `parse_time_range` can take `s`.
pub fn time_range_fits(s: &str) -> (r: bool)
    ensures
        r == range_fits(s@),
{
    match read_range(s) {
        Some((v, unit)) => {
            assert(0 <= v * unit <= 0xffff_ffff_ffff_ffff * 0xffff_ffff_ffff_ffff)
                by (nonlinear_arith)
                requires
                    0 <= v <= 0xffff_ffff_ffff_ffff,
                    0 <= unit <= 0xffff_ffff_ffff_ffff,
            ;
            v as u128 * unit as u128 <= u64::MAX as u128
        },
        None => true,
    }
}

// ── Datetimes ────────────────────────────────────────────────────────────────

/// Division that rounds towards zero.
pub open spec fn quot(a: int, b: int) -> int {
    if a >= 0 {
        a / b
    } else {
        -((-a) / b)
    }
}

/// Julian Day of 1970-01-01.
pub const EPOCH_JD: i64 = 2440588;

/// The Julian Day Number of a date in the proleptic Gregorian calendar.
pub open spec fn julian_day_of(y: int, m: int, d: int) -> int {
    let a = (14 - m) / 12;
    let y2 = y + 4800 - a;
    let m2 = m + 12 * a - 3;
    d + (153 * m2 + 2) / 5 + 365 * y2 + quot(y2, 4) - quot(y2, 100) + quot(y2, 400) - 32045
}

/// A date and a time of day.
pub ghost struct DateTime {
    pub year: int,
    pub month: int,
    pub day: int,
    pub hour: int,
    pub minute: int,
    pub second: int,
}

impl DateTime {
    /// Days since 1970-01-01.
    pub open spec fn days(self) -> int {
        julian_day_of(self.year, self.month, self.day) - EPOCH_JD
    }

    /// Seconds since 1970-01-01 00:00:00.
    pub open spec fn unix_secs(self) -> int {
        self.days() * 86400 + self.hour * 3600 + self.minute * 60 + self.second
    }

    /// Whether the fields are in the ranges of a calendar and a clock.
    pub open spec fn valid(self) -> bool {
        1 <= self.month <= 12 && 1 <= self.day <= 31 && 0 <= self.hour <= 23 && 0 <= self.minute
            <= 59 && 0 <= self.second <= 59
    }
}

/// The first offset of `c` in `b`, from `from` on.
pub open spec fn first_index(b: Seq<u8>, from: int, c: u8) -> Option<int>
    decreases b.len() - from,
{
    if from < 0 || from >= b.len() {
        None
    } else if b[from] == c {
        Some(from)
    } else {
        first_index(b, from + 1, c)
    }
}

/// The field `b` as a number.
pub open spec fn field(b: Seq<u8>) -> Option<int> {
    parse_signed(b, i64::MIN as int, i64::MAX as int)
}

/// The three numbers that `sep` separates.
pub open spec fn three_fields(b: Seq<u8>, sep: u8) -> Option<(int, int, int)> {
    match first_index(b, 0, sep) {
        None => None,
        Some(i) => match first_index(b, i + 1, sep) {
            None => None,
            Some(j) => {
                let x = field(b.subrange(0, i));
                let y = field(b.subrange(i + 1, j));
                let z = field(b.subrange(j + 1, b.len() as int));
                if x is Some && y is Some && z is Some {
                    Some((x->0, y->0, z->0))
                } else {
                    None
                }
            },
        },
    }
}

/// The datetime that `s` writes as `YYYY-MM-DD HH:MM:SS`, white space around it
/// aside.
pub open spec fn datetime_of(s: Seq<char>) -> Option<DateTime> {
    let b = encode_utf8(trimmed(s));
    match first_index(b, 0, ' ' as u8) {
        None => None,
        Some(i) => {
            let date = three_fields(b.subrange(0, i), '-' as u8);
            let time = three_fields(b.subrange(i + 1, b.len() as int), ':' as u8);
            match (date, time) {
                (Some((year, month, day)), Some((hour, minute, second))) => {
                    let dt = DateTime { year, month, day, hour, minute, second };
                    if dt.valid() {
                        Some(dt)
                    } else {
                        None
                    }
                },
                _ => None,
            }
        },
    }
}

/// The nanoseconds since 1970 of a datetime, as a mathematical number; `None`
/// for text that is no datetime and for datetimes before 1970.
pub open spec fn datetime_ns(s: Seq<char>) -> Option<int> {
    match datetime_of(s) {
        Some(dt) => if dt.unix_secs() < 0 {
            None
        } else {
            Some(dt.unix_secs() * 1_000_000_000)
        },
        None => None,
    }
}

/// Whether a datetime, if `s` is one, is near enough to be counted.
pub open spec fn datetime_fits(s: Seq<char>) -> bool {
    match datetime_of(s) {
        Some(dt) => i64::MIN <= dt.days() * 86400 && dt.unix_secs() * 1_000_000_000 <= u64::MAX,
        None => true,
    }
}

pub(crate) fn find_byte(b: &[u8], from: usize, c: u8) -> (r: Option<usize>)
    ensures
        match r {
            Some(i) => {
                &&& first_index(b@, from as int, c) == Some(i as int)
                &&& from <= i < b.len()
                &&& b@[i as int] == c
            },
            None => first_index(b@, from as int, c) is None,
        },
{
    let mut i: usize = from;
    while i < b.len()
        invariant
            from <= i,
            first_index(b@, from as int, c) == first_index(b@, i as int, c),
        decreases b.len() - i,
    {
        if b[i] == c {
            return Some(i);
        }
        i += 1;
    }
    None
}

fn read_three(s: &str, sep: u8) -> (r: Option<(i64, i64, i64)>)
    requires
        sep < 0x80,
    ensures
        match r {
            Some((x, y, z)) => three_fields(s.spec_bytes(), sep) == Some(
                (x as int, y as int, z as int),
            ),
            None => three_fields(s.spec_bytes(), sep) is None,
        },
{
    let b = s.as_bytes();
    proof {
        encode_utf8_valid_utf8(s@);
        is_char_boundary_start_end_of_seq(b@);
    }
    let i = match find_byte(b, 0, sep) {
        Some(i) => i,
        None => {
            return None;
        },
    };
    let j = match find_byte(b, i + 1, sep) {
        Some(j) => j,
        None => {
            return None;
        },
    };
    proof {
        lemma_boundary_after_ascii(b@, i as int);
        lemma_boundary_after_ascii(b@, j as int);
    }
    let x = parse_i64(substr(s, 0, i));
    let y = parse_i64(substr(s, i + 1, j));
    let z = parse_i64(substr(s, j + 1, b.len()));
    match (x, y, z) {
        (Some(x), Some(y), Some(z)) => Some((x, y, z)),
        _ => None,
    }
}

/// The Julian Day Number of a date.
fn julian_day(y: i64, m: i64, d: i64) -> (r: i128)
    requires
        1 <= m <= 12,
        1 <= d <= 31,
    ensures
        r == julian_day_of(y as int, m as int, d as int),
        -0x1_0000_0000_0000_0000_0000 <= r <= 0x1_0000_0000_0000_0000_0000,
{
    let y = y as i128;
    let m = m as i128;
    let a: i128 = (14 - m) / 12;
    let y2: i128 = y + 4800 - a;
    let m2: i128 = m + 12 * a - 3;
    d as i128 + (153 * m2 + 2) / 5 + 365 * y2 + y2 / 4 - y2 / 100 + y2 / 400 - 32045
}

/// Days since 1970-01-01 and second of the day of a datetime.
fn read_datetime(s: &str) -> (r: Option<(i128, i64)>)
    ensures
        match r {
            Some((days, secs)) => {
                &&& datetime_of(s@) is Some
                &&& days == datetime_of(s@)->0.days()
                &&& days * 86400 + secs == datetime_of(s@)->0.unix_secs()
                &&& 0 <= secs < 86400
                &&& -0x2_0000_0000_0000_0000_0000 <= days <= 0x2_0000_0000_0000_0000_0000
            },
            None => datetime_of(s@) is None,
        },
{
    let s = s.trim();
    let b = s.as_bytes();
    proof {
        encode_utf8_valid_utf8(s@);
        is_char_boundary_start_end_of_seq(b@);
    }
    let i = match find_byte(b, 0, ' ' as u8) {
        Some(i) => i,
        None => {
            return None;
        },
    };
    proof {
        lemma_boundary_after_ascii(b@, i as int);
    }
    let date = read_three(substr(s, 0, i), '-' as u8);
    let time = read_three(substr(s, i + 1, b.len()), ':' as u8);
    match (date, time) {
        (Some((year, month, day)), Some((hour, min, sec))) => {
            if month < 1 || month > 12 || day < 1 || day > 31 || hour < 0 || hour > 23 || min < 0
                || min > 59 || sec < 0 || sec > 59 {
                None
            } else {
                let days = julian_day(year, month, day) - EPOCH_JD as i128;
                Some((days, hour * 3600 + min * 60 + sec))
            }
        },
        _ => None,
    }
}

/// Parses "YYYY-MM-DD HH:MM:SS" as UTC and returns Unix nanoseconds. Returns
/// `None` if the format is invalid.
pub fn parse_datetime_utc_ns(s: &str) -> (r: Option<u64>)
    requires
        datetime_fits(s@),
    ensures
        match r {
            Some(ns) => datetime_ns(s@) == Some(ns as int),
            None => datetime_ns(s@) is None,
        },
{
    match read_datetime(s) {
        Some((days, secs)) => {
            let total: i128 = days * 86400 + secs as i128;
            if total < 0 {
                None
            } else {
                Some((total * 1_000_000_000) as u64)
            }
        },
        None => None,
    }
}

/// Whether `parse_datetime_utc_ns` can take `s`.
pub fn datetime_utc_fits(s: &str) -> (r: bool)
    ensures
        r == datetime_fits(s@),
{
    match read_datetime(s) {
        Some((days, secs)) => {
            let start: i128 = days * 86400;
            i64::MIN as i128 <= start && (start + secs as i128) * 1_000_000_000 <= u64::MAX as i128
        },
        None => true,
    }
}

/// Parses "YYYY-MM-DD HH:MM:SS" as UTC and returns Unix seconds.
pub fn parse_datetime_utc_s(s: &str) -> (r: Option<u64>)
    requires
        datetime_fits(s@),
    ensures
        match r {
            Some(secs) => datetime_of(s@) is Some && secs == datetime_of(s@)->0.unix_secs(),
            None => datetime_ns(s@) is None,
        },
{
    match parse_datetime_utc_ns(s) {
        Some(ns) => Some(ns / 1_000_000_000),
        None => None,
    }
}

/// The date of a Julian Day Number.
pub open spec fn date_of(jd: int) -> (int, int, int) {
    let p = jd + 68569;
    let q = quot(4 * p, 146097);
    let r = p - quot(146097 * q + 3, 4);
    let y = quot(4000 * (r + 1), 1461001);
    let r2 = r - quot(1461 * y, 4) + 31;
    let month = quot(80 * r2, 2447);
    let day = r2 - quot(2447 * month, 80);
    let over = quot(month, 11);
    (100 * (q - 49) + y + over, month + 2 - 12 * over, day)
}

/// The datetime of Unix seconds.
pub open spec fn datetime_at(secs: int) -> DateTime {
    let days = quot(secs, 86400);
    let (year, month, day) = date_of(days + EPOCH_JD);
    let time = secs - 86400 * days;
    let hour = quot(time, 3600);
    let minute = quot(time - 3600 * hour, 60);
    DateTime { year, month, day, hour, minute, second: time - quot(time, 60) * 60 }
}

/// `YYYY-MM-DD HH:MM:SS`
pub open spec fn datetime_text(dt: DateTime) -> Seq<char> {
    padded(dt.year, 4) + "-"@ + padded(dt.month, 2) + "-"@ + padded(dt.day, 2) + " "@ + padded(
        dt.hour,
        2,
    ) + ":"@ + padded(dt.minute, 2) + ":"@ + padded(dt.second, 2)
}

/// The date of a Julian Day Number.
#[verifier::rlimit(40)]
fn gregorian(jd: i64) -> (r: (i64, i64, i64))
    requires
        -200_000_000_000_000 <= jd <= 200_000_000_000_000,
    ensures
        (r.0 as int, r.1 as int, r.2 as int) == date_of(jd as int),
        i64::MIN < r.0,
        i64::MIN < r.1,
        i64::MIN < r.2,
{
    let p: i64 = jd + 68569;
    let q: i64 = 4 * p / 146097;
    let r: i64 = p - (146097 * q + 3) / 4;
    assert(-40000 <= r <= 40000);
    let y: i64 = 4000 * (r + 1) / 1461001;
    let r2: i64 = r - 1461 * y / 4 + 31;
    let month: i64 = 80 * r2 / 2447;
    let day: i64 = r2 - 2447 * month / 80;
    let over: i64 = month / 11;
    (100 * (q - 49) + y + over, month + 2 - 12 * over, day)
}

/// Formats a Unix-seconds timestamp as "YYYY-MM-DD HH:MM:SS" (UTC). Timestamps
/// from 2^63 on count as negative.
pub fn format_unix_s_utc(secs: u64) -> (r: String)
    ensures
        r@ == datetime_text(datetime_at(secs as i64 as int)),
{
    let s: i64 = #[verifier::truncate]
    (secs as i64);
    let days: i64 = s / 86400;
    let time: i64 = s % 86400;
    let hour: i64 = time / 3600;
    let minute: i64 = (time % 3600) / 60;
    let second: i64 = time % 60;
    let (year, month, day) = gregorian(days + EPOCH_JD);
    let mut out = padded_string(year, 4);
    out.append("-");
    out.append(padded_string(month, 2).as_str());
    out.append("-");
    out.append(padded_string(day, 2).as_str());
    out.append(" ");
    out.append(padded_string(hour, 2).as_str());
    out.append(":");
    out.append(padded_string(minute, 2).as_str());
    out.append(":");
    out.append(padded_string(second, 2).as_str());
    out
}

// ── Absolute ranges: two datetimes around a separator ────────────────────────

/// Stands between the two ends of an absolute range.
pub const ABS_SEP: char = '/';

/// The two ends of an absolute range; `None` without a separator.
pub open spec fn ends_of(time_range: Seq<char>) -> Option<(Seq<char>, Seq<char>)> {
    let b = encode_utf8(time_range);
    match first_index(b, 0, '/' as u8) {
        Some(i) => Some((text_in(b, 0, i), text_in(b, i + 1, b.len() as int))),
        None => None,
    }
}

/// Returns true if `time_range` encodes an absolute start/end pair.
pub fn is_absolute(time_range: &str) -> (r: bool)
    ensures
        r == (ends_of(time_range@) is Some),
{
    find_byte(time_range.as_bytes(), 0, '/' as u8).is_some()
}

/// Encodes a start/end pair into the storage format.
pub fn encode_absolute(from: &str, to: &str) -> (r: String)
    ensures
        r@ == from@.push(ABS_SEP) + to@,
{
    let mut r = from.to_string();
    r.push(ABS_SEP);
    r.append(to);
    r
}

/// Splits an absolute range string into its ends.
pub fn split_absolute(time_range: &str) -> (r: Option<(&str, &str)>)
    ensures
        match r {
            Some((from, to)) => ends_of(time_range@) == Some((from@, to@)),
            None => ends_of(time_range@) is None,
        },
{
    let b = time_range.as_bytes();
    match find_byte(b, 0, '/' as u8) {
        Some(i) => {
            proof {
                encode_utf8_valid_utf8(time_range@);
                is_char_boundary_start_end_of_seq(b@);
                lemma_boundary_after_ascii(b@, i as int);
            }
            Some((substr(time_range, 0, i), substr(time_range, i + 1, b.len())))
        },
        None => None,
    }
}

/// Start and end of an absolute range in nanoseconds, as mathematical numbers.
pub open spec fn absolute_ns(time_range: Seq<char>) -> Option<(int, int)> {
    match ends_of(time_range) {
        Some((from, to)) => if datetime_ns(from) is Some && datetime_ns(to) is Some {
            Some((datetime_ns(from)->0, datetime_ns(to)->0))
        } else {
            None
        },
        None => None,
    }
}

/// Whether the ends of an absolute range are near enough to be counted. The
/// second matters only behind a first that is a datetime.
pub open spec fn absolute_fits(time_range: Seq<char>) -> bool {
    match ends_of(time_range) {
        Some((from, to)) => datetime_fits(from) && (datetime_ns(from) is Some ==> datetime_fits(
            to,
        )),
        None => true,
    }
}

/// Parses an absolute range to its start and end in nanoseconds. Returns `None`
/// for relative ranges.
pub fn parse_absolute_range_ns(time_range: &str) -> (r: Option<(u64, u64)>)
    requires
        absolute_fits(time_range@),
    ensures
        match r {
            Some((start, end)) => absolute_ns(time_range@) == Some((start as int, end as int)),
            None => absolute_ns(time_range@) is None,
        },
{
    match split_absolute(time_range) {
        Some((from, to)) => match parse_datetime_utc_ns(from) {
            Some(start) => match parse_datetime_utc_ns(to) {
                Some(end) => Some((start, end)),
                None => None,
            },
            None => None,
        },
        None => None,
    }
}

// ── Resolution ───────────────────────────────────────────────────────────────

/// The length of a relative range in seconds; an hour for any other text.
pub open spec fn length_secs(time_range: Seq<char>) -> int {
    match range_secs(time_range) {
        Some(v) => v,
        None => 3600,
    }
}

/// Start and end of a range in nanoseconds. A relative range ends at `now_ns`
/// and does not start before 0.
pub open spec fn resolved_ns(time_range: Seq<char>, now_ns: int) -> (int, int) {
    match absolute_ns(time_range) {
        Some(pair) => pair,
        None => {
            let start = now_ns - length_secs(time_range) * 1_000_000_000;
            (
                if start < 0 {
                    0
                } else {
                    start
                },
                now_ns,
            )
        },
    }
}

/// Whether all that resolving a range counts is small enough.
pub open spec fn resolvable(time_range: Seq<char>) -> bool {
    &&& absolute_fits(time_range)
    &&& absolute_ns(time_range) is None ==> length_secs(time_range) * 1_000_000_000 <= u64::MAX
}

/// Whether a range can be resolved.
pub fn range_resolvable(time_range: &str) -> (r: bool)
    ensures
        r == resolvable(time_range@),
{
    if let Some((from, to)) = split_absolute(time_range) {
        if !datetime_utc_fits(from) {
            return false;
        }
        if let Some(_) = parse_datetime_utc_ns(from) {
            if !datetime_utc_fits(to) {
                return false;
            }
            if let Some(_) = parse_datetime_utc_ns(to) {
                return true;
            }
        }
    }
    if !time_range_fits(time_range) {
        return false;
    }
    match parse_time_range(time_range) {
        Some(secs) => secs <= 18_446_744_073,
        None => true,
    }
}

/// Start and end in nanoseconds of either an absolute or a relative range.
pub fn resolve_range_ns(time_range: &str, now_ns: u64) -> (r: (u64, u64))
    requires
        resolvable(time_range@),
    ensures
        (r.0 as int, r.1 as int) == resolved_ns(time_range@, now_ns as int),
{
    match parse_absolute_range_ns(time_range) {
        Some(pair) => pair,
        None => {
            let secs: u64 = match parse_time_range(time_range) {
                Some(v) => v,
                None => 3600,
            };
            (now_ns.saturating_sub(secs * 1_000_000_000), now_ns)
        },
    }
}

/// Start and end in seconds of either an absolute or a relative range.
pub fn resolve_range_s(time_range: &str, now_s: u64) -> (r: (u64, u64))
    requires
        resolvable(time_range@),
        now_s * 1_000_000_000 <= u64::MAX,
    ensures
        ({
            let (start, end) = resolved_ns(time_range@, now_s * 1_000_000_000);
            r.0 == start / 1_000_000_000 && r.1 == end / 1_000_000_000
        }),
{
    let (start, end) = resolve_range_ns(time_range, now_s * 1_000_000_000);
    (start / 1_000_000_000, end / 1_000_000_000)
}

/// The start of a range that ends at `end_ns`, not before 0. For absolute
/// ranges, the start from the encoded pair.
pub fn start_unix_ns(end_ns: u64, range: &str) -> (r: u64)
    requires
        resolvable(range@),
    ensures
        r == resolved_ns(range@, end_ns as int).0,
{
    resolve_range_ns(range, end_ns).0
}

/// The start in seconds of a range that ends at `end_s`, not before 0.
pub fn start_unix_s(end_s: u64, range: &str) -> (r: u64)
    requires
        resolvable(range@),
        end_s * 1_000_000_000 <= u64::MAX,
    ensures
        r == resolved_ns(range@, end_s * 1_000_000_000).0 / 1_000_000_000,
        absolute_ns(range@) is None ==> r == (if end_s < length_secs(range@) {
            0
        } else {
            end_s - length_secs(range@)
        }),
{
    resolve_range_s(range, end_s).0
}

/// The start in milliseconds of a range that ends at `end_ms`, not before 0.
pub fn start_unix_ms(end_ms: u64, range: &str) -> (r: u64)
    requires
        resolvable(range@),
        end_ms * 1_000_000 <= u64::MAX,
    ensures
        r == resolved_ns(range@, end_ms * 1_000_000).0 / 1_000_000,
        absolute_ns(range@) is None ==> r == (if end_ms < length_secs(range@) * 1_000 {
            0
        } else {
            end_ms - length_secs(range@) * 1_000
        }),
{
    let end_ns = end_ms * 1_000_000;
    resolve_range_ns(range, end_ns).0 / 1_000_000
}

// ── Display ──────────────────────────────────────────────────────────────────

/// A datetime without its seconds where they are zero.
pub open spec fn compact(s: Seq<char>) -> Seq<char> {
    let b = encode_utf8(s);
    let n = b.len() as int;
    if n >= 3 && b[n - 3] == ':' as u8 && b[n - 2] == '0' as u8 && b[n - 1] == '0' as u8 {
        text_in(b, 0, n - 3)
    } else {
        s
    }
}

/// The label of a time range.
pub open spec fn label_of(time_range: Seq<char>) -> Seq<char> {
    match ends_of(time_range) {
        Some((from, to)) => compact(trimmed(from)) + " → "@ + compact(trimmed(to)),
        None => time_range,
    }
}

fn compact_str<'a>(s: &'a str) -> (r: &'a str)
    ensures
        r@ == compact(s@),
{
    let b = s.as_bytes();
    let n = b.len();
    if n >= 3 && b[n - 3] == ':' as u8 && b[n - 2] == '0' as u8 && b[n - 1] == '0' as u8 {
        proof {
            encode_utf8_valid_utf8(s@);
            is_char_boundary_start_end_of_seq(b@);
            lemma_boundary_after_ascii(b@, n - 3);
        }
        substr(s, 0, n - 3)
    } else {
        s
    }
}

/// Human-readable label for a time range value shown in title bars.
pub fn display_label(time_range: &str) -> (r: String)
    ensures
        r@ == label_of(time_range@),
{
    match split_absolute(time_range) {
        Some((from, to)) => cat3(compact_str(from.trim()), " → ", compact_str(to.trim())),
        None => time_range.to_string(),
    }
}

/// Returns the index of `range` within `PRESETS`, or `None` if it's a custom
/// value.
pub fn preset_index(range: &str) -> (r: Option<usize>)
    ensures
        match r {
            Some(i) => {
                &&& i < PRESETS@.len()
                &&& PRESETS@[i as int]@ == range@
                &&& forall|k: int| 0 <= k < i ==> (#[trigger] PRESETS@[k])@ != range@
            },
            None => forall|k: int| 0 <= k < PRESETS@.len() ==> (#[trigger] PRESETS@[k])@ != range@,
        },
{
    let mut i: usize = 0;
    while i < PRESETS.len()
        invariant
            i <= PRESETS@.len(),
            forall|k: int| 0 <= k < i ==> (#[trigger] PRESETS@[k])@ != range@,
        decreases PRESETS@.len() - i,
    {
        if str_eq(PRESETS[i], range) {
            return Some(i);
        }
        i += 1;
    }
    None
}

// ── Laws ─────────────────────────────────────────────────────────────────────

/// The year of a century starts at most a year before its day.
pub(crate) proof fn lemma_day_of_year(r: int, y: int)
    requires
        0 <= r <= 36524,
        y == (4000 * (r + 1)) / 1461001,
    ensures
        0 <= y <= 99,
        0 <= r - (1461 * y) / 4 <= 365,
{
}

/// Month and day from the day of a year that starts in March.
pub(crate) proof fn lemma_day_of_month(r2: int, month: int, day: int)
    requires
        31 <= r2 <= 396,
        month == (80 * r2) / 2447,
        day == r2 - (2447 * month) / 80,
    ensures
        1 <= month <= 12,
        1 <= day <= 31,
        (153 * month - 151) / 5 - (2447 * month) / 80 == -30,
{
    assert(1 <= month <= 12);
    if month == 1 {
    } else if month == 2 {
    } else if month == 3 {
    } else if month == 4 {
    } else if month == 5 {
    } else if month == 6 {
    } else if month == 7 {
    } else if month == 8 {
    } else if month == 9 {
    } else if month == 10 {
    } else if month == 11 {
    } else {
    }
}

/// The date of a day from 1970 on names that day: the conversions between days
/// and dates undo each other.
pub proof fn lemma_date_round_trip(jd: int)
    requires
        EPOCH_JD <= jd <= 10_000_000,
    ensures
        ({
            let (y, m, d) = date_of(jd);
            &&& julian_day_of(y, m, d) == jd
            &&& 0 <= y <= 100_000
            &&& 1 <= m <= 12
            &&& 1 <= d <= 31
        }),
{
    let p = jd + 68569;
    let q = (4 * p) / 146097;
    let r = p - (146097 * q + 3) / 4;
    assert(0 <= r <= 36524);
    let y = (4000 * (r + 1)) / 1461001;
    lemma_day_of_year(r, y);
    let r2 = r - (1461 * y) / 4 + 31;
    let month = (80 * r2) / 2447;
    let day = r2 - (2447 * month) / 80;
    lemma_day_of_month(r2, month, day);
    let over = month / 11;
    let year = 100 * (q - 49) + y + over;
    let m = month + 2 - 12 * over;
    assert(date_of(jd) == (year, m, day));
    let a = (14 - m) / 12;
    assert(a == over);
    let y2 = year + 4800 - a;
    assert(y2 == 100 * (q - 1) + y);
    assert(y2 / 100 == q - 1);
    assert(y2 / 4 == 25 * (q - 1) + y / 4);
    assert(y2 / 400 == (q - 1) / 4);
    assert((146097 * q + 3) / 4 == 36524 * q + (q - 1) / 4 + 1);
    assert((1461 * y) / 4 == 365 * y + y / 4);
}

/// Zeros in front do not change the value of digits.
proof fn lemma_zeros(n: int, d: Seq<u8>)
    requires
        all_digits(d),
    ensures
        all_digits(ascii_bytes(zeros(n)) + d),
        digits_value(ascii_bytes(zeros(n)) + d) == digits_value(d),
        is_ascii_chars(zeros(n)),
    decreases n, d.len(),
{
    let z = ascii_bytes(zeros(n));
    let all = z + d;
    if d.len() > 0 {
        let init = d.drop_last();
        assert forall|i: int| 0 <= i < init.len() implies digit(#[trigger] init[i]) by {
            assert(init[i] == d[i]);
        }
        lemma_zeros(n, init);
        assert(all.drop_last() =~= z + init);
        assert(all.last() == d.last());
        assert forall|i: int| 0 <= i < all.len() implies digit(#[trigger] all[i]) by {
            if i < all.len() - 1 {
                assert(all[i] == (z + init)[i]);
            } else {
                assert(digit(d[d.len() - 1]));
            }
        }
    } else if n > 0 {
        lemma_zeros(n - 1, d);
        let shorter = ascii_bytes(zeros(n - 1));
        assert(shorter + d =~= shorter);
        assert(all =~= shorter.push('0' as u8));
        assert(all.drop_last() =~= shorter);
        assert forall|i: int| 0 <= i < all.len() implies digit(#[trigger] all[i]) by {
            if i < all.len() - 1 {
                assert(all[i] == (shorter + d)[i]);
            }
        }
        assert forall|i: int| 0 <= i < zeros(n).len() implies (0 <= #[trigger] zeros(n)[i] < 128) by {
            if i < zeros(n).len() - 1 {
                assert(zeros(n)[i] == zeros(n - 1)[i]);
            }
        }
    } else {
        assert(all =~= seq![]);
    }
}

/// What padded notation writes reads as the number.
pub(crate) proof fn lemma_padded(n: int, width: int)
    requires
        0 <= n <= i64::MAX,
    ensures
        is_ascii_chars(padded(n, width)),
        encode_utf8(padded(n, width)).len() > 0,
        all_digits(encode_utf8(padded(n, width))),
        digits_value(encode_utf8(padded(n, width))) == n,
        field(encode_utf8(padded(n, width))) == Some(n),
{
    let d = decimal(n as nat);
    let z = zeros(width - d.len());
    let text = z + d;
    lemma_decimal(n as nat);
    lemma_zeros(width - d.len(), ascii_bytes(d));
    assert forall|i: int| 0 <= i < text.len() implies (0 <= #[trigger] text[i] < 128) by {
        if i < z.len() {
            assert(text[i] == z[i]);
        } else {
            assert(text[i] == d[i - z.len()]);
        }
    }
    is_ascii_chars_encode_utf8(text);
    let b = encode_utf8(text);
    assert(b =~= ascii_bytes(z) + ascii_bytes(d));
    assert(digit(b[0]));
}

/// The first separator stands behind a part without one.
pub(crate) proof fn lemma_first_index(a: Seq<u8>, sep: u8, rest: Seq<u8>, from: int)
    requires
        0 <= from <= a.len(),
        forall|i: int| 0 <= i < a.len() ==> #[trigger] a[i] != sep,
    ensures
        first_index(a.push(sep) + rest, from, sep) == Some(a.len() as int),
    decreases a.len() - from,
{
    let b = a.push(sep) + rest;
    if from < a.len() {
        assert(b[from] == a[from]);
        lemma_first_index(a, sep, rest, from + 1);
    } else {
        assert(b[from] == sep);
    }
}

/// A search from an offset on is a search in what follows it.
pub(crate) proof fn lemma_first_index_skip(b: Seq<u8>, from: int, at: int, c: u8)
    requires
        0 <= from <= at <= b.len(),
    ensures
        first_index(b, at, c) == match first_index(b.skip(from), at - from, c) {
            Some(i) => Some(i + from),
            None => None,
        },
    decreases b.len() - at,
{
    if at < b.len() {
        assert(b.skip(from)[at - from] == b[at]);
        lemma_first_index_skip(b, from, at + 1, c);
    }
}

/// Three numbers, written between separators, read as themselves.
proof fn lemma_three_fields(x: Seq<u8>, y: Seq<u8>, z: Seq<u8>, sep: u8)
    requires
        all_digits(x),
        all_digits(y),
        !digit(sep),
        field(x) is Some,
        field(y) is Some,
        field(z) is Some,
    ensures
        three_fields(x.push(sep) + (y.push(sep) + z), sep) == Some(
            (field(x)->0, field(y)->0, field(z)->0),
        ),
{
    let b = x.push(sep) + (y.push(sep) + z);
    assert forall|i: int| 0 <= i < x.len() implies #[trigger] x[i] != sep by {
        assert(digit(x[i]));
    }
    assert forall|i: int| 0 <= i < y.len() implies #[trigger] y[i] != sep by {
        assert(digit(y[i]));
    }
    lemma_first_index(x, sep, y.push(sep) + z, 0);
    let i = x.len() as int;
    assert(b.skip(i + 1) =~= y.push(sep) + z);
    lemma_first_index(y, sep, z, 0);
    lemma_first_index_skip(b, i + 1, i + 1, sep);
    let j = i + 1 + y.len() as int;
    assert(b.subrange(0, i) =~= x);
    assert(b.subrange(i + 1, j) =~= y);
    assert(b.subrange(j + 1, b.len() as int) =~= z);
}

/// A text that neither starts nor ends with white space has none to trim.
pub(crate) proof fn lemma_trimmed(s: Seq<char>)
    requires
        s.len() > 0,
        !white_space(s[0]),
        !white_space(s.last()),
    ensures
        trimmed(s) == s,
{
}

/// A separator between two texts encodes as its byte.
proof fn lemma_encode_sep(a: Seq<char>, sep: char, b: Seq<char>)
    requires
        sep as u32 <= 0x7f,
    ensures
        encode_utf8(a + seq![sep] + b) == encode_utf8(a).push(sep as u8) + encode_utf8(b),
{
    lemma_encode_concat(a + seq![sep], b);
    lemma_encode_concat(a, seq![sep]);
    is_ascii_chars_encode_utf8(seq![sep]);
    assert(encode_utf8(seq![sep]) =~= seq![sep as u8]);
    assert(encode_utf8(a) + seq![sep as u8] =~= encode_utf8(a).push(sep as u8));
}

/// Three written numbers with a separator between them.
spec fn joined_fields(x: Seq<char>, y: Seq<char>, z: Seq<char>, sep: char) -> Seq<char> {
    x + seq![sep] + (y + seq![sep] + z)
}

/// Written numbers read as what was written, and hold nothing but digits and the
/// separator.
proof fn lemma_joined_fields(x: int, wx: int, y: int, z: int, sep: char)
    requires
        0 <= x <= 100_000,
        0 <= y <= 100_000,
        0 <= z <= 100_000,
        0 <= wx <= 4,
        sep == '-' || sep == ':',
    ensures
        ({
            let text = joined_fields(padded(x, wx), padded(y, 2), padded(z, 2), sep);
            let b = encode_utf8(text);
            &&& three_fields(b, sep as u8) == Some((x, y, z))
            &&& forall|i: int| 0 <= i < b.len() ==> #[trigger] b[i] != ' ' as u8
            &&& text.len() > 0
            &&& !white_space(text[0])
            &&& !white_space(text.last())
        }),
{
    let tx = padded(x, wx);
    let ty = padded(y, 2);
    let tz = padded(z, 2);
    lemma_padded(x, wx);
    lemma_padded(y, 2);
    lemma_padded(z, 2);
    let text = joined_fields(tx, ty, tz, sep);
    lemma_encode_sep(tx, sep, ty + seq![sep] + tz);
    lemma_encode_sep(ty, sep, tz);
    let bx = encode_utf8(tx);
    let by = encode_utf8(ty);
    let bz = encode_utf8(tz);
    let b = encode_utf8(text);
    lemma_three_fields(bx, by, bz, sep as u8);
    assert forall|i: int| 0 <= i < b.len() implies #[trigger] b[i] != ' ' as u8 by {
        if i < bx.len() {
            assert(b[i] == bx[i]);
            assert(digit(bx[i]));
        } else if i > bx.len() {
            let k = i - bx.len() - 1;
            if k < by.len() {
                assert(b[i] == by[k]);
                assert(digit(by[k]));
            } else if k > by.len() {
                assert(b[i] == bz[k - by.len() - 1]);
                assert(digit(bz[k - by.len() - 1]));
            }
        }
    }
    is_ascii_chars_encode_utf8(tx);
    is_ascii_chars_encode_utf8(tz);
    assert(digit(bx[0]));
    assert(digit(bz[bz.len() - 1]));
    assert(text[0] == tx[0]);
    assert(text.last() == tz.last());
}

/// A datetime with fields that are not negative reads as what was written.
#[verifier::rlimit(40)]
proof fn lemma_datetime_text(dt: DateTime)
    requires
        dt.valid(),
        0 <= dt.year <= 100_000,
    ensures
        datetime_of(datetime_text(dt)) == Some(dt),
{
    reveal_strlit("-");
    reveal_strlit(":");
    reveal_strlit(" ");
    lemma_joined_fields(dt.year, 4, dt.month, dt.day, '-');
    lemma_joined_fields(dt.hour, 2, dt.minute, dt.second, ':');
    let date = joined_fields(padded(dt.year, 4), padded(dt.month, 2), padded(dt.day, 2), '-');
    let time = joined_fields(padded(dt.hour, 2), padded(dt.minute, 2), padded(dt.second, 2), ':');
    let text = datetime_text(dt);
    assert(text =~= date + seq![' '] + time);
    lemma_encode_sep(date, ' ', time);
    let bd = encode_utf8(date);
    let bt = encode_utf8(time);
    let b = bd.push(' ' as u8) + bt;
    lemma_first_index(bd, ' ' as u8, bt, 0);
    assert(b.subrange(0, bd.len() as int) =~= bd);
    assert(b.subrange((bd.len() + 1) as int, b.len() as int) =~= bt);
    assert(text[0] == date[0]);
    assert(text.last() == time.last());
    lemma_trimmed(text);
}

/// The datetime of a timestamp has the timestamp's seconds.
pub(crate) proof fn lemma_datetime_at(s: int)
    requires
        0 <= s <= 18_446_744_073,
    ensures
        datetime_at(s).valid(),
        0 <= datetime_at(s).year <= 100_000,
        datetime_at(s).days() >= 0,
        datetime_at(s).unix_secs() == s,
{
    let days = s / 86400;
    lemma_date_round_trip(days + EPOCH_JD);
    let dt = datetime_at(s);
    let time = s - 86400 * days;
    let hour = time / 3600;
    let minute = (time - 3600 * hour) / 60;
    let second = time - (time / 60) * 60;
    assert(dt.days() == days);
    assert(time / 60 == hour * 60 + minute);
    assert(dt.hour == hour && dt.minute == minute && dt.second == second);
}

/// Writing a timestamp and reading it back gives the timestamp, as long as its
/// nanoseconds can be counted.
pub proof fn lemma_timestamp_round_trip(secs: u64)
    requires
        secs * 1_000_000_000 <= u64::MAX,
    ensures
        ({
            let text = datetime_text(datetime_at(secs as i64 as int));
            &&& datetime_fits(text)
            &&& datetime_of(text) is Some
            &&& datetime_of(text)->0.unix_secs() == secs
            &&& datetime_ns(text) == Some(secs * 1_000_000_000)
        }),
{
    let s = secs as int;
    assert(secs as i64 as int == s);
    let dt = datetime_at(s);
    lemma_datetime_at(s);
    lemma_datetime_text(dt);
    assert(dt.unix_secs() * 1_000_000_000 == secs * 1_000_000_000);
}

/// Splitting an encoded pair gives the pair, where the first end has no
/// separator in it.
pub proof fn lemma_absolute_round_trip(from: Seq<char>, to: Seq<char>)
    requires
        !from.contains(ABS_SEP),
    ensures
        ends_of(from.push(ABS_SEP) + to) == Some((from, to)),
{
    let text = from.push(ABS_SEP) + to;
    assert(text =~= from + seq!['/'] + to);
    lemma_encode_sep(from, '/', to);
    let a = encode_utf8(from);
    lemma_no_ascii_byte(from, '/');
    lemma_first_index(a, '/' as u8, encode_utf8(to), 0);
    let b = encode_utf8(text);
    assert(b.subrange(0, a.len() as int) =~= a);
    assert(b.subrange((a.len() + 1) as int, b.len() as int) =~= encode_utf8(to));
    encode_utf8_decode_utf8(from);
    encode_utf8_decode_utf8(to);
}

/// A text without an ASCII character does not have its byte either.
pub(crate) proof fn lemma_no_ascii_byte(s: Seq<char>, c: char)
    requires
        !s.contains(c),
        c as u32 <= 0x7f,
    ensures
        forall|i: int| 0 <= i < encode_utf8(s).len() ==> #[trigger] encode_utf8(s)[i] != c as u8,
{
    let b = encode_utf8(s);
    encode_utf8_valid_utf8(s);
    encode_utf8_decode_utf8(s);
    assert forall|i: int| 0 <= i < b.len() implies #[trigger] b[i] != c as u8 by {
        if b[i] == c as u8 {
            is_char_boundary_start_end_of_seq(b);
            lemma_boundary_after_ascii(b, i);
            lemma_text_split(b, 0, i, b.len() as int);
            lemma_text_split(b, i, i + 1, b.len() as int);
            assert(b.subrange(0, b.len() as int) =~= b);
            let one = b.subrange(i, i + 1);
            assert(one =~= seq![c as u8]);
            is_ascii_chars_encode_utf8(seq![c]);
            assert(encode_utf8(seq![c]) =~= one);
            encode_utf8_decode_utf8(seq![c]);
            let head = text_in(b, 0, i);
            assert(s[head.len() as int] == c);
        }
    }
}

/// An absolute range of two datetimes resolves to them, whatever the time is.
pub proof fn lemma_absolute_resolves(from: Seq<char>, to: Seq<char>, now_ns: int)
    requires
        !from.contains(ABS_SEP),
        datetime_ns(from) is Some,
        datetime_ns(to) is Some,
    ensures
        resolved_ns(from.push(ABS_SEP) + to, now_ns) == (datetime_ns(from)->0, datetime_ns(to)->0),
{
    lemma_absolute_round_trip(from, to);
}

/// A relative range ends now and starts no later.
pub proof fn lemma_relative_range(time_range: Seq<char>, now_ns: int)
    requires
        absolute_ns(time_range) is None,
        now_ns >= 0,
    ensures
        resolved_ns(time_range, now_ns).1 == now_ns,
        0 <= resolved_ns(time_range, now_ns).0 <= now_ns,
{
    lemma_range_secs(time_range);
}

proof fn lemma_range_secs(s: Seq<char>)
    ensures
        range_secs(s) is Some ==> range_secs(s)->0 >= 0,
{
    let b = encode_utf8(trimmed(s));
    if range_secs(s) is Some {
        let d = unsigned_part(b.drop_last(), '+' as u8);
        lemma_digits_value_prefix(d, 0);
        assert(d.take(0) =~= seq![]);
        assert(digits_value(d) * unit_secs(b.last())->0 >= 0) by (nonlinear_arith)
            requires
                digits_value(d) >= 0,
                unit_secs(b.last())->0 >= 1,
        ;
    }
}

} // verus!
