//! How long ranges are, and where datetimes lie.

use crate::numbers::{
    all_digits, ascii_bytes, decimal, digit, digit_char, lemma_decimal, parse_unsigned,
};
use crate::pyroscope::range::profile_range_secs;
use crate::text::white_space;
use crate::time_range::{
    absolute_ns, datetime_of, first_index, julian_day_of, lemma_trimmed, range_secs, resolved_ns,
    PRESETS,
};
use crate::time_range_picker::preset_place;
use vstd::prelude::*;
use vstd::string::*;
use vstd::utf8::*;

verus! {

/// How many seconds a unit has.
pub open spec fn seconds(unit: char) -> int {
    if unit == 's' {
        1
    } else if unit == 'm' {
        60
    } else if unit == 'h' {
        60 * 60int
    } else {
        24 * 60 * 60int
    }
}

/// Whether ranges are counted in a unit.
pub open spec fn range_unit(unit: char) -> bool {
    unit == 's' || unit == 'm' || unit == 'h' || unit == 'd'
}

/// A number and a unit name that many of the unit; profiles are not counted in seconds.
pub proof fn lemma_range_length(n: u64, unit: char)
    requires
        range_unit(unit),
    ensures
        range_secs(decimal(n as nat).push(unit)) == Some(n * seconds(unit)),
        profile_range_secs(decimal(n as nat).push(unit)) == if unit == 's' {
            None
        } else {
            Some(n * seconds(unit))
        },
{
    let d = decimal(n as nat);
    let s = d.push(unit);
    lemma_decimal(n as nat);
    assert(ascii_bytes(d)[0] == d[0] as u8);
    assert(all_digits(ascii_bytes(d)));
    assert('0' <= d[0] <= '9') by {
        assert(digit(ascii_bytes(d)[0]));
        assert('\0' <= d[0] <= '\u{7f}');
    }
    assert(!white_space(d[0]) && !white_space(unit));
    lemma_trimmed(s);
    assert(is_ascii_chars(s));
    is_ascii_chars_encode_utf8(s);
    is_ascii_chars_encode_utf8(d);
    let b = encode_utf8(s);
    assert(b.drop_last() =~= ascii_bytes(d));
    assert(b.last() == unit as u8);
    assert(parse_unsigned(b.drop_last(), u64::MAX as int) == Some(n as int));
}

/// A range that is not understood lasts an hour.
pub proof fn lemma_default_range(time_range: Seq<char>, now_ns: int)
    requires
        absolute_ns(time_range) is None,
        range_secs(time_range) is None,
    ensures
        resolved_ns(time_range, now_ns) == resolved_ns("1h"@, now_ns),
{
    lemma_hour();
    lemma_relative(1, 'h');
}

proof fn lemma_no_separator(b: Seq<u8>, from: int)
    requires
        0 <= from <= b.len(),
        forall|i: int| 0 <= i < b.len() ==> #[trigger] b[i] != '/' as u8,
    ensures
        first_index(b, from, '/' as u8) is None,
    decreases b.len() - from,
{
    if from < b.len() {
        lemma_no_separator(b, from + 1);
    }
}

/// A number and a unit are no absolute range.
proof fn lemma_relative(n: u64, unit: char)
    requires
        range_unit(unit),
    ensures
        absolute_ns(decimal(n as nat).push(unit)) is None,
{
    let d = decimal(n as nat);
    let s = d.push(unit);
    lemma_decimal(n as nat);
    assert(is_ascii_chars(s));
    is_ascii_chars_encode_utf8(s);
    let b = encode_utf8(s);
    assert forall|i: int| 0 <= i < b.len() implies #[trigger] b[i] != '/' as u8 by {
        if i < d.len() {
            assert(s[i] == d[i]);
            assert(digit(ascii_bytes(d)[i]));
        }
    }
    lemma_no_separator(b, 0);
}

proof fn lemma_hour()
    ensures
        range_secs("1h"@) == Some(3600int),
        "1h"@ == decimal(1).push('h'),
{
    reveal_strlit("1h");
    lemma_range_length(1, 'h');
    assert(decimal(1nat) == seq!['1']) by {
        assert(digit_char(1) == '1');
    }
    assert("1h"@ =~= decimal(1nat).push('h'));
}

/// A relative range ends now and lasts as long as it says, but starts no earlier than time.
pub proof fn lemma_relative_length(n: u64, unit: char, now_ns: int)
    requires
        range_unit(unit),
        now_ns >= n * seconds(unit) * 1_000_000_000,
    ensures
        resolved_ns(decimal(n as nat).push(unit), now_ns) == (
            now_ns - n * seconds(unit) * 1_000_000_000,
            now_ns,
        ),
{
    lemma_range_length(n, unit);
    lemma_relative(n, unit);
}

/// The picker stands on the hour where the range is none that it offers.
pub proof fn lemma_default_preset(range: Seq<char>, index: int)
    requires
        preset_place(range, index),
        forall|k: int| 0 <= k < PRESETS@.len() ==> (#[trigger] PRESETS@[k])@ != range,
    ensures
        PRESETS@[index]@ == "1h"@,
{
}

// ── Datetimes ────────────────────────────────────────────────────────────────

/// A datetime that is understood lies in the day that it names, and that day in its year.
pub proof fn lemma_datetime_in_day(s: Seq<char>)
    requires
        datetime_of(s) is Some,
        datetime_of(s)->0.year >= -4700,
    ensures
        ({
            let dt = datetime_of(s)->0;
            &&& dt.days() * 86400 <= dt.unix_secs() < (dt.days() + 1) * 86400
            &&& julian_day_of(dt.year, 1, 1) <= julian_day_of(dt.year, dt.month, dt.day)
                < julian_day_of(dt.year + 1, 1, 1)
        }),
{
    let dt = datetime_of(s)->0;
    assert(dt.valid());
    lemma_day_in_year(dt.year, dt.month, dt.day);
}

proof fn lemma_day_in_year(y: int, m: int, d: int)
    requires
        1 <= m <= 12,
        1 <= d <= 31,
        y >= -4700,
    ensures
        julian_day_of(y, 1, 1) <= julian_day_of(y, m, d) < julian_day_of(y + 1, 1, 1),
{
    let y2 = y + 4800;
    assert((14 - 1) / 12 == 1int);
    assert(y2 - 1 >= 0);
    assert(julian_day_of(y + 1, 1, 1) == 1 + (153 * 10 + 2) / 5 + 365 * y2 + y2 / 4 - y2 / 100 + y2
        / 400 - 32045);
    assert(julian_day_of(y, 1, 1) == 1 + (153 * 10 + 2) / 5 + 365 * (y2 - 1) + (y2 - 1) / 4 - (y2
        - 1) / 100 + (y2 - 1) / 400 - 32045);
    if m <= 2 {
        assert((14 - m) / 12 == 1);
    } else {
        assert((14 - m) / 12 == 0);
    }
}

} // verus!
