//! Timestamps as text: their shape, and that the order of text is that of time.

use crate::numbers::{all_digits, decimal, digit, digits_value, padded, zeros};
use crate::order::{bytes_le, text_le};
use crate::time_range::{
    date_of, datetime_at, datetime_text, lemma_datetime_at, lemma_day_of_month, lemma_day_of_year,
    lemma_padded, DateTime, EPOCH_JD,
};
use vstd::prelude::*;
use vstd::string::*;
use vstd::utf8::*;

verus! {

// ── Order of calendar and clock ──────────────────────────────────────────────

/// Whether a date is before another.
pub open spec fn date_before(a: (int, int, int), b: (int, int, int)) -> bool {
    a.0 < b.0 || (a.0 == b.0 && (a.1 < b.1 || (a.1 == b.1 && a.2 < b.2)))
}

/// Dates have the order of their days.
proof fn lemma_date_order(a: int, b: int)
    requires
        EPOCH_JD <= a < b <= 10_000_000,
    ensures
        date_before(date_of(a), date_of(b)),
{
    let (pa, pb) = (a + 68569, b + 68569);
    let (qa, qb) = ((4 * pa) / 146097, (4 * pb) / 146097);
    let (ra, rb) = (pa - (146097 * qa + 3) / 4, pb - (146097 * qb + 3) / 4);
    assert(0 <= ra <= 36524 && 0 <= rb <= 36524);
    let (ya, yb) = ((4000 * (ra + 1)) / 1461001, (4000 * (rb + 1)) / 1461001);
    lemma_day_of_year(ra, ya);
    lemma_day_of_year(rb, yb);
    let (da, db) = (ra - (1461 * ya) / 4 + 31, rb - (1461 * yb) / 4 + 31);
    let (ma, mb) = ((80 * da) / 2447, (80 * db) / 2447);
    lemma_day_of_month(da, ma, da - (2447 * ma) / 80);
    lemma_day_of_month(db, mb, db - (2447 * mb) / 80);
    let (oa, ob) = (ma / 11, mb / 11);
    assert(date_of(a) == (100 * (qa - 49) + ya + oa, ma + 2 - 12 * oa, da - (2447 * ma) / 80));
    assert(date_of(b) == (100 * (qb - 49) + yb + ob, mb + 2 - 12 * ob, db - (2447 * mb) / 80));
    assert(qa <= qb);
    if qa == qb {
        assert(ra < rb && ya <= yb);
        if ya == yb {
            assert(da < db && ma <= mb);
        }
    }
    // Months counted from a common start
    let (ia, ib) = (12 * (100 * qa + ya) + ma, 12 * (100 * qb + yb) + mb);
    assert(ia < ib || (ia == ib && ma == mb && da < db));
    assert(ia + 2 - 12 * 4900 == 12 * date_of(a).0 + date_of(a).1);
    assert(ib + 2 - 12 * 4900 == 12 * date_of(b).0 + date_of(b).1);
    assert(1 <= date_of(a).1 <= 12 && 1 <= date_of(b).1 <= 12);
}

/// The fields of a datetime, from the greatest to the smallest.
pub open spec fn field_values(dt: DateTime) -> Seq<int> {
    seq![dt.year, dt.month, dt.day, dt.hour, dt.minute, dt.second]
}

/// The first field in which the datetimes of two timestamps differ: the earlier
/// one has the smaller field.
#[verifier::rlimit(40)]
proof fn lemma_first_field(a: int, b: int) -> (f: int)
    requires
        0 <= a < b <= 18_446_744_073,
    ensures
        0 <= f < 6,
        field_values(datetime_at(a))[f] < field_values(datetime_at(b))[f],
        forall|i: int|
            0 <= i < f ==> #[trigger] field_values(datetime_at(a))[i] == field_values(
                datetime_at(b),
            )[i],
{
    let (x, y) = (datetime_at(a), datetime_at(b));
    let (da, db) = (a / 86400, b / 86400);
    lemma_datetime_at(a);
    lemma_datetime_at(b);
    assert(da <= db);
    if da < db {
        lemma_date_order(da + EPOCH_JD, db + EPOCH_JD);
        assert(date_before((x.year, x.month, x.day), (y.year, y.month, y.day)));
        if x.year < y.year {
            0
        } else if x.month < y.month {
            1
        } else {
            2
        }
    } else {
        assert(x.year == y.year && x.month == y.month && x.day == y.day);
        assert(x.unix_secs() < y.unix_secs());
        if x.hour < y.hour {
            3
        } else if x.minute < y.minute {
            4
        } else {
            5
        }
    }
}

// ── Shape ────────────────────────────────────────────────────────────────────

proof fn lemma_zeros_len(n: int)
    ensures
        zeros(n).len() == (if n > 0 {
            n
        } else {
            0
        }),
    decreases n,
{
    if n > 0 {
        lemma_zeros_len(n - 1);
    }
}

proof fn lemma_padded_len(n: int, width: int)
    requires
        0 <= n < 10_000,
        width == 4 || (width == 2 && n < 100),
    ensures
        padded(n, width).len() == width,
{
    reveal_with_fuel(decimal, 4);
    lemma_zeros_len(width - decimal(n as nat).len());
}

/// Where each field starts in a written datetime.
pub open spec fn field_start(f: int) -> int {
    if f == 0 {
        0
    } else {
        2 + 3 * f
    }
}

/// How many digits each field has.
pub open spec fn field_width(f: int) -> int {
    if f == 0 {
        4
    } else {
        2
    }
}

/// Whether the fields of a datetime have no more digits than they are written
/// with.
pub open spec fn four_digit_year(dt: DateTime) -> bool {
    dt.valid() && 0 <= dt.year < 10_000
}

/// The places of separators in a written datetime.
pub open spec fn separator_place(i: int) -> bool {
    i == 4 || i == 7 || i == 10 || i == 13 || i == 16
}

/// Whether a character is a digit.
pub open spec fn digit_character(c: char) -> bool {
    '0' <= c <= '9'
}

/// Whether a text has the separators of a datetime at their places.
pub open spec fn has_separators(text: Seq<char>) -> bool {
    &&& text.len() == 19
    &&& text[4] == '-'
    &&& text[7] == '-'
    &&& text[10] == ' '
    &&& text[13] == ':'
    &&& text[16] == ':'
}

/// The field that a place which is no separator belongs to.
spec fn field_at(i: int) -> int {
    if i < 4 {
        0
    } else {
        (i - 2) / 3
    }
}

/// A field of a datetime as it is written.
spec fn field_text(dt: DateTime, f: int) -> Seq<char> {
    padded(field_values(dt)[f], field_width(f))
}

/// A written datetime: its fields at their places, with separators between them.
proof fn lemma_text_parts(dt: DateTime)
    requires
        four_digit_year(dt),
    ensures
        has_separators(datetime_text(dt)),
        datetime_text(dt).subrange(0, 4) == field_text(dt, 0),
        datetime_text(dt).subrange(5, 7) == field_text(dt, 1),
        datetime_text(dt).subrange(8, 10) == field_text(dt, 2),
        datetime_text(dt).subrange(11, 13) == field_text(dt, 3),
        datetime_text(dt).subrange(14, 16) == field_text(dt, 4),
        datetime_text(dt).subrange(17, 19) == field_text(dt, 5),
{
    reveal_strlit("-");
    reveal_strlit(":");
    reveal_strlit(" ");
    lemma_padded_len(dt.year, 4);
    lemma_padded_len(dt.month, 2);
    lemma_padded_len(dt.day, 2);
    lemma_padded_len(dt.hour, 2);
    lemma_padded_len(dt.minute, 2);
    lemma_padded_len(dt.second, 2);
    let text = datetime_text(dt);
    assert(text.len() == 19);
    assert(text.subrange(0, 4) =~= padded(dt.year, 4));
    assert(text.subrange(5, 7) =~= padded(dt.month, 2));
    assert(text.subrange(8, 10) =~= padded(dt.day, 2));
    assert(text.subrange(11, 13) =~= padded(dt.hour, 2));
    assert(text.subrange(14, 16) =~= padded(dt.minute, 2));
    assert(text.subrange(17, 19) =~= padded(dt.second, 2));
}

proof fn lemma_char_in(text: Seq<char>, parts: Seq<Seq<char>>, i: int)
    requires
        text.len() == 19,
        text.subrange(0, 4) == parts[0],
        text.subrange(5, 7) == parts[1],
        text.subrange(8, 10) == parts[2],
        text.subrange(11, 13) == parts[3],
        text.subrange(14, 16) == parts[4],
        text.subrange(17, 19) == parts[5],
        0 <= i < 19,
        !separator_place(i),
    ensures
        0 <= field_at(i) < 6,
        0 <= i - field_start(field_at(i)) < field_width(field_at(i)),
        text[i] == parts[field_at(i)][i - field_start(field_at(i))],
{
    if i < 4 {
        assert(text.subrange(0, 4)[i] == text[i]);
    } else if i < 7 {
        assert(text.subrange(5, 7)[i - 5] == text[i]);
    } else if i < 10 {
        assert(text.subrange(8, 10)[i - 8] == text[i]);
    } else if i < 13 {
        assert(text.subrange(11, 13)[i - 11] == text[i]);
    } else if i < 16 {
        assert(text.subrange(14, 16)[i - 14] == text[i]);
    } else {
        assert(text.subrange(17, 19)[i - 17] == text[i]);
    }
}

/// The character at a place that is no separator is one of its field.
proof fn lemma_char_at(dt: DateTime, i: int)
    requires
        four_digit_year(dt),
        0 <= i < 19,
        !separator_place(i),
    ensures
        0 <= field_at(i) < 6,
        0 <= i - field_start(field_at(i)) < field_width(field_at(i)),
        datetime_text(dt)[i] == field_text(dt, field_at(i))[i - field_start(field_at(i))],
{
    lemma_text_parts(dt);
    lemma_char_in(datetime_text(dt), Seq::new(6, |f: int| field_text(dt, f)), i);
}

proof fn lemma_field_chars(dt: DateTime, f: int)
    requires
        four_digit_year(dt),
        0 <= f < 6,
    ensures
        field_text(dt, f).len() == field_width(f),
        is_ascii_chars(field_text(dt, f)),
        all_digits(encode_utf8(field_text(dt, f))),
        digits_value(encode_utf8(field_text(dt, f))) == field_values(dt)[f],
        forall|i: int|
            0 <= i < field_text(dt, f).len() ==> digit_character(#[trigger] field_text(dt, f)[i]),
{
    let n = field_values(dt)[f];
    let t = field_text(dt, f);
    assert(f == 0 || f == 1 || f == 2 || f == 3 || f == 4 || f == 5);
    lemma_padded_len(n, field_width(f));
    lemma_padded(n, field_width(f));
    is_ascii_chars_encode_utf8(t);
    assert forall|i: int| 0 <= i < t.len() implies digit_character(#[trigger] t[i]) by {
        assert(digit(encode_utf8(t)[i]));
        assert(t[i] as u8 == encode_utf8(t)[i]);
    }
}

proof fn lemma_text_shape(dt: DateTime)
    requires
        four_digit_year(dt),
    ensures
        has_separators(datetime_text(dt)),
        forall|i: int|
            0 <= i < 19 && !separator_place(i) ==> digit_character(
                #[trigger] datetime_text(dt)[i],
            ),
        is_ascii_chars(datetime_text(dt)),
{
    let text = datetime_text(dt);
    lemma_text_parts(dt);
    assert forall|i: int| 0 <= i < 19 && !separator_place(i) implies digit_character(
        #[trigger] text[i],
    ) by {
        lemma_char_at(dt, i);
        lemma_field_chars(dt, field_at(i));
    }
    assert forall|i: int| 0 <= i < text.len() implies (0 <= #[trigger] text[i] < 128) by {
        if !separator_place(i) {
            assert(digit_character(text[i]));
        }
    }
}

// ── Order of text ────────────────────────────────────────────────────────────

/// Digits of one length that write the same number are the same.
proof fn lemma_same_digits(x: Seq<u8>, y: Seq<u8>)
    requires
        all_digits(x),
        all_digits(y),
        x.len() == y.len(),
        digits_value(x) == digits_value(y),
    ensures
        x == y,
    decreases x.len(),
{
    if x.len() > 0 {
        let (a, b) = (x.drop_last(), y.drop_last());
        assert(digit(x[x.len() - 1]) && digit(y[y.len() - 1]));
        assert forall|i: int| 0 <= i < a.len() implies digit(#[trigger] a[i]) && digit(b[i]) by {
            assert(digit(x[i]) && digit(y[i]));
        }
        assert forall|i: int| 0 <= i < b.len() implies digit(#[trigger] b[i]) by {
            assert(digit(y[i]));
        }
        lemma_same_digits(a, b);
        assert(x =~= a.push(x.last()));
        assert(y =~= b.push(y.last()));
    } else {
        assert(x =~= y);
    }
}

/// Digits of one length that write a smaller number have the smaller digit where
/// they first differ.
proof fn lemma_smaller_digits(x: Seq<u8>, y: Seq<u8>) -> (k: int)
    requires
        all_digits(x),
        all_digits(y),
        x.len() == y.len(),
        digits_value(x) < digits_value(y),
    ensures
        0 <= k < x.len(),
        x[k] < y[k],
        forall|i: int| 0 <= i < k ==> #[trigger] x[i] == y[i],
    decreases x.len(),
{
    let (a, b) = (x.drop_last(), y.drop_last());
    assert(digit(x[x.len() - 1]) && digit(y[y.len() - 1]));
    assert forall|i: int| 0 <= i < a.len() implies digit(#[trigger] a[i]) by {
        assert(digit(x[i]));
    }
    assert forall|i: int| 0 <= i < b.len() implies digit(#[trigger] b[i]) by {
        assert(digit(y[i]));
    }
    if digits_value(a) < digits_value(b) {
        let k = lemma_smaller_digits(a, b);
        assert forall|i: int| 0 <= i < k implies #[trigger] x[i] == y[i] by {
            assert(a[i] == b[i]);
        }
        assert(x[k] == a[k] && y[k] == b[k]);
        k
    } else {
        lemma_same_digits(a, b);
        assert forall|i: int| 0 <= i < x.len() - 1 implies #[trigger] x[i] == y[i] by {
            assert(a[i] == b[i]);
        }
        x.len() - 1
    }
}

/// Bytes with the smaller one where they first differ come first.
proof fn lemma_smaller_bytes(x: Seq<u8>, y: Seq<u8>, k: int)
    requires
        0 <= k < x.len(),
        k < y.len(),
        x[k] < y[k],
        forall|i: int| 0 <= i < k ==> #[trigger] x[i] == y[i],
    ensures
        bytes_le(x, y),
    decreases k,
{
    if k > 0 {
        let (a, b) = (x.drop_first(), y.drop_first());
        assert forall|i: int| 0 <= i < k - 1 implies #[trigger] a[i] == b[i] by {
            assert(x[i + 1] == y[i + 1]);
        }
        assert(x[0] == y[0]);
        lemma_smaller_bytes(a, b, k - 1);
    }
}

/// The place where two written datetimes first differ, in field `f`.
proof fn lemma_first_difference(x: DateTime, y: DateTime, f: int) -> (k: int)
    requires
        four_digit_year(x),
        four_digit_year(y),
        0 <= f < 6,
        field_values(x)[f] < field_values(y)[f],
        forall|i: int| 0 <= i < f ==> #[trigger] field_values(x)[i] == field_values(y)[i],
    ensures
        0 <= k < 19,
        datetime_text(x)[k] < datetime_text(y)[k],
        forall|i: int| 0 <= i < k ==> #[trigger] datetime_text(x)[i] == datetime_text(y)[i],
{
    let (px, py) = (field_text(x, f), field_text(y, f));
    let start = field_start(f);
    lemma_field_chars(x, f);
    lemma_field_chars(y, f);
    is_ascii_chars_encode_utf8(px);
    is_ascii_chars_encode_utf8(py);
    let j = lemma_smaller_digits(encode_utf8(px), encode_utf8(py));
    assert(px[j] as u8 == encode_utf8(px)[j] && py[j] as u8 == encode_utf8(py)[j]);
    assert(digit_character(px[j]) && digit_character(py[j]));
    assert(field_at(start + j) == f && !separator_place(start + j)) by {
        assert(f == 0 || f == 1 || f == 2 || f == 3 || f == 4 || f == 5);
        assert(j < field_width(f));
    }
    lemma_char_at(x, start + j);
    lemma_char_at(y, start + j);
    assert forall|i: int| 0 <= i < start + j implies #[trigger] datetime_text(x)[i]
        == datetime_text(y)[i] by {
        lemma_same_before(x, y, f, j, i);
    }
    start + j
}

/// Where the fields before `f`, and the first `j` characters of `f`, are the same,
/// the texts are the same up to there.
proof fn lemma_same_before(x: DateTime, y: DateTime, f: int, j: int, i: int)
    requires
        four_digit_year(x),
        four_digit_year(y),
        0 <= f < 6,
        0 <= j < field_width(f),
        forall|g: int| 0 <= g < f ==> #[trigger] field_values(x)[g] == field_values(y)[g],
        forall|k: int|
            0 <= k < j ==> #[trigger] encode_utf8(field_text(x, f))[k] == encode_utf8(
                field_text(y, f),
            )[k],
        0 <= i < field_start(f) + j,
    ensures
        datetime_text(x)[i] == datetime_text(y)[i],
{
    if separator_place(i) {
        lemma_text_parts(x);
        lemma_text_parts(y);
    } else {
        lemma_char_at(x, i);
        lemma_char_at(y, i);
        let g = field_at(i);
        let at = i - field_start(g);
        if g < f {
            assert(field_values(x)[g] == field_values(y)[g]);
        } else {
            assert(g == f);
            lemma_field_chars(x, f);
            lemma_field_chars(y, f);
            let (px, py) = (field_text(x, f), field_text(y, f));
            is_ascii_chars_encode_utf8(px);
            is_ascii_chars_encode_utf8(py);
            assert(px[at] as u8 == encode_utf8(px)[at]);
            assert(py[at] as u8 == encode_utf8(py)[at]);
            assert(digit_character(px[at]) && digit_character(py[at]));
        }
    }
}

// ── Laws ─────────────────────────────────────────────────────────────────────

proof fn lemma_four_digits(s: int)
    requires
        0 <= s <= 18_446_744_073,
    ensures
        four_digit_year(datetime_at(s)),
{
    lemma_datetime_at(s);
    let jd = s / 86400 + EPOCH_JD;
    let p = jd + 68569;
    let q = (4 * p) / 146097;
    let r = p - (146097 * q + 3) / 4;
    assert(0 <= r <= 36524);
    let y = (4000 * (r + 1)) / 1461001;
    lemma_day_of_year(r, y);
    let r2 = r - (1461 * y) / 4 + 31;
    let month = (80 * r2) / 2447;
    lemma_day_of_month(r2, month, r2 - (2447 * month) / 80);
    assert(q <= 75);
    assert(datetime_at(s).year == 100 * (q - 49) + y + month / 11);
}

/// A written timestamp has 19 characters, `YYYY-MM-DD HH:MM:SS`, as long as its
/// nanoseconds can be counted.
pub proof fn lemma_timestamp_shape(secs: u64)
    requires
        secs * 1_000_000_000 <= u64::MAX,
    ensures
        ({
            let text = datetime_text(datetime_at(secs as i64 as int));
            &&& has_separators(text)
            &&& forall|i: int|
                0 <= i < 19 && !separator_place(i) ==> digit_character(#[trigger] text[i])
        }),
{
    assert(secs as i64 as int == secs as int);
    lemma_four_digits(secs as int);
    lemma_text_shape(datetime_at(secs as int));
}

/// An earlier timestamp is written as a smaller text.
pub proof fn lemma_timestamp_order(a: u64, b: u64)
    requires
        a < b,
        b * 1_000_000_000 <= u64::MAX,
    ensures
        text_le(
            datetime_text(datetime_at(a as i64 as int)),
            datetime_text(datetime_at(b as i64 as int)),
        ),
        datetime_text(datetime_at(a as i64 as int)) != datetime_text(datetime_at(b as i64 as int)),
{
    assert(a as i64 as int == a as int && b as i64 as int == b as int);
    let (x, y) = (datetime_at(a as int), datetime_at(b as int));
    lemma_four_digits(a as int);
    lemma_four_digits(b as int);
    let f = lemma_first_field(a as int, b as int);
    let k = lemma_first_difference(x, y, f);
    let (tx, ty) = (datetime_text(x), datetime_text(y));
    lemma_text_shape(x);
    lemma_text_shape(y);
    is_ascii_chars_encode_utf8(tx);
    is_ascii_chars_encode_utf8(ty);
    let (bx, by) = (encode_utf8(tx), encode_utf8(ty));
    assert forall|i: int| 0 <= i < k implies #[trigger] bx[i] == by[i] by {
        assert(tx[i] == ty[i]);
    }
    assert(0 <= tx[k] < 128 && 0 <= ty[k] < 128);
    assert(bx[k] < by[k]);
    lemma_smaller_bytes(bx, by, k);
}

} // verus!
