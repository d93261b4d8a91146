//! Time ranges.

use explore_tui::time_range::{
    display_label, encode_absolute, format_unix_s_utc, parse_datetime_utc_ns, parse_time_range,
    preset_index, resolve_range_ns, split_absolute, start_unix_ms, start_unix_ns, start_unix_s,
    PRESETS,
};

#[test]
fn parse_seconds() {
    assert_eq!(parse_time_range("30s"), Some(30));
    assert_eq!(parse_time_range("1s"), Some(1));
}

#[test]
fn parse_minutes() {
    assert_eq!(parse_time_range("5m"), Some(300));
    assert_eq!(parse_time_range("15m"), Some(900));
    assert_eq!(parse_time_range("30m"), Some(1800));
}

#[test]
fn parse_hours() {
    assert_eq!(parse_time_range("1h"), Some(3600));
    assert_eq!(parse_time_range("6h"), Some(21600));
    assert_eq!(parse_time_range("24h"), Some(86400));
}

#[test]
fn parse_days() {
    assert_eq!(parse_time_range("1d"), Some(86400));
    assert_eq!(parse_time_range("7d"), Some(604800));
    assert_eq!(parse_time_range("30d"), Some(2592000));
}

#[test]
fn parse_invalid() {
    assert_eq!(parse_time_range(""), None);
    assert_eq!(parse_time_range("abc"), None);
    assert_eq!(parse_time_range("1"), None);
    assert_eq!(parse_time_range("1x"), None);
}

#[test]
fn parse_trims_whitespace() {
    assert_eq!(parse_time_range("  1h  "), Some(3600));
}

#[test]
fn start_ns_calculation() {
    let end = 10_000_000_000_000u64;
    assert_eq!(start_unix_ns(end, "1h"), end - 3_600_000_000_000);
    assert_eq!(start_unix_ns(end, "5m"), end - 300_000_000_000);
}

#[test]
fn start_s_calculation() {
    assert_eq!(start_unix_s(7200, "1h"), 3600);
    assert_eq!(start_unix_s(300, "1h"), 0); // saturates
}

#[test]
fn start_ms_calculation() {
    assert_eq!(start_unix_ms(7_200_000, "1h"), 3_600_000);
}

#[test]
fn preset_index_known() {
    assert_eq!(preset_index("5m"), Some(0));
    assert_eq!(preset_index("1h"), Some(3));
    assert_eq!(preset_index("30d"), Some(10));
}

#[test]
fn preset_index_custom() {
    assert_eq!(preset_index("45m"), None);
    assert_eq!(preset_index("4h"), None);
}

#[test]
fn all_presets_parseable() {
    for p in PRESETS {
        assert!(
            parse_time_range(p).is_some(),
            "preset {p:?} should be parseable"
        );
    }
}

#[test]
fn parse_datetime_utc_epoch() {
    assert_eq!(parse_datetime_utc_ns("1970-01-01 00:00:00"), Some(0));
}

#[test]
fn parse_datetime_utc_known() {
    // 2024-01-15 10:00:00 UTC = 1705312800 Unix seconds
    let expected_s: u64 = 1705312800;
    let got = parse_datetime_utc_ns("2024-01-15 10:00:00").unwrap();
    assert_eq!(got / 1_000_000_000, expected_s);
}

#[test]
fn parse_datetime_invalid() {
    assert_eq!(parse_datetime_utc_ns("not-a-date"), None);
    assert_eq!(parse_datetime_utc_ns("2024-13-01 00:00:00"), None); // bad month
    assert_eq!(parse_datetime_utc_ns("2024-01-01 25:00:00"), None); // bad hour
}

#[test]
fn format_unix_roundtrip() {
    let dt = "2024-01-15 10:00:00";
    let ns = parse_datetime_utc_ns(dt).unwrap();
    assert_eq!(format_unix_s_utc(ns / 1_000_000_000), dt);
}

#[test]
fn absolute_range_encode_decode() {
    let from = "2024-01-15 10:00:00";
    let to = "2024-01-15 14:00:00";
    let encoded = encode_absolute(from, to);
    let (got_from, got_to) = split_absolute(&encoded).unwrap();
    assert_eq!(got_from, from);
    assert_eq!(got_to, to);
}

#[test]
fn resolve_range_ns_relative() {
    let now = 7200_000_000_000u64; // 7200s in ns
    let (start, end) = resolve_range_ns("1h", now);
    assert_eq!(end, now);
    assert_eq!(start, now - 3_600_000_000_000);
}

#[test]
fn resolve_range_ns_absolute() {
    let from = "1970-01-01 01:00:00";
    let to = "1970-01-01 02:00:00";
    let encoded = encode_absolute(from, to);
    let (start, end) = resolve_range_ns(&encoded, 0);
    assert_eq!(start, 3600_000_000_000);
    assert_eq!(end, 7200_000_000_000);
}

#[test]
fn display_label_relative() {
    assert_eq!(display_label("1h"), "1h");
}

#[test]
fn display_label_absolute_trims_zero_seconds() {
    let enc = encode_absolute("2024-01-15 10:00:00", "2024-01-15 14:00:00");
    assert_eq!(display_label(&enc), "2024-01-15 10:00 → 2024-01-15 14:00");
}

// ── Laws on values ───────────────────────────────────────────────────────────

#[test]
fn timestamps_read_back() {
    for secs in [0_u64, 59, 86_399, 951_782_400, 1_705_312_800, 4_102_444_799] {
        let text = format_unix_s_utc(secs);
        assert_eq!(parse_datetime_utc_ns(&text), Some(secs * 1_000_000_000));
    }
    assert_eq!(format_unix_s_utc(951_782_400), "2000-02-29 00:00:00");
}

#[test]
fn datetimes_before_1970_are_none() {
    assert_eq!(parse_datetime_utc_ns("1969-12-31 23:59:59"), None);
    assert_eq!(parse_datetime_utc_ns(" 1970-01-01 00:00:01 "), Some(1_000_000_000));
    assert_eq!(parse_datetime_utc_ns("1970-01-01"), None);
    assert_eq!(parse_datetime_utc_ns("1970-1-1 0:0:7"), Some(7_000_000_000));
}

#[test]
fn absolute_range_ignores_the_time() {
    let encoded = encode_absolute("1970-01-01 00:00:01", "1970-01-01 00:00:02");
    for now in [0, 5_000_000_000, u64::MAX] {
        assert_eq!(
            resolve_range_ns(&encoded, now),
            (1_000_000_000, 2_000_000_000)
        );
    }
}

#[test]
fn timestamps_have_one_shape_and_order() {
    let seconds = [0_u64, 1, 59, 3600, 86_399, 86_400, 951_782_399, 951_782_400, 18_446_744_073];
    let texts: Vec<String> = seconds.iter().map(|s| format_unix_s_utc(*s)).collect();
    for text in &texts {
        assert_eq!(text.len(), 19);
        for (i, c) in text.chars().enumerate() {
            match i {
                4 | 7 => assert_eq!(c, '-'),
                10 => assert_eq!(c, ' '),
                13 | 16 => assert_eq!(c, ':'),
                _ => assert!(c.is_ascii_digit()),
            }
        }
    }
    assert!(texts.windows(2).all(|pair| pair[0] < pair[1]));
    assert_eq!(texts[8], "2554-07-21 23:34:33");
}
