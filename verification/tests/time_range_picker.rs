//! The time range picker.

use explore_tui::model::{Model, Screen};
use explore_tui::time_range::PRESETS;
use explore_tui::time_range_picker::{
    handle_close, handle_commit, handle_cursor_left, handle_cursor_right, handle_custom_backspace,
    handle_custom_input, handle_next, handle_open, handle_prev, handle_toggle_focus, is_separator,
    DATETIME_LEN, FOCUS_ABS_FROM, FOCUS_ABS_TO, FOCUS_PRESETS,
};

fn fresh_model() -> Model {
    let mut m = Model::default();
    m.time_range = "1h".to_string();
    m
}

const NOW_MS: i64 = 7_200_000; // 1970-01-01 02:00:00 UTC

#[test]
fn open_pre_fills_from_to() {
    let mut m = fresh_model();
    let _ = handle_open(&mut m, NOW_MS);
    assert_eq!(m.picker.abs_from, "1970-01-01 01:00:00");
    assert_eq!(m.picker.abs_to, "1970-01-01 02:00:00");
    assert_eq!(m.picker.from_cursor, 0);
}

#[test]
fn open_seeds_preset_index_for_relative() {
    let mut m = fresh_model();
    m.time_range = "6h".to_string();
    let _ = handle_open(&mut m, NOW_MS);
    assert_eq!(PRESETS[m.picker.index], "6h");
}

#[test]
fn open_pre_fills_from_to_for_absolute() {
    let mut m = fresh_model();
    m.time_range = "2024-01-15 10:00:00/2024-01-15 14:00:00".to_string();
    let _ = handle_open(&mut m, NOW_MS);
    assert_eq!(m.picker.abs_from, "2024-01-15 10:00:00");
    assert_eq!(m.picker.abs_to, "2024-01-15 14:00:00");
}

#[test]
fn close_does_not_change_range() {
    let mut m = fresh_model();
    let _ = handle_open(&mut m, NOW_MS);
    let _ = handle_close(&mut m);
    assert_eq!(m.time_range, "1h");
    assert!(!m.picker.open);
}

#[test]
fn next_wraps_preset_list() {
    let mut m = fresh_model();
    let _ = handle_open(&mut m, NOW_MS);
    m.picker.index = PRESETS.len() - 1;
    let _ = handle_next(&mut m);
    assert_eq!(m.picker.index, 0);
}

#[test]
fn prev_wraps_preset_list() {
    let mut m = fresh_model();
    let _ = handle_open(&mut m, NOW_MS);
    m.picker.index = 0;
    let _ = handle_prev(&mut m);
    assert_eq!(m.picker.index, PRESETS.len() - 1);
}

#[test]
fn next_ignored_when_on_from_field() {
    let mut m = fresh_model();
    let _ = handle_open(&mut m, NOW_MS);
    m.picker.index = 2;
    m.picker.focus = FOCUS_ABS_FROM;
    let _ = handle_next(&mut m);
    assert_eq!(m.picker.index, 2);
}

#[test]
fn toggle_cycles_three_states() {
    let mut m = fresh_model();
    let _ = handle_open(&mut m, NOW_MS);
    assert_eq!(m.picker.focus, FOCUS_PRESETS);
    let _ = handle_toggle_focus(&mut m);
    assert_eq!(m.picker.focus, FOCUS_ABS_FROM);
    let _ = handle_toggle_focus(&mut m);
    assert_eq!(m.picker.focus, FOCUS_ABS_TO);
    let _ = handle_toggle_focus(&mut m);
    assert_eq!(m.picker.focus, FOCUS_PRESETS);
}

#[test]
fn toggle_resets_cursor_to_zero() {
    let mut m = fresh_model();
    let _ = handle_open(&mut m, NOW_MS);
    m.picker.from_cursor = 5;
    let _ = handle_toggle_focus(&mut m); // → FROM
    assert_eq!(m.picker.from_cursor, 0);
}

#[test]
fn overwrite_digit_in_from_field() {
    let mut m = fresh_model();
    let _ = handle_open(&mut m, NOW_MS); // from = "1970-01-01 01:00:00", cursor=0
    m.picker.focus = FOCUS_ABS_FROM;
    let _ = handle_custom_input(&mut m, '2'); // overwrites '1' at pos 0
    assert!(m.picker.abs_from.starts_with('2'));
}

#[test]
fn cursor_advances_past_separator() {
    // Separator at position 4 ('-'): after overwriting pos 3, cursor should jump to 5.
    let mut m = fresh_model();
    let _ = handle_open(&mut m, NOW_MS);
    m.picker.focus = FOCUS_ABS_FROM;
    m.picker.from_cursor = 3;
    let _ = handle_custom_input(&mut m, '0');
    // pos 3 overwritten, cursor should be at 5 (skipping separator at 4)
    assert_eq!(m.picker.from_cursor, 5);
}

#[test]
fn cursor_left_skips_separator() {
    // Moving left from pos 5 should land at pos 3 (skipping separator at 4)
    let mut m = fresh_model();
    let _ = handle_open(&mut m, NOW_MS);
    m.picker.focus = FOCUS_ABS_FROM;
    m.picker.from_cursor = 5;
    let _ = handle_cursor_left(&mut m);
    assert_eq!(m.picker.from_cursor, 3);
}

#[test]
fn cursor_right_skips_separator() {
    // Moving right from pos 3 should land at pos 5 (skipping separator at 4)
    let mut m = fresh_model();
    let _ = handle_open(&mut m, NOW_MS);
    m.picker.focus = FOCUS_ABS_FROM;
    m.picker.from_cursor = 3;
    let _ = handle_cursor_right(&mut m);
    assert_eq!(m.picker.from_cursor, 5);
}

#[test]
fn cursor_left_clamped_at_zero() {
    let mut m = fresh_model();
    let _ = handle_open(&mut m, NOW_MS);
    m.picker.focus = FOCUS_ABS_FROM;
    m.picker.from_cursor = 0;
    let _ = handle_cursor_left(&mut m);
    assert_eq!(m.picker.from_cursor, 0);
}

#[test]
fn cursor_right_clamped_at_end() {
    let mut m = fresh_model();
    let _ = handle_open(&mut m, NOW_MS);
    m.picker.focus = FOCUS_ABS_FROM;
    m.picker.from_cursor = DATETIME_LEN - 1;
    let _ = handle_cursor_right(&mut m);
    assert_eq!(m.picker.from_cursor, DATETIME_LEN - 1);
}

#[test]
fn backspace_moves_cursor_left() {
    let mut m = fresh_model();
    let _ = handle_open(&mut m, NOW_MS);
    m.picker.focus = FOCUS_ABS_FROM;
    m.picker.from_cursor = 5;
    let _ = handle_custom_backspace(&mut m);
    assert_eq!(m.picker.from_cursor, 3);
}

#[test]
fn non_digit_input_rejected() {
    let mut m = fresh_model();
    let _ = handle_open(&mut m, NOW_MS);
    m.picker.focus = FOCUS_ABS_FROM;
    let before = m.picker.abs_from.clone();
    let _ = handle_custom_input(&mut m, 'x');
    assert_eq!(m.picker.abs_from, before);
}

#[test]
fn commit_preset_stores_relative() {
    let mut m = fresh_model();
    let _ = handle_open(&mut m, NOW_MS);
    m.picker.index = 5; // "6h"
    m.picker.focus = FOCUS_PRESETS;
    let _ = handle_commit(&mut m, NOW_MS);
    assert_eq!(m.time_range, "6h");
}

#[test]
fn commit_from_field_focus_stores_absolute() {
    let mut m = fresh_model();
    let _ = handle_open(&mut m, NOW_MS);
    m.picker.abs_from = "2024-01-15 10:00:00".to_string();
    m.picker.abs_to = "2024-01-15 14:00:00".to_string();
    m.picker.focus = FOCUS_ABS_FROM;
    let _ = handle_commit(&mut m, NOW_MS);
    assert!(m.time_range.contains('/'));
}

#[test]
fn commit_invalid_fields_falls_back_to_preset() {
    let mut m = fresh_model();
    let _ = handle_open(&mut m, NOW_MS);
    m.picker.index = 3; // "1h"
    m.picker.abs_from = "____-__-__ __:__:__".to_string();
    m.picker.abs_to = "2024-01-15 14:00:00".to_string();
    m.picker.focus = FOCUS_ABS_FROM;
    let _ = handle_commit(&mut m, NOW_MS);
    assert_eq!(m.time_range, "1h");
}

#[test]
fn commit_loki_sets_loading() {
    let mut m = fresh_model();
    m.screen = Screen::LokiMode;
    let _ = handle_open(&mut m, NOW_MS);
    let _ = handle_commit(&mut m, NOW_MS);
    assert!(m.loki.loading);
}

#[test]
fn commit_tempo_sets_loading() {
    let mut m = fresh_model();
    m.screen = Screen::TempoMode;
    let _ = handle_open(&mut m, NOW_MS);
    let _ = handle_commit(&mut m, NOW_MS);
    assert!(m.tempo.loading);
}

#[test]
fn is_separator_at_correct_positions() {
    // YYYY-MM-DD HH:MM:SS
    // 0123456789012345678
    //     ^  ^  ^  ^  ^
    assert!(is_separator(4));   // '-'
    assert!(is_separator(7));   // '-'
    assert!(is_separator(10));  // ' '
    assert!(is_separator(13));  // ':'
    assert!(is_separator(16));  // ':'
    assert!(!is_separator(0));
    assert!(!is_separator(5));
    assert!(!is_separator(18));
}

#[test]
fn separator_not_overwritten_by_input() {
    // Cursor at separator position 4 — input should be a no-op.
    let mut m = fresh_model();
    let _ = handle_open(&mut m, NOW_MS);
    m.picker.focus = FOCUS_ABS_FROM;
    m.picker.from_cursor = 4;
    let before = m.picker.abs_from.clone();
    let _ = handle_custom_input(&mut m, '9');
    assert_eq!(m.picker.abs_from, before);
}
