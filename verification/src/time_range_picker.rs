//! The time range picker: a list of presets and two datetime fields that are
//! typed over digit by digit.

use crate::model::{
    Command, LokiState, Model, PickerState, Screen, SeriesState, TempoState,
};
use crate::select::{next_index, next_of, prev_index, prev_of};
use crate::text::{
    lemma_boundary_after_ascii, lemma_encode_concat, substr,
    trimmed,
};
use crate::time_range::{
    datetime_at, datetime_fits, datetime_ns, datetime_text, datetime_utc_fits, encode_absolute,
    format_unix_s_utc, parse_datetime_utc_ns, preset_index, range_resolvable, resolvable,
    resolve_range_s, resolved_ns, ABS_SEP, PRESETS,
};
use vstd::prelude::*;
use vstd::string::*;
use vstd::utf8::*;

verus! {

/// The preset list has the focus.
pub const FOCUS_PRESETS: u8 = 0;

/// The start of an absolute range has the focus.
pub const FOCUS_ABS_FROM: u8 = 1;

/// The end of an absolute range has the focus.
pub const FOCUS_ABS_TO: u8 = 2;

/// What a datetime field holds.
pub const DATETIME_TEMPLATE: &'static str = "YYYY-MM-DD HH:MM:SS";

/// The length of a datetime field.
pub const DATETIME_LEN: usize = 19;

// ── Positions in a field ─────────────────────────────────────────────────────

/// Positions of separators in a datetime, which are not typed over.
pub open spec fn separator(pos: int) -> bool {
    pos == 4 || pos == 7 || pos == 10 || pos == 13 || pos == 16
}

/// The digit after `pos`; the last digit at the end.
pub open spec fn digit_after(pos: int) -> int {
    let next = if separator(pos + 1) {
        pos + 2
    } else {
        pos + 1
    };
    if next < DATETIME_LEN {
        next
    } else {
        DATETIME_LEN - 1
    }
}

/// The digit before `pos`; the first digit at the start.
pub open spec fn digit_before(pos: int) -> int {
    if pos == 0 {
        0
    } else if separator(pos - 1) {
        pos - 2
    } else {
        pos - 1
    }
}

/// Whether a position of a datetime is that of a separator.
pub fn is_separator(pos: usize) -> (r: bool)
    ensures
        r == separator(pos as int),
{
    pos == 4 || pos == 7 || pos == 10 || pos == 13 || pos == 16
}

fn next_digit_pos(pos: usize) -> (r: usize)
    ensures
        r == digit_after(pos as int),
{
    if pos >= DATETIME_LEN - 1 {
        return DATETIME_LEN - 1;
    }
    let p = pos + 1;
    if is_separator(p) {
        p + 1
    } else {
        p
    }
}

fn prev_digit_pos(pos: usize) -> (r: usize)
    ensures
        r == digit_before(pos as int),
{
    if pos == 0 {
        return 0;
    }
    let p = pos - 1;
    if is_separator(p) {
        p - 1
    } else {
        p
    }
}

/// Moves from a digit lead to a digit, and never out of the field.
pub proof fn lemma_moves_to_digits(pos: int)
    requires
        0 <= pos < DATETIME_LEN,
        !separator(pos),
    ensures
        0 <= digit_after(pos) < DATETIME_LEN,
        !separator(digit_after(pos)),
        0 <= digit_before(pos) < DATETIME_LEN,
        !separator(digit_before(pos)),
        pos < DATETIME_LEN - 1 ==> digit_before(digit_after(pos)) == pos,
{
}

// ── Cursor ───────────────────────────────────────────────────────────────────

/// The cursor of the field that has the focus.
pub open spec fn focused_cursor(p: PickerState) -> int {
    if p.focus == FOCUS_ABS_FROM {
        p.from_cursor as int
    } else if p.focus == FOCUS_ABS_TO {
        p.to_cursor as int
    } else {
        0
    }
}

/// The text of the field that has the focus.
pub open spec fn focused_text(p: PickerState) -> Seq<char> {
    if p.focus == FOCUS_ABS_FROM {
        p.abs_from@
    } else {
        p.abs_to@
    }
}

/// Whether one of the two fields has the focus.
pub open spec fn field_focused(p: PickerState) -> bool {
    p.focus == FOCUS_ABS_FROM || p.focus == FOCUS_ABS_TO
}

fn active_cursor(p: &PickerState) -> (r: usize)
    ensures
        r == focused_cursor(*p),
{
    if p.focus == FOCUS_ABS_FROM {
        p.from_cursor
    } else if p.focus == FOCUS_ABS_TO {
        p.to_cursor
    } else {
        0
    }
}

/// `pre` with the cursor of the field that has the focus at `pos`.
pub open spec fn with_cursor(pre: PickerState, pos: int) -> PickerState {
    if pre.focus == FOCUS_ABS_FROM {
        PickerState { from_cursor: pos as usize, ..pre }
    } else if pre.focus == FOCUS_ABS_TO {
        PickerState { to_cursor: pos as usize, ..pre }
    } else {
        pre
    }
}

fn set_cursor(p: &mut PickerState, pos: usize)
    ensures
        *final(p) == with_cursor(*old(p), pos as int),
{
    if p.focus == FOCUS_ABS_FROM {
        p.from_cursor = pos;
    } else if p.focus == FOCUS_ABS_TO {
        p.to_cursor = pos;
    }
}

/// The active cursor position for the given focus, for rendering.
pub fn cursor_for_focus(focus: u8, from_cursor: usize, to_cursor: usize) -> (r: Option<usize>)
    ensures
        r == (if focus == FOCUS_ABS_FROM {
            Some(from_cursor)
        } else if focus == FOCUS_ABS_TO {
            Some(to_cursor)
        } else {
            None
        }),
{
    if focus == FOCUS_ABS_FROM {
        Some(from_cursor)
    } else if focus == FOCUS_ABS_TO {
        Some(to_cursor)
    } else {
        None
    }
}

// ── Opening and closing ──────────────────────────────────────────────────────

/// The current time in seconds, not before 1970.
pub open spec fn now_secs(now_unix_ms: i64) -> int {
    if now_unix_ms < 0 {
        0
    } else {
        now_unix_ms as int / 1000
    }
}

/// Whether the ends of the current range can be counted.
pub open spec fn open_fits(time_range: Seq<char>, now_unix_ms: i64) -> bool {
    resolvable(time_range) && now_secs(now_unix_ms) * 1_000_000_000 <= u64::MAX
}

/// Whether the picker can be opened.
pub fn open_in_range(time_range: &str, now_unix_ms: i64) -> (r: bool)
    ensures
        r == open_fits(time_range@, now_unix_ms),
{
    range_resolvable(time_range) && (now_unix_ms < 0 || now_unix_ms / 1000 <= 18_446_744_073)
}

/// The place of a range among the presets; that of `1h` for any other range.
pub open spec fn preset_place(range: Seq<char>, index: int) -> bool {
    if exists|k: int| 0 <= k < PRESETS@.len() && (#[trigger] PRESETS@[k])@ == range {
        &&& 0 <= index < PRESETS@.len()
        &&& PRESETS@[index]@ == range
        &&& forall|k: int| 0 <= k < index ==> (#[trigger] PRESETS@[k])@ != range
    } else {
        index == 3
    }
}

/// A timestamp as it stands in a field.
pub open spec fn field_text(secs: int) -> Seq<char> {
    datetime_text(datetime_at(secs as u64 as i64 as int))
}

/// The picker is open on its presets, with the current range in the fields.
pub open spec fn picker_opened(pre: Model, post: Model, now_unix_ms: i64) -> bool {
    let now_ns = now_secs(now_unix_ms) * 1_000_000_000;
    let (start, end) = resolved_ns(pre.time_range@, now_ns);
    &&& post == (Model { picker: post.picker, ..pre })
    &&& post.picker.open
    &&& post.picker.focus == FOCUS_PRESETS
    &&& preset_place(pre.time_range@, post.picker.index as int)
    &&& post.picker.abs_from@ == field_text(start / 1_000_000_000)
    &&& post.picker.abs_to@ == field_text(end / 1_000_000_000)
    &&& post.picker.from_cursor == 0
    &&& post.picker.to_cursor == 0
}

pub fn handle_open(model: &mut Model, now_unix_ms: i64) -> (cmd: Command)
    requires
        open_fits(old(model).time_range@, now_unix_ms),
    ensures
        cmd == Command::Render,
        picker_opened(*old(model), *final(model), now_unix_ms),
{
    let index: usize = match preset_index(model.time_range.as_str()) {
        Some(i) => i,
        None => 3,
    };
    let now_s: u64 = if now_unix_ms < 0 {
        0
    } else {
        (now_unix_ms / 1000) as u64
    };
    let (start, end) = resolve_range_s(model.time_range.as_str(), now_s);
    model.picker = PickerState {
        open: true,
        index,
        focus: FOCUS_PRESETS,
        abs_from: format_unix_s_utc(start),
        abs_to: format_unix_s_utc(end),
        from_cursor: 0,
        to_cursor: 0,
    };
    Command::Render
}

pub fn handle_close(model: &mut Model) -> (cmd: Command)
    ensures
        cmd == Command::Render,
        *final(model) == (Model {
            picker: PickerState { open: false, ..old(model).picker },
            ..*old(model)
        }),
{
    model.picker.open = false;
    Command::Render
}

// ── Moving ───────────────────────────────────────────────────────────────────

/// The preset at `index` is selected, where the presets have the focus.
pub open spec fn preset_selected(pre: Model, post: Model, index: int) -> bool {
    if pre.picker.focus != FOCUS_PRESETS {
        post == pre
    } else {
        &&& post == (Model {
            picker: PickerState { index: post.picker.index, ..pre.picker },
            ..pre
        })
        &&& post.picker.index == index
    }
}

pub fn handle_next(model: &mut Model) -> (cmd: Command)
    ensures
        cmd == Command::Render,
        preset_selected(
            *old(model),
            *final(model),
            next_of(old(model).picker.index as int, PRESETS@.len() as int),
        ),
{
    if model.picker.focus == FOCUS_PRESETS {
        model.picker.index = next_index(model.picker.index, PRESETS.len());
    }
    Command::Render
}

pub fn handle_prev(model: &mut Model) -> (cmd: Command)
    ensures
        cmd == Command::Render,
        preset_selected(
            *old(model),
            *final(model),
            prev_of(old(model).picker.index as int, PRESETS@.len() as int),
        ),
{
    if model.picker.focus == FOCUS_PRESETS {
        model.picker.index = prev_index(model.picker.index, PRESETS.len());
    }
    Command::Render
}

/// The focus goes from the presets to From, to To and back. In a field the
/// cursor starts at the first digit.
pub open spec fn focus_toggled(pre: PickerState) -> PickerState {
    let focus = ((pre.focus + 1) % 3) as u8;
    with_cursor(PickerState { focus, ..pre }, 0)
}

pub fn handle_toggle_focus(model: &mut Model) -> (cmd: Command)
    ensures
        cmd == Command::Render,
        *final(model) == (Model { picker: focus_toggled(old(model).picker), ..*old(model) }),
{
    model.picker.focus = (model.picker.focus % 3 + 1) % 3;
    set_cursor(&mut model.picker, 0);
    Command::Render
}

/// The cursor of the focused field stands at `pos`; nothing has changed where
/// the presets have the focus.
pub open spec fn picker_cursor(pre: Model, post: Model, pos: int) -> bool {
    if pre.picker.focus == FOCUS_PRESETS {
        post == pre
    } else {
        post == (Model { picker: with_cursor(pre.picker, pos), ..pre })
    }
}

/// Move the cursor one digit to the left.
pub fn handle_cursor_left(model: &mut Model) -> (cmd: Command)
    ensures
        cmd == Command::Render,
        picker_cursor(
            *old(model),
            *final(model),
            digit_before(focused_cursor(old(model).picker)),
        ),
{
    if model.picker.focus == FOCUS_PRESETS {
        return Command::Render;
    }
    let pos = prev_digit_pos(active_cursor(&model.picker));
    set_cursor(&mut model.picker, pos);
    Command::Render
}

/// Move the cursor one digit to the right.
pub fn handle_cursor_right(model: &mut Model) -> (cmd: Command)
    ensures
        cmd == Command::Render,
        picker_cursor(
            *old(model),
            *final(model),
            digit_after(focused_cursor(old(model).picker)),
        ),
{
    if model.picker.focus == FOCUS_PRESETS {
        return Command::Render;
    }
    let pos = next_digit_pos(active_cursor(&model.picker));
    set_cursor(&mut model.picker, pos);
    Command::Render
}

/// Backspace moves the cursor one digit to the left; the field keeps its length.
pub fn handle_custom_backspace(model: &mut Model) -> (cmd: Command)
    ensures
        cmd == Command::Render,
        picker_cursor(
            *old(model),
            *final(model),
            digit_before(focused_cursor(old(model).picker)),
        ),
{
    if model.picker.focus == FOCUS_PRESETS {
        return Command::Render;
    }
    let pos = prev_digit_pos(active_cursor(&model.picker));
    set_cursor(&mut model.picker, pos);
    Command::Render
}

// ── Typing ───────────────────────────────────────────────────────────────────

/// A field cut, or filled up with `_`, to the length of a datetime.
pub open spec fn fitted(b: Seq<u8>) -> Seq<u8> {
    Seq::new(
        DATETIME_LEN as nat,
        |i: int|
            if i < b.len() {
                b[i]
            } else {
                '_' as u8
            },
    )
}

/// Whether the byte at `cursor` of a field can be typed over: no character is cut
/// in two, there or where the field is cut.
pub open spec fn can_type_over(text: Seq<char>, cursor: int) -> bool {
    let b = encode_utf8(text);
    &&& b.len() > DATETIME_LEN ==> is_char_boundary(b, DATETIME_LEN as int)
    &&& cursor < b.len() ==> b[cursor] < 0x80
}

/// Whether typing `c` changes a field.
pub open spec fn types_over(p: PickerState, c: char) -> bool {
    &&& p.focus != FOCUS_PRESETS
    &&& '0' <= c <= '9'
    &&& focused_cursor(p) < DATETIME_LEN
    &&& !separator(focused_cursor(p))
}

/// Whether `c` can be typed.
pub open spec fn input_fits(p: PickerState, c: char) -> bool {
    types_over(p, c) && field_focused(p) ==> can_type_over(focused_text(p), focused_cursor(p))
}

/// Whether `c` can be typed.
pub fn input_in_range(p: &PickerState, c: char) -> (r: bool)
    ensures
        r == input_fits(*p, c),
{
    if p.focus != FOCUS_ABS_FROM && p.focus != FOCUS_ABS_TO || c < '0' || c > '9' {
        return true;
    }
    let cursor = active_cursor(p);
    if cursor >= DATETIME_LEN || is_separator(cursor) {
        return true;
    }
    let text = if p.focus == FOCUS_ABS_FROM {
        p.abs_from.as_str()
    } else {
        p.abs_to.as_str()
    };
    let b = text.as_bytes();
    proof {
        encode_utf8_valid_utf8(text@);
        if b@.len() > DATETIME_LEN {
            is_char_boundary_iff_not_is_continuation_byte(b@, DATETIME_LEN as int);
        }
    }
    (b.len() <= DATETIME_LEN || b[DATETIME_LEN] < 0x80 || b[DATETIME_LEN] > 0xbf) && (cursor
        >= b.len() || b[cursor] < 0x80)
}

/// A digit stands in the focused field at its cursor, which moves on. Nothing
/// has changed where the presets have the focus, for other characters and at
/// separators.
pub open spec fn typed_over(pre: Model, post: Model, c: char) -> bool {
    if !types_over(pre.picker, c) {
        post == pre
    } else {
        let cursor = focused_cursor(pre.picker);
        let next = with_cursor(pre.picker, digit_after(cursor));
        let bytes = fitted(encode_utf8(focused_text(pre.picker))).update(cursor, c as u8);
        &&& post == (Model {
            picker: PickerState {
                abs_from: post.picker.abs_from,
                abs_to: post.picker.abs_to,
                ..next
            },
            ..pre
        })
        &&& if pre.picker.focus == FOCUS_ABS_FROM {
            encode_utf8(post.picker.abs_from@) == bytes && post.picker.abs_to
                == pre.picker.abs_to
        } else if pre.picker.focus == FOCUS_ABS_TO {
            encode_utf8(post.picker.abs_to@) == bytes && post.picker.abs_from
                == pre.picker.abs_from
        } else {
            post.picker.abs_from == pre.picker.abs_from && post.picker.abs_to
                == pre.picker.abs_to
        }
    }
}

/// Typing never changes a separator: what stands between the digits of a field
/// stays, and the field gets the length of a datetime.
pub proof fn lemma_typing_keeps_separators(pre: Model, post: Model, c: char, i: int)
    requires
        field_focused(pre.picker),
        types_over(pre.picker, c),
        typed_over(pre, post, c),
        0 <= i < DATETIME_LEN,
        separator(i),
    ensures
        encode_utf8(focused_text(post.picker)).len() == DATETIME_LEN,
        i < encode_utf8(focused_text(pre.picker)).len() ==> encode_utf8(
            focused_text(post.picker),
        )[i] == encode_utf8(focused_text(pre.picker))[i],
{
}

/// Fills a field up with `_`, or cuts it, to the length of a datetime.
fn ensure_datetime_len(field: &str) -> (r: String)
    requires
        encode_utf8(field@).len() > DATETIME_LEN ==> is_char_boundary(
            encode_utf8(field@),
            DATETIME_LEN as int,
        ),
    ensures
        encode_utf8(r@) == fitted(encode_utf8(field@)),
{
    let len = field.as_bytes().len();
    let ghost b = field.spec_bytes();
    proof {
        encode_utf8_valid_utf8(field@);
        is_char_boundary_start_end_of_seq(b);
    }
    if len >= DATETIME_LEN {
        let r = substr(field, 0, DATETIME_LEN).to_string();
        assert(encode_utf8(r@) =~= fitted(b));
        return r;
    }
    let mut r = field.to_string();
    let mut n: usize = len;
    while n < DATETIME_LEN
        invariant
            len <= n <= DATETIME_LEN,
            len == b.len(),
            encode_utf8(r@).len() == n,
            forall|i: int|
                0 <= i < n ==> #[trigger] encode_utf8(r@)[i] == (if i < b.len() {
                    b[i]
                } else {
                    '_' as u8
                }),
        decreases DATETIME_LEN - n,
    {
        let ghost before = r@;
        r.push('_');
        proof {
            lemma_encode_concat(before, seq!['_']);
            is_ascii_chars_encode_utf8(seq!['_']);
            assert(before + seq!['_'] =~= before.push('_'));
            assert(encode_utf8(seq!['_']) =~= seq!['_' as u8]);
        }
        n += 1;
    }
    assert(encode_utf8(r@) =~= fitted(b));
    r
}

/// A field with `c` typed over the byte at `cursor`.
fn type_over(field: &str, cursor: usize, c: char) -> (r: String)
    requires
        cursor < DATETIME_LEN,
        c as u32 <= 0x7f,
        can_type_over(field@, cursor as int),
    ensures
        encode_utf8(r@) == fitted(encode_utf8(field@)).update(cursor as int, c as u8),
{
    let full = ensure_datetime_len(field);
    let ghost b = encode_utf8(full@);
    proof {
        encode_utf8_valid_utf8(full@);
        is_char_boundary_start_end_of_seq(b);
        lemma_boundary_after_ascii(b, cursor as int);
    }
    let head = substr(full.as_str(), 0, cursor);
    let tail = substr(full.as_str(), cursor + 1, DATETIME_LEN);
    let mut r = head.to_string();
    r.push(c);
    proof {
        lemma_encode_concat(head@, seq![c]);
        is_ascii_chars_encode_utf8(seq![c]);
        assert(head@ + seq![c] =~= head@.push(c));
        assert(encode_utf8(seq![c]) =~= seq![c as u8]);
        lemma_encode_concat(head@.push(c), tail@);
    }
    r.append(tail);
    assert(encode_utf8(r@) =~= b.update(cursor as int, c as u8));
    r
}

/// Overwrite the digit at the cursor and move on past the next separator.
pub fn handle_custom_input(model: &mut Model, c: char) -> (cmd: Command)
    requires
        input_fits(old(model).picker, c),
    ensures
        cmd == Command::Render,
        typed_over(*old(model), *final(model), c),
{
    if model.picker.focus == FOCUS_PRESETS || c < '0' || c > '9' {
        return Command::Render;
    }
    let cursor = active_cursor(&model.picker);
    if cursor >= DATETIME_LEN || is_separator(cursor) {
        return Command::Render;
    }
    if model.picker.focus == FOCUS_ABS_FROM {
        model.picker.abs_from = type_over(model.picker.abs_from.as_str(), cursor, c);
    } else if model.picker.focus == FOCUS_ABS_TO {
        model.picker.abs_to = type_over(model.picker.abs_to.as_str(), cursor, c);
    }
    set_cursor(&mut model.picker, next_digit_pos(cursor));
    Command::Render
}

// ── Committing ───────────────────────────────────────────────────────────────

/// The selected preset; the last where the place is behind it.
pub open spec fn selected_preset(p: PickerState) -> Seq<char> {
    if p.index < PRESETS@.len() {
        PRESETS@[p.index as int]@
    } else {
        PRESETS@[PRESETS@.len() - 1]@
    }
}

/// The range that the picker stands for: the selected preset, or from a field
/// the two datetimes, where they are valid.
pub open spec fn picked_range(p: PickerState) -> Seq<char> {
    let from = trimmed(p.abs_from@);
    let to = trimmed(p.abs_to@);
    if p.focus == FOCUS_PRESETS || datetime_ns(from) is None || datetime_ns(to) is None {
        selected_preset(p)
    } else {
        from.push(ABS_SEP) + to
    }
}

/// Whether the datetimes that are looked at are near enough to be counted.
pub open spec fn commit_fits(p: PickerState) -> bool {
    let from = trimmed(p.abs_from@);
    p.focus != FOCUS_PRESETS ==> datetime_fits(from) && (datetime_ns(from) is Some
        ==> datetime_fits(trimmed(p.abs_to@)))
}

/// Whether the range can be committed.
pub fn commit_in_range(p: &PickerState) -> (r: bool)
    ensures
        r == commit_fits(*p),
{
    if p.focus == FOCUS_PRESETS {
        return true;
    }
    let from = p.abs_from.as_str().trim();
    if !datetime_utc_fits(from) {
        return false;
    }
    match parse_datetime_utc_ns(from) {
        Some(_) => datetime_utc_fits(p.abs_to.as_str().trim()),
        None => true,
    }
}

fn pick_range(p: &PickerState) -> (r: String)
    requires
        commit_fits(*p),
    ensures
        r@ == picked_range(*p),
{
    if p.focus != FOCUS_PRESETS {
        let from = p.abs_from.as_str().trim();
        let to = p.abs_to.as_str().trim();
        if let Some(_) = parse_datetime_utc_ns(from) {
            if let Some(_) = parse_datetime_utc_ns(to) {
                return encode_absolute(from, to);
            }
        }
    }
    let i = if p.index < PRESETS.len() {
        p.index
    } else {
        PRESETS.len() - 1
    };
    PRESETS[i].to_string()
}

/// The picked range is in force and the picker is closed. What the screen shows
/// is being loaded again.
pub open spec fn range_committed(pre: Model, post: Model) -> bool {
    &&& post == (Model {
        time_range: post.time_range,
        picker: post.picker,
        series: if pre.screen == Screen::PyroscopeMode {
            SeriesState { loading: true, error: None, ..pre.series }
        } else {
            pre.series
        },
        loki: if pre.screen == Screen::LokiMode {
            LokiState { loading: true, error: None, ..pre.loki }
        } else {
            pre.loki
        },
        tempo: if pre.screen == Screen::TempoMode {
            TempoState { loading: true, error: None, ..pre.tempo }
        } else {
            pre.tempo
        },
        ..pre
    })
    &&& post.time_range@ == picked_range(pre.picker)
    &&& !post.picker.open
    &&& post.picker.index == pre.picker.index
    &&& post.picker.focus == FOCUS_PRESETS
    &&& post.picker.abs_from@.len() == 0
    &&& post.picker.abs_to@.len() == 0
    &&& post.picker.from_cursor == 0
    &&& post.picker.to_cursor == 0
}

pub fn handle_commit(model: &mut Model, _now_unix_ms: i64) -> (cmd: Command)
    requires
        commit_fits(old(model).picker),
    ensures
        cmd == Command::Render,
        range_committed(*old(model), *final(model)),
{
    model.time_range = pick_range(&model.picker);
    model.picker = PickerState {
        open: false,
        index: model.picker.index,
        focus: FOCUS_PRESETS,
        abs_from: String::new(),
        abs_to: String::new(),
        from_cursor: 0,
        to_cursor: 0,
    };
    match model.screen {
        Screen::PyroscopeMode => {
            model.series.loading = true;
            model.series.error = None;
        },
        Screen::LokiMode => {
            model.loki.loading = true;
            model.loki.error = None;
        },
        Screen::TempoMode => {
            model.tempo.loading = true;
            model.tempo.error = None;
        },
        _ => {},
    }
    Command::Render
}

} // verus!
