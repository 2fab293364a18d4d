//! The decisions of the front-ends.
use glowtail::filter::FilterExpr;
use glowtail::gpui::{
    keystroke_to_input_char, next_saved_filter_cycle, next_selected_position, PaletteCommand,
    TextInputState,
};
use glowtail::gui::scroll_target;
use glowtail::model::{LogLevel, SeverityRole, SpanKind};
use glowtail::startup::{apply_filters, sample_rows, LevelArg};
use glowtail::tui::{clamp_view, TuiState, STATUS_MESSAGE_TTL_MILLIS};
use glowtail::viewport::Engine;
use std::collections::BTreeSet;

#[test]
fn cycle_with_no_saved_filters_returns_none() {
    assert_eq!(next_saved_filter_cycle(None, 0), None);
    assert_eq!(next_saved_filter_cycle(Some(0), 0), None);
}

#[test]
fn cycle_from_none_jumps_to_first() {
    assert_eq!(next_saved_filter_cycle(None, 3), Some(0));
}

#[test]
fn cycle_advances_within_range() {
    assert_eq!(next_saved_filter_cycle(Some(0), 3), Some(1));
    assert_eq!(next_saved_filter_cycle(Some(1), 3), Some(2));
}

#[test]
fn cycle_past_last_wraps_to_none() {
    assert_eq!(next_saved_filter_cycle(Some(2), 3), None);
}

#[test]
fn cycle_with_single_saved_filter_toggles_none_and_zero() {
    assert_eq!(next_saved_filter_cycle(None, 1), Some(0));
    assert_eq!(next_saved_filter_cycle(Some(0), 1), None);
}

#[test]
fn text_input_appends_and_backspaces() {
    let mut input = TextInputState::new(None);
    assert_eq!(input.value(), "");
    input.append_char('a');
    input.append_char('b');
    input.append_char('c');
    assert_eq!(input.value(), "abc");
    input.backspace();
    assert_eq!(input.value(), "ab");
}

#[test]
fn text_input_backspace_on_empty_is_noop() {
    let mut input = TextInputState::new(None);
    input.backspace();
    input.backspace();
    assert_eq!(input.value(), "");
}

#[test]
fn text_input_backspace_pops_whole_utf8_char() {
    let mut input = TextInputState::new(Some("café".into()));
    input.backspace();
    assert_eq!(input.value(), "caf");
}

#[test]
fn keystroke_to_input_char_accepts_plain_chars() {
    assert_eq!(keystroke_to_input_char(Some("a"), false, false, false, false), Some('a'));
    assert_eq!(keystroke_to_input_char(Some("A"), false, false, false, false), Some('A'));
    assert_eq!(keystroke_to_input_char(Some("!"), false, false, false, false), Some('!'));
}

#[test]
fn keystroke_to_input_char_rejects_modifier_combos() {
    assert_eq!(keystroke_to_input_char(Some("a"), true, false, false, false), None);
    assert_eq!(keystroke_to_input_char(Some("c"), false, true, false, false), None);
    assert_eq!(keystroke_to_input_char(Some("f"), false, false, true, false), None);
}

#[test]
fn keystroke_to_input_char_rejects_special_and_multi_char_input() {
    assert_eq!(keystroke_to_input_char(None, false, false, false, false), None);
    assert_eq!(keystroke_to_input_char(Some("ab"), false, false, false, false), None);
    assert_eq!(keystroke_to_input_char(Some("\r"), false, false, false, false), None);
}

#[test]
fn selection_empty_view_stays_none() {
    assert_eq!(next_selected_position(None, 1, 0), None);
    assert_eq!(next_selected_position(Some(0), -1, 0), None);
}

#[test]
fn selection_from_none_picks_first_on_down_last_on_up() {
    assert_eq!(next_selected_position(None, 1, 5), Some(0));
    assert_eq!(next_selected_position(None, -1, 5), Some(4));
    assert_eq!(next_selected_position(None, 0, 5), Some(0));
}

#[test]
fn selection_clamps_to_view_edges() {
    assert_eq!(next_selected_position(Some(0), -1, 5), Some(0));
    assert_eq!(next_selected_position(Some(4), 1, 5), Some(4));
    assert_eq!(next_selected_position(Some(2), 100, 5), Some(4));
    assert_eq!(next_selected_position(Some(2), -100, 5), Some(0));
}

#[test]
fn selection_moves_within_range() {
    assert_eq!(next_selected_position(Some(2), 1, 5), Some(3));
    assert_eq!(next_selected_position(Some(2), -1, 5), Some(1));
}

#[test]
fn palette_command_label_includes_saved_filter_name() {
    let cmd = PaletteCommand::ApplySavedFilter("warnings".to_string());
    assert!(cmd.label().contains("warnings"));
}

#[test]
fn palette_command_labels_are_user_facing() {
    assert_eq!(PaletteCommand::ClearFilter.label(), "Clear filter (text and level)");
    assert_eq!(PaletteCommand::ClearSearch.label(), "Clear search");
    assert_eq!(PaletteCommand::Quit.label(), "Quit");
}

#[test]
fn scroll_target_clamps_below_zero() {
    assert_eq!(scroll_target(0, -1, 100), 0);
    assert_eq!(scroll_target(5, -10, 100), 0);
}

#[test]
fn scroll_target_advances_in_range() {
    assert_eq!(scroll_target(50, 10, 100), 60);
}

#[test]
fn scroll_target_clamps_above_last() {
    assert_eq!(scroll_target(99, 10, 100), 99);
    assert_eq!(scroll_target(0, 1_000, 100), 99);
}

#[test]
fn scroll_target_with_empty_list_returns_zero() {
    assert_eq!(scroll_target(0, 0, 0), 0);
    assert_eq!(scroll_target(10, 5, 0), 0);
}

fn state_at(first_row: usize, selected_offset: usize) -> TuiState {
    TuiState { first_row, selected_offset, ..TuiState::default() }
}

#[test]
fn clamp_view_handles_empty_total() {
    let mut state = state_at(7, 4);
    clamp_view(&mut state, 10, 0);
    assert_eq!(state.first_row, 0);
    assert_eq!(state.selected_offset, 0);
}

#[test]
fn clamp_view_caps_selection_to_visible_window() {
    let mut state = state_at(0, 30);
    clamp_view(&mut state, 5, 10);
    assert_eq!(state.first_row, 0);
    assert_eq!(state.selected_offset, 4);
}

#[test]
fn clamp_view_walks_first_row_back_when_past_end() {
    let mut state = state_at(20, 0);
    clamp_view(&mut state, 5, 8);
    assert_eq!(state.first_row, 3);
    assert_eq!(state.selected_offset, 0);
}

#[test]
fn set_status_then_expire_after_ttl_clears_message() {
    let now = 1_000_000;
    let mut state = TuiState::default();
    state.set_status("filter error: bad", now);
    assert!(state.status_message.is_some());
    state.expire_status_if_due(now + STATUS_MESSAGE_TTL_MILLIS - 1);
    assert!(state.status_message.is_some());

    // The deadline moved into the past.
    if let Some((_, expires_at)) = state.status_message.as_mut() {
        *expires_at = now - 1_000;
    }
    state.expire_status_if_due(now);
    assert!(state.status_message.is_none());
}

#[test]
fn apply_filters_treats_whitespace_only_text_as_no_filter() {
    let baseline = {
        let mut engine = Engine::default();
        apply_filters(&mut engine, None, None, None, None).unwrap()
    };
    assert_eq!(baseline, FilterExpr::All);

    for text in ["", "   ", "\t\n  "] {
        let mut engine = Engine::default();
        let actual = apply_filters(&mut engine, Some(text.into()), None, None, None).unwrap();
        assert_eq!(actual, baseline, "filter text {text:?} should be treated as no filter");
    }
}

#[test]
fn apply_filters_with_non_blank_text_returns_non_trivial_filter() {
    let mut engine = Engine::default();
    let filter = apply_filters(&mut engine, Some("timeout".into()), None, None, None).unwrap();
    assert_ne!(filter, FilterExpr::All);
}

#[test]
fn apply_filters_with_level_only_returns_level_filter() {
    let mut engine = Engine::default();
    let filter = apply_filters(&mut engine, None, Some(LevelArg::Warn), None, None).unwrap();
    assert_eq!(filter, FilterExpr::LevelAtLeast(LogLevel::Warn));
}

#[test]
fn sample_rows_returns_requested_count() {
    let rows = sample_rows(128);
    assert_eq!(rows.len(), 128);
}

#[test]
fn sample_rows_mixes_severity_roles() {
    let rows = sample_rows(60);
    let role_counts =
        rows.iter().map(|row| row.severity_role()).fold([0usize; 7], |mut acc, role| {
            let bucket = match role {
                SeverityRole::Fatal => 0,
                SeverityRole::Error => 1,
                SeverityRole::Warn => 2,
                SeverityRole::Info => 3,
                SeverityRole::Debug => 4,
                SeverityRole::Trace => 5,
                SeverityRole::Unknown => 6,
            };
            acc[bucket] += 1;
            acc
        });
    let non_empty = role_counts.iter().filter(|c| **c > 0).count();
    assert!(non_empty >= 3, "expected at least 3 roles, got {non_empty} ({role_counts:?})");
    assert!(role_counts[1] > 0, "no Error rows (counts: {role_counts:?})");
    assert!(role_counts[2] > 0, "no Warn rows (counts: {role_counts:?})");
    assert!(role_counts[3] > 0, "no Info rows (counts: {role_counts:?})");
}

#[test]
fn sample_rows_emit_json_spans_for_field_rows() {
    let rows = sample_rows(12);
    let json_rows = rows
        .iter()
        .filter(|row| {
            row.spans
                .iter()
                .any(|span| matches!(span.kind, SpanKind::JsonKey | SpanKind::JsonValue))
        })
        .count();
    assert!(json_rows >= 4, "expected at least 4 rows with JSON spans out of 12, got {json_rows}");
}

#[test]
fn sample_rows_spread_across_multiple_sources() {
    let rows = sample_rows(9);
    let sources: BTreeSet<_> = rows.iter().map(|row| row.source_id).collect();
    assert!(sources.len() >= 2, "expected multiple distinct source ids, got {sources:?}");
}
