//! The state of the front-ends, action by action.
use glowtail::cli::{matching_lines, print_event};
use glowtail::events::LogEvent;
use glowtail::filter::{CompiledFilter, FilterExpr};
use glowtail::gpui::{
    command_frame, detail_lines, fullest_bucket, input_border, input_display, row_frame,
    source_line, Effects, InputFocus, ListAction, ListApp, ScrollTo,
};
use glowtail::gui::{next_poll_millis, row_shade, WindowAction, WindowApp};
use glowtail::iced::{
    cycle_level, level_label, max_first_row, message_for_key, row_cells, severity_glyph,
    source_counts, Focus, Message, PageKey, PageMode, PagedView,
};
use glowtail::makepad::{header, row_text, LongPage};
use glowtail::model::{
    ByteRange, LogLevel, LogRow, ParsedFields, RowId, SeverityRole, SourceId, ViewportRequest,
};
use glowtail::parser::ParserChoice;
use glowtail::session::InvestigationSession;
use glowtail::startup::{
    apply_filters, failures_message, load_session, loads_files_first, normalise_max_rows,
    parser_from_flags, read_failure, sample_rows, try_apply_filters, ApplyError, LevelArg,
};
use glowtail::tui::{
    draw, handle_key, move_selection_down, move_selection_up, place_view, visible_rows, InputMode,
    TuiColor, TuiKey, TuiState,
};
use glowtail::ui::Rgb;
use glowtail::viewport::Engine;
use std::sync::Arc;

fn row(message: &str, level: Option<LogLevel>) -> LogRow {
    LogRow {
        row_id: RowId(0),
        source_id: SourceId(1),
        byte_range: ByteRange { start: 0, end: 1 },
        timestamp: None,
        level,
        raw: Arc::from(message),
        message: Arc::from(message),
        fields: ParsedFields::default(),
    }
}

fn engine_with(messages: &[&str]) -> Engine {
    let mut engine = Engine::default();
    engine.add_source(SourceId(1), "app.log");
    for message in messages {
        engine.append_row(row(message, None));
    }
    engine
}

fn numbered(count: usize) -> Engine {
    let mut engine = Engine::default();
    for i in 0..count {
        engine.append_row(row(&format!("line {i}"), None));
    }
    engine
}

fn page(engine: Engine, follow: bool) -> PagedView {
    PagedView::start(engine, None, None, None, None, None, follow, &vec![])
}

fn key(page: &mut PagedView, c: char) -> Focus {
    match message_for_key(PageKey::Character(c)) {
        Some(message) => page.update(message),
        None => Focus::Keep,
    }
}

// --- the terminal ---------------------------------------------------------------------------

fn press(engine: &mut Engine, state: &mut TuiState, key: TuiKey) -> bool {
    let total = engine.matching_rows_count();
    place_view(state, 5, total);
    let rows =
        engine.viewport(ViewportRequest { first_row: state.first_row, row_count: 5 }).rows;
    handle_key(engine, state, key, &rows, 5, total, 1_000)
}

fn type_text(engine: &mut Engine, state: &mut TuiState, text: &str) {
    for c in text.chars() {
        press(engine, state, TuiKey::Char(c));
    }
}

#[test]
fn terminal_keys_move_and_follow() {
    let mut engine = numbered(20);
    let mut state = TuiState::new();
    place_view(&mut state, 5, 20);
    assert_eq!((state.first_row, state.selected_offset), (15, 4));
    press(&mut engine, &mut state, TuiKey::Char('k'));
    assert!(!state.follow);
    assert_eq!((state.first_row, state.selected_offset), (15, 3));
    press(&mut engine, &mut state, TuiKey::Char('g'));
    assert_eq!((state.first_row, state.selected_offset), (0, 0));
    press(&mut engine, &mut state, TuiKey::Up);
    assert_eq!((state.first_row, state.selected_offset), (0, 0));
    press(&mut engine, &mut state, TuiKey::Char('G'));
    assert_eq!((state.first_row, state.selected_offset), (15, 4));
    press(&mut engine, &mut state, TuiKey::Down);
    assert_eq!((state.first_row, state.selected_offset), (15, 4));
    press(&mut engine, &mut state, TuiKey::Char('f'));
    assert!(state.follow);
    assert!(press(&mut engine, &mut state, TuiKey::Char('q')));
}

#[test]
fn terminal_selection_scrolls_at_the_edges() {
    let mut state = TuiState { selected_offset: 4, follow: false, ..TuiState::new() };
    move_selection_down(&mut state, 5, 6);
    assert_eq!((state.first_row, state.selected_offset), (1, 4));
    move_selection_down(&mut state, 5, 6);
    assert_eq!((state.first_row, state.selected_offset), (1, 4));
    state.selected_offset = 0;
    move_selection_up(&mut state);
    assert_eq!((state.first_row, state.selected_offset), (0, 0));
}

#[test]
fn terminal_search_and_filter_are_typed_in() {
    let mut engine = engine_with(&["one db", "two", "three db"]);
    let mut state = TuiState::new();
    press(&mut engine, &mut state, TuiKey::Char('g'));
    press(&mut engine, &mut state, TuiKey::Char('/'));
    assert_eq!(state.input_mode, InputMode::Search);
    type_text(&mut engine, &mut state, "dbx");
    press(&mut engine, &mut state, TuiKey::Backspace);
    press(&mut engine, &mut state, TuiKey::Enter);
    assert_eq!(engine.search_results(), vec![RowId(0), RowId(2)]);
    press(&mut engine, &mut state, TuiKey::Char('n'));
    assert_eq!(state.first_row, 2);

    press(&mut engine, &mut state, TuiKey::Char('F'));
    type_text(&mut engine, &mut state, "level = loud");
    press(&mut engine, &mut state, TuiKey::Enter);
    assert_eq!(
        state.status_message,
        Some(("filter error: invalid query: unknown log level".to_string(), 5_000))
    );
    assert_eq!(engine.matching_rows_count(), 3);

    press(&mut engine, &mut state, TuiKey::Char('F'));
    type_text(&mut engine, &mut state, "DB");
    press(&mut engine, &mut state, TuiKey::Enter);
    assert_eq!(engine.matching_rows_count(), 2);

    press(&mut engine, &mut state, TuiKey::Char('F'));
    type_text(&mut engine, &mut state, "gone");
    press(&mut engine, &mut state, TuiKey::Esc);
    assert_eq!(engine.matching_rows_count(), 2);
    assert_eq!(state.input, "");

    press(&mut engine, &mut state, TuiKey::Char('F'));
    press(&mut engine, &mut state, TuiKey::Enter);
    assert_eq!(engine.matching_rows_count(), 3);
}

#[test]
fn terminal_marks_rows_and_folds_traces() {
    let mut engine = engine_with(&["ERROR", "  at x"]);
    let mut state = TuiState::new();
    press(&mut engine, &mut state, TuiKey::Char('g'));
    press(&mut engine, &mut state, TuiKey::Char('b'));
    assert!(engine.session().is_bookmarked(RowId(0)));
    press(&mut engine, &mut state, TuiKey::Char('z'));
    assert_eq!(engine.matching_rows_count(), 1);
    press(&mut engine, &mut state, TuiKey::Char('n'));
    assert_eq!(state.status_message.as_ref().unwrap().0, "no search results");
    let mut empty = Engine::default();
    press(&mut empty, &mut state, TuiKey::Char('b'));
    assert_eq!(state.status_message.as_ref().unwrap().0, "no row to bookmark");
}

#[test]
fn terminal_screen_is_drawn() {
    let mut engine = engine_with(&["boom", "  at x"]);
    engine.toggle_bookmark(RowId(0), None);
    engine.set_stack_trace_folding(true);
    let mut state = TuiState { fold_stacks: true, ..TuiState::new() };
    state.set_status("hello", 0);
    let snapshot = engine.viewport(ViewportRequest { first_row: 0, row_count: 5 });
    let frame = draw(&snapshot, &state);
    assert_eq!(
        frame.status,
        "rows=1/2 warn=0 err=0 follow=true fold=true timeline=0 mode=Normal app.log:1 | hello"
    );
    let pieces: Vec<&str> = frame.lines[0].iter().map(|span| span.text.as_str()).collect();
    assert_eq!(pieces, vec!["> ", "* ", "+1 ", "[app.log] ", "boom"]);
    assert_eq!(frame.lines[0][1].style.fg, Some(TuiColor::Magenta));
    assert!(frame.help.ends_with("| input="));
    assert_eq!(visible_rows(24), 20);
    assert_eq!(visible_rows(3), 0);
}

// --- the paged window -----------------------------------------------------------------------

#[test]
fn pages_move_and_stop_at_the_last_full_page() {
    let mut view = page(numbered(450), false);
    assert_eq!(view.cached_rows.len(), 200);
    view.update(Message::PageDown);
    assert_eq!(view.first_row, 200);
    view.update(Message::PageDown);
    assert_eq!(view.first_row, 250);
    view.update(Message::PageUp);
    assert_eq!(view.first_row, 50);
    view.update(Message::EndPressed);
    assert!(view.follow);
    assert_eq!(view.first_row, 250);
    view.update(Message::HomePressed);
    assert_eq!((view.first_row, view.follow), (0, false));
    assert_eq!(max_first_row(150), 0);
    assert_eq!(view.status_line(), "0–200 of 450 matching / 450 total");
}

#[test]
fn selection_moves_and_scrolls_the_page() {
    let mut view = page(numbered(300), true);
    view.update(Message::SelectionMoveDown);
    assert_eq!(view.selected_row_id, Some(RowId(0)));
    view.update(Message::SelectionMoveDown);
    assert_eq!(view.selected_row_id, Some(RowId(1)));
    assert!(!view.follow);
    view.update(Message::SelectionMoveUp);
    view.update(Message::SelectionMoveUp);
    assert_eq!(view.selected_row_id, Some(RowId(0)));
    view.update(Message::PageDown);
    for _ in 0..205 {
        view.update(Message::SelectionMoveDown);
    }
    assert_eq!(view.selected_row_id, Some(RowId(205)));
    assert_eq!(view.first_row, 6);
}

#[test]
fn shortcuts_wait_while_text_is_typed_in() {
    let mut view = page(numbered(3), false);
    assert_eq!(key(&mut view, '/'), Focus::FilterInput);
    assert_eq!(view.mode, PageMode::Filter);
    assert_eq!(key(&mut view, '?'), Focus::Keep);
    assert_eq!(view.mode, PageMode::Filter);
    key(&mut view, 'j');
    key(&mut view, '5');
    assert_eq!(view.selected_row_id, None);
    assert_eq!(view.level, None);
    view.update(Message::FilterInputChanged("line 2".into()));
    view.update(Message::FilterSubmitted);
    assert_eq!(view.mode, PageMode::Normal);
    assert_eq!(view.total_matching_rows, 1);
    assert_eq!(key(&mut view, '?'), Focus::SearchInput);
    assert!(view.status_line().ends_with("[search mode: ↵ apply, esc cancel]"));
    view.update(Message::EscapePressed);
    assert_eq!(view.mode, PageMode::Normal);
}

#[test]
fn filter_errors_are_shown_and_cleared() {
    let mut view = page(numbered(3), false);
    view.update(Message::FilterInputChanged("level = loud".into()));
    view.update(Message::FilterSubmitted);
    assert_eq!(view.error_message.as_deref(), Some("invalid query: unknown log level"));
    assert!(view.status_line().contains("filter error: invalid query"));
    view.update(Message::FilterInputChanged(String::new()));
    view.update(Message::FilterSubmitted);
    assert_eq!(view.error_message, None);
}

#[test]
fn saved_filters_are_cycled() {
    let mut engine = numbered(3);
    engine.set_filter(FilterExpr::RawContains("2".into())).unwrap();
    engine.save_filter("twos");
    engine.clear_filter();
    let mut view = page(engine, false);
    key(&mut view, 's');
    assert_eq!(view.saved_filter_index, Some(0));
    assert_eq!(view.saved_button(), "saved: twos");
    assert_eq!(view.total_matching_rows, 1);
    assert_eq!(view.status_message.as_deref(), Some("saved filter: twos"));
    key(&mut view, 's');
    assert_eq!(view.saved_filter_index, None);
    assert_eq!(view.total_matching_rows, 3);
    assert_eq!(view.status_message.as_deref(), Some("saved filter: (none)"));
    let mut bare = page(numbered(1), false);
    key(&mut bare, 's');
    assert_eq!(bare.status_message.as_deref(), Some("no saved filters in session"));
}

#[test]
fn levels_search_bookmarks_and_folding() {
    let mut engine = Engine::default();
    engine.append_row(row("WARN db", Some(LogLevel::Warn)));
    engine.append_row(row("INFO db", Some(LogLevel::Info)));
    let mut view = page(engine, false);
    key(&mut view, '4');
    assert_eq!(view.total_matching_rows, 1);
    assert_eq!(view.level_button(), "level: warn");
    key(&mut view, '0');
    assert_eq!(view.total_matching_rows, 2);
    key(&mut view, 'b');
    assert!(view.status_message.as_deref().unwrap().starts_with("select a row first"));
    key(&mut view, 'n');
    assert_eq!(view.status_message.as_deref(), Some("no search matches"));
    view.update(Message::SearchInputChanged("db".into()));
    view.update(Message::SearchSubmitted);
    key(&mut view, 'n');
    assert_eq!(view.selected_row_id, Some(RowId(0)));
    key(&mut view, 'N');
    assert_eq!(view.selected_row_id, Some(RowId(1)));
    key(&mut view, 'b');
    assert!(view.cached_rows[1].is_bookmarked);
    key(&mut view, 'z');
    assert!(view.fold_stacks);
    assert_eq!(view.follow_button(), "follow: off");
}

#[test]
fn levels_cycle_through_seven_states() {
    let mut level = None;
    let mut labels = Vec::new();
    for _ in 0..7 {
        labels.push(level_label(level));
        level = cycle_level(level);
    }
    assert_eq!(level, None);
    assert_eq!(labels, vec!["all", "trace", "debug", "info", "warn", "error", "fatal"]);
}

#[test]
fn ticks_take_rows_in_and_follow_them() {
    let mut view = page(numbered(250), true);
    let rows: Vec<LogRow> = (0..10).map(|i| row(&format!("new {i}"), None)).collect();
    view.update(Message::Tick(vec![
        LogEvent::SourceAdded { source_id: SourceId(1), path: "x.log".into() },
        LogEvent::RowsAppended(rows),
        LogEvent::RowAppended(row("one more", None)),
        LogEvent::SourceError { source_id: SourceId(1), message: "broken".into() },
    ]));
    assert_eq!((view.total_rows, view.total_matching_rows), (261, 261));
    assert_eq!(view.first_row, 61);
    assert_eq!(view.cached_rows[199].row_id, RowId(260));
    assert_eq!(view.status_message.as_deref(), Some("broken"));
    assert_eq!(view.cached_sources[0].name.as_ref(), "x.log");
    view.update(Message::FollowToggled);
    view.update(Message::Tick(vec![]));
    assert!(!view.follow);
}

#[test]
fn the_page_starts_with_its_flags() {
    let view = PagedView::start(
        numbered(5),
        Some(0),
        Some("line 4".into()),
        Some(LevelArg::Warn),
        Some("missing".into()),
        None,
        true,
        &vec!["failed to read a: no".into(), "failed to read b: no".into()],
    );
    assert_eq!(view.error_message.as_deref(), Some("saved filter not found: missing"));
    assert_eq!(
        view.status_message.as_deref(),
        Some("failed to read a: no; failed to read b: no")
    );
    assert_eq!(view.total_matching_rows, 5);
    assert_eq!(view.filter_text, "line 4");
    let limited =
        PagedView::start(numbered(5), Some(2), None, None, None, None, false, &vec![]);
    assert_eq!(limited.total_rows, 2);
}

#[test]
fn page_rows_have_cells_and_details() {
    let rows = sample_rows(1);
    let cells = row_cells(&rows[0]);
    let texts: Vec<&str> = cells.iter().map(|cell| cell.text.as_str()).collect();
    assert_eq!(texts[0], "■");
    assert_eq!(texts[1], "[source-1]");
    assert_eq!(cells[0].colour, Rgb { red: 0xff, green: 0x6b, blue: 0x6b });
    assert_eq!(severity_glyph(SeverityRole::Warn), "▲");
    assert_eq!(severity_glyph(SeverityRole::Trace), "·");
    assert_eq!(severity_glyph(SeverityRole::Unknown), " ");

    let mut engine = Engine::default();
    let mut with_field = row("m", None);
    with_field.fields.insert("k", "v");
    engine.append_row(with_field);
    let mut view = page(engine, false);
    assert!(view.detail_fields().is_empty());
    key(&mut view, 'j');
    assert_eq!(view.detail_fields()[0].1.as_ref(), "v");
    assert_eq!(source_counts(&view.cached_sources[0]), vec!["1 rows", "0W", "0E"]);
}

// --- the list window ------------------------------------------------------------------------

fn list(engine: Engine, live: bool) -> ListApp {
    ListApp::new(engine, live, None, None, None, None)
}

fn quiet() -> Effects {
    Effects { scroll: None, refresh: false, save: false, quit: false }
}

#[test]
fn list_scrolls_and_follows() {
    let mut app = list(numbered(100), true);
    let first = app.prepare_frame(vec![], false);
    assert_eq!(first.scroll, Some(ScrollTo::Reveal(99)));
    assert!(!app.pending_initial_scroll);
    assert_eq!(app.handle(ListAction::ScrollUp, 50).scroll, Some(ScrollTo::Top(49)));
    assert!(!app.follow);
    assert_eq!(app.handle(ListAction::PageDown, 90).scroll, Some(ScrollTo::Top(99)));
    assert_eq!(app.handle(ListAction::PageUp, 10).scroll, Some(ScrollTo::Top(0)));
    assert_eq!(app.handle(ListAction::ScrollEnd, 0).scroll, Some(ScrollTo::Reveal(99)));
    assert!(app.follow);
    assert_eq!(app.handle(ListAction::ToggleFollow, 0), quiet());
    assert_eq!(app.handle(ListAction::ScrollHome, 9).scroll, Some(ScrollTo::Top(0)));
    assert_eq!(list(Engine::default(), false).handle(ListAction::ScrollDown, 0), quiet());
}

#[test]
fn list_inputs_take_the_keys() {
    let mut app = list(numbered(30), false);
    app.handle(ListAction::FocusFilterInput, 0);
    assert_eq!(app.input_focus, InputFocus::Filter);
    for c in "line 2".chars() {
        app.handle(ListAction::TypeChar(c), 0);
    }
    assert_eq!(app.handle(ListAction::ScrollDown, 0), quiet());
    assert_eq!(app.handle(ListAction::SelectDown, 0), quiet());
    assert_eq!(app.selected_row_id, None);
    let done = app.handle(ListAction::SubmitInput, 0);
    assert!(done.refresh);
    assert_eq!(app.status_line(), "text filter: line 2");
    assert_eq!(app.item_count, 11);

    app.handle(ListAction::FocusSearchInput, 0);
    app.handle(ListAction::TypeChar('x'), 0);
    app.handle(ListAction::FocusFilterInput, 0);
    assert_eq!(app.search_input.value(), "");
    app.handle(ListAction::TypeChar('9'), 0);
    app.handle(ListAction::BlurInput, 0);
    assert_eq!(app.filter_input.value(), "line 2");
    assert_eq!(app.status_line(), "filter input cancelled");
}

#[test]
fn list_search_jumps_to_the_first_match() {
    let mut app = list(engine_with(&["a", "db", "c db"]), true);
    app.handle(ListAction::FocusSearchInput, 0);
    for c in " db ".chars() {
        app.handle(ListAction::TypeChar(c), 0);
    }
    app.handle(ListAction::TypeChar('x'), 0);
    app.handle(ListAction::InputBackspace, 0);
    let effects = app.handle(ListAction::SubmitInput, 0);
    assert_eq!(effects.scroll, Some(ScrollTo::Reveal(1)));
    assert!(effects.refresh);
    assert_eq!(app.selected_row_id, Some(RowId(1)));
    assert!(!app.follow);
    assert_eq!(app.current_search.as_deref(), Some("db"));
    app.handle(ListAction::NextSearchMatch, 0);
    assert_eq!(app.selected_row_id, Some(RowId(2)));
    app.handle(ListAction::PrevSearchMatch, 0);
    assert_eq!(app.selected_row_id, Some(RowId(1)));
    app.handle(ListAction::ClearSearch, 0);
    assert_eq!(app.handle(ListAction::NextSearchMatch, 0), quiet());
    assert_eq!(app.status_line(), "no search matches");
}

#[test]
fn list_palette_runs_commands() {
    let mut engine = engine_with(&["a", "b"]);
    engine.set_filter(FilterExpr::RawContains("b".into())).unwrap();
    engine.save_filter("bees");
    engine.clear_filter();
    let mut app = list(engine, false);
    app.handle(ListAction::TogglePalette, 0);
    assert!(app.palette_open);
    assert_eq!(app.palette_commands().len(), 8);
    for _ in 0..6 {
        app.handle(ListAction::SelectDown, 0);
    }
    let effects = app.handle(ListAction::SubmitInput, 0);
    assert!(effects.refresh);
    assert!(!app.palette_open);
    assert_eq!(app.current_use_filter.as_deref(), Some("bees"));
    assert_eq!(app.saved_filter_cycle_idx, Some(0));
    assert_eq!(app.item_count, 1);
    app.handle(ListAction::CycleSavedFilter, 0);
    assert_eq!(app.status_line(), "saved filter cleared");
    assert_eq!(app.item_count, 2);

    app.handle(ListAction::TogglePalette, 0);
    app.handle(ListAction::ScrollDown, 0);
    app.handle(ListAction::ScrollDown, 0);
    app.handle(ListAction::ScrollUp, 0);
    assert_eq!(app.palette_cursor, 1);
    app.handle(ListAction::SelectPageDown, 0);
    assert_eq!(app.palette_cursor, 7);
    assert!(app.handle(ListAction::SubmitInput, 0).quit);
    app.handle(ListAction::TogglePalette, 0);
    app.handle(ListAction::BlurInput, 0);
    assert!(!app.palette_open);
}

#[test]
fn list_selection_marks_rows() {
    let mut app = list(numbered(3), true);
    assert_eq!(app.handle(ListAction::ToggleBookmark, 0), quiet());
    assert_eq!(app.status_line(), "select a row first (press j/k)");
    let effects = app.handle(ListAction::SelectUp, 0);
    assert_eq!(effects.scroll, Some(ScrollTo::Reveal(2)));
    assert!(app.handle(ListAction::ToggleBookmark, 0).save);
    assert_eq!(app.status_line(), "bookmarked row 2");
    app.handle(ListAction::ToggleBookmark, 0);
    assert_eq!(app.status_line(), "removed bookmark on row 2");
    assert_eq!(app.selected_position(), Some(2));
    assert_eq!(app.detail_row().unwrap().row_id, RowId(2));
    let lines = detail_lines(&app.detail_row().unwrap());
    assert_eq!((lines[0].name.as_str(), lines[0].value.as_str()), ("row", "2"));
    app.handle(ListAction::SetLevel(Some(LevelArg::Error)), 0);
    assert_eq!(app.status_line(), "level filter: error");
    assert_eq!(app.item_count, 0);
    app.handle(ListAction::SelectDown, 0);
    assert_eq!(app.selected_row_id, None);
    app.handle(ListAction::SetLevel(None), 0);
    assert_eq!(app.status_line(), "level filter cleared");
}

#[test]
fn list_frames_take_events_in() {
    let mut app = list(Engine::default(), true);
    let effects = app.prepare_frame(
        vec![
            LogEvent::RowsAppended(vec![row("a", None), row("b", None)]),
            LogEvent::SourceRotated { source_id: SourceId(3) },
        ],
        false,
    );
    assert!(effects.refresh);
    assert!(!effects.save);
    assert_eq!(effects.scroll, Some(ScrollTo::Reveal(1)));
    assert_eq!(app.status_line(), "source 3 rotated");
    app.prepare_frame(
        vec![LogEvent::SourceError { source_id: SourceId(3), message: "no".into() }],
        true,
    );
    assert_eq!(app.status_line(), "live tail disconnected");
}

#[test]
fn list_top_bar_and_looks() {
    let mut engine = numbered(3);
    engine.set_max_rows(Some(2));
    let mut app = list(engine, false);
    let snapshot = app.engine.metadata_snapshot();
    let values: Vec<String> = app.top_bar(&snapshot).into_iter().map(|m| m.value).collect();
    assert_eq!(values, vec!["2", "2", "0", "0", "static", "—", "off", "—", "0", "—", "—"]);
    assert_eq!(app.truncation_note().as_deref(), Some("truncated: -1"));
    assert_eq!(app.status_line(), "loaded once");
    app.handle(ListAction::FocusFilterInput, 0);
    app.handle(ListAction::TypeChar('q'), 0);
    let bar = app.top_bar(&snapshot);
    assert_eq!((bar[9].label, bar[9].value.as_str()), ("filter", "q▌"));
    assert_eq!(input_display("", false), "—");
    assert_eq!(source_line(&snapshot.source_summaries[0]), "2 rows · 0 warn · 0 error");
    assert_eq!(row_frame(2, false).0, Rgb { red: 0x10, green: 0x16, blue: 0x1d });
    assert_eq!(row_frame(3, false).0, Rgb { red: 0x0d, green: 0x11, blue: 0x17 });
    assert_eq!(command_frame(true).1, Rgb { red: 0x4f, green: 0x9e, blue: 0xe3 });
    assert_eq!(fullest_bucket(&vec![]), 1);
    assert_eq!(input_border(true), Rgb { red: 0x4f, green: 0x9e, blue: 0xe3 });
    assert_eq!(input_border(false), Rgb { red: 0x26, green: 0x31, blue: 0x3b });
}

// --- the window of panels -------------------------------------------------------------------

fn panels(engine: Engine) -> WindowApp {
    WindowApp::new(engine, String::new(), true, true, None)
}

#[test]
fn panels_filter_and_search_as_they_are_typed() {
    let mut app = panels(engine_with(&["a db", "b", "c DB"]));
    app.handle(WindowAction::FilterEdited("db".into()));
    assert_eq!(app.engine.matching_rows_count(), 2);
    app.handle(WindowAction::FilterEdited("level ! x = ".into()));
    app.handle(WindowAction::FilterEdited("level = loud".into()));
    assert_eq!(
        app.status_message.as_deref(),
        Some("filter error: invalid query: unknown log level")
    );
    app.handle(WindowAction::ClearFilter);
    assert_eq!(app.filter_text, "");
    assert_eq!(app.engine.matching_rows_count(), 3);
    app.handle(WindowAction::SearchEdited("db".into()));
    app.handle(WindowAction::NextResult);
    assert_eq!(app.selected_row.as_ref().unwrap().row_id, RowId(0));
    app.handle(WindowAction::NextResult);
    assert_eq!(app.scroll_to_row, Some(2));
    assert!(!app.follow);
    app.handle(WindowAction::PreviousResult);
    assert_eq!(app.selected_row.as_ref().unwrap().row_id, RowId(0));
    app.handle(WindowAction::ClearSearch);
    app.handle(WindowAction::NextResult);
    assert_eq!(app.status_message.as_deref(), Some("no search results"));
    app.engine.set_filter(FilterExpr::RawContains("b".into())).unwrap();
    app.select_row(RowId(9));
    assert_eq!(app.status_message.as_deref(), Some("row 9 is not visible"));
}

#[test]
fn panels_save_filters_and_bookmarks() {
    let mut app = panels(engine_with(&["a", "b"]));
    assert!(!app.handle(WindowAction::SaveFilter));
    assert_eq!(app.status_message.as_deref(), Some("enter a saved filter name"));
    app.handle(WindowAction::SavedNameEdited(" mine ".into()));
    assert!(app.handle(WindowAction::SaveFilter));
    assert_eq!(app.status_message.as_deref(), Some("saved filter mine"));
    app.session_saved(None);
    assert_eq!(app.status_message.as_deref(), Some("session saved"));
    app.handle(WindowAction::ApplySaved("mine".into()));
    assert_eq!(app.status_message.as_deref(), Some("applied filter mine"));
    app.handle(WindowAction::ApplySaved("yours".into()));
    assert_eq!(app.status_message.as_deref(), Some("saved filter not found: yours"));
    assert!(!app.handle(WindowAction::ToggleBookmark));
    assert_eq!(app.status_message.as_deref(), Some("select a row before bookmarking"));
    let clicked = app.engine.present_row_at(1).unwrap();
    app.handle(WindowAction::RowClicked(clicked));
    assert!(app.handle(WindowAction::ToggleBookmark));
    assert!(app.selected_row.as_ref().unwrap().is_bookmarked);
    app.session_saved(Some("disk full".into()));
    assert_eq!(app.status_message.as_deref(), Some("disk full"));
    assert_eq!(
        app.session_lines(Some("s.json")),
        vec!["1 saved filters", "1 bookmarks", "session s.json"]
    );
}

#[test]
fn panels_run_typed_commands() {
    let mut app = panels(engine_with(&["a", "  at b"]));
    for (command, folded) in [("fold stacks", true), ("unfold stacks", false)] {
        app.handle(WindowAction::OpenPalette);
        app.handle(WindowAction::CommandEdited(format!(" {command} ")));
        assert!(!app.handle(WindowAction::RunCommand));
        assert_eq!(app.fold_stacks, folded);
        assert!(!app.palette_open);
        assert_eq!(app.command_text, "");
    }
    app.handle(WindowAction::CommandEdited("save session".into()));
    assert!(app.handle(WindowAction::RunCommand));
    app.handle(WindowAction::CommandEdited("toggle follow".into()));
    app.handle(WindowAction::RunCommand);
    assert!(!app.follow);
    app.handle(WindowAction::CommandEdited("dance".into()));
    app.handle(WindowAction::RunCommand);
    assert_eq!(app.status_message.as_deref(), Some("unknown command"));
}

#[test]
fn panels_scroll_by_lines_and_pages() {
    let mut app = panels(numbered(100));
    app.note_frame(40, 60);
    app.handle(WindowAction::PageDown);
    assert_eq!((app.scroll_to_row, app.follow), (Some(60), true));
    app.handle(WindowAction::PageUp);
    assert_eq!((app.scroll_to_row, app.follow), (Some(20), false));
    app.handle(WindowAction::LineDown);
    assert_eq!(app.scroll_to_row, Some(41));
    app.handle(WindowAction::Home);
    assert_eq!(app.scroll_to_row, Some(0));
    app.handle(WindowAction::End);
    assert!(app.follow);
    app.drain(vec![LogEvent::RowAppended(row("x", None))], true);
    assert_eq!(app.status_message.as_deref(), Some("live tail disconnected"));
    assert_eq!(app.engine.total_rows(), 101);
    assert_eq!(next_poll_millis(true), 16);
    assert_eq!(row_shade(RowId(3), false), None);
    let texts = app.timeline_texts(&app.engine.metadata_snapshot());
    assert_eq!(texts, vec!["101 matching / 101 total", "warn 0", "error 0"]);
}

// --- the long page --------------------------------------------------------------------------

#[test]
fn the_long_page_shows_lines_and_a_header() {
    let mut view = LongPage::open(
        engine_with(&["boom"]),
        None,
        Some("level = loud".into()),
        None,
        None,
        None,
        true,
        vec!["failed to read x: no".into()],
    );
    assert_eq!(
        view.last_error.as_deref(),
        Some("failed to read x: no; filter error: invalid query: unknown log level")
    );
    view.engine.toggle_bookmark(RowId(0), None);
    let shown = view.engine.present_row_at(0).unwrap();
    assert_eq!(row_text(&shown), "[app.log] boom ★");
    let rows = vec![row("b", None), row("c", None)];
    assert_eq!(
        view.drain(vec![
            LogEvent::RowAppended(row("a", None)),
            LogEvent::RowsAppended(rows),
        ]),
        3
    );
    assert_eq!(
        view.drain(vec![LogEvent::SourceError {
            source_id: SourceId(1),
            message: "lost".into()
        }]),
        0
    );
    assert_eq!(view.last_error.as_deref(), Some("lost"));
    assert_eq!(
        header(&view.engine.metadata_snapshot(), view.follow),
        "rows: 4 • matching: 4 • warn: 0 • error: 0 • sources: 1 • follow"
    );
}

// --- starting and printing ------------------------------------------------------------------

#[test]
fn flags_choose_the_parser_and_the_limit() {
    assert!(matches!(parser_from_flags(true, false), ParserChoice::Json(_)));
    assert!(matches!(parser_from_flags(false, true), ParserChoice::Plain(_)));
    assert!(matches!(parser_from_flags(false, false), ParserChoice::Composite(_)));
    assert_eq!(normalise_max_rows(Some(0)), None);
    assert_eq!(normalise_max_rows(Some(7)), Some(7));
    assert_eq!(normalise_max_rows(None), None);
    assert!(loads_files_first(true, true));
    assert!(loads_files_first(false, false));
    assert!(!loads_files_first(false, true));
    assert_eq!(LogLevel::from(LevelArg::Fatal), LogLevel::Fatal);
    assert_eq!(read_failure("x", "gone"), "failed to read x: gone");
    assert_eq!(failures_message(&vec![]), None);
}

#[test]
fn sessions_are_chosen() {
    let mut kept = InvestigationSession::default();
    kept.save_filter("a", FilterExpr::All);
    let empty = InvestigationSession::default();
    assert_eq!(load_session(None, Some(Ok(kept.clone()))), Ok(empty.clone()));
    assert_eq!(load_session(Some("p"), None), Ok(empty));
    assert_eq!(load_session(Some("p"), Some(Ok(kept.clone()))), Ok(kept));
    assert_eq!(
        load_session(Some("p"), Some(Err("bad json".into()))),
        Err("failed to load session p: bad json".to_string())
    );
}

#[test]
fn filters_are_applied_and_saved() {
    let mut engine = Engine::default();
    apply_filters(&mut engine, None, Some(LevelArg::Warn), None, Some("warnings".into())).unwrap();
    let again =
        apply_filters(&mut engine, Some("db".into()), None, Some("warnings".into()), None).unwrap();
    assert_eq!(
        again,
        FilterExpr::And(vec![
            FilterExpr::LevelAtLeast(LogLevel::Warn),
            FilterExpr::RawContains("db".into()),
        ])
    );
    let missing = apply_filters(&mut engine, None, None, Some("nope".into()), None).unwrap_err();
    assert_eq!(missing, ApplyError::SavedFilterNotFound("nope".into()));
    assert_eq!(missing.message(), "saved filter not found: nope");
    assert_eq!(
        try_apply_filters(&mut engine, Some("level = x".into()), None, None, None).as_deref(),
        Some("invalid query: unknown log level")
    );
}

#[test]
fn sample_rows_are_presented_exactly() {
    let rows = sample_rows(3);
    assert_eq!(rows[0].spans[0].text.as_ref(), "2026-05-27T09:00:00+00:00");
    assert_eq!(rows[1].spans[0].text.as_ref(), "2026-05-27T09:00:00.050+00:00");
    assert_eq!(rows[1].spans[4].text.as_ref(), "synthetic event #1 timeout while contacting db");
    assert_eq!(rows[2].source_id, SourceId(3));
    let fields: Vec<(String, String)> = rows[2]
        .json_fields()
        .iter()
        .map(|(key, value)| (key.to_string(), value.to_string()))
        .collect();
    assert_eq!(fields[0], ("duration_ms".to_string(), "2".to_string()));
    assert_eq!(fields[1], ("request_id".to_string(), "req-2".to_string()));
}

fn load(text: &str) -> Engine {
    let mut engine = Engine::default();
    engine.load_named("x.log", &ParserChoice::composite(), text.as_bytes());
    engine
}

fn printed(engine: &mut Engine, text: Option<&str>, level: Option<LevelArg>) -> Vec<String> {
    let filter = apply_filters(engine, text.map(String::from), level, None, None).unwrap();
    let compiled = CompiledFilter::compile(&filter).unwrap();
    matching_lines(&compiled, engine.rows_snapshot()).iter().map(|line| line.to_string()).collect()
}

#[test]
fn tail_no_follow_prints_only_substring_matching_rows() {
    let mut engine = load(
        "INFO starting up\nWARN disk almost full\nERROR timeout contacting db\nINFO done\n",
    );
    assert_eq!(printed(&mut engine, Some("timeout"), None), vec!["ERROR timeout contacting db"]);
}

#[test]
fn tail_no_follow_with_level_filter_keeps_rows_at_or_above() {
    let mut engine =
        load("INFO starting up\nWARN disk almost full\nERROR timeout\nDEBUG noisy\n");
    assert_eq!(
        printed(&mut engine, None, Some(LevelArg::Warn)),
        vec!["WARN disk almost full", "ERROR timeout"]
    );
}

#[test]
fn followed_rows_are_printed_as_they_come() {
    let mut engine = Engine::default();
    let filter =
        CompiledFilter::compile(&FilterExpr::LevelAtLeast(LogLevel::Warn)).unwrap();
    let out = print_event(
        &mut engine,
        &filter,
        LogEvent::RowsAppended(vec![
            row("WARN a", Some(LogLevel::Warn)),
            row("INFO b", Some(LogLevel::Info)),
        ]),
    );
    assert_eq!(out.lines.len(), 1);
    assert_eq!(out.lines[0].as_ref(), "WARN a");
    assert_eq!(engine.total_rows(), 2);
    let error = print_event(
        &mut engine,
        &filter,
        LogEvent::SourceError { source_id: SourceId(1), message: "gone".into() },
    );
    assert_eq!(error.complaint.as_deref(), Some("source error: gone"));
}
