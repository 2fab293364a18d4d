//! Rows, parsers, filters, the index, the session and the viewport.
use glowtail::filter::{CompiledFilter, FilterExpr};
use glowtail::index::RowIndex;
use glowtail::model::{
    ByteRange, LogLevel, LogRow, ParsedFields, RowId, RowPresentation, SourceId, SpanKind,
    StyledSpan, ViewportRequest,
};
use glowtail::parser::{CompositeParser, JsonLineParser, LogParser, PlainTextParser};
use glowtail::session::InvestigationSession;
use glowtail::time::Timestamp;
use glowtail::viewport::Engine;
use std::sync::Arc;

fn text_row(message: &str) -> LogRow {
    LogRow {
        row_id: RowId(999),
        source_id: SourceId(1),
        byte_range: ByteRange { start: 0, end: message.len() as u64 },
        timestamp: None,
        level: None,
        raw: Arc::from(message),
        message: Arc::from(message),
        fields: ParsedFields::default(),
    }
}

fn filter_row(message: &str, level: Option<LogLevel>, source: SourceId) -> LogRow {
    LogRow { row_id: RowId(0), source_id: source, level, ..text_row(message) }
}

fn mk_row(id: u64, message: &str, level: Option<LogLevel>) -> LogRow {
    LogRow {
        row_id: RowId(id),
        byte_range: ByteRange { start: id, end: id + 1 },
        level,
        ..text_row(message)
    }
}

fn mk_row_with_source_time(
    id: u64,
    source_id: SourceId,
    timestamp: &str,
    message: &str,
    level: Option<LogLevel>,
) -> LogRow {
    LogRow {
        source_id,
        timestamp: Some(Timestamp::parse(timestamp).unwrap()),
        ..mk_row(id, message, level)
    }
}

#[test]
fn model_represents_plain_text_line() {
    let row = LogRow {
        row_id: RowId(1),
        source_id: SourceId(1),
        byte_range: ByteRange { start: 0, end: 10 },
        timestamp: None,
        level: None,
        raw: Arc::from("hello world"),
        message: Arc::from("hello world"),
        fields: ParsedFields::default(),
    };

    assert_eq!(row.message.as_ref(), "hello world");
    assert!(row.fields.is_empty());
}

#[test]
fn model_represents_error_line() {
    let row = LogRow {
        row_id: RowId(2),
        source_id: SourceId(1),
        byte_range: ByteRange { start: 10, end: 30 },
        timestamp: None,
        level: Some(LogLevel::Error),
        raw: Arc::from("ERROR failed"),
        message: Arc::from("ERROR failed"),
        fields: ParsedFields::default(),
    };
    assert_eq!(row.level, Some(LogLevel::Error));
}

#[test]
fn model_represents_json_line_with_fields() {
    let mut fields = ParsedFields::default();
    fields.insert("service", "billing");
    let row = LogRow {
        row_id: RowId(3),
        source_id: SourceId(1),
        byte_range: ByteRange { start: 30, end: 120 },
        timestamp: None,
        level: Some(LogLevel::Info),
        raw: Arc::from("{}"),
        message: Arc::from("started"),
        fields,
    };

    assert_eq!(row.fields.get("service"), Some("billing"));
}

#[test]
fn model_represents_search_highlight_spans() {
    let presentation = RowPresentation {
        row_id: RowId(4),
        source_id: SourceId(1),
        source_name: None,
        spans: vec![
            StyledSpan {
                kind: SpanKind::Message,
                text: Arc::from("timeout while contacting "),
                byte_range: None,
            },
            StyledSpan {
                kind: SpanKind::SearchMatch,
                text: Arc::from("db"),
                byte_range: Some(25..27),
            },
        ],
        level: Some(LogLevel::Warn),
        is_match: true,
        is_selected: false,
        is_bookmarked: false,
        is_stack_continuation: false,
        folded_stack_rows: 0,
    };

    assert!(presentation.spans.iter().any(|span| span.kind == SpanKind::SearchMatch));
}

#[test]
fn plain_parser_detects_level() {
    let parser = PlainTextParser;
    let row = parser.parse_line(
        SourceId(1),
        RowId(1),
        ByteRange { start: 0, end: 4 },
        "WARN retrying request",
    );
    assert_eq!(row.level, Some(LogLevel::Warn));
}

#[test]
fn json_parser_extracts_known_fields() {
    let parser = JsonLineParser;
    let line = r#"{"timestamp":"2026-05-21T10:15:30Z","level":"ERROR","message":"failed","service":"billing"}"#;
    let row = parser.parse_line(SourceId(1), RowId(1), ByteRange { start: 0, end: 1 }, line);
    assert_eq!(row.level, Some(LogLevel::Error));
    assert_eq!(row.message.as_ref(), "failed");
    assert_eq!(row.fields.get("service"), Some("\"billing\""));
    assert!(row.timestamp.is_some());
}

#[test]
fn composite_falls_back_to_plain_on_invalid_json() {
    let parser = CompositeParser::default();
    let row = parser.parse_line(
        SourceId(1),
        RowId(1),
        ByteRange { start: 0, end: 1 },
        "java.lang.NullPointerException: boom",
    );
    assert_eq!(row.message.as_ref(), "java.lang.NullPointerException: boom");
    assert!(row.level.is_none());
}

#[test]
fn parser_does_not_panic_on_malformed_input() {
    let parser = CompositeParser::default();
    let row = parser.parse_line(
        SourceId(1),
        RowId(1),
        ByteRange { start: 0, end: 1 },
        "{this is not json",
    );
    assert_eq!(row.raw.as_ref(), "{this is not json");
}

#[test]
fn contains_is_case_insensitive() {
    let row = filter_row("Database Timeout", None, SourceId(1));
    let compiled = CompiledFilter::compile(&FilterExpr::Contains("timeout".into())).unwrap();
    assert!(compiled.matches(&row));
}

#[test]
fn regex_compile_reports_errors() {
    let err = CompiledFilter::compile(&FilterExpr::Regex("(".into())).unwrap_err();
    assert!(err.message().contains("invalid regex"));
}

#[test]
fn composite_filters_work() {
    let row = filter_row("ERROR timeout", Some(LogLevel::Error), SourceId(9));
    let expr = FilterExpr::And(vec![
        FilterExpr::LevelAtLeast(LogLevel::Warn),
        FilterExpr::Contains("timeout".into()),
        FilterExpr::Source(SourceId(9)),
    ]);
    let compiled = CompiledFilter::compile(&expr).unwrap();
    assert!(compiled.matches(&row));
}

#[test]
fn append_returns_stable_ids() {
    let mut index = RowIndex::default();
    let a = index.append(text_row("a"));
    let b = index.append(text_row("b"));
    assert_eq!(a, RowId(0));
    assert_eq!(b, RowId(1));
    assert_eq!(index.get(a).map(|r| r.message.as_ref()), Some("a"));
}

#[test]
fn iter_range_returns_subset() {
    let mut index = RowIndex::default();
    for n in 0..5 {
        index.append(text_row(&format!("{n}")));
    }
    let subset = index.iter_range(1, 2);
    assert_eq!(subset.len(), 2);
    assert_eq!(subset[0].message.as_ref(), "1");
    assert_eq!(subset[1].message.as_ref(), "2");
}

#[test]
fn position_of_resolves_canonical_row_ids() {
    let mut index = RowIndex::default();
    let a = index.append(text_row("a"));
    let b = index.append(text_row("b"));
    assert_eq!(index.position_of(a), Some(0));
    assert_eq!(index.position_of(b), Some(1));
    assert_eq!(index.position_of(RowId(999)), None);
}

#[test]
fn evict_oldest_drops_front_and_preserves_row_id_monotonicity() {
    let mut index = RowIndex::default();
    let a = index.append(text_row("a"));
    let b = index.append(text_row("b"));
    let c = index.append(text_row("c"));
    assert_eq!(index.evict_oldest(2), 2);
    assert_eq!(index.evicted_count(), 2);

    assert!(index.position_of(a).is_none());
    assert!(index.position_of(b).is_none());
    assert_eq!(index.position_of(c), Some(0));

    let d = index.append(text_row("d"));
    assert_eq!(d, RowId(3));
    assert_eq!(index.position_of(d), Some(1));
}

#[test]
fn evict_oldest_capped_at_current_row_count() {
    let mut index = RowIndex::default();
    index.append(text_row("a"));
    index.append(text_row("b"));
    assert_eq!(index.evict_oldest(99), 2);
    assert_eq!(index.len(), 0);
    assert_eq!(index.evicted_count(), 2);
}

#[test]
fn records_bounded_filter_history() {
    let mut session = InvestigationSession::default();
    session.record_filter(FilterExpr::Contains("timeout".into()));
    session.record_filter(FilterExpr::Contains("timeout".into()));
    session.record_filter(FilterExpr::LevelAtLeast(LogLevel::Warn));

    assert_eq!(session.filter_history.len(), 2);
}

#[test]
fn toggles_bookmarks_by_row_id() {
    let mut session = InvestigationSession::default();
    assert!(session.toggle_bookmark(RowId(7), Some("interesting".into())));
    assert!(session.is_bookmarked(RowId(7)));
    assert!(!session.toggle_bookmark(RowId(7), None));
    assert!(!session.is_bookmarked(RowId(7)));
}

#[test]
fn viewport_returns_requested_rows_only() {
    let mut engine = Engine::default();
    for i in 0..10 {
        engine.append_row(mk_row(i, &format!("line-{i}"), None));
    }
    let snapshot = engine.viewport(ViewportRequest { first_row: 2, row_count: 3 });
    assert_eq!(snapshot.rows.len(), 3);
    assert_eq!(snapshot.rows[0].row_id.0, 2);
    assert!(snapshot.has_more_before);
    assert!(snapshot.has_more_after);
}

#[test]
fn filter_affects_viewport() {
    let mut engine = Engine::default();
    engine.append_row(mk_row(0, "INFO ok", Some(LogLevel::Info)));
    engine.append_row(mk_row(1, "ERROR failed", Some(LogLevel::Error)));
    engine.set_filter(FilterExpr::LevelAtLeast(LogLevel::Warn)).unwrap();

    let snapshot = engine.viewport(ViewportRequest { first_row: 0, row_count: 10 });
    assert_eq!(snapshot.total_matching_rows, 1);
    assert_eq!(snapshot.rows[0].row_id.0, 1);
}

#[test]
fn search_text_creates_highlight_span() {
    let mut engine = Engine::default();
    engine.append_row(mk_row(0, "timeout while contacting db", Some(LogLevel::Warn)));
    engine.set_search_text(Some("db".into()));
    let snapshot = engine.viewport(ViewportRequest { first_row: 0, row_count: 1 });
    assert!(snapshot.rows[0].spans.iter().any(|span| span.kind == SpanKind::SearchMatch));
}

#[test]
fn row_ids_remain_stable_with_filtering() {
    let mut engine = Engine::default();
    for i in 0..1000 {
        let level = if i % 2 == 0 { Some(LogLevel::Error) } else { Some(LogLevel::Info) };
        engine.append_row(mk_row(i, "line", level));
    }
    engine.set_filter(FilterExpr::LevelEquals(LogLevel::Error)).unwrap();
    let snapshot = engine.viewport(ViewportRequest { first_row: 20, row_count: 20 });
    assert_eq!(snapshot.rows.len(), 20);
    assert_eq!(snapshot.rows[0].row_id.0, 40);
}

#[test]
fn viewport_merges_multiple_sources_by_timestamp() {
    let mut engine = Engine::default();
    engine.add_source(SourceId(1), "one.log");
    engine.add_source(SourceId(2), "two.log");
    engine.append_row(mk_row_with_source_time(
        0,
        SourceId(1),
        "2026-05-21T10:00:02Z",
        "second",
        Some(LogLevel::Info),
    ));
    engine.append_row(mk_row_with_source_time(
        1,
        SourceId(2),
        "2026-05-21T10:00:01Z",
        "first",
        Some(LogLevel::Warn),
    ));

    let snapshot = engine.viewport(ViewportRequest { first_row: 0, row_count: 10 });

    assert_eq!(snapshot.rows[0].row_id, RowId(1));
    assert_eq!(snapshot.rows[0].source_name.as_deref(), Some("two.log"));
    assert_eq!(snapshot.source_summaries.len(), 2);
    assert_eq!(snapshot.level_counts.warn, 1);
    assert!(!snapshot.timeline.is_empty());
}

#[test]
fn bookmarks_and_search_navigation_use_stable_row_ids() {
    let mut engine = Engine::default();
    engine.append_row(mk_row(0, "INFO ok", Some(LogLevel::Info)));
    engine.append_row(mk_row(1, "ERROR timeout", Some(LogLevel::Error)));
    engine.append_row(mk_row(2, "WARN timeout", Some(LogLevel::Warn)));

    assert!(engine.toggle_bookmark(RowId(1), Some("root cause".into())));
    engine.set_search_text(Some("timeout".into()));

    let snapshot = engine.viewport(ViewportRequest { first_row: 0, row_count: 10 });
    assert!(snapshot.rows.iter().any(|row| row.is_bookmarked));
    assert_eq!(engine.next_search_result(None, false), Some(RowId(1)));
    assert_eq!(engine.next_search_result(Some(RowId(1)), false), Some(RowId(2)));
}

#[test]
fn context_around_ignores_active_filter() {
    let mut engine = Engine::default();
    engine.append_row(mk_row(0, "INFO before", Some(LogLevel::Info)));
    engine.append_row(mk_row(1, "ERROR failed", Some(LogLevel::Error)));
    engine.append_row(mk_row(2, "INFO after", Some(LogLevel::Info)));
    engine.set_filter(FilterExpr::LevelEquals(LogLevel::Error)).unwrap();

    let context = engine.context_around(RowId(1), 1, 1);
    assert_eq!(context.rows.len(), 3);
    assert_eq!(context.rows[0].row_id, RowId(0));
    assert_eq!(context.rows[2].row_id, RowId(2));
}

#[test]
fn stack_trace_folding_hides_continuations() {
    let mut engine = Engine::default();
    engine.append_row(mk_row(0, "ERROR failed", Some(LogLevel::Error)));
    engine.append_row(mk_row(1, "    at com.example.Service.run", None));
    engine.append_row(mk_row(2, "INFO recovered", Some(LogLevel::Info)));

    engine.set_stack_trace_folding(true);
    let snapshot = engine.viewport(ViewportRequest { first_row: 0, row_count: 10 });

    assert_eq!(snapshot.rows.len(), 2);
    assert!(!snapshot.rows.iter().any(|row| row.row_id == RowId(1)));
    assert_eq!(snapshot.rows[0].folded_stack_rows, 1);
}

#[test]
fn json_fields_are_presented_as_semantic_spans() {
    let mut engine = Engine::default();
    let mut row = mk_row(0, "started", Some(LogLevel::Info));
    row.fields.insert("service", "billing");
    engine.append_row(row);

    let snapshot = engine.viewport(ViewportRequest { first_row: 0, row_count: 1 });

    assert!(
        snapshot.rows[0]
            .spans
            .iter()
            .any(|span| span.kind == SpanKind::JsonKey && span.text.as_ref() == "service")
    );
}

#[test]
fn viewport_returns_filtered_semantic_rows_without_ui_types() {
    let mut engine = Engine::default();
    for i in 0..1000 {
        let level = if i % 2 == 0 { LogLevel::Error } else { LogLevel::Info };
        let row = LogRow {
            row_id: RowId(i),
            source_id: SourceId(1),
            byte_range: ByteRange { start: i, end: i + 1 },
            timestamp: None,
            level: Some(level),
            raw: Arc::from("line"),
            message: Arc::from("line"),
            fields: ParsedFields::default(),
        };
        engine.append_row(row);
    }

    engine.set_filter(FilterExpr::LevelEquals(LogLevel::Error)).unwrap();
    let snapshot = engine.viewport(ViewportRequest { first_row: 20, row_count: 20 });

    assert_eq!(snapshot.rows.len(), 20);
    assert_eq!(snapshot.rows[0].row_id.0, 40);
}
