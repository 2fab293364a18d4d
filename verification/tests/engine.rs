//! The engine in detail: presentation, search, limits, summaries and the timeline.
use glowtail::filter::FilterExpr;
use glowtail::model::{
    ByteRange, LevelCounts, LogLevel, LogRow, LogSourceKind, ParsedFields, RowId, SeverityRole,
    SourceId, SourceInfo, SpanKind, ViewportRequest,
};
use glowtail::parser::{JsonLineParser, LogParser, ParserChoice, PlainTextParser};
use glowtail::session::{is_readable_version, InvestigationSession, MAX_FILTER_HISTORY};
use glowtail::text::{
    comes_before, contains_ignoring_case, decimal_text, join_all, lowercase, trim,
};
use glowtail::time::{Timestamp, MAX_SECS};
use glowtail::ui::{can_append, leaves_room};
use glowtail::viewport::{choose_hit, Engine};
use std::sync::Arc;

fn row(message: &str, level: Option<LogLevel>) -> LogRow {
    LogRow {
        row_id: RowId(77),
        source_id: SourceId(1),
        byte_range: ByteRange { start: 0, end: 1 },
        timestamp: None,
        level,
        raw: Arc::from(message),
        message: Arc::from(message),
        fields: ParsedFields::default(),
    }
}

fn timed(time: &str, source: u64, level: Option<LogLevel>) -> LogRow {
    LogRow {
        timestamp: Some(Timestamp::parse(time).unwrap()),
        source_id: SourceId(source),
        ..row(time, level)
    }
}

fn window(first_row: usize, row_count: usize) -> ViewportRequest {
    ViewportRequest { first_row, row_count }
}

fn listed(engine: &Engine) -> Vec<u64> {
    engine.viewport(window(0, 100)).rows.iter().map(|row| row.row_id.0).collect()
}

#[test]
fn a_row_is_laid_out_in_spans() {
    let mut engine = Engine::default();
    let mut full = timed("2026-05-21T10:15:30.5Z", 1, Some(LogLevel::Error));
    full.message = Arc::from("a Timeout here");
    full.fields.insert("zone", "eu");
    full.fields.insert("code", "7");
    engine.append_row(full);
    engine.set_search_text(Some("timeOUT".into()));
    let shown = engine.viewport(window(0, 1)).rows.remove(0);
    let spans: Vec<(SpanKind, &str)> =
        shown.spans.iter().map(|span| (span.kind, span.text.as_ref())).collect();
    assert_eq!(
        spans,
        vec![
            (SpanKind::Timestamp, "2026-05-21T10:15:30.500+00:00"),
            (SpanKind::Message, " "),
            (SpanKind::Error, "Error"),
            (SpanKind::Message, " "),
            (SpanKind::Message, "a "),
            (SpanKind::SearchMatch, "Timeout"),
            (SpanKind::Message, " here"),
            (SpanKind::Message, " {"),
            (SpanKind::JsonKey, "code"),
            (SpanKind::Message, "="),
            (SpanKind::JsonValue, "7"),
            (SpanKind::Message, ", "),
            (SpanKind::JsonKey, "zone"),
            (SpanKind::Message, "="),
            (SpanKind::JsonValue, "eu"),
            (SpanKind::Message, "}"),
        ]
    );
    assert_eq!(shown.spans[5].byte_range, Some(2..9));
    assert!(shown.is_match);
    assert_eq!(shown.severity_role(), SeverityRole::Error);
    let fields: Vec<(String, String)> = shown
        .json_fields()
        .iter()
        .map(|(key, value)| (key.to_string(), value.to_string()))
        .collect();
    assert_eq!(
        fields,
        vec![("code".to_string(), "7".to_string()), ("zone".to_string(), "eu".to_string())]
    );
}

#[test]
fn a_match_is_placed_in_bytes() {
    let mut engine = Engine::default();
    engine.append_row(row("größer TIMEOUT", None));
    engine.set_search_text(Some("timeout".into()));
    let shown = engine.viewport(window(0, 1)).rows.remove(0);
    assert_eq!(shown.spans[1].text.as_ref(), "TIMEOUT");
    assert_eq!(shown.spans[1].byte_range, Some(9..16));
    assert_eq!(shown.spans.len(), 2);
}

#[test]
fn an_empty_search_is_none() {
    let mut engine = Engine::default();
    engine.append_row(row("text", None));
    engine.set_search_text(Some(String::new()));
    assert!(engine.search_results().is_empty());
    let shown = engine.viewport(window(0, 1)).rows.remove(0);
    assert!(!shown.is_match);
    assert_eq!(shown.spans.len(), 1);
}

#[test]
fn rows_without_a_timestamp_come_first_and_ties_keep_their_order() {
    let mut engine = Engine::default();
    engine.append_row(timed("2026-01-01T00:00:02Z", 1, None));
    engine.append_row(row("untimed", None));
    engine.append_row(timed("2026-01-01T00:00:01Z", 1, None));
    engine.append_row(timed("2026-01-01T00:00:02Z", 1, None));
    engine.append_row(row("untimed too", None));
    assert_eq!(listed(&engine), vec![1, 4, 2, 0, 3]);
    assert_eq!(engine.filtered_position_for_row(RowId(2)), Some(2));
    assert_eq!(engine.filtered_position_for_row(RowId(9)), None);
    assert_eq!(engine.present_row_at(3).unwrap().row_id, RowId(0));
    assert!(engine.present_row_at(5).is_none());
}

#[test]
fn many_rows_are_listed_in_order() {
    let mut engine = Engine::default();
    for i in 0..500u64 {
        let second = (i * 37) % 60;
        engine.append_row(timed(&format!("2026-01-01T00:00:{second:02}Z"), 1, None));
    }
    let rows = engine.viewport(window(0, 500)).rows;
    let keys: Vec<(u64, u64)> =
        rows.iter().map(|row| ((row.row_id.0 * 37) % 60, row.row_id.0)).collect();
    let mut sorted = keys.clone();
    sorted.sort();
    assert_eq!(keys, sorted);
    assert_eq!(keys.len(), 500);
}

#[test]
fn windows_are_clipped_to_the_list() {
    let mut engine = Engine::default();
    for i in 0..5 {
        engine.append_row(row(&format!("{i}"), None));
    }
    let past = engine.viewport(window(9, 3));
    assert!(past.rows.is_empty());
    assert!(past.has_more_before);
    assert!(!past.has_more_after);
    let tail = engine.viewport(window(3, 10));
    assert_eq!(tail.rows.len(), 2);
    assert_eq!((tail.total_rows, tail.total_matching_rows), (5, 5));
    let meta = engine.metadata_snapshot();
    assert!(meta.rows.is_empty());
    assert_eq!(meta.total_matching_rows, 5);
}

#[test]
fn search_goes_round_and_back() {
    let mut engine = Engine::default();
    for text in ["db one", "nothing", "DB two", "db three"] {
        engine.append_row(row(text, None));
    }
    engine.set_search_text(Some("db".into()));
    assert_eq!(engine.search_results(), vec![RowId(0), RowId(2), RowId(3)]);
    assert_eq!(engine.next_search_result(None, true), Some(RowId(3)));
    assert_eq!(engine.next_search_result(Some(RowId(3)), false), Some(RowId(0)));
    assert_eq!(engine.next_search_result(Some(RowId(0)), true), Some(RowId(3)));
    assert_eq!(engine.next_search_result(Some(RowId(1)), false), Some(RowId(2)));
    engine.set_search_text(None);
    assert_eq!(engine.next_search_result(None, false), None);
}

#[test]
fn next_and_previous_undo_each_other() {
    let hits = vec![RowId(4), RowId(9), RowId(2)];
    for hit in hits.clone() {
        let next = choose_hit(&hits, Some(hit), false);
        assert_eq!(choose_hit(&hits, next, true), Some(hit));
        let previous = choose_hit(&hits, Some(hit), true);
        assert_eq!(choose_hit(&hits, previous, false), Some(hit));
    }
    assert_eq!(choose_hit(&vec![], Some(RowId(1)), false), None);
}

#[test]
fn the_limit_drops_the_oldest_rows() {
    let mut engine = Engine::default();
    for i in 0..6 {
        engine.append_row(row(&format!("line {i}"), None));
    }
    engine.set_max_rows(Some(4));
    assert_eq!((engine.total_rows(), engine.evicted_row_count()), (4, 2));
    engine.append_row(row("line 6", None));
    assert_eq!(listed(&engine), vec![3, 4, 5, 6]);
    engine.set_max_rows(None);
    engine.append_row(row("line 7", None));
    assert_eq!(listed(&engine), vec![3, 4, 5, 6, 7]);
    assert_eq!(engine.rows_snapshot()[0].message.as_ref(), "line 3");
}

#[test]
fn folded_stack_rows_correct_after_eviction() {
    let mut engine = Engine::default();
    for text in ["noise", "more noise", "ERROR boom", "  at one", "Caused by: two", "INFO on"] {
        engine.append_row(row(text, None));
    }
    engine.set_max_rows(Some(4));
    engine.set_stack_trace_folding(true);
    let rows = engine.viewport(window(0, 10)).rows;
    assert_eq!(rows[0].row_id, RowId(2));
    assert_eq!(rows[0].folded_stack_rows, 2);
    assert_eq!(rows[1].row_id, RowId(5));
    assert_eq!(rows[1].folded_stack_rows, 0);
}

#[test]
fn stack_traces_are_recognised() {
    let mut engine = Engine::default();
    for text in ["x", "\ty", "at z", "attic", "Caused by: z", "... 4 more", "....", "\u{a0}nbsp"] {
        engine.append_row(row(text, None));
    }
    let flags: Vec<bool> =
        engine.viewport(window(0, 10)).rows.iter().map(|row| row.is_stack_continuation).collect();
    assert_eq!(flags, vec![false, true, true, false, true, true, false, true]);
}

#[test]
fn context_counts_positions_after_eviction() {
    let mut engine = Engine::default();
    for i in 0..10 {
        engine.append_row(row(&format!("{i}"), None));
    }
    engine.set_max_rows(Some(6));
    let context = engine.context_around(RowId(6), 1, 2);
    let ids: Vec<u64> = context.rows.iter().map(|row| row.row_id.0).collect();
    assert_eq!(ids, vec![5, 6, 7, 8]);
    assert!(context.has_more_before);
    assert!(context.has_more_after);
    assert_eq!(context.total_matching_rows, 4);
    // Ids that resolve to no row are taken for positions.
    let ids_around = |id: u64, before: usize, after: usize| -> Vec<u64> {
        engine
            .context_around(RowId(id), before, after)
            .rows
            .iter()
            .map(|row| row.row_id.0)
            .collect()
    };
    assert_eq!(ids_around(2, 1, 1), vec![5, 6, 7]);
    assert_eq!(ids_around(10, 5, 1), vec![9]);
    assert!(ids_around(12, 0, 3).is_empty());
    let edge = engine.context_around(RowId(9), 0, 5);
    assert_eq!(edge.rows.len(), 1);
    assert_eq!(edge.total_matching_rows, 1);
    assert!(!edge.has_more_after);
}

#[test]
fn sources_are_named_and_summed_up() {
    let mut engine = Engine::default();
    assert_eq!(engine.next_source_id(), SourceId(1));
    engine.add_source(SourceId(2), "two.log");
    assert_eq!(engine.next_source_id(), SourceId(3));
    engine.append_row(timed("2026-01-01T00:00:00Z", 12, Some(LogLevel::Fatal)));
    engine.append_row(timed("2026-01-01T00:00:01Z", 2, Some(LogLevel::Warn)));
    engine.append_row(timed("2026-01-01T00:00:02Z", 12, None));
    assert_eq!(engine.next_source_id(), SourceId(13));
    let snapshot = engine.viewport(window(0, 10));
    let names: Vec<(u64, &str, usize)> = snapshot
        .source_summaries
        .iter()
        .map(|source| (source.source_id.0, source.name.as_ref(), source.rows))
        .collect();
    assert_eq!(names, vec![(2, "two.log", 1), (12, "source-12", 2)]);
    assert_eq!(snapshot.source_summaries[1].level_counts.fatal, 1);
    assert_eq!(snapshot.source_summaries[1].level_counts.unknown, 1);
    assert_eq!(
        snapshot.level_counts,
        LevelCounts { warn: 1, fatal: 1, unknown: 1, ..LevelCounts::default() }
    );
}

#[test]
fn the_timeline_counts_stamped_rows() {
    let mut engine = Engine::default();
    for (second, level) in
        [(0, LogLevel::Info), (1, LogLevel::Warn), (2, LogLevel::Error), (8, LogLevel::Fatal)]
    {
        engine.append_row(timed(&format!("2026-01-01T00:00:0{second}Z"), 1, Some(level)));
    }
    engine.append_row(row("untimed", Some(LogLevel::Error)));
    let timeline = engine.viewport(window(0, 1)).timeline;
    // Four rows share eight seconds, so a bucket is two seconds long; the third one is empty.
    let bars: Vec<(i64, i64, usize, usize, usize)> = timeline
        .iter()
        .map(|b| {
            (b.start.seconds(), b.end.seconds(), b.total, b.warn_count(), b.error_count())
        })
        .collect();
    let zero = Timestamp::parse("2026-01-01T00:00:00Z").unwrap().seconds();
    assert_eq!(
        bars,
        vec![
            (zero, zero + 2, 2, 1, 0),
            (zero + 2, zero + 4, 1, 0, 1),
            (zero + 6, zero + 8, 1, 0, 1),
        ]
    );
}

#[test]
fn a_single_timestamp_makes_a_bucket_of_a_millisecond() {
    let mut engine = Engine::default();
    engine.append_row(timed("2026-01-01T00:00:00.123456789Z", 1, None));
    let timeline = engine.viewport(window(0, 1)).timeline;
    assert_eq!(timeline.len(), 1);
    assert_eq!(timeline[0].start.subsec_nanos(), 123_456_789);
    assert_eq!(timeline[0].end.subsec_nanos(), 124_456_789);
}

#[test]
fn analytics_tell_of_coverage_peaks_and_sources() {
    let mut engine = Engine::default();
    for (time, source, level) in [
        ("2026-01-01T00:00:00Z", 2, LogLevel::Warn),
        ("2026-01-01T00:00:00Z", 1, LogLevel::Warn),
        ("2026-01-01T00:00:09Z", 3, LogLevel::Error),
        ("2026-01-01T00:00:09Z", 3, LogLevel::Fatal),
        ("2026-01-01T00:00:09Z", 1, LogLevel::Info),
    ] {
        engine.append_row(timed(time, source, Some(level)));
    }
    engine.append_row(row("untimed", None));
    let analytics = engine.timeline_analytics();
    assert_eq!((analytics.stamped_rows, analytics.unstamped_rows), (5, 1));
    assert_eq!((analytics.peak_warn, analytics.peak_error), (2, 2));
    let sources: Vec<u64> =
        analytics.buckets.iter().map(|bucket| bucket.dominant_source.0).collect();
    assert_eq!(sources, vec![1, 3]);
    assert_eq!(analytics.buckets.len(), engine.viewport(window(0, 1)).timeline.len());
    assert_eq!(analytics.buckets[1].level_counts.info, 1);
}

#[test]
fn refused_filters_leave_the_engine_alone() {
    let mut engine = Engine::default();
    engine.append_row(row("one", Some(LogLevel::Warn)));
    engine.set_filter(FilterExpr::LevelAtLeast(LogLevel::Warn)).unwrap();
    assert!(engine.set_filter(FilterExpr::Regex("(".into())).is_err());
    assert_eq!(engine.matching_rows_count(), 1);
    assert_eq!(engine.session().filter_history.len(), 1);
    engine.save_filter("warnings");
    engine.clear_filter();
    assert_eq!(engine.apply_saved_filter("nothing"), Ok(false));
    assert_eq!(engine.apply_saved_filter("warnings"), Ok(true));
    assert_eq!(engine.into_session().saved_filters[0].name, "warnings");
}

#[test]
fn the_session_keeps_bounded_history_and_ordered_bookmarks() {
    let mut session = InvestigationSession::default();
    session.record_filter(FilterExpr::All);
    assert!(session.filter_history.is_empty());
    for i in 0..MAX_FILTER_HISTORY + 5 {
        session.record_filter(FilterExpr::Contains(format!("{i}")));
    }
    assert_eq!(session.filter_history.len(), MAX_FILTER_HISTORY);
    assert_eq!(session.filter_history[0], FilterExpr::Contains("5".into()));

    for id in [5, 1, 9, 3] {
        session.toggle_bookmark(RowId(id), None);
    }
    session.toggle_bookmark(RowId(9), None);
    let ids: Vec<u64> = session.bookmarks.iter().map(|mark| mark.row_id.0).collect();
    assert_eq!(ids, vec![1, 3, 5]);

    session.save_filter("a", FilterExpr::All);
    session.save_filter("b", FilterExpr::All);
    session.save_filter("a", FilterExpr::Source(SourceId(4)));
    assert_eq!(session.saved_filters.len(), 2);
    assert_eq!(session.saved_filter("a"), Some(&FilterExpr::Source(SourceId(4))));
    assert_eq!(session.saved_filter("c"), None);
    assert!(is_readable_version(1));
    assert!(!is_readable_version(2));
}

#[test]
fn setting_a_bookmark_twice_restores_the_session() {
    let mut session = InvestigationSession::default();
    session.toggle_bookmark(RowId(2), Some("x".into()));
    session.toggle_bookmark(RowId(8), None);
    let before = session.clone();
    assert!(session.toggle_bookmark(RowId(5), Some("y".into())));
    assert!(!session.toggle_bookmark(RowId(5), None));
    assert_eq!(session, before);
}

#[test]
fn json_lines_are_read() {
    let parse = |line: &str| {
        JsonLineParser.parse_line(SourceId(1), RowId(0), ByteRange { start: 0, end: 9 }, line)
    };
    let nested = parse(r#"{"log":{"level":"warn","x":1},"level":"error","ts":"2026-01-01T00:00:00Z"}"#);
    assert_eq!(nested.level, Some(LogLevel::Warn));
    assert_eq!(nested.fields.get("log.level"), Some("warn"));
    assert!(nested.fields.get("level").is_none());
    assert_eq!(nested.timestamp, Timestamp::parse("2026-01-01T00:00:00Z"));
    assert_eq!(nested.message, nested.raw);

    let plain = parse(r#"{"log":"hello","severity":"DEBUG","b":[1,"x"],"a":null,"msg":7}"#);
    assert_eq!(plain.message.as_ref(), "hello");
    assert_eq!(plain.level, Some(LogLevel::Debug));
    assert_eq!(plain.fields.len(), 2);
    assert_eq!(plain.fields.entry(0).0.as_ref(), "a");
    assert_eq!(plain.fields.get("a"), Some("null"));
    assert_eq!(plain.fields.get("b"), Some(r#"[1,"x"]"#));

    // The first key that is there decides, even where its value is no string.
    let odd = parse(r#"{"timestamp":12,"time":"2026-01-01T00:00:00Z"}"#);
    assert_eq!(odd.timestamp, None);
    let list = parse("[1,2]");
    assert_eq!(list.level, None);
    assert!(list.fields.is_empty());
    let broken = parse("ERROR {");
    assert_eq!(broken.level, Some(LogLevel::Error));
    assert!(JsonLineParser
        .try_parse_line(SourceId(1), RowId(0), ByteRange { start: 0, end: 1 }, "nope")
        .is_none());
}

#[test]
fn parsers_have_names_and_choices() {
    assert_eq!(PlainTextParser.name(), "plain");
    assert_eq!(ParserChoice::json().name(), "jsonl");
    assert_eq!(ParserChoice::plain().name(), "plain");
    assert_eq!(ParserChoice::composite().name(), "composite");
    assert_eq!(PlainTextParser::detect_level("an INFO and an ERROR"), Some(LogLevel::Info));
    assert_eq!(PlainTextParser::detect_level("WARNING"), Some(LogLevel::Warn));
    assert_eq!(PlainTextParser::detect_level("warn"), None);
}

#[test]
fn files_are_loaded_under_the_next_number() {
    let mut engine = Engine::default();
    let first = engine.load_named("a.log", &ParserChoice::plain(), b"one\ntwo");
    let second = engine.load_named("b.log", &ParserChoice::json(), b"{\"msg\":\"three\"}\n");
    assert_eq!((first, second), (SourceId(1), SourceId(2)));
    let rows = engine.rows_snapshot();
    assert_eq!(rows.len(), 3);
    assert_eq!(rows[1].byte_range, ByteRange { start: 4, end: 7 });
    assert_eq!(rows[2].message.as_ref(), "three");
    let snapshot = engine.viewport(window(2, 1));
    assert_eq!(snapshot.rows[0].source_name.as_deref(), Some("b.log"));
}

#[test]
fn timestamps_are_compared_and_moved() {
    let time = |text: &str| Timestamp::parse(text).unwrap();
    let a = time("2026-05-21T10:00:00Z");
    let b = time("2026-05-21T10:00:01.5Z");
    assert!(a.before(&b));
    assert!(!b.before(&a));
    assert_eq!(b.millis_since(&a), 1500);
    assert_eq!(a.millis_since(&b), -1500);
    assert_eq!(a.plus_millis(1500), b);
    assert_eq!(time("2026-05-21T12:00:00+02:00"), a);
    assert_eq!(a.to_rfc3339(), "2026-05-21T10:00:00+00:00");
    assert_eq!(Timestamp::parse("yesterday"), None);
    assert_eq!(Timestamp::from_parts(0, 999_999_999).unwrap().to_rfc3339(),
        "1970-01-01T00:00:00.999999999+00:00");
    assert_eq!(Timestamp::from_parts(0, 1_000_000_000), None);
    assert_eq!(Timestamp::from_parts(MAX_SECS + 1, 0), None);
    assert!(Timestamp::from_parts(MAX_SECS, 999_999_999).is_some());
    assert!(Timestamp::from_parts(-1, 0).unwrap().before(&Timestamp::from_parts(0, 0).unwrap()));
}

#[test]
fn leap_seconds_stand_at_the_end_of_a_minute() {
    let leap = Timestamp::parse("2016-12-31T23:59:60.5Z").unwrap();
    assert_eq!(leap.subsec_nanos(), 1_500_000_000);
    let before = Timestamp::parse("2016-12-31T23:59:59.5Z").unwrap();
    let noon = Timestamp::parse("2016-12-31T12:00:00Z").unwrap();
    assert!(before.before(&leap));
    assert_eq!(leap.millis_since(&before), 1000);
    assert_eq!(leap.plus_millis(499).subsec_nanos(), 1_999_000_000);
    assert_eq!(leap.plus_millis(500).to_rfc3339(), "2017-01-01T00:00:00+00:00");
    assert_eq!(leap.millis_since(&noon), 43_200_500);
    assert_eq!(noon.millis_since(&leap), -43_200_500);
    // Within one day a later time counts the leap second, and an earlier one takes it off.
    let midday_leap = Timestamp::from_parts(noon.seconds() + 59, 1_250_000_000).unwrap();
    let after = Timestamp::from_parts(noon.seconds() + 61, 0).unwrap();
    assert_eq!(after.millis_since(&midday_leap), 1_750);
    assert_eq!(midday_leap.millis_since(&after), -1_750);
}

#[test]
fn rows_in_the_last_second_leave_no_room() {
    let last = Timestamp::from_parts(MAX_SECS, 0).unwrap();
    assert!(!leaves_room(&LogRow { timestamp: Some(last), ..row("x", None) }));
    assert!(leaves_room(&row("x", None)));
    assert!(leaves_room(&timed("2026-01-01T00:00:00Z", 1, None)));
    assert!(can_append(&Engine::default(), 1000));
}

#[test]
fn texts_are_folded_searched_and_ordered() {
    assert_eq!(lowercase("ÄbC-XYZ"), "Äbc-xyz");
    assert!(contains_ignoring_case("Größe XL", "xl"));
    assert!(!contains_ignoring_case("GRÖSSE", "größe"));
    assert!(contains_ignoring_case("anything", ""));
    assert_eq!(trim("\u{3000} a b\t\n"), "a b");
    assert_eq!(trim(" \n"), "");
    assert!(comes_before("abc", "abd"));
    assert!(comes_before("ab", "abc"));
    assert!(!comes_before("abc", "abc"));
    assert!(comes_before("z", "ä"));
    assert_eq!(decimal_text(0), "0");
    assert_eq!(decimal_text(u64::MAX), "18446744073709551615");
    assert_eq!(join_all(&vec!["a".into(), "b".into(), "c".into()], ", "), "a, b, c");
}

#[test]
fn fields_keep_dictionary_order() {
    let mut fields = ParsedFields::default();
    for (key, value) in [("m", "1"), ("b", "2"), ("z", "3"), ("b", "4")] {
        fields.insert(key, value);
    }
    let keys: Vec<&str> = (0..fields.len()).map(|i| fields.entry(i).0.as_ref()).collect();
    assert_eq!(keys, vec!["b", "m", "z"]);
    assert_eq!(fields.get("b"), Some("4"));
    assert_eq!(fields.get("y"), None);
}

#[test]
fn counts_and_roles_follow_the_level() {
    let mut counts = LevelCounts::default();
    for level in [Some(LogLevel::Trace), Some(LogLevel::Debug), None, None] {
        counts.record(level);
    }
    assert_eq!((counts.trace, counts.debug, counts.unknown), (1, 1, 2));
    assert_eq!(SeverityRole::from_level(None), SeverityRole::Unknown);
    assert_eq!(SeverityRole::from_level(Some(LogLevel::Fatal)), SeverityRole::Fatal);
    let info = SourceInfo {
        source_id: SourceId(1),
        name: Arc::from("x"),
        kind: LogSourceKind::Other(Arc::from("pipe")),
    };
    assert_eq!(info.clone(), info);
}

#[test]
fn views_that_do_not_fit_are_declined() {
    let mut engine = Engine::default();
    engine.append_row(timed("2026-01-01T00:00:00Z", 1, None));
    assert_eq!(engine.try_viewport(window(0, 5)), Some(engine.viewport(window(0, 5))));
    assert_eq!(engine.try_viewport(window(1, usize::MAX)), None);
    assert_eq!(
        engine.try_context_around(RowId(0), 1, 1),
        Some(engine.context_around(RowId(0), 1, 1))
    );
    assert_eq!(engine.try_context_around(RowId(0), usize::MAX, 0), None);
    assert!(engine.try_context_around(RowId(0), usize::MAX - 1, 0).is_some());
    assert!(engine.try_context_around(RowId(u64::MAX), usize::MAX - 1, 0).is_none());
    assert!(engine.try_context_around(RowId(u64::MAX / 2), usize::MAX - 1, 0).is_some());
    let last = Timestamp::from_parts(MAX_SECS, 999_500_000).unwrap();
    engine.append_row(LogRow { timestamp: Some(last), ..row("x", None) });
    engine.set_filter(FilterExpr::RawContains("x".into())).unwrap();
    assert_eq!(engine.try_viewport(window(0, 5)), None);
    engine.set_filter(FilterExpr::RawContains("2026".into())).unwrap();
    assert!(engine.try_viewport(window(0, 5)).is_some());
}

#[test]
fn windows_one_after_the_other_show_the_whole_list() {
    let mut engine = Engine::default();
    for i in 0..7 {
        engine.append_row(row(&format!("{i}"), None));
    }
    let mut joined = engine.viewport(window(0, 3)).rows;
    joined.extend(engine.viewport(window(3, 4)).rows);
    assert_eq!(joined, engine.viewport(window(0, 7)).rows);
}

#[test]
fn summaries_count_each_row_once() {
    let mut engine = Engine::default();
    for i in 0..10u64 {
        engine.append_row(timed("2026-01-01T00:00:00Z", i * i % 4, None));
    }
    let summaries = engine.metadata_snapshot().source_summaries;
    assert_eq!(summaries.iter().map(|source| source.rows).sum::<usize>(), 10);
    assert_eq!(summaries.len(), 2);
}
