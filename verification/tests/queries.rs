//! Filters, written out and as queries.
use glowtail::filter::{CompiledFilter, FilterError, FilterExpr};
use glowtail::model::{ByteRange, LogLevel, LogRow, ParsedFields, RowId, SourceId};
use glowtail::parser::{JsonLineParser, LogParser};
use glowtail::query::{compose_query_filter, next_level, parse_filter_query, parse_source};
use glowtail::time::Timestamp;
use std::sync::Arc;

fn row(raw: &str, message: &str, level: Option<LogLevel>) -> LogRow {
    LogRow {
        row_id: RowId(0),
        source_id: SourceId(1),
        byte_range: ByteRange { start: 0, end: 1 },
        timestamp: None,
        level,
        raw: Arc::from(raw),
        message: Arc::from(message),
        fields: ParsedFields::default(),
    }
}

fn json_row(line: &str) -> LogRow {
    JsonLineParser.parse_line(SourceId(1), RowId(0), ByteRange { start: 0, end: 1 }, line)
}

fn accepts(query: &str, row: &LogRow) -> bool {
    let filter = parse_filter_query(query).unwrap();
    CompiledFilter::compile(&filter).unwrap().matches(row)
}

fn reason(query: &str) -> String {
    match parse_filter_query(query).unwrap_err() {
        FilterError::InvalidQuery(reason) => reason,
        FilterError::InvalidRegex { pattern, .. } => panic!("no pattern in {pattern}"),
    }
}

#[test]
fn plain_text_is_searched_for_in_the_raw_line() {
    assert_eq!(
        parse_filter_query("  Timeout ").unwrap(),
        FilterExpr::RawContains("Timeout".to_string())
    );
    let hit = row("{\"msg\":\"ok\",\"cause\":\"TIMEOUT\"}", "ok", None);
    assert!(accepts("timeout", &hit));
    assert!(!accepts("message contains \"timeout\"", &hit));
}

#[test]
fn blank_text_is_every_row() {
    assert_eq!(parse_filter_query(" \t ").unwrap(), FilterExpr::All);
    assert_eq!(compose_query_filter(None, None, Some(" \n")).unwrap(), FilterExpr::All);
}

#[test]
fn words_that_look_like_operators_stay_plain_text() {
    assert_eq!(
        parse_filter_query("error in module").unwrap(),
        FilterExpr::RawContains("error in module".to_string())
    );
    assert_eq!(
        parse_filter_query("file contains errors").unwrap(),
        FilterExpr::RawContains("file contains errors".to_string())
    );
    assert_eq!(
        parse_filter_query("\"quoted\" text").unwrap(),
        FilterExpr::RawContains("\"quoted\" text".to_string())
    );
}

#[test]
fn level_queries() {
    assert_eq!(
        parse_filter_query("level = error").unwrap(),
        FilterExpr::LevelEquals(LogLevel::Error)
    );
    assert_eq!(
        parse_filter_query("LEVEL >= Warning").unwrap(),
        FilterExpr::LevelAtLeast(LogLevel::Warn)
    );
    assert_eq!(
        parse_filter_query("level in (warn, error)").unwrap(),
        FilterExpr::Or(vec![
            FilterExpr::LevelEquals(LogLevel::Warn),
            FilterExpr::LevelEquals(LogLevel::Error),
        ])
    );
    assert_eq!(
        parse_filter_query("level > warn").unwrap(),
        FilterExpr::LevelAtLeast(LogLevel::Error)
    );
}

#[test]
fn level_at_most_excludes_unlevelled_rows() {
    let unlevelled = row("    at x", "    at x", None);
    let trace = row("t", "t", Some(LogLevel::Trace));
    let fatal = row("f", "f", Some(LogLevel::Fatal));
    for query in ["level <= fatal", "level <= trace", "level < info"] {
        assert!(!accepts(query, &unlevelled), "{query}");
        assert!(accepts(query, &trace), "{query}");
    }
    assert!(accepts("level <= fatal", &fatal));
    assert!(!accepts("level < fatal", &fatal));
    assert!(!accepts("level < trace", &trace));
    assert!(accepts("level != error", &unlevelled));
}

#[test]
fn message_and_source_queries() {
    let hit = row("raw", "Connection TIMEOUT", None);
    assert!(accepts("message contains \"timeout\"", &hit));
    assert!(!accepts("message contains raw", &hit));
    assert_eq!(parse_filter_query("source = 1").unwrap(), FilterExpr::Source(SourceId(1)));
    assert!(!accepts("source != 1", &hit));
    assert!(accepts("source != 2", &hit));
}

#[test]
fn field_queries() {
    let hit = json_row(r#"{"service":"billing","userId":123,"zone":"EU-West"}"#);
    assert!(accepts(r#"service = "billing""#, &hit));
    assert!(accepts("service=billing", &hit));
    assert!(accepts(r#"json.userId = "123""#, &hit));
    assert!(!accepts(r#"json.userId = "12""#, &hit));
    assert!(accepts(r#"json.zone contains "west""#, &hit));
    assert!(accepts(r#"service != "shop""#, &hit));
    assert!(accepts(r#"missing != "x""#, &hit));
    assert!(!accepts(r#"missing = "x""#, &hit));
}

#[test]
fn timestamp_queries_include_both_ends() {
    let query = r#"timestamp between "2026-05-21T09:00:00Z" and "2026-05-21T10:00:00Z""#;
    let at = |time: &str| LogRow {
        timestamp: Some(Timestamp::parse(time).unwrap()),
        ..row("x", "x", None)
    };
    assert!(accepts(query, &at("2026-05-21T09:00:00Z")));
    assert!(accepts(query, &at("2026-05-21T12:00:00+02:00")));
    assert!(!accepts(query, &at("2026-05-21T10:00:00.000000001Z")));
    assert!(!accepts(query, &at("2026-05-21T08:59:59.999Z")));
    assert!(!accepts(query, &row("x", "x", None)));
}

#[test]
fn conditions_are_joined_by_and() {
    let query = r#"service = "billing" and level >= warn"#;
    assert!(accepts(query, &json_row(r#"{"service":"billing","level":"error"}"#)));
    assert!(!accepts(query, &json_row(r#"{"service":"billing","level":"info"}"#)));
    assert!(!accepts(query, &json_row(r#"{"service":"shop","level":"error"}"#)));
}

#[test]
fn malformed_queries_are_refused_with_a_reason() {
    assert_eq!(reason("level > fatal"), "no log level above fatal");
    assert_eq!(reason("level = loud"), "unknown log level");
    assert_eq!(reason("level ="), "incomplete condition");
    assert_eq!(reason("level in (warn"), "expected ',' or ')' in a list of log levels");
    assert_eq!(reason("level in warn error"), "expected '(' after in");
    assert_eq!(reason("level = (warn)"), "expected a log level");
    assert_eq!(reason("message = x"), "operator not valid for message");
    assert_eq!(reason("source = one"), "expected a source number");
    assert_eq!(reason("source > 1"), "operator not valid for source");
    assert_eq!(reason("timestamp > x"), "invalid timestamp");
    assert_eq!(reason("timestamp > ,"), "expected a timestamp");
    assert_eq!(
        reason("level = warn and timestamp , 2026-05-21T09:00:00Z"),
        "operator not valid for timestamp"
    );
    assert_eq!(reason("timestamp between x and y"), "invalid timestamp");
    assert_eq!(reason("timestamp between x"), "expected two timestamps joined by and");
    assert_eq!(reason("service > 3"), "operator not valid for a field");
    assert_eq!(reason("service = \"open"), "expected a value");
    assert_eq!(reason("service = a b"), "expected and between conditions");
    assert_eq!(reason("service = a and \"b\" = c"), "expected a name");
    assert_eq!(
        parse_filter_query("level = loud").unwrap_err().message(),
        "invalid query: unknown log level"
    );
}

#[test]
fn filters_compose() {
    let saved = FilterExpr::Source(SourceId(3));
    assert_eq!(
        compose_query_filter(Some(&saved), Some(LogLevel::Warn), Some("timeout")).unwrap(),
        FilterExpr::And(vec![
            FilterExpr::Source(SourceId(3)),
            FilterExpr::LevelAtLeast(LogLevel::Warn),
            FilterExpr::RawContains("timeout".to_string()),
        ])
    );
    assert_eq!(compose_query_filter(Some(&saved), None, None).unwrap(), saved);
    assert!(compose_query_filter(Some(&saved), None, Some("level = loud")).is_err());
}

#[test]
fn regular_expressions_search_the_message() {
    let compiled = CompiledFilter::compile(&FilterExpr::Regex(r"id=\d+$".into())).unwrap();
    assert!(compiled.matches(&row("x", "done id=42", None)));
    assert!(!compiled.matches(&row("id=42", "done", None)));
}

#[test]
fn the_first_bad_pattern_is_reported() {
    let filter = FilterExpr::Or(vec![
        FilterExpr::Regex("fine".into()),
        FilterExpr::Not(Box::new(FilterExpr::Regex("[".into()))),
        FilterExpr::Regex("(".into()),
    ]);
    match CompiledFilter::compile(&filter).unwrap_err() {
        FilterError::InvalidRegex { pattern, source } => {
            assert_eq!(pattern, "[");
            assert!(source.contains("unclosed character class"));
        }
        FilterError::InvalidQuery(reason) => panic!("{reason}"),
    }
}

#[test]
fn compositions_follow_their_laws() {
    let error = row("boom", "boom", Some(LogLevel::Error));
    let all = CompiledFilter::compile(&FilterExpr::And(vec![])).unwrap();
    let none = CompiledFilter::compile(&FilterExpr::Or(vec![])).unwrap();
    assert!(all.matches(&error));
    assert!(!none.matches(&error));
    let not = FilterExpr::Not(Box::new(FilterExpr::LevelEquals(LogLevel::Error)));
    assert!(!CompiledFilter::compile(&not).unwrap().matches(&error));
}

#[test]
fn levels_and_sources_are_read() {
    assert_eq!(LogLevel::parse(" WARNING\t"), Some(LogLevel::Warn));
    assert_eq!(LogLevel::parse("\u{2003}Fatal\u{a0}"), Some(LogLevel::Fatal));
    assert_eq!(LogLevel::parse("warnings"), None);
    assert_eq!(next_level(LogLevel::Info), Some(LogLevel::Warn));
    assert_eq!(next_level(LogLevel::Fatal), None);
    assert_eq!(parse_source("18446744073709551615"), Some(SourceId(u64::MAX)));
    assert_eq!(parse_source("18446744073709551616"), None);
    assert_eq!(parse_source("007"), Some(SourceId(7)));
    assert_eq!(parse_source(""), None);
    assert_eq!(parse_source("1x"), None);
}

#[test]
fn timestamps_are_compared() {
    let at = |time: &str| LogRow {
        timestamp: Some(Timestamp::parse(time).unwrap()),
        ..row("x", "x", None)
    };
    let rows = [
        at("2026-05-21T08:59:59.999Z"),
        at("2026-05-21T11:00:00+02:00"),
        at("2026-05-21T09:00:00.001Z"),
        row("x", "x", None),
    ];
    for (operator, expected) in [
        ("=", [false, true, false, false]),
        ("!=", [true, false, true, true]),
        (">=", [false, true, true, false]),
        (">", [false, false, true, false]),
        ("<=", [true, true, false, false]),
        ("<", [true, false, false, false]),
    ] {
        let query = format!("timestamp {operator} \"2026-05-21T09:00:00Z\"");
        let found: Vec<bool> = rows.iter().map(|row| accepts(&query, row)).collect();
        assert_eq!(found, expected, "{query}");
    }
}
