//! How a row is laid out for a front-end: the spans of its text, and stack traces.
use crate::model::{
    field_pairs, span_views, FieldsView, LogLevel, LogRow, ParsedFields, RowView, SpanKind,
    SpanView, StyledSpan,
};
use crate::text::{
    begins_with, byte_len, bytes_in, chars_in, chars_of, contains_folded, find_chars, first_from,
    is_white, is_whitespace, lemma_first_from, lowered, lowered_chars, occurs_at, same_letter,
    same_letters, share, shared, starts_with,
};
use crate::time::{chrono_rfc3339, Timestamp};
use std::ops::Range;
use std::sync::Arc;
use vstd::prelude::*;
use vstd::string::*;

verus! {

/// A span without a place in the message.
pub open spec fn text_span(kind: SpanKind, text: Seq<char>) -> SpanView {
    SpanView { kind, text, byte_range: None }
}

/// The timestamp and a space.
pub open spec fn time_spans(timestamp: Option<Timestamp>) -> Seq<SpanView> {
    match timestamp {
        Some(time) => seq![
            text_span(SpanKind::Timestamp, chrono_rfc3339(time.secs(), time.nanos())),
            text_span(SpanKind::Message, " "@),
        ],
        None => Seq::empty(),
    }
}

/// The kind of span that shows a severity.
pub open spec fn level_kind(level: LogLevel) -> SpanKind {
    match level {
        LogLevel::Error => SpanKind::Error,
        LogLevel::Fatal => SpanKind::Error,
        LogLevel::Warn => SpanKind::Warning,
        _ => SpanKind::Level,
    }
}

/// The severity and a space.
pub open spec fn level_spans(level: Option<LogLevel>) -> Seq<SpanView> {
    match level {
        Some(level) => seq![
            text_span(level_kind(level), level.label()),
            text_span(SpanKind::Message, " "@),
        ],
        None => Seq::empty(),
    }
}

/// Where the text searched for stands in the message, the case of ASCII letters disregarded.
pub open spec fn match_at(message: Seq<char>, search: Option<Seq<char>>) -> Option<int> {
    match search {
        Some(search) => first_from(lowered(message), lowered(search), 0),
        None => None,
    }
}

/// A span of the message, unless it is empty.
pub open spec fn message_part(text: Seq<char>) -> Seq<SpanView> {
    if text.len() > 0 {
        seq![text_span(SpanKind::Message, text)]
    } else {
        Seq::empty()
    }
}

/// The message: what comes before the first match, the match with its place in bytes, and what
/// comes after it; or the message as a whole where nothing matches.
pub open spec fn message_spans(message: Seq<char>, search: Option<Seq<char>>) -> Seq<SpanView> {
    match match_at(message, search) {
        Some(at) => {
            let end = at + search->0.len();
            message_part(message.subrange(0, at)) + seq![
                SpanView {
                    kind: SpanKind::SearchMatch,
                    text: message.subrange(at, end),
                    byte_range: Some(
                        (byte_len(message.subrange(0, at)), byte_len(message.subrange(0, end))),
                    ),
                },
            ] + message_part(message.subrange(end, message.len() as int))
        },
        None => seq![text_span(SpanKind::Message, message)],
    }
}

/// The first `n` fields, separated by commas.
pub open spec fn entry_spans(fields: FieldsView, n: int) -> Seq<SpanView>
    decreases n,
{
    if n <= 0 {
        Seq::empty()
    } else {
        let separator = if n > 1 {
            seq![text_span(SpanKind::Message, ", "@)]
        } else {
            Seq::empty()
        };
        entry_spans(fields, n - 1) + separator + seq![
            text_span(SpanKind::JsonKey, fields[n - 1].0),
            text_span(SpanKind::Message, "="@),
            text_span(SpanKind::JsonValue, fields[n - 1].1),
        ]
    }
}

/// The fields in braces, or nothing where there are none.
pub open spec fn field_spans(fields: FieldsView) -> Seq<SpanView> {
    if fields.len() == 0 {
        Seq::empty()
    } else {
        seq![text_span(SpanKind::Message, " {"@)] + entry_spans(fields, fields.len() as int)
            + seq![text_span(SpanKind::Message, "}"@)]
    }
}

/// The spans of a row.
pub open spec fn row_spans(row: RowView, search: Option<Seq<char>>) -> Seq<SpanView> {
    time_spans(row.timestamp) + level_spans(row.level) + message_spans(row.message, search)
        + field_spans(row.fields)
}

/// The line continues a stack trace: it begins with whitespace, `at `, `Caused by:` or `... `.
pub open spec fn continues_trace(raw: Seq<char>) -> bool {
    ||| raw.len() > 0 && is_white(raw[0])
    ||| begins_with(raw, "at "@)
    ||| begins_with(raw, "Caused by:"@)
    ||| begins_with(raw, "... "@)
}

/// How many rows from position `from` on continue a stack trace without a break.
pub open spec fn trace_length(rows: Seq<RowView>, from: int) -> nat
    decreases rows.len() - from,
{
    if 0 <= from < rows.len() && continues_trace(rows[from].raw) {
        1 + trace_length(rows, from + 1)
    } else {
        0
    }
}

/// Whether the row continues a stack trace.
pub fn is_stack_trace_continuation(row: &LogRow) -> (r: bool)
    ensures
        r == continues_trace(row@.raw),
{
    let raw: &str = &*row.raw;
    let chars = chars_of(raw);
    (chars.len() > 0 && is_whitespace(chars[0])) || starts_with(raw, "at ") || starts_with(
        raw,
        "Caused by:",
    ) || starts_with(raw, "... ")
}

/// Appends a span without a place in the message.
fn push_text(spans: &mut Vec<StyledSpan>, kind: SpanKind, text: &str)
    ensures
        span_views(final(spans)@) == span_views(old(spans)@).push(text_span(kind, text@)),
{
    let ghost before = span_views(spans@);
    let span = StyledSpan { kind, text: shared(text), byte_range: None };
    spans.push(span);
    assert(span_views(spans@) =~= before.push(span@));
}

/// Appends the timestamp.
fn push_time(spans: &mut Vec<StyledSpan>, timestamp: &Option<Timestamp>)
    ensures
        span_views(final(spans)@) == span_views(old(spans)@) + time_spans(*timestamp),
{
    let ghost before = span_views(spans@);
    if let Some(time) = timestamp {
        push_text(spans, SpanKind::Timestamp, &time.to_rfc3339());
        push_text(spans, SpanKind::Message, " ");
    }
    assert(span_views(spans@) =~= before + time_spans(*timestamp));
}

/// Appends the severity.
fn push_level(spans: &mut Vec<StyledSpan>, level: Option<LogLevel>)
    ensures
        span_views(final(spans)@) == span_views(old(spans)@) + level_spans(level),
{
    let ghost before = span_views(spans@);
    if let Some(found) = level {
        let kind = match found {
            LogLevel::Error => SpanKind::Error,
            LogLevel::Fatal => SpanKind::Error,
            LogLevel::Warn => SpanKind::Warning,
            _ => SpanKind::Level,
        };
        push_text(spans, kind, found.name());
        push_text(spans, SpanKind::Message, " ");
    }
    assert(span_views(spans@) =~= before + level_spans(level));
}

/// Appends the message with its first match marked; returns whether there is one.
fn push_message(spans: &mut Vec<StyledSpan>, message: &Arc<str>, search: &Option<String>) -> (r:
    bool)
    ensures
        span_views(final(spans)@) == span_views(old(spans)@) + message_spans(
            chars_in(*message),
            crate::text::optional_text(*search),
        ),
        r == match_at(chars_in(*message), crate::text::optional_text(*search)) is Some,
{
    let ghost before = span_views(spans@);
    let text: &str = &**message;
    let found: Option<usize> = match search {
        Some(search) => find_chars(&lowered_chars(text), &lowered_chars(search)),
        None => None,
    };
    match (found, search) {
        (Some(at), Some(search)) => {
            let count: usize = text.unicode_len();
            let length: usize = search.as_str().unicode_len();
            proof {
                lemma_first_from(lowered(text@), lowered(search@), 0);
            }
            let end: usize = at + length;
            let head = text.substring_char(0, at);
            let hit = text.substring_char(at, end);
            let tail = text.substring_char(end, count);
            if at > 0 {
                push_text(spans, SpanKind::Message, head);
            }
            let ghost so_far = span_views(spans@);
            let range: Range<usize> = Range {
                start: bytes_in(head),
                end: bytes_in(text.substring_char(0, end)),
            };
            let span = StyledSpan {
                kind: SpanKind::SearchMatch,
                text: shared(hit),
                byte_range: Some(range),
            };
            spans.push(span);
            assert(span_views(spans@) =~= so_far.push(span@));
            if end < count {
                push_text(spans, SpanKind::Message, tail);
            }
            assert(span_views(spans@) =~= before + message_spans(text@, Some(search@)));
            true
        },
        _ => {
            let span = StyledSpan {
                kind: SpanKind::Message,
                text: share(message),
                byte_range: None,
            };
            spans.push(span);
            assert(span_views(spans@) =~= before + seq![span@]);
            false
        },
    }
}

/// Appends the fields.
fn push_fields(spans: &mut Vec<StyledSpan>, fields: &ParsedFields)
    ensures
        span_views(final(spans)@) == span_views(old(spans)@) + field_spans(fields@),
{
    let ghost before = span_views(spans@);
    if fields.is_empty() {
        assert(before + field_spans(fields@) =~= before);
        return;
    }
    push_text(spans, SpanKind::Message, " {");
    let ghost opened = span_views(spans@);
    let count: usize = fields.len();
    let mut i: usize = 0;
    assert(opened =~= opened + entry_spans(fields@, 0));
    while i < count
        invariant
            i <= count,
            count == fields@.len(),
            span_views(spans@) == opened + entry_spans(fields@, i as int),
        decreases count - i,
    {
        let ghost done = span_views(spans@);
        if i > 0 {
            push_text(spans, SpanKind::Message, ", ");
        }
        let (key, value) = fields.entry(i);
        push_text(spans, SpanKind::JsonKey, &**key);
        push_text(spans, SpanKind::Message, "=");
        push_text(spans, SpanKind::JsonValue, &**value);
        i += 1;
        assert(span_views(spans@) =~= opened + entry_spans(fields@, i as int));
    }
    push_text(spans, SpanKind::Message, "}");
    assert(span_views(spans@) =~= before + field_spans(fields@));
}

/// Lays out a row: its spans, and whether the text searched for is in its message.
pub fn layout(row: &LogRow, search: &Option<String>) -> (r: (Vec<StyledSpan>, bool))
    ensures
        span_views(r.0@) == row_spans(row@, crate::text::optional_text(*search)),
        r.1 == match_at(row@.message, crate::text::optional_text(*search)) is Some,
{
    let mut spans: Vec<StyledSpan> = Vec::new();
    assert(span_views(spans@) =~= Seq::<SpanView>::empty());
    push_time(&mut spans, &row.timestamp);
    push_level(&mut spans, row.level);
    let is_match: bool = push_message(&mut spans, &row.message, search);
    push_fields(&mut spans, &row.fields);
    assert(span_views(spans@) =~= row_spans(row@, crate::text::optional_text(*search)));
    (spans, is_match)
}

// ---------------------------------------------------------------------------
// Laws
// ---------------------------------------------------------------------------

/// The bytes of two texts one after the other.
proof fn lemma_bytes_of_both(a: Seq<char>, b: Seq<char>)
    ensures
        byte_len(a + b) == byte_len(a) + byte_len(b),
    decreases a.len(),
{
    if a.len() == 0 {
        assert(a + b =~= b);
    } else {
        lemma_bytes_of_both(a.drop_first(), b);
        assert((a + b).drop_first() =~= a.drop_first() + b);
    }
}

/// Folding case keeps the number of bytes.
proof fn lemma_folding_keeps_bytes(s: Seq<char>)
    ensures
        byte_len(lowered(s)) == byte_len(s),
    decreases s.len(),
{
    if s.len() > 0 {
        lemma_folding_keeps_bytes(s.drop_first());
        assert(lowered(s).drop_first() =~= lowered(s.drop_first()));
    } else {
        assert(lowered(s) =~= s);
    }
}

/// A match takes as many bytes of the message as the text that was searched for has.
pub proof fn law_match_is_as_long_as_the_search(message: Seq<char>, search: Seq<char>)
    ensures
        match_at(message, Some(search)) matches Some(at) ==> {
            let end = at + search.len();
            &&& 0 <= at <= end <= message.len()
            &&& lowered(message.subrange(at, end)) == lowered(search)
            &&& byte_len(message.subrange(0, end)) == byte_len(message.subrange(0, at)) + byte_len(
                search,
            )
        },
{
    if let Some(at) = match_at(message, Some(search)) {
        let end = at + search.len();
        lemma_first_from(lowered(message), lowered(search), 0);
        assert(occurs_at(lowered(message), lowered(search), at));
        assert(lowered(message.subrange(at, end)) =~= lowered(message).subrange(at, end));
        assert(message.subrange(0, end) =~= message.subrange(0, at) + message.subrange(at, end));
        lemma_bytes_of_both(message.subrange(0, at), message.subrange(at, end));
        lemma_folding_keeps_bytes(message.subrange(at, end));
        lemma_folding_keeps_bytes(search);
    }
}

/// The text of some spans, one after the other.
pub open spec fn spans_text(spans: Seq<SpanView>) -> Seq<char>
    decreases spans.len(),
{
    if spans.len() == 0 {
        Seq::empty()
    } else {
        spans_text(spans.drop_last()) + spans.last().text
    }
}

/// The spans of a message hold its text, all of it and nothing else, whatever is searched for.
pub proof fn law_message_spans_hold_the_message(message: Seq<char>, search: Option<Seq<char>>)
    ensures
        spans_text(message_spans(message, search)) == message,
{
    let spans = message_spans(message, search);
    match match_at(message, search) {
        Some(at) => {
            let end = at + search->0.len();
            lemma_first_from(lowered(message), lowered(search->0), 0);
            let head = message_part(message.subrange(0, at));
            let tail = message_part(message.subrange(end, message.len() as int));
            let hit = SpanView {
                kind: SpanKind::SearchMatch,
                text: message.subrange(at, end),
                byte_range: Some(
                    (byte_len(message.subrange(0, at)), byte_len(message.subrange(0, end))),
                ),
            };
            lemma_text_of_part(message.subrange(0, at));
            let front = head.push(hit);
            assert(front.drop_last() =~= head);
            assert(spans_text(front) =~= message.subrange(0, end));
            if end < message.len() {
                assert(spans.drop_last() =~= front);
                assert(spans.last() == tail[0]);
                assert(spans_text(spans) =~= message);
            } else {
                assert(spans =~= front);
                assert(message.subrange(0, end) =~= message);
            }
        },
        None => {
            assert(spans.drop_last() =~= Seq::<SpanView>::empty());
            assert(spans_text(spans.drop_last()) == Seq::<char>::empty());
            assert(spans_text(spans) =~= message);
        },
    }
}

/// The text of one span of the message, or of none.
proof fn lemma_text_of_part(text: Seq<char>)
    ensures
        spans_text(message_part(text)) == text,
{
    if text.len() > 0 {
        assert(message_part(text).drop_last() =~= Seq::<SpanView>::empty());
        assert(spans_text(message_part(text).drop_last()) == Seq::<char>::empty());
        assert(spans_text(message_part(text)) =~= text);
    } else {
        assert(text =~= Seq::<char>::empty());
    }
}

/// No span is a key or a value of a field.
pub open spec fn without_fields(spans: Seq<SpanView>) -> bool {
    forall|i: int|
        0 <= i < spans.len() ==> (#[trigger] spans[i]).kind != SpanKind::JsonKey && spans[i].kind
            != SpanKind::JsonValue
}

/// Spans that are no fields in front of others do not matter for the fields.
proof fn lemma_skip_front(front: Seq<SpanView>, rest: Seq<SpanView>, pending: Option<Seq<char>>)
    requires
        without_fields(front),
    ensures
        field_pairs(front + rest, pending) == field_pairs(rest, pending),
    decreases front.len(),
{
    if front.len() == 0 {
        assert(front + rest =~= rest);
    } else {
        let after = front.subrange(1, front.len() as int);
        assert forall|i: int| 0 <= i < after.len() implies (#[trigger] after[i]).kind
            != SpanKind::JsonKey && after[i].kind != SpanKind::JsonValue by {
            assert(after[i] == front[i + 1]);
        }
        assert((front + rest).subrange(1, (front + rest).len() as int) =~= after + rest);
        assert((front + rest)[0] == front[0]);
        lemma_skip_front(after, rest, pending);
    }
}

/// The first `n` fields come out of their spans, followed by those of the rest.
proof fn lemma_entries_come_out(fields: FieldsView, n: int, rest: Seq<SpanView>)
    requires
        0 <= n <= fields.len(),
    ensures
        field_pairs(entry_spans(fields, n) + rest, None) == fields.subrange(0, n) + field_pairs(
            rest,
            None,
        ),
    decreases n,
{
    if n == 0 {
        assert(entry_spans(fields, n) + rest =~= rest);
        assert(fields.subrange(0, n) + field_pairs(rest, None) =~= field_pairs(rest, None));
    } else {
        let separator = if n > 1 {
            seq![text_span(SpanKind::Message, ", "@)]
        } else {
            Seq::empty()
        };
        let key = text_span(SpanKind::JsonKey, fields[n - 1].0);
        let equals = text_span(SpanKind::Message, "="@);
        let value = text_span(SpanKind::JsonValue, fields[n - 1].1);
        let tail = separator + (seq![key, equals, value] + rest);
        assert(entry_spans(fields, n) + rest =~= entry_spans(fields, n - 1) + tail);
        lemma_entries_come_out(fields, n - 1, tail);
        lemma_skip_front(separator, seq![key, equals, value] + rest, None);
        let a = seq![key, equals, value] + rest;
        let b = seq![equals, value] + rest;
        let c = seq![value] + rest;
        assert(a.subrange(1, a.len() as int) =~= b);
        assert(b.subrange(1, b.len() as int) =~= c);
        assert(c.subrange(1, c.len() as int) =~= rest);
        assert(field_pairs(a, None) == field_pairs(b, Some(fields[n - 1].0)));
        assert(field_pairs(b, Some(fields[n - 1].0)) == field_pairs(c, Some(fields[n - 1].0)));
        assert(field_pairs(c, Some(fields[n - 1].0)) == seq![fields[n - 1]] + field_pairs(rest, None));
        assert(fields.subrange(0, n - 1) + (seq![fields[n - 1]] + field_pairs(rest, None))
            =~= fields.subrange(0, n) + field_pairs(rest, None));
    }
}

/// The fields that are read back from the spans of a row are the fields of the row.
pub proof fn law_fields_come_back(row: RowView, search: Option<Seq<char>>)
    ensures
        field_pairs(row_spans(row, search), None) == row.fields,
{
    let front = time_spans(row.timestamp) + level_spans(row.level) + message_spans(
        row.message,
        search,
    );
    assert(without_fields(front));
    lemma_skip_front(front, field_spans(row.fields), None);
    if row.fields.len() > 0 {
        let open = seq![text_span(SpanKind::Message, " {"@)];
        let close = seq![text_span(SpanKind::Message, "}"@)];
        let entries = entry_spans(row.fields, row.fields.len() as int);
        assert(field_spans(row.fields) =~= open + (entries + close));
        lemma_skip_front(open, entries + close, None);
        lemma_entries_come_out(row.fields, row.fields.len() as int, close);
        assert(close + Seq::<SpanView>::empty() =~= close);
        lemma_skip_front(close, Seq::empty(), None);
        assert(row.fields.subrange(0, row.fields.len() as int) + Seq::<
            (Seq<char>, Seq<char>),
        >::empty() =~= row.fields);
    } else {
        assert(row.fields =~= Seq::<(Seq<char>, Seq<char>)>::empty());
    }
}

/// The text of spans in two parts.
proof fn lemma_text_of_both(a: Seq<SpanView>, b: Seq<SpanView>)
    ensures
        spans_text(a + b) == spans_text(a) + spans_text(b),
    decreases b.len(),
{
    let all = a + b;
    if b.len() == 0 {
        assert(all =~= a);
        assert(spans_text(all) =~= spans_text(a) + spans_text(b));
    } else {
        lemma_text_of_both(a, b.drop_last());
        assert(all.drop_last() =~= a + b.drop_last());
        assert(all.last() == b.last());
        assert(spans_text(all) =~= spans_text(a) + spans_text(b));
    }
}

/// The text of one span.
proof fn lemma_text_of_one(span: SpanView)
    ensures
        spans_text(seq![span]) == span.text,
{
    assert(seq![span].drop_last() =~= Seq::<SpanView>::empty());
    assert(spans_text(seq![span].drop_last()) == Seq::<char>::empty());
    assert(spans_text(seq![span]) =~= span.text);
}

/// Fields as they are read: keys and values with an equals sign between them, and commas between
/// the fields.
pub open spec fn fields_text(fields: FieldsView) -> Seq<char>
    decreases fields.len(),
{
    if fields.len() == 0 {
        Seq::empty()
    } else {
        let last = fields.last().0 + "="@ + fields.last().1;
        if fields.len() == 1 {
            last
        } else {
            fields_text(fields.drop_last()) + ", "@ + last
        }
    }
}

/// The text of the spans of fields.
proof fn lemma_text_of_entries(fields: FieldsView, n: int)
    requires
        0 <= n <= fields.len(),
    ensures
        spans_text(entry_spans(fields, n)) == fields_text(fields.subrange(0, n)),
    decreases n,
{
    let part = fields.subrange(0, n);
    if n == 0 {
        assert(spans_text(entry_spans(fields, n)) =~= fields_text(part));
    } else {
        lemma_text_of_entries(fields, n - 1);
        assert(part.drop_last() =~= fields.subrange(0, n - 1));
        assert(part.last() == fields[n - 1]);
        let separator = if n > 1 {
            seq![text_span(SpanKind::Message, ", "@)]
        } else {
            Seq::empty()
        };
        let key = text_span(SpanKind::JsonKey, fields[n - 1].0);
        let equals = text_span(SpanKind::Message, "="@);
        let value = text_span(SpanKind::JsonValue, fields[n - 1].1);
        let entry = seq![key, equals, value];
        assert(entry =~= seq![key] + seq![equals] + seq![value]);
        lemma_text_of_one(key);
        lemma_text_of_one(equals);
        lemma_text_of_one(value);
        lemma_text_of_both(seq![key], seq![equals]);
        lemma_text_of_both(seq![key] + seq![equals], seq![value]);
        lemma_text_of_both(entry_spans(fields, n - 1), separator);
        lemma_text_of_both(entry_spans(fields, n - 1) + separator, entry);
        if n > 1 {
            lemma_text_of_one(separator[0]);
            assert(separator =~= seq![separator[0]]);
        } else {
            assert(spans_text(separator) =~= Seq::<char>::empty());
            assert(entry_spans(fields, 0) =~= Seq::<SpanView>::empty());
        }
        assert(spans_text(entry_spans(fields, n)) =~= fields_text(part));
    }
}

/// A row reads as its timestamp, its severity, its message and its fields in braces, as far as it
/// has them, whatever is searched for.
pub proof fn law_what_a_row_reads_as(row: RowView, search: Option<Seq<char>>)
    ensures
        spans_text(row_spans(row, search)) == (match row.timestamp {
            Some(time) => chrono_rfc3339(time.secs(), time.nanos()) + " "@,
            None => Seq::empty(),
        }) + (match row.level {
            Some(level) => level.label() + " "@,
            None => Seq::empty(),
        }) + row.message + (if row.fields.len() > 0 {
            " {"@ + fields_text(row.fields) + "}"@
        } else {
            Seq::empty()
        }),
{
    let time = time_spans(row.timestamp);
    let level = level_spans(row.level);
    let message = message_spans(row.message, search);
    let fields = field_spans(row.fields);
    law_message_spans_hold_the_message(row.message, search);
    lemma_text_of_both(time, level);
    lemma_text_of_both(time + level, message);
    lemma_text_of_both(time + level + message, fields);
    let space = text_span(SpanKind::Message, " "@);
    lemma_text_of_one(space);
    if row.timestamp is Some {
        lemma_text_of_one(time[0]);
        lemma_text_of_both(seq![time[0]], seq![space]);
        assert(time =~= seq![time[0]] + seq![space]);
    } else {
        assert(spans_text(time) =~= Seq::<char>::empty());
    }
    if row.level is Some {
        lemma_text_of_one(level[0]);
        lemma_text_of_both(seq![level[0]], seq![space]);
        assert(level =~= seq![level[0]] + seq![space]);
    } else {
        assert(spans_text(level) =~= Seq::<char>::empty());
    }
    if row.fields.len() > 0 {
        let open = text_span(SpanKind::Message, " {"@);
        let close = text_span(SpanKind::Message, "}"@);
        let entries = entry_spans(row.fields, row.fields.len() as int);
        lemma_text_of_one(open);
        lemma_text_of_one(close);
        lemma_text_of_both(seq![open], entries);
        lemma_text_of_both(seq![open] + entries, seq![close]);
        lemma_text_of_entries(row.fields, row.fields.len() as int);
        assert(row.fields.subrange(0, row.fields.len() as int) =~= row.fields);
    } else {
        assert(spans_text(fields) =~= Seq::<char>::empty());
    }
}

/// The meanings of the first spans: a timestamp is told as one, a severity from error on as an
/// error, warn as a warning, and any other as a level.
pub proof fn law_meanings_of_the_first_spans(row: RowView, search: Option<Seq<char>>)
    ensures
        ({
            let spans = row_spans(row, search);
            let next = if row.timestamp is Some {
                2int
            } else {
                0
            };
            &&& row.timestamp is Some ==> spans.len() > 2 && spans[0].kind == SpanKind::Timestamp
            &&& row.level matches Some(level) ==> spans.len() > next && spans[next].text
                == level.label() && spans[next].kind == match level {
                LogLevel::Fatal => SpanKind::Error,
                LogLevel::Error => SpanKind::Error,
                LogLevel::Warn => SpanKind::Warning,
                LogLevel::Info => SpanKind::Level,
                LogLevel::Debug => SpanKind::Level,
                LogLevel::Trace => SpanKind::Level,
            }
        }),
{
    assert(message_spans(row.message, search).len() > 0);
}

/// A search is highlighted where it first stands in the message: the match holds the same letters
/// as the text that was searched for, it does not stand further ahead, and it is placed by bytes.
/// A message that does not contain the text is one span without a match.
pub proof fn law_first_match_is_highlighted(message: Seq<char>, search: Seq<char>)
    ensures
        ({
            let spans = message_spans(message, Some(search));
            &&& contains_folded(message, search) ==> exists|k: int, at: int|
                #![trigger spans[k], message.subrange(at, at + search.len())]
                {
                    let end = at + search.len();
                    &&& 0 <= k < spans.len()
                    &&& 0 <= at && end <= message.len()
                    &&& spans[k].kind == SpanKind::SearchMatch
                    &&& spans[k].text == message.subrange(at, end)
                    &&& same_letters(message.subrange(at, end), search)
                    &&& spans[k].byte_range == Some(
                        (
                            byte_len(message.subrange(0, at)),
                            byte_len(message.subrange(0, at)) + byte_len(search),
                        ),
                    )
                    &&& forall|other: int|
                        0 <= other < at ==> !same_letters(
                            #[trigger] message.subrange(other, other + search.len()),
                            search,
                        )
                }
            &&& !contains_folded(message, search) ==> spans == seq![
                text_span(SpanKind::Message, message),
            ]
        }),
{
    let spans = message_spans(message, Some(search));
    lemma_first_from(lowered(message), lowered(search), 0);
    if contains_folded(message, search) {
        let place = choose|place: int| occurs_at(lowered(message), lowered(search), place);
        assert(match_at(message, Some(search)) is Some);
        let at = match_at(message, Some(search))->0;
        let end = at + search.len();
        law_match_is_as_long_as_the_search(message, search);
        let k = message_part(message.subrange(0, at)).len() as int;
        let found = message.subrange(at, end);
        assert forall|i: int| 0 <= i < search.len() implies same_letter(
            found[i],
            #[trigger] search[i],
        ) by {
            assert(lowered(found)[i] == lowered(search)[i]);
        }
        assert forall|other: int| 0 <= other < at implies !same_letters(
            #[trigger] message.subrange(other, other + search.len()),
            search,
        ) by {
            let part = message.subrange(other, other + search.len());
            if same_letters(part, search) {
                assert forall|i: int| 0 <= i < search.len() implies lowered(message)[other + i]
                    == lowered(search)[i] by {
                    assert(same_letter(part[i], search[i]));
                }
                assert(lowered(message).subrange(other, other + search.len()) =~= lowered(search));
                assert(occurs_at(lowered(message), lowered(search), other));
            }
        }
        assert(spans[k].text == message.subrange(at, end));
    } else {
        if match_at(message, Some(search)) is Some {
            assert(occurs_at(lowered(message), lowered(search), match_at(message, Some(search))->0));
        }
    }
}

/// A line continues a stack trace exactly where it begins with whitespace, with `at ` and a space,
/// with `Caused by:`, or with three dots and a space.
pub proof fn law_lines_of_stack_traces(rest: Seq<char>, raw: Seq<char>)
    ensures
        continues_trace("at "@ + rest),
        continues_trace("Caused by:"@ + rest),
        continues_trace("... "@ + rest),
        raw.len() > 0 && is_white(raw[0]) ==> continues_trace(raw),
        continues_trace(raw) ==> raw.len() > 0 && (is_white(raw[0]) || raw[0] == 'a' || raw[0]
            == 'C' || raw[0] == '.'),
        continues_trace(raw) && raw[0] == 'a' ==> raw.len() >= 3 && raw[1] == 't' && raw[2] == ' ',
        continues_trace(raw) && raw[0] == '.' ==> raw.len() >= 4 && raw[1] == '.' && raw[2] == '.'
            && raw[3] == ' ',
        continues_trace(raw) && raw[0] == 'C' ==> raw.len() >= 10 && raw.subrange(0, 10)
            == "Caused by:"@,
{
    reveal_strlit("at ");
    reveal_strlit("Caused by:");
    reveal_strlit("... ");
    let a = "at "@;
    let b = "Caused by:"@;
    let c = "... "@;
    assert((a + rest).subrange(0, 3) =~= a);
    assert((b + rest).subrange(0, 10) =~= b);
    assert((c + rest).subrange(0, 4) =~= c);
    if begins_with(raw, a) {
        assert(raw.subrange(0, 3)[0] == raw[0] && raw.subrange(0, 3)[1] == raw[1] && raw.subrange(
            0,
            3,
        )[2] == raw[2]);
    }
    if begins_with(raw, b) {
        assert(raw.subrange(0, 10)[0] == raw[0]);
    }
    if begins_with(raw, c) {
        assert(raw.subrange(0, 4)[0] == raw[0] && raw.subrange(0, 4)[1] == raw[1] && raw.subrange(
            0,
            4,
        )[2] == raw[2] && raw.subrange(0, 4)[3] == raw[3]);
    }
}

} // verus!
