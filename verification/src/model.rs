//! Rows, sources and what a front-end is given to draw.
use crate::text::{
    chars_in, comes_before, decimal, law_order_is_total, lowered, lowercase, precedes, same_text,
    share, shared, trim, trimmed,
};
use crate::time::Timestamp;
use std::ops::Range;
use std::sync::Arc;
use vstd::prelude::*;

verus! {

/// Identifies a row. Ids grow with every row that is appended and are never used again.
#[derive(Debug, Clone, Copy, PartialEq, Eq, PartialOrd, Ord, Hash, Structural)]
pub struct RowId(pub u64);

/// Identifies a log source.
#[derive(Debug, Clone, Copy, PartialEq, Eq, PartialOrd, Ord, Hash, Structural)]
pub struct SourceId(pub u64);

/// The bytes of a source that a row was read from, its line terminator among them.
#[derive(Debug, Clone, Copy, PartialEq, Eq, Structural)]
pub struct ByteRange {
    pub start: u64,
    pub end: u64,
}

/// Severities, from the least to the most severe.
#[derive(Debug, Clone, Copy, PartialEq, Eq, PartialOrd, Ord, Hash, Structural)]
#[non_exhaustive]
pub enum LogLevel {
    Trace,
    Debug,
    Info,
    Warn,
    Error,
    Fatal,
}

/// The severity that a text names: one of the six words, or `warning`, whatever the case of its
/// letters and the whitespace around it.
pub open spec fn level_named(text: Seq<char>) -> Option<LogLevel> {
    let word = lowered(trimmed(text));
    if word == "trace"@ {
        Some(LogLevel::Trace)
    } else if word == "debug"@ {
        Some(LogLevel::Debug)
    } else if word == "info"@ {
        Some(LogLevel::Info)
    } else if word == "warn"@ || word == "warning"@ {
        Some(LogLevel::Warn)
    } else if word == "error"@ {
        Some(LogLevel::Error)
    } else if word == "fatal"@ {
        Some(LogLevel::Fatal)
    } else {
        None
    }
}

impl LogLevel {
    /// The place of the severity in their order.
    pub open spec fn rank(self) -> int {
        match self {
            LogLevel::Trace => 0,
            LogLevel::Debug => 1,
            LogLevel::Info => 2,
            LogLevel::Warn => 3,
            LogLevel::Error => 4,
            LogLevel::Fatal => 5,
        }
    }

    /// The name of the severity.
    pub open spec fn label(self) -> Seq<char> {
        match self {
            LogLevel::Trace => "Trace"@,
            LogLevel::Debug => "Debug"@,
            LogLevel::Info => "Info"@,
            LogLevel::Warn => "Warn"@,
            LogLevel::Error => "Error"@,
            LogLevel::Fatal => "Fatal"@,
        }
    }

    /// Reads a severity.
    pub fn parse(value: &str) -> (r: Option<Self>)
        ensures
            r == level_named(value@),
    {
        let word = lowercase(trim(value));
        let word: &str = word.as_str();
        if same_text(word, "trace") {
            Some(LogLevel::Trace)
        } else if same_text(word, "debug") {
            Some(LogLevel::Debug)
        } else if same_text(word, "info") {
            Some(LogLevel::Info)
        } else if same_text(word, "warn") || same_text(word, "warning") {
            Some(LogLevel::Warn)
        } else if same_text(word, "error") {
            Some(LogLevel::Error)
        } else if same_text(word, "fatal") {
            Some(LogLevel::Fatal)
        } else {
            None
        }
    }

    /// The place of the severity in their order.
    pub fn order(&self) -> (r: u8)
        ensures
            r == self.rank(),
    {
        match self {
            LogLevel::Trace => 0,
            LogLevel::Debug => 1,
            LogLevel::Info => 2,
            LogLevel::Warn => 3,
            LogLevel::Error => 4,
            LogLevel::Fatal => 5,
        }
    }

    /// Whether `self` is at least as severe as `min`.
    pub fn at_least(&self, min: LogLevel) -> (r: bool)
        ensures
            r == (self.rank() >= min.rank()),
    {
        self.order() >= min.order()
    }

    /// The name of the severity.
    pub fn name(&self) -> (r: &'static str)
        ensures
            r@ == self.label(),
    {
        match self {
            LogLevel::Trace => "Trace",
            LogLevel::Debug => "Debug",
            LogLevel::Info => "Info",
            LogLevel::Warn => "Warn",
            LogLevel::Error => "Error",
            LogLevel::Fatal => "Fatal",
        }
    }
}

/// What a source is.
#[derive(Debug, Clone, PartialEq, Eq)]
#[non_exhaustive]
pub enum LogSourceKind {
    File,
    Stdin,
    Other(Arc<str>),
}

/// A source kind as a value of mathematics.
pub ghost enum SourceKindView {
    File,
    Stdin,
    Other(Seq<char>),
}

impl View for LogSourceKind {
    type V = SourceKindView;

    open spec fn view(&self) -> SourceKindView {
        match *self {
            LogSourceKind::File => SourceKindView::File,
            LogSourceKind::Stdin => SourceKindView::Stdin,
            LogSourceKind::Other(name) => SourceKindView::Other(chars_in(name)),
        }
    }
}

/// A source that rows come from.
#[derive(Debug, Clone, PartialEq, Eq)]
pub struct SourceInfo {
    pub source_id: SourceId,
    pub name: Arc<str>,
    pub kind: LogSourceKind,
}

/// A source as a value of mathematics.
pub ghost struct SourceView {
    pub source_id: SourceId,
    pub name: Seq<char>,
    pub kind: SourceKindView,
}

impl View for SourceInfo {
    type V = SourceView;

    open spec fn view(&self) -> SourceView {
        SourceView { source_id: self.source_id, name: chars_in(self.name), kind: self.kind@ }
    }
}

/// The name that a source has before it is given one.
pub open spec fn default_source_name(source_id: SourceId) -> Seq<char> {
    "source-"@ + decimal(source_id.0 as nat)
}

/// How many rows there are of each severity.
#[derive(Debug, Clone, Copy, PartialEq, Eq, Structural)]
pub struct LevelCounts {
    pub trace: usize,
    pub debug: usize,
    pub info: usize,
    pub warn: usize,
    pub error: usize,
    pub fatal: usize,
    pub unknown: usize,
}

impl LevelCounts {
    /// The count that rows of severity `level` go to.
    pub open spec fn of(self, level: Option<LogLevel>) -> nat {
        match level {
            Some(LogLevel::Trace) => self.trace as nat,
            Some(LogLevel::Debug) => self.debug as nat,
            Some(LogLevel::Info) => self.info as nat,
            Some(LogLevel::Warn) => self.warn as nat,
            Some(LogLevel::Error) => self.error as nat,
            Some(LogLevel::Fatal) => self.fatal as nat,
            None => self.unknown as nat,
        }
    }

    /// All rows counted.
    pub open spec fn sum(self) -> nat {
        (self.trace + self.debug + self.info + self.warn + self.error + self.fatal
            + self.unknown) as nat
    }

    /// No rows.
    pub fn none() -> (r: LevelCounts)
        ensures
            forall|level: Option<LogLevel>| r.of(level) == 0,
            r.sum() == 0,
    {
        LevelCounts { trace: 0, debug: 0, info: 0, warn: 0, error: 0, fatal: 0, unknown: 0 }
    }

    /// Counts one more row of severity `level`.
    pub fn record(&mut self, level: Option<LogLevel>)
        requires
            old(self).of(level) < usize::MAX,
        ensures
            forall|other: Option<LogLevel>|
                final(self).of(other) == old(self).of(other) + (if other == level {
                    1nat
                } else {
                    0nat
                }),
            final(self).sum() == old(self).sum() + 1,
    {
        match level {
            Some(LogLevel::Trace) => self.trace = self.trace + 1,
            Some(LogLevel::Debug) => self.debug = self.debug + 1,
            Some(LogLevel::Info) => self.info = self.info + 1,
            Some(LogLevel::Warn) => self.warn = self.warn + 1,
            Some(LogLevel::Error) => self.error = self.error + 1,
            Some(LogLevel::Fatal) => self.fatal = self.fatal + 1,
            None => self.unknown = self.unknown + 1,
        }
    }
}

impl Default for LevelCounts {
    fn default() -> (r: LevelCounts)
        ensures
            forall|level: Option<LogLevel>| r.of(level) == 0,
            r.sum() == 0,
    {
        LevelCounts::none()
    }
}

/// What the rows of one source amount to.
#[derive(Debug, Clone, PartialEq, Eq)]
pub struct SourceSummary {
    pub source_id: SourceId,
    pub name: Arc<str>,
    pub rows: usize,
    pub level_counts: LevelCounts,
}

/// The rows of one stretch of time.
#[derive(Debug, Clone, Copy, PartialEq, Eq, Structural)]
pub struct TimelineBucket {
    pub start: Timestamp,
    pub end: Timestamp,
    pub total: usize,
    pub warn: usize,
    pub error: usize,
}

impl TimelineBucket {
    /// The rows of severity `Warn`.
    pub fn warn_count(&self) -> (r: usize)
        ensures
            r == self.warn,
    {
        self.warn
    }

    /// The rows of severity `Error` or `Fatal`.
    pub fn error_count(&self) -> (r: usize)
        ensures
            r == self.error,
    {
        self.error
    }
}

/// Keys and values in dictionary order of the keys.
pub type FieldsView = Seq<(Seq<char>, Seq<char>)>;

/// The keys are in dictionary order and none occurs twice.
pub open spec fn keys_ascend(fields: FieldsView) -> bool {
    forall|i: int, j: int| 0 <= i < j < fields.len() ==> precedes(fields[i].0, fields[j].0)
}

/// The value under `key`.
pub open spec fn field_value(fields: FieldsView, key: Seq<char>) -> Option<Seq<char>>
    decreases fields.len(),
{
    if fields.len() == 0 {
        None
    } else if fields[0].0 == key {
        Some(fields[0].1)
    } else {
        field_value(fields.subrange(1, fields.len() as int), key)
    }
}

/// `fields` with `value` under `key`: in the place of the value that was there, or else in front
/// of the first greater key.
pub open spec fn with_field(fields: FieldsView, key: Seq<char>, value: Seq<char>) -> FieldsView
    decreases fields.len(),
{
    if fields.len() == 0 || precedes(key, fields[0].0) {
        seq![(key, value)] + fields
    } else if fields[0].0 == key {
        seq![(key, value)] + fields.subrange(1, fields.len() as int)
    } else {
        seq![fields[0]] + with_field(fields.subrange(1, fields.len() as int), key, value)
    }
}

/// The structured fields of a row, in dictionary order of their keys.
#[derive(Debug, PartialEq, Eq)]
pub struct ParsedFields {
    entries: Vec<(Arc<str>, Arc<str>)>,
}

impl View for ParsedFields {
    type V = FieldsView;

    closed spec fn view(&self) -> FieldsView {
        pair_views(self.entries@)
    }
}

impl ParsedFields {
    #[verifier::type_invariant]
    closed spec fn in_order(self) -> bool {
        keys_ascend(self@)
    }

    /// No fields.
    pub fn new() -> (r: ParsedFields)
        ensures
            r@ == FieldsView::empty(),
    {
        let r = ParsedFields { entries: Vec::new() };
        assert(r@ =~= FieldsView::empty());
        r
    }

    /// Puts `value` under `key`.
    pub fn insert(&mut self, key: &str, value: &str)
        ensures
            final(self)@ == with_field(old(self)@, key@, value@),
            keys_ascend(final(self)@),
    {
        let ghost before = self@;
        proof {
            use_type_invariant(&*self);
            law_insert_keeps_keys_ascending(before, key@, value@);
            assert(before.subrange(0, before.len() as int) =~= before);
            assert(before.subrange(0, 0) + with_field(before, key@, value@) =~= with_field(
                before,
                key@,
                value@,
            ));
        }
        let mut fields = ParsedFields::new();
        std::mem::swap(self, &mut fields);
        let mut entries = fields.entries;
        let mut at: usize = 0;
        while at < entries.len() && !comes_before(key, &*entries[at].0) && !same_text(
            &*entries[at].0,
            key,
        )
            invariant
                at <= entries.len(),
                before == pair_views(entries@),
                with_field(before, key@, value@) == before.subrange(0, at as int) + with_field(
                    before.subrange(at as int, before.len() as int),
                    key@,
                    value@,
                ),
            decreases entries.len() - at,
        {
            proof {
                let rest = before.subrange(at as int, before.len() as int);
                assert(rest[0] == before[at as int]);
                assert(rest.subrange(1, rest.len() as int) =~= before.subrange(
                    at + 1,
                    before.len() as int,
                ));
                assert(before.subrange(0, at as int) + (seq![rest[0]] + with_field(
                    before.subrange(at + 1, before.len() as int),
                    key@,
                    value@,
                )) =~= before.subrange(0, at + 1) + with_field(
                    before.subrange(at + 1, before.len() as int),
                    key@,
                    value@,
                ));
            }
            at += 1;
        }
        let entry = (shared(key), shared(value));
        let ghost rest = before.subrange(at as int, before.len() as int);
        if at < entries.len() && same_text(&*entries[at].0, key) {
            proof {
                assert(rest[0] == before[at as int]);
                crate::text::law_order_is_irreflexive(key@);
            }
            entries.set(at, entry);
            assert(pair_views(entries@) =~= before.subrange(0, at as int) + (seq![(key@, value@)]
                + rest.subrange(1, rest.len() as int)));
        } else {
            proof {
                if at < before.len() {
                    assert(rest[0] == before[at as int]);
                }
            }
            entries.insert(at, entry);
            assert(pair_views(entries@) =~= before.subrange(0, at as int) + (seq![(key@, value@)]
                + rest));
        }
        *self = ParsedFields { entries };
    }

    /// Whether there are no fields.
    pub fn is_empty(&self) -> (r: bool)
        ensures
            r == (self@.len() == 0),
    {
        self.entries.len() == 0
    }

    /// How many fields there are. Their keys are in dictionary order.
    pub fn len(&self) -> (r: usize)
        ensures
            r == self@.len(),
            keys_ascend(self@),
    {
        proof {
            use_type_invariant(self);
        }
        self.entries.len()
    }

    /// The key and the value at index `at`.
    pub fn entry(&self, at: usize) -> (r: (&Arc<str>, &Arc<str>))
        requires
            at < self@.len(),
        ensures
            chars_in(*r.0) == self@[at as int].0,
            chars_in(*r.1) == self@[at as int].1,
    {
        let entry = &self.entries[at];
        (&entry.0, &entry.1)
    }

    /// The value under `key`.
    pub fn get(&self, key: &str) -> (r: Option<&str>)
        ensures
            match r {
                Some(value) => field_value(self@, key@) == Some(value@),
                None => field_value(self@, key@) is None,
            },
    {
        let mut at: usize = 0;
        proof {
            assert(self@.subrange(0, self@.len() as int) =~= self@);
        }
        while at < self.entries.len()
            invariant
                at <= self.entries.len(),
                field_value(self@, key@) == field_value(
                    self@.subrange(at as int, self@.len() as int),
                    key@,
                ),
            decreases self.entries.len() - at,
        {
            let ghost rest = self@.subrange(at as int, self@.len() as int);
            proof {
                assert(rest[0] == self@[at as int]);
                assert(rest.subrange(1, rest.len() as int) =~= self@.subrange(
                    at + 1,
                    self@.len() as int,
                ));
            }
            if same_text(&*self.entries[at].0, key) {
                return Some(&*self.entries[at].1);
            }
            at += 1;
        }
        None
    }
}

impl Clone for ParsedFields {
    fn clone(&self) -> (r: ParsedFields)
        ensures
            r@ == self@,
    {
        proof {
            use_type_invariant(self);
        }
        let mut entries: Vec<(Arc<str>, Arc<str>)> = Vec::new();
        let mut i: usize = 0;
        while i < self.entries.len()
            invariant
                i <= self.entries.len(),
                pair_views(entries@) == self@.subrange(0, i as int),
            decreases self.entries.len() - i,
        {
            let ghost done = pair_views(entries@);
            let entry = &self.entries[i];
            entries.push((share(&entry.0), share(&entry.1)));
            assert(pair_views(entries@) =~= done.push(self@[i as int]));
            i += 1;
            assert(self@.subrange(0, i as int) =~= done.push(self@[i - 1]));
        }
        assert(self@.subrange(0, i as int) =~= self@);
        ParsedFields { entries }
    }
}

impl Default for ParsedFields {
    fn default() -> (r: ParsedFields)
        ensures
            r@ == FieldsView::empty(),
    {
        ParsedFields::new()
    }
}

/// Inserting a field keeps the keys in strict dictionary order.
pub proof fn law_insert_keeps_keys_ascending(fields: FieldsView, key: Seq<char>, value: Seq<char>)
    requires
        keys_ascend(fields),
    ensures
        keys_ascend(with_field(fields, key, value)),
        forall|i: int|
            #![trigger with_field(fields, key, value)[i]]
            0 <= i < with_field(fields, key, value).len() ==> with_field(fields, key, value)[i].0
                == key || exists|j: int|
                0 <= j < fields.len() && with_field(fields, key, value)[i].0 == fields[j].0,
    decreases fields.len(),
{
    let result = with_field(fields, key, value);
    if fields.len() == 0 {
    } else if precedes(key, fields[0].0) {
        assert forall|i: int, j: int| 0 <= i < j < result.len() implies precedes(
            result[i].0,
            result[j].0,
        ) by {
            if i == 0 && j > 1 {
                assert(precedes(fields[0].0, fields[j - 1].0));
                crate::text::law_order_is_transitive(key, fields[0].0, fields[j - 1].0);
            }
        }
        assert forall|i: int| #![trigger result[i]] 0 <= i < result.len() implies result[i].0
            == key || exists|j: int| 0 <= j < fields.len() && result[i].0 == fields[j].0 by {
            if i > 0 {
                assert(result[i].0 == fields[i - 1].0);
            }
        }
    } else if fields[0].0 == key {
        assert forall|i: int| #![trigger result[i]] 0 <= i < result.len() implies result[i].0
            == key || exists|j: int| 0 <= j < fields.len() && result[i].0 == fields[j].0 by {
            assert(result[i].0 == fields[i].0);
        }
    } else {
        let rest = fields.subrange(1, fields.len() as int);
        law_insert_keeps_keys_ascending(rest, key, value);
        law_order_is_total(key, fields[0].0);
        let tail = with_field(rest, key, value);
        assert forall|i: int| #![trigger result[i]] 0 <= i < result.len() implies result[i].0
            == key || exists|j: int| 0 <= j < fields.len() && result[i].0 == fields[j].0 by {
            if i == 0 {
                assert(result[i].0 == fields[0].0);
            } else {
                assert(result[i] == tail[i - 1]);
                if result[i].0 != key {
                    let j = choose|j: int| 0 <= j < rest.len() && tail[i - 1].0 == rest[j].0;
                    assert(result[i].0 == fields[j + 1].0);
                }
            }
        }
        assert forall|i: int, j: int| 0 <= i < j < result.len() implies precedes(
            result[i].0,
            result[j].0,
        ) by {
            assert(result[j] == tail[j - 1]);
            if i > 0 {
                assert(result[i] == tail[i - 1]);
            } else if tail[j - 1].0 != key {
                let k = choose|k: int| 0 <= k < rest.len() && tail[j - 1].0 == rest[k].0;
                assert(precedes(fields[0].0, fields[k + 1].0));
            }
        }
    }
}

/// After an insertion the key holds the new value, and every other key holds what it held.
pub proof fn law_insert_then_get(
    fields: FieldsView,
    key: Seq<char>,
    value: Seq<char>,
    other: Seq<char>,
)
    requires
        keys_ascend(fields),
    ensures
        field_value(with_field(fields, key, value), other) == if other == key {
            Some(value)
        } else {
            field_value(fields, other)
        },
    decreases fields.len(),
{
    let result = with_field(fields, key, value);
    if fields.len() == 0 || precedes(key, fields[0].0) {
        assert(result.subrange(1, result.len() as int) =~= fields);
    } else if fields[0].0 == key {
        assert(result.subrange(1, result.len() as int) =~= fields.subrange(1, fields.len() as int));
    } else {
        let rest = fields.subrange(1, fields.len() as int);
        law_insert_then_get(rest, key, value, other);
        assert(result.subrange(1, result.len() as int) =~= with_field(rest, key, value));
    }
}

/// One line of a log.
#[derive(Debug, Clone, PartialEq, Eq)]
pub struct LogRow {
    pub row_id: RowId,
    pub source_id: SourceId,
    pub byte_range: ByteRange,
    pub timestamp: Option<Timestamp>,
    pub level: Option<LogLevel>,
    pub raw: Arc<str>,
    pub message: Arc<str>,
    pub fields: ParsedFields,
}

/// A row as a value of mathematics.
pub ghost struct RowView {
    pub row_id: RowId,
    pub source_id: SourceId,
    pub byte_range: ByteRange,
    pub timestamp: Option<Timestamp>,
    pub level: Option<LogLevel>,
    pub raw: Seq<char>,
    pub message: Seq<char>,
    pub fields: FieldsView,
}

impl View for LogRow {
    type V = RowView;

    open spec fn view(&self) -> RowView {
        RowView {
            row_id: self.row_id,
            source_id: self.source_id,
            byte_range: self.byte_range,
            timestamp: self.timestamp,
            level: self.level,
            raw: chars_in(self.raw),
            message: chars_in(self.message),
            fields: self.fields@,
        }
    }
}

/// The rows of a list.
pub open spec fn row_views(rows: Seq<LogRow>) -> Seq<RowView> {
    Seq::new(rows.len(), |i: int| rows[i]@)
}

/// What a span of a presented row is. Front-ends choose their styling by it.
#[derive(Debug, Clone, Copy, PartialEq, Eq, Hash, Structural)]
#[non_exhaustive]
pub enum SpanKind {
    Timestamp,
    Level,
    Source,
    Message,
    JsonKey,
    JsonValue,
    SearchMatch,
    Error,
    Warning,
    StackTrace,
}

/// The severity band of a row. Front-ends choose its colour.
#[derive(Debug, Clone, Copy, PartialEq, Eq, Hash, Structural)]
pub enum SeverityRole {
    Fatal,
    Error,
    Warn,
    Info,
    Debug,
    Trace,
    Unknown,
}

/// The band of a severity.
pub open spec fn role_of(level: Option<LogLevel>) -> SeverityRole {
    match level {
        Some(LogLevel::Fatal) => SeverityRole::Fatal,
        Some(LogLevel::Error) => SeverityRole::Error,
        Some(LogLevel::Warn) => SeverityRole::Warn,
        Some(LogLevel::Info) => SeverityRole::Info,
        Some(LogLevel::Debug) => SeverityRole::Debug,
        Some(LogLevel::Trace) => SeverityRole::Trace,
        None => SeverityRole::Unknown,
    }
}

impl SeverityRole {
    /// The band of a severity.
    pub fn from_level(level: Option<LogLevel>) -> (r: Self)
        ensures
            r == role_of(level),
    {
        match level {
            Some(LogLevel::Fatal) => SeverityRole::Fatal,
            Some(LogLevel::Error) => SeverityRole::Error,
            Some(LogLevel::Warn) => SeverityRole::Warn,
            Some(LogLevel::Info) => SeverityRole::Info,
            Some(LogLevel::Debug) => SeverityRole::Debug,
            Some(LogLevel::Trace) => SeverityRole::Trace,
            None => SeverityRole::Unknown,
        }
    }
}

/// Two severities of the same band are the same severity.
pub proof fn law_bands_tell_severities_apart(a: Option<LogLevel>, b: Option<LogLevel>)
    requires
        role_of(a) == role_of(b),
    ensures
        a == b,
{
}

/// A piece of text with its meaning. `byte_range` places a search match in the message.
#[derive(Debug, Clone, PartialEq, Eq)]
pub struct StyledSpan {
    pub kind: SpanKind,
    pub text: Arc<str>,
    pub byte_range: Option<Range<usize>>,
}

/// A span as a value of mathematics.
pub ghost struct SpanView {
    pub kind: SpanKind,
    pub text: Seq<char>,
    pub byte_range: Option<(nat, nat)>,
}

impl View for StyledSpan {
    type V = SpanView;

    open spec fn view(&self) -> SpanView {
        SpanView {
            kind: self.kind,
            text: chars_in(self.text),
            byte_range: match self.byte_range {
                Some(range) => Some((range.start as nat, range.end as nat)),
                None => None,
            },
        }
    }
}

/// The spans of a list.
pub open spec fn span_views(spans: Seq<StyledSpan>) -> Seq<SpanView> {
    Seq::new(spans.len(), |i: int| spans[i]@)
}

/// A row as a front-end draws it.
#[derive(Debug, Clone, PartialEq, Eq)]
pub struct RowPresentation {
    pub row_id: RowId,
    pub source_id: SourceId,
    pub source_name: Option<Arc<str>>,
    pub spans: Vec<StyledSpan>,
    pub level: Option<LogLevel>,
    pub is_match: bool,
    pub is_selected: bool,
    pub is_bookmarked: bool,
    pub is_stack_continuation: bool,
    pub folded_stack_rows: usize,
}

/// A presented row as a value of mathematics.
pub ghost struct PresentationView {
    pub row_id: RowId,
    pub source_id: SourceId,
    pub source_name: Option<Seq<char>>,
    pub spans: Seq<SpanView>,
    pub level: Option<LogLevel>,
    pub is_match: bool,
    pub is_selected: bool,
    pub is_bookmarked: bool,
    pub is_stack_continuation: bool,
    pub folded_stack_rows: nat,
}

impl View for RowPresentation {
    type V = PresentationView;

    open spec fn view(&self) -> PresentationView {
        PresentationView {
            row_id: self.row_id,
            source_id: self.source_id,
            source_name: match self.source_name {
                Some(name) => Some(chars_in(name)),
                None => None,
            },
            spans: span_views(self.spans@),
            level: self.level,
            is_match: self.is_match,
            is_selected: self.is_selected,
            is_bookmarked: self.is_bookmarked,
            is_stack_continuation: self.is_stack_continuation,
            folded_stack_rows: self.folded_stack_rows as nat,
        }
    }
}

/// The keys and values among `spans`. A value goes with the key last seen, and uses it up.
pub open spec fn field_pairs(spans: Seq<SpanView>, pending: Option<Seq<char>>) -> Seq<
    (Seq<char>, Seq<char>),
>
    decreases spans.len(),
{
    if spans.len() == 0 {
        Seq::empty()
    } else {
        let rest = spans.subrange(1, spans.len() as int);
        match spans[0].kind {
            SpanKind::JsonKey => field_pairs(rest, Some(spans[0].text)),
            SpanKind::JsonValue => match pending {
                Some(key) => seq![(key, spans[0].text)] + field_pairs(rest, None),
                None => field_pairs(rest, None),
            },
            _ => field_pairs(rest, pending),
        }
    }
}

/// The texts of a list of pairs.
pub open spec fn pair_views(pairs: Seq<(Arc<str>, Arc<str>)>) -> Seq<(Seq<char>, Seq<char>)> {
    Seq::new(pairs.len(), |i: int| (chars_in(pairs[i].0), chars_in(pairs[i].1)))
}

impl RowPresentation {
    /// The structured fields among the spans.
    pub fn json_fields(&self) -> (r: Vec<(Arc<str>, Arc<str>)>)
        ensures
            pair_views(r@) == field_pairs(self@.spans, None),
    {
        let mut fields: Vec<(Arc<str>, Arc<str>)> = Vec::new();
        let mut pending: Option<Arc<str>> = None;
        let mut i: usize = 0;
        let ghost all = self@.spans;
        proof {
            assert(all.subrange(0, all.len() as int) =~= all);
            assert(pair_views(fields@) + field_pairs(all, None) =~= field_pairs(all, None));
        }
        while i < self.spans.len()
            invariant
                i <= self.spans.len(),
                all == self@.spans,
                field_pairs(all, None) == pair_views(fields@) + field_pairs(
                    all.subrange(i as int, all.len() as int),
                    match pending {
                        Some(key) => Some(chars_in(key)),
                        None => None,
                    },
                ),
            decreases self.spans.len() - i,
        {
            let span = &self.spans[i];
            let ghost rest = all.subrange(i as int, all.len() as int);
            let ghost done = pair_views(fields@);
            proof {
                assert(rest[0] == span@);
                assert(rest.subrange(1, rest.len() as int) =~= all.subrange(
                    i + 1,
                    all.len() as int,
                ));
            }
            match span.kind {
                SpanKind::JsonKey => {
                    pending = Some(share(&span.text));
                },
                SpanKind::JsonValue => {
                    if let Some(key) = pending {
                        let value = share(&span.text);
                        let ghost pair = (chars_in(key), chars_in(value));
                        fields.push((key, value));
                        proof {
                            assert(pair_views(fields@) =~= done.push(pair));
                            assert(done.push(pair) + field_pairs(
                                all.subrange(i + 1, all.len() as int),
                                None,
                            ) =~= done + (seq![pair] + field_pairs(
                                all.subrange(i + 1, all.len() as int),
                                None,
                            )));
                        }
                    }
                    pending = None;
                },
                _ => {},
            }
            i += 1;
        }
        proof {
            let end = all.subrange(i as int, all.len() as int);
            assert(pair_views(fields@) =~= pair_views(fields@) + Seq::<(Seq<char>, Seq<char>)>::empty());
        }
        fields
    }

    /// The severity band of the row.
    pub fn severity_role(&self) -> (r: SeverityRole)
        ensures
            r == role_of(self.level),
    {
        SeverityRole::from_level(self.level)
    }
}

/// The rows that a front-end asks for.
#[derive(Debug, Clone, Copy, PartialEq, Eq, Structural)]
pub struct ViewportRequest {
    pub first_row: usize,
    pub row_count: usize,
}

/// What a front-end is given to draw.
#[derive(Debug, Clone, PartialEq, Eq)]
pub struct ViewportSnapshot {
    pub rows: Vec<RowPresentation>,
    pub total_rows: usize,
    pub total_matching_rows: usize,
    pub has_more_before: bool,
    pub has_more_after: bool,
    pub level_counts: LevelCounts,
    pub source_summaries: Vec<SourceSummary>,
    pub timeline: Vec<TimelineBucket>,
}

/// Severities rise from trace over debug, info, warn and error to fatal.
pub proof fn law_severities_rise()
    ensures
        LogLevel::Trace.rank() < LogLevel::Debug.rank(),
        LogLevel::Debug.rank() < LogLevel::Info.rank(),
        LogLevel::Info.rank() < LogLevel::Warn.rank(),
        LogLevel::Warn.rank() < LogLevel::Error.rank(),
        LogLevel::Error.rank() < LogLevel::Fatal.rank(),
{
}

/// A text names a severity exactly where it is the name of it, whatever the case of its letters
/// and the whitespace around it; `warning` is another name of warn.
pub proof fn law_names_of_severities(text: Seq<char>, level: LogLevel)
    ensures
        level_named(text) == Some(level) <==> lowered(trimmed(text)) == lowered(level.label()) || (
        level == LogLevel::Warn && lowered(trimmed(text)) == "warning"@),
        LogLevel::Trace.label() == "Trace"@,
        LogLevel::Debug.label() == "Debug"@,
        LogLevel::Info.label() == "Info"@,
        LogLevel::Warn.label() == "Warn"@,
        LogLevel::Error.label() == "Error"@,
        LogLevel::Fatal.label() == "Fatal"@,
{
    reveal_strlit("trace");
    reveal_strlit("debug");
    reveal_strlit("info");
    reveal_strlit("warn");
    reveal_strlit("warning");
    reveal_strlit("error");
    reveal_strlit("fatal");
    reveal_strlit("Trace");
    reveal_strlit("Debug");
    reveal_strlit("Info");
    reveal_strlit("Warn");
    reveal_strlit("Error");
    reveal_strlit("Fatal");
    assert(lowered("Trace"@) =~= "trace"@);
    assert(lowered("Debug"@) =~= "debug"@);
    assert(lowered("Info"@) =~= "info"@);
    assert(lowered("Warn"@) =~= "warn"@);
    assert(lowered("Error"@) =~= "error"@);
    assert(lowered("Fatal"@) =~= "fatal"@);
    assert("trace"@[0] == 't' && "debug"@[0] == 'd' && "info"@[0] == 'i' && "warn"@[0] == 'w');
    assert("error"@[0] == 'e' && "fatal"@[0] == 'f' && "warning"@[0] == 'w');
    assert("warn"@.len() == 4 && "warning"@.len() == 7);
}

/// Each severity has the band of its own name, and rows without one have the unknown band.
pub proof fn law_bands_of_severities()
    ensures
        role_of(Some(LogLevel::Fatal)) == SeverityRole::Fatal,
        role_of(Some(LogLevel::Error)) == SeverityRole::Error,
        role_of(Some(LogLevel::Warn)) == SeverityRole::Warn,
        role_of(Some(LogLevel::Info)) == SeverityRole::Info,
        role_of(Some(LogLevel::Debug)) == SeverityRole::Debug,
        role_of(Some(LogLevel::Trace)) == SeverityRole::Trace,
        role_of(None) == SeverityRole::Unknown,
{
}

/// A count is that of its own severity: the seven counts are told apart.
pub proof fn law_counts_are_told_apart(counts: LevelCounts)
    ensures
        counts.of(Some(LogLevel::Trace)) == counts.trace,
        counts.of(Some(LogLevel::Debug)) == counts.debug,
        counts.of(Some(LogLevel::Info)) == counts.info,
        counts.of(Some(LogLevel::Warn)) == counts.warn,
        counts.of(Some(LogLevel::Error)) == counts.error,
        counts.of(Some(LogLevel::Fatal)) == counts.fatal,
        counts.of(None) == counts.unknown,
        counts.sum() == counts.trace + counts.debug + counts.info + counts.warn + counts.error
            + counts.fatal + counts.unknown,
{
}

/// A field is found under a key exactly where the fields hold that key, with the value that stands
/// beside it.
pub proof fn law_field_is_found_by_its_key(fields: FieldsView, i: int, key: Seq<char>)
    requires
        keys_ascend(fields),
    ensures
        0 <= i < fields.len() ==> field_value(fields, fields[i].0) == Some(fields[i].1),
        (forall|k: int| 0 <= k < fields.len() ==> (#[trigger] fields[k]).0 != key) ==> field_value(
            fields,
            key,
        ) is None,
    decreases fields.len(),
{
    if fields.len() > 0 {
        let rest = fields.subrange(1, fields.len() as int);
        assert forall|a: int, b: int| 0 <= a < b < rest.len() implies precedes(
            rest[a].0,
            rest[b].0,
        ) by {
            assert(rest[a] == fields[a + 1] && rest[b] == fields[b + 1]);
        }
        law_field_is_found_by_its_key(rest, i - 1, key);
        if 0 < i < fields.len() {
            assert(rest[i - 1] == fields[i]);
            assert(precedes(fields[0].0, fields[i].0));
            crate::text::law_order_is_irreflexive(fields[0].0);
        }
        if forall|k: int| 0 <= k < fields.len() ==> (#[trigger] fields[k]).0 != key {
            assert(fields[0].0 != key);
            assert forall|k: int| 0 <= k < rest.len() implies (#[trigger] rest[k]).0 != key by {
                assert(rest[k] == fields[k + 1]);
            }
        }
    }
}

} // verus!
