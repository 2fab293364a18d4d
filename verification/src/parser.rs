//! Parsers that turn a line of text into a row.
use crate::json::{
    is_reserved, json_reading, member_of, member_views, read_record, record_in, reserved_key,
    JsonMember, MemberView, ShapeView,
};
use crate::model::{
    field_value, keys_ascend, law_insert_keeps_keys_ascending, law_insert_then_get, level_named,
    with_field, ByteRange, FieldsView, LogLevel, LogRow, ParsedFields, RowId, RowView,
    SourceId,
};
use crate::text::{contains, contains_text, same_text, share, shared};
use crate::time::{chrono_reading, timestamp_at, timestamp_named, Timestamp};
use vstd::prelude::*;

verus! {

/// Turns lines of text into rows.
pub trait LogParser: Send + Sync {
    /// The name of the parser.
    spec fn label(&self) -> Seq<char>;

    /// The row that the parser makes of a line.
    spec fn row_of(
        &self,
        source_id: SourceId,
        row_id: RowId,
        byte_range: ByteRange,
        line: Seq<char>,
    ) -> RowView;

    /// The name of the parser.
    fn name(&self) -> (r: &'static str)
        ensures
            r@ == self.label(),
    ;

    /// Makes a row of a line.
    fn parse_line(
        &self,
        source_id: SourceId,
        row_id: RowId,
        byte_range: ByteRange,
        line: &str,
    ) -> (r: LogRow)
        ensures
            r@ == self.row_of(source_id, row_id, byte_range, line@),
    ;
}

/// The severity whose name in capitals stands in the line; the least severe of several.
pub open spec fn level_in_line(line: Seq<char>) -> Option<LogLevel> {
    if contains(line, "TRACE"@) {
        Some(LogLevel::Trace)
    } else if contains(line, "DEBUG"@) {
        Some(LogLevel::Debug)
    } else if contains(line, "INFO"@) {
        Some(LogLevel::Info)
    } else if contains(line, "WARN"@) || contains(line, "WARNING"@) {
        Some(LogLevel::Warn)
    } else if contains(line, "ERROR"@) {
        Some(LogLevel::Error)
    } else if contains(line, "FATAL"@) {
        Some(LogLevel::Fatal)
    } else {
        None
    }
}

/// The row of a line of plain text: the line is its message, and it has no time and no fields.
pub open spec fn plain_row(
    source_id: SourceId,
    row_id: RowId,
    byte_range: ByteRange,
    line: Seq<char>,
) -> RowView {
    RowView {
        row_id,
        source_id,
        byte_range,
        timestamp: None,
        level: level_in_line(line),
        raw: line,
        message: line,
        fields: FieldsView::empty(),
    }
}

/// Takes each line as it is.
#[derive(Debug, Default, Clone, Copy)]
pub struct PlainTextParser;

impl PlainTextParser {
    /// The severity that the line names in capitals.
    pub fn detect_level(line: &str) -> (r: Option<LogLevel>)
        ensures
            r == level_in_line(line@),
    {
        if contains_text(line, "TRACE") {
            Some(LogLevel::Trace)
        } else if contains_text(line, "DEBUG") {
            Some(LogLevel::Debug)
        } else if contains_text(line, "INFO") {
            Some(LogLevel::Info)
        } else if contains_text(line, "WARN") || contains_text(line, "WARNING") {
            Some(LogLevel::Warn)
        } else if contains_text(line, "ERROR") {
            Some(LogLevel::Error)
        } else if contains_text(line, "FATAL") {
            Some(LogLevel::Fatal)
        } else {
            None
        }
    }
}

impl LogParser for PlainTextParser {
    open spec fn label(&self) -> Seq<char> {
        "plain"@
    }

    open spec fn row_of(
        &self,
        source_id: SourceId,
        row_id: RowId,
        byte_range: ByteRange,
        line: Seq<char>,
    ) -> RowView {
        plain_row(source_id, row_id, byte_range, line)
    }

    fn name(&self) -> (r: &'static str) {
        "plain"
    }

    fn parse_line(
        &self,
        source_id: SourceId,
        row_id: RowId,
        byte_range: ByteRange,
        line: &str,
    ) -> (r: LogRow) {
        let raw = shared(line);
        let message = share(&raw);
        LogRow {
            row_id,
            source_id,
            byte_range,
            timestamp: None,
            level: Self::detect_level(line),
            raw,
            message,
            fields: ParsedFields::new(),
        }
    }
}

/// The first member with this key.
pub open spec fn member(record: Seq<MemberView>, key: Seq<char>) -> Option<MemberView>
    decreases record.len(),
{
    if record.len() == 0 {
        None
    } else if record[0].key == key {
        Some(record[0])
    } else {
        member(record.subrange(1, record.len() as int), key)
    }
}

/// The string under this key.
pub open spec fn member_text(record: Seq<MemberView>, key: Seq<char>) -> Option<Seq<char>> {
    match member(record, key) {
        Some(found) => found.text,
        None => None,
    }
}

/// The text of the time: the first of the four keys that is there decides, string or not.
pub open spec fn time_text(record: Seq<MemberView>) -> Option<Seq<char>> {
    if member(record, "timestamp"@) is Some {
        member_text(record, "timestamp"@)
    } else if member(record, "time"@) is Some {
        member_text(record, "time"@)
    } else if member(record, "ts"@) is Some {
        member_text(record, "ts"@)
    } else {
        member_text(record, "@timestamp"@)
    }
}

/// The time of a record.
pub open spec fn record_time(record: Seq<MemberView>) -> Option<Timestamp> {
    match time_text(record) {
        Some(text) => timestamp_named(text),
        None => None,
    }
}

/// The text of the severity: the one inside `log`, else `level`, else `severity`.
pub open spec fn level_text(record: Seq<MemberView>) -> Option<Seq<char>> {
    let nested = match member(record, "log"@) {
        Some(found) => found.level,
        None => None,
    };
    if nested is Some {
        nested
    } else if member_text(record, "level"@) is Some {
        member_text(record, "level"@)
    } else {
        member_text(record, "severity"@)
    }
}

/// The severity of a record.
pub open spec fn record_level(record: Seq<MemberView>) -> Option<LogLevel> {
    match level_text(record) {
        Some(text) => level_named(text),
        None => None,
    }
}

/// The message of a record: `message`, else `msg`, else `log`.
pub open spec fn record_message(record: Seq<MemberView>) -> Option<Seq<char>> {
    if member_text(record, "message"@) is Some {
        member_text(record, "message"@)
    } else if member_text(record, "msg"@) is Some {
        member_text(record, "msg"@)
    } else {
        member_text(record, "log"@)
    }
}

/// `fields` with what one member adds. Keys with a meaning of their own add nothing; `log` adds
/// the severity inside it.
pub open spec fn with_member(fields: FieldsView, found: MemberView) -> FieldsView {
    if is_reserved(found.key) {
        fields
    } else if found.key == "log"@ {
        match found.level {
            Some(level) => with_field(fields, "log.level"@, level),
            None => fields,
        }
    } else {
        with_field(fields, found.key, found.rendered)
    }
}

/// The fields of a record.
pub open spec fn record_fields(record: Seq<MemberView>) -> FieldsView
    decreases record.len(),
{
    if record.len() == 0 {
        FieldsView::empty()
    } else {
        with_member(record_fields(record.drop_last()), record.last())
    }
}

/// The row of a line that is a JSON record.
pub open spec fn record_row(
    source_id: SourceId,
    row_id: RowId,
    byte_range: ByteRange,
    line: Seq<char>,
    record: Seq<MemberView>,
) -> RowView {
    RowView {
        row_id,
        source_id,
        byte_range,
        timestamp: record_time(record),
        level: record_level(record),
        raw: line,
        message: match record_message(record) {
            Some(message) => message,
            None => line,
        },
        fields: record_fields(record),
    }
}

/// The row of a line that is JSON, or else of a line of plain text.
pub open spec fn json_or_plain_row(
    source_id: SourceId,
    row_id: RowId,
    byte_range: ByteRange,
    line: Seq<char>,
) -> RowView {
    match record_in(line) {
        Some(record) => record_row(source_id, row_id, byte_range, line, record),
        None => plain_row(source_id, row_id, byte_range, line),
    }
}

/// Reads each line as a JSON object.
#[derive(Debug, Default, Clone, Copy)]
pub struct JsonLineParser;

impl JsonLineParser {
    /// The first member with this key.
    fn find<'a>(record: &'a Vec<JsonMember>, key: &str) -> (r: Option<&'a JsonMember>)
        ensures
            match r {
                Some(found) => member(member_views(record@), key@) == Some(found@),
                None => member(member_views(record@), key@) is None,
            },
    {
        let ghost all = member_views(record@);
        let mut i: usize = 0;
        assert(all.subrange(0, all.len() as int) =~= all);
        while i < record.len()
            invariant
                i <= record@.len(),
                all == member_views(record@),
                member(all, key@) == member(all.subrange(i as int, all.len() as int), key@),
            decreases record@.len() - i,
        {
            proof {
                let rest = all.subrange(i as int, all.len() as int);
                assert(rest[0] == record@[i as int]@);
                assert(rest.subrange(1, rest.len() as int) =~= all.subrange(
                    i + 1,
                    all.len() as int,
                ));
            }
            if same_text(&record[i].key, key) {
                return Some(&record[i]);
            }
            i += 1;
        }
        None
    }

    /// The string under this key.
    fn find_text<'a>(record: &'a Vec<JsonMember>, key: &str) -> (r: Option<&'a str>)
        ensures
            match r {
                Some(text) => member_text(member_views(record@), key@) == Some(text@),
                None => member_text(member_views(record@), key@) is None,
            },
    {
        match Self::find(record, key) {
            Some(found) => match &found.text {
                Some(text) => Some(text.as_str()),
                None => None,
            },
            None => None,
        }
    }

    /// The time of a record.
    pub fn parse_timestamp(record: &Vec<JsonMember>) -> (r: Option<Timestamp>)
        ensures
            r == record_time(member_views(record@)),
    {
        let text = if Self::find(record, "timestamp").is_some() {
            Self::find_text(record, "timestamp")
        } else if Self::find(record, "time").is_some() {
            Self::find_text(record, "time")
        } else if Self::find(record, "ts").is_some() {
            Self::find_text(record, "ts")
        } else {
            Self::find_text(record, "@timestamp")
        };
        match text {
            Some(text) => Timestamp::parse(text),
            None => None,
        }
    }

    /// The severity of a record.
    pub fn parse_level(record: &Vec<JsonMember>) -> (r: Option<LogLevel>)
        ensures
            r == record_level(member_views(record@)),
    {
        let nested = match Self::find(record, "log") {
            Some(found) => match &found.level {
                Some(level) => Some(level.as_str()),
                None => None,
            },
            None => None,
        };
        let text = match nested {
            Some(level) => Some(level),
            None => match Self::find_text(record, "level") {
                Some(level) => Some(level),
                None => Self::find_text(record, "severity"),
            },
        };
        match text {
            Some(text) => LogLevel::parse(text),
            None => None,
        }
    }

    /// The message of a record.
    pub fn parse_message(record: &Vec<JsonMember>) -> (r: Option<&str>)
        ensures
            match r {
                Some(message) => record_message(member_views(record@)) == Some(message@),
                None => record_message(member_views(record@)) is None,
            },
    {
        match Self::find_text(record, "message") {
            Some(message) => Some(message),
            None => match Self::find_text(record, "msg") {
                Some(message) => Some(message),
                None => Self::find_text(record, "log"),
            },
        }
    }

    /// The fields of a record.
    pub fn parse_fields(record: &Vec<JsonMember>) -> (r: ParsedFields)
        ensures
            r@ == record_fields(member_views(record@)),
    {
        let ghost all = member_views(record@);
        let mut fields = ParsedFields::new();
        let mut i: usize = 0;
        while i < record.len()
            invariant
                i <= record@.len(),
                all == member_views(record@),
                fields@ == record_fields(all.subrange(0, i as int)),
            decreases record@.len() - i,
        {
            let found = &record[i];
            proof {
                let next = all.subrange(0, i + 1);
                assert(next.drop_last() =~= all.subrange(0, i as int));
                assert(next.last() == found@);
            }
            if !reserved_key(&found.key) {
                if same_text(&found.key, "log") {
                    if let Some(level) = &found.level {
                        fields.insert("log.level", level);
                    }
                } else {
                    fields.insert(&found.key, &found.rendered);
                }
            }
            i += 1;
        }
        assert(all.subrange(0, i as int) =~= all);
        fields
    }

    /// The row of a line whose record has been read.
    pub fn row_from_record(
        source_id: SourceId,
        row_id: RowId,
        byte_range: ByteRange,
        line: &str,
        record: &Vec<JsonMember>,
    ) -> (r: LogRow)
        ensures
            r@ == record_row(source_id, row_id, byte_range, line@, member_views(record@)),
    {
        let message = match Self::parse_message(record) {
            Some(message) => shared(message),
            None => shared(line),
        };
        LogRow {
            row_id,
            source_id,
            byte_range,
            timestamp: Self::parse_timestamp(record),
            level: Self::parse_level(record),
            raw: shared(line),
            message,
            fields: Self::parse_fields(record),
        }
    }

    /// The row of a line, where it is JSON.
    pub fn try_parse_line(
        &self,
        source_id: SourceId,
        row_id: RowId,
        byte_range: ByteRange,
        line: &str,
    ) -> (r: Option<LogRow>)
        ensures
            match r {
                Some(row) => {
                    &&& record_in(line@) is Some
                    &&& row@ == record_row(
                        source_id,
                        row_id,
                        byte_range,
                        line@,
                        record_in(line@)->0,
                    )
                },
                None => record_in(line@) is None,
            },
    {
        match read_record(line) {
            Some(record) => Some(
                Self::row_from_record(source_id, row_id, byte_range, line, &record),
            ),
            None => None,
        }
    }
}

impl LogParser for JsonLineParser {
    open spec fn label(&self) -> Seq<char> {
        "jsonl"@
    }

    open spec fn row_of(
        &self,
        source_id: SourceId,
        row_id: RowId,
        byte_range: ByteRange,
        line: Seq<char>,
    ) -> RowView {
        json_or_plain_row(source_id, row_id, byte_range, line)
    }

    fn name(&self) -> (r: &'static str) {
        "jsonl"
    }

    fn parse_line(
        &self,
        source_id: SourceId,
        row_id: RowId,
        byte_range: ByteRange,
        line: &str,
    ) -> (r: LogRow) {
        match self.try_parse_line(source_id, row_id, byte_range, line) {
            Some(row) => row,
            None => PlainTextParser.parse_line(source_id, row_id, byte_range, line),
        }
    }
}

/// Reads each line as JSON where it is, and as plain text where it is not.
#[derive(Debug, Default, Clone, Copy)]
pub struct CompositeParser {
    json: JsonLineParser,
    plain: PlainTextParser,
}

impl LogParser for CompositeParser {
    open spec fn label(&self) -> Seq<char> {
        "composite"@
    }

    open spec fn row_of(
        &self,
        source_id: SourceId,
        row_id: RowId,
        byte_range: ByteRange,
        line: Seq<char>,
    ) -> RowView {
        json_or_plain_row(source_id, row_id, byte_range, line)
    }

    fn name(&self) -> (r: &'static str) {
        "composite"
    }

    fn parse_line(
        &self,
        source_id: SourceId,
        row_id: RowId,
        byte_range: ByteRange,
        line: &str,
    ) -> (r: LogRow) {
        match self.json.try_parse_line(source_id, row_id, byte_range, line) {
            Some(row) => row,
            None => self.plain.parse_line(source_id, row_id, byte_range, line),
        }
    }
}

/// A parser chosen when the program starts.
#[derive(Debug, Clone, Copy)]
pub enum ParserChoice {
    Json(JsonLineParser),
    Plain(PlainTextParser),
    Composite(CompositeParser),
}

impl ParserChoice {
    /// Reads lines as JSON.
    pub fn json() -> (r: ParserChoice)
        ensures
            r is Json,
    {
        ParserChoice::Json(JsonLineParser)
    }

    /// Takes lines as they are.
    pub fn plain() -> (r: ParserChoice)
        ensures
            r is Plain,
    {
        ParserChoice::Plain(PlainTextParser)
    }

    /// Reads lines as JSON where they are.
    pub fn composite() -> (r: ParserChoice)
        ensures
            r is Composite,
    {
        ParserChoice::Composite(CompositeParser { json: JsonLineParser, plain: PlainTextParser })
    }
}

impl LogParser for ParserChoice {
    open spec fn label(&self) -> Seq<char> {
        match *self {
            ParserChoice::Json(parser) => parser.label(),
            ParserChoice::Plain(parser) => parser.label(),
            ParserChoice::Composite(parser) => parser.label(),
        }
    }

    open spec fn row_of(
        &self,
        source_id: SourceId,
        row_id: RowId,
        byte_range: ByteRange,
        line: Seq<char>,
    ) -> RowView {
        match *self {
            ParserChoice::Json(parser) => parser.row_of(source_id, row_id, byte_range, line),
            ParserChoice::Plain(parser) => parser.row_of(source_id, row_id, byte_range, line),
            ParserChoice::Composite(parser) => parser.row_of(source_id, row_id, byte_range, line),
        }
    }

    fn name(&self) -> (r: &'static str) {
        match self {
            ParserChoice::Json(parser) => parser.name(),
            ParserChoice::Plain(parser) => parser.name(),
            ParserChoice::Composite(parser) => parser.name(),
        }
    }

    fn parse_line(
        &self,
        source_id: SourceId,
        row_id: RowId,
        byte_range: ByteRange,
        line: &str,
    ) -> (r: LogRow) {
        match self {
            ParserChoice::Json(parser) => parser.parse_line(source_id, row_id, byte_range, line),
            ParserChoice::Plain(parser) => parser.parse_line(source_id, row_id, byte_range, line),
            ParserChoice::Composite(parser) => parser.parse_line(
                source_id,
                row_id,
                byte_range,
                line,
            ),
        }
    }
}

// ---------------------------------------------------------------------------
// Laws
// ---------------------------------------------------------------------------

/// The fields of a record have their keys in strict dictionary order.
pub proof fn law_record_fields_ascend(record: Seq<MemberView>)
    ensures
        keys_ascend(record_fields(record)),
    decreases record.len(),
{
    if record.len() > 0 {
        law_record_fields_ascend(record.drop_last());
        let fields = record_fields(record.drop_last());
        let found = record.last();
        if !is_reserved(found.key) {
            if found.key == "log"@ {
                if let Some(level) = found.level {
                    law_insert_keeps_keys_ascending(fields, "log.level"@, level);
                }
            } else {
                law_insert_keeps_keys_ascending(fields, found.key, found.rendered);
            }
        }
    }
}

/// Keys that tell of the time, the severity or the message never become fields.
pub proof fn law_reserved_keys_are_no_fields(record: Seq<MemberView>, key: Seq<char>)
    requires
        is_reserved(key),
    ensures
        field_value(record_fields(record), key) is None,
    decreases record.len(),
{
    if record.len() > 0 {
        let head = record.drop_last();
        law_reserved_keys_are_no_fields(head, key);
        law_record_fields_ascend(head);
        let fields = record_fields(head);
        let found = record.last();
        if !is_reserved(found.key) {
            if found.key == "log"@ {
                lemma_nested_level_key_is_free();
                if let Some(level) = found.level {
                    law_insert_then_get(fields, "log.level"@, level, key);
                }
            } else {
                law_insert_then_get(fields, found.key, found.rendered, key);
            }
        }
    }
}

/// The key of the severity inside `log` has no other meaning.
proof fn lemma_nested_level_key_is_free()
    ensures
        !is_reserved("log.level"@),
{
    reveal_strlit("log.level");
    reveal_strlit("timestamp");
    reveal_strlit("time");
    reveal_strlit("ts");
    reveal_strlit("@timestamp");
    reveal_strlit("level");
    reveal_strlit("severity");
    reveal_strlit("message");
    reveal_strlit("msg");
    assert("timestamp"@[0] == 't');
    assert("log.level"@[0] == 'l');
    assert("log.level"@.len() == 9);
    assert("time"@.len() == 4);
    assert("ts"@.len() == 2);
    assert("@timestamp"@.len() == 10);
    assert("level"@.len() == 5);
    assert("severity"@.len() == 8);
    assert("message"@.len() == 7);
    assert("msg"@.len() == 3);
}

/// Whatever the parser, a row keeps its line, its source, its id and its place in the source.
pub proof fn law_rows_keep_their_line(
    parser: ParserChoice,
    source_id: SourceId,
    row_id: RowId,
    byte_range: ByteRange,
    line: Seq<char>,
)
    ensures
        ({
            let row = parser.row_of(source_id, row_id, byte_range, line);
            &&& row.raw == line
            &&& row.source_id == source_id
            &&& row.row_id == row_id
            &&& row.byte_range == byte_range
        }),
{
}

/// A line that is not JSON gives the same row with every parser.
pub proof fn law_plain_lines_parse_alike(
    a: ParserChoice,
    b: ParserChoice,
    source_id: SourceId,
    row_id: RowId,
    byte_range: ByteRange,
    line: Seq<char>,
)
    requires
        record_in(line) is None,
    ensures
        a.row_of(source_id, row_id, byte_range, line) == b.row_of(
            source_id,
            row_id,
            byte_range,
            line,
        ),
{
}

/// The line is a JSON object with these members: keys, and values as JSON text. No key is there
/// twice.
pub open spec fn is_object(line: Seq<char>, members: Seq<(Seq<char>, Seq<char>)>) -> bool {
    &&& json_reading(line) == Some(ShapeView::Object(members))
    &&& forall|i: int, j: int|
        0 <= i < j < members.len() ==> (#[trigger] members[i]).0 != (#[trigger] members[j]).0
}

/// No member has this key.
pub open spec fn lacks(members: Seq<(Seq<char>, Seq<char>)>, key: Seq<char>) -> bool {
    forall|i: int| 0 <= i < members.len() ==> (#[trigger] members[i]).0 != key
}

/// No member has this key with a string.
pub open spec fn lacks_text(members: Seq<(Seq<char>, Seq<char>)>, key: Seq<char>) -> bool {
    forall|i: int|
        0 <= i < members.len() && (#[trigger] members[i]).0 == key ==> !(json_reading(members[i].1)
            matches Some(ShapeView::Text(_)))
}

/// The value of some member with this key is this string.
pub open spec fn has_text(
    members: Seq<(Seq<char>, Seq<char>)>,
    key: Seq<char>,
    text: Seq<char>,
) -> bool {
    exists|i: int|
        0 <= i < members.len() && (#[trigger] members[i]).0 == key && json_reading(members[i].1)
            == Some(ShapeView::Text(text))
}

/// The value of `log` is an object in which `level` is this string.
pub open spec fn has_nested_level(members: Seq<(Seq<char>, Seq<char>)>, text: Seq<char>) -> bool {
    exists|i: int, inner: Seq<(Seq<char>, Seq<char>)>|
        0 <= i < members.len() && (#[trigger] members[i]).0 == "log"@ && #[trigger] is_object(
            members[i].1,
            inner,
        ) && has_text(inner, "level"@, text)
}

/// No value of `log` is an object in which `level` is a string.
pub open spec fn lacks_nested_level(members: Seq<(Seq<char>, Seq<char>)>) -> bool {
    forall|i: int|
        0 <= i < members.len() && (#[trigger] members[i]).0 == "log"@ ==> match json_reading(
            members[i].1,
        ) {
            Some(ShapeView::Object(inner)) => lacks_text(inner, "level"@),
            _ => true,
        }
}

/// The row of a JSON line, as both parsers that read JSON make it.
pub open spec fn json_row(
    source_id: SourceId,
    row_id: RowId,
    byte_range: ByteRange,
    line: Seq<char>,
) -> RowView {
    JsonLineParser.row_of(source_id, row_id, byte_range, line)
}

/// The members of a log line are those of the object.
proof fn lemma_record_of(line: Seq<char>, members: Seq<(Seq<char>, Seq<char>)>)
    requires
        is_object(line, members),
    ensures
        record_in(line) is Some,
        record_in(line)->0.len() == members.len(),
        forall|i: int|
            0 <= i < members.len() ==> #[trigger] record_in(line)->0[i] == member_of(
                members[i].0,
                members[i].1,
            ),
{
}

/// The member with a key is found where it is.
proof fn lemma_member_found(record: Seq<MemberView>, i: int)
    requires
        0 <= i < record.len(),
        forall|j: int| 0 <= j < i ==> (#[trigger] record[j]).key != record[i].key,
    ensures
        member(record, record[i].key) == Some(record[i]),
    decreases record.len(),
{
    if i > 0 {
        let rest = record.subrange(1, record.len() as int);
        assert(rest[i - 1] == record[i]);
        assert forall|j: int| 0 <= j < i - 1 implies (#[trigger] rest[j]).key != rest[i - 1].key by {
            assert(rest[j] == record[j + 1]);
        }
        assert(record[0].key != record[i].key);
        lemma_member_found(rest, i - 1);
    }
}

/// A key that no member has is not found.
proof fn lemma_member_missing(record: Seq<MemberView>, key: Seq<char>)
    requires
        forall|j: int| 0 <= j < record.len() ==> (#[trigger] record[j]).key != key,
    ensures
        member(record, key) is None,
    decreases record.len(),
{
    if record.len() > 0 {
        let rest = record.subrange(1, record.len() as int);
        assert forall|j: int| 0 <= j < rest.len() implies (#[trigger] rest[j]).key != key by {
            assert(rest[j] == record[j + 1]);
        }
        assert(record[0].key != key);
        lemma_member_missing(rest, key);
    }
}

/// What is found under a key of a log line.
proof fn lemma_texts_of(line: Seq<char>, members: Seq<(Seq<char>, Seq<char>)>, key: Seq<char>)
    requires
        is_object(line, members),
    ensures
        lacks(members, key) ==> member(record_in(line)->0, key) is None,
        lacks(members, key) ==> member_text(record_in(line)->0, key) is None,
        is_reserved(key) || key == "log"@ ==> {
            &&& lacks_text(members, key) ==> member_text(record_in(line)->0, key) is None
            &&& forall|text: Seq<char>| #[trigger]
                has_text(members, key, text) ==> member_text(record_in(line)->0, key) == Some(text)
                    && member(record_in(line)->0, key) is Some
        },
{
    lemma_record_of(line, members);
    let record = record_in(line)->0;
    if lacks(members, key) {
        assert forall|j: int| 0 <= j < record.len() implies (#[trigger] record[j]).key != key by {
            assert(members[j].0 != key);
        }
        lemma_member_missing(record, key);
    } else {
        let i = choose|i: int| 0 <= i < members.len() && (#[trigger] members[i]).0 == key;
        assert(record[i].key == key);
        assert forall|j: int| 0 <= j < i implies (#[trigger] record[j]).key != record[i].key by {
            assert(members[j].0 != members[i].0);
        }
        lemma_member_found(record, i);
        if is_reserved(key) || key == "log"@ {
            assert forall|text: Seq<char>| #[trigger] has_text(members, key, text) implies member_text(
                record,
                key,
            ) == Some(text) && member(record, key) is Some by {
                let p = choose|p: int|
                    0 <= p < members.len() && (#[trigger] members[p]).0 == key && json_reading(
                        members[p].1,
                    ) == Some(ShapeView::Text(text));
                if p < i {
                    assert(members[p].0 != members[i].0);
                } else if i < p {
                    assert(members[i].0 != members[p].0);
                }
            }
        }
    }
}

/// The keys of the time, in the order in which they are tried.
pub open spec fn time_keys() -> Seq<Seq<char>> {
    seq!["timestamp"@, "time"@, "ts"@, "@timestamp"@]
}

/// The time of a JSON line is named by the first of the four keys that is there: where that key
/// has a string which names a point in time, that is the timestamp of the row. A line without the
/// four keys has no timestamp.
pub proof fn law_first_time_key_decides(
    source_id: SourceId,
    row_id: RowId,
    byte_range: ByteRange,
    line: Seq<char>,
    members: Seq<(Seq<char>, Seq<char>)>,
    k: int,
    text: Seq<char>,
)
    requires
        is_object(line, members),
        0 <= k <= 4,
        forall|i: int| 0 <= i < k ==> lacks(members, #[trigger] time_keys()[i]),
    ensures
        ({
            let row = json_row(source_id, row_id, byte_range, line);
            &&& k == 4 ==> row.timestamp is None
            &&& k < 4 && has_text(members, time_keys()[k], text) ==> row.timestamp
                == match chrono_reading(text) {
                Some((secs, nanos)) => Some(timestamp_at(secs, nanos)),
                None => None,
            }
            &&& k < 4 && !lacks(members, time_keys()[k]) && lacks_text(members, time_keys()[k])
                ==> row.timestamp is None
        }),
{
    let keys = time_keys();
    assert(keys[0] == "timestamp"@ && keys[1] == "time"@ && keys[2] == "ts"@ && keys[3]
        == "@timestamp"@);
    lemma_texts_of(line, members, keys[0]);
    lemma_texts_of(line, members, keys[1]);
    lemma_texts_of(line, members, keys[2]);
    lemma_texts_of(line, members, keys[3]);
    if k < 4 && !lacks(members, keys[k]) {
        lemma_member_is_there(line, members, keys[k]);
    }
}

/// A key that some member has is found.
proof fn lemma_member_is_there(line: Seq<char>, members: Seq<(Seq<char>, Seq<char>)>, key: Seq<char>)
    requires
        is_object(line, members),
        !lacks(members, key),
    ensures
        member(record_in(line)->0, key) is Some,
{
    lemma_record_of(line, members);
    let record = record_in(line)->0;
    let i = choose|i: int| 0 <= i < members.len() && (#[trigger] members[i]).0 == key;
    assert(record[i].key == key);
    assert forall|j: int| 0 <= j < i implies (#[trigger] record[j]).key != record[i].key by {
        assert(members[j].0 != members[i].0);
    }
    lemma_member_found(record, i);
}

/// The message of a JSON line is the string under `message`, else the one under `msg`, else the one
/// under `log`, else the whole line.
pub proof fn law_message_of_a_json_line(
    source_id: SourceId,
    row_id: RowId,
    byte_range: ByteRange,
    line: Seq<char>,
    members: Seq<(Seq<char>, Seq<char>)>,
    text: Seq<char>,
)
    requires
        is_object(line, members),
    ensures
        ({
            let row = json_row(source_id, row_id, byte_range, line);
            &&& has_text(members, "message"@, text) ==> row.message == text
            &&& lacks_text(members, "message"@) && has_text(members, "msg"@, text) ==> row.message
                == text
            &&& lacks_text(members, "message"@) && lacks_text(members, "msg"@) && has_text(
                members,
                "log"@,
                text,
            ) ==> row.message == text
            &&& lacks_text(members, "message"@) && lacks_text(members, "msg"@) && lacks_text(
                members,
                "log"@,
            ) ==> row.message == line
        }),
{
    lemma_texts_of(line, members, "message"@);
    lemma_texts_of(line, members, "msg"@);
    lemma_texts_of(line, members, "log"@);
}

/// The severity of a JSON line is named by the string under `level` inside `log`, else by the one
/// under `level`, else by the one under `severity`.
pub proof fn law_level_of_a_json_line(
    source_id: SourceId,
    row_id: RowId,
    byte_range: ByteRange,
    line: Seq<char>,
    members: Seq<(Seq<char>, Seq<char>)>,
    text: Seq<char>,
)
    requires
        is_object(line, members),
    ensures
        ({
            let row = json_row(source_id, row_id, byte_range, line);
            &&& has_nested_level(members, text) ==> row.level == level_named(text)
            &&& lacks_nested_level(members) && has_text(members, "level"@, text) ==> row.level
                == level_named(text)
            &&& lacks_nested_level(members) && lacks_text(members, "level"@) && has_text(
                members,
                "severity"@,
                text,
            ) ==> row.level == level_named(text)
            &&& lacks_nested_level(members) && lacks_text(members, "level"@) && lacks_text(
                members,
                "severity"@,
            ) ==> row.level is None
        }),
{
    lemma_texts_of(line, members, "log"@);
    lemma_texts_of(line, members, "level"@);
    lemma_texts_of(line, members, "severity"@);
    lemma_record_of(line, members);
    if lacks_nested_level(members) {
        let record = record_in(line)->0;
        if !lacks(members, "log"@) {
            let i = choose|i: int| 0 <= i < members.len() && (#[trigger] members[i]).0 == "log"@;
            assert forall|j: int| 0 <= j < i implies (#[trigger] record[j]).key != record[i].key by {
                assert(members[j].0 != members[i].0);
            }
            lemma_member_found(record, i);
            if let Some(ShapeView::Object(inner)) = json_reading(members[i].1) {
                lemma_no_inner_text(inner, "level"@);
            }
        }
    }
    if has_nested_level(members, text) {
        let record = record_in(line)->0;
        let (i, inner) = choose|i: int, inner: Seq<(Seq<char>, Seq<char>)>|
            0 <= i < members.len() && (#[trigger] members[i]).0 == "log"@ && #[trigger] is_object(
                members[i].1,
                inner,
            ) && has_text(inner, "level"@, text);
        assert forall|j: int| 0 <= j < i implies (#[trigger] record[j]).key != record[i].key by {
            assert(members[j].0 != members[i].0);
        }
        lemma_member_found(record, i);
        lemma_inner_value(inner, "level"@, text);
    }
}

/// A key under which an object has no string gives none.
proof fn lemma_no_inner_text(inner: Seq<(Seq<char>, Seq<char>)>, key: Seq<char>)
    requires
        lacks_text(inner, key),
    ensures
        crate::json::member_value(inner, key) matches Some(value) ==> !(json_reading(value)
            matches Some(ShapeView::Text(_))),
    decreases inner.len(),
{
    if inner.len() > 0 {
        assert(inner[0] == inner[0]);
        let rest = inner.subrange(1, inner.len() as int);
        assert forall|i: int| 0 <= i < rest.len() && (#[trigger] rest[i]).0 == key implies !(
        json_reading(rest[i].1) matches Some(ShapeView::Text(_))) by {
            assert(rest[i] == inner[i + 1]);
        }
        lemma_no_inner_text(rest, key);
    }
}

/// The value of a key in an object is the one that its member has.
proof fn lemma_inner_value(inner: Seq<(Seq<char>, Seq<char>)>, key: Seq<char>, text: Seq<char>)
    requires
        has_text(inner, key, text),
        forall|i: int, j: int|
            0 <= i < j < inner.len() ==> (#[trigger] inner[i]).0 != (#[trigger] inner[j]).0,
    ensures
        crate::json::member_value(inner, key) is Some,
        json_reading(crate::json::member_value(inner, key)->0) == Some(ShapeView::Text(text)),
    decreases inner.len(),
{
    let p = choose|p: int|
        0 <= p < inner.len() && (#[trigger] inner[p]).0 == key && json_reading(inner[p].1) == Some(
            ShapeView::Text(text),
        );
    if p > 0 {
        assert(inner[0].0 != inner[p].0);
        let rest = inner.subrange(1, inner.len() as int);
        assert(rest[p - 1] == inner[p]);
        assert forall|i: int, j: int| 0 <= i < j < rest.len() implies (#[trigger] rest[i]).0 != (
        #[trigger] rest[j]).0 by {
            assert(rest[i] == inner[i + 1] && rest[j] == inner[j + 1]);
        }
        lemma_inner_value(rest, key, text);
    }
}

/// Every member of a JSON line is a field of the row, with its value as JSON text, but for the keys
/// of the time, the severity and the message, and for `log`. Other keys are no fields; `log.level`
/// is one where `log` holds a severity.
pub proof fn law_fields_of_a_json_line(
    source_id: SourceId,
    row_id: RowId,
    byte_range: ByteRange,
    line: Seq<char>,
    members: Seq<(Seq<char>, Seq<char>)>,
    i: int,
)
    requires
        is_object(line, members),
        0 <= i < members.len(),
        lacks(members, "log"@),
    ensures
        ({
            let row = json_row(source_id, row_id, byte_range, line);
            let key = members[i].0;
            let known = seq![
                "timestamp"@,
                "time"@,
                "ts"@,
                "@timestamp"@,
                "level"@,
                "severity"@,
                "message"@,
                "msg"@,
            ];
            field_value(row.fields, key) == if known.contains(key) {
                None
            } else {
                Some(members[i].1)
            }
        }),
{
    lemma_record_of(line, members);
    let record = record_in(line)->0;
    let key = members[i].0;
    let known = seq![
        "timestamp"@,
        "time"@,
        "ts"@,
        "@timestamp"@,
        "level"@,
        "severity"@,
        "message"@,
        "msg"@,
    ];
    assert(known.contains(key) == is_reserved(key)) by {
        assert(known[0] == "timestamp"@ && known[1] == "time"@ && known[2] == "ts"@ && known[3]
            == "@timestamp"@ && known[4] == "level"@ && known[5] == "severity"@ && known[6]
            == "message"@ && known[7] == "msg"@);
    }
    if is_reserved(key) {
        law_reserved_keys_are_no_fields(record, key);
    } else {
        lemma_field_stays(record, i, record.len() as int);
        assert(record.subrange(0, record.len() as int) =~= record);
    }
}

/// A field that a member adds is there from then on, where no other member has its key.
proof fn lemma_field_stays(record: Seq<MemberView>, i: int, n: int)
    requires
        0 <= i < n <= record.len(),
        !is_reserved(record[i].key),
        forall|j: int| 0 <= j < record.len() ==> (#[trigger] record[j]).key != "log"@,
        forall|j: int| 0 <= j < record.len() && j != i ==> (#[trigger] record[j]).key != record[i].key,
    ensures
        field_value(record_fields(record.subrange(0, n)), record[i].key) == Some(record[i].rendered),
    decreases n,
{
    let part = record.subrange(0, n);
    let head = record.subrange(0, n - 1);
    assert(part.drop_last() =~= head);
    assert(part.last() == record[n - 1]);
    law_record_fields_ascend(head);
    let fields = record_fields(head);
    let last = record[n - 1];
    if i == n - 1 {
        law_insert_then_get(fields, last.key, last.rendered, record[i].key);
    } else {
        lemma_field_stays(record, i, n - 1);
        if !is_reserved(last.key) {
            law_insert_then_get(fields, last.key, last.rendered, record[i].key);
        }
    }
}

/// Both parsers that read JSON make the same row of a line, and a line that is JSON but no object
/// gives a row that holds nothing but the line.
pub proof fn law_json_rows(
    composite: CompositeParser,
    source_id: SourceId,
    row_id: RowId,
    byte_range: ByteRange,
    line: Seq<char>,
)
    ensures
        composite.row_of(source_id, row_id, byte_range, line) == json_row(
            source_id,
            row_id,
            byte_range,
            line,
        ),
        json_reading(line) is Some && !(json_reading(line)->0 is Object) ==> json_row(
            source_id,
            row_id,
            byte_range,
            line,
        ) == (RowView {
            row_id,
            source_id,
            byte_range,
            timestamp: None,
            level: None,
            raw: line,
            message: line,
            fields: FieldsView::empty(),
        }),
{
    if json_reading(line) is Some && !(json_reading(line)->0 is Object) {
        let none = Seq::<MemberView>::empty();
        assert(member(none, "log"@) is None);
        assert(record_fields(none) == FieldsView::empty());
    }
}

/// A line that is not JSON, and any line for the plain parser, is its own message, without a
/// timestamp and fields. It has a severity exactly where it contains the name of one in capitals:
/// the least severe of those that it contains.
pub proof fn law_plain_line(
    source_id: SourceId,
    row_id: RowId,
    byte_range: ByteRange,
    line: Seq<char>,
    level: LogLevel,
)
    ensures
        ({
            let row = PlainTextParser.row_of(source_id, row_id, byte_range, line);
            &&& row.message == line && row.raw == line && row.timestamp is None && row.fields.len()
                == 0
            &&& json_reading(line) is None ==> json_row(source_id, row_id, byte_range, line) == row
            &&& row.level == Some(level) <==> {
                &&& stands_in(line, capitals(level))
                &&& forall|other: LogLevel|
                    stands_in(line, #[trigger] capitals(other)) ==> level_place(level)
                        <= level_place(other)
            }
            &&& row.level is None <==> forall|other: LogLevel|
                !stands_in(line, #[trigger] capitals(other))
        }),
{
    let row = PlainTextParser.row_of(source_id, row_id, byte_range, line);
    lemma_long_name_holds_short_one(line);
    assert(capitals(LogLevel::Trace) == "TRACE"@);
    assert(capitals(LogLevel::Debug) == "DEBUG"@);
    assert(capitals(LogLevel::Info) == "INFO"@);
    assert(capitals(LogLevel::Warn) == "WARN"@);
    assert(capitals(LogLevel::Error) == "ERROR"@);
    assert(capitals(LogLevel::Fatal) == "FATAL"@);
    assert forall|name: Seq<char>| stands_in(line, name) == #[trigger] contains(line, name) by {
        if stands_in(line, name) {
            let at = choose|at: int| stands_from(line, name, at);
            assert(line.subrange(at, at + name.len()) =~= name);
            assert(crate::text::occurs_at(line, name, at));
        }
        if contains(line, name) {
            let at = choose|at: int| crate::text::occurs_at(line, name, at);
            assert forall|k: int| 0 <= k < name.len() implies line[at + k] == #[trigger] name[k] by {
                assert(line.subrange(at, at + name.len())[k] == line[at + k]);
            }
            assert(stands_from(line, name, at));
        }
    }
    assert(contains(line, "TRACE"@) == stands_in(line, capitals(LogLevel::Trace)));
    assert(contains(line, "DEBUG"@) == stands_in(line, capitals(LogLevel::Debug)));
    assert(contains(line, "INFO"@) == stands_in(line, capitals(LogLevel::Info)));
    assert(contains(line, "WARN"@) == stands_in(line, capitals(LogLevel::Warn)));
    assert(contains(line, "ERROR"@) == stands_in(line, capitals(LogLevel::Error)));
    assert(contains(line, "FATAL"@) == stands_in(line, capitals(LogLevel::Fatal)));
}

/// The name stands in the line from `at` on, character by character.
pub open spec fn stands_from(line: Seq<char>, name: Seq<char>, at: int) -> bool {
    &&& 0 <= at
    &&& at + name.len() <= line.len()
    &&& forall|k: int| 0 <= k < name.len() ==> line[at + k] == #[trigger] name[k]
}

/// The name stands somewhere in the line.
pub open spec fn stands_in(line: Seq<char>, name: Seq<char>) -> bool {
    exists|at: int| stands_from(line, name, at)
}

/// The name of a severity in capitals.
pub open spec fn capitals(level: LogLevel) -> Seq<char> {
    match level {
        LogLevel::Trace => "TRACE"@,
        LogLevel::Debug => "DEBUG"@,
        LogLevel::Info => "INFO"@,
        LogLevel::Warn => "WARN"@,
        LogLevel::Error => "ERROR"@,
        LogLevel::Fatal => "FATAL"@,
    }
}

/// The place of a severity from the least to the most severe.
pub open spec fn level_place(level: LogLevel) -> int {
    match level {
        LogLevel::Trace => 1,
        LogLevel::Debug => 2,
        LogLevel::Info => 3,
        LogLevel::Warn => 4,
        LogLevel::Error => 5,
        LogLevel::Fatal => 6,
    }
}

/// A line that contains `WARNING` contains `WARN`.
proof fn lemma_long_name_holds_short_one(line: Seq<char>)
    ensures
        contains(line, "WARNING"@) ==> contains(line, "WARN"@),
{
    if contains(line, "WARNING"@) {
        let at = choose|at: int| crate::text::occurs_at(line, "WARNING"@, at);
        reveal_strlit("WARNING");
        reveal_strlit("WARN");
        let long = line.subrange(at, at + 7);
        assert("WARNING"@.subrange(0, 4) =~= "WARN"@);
        assert(line.subrange(at, at + 4) =~= long.subrange(0, 4));
        assert(crate::text::occurs_at(line, "WARN"@, at));
    }
}

/// A parser that is chosen makes the rows of its kind and goes by its name.
pub proof fn law_chosen_parsers(
    json: JsonLineParser,
    plain: PlainTextParser,
    composite: CompositeParser,
    source_id: SourceId,
    row_id: RowId,
    byte_range: ByteRange,
    line: Seq<char>,
)
    ensures
        ParserChoice::Json(json).row_of(source_id, row_id, byte_range, line) == json_row(
            source_id,
            row_id,
            byte_range,
            line,
        ),
        ParserChoice::Composite(composite).row_of(source_id, row_id, byte_range, line) == json_row(
            source_id,
            row_id,
            byte_range,
            line,
        ),
        ParserChoice::Plain(plain).row_of(source_id, row_id, byte_range, line)
            == PlainTextParser.row_of(source_id, row_id, byte_range, line),
        ParserChoice::Json(json).label() == "jsonl"@,
        ParserChoice::Plain(plain).label() == "plain"@,
        ParserChoice::Composite(composite).label() == "composite"@,
{
}

/// The severity inside `log` is a field of the row, and the rest of `log` is none.
pub proof fn law_nested_level_is_a_field(
    source_id: SourceId,
    row_id: RowId,
    byte_range: ByteRange,
    line: Seq<char>,
    members: Seq<(Seq<char>, Seq<char>)>,
    text: Seq<char>,
)
    requires
        is_object(line, members),
        members.len() == 1,
        has_nested_level(members, text),
    ensures
        json_row(source_id, row_id, byte_range, line).fields == seq![("log.level"@, text)],
{
    lemma_record_of(line, members);
    let record = record_in(line)->0;
    let (i, inner) = choose|i: int, inner: Seq<(Seq<char>, Seq<char>)>|
        0 <= i < members.len() && (#[trigger] members[i]).0 == "log"@ && #[trigger] is_object(
            members[i].1,
            inner,
        ) && has_text(inner, "level"@, text);
    lemma_inner_value(inner, "level"@, text);
    assert(record.drop_last() =~= Seq::<MemberView>::empty());
    assert(record_fields(record.drop_last()) =~= FieldsView::empty());
    assert(record.last() == record[0]);
    lemma_log_is_free();
    assert(with_field(FieldsView::empty(), "log.level"@, text) =~= seq![("log.level"@, text)]);
}

/// The key `log` is none of the keys with another meaning.
proof fn lemma_log_is_free()
    ensures
        !is_reserved("log"@),
{
    reveal_strlit("log");
    reveal_strlit("timestamp");
    reveal_strlit("time");
    reveal_strlit("ts");
    reveal_strlit("@timestamp");
    reveal_strlit("level");
    reveal_strlit("severity");
    reveal_strlit("message");
    reveal_strlit("msg");
    assert("log"@.len() == 3 && "msg"@.len() == 3 && "log"@[0] == 'l' && "msg"@[0] == 'm');
    assert("timestamp"@.len() == 9 && "time"@.len() == 4 && "ts"@.len() == 2);
    assert("@timestamp"@.len() == 10 && "level"@.len() == 5 && "severity"@.len() == 8);
    assert("message"@.len() == 7);
}

} // verus!
