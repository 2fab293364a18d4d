//! What every front-end does when it starts: flags, filters, the session and sample data.
use crate::filter::{FilterError, FilterExpr, FilterView};
use crate::laws::{law_rows_are_appended_in_turn, law_views_fit_in_practice};
use crate::model::{
    with_field, ByteRange, FieldsView, LogLevel, LogRow, ParsedFields, RowId, RowPresentation,
    RowView, SourceId, ViewportRequest,
};
use crate::parser::ParserChoice;
use crate::query::{compose_query_filter, composed};
use crate::session::{saved_as, with_recorded, with_saved, InvestigationSession, SessionView};
use crate::text::{
    decimal, decimal_text, join_all, joined, joined_by, optional_text, shared, texts,
};
use crate::time::{parts_after, timestamp_at, Timestamp, MAX_SECS};
use crate::timeline::stamps_leave_room;
use crate::ui::bad_regex_text;
use crate::viewport::{
    fresh_engine, presentation_views, refuses, Engine, EngineView,
};
use vstd::prelude::*;
use vstd::string::*;

verus! {

/// A severity as it is given on the command line.
#[derive(Debug, Clone, Copy, PartialEq, Eq, Structural)]
pub enum LevelArg {
    Trace,
    Debug,
    Info,
    Warn,
    Error,
    Fatal,
}

/// The severity that an argument stands for.
pub open spec fn level_of(value: LevelArg) -> LogLevel {
    match value {
        LevelArg::Trace => LogLevel::Trace,
        LevelArg::Debug => LogLevel::Debug,
        LevelArg::Info => LogLevel::Info,
        LevelArg::Warn => LogLevel::Warn,
        LevelArg::Error => LogLevel::Error,
        LevelArg::Fatal => LogLevel::Fatal,
    }
}

impl From<LevelArg> for LogLevel {
    fn from(value: LevelArg) -> (r: Self) {
        match value {
            LevelArg::Trace => LogLevel::Trace,
            LevelArg::Debug => LogLevel::Debug,
            LevelArg::Info => LogLevel::Info,
            LevelArg::Warn => LogLevel::Warn,
            LevelArg::Error => LogLevel::Error,
            LevelArg::Fatal => LogLevel::Fatal,
        }
    }
}

impl vstd::std_specs::convert::FromSpecImpl<LevelArg> for LogLevel {
    open spec fn obeys_from_spec() -> bool {
        true
    }

    open spec fn from_spec(value: LevelArg) -> Self {
        level_of(value)
    }
}

/// The parser that the flags ask for: JSON before plain text, and both kinds of lines without a
/// flag.
pub fn parser_from_flags(json: bool, plain: bool) -> (r: ParserChoice)
    ensures
        r is Json == json,
        r is Plain == (!json && plain),
        r is Composite == (!json && !plain),
{
    if json {
        ParserChoice::json()
    } else if plain {
        ParserChoice::plain()
    } else {
        ParserChoice::composite()
    }
}

/// A limit of no rows means no limit.
pub fn normalise_max_rows(value: Option<usize>) -> (r: Option<usize>)
    ensures
        r == if value == Some(0usize) {
            None
        } else {
            value
        },
{
    match value {
        Some(0) => None,
        other => other,
    }
}

/// Why filters could not be applied.
#[derive(Debug, PartialEq, Eq)]
pub enum ApplyError {
    /// No filter is saved under this name.
    SavedFilterNotFound(String),
    /// The filter cannot be used.
    Filter(FilterError),
}

impl ApplyError {
    /// The error in words.
    pub open spec fn text(self) -> Seq<char> {
        match self {
            ApplyError::SavedFilterNotFound(name) => "saved filter not found: "@ + name@,
            ApplyError::Filter(error) => error.text(),
        }
    }

    /// The error in words.
    pub fn message(&self) -> (r: String)
        ensures
            r@ == self.text(),
    {
        match self {
            ApplyError::SavedFilterNotFound(name) => joined("saved filter not found: ", name),
            ApplyError::Filter(error) => error.message(),
        }
    }
}

/// The filter saved under a name, where one is asked for.
pub open spec fn saved_choice(session: SessionView, name: Option<Seq<char>>) -> Option<FilterView> {
    match name {
        Some(name) => saved_as(session.saved, name),
        None => None,
    }
}

/// The session after a filter has been used and, where a name is given, saved.
pub open spec fn session_with(
    session: SessionView,
    filter: FilterView,
    save_as: Option<Seq<char>>,
) -> SessionView {
    SessionView {
        history: with_recorded(session.history, filter),
        saved: match save_as {
            Some(name) => with_saved(session.saved, name, filter),
            None => session.saved,
        },
        ..session
    }
}

/// The severity that an optional argument stands for.
pub open spec fn optional_level(level: Option<LevelArg>) -> Option<LogLevel> {
    match level {
        Some(level) => Some(level_of(level)),
        None => None,
    }
}

/// Puts a saved filter, a lowest severity and a filter text together, uses the result and, where
/// a name is given, saves it. Nothing changes where one of them cannot be used.
pub fn apply_filters(
    engine: &mut Engine,
    filter_text: Option<String>,
    level: Option<LevelArg>,
    use_filter: Option<String>,
    save_filter: Option<String>,
) -> (r: Result<FilterExpr, ApplyError>)
    requires
        old(engine).wf(),
    ensures
        final(engine).wf(),
        ({
            let saved = saved_choice(old(engine)@.session, optional_text(use_filter));
            let wanted = composed(saved, optional_level(level), optional_text(filter_text));
            match r {
                Ok(filter) => {
                    &&& use_filter is Some ==> saved is Some
                    &&& wanted == Ok::<FilterView, Seq<char>>(filter@)
                    &&& filter@.bad_pattern() is None
                    &&& final(engine)@ == (EngineView {
                        filter: filter@,
                        session: session_with(
                            old(engine)@.session,
                            filter@,
                            optional_text(save_filter),
                        ),
                        ..old(engine)@
                    })
                },
                Err(ApplyError::SavedFilterNotFound(name)) => {
                    &&& optional_text(use_filter) == Some(name@)
                    &&& saved is None
                    &&& final(engine)@ == old(engine)@
                },
                Err(ApplyError::Filter(FilterError::InvalidQuery(reason))) => {
                    &&& use_filter is Some ==> saved is Some
                    &&& wanted == Err::<FilterView, Seq<char>>(reason@)
                    &&& final(engine)@ == old(engine)@
                },
                Err(ApplyError::Filter(error)) => {
                    &&& use_filter is Some ==> saved is Some
                    &&& wanted is Ok
                    &&& wanted->Ok_0.bad_pattern() is Some
                    &&& refuses(error, wanted->Ok_0)
                    &&& final(engine)@ == old(engine)@
                },
            }
        }),
{
    let ghost before = engine@;
    let ghost saved_view = saved_choice(before.session, optional_text(use_filter));
    let saved: Option<FilterExpr> = match use_filter {
        Some(name) => match engine.session().saved_filter(&name) {
            Some(filter) => Some(filter.clone()),
            None => {
                return Err(ApplyError::SavedFilterNotFound(name));
            },
        },
        None => None,
    };
    let level: Option<LogLevel> = match level {
        Some(level) => Some(LogLevel::from(level)),
        None => None,
    };
    let text: Option<&str> = match &filter_text {
        Some(text) => Some(text.as_str()),
        None => None,
    };
    let filter = match compose_query_filter(saved.as_ref(), level, text) {
        Ok(filter) => filter,
        Err(error) => {
            return Err(ApplyError::Filter(error));
        },
    };
    match engine.set_filter(filter.clone()) {
        Ok(_) => {},
        Err(error) => {
            return Err(ApplyError::Filter(error));
        },
    }
    if let Some(name) = save_filter {
        engine.save_filter(&name);
    }
    assert(engine@ =~= (EngineView {
        filter: filter@,
        session: session_with(before.session, filter@, optional_text(save_filter)),
        ..before
    }));
    Ok(filter)
}

/// What comes of filters that are asked for at the start: the engine, and what is wrong with them.
pub open spec fn applied(
    engine: EngineView,
    filter_text: Option<Seq<char>>,
    level: Option<LogLevel>,
    use_filter: Option<Seq<char>>,
    save_filter: Option<Seq<char>>,
) -> (EngineView, Option<Seq<char>>) {
    let saved = saved_choice(engine.session, use_filter);
    if use_filter is Some && saved is None {
        (engine, Some("saved filter not found: "@ + use_filter->0))
    } else {
        match composed(saved, level, filter_text) {
            Err(reason) => (engine, Some("invalid query: "@ + reason)),
            Ok(filter) => match filter.bad_pattern() {
                Some(pattern) => (engine, Some(bad_regex_text(pattern))),
                None => (
                    EngineView {
                        filter,
                        session: session_with(engine.session, filter, save_filter),
                        ..engine
                    },
                    None,
                ),
            },
        }
    }
}

/// Applies filters. Returns what is wrong with them, if anything; then nothing has changed.
pub fn try_apply_filters(
    engine: &mut Engine,
    filter_text: Option<String>,
    level: Option<LevelArg>,
    use_filter: Option<String>,
    save_filter: Option<String>,
) -> (r: Option<String>)
    requires
        old(engine).wf(),
    ensures
        final(engine).wf(),
        (final(engine)@, optional_text(r)) == applied(
            old(engine)@,
            optional_text(filter_text),
            optional_level(level),
            optional_text(use_filter),
            optional_text(save_filter),
        ),
{
    match apply_filters(engine, filter_text, level, use_filter, save_filter) {
        Ok(_) => None,
        Err(error) => Some(error.message()),
    }
}

/// Whether files are loaded before they are followed: a tailer that starts at their beginning
/// reads them itself.
pub fn loads_files_first(no_follow: bool, from_start: bool) -> (r: bool)
    ensures
        r == (no_follow || !from_start),
{
    no_follow || !from_start
}

/// What is said of a file that cannot be read.
pub fn read_failure(path: &str, reason: &str) -> (r: String)
    ensures
        r@ == "failed to read "@ + path@ + ": "@ + reason@,
{
    let mut out = joined("failed to read ", path);
    out.append(": ");
    out.append(reason);
    out
}

/// The messages on files that could not be read, as one status message.
pub open spec fn failures_text(failures: Seq<Seq<char>>) -> Option<Seq<char>> {
    if failures.len() == 0 {
        None
    } else {
        Some(joined_by(failures, "; "@))
    }
}

/// The messages on files that could not be read, as one status message.
pub fn failures_message(failures: &Vec<String>) -> (r: Option<String>)
    ensures
        optional_text(r) == failures_text(texts(failures@)),
{
    if failures.len() == 0 {
        None
    } else {
        Some(join_all(failures, "; "))
    }
}

/// Chooses the session to start with. `path` is where one is kept, and `stored` is what was read
/// there: nothing where there is no file yet. Without a path or a file it is an empty one; a file
/// that cannot be read is an error.
pub fn load_session(
    path: Option<&str>,
    stored: Option<Result<InvestigationSession, String>>,
) -> (r: Result<InvestigationSession, String>)
    ensures
        match (path, stored) {
            (Some(path), Some(Ok(session))) => r matches Ok(found) && found@ == session@,
            (Some(path), Some(Err(reason))) => r matches Err(message) && message@
                == "failed to load session "@ + path@ + ": "@ + reason@,
            _ => r matches Ok(found) && found@ == (SessionView {
                history: Seq::empty(),
                saved: Seq::empty(),
                bookmarks: Seq::empty(),
            }),
        },
{
    match (path, stored) {
        (Some(path), Some(Ok(session))) => Ok(session),
        (Some(path), Some(Err(reason))) => {
            let mut message = joined("failed to load session ", path);
            message.append(": ");
            message.append(&reason);
            Err(message)
        },
        _ => Ok(InvestigationSession::new()),
    }
}

/// How many sample rows can be made before their times run out.
pub const MAX_SAMPLE_ROWS: u64 = 100_000_000_000_000;

/// The time of the first sample row: 2026-05-27T09:00:00Z.
pub const SAMPLE_START_SECS: i64 = 1_779_872_400;

/// The severity of a sample row.
pub open spec fn sample_level(id: int) -> LogLevel {
    if id % 6 == 0 {
        LogLevel::Error
    } else if id % 6 == 1 {
        LogLevel::Warn
    } else if id % 6 <= 4 {
        LogLevel::Info
    } else {
        LogLevel::Debug
    }
}

/// The fields of a sample row: every other row has some.
pub open spec fn sample_fields(id: int) -> FieldsView {
    if id % 6 % 2 == 0 {
        with_field(
            with_field(
                with_field(FieldsView::empty(), "service"@, "billing"@),
                "request_id"@,
                "req-"@ + decimal(id as nat),
            ),
            "duration_ms"@,
            decimal((id % 1000) as nat),
        )
    } else {
        FieldsView::empty()
    }
}

/// The message of a sample row.
pub open spec fn sample_message(id: int) -> Seq<char> {
    "synthetic event #"@ + decimal(id as nat) + " timeout while contacting db"@
}

/// The time of a sample row, one every 50 milliseconds.
pub open spec fn sample_time(id: int) -> Timestamp {
    let parts = parts_after(SAMPLE_START_SECS as int, 0, id * 50);
    timestamp_at(parts.0 as i64, parts.1 as u32)
}

/// A sample row.
pub open spec fn sample_row(id: int) -> RowView {
    RowView {
        row_id: RowId(id as u64),
        source_id: SourceId((id % 3 + 1) as u64),
        byte_range: ByteRange { start: (id * 120) as u64, end: (id * 120 + 119) as u64 },
        timestamp: Some(sample_time(id)),
        level: Some(sample_level(id)),
        raw: sample_message(id),
        message: sample_message(id),
        fields: sample_fields(id),
    }
}

/// The first `count` sample rows.
pub open spec fn samples(count: int) -> Seq<RowView> {
    Seq::new(count as nat, |i: int| sample_row(i))
}

/// An engine that holds the first `count` sample rows.
pub open spec fn sample_engine(count: int) -> EngineView {
    fresh_engine(
        SessionView { history: Seq::empty(), saved: Seq::empty(), bookmarks: Seq::empty() },
    ).with_rows(samples(count))
}

/// Makes one sample row.
fn make_sample(id: u64) -> (r: LogRow)
    requires
        id < MAX_SAMPLE_ROWS,
    ensures
        r@ == sample_row(id as int),
        r.timestamp matches Some(time) && time.secs() < MAX_SECS && time.nanos() < 1_000_000_000,
{
    let kind: u64 = id % 6;
    let level = if kind == 0 {
        LogLevel::Error
    } else if kind == 1 {
        LogLevel::Warn
    } else if kind <= 4 {
        LogLevel::Info
    } else {
        LogLevel::Debug
    };
    let mut fields = ParsedFields::new();
    if kind % 2 == 0 {
        fields.insert("service", "billing");
        fields.insert("request_id", &joined("req-", &decimal_text(id)));
        fields.insert("duration_ms", &decimal_text(id % 1000));
    }
    let mut message = joined("synthetic event #", &decimal_text(id));
    message.append(" timeout while contacting db");
    let timestamp = match Timestamp::from_parts(SAMPLE_START_SECS, 0) {
        Some(start) => {
            proof {
                crate::time::lemma_timestamp_has_its_parts(SAMPLE_START_SECS, 0);
            }
            let time = start.plus_millis((id * 50) as i64);
            proof {
                let parts = parts_after(SAMPLE_START_SECS as int, 0, id * 50);
                crate::time::lemma_timestamp_has_its_parts(parts.0 as i64, parts.1 as u32);
                crate::time::lemma_timestamp_is_its_parts(time, sample_time(id as int));
            }
            Some(time)
        },
        None => None,
    };
    let row = LogRow {
        row_id: RowId(id),
        source_id: SourceId(id % 3 + 1),
        byte_range: ByteRange { start: id * 120, end: id * 120 + 119 },
        timestamp,
        level: Some(level),
        raw: shared(&message),
        message: shared(&message),
        fields,
    };
    assert(row@.message =~= sample_message(id as int));
    row
}

/// Presents `count` sample rows: a mix of severities, of rows with and without fields, and of
/// sources.
pub fn sample_rows(count: u64) -> (r: Vec<RowPresentation>)
    requires
        count <= MAX_SAMPLE_ROWS,
        count <= usize::MAX,
    ensures
        presentation_views(r@) == sample_engine(count as int).presented_all(
            sample_engine(count as int).listed(),
        ),
        r@.len() == count,
{
    let mut engine = Engine::with_session(InvestigationSession::new());
    let ghost start = engine@;
    let mut id: u64 = 0;
    assert(samples(0) =~= Seq::<RowView>::empty());
    while id < count
        invariant
            id <= count <= MAX_SAMPLE_ROWS,
            engine.wf(),
            start == fresh_engine(
                SessionView { history: Seq::empty(), saved: Seq::empty(), bookmarks: Seq::empty() },
            ),
            engine@ == start.with_rows(samples(id as int)),
            engine@.index.evicted == 0,
            engine@.rows().len() == id,
            engine@.max_rows is None,
            engine@.filter == FilterView::All,
            !engine@.folding,
            stamps_leave_room(engine@.rows()),
        decreases count - id,
    {
        let row = make_sample(id);
        let ghost before = engine@;
        engine.append_row(row);
        proof {
            law_rows_are_appended_in_turn(start, samples(id as int), row@);
            assert(samples(id + 1) =~= samples(id as int).push(row@));
            assert(engine@ =~= before.with_row(row@));
            let rows = engine@.rows();
            assert forall|i: int| 0 <= i < rows.len() implies ((#[trigger] rows[i]).timestamp matches Some(
                time,
            ) ==> time.secs() < MAX_SECS && time.nanos() < 2_000_000_000) by {
                if i < id {
                    assert(rows[i] == before.rows()[i]);
                }
            }
        }
        id += 1;
    }
    proof {
        law_views_fit_in_practice(engine@);
        crate::laws::law_no_filter_lists_every_row(engine@);
        let listed = engine@.listed();
        assert(listed.subrange(0, listed.len() as int) =~= listed);
    }
    let snapshot = engine.viewport(ViewportRequest { first_row: 0, row_count: count as usize });
    assert(presentation_views(snapshot.rows@).len() == count);
    snapshot.rows
}

/// What filters that are asked for at the start come to. A saved filter that is not there is told by
/// its name. Otherwise the engine uses what the saved filter, the lowest severity and the text come
/// to together; under a name that is given it can be found again. Where something is wrong, nothing
/// changes.
pub proof fn law_filters_at_the_start(
    engine: EngineView,
    text: Option<Seq<char>>,
    level: Option<LogLevel>,
    use_filter: Option<Seq<char>>,
    save_filter: Option<Seq<char>>,
)
    ensures
        ({
            let (after, error) = applied(engine, text, level, use_filter, save_filter);
            let saved = match use_filter {
                Some(name) => saved_as(engine.session.saved, name),
                None => None,
            };
            let missing = use_filter is Some && saved is None;
            let wanted = composed(saved, level, text);
            &&& error is Some ==> after == engine
            &&& missing ==> error == Some("saved filter not found: "@ + use_filter->0)
            &&& !missing && wanted is Ok && wanted->Ok_0.bad_pattern() is None ==> {
                &&& error is None
                &&& after.filter == wanted->Ok_0
                &&& save_filter matches Some(name) ==> saved_as(after.session.saved, name) == Some(
                    wanted->Ok_0,
                )
                &&& save_filter is None ==> after.session.saved == engine.session.saved
                &&& after.session.bookmarks == engine.session.bookmarks
                &&& after.index == engine.index && after.sources == engine.sources && after.search
                    == engine.search && after.folding == engine.folding && after.max_rows
                    == engine.max_rows
            }
            &&& !missing && wanted is Err ==> error is Some
            &&& !missing && wanted is Ok && wanted->Ok_0.bad_pattern() is Some ==> error is Some
        }),
{
    if let Some(name) = save_filter {
        let saved = match use_filter {
            Some(name) => saved_as(engine.session.saved, name),
            None => None,
        };
        let wanted = composed(saved, level, text);
        if wanted is Ok {
            crate::session::law_save_then_find(
                engine.session.saved,
                name,
                wanted->Ok_0,
                name,
            );
        }
    }
}

/// Sample rows are stamped 50 milliseconds apart, come from three sources in turn and have the
/// severities error, warn, info three times and debug in turn; every other one has fields.
pub proof fn law_sample_rows(id: int)
    requires
        0 <= id < MAX_SAMPLE_ROWS,
    ensures
        sample_row(id).source_id.0 == 1 + id % 3,
        sample_row(id).row_id.0 == id,
        sample_row(id).raw == sample_row(id).message,
        id % 6 == 0 ==> sample_row(id).level == Some(LogLevel::Error),
        id % 6 == 1 ==> sample_row(id).level == Some(LogLevel::Warn),
        2 <= id % 6 <= 4 ==> sample_row(id).level == Some(LogLevel::Info),
        id % 6 == 5 ==> sample_row(id).level == Some(LogLevel::Debug),
        sample_row(id).fields.len() == if id % 2 == 0 {
            3int
        } else {
            0
        },
        sample_row(id).timestamp is Some,
        sample_time(id).secs() == 1_779_872_400 + id / 20,
        sample_time(id).nanos() == id % 20 * 50_000_000,
{
    let parts = parts_after(SAMPLE_START_SECS as int, 0, id * 50);
    crate::time::lemma_timestamp_has_its_parts(parts.0 as i64, parts.1 as u32);
    if id % 2 == 0 {
        let one = with_field(FieldsView::empty(), "service"@, "billing"@);
        let number = "req-"@ + decimal(id as nat);
        reveal_strlit("service");
        reveal_strlit("request_id");
        reveal_strlit("duration_ms");
        assert("service"@[0] == 's' && "request_id"@[0] == 'r' && "duration_ms"@[0] == 'd');
        assert(one =~= seq![("service"@, "billing"@)]);
        let two = with_field(one, "request_id"@, number);
        assert(two =~= seq![("request_id"@, number)] + one);
        let value = decimal((id % 1000) as nat);
        let three = with_field(two, "duration_ms"@, value);
        assert(three =~= seq![("duration_ms"@, value)] + two);
    }
}

} // verus!
