//! What the front-ends share: using a filter that was typed in, taking events in, and colours.
use crate::events::{EventView, LogEvent};
use crate::filter::{regex_rejection, FilterView};
use crate::laws::law_rows_are_appended_in_turn;
use crate::model::{row_views, LogRow, RowView, SourceId};
use crate::query::{parse_filter_query, text_filter};
use crate::session::{with_recorded, SessionView};
use crate::text::{optional_text, trim, trimmed};
use crate::time::MAX_SECS;
use crate::timeline::stamps_leave_room;
use crate::viewport::{with_source, Engine, EngineView};
use vstd::prelude::*;

verus! {

impl EngineView {
    /// The engine with this filter in use.
    pub open spec fn using(self, filter: FilterView) -> EngineView {
        EngineView {
            filter,
            session: SessionView {
                history: with_recorded(self.session.history, filter),
                ..self.session
            },
            ..self
        }
    }
}

/// What is said of a filter whose regular expression does not compile.
pub open spec fn bad_regex_text(pattern: Seq<char>) -> Seq<char> {
    "invalid regex '"@ + pattern + "': "@ + regex_rejection(pattern)->0
}

/// What comes of a filter text: the engine, and what is wrong with the text.
pub open spec fn submitted(engine: EngineView, text: Seq<char>) -> (EngineView, Option<Seq<char>>) {
    if trimmed(text).len() == 0 {
        (EngineView { filter: FilterView::All, ..engine }, None)
    } else {
        match text_filter(text) {
            Err(reason) => (engine, Some("invalid query: "@ + reason)),
            Ok(filter) => match filter.bad_pattern() {
                Some(pattern) => (engine, Some(bad_regex_text(pattern))),
                None => (engine.using(filter), None),
            },
        }
    }
}

/// Uses the filter that a text stands for; a blank text shows every row again. Returns what is
/// wrong with the text, if anything.
pub fn submit_filter(engine: &mut Engine, text: &str) -> (r: Option<String>)
    requires
        old(engine).wf(),
    ensures
        final(engine).wf(),
        (final(engine)@, optional_text(r)) == submitted(old(engine)@, text@),
{
    if trim(text).is_empty() {
        engine.clear_filter();
        return None;
    }
    match parse_filter_query(text) {
        Ok(filter) => match engine.set_filter(filter) {
            Ok(_) => None,
            Err(error) => Some(error.message()),
        },
        Err(error) => Some(error.message()),
    }
}

/// What came of an event.
#[derive(Debug, PartialEq, Eq)]
pub enum Absorbed {
    /// Rows were appended.
    Rows,
    /// The source reported an error.
    Trouble(String),
    /// Nothing that a front-end has to show.
    Quiet,
}

/// The outcome of an event as a value of mathematics.
pub ghost enum AbsorbedView {
    Rows,
    Trouble(Seq<char>),
    Quiet,
}

impl View for Absorbed {
    type V = AbsorbedView;

    open spec fn view(&self) -> AbsorbedView {
        match *self {
            Absorbed::Rows => AbsorbedView::Rows,
            Absorbed::Trouble(message) => AbsorbedView::Trouble(message@),
            Absorbed::Quiet => AbsorbedView::Quiet,
        }
    }
}

/// The rows that an event brings.
pub open spec fn rows_in(event: EventView) -> Seq<RowView> {
    match event {
        EventView::RowAppended(row) => seq![row],
        EventView::RowsAppended(rows) => rows,
        _ => Seq::empty(),
    }
}

impl EngineView {
    /// The engine after an event: its rows are appended, and a source that it adds is named after
    /// its path.
    pub open spec fn after_event(self, event: EventView) -> EngineView {
        match event {
            EventView::SourceAdded(source_id, path) => EngineView {
                sources: with_source(self.sources, source_id, path),
                ..self
            },
            _ => self.with_rows(rows_in(event)),
        }
    }

    /// Row ids do not run out when `more` rows are appended.
    pub open spec fn has_ids_for(self, more: nat) -> bool {
        self.index.evicted + self.index.rows.len() + more < u64::MAX
    }
}

/// What a front-end learns from an event.
pub open spec fn outcome_of(event: EventView) -> AbsorbedView {
    match event {
        EventView::RowAppended(_) => AbsorbedView::Rows,
        EventView::RowsAppended(rows) => if rows.len() > 0 {
            AbsorbedView::Rows
        } else {
            AbsorbedView::Quiet
        },
        EventView::SourceError(_, message) => AbsorbedView::Trouble(message),
        _ => AbsorbedView::Quiet,
    }
}

/// Whether row ids do not run out when `more` rows are appended.
pub fn can_append(engine: &Engine, more: usize) -> (r: bool)
    requires
        engine.wf(),
    ensures
        r == engine@.has_ids_for(more as nat),
{
    let used: u64 = engine.evicted_row_count() + engine.total_rows() as u64;
    u64::MAX - used > more as u64
}

/// Takes an event into the engine.
pub fn absorb_event(engine: &mut Engine, event: LogEvent) -> (r: Absorbed)
    requires
        old(engine).wf(),
        old(engine)@.has_ids_for(rows_in(event@).len()),
    ensures
        final(engine).wf(),
        final(engine)@ == old(engine)@.after_event(event@),
        r@ == outcome_of(event@),
        final(engine)@.index.evicted + final(engine)@.index.rows.len()
            == old(engine)@.index.evicted + old(engine)@.index.rows.len() + rows_in(event@).len(),
{
    let ghost before = engine@;
    assert(before.with_rows(Seq::empty()) == before);
    match event {
        LogEvent::RowAppended(row) => {
            let ghost rows = seq![row@];
            engine.append_row(row);
            proof {
                assert(rows =~= Seq::<RowView>::empty().push(row@));
                law_rows_are_appended_in_turn(before, Seq::empty(), row@);
                assert(engine@ =~= before.with_row(row@));
            }
            Absorbed::Rows
        },
        LogEvent::RowsAppended(rows) => {
            let some: bool = rows.len() > 0;
            append_rows(engine, rows);
            if some {
                Absorbed::Rows
            } else {
                Absorbed::Quiet
            }
        },
        LogEvent::SourceAdded { source_id, path } => {
            engine.add_source(source_id, &path);
            Absorbed::Quiet
        },
        LogEvent::SourceError { source_id, message } => Absorbed::Trouble(message),
        _ => Absorbed::Quiet,
    }
}

/// The elements of a list from the last to the first.
pub fn reversed<T>(list: Vec<T>) -> (r: Vec<T>)
    ensures
        r@ == list@.reverse(),
{
    let ghost all = list@;
    let mut list = list;
    let mut out: Vec<T> = Vec::new();
    let count: usize = list.len();
    let mut left: usize = count;
    while left > 0
        invariant
            left == list@.len(),
            left <= count,
            count == all.len(),
            list@ == all.subrange(0, left as int),
            out@.len() == count - left,
            forall|i: int| 0 <= i < out@.len() ==> #[trigger] out@[i] == all[count - 1 - i],
        decreases left,
    {
        if let Some(last) = list.pop() {
            out.push(last);
        }
        left -= 1;
        assert(list@ =~= all.subrange(0, left as int));
    }
    assert(out@ =~= all.reverse());
    out
}

/// Appends rows in their order.
pub fn append_rows(engine: &mut Engine, rows: Vec<LogRow>)
    requires
        old(engine).wf(),
        old(engine)@.has_ids_for(rows@.len()),
    ensures
        final(engine).wf(),
        final(engine)@ == old(engine)@.with_rows(row_views(rows@)),
        final(engine)@.index.evicted + final(engine)@.index.rows.len()
            == old(engine)@.index.evicted + old(engine)@.index.rows.len() + rows@.len(),
{
    let ghost before = engine@;
    let ghost all = row_views(rows@);
    let count: usize = rows.len();
    let mut turned = reversed(rows);
    let mut done: usize = 0;
    assert(all.subrange(0, 0) =~= Seq::<RowView>::empty());
    while done < count
        invariant
            done <= count,
            count == all.len(),
            turned@.len() == count - done,
            engine.wf(),
            engine@ == before.with_rows(all.subrange(0, done as int)),
            engine@.index.evicted + engine@.index.rows.len() == before.index.evicted
                + before.index.rows.len() + done,
            before.has_ids_for(count as nat),
            forall|i: int| 0 <= i < turned@.len() ==> (#[trigger] turned@[i])@ == all[count - 1 - i],
        decreases count - done,
    {
        if let Some(row) = turned.pop() {
            let ghost held = engine@;
            assert(row@ == all[done as int]);
            engine.append_row(row);
            proof {
                assert(all.subrange(0, done + 1) =~= all.subrange(0, done as int).push(
                    all[done as int],
                ));
                law_rows_are_appended_in_turn(before, all.subrange(0, done as int), row@);
                assert(engine@ =~= held.with_row(row@));
            }
        }
        done += 1;
    }
    assert(all.subrange(0, done as int) =~= all);
}

/// Appending rows that are stamped in time leaves all rows stamped in time, and adds no more
/// rows than there are.
pub proof fn lemma_rows_stay_in_time(engine: EngineView, rows: Seq<RowView>)
    requires
        stamps_leave_room(engine.rows()),
        stamps_leave_room(rows),
    ensures
        stamps_leave_room(engine.with_rows(rows).rows()),
        engine.with_rows(rows).rows().len() <= engine.rows().len() + rows.len(),
        engine.with_rows(rows).session == engine.session,
    decreases rows.len(),
{
    if rows.len() > 0 {
        let next = engine.with_row(rows[0]);
        let appended = engine.index.appended(rows[0]).rows;
        assert forall|i: int| 0 <= i < appended.len() implies ((#[trigger] appended[i]).timestamp matches Some(
            time,
        ) ==> time.secs() < MAX_SECS && time.nanos() < 2_000_000_000) by {
            if i < engine.rows().len() {
                assert(appended[i] == engine.rows()[i]);
            } else {
                assert(appended[i].timestamp == rows[0].timestamp);
            }
        }
        let kept = next.rows();
        assert forall|i: int| 0 <= i < kept.len() implies ((#[trigger] kept[i]).timestamp matches Some(
            time,
        ) ==> time.secs() < MAX_SECS && time.nanos() < 2_000_000_000) by {
            assert(kept[i] == appended[i + (appended.len() - kept.len())]);
        }
        let rest = rows.subrange(1, rows.len() as int);
        assert forall|i: int| 0 <= i < rest.len() implies ((#[trigger] rest[i]).timestamp matches Some(
            time,
        ) ==> time.secs() < MAX_SECS && time.nanos() < 2_000_000_000) by {
            assert(rest[i] == rows[i + 1]);
        }
        lemma_rows_stay_in_time(next, rest);
    }
}

/// Whether the row is stamped before the last second that can be named.
pub fn leaves_room(row: &LogRow) -> (r: bool)
    ensures
        r == stamps_leave_room(seq![row@]),
{
    match &row.timestamp {
        Some(time) => {
            let nanos: u32 = time.subsec_nanos();
            let r: bool = time.seconds() < MAX_SECS && nanos < 2_000_000_000;
            proof {
                let one = seq![row@];
                assert(one[0] == row@);
            }
            r
        },
        None => true,
    }
}

/// A colour by its red, green and blue parts.
#[derive(Debug, Clone, Copy, PartialEq, Eq, Structural)]
pub struct Rgb {
    pub red: u8,
    pub green: u8,
    pub blue: u8,
}

/// The colour with these parts.
pub open spec fn rgb_of(red: u8, green: u8, blue: u8) -> Rgb {
    Rgb { red, green, blue }
}

/// The colour with these parts.
pub fn rgb(red: u8, green: u8, blue: u8) -> (r: Rgb)
    ensures
        r == rgb_of(red, green, blue),
{
    Rgb { red, green, blue }
}

/// What a filter that was typed in comes to. A blank one shows every row again. One that can be
/// read and compiles is in use afterwards and is the last of the history. Any other leaves the
/// engine as it is, and what is wrong with it is told.
pub proof fn law_typed_filters(engine: EngineView, text: Seq<char>)
    ensures
        ({
            let (after, error) = submitted(engine, text);
            let blank = trimmed(text).len() == 0;
            &&& after.index == engine.index && after.sources == engine.sources && after.search
                == engine.search && after.folding == engine.folding && after.max_rows
                == engine.max_rows && after.session.saved == engine.session.saved
                && after.session.bookmarks == engine.session.bookmarks
            &&& blank ==> after.filter == FilterView::All && error is None && after.session
                == engine.session
            &&& !blank && text_filter(text) is Ok && text_filter(text)->Ok_0.bad_pattern() is None
                ==> error is None && after.filter == text_filter(text)->Ok_0
                && after.session.history == with_recorded(
                engine.session.history,
                text_filter(text)->Ok_0,
            )
            &&& !blank && text_filter(text) is Err ==> after == engine && error == Some(
                "invalid query: "@ + text_filter(text)->Err_0,
            )
            &&& !blank && text_filter(text) is Ok && text_filter(text)->Ok_0.bad_pattern() is Some
                ==> after == engine && error is Some
        }),
{
}

/// What events come to: rows are appended in their order, however they come, and a source that is
/// added goes by its path. Nothing else of the engine changes, and other events change nothing.
pub proof fn law_events_are_taken_in(
    engine: EngineView,
    source_id: SourceId,
    text: Seq<char>,
    rows: Seq<RowView>,
    row: RowView,
)
    ensures
        engine.after_event(EventView::RowsAppended(rows)) == engine.with_rows(rows),
        engine.after_event(EventView::RowAppended(row)) == engine.with_row(row),
        engine.after_event(EventView::SourceAdded(source_id, text)) == (EngineView {
            sources: with_source(engine.sources, source_id, text),
            ..engine
        }),
        engine.after_event(EventView::SourceRemoved(source_id)) == engine,
        engine.after_event(EventView::SourceRotated(source_id)) == engine,
        engine.after_event(EventView::SourceError(source_id, text)) == engine,
{
    let one = seq![row];
    assert(one.subrange(1, 1) =~= Seq::<RowView>::empty());
    assert(engine.with_row(row).with_rows(Seq::empty()) == engine.with_row(row));
    assert(one[0] == row);
}

} // verus!
