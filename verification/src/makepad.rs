//! The desktop front-end that shows one long page of rows.
use crate::events::{event_views, EventView, LogEvent};
use crate::iced::{band_colour, lemma_rows_of_part, rows_in_all, severity_colour};
use crate::model::{role_of, PresentationView, RowPresentation, ViewportSnapshot};
use crate::present::spans_text;
use crate::startup::{
    applied, failures_message, failures_text, normalise_max_rows, optional_level,
    try_apply_filters, LevelArg,
};
use crate::text::{decimal, decimal_text, joined, optional_text, texts};
use crate::ui::{absorb_event, outcome_of, reversed, rows_in, Absorbed, AbsorbedView, Rgb};
use crate::viewport::{capped, Engine, EngineView};
use vstd::prelude::*;
use vstd::string::*;

verus! {

/// How many rows the page holds.
pub const LONG_PAGE_SIZE: usize = 1024;

/// A row as one line of text: its source in brackets, its spans, and a star where it is
/// bookmarked.
pub open spec fn line_of(row: PresentationView) -> Seq<char> {
    let source = match row.source_name {
        Some(name) => "["@ + name + "] "@,
        None => Seq::empty(),
    };
    let star = if row.is_bookmarked {
        " ★"@
    } else {
        Seq::empty()
    };
    source + spans_text(row.spans) + star
}

/// A row as one line of text.
pub fn row_text(row: &RowPresentation) -> (r: String)
    ensures
        r@ == line_of(row@),
{
    let mut out: String = String::new();
    if let Some(name) = &row.source_name {
        out.append("[");
        out.append(&**name);
        out.append("] ");
    }
    let ghost source = match row@.source_name {
        Some(name) => "["@ + name + "] "@,
        None => Seq::empty(),
    };
    assert(out@ =~= source);
    let ghost spans = row@.spans;
    let mut i: usize = 0;
    assert(source =~= source + spans_text(spans.subrange(0, 0)));
    while i < row.spans.len()
        invariant
            i <= row.spans@.len(),
            spans == row@.spans,
            out@ == source + spans_text(spans.subrange(0, i as int)),
        decreases row.spans@.len() - i,
    {
        out.append(&*row.spans[i].text);
        i += 1;
        proof {
            let next = spans.subrange(0, i as int);
            assert(next.drop_last() =~= spans.subrange(0, i - 1));
            assert(next.last() == row.spans@[i - 1]@);
            assert(out@ =~= source + spans_text(next));
        }
    }
    assert(spans.subrange(0, i as int) =~= spans);
    if row.is_bookmarked {
        out.append(" ★");
    }
    assert(out@ =~= line_of(row@));
    out
}

/// The colour of a row.
pub fn row_colour(row: &RowPresentation) -> (r: Rgb)
    ensures
        r == band_colour(role_of(row.level)),
{
    severity_colour(row.severity_role())
}

/// The header: how many rows, warnings, errors and sources there are.
pub open spec fn header_of(snapshot: ViewportSnapshot, follow: bool) -> Seq<char> {
    "rows: "@ + decimal(snapshot.total_rows as nat) + " • matching: "@ + decimal(
        snapshot.total_matching_rows as nat,
    ) + " • warn: "@ + decimal(snapshot.level_counts.warn as nat) + " • error: "@ + decimal(
        (snapshot.level_counts.error + snapshot.level_counts.fatal) as nat,
    ) + " • sources: "@ + decimal(snapshot.source_summaries@.len()) + if follow {
        " • follow"@
    } else {
        Seq::empty()
    }
}

/// The header.
pub fn header(snapshot: &ViewportSnapshot, follow: bool) -> (r: String)
    requires
        snapshot.level_counts.error + snapshot.level_counts.fatal <= usize::MAX,
    ensures
        r@ == header_of(*snapshot, follow),
{
    let errors: usize = snapshot.level_counts.error + snapshot.level_counts.fatal;
    let mut out = joined("rows: ", &decimal_text(snapshot.total_rows as u64));
    out.append(" • matching: ");
    out.append(&decimal_text(snapshot.total_matching_rows as u64));
    out.append(" • warn: ");
    out.append(&decimal_text(snapshot.level_counts.warn as u64));
    out.append(" • error: ");
    out.append(&decimal_text(errors as u64));
    out.append(" • sources: ");
    out.append(&decimal_text(snapshot.source_summaries.len() as u64));
    if follow {
        out.append(" • follow");
    } else {
        assert(out@ =~= out@ + Seq::<char>::empty());
    }
    out
}

/// How many rows an event brings.
fn rows_brought(event: &LogEvent) -> (r: usize)
    ensures
        r == rows_in(event@).len(),
{
    match event {
        LogEvent::RowAppended(_) => 1,
        LogEvent::RowsAppended(rows) => rows.len(),
        _ => 0,
    }
}

/// The state of the front-end.
#[derive(Debug)]
pub struct LongPage {
    pub engine: Engine,
    pub follow: bool,
    pub last_error: Option<String>,
}

/// The state as a value of mathematics.
#[verifier::ext_equal]
pub ghost struct LongPageState {
    pub engine: EngineView,
    pub follow: bool,
    pub error: Option<Seq<char>>,
}

impl View for LongPage {
    type V = LongPageState;

    open spec fn view(&self) -> LongPageState {
        LongPageState {
            engine: self.engine@,
            follow: self.follow,
            error: optional_text(self.last_error),
        }
    }
}

/// The state at the start. `engine` holds the files that were loaded; what is wrong with the
/// filters is told after the files that could not be read.
pub open spec fn opened(
    engine: EngineView,
    max_rows: Option<usize>,
    filter: Option<Seq<char>>,
    level: Option<LevelArg>,
    use_filter: Option<Seq<char>>,
    save_filter: Option<Seq<char>>,
    follow: bool,
    failures: Seq<Seq<char>>,
) -> LongPageState {
    let limit = if max_rows == Some(0usize) {
        None
    } else {
        max_rows
    };
    let limited = EngineView { index: capped(engine.index, limit), max_rows: limit, ..engine };
    let (ready, error) = applied(limited, filter, optional_level(level), use_filter, save_filter);
    LongPageState {
        engine: ready,
        follow,
        error: failures_text(
            match error {
                Some(text) => failures.push("filter error: "@ + text),
                None => failures,
            },
        ),
    }
}

impl LongPageState {
    /// One event taken in.
    pub open spec fn with_event(self, event: EventView) -> LongPageState {
        LongPageState {
            engine: self.engine.after_event(event),
            error: match outcome_of(event) {
                AbsorbedView::Trouble(message) => Some(message),
                _ => self.error,
            },
            ..self
        }
    }

    /// Some events taken in.
    pub open spec fn with_events(self, events: Seq<EventView>) -> LongPageState
        decreases events.len(),
    {
        if events.len() == 0 {
            self
        } else {
            self.with_events(events.drop_last()).with_event(events.last())
        }
    }
}

impl LongPage {
    /// The front-end at the start, with the flags of the command line put to use.
    pub fn open(
        engine: Engine,
        max_rows: Option<usize>,
        filter: Option<String>,
        level: Option<LevelArg>,
        use_filter: Option<String>,
        save_filter: Option<String>,
        follow: bool,
        failures: Vec<String>,
    ) -> (r: LongPage)
        requires
            engine.wf(),
        ensures
            r.engine.wf(),
            r@ == opened(
                engine@,
                max_rows,
                optional_text(filter),
                level,
                optional_text(use_filter),
                optional_text(save_filter),
                follow,
                texts(failures@),
            ),
    {
        let ghost told = texts(failures@);
        let mut engine = engine;
        let mut failures = failures;
        engine.set_max_rows(normalise_max_rows(max_rows));
        if let Some(error) = try_apply_filters(&mut engine, filter, level, use_filter, save_filter) {
            failures.push(joined("filter error: ", &error));
            assert(texts(failures@) =~= told.push("filter error: "@ + error@));
        }
        LongPage { engine, follow, last_error: failures_message(&failures) }
    }

    /// Takes events in. Returns how many rows came.
    pub fn drain(&mut self, events: Vec<LogEvent>) -> (r: usize)
        requires
            old(self).engine.wf(),
            old(self)@.engine.has_ids_for(rows_in_all(event_views(events@)).len()),
            rows_in_all(event_views(events@)).len() <= usize::MAX,
        ensures
            final(self).engine.wf(),
            final(self)@ == old(self)@.with_events(event_views(events@)),
            r == rows_in_all(event_views(events@)).len(),
    {
        let ghost before = self@;
        let ghost all = event_views(events@);
        let count: usize = events.len();
        let mut turned = reversed(events);
        let mut done: usize = 0;
        let mut appended: usize = 0;
        assert(all.subrange(0, 0) =~= Seq::<EventView>::empty());
        while done < count
            invariant
                done <= count,
                count == all.len(),
                turned@.len() == count - done,
                forall|i: int|
                    0 <= i < turned@.len() ==> (#[trigger] turned@[i])@ == all[count - 1 - i],
                self.engine.wf(),
                self@ == before.with_events(all.subrange(0, done as int)),
                appended == rows_in_all(all.subrange(0, done as int)).len(),
                rows_in_all(all).len() <= usize::MAX,
                before.engine.has_ids_for(rows_in_all(all).len()),
                self@.engine.index.evicted + self@.engine.index.rows.len()
                    == before.engine.index.evicted + before.engine.index.rows.len() + rows_in_all(
                    all.subrange(0, done as int),
                ).len(),
            decreases count - done,
        {
            let ghost part = all.subrange(0, done as int);
            let ghost next = all.subrange(0, done + 1);
            if let Some(event) = turned.pop() {
                proof {
                    assert(event@ == all[done as int]);
                    assert(next.drop_last() =~= part);
                    assert(next.last() == event@);
                    lemma_rows_of_part(all, done as int);
                }
                appended = appended + rows_brought(&event);
                if let Absorbed::Trouble(message) = absorb_event(&mut self.engine, event) {
                    self.last_error = Some(message);
                }
                assert(self@ =~= before.with_events(part).with_event(event@));
            }
            done += 1;
        }
        assert(all.subrange(0, done as int) =~= all);
        appended
    }
}

/// The page is opened with the limit, where 0 is none, and with the filters of the command line in
/// use; what is wrong with them and with the files is told.
pub proof fn law_opening_the_page(
    engine: EngineView,
    max_rows: Option<usize>,
    filter: Option<Seq<char>>,
    follow: bool,
)
    ensures
        ({
            let page = opened(engine, max_rows, filter, None, None, None, follow, Seq::empty());
            let limit = match max_rows {
                Some(most) => if most == 0 {
                    None
                } else {
                    Some(most)
                },
                None => None,
            };
            let limited = EngineView {
                index: capped(engine.index, limit),
                max_rows: limit,
                ..engine
            };
            let (ready, error) = applied(limited, filter, None, None, None);
            &&& page.engine == ready
            &&& page.follow == follow
            &&& error is None ==> page.error is None
            &&& error matches Some(text) ==> page.error == Some("filter error: "@ + text)
        }),
{
}

/// Rows that come are appended, a source that is added is named, and trouble is told.
pub proof fn law_events_of_the_long_page(state: LongPageState, event: EventView)
    ensures
        state.with_event(event).engine == state.engine.after_event(event),
        state.with_event(event).follow == state.follow,
        event matches EventView::SourceError(_, message) ==> state.with_event(event).error == Some(
            message,
        ),
        !(event is SourceError) ==> state.with_event(event).error == state.error,
{
}

/// A line of the page reads as the row does, behind the name of its source where it has one, and a
/// star ends the line of a bookmarked row.
pub proof fn law_lines_of_the_long_page(row: PresentationView, name: Seq<char>)
    ensures
        line_of(PresentationView { source_name: None, is_bookmarked: false, ..row }) == spans_text(
            row.spans,
        ),
        line_of(PresentationView { source_name: Some(name), is_bookmarked: false, ..row }) == "["@
            + name + "] "@ + spans_text(row.spans),
        line_of(PresentationView { is_bookmarked: true, ..row }) == line_of(
            PresentationView { is_bookmarked: false, ..row },
        ) + " ★"@,
{
    assert(forall|s: Seq<char>| #[trigger] (s + Seq::<char>::empty()) =~= s);
    assert(forall|s: Seq<char>| #[trigger] (Seq::<char>::empty() + s) =~= s);
}

/// The head of the page tells the held and the listed rows, the warnings, the errors of both kinds
/// and the sources; that the list is followed stands at its end.
pub proof fn law_head_of_the_long_page(snapshot: ViewportSnapshot)
    ensures
        header_of(snapshot, true) == header_of(snapshot, false) + " • follow"@,
        header_of(snapshot, false) == "rows: "@ + decimal(snapshot.total_rows as nat)
            + " • matching: "@ + decimal(snapshot.total_matching_rows as nat) + " • warn: "@
            + decimal(snapshot.level_counts.warn as nat) + " • error: "@ + decimal(
            (snapshot.level_counts.error + snapshot.level_counts.fatal) as nat,
        ) + " • sources: "@ + decimal(snapshot.source_summaries@.len()),
{
    assert(forall|s: Seq<char>| #[trigger] (s + Seq::<char>::empty()) =~= s);
}

} // verus!
