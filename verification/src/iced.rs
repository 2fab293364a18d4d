//! The paged desktop front-end: its state, its messages and what it shows.
use crate::events::{event_views, EventView, LogEvent};
use crate::laws::{law_list_is_what_is_shown_in_order, law_views_fit_in_practice};
use crate::model::{
    pair_views, PresentationView, RowId, RowPresentation, RowView, SeverityRole, SourceSummary, SpanKind,
    SpanView, ViewportRequest,
};
use crate::query::composed;
use crate::session::{saved_as, toggled, SavedView, SessionView};
use crate::startup::{
    applied, apply_filters, failures_message, failures_text, normalise_max_rows, optional_level,
    try_apply_filters, LevelArg,
};
use crate::summary::summaries_of;
use crate::text::{decimal, decimal_text, join_all, joined, joined_by, optional_text, texts};
use crate::timeline::stamps_leave_room;
use crate::tui::less;
use crate::ui::{
    absorb_event, bad_regex_text, lemma_rows_stay_in_time, outcome_of, reversed, rgb, rgb_of, rows_in, Absorbed, AbsorbedView, Rgb,
};
use crate::viewport::{
    capped, hit_after, ids_of, place_of, presentation_views, Engine, EngineView,
};
use std::sync::Arc;
use vstd::prelude::*;
use vstd::string::*;

verus! {

/// How many rows a page holds.
pub const PAGE_SIZE: usize = 200;

/// How often pending events are taken in, in milliseconds.
pub const POLL_INTERVAL_MILLIS: u64 = 33;

/// The input that has the focus. Letters are shortcuts in normal mode only.
#[derive(Debug, Clone, Copy, PartialEq, Eq, Structural)]
pub enum PageMode {
    Normal,
    Filter,
    Search,
}

/// Something that the user did, or a tick of the clock with the events that came in.
#[derive(Debug)]
pub enum Message {
    FilterInputChanged(String),
    FilterSubmitted,
    SearchInputChanged(String),
    SearchSubmitted,
    EnterFilterMode,
    EnterSearchMode,
    EscapePressed,
    LevelCycled,
    LevelSetTo(Option<LevelArg>),
    FollowToggled,
    SavedFilterCycled,
    BookmarkToggled,
    NextSearchResult,
    PrevSearchResult,
    SelectionMoveDown,
    SelectionMoveUp,
    StackFoldingToggled,
    PageUp,
    PageDown,
    HomePressed,
    EndPressed,
    Tick(Vec<LogEvent>),
}

/// A message as a value of mathematics.
pub ghost enum MessageView {
    FilterInputChanged(Seq<char>),
    FilterSubmitted,
    SearchInputChanged(Seq<char>),
    SearchSubmitted,
    EnterFilterMode,
    EnterSearchMode,
    EscapePressed,
    LevelCycled,
    LevelSetTo(Option<LevelArg>),
    FollowToggled,
    SavedFilterCycled,
    BookmarkToggled,
    NextSearchResult,
    PrevSearchResult,
    SelectionMoveDown,
    SelectionMoveUp,
    StackFoldingToggled,
    PageUp,
    PageDown,
    HomePressed,
    EndPressed,
    Tick(Seq<EventView>),
}

impl View for Message {
    type V = MessageView;

    open spec fn view(&self) -> MessageView {
        match *self {
            Message::FilterInputChanged(text) => MessageView::FilterInputChanged(text@),
            Message::FilterSubmitted => MessageView::FilterSubmitted,
            Message::SearchInputChanged(text) => MessageView::SearchInputChanged(text@),
            Message::SearchSubmitted => MessageView::SearchSubmitted,
            Message::EnterFilterMode => MessageView::EnterFilterMode,
            Message::EnterSearchMode => MessageView::EnterSearchMode,
            Message::EscapePressed => MessageView::EscapePressed,
            Message::LevelCycled => MessageView::LevelCycled,
            Message::LevelSetTo(level) => MessageView::LevelSetTo(level),
            Message::FollowToggled => MessageView::FollowToggled,
            Message::SavedFilterCycled => MessageView::SavedFilterCycled,
            Message::BookmarkToggled => MessageView::BookmarkToggled,
            Message::NextSearchResult => MessageView::NextSearchResult,
            Message::PrevSearchResult => MessageView::PrevSearchResult,
            Message::SelectionMoveDown => MessageView::SelectionMoveDown,
            Message::SelectionMoveUp => MessageView::SelectionMoveUp,
            Message::StackFoldingToggled => MessageView::StackFoldingToggled,
            Message::PageUp => MessageView::PageUp,
            Message::PageDown => MessageView::PageDown,
            Message::HomePressed => MessageView::HomePressed,
            Message::EndPressed => MessageView::EndPressed,
            Message::Tick(events) => MessageView::Tick(event_views(events@)),
        }
    }
}

/// The input that gets the focus after a message.
#[derive(Debug, Clone, Copy, PartialEq, Eq, Structural)]
pub enum Focus {
    Keep,
    FilterInput,
    SearchInput,
}

/// The state of the front-end. What is shown is kept from the last refresh.
#[derive(Debug)]
pub struct PagedView {
    pub engine: Engine,
    pub filter_text: String,
    pub search_text: String,
    pub level: Option<LevelArg>,
    pub follow: bool,
    pub first_row: usize,
    pub cached_rows: Vec<RowPresentation>,
    pub cached_sources: Vec<SourceSummary>,
    pub total_matching_rows: usize,
    pub total_rows: usize,
    pub selected_row_id: Option<RowId>,
    pub saved_filter_index: Option<usize>,
    pub mode: PageMode,
    pub fold_stacks: bool,
    pub status_message: Option<String>,
    pub error_message: Option<String>,
}

/// What is shown of the list: a page of rows and how many rows there are.
#[verifier::ext_equal]
pub ghost struct PageView {
    pub rows: Seq<PresentationView>,
    pub total_matching: int,
    pub total: int,
}

/// The state as a value of mathematics.
#[verifier::ext_equal]
pub ghost struct PagedState {
    pub engine: EngineView,
    pub filter_text: Seq<char>,
    pub search_text: Seq<char>,
    pub level: Option<LevelArg>,
    pub follow: bool,
    pub first_row: int,
    pub page: PageView,
    pub selected: Option<RowId>,
    pub saved_index: Option<int>,
    pub mode: PageMode,
    pub fold_stacks: bool,
    pub status: Option<Seq<char>>,
    pub error: Option<Seq<char>>,
}

impl View for PagedView {
    type V = PagedState;

    open spec fn view(&self) -> PagedState {
        PagedState {
            engine: self.engine@,
            filter_text: self.filter_text@,
            search_text: self.search_text@,
            level: self.level,
            follow: self.follow,
            first_row: self.first_row as int,
            page: PageView {
                rows: presentation_views(self.cached_rows@),
                total_matching: self.total_matching_rows as int,
                total: self.total_rows as int,
            },
            selected: self.selected_row_id,
            saved_index: match self.saved_filter_index {
                Some(index) => Some(index as int),
                None => None,
            },
            mode: self.mode,
            fold_stacks: self.fold_stacks,
            status: optional_text(self.status_message),
            error: optional_text(self.error_message),
        }
    }
}

/// The page of the list from `first_row` on.
pub open spec fn page_of(engine: EngineView, first_row: int) -> PageView {
    let total = engine.listed().len() as int;
    let start = if first_row <= total {
        first_row
    } else {
        total
    };
    let end = if start + PAGE_SIZE <= total {
        start + PAGE_SIZE
    } else {
        total
    };
    PageView {
        rows: engine.presented_all(engine.listed().subrange(start, end)),
        total_matching: total,
        total: engine.rows().len() as int,
    }
}

/// The first row of the last full page.
pub open spec fn last_page_start(total: int) -> int {
    less(total, PAGE_SIZE as int)
}

/// The severity after `current` in the cycle from all severities through each of them.
pub open spec fn level_after(current: Option<LevelArg>) -> Option<LevelArg> {
    match current {
        None => Some(LevelArg::Trace),
        Some(LevelArg::Trace) => Some(LevelArg::Debug),
        Some(LevelArg::Debug) => Some(LevelArg::Info),
        Some(LevelArg::Info) => Some(LevelArg::Warn),
        Some(LevelArg::Warn) => Some(LevelArg::Error),
        Some(LevelArg::Error) => Some(LevelArg::Fatal),
        Some(LevelArg::Fatal) => None,
    }
}

/// The filter after `current` in the cycle from none through each of `count` saved ones.
pub open spec fn saved_after(current: Option<int>, count: int) -> Option<int> {
    match current {
        None => Some(0int),
        Some(index) => if index + 1 < count {
            Some(index + 1)
        } else {
            None
        },
    }
}

impl PagedState {
    /// What holds between messages: the totals shown are those of the engine, and the saved
    /// filter that is shown exists.
    pub open spec fn wf(self) -> bool {
        &&& self.engine.wf()
        &&& stamps_leave_room(self.engine.rows())
        &&& self.engine.rows().len() + PAGE_SIZE <= usize::MAX
        &&& self.page.total_matching == self.engine.listed().len()
        &&& self.page.total == self.engine.rows().len()
        &&& 0 <= self.first_row
        &&& self.saved_index matches Some(index) ==> 0 <= index < self.engine.session.saved.len()
    }

    /// The state with what is shown taken from the engine.
    pub open spec fn refreshed(self) -> PagedState {
        PagedState { page: page_of(self.engine, self.first_row), ..self }
    }

    /// The window moved so that the row at `position` is on the page.
    pub open spec fn scrolled_to(self, position: int) -> PagedState {
        if position < self.first_row {
            PagedState { first_row: position, ..self }
        } else if position >= self.first_row + PAGE_SIZE {
            PagedState { first_row: less(position, PAGE_SIZE - 1), ..self }
        } else {
            self
        }
    }

    /// The window at the last page.
    pub open spec fn at_tail(self) -> PagedState {
        PagedState { first_row: last_page_start(self.engine.listed().len() as int), ..self }
    }

    /// The typed filter and the severity put to use, with what is wrong with them.
    pub open spec fn filtered(self) -> PagedState {
        match composed(None, optional_level(self.level), Some(self.filter_text)) {
            Err(reason) => PagedState { error: Some("invalid query: "@ + reason), ..self },
            Ok(filter) => match filter.bad_pattern() {
                Some(pattern) => PagedState { error: Some(bad_regex_text(pattern)), ..self },
                None => PagedState { engine: self.engine.using(filter), error: None, ..self },
            },
        }.refreshed()
    }

    /// The selection moved by one row, and the page with it. Where nothing is selected yet, the
    /// first move down selects the row at the top of the page.
    pub open spec fn selection_moved(self, down: bool) -> PagedState {
        if self.page.total_matching == 0 {
            self
        } else {
            let place = match self.selected {
                Some(row_id) => place_of(ids_of(self.engine.listed()), row_id),
                None => None,
            };
            let here = match place {
                Some(place) => place,
                None => self.first_row,
            };
            let moved = if down && self.selected is None {
                here
            } else if down {
                here + 1
            } else {
                less(here, 1)
            };
            let last = self.page.total_matching - 1;
            let position = if moved > last {
                last
            } else {
                moved
            };
            (PagedState {
                follow: false,
                selected: Some(self.engine.listed()[position].row_id),
                ..self
            }).scrolled_to(position).refreshed()
        }
    }

    /// The selection on the next hit of the search, and the page with it.
    pub open spec fn search_jumped(self, reverse: bool) -> PagedState {
        match hit_after(self.engine.hits(), self.selected, reverse) {
            None => PagedState { status: Some("no search matches"@), ..self },
            Some(row_id) => {
                let selected = PagedState { selected: Some(row_id), ..self };
                let scrolled = match place_of(ids_of(self.engine.listed()), row_id) {
                    Some(place) => selected.scrolled_to(place),
                    None => selected,
                };
                (PagedState { follow: false, ..scrolled }).refreshed()
            },
        }
    }

    /// The next saved filter in use, or after the last one the typed filter again.
    pub open spec fn saved_filter_cycled(self) -> PagedState {
        let saved = self.engine.session.saved;
        if saved.len() == 0 {
            PagedState { status: Some("no saved filters in session"@), ..self }
        } else {
            let next = saved_after(self.saved_index, saved.len() as int);
            let chosen = PagedState { saved_index: next, ..self };
            match next {
                Some(index) => {
                    let name = saved[index].name;
                    let filter = saved_as(saved, name)->0;
                    if filter.bad_pattern() is None {
                        (PagedState {
                            engine: self.engine.using(filter),
                            error: None,
                            status: Some("saved filter: "@ + name),
                            ..chosen
                        }).refreshed()
                    } else {
                        (PagedState {
                            error: Some("could not load saved filter "@ + name),
                            ..chosen
                        }).refreshed()
                    }
                },
                None => (PagedState {
                    status: Some("saved filter: (none)"@),
                    ..chosen.filtered()
                }).refreshed(),
            }
        }
    }

    /// The bookmark of the selected row toggled.
    pub open spec fn bookmark_toggled(self) -> PagedState {
        match self.selected {
            Some(row_id) => (PagedState {
                engine: EngineView {
                    session: SessionView {
                        bookmarks: toggled(self.engine.session.bookmarks, row_id, None),
                        ..self.engine.session
                    },
                    ..self.engine
                },
                ..self
            }).refreshed(),
            None => PagedState {
                status: Some("select a row first (j/k or ↑/↓) before bookmarking"@),
                ..self
            },
        }
    }

    /// The typed text searched for.
    pub open spec fn search_submitted(self) -> PagedState {
        (PagedState {
            engine: EngineView {
                search: if self.search_text.len() > 0 {
                    Some(self.search_text)
                } else {
                    None
                },
                ..self.engine
            },
            mode: PageMode::Normal,
            ..self
        }).refreshed()
    }

    /// Following the end of the list switched on or off.
    pub open spec fn follow_toggled(self) -> PagedState {
        if self.follow {
            PagedState { follow: false, ..self }
        } else {
            (PagedState { follow: true, ..self }).at_tail().refreshed()
        }
    }

    /// Folding of stack traces switched on or off.
    pub open spec fn folding_toggled(self) -> PagedState {
        (PagedState {
            fold_stacks: !self.fold_stacks,
            engine: EngineView { folding: !self.fold_stacks, ..self.engine },
            ..self
        }).refreshed()
    }

    /// One page up.
    pub open spec fn paged_up(self) -> PagedState {
        (PagedState {
            follow: false,
            first_row: less(self.first_row, PAGE_SIZE as int),
            ..self
        }).refreshed()
    }

    /// One page down, but not past the last full page.
    pub open spec fn paged_down(self) -> PagedState {
        (PagedState {
            follow: false,
            first_row: if self.first_row + PAGE_SIZE <= last_page_start(self.page.total_matching) {
                self.first_row + PAGE_SIZE
            } else {
                last_page_start(self.page.total_matching)
            },
            ..self
        }).refreshed()
    }

    /// The first page.
    pub open spec fn at_start(self) -> PagedState {
        (PagedState { follow: false, first_row: 0, ..self }).refreshed()
    }

    /// The last page, which is followed.
    pub open spec fn at_end(self) -> PagedState {
        (PagedState { follow: true, ..self }).at_tail().refreshed()
    }

    /// One event taken in.
    pub open spec fn with_event(self, event: EventView) -> PagedState {
        PagedState {
            engine: self.engine.after_event(event),
            status: match outcome_of(event) {
                AbsorbedView::Trouble(message) => Some(message),
                _ => self.status,
            },
            ..self
        }
    }

    /// Some events taken in.
    pub open spec fn with_events(self, events: Seq<EventView>) -> PagedState
        decreases events.len(),
    {
        if events.len() == 0 {
            self
        } else {
            self.with_events(events.drop_last()).with_event(events.last())
        }
    }

    /// A tick of the clock: events are taken in, and while following the last page is shown.
    pub open spec fn ticked(self, events: Seq<EventView>) -> PagedState {
        let taken = self.with_events(events);
        let appended = brings_rows(events);
        if appended && self.follow {
            taken.at_tail().refreshed()
        } else if appended || self.follow {
            taken.refreshed()
        } else {
            taken
        }
    }

    /// What a message does.
    pub open spec fn after(self, message: MessageView) -> PagedState {
        let normal = self.mode == PageMode::Normal;
        match message {
            MessageView::FilterInputChanged(text) => PagedState { filter_text: text, ..self },
            MessageView::FilterSubmitted => PagedState {
                mode: PageMode::Normal,
                ..self.filtered()
            },
            MessageView::SearchInputChanged(text) => PagedState { search_text: text, ..self },
            MessageView::SearchSubmitted => self.search_submitted(),
            MessageView::EnterFilterMode => if normal {
                PagedState { mode: PageMode::Filter, ..self }
            } else {
                self
            },
            MessageView::EnterSearchMode => if normal {
                PagedState { mode: PageMode::Search, ..self }
            } else {
                self
            },
            MessageView::EscapePressed => PagedState { mode: PageMode::Normal, ..self },
            MessageView::LevelCycled => (PagedState {
                level: level_after(self.level),
                ..self
            }).filtered(),
            MessageView::LevelSetTo(level) => if normal {
                (PagedState { level, ..self }).filtered()
            } else {
                self
            },
            MessageView::FollowToggled => if !normal {
                self
            } else {
                self.follow_toggled()
            },
            MessageView::SavedFilterCycled => if normal {
                self.saved_filter_cycled()
            } else {
                self
            },
            MessageView::BookmarkToggled => if normal {
                self.bookmark_toggled()
            } else {
                self
            },
            MessageView::NextSearchResult => if normal {
                self.search_jumped(false)
            } else {
                self
            },
            MessageView::PrevSearchResult => if normal {
                self.search_jumped(true)
            } else {
                self
            },
            MessageView::SelectionMoveDown => if normal {
                self.selection_moved(true)
            } else {
                self
            },
            MessageView::SelectionMoveUp => if normal {
                self.selection_moved(false)
            } else {
                self
            },
            MessageView::StackFoldingToggled => if normal {
                self.folding_toggled()
            } else {
                self
            },
            MessageView::PageUp => if normal {
                self.paged_up()
            } else {
                self
            },
            MessageView::PageDown => if normal {
                self.paged_down()
            } else {
                self
            },
            MessageView::HomePressed => if normal {
                self.at_start()
            } else {
                self
            },
            MessageView::EndPressed => if normal {
                self.at_end()
            } else {
                self
            },
            MessageView::Tick(events) => self.ticked(events),
        }
    }
}

/// Some event brings rows.
pub open spec fn brings_rows(events: Seq<EventView>) -> bool {
    exists|i: int| 0 <= i < events.len() && outcome_of(#[trigger] events[i]) is Rows
}

/// The rows that some events bring.
pub open spec fn rows_in_all(events: Seq<EventView>) -> Seq<RowView>
    decreases events.len(),
{
    if events.len() == 0 {
        Seq::empty()
    } else {
        rows_in_all(events.drop_last()) + rows_in(events.last())
    }
}

/// The engine has room for the rows that some events bring: ids, stamps and positions fit.
pub open spec fn has_room_for(engine: EngineView, events: Seq<EventView>) -> bool {
    let more = rows_in_all(events);
    &&& engine.has_ids_for(more.len())
    &&& stamps_leave_room(more)
    &&& engine.rows().len() + more.len() + PAGE_SIZE <= usize::MAX
}

/// The input that gets the focus.
pub open spec fn focus_after(mode: PageMode, message: MessageView) -> Focus {
    if mode != PageMode::Normal {
        Focus::Keep
    } else {
        match message {
            MessageView::EnterFilterMode => Focus::FilterInput,
            MessageView::EnterSearchMode => Focus::SearchInput,
            _ => Focus::Keep,
        }
    }
}

/// The severity after `current` in the cycle.
pub fn cycle_level(current: Option<LevelArg>) -> (r: Option<LevelArg>)
    ensures
        r == level_after(current),
{
    match current {
        None => Some(LevelArg::Trace),
        Some(LevelArg::Trace) => Some(LevelArg::Debug),
        Some(LevelArg::Debug) => Some(LevelArg::Info),
        Some(LevelArg::Info) => Some(LevelArg::Warn),
        Some(LevelArg::Warn) => Some(LevelArg::Error),
        Some(LevelArg::Error) => Some(LevelArg::Fatal),
        Some(LevelArg::Fatal) => None,
    }
}

/// The first row of the last full page.
pub fn max_first_row(total: usize) -> (r: usize)
    ensures
        r == last_page_start(total as int),
{
    total.saturating_sub(PAGE_SIZE)
}

/// The message makes what is shown be taken from the engine.
pub open spec fn refreshes(state: PagedState, message: MessageView) -> bool {
    let normal = state.mode == PageMode::Normal;
    match message {
        MessageView::FilterSubmitted => true,
        MessageView::SearchSubmitted => true,
        MessageView::LevelCycled => true,
        MessageView::LevelSetTo(_) => normal,
        MessageView::FollowToggled => normal && !state.follow,
        MessageView::SavedFilterCycled => normal && state.engine.session.saved.len() > 0,
        MessageView::BookmarkToggled => normal && state.selected is Some,
        MessageView::NextSearchResult => normal && hit_after(
            state.engine.hits(),
            state.selected,
            false,
        ) is Some,
        MessageView::PrevSearchResult => normal && hit_after(
            state.engine.hits(),
            state.selected,
            true,
        ) is Some,
        MessageView::SelectionMoveDown => normal && state.page.total_matching != 0,
        MessageView::SelectionMoveUp => normal && state.page.total_matching != 0,
        MessageView::StackFoldingToggled => normal,
        MessageView::PageUp => normal,
        MessageView::PageDown => normal,
        MessageView::HomePressed => normal,
        MessageView::EndPressed => normal,
        MessageView::Tick(events) => brings_rows(events) || state.follow,
        _ => false,
    }
}

impl PagedView {
    /// What holds between messages.
    pub open spec fn wf(&self) -> bool {
        self@.wf() && self.engine.wf()
    }

    /// What holds while a message is dealt with.
    spec fn ready(&self) -> bool {
        &&& self.engine.wf()
        &&& stamps_leave_room(self@.engine.rows())
        &&& self@.engine.rows().len() + PAGE_SIZE <= usize::MAX
        &&& self@.saved_index matches Some(index) ==> 0 <= index < self@.engine.session.saved.len()
    }

    /// The summaries shown are those of the listed rows.
    pub open spec fn sources_are_current(&self) -> bool {
        summaries_of(self.cached_sources@, self@.engine.listed(), self@.engine.sources)
    }

    /// Takes what is shown from the engine.
    fn refresh_snapshot(&mut self)
        requires
            old(self).ready(),
        ensures
            final(self).wf(),
            final(self)@ == old(self)@.refreshed(),
            final(self).sources_are_current(),
    {
        let ghost before = self@;
        proof {
            law_views_fit_in_practice(self@.engine);
            law_list_is_what_is_shown_in_order(self@.engine);
        }
        let snapshot = self.engine.viewport(
            ViewportRequest { first_row: self.first_row, row_count: PAGE_SIZE },
        );
        self.total_matching_rows = snapshot.total_matching_rows;
        self.total_rows = snapshot.total_rows;
        self.cached_rows = snapshot.rows;
        self.cached_sources = snapshot.source_summaries;
        assert(self@ =~= before.refreshed());
    }

    /// Moves the window to the last page.
    fn snap_to_tail(&mut self)
        requires
            old(self).ready(),
        ensures
            final(self).ready(),
            final(self)@ == old(self)@.at_tail(),
    {
        self.first_row = max_first_row(self.engine.matching_rows_count());
    }

    /// Moves the window so that the row at `position` is on the page.
    fn scroll_to_position(&mut self, position: usize)
        requires
            old(self).ready(),
        ensures
            final(self).ready(),
            final(self)@ == old(self)@.scrolled_to(position as int),
    {
        if position < self.first_row {
            self.first_row = position;
        } else if position - self.first_row >= PAGE_SIZE {
            self.first_row = position.saturating_sub(PAGE_SIZE - 1);
        }
    }

    /// Puts the typed filter and the severity to use.
    fn apply_current_filters(&mut self)
        requires
            old(self).ready(),
        ensures
            final(self).wf(),
            final(self)@ == old(self)@.filtered(),
            final(self).sources_are_current(),
    {
        let ghost before = self@;
        let text = self.filter_text.clone();
        match apply_filters(&mut self.engine, Some(text), self.level, None, None) {
            Ok(_) => {
                self.error_message = None;
            },
            Err(error) => {
                self.error_message = Some(error.message());
            },
        }
        proof {
            match composed(None, optional_level(before.level), Some(before.filter_text)) {
                Err(reason) => {
                    assert(self@ =~= (PagedState {
                        error: Some("invalid query: "@ + reason),
                        ..before
                    }));
                },
                Ok(filter) => match filter.bad_pattern() {
                    Some(pattern) => {
                        assert(self@ =~= (PagedState {
                            error: Some(bad_regex_text(pattern)),
                            ..before
                        }));
                    },
                    None => {
                        assert(self@.engine =~= before.engine.using(filter));
                        assert(self@ =~= (PagedState {
                            engine: before.engine.using(filter),
                            error: None,
                            ..before
                        }));
                    },
                },
            }
        }
        self.refresh_snapshot();
    }

    /// Moves the selection by one row.
    fn move_selection(&mut self, down: bool)
        requires
            old(self).wf(),
        ensures
            final(self).wf(),
            final(self)@ == old(self)@.selection_moved(down),
            if old(self)@.page.total_matching != 0 {
                final(self).sources_are_current()
            } else {
                final(self).cached_sources@ == old(self).cached_sources@
            },
    {
        if self.total_matching_rows == 0 {
            return;
        }
        let ghost before = self@;
        proof {
            law_list_is_what_is_shown_in_order(before.engine);
        }
        self.follow = false;
        let place: Option<usize> = match self.selected_row_id {
            Some(row_id) => self.engine.filtered_position_for_row(row_id),
            None => None,
        };
        let here: usize = match place {
            Some(place) => place,
            None => self.first_row,
        };
        let last: usize = self.total_matching_rows - 1;
        let position: usize = if down && self.selected_row_id.is_none() {
            if here > last {
                last
            } else {
                here
            }
        } else if down {
            if here >= last {
                last
            } else {
                here + 1
            }
        } else {
            let moved: usize = here.saturating_sub(1);
            if moved > last {
                last
            } else {
                moved
            }
        };
        if let Some(row) = self.engine.present_row_at(position) {
            self.selected_row_id = Some(row.row_id);
            assert(row@.row_id == row.row_id);
            self.scroll_to_position(position);
        }
        self.refresh_snapshot();
    }

    /// Moves the selection to the next hit of the search.
    fn jump_search(&mut self, reverse: bool)
        requires
            old(self).wf(),
        ensures
            final(self).wf(),
            final(self)@ == old(self)@.search_jumped(reverse),
            if hit_after(old(self)@.engine.hits(), old(self)@.selected, reverse) is Some {
                final(self).sources_are_current()
            } else {
                final(self).cached_sources@ == old(self).cached_sources@
            },
    {
        match self.engine.next_search_result(self.selected_row_id, reverse) {
            None => {
                self.status_message = Some("no search matches".to_owned());
            },
            Some(next) => {
                self.selected_row_id = Some(next);
                if let Some(position) = self.engine.filtered_position_for_row(next) {
                    self.scroll_to_position(position);
                }
                self.follow = false;
                self.refresh_snapshot();
            },
        }
    }

    /// Puts the next saved filter to use.
    fn cycle_saved_filter(&mut self)
        requires
            old(self).wf(),
        ensures
            final(self).wf(),
            final(self)@ == old(self)@.saved_filter_cycled(),
            if old(self)@.engine.session.saved.len() > 0 {
                final(self).sources_are_current()
            } else {
                final(self).cached_sources@ == old(self).cached_sources@
            },
    {
        let ghost before = self@;
        let count: usize = self.engine.session().saved_filters.len();
        if count == 0 {
            self.status_message = Some("no saved filters in session".to_owned());
            return;
        }
        let next: Option<usize> = match self.saved_filter_index {
            None => Some(0),
            Some(index) => if index < count - 1 {
                Some(index + 1)
            } else {
                None
            },
        };
        self.saved_filter_index = next;
        match next {
            Some(index) => {
                let name = self.engine.session().saved_filters[index].name.clone();
                proof {
                    let saved = before.engine.session.saved;
                    assert(saved[index as int].name == name@);
                    lemma_saved_is_found(saved, index as int);
                }
                match self.engine.apply_saved_filter(&name) {
                    Ok(_) => {
                        self.error_message = None;
                        self.status_message = Some(joined("saved filter: ", &name));
                    },
                    Err(_) => {
                        self.error_message = Some(joined("could not load saved filter ", &name));
                    },
                }
            },
            None => {
                self.apply_current_filters();
                self.status_message = Some("saved filter: (none)".to_owned());
            },
        }
        self.refresh_snapshot();
        assert(self@ =~= before.saved_filter_cycled());
    }

    /// Takes the events of a tick in. Returns whether rows came.
    fn take_events(&mut self, events: Vec<LogEvent>) -> (r: bool)
        requires
            old(self).ready(),
            has_room_for(old(self)@.engine, event_views(events@)),
        ensures
            final(self).ready(),
            final(self)@ == old(self)@.with_events(event_views(events@)),
            r == brings_rows(event_views(events@)),
            final(self).cached_sources@ == old(self).cached_sources@,
    {
        let ghost before = self@;
        let ghost all = event_views(events@);
        let ghost sources = self.cached_sources@;
        let count: usize = events.len();
        let mut turned = reversed(events);
        let mut done: usize = 0;
        let mut appended: bool = false;
        assert(all.subrange(0, 0) =~= Seq::<EventView>::empty());
        while done < count
            invariant
                done <= count,
                count == all.len(),
                turned@.len() == count - done,
                forall|i: int|
                    0 <= i < turned@.len() ==> (#[trigger] turned@[i])@ == all[count - 1 - i],
                self.engine.wf(),
                self@.saved_index matches Some(index) ==> 0 <= index
                    < self@.engine.session.saved.len(),
                self@ == before.with_events(all.subrange(0, done as int)),
                self.cached_sources@ == sources,
                appended == brings_rows(all.subrange(0, done as int)),
                has_room_for(before.engine, all),
                stamps_leave_room(self@.engine.rows()),
                self@.engine.rows().len() <= before.engine.rows().len() + rows_in_all(
                    all.subrange(0, done as int),
                ).len(),
                self@.engine.index.evicted + self@.engine.index.rows.len()
                    == before.engine.index.evicted + before.engine.index.rows.len() + rows_in_all(
                    all.subrange(0, done as int),
                ).len(),
            decreases count - done,
        {
            let ghost part = all.subrange(0, done as int);
            let ghost next = all.subrange(0, done + 1);
            if let Some(event) = turned.pop() {
                proof {
                    assert(event@ == all[done as int]);
                    assert(next.drop_last() =~= part);
                    assert(next.last() == event@);
                    lemma_rows_of_part(all, done as int);
                    let taken = self@.engine;
                    let more = rows_in(event@);
                    assert forall|i: int| 0 <= i < more.len() implies ((
                    #[trigger] more[i]).timestamp matches Some(time) ==> time.secs()
                        < crate::time::MAX_SECS && time.nanos() < 2_000_000_000) by {
                        let rows = rows_in_all(all);
                        assert(rows[rows_in_all(part).len() + i] == more[i]);
                    }
                    assert(taken.with_rows(Seq::empty()) == taken);
                    lemma_rows_stay_in_time(taken, more);
                    lemma_brings_one_more(all, done as int);
                }
                match absorb_event(&mut self.engine, event) {
                    Absorbed::Rows => {
                        appended = true;
                    },
                    Absorbed::Trouble(message) => {
                        self.status_message = Some(message);
                    },
                    Absorbed::Quiet => {},
                }
                assert(self@ =~= before.with_events(part).with_event(event@));
            }
            done += 1;
        }
        proof {
            assert(all.subrange(0, done as int) =~= all);
        }
        appended
    }

    /// Takes over what is typed into the filter input.
    fn type_filter(&mut self, value: String)
        requires
            old(self).wf(),
        ensures
            final(self).wf(),
            final(self)@ == (PagedState { filter_text: value@, ..old(self)@ }),
            final(self).cached_sources@ == old(self).cached_sources@,
    {
        self.filter_text = value;
    }

    /// Takes over what is typed into the search input.
    fn type_search(&mut self, value: String)
        requires
            old(self).wf(),
        ensures
            final(self).wf(),
            final(self)@ == (PagedState { search_text: value@, ..old(self)@ }),
            final(self).cached_sources@ == old(self).cached_sources@,
    {
        self.search_text = value;
    }

    /// Goes to a mode.
    fn enter(&mut self, mode: PageMode)
        requires
            old(self).wf(),
        ensures
            final(self).wf(),
            final(self)@ == (PagedState { mode, ..old(self)@ }),
            final(self).cached_sources@ == old(self).cached_sources@,
    {
        self.mode = mode;
    }

    /// Puts the typed filter to use and leaves its input.
    fn submit_filter(&mut self)
        requires
            old(self).wf(),
        ensures
            final(self).wf(),
            final(self)@ == (PagedState { mode: PageMode::Normal, ..old(self)@.filtered() }),
            final(self).sources_are_current(),
    {
        self.apply_current_filters();
        self.mode = PageMode::Normal;
    }

    /// Puts another lowest severity to use.
    fn choose_level(&mut self, level: Option<LevelArg>)
        requires
            old(self).wf(),
        ensures
            final(self).wf(),
            final(self)@ == (PagedState { level, ..old(self)@ }).filtered(),
            final(self).sources_are_current(),
    {
        self.level = level;
        self.apply_current_filters();
    }

    /// Searches for the typed text.
    fn submit_search(&mut self)
        requires
            old(self).wf(),
        ensures
            final(self).wf(),
            final(self)@ == old(self)@.search_submitted(),
            final(self).sources_are_current(),
    {
        let ghost goal = self@.search_submitted();
        let search = self.search_text.clone();
        self.engine.set_search_text(Some(search));
        self.mode = PageMode::Normal;
        self.refresh_snapshot();
        assert(self@ =~= goal);
    }

    /// Switches following on or off.
    fn toggle_follow(&mut self)
        requires
            old(self).wf(),
        ensures
            final(self).wf(),
            final(self)@ == old(self)@.follow_toggled(),
            if !old(self)@.follow {
                final(self).sources_are_current()
            } else {
                final(self).cached_sources@ == old(self).cached_sources@
            },
    {
        self.follow = !self.follow;
        if self.follow {
            self.snap_to_tail();
            self.refresh_snapshot();
        }
    }

    /// Toggles the bookmark of the selected row.
    fn toggle_bookmark(&mut self)
        requires
            old(self).wf(),
        ensures
            final(self).wf(),
            final(self)@ == old(self)@.bookmark_toggled(),
            if old(self)@.selected is Some {
                final(self).sources_are_current()
            } else {
                final(self).cached_sources@ == old(self).cached_sources@
            },
    {
        match self.selected_row_id {
            Some(row_id) => {
                self.engine.toggle_bookmark(row_id, None);
                self.refresh_snapshot();
            },
            None => {
                self.status_message = Some(
                    "select a row first (j/k or ↑/↓) before bookmarking".to_owned(),
                );
            },
        }
    }

    /// Switches folding of stack traces on or off.
    fn toggle_folding(&mut self)
        requires
            old(self).wf(),
        ensures
            final(self).wf(),
            final(self)@ == old(self)@.folding_toggled(),
            final(self).sources_are_current(),
    {
        self.fold_stacks = !self.fold_stacks;
        self.engine.set_stack_trace_folding(self.fold_stacks);
        self.refresh_snapshot();
    }

    /// Goes one page up.
    fn page_up(&mut self)
        requires
            old(self).wf(),
        ensures
            final(self).wf(),
            final(self)@ == old(self)@.paged_up(),
            final(self).sources_are_current(),
    {
        self.follow = false;
        self.first_row = self.first_row.saturating_sub(PAGE_SIZE);
        self.refresh_snapshot();
    }

    /// Goes one page down.
    fn page_down(&mut self)
        requires
            old(self).wf(),
        ensures
            final(self).wf(),
            final(self)@ == old(self)@.paged_down(),
            final(self).sources_are_current(),
    {
        self.follow = false;
        let last: usize = max_first_row(self.total_matching_rows);
        let moved: usize = self.first_row.saturating_add(PAGE_SIZE);
        self.first_row = if moved <= last {
            moved
        } else {
            last
        };
        self.refresh_snapshot();
    }

    /// Goes to the first page.
    fn go_home(&mut self)
        requires
            old(self).wf(),
        ensures
            final(self).wf(),
            final(self)@ == old(self)@.at_start(),
            final(self).sources_are_current(),
    {
        self.follow = false;
        self.first_row = 0;
        self.refresh_snapshot();
    }

    /// Goes to the last page and follows it.
    fn go_end(&mut self)
        requires
            old(self).wf(),
        ensures
            final(self).wf(),
            final(self)@ == old(self)@.at_end(),
            final(self).sources_are_current(),
    {
        self.follow = true;
        self.snap_to_tail();
        self.refresh_snapshot();
    }

    /// Takes the events of a tick in and shows them.
    fn tick(&mut self, events: Vec<LogEvent>)
        requires
            old(self).wf(),
            has_room_for(old(self)@.engine, event_views(events@)),
        ensures
            final(self).wf(),
            final(self)@ == old(self)@.ticked(event_views(events@)),
            if brings_rows(event_views(events@)) || old(self)@.follow {
                final(self).sources_are_current()
            } else {
                final(self).cached_sources@ == old(self).cached_sources@
            },
    {
        let ghost before = self@;
        let ghost views = event_views(events@);
        let appended: bool = self.take_events(events);
        proof {
            if !appended {
                lemma_no_rows_no_change(before, views);
            }
            lemma_events_keep_place(before, views);
        }
        if appended && self.follow {
            self.snap_to_tail();
        }
        if appended || self.follow {
            self.refresh_snapshot();
        }
    }

    /// Deals with a message. Returns the input that gets the focus.
    #[verifier::spinoff_prover]
    #[verifier::rlimit(30)]
    pub fn update(&mut self, message: Message) -> (r: Focus)
        requires
            old(self).wf(),
            message matches Message::Tick(events) ==> has_room_for(
                old(self)@.engine,
                event_views(events@),
            ),
        ensures
            final(self).wf(),
            final(self)@ == old(self)@.after(message@),
            r == focus_after(old(self)@.mode, message@),
            if refreshes(old(self)@, message@) {
                final(self).sources_are_current()
            } else {
                final(self).cached_sources@ == old(self).cached_sources@
            },
    {
        let normal: bool = self.mode == PageMode::Normal;
        match message {
            Message::FilterInputChanged(value) => {
                self.type_filter(value);
                Focus::Keep
            },
            Message::FilterSubmitted => {
                self.submit_filter();
                Focus::Keep
            },
            Message::SearchInputChanged(value) => {
                self.type_search(value);
                Focus::Keep
            },
            Message::SearchSubmitted => {
                self.submit_search();
                Focus::Keep
            },
            Message::EnterFilterMode => {
                if normal {
                    self.enter(PageMode::Filter);
                    Focus::FilterInput
                } else {
                    Focus::Keep
                }
            },
            Message::EnterSearchMode => {
                if normal {
                    self.enter(PageMode::Search);
                    Focus::SearchInput
                } else {
                    Focus::Keep
                }
            },
            Message::EscapePressed => {
                self.enter(PageMode::Normal);
                Focus::Keep
            },
            Message::LevelCycled => {
                self.choose_level(cycle_level(self.level));
                Focus::Keep
            },
            Message::LevelSetTo(level) => {
                if normal {
                    self.choose_level(level);
                }
                Focus::Keep
            },
            Message::FollowToggled => {
                if normal {
                    self.toggle_follow();
                }
                Focus::Keep
            },
            Message::SavedFilterCycled => {
                if normal {
                    self.cycle_saved_filter();
                }
                Focus::Keep
            },
            Message::BookmarkToggled => {
                if normal {
                    self.toggle_bookmark();
                }
                Focus::Keep
            },
            Message::NextSearchResult => {
                if normal {
                    self.jump_search(false);
                }
                Focus::Keep
            },
            Message::PrevSearchResult => {
                if normal {
                    self.jump_search(true);
                }
                Focus::Keep
            },
            Message::SelectionMoveDown => {
                if normal {
                    self.move_selection(true);
                }
                Focus::Keep
            },
            Message::SelectionMoveUp => {
                if normal {
                    self.move_selection(false);
                }
                Focus::Keep
            },
            Message::StackFoldingToggled => {
                if normal {
                    self.toggle_folding();
                }
                Focus::Keep
            },
            Message::PageUp => {
                if normal {
                    self.page_up();
                }
                Focus::Keep
            },
            Message::PageDown => {
                if normal {
                    self.page_down();
                }
                Focus::Keep
            },
            Message::HomePressed => {
                if normal {
                    self.go_home();
                }
                Focus::Keep
            },
            Message::EndPressed => {
                if normal {
                    self.go_end();
                }
                Focus::Keep
            },
            Message::Tick(events) => {
                self.tick(events);
                Focus::Keep
            },
        }
    }
}

/// A saved filter is found under its name.
proof fn lemma_saved_is_found(saved: Seq<SavedView>, index: int)
    requires
        0 <= index < saved.len(),
    ensures
        saved_as(saved, saved[index].name) is Some,
    decreases saved.len(),
{
    if saved[0].name != saved[index].name {
        let rest = saved.subrange(1, saved.len() as int);
        assert(rest[index - 1] == saved[index]);
        lemma_saved_is_found(rest, index - 1);
    }
}

/// The rows of some events begin with those of the first of them.
pub proof fn lemma_rows_of_part(events: Seq<EventView>, n: int)
    requires
        0 <= n < events.len(),
    ensures
        ({
            let part = rows_in_all(events.subrange(0, n));
            let more = rows_in(events[n]);
            let all = rows_in_all(events);
            &&& part.len() + more.len() <= all.len()
            &&& forall|i: int| 0 <= i < more.len() ==> all[part.len() + i] == #[trigger] more[i]
        }),
    decreases events.len(),
{
    let head = events.drop_last();
    if n == head.len() {
        assert(events.subrange(0, n) =~= head);
    } else {
        lemma_rows_of_part(head, n);
        assert(head.subrange(0, n) =~= events.subrange(0, n));
        let part = rows_in_all(events.subrange(0, n));
        let more = rows_in(events[n]);
        assert forall|i: int| 0 <= i < more.len() implies rows_in_all(events)[part.len() + i]
            == #[trigger] more[i] by {
            assert(rows_in_all(head)[part.len() + i] == more[i]);
        }
    }
}

/// One more event brings rows, or the ones before it do.
pub proof fn lemma_brings_one_more(events: Seq<EventView>, n: int)
    requires
        0 <= n < events.len(),
    ensures
        brings_rows(events.subrange(0, n + 1)) == (brings_rows(events.subrange(0, n)) || outcome_of(
            events[n],
        ) is Rows),
{
    let part = events.subrange(0, n);
    let next = events.subrange(0, n + 1);
    if brings_rows(next) {
        let i = choose|i: int| 0 <= i < next.len() && outcome_of(#[trigger] next[i]) is Rows;
        if i < n {
            assert(part[i] == next[i]);
        }
    }
    if brings_rows(part) {
        let i = choose|i: int| 0 <= i < part.len() && outcome_of(#[trigger] part[i]) is Rows;
        assert(next[i] == part[i]);
    }
    if outcome_of(events[n]) is Rows {
        assert(outcome_of(next[n]) is Rows);
    }
}

/// Events that bring no rows leave the list as it is.
proof fn lemma_no_rows_no_change(state: PagedState, events: Seq<EventView>)
    requires
        !brings_rows(events),
    ensures
        ({
            let after = state.with_events(events).engine;
            &&& after.index == state.engine.index
            &&& after.filter == state.engine.filter
            &&& after.folding == state.engine.folding
            &&& after.listed() == state.engine.listed()
        }),
    decreases events.len(),
{
    if events.len() > 0 {
        let head = events.drop_last();
        assert forall|i: int| 0 <= i < head.len() implies !(outcome_of(#[trigger] head[i]) is Rows) by {
            assert(head[i] == events[i]);
        }
        lemma_no_rows_no_change(state, head);
        let before = state.with_events(head).engine;
        let event = events.last();
        assert(!(outcome_of(events[events.len() - 1]) is Rows));
        assert(before.with_rows(Seq::empty()) == before);
        if rows_in(event).len() == 0 {
            assert(rows_in(event) =~= Seq::<RowView>::empty());
        }
        let after = state.with_events(events).engine;
        let keep = |i: int| before.shows(before.rows()[i]);
        let keep2 = |i: int| after.shows(after.rows()[i]);
        assert(keep =~= keep2);
        assert(after.listed() =~= before.listed());
    }
}

/// Events leave alone what the user has chosen and what is shown.
proof fn lemma_events_keep_place(state: PagedState, events: Seq<EventView>)
    ensures
        ({
            let after = state.with_events(events);
            &&& after.page == state.page
            &&& after.first_row == state.first_row
            &&& after.follow == state.follow
        }),
    decreases events.len(),
{
    if events.len() > 0 {
        lemma_events_keep_place(state, events.drop_last());
    }
}

// ---------------------------------------------------------------------------
// The start
// ---------------------------------------------------------------------------

/// The state at the start. `engine` holds the files that were loaded.
pub open spec fn started(
    engine: EngineView,
    max_rows: Option<usize>,
    filter: Option<Seq<char>>,
    level: Option<LevelArg>,
    use_filter: Option<Seq<char>>,
    save_filter: Option<Seq<char>>,
    follow: bool,
    failures: Seq<Seq<char>>,
) -> PagedState {
    let limit = if max_rows == Some(0usize) {
        None
    } else {
        max_rows
    };
    let limited = EngineView { index: capped(engine.index, limit), max_rows: limit, ..engine };
    let (ready, error) = applied(limited, filter, optional_level(level), use_filter, save_filter);
    (PagedState {
        engine: ready,
        filter_text: match filter {
            Some(text) => text,
            None => Seq::empty(),
        },
        search_text: Seq::empty(),
        level,
        follow,
        first_row: 0,
        page: PageView { rows: Seq::empty(), total_matching: 0, total: 0 },
        selected: None,
        saved_index: None,
        mode: PageMode::Normal,
        fold_stacks: false,
        status: failures_text(failures),
        error,
    }).refreshed()
}

impl PagedView {
    /// The front-end at the start, with the flags of the command line put to use. `failures` are
    /// the messages on files that could not be read.
    pub fn start(
        engine: Engine,
        max_rows: Option<usize>,
        filter: Option<String>,
        level: Option<LevelArg>,
        use_filter: Option<String>,
        save_filter: Option<String>,
        follow: bool,
        failures: &Vec<String>,
    ) -> (r: PagedView)
        requires
            engine.wf(),
            stamps_leave_room(engine@.rows()),
            engine@.rows().len() + PAGE_SIZE <= usize::MAX,
        ensures
            r.wf(),
            r@ == started(
                engine@,
                max_rows,
                optional_text(filter),
                level,
                optional_text(use_filter),
                optional_text(save_filter),
                follow,
                texts(failures@),
            ),
            r.sources_are_current(),
    {
        let ghost before = engine@;
        let mut engine = engine;
        engine.set_max_rows(normalise_max_rows(max_rows));
        proof {
            let kept = engine@.rows();
            assert forall|i: int| 0 <= i < kept.len() implies ((#[trigger] kept[i]).timestamp matches Some(
                time,
            ) ==> time.secs() < crate::time::MAX_SECS && time.nanos() < 2_000_000_000) by {
                assert(kept[i] == before.rows()[i + (before.rows().len() - kept.len())]);
            }
        }
        let filter_text = match &filter {
            Some(text) => text.clone(),
            None => String::new(),
        };
        let error_message = try_apply_filters(&mut engine, filter, level, use_filter, save_filter);
        let mut app = PagedView {
            engine,
            filter_text,
            search_text: String::new(),
            level,
            follow,
            first_row: 0,
            cached_rows: Vec::new(),
            cached_sources: Vec::new(),
            total_matching_rows: 0,
            total_rows: 0,
            selected_row_id: None,
            saved_filter_index: None,
            mode: PageMode::Normal,
            fold_stacks: false,
            status_message: failures_message(failures),
            error_message,
        };
        assert(app@.page.rows =~= Seq::<PresentationView>::empty());
        app.refresh_snapshot();
        app
    }
}

// ---------------------------------------------------------------------------
// Keys
// ---------------------------------------------------------------------------

/// A key of the keyboard.
#[derive(Debug, Clone, Copy, PartialEq, Eq, Structural)]
pub enum PageKey {
    Escape,
    ArrowUp,
    ArrowDown,
    PageUp,
    PageDown,
    Home,
    End,
    Character(char),
    Other,
}

/// The message that a key stands for.
pub open spec fn key_message(key: PageKey) -> Option<MessageView> {
    match key {
        PageKey::Escape => Some(MessageView::EscapePressed),
        PageKey::ArrowUp => Some(MessageView::SelectionMoveUp),
        PageKey::ArrowDown => Some(MessageView::SelectionMoveDown),
        PageKey::PageUp => Some(MessageView::PageUp),
        PageKey::PageDown => Some(MessageView::PageDown),
        PageKey::Home => Some(MessageView::HomePressed),
        PageKey::End => Some(MessageView::EndPressed),
        PageKey::Character(c) => if c == '/' {
            Some(MessageView::EnterFilterMode)
        } else if c == '?' {
            Some(MessageView::EnterSearchMode)
        } else if c == 'b' {
            Some(MessageView::BookmarkToggled)
        } else if c == 'f' {
            Some(MessageView::FollowToggled)
        } else if c == 's' {
            Some(MessageView::SavedFilterCycled)
        } else if c == 'n' {
            Some(MessageView::NextSearchResult)
        } else if c == 'N' {
            Some(MessageView::PrevSearchResult)
        } else if c == 'j' {
            Some(MessageView::SelectionMoveDown)
        } else if c == 'k' {
            Some(MessageView::SelectionMoveUp)
        } else if c == 'z' {
            Some(MessageView::StackFoldingToggled)
        } else if c == '0' {
            Some(MessageView::LevelSetTo(None))
        } else if c == '1' {
            Some(MessageView::LevelSetTo(Some(LevelArg::Trace)))
        } else if c == '2' {
            Some(MessageView::LevelSetTo(Some(LevelArg::Debug)))
        } else if c == '3' {
            Some(MessageView::LevelSetTo(Some(LevelArg::Info)))
        } else if c == '4' {
            Some(MessageView::LevelSetTo(Some(LevelArg::Warn)))
        } else if c == '5' {
            Some(MessageView::LevelSetTo(Some(LevelArg::Error)))
        } else if c == '6' {
            Some(MessageView::LevelSetTo(Some(LevelArg::Fatal)))
        } else {
            None
        },
        PageKey::Other => None,
    }
}

/// The message that a key stands for.
pub fn message_for_key(key: PageKey) -> (r: Option<Message>)
    ensures
        match r {
            Some(message) => key_message(key) == Some(message@),
            None => key_message(key) is None,
        },
{
    match key {
        PageKey::Escape => Some(Message::EscapePressed),
        PageKey::ArrowUp => Some(Message::SelectionMoveUp),
        PageKey::ArrowDown => Some(Message::SelectionMoveDown),
        PageKey::PageUp => Some(Message::PageUp),
        PageKey::PageDown => Some(Message::PageDown),
        PageKey::Home => Some(Message::HomePressed),
        PageKey::End => Some(Message::EndPressed),
        PageKey::Character(c) => match c {
            '/' => Some(Message::EnterFilterMode),
            '?' => Some(Message::EnterSearchMode),
            'b' => Some(Message::BookmarkToggled),
            'f' => Some(Message::FollowToggled),
            's' => Some(Message::SavedFilterCycled),
            'n' => Some(Message::NextSearchResult),
            'N' => Some(Message::PrevSearchResult),
            'j' => Some(Message::SelectionMoveDown),
            'k' => Some(Message::SelectionMoveUp),
            'z' => Some(Message::StackFoldingToggled),
            '0' => Some(Message::LevelSetTo(None)),
            '1' => Some(Message::LevelSetTo(Some(LevelArg::Trace))),
            '2' => Some(Message::LevelSetTo(Some(LevelArg::Debug))),
            '3' => Some(Message::LevelSetTo(Some(LevelArg::Info))),
            '4' => Some(Message::LevelSetTo(Some(LevelArg::Warn))),
            '5' => Some(Message::LevelSetTo(Some(LevelArg::Error))),
            '6' => Some(Message::LevelSetTo(Some(LevelArg::Fatal))),
            _ => None,
        },
        PageKey::Other => None,
    }
}

// ---------------------------------------------------------------------------
// What is shown
// ---------------------------------------------------------------------------

/// The name of a lowest severity.
pub open spec fn level_text(level: Option<LevelArg>) -> Seq<char> {
    match level {
        None => "all"@,
        Some(LevelArg::Trace) => "trace"@,
        Some(LevelArg::Debug) => "debug"@,
        Some(LevelArg::Info) => "info"@,
        Some(LevelArg::Warn) => "warn"@,
        Some(LevelArg::Error) => "error"@,
        Some(LevelArg::Fatal) => "fatal"@,
    }
}

/// The name of a lowest severity.
pub fn level_label(level: Option<LevelArg>) -> (r: &'static str)
    ensures
        r@ == level_text(level),
{
    match level {
        None => "all",
        Some(LevelArg::Trace) => "trace",
        Some(LevelArg::Debug) => "debug",
        Some(LevelArg::Info) => "info",
        Some(LevelArg::Warn) => "warn",
        Some(LevelArg::Error) => "error",
        Some(LevelArg::Fatal) => "fatal",
    }
}

/// The sign of a severity band.
pub open spec fn glyph_of(role: SeverityRole) -> Seq<char> {
    match role {
        SeverityRole::Fatal => "■"@,
        SeverityRole::Error => "■"@,
        SeverityRole::Warn => "▲"@,
        SeverityRole::Unknown => " "@,
        _ => "·"@,
    }
}

/// The sign of a severity band.
pub fn severity_glyph(role: SeverityRole) -> (r: &'static str)
    ensures
        r@ == glyph_of(role),
{
    match role {
        SeverityRole::Fatal => "■",
        SeverityRole::Error => "■",
        SeverityRole::Warn => "▲",
        SeverityRole::Unknown => " ",
        _ => "·",
    }
}

/// The colour of a severity band.
pub open spec fn band_colour(role: SeverityRole) -> Rgb {
    match role {
        SeverityRole::Fatal => rgb_of(0xff, 0x4b, 0x4b),
        SeverityRole::Error => rgb_of(0xff, 0x6b, 0x6b),
        SeverityRole::Warn => rgb_of(0xff, 0xc8, 0x6b),
        SeverityRole::Info => rgb_of(0x88, 0xc8, 0xff),
        SeverityRole::Debug => rgb_of(0x80, 0x80, 0x80),
        SeverityRole::Trace => rgb_of(0x60, 0x60, 0x60),
        SeverityRole::Unknown => rgb_of(0xa0, 0xa0, 0xa0),
    }
}

/// The colour of a severity band.
pub fn severity_colour(role: SeverityRole) -> (r: Rgb)
    ensures
        r == band_colour(role),
{
    match role {
        SeverityRole::Fatal => rgb(0xff, 0x4b, 0x4b),
        SeverityRole::Error => rgb(0xff, 0x6b, 0x6b),
        SeverityRole::Warn => rgb(0xff, 0xc8, 0x6b),
        SeverityRole::Info => rgb(0x88, 0xc8, 0xff),
        SeverityRole::Debug => rgb(0x80, 0x80, 0x80),
        SeverityRole::Trace => rgb(0x60, 0x60, 0x60),
        SeverityRole::Unknown => rgb(0xa0, 0xa0, 0xa0),
    }
}

/// The colour of a span in a row of this band.
pub open spec fn colour_of(kind: SpanKind, role: SeverityRole) -> Rgb {
    match kind {
        SpanKind::Level => band_colour(role),
        SpanKind::Timestamp => rgb_of(0x8a, 0xb4, 0xf8),
        SpanKind::Source => rgb_of(0xc8, 0xa2, 0xc8),
        SpanKind::Message => rgb_of(0xe6, 0xe6, 0xe6),
        SpanKind::JsonKey => rgb_of(0xc8, 0xa2, 0xc8),
        SpanKind::JsonValue => rgb_of(0xfb, 0xbc, 0x04),
        SpanKind::SearchMatch => rgb_of(0xff, 0xeb, 0x3b),
        SpanKind::Error => rgb_of(0xff, 0x6b, 0x6b),
        SpanKind::Warning => rgb_of(0xff, 0xc8, 0x6b),
        SpanKind::StackTrace => rgb_of(0xa0, 0xa0, 0xa0),
    }
}

/// The colour of a span in a row of this band.
pub fn span_colour(kind: SpanKind, role: SeverityRole) -> (r: Rgb)
    ensures
        r == colour_of(kind, role),
{
    match kind {
        SpanKind::Level => severity_colour(role),
        SpanKind::Timestamp => rgb(0x8a, 0xb4, 0xf8),
        SpanKind::Source => rgb(0xc8, 0xa2, 0xc8),
        SpanKind::Message => rgb(0xe6, 0xe6, 0xe6),
        SpanKind::JsonKey => rgb(0xc8, 0xa2, 0xc8),
        SpanKind::JsonValue => rgb(0xfb, 0xbc, 0x04),
        SpanKind::SearchMatch => rgb(0xff, 0xeb, 0x3b),
        SpanKind::Error => rgb(0xff, 0x6b, 0x6b),
        SpanKind::Warning => rgb(0xff, 0xc8, 0x6b),
        SpanKind::StackTrace => rgb(0xa0, 0xa0, 0xa0),
    }
}

/// A text in a colour.
#[derive(Debug, PartialEq, Eq)]
pub struct Cell {
    pub text: String,
    pub colour: Rgb,
}

/// The texts and colours of a list.
pub open spec fn cells(list: Seq<Cell>) -> Seq<(Seq<char>, Rgb)> {
    list.map_values(|cell: Cell| (cell.text@, cell.colour))
}

/// The cells of the spans of a row.
pub open spec fn span_cells(spans: Seq<SpanView>, role: SeverityRole) -> Seq<(Seq<char>, Rgb)> {
    spans.map_values(|span: SpanView| (span.text, colour_of(span.kind, role)))
}

/// The cells of a row: the sign of its severity, its source, its spans, and a star where it is
/// bookmarked.
pub open spec fn row_cells_of(row: PresentationView) -> Seq<(Seq<char>, Rgb)> {
    let role = crate::model::role_of(row.level);
    let source = match row.source_name {
        Some(name) => seq![("["@ + name + "]"@, rgb_of(0x88, 0x88, 0x88))],
        None => Seq::empty(),
    };
    let star = if row.is_bookmarked {
        seq![("★"@, rgb_of(0xff, 0xc8, 0x6b))]
    } else {
        Seq::empty()
    };
    seq![(glyph_of(role), band_colour(role))] + source + span_cells(row.spans, role) + star
}

/// Appends a cell.
fn push_cell(list: &mut Vec<Cell>, text: String, colour: Rgb)
    ensures
        cells(final(list)@) == cells(old(list)@).push((text@, colour)),
{
    let ghost before = cells(list@);
    list.push(Cell { text, colour });
    assert(cells(list@) =~= before.push((text@, colour)));
}

/// The cells of a row.
pub fn row_cells(row: &RowPresentation) -> (r: Vec<Cell>)
    ensures
        cells(r@) == row_cells_of(row@),
{
    let role = row.severity_role();
    let mut list: Vec<Cell> = Vec::new();
    assert(cells(list@) =~= Seq::<(Seq<char>, Rgb)>::empty());
    push_cell(&mut list, severity_glyph(role).to_owned(), severity_colour(role));
    if let Some(name) = &row.source_name {
        let mut text = joined("[", &**name);
        text.append("]");
        push_cell(&mut list, text, rgb(0x88, 0x88, 0x88));
    }
    let ghost front = cells(list@);
    let mut i: usize = 0;
    assert(front =~= front + span_cells(row@.spans.subrange(0, 0), role));
    while i < row.spans.len()
        invariant
            i <= row.spans@.len(),
            cells(list@) == front + span_cells(row@.spans.subrange(0, i as int), role),
        decreases row.spans@.len() - i,
    {
        let span = &row.spans[i];
        let text: &str = &*span.text;
        push_cell(&mut list, text.to_owned(), span_colour(span.kind, role));
        i += 1;
        assert(row@.spans[i - 1] == span@);
        assert(cells(list@) =~= front + span_cells(row@.spans.subrange(0, i as int), role));
    }
    assert(row@.spans.subrange(0, i as int) =~= row@.spans);
    if row.is_bookmarked {
        push_cell(&mut list, "★".to_owned(), rgb(0xff, 0xc8, 0x6b));
    }
    assert(cells(list@) =~= row_cells_of(row@));
    list
}

/// What the sidebar says of a source: how many rows, warnings and errors it has.
pub open spec fn source_counts_of(summary: SourceSummary) -> Seq<Seq<char>> {
    seq![
        decimal(summary.rows as nat) + " rows"@,
        decimal(summary.level_counts.warn as nat) + "W"@,
        decimal((summary.level_counts.error + summary.level_counts.fatal) as nat) + "E"@,
    ]
}

/// What the sidebar says of a source.
pub fn source_counts(summary: &SourceSummary) -> (r: Vec<String>)
    requires
        summary.level_counts.error + summary.level_counts.fatal <= usize::MAX,
    ensures
        texts(r@) == source_counts_of(*summary),
{
    let errors: usize = summary.level_counts.error + summary.level_counts.fatal;
    let mut out: Vec<String> = Vec::new();
    out.push(joined(&decimal_text(summary.rows as u64), " rows"));
    out.push(joined(&decimal_text(summary.level_counts.warn as u64), "W"));
    out.push(joined(&decimal_text(errors as u64), "E"));
    assert(texts(out@) =~= source_counts_of(*summary));
    out
}

impl PagedState {
    /// The label of the severity button.
    pub open spec fn level_button(self) -> Seq<char> {
        "level: "@ + level_text(self.level)
    }

    /// The label of the follow button.
    pub open spec fn follow_button(self) -> Seq<char> {
        if self.follow {
            "follow: on"@
        } else {
            "follow: off"@
        }
    }

    /// The label of the button for saved filters.
    pub open spec fn saved_button(self) -> Seq<char> {
        match self.saved_index {
            Some(index) => "saved: "@ + self.engine.session.saved[index].name,
            None => "saved: (none)"@,
        }
    }

    /// The footer: which rows are shown, what went wrong, and what the keys do.
    pub open spec fn footer(self) -> Seq<char> {
        let end = if self.first_row + self.page.rows.len() <= self.page.total_matching {
            self.first_row + self.page.rows.len()
        } else {
            self.page.total_matching
        };
        let place = decimal(self.first_row as nat) + "–"@ + decimal(end as nat) + " of "@ + decimal(
            self.page.total_matching as nat,
        ) + " matching / "@ + decimal(self.page.total as nat) + " total"@;
        let note = match (self.error, self.status) {
            (Some(error), _) => seq!["filter error: "@ + error],
            (None, Some(status)) => seq![status],
            (None, None) => Seq::empty(),
        };
        let hint = match self.mode {
            PageMode::Filter => seq!["[filter mode: ↵ apply, esc cancel]"@],
            PageMode::Search => seq!["[search mode: ↵ apply, esc cancel]"@],
            PageMode::Normal => Seq::empty(),
        };
        joined_by(seq![place] + note + hint, "  •  "@)
    }

    /// The fields of the selected row, where it is on the page.
    pub open spec fn detail(self) -> Seq<(Seq<char>, Seq<char>)> {
        match self.selected {
            Some(row_id) => match shown_row(self.page.rows, row_id) {
                Some(row) => crate::model::field_pairs(row.spans, None),
                None => Seq::empty(),
            },
            None => Seq::empty(),
        }
    }
}

/// The first row of the page with this id.
pub open spec fn shown_row(rows: Seq<PresentationView>, row_id: RowId) -> Option<PresentationView>
    decreases rows.len(),
{
    if rows.len() == 0 {
        None
    } else if rows[0].row_id == row_id {
        Some(rows[0])
    } else {
        shown_row(rows.subrange(1, rows.len() as int), row_id)
    }
}

impl PagedView {
    /// The label of the severity button.
    pub fn level_button(&self) -> (r: String)
        ensures
            r@ == self@.level_button(),
    {
        joined("level: ", level_label(self.level))
    }

    /// The label of the follow button.
    pub fn follow_button(&self) -> (r: &'static str)
        ensures
            r@ == self@.follow_button(),
    {
        if self.follow {
            "follow: on"
        } else {
            "follow: off"
        }
    }

    /// The label of the button for saved filters.
    pub fn saved_button(&self) -> (r: String)
        requires
            self.wf(),
        ensures
            r@ == self@.saved_button(),
    {
        match self.saved_filter_index {
            Some(index) => {
                let session = self.engine.session();
                assert(session@.saved[index as int].name == session.saved_filters@[index as int].name@);
                joined("saved: ", &session.saved_filters[index].name)
            },
            None => "saved: (none)".to_owned(),
        }
    }

    /// The footer.
    pub fn status_line(&self) -> (r: String)
        ensures
            r@ == self@.footer(),
    {
        let reach: usize = self.first_row.saturating_add(self.cached_rows.len());
        let end: usize = if reach <= self.total_matching_rows {
            reach
        } else {
            self.total_matching_rows
        };
        let mut place = joined(&decimal_text(self.first_row as u64), "–");
        place.append(&decimal_text(end as u64));
        place.append(" of ");
        place.append(&decimal_text(self.total_matching_rows as u64));
        place.append(" matching / ");
        place.append(&decimal_text(self.total_rows as u64));
        place.append(" total");
        let mut parts: Vec<String> = Vec::new();
        let ghost first = place@;
        parts.push(place);
        assert(texts(parts@) =~= seq![first]);
        let ghost note = match (self@.error, self@.status) {
            (Some(error), _) => seq!["filter error: "@ + error],
            (None, Some(status)) => seq![status],
            (None, None) => Seq::empty(),
        };
        match (&self.error_message, &self.status_message) {
            (Some(error), _) => {
                parts.push(joined("filter error: ", error));
            },
            (None, Some(status)) => {
                parts.push(status.clone());
            },
            (None, None) => {},
        }
        assert(texts(parts@) =~= seq![first] + note);
        let ghost hint = match self@.mode {
            PageMode::Filter => seq!["[filter mode: ↵ apply, esc cancel]"@],
            PageMode::Search => seq!["[search mode: ↵ apply, esc cancel]"@],
            PageMode::Normal => Seq::empty(),
        };
        match self.mode {
            PageMode::Filter => {
                parts.push("[filter mode: ↵ apply, esc cancel]".to_owned());
            },
            PageMode::Search => {
                parts.push("[search mode: ↵ apply, esc cancel]".to_owned());
            },
            PageMode::Normal => {},
        }
        assert(texts(parts@) =~= seq![first] + note + hint);
        join_all(&parts, "  •  ")
    }

    /// The fields of the selected row, where it is on the page.
    pub fn detail_fields(&self) -> (r: Vec<(Arc<str>, Arc<str>)>)
        ensures
            pair_views(r@) == self@.detail(),
    {
        let none: Vec<(Arc<str>, Arc<str>)> = Vec::new();
        assert(pair_views(none@) =~= Seq::<(Seq<char>, Seq<char>)>::empty());
        match self.selected_row_id {
            None => none,
            Some(row_id) => {
                let ghost rows = self@.page.rows;
                let mut i: usize = 0;
                assert(rows.subrange(0, rows.len() as int) =~= rows);
                while i < self.cached_rows.len()
                    invariant
                        i <= self.cached_rows@.len(),
                        rows == self@.page.rows,
                        self.selected_row_id == Some(row_id),
                        shown_row(rows, row_id) == shown_row(
                            rows.subrange(i as int, rows.len() as int),
                            row_id,
                        ),
                    decreases self.cached_rows@.len() - i,
                {
                    proof {
                        let rest = rows.subrange(i as int, rows.len() as int);
                        assert(rest[0] == self.cached_rows@[i as int]@);
                        assert(rest.subrange(1, rest.len() as int) =~= rows.subrange(
                            i + 1,
                            rows.len() as int,
                        ));
                    }
                    if self.cached_rows[i].row_id == row_id {
                        return self.cached_rows[i].json_fields();
                    }
                    i += 1;
                }
                none
            },
        }
    }
}

// ---------------------------------------------------------------------------
// Laws
// ---------------------------------------------------------------------------

/// Seven steps through the severities lead back to where one was.
pub proof fn law_level_cycle_closes(level: Option<LevelArg>)
    ensures
        level_after(
            level_after(level_after(level_after(level_after(level_after(level_after(level)))))),
        ) == level,
{
}

/// The filter reached from none in `n` steps through `count` saved ones.
pub open spec fn saved_in(n: nat, count: int) -> Option<int>
    decreases n,
{
    if n == 0 {
        None
    } else {
        saved_after(saved_in((n - 1) as nat, count), count)
    }
}

/// Cycling through saved filters visits each of them in turn and then none again.
pub proof fn law_saved_cycle_visits_all(n: nat, count: int)
    requires
        0 < count,
        n <= count + 1,
    ensures
        saved_in(n, count) == if n == 0 || n == count + 1 {
            None
        } else {
            Some(n - 1)
        },
    decreases n,
{
    if n > 0 {
        law_saved_cycle_visits_all((n - 1) as nat, count);
    }
}

/// While text is typed in, shortcuts do nothing.
pub proof fn law_shortcuts_wait_for_normal_mode(state: PagedState, key: char)
    requires
        state.mode != PageMode::Normal,
    ensures
        match key_message(PageKey::Character(key)) {
            Some(message) => state.after(message) == state && focus_after(state.mode, message)
                == Focus::Keep,
            None => true,
        },
{
}

/// The first move down selects the row at the top of the page, where there is one.
pub proof fn law_first_move_selects_the_top(state: PagedState)
    requires
        state.wf(),
        state.mode == PageMode::Normal,
        state.selected is None,
        state.first_row < state.engine.listed().len(),
    ensures
        state.after(MessageView::SelectionMoveDown).selected == Some(
            state.engine.listed()[state.first_row].row_id,
        ),
        state.after(MessageView::SelectionMoveDown).first_row == state.first_row,
{
}

/// While following, a tick that brings rows shows the list up to its last row.
pub proof fn law_following_shows_the_newest(state: PagedState, events: Seq<EventView>)
    requires
        state.follow,
        brings_rows(events),
    ensures
        ({
            let after = state.after(MessageView::Tick(events));
            &&& after.first_row + after.page.rows.len() == after.engine.listed().len()
            &&& after.page.rows.len() == PAGE_SIZE || after.first_row == 0
        }),
{
}

/// Pages never reach past the last full page.
pub proof fn law_page_down_stops_at_the_last_page(state: PagedState)
    requires
        state.mode == PageMode::Normal,
    ensures
        state.after(MessageView::PageDown).first_row <= last_page_start(state.page.total_matching),
        !state.after(MessageView::PageDown).follow,
{
}

/// A row that is scrolled to is on the page.
pub proof fn law_scrolling_shows_the_row(state: PagedState, position: int)
    requires
        0 <= state.first_row,
        0 <= position,
    ensures
        ({
            let scrolled = state.scrolled_to(position);
            scrolled.first_row <= position < scrolled.first_row + PAGE_SIZE
        }),
{
}

/// A page shows up to 200 rows of the list from its first row on, in their order, and tells how many
/// rows are listed and held.
pub proof fn law_what_a_page_shows(engine: EngineView, first_row: nat, k: int)
    ensures
        ({
            let page = page_of(engine, first_row as int);
            &&& 0 <= k < page.rows.len() <==> 0 <= k < 200 && first_row + k < engine.listed().len()
            &&& 0 <= k < page.rows.len() ==> page.rows[k] == engine.presented(
                engine.listed()[first_row + k],
            )
            &&& page.total_matching == engine.listed().len()
            &&& page.total == engine.rows().len()
        }),
{
}

/// The page keys move by 200 rows: up, but not past the first row; down, but not past the last full
/// page. Home and end go to the first and the last page; end follows the list from then on, and the
/// others do not.
#[verifier::spinoff_prover]
pub proof fn law_page_keys(state: PagedState)
    requires
        state.wf(),
        state.mode == PageMode::Normal,
    ensures
        ({
            let total = state.engine.listed().len() as int;
            let last = if total > 200 {
                total - 200
            } else {
                0
            };
            let up = state.after(MessageView::PageUp);
            let down = state.after(MessageView::PageDown);
            let home = state.after(MessageView::HomePressed);
            let end = state.after(MessageView::EndPressed);
            &&& up.first_row == if state.first_row > 200 {
                state.first_row - 200
            } else {
                0
            }
            &&& down.first_row == if state.first_row + 200 < last {
                state.first_row + 200
            } else {
                last
            }
            &&& home.first_row == 0 && end.first_row == last
            &&& !up.follow && !down.follow && !home.follow && end.follow
            &&& up.engine == state.engine && down.engine == state.engine && home.engine
                == state.engine && end.engine == state.engine
            &&& up.page == page_of(state.engine, up.first_row) && down.page == page_of(
                state.engine,
                down.first_row,
            )
        }),
{
}

/// The selection goes to the next row of the list or to the one before, and stays at its ends; the
/// page shows it, and following ends.
pub proof fn law_selection_goes_row_by_row(state: PagedState, p: int, down: bool)
    requires
        state.wf(),
        state.mode == PageMode::Normal,
        0 <= p < state.engine.listed().len(),
        state.selected == Some(state.engine.listed()[p].row_id),
    ensures
        ({
            let message = if down {
                MessageView::SelectionMoveDown
            } else {
                MessageView::SelectionMoveUp
            };
            let after = state.after(message);
            let rows = state.engine.listed();
            let place = if down && p + 1 < rows.len() {
                p + 1
            } else if !down && p > 0 {
                p - 1
            } else {
                p
            };
            &&& after.selected == Some(rows[place].row_id)
            &&& after.first_row <= place < after.first_row + 200
            &&& !after.follow
            &&& after.engine == state.engine
        }),
{
    let ids = ids_of(state.engine.listed());
    crate::laws::law_listed_ids_differ(state.engine);
    assert(ids[p] == state.engine.listed()[p].row_id);
    assert forall|i: int| 0 <= i < p implies #[trigger] ids[i] != ids[p] by {}
    crate::viewport::law_place_in_a_list(ids, ids[p], p);
    let last = state.engine.listed().len() - 1;
    let moved = if down {
        p + 1
    } else {
        less(p, 1)
    };
    let position = if moved > last {
        last
    } else {
        moved
    };
    law_scrolling_shows_the_row(
        PagedState {
            follow: false,
            selected: Some(state.engine.listed()[position].row_id),
            ..state
        },
        position,
    );
}

/// The filter that is typed in and the lowest severity are used together; the digits choose the
/// severity, 0 all of them, and 1 to 6 those from trace up to fatal.
#[verifier::spinoff_prover]
pub proof fn law_digits_choose_the_severity(state: PagedState, c: char)
    requires
        state.mode == PageMode::Normal,
        '0' <= c && c <= '6',
    ensures
        ({
            let message = key_message(PageKey::Character(c));
            let level = if c == '0' {
                None
            } else if c == '1' {
                Some(LevelArg::Trace)
            } else if c == '2' {
                Some(LevelArg::Debug)
            } else if c == '3' {
                Some(LevelArg::Info)
            } else if c == '4' {
                Some(LevelArg::Warn)
            } else if c == '5' {
                Some(LevelArg::Error)
            } else {
                Some(LevelArg::Fatal)
            };
            &&& message == Some(MessageView::LevelSetTo(level))
            &&& state.after(message->0).level == level
            &&& state.after(message->0) == (PagedState { level, ..state }).after_filters()
        }),
{
}

impl PagedState {
    /// What is chosen put to use: the filter that is typed in and the lowest severity.
    pub open spec fn after_filters(self) -> PagedState {
        let wanted = composed(None, optional_level(self.level), Some(self.filter_text));
        let next = if wanted is Ok && wanted->Ok_0.bad_pattern() is None {
            PagedState { engine: self.engine.using(wanted->Ok_0), error: None, ..self }
        } else if wanted is Ok {
            PagedState { error: Some(bad_regex_text(wanted->Ok_0.bad_pattern()->0)), ..self }
        } else {
            PagedState { error: Some("invalid query: "@ + wanted->Err_0), ..self }
        };
        PagedState { page: page_of(next.engine, next.first_row), ..next }
    }
}

/// Enter uses what was typed in and leaves the input: a filter together with the severity, or a text
/// to search for, where none is no search.
#[verifier::spinoff_prover]
pub proof fn law_typed_text_is_used(state: PagedState)
    ensures
        ({
            let filter = state.after(MessageView::FilterSubmitted);
            let search = state.after(MessageView::SearchSubmitted);
            &&& filter == (PagedState { mode: PageMode::Normal, ..state.after_filters() })
            &&& search.mode == PageMode::Normal
            &&& search.engine == (EngineView {
                search: if state.search_text.len() == 0 {
                    None
                } else {
                    Some(state.search_text)
                },
                ..state.engine
            })
            &&& search.first_row == state.first_row && search.selected == state.selected
        }),
{
}

/// The keys for hits select the next and the previous one, bring it on the page and end following;
/// the key for bookmarks toggles the one of the selected row.
#[verifier::spinoff_prover]
pub proof fn law_hits_and_bookmarks_of_the_page(state: PagedState, reverse: bool)
    requires
        state.wf(),
        state.mode == PageMode::Normal,
    ensures
        ({
            let message = if reverse {
                MessageView::PrevSearchResult
            } else {
                MessageView::NextSearchResult
            };
            let after = state.after(message);
            let hit = hit_after(state.engine.hits(), state.selected, reverse);
            let marked = state.after(MessageView::BookmarkToggled);
            &&& after.engine == state.engine
            &&& hit is Some ==> after.selected == hit && !after.follow
            &&& hit is None ==> after.selected == state.selected && after.status is Some
            &&& state.selected is None ==> marked.engine == state.engine && marked.status is Some
            &&& state.selected matches Some(row_id) ==> marked.engine.session.bookmarks == toggled(
                state.engine.session.bookmarks,
                row_id,
                None,
            )
            &&& marked.engine.filter == state.engine.filter && marked.engine.index
                == state.engine.index
        }),
{
}

/// The keys for following and folding switch them; a following page goes to the end of the list.
#[verifier::spinoff_prover]
pub proof fn law_switches_of_the_page(state: PagedState)
    requires
        state.wf(),
        state.mode == PageMode::Normal,
    ensures
        ({
            let follow = state.after(MessageView::FollowToggled);
            let fold = state.after(MessageView::StackFoldingToggled);
            let total = state.engine.listed().len() as int;
            &&& follow.follow == !state.follow && follow.engine == state.engine
            &&& !state.follow ==> follow.first_row == if total > 200 {
                total - 200
            } else {
                0
            }
            &&& state.follow ==> follow.first_row == state.first_row
            &&& fold.fold_stacks == !state.fold_stacks && fold.engine.folding == !state.fold_stacks
            &&& fold.engine.filter == state.engine.filter && fold.engine.index
                == state.engine.index && fold.engine.session == state.engine.session
        }),
{
}

/// The key for saved filters uses the first of them, then each one after it, and after the last one
/// what is typed in again.
#[verifier::spinoff_prover]
pub proof fn law_saved_filters_of_the_page(state: PagedState)
    requires
        state.wf(),
        state.mode == PageMode::Normal,
        state.engine.session.saved.len() > 0,
    ensures
        ({
            let after = state.after(MessageView::SavedFilterCycled);
            let saved = state.engine.session.saved;
            let next = match state.saved_index {
                None => 0,
                Some(index) => index + 1,
            };
            let filter = saved_as(saved, saved[next].name);
            &&& next < saved.len() ==> after.saved_index == Some(next)
            &&& next < saved.len() && filter->0.bad_pattern() is None ==> after.engine.filter
                == filter->0 && after.error is None
            &&& next == saved.len() ==> after.saved_index is None && after.engine
                == state.after_filters().engine
        }),
{
}

/// The keys of the page: arrows and `j`, `k` move the selection, page keys, home and end move the
/// page, `/` and `?` go to the inputs, `n` and `N` to hits, `b` marks, `f` follows, `z` folds, `s`
/// goes through the saved filters, and escape leaves an input. Other keys do nothing.
pub proof fn law_keys_of_the_page(c: char)
    ensures
        key_message(PageKey::ArrowUp) == Some(MessageView::SelectionMoveUp),
        key_message(PageKey::ArrowDown) == Some(MessageView::SelectionMoveDown),
        key_message(PageKey::Character('j')) == Some(MessageView::SelectionMoveDown),
        key_message(PageKey::Character('k')) == Some(MessageView::SelectionMoveUp),
        key_message(PageKey::PageUp) == Some(MessageView::PageUp),
        key_message(PageKey::PageDown) == Some(MessageView::PageDown),
        key_message(PageKey::Home) == Some(MessageView::HomePressed),
        key_message(PageKey::End) == Some(MessageView::EndPressed),
        key_message(PageKey::Escape) == Some(MessageView::EscapePressed),
        key_message(PageKey::Character('/')) == Some(MessageView::EnterFilterMode),
        key_message(PageKey::Character('?')) == Some(MessageView::EnterSearchMode),
        key_message(PageKey::Character('n')) == Some(MessageView::NextSearchResult),
        key_message(PageKey::Character('N')) == Some(MessageView::PrevSearchResult),
        key_message(PageKey::Character('b')) == Some(MessageView::BookmarkToggled),
        key_message(PageKey::Character('f')) == Some(MessageView::FollowToggled),
        key_message(PageKey::Character('z')) == Some(MessageView::StackFoldingToggled),
        key_message(PageKey::Character('s')) == Some(MessageView::SavedFilterCycled),
        key_message(PageKey::Other) is None,
        !('0' <= c && c <= '6') && c != 'j' && c != 'k' && c != '/' && c != '?' && c != 'n' && c
            != 'N' && c != 'b' && c != 'f' && c != 'z' && c != 's' ==> key_message(
            PageKey::Character(c),
        ) is None,
{
}

/// Escape leaves an input and changes nothing else; `/` and `?` go to the inputs, from normal mode
/// only; what is typed into an input is not used until it is submitted.
pub proof fn law_inputs_of_the_page(state: PagedState, text: Seq<char>)
    ensures
        state.after(MessageView::EscapePressed) == (PagedState { mode: PageMode::Normal, ..state }),
        state.after(MessageView::FilterInputChanged(text)) == (PagedState {
            filter_text: text,
            ..state
        }),
        state.after(MessageView::SearchInputChanged(text)) == (PagedState {
            search_text: text,
            ..state
        }),
        state.mode == PageMode::Normal ==> state.after(MessageView::EnterFilterMode) == (
        PagedState { mode: PageMode::Filter, ..state }) && focus_after(
            state.mode,
            MessageView::EnterFilterMode,
        ) == Focus::FilterInput && state.after(MessageView::EnterSearchMode) == (PagedState {
            mode: PageMode::Search,
            ..state
        }) && focus_after(state.mode, MessageView::EnterSearchMode) == Focus::SearchInput,
{
}

/// A tick that brings no rows to a page that is not followed changes nothing that is shown; trouble
/// of a source is told.
pub proof fn law_ticks_of_the_page(state: PagedState, source_id: crate::model::SourceId, text: Seq<char>)
    requires
        !state.follow,
    ensures
        state.after(MessageView::Tick(Seq::empty())) == state,
        ({
            let after = state.after(
                MessageView::Tick(seq![EventView::SourceError(source_id, text)]),
            );
            after.status == Some(text) && after.engine == state.engine && after.page == state.page
        }),
{
    let events = seq![EventView::SourceError(source_id, text)];
    assert(events.drop_last() =~= Seq::<EventView>::empty());
    assert(state.with_events(events.drop_last()) == state);
    assert(!brings_rows(events)) by {
        if brings_rows(events) {
            let i = choose|i: int| 0 <= i < events.len() && outcome_of(#[trigger] events[i]) is Rows;
            assert(i == 0);
        }
    }
    assert(!brings_rows(Seq::empty()));
}

/// The foot of the page tells which rows are shown, how many are listed and how many are held; then
/// what is wrong with the filter, or else the last message.
pub proof fn law_foot_of_the_page(state: PagedState, text: Seq<char>)
    requires
        state.mode == PageMode::Normal,
        state.first_row + state.page.rows.len() <= state.page.total_matching,
    ensures
        ({
            let place = decimal(state.first_row as nat) + "–"@ + decimal(
                (state.first_row + state.page.rows.len()) as nat,
            ) + " of "@ + decimal(state.page.total_matching as nat) + " matching / "@ + decimal(
                state.page.total as nat,
            ) + " total"@;
            &&& (PagedState { error: None, status: None, ..state }).footer() == place
            &&& (PagedState { error: Some(text), ..state }).footer() == place + "  •  "@
                + "filter error: "@ + text
            &&& (PagedState { error: None, status: Some(text), ..state }).footer() == place
                + "  •  "@ + text
        }),
{
    let place = decimal(state.first_row as nat) + "–"@ + decimal(
        (state.first_row + state.page.rows.len()) as nat,
    ) + " of "@ + decimal(state.page.total_matching as nat) + " matching / "@ + decimal(
        state.page.total as nat,
    ) + " total"@;
    let none = Seq::<Seq<char>>::empty();
    let wrong = "filter error: "@ + text;
    assert(seq![place] + none + none =~= seq![place]);
    assert(seq![place] + seq![wrong] + none =~= seq![place, wrong]);
    assert(seq![place] + seq![text] + none =~= seq![place, text]);
    reveal_with_fuel(joined_by, 3);
    assert(seq![place, wrong].drop_last() =~= seq![place]);
    assert(seq![place, text].drop_last() =~= seq![place]);
    assert(place + "  •  "@ + wrong =~= place + "  •  "@ + "filter error: "@ + text);
}

/// The buttons of the page tell the severity, the saved filter and whether the list is followed.
pub proof fn law_buttons_of_the_page(state: PagedState)
    ensures
        state.level is None ==> state.level_button() == "level: "@ + "all"@,
        state.level matches Some(level) ==> state.level_button() == "level: "@ + match level {
            LevelArg::Trace => "trace"@,
            LevelArg::Debug => "debug"@,
            LevelArg::Info => "info"@,
            LevelArg::Warn => "warn"@,
            LevelArg::Error => "error"@,
            LevelArg::Fatal => "fatal"@,
        },
        state.saved_index is None ==> state.saved_button() == "saved: (none)"@,
        state.saved_index matches Some(index) ==> state.saved_button() == "saved: "@
            + state.engine.session.saved[index].name,
        state.follow ==> state.follow_button() == "follow: on"@,
        !state.follow ==> state.follow_button() == "follow: off"@,
{
}

/// The colours and signs of the page tell errors, warnings and other rows apart; the colour of a
/// severity's name is that of its sign.
pub proof fn law_colours_of_the_page(role: SeverityRole)
    ensures
        colour_of(SpanKind::Level, role) == band_colour(role),
        colour_of(SpanKind::Error, role) != colour_of(SpanKind::Warning, role),
        colour_of(SpanKind::Error, role) != colour_of(SpanKind::Message, role),
        colour_of(SpanKind::Warning, role) != colour_of(SpanKind::Message, role),
        colour_of(SpanKind::SearchMatch, role) != colour_of(SpanKind::Message, role),
        band_colour(SeverityRole::Error) != band_colour(SeverityRole::Warn),
        band_colour(SeverityRole::Warn) != band_colour(SeverityRole::Info),
        band_colour(SeverityRole::Error) != band_colour(SeverityRole::Info),
        glyph_of(SeverityRole::Fatal) == glyph_of(SeverityRole::Error),
        glyph_of(SeverityRole::Error) == "■"@,
        glyph_of(SeverityRole::Warn) == "▲"@,
        glyph_of(SeverityRole::Info) == "·"@,
        glyph_of(SeverityRole::Unknown) == " "@,
{
}

} // verus!
