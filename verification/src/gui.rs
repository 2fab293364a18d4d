//! The desktop front-end with a window of panels: its state, its actions and what it shows.
use crate::events::{event_views, EventView, LogEvent};
use crate::filter::FilterView;
use crate::gpui::{clamped_to, push_cell, row_cell_views, RowCell};
use crate::iced::{lemma_rows_of_part, rows_in_all};
use crate::model::{
    PresentationView, RowId, RowPresentation, SeverityRole, SourceSummary, SpanKind, SpanView,
    TimelineBucket, ViewportSnapshot,
};
use crate::session::{has_bookmark, saved_as, toggled, with_saved, SessionView};
use crate::text::{
    decimal, decimal_text, joined, optional_text, same_text, texts, trim, trimmed,
};
use crate::ui::{
    absorb_event, bad_regex_text, reversed, rgb, rgb_of, rows_in, submit_filter, submitted, Rgb,
};
use crate::viewport::{hit_after, ids_of, place_of, Engine, EngineView};
use vstd::prelude::*;
use vstd::string::*;

verus! {

/// How often a window that follows files is drawn, in milliseconds.
pub const LIVE_POLL_INTERVAL_MILLIS: u64 = 16;

/// How often any other window is drawn, in milliseconds.
pub const IDLE_POLL_INTERVAL_MILLIS: u64 = 1000;

/// The first row to show `delta` rows from `current`, within the list.
pub open spec fn scroll_target_of(current: int, delta: int, total: int) -> int {
    if total == 0 {
        0
    } else {
        clamped_to(current + delta, total - 1)
    }
}

/// The first row to show `delta` rows from `current`, within the list.
pub fn scroll_target(current: usize, delta: isize, total: usize) -> (r: usize)
    ensures
        r == scroll_target_of(current as int, delta as int, total as int),
{
    if total == 0 {
        return 0;
    }
    let moved: usize = if delta >= 0 {
        current.saturating_add(delta as usize)
    } else {
        // The distance is taken one short first, as it may not fit the signed type.
        let short: usize = (-(delta + 1)) as usize;
        current.saturating_sub(short).saturating_sub(1)
    };
    if moved > total - 1 {
        total - 1
    } else {
        moved
    }
}

/// The target of a scroll is a row of the list, and a scroll by nothing from such a row stays.
pub proof fn law_scroll_target_is_in_the_list(current: int, delta: int, total: int)
    requires
        0 < total,
    ensures
        0 <= scroll_target_of(current, delta, total) < total,
        0 <= current < total ==> scroll_target_of(current, 0, total) == current,
{
}

/// The state of the front-end. `first_row` and `page_size` are what the last frame showed.
#[derive(Debug)]
pub struct WindowApp {
    pub engine: Engine,
    pub filter_text: String,
    pub search_text: String,
    pub palette_open: bool,
    pub command_text: String,
    pub selected_row: Option<RowPresentation>,
    pub fold_stacks: bool,
    pub follow: bool,
    pub has_session_file: bool,
    pub status_message: Option<String>,
    pub saved_filter_name: String,
    pub scroll_to_row: Option<usize>,
    pub first_row: usize,
    pub page_size: usize,
}

/// The state as a value of mathematics.
#[verifier::ext_equal]
pub ghost struct WindowState {
    pub engine: EngineView,
    pub filter_text: Seq<char>,
    pub search_text: Seq<char>,
    pub palette_open: bool,
    pub command_text: Seq<char>,
    pub selected: Option<PresentationView>,
    pub fold_stacks: bool,
    pub follow: bool,
    pub has_session_file: bool,
    pub status: Option<Seq<char>>,
    pub saved_name: Seq<char>,
    pub scroll_to: Option<int>,
    pub first_row: int,
    pub page_size: int,
}

/// A presented row, where there is one.
pub open spec fn optional_row(row: Option<RowPresentation>) -> Option<PresentationView> {
    match row {
        Some(row) => Some(row@),
        None => None,
    }
}

impl View for WindowApp {
    type V = WindowState;

    open spec fn view(&self) -> WindowState {
        WindowState {
            engine: self.engine@,
            filter_text: self.filter_text@,
            search_text: self.search_text@,
            palette_open: self.palette_open,
            command_text: self.command_text@,
            selected: optional_row(self.selected_row),
            fold_stacks: self.fold_stacks,
            follow: self.follow,
            has_session_file: self.has_session_file,
            status: optional_text(self.status_message),
            saved_name: self.saved_filter_name@,
            scroll_to: match self.scroll_to_row {
                Some(row) => Some(row as int),
                None => None,
            },
            first_row: self.first_row as int,
            page_size: self.page_size as int,
        }
    }
}

/// Something that the user did.
#[derive(Debug)]
pub enum WindowAction {
    FilterEdited(String),
    SearchEdited(String),
    SavedNameEdited(String),
    CommandEdited(String),
    RowClicked(RowPresentation),
    SetFollow(bool),
    SetFolding(bool),
    OpenPalette,
    ClosePalette,
    RunCommand,
    NextResult,
    PreviousResult,
    ToggleBookmark,
    ToggleFollow,
    ToggleFolding,
    ClearFilter,
    ClearSearch,
    SaveFilter,
    ApplySaved(String),
    SaveSession,
    LineUp,
    LineDown,
    PageUp,
    PageDown,
    Home,
    End,
}

/// An action as a value of mathematics.
pub ghost enum WindowActionView {
    FilterEdited(Seq<char>),
    SearchEdited(Seq<char>),
    SavedNameEdited(Seq<char>),
    CommandEdited(Seq<char>),
    RowClicked(PresentationView),
    SetFollow(bool),
    SetFolding(bool),
    OpenPalette,
    ClosePalette,
    RunCommand,
    NextResult,
    PreviousResult,
    ToggleBookmark,
    ToggleFollow,
    ToggleFolding,
    ClearFilter,
    ClearSearch,
    SaveFilter,
    ApplySaved(Seq<char>),
    SaveSession,
    LineUp,
    LineDown,
    PageUp,
    PageDown,
    Home,
    End,
}

impl View for WindowAction {
    type V = WindowActionView;

    open spec fn view(&self) -> WindowActionView {
        match *self {
            WindowAction::FilterEdited(text) => WindowActionView::FilterEdited(text@),
            WindowAction::SearchEdited(text) => WindowActionView::SearchEdited(text@),
            WindowAction::SavedNameEdited(text) => WindowActionView::SavedNameEdited(text@),
            WindowAction::CommandEdited(text) => WindowActionView::CommandEdited(text@),
            WindowAction::RowClicked(row) => WindowActionView::RowClicked(row@),
            WindowAction::SetFollow(on) => WindowActionView::SetFollow(on),
            WindowAction::SetFolding(on) => WindowActionView::SetFolding(on),
            WindowAction::OpenPalette => WindowActionView::OpenPalette,
            WindowAction::ClosePalette => WindowActionView::ClosePalette,
            WindowAction::RunCommand => WindowActionView::RunCommand,
            WindowAction::NextResult => WindowActionView::NextResult,
            WindowAction::PreviousResult => WindowActionView::PreviousResult,
            WindowAction::ToggleBookmark => WindowActionView::ToggleBookmark,
            WindowAction::ToggleFollow => WindowActionView::ToggleFollow,
            WindowAction::ToggleFolding => WindowActionView::ToggleFolding,
            WindowAction::ClearFilter => WindowActionView::ClearFilter,
            WindowAction::ClearSearch => WindowActionView::ClearSearch,
            WindowAction::SaveFilter => WindowActionView::SaveFilter,
            WindowAction::ApplySaved(name) => WindowActionView::ApplySaved(name@),
            WindowAction::SaveSession => WindowActionView::SaveSession,
            WindowAction::LineUp => WindowActionView::LineUp,
            WindowAction::LineDown => WindowActionView::LineDown,
            WindowAction::PageUp => WindowActionView::PageUp,
            WindowAction::PageDown => WindowActionView::PageDown,
            WindowAction::Home => WindowActionView::Home,
            WindowAction::End => WindowActionView::End,
        }
    }
}

/// The state after an action, and whether the session is to be saved.
#[verifier::ext_equal]
pub ghost struct WindowStep {
    pub state: WindowState,
    pub save: bool,
}

impl WindowState {
    /// The state with a message.
    pub open spec fn saying(self, message: Seq<char>) -> WindowState {
        WindowState { status: Some(message), ..self }
    }

    /// Nothing to save.
    pub open spec fn quietly(self) -> WindowStep {
        WindowStep { state: self, save: false }
    }

    /// The typed filter put to use.
    pub open spec fn filter_edited(self, text: Seq<char>) -> WindowState {
        let (engine, error) = submitted(self.engine, text);
        let next = WindowState { filter_text: text, engine, ..self };
        match error {
            Some(message) => next.saying("filter error: "@ + message),
            None => next,
        }
    }

    /// The typed text searched for.
    pub open spec fn search_edited(self, text: Seq<char>) -> WindowState {
        WindowState {
            search_text: text,
            engine: EngineView {
                search: if text.len() > 0 {
                    Some(text)
                } else {
                    None
                },
                ..self.engine
            },
            ..self
        }
    }

    /// The next hit of the search selected.
    pub open spec fn result_selected(self, reverse: bool) -> WindowState {
        let current = match self.selected {
            Some(row) => Some(row.row_id),
            None => None,
        };
        match hit_after(self.engine.hits(), current, reverse) {
            None => self.saying("no search results"@),
            Some(row_id) => self.row_selected(row_id),
        }
    }

    /// The row with this id selected and in sight.
    pub open spec fn row_selected(self, row_id: RowId) -> WindowState {
        match place_of(ids_of(self.engine.listed()), row_id) {
            None => self.saying("row "@ + decimal(row_id.0 as nat) + " is not visible"@),
            Some(place) => WindowState {
                selected: Some(self.engine.presented(self.engine.listed()[place])),
                scroll_to: Some(place),
                follow: false,
                ..self
            },
        }
    }

    /// The bookmark of the selected row toggled.
    pub open spec fn bookmark_toggled(self) -> WindowStep {
        match self.selected {
            None => self.saying("select a row before bookmarking"@).quietly(),
            Some(row) => {
                let marks = self.engine.session.bookmarks;
                WindowStep {
                    state: WindowState {
                        engine: EngineView {
                            session: SessionView {
                                bookmarks: toggled(marks, row.row_id, None),
                                ..self.engine.session
                            },
                            ..self.engine
                        },
                        selected: Some(
                            PresentationView {
                                is_bookmarked: !has_bookmark(marks, row.row_id),
                                ..row
                            },
                        ),
                        ..self
                    },
                    save: true,
                }
            },
        }
    }

    /// Folding of stack traces set.
    pub open spec fn folding_set(self, on: bool) -> WindowState {
        WindowState {
            fold_stacks: on,
            engine: EngineView { folding: on, ..self.engine },
            ..self
        }
    }

    /// The filter given up.
    pub open spec fn filter_cleared(self) -> WindowState {
        WindowState {
            filter_text: Seq::empty(),
            engine: EngineView { filter: FilterView::All, ..self.engine },
            ..self
        }
    }

    /// The search given up.
    pub open spec fn search_cleared(self) -> WindowState {
        WindowState {
            search_text: Seq::empty(),
            engine: EngineView { search: None, ..self.engine },
            ..self
        }
    }

    /// The filter in use saved under the typed name.
    pub open spec fn filter_saved(self) -> WindowStep {
        let name = trimmed(self.saved_name);
        if name.len() == 0 {
            self.saying("enter a saved filter name"@).quietly()
        } else {
            WindowStep {
                state: (WindowState {
                    engine: EngineView {
                        session: SessionView {
                            saved: with_saved(self.engine.session.saved, name, self.engine.filter),
                            ..self.engine.session
                        },
                        ..self.engine
                    },
                    ..self
                }).saying("saved filter "@ + name),
                save: true,
            }
        }
    }

    /// A saved filter put to use.
    pub open spec fn saved_applied(self, name: Seq<char>) -> WindowState {
        match saved_as(self.engine.session.saved, name) {
            None => self.saying("saved filter not found: "@ + name),
            Some(filter) => match filter.bad_pattern() {
                Some(pattern) => self.saying(bad_regex_text(pattern)),
                None => (WindowState { engine: self.engine.using(filter), ..self }).saying(
                    "applied filter "@ + name,
                ),
            },
        }
    }

    /// What a typed command does.
    pub open spec fn command_done(self, command: Seq<char>) -> WindowStep {
        if command == "clear filter"@ {
            self.filter_cleared().quietly()
        } else if command == "clear search"@ {
            self.search_cleared().quietly()
        } else if command == "next search"@ {
            self.result_selected(false).quietly()
        } else if command == "previous search"@ {
            self.result_selected(true).quietly()
        } else if command == "toggle bookmark"@ {
            self.bookmark_toggled()
        } else if command == "fold stacks"@ {
            self.folding_set(true).quietly()
        } else if command == "unfold stacks"@ {
            self.folding_set(false).quietly()
        } else if command == "toggle follow"@ {
            (WindowState { follow: !self.follow, ..self }).quietly()
        } else if command == "save session"@ {
            WindowStep { state: self, save: true }
        } else {
            self.saying("unknown command"@).quietly()
        }
    }

    /// The typed command carried out and the palette closed.
    pub open spec fn command_run(self) -> WindowStep {
        let step = self.command_done(trimmed(self.command_text));
        WindowStep {
            state: WindowState {
                command_text: Seq::empty(),
                palette_open: false,
                ..step.state
            },
            ..step
        }
    }

    /// The list scrolled by `delta` rows; going up stops following.
    pub open spec fn scrolled(self, delta: int) -> WindowState {
        WindowState {
            scroll_to: Some(
                scroll_target_of(self.first_row, delta, self.engine.listed().len() as int),
            ),
            follow: self.follow && delta > 0,
            ..self
        }
    }

    /// The rows that a page key moves by.
    pub open spec fn page_step(self) -> int {
        if self.page_size < 1 {
            1
        } else {
            self.page_size
        }
    }

    /// What an action does.
    pub open spec fn after(self, action: WindowActionView) -> WindowStep {
        match action {
            WindowActionView::FilterEdited(text) => self.filter_edited(text).quietly(),
            WindowActionView::SearchEdited(text) => self.search_edited(text).quietly(),
            WindowActionView::SavedNameEdited(text) => (WindowState {
                saved_name: text,
                ..self
            }).quietly(),
            WindowActionView::CommandEdited(text) => (WindowState {
                command_text: text,
                ..self
            }).quietly(),
            WindowActionView::RowClicked(row) => (WindowState {
                selected: Some(row),
                ..self
            }).quietly(),
            WindowActionView::SetFollow(on) => (WindowState { follow: on, ..self }).quietly(),
            WindowActionView::SetFolding(on) => self.folding_set(on).quietly(),
            WindowActionView::OpenPalette => (WindowState { palette_open: true, ..self }).quietly(),
            WindowActionView::ClosePalette => (WindowState {
                palette_open: false,
                ..self
            }).quietly(),
            WindowActionView::RunCommand => self.command_run(),
            WindowActionView::NextResult => self.result_selected(false).quietly(),
            WindowActionView::PreviousResult => self.result_selected(true).quietly(),
            WindowActionView::ToggleBookmark => self.bookmark_toggled(),
            WindowActionView::ToggleFollow => (WindowState {
                follow: !self.follow,
                ..self
            }).quietly(),
            WindowActionView::ToggleFolding => self.folding_set(!self.fold_stacks).quietly(),
            WindowActionView::ClearFilter => self.filter_cleared().quietly(),
            WindowActionView::ClearSearch => self.search_cleared().quietly(),
            WindowActionView::SaveFilter => self.filter_saved(),
            WindowActionView::ApplySaved(name) => self.saved_applied(name).quietly(),
            WindowActionView::SaveSession => WindowStep { state: self, save: true },
            WindowActionView::LineUp => self.scrolled(-1).quietly(),
            WindowActionView::LineDown => self.scrolled(1).quietly(),
            WindowActionView::PageUp => self.scrolled(-self.page_step()).quietly(),
            WindowActionView::PageDown => self.scrolled(self.page_step()).quietly(),
            WindowActionView::Home => (WindowState {
                scroll_to: Some(0int),
                follow: false,
                ..self
            }).quietly(),
            WindowActionView::End => (WindowState { follow: true, ..self }).quietly(),
        }
    }

    /// What is said after the session has been saved, or could not be.
    pub open spec fn session_saved(self, error: Option<Seq<char>>) -> WindowState {
        match error {
            Some(message) => self.saying(message),
            None => if self.has_session_file {
                self.saying("session saved"@)
            } else {
                self
            },
        }
    }

    /// What is shown in a frame of the rows from `start` up to `end`.
    pub open spec fn showing(self, start: int, end: int) -> WindowState {
        WindowState {
            first_row: start,
            page_size: if end - start < 1 {
                1
            } else {
                end - start
            },
            ..self
        }
    }

    /// One event taken in.
    pub open spec fn with_event(self, event: EventView) -> WindowState {
        let taken = WindowState { engine: self.engine.after_event(event), ..self };
        match event {
            EventView::SourceRotated(source_id) => taken.saying(
                "source "@ + decimal(source_id.0 as nat) + " rotated"@,
            ),
            EventView::SourceError(source_id, message) => taken.saying(
                "source "@ + decimal(source_id.0 as nat) + " error: "@ + message,
            ),
            _ => taken,
        }
    }

    /// Some events taken in.
    pub open spec fn with_events(self, events: Seq<EventView>) -> WindowState
        decreases events.len(),
    {
        if events.len() == 0 {
            self
        } else {
            self.with_events(events.drop_last()).with_event(events.last())
        }
    }

    /// What came in since the last frame taken in; `disconnected` says that nothing more will.
    pub open spec fn drained(self, events: Seq<EventView>, disconnected: bool) -> WindowState {
        let taken = self.with_events(events);
        if disconnected {
            taken.saying("live tail disconnected"@)
        } else {
            taken
        }
    }
}

impl WindowApp {
    /// The front-end at the start.
    pub fn new(
        engine: Engine,
        filter_text: String,
        has_session_file: bool,
        follow: bool,
        status_message: Option<String>,
    ) -> (r: WindowApp)
        requires
            engine.wf(),
        ensures
            r.engine.wf(),
            r@ == (WindowState {
                engine: engine@,
                filter_text: filter_text@,
                search_text: Seq::empty(),
                palette_open: false,
                command_text: Seq::empty(),
                selected: None,
                fold_stacks: false,
                follow,
                has_session_file,
                status: optional_text(status_message),
                saved_name: Seq::empty(),
                scroll_to: None,
                first_row: 0,
                page_size: 1,
            }),
    {
        WindowApp {
            engine,
            filter_text,
            search_text: String::new(),
            palette_open: false,
            command_text: String::new(),
            selected_row: None,
            fold_stacks: false,
            follow,
            has_session_file,
            status_message,
            saved_filter_name: String::new(),
            scroll_to_row: None,
            first_row: 0,
            page_size: 1,
        }
    }

    /// Shows a message.
    fn say(&mut self, message: String)
        ensures
            final(self)@ == old(self)@.saying(message@),
            final(self).engine == old(self).engine,
    {
        self.status_message = Some(message);
    }

    /// Puts the typed filter to use.
    fn edit_filter(&mut self, text: String)
        requires
            old(self).engine.wf(),
        ensures
            final(self).engine.wf(),
            final(self)@ == old(self)@.filter_edited(text@),
    {
        let error = submit_filter(&mut self.engine, &text);
        self.filter_text = text;
        if let Some(message) = error {
            self.say(joined("filter error: ", &message));
        }
    }

    /// Searches for the typed text.
    fn edit_search(&mut self, text: String)
        requires
            old(self).engine.wf(),
        ensures
            final(self).engine.wf(),
            final(self)@ == old(self)@.search_edited(text@),
    {
        self.engine.set_search_text(Some(text.clone()));
        self.search_text = text;
    }

    /// Selects the next hit of the search.
    pub fn select_search_result(&mut self, reverse: bool)
        requires
            old(self).engine.wf(),
        ensures
            final(self).engine.wf(),
            final(self)@ == old(self)@.result_selected(reverse),
    {
        let current: Option<RowId> = match &self.selected_row {
            Some(row) => Some(row.row_id),
            None => None,
        };
        match self.engine.next_search_result(current, reverse) {
            None => {
                self.say("no search results".to_owned());
            },
            Some(row_id) => {
                self.select_row(row_id);
            },
        }
    }

    /// Selects the row with this id and brings it in sight.
    pub fn select_row(&mut self, row_id: RowId)
        requires
            old(self).engine.wf(),
        ensures
            final(self).engine.wf(),
            final(self)@ == old(self)@.row_selected(row_id),
    {
        match self.engine.filtered_position_for_row(row_id) {
            None => {
                let mut message = joined("row ", &decimal_text(row_id.0));
                message.append(" is not visible");
                self.say(message);
            },
            Some(position) => {
                proof {
                    crate::laws::lemma_place_holds_id(ids_of(self@.engine.listed()), row_id);
                }
                self.selected_row = self.engine.present_row_at(position);
                self.scroll_to_row = Some(position);
                self.follow = false;
            },
        }
    }

    /// Toggles the bookmark of the selected row. Returns whether the session is to be saved.
    pub fn toggle_selected_bookmark(&mut self) -> (r: bool)
        requires
            old(self).engine.wf(),
        ensures
            final(self).engine.wf(),
            (WindowStep { state: final(self)@, save: r }) == old(self)@.bookmark_toggled(),
    {
        let mut row: Option<RowPresentation> = None;
        std::mem::swap(&mut row, &mut self.selected_row);
        match row {
            None => {
                self.say("select a row before bookmarking".to_owned());
                false
            },
            Some(row) => {
                let bookmarked: bool = self.engine.toggle_bookmark(row.row_id, None);
                let mut row = row;
                row.is_bookmarked = bookmarked;
                self.selected_row = Some(row);
                true
            },
        }
    }

    /// Sets folding of stack traces.
    fn set_folding(&mut self, on: bool)
        requires
            old(self).engine.wf(),
        ensures
            final(self).engine.wf(),
            final(self)@ == old(self)@.folding_set(on),
    {
        self.fold_stacks = on;
        self.engine.set_stack_trace_folding(on);
    }

    /// Gives the filter up.
    pub fn clear_filter(&mut self)
        requires
            old(self).engine.wf(),
        ensures
            final(self).engine.wf(),
            final(self)@ == old(self)@.filter_cleared(),
    {
        self.filter_text = String::new();
        self.engine.clear_filter();
    }

    /// Gives the search up.
    pub fn clear_search(&mut self)
        requires
            old(self).engine.wf(),
        ensures
            final(self).engine.wf(),
            final(self)@ == old(self)@.search_cleared(),
    {
        self.search_text = String::new();
        self.engine.set_search_text(None);
    }

    /// Saves the filter in use under the typed name. Returns whether the session is to be saved.
    pub fn save_current_filter(&mut self) -> (r: bool)
        requires
            old(self).engine.wf(),
        ensures
            final(self).engine.wf(),
            (WindowStep { state: final(self)@, save: r }) == old(self)@.filter_saved(),
    {
        let name = trim(&self.saved_filter_name).to_owned();
        if name.as_str().is_empty() {
            self.say("enter a saved filter name".to_owned());
            return false;
        }
        self.engine.save_filter(&name);
        self.say(joined("saved filter ", &name));
        true
    }

    /// Puts a saved filter to use.
    pub fn apply_saved_filter(&mut self, name: &str)
        requires
            old(self).engine.wf(),
        ensures
            final(self).engine.wf(),
            final(self)@ == old(self)@.saved_applied(name@),
    {
        match self.engine.apply_saved_filter(name) {
            Ok(true) => {
                self.say(joined("applied filter ", name));
            },
            Ok(false) => {
                self.say(joined("saved filter not found: ", name));
            },
            Err(error) => {
                self.say(error.message());
            },
        }
    }

    /// Carries a command out. Returns whether the session is to be saved.
    fn do_command(&mut self, command: &str) -> (r: bool)
        requires
            old(self).engine.wf(),
        ensures
            final(self).engine.wf(),
            (WindowStep { state: final(self)@, save: r }) == old(self)@.command_done(command@),
    {
        if same_text(command, "clear filter") {
            self.clear_filter();
            false
        } else if same_text(command, "clear search") {
            self.clear_search();
            false
        } else if same_text(command, "next search") {
            self.select_search_result(false);
            false
        } else if same_text(command, "previous search") {
            self.select_search_result(true);
            false
        } else if same_text(command, "toggle bookmark") {
            self.toggle_selected_bookmark()
        } else if same_text(command, "fold stacks") {
            self.set_folding(true);
            false
        } else if same_text(command, "unfold stacks") {
            self.set_folding(false);
            false
        } else if same_text(command, "toggle follow") {
            self.follow = !self.follow;
            false
        } else if same_text(command, "save session") {
            true
        } else {
            self.say("unknown command".to_owned());
            false
        }
    }

    /// Carries the typed command out and closes the palette. Returns whether the session is to be
    /// saved.
    pub fn run_command_text(&mut self) -> (r: bool)
        requires
            old(self).engine.wf(),
        ensures
            final(self).engine.wf(),
            (WindowStep { state: final(self)@, save: r }) == old(self)@.command_run(),
    {
        let command = trim(&self.command_text).to_owned();
        let save: bool = self.do_command(&command);
        self.command_text = String::new();
        self.palette_open = false;
        save
    }

    /// Scrolls the list by lines or pages.
    fn scroll_by(&mut self, delta: isize)
        requires
            old(self).engine.wf(),
        ensures
            final(self).engine.wf(),
            final(self)@ == old(self)@.scrolled(delta as int),
    {
        let total: usize = self.engine.matching_rows_count();
        self.scroll_to_row = Some(scroll_target(self.first_row, delta, total));
        if delta <= 0 {
            self.follow = false;
        }
    }

    /// The rows that a page key moves by.
    fn page_step(&self) -> (r: isize)
        requires
            self.page_size <= isize::MAX,
        ensures
            r == self@.page_step(),
    {
        if self.page_size < 1 {
            1
        } else {
            self.page_size as isize
        }
    }

    /// Does what an action asks for. Returns whether the session is to be saved.
    #[verifier::spinoff_prover]
    pub fn handle(&mut self, action: WindowAction) -> (r: bool)
        requires
            old(self).engine.wf(),
            old(self).page_size <= isize::MAX,
        ensures
            final(self).engine.wf(),
            (WindowStep { state: final(self)@, save: r }) == old(self)@.after(action@),
    {
        match action {
            WindowAction::FilterEdited(text) => {
                self.edit_filter(text);
                false
            },
            WindowAction::SearchEdited(text) => {
                self.edit_search(text);
                false
            },
            WindowAction::SavedNameEdited(text) => {
                self.saved_filter_name = text;
                false
            },
            WindowAction::CommandEdited(text) => {
                self.command_text = text;
                false
            },
            WindowAction::RowClicked(row) => {
                self.selected_row = Some(row);
                false
            },
            WindowAction::SetFollow(on) => {
                self.follow = on;
                false
            },
            WindowAction::SetFolding(on) => {
                self.set_folding(on);
                false
            },
            WindowAction::OpenPalette => {
                self.palette_open = true;
                false
            },
            WindowAction::ClosePalette => {
                self.palette_open = false;
                false
            },
            WindowAction::RunCommand => self.run_command_text(),
            WindowAction::NextResult => {
                self.select_search_result(false);
                false
            },
            WindowAction::PreviousResult => {
                self.select_search_result(true);
                false
            },
            WindowAction::ToggleBookmark => self.toggle_selected_bookmark(),
            WindowAction::ToggleFollow => {
                self.follow = !self.follow;
                false
            },
            WindowAction::ToggleFolding => {
                let on: bool = !self.fold_stacks;
                self.set_folding(on);
                false
            },
            WindowAction::ClearFilter => {
                self.clear_filter();
                false
            },
            WindowAction::ClearSearch => {
                self.clear_search();
                false
            },
            WindowAction::SaveFilter => self.save_current_filter(),
            WindowAction::ApplySaved(name) => {
                self.apply_saved_filter(&name);
                false
            },
            WindowAction::SaveSession => true,
            WindowAction::LineUp => {
                self.scroll_by(-1);
                false
            },
            WindowAction::LineDown => {
                self.scroll_by(1);
                false
            },
            WindowAction::PageUp => {
                let step: isize = self.page_step();
                self.scroll_by(-step);
                false
            },
            WindowAction::PageDown => {
                let step: isize = self.page_step();
                self.scroll_by(step);
                false
            },
            WindowAction::Home => {
                self.scroll_to_row = Some(0);
                self.follow = false;
                false
            },
            WindowAction::End => {
                self.follow = true;
                false
            },
        }
    }

    /// Tells that the session has been saved, or why not.
    pub fn session_saved(&mut self, error: Option<String>)
        ensures
            final(self)@ == old(self)@.session_saved(optional_text(error)),
            final(self).engine == old(self).engine,
    {
        match error {
            Some(message) => {
                self.say(message);
            },
            None => {
                if self.has_session_file {
                    self.say("session saved".to_owned());
                }
            },
        }
    }

    /// Remembers which rows a frame shows: those from `start` up to `end`.
    pub fn note_frame(&mut self, start: usize, end: usize)
        requires
            start <= end,
        ensures
            final(self)@ == old(self)@.showing(start as int, end as int),
            final(self).engine == old(self).engine,
    {
        self.first_row = start;
        self.page_size = if end - start < 1 {
            1
        } else {
            end - start
        };
    }

    /// Takes one event in.
    fn take_event(&mut self, event: LogEvent)
        requires
            old(self).engine.wf(),
            old(self)@.engine.has_ids_for(rows_in(event@).len()),
        ensures
            final(self).engine.wf(),
            final(self)@ == old(self)@.with_event(event@),
            final(self)@.engine.index.evicted + final(self)@.engine.index.rows.len()
                == old(self)@.engine.index.evicted + old(self)@.engine.index.rows.len() + rows_in(
                event@,
            ).len(),
    {
        let message: Option<String> = match &event {
            LogEvent::SourceRotated { source_id } => {
                let mut text = joined("source ", &decimal_text(source_id.0));
                text.append(" rotated");
                Some(text)
            },
            LogEvent::SourceError { source_id, message } => {
                let mut text = joined("source ", &decimal_text(source_id.0));
                text.append(" error: ");
                text.append(message);
                Some(text)
            },
            _ => None,
        };
        absorb_event(&mut self.engine, event);
        if let Some(text) = message {
            self.say(text);
        }
    }

    /// Takes in what came since the last frame.
    pub fn drain(&mut self, events: Vec<LogEvent>, disconnected: bool)
        requires
            old(self).engine.wf(),
            old(self)@.engine.has_ids_for(rows_in_all(event_views(events@)).len()),
        ensures
            final(self).engine.wf(),
            final(self)@ == old(self)@.drained(event_views(events@), disconnected),
    {
        let ghost before = self@;
        let ghost all = event_views(events@);
        let count: usize = events.len();
        let mut turned = reversed(events);
        let mut done: usize = 0;
        assert(all.subrange(0, 0) =~= Seq::<EventView>::empty());
        while done < count
            invariant
                done <= count,
                count == all.len(),
                turned@.len() == count - done,
                forall|i: int|
                    0 <= i < turned@.len() ==> (#[trigger] turned@[i])@ == all[count - 1 - i],
                self.engine.wf(),
                self@ == before.with_events(all.subrange(0, done as int)),
                before.engine.has_ids_for(rows_in_all(all).len()),
                self@.engine.index.evicted + self@.engine.index.rows.len()
                    == before.engine.index.evicted + before.engine.index.rows.len() + rows_in_all(
                    all.subrange(0, done as int),
                ).len(),
            decreases count - done,
        {
            let ghost part = all.subrange(0, done as int);
            let ghost next = all.subrange(0, done + 1);
            if let Some(event) = turned.pop() {
                proof {
                    assert(event@ == all[done as int]);
                    assert(next.drop_last() =~= part);
                    assert(next.last() == event@);
                    lemma_rows_of_part(all, done as int);
                }
                self.take_event(event);
            }
            done += 1;
        }
        assert(all.subrange(0, done as int) =~= all);
        if disconnected {
            self.say("live tail disconnected".to_owned());
        }
    }
}

/// How long to wait before the window is drawn again, in milliseconds.
pub fn next_poll_millis(live: bool) -> (r: u64)
    ensures
        r == if live {
            LIVE_POLL_INTERVAL_MILLIS
        } else {
            IDLE_POLL_INTERVAL_MILLIS
        },
{
    if live {
        LIVE_POLL_INTERVAL_MILLIS
    } else {
        IDLE_POLL_INTERVAL_MILLIS
    }
}

// ---------------------------------------------------------------------------
// What is shown
// ---------------------------------------------------------------------------

/// The colour of a severity band.
pub open spec fn band_color_of(role: SeverityRole) -> Rgb {
    match role {
        SeverityRole::Fatal => rgb_of(220, 70, 70),
        SeverityRole::Error => rgb_of(220, 70, 70),
        SeverityRole::Warn => rgb_of(230, 180, 70),
        SeverityRole::Info => rgb_of(80, 150, 220),
        SeverityRole::Debug => rgb_of(120, 120, 160),
        SeverityRole::Trace => rgb_of(120, 120, 160),
        SeverityRole::Unknown => rgb_of(70, 70, 70),
    }
}

/// The colour of a severity band.
pub fn band_color(role: SeverityRole) -> (r: Rgb)
    ensures
        r == band_color_of(role),
{
    match role {
        SeverityRole::Fatal => rgb(220, 70, 70),
        SeverityRole::Error => rgb(220, 70, 70),
        SeverityRole::Warn => rgb(230, 180, 70),
        SeverityRole::Info => rgb(80, 150, 220),
        SeverityRole::Debug => rgb(120, 120, 160),
        SeverityRole::Trace => rgb(120, 120, 160),
        SeverityRole::Unknown => rgb(70, 70, 70),
    }
}

/// The colour of a span.
pub open spec fn text_color_of(kind: SpanKind) -> Rgb {
    match kind {
        SpanKind::Timestamp => rgb_of(120, 170, 230),
        SpanKind::Error => rgb_of(255, 90, 90),
        SpanKind::Warning => rgb_of(240, 190, 80),
        SpanKind::SearchMatch => rgb_of(0, 0, 0),
        SpanKind::JsonKey => rgb_of(90, 210, 220),
        SpanKind::JsonValue => rgb_of(140, 220, 150),
        _ => rgb_of(220, 220, 220),
    }
}

/// The colour of a span.
pub fn text_color(kind: SpanKind) -> (r: Rgb)
    ensures
        r == text_color_of(kind),
{
    match kind {
        SpanKind::Timestamp => rgb(120, 170, 230),
        SpanKind::Error => rgb(255, 90, 90),
        SpanKind::Warning => rgb(240, 190, 80),
        SpanKind::SearchMatch => rgb(0, 0, 0),
        SpanKind::JsonKey => rgb(90, 210, 220),
        SpanKind::JsonValue => rgb(140, 220, 150),
        _ => rgb(220, 220, 220),
    }
}

/// The background of a span.
pub open spec fn text_background_of(kind: SpanKind) -> Option<Rgb> {
    if kind == SpanKind::SearchMatch {
        Some(rgb_of(170, 220, 80))
    } else {
        None
    }
}

/// The cells of the spans of a row.
pub open spec fn text_cells_of(spans: Seq<SpanView>) -> Seq<(Seq<char>, Rgb, Option<Rgb>)> {
    spans.map_values(
        |span: SpanView| (span.text, text_color_of(span.kind), text_background_of(span.kind)),
    )
}

/// The cells of a row: the mark of a bookmark, how many rows are folded, the source and the spans.
pub open spec fn line_cells_of(row: PresentationView) -> Seq<(Seq<char>, Rgb, Option<Rgb>)> {
    let gray = rgb_of(160, 160, 160);
    let mark = if row.is_bookmarked {
        seq![("*"@, rgb_of(230, 120, 230), None::<Rgb>)]
    } else {
        Seq::empty()
    };
    let folded = if row.folded_stack_rows > 0 {
        seq![("+"@ + decimal(row.folded_stack_rows) + " "@, gray, None::<Rgb>)]
    } else {
        Seq::empty()
    };
    let source = match row.source_name {
        Some(name) => seq![("["@ + name + "] "@, gray, None::<Rgb>)],
        None => Seq::empty(),
    };
    mark + folded + source + text_cells_of(row.spans)
}

/// The cells of a row.
pub fn line_cells(row: &RowPresentation) -> (r: Vec<RowCell>)
    ensures
        row_cell_views(r@) == line_cells_of(row@),
{
    let gray = rgb(160, 160, 160);
    let mut cells: Vec<RowCell> = Vec::new();
    assert(row_cell_views(cells@) =~= Seq::<(Seq<char>, Rgb, Option<Rgb>)>::empty());
    if row.is_bookmarked {
        push_cell(&mut cells, "*".to_owned(), rgb(230, 120, 230), None);
    }
    if row.folded_stack_rows > 0 {
        let mut text = joined("+", &decimal_text(row.folded_stack_rows as u64));
        text.append(" ");
        push_cell(&mut cells, text, gray, None);
    }
    if let Some(name) = &row.source_name {
        let mut text = joined("[", &**name);
        text.append("] ");
        push_cell(&mut cells, text, gray, None);
    }
    let ghost front = row_cell_views(cells@);
    let mut i: usize = 0;
    assert(front =~= front + text_cells_of(row@.spans.subrange(0, 0)));
    while i < row.spans.len()
        invariant
            i <= row.spans@.len(),
            row_cell_views(cells@) == front + text_cells_of(row@.spans.subrange(0, i as int)),
        decreases row.spans@.len() - i,
    {
        let span = &row.spans[i];
        let text: &str = &*span.text;
        let background = if span.kind == SpanKind::SearchMatch {
            Some(rgb(170, 220, 80))
        } else {
            None
        };
        push_cell(&mut cells, text.to_owned(), text_color(span.kind), background);
        i += 1;
        assert(row@.spans[i - 1] == span@);
        assert(row_cell_views(cells@) =~= front + text_cells_of(
            row@.spans.subrange(0, i as int),
        ));
    }
    assert(row@.spans.subrange(0, i as int) =~= row@.spans);
    assert(row_cell_views(cells@) =~= line_cells_of(row@));
    cells
}

/// The background of a row: the selected one stands out, and rows with even ids are shaded.
pub fn row_shade(row_id: RowId, selected: bool) -> (r: Option<Rgb>)
    ensures
        r == if selected {
            Some(rgb_of(40, 60, 80))
        } else if row_id.0 % 2 == 0 {
            Some(rgb_of(18, 18, 18))
        } else {
            None
        },
{
    if selected {
        Some(rgb(40, 60, 80))
    } else if row_id.0 % 2 == 0 {
        Some(rgb(18, 18, 18))
    } else {
        None
    }
}

/// The colour of a bucket: errors before warnings before the rest.
pub fn bar_color(bucket: &TimelineBucket) -> (r: Rgb)
    ensures
        r == if bucket.error > 0 {
            rgb_of(220, 70, 70)
        } else if bucket.warn > 0 {
            rgb_of(230, 180, 70)
        } else {
            rgb_of(90, 150, 220)
        },
{
    if bucket.error_count() > 0 {
        rgb(220, 70, 70)
    } else if bucket.warn_count() > 0 {
        rgb(230, 180, 70)
    } else {
        rgb(90, 150, 220)
    }
}

/// What the sidebar says of a source: its number, and how many rows, warnings and errors it has.
pub open spec fn source_lines_of(summary: SourceSummary) -> Seq<Seq<char>> {
    seq![
        "#"@ + decimal(summary.source_id.0 as nat),
        decimal(summary.rows as nat) + " rows, "@ + decimal(summary.level_counts.warn as nat)
            + " warn, "@ + decimal(
            (summary.level_counts.error + summary.level_counts.fatal) as nat,
        ) + " error"@,
    ]
}

/// What the sidebar says of a source.
pub fn source_lines(summary: &SourceSummary) -> (r: Vec<String>)
    requires
        summary.level_counts.error + summary.level_counts.fatal <= usize::MAX,
    ensures
        texts(r@) == source_lines_of(*summary),
{
    let errors: usize = summary.level_counts.error + summary.level_counts.fatal;
    let mut counts = joined(&decimal_text(summary.rows as u64), " rows, ");
    counts.append(&decimal_text(summary.level_counts.warn as u64));
    counts.append(" warn, ");
    counts.append(&decimal_text(errors as u64));
    counts.append(" error");
    let mut out: Vec<String> = Vec::new();
    out.push(joined("#", &decimal_text(summary.source_id.0)));
    out.push(counts);
    assert(texts(out@) =~= source_lines_of(*summary));
    out
}

/// What the sidebar says of the session kept at `path`.
pub open spec fn session_lines_of(session: SessionView, path: Option<Seq<char>>) -> Seq<Seq<char>> {
    seq![
        decimal(session.saved.len()) + " saved filters"@,
        decimal(session.bookmarks.len()) + " bookmarks"@,
        match path {
            Some(path) => "session "@ + path,
            None => "no session file"@,
        },
    ]
}

/// What the details say of a row, before its fields.
pub open spec fn detail_texts_of(row: PresentationView) -> Seq<Seq<char>> {
    let level = match row.level {
        Some(level) => seq!["Level "@ + level.label()],
        None => Seq::empty(),
    };
    let folded = if row.folded_stack_rows > 0 {
        seq!["Folded stack rows "@ + decimal(row.folded_stack_rows)]
    } else {
        Seq::empty()
    };
    seq![
        "Row "@ + decimal(row.row_id.0 as nat),
        "Source "@ + decimal(row.source_id.0 as nat),
    ] + level + folded
}

/// What the details say of a row, before its fields.
pub fn detail_texts(row: &RowPresentation) -> (r: Vec<String>)
    ensures
        texts(r@) == detail_texts_of(row@),
{
    let mut out: Vec<String> = Vec::new();
    out.push(joined("Row ", &decimal_text(row.row_id.0)));
    out.push(joined("Source ", &decimal_text(row.source_id.0)));
    if let Some(level) = row.level {
        out.push(joined("Level ", level.name()));
    }
    if row.folded_stack_rows > 0 {
        out.push(joined("Folded stack rows ", &decimal_text(row.folded_stack_rows as u64)));
    }
    assert(texts(out@) =~= detail_texts_of(row@));
    out
}

/// What stands above the timeline.
pub open spec fn timeline_texts_of(snapshot: ViewportSnapshot, evicted: nat) -> Seq<Seq<char>> {
    let dropped = if evicted > 0 {
        seq!["truncated: "@ + decimal(evicted) + " oldest rows dropped"@]
    } else {
        Seq::empty()
    };
    seq![
        decimal(snapshot.total_matching_rows as nat) + " matching / "@ + decimal(
            snapshot.total_rows as nat,
        ) + " total"@,
    ] + dropped + seq![
        "warn "@ + decimal(snapshot.level_counts.warn as nat),
        "error "@ + decimal((snapshot.level_counts.error + snapshot.level_counts.fatal) as nat),
    ]
}

impl WindowApp {
    /// What the sidebar says of the session.
    pub fn session_lines(&self, path: Option<&str>) -> (r: Vec<String>)
        ensures
            texts(r@) == session_lines_of(
                self@.engine.session,
                match path {
                    Some(path) => Some(path@),
                    None => None,
                },
            ),
    {
        let session = self.engine.session();
        let mut out: Vec<String> = Vec::new();
        out.push(joined(&decimal_text(session.saved_filters.len() as u64), " saved filters"));
        out.push(joined(&decimal_text(session.bookmarks.len() as u64), " bookmarks"));
        match path {
            Some(path) => {
                out.push(joined("session ", path));
            },
            None => {
                out.push("no session file".to_owned());
            },
        }
        assert(texts(out@) =~= session_lines_of(
            self@.engine.session,
            match path {
                Some(path) => Some(path@),
                None => None,
            },
        ));
        out
    }

    /// What stands above the timeline.
    pub fn timeline_texts(&self, snapshot: &ViewportSnapshot) -> (r: Vec<String>)
        requires
            snapshot.level_counts.error + snapshot.level_counts.fatal <= usize::MAX,
        ensures
            texts(r@) == timeline_texts_of(*snapshot, self@.engine.index.evicted),
    {
        let errors: usize = snapshot.level_counts.error + snapshot.level_counts.fatal;
        let evicted: u64 = self.engine.evicted_row_count();
        let mut totals = joined(
            &decimal_text(snapshot.total_matching_rows as u64),
            " matching / ",
        );
        totals.append(&decimal_text(snapshot.total_rows as u64));
        totals.append(" total");
        let mut out: Vec<String> = Vec::new();
        out.push(totals);
        if evicted > 0 {
            let mut dropped = joined("truncated: ", &decimal_text(evicted));
            dropped.append(" oldest rows dropped");
            out.push(dropped);
        }
        out.push(joined("warn ", &decimal_text(snapshot.level_counts.warn as u64)));
        out.push(joined("error ", &decimal_text(errors as u64)));
        assert(texts(out@) =~= timeline_texts_of(*snapshot, self@.engine.index.evicted));
        out
    }
}

// ---------------------------------------------------------------------------
// Laws
// ---------------------------------------------------------------------------

/// A hit that is selected is in sight and ends following; what is selected is the row itself.
pub proof fn law_selecting_shows_the_row(state: WindowState, row_id: RowId)
    requires
        ids_of(state.engine.listed()).contains(row_id),
    ensures
        ({
            let after = state.row_selected(row_id);
            &&& after.selected matches Some(row) && row.row_id == row_id
            &&& after.scroll_to is Some
            &&& !after.follow
        }),
{
    crate::laws::lemma_place_holds_id(ids_of(state.engine.listed()), row_id);
}

/// A typed command closes the palette and clears its input, whether it is known or not.
pub proof fn law_commands_close_the_palette(state: WindowState)
    ensures
        !state.after(WindowActionView::RunCommand).state.palette_open,
        state.after(WindowActionView::RunCommand).state.command_text.len() == 0,
{
}

/// What is typed into the inputs is used at once: a filter, or a text to search for.
pub proof fn law_inputs_of_the_window(state: WindowState, text: Seq<char>)
    ensures
        ({
            let filter = state.after(WindowActionView::FilterEdited(text));
            let search = state.after(WindowActionView::SearchEdited(text));
            &&& filter.state.filter_text == text && filter.state.engine == submitted(
                state.engine,
                text,
            ).0 && !filter.save
            &&& submitted(state.engine, text).1 matches Some(error) ==> filter.state.status == Some(
                "filter error: "@ + error,
            )
            &&& search.state.search_text == text && search.state.engine == (EngineView {
                search: if text.len() == 0 {
                    None
                } else {
                    Some(text)
                },
                ..state.engine
            }) && !search.save
        }),
{
}

/// The keys that scroll the window move its first row by one or by a page, within the list; going up
/// ends following, and the end of the list is followed from then on.
pub proof fn law_scroll_keys_of_the_window(state: WindowState)
    requires
        state.page_size >= 1,
        0 <= state.first_row < state.engine.listed().len(),
    ensures
        ({
            let last = state.engine.listed().len() - 1;
            let up = state.after(WindowActionView::LineUp).state;
            let down = state.after(WindowActionView::LineDown).state;
            let page_up = state.after(WindowActionView::PageUp).state;
            let page_down = state.after(WindowActionView::PageDown).state;
            let home = state.after(WindowActionView::Home).state;
            let end = state.after(WindowActionView::End).state;
            &&& up.scroll_to == Some(
                if state.first_row > 0 {
                    state.first_row - 1
                } else {
                    0
                },
            )
            &&& down.scroll_to == Some(
                if state.first_row < last {
                    state.first_row + 1
                } else {
                    last
                },
            )
            &&& page_up.scroll_to == Some(
                if state.first_row > state.page_size {
                    state.first_row - state.page_size
                } else {
                    0
                },
            )
            &&& page_down.scroll_to == Some(
                if state.first_row + state.page_size < last {
                    state.first_row + state.page_size
                } else {
                    last
                },
            )
            &&& home.scroll_to == Some(0int)
            &&& !up.follow && !page_up.follow && !home.follow && end.follow
            &&& down.follow == state.follow && page_down.follow == state.follow
        }),
{
}

/// The buttons for hits select the next and the previous one, in sight and no longer following; the
/// one for bookmarks toggles that of the selected row and has the session saved.
pub proof fn law_buttons_of_the_window(state: WindowState, reverse: bool)
    requires
        state.engine.wf(),
    ensures
        ({
            let after = state.after(
                if reverse {
                    WindowActionView::PreviousResult
                } else {
                    WindowActionView::NextResult
                },
            );
            let current = match state.selected {
                Some(row) => Some(row.row_id),
                None => None,
            };
            let hit = hit_after(state.engine.hits(), current, reverse);
            let marked = state.after(WindowActionView::ToggleBookmark);
            &&& after.state.engine == state.engine && !after.save
            &&& hit is None ==> after.state.selected == state.selected && after.state.status is Some
            &&& hit matches Some(row_id) ==> ids_of(state.engine.listed()).contains(row_id)
                ==> after.state.selected is Some && after.state.selected->0.row_id == row_id
                && !after.state.follow
            &&& state.selected is None ==> marked.state.engine == state.engine && !marked.save
            &&& state.selected matches Some(row) ==> marked.save
                && marked.state.engine.session.bookmarks == toggled(
                state.engine.session.bookmarks,
                row.row_id,
                None,
            )
        }),
{
    let current = match state.selected {
        Some(row) => Some(row.row_id),
        None => None,
    };
    if let Some(row_id) = hit_after(state.engine.hits(), current, reverse) {
        if ids_of(state.engine.listed()).contains(row_id) {
            law_selecting_shows_the_row(state, row_id);
        }
    }
}

/// Saving a filter keeps the one in use under the typed name, without the whitespace around it, and
/// has the session saved; a blank name saves nothing. A saved filter that is chosen is in use.
pub proof fn law_saved_filters_of_the_window(state: WindowState, name: Seq<char>)
    ensures
        ({
            let saved = state.after(WindowActionView::SaveFilter);
            let chosen = state.after(WindowActionView::ApplySaved(name)).state;
            let typed = trimmed(state.saved_name);
            let found = saved_as(state.engine.session.saved, name);
            &&& typed.len() == 0 ==> saved.state.engine == state.engine && !saved.save
            &&& typed.len() > 0 ==> saved.save && saved_as(
                saved.state.engine.session.saved,
                typed,
            ) == Some(state.engine.filter) && saved.state.engine.filter == state.engine.filter
            &&& found is None ==> chosen.engine == state.engine
            &&& found matches Some(filter) ==> filter.bad_pattern() is None ==> chosen.engine.filter
                == filter
        }),
{
    let typed = trimmed(state.saved_name);
    crate::session::law_save_then_find(
        state.engine.session.saved,
        typed,
        state.engine.filter,
        typed,
    );
}

/// The commands that can be typed do what the buttons do, whatever the whitespace around them; a
/// text that is none of them says so and changes nothing else.
#[verifier::spinoff_prover]
pub proof fn law_typed_commands(state: WindowState)
    ensures
        ({
            let after = state.after(WindowActionView::RunCommand);
            let command = trimmed(state.command_text);
            &&& command == "clear filter"@ ==> after.state.engine.filter == FilterView::All
                && after.state.filter_text.len() == 0 && !after.save
            &&& command == "clear search"@ ==> after.state.engine.search is None
                && after.state.search_text.len() == 0 && !after.save
            &&& command == "fold stacks"@ ==> after.state.engine.folding && after.state.fold_stacks
            &&& command == "unfold stacks"@ ==> !after.state.engine.folding
                && !after.state.fold_stacks
            &&& command == "toggle follow"@ ==> after.state.follow == !state.follow
                && after.state.engine == state.engine
            &&& command == "save session"@ ==> after.save && after.state.engine == state.engine
        }),
{
    reveal_strlit("clear filter");
    reveal_strlit("clear search");
    reveal_strlit("next search");
    reveal_strlit("previous search");
    reveal_strlit("toggle bookmark");
    reveal_strlit("fold stacks");
    reveal_strlit("unfold stacks");
    reveal_strlit("toggle follow");
    reveal_strlit("save session");
    assert("clear filter"@.len() == 12 && "clear search"@.len() == 12 && "next search"@.len() == 11);
    assert("clear filter"@[6] == 'f' && "clear search"@[6] == 's');
    assert("previous search"@.len() == 15 && "toggle bookmark"@.len() == 15);
    assert("fold stacks"@.len() == 11 && "fold stacks"@[0] == 'f' && "next search"@[0] == 'n');
    assert("unfold stacks"@.len() == 13 && "toggle follow"@.len() == 13);
    assert("unfold stacks"@[0] == 'u' && "toggle follow"@[0] == 't');
    assert("save session"@.len() == 12 && "save session"@[0] == 's' && "clear filter"@[0] == 'c'
        && "clear search"@[0] == 'c');
}

/// A line of the window ends in its spans; before them stand a mark where it is bookmarked, how many
/// rows are folded into it where there are some, and the name of its source where it has one.
pub proof fn law_lines_of_the_window(row: PresentationView, name: Seq<char>, folded: nat)
    requires
        folded > 0,
    ensures
        ({
            let plain = PresentationView {
                source_name: None,
                is_bookmarked: false,
                folded_stack_rows: 0,
                ..row
            };
            let named = line_cells_of(PresentationView { source_name: Some(name), ..plain });
            let marked = line_cells_of(PresentationView { is_bookmarked: true, ..plain });
            let longer = line_cells_of(PresentationView { folded_stack_rows: folded, ..plain });
            &&& line_cells_of(plain) == text_cells_of(row.spans)
            &&& named[0].0 == "["@ + name + "] "@ && named.skip(1) == text_cells_of(row.spans)
            &&& marked[0].0 == "*"@ && marked.skip(1) == text_cells_of(row.spans)
            &&& longer[0].0 == "+"@ + decimal(folded) + " "@ && longer.skip(1) == text_cells_of(
                row.spans,
            )
        }),
{
    let plain = PresentationView {
        source_name: None,
        is_bookmarked: false,
        folded_stack_rows: 0,
        ..row
    };
    let spans = text_cells_of(row.spans);
    assert(line_cells_of(plain) =~= spans);
    assert(line_cells_of(PresentationView { source_name: Some(name), ..plain }).skip(1) =~= spans);
    assert(line_cells_of(PresentationView { is_bookmarked: true, ..plain }).skip(1) =~= spans);
    assert(line_cells_of(PresentationView { folded_stack_rows: folded, ..plain }).skip(1)
        =~= spans);
}

/// The cells of a line show the texts of its spans; only what was searched for has a background.
pub proof fn law_colours_of_the_window(spans: Seq<SpanView>, k: int)
    requires
        0 <= k < spans.len(),
    ensures
        text_cells_of(spans).len() == spans.len(),
        text_cells_of(spans)[k].0 == spans[k].text,
        text_cells_of(spans)[k].2 is Some <==> spans[k].kind == SpanKind::SearchMatch,
        text_color_of(SpanKind::Error) != text_color_of(SpanKind::Warning),
        text_color_of(SpanKind::Error) != text_color_of(SpanKind::Message),
        text_color_of(SpanKind::Warning) != text_color_of(SpanKind::Message),
        band_color_of(SeverityRole::Fatal) == band_color_of(SeverityRole::Error),
        band_color_of(SeverityRole::Error) != band_color_of(SeverityRole::Warn),
        band_color_of(SeverityRole::Warn) != band_color_of(SeverityRole::Info),
        band_color_of(SeverityRole::Error) != band_color_of(SeverityRole::Info),
{
}

/// The panels tell the listed and the held rows, how many were dropped where some were, the warnings
/// and the errors of both kinds; of the session its saved filters and bookmarks.
pub proof fn law_panels_of_the_window(
    snapshot: ViewportSnapshot,
    evicted: nat,
    session: SessionView,
    path: Seq<char>,
)
    ensures
        ({
            let lines = timeline_texts_of(snapshot, evicted);
            let last = lines.len() - 1;
            &&& lines.len() == if evicted > 0 {
                4nat
            } else {
                3nat
            }
            &&& lines[0] == decimal(snapshot.total_matching_rows as nat) + " matching / "@
                + decimal(snapshot.total_rows as nat) + " total"@
            &&& evicted > 0 ==> lines[1] == "truncated: "@ + decimal(evicted)
                + " oldest rows dropped"@
            &&& lines[last - 1] == "warn "@ + decimal(snapshot.level_counts.warn as nat)
            &&& lines[last] == "error "@ + decimal(
                (snapshot.level_counts.error + snapshot.level_counts.fatal) as nat,
            )
        }),
        session_lines_of(session, None) == seq![
            decimal(session.saved.len()) + " saved filters"@,
            decimal(session.bookmarks.len()) + " bookmarks"@,
            "no session file"@,
        ],
        session_lines_of(session, Some(path))[2] == "session "@ + path,
{
}

/// The panel of the selected row tells its number and its source's, its severity where it has one,
/// and how many rows are folded into it where there are some.
pub proof fn law_details_of_the_window(row: PresentationView)
    ensures
        detail_texts_of(row)[0] == "Row "@ + decimal(row.row_id.0 as nat),
        detail_texts_of(row)[1] == "Source "@ + decimal(row.source_id.0 as nat),
        row.level matches Some(level) ==> detail_texts_of(row)[2] == "Level "@ + level.label(),
        row.folded_stack_rows > 0 ==> detail_texts_of(row).last() == "Folded stack rows "@
            + decimal(row.folded_stack_rows),
        detail_texts_of(row).len() == 2 + (if row.level is Some {
            1int
        } else {
            0
        }) + (if row.folded_stack_rows > 0 {
            1int
        } else {
            0
        }),
{
}

} // verus!
