//! The terminal front-end: its state, its keys and what it draws.
use crate::model::{
    PresentationView, RowId, RowPresentation, SourceSummary, SpanKind, SpanView, ViewportSnapshot,
};
use crate::text::{bool_name, bool_text, chars_in, decimal, decimal_text, joined, without_last};
use crate::ui::{submit_filter, submitted};
use crate::viewport::{hit_after, ids_of, place_of, Engine, EngineView};
use crate::session::{toggled, SessionView};
use vstd::prelude::*;
use vstd::string::*;

verus! {

/// How long a status message stays, in milliseconds.
pub const STATUS_MESSAGE_TTL_MILLIS: u64 = 4_000;

/// The lines of the terminal that are not rows: the status bar, the help line and two borders.
pub const CHROME_HEIGHT: usize = 4;

/// What the keys go to.
#[derive(Debug, Clone, Copy, PartialEq, Eq, Structural)]
pub enum InputMode {
    Normal,
    Search,
    Filter,
}

impl InputMode {
    /// The name of the mode.
    pub open spec fn label(self) -> Seq<char> {
        match self {
            InputMode::Normal => "Normal"@,
            InputMode::Search => "Search"@,
            InputMode::Filter => "Filter"@,
        }
    }

    /// The name of the mode.
    pub fn name(&self) -> (r: &'static str)
        ensures
            r@ == self.label(),
    {
        match self {
            InputMode::Normal => "Normal",
            InputMode::Search => "Search",
            InputMode::Filter => "Filter",
        }
    }
}

/// The state of the terminal front-end. The selected row is the one at `selected_offset` from
/// `first_row`. A status message comes with the time at which it goes away, in milliseconds.
#[derive(Debug)]
pub struct TuiState {
    pub first_row: usize,
    pub selected_offset: usize,
    pub follow: bool,
    pub fold_stacks: bool,
    pub input_mode: InputMode,
    pub input: String,
    pub status_message: Option<(String, u64)>,
}

/// The state as a value of mathematics.
#[verifier::ext_equal]
pub ghost struct TuiView {
    pub first_row: int,
    pub selected_offset: int,
    pub follow: bool,
    pub fold_stacks: bool,
    pub input_mode: InputMode,
    pub input: Seq<char>,
    pub status: Option<(Seq<char>, u64)>,
}

impl View for TuiState {
    type V = TuiView;

    open spec fn view(&self) -> TuiView {
        TuiView {
            first_row: self.first_row as int,
            selected_offset: self.selected_offset as int,
            follow: self.follow,
            fold_stacks: self.fold_stacks,
            input_mode: self.input_mode,
            input: self.input@,
            status: match self.status_message {
                Some(status) => Some((status.0@, status.1)),
                None => None,
            },
        }
    }
}

/// `a` less `b`, or nothing.
pub open spec fn less(a: int, b: int) -> int {
    if a > b {
        a - b
    } else {
        0
    }
}

/// The time at which a message that comes up now goes away.
pub open spec fn expiry(now: u64) -> u64 {
    if now + STATUS_MESSAGE_TTL_MILLIS > u64::MAX {
        u64::MAX
    } else {
        (now + STATUS_MESSAGE_TTL_MILLIS) as u64
    }
}

impl TuiView {
    /// The state with a status message that comes up now.
    pub open spec fn with_status(self, message: Seq<char>, now: u64) -> TuiView {
        TuiView { status: Some((message, expiry(now))), ..self }
    }

    /// The state without a status message whose time has come.
    pub open spec fn without_old_status(self, now: u64) -> TuiView {
        match self.status {
            Some((_, expires)) => if now >= expires {
                TuiView { status: None, ..self }
            } else {
                self
            },
            None => self,
        }
    }

    /// The selection one row further down, with the window moved where it stands at its end.
    pub open spec fn moved_down(self, visible_rows: int, total: int) -> TuiView {
        if self.selected_offset + 1 < visible_rows {
            TuiView { follow: false, selected_offset: self.selected_offset + 1, ..self }
        } else if self.first_row + visible_rows < total {
            TuiView { follow: false, first_row: self.first_row + 1, ..self }
        } else {
            TuiView { follow: false, ..self }
        }
    }

    /// The selection one row further up, with the window moved where it stands at its start.
    pub open spec fn moved_up(self) -> TuiView {
        if self.selected_offset > 0 {
            TuiView { follow: false, selected_offset: self.selected_offset - 1, ..self }
        } else if self.first_row > 0 {
            TuiView { follow: false, first_row: self.first_row - 1, ..self }
        } else {
            TuiView { follow: false, ..self }
        }
    }

    /// The window at the end of the list, with the last row selected.
    pub open spec fn at_end(self, visible_rows: int, total: int) -> TuiView {
        TuiView {
            first_row: less(total, visible_rows),
            selected_offset: less(visible_rows, 1),
            ..self
        }
    }

    /// The window and the selection moved back into the list.
    pub open spec fn clamped(self, visible_rows: int, total: int) -> TuiView {
        let last_first = less(total, visible_rows);
        let first_row = if self.first_row > last_first {
            last_first
        } else {
            self.first_row
        };
        let shown = if less(total, first_row) < visible_rows {
            less(total, first_row)
        } else {
            visible_rows
        };
        let selected_offset = if shown == 0 {
            0
        } else if self.selected_offset >= shown {
            shown - 1
        } else {
            self.selected_offset
        };
        TuiView { first_row, selected_offset, ..self }
    }

    /// The state before a frame is drawn: at the end of the list while following it.
    pub open spec fn placed(self, visible_rows: int, total: int) -> TuiView {
        if self.follow {
            self.at_end(visible_rows, total).clamped(visible_rows, total)
        } else {
            self.clamped(visible_rows, total)
        }
    }
}

impl TuiState {
    /// The state at the start: following the end of the list.
    pub fn new() -> (r: TuiState)
        ensures
            r@ == (TuiView {
                first_row: 0,
                selected_offset: 0,
                follow: true,
                fold_stacks: false,
                input_mode: InputMode::Normal,
                input: Seq::empty(),
                status: None,
            }),
    {
        TuiState {
            first_row: 0,
            selected_offset: 0,
            follow: true,
            fold_stacks: false,
            input_mode: InputMode::Normal,
            input: String::new(),
            status_message: None,
        }
    }

    /// Shows a message for a while.
    pub fn set_status(&mut self, message: &str, now: u64)
        ensures
            final(self)@ == old(self)@.with_status(message@, now),
    {
        self.status_message = Some((message.to_owned(), now.saturating_add(STATUS_MESSAGE_TTL_MILLIS)));
    }

    /// Takes the message away when its time has come.
    pub fn expire_status_if_due(&mut self, now: u64)
        ensures
            final(self)@ == old(self)@.without_old_status(now),
    {
        let due: bool = match &self.status_message {
            Some(status) => now >= status.1,
            None => false,
        };
        if due {
            self.status_message = None;
        }
    }
}

impl Default for TuiState {
    fn default() -> (r: TuiState)
        ensures
            r@ == (TuiView {
                first_row: 0,
                selected_offset: 0,
                follow: true,
                fold_stacks: false,
                input_mode: InputMode::Normal,
                input: Seq::empty(),
                status: None,
            }),
    {
        TuiState::new()
    }
}

/// Moves the selection down.
pub fn move_selection_down(state: &mut TuiState, visible_rows: usize, total: usize)
    ensures
        final(state)@ == old(state)@.moved_down(visible_rows as int, total as int),
{
    state.follow = false;
    if state.selected_offset < visible_rows.saturating_sub(1) {
        state.selected_offset = state.selected_offset + 1;
    } else if state.first_row < total.saturating_sub(visible_rows) {
        state.first_row = state.first_row + 1;
    }
}

/// Moves the selection up.
pub fn move_selection_up(state: &mut TuiState)
    ensures
        final(state)@ == old(state)@.moved_up(),
{
    state.follow = false;
    if state.selected_offset > 0 {
        state.selected_offset = state.selected_offset - 1;
    } else if state.first_row > 0 {
        state.first_row = state.first_row - 1;
    }
}

/// Moves the window and the selection back into the list.
pub fn clamp_view(state: &mut TuiState, visible_rows: usize, total: usize)
    ensures
        final(state)@ == old(state)@.clamped(visible_rows as int, total as int),
{
    let last_first: usize = total.saturating_sub(visible_rows);
    if state.first_row > last_first {
        state.first_row = last_first;
    }
    let rest: usize = total.saturating_sub(state.first_row);
    let shown: usize = if rest < visible_rows {
        rest
    } else {
        visible_rows
    };
    if shown == 0 {
        state.selected_offset = 0;
    } else if state.selected_offset >= shown {
        state.selected_offset = shown - 1;
    }
}

/// Moves the window to the end of the list.
fn go_to_end(state: &mut TuiState, visible_rows: usize, total: usize)
    ensures
        final(state)@ == old(state)@.at_end(visible_rows as int, total as int),
{
    state.first_row = total.saturating_sub(visible_rows);
    state.selected_offset = visible_rows.saturating_sub(1);
}

/// Prepares the state for a frame.
pub fn place_view(state: &mut TuiState, visible_rows: usize, total: usize)
    ensures
        final(state)@ == old(state)@.placed(visible_rows as int, total as int),
{
    if state.follow {
        go_to_end(state, visible_rows, total);
    }
    clamp_view(state, visible_rows, total);
}

/// A key of the keyboard.
#[derive(Debug, Clone, Copy, PartialEq, Eq, Structural)]
pub enum TuiKey {
    Char(char),
    Up,
    Down,
    Enter,
    Esc,
    Backspace,
    Other,
}

/// The ids of presented rows.
pub open spec fn shown_ids(rows: Seq<RowPresentation>) -> Seq<RowId> {
    rows.map_values(|row: RowPresentation| row.row_id)
}

/// What a key does: the state and the engine after it, and whether the program ends.
#[verifier::ext_equal]
pub ghost struct TuiStep {
    pub state: TuiView,
    pub engine: EngineView,
    pub quit: bool,
}

/// The row that is marked where the rows shown are `ids`.
pub open spec fn marked_row(selected_offset: int, ids: Seq<RowId>) -> RowId {
    if selected_offset < ids.len() {
        ids[selected_offset]
    } else {
        ids[ids.len() - 1]
    }
}

impl TuiView {
    /// Nothing but the state changes.
    pub open spec fn stays(self, engine: EngineView) -> TuiStep {
        TuiStep { state: self, engine, quit: false }
    }

    /// The key `b`: the bookmark of the selected row is toggled.
    pub open spec fn bookmarks(self, engine: EngineView, ids: Seq<RowId>, now: u64) -> TuiStep {
        if ids.len() == 0 {
            self.with_status("no row to bookmark"@, now).stays(engine)
        } else {
            self.stays(
                EngineView {
                    session: SessionView {
                        bookmarks: toggled(
                            engine.session.bookmarks,
                            marked_row(self.selected_offset, ids),
                            None,
                        ),
                        ..engine.session
                    },
                    ..engine
                },
            )
        }
    }

    /// The keys `n` and `N`: the window moves so that the next hit is at the selection.
    pub open spec fn jumps(
        self,
        engine: EngineView,
        ids: Seq<RowId>,
        reverse: bool,
        now: u64,
    ) -> TuiStep {
        let current = if self.selected_offset < ids.len() {
            Some(ids[self.selected_offset])
        } else {
            None
        };
        match hit_after(engine.hits(), current, reverse) {
            None => self.with_status("no search results"@, now).stays(engine),
            Some(row_id) => match place_of(ids_of(engine.listed()), row_id) {
                None => self.stays(engine),
                Some(place) => (TuiView {
                    follow: false,
                    first_row: less(place, self.selected_offset),
                    ..self
                }).stays(engine),
            },
        }
    }

    /// A key in normal mode.
    pub open spec fn normal_key(
        self,
        engine: EngineView,
        key: TuiKey,
        ids: Seq<RowId>,
        visible_rows: int,
        total: int,
        now: u64,
    ) -> TuiStep {
        match key {
            TuiKey::Char(c) => if c == 'q' {
                TuiStep { state: self, engine, quit: true }
            } else if c == 'j' {
                self.moved_down(visible_rows, total).stays(engine)
            } else if c == 'k' {
                self.moved_up().stays(engine)
            } else if c == 'g' {
                (TuiView { follow: false, first_row: 0, selected_offset: 0, ..self }).stays(engine)
            } else if c == 'G' {
                (TuiView { follow: false, ..self }).at_end(visible_rows, total).stays(engine)
            } else if c == 'f' {
                (TuiView { follow: !self.follow, ..self }).stays(engine)
            } else if c == 'b' {
                self.bookmarks(engine, ids, now)
            } else if c == 'z' {
                (TuiView { fold_stacks: !self.fold_stacks, ..self }).stays(
                    EngineView { folding: !self.fold_stacks, ..engine },
                )
            } else if c == 'n' {
                self.jumps(engine, ids, false, now)
            } else if c == 'N' {
                self.jumps(engine, ids, true, now)
            } else if c == '/' {
                (TuiView { input_mode: InputMode::Search, input: Seq::empty(), ..self }).stays(engine)
            } else if c == 'F' {
                (TuiView { input_mode: InputMode::Filter, input: Seq::empty(), ..self }).stays(engine)
            } else {
                self.stays(engine)
            },
            TuiKey::Down => self.moved_down(visible_rows, total).stays(engine),
            TuiKey::Up => self.moved_up().stays(engine),
            _ => self.stays(engine),
        }
    }

    /// The text that was typed in is used.
    pub open spec fn applies_input(self, engine: EngineView, now: u64) -> TuiStep {
        match self.input_mode {
            InputMode::Search => self.stays(
                EngineView {
                    search: if self.input.len() > 0 {
                        Some(self.input)
                    } else {
                        None
                    },
                    ..engine
                },
            ),
            InputMode::Filter => {
                let (next, error) = submitted(engine, self.input);
                match error {
                    Some(text) => self.with_status("filter error: "@ + text, now).stays(next),
                    None => self.stays(next),
                }
            },
            InputMode::Normal => self.stays(engine),
        }
    }

    /// A key while text is typed in.
    pub open spec fn input_key(self, engine: EngineView, key: TuiKey, now: u64) -> TuiStep {
        match key {
            TuiKey::Esc => (TuiView {
                input_mode: InputMode::Normal,
                input: Seq::empty(),
                ..self
            }).stays(engine),
            TuiKey::Enter => {
                let step = self.applies_input(engine, now);
                (TuiView {
                    input_mode: InputMode::Normal,
                    input: Seq::empty(),
                    ..step.state
                }).stays(step.engine)
            },
            TuiKey::Backspace => (TuiView {
                input: if self.input.len() > 0 {
                    self.input.drop_last()
                } else {
                    self.input
                },
                ..self
            }).stays(engine),
            TuiKey::Char(c) => (TuiView { input: self.input.push(c), ..self }).stays(engine),
            _ => self.stays(engine),
        }
    }

    /// What a key does.
    pub open spec fn after_key(
        self,
        engine: EngineView,
        key: TuiKey,
        ids: Seq<RowId>,
        visible_rows: int,
        total: int,
        now: u64,
    ) -> TuiStep {
        if self.input_mode == InputMode::Normal {
            self.normal_key(engine, key, ids, visible_rows, total, now)
        } else {
            self.input_key(engine, key, now)
        }
    }
}

/// Uses the text that was typed in.
pub fn apply_input(engine: &mut Engine, state: &mut TuiState, now: u64)
    requires
        old(engine).wf(),
    ensures
        final(engine).wf(),
        (TuiStep { state: final(state)@, engine: final(engine)@, quit: false }) == old(
            state,
        )@.applies_input(old(engine)@, now),
{
    match state.input_mode {
        InputMode::Search => {
            engine.set_search_text(Some(state.input.clone()));
        },
        InputMode::Filter => {
            if let Some(error) = submit_filter(engine, &state.input) {
                state.set_status(&joined("filter error: ", &error), now);
            }
        },
        InputMode::Normal => {},
    }
}

/// Toggles the bookmark of the selected row.
pub fn toggle_bookmark(
    engine: &mut Engine,
    rows: &Vec<RowPresentation>,
    state: &mut TuiState,
    now: u64,
)
    requires
        old(engine).wf(),
    ensures
        final(engine).wf(),
        (TuiStep { state: final(state)@, engine: final(engine)@, quit: false }) == old(
            state,
        )@.bookmarks(old(engine)@, shown_ids(rows@), now),
{
    if rows.len() == 0 {
        state.set_status("no row to bookmark", now);
        return;
    }
    let last: usize = rows.len() - 1;
    let index: usize = if state.selected_offset < last {
        state.selected_offset
    } else {
        last
    };
    assert(shown_ids(rows@)[index as int] == rows@[index as int].row_id);
    engine.toggle_bookmark(rows[index].row_id, None);
}

/// Moves the window to the next hit of the search.
pub fn jump_to_search(
    engine: &Engine,
    rows: &Vec<RowPresentation>,
    state: &mut TuiState,
    reverse: bool,
    now: u64,
)
    requires
        engine.wf(),
    ensures
        (TuiStep { state: final(state)@, engine: engine@, quit: false }) == old(state)@.jumps(
            engine@,
            shown_ids(rows@),
            reverse,
            now,
        ),
{
    let current: Option<RowId> = if state.selected_offset < rows.len() {
        Some(rows[state.selected_offset].row_id)
    } else {
        None
    };
    match engine.next_search_result(current, reverse) {
        None => {
            state.set_status("no search results", now);
        },
        Some(row_id) => {
            if let Some(position) = engine.filtered_position_for_row(row_id) {
                state.follow = false;
                state.first_row = position.saturating_sub(state.selected_offset);
            }
        },
    }
}

/// Does what a key asks for. `rows` are the rows on the screen, `visible_rows` is how many fit on
/// it, and `total` is how many rows are listed. Returns whether the program is to end.
pub fn handle_key(
    engine: &mut Engine,
    state: &mut TuiState,
    key: TuiKey,
    rows: &Vec<RowPresentation>,
    visible_rows: usize,
    total: usize,
    now: u64,
) -> (r: bool)
    requires
        old(engine).wf(),
    ensures
        final(engine).wf(),
        (TuiStep { state: final(state)@, engine: final(engine)@, quit: r }) == old(
            state,
        )@.after_key(
            old(engine)@,
            key,
            shown_ids(rows@),
            visible_rows as int,
            total as int,
            now,
        ),
{
    let ghost goal = state@.after_key(
        engine@,
        key,
        shown_ids(rows@),
        visible_rows as int,
        total as int,
        now,
    );
    let mut quit: bool = false;
    if state.input_mode == InputMode::Normal {
        match key {
            TuiKey::Char('q') => {
                quit = true;
            },
            TuiKey::Char('j') => {
                move_selection_down(state, visible_rows, total);
            },
            TuiKey::Down => {
                move_selection_down(state, visible_rows, total);
            },
            TuiKey::Char('k') => {
                move_selection_up(state);
            },
            TuiKey::Up => {
                move_selection_up(state);
            },
            TuiKey::Char('g') => {
                state.follow = false;
                state.first_row = 0;
                state.selected_offset = 0;
            },
            TuiKey::Char('G') => {
                state.follow = false;
                go_to_end(state, visible_rows, total);
            },
            TuiKey::Char('f') => {
                state.follow = !state.follow;
            },
            TuiKey::Char('b') => {
                toggle_bookmark(engine, rows, state, now);
            },
            TuiKey::Char('z') => {
                state.fold_stacks = !state.fold_stacks;
                engine.set_stack_trace_folding(state.fold_stacks);
            },
            TuiKey::Char('n') => {
                jump_to_search(engine, rows, state, false, now);
            },
            TuiKey::Char('N') => {
                jump_to_search(engine, rows, state, true, now);
            },
            TuiKey::Char('/') => {
                state.input_mode = InputMode::Search;
                state.input = String::new();
            },
            TuiKey::Char('F') => {
                state.input_mode = InputMode::Filter;
                state.input = String::new();
            },
            _ => {},
        }
    } else {
        match key {
            TuiKey::Esc => {
                state.input_mode = InputMode::Normal;
                state.input = String::new();
            },
            TuiKey::Enter => {
                apply_input(engine, state, now);
                state.input_mode = InputMode::Normal;
                state.input = String::new();
            },
            TuiKey::Backspace => {
                state.input = without_last(&state.input);
            },
            TuiKey::Char(c) => {
                state.input.push(c);
            },
            _ => {},
        }
    }
    assert(state@ =~= goal.state);
    assert(engine@ =~= goal.engine);
    quit
}

/// How many rows fit on a terminal of this height.
pub fn visible_rows(height: u16) -> (r: usize)
    ensures
        r == less(height as int, CHROME_HEIGHT as int),
{
    (height as usize).saturating_sub(CHROME_HEIGHT)
}

// ---------------------------------------------------------------------------
// What is drawn
// ---------------------------------------------------------------------------

/// A colour of the terminal.
#[derive(Debug, Clone, Copy, PartialEq, Eq, Structural)]
pub enum TuiColor {
    Black,
    Red,
    Green,
    Yellow,
    Blue,
    Magenta,
    Cyan,
    DarkGray,
}

/// How a text is drawn; without a colour it is drawn as the terminal does.
#[derive(Debug, Clone, Copy, PartialEq, Eq, Structural)]
pub struct TuiStyle {
    pub fg: Option<TuiColor>,
    pub bg: Option<TuiColor>,
}

/// A text in one colour.
pub open spec fn coloured(color: TuiColor) -> TuiStyle {
    TuiStyle { fg: Some(color), bg: None }
}

/// How a span of a row is drawn.
pub open spec fn style_for(kind: SpanKind) -> TuiStyle {
    match kind {
        SpanKind::Error => coloured(TuiColor::Red),
        SpanKind::Warning => coloured(TuiColor::Yellow),
        SpanKind::SearchMatch => TuiStyle { fg: Some(TuiColor::Black), bg: Some(TuiColor::Green) },
        SpanKind::Timestamp => coloured(TuiColor::Blue),
        SpanKind::JsonKey => coloured(TuiColor::Cyan),
        SpanKind::JsonValue => coloured(TuiColor::Green),
        _ => TuiStyle { fg: None, bg: None },
    }
}

/// How a span of a row is drawn.
pub fn span_style(kind: SpanKind) -> (r: TuiStyle)
    ensures
        r == style_for(kind),
{
    match kind {
        SpanKind::Error => TuiStyle { fg: Some(TuiColor::Red), bg: None },
        SpanKind::Warning => TuiStyle { fg: Some(TuiColor::Yellow), bg: None },
        SpanKind::SearchMatch => TuiStyle { fg: Some(TuiColor::Black), bg: Some(TuiColor::Green) },
        SpanKind::Timestamp => TuiStyle { fg: Some(TuiColor::Blue), bg: None },
        SpanKind::JsonKey => TuiStyle { fg: Some(TuiColor::Cyan), bg: None },
        SpanKind::JsonValue => TuiStyle { fg: Some(TuiColor::Green), bg: None },
        _ => TuiStyle { fg: None, bg: None },
    }
}

/// A piece of a line.
#[derive(Debug, PartialEq, Eq)]
pub struct TuiSpan {
    pub text: String,
    pub style: TuiStyle,
}

/// A piece of a line as a value of mathematics.
pub open spec fn pieces(spans: Seq<TuiSpan>) -> Seq<(Seq<char>, TuiStyle)> {
    spans.map_values(|span: TuiSpan| (span.text@, span.style))
}

/// The pieces of the spans of a row.
pub open spec fn span_pieces(spans: Seq<SpanView>) -> Seq<(Seq<char>, TuiStyle)> {
    spans.map_values(|span: SpanView| (span.text, style_for(span.kind)))
}

/// The line of a row: the cursor, the mark of a bookmark, how many rows are folded, the source,
/// and the spans of the row.
pub open spec fn line_pieces(row: PresentationView, selected: bool) -> Seq<(Seq<char>, TuiStyle)> {
    let cursor = if selected {
        seq![("> "@, coloured(TuiColor::Yellow))]
    } else {
        seq![("  "@, coloured(TuiColor::Yellow))]
    };
    let mark = if row.is_bookmarked {
        seq![("* "@, coloured(TuiColor::Magenta))]
    } else {
        Seq::empty()
    };
    let folded = if row.folded_stack_rows > 0 {
        seq![("+"@ + decimal(row.folded_stack_rows) + " "@, coloured(TuiColor::DarkGray))]
    } else {
        Seq::empty()
    };
    let source = match row.source_name {
        Some(name) => seq![("["@ + name + "] "@, coloured(TuiColor::DarkGray))],
        None => Seq::empty(),
    };
    cursor + mark + folded + source + span_pieces(row.spans)
}

/// Appends a piece.
fn push_piece(line: &mut Vec<TuiSpan>, text: String, style: TuiStyle)
    ensures
        pieces(final(line)@) == pieces(old(line)@).push((text@, style)),
{
    let ghost before = pieces(line@);
    let span = TuiSpan { text, style };
    line.push(span);
    assert(pieces(line@) =~= before.push((text@, style)));
}

/// The line of a row.
pub fn row_line(row: &RowPresentation, selected: bool) -> (r: Vec<TuiSpan>)
    ensures
        pieces(r@) == line_pieces(row@, selected),
{
    let mut line: Vec<TuiSpan> = Vec::new();
    let yellow = TuiStyle { fg: Some(TuiColor::Yellow), bg: None };
    let gray = TuiStyle { fg: Some(TuiColor::DarkGray), bg: None };
    assert(pieces(line@) =~= Seq::<(Seq<char>, TuiStyle)>::empty());
    if selected {
        push_piece(&mut line, "> ".to_owned(), yellow);
    } else {
        push_piece(&mut line, "  ".to_owned(), yellow);
    }
    if row.is_bookmarked {
        push_piece(
            &mut line,
            "* ".to_owned(),
            TuiStyle { fg: Some(TuiColor::Magenta), bg: None },
        );
    }
    if row.folded_stack_rows > 0 {
        let mut text = joined("+", &decimal_text(row.folded_stack_rows as u64));
        text.append(" ");
        push_piece(&mut line, text, gray);
    }
    if let Some(name) = &row.source_name {
        let mut text = joined("[", &**name);
        text.append("] ");
        push_piece(&mut line, text, gray);
    }
    let ghost front = pieces(line@);
    let mut i: usize = 0;
    assert(front =~= front + span_pieces(row@.spans.subrange(0, 0)));
    while i < row.spans.len()
        invariant
            i <= row.spans@.len(),
            pieces(line@) == front + span_pieces(row@.spans.subrange(0, i as int)),
        decreases row.spans@.len() - i,
    {
        let ghost done = pieces(line@);
        let span = &row.spans[i];
        let text: &str = &*span.text;
        push_piece(&mut line, text.to_owned(), span_style(span.kind));
        i += 1;
        proof {
            assert(row@.spans[i - 1] == span@);
            assert(pieces(line@) =~= front + span_pieces(row@.spans.subrange(0, i as int)));
        }
    }
    proof {
        assert(row@.spans.subrange(0, i as int) =~= row@.spans);
        assert(pieces(line@) =~= line_pieces(row@, selected));
    }
    line
}

/// The sources with the number of their rows.
pub open spec fn sources_text(summaries: Seq<SourceSummary>) -> Seq<char>
    decreases summaries.len(),
{
    if summaries.len() == 0 {
        Seq::empty()
    } else {
        let last = summaries.last();
        let entry = chars_in(last.name) + ":"@ + decimal(last.rows as nat);
        if summaries.len() == 1 {
            entry
        } else {
            sources_text(summaries.drop_last()) + " "@ + entry
        }
    }
}

/// The sources with the number of their rows.
fn sources_line(summaries: &Vec<SourceSummary>) -> (r: String)
    ensures
        r@ == sources_text(summaries@),
{
    let mut out: String = String::new();
    let mut i: usize = 0;
    while i < summaries.len()
        invariant
            i <= summaries@.len(),
            out@ == sources_text(summaries@.subrange(0, i as int)),
        decreases summaries@.len() - i,
    {
        let ghost done = out@;
        let mut entry = joined(&*summaries[i].name, ":");
        entry.append(&decimal_text(summaries[i].rows as u64));
        if i > 0 {
            out.append(" ");
        }
        out.append(&entry);
        i += 1;
        proof {
            let next = summaries@.subrange(0, i as int);
            assert(next.drop_last() =~= summaries@.subrange(0, i - 1));
            assert(next.last() == summaries@[i - 1]);
            if i == 1 {
                assert(done =~= Seq::<char>::empty());
                assert(out@ =~= entry@);
            }
        }
    }
    assert(summaries@.subrange(0, i as int) =~= summaries@);
    out
}

/// The status bar.
pub open spec fn status_text(snapshot: ViewportSnapshot, state: TuiView) -> Seq<char> {
    "rows="@ + decimal(snapshot.total_matching_rows as nat) + "/"@ + decimal(
        snapshot.total_rows as nat,
    ) + " warn="@ + decimal(snapshot.level_counts.warn as nat) + " err="@ + decimal(
        (snapshot.level_counts.error + snapshot.level_counts.fatal) as nat,
    ) + " follow="@ + bool_text(state.follow) + " fold="@ + bool_text(state.fold_stacks)
        + " timeline="@ + decimal(snapshot.timeline@.len()) + " mode="@ + state.input_mode.label()
        + " "@ + sources_text(snapshot.source_summaries@) + match state.status {
        Some((message, _)) => " | "@ + message,
        None => Seq::empty(),
    }
}

/// The status bar.
pub fn status_bar(snapshot: &ViewportSnapshot, state: &TuiState) -> (r: String)
    requires
        snapshot.level_counts.error + snapshot.level_counts.fatal <= usize::MAX,
    ensures
        r@ == status_text(*snapshot, state@),
{
    let mut out = joined("rows=", &decimal_text(snapshot.total_matching_rows as u64));
    out.append("/");
    out.append(&decimal_text(snapshot.total_rows as u64));
    out.append(" warn=");
    out.append(&decimal_text(snapshot.level_counts.warn as u64));
    out.append(" err=");
    let errors: usize = snapshot.level_counts.error + snapshot.level_counts.fatal;
    out.append(&decimal_text(errors as u64));
    out.append(" follow=");
    out.append(bool_name(state.follow));
    out.append(" fold=");
    out.append(bool_name(state.fold_stacks));
    out.append(" timeline=");
    out.append(&decimal_text(snapshot.timeline.len() as u64));
    out.append(" mode=");
    out.append(state.input_mode.name());
    out.append(" ");
    out.append(&sources_line(&snapshot.source_summaries));
    match &state.status_message {
        Some(status) => {
            let ghost before = out@;
            out.append(" | ");
            out.append(&status.0);
            assert(out@ =~= before + (" | "@ + status.0@));
        },
        None => {
            assert(out@ =~= out@ + Seq::<char>::empty());
        },
    }
    out
}

/// The help line.
pub open spec fn help_text(input: Seq<char>) -> Seq<char> {
    "q quit | j/k select | f follow | b bookmark | z fold | / search | n/N next | F query | Esc clear | input="@
        + input
}

/// The help line.
pub fn help_line(input: &str) -> (r: String)
    ensures
        r@ == help_text(input@),
{
    joined(
        "q quit | j/k select | f follow | b bookmark | z fold | / search | n/N next | F query | Esc clear | input=",
        input,
    )
}

/// A screen of the terminal.
#[derive(Debug, PartialEq, Eq)]
pub struct TuiFrame {
    pub status: String,
    pub lines: Vec<Vec<TuiSpan>>,
    /// The line of the selected row, which has a background of its own.
    pub selected: usize,
    pub help: String,
}

/// The line of the screen that is selected.
pub open spec fn selected_line(selected_offset: int, count: int) -> int {
    if selected_offset < less(count, 1) {
        selected_offset
    } else {
        less(count, 1)
    }
}

/// Draws a screen.
pub fn draw(snapshot: &ViewportSnapshot, state: &TuiState) -> (r: TuiFrame)
    requires
        snapshot.level_counts.error + snapshot.level_counts.fatal <= usize::MAX,
    ensures
        r.status@ == status_text(*snapshot, state@),
        r.help@ == help_text(state@.input),
        r.selected == selected_line(state@.selected_offset, snapshot.rows@.len() as int),
        r.lines@.len() == snapshot.rows@.len(),
        forall|i: int|
            0 <= i < r.lines@.len() ==> pieces((#[trigger] r.lines@[i])@) == line_pieces(
                snapshot.rows@[i]@,
                i == r.selected,
            ),
{
    let last: usize = snapshot.rows.len().saturating_sub(1);
    let selected: usize = if state.selected_offset < last {
        state.selected_offset
    } else {
        last
    };
    let mut lines: Vec<Vec<TuiSpan>> = Vec::new();
    let mut i: usize = 0;
    while i < snapshot.rows.len()
        invariant
            i <= snapshot.rows@.len(),
            lines@.len() == i,
            forall|k: int|
                0 <= k < i ==> pieces((#[trigger] lines@[k])@) == line_pieces(
                    snapshot.rows@[k]@,
                    k == selected,
                ),
        decreases snapshot.rows@.len() - i,
    {
        let line = row_line(&snapshot.rows[i], i == selected);
        lines.push(line);
        i += 1;
    }
    TuiFrame {
        status: status_bar(snapshot, state),
        lines,
        selected,
        help: help_line(&state.input),
    }
}

// ---------------------------------------------------------------------------
// Laws
// ---------------------------------------------------------------------------

/// However the state was, clamping leaves the window within the list and the selection on a row
/// of it, and clamping again changes nothing.
pub proof fn law_clamped_view_is_in_the_list(state: TuiView, visible_rows: int, total: int)
    requires
        state.first_row >= 0,
        state.selected_offset >= 0,
        visible_rows >= 0,
        total >= 0,
    ensures
        ({
            let clamped = state.clamped(visible_rows, total);
            &&& 0 <= clamped.first_row <= less(total, visible_rows)
            &&& total > 0 && visible_rows > 0 ==> clamped.selected_offset < visible_rows
                && clamped.first_row + clamped.selected_offset < total
            &&& clamped.clamped(visible_rows, total) == clamped
        }),
{
    let clamped = state.clamped(visible_rows, total);
    assert(clamped.clamped(visible_rows, total) =~= clamped);
}

/// While following, the last row of the list is selected.
pub proof fn law_following_selects_the_last_row(state: TuiView, visible_rows: int, total: int)
    requires
        state.follow,
        visible_rows > 0,
        total > 0,
    ensures
        ({
            let placed = state.placed(visible_rows, total);
            placed.first_row + placed.selected_offset == total - 1
        }),
{
}

/// Moving down goes one row further, except on the last row; moving up goes back.
pub proof fn law_moves_go_one_row(state: TuiView, visible_rows: int, total: int)
    requires
        visible_rows > 0,
        0 <= state.first_row,
        0 <= state.selected_offset < visible_rows,
        state.first_row + state.selected_offset < total,
        state.first_row <= less(total, visible_rows),
    ensures
        ({
            let here = state.first_row + state.selected_offset;
            let down = state.moved_down(visible_rows, total);
            let up = down.moved_up();
            &&& here + 1 < total ==> down.first_row + down.selected_offset == here + 1
                && up.first_row + up.selected_offset == here
            &&& total >= visible_rows && here + 1 == total ==> down.first_row
                + down.selected_offset == here
        }),
{
}

/// A status message is there until its time has come, and not after that.
pub proof fn law_status_lasts_its_time(state: TuiView, message: Seq<char>, now: u64, later: u64)
    requires
        now + STATUS_MESSAGE_TTL_MILLIS <= u64::MAX,
    ensures
        state.with_status(message, now).without_old_status(later).status is Some == (later < now
            + STATUS_MESSAGE_TTL_MILLIS),
{
}

/// Escape leaves the engine as it is, whatever was typed in.
pub proof fn law_escape_discards_input(state: TuiView, engine: EngineView, ids: Seq<RowId>, now: u64)
    requires
        state.input_mode != InputMode::Normal,
    ensures
        ({
            let step = state.after_key(engine, TuiKey::Esc, ids, 0, 0, now);
            step.engine == engine && step.state.input.len() == 0 && step.state.input_mode
                == InputMode::Normal && !step.quit
        }),
{
}

/// The keys of the terminal while no text is typed in: `q` ends the program and no other key does;
/// `f` and `z` switch following and folding; `g` and `G` go to the first and the last row; `/` and
/// `F` begin the text of a search and of a filter. None of them changes anything else.
#[verifier::spinoff_prover]
pub proof fn law_keys_of_the_terminal(
    state: TuiView,
    engine: EngineView,
    ids: Seq<RowId>,
    visible_rows: int,
    total: int,
    now: u64,
    c: char,
)
    requires
        state.input_mode == InputMode::Normal,
        0 < visible_rows,
        0 <= total,
    ensures
        ({
            let step = state.after_key(engine, TuiKey::Char(c), ids, visible_rows, total, now);
            &&& step.quit <==> c == 'q'
            &&& c == 'q' ==> step.state == state && step.engine == engine
            &&& c == 'f' ==> step.engine == engine && step.state == (TuiView {
                follow: !state.follow,
                ..state
            })
            &&& c == 'z' ==> step.engine.folding == !state.fold_stacks && step.state == (TuiView {
                fold_stacks: !state.fold_stacks,
                ..state
            }) && step.engine.filter == engine.filter && step.engine.index == engine.index
            &&& c == 'g' ==> step.engine == engine && step.state.first_row
                + step.state.selected_offset == 0 && !step.state.follow
            &&& c == 'G' && total > 0 && visible_rows <= total ==> step.engine == engine
                && step.state.first_row + step.state.selected_offset == total - 1
                && !step.state.follow
            &&& c == '/' ==> step.engine == engine && step.state.input_mode == InputMode::Search
                && step.state.input.len() == 0
            &&& c == 'F' ==> step.engine == engine && step.state.input_mode == InputMode::Filter
                && step.state.input.len() == 0
            &&& step.engine.index == engine.index && step.engine.filter == engine.filter
                && step.engine.search == engine.search && step.engine.sources == engine.sources
        }),
{
}

/// While text is typed in, a character goes to its end and backspace takes it away again; enter uses
/// the text, as a search or as a filter, and leaves the input; no key ends the program.
pub proof fn law_typing_in_the_terminal(
    state: TuiView,
    engine: EngineView,
    ids: Seq<RowId>,
    c: char,
    now: u64,
)
    requires
        state.input_mode != InputMode::Normal,
    ensures
        ({
            let typed = state.after_key(engine, TuiKey::Char(c), ids, 0, 0, now);
            let back = typed.state.after_key(engine, TuiKey::Backspace, ids, 0, 0, now);
            let used = state.after_key(engine, TuiKey::Enter, ids, 0, 0, now);
            &&& typed.engine == engine && typed.state.input == state.input.push(c) && !typed.quit
            &&& back.engine == engine && back.state == state && !back.quit
            &&& used.state.input_mode == InputMode::Normal && used.state.input.len() == 0
                && !used.quit
            &&& state.input_mode == InputMode::Search ==> used.engine == (EngineView {
                search: if state.input.len() > 0 {
                    Some(state.input)
                } else {
                    None
                },
                ..engine
            })
            &&& state.input_mode == InputMode::Filter ==> used.engine == submitted(
                engine,
                state.input,
            ).0 && (submitted(engine, state.input).1 is Some ==> used.state.status is Some)
        }),
{
    let typed = state.after_key(engine, TuiKey::Char(c), ids, 0, 0, now);
    let back = typed.state.after_key(engine, TuiKey::Backspace, ids, 0, 0, now);
    assert(state.input.push(c).drop_last() =~= state.input);
    assert(back.state =~= state);
}

/// The key `b` toggles the bookmark of the selected row and nothing else; without rows it says so.
pub proof fn law_bookmarks_in_the_terminal(
    state: TuiView,
    engine: EngineView,
    ids: Seq<RowId>,
    now: u64,
)
    requires
        state.input_mode == InputMode::Normal,
        0 <= state.selected_offset,
    ensures
        ({
            let step = state.after_key(engine, TuiKey::Char('b'), ids, 0, 0, now);
            &&& ids.len() == 0 ==> step.engine == engine && step.state.status is Some
            &&& state.selected_offset < ids.len() ==> step.state == state && step.engine == (
            EngineView {
                session: SessionView {
                    bookmarks: toggled(
                        engine.session.bookmarks,
                        ids[state.selected_offset],
                        None,
                    ),
                    ..engine.session
                },
                ..engine
            })
        }),
{
}

/// The keys `n` and `N` bring the next and the previous hit to the selection, where the list reaches
/// far enough, and end following; where there are none they say so.
pub proof fn law_hits_in_the_terminal(
    state: TuiView,
    engine: EngineView,
    ids: Seq<RowId>,
    reverse: bool,
    now: u64,
)
    requires
        state.input_mode == InputMode::Normal,
        0 <= state.selected_offset < ids.len(),
    ensures
        ({
            let key = if reverse {
                TuiKey::Char('N')
            } else {
                TuiKey::Char('n')
            };
            let step = state.after_key(engine, key, ids, 0, 0, now);
            let hit = hit_after(engine.hits(), Some(ids[state.selected_offset]), reverse);
            &&& step.engine == engine
            &&& hit is None ==> step.state.status is Some && step.state.first_row
                == state.first_row
            &&& hit matches Some(row_id) ==> (place_of(ids_of(engine.listed()), row_id)
                matches Some(place) ==> !step.state.follow && (place >= state.selected_offset
                ==> step.state.first_row + step.state.selected_offset == place))
        }),
{
}

/// A line of the terminal shows the cursor where it is selected, a star where it is bookmarked, how
/// many rows are folded, the name of the source and the row; errors are red, warnings yellow and
/// matches stand on green.
pub proof fn law_lines_of_the_terminal(row: PresentationView, selected: bool)
    ensures
        ({
            let line = line_pieces(row, selected);
            let n = row.spans.len();
            &&& line.len() >= n + 1
            &&& line[0].0 == if selected {
                "> "@
            } else {
                "  "@
            }
            &&& row.is_bookmarked ==> line[1].0 == "* "@
            &&& forall|i: int|
                0 <= i < n ==> (#[trigger] line[line.len() - n + i]).0 == row.spans[i].text
            &&& style_for(SpanKind::Error).fg == Some(TuiColor::Red)
            &&& style_for(SpanKind::Warning).fg == Some(TuiColor::Yellow)
            &&& style_for(SpanKind::SearchMatch).bg == Some(TuiColor::Green)
        }),
{
}

/// The status bar tells the listed and the held rows, the warnings, the errors of both kinds, whether
/// the list is followed and traces are folded, how many buckets the timeline has, and the mode.
pub proof fn law_status_bar_of_the_terminal(snapshot: ViewportSnapshot, state: TuiView)
    requires
        state.status is None,
        snapshot.source_summaries@.len() == 0,
    ensures
        status_text(snapshot, state) == "rows="@ + decimal(snapshot.total_matching_rows as nat)
            + "/"@ + decimal(snapshot.total_rows as nat) + " warn="@ + decimal(
            snapshot.level_counts.warn as nat,
        ) + " err="@ + decimal(
            (snapshot.level_counts.error + snapshot.level_counts.fatal) as nat,
        ) + " follow="@ + (if state.follow {
            "true"@
        } else {
            "false"@
        }) + " fold="@ + (if state.fold_stacks {
            "true"@
        } else {
            "false"@
        }) + " timeline="@ + decimal(snapshot.timeline@.len()) + " mode="@ + (
        match state.input_mode {
            InputMode::Normal => "Normal"@,
            InputMode::Search => "Search"@,
            InputMode::Filter => "Filter"@,
        }) + " "@,
{
    let text = status_text(snapshot, state);
    assert(sources_text(snapshot.source_summaries@) =~= Seq::<char>::empty());
    assert(text + Seq::<char>::empty() =~= text);
    assert(forall|s: Seq<char>| #[trigger] (s + Seq::<char>::empty()) =~= s);
}

/// A message stands in the status bar for four seconds, as far as there is time.
pub proof fn law_messages_stand_for_four_seconds(now: u64)
    ensures
        now + 4_000 <= u64::MAX ==> expiry(now) == now + 4_000,
        now + 4_000 > u64::MAX ==> expiry(now) == u64::MAX,
{
}

} // verus!
