//! The desktop front-end with a list that scrolls: its state, its actions and what it shows.
use crate::events::{event_views, EventView, LogEvent};
use crate::iced::{lemma_rows_of_part, level_label, level_text, rows_in_all};
use crate::model::{
    PresentationView, RowId, RowPresentation, SeverityRole, SourceSummary, SpanKind, SpanView,
    TimelineBucket, ViewportSnapshot,
};
use crate::session::{toggled, InvestigationSession, SavedView, SessionView};
use crate::startup::{applied, optional_level, try_apply_filters, LevelArg};
use crate::text::{
    chars_of, decimal, decimal_text, is_control, is_control_char, joined, optional_text, same_text,
    trim, trimmed, without_last,
};
use crate::ui::{absorb_event, reversed, rgb, rgb_of, rows_in, Rgb};
use crate::viewport::{hit_after, ids_of, place_of, Engine, EngineView};
use vstd::prelude::*;
use vstd::string::*;

verus! {

/// How many rows a page is taken to have.
pub const PAGE_SIZE_HINT: usize = 25;

/// How often the window is refreshed, in milliseconds.
pub const LIVE_REFRESH_MILLIS: u64 = 16;

// ---------------------------------------------------------------------------
// Small decisions
// ---------------------------------------------------------------------------

/// The saved filter after `current` in the cycle from none through each of `total`.
pub open spec fn cycle_after(current: Option<int>, total: int) -> Option<int> {
    if total == 0 {
        None
    } else {
        match current {
            None => Some(0int),
            Some(index) => if index + 1 >= total {
                None
            } else {
                Some(index + 1)
            },
        }
    }
}

/// The index of an optional machine number.
pub open spec fn index_of(index: Option<usize>) -> Option<int> {
    match index {
        Some(index) => Some(index as int),
        None => None,
    }
}

/// The saved filter after `current` in the cycle.
pub fn next_saved_filter_cycle(current: Option<usize>, total: usize) -> (r: Option<usize>)
    ensures
        index_of(r) == cycle_after(index_of(current), total as int),
{
    if total == 0 {
        return None;
    }
    match current {
        None => Some(0),
        Some(index) => if index >= total - 1 {
            None
        } else {
            Some(index + 1)
        },
    }
}

/// `value` moved into the range from 0 to `max`.
pub open spec fn clamped_to(value: int, max: int) -> int {
    if value < 0 {
        0
    } else if value > max {
        max
    } else {
        value
    }
}

/// The position `delta` rows from `current`, within the list. From nowhere it is the first one
/// downwards and the last one upwards.
pub open spec fn position_after(current: Option<int>, delta: int, total: int) -> Option<int> {
    if total == 0 {
        None
    } else {
        match current {
            None => if delta >= 0 {
                Some(0int)
            } else {
                Some(total - 1)
            },
            Some(position) => Some(clamped_to(position + delta, total - 1)),
        }
    }
}

/// The position `delta` rows from `current`, within the list.
pub fn next_selected_position(current: Option<usize>, delta: isize, total: usize) -> (r: Option<
    usize,
>)
    ensures
        index_of(r) == position_after(index_of(current), delta as int, total as int),
{
    if total == 0 {
        return None;
    }
    match current {
        None => if delta >= 0 {
            Some(0)
        } else {
            Some(total - 1)
        },
        Some(position) => Some(moved_within(position, delta, total - 1)),
    }
}

/// `position` moved by `delta`, within the range up to `max`.
fn moved_within(position: usize, delta: isize, max: usize) -> (r: usize)
    ensures
        r == clamped_to(position + delta, max as int),
{
    let moved: usize = if delta >= 0 {
        position.saturating_add(delta as usize)
    } else {
        // The distance is taken one short first, as it may not fit the signed type.
        let short: usize = (-(delta + 1)) as usize;
        position.saturating_sub(short).saturating_sub(1)
    };
    if moved > max {
        max
    } else {
        moved
    }
}

/// The character that a key types into an input: a single character that is no control
/// character, without a modifier.
pub open spec fn typed_char(
    text: Option<Seq<char>>,
    has_command: bool,
    has_control: bool,
    has_alt: bool,
    has_function: bool,
) -> Option<char> {
    match text {
        Some(text) => if has_command || has_control || has_alt || has_function {
            None
        } else if text.len() != 1 || is_control(text[0]) {
            None
        } else {
            Some(text[0])
        },
        None => None,
    }
}

/// The characters of an optional text.
pub open spec fn optional_chars(text: Option<&str>) -> Option<Seq<char>> {
    match text {
        Some(text) => Some(text@),
        None => None,
    }
}

/// The character that a key types into an input.
pub fn keystroke_to_input_char(
    key_char: Option<&str>,
    has_command: bool,
    has_control: bool,
    has_alt: bool,
    has_function: bool,
) -> (r: Option<char>)
    ensures
        r == typed_char(
            optional_chars(key_char),
            has_command,
            has_control,
            has_alt,
            has_function,
        ),
{
    if has_command || has_control || has_alt || has_function {
        return None;
    }
    match key_char {
        Some(text) => {
            let chars = chars_of(text);
            if chars.len() != 1 || is_control_char(chars[0]) {
                None
            } else {
                Some(chars[0])
            }
        },
        None => None,
    }
}

/// A line of text that is typed in: characters are added and taken away at its end.
#[derive(Debug, Clone)]
pub struct TextInputState {
    value: String,
}

impl View for TextInputState {
    type V = Seq<char>;

    closed spec fn view(&self) -> Seq<char> {
        self.value@
    }
}

/// The text of an optional text, empty where there is none.
pub open spec fn text_or_empty(text: Option<Seq<char>>) -> Seq<char> {
    match text {
        Some(text) => text,
        None => Seq::empty(),
    }
}

impl TextInputState {
    /// An input that holds `initial`.
    pub fn new(initial: Option<String>) -> (r: TextInputState)
        ensures
            r@ == text_or_empty(optional_text(initial)),
    {
        match initial {
            Some(value) => TextInputState { value },
            None => TextInputState { value: String::new() },
        }
    }

    /// Adds a character.
    pub fn append_char(&mut self, c: char)
        ensures
            final(self)@ == old(self)@.push(c),
    {
        self.value.push(c);
    }

    /// Takes the last character away.
    pub fn backspace(&mut self)
        ensures
            final(self)@ == if old(self)@.len() > 0 {
                old(self)@.drop_last()
            } else {
                old(self)@
            },
    {
        self.value = without_last(&self.value);
    }

    /// The text.
    pub fn value(&self) -> (r: &str)
        ensures
            r@ == self@,
    {
        self.value.as_str()
    }
}

impl Default for TextInputState {
    fn default() -> (r: TextInputState)
        ensures
            r@ == Seq::<char>::empty(),
    {
        TextInputState { value: String::new() }
    }
}

/// Taking away a character that was just typed restores the text.
pub proof fn law_backspace_undoes_typing(text: Seq<char>, c: char)
    ensures
        text.push(c).drop_last() == text,
{
    assert(text.push(c).drop_last() =~= text);
}

/// A command of the palette.
#[derive(Debug, Clone, PartialEq, Eq)]
pub enum PaletteCommand {
    ClearFilter,
    ClearSearch,
    NextSearch,
    PrevSearch,
    ToggleBookmark,
    ToggleFollow,
    ApplySavedFilter(String),
    Quit,
}

/// A command as a value of mathematics.
pub ghost enum CommandView {
    ClearFilter,
    ClearSearch,
    NextSearch,
    PrevSearch,
    ToggleBookmark,
    ToggleFollow,
    ApplySavedFilter(Seq<char>),
    Quit,
}

impl View for PaletteCommand {
    type V = CommandView;

    open spec fn view(&self) -> CommandView {
        match *self {
            PaletteCommand::ClearFilter => CommandView::ClearFilter,
            PaletteCommand::ClearSearch => CommandView::ClearSearch,
            PaletteCommand::NextSearch => CommandView::NextSearch,
            PaletteCommand::PrevSearch => CommandView::PrevSearch,
            PaletteCommand::ToggleBookmark => CommandView::ToggleBookmark,
            PaletteCommand::ToggleFollow => CommandView::ToggleFollow,
            PaletteCommand::ApplySavedFilter(name) => CommandView::ApplySavedFilter(name@),
            PaletteCommand::Quit => CommandView::Quit,
        }
    }
}

/// What a command is called.
pub open spec fn command_label(command: CommandView) -> Seq<char> {
    match command {
        CommandView::ClearFilter => "Clear filter (text and level)"@,
        CommandView::ClearSearch => "Clear search"@,
        CommandView::NextSearch => "Next search match"@,
        CommandView::PrevSearch => "Previous search match"@,
        CommandView::ToggleBookmark => "Toggle bookmark on selected row"@,
        CommandView::ToggleFollow => "Toggle follow mode"@,
        CommandView::ApplySavedFilter(name) => "Apply saved filter: "@ + name,
        CommandView::Quit => "Quit"@,
    }
}

impl PaletteCommand {
    /// What the command is called.
    pub fn label(&self) -> (r: String)
        ensures
            r@ == command_label(self@),
    {
        match self {
            PaletteCommand::ClearFilter => "Clear filter (text and level)".to_owned(),
            PaletteCommand::ClearSearch => "Clear search".to_owned(),
            PaletteCommand::NextSearch => "Next search match".to_owned(),
            PaletteCommand::PrevSearch => "Previous search match".to_owned(),
            PaletteCommand::ToggleBookmark => "Toggle bookmark on selected row".to_owned(),
            PaletteCommand::ToggleFollow => "Toggle follow mode".to_owned(),
            PaletteCommand::ApplySavedFilter(name) => joined("Apply saved filter: ", name),
            PaletteCommand::Quit => "Quit".to_owned(),
        }
    }
}

/// The commands of a list.
pub open spec fn command_views(commands: Seq<PaletteCommand>) -> Seq<CommandView> {
    commands.map_values(|command: PaletteCommand| command@)
}

/// The commands of the palette: the fixed ones, one for each saved filter, and the last one.
pub open spec fn palette_of(saved: Seq<SavedView>) -> Seq<CommandView> {
    seq![
        CommandView::ClearFilter,
        CommandView::ClearSearch,
        CommandView::NextSearch,
        CommandView::PrevSearch,
        CommandView::ToggleBookmark,
        CommandView::ToggleFollow,
    ] + saved.map_values(|entry: SavedView| CommandView::ApplySavedFilter(entry.name)) + seq![
        CommandView::Quit,
    ]
}

/// The index of the first saved filter with this name.
pub open spec fn saved_place(saved: Seq<SavedView>, name: Seq<char>, from: int) -> Option<int>
    decreases saved.len() - from,
{
    if from < 0 || from >= saved.len() {
        None
    } else if saved[from].name == name {
        Some(from)
    } else {
        saved_place(saved, name, from + 1)
    }
}

/// The input that takes the keys.
#[derive(Debug, Clone, Copy, PartialEq, Eq, Structural)]
pub enum InputFocus {
    Nowhere,
    Filter,
    Search,
}

// ---------------------------------------------------------------------------
// State and actions
// ---------------------------------------------------------------------------

/// Where the list is to scroll.
#[derive(Debug, Clone, Copy, PartialEq, Eq, Structural)]
pub enum ScrollTo {
    /// This row at the top.
    Top(usize),
    /// This row somewhere in sight.
    Reveal(usize),
}

/// What the window has to do after an action.
#[derive(Debug, Clone, Copy, PartialEq, Eq, Structural)]
pub struct Effects {
    pub scroll: Option<ScrollTo>,
    /// What is shown beside the list is to be taken from the engine again.
    pub refresh: bool,
    /// The session is to be saved.
    pub save: bool,
    /// The program is to end.
    pub quit: bool,
}

/// Nothing to do.
pub open spec fn no_effects() -> Effects {
    Effects { scroll: None, refresh: false, save: false, quit: false }
}

/// Nothing to do.
fn nothing() -> (r: Effects)
    ensures
        r == no_effects(),
{
    Effects { scroll: None, refresh: false, save: false, quit: false }
}

/// Something that the user asks for.
#[derive(Debug, Clone, Copy, PartialEq, Eq, Structural)]
pub enum ListAction {
    ScrollUp,
    ScrollDown,
    PageUp,
    PageDown,
    ScrollHome,
    ScrollEnd,
    ToggleFollow,
    SetLevel(Option<LevelArg>),
    CycleSavedFilter,
    FocusFilterInput,
    FocusSearchInput,
    BlurInput,
    SubmitInput,
    InputBackspace,
    TypeChar(char),
    SelectUp,
    SelectDown,
    SelectPageUp,
    SelectPageDown,
    ToggleBookmark,
    NextSearchMatch,
    PrevSearchMatch,
    ClearSearch,
    TogglePalette,
}

/// The state of the front-end. `item_count` is how many rows the list was given last.
#[derive(Debug)]
pub struct ListApp {
    pub engine: Engine,
    pub item_count: usize,
    pub live: bool,
    pub status_message: Option<String>,
    pub follow: bool,
    pub pending_initial_scroll: bool,
    pub current_level: Option<LevelArg>,
    pub current_use_filter: Option<String>,
    pub current_text: Option<String>,
    pub current_search: Option<String>,
    pub saved_filter_cycle_idx: Option<usize>,
    pub filter_input: TextInputState,
    pub search_input: TextInputState,
    pub input_focus: InputFocus,
    pub selected_row_id: Option<RowId>,
    pub palette_open: bool,
    pub palette_cursor: usize,
}

/// The state as a value of mathematics.
#[verifier::ext_equal]
pub ghost struct ListState {
    pub engine: EngineView,
    pub item_count: int,
    pub live: bool,
    pub status: Option<Seq<char>>,
    pub follow: bool,
    pub pending_scroll: bool,
    pub level: Option<LevelArg>,
    pub use_filter: Option<Seq<char>>,
    pub text: Option<Seq<char>>,
    pub search: Option<Seq<char>>,
    pub cycle: Option<int>,
    pub filter_input: Seq<char>,
    pub search_input: Seq<char>,
    pub focus: InputFocus,
    pub selected: Option<RowId>,
    pub palette_open: bool,
    pub palette_cursor: int,
}

impl View for ListApp {
    type V = ListState;

    open spec fn view(&self) -> ListState {
        ListState {
            engine: self.engine@,
            item_count: self.item_count as int,
            live: self.live,
            status: optional_text(self.status_message),
            follow: self.follow,
            pending_scroll: self.pending_initial_scroll,
            level: self.current_level,
            use_filter: optional_text(self.current_use_filter),
            text: optional_text(self.current_text),
            search: optional_text(self.current_search),
            cycle: index_of(self.saved_filter_cycle_idx),
            filter_input: self.filter_input@,
            search_input: self.search_input@,
            focus: self.input_focus,
            selected: self.selected_row_id,
            palette_open: self.palette_open,
            palette_cursor: self.palette_cursor as int,
        }
    }
}

/// A step of the front-end.
#[verifier::ext_equal]
pub ghost struct ListStep {
    pub state: ListState,
    pub effects: Effects,
}

/// How far the keys that scroll the list move the highlight while the palette is open.
pub open spec fn palette_step(action: ListAction) -> Option<isize> {
    match action {
        ListAction::ScrollUp => Some(-1isize),
        ListAction::ScrollDown => Some(1isize),
        ListAction::PageUp => Some((-PAGE_SIZE_HINT) as isize),
        ListAction::PageDown => Some(PAGE_SIZE_HINT as isize),
        _ => None,
    }
}

/// How far the keys that scroll the list move the highlight while the palette is open.
fn palette_distance(action: ListAction) -> (r: Option<isize>)
    ensures
        r == palette_step(action),
{
    match action {
        ListAction::ScrollUp => Some(-1),
        ListAction::ScrollDown => Some(1),
        ListAction::PageUp => Some(-(PAGE_SIZE_HINT as isize)),
        ListAction::PageDown => Some(PAGE_SIZE_HINT as isize),
        _ => None,
    }
}

/// The last row of a list in sight; nothing where there are no rows.
pub open spec fn reveal_last(count: int) -> Option<ScrollTo> {
    if count > 0 {
        Some(ScrollTo::Reveal((count - 1) as usize))
    } else {
        None
    }
}

impl ListState {
    /// Keys type into an input or move in the palette.
    pub open spec fn input_focused(self) -> bool {
        self.focus != InputFocus::Nowhere || self.palette_open
    }

    /// Nothing for the window to do.
    pub open spec fn quietly(self) -> ListStep {
        ListStep { state: self, effects: no_effects() }
    }

    /// The list scrolls.
    pub open spec fn scrolling(self, scroll: Option<ScrollTo>) -> ListStep {
        ListStep { state: self, effects: Effects { scroll, ..no_effects() } }
    }

    /// The state with a message.
    pub open spec fn saying(self, message: Seq<char>) -> ListState {
        ListState { status: Some(message), ..self }
    }

    /// The list is given its rows anew; while following, the last one is in sight.
    pub open spec fn refreshed(self) -> ListStep {
        let count = self.engine.listed().len() as int;
        ListStep {
            state: ListState { item_count: count, ..self },
            effects: Effects {
                scroll: if self.follow {
                    reveal_last(count)
                } else {
                    None
                },
                refresh: true,
                ..no_effects()
            },
        }
    }

    /// The filters that are chosen put to use.
    pub open spec fn recomputed(self) -> ListStep {
        let (engine, error) = applied(
            self.engine,
            self.text,
            optional_level(self.level),
            self.use_filter,
            None,
        );
        match error {
            Some(text) => self.saying("filter error: "@ + text).quietly(),
            None => (ListState { engine, ..self }).refreshed(),
        }
    }

    /// The list scrolled by `delta` rows from the row at its top.
    pub open spec fn scrolled(self, top: int, delta: int) -> ListStep {
        if self.item_count == 0 {
            self.quietly()
        } else {
            self.scrolling(
                Some(ScrollTo::Top(clamped_to(top + delta, self.item_count - 1) as usize)),
            )
        }
    }

    /// The lowest severity chosen.
    pub open spec fn level_chosen(self, level: Option<LevelArg>) -> ListStep {
        (ListState { level, ..self }).saying(
            match level {
                None => "level filter cleared"@,
                Some(_) => "level filter: "@ + level_text(level),
            },
        ).recomputed()
    }

    /// The next saved filter chosen.
    pub open spec fn saved_cycled(self) -> ListStep {
        let saved = self.engine.session.saved;
        if saved.len() == 0 {
            self.saying("no saved filters in session"@).quietly()
        } else {
            let next = cycle_after(self.cycle, saved.len() as int);
            match next {
                None => (ListState { cycle: next, use_filter: None, ..self }).saying(
                    "saved filter cleared"@,
                ).recomputed(),
                Some(index) => (ListState {
                    cycle: next,
                    use_filter: Some(saved[index].name),
                    ..self
                }).saying("saved filter: "@ + saved[index].name).recomputed(),
            }
        }
    }

    /// The next hit of the search selected.
    pub open spec fn match_jumped(self, reverse: bool) -> ListStep {
        match hit_after(self.engine.hits(), self.selected, reverse) {
            None => self.saying("no search matches"@).quietly(),
            Some(row_id) => (ListState { selected: Some(row_id), follow: false, ..self }).scrolling(
                match place_of(ids_of(self.engine.listed()), row_id) {
                    Some(place) => Some(ScrollTo::Reveal(place as usize)),
                    None => None,
                },
            ),
        }
    }

    /// The search given up.
    pub open spec fn search_cleared(self) -> ListStep {
        (ListState {
            search: None,
            search_input: Seq::empty(),
            engine: EngineView { search: None, ..self.engine },
            ..self
        }).saying("search cleared"@).refreshed()
    }

    /// The bookmark of the selected row toggled.
    pub open spec fn bookmark_toggled(self) -> ListStep {
        match self.selected {
            None => self.saying("select a row first (press j/k)"@).quietly(),
            Some(row_id) => {
                let marks = self.engine.session.bookmarks;
                let next = ListState {
                    engine: EngineView {
                        session: SessionView {
                            bookmarks: toggled(marks, row_id, None),
                            ..self.engine.session
                        },
                        ..self.engine
                    },
                    ..self
                };
                let message = if crate::session::has_bookmark(marks, row_id) {
                    "removed bookmark on row "@ + decimal(row_id.0 as nat)
                } else {
                    "bookmarked row "@ + decimal(row_id.0 as nat)
                };
                ListStep {
                    state: next.saying(message),
                    effects: Effects { save: true, ..no_effects() },
                }
            },
        }
    }

    /// Following switched on or off.
    pub open spec fn follow_toggled(self) -> ListStep {
        (ListState { follow: !self.follow, ..self }).scrolling(
            if self.follow {
                None
            } else {
                reveal_last(self.item_count)
            },
        )
    }

    /// The selection moved by `delta` rows.
    pub open spec fn selection_moved(self, delta: int) -> ListStep {
        let place = match self.selected {
            Some(row_id) => place_of(ids_of(self.engine.listed()), row_id),
            None => None,
        };
        match position_after(place, delta, self.item_count) {
            None => (ListState { selected: None, ..self }).quietly(),
            Some(next) => (ListState {
                selected: if next < self.engine.listed().len() {
                    Some(self.engine.listed()[next].row_id)
                } else {
                    None
                },
                follow: false,
                ..self
            }).scrolling(Some(ScrollTo::Reveal(next as usize))),
        }
    }

    /// The highlight of the palette moved by `delta` commands.
    pub open spec fn palette_moved(self, delta: int) -> ListStep {
        match position_after(
            Some(self.palette_cursor),
            delta,
            palette_of(self.engine.session.saved).len() as int,
        ) {
            Some(next) => (ListState { palette_cursor: next, ..self }).quietly(),
            None => self.quietly(),
        }
    }

    /// A move of the selection, or of the highlight while the palette is open.
    pub open spec fn moved(self, delta: int) -> ListStep {
        if self.palette_open {
            self.palette_moved(delta)
        } else if self.focus != InputFocus::Nowhere {
            self.quietly()
        } else {
            self.selection_moved(delta)
        }
    }

    /// A saved filter chosen by its name.
    pub open spec fn saved_applied(self, name: Seq<char>) -> ListStep {
        (ListState {
            use_filter: Some(name),
            cycle: saved_place(self.engine.session.saved, name, 0),
            ..self
        }).saying("saved filter: "@ + name).recomputed()
    }

    /// A command of the palette carried out.
    pub open spec fn commanded(self, command: CommandView) -> ListStep {
        match command {
            CommandView::ClearFilter => (ListState {
                text: None,
                level: None,
                use_filter: None,
                cycle: None,
                filter_input: Seq::empty(),
                ..self
            }).saying("filter cleared"@).recomputed(),
            CommandView::ClearSearch => self.search_cleared(),
            CommandView::NextSearch => self.match_jumped(false),
            CommandView::PrevSearch => self.match_jumped(true),
            CommandView::ToggleBookmark => self.bookmark_toggled(),
            CommandView::ToggleFollow => self.follow_toggled(),
            CommandView::ApplySavedFilter(name) => self.saved_applied(name),
            CommandView::Quit => ListStep {
                state: self,
                effects: Effects { quit: true, ..no_effects() },
            },
        }
    }

    /// The filter input gets the keys. A search that was not submitted is dropped.
    pub open spec fn filter_focused(self) -> ListStep {
        if self.palette_open || self.focus == InputFocus::Filter {
            self.quietly()
        } else {
            (ListState {
                search_input: if self.focus == InputFocus::Search {
                    text_or_empty(self.search)
                } else {
                    self.search_input
                },
                focus: InputFocus::Filter,
                ..self
            }).saying("filter: typing... (enter to apply, esc to cancel)"@).quietly()
        }
    }

    /// The search input gets the keys. A filter that was not submitted is dropped.
    pub open spec fn search_focused(self) -> ListStep {
        if self.palette_open || self.focus == InputFocus::Search {
            self.quietly()
        } else {
            (ListState {
                filter_input: if self.focus == InputFocus::Filter {
                    text_or_empty(self.text)
                } else {
                    self.filter_input
                },
                focus: InputFocus::Search,
                ..self
            }).saying("search: typing... (enter to apply, esc to cancel)"@).quietly()
        }
    }

    /// The palette closed, or what was typed in dropped.
    pub open spec fn blurred(self) -> ListStep {
        if self.palette_open {
            (ListState { palette_open: false, ..self }).quietly()
        } else {
            match self.focus {
                InputFocus::Nowhere => self.quietly(),
                InputFocus::Filter => (ListState {
                    filter_input: text_or_empty(self.text),
                    focus: InputFocus::Nowhere,
                    ..self
                }).saying("filter input cancelled"@).quietly(),
                InputFocus::Search => (ListState {
                    search_input: text_or_empty(self.search),
                    focus: InputFocus::Nowhere,
                    ..self
                }).saying("search input cancelled"@).quietly(),
            }
        }
    }

    /// The typed filter put to use.
    pub open spec fn filter_submitted(self) -> ListStep {
        let words = trimmed(self.filter_input);
        let text = if words.len() == 0 {
            None
        } else {
            Some(words)
        };
        (ListState { text, focus: InputFocus::Nowhere, ..self }).saying(
            match text {
                None => "text filter cleared"@,
                Some(words) => "text filter: "@ + words,
            },
        ).recomputed()
    }

    /// The typed text searched for, and the first hit selected.
    pub open spec fn search_submitted(self) -> ListStep {
        let words = trimmed(self.search_input);
        let search = if words.len() == 0 {
            None
        } else {
            Some(words)
        };
        let jumped = (ListState {
            search,
            focus: InputFocus::Nowhere,
            engine: EngineView { search, ..self.engine },
            ..self
        }).saying(
            match search {
                None => "search cleared"@,
                Some(words) => "search: "@ + words + " (n/N to navigate)"@,
            },
        ).match_jumped(false);
        let last = jumped.state.refreshed();
        ListStep {
            state: last.state,
            effects: Effects {
                scroll: if last.effects.scroll is Some {
                    last.effects.scroll
                } else {
                    jumped.effects.scroll
                },
                ..last.effects
            },
        }
    }

    /// The highlighted command carried out, or the typed text put to use.
    #[verifier::opaque]
    pub open spec fn submitted(self) -> ListStep {
        if self.palette_open {
            let commands = palette_of(self.engine.session.saved);
            if self.palette_cursor < commands.len() {
                (ListState { palette_open: false, ..self }).commanded(
                    commands[self.palette_cursor],
                )
            } else {
                self.quietly()
            }
        } else {
            match self.focus {
                InputFocus::Nowhere => self.quietly(),
                InputFocus::Filter => self.filter_submitted(),
                InputFocus::Search => self.search_submitted(),
            }
        }
    }

    /// A character typed in.
    pub open spec fn typed(self, c: char) -> ListState {
        match self.focus {
            InputFocus::Nowhere => self,
            InputFocus::Filter => ListState { filter_input: self.filter_input.push(c), ..self },
            InputFocus::Search => ListState { search_input: self.search_input.push(c), ..self },
        }
    }

    /// The last character that was typed in taken away.
    pub open spec fn backspaced(self) -> ListState {
        match self.focus {
            InputFocus::Nowhere => self,
            InputFocus::Filter => ListState {
                filter_input: if self.filter_input.len() > 0 {
                    self.filter_input.drop_last()
                } else {
                    self.filter_input
                },
                ..self
            },
            InputFocus::Search => ListState {
                search_input: if self.search_input.len() > 0 {
                    self.search_input.drop_last()
                } else {
                    self.search_input
                },
                ..self
            },
        }
    }

    /// The palette opened or closed, unless an input has the keys.
    pub open spec fn palette_toggled(self) -> ListState {
        if self.focus != InputFocus::Nowhere {
            self
        } else if self.palette_open {
            ListState { palette_open: false, ..self }
        } else {
            ListState { palette_open: true, palette_cursor: 0, ..self }
        }
    }

    /// An action that does nothing while keys go elsewhere.
    #[verifier::opaque]
    pub open spec fn free_action(self, action: ListAction, top: int) -> ListStep {
        match action {
            ListAction::ScrollUp => (ListState { follow: false, ..self }).scrolled(top, -1),
            ListAction::ScrollDown => self.scrolled(top, 1),
            ListAction::PageUp => (ListState { follow: false, ..self }).scrolled(
                top,
                -(PAGE_SIZE_HINT as int),
            ),
            ListAction::PageDown => self.scrolled(top, PAGE_SIZE_HINT as int),
            ListAction::ScrollHome => (ListState { follow: false, ..self }).scrolling(
                Some(ScrollTo::Top(0)),
            ),
            ListAction::ScrollEnd => (ListState { follow: true, ..self }).scrolling(
                reveal_last(self.item_count),
            ),
            ListAction::ToggleFollow => self.follow_toggled(),
            ListAction::SetLevel(level) => self.level_chosen(level),
            ListAction::CycleSavedFilter => self.saved_cycled(),
            ListAction::ToggleBookmark => self.bookmark_toggled(),
            ListAction::NextSearchMatch => self.match_jumped(false),
            ListAction::PrevSearchMatch => self.match_jumped(true),
            ListAction::ClearSearch => self.search_cleared(),
            _ => self.quietly(),
        }
    }

    /// What an action does. `top` is the row at the top of the list.
    pub open spec fn after(self, action: ListAction, top: int) -> ListStep {
        match action {
            ListAction::FocusFilterInput => self.filter_focused(),
            ListAction::FocusSearchInput => self.search_focused(),
            ListAction::BlurInput => self.blurred(),
            ListAction::SubmitInput => self.submitted(),
            ListAction::InputBackspace => self.backspaced().quietly(),
            ListAction::TypeChar(c) => self.typed(c).quietly(),
            ListAction::SelectUp => self.moved(-1),
            ListAction::SelectDown => self.moved(1),
            ListAction::SelectPageUp => self.moved(-(PAGE_SIZE_HINT as int)),
            ListAction::SelectPageDown => self.moved(PAGE_SIZE_HINT as int),
            ListAction::TogglePalette => self.palette_toggled().quietly(),
            _ => if self.palette_open {
                match palette_step(action) {
                    Some(delta) => self.palette_moved(delta as int),
                    None => self.quietly(),
                }
            } else if self.input_focused() {
                self.quietly()
            } else {
                self.free_action(action, top)
            },
        }
    }
}

impl ListApp {
    /// The front-end at the start, with filters that have been applied.
    pub fn new(
        engine: Engine,
        live: bool,
        status_message: Option<String>,
        level: Option<LevelArg>,
        use_filter: Option<String>,
        text: Option<String>,
    ) -> (r: ListApp)
        requires
            engine.wf(),
        ensures
            r.engine.wf(),
            r@ == (ListState {
                engine: engine@,
                item_count: engine@.listed().len() as int,
                live,
                status: optional_text(status_message),
                follow: live,
                pending_scroll: live,
                level,
                use_filter: optional_text(use_filter),
                text: optional_text(text),
                search: None,
                cycle: None,
                filter_input: text_or_empty(optional_text(text)),
                search_input: Seq::empty(),
                focus: InputFocus::Nowhere,
                selected: None,
                palette_open: false,
                palette_cursor: 0,
            }),
    {
        let item_count: usize = engine.matching_rows_count();
        let filter_input = match &text {
            Some(text) => TextInputState::new(Some(text.clone())),
            None => TextInputState::new(None),
        };
        ListApp {
            engine,
            item_count,
            live,
            status_message,
            follow: live,
            pending_initial_scroll: live,
            current_level: level,
            current_use_filter: use_filter,
            current_text: text,
            current_search: None,
            saved_filter_cycle_idx: None,
            filter_input,
            search_input: TextInputState::new(None),
            input_focus: InputFocus::Nowhere,
            selected_row_id: None,
            palette_open: false,
            palette_cursor: 0,
        }
    }

    /// Whether keys type into an input or move in the palette.
    pub fn any_input_focused(&self) -> (r: bool)
        ensures
            r == self@.input_focused(),
    {
        self.input_focus != InputFocus::Nowhere || self.palette_open
    }

    /// The commands of the palette.
    pub fn palette_commands(&self) -> (r: Vec<PaletteCommand>)
        ensures
            command_views(r@) == palette_of(self@.engine.session.saved),
    {
        let saved = &self.engine.session().saved_filters;
        let ghost all = self@.engine.session.saved;
        let mut commands: Vec<PaletteCommand> = Vec::new();
        commands.push(PaletteCommand::ClearFilter);
        commands.push(PaletteCommand::ClearSearch);
        commands.push(PaletteCommand::NextSearch);
        commands.push(PaletteCommand::PrevSearch);
        commands.push(PaletteCommand::ToggleBookmark);
        commands.push(PaletteCommand::ToggleFollow);
        let ghost front = command_views(commands@);
        let ghost entry = |entry: SavedView| CommandView::ApplySavedFilter(entry.name);
        let mut i: usize = 0;
        assert(front =~= seq![
            CommandView::ClearFilter,
            CommandView::ClearSearch,
            CommandView::NextSearch,
            CommandView::PrevSearch,
            CommandView::ToggleBookmark,
            CommandView::ToggleFollow,
        ]);
        assert(front =~= front + all.subrange(0, 0).map_values(entry));
        while i < saved.len()
            invariant
                i <= saved@.len(),
                all == Seq::new(saved@.len(), |i: int| saved@[i]@),
                entry == (|entry: SavedView| CommandView::ApplySavedFilter(entry.name)),
                command_views(commands@) == front + all.subrange(0, i as int).map_values(entry),
            decreases saved@.len() - i,
        {
            let name = saved[i].name.clone();
            let ghost done = command_views(commands@);
            commands.push(PaletteCommand::ApplySavedFilter(name));
            i += 1;
            proof {
                assert(all[i - 1].name == name@);
                assert(command_views(commands@) =~= done.push(
                    CommandView::ApplySavedFilter(name@),
                ));
                assert(command_views(commands@) =~= front + all.subrange(0, i as int).map_values(
                    entry,
                ));
            }
        }
        let ghost done = command_views(commands@);
        commands.push(PaletteCommand::Quit);
        proof {
            assert(all.subrange(0, i as int) =~= all);
            assert(command_views(commands@) =~= done.push(CommandView::Quit));
            assert(command_views(commands@) =~= palette_of(all));
        }
        commands
    }

    /// Shows a message.
    fn say(&mut self, message: String)
        ensures
            final(self)@ == old(self)@.saying(message@),
            final(self).engine == old(self).engine,
    {
        self.status_message = Some(message);
    }

    /// Gives the list its rows anew.
    fn refresh_metadata(&mut self) -> (r: Effects)
        requires
            old(self).engine.wf(),
        ensures
            final(self).engine.wf(),
            (ListStep { state: final(self)@, effects: r }) == old(self)@.refreshed(),
    {
        self.item_count = self.engine.matching_rows_count();
        let scroll = if self.follow {
            last_in_sight(self.item_count)
        } else {
            None
        };
        Effects { scroll, refresh: true, save: false, quit: false }
    }

    /// Puts the chosen filters to use.
    fn recompute_filter(&mut self) -> (r: Effects)
        requires
            old(self).engine.wf(),
        ensures
            final(self).engine.wf(),
            (ListStep { state: final(self)@, effects: r }) == old(self)@.recomputed(),
    {
        let ghost before = self@;
        let text = self.current_text.clone();
        let use_filter = self.current_use_filter.clone();
        assert(optional_text(text) == before.text);
        assert(optional_text(use_filter) == before.use_filter);
        match try_apply_filters(&mut self.engine, text, self.current_level, use_filter, None) {
            Some(error) => {
                self.say(joined("filter error: ", &error));
                nothing()
            },
            None => self.refresh_metadata(),
        }
    }

    /// Scrolls the list.
    fn scroll_by(&mut self, top: usize, delta: isize) -> (r: Effects)
        requires
            old(self).engine.wf(),
        ensures
            final(self).engine.wf(),
            (ListStep { state: final(self)@, effects: r }) == old(self)@.scrolled(top as int, delta as int),
    {
        if self.item_count == 0 {
            return nothing();
        }
        let next: usize = moved_within(top, delta, self.item_count - 1);
        Effects { scroll: Some(ScrollTo::Top(next)), refresh: false, save: false, quit: false }
    }

    /// Chooses a lowest severity.
    fn choose_level(&mut self, level: Option<LevelArg>) -> (r: Effects)
        requires
            old(self).engine.wf(),
        ensures
            final(self).engine.wf(),
            (ListStep { state: final(self)@, effects: r }) == old(self)@.level_chosen(level),
    {
        self.current_level = level;
        let message = match level {
            None => "level filter cleared".to_owned(),
            Some(_) => joined("level filter: ", level_label(level)),
        };
        self.say(message);
        self.recompute_filter()
    }

    /// Chooses the next saved filter.
    fn cycle_saved_filter(&mut self) -> (r: Effects)
        requires
            old(self).engine.wf(),
        ensures
            final(self).engine.wf(),
            (ListStep { state: final(self)@, effects: r }) == old(self)@.saved_cycled(),
    {
        let ghost before = self@;
        let count: usize = self.engine.session().saved_filters.len();
        if count == 0 {
            self.say("no saved filters in session".to_owned());
            return nothing();
        }
        let next: Option<usize> = next_saved_filter_cycle(self.saved_filter_cycle_idx, count);
        self.saved_filter_cycle_idx = next;
        match next {
            None => {
                self.current_use_filter = None;
                self.say("saved filter cleared".to_owned());
            },
            Some(index) => {
                let name = self.engine.session().saved_filters[index].name.clone();
                assert(before.engine.session.saved[index as int].name == name@);
                self.say(joined("saved filter: ", &name));
                self.current_use_filter = Some(name);
            },
        }
        self.recompute_filter()
    }

    /// Selects the next hit of the search.
    fn jump_to_match(&mut self, reverse: bool) -> (r: Effects)
        requires
            old(self).engine.wf(),
        ensures
            final(self).engine.wf(),
            (ListStep { state: final(self)@, effects: r }) == old(self)@.match_jumped(reverse),
    {
        match self.engine.next_search_result(self.selected_row_id, reverse) {
            None => {
                self.say("no search matches".to_owned());
                nothing()
            },
            Some(row_id) => {
                self.selected_row_id = Some(row_id);
                self.follow = false;
                let scroll = match self.engine.filtered_position_for_row(row_id) {
                    Some(place) => Some(ScrollTo::Reveal(place)),
                    None => None,
                };
                Effects { scroll, refresh: false, save: false, quit: false }
            },
        }
    }

    /// Gives the search up.
    fn clear_search(&mut self) -> (r: Effects)
        requires
            old(self).engine.wf(),
        ensures
            final(self).engine.wf(),
            (ListStep { state: final(self)@, effects: r }) == old(self)@.search_cleared(),
    {
        self.current_search = None;
        self.search_input = TextInputState::new(None);
        self.engine.set_search_text(None);
        self.say("search cleared".to_owned());
        self.refresh_metadata()
    }

    /// Toggles the bookmark of the selected row.
    fn toggle_bookmark(&mut self) -> (r: Effects)
        requires
            old(self).engine.wf(),
        ensures
            final(self).engine.wf(),
            (ListStep { state: final(self)@, effects: r }) == old(self)@.bookmark_toggled(),
    {
        match self.selected_row_id {
            None => {
                self.say("select a row first (press j/k)".to_owned());
                nothing()
            },
            Some(row_id) => {
                let bookmarked: bool = self.engine.toggle_bookmark(row_id, None);
                let number = decimal_text(row_id.0);
                let message = if bookmarked {
                    joined("bookmarked row ", &number)
                } else {
                    joined("removed bookmark on row ", &number)
                };
                self.say(message);
                Effects { scroll: None, refresh: false, save: true, quit: false }
            },
        }
    }

    /// Switches following on or off.
    fn toggle_follow(&mut self) -> (r: Effects)
        requires
            old(self).engine.wf(),
        ensures
            final(self).engine.wf(),
            (ListStep { state: final(self)@, effects: r }) == old(self)@.follow_toggled(),
    {
        self.follow = !self.follow;
        let scroll = if self.follow {
            last_in_sight(self.item_count)
        } else {
            None
        };
        Effects { scroll, refresh: false, save: false, quit: false }
    }

    /// Where the selected row stands in the list.
    pub fn selected_position(&self) -> (r: Option<usize>)
        requires
            self.engine.wf(),
        ensures
            index_of(r) == match self@.selected {
                Some(row_id) => place_of(ids_of(self@.engine.listed()), row_id),
                None => None,
            },
    {
        match self.selected_row_id {
            Some(row_id) => self.engine.filtered_position_for_row(row_id),
            None => None,
        }
    }

    /// The row whose details are shown: the selected one, or else the first of the list.
    pub fn detail_row(&self) -> (r: Option<RowPresentation>)
        requires
            self.engine.wf(),
        ensures
            ({
                let place = match self@.selected {
                    Some(row_id) => place_of(ids_of(self@.engine.listed()), row_id),
                    None => None,
                };
                let at = match place {
                    Some(place) => place,
                    None => 0,
                };
                match r {
                    Some(row) => at < self@.engine.listed().len() && row@
                        == self@.engine.presented(self@.engine.listed()[at]),
                    None => self@.engine.listed().len() <= at,
                }
            }),
    {
        let at: usize = match self.selected_position() {
            Some(place) => place,
            None => 0,
        };
        self.engine.present_row_at(at)
    }

    /// Moves the selection.
    fn move_selection(&mut self, delta: isize) -> (r: Effects)
        requires
            old(self).engine.wf(),
        ensures
            final(self).engine.wf(),
            (ListStep { state: final(self)@, effects: r }) == old(self)@.selection_moved(delta as int),
    {
        let place: Option<usize> = self.selected_position();
        match next_selected_position(place, delta, self.item_count) {
            None => {
                self.selected_row_id = None;
                nothing()
            },
            Some(next) => {
                self.selected_row_id = match self.engine.present_row_at(next) {
                    Some(row) => {
                        assert(row@.row_id == row.row_id);
                        Some(row.row_id)
                    },
                    None => None,
                };
                self.follow = false;
                Effects {
                    scroll: Some(ScrollTo::Reveal(next)),
                    refresh: false,
                    save: false,
                    quit: false,
                }
            },
        }
    }

    /// Moves the highlight of the palette.
    fn move_palette_cursor(&mut self, delta: isize) -> (r: Effects)
        requires
            old(self).engine.wf(),
        ensures
            final(self).engine.wf(),
            (ListStep { state: final(self)@, effects: r }) == old(self)@.palette_moved(delta as int),
    {
        let commands = self.palette_commands();
        assert(command_views(commands@).len() == commands@.len());
        if let Some(next) = next_selected_position(
            Some(self.palette_cursor),
            delta,
            commands.len(),
        ) {
            self.palette_cursor = next;
        }
        nothing()
    }

    /// Moves the selection, or the highlight while the palette is open.
    fn move_by(&mut self, delta: isize) -> (r: Effects)
        requires
            old(self).engine.wf(),
        ensures
            final(self).engine.wf(),
            (ListStep { state: final(self)@, effects: r }) == old(self)@.moved(delta as int),
    {
        if self.palette_open {
            self.move_palette_cursor(delta)
        } else if self.input_focus != InputFocus::Nowhere {
            nothing()
        } else {
            self.move_selection(delta)
        }
    }

    /// Chooses a saved filter by its name.
    fn apply_saved(&mut self, name: &str) -> (r: Effects)
        requires
            old(self).engine.wf(),
        ensures
            final(self).engine.wf(),
            (ListStep { state: final(self)@, effects: r }) == old(self)@.saved_applied(name@),
    {
        let ghost saved = self@.engine.session.saved;
        let place: Option<usize> = find_saved(self.engine.session(), name);
        self.saved_filter_cycle_idx = place;
        self.current_use_filter = Some(name.to_owned());
        self.say(joined("saved filter: ", name));
        self.recompute_filter()
    }

    /// Carries a command of the palette out.
    fn execute_palette_command(&mut self, command: &PaletteCommand) -> (r: Effects)
        requires
            old(self).engine.wf(),
        ensures
            final(self).engine.wf(),
            (ListStep { state: final(self)@, effects: r }) == old(self)@.commanded(command@),
    {
        match command {
            PaletteCommand::ClearFilter => {
                self.current_text = None;
                self.current_level = None;
                self.current_use_filter = None;
                self.saved_filter_cycle_idx = None;
                self.filter_input = TextInputState::new(None);
                self.say("filter cleared".to_owned());
                self.recompute_filter()
            },
            PaletteCommand::ClearSearch => self.clear_search(),
            PaletteCommand::NextSearch => self.jump_to_match(false),
            PaletteCommand::PrevSearch => self.jump_to_match(true),
            PaletteCommand::ToggleBookmark => self.toggle_bookmark(),
            PaletteCommand::ToggleFollow => self.toggle_follow(),
            PaletteCommand::ApplySavedFilter(name) => self.apply_saved(name),
            PaletteCommand::Quit => Effects {
                scroll: None,
                refresh: false,
                save: false,
                quit: true,
            },
        }
    }

    /// Gives the keys to the filter input.
    fn focus_filter(&mut self) -> (r: Effects)
        requires
            old(self).engine.wf(),
        ensures
            final(self).engine.wf(),
            (ListStep { state: final(self)@, effects: r }) == old(self)@.filter_focused(),
    {
        if self.palette_open || self.input_focus == InputFocus::Filter {
            return nothing();
        }
        if self.input_focus == InputFocus::Search {
            self.search_input = TextInputState::new(self.current_search.clone());
        }
        self.input_focus = InputFocus::Filter;
        self.say("filter: typing... (enter to apply, esc to cancel)".to_owned());
        nothing()
    }

    /// Gives the keys to the search input.
    fn focus_search(&mut self) -> (r: Effects)
        requires
            old(self).engine.wf(),
        ensures
            final(self).engine.wf(),
            (ListStep { state: final(self)@, effects: r }) == old(self)@.search_focused(),
    {
        if self.palette_open || self.input_focus == InputFocus::Search {
            return nothing();
        }
        if self.input_focus == InputFocus::Filter {
            self.filter_input = TextInputState::new(self.current_text.clone());
        }
        self.input_focus = InputFocus::Search;
        self.say("search: typing... (enter to apply, esc to cancel)".to_owned());
        nothing()
    }

    /// Closes the palette or drops what was typed in.
    fn blur(&mut self) -> (r: Effects)
        requires
            old(self).engine.wf(),
        ensures
            final(self).engine.wf(),
            (ListStep { state: final(self)@, effects: r }) == old(self)@.blurred(),
    {
        if self.palette_open {
            self.palette_open = false;
            return nothing();
        }
        match self.input_focus {
            InputFocus::Nowhere => {},
            InputFocus::Filter => {
                self.filter_input = TextInputState::new(self.current_text.clone());
                self.input_focus = InputFocus::Nowhere;
                self.say("filter input cancelled".to_owned());
            },
            InputFocus::Search => {
                self.search_input = TextInputState::new(self.current_search.clone());
                self.input_focus = InputFocus::Nowhere;
                self.say("search input cancelled".to_owned());
            },
        }
        nothing()
    }

    /// Puts the typed filter to use.
    fn submit_filter(&mut self) -> (r: Effects)
        requires
            old(self).engine.wf(),
        ensures
            final(self).engine.wf(),
            (ListStep { state: final(self)@, effects: r }) == old(self)@.filter_submitted(),
    {
        let words = trim(self.filter_input.value()).to_owned();
        self.input_focus = InputFocus::Nowhere;
        if words.as_str().is_empty() {
            self.current_text = None;
            self.say("text filter cleared".to_owned());
        } else {
            self.say(joined("text filter: ", &words));
            self.current_text = Some(words);
        }
        self.recompute_filter()
    }

    /// Searches for the typed text.
    fn submit_search(&mut self) -> (r: Effects)
        requires
            old(self).engine.wf(),
        ensures
            final(self).engine.wf(),
            (ListStep { state: final(self)@, effects: r }) == old(self)@.search_submitted(),
    {
        let words = trim(self.search_input.value()).to_owned();
        self.input_focus = InputFocus::Nowhere;
        if words.as_str().is_empty() {
            self.current_search = None;
            self.engine.set_search_text(None);
            self.say("search cleared".to_owned());
        } else {
            self.engine.set_search_text(Some(words.clone()));
            let mut message = joined("search: ", &words);
            message.append(" (n/N to navigate)");
            self.say(message);
            self.current_search = Some(words);
        }
        let jumped = self.jump_to_match(false);
        let last = self.refresh_metadata();
        let scroll = if last.scroll.is_some() {
            last.scroll
        } else {
            jumped.scroll
        };
        Effects { scroll, refresh: true, save: false, quit: false }
    }

    /// Carries out the highlighted command, or puts the typed text to use.
    fn submit(&mut self) -> (r: Effects)
        requires
            old(self).engine.wf(),
        ensures
            final(self).engine.wf(),
            (ListStep { state: final(self)@, effects: r }) == old(self)@.submitted(),
    {
        proof {
            reveal(ListState::submitted);
        }
        if self.palette_open {
            let commands = self.palette_commands();
            assert(command_views(commands@).len() == commands@.len());
            if self.palette_cursor < commands.len() {
                self.palette_open = false;
                let command = &commands[self.palette_cursor];
                assert(command_views(commands@)[self.palette_cursor as int] == command@);
                return self.execute_palette_command(command);
            }
            return nothing();
        }
        match self.input_focus {
            InputFocus::Nowhere => nothing(),
            InputFocus::Filter => self.submit_filter(),
            InputFocus::Search => self.submit_search(),
        }
    }

    /// Types a character in.
    fn type_char(&mut self, c: char)
        ensures
            final(self)@ == old(self)@.typed(c),
            final(self).engine == old(self).engine,
    {
        match self.input_focus {
            InputFocus::Nowhere => {},
            InputFocus::Filter => {
                self.filter_input.append_char(c);
            },
            InputFocus::Search => {
                self.search_input.append_char(c);
            },
        }
    }

    /// Takes the last typed character away.
    fn backspace(&mut self)
        ensures
            final(self)@ == old(self)@.backspaced(),
            final(self).engine == old(self).engine,
    {
        match self.input_focus {
            InputFocus::Nowhere => {},
            InputFocus::Filter => {
                self.filter_input.backspace();
            },
            InputFocus::Search => {
                self.search_input.backspace();
            },
        }
    }

    /// Opens or closes the palette.
    fn toggle_palette(&mut self)
        ensures
            final(self)@ == old(self)@.palette_toggled(),
            final(self).engine == old(self).engine,
    {
        if self.input_focus == InputFocus::Nowhere {
            self.palette_open = !self.palette_open;
            if self.palette_open {
                self.palette_cursor = 0;
            }
        }
    }

    /// Does what an action asks for that waits while keys go elsewhere.
    fn free_action(&mut self, action: ListAction, top: usize) -> (r: Effects)
        requires
            old(self).engine.wf(),
        ensures
            final(self).engine.wf(),
            (ListStep { state: final(self)@, effects: r }) == old(self)@.free_action(action, top as int),
    {
        proof {
            reveal(ListState::free_action);
        }
        match action {
            ListAction::ScrollUp => {
                self.follow = false;
                self.scroll_by(top, -1)
            },
            ListAction::ScrollDown => self.scroll_by(top, 1),
            ListAction::PageUp => {
                self.follow = false;
                self.scroll_by(top, -(PAGE_SIZE_HINT as isize))
            },
            ListAction::PageDown => self.scroll_by(top, PAGE_SIZE_HINT as isize),
            ListAction::ScrollHome => {
                self.follow = false;
                Effects { scroll: Some(ScrollTo::Top(0)), refresh: false, save: false, quit: false }
            },
            ListAction::ScrollEnd => {
                self.follow = true;
                let scroll = last_in_sight(self.item_count);
                Effects { scroll, refresh: false, save: false, quit: false }
            },
            ListAction::ToggleFollow => self.toggle_follow(),
            ListAction::SetLevel(level) => self.choose_level(level),
            ListAction::CycleSavedFilter => self.cycle_saved_filter(),
            ListAction::ToggleBookmark => self.toggle_bookmark(),
            ListAction::NextSearchMatch => self.jump_to_match(false),
            ListAction::PrevSearchMatch => self.jump_to_match(true),
            ListAction::ClearSearch => self.clear_search(),
            _ => nothing(),
        }
    }

    /// Does what an action asks for. `top` is the row at the top of the list.
    #[verifier::spinoff_prover]
    pub fn handle(&mut self, action: ListAction, top: usize) -> (r: Effects)
        requires
            old(self).engine.wf(),
        ensures
            final(self).engine.wf(),
            (ListStep { state: final(self)@, effects: r }) == old(self)@.after(action, top as int),
    {
        match action {
            ListAction::FocusFilterInput => self.focus_filter(),
            ListAction::FocusSearchInput => self.focus_search(),
            ListAction::BlurInput => self.blur(),
            ListAction::SubmitInput => self.submit(),
            ListAction::InputBackspace => {
                self.backspace();
                nothing()
            },
            ListAction::TypeChar(c) => {
                self.type_char(c);
                nothing()
            },
            ListAction::SelectUp => self.move_by(-1),
            ListAction::SelectDown => self.move_by(1),
            ListAction::SelectPageUp => self.move_by(-(PAGE_SIZE_HINT as isize)),
            ListAction::SelectPageDown => self.move_by(PAGE_SIZE_HINT as isize),
            ListAction::TogglePalette => {
                self.toggle_palette();
                nothing()
            },
            _ => {
                if self.palette_open {
                    match palette_distance(action) {
                        Some(delta) => self.move_palette_cursor(delta),
                        None => nothing(),
                    }
                } else if self.any_input_focused() {
                    nothing()
                } else {
                    self.free_action(action, top)
                }
            },
        }
    }
}

/// The last row of a list in sight.
fn last_in_sight(count: usize) -> (r: Option<ScrollTo>)
    ensures
        r == reveal_last(count as int),
{
    if count > 0 {
        Some(ScrollTo::Reveal(count - 1))
    } else {
        None
    }
}

/// The index of the first saved filter with this name.
fn find_saved(session: &InvestigationSession, name: &str) -> (r: Option<usize>)
    ensures
        index_of(r) == saved_place(session@.saved, name@, 0),
{
    let ghost saved = session@.saved;
    let mut i: usize = 0;
    while i < session.saved_filters.len()
        invariant
            i <= session.saved_filters@.len(),
            saved == session@.saved,
            saved_place(saved, name@, 0) == saved_place(saved, name@, i as int),
        decreases session.saved_filters@.len() - i,
    {
        assert(saved[i as int].name == session.saved_filters@[i as int].name@);
        if same_text(&session.saved_filters[i].name, name) {
            return Some(i);
        }
        i += 1;
    }
    None
}

// ---------------------------------------------------------------------------
// Events and frames
// ---------------------------------------------------------------------------

/// The event changes what the engine holds.
pub open spec fn is_change(event: EventView) -> bool {
    event is SourceAdded || event is RowAppended || event is RowsAppended
}

/// Some event changes what the engine holds.
pub open spec fn some_change(events: Seq<EventView>) -> bool {
    exists|i: int| 0 <= i < events.len() && is_change(#[trigger] events[i])
}

impl ListState {
    /// One event taken in.
    pub open spec fn with_event(self, event: EventView) -> ListState {
        let taken = ListState { engine: self.engine.after_event(event), ..self };
        match event {
            EventView::SourceRotated(source_id) => taken.saying(
                "source "@ + decimal(source_id.0 as nat) + " rotated"@,
            ),
            EventView::SourceError(source_id, message) => taken.saying(
                "source "@ + decimal(source_id.0 as nat) + " error: "@ + message,
            ),
            _ => taken,
        }
    }

    /// Some events taken in.
    pub open spec fn with_events(self, events: Seq<EventView>) -> ListState
        decreases events.len(),
    {
        if events.len() == 0 {
            self
        } else {
            self.with_events(events.drop_last()).with_event(events.last())
        }
    }

    /// What came in since the last frame taken in; `disconnected` says that nothing more will.
    pub open spec fn drained(self, events: Seq<EventView>, disconnected: bool) -> ListStep {
        let taken = self.with_events(events);
        let told = if disconnected {
            taken.saying("live tail disconnected"@)
        } else {
            taken
        };
        if some_change(events) {
            told.refreshed()
        } else {
            told.quietly()
        }
    }

    /// The state before a frame: events are taken in, the list starts at its end when it is
    /// followed from the start, and the highlight is on a command.
    pub open spec fn framed(self, events: Seq<EventView>, disconnected: bool) -> ListStep {
        let drained = self.drained(events, disconnected);
        let state = drained.state;
        let placed = if state.pending_scroll && state.item_count > 0 {
            ListStep {
                state: ListState { pending_scroll: false, ..state },
                effects: Effects { scroll: reveal_last(state.item_count), ..drained.effects },
            }
        } else {
            drained
        };
        let count = palette_of(state.engine.session.saved).len() as int;
        if placed.state.palette_open && placed.state.palette_cursor >= count {
            ListStep {
                state: ListState { palette_cursor: count - 1, ..placed.state },
                ..placed
            }
        } else {
            placed
        }
    }
}

impl ListApp {
    /// Takes one event in.
    fn take_event(&mut self, event: LogEvent)
        requires
            old(self).engine.wf(),
            old(self)@.engine.has_ids_for(rows_in(event@).len()),
        ensures
            final(self).engine.wf(),
            final(self)@ == old(self)@.with_event(event@),
            final(self)@.engine.index.evicted + final(self)@.engine.index.rows.len()
                == old(self)@.engine.index.evicted + old(self)@.engine.index.rows.len() + rows_in(
                event@,
            ).len(),
    {
        let message: Option<String> = match &event {
            LogEvent::SourceRotated { source_id } => {
                let mut text = joined("source ", &decimal_text(source_id.0));
                text.append(" rotated");
                Some(text)
            },
            LogEvent::SourceError { source_id, message } => {
                let mut text = joined("source ", &decimal_text(source_id.0));
                text.append(" error: ");
                text.append(message);
                Some(text)
            },
            _ => None,
        };
        absorb_event(&mut self.engine, event);
        if let Some(text) = message {
            self.say(text);
        }
    }

    /// Takes events in. Returns whether one of them changes what the engine holds.
    fn take_events(&mut self, events: Vec<LogEvent>) -> (r: bool)
        requires
            old(self).engine.wf(),
            old(self)@.engine.has_ids_for(rows_in_all(event_views(events@)).len()),
        ensures
            final(self).engine.wf(),
            final(self)@ == old(self)@.with_events(event_views(events@)),
            r == some_change(event_views(events@)),
    {
        let ghost before = self@;
        let ghost all = event_views(events@);
        let count: usize = events.len();
        let mut turned = reversed(events);
        let mut done: usize = 0;
        let mut changed: bool = false;
        assert(all.subrange(0, 0) =~= Seq::<EventView>::empty());
        while done < count
            invariant
                done <= count,
                count == all.len(),
                turned@.len() == count - done,
                forall|i: int|
                    0 <= i < turned@.len() ==> (#[trigger] turned@[i])@ == all[count - 1 - i],
                self.engine.wf(),
                self@ == before.with_events(all.subrange(0, done as int)),
                changed == some_change(all.subrange(0, done as int)),
                before.engine.has_ids_for(rows_in_all(all).len()),
                self@.engine.index.evicted + self@.engine.index.rows.len()
                    == before.engine.index.evicted + before.engine.index.rows.len() + rows_in_all(
                    all.subrange(0, done as int),
                ).len(),
            decreases count - done,
        {
            let ghost part = all.subrange(0, done as int);
            let ghost next = all.subrange(0, done + 1);
            if let Some(event) = turned.pop() {
                proof {
                    assert(event@ == all[done as int]);
                    assert(next.drop_last() =~= part);
                    assert(next.last() == event@);
                    lemma_rows_of_part(all, done as int);
                    lemma_change_one_more(all, done as int);
                }
                let change: bool = match &event {
                    LogEvent::SourceAdded { source_id, path } => true,
                    LogEvent::RowAppended(_) => true,
                    LogEvent::RowsAppended(_) => true,
                    _ => false,
                };
                if change {
                    changed = true;
                }
                self.take_event(event);
            }
            done += 1;
        }
        assert(all.subrange(0, done as int) =~= all);
        changed
    }

    /// Prepares a frame: takes in what came since the last one.
    pub fn prepare_frame(&mut self, events: Vec<LogEvent>, disconnected: bool) -> (r: Effects)
        requires
            old(self).engine.wf(),
            old(self)@.engine.has_ids_for(rows_in_all(event_views(events@)).len()),
        ensures
            final(self).engine.wf(),
            (ListStep { state: final(self)@, effects: r }) == old(self)@.framed(
                event_views(events@),
                disconnected,
            ),
    {
        let changed: bool = self.take_events(events);
        if disconnected {
            self.say("live tail disconnected".to_owned());
        }
        let mut effects = if changed {
            self.refresh_metadata()
        } else {
            nothing()
        };
        if self.pending_initial_scroll && self.item_count > 0 {
            effects.scroll = last_in_sight(self.item_count);
            self.pending_initial_scroll = false;
        }
        if self.palette_open {
            let commands = self.palette_commands();
            assert(command_views(commands@).len() == commands@.len());
            let count: usize = commands.len();
            if self.palette_cursor >= count {
                self.palette_cursor = count - 1;
            }
        }
        effects
    }
}

/// One more event changes something, or the ones before it do.
proof fn lemma_change_one_more(events: Seq<EventView>, n: int)
    requires
        0 <= n < events.len(),
    ensures
        some_change(events.subrange(0, n + 1)) == (some_change(events.subrange(0, n)) || is_change(
            events[n],
        )),
{
    let part = events.subrange(0, n);
    let next = events.subrange(0, n + 1);
    if some_change(next) {
        let i = choose|i: int| 0 <= i < next.len() && is_change(#[trigger] next[i]);
        if i < n {
            assert(part[i] == next[i]);
        }
    }
    if some_change(part) {
        let i = choose|i: int| 0 <= i < part.len() && is_change(#[trigger] part[i]);
        assert(next[i] == part[i]);
    }
    if is_change(events[n]) {
        assert(is_change(next[n]));
    }
}

// ---------------------------------------------------------------------------
// What is shown
// ---------------------------------------------------------------------------

/// The colour of a severity band.
pub open spec fn severity_color_of(role: SeverityRole) -> Rgb {
    match role {
        SeverityRole::Fatal => rgb_of(0xdc, 0x4f, 0x4f),
        SeverityRole::Error => rgb_of(0xdc, 0x4f, 0x4f),
        SeverityRole::Warn => rgb_of(0xd6, 0xa3, 0x3d),
        SeverityRole::Info => rgb_of(0x4f, 0x9e, 0xe3),
        SeverityRole::Debug => rgb_of(0x7c, 0x75, 0xd8),
        SeverityRole::Trace => rgb_of(0x7c, 0x75, 0xd8),
        SeverityRole::Unknown => rgb_of(0x4b, 0x55, 0x63),
    }
}

/// The colour of a severity band.
pub fn severity_color(role: SeverityRole) -> (r: Rgb)
    ensures
        r == severity_color_of(role),
{
    match role {
        SeverityRole::Fatal => rgb(0xdc, 0x4f, 0x4f),
        SeverityRole::Error => rgb(0xdc, 0x4f, 0x4f),
        SeverityRole::Warn => rgb(0xd6, 0xa3, 0x3d),
        SeverityRole::Info => rgb(0x4f, 0x9e, 0xe3),
        SeverityRole::Debug => rgb(0x7c, 0x75, 0xd8),
        SeverityRole::Trace => rgb(0x7c, 0x75, 0xd8),
        SeverityRole::Unknown => rgb(0x4b, 0x55, 0x63),
    }
}

/// The colour of a span.
pub open spec fn span_color_of(kind: SpanKind) -> Rgb {
    match kind {
        SpanKind::Timestamp => rgb_of(0x8a, 0xb4, 0xf8),
        SpanKind::Error => rgb_of(0xff, 0x7b, 0x72),
        SpanKind::Warning => rgb_of(0xd6, 0xa3, 0x3d),
        SpanKind::SearchMatch => rgb_of(0x0d, 0x11, 0x17),
        SpanKind::JsonKey => rgb_of(0x7e, 0xe7, 0xe7),
        SpanKind::JsonValue => rgb_of(0xa5, 0xd6, 0xa7),
        _ => rgb_of(0xe6, 0xed, 0xf3),
    }
}

/// The colour of a span.
pub fn span_color(kind: SpanKind) -> (r: Rgb)
    ensures
        r == span_color_of(kind),
{
    match kind {
        SpanKind::Timestamp => rgb(0x8a, 0xb4, 0xf8),
        SpanKind::Error => rgb(0xff, 0x7b, 0x72),
        SpanKind::Warning => rgb(0xd6, 0xa3, 0x3d),
        SpanKind::SearchMatch => rgb(0x0d, 0x11, 0x17),
        SpanKind::JsonKey => rgb(0x7e, 0xe7, 0xe7),
        SpanKind::JsonValue => rgb(0xa5, 0xd6, 0xa7),
        _ => rgb(0xe6, 0xed, 0xf3),
    }
}

/// A text in a colour, on a background where it has one of its own.
#[derive(Debug, PartialEq, Eq)]
pub struct RowCell {
    pub text: String,
    pub color: Rgb,
    pub background: Option<Rgb>,
}

/// The texts and colours of a list.
pub open spec fn row_cell_views(cells: Seq<RowCell>) -> Seq<(Seq<char>, Rgb, Option<Rgb>)> {
    cells.map_values(|cell: RowCell| (cell.text@, cell.color, cell.background))
}

/// The background of a span.
pub open spec fn span_background_of(kind: SpanKind) -> Option<Rgb> {
    if kind == SpanKind::SearchMatch {
        Some(rgb_of(0xc9, 0xd9, 0x6f))
    } else {
        None
    }
}

/// The cells of the spans of a row.
pub open spec fn span_cells_of(spans: Seq<SpanView>) -> Seq<(Seq<char>, Rgb, Option<Rgb>)> {
    spans.map_values(
        |span: SpanView| (span.text, span_color_of(span.kind), span_background_of(span.kind)),
    )
}

/// The cells of a row: the mark of a bookmark, how many rows are folded, the source and the spans.
pub open spec fn row_cells_of(row: PresentationView) -> Seq<(Seq<char>, Rgb, Option<Rgb>)> {
    let gray = rgb_of(0x8b, 0x94, 0x9e);
    let mark = if row.is_bookmarked {
        seq![("*"@, rgb_of(0xdc, 0x8c, 0xff), None::<Rgb>)]
    } else {
        Seq::empty()
    };
    let folded = if row.folded_stack_rows > 0 {
        seq![("+"@ + decimal(row.folded_stack_rows) + " "@, gray, None::<Rgb>)]
    } else {
        Seq::empty()
    };
    let source = match row.source_name {
        Some(name) => seq![("["@ + name + "] "@, gray, None::<Rgb>)],
        None => Seq::empty(),
    };
    mark + folded + source + span_cells_of(row.spans)
}

/// Appends a cell.
pub(crate) fn push_cell(cells: &mut Vec<RowCell>, text: String, color: Rgb, background: Option<Rgb>)
    ensures
        row_cell_views(final(cells)@) == row_cell_views(old(cells)@).push(
            (text@, color, background),
        ),
{
    let ghost before = row_cell_views(cells@);
    cells.push(RowCell { text, color, background });
    assert(row_cell_views(cells@) =~= before.push((text@, color, background)));
}

/// The cells of a row.
pub fn row_cells(row: &RowPresentation) -> (r: Vec<RowCell>)
    ensures
        row_cell_views(r@) == row_cells_of(row@),
{
    let gray = rgb(0x8b, 0x94, 0x9e);
    let mut cells: Vec<RowCell> = Vec::new();
    assert(row_cell_views(cells@) =~= Seq::<(Seq<char>, Rgb, Option<Rgb>)>::empty());
    if row.is_bookmarked {
        push_cell(&mut cells, "*".to_owned(), rgb(0xdc, 0x8c, 0xff), None);
    }
    if row.folded_stack_rows > 0 {
        let mut text = joined("+", &decimal_text(row.folded_stack_rows as u64));
        text.append(" ");
        push_cell(&mut cells, text, gray, None);
    }
    if let Some(name) = &row.source_name {
        let mut text = joined("[", &**name);
        text.append("] ");
        push_cell(&mut cells, text, gray, None);
    }
    let ghost front = row_cell_views(cells@);
    let mut i: usize = 0;
    assert(front =~= front + span_cells_of(row@.spans.subrange(0, 0)));
    while i < row.spans.len()
        invariant
            i <= row.spans@.len(),
            row_cell_views(cells@) == front + span_cells_of(row@.spans.subrange(0, i as int)),
        decreases row.spans@.len() - i,
    {
        let span = &row.spans[i];
        let text: &str = &*span.text;
        let background = if span.kind == SpanKind::SearchMatch {
            Some(rgb(0xc9, 0xd9, 0x6f))
        } else {
            None
        };
        push_cell(&mut cells, text.to_owned(), span_color(span.kind), background);
        i += 1;
        assert(row@.spans[i - 1] == span@);
        assert(row_cell_views(cells@) =~= front + span_cells_of(
            row@.spans.subrange(0, i as int),
        ));
    }
    assert(row@.spans.subrange(0, i as int) =~= row@.spans);
    assert(row_cell_views(cells@) =~= row_cells_of(row@));
    cells
}

/// The background and the border of a row: rows take turns, and the selected one stands out.
pub fn row_frame(index: usize, selected: bool) -> (r: (Rgb, Rgb))
    ensures
        r.0 == if selected {
            rgb_of(0x1f, 0x2a, 0x36)
        } else if index % 2 == 0 {
            rgb_of(0x10, 0x16, 0x1d)
        } else {
            rgb_of(0x0d, 0x11, 0x17)
        },
        r.1 == if selected {
            rgb_of(0x4f, 0x9e, 0xe3)
        } else {
            rgb_of(0x1c, 0x25, 0x30)
        },
{
    let background = if selected {
        rgb(0x1f, 0x2a, 0x36)
    } else if index % 2 == 0 {
        rgb(0x10, 0x16, 0x1d)
    } else {
        rgb(0x0d, 0x11, 0x17)
    };
    let border = if selected {
        rgb(0x4f, 0x9e, 0xe3)
    } else {
        rgb(0x1c, 0x25, 0x30)
    };
    (background, border)
}

/// The background and the border of a command in the palette.
pub fn command_frame(selected: bool) -> (r: (Rgb, Rgb))
    ensures
        r.0 == if selected {
            rgb_of(0x1f, 0x2a, 0x36)
        } else {
            rgb_of(0x10, 0x16, 0x1d)
        },
        r.1 == if selected {
            rgb_of(0x4f, 0x9e, 0xe3)
        } else {
            rgb_of(0x1c, 0x25, 0x30)
        },
{
    if selected {
        (rgb(0x1f, 0x2a, 0x36), rgb(0x4f, 0x9e, 0xe3))
    } else {
        (rgb(0x10, 0x16, 0x1d), rgb(0x1c, 0x25, 0x30))
    }
}

/// The colour of a bucket: errors before warnings before the rest.
pub fn bucket_color(bucket: &TimelineBucket) -> (r: Rgb)
    ensures
        r == if bucket.error > 0 {
            rgb_of(0xdc, 0x4f, 0x4f)
        } else if bucket.warn > 0 {
            rgb_of(0xd6, 0xa3, 0x3d)
        } else {
            rgb_of(0x4f, 0x9e, 0xe3)
        },
{
    if bucket.error_count() > 0 {
        rgb(0xdc, 0x4f, 0x4f)
    } else if bucket.warn_count() > 0 {
        rgb(0xd6, 0xa3, 0x3d)
    } else {
        rgb(0x4f, 0x9e, 0xe3)
    }
}

/// `most` is the greatest number of rows in a bucket.
pub open spec fn is_fullest(buckets: Seq<TimelineBucket>, most: int) -> bool {
    &&& forall|i: int| 0 <= i < buckets.len() ==> (#[trigger] buckets[i]).total <= most
    &&& exists|i: int| 0 <= i < buckets.len() && (#[trigger] buckets[i]).total == most
}

/// The greatest number of rows in a bucket; 1 where there are no buckets.
pub fn fullest_bucket(buckets: &Vec<TimelineBucket>) -> (r: usize)
    ensures
        buckets@.len() == 0 ==> r == 1,
        buckets@.len() > 0 ==> is_fullest(buckets@, r as int),
{
    if buckets.len() == 0 {
        return 1;
    }
    let mut most: usize = buckets[0].total;
    let mut i: usize = 1;
    assert(buckets@[0].total == most);
    while i < buckets.len()
        invariant
            1 <= i <= buckets@.len(),
            forall|k: int| 0 <= k < i ==> (#[trigger] buckets@[k]).total <= most,
            exists|k: int| 0 <= k < i && (#[trigger] buckets@[k]).total == most,
        decreases buckets@.len() - i,
    {
        if buckets[i].total > most {
            most = buckets[i].total;
            assert(buckets@[i as int].total == most);
        }
        i += 1;
    }
    most
}

/// What the sidebar says of a source.
pub open spec fn source_line_of(summary: SourceSummary) -> Seq<char> {
    decimal(summary.rows as nat) + " rows · "@ + decimal(summary.level_counts.warn as nat)
        + " warn · "@ + decimal((summary.level_counts.error + summary.level_counts.fatal) as nat)
        + " error"@
}

/// What the sidebar says of a source.
pub fn source_line(summary: &SourceSummary) -> (r: String)
    requires
        summary.level_counts.error + summary.level_counts.fatal <= usize::MAX,
    ensures
        r@ == source_line_of(*summary),
{
    let errors: usize = summary.level_counts.error + summary.level_counts.fatal;
    let mut out = joined(&decimal_text(summary.rows as u64), " rows · ");
    out.append(&decimal_text(summary.level_counts.warn as u64));
    out.append(" warn · ");
    out.append(&decimal_text(errors as u64));
    out.append(" error");
    out
}

/// What an input shows: its text, with a caret while it has the keys.
pub open spec fn input_text(value: Seq<char>, focused: bool) -> Seq<char> {
    if focused {
        value + "▌"@
    } else if value.len() == 0 {
        "—"@
    } else {
        value
    }
}

/// What an input shows.
pub fn input_display(value: &str, focused: bool) -> (r: String)
    ensures
        r@ == input_text(value@, focused),
{
    if focused {
        joined(value, "▌")
    } else if value.is_empty() {
        "—".to_owned()
    } else {
        value.to_owned()
    }
}

/// A label and its value.
#[derive(Debug, PartialEq, Eq)]
pub struct Metric {
    pub label: &'static str,
    pub value: String,
}

/// The border of an input: it stands out while the input takes the keys.
pub fn input_border(focused: bool) -> (r: Rgb)
    ensures
        r == if focused {
            rgb_of(0x4f, 0x9e, 0xe3)
        } else {
            rgb_of(0x26, 0x31, 0x3b)
        },
{
    if focused {
        rgb(0x4f, 0x9e, 0xe3)
    } else {
        rgb(0x26, 0x31, 0x3b)
    }
}

/// The labels and values of a list.
pub open spec fn metric_views(metrics: Seq<Metric>) -> Seq<(Seq<char>, Seq<char>)> {
    metrics.map_values(|metric: Metric| (metric.label@, metric.value@))
}

impl ListState {
    /// The metrics of the top bar.
    pub open spec fn metrics(self, snapshot: ViewportSnapshot) -> Seq<(Seq<char>, Seq<char>)> {
        seq![
            ("matching"@, decimal(snapshot.total_matching_rows as nat)),
            ("total"@, decimal(snapshot.total_rows as nat)),
            ("warn"@, decimal(snapshot.level_counts.warn as nat)),
            (
                "error"@,
                decimal((snapshot.level_counts.error + snapshot.level_counts.fatal) as nat),
            ),
            (
                "mode"@,
                if self.live {
                    "live"@
                } else {
                    "static"@
                },
            ),
            (
                "follow"@,
                if !self.live {
                    "—"@
                } else if self.follow {
                    "on"@
                } else {
                    "off"@
                },
            ),
            (
                "level"@,
                if self.level is None {
                    "off"@
                } else {
                    level_text(self.level)
                },
            ),
            (
                "saved"@,
                match self.use_filter {
                    Some(name) => name,
                    None => "—"@,
                },
            ),
            ("bookmarks"@, decimal(self.engine.session.bookmarks.len())),
            ("filter"@, input_text(self.filter_input, self.focus == InputFocus::Filter)),
            ("search"@, input_text(self.search_input, self.focus == InputFocus::Search)),
        ]
    }

    /// The status of the top bar: the last message, or else what the list does.
    pub open spec fn status_line(self) -> Seq<char> {
        match self.status {
            Some(message) => message,
            None => if !self.live {
                "loaded once"@
            } else if self.follow {
                "following appended lines"@
            } else {
                "paused — press End or f to follow"@
            },
        }
    }

    /// The note on rows that were dropped.
    pub open spec fn truncation(self) -> Option<Seq<char>> {
        if self.engine.index.evicted > 0 {
            Some("truncated: -"@ + decimal(self.engine.index.evicted))
        } else {
            None
        }
    }
}

/// Appends a metric.
fn push_metric(metrics: &mut Vec<Metric>, label: &'static str, value: String)
    ensures
        metric_views(final(metrics)@) == metric_views(old(metrics)@).push((label@, value@)),
{
    let ghost before = metric_views(metrics@);
    metrics.push(Metric { label, value });
    assert(metric_views(metrics@) =~= before.push((label@, value@)));
}

impl ListApp {
    /// The metrics of the top bar.
    pub fn top_bar(&self, snapshot: &ViewportSnapshot) -> (r: Vec<Metric>)
        requires
            snapshot.level_counts.error + snapshot.level_counts.fatal <= usize::MAX,
        ensures
            metric_views(r@) == self@.metrics(*snapshot),
    {
        let errors: usize = snapshot.level_counts.error + snapshot.level_counts.fatal;
        let mode = if self.live {
            "live"
        } else {
            "static"
        };
        let follow = if !self.live {
            "—"
        } else if self.follow {
            "on"
        } else {
            "off"
        };
        let level = if self.current_level.is_none() {
            "off"
        } else {
            level_label(self.current_level)
        };
        let saved = match &self.current_use_filter {
            Some(name) => name.clone(),
            None => "—".to_owned(),
        };
        let marks: usize = self.engine.session().bookmarks.len();
        let mut out: Vec<Metric> = Vec::new();
        assert(metric_views(out@) =~= Seq::<(Seq<char>, Seq<char>)>::empty());
        push_metric(&mut out, "matching", decimal_text(snapshot.total_matching_rows as u64));
        push_metric(&mut out, "total", decimal_text(snapshot.total_rows as u64));
        push_metric(&mut out, "warn", decimal_text(snapshot.level_counts.warn as u64));
        push_metric(&mut out, "error", decimal_text(errors as u64));
        push_metric(&mut out, "mode", mode.to_owned());
        push_metric(&mut out, "follow", follow.to_owned());
        push_metric(&mut out, "level", level.to_owned());
        push_metric(&mut out, "saved", saved);
        push_metric(&mut out, "bookmarks", decimal_text(marks as u64));
        push_metric(
            &mut out,
            "filter",
            input_display(self.filter_input.value(), self.input_focus == InputFocus::Filter),
        );
        push_metric(
            &mut out,
            "search",
            input_display(self.search_input.value(), self.input_focus == InputFocus::Search),
        );
        assert(metric_views(out@) =~= self@.metrics(*snapshot));
        out
    }

    /// The status of the top bar.
    pub fn status_line(&self) -> (r: String)
        ensures
            r@ == self@.status_line(),
    {
        match &self.status_message {
            Some(message) => message.clone(),
            None => if !self.live {
                "loaded once".to_owned()
            } else if self.follow {
                "following appended lines".to_owned()
            } else {
                "paused — press End or f to follow".to_owned()
            },
        }
    }

    /// The note on rows that were dropped.
    pub fn truncation_note(&self) -> (r: Option<String>)
        ensures
            optional_text(r) == self@.truncation(),
    {
        let evicted: u64 = self.engine.evicted_row_count();
        if evicted > 0 {
            Some(joined("truncated: -", &decimal_text(evicted)))
        } else {
            None
        }
    }
}

/// What the details of a row say.
pub open spec fn details_of(row: PresentationView) -> Seq<(Seq<char>, Seq<char>)> {
    let level = match row.level {
        Some(level) => seq![("level"@, level.label())],
        None => Seq::empty(),
    };
    seq![
        ("row"@, decimal(row.row_id.0 as nat)),
        ("source"@, decimal(row.source_id.0 as nat)),
    ] + level + crate::model::field_pairs(row.spans, None)
}

/// A name and its value.
#[derive(Debug, PartialEq, Eq)]
pub struct DetailLine {
    pub name: String,
    pub value: String,
}

/// The names and values of a list.
pub open spec fn detail_views(lines: Seq<DetailLine>) -> Seq<(Seq<char>, Seq<char>)> {
    lines.map_values(|line: DetailLine| (line.name@, line.value@))
}

/// Appends a line.
fn push_detail(lines: &mut Vec<DetailLine>, name: &str, value: String)
    ensures
        detail_views(final(lines)@) == detail_views(old(lines)@).push((name@, value@)),
{
    let ghost before = detail_views(lines@);
    lines.push(DetailLine { name: name.to_owned(), value });
    assert(detail_views(lines@) =~= before.push((name@, value@)));
}

/// The details of a row.
pub fn detail_lines(row: &RowPresentation) -> (r: Vec<DetailLine>)
    ensures
        detail_views(r@) == details_of(row@),
{
    let mut lines: Vec<DetailLine> = Vec::new();
    assert(detail_views(lines@) =~= Seq::<(Seq<char>, Seq<char>)>::empty());
    push_detail(&mut lines, "row", decimal_text(row.row_id.0));
    push_detail(&mut lines, "source", decimal_text(row.source_id.0));
    if let Some(level) = row.level {
        push_detail(&mut lines, "level", level.name().to_owned());
    }
    let ghost front = detail_views(lines@);
    let fields = row.json_fields();
    let ghost pairs = crate::model::pair_views(fields@);
    let mut i: usize = 0;
    assert(front =~= front + pairs.subrange(0, 0));
    while i < fields.len()
        invariant
            i <= fields@.len(),
            pairs == crate::model::pair_views(fields@),
            detail_views(lines@) == front + pairs.subrange(0, i as int),
        decreases fields@.len() - i,
    {
        let value: &str = &*fields[i].1;
        push_detail(&mut lines, &*fields[i].0, value.to_owned());
        i += 1;
        assert(pairs[i - 1] == ((*fields@[i - 1].0)@, (*fields@[i - 1].1)@));
        assert(detail_views(lines@) =~= front + pairs.subrange(0, i as int));
    }
    assert(pairs.subrange(0, i as int) =~= pairs);
    assert(detail_views(lines@) =~= details_of(row@));
    lines
}

// ---------------------------------------------------------------------------
// Laws
// ---------------------------------------------------------------------------

/// The filter reached from none in `n` steps through `total` saved ones.
pub open spec fn cycled(n: nat, total: int) -> Option<int>
    decreases n,
{
    if n == 0 {
        None
    } else {
        cycle_after(cycled((n - 1) as nat, total), total)
    }
}

/// Cycling visits every saved filter in turn and then none again.
pub proof fn law_cycle_visits_all(n: nat, total: int)
    requires
        0 < total,
        n <= total + 1,
    ensures
        cycled(n, total) == if n == 0 || n == total + 1 {
            None
        } else {
            Some(n - 1)
        },
    decreases n,
{
    if n > 0 {
        law_cycle_visits_all((n - 1) as nat, total);
    }
}

/// A move stays within the list; there is a position exactly where the list is not empty.
pub proof fn law_moves_stay_in_the_list(current: Option<int>, delta: int, total: int)
    requires
        0 <= total,
    ensures
        position_after(current, delta, total) is Some == (total > 0),
        position_after(current, delta, total) matches Some(next) ==> 0 <= next < total,
{
}

/// While keys go to an input or to the palette, no action scrolls the list, filters it or marks
/// a row, except what is submitted there.
#[verifier::spinoff_prover]
pub proof fn law_typing_disables_shortcuts(state: ListState, action: ListAction, top: int)
    requires
        state.input_focused(),
        !(action is SubmitInput),
    ensures
        state.after(action, top).effects == no_effects(),
        state.after(action, top).state.engine == state.engine,
        state.after(action, top).state.selected == state.selected,
{
}

/// While the palette is open, the arrow and page keys move its highlight as the letter keys do.
#[verifier::spinoff_prover]
pub proof fn law_arrows_move_the_highlight(state: ListState, top: int)
    requires
        state.palette_open,
    ensures
        state.after(ListAction::ScrollUp, top) == state.after(ListAction::SelectUp, top),
        state.after(ListAction::ScrollDown, top) == state.after(ListAction::SelectDown, top),
        state.after(ListAction::PageUp, top) == state.after(ListAction::SelectPageUp, top),
        state.after(ListAction::PageDown, top) == state.after(ListAction::SelectPageDown, top),
{
}

/// What is typed in and then given up leaves no trace in the input.
pub proof fn law_escape_restores_the_input(state: ListState, top: int)
    requires
        state.focus == InputFocus::Filter,
        !state.palette_open,
    ensures
        ({
            let after = state.after(ListAction::BlurInput, top).state;
            after.filter_input == text_or_empty(state.text) && after.engine == state.engine
                && after.focus == InputFocus::Nowhere
        }),
{
}

/// The palette offers every saved filter.
pub proof fn law_palette_offers_saved_filters(saved: Seq<SavedView>, i: int)
    requires
        0 <= i < saved.len(),
    ensures
        palette_of(saved).contains(CommandView::ApplySavedFilter(saved[i].name)),
        palette_of(saved).last() == CommandView::Quit,
{
    assert(palette_of(saved)[6 + i] == CommandView::ApplySavedFilter(saved[i].name));
}

/// The scroll keys move the row at the top by one row or by 25, within the list; home goes to the
/// first row. Going up ends following, and the end of the list is followed from then on.
#[verifier::spinoff_prover]
pub proof fn law_scroll_keys_of_the_list(state: ListState, top: int)
    requires
        !state.input_focused(),
        0 <= top < state.item_count <= usize::MAX,
    ensures
        ({
            let up = state.after(ListAction::ScrollUp, top);
            let down = state.after(ListAction::ScrollDown, top);
            let page_up = state.after(ListAction::PageUp, top);
            let page_down = state.after(ListAction::PageDown, top);
            let home = state.after(ListAction::ScrollHome, top);
            let end = state.after(ListAction::ScrollEnd, top);
            let last = state.item_count - 1;
            &&& top > 0 ==> up.effects.scroll == Some(ScrollTo::Top((top - 1) as usize))
            &&& top == 0 ==> up.effects.scroll == Some(ScrollTo::Top(0))
            &&& top < last ==> down.effects.scroll == Some(ScrollTo::Top((top + 1) as usize))
            &&& top == last ==> down.effects.scroll == Some(ScrollTo::Top(last as usize))
            &&& top >= 25 ==> page_up.effects.scroll == Some(ScrollTo::Top((top - 25) as usize))
            &&& top + 25 <= last ==> page_down.effects.scroll == Some(
                ScrollTo::Top((top + 25) as usize),
            )
            &&& home.effects.scroll == Some(ScrollTo::Top(0))
            &&& end.effects.scroll == Some(ScrollTo::Reveal(last as usize))
            &&& !up.state.follow && !page_up.state.follow && !home.state.follow && end.state.follow
            &&& down.state.follow == state.follow && page_down.state.follow == state.follow
            &&& up.state.engine == state.engine && down.state.engine == state.engine
                && home.state.engine == state.engine && end.state.engine == state.engine
        }),
{
    reveal(ListState::free_action);
}

/// A lowest severity, a saved filter and a text that are chosen are used together: after each choice
/// the filter in use is the one that the three of them come to.
#[verifier::spinoff_prover]
pub proof fn law_choices_are_used_together(state: ListState, level: Option<LevelArg>, top: int)
    requires
        !state.input_focused(),
    ensures
        ({
            let after = state.after(ListAction::SetLevel(level), top).state;
            let (engine, error) = applied(
                state.engine,
                state.text,
                optional_level(level),
                state.use_filter,
                None,
            );
            &&& after.level == level && after.text == state.text && after.use_filter
                == state.use_filter
            &&& after.engine == engine
            &&& error is None ==> after.item_count == engine.listed().len()
        }),
{
    reveal(ListState::free_action);
    let (engine, error) = applied(
        state.engine,
        state.text,
        optional_level(level),
        state.use_filter,
        None,
    );
    crate::startup::law_filters_at_the_start(
        state.engine,
        state.text,
        optional_level(level),
        state.use_filter,
        None,
    );
}

/// Enter in the filter input uses the text without the whitespace around it, together with the
/// severity and the saved filter, and leaves the input; a blank text is none.
#[verifier::spinoff_prover]
pub proof fn law_typed_filter_of_the_list(state: ListState, top: int)
    requires
        !state.palette_open,
        state.focus == InputFocus::Filter,
    ensures
        ({
            let after = state.after(ListAction::SubmitInput, top).state;
            let words = trimmed(state.filter_input);
            let text = if words.len() > 0 {
                Some(words)
            } else {
                None
            };
            &&& after.text == text && after.focus == InputFocus::Nowhere
            &&& after.level == state.level && after.use_filter == state.use_filter
            &&& after.engine == applied(
                state.engine,
                text,
                optional_level(state.level),
                state.use_filter,
                None,
            ).0
        }),
{
    reveal(ListState::submitted);
    let words = trimmed(state.filter_input);
    let text = if words.len() > 0 {
        Some(words)
    } else {
        None
    };
    crate::startup::law_filters_at_the_start(
        state.engine,
        text,
        optional_level(state.level),
        state.use_filter,
        None,
    );
}

/// Enter in the search input searches for the text without the whitespace around it, goes to a hit
/// where there is one, and leaves the input; a blank text ends the search.
#[verifier::spinoff_prover]
pub proof fn law_typed_search_of_the_list(state: ListState, top: int)
    requires
        !state.palette_open,
        state.focus == InputFocus::Search,
    ensures
        ({
            let after = state.after(ListAction::SubmitInput, top).state;
            let words = trimmed(state.search_input);
            let engine = EngineView {
                search: if words.len() > 0 {
                    Some(words)
                } else {
                    None
                },
                ..state.engine
            };
            let hit = hit_after(engine.hits(), state.selected, false);
            &&& after.engine == engine && after.search == engine.search && after.focus
                == InputFocus::Nowhere
            &&& hit is Some ==> after.selected == hit && !after.follow
            &&& hit is None ==> after.selected == state.selected && after.follow == state.follow
        }),
{
    reveal(ListState::submitted);
}

/// The selection moves by one row or by 25, within the list, and is brought in sight; following
/// ends. Nothing else changes.
#[verifier::spinoff_prover]
pub proof fn law_selection_of_the_list(state: ListState, p: int, down: bool, top: int)
    requires
        state.engine.wf(),
        !state.input_focused(),
        state.item_count == state.engine.listed().len(),
        state.item_count <= usize::MAX,
        0 <= p < state.engine.listed().len(),
        state.selected == Some(state.engine.listed()[p].row_id),
    ensures
        ({
            let rows = state.engine.listed();
            let one = state.after(
                if down {
                    ListAction::SelectDown
                } else {
                    ListAction::SelectUp
                },
                top,
            );
            let page = state.after(
                if down {
                    ListAction::SelectPageDown
                } else {
                    ListAction::SelectPageUp
                },
                top,
            );
            let next = if down && p + 1 < rows.len() {
                p + 1
            } else if !down && p > 0 {
                p - 1
            } else {
                p
            };
            let far = if down {
                if p + 25 < rows.len() {
                    p + 25
                } else {
                    rows.len() - 1
                }
            } else {
                if p > 25 {
                    p - 25
                } else {
                    0
                }
            };
            &&& one.state == (ListState {
                selected: Some(rows[next].row_id),
                follow: false,
                ..state
            })
            &&& one.effects.scroll == Some(ScrollTo::Reveal(next as usize))
            &&& page.state == (ListState {
                selected: Some(rows[far].row_id),
                follow: false,
                ..state
            })
        }),
{
    let ids = ids_of(state.engine.listed());
    crate::laws::law_listed_ids_differ(state.engine);
    assert(ids[p] == state.engine.listed()[p].row_id);
    assert forall|i: int| 0 <= i < p implies #[trigger] ids[i] != ids[p] by {}
    crate::viewport::law_place_in_a_list(ids, ids[p], p);
}

/// From nowhere a move down selects the first row and a move up the last one.
#[verifier::spinoff_prover]
pub proof fn law_first_selection_of_the_list(state: ListState, top: int)
    requires
        !state.input_focused(),
        state.item_count == state.engine.listed().len(),
        0 < state.item_count <= usize::MAX,
        state.selected is None,
    ensures
        state.after(ListAction::SelectDown, top).state.selected == Some(
            state.engine.listed()[0].row_id,
        ),
        state.after(ListAction::SelectUp, top).state.selected == Some(
            state.engine.listed()[state.engine.listed().len() - 1].row_id,
        ),
{
}

/// The keys for hits select the next and the previous one and end following; the key for bookmarks
/// toggles the one of the selected row and has the session saved; the key for following switches it.
#[verifier::spinoff_prover]
pub proof fn law_other_keys_of_the_list(state: ListState, top: int)
    requires
        !state.input_focused(),
    ensures
        ({
            let next = state.after(ListAction::NextSearchMatch, top).state;
            let previous = state.after(ListAction::PrevSearchMatch, top).state;
            let marked = state.after(ListAction::ToggleBookmark, top);
            let follow = state.after(ListAction::ToggleFollow, top);
            let cleared = state.after(ListAction::ClearSearch, top).state;
            let forwards = hit_after(state.engine.hits(), state.selected, false);
            let backwards = hit_after(state.engine.hits(), state.selected, true);
            &&& forwards is Some ==> next.selected == forwards && !next.follow
            &&& backwards is Some ==> previous.selected == backwards && !previous.follow
            &&& forwards is None ==> next.selected == state.selected && next.follow == state.follow
            &&& next.engine == state.engine && previous.engine == state.engine
            &&& state.selected is None ==> marked.state.engine == state.engine
                && !marked.effects.save
            &&& state.selected matches Some(row_id) ==> marked.effects.save
                && marked.state.engine.session.bookmarks == toggled(
                state.engine.session.bookmarks,
                row_id,
                None,
            )
            &&& follow.state.follow == !state.follow && follow.state.engine == state.engine
            &&& !state.follow ==> follow.effects.scroll == reveal_last(state.item_count)
            &&& cleared.engine == (EngineView { search: None, ..state.engine }) && cleared.search
                is None && cleared.search_input.len() == 0
        }),
{
    reveal(ListState::free_action);
}

/// The commands of the palette do what the keys do; clearing the filter gives up the text, the
/// severity and the saved filter; the last command ends the program, and no other does.
#[verifier::spinoff_prover]
pub proof fn law_commands_of_the_palette(state: ListState, name: Seq<char>)
    ensures
        ({
            let cleared = state.commanded(CommandView::ClearFilter).state;
            let applied_one = state.commanded(CommandView::ApplySavedFilter(name)).state;
            &&& cleared.text is None && cleared.level is None && cleared.use_filter is None
                && cleared.cycle is None && cleared.filter_input.len() == 0
            &&& cleared.engine == applied(state.engine, None, None, None, None).0
            &&& applied_one.use_filter == Some(name)
            &&& applied_one.engine == applied(
                state.engine,
                state.text,
                optional_level(state.level),
                Some(name),
                None,
            ).0
            &&& state.commanded(CommandView::NextSearch) == state.match_jumped(false)
            &&& state.commanded(CommandView::PrevSearch) == state.match_jumped(true)
            &&& state.commanded(CommandView::ToggleFollow).state.follow == !state.follow
            &&& state.commanded(CommandView::Quit).effects.quit
            &&& !state.commanded(CommandView::ToggleFollow).effects.quit
            &&& !state.commanded(CommandView::ClearFilter).effects.quit
        }),
{
    crate::startup::law_filters_at_the_start(state.engine, None, None, None, None);
    crate::startup::law_filters_at_the_start(
        state.engine,
        state.text,
        optional_level(state.level),
        Some(name),
        None,
    );
}

/// A frame takes in what came: while following, rows that came bring the last row in sight.
#[verifier::spinoff_prover]
pub proof fn law_frames_follow_the_list(state: ListState, rows: Seq<crate::model::RowView>)
    requires
        rows.len() > 0,
    ensures
        ({
            let step = state.framed(seq![EventView::RowsAppended(rows)], false);
            let engine = state.engine.with_rows(rows);
            &&& step.state.engine == engine
            &&& step.state.item_count == engine.listed().len()
            &&& step.effects.refresh && !step.effects.save && !step.effects.quit
            &&& state.follow ==> step.effects.scroll == reveal_last(engine.listed().len() as int)
        }),
{
    let events = seq![EventView::RowsAppended(rows)];
    assert(events.drop_last() =~= Seq::<EventView>::empty());
    assert(state.with_events(events.drop_last()) == state);
    assert(events.last() == EventView::RowsAppended(rows));
    assert(is_change(events[0]));
    assert(state.with_events(events) == state.with_event(EventView::RowsAppended(rows)));
}

/// A key types the one character that it stands for, unless that is a control character or a key
/// other than shift is held with it.
pub proof fn law_keys_type_single_characters(
    text: Seq<char>,
    command: bool,
    control: bool,
    alt: bool,
    function: bool,
)
    ensures
        typed_char(None, command, control, alt, function) is None,
        typed_char(Some(text), command, control, alt, function) == if text.len() == 1 && !command
            && !control && !alt && !function && !(text[0] <= '\u{1f}' || ('\u{7f}' <= text[0]
            && text[0] <= '\u{9f}')) {
            Some(text[0])
        } else {
            None
        },
{
}

/// Switching from one input to the other drops what was not submitted in the first; the palette does
/// not open while an input has the keys.
pub proof fn law_inputs_of_the_list(state: ListState, top: int, c: char)
    requires
        !state.palette_open,
    ensures
        ({
            let filter = state.after(ListAction::FocusFilterInput, top).state;
            let search = state.after(ListAction::FocusSearchInput, top).state;
            let palette = state.after(ListAction::TogglePalette, top).state;
            let typed = state.after(ListAction::TypeChar(c), top).state;
            &&& filter.focus == InputFocus::Filter && search.focus == InputFocus::Search
            &&& filter.engine == state.engine && search.engine == state.engine
            &&& state.focus == InputFocus::Search ==> filter.search_input == text_or_empty(
                state.search,
            )
            &&& state.focus == InputFocus::Filter ==> search.filter_input == text_or_empty(
                state.text,
            )
            &&& palette.palette_open == (state.focus == InputFocus::Nowhere)
            &&& palette.palette_open ==> palette.palette_cursor == 0
            &&& state.focus == InputFocus::Filter ==> typed == (ListState {
                filter_input: state.filter_input.push(c),
                ..state
            })
            &&& state.focus == InputFocus::Search ==> typed == (ListState {
                search_input: state.search_input.push(c),
                ..state
            })
            &&& state.focus == InputFocus::Nowhere ==> typed == state
        }),
{
}

/// The metrics of the top bar, in their order: how many rows are listed and held, the warnings, the
/// errors of both kinds, whether the list is live and followed, the severity, the saved filter and the
/// bookmarks.
pub proof fn law_metrics_of_the_list(state: ListState, snapshot: ViewportSnapshot)
    ensures
        ({
            let metrics = state.metrics(snapshot);
            &&& metrics[0] == ("matching"@, decimal(snapshot.total_matching_rows as nat))
            &&& metrics[1] == ("total"@, decimal(snapshot.total_rows as nat))
            &&& metrics[2] == ("warn"@, decimal(snapshot.level_counts.warn as nat))
            &&& metrics[3] == (
                "error"@,
                decimal((snapshot.level_counts.error + snapshot.level_counts.fatal) as nat),
            )
            &&& metrics[4].0 == "mode"@ && metrics[4].1 == if state.live {
                "live"@
            } else {
                "static"@
            }
            &&& metrics[5].0 == "follow"@
            &&& state.live && state.follow ==> metrics[5].1 == "on"@
            &&& state.live && !state.follow ==> metrics[5].1 == "off"@
            &&& !state.live ==> metrics[5].1 == "—"@
            &&& metrics[6].0 == "level"@ && (state.level is None ==> metrics[6].1 == "off"@)
            &&& state.level is Some ==> metrics[6].1 == level_text(state.level)
            &&& metrics[7].0 == "saved"@
            &&& state.use_filter matches Some(name) ==> metrics[7].1 == name
            &&& metrics[8] == ("bookmarks"@, decimal(state.engine.session.bookmarks.len()))
            &&& metrics[9].0 == "filter"@ && metrics[10].0 == "search"@
            &&& state.focus == InputFocus::Filter ==> metrics[9].1 == state.filter_input + "▌"@
            &&& state.focus == InputFocus::Search ==> metrics[10].1 == state.search_input + "▌"@
            &&& state.focus != InputFocus::Filter && state.filter_input.len() > 0 ==> metrics[9].1
                == state.filter_input
            &&& state.focus != InputFocus::Search && state.search_input.len() > 0 ==> metrics[10].1
                == state.search_input
            &&& metrics.len() == 11
        }),
{
}

/// The last message stands in the top bar until there is none; how many rows were dropped is told
/// where some were.
pub proof fn law_notes_of_the_list(state: ListState)
    ensures
        state.status matches Some(message) ==> state.status_line() == message,
        state.status is None && !state.live ==> state.status_line() == "loaded once"@,
        state.status is None && state.live && state.follow ==> state.status_line()
            == "following appended lines"@,
        state.status is None && state.live && !state.follow ==> state.status_line()
            == "paused — press End or f to follow"@,
        state.engine.index.evicted == 0 ==> state.truncation() is None,
        state.engine.index.evicted > 0 ==> state.truncation() == Some(
            "truncated: -"@ + decimal(state.engine.index.evicted),
        ),
{
}

/// A row of the list ends in its spans; before them stand a mark where it is bookmarked, how many rows
/// are folded into it where there are some, and the name of its source where it has one.
pub proof fn law_cells_of_the_list(row: PresentationView, name: Seq<char>, folded: nat)
    requires
        folded > 0,
    ensures
        ({
            let plain = PresentationView {
                source_name: None,
                is_bookmarked: false,
                folded_stack_rows: 0,
                ..row
            };
            let named = row_cells_of(PresentationView { source_name: Some(name), ..plain });
            let marked = row_cells_of(PresentationView { is_bookmarked: true, ..plain });
            let longer = row_cells_of(PresentationView { folded_stack_rows: folded, ..plain });
            &&& row_cells_of(plain) == span_cells_of(row.spans)
            &&& named[0].0 == "["@ + name + "] "@ && named.skip(1) == span_cells_of(row.spans)
            &&& marked[0].0 == "*"@ && marked.skip(1) == span_cells_of(row.spans)
            &&& longer[0].0 == "+"@ + decimal(folded) + " "@ && longer.skip(1) == span_cells_of(
                row.spans,
            )
        }),
{
    let plain = PresentationView {
        source_name: None,
        is_bookmarked: false,
        folded_stack_rows: 0,
        ..row
    };
    let spans = span_cells_of(row.spans);
    assert(row_cells_of(plain) =~= spans);
    assert(row_cells_of(PresentationView { source_name: Some(name), ..plain }).skip(1) =~= spans);
    assert(row_cells_of(PresentationView { is_bookmarked: true, ..plain }).skip(1) =~= spans);
    assert(row_cells_of(PresentationView { folded_stack_rows: folded, ..plain }).skip(1) =~= spans);
}

/// The cells of a row show the texts of its spans; only what was searched for has a background.
pub proof fn law_colours_of_the_list(spans: Seq<SpanView>, k: int)
    requires
        0 <= k < spans.len(),
    ensures
        span_cells_of(spans).len() == spans.len(),
        span_cells_of(spans)[k].0 == spans[k].text,
        span_cells_of(spans)[k].2 is Some <==> spans[k].kind == SpanKind::SearchMatch,
        span_color_of(SpanKind::Error) != span_color_of(SpanKind::Warning),
        span_color_of(SpanKind::Error) != span_color_of(SpanKind::Message),
        span_color_of(SpanKind::Warning) != span_color_of(SpanKind::Message),
        severity_color_of(SeverityRole::Fatal) == severity_color_of(SeverityRole::Error),
        severity_color_of(SeverityRole::Error) != severity_color_of(SeverityRole::Warn),
        severity_color_of(SeverityRole::Warn) != severity_color_of(SeverityRole::Info),
        severity_color_of(SeverityRole::Error) != severity_color_of(SeverityRole::Info),
{
}

/// The line under a source tells its rows, its warnings and its errors of both kinds.
pub proof fn law_source_lines_of_the_list(summary: SourceSummary)
    ensures
        source_line_of(summary) == decimal(summary.rows as nat) + " rows · "@ + decimal(
            summary.level_counts.warn as nat,
        ) + " warn · "@ + decimal(
            (summary.level_counts.error + summary.level_counts.fatal) as nat,
        ) + " error"@,
{
}

} // verus!
