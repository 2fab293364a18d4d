//! Following a file: which bytes make a row, and what to do when the file is renamed, truncated
//! or cannot be read. The reading itself is done by the caller, which performs one request after
//! the other and hands back what came of it.
use crate::events::{event_views, EventView, LogEvent};
use crate::model::{row_views, ByteRange, LogRow, RowId, RowView, SourceId};
use crate::parser::{law_rows_keep_their_line, LogParser, ParserChoice};
use vstd::prelude::*;
use vstd::utf8::{decode_utf8, valid_utf8};

verus! {

/// How many events may wait between a source and its consumer.
pub const DEFAULT_TAILER_CHANNEL_CAPACITY: usize = 16384;

/// How many rows are sent in one event at most.
pub const MAX_BATCH_ROWS: usize = 256;

/// How long to wait before looking at the file again, in milliseconds.
pub const POLL_INTERVAL_MILLIS: u64 = 200;

/// `line` without the newline at its end, and without the carriage return before it.
pub open spec fn without_terminator(line: Seq<u8>) -> Seq<u8> {
    let text = if line.len() > 0 && line.last() == 10u8 {
        line.drop_last()
    } else {
        line
    };
    if text.len() > 0 && text.last() == 13u8 {
        text.drop_last()
    } else {
        text
    }
}

/// The text of some bytes in UTF-8, as `String::from_utf8_lossy` decodes them.
pub uninterp spec fn lossy_text(bytes: Seq<u8>) -> Seq<char>;

/// Decodes bytes. Calls `String::from_utf8_lossy`: valid UTF-8 is decoded as it is; how much
/// each replacement character stands for where it is not valid is left to the name.
#[verifier::external_body]
pub(crate) fn decode_lossy(bytes: &[u8]) -> (r: String)
    ensures
        r@ == lossy_text(bytes@),
        valid_utf8(bytes@) ==> r@ == decode_utf8(bytes@),
{
    String::from_utf8_lossy(bytes).into_owned()
}

/// `line` without its terminator: a newline, or a carriage return and a newline.
pub fn trim_line_terminator(line: &[u8]) -> (r: &[u8])
    ensures
        r@ == without_terminator(line@),
{
    let mut end: usize = line.len();
    if end > 0 && line[end - 1] == 10u8 {
        end -= 1;
        assert(line@.subrange(0, end as int) =~= line@.drop_last());
    } else {
        assert(line@.subrange(0, end as int) =~= line@);
    }
    let ghost text = line@.subrange(0, end as int);
    if end > 0 && line[end - 1] == 13u8 {
        assert(text.last() == line@[end - 1]);
        assert(text.drop_last() =~= line@.subrange(0, end - 1));
        end -= 1;
    } else if end > 0 {
        assert(text.last() == line@[end - 1]);
    }
    let (head, _) = line.split_at(end);
    head
}

/// How far a source has been read: the bytes up to `offset` have become rows, `pending` is the
/// start of a line that is not complete yet, and `next_row` numbers the rows.
#[derive(Debug)]
pub struct LineCursor {
    offset: u64,
    pending: Vec<u8>,
    next_row: u64,
}

/// A cursor as a value of mathematics.
#[verifier::ext_equal]
pub ghost struct CursorView {
    pub offset: nat,
    pub pending: Seq<u8>,
    pub next_row: nat,
}

impl View for LineCursor {
    type V = CursorView;

    closed spec fn view(&self) -> CursorView {
        CursorView {
            offset: self.offset as nat,
            pending: self.pending@,
            next_row: self.next_row as nat,
        }
    }
}

impl CursorView {
    /// The bytes that have been read: those in rows and those pending.
    pub open spec fn consumed(self) -> nat {
        self.offset + self.pending.len()
    }

    /// The row that the pending bytes followed by `bytes` make.
    pub open spec fn row<P: LogParser>(self, parser: &P, source_id: SourceId, bytes: Seq<u8>) -> RowView {
        parser.row_of(
            source_id,
            RowId(self.next_row as u64),
            ByteRange {
                start: self.offset as u64,
                end: (self.consumed() + bytes.len()) as u64,
            },
            lossy_text(without_terminator(self.pending + bytes)),
        )
    }

    /// The cursor after that row.
    pub open spec fn past_row(self, bytes: Seq<u8>) -> CursorView {
        CursorView {
            offset: self.consumed() + bytes.len(),
            pending: Seq::empty(),
            next_row: self.next_row + 1,
        }
    }

    /// The cursor after the start of a line.
    pub open spec fn holding(self, bytes: Seq<u8>) -> CursorView {
        CursorView { pending: self.pending + bytes, ..self }
    }

    /// `bytes` completes a row: a line has its newline, or the source ends for good, in which
    /// case what there is of a line is the last row.
    pub open spec fn completes(self, bytes: Seq<u8>, flush: bool) -> bool {
        if bytes.len() == 0 {
            flush && self.pending.len() > 0
        } else {
            flush || bytes.last() == 10u8
        }
    }

    /// The cursor after a read that gave `bytes`; none at the end of the source.
    pub open spec fn after_read(self, bytes: Seq<u8>, flush: bool) -> CursorView {
        if self.completes(bytes, flush) {
            self.past_row(bytes)
        } else {
            self.holding(bytes)
        }
    }

    /// The rows that a read gives: one or none.
    pub open spec fn rows_read<P: LogParser>(
        self,
        parser: &P,
        source_id: SourceId,
        bytes: Seq<u8>,
        flush: bool,
    ) -> Seq<RowView> {
        if self.completes(bytes, flush) {
            seq![self.row(parser, source_id, bytes)]
        } else {
            Seq::empty()
        }
    }

    /// Offsets and row numbers fit their types when `more` bytes are read.
    pub open spec fn has_room(self, more: nat) -> bool {
        self.consumed() + more <= u64::MAX && self.next_row < u64::MAX
    }
}

impl LineCursor {
    /// The start of a source.
    pub fn new() -> (r: LineCursor)
        ensures
            r@ == (CursorView { offset: 0, pending: Seq::empty(), next_row: 0 }),
    {
        let r = LineCursor { offset: 0, pending: Vec::new(), next_row: 0 };
        assert(r@ =~= (CursorView { offset: 0, pending: Seq::empty(), next_row: 0 }));
        r
    }

    /// Goes to `offset` and forgets what is pending; rows are numbered on.
    pub fn jump(&mut self, offset: u64)
        ensures
            final(self)@ == (CursorView {
                offset: offset as nat,
                pending: Seq::empty(),
                next_row: old(self)@.next_row,
            }),
    {
        self.offset = offset;
        self.pending = Vec::new();
    }

    /// The bytes up to which the source has become rows.
    pub fn offset(&self) -> (r: u64)
        ensures
            r == self@.offset,
    {
        self.offset
    }

    /// The bytes that have been read.
    pub fn consumed(&self) -> (r: u64)
        requires
            self@.consumed() <= u64::MAX,
        ensures
            r == self@.consumed(),
    {
        self.offset + self.pending.len() as u64
    }

    /// Takes the bytes of one read up to and including a newline, or up to the end of the source,
    /// and appends the row that they complete to `batch`. An incomplete line is held back until
    /// its newline arrives, unless `flush` says that none will.
    pub fn take<P: LogParser>(
        &mut self,
        parser: &P,
        source_id: SourceId,
        bytes: &[u8],
        flush: bool,
        batch: &mut Vec<LogRow>,
    )
        requires
            old(self)@.has_room(bytes@.len()),
        ensures
            final(self)@ == old(self)@.after_read(bytes@, flush),
            row_views(final(batch)@) == row_views(old(batch)@) + old(self)@.rows_read(
                parser,
                source_id,
                bytes@,
                flush,
            ),
    {
        let ghost before = self@;
        let ghost rows = row_views(batch@);
        let count: usize = bytes.len();
        let complete: bool = if count == 0 {
            flush && self.pending.len() > 0
        } else {
            flush || bytes[count - 1] == 10u8
        };
        extend_bytes(&mut self.pending, bytes);
        if complete {
            let end: u64 = self.offset + self.pending.len() as u64;
            let text = decode_lossy(trim_line_terminator(self.pending.as_slice()));
            let row = parser.parse_line(
                source_id,
                RowId(self.next_row),
                ByteRange { start: self.offset, end },
                &text,
            );
            self.next_row = self.next_row + 1;
            self.offset = end;
            self.pending = Vec::new();
            batch.push(row);
            assert(row_views(batch@) =~= rows.push(row@));
            assert(rows.push(row@) =~= rows + seq![row@]);
            assert(self@ =~= before.past_row(bytes@));
        } else {
            assert(row_views(batch@) =~= rows + Seq::<RowView>::empty());
            assert(self@ =~= before.holding(bytes@));
        }
    }
}

/// Appends bytes.
fn extend_bytes(target: &mut Vec<u8>, bytes: &[u8])
    ensures
        final(target)@ == old(target)@ + bytes@,
{
    let ghost before = target@;
    let mut i: usize = 0;
    assert(before + bytes@.subrange(0, 0) =~= before);
    while i < bytes.len()
        invariant
            i <= bytes@.len(),
            target@ == before + bytes@.subrange(0, i as int),
        decreases bytes@.len() - i,
    {
        target.push(bytes[i]);
        i += 1;
        assert(target@ =~= before + bytes@.subrange(0, i as int));
    }
    assert(bytes@.subrange(0, i as int) =~= bytes@);
}

/// Tells one generation of a file from another: the same path names a new file when these change.
#[derive(Debug, Clone, Copy, PartialEq, Eq, Structural)]
pub struct FileIdentity {
    pub device: u64,
    pub inode: u64,
}

/// What is known of a file: its length and, where the platform tells, its identity.
#[derive(Debug, Clone, Copy, PartialEq, Eq, Structural)]
pub struct FileStatus {
    pub len: u64,
    pub identity: Option<FileIdentity>,
}

/// The path names another file than the one that was opened.
pub open spec fn is_renamed(opened: Option<FileIdentity>, found: Option<FileIdentity>) -> bool {
    opened is Some && found is Some && opened != found
}

/// Whether the path names another file than the one that was opened.
fn renamed(opened: Option<FileIdentity>, found: Option<FileIdentity>) -> (r: bool)
    ensures
        r == is_renamed(opened, found),
{
    match (opened, found) {
        (Some(old), Some(new)) => old != new,
        _ => false,
    }
}

/// What the tailer asks for next.
#[derive(Debug, Clone, Copy, PartialEq, Eq, Structural)]
pub enum TailRequest {
    /// Nothing to do but to send the events; then go on.
    Resume,
    /// Open the file and look up its status.
    Open,
    /// Move the open file to this offset.
    Seek(u64),
    /// Look up the status of the path.
    Check,
    /// Read up to and including the next newline, or up to the end of the file.
    Read,
    /// Wait for a change of the file, or for a while.
    Pause,
    /// Nothing more.
    Done,
}

/// What came of a request.
#[derive(Debug)]
pub enum TailInput {
    /// The events were sent, or the wait is over.
    Resumed,
    /// The file was opened.
    Opened(FileStatus),
    /// The open file was moved.
    Moved,
    /// The status of the path, unless it is missing.
    Checked(Option<FileStatus>),
    /// The bytes that were read; none at the end of the file.
    Bytes(Vec<u8>),
    /// The request failed.
    Failed(String),
}

/// An input as a value of mathematics.
pub ghost enum InputView {
    Resumed,
    Opened(FileStatus),
    Moved,
    Checked(Option<FileStatus>),
    Bytes(Seq<u8>),
    Failed(Seq<char>),
}

impl View for TailInput {
    type V = InputView;

    open spec fn view(&self) -> InputView {
        match *self {
            TailInput::Resumed => InputView::Resumed,
            TailInput::Opened(status) => InputView::Opened(status),
            TailInput::Moved => InputView::Moved,
            TailInput::Checked(status) => InputView::Checked(status),
            TailInput::Bytes(bytes) => InputView::Bytes(bytes@),
            TailInput::Failed(message) => InputView::Failed(message@),
        }
    }
}

/// Where the tailer is in its round. `Reading(true)` reads a renamed file to its end.
#[derive(Debug, Clone, Copy, PartialEq, Eq, Structural)]
pub enum TailPhase {
    Fresh,
    Top,
    Opening,
    Placing(u64, Option<FileIdentity>),
    Checking,
    Rewinding,
    BeforeRead(bool),
    Reading(bool),
    Pausing,
    Finished,
}

/// Follows one file.
#[derive(Debug)]
pub struct Tailer {
    source_id: SourceId,
    path: String,
    from_start: bool,
    follow: bool,
    cursor: LineCursor,
    initialized: bool,
    /// The identity of the open file; nothing while no file is open.
    opened: Option<Option<FileIdentity>>,
    phase: TailPhase,
    batch: Vec<LogRow>,
}

/// A tailer as a value of mathematics.
#[verifier::ext_equal]
pub ghost struct TailView {
    pub source_id: SourceId,
    pub path: Seq<char>,
    pub from_start: bool,
    pub follow: bool,
    pub cursor: CursorView,
    pub initialized: bool,
    pub opened: Option<Option<FileIdentity>>,
    pub phase: TailPhase,
    pub batch: Seq<RowView>,
}

impl View for Tailer {
    type V = TailView;

    closed spec fn view(&self) -> TailView {
        TailView {
            source_id: self.source_id,
            path: self.path@,
            from_start: self.from_start,
            follow: self.follow,
            cursor: self.cursor@,
            initialized: self.initialized,
            opened: self.opened,
            phase: self.phase,
            batch: row_views(self.batch@),
        }
    }
}

/// A step of the tailer: its new state, the events to send, and the next request.
#[verifier::ext_equal]
pub ghost struct TailStep {
    pub state: TailView,
    pub events: Seq<EventView>,
    pub request: TailRequest,
}

/// The request that a phase waits for.
pub open spec fn request_of(phase: TailPhase) -> TailRequest {
    match phase {
        TailPhase::Fresh => TailRequest::Resume,
        TailPhase::Top => TailRequest::Resume,
        TailPhase::Opening => TailRequest::Open,
        TailPhase::Placing(offset, _) => TailRequest::Seek(offset),
        TailPhase::Checking => TailRequest::Check,
        TailPhase::Rewinding => TailRequest::Seek(0),
        TailPhase::BeforeRead(_) => TailRequest::Resume,
        TailPhase::Reading(_) => TailRequest::Read,
        TailPhase::Pausing => TailRequest::Pause,
        TailPhase::Finished => TailRequest::Done,
    }
}

impl TailView {
    /// The invariant: a batch is never full between reads, what was read fits its type, and a
    /// file is open in the phases that work on one.
    pub open spec fn wf(self) -> bool {
        &&& self.batch.len() < MAX_BATCH_ROWS
        &&& self.cursor.consumed() <= u64::MAX
        &&& match self.phase {
            TailPhase::Checking => self.opened is Some,
            TailPhase::Rewinding => self.opened is Some,
            TailPhase::BeforeRead(_) => self.opened is Some && self.batch.len() == 0,
            TailPhase::Reading(_) => self.opened is Some,
            TailPhase::Opening => self.opened is None,
            TailPhase::Placing(_, _) => self.opened is None,
            _ => true,
        }
        &&& !(self.phase is Reading) ==> self.batch.len() == 0
    }

    /// The state in another phase.
    pub open spec fn at(self, phase: TailPhase) -> TailView {
        TailView { phase, ..self }
    }

    /// Goes to a phase with events to send first.
    pub open spec fn goes(self, phase: TailPhase, events: Seq<EventView>) -> TailStep {
        TailStep { state: self.at(phase), events, request: request_of(phase) }
    }

    /// The rows of the batch as an event, where there are any.
    pub open spec fn batch_event(self) -> Seq<EventView> {
        if self.batch.len() > 0 {
            seq![EventView::RowsAppended(self.batch)]
        } else {
            Seq::empty()
        }
    }

    /// The offset to start from in a file of this length: where reading stopped before, or the
    /// start or the end of a file that is opened for the first time.
    pub open spec fn start_offset(self, len: u64) -> u64 {
        if self.initialized {
            if self.cursor.offset < len {
                self.cursor.offset as u64
            } else {
                len
            }
        } else if self.from_start {
            0
        } else {
            len
        }
    }

    /// The end of a round: wait, or stop where the file is not followed.
    pub open spec fn ends_round(self, events: Seq<EventView>) -> TailStep {
        if self.follow {
            self.goes(TailPhase::Pausing, events)
        } else {
            self.goes(
                TailPhase::Finished,
                events.push(EventView::SourceRemoved(self.source_id)),
            )
        }
    }

    /// The state after the file has been found renamed and read to its end: the path is opened
    /// anew and read from its start.
    pub open spec fn reset(self) -> TailView {
        TailView {
            cursor: CursorView { offset: 0, pending: Seq::empty(), ..self.cursor },
            opened: None,
            batch: Seq::empty(),
            ..self
        }
    }

    /// The end of reading for now. A renamed file is done with; a read error closes the file.
    pub open spec fn ends_reading(self, drain: bool, error: Option<Seq<char>>) -> TailStep {
        let events = self.batch_event() + (match error {
            Some(message) => seq![EventView::SourceError(self.source_id, message)],
            None => Seq::empty(),
        });
        if drain {
            self.reset().goes(
                TailPhase::Top,
                events.push(EventView::SourceRotated(self.source_id)),
            )
        } else {
            let emptied = TailView {
                batch: Seq::empty(),
                opened: if error is Some {
                    None
                } else {
                    self.opened
                },
                ..self
            };
            emptied.ends_round(events)
        }
    }

    /// The state after a read.
    pub open spec fn with_bytes<P: LogParser>(
        self,
        parser: &P,
        bytes: Seq<u8>,
        flush: bool,
    ) -> TailView {
        TailView {
            cursor: self.cursor.after_read(bytes, flush),
            batch: self.batch + self.cursor.rows_read(parser, self.source_id, bytes, flush),
            ..self
        }
    }

    /// A line, the start of a line or the end of the file has been read. Reading goes on after a
    /// line; a full batch is sent first.
    pub open spec fn takes<P: LogParser>(self, parser: &P, bytes: Seq<u8>, drain: bool) -> TailStep {
        let next = self.with_bytes(parser, bytes, drain || !self.follow);
        if bytes.len() == 0 || bytes.last() != 10u8 {
            next.ends_reading(drain, None)
        } else if next.batch.len() >= MAX_BATCH_ROWS {
            (TailView { batch: Seq::empty(), ..next }).goes(
                TailPhase::BeforeRead(drain),
                next.batch_event(),
            )
        } else {
            next.goes(TailPhase::Reading(drain), Seq::empty())
        }
    }

    /// The status of the path has been looked up. A renamed file is read to its end first; one
    /// that has become shorter is read again from its start.
    pub open spec fn checked(self, status: Option<FileStatus>) -> TailStep {
        match status {
            None => self.goes(TailPhase::BeforeRead(false), Seq::empty()),
            Some(status) => if is_renamed(self.opened->0, status.identity) {
                self.goes(TailPhase::BeforeRead(true), Seq::empty())
            } else if status.len < self.cursor.consumed() {
                (TailView {
                    cursor: CursorView { offset: 0, pending: Seq::empty(), ..self.cursor },
                    ..self
                }).goes(TailPhase::Rewinding, seq![EventView::SourceRotated(self.source_id)])
            } else {
                self.goes(TailPhase::BeforeRead(false), Seq::empty())
            },
        }
    }

    /// The step after an input. An input that the phase does not wait for changes nothing, and
    /// the request is made again.
    pub open spec fn after<P: LogParser>(self, parser: &P, input: InputView, stop: bool) -> TailStep {
        match (self.phase, input) {
            (TailPhase::Fresh, InputView::Resumed) => self.goes(
                TailPhase::Top,
                seq![EventView::SourceAdded(self.source_id, self.path)],
            ),
            (TailPhase::Top, InputView::Resumed) => self.begins_round(stop),
            (TailPhase::Pausing, InputView::Resumed) => self.begins_round(stop),
            (TailPhase::Opening, InputView::Opened(status)) => self.goes(
                TailPhase::Placing(self.start_offset(status.len), status.identity),
                Seq::empty(),
            ),
            (TailPhase::Opening, InputView::Failed(message)) => self.ends_round(
                seq![EventView::SourceError(self.source_id, message)],
            ),
            (TailPhase::Placing(offset, identity), InputView::Moved) => (TailView {
                cursor: CursorView {
                    offset: offset as nat,
                    pending: Seq::empty(),
                    ..self.cursor
                },
                initialized: true,
                opened: Some(identity),
                ..self
            }).goes(TailPhase::Checking, Seq::empty()),
            (TailPhase::Placing(_, _), InputView::Failed(message)) => self.ends_round(
                seq![EventView::SourceError(self.source_id, message)],
            ),
            (TailPhase::Checking, InputView::Checked(status)) => self.checked(status),
            (TailPhase::Rewinding, InputView::Moved) => self.goes(
                TailPhase::BeforeRead(false),
                Seq::empty(),
            ),
            (TailPhase::Rewinding, InputView::Failed(_)) => (TailView {
                opened: None,
                ..self
            }).ends_round(Seq::empty()),
            (TailPhase::BeforeRead(drain), InputView::Resumed) => if stop {
                self.ends_reading(drain, None)
            } else {
                self.goes(TailPhase::Reading(drain), Seq::empty())
            },
            (TailPhase::Reading(drain), InputView::Bytes(bytes)) => self.takes(
                parser,
                bytes,
                drain,
            ),
            (TailPhase::Reading(drain), InputView::Failed(message)) => self.ends_reading(
                drain,
                Some(message),
            ),
            _ => self.goes(self.phase, Seq::empty()),
        }
    }

    /// The start of a round: stop where that was asked for, open the file or look at its path.
    pub open spec fn begins_round(self, stop: bool) -> TailStep {
        if stop {
            self.goes(TailPhase::Finished, seq![EventView::SourceRemoved(self.source_id)])
        } else if self.opened is None {
            self.goes(TailPhase::Opening, Seq::empty())
        } else {
            self.goes(TailPhase::Checking, Seq::empty())
        }
    }
}

/// A tailer that has done nothing yet.
pub open spec fn fresh_tailer(
    source_id: SourceId,
    path: Seq<char>,
    from_start: bool,
    follow: bool,
) -> TailView {
    TailView {
        source_id,
        path,
        from_start,
        follow,
        cursor: CursorView { offset: 0, pending: Seq::empty(), next_row: 0 },
        initialized: false,
        opened: None,
        phase: TailPhase::Fresh,
        batch: Seq::empty(),
    }
}

impl Tailer {
    /// A tailer of the file at `path`. One that is not followed is read once; one that is
    /// followed is read from its end on, or with `from_start` from its beginning.
    pub fn new(source_id: SourceId, path: &str, from_start: bool, follow: bool) -> (r: Tailer)
        ensures
            r@ == fresh_tailer(source_id, path@, from_start, follow),
            r@.wf(),
    {
        let r = Tailer {
            source_id,
            path: path.to_owned(),
            from_start,
            follow,
            cursor: LineCursor::new(),
            initialized: false,
            opened: None,
            phase: TailPhase::Fresh,
            batch: Vec::new(),
        };
        assert(r@.batch =~= Seq::<RowView>::empty());
        r
    }

    /// The request that the tailer waits for.
    pub fn request(&self) -> (r: TailRequest)
        ensures
            r == request_of(self@.phase),
    {
        match self.phase {
            TailPhase::Fresh => TailRequest::Resume,
            TailPhase::Top => TailRequest::Resume,
            TailPhase::Opening => TailRequest::Open,
            TailPhase::Placing(offset, _) => TailRequest::Seek(offset),
            TailPhase::Checking => TailRequest::Check,
            TailPhase::Rewinding => TailRequest::Seek(0),
            TailPhase::BeforeRead(_) => TailRequest::Resume,
            TailPhase::Reading(_) => TailRequest::Read,
            TailPhase::Pausing => TailRequest::Pause,
            TailPhase::Finished => TailRequest::Done,
        }
    }

    /// Whether `more` bytes can be read: offsets and row numbers fit their types.
    pub fn has_room(&self, more: usize) -> (r: bool)
        requires
            self@.wf(),
        ensures
            r == self@.cursor.has_room(more as nat),
    {
        let consumed: u64 = self.cursor.consumed();
        consumed <= u64::MAX - more as u64 && self.cursor.next_row < u64::MAX
    }

    /// Takes what came of the last request; `stop` says whether the tailer is asked to end.
    /// Returns the events to send and what to do after that.
    pub fn step<P: LogParser>(&mut self, parser: &P, input: TailInput, stop: bool) -> (r: (
        Vec<LogEvent>,
        TailRequest,
    ))
        requires
            old(self)@.wf(),
            input matches TailInput::Bytes(bytes) ==> old(self)@.cursor.has_room(bytes@.len()),
        ensures
            final(self)@.wf(),
            (TailStep { state: final(self)@, events: event_views(r.0@), request: r.1 })
                == old(self)@.after(parser, input@, stop),
    {
        let ghost before = self@;
        let ghost goal = before.after(parser, input@, stop);
        let mut events: Vec<LogEvent> = Vec::new();
        assert(event_views(events@) =~= Seq::<EventView>::empty());
        match (self.phase, input) {
            (TailPhase::Fresh, TailInput::Resumed) => {
                let path = self.path.clone();
                push_event(&mut events, LogEvent::SourceAdded { source_id: self.source_id, path });
                self.phase = TailPhase::Top;
            },
            (TailPhase::Top, TailInput::Resumed) => {
                self.begin_round(&mut events, stop);
            },
            (TailPhase::Pausing, TailInput::Resumed) => {
                self.begin_round(&mut events, stop);
            },
            (TailPhase::Opening, TailInput::Opened(status)) => {
                let offset: u64 = self.start_offset(status.len);
                self.phase = TailPhase::Placing(offset, status.identity);
            },
            (TailPhase::Opening, TailInput::Failed(message)) => {
                push_event(
                    &mut events,
                    LogEvent::SourceError { source_id: self.source_id, message },
                );
                self.end_round(&mut events);
            },
            (TailPhase::Placing(offset, identity), TailInput::Moved) => {
                self.cursor.jump(offset);
                self.initialized = true;
                self.opened = Some(identity);
                self.phase = TailPhase::Checking;
            },
            (TailPhase::Placing(_, _), TailInput::Failed(message)) => {
                push_event(
                    &mut events,
                    LogEvent::SourceError { source_id: self.source_id, message },
                );
                self.end_round(&mut events);
            },
            (TailPhase::Checking, TailInput::Checked(status)) => {
                self.check(&mut events, status);
            },
            (TailPhase::Rewinding, TailInput::Moved) => {
                self.phase = TailPhase::BeforeRead(false);
            },
            (TailPhase::Rewinding, TailInput::Failed(_)) => {
                self.opened = None;
                self.end_round(&mut events);
            },
            (TailPhase::BeforeRead(drain), TailInput::Resumed) => {
                if stop {
                    self.end_reading(&mut events, drain, None);
                } else {
                    self.phase = TailPhase::Reading(drain);
                }
            },
            (TailPhase::Reading(drain), TailInput::Bytes(bytes)) => {
                self.read(parser, &mut events, &bytes, drain);
            },
            (TailPhase::Reading(drain), TailInput::Failed(message)) => {
                self.end_reading(&mut events, drain, Some(message));
            },
            _ => {},
        }
        let request = self.request();
        proof {
            assert(event_views(events@) =~= goal.events);
            assert(self@ =~= goal.state);
        }
        (events, request)
    }

    /// The start of a round.
    fn begin_round(&mut self, events: &mut Vec<LogEvent>, stop: bool)
        requires
            old(self)@.wf(),
            event_views(old(events)@) == Seq::<EventView>::empty(),
            old(self)@.phase is Top || old(self)@.phase is Pausing,
        ensures
            final(self)@.wf(),
            final(self)@ == old(self)@.begins_round(stop).state,
            event_views(final(events)@) == old(self)@.begins_round(stop).events,
    {
        let ghost goal = self@.begins_round(stop);
        if stop {
            push_event(events, LogEvent::SourceRemoved { source_id: self.source_id });
            self.phase = TailPhase::Finished;
        } else if self.opened.is_none() {
            self.phase = TailPhase::Opening;
        } else {
            self.phase = TailPhase::Checking;
        }
        assert(event_views(events@) =~= goal.events);
        assert(self@ =~= goal.state);
    }

    /// The end of a round.
    fn end_round(&mut self, events: &mut Vec<LogEvent>)
        requires
            old(self)@.batch.len() == 0,
            old(self)@.cursor.consumed() <= u64::MAX,
        ensures
            final(self)@.wf(),
            final(self)@ == old(self)@.ends_round(event_views(old(events)@)).state,
            event_views(final(events)@) == old(self)@.ends_round(event_views(old(events)@)).events,
    {
        let ghost goal = self@.ends_round(event_views(events@));
        if self.follow {
            self.phase = TailPhase::Pausing;
        } else {
            push_event(events, LogEvent::SourceRemoved { source_id: self.source_id });
            self.phase = TailPhase::Finished;
        }
        assert(event_views(events@) =~= goal.events);
        assert(self@ =~= goal.state);
    }

    /// The offset to start from in a file of this length.
    fn start_offset(&self, len: u64) -> (r: u64)
        ensures
            r == self@.start_offset(len),
    {
        if self.initialized {
            let offset: u64 = self.cursor.offset();
            if offset < len {
                offset
            } else {
                len
            }
        } else if self.from_start {
            0
        } else {
            len
        }
    }

    /// Decides what a look at the path means.
    fn check(&mut self, events: &mut Vec<LogEvent>, status: Option<FileStatus>)
        requires
            old(self)@.wf(),
            old(self)@.phase is Checking,
            event_views(old(events)@) == Seq::<EventView>::empty(),
        ensures
            final(self)@.wf(),
            final(self)@ == old(self)@.checked(status).state,
            event_views(final(events)@) == old(self)@.checked(status).events,
    {
        let ghost goal = self@.checked(status);
        let opened: Option<FileIdentity> = match self.opened {
            Some(identity) => identity,
            None => None,
        };
        match status {
            None => {
                self.phase = TailPhase::BeforeRead(false);
            },
            Some(found) => {
                if renamed(opened, found.identity) {
                    self.phase = TailPhase::BeforeRead(true);
                } else if found.len < self.cursor.consumed() {
                    push_event(events, LogEvent::SourceRotated { source_id: self.source_id });
                    self.cursor.jump(0);
                    self.phase = TailPhase::Rewinding;
                } else {
                    self.phase = TailPhase::BeforeRead(false);
                }
            },
        }
        assert(event_views(events@) =~= goal.events);
        assert(self@ =~= goal.state);
    }

    /// Sends the rows of the batch, where there are any.
    fn send_batch(&mut self, events: &mut Vec<LogEvent>)
        ensures
            final(self)@ == (TailView { batch: Seq::empty(), ..old(self)@ }),
            event_views(final(events)@) == event_views(old(events)@) + old(self)@.batch_event(),
    {
        let ghost before = self@;
        let ghost sent = event_views(events@);
        let mut batch: Vec<LogRow> = Vec::new();
        std::mem::swap(&mut batch, &mut self.batch);
        assert(self@.batch =~= Seq::<RowView>::empty());
        if batch.len() > 0 {
            push_event(events, LogEvent::RowsAppended(batch));
        }
        assert(event_views(events@) =~= sent + before.batch_event());
        assert(self@ =~= (TailView { batch: Seq::empty(), ..before }));
    }

    /// The end of reading for now.
    fn end_reading(&mut self, events: &mut Vec<LogEvent>, drain: bool, error: Option<String>)
        requires
            old(self)@.cursor.consumed() <= u64::MAX,
            event_views(old(events)@) == Seq::<EventView>::empty(),
        ensures
            final(self)@.wf(),
            final(self)@ == old(self)@.ends_reading(
                drain,
                crate::text::optional_text(error),
            ).state,
            event_views(final(events)@) == old(self)@.ends_reading(
                drain,
                crate::text::optional_text(error),
            ).events,
    {
        let ghost goal = self@.ends_reading(drain, crate::text::optional_text(error));
        let failed: bool = error.is_some();
        self.send_batch(events);
        if let Some(message) = error {
            push_event(events, LogEvent::SourceError { source_id: self.source_id, message });
        }
        if drain {
            push_event(events, LogEvent::SourceRotated { source_id: self.source_id });
            self.cursor.jump(0);
            self.opened = None;
            self.phase = TailPhase::Top;
        } else {
            if failed {
                self.opened = None;
            }
            self.end_round(events);
        }
        assert(event_views(events@) =~= goal.events);
        assert(self@ =~= goal.state);
    }

    /// Takes the bytes of one read.
    fn read<P: LogParser>(
        &mut self,
        parser: &P,
        events: &mut Vec<LogEvent>,
        bytes: &Vec<u8>,
        drain: bool,
    )
        requires
            old(self)@.wf(),
            old(self)@.phase == TailPhase::Reading(drain),
            old(self)@.cursor.has_room(bytes@.len()),
            event_views(old(events)@) == Seq::<EventView>::empty(),
        ensures
            final(self)@.wf(),
            final(self)@ == old(self)@.takes(parser, bytes@, drain).state,
            event_views(final(events)@) == old(self)@.takes(parser, bytes@, drain).events,
    {
        let ghost before = self@;
        let ghost goal = before.takes(parser, bytes@, drain);
        let flush: bool = drain || !self.follow;
        self.cursor.take(parser, self.source_id, bytes.as_slice(), flush, &mut self.batch);
        assert(self@ =~= before.with_bytes(parser, bytes@, flush));
        let count: usize = bytes.len();
        if count == 0 || bytes[count - 1] != 10u8 {
            self.end_reading(events, drain, None);
        } else if self.batch.len() >= MAX_BATCH_ROWS {
            self.send_batch(events);
            self.phase = TailPhase::BeforeRead(drain);
        } else {
            self.phase = TailPhase::Reading(drain);
        }
        assert(event_views(events@) =~= goal.events);
        assert(self@ =~= goal.state);
    }
}

/// Appends an event.
fn push_event(events: &mut Vec<LogEvent>, event: LogEvent)
    ensures
        event_views(final(events)@) == event_views(old(events)@).push(event@),
{
    let ghost before = event_views(events@);
    events.push(event);
    assert(event_views(events@) =~= before.push(event@));
}

// ---------------------------------------------------------------------------
// Laws
// ---------------------------------------------------------------------------

/// No byte is lost or read twice: what a read gives is either in a row or pending.
pub proof fn law_no_byte_is_lost(cursor: CursorView, bytes: Seq<u8>, flush: bool)
    ensures
        cursor.after_read(bytes, flush).consumed() == cursor.consumed() + bytes.len(),
{
}

/// A line that arrives in two reads makes the same row as one that arrives at once, and leaves
/// the cursor at the same place.
pub proof fn law_split_lines_are_joined<P: LogParser>(
    cursor: CursorView,
    parser: &P,
    source_id: SourceId,
    start: Seq<u8>,
    rest: Seq<u8>,
    flush: bool,
)
    requires
        start.len() > 0,
        start.last() != 10u8,
        rest.len() > 0,
    ensures
        cursor.rows_read(parser, source_id, start, false).len() == 0,
        cursor.after_read(start, false).after_read(rest, flush) == cursor.after_read(
            start + rest,
            flush,
        ),
        cursor.after_read(start, false).rows_read(parser, source_id, rest, flush)
            == cursor.rows_read(parser, source_id, start + rest, flush),
{
    assert((start + rest).last() == rest.last());
    assert(cursor.pending + start + rest =~= cursor.pending + (start + rest));
    assert(cursor.after_read(start, false).after_read(rest, flush) =~= cursor.after_read(
        start + rest,
        flush,
    ));
}

/// An incomplete line gives no row until its newline arrives.
pub proof fn law_incomplete_lines_wait<P: LogParser>(
    cursor: CursorView,
    parser: &P,
    source_id: SourceId,
    bytes: Seq<u8>,
)
    requires
        bytes.len() == 0 || bytes.last() != 10u8,
    ensures
        cursor.rows_read(parser, source_id, bytes, false).len() == 0,
        cursor.after_read(bytes, false).offset == cursor.offset,
        cursor.after_read(bytes, false).pending == cursor.pending + bytes,
        cursor.after_read(bytes, false).next_row == cursor.next_row,
{
}

/// The cursor after a list of reads.
pub open spec fn after_reads(cursor: CursorView, reads: Seq<Seq<u8>>, flush: bool) -> CursorView
    decreases reads.len(),
{
    if reads.len() == 0 {
        cursor
    } else {
        after_reads(cursor, reads.drop_last(), flush).after_read(reads.last(), flush)
    }
}

/// The rows that a list of reads gives.
pub open spec fn rows_of_reads<P: LogParser>(
    cursor: CursorView,
    parser: &P,
    source_id: SourceId,
    reads: Seq<Seq<u8>>,
    flush: bool,
) -> Seq<RowView>
    decreases reads.len(),
{
    if reads.len() == 0 {
        Seq::empty()
    } else {
        rows_of_reads(cursor, parser, source_id, reads.drop_last(), flush) + after_reads(
            cursor,
            reads.drop_last(),
            flush,
        ).rows_read(parser, source_id, reads.last(), flush)
    }
}

/// The index just behind the first newline at or after `from`, or the end of the bytes.
pub open spec fn line_end(bytes: Seq<u8>, from: int) -> int
    decreases bytes.len() - from,
{
    if from < 0 || from >= bytes.len() {
        bytes.len() as int
    } else if bytes[from] == 10u8 {
        from + 1
    } else {
        line_end(bytes, from + 1)
    }
}

/// A line ends behind its start and within the bytes.
pub proof fn lemma_line_end(bytes: Seq<u8>, from: int)
    requires
        0 <= from < bytes.len(),
    ensures
        from < line_end(bytes, from) <= bytes.len(),
    decreases bytes.len() - from,
{
    if from + 1 < bytes.len() {
        lemma_line_end(bytes, from + 1);
    } else {
        assert(line_end(bytes, from + 1) == bytes.len());
    }
}

/// The lines of a file from `from` on, with their newlines. What follows the last newline is a line
/// too.
pub open spec fn lines_of(bytes: Seq<u8>, from: int) -> Seq<Seq<u8>>
    decreases bytes.len() - from,
{
    if from < 0 || !(from < line_end(bytes, from) <= bytes.len()) {
        Seq::empty()
    } else {
        let end = line_end(bytes, from);
        seq![bytes.subrange(from, end)] + lines_of(bytes, end)
    }
}

/// No byte of a line but its last is a newline.
proof fn lemma_line_holds_no_newline(bytes: Seq<u8>, from: int)
    requires
        0 <= from < bytes.len(),
    ensures
        forall|i: int| from <= i < line_end(bytes, from) - 1 ==> #[trigger] bytes[i] != 10u8,
    decreases bytes.len() - from,
{
    if from + 1 < bytes.len() {
        lemma_line_holds_no_newline(bytes, from + 1);
    } else {
        assert(line_end(bytes, from + 1) == bytes.len());
    }
}

/// What one read gives is what a list of that read gives.
pub(crate) proof fn lemma_one_read<P: LogParser>(
    cursor: CursorView,
    parser: &P,
    source_id: SourceId,
    bytes: Seq<u8>,
    flush: bool,
)
    ensures
        after_reads(cursor, seq![bytes], flush) == cursor.after_read(bytes, flush),
        rows_of_reads(cursor, parser, source_id, seq![bytes], flush) == cursor.rows_read(
            parser,
            source_id,
            bytes,
            flush,
        ),
{
    let reads = seq![bytes];
    assert(reads.drop_last() =~= Seq::<Seq<u8>>::empty());
    assert(after_reads(cursor, reads.drop_last(), flush) == cursor);
    assert(rows_of_reads(cursor, parser, source_id, reads.drop_last(), flush) =~= Seq::<
        RowView,
    >::empty());
    assert(rows_of_reads(cursor, parser, source_id, reads, flush) =~= cursor.rows_read(
        parser,
        source_id,
        bytes,
        flush,
    ));
}

/// Some reads, and others from where they leave the cursor, are all of them in turn.
pub(crate) proof fn lemma_reads_in_two_parts<P: LogParser>(
    cursor: CursorView,
    parser: &P,
    source_id: SourceId,
    first: Seq<Seq<u8>>,
    rest: Seq<Seq<u8>>,
    flush: bool,
)
    ensures
        after_reads(cursor, first + rest, flush) == after_reads(
            after_reads(cursor, first, flush),
            rest,
            flush,
        ),
        rows_of_reads(cursor, parser, source_id, first + rest, flush) == rows_of_reads(
            cursor,
            parser,
            source_id,
            first,
            flush,
        ) + rows_of_reads(after_reads(cursor, first, flush), parser, source_id, rest, flush),
    decreases rest.len(),
{
    let all = first + rest;
    let middle = after_reads(cursor, first, flush);
    if rest.len() == 0 {
        assert(all =~= first);
        assert(rows_of_reads(middle, parser, source_id, rest, flush) =~= Seq::<RowView>::empty());
        assert(rows_of_reads(cursor, parser, source_id, all, flush) =~= rows_of_reads(
            cursor,
            parser,
            source_id,
            first,
            flush,
        ) + rows_of_reads(middle, parser, source_id, rest, flush));
    } else {
        lemma_reads_in_two_parts(cursor, parser, source_id, first, rest.drop_last(), flush);
        assert(all.drop_last() =~= first + rest.drop_last());
        assert(all.last() == rest.last());
        assert(rows_of_reads(cursor, parser, source_id, all, flush) =~= rows_of_reads(
            cursor,
            parser,
            source_id,
            first,
            flush,
        ) + rows_of_reads(middle, parser, source_id, rest, flush));
    }
}

/// Each byte as a read of its own.
spec fn single_bytes(bytes: Seq<u8>) -> Seq<Seq<u8>> {
    bytes.map_values(|byte: u8| seq![byte])
}

/// A line that is read at once gives what its bytes give one by one.
proof fn lemma_line_byte_by_byte<P: LogParser>(
    cursor: CursorView,
    parser: &P,
    source_id: SourceId,
    line: Seq<u8>,
)
    requires
        line.len() > 0,
        forall|i: int| 0 <= i < line.len() - 1 ==> #[trigger] line[i] != 10u8,
    ensures
        after_reads(cursor, single_bytes(line), false) == cursor.after_read(line, false),
        rows_of_reads(cursor, parser, source_id, single_bytes(line), false) == cursor.rows_read(
            parser,
            source_id,
            line,
            false,
        ),
    decreases line.len(),
{
    let head = line.drop_last();
    let last = seq![line.last()];
    let reads = single_bytes(line);
    assert(reads.drop_last() =~= single_bytes(head));
    assert(reads.last() == last);
    if head.len() == 0 {
        assert(line =~= last);
        assert(reads =~= seq![last]);
        lemma_one_read(cursor, parser, source_id, last, false);
    } else {
        assert forall|i: int| 0 <= i < head.len() - 1 implies #[trigger] head[i] != 10u8 by {
            assert(head[i] == line[i]);
        }
        assert(head.last() == line[line.len() - 2]);
        lemma_line_byte_by_byte(cursor, parser, source_id, head);
        law_split_lines_are_joined(cursor, parser, source_id, head, last, false);
        assert(head + last =~= line);
        assert(rows_of_reads(cursor, parser, source_id, reads, false) =~= cursor.rows_read(
            parser,
            source_id,
            line,
            false,
        ));
    }
}

/// Lines that are read one by one give what their bytes give one by one.
proof fn lemma_lines_byte_by_byte<P: LogParser>(
    cursor: CursorView,
    parser: &P,
    source_id: SourceId,
    bytes: Seq<u8>,
    from: int,
)
    requires
        0 <= from <= bytes.len(),
    ensures
        ({
            let rest = single_bytes(bytes.subrange(from, bytes.len() as int));
            &&& after_reads(cursor, lines_of(bytes, from), false) == after_reads(
                cursor,
                rest,
                false,
            )
            &&& rows_of_reads(cursor, parser, source_id, lines_of(bytes, from), false)
                == rows_of_reads(cursor, parser, source_id, rest, false)
        }),
    decreases bytes.len() - from,
{
    let rest = single_bytes(bytes.subrange(from, bytes.len() as int));
    if from == bytes.len() {
        assert(rest =~= Seq::<Seq<u8>>::empty());
        assert(lines_of(bytes, from) =~= Seq::<Seq<u8>>::empty());
    } else {
        let end = line_end(bytes, from);
        lemma_line_end(bytes, from);
        lemma_line_holds_no_newline(bytes, from);
        let line = bytes.subrange(from, end);
        let next = cursor.after_read(line, false);
        let others = single_bytes(bytes.subrange(end, bytes.len() as int));
        assert forall|i: int| 0 <= i < line.len() - 1 implies #[trigger] line[i] != 10u8 by {
            assert(line[i] == bytes[from + i]);
        }
        lemma_line_byte_by_byte(cursor, parser, source_id, line);
        lemma_one_read(cursor, parser, source_id, line, false);
        lemma_lines_byte_by_byte(next, parser, source_id, bytes, end);
        assert(rest =~= single_bytes(line) + others);
        lemma_reads_in_two_parts(cursor, parser, source_id, single_bytes(line), others, false);
        lemma_reads_in_two_parts(
            cursor,
            parser,
            source_id,
            seq![line],
            lines_of(bytes, end),
            false,
        );
    }
}

/// However the bytes of a source are cut in two, reading the lines of the one part and then those
/// of the other gives the rows that reading the lines of the whole gives, and leaves the cursor at
/// the same place; a line that is cut is joined again.
pub proof fn law_any_cut_gives_the_same_rows<P: LogParser>(
    cursor: CursorView,
    parser: &P,
    source_id: SourceId,
    first: Seq<u8>,
    second: Seq<u8>,
)
    ensures
        ({
            let middle = after_reads(cursor, lines_of(first, 0), false);
            &&& after_reads(middle, lines_of(second, 0), false) == after_reads(
                cursor,
                lines_of(first + second, 0),
                false,
            )
            &&& rows_of_reads(cursor, parser, source_id, lines_of(first, 0), false)
                + rows_of_reads(middle, parser, source_id, lines_of(second, 0), false)
                == rows_of_reads(cursor, parser, source_id, lines_of(first + second, 0), false)
        }),
{
    let middle = after_reads(cursor, lines_of(first, 0), false);
    let whole = first + second;
    lemma_lines_byte_by_byte(cursor, parser, source_id, first, 0);
    lemma_lines_byte_by_byte(middle, parser, source_id, second, 0);
    lemma_lines_byte_by_byte(cursor, parser, source_id, whole, 0);
    assert(first.subrange(0, first.len() as int) =~= first);
    assert(second.subrange(0, second.len() as int) =~= second);
    assert(whole.subrange(0, whole.len() as int) =~= whole);
    assert(single_bytes(whole) =~= single_bytes(first) + single_bytes(second));
    lemma_reads_in_two_parts(
        cursor,
        parser,
        source_id,
        single_bytes(first),
        single_bytes(second),
        false,
    );
}

/// Reading lines gives one row for each newline, whatever was pending before: no row is made of a
/// line whose newline has not arrived.
pub proof fn law_one_row_for_each_newline<P: LogParser>(
    cursor: CursorView,
    parser: &P,
    source_id: SourceId,
    bytes: Seq<u8>,
)
    ensures
        rows_of_reads(cursor, parser, source_id, lines_of(bytes, 0), false).len() == bytes.filter(
            |byte: u8| byte == 10u8,
        ).len(),
{
    lemma_lines_byte_by_byte(cursor, parser, source_id, bytes, 0);
    assert(bytes.subrange(0, bytes.len() as int) =~= bytes);
    lemma_newlines_make_rows(cursor, parser, source_id, bytes);
}

/// Bytes that are read one by one give a row for each newline.
proof fn lemma_newlines_make_rows<P: LogParser>(
    cursor: CursorView,
    parser: &P,
    source_id: SourceId,
    bytes: Seq<u8>,
)
    ensures
        rows_of_reads(cursor, parser, source_id, single_bytes(bytes), false).len() == bytes.filter(
            |byte: u8| byte == 10u8,
        ).len(),
    decreases bytes.len(),
{
    reveal(Seq::filter);
    let reads = single_bytes(bytes);
    if bytes.len() > 0 {
        assert(reads.drop_last() =~= single_bytes(bytes.drop_last()));
        assert(reads.last() == seq![bytes.last()]);
        lemma_newlines_make_rows(cursor, parser, source_id, bytes.drop_last());
    }
}

/// The bytes of a list of reads.
pub open spec fn bytes_of_reads(reads: Seq<Seq<u8>>) -> nat
    decreases reads.len(),
{
    if reads.len() == 0 {
        0
    } else {
        bytes_of_reads(reads.drop_last()) + reads.last().len()
    }
}

/// The rows of a source lie end to end: the first starts where reading started, each starts where
/// the one before it ends, the last ends where reading stands; and they are numbered on.
pub proof fn law_rows_lie_end_to_end(
    cursor: CursorView,
    parser: ParserChoice,
    source_id: SourceId,
    reads: Seq<Seq<u8>>,
    flush: bool,
)
    requires
        cursor.consumed() + bytes_of_reads(reads) <= u64::MAX,
        cursor.next_row + reads.len() <= u64::MAX,
    ensures
        ({
            let rows = rows_of_reads(cursor, &parser, source_id, reads, flush);
            let after = after_reads(cursor, reads, flush);
            &&& after.consumed() == cursor.consumed() + bytes_of_reads(reads)
            &&& after.next_row == cursor.next_row + rows.len()
            &&& rows.len() <= reads.len()
            &&& rows.len() == 0 ==> after.offset == cursor.offset
            &&& rows.len() > 0 ==> rows[0].byte_range.start == cursor.offset
                && rows.last().byte_range.end == after.offset
            &&& forall|i: int, j: int|
                0 <= i && j == i + 1 && j < rows.len() ==> (#[trigger] rows[i]).byte_range.end == (
                #[trigger] rows[j]).byte_range.start
            &&& forall|i: int|
                0 <= i < rows.len() ==> (#[trigger] rows[i]).row_id.0 == cursor.next_row + i
        }),
    decreases reads.len(),
{
    if reads.len() > 0 {
        let head = reads.drop_last();
        law_rows_lie_end_to_end(cursor, parser, source_id, head, flush);
        let before = after_reads(cursor, head, flush);
        let done = rows_of_reads(cursor, &parser, source_id, head, flush);
        let bytes = reads.last();
        let rows = rows_of_reads(cursor, &parser, source_id, reads, flush);
        law_no_byte_is_lost(before, bytes, flush);
        if before.completes(bytes, flush) {
            let row = before.row(&parser, source_id, bytes);
            law_rows_keep_their_line(
                parser,
                source_id,
                RowId(before.next_row as u64),
                ByteRange {
                    start: before.offset as u64,
                    end: (before.consumed() + bytes.len()) as u64,
                },
                lossy_text(without_terminator(before.pending + bytes)),
            );
            assert(rows =~= done.push(row));
            assert forall|i: int, j: int| 0 <= i && j == i + 1 && j < rows.len() implies (
            #[trigger] rows[i]).byte_range.end == (#[trigger] rows[j]).byte_range.start by {
                assert(rows[i] == done[i]);
                if j < done.len() {
                    assert(rows[j] == done[j]);
                }
            }
        } else {
            assert(rows =~= done);
        }
    }
}

/// A tailer announces its source before anything else.
pub proof fn law_source_is_announced_first<P: LogParser>(tailer: TailView, parser: &P, stop: bool)
    requires
        tailer.phase == TailPhase::Fresh,
    ensures
        tailer.after(parser, InputView::Resumed, stop).events == seq![
            EventView::SourceAdded(tailer.source_id, tailer.path),
        ],
{
}

/// A tailer that comes to its end says so with its last event, and stays at its end.
pub proof fn law_source_is_removed_last<P: LogParser>(
    tailer: TailView,
    parser: &P,
    input: InputView,
    stop: bool,
)
    ensures
        ({
            let step = tailer.after(parser, input, stop);
            &&& tailer.phase != TailPhase::Finished && step.state.phase == TailPhase::Finished
                ==> step.events.len() > 0 && step.events.last() == EventView::SourceRemoved(
                tailer.source_id,
            )
            &&& tailer.phase == TailPhase::Finished ==> step.state == tailer && step.events.len()
                == 0 && step.request == TailRequest::Done
        }),
{
    let step = tailer.after(parser, input, stop);
    if tailer.phase == TailPhase::Finished {
        assert(step.state =~= tailer);
    }
}

/// A renamed file is read to its end; then its rotation is told, and the path is opened anew and
/// read from its start, with rows numbered on.
pub proof fn law_renamed_file_is_read_to_its_end<P: LogParser>(tailer: TailView, parser: &P, stop: bool)
    requires
        tailer.phase == TailPhase::Reading(true),
    ensures
        ({
            let step = tailer.after(parser, InputView::Bytes(Seq::empty()), stop);
            &&& step.events.last() == EventView::SourceRotated(tailer.source_id)
            &&& step.state.opened is None
            &&& step.state.cursor.offset == 0
            &&& step.state.cursor.pending.len() == 0
            &&& step.state.cursor.next_row == tailer.cursor.next_row + (
            if tailer.cursor.pending.len() > 0 {
                1nat
            } else {
                0
            })
        }),
{
}

/// A file that has become shorter is read again from its start, and its rotation is told.
pub proof fn law_truncated_file_is_read_again<P: LogParser>(
    tailer: TailView,
    parser: &P,
    status: FileStatus,
    stop: bool,
)
    requires
        tailer.phase == TailPhase::Checking,
        tailer.opened is Some,
        !is_renamed(tailer.opened->0, status.identity),
        status.len < tailer.cursor.consumed(),
    ensures
        ({
            let step = tailer.after(parser, InputView::Checked(Some(status)), stop);
            &&& step.events == seq![EventView::SourceRotated(tailer.source_id)]
            &&& step.request == TailRequest::Seek(0)
            &&& step.state.cursor.consumed() == 0
            &&& step.state.cursor.next_row == tailer.cursor.next_row
        }),
{
}

/// The state of a tailer after a list of inputs, each with whether it was asked to stop.
pub open spec fn state_after<P: LogParser>(
    tailer: TailView,
    parser: &P,
    inputs: Seq<(InputView, bool)>,
) -> TailView
    decreases inputs.len(),
{
    if inputs.len() == 0 {
        tailer
    } else {
        state_after(tailer, parser, inputs.drop_last()).after(
            parser,
            inputs.last().0,
            inputs.last().1,
        ).state
    }
}

/// All events that a tailer sends over a list of inputs.
pub open spec fn events_over<P: LogParser>(
    tailer: TailView,
    parser: &P,
    inputs: Seq<(InputView, bool)>,
) -> Seq<EventView>
    decreases inputs.len(),
{
    if inputs.len() == 0 {
        Seq::empty()
    } else {
        events_over(tailer, parser, inputs.drop_last()) + state_after(
            tailer,
            parser,
            inputs.drop_last(),
        ).after(parser, inputs.last().0, inputs.last().1).events
    }
}

/// The rows that some events bring in batches, in their order.
pub open spec fn rows_sent(events: Seq<EventView>) -> Seq<RowView>
    decreases events.len(),
{
    if events.len() == 0 {
        Seq::empty()
    } else {
        rows_sent(events.drop_last()) + match events.last() {
            EventView::RowsAppended(rows) => rows,
            _ => Seq::empty(),
        }
    }
}

/// The rows are numbered from `first` on.
pub open spec fn numbered_from(rows: Seq<RowView>, first: nat) -> bool {
    forall|i: int| 0 <= i < rows.len() ==> (#[trigger] rows[i]).row_id.0 == first + i
}

/// Rows come in batches only, and no batch is empty or too large.
pub open spec fn batches_are_bounded(events: Seq<EventView>) -> bool {
    forall|i: int|
        0 <= i < events.len() ==> match #[trigger] events[i] {
            EventView::RowsAppended(rows) => 1 <= rows.len() <= MAX_BATCH_ROWS,
            EventView::RowAppended(_) => false,
            _ => true,
        }
}

/// The rows of events in two parts.
proof fn lemma_rows_sent_in_two_parts(first: Seq<EventView>, rest: Seq<EventView>)
    ensures
        rows_sent(first + rest) == rows_sent(first) + rows_sent(rest),
    decreases rest.len(),
{
    let all = first + rest;
    if rest.len() == 0 {
        assert(all =~= first);
        assert(rows_sent(all) =~= rows_sent(first) + rows_sent(rest));
    } else {
        lemma_rows_sent_in_two_parts(first, rest.drop_last());
        assert(all.drop_last() =~= first + rest.drop_last());
        assert(all.last() == rest.last());
        assert(rows_sent(all) =~= rows_sent(first) + rows_sent(rest));
    }
}

/// The rows of an event and of those before it.
proof fn lemma_rows_sent_push(events: Seq<EventView>, event: EventView)
    ensures
        rows_sent(events.push(event)) == rows_sent(events) + match event {
            EventView::RowsAppended(rows) => rows,
            _ => Seq::empty(),
        },
{
    assert(events.push(event).drop_last() =~= events);
}

/// What the state of a tailer and the events that it sent so far have in common.
spec fn run_holds(tailer: TailView, state: TailView, events: Seq<EventView>) -> bool {
    &&& state.source_id == tailer.source_id
    &&& state.path == tailer.path
    &&& state.batch.len() < MAX_BATCH_ROWS
    &&& !(state.phase is Reading) ==> state.batch.len() == 0
    &&& state.phase is Fresh <==> events.len() == 0
    &&& events.len() > 0 ==> events[0] == EventView::SourceAdded(tailer.source_id, tailer.path)
    &&& forall|i: int| 0 < i < events.len() ==> !(#[trigger] events[i] is SourceAdded)
    &&& state.phase is Finished ==> events.last() == EventView::SourceRemoved(tailer.source_id)
    &&& forall|i: int|
        0 <= i < events.len() && #[trigger] events[i] is SourceRemoved ==> state.phase is Finished
            && i == events.len() - 1
    &&& batches_are_bounded(events)
    &&& rows_sent(events).len() + state.batch.len() == state.cursor.next_row
    &&& numbered_from(rows_sent(events) + state.batch, 0)
}

/// The end of a round sends no more than the removal of the source.
proof fn lemma_round_ends(state: TailView, events: Seq<EventView>)
    requires
        state.batch.len() == 0,
    ensures
        ({
            let step = state.ends_round(events);
            &&& step.state == state.at(step.state.phase)
            &&& rows_sent(step.events) == rows_sent(events)
            &&& if state.follow {
                step.state.phase is Pausing && step.events == events
            } else {
                step.state.phase is Finished && step.events == events.push(
                    EventView::SourceRemoved(state.source_id),
                )
            }
        }),
{
    lemma_rows_sent_push(events, EventView::SourceRemoved(state.source_id));
    assert(rows_sent(events) + Seq::<RowView>::empty() =~= rows_sent(events));
}

/// What the events of a step and the states before and after it have in common.
spec fn step_holds(before: TailView, step: TailStep, new_rows: Seq<RowView>) -> bool {
    &&& step.state.source_id == before.source_id
    &&& step.state.path == before.path
    &&& step.state.batch.len() < MAX_BATCH_ROWS
    &&& !(step.state.phase is Reading) ==> step.state.batch.len() == 0
    &&& !(step.state.phase is Fresh)
    &&& forall|i: int| 0 <= i < step.events.len() ==> !(#[trigger] step.events[i] is SourceAdded)
    &&& step.state.phase is Finished ==> step.events.len() > 0 && step.events.last()
        == EventView::SourceRemoved(before.source_id)
    &&& forall|i: int|
        0 <= i < step.events.len() && #[trigger] step.events[i] is SourceRemoved
            ==> step.state.phase is Finished && i == step.events.len() - 1
    &&& batches_are_bounded(step.events)
    &&& rows_sent(step.events) + step.state.batch == before.batch + new_rows
    &&& step.state.cursor.next_row == before.cursor.next_row + new_rows.len()
}

/// The end of reading sends the batch.
proof fn lemma_reading_ends(state: TailView, drain: bool, error: Option<Seq<char>>)
    requires
        state.batch.len() <= MAX_BATCH_ROWS,
    ensures
        step_holds(state, state.ends_reading(drain, error), Seq::empty()),
{
    let step = state.ends_reading(drain, error);
    let sent = state.batch_event();
    let told = match error {
        Some(message) => seq![EventView::SourceError(state.source_id, message)],
        None => Seq::empty(),
    };
    let events = sent + told;
    let none = Seq::<EventView>::empty();
    assert(rows_sent(none) =~= Seq::<RowView>::empty());
    assert(rows_sent(sent) =~= state.batch) by {
        if state.batch.len() > 0 {
            lemma_rows_sent_push(none, EventView::RowsAppended(state.batch));
            assert(sent =~= none.push(EventView::RowsAppended(state.batch)));
        }
    }
    assert(rows_sent(told) =~= Seq::<RowView>::empty()) by {
        if let Some(message) = error {
            lemma_rows_sent_push(none, EventView::SourceError(state.source_id, message));
            assert(told =~= none.push(EventView::SourceError(state.source_id, message)));
        }
    }
    lemma_rows_sent_in_two_parts(sent, told);
    assert(rows_sent(events) =~= state.batch);
    if drain {
        lemma_rows_sent_push(events, EventView::SourceRotated(state.source_id));
        assert(rows_sent(step.events) =~= state.batch);
    } else {
        let emptied = TailView {
            batch: Seq::empty(),
            opened: if error is Some {
                None
            } else {
                state.opened
            },
            ..state
        };
        lemma_round_ends(emptied, events);
    }
    assert(rows_sent(step.events) + step.state.batch =~= state.batch + Seq::<RowView>::empty());
}

/// What a read sends and keeps.
proof fn lemma_read_holds(state: TailView, parser: ParserChoice, bytes: Seq<u8>, drain: bool)
    requires
        state.batch.len() < MAX_BATCH_ROWS,
    ensures
        step_holds(
            state,
            state.takes(&parser, bytes, drain),
            state.cursor.rows_read(&parser, state.source_id, bytes, drain || !state.follow),
        ),
{
    let flush = drain || !state.follow;
    let rows = state.cursor.rows_read(&parser, state.source_id, bytes, flush);
    let next = state.with_bytes(&parser, bytes, flush);
    let step = state.takes(&parser, bytes, drain);
    let none = Seq::<EventView>::empty();
    assert(next.batch == state.batch + rows);
    assert(rows_sent(none) =~= Seq::<RowView>::empty());
    if bytes.len() == 0 || bytes.last() != 10u8 {
        lemma_reading_ends(next, drain, None);
        assert(rows_sent(step.events) + step.state.batch =~= state.batch + rows);
    } else if next.batch.len() >= MAX_BATCH_ROWS {
        lemma_rows_sent_push(none, EventView::RowsAppended(next.batch));
        assert(step.events =~= none.push(EventView::RowsAppended(next.batch)));
        assert(rows_sent(step.events) + step.state.batch =~= state.batch + rows);
    } else {
        assert(rows_sent(step.events) + step.state.batch =~= state.batch + rows);
    }
}

/// The rows that an input gives.
spec fn rows_of_input(state: TailView, parser: ParserChoice, input: InputView) -> Seq<RowView> {
    match (state.phase, input) {
        (TailPhase::Reading(drain), InputView::Bytes(bytes)) => state.cursor.rows_read(
            &parser,
            state.source_id,
            bytes,
            drain || !state.follow,
        ),
        _ => Seq::empty(),
    }
}

/// What a step of a tailer that has announced its source and is not at its end sends and keeps.
proof fn lemma_step_holds(state: TailView, parser: ParserChoice, input: InputView, stop: bool)
    requires
        state.batch.len() < MAX_BATCH_ROWS,
        !(state.phase is Reading) ==> state.batch.len() == 0,
        !(state.phase is Fresh),
        !(state.phase is Finished),
    ensures
        step_holds(
            state,
            state.after(&parser, input, stop),
            rows_of_input(state, parser, input),
        ),
{
    let step = state.after(&parser, input, stop);
    let none = Seq::<EventView>::empty();
    let no_rows = Seq::<RowView>::empty();
    assert(rows_sent(none) =~= no_rows);
    assert(state.batch + no_rows =~= state.batch);
    assert(no_rows + state.batch =~= state.batch);
    assert forall|event: EventView| !(event is RowsAppended) implies #[trigger] rows_sent(
        seq![event],
    ) == no_rows by {
        lemma_rows_sent_push(none, event);
        assert(seq![event] =~= none.push(event));
        assert(rows_sent(seq![event]) =~= no_rows);
    }
    match (state.phase, input) {
        (TailPhase::Reading(drain), InputView::Bytes(bytes)) => {
            lemma_read_holds(state, parser, bytes, drain);
        },
        (TailPhase::Reading(drain), InputView::Failed(message)) => {
            lemma_reading_ends(state, drain, Some(message));
        },
        (TailPhase::BeforeRead(drain), InputView::Resumed) => {
            if stop {
                lemma_reading_ends(state, drain, None);
            }
        },
        (TailPhase::Opening, InputView::Failed(message)) => {
            lemma_round_ends(state, seq![EventView::SourceError(state.source_id, message)]);
        },
        (TailPhase::Placing(_, _), InputView::Failed(message)) => {
            lemma_round_ends(state, seq![EventView::SourceError(state.source_id, message)]);
        },
        (TailPhase::Rewinding, InputView::Failed(_)) => {
            lemma_round_ends(TailView { opened: None, ..state }, none);
        },
        _ => {},
    }
}

/// What a run of a tailer keeps.
proof fn lemma_run_holds(
    tailer: TailView,
    parser: ParserChoice,
    inputs: Seq<(InputView, bool)>,
)
    requires
        tailer == fresh_tailer(tailer.source_id, tailer.path, tailer.from_start, tailer.follow),
        inputs.len() <= u64::MAX,
    ensures
        run_holds(
            tailer,
            state_after(tailer, &parser, inputs),
            events_over(tailer, &parser, inputs),
        ),
        state_after(tailer, &parser, inputs).cursor.next_row <= inputs.len(),
    decreases inputs.len(),
{
    let none = Seq::<EventView>::empty();
    let no_rows = Seq::<RowView>::empty();
    assert(rows_sent(none) =~= no_rows);
    let state = state_after(tailer, &parser, inputs);
    let events = events_over(tailer, &parser, inputs);
    if inputs.len() == 0 {
        assert(rows_sent(events) + state.batch =~= no_rows);
    } else {
        let head = inputs.drop_last();
        let (input, stop) = inputs.last();
        lemma_run_holds(tailer, parser, head);
        let before = state_after(tailer, &parser, head);
        let sent = events_over(tailer, &parser, head);
        let step = before.after(&parser, input, stop);
        assert(events == sent + step.events);
        lemma_rows_sent_in_two_parts(sent, step.events);
        if before.phase is Fresh {
            assert(sent =~= none);
            if input is Resumed {
                let added = EventView::SourceAdded(tailer.source_id, tailer.path);
                lemma_rows_sent_push(none, added);
                assert(step.events =~= none.push(added));
                assert(events =~= none.push(added));
                assert(rows_sent(events) + state.batch =~= no_rows);
            } else {
                assert(events =~= none);
                assert(rows_sent(events) + state.batch =~= no_rows);
            }
        } else if before.phase is Finished {
            assert(step.events =~= none);
            assert(events =~= sent);
        } else {
            lemma_step_holds(before, parser, input, stop);
            let rows = rows_of_input(before, parser, input);
            let old = rows_sent(sent) + before.batch;
            let new = rows_sent(events) + state.batch;
            assert(new =~= old + rows) by {
                assert(new =~= rows_sent(sent) + (rows_sent(step.events) + step.state.batch));
                assert(old + rows =~= rows_sent(sent) + (before.batch + rows));
            }
            assert(numbered_from(new, 0)) by {
                assert forall|i: int| 0 <= i < new.len() implies (#[trigger] new[i]).row_id.0 == i by {
                    if i < old.len() {
                        assert(new[i] == old[i]);
                    } else {
                        assert(new[i] == rows[0]);
                        lemma_row_has_its_number(before, parser, input);
                    }
                }
            }
            assert forall|i: int| 0 < i < events.len() implies !(#[trigger] events[i]
                is SourceAdded) by {
                if i >= sent.len() {
                    assert(events[i] == step.events[i - sent.len()]);
                } else {
                    assert(events[i] == sent[i]);
                }
            }
            assert forall|i: int|
                0 <= i < events.len() && #[trigger] events[i] is SourceRemoved implies state.phase
                is Finished && i == events.len() - 1 by {
                if i >= sent.len() {
                    assert(events[i] == step.events[i - sent.len()]);
                } else {
                    assert(events[i] == sent[i]);
                }
            }
            assert(batches_are_bounded(events)) by {
                assert forall|i: int| 0 <= i < events.len() implies match #[trigger] events[i] {
                    EventView::RowsAppended(rows) => 1 <= rows.len() <= MAX_BATCH_ROWS,
                    EventView::RowAppended(_) => false,
                    _ => true,
                } by {
                    if i >= sent.len() {
                        assert(events[i] == step.events[i - sent.len()]);
                    } else {
                        assert(events[i] == sent[i]);
                    }
                }
            }
        }
    }
}

/// A row that an input gives has the next number.
proof fn lemma_row_has_its_number(state: TailView, parser: ParserChoice, input: InputView)
    requires
        state.cursor.next_row <= u64::MAX,
    ensures
        numbered_from(rows_of_input(state, parser, input), state.cursor.next_row),
        rows_of_input(state, parser, input).len() <= 1,
{
    if let (TailPhase::Reading(_), InputView::Bytes(bytes)) = (state.phase, input) {
        law_rows_keep_their_line(
            parser,
            state.source_id,
            RowId(state.cursor.next_row as u64),
            ByteRange {
                start: state.cursor.offset as u64,
                end: (state.cursor.consumed() + bytes.len()) as u64,
            },
            lossy_text(without_terminator(state.cursor.pending + bytes)),
        );
    }
}

/// Over a whole run, whatever happens to the file: a tailer announces its source first and once.
/// It tells of its removal last and once, when it comes to its end, and not before. Its rows come
/// in batches, none of them empty or larger than the bound. They are numbered from 0 on in the
/// order in which they are sent, across rotations.
pub proof fn law_run_of_a_tailer(
    tailer: TailView,
    parser: ParserChoice,
    inputs: Seq<(InputView, bool)>,
)
    requires
        tailer == fresh_tailer(tailer.source_id, tailer.path, tailer.from_start, tailer.follow),
        inputs.len() <= u64::MAX,
    ensures
        ({
            let events = events_over(tailer, &parser, inputs);
            let ended = state_after(tailer, &parser, inputs).phase == TailPhase::Finished;
            let added = EventView::SourceAdded(tailer.source_id, tailer.path);
            let removed = EventView::SourceRemoved(tailer.source_id);
            &&& events.len() > 0 ==> events[0] == added
            &&& forall|i: int| 0 < i < events.len() ==> !(#[trigger] events[i] is SourceAdded)
            &&& ended ==> events.len() > 1 && events.last() == removed
            &&& forall|i: int|
                0 <= i < events.len() && #[trigger] events[i] is SourceRemoved ==> ended && i
                    == events.len() - 1
            &&& batches_are_bounded(events)
            &&& numbered_from(rows_sent(events), 0)
            &&& ended ==> rows_sent(events).len() == state_after(
                tailer,
                &parser,
                inputs,
            ).cursor.next_row
        }),
{
    lemma_run_holds(tailer, parser, inputs);
    let events = events_over(tailer, &parser, inputs);
    let state = state_after(tailer, &parser, inputs);
    let all = rows_sent(events) + state.batch;
    assert forall|i: int| 0 <= i < rows_sent(events).len() implies (#[trigger] rows_sent(
        events,
    )[i]).row_id.0 == i by {
        assert(all[i] == rows_sent(events)[i]);
    }
}

/// What a newline and a carriage return at the end of a line come to: a line is the text before
/// them, and other bytes are part of the text.
pub proof fn law_terminators_are_taken_off(text: Seq<u8>)
    ensures
        text.len() == 0 || text.last() != 13u8 ==> without_terminator(text + seq![10u8]) == text,
        without_terminator(text + seq![13u8, 10u8]) == text,
        text.len() == 0 || (text.last() != 10u8 && text.last() != 13u8) ==> without_terminator(text)
            == text,
{
    let a = text + seq![10u8];
    let b = text + seq![13u8, 10u8];
    assert(a.drop_last() =~= text);
    assert(b.drop_last() =~= text + seq![13u8]);
    assert(b.drop_last().drop_last() =~= text);
}

/// Where a tailer starts in a file: one that reads from the start begins at byte 0, whatever the
/// length of the file; one that does not begins at its end. A file that is opened again is read on
/// from where its rows ended, or from its end where it has become shorter. After the move the rows
/// are counted from there.
pub proof fn law_start_of_reading<P: LogParser>(
    tailer: TailView,
    parser: &P,
    status: FileStatus,
    stop: bool,
)
    requires
        tailer.phase == TailPhase::Opening,
        tailer.cursor.offset <= u64::MAX,
    ensures
        ({
            let step = tailer.after(parser, InputView::Opened(status), stop);
            let placed = step.state.after(parser, InputView::Moved, stop).state;
            &&& step.events.len() == 0
            &&& step.request is Seek
            &&& placed.cursor.offset == step.request->Seek_0
            &&& placed.cursor.pending.len() == 0
            &&& placed.cursor.next_row == tailer.cursor.next_row
            &&& placed.opened == Some(status.identity)
            &&& !tailer.initialized && tailer.from_start ==> step.request == TailRequest::Seek(0)
            &&& !tailer.initialized && !tailer.from_start ==> step.request == TailRequest::Seek(
                status.len,
            )
            &&& tailer.initialized && tailer.cursor.offset <= status.len ==> step.request->Seek_0
                == tailer.cursor.offset
            &&& tailer.initialized && tailer.cursor.offset > status.len ==> step.request
                == TailRequest::Seek(status.len)
        }),
{
}

/// A tailer and the file that it reads: where the open file stands, and what was sent.
#[verifier::ext_equal]
pub ghost struct Reading {
    pub tailer: TailView,
    pub position: int,
    pub events: Seq<EventView>,
}

/// What comes of a request on a file that holds `file` and does not change, and where the open file
/// stands after that.
pub open spec fn reply(
    request: TailRequest,
    file: Seq<u8>,
    identity: Option<FileIdentity>,
    position: int,
) -> (InputView, int) {
    let status = FileStatus { len: file.len() as u64, identity };
    match request {
        TailRequest::Resume => (InputView::Resumed, position),
        TailRequest::Pause => (InputView::Resumed, position),
        TailRequest::Done => (InputView::Resumed, position),
        TailRequest::Open => (InputView::Opened(status), 0),
        TailRequest::Seek(offset) => (InputView::Moved, offset as int),
        TailRequest::Check => (InputView::Checked(Some(status)), position),
        TailRequest::Read => (
            InputView::Bytes(file.subrange(position, line_end(file, position))),
            line_end(file, position),
        ),
    }
}

impl Reading {
    /// The next request performed on a file that does not change.
    pub open spec fn served<P: LogParser>(
        self,
        parser: &P,
        file: Seq<u8>,
        identity: Option<FileIdentity>,
    ) -> Reading {
        let (input, position) = reply(request_of(self.tailer.phase), file, identity, self.position);
        let step = self.tailer.after(parser, input, false);
        Reading { tailer: step.state, position, events: self.events + step.events }
    }

    /// The next `n` requests performed.
    pub open spec fn served_times<P: LogParser>(
        self,
        parser: &P,
        file: Seq<u8>,
        identity: Option<FileIdentity>,
        n: nat,
    ) -> Reading
        decreases n,
    {
        if n == 0 {
            self
        } else {
            self.served(parser, file, identity).served_times(
                parser,
                file,
                identity,
                (n - 1) as nat,
            )
        }
    }

    /// The file has been read to its end: a tailer that follows it waits, another one is done.
    pub open spec fn at_end(self) -> bool {
        if self.tailer.follow {
            self.tailer.phase == TailPhase::Pausing
        } else {
            self.tailer.phase == TailPhase::Finished
        }
    }
}

/// After `n` requests the file has been read to its end and these rows have been sent.
spec fn sends(
    reading: Reading,
    parser: ParserChoice,
    file: Seq<u8>,
    identity: Option<FileIdentity>,
    rows: Seq<RowView>,
    n: nat,
) -> bool {
    let after = reading.served_times(&parser, file, identity, n);
    after.at_end() && after.tailer.follow == reading.tailer.follow && rows_sent(after.events) == rows
}

/// A line that does not reach to the end of the file ends in a newline.
proof fn lemma_line_has_its_newline(bytes: Seq<u8>, from: int)
    requires
        0 <= from < bytes.len(),
        line_end(bytes, from) < bytes.len() || bytes.last() == 10u8,
    ensures
        bytes[line_end(bytes, from) - 1] == 10u8,
    decreases bytes.len() - from,
{
    if bytes[from] != 10u8 {
        if from + 1 < bytes.len() {
            lemma_line_has_its_newline(bytes, from + 1);
        } else {
            assert(bytes.last() == bytes[from]);
            assert(line_end(bytes, from + 1) == bytes.len());
        }
    }
}

/// A tailer that stands at a line sends the rows of the lines from there on.
proof fn lemma_rest_is_sent(
    reading: Reading,
    parser: ParserChoice,
    file: Seq<u8>,
    identity: Option<FileIdentity>,
)
    requires
        reading.tailer.phase == TailPhase::Reading(false),
        reading.tailer.batch.len() < MAX_BATCH_ROWS,
        reading.tailer.cursor.pending.len() == 0,
        reading.tailer.cursor.offset == reading.position,
        0 <= reading.position <= file.len(),
        reading.tailer.follow ==> file.len() == 0 || file.last() == 10u8,
    ensures
        exists|n: nat| #[trigger]
            sends(
                reading,
                parser,
                file,
                identity,
                rows_sent(reading.events) + reading.tailer.batch + rows_of_reads(
                    reading.tailer.cursor,
                    &parser,
                    reading.tailer.source_id,
                    lines_of(file, reading.position),
                    true,
                ),
                n,
            ),
    decreases file.len() - reading.position,
{
    let tailer = reading.tailer;
    let from = reading.position;
    let end = line_end(file, from);
    let line = file.subrange(from, end);
    let flush = !tailer.follow;
    let one = reading.served(&parser, file, identity);
    let step = tailer.after(&parser, InputView::Bytes(line), false);
    let rows = tailer.cursor.rows_read(&parser, tailer.source_id, line, flush);
    let goal = rows_sent(reading.events) + tailer.batch + rows_of_reads(
        tailer.cursor,
        &parser,
        tailer.source_id,
        lines_of(file, from),
        true,
    );
    lemma_read_holds(tailer, parser, line, false);
    lemma_rows_sent_in_two_parts(reading.events, step.events);
    if from == file.len() {
        assert(line =~= Seq::<u8>::empty());
        assert(lines_of(file, from) =~= Seq::<Seq<u8>>::empty());
        assert(rows =~= Seq::<RowView>::empty());
        assert(one.at_end());
        assert(step.state.batch =~= Seq::<RowView>::empty());
        assert(rows_sent(step.events) =~= rows_sent(step.events) + step.state.batch);
        assert(rows_sent(one.events) =~= goal);
        assert(one.served_times(&parser, file, identity, 0) == one);
        assert(reading.served_times(&parser, file, identity, 1) == one);
        assert(sends(reading, parser, file, identity, goal, 1));
    } else {
        lemma_line_end(file, from);
        let rest = lines_of(file, end);
        let next = tailer.cursor.after_read(line, true);
        lemma_reads_in_two_parts(
            tailer.cursor,
            &parser,
            tailer.source_id,
            seq![line],
            rest,
            true,
        );
        lemma_one_read(tailer.cursor, &parser, tailer.source_id, line, true);
        assert(tailer.cursor.pending + line =~= line);
        assert(line.last() == file[end - 1]);
        if line.last() != 10u8 {
            if end < file.len() || file.last() == 10u8 {
                lemma_line_has_its_newline(file, from);
            }
            assert(end == file.len() && flush);
            assert(rest =~= Seq::<Seq<u8>>::empty());
            assert(rows_of_reads(next, &parser, tailer.source_id, rest, true) =~= Seq::<
                RowView,
            >::empty());
            assert(one.at_end());
            assert(step.state.batch =~= Seq::<RowView>::empty());
            assert(rows_sent(step.events) =~= rows_sent(step.events) + step.state.batch);
            assert(rows_sent(one.events) =~= goal);
            assert(one.served_times(&parser, file, identity, 0) == one);
            assert(reading.served_times(&parser, file, identity, 1) == one);
            assert(sends(reading, parser, file, identity, goal, 1));
        } else {
            assert(rows == tailer.cursor.rows_read(&parser, tailer.source_id, line, true));
            assert(one.tailer.cursor == next);
            assert(next.pending =~= Seq::<u8>::empty());
            if one.tailer.phase is Reading {
                lemma_rest_is_sent(one, parser, file, identity);
                let later = rows_sent(one.events) + one.tailer.batch + rows_of_reads(
                    next,
                    &parser,
                    tailer.source_id,
                    rest,
                    true,
                );
                let n = choose|n: nat| #[trigger] sends(one, parser, file, identity, later, n);
                assert(later =~= goal) by {
                    assert(rows_sent(one.events) + one.tailer.batch =~= rows_sent(reading.events)
                        + (rows_sent(step.events) + step.state.batch));
                }
                assert(reading.served_times(&parser, file, identity, n + 1) == one.served_times(
                    &parser,
                    file,
                    identity,
                    n,
                ));
                assert(sends(reading, parser, file, identity, goal, n + 1));
            } else {
                let two = one.served(&parser, file, identity);
                assert(one.tailer.phase == TailPhase::BeforeRead(false));
                assert(two.tailer.phase == TailPhase::Reading(false));
                assert(two.events =~= one.events);
                assert(two.position == end);
                lemma_rest_is_sent(two, parser, file, identity);
                let later = rows_sent(two.events) + two.tailer.batch + rows_of_reads(
                    next,
                    &parser,
                    tailer.source_id,
                    rest,
                    true,
                );
                let n = choose|n: nat| #[trigger] sends(two, parser, file, identity, later, n);
                assert(later =~= goal) by {
                    assert(rows_sent(two.events) + two.tailer.batch =~= rows_sent(reading.events)
                        + (rows_sent(step.events) + step.state.batch));
                }
                assert(one.served_times(&parser, file, identity, n + 1) == two.served_times(
                    &parser,
                    file,
                    identity,
                    n,
                ));
                assert(reading.served_times(&parser, file, identity, n + 2) == one.served_times(
                    &parser,
                    file,
                    identity,
                    n + 1,
                ));
                assert(sends(reading, parser, file, identity, goal, n + 2));
            }
        }
    }
}

/// The row tells of the line of the file at its place: the bytes from its start up to and with the
/// first newline, or up to the end of the file, without their terminator.
pub open spec fn is_row_of_line(row: RowView, file: Seq<u8>) -> bool {
    let start = row.byte_range.start as int;
    let end = row.byte_range.end as int;
    &&& start < end <= file.len()
    &&& end == file.len() || file[end - 1] == 10u8
    &&& forall|k: int| start <= k < end - 1 ==> #[trigger] file[k] != 10u8
    &&& row.raw == lossy_text(without_terminator(file.subrange(start, end)))
}

/// The rows tell of all lines of the file from `from` on, one row for each line, in their order and
/// end to end.
pub open spec fn are_rows_of_lines(rows: Seq<RowView>, file: Seq<u8>, from: int) -> bool {
    &&& from == file.len() <==> rows.len() == 0
    &&& rows.len() > 0 ==> rows[0].byte_range.start == from && rows.last().byte_range.end
        == file.len()
    &&& forall|i: int| 0 <= i < rows.len() ==> is_row_of_line(#[trigger] rows[i], file)
    &&& forall|i: int, j: int|
        0 <= i && j == i + 1 && j < rows.len() ==> (#[trigger] rows[i]).byte_range.end == (
        #[trigger] rows[j]).byte_range.start
}

/// Reading the lines of a file gives the rows of its lines.
pub(crate) proof fn lemma_rows_of_lines(
    cursor: CursorView,
    parser: ParserChoice,
    source_id: SourceId,
    file: Seq<u8>,
    from: int,
)
    requires
        0 <= from <= file.len() <= u64::MAX,
        cursor.offset == from,
        cursor.pending.len() == 0,
    ensures
        are_rows_of_lines(
            rows_of_reads(cursor, &parser, source_id, lines_of(file, from), true),
            file,
            from,
        ),
    decreases file.len() - from,
{
    let rows = rows_of_reads(cursor, &parser, source_id, lines_of(file, from), true);
    if from == file.len() {
        assert(lines_of(file, from) =~= Seq::<Seq<u8>>::empty());
    } else {
        let end = line_end(file, from);
        lemma_line_end(file, from);
        lemma_line_holds_no_newline(file, from);
        if end < file.len() {
            lemma_line_has_its_newline(file, from);
        }
        let line = file.subrange(from, end);
        let next = cursor.after_read(line, true);
        lemma_reads_in_two_parts(cursor, &parser, source_id, seq![line], lines_of(file, end), true);
        lemma_one_read(cursor, &parser, source_id, line, true);
        lemma_rows_of_lines(next, parser, source_id, file, end);
        assert(cursor.pending + line =~= line);
        let row = cursor.row(&parser, source_id, line);
        law_rows_keep_their_line(
            parser,
            source_id,
            RowId(cursor.next_row as u64),
            ByteRange { start: from as u64, end: end as u64 },
            lossy_text(without_terminator(line)),
        );
        let rest = rows_of_reads(next, &parser, source_id, lines_of(file, end), true);
        assert(rows =~= seq![row] + rest);
        assert(is_row_of_line(row, file));
        assert forall|i: int| 0 <= i < rows.len() implies is_row_of_line(#[trigger] rows[i], file) by {
            if i > 0 {
                assert(rows[i] == rest[i - 1]);
            }
        }
        assert forall|i: int, j: int| 0 <= i && j == i + 1 && j < rows.len() implies (
        #[trigger] rows[i]).byte_range.end == (#[trigger] rows[j]).byte_range.start by {
            assert(rows[j] == rest[j - 1]);
            if i > 0 {
                assert(rows[i] == rest[i - 1]);
            }
        }
        if rest.len() > 0 {
            assert(rows.last() == rest.last());
        }
    }
}

/// The reads of a tailer that is new to a file, up to its first line.
proof fn lemma_first_requests(
    tailer: TailView,
    parser: ParserChoice,
    file: Seq<u8>,
    identity: Option<FileIdentity>,
)
    requires
        tailer == fresh_tailer(tailer.source_id, tailer.path, tailer.from_start, tailer.follow),
        file.len() <= u64::MAX,
    ensures
        ({
            let start = Reading { tailer, position: 0, events: Seq::empty() };
            let ready = start.served_times(&parser, file, identity, 6);
            let from = if tailer.from_start {
                0
            } else {
                file.len() as int
            };
            &&& ready.tailer.phase == TailPhase::Reading(false)
            &&& ready.tailer.batch.len() == 0
            &&& ready.tailer.cursor == (CursorView {
                offset: from as nat,
                pending: Seq::empty(),
                next_row: 0,
            })
            &&& ready.tailer.source_id == tailer.source_id
            &&& ready.tailer.follow == tailer.follow
            &&& ready.position == from
            &&& rows_sent(ready.events).len() == 0
        }),
{
    let start = Reading { tailer, position: 0, events: Seq::empty() };
    let a = start.served(&parser, file, identity);
    let b = a.served(&parser, file, identity);
    let c = b.served(&parser, file, identity);
    let d = c.served(&parser, file, identity);
    let e = d.served(&parser, file, identity);
    let f = e.served(&parser, file, identity);
    assert(a.tailer.phase == TailPhase::Top);
    assert(b.tailer.phase == TailPhase::Opening);
    assert(c.tailer.phase is Placing);
    assert(d.tailer.phase == TailPhase::Checking);
    assert(e.tailer.phase == TailPhase::BeforeRead(false));
    assert(f.tailer.phase == TailPhase::Reading(false));
    let added = EventView::SourceAdded(tailer.source_id, tailer.path);
    assert(f.events =~= seq![added]);
    assert(seq![added] =~= Seq::<EventView>::empty().push(added));
    lemma_rows_sent_push(Seq::empty(), added);
    assert(rows_sent(Seq::<EventView>::empty()) =~= Seq::<RowView>::empty());
    assert(f.served_times(&parser, file, identity, 0) == f);
    assert(e.served_times(&parser, file, identity, 1) == f);
    assert(d.served_times(&parser, file, identity, 2) == f);
    assert(c.served_times(&parser, file, identity, 3) == f);
    assert(b.served_times(&parser, file, identity, 4) == f);
    assert(a.served_times(&parser, file, identity, 5) == f);
    assert(start.served_times(&parser, file, identity, 6) == f);
    assert(f.tailer.cursor =~= (CursorView {
        offset: if tailer.from_start {
            0
        } else {
            file.len()
        },
        pending: Seq::empty(),
        next_row: 0,
    }));
}

/// After `n` requests on an unchanging file, a new tailer has come to its end and has sent the rows
/// of the lines that it was asked for: all of them, or none where it starts at the end.
pub open spec fn has_replayed(
    tailer: TailView,
    parser: ParserChoice,
    file: Seq<u8>,
    identity: Option<FileIdentity>,
    n: nat,
) -> bool {
    let start = Reading { tailer, position: 0, events: Seq::empty() };
    let end = start.served_times(&parser, file, identity, n);
    let from = if tailer.from_start {
        0
    } else {
        file.len() as int
    };
    &&& end.at_end()
    &&& end.tailer.follow == tailer.follow
    &&& are_rows_of_lines(rows_sent(end.events), file, from)
    &&& rows_sent(end.events) == rows_of_reads(
        CursorView { offset: from as nat, pending: Seq::empty(), next_row: 0 },
        &parser,
        tailer.source_id,
        lines_of(file, from),
        true,
    )
}

/// A tailer that reads a file from its start, where the file does not change, comes to its end
/// and sends one row for each line of the file, from byte 0 on. One that does not read from the
/// start sends nothing of what was there before. A tailer that follows the file waits with a last
/// line that has no newline yet, so of such a file it is not said.
pub proof fn law_unchanging_file_is_replayed(
    tailer: TailView,
    parser: ParserChoice,
    file: Seq<u8>,
    identity: Option<FileIdentity>,
)
    requires
        tailer == fresh_tailer(tailer.source_id, tailer.path, tailer.from_start, tailer.follow),
        file.len() <= u64::MAX,
        tailer.follow ==> file.len() == 0 || file.last() == 10u8,
    ensures
        exists|n: nat| has_replayed(tailer, parser, file, identity, n),
{
    let start = Reading { tailer, position: 0, events: Seq::empty() };
    lemma_first_requests(tailer, parser, file, identity);
    let ready = start.served_times(&parser, file, identity, 6);
    lemma_rest_is_sent(ready, parser, file, identity);
    lemma_rows_of_lines(ready.tailer.cursor, parser, tailer.source_id, file, ready.position);
    let rows = rows_of_reads(
        ready.tailer.cursor,
        &parser,
        tailer.source_id,
        lines_of(file, ready.position),
        true,
    );
    let all = rows_sent(ready.events) + ready.tailer.batch + rows;
    assert(all =~= rows);
    let n = choose|n: nat| #[trigger] sends(ready, parser, file, identity, all, n);
    lemma_served_in_turn(start, parser, file, identity, 6, n);
    assert(has_replayed(tailer, parser, file, identity, 6 + n));
}

/// Requests that are performed one after the other.
proof fn lemma_served_in_turn(
    reading: Reading,
    parser: ParserChoice,
    file: Seq<u8>,
    identity: Option<FileIdentity>,
    m: nat,
    n: nat,
)
    ensures
        reading.served_times(&parser, file, identity, m + n) == reading.served_times(
            &parser,
            file,
            identity,
            m,
        ).served_times(&parser, file, identity, n),
    decreases m,
{
    if m > 0 {
        lemma_served_in_turn(
            reading.served(&parser, file, identity),
            parser,
            file,
            identity,
            (m - 1) as nat,
            n,
        );
    }
}

/// What a look at the path means to a tailer with an open file. Where the path is missing, or names
/// the same file and that is no shorter than what was read, reading goes on. Where it names another
/// file, the open one is read to its end first. Where the file is shorter than what was read, its
/// rotation is told and it is read from its start.
pub proof fn law_what_a_look_at_the_path_means<P: LogParser>(
    tailer: TailView,
    parser: &P,
    old: Option<FileIdentity>,
    status: FileStatus,
    stop: bool,
)
    requires
        tailer.phase == TailPhase::Checking,
        tailer.opened == Some(old),
    ensures
        ({
            let missing = tailer.after(parser, InputView::Checked(None), stop);
            let found = tailer.after(parser, InputView::Checked(Some(status)), stop);
            let other = old is Some && status.identity is Some && old != status.identity;
            let shorter = status.len < tailer.cursor.offset + tailer.cursor.pending.len();
            &&& missing.events.len() == 0 && missing.state == tailer.at(
                TailPhase::BeforeRead(false),
            )
            &&& other ==> found.events.len() == 0 && found.state == tailer.at(
                TailPhase::BeforeRead(true),
            )
            &&& !other && !shorter ==> found.events.len() == 0 && found.state == tailer.at(
                TailPhase::BeforeRead(false),
            )
            &&& !other && shorter ==> found.events == seq![
                EventView::SourceRotated(tailer.source_id),
            ] && found.request == TailRequest::Seek(0) && found.state.cursor.offset == 0
                && found.state.cursor.pending.len() == 0 && found.state.cursor.next_row
                == tailer.cursor.next_row
        }),
{
}

/// What goes wrong is told, with the words of the failure, and a tailer that follows its file tries
/// again; another one is done. A file that could not be read is closed; the rows that were read
/// before are sent first.
pub proof fn law_failures_are_told<P: LogParser>(
    tailer: TailView,
    parser: &P,
    message: Seq<char>,
    stop: bool,
)
    requires
        tailer.phase is Opening || tailer.phase is Placing || tailer.phase == TailPhase::Reading(
            false,
        ),
    ensures
        ({
            let step = tailer.after(parser, InputView::Failed(message), stop);
            let error = EventView::SourceError(tailer.source_id, message);
            let removed = EventView::SourceRemoved(tailer.source_id);
            let sent = if tailer.phase is Reading && tailer.batch.len() > 0 {
                seq![EventView::RowsAppended(tailer.batch)]
            } else {
                Seq::empty()
            };
            &&& tailer.follow ==> step.events == sent.push(error) && step.request
                == TailRequest::Pause
            &&& !tailer.follow ==> step.events == sent.push(error).push(removed) && step.request
                == TailRequest::Done
            &&& tailer.phase is Reading ==> step.state.opened is None
            &&& step.state.cursor == tailer.cursor
        }),
{
    let step = tailer.after(parser, InputView::Failed(message), stop);
    let error = EventView::SourceError(tailer.source_id, message);
    let sent = if tailer.phase is Reading && tailer.batch.len() > 0 {
        seq![EventView::RowsAppended(tailer.batch)]
    } else {
        Seq::empty()
    };
    assert(sent + seq![error] =~= sent.push(error));
    assert(seq![error] =~= Seq::<EventView>::empty().push(error));
    if !(tailer.phase is Reading) {
        assert(sent.push(error) =~= seq![error]);
    }
}

/// A tailer that is asked to stop ends at its next turn and tells that its source is gone; a tailer
/// that waits looks at its file again, or opens it where none is open.
pub proof fn law_turns_of_a_tailer<P: LogParser>(tailer: TailView, parser: &P)
    requires
        tailer.phase is Top || tailer.phase is Pausing,
    ensures
        ({
            let stopped = tailer.after(parser, InputView::Resumed, true);
            let going = tailer.after(parser, InputView::Resumed, false);
            &&& stopped.events == seq![EventView::SourceRemoved(tailer.source_id)]
            &&& stopped.request == TailRequest::Done
            &&& going.events.len() == 0
            &&& tailer.opened is None ==> going.request == TailRequest::Open
            &&& tailer.opened is Some ==> going.request == TailRequest::Check
            &&& going.state.cursor == tailer.cursor
        }),
{
}

/// What a read gives to a tailer that reads on. A line with its newline is one more row, which is
/// sent with others when 256 have come together. The start of a line is held back by a tailer that
/// follows its file, and is the last row of another.
pub proof fn law_what_a_read_gives<P: LogParser>(
    tailer: TailView,
    parser: &P,
    bytes: Seq<u8>,
    stop: bool,
)
    requires
        tailer.phase == TailPhase::Reading(false),
        tailer.batch.len() < 256,
        bytes.len() > 0,
    ensures
        ({
            let step = tailer.after(parser, InputView::Bytes(bytes), stop);
            let whole = tailer.cursor.pending + bytes;
            let start = tailer.cursor.offset;
            let row = parser.row_of(
                tailer.source_id,
                RowId(tailer.cursor.next_row as u64),
                ByteRange { start: start as u64, end: (start + whole.len()) as u64 },
                lossy_text(without_terminator(whole)),
            );
            let all = tailer.batch.push(row);
            &&& bytes.last() == 10u8 && all.len() < 256 ==> step.events.len() == 0
                && step.state.batch == all && step.request == TailRequest::Read
            &&& bytes.last() == 10u8 && all.len() == 256 ==> step.events == seq![
                EventView::RowsAppended(all),
            ] && step.state.batch.len() == 0 && step.request == TailRequest::Resume
            &&& bytes.last() == 10u8 ==> step.state.cursor.offset == start + whole.len()
                && step.state.cursor.pending.len() == 0 && step.state.cursor.next_row
                == tailer.cursor.next_row + 1
            &&& bytes.last() != 10u8 && tailer.follow ==> step.state.cursor.offset == start
                && step.state.cursor.pending == whole && rows_sent(step.events) == tailer.batch
                && step.request == TailRequest::Pause
            &&& bytes.last() != 10u8 && !tailer.follow ==> rows_sent(step.events) == all
                && step.events.last() == EventView::SourceRemoved(tailer.source_id)
        }),
{
    let flush = !tailer.follow;
    let rows = tailer.cursor.rows_read(parser, tailer.source_id, bytes, flush);
    let next = tailer.with_bytes(parser, bytes, flush);
    let step = tailer.after(parser, InputView::Bytes(bytes), stop);
    let none = Seq::<EventView>::empty();
    let row = tailer.cursor.row(parser, tailer.source_id, bytes);
    assert(tailer.batch + seq![row] =~= tailer.batch.push(row));
    assert(tailer.batch + Seq::<RowView>::empty() =~= tailer.batch);
    assert(rows_sent(none) =~= Seq::<RowView>::empty());
    assert(tailer.cursor.consumed() + bytes.len() == tailer.cursor.offset + (tailer.cursor.pending
        + bytes).len());
    if bytes.last() != 10u8 {
        lemma_reading_ends(next, false, None);
        assert(step.state.batch =~= Seq::<RowView>::empty());
        assert(rows_sent(step.events) =~= rows_sent(step.events) + step.state.batch);
        assert(rows_sent(step.events) =~= next.batch);
    }
}

/// The last line of a renamed file is a row though it has no newline; after the end of that file its
/// rotation is told, and the path is opened anew from its start.
pub proof fn law_last_line_of_a_renamed_file<P: LogParser>(
    tailer: TailView,
    parser: &P,
    bytes: Seq<u8>,
    stop: bool,
)
    requires
        tailer.phase == TailPhase::Reading(true),
        tailer.batch.len() < 256,
        bytes.len() == 0 || bytes.last() != 10u8,
    ensures
        ({
            let step = tailer.after(parser, InputView::Bytes(bytes), stop);
            let whole = tailer.cursor.pending + bytes;
            let start = tailer.cursor.offset;
            let row = parser.row_of(
                tailer.source_id,
                RowId(tailer.cursor.next_row as u64),
                ByteRange { start: start as u64, end: (start + whole.len()) as u64 },
                lossy_text(without_terminator(whole)),
            );
            &&& rows_sent(step.events) == if whole.len() > 0 {
                tailer.batch.push(row)
            } else {
                tailer.batch
            }
            &&& step.events.last() == EventView::SourceRotated(tailer.source_id)
            &&& step.state.opened is None && step.state.cursor.offset == 0
                && step.state.cursor.pending.len() == 0
            &&& step.request == TailRequest::Resume
        }),
{
    let next = tailer.with_bytes(parser, bytes, true);
    let step = tailer.after(parser, InputView::Bytes(bytes), stop);
    let row = tailer.cursor.row(parser, tailer.source_id, bytes);
    let whole = tailer.cursor.pending + bytes;
    assert(tailer.batch + seq![row] =~= tailer.batch.push(row));
    assert(tailer.batch + Seq::<RowView>::empty() =~= tailer.batch);
    assert(tailer.cursor.consumed() + bytes.len() == tailer.cursor.offset + whole.len());
    if bytes.len() == 0 {
        assert(whole =~= tailer.cursor.pending);
    }
    lemma_reading_ends(next, true, None);
    assert(step.state.batch =~= Seq::<RowView>::empty());
    assert(rows_sent(step.events) =~= rows_sent(step.events) + step.state.batch);
    assert(rows_sent(step.events) =~= next.batch);
}

/// Before each batch a tailer reads on, unless it is asked to stop; after a move to the start of a
/// truncated file it reads on.
pub proof fn law_reading_goes_on<P: LogParser>(tailer: TailView, parser: &P, drain: bool)
    ensures
        tailer.phase == TailPhase::BeforeRead(drain) ==> {
            let going = tailer.after(parser, InputView::Resumed, false);
            going.request == TailRequest::Read && going.events.len() == 0 && going.state
                == tailer.at(TailPhase::Reading(drain))
        },
        tailer.phase == TailPhase::BeforeRead(false) && tailer.batch.len() == 0 ==> {
            let stopped = tailer.after(parser, InputView::Resumed, true);
            stopped.request == if tailer.follow {
                TailRequest::Pause
            } else {
                TailRequest::Done
            }
        },
        tailer.phase == TailPhase::Rewinding ==> {
            let moved = tailer.after(parser, InputView::Moved, false);
            moved.events.len() == 0 && moved.state == tailer.at(TailPhase::BeforeRead(false))
        },
{
}

} // verus!
