//! Following files that stand in memory.
use glowtail::events::LogEvent;
use glowtail::model::{ByteRange, LogRow, RowId, SourceId};
use glowtail::parser::ParserChoice;
use glowtail::source::{
    trim_line_terminator, FileIdentity, FileStatus, LineCursor, TailInput, TailRequest, Tailer,
    MAX_BATCH_ROWS,
};
use glowtail::viewport::Engine;

/// A path that names a file, and the file that is open.
struct Disk {
    named: Option<(Vec<u8>, u64)>,
    open: Option<(Vec<u8>, u64)>,
    position: usize,
}

impl Disk {
    fn with(bytes: &[u8]) -> Disk {
        Disk { named: Some((bytes.to_vec(), 1)), open: None, position: 0 }
    }

    fn status(file: &(Vec<u8>, u64)) -> FileStatus {
        FileStatus {
            len: file.0.len() as u64,
            identity: Some(FileIdentity { device: 7, inode: file.1 }),
        }
    }

    /// An open file is seen to grow and shrink with the file that the path names.
    fn write(&mut self, bytes: &[u8]) {
        if let Some(named) = self.named.as_mut() {
            named.0 = bytes.to_vec();
            if let Some(open) = self.open.as_mut() {
                if open.1 == named.1 {
                    open.0 = bytes.to_vec();
                }
            }
        }
    }

    fn append(&mut self, bytes: &[u8]) {
        let mut whole = self.named.as_ref().map(|file| file.0.clone()).unwrap_or_default();
        whole.extend_from_slice(bytes);
        self.write(&whole);
    }

    fn perform(&mut self, request: TailRequest) -> TailInput {
        match request {
            TailRequest::Open => match self.named.as_ref() {
                Some(file) => {
                    self.open = Some(file.clone());
                    self.position = 0;
                    TailInput::Opened(Disk::status(file))
                }
                None => TailInput::Failed("no such file".to_string()),
            },
            TailRequest::Seek(offset) => {
                self.position = offset as usize;
                TailInput::Moved
            }
            TailRequest::Check => TailInput::Checked(self.named.as_ref().map(Disk::status)),
            TailRequest::Read => {
                let bytes = &self.open.as_ref().expect("a file is open").0;
                let rest = &bytes[self.position.min(bytes.len())..];
                let end = rest.iter().position(|b| *b == b'\n').map(|at| at + 1);
                let chunk = rest[..end.unwrap_or(rest.len())].to_vec();
                self.position += chunk.len();
                TailInput::Bytes(chunk)
            }
            TailRequest::Resume | TailRequest::Pause | TailRequest::Done => TailInput::Resumed,
        }
    }
}

struct Follower {
    tailer: Tailer,
    events: Vec<LogEvent>,
    request: TailRequest,
    input: Option<TailInput>,
}

impl Follower {
    fn new(source_id: u64, from_start: bool, follow: bool) -> Follower {
        Follower {
            tailer: Tailer::new(SourceId(source_id), "app.log", from_start, follow),
            events: Vec::new(),
            request: TailRequest::Resume,
            input: Some(TailInput::Resumed),
        }
    }

    /// Runs until the tailer pauses or ends.
    fn round(&mut self, disk: &mut Disk, stop: bool) -> TailRequest {
        loop {
            let input = self.input.take().unwrap_or(TailInput::Resumed);
            let (events, request) = self.tailer.step(&ParserChoice::composite(), input, stop);
            self.events.extend(events);
            self.request = request;
            match request {
                TailRequest::Pause | TailRequest::Done => return request,
                _ => self.input = Some(disk.perform(request)),
            }
        }
    }

    fn rows(&self) -> Vec<LogRow> {
        let mut rows = Vec::new();
        for event in &self.events {
            match event {
                LogEvent::RowAppended(row) => rows.push(row.clone()),
                LogEvent::RowsAppended(batch) => rows.extend(batch.iter().cloned()),
                _ => {}
            }
        }
        rows
    }

    fn messages(&self) -> Vec<String> {
        self.rows().iter().map(|row| row.message.to_string()).collect()
    }

    fn count(&self, wanted: fn(&LogEvent) -> bool) -> usize {
        self.events.iter().filter(|event| wanted(event)).count()
    }
}

fn is_rotation(event: &LogEvent) -> bool {
    matches!(event, LogEvent::SourceRotated { .. })
}

#[test]
fn reads_existing_lines_once_when_not_following() {
    let mut disk = Disk::with(b"INFO started\nERROR failed\n");
    let mut follower = Follower::new(1, true, false);
    assert_eq!(follower.round(&mut disk, false), TailRequest::Done);
    assert_eq!(follower.messages(), vec!["INFO started", "ERROR failed"]);
    assert!(matches!(follower.events.first(), Some(LogEvent::SourceAdded { .. })));
    assert!(matches!(follower.events.last(), Some(LogEvent::SourceRemoved { .. })));
}

#[test]
fn follows_appended_lines() {
    let mut disk = Disk::with(b"first\n");
    let mut follower = Follower::new(2, true, true);
    assert_eq!(follower.round(&mut disk, false), TailRequest::Pause);
    disk.append(b"second\n");
    follower.round(&mut disk, false);
    assert_eq!(follower.messages(), vec!["first", "second"]);
}

#[test]
fn follows_appended_lines_when_starting_at_end() {
    let mut disk = Disk::with(b"first\n");
    let mut follower = Follower::new(3, false, true);
    follower.round(&mut disk, false);
    disk.append(b"second\n");
    follower.round(&mut disk, false);
    assert_eq!(follower.messages(), vec!["second"]);
    assert_eq!(follower.rows()[0].byte_range, ByteRange { start: 6, end: 13 });
}

#[test]
fn detects_rotation_by_rename_even_when_new_file_is_larger() {
    let mut disk = Disk::with(b"aa\n");
    let mut follower = Follower::new(7, true, true);
    follower.round(&mut disk, false);
    assert_eq!(follower.messages(), vec!["aa"]);
    // The new file is longer than what was read of the old one.
    disk.named = Some((b"bbbbbbbbbbbb\n".to_vec(), 2));
    follower.round(&mut disk, false);
    assert_eq!(follower.count(is_rotation), 1);
    assert_eq!(follower.messages(), vec!["aa", "bbbbbbbbbbbb"]);
    assert_eq!(follower.rows()[1].byte_range, ByteRange { start: 0, end: 13 });
}

#[test]
fn a_renamed_file_is_read_to_its_end_first() {
    let mut disk = Disk::with(b"aa\n");
    let mut follower = Follower::new(7, true, true);
    follower.round(&mut disk, false);
    disk.open.as_mut().unwrap().0.extend_from_slice(b"tail");
    disk.named = Some((b"bbbbbbbbbbbb\n".to_vec(), 2));
    follower.round(&mut disk, false);
    assert_eq!(follower.messages(), vec!["aa", "tail", "bbbbbbbbbbbb"]);
    let ids: Vec<RowId> = follower.rows().iter().map(|row| row.row_id).collect();
    assert_eq!(ids, vec![RowId(0), RowId(1), RowId(2)]);
}

#[test]
fn holds_partial_lines_until_newline_arrives() {
    let mut disk = Disk::with(b"");
    let mut follower = Follower::new(8, true, true);
    follower.round(&mut disk, false);
    disk.append(b"par");
    follower.round(&mut disk, false);
    assert!(follower.rows().is_empty(), "a partial line waits for its newline");
    disk.append(b"tial\n");
    follower.round(&mut disk, false);
    assert_eq!(follower.messages(), vec!["partial"]);
    assert_eq!(follower.rows()[0].byte_range, ByteRange { start: 0, end: 8 });
}

#[test]
fn invalid_utf8_lines_are_lossily_replaced_not_fatal() {
    let mut disk = Disk::with(b"caf\xFF ok\n");
    let mut follower = Follower::new(9, true, false);
    follower.round(&mut disk, false);
    let rows = follower.rows();
    assert_eq!(rows.len(), 1);
    assert_eq!(rows[0].message.as_ref(), "caf\u{fffd} ok");
    assert_eq!(follower.count(|event| matches!(event, LogEvent::SourceError { .. })), 0);
}

#[test]
fn resets_to_start_and_emits_rotated_when_file_shrinks() {
    let mut disk = Disk::with(b"first line\nsecond line\n");
    let mut follower = Follower::new(4, true, true);
    follower.round(&mut disk, false);
    disk.write(b"rotated\n");
    follower.round(&mut disk, false);
    assert_eq!(follower.count(is_rotation), 1);
    assert_eq!(follower.messages(), vec!["first line", "second line", "rotated"]);
    assert_eq!(follower.rows()[2].byte_range, ByteRange { start: 0, end: 8 });
}

#[test]
fn reports_source_error_for_unreadable_path() {
    let mut disk = Disk { named: None, open: None, position: 0 };
    let mut follower = Follower::new(5, false, false);
    follower.round(&mut disk, false);
    assert!(follower.events.iter().any(|event| matches!(event, LogEvent::SourceError { .. })));
}

#[test]
fn a_missing_file_that_is_not_followed_ends_the_tailer() {
    let mut disk = Disk { named: None, open: None, position: 0 };
    let mut follower = Follower::new(5, false, false);
    assert_eq!(follower.round(&mut disk, false), TailRequest::Done);
    assert_eq!(follower.events.len(), 3);
    assert!(matches!(&follower.events[0], LogEvent::SourceAdded { .. }));
    assert!(matches!(
        &follower.events[1],
        LogEvent::SourceError { source_id: SourceId(5), message } if message == "no such file"
    ));
    assert!(matches!(
        &follower.events[2],
        LogEvent::SourceRemoved { source_id: SourceId(5) }
    ));
}

#[test]
fn a_missing_file_that_is_followed_is_waited_for() {
    let mut disk = Disk { named: None, open: None, position: 0 };
    let mut follower = Follower::new(1, true, true);
    assert_eq!(follower.round(&mut disk, false), TailRequest::Pause);
    disk.named = Some((b"here\n".to_vec(), 3));
    follower.round(&mut disk, false);
    assert_eq!(follower.messages(), vec!["here"]);
}

#[test]
fn a_whole_run_is_announced_numbered_and_ended() {
    let mut disk = Disk::with("line\n".repeat(600).as_bytes());
    let mut follower = Follower::new(1, true, true);
    follower.round(&mut disk, false);
    disk.write(b"short\n");
    follower.round(&mut disk, false);
    disk.named = Some(("new\n".repeat(300).into_bytes(), 2));
    follower.round(&mut disk, false);
    follower.round(&mut disk, true);
    let added = |event: &LogEvent| matches!(event, LogEvent::SourceAdded { .. });
    let removed = |event: &LogEvent| matches!(event, LogEvent::SourceRemoved { .. });
    assert!(added(&follower.events[0]));
    assert!(removed(follower.events.last().unwrap()));
    assert_eq!(follower.count(added), 1);
    assert_eq!(follower.count(removed), 1);
    assert_eq!(follower.count(is_rotation), 2);
    for event in &follower.events {
        if let LogEvent::RowsAppended(rows) = event {
            assert!(!rows.is_empty() && rows.len() <= MAX_BATCH_ROWS);
        }
    }
    let ids: Vec<u64> = follower.rows().iter().map(|row| row.row_id.0).collect();
    assert_eq!(ids, (0..901).collect::<Vec<u64>>());
}

#[test]
fn any_cut_gives_the_same_rows() {
    let bytes = b"one\n\ntwo\r\npart";
    let parser = ParserChoice::plain();
    let read = |cursor: &mut LineCursor, bytes: &[u8], rows: &mut Vec<LogRow>| {
        for line in bytes.split_inclusive(|byte| *byte == b'\n') {
            cursor.take(&parser, SourceId(1), line, false, rows);
        }
    };
    let mut whole = LineCursor::new();
    let mut expected = Vec::new();
    read(&mut whole, bytes, &mut expected);
    assert_eq!(expected.len(), 3);
    for cut in 0..=bytes.len() {
        let mut cursor = LineCursor::new();
        let mut rows = Vec::new();
        read(&mut cursor, &bytes[..cut], &mut rows);
        read(&mut cursor, &bytes[cut..], &mut rows);
        assert_eq!(rows, expected);
        assert_eq!((cursor.offset(), cursor.consumed()), (whole.offset(), whole.consumed()));
    }
}

#[test]
fn a_stop_request_ends_the_tailer_with_its_last_event() {
    let mut disk = Disk::with(b"first\n");
    let mut follower = Follower::new(1, true, true);
    follower.round(&mut disk, false);
    assert_eq!(follower.round(&mut disk, true), TailRequest::Done);
    assert!(matches!(follower.events.last(), Some(LogEvent::SourceRemoved { .. })));
    let count = follower.events.len();
    assert_eq!(follower.round(&mut disk, false), TailRequest::Done);
    assert_eq!(follower.events.len(), count);
}

#[test]
fn bursts_are_sent_in_bounded_batches() {
    let text = "line\n".repeat(MAX_BATCH_ROWS + 10);
    let mut disk = Disk::with(text.as_bytes());
    let mut follower = Follower::new(1, true, false);
    follower.round(&mut disk, false);
    let sizes: Vec<usize> = follower
        .events
        .iter()
        .filter_map(|event| match event {
            LogEvent::RowsAppended(rows) => Some(rows.len()),
            _ => None,
        })
        .collect();
    assert_eq!(sizes, vec![256, 10]);
}

#[test]
fn a_read_error_closes_the_file_and_is_told() {
    let mut tailer = Tailer::new(SourceId(4), "x", true, true);
    let parser = ParserChoice::plain();
    let status = FileStatus { len: 5, identity: None };
    tailer.step(&parser, TailInput::Resumed, false);
    let (_, request) = tailer.step(&parser, TailInput::Resumed, false);
    assert_eq!(request, TailRequest::Open);
    let (_, request) = tailer.step(&parser, TailInput::Opened(status), false);
    assert_eq!(request, TailRequest::Seek(0));
    tailer.step(&parser, TailInput::Moved, false);
    tailer.step(&parser, TailInput::Checked(None), false);
    let (_, request) = tailer.step(&parser, TailInput::Resumed, false);
    assert_eq!(request, TailRequest::Read);
    tailer.step(&parser, TailInput::Bytes(b"one\n".to_vec()), false);
    let (events, request) = tailer.step(&parser, TailInput::Failed("broken".into()), false);
    assert_eq!(request, TailRequest::Pause);
    assert_eq!(events.len(), 2);
    assert!(matches!(&events[0], LogEvent::RowsAppended(rows) if rows.len() == 1));
    assert!(matches!(&events[1], LogEvent::SourceError { message, .. } if message == "broken"));
    let (_, request) = tailer.step(&parser, TailInput::Resumed, false);
    assert_eq!(request, TailRequest::Open);
}

#[test]
fn a_reopened_file_is_read_from_where_it_was_left() {
    let mut tailer = Tailer::new(SourceId(4), "x", false, true);
    let parser = ParserChoice::plain();
    let status = |len| FileStatus { len, identity: None };
    tailer.step(&parser, TailInput::Resumed, false);
    tailer.step(&parser, TailInput::Resumed, false);
    let (_, request) = tailer.step(&parser, TailInput::Opened(status(100)), false);
    assert_eq!(request, TailRequest::Seek(100));
    tailer.step(&parser, TailInput::Moved, false);
    tailer.step(&parser, TailInput::Checked(None), false);
    tailer.step(&parser, TailInput::Resumed, false);
    tailer.step(&parser, TailInput::Failed("gone".into()), false);
    tailer.step(&parser, TailInput::Resumed, false);
    let (_, request) = tailer.step(&parser, TailInput::Opened(status(250)), false);
    assert_eq!(request, TailRequest::Seek(100));
}

#[test]
fn an_input_out_of_turn_changes_nothing() {
    let mut tailer = Tailer::new(SourceId(4), "x", false, true);
    let (events, request) =
        tailer.step(&ParserChoice::plain(), TailInput::Bytes(b"x\n".to_vec()), false);
    assert!(events.is_empty());
    assert_eq!(request, TailRequest::Resume);
}

#[test]
fn line_terminators_are_trimmed() {
    assert_eq!(trim_line_terminator(b"line\r\n"), b"line");
    assert_eq!(trim_line_terminator(b"line\n"), b"line");
    assert_eq!(trim_line_terminator(b"line\r"), b"line");
    assert_eq!(trim_line_terminator(b"line"), b"line");
    assert_eq!(trim_line_terminator(b"line\n\n"), b"line\n");
    assert_eq!(trim_line_terminator(b""), b"");
}

#[test]
fn rows_lie_end_to_end() {
    let mut disk = Disk::with("a\n\nccc\r\nä\nlast".as_bytes());
    let mut follower = Follower::new(1, true, false);
    follower.round(&mut disk, false);
    let rows = follower.rows();
    assert_eq!(follower.messages(), vec!["a", "", "ccc", "ä", "last"]);
    assert_eq!(rows[0].byte_range.start, 0);
    for pair in rows.windows(2) {
        assert_eq!(pair[0].byte_range.end, pair[1].byte_range.start);
    }
    assert_eq!(rows[4].byte_range.end, 15);
}

#[test]
fn loading_and_tailing_agree() {
    let bytes = "one\ntwo\r\n\nlast".as_bytes();
    let mut loaded = Engine::default();
    loaded.ingest_bytes(SourceId(1), &ParserChoice::plain(), bytes);

    let mut follower = Follower::new(1, true, false);
    follower.round(&mut Disk::with(bytes), false);
    let mut tailed = Engine::default();
    for row in follower.rows() {
        tailed.append_row(row);
    }
    assert_eq!(loaded.rows_snapshot(), tailed.rows_snapshot());
    assert_eq!(loaded.total_rows(), 4);
}
