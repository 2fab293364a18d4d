//! Loading whole files into the engine.
use crate::model::{ByteRange, RowId, RowView, SourceId};
use crate::parser::{LogParser, ParserChoice};
use crate::source::{
    are_rows_of_lines, decode_lossy, has_replayed, lemma_line_end, lemma_one_read,
    lemma_reads_in_two_parts, lemma_rows_of_lines, line_end, lines_of, lossy_text, rows_of_reads,
    rows_sent, trim_line_terminator, without_terminator, CursorView, FileIdentity, Reading,
    TailView,
};
use crate::viewport::{capped, next_source, with_source, with_source_of_row, Engine, EngineView};
use vstd::prelude::*;

verus! {

impl EngineView {
    /// The engine after a row has been appended.
    pub open spec fn with_row(self, row: RowView) -> EngineView {
        EngineView {
            index: capped(self.index.appended(row), self.max_rows),
            sources: with_source_of_row(self.sources, row.source_id),
            ..self
        }
    }

    /// The row of the line from `from` up to `end`.
    pub open spec fn line_row<P: LogParser>(
        self,
        parser: &P,
        source_id: SourceId,
        bytes: Seq<u8>,
        from: int,
        end: int,
    ) -> RowView {
        parser.row_of(
            source_id,
            self.index.next_id(),
            ByteRange { start: from as u64, end: end as u64 },
            lossy_text(without_terminator(bytes.subrange(from, end))),
        )
    }

    /// The engine after the lines from `from` on have been appended, the last one also without
    /// a newline.
    pub open spec fn ingested<P: LogParser>(
        self,
        parser: &P,
        source_id: SourceId,
        bytes: Seq<u8>,
        from: int,
    ) -> EngineView
        decreases bytes.len() - from,
    {
        if from < 0 || !(from < line_end(bytes, from) <= bytes.len()) {
            self
        } else {
            let end = line_end(bytes, from);
            self.with_row(self.line_row(parser, source_id, bytes, from, end)).ingested(
                parser,
                source_id,
                bytes,
                end,
            )
        }
    }
}

impl Engine {
    /// Appends a row for every line of a file.
    pub fn ingest_bytes<P: LogParser>(&mut self, source_id: SourceId, parser: &P, bytes: &[u8])
        requires
            old(self).wf(),
            old(self)@.index.evicted + old(self)@.index.rows.len() + bytes@.len() < u64::MAX,
        ensures
            final(self).wf(),
            final(self)@ == old(self)@.ingested(parser, source_id, bytes@, 0),
    {
        let ghost goal = self@.ingested(parser, source_id, bytes@, 0);
        let total: usize = bytes.len();
        let mut from: usize = 0;
        while from < total
            invariant
                from <= total,
                total == bytes@.len(),
                self.wf(),
                self@.index.evicted + self@.index.rows.len() + (total - from) < u64::MAX,
                self@.ingested(parser, source_id, bytes@, from as int) == goal,
            decreases total - from,
        {
            let end: usize = find_line_end(bytes, from);
            proof {
                lemma_line_end(bytes@, from as int);
            }
            let (head, _) = bytes.split_at(end);
            let (_, line) = head.split_at(from);
            assert(line@ =~= bytes@.subrange(from as int, end as int));
            let text = decode_lossy(trim_line_terminator(line));
            let row_id = RowId(self.evicted_row_count() + self.total_rows() as u64);
            let row = parser.parse_line(
                source_id,
                row_id,
                ByteRange { start: from as u64, end: end as u64 },
                &text,
            );
            self.append_row(row);
            from = end;
        }
    }
}

impl Engine {
    /// Loads a file under the next source number and the given name. Returns that number.
    pub fn load_named<P: LogParser>(&mut self, name: &str, parser: &P, bytes: &[u8]) -> (r: SourceId)
        requires
            old(self).wf(),
            old(self)@.index.evicted + old(self)@.index.rows.len() + bytes@.len() < u64::MAX,
        ensures
            final(self).wf(),
            r == next_source(old(self)@.sources),
            final(self)@ == (EngineView {
                sources: with_source(old(self)@.sources, r, name@),
                ..old(self)@
            }).ingested(parser, r, bytes@, 0),
    {
        let source_id = self.next_source_id();
        self.add_source(source_id, name);
        self.ingest_bytes(source_id, parser, bytes);
        source_id
    }
}

/// The index just behind the first newline at or after `from`, or the end of the bytes.
fn find_line_end(bytes: &[u8], from: usize) -> (r: usize)
    requires
        from < bytes@.len(),
    ensures
        r == line_end(bytes@, from as int),
{
    let mut at: usize = from;
    while at < bytes.len()
        invariant
            from <= at <= bytes@.len(),
            line_end(bytes@, from as int) == line_end(bytes@, at as int),
        decreases bytes@.len() - at,
    {
        if bytes[at] == 10u8 {
            return at + 1;
        }
        at += 1;
    }
    at
}

// ---------------------------------------------------------------------------
// Loading and tailing agree
// ---------------------------------------------------------------------------

impl EngineView {
    /// The engine after some rows have been appended.
    pub open spec fn with_rows(self, rows: Seq<RowView>) -> EngineView
        decreases rows.len(),
    {
        if rows.len() == 0 {
            self
        } else {
            self.with_row(rows[0]).with_rows(rows.subrange(1, rows.len() as int))
        }
    }
}

/// Rows that differ in their ids alone leave the engine in the same state.
proof fn lemma_ids_do_not_matter(engine: EngineView, a: RowView, b: RowView)
    requires
        a == (RowView { row_id: a.row_id, ..b }),
    ensures
        engine.with_row(a) == engine.with_row(b),
{
}

/// Loading a file at once leaves the engine as it would be if a tailer had read the file line by
/// line to its end and its rows had been appended.
pub proof fn law_loading_and_tailing_agree(
    engine: EngineView,
    parser: ParserChoice,
    source_id: SourceId,
    bytes: Seq<u8>,
    from: int,
    next_row: nat,
)
    requires
        0 <= from <= bytes.len(),
        bytes.len() <= u64::MAX,
    ensures
        engine.ingested(&parser, source_id, bytes, from) == engine.with_rows(
            rows_of_reads(
                CursorView { offset: from as nat, pending: Seq::empty(), next_row },
                &parser,
                source_id,
                lines_of(bytes, from),
                true,
            ),
        ),
    decreases bytes.len() - from,
{
    let cursor = CursorView { offset: from as nat, pending: Seq::empty(), next_row };
    let reads = lines_of(bytes, from);
    if from == bytes.len() {
        assert(reads =~= Seq::<Seq<u8>>::empty());
        assert(rows_of_reads(cursor, &parser, source_id, reads, true) =~= Seq::<RowView>::empty());
    } else {
        lemma_line_end(bytes, from);
        let end = line_end(bytes, from);
        let line = bytes.subrange(from, end);
        let rest = lines_of(bytes, end);
        let next = cursor.after_read(line, true);
        lemma_reads_in_two_parts(cursor, &parser, source_id, seq![line], rest, true);
        lemma_one_read(cursor, &parser, source_id, line, true);
        let rows = rows_of_reads(cursor, &parser, source_id, reads, true);
        let row = engine.line_row(&parser, source_id, bytes, from, end);
        let read = cursor.row(&parser, source_id, line);
        let tail = rows_of_reads(next, &parser, source_id, rest, true);
        assert(cursor.pending + line =~= line);
        assert(next =~= (CursorView {
            offset: end as nat,
            pending: Seq::empty(),
            next_row: next_row + 1,
        }));
        law_loading_and_tailing_agree(
            engine.with_row(row),
            parser,
            source_id,
            bytes,
            end,
            next_row + 1,
        );
        assert(rows =~= seq![read] + tail);
        assert(rows.subrange(1, rows.len() as int) =~= tail);
        assert(rows[0] == read);
        lemma_ids_do_not_matter(engine, row, read);
    }
}

/// Loading a file appends one row for each of its lines, in their order and end to end from byte 0
/// up to the end of the file.
pub proof fn law_loading_appends_the_rows_of_lines(
    engine: EngineView,
    parser: ParserChoice,
    source_id: SourceId,
    bytes: Seq<u8>,
) -> (rows: Seq<RowView>)
    requires
        bytes.len() <= u64::MAX,
    ensures
        are_rows_of_lines(rows, bytes, 0),
        engine.ingested(&parser, source_id, bytes, 0) == engine.with_rows(rows),
{
    let cursor = CursorView { offset: 0, pending: Seq::empty(), next_row: 0 };
    law_loading_and_tailing_agree(engine, parser, source_id, bytes, 0, 0);
    lemma_rows_of_lines(cursor, parser, source_id, bytes, 0);
    rows_of_reads(cursor, &parser, source_id, lines_of(bytes, 0), true)
}

/// A tailer that replays a file from its start leaves an engine that takes its rows in as loading
/// the file does.
pub proof fn law_replaying_is_loading(
    engine: EngineView,
    tailer: TailView,
    parser: ParserChoice,
    file: Seq<u8>,
    identity: Option<FileIdentity>,
    n: nat,
)
    requires
        has_replayed(tailer, parser, file, identity, n),
        tailer.from_start,
        file.len() <= u64::MAX,
    ensures
        ({
            let start = Reading { tailer, position: 0, events: Seq::empty() };
            let end = start.served_times(&parser, file, identity, n);
            engine.with_rows(rows_sent(end.events)) == engine.ingested(
                &parser,
                tailer.source_id,
                file,
                0,
            )
        }),
{
    law_loading_and_tailing_agree(engine, parser, tailer.source_id, file, 0, 0);
}

/// Rows that are appended are held after those that were there, in their order and as they are but
/// for their ids, which go on from the last one; where there is no limit, none is dropped.
pub proof fn law_appended_rows_are_held(engine: EngineView, rows: Seq<RowView>, i: int)
    requires
        engine.max_rows is None,
        engine.index.evicted + engine.rows().len() + rows.len() <= u64::MAX,
    ensures
        ({
            let after = engine.with_rows(rows);
            let held = engine.rows().len() as int;
            &&& after.rows().len() == held + rows.len()
            &&& after.index.evicted == engine.index.evicted
            &&& after.filter == engine.filter && after.search == engine.search && after.session
                == engine.session && after.folding == engine.folding && after.max_rows
                == engine.max_rows
            &&& 0 <= i < held ==> after.rows()[i] == engine.rows()[i]
            &&& held <= i < held + rows.len() ==> after.rows()[i] == (RowView {
                row_id: RowId((engine.index.evicted + i) as u64),
                ..rows[i - held]
            })
        }),
    decreases rows.len(),
{
    if rows.len() > 0 {
        let next = engine.with_row(rows[0]);
        let rest = rows.subrange(1, rows.len() as int);
        law_appended_rows_are_held(next, rest, i);
        let held = engine.rows().len() as int;
        assert(next.rows().len() == held + 1);
        if i > held && i < held + rows.len() {
            assert(rest[i - held - 1] == rows[i - held]);
        }
    }
}

} // verus!
