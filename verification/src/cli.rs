//! The command that prints matching lines.
use crate::events::{EventView, LogEvent};
use crate::filter::CompiledFilter;
use crate::model::{row_views, LogRow, RowView};
use crate::text::{chars_in, joined, share};
use crate::ui::{append_rows, rows_in};
use crate::viewport::Engine;
use std::sync::Arc;
use vstd::prelude::*;

verus! {

/// The texts of a list of lines.
pub open spec fn line_texts(lines: Seq<Arc<str>>) -> Seq<Seq<char>> {
    lines.map_values(|line: Arc<str>| chars_in(line))
}

/// The raw lines of the rows that a filter accepts, in their order.
pub open spec fn accepted_lines(filter: CompiledFilter, rows: Seq<RowView>) -> Seq<Seq<char>> {
    rows.filter(|row: RowView| filter.accepts(row)).map_values(|row: RowView| row.raw)
}

/// The raw lines of the rows that a filter accepts.
pub fn matching_lines(filter: &CompiledFilter, rows: &[LogRow]) -> (r: Vec<Arc<str>>)
    ensures
        line_texts(r@) == accepted_lines(*filter, row_views(rows@)),
{
    let ghost all = row_views(rows@);
    let ghost keep = |row: RowView| filter.accepts(row);
    let ghost raw = |row: RowView| row.raw;
    let mut out: Vec<Arc<str>> = Vec::new();
    let mut i: usize = 0;
    proof {
        reveal(Seq::filter);
        assert(line_texts(out@) =~= all.subrange(0, 0).filter(keep).map_values(raw));
    }
    while i < rows.len()
        invariant
            i <= rows@.len(),
            all == row_views(rows@),
            keep == (|row: RowView| filter.accepts(row)),
            raw == (|row: RowView| row.raw),
            line_texts(out@) == all.subrange(0, i as int).filter(keep).map_values(raw),
        decreases rows@.len() - i,
    {
        let row = &rows[i];
        let ghost done = all.subrange(0, i as int).filter(keep);
        let ghost lines = line_texts(out@);
        proof {
            assert(all[i as int] == row@);
            assert(all.subrange(0, i + 1) =~= all.subrange(0, i as int).push(row@));
            all.subrange(0, i as int).lemma_filter_push(row@, keep);
        }
        if filter.matches(row) {
            out.push(share(&row.raw));
            proof {
                assert(line_texts(out@) =~= lines.push(row@.raw));
                assert(done.push(row@).map_values(raw) =~= lines.push(row@.raw));
            }
        }
        i += 1;
    }
    assert(all.subrange(0, i as int) =~= all);
    out
}

/// What an event makes the command print: lines on its output, and a complaint beside it.
#[derive(Debug)]
pub struct Printout {
    pub lines: Vec<Arc<str>>,
    pub complaint: Option<String>,
}

/// What is complained of.
pub open spec fn complaint_of(event: EventView) -> Option<Seq<char>> {
    match event {
        EventView::SourceError(_, message) => Some("source error: "@ + message),
        _ => None,
    }
}

/// Takes an event of a followed file in. Its rows go to the engine, and the lines of those that
/// the filter accepts are printed.
pub fn print_event(engine: &mut Engine, filter: &CompiledFilter, event: LogEvent) -> (r: Printout)
    requires
        old(engine).wf(),
        old(engine)@.has_ids_for(rows_in(event@).len()),
    ensures
        final(engine).wf(),
        final(engine)@ == old(engine)@.with_rows(rows_in(event@)),
        line_texts(r.lines@) == accepted_lines(*filter, rows_in(event@)),
        crate::text::optional_text(r.complaint) == complaint_of(event@),
{
    let ghost before = engine@;
    let complaint: Option<String> = match &event {
        LogEvent::SourceError { source_id, message } => Some(joined("source error: ", message)),
        _ => None,
    };
    let ghost wanted = rows_in(event@);
    let rows: Vec<LogRow> = match event {
        LogEvent::RowAppended(row) => {
            let mut rows: Vec<LogRow> = Vec::new();
            rows.push(row);
            rows
        },
        LogEvent::RowsAppended(rows) => rows,
        _ => Vec::new(),
    };
    assert(row_views(rows@) =~= wanted);
    let lines = matching_lines(filter, rows.as_slice());
    append_rows(engine, rows);
    Printout { lines, complaint }
}

/// The lines that are printed are the raw lines of the rows that the filter accepts, one for each of
/// them and in their order.
pub proof fn law_printed_lines(filter: CompiledFilter, rows: Seq<RowView>, row: RowView)
    ensures
        accepted_lines(filter, Seq::empty()).len() == 0,
        filter.accepts(row) ==> accepted_lines(filter, rows.push(row)) == accepted_lines(
            filter,
            rows,
        ).push(row.raw),
        !filter.accepts(row) ==> accepted_lines(filter, rows.push(row)) == accepted_lines(
            filter,
            rows,
        ),
{
    reveal(Seq::filter);
    let keep = |row: RowView| filter.accepts(row);
    let raw = |row: RowView| row.raw;
    rows.lemma_filter_push(row, keep);
    assert(rows.filter(keep).push(row).map_values(raw) =~= rows.filter(keep).map_values(raw).push(
        row.raw,
    ));
}

/// Trouble of a source is the only thing that is complained of.
pub proof fn law_complaints(event: EventView)
    ensures
        complaint_of(event) is Some <==> event is SourceError,
        event matches EventView::SourceError(_, message) ==> complaint_of(event) == Some(
            "source error: "@ + message,
        ),
{
}

} // verus!
