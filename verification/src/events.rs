//! What a source tells the engine.
use crate::model::{row_views, LogRow, RowView, SourceId};
use vstd::prelude::*;

verus! {

/// Something that happened to a source.
#[derive(Debug, Clone)]
#[non_exhaustive]
pub enum LogEvent {
    SourceAdded { source_id: SourceId, path: String },
    SourceRemoved { source_id: SourceId },
    RowAppended(LogRow),
    /// Rows that were read in one go.
    RowsAppended(Vec<LogRow>),
    SourceRotated { source_id: SourceId },
    SourceError { source_id: SourceId, message: String },
}

/// An event as a value of mathematics.
pub ghost enum EventView {
    SourceAdded(SourceId, Seq<char>),
    SourceRemoved(SourceId),
    RowAppended(RowView),
    RowsAppended(Seq<RowView>),
    SourceRotated(SourceId),
    SourceError(SourceId, Seq<char>),
}

impl View for LogEvent {
    type V = EventView;

    open spec fn view(&self) -> EventView {
        match *self {
            LogEvent::SourceAdded { source_id, path } => EventView::SourceAdded(source_id, path@),
            LogEvent::SourceRemoved { source_id } => EventView::SourceRemoved(source_id),
            LogEvent::RowAppended(row) => EventView::RowAppended(row@),
            LogEvent::RowsAppended(rows) => EventView::RowsAppended(row_views(rows@)),
            LogEvent::SourceRotated { source_id } => EventView::SourceRotated(source_id),
            LogEvent::SourceError { source_id, message } => EventView::SourceError(
                source_id,
                message@,
            ),
        }
    }
}

/// The events of a list.
pub open spec fn event_views(events: Seq<LogEvent>) -> Seq<EventView> {
    events.map_values(|event: LogEvent| event@)
}

} // verus!
