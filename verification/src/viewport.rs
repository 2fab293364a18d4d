//! The engine: rows, sources, filter, search and session together, and the windows on them that
//! front-ends draw.
use crate::filter::{CompiledFilter, FilterError, FilterExpr, FilterView};
use crate::index::{ref_views, IndexView, RowIndex};
use crate::model::{
    default_source_name, row_views, LogLevel, LogRow, LogSourceKind, PresentationView, RowId,
    RowPresentation, RowView, SourceId, SourceInfo, SourceKindView, SourceView, ViewportRequest,
    ViewportSnapshot,
};
use crate::order::{in_line, numbers, sort_positions};
use crate::present::{
    continues_trace, is_stack_trace_continuation, layout, match_at, row_spans, trace_length,
};
use crate::session::{
    has_bookmark, saved_as, toggled, with_recorded, with_saved, InvestigationSession, SessionView,
};
use crate::summary::{
    level_counts, rows_at, source_summaries, source_views, summaries_of, unnamed_source,
};
use crate::text::{
    contains_folded, contains_ignoring_case, decimal, optional_text, share, shared,
};
use crate::timeline::{
    bucket_views, fits_timeline, timeline, timeline_fits, timeline_of, TIMELINE_BUCKETS,
};
use std::collections::BTreeMap;
use vstd::prelude::*;

verus! {

broadcast use vstd::std_specs::btree::group_btree_axioms;

/// A log investigation in progress.
#[derive(Debug)]
pub struct Engine {
    index: RowIndex,
    filter_expr: FilterExpr,
    compiled_filter: CompiledFilter,
    search_text: Option<String>,
    sources: BTreeMap<u64, SourceInfo>,
    highest_source: Option<u64>,
    session: InvestigationSession,
    collapse_stack_traces: bool,
    max_rows: Option<usize>,
}

/// The engine as a value of mathematics.
#[verifier::ext_equal]
pub ghost struct EngineView {
    pub index: IndexView,
    pub filter: FilterView,
    pub search: Option<Seq<char>>,
    pub sources: Map<u64, SourceView>,
    pub session: SessionView,
    pub folding: bool,
    pub max_rows: Option<usize>,
}

/// The highest number of a source.
pub open spec fn is_highest(sources: Map<u64, SourceView>, highest: Option<u64>) -> bool {
    match highest {
        Some(top) => sources.contains_key(top) && forall|id: u64| #[trigger]
            sources.contains_key(id) ==> id <= top,
        None => forall|id: u64| !#[trigger] sources.contains_key(id),
    }
}

/// The highest number of a source, where there is one.
pub open spec fn highest_of(sources: Map<u64, SourceView>) -> Option<u64> {
    choose|highest: Option<u64>| is_highest(sources, highest)
}

/// The number for another source: the one after the highest, or 1 where there are none. At the
/// end of the range it stays there.
pub open spec fn next_source(sources: Map<u64, SourceView>) -> SourceId {
    match highest_of(sources) {
        Some(top) => if top < u64::MAX {
            SourceId((top + 1) as u64)
        } else {
            SourceId(top)
        },
        None => SourceId(1),
    }
}

/// There is only one highest number.
proof fn lemma_highest_is_unique(sources: Map<u64, SourceView>, a: Option<u64>, b: Option<u64>)
    requires
        is_highest(sources, a),
        is_highest(sources, b),
    ensures
        a == b,
{
}

/// The number for another source is not in use, short of the end of the range.
pub proof fn law_next_source_is_free(sources: Map<u64, SourceView>, highest: Option<u64>)
    requires
        is_highest(sources, highest),
        highest != Some(u64::MAX),
    ensures
        !sources.contains_key(next_source(sources).0),
        forall|id: u64| #[trigger] sources.contains_key(id) ==> id < next_source(sources).0,
{
    lemma_highest_is_unique(sources, highest, highest_of(sources));
}

/// `sources` with one of the given name, read from a file.
pub open spec fn with_source(
    sources: Map<u64, SourceView>,
    source_id: SourceId,
    name: Seq<char>,
) -> Map<u64, SourceView> {
    sources.insert(source_id.0, SourceView { source_id, name, kind: SourceKindView::File })
}

/// `sources` with the source of a row: one that is not known yet goes by its default name.
pub open spec fn with_source_of_row(
    sources: Map<u64, SourceView>,
    source_id: SourceId,
) -> Map<u64, SourceView> {
    if sources.contains_key(source_id.0) {
        sources
    } else {
        sources.insert(
            source_id.0,
            SourceView {
                source_id,
                name: default_source_name(source_id),
                kind: SourceKindView::Other("unknown"@),
            },
        )
    }
}

/// `index` with its oldest rows dropped until no more than `max_rows` are left.
pub open spec fn capped(index: IndexView, max_rows: Option<usize>) -> IndexView {
    match max_rows {
        Some(most) => if index.rows.len() > most {
            index.without_oldest(index.rows.len() - most)
        } else {
            index
        },
        None => index,
    }
}

/// The index at which `row_id` stands first in `ids`.
pub open spec fn place_of(ids: Seq<RowId>, row_id: RowId) -> Option<int>
    decreases ids.len(),
{
    if ids.len() == 0 {
        None
    } else {
        match place_of(ids.drop_last(), row_id) {
            Some(place) => Some(place),
            None => if ids.last() == row_id {
                Some(ids.len() - 1)
            } else {
                None
            },
        }
    }
}

/// The hit to go to from `current`: the next one, or the one before it in reverse, round the end.
/// From nowhere it is the first or the last one; a row that is no hit counts as the first one.
pub open spec fn hit_after(hits: Seq<RowId>, current: Option<RowId>, reverse: bool) -> Option<RowId> {
    if hits.len() == 0 {
        None
    } else {
        match current {
            None => if reverse {
                Some(hits.last())
            } else {
                Some(hits[0])
            },
            Some(current) => {
                let place = match place_of(hits, current) {
                    Some(place) => place,
                    None => 0,
                };
                let n = hits.len() as int;
                if reverse {
                    Some(hits[(place + n - 1) % n])
                } else {
                    Some(hits[(place + 1) % n])
                }
            },
        }
    }
}

/// Row ids of a list of rows.
pub open spec fn ids_of(rows: Seq<RowView>) -> Seq<RowId> {
    rows.map_values(|row: RowView| row.row_id)
}

/// The presented rows of a list.
pub open spec fn presentation_views(rows: Seq<RowPresentation>) -> Seq<PresentationView> {
    rows.map_values(|row: RowPresentation| row@)
}

impl EngineView {
    /// What holds of every engine: rows are numbered, their sources are known, the limit on rows
    /// is kept, the filter compiles and the search is not empty.
    pub open spec fn wf(self) -> bool {
        &&& self.index.wf()
        &&& self.filter.bad_pattern() is None
        &&& self.search matches Some(text) ==> text.len() > 0
        &&& self.max_rows matches Some(most) ==> self.index.rows.len() <= most
        &&& forall|i: int|
            0 <= i < self.index.rows.len() ==> self.sources.contains_key(
                (#[trigger] self.index.rows[i]).source_id.0,
            )
        &&& forall|id: u64| #[trigger]
            self.sources.contains_key(id) ==> self.sources[id].source_id == SourceId(id)
    }

    /// The rows held.
    pub open spec fn rows(self) -> Seq<RowView> {
        self.index.rows
    }

    /// The row is in the list: the filter accepts it, and it is not folded away.
    pub open spec fn shows(self, row: RowView) -> bool {
        self.filter.accepts(row) && !(self.folding && continues_trace(row.raw))
    }

    /// The positions of the rows in the list, in its order.
    pub open spec fn listing(self) -> Seq<int> {
        Seq::new(self.rows().len(), |i: int| i).filter(|i: int| self.shows(self.rows()[i])).sort_by(
            in_line(self.rows()),
        )
    }

    /// The rows in the list, in its order.
    pub open spec fn listed(self) -> Seq<RowView> {
        self.listing().map_values(|i: int| self.rows()[i])
    }

    /// The ids of the listed rows whose raw line contains the text searched for.
    pub open spec fn hits(self) -> Seq<RowId> {
        match self.search {
            Some(text) => ids_of(
                self.listed().filter(|row: RowView| contains_folded(row.raw, text)),
            ),
            None => Seq::empty(),
        }
    }

    /// How many rows of a stack trace follow the row; none where it is part of one itself.
    pub open spec fn folded_rows(self, row: RowView) -> nat {
        if continues_trace(row.raw) {
            0
        } else {
            match self.index.position(row.row_id) {
                Some(position) => trace_length(self.rows(), position + 1),
                None => 0,
            }
        }
    }

    /// The row as a front-end draws it.
    pub open spec fn presented(self, row: RowView) -> PresentationView {
        PresentationView {
            row_id: row.row_id,
            source_id: row.source_id,
            source_name: if self.sources.contains_key(row.source_id.0) {
                Some(self.sources[row.source_id.0].name)
            } else {
                None
            },
            spans: row_spans(row, self.search),
            level: row.level,
            is_match: match_at(row.message, self.search) is Some,
            is_selected: false,
            is_bookmarked: has_bookmark(self.session.bookmarks, row.row_id),
            is_stack_continuation: continues_trace(row.raw),
            folded_stack_rows: self.folded_rows(row),
        }
    }

    /// The rows presented, one by one.
    pub open spec fn presented_all(self, rows: Seq<RowView>) -> Seq<PresentationView> {
        rows.map_values(|row: RowView| self.presented(row))
    }

    /// The position of the row with this id. An id that resolves to no row is taken for a position.
    pub open spec fn row_number(self, row_id: RowId) -> int {
        match self.index.position(row_id) {
            Some(position) => position,
            None => (row_id.0 as usize) as int,
        }
    }

    /// The position of the first of the rows around a row, `before` rows ahead of it.
    pub open spec fn first_around(self, row_id: RowId, before: int) -> int {
        if before <= self.row_number(row_id) {
            self.row_number(row_id) - before
        } else {
            0
        }
    }

    /// The snapshot tells of `rows`: how many there are of each severity, of each source and in
    /// each stretch of time.
    pub open spec fn summed_up(self, snapshot: ViewportSnapshot, rows: Seq<RowView>) -> bool {
        &&& snapshot.total_rows == self.rows().len()
        &&& forall|level: Option<LogLevel>| #[trigger]
            snapshot.level_counts.of(level) == rows_at(rows, level)
        &&& snapshot.level_counts.sum() == rows.len()
        &&& summaries_of(snapshot.source_summaries@, rows, self.sources)
        &&& bucket_views(snapshot.timeline@) == timeline_of(rows, TIMELINE_BUCKETS as int)
    }

    /// The snapshot is the window of `row_count` listed rows from `first_row` on.
    pub open spec fn window(self, snapshot: ViewportSnapshot, first_row: int, row_count: int) -> bool {
        let total = self.listed().len() as int;
        let start = if first_row <= total {
            first_row
        } else {
            total
        };
        let end = if start + row_count <= total {
            start + row_count
        } else {
            total
        };
        &&& presentation_views(snapshot.rows@) == self.presented_all(
            self.listed().subrange(start, end),
        )
        &&& snapshot.total_matching_rows == total
        &&& snapshot.has_more_before == (start > 0)
        &&& snapshot.has_more_after == (end < total)
        &&& self.summed_up(snapshot, self.listed())
    }

    /// The snapshot shows the rows around a position, whatever the filter.
    pub open spec fn surroundings(
        self,
        snapshot: ViewportSnapshot,
        first_row: int,
        row_count: int,
    ) -> bool {
        let total = self.rows().len() as int;
        let start = if first_row <= total {
            first_row
        } else {
            total
        };
        let end = if first_row + row_count <= total {
            first_row + row_count
        } else {
            total
        };
        &&& presentation_views(snapshot.rows@) == self.presented_all(
            self.rows().subrange(start, end),
        )
        &&& snapshot.total_matching_rows == end - start
        &&& snapshot.has_more_before == (first_row > 0)
        &&& snapshot.has_more_after == (first_row + row_count < total)
        &&& self.summed_up(snapshot, self.rows())
    }
}

impl View for Engine {
    type V = EngineView;

    closed spec fn view(&self) -> EngineView {
        EngineView {
            index: self.index@,
            filter: self.filter_expr@,
            search: optional_text(self.search_text),
            sources: source_views(self.sources@),
            session: self.session@,
            folding: self.collapse_stack_traces,
            max_rows: self.max_rows,
        }
    }
}

/// An engine without rows and sources, that shows everything.
pub open spec fn fresh_engine(session: SessionView) -> EngineView {
    EngineView {
        index: IndexView { rows: Seq::empty(), evicted: 0 },
        filter: FilterView::All,
        search: None,
        sources: Map::empty(),
        session,
        folding: false,
        max_rows: None,
    }
}

impl Engine {
    /// The parts of the engine fit together.
    pub closed spec fn consistent(&self) -> bool {
        &&& self.compiled_filter.stands_for(self.filter_expr@)
        &&& is_highest(source_views(self.sources@), self.highest_source)
    }

    /// What holds of every engine.
    pub open spec fn wf(&self) -> bool {
        self@.wf() && self.consistent()
    }

    /// An engine that goes on with a session.
    pub fn with_session(session: InvestigationSession) -> (r: Engine)
        ensures
            r.wf(),
            r@ == fresh_engine(session@),
    {
        let r = Engine {
            index: RowIndex::new(),
            filter_expr: FilterExpr::All,
            compiled_filter: CompiledFilter::All,
            search_text: None,
            sources: BTreeMap::new(),
            highest_source: None,
            session,
            collapse_stack_traces: false,
            max_rows: None,
        };
        proof {
            assert(r@.sources =~= Map::<u64, SourceView>::empty());
            assert(r@ =~= fresh_engine(session@));
        }
        r
    }

    /// Makes a source known, or gives a known one a new name.
    pub fn add_source(&mut self, source_id: SourceId, name: &str)
        requires
            old(self).wf(),
        ensures
            final(self).wf(),
            final(self)@ == (EngineView {
                sources: with_source(old(self)@.sources, source_id, name@),
                ..old(self)@
            }),
    {
        let ghost before = self@;
        let info = SourceInfo { source_id, name: shared(name), kind: LogSourceKind::File };
        self.insert_source(info);
        assert(self@ =~= (EngineView {
            sources: with_source(before.sources, source_id, name@),
            ..before
        }));
    }

    /// Puts a source in its place.
    fn insert_source(&mut self, info: SourceInfo)
        requires
            old(self).wf(),
        ensures
            final(self).wf(),
            final(self)@ == (EngineView {
                sources: old(self)@.sources.insert(info.source_id.0, info@),
                ..old(self)@
            }),
    {
        let ghost before = self@;
        let id: u64 = info.source_id.0;
        self.sources.insert(id, info);
        let top: u64 = match self.highest_source {
            Some(top) => if top < id {
                id
            } else {
                top
            },
            None => id,
        };
        self.highest_source = Some(top);
        proof {
            assert(source_views(self.sources@) =~= before.sources.insert(id, info@));
            assert(self@ =~= (EngineView {
                sources: before.sources.insert(id, info@),
                ..before
            }));
        }
    }

    /// The number after the highest one of a source; 1 where there is none.
    pub fn next_source_id(&self) -> (r: SourceId)
        requires
            self.wf(),
        ensures
            r == next_source(self@.sources),
    {
        proof {
            lemma_highest_is_unique(self@.sources, self.highest_source, highest_of(self@.sources));
        }
        match self.highest_source {
            Some(top) => SourceId(top.saturating_add(1)),
            None => SourceId(1),
        }
    }

    /// Appends a row under the next id. A source that is not known yet gets its default name;
    /// the oldest rows go where there are more than the limit.
    pub fn append_row(&mut self, row: LogRow)
        requires
            old(self).wf(),
            old(self)@.index.evicted + old(self)@.index.rows.len() < u64::MAX,
        ensures
            final(self).wf(),
            final(self)@ == (EngineView {
                index: capped(old(self)@.index.appended(row@), old(self)@.max_rows),
                sources: with_source_of_row(old(self)@.sources, row.source_id),
                ..old(self)@
            }),
    {
        let ghost before = self@;
        let source_id = row.source_id;
        if !self.sources.contains_key(&source_id.0) {
            let info = SourceInfo {
                source_id,
                name: shared(&unnamed_source(source_id)),
                kind: LogSourceKind::Other(shared("unknown")),
            };
            self.insert_source(info);
        }
        assert(self@.sources =~= with_source_of_row(before.sources, source_id));
        let ghost middle = self@;
        self.index.append(row);
        assert forall|i: int| 0 <= i < self@.index.rows.len() implies self@.sources.contains_key(
            (#[trigger] self@.index.rows[i]).source_id.0,
        ) by {
            if i < before.index.rows.len() {
                assert(self@.index.rows[i] == before.index.rows[i]);
            }
        }
        self.keep_limit();
        assert(self@ =~= (EngineView {
            index: capped(before.index.appended(row@), before.max_rows),
            sources: with_source_of_row(before.sources, row.source_id),
            ..before
        }));
    }

    /// Drops the oldest rows where there are more than the limit.
    fn keep_limit(&mut self)
        requires
            old(self).consistent(),
            old(self)@.index.wf(),
            old(self)@.filter.bad_pattern() is None,
            old(self)@.search matches Some(text) ==> text.len() > 0,
            forall|i: int|
                0 <= i < old(self)@.index.rows.len() ==> old(self)@.sources.contains_key(
                    (#[trigger] old(self)@.index.rows[i]).source_id.0,
                ),
            forall|id: u64| #[trigger]
                old(self)@.sources.contains_key(id) ==> old(self)@.sources[id].source_id
                    == SourceId(id),
        ensures
            final(self).wf(),
            final(self)@ == (EngineView {
                index: capped(old(self)@.index, old(self)@.max_rows),
                ..old(self)@
            }),
    {
        let ghost before = self@;
        if let Some(most) = self.max_rows {
            let held: usize = self.index.len();
            if held > most {
                self.index.evict_oldest(held - most);
                assert forall|i: int| 0 <= i < self@.index.rows.len() implies
                    self@.sources.contains_key((#[trigger] self@.index.rows[i]).source_id.0) by {
                    assert(self@.index.rows[i] == before.index.rows[i + (held - most)]);
                }
            }
        }
        assert(self@ =~= (EngineView { index: capped(before.index, before.max_rows), ..before }));
    }

    /// Sets how many rows are kept, without end for `None`, and drops the oldest beyond that.
    pub fn set_max_rows(&mut self, max_rows: Option<usize>)
        requires
            old(self).wf(),
        ensures
            final(self).wf(),
            final(self)@ == (EngineView {
                index: capped(old(self)@.index, max_rows),
                max_rows,
                ..old(self)@
            }),
    {
        self.max_rows = max_rows;
        self.keep_limit();
    }

    /// Uses a filter and records it in the session. A filter that does not compile is refused,
    /// and nothing changes.
    pub fn set_filter(&mut self, filter: FilterExpr) -> (r: Result<(), FilterError>)
        requires
            old(self).wf(),
        ensures
            final(self).wf(),
            match r {
                Ok(_) => {
                    &&& filter@.bad_pattern() is None
                    &&& final(self)@ == (EngineView {
                        filter: filter@,
                        session: SessionView {
                            history: with_recorded(old(self)@.session.history, filter@),
                            ..old(self)@.session
                        },
                        ..old(self)@
                    })
                },
                Err(error) => {
                    &&& filter@.bad_pattern() is Some
                    &&& refuses(error, filter@)
                    &&& final(self)@ == old(self)@
                },
            },
    {
        let ghost before = self@;
        match CompiledFilter::compile(&filter) {
            Ok(compiled) => {
                self.compiled_filter = compiled;
                self.session.record_filter(filter.clone());
                self.filter_expr = filter;
                assert(self@ =~= (EngineView {
                    filter: filter@,
                    session: SessionView {
                        history: with_recorded(before.session.history, filter@),
                        ..before.session
                    },
                    ..before
                }));
                Ok(())
            },
            Err(error) => Err(error),
        }
    }

    /// Shows every row again.
    pub fn clear_filter(&mut self)
        requires
            old(self).wf(),
        ensures
            final(self).wf(),
            final(self)@ == (EngineView { filter: FilterView::All, ..old(self)@ }),
    {
        self.filter_expr = FilterExpr::All;
        self.compiled_filter = CompiledFilter::All;
    }

    /// Sets the text to search for; an empty text is none.
    pub fn set_search_text(&mut self, search_text: Option<String>)
        requires
            old(self).wf(),
        ensures
            final(self).wf(),
            final(self)@ == (EngineView {
                search: match optional_text(search_text) {
                    Some(text) => if text.len() > 0 {
                        Some(text)
                    } else {
                        None
                    },
                    None => None,
                },
                ..old(self)@
            }),
    {
        self.search_text = match search_text {
            Some(text) => if text.as_str().is_empty() {
                None
            } else {
                Some(text)
            },
            None => None,
        };
    }

    /// Whether lines that continue a stack trace are left out of the list.
    pub fn set_stack_trace_folding(&mut self, enabled: bool)
        requires
            old(self).wf(),
        ensures
            final(self).wf(),
            final(self)@ == (EngineView { folding: enabled, ..old(self)@ }),
    {
        self.collapse_stack_traces = enabled;
    }

    /// Takes the row's bookmark away, or sets one where it has none. Returns whether it has one
    /// now.
    pub fn toggle_bookmark(&mut self, row_id: RowId, label: Option<String>) -> (r: bool)
        requires
            old(self).wf(),
        ensures
            final(self).wf(),
            r == !has_bookmark(old(self)@.session.bookmarks, row_id),
            final(self)@ == (EngineView {
                session: SessionView {
                    bookmarks: toggled(
                        old(self)@.session.bookmarks,
                        row_id,
                        optional_text(label),
                    ),
                    ..old(self)@.session
                },
                ..old(self)@
            }),
    {
        self.session.toggle_bookmark(row_id, label)
    }

    /// Saves the filter in use under a name.
    pub fn save_filter(&mut self, name: &str)
        requires
            old(self).wf(),
        ensures
            final(self).wf(),
            final(self)@ == (EngineView {
                session: SessionView {
                    saved: with_saved(old(self)@.session.saved, name@, old(self)@.filter),
                    ..old(self)@.session
                },
                ..old(self)@
            }),
    {
        let filter = self.filter_expr.clone();
        self.session.save_filter(name, filter);
    }

    /// Uses the filter saved under a name. Returns whether there is one; one that does not
    /// compile is refused, and nothing changes.
    pub fn apply_saved_filter(&mut self, name: &str) -> (r: Result<bool, FilterError>)
        requires
            old(self).wf(),
        ensures
            final(self).wf(),
            match saved_as(old(self)@.session.saved, name@) {
                None => r == Ok::<bool, FilterError>(false) && final(self)@ == old(self)@,
                Some(filter) => match r {
                    Ok(found) => {
                        &&& found
                        &&& filter.bad_pattern() is None
                        &&& final(self)@ == (EngineView {
                            filter,
                            session: SessionView {
                                history: with_recorded(old(self)@.session.history, filter),
                                ..old(self)@.session
                            },
                            ..old(self)@
                        })
                    },
                    Err(error) => {
                        &&& filter.bad_pattern() is Some
                        &&& refuses(error, filter)
                        &&& final(self)@ == old(self)@
                    },
                },
            },
    {
        let filter = match self.session.saved_filter(name) {
            Some(filter) => filter.clone(),
            None => {
                return Ok(false);
            },
        };
        match self.set_filter(filter) {
            Ok(_) => Ok(true),
            Err(error) => Err(error),
        }
    }

    /// The session.
    pub fn session(&self) -> (r: &InvestigationSession)
        ensures
            r@ == self@.session,
    {
        &self.session
    }

    /// The session, when the investigation is over.
    pub fn into_session(self) -> (r: InvestigationSession)
        ensures
            r@ == self@.session,
    {
        self.session
    }

    /// How many rows are held.
    pub fn total_rows(&self) -> (r: usize)
        ensures
            r == self@.rows().len(),
    {
        self.index.len()
    }

    /// How many rows have been dropped for the limit so far.
    pub fn evicted_row_count(&self) -> (r: u64)
        ensures
            r == self@.index.evicted,
    {
        self.index.evicted_count()
    }

    /// All rows held, in the order in which they arrived.
    pub fn rows_snapshot(&self) -> (r: &[LogRow])
        ensures
            row_views(r@) == self@.rows(),
    {
        self.index.rows()
    }

    /// How many rows are in the list.
    pub fn matching_rows_count(&self) -> (r: usize)
        requires
            self.wf(),
        ensures
            r == self@.listed().len(),
    {
        self.listed_positions().len()
    }

    /// The positions of the listed rows.
    fn listed_positions(&self) -> (r: Vec<usize>)
        requires
            self.wf(),
        ensures
            numbers(r@) == self@.listing(),
            r@.len() == self@.listed().len(),
            forall|i: int| 0 <= i < r@.len() ==> (#[trigger] r@[i]) < self@.rows().len(),
            forall|i: int|
                0 <= i < r@.len() ==> self@.rows()[(#[trigger] r@[i]) as int] == self@.listed()[i],
    {
        let ghost state = self@;
        let ghost all = Seq::new(state.rows().len(), |i: int| i);
        let ghost keep = |i: int| state.shows(state.rows()[i]);
        let rows = self.index.rows();
        let mut kept: Vec<usize> = Vec::new();
        let mut i: usize = 0;
        proof {
            reveal(Seq::filter);
            assert(numbers(kept@) =~= all.subrange(0, 0).filter(keep));
        }
        while i < rows.len()
            invariant
                i <= rows@.len(),
                self.wf(),
                state == self@,
                row_views(rows@) == state.rows(),
                all == Seq::new(state.rows().len(), |i: int| i),
                keep == (|i: int| state.shows(state.rows()[i])),
                numbers(kept@) == all.subrange(0, i as int).filter(keep),
                forall|k: int| 0 <= k < kept@.len() ==> (#[trigger] kept@[k]) < rows@.len(),
            decreases rows@.len() - i,
        {
            let ghost done = numbers(kept@);
            let row = &rows[i];
            proof {
                assert(state.rows()[i as int] == row@);
                assert(all.subrange(0, i + 1) =~= all.subrange(0, i as int).push(i as int));
                all.subrange(0, i as int).lemma_filter_push(i as int, keep);
            }
            if self.compiled_filter.matches(row) && (!self.collapse_stack_traces
                || !is_stack_trace_continuation(row)) {
                kept.push(i);
                assert(numbers(kept@) =~= done.push(i as int));
            }
            i += 1;
        }
        assert(all.subrange(0, i as int) =~= all);
        let sorted = sort_positions(rows, &kept);
        proof {
            assert(numbers(sorted@) == state.listing());
            assert forall|k: int| 0 <= k < sorted@.len() implies state.rows()[(
            #[trigger] sorted@[k]) as int] == state.listed()[k] by {
                assert(numbers(sorted@)[k] == sorted@[k] as int);
            }
        }
        sorted
    }

    /// The listed rows.
    pub(crate) fn filtered_rows(&self) -> (r: Vec<&LogRow>)
        requires
            self.wf(),
        ensures
            ref_views(r@) == self@.listed(),
    {
        let positions = self.listed_positions();
        let rows = self.index.rows();
        let mut out: Vec<&LogRow> = Vec::new();
        let mut i: usize = 0;
        while i < positions.len()
            invariant
                i <= positions@.len(),
                row_views(rows@) == self@.rows(),
                positions@.len() == self@.listed().len(),
                forall|k: int|
                    0 <= k < positions@.len() ==> (#[trigger] positions@[k]) < self@.rows().len(),
                forall|k: int|
                    0 <= k < positions@.len() ==> self@.rows()[(#[trigger] positions@[k]) as int]
                        == self@.listed()[k],
                out@.len() == i,
                forall|k: int| 0 <= k < i ==> (#[trigger] out@[k])@ == self@.listed()[k],
            decreases positions@.len() - i,
        {
            let at: usize = positions[i];
            assert(row_views(rows@)[at as int] == rows@[at as int]@);
            out.push(&rows[at]);
            i += 1;
        }
        assert(ref_views(out@) =~= self@.listed());
        out
    }

    /// Where the row stands in the list.
    pub fn filtered_position_for_row(&self, row_id: RowId) -> (r: Option<usize>)
        requires
            self.wf(),
        ensures
            match r {
                Some(place) => place_of(ids_of(self@.listed()), row_id) == Some(place as int),
                None => place_of(ids_of(self@.listed()), row_id) is None,
            },
    {
        let rows = self.filtered_rows();
        let ghost ids = ids_of(self@.listed());
        let mut i: usize = 0;
        while i < rows.len()
            invariant
                i <= rows@.len(),
                ref_views(rows@) == self@.listed(),
                ids == ids_of(self@.listed()),
                forall|k: int| 0 <= k < i ==> #[trigger] ids[k] != row_id,
            decreases rows@.len() - i,
        {
            assert(ids[i as int] == ref_views(rows@)[i as int].row_id);
            if rows[i].row_id == row_id {
                proof {
                    lemma_place_of(ids, row_id, i as int);
                }
                return Some(i);
            }
            i += 1;
        }
        proof {
            lemma_no_place(ids, row_id);
        }
        None
    }

    /// The ids of the listed rows whose raw line contains the text searched for, the case of
    /// ASCII letters disregarded.
    pub fn search_results(&self) -> (r: Vec<RowId>)
        requires
            self.wf(),
        ensures
            r@ == self@.hits(),
    {
        let mut out: Vec<RowId> = Vec::new();
        match &self.search_text {
            None => out,
            Some(search) => {
                let rows = self.filtered_rows();
                let ghost listed = self@.listed();
                let ghost keep = |row: RowView| contains_folded(row.raw, search@);
                let mut i: usize = 0;
                proof {
                    reveal(Seq::filter);
                    assert(out@ =~= ids_of(listed.subrange(0, 0).filter(keep)));
                }
                while i < rows.len()
                    invariant
                        i <= rows@.len(),
                        ref_views(rows@) == listed,
                        keep == (|row: RowView| contains_folded(row.raw, search@)),
                        out@ == ids_of(listed.subrange(0, i as int).filter(keep)),
                    decreases rows@.len() - i,
                {
                    let row = rows[i];
                    let ghost done = listed.subrange(0, i as int).filter(keep);
                    proof {
                        assert(listed[i as int] == row@);
                        assert(listed.subrange(0, i + 1) =~= listed.subrange(0, i as int).push(
                            row@,
                        ));
                        listed.subrange(0, i as int).lemma_filter_push(row@, keep);
                    }
                    if contains_ignoring_case(&*row.raw, search) {
                        out.push(row.row_id);
                        assert(out@ =~= ids_of(done.push(row@)));
                    }
                    i += 1;
                }
                assert(listed.subrange(0, i as int) =~= listed);
                out
            },
        }
    }

    /// The hit to go to from `current`, forwards or in reverse, round the end of the hits.
    pub fn next_search_result(&self, current: Option<RowId>, reverse: bool) -> (r: Option<RowId>)
        requires
            self.wf(),
        ensures
            r == hit_after(self@.hits(), current, reverse),
    {
        let results = self.search_results();
        choose_hit(&results, current, reverse)
    }

    /// How many rows of a stack trace follow the row.
    fn folded_stack_rows(&self, row: &LogRow) -> (r: usize)
        requires
            self.wf(),
        ensures
            r == self@.folded_rows(row@),
    {
        if is_stack_trace_continuation(row) {
            return 0;
        }
        let position: usize = match self.index.position_of(row.row_id) {
            Some(position) => position,
            None => {
                return 0;
            },
        };
        let rows = self.index.rows();
        let mut count: usize = 0;
        assert(row_views(rows@).len() == rows.len());
        let mut at: usize = position + 1;
        while at < rows.len() && is_stack_trace_continuation(&rows[at])
            invariant
                row_views(rows@) == self@.rows(),
                position < rows@.len(),
                at == position + 1 + count,
                at <= rows@.len(),
                trace_length(self@.rows(), position + 1) == count + trace_length(
                    self@.rows(),
                    at as int,
                ),
            decreases rows@.len() - at,
        {
            assert(row_views(rows@)[at as int] == rows@[at as int]@);
            count += 1;
            at += 1;
        }
        proof {
            if at < rows@.len() {
                assert(row_views(rows@)[at as int] == rows@[at as int]@);
            }
        }
        count
    }

    /// The row as a front-end draws it.
    pub fn present_row(&self, row: &LogRow) -> (r: RowPresentation)
        requires
            self.wf(),
        ensures
            r@ == self@.presented(row@),
    {
        let (spans, is_match) = layout(row, &self.search_text);
        let source_name = match self.sources.get(&row.source_id.0) {
            Some(source) => Some(share(&source.name)),
            None => None,
        };
        RowPresentation {
            row_id: row.row_id,
            source_id: row.source_id,
            source_name,
            spans,
            level: row.level,
            is_match,
            is_selected: false,
            is_bookmarked: self.session.is_bookmarked(row.row_id),
            is_stack_continuation: is_stack_trace_continuation(row),
            folded_stack_rows: self.folded_stack_rows(row),
        }
    }

    /// The rows from index `start` up to `end` as a front-end draws them.
    fn present_rows(&self, rows: &Vec<&LogRow>, start: usize, end: usize) -> (r: Vec<
        RowPresentation,
    >)
        requires
            self.wf(),
            start <= end <= rows@.len(),
        ensures
            presentation_views(r@) == self@.presented_all(
                ref_views(rows@).subrange(start as int, end as int),
            ),
    {
        let ghost part = ref_views(rows@).subrange(start as int, end as int);
        let mut out: Vec<RowPresentation> = Vec::new();
        let mut at: usize = start;
        while at < end
            invariant
                start <= at <= end <= rows@.len(),
                self.wf(),
                part == ref_views(rows@).subrange(start as int, end as int),
                out@.len() == at - start,
                forall|k: int|
                    0 <= k < out@.len() ==> (#[trigger] out@[k])@ == self@.presented(part[k]),
            decreases end - at,
        {
            assert(part[at - start] == rows@[at as int]@);
            out.push(self.present_row(rows[at]));
            at += 1;
        }
        assert(presentation_views(out@) =~= self@.presented_all(part));
        out
    }

    /// The listed row at index `position` as a front-end draws it.
    pub fn present_row_at(&self, position: usize) -> (r: Option<RowPresentation>)
        requires
            self.wf(),
        ensures
            match r {
                Some(row) => position < self@.listed().len() && row@ == self@.presented(
                    self@.listed()[position as int],
                ),
                None => self@.listed().len() <= position,
            },
    {
        let rows = self.filtered_rows();
        if position < rows.len() {
            assert(ref_views(rows@)[position as int] == rows@[position as int]@);
            Some(self.present_row(rows[position]))
        } else {
            None
        }
    }

    /// The window of the list that is asked for, with what the listed rows amount to.
    pub fn viewport(&self, request: ViewportRequest) -> (r: ViewportSnapshot)
        requires
            self.wf(),
            request.first_row + request.row_count <= usize::MAX || self@.listed().len()
                + request.row_count <= usize::MAX,
            timeline_fits(self@.listed(), TIMELINE_BUCKETS as int),
        ensures
            self@.window(r, request.first_row as int, request.row_count as int),
    {
        let filtered = self.filtered_rows();
        let total: usize = filtered.len();
        let start: usize = if request.first_row <= total {
            request.first_row
        } else {
            total
        };
        assert(ref_views(filtered@).len() == total);
        let wanted: usize = start + request.row_count;
        let end: usize = if wanted <= total {
            wanted
        } else {
            total
        };
        ViewportSnapshot {
            rows: self.present_rows(&filtered, start, end),
            total_rows: self.total_rows(),
            total_matching_rows: total,
            has_more_before: start > 0,
            has_more_after: end < total,
            level_counts: level_counts(&filtered),
            source_summaries: source_summaries(&self.sources, &filtered),
            timeline: timeline(&filtered, TIMELINE_BUCKETS),
        }
    }

    /// The window of the list that is asked for, unless the request does not fit its type or the
    /// timeline goes beyond the last point in time.
    pub fn try_viewport(&self, request: ViewportRequest) -> (r: Option<ViewportSnapshot>)
        requires
            self.wf(),
        ensures
            match r {
                Some(snapshot) => self@.window(
                    snapshot,
                    request.first_row as int,
                    request.row_count as int,
                ),
                None => request.first_row + request.row_count > usize::MAX || !timeline_fits(
                    self@.listed(),
                    TIMELINE_BUCKETS as int,
                ),
            },
    {
        if request.row_count > usize::MAX - request.first_row || !fits_timeline(
            &self.filtered_rows(),
            TIMELINE_BUCKETS,
        ) {
            None
        } else {
            Some(self.viewport(request))
        }
    }

    /// What the listed rows amount to, without any of them.
    pub fn metadata_snapshot(&self) -> (r: ViewportSnapshot)
        requires
            self.wf(),
            timeline_fits(self@.listed(), TIMELINE_BUCKETS as int),
        ensures
            self@.window(r, 0, 0),
    {
        self.viewport(ViewportRequest { first_row: 0, row_count: 0 })
    }

    /// Where the rows around a row begin.
    fn start_around(&self, row_id: RowId, before: usize) -> (r: usize)
        requires
            self.wf(),
        ensures
            r == self@.first_around(row_id, before as int),
    {
        let row_number: usize = match self.index.position_of(row_id) {
            Some(position) => position,
            None => row_id.0 as usize,
        };
        row_number.saturating_sub(before)
    }

    /// The rows around a row, whatever the filter, with what all rows amount to. An id that
    /// resolves to no row is taken for a position.
    pub fn context_around(&self, row_id: RowId, before: usize, after: usize) -> (r:
        ViewportSnapshot)
        requires
            self.wf(),
            before + after + 1 <= usize::MAX,
            self@.first_around(row_id, before as int) + before + after + 1 <= usize::MAX,
            timeline_fits(self@.rows(), TIMELINE_BUCKETS as int),
        ensures
            self@.surroundings(
                r,
                self@.first_around(row_id, before as int),
                before + after + 1,
            ),
    {
        let first_row: usize = self.start_around(row_id, before);
        let row_count: usize = before + after + 1;
        let total: usize = self.index.len();
        let near = self.index.iter_range(first_row, row_count);
        let all = self.index.iter_range(0, total);
        proof {
            assert(self@.rows().subrange(0, total as int) =~= self@.rows());
            assert(ref_views(near@).subrange(0, near@.len() as int) =~= ref_views(near@));
        }
        let rest: usize = total.saturating_sub(first_row);
        ViewportSnapshot {
            rows: self.present_rows(&near, 0, near.len()),
            total_rows: total,
            total_matching_rows: if row_count <= rest {
                row_count
            } else {
                rest
            },
            has_more_before: first_row > 0,
            has_more_after: first_row + row_count < total,
            level_counts: level_counts(&all),
            source_summaries: source_summaries(&self.sources, &all),
            timeline: timeline(&all, TIMELINE_BUCKETS),
        }
    }

    /// The rows around a row, unless their number does not fit its type or the timeline goes
    /// beyond the last point in time.
    pub fn try_context_around(&self, row_id: RowId, before: usize, after: usize) -> (r: Option<
        ViewportSnapshot,
    >)
        requires
            self.wf(),
        ensures
            match r {
                Some(snapshot) => self@.surroundings(
                    snapshot,
                    self@.first_around(row_id, before as int),
                    before + after + 1,
                ),
                None => self@.first_around(row_id, before as int) + before + after + 1 > usize::MAX
                    || !timeline_fits(self@.rows(), TIMELINE_BUCKETS as int),
            },
    {
        let first_row: usize = self.start_around(row_id, before);
        if before > usize::MAX - first_row || after >= usize::MAX - first_row - before {
            return None;
        }
        let all = self.index.iter_range(0, self.index.len());
        assert(self@.rows().subrange(0, self@.rows().len() as int) =~= self@.rows());
        if fits_timeline(&all, TIMELINE_BUCKETS) {
            Some(self.context_around(row_id, before, after))
        } else {
            None
        }
    }
}

impl Default for Engine {
    fn default() -> (r: Engine)
        ensures
            r.wf(),
            r@ == fresh_engine(
                SessionView {
                    history: Seq::empty(),
                    saved: Seq::empty(),
                    bookmarks: Seq::empty(),
                },
            ),
    {
        Engine::with_session(InvestigationSession::new())
    }
}

/// The index at which `row_id` stands first in `ids`.
fn find_place(ids: &Vec<RowId>, row_id: RowId) -> (r: Option<usize>)
    ensures
        match r {
            Some(place) => place < ids@.len() && place_of(ids@, row_id) == Some(place as int),
            None => place_of(ids@, row_id) is None,
        },
{
    let mut i: usize = 0;
    while i < ids.len()
        invariant
            i <= ids@.len(),
            forall|k: int| 0 <= k < i ==> #[trigger] ids@[k] != row_id,
        decreases ids@.len() - i,
    {
        if ids[i] == row_id {
            proof {
                lemma_place_of(ids@, row_id, i as int);
            }
            return Some(i);
        }
        i += 1;
    }
    proof {
        lemma_no_place(ids@, row_id);
    }
    None
}

/// The hit to go to from `current`.
pub fn choose_hit(hits: &Vec<RowId>, current: Option<RowId>, reverse: bool) -> (r: Option<RowId>)
    ensures
        r == hit_after(hits@, current, reverse),
{
    let count: usize = hits.len();
    if count == 0 {
        return None;
    }
    match current {
        None => if reverse {
            Some(hits[count - 1])
        } else {
            Some(hits[0])
        },
        Some(wanted) => {
            let place: usize = match find_place(hits, wanted) {
                Some(place) => place,
                None => 0,
            };
            if reverse {
                let next: usize = if place == 0 {
                    count - 1
                } else {
                    place - 1
                };
                assert(next == (place + count - 1) % (count as int)) by (nonlinear_arith)
                    requires
                        count >= 1,
                        0 <= place < count,
                        next == (if place == 0 {
                            count - 1
                        } else {
                            place - 1
                        }),
                ;
                Some(hits[next])
            } else {
                let next: usize = if place == count - 1 {
                    0
                } else {
                    place + 1
                };
                assert(next == (place + 1) % (count as int)) by (nonlinear_arith)
                    requires
                        count >= 1,
                        0 <= place < count,
                        next == (if place == count - 1 {
                            0int
                        } else {
                            place + 1
                        }),
                ;
                Some(hits[next])
            }
        },
    }
}

/// The first index of an id is its place.
proof fn lemma_place_of(ids: Seq<RowId>, row_id: RowId, at: int)
    requires
        0 <= at < ids.len(),
        ids[at] == row_id,
        forall|k: int| 0 <= k < at ==> #[trigger] ids[k] != row_id,
    ensures
        place_of(ids, row_id) == Some(at),
    decreases ids.len(),
{
    let head = ids.drop_last();
    if at < head.len() {
        assert forall|k: int| 0 <= k < at implies #[trigger] head[k] != row_id by {
            assert(head[k] == ids[k]);
        }
        lemma_place_of(head, row_id, at);
    } else {
        assert forall|k: int| 0 <= k < head.len() implies #[trigger] head[k] != row_id by {
            assert(head[k] == ids[k]);
        }
        lemma_no_place(head, row_id);
    }
}

/// An id that does not occur has no place.
proof fn lemma_no_place(ids: Seq<RowId>, row_id: RowId)
    requires
        forall|k: int| 0 <= k < ids.len() ==> #[trigger] ids[k] != row_id,
    ensures
        place_of(ids, row_id) is None,
    decreases ids.len(),
{
    if ids.len() > 0 {
        let head = ids.drop_last();
        assert forall|k: int| 0 <= k < head.len() implies #[trigger] head[k] != row_id by {
            assert(head[k] == ids[k]);
        }
        assert(ids[ids.len() - 1] != row_id);
        lemma_no_place(head, row_id);
    }
}

/// The error names the first regular expression of the filter that does not compile.
pub open spec fn refuses(error: FilterError, filter: FilterView) -> bool {
    match error {
        FilterError::InvalidRegex { pattern, source } => filter.bad_pattern() == Some(pattern@)
            && crate::filter::regex_rejection(pattern@) == Some(source@),
        FilterError::InvalidQuery(_) => false,
    }
}

/// The number for another source is 1 where there are none, and otherwise one more than the highest,
/// as far as numbers go.
pub proof fn law_next_source_follows_the_highest(sources: Map<u64, SourceView>, top: u64)
    requires
        sources.contains_key(top),
        forall|id: u64| #[trigger] sources.contains_key(id) ==> id <= top,
    ensures
        top < u64::MAX ==> next_source(sources).0 == top + 1,
        top == u64::MAX ==> next_source(sources).0 == top,
        next_source(Map::empty()) == SourceId(1),
{
    assert(is_highest(sources, Some(top)));
    lemma_highest_is_unique(sources, Some(top), highest_of(sources));
    let none = Map::<u64, SourceView>::empty();
    assert(is_highest(none, None));
    lemma_highest_is_unique(none, None, highest_of(none));
}

/// A source that is added has the name it is given, whether it was known or not; the source of a
/// row that was not known is named after its number, and one that was known keeps its name. Other
/// sources stay as they are.
pub proof fn law_names_of_sources(
    sources: Map<u64, SourceView>,
    source_id: SourceId,
    name: Seq<char>,
    other: u64,
)
    ensures
        with_source(sources, source_id, name)[source_id.0].name == name,
        with_source(sources, source_id, name).contains_key(other) == (other == source_id.0
            || sources.contains_key(other)),
        with_source_of_row(sources, source_id).contains_key(other) == (other == source_id.0
            || sources.contains_key(other)),
        sources.contains_key(source_id.0) ==> with_source_of_row(sources, source_id) == sources,
        !sources.contains_key(source_id.0) ==> with_source_of_row(sources, source_id)[source_id.0].name
            == "source-"@ + decimal(source_id.0 as nat),
        other != source_id.0 && sources.contains_key(other) ==> with_source(
            sources,
            source_id,
            name,
        )[other] == sources[other] && with_source_of_row(sources, source_id)[other]
            == sources[other],
{
}

/// A row stands in a list where it first occurs in it.
pub proof fn law_place_in_a_list(ids: Seq<RowId>, row_id: RowId, k: int)
    requires
        0 <= k <= ids.len(),
        forall|i: int| 0 <= i < k ==> #[trigger] ids[i] != row_id,
        k < ids.len() ==> ids[k] == row_id,
    ensures
        place_of(ids, row_id) == if k < ids.len() {
            Some(k)
        } else {
            None
        },
{
    if k < ids.len() {
        lemma_place_of(ids, row_id, k);
    } else {
        lemma_no_place(ids, row_id);
    }
}

} // verus!
