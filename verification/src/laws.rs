//! What holds of the engine as a whole.
use crate::filter::FilterView;
use crate::index::IndexView;
use crate::model::{LogLevel, PresentationView, RowId, RowView, ViewportSnapshot};
use crate::order::{in_line, law_listing_order_is_total};
use crate::present::{continues_trace, trace_length};
use crate::session::SessionView;
use crate::summary::{
    law_summaries_add_up, rows_at, rows_from_at, rows_in_summaries, summary_of,
};
use crate::text::{chars_in, contains_folded, lemma_first_from, lowered};
use crate::time::MAX_SECS;
use crate::timeline::{
    bucket_views, law_timeline_fits_in_practice, stamps_leave_room, timeline_fits, timeline_of,
    TIMELINE_BUCKETS,
};
use crate::viewport::{capped, hit_after, ids_of, place_of, presentation_views, EngineView};
use vstd::prelude::*;
use vstd::relations::sorted_by;

verus! {

/// Filtering the first numbers keeps those that pass, each once and in order.
proof fn lemma_numbers_kept(all: Seq<int>, keep: spec_fn(int) -> bool)
    requires
        forall|i: int| 0 <= i < all.len() ==> #[trigger] all[i] == i,
    ensures
        forall|i: int| #[trigger]
            all.filter(keep).contains(i) <==> 0 <= i < all.len() && keep(i),
        forall|a: int, b: int|
            0 <= a < b < all.filter(keep).len() ==> #[trigger] all.filter(keep)[a]
                < #[trigger] all.filter(keep)[b],
    decreases all.len(),
{
    let n = all.len() as int;
    let kept = all.filter(keep);
    reveal(Seq::filter);
    if n > 0 {
        let before = all.drop_last();
        assert forall|i: int| 0 <= i < before.len() implies #[trigger] before[i] == i by {
            assert(before[i] == all[i]);
        }
        lemma_numbers_kept(before, keep);
        let head = before.filter(keep);
        assert(all.last() == n - 1);
        assert(kept == if keep(n - 1) {
            head.push(n - 1)
        } else {
            head
        });
        assert forall|a: int| 0 <= a < head.len() implies #[trigger] head[a] < n - 1 by {
            assert(head.contains(head[a]));
        }
        assert forall|i: int| #[trigger] kept.contains(i) <==> 0 <= i < n && keep(i) by {
            if kept.contains(i) {
                let a = choose|a: int| 0 <= a < kept.len() && kept[a] == i;
                if a < head.len() {
                    assert(head[a] == i);
                    assert(head.contains(i));
                }
            }
            if 0 <= i < n && keep(i) {
                if i == n - 1 {
                    assert(kept[kept.len() - 1] == i);
                } else {
                    assert(head.contains(i));
                    let a = choose|a: int| 0 <= a < head.len() && head[a] == i;
                    assert(kept[a] == i);
                }
            }
        }
    }
}

/// The list holds exactly the rows that are shown, each once, in the order of the list.
pub proof fn law_list_is_what_is_shown_in_order(engine: EngineView)
    ensures
        forall|i: int| #[trigger]
            engine.listing().contains(i) <==> 0 <= i < engine.rows().len() && engine.shows(
                engine.rows()[i],
            ),
        engine.listing().no_duplicates(),
        sorted_by(engine.listing(), in_line(engine.rows())),
        engine.listed().len() <= engine.rows().len(),
{
    broadcast use vstd::seq_lib::group_to_multiset_ensures;

    let keep = |i: int| engine.shows(engine.rows()[i]);
    let all = Seq::new(engine.rows().len(), |i: int| i);
    let kept = all.filter(keep);
    let leq = in_line(engine.rows());
    let sorted = engine.listing();
    law_listing_order_is_total(engine.rows());
    kept.lemma_sort_by_ensures(leq);
    lemma_numbers_kept(all, keep);
    assert(kept.no_duplicates());
    kept.lemma_multiset_has_no_duplicates();
    sorted.lemma_multiset_has_no_duplicates_conv();
    assert forall|i: int| #[trigger] sorted.contains(i) <==> kept.contains(i) by {
        assert(sorted.to_multiset().count(i) == kept.to_multiset().count(i));
    }
    all.lemma_filter_len(keep);
    assert(sorted.len() == sorted.to_multiset().len());
    assert(kept.len() == kept.to_multiset().len());
}

/// No row is listed twice: the ids in the list differ.
pub proof fn law_listed_ids_differ(engine: EngineView)
    requires
        engine.wf(),
    ensures
        ids_of(engine.listed()).no_duplicates(),
{
    law_list_is_what_is_shown_in_order(engine);
    let places = engine.listing();
    let ids = ids_of(engine.listed());
    assert forall|a: int, b: int| 0 <= a < b < ids.len() implies ids[a] != ids[b] by {
        assert(places.contains(places[a]));
        assert(places.contains(places[b]));
        assert(engine.rows()[places[a]].row_id.0 == engine.index.evicted + places[a]);
        assert(engine.rows()[places[b]].row_id.0 == engine.index.evicted + places[b]);
    }
}

/// The list is in order of time, to the nanosecond: of two rows with timestamps, the one further
/// down is not stamped earlier. Rows without a timestamp come first. Rows of one time, and rows
/// without one, are in the order in which they arrived.
pub proof fn law_list_is_in_order_of_time(engine: EngineView, i: int, j: int)
    requires
        engine.wf(),
        0 <= i < j < engine.listed().len(),
    ensures
        ({
            let upper = engine.listed()[i];
            let lower = engine.listed()[j];
            match (upper.timestamp, lower.timestamp) {
                (Some(s), Some(t)) => {
                    ||| t.secs() > s.secs()
                    ||| t.secs() == s.secs() && t.nanos() > s.nanos()
                    ||| t.secs() == s.secs() && t.nanos() == s.nanos() && upper.row_id.0
                        < lower.row_id.0
                },
                (None, None) => upper.row_id.0 < lower.row_id.0,
                (None, Some(_)) => true,
                (Some(_), None) => false,
            }
        }),
{
    law_list_is_what_is_shown_in_order(engine);
    let places = engine.listing();
    let leq = in_line(engine.rows());
    assert(leq(places[i], places[j]));
    assert(places[i] != places[j]);
    assert(places.contains(places[i]) && places.contains(places[j]));
    assert(engine.listed()[i] == engine.rows()[places[i]]);
    assert(engine.listed()[j] == engine.rows()[places[j]]);
    assert(engine.rows()[places[i]].row_id.0 == engine.index.evicted + places[i]);
    assert(engine.rows()[places[j]].row_id.0 == engine.index.evicted + places[j]);
}

/// A row is in the list exactly where it is held, the filter accepts it, and it is not the
/// continuation of a stack trace while those are folded.
pub proof fn law_list_holds_what_the_filter_accepts(engine: EngineView, row_id: RowId)
    requires
        engine.wf(),
    ensures
        ids_of(engine.listed()).contains(row_id) == match engine.index.row(row_id) {
            Some(row) => engine.filter.accepts(row) && (engine.folding ==> !continues_trace(
                row.raw,
            )),
            None => false,
        },
{
    law_list_is_what_is_shown_in_order(engine);
    let ids = ids_of(engine.listed());
    let places = engine.listing();
    if ids.contains(row_id) {
        let i = choose|i: int| 0 <= i < ids.len() && ids[i] == row_id;
        assert(places.contains(places[i]));
        assert(engine.listed()[i] == engine.rows()[places[i]]);
        assert(engine.rows()[places[i]].row_id.0 == engine.index.evicted + places[i]);
    }
    if let Some(position) = engine.index.position(row_id) {
        assert(engine.rows()[position].row_id.0 == engine.index.evicted + position);
        if engine.shows(engine.rows()[position]) {
            assert(places.contains(position));
            let i = choose|i: int| 0 <= i < places.len() && places[i] == position;
            assert(ids[i] == row_id);
        }
    }
}

/// Without a filter and without folding every row is listed.
pub proof fn law_no_filter_lists_every_row(engine: EngineView)
    requires
        engine.filter == FilterView::All,
        !engine.folding,
    ensures
        forall|i: int| 0 <= i < engine.rows().len() ==> #[trigger] engine.listing().contains(i),
        engine.listed().len() == engine.rows().len(),
{
    law_list_is_what_is_shown_in_order(engine);
    let all = Seq::new(engine.rows().len(), |i: int| i);
    let keep = |i: int| engine.shows(engine.rows()[i]);
    lemma_all_kept(all, keep);
    law_listing_order_is_total(engine.rows());
    all.filter(keep).lemma_sort_by_ensures(in_line(engine.rows()));
    assert(engine.listing().len() == engine.listing().to_multiset().len()) by {
        broadcast use vstd::seq_lib::group_to_multiset_ensures;

    }
    assert(all.len() == all.to_multiset().len()) by {
        broadcast use vstd::seq_lib::group_to_multiset_ensures;

    }
}

/// Where everything passes, everything is kept.
proof fn lemma_all_kept(all: Seq<int>, keep: spec_fn(int) -> bool)
    requires
        forall|i: int| 0 <= i < all.len() ==> keep(#[trigger] all[i]),
    ensures
        all.filter(keep) == all,
    decreases all.len(),
{
    reveal(Seq::filter);
    if all.len() > 0 {
        let head = all.drop_last();
        assert forall|i: int| 0 <= i < head.len() implies keep(#[trigger] head[i]) by {
            assert(head[i] == all[i]);
        }
        lemma_all_kept(head, keep);
        assert(keep(all[all.len() - 1]));
        assert(head.push(all.last()) =~= all);
    } else {
        assert(all.filter(keep) =~= all);
    }
}

/// With folding, no line that continues a stack trace is listed, and no other line goes missing.
pub proof fn law_folding_hides_traces_only(engine: EngineView)
    ensures
        ({
            let folded = EngineView { folding: true, ..engine };
            let open = EngineView { folding: false, ..engine };
            forall|i: int|
                0 <= i < engine.rows().len() ==> (#[trigger] folded.listing().contains(i)
                    == (open.listing().contains(i) && !continues_trace(engine.rows()[i].raw)))
        }),
{
    let folded = EngineView { folding: true, ..engine };
    let open = EngineView { folding: false, ..engine };
    law_list_is_what_is_shown_in_order(folded);
    law_list_is_what_is_shown_in_order(open);
    assert(folded.rows() == engine.rows());
    assert(open.rows() == engine.rows());
    assert forall|i: int| 0 <= i < engine.rows().len() implies (#[trigger] folded.listing().contains(i)
        == (open.listing().contains(i) && !continues_trace(engine.rows()[i].raw))) by {
        assert(folded.shows(engine.rows()[i]) == (open.shows(engine.rows()[i]) && !continues_trace(
            engine.rows()[i].raw,
        )));
    }
}

/// Searching changes neither the list nor any row's place in it.
pub proof fn law_search_leaves_the_list_alone(engine: EngineView, search: Option<Seq<char>>)
    ensures
        (EngineView { search, ..engine }).listing() == engine.listing(),
        (EngineView { search, ..engine }).listed() == engine.listed(),
{
    let searching = EngineView { search, ..engine };
    let keep = |i: int| engine.shows(engine.rows()[i]);
    let keep2 = |i: int| searching.shows(searching.rows()[i]);
    assert(keep =~= keep2);
    assert(searching.listed() =~= engine.listed());
}

/// Every hit is a listed row whose raw line contains the text searched for.
pub proof fn law_hits_are_listed(engine: EngineView, k: int)
    requires
        0 <= k < engine.hits().len(),
    ensures
        exists|i: int|
            0 <= i < engine.listed().len() && (#[trigger] engine.listed()[i]).row_id
                == engine.hits()[k] && contains_folded(engine.listed()[i].raw, engine.search->0),
{
    let keep = |row: RowView| contains_folded(row.raw, engine.search->0);
    let found = engine.listed().filter(keep);
    lemma_kept_comes_from(engine.listed(), keep, k);
    engine.listed().lemma_filter_pred(keep, k);
    let i = choose|i: int| 0 <= i < engine.listed().len() && engine.listed()[i] == found[k];
    assert(engine.listed()[i].row_id == engine.hits()[k]);
}

/// What is kept was there before.
proof fn lemma_kept_comes_from(rows: Seq<RowView>, keep: spec_fn(RowView) -> bool, k: int)
    requires
        0 <= k < rows.filter(keep).len(),
    ensures
        exists|i: int| 0 <= i < rows.len() && rows[i] == rows.filter(keep)[k],
    decreases rows.len(),
{
    reveal(Seq::filter);
    let head = rows.drop_last();
    if k < head.filter(keep).len() {
        lemma_kept_comes_from(head, keep, k);
        let i = choose|i: int| 0 <= i < head.len() && head[i] == head.filter(keep)[k];
        assert(rows[i] == rows.filter(keep)[k]);
    } else {
        assert(rows[rows.len() - 1] == rows.filter(keep)[k]);
    }
}

/// Every listed row whose raw line contains the text searched for is a hit.
pub proof fn law_listed_matches_are_hits(engine: EngineView, i: int)
    requires
        0 <= i < engine.listed().len(),
        engine.search is Some,
        contains_folded(engine.listed()[i].raw, engine.search->0),
    ensures
        engine.hits().contains(engine.listed()[i].row_id),
{
    let keep = |row: RowView| contains_folded(row.raw, engine.search->0);
    let found = engine.listed().filter(keep);
    engine.listed().lemma_filter_contains(keep, i);
    let k = choose|k: int| 0 <= k < found.len() && found[k] == engine.listed()[i];
    assert(engine.hits()[k] == engine.listed()[i].row_id);
}

/// No row is a hit twice.
pub proof fn law_hits_differ(engine: EngineView)
    requires
        engine.wf(),
    ensures
        engine.hits().no_duplicates(),
{
    if let Some(text) = engine.search {
        let keep = |row: RowView| contains_folded(row.raw, text);
        law_listed_ids_differ(engine);
        lemma_kept_ids_differ(engine.listed(), keep);
    }
}

/// Where the ids of rows differ, so do those of the rows that are kept.
proof fn lemma_kept_ids_differ(rows: Seq<RowView>, keep: spec_fn(RowView) -> bool)
    requires
        ids_of(rows).no_duplicates(),
    ensures
        ids_of(rows.filter(keep)).no_duplicates(),
    decreases rows.len(),
{
    reveal(Seq::filter);
    if rows.len() > 0 {
        let head = rows.drop_last();
        let ids = ids_of(rows);
        assert forall|a: int, b: int|
            0 <= a < ids_of(head).len() && 0 <= b < ids_of(head).len() && a != b implies ids_of(
            head,
        )[a] != ids_of(head)[b] by {
            assert(ids[a] != ids[b]);
        }
        lemma_kept_ids_differ(head, keep);
        let kept = head.filter(keep);
        assert forall|k: int| 0 <= k < kept.len() implies (#[trigger] kept[k]).row_id
            != rows.last().row_id by {
            lemma_kept_comes_from(head, keep, k);
            let i = choose|i: int| 0 <= i < head.len() && head[i] == kept[k];
            assert(ids[i] != ids[rows.len() - 1]);
        }
        let all = ids_of(rows.filter(keep));
        assert forall|a: int, b: int| 0 <= a < all.len() && 0 <= b < all.len() && a != b implies all[a]
            != all[b] by {
            if a < kept.len() && b < kept.len() {
                assert(ids_of(kept)[a] != ids_of(kept)[b]);
            }
        }
    }
}

/// Of a row whose message is its whole line, the message is highlighted exactly where the line
/// contains the text searched for.
pub proof fn law_highlights_are_matches(engine: EngineView, row: RowView)
    requires
        row.message == row.raw,
    ensures
        engine.presented(row).is_match == (engine.search is Some && contains_folded(
            row.raw,
            engine.search->0,
        )),
{
    if let Some(text) = engine.search {
        lemma_first_from(lowered(row.message), lowered(text), 0);
    }
}

/// A listed row is the row that is held under its id.
pub proof fn law_listed_rows_keep_their_ids(engine: EngineView, i: int)
    requires
        engine.wf(),
        0 <= i < engine.listed().len(),
    ensures
        engine.index.row(engine.listed()[i].row_id) == Some(engine.listed()[i]),
{
    law_list_is_what_is_shown_in_order(engine);
    let at = engine.listing()[i];
    assert(engine.listing().contains(at));
    assert(engine.rows()[at].row_id.0 == engine.index.evicted + at);
}

/// A window holds no more rows than were asked for, and all of those where the list has them.
pub proof fn law_window_is_as_long_as_asked(
    engine: EngineView,
    snapshot: ViewportSnapshot,
    first_row: nat,
    row_count: nat,
)
    requires
        engine.window(snapshot, first_row as int, row_count as int),
    ensures
        snapshot.rows@.len() <= row_count,
        first_row + row_count <= engine.listed().len() ==> snapshot.rows@.len() == row_count,
{
    assert(presentation_views(snapshot.rows@).len() == snapshot.rows@.len());
}

/// Two windows one after the other show what one window of both lengths shows.
pub proof fn law_windows_join(
    engine: EngineView,
    first: ViewportSnapshot,
    second: ViewportSnapshot,
    both: ViewportSnapshot,
    start: nat,
    n: nat,
    m: nat,
)
    requires
        engine.window(first, start as int, n as int),
        engine.window(second, (start + n) as int, m as int),
        engine.window(both, start as int, (n + m) as int),
    ensures
        presentation_views(both.rows@) == presentation_views(first.rows@) + presentation_views(
            second.rows@,
        ),
        both.has_more_before == first.has_more_before,
        both.has_more_after == second.has_more_after,
{
    assert(presentation_views(both.rows@) =~= presentation_views(first.rows@) + presentation_views(
        second.rows@,
    ));
}

/// An id that occurs has a place, and it stands there.
pub proof fn lemma_place_holds_id(ids: Seq<RowId>, row_id: RowId)
    ensures
        place_of(ids, row_id) is Some == ids.contains(row_id),
        place_of(ids, row_id) matches Some(place) ==> 0 <= place < ids.len() && ids[place] == row_id,
    decreases ids.len(),
{
    if ids.len() > 0 {
        let head = ids.drop_last();
        lemma_place_holds_id(head, row_id);
        if head.contains(row_id) {
            let k = choose|k: int| 0 <= k < head.len() && head[k] == row_id;
            assert(ids[k] == row_id);
        }
        if ids.contains(row_id) {
            let k = choose|k: int| 0 <= k < ids.len() && ids[k] == row_id;
            if k < head.len() {
                assert(head[k] == row_id);
            }
        }
    }
}

/// Going to the next hit and back returns to where one was, and so does the other way round.
pub proof fn law_next_and_previous_undo_each_other(hits: Seq<RowId>, current: RowId)
    requires
        hits.no_duplicates(),
        hits.contains(current),
    ensures
        hit_after(hits, hit_after(hits, Some(current), false), true) == Some(current),
        hit_after(hits, hit_after(hits, Some(current), true), false) == Some(current),
{
    let n = hits.len() as int;
    lemma_place_holds_id(hits, current);
    let place = place_of(hits, current)->0;
    let next = (place + 1) % n;
    let previous = (place + n - 1) % n;
    lemma_place_holds_id(hits, hits[next]);
    lemma_place_holds_id(hits, hits[previous]);
    assert(hits.contains(hits[next]));
    assert(hits.contains(hits[previous]));
    assert(next == if place == n - 1 {
        0
    } else {
        place + 1
    }) by (nonlinear_arith)
        requires
            next == (place + 1) % n,
            0 <= place < n,
    ;
    assert(previous == if place == 0 {
        n - 1
    } else {
        place - 1
    }) by (nonlinear_arith)
        requires
            previous == (place + n - 1) % n,
            0 <= place < n,
    ;
    assert((next + n - 1) % n == place) by (nonlinear_arith)
        requires
            next == (if place == n - 1 {
                0
            } else {
                place + 1
            }),
            0 <= place < n,
    ;
    assert((previous + 1) % n == place) by (nonlinear_arith)
        requires
            previous == (if place == 0 {
                n - 1
            } else {
                place - 1
            }),
            0 <= place < n,
    ;
}

/// There is a hit to go to exactly where there are hits, and it is one of them.
pub proof fn law_navigation_stays_on_hits(hits: Seq<RowId>, current: Option<RowId>, reverse: bool)
    ensures
        hit_after(hits, current, reverse) is Some == (hits.len() > 0),
        hit_after(hits, current, reverse) matches Some(row_id) ==> hits.contains(row_id),
{
    if hits.len() > 0 {
        if let Some(row_id) = current {
            lemma_place_holds_id(hits, row_id);
            let place = match place_of(hits, row_id) {
                Some(place) => place,
                None => 0,
            };
            let n = hits.len() as int;
            assert(0 <= (place + 1) % n < n) by (nonlinear_arith)
                requires
                    0 <= place < n,
            ;
            assert(0 <= (place + n - 1) % n < n) by (nonlinear_arith)
                requires
                    0 <= place < n,
            ;
            assert(hits.contains(hits[(place + 1) % n]));
            assert(hits.contains(hits[(place + n - 1) % n]));
        } else {
            assert(hits.contains(hits[0]));
            assert(hits.contains(hits.last()));
        }
    }
}

/// Under a limit of one row or more the row just appended is kept, and as many of the rows before
/// it as the limit leaves room for.
pub proof fn law_limit_keeps_the_newest(index: IndexView, row: RowView, most: usize)
    requires
        index.wf(),
        index.evicted + index.rows.len() < u64::MAX,
        most > 0,
    ensures
        ({
            let kept = capped(index.appended(row), Some(most));
            let all = index.appended(row).rows;
            let count = if all.len() <= most {
                all.len() as int
            } else {
                most as int
            };
            &&& kept.rows == all.subrange(all.len() - count, all.len() as int)
            &&& kept.rows.last() == all.last()
            &&& forall|row_id: RowId|
                kept.row(row_id) is Some ==> #[trigger] kept.row(row_id) == index.appended(row).row(
                    row_id,
                )
            &&& kept.next_id() == index.appended(row).next_id()
        }),
{
    let all = index.appended(row).rows;
    let kept = capped(index.appended(row), Some(most));
    if all.len() <= most {
        assert(kept.rows =~= all.subrange(0, all.len() as int));
    }
}

/// The rows around a row do not depend on the filter or on folding.
pub proof fn law_context_disregards_the_filter(
    engine: EngineView,
    filter: FilterView,
    folding: bool,
    snapshot: ViewportSnapshot,
    first_row: int,
    row_count: int,
)
    ensures
        (EngineView { filter, folding, ..engine }).surroundings(snapshot, first_row, row_count)
            == engine.surroundings(snapshot, first_row, row_count),
{
    let other = EngineView { filter, folding, ..engine };
    let present = |row: RowView| engine.presented(row);
    let present2 = |row: RowView| other.presented(row);
    assert(present =~= present2);
}

/// Setting a bookmark changes nothing of how a row is drawn but its mark.
pub proof fn law_bookmarks_change_only_the_mark(
    engine: EngineView,
    session: SessionView,
    row: RowView,
)
    ensures
        (EngineView { session, ..engine }).presented(row) == (PresentationView {
            is_bookmarked: (EngineView { session, ..engine }).presented(row).is_bookmarked,
            ..engine.presented(row)
        }),
        (EngineView { session, ..engine }).listing() == engine.listing(),
{
    let changed = EngineView { session, ..engine };
    let keep = |i: int| engine.shows(engine.rows()[i]);
    let keep2 = |i: int| changed.shows(changed.rows()[i]);
    assert(keep =~= keep2);
}

/// A row's source has a name wherever the row is held.
pub proof fn law_sources_of_rows_are_named(engine: EngineView, i: int)
    requires
        engine.wf(),
        0 <= i < engine.rows().len(),
    ensures
        engine.presented(engine.rows()[i]).source_name is Some,
{
}

/// Where no row is stamped in the very last second that can be named, the list and its
/// surroundings can be shown.
pub proof fn law_views_fit_in_practice(engine: EngineView)
    requires
        stamps_leave_room(engine.rows()),
    ensures
        timeline_fits(engine.listed(), TIMELINE_BUCKETS as int),
        timeline_fits(engine.rows(), TIMELINE_BUCKETS as int),
{
    law_list_is_what_is_shown_in_order(engine);
    let listed = engine.listed();
    assert forall|i: int| 0 <= i < listed.len() implies ((#[trigger] listed[i]).timestamp matches Some(
        time,
    ) ==> time.secs() < MAX_SECS && time.nanos() < 2_000_000_000) by {
        let at = engine.listing()[i];
        assert(engine.listing().contains(at));
        assert(listed[i] == engine.rows()[at]);
    }
    law_timeline_fits_in_practice(listed, TIMELINE_BUCKETS as int);
    law_timeline_fits_in_practice(engine.rows(), TIMELINE_BUCKETS as int);
}

/// Appending a list of rows and then one more is appending the longer list.
pub proof fn law_rows_are_appended_in_turn(engine: EngineView, rows: Seq<RowView>, row: RowView)
    ensures
        engine.with_rows(rows.push(row)) == engine.with_rows(rows).with_row(row),
    decreases rows.len(),
{
    let all = rows.push(row);
    if rows.len() == 0 {
        assert(all.subrange(1, all.len() as int) =~= Seq::<RowView>::empty());
        assert(engine.with_row(row).with_rows(Seq::empty()) == engine.with_row(row));
    } else {
        let rest = rows.subrange(1, rows.len() as int);
        assert(all.subrange(1, all.len() as int) =~= rest.push(row));
        law_rows_are_appended_in_turn(engine.with_row(rows[0]), rest, row);
    }
}

/// A window shows the rows that were asked for: its row number `k` is the one at place
/// `first_row + k` of the list, as far as the list goes. It tells how many rows are listed and
/// held, and whether there are more on either side.
pub proof fn law_window_shows_what_was_asked_for(
    engine: EngineView,
    snapshot: ViewportSnapshot,
    first_row: nat,
    row_count: nat,
    k: int,
)
    requires
        engine.window(snapshot, first_row as int, row_count as int),
    ensures
        0 <= k < snapshot.rows@.len() <==> 0 <= k < row_count && first_row + k
            < engine.listed().len(),
        0 <= k < snapshot.rows@.len() ==> {
            let row = engine.listed()[first_row + k];
            let shown = snapshot.rows@[k];
            &&& shown.row_id == row.row_id
            &&& shown.source_id == row.source_id
            &&& shown.level == row.level
            &&& shown@ == engine.presented(row)
        },
        snapshot.total_matching_rows == engine.listed().len(),
        snapshot.total_rows == engine.rows().len(),
        snapshot.has_more_before <==> first_row > 0 && engine.listed().len() > 0,
        snapshot.has_more_after <==> first_row + row_count < engine.listed().len(),
{
    let views = presentation_views(snapshot.rows@);
    assert(views.len() == snapshot.rows@.len());
    if 0 <= k < snapshot.rows@.len() {
        assert(views[k] == snapshot.rows@[k]@);
    }
}

/// What a window tells of the listed rows: how many there are of each severity, one summary for
/// each source that some of them come from, under the name of the source, and their timeline of no
/// more than 24 buckets.
pub proof fn law_window_sums_up_the_list(
    engine: EngineView,
    snapshot: ViewportSnapshot,
    first_row: int,
    row_count: int,
    i: int,
)
    requires
        engine.wf(),
        engine.window(snapshot, first_row, row_count),
    ensures
        snapshot.level_counts.warn == engine.listed().filter(
            |row: RowView| row.level == Some(LogLevel::Warn),
        ).len(),
        snapshot.level_counts.error == engine.listed().filter(
            |row: RowView| row.level == Some(LogLevel::Error),
        ).len(),
        snapshot.level_counts.fatal == engine.listed().filter(
            |row: RowView| row.level == Some(LogLevel::Fatal),
        ).len(),
        snapshot.level_counts.info == engine.listed().filter(
            |row: RowView| row.level == Some(LogLevel::Info),
        ).len(),
        snapshot.level_counts.debug == engine.listed().filter(
            |row: RowView| row.level == Some(LogLevel::Debug),
        ).len(),
        snapshot.level_counts.trace == engine.listed().filter(
            |row: RowView| row.level == Some(LogLevel::Trace),
        ).len(),
        snapshot.level_counts.unknown == engine.listed().filter(
            |row: RowView| row.level is None,
        ).len(),
        bucket_views(snapshot.timeline@) == timeline_of(engine.listed(), 24),
        rows_in_summaries(snapshot.source_summaries@) == engine.listed().len(),
        0 <= i < snapshot.source_summaries@.len() ==> {
            let summary = snapshot.source_summaries@[i];
            &&& summary.rows == engine.listed().filter(
                |row: RowView| row.source_id == summary.source_id,
            ).len()
            &&& summary.rows > 0
            &&& engine.sources.contains_key(summary.source_id.0)
            &&& chars_in(summary.name) == engine.sources[summary.source_id.0].name
            &&& summary.level_counts.warn == engine.listed().filter(
                |row: RowView|
                    row.source_id == summary.source_id && row.level == Some(LogLevel::Warn),
            ).len()
            &&& summary.level_counts.error == engine.listed().filter(
                |row: RowView|
                    row.source_id == summary.source_id && row.level == Some(LogLevel::Error),
            ).len()
            &&& summary.level_counts.fatal == engine.listed().filter(
                |row: RowView|
                    row.source_id == summary.source_id && row.level == Some(LogLevel::Fatal),
            ).len()
        },
{
    let rows = engine.listed();
    let counts = snapshot.level_counts;
    assert(counts.of(Some(LogLevel::Warn)) == rows_at(rows, Some(LogLevel::Warn)));
    assert(counts.of(Some(LogLevel::Error)) == rows_at(rows, Some(LogLevel::Error)));
    assert(counts.of(Some(LogLevel::Fatal)) == rows_at(rows, Some(LogLevel::Fatal)));
    assert(counts.of(Some(LogLevel::Info)) == rows_at(rows, Some(LogLevel::Info)));
    assert(counts.of(Some(LogLevel::Debug)) == rows_at(rows, Some(LogLevel::Debug)));
    assert(counts.of(Some(LogLevel::Trace)) == rows_at(rows, Some(LogLevel::Trace)));
    assert(counts.of(None) == rows_at(rows, None));
    assert((|row: RowView| row.level is None) =~= (|row: RowView|
        row.level == None::<LogLevel>));
    law_summaries_add_up(snapshot.source_summaries@, rows, engine.sources);
    if 0 <= i < snapshot.source_summaries@.len() {
        let summary = snapshot.source_summaries@[i];
        let own = summary.level_counts;
        let id = summary.source_id;
        assert(summary_of(summary, rows, engine.sources));
        assert(own.of(Some(LogLevel::Warn)) == rows_from_at(rows, id, Some(LogLevel::Warn)));
        assert(own.of(Some(LogLevel::Error)) == rows_from_at(rows, id, Some(LogLevel::Error)));
        assert(own.of(Some(LogLevel::Fatal)) == rows_from_at(rows, id, Some(LogLevel::Fatal)));
        let keep = |row: RowView| row.source_id == id;
        lemma_kept_comes_from(rows, keep, 0);
        rows.lemma_filter_pred(keep, 0);
        let k = choose|k: int| 0 <= k < rows.len() && rows[k] == rows.filter(keep)[0];
        law_list_is_what_is_shown_in_order(engine);
        assert(engine.listing().contains(engine.listing()[k]));
        assert(rows[k] == engine.rows()[engine.listing()[k]]);
    }
}

/// From a hit one goes forwards to the next one, and from the last to the first; backwards the
/// other way round. From nowhere one goes to the first, or backwards to the last. From a row that
/// is no hit one goes as from the first hit.
pub proof fn law_order_of_hits(hits: Seq<RowId>, k: int, stranger: RowId)
    requires
        hits.no_duplicates(),
        0 <= k < hits.len(),
        !hits.contains(stranger),
    ensures
        k + 1 < hits.len() ==> hit_after(hits, Some(hits[k]), false) == Some(hits[k + 1]),
        k + 1 == hits.len() ==> hit_after(hits, Some(hits[k]), false) == Some(hits[0]),
        k > 0 ==> hit_after(hits, Some(hits[k]), true) == Some(hits[k - 1]),
        k == 0 ==> hit_after(hits, Some(hits[k]), true) == Some(hits[hits.len() - 1]),
        hit_after(hits, None, false) == Some(hits[0]),
        hit_after(hits, None, true) == Some(hits[hits.len() - 1]),
        hit_after(hits, Some(stranger), false) == hit_after(hits, Some(hits[0]), false),
        hit_after(hits, Some(stranger), true) == hit_after(hits, Some(hits[0]), true),
{
    let n = hits.len() as int;
    assert(hits.contains(hits[k]) && hits.contains(hits[0]));
    lemma_place_holds_id(hits, hits[k]);
    lemma_place_holds_id(hits, hits[0]);
    lemma_place_holds_id(hits, stranger);
    assert((k + 1) % n == if k + 1 < n {
        k + 1
    } else {
        0
    }) by (nonlinear_arith)
        requires
            0 <= k < n,
    ;
    assert((k + n - 1) % n == if k > 0 {
        k - 1
    } else {
        n - 1
    }) by (nonlinear_arith)
        requires
            0 <= k < n,
    ;
}

/// The hits are in the order of the list.
pub proof fn law_hits_are_in_list_order(engine: EngineView, a: int, b: int)
    requires
        engine.wf(),
        0 <= a < b < engine.hits().len(),
    ensures
        exists|i: int, j: int|
            0 <= i < j < engine.listed().len() && (#[trigger] engine.listed()[i]).row_id
                == engine.hits()[a] && (#[trigger] engine.listed()[j]).row_id == engine.hits()[b],
{
    let keep = |row: RowView| contains_folded(row.raw, engine.search->0);
    lemma_kept_in_order(engine.listed(), keep, a, b);
    let found = engine.listed().filter(keep);
    let (i, j) = choose|i: int, j: int|
        0 <= i < j < engine.listed().len() && #[trigger] engine.listed()[i] == found[a]
            && #[trigger] engine.listed()[j] == found[b];
    assert(engine.listed()[i].row_id == engine.hits()[a]);
    assert(engine.listed()[j].row_id == engine.hits()[b]);
}

/// What is kept stays in order.
proof fn lemma_kept_in_order(rows: Seq<RowView>, keep: spec_fn(RowView) -> bool, a: int, b: int)
    requires
        0 <= a < b < rows.filter(keep).len(),
    ensures
        exists|i: int, j: int|
            0 <= i < j < rows.len() && #[trigger] rows[i] == rows.filter(keep)[a]
                && #[trigger] rows[j] == rows.filter(keep)[b],
    decreases rows.len(),
{
    reveal(Seq::filter);
    let head = rows.drop_last();
    let kept = rows.filter(keep);
    let before = head.filter(keep);
    if b < before.len() {
        lemma_kept_in_order(head, keep, a, b);
        let (i, j) = choose|i: int, j: int|
            0 <= i < j < head.len() && #[trigger] head[i] == before[a] && #[trigger] head[j]
                == before[b];
        assert(rows[i] == kept[a] && rows[j] == kept[b]);
    } else {
        lemma_kept_comes_from(head, keep, a);
        let i = choose|i: int| 0 <= i < head.len() && head[i] == before[a];
        assert(rows[i] == kept[a] && rows[rows.len() - 1] == kept[b]);
    }
}

/// How a row that is held is drawn: under its own id, source and severity, with the name of its
/// source, marked where it has a bookmark, and with the number of rows of a stack trace that follow
/// it without a break.
pub proof fn law_how_a_row_is_drawn(engine: EngineView, p: int)
    requires
        engine.wf(),
        0 <= p < engine.rows().len(),
    ensures
        ({
            let row = engine.rows()[p];
            let shown = engine.presented(row);
            let n = shown.folded_stack_rows as int;
            &&& shown.row_id == row.row_id && shown.source_id == row.source_id && shown.level
                == row.level
            &&& shown.source_name == Some(engine.sources[row.source_id.0].name)
            &&& shown.is_bookmarked <==> exists|i: int|
                0 <= i < engine.session.bookmarks.len() && (
                #[trigger] engine.session.bookmarks[i]).row_id == row.row_id
            &&& shown.is_stack_continuation <==> continues_trace(row.raw)
            &&& !shown.is_selected
            &&& continues_trace(row.raw) ==> n == 0
            &&& !continues_trace(row.raw) ==> {
                &&& p + n < engine.rows().len()
                &&& forall|i: int|
                    p < i <= p + n ==> continues_trace((#[trigger] engine.rows()[i]).raw)
                &&& p + n + 1 < engine.rows().len() ==> !continues_trace(
                    engine.rows()[p + n + 1].raw,
                )
            }
        }),
{
    let row = engine.rows()[p];
    assert(row.row_id.0 == engine.index.evicted + p);
    assert(engine.sources.contains_key(row.source_id.0));
    lemma_trace_length(engine.rows(), p + 1);
}

/// The length of a stack trace.
proof fn lemma_trace_length(rows: Seq<RowView>, from: int)
    requires
        0 <= from <= rows.len(),
    ensures
        from + trace_length(rows, from) <= rows.len(),
        forall|i: int|
            from <= i < from + trace_length(rows, from) ==> continues_trace(
                (#[trigger] rows[i]).raw,
            ),
        from + trace_length(rows, from) < rows.len() ==> !continues_trace(
            rows[from + trace_length(rows, from)].raw,
        ),
    decreases rows.len() - from,
{
    if from < rows.len() && continues_trace(rows[from].raw) {
        lemma_trace_length(rows, from + 1);
    }
}

/// The rows around a row that is held are up to `before` rows ahead of it, the row itself, and up
/// to `after` rows behind it, in the order in which they arrived and whatever the filter.
pub proof fn law_rows_around_a_row(
    engine: EngineView,
    snapshot: ViewportSnapshot,
    p: int,
    before: nat,
    after: nat,
    k: int,
)
    requires
        engine.wf(),
        0 <= p < engine.rows().len(),
        engine.surroundings(
            snapshot,
            engine.first_around(engine.rows()[p].row_id, before as int),
            (before + after + 1) as int,
        ),
    ensures
        ({
            let first = if p < before {
                0
            } else {
                p - before
            };
            let shown = snapshot.rows@;
            &&& 0 <= k < shown.len() <==> 0 <= k && first + k < engine.rows().len() && k < before
                + after + 1
            &&& 0 <= k < shown.len() ==> shown[k].row_id == engine.rows()[first + k].row_id
            &&& p - first < shown.len() && shown[p - first].row_id == engine.rows()[p].row_id
            &&& snapshot.has_more_before <==> first > 0
            &&& snapshot.total_matching_rows == shown.len()
        }),
{
    let row = engine.rows()[p];
    assert(row.row_id.0 == engine.index.evicted + p);
    let views = presentation_views(snapshot.rows@);
    assert(views.len() == snapshot.rows@.len());
    let first = if p < before {
        0
    } else {
        p - before
    };
    if 0 <= k < snapshot.rows@.len() {
        assert(views[k] == snapshot.rows@[k]@);
    }
    assert(views[p - first] == snapshot.rows@[p - first]@);
}

/// A limit drops the oldest rows beyond it and no others, and counts what it drops.
pub proof fn law_limit_of_rows(index: IndexView, most: usize, i: int)
    requires
        index.wf(),
    ensures
        ({
            let kept = capped(index, Some(most));
            let dropped = index.rows.len() - kept.rows.len();
            &&& kept.rows.len() == if index.rows.len() <= most {
                index.rows.len() as int
            } else {
                most as int
            }
            &&& 0 <= i < kept.rows.len() ==> kept.rows[i] == index.rows[i + dropped]
            &&& kept.evicted == index.evicted + dropped
            &&& capped(index, None) == index
        }),
{
}

/// The rows around an id that resolves to no row are those around the position of that number.
pub proof fn law_rows_around_a_position(engine: EngineView, row_id: RowId, before: nat)
    requires
        row_id.0 < engine.index.evicted || row_id.0 >= engine.index.evicted + engine.rows().len(),
        row_id.0 <= usize::MAX,
    ensures
        engine.first_around(row_id, before as int) == if row_id.0 >= before {
            row_id.0 - before
        } else {
            0
        },
{
}

} // verus!
