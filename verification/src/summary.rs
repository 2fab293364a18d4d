//! What a list of rows amounts to: how many there are of each severity, of each source and in
//! each stretch of time.
use crate::index::ref_views;
use crate::model::{
    default_source_name, LevelCounts, LogLevel, LogRow, RowView, SourceId, SourceInfo,
    SourceSummary, SourceView,
};
use crate::text::{chars_in, decimal_text, joined, share, shared};
use std::collections::BTreeMap;
use std::sync::Arc;
use vstd::prelude::*;

verus! {

broadcast use vstd::std_specs::btree::group_btree_axioms;

/// How many of the rows have this severity.
pub open spec fn rows_at(rows: Seq<RowView>, level: Option<LogLevel>) -> nat {
    rows.filter(|row: RowView| row.level == level).len()
}

/// Counts the rows by severity.
pub fn level_counts(rows: &Vec<&LogRow>) -> (r: LevelCounts)
    ensures
        forall|level: Option<LogLevel>| #[trigger] r.of(level) == rows_at(ref_views(rows@), level),
        r.sum() == rows@.len(),
{
    let mut counts = LevelCounts::none();
    let ghost all = ref_views(rows@);
    let mut i: usize = 0;
    proof {
        assert forall|level: Option<LogLevel>| #[trigger] counts.of(level) == rows_at(
            all.subrange(0, 0),
            level,
        ) by {
            lemma_filter_empty(all.subrange(0, 0), |row: RowView| row.level == level);
        }
    }
    while i < rows.len()
        invariant
            i <= rows@.len(),
            all == ref_views(rows@),
            counts.sum() == i,
            forall|level: Option<LogLevel>| #[trigger]
                counts.of(level) == rows_at(all.subrange(0, i as int), level),
        decreases rows@.len() - i,
    {
        let level = rows[i].level;
        assert(counts.of(level) <= counts.sum());
        let ghost before = counts;
        counts.record(level);
        proof {
            let next = all.subrange(0, i + 1);
            assert(next =~= all.subrange(0, i as int).push(all[i as int]));
            assert forall|other: Option<LogLevel>| #[trigger] counts.of(other) == rows_at(
                next,
                other,
            ) by {
                assert(before.of(other) == rows_at(all.subrange(0, i as int), other));
                lemma_filter_one_more(all, i as int, |row: RowView| row.level == other);
            }
        }
        i += 1;
    }
    assert(all.subrange(0, i as int) =~= all);
    counts
}

/// Filtering nothing gives nothing.
proof fn lemma_filter_empty(rows: Seq<RowView>, keep: spec_fn(RowView) -> bool)
    requires
        rows.len() == 0,
    ensures
        rows.filter(keep).len() == 0,
{
    reveal(Seq::filter);
}

/// Filtering one row more.
proof fn lemma_filter_one_more(rows: Seq<RowView>, n: int, keep: spec_fn(RowView) -> bool)
    requires
        0 <= n < rows.len(),
    ensures
        rows.subrange(0, n + 1).filter(keep).len() == rows.subrange(0, n).filter(keep).len() + (
        if keep(rows[n]) {
            1nat
        } else {
            0nat
        }),
{
    assert(rows.subrange(0, n + 1) =~= rows.subrange(0, n).push(rows[n]));
    rows.subrange(0, n).lemma_filter_len_push(keep, rows[n]);
}

/// The known sources, by their numbers.
pub open spec fn source_views(sources: Map<u64, SourceInfo>) -> Map<u64, SourceView> {
    sources.map_values(|source: SourceInfo| source@)
}

/// The name of a source, given or by default.
pub open spec fn name_of(sources: Map<u64, SourceView>, source_id: SourceId) -> Seq<char> {
    if sources.contains_key(source_id.0) {
        sources[source_id.0].name
    } else {
        default_source_name(source_id)
    }
}

/// The name of a source, given or by default.
pub fn source_name(sources: &BTreeMap<u64, SourceInfo>, source_id: SourceId) -> (r: Arc<str>)
    ensures
        chars_in(r) == name_of(source_views(sources@), source_id),
{
    match sources.get(&source_id.0) {
        Some(source) => share(&source.name),
        None => shared(&unnamed_source(source_id)),
    }
}

/// The name that a source has before it is given one.
pub fn unnamed_source(source_id: SourceId) -> (r: String)
    ensures
        r@ == default_source_name(source_id),
{
    joined("source-", &decimal_text(source_id.0))
}

/// How many of the rows come from this source.
pub open spec fn rows_from(rows: Seq<RowView>, source_id: SourceId) -> nat {
    rows.filter(|row: RowView| row.source_id == source_id).len()
}

/// How many of the rows come from this source and have this severity.
pub open spec fn rows_from_at(
    rows: Seq<RowView>,
    source_id: SourceId,
    level: Option<LogLevel>,
) -> nat {
    rows.filter(|row: RowView| row.source_id == source_id && row.level == level).len()
}

/// The summary tells of the rows of its source.
pub open spec fn summary_of(
    summary: SourceSummary,
    rows: Seq<RowView>,
    sources: Map<u64, SourceView>,
) -> bool {
    &&& chars_in(summary.name) == name_of(sources, summary.source_id)
    &&& summary.rows == rows_from(rows, summary.source_id)
    &&& forall|level: Option<LogLevel>| #[trigger]
        summary.level_counts.of(level) == rows_from_at(rows, summary.source_id, level)
    &&& summary.level_counts.sum() == summary.rows
}

/// There is one summary for each source that some row comes from, in order of their numbers.
pub open spec fn summaries_of(
    summaries: Seq<SourceSummary>,
    rows: Seq<RowView>,
    sources: Map<u64, SourceView>,
) -> bool {
    &&& forall|i: int, j: int|
        0 <= i < j < summaries.len() ==> (#[trigger] summaries[i]).source_id.0 < (
        #[trigger] summaries[j]).source_id.0
    &&& forall|i: int|
        0 <= i < summaries.len() ==> summary_of(#[trigger] summaries[i], rows, sources)
    &&& forall|i: int|
        0 <= i < summaries.len() ==> (#[trigger] summaries[i]).rows > 0
    &&& forall|k: int|
        0 <= k < rows.len() ==> exists|i: int|
            0 <= i < summaries.len() && (#[trigger] summaries[i]).source_id == (
            #[trigger] rows[k]).source_id
}

/// Summarises the rows by source.
pub fn source_summaries(sources: &BTreeMap<u64, SourceInfo>, rows: &Vec<&LogRow>) -> (r: Vec<
    SourceSummary,
>)
    ensures
        summaries_of(r@, ref_views(rows@), source_views(sources@)),
{
    let ghost all = ref_views(rows@);
    let ghost names = source_views(sources@);
    let mut summaries: Vec<SourceSummary> = Vec::new();
    let mut k: usize = 0;
    while k < rows.len()
        invariant
            k <= rows@.len(),
            all == ref_views(rows@),
            names == source_views(sources@),
            summaries_of(summaries@, all.subrange(0, k as int), names),
        decreases rows@.len() - k,
    {
        let row = rows[k];
        let source_id = row.source_id;
        let level = row.level;
        let ghost done = all.subrange(0, k as int);
        let ghost next = all.subrange(0, k + 1);
        let mut at: usize = 0;
        while at < summaries.len() && summaries[at].source_id.0 < source_id.0
            invariant
                at <= summaries@.len(),
                forall|i: int|
                    0 <= i < at ==> (#[trigger] summaries@[i]).source_id.0 < source_id.0,
            decreases summaries@.len() - at,
        {
            at += 1;
        }
        let ghost before = summaries@;
        if at < summaries.len() && summaries[at].source_id == source_id {
            let mut counts = summaries[at].level_counts;
            let held: usize = summaries[at].rows;
            proof {
                assert(summary_of(before[at as int], done, names));
                assert(done.len() == k);
                done.lemma_filter_len(|row: RowView| row.source_id == source_id);
                assert(counts.of(level) <= counts.sum());
            }
            counts.record(level);
            let name = share(&summaries[at].name);
            let summary = SourceSummary { source_id, name, rows: held + 1, level_counts: counts };
            summaries.set(at, summary);
            proof {
                lemma_summary_grows(before[at as int], summary, all, k as int, names);
                lemma_others_stay(before, summaries@, at as int, all, k as int, names);
            }
        } else {
            let mut counts = LevelCounts::none();
            let ghost zero = counts;
            counts.record(level);
            let name = source_name(sources, source_id);
            let summary = SourceSummary { source_id, name, rows: 1, level_counts: counts };
            proof {
                assert forall|i: int| 0 <= i < before.len() implies (
                #[trigger] before[i]).source_id != source_id by {
                    if i > at {
                        assert(before[at as int].source_id.0 < before[i].source_id.0);
                    }
                }
                lemma_no_rows_yet(before, done, names, source_id);
                let empty = SourceSummary { source_id, name, rows: 0, level_counts: zero };
                assert(summary_of(empty, done, names)) by {
                    assert forall|other: Option<LogLevel>| #[trigger] zero.of(other)
                        == rows_from_at(done, source_id, other) by {
                        lemma_no_rows_at_level(done, source_id, other);
                    }
                }
                lemma_summary_grows(empty, summary, all, k as int, names);
            }
            summaries.insert(at, summary);
            proof {
                lemma_inserted(before, summaries@, at as int, all, k as int, names);
            }
        }
        k += 1;
    }
    assert(all.subrange(0, k as int) =~= all);
    summaries
}

/// A summary that counts one row more, of its own source.
proof fn lemma_summary_grows(
    before: SourceSummary,
    after: SourceSummary,
    rows: Seq<RowView>,
    n: int,
    sources: Map<u64, SourceView>,
)
    requires
        0 <= n < rows.len(),
        summary_of(before, rows.subrange(0, n), sources),
        after.source_id == before.source_id,
        rows[n].source_id == before.source_id,
        chars_in(after.name) == chars_in(before.name) || chars_in(after.name) == name_of(
            sources,
            after.source_id,
        ),
        after.rows == before.rows + 1,
        after.level_counts.sum() == before.level_counts.sum() + 1,
        forall|level: Option<LogLevel>|
            after.level_counts.of(level) == before.level_counts.of(level) + (if level
                == rows[n].level {
                1nat
            } else {
                0nat
            }),
    ensures
        summary_of(after, rows.subrange(0, n + 1), sources),
{
    let id = after.source_id;
    lemma_filter_one_more(rows, n, |row: RowView| row.source_id == id);
    assert forall|level: Option<LogLevel>| #[trigger] after.level_counts.of(level) == rows_from_at(
        rows.subrange(0, n + 1),
        id,
        level,
    ) by {
        lemma_filter_one_more(rows, n, |row: RowView| row.source_id == id && row.level == level);
        assert(before.level_counts.of(level) == rows_from_at(rows.subrange(0, n), id, level));
    }
}

/// A summary of another source stays as it is when a row is added.
proof fn lemma_summary_stays(
    summary: SourceSummary,
    rows: Seq<RowView>,
    n: int,
    sources: Map<u64, SourceView>,
)
    requires
        0 <= n < rows.len(),
        summary_of(summary, rows.subrange(0, n), sources),
        rows[n].source_id != summary.source_id,
    ensures
        summary_of(summary, rows.subrange(0, n + 1), sources),
{
    let id = summary.source_id;
    lemma_filter_one_more(rows, n, |row: RowView| row.source_id == id);
    assert forall|level: Option<LogLevel>| #[trigger] summary.level_counts.of(level)
        == rows_from_at(rows.subrange(0, n + 1), id, level) by {
        lemma_filter_one_more(rows, n, |row: RowView| row.source_id == id && row.level == level);
        assert(summary.level_counts.of(level) == rows_from_at(rows.subrange(0, n), id, level));
    }
}

/// One summary has been replaced by one that counts the next row.
proof fn lemma_others_stay(
    before: Seq<SourceSummary>,
    after: Seq<SourceSummary>,
    at: int,
    rows: Seq<RowView>,
    n: int,
    sources: Map<u64, SourceView>,
)
    requires
        0 <= n < rows.len(),
        0 <= at < before.len(),
        summaries_of(before, rows.subrange(0, n), sources),
        after == before.update(at, after[at]),
        after.len() == before.len(),
        after[at].source_id == before[at].source_id,
        after[at].rows > 0,
        rows[n].source_id == after[at].source_id,
        summary_of(after[at], rows.subrange(0, n + 1), sources),
    ensures
        summaries_of(after, rows.subrange(0, n + 1), sources),
{
    let next = rows.subrange(0, n + 1);
    assert forall|i: int| 0 <= i < after.len() implies (#[trigger] after[i]).source_id
        == before[i].source_id && after[i].rows > 0 by {
        if i != at {
            assert(after[i] == before[i]);
        }
    }
    assert forall|i: int| 0 <= i < after.len() implies summary_of(
        #[trigger] after[i],
        next,
        sources,
    ) by {
        if i != at {
            assert(after[i] == before[i]);
            assert(summary_of(before[i], rows.subrange(0, n), sources));
            if i < at {
                assert(before[i].source_id.0 < before[at].source_id.0);
            } else {
                assert(before[at].source_id.0 < before[i].source_id.0);
            }
            lemma_summary_stays(before[i], rows, n, sources);
        }
    }
    assert forall|k: int| 0 <= k < next.len() implies exists|i: int|
        0 <= i < after.len() && (#[trigger] after[i]).source_id == (#[trigger] next[k]).source_id by {
        if k == n {
            assert(after[at].source_id == next[k].source_id);
        } else {
            assert(rows.subrange(0, n)[k] == next[k]);
            let i = choose|i: int|
                0 <= i < before.len() && (#[trigger] before[i]).source_id == rows.subrange(
                    0,
                    n,
                )[k].source_id;
            assert(after[i].source_id == next[k].source_id);
        }
    }
}

/// A summary of a new source has been put in its place.
proof fn lemma_inserted(
    before: Seq<SourceSummary>,
    after: Seq<SourceSummary>,
    at: int,
    rows: Seq<RowView>,
    n: int,
    sources: Map<u64, SourceView>,
)
    requires
        0 <= n < rows.len(),
        0 <= at <= before.len(),
        summaries_of(before, rows.subrange(0, n), sources),
        after == before.insert(at, after[at]),
        rows[n].source_id == after[at].source_id,
        after[at].rows > 0,
        summary_of(after[at], rows.subrange(0, n + 1), sources),
        forall|i: int| 0 <= i < at ==> (#[trigger] before[i]).source_id.0 < rows[n].source_id.0,
        forall|i: int| 0 <= i < before.len() ==> (#[trigger] before[i]).source_id != rows[n].source_id,
        at < before.len() ==> rows[n].source_id.0 < before[at].source_id.0,
    ensures
        summaries_of(after, rows.subrange(0, n + 1), sources),
{
    let next = rows.subrange(0, n + 1);
    assert forall|i: int| 0 <= i < after.len() implies #[trigger] after[i] == (if i < at {
        before[i]
    } else if i == at {
        after[at]
    } else {
        before[i - 1]
    }) by {}
    assert forall|i: int| at <= i < before.len() implies rows[n].source_id.0 < (
    #[trigger] before[i]).source_id.0 by {
        if i > at {
            assert(before[at].source_id.0 < before[i].source_id.0);
        }
    }
    assert forall|i: int| 0 <= i < before.len() implies summary_of(
        #[trigger] before[i],
        next,
        sources,
    ) by {
        lemma_summary_stays(before[i], rows, n, sources);
    }
    assert forall|k: int| 0 <= k < next.len() implies exists|i: int|
        0 <= i < after.len() && (#[trigger] after[i]).source_id == (#[trigger] next[k]).source_id by {
        if k == n {
            assert(after[at].source_id == next[k].source_id);
        } else {
            assert(rows.subrange(0, n)[k] == next[k]);
            let i = choose|i: int|
                0 <= i < before.len() && (#[trigger] before[i]).source_id == rows.subrange(
                    0,
                    n,
                )[k].source_id;
            if i < at {
                assert(after[i].source_id == next[k].source_id);
            } else {
                assert(after[i + 1].source_id == next[k].source_id);
            }
        }
    }
}

/// A source without a summary has no rows so far.
pub(crate) proof fn lemma_no_rows_yet(
    summaries: Seq<SourceSummary>,
    rows: Seq<RowView>,
    sources: Map<u64, SourceView>,
    source_id: SourceId,
)
    requires
        summaries_of(summaries, rows, sources),
        forall|i: int| 0 <= i < summaries.len() ==> (#[trigger] summaries[i]).source_id != source_id,
    ensures
        rows_from(rows, source_id) == 0,
        forall|k: int| 0 <= k < rows.len() ==> (#[trigger] rows[k]).source_id != source_id,
{
    let keep = |row: RowView| row.source_id == source_id;
    assert forall|k: int| 0 <= k < rows.len() implies (#[trigger] rows[k]).source_id != source_id by {
        let i = choose|i: int|
            0 <= i < summaries.len() && (#[trigger] summaries[i]).source_id == rows[k].source_id;
        assert(summaries[i].source_id != source_id);
    }
    lemma_filter_keeps_none(rows, keep);
}

/// No rows of a source, none of any severity.
proof fn lemma_no_rows_at_level(rows: Seq<RowView>, source_id: SourceId, level: Option<LogLevel>)
    requires
        forall|k: int| 0 <= k < rows.len() ==> (#[trigger] rows[k]).source_id != source_id,
    ensures
        rows_from_at(rows, source_id, level) == 0,
{
    lemma_filter_keeps_none(
        rows,
        |row: RowView| row.source_id == source_id && row.level == level,
    );
}

/// Where no row is kept, nothing is left.
proof fn lemma_filter_keeps_none(rows: Seq<RowView>, keep: spec_fn(RowView) -> bool)
    requires
        forall|k: int| 0 <= k < rows.len() ==> !keep(#[trigger] rows[k]),
    ensures
        rows.filter(keep).len() == 0,
    decreases rows.len(),
{
    reveal(Seq::filter);
    if rows.len() > 0 {
        let head = rows.drop_last();
        assert forall|k: int| 0 <= k < head.len() implies !keep(#[trigger] head[k]) by {
            assert(head[k] == rows[k]);
        }
        lemma_filter_keeps_none(head, keep);
        assert(!keep(rows[rows.len() - 1]));
    }
}

/// The rows of all summaries together.
pub open spec fn rows_in_summaries(summaries: Seq<SourceSummary>) -> nat
    decreases summaries.len(),
{
    if summaries.len() == 0 {
        0
    } else {
        rows_in_summaries(summaries.drop_last()) + summaries.last().rows as nat
    }
}

/// The source has one of the summaries.
spec fn is_summed_up(summaries: Seq<SourceSummary>, source_id: SourceId) -> bool {
    exists|i: int| 0 <= i < summaries.len() && (#[trigger] summaries[i]).source_id == source_id
}

/// The summaries of the sources count each row once.
pub proof fn law_summaries_add_up(
    summaries: Seq<SourceSummary>,
    rows: Seq<RowView>,
    sources: Map<u64, SourceView>,
)
    requires
        summaries_of(summaries, rows, sources),
    ensures
        rows_in_summaries(summaries) == rows.len(),
{
    let keep = |row: RowView| is_summed_up(summaries, row.source_id);
    lemma_summaries_count(summaries, rows);
    assert forall|k: int| 0 <= k < rows.len() implies keep(#[trigger] rows[k]) by {
        let i = choose|i: int|
            0 <= i < summaries.len() && (#[trigger] summaries[i]).source_id == rows[k].source_id;
        assert(summaries[i].source_id == rows[k].source_id);
    }
    lemma_filter_keeps_all(rows, keep);
}

/// Summaries of different sources count the rows of those sources.
proof fn lemma_summaries_count(summaries: Seq<SourceSummary>, rows: Seq<RowView>)
    requires
        forall|i: int, j: int|
            0 <= i < j < summaries.len() ==> (#[trigger] summaries[i]).source_id.0 < (
            #[trigger] summaries[j]).source_id.0,
        forall|i: int|
            0 <= i < summaries.len() ==> (#[trigger] summaries[i]).rows == rows_from(
                rows,
                summaries[i].source_id,
            ),
    ensures
        rows_in_summaries(summaries) == rows.filter(
            |row: RowView| is_summed_up(summaries, row.source_id),
        ).len(),
    decreases summaries.len(),
{
    let keep = |row: RowView| is_summed_up(summaries, row.source_id);
    if summaries.len() == 0 {
        lemma_filter_keeps_none(rows, keep);
    } else {
        let head = summaries.drop_last();
        let last = summaries.last();
        assert forall|i: int, j: int| 0 <= i < j < head.len() implies (#[trigger] head[i]).source_id.0
            < (#[trigger] head[j]).source_id.0 by {
            assert(head[i] == summaries[i] && head[j] == summaries[j]);
        }
        assert forall|i: int| 0 <= i < head.len() implies (#[trigger] head[i]).rows == rows_from(
            rows,
            head[i].source_id,
        ) by {
            assert(head[i] == summaries[i]);
        }
        lemma_summaries_count(head, rows);
        let in_head = |row: RowView| is_summed_up(head, row.source_id);
        let in_last = |row: RowView| row.source_id == last.source_id;
        assert forall|row: RowView| #[trigger] keep(row) == (in_head(row) || in_last(row)) by {
            if in_head(row) {
                let i = choose|i: int|
                    0 <= i < head.len() && (#[trigger] head[i]).source_id == row.source_id;
                assert(summaries[i].source_id == row.source_id);
            }
            if in_last(row) {
                assert(summaries[summaries.len() - 1].source_id == row.source_id);
            }
            if keep(row) {
                let i = choose|i: int|
                    0 <= i < summaries.len() && (#[trigger] summaries[i]).source_id
                        == row.source_id;
                if i < head.len() {
                    assert(head[i].source_id == row.source_id);
                }
            }
        }
        assert forall|row: RowView| !(#[trigger] in_head(row) && in_last(row)) by {
            if in_head(row) && in_last(row) {
                let i = choose|i: int|
                    0 <= i < head.len() && (#[trigger] head[i]).source_id == row.source_id;
                assert(summaries[i].source_id.0 < summaries[summaries.len() - 1].source_id.0);
            }
        }
        lemma_filter_divides(rows, keep, in_head, in_last);
        assert(last.rows == rows_from(rows, last.source_id));
    }
}

/// What passes one of two tests that exclude each other is counted by one of them.
proof fn lemma_filter_divides(
    rows: Seq<RowView>,
    either: spec_fn(RowView) -> bool,
    left: spec_fn(RowView) -> bool,
    right: spec_fn(RowView) -> bool,
)
    requires
        forall|row: RowView| #[trigger] either(row) == (left(row) || right(row)),
        forall|row: RowView| !(#[trigger] left(row) && right(row)),
    ensures
        rows.filter(either).len() == rows.filter(left).len() + rows.filter(right).len(),
    decreases rows.len(),
{
    reveal(Seq::filter);
    if rows.len() > 0 {
        lemma_filter_divides(rows.drop_last(), either, left, right);
        let row = rows.last();
        assert(either(row) == (left(row) || right(row)));
        assert(!(left(row) && right(row)));
    }
}

/// Where every row is kept, all are left.
proof fn lemma_filter_keeps_all(rows: Seq<RowView>, keep: spec_fn(RowView) -> bool)
    requires
        forall|k: int| 0 <= k < rows.len() ==> keep(#[trigger] rows[k]),
    ensures
        rows.filter(keep).len() == rows.len(),
    decreases rows.len(),
{
    reveal(Seq::filter);
    if rows.len() > 0 {
        let head = rows.drop_last();
        assert forall|k: int| 0 <= k < head.len() implies keep(#[trigger] head[k]) by {
            assert(head[k] == rows[k]);
        }
        lemma_filter_keeps_all(head, keep);
        assert(keep(rows[rows.len() - 1]));
    }
}

} // verus!
