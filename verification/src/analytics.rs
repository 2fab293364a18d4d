//! What a timeline tells beyond its bars: how many rows have a timestamp, where warnings and
//! errors peak, and what each bucket is made of.
use crate::index::ref_views;
use crate::model::{LevelCounts, LogLevel, LogRow, RowView, SourceId, SourceInfo};
use crate::summary::{level_counts, rows_at, rows_from, source_summaries, source_views, summary_of};
use crate::timeline::{
    ruler, scale_of, stamped, timeline_of, Ruler, Scale, TIMELINE_BUCKETS,
};
use crate::viewport::Engine;
use std::collections::BTreeMap;
use vstd::prelude::*;

verus! {

/// What a bucket is made of.
#[derive(Debug, Clone, Copy, PartialEq, Eq, Structural)]
pub struct BucketDetail {
    pub level_counts: LevelCounts,
    /// The source with the most rows; the one with the lowest number of several.
    pub dominant_source: SourceId,
}

/// What a timeline tells beyond its bars. Its buckets are those of the timeline, one for one.
#[derive(Debug)]
pub struct TimelineAnalytics {
    pub stamped_rows: usize,
    pub unstamped_rows: usize,
    pub peak_warn: usize,
    pub peak_error: usize,
    pub buckets: Vec<BucketDetail>,
}

/// The rows of bucket `k`.
pub open spec fn rows_in_bucket(rows: Seq<RowView>, scale: Scale, k: int) -> Seq<RowView> {
    rows.filter(|row: RowView| scale.holds(row, k))
}

/// No source has more rows than this one, and none with a lower number has as many.
pub open spec fn is_dominant(rows: Seq<RowView>, source_id: SourceId) -> bool {
    &&& rows_from(rows, source_id) > 0
    &&& forall|other: SourceId| #[trigger]
        rows_from(rows, other) < rows_from(rows, source_id) || (rows_from(rows, other) == rows_from(
            rows,
            source_id,
        ) && source_id.0 <= other.0)
}

/// The detail tells of these rows.
pub open spec fn detail_of(detail: BucketDetail, rows: Seq<RowView>) -> bool {
    &&& forall|level: Option<LogLevel>| #[trigger]
        detail.level_counts.of(level) == rows_at(rows, level)
    &&& is_dominant(rows, detail.dominant_source)
}

/// The buckets below `n` that hold rows.
pub open spec fn full_buckets(rows: Seq<RowView>, scale: Scale, n: int) -> Seq<int>
    decreases n,
{
    if n <= 0 {
        Seq::empty()
    } else if rows_in_bucket(rows, scale, n - 1).len() > 0 {
        full_buckets(rows, scale, n - 1).push(n - 1)
    } else {
        full_buckets(rows, scale, n - 1)
    }
}

/// How many of the rows are warnings.
pub open spec fn warnings(rows: Seq<RowView>) -> nat {
    rows_at(rows, Some(LogLevel::Warn))
}

/// How many of the rows are errors.
pub open spec fn errors(rows: Seq<RowView>) -> nat {
    rows_at(rows, Some(LogLevel::Error)) + rows_at(rows, Some(LogLevel::Fatal))
}

/// The greatest number of warnings in a bucket below `n`.
pub open spec fn warn_peak(rows: Seq<RowView>, scale: Scale, n: int) -> nat
    decreases n,
{
    if n <= 0 {
        0
    } else {
        let here = warnings(rows_in_bucket(rows, scale, n - 1));
        let before = warn_peak(rows, scale, n - 1);
        if here > before {
            here
        } else {
            before
        }
    }
}

/// The greatest number of errors in a bucket below `n`.
pub open spec fn error_peak(rows: Seq<RowView>, scale: Scale, n: int) -> nat
    decreases n,
{
    if n <= 0 {
        0
    } else {
        let here = errors(rows_in_bucket(rows, scale, n - 1));
        let before = error_peak(rows, scale, n - 1);
        if here > before {
            here
        } else {
            before
        }
    }
}

/// The details tell of these buckets, one for one.
pub open spec fn details_of(
    details: Seq<BucketDetail>,
    rows: Seq<RowView>,
    scale: Scale,
    buckets: Seq<int>,
) -> bool {
    &&& details.len() == buckets.len()
    &&& forall|i: int|
        0 <= i < details.len() ==> detail_of(
            #[trigger] details[i],
            rows_in_bucket(rows, scale, buckets[i]),
        )
}

/// The analytics tell of these rows.
pub open spec fn analytics_of(
    analytics: TimelineAnalytics,
    rows: Seq<RowView>,
    max_buckets: int,
) -> bool {
    &&& analytics.stamped_rows == stamped(rows)
    &&& analytics.stamped_rows + analytics.unstamped_rows == rows.len()
    &&& match scale_of(rows, max_buckets) {
        Some(scale) => {
            &&& analytics.peak_warn == warn_peak(rows, scale, scale.count)
            &&& analytics.peak_error == error_peak(rows, scale, scale.count)
            &&& details_of(
                analytics.buckets@,
                rows,
                scale,
                full_buckets(rows, scale, scale.count),
            )
        },
        None => {
            &&& analytics.peak_warn == 0
            &&& analytics.peak_error == 0
            &&& analytics.buckets@.len() == 0
        },
    }
}

/// The source with the most rows.
fn dominant_source(rows: &Vec<&LogRow>) -> (r: SourceId)
    requires
        rows@.len() > 0,
    ensures
        is_dominant(ref_views(rows@), r),
{
    let ghost all = ref_views(rows@);
    let none: BTreeMap<u64, SourceInfo> = BTreeMap::new();
    let ghost names = source_views(none@);
    let summaries = source_summaries(&none, rows);
    proof {
        assert(all[0].source_id == all[0].source_id);
        let i = choose|i: int|
            0 <= i < summaries@.len() && (#[trigger] summaries@[i]).source_id == all[0].source_id;
        assert(summaries@.len() > 0);
    }
    let mut best: usize = 0;
    let mut i: usize = 1;
    while i < summaries.len()
        invariant
            1 <= i <= summaries@.len(),
            best < i,
            forall|k: int|
                0 <= k < i ==> (#[trigger] summaries@[k]).rows < summaries@[best as int].rows || (
                summaries@[k].rows == summaries@[best as int].rows && best <= k),
        decreases summaries@.len() - i,
    {
        if summaries[i].rows > summaries[best].rows {
            best = i;
        }
        i += 1;
    }
    let winner = summaries[best].source_id;
    proof {
        assert(summary_of(summaries@[best as int], all, names));
        assert forall|other: SourceId| #[trigger] rows_from(all, other) < rows_from(all, winner) || (
        rows_from(all, other) == rows_from(all, winner) && winner.0 <= other.0) by {
            if exists|k: int| 0 <= k < summaries@.len() && (#[trigger] summaries@[k]).source_id
                == other {
                let k = choose|k: int|
                    0 <= k < summaries@.len() && (#[trigger] summaries@[k]).source_id == other;
                assert(summary_of(summaries@[k], all, names));
                if best < k {
                    assert(summaries@[best as int].source_id.0 < summaries@[k].source_id.0);
                }
            } else {
                crate::summary::lemma_no_rows_yet(summaries@, all, names, other);
            }
        }
    }
    winner
}

/// The rows of bucket `k`.
fn bucket_rows<'a>(ruler: &Ruler, rows: &Vec<&'a LogRow>, k: usize) -> (r: Vec<&'a LogRow>)
    requires
        ruler.count >= 1,
        ruler.step >= 1,
    ensures
        ref_views(r@) == rows_in_bucket(ref_views(rows@), ruler.scale(), k as int),
{
    let ghost all = ref_views(rows@);
    let ghost keep = |row: RowView| ruler.scale().holds(row, k as int);
    let mut out: Vec<&'a LogRow> = Vec::new();
    let mut i: usize = 0;
    proof {
        reveal(Seq::filter);
        assert(ref_views(out@) =~= all.subrange(0, 0).filter(keep));
    }
    while i < rows.len()
        invariant
            i <= rows@.len(),
            ruler.count >= 1,
            ruler.step >= 1,
            all == ref_views(rows@),
            keep == (|row: RowView| ruler.scale().holds(row, k as int)),
            ref_views(out@) == all.subrange(0, i as int).filter(keep),
        decreases rows@.len() - i,
    {
        let row = rows[i];
        let ghost done = ref_views(out@);
        proof {
            assert(all[i as int] == row@);
            assert(all.subrange(0, i + 1) =~= all.subrange(0, i as int).push(row@));
            all.subrange(0, i as int).lemma_filter_push(row@, keep);
        }
        let held: bool = match row.timestamp {
            Some(time) => ruler.bucket_of(time) == k,
            None => false,
        };
        if held {
            out.push(row);
            assert(ref_views(out@) =~= done.push(row@));
        }
        i += 1;
    }
    assert(all.subrange(0, i as int) =~= all);
    out
}

/// Counts the rows that have a timestamp.
fn count_stamped(rows: &Vec<&LogRow>) -> (r: usize)
    ensures
        r == stamped(ref_views(rows@)),
        r <= rows@.len(),
{
    let ghost all = ref_views(rows@);
    let mut count: usize = 0;
    let mut i: usize = 0;
    proof {
        reveal(Seq::filter);
        assert(all.subrange(0, 0).len() == 0);
    }
    while i < rows.len()
        invariant
            i <= rows@.len(),
            count <= i,
            all == ref_views(rows@),
            count == stamped(all.subrange(0, i as int)),
        decreases rows@.len() - i,
    {
        proof {
            assert(all.subrange(0, i + 1) =~= all.subrange(0, i as int).push(all[i as int]));
            all.subrange(0, i as int).lemma_filter_len_push(
                |row: RowView| row.timestamp is Some,
                all[i as int],
            );
        }
        if rows[i].timestamp.is_some() {
            count += 1;
        }
        i += 1;
    }
    assert(all.subrange(0, i as int) =~= all);
    count
}

/// What a timeline of at most `max_buckets` buckets tells beyond its bars.
pub fn analyse(rows: &Vec<&LogRow>, max_buckets: usize) -> (r: TimelineAnalytics)
    requires
        max_buckets <= i64::MAX,
    ensures
        analytics_of(r, ref_views(rows@), max_buckets as int),
{
    let ghost all = ref_views(rows@);
    let stamped_rows: usize = count_stamped(rows);
    let unstamped_rows: usize = rows.len() - stamped_rows;
    let mut peak_warn: usize = 0;
    let mut peak_error: usize = 0;
    let mut buckets: Vec<BucketDetail> = Vec::new();
    if let Some(found) = ruler(rows, max_buckets) {
        let ghost scale = found.scale();
        let mut k: usize = 0;
        while k < found.count
            invariant
                k <= found.count,
                found.count >= 1,
                found.step >= 1,
                all == ref_views(rows@),
                scale == found.scale(),
                peak_warn == warn_peak(all, scale, k as int),
                peak_error == error_peak(all, scale, k as int),
                details_of(buckets@, all, scale, full_buckets(all, scale, k as int)),
            decreases found.count - k,
        {
            let held = bucket_rows(&found, rows, k);
            let counts = level_counts(&held);
            let ghost inside = rows_in_bucket(all, scale, k as int);
            let ghost before = buckets@;
            assert(counts.of(Some(LogLevel::Warn)) == warnings(inside));
            assert(counts.of(Some(LogLevel::Error)) == rows_at(inside, Some(LogLevel::Error)));
            assert(counts.of(Some(LogLevel::Fatal)) == rows_at(inside, Some(LogLevel::Fatal)));
            assert(counts.sum() == held.len());
            let wrong: usize = counts.error + counts.fatal;
            if counts.warn > peak_warn {
                peak_warn = counts.warn;
            }
            if wrong > peak_error {
                peak_error = wrong;
            }
            assert(ref_views(held@).len() == held@.len());
            if held.len() > 0 {
                let dominant = dominant_source(&held);
                buckets.push(BucketDetail { level_counts: counts, dominant_source: dominant });
                proof {
                    let full = full_buckets(all, scale, k + 1);
                    assert forall|i: int| 0 <= i < buckets@.len() implies detail_of(
                        #[trigger] buckets@[i],
                        rows_in_bucket(all, scale, full[i]),
                    ) by {
                        if i < before.len() {
                            assert(buckets@[i] == before[i]);
                        }
                    }
                }
            }
            k += 1;
        }
    }
    TimelineAnalytics { stamped_rows, unstamped_rows, peak_warn, peak_error, buckets }
}

impl Engine {
    /// What the timeline of the listed rows tells beyond its bars.
    pub fn timeline_analytics(&self) -> (r: TimelineAnalytics)
        requires
            self.wf(),
        ensures
            analytics_of(r, self@.listed(), TIMELINE_BUCKETS as int),
    {
        let rows = self.filtered_rows();
        analyse(&rows, TIMELINE_BUCKETS)
    }
}

/// A bucket is full exactly where the timeline has a bar for it.
pub proof fn law_details_go_with_bars(rows: Seq<RowView>, scale: Scale, n: int)
    requires
        0 <= n <= scale.count,
    ensures
        ({
            let bars = Seq::new(n as nat, |k: int| scale.bucket(rows, k)).filter(
                |bucket: crate::timeline::BucketView| bucket.total > 0,
            );
            let full = full_buckets(rows, scale, n);
            &&& bars.len() == full.len()
            &&& forall|i: int|
                0 <= i < full.len() ==> #[trigger] bars[i] == scale.bucket(rows, full[i])
        }),
    decreases n,
{
    reveal(Seq::filter);
    let keep = |bucket: crate::timeline::BucketView| bucket.total > 0;
    let all = Seq::new(n as nat, |k: int| scale.bucket(rows, k));
    if n > 0 {
        law_details_go_with_bars(rows, scale, n - 1);
        let before = Seq::new((n - 1) as nat, |k: int| scale.bucket(rows, k));
        assert(all.drop_last() =~= before);
        assert(all.last() == scale.bucket(rows, n - 1));
        let bars = all.filter(keep);
        let full = full_buckets(rows, scale, n);
        assert(scale.bucket(rows, n - 1).total == rows_in_bucket(rows, scale, n - 1).len());
        assert forall|i: int| 0 <= i < full.len() implies #[trigger] bars[i] == scale.bucket(
            rows,
            full[i],
        ) by {
            if i < full_buckets(rows, scale, n - 1).len() {
                assert(before.filter(keep)[i] == scale.bucket(
                    rows,
                    full_buckets(rows, scale, n - 1)[i],
                ));
            }
        }
    }
}

/// The analytics go with the bars of the timeline: one detail for each bar, whose counts add up to
/// the rows of the bar with its warnings and errors, and whose source has the most of them. The
/// peaks are the greatest numbers of warnings and of errors of a bar. Rows are counted with and
/// without a timestamp.
pub proof fn law_analytics_go_with_the_timeline(
    analytics: TimelineAnalytics,
    rows: Seq<RowView>,
    max_buckets: int,
    k: int,
)
    requires
        analytics_of(analytics, rows, max_buckets),
    ensures
        ({
            let bars = timeline_of(rows, max_buckets);
            &&& analytics.stamped_rows == rows.filter(
                |row: RowView| row.timestamp is Some,
            ).len()
            &&& analytics.stamped_rows + analytics.unstamped_rows == rows.len()
            &&& analytics.buckets@.len() == bars.len()
            &&& 0 <= k < bars.len() ==> {
                &&& bars[k].warn <= analytics.peak_warn
                &&& bars[k].error <= analytics.peak_error
                &&& analytics.buckets@[k].level_counts.warn == bars[k].warn
                &&& analytics.buckets@[k].level_counts.error
                    + analytics.buckets@[k].level_counts.fatal == bars[k].error
            }
            &&& analytics.peak_warn > 0 ==> exists|i: int|
                0 <= i < bars.len() && (#[trigger] bars[i]).warn == analytics.peak_warn
            &&& analytics.peak_error > 0 ==> exists|i: int|
                0 <= i < bars.len() && (#[trigger] bars[i]).error == analytics.peak_error
        }),
{
    let bars = timeline_of(rows, max_buckets);
    if let Some(scale) = scale_of(rows, max_buckets) {
        law_details_go_with_bars(rows, scale, scale.count);
        let full = full_buckets(rows, scale, scale.count);
        assert(scale.buckets(rows) =~= Seq::new(
            scale.count as nat,
            |m: int| scale.bucket(rows, m),
        ));
        if 0 <= k < bars.len() {
            let m = full[k];
            lemma_full_bucket(rows, scale, scale.count, k);
            lemma_peaks(rows, scale, scale.count, m);
            lemma_levels_in_bucket(rows, scale, m);
            let detail = analytics.buckets@[k];
            let inside = rows_in_bucket(rows, scale, m);
            assert(bars[k] == scale.bucket(rows, m));
            assert(detail_of(detail, inside));
            assert(detail.level_counts.of(Some(LogLevel::Warn)) == rows_at(
                inside,
                Some(LogLevel::Warn),
            ));
            assert(detail.level_counts.of(Some(LogLevel::Error)) == rows_at(
                inside,
                Some(LogLevel::Error),
            ));
            assert(detail.level_counts.of(Some(LogLevel::Fatal)) == rows_at(
                inside,
                Some(LogLevel::Fatal),
            ));
        }
        if analytics.peak_warn > 0 {
            let m = lemma_warn_peak_is_reached(rows, scale, scale.count);
            lemma_levels_in_bucket(rows, scale, m);
            let i = lemma_bar_of_bucket(rows, scale, scale.count, m);
            assert(bars[i] == scale.bucket(rows, m));
        }
        if analytics.peak_error > 0 {
            let m = lemma_error_peak_is_reached(rows, scale, scale.count);
            lemma_levels_in_bucket(rows, scale, m);
            let i = lemma_bar_of_bucket(rows, scale, scale.count, m);
            assert(bars[i] == scale.bucket(rows, m));
        }
    }
}

/// A bucket that is full is one of the scale.
proof fn lemma_full_bucket(rows: Seq<RowView>, scale: Scale, n: int, k: int)
    requires
        0 <= k < full_buckets(rows, scale, n).len(),
    ensures
        0 <= full_buckets(rows, scale, n)[k] < n,
    decreases n,
{
    if n > 0 {
        if k < full_buckets(rows, scale, n - 1).len() {
            lemma_full_bucket(rows, scale, n - 1, k);
        }
    }
}

/// A bucket with rows is among the full ones.
proof fn lemma_bar_of_bucket(rows: Seq<RowView>, scale: Scale, n: int, m: int) -> (i: int)
    requires
        0 <= m < n,
        rows_in_bucket(rows, scale, m).len() > 0,
    ensures
        0 <= i < full_buckets(rows, scale, n).len(),
        full_buckets(rows, scale, n)[i] == m,
    decreases n,
{
    if m == n - 1 {
        full_buckets(rows, scale, n).len() - 1
    } else {
        lemma_bar_of_bucket(rows, scale, n - 1, m)
    }
}

/// No bucket exceeds the peaks.
proof fn lemma_peaks(rows: Seq<RowView>, scale: Scale, n: int, m: int)
    requires
        0 <= m < n,
    ensures
        warnings(rows_in_bucket(rows, scale, m)) <= warn_peak(rows, scale, n),
        errors(rows_in_bucket(rows, scale, m)) <= error_peak(rows, scale, n),
    decreases n,
{
    if m < n - 1 {
        lemma_peaks(rows, scale, n - 1, m);
    }
}

/// Some bucket has as many warnings as the peak.
proof fn lemma_warn_peak_is_reached(rows: Seq<RowView>, scale: Scale, n: int) -> (m: int)
    requires
        warn_peak(rows, scale, n) > 0,
    ensures
        0 <= m < n,
        warnings(rows_in_bucket(rows, scale, m)) == warn_peak(rows, scale, n),
        rows_in_bucket(rows, scale, m).len() > 0,
    decreases n,
{
    let inside = rows_in_bucket(rows, scale, n - 1);
    let here = warnings(inside);
    inside.lemma_filter_len(|row: RowView| row.level == Some(LogLevel::Warn));
    if here > warn_peak(rows, scale, n - 1) {
        n - 1
    } else {
        lemma_warn_peak_is_reached(rows, scale, n - 1)
    }
}

/// Some bucket has as many errors as the peak.
proof fn lemma_error_peak_is_reached(rows: Seq<RowView>, scale: Scale, n: int) -> (m: int)
    requires
        error_peak(rows, scale, n) > 0,
    ensures
        0 <= m < n,
        errors(rows_in_bucket(rows, scale, m)) == error_peak(rows, scale, n),
        rows_in_bucket(rows, scale, m).len() > 0,
    decreases n,
{
    let inside = rows_in_bucket(rows, scale, n - 1);
    let here = errors(inside);
    inside.lemma_filter_len(|row: RowView| row.level == Some(LogLevel::Error));
    inside.lemma_filter_len(|row: RowView| row.level == Some(LogLevel::Fatal));
    if here > error_peak(rows, scale, n - 1) {
        n - 1
    } else {
        lemma_error_peak_is_reached(rows, scale, n - 1)
    }
}

/// The warnings and errors of a bucket, counted in the bucket or in all rows.
proof fn lemma_levels_in_bucket(rows: Seq<RowView>, scale: Scale, m: int)
    ensures
        warnings(rows_in_bucket(rows, scale, m)) == scale.bucket(rows, m).warn,
        errors(rows_in_bucket(rows, scale, m)) == scale.bucket(rows, m).error,
    decreases rows.len(),
{
    reveal(Seq::filter);
    if rows.len() > 0 {
        let head = rows.drop_last();
        let row = rows.last();
        lemma_levels_in_bucket(head, scale, m);
        let before = rows_in_bucket(head, scale, m);
        if scale.holds(row, m) {
            assert(rows_in_bucket(rows, scale, m) == before.push(row));
            assert(before.push(row).drop_last() =~= before);
        } else {
            assert(rows_in_bucket(rows, scale, m) == before);
        }
    }
}

/// The dominant source of some rows has the most of them, and of several with as many it has the
/// lowest number.
pub proof fn law_dominant_source(rows: Seq<RowView>, source_id: SourceId, other: SourceId)
    requires
        is_dominant(rows, source_id),
    ensures
        ({
            let own = rows.filter(|row: RowView| row.source_id == source_id).len();
            let theirs = rows.filter(|row: RowView| row.source_id == other).len();
            &&& own > 0
            &&& theirs <= own
            &&& theirs == own ==> source_id.0 <= other.0
        }),
{
    assert(rows_from(rows, other) <= rows_from(rows, source_id));
}

} // verus!
