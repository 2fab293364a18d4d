//! The distribution of rows over time.
use crate::index::ref_views;
use crate::model::{LogLevel, LogRow, RowView, TimelineBucket};
use crate::time::{
    millis_between, parts_after, representable, Timestamp, MAX_SECS,
};
use vstd::prelude::*;

verus! {

/// How many buckets a timeline has at most.
pub const TIMELINE_BUCKETS: usize = 24;

/// A bucket as a value of mathematics; points in time are seconds and nanoseconds.
pub ghost struct BucketView {
    pub start: (int, int),
    pub end: (int, int),
    pub total: nat,
    pub warn: nat,
    pub error: nat,
}

impl View for TimelineBucket {
    type V = BucketView;

    open spec fn view(&self) -> BucketView {
        BucketView {
            start: (self.start.secs() as int, self.start.nanos() as int),
            end: (self.end.secs() as int, self.end.nanos() as int),
            total: self.total as nat,
            warn: self.warn as nat,
            error: self.error as nat,
        }
    }
}

/// The buckets of a list.
pub open spec fn bucket_views(buckets: Seq<TimelineBucket>) -> Seq<BucketView> {
    buckets.map_values(|bucket: TimelineBucket| bucket@)
}

/// The earliest timestamp of the rows.
pub open spec fn earliest(rows: Seq<RowView>) -> Option<Timestamp>
    decreases rows.len(),
{
    if rows.len() == 0 {
        None
    } else {
        match (rows.last().timestamp, earliest(rows.drop_last())) {
            (Some(time), Some(found)) => if time.is_before(found) {
                Some(time)
            } else {
                Some(found)
            },
            (None, found) => found,
            (time, None) => time,
        }
    }
}

/// The latest timestamp of the rows.
pub open spec fn latest(rows: Seq<RowView>) -> Option<Timestamp>
    decreases rows.len(),
{
    if rows.len() == 0 {
        None
    } else {
        match (rows.last().timestamp, latest(rows.drop_last())) {
            (Some(time), Some(found)) => if found.is_before(time) {
                Some(time)
            } else {
                Some(found)
            },
            (None, found) => found,
            (time, None) => time,
        }
    }
}

/// How many rows have a timestamp.
pub open spec fn stamped(rows: Seq<RowView>) -> nat {
    rows.filter(|row: RowView| row.timestamp is Some).len()
}

/// Where buckets lie: `count` of them, each `step` milliseconds long, from `first` on.
pub ghost struct Scale {
    pub first: Timestamp,
    pub count: int,
    pub step: int,
}

/// As many buckets as rows with a timestamp, but no more than `max_buckets`, share the time from
/// the earliest to the latest timestamp evenly, in whole milliseconds and at least one.
pub open spec fn scale_of(rows: Seq<RowView>, max_buckets: int) -> Option<Scale> {
    match (earliest(rows), latest(rows)) {
        (Some(first), Some(last)) => {
            let most = if max_buckets < stamped(rows) {
                max_buckets
            } else {
                stamped(rows) as int
            };
            let count = if most < 1 {
                1
            } else {
                most
            };
            let span = if millis_between(last, first) < 1 {
                1
            } else {
                millis_between(last, first)
            };
            let step = if span / count < 1 {
                1
            } else {
                span / count
            };
            Some(Scale { first, count, step })
        },
        _ => None,
    }
}

impl Scale {
    /// The bucket that a point in time falls into. The last one takes what lies beyond its end.
    pub open spec fn bucket_of(self, time: Timestamp) -> int {
        let offset = if millis_between(time, self.first) < 0 {
            0
        } else {
            millis_between(time, self.first)
        };
        if offset / self.step < self.count - 1 {
            offset / self.step
        } else {
            self.count - 1
        }
    }

    /// The row has a timestamp that falls into bucket `k`.
    pub open spec fn holds(self, row: RowView, k: int) -> bool {
        match row.timestamp {
            Some(time) => self.bucket_of(time) == k,
            None => false,
        }
    }

    /// The start of bucket `k`.
    pub open spec fn start_of(self, k: int) -> (int, int) {
        parts_after(self.first.secs() as int, self.first.nanos() as int, k * self.step)
    }

    /// The end of bucket `k`: one step after its start.
    pub open spec fn end_of(self, k: int) -> (int, int) {
        parts_after(self.start_of(k).0, self.start_of(k).1, self.step)
    }

    /// Bucket `k` over the rows.
    pub open spec fn bucket(self, rows: Seq<RowView>, k: int) -> BucketView {
        BucketView {
            start: self.start_of(k),
            end: self.end_of(k),
            total: rows.filter(|row: RowView| self.holds(row, k)).len(),
            warn: rows.filter(
                |row: RowView| self.holds(row, k) && row.level == Some(LogLevel::Warn),
            ).len(),
            error: rows.filter(|row: RowView| self.holds(row, k) && is_error(row.level)).len(),
        }
    }

    /// All buckets over the rows.
    pub open spec fn buckets(self, rows: Seq<RowView>) -> Seq<BucketView> {
        Seq::new(self.count as nat, |k: int| self.bucket(rows, k))
    }
}

/// The severity is `Error` or `Fatal`.
pub open spec fn is_error(level: Option<LogLevel>) -> bool {
    level == Some(LogLevel::Error) || level == Some(LogLevel::Fatal)
}

/// The buckets that hold rows, in order of time.
pub open spec fn timeline_of(rows: Seq<RowView>, max_buckets: int) -> Seq<BucketView> {
    match scale_of(rows, max_buckets) {
        Some(scale) => scale.buckets(rows).filter(|bucket: BucketView| bucket.total > 0),
        None => Seq::empty(),
    }
}

/// The last bucket ends at a point in time that can be named.
pub open spec fn timeline_fits(rows: Seq<RowView>, max_buckets: int) -> bool {
    match scale_of(rows, max_buckets) {
        Some(scale) => scale.end_of(scale.count - 1).0 <= MAX_SECS,
        None => true,
    }
}

/// Two steps in time are one step of both lengths.
pub proof fn law_steps_in_time_add_up(secs: int, nanos: int, a: int, b: int)
    requires
        0 <= nanos < 2_000_000_000,
        0 <= a,
        0 <= b,
    ensures
        parts_after(parts_after(secs, nanos, a).0, parts_after(secs, nanos, a).1, b) == parts_after(
            secs,
            nanos,
            a + b,
        ),
{
}

/// A longer step ends no earlier.
proof fn lemma_longer_step_ends_later(secs: int, nanos: int, a: int, b: int)
    requires
        0 <= nanos < 2_000_000_000,
        0 <= a <= b,
    ensures
        parts_after(secs, nanos, a).0 <= parts_after(secs, nanos, b).0,
        secs <= parts_after(secs, nanos, a).0,
{
}

/// Every bucket starts and ends no later than the last one ends.
proof fn lemma_buckets_end_in_time(scale: Scale, k: int)
    requires
        0 <= k < scale.count,
        1 <= scale.step,
        0 <= scale.first.nanos() < 2_000_000_000,
    ensures
        scale.start_of(k).0 <= scale.end_of(scale.count - 1).0,
        scale.end_of(k).0 <= scale.end_of(scale.count - 1).0,
        0 <= k * scale.step,
        k * scale.step <= (scale.end_of(scale.count - 1).0 - scale.first.secs() + 2) * 1_000,
{
    let secs = scale.first.secs() as int;
    let nanos = scale.first.nanos() as int;
    let last = scale.count - 1;
    assert(0 <= k * scale.step <= last * scale.step) by (nonlinear_arith)
        requires
            0 <= k <= last,
            1 <= scale.step,
    ;
    law_steps_in_time_add_up(secs, nanos, k * scale.step, scale.step);
    law_steps_in_time_add_up(secs, nanos, last * scale.step, scale.step);
    lemma_longer_step_ends_later(secs, nanos, k * scale.step, last * scale.step + scale.step);
    assert(k * scale.step * 1_000_000 <= (scale.start_of(k).0 - secs + 2) * 1_000_000_000);
    lemma_longer_step_ends_later(
        secs,
        nanos,
        k * scale.step + scale.step,
        last * scale.step + scale.step,
    );
}

/// The earlier of a timestamp and one found before.
fn earlier_of(time: Timestamp, found: Option<Timestamp>) -> (r: Option<Timestamp>)
    ensures
        r == match found {
            Some(old) => if time.is_before(old) {
                Some(time)
            } else {
                Some(old)
            },
            None => Some(time),
        },
{
    match found {
        Some(old) => if time.before(&old) {
            Some(time)
        } else {
            Some(old)
        },
        None => Some(time),
    }
}

/// The later of a timestamp and one found before.
fn later_of(time: Timestamp, found: Option<Timestamp>) -> (r: Option<Timestamp>)
    ensures
        r == match found {
            Some(old) => if old.is_before(time) {
                Some(time)
            } else {
                Some(old)
            },
            None => Some(time),
        },
{
    match found {
        Some(old) => if old.before(&time) {
            Some(time)
        } else {
            Some(old)
        },
        None => Some(time),
    }
}

/// The scale of a timeline as machine numbers.
pub(crate) struct Ruler {
    pub(crate) first: Timestamp,
    pub(crate) count: usize,
    pub(crate) step: i64,
}

impl Ruler {
    /// The scale as a value of mathematics.
    pub(crate) open spec fn scale(self) -> Scale {
        Scale { first: self.first, count: self.count as int, step: self.step as int }
    }

    /// The bucket that a point in time falls into.
    pub(crate) fn bucket_of(&self, time: Timestamp) -> (r: usize)
        requires
            self.count >= 1,
            self.step >= 1,
        ensures
            r == self.scale().bucket_of(time),
            r < self.count,
    {
        let millis: i64 = time.millis_since(&self.first);
        let offset: u64 = if millis < 0 {
            0
        } else {
            millis as u64
        };
        let index: u64 = offset / (self.step as u64);
        proof {
            let o = offset as int;
            let s = self.step as int;
            assert(o / s <= o) by (nonlinear_arith)
                requires
                    0 <= o,
                    1 <= s,
            ;
            assert(0 <= o / s) by (nonlinear_arith)
                requires
                    0 <= o,
                    1 <= s,
            ;
        }
        if index < (self.count - 1) as u64 {
            index as usize
        } else {
            self.count - 1
        }
    }
}

/// Finds the scale of a timeline.
pub(crate) fn ruler(rows: &Vec<&LogRow>, max_buckets: usize) -> (r: Option<Ruler>)
    requires
        max_buckets <= i64::MAX,
    ensures
        match r {
            Some(ruler) => {
                &&& scale_of(ref_views(rows@), max_buckets as int) == Some(ruler.scale())
                &&& ruler.count >= 1
                &&& ruler.step >= 1
                &&& ruler.count * ruler.step <= i64::MAX
                &&& representable(ruler.first.secs() as int, ruler.first.nanos() as int)
            },
            None => scale_of(ref_views(rows@), max_buckets as int) is None,
        },
{
    let ghost all = ref_views(rows@);
    let mut first: Option<Timestamp> = None;
    let mut last: Option<Timestamp> = None;
    let mut count: usize = 0;
    let mut i: usize = 0;
    proof {
        reveal(Seq::filter);
        assert(all.subrange(0, 0).len() == 0);
    }
    while i < rows.len()
        invariant
            i <= rows@.len(),
            count <= i,
            all == ref_views(rows@),
            first == earliest(all.subrange(0, i as int)),
            last == latest(all.subrange(0, i as int)),
            first is Some == last is Some,
            count == stamped(all.subrange(0, i as int)),
        decreases rows@.len() - i,
    {
        let stamp = rows[i].timestamp;
        proof {
            let next = all.subrange(0, i + 1);
            assert(next.last() == all[i as int]);
            assert(next.drop_last() =~= all.subrange(0, i as int));
            assert(next =~= all.subrange(0, i as int).push(all[i as int]));
            all.subrange(0, i as int).lemma_filter_len_push(
                |row: RowView| row.timestamp is Some,
                all[i as int],
            );
        }
        if let Some(time) = stamp {
            first = earlier_of(time, first);
            last = later_of(time, last);
            count += 1;
        }
        i += 1;
    }
    assert(all.subrange(0, i as int) =~= all);
    match (first, last) {
        (Some(first), Some(last)) => {
            let most: usize = if max_buckets < count {
                max_buckets
            } else {
                count
            };
            let buckets: usize = if most < 1 {
                1
            } else {
                most
            };
            let millis: i64 = last.millis_since(&first);
            let span: i64 = if millis < 1 {
                1
            } else {
                millis
            };
            let share: i64 = span / (buckets as i64);
            let step: i64 = if share < 1 {
                1
            } else {
                share
            };
            proof {
                let n = buckets as int;
                let all_millis = span as int;
                assert(n * (all_millis / n) <= all_millis) by (nonlinear_arith)
                    requires
                        1 <= n,
                        1 <= all_millis,
                ;
            }
            Some(Ruler { first, count: buckets, step })
        },
        _ => None,
    }
}

/// The distribution of the rows over time, in at most `max_buckets` buckets.
pub fn timeline(rows: &Vec<&LogRow>, max_buckets: usize) -> (r: Vec<TimelineBucket>)
    requires
        max_buckets <= i64::MAX,
        timeline_fits(ref_views(rows@), max_buckets as int),
    ensures
        bucket_views(r@) == timeline_of(ref_views(rows@), max_buckets as int),
{
    match ruler(rows, max_buckets) {
        None => {
            let none: Vec<TimelineBucket> = Vec::new();
            assert(bucket_views(none@) =~= Seq::<BucketView>::empty());
            none
        },
        Some(ruler) => {
            let mut buckets = empty_buckets(&ruler, Ghost(ref_views(rows@)));
            fill_buckets(&ruler, rows, &mut buckets);
            drop_empty(&buckets)
        },
    }
}

/// Whether the last bucket of the timeline ends at a point in time that can be named.
pub fn fits_timeline(rows: &Vec<&LogRow>, max_buckets: usize) -> (r: bool)
    requires
        max_buckets <= i64::MAX,
    ensures
        r == timeline_fits(ref_views(rows@), max_buckets as int),
{
    match ruler(rows, max_buckets) {
        None => true,
        Some(ruler) => {
            let secs: i64 = ruler.first.seconds();
            let nanos: u32 = ruler.first.subsec_nanos();
            let ghost count = ruler.count as int;
            let ghost step = ruler.step as int;
            proof {
                assert(0 <= (count - 1) * step && 0 <= count * step) by (nonlinear_arith)
                    requires
                        1 <= count,
                        1 <= step,
                ;
                assert((count - 1) * step + step == count * step) by (nonlinear_arith);
                law_steps_in_time_add_up(secs as int, nanos as int, (count - 1) * step, step);
            }
            let millis: u128 = (ruler.count as u128) * (ruler.step as u128);
            let base: u128 = if nanos < 1_000_000_000 {
                nanos as u128
            } else if (nanos as u128) + millis * 1_000_000 < 2_000_000_000 {
                return true;
            } else {
                (nanos - 1_000_000_000) as u128
            };
            let later: u128 = (base + millis * 1_000_000) / 1_000_000_000;
            later <= (MAX_SECS - secs) as u128
        },
    }
}

/// The buckets of a timeline before any row is counted.
fn empty_buckets(ruler: &Ruler, all: Ghost<Seq<RowView>>) -> (r: Vec<TimelineBucket>)
    requires
        ruler.count >= 1,
        ruler.step >= 1,
        representable(ruler.first.secs() as int, ruler.first.nanos() as int),
        ruler.scale().end_of(ruler.count - 1).0 <= MAX_SECS,
    ensures
        bucket_views(r@) == ruler.scale().buckets(all@.subrange(0, 0)),
{
    let ghost none = all@.subrange(0, 0);
    let ghost scale = ruler.scale();
    let mut buckets: Vec<TimelineBucket> = Vec::new();
    let mut k: usize = 0;
    let mut elapsed: i64 = 0;
    while k < ruler.count
        invariant
            k <= ruler.count,
            scale == ruler.scale(),
            none.len() == 0,
            ruler.step >= 1,
            representable(ruler.first.secs() as int, ruler.first.nanos() as int),
            k < ruler.count ==> elapsed == k * scale.step,
            scale.end_of(ruler.count - 1).0 <= MAX_SECS,
            buckets@.len() == k,
            forall|m: int| 0 <= m < k ==> (#[trigger] buckets@[m])@ == scale.bucket(none, m),
        decreases ruler.count - k,
    {
        proof {
            lemma_buckets_end_in_time(scale, k as int);
        }
        let start = ruler.first.plus_millis(elapsed);
        let end = start.plus_millis(ruler.step);
        buckets.push(TimelineBucket { start, end, total: 0, warn: 0, error: 0 });
        proof {
            reveal(Seq::filter);
            assert(buckets@[k as int]@ == scale.bucket(none, k as int));
        }
        k += 1;
        if k < ruler.count {
            proof {
                lemma_buckets_end_in_time(scale, k as int);
                assert(k * scale.step == (k - 1) * scale.step + scale.step) by (nonlinear_arith);
            }
            elapsed = elapsed + ruler.step;
        }
    }
    assert(bucket_views(buckets@) =~= scale.buckets(none));
    buckets
}

/// Counts the rows into their buckets.
fn fill_buckets(ruler: &Ruler, rows: &Vec<&LogRow>, buckets: &mut Vec<TimelineBucket>)
    requires
        ruler.count >= 1,
        ruler.step >= 1,
        bucket_views(old(buckets)@) == ruler.scale().buckets(ref_views(rows@).subrange(0, 0)),
    ensures
        bucket_views(final(buckets)@) == ruler.scale().buckets(ref_views(rows@)),
{
    let ghost all = ref_views(rows@);
    let ghost scale = ruler.scale();
    let mut i: usize = 0;
    while i < rows.len()
        invariant
            i <= rows@.len(),
            all == ref_views(rows@),
            scale == ruler.scale(),
            ruler.count >= 1,
            ruler.step >= 1,
            bucket_views(buckets@) == scale.buckets(all.subrange(0, i as int)),
        decreases rows@.len() - i,
    {
        let ghost done = all.subrange(0, i as int);
        let ghost next = all.subrange(0, i + 1);
        let ghost before = bucket_views(buckets@);
        assert(before.len() == ruler.count);
        if let Some(time) = rows[i].timestamp {
            let at: usize = ruler.bucket_of(time);
            let mut bucket = buckets[at];
            proof {
                assert(before[at as int] == bucket@);
                lemma_counts_fit(scale, done, at as int);
            }
            bucket.total = bucket.total + 1;
            match rows[i].level {
                Some(LogLevel::Warn) => {
                    bucket.warn = bucket.warn + 1;
                },
                Some(LogLevel::Error) => {
                    bucket.error = bucket.error + 1;
                },
                Some(LogLevel::Fatal) => {
                    bucket.error = bucket.error + 1;
                },
                _ => {},
            }
            buckets.set(at, bucket);
            proof {
                assert(bucket_views(buckets@) =~= before.update(at as int, bucket@));
                assert forall|k: int| 0 <= k < ruler.count implies (#[trigger] bucket_views(
                    buckets@,
                )[k]) == scale.bucket(next, k) by {
                    assert(before[k] == scale.bucket(done, k));
                    lemma_bucket_one_more(scale, all, i as int, k);
                }
            }
        } else {
            proof {
                assert forall|k: int| 0 <= k < ruler.count implies (#[trigger] before[k])
                    == scale.bucket(next, k) by {
                    assert(before[k] == scale.bucket(done, k));
                    lemma_bucket_one_more(scale, all, i as int, k);
                }
            }
        }
        assert(bucket_views(buckets@) =~= scale.buckets(next));
        i += 1;
    }
    assert(all.subrange(0, i as int) =~= all);
}

/// The buckets that hold rows.
fn drop_empty(buckets: &Vec<TimelineBucket>) -> (r: Vec<TimelineBucket>)
    ensures
        bucket_views(r@) == bucket_views(buckets@).filter(|bucket: BucketView| bucket.total > 0),
{
    let ghost all = bucket_views(buckets@);
    let ghost keep = |bucket: BucketView| bucket.total > 0;
    let mut out: Vec<TimelineBucket> = Vec::new();
    let mut i: usize = 0;
    proof {
        reveal(Seq::filter);
        assert(all.subrange(0, 0).filter(keep) =~= bucket_views(out@));
    }
    while i < buckets.len()
        invariant
            i <= buckets@.len(),
            all == bucket_views(buckets@),
            keep == (|bucket: BucketView| bucket.total > 0),
            bucket_views(out@) == all.subrange(0, i as int).filter(keep),
        decreases buckets@.len() - i,
    {
        let ghost done = bucket_views(out@);
        proof {
            assert(all.subrange(0, i + 1) =~= all.subrange(0, i as int).push(all[i as int]));
            all.subrange(0, i as int).lemma_filter_push(all[i as int], keep);
        }
        if buckets[i].total > 0 {
            out.push(buckets[i]);
            assert(bucket_views(out@) =~= done.push(all[i as int]));
        }
        i += 1;
    }
    assert(all.subrange(0, i as int) =~= all);
    out
}

/// Counts of a bucket stay within the number of rows.
proof fn lemma_counts_fit(scale: Scale, rows: Seq<RowView>, k: int)
    ensures
        scale.bucket(rows, k).total <= rows.len(),
        scale.bucket(rows, k).warn <= rows.len(),
        scale.bucket(rows, k).error <= rows.len(),
{
    rows.lemma_filter_len(|row: RowView| scale.holds(row, k));
    rows.lemma_filter_len(|row: RowView| scale.holds(row, k) && row.level == Some(LogLevel::Warn));
    rows.lemma_filter_len(|row: RowView| scale.holds(row, k) && is_error(row.level));
}

/// One more row goes to its bucket.
proof fn lemma_bucket_one_more(scale: Scale, rows: Seq<RowView>, n: int, k: int)
    requires
        0 <= n < rows.len(),
    ensures
        ({
            let before = scale.bucket(rows.subrange(0, n), k);
            let after = scale.bucket(rows.subrange(0, n + 1), k);
            let row = rows[n];
            &&& after.total == before.total + (if scale.holds(row, k) {
                1nat
            } else {
                0
            })
            &&& after.warn == before.warn + (if scale.holds(row, k) && row.level == Some(
                LogLevel::Warn,
            ) {
                1nat
            } else {
                0
            })
            &&& after.error == before.error + (if scale.holds(row, k) && is_error(row.level) {
                1nat
            } else {
                0
            })
        }),
{
    let done = rows.subrange(0, n);
    assert(rows.subrange(0, n + 1) =~= done.push(rows[n]));
    done.lemma_filter_len_push(|row: RowView| scale.holds(row, k), rows[n]);
    done.lemma_filter_len_push(
        |row: RowView| scale.holds(row, k) && row.level == Some(LogLevel::Warn),
        rows[n],
    );
    done.lemma_filter_len_push(
        |row: RowView| scale.holds(row, k) && is_error(row.level),
        rows[n],
    );
}

// ---------------------------------------------------------------------------
// Laws
// ---------------------------------------------------------------------------

/// The earliest and the latest timestamp are timestamps of rows, and every other lies between
/// them; there are none exactly where no row has a timestamp.
pub proof fn law_timestamps_lie_between(rows: Seq<RowView>)
    ensures
        earliest(rows) is Some == latest(rows) is Some,
        earliest(rows) is Some == exists|i: int|
            0 <= i < rows.len() && (#[trigger] rows[i]).timestamp is Some,
        earliest(rows) matches Some(first) ==> {
            &&& exists|i: int| 0 <= i < rows.len() && (#[trigger] rows[i]).timestamp == Some(first)
            &&& forall|i: int|
                0 <= i < rows.len() ==> ((#[trigger] rows[i]).timestamp matches Some(time)
                    ==> !time.is_before(first))
        },
        latest(rows) matches Some(last) ==> {
            &&& exists|i: int| 0 <= i < rows.len() && (#[trigger] rows[i]).timestamp == Some(last)
            &&& forall|i: int|
                0 <= i < rows.len() ==> ((#[trigger] rows[i]).timestamp matches Some(time)
                    ==> !last.is_before(time))
        },
    decreases rows.len(),
{
    if rows.len() > 0 {
        let head = rows.drop_last();
        let n = rows.len() - 1;
        law_timestamps_lie_between(head);
        assert forall|i: int| 0 <= i < head.len() implies #[trigger] head[i] == rows[i] by {}
        assert(rows[n] == rows.last());
        if earliest(head) is Some {
            let i = choose|i: int|
                0 <= i < head.len() && (#[trigger] head[i]).timestamp == earliest(head);
            assert(rows[i].timestamp == earliest(head));
            let j = choose|j: int|
                0 <= j < head.len() && (#[trigger] head[j]).timestamp == latest(head);
            assert(rows[j].timestamp == latest(head));
        } else if exists|i: int| 0 <= i < rows.len() && (#[trigger] rows[i]).timestamp is Some {
            let i = choose|i: int| 0 <= i < rows.len() && (#[trigger] rows[i]).timestamp is Some;
            if i < n {
                assert(head[i].timestamp is Some);
            }
        }
        assert forall|i: int| 0 <= i < rows.len() implies ((#[trigger] rows[i]).timestamp matches Some(
            time,
        ) ==> (earliest(rows) matches Some(first) ==> !time.is_before(first)) && (latest(
            rows,
        ) matches Some(last) ==> !last.is_before(time))) by {
            if i < n {
                assert(head[i] == rows[i]);
            }
        }
    }
}

/// Each bucket ends where the next one starts.
pub proof fn law_buckets_are_adjacent(scale: Scale, k: int)
    requires
        0 <= k,
        1 <= scale.step,
        scale.first.nanos() < 2_000_000_000,
    ensures
        scale.end_of(k) == scale.start_of(k + 1),
{
    assert(0 <= k * scale.step) by (nonlinear_arith)
        requires
            0 <= k,
            1 <= scale.step,
    ;
    assert((k + 1) * scale.step == k * scale.step + scale.step) by (nonlinear_arith);
    law_steps_in_time_add_up(
        scale.first.secs() as int,
        scale.first.nanos() as int,
        k * scale.step,
        scale.step,
    );
}

/// The rows counted in a list of buckets.
pub open spec fn rows_counted(buckets: Seq<BucketView>) -> nat
    decreases buckets.len(),
{
    if buckets.len() == 0 {
        0
    } else {
        rows_counted(buckets.drop_last()) + buckets.last().total
    }
}

/// Buckets without rows do not matter for the count.
proof fn lemma_empty_buckets_do_not_count(buckets: Seq<BucketView>)
    ensures
        rows_counted(buckets.filter(|bucket: BucketView| bucket.total > 0)) == rows_counted(buckets),
    decreases buckets.len(),
{
    reveal(Seq::filter);
    let keep = |bucket: BucketView| bucket.total > 0;
    if buckets.len() > 0 {
        lemma_empty_buckets_do_not_count(buckets.drop_last());
        let kept = buckets.drop_last().filter(keep);
        if keep(buckets.last()) {
            assert(kept.push(buckets.last()).drop_last() =~= kept);
        }
    }
}

/// One bucket of a list counts one row more.
proof fn lemma_one_bucket_grows(before: Seq<BucketView>, after: Seq<BucketView>, at: int)
    requires
        0 <= at < before.len(),
        before.len() == after.len(),
        forall|k: int|
            0 <= k < before.len() ==> (#[trigger] after[k]).total == before[k].total + (if k == at {
                1nat
            } else {
                0
            }),
    ensures
        rows_counted(after) == rows_counted(before) + 1,
    decreases before.len(),
{
    let n = before.len() - 1;
    assert(after[n].total == before[n].total + (if n == at {
        1nat
    } else {
        0
    }));
    if at == n {
        lemma_same_totals(before.drop_last(), after.drop_last());
    } else {
        lemma_one_bucket_grows(before.drop_last(), after.drop_last(), at);
    }
}

/// Lists of buckets with the same totals count the same rows.
proof fn lemma_same_totals(a: Seq<BucketView>, b: Seq<BucketView>)
    requires
        a.len() == b.len(),
        forall|k: int| 0 <= k < a.len() ==> (#[trigger] b[k]).total == a[k].total,
    ensures
        rows_counted(a) == rows_counted(b),
    decreases a.len(),
{
    if a.len() > 0 {
        assert(b[a.len() - 1].total == a[a.len() - 1].total);
        lemma_same_totals(a.drop_last(), b.drop_last());
    }
}

/// The buckets of a scale count every row with a timestamp.
proof fn lemma_buckets_count_stamped(scale: Scale, rows: Seq<RowView>)
    requires
        1 <= scale.count,
        1 <= scale.step,
    ensures
        rows_counted(scale.buckets(rows)) == stamped(rows),
    decreases rows.len(),
{
    let buckets = scale.buckets(rows);
    if rows.len() == 0 {
        reveal(Seq::filter);
        lemma_no_rows_counted(buckets);
    } else {
        let n = rows.len() - 1;
        let head = rows.drop_last();
        let before = scale.buckets(head);
        lemma_buckets_count_stamped(scale, head);
        assert(rows.subrange(0, n) =~= head);
        assert(rows.subrange(0, n + 1) =~= rows);
        assert(rows =~= head.push(rows[n]));
        head.lemma_filter_len_push(|row: RowView| row.timestamp is Some, rows[n]);
        assert forall|k: int| 0 <= k < scale.count implies (#[trigger] buckets[k]).total
            == before[k].total + (if scale.holds(rows[n], k) {
            1nat
        } else {
            0
        }) by {
            lemma_bucket_one_more(scale, rows, n, k);
        }
        match rows[n].timestamp {
            Some(time) => {
                let at = scale.bucket_of(time);
                let offset = if millis_between(time, scale.first) < 0 {
                    0
                } else {
                    millis_between(time, scale.first)
                };
                assert(0 <= offset / scale.step) by (nonlinear_arith)
                    requires
                        0 <= offset,
                        1 <= scale.step,
                ;
                lemma_one_bucket_grows(before, buckets, at);
            },
            None => {
                lemma_same_totals(before, buckets);
            },
        }
    }
}

/// Buckets over no rows count nothing.
proof fn lemma_no_rows_counted(buckets: Seq<BucketView>)
    requires
        forall|k: int| 0 <= k < buckets.len() ==> (#[trigger] buckets[k]).total == 0,
    ensures
        rows_counted(buckets) == 0,
    decreases buckets.len(),
{
    if buckets.len() > 0 {
        assert(buckets[buckets.len() - 1].total == 0);
        lemma_no_rows_counted(buckets.drop_last());
    }
}

/// The timeline counts every row that has a timestamp, once.
pub proof fn law_timeline_counts_stamped_rows(rows: Seq<RowView>, max_buckets: int)
    ensures
        rows_counted(timeline_of(rows, max_buckets)) == stamped(rows),
{
    match scale_of(rows, max_buckets) {
        Some(scale) => {
            lemma_buckets_count_stamped(scale, rows);
            lemma_empty_buckets_do_not_count(scale.buckets(rows));
        },
        None => {
            law_timestamps_lie_between(rows);
            let keep = |row: RowView| row.timestamp is Some;
            lemma_nothing_kept(rows, keep);
        },
    }
}

/// Where no row is kept, nothing is left.
proof fn lemma_nothing_kept(rows: Seq<RowView>, keep: spec_fn(RowView) -> bool)
    requires
        forall|k: int| 0 <= k < rows.len() ==> !keep(#[trigger] rows[k]),
    ensures
        rows.filter(keep).len() == 0,
    decreases rows.len(),
{
    reveal(Seq::filter);
    if rows.len() > 0 {
        let head = rows.drop_last();
        assert forall|k: int| 0 <= k < head.len() implies !keep(#[trigger] head[k]) by {
            assert(head[k] == rows[k]);
        }
        lemma_nothing_kept(head, keep);
        assert(!keep(rows[rows.len() - 1]));
    }
}

/// No bucket of a timeline is empty, and there are no more than were asked for.
pub proof fn law_timeline_is_compact(rows: Seq<RowView>, max_buckets: int)
    requires
        1 <= max_buckets,
    ensures
        timeline_of(rows, max_buckets).len() <= max_buckets,
        forall|k: int|
            0 <= k < timeline_of(rows, max_buckets).len() ==> (#[trigger] timeline_of(
                rows,
                max_buckets,
            )[k]).total > 0,
{
    if let Some(scale) = scale_of(rows, max_buckets) {
        let keep = |bucket: BucketView| bucket.total > 0;
        scale.buckets(rows).lemma_filter_len(keep);
        assert forall|k: int| 0 <= k < timeline_of(rows, max_buckets).len() implies (
        #[trigger] timeline_of(rows, max_buckets)[k]).total > 0 by {
            scale.buckets(rows).lemma_filter_pred(keep, k);
        }
    }
}

/// The rows are stamped before the last second that can be named.
pub open spec fn stamps_leave_room(rows: Seq<RowView>) -> bool {
    forall|i: int|
        0 <= i < rows.len() ==> ((#[trigger] rows[i]).timestamp matches Some(time)
            ==> time.secs() < MAX_SECS && time.nanos() < 2_000_000_000)
}

/// Where no row is stamped in the very last second that can be named, the timeline ends in time.
pub proof fn law_timeline_fits_in_practice(rows: Seq<RowView>, max_buckets: int)
    requires
        1 <= max_buckets <= 1000,
        stamps_leave_room(rows),
    ensures
        timeline_fits(rows, max_buckets),
{
    law_timestamps_lie_between(rows);
    if let Some(scale) = scale_of(rows, max_buckets) {
        let first = earliest(rows)->0;
        let last = latest(rows)->0;
        let secs = first.secs() as int;
        let nanos = first.nanos() as int;
        let i = choose|i: int| 0 <= i < rows.len() && (#[trigger] rows[i]).timestamp == Some(first);
        let j = choose|j: int| 0 <= j < rows.len() && (#[trigger] rows[j]).timestamp == Some(last);
        assert(!last.is_before(first)) by {
            assert(rows[j].timestamp == Some(last));
        }
        let span = if millis_between(last, first) < 1 {
            1
        } else {
            millis_between(last, first)
        };
        let count = scale.count;
        let step = scale.step;
        assert(0 <= (count - 1) * step) by (nonlinear_arith)
            requires
                1 <= count,
                1 <= step,
        ;
        assert((count - 1) * step + step == count * step) by (nonlinear_arith);
        law_steps_in_time_add_up(secs, nanos, (count - 1) * step, step);
        if step == 1 {
            assert(count * step == count) by (nonlinear_arith)
                requires
                    step == 1,
            ;
            lemma_longer_step_ends_later(secs, nanos, count, 1000);
        } else {
            assert(count * (span / count) <= span) by (nonlinear_arith)
                requires
                    1 <= count,
                    1 <= span,
            ;
            lemma_longer_step_ends_later(secs, nanos, count * step, span);
        }
    }
}

/// Milliseconds from `first` to the timestamp of a row; none where it lies before.
pub open spec fn millis_into(time: Timestamp, first: Timestamp) -> int {
    if millis_between(time, first) < 0 {
        0
    } else {
        millis_between(time, first)
    }
}

/// The row has a timestamp in the stretch of time with number `m` of `count`, each `step`
/// milliseconds long, from `first` on; the last stretch has no end.
pub open spec fn falls_into(row: RowView, first: Timestamp, count: int, step: int, m: int) -> bool {
    match row.timestamp {
        Some(time) => m * step <= millis_into(time, first) && (m + 1 < count ==> millis_into(
            time,
            first,
        ) < (m + 1) * step),
        None => false,
    }
}

/// What is counted in the stretch of time with number `m`.
pub open spec fn stretch(rows: Seq<RowView>, first: Timestamp, count: int, step: int, m: int) -> BucketView {
    let start = parts_after(first.secs() as int, first.nanos() as int, m * step);
    BucketView {
        start,
        end: parts_after(start.0, start.1, step),
        total: rows.filter(|row: RowView| falls_into(row, first, count, step, m)).len(),
        warn: rows.filter(
            |row: RowView|
                falls_into(row, first, count, step, m) && row.level == Some(LogLevel::Warn),
        ).len(),
        error: rows.filter(
            |row: RowView|
                falls_into(row, first, count, step, m) && (row.level == Some(LogLevel::Error)
                    || row.level == Some(LogLevel::Fatal)),
        ).len(),
    }
}

/// The row at `a` has the earliest timestamp and the one at `z` the latest, to the nanosecond.
pub open spec fn are_ends(rows: Seq<RowView>, a: int, z: int) -> bool {
    &&& 0 <= a < rows.len() && rows[a].timestamp is Some
    &&& 0 <= z < rows.len() && rows[z].timestamp is Some
    &&& forall|i: int|
        0 <= i < rows.len() ==> ((#[trigger] rows[i]).timestamp matches Some(time) ==> {
            let first = rows[a].timestamp->0;
            let last = rows[z].timestamp->0;
            &&& time.secs() > first.secs() || (time.secs() == first.secs() && time.nanos()
                >= first.nanos())
            &&& time.secs() < last.secs() || (time.secs() == last.secs() && time.nanos()
                <= last.nanos())
        })
}

/// How many stretches of time a timeline has: as many as rows with a timestamp, up to the limit.
pub open spec fn stretch_count(rows: Seq<RowView>, max_buckets: int) -> int {
    let n = rows.filter(|row: RowView| row.timestamp is Some).len() as int;
    if n < max_buckets {
        n
    } else {
        max_buckets
    }
}

/// How long each stretch is: an equal share of the time from first to last in whole milliseconds,
/// and at least one.
pub open spec fn stretch_millis(rows: Seq<RowView>, max_buckets: int, a: int, z: int) -> int {
    let whole = millis_between(rows[z].timestamp->0, rows[a].timestamp->0);
    if whole / stretch_count(rows, max_buckets) < 1 {
        1
    } else {
        whole / stretch_count(rows, max_buckets)
    }
}

/// Buckets that are kept come in their order.
proof fn lemma_buckets_kept_in_order(
    all: Seq<BucketView>,
    keep: spec_fn(BucketView) -> bool,
    j: int,
    k: int,
)
    requires
        0 <= j < k < all.filter(keep).len(),
    ensures
        exists|m: int, n: int|
            0 <= m < n < all.len() && #[trigger] all[m] == all.filter(keep)[j] && #[trigger] all[n]
                == all.filter(keep)[k],
    decreases all.len(),
{
    reveal(Seq::filter);
    let head = all.drop_last();
    let kept = all.filter(keep);
    let before = head.filter(keep);
    if k < before.len() {
        lemma_buckets_kept_in_order(head, keep, j, k);
        let (m, n) = choose|m: int, n: int|
            0 <= m < n < head.len() && #[trigger] head[m] == before[j] && #[trigger] head[n]
                == before[k];
        assert(all[m] == kept[j] && all[n] == kept[k]);
    } else {
        lemma_bucket_was_there(head, keep, j);
        let m = choose|m: int| 0 <= m < head.len() && #[trigger] head[m] == before[j];
        assert(all[m] == kept[j] && all[all.len() - 1] == kept[k]);
    }
}

/// A bucket that is kept was there before.
proof fn lemma_bucket_was_there(all: Seq<BucketView>, keep: spec_fn(BucketView) -> bool, k: int)
    requires
        0 <= k < all.filter(keep).len(),
    ensures
        exists|m: int| 0 <= m < all.len() && #[trigger] all[m] == all.filter(keep)[k],
    decreases all.len(),
{
    reveal(Seq::filter);
    let head = all.drop_last();
    if k < head.filter(keep).len() {
        lemma_bucket_was_there(head, keep, k);
        let m = choose|m: int| 0 <= m < head.len() && #[trigger] head[m] == head.filter(keep)[k];
        assert(all[m] == all.filter(keep)[k]);
    } else {
        assert(all[all.len() - 1] == all.filter(keep)[k]);
    }
}

/// The buckets of a scale are stretches of time.
proof fn lemma_bucket_is_a_stretch(rows: Seq<RowView>, scale: Scale, m: int)
    requires
        1 <= scale.count,
        1 <= scale.step,
        0 <= m < scale.count,
    ensures
        scale.bucket(rows, m) == stretch(rows, scale.first, scale.count, scale.step, m),
{
    let (first, count, step) = (scale.first, scale.count, scale.step);
    assert forall|row: RowView| scale.holds(row, m) == falls_into(row, first, count, step, m) by {
        if let Some(time) = row.timestamp {
            let o = millis_into(time, first);
            let q = o / step;
            assert(q * step <= o < (q + 1) * step) by (nonlinear_arith)
                requires
                    q == o / step,
                    0 <= o,
                    1 <= step,
            ;
            if q < m {
                assert((q + 1) * step <= m * step) by (nonlinear_arith)
                    requires
                        q + 1 <= m,
                        1 <= step,
                ;
            }
            if q > m {
                assert((m + 1) * step <= q * step) by (nonlinear_arith)
                    requires
                        m + 1 <= q,
                        1 <= step,
                ;
            }
            if q >= m {
                assert(m * step <= q * step) by (nonlinear_arith)
                    requires
                        m <= q,
                        1 <= step,
                ;
            }
        }
    }
    assert((|row: RowView| scale.holds(row, m)) =~= (|row: RowView|
        falls_into(row, first, count, step, m)));
    assert((|row: RowView| scale.holds(row, m) && row.level == Some(LogLevel::Warn)) =~= (|
        row: RowView,
    |
        falls_into(row, first, count, step, m) && row.level == Some(LogLevel::Warn)));
    assert((|row: RowView| scale.holds(row, m) && is_error(row.level)) =~= (|row: RowView|
        falls_into(row, first, count, step, m) && (row.level == Some(LogLevel::Error) || row.level
            == Some(LogLevel::Fatal))));
}

/// The scale of rows whose ends are known.
proof fn lemma_scale_from_ends(rows: Seq<RowView>, max_buckets: int, a: int, z: int)
    requires
        1 <= max_buckets,
        are_ends(rows, a, z),
    ensures
        1 <= stretch_count(rows, max_buckets) <= max_buckets,
        1 <= stretch_millis(rows, max_buckets, a, z),
        scale_of(rows, max_buckets) == Some(
            Scale {
                first: rows[a].timestamp->0,
                count: stretch_count(rows, max_buckets),
                step: stretch_millis(rows, max_buckets, a, z),
            },
        ),
{
    law_timestamps_lie_between(rows);
    let first = rows[a].timestamp->0;
    let last = rows[z].timestamp->0;
    assert(rows[a].timestamp is Some);
    let e = earliest(rows)->0;
    let l = latest(rows)->0;
    let i = choose|i: int| 0 <= i < rows.len() && (#[trigger] rows[i]).timestamp == Some(e);
    let j = choose|j: int| 0 <= j < rows.len() && (#[trigger] rows[j]).timestamp == Some(l);
    assert(!first.is_before(e) && !l.is_before(last));
    crate::time::lemma_timestamp_is_its_parts(e, first);
    crate::time::lemma_timestamp_is_its_parts(l, last);
    let keep = |row: RowView| row.timestamp is Some;
    rows.lemma_filter_contains(keep, a);
    let n = stretch_count(rows, max_buckets);
    let whole = millis_between(last, first);
    assert(1 <= n);
    assert(whole < 1 ==> whole / n < 1 && 1int / n <= 1) by (nonlinear_arith)
        requires
            1 <= n,
    ;
}

/// A timeline is laid out on as many stretches of time as there are rows with a timestamp, up to
/// the limit. They lie end to end from the earliest timestamp on, and each is an equal share of the
/// time from the earliest to the latest timestamp, in whole milliseconds and at least one. The
/// timeline holds the stretches into which some row falls, in order of time, and no others; each
/// counts the rows that fall into it, the warnings and the errors among them.
pub proof fn law_timeline_layout(rows: Seq<RowView>, max_buckets: int, a: int, z: int, j: int, k: int)
    requires
        1 <= max_buckets,
        are_ends(rows, a, z),
    ensures
        ({
            let bars = timeline_of(rows, max_buckets);
            let first = rows[a].timestamp->0;
            let count = stretch_count(rows, max_buckets);
            let step = stretch_millis(rows, max_buckets, a, z);
            &&& 1 <= bars.len() <= count
            &&& 0 <= k < bars.len() ==> exists|m: int|
                0 <= m < count && bars[k] == #[trigger] stretch(rows, first, count, step, m)
            &&& 0 <= j < k < bars.len() ==> exists|m: int, n: int|
                0 <= m < n < count && bars[j] == #[trigger] stretch(rows, first, count, step, m)
                    && bars[k] == #[trigger] stretch(rows, first, count, step, n)
            &&& forall|m: int|
                0 <= m < count && (#[trigger] stretch(rows, first, count, step, m)).total > 0
                    ==> bars.contains(stretch(rows, first, count, step, m))
        }),
{
    lemma_scale_from_ends(rows, max_buckets, a, z);
    let scale = scale_of(rows, max_buckets)->0;
    let (first, count, step) = (scale.first, scale.count, scale.step);
    let bars = timeline_of(rows, max_buckets);
    let all = scale.buckets(rows);
    let keep = |bucket: BucketView| bucket.total > 0;
    assert forall|m: int| 0 <= m < count implies #[trigger] all[m] == stretch(
        rows,
        first,
        count,
        step,
        m,
    ) by {
        lemma_bucket_is_a_stretch(rows, scale, m);
    }
    all.lemma_filter_len(keep);
    assert(bars.len() >= 1) by {
        law_timeline_counts_stamped_rows(rows, max_buckets);
        rows.lemma_filter_contains(|row: RowView| row.timestamp is Some, a);
        if bars.len() == 0 {
            assert(rows_counted(bars) == 0);
        }
    }
    if 0 <= k < bars.len() {
        lemma_bucket_was_there(all, keep, k);
        let m = choose|m: int| 0 <= m < all.len() && #[trigger] all[m] == bars[k];
        assert(bars[k] == stretch(rows, first, count, step, m));
    }
    if 0 <= j < k < bars.len() {
        lemma_buckets_kept_in_order(all, keep, j, k);
        let (m, n) = choose|m: int, n: int|
            0 <= m < n < all.len() && #[trigger] all[m] == bars[j] && #[trigger] all[n] == bars[k];
        assert(bars[j] == stretch(rows, first, count, step, m));
        assert(bars[k] == stretch(rows, first, count, step, n));
    }
    assert forall|m: int|
        0 <= m < count && (#[trigger] stretch(rows, first, count, step, m)).total
            > 0 implies bars.contains(stretch(rows, first, count, step, m)) by {
        assert(all[m] == stretch(rows, first, count, step, m));
        all.lemma_filter_contains(keep, m);
    }
}

/// Every row with a timestamp falls into exactly one stretch of time, and two rows that are at
/// least as far apart as a stretch is long, both before the last one, fall into different ones.
pub proof fn law_rows_far_apart_fall_apart(
    rows: Seq<RowView>,
    max_buckets: int,
    a: int,
    z: int,
    i: int,
    j: int,
)
    requires
        1 <= max_buckets,
        are_ends(rows, a, z),
        0 <= i < rows.len() && rows[i].timestamp is Some,
        0 <= j < rows.len() && rows[j].timestamp is Some,
    ensures
        ({
            let first = rows[a].timestamp->0;
            let count = stretch_count(rows, max_buckets);
            let step = stretch_millis(rows, max_buckets, a, z);
            let x = millis_into(rows[i].timestamp->0, first);
            let y = millis_into(rows[j].timestamp->0, first);
            &&& exists|m: int| 0 <= m < count && falls_into(rows[i], first, count, step, m)
            &&& forall|m: int, n: int|
                0 <= m < count && 0 <= n < count && #[trigger] falls_into(
                    rows[i],
                    first,
                    count,
                    step,
                    m,
                ) && #[trigger] falls_into(rows[i], first, count, step, n) ==> m == n
            &&& x + step <= y && y < (count - 1) * step ==> forall|m: int|
                0 <= m < count ==> !(#[trigger] falls_into(rows[i], first, count, step, m)
                    && falls_into(rows[j], first, count, step, m))
        }),
{
    lemma_scale_from_ends(rows, max_buckets, a, z);
    let first = rows[a].timestamp->0;
    let count = stretch_count(rows, max_buckets);
    let step = stretch_millis(rows, max_buckets, a, z);
    let x = millis_into(rows[i].timestamp->0, first);
    let y = millis_into(rows[j].timestamp->0, first);
    let q = x / step;
    assert(0 <= q && q * step <= x < (q + 1) * step) by (nonlinear_arith)
        requires
            q == x / step,
            0 <= x,
            1 <= step,
    ;
    let m = if q < count {
        q
    } else {
        count - 1
    };
    assert(m * step <= q * step) by (nonlinear_arith)
        requires
            m <= q,
            1 <= step,
    ;
    assert(falls_into(rows[i], first, count, step, m));
    assert forall|m: int, n: int|
        0 <= m < count && 0 <= n < count && #[trigger] falls_into(rows[i], first, count, step, m)
            && #[trigger] falls_into(rows[i], first, count, step, n) implies m == n by {
        assert(m < n ==> (m + 1) * step <= n * step) by (nonlinear_arith)
            requires
                1 <= step,
        ;
        assert(n < m ==> (n + 1) * step <= m * step) by (nonlinear_arith)
            requires
                1 <= step,
        ;
    }
    if x + step <= y && y < (count - 1) * step {
        assert forall|m: int| 0 <= m < count implies !(#[trigger] falls_into(
            rows[i],
            first,
            count,
            step,
            m,
        ) && falls_into(rows[j], first, count, step, m)) by {
            assert((m + 1) * step == m * step + step) by (nonlinear_arith);
        }
    }
}

/// Warnings and errors among the rows with a timestamp are counted where those rows are: a bucket
/// counts no more of both than it counts rows.
pub proof fn law_warnings_and_errors_are_rows(
    rows: Seq<RowView>,
    first: Timestamp,
    count: int,
    step: int,
    m: int,
)
    ensures
        ({
            let bar = stretch(rows, first, count, step, m);
            bar.warn + bar.error <= bar.total
        }),
    decreases rows.len(),
{
    reveal(Seq::filter);
    if rows.len() > 0 {
        law_warnings_and_errors_are_rows(rows.drop_last(), first, count, step, m);
    }
}

} // verus!
