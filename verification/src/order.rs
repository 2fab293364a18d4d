//! The order in which rows are listed: by timestamp, rows without one first, and rows of one
//! time in the order in which they arrived.
use crate::model::{row_views, LogRow, RowView};
use crate::time::{lemma_timestamp_is_its_parts, Timestamp};
use vstd::prelude::*;
use vstd::relations::{sorted_by, total_ordering};
use vstd::seq_lib::{lemma_multiset_commutative, lemma_sorted_unique};

verus! {

/// No timestamp comes before any timestamp, and timestamps come in order of time.
pub open spec fn stamp_before(a: Option<Timestamp>, b: Option<Timestamp>) -> bool {
    match (a, b) {
        (None, Some(_)) => true,
        (Some(a), Some(b)) => a.is_before(b),
        _ => false,
    }
}

/// Where the rows at two positions stand: the first is listed before the second, or they are one.
pub open spec fn in_line(rows: Seq<RowView>) -> spec_fn(int, int) -> bool {
    |a: int, b: int|
        stamp_before(rows[a].timestamp, rows[b].timestamp) || (!stamp_before(
            rows[b].timestamp,
            rows[a].timestamp,
        ) && a <= b)
}

/// Positions as numbers of mathematics.
pub open spec fn numbers(positions: Seq<usize>) -> Seq<int> {
    positions.map_values(|p: usize| p as int)
}

/// Whether `a` comes before `b`.
pub fn stamp_is_before(a: &Option<Timestamp>, b: &Option<Timestamp>) -> (r: bool)
    ensures
        r == stamp_before(*a, *b),
{
    match (a, b) {
        (None, Some(_)) => true,
        (Some(a), Some(b)) => a.before(b),
        _ => false,
    }
}

/// The order of the list is a total order of positions.
pub proof fn law_listing_order_is_total(rows: Seq<RowView>)
    ensures
        total_ordering(in_line(rows)),
{
    let leq = in_line(rows);
    assert forall|a: int, b: int| #[trigger] leq(a, b) && #[trigger] leq(b, a) implies a == b by {
        if let (Some(x), Some(y)) = (rows[a].timestamp, rows[b].timestamp) {
            if !x.is_before(y) && !y.is_before(x) {
                lemma_timestamp_is_its_parts(x, y);
            }
        }
    }
}

/// Whether the row at position `a` is listed no later than the one at `b`.
fn listed_first(rows: &[LogRow], a: usize, b: usize) -> (r: bool)
    requires
        a < rows@.len(),
        b < rows@.len(),
    ensures
        r == in_line(row_views(rows@))(a as int, b as int),
{
    let left = &rows[a].timestamp;
    let right = &rows[b].timestamp;
    assert(row_views(rows@)[a as int].timestamp == left);
    assert(row_views(rows@)[b as int].timestamp == right);
    stamp_is_before(left, right) || (!stamp_is_before(right, left) && a <= b)
}

/// Moving the first element of one list to the end of another keeps what they hold together.
proof fn lemma_move_one(done: Seq<int>, next: int, after: Seq<int>)
    ensures
        done.push(next).to_multiset().add(after.to_multiset()) == done.to_multiset().add(
            (seq![next] + after).to_multiset(),
        ),
{
    lemma_multiset_commutative(done.push(next), after);
    lemma_multiset_commutative(done, seq![next] + after);
    assert(done.push(next) + after =~= done + (seq![next] + after));
}

/// Merges two sorted lists of positions.
fn merge(rows: &[LogRow], left: &Vec<usize>, right: &Vec<usize>) -> (r: Vec<usize>)
    requires
        forall|i: int| 0 <= i < left@.len() ==> (#[trigger] left@[i]) < rows@.len(),
        forall|i: int| 0 <= i < right@.len() ==> (#[trigger] right@[i]) < rows@.len(),
        sorted_by(numbers(left@), in_line(row_views(rows@))),
        sorted_by(numbers(right@), in_line(row_views(rows@))),
    ensures
        sorted_by(numbers(r@), in_line(row_views(rows@))),
        numbers(r@).to_multiset() == numbers(left@).to_multiset().add(
            numbers(right@).to_multiset(),
        ),
        forall|i: int| 0 <= i < r@.len() ==> (#[trigger] r@[i]) < rows@.len(),
{
    broadcast use vstd::seq_lib::group_to_multiset_ensures;

    let ghost leq = in_line(row_views(rows@));
    let ghost lefts = numbers(left@);
    let ghost rights = numbers(right@);
    let mut out: Vec<usize> = Vec::new();
    let mut i: usize = 0;
    let mut j: usize = 0;
    proof {
        law_listing_order_is_total(row_views(rows@));
        assert(lefts.subrange(0, lefts.len() as int) =~= lefts);
        assert(rights.subrange(0, rights.len() as int) =~= rights);
        assert(numbers(out@) =~= Seq::<int>::empty());
        assert(numbers(out@).to_multiset().add(
            lefts.subrange(0, lefts.len() as int).to_multiset(),
        ).add(rights.subrange(0, rights.len() as int).to_multiset()) =~= lefts.to_multiset().add(
            rights.to_multiset(),
        ));
    }
    while i < left.len() || j < right.len()
        invariant
            i <= left@.len(),
            j <= right@.len(),
            leq == in_line(row_views(rows@)),
            total_ordering(leq),
            lefts == numbers(left@),
            rights == numbers(right@),
            sorted_by(lefts, leq),
            sorted_by(rights, leq),
            forall|k: int| 0 <= k < left@.len() ==> (#[trigger] left@[k]) < rows@.len(),
            forall|k: int| 0 <= k < right@.len() ==> (#[trigger] right@[k]) < rows@.len(),
            forall|k: int| 0 <= k < out@.len() ==> (#[trigger] out@[k]) < rows@.len(),
            sorted_by(numbers(out@), leq),
            forall|k: int, m: int|
                0 <= k < out@.len() && i <= m < lefts.len() ==> #[trigger] leq(
                    numbers(out@)[k],
                    lefts[m],
                ),
            forall|k: int, m: int|
                0 <= k < out@.len() && j <= m < rights.len() ==> #[trigger] leq(
                    numbers(out@)[k],
                    rights[m],
                ),
            numbers(out@).to_multiset().add(
                lefts.subrange(i as int, lefts.len() as int).to_multiset(),
            ).add(rights.subrange(j as int, rights.len() as int).to_multiset())
                == lefts.to_multiset().add(rights.to_multiset()),
        decreases left.len() - i + right.len() - j,
    {
        let ghost done = numbers(out@);
        let ghost lrest = lefts.subrange(i as int, lefts.len() as int);
        let ghost rrest = rights.subrange(j as int, rights.len() as int);
        let take_left: bool = if i < left.len() {
            if j < right.len() {
                listed_first(rows, left[i], right[j])
            } else {
                true
            }
        } else {
            false
        };
        if take_left {
            let next: usize = left[i];
            out.push(next);
            proof {
                assert(numbers(out@) =~= done.push(next as int));
                let after = lefts.subrange(i + 1, lefts.len() as int);
                assert(lrest =~= seq![next as int] + after);
                lemma_move_one(done, next as int, after);
                assert(numbers(out@).to_multiset().add(after.to_multiset()).add(rrest.to_multiset())
                    =~= done.to_multiset().add(lrest.to_multiset()).add(rrest.to_multiset()));
                assert forall|m: int| j <= m < rights.len() implies #[trigger] leq(
                    next as int,
                    rights[m],
                ) by {
                    assert(leq(next as int, rights[j as int]));
                    if m > j {
                        assert(leq(rights[j as int], rights[m]));
                    }
                }
                assert forall|m: int| i + 1 <= m < lefts.len() implies #[trigger] leq(
                    next as int,
                    lefts[m],
                ) by {
                    assert(leq(lefts[i as int], lefts[m]));
                }
                assert forall|k: int| 0 <= k < done.len() implies #[trigger] leq(
                    done[k],
                    next as int,
                ) by {
                    assert(leq(done[k], lefts[i as int]));
                }
                assert forall|k: int, m: int| 0 <= k < m < numbers(out@).len() implies
                    #[trigger] leq(numbers(out@)[k], numbers(out@)[m]) by {
                    assert(numbers(out@)[k] == done[k]);
                    if m < done.len() {
                        assert(numbers(out@)[m] == done[m]);
                        assert(leq(done[k], done[m]));
                    }
                }
            }
            i += 1;
        } else {
            let next: usize = right[j];
            out.push(next);
            proof {
                assert(numbers(out@) =~= done.push(next as int));
                let after = rights.subrange(j + 1, rights.len() as int);
                assert(rrest =~= seq![next as int] + after);
                lemma_move_one(done, next as int, after);
                assert(numbers(out@).to_multiset().add(lrest.to_multiset()).add(after.to_multiset())
                    =~= numbers(out@).to_multiset().add(after.to_multiset()).add(
                    lrest.to_multiset(),
                ));
                assert(done.to_multiset().add(lrest.to_multiset()).add(rrest.to_multiset())
                    =~= done.to_multiset().add(rrest.to_multiset()).add(lrest.to_multiset()));
                assert(numbers(out@).to_multiset().add(lrest.to_multiset()).add(after.to_multiset())
                    =~= done.to_multiset().add(lrest.to_multiset()).add(rrest.to_multiset()));
                assert forall|m: int| i <= m < lefts.len() implies #[trigger] leq(
                    next as int,
                    lefts[m],
                ) by {
                    assert(leq(next as int, lefts[i as int]) || leq(lefts[i as int], next as int));
                    if m > i {
                        assert(leq(lefts[i as int], lefts[m]));
                    }
                }
                assert forall|m: int| j + 1 <= m < rights.len() implies #[trigger] leq(
                    next as int,
                    rights[m],
                ) by {
                    assert(leq(rights[j as int], rights[m]));
                }
                assert forall|k: int| 0 <= k < done.len() implies #[trigger] leq(
                    done[k],
                    next as int,
                ) by {
                    assert(leq(done[k], rights[j as int]));
                }
                assert forall|k: int, m: int| 0 <= k < m < numbers(out@).len() implies
                    #[trigger] leq(numbers(out@)[k], numbers(out@)[m]) by {
                    assert(numbers(out@)[k] == done[k]);
                    if m < done.len() {
                        assert(numbers(out@)[m] == done[m]);
                        assert(leq(done[k], done[m]));
                    }
                }
            }
            j += 1;
        }
    }
    proof {
        assert(lefts.subrange(i as int, lefts.len() as int) =~= Seq::<int>::empty());
        assert(rights.subrange(j as int, rights.len() as int) =~= Seq::<int>::empty());
        assert(numbers(out@).to_multiset() =~= numbers(out@).to_multiset().add(
            Seq::<int>::empty().to_multiset(),
        ).add(Seq::<int>::empty().to_multiset()));
    }
    out
}

/// Sorts the positions from index `lo` up to `hi`.
fn sort_part(rows: &[LogRow], positions: &Vec<usize>, lo: usize, hi: usize) -> (r: Vec<usize>)
    requires
        lo <= hi <= positions@.len(),
        forall|i: int| 0 <= i < positions@.len() ==> (#[trigger] positions@[i]) < rows@.len(),
    ensures
        sorted_by(numbers(r@), in_line(row_views(rows@))),
        numbers(r@).to_multiset() == numbers(positions@).subrange(
            lo as int,
            hi as int,
        ).to_multiset(),
        forall|i: int| 0 <= i < r@.len() ==> (#[trigger] r@[i]) < rows@.len(),
    decreases hi - lo,
{
    let ghost all = numbers(positions@);
    if hi - lo <= 1 {
        let mut out: Vec<usize> = Vec::new();
        if lo < hi {
            out.push(positions[lo]);
        }
        assert(numbers(out@) =~= all.subrange(lo as int, hi as int));
        out
    } else {
        let mid: usize = lo + (hi - lo) / 2;
        let left = sort_part(rows, positions, lo, mid);
        let right = sort_part(rows, positions, mid, hi);
        proof {
            let a = all.subrange(lo as int, mid as int);
            let b = all.subrange(mid as int, hi as int);
            assert(a + b =~= all.subrange(lo as int, hi as int));
            lemma_multiset_commutative(a, b);
        }
        merge(rows, &left, &right)
    }
}

/// The positions in the order of the list.
pub fn sort_positions(rows: &[LogRow], positions: &Vec<usize>) -> (r: Vec<usize>)
    requires
        forall|i: int| 0 <= i < positions@.len() ==> (#[trigger] positions@[i]) < rows@.len(),
    ensures
        numbers(r@) == numbers(positions@).sort_by(in_line(row_views(rows@))),
        forall|i: int| 0 <= i < r@.len() ==> (#[trigger] r@[i]) < rows@.len(),
{
    let r = sort_part(rows, positions, 0, positions.len());
    proof {
        let leq = in_line(row_views(rows@));
        let all = numbers(positions@);
        law_listing_order_is_total(row_views(rows@));
        all.lemma_sort_by_ensures(leq);
        assert(all.subrange(0, all.len() as int) =~= all);
        lemma_sorted_unique(numbers(r@), all.sort_by(leq), leq);
    }
    r
}

} // verus!
