//! What an investigation leaves behind: the filters used and saved, and the bookmarked rows.
use crate::filter::{FilterExpr, FilterView};
use crate::model::RowId;
use crate::text::{optional_text, same_text};
use vstd::prelude::*;
use vstd::string::*;

verus! {

/// How many filters the history keeps.
pub const MAX_FILTER_HISTORY: usize = 100;

/// The version of the format in which sessions are kept.
pub const SESSION_VERSION: u32 = 1;

/// Whether a session that was kept in this version of the format can be used.
pub fn is_readable_version(version: u32) -> (r: bool)
    ensures
        r == (version == SESSION_VERSION),
{
    version == SESSION_VERSION
}

/// A filter under a name.
#[derive(Debug, Clone, PartialEq, Eq)]
pub struct SavedFilter {
    pub name: String,
    pub filter: FilterExpr,
}

/// A marked row.
#[derive(Debug, Clone, PartialEq, Eq)]
pub struct Bookmark {
    pub row_id: RowId,
    pub label: Option<String>,
}

/// The lasting part of an investigation.
#[derive(Debug, Clone, PartialEq, Eq)]
pub struct InvestigationSession {
    pub filter_history: Vec<FilterExpr>,
    pub saved_filters: Vec<SavedFilter>,
    pub bookmarks: Vec<Bookmark>,
}

/// A saved filter as a value of mathematics.
pub ghost struct SavedView {
    pub name: Seq<char>,
    pub filter: FilterView,
}

/// A bookmark as a value of mathematics.
pub ghost struct BookmarkView {
    pub row_id: RowId,
    pub label: Option<Seq<char>>,
}

/// A session as a value of mathematics.
#[verifier::ext_equal]
pub ghost struct SessionView {
    pub history: Seq<FilterView>,
    pub saved: Seq<SavedView>,
    pub bookmarks: Seq<BookmarkView>,
}

impl View for SavedFilter {
    type V = SavedView;

    open spec fn view(&self) -> SavedView {
        SavedView { name: self.name@, filter: self.filter@ }
    }
}

impl View for Bookmark {
    type V = BookmarkView;

    open spec fn view(&self) -> BookmarkView {
        BookmarkView { row_id: self.row_id, label: optional_text(self.label) }
    }
}

/// The bookmarks of a list.
pub open spec fn bookmark_views(bookmarks: Seq<Bookmark>) -> Seq<BookmarkView> {
    Seq::new(bookmarks.len(), |i: int| bookmarks[i]@)
}

impl View for InvestigationSession {
    type V = SessionView;

    open spec fn view(&self) -> SessionView {
        SessionView {
            history: Seq::new(self.filter_history@.len(), |i: int| self.filter_history@[i]@),
            saved: Seq::new(self.saved_filters@.len(), |i: int| self.saved_filters@[i]@),
            bookmarks: bookmark_views(self.bookmarks@),
        }
    }
}

/// The filter saved under `name`; the first one, should there be several.
pub open spec fn saved_as(saved: Seq<SavedView>, name: Seq<char>) -> Option<FilterView>
    decreases saved.len(),
{
    if saved.len() == 0 {
        None
    } else if saved[0].name == name {
        Some(saved[0].filter)
    } else {
        saved_as(saved.subrange(1, saved.len() as int), name)
    }
}

/// `saved` with `filter` under `name`: in the place of the filter that had the name, or else at
/// the end.
pub open spec fn with_saved(saved: Seq<SavedView>, name: Seq<char>, filter: FilterView) -> Seq<
    SavedView,
>
    decreases saved.len(),
{
    if saved.len() == 0 {
        seq![SavedView { name, filter }]
    } else if saved[0].name == name {
        seq![SavedView { name, filter }] + saved.subrange(1, saved.len() as int)
    } else {
        seq![saved[0]] + with_saved(saved.subrange(1, saved.len() as int), name, filter)
    }
}

/// `history` after `filter` has been used. The filter that accepts every row is not kept, nor
/// one that was used last; the oldest goes when there are too many.
pub open spec fn with_recorded(history: Seq<FilterView>, filter: FilterView) -> Seq<FilterView> {
    if filter == FilterView::All || (history.len() > 0 && history.last() == filter) {
        history
    } else if history.len() + 1 > MAX_FILTER_HISTORY {
        history.push(filter).subrange(1, history.len() as int + 1)
    } else {
        history.push(filter)
    }
}

/// Some bookmark is on the row.
pub open spec fn has_bookmark(bookmarks: Seq<BookmarkView>, row_id: RowId) -> bool {
    exists|i: int| 0 <= i < bookmarks.len() && (#[trigger] bookmarks[i]).row_id == row_id
}

/// `bookmarks` without the first one on the row.
pub open spec fn without_bookmark(bookmarks: Seq<BookmarkView>, row_id: RowId) -> Seq<BookmarkView>
    decreases bookmarks.len(),
{
    if bookmarks.len() == 0 {
        bookmarks
    } else if bookmarks[0].row_id == row_id {
        bookmarks.subrange(1, bookmarks.len() as int)
    } else {
        seq![bookmarks[0]] + without_bookmark(
            bookmarks.subrange(1, bookmarks.len() as int),
            row_id,
        )
    }
}

/// `bookmark` put behind the last one of `bookmarks` whose row does not come after its own.
pub open spec fn put_in_order(bookmarks: Seq<BookmarkView>, bookmark: BookmarkView) -> Seq<
    BookmarkView,
>
    decreases bookmarks.len(),
{
    if bookmarks.len() == 0 || bookmarks.last().row_id.0 <= bookmark.row_id.0 {
        bookmarks.push(bookmark)
    } else {
        put_in_order(bookmarks.drop_last(), bookmark).push(bookmarks.last())
    }
}

/// `bookmarks` by their rows, those on one row in the order in which they were.
pub open spec fn in_order(bookmarks: Seq<BookmarkView>) -> Seq<BookmarkView>
    decreases bookmarks.len(),
{
    if bookmarks.len() == 0 {
        bookmarks
    } else {
        put_in_order(in_order(bookmarks.drop_last()), bookmarks.last())
    }
}

/// `bookmarks` after the row's bookmark has been taken away or, where it had none, set.
pub open spec fn toggled(
    bookmarks: Seq<BookmarkView>,
    row_id: RowId,
    label: Option<Seq<char>>,
) -> Seq<BookmarkView> {
    if has_bookmark(bookmarks, row_id) {
        without_bookmark(bookmarks, row_id)
    } else {
        in_order(bookmarks.push(BookmarkView { row_id, label }))
    }
}

impl InvestigationSession {
    /// A session without filters and bookmarks.
    pub fn new() -> (r: InvestigationSession)
        ensures
            r@ == (SessionView {
                history: Seq::empty(),
                saved: Seq::empty(),
                bookmarks: Seq::empty(),
            }),
    {
        let r = InvestigationSession {
            filter_history: Vec::new(),
            saved_filters: Vec::new(),
            bookmarks: Vec::new(),
        };
        assert(r@ =~= (SessionView {
            history: Seq::empty(),
            saved: Seq::empty(),
            bookmarks: Seq::empty(),
        }));
        r
    }

    /// Adds a filter that was used to the history.
    pub fn record_filter(&mut self, filter: FilterExpr)
        ensures
            final(self)@ == (SessionView {
                history: with_recorded(old(self)@.history, filter@),
                ..old(self)@
            }),
    {
        let ghost before = self@;
        if let FilterExpr::All = filter {
            return;
        }
        let count: usize = self.filter_history.len();
        if count > 0 && self.filter_history[count - 1].same_as(&filter) {
            assert(before.history.last() == self.filter_history@[count - 1]@);
            return;
        }
        proof {
            if count > 0 {
                assert(before.history.last() == self.filter_history@[count - 1]@);
            }
        }
        self.filter_history.push(filter);
        assert(self@.history =~= before.history.push(filter@));
        if self.filter_history.len() > MAX_FILTER_HISTORY {
            self.filter_history.remove(0);
            assert(self@.history =~= before.history.push(filter@).subrange(
                1,
                before.history.len() as int + 1,
            ));
        }
        assert(self@ =~= (SessionView {
            history: with_recorded(before.history, filter@),
            ..before
        }));
    }

    /// Saves a filter under a name, in the place of the one that had the name.
    pub fn save_filter(&mut self, name: &str, filter: FilterExpr)
        ensures
            final(self)@ == (SessionView {
                saved: with_saved(old(self)@.saved, name@, filter@),
                ..old(self)@
            }),
    {
        let ghost before = self@;
        let ghost saved = before.saved;
        let mut at: usize = 0;
        proof {
            assert(saved.subrange(0, saved.len() as int) =~= saved);
            assert(saved.subrange(0, 0) + with_saved(saved, name@, filter@) =~= with_saved(
                saved,
                name@,
                filter@,
            ));
        }
        while at < self.saved_filters.len() && !same_text(&self.saved_filters[at].name, name)
            invariant
                at <= self.saved_filters.len(),
                self@ == before,
                saved == before.saved,
                with_saved(saved, name@, filter@) == saved.subrange(0, at as int) + with_saved(
                    saved.subrange(at as int, saved.len() as int),
                    name@,
                    filter@,
                ),
            decreases self.saved_filters.len() - at,
        {
            proof {
                let rest = saved.subrange(at as int, saved.len() as int);
                assert(rest[0] == self.saved_filters@[at as int]@);
                assert(rest.subrange(1, rest.len() as int) =~= saved.subrange(
                    at + 1,
                    saved.len() as int,
                ));
                let tail = with_saved(saved.subrange(at + 1, saved.len() as int), name@, filter@);
                assert(saved.subrange(0, at as int) + (seq![rest[0]] + tail) =~= saved.subrange(
                    0,
                    at + 1,
                ) + tail);
            }
            at += 1;
        }
        let ghost rest = saved.subrange(at as int, saved.len() as int);
        let entry = SavedFilter { name: name.to_owned(), filter };
        if at < self.saved_filters.len() {
            assert(rest[0] == self.saved_filters@[at as int]@);
            self.saved_filters.set(at, entry);
            assert(self@.saved =~= saved.subrange(0, at as int) + (seq![entry@] + rest.subrange(
                1,
                rest.len() as int,
            )));
        } else {
            self.saved_filters.push(entry);
            assert(self@.saved =~= saved.subrange(0, at as int) + seq![entry@]);
        }
        assert(self@ =~= (SessionView { saved: with_saved(saved, name@, filter@), ..before }));
    }

    /// The filter saved under a name.
    pub fn saved_filter(&self, name: &str) -> (r: Option<&FilterExpr>)
        ensures
            match r {
                Some(filter) => saved_as(self@.saved, name@) == Some(filter@),
                None => saved_as(self@.saved, name@) is None,
            },
    {
        let ghost saved = self@.saved;
        let mut at: usize = 0;
        proof {
            assert(saved.subrange(0, saved.len() as int) =~= saved);
        }
        while at < self.saved_filters.len()
            invariant
                at <= self.saved_filters.len(),
                saved == self@.saved,
                saved_as(saved, name@) == saved_as(
                    saved.subrange(at as int, saved.len() as int),
                    name@,
                ),
            decreases self.saved_filters.len() - at,
        {
            proof {
                let rest = saved.subrange(at as int, saved.len() as int);
                assert(rest[0] == self.saved_filters@[at as int]@);
                assert(rest.subrange(1, rest.len() as int) =~= saved.subrange(
                    at + 1,
                    saved.len() as int,
                ));
            }
            if same_text(&self.saved_filters[at].name, name) {
                return Some(&self.saved_filters[at].filter);
            }
            at += 1;
        }
        None
    }

    /// Takes the row's bookmark away, or sets one where the row has none. Returns whether the
    /// row has a bookmark now.
    pub fn toggle_bookmark(&mut self, row_id: RowId, label: Option<String>) -> (r: bool)
        ensures
            r == !has_bookmark(old(self)@.bookmarks, row_id),
            final(self)@ == (SessionView {
                bookmarks: toggled(old(self)@.bookmarks, row_id, optional_text(label)),
                ..old(self)@
            }),
    {
        let ghost before = self@;
        let ghost marks = before.bookmarks;
        let mut at: usize = 0;
        proof {
            assert(marks.subrange(0, marks.len() as int) =~= marks);
            assert(marks.subrange(0, 0) + without_bookmark(marks, row_id) =~= without_bookmark(
                marks,
                row_id,
            ));
        }
        while at < self.bookmarks.len() && self.bookmarks[at].row_id != row_id
            invariant
                at <= self.bookmarks.len(),
                self@ == before,
                marks == before.bookmarks,
                forall|k: int| 0 <= k < at ==> (#[trigger] marks[k]).row_id != row_id,
                without_bookmark(marks, row_id) == marks.subrange(0, at as int) + without_bookmark(
                    marks.subrange(at as int, marks.len() as int),
                    row_id,
                ),
            decreases self.bookmarks.len() - at,
        {
            proof {
                let rest = marks.subrange(at as int, marks.len() as int);
                assert(rest[0] == self.bookmarks@[at as int]@);
                assert(marks[at as int] == rest[0]);
                assert(rest.subrange(1, rest.len() as int) =~= marks.subrange(
                    at + 1,
                    marks.len() as int,
                ));
                let tail = without_bookmark(marks.subrange(at + 1, marks.len() as int), row_id);
                assert(marks.subrange(0, at as int) + (seq![rest[0]] + tail) =~= marks.subrange(
                    0,
                    at + 1,
                ) + tail);
            }
            at += 1;
        }
        if at < self.bookmarks.len() {
            let ghost rest = marks.subrange(at as int, marks.len() as int);
            assert(rest[0] == self.bookmarks@[at as int]@);
            assert(marks[at as int].row_id == row_id);
            self.bookmarks.remove(at);
            assert(self@.bookmarks =~= marks.subrange(0, at as int) + rest.subrange(
                1,
                rest.len() as int,
            ));
            assert(self@ =~= (SessionView { bookmarks: without_bookmark(marks, row_id), ..before }));
            false
        } else {
            let bookmark = Bookmark { row_id, label };
            let ghost wanted = marks.push(bookmark@);
            self.bookmarks.push(bookmark);
            assert(self@.bookmarks =~= wanted);
            sort_bookmarks(&mut self.bookmarks);
            assert(self@ =~= (SessionView { bookmarks: in_order(wanted), ..before }));
            true
        }
    }

    /// Whether the row has a bookmark.
    pub fn is_bookmarked(&self, row_id: RowId) -> (r: bool)
        ensures
            r == has_bookmark(self@.bookmarks, row_id),
    {
        let mut at: usize = 0;
        while at < self.bookmarks.len()
            invariant
                at <= self.bookmarks.len(),
                forall|k: int| 0 <= k < at ==> (#[trigger] self@.bookmarks[k]).row_id != row_id,
            decreases self.bookmarks.len() - at,
        {
            if self.bookmarks[at].row_id == row_id {
                assert(self@.bookmarks[at as int].row_id == row_id);
                return true;
            }
            at += 1;
        }
        false
    }
}

impl Default for InvestigationSession {
    fn default() -> (r: InvestigationSession)
        ensures
            r@ == (SessionView {
                history: Seq::empty(),
                saved: Seq::empty(),
                bookmarks: Seq::empty(),
            }),
    {
        InvestigationSession::new()
    }
}

/// Orders bookmarks by their rows; those on one row stay in their order.
fn sort_bookmarks(bookmarks: &mut Vec<Bookmark>)
    ensures
        bookmark_views(final(bookmarks)@) == in_order(bookmark_views(old(bookmarks)@)),
{
    let ghost all = bookmark_views(bookmarks@);
    let count: usize = bookmarks.len();
    let mut done: usize = 0;
    proof {
        assert(all.subrange(0, 0) =~= Seq::<BookmarkView>::empty());
        assert(bookmark_views(bookmarks@) =~= in_order(all.subrange(0, 0)) + all.subrange(
            0,
            all.len() as int,
        ));
    }
    while done < count
        invariant
            done <= count,
            count == all.len(),
            bookmarks@.len() == count,
            in_order(all.subrange(0, done as int)).len() == done,
            bookmark_views(bookmarks@) == in_order(all.subrange(0, done as int)) + all.subrange(
                done as int,
                count as int,
            ),
        decreases count - done,
    {
        let ghost sorted = in_order(all.subrange(0, done as int));
        let ghost held = bookmark_views(bookmarks@);
        let bookmark = bookmarks.remove(done);
        let ghost taken = bookmark@;
        proof {
            assert(held[done as int] == all[done as int]);
            assert(taken == all[done as int]);
            assert(bookmark_views(bookmarks@) =~= held.remove(done as int));
            assert(bookmark_views(bookmarks@) =~= sorted + all.subrange(done + 1, count as int));
            assert(sorted.subrange(0, done as int) =~= sorted);
            assert(put_in_order(sorted, taken) =~= put_in_order(sorted, taken) + sorted.subrange(
                done as int,
                done as int,
            ));
        }
        let mut at: usize = done;
        while at > 0 && bookmarks[at - 1].row_id.0 > bookmark.row_id.0
            invariant
                at <= done,
                done < count,
                bookmarks@.len() == count - 1,
                count == all.len(),
                sorted.len() == done,
                taken == bookmark@,
                bookmark_views(bookmarks@) == sorted + all.subrange(done + 1, count as int),
                put_in_order(sorted, taken) == put_in_order(sorted.subrange(0, at as int), taken)
                    + sorted.subrange(at as int, done as int),
            decreases at,
        {
            proof {
                let head = sorted.subrange(0, at as int);
                assert(bookmark_views(bookmarks@)[at - 1] == sorted[at - 1]);
                assert(head.last() == sorted[at - 1]);
                assert(head.drop_last() =~= sorted.subrange(0, at - 1));
                let put = put_in_order(head.drop_last(), taken);
                assert(put.push(head.last()) + sorted.subrange(at as int, done as int) =~= put
                    + sorted.subrange(at - 1, done as int));
            }
            at -= 1;
        }
        proof {
            let head = sorted.subrange(0, at as int);
            if at > 0 {
                assert(bookmark_views(bookmarks@)[at - 1] == sorted[at - 1]);
                assert(head.last() == sorted[at - 1]);
            }
            assert(put_in_order(head, taken) == head.push(taken));
        }
        let ghost others = bookmark_views(bookmarks@);
        bookmarks.insert(at, bookmark);
        proof {
            let head = sorted.subrange(0, at as int);
            assert(all.subrange(0, done + 1).drop_last() =~= all.subrange(0, done as int));
            assert(all.subrange(0, done + 1).last() == taken);
            assert(in_order(all.subrange(0, done + 1)) == put_in_order(sorted, taken));
            assert(bookmark_views(bookmarks@) =~= others.insert(at as int, taken));
            assert(bookmark_views(bookmarks@) =~= (head.push(taken) + sorted.subrange(
                at as int,
                done as int,
            )) + all.subrange(done + 1, count as int));
        }
        done += 1;
    }
    proof {
        assert(all.subrange(0, count as int) =~= all);
        assert(in_order(all) + all.subrange(count as int, count as int) =~= in_order(all));
    }
}

// ---------------------------------------------------------------------------
// Laws
// ---------------------------------------------------------------------------

/// The history is bounded, holds no filter that accepts every row, and no filter twice in a row.
pub open spec fn history_wf(history: Seq<FilterView>) -> bool {
    &&& history.len() <= MAX_FILTER_HISTORY
    &&& forall|i: int| 0 <= i < history.len() ==> #[trigger] history[i] != FilterView::All
    &&& forall|i: int, j: int|
        0 <= i && j == i + 1 && j < history.len() ==> #[trigger] history[i] != #[trigger] history[j]
}

/// Recording a filter keeps the history bounded and free of repetitions, and a filter that is
/// not trivial ends up last.
pub proof fn law_history_stays_bounded(history: Seq<FilterView>, filter: FilterView)
    requires
        history_wf(history),
    ensures
        history_wf(with_recorded(history, filter)),
        filter != FilterView::All ==> with_recorded(history, filter).len() > 0 && with_recorded(
            history,
            filter,
        ).last() == filter,
{
    let result = with_recorded(history, filter);
    assert forall|i: int, j: int| 0 <= i && j == i + 1 && j < result.len() implies
        #[trigger] result[i] != #[trigger] result[j] by {
        if history.len() + 1 > MAX_FILTER_HISTORY && result != history {
            assert(result[i] == history.push(filter)[i + 1]);
            assert(result[j] == history.push(filter)[j + 1]);
            if j + 1 < history.len() {
                assert(history[i + 1] != history[j + 1]);
            }
        }
    }
}

/// Recording the same filter again changes nothing.
pub proof fn law_recording_is_idempotent(history: Seq<FilterView>, filter: FilterView)
    ensures
        with_recorded(with_recorded(history, filter), filter) == with_recorded(history, filter),
{
}

/// A filter that was saved is found under its name, and saving it leaves every other name alone.
pub proof fn law_save_then_find(
    saved: Seq<SavedView>,
    name: Seq<char>,
    filter: FilterView,
    other: Seq<char>,
)
    ensures
        saved_as(with_saved(saved, name, filter), other) == if other == name {
            Some(filter)
        } else {
            saved_as(saved, other)
        },
    decreases saved.len(),
{
    let result = with_saved(saved, name, filter);
    if saved.len() == 0 {
        assert(result.subrange(1, result.len() as int) =~= saved);
    } else if saved[0].name == name {
        assert(result.subrange(1, result.len() as int) =~= saved.subrange(1, saved.len() as int));
    } else {
        let rest = saved.subrange(1, saved.len() as int);
        law_save_then_find(rest, name, filter, other);
        assert(result.subrange(1, result.len() as int) =~= with_saved(rest, name, filter));
    }
}

/// The bookmarks are in strict order of their rows, so none is on the row of another.
pub open spec fn bookmarks_wf(bookmarks: Seq<BookmarkView>) -> bool {
    forall|i: int, j: int|
        0 <= i < j < bookmarks.len() ==> (#[trigger] bookmarks[i]).row_id.0 < (
        #[trigger] bookmarks[j]).row_id.0
}

/// The bookmarks are in order of their rows.
pub open spec fn rows_ascend(bookmarks: Seq<BookmarkView>) -> bool {
    forall|i: int, j: int|
        0 <= i < j < bookmarks.len() ==> (#[trigger] bookmarks[i]).row_id.0 <= (
        #[trigger] bookmarks[j]).row_id.0
}

/// Putting a bookmark in order keeps the order and adds nothing else.
proof fn lemma_put_in_order(bookmarks: Seq<BookmarkView>, bookmark: BookmarkView)
    requires
        rows_ascend(bookmarks),
    ensures
        rows_ascend(put_in_order(bookmarks, bookmark)),
        put_in_order(bookmarks, bookmark).len() == bookmarks.len() + 1,
        put_in_order(bookmarks, bookmark).to_multiset() == bookmarks.to_multiset().insert(bookmark),
        forall|i: int|
            0 <= i < bookmarks.len() + 1 ==> (#[trigger] put_in_order(bookmarks, bookmark)[i])
                == bookmark || exists|j: int|
                0 <= j < bookmarks.len() && put_in_order(bookmarks, bookmark)[i] == bookmarks[j],
    decreases bookmarks.len(),
{
    broadcast use vstd::seq_lib::group_to_multiset_ensures;

    let result = put_in_order(bookmarks, bookmark);
    if bookmarks.len() == 0 || bookmarks.last().row_id.0 <= bookmark.row_id.0 {
        assert forall|i: int| 0 <= i < result.len() implies (#[trigger] result[i]) == bookmark
            || exists|j: int| 0 <= j < bookmarks.len() && result[i] == bookmarks[j] by {
            if i < bookmarks.len() {
                assert(result[i] == bookmarks[i]);
            }
        }
    } else {
        let head = bookmarks.drop_last();
        lemma_put_in_order(head, bookmark);
        let put = put_in_order(head, bookmark);
        assert forall|i: int| 0 <= i < result.len() implies (#[trigger] result[i]) == bookmark
            || exists|j: int| 0 <= j < bookmarks.len() && result[i] == bookmarks[j] by {
            if i == head.len() + 1 {
                assert(result[i] == bookmarks[bookmarks.len() - 1]);
            } else {
                assert(result[i] == put[i]);
                if put[i] != bookmark {
                    let j = choose|j: int| 0 <= j < head.len() && put[i] == head[j];
                    assert(result[i] == bookmarks[j]);
                }
            }
        }
        assert(bookmarks =~= head.push(bookmarks.last()));
        assert(result.to_multiset() =~= bookmarks.to_multiset().insert(bookmark));
    }
}

/// Ordering the bookmarks puts them in order of their rows and neither adds nor drops any.
pub proof fn law_ordering_sorts(bookmarks: Seq<BookmarkView>)
    ensures
        rows_ascend(in_order(bookmarks)),
        in_order(bookmarks).to_multiset() == bookmarks.to_multiset(),
    decreases bookmarks.len(),
{
    broadcast use vstd::seq_lib::group_to_multiset_ensures;

    if bookmarks.len() > 0 {
        let head = bookmarks.drop_last();
        law_ordering_sorts(head);
        lemma_put_in_order(in_order(head), bookmarks.last());
        assert(bookmarks =~= head.push(bookmarks.last()));
    }
}

/// Bookmarks that are in order stay as they are.
proof fn lemma_ordered_stays(bookmarks: Seq<BookmarkView>)
    requires
        rows_ascend(bookmarks),
    ensures
        in_order(bookmarks) == bookmarks,
    decreases bookmarks.len(),
{
    if bookmarks.len() > 0 {
        lemma_ordered_stays(bookmarks.drop_last());
        if bookmarks.len() > 1 {
            assert(bookmarks.drop_last().last() == bookmarks[bookmarks.len() - 2]);
        }
        assert(bookmarks.drop_last().push(bookmarks.last()) =~= bookmarks);
    }
}

/// Taking a bookmark away leaves the others, in their order.
proof fn lemma_without_bookmark(bookmarks: Seq<BookmarkView>, row_id: RowId)
    requires
        bookmarks_wf(bookmarks),
    ensures
        bookmarks_wf(without_bookmark(bookmarks, row_id)),
        !has_bookmark(without_bookmark(bookmarks, row_id), row_id),
        forall|other: RowId|
            other != row_id ==> has_bookmark(without_bookmark(bookmarks, row_id), other)
                == #[trigger] has_bookmark(bookmarks, other),
        forall|i: int|
            0 <= i < without_bookmark(bookmarks, row_id).len() ==> exists|j: int|
                0 <= j < bookmarks.len() && (#[trigger] without_bookmark(bookmarks, row_id)[i])
                    == bookmarks[j],
    decreases bookmarks.len(),
{
    let result = without_bookmark(bookmarks, row_id);
    if bookmarks.len() > 0 {
        let rest = bookmarks.subrange(1, bookmarks.len() as int);
        assert forall|k: int| 0 <= k < rest.len() implies #[trigger] rest[k] == bookmarks[k + 1] by {}
        if bookmarks[0].row_id == row_id {
            assert forall|other: RowId| other != row_id implies has_bookmark(result, other)
                == #[trigger] has_bookmark(bookmarks, other) by {
                if has_bookmark(bookmarks, other) {
                    let k = choose|k: int|
                        0 <= k < bookmarks.len() && (#[trigger] bookmarks[k]).row_id == other;
                    assert(rest[k - 1].row_id == other);
                }
                if has_bookmark(rest, other) {
                    let k = choose|k: int| 0 <= k < rest.len() && (#[trigger] rest[k]).row_id == other;
                    assert(bookmarks[k + 1].row_id == other);
                }
            }
            assert forall|i: int| 0 <= i < result.len() implies exists|j: int|
                0 <= j < bookmarks.len() && (#[trigger] result[i]) == bookmarks[j] by {
                assert(result[i] == bookmarks[i + 1]);
            }
        } else {
            lemma_without_bookmark(rest, row_id);
            let tail = without_bookmark(rest, row_id);
            assert forall|i: int| 0 <= i < result.len() implies exists|j: int|
                0 <= j < bookmarks.len() && (#[trigger] result[i]) == bookmarks[j] by {
                if i == 0 {
                    assert(result[i] == bookmarks[0]);
                } else {
                    assert(result[i] == tail[i - 1]);
                    let j = choose|j: int| 0 <= j < rest.len() && tail[i - 1] == rest[j];
                    assert(result[i] == bookmarks[j + 1]);
                }
            }
            assert forall|i: int, j: int| 0 <= i < j < result.len() implies (
            #[trigger] result[i]).row_id.0 < (#[trigger] result[j]).row_id.0 by {
                assert(result[j] == tail[j - 1]);
                if i == 0 {
                    let k = choose|k: int| 0 <= k < rest.len() && tail[j - 1] == rest[k];
                    assert(bookmarks[0].row_id.0 < bookmarks[k + 1].row_id.0);
                } else {
                    assert(result[i] == tail[i - 1]);
                }
            }
            assert forall|other: RowId| #[trigger] has_bookmark(bookmarks, other) == (
            bookmarks[0].row_id == other || has_bookmark(rest, other)) by {
                if has_bookmark(bookmarks, other) {
                    let k = choose|k: int|
                        0 <= k < bookmarks.len() && (#[trigger] bookmarks[k]).row_id == other;
                    if k > 0 {
                        assert(rest[k - 1].row_id == other);
                    }
                }
                if has_bookmark(rest, other) {
                    let k = choose|k: int| 0 <= k < rest.len() && (#[trigger] rest[k]).row_id == other;
                    assert(bookmarks[k + 1].row_id == other);
                }
            }
            assert forall|other: RowId| #[trigger] has_bookmark(result, other) == (
            bookmarks[0].row_id == other || has_bookmark(tail, other)) by {
                if has_bookmark(result, other) {
                    let k = choose|k: int|
                        0 <= k < result.len() && (#[trigger] result[k]).row_id == other;
                    if k > 0 {
                        assert(tail[k - 1].row_id == other);
                    }
                }
                if bookmarks[0].row_id == other {
                    assert(result[0].row_id == other);
                }
                if has_bookmark(tail, other) {
                    let k = choose|k: int| 0 <= k < tail.len() && (#[trigger] tail[k]).row_id == other;
                    assert(result[k + 1].row_id == other);
                }
            }
        }
    }
}

/// Setting a bookmark on a row without one keeps the order strict and the others in place.
proof fn lemma_set_bookmark(bookmarks: Seq<BookmarkView>, bookmark: BookmarkView)
    requires
        bookmarks_wf(bookmarks),
        !has_bookmark(bookmarks, bookmark.row_id),
    ensures
        in_order(bookmarks.push(bookmark)) == put_in_order(bookmarks, bookmark),
        bookmarks_wf(put_in_order(bookmarks, bookmark)),
        without_bookmark(put_in_order(bookmarks, bookmark), bookmark.row_id) == bookmarks,
        forall|other: RowId|
            #[trigger] has_bookmark(put_in_order(bookmarks, bookmark), other) == (other
                == bookmark.row_id || has_bookmark(bookmarks, other)),
    decreases bookmarks.len(),
{
    assert(rows_ascend(bookmarks));
    lemma_ordered_stays(bookmarks);
    assert(bookmarks.push(bookmark).drop_last() =~= bookmarks);
    let result = put_in_order(bookmarks, bookmark);
    if bookmarks.len() == 0 || bookmarks.last().row_id.0 <= bookmark.row_id.0 {
        if bookmarks.len() > 0 {
            assert(bookmarks[bookmarks.len() - 1].row_id != bookmark.row_id);
        }
        lemma_remove_last(bookmarks, bookmark);
        assert forall|other: RowId| #[trigger] has_bookmark(result, other) == (other
            == bookmark.row_id || has_bookmark(bookmarks, other)) by {
            lemma_has_in_push(bookmarks, bookmark, other);
        }
    } else {
        let head = bookmarks.drop_last();
        let last = bookmarks.last();
        assert forall|k: int| 0 <= k < head.len() implies #[trigger] head[k] == bookmarks[k] by {}
        if has_bookmark(head, bookmark.row_id) {
            let k = choose|k: int| 0 <= k < head.len() && (#[trigger] head[k]).row_id == bookmark.row_id;
            assert(bookmarks[k].row_id == bookmark.row_id);
        }
        lemma_set_bookmark(head, bookmark);
        lemma_put_in_order(head, bookmark);
        let put = put_in_order(head, bookmark);
        assert forall|i: int, j: int| 0 <= i < j < result.len() implies (
        #[trigger] result[i]).row_id.0 < (#[trigger] result[j]).row_id.0 by {
            assert(result[i] == put[i]);
            if j < put.len() {
                assert(result[j] == put[j]);
            } else if put[i] != bookmark {
                let k = choose|k: int| 0 <= k < head.len() && put[i] == head[k];
                assert(bookmarks[k].row_id.0 < bookmarks[bookmarks.len() - 1].row_id.0);
            }
        }
        assert forall|other: RowId| #[trigger] has_bookmark(result, other) == (other
            == bookmark.row_id || has_bookmark(bookmarks, other)) by {
            lemma_has_in_push(put, last, other);
            lemma_has_in_push(head, last, other);
            assert(head.push(last) =~= bookmarks);
        }
        assert(last.row_id != bookmark.row_id);
        assert(has_bookmark(put, bookmark.row_id));
        lemma_remove_before_last(put, last, bookmark.row_id);
        assert(head.push(last) =~= bookmarks);
    }
}

/// A pushed bookmark is found beside the others.
proof fn lemma_has_in_push(bookmarks: Seq<BookmarkView>, bookmark: BookmarkView, row_id: RowId)
    ensures
        has_bookmark(bookmarks.push(bookmark), row_id) == (row_id == bookmark.row_id
            || has_bookmark(bookmarks, row_id)),
{
    let pushed = bookmarks.push(bookmark);
    if has_bookmark(pushed, row_id) {
        let k = choose|k: int| 0 <= k < pushed.len() && (#[trigger] pushed[k]).row_id == row_id;
        if k < bookmarks.len() {
            assert(bookmarks[k].row_id == row_id);
        }
    }
    if row_id == bookmark.row_id {
        assert(pushed[bookmarks.len() as int].row_id == row_id);
    }
    if has_bookmark(bookmarks, row_id) {
        let k = choose|k: int| 0 <= k < bookmarks.len() && (#[trigger] bookmarks[k]).row_id == row_id;
        assert(pushed[k].row_id == row_id);
    }
}

/// Taking away a bookmark that stands alone on its row, at the end.
proof fn lemma_remove_last(bookmarks: Seq<BookmarkView>, bookmark: BookmarkView)
    requires
        !has_bookmark(bookmarks, bookmark.row_id),
    ensures
        without_bookmark(bookmarks.push(bookmark), bookmark.row_id) == bookmarks,
    decreases bookmarks.len(),
{
    let pushed = bookmarks.push(bookmark);
    if bookmarks.len() == 0 {
        assert(pushed.subrange(1, pushed.len() as int) =~= bookmarks);
    } else {
        let rest = bookmarks.subrange(1, bookmarks.len() as int);
        assert(bookmarks[0].row_id != bookmark.row_id);
        if has_bookmark(rest, bookmark.row_id) {
            let k = choose|k: int| 0 <= k < rest.len() && (#[trigger] rest[k]).row_id == bookmark.row_id;
            assert(bookmarks[k + 1].row_id == bookmark.row_id);
        }
        lemma_remove_last(rest, bookmark);
        assert(pushed.subrange(1, pushed.len() as int) =~= rest.push(bookmark));
        assert(seq![bookmarks[0]] + rest =~= bookmarks);
    }
}

/// Taking away a bookmark that does not stand at the end.
proof fn lemma_remove_before_last(
    bookmarks: Seq<BookmarkView>,
    last: BookmarkView,
    row_id: RowId,
)
    requires
        has_bookmark(bookmarks, row_id),
    ensures
        without_bookmark(bookmarks.push(last), row_id) == without_bookmark(bookmarks, row_id).push(
            last,
        ),
    decreases bookmarks.len(),
{
    let pushed = bookmarks.push(last);
    let rest = bookmarks.subrange(1, bookmarks.len() as int);
    assert(pushed.subrange(1, pushed.len() as int) =~= rest.push(last));
    if bookmarks[0].row_id != row_id {
        let k = choose|k: int| 0 <= k < bookmarks.len() && (#[trigger] bookmarks[k]).row_id == row_id;
        assert(rest[k - 1].row_id == row_id);
        lemma_remove_before_last(rest, last, row_id);
        assert(seq![bookmarks[0]] + without_bookmark(rest, row_id).push(last) =~= (seq![
            bookmarks[0],
        ] + without_bookmark(rest, row_id)).push(last));
    }
}

/// Toggling a bookmark changes whether that row has one, and no other row; the order stays strict.
pub proof fn law_toggle_flips_one_row(
    bookmarks: Seq<BookmarkView>,
    row_id: RowId,
    label: Option<Seq<char>>,
    other: RowId,
)
    requires
        bookmarks_wf(bookmarks),
    ensures
        bookmarks_wf(toggled(bookmarks, row_id, label)),
        has_bookmark(toggled(bookmarks, row_id, label), other) == if other == row_id {
            !has_bookmark(bookmarks, row_id)
        } else {
            has_bookmark(bookmarks, other)
        },
{
    if has_bookmark(bookmarks, row_id) {
        lemma_without_bookmark(bookmarks, row_id);
        assert(has_bookmark(bookmarks, other) || !has_bookmark(bookmarks, other));
    } else {
        lemma_set_bookmark(bookmarks, BookmarkView { row_id, label });
    }
}

/// Setting a bookmark and taking it away again restores the bookmarks.
pub proof fn law_toggle_twice_restores(
    bookmarks: Seq<BookmarkView>,
    row_id: RowId,
    label: Option<Seq<char>>,
    second: Option<Seq<char>>,
)
    requires
        bookmarks_wf(bookmarks),
        !has_bookmark(bookmarks, row_id),
    ensures
        toggled(toggled(bookmarks, row_id, label), row_id, second) == bookmarks,
{
    lemma_set_bookmark(bookmarks, BookmarkView { row_id, label });
    assert(has_bookmark(put_in_order(bookmarks, BookmarkView { row_id, label }), row_id));
}

/// A filter that is used goes to the end of the history, unless it accepts everything or was used
/// last. The history holds 100 filters; the oldest goes when there is one more, and the others stay
/// in their order.
pub proof fn law_history_holds_the_last_hundred(history: Seq<FilterView>, filter: FilterView)
    requires
        history.len() <= 100,
    ensures
        filter == FilterView::All ==> with_recorded(history, filter) == history,
        history.len() > 0 && history.last() == filter ==> with_recorded(history, filter) == history,
        filter != FilterView::All && (history.len() == 0 || history.last() != filter) ==> {
            &&& history.len() < 100 ==> with_recorded(history, filter) == history.push(filter)
            &&& history.len() == 100 ==> with_recorded(history, filter) == history.subrange(
                1,
                100,
            ).push(filter)
        },
{
    if history.len() == 100 {
        assert(history.push(filter).subrange(1, 101) =~= history.subrange(1, 100).push(filter));
    }
}

/// A filter that is saved under a new name goes to the end; under a name that is in use it takes
/// the place of the filter that had it. The others stay where they are.
pub proof fn law_saved_filters_keep_their_places(
    saved: Seq<SavedView>,
    name: Seq<char>,
    filter: FilterView,
    k: int,
)
    requires
        0 <= k <= saved.len(),
        forall|i: int| 0 <= i < k ==> (#[trigger] saved[i]).name != name,
        k < saved.len() ==> saved[k].name == name,
    ensures
        k == saved.len() ==> with_saved(saved, name, filter) == saved.push(
            SavedView { name, filter },
        ) && saved_as(saved, name) is None,
        k < saved.len() ==> with_saved(saved, name, filter) == saved.update(
            k,
            SavedView { name, filter },
        ) && saved_as(saved, name) == Some(saved[k].filter),
    decreases saved.len(),
{
    let entry = SavedView { name, filter };
    let result = with_saved(saved, name, filter);
    if saved.len() == 0 {
        assert(result =~= saved.push(entry));
    } else if k == 0 {
        assert(result =~= saved.update(0, entry));
    } else {
        let rest = saved.subrange(1, saved.len() as int);
        assert forall|i: int| 0 <= i < k - 1 implies (#[trigger] rest[i]).name != name by {
            assert(rest[i] == saved[i + 1]);
        }
        assert(saved[0].name != name);
        if k < saved.len() {
            assert(rest[k - 1] == saved[k]);
        }
        law_saved_filters_keep_their_places(rest, name, filter, k - 1);
        if k == saved.len() {
            assert(result =~= saved.push(entry));
        } else {
            assert(result =~= saved.update(k, entry));
        }
    }
}

/// A bookmark that is set holds its row and the label it was given, and every other bookmark stays
/// as it was; one that is taken away leaves the others as they were.
pub proof fn law_bookmarks_hold_their_labels(
    bookmarks: Seq<BookmarkView>,
    row_id: RowId,
    label: Option<Seq<char>>,
    other: BookmarkView,
)
    requires
        bookmarks_wf(bookmarks),
    ensures
        toggled(bookmarks, row_id, label).contains(other) == if has_bookmark(bookmarks, row_id) {
            bookmarks.contains(other) && other.row_id != row_id
        } else {
            bookmarks.contains(other) || other == (BookmarkView { row_id, label })
        },
        toggled(bookmarks, row_id, label).len() == if has_bookmark(bookmarks, row_id) {
            bookmarks.len() - 1
        } else {
            bookmarks.len() as int + 1
        },
{
    broadcast use vstd::seq_lib::group_to_multiset_ensures;

    let after = toggled(bookmarks, row_id, label);
    if has_bookmark(bookmarks, row_id) {
        lemma_taken_away(bookmarks, row_id, other);
    } else {
        let new = BookmarkView { row_id, label };
        let all = bookmarks.push(new);
        law_ordering_sorts(all);
        assert(after.to_multiset() == all.to_multiset());
        assert(after.len() == after.to_multiset().len());
        assert(all.len() == all.to_multiset().len());
        assert(after.contains(other) == (after.to_multiset().count(other) > 0));
        assert(all.contains(other) == (all.to_multiset().count(other) > 0));
        assert(all.contains(other) == (bookmarks.contains(other) || other == new)) by {
            if bookmarks.contains(other) {
                let i = choose|i: int| 0 <= i < bookmarks.len() && bookmarks[i] == other;
                assert(all[i] == other);
            }
            if other == new {
                assert(all[bookmarks.len() as int] == other);
            }
            if all.contains(other) {
                let i = choose|i: int| 0 <= i < all.len() && all[i] == other;
                if i < bookmarks.len() {
                    assert(bookmarks[i] == other);
                }
            }
        }
    }
}

/// What is left when a bookmark is taken away.
proof fn lemma_taken_away(bookmarks: Seq<BookmarkView>, row_id: RowId, other: BookmarkView)
    requires
        bookmarks_wf(bookmarks),
        has_bookmark(bookmarks, row_id),
    ensures
        without_bookmark(bookmarks, row_id).len() == bookmarks.len() - 1,
        without_bookmark(bookmarks, row_id).contains(other) == (bookmarks.contains(other)
            && other.row_id != row_id),
    decreases bookmarks.len(),
{
    let rest = bookmarks.subrange(1, bookmarks.len() as int);
    let after = without_bookmark(bookmarks, row_id);
    assert forall|i: int, j: int| 0 <= i < j < rest.len() implies (#[trigger] rest[i]).row_id.0 < (
    #[trigger] rest[j]).row_id.0 by {
        assert(rest[i] == bookmarks[i + 1] && rest[j] == bookmarks[j + 1]);
    }
    if bookmarks[0].row_id == row_id {
        if bookmarks.contains(other) && other.row_id != row_id {
            let i = choose|i: int| 0 <= i < bookmarks.len() && bookmarks[i] == other;
            assert(rest[i - 1] == other);
        }
        if rest.contains(other) {
            let i = choose|i: int| 0 <= i < rest.len() && rest[i] == other;
            assert(bookmarks[i + 1] == other);
            assert(bookmarks[0].row_id.0 < bookmarks[i + 1].row_id.0);
        }
    } else {
        let p = choose|p: int| 0 <= p < bookmarks.len() && (#[trigger] bookmarks[p]).row_id == row_id;
        assert(rest[p - 1].row_id == row_id);
        lemma_taken_away(rest, row_id, other);
        let left = without_bookmark(rest, row_id);
        assert(after == seq![bookmarks[0]] + left);
        if after.contains(other) {
            let i = choose|i: int| 0 <= i < after.len() && after[i] == other;
            if i == 0 {
                assert(bookmarks[0] == other);
            } else {
                assert(left[i - 1] == other);
                let j = choose|j: int| 0 <= j < rest.len() && rest[j] == other;
                assert(bookmarks[j + 1] == other);
            }
        }
        if bookmarks.contains(other) && other.row_id != row_id {
            let i = choose|i: int| 0 <= i < bookmarks.len() && bookmarks[i] == other;
            if i == 0 {
                assert(after[0] == other);
            } else {
                assert(rest[i - 1] == other);
                let j = choose|j: int| 0 <= j < left.len() && left[j] == other;
                assert(after[j + 1] == other);
            }
        }
    }
}

} // verus!
