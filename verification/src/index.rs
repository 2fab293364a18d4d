//! The store of rows. Rows are appended at the end and evicted from the front; a row's id is
//! its number among all rows ever appended.
use crate::model::{row_views, LogRow, RowId, RowView};
use vstd::prelude::*;

verus! {

/// The rows held, in the order in which they arrived.
#[derive(Debug)]
pub struct RowIndex {
    rows: Vec<LogRow>,
    evicted: u64,
}

/// The store as a value of mathematics.
#[verifier::ext_equal]
pub ghost struct IndexView {
    pub rows: Seq<RowView>,
    pub evicted: nat,
}

/// `row` under the id `row_id`.
pub open spec fn renumbered(row: RowView, row_id: RowId) -> RowView {
    RowView { row_id, ..row }
}

impl IndexView {
    /// Each row's id is its number among all rows ever appended, and ids fit their type.
    pub open spec fn wf(self) -> bool {
        &&& self.evicted + self.rows.len() <= u64::MAX
        &&& forall|i: int|
            0 <= i < self.rows.len() ==> (#[trigger] self.rows[i]).row_id.0 == self.evicted + i
    }

    /// The id of the row that is appended next.
    pub open spec fn next_id(self) -> RowId {
        RowId((self.evicted + self.rows.len()) as u64)
    }

    /// Where the row with this id is held.
    pub open spec fn position(self, row_id: RowId) -> Option<int> {
        if self.evicted <= row_id.0 < self.evicted + self.rows.len() {
            Some(row_id.0 - self.evicted)
        } else {
            None
        }
    }

    /// The row with this id.
    pub open spec fn row(self, row_id: RowId) -> Option<RowView> {
        match self.position(row_id) {
            Some(position) => Some(self.rows[position]),
            None => None,
        }
    }

    /// The store after `row` has been appended.
    pub open spec fn appended(self, row: RowView) -> IndexView {
        IndexView { rows: self.rows.push(renumbered(row, self.next_id())), ..self }
    }

    /// The store after its oldest `n` rows have been dropped.
    pub open spec fn without_oldest(self, n: int) -> IndexView {
        IndexView {
            rows: self.rows.subrange(n, self.rows.len() as int),
            evicted: (self.evicted + n) as nat,
        }
    }
}

/// The rows behind a list of references.
pub open spec fn ref_views(rows: Seq<&LogRow>) -> Seq<RowView> {
    Seq::new(rows.len(), |i: int| rows[i]@)
}

impl View for RowIndex {
    type V = IndexView;

    closed spec fn view(&self) -> IndexView {
        IndexView { rows: row_views(self.rows@), evicted: self.evicted as nat }
    }
}

impl RowIndex {
    /// A store without rows.
    pub fn new() -> (r: RowIndex)
        ensures
            r@ == (IndexView { rows: Seq::empty(), evicted: 0 }),
            r@.wf(),
    {
        let r = RowIndex { rows: Vec::new(), evicted: 0 };
        assert(r@.rows =~= Seq::<RowView>::empty());
        r
    }

    /// Appends a row. Its id becomes the next number; that id is returned.
    pub fn append(&mut self, row: LogRow) -> (r: RowId)
        requires
            old(self)@.wf(),
            old(self)@.evicted + old(self)@.rows.len() < u64::MAX,
        ensures
            r == old(self)@.next_id(),
            final(self)@ == old(self)@.appended(row@),
            final(self)@.wf(),
    {
        let id = RowId(self.evicted + self.rows.len() as u64);
        let mut row = row;
        row.row_id = id;
        let ghost before = self@;
        self.rows.push(row);
        assert(self@.rows =~= before.rows.push(row@));
        id
    }

    /// The row with this id, unless it was evicted or never appended.
    pub fn get(&self, row_id: RowId) -> (r: Option<&LogRow>)
        requires
            self@.wf(),
        ensures
            match r {
                Some(row) => self@.row(row_id) == Some(row@),
                None => self@.row(row_id) is None,
            },
    {
        match self.position_of(row_id) {
            Some(position) => Some(&self.rows[position]),
            None => None,
        }
    }

    /// How many rows are held.
    pub fn len(&self) -> (r: usize)
        ensures
            r == self@.rows.len(),
    {
        self.rows.len()
    }

    /// Whether no rows are held.
    pub fn is_empty(&self) -> (r: bool)
        ensures
            r == (self@.rows.len() == 0),
    {
        self.rows.len() == 0
    }

    /// Up to `count` rows from position `start` on.
    pub fn iter_range(&self, start: usize, count: usize) -> (r: Vec<&LogRow>)
        ensures
            ref_views(r@) == self@.rows.subrange(
                if start <= self@.rows.len() {
                    start as int
                } else {
                    self@.rows.len() as int
                },
                if start + count <= self@.rows.len() {
                    start + count
                } else {
                    self@.rows.len() as int
                },
            ),
    {
        let total: usize = self.rows.len();
        let first: usize = if start <= total {
            start
        } else {
            total
        };
        let end: usize = if count <= total - first {
            first + count
        } else {
            total
        };
        let mut out: Vec<&LogRow> = Vec::new();
        let mut at: usize = first;
        assert(ref_views(out@) =~= self@.rows.subrange(first as int, first as int));
        while at < end
            invariant
                first <= at <= end <= self.rows.len(),
                ref_views(out@) == self@.rows.subrange(first as int, at as int),
            decreases end - at,
        {
            let ghost done = ref_views(out@);
            out.push(&self.rows[at]);
            at += 1;
            assert(ref_views(out@) =~= done.push(self@.rows[at - 1]));
            assert(ref_views(out@) =~= self@.rows.subrange(first as int, at as int));
        }
        out
    }

    /// Where the row with this id is held.
    pub fn position_of(&self, row_id: RowId) -> (r: Option<usize>)
        requires
            self@.wf(),
        ensures
            match r {
                Some(position) => self@.position(row_id) == Some(position as int),
                None => self@.position(row_id) is None,
            },
    {
        if row_id.0 < self.evicted {
            return None;
        }
        let offset: u64 = row_id.0 - self.evicted;
        if offset < self.rows.len() as u64 {
            Some(offset as usize)
        } else {
            None
        }
    }

    /// The row at this position.
    pub fn find_by_row_number(&self, row_number: usize) -> (r: Option<&LogRow>)
        ensures
            match r {
                Some(row) => row_number < self@.rows.len() && self@.rows[row_number as int] == row@,
                None => self@.rows.len() <= row_number,
            },
    {
        if row_number < self.rows.len() {
            Some(&self.rows[row_number])
        } else {
            None
        }
    }

    /// The rows held.
    pub fn rows(&self) -> (r: &[LogRow])
        ensures
            row_views(r@) == self@.rows,
    {
        self.rows.as_slice()
    }

    /// Drops the oldest `n` rows, or all of them if there are fewer, and returns how many went.
    /// Ids are not used again.
    pub fn evict_oldest(&mut self, n: usize) -> (r: usize)
        requires
            old(self)@.wf(),
        ensures
            r == if n <= old(self)@.rows.len() {
                n as int
            } else {
                old(self)@.rows.len() as int
            },
            final(self)@ == old(self)@.without_oldest(r as int),
            final(self)@.wf(),
    {
        let to_evict: usize = if n <= self.rows.len() {
            n
        } else {
            self.rows.len()
        };
        let ghost before = self@;
        let kept = self.rows.split_off(to_evict);
        self.rows = kept;
        self.evicted = self.evicted + to_evict as u64;
        assert(self@.rows =~= before.rows.subrange(to_evict as int, before.rows.len() as int));
        to_evict
    }

    /// How many rows have been evicted so far.
    pub fn evicted_count(&self) -> (r: u64)
        ensures
            r == self@.evicted,
    {
        self.evicted
    }
}

impl Default for RowIndex {
    fn default() -> (r: RowIndex)
        ensures
            r@ == (IndexView { rows: Seq::empty(), evicted: 0 }),
            r@.wf(),
    {
        RowIndex::new()
    }
}

/// An appended row is found under the id that it was given, and every id that resolved before
/// resolves to the same row.
pub proof fn law_append_then_get(index: IndexView, row: RowView, other: RowId)
    requires
        index.wf(),
        index.evicted + index.rows.len() < u64::MAX,
    ensures
        index.appended(row).row(index.next_id()) == Some(renumbered(row, index.next_id())),
        index.row(other) is Some ==> index.appended(row).row(other) == index.row(other),
        index.row(index.next_id()) is None,
{
}

/// After an eviction the evicted ids resolve to nothing, and every other id resolves as before.
pub proof fn law_ids_survive_eviction(index: IndexView, n: int, row_id: RowId)
    requires
        index.wf(),
        0 <= n <= index.rows.len(),
    ensures
        index.without_oldest(n).row(row_id) == if row_id.0 < index.evicted + n {
            None
        } else {
            index.row(row_id)
        },
        index.without_oldest(n).next_id() == index.next_id(),
{
}

/// A row that resolves has the id that it was asked for.
pub proof fn law_resolved_row_has_its_id(index: IndexView, row_id: RowId)
    requires
        index.wf(),
    ensures
        index.row(row_id) matches Some(row) ==> row.row_id == row_id,
{
}

/// Evicting in two steps is evicting at once.
pub proof fn law_evictions_add_up(index: IndexView, n: int, m: int)
    requires
        0 <= n,
        0 <= m,
        n + m <= index.rows.len(),
    ensures
        index.without_oldest(n).without_oldest(m) == index.without_oldest(n + m),
{
    assert(index.without_oldest(n).without_oldest(m) =~= index.without_oldest(n + m));
}

} // verus!
