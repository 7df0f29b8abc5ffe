use vstd::prelude::*;
use crate::error::StoreError;
use crate::kvmap::{copy_bytes, KvMap};
use crate::types::{Address, CellId};

verus! {

/// The contents of a list of byte vectors.
pub open spec fn entries_view(s: Seq<Vec<u8>>) -> Seq<Seq<u8>> {
    s.map_values(|e: Vec<u8>| e@)
}

/// The contents of an optional byte vector.
pub open spec fn opt_view(o: Option<Vec<u8>>) -> Option<Seq<u8>> {
    match o {
        Some(v) => Some(v@),
        None => None,
    }
}

/// Returns a fresh copy of a list of byte vectors.
pub fn copy_entries(v: &Vec<Vec<u8>>) -> (r: Vec<Vec<u8>>)
    ensures
        entries_view(r@) == entries_view(v@),
{
    let mut r: Vec<Vec<u8>> = Vec::with_capacity(v.len());
    let mut i: usize = 0;
    while i < v.len()
        invariant
            i <= v.len(),
            r@.len() == i,
            forall|j: int| 0 <= j < i ==> r@[j]@ == v@[j]@,
        decreases v.len() - i,
    {
        let e = copy_bytes(&v[i]);
        r.push(e);
        i = i + 1;
    }
    assert(entries_view(r@) =~= entries_view(v@));
    r
}

/// One committed state of a cell: its key/value data and its append-only log.
#[derive(Debug)]
pub struct CellState {
    kv: KvMap,
    log: Vec<Vec<u8>>,
}

impl CellState {
    pub closed spec fn wf(&self) -> bool {
        self.kv.wf()
    }

    pub closed spec fn kv(&self) -> Map<u64, Seq<u8>> {
        self.kv@
    }

    pub closed spec fn log(&self) -> Seq<Seq<u8>> {
        entries_view(self.log@)
    }

    pub fn empty() -> (r: CellState)
        ensures
            r.wf(),
            r.kv() == Map::<u64, Seq<u8>>::empty(),
            r.log() == Seq::<Seq<u8>>::empty(),
    {
        let r = CellState { kv: KvMap::new(), log: Vec::new() };
        assert(r.log() =~= Seq::<Seq<u8>>::empty());
        r
    }

    pub fn copy(&self) -> (r: CellState)
        requires
            self.wf(),
        ensures
            r.wf(),
            r.kv() == self.kv(),
            r.log() == self.log(),
    {
        CellState { kv: self.kv.copy(), log: copy_entries(&self.log) }
    }

    pub fn get(&self, key: u64) -> (r: Option<Vec<u8>>)
        requires
            self.wf(),
        ensures
            opt_view(r) == (if self.kv().contains_key(key) {
                Some(self.kv()[key])
            } else {
                None
            }),
    {
        self.kv.get(key)
    }

    pub fn log_len(&self) -> (r: usize)
        ensures
            r == self.log().len(),
    {
        self.log.len()
    }

    pub fn entry(&self, i: usize) -> (r: Vec<u8>)
        requires
            i < self.log().len(),
        ensures
            r@ == self.log()[i as int],
    {
        copy_bytes(&self.log[i])
    }
}

/// The buffered writes of one workspace, ready to be applied to the store as
/// one transaction.
#[derive(Debug)]
pub struct CommitSet {
    cell: CellId,
    base: Address,
    writes: KvMap,
    appended: Vec<Vec<u8>>,
}

impl CommitSet {
    pub closed spec fn wf(&self) -> bool {
        self.writes.wf()
    }

    /// The cell whose state this commit changes.
    pub closed spec fn cell(&self) -> CellId {
        self.cell
    }

    /// The snapshot the writes were prepared against.
    pub closed spec fn base(&self) -> Address {
        self.base
    }

    pub closed spec fn writes(&self) -> Map<u64, Seq<u8>> {
        self.writes@
    }

    pub closed spec fn appended(&self) -> Seq<Seq<u8>> {
        entries_view(self.appended@)
    }

    pub(crate) fn new(cell: CellId, base: Address, writes: KvMap, appended: Vec<Vec<u8>>) -> (r: CommitSet)
        requires
            writes.wf(),
        ensures
            r.wf(),
            r.cell() == cell,
            r.base() == base,
            r.writes() == writes@,
            r.appended() == entries_view(appended@),
    {
        CommitSet { cell, base, writes, appended }
    }

    pub fn cell_id(&self) -> (r: CellId)
        ensures
            r == self.cell(),
    {
        self.cell
    }
}

/// The committed history of one cell: every state it has had, oldest first.
#[derive(Debug)]
struct CellStore {
    history: Vec<CellState>,
    fail_next_apply: bool,
}

impl CellStore {
    closed spec fn wf(&self) -> bool {
        &&& self.history@.len() >= 1
        &&& forall|v: int| 0 <= v < self.history@.len() ==> #[trigger] self.history@[v].wf()
    }
}

/// An in-memory durable store: one committed history per cell, with a
/// single writer per cell. Old snapshots stay readable after later commits.
#[derive(Debug)]
pub struct Store {
    cells: Vec<CellStore>,
}

impl Store {
    pub closed spec fn wf(&self) -> bool {
        forall|c: int| 0 <= c < self.cells@.len() ==> #[trigger] self.cells@[c].wf()
    }

    /// Number of cells the store holds.
    pub closed spec fn num_cells(&self) -> nat {
        self.cells@.len()
    }

    /// Address of the newest snapshot of `cell`.
    pub closed spec fn head(&self, cell: int) -> int {
        self.cells@[cell].history@.len() - 1
    }

    /// Key/value data of `cell` at snapshot `at`.
    pub closed spec fn kv_at(&self, cell: int, at: int) -> Map<u64, Seq<u8>> {
        self.cells@[cell].history@[at].kv()
    }

    /// Log of `cell` at snapshot `at`.
    pub closed spec fn log_at(&self, cell: int, at: int) -> Seq<Seq<u8>> {
        self.cells@[cell].history@[at].log()
    }

    /// Whether the next transaction on `cell` is set to fail.
    pub closed spec fn fault_armed(&self, cell: int) -> bool {
        self.cells@[cell].fail_next_apply
    }

    /// Every snapshot `old` held is still held by `new`, with the same contents.
    pub open spec fn keeps_history(old: &Store, new: &Store) -> bool {
        &&& new.num_cells() >= old.num_cells()
        &&& forall|c: int| 0 <= c < old.num_cells() ==> #[trigger] new.head(c) >= old.head(c)
        &&& forall|c: int, v: int| 0 <= c < old.num_cells() && 0 <= v <= old.head(c) ==> {
            &&& #[trigger] new.kv_at(c, v) == old.kv_at(c, v)
            &&& new.log_at(c, v) == old.log_at(c, v)
        }
    }

    /// `new` holds exactly the snapshots of `old`, with nothing committed.
    pub open spec fn same_history(old: &Store, new: &Store) -> bool {
        &&& Store::keeps_history(old, new)
        &&& new.num_cells() == old.num_cells()
        &&& forall|c: int| 0 <= c < old.num_cells() ==> #[trigger] new.head(c) == old.head(c)
    }

    pub fn new() -> (r: Store)
        ensures
            r.wf(),
            r.num_cells() == 0,
    {
        Store { cells: Vec::new() }
    }

    /// Creates the database of a new cell, with one empty snapshot.
    pub fn create_cell(&mut self) -> (r: CellId)
        requires
            old(self).wf(),
        ensures
            final(self).wf(),
            r == old(self).num_cells(),
            final(self).num_cells() == old(self).num_cells() + 1,
            Store::keeps_history(old(self), final(self)),
            forall|c: int| 0 <= c < old(self).num_cells() ==> {
                &&& #[trigger] final(self).head(c) == old(self).head(c)
                &&& final(self).fault_armed(c) == old(self).fault_armed(c)
            },
            final(self).head(r as int) == 0,
            final(self).kv_at(r as int, 0) == Map::<u64, Seq<u8>>::empty(),
            final(self).log_at(r as int, 0) == Seq::<Seq<u8>>::empty(),
            !final(self).fault_armed(r as int),
    {
        let r = self.cells.len();
        let mut history: Vec<CellState> = Vec::new();
        history.push(CellState::empty());
        self.cells.push(CellStore { history, fail_next_apply: false });
        proof {
            assert(self.cells@[r as int].history@.len() == 1);
        }
        r
    }

    pub fn cell_count(&self) -> (r: usize)
        ensures
            r == self.num_cells(),
    {
        self.cells.len()
    }

    /// Address of the newest snapshot of `cell`.
    pub fn head_of(&self, cell: CellId) -> (r: Address)
        requires
            self.wf(),
            cell < self.num_cells(),
        ensures
            r == self.head(cell as int),
    {
        assert(self.cells@[cell as int].wf());
        self.cells[cell].history.len() - 1
    }

    /// Returns a copy of `cell`'s state at snapshot `at`.
    pub fn read_snapshot(&self, cell: CellId, at: Address) -> (r: CellState)
        requires
            self.wf(),
            cell < self.num_cells(),
            at <= self.head(cell as int),
        ensures
            r.wf(),
            r.kv() == self.kv_at(cell as int, at as int),
            r.log() == self.log_at(cell as int, at as int),
    {
        assert(self.cells@[cell as int].wf());
        self.cells[cell].history[at].copy()
    }

    /// Makes the next transaction on `cell` fail with an I/O error.
    pub fn arm_apply_failure(&mut self, cell: CellId)
        requires
            old(self).wf(),
            cell < old(self).num_cells(),
        ensures
            final(self).wf(),
            Store::same_history(old(self), final(self)),
            final(self).fault_armed(cell as int),
            forall|c: int| 0 <= c < old(self).num_cells() && c != cell ==> #[trigger] final(self).fault_armed(c) == old(self).fault_armed(c),
    {
        let ghost old_cells = self.cells@;
        assert(old_cells[cell as int].wf());
        self.cells[cell].fail_next_apply = true;
        assert(self.cells@[cell as int].history@ == old_cells[cell as int].history@);
        assert forall|c: int| 0 <= c < self.cells@.len() implies #[trigger] self.cells@[c].wf() by {
            if c != cell {
                assert(old_cells[c].wf());
            }
        }
    }

    /// Applies a commit set as one transaction. It succeeds exactly when the
    /// cell exists, no failure is armed on it and the commit was prepared
    /// against its head; then the new head is the base state with the writes
    /// laid over its data and the appended entries added to its log. On
    /// failure no snapshot changes.
    pub fn apply(&mut self, cs: CommitSet) -> (r: Result<(), StoreError>)
        requires
            old(self).wf(),
            cs.wf(),
        ensures
            final(self).wf(),
            Store::keeps_history(old(self), final(self)),
            final(self).num_cells() == old(self).num_cells(),
            r is Err <==> (cs.cell() >= old(self).num_cells() || old(self).fault_armed(cs.cell() as int)
                || cs.base() != old(self).head(cs.cell() as int)),
            r == Err::<(), StoreError>(StoreError::UnknownCell) <==> cs.cell() >= old(self).num_cells(),
            r == Err::<(), StoreError>(StoreError::Io) <==> (cs.cell() < old(self).num_cells() && old(self).fault_armed(cs.cell() as int)),
            r is Err ==> Store::same_history(old(self), final(self)),
            r is Ok ==> {
                let c = cs.cell() as int;
                &&& final(self).head(c) == old(self).head(c) + 1
                &&& final(self).kv_at(c, final(self).head(c)) == old(self).kv_at(c, cs.base() as int).union_prefer_right(cs.writes())
                &&& final(self).log_at(c, final(self).head(c)) == old(self).log_at(c, cs.base() as int) + cs.appended()
                &&& forall|d: int| 0 <= d < old(self).num_cells() && d != c ==> #[trigger] final(self).head(d) == old(self).head(d)
            },
            forall|d: int| 0 <= d < old(self).num_cells() && d != cs.cell() ==> #[trigger] final(self).fault_armed(d) == old(self).fault_armed(d),
            cs.cell() < old(self).num_cells() ==> !final(self).fault_armed(cs.cell() as int),
    {
        let CommitSet { cell, base, writes, appended } = cs;
        if cell >= self.cells.len() {
            return Err(StoreError::UnknownCell);
        }
        let ghost cells0 = self.cells@;
        assert(cells0[cell as int].wf());
        if self.cells[cell].fail_next_apply {
            self.cells[cell].fail_next_apply = false;
            assert(self.cells@[cell as int].history@ == cells0[cell as int].history@);
            assert forall|c: int| 0 <= c < self.cells@.len() implies #[trigger] self.cells@[c].wf() by {
                if c != cell {
                    assert(cells0[c].wf());
                }
            }
            return Err(StoreError::Io);
        }
        let head = self.cells[cell].history.len() - 1;
        if base != head {
            return Err(StoreError::Conflict);
        }
        let mut next = self.cells[cell].history[base].copy();
        next.kv.overlay(&writes);
        let ghost log0 = next.log@;
        let ghost kv1 = next.kv@;
        let mut i: usize = 0;
        while i < appended.len()
            invariant
                i <= appended@.len(),
                next.kv.wf(),
                next.kv@ == kv1,
                next.log@.len() == log0.len() + i,
                forall|j: int| 0 <= j < log0.len() ==> #[trigger] next.log@[j] == log0[j],
                forall|j: int| 0 <= j < i ==> #[trigger] next.log@[log0.len() + j]@ == appended@[j]@,
            decreases appended@.len() - i,
        {
            next.log.push(copy_bytes(&appended[i]));
            i = i + 1;
        }
        proof {
            assert forall|j: int| 0 <= j < next.log@.len() implies #[trigger] entries_view(next.log@)[j] == (entries_view(log0) + entries_view(appended@))[j] by {
                if j >= log0.len() {
                    assert(next.log@[log0.len() + (j - log0.len())]@ == appended@[j - log0.len()]@);
                }
            }
            assert(entries_view(next.log@) =~= entries_view(log0) + entries_view(appended@));
        }
        let ghost old_cells = self.cells@;
        self.cells[cell].history.push(next);
        proof {
            assert(self.cells@[cell as int].history@ == old_cells[cell as int].history@.push(next));
            assert(self.cells@[cell as int].wf());
            assert forall|c: int| 0 <= c < old_cells.len() && c != cell implies self.cells@[c] == old_cells[c] by {}
            assert(self.head(cell as int) == old_cells[cell as int].history@.len());
            assert(self.cells@[cell as int].history@[self.head(cell as int)] == next);
            assert(next.kv@ == cells0[cell as int].history@[base as int].kv().union_prefer_right(writes@));
            assert(next.log() == cells0[cell as int].history@[base as int].log() + entries_view(appended@));
            assert forall|c: int| 0 <= c < self.cells@.len() implies #[trigger] self.cells@[c].wf() by {
                if c != cell {
                    assert(old_cells[c].wf());
                }
            }
        }
        Ok(())
    }
}

} // verus!
