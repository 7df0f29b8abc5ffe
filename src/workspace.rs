use vstd::prelude::*;
use crate::error::WorkspaceError;
use crate::kvmap::{copy_bytes, KvMap};
use crate::store::{entries_view, opt_view, CellState, CommitSet, Store};
use crate::types::{Address, CellId};

verus! {

/// A transactional view over one cell's state for the length of one workflow
/// execution: a fixed snapshot to read from and a private buffer of writes.
/// Nothing written here is visible elsewhere until the workspace is turned
/// into a commit set and applied.
#[derive(Debug)]
pub struct Workspace {
    cell: CellId,
    base: Address,
    snapshot: CellState,
    writes: KvMap,
    appended: Vec<Vec<u8>>,
}

impl Workspace {
    pub closed spec fn wf(&self) -> bool {
        self.snapshot.wf() && self.writes.wf()
    }

    pub closed spec fn cell(&self) -> CellId {
        self.cell
    }

    /// Address of the snapshot this workspace reads.
    pub closed spec fn base(&self) -> Address {
        self.base
    }

    /// Key/value data of the snapshot.
    pub closed spec fn snapshot_kv(&self) -> Map<u64, Seq<u8>> {
        self.snapshot.kv()
    }

    /// Log of the snapshot.
    pub closed spec fn snapshot_log(&self) -> Seq<Seq<u8>> {
        self.snapshot.log()
    }

    /// Buffered writes.
    pub closed spec fn writes(&self) -> Map<u64, Seq<u8>> {
        self.writes@
    }

    /// Buffered log entries.
    pub closed spec fn appended(&self) -> Seq<Seq<u8>> {
        entries_view(self.appended@)
    }

    /// Nothing has been buffered.
    pub open spec fn is_clean(&self) -> bool {
        self.writes() == Map::<u64, Seq<u8>>::empty() && self.appended() == Seq::<Seq<u8>>::empty()
    }

    /// What a read of `key` returns: the buffered write if there is one, else
    /// the snapshot's value.
    pub open spec fn read(&self, key: u64) -> Option<Seq<u8>> {
        if self.writes().contains_key(key) {
            Some(self.writes()[key])
        } else if self.snapshot_kv().contains_key(key) {
            Some(self.snapshot_kv()[key])
        } else {
            None
        }
    }

    /// The log as this workspace sees it: the snapshot's entries, then the
    /// buffered ones.
    pub open spec fn log(&self) -> Seq<Seq<u8>> {
        self.snapshot_log() + self.appended()
    }

    /// The snapshot this workspace reads is snapshot `base` of its cell in `s`.
    pub open spec fn observes(&self, s: &Store) -> bool {
        &&& self.cell() < s.num_cells()
        &&& self.base() <= s.head(self.cell() as int)
        &&& self.snapshot_kv() == s.kv_at(self.cell() as int, self.base() as int)
        &&& self.snapshot_log() == s.log_at(self.cell() as int, self.base() as int)
    }

    /// Opens a workspace on snapshot `at` of `cell`.
    pub fn open(store: &Store, cell: CellId, at: Address) -> (r: Result<Workspace, WorkspaceError>)
        requires
            store.wf(),
        ensures
            r is Ok <==> cell < store.num_cells() && at <= store.head(cell as int),
            cell >= store.num_cells() ==> r == Err::<Workspace, WorkspaceError>(WorkspaceError::StoreNotInitialized(cell)),
            cell < store.num_cells() && at > store.head(cell as int) ==> r == Err::<Workspace, WorkspaceError>(WorkspaceError::SnapshotNotFound(cell, at)),
            r matches Ok(ws) ==> {
                &&& ws.wf()
                &&& ws.observes(store)
                &&& ws.cell() == cell
                &&& ws.base() == at
                &&& ws.is_clean()
            },
    {
        if cell >= store.cell_count() {
            return Err(WorkspaceError::StoreNotInitialized(cell));
        }
        if at > store.head_of(cell) {
            return Err(WorkspaceError::SnapshotNotFound(cell, at));
        }
        let snapshot = store.read_snapshot(cell, at);
        let ws = Workspace { cell, base: at, snapshot, writes: KvMap::new(), appended: Vec::new() };
        assert(ws.appended() =~= Seq::<Seq<u8>>::empty());
        Ok(ws)
    }

    /// Opens a workspace on the newest snapshot of `cell`, for a workflow that
    /// will write.
    pub fn open_head(store: &Store, cell: CellId) -> (r: Result<Workspace, WorkspaceError>)
        requires
            store.wf(),
        ensures
            r is Ok <==> cell < store.num_cells(),
            r is Err ==> r == Err::<Workspace, WorkspaceError>(WorkspaceError::StoreNotInitialized(cell)),
            r matches Ok(ws) ==> {
                &&& ws.wf()
                &&& ws.observes(store)
                &&& ws.cell() == cell
                &&& ws.base() == store.head(cell as int)
                &&& ws.is_clean()
            },
    {
        if cell >= store.cell_count() {
            return Err(WorkspaceError::StoreNotInitialized(cell));
        }
        let head = store.head_of(cell);
        Workspace::open(store, cell, head)
    }

    pub fn cell_id(&self) -> (r: CellId)
        ensures
            r == self.cell(),
    {
        self.cell
    }

    pub fn base_address(&self) -> (r: Address)
        ensures
            r == self.base(),
    {
        self.base
    }

    /// Reads `key`, from the write buffer first, then from the snapshot.
    pub fn get(&self, key: u64) -> (r: Option<Vec<u8>>)
        requires
            self.wf(),
        ensures
            opt_view(r) == self.read(key),
    {
        match self.writes.get(key) {
            Some(v) => Some(v),
            None => self.snapshot.get(key),
        }
    }

    /// Buffers a write of `value` under `key`.
    pub fn put(&mut self, key: u64, value: Vec<u8>)
        requires
            old(self).wf(),
        ensures
            final(self).wf(),
            final(self).writes() == old(self).writes().insert(key, value@),
            final(self).cell() == old(self).cell(),
            final(self).base() == old(self).base(),
            final(self).snapshot_kv() == old(self).snapshot_kv(),
            final(self).snapshot_log() == old(self).snapshot_log(),
            final(self).appended() == old(self).appended(),
    {
        self.writes.insert(key, value);
    }

    /// Number of entries in the log as this workspace sees it.
    pub fn log_len(&self) -> (r: usize)
        requires
            self.log().len() <= usize::MAX,
        ensures
            r == self.log().len(),
    {
        self.snapshot.log_len() + self.appended.len()
    }

    /// Number of entries in the log as this workspace sees it, or `None` if
    /// that number does not fit in a `usize`.
    pub fn log_len_checked(&self) -> (r: Option<usize>)
        ensures
            r is Some <==> self.log().len() <= usize::MAX,
            r matches Some(n) ==> n == self.log().len(),
    {
        self.snapshot.log_len().checked_add(self.appended.len())
    }

    /// Buffers a new log entry and returns its position in the log.
    pub fn append_entry(&mut self, entry: Vec<u8>) -> (r: usize)
        requires
            old(self).wf(),
            old(self).log().len() < usize::MAX,
        ensures
            final(self).wf(),
            r == old(self).log().len(),
            final(self).appended() == old(self).appended().push(entry@),
            final(self).cell() == old(self).cell(),
            final(self).base() == old(self).base(),
            final(self).snapshot_kv() == old(self).snapshot_kv(),
            final(self).snapshot_log() == old(self).snapshot_log(),
            final(self).writes() == old(self).writes(),
    {
        let r = self.log_len();
        self.appended.push(entry);
        assert(self.appended() =~= old(self).appended().push(entry@));
        r
    }

    /// Reads log entry `i` as this workspace sees it.
    pub fn entry(&self, i: usize) -> (r: Option<Vec<u8>>)
        requires
            self.log().len() <= usize::MAX,
        ensures
            opt_view(r) == (if i < self.log().len() {
                Some(self.log()[i as int])
            } else {
                None
            }),
    {
        let n = self.snapshot.log_len();
        if i < n {
            Some(self.snapshot.entry(i))
        } else if i - n < self.appended.len() {
            Some(copy_bytes(&self.appended[i - n]))
        } else {
            None
        }
    }

    /// Reads the newest log entry, failing with `EmptyStore` when the log
    /// holds none.
    pub fn latest_entry(&self) -> (r: Result<Vec<u8>, WorkspaceError>)
        requires
            self.log().len() <= usize::MAX,
        ensures
            r is Err <==> self.log().len() == 0,
            r is Err ==> r == Err::<Vec<u8>, WorkspaceError>(WorkspaceError::EmptyStore(self.cell())),
            r matches Ok(e) ==> e@ == self.log().last(),
    {
        let n = self.log_len();
        if n == 0 {
            return Err(WorkspaceError::EmptyStore(self.cell));
        }
        match self.entry(n - 1) {
            Some(e) => Ok(e),
            None => Err(WorkspaceError::EmptyStore(self.cell)),
        }
    }

    /// Finalizes the buffered writes into a commit set for this workspace's
    /// cell and snapshot, consuming the workspace.
    pub fn into_commit_set(self) -> (r: CommitSet)
        requires
            self.wf(),
        ensures
            r.wf(),
            r.cell() == self.cell(),
            r.base() == self.base(),
            r.writes() == self.writes(),
            r.appended() == self.appended(),
    {
        CommitSet::new(self.cell, self.base, self.writes, self.appended)
    }
}

/// A workspace opened on a committed snapshot keeps observing exactly that
/// snapshot, in full, while other transactions commit to the store: what it
/// reads is its own buffered writes over the snapshot and never any part of
/// a later state.
pub proof fn lemma_snapshot_isolation(ws: &Workspace, before: &Store, after: &Store)
    requires
        ws.observes(before),
        Store::keeps_history(before, after),
    ensures
        ws.observes(after),
        forall|k: u64| #[trigger] ws.read(k) == if ws.writes().contains_key(k) {
            Some(ws.writes()[k])
        } else if after.kv_at(ws.cell() as int, ws.base() as int).contains_key(k) {
            Some(after.kv_at(ws.cell() as int, ws.base() as int)[k])
        } else {
            None
        },
        ws.log() == after.log_at(ws.cell() as int, ws.base() as int) + ws.appended(),
{
    assert(after.kv_at(ws.cell() as int, ws.base() as int) == before.kv_at(ws.cell() as int, ws.base() as int));
}

} // verus!
