//! Durable replica state: the record that is saved and loaded, the store
//! that saves it, and a replica that persists after every change.

use std::collections::BTreeSet;
use vstd::prelude::*;
use crate::block::{BlockCommand, BlockOp, BlockOpView, BlockResponse, LogEntry, LogEntryView, LogIndex, NodeId, RaftBlockError, Term, command_is_empty_write, command_entry_ok};
use crate::replica::{sorted_elements, geometry_error, fresh_replica, replica_view_wf, entry_views, indexes_through, BlockSnapshot, PersistentReplicaState, Replica, ReplicaView};
use crate::cluster::{strictly_increasing, read_range_of};

verus! {

broadcast use {vstd::std_specs::btree::group_btree_axioms, vstd::laws_cmp::group_laws_cmp};


/// A place the durable record of a replica can be saved to and loaded from.
/// Implementations decide where the record lives; a save must be atomic so
/// that a later load never sees a partly written record.
pub trait ReplicaStoreImpl {
    /// Whether `r` is a result this store's `load` may give. A store says
    /// nothing of its loads unless it narrows this.
    open spec fn load_outcome(&self, r: Result<Option<PersistentReplicaState>, RaftBlockError>) -> bool {
        true
    }

    /// Whether `r` is a result this store's `save` of `state` may give. A
    /// store says nothing of its saves unless it narrows this.
    open spec fn save_outcome(&self, state: PersistentReplicaState, r: Result<(), RaftBlockError>) -> bool {
        true
    }

    /// The last record saved, or `None` if none has been saved yet.
    fn load(&self) -> (r: Result<Option<PersistentReplicaState>, RaftBlockError>)
        ensures
            self.load_outcome(r),
    ;

    /// Saves `state` so that a later `load` returns it.
    fn save(&self, state: &PersistentReplicaState) -> (r: Result<(), RaftBlockError>)
        ensures
            self.save_outcome(*state, r),
    ;
}

/// A store that never keeps anything.
#[derive(Debug, Clone, Copy)]
pub struct NoStore;

impl ReplicaStoreImpl for NoStore {
    /// A load finds nothing.
    open spec fn load_outcome(&self, r: Result<Option<PersistentReplicaState>, RaftBlockError>) -> bool {
        r == Ok::<Option<PersistentReplicaState>, RaftBlockError>(None)
    }

    /// A save succeeds.
    open spec fn save_outcome(&self, state: PersistentReplicaState, r: Result<(), RaftBlockError>) -> bool {
        r == Ok::<(), RaftBlockError>(())
    }

    /// Nothing was ever saved.
    fn load(&self) -> (r: Result<Option<PersistentReplicaState>, RaftBlockError>) {
        Ok(None)
    }

    /// Accepts the record and drops it.
    fn save(&self, state: &PersistentReplicaState) -> (r: Result<(), RaftBlockError>) {
        Ok(())
    }
}

#[derive(Debug, Clone)]
enum ReplicaStoreKind<S> {
    External(S),
    NoOp,
}

/// The store handle a persistent replica writes through: either a backend
/// of the caller's choosing, or one that never persists.
#[derive(Debug, Clone)]
pub struct FileReplicaStore<S> {
    inner: ReplicaStoreKind<S>,
}

impl<S: ReplicaStoreImpl> FileReplicaStore<S> {
    /// Whether this handle never persists anything.
    pub closed spec fn is_in_memory(&self) -> bool {
        self.inner is NoOp
    }

    /// An in-memory handle has no backend, and any other handle has one.
    pub proof fn lemma_in_memory_has_no_backend(&self)
        ensures
            self.is_in_memory() <==> self.backend() is None,
    {
    }

    /// The backend this handle forwards to, unless it is in memory.
    pub closed spec fn backend(&self) -> Option<S> {
        match self.inner {
            ReplicaStoreKind::External(b) => Some(b),
            ReplicaStoreKind::NoOp => None,
        }
    }

    /// What a load through this handle may give: whatever the backend's
    /// load may give; nothing for an in-memory handle.
    pub open spec fn load_outcome(&self, r: Result<Option<PersistentReplicaState>, RaftBlockError>) -> bool {
        match self.backend() {
            Some(b) => b.load_outcome(r),
            None => r == Ok::<Option<PersistentReplicaState>, RaftBlockError>(None),
        }
    }

    /// What a save of `state` through this handle may give: whatever the
    /// backend's save of that same state may give; success for an
    /// in-memory handle.
    pub open spec fn save_outcome(&self, state: PersistentReplicaState, r: Result<(), RaftBlockError>) -> bool {
        match self.backend() {
            Some(b) => b.save_outcome(state, r),
            None => r == Ok::<(), RaftBlockError>(()),
        }
    }

    /// A handle that saves to and loads from `backend`.
    pub fn external(backend: S) -> (s: Self)
        ensures
            !s.is_in_memory(),
            s.backend() == Some(backend),
    {
        FileReplicaStore { inner: ReplicaStoreKind::External(backend) }
    }

    /// The last saved record, as the backend's load gives it; an in-memory
    /// handle has none.
    pub fn load(&self) -> (r: Result<Option<PersistentReplicaState>, RaftBlockError>)
        ensures
            self.load_outcome(r),
            self.is_in_memory() ==> r == Ok::<Option<PersistentReplicaState>, RaftBlockError>(None),
    {
        match &self.inner {
            ReplicaStoreKind::External(backend) => backend.load(),
            ReplicaStoreKind::NoOp => Ok(None),
        }
    }

    /// Hands `state` to the backend's save and gives back its result; an
    /// in-memory handle accepts and drops it.
    pub fn save(&self, state: &PersistentReplicaState) -> (r: Result<(), RaftBlockError>)
        ensures
            self.save_outcome(*state, r),
            self.is_in_memory() ==> r == Ok::<(), RaftBlockError>(()),
    {
        match &self.inner {
            ReplicaStoreKind::External(backend) => backend.save(state),
            ReplicaStoreKind::NoOp => Ok(()),
        }
    }
}

impl FileReplicaStore<NoStore> {
    /// A handle that never persists: loads find nothing, saves succeed.
    pub fn in_memory() -> (s: Self)
        ensures
            s.is_in_memory(),
    {
        FileReplicaStore { inner: ReplicaStoreKind::NoOp }
    }
}

/// Nothing is ever kept through a handle whose store is `NoStore`: the
/// in-memory handle, any clone of it (a clone has the same type), or an
/// external handle on `NoStore`. Every load finds nothing, every save
/// succeeds, and reopening finds no replica, whatever was created or saved
/// through it before.
pub proof fn nothing_persists_without_a_store(
    s: FileReplicaStore<NoStore>,
    state: PersistentReplicaState,
    loaded: Result<Option<PersistentReplicaState>, RaftBlockError>,
    saved: Result<(), RaftBlockError>,
    opened: Result<Option<PersistentReplica<NoStore>>, RaftBlockError>,
)
    ensures
        s.load_outcome(loaded) ==> loaded == Ok::<Option<PersistentReplicaState>, RaftBlockError>(None),
        s.save_outcome(state, saved) ==> saved == Ok::<(), RaftBlockError>(()),
        (exists|l: Result<Option<PersistentReplicaState>, RaftBlockError>|
            #[trigger] s.load_outcome(l) && PersistentReplica::<NoStore>::reopened(s, l, opened))
            ==> opened == Ok::<Option<PersistentReplica<NoStore>>, RaftBlockError>(None),
{
}

/// The abstract state of a persistent replica.
pub struct PersistentReplicaView {
    pub replica: ReplicaView,
    pub log: Seq<LogEntryView>,
    pub compacted_through: LogIndex,
    pub next_index: LogIndex,
}

/// The largest index in `log`, or `floor` when it holds none larger.
pub open spec fn max_index_or(log: Seq<LogEntryView>, floor: LogIndex) -> LogIndex
    decreases log.len(),
{
    if log.len() == 0 {
        floor
    } else {
        let rest = max_index_or(log.drop_last(), floor);
        if log.last().index > rest { log.last().index } else { rest }
    }
}

/// The highest applied index, or `floor` when nothing is applied.
pub open spec fn last_applied_or(applied: Set<LogIndex>, floor: LogIndex) -> LogIndex {
    if applied.is_empty() {
        floor
    } else {
        choose|m: LogIndex| applied.contains(m) && forall|x: LogIndex| applied.contains(x) ==> x <= m
    }
}

/// The bytes an operation writes.
pub open spec fn bytes_written(op: BlockOpView) -> u64 {
    match op {
        BlockOpView::Write { bytes, .. } => bytes.len() as u64,
        BlockOpView::Flush => 0,
    }
}

/// `after` and `r` are what appending `e` to `before` yields: a refused
/// entry changes nothing; an accepted one takes effect, joins the log and
/// is saved, and the save decides the result (an in-memory store always
/// succeeds).
pub open spec fn appended(before: PersistentReplicaView, e: LogEntryView, after: PersistentReplicaView, r: Result<
    BlockResponse,
    RaftBlockError,
>, in_memory: bool) -> bool {
    let (res, rep) = before.replica.apply_outcome(e);
    match res {
        Err(err) => r == Err::<BlockResponse, RaftBlockError>(err) && after == (PersistentReplicaView {
            replica: rep,
            ..before
        }),
        Ok(_) => {
            &&& after == (PersistentReplicaView {
                replica: rep,
                log: before.log.push(e),
                next_index: max_index(before.next_index, (e.index + 1) as u64),
                ..before
            })
            &&& r matches Ok(resp) ==> resp == (BlockResponse {
                applied_index: e.index,
                bytes_written: bytes_written(e.op),
            })
            &&& in_memory ==> r is Ok
        },
    }
}

/// The index after `m`, wrapping to 0 past the largest index.
pub open spec fn index_after(m: LogIndex) -> LogIndex {
    if m == u64::MAX { 0 } else { (m + 1) as u64 }
}

proof fn lemma_last_applied_is(applied: Set<LogIndex>, floor: LogIndex, m: LogIndex)
    requires
        applied.contains(m),
        forall|x: LogIndex| applied.contains(x) ==> x <= m,
    ensures
        last_applied_or(applied, floor) == m,
{
    assert(!applied.is_empty());
    let c = choose|c: LogIndex| applied.contains(c) && forall|x: LogIndex| applied.contains(x) ==> x <= c;
    assert(c <= m && m <= c);
}

/// The larger of two indexes.
pub open spec fn max_index(a: LogIndex, b: LogIndex) -> LogIndex {
    if a > b { a } else { b }
}

/// The state of the replica a saved record describes.
pub open spec fn restored_view(state: PersistentReplicaState) -> PersistentReplicaView {
    PersistentReplicaView {
        replica: ReplicaView {
            id: state.node_id,
            block_size: state.block_size,
            bytes: state.bytes@,
            highest_term_seen: state.highest_term_seen,
            applied: state.applied_indexes@.to_set(),
            fail_after: None,
        },
        log: entry_views(state.log@),
        compacted_through: state.compacted_through,
        next_index: index_after(max_index_or(entry_views(state.log@), state.compacted_through)),
    }
}

/// `s` is the durable record of the persistent replica state `v`: its
/// geometry, term, bytes, applied set, log and compaction point.
pub open spec fn describes(s: PersistentReplicaState, v: PersistentReplicaView) -> bool {
    &&& s.node_id == v.replica.id
    &&& s.capacity_bytes == v.replica.bytes.len()
    &&& s.block_size == v.replica.block_size
    &&& s.highest_term_seen == v.replica.highest_term_seen
    &&& strictly_increasing(s.applied_indexes@)
    &&& s.applied_indexes@.to_set() == v.replica.applied
    &&& s.bytes@ == v.replica.bytes
    &&& entry_views(s.log@) == v.log
    &&& s.compacted_through == v.compacted_through
}

/// Reopening from the record a replica last handed to its store gives back
/// that replica's blocks, term, applied set, log and compaction point, and
/// the record always passes the geometry checks of reopening (the simulated
/// disk limit is not part of the record).
pub proof fn saved_record_reopens(s: PersistentReplicaState, v: PersistentReplicaView)
    requires
        replica_view_wf(v.replica),
        describes(s, v),
    ensures
        geometry_error(s.capacity_bytes, s.block_size) is None,
        s.bytes@.len() == s.capacity_bytes,
        restored_view(s).replica == (ReplicaView { fail_after: None, ..v.replica }),
        restored_view(s).log == v.log,
        restored_view(s).compacted_through == v.compacted_through,
{
}

/// What an append does with the store: a refused entry saves nothing; an
/// accepted one hands over the record of the new state, and the append's
/// result is what the save returned: the save's error, or on success the
/// entry's response.
pub open spec fn saved_after_append(
    before: PersistentReplicaView,
    e: LogEntryView,
    saved_before: Option<(PersistentReplicaState, Result<(), RaftBlockError>)>,
    after: PersistentReplicaView,
    saved_after: Option<(PersistentReplicaState, Result<(), RaftBlockError>)>,
    r: Result<BlockResponse, RaftBlockError>,
) -> bool {
    if before.replica.apply_outcome(e).0 is Err {
        saved_after == saved_before
    } else {
        saved_after matches Some((s, sr)) && describes(s, after) && r == match sr {
            Ok(_) => Ok::<BlockResponse, RaftBlockError>(
                BlockResponse { applied_index: e.index, bytes_written: bytes_written(e.op) },
            ),
            Err(err) => Err::<BlockResponse, RaftBlockError>(err),
        }
    }
}

/// A replica whose record is saved to its store after every change.
pub struct PersistentReplica<S> {
    replica: Replica,
    log: Vec<LogEntry>,
    compacted_through: LogIndex,
    next_index: LogIndex,
    store: FileReplicaStore<S>,
    saved: Ghost<Option<(PersistentReplicaState, Result<(), RaftBlockError>)>>,
}

impl<S: ReplicaStoreImpl> PersistentReplica<S> {
    pub closed spec fn view(&self) -> PersistentReplicaView {
        PersistentReplicaView {
            replica: self.replica@,
            log: entry_views(self.log@),
            compacted_through: self.compacted_through,
            next_index: self.next_index,
        }
    }

    pub closed spec fn wf(&self) -> bool {
        &&& self.replica.wf()
        &&& self.save_recorded()
    }

    /// The result recorded for the last record handed over is one the
    /// store's save of that record may give.
    pub open spec fn save_recorded(&self) -> bool {
        self.last_saved() matches Some((s, sr)) ==> self.store().save_outcome(s, sr)
    }

    /// A well-formed replica recorded a result its store may give.
    pub proof fn lemma_wf_save_recorded(&self)
        requires
            self.wf(),
        ensures
            self.save_recorded(),
    {
    }

    /// The store this replica saves to.
    pub closed spec fn store(&self) -> FileReplicaStore<S> {
        self.store
    }

    /// The last record this replica handed to its store, with what the
    /// store's `save` returned for it, if any was handed over.
    pub closed spec fn last_saved(&self) -> Option<(PersistentReplicaState, Result<(), RaftBlockError>)> {
        self.saved@
    }

    /// The durable record of the current state.
    pub fn record(&self) -> (s: PersistentReplicaState)
        requires
            self.wf(),
        ensures
            describes(s, self.view()),
    {
        let log = copy_log(&self.log);
        PersistentReplicaState::from_replica(&self.replica, log, self.compacted_through)
    }

    /// Hands the record of the current state to the store.
    fn persist(&mut self) -> (r: Result<(), RaftBlockError>)
        requires
            old(self).wf(),
        ensures
            final(self).wf(),
            final(self).view() == old(self).view(),
            final(self).store() == old(self).store(),
            final(self).last_saved() matches Some((s, sr)) && describes(s, final(self).view()) && sr == r,
            old(self).store().is_in_memory() ==> r == Ok::<(), RaftBlockError>(()),
    {
        let state = self.record();
        let r = self.store.save(&state);
        self.saved = Ghost(Some((state, r)));
        r
    }

    /// A fresh replica, saved once before it is returned.
    pub fn create(store: FileReplicaStore<S>, node_id: NodeId, capacity_bytes: u64, block_size: u64) -> (r:
        Result<Self, RaftBlockError>)
        requires
            capacity_bytes <= usize::MAX,
        ensures
            geometry_error(capacity_bytes, block_size) matches Some(e) ==> r == Err::<Self, RaftBlockError>(e),
            geometry_error(capacity_bytes, block_size) is None && store.is_in_memory() ==> r is Ok,
            r matches Ok(p) ==> p.wf() && p.store() == store && p.view() == (PersistentReplicaView {
                replica: fresh_replica(node_id, capacity_bytes, block_size),
                log: Seq::empty(),
                compacted_through: 0,
                next_index: 1,
            }) && (p.last_saved() matches Some((s, sr)) && describes(s, p.view()) && sr is Ok),
    {
        let replica = Replica::new(node_id, capacity_bytes, block_size)?;
        let mut out = PersistentReplica {
            replica,
            log: Vec::new(),
            compacted_through: 0,
            next_index: 1,
            store,
            saved: Ghost(None),
        };
        proof {
            assert(entry_views(out.log@) =~= Seq::<LogEntryView>::empty());
        }
        out.persist()?;
        Ok(out)
    }


    /// Turns `command` into the next entry at `term` and appends it.
    pub fn append_command(&mut self, term: Term, command: BlockCommand) -> (r: Result<BlockResponse, RaftBlockError>)
        requires
            old(self).wf(),
            old(self).view().next_index < u64::MAX,
        ensures
            final(self).wf(),
            final(self).store() == old(self).store(),
            command_is_empty_write(command) ==> r == Err::<BlockResponse, RaftBlockError>(
                RaftBlockError::EmptyWrite,
            ) && final(self).view() == old(self).view(),
            command_is_empty_write(command) ==> final(self).last_saved() == old(self).last_saved(),
            !command_is_empty_write(command) ==> exists|e: LogEntryView|
                command_entry_ok(command, term, old(self).view().next_index, e) && #[trigger] appended(
                    old(self).view(),
                    e,
                    final(self).view(),
                    r,
                    old(self).store().is_in_memory(),
                ) && saved_after_append(
                    old(self).view(),
                    e,
                    old(self).last_saved(),
                    final(self).view(),
                    final(self).last_saved(),
                    r,
                ),
    {
        let entry = command.into_entry(term, self.next_index)?;
        let r = self.append_entry(entry);
        r
    }

    /// Applies `entry` to the replica, records it in the log and saves.
    pub fn append_entry(&mut self, entry: LogEntry) -> (r: Result<BlockResponse, RaftBlockError>)
        requires
            old(self).wf(),
            entry.index < u64::MAX,
        ensures
            final(self).wf(),
            final(self).store() == old(self).store(),
            appended(old(self).view(), entry@, final(self).view(), r, old(self).store().is_in_memory()),
            saved_after_append(old(self).view(), entry@, old(self).last_saved(), final(self).view(), final(self).last_saved(), r),
    {
        self.replica.apply(&entry)?;
        let bytes_written: u64 = match &entry.op {
            BlockOp::Write { bytes, .. } => bytes.len() as u64,
            BlockOp::Flush => 0,
        };
        if entry.index + 1 > self.next_index {
            self.next_index = entry.index + 1;
        }
        let ghost prev = self.log@;
        let copy = entry.duplicate();
        self.log.push(copy);
        proof {
            assert(entry_views(self.log@) =~= entry_views(prev).push(entry@));
        }
        self.persist()?;
        Ok(BlockResponse { applied_index: entry.index, bytes_written })
    }

    /// Installs `snapshot` on the replica and drops the log it covers.
    pub fn install_snapshot(&mut self, snapshot: &BlockSnapshot) -> (r: Result<(), RaftBlockError>)
        requires
            old(self).wf(),
            snapshot.last_included_index < u64::MAX,
        ensures
            final(self).wf(),
            final(self).store() == old(self).store(),
            snapshot.bytes@.len() != old(self).view().replica.bytes.len() ==> r == Err::<(), RaftBlockError>(
                RaftBlockError::InvalidCapacity,
            ) && final(self).view() == old(self).view() && final(self).last_saved() == old(self).last_saved(),
            snapshot.bytes@.len() == old(self).view().replica.bytes.len() ==> {
                &&& final(self).view() == (PersistentReplicaView {
                    replica: ReplicaView {
                        bytes: snapshot.bytes@,
                        applied: indexes_through(snapshot.last_included_index),
                        ..old(self).view().replica.observe(snapshot.highest_term_seen)
                    },
                    log: old(self).view().log.filter(|e: LogEntryView| e.index > snapshot.last_included_index),
                    compacted_through: max_index(old(self).view().compacted_through, snapshot.last_included_index),
                    next_index: max_index(old(self).view().next_index, (snapshot.last_included_index + 1) as u64),
                })
                &&& final(self).last_saved() matches Some((s, sr)) && describes(s, final(self).view()) && r == sr
                &&& old(self).store().is_in_memory() ==> r == Ok::<(), RaftBlockError>(())
            },
    {
        self.replica.install_snapshot(snapshot)?;
        let last = snapshot.last_included_index;
        let ghost old_log = entry_views(self.log@);
        let mut kept: Vec<LogEntry> = Vec::new();
        let n = self.log.len();
        let mut i: usize = 0;
        proof {
            reveal_with_fuel(Seq::filter, 1);
            assert(old_log.take(0).filter(|e: LogEntryView| e.index > last) =~= Seq::<LogEntryView>::empty());
        }
        while i < n
            invariant
                0 <= i <= n,
                n == self.log@.len(),
                old_log == entry_views(self.log@),
                entry_views(kept@) == old_log.take(i as int).filter(|e: LogEntryView| e.index > last),
            decreases n - i,
        {
            let ghost before = entry_views(kept@);
            proof {
                reveal_with_fuel(Seq::filter, 1);
                let t = old_log.take(i + 1);
                assert(t.drop_last() =~= old_log.take(i as int));
                assert(t.last() == self.log@[i as int]@);
            }
            if self.log[i].index > last {
                let copy = self.log[i].duplicate();
                kept.push(copy);
                assert(entry_views(kept@) =~= before.push(self.log@[i as int]@));
            }
            i = i + 1;
        }
        proof {
            assert(old_log.take(n as int) =~= old_log);
        }
        self.log = kept;
        if last > self.compacted_through {
            self.compacted_through = last;
        }
        if last + 1 > self.next_index {
            self.next_index = last + 1;
        }
        self.persist()
    }

    /// A snapshot of the replica at its highest applied index (or the
    /// compaction point when nothing is applied).
    pub fn snapshot(&self) -> (s: BlockSnapshot)
        requires
            self.wf(),
        ensures
            s.replica_id == self.view().replica.id,
            s.last_included_index == last_applied_or(self.view().replica.applied, self.view().compacted_through),
            s.highest_term_seen == self.view().replica.highest_term_seen,
            s.bytes@ == self.view().replica.bytes,
    {
        let last = self.last_applied_index();
        self.replica.snapshot(last)
    }

    pub fn read_all(&self) -> (b: &[u8])
        ensures
            b@ == self.view().replica.bytes,
    {
        self.replica.read_all()
    }

    pub fn node_id(&self) -> (id: NodeId)
        ensures
            id == self.view().replica.id,
    {
        self.replica.id()
    }

    pub fn capacity_bytes(&self) -> (c: u64)
        requires
            self.wf(),
        ensures
            c == self.view().replica.bytes.len(),
    {
        self.replica.read_all().len() as u64
    }

    pub fn block_size(&self) -> (b: u64)
        ensures
            b == self.view().replica.block_size,
    {
        self.replica.block_size()
    }

    pub fn compacted_through(&self) -> (c: LogIndex)
        ensures
            c == self.view().compacted_through,
    {
        self.compacted_through
    }

    /// The highest applied index, or the compaction point when nothing is applied.
    pub fn last_applied_index(&self) -> (i: LogIndex)
        requires
            self.wf(),
        ensures
            i == last_applied_or(self.view().replica.applied, self.view().compacted_through),
    {
        let sorted = sorted_elements(self.replica.applied_indexes());
        if sorted.len() == 0 {
            proof {
                assert(self.view().replica.applied =~= Set::empty()) by {
                    assert forall|x: LogIndex| !self.view().replica.applied.contains(x) by {
                        assert(!sorted@.contains(x));
                    }
                }
            }
            return self.compacted_through;
        }
        let m = sorted[sorted.len() - 1];
        proof {
            let applied = self.view().replica.applied;
            assert(sorted@.to_set().contains(m));
            assert forall|x: LogIndex| applied.contains(x) implies x <= m by {
                assert(sorted@.to_set().contains(x));
                let k = choose|k: int| 0 <= k < sorted@.len() && sorted@[k] == x;
                if k < sorted@.len() - 1 {
                    assert(sorted@[k] < sorted@[sorted@.len() - 1]);
                }
            }
            lemma_last_applied_is(applied, self.compacted_through, m);
        }
        m
    }

    /// `len` bytes at `offset`, or `OutOfBounds`.
    pub fn read_range(&self, offset: u64, len: usize) -> (r: Result<Vec<u8>, RaftBlockError>)
        ensures
            offset + len > self.view().replica.bytes.len() ==> r == Err::<Vec<u8>, RaftBlockError>(
                RaftBlockError::OutOfBounds,
            ),
            offset + len <= self.view().replica.bytes.len() ==> (r matches Ok(out) && out@
                == self.view().replica.bytes.subrange(offset as int, offset + len)),
    {
        read_range_of(self.replica.read_all(), offset, len)
    }

    pub fn log(&self) -> (l: &[LogEntry])
        ensures
            entry_views(l@) == self.view().log,
    {
        self.log.as_slice()
    }

    /// Whether `r` is what `from_state` gives for `store` and `state`.
    pub open spec fn restored(store: FileReplicaStore<S>, state: PersistentReplicaState, r: Result<Self, RaftBlockError>) -> bool {
        if state.capacity_bytes > usize::MAX {
            r == Err::<Self, RaftBlockError>(RaftBlockError::InvalidCapacity)
        } else {
            match geometry_error(state.capacity_bytes, state.block_size) {
                Some(e) => r == Err::<Self, RaftBlockError>(e),
                None => if state.bytes@.len() != state.capacity_bytes {
                    r == Err::<Self, RaftBlockError>(RaftBlockError::InvalidCapacity)
                } else {
                    r matches Ok(p) && p.wf() && p.store() == store && p.view() == restored_view(state)
                        && p.last_saved() is None
                },
            }
        }
    }

    /// The replica a saved record describes, saving to `store`: refused
    /// when the record's geometry is invalid or its bytes do not fill its
    /// capacity; otherwise the record's replica, log and compaction point,
    /// with the next index after the largest index it holds.
    pub fn from_state(store: FileReplicaStore<S>, state: PersistentReplicaState) -> (r: Result<Self, RaftBlockError>)
        ensures
            Self::restored(store, state, r),
    {
        if state.capacity_bytes > usize::MAX as u64 {
            return Err(RaftBlockError::InvalidCapacity);
        }
        let ghost saved = state;
        let (replica, log, compacted_through) = state.into_replica()?;
        let highest = max_log_index(&log, compacted_through);
        let next_index = if highest == u64::MAX { 0 } else { highest + 1 };
        let p = PersistentReplica { replica, log, compacted_through, next_index, store, saved: Ghost(None) };
        assert(p.view() == restored_view(saved));
        Ok(p)
    }

    /// Whether `r` is what reopening from `store` gives when its load gave
    /// `loaded`: the load's error; nothing when nothing was saved; otherwise
    /// the saved record turned into a replica as `from_state` does.
    pub open spec fn reopened(
        store: FileReplicaStore<S>,
        loaded: Result<Option<PersistentReplicaState>, RaftBlockError>,
        r: Result<Option<Self>, RaftBlockError>,
    ) -> bool {
        match loaded {
            Err(e) => r == Err::<Option<Self>, RaftBlockError>(e),
            Ok(None) => r == Ok::<Option<Self>, RaftBlockError>(None),
            Ok(Some(state)) => match r {
                Ok(Some(p)) => Self::restored(store, state, Ok(p)),
                Ok(None) => false,
                Err(e) => Self::restored(store, state, Err(e)),
            },
        }
    }

    /// Reopens the replica last saved to `store`, if any; an in-memory store
    /// has none. What the store's load hands back is turned into a replica
    /// as `from_state` describes.
    pub fn open(store: FileReplicaStore<S>) -> (r: Result<Option<Self>, RaftBlockError>)
        ensures
            store.is_in_memory() ==> r == Ok::<Option<Self>, RaftBlockError>(None),
            exists|loaded: Result<Option<PersistentReplicaState>, RaftBlockError>|
                #[trigger] store.load_outcome(loaded) && Self::reopened(store, loaded, r),
    {
        let loaded = store.load();
        let ghost lv = loaded;
        let state = match loaded {
            Ok(Some(state)) => state,
            Ok(None) => return Ok(None),
            Err(e) => return Err(e),
        };
        let ghost st = state;
        let ghost st_store = store;
        let p = match PersistentReplica::from_state(store, state) {
            Ok(p) => p,
            Err(e) => {
                assert(Self::reopened(st_store, lv, Err(e)));
                return Err(e);
            },
        };
        assert(Self::reopened(st_store, lv, Ok(Some(p))));
        Ok(Some(p))
    }
}

/// The largest index in `log`, or `floor` when it holds none larger.
fn max_log_index(log: &Vec<LogEntry>, floor: LogIndex) -> (m: LogIndex)
    ensures
        m == max_index_or(entry_views(log@), floor),
{
    let mut m = floor;
    let mut i: usize = 0;
    while i < log.len()
        invariant
            0 <= i <= log@.len(),
            m == max_index_or(entry_views(log@).take(i as int), floor),
        decreases log@.len() - i,
    {
        proof {
            assert(entry_views(log@).take(i + 1).drop_last() =~= entry_views(log@).take(i as int));
        }
        if log[i].index > m {
            m = log[i].index;
        }
        i = i + 1;
    }
    proof {
        assert(entry_views(log@).take(log@.len() as int) =~= entry_views(log@));
    }
    m
}

/// A copy of a log with the same entries.
pub fn copy_log(log: &Vec<LogEntry>) -> (out: Vec<LogEntry>)
    ensures
        entry_views(out@) == entry_views(log@),
{
    let mut out: Vec<LogEntry> = Vec::new();
    let mut i: usize = 0;
    while i < log.len()
        invariant
            0 <= i <= log@.len(),
            entry_views(out@) == entry_views(log@).take(i as int),
        decreases log@.len() - i,
    {
        let ghost prev = out@;
        let d = log[i].duplicate();
        out.push(d);
        proof {
            assert(out@ == prev.push(d));
            assert(entry_views(prev.push(d)) =~= entry_views(prev).push(d@));
            assert(entry_views(out@) =~= entry_views(log@).take(i + 1));
        }
        i = i + 1;
    }
    proof {
        assert(entry_views(log@).take(log@.len() as int) =~= entry_views(log@));
    }
    out
}

} // verus!
