//! A single replica of the block device: the bytes, the highest term it
//! has seen, and the set of log indexes it has applied.

use std::collections::BTreeSet;
use vstd::prelude::*;
use crate::cluster::strictly_increasing;
use crate::block::{
    checksum_bytes, checksums_equal, sha256_of, validate_write, write_error, BlockOp, BlockOpView,
    LogEntry, LogEntryView, LogIndex, NodeId, RaftBlockError, Term,
};

verus! {

broadcast use {vstd::std_specs::btree::group_btree_axioms, vstd::laws_cmp::group_laws_cmp};

/// The abstract state of a replica.
#[verifier::ext_equal]
pub struct ReplicaView {
    pub id: NodeId,
    pub block_size: u64,
    pub bytes: Seq<u8>,
    pub highest_term_seen: Term,
    pub applied: Set<LogIndex>,
    pub fail_after: Option<usize>,
}

/// `data` written over `s` starting at `offset`.
pub open spec fn overwrite(s: Seq<u8>, offset: int, data: Seq<u8>) -> Seq<u8> {
    s.subrange(0, offset) + data + s.subrange(offset + data.len(), s.len() as int)
}

/// The set `{1, ..., last}`.
pub open spec fn indexes_through(last: LogIndex) -> Set<LogIndex> {
    Set::new(|i: LogIndex| 1 <= i <= last)
}

impl ReplicaView {
    pub open spec fn capacity(self) -> int {
        self.bytes.len() as int
    }

    /// The error that validating `e` against this state reports, if any.
    pub open spec fn entry_error(self, e: LogEntryView) -> Option<RaftBlockError> {
        if e.term < self.highest_term_seen {
            Some(RaftBlockError::StaleTerm { entry_term: e.term, seen_term: self.highest_term_seen })
        } else if self.applied.contains(e.index) {
            None
        } else {
            match e.op {
                BlockOpView::Write { offset, bytes, checksum } => match write_error(
                    self.block_size,
                    self.bytes.len() as u64,
                    offset,
                    bytes.len() as int,
                ) {
                    Some(err) => Some(err),
                    None => if sha256_of(bytes) != checksum {
                        Some(RaftBlockError::ChecksumMismatch)
                    } else {
                        None
                    },
                },
                BlockOpView::Flush => None,
            }
        }
    }

    /// This state after seeing `term`.
    pub open spec fn observe(self, term: Term) -> ReplicaView {
        ReplicaView {
            highest_term_seen: if term > self.highest_term_seen {
                term
            } else {
                self.highest_term_seen
            },
            ..self
        }
    }

    /// Whether the simulated disk refuses one more new entry.
    pub open spec fn disk_full(self) -> bool {
        match self.fail_after {
            Some(limit) => self.applied.len() >= limit,
            None => false,
        }
    }

    /// This state after the operation of `e` has taken effect and `e.index` is recorded.
    pub open spec fn take_effect(self, e: LogEntryView) -> ReplicaView {
        ReplicaView {
            bytes: match e.op {
                BlockOpView::Write { offset, bytes, .. } => overwrite(self.bytes, offset as int, bytes),
                BlockOpView::Flush => self.bytes,
            },
            applied: self.applied.insert(e.index),
            ..self
        }
    }

    /// The result and the state that applying `e` yields.
    #[verifier::opaque]
    pub open spec fn apply_outcome(self, e: LogEntryView) -> (Result<bool, RaftBlockError>, ReplicaView) {
        match self.entry_error(e) {
            Some(err) => (Err(err), self),
            None => {
                let seen = self.observe(e.term);
                if self.applied.contains(e.index) {
                    (Ok(false), seen)
                } else if self.disk_full() {
                    (Err(RaftBlockError::DiskFull), self)
                } else {
                    (Ok(true), seen.take_effect(e))
                }
            },
        }
    }
}

/// Once an entry validates, the only way applying it can fail is a full disk.
pub proof fn lemma_refusal_is_disk_full(r: ReplicaView, e: LogEntryView)
    requires
        r.entry_error(e) is None,
        r.apply_outcome(e).0 is Err,
    ensures
        r.apply_outcome(e).0 == Err::<bool, RaftBlockError>(RaftBlockError::DiskFull),
{
    reveal(ReplicaView::apply_outcome);
}

/// Applying an entry that has just been applied again changes nothing and
/// reports that nothing took effect.
pub proof fn replay_is_idempotent(r: ReplicaView, e: LogEntryView)
    requires
        r.apply_outcome(e).0 is Ok,
    ensures
        ({
            let after = r.apply_outcome(e).1;
            after.apply_outcome(e) == (Ok::<bool, RaftBlockError>(false), after)
        }),
{
    reveal(ReplicaView::apply_outcome);
    let after = r.apply_outcome(e).1;
    assert(after.observe(e.term) =~= after);
}

/// A refused entry leaves the replica entirely unchanged: its blocks, its
/// applied set and the highest term it has seen.
pub proof fn refusal_changes_nothing(r: ReplicaView, e: LogEntryView)
    requires
        r.apply_outcome(e).0 is Err,
    ensures
        r.apply_outcome(e).1 == r,
{
    reveal(ReplicaView::apply_outcome);
}

/// An entry from an older term than the replica has seen is refused and changes nothing.
pub proof fn stale_entry_is_refused(r: ReplicaView, e: LogEntryView)
    requires
        e.term < r.highest_term_seen,
    ensures
        r.apply_outcome(e) == (Err::<bool, RaftBlockError>(
            RaftBlockError::StaleTerm { entry_term: e.term, seen_term: r.highest_term_seen },
        ), r),
{
    reveal(ReplicaView::apply_outcome);
}

/// A new, well-placed write whose checksum does not match its bytes is
/// refused and changes nothing.
pub proof fn corrupt_write_is_refused(r: ReplicaView, e: LogEntryView)
    requires
        e.term >= r.highest_term_seen,
        !r.applied.contains(e.index),
        e.op matches BlockOpView::Write { offset, bytes, checksum } && write_error(
            r.block_size,
            r.bytes.len() as u64,
            offset,
            bytes.len() as int,
        ) is None && sha256_of(bytes) != checksum,
    ensures
        r.apply_outcome(e) == (Err::<bool, RaftBlockError>(RaftBlockError::ChecksumMismatch), r),
{
    reveal(ReplicaView::apply_outcome);
}

/// An applied entry is recorded, and nothing recorded before is forgotten.
pub proof fn lemma_applied_grows(r: ReplicaView, e: LogEntryView)
    ensures
        r.applied.subset_of(r.apply_outcome(e).1.applied),
        r.apply_outcome(e).0 is Ok ==> r.apply_outcome(e).1.applied.contains(e.index),
{
    reveal(ReplicaView::apply_outcome);
}

/// A replica of the block device.
#[derive(Debug)]
pub struct Replica {
    pub(crate) id: NodeId,
    pub(crate) block_size: u64,
    pub(crate) bytes: Vec<u8>,
    pub(crate) highest_term_seen: Term,
    pub(crate) applied: BTreeSet<LogIndex>,
    pub(crate) fail_after_applied_entries: Option<usize>,
}

impl View for Replica {
    type V = ReplicaView;

    closed spec fn view(&self) -> ReplicaView {
        ReplicaView {
            id: self.id,
            block_size: self.block_size,
            bytes: self.bytes@,
            highest_term_seen: self.highest_term_seen,
            applied: self.applied@,
            fail_after: self.fail_after_applied_entries,
        }
    }
}

/// The well-formedness every replica keeps: nonzero block size, a nonzero
/// capacity that is a multiple of it, and a finite applied set.
pub open spec fn replica_view_wf(v: ReplicaView) -> bool {
    &&& v.block_size > 0
    &&& v.bytes.len() > 0
    &&& v.bytes.len() <= u64::MAX
    &&& (v.bytes.len() as int) % (v.block_size as int) == 0
    &&& v.applied.finite()
}

/// A freshly created replica: zero-filled, nothing applied, term 0.
pub open spec fn fresh_replica(id: NodeId, capacity_bytes: u64, block_size: u64) -> ReplicaView {
    ReplicaView {
        id,
        block_size,
        bytes: Seq::new(capacity_bytes as nat, |i: int| 0u8),
        highest_term_seen: 0,
        applied: Set::empty(),
        fail_after: None,
    }
}

/// The error, if any, that creating a replica with these parameters meets.
pub open spec fn geometry_error(capacity_bytes: u64, block_size: u64) -> Option<RaftBlockError> {
    if block_size == 0 {
        Some(RaftBlockError::ZeroBlockSize)
    } else if capacity_bytes == 0 || capacity_bytes % block_size != 0 {
        Some(RaftBlockError::InvalidCapacity)
    } else {
        None
    }
}

impl Replica {
    pub open spec fn wf(&self) -> bool {
        replica_view_wf(self@)
    }

    /// A zero-filled replica of `capacity_bytes` bytes.
    pub fn new(id: NodeId, capacity_bytes: u64, block_size: u64) -> (r: Result<Self, RaftBlockError>)
        requires
            capacity_bytes <= usize::MAX,
        ensures
            r matches Ok(_) <==> geometry_error(capacity_bytes, block_size) is None,
            r matches Err(e) ==> geometry_error(capacity_bytes, block_size) == Some(e),
            r matches Ok(rep) ==> rep.wf() && rep@ == fresh_replica(id, capacity_bytes, block_size),
    {
        if block_size == 0 {
            return Err(RaftBlockError::ZeroBlockSize);
        }
        if capacity_bytes == 0 || capacity_bytes % block_size != 0 {
            return Err(RaftBlockError::InvalidCapacity);
        }
        let bytes: Vec<u8> = vec![0u8; capacity_bytes as usize];
        let r = Replica {
            id,
            block_size,
            bytes,
            highest_term_seen: 0,
            applied: BTreeSet::new(),
            fail_after_applied_entries: None,
        };
        assert(r.bytes@ =~= Seq::new(capacity_bytes as nat, |i: int| 0u8));
        Ok(r)
    }

    pub fn id(&self) -> (id: NodeId)
        ensures
            id == self@.id,
    {
        self.id
    }

    pub fn block_size(&self) -> (b: u64)
        ensures
            b == self@.block_size,
    {
        self.block_size
    }

    /// Raises the highest term seen to `term` if it is larger.
    pub fn observe_term(&mut self, term: Term)
        requires
            old(self).wf(),
        ensures
            final(self).wf(),
            final(self)@ == old(self)@.observe(term),
    {
        if term > self.highest_term_seen {
            self.highest_term_seen = term;
        }
    }

    pub fn read_all(&self) -> (b: &[u8])
        ensures
            b@ == self@.bytes,
    {
        self.bytes.as_slice()
    }

    pub fn applied_indexes(&self) -> (s: &BTreeSet<LogIndex>)
        ensures
            s@ == self@.applied,
    {
        &self.applied
    }

    /// Simulates a disk that accepts only `entries` applied entries in all.
    pub fn fail_after_applied_entries(&mut self, entries: usize)
        requires
            old(self).wf(),
        ensures
            final(self).wf(),
            final(self)@ == (ReplicaView { fail_after: Some(entries), ..old(self)@ }),
    {
        self.fail_after_applied_entries = Some(entries);
    }

    /// A snapshot of the bytes and term, labelled with `last_included_index`.
    pub fn snapshot(&self, last_included_index: LogIndex) -> (s: BlockSnapshot)
        ensures
            s.replica_id == self@.id,
            s.last_included_index == last_included_index,
            s.highest_term_seen == self@.highest_term_seen,
            s.bytes@ == self@.bytes,
    {
        BlockSnapshot {
            replica_id: self.id,
            last_included_index,
            highest_term_seen: self.highest_term_seen,
            bytes: copy_bytes(self.bytes.as_slice()),
        }
    }

    /// Replaces the bytes with the snapshot's and marks `1..=last_included_index` applied.
    pub fn install_snapshot(&mut self, snapshot: &BlockSnapshot) -> (r: Result<(), RaftBlockError>)
        requires
            old(self).wf(),
        ensures
            final(self).wf(),
            r matches Ok(_) <==> snapshot.bytes@.len() == old(self)@.bytes.len(),
            r matches Err(e) ==> e == RaftBlockError::InvalidCapacity && final(self)@ == old(
                self,
            )@,
            r matches Ok(_) ==> final(self)@ == (ReplicaView {
                bytes: snapshot.bytes@,
                applied: indexes_through(snapshot.last_included_index),
                ..old(self)@.observe(snapshot.highest_term_seen)
            }),
    {
        if snapshot.bytes.len() != self.bytes.len() {
            return Err(RaftBlockError::InvalidCapacity);
        }
        self.bytes = copy_bytes(snapshot.bytes.as_slice());
        self.observe_term(snapshot.highest_term_seen);
        let last = snapshot.last_included_index;
        let mut applied: BTreeSet<LogIndex> = BTreeSet::new();
        let mut i: u64 = 0;
        while i < last
            invariant
                i <= last,
                applied@ == Set::new(|k: LogIndex| 1 <= k <= i),
                applied@.finite(),
            decreases last - i,
        {
            i = i + 1;
            applied.insert(i);
            assert(applied@ =~= Set::new(|k: LogIndex| 1 <= k <= i));
        }
        self.applied = applied;
        Ok(())
    }

    /// Checks an entry without changing anything: stale terms are refused;
    /// an already-applied index is accepted; otherwise a write must be
    /// nonempty, aligned, in bounds and match its checksum.
    pub fn validate_entry(&self, entry: &LogEntry) -> (r: Result<(), RaftBlockError>)
        requires
            self.wf(),
        ensures
            r matches Ok(_) <==> self@.entry_error(entry@) is None,
            r matches Err(e) ==> self@.entry_error(entry@) == Some(e),
    {
        if entry.term < self.highest_term_seen {
            return Err(
                RaftBlockError::StaleTerm {
                    entry_term: entry.term,
                    seen_term: self.highest_term_seen,
                },
            );
        }
        if self.applied.contains(&entry.index) {
            return Ok(());
        }
        match &entry.op {
            BlockOp::Write { offset, bytes, checksum } => {
                validate_write(self.block_size, self.bytes.len() as u64, *offset, bytes.as_slice())?;
                let actual = checksum_bytes(bytes.as_slice());
                if !checksums_equal(&actual, checksum) {
                    return Err(RaftBlockError::ChecksumMismatch);
                }
            },
            BlockOp::Flush => {},
        }
        Ok(())
    }

    /// Applies an entry. Returns `Ok(true)` when the entry took effect,
    /// `Ok(false)` when its index was already applied (replay is a no-op);
    /// a refused entry changes nothing, not even the highest term seen.
    pub fn apply(&mut self, entry: &LogEntry) -> (r: Result<bool, RaftBlockError>)
        requires
            old(self).wf(),
        ensures
            final(self).wf(),
            final(self)@.id == old(self)@.id,
            (r, final(self)@) == old(self)@.apply_outcome(entry@),
    {
        reveal(ReplicaView::apply_outcome);
        self.validate_entry(entry)?;
        let ghost before = self@;
        assert(before.entry_error(entry@) is None);
        if self.applied.contains(&entry.index) {
            self.observe_term(entry.term);
            return Ok(false);
        }
        match self.fail_after_applied_entries {
            Some(limit) => {
                if self.applied.len() >= limit {
                    assert(before.disk_full());
                    return Err(RaftBlockError::DiskFull);
                }
            },
            None => {},
        }
        assert(!before.disk_full());
        self.observe_term(entry.term);
        assert(self@ == before.observe(entry.term));
        match &entry.op {
            BlockOp::Write { offset, bytes, .. } => {
                let cap = self.bytes.len();
                assert(*offset as int + bytes@.len() <= cap);
                write_at(&mut self.bytes, *offset as usize, bytes.as_slice());
            },
            BlockOp::Flush => {},
        }
        self.applied.insert(entry.index);
        Ok(true)
    }
}

/// Overwrites `buf[start..start + data.len()]` with `data`.
pub fn write_at(buf: &mut Vec<u8>, start: usize, data: &[u8])
    requires
        start + data@.len() <= old(buf)@.len(),
    ensures
        final(buf)@ == overwrite(old(buf)@, start as int, data@),
{
    let ghost before = buf@;
    let n = buf.len();
    let mut i: usize = 0;
    while i < data.len()
        invariant
            buf@.len() == before.len(),
            before.len() == n,
            start + data@.len() <= before.len(),
            0 <= i <= data@.len(),
            forall|j: int|
                0 <= j < before.len() && !(start <= j < start + i) ==> buf@[j] == before[j],
            forall|j: int| start <= j < start + i ==> buf@[j] == data@[j - start],
        decreases data@.len() - i,
    {
        buf.set(start + i, data[i]);
        i = i + 1;
    }
    assert(buf@ =~= overwrite(before, start as int, data@));
}

/// A byte-for-byte copy of a slice.
pub fn copy_bytes(src: &[u8]) -> (out: Vec<u8>)
    ensures
        out@ == src@,
{
    let mut out: Vec<u8> = Vec::with_capacity(src.len());
    let mut i: usize = 0;
    while i < src.len()
        invariant
            0 <= i <= src@.len(),
            out@ == src@.subrange(0, i as int),
        decreases src@.len() - i,
    {
        out.push(src[i]);
        i = i + 1;
    }
    assert(out@ =~= src@);
    out
}

/// A full copy of a replica's bytes, taken at some log index.
#[derive(Debug, Clone, PartialEq, Eq)]
pub struct BlockSnapshot {
    pub replica_id: NodeId,
    pub last_included_index: LogIndex,
    pub highest_term_seen: Term,
    pub bytes: Vec<u8>,
}

/// Everything about a replica that is written to durable storage.
#[derive(Debug, Clone, PartialEq, Eq)]
pub struct PersistentReplicaState {
    pub node_id: NodeId,
    pub capacity_bytes: u64,
    pub block_size: u64,
    pub highest_term_seen: Term,
    pub applied_indexes: Vec<LogIndex>,
    pub bytes: Vec<u8>,
    pub log: Vec<LogEntry>,
    pub compacted_through: LogIndex,
}

/// The views of a sequence of log entries.
pub open spec fn entry_views(log: Seq<LogEntry>) -> Seq<LogEntryView> {
    log.map_values(|e: LogEntry| e@)
}

/// The values of a set, in increasing order, collected from a `BTreeSet`.
pub fn sorted_elements(set: &BTreeSet<LogIndex>) -> (v: Vec<LogIndex>)
    ensures
        strictly_increasing(v@),
        v@.to_set() == set@,
{
    let mut v: Vec<LogIndex> = Vec::new();
    proof {
        vstd::std_specs::btree::axiom_spec_btree_keys_iter(set);
    }
    for x in it: set.iter()
        invariant
            it.seq().unref().to_set() == set@,
            v@ == it.seq().take(it.index()).unref(),
            v@ == it.seq().unref() || it.index() < it.seq().len(),
    {
        proof {
            assert(it.seq().take(it.index() + 1).unref() =~= it.seq().take(it.index()).unref().push(*x));
            assert(it.index() + 1 == it.seq().len() ==> it.seq().take(it.index() + 1).unref() =~= it.seq().unref());
        }
        v.push(*x);
    }
    crate::cluster::sorted_unique(v.as_slice())
}

impl PersistentReplicaState {
    /// The durable record of `replica` with the given log and compaction point.
    pub fn from_replica(replica: &Replica, log: Vec<LogEntry>, compacted_through: LogIndex) -> (s: Self)
        requires
            replica.wf(),
        ensures
            s.node_id == replica@.id,
            s.capacity_bytes == replica@.bytes.len(),
            s.block_size == replica@.block_size,
            s.highest_term_seen == replica@.highest_term_seen,
            strictly_increasing(s.applied_indexes@),
            s.applied_indexes@.to_set() == replica@.applied,
            s.bytes@ == replica@.bytes,
            entry_views(s.log@) == entry_views(log@),
            s.compacted_through == compacted_through,
    {
        PersistentReplicaState {
            node_id: replica.id,
            capacity_bytes: replica.bytes.len() as u64,
            block_size: replica.block_size,
            highest_term_seen: replica.highest_term_seen,
            applied_indexes: sorted_elements(&replica.applied),
            bytes: crate::replica::copy_bytes(replica.bytes.as_slice()),
            log,
            compacted_through,
        }
    }

    /// Rebuilds the replica, its log and its compaction point from the record.
    pub fn into_replica(self) -> (r: Result<(Replica, Vec<LogEntry>, LogIndex), RaftBlockError>)
        requires
            self.capacity_bytes <= usize::MAX,
        ensures
            geometry_error(self.capacity_bytes, self.block_size) matches Some(e) ==> r
                == Err::<(Replica, Vec<LogEntry>, LogIndex), RaftBlockError>(e),
            geometry_error(self.capacity_bytes, self.block_size) is None && self.bytes@.len()
                != self.capacity_bytes ==> r == Err::<(Replica, Vec<LogEntry>, LogIndex), RaftBlockError>(
                RaftBlockError::InvalidCapacity,
            ),
            geometry_error(self.capacity_bytes, self.block_size) is None && self.bytes@.len()
                == self.capacity_bytes ==> (r matches Ok((rep, log, c)) && rep.wf() && rep@ == (
            ReplicaView {
                id: self.node_id,
                block_size: self.block_size,
                bytes: self.bytes@,
                highest_term_seen: self.highest_term_seen,
                applied: self.applied_indexes@.to_set(),
                fail_after: None,
            }) && log@ == self.log@ && c == self.compacted_through),
    {
        let mut replica = Replica::new(self.node_id, self.capacity_bytes, self.block_size)?;
        if self.bytes.len() != replica.bytes.len() {
            return Err(RaftBlockError::InvalidCapacity);
        }
        replica.bytes = self.bytes;
        replica.highest_term_seen = self.highest_term_seen;
        let mut applied: BTreeSet<LogIndex> = BTreeSet::new();
        let mut i: usize = 0;
        while i < self.applied_indexes.len()
            invariant
                0 <= i <= self.applied_indexes@.len(),
                applied@ == self.applied_indexes@.subrange(0, i as int).to_set(),
            decreases self.applied_indexes@.len() - i,
        {
            let x = self.applied_indexes[i];
            applied.insert(x);
            proof {
                assert(self.applied_indexes@.subrange(0, i + 1) =~= self.applied_indexes@.subrange(0, i as int) + seq![x]);
                Seq::lemma_to_set_insert_commutes(self.applied_indexes@.subrange(0, i as int), x);
            }
            i = i + 1;
        }
        proof {
            assert(self.applied_indexes@.subrange(0, self.applied_indexes@.len() as int) =~= self.applied_indexes@);
            vstd::seq_lib::seq_to_set_is_finite(self.applied_indexes@);
        }
        replica.applied = applied;
        Ok((replica, self.log, self.compacted_through))
    }
}

/// Saving then reloading a replica's record gives back the same replica,
/// log and compaction point (the simulated disk limit is not part of the record).
pub proof fn persisted_round_trip(before: ReplicaView, s: PersistentReplicaState, log: Seq<LogEntryView>, c: LogIndex)
    requires
        replica_view_wf(before),
        s.node_id == before.id,
        s.capacity_bytes == before.bytes.len(),
        s.block_size == before.block_size,
        s.highest_term_seen == before.highest_term_seen,
        s.applied_indexes@.to_set() == before.applied,
        s.bytes@ == before.bytes,
        entry_views(s.log@) == log,
        s.compacted_through == c,
    ensures
        geometry_error(s.capacity_bytes, s.block_size) is None,
        s.bytes@.len() == s.capacity_bytes,
        (ReplicaView {
            id: s.node_id,
            block_size: s.block_size,
            bytes: s.bytes@,
            highest_term_seen: s.highest_term_seen,
            applied: s.applied_indexes@.to_set(),
            fail_after: None,
        }) == (ReplicaView { fail_after: None, ..before }),
{
}

} // verus!
