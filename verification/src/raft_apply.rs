//! Applying a consensus log to a persistent replica: each entry either
//! carries a block command, records a membership change, or is blank; the
//! applier remembers the last entry it applied and the last membership it saw.

use vstd::prelude::*;
use crate::block::{BlockCommand, BlockResponse, LogEntryView, LogIndex, NodeId, RaftBlockError, Term, command_entry_ok, command_is_empty_write};
use crate::persistent::{appended, saved_after_append, PersistentReplica, PersistentReplicaView, ReplicaStoreImpl};
use crate::replica::PersistentReplicaState;
use crate::storage::{decimal, decimal_text};
use crate::text::{owned, push_str};

verus! {

/// Where an entry stands in the consensus log: the term and leader that
/// proposed it and its index.
#[derive(Debug, Clone, Copy, PartialEq, Eq, Structural)]
pub struct RaftLogId {
    pub term: Term,
    pub leader_id: NodeId,
    pub index: LogIndex,
}

/// What a consensus log entry carries.
#[derive(Debug)]
pub enum RaftPayload {
    Blank,
    Normal(BlockCommand),
    Membership,
}

/// A consensus log entry.
#[derive(Debug)]
pub struct RaftEntry {
    pub log_id: RaftLogId,
    pub payload: RaftPayload,
}

/// The abstract state of an applier.
pub struct ApplierView {
    pub replica: PersistentReplicaView,
    /// The last record the replica handed to its store, with what the save returned.
    pub saved: Option<(PersistentReplicaState, Result<(), RaftBlockError>)>,
    pub last_applied: Option<RaftLogId>,
    pub last_membership: Option<RaftLogId>,
}

/// The response of an entry that changes no block: its index and no bytes.
pub open spec fn no_write(id: RaftLogId) -> BlockResponse {
    BlockResponse { applied_index: id.index, bytes_written: 0 }
}

/// `after` and `resp` are what applying `e` to `before` yields: a blank
/// entry and a membership entry only move the last applied entry (the
/// latter also the last membership); a command becomes the block entry at
/// the entry's term and index and is appended to the replica, whose save
/// decides the response; the last applied entry moves only when that succeeds.
pub open spec fn entry_step(before: ApplierView, e: RaftEntry, after: ApplierView, resp: Result<BlockResponse, RaftBlockError>, in_memory: bool) -> bool {
    let id = e.log_id;
    match e.payload {
        RaftPayload::Blank => resp == Ok::<BlockResponse, RaftBlockError>(no_write(id)) && after == (ApplierView {
            last_applied: Some(id),
            ..before
        }),
        RaftPayload::Membership => resp == Ok::<BlockResponse, RaftBlockError>(no_write(id)) && after == (ApplierView {
            last_applied: Some(id),
            last_membership: Some(id),
            ..before
        }),
        RaftPayload::Normal(cmd) => if command_is_empty_write(cmd) {
            resp == Err::<BlockResponse, RaftBlockError>(RaftBlockError::EmptyWrite) && after == before
        } else {
            exists|le: LogEntryView|
                #![trigger command_entry_ok(cmd, id.term, id.index, le)]
                command_entry_ok(cmd, id.term, id.index, le) && appended(before.replica, le, after.replica, resp, in_memory)
                    && saved_after_append(before.replica, le, before.saved, after.replica, after.saved, resp)
                    && after.last_membership == before.last_membership && after.last_applied == (if resp is Ok {
                    Some(id)
                } else {
                    before.last_applied
                })
        },
    }
}

/// A state and result that a run of applied entries passes through.
pub open spec fn midpoint(mid: ApplierView, prev: Result<Seq<BlockResponse>, RaftBlockError>) -> bool {
    true
}

/// `after` and `r` are what applying `es` in order to `before` yields: every
/// entry is applied in turn until one fails, whose error is the result; on
/// success the result lists each entry's response.
pub open spec fn applied_all(
    before: ApplierView,
    es: Seq<RaftEntry>,
    after: ApplierView,
    r: Result<Seq<BlockResponse>, RaftBlockError>,
    in_memory: bool,
) -> bool
    decreases es.len(),
{
    if es.len() == 0 {
        after == before && r == Ok::<Seq<BlockResponse>, RaftBlockError>(Seq::empty())
    } else {
        exists|mid: ApplierView, prev: Result<Seq<BlockResponse>, RaftBlockError>|
            #![trigger midpoint(mid, prev)]
            midpoint(mid, prev) && applied_all(before, es.drop_last(), mid, prev, in_memory) && match prev {
                Err(err) => after == mid && r == Err::<Seq<BlockResponse>, RaftBlockError>(err),
                Ok(rs) => exists|resp: Result<BlockResponse, RaftBlockError>|
                    #![trigger entry_step(mid, es.last(), after, resp, in_memory)]
                    entry_step(mid, es.last(), after, resp, in_memory) && r == match resp {
                        Ok(x) => Ok::<Seq<BlockResponse>, RaftBlockError>(rs.push(x)),
                        Err(err) => Err::<Seq<BlockResponse>, RaftBlockError>(err),
                    },
            }
    }
}

/// Extends a run of applied entries by its last entry: a failed run stays
/// failed; otherwise the last entry's step decides.
proof fn lemma_extend(
    before: ApplierView,
    es: Seq<RaftEntry>,
    mid: ApplierView,
    prev: Result<Seq<BlockResponse>, RaftBlockError>,
    after: ApplierView,
    resp: Result<BlockResponse, RaftBlockError>,
    in_memory: bool,
)
    requires
        es.len() > 0,
        applied_all(before, es.drop_last(), mid, prev, in_memory),
        prev is Err ==> after == mid && resp == Err::<BlockResponse, RaftBlockError>(prev->Err_0),
        prev is Ok ==> entry_step(mid, es.last(), after, resp, in_memory),
    ensures
        applied_all(before, es, after, match prev {
            Err(err) => Err::<Seq<BlockResponse>, RaftBlockError>(err),
            Ok(rs) => match resp {
                Ok(x) => Ok::<Seq<BlockResponse>, RaftBlockError>(rs.push(x)),
                Err(err) => Err::<Seq<BlockResponse>, RaftBlockError>(err),
            },
        }, in_memory),
{
    let r = match prev {
        Err(err) => Err::<Seq<BlockResponse>, RaftBlockError>(err),
        Ok(rs) => match resp {
            Ok(x) => Ok::<Seq<BlockResponse>, RaftBlockError>(rs.push(x)),
            Err(err) => Err::<Seq<BlockResponse>, RaftBlockError>(err),
        },
    };
    assert(midpoint(mid, prev));
    assert(applied_all(before, es.drop_last(), mid, prev, in_memory) && match prev {
        Err(err) => after == mid && r == Err::<Seq<BlockResponse>, RaftBlockError>(err),
        Ok(rs) => entry_step(mid, es.last(), after, resp, in_memory) && r == match resp {
            Ok(x) => Ok::<Seq<BlockResponse>, RaftBlockError>(rs.push(x)),
            Err(err) => Err::<Seq<BlockResponse>, RaftBlockError>(err),
        },
    });
}

/// Once applying a prefix fails, the later entries are not applied.
proof fn lemma_failure_stops(before: ApplierView, es: Seq<RaftEntry>, k: int, after: ApplierView, err: RaftBlockError, in_memory: bool)
    requires
        0 <= k <= es.len(),
        applied_all(before, es.take(k), after, Err(err), in_memory),
    ensures
        applied_all(before, es, after, Err(err), in_memory),
    decreases es.len() - k,
{
    if k < es.len() {
        let t = es.take(k + 1);
        assert(t.drop_last() =~= es.take(k));
        assert(applied_all(before, t.drop_last(), after, Err::<Seq<BlockResponse>, RaftBlockError>(err), in_memory));
        lemma_extend(before, t, after, Err::<Seq<BlockResponse>, RaftBlockError>(err), after, Err::<BlockResponse, RaftBlockError>(err), in_memory);
        lemma_failure_stops(before, es, k + 1, after, err, in_memory);
    } else {
        assert(es.take(k) =~= es);
    }
}

/// Applies consensus log entries to a persistent replica.
pub struct EntryApplier<S> {
    replica: PersistentReplica<S>,
    last_applied: Option<RaftLogId>,
    last_membership: Option<RaftLogId>,
}

impl<S: ReplicaStoreImpl> EntryApplier<S> {
    pub closed spec fn view(&self) -> ApplierView {
        ApplierView {
            replica: self.replica.view(),
            saved: self.replica.last_saved(),
            last_applied: self.last_applied,
            last_membership: self.last_membership,
        }
    }

    pub closed spec fn wf(&self) -> bool {
        self.replica.wf()
    }

    /// Whether the replica's store never persists anything.
    pub closed spec fn in_memory(&self) -> bool {
        self.replica.store().is_in_memory()
    }

    /// An applier over `replica` that has applied nothing yet.
    pub fn new(replica: PersistentReplica<S>) -> (a: Self)
        requires
            replica.wf(),
        ensures
            a.wf(),
            a.view() == (ApplierView {
                replica: replica.view(),
                saved: replica.last_saved(),
                last_applied: None,
                last_membership: None,
            }),
            a.in_memory() == replica.store().is_in_memory(),
    {
        EntryApplier { replica, last_applied: None, last_membership: None }
    }

    pub fn replica(&self) -> (r: &PersistentReplica<S>)
        ensures
            r.view() == self.view().replica,
    {
        &self.replica
    }

    pub fn last_applied_log_id(&self) -> (id: Option<RaftLogId>)
        ensures
            id == self.view().last_applied,
    {
        self.last_applied
    }

    pub fn last_membership(&self) -> (id: Option<RaftLogId>)
        ensures
            id == self.view().last_membership,
    {
        self.last_membership
    }

    /// Applies one entry, as `entry_step` describes.
    fn apply_one(&mut self, entry: RaftEntry) -> (resp: Result<BlockResponse, RaftBlockError>)
        requires
            old(self).wf(),
            entry.log_id.index < u64::MAX,
        ensures
            final(self).wf(),
            final(self).in_memory() == old(self).in_memory(),
            entry_step(old(self).view(), entry, final(self).view(), resp, old(self).in_memory()),
    {
        let id = entry.log_id;
        match entry.payload {
            RaftPayload::Blank => {
                self.last_applied = Some(id);
                Ok(BlockResponse { applied_index: id.index, bytes_written: 0 })
            },
            RaftPayload::Membership => {
                self.last_membership = Some(id);
                self.last_applied = Some(id);
                Ok(BlockResponse { applied_index: id.index, bytes_written: 0 })
            },
            RaftPayload::Normal(command) => {
                let ghost cmd = command;
                let block_entry = command.into_entry(id.term, id.index)?;
                let ghost le = block_entry@;
                let r = self.replica.append_entry(block_entry);
                if r.is_ok() {
                    self.last_applied = Some(id);
                }
                assert(command_entry_ok(cmd, id.term, id.index, le));
                r
            },
        }
    }

    /// Applies `entries` in order, as `applied_all` describes, and lists
    /// their responses; the first failure stops the rest and is returned.
    pub fn apply_entries(&mut self, entries: Vec<RaftEntry>) -> (r: Result<Vec<BlockResponse>, RaftBlockError>)
        requires
            old(self).wf(),
            forall|i: int| 0 <= i < entries@.len() ==> (#[trigger] entries@[i]).log_id.index < u64::MAX,
        ensures
            final(self).wf(),
            final(self).in_memory() == old(self).in_memory(),
            applied_all(
                old(self).view(),
                entries@,
                final(self).view(),
                match r {
                    Ok(v) => Ok::<Seq<BlockResponse>, RaftBlockError>(v@),
                    Err(e) => Err::<Seq<BlockResponse>, RaftBlockError>(e),
                },
                old(self).in_memory(),
            ),
    {
        let ghost start = self.view();
        let ghost all = entries@;
        let ghost in_memory = self.in_memory();
        let mut rest = entries;
        let mut responses: Vec<BlockResponse> = Vec::new();
        let n = rest.len();
        let mut i: usize = 0;
        assert(all.take(0) =~= Seq::<RaftEntry>::empty());
        while i < n
            invariant
                0 <= i <= n,
                n == all.len(),
                rest@ == all.subrange(i as int, n as int),
                self.wf(),
                self.in_memory() == in_memory,
                in_memory == old(self).in_memory(),
                start == old(self).view(),
                all == entries@,
                forall|j: int| 0 <= j < all.len() ==> (#[trigger] all[j]).log_id.index < u64::MAX,
                applied_all(start, all.take(i as int), self.view(), Ok::<Seq<BlockResponse>, RaftBlockError>(responses@), in_memory),
            decreases n - i,
        {
            let ghost mid = self.view();
            let ghost prev = responses@;
            assert(rest@[0] == all[i as int]);
            let entry = rest.remove(0);
            assert(entry.log_id.index < u64::MAX);
            let resp = self.apply_one(entry);
            proof {
                let t = all.take(i + 1);
                assert(t.drop_last() =~= all.take(i as int));
                assert(t.last() == all[i as int]);
                assert(applied_all(start, t.drop_last(), mid, Ok::<Seq<BlockResponse>, RaftBlockError>(prev), in_memory));
            }
            proof {
                lemma_extend(start, all.take(i + 1), mid, Ok::<Seq<BlockResponse>, RaftBlockError>(prev), self.view(), resp, in_memory);
            }
            match resp {
                Ok(x) => {
                    responses.push(x);
                    assert(responses@ =~= prev.push(x));
                },
                Err(e) => {
                    proof {
                        lemma_failure_stops(start, all, i + 1, self.view(), e, in_memory);
                    }
                    return Err(e);
                },
            }
            assert(rest@ =~= all.subrange(i + 1, n as int));
            i = i + 1;
        }
        assert(all.take(n as int) =~= all);
        Ok(responses)
    }
}

/// The refusal of a batch whose `k`-th entry has index `got` where
/// `expected` was due.
pub open spec fn gap_text(expected: int, got: LogIndex) -> Seq<char> {
    "openraft append_entries expected index "@ + decimal_text(expected as u64) + ", got "@ + decimal_text(got)
}

/// Checks that a batch of entries continues the log at `next_index`: the
/// first entry out of place is reported with the index that was due.
pub fn check_batch_indexes(next_index: LogIndex, indexes: &[LogIndex]) -> (r: Result<(), String>)
    requires
        next_index + indexes@.len() <= u64::MAX,
    ensures
        r is Ok <==> (forall|k: int| 0 <= k < indexes@.len() ==> indexes@[k] == next_index + k),
        r matches Err(m) ==> exists|k: int|
            0 <= k < indexes@.len() && indexes@[k] != next_index + k && (forall|j: int| 0 <= j < k ==> indexes@[j] == next_index + j)
                && m@ == #[trigger] gap_text(next_index + k, indexes@[k]),
{
    let mut i: usize = 0;
    while i < indexes.len()
        invariant
            0 <= i <= indexes@.len(),
            next_index + indexes@.len() <= u64::MAX,
            forall|j: int| 0 <= j < i ==> indexes@[j] == next_index + j,
        decreases indexes@.len() - i,
    {
        let expected = next_index + i as u64;
        if indexes[i] != expected {
            let mut m = owned("openraft append_entries expected index ");
            let e = decimal(expected);
            push_str(&mut m, e.as_str());
            push_str(&mut m, ", got ");
            let g = decimal(indexes[i]);
            push_str(&mut m, g.as_str());
            assert(m@ == gap_text(next_index + i, indexes@[i as int]));
            return Err(m);
        }
        i = i + 1;
    }
    Ok(())
}

/// A successful step answers with the entry's own index and records the
/// entry as the last one applied; a blank or membership entry writes no bytes.
proof fn lemma_step_ok(before: ApplierView, e: RaftEntry, after: ApplierView, x: BlockResponse, in_memory: bool)
    requires
        entry_step(before, e, after, Ok(x), in_memory),
    ensures
        x.applied_index == e.log_id.index,
        after.last_applied == Some(e.log_id),
        !(e.payload is Normal) ==> x.bytes_written == 0,
{
    if let RaftPayload::Normal(cmd) = e.payload {
        let le = choose|le: LogEntryView|
            #![trigger command_entry_ok(cmd, e.log_id.term, e.log_id.index, le)]
            command_entry_ok(cmd, e.log_id.term, e.log_id.index, le) && appended(before.replica, le, after.replica, Ok(x), in_memory)
                && saved_after_append(before.replica, le, before.saved, after.replica, after.saved, Ok(x))
                && after.last_membership == before.last_membership && after.last_applied == (if (Ok::<BlockResponse, RaftBlockError>(x)) is Ok {
                Some(e.log_id)
            } else {
                before.last_applied
            });
    }
}

/// A run of entries that is applied without error answers every entry, in
/// order, each with that entry's own index, and leaves the last entry as
/// the last one applied.
pub proof fn successful_run_answers_every_entry(
    before: ApplierView,
    es: Seq<RaftEntry>,
    after: ApplierView,
    rs: Seq<BlockResponse>,
    in_memory: bool,
)
    requires
        applied_all(before, es, after, Ok(rs), in_memory),
    ensures
        rs.len() == es.len(),
        forall|i: int| 0 <= i < es.len() ==> (#[trigger] rs[i]).applied_index == es[i].log_id.index,
        es.len() > 0 ==> after.last_applied == Some(es.last().log_id),
    decreases es.len(),
{
    if es.len() > 0 {
        let (mid, prev) = choose|mid: ApplierView, prev: Result<Seq<BlockResponse>, RaftBlockError>|
            #![trigger midpoint(mid, prev)]
            midpoint(mid, prev) && applied_all(before, es.drop_last(), mid, prev, in_memory) && match prev {
                Err(err) => after == mid && Ok::<Seq<BlockResponse>, RaftBlockError>(rs) == Err::<Seq<BlockResponse>, RaftBlockError>(err),
                Ok(rs0) => exists|resp: Result<BlockResponse, RaftBlockError>|
                    #![trigger entry_step(mid, es.last(), after, resp, in_memory)]
                    entry_step(mid, es.last(), after, resp, in_memory) && Ok::<Seq<BlockResponse>, RaftBlockError>(rs) == match resp {
                        Ok(x) => Ok::<Seq<BlockResponse>, RaftBlockError>(rs0.push(x)),
                        Err(err) => Err::<Seq<BlockResponse>, RaftBlockError>(err),
                    },
            };
        let rs0 = prev->Ok_0;
        let resp = choose|resp: Result<BlockResponse, RaftBlockError>|
            #![trigger entry_step(mid, es.last(), after, resp, in_memory)]
            entry_step(mid, es.last(), after, resp, in_memory) && Ok::<Seq<BlockResponse>, RaftBlockError>(rs) == match resp {
                Ok(x) => Ok::<Seq<BlockResponse>, RaftBlockError>(rs0.push(x)),
                Err(err) => Err::<Seq<BlockResponse>, RaftBlockError>(err),
            };
        let x = resp->Ok_0;
        successful_run_answers_every_entry(before, es.drop_last(), mid, rs0, in_memory);
        lemma_step_ok(mid, es.last(), after, x, in_memory);
        assert(rs == rs0.push(x));
        assert forall|i: int| 0 <= i < es.len() implies (#[trigger] rs[i]).applied_index == es[i].log_id.index by {
            if i < es.len() - 1 {
                assert(rs[i] == rs0[i]);
                assert(es[i] == es.drop_last()[i]);
            }
        }
    }
}

/// A write of no bytes is refused as empty and changes nothing: not the
/// replica, not its store, not the last applied entry.
pub proof fn empty_write_changes_nothing(
    before: ApplierView,
    e: RaftEntry,
    after: ApplierView,
    resp: Result<BlockResponse, RaftBlockError>,
    in_memory: bool,
)
    requires
        e.payload matches RaftPayload::Normal(BlockCommand::Write { bytes, .. }) && bytes@.len() == 0,
        entry_step(before, e, after, resp, in_memory),
    ensures
        resp == Err::<BlockResponse, RaftBlockError>(RaftBlockError::EmptyWrite),
        after == before,
{
}

} // verus!
