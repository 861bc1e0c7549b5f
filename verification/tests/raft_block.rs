use std::cell::RefCell;
use std::rc::Rc;

use nexus_core::block::{BlockCommand, BlockOp, BlockResponse, LogEntry, RaftBlockError};
use nexus_core::cluster::FakeRaftBlockCluster;
use nexus_core::persistent::{FileReplicaStore, PersistentReplica, ReplicaStoreImpl};
use nexus_core::replica::{PersistentReplicaState, Replica};

fn cluster3() -> FakeRaftBlockCluster {
    FakeRaftBlockCluster::new(&[1, 2, 3], 4096, 512).unwrap()
}

/// A store that keeps the last saved record in memory, shared between clones.
#[derive(Debug, Clone, Default)]
struct SharedStore {
    slot: Rc<RefCell<Option<PersistentReplicaState>>>,
    saves: Rc<RefCell<usize>>,
}

impl ReplicaStoreImpl for SharedStore {
    fn load(&self) -> Result<Option<PersistentReplicaState>, RaftBlockError> {
        Ok(self.slot.borrow().clone())
    }

    fn save(&self, state: &PersistentReplicaState) -> Result<(), RaftBlockError> {
        *self.slot.borrow_mut() = Some(state.clone());
        *self.saves.borrow_mut() += 1;
        Ok(())
    }
}

/// A store whose saves always fail.
#[derive(Debug, Clone, Default)]
struct BrokenStore;

impl ReplicaStoreImpl for BrokenStore {
    fn load(&self) -> Result<Option<PersistentReplicaState>, RaftBlockError> {
        Err(RaftBlockError::Store("unreadable".to_string()))
    }

    fn save(&self, _state: &PersistentReplicaState) -> Result<(), RaftBlockError> {
        Err(RaftBlockError::Store("unwritable".to_string()))
    }
}

#[test]
fn quorum_write_applies_in_order_to_reachable_majority() {
    let mut cluster = cluster3();
    cluster.propose_write(0, vec![1; 512], &[1, 2]).unwrap();
    cluster.propose_write(512, vec![2; 512], &[1, 2]).unwrap();

    let replica = cluster.replica(1).unwrap();
    assert_eq!(&replica.read_all()[0..512], &[1; 512]);
    assert_eq!(&replica.read_all()[512..1024], &[2; 512]);
    assert_eq!(cluster.committed_entries().len(), 2);
}

#[test]
fn minority_partition_cannot_commit() {
    let mut cluster = cluster3();
    let err = cluster.propose_write(0, vec![1; 512], &[1]).unwrap_err();
    assert_eq!(err, RaftBlockError::NoQuorum { acks: 1, quorum: 2 });
    assert!(cluster.committed_entries().is_empty());
    assert_eq!(cluster.replica(1).unwrap().read_all(), &[0; 4096]);
}

#[test]
fn duplicate_acknowledgements_do_not_form_quorum() {
    let mut cluster = cluster3();
    let err = cluster.propose_write(0, vec![1; 512], &[1, 1]).unwrap_err();
    assert_eq!(err, RaftBlockError::NoQuorum { acks: 1, quorum: 2 });
    assert!(cluster.committed_entries().is_empty());
    assert_eq!(cluster.replica(1).unwrap().read_all(), &[0; 4096]);
}

#[test]
fn replay_is_idempotent() {
    let mut replica = Replica::new(1, 4096, 512).unwrap();
    let entry = LogEntry::write(1, 1, 0, vec![7; 512]).unwrap();
    assert!(replica.apply(&entry).unwrap());
    assert!(!replica.apply(&entry).unwrap());
    assert_eq!(&replica.read_all()[0..512], &[7; 512]);
}

#[test]
fn stale_leader_entry_is_rejected_after_newer_term_seen() {
    let mut replica = Replica::new(1, 4096, 512).unwrap();
    replica.observe_term(3);
    let entry = LogEntry::write(2, 1, 0, vec![1; 512]).unwrap();
    let err = replica.apply(&entry).unwrap_err();
    assert_eq!(
        err,
        RaftBlockError::StaleTerm {
            entry_term: 2,
            seen_term: 3
        }
    );
}

#[test]
fn repair_replays_committed_entries_to_lagging_follower() {
    let mut cluster = cluster3();
    cluster.propose_write(0, vec![1; 512], &[1, 2]).unwrap();
    cluster.propose_write(512, vec![2; 512], &[1, 2]).unwrap();
    assert_eq!(cluster.replica(3).unwrap().read_all(), &[0; 4096]);

    assert_eq!(cluster.repair_node(3).unwrap(), 2);
    assert_eq!(
        cluster.replica(3).unwrap().read_all(),
        cluster.replica(1).unwrap().read_all()
    );
}

#[test]
fn checksum_mismatch_rejects_corrupt_entry_without_mutation() {
    let mut replica = Replica::new(1, 4096, 512).unwrap();
    let mut entry = LogEntry::write(1, 1, 0, vec![1; 512]).unwrap();
    let BlockOp::Write { bytes, .. } = &mut entry.op else {
        unreachable!();
    };
    bytes[0] = 9;

    let err = replica.apply(&entry).unwrap_err();
    assert_eq!(err, RaftBlockError::ChecksumMismatch);
    assert_eq!(replica.read_all(), &[0; 4096]);
}

#[test]
fn out_of_bounds_write_does_not_partially_mutate() {
    let mut replica = Replica::new(1, 1024, 512).unwrap();
    let entry = LogEntry::write(1, 1, 512, vec![3; 1024]).unwrap();
    let err = replica.apply(&entry).unwrap_err();
    assert_eq!(err, RaftBlockError::OutOfBounds);
    assert_eq!(replica.read_all(), &[0; 1024]);
}

#[test]
fn simulated_disk_full_rejects_without_mutation() {
    let mut replica = Replica::new(1, 4096, 512).unwrap();
    replica.fail_after_applied_entries(1);
    let first = LogEntry::write(1, 1, 0, vec![1; 512]).unwrap();
    let second = LogEntry::write(1, 2, 512, vec![2; 512]).unwrap();

    assert!(replica.apply(&first).unwrap());
    let err = replica.apply(&second).unwrap_err();
    assert_eq!(err, RaftBlockError::DiskFull);
    assert_eq!(&replica.read_all()[0..512], &[1; 512]);
    assert_eq!(&replica.read_all()[512..1024], &[0; 512]);
}

#[test]
fn failed_quorum_validation_does_not_partially_mutate_prefix() {
    let mut cluster = cluster3();
    cluster.replica_mut(2).unwrap().observe_term(3);

    let err = cluster.propose_write(0, vec![1; 512], &[1, 2]).unwrap_err();
    assert_eq!(
        err,
        RaftBlockError::StaleTerm {
            entry_term: 1,
            seen_term: 3
        }
    );
    assert!(cluster.committed_entries().is_empty());
    assert_eq!(cluster.replica(1).unwrap().read_all(), &[0; 4096]);
    assert_eq!(cluster.replica(2).unwrap().read_all(), &[0; 4096]);
}

#[test]
fn leader_only_reads_reject_follower_reads() {
    let mut cluster = cluster3();
    cluster.propose_write(0, vec![9; 512], &[1, 2]).unwrap();

    assert_eq!(cluster.read_from(1, 0, 512).unwrap(), vec![9; 512]);
    let err = cluster.read_from(2, 0, 512).unwrap_err();
    assert_eq!(
        err,
        RaftBlockError::NotLeader {
            node_id: 2,
            leader_id: 1
        }
    );
}

#[test]
fn non_leader_proposals_are_rejected_without_mutation() {
    let mut cluster = cluster3();
    let err = cluster
        .propose_write_from(2, 0, vec![6; 512], &[1, 2])
        .unwrap_err();
    assert_eq!(
        err,
        RaftBlockError::NotLeader {
            node_id: 2,
            leader_id: 1
        }
    );
    assert!(cluster.committed_entries().is_empty());
    assert_eq!(cluster.replica(1).unwrap().read_all(), &[0; 4096]);
    assert_eq!(cluster.replica(2).unwrap().read_all(), &[0; 4096]);
}

#[test]
fn old_leader_is_fenced_after_term_advance() {
    let mut cluster = cluster3();
    cluster
        .propose_write_from(1, 0, vec![1; 512], &[1, 2])
        .unwrap();
    cluster.advance_term();

    let err = cluster
        .propose_flush_from(1, &[1, 2])
        .expect_err("old leader must be fenced");
    assert_eq!(
        err,
        RaftBlockError::NotLeader {
            node_id: 1,
            leader_id: 2
        }
    );
    cluster.propose_flush_from(2, &[1, 2]).unwrap();
}

#[test]
fn snapshot_install_repairs_compacted_history() {
    let mut cluster = cluster3();
    cluster.propose_write(0, vec![1; 512], &[1, 2]).unwrap();
    cluster.propose_write(512, vec![2; 512], &[1, 2]).unwrap();

    let snapshot = cluster.compact_through(2).unwrap();
    assert_eq!(cluster.compacted_through(), 2);
    assert!(cluster.committed_entries().is_empty());

    let replica = cluster.replica_mut(3).unwrap();
    replica.install_snapshot(&snapshot).unwrap();
    assert_eq!(&replica.read_all()[0..512], &[1; 512]);
    assert_eq!(&replica.read_all()[512..1024], &[2; 512]);
    assert!(replica.applied_indexes().contains(&1));
    assert!(replica.applied_indexes().contains(&2));
}

#[test]
fn block_command_maps_to_log_entry_and_response() {
    let entry = BlockCommand::Write {
        offset: 0,
        bytes: vec![4; 512],
    }
    .into_entry(2, 7)
    .unwrap();

    assert_eq!(entry.term, 2);
    assert_eq!(entry.index, 7);
    let BlockOp::Write { offset, bytes, .. } = entry.op else {
        panic!("expected write");
    };
    assert_eq!(offset, 0);
    assert_eq!(bytes, vec![4; 512]);
}

#[test]
fn persistent_replica_reopens_with_applied_bytes_and_log() {
    let store = FileReplicaStore::external(SharedStore::default());
    let mut replica = PersistentReplica::create(store.clone(), 1, 4096, 512).unwrap();

    let response = replica
        .append_command(
            1,
            BlockCommand::Write {
                offset: 0,
                bytes: vec![8; 512],
            },
        )
        .unwrap();
    assert_eq!(
        response,
        BlockResponse {
            applied_index: 1,
            bytes_written: 512
        }
    );
    drop(replica);

    let reopened = PersistentReplica::open(store).unwrap().unwrap();
    assert_eq!(&reopened.read_all()[0..512], &[8; 512]);
    assert_eq!(reopened.log().len(), 1);
    assert_eq!(reopened.log()[0].index, 1);
    assert_eq!(reopened.read_range(0, 512).unwrap(), vec![8; 512]);
}

#[test]
fn persistent_replica_read_range_checks_bounds() {
    let store = FileReplicaStore::external(SharedStore::default());
    let replica = PersistentReplica::create(store, 1, 1024, 512).unwrap();
    let err = replica.read_range(512, 1024).unwrap_err();
    assert_eq!(err, RaftBlockError::OutOfBounds);
}

#[test]
fn persistent_replica_install_snapshot_compacts_replayed_log() {
    let store = FileReplicaStore::external(SharedStore::default());
    let mut replica = PersistentReplica::create(store.clone(), 1, 4096, 512).unwrap();
    replica
        .append_command(
            1,
            BlockCommand::Write {
                offset: 0,
                bytes: vec![1; 512],
            },
        )
        .unwrap();
    replica
        .append_command(
            1,
            BlockCommand::Write {
                offset: 512,
                bytes: vec![2; 512],
            },
        )
        .unwrap();

    let snapshot = replica.snapshot();
    replica.install_snapshot(&snapshot).unwrap();
    assert!(replica.log().is_empty());
    drop(replica);

    let reopened = PersistentReplica::open(store).unwrap().unwrap();
    assert_eq!(&reopened.read_all()[0..512], &[1; 512]);
    assert_eq!(&reopened.read_all()[512..1024], &[2; 512]);
    assert!(reopened.log().is_empty());
}

#[test]
fn aligned_quorum_writes_are_replayable() {
    for (first, second, first_block, second_block) in
        [(1u8, 2u8, 0usize, 1usize), (7, 9, 3, 3), (255, 0, 2, 0), (4, 4, 1, 2)]
    {
        let mut cluster = cluster3();
        cluster
            .propose_write((first_block * 512) as u64, vec![first; 512], &[1, 2])
            .unwrap();
        cluster
            .propose_write((second_block * 512) as u64, vec![second; 512], &[1, 2])
            .unwrap();

        cluster.repair_node(3).unwrap();
        assert_eq!(
            cluster.replica(1).unwrap().read_all(),
            cluster.replica(3).unwrap().read_all()
        );
    }
}

#[test]
fn replica_geometry_errors() {
    assert_eq!(Replica::new(1, 4096, 0).unwrap_err(), RaftBlockError::ZeroBlockSize);
    assert_eq!(Replica::new(1, 0, 512).unwrap_err(), RaftBlockError::InvalidCapacity);
    assert_eq!(Replica::new(1, 1000, 512).unwrap_err(), RaftBlockError::InvalidCapacity);
    assert_eq!(
        FakeRaftBlockCluster::new(&[1, 2], 1000, 512).unwrap_err(),
        RaftBlockError::InvalidCapacity
    );
    assert!(FakeRaftBlockCluster::new(&[], 1000, 512).is_ok());
}

#[test]
fn write_errors_cover_empty_and_unaligned() {
    assert_eq!(LogEntry::write(1, 1, 0, vec![]).unwrap_err(), RaftBlockError::EmptyWrite);
    assert_eq!(
        BlockCommand::Write { offset: 0, bytes: vec![] }.into_entry(1, 1).unwrap_err(),
        RaftBlockError::EmptyWrite
    );
    let mut replica = Replica::new(1, 4096, 512).unwrap();
    let entry = LogEntry::write(1, 1, 100, vec![1; 512]).unwrap();
    assert_eq!(replica.apply(&entry).unwrap_err(), RaftBlockError::UnalignedWrite);
    let entry = LogEntry::write(1, 1, 0, vec![1; 100]).unwrap();
    assert_eq!(replica.validate_entry(&entry).unwrap_err(), RaftBlockError::UnalignedWrite);
    assert_eq!(replica.read_all(), &[0; 4096]);
}

#[test]
fn checksum_is_sha256_of_payload() {
    let entry = LogEntry::write(1, 1, 0, b"abc".to_vec()).unwrap();
    let BlockOp::Write { checksum, .. } = entry.op else {
        panic!("expected write");
    };
    assert_eq!(
        hex::encode(checksum),
        "ba7816bf8f01cfea414140de5dae2223b00361a396177a9cb410ff61f20015ad"
    );
}

#[test]
fn unknown_acknowledger_is_reported_first_in_order() {
    let mut cluster = cluster3();
    let err = cluster.propose_write(0, vec![1; 512], &[9, 2, 1]).unwrap_err();
    assert_eq!(err, RaftBlockError::NodeNotFound(9));
    assert!(cluster.committed_entries().is_empty());
    assert_eq!(cluster.replica(1).unwrap().read_all(), &[0; 4096]);
    assert_eq!(cluster.replica_mut(7).unwrap_err(), RaftBlockError::NodeNotFound(7));
}

#[test]
fn commit_outcome_lists_distinct_acknowledgers_in_order() {
    let mut cluster = cluster3();
    let outcome = cluster.propose_flush(&[3, 1, 3]).unwrap();
    assert_eq!(outcome.acknowledgements, vec![1, 3]);
    assert_eq!(outcome.entry.index, 1);
    assert!(cluster.replica(3).unwrap().applied_indexes().contains(&1));
    assert!(!cluster.replica(2).unwrap().applied_indexes().contains(&1));
    assert_eq!(cluster.quorum(), 2);
}

#[test]
fn disk_full_stops_apply_at_first_refusing_replica() {
    let mut cluster = cluster3();
    cluster.replica_mut(2).unwrap().fail_after_applied_entries(0);
    let err = cluster.propose_write(0, vec![5; 512], &[1, 2, 3]).unwrap_err();
    assert_eq!(err, RaftBlockError::DiskFull);
    assert_eq!(&cluster.replica(1).unwrap().read_all()[0..512], &[5; 512]);
    assert_eq!(cluster.replica(2).unwrap().read_all(), &[0; 4096]);
    assert_eq!(cluster.replica(3).unwrap().read_all(), &[0; 4096]);
    assert!(cluster.committed_entries().is_empty());
}

#[test]
fn advance_term_keeps_single_node_leader() {
    let mut cluster = FakeRaftBlockCluster::new(&[1], 1024, 512).unwrap();
    assert_eq!(cluster.advance_term(), 2);
    assert_eq!(cluster.leader_id(), 1);
    let mut cluster = cluster3();
    cluster.advance_term();
    assert_eq!(cluster.advance_term(), 3);
    assert_eq!(cluster.leader_id(), 1);
}

#[test]
fn in_memory_store_never_reopens() {
    let store = FileReplicaStore::in_memory();
    let mut replica = PersistentReplica::create(store.clone(), 1, 1024, 512).unwrap();
    replica.append_command(1, BlockCommand::Flush).unwrap();
    assert_eq!(replica.last_applied_index(), 1);
    assert!(PersistentReplica::open(store).unwrap().is_none());
}

#[test]
fn failed_save_is_reported_after_the_change() {
    let store = FileReplicaStore::external(BrokenStore);
    assert_eq!(
        PersistentReplica::create(store.clone(), 1, 1024, 512).err().unwrap(),
        RaftBlockError::Store("unwritable".to_string())
    );
    assert!(PersistentReplica::open(store).is_err());
}

#[test]
fn persistent_state_round_trips_through_replica() {
    let mut replica = Replica::new(4, 2048, 512).unwrap();
    replica.apply(&LogEntry::write(2, 3, 512, vec![6; 512]).unwrap()).unwrap();
    replica.apply(&LogEntry::flush(2, 1)).unwrap();
    let log = vec![LogEntry::flush(2, 1)];
    let state = PersistentReplicaState::from_replica(&replica, log.clone(), 0);
    assert_eq!(state.applied_indexes, vec![1, 3]);
    assert_eq!(state.capacity_bytes, 2048);
    let (back, back_log, compacted) = state.into_replica().unwrap();
    assert_eq!(back.read_all(), replica.read_all());
    assert_eq!(back.id(), 4);
    assert_eq!(back_log, log);
    assert_eq!(compacted, 0);
    let mut bad = PersistentReplicaState::from_replica(&replica, vec![], 0);
    bad.bytes.pop();
    assert_eq!(bad.into_replica().unwrap_err(), RaftBlockError::InvalidCapacity);
}

#[test]
fn disk_full_refusal_keeps_the_term_seen() {
    let mut replica = Replica::new(1, 4096, 512).unwrap();
    replica.fail_after_applied_entries(0);
    let entry = LogEntry::write(5, 1, 0, vec![3; 512]).unwrap();
    assert_eq!(replica.apply(&entry).unwrap_err(), RaftBlockError::DiskFull);
    assert_eq!(replica.snapshot(0).highest_term_seen, 0);
    assert!(replica.applied_indexes().is_empty());
    // An older entry is still accepted afterwards: the refused term was never seen.
    replica.fail_after_applied_entries(1);
    assert!(replica.apply(&LogEntry::flush(2, 1)).unwrap());
    assert_eq!(replica.snapshot(1).highest_term_seen, 2);
}

#[test]
fn second_repair_changes_nothing() {
    let mut cluster = cluster3();
    cluster.propose_write(0, vec![5; 512], &[1, 2]).unwrap();
    cluster.propose_flush(&[1, 2]).unwrap();
    assert_eq!(cluster.repair_node(3).unwrap(), 2);
    let before = cluster.replica(3).unwrap().read_all().to_vec();
    assert_eq!(cluster.repair_node(3).unwrap(), 0);
    assert_eq!(cluster.replica(3).unwrap().read_all(), &before[..]);
    assert_eq!(cluster.replica(3).unwrap().read_all(), cluster.replica(1).unwrap().read_all());
}

#[test]
fn second_repair_across_terms_refuses_older_entries() {
    let mut cluster = cluster3();
    cluster.propose_flush(&[1, 2, 3]).unwrap();
    cluster.advance_term();
    assert_eq!(cluster.advance_term(), 3);
    assert_eq!(cluster.leader_id(), 1);
    cluster.propose_flush(&[1, 2]).unwrap();
    assert_eq!(cluster.repair_node(3).unwrap(), 1);
    assert_eq!(
        cluster.repair_node(3).unwrap_err(),
        RaftBlockError::StaleTerm { entry_term: 1, seen_term: 3 }
    );
}

#[test]
fn committed_indexes_stay_consecutive_after_compaction() {
    let mut cluster = cluster3();
    for i in 0..4u8 {
        cluster.propose_write(0, vec![i; 512], &[1, 2]).unwrap();
    }
    cluster.compact_through(2).unwrap();
    let indexes: Vec<u64> = cluster.committed_entries().iter().map(|e| e.index).collect();
    assert_eq!(indexes, vec![3, 4]);
    let next = cluster.propose_flush(&[1, 2]).unwrap();
    assert_eq!(next.entry.index, 5);
}

/// A store that accepts its first save and refuses every later one.
#[derive(Debug, Clone, Default)]
struct FirstSaveOnlyStore {
    saves: Rc<RefCell<usize>>,
}

impl ReplicaStoreImpl for FirstSaveOnlyStore {
    fn load(&self) -> Result<Option<PersistentReplicaState>, RaftBlockError> {
        Ok(None)
    }

    fn save(&self, _state: &PersistentReplicaState) -> Result<(), RaftBlockError> {
        *self.saves.borrow_mut() += 1;
        if *self.saves.borrow() > 1 {
            Err(RaftBlockError::Store("disk gone".to_string()))
        } else {
            Ok(())
        }
    }
}

#[test]
fn failed_save_after_append_is_the_result() {
    let store = FirstSaveOnlyStore::default();
    let mut replica = PersistentReplica::create(FileReplicaStore::external(store.clone()), 1, 1024, 512).unwrap();
    let err = replica
        .append_command(1, BlockCommand::Write { offset: 0, bytes: vec![9; 512] })
        .unwrap_err();
    assert_eq!(err, RaftBlockError::Store("disk gone".to_string()));
    assert_eq!(&replica.read_all()[0..512], &[9; 512]);
    assert_eq!(*store.saves.borrow(), 2);
    let snap = replica.snapshot();
    assert_eq!(replica.install_snapshot(&snap).unwrap_err(), RaftBlockError::Store("disk gone".to_string()));
}
