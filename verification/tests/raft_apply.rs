use nexus_core::block::{BlockCommand, BlockResponse, RaftBlockError};
use nexus_core::persistent::{FileReplicaStore, PersistentReplica};
use nexus_core::raft_apply::{check_batch_indexes, EntryApplier, RaftEntry, RaftLogId, RaftPayload};

fn id(term: u64, index: u64) -> RaftLogId {
    RaftLogId { term, leader_id: 1, index }
}

#[test]
fn entries_apply_in_order_and_track_the_last_one() {
    let replica = PersistentReplica::create(FileReplicaStore::in_memory(), 1, 4096, 512).unwrap();
    let mut applier = EntryApplier::new(replica);
    let responses = applier
        .apply_entries(vec![
            RaftEntry { log_id: id(1, 1), payload: RaftPayload::Blank },
            RaftEntry {
                log_id: id(1, 2),
                payload: RaftPayload::Normal(BlockCommand::Write { offset: 512, bytes: vec![7; 512] }),
            },
            RaftEntry { log_id: id(2, 3), payload: RaftPayload::Membership },
        ])
        .unwrap();
    assert_eq!(
        responses,
        vec![
            BlockResponse { applied_index: 1, bytes_written: 0 },
            BlockResponse { applied_index: 2, bytes_written: 512 },
            BlockResponse { applied_index: 3, bytes_written: 0 },
        ]
    );
    assert_eq!(applier.last_applied_log_id(), Some(id(2, 3)));
    assert_eq!(applier.last_membership(), Some(id(2, 3)));
    assert_eq!(&applier.replica().read_all()[512..1024], &[7; 512]);
    assert_eq!(applier.replica().log().len(), 1);
}

#[test]
fn a_failing_entry_stops_the_batch() {
    let replica = PersistentReplica::create(FileReplicaStore::in_memory(), 1, 4096, 512).unwrap();
    let mut applier = EntryApplier::new(replica);
    let err = applier
        .apply_entries(vec![
            RaftEntry { log_id: id(1, 1), payload: RaftPayload::Normal(BlockCommand::Flush) },
            RaftEntry { log_id: id(1, 2), payload: RaftPayload::Normal(BlockCommand::Write { offset: 0, bytes: vec![] }) },
            RaftEntry { log_id: id(1, 3), payload: RaftPayload::Blank },
        ])
        .unwrap_err();
    assert_eq!(err, RaftBlockError::EmptyWrite);
    assert_eq!(applier.last_applied_log_id(), Some(id(1, 1)));
    assert_eq!(applier.last_membership(), None);
}

#[test]
fn batches_must_continue_the_log() {
    assert!(check_batch_indexes(4, &[4, 5, 6]).is_ok());
    assert!(check_batch_indexes(4, &[]).is_ok());
    assert_eq!(
        check_batch_indexes(4, &[4, 6, 7]).unwrap_err(),
        "openraft append_entries expected index 5, got 6"
    );
}

#[test]
fn openraft_entries_apply_normal_commands_to_persistent_replica() {
    let replica = PersistentReplica::create(FileReplicaStore::in_memory(), 1, 4096, 512).unwrap();
    let mut applier = EntryApplier::new(replica);
    let responses = applier
        .apply_entries(vec![
            RaftEntry { log_id: id(1, 1), payload: RaftPayload::Blank },
            RaftEntry {
                log_id: id(1, 2),
                payload: RaftPayload::Normal(BlockCommand::Write { offset: 0, bytes: vec![9; 512] }),
            },
            RaftEntry { log_id: id(1, 3), payload: RaftPayload::Normal(BlockCommand::Flush) },
        ])
        .unwrap();
    assert_eq!(responses.len(), 3);
    assert_eq!(responses[0].bytes_written, 0);
    assert_eq!(responses[1].bytes_written, 512);
    assert_eq!(responses[2].bytes_written, 0);
    assert_eq!(applier.last_applied_log_id(), Some(id(1, 3)));
    assert_eq!(&applier.replica().read_all()[0..512], &[9; 512]);
}

#[test]
fn openraft_membership_entry_tracks_membership_without_mutating_blocks() {
    let replica = PersistentReplica::create(FileReplicaStore::in_memory(), 1, 4096, 512).unwrap();
    let mut applier = EntryApplier::new(replica);
    let log_id = RaftLogId { term: 2, leader_id: 2, index: 4 };
    let responses = applier
        .apply_entries(vec![RaftEntry { log_id, payload: RaftPayload::Membership }])
        .unwrap();
    assert_eq!(responses, vec![BlockResponse { applied_index: 4, bytes_written: 0 }]);
    assert_eq!(applier.last_applied_log_id(), Some(log_id));
    assert_eq!(applier.last_membership(), Some(log_id));
    assert_eq!(applier.replica().read_all(), &[0; 4096]);
}
