use nexus_core::block::LogEntry;
use nexus_core::replica::{PersistentReplicaState, Replica};
use nexus_core::sidecar::{
    decode_log_frames, encode_log_frame, needs_full_rewrite, new_block_writes, range_contains, sidecar_paths,
    sidecar_state, tmp_path_for, IndexBound, LogFrameError, SidecarReplicaMeta,
};
use nexus_core::block::RaftBlockError;
use nexus_core::persistent::{FileReplicaStore, PersistentReplica};

fn state_with_log() -> PersistentReplicaState {
    let mut r = Replica::new(1, 4096, 512).unwrap();
    let e1 = LogEntry::write(1, 1, 0, vec![7u8; 512]).unwrap();
    let e2 = LogEntry::flush(1, 2);
    let e3 = LogEntry::write(1, 3, 512, vec![8u8; 512]).unwrap();
    r.apply(&e1).unwrap();
    r.apply(&e2).unwrap();
    let mut s = PersistentReplicaState::from_replica(&r, vec![e1, e2, e3], 0);
    s.applied_indexes = vec![1, 2];
    s
}

#[test]
fn sidecar_files_sit_beside_the_state_file() {
    let p = sidecar_paths("/var/lib/nq/node-1.json");
    assert_eq!(p.dir, "/var/lib/nq/node-1.json.d");
    assert_eq!(p.meta, "/var/lib/nq/node-1.json.d/meta.json");
    assert_eq!(p.blocks, "/var/lib/nq/node-1.json.d/blocks.bin");
    assert_eq!(p.log, "/var/lib/nq/node-1.json.d/log.bin");
    assert_eq!(tmp_path_for("/var/lib/nq/node-1.json"), "/var/lib/nq/node-1.json.tmp");
}

#[test]
fn a_path_without_a_name_uses_the_default_name() {
    assert_eq!(tmp_path_for("/"), "/replica-state.tmp");
}

#[test]
fn log_frames_round_trip() {
    let records = vec![b"{\"a\":1}".to_vec(), vec![9u8; 300], b"x".to_vec()];
    let mut data = Vec::new();
    for r in &records {
        data.extend(encode_log_frame(r));
    }
    assert_eq!(decode_log_frames(&data).unwrap(), records);
    assert_eq!(&encode_log_frame(b"ab")[..], &[2, 0, 0, 0, 0, 0, 0, 0, b'a', b'b']);
}

#[test]
fn log_frame_errors() {
    assert_eq!(decode_log_frames(&[0u8; 8]).unwrap_err(), LogFrameError::ZeroLength);
    let mut data = encode_log_frame(b"abcdef");
    data.truncate(10);
    assert_eq!(decode_log_frames(&data).unwrap_err(), LogFrameError::TruncatedBody);
    let mut data = encode_log_frame(b"ok");
    data.extend_from_slice(&[1, 2, 3]);
    assert_eq!(decode_log_frames(&data).unwrap(), vec![b"ok".to_vec()]);
    assert!(decode_log_frames(&[]).unwrap().is_empty());
}

#[test]
fn metadata_describes_the_state() {
    let s = state_with_log();
    let m = SidecarReplicaMeta::from_state(&s);
    assert_eq!(m.version, 1);
    assert_eq!(m.node_id, 1);
    assert_eq!(m.capacity_bytes, 4096);
    assert_eq!(m.log_len, 3);
    assert_eq!(m.applied_indexes, vec![1, 2]);
    let mut bad = m.clone();
    bad.version = 2;
    match bad.check_version() {
        Err(RaftBlockError::Store(msg)) => assert_eq!(msg, "unsupported sidecar replica store version 2"),
        other => panic!("unexpected {other:?}"),
    }
    assert!(m.check_version().is_ok());
}

#[test]
fn rewrite_decision() {
    let s = state_with_log();
    assert!(needs_full_rewrite(&None, &s));
    let m = SidecarReplicaMeta::from_state(&s);
    assert!(!needs_full_rewrite(&Some(m.clone()), &s));
    let mut longer = m.clone();
    longer.log_len = 4;
    assert!(needs_full_rewrite(&Some(longer), &s));
    let mut moved = m;
    moved.compacted_through = 1;
    assert!(needs_full_rewrite(&Some(moved), &s));
}

#[test]
fn only_newly_applied_writes_are_written() {
    let s = state_with_log();
    let w = new_block_writes(&vec![], &s);
    assert_eq!(w, vec![(0u64, vec![7u8; 512])]);
    assert!(new_block_writes(&vec![1], &s).is_empty());
}

#[test]
fn state_reassembly_checks_the_files() {
    let s = state_with_log();
    let m = SidecarReplicaMeta::from_state(&s);
    match sidecar_state(m.clone(), vec![0u8; 10], s.log.clone()) {
        Err(RaftBlockError::Store(msg)) => assert_eq!(msg, "sidecar blocks length 10 does not match capacity 4096"),
        other => panic!("unexpected {other:?}"),
    }
    match sidecar_state(m.clone(), s.bytes.clone(), vec![]) {
        Err(RaftBlockError::Store(msg)) => assert_eq!(msg, "sidecar log length 0 does not match meta length 3"),
        other => panic!("unexpected {other:?}"),
    }
    let back = sidecar_state(m, s.bytes.clone(), s.log.clone()).unwrap();
    assert_eq!(back, s);
}

#[test]
fn index_ranges() {
    assert!(range_contains(IndexBound::Included(3), IndexBound::Excluded(5), 3));
    assert!(!range_contains(IndexBound::Included(3), IndexBound::Excluded(5), 5));
    assert!(range_contains(IndexBound::Excluded(3), IndexBound::Included(5), 5));
    assert!(!range_contains(IndexBound::Excluded(3), IndexBound::Unbounded, 3));
    assert!(range_contains(IndexBound::Unbounded, IndexBound::Unbounded, u64::MAX));
}

#[test]
fn block_errors_display_their_cause() {
    assert_eq!(RaftBlockError::NoQuorum { acks: 1, quorum: 2 }.message(), "not enough acknowledgements for quorum: 1/2");
    assert_eq!(
        RaftBlockError::StaleTerm { entry_term: 1, seen_term: 3 }.message(),
        "entry term 1 is stale; node has seen term 3"
    );
    assert_eq!(RaftBlockError::NotLeader { node_id: 2, leader_id: 1 }.message(), "node 2 is not the current leader 1");
    assert_eq!(RaftBlockError::NodeNotFound(9).message(), "node 9 not found");
    assert_eq!(RaftBlockError::Store("x".into()).message(), "persistent store error: x");
    assert_eq!(RaftBlockError::DiskFull.message(), "replica has no remaining simulated disk capacity");
}

#[test]
fn saved_state_becomes_a_replica_again() {
    use_persistent_from_state();
}

fn use_persistent_from_state() {
    let s = state_with_log();
    let p = PersistentReplica::from_state(FileReplicaStore::in_memory(), s.clone()).unwrap();
    assert_eq!(p.read_all(), &s.bytes[..]);
    assert_eq!(p.log().len(), 3);
    assert_eq!(p.last_applied_index(), 2);
    let mut short = s.clone();
    short.bytes.truncate(10);
    assert_eq!(
        PersistentReplica::from_state(FileReplicaStore::in_memory(), short).err().unwrap(),
        RaftBlockError::InvalidCapacity
    );
    let mut zero = s;
    zero.block_size = 0;
    assert_eq!(
        PersistentReplica::from_state(FileReplicaStore::in_memory(), zero).err().unwrap(),
        RaftBlockError::ZeroBlockSize
    );
}
