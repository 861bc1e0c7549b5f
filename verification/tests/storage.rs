use nexus_core::storage::{
    lvol_size_in_mib, raftblk_socket_path, spdk_vhost_controller_name, AttachedPath, BackendKind, Capabilities,
    RaftSpdkLocator, RaftSpdkReplicaLocator, SpdkJsonRpcClient, StorageError,
};

const GROUP: [u8; 16] = [
    0x01, 0x8f, 0x64, 0xba, 0x97, 0xaa, 0x70, 0xd9, 0xa7, 0xd2, 0x64, 0x59, 0x25, 0x6f, 0xd1, 0x11,
];

fn replica(node_id: u64) -> RaftSpdkReplicaLocator {
    RaftSpdkReplicaLocator {
        node_id,
        agent_base_url: format!("http://agent-{node_id}:9090"),
        spdk_lvol_locator: format!("lvs/vol-{node_id}"),
    }
}

#[test]
fn capabilities_default_is_pessimistic() {
    let c = Capabilities::default();
    assert!(!c.supports_native_snapshots);
    assert!(!c.supports_concurrent_attach);
    assert!(!c.supports_live_migration);
    assert!(!c.supports_clone_from_image);
}

#[test]
fn attached_path_exposes_path_for_each_variant() {
    let f = AttachedPath::File("/tmp/x".to_string());
    let b = AttachedPath::BlockDevice("/dev/sdb".to_string());
    let v = AttachedPath::VhostUserSock("/run/spdk.sock".to_string());
    assert_eq!(f.path(), "/tmp/x");
    assert_eq!(b.path(), "/dev/sdb");
    assert_eq!(v.path(), "/run/spdk.sock");
}

#[test]
fn already_attached_displays_clearly() {
    let e = StorageError::AlreadyAttached;
    assert_eq!(e.message(), "volume already attached");
}

#[test]
fn not_supported_displays_clearly() {
    let e = StorageError::NotSupported("clone_from_image".into());
    assert!(e.message().contains("clone_from_image"));
}

#[test]
fn every_storage_error_has_its_message() {
    assert_eq!(StorageError::NotFound.message(), "volume not found");
    assert_eq!(StorageError::InvalidLocator("x".into()).message(), "invalid volume locator: x");
    assert_eq!(StorageError::Io("disk gone".into()).message(), "io error: disk gone");
    assert_eq!(StorageError::backend("rpc".to_string()).message(), "backend error: rpc");
}

#[test]
fn backend_kind_database_names() {
    assert_eq!(BackendKind::LocalFile.as_db_str(), "local_file");
    assert_eq!(BackendKind::Iscsi.as_db_str(), "iscsi");
    assert_eq!(BackendKind::TrueNasIscsi.as_db_str(), "truenas_iscsi");
}

#[test]
fn rpc_client_keeps_its_socket() {
    let c = SpdkJsonRpcClient::new("/var/tmp/spdk.sock".to_string());
    assert_eq!(c.socket(), "/var/tmp/spdk.sock");
}

#[test]
fn lvol_sizes_round_up_to_whole_mebibytes() {
    assert_eq!(lvol_size_in_mib(0), 1);
    assert_eq!(lvol_size_in_mib(1), 1);
    assert_eq!(lvol_size_in_mib(1048576), 1);
    assert_eq!(lvol_size_in_mib(1048577), 2);
    assert_eq!(lvol_size_in_mib(4096), 1);
}

#[test]
fn locator_accepts_static_three_node_membership() {
    let l = RaftSpdkLocator::new(GROUP, 4096, 512, vec![replica(1), replica(2), replica(3)], Some(1)).unwrap();
    assert_eq!(l.replicas.len(), 3);
    assert_eq!(l.leader_hint, Some(1));
}

#[test]
fn locator_rejects_non_three_node_replica_sets() {
    let err = RaftSpdkLocator::new([7u8; 16], 4096, 512, vec![replica(1), replica(2)], Some(1)).unwrap_err();
    assert!(err.message().contains("exactly 3"));
}

#[test]
fn locator_rejects_bad_geometry_and_members() {
    let e = RaftSpdkLocator::new(GROUP, 4096, 0, vec![replica(1), replica(2), replica(3)], None).unwrap_err();
    assert_eq!(e.message(), "invalid volume locator: raft_spdk block_size must be nonzero");
    let e = RaftSpdkLocator::new(GROUP, 4000, 512, vec![replica(1), replica(2), replica(3)], None).unwrap_err();
    assert_eq!(e.message(), "invalid volume locator: raft_spdk size_bytes must be a nonzero multiple of block_size");
    let e = RaftSpdkLocator::new(GROUP, 4096, 512, vec![replica(1), replica(1), replica(3)], None).unwrap_err();
    assert_eq!(e.message(), "invalid volume locator: raft_spdk duplicate replica node_id 1");
    let e = RaftSpdkLocator::new(GROUP, 4096, 512, vec![replica(0), replica(2), replica(3)], None).unwrap_err();
    assert_eq!(e.message(), "invalid volume locator: raft_spdk replica node_id must be nonzero");
    let e = RaftSpdkLocator::new(GROUP, 4096, 512, vec![replica(1), replica(2), replica(3)], Some(9)).unwrap_err();
    assert_eq!(e.message(), "invalid volume locator: raft_spdk leader_hint must reference a replica node_id");
    let mut blank = replica(2);
    blank.agent_base_url = "  ".to_string();
    let e = RaftSpdkLocator::new(GROUP, 4096, 512, vec![replica(1), blank, replica(3)], None).unwrap_err();
    assert_eq!(e.message(), "invalid volume locator: raft_spdk replica agent_base_url must not be empty");
}

#[test]
fn socket_path_is_stable_and_group_scoped() {
    assert_eq!(
        raftblk_socket_path("/run/nqrust/raftblk", GROUP),
        "/run/nqrust/raftblk/nq-raftblk-018f64ba97aa70d9a7d26459256fd111.sock"
    );
}

#[test]
fn controller_name_is_stable_and_spdk_safe() {
    assert_eq!(spdk_vhost_controller_name(GROUP), "nq.018f64ba97aa70d9a7d26459256fd111");
}
