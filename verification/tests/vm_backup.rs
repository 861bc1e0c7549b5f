use nexus_core::vm_backup::{backup_mode, BackupMode};

#[test]
fn volume_backed_vm_uses_the_volume_pipeline() {
    let v = [1; 16];
    let t = [2; 16];
    assert_eq!(
        backup_mode(Some(v), Some(t), Some("/mnt/x".into()), None, false).unwrap(),
        BackupMode::Volume { volume_id: v, target_id: t }
    );
}

#[test]
fn overlay_backup_needs_a_destination() {
    let err = backup_mode(Some([1; 16]), None, None, None, true).unwrap_err();
    assert_eq!(err.status, 400);
    assert_eq!(err.error, "destination_path required for overlay-backed VMs");
    assert_eq!(
        backup_mode(None, None, Some("/mnt/b.qcow2".into()), None, true).unwrap(),
        BackupMode::Overlay { destination: "/mnt/b.qcow2".into(), format: "qcow2".into(), compress: true }
    );
    assert_eq!(
        backup_mode(None, Some([3; 16]), Some("/mnt/b.raw".into()), Some("raw".into()), false).unwrap(),
        BackupMode::Overlay { destination: "/mnt/b.raw".into(), format: "raw".into(), compress: false }
    );
}
