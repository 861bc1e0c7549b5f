use nexus_core::vm_spec::{ensure_allowed_path, path_allowed, resolve_image_path, snapshot_spec, ResolvedVmSpec};

const IMAGES: &str = "/srv/images";
const STORAGE: &str = "/srv/fc/vms";

#[test]
fn paths_under_either_root_are_allowed() {
    assert!(path_allowed("/srv/images/vmlinux", IMAGES, STORAGE));
    assert!(path_allowed("/srv/fc/vms/abc/rootfs.ext4", IMAGES, STORAGE));
    assert!(!path_allowed("/etc/passwd", IMAGES, STORAGE));
    // Whole components only: a sibling directory sharing a prefix is outside.
    assert!(!path_allowed("/srv/images2/vmlinux", IMAGES, STORAGE));
}

#[test]
fn restart_rejects_kernel_outside_the_roots() {
    let err = snapshot_spec("vm".to_string(), 1, 512, "/etc/passwd", "/srv/images/rootfs", IMAGES, STORAGE)
        .unwrap_err();
    assert!(err.contains("not within the configured image root"));
    assert_eq!(err, "path /etc/passwd is not within the configured image root or storage root");
    assert!(ensure_allowed_path("/srv/images/rootfs", IMAGES, STORAGE).is_ok());
}

#[test]
fn direct_paths_are_refused_in_production() {
    let err = resolve_image_path("kernel", None, Some("/srv/images/vmlinux".to_string()), false, IMAGES, STORAGE)
        .unwrap_err();
    assert!(err.contains("path not permitted"));
    assert_eq!(err, "kernel path not permitted in production mode");
    assert_eq!(
        resolve_image_path("kernel", None, Some("/srv/images/vmlinux".to_string()), true, IMAGES, STORAGE).unwrap(),
        "/srv/images/vmlinux"
    );
    assert_eq!(
        resolve_image_path("rootfs", None, None, true, IMAGES, STORAGE).unwrap_err(),
        "rootfs requires an image id or host path"
    );
    assert_eq!(
        resolve_image_path("rootfs", Some("/opt/x".to_string()), None, true, IMAGES, STORAGE).unwrap_err(),
        "path /opt/x is not within the configured image root or storage root"
    );
}

#[test]
fn snapshot_spec_narrows_stored_sizes() {
    let spec = snapshot_spec("copy".to_string(), 2, 1024, "/srv/images/vmlinux", "/srv/fc/vms/a/rootfs", IMAGES, STORAGE)
        .unwrap();
    assert_eq!(
        spec,
        ResolvedVmSpec {
            name: "copy".to_string(),
            vcpu: 2,
            mem_mib: 1024,
            kernel_path: "/srv/images/vmlinux".to_string(),
            rootfs_path: "/srv/fc/vms/a/rootfs".to_string(),
            rootfs_size_bytes: None,
        }
    );
    assert_eq!(
        snapshot_spec("x".to_string(), 256, 1, "/srv/images/k", "/srv/images/r", IMAGES, STORAGE).unwrap_err(),
        "stored vcpu exceeds u8"
    );
    assert_eq!(
        snapshot_spec("x".to_string(), 1, -1, "/srv/images/k", "/srv/images/r", IMAGES, STORAGE).unwrap_err(),
        "stored mem_mib negative"
    );
    assert_eq!(
        snapshot_spec("x".to_string(), 1, 1, "/srv/images/k", "/tmp/r", IMAGES, STORAGE).unwrap_err(),
        "path /tmp/r is not within the configured image root or storage root"
    );
}
