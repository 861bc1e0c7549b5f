use nexus_core::qemu_plan::{
    at_capacity_message, default_guest_user, device_flags, qemu_disks, qemu_nics, restart_nics, wants_cloud_init,
    DataDrive, DiskSpec, NicSpec,
};
use nexus_core::vmm::GuestOs;

fn disk(id: &str, src: &str, ro: bool, root: bool, fmt: &str, cdrom: bool) -> DiskSpec {
    DiskSpec {
        drive_id: id.to_string(),
        source: src.to_string(),
        read_only: ro,
        root_device: root,
        format: Some(fmt.to_string()),
        cdrom,
    }
}

#[test]
fn windows_disks_carry_seed_installer_and_drivers() {
    let data = vec![
        DataDrive {
            drive_id: "data1".into(),
            path_on_host: "/srv/d1.img".into(),
            is_root_device: false,
            is_read_only: true,
            format: "raw".into(),
        },
        DataDrive {
            drive_id: "rootfs".into(),
            path_on_host: "/srv/root.img".into(),
            is_root_device: true,
            is_read_only: false,
            format: "qcow2".into(),
        },
    ];
    let disks = qemu_disks(
        "/srv/vm.qcow2",
        "qcow2",
        Some("/srv/seed.iso"),
        Some("/srv/win.iso"),
        GuestOs::Windows,
        Some("/srv/virtio-win.iso"),
        &data,
    );
    assert_eq!(
        disks,
        vec![
            disk("rootfs", "/srv/vm.qcow2", false, true, "qcow2", false),
            disk("cloudinit", "/srv/seed.iso", true, false, "raw", true),
            disk("installer", "/srv/win.iso", true, false, "raw", true),
            disk("virtio-win", "/srv/virtio-win.iso", true, false, "raw", true),
            disk("data1", "/srv/d1.img", true, false, "raw", false),
        ]
    );
    // The drivers ISO is only for Windows guests.
    let linux = qemu_disks("/srv/vm.qcow2", "qcow2", None, None, GuestOs::LinuxDisk, Some("/srv/virtio-win.iso"), &[]);
    assert_eq!(linux, vec![disk("rootfs", "/srv/vm.qcow2", false, true, "qcow2", false)]);
}

#[test]
fn nics_skip_extra_networks_that_were_not_ready() {
    let id = [0xab, 0xcd, 0xef, 0x01, 0x23, 0, 0, 0, 0, 0, 0, 0, 0, 0x11, 0x22, 0x33];
    let nics = qemu_nics(id, false, &[true, false, true]);
    assert_eq!(
        nics,
        vec![
            NicSpec { iface_id: "net0".into(), host_dev: "tap-abcdef01".into(), mac: "52:54:00:11:22:33".into() },
            NicSpec { iface_id: "net1".into(), host_dev: "xtp-abcdef-0".into(), mac: "52:54:00:11:22:32".into() },
            NicSpec { iface_id: "net3".into(), host_dev: "xtp-abcdef-2".into(), mac: "52:54:00:11:22:30".into() },
        ]
    );
    let test_nics = qemu_nics(id, true, &[true]);
    assert_eq!(test_nics[0].host_dev, "user");
    assert_eq!(test_nics[1].host_dev, "user");
}

#[test]
fn guest_decides_seed_user_and_device_flags() {
    assert!(wants_cloud_init(GuestOs::Windows, false, true, 0));
    assert!(wants_cloud_init(GuestOs::LinuxKernel, false, false, 1));
    assert!(!wants_cloud_init(GuestOs::LinuxDisk, false, false, 0));
    assert!(!wants_cloud_init(GuestOs::Other, true, true, 2));
    assert_eq!(default_guest_user(GuestOs::Windows), "Administrator");
    assert_eq!(default_guest_user(GuestOs::LinuxDisk), "nexus");
    assert_eq!(device_flags(GuestOs::Windows, None), (true, true));
    assert_eq!(device_flags(GuestOs::Windows, Some(false)), (true, false));
    assert_eq!(device_flags(GuestOs::LinuxDisk, None), (false, false));
    assert_eq!(device_flags(GuestOs::LinuxDisk, Some(true)), (false, true));
}

#[test]
fn capacity_refusal_names_host_and_request() {
    assert_eq!(
        at_capacity_message([0; 16], 4, 2048),
        "host 00000000-0000-0000-0000-000000000000 is at capacity; cannot reserve 4 vcpu / 2048 MiB"
    );
}

#[test]
fn restart_boots_on_eth0_only() {
    let id = [0x0f, 0x1e, 0x2d, 0x3c, 0, 0, 0, 0, 0, 0, 0, 0, 0, 0xaa, 0xbb, 0xcc];
    assert_eq!(
        restart_nics(id, false),
        vec![NicSpec { iface_id: "eth0".into(), host_dev: "tap-0f1e2d3c".into(), mac: "52:54:00:aa:bb:cc".into() }]
    );
    assert_eq!(restart_nics(id, true)[0].host_dev, "user");
}
