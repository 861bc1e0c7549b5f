use nexus_core::vmm::{auto_select, features, BootMode, FeatureSupport, GuestOs, ImageKind, VmmKind};

#[test]
fn vmm_kind_round_trips() {
    for s in ["firecracker", "qemu"] {
        let k = VmmKind::parse(s).unwrap();
        assert_eq!(k.as_str(), s);
    }
    assert!(VmmKind::parse("nope").is_none());
}

#[test]
fn guest_os_round_trips() {
    for s in ["linux_kernel", "linux_disk", "windows", "other"] {
        let g = GuestOs::parse(s).unwrap();
        assert_eq!(g.as_str(), s);
    }
}

#[test]
fn fc_supports_only_linux_kernel() {
    assert!(features(VmmKind::Firecracker, GuestOs::LinuxKernel).mmds);
    for g in [GuestOs::LinuxDisk, GuestOs::Windows, GuestOs::Other] {
        assert_eq!(features(VmmKind::Firecracker, g), FeatureSupport::none());
    }
}

#[test]
fn qemu_supports_uefi_and_windows() {
    let f = features(VmmKind::Qemu, GuestOs::LinuxDisk);
    assert!(f.uefi_boot);
    assert!(f.vnc_console);
    assert!(f.cdrom);

    let w = features(VmmKind::Qemu, GuestOs::Windows);
    assert!(w.windows_guest, "windows_guest should be enabled in 0.5.0");
    assert!(w.uefi_boot);
    assert!(!w.balloon, "qemu+windows excludes virtio-balloon by policy");
}

#[test]
fn auto_select_linux_kernel_to_fc() {
    let bm = BootMode::LinuxKernel {
        kernel: "/vmlinux".to_string(),
        initrd: None,
        cmdline: String::new(),
    };
    assert_eq!(auto_select(&bm), VmmKind::Firecracker);
}

#[test]
fn auto_select_uefi_to_qemu() {
    let bm = BootMode::Uefi {
        firmware: "/OVMF.fd".to_string(),
        nvram_template: None,
    };
    assert_eq!(auto_select(&bm), VmmKind::Qemu);
}

#[test]
fn image_kind_round_trips() {
    for s in ["linux_kernel", "linux_disk", "uefi_disk", "installer_iso"] {
        let k = ImageKind::parse(s).unwrap();
        assert_eq!(k.as_str(), s);
    }
}

#[test]
fn unknown_names_are_refused() {
    assert!(GuestOs::parse("Windows").is_none());
    assert!(ImageKind::parse("").is_none());
}

#[test]
fn boot_mode_names() {
    let pvh = BootMode::Pvh { kernel: "/k".to_string(), cmdline: String::new() };
    assert_eq!(pvh.mode_str(), "pvh");
    assert_eq!(auto_select(&pvh), VmmKind::Qemu);
}

#[test]
fn firecracker_never_runs_windows() {
    assert!(!features(VmmKind::Firecracker, GuestOs::Windows).windows_guest);
    assert!(features(VmmKind::Firecracker, GuestOs::Windows).is_none());
    assert!(!features(VmmKind::Qemu, GuestOs::LinuxDisk).is_none());
}
