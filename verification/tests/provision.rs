use nexus_core::provision::{
    build_cloud_init_user_data, detect_disk_format, generate_extra_mac, generate_mac, matches_ignore_case,
    validate_and_resolve, yaml_escape, QemuBootRequest, VmPaths, VmRowPaths,
};
use nexus_core::vmm::{BootMode, GuestOs, VmmKind};

#[test]
fn detect_disk_format_handles_common_extensions() {
    assert_eq!(detect_disk_format("/srv/images/foo.qcow2"), "qcow2");
    assert_eq!(detect_disk_format("/srv/images/foo.IMG"), "qcow2");
    assert_eq!(detect_disk_format("/srv/images/foo.vmdk"), "vmdk");
    assert_eq!(detect_disk_format("/srv/images/foo.raw"), "raw");
    assert_eq!(detect_disk_format("/srv/images/foo.ext4"), "raw");
    assert_eq!(detect_disk_format("/srv/images/foo"), "raw");
}

#[test]
fn detect_disk_format_other_names() {
    assert_eq!(detect_disk_format("/a/b.QCOW"), "qcow2");
    assert_eq!(detect_disk_format("/a/b.vdi"), "vdi");
    assert_eq!(detect_disk_format("img"), "raw");
}

fn id_ending(b13: u8, b14: u8, b15: u8) -> [u8; 16] {
    let mut id = [0u8; 16];
    id[13] = b13;
    id[14] = b14;
    id[15] = b15;
    id
}

#[test]
fn mac_is_deterministic_and_qemu_oui() {
    let id = uuid::Uuid::parse_str("00000000-0000-0000-0000-000000abcdef").unwrap();
    let m = generate_mac(*id.as_bytes());
    assert_eq!(m, "52:54:00:ab:cd:ef");
}

#[test]
fn extra_nic_macs_differ_in_the_last_byte() {
    let id = id_ending(0xab, 0xcd, 0xef);
    assert_eq!(generate_extra_mac(id, 0), "52:54:00:ab:cd:ee");
    assert_eq!(generate_extra_mac(id, 1), "52:54:00:ab:cd:ed");
    assert_eq!(generate_mac(id_ending(0, 1, 0x10)), "52:54:00:00:01:10");
}

#[test]
fn yaml_escape_quotes_backslashes_and_quotes() {
    assert_eq!(yaml_escape(r#"a\b"c"#), r#"a\\b\"c"#);
    assert_eq!(yaml_escape("ssh-ed25519 AAAA"), "ssh-ed25519 AAAA");
}

#[test]
fn settings_read_as_on() {
    for v in ["1", "true", "TRUE", "Yes", "on", "oN"] {
        assert!(matches_ignore_case(v), "{v}");
    }
    for v in ["0", "false", "", "yes please", "enabled"] {
        assert!(!matches_ignore_case(v), "{v}");
    }
}

#[test]
fn linux_cloud_init_with_password_and_key() {
    let keys = vec!["ssh-ed25519 AAA \"x\"".to_string()];
    let s = build_cloud_init_user_data("vm1", "ubuntu", Some("pw"), &keys, GuestOs::LinuxDisk);
    assert_eq!(
        s,
        "#cloud-config\nhostname: vm1\nssh_pwauth: true\nusers:\n  - name: ubuntu\n    sudo: ALL=(ALL) NOPASSWD:ALL\n    shell: /bin/bash\n    lock_passwd: false\n    ssh_authorized_keys:\n      - \"ssh-ed25519 AAA \\\"x\\\"\"\nchpasswd:\n  expire: false\n  list: |\n    ubuntu:pw\n"
    );
}

#[test]
fn linux_cloud_init_without_password() {
    let s = build_cloud_init_user_data("h", "u", None, &[], GuestOs::LinuxKernel);
    assert_eq!(
        s,
        "#cloud-config\nhostname: h\nssh_pwauth: false\nusers:\n  - name: u\n    sudo: ALL=(ALL) NOPASSWD:ALL\n    shell: /bin/bash\n    lock_passwd: false\n"
    );
}

#[test]
fn windows_cloud_init_shapes() {
    let none = build_cloud_init_user_data("w", "Admin", None, &[], GuestOs::Windows);
    assert_eq!(none, "#cloud-config\nhostname: w\n");
    let keys = vec!["k1".to_string(), "k2".to_string()];
    let full = build_cloud_init_user_data("w", "Admin", Some("pw"), &keys, GuestOs::Windows);
    assert_eq!(
        full,
        "#cloud-config\nhostname: w\nusers:\n  - name: Admin\n    primary_group: Administrators\n    plain_text_passwd: \"pw\"\n    lock_passwd: false\n    ssh_authorized_keys:\n      - \"k1\"\n      - \"k2\"\n"
    );
}

fn base_req() -> QemuBootRequest {
    QemuBootRequest {
        vmm_kind: None,
        guest_os: None,
        boot_mode: None,
        disk_image_id: None,
        installer_iso_id: None,
        backend_id: None,
        kernel_path: None,
        firmware_path: None,
        nvram_template_path: None,
        enable_vnc: false,
    }
}

#[test]
fn validate_resolves_uefi_from_disk_image() {
    let req = QemuBootRequest {
        vmm_kind: Some(VmmKind::Qemu),
        disk_image_id: Some([9u8; 16]),
        ..base_req()
    };
    let (k, g, bm, vnc) = validate_and_resolve(&req).unwrap();
    assert_eq!(k, VmmKind::Qemu);
    assert_eq!(g, GuestOs::LinuxDisk);
    assert!(!vnc);
    match bm {
        BootMode::Uefi { firmware, nvram_template } => {
            assert_eq!(firmware, "/usr/share/edk2/x64/OVMF_CODE.4m.fd");
            assert_eq!(nvram_template.as_deref(), Some("/usr/share/edk2/x64/OVMF_VARS.4m.fd"));
        },
        other => panic!("expected uefi, got {:?}", other),
    }
}

#[test]
fn validate_rejects_vnc_when_unsupported() {
    let req = QemuBootRequest {
        vmm_kind: Some(VmmKind::Qemu),
        guest_os: Some(GuestOs::Other),
        enable_vnc: true,
        disk_image_id: Some([9u8; 16]),
        ..base_req()
    };
    assert!(validate_and_resolve(&req).is_ok());
    let mut bad = req.clone();
    bad.vmm_kind = Some(VmmKind::Firecracker);
    bad.guest_os = Some(GuestOs::LinuxKernel);
    let err = validate_and_resolve(&bad).unwrap_err();
    assert!(err.contains("non-qemu"));
}

#[test]
fn validate_boots_a_kernel_or_refuses() {
    let req = QemuBootRequest { kernel_path: Some("/boot/vmlinuz".to_string()), ..base_req() };
    match validate_and_resolve(&req).unwrap().2 {
        BootMode::LinuxKernel { kernel, initrd, cmdline } => {
            assert_eq!(kernel, "/boot/vmlinuz");
            assert!(initrd.is_none());
            assert_eq!(cmdline, "console=ttyS0");
        },
        other => panic!("expected kernel boot, got {other:?}"),
    }
    let empty = QemuBootRequest { kernel_path: Some(String::new()), ..base_req() };
    assert_eq!(
        validate_and_resolve(&empty).unwrap_err(),
        "qemu VM creation needs one of: boot_mode, disk_image_id, installer_iso_id, backend_id, or kernel_path"
    );
}

#[test]
fn validate_keeps_an_explicit_boot_mode() {
    let req = QemuBootRequest {
        boot_mode: Some(BootMode::Uefi { firmware: "/fw".to_string(), nvram_template: None }),
        firmware_path: Some("/ignored".to_string()),
        ..base_req()
    };
    match validate_and_resolve(&req).unwrap().2 {
        BootMode::Uefi { firmware, nvram_template } => {
            assert_eq!(firmware, "/fw");
            assert!(nvram_template.is_none());
        },
        other => panic!("expected uefi, got {other:?}"),
    }
}

#[test]
fn vm_paths_from_a_row() {
    let row = VmRowPaths {
        id: *uuid::Uuid::parse_str("018f64ba-97aa-70d9-a7d2-6459256fd111").unwrap().as_bytes(),
        api_sock: "/tmp/fc.sock".to_string(),
        log_path: "/tmp/fc.log".to_string(),
        tap: "tap-018f64ba".to_string(),
        fc_unit: "fc-x.scope".to_string(),
    };
    let p = VmPaths::from_row(&row);
    assert_eq!(p.sock, "/tmp/fc.sock");
    assert_eq!(p.metrics_path, "/srv/fc/vms/018f64ba-97aa-70d9-a7d2-6459256fd111/logs/metrics.json");
    assert!(p.snapshot_path.is_none());
    let p = p.with_snapshot("/s/snap".to_string(), "/s/mem".to_string());
    assert_eq!(p.snapshot_path.as_deref(), Some("/s/snap"));
    assert_eq!(p.mem_path.as_deref(), Some("/s/mem"));
    assert_eq!(p.tap, "tap-018f64ba");
}

#[test]
fn agent_proxy_urls() {
    let id = *uuid::Uuid::parse_str("018f64ba-97aa-70d9-a7d2-6459256fd111").unwrap().as_bytes();
    assert_eq!(
        nexus_core::provision::agent_proxy_url("http://10.0.0.5:9090", id, "machine-config", "/srv/fc/vms/x/sock/fc.sock"),
        "http://10.0.0.5:9090/agent/v1/vms/018f64ba-97aa-70d9-a7d2-6459256fd111/proxy/machine-config?sock=%2Fsrv%2Ffc%2Fvms%2Fx%2Fsock%2Ffc.sock"
    );
}
