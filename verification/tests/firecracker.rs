use nexus_core::firecracker::{
    firecracker_requests, limiter_plan, proxy_url, FcBody, FcDriveRow, FcNicRow, LimiterPlan, LimiterShape,
};
use nexus_core::provision::VmPaths;
use nexus_core::vm_spec::ResolvedVmSpec;

fn spec() -> ResolvedVmSpec {
    ResolvedVmSpec {
        name: "vm".into(),
        vcpu: 2,
        mem_mib: 1024,
        kernel_path: "/srv/images/vmlinux".into(),
        rootfs_path: "/srv/fc/vms/a/rootfs.ext4".into(),
        rootfs_size_bytes: None,
    }
}

fn paths(snapshot: bool) -> VmPaths {
    VmPaths {
        sock: "/srv/fc/vms/a/fc.sock".into(),
        log_path: "/srv/fc/vms/a/logs/fc.log".into(),
        metrics_path: "/srv/fc/vms/a/logs/metrics.json".into(),
        tap: "tap-abcd".into(),
        fc_unit: "fc-a.scope".into(),
        snapshot_path: if snapshot { Some("/snap".into()) } else { None },
        mem_path: None,
    }
}

fn keys(v: &[&str]) -> Vec<String> {
    v.iter().map(|s| s.to_string()).collect()
}

#[test]
fn flat_limiters_are_regrouped_under_bandwidth() {
    let flat = LimiterShape { is_object: true, keys: keys(&["refill_time", "size"]) };
    assert_eq!(limiter_plan(&flat), LimiterPlan::Regrouped { bandwidth_keys: keys(&["size", "refill_time"]) });
    let ready = LimiterShape { is_object: true, keys: keys(&["bandwidth"]) };
    assert_eq!(limiter_plan(&ready), LimiterPlan::AsRecorded);
    let ops = LimiterShape { is_object: true, keys: keys(&["ops", "size"]) };
    assert_eq!(limiter_plan(&ops), LimiterPlan::AsRecorded);
    let other = LimiterShape { is_object: true, keys: keys(&["foo"]) };
    assert_eq!(limiter_plan(&other), LimiterPlan::AsRecorded);
    let scalar = LimiterShape { is_object: false, keys: vec![] };
    assert_eq!(limiter_plan(&scalar), LimiterPlan::AsRecorded);
}

#[test]
fn fresh_boot_configures_everything_in_order() {
    let drives = vec![FcDriveRow {
        drive_id: "data".into(),
        path_on_host: "/srv/fc/vms/a/data.img".into(),
        is_root_device: false,
        is_read_only: false,
        cache_type: Some("Writeback".into()),
        io_engine: None,
        rate_limiter: None,
    }];
    let nics = vec![
        FcNicRow { iface_id: "eth0".into(), host_dev_name: "tap-abcd".into(), guest_mac: None, rx_rate_limiter: None, tx_rate_limiter: None },
        FcNicRow {
            iface_id: "eth1".into(),
            host_dev_name: "tap-abcd-1".into(),
            guest_mac: Some("52:54:00:00:00:01".into()),
            rx_rate_limiter: Some(LimiterShape { is_object: true, keys: keys(&["size"]) }),
            tx_rate_limiter: None,
        },
    ];
    let (reqs, err) = firecracker_requests(&spec(), &paths(false), "/srv/fc/vms/a/logs/console.log", true, &drives, &nics, "/srv/images", "/srv/fc/vms");
    assert!(err.is_none());
    let order: Vec<&str> = reqs.iter().map(|r| r.path.as_str()).collect();
    assert_eq!(
        order,
        vec![
            "machine-config",
            "boot-source",
            "drives/rootfs",
            "drives/data",
            "network-interfaces/eth0",
            "network-interfaces/eth1",
            "logger",
            "serial",
            "metrics"
        ]
    );
    assert_eq!(reqs[0].body, FcBody::MachineConfig { vcpu_count: 2, mem_size_mib: 1024, smt: false });
    assert_eq!(
        reqs[1].body,
        FcBody::BootSource {
            kernel_image_path: "/srv/images/vmlinux".into(),
            boot_args: "console=ttyS0 reboot=k panic=1 pci=off init=/sbin/init".into()
        }
    );
    match &reqs[5].body {
        FcBody::NetworkInterface { rx_rate_limiter, tx_rate_limiter, .. } => {
            assert_eq!(rx_rate_limiter, &Some(LimiterPlan::Regrouped { bandwidth_keys: keys(&["size"]) }));
            assert_eq!(tx_rate_limiter, &None);
        }
        other => panic!("unexpected {other:?}"),
    }
}

#[test]
fn snapshot_restore_skips_boot_source_drives_and_serial() {
    let (reqs, err) = firecracker_requests(&spec(), &paths(true), "/c", false, &[], &[], "/srv/images", "/srv/fc/vms");
    assert!(err.is_none());
    let order: Vec<&str> = reqs.iter().map(|r| r.path.as_str()).collect();
    assert_eq!(order, vec!["machine-config", "network-interfaces/eth0", "logger"]);
}

#[test]
fn drive_outside_the_roots_stops_configuration() {
    let drives = vec![FcDriveRow {
        drive_id: "evil".into(),
        path_on_host: "/etc/shadow".into(),
        is_root_device: false,
        is_read_only: true,
        cache_type: None,
        io_engine: None,
        rate_limiter: None,
    }];
    let (reqs, err) = firecracker_requests(&spec(), &paths(false), "/c", true, &drives, &[], "/srv/images", "/srv/fc/vms");
    assert_eq!(reqs.len(), 3);
    assert_eq!(err.unwrap(), "path /etc/shadow is not within the configured image root or storage root");
}

#[test]
fn proxy_urls_carry_the_encoded_socket() {
    let id = [0x11; 16];
    assert_eq!(
        proxy_url("http://h:9090", id, "machine-config", "/srv/fc/a b.sock"),
        "http://h:9090/agent/v1/vms/11111111-1111-1111-1111-111111111111/proxy/machine-config?sock=%2Fsrv%2Ffc%2Fa%20b.sock"
    );
}
