use nexus_core::nic::{nic_host_dev_name, nic_iface_id};

fn names(v: &[&str]) -> Vec<String> {
    v.iter().map(|s| s.to_string()).collect()
}

#[test]
fn next_interface_follows_the_highest_index() {
    assert_eq!(nic_iface_id(None, &[]).unwrap(), "eth1");
    assert_eq!(nic_iface_id(None, &names(&["eth0", "eth3", "eth1"])).unwrap(), "eth4");
    // Names that do not read as eth<index> are skipped.
    assert_eq!(nic_iface_id(None, &names(&["eth0", "ETH9", "ethx", "eth+2"])).unwrap(), "eth3");
}

#[test]
fn requested_interface_ids_are_checked() {
    assert_eq!(nic_iface_id(Some("  ETH2 "), &names(&["eth0"])).unwrap(), "eth2");
    assert_eq!(nic_iface_id(Some("wlan0"), &[]).unwrap_err(), "interface id must start with eth");
    assert_eq!(nic_iface_id(Some("eth0"), &[]).unwrap_err(), "eth0 is reserved for the primary interface");
    assert_eq!(nic_iface_id(Some("eth"), &[]).unwrap_err(), "interface id must include an index, e.g. eth1");
    assert_eq!(nic_iface_id(Some("eth1a"), &[]).unwrap_err(), "interface id must be in the form eth<index>");
    assert_eq!(
        nic_iface_id(Some("eth2"), &names(&["eth0", "ETH2"])).unwrap_err(),
        "interface id already exists for this VM"
    );
}

#[test]
fn tap_names_are_short_and_unique() {
    let id = [0xce, 0x77, 0x12, 0x34, 0, 0, 0, 0, 0, 0, 0, 0, 0, 0, 0, 1];
    let name = nic_host_dev_name(id, "eth222", &[]).unwrap();
    assert_eq!(name, "tap-ce77-222");
    assert!(name.len() <= 15);
    assert_eq!(
        nic_host_dev_name(id, "eth1", &names(&["TAP-CE77-1"])).unwrap_err(),
        "host device already in use by another interface"
    );
}

#[test]
fn indexes_are_written_in_full() {
    assert_eq!(nic_iface_id(None, &names(&["eth4294967294"])).unwrap(), "eth4294967295");
    assert_eq!(nic_iface_id(None, &names(&["eth09"])).unwrap(), "eth10");
}
