use nexus_core::guest_net::{
    bridge_ip_from_ip_addr, guest_credentials, manager_url, neighbor_table_ips, new_neighbor_ip, next_neighbor_wait_ms,
    split_words, trim, vm_tap_name, vm_unit_name,
};

const ID: [u8; 16] = [
    0x01, 0x8f, 0x64, 0xba, 0x97, 0xaa, 0x70, 0xd9, 0xa7, 0xd2, 0x64, 0x59, 0x25, 0x6f, 0xd1, 0x11,
];

#[test]
fn bridge_address_is_the_first_inet_line() {
    let out = "4: fcbr0: <BROADCAST,MULTICAST,UP> mtu 1500\n    link/ether 02:00:00:00:00:01 brd ff:ff:ff:ff:ff:ff\n    inet 10.0.0.1/24 brd 10.0.0.255 scope global fcbr0\n    inet6 fe80::1/64 scope link\n";
    assert_eq!(bridge_ip_from_ip_addr(out).as_deref(), Some("10.0.0.1"));
    assert_eq!(bridge_ip_from_ip_addr("    inet6 fe80::1/64\n"), None);
    assert_eq!(bridge_ip_from_ip_addr(""), None);
}

#[test]
fn manager_url_prefers_the_bridge() {
    assert_eq!(manager_url(Some("10.0.0.1"), "0.0.0.0:18080"), "http://10.0.0.1:18080");
    assert_eq!(manager_url(None, "127.0.0.1:9000"), "http://127.0.0.1:9000");
    assert_eq!(manager_url(None, "localhost"), "http://localhost:18080");
}

#[test]
fn default_credentials() {
    let (u, p) = guest_credentials(ID, None, None);
    assert_eq!(u, "root");
    assert_eq!(p, "vm-018f64ba");
    let (u, p) = guest_credentials(ID, Some("alice".into()), Some("s3cret".into()));
    assert_eq!((u.as_str(), p.as_str()), ("alice", "s3cret"));
}

#[test]
fn vm_device_and_unit_names() {
    assert_eq!(vm_tap_name(ID), "tap-018f64ba");
    assert_eq!(vm_unit_name(ID), "fc-018f64ba-97aa-70d9-a7d2-6459256fd111.scope");
}

#[test]
fn trimming_and_words_follow_std() {
    for s in ["  a b\t", "", "\n", "x", " \u{2003}y\u{2003} "] {
        assert_eq!(trim(s), s.trim());
        assert_eq!(split_words(s), s.split_whitespace().collect::<Vec<_>>());
    }
}

#[test]
fn trim_knows_every_unicode_space() {
    assert_eq!(trim("\u{3000}\u{85}\t x \u{2009}\u{a0}\u{202f}"), "x");
    // A zero-width space is not whitespace to `char::is_whitespace`.
    assert_eq!(trim("\u{200b}x"), "\u{200b}x");
    assert_eq!(split_words("a\u{2028}b\u{1680}c"), vec!["a".to_string(), "b".to_string(), "c".to_string()]);
}

const BASELINE: &str = "10.0.0.2 lladdr 52:54:00:00:00:02 REACHABLE\n127.0.0.1 lladdr 00:00:00:00:00:00 PERMANENT\n\n10.0.0.3 FAILED\n";

#[test]
fn baseline_lists_every_non_loopback_address() {
    assert_eq!(neighbor_table_ips(BASELINE), vec!["10.0.0.2".to_string(), "10.0.0.3".to_string()]);
}

#[test]
fn new_guest_address_is_the_first_live_unseen_one() {
    let baseline = neighbor_table_ips(BASELINE);
    let now = "10.0.0.2 lladdr 52:54:00:00:00:02 REACHABLE\n10.0.0.9 lladdr 52:54:00:00:00:09 INCOMPLETE\n10.0.0.7 lladdr 52:54:00:00:00:07 STALE\n10.0.0.8 lladdr 52:54:00:00:00:08 REACHABLE\n";
    assert_eq!(new_neighbor_ip(now, &baseline), Some("10.0.0.7".to_string()));
    assert_eq!(new_neighbor_ip(BASELINE, &baseline), None);
}

#[test]
fn neighbor_polling_backs_off_to_three_seconds() {
    assert_eq!(next_neighbor_wait_ms(100), 200);
    assert_eq!(next_neighbor_wait_ms(1600), 3000);
    assert_eq!(next_neighbor_wait_ms(3000), 3000);
}
