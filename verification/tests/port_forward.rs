use nexus_core::port_forward::{applies_now, create_refusal, forward_guest_ip};

#[test]
fn forwards_need_a_known_guest_address() {
    assert_eq!(forward_guest_ip(Some("10.0.0.5")), Some("10.0.0.5".to_string()));
    assert_eq!(forward_guest_ip(Some("")), None);
    assert_eq!(forward_guest_ip(None), None);
    assert!(applies_now("running", Some("10.0.0.5")));
    assert!(!applies_now("stopped", Some("10.0.0.5")));
    assert!(!applies_now("running", Some("")));
}

#[test]
fn taken_port_is_a_conflict() {
    assert_eq!(
        create_refusal("duplicate key value violates unique constraint \"unique_host_port_protocol\"", 8080, "tcp"),
        (409, "Port 8080 (tcp) is already in use".to_string())
    );
    assert_eq!(create_refusal("connection reset", 8080, "tcp"), (500, "connection reset".to_string()));
    assert_eq!(
        create_refusal("unique_host_port_protocol", -1, "udp"),
        (409, "Port -1 (udp) is already in use".to_string())
    );
}
