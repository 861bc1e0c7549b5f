use nexus_core::ipalloc::{allocate_ip_from_cidr, parse_u8_text, split_at_char};

#[test]
fn first_free_address_from_two() {
    assert_eq!(allocate_ip_from_cidr("10.9.0.0/24", &[]).unwrap(), "10.9.0.2/24");
    let taken = vec!["10.9.0.2/24".to_string(), "10.9.0.3".to_string()];
    assert_eq!(allocate_ip_from_cidr("10.9.0.0/24", &taken).unwrap(), "10.9.0.4/24");
}

#[test]
fn full_network_is_reported() {
    let taken: Vec<String> = (2..=254).map(|k| format!("192.168.1.{k}/24")).collect();
    assert_eq!(allocate_ip_from_cidr("192.168.1.0/24", &taken).unwrap_err(), "No available IPs in network 192.168.1.0/24");
}

#[test]
fn malformed_blocks_are_refused() {
    assert_eq!(allocate_ip_from_cidr("10.0.0.0", &[]).unwrap_err(), "Invalid CIDR format: 10.0.0.0");
    assert_eq!(allocate_ip_from_cidr("10.0.0/24", &[]).unwrap_err(), "Invalid IP address in CIDR: 10.0.0");
    assert_eq!(allocate_ip_from_cidr("10.0.300.0/24", &[]).unwrap_err(), "number too large to fit in target type");
    assert_eq!(allocate_ip_from_cidr("10.x.0.0/24", &[]).unwrap_err(), "invalid digit found in string");
    assert_eq!(allocate_ip_from_cidr("10..0.0/24", &[]).unwrap_err(), "cannot parse integer from empty string");
}

#[test]
fn octets_parse_like_std() {
    for s in ["0", "255", "+7", "007", "-", "+", "", "256", "1a", "-1"] {
        let ours = parse_u8_text(s).map_err(|e| e);
        let std_ = s.parse::<u8>().map_err(|e| e.to_string());
        assert_eq!(ours, std_, "{s:?}");
    }
}

#[test]
fn split_keeps_empty_pieces() {
    assert_eq!(split_at_char("a//b", '/'), vec!["a", "", "b"]);
}
