use nexus_core::rootfs::{group_entry, passwd_entry, rewrite_shadow, split_fields, split_lines, user_in_passwd};

#[test]
fn lines_split_like_str_lines() {
    assert_eq!(split_lines("a\nb\r\n\nc"), vec!["a", "b", "", "c"]);
    assert_eq!(split_lines("a\n"), vec!["a"]);
    assert!(split_lines("").is_empty());
    assert_eq!(split_lines("x\r"), vec!["x\r"]);
}

#[test]
fn fields_split_like_str_split() {
    assert_eq!(split_fields("root:x::"), vec!["root", "x", "", ""]);
    assert_eq!(split_fields(""), vec![""]);
}

#[test]
fn shadow_line_of_the_user_is_replaced() {
    let shadow = "root:*:19000:0:99999:7:::\nalice:!:19001:0:99999:7:::\n";
    let (out, found) = rewrite_shadow(shadow, "alice", "$6$hash");
    assert!(found);
    assert_eq!(out, "root:*:19000:0:99999:7:::\nalice:$6$hash:19001:0:99999:7:::\n");
}

#[test]
fn missing_user_gets_a_new_shadow_line() {
    let (out, found) = rewrite_shadow("root:*:1:0:99999:7:::", "bob", "H");
    assert!(!found);
    assert_eq!(out, "root:*:1:0:99999:7:::\nbob:H:19000:0:99999:7:::\n");
}

#[test]
fn short_shadow_line_is_kept_and_an_entry_added() {
    let (out, found) = rewrite_shadow("bob:x:1\n", "bob", "H");
    assert!(!found);
    assert_eq!(out, "bob:x:1\nbob:H:19000:0:99999:7:::\n");
}

#[test]
fn user_prefix_must_end_at_the_colon() {
    let (out, found) = rewrite_shadow("bobby:*:1:0:99999:7:::\n", "bob", "H");
    assert!(!found);
    assert_eq!(out, "bobby:*:1:0:99999:7:::\nbob:H:19000:0:99999:7:::\n");
}

#[test]
fn passwd_lookup_and_new_entries() {
    let passwd = "root:x:0:0:root:/root:/bin/sh\ndaemon:x:1:1::/:/sbin/nologin\n";
    assert!(user_in_passwd(passwd, "root"));
    assert!(!user_in_passwd(passwd, "dae"));
    assert_eq!(passwd_entry("root"), "root:x:0:0:://root:/bin/sh\n");
    assert_eq!(passwd_entry("alice"), "alice:x:1000:1000::/home/alice:/bin/sh\n".replace("::/home", ":://home"));
    assert_eq!(group_entry("root"), None);
    assert_eq!(group_entry("alice").as_deref(), Some("alice:x:1000:\n"));
}
