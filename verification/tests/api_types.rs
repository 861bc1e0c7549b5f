use nexus_core::api_types::{
    default_memory, default_restart_policy, default_timeout, default_vcpu, AuditAction, OkResponse, Role,
    TemplateSpec, UserPreferences,
};

#[test]
fn request_defaults() {
    assert_eq!(default_timeout(), 30);
    assert_eq!(default_memory(), 128);
    assert_eq!(default_vcpu(), 1);
    assert_eq!(default_restart_policy(), "no");
}

#[test]
fn roles_parse_without_regard_to_case() {
    assert_eq!(Role::parse("ADMIN").unwrap(), Role::Admin);
    assert_eq!(Role::parse("user").unwrap(), Role::User);
    assert_eq!(Role::parse("Viewer").unwrap(), Role::Viewer);
    assert_eq!(Role::parse("root").unwrap_err(), "Invalid role: root");
    for r in [Role::Admin, Role::User, Role::Viewer] {
        assert_eq!(Role::parse(r.as_str()).unwrap(), r);
    }
}

#[test]
fn audit_action_names() {
    assert_eq!(AuditAction::Login.as_str(), "login");
    assert_eq!(AuditAction::LoginFailed.as_str(), "login_failed");
    assert_eq!(AuditAction::DeleteVm.as_str(), "delete_vm");
}

#[test]
fn empty_preferences() {
    let p = UserPreferences::default();
    assert!(p.timezone.is_none());
    assert!(!p.notifications.email);
    assert_eq!(p.vm_defaults.vcpu, 0);
}

#[test]
fn ok_response_defaults_to_ok() {
    assert!(OkResponse::default().ok);
}

#[test]
fn template_becomes_a_bare_request() {
    let t = TemplateSpec {
        vcpu: 2,
        mem_mib: 512,
        kernel_image_id: Some([1u8; 16]),
        rootfs_image_id: None,
        kernel_path: None,
        rootfs_path: Some("/srv/images/rootfs".to_string()),
    };
    let r = t.into_vm_req("web".to_string());
    assert_eq!(r.name, "web");
    assert_eq!((r.vcpu, r.mem_mib), (2, 512));
    assert_eq!(r.kernel_image_id, Some([1u8; 16]));
    assert_eq!(r.rootfs_path.as_deref(), Some("/srv/images/rootfs"));
    assert!(r.source_snapshot_id.is_none() && r.username.is_none() && r.password.is_none() && r.tags.is_empty());
}

#[test]
fn roles_parse_through_from_str() {
    assert_eq!("Admin".parse::<Role>().unwrap(), Role::Admin);
    assert_eq!("nobody".parse::<Role>().unwrap_err(), "Invalid role: nobody");
}

#[test]
fn role_names_parse_back_in_any_case() {
    for r in [Role::Admin, Role::User, Role::Viewer] {
        assert_eq!(Role::parse(r.as_str()).unwrap(), r);
        assert_eq!(Role::parse(&r.as_str().to_uppercase()).unwrap(), r);
    }
}
