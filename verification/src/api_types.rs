//! Request and response records of the management API, user roles and the
//! names of audited actions.

use vstd::prelude::*;
use crate::provision::ascii_lower;
use crate::text::{owned, str_eq};

verus! {

/// A bare acknowledgement.
#[derive(Debug, Clone, PartialEq, Eq, Structural)]
pub struct OkResponse {
    pub ok: bool,
}

impl Default for OkResponse {
    fn default() -> (r: Self)
        ensures
            r.ok,
    {
        OkResponse { ok: true }
    }
}

#[derive(Debug, Clone)]
pub struct MachineConfigPatchReq {
    pub vcpu_count: Option<u8>,
    pub mem_size_mib: Option<u32>,
    pub smt: Option<bool>,
    pub track_dirty_pages: Option<bool>,
    pub cpu_template: Option<String>,
    pub huge_pages: Option<String>,
}

#[derive(Debug, Clone)]
pub struct MmdsConfigReq {
    pub version: Option<String>,
    pub network_interfaces: Option<Vec<String>>,
    pub ipv4_address: Option<String>,
    pub imds_compat: Option<bool>,
}

#[derive(Debug, Clone)]
pub struct VsockConfigReq {
    pub guest_cid: u32,
    pub uds_path: String,
    pub vsock_id: Option<String>,
}

#[derive(Debug, Clone)]
pub struct SerialConfigReq {
    pub output_path: Option<String>,
}

#[derive(Debug, Clone)]
pub struct LoggerUpdateReq {
    pub log_path: Option<String>,
    pub level: Option<String>,
    pub show_level: Option<bool>,
    pub show_log_origin: Option<bool>,
    pub module: Option<String>,
}

#[derive(Debug, Clone)]
pub struct InstantiateTemplateReq {
    pub name: String,
}

#[derive(Debug, Clone)]
pub struct InstantiateSnapshotReq {
    pub name: Option<String>,
}

#[derive(Debug, Clone)]
pub struct CreateImageReq {
    pub kind: String,
    pub name: String,
    pub host_path: String,
    pub sha256: String,
    pub size: i64,
    pub project: Option<String>,
}

#[derive(Debug, Clone)]
pub struct ImageFilter {
    pub kind: Option<String>,
    pub project: Option<String>,
    pub name: Option<String>,
}

#[derive(Debug, Clone)]
pub struct DockerHubSearchReq {
    pub query: String,
    pub limit: Option<i32>,
}

#[derive(Debug, Clone)]
pub struct DockerHubImage {
    pub name: String,
    pub description: Option<String>,
    pub star_count: i32,
    pub is_official: bool,
    pub is_automated: bool,
    pub pull_count: i64,
}

#[derive(Debug, Clone)]
pub struct DockerHubSearchResp {
    pub items: Vec<DockerHubImage>,
}

#[derive(Debug, Clone)]
pub struct DockerImageTag {
    pub name: String,
    pub last_updated: Option<String>,
    pub digest: Option<String>,
    pub size: Option<i64>,
}

#[derive(Debug, Clone)]
pub struct DockerImageTagsResp {
    pub items: Vec<DockerImageTag>,
}

#[derive(Debug, Clone)]
pub struct RegistryAuth {
    pub username: String,
    pub password: String,
    pub server_address: Option<String>,
}

#[derive(Debug, Clone)]
pub struct DownloadDockerImageReq {
    pub image: String,
    pub registry_auth: Option<RegistryAuth>,
}

#[derive(Debug, Clone)]
pub struct TailLogResponse {
    pub text: String,
}

#[derive(Debug, Clone)]
pub struct BalloonConfig {
    pub amount_mib: u64,
    pub deflate_on_oom: bool,
    pub stats_polling_interval_s: Option<u64>,
}

#[derive(Debug, Clone)]
pub struct BalloonStatsConfig {
    pub stats_polling_interval_s: Option<u64>,
}

#[derive(Debug, Clone)]
pub struct ListInvocationsParams {
    pub status: Option<String>,
    pub limit: Option<i64>,
}

#[derive(Debug, Clone)]
pub struct PortMapping {
    pub host: i32,
    pub container: i32,
    pub protocol: String,
}

#[derive(Debug, Clone)]
pub struct VolumeMount {
    pub host: String,
    pub container: String,
    pub read_only: bool,
}

#[derive(Debug, Clone)]
pub struct ContainerLogsParams {
    pub since: Option<String>,
    pub until: Option<String>,
    pub tail: Option<i64>,
    pub follow: Option<bool>,
}

#[derive(Debug, Clone)]
pub struct ExecCommandReq {
    pub command: Vec<String>,
    pub attach_stdin: bool,
    pub attach_stdout: bool,
    pub attach_stderr: bool,
    pub tty: bool,
}

#[derive(Debug, Clone)]
pub struct ExecCommandResp {
    pub exec_id: String,
    pub output: Option<String>,
    pub exit_code: Option<i32>,
}

/// Seconds a function may run when the request names no limit.
pub fn default_timeout() -> (t: i32)
    ensures
        t == 30,
{
    30
}

/// Memory, in MB, a function gets when the request names none.
pub fn default_memory() -> (m: i32)
    ensures
        m == 128,
{
    128
}

/// vCPUs a function gets when the request names none.
pub fn default_vcpu() -> (v: i32)
    ensures
        v == 1,
{
    1
}

/// The restart policy a container gets when the request names none.
pub fn default_restart_policy() -> (p: String)
    ensures
        p@ == "no"@,
{
    owned("no")
}

/// A user's role for access control.
#[derive(Debug, Clone, Copy, PartialEq, Eq, Structural)]
pub enum Role {
    Admin,
    User,
    Viewer,
}

/// The name a role is stored and shown under.
pub open spec fn role_name(r: Role) -> Seq<char> {
    match r {
        Role::Admin => "admin"@,
        Role::User => "user"@,
        Role::Viewer => "viewer"@,
    }
}

/// The role a lowercased name denotes, if any.
pub open spec fn role_named(lower: Seq<char>) -> Option<Role> {
    if lower == "admin"@ {
        Some(Role::Admin)
    } else if lower == "user"@ {
        Some(Role::User)
    } else if lower == "viewer"@ {
        Some(Role::Viewer)
    } else {
        None
    }
}

/// What `str::to_lowercase` makes of a string.
pub uninterp spec fn lowercase_of(s: Seq<char>) -> Seq<char>;

/// Whether every character of `s` is ASCII.
pub open spec fn ascii_text(s: Seq<char>) -> bool {
    forall|i: int| 0 <= i < s.len() ==> (#[trigger] s[i] as u32) < 128
}

/// Calls `str::to_lowercase`; the result is named `lowercase_of`. Lowercase
/// is Unicode's lowercase mapping, which on ASCII text maps `A`..`Z` to
/// `a`..`z` and leaves every other character as it is.
#[verifier::external_body]
pub(crate) fn to_lowercase(s: &str) -> (l: String)
    ensures
        l@ == lowercase_of(s@),
        ascii_text(s@) ==> l@ == s@.map_values(|c: char| ascii_lower(c)),
{
    s.to_lowercase()
}

impl Role {
    pub fn as_str(&self) -> (s: &'static str)
        ensures
            s@ == role_name(*self),
    {
        match self {
            Role::Admin => "admin",
            Role::User => "user",
            Role::Viewer => "viewer",
        }
    }

    /// The role named by an already-lowercased string; the error message names the input.
    pub fn from_lowercase(lower: &str, input: &str) -> (r: Result<Role, String>)
        ensures
            r matches Ok(role) ==> role_named(lower@) == Some(role),
            r matches Err(m) ==> role_named(lower@) is None && m@ == "Invalid role: "@ + input@,
            role_named(lower@) is Some ==> r is Ok,
    {
        if str_eq(lower, "admin") {
            Ok(Role::Admin)
        } else if str_eq(lower, "user") {
            Ok(Role::User)
        } else if str_eq(lower, "viewer") {
            Ok(Role::Viewer)
        } else {
            let mut m = owned("Invalid role: ");
            crate::text::push_str(&mut m, input);
            Err(m)
        }
    }

    /// The role a name denotes, ignoring case.
    pub fn parse(s: &str) -> (r: Result<Role, String>)
        ensures
            r matches Ok(role) ==> role_named(lowercase_of(s@)) == Some(role),
            r matches Err(m) ==> role_named(lowercase_of(s@)) is None && m@ == "Invalid role: "@ + s@,
            role_named(lowercase_of(s@)) is Some ==> r is Ok,
            ascii_text(s@) ==> match r {
                Ok(role) => role_named(s@.map_values(|c: char| ascii_lower(c))) == Some(role),
                Err(_) => role_named(s@.map_values(|c: char| ascii_lower(c))) is None,
            },
    {
        let lower = to_lowercase(s);
        Role::from_lowercase(lower.as_str(), s)
    }
}

impl std::str::FromStr for Role {
    type Err = String;

    /// The role a name denotes, ignoring case; see `Role::parse`.
    fn from_str(s: &str) -> (r: Result<Role, String>)
        ensures
            r matches Ok(role) ==> role_named(lowercase_of(s@)) == Some(role),
            r matches Err(m) ==> role_named(lowercase_of(s@)) is None && m@ == "Invalid role: "@ + s@,
            role_named(lowercase_of(s@)) is Some ==> r is Ok,
            ascii_text(s@) ==> match r {
                Ok(role) => role_named(s@.map_values(|c: char| ascii_lower(c))) == Some(role),
                Err(_) => role_named(s@.map_values(|c: char| ascii_lower(c))) is None,
            },
    {
        Role::parse(s)
    }
}

/// Parsing a role's own name gives the role back: the name is ASCII and
/// already lowercase, so `Role::parse` on it returns the role.
pub proof fn role_round_trip(r: Role)
    ensures
        role_named(role_name(r)) == Some(r),
        ascii_text(role_name(r)),
        role_named(role_name(r).map_values(|c: char| ascii_lower(c))) == Some(r),
{
    reveal_strlit("admin");
    reveal_strlit("user");
    reveal_strlit("viewer");
    assert("admin"@.len() == 5 && "user"@.len() == 4 && "viewer"@.len() == 6);
    assert(role_name(r).map_values(|c: char| ascii_lower(c)) =~= role_name(r));
}

/// An action recorded in the audit log.
#[derive(Debug, Clone, Copy, PartialEq, Eq, Structural)]
pub enum AuditAction {
    Login,
    Logout,
    LoginFailed,
    CreateUser,
    UpdateUser,
    DeleteUser,
    CreateVm,
    StartVm,
    StopVm,
    PauseVm,
    ResumeVm,
    DeleteVm,
    UpdateVm,
    CreateVmSnapshot,
    RestoreVmSnapshot,
    CreateFunction,
    InvokeFunction,
    UpdateFunction,
    DeleteFunction,
    CreateContainer,
    StartContainer,
    StopContainer,
    DeleteContainer,
    CreateNetwork,
    UpdateNetwork,
    DeleteNetwork,
    CreateNic,
    DeleteNic,
    CreateVolume,
    AttachVolume,
    DetachVolume,
    DeleteVolume,
}

/// The name an audited action is recorded under.
pub open spec fn audit_action_name(a: AuditAction) -> Seq<char> {
    match a {
        AuditAction::Login => "login"@,
        AuditAction::Logout => "logout"@,
        AuditAction::LoginFailed => "login_failed"@,
        AuditAction::CreateUser => "create_user"@,
        AuditAction::UpdateUser => "update_user"@,
        AuditAction::DeleteUser => "delete_user"@,
        AuditAction::CreateVm => "create_vm"@,
        AuditAction::StartVm => "start_vm"@,
        AuditAction::StopVm => "stop_vm"@,
        AuditAction::PauseVm => "pause_vm"@,
        AuditAction::ResumeVm => "resume_vm"@,
        AuditAction::DeleteVm => "delete_vm"@,
        AuditAction::UpdateVm => "update_vm"@,
        AuditAction::CreateVmSnapshot => "create_vm_snapshot"@,
        AuditAction::RestoreVmSnapshot => "restore_vm_snapshot"@,
        AuditAction::CreateFunction => "create_function"@,
        AuditAction::InvokeFunction => "invoke_function"@,
        AuditAction::UpdateFunction => "update_function"@,
        AuditAction::DeleteFunction => "delete_function"@,
        AuditAction::CreateContainer => "create_container"@,
        AuditAction::StartContainer => "start_container"@,
        AuditAction::StopContainer => "stop_container"@,
        AuditAction::DeleteContainer => "delete_container"@,
        AuditAction::CreateNetwork => "create_network"@,
        AuditAction::UpdateNetwork => "update_network"@,
        AuditAction::DeleteNetwork => "delete_network"@,
        AuditAction::CreateNic => "create_nic"@,
        AuditAction::DeleteNic => "delete_nic"@,
        AuditAction::CreateVolume => "create_volume"@,
        AuditAction::AttachVolume => "attach_volume"@,
        AuditAction::DetachVolume => "detach_volume"@,
        AuditAction::DeleteVolume => "delete_volume"@,
    }
}

impl AuditAction {
    pub fn as_str(&self) -> (s: &'static str)
        ensures
            s@ == audit_action_name(*self),
    {
        match self {
            AuditAction::Login => "login",
            AuditAction::Logout => "logout",
            AuditAction::LoginFailed => "login_failed",
            AuditAction::CreateUser => "create_user",
            AuditAction::UpdateUser => "update_user",
            AuditAction::DeleteUser => "delete_user",
            AuditAction::CreateVm => "create_vm",
            AuditAction::StartVm => "start_vm",
            AuditAction::StopVm => "stop_vm",
            AuditAction::PauseVm => "pause_vm",
            AuditAction::ResumeVm => "resume_vm",
            AuditAction::DeleteVm => "delete_vm",
            AuditAction::UpdateVm => "update_vm",
            AuditAction::CreateVmSnapshot => "create_vm_snapshot",
            AuditAction::RestoreVmSnapshot => "restore_vm_snapshot",
            AuditAction::CreateFunction => "create_function",
            AuditAction::InvokeFunction => "invoke_function",
            AuditAction::UpdateFunction => "update_function",
            AuditAction::DeleteFunction => "delete_function",
            AuditAction::CreateContainer => "create_container",
            AuditAction::StartContainer => "start_container",
            AuditAction::StopContainer => "stop_container",
            AuditAction::DeleteContainer => "delete_container",
            AuditAction::CreateNetwork => "create_network",
            AuditAction::UpdateNetwork => "update_network",
            AuditAction::DeleteNetwork => "delete_network",
            AuditAction::CreateNic => "create_nic",
            AuditAction::DeleteNic => "delete_nic",
            AuditAction::CreateVolume => "create_volume",
            AuditAction::AttachVolume => "attach_volume",
            AuditAction::DetachVolume => "detach_volume",
            AuditAction::DeleteVolume => "delete_volume",
        }
    }
}

#[derive(Debug, Clone)]
pub struct LoginRequest {
    pub username: String,
    pub password: String,
}

#[derive(Debug, Clone)]
pub struct CreateUserRequest {
    pub username: String,
    pub password: String,
    pub role: Role,
}

#[derive(Debug, Clone)]
pub struct UpdateUserRequest {
    pub username: Option<String>,
    pub password: Option<String>,
    pub role: Option<Role>,
}

#[derive(Debug, Clone, Copy, PartialEq, Eq, Structural)]
pub struct NotificationPreferences {
    pub email: bool,
    pub browser: bool,
    pub desktop: bool,
}

impl Default for NotificationPreferences {
    fn default() -> (p: Self)
        ensures
            !p.email && !p.browser && !p.desktop,
    {
        NotificationPreferences { email: false, browser: false, desktop: false }
    }
}

#[derive(Debug, Clone, Copy, PartialEq, Eq, Structural)]
pub struct VmDefaults {
    pub vcpu: u8,
    pub mem_mib: u32,
    pub disk_gb: u32,
}

impl Default for VmDefaults {
    fn default() -> (d: Self)
        ensures
            d.vcpu == 0 && d.mem_mib == 0 && d.disk_gb == 0,
    {
        VmDefaults { vcpu: 0, mem_mib: 0, disk_gb: 0 }
    }
}

#[derive(Debug, Clone)]
pub struct UserPreferences {
    pub timezone: Option<String>,
    pub theme: Option<String>,
    pub date_format: Option<String>,
    pub notifications: NotificationPreferences,
    pub vm_defaults: VmDefaults,
    pub auto_refresh: Option<u32>,
    pub metrics_retention: Option<u32>,
}

impl Default for UserPreferences {
    fn default() -> (p: Self)
        ensures
            p.timezone is None && p.theme is None && p.date_format is None && !p.notifications.email
                && !p.notifications.browser && !p.notifications.desktop && p.vm_defaults.vcpu == 0
                && p.vm_defaults.mem_mib == 0 && p.vm_defaults.disk_gb == 0 && p.auto_refresh is None
                && p.metrics_retention is None,
    {
        UserPreferences {
            timezone: None,
            theme: None,
            date_format: None,
            notifications: NotificationPreferences::default(),
            vm_defaults: VmDefaults::default(),
            auto_refresh: None,
            metrics_retention: None,
        }
    }
}

#[derive(Debug, Clone)]
pub struct GetPreferencesResponse {
    pub preferences: UserPreferences,
}

#[derive(Debug, Clone)]
pub struct UpdatePreferencesRequest {
    pub timezone: Option<String>,
    pub theme: Option<String>,
    pub date_format: Option<String>,
    pub notifications: Option<NotificationPreferences>,
    pub vm_defaults: Option<VmDefaults>,
    pub auto_refresh: Option<u32>,
    pub metrics_retention: Option<u32>,
}

#[derive(Debug, Clone)]
pub struct UpdateProfileRequest {
    pub username: Option<String>,
}

#[derive(Debug, Clone)]
pub struct ChangePasswordRequest {
    pub current_password: String,
    pub new_password: String,
}

/// A request to create a VM; ids are the 16 bytes of UUIDs.
#[derive(Debug, Clone)]
pub struct CreateVmReq {
    pub name: String,
    pub vcpu: u8,
    pub mem_mib: u32,
    pub kernel_image_id: Option<[u8; 16]>,
    pub rootfs_image_id: Option<[u8; 16]>,
    pub kernel_path: Option<String>,
    pub rootfs_path: Option<String>,
    pub source_snapshot_id: Option<[u8; 16]>,
    pub username: Option<String>,
    pub password: Option<String>,
    pub tags: Vec<String>,
}

/// The machine a template describes; ids are the 16 bytes of UUIDs.
#[derive(Debug, Clone)]
pub struct TemplateSpec {
    pub vcpu: u8,
    pub mem_mib: u32,
    pub kernel_image_id: Option<[u8; 16]>,
    pub rootfs_image_id: Option<[u8; 16]>,
    pub kernel_path: Option<String>,
    pub rootfs_path: Option<String>,
}

impl TemplateSpec {
    /// The request that creates a VM named `name` from this template: the
    /// template's machine, no snapshot, no credentials and no tags.
    pub fn into_vm_req(self, name: String) -> (r: CreateVmReq)
        ensures
            r.name == name,
            r.vcpu == self.vcpu,
            r.mem_mib == self.mem_mib,
            r.kernel_image_id == self.kernel_image_id,
            r.rootfs_image_id == self.rootfs_image_id,
            r.kernel_path == self.kernel_path,
            r.rootfs_path == self.rootfs_path,
            r.source_snapshot_id is None,
            r.username is None,
            r.password is None,
            r.tags@.len() == 0,
    {
        CreateVmReq {
            name,
            vcpu: self.vcpu,
            mem_mib: self.mem_mib,
            kernel_image_id: self.kernel_image_id,
            rootfs_image_id: self.rootfs_image_id,
            kernel_path: self.kernel_path,
            rootfs_path: self.rootfs_path,
            source_snapshot_id: None,
            username: None,
            password: None,
            tags: Vec::new(),
        }
    }
}

} // verus!
