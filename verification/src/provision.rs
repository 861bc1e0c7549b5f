//! Pure rules the manager applies when it provisions a guest: disk format
//! guessing, cloud-init user data, MAC addresses, boot-mode resolution and
//! the paths a VM's files live at.

use vstd::prelude::*;
use vstd::string::StrSliceExecFns;
use crate::api_types::{ascii_text, lowercase_of, to_lowercase};
use crate::backup::{uuid_hyphenated, uuid_text};
use crate::cli::{encode_utf8_of, percent_encoded, url_encode};
use crate::storage::hex_digit;
use crate::vmm::{BootMode, GuestOs, VmmKind, features, feature_matrix, no_features, guest_os_name, vmm_kind_name};
use crate::text::{ends_with, has_suffix, owned, push_char, push_str, str_eq};

verus! {

/// The characters `yaml_escape` writes for one character.
pub open spec fn yaml_escape_char(c: char) -> Seq<char> {
    if c == '\\' {
        seq!['\\', '\\']
    } else if c == '"' {
        seq!['\\', '"']
    } else {
        seq![c]
    }
}

/// `s` with every backslash doubled and every double quote preceded by a backslash.
pub open spec fn yaml_escaped(s: Seq<char>) -> Seq<char>
    decreases s.len(),
{
    if s.len() == 0 {
        Seq::empty()
    } else {
        yaml_escaped(s.drop_last()) + yaml_escape_char(s.last())
    }
}

/// Escapes backslashes and double quotes so that `s` can stand inside a
/// double-quoted YAML scalar.
pub fn yaml_escape(s: &str) -> (e: String)
    ensures
        e@ == yaml_escaped(s@),
{
    let n = s.unicode_len();
    let mut e = String::new();
    let mut i: usize = 0;
    while i < n
        invariant
            0 <= i <= n,
            n == s@.len(),
            e@ == yaml_escaped(s@.subrange(0, i as int)),
        decreases n - i,
    {
        let c = s.get_char(i);
        if c == '\\' {
            push_char(&mut e, '\\');
            push_char(&mut e, '\\');
        } else if c == '"' {
            push_char(&mut e, '\\');
            push_char(&mut e, '"');
        } else {
            push_char(&mut e, c);
        }
        assert(s@.subrange(0, i + 1).drop_last() =~= s@.subrange(0, i as int));
        assert(e@ =~= yaml_escaped(s@.subrange(0, i + 1)));
        i = i + 1;
    }
    assert(s@.subrange(0, n as int) =~= s@);
    e
}

/// The disk format guessed from an already lowercased path: `.qcow2`,
/// `.qcow` and `.img` mean qcow2, `.vmdk` and `.vdi` name themselves,
/// anything else is raw.
pub open spec fn disk_format_for(lower: Seq<char>) -> Seq<char> {
    if has_suffix(lower, ".qcow2"@) || has_suffix(lower, ".qcow"@) {
        "qcow2"@
    } else if has_suffix(lower, ".vmdk"@) {
        "vmdk"@
    } else if has_suffix(lower, ".vdi"@) {
        "vdi"@
    } else if has_suffix(lower, ".img"@) {
        "qcow2"@
    } else {
        "raw"@
    }
}

/// Guesses the disk format of an already lowercased path.
pub fn disk_format_of_lowercase(lower: &str) -> (f: String)
    ensures
        f@ == disk_format_for(lower@),
{
    if ends_with(lower, ".qcow2") || ends_with(lower, ".qcow") {
        owned("qcow2")
    } else if ends_with(lower, ".vmdk") {
        owned("vmdk")
    } else if ends_with(lower, ".vdi") {
        owned("vdi")
    } else if ends_with(lower, ".img") {
        owned("qcow2")
    } else {
        owned("raw")
    }
}

/// Guesses a disk image's format from the extension of its path, compared
/// without regard to case.
pub fn detect_disk_format(path: &str) -> (f: String)
    ensures
        f@ == disk_format_for(lowercase_of(path@)),
        ascii_text(path@) ==> f@ == disk_format_for(path@.map_values(|c: char| ascii_lower(c))),
{
    let lower = to_lowercase(path);
    disk_format_of_lowercase(lower.as_str())
}

/// `c` with ASCII uppercase letters mapped to lowercase.
pub open spec fn ascii_lower(c: char) -> char {
    if 'A' <= c <= 'Z' {
        ((c as u32) + 32) as char
    } else {
        c
    }
}

/// Lowercases the ASCII letters of `s`.
pub fn ascii_lowercase(s: &str) -> (l: String)
    ensures
        l@ == s@.map_values(|c: char| ascii_lower(c)),
{
    let n = s.unicode_len();
    let mut l = String::new();
    let mut i: usize = 0;
    while i < n
        invariant
            0 <= i <= n,
            n == s@.len(),
            l@ == s@.subrange(0, i as int).map_values(|c: char| ascii_lower(c)),
        decreases n - i,
    {
        let c = s.get_char(i);
        let d = if 'A' <= c && c <= 'Z' {
            (((c as u32) + 32) as u8) as char
        } else {
            c
        };
        push_char(&mut l, d);
        assert(l@ =~= s@.subrange(0, i + 1).map_values(|c: char| ascii_lower(c)));
        i = i + 1;
    }
    assert(s@.subrange(0, n as int) =~= s@);
    l
}

/// Whether a setting's value reads as "on": `1`, `true`, `yes` or `on`,
/// with ASCII letters compared without regard to case.
pub fn matches_ignore_case(value: &str) -> (b: bool)
    ensures
        b <==> {
            let l = value@.map_values(|c: char| ascii_lower(c));
            l == "1"@ || l == "true"@ || l == "yes"@ || l == "on"@
        },
{
    let l = ascii_lowercase(value);
    str_eq(l.as_str(), "1") || str_eq(l.as_str(), "true") || str_eq(l.as_str(), "yes") || str_eq(l.as_str(), "on")
}

/// The lowercase hexadecimal digit of `d < 16`.
fn hex_char(d: u8) -> (c: char)
    requires
        d < 16,
    ensures
        c == hex_digit(d),
{
    if d < 10 {
        (48u8 + d) as char
    } else {
        (97u8 + d - 10) as char
    }
}

/// Appends the two lowercase hexadecimal digits of `b`.
pub(crate) fn push_hex_byte(s: &mut String, b: u8)
    ensures
        final(s)@ == old(s)@ + seq![hex_digit(b / 16), hex_digit(b % 16)],
{
    push_char(s, hex_char(b / 16));
    push_char(s, hex_char(b % 16));
}

/// `52:54:00:` (the QEMU OUI) followed by three bytes in lowercase hexadecimal.
pub open spec fn mac_text(b0: u8, b1: u8, b2: u8) -> Seq<char> {
    "52:54:00:"@ + seq![hex_digit(b0 / 16), hex_digit(b0 % 16), ':', hex_digit(b1 / 16), hex_digit(b1 % 16), ':',
        hex_digit(b2 / 16), hex_digit(b2 % 16)]
}

fn mac_from(b0: u8, b1: u8, b2: u8) -> (m: String)
    ensures
        m@ == mac_text(b0, b1, b2),
{
    let mut m = owned("52:54:00:");
    push_hex_byte(&mut m, b0);
    push_char(&mut m, ':');
    push_hex_byte(&mut m, b1);
    push_char(&mut m, ':');
    push_hex_byte(&mut m, b2);
    assert(m@ =~= mac_text(b0, b1, b2));
    m
}

/// The MAC address of a VM's first NIC: the QEMU OUI and the last three
/// bytes of the VM's id, so that it is the same on every boot.
pub fn generate_mac(id: [u8; 16]) -> (m: String)
    ensures
        m@ == mac_text(id@[13], id@[14], id@[15]),
{
    mac_from(id[13], id[14], id[15])
}

/// The MAC address of extra NIC `nic_index`: as the first NIC's, with
/// `nic_index + 1` XORed into the last byte.
pub fn generate_extra_mac(id: [u8; 16], nic_index: u8) -> (m: String)
    requires
        nic_index < 255,
    ensures
        m@ == mac_text(id@[13], id@[14], id@[15] ^ ((nic_index + 1) as u8)),
{
    mac_from(id[13], id[14], id[15] ^ (nic_index + 1))
}

/// What the paths of a VM are computed from: its id and the paths recorded for it.
#[derive(Debug, Clone)]
pub struct VmRowPaths {
    pub id: [u8; 16],
    pub api_sock: String,
    pub log_path: String,
    pub tap: String,
    pub fc_unit: String,
}

/// The files, interface and unit of a running VM.
#[derive(Debug, Clone)]
pub struct VmPaths {
    pub sock: String,
    pub log_path: String,
    pub metrics_path: String,
    pub tap: String,
    pub fc_unit: String,
    pub snapshot_path: Option<String>,
    pub mem_path: Option<String>,
}

/// Where the metrics of VM `id` are written.
pub open spec fn metrics_path_text(id: Seq<u8>) -> Seq<char> {
    "/srv/fc/vms/"@ + uuid_text(id) + "/logs/metrics.json"@
}

impl VmPaths {
    /// The paths recorded for a VM, its metrics file, and no snapshot.
    pub fn from_row(vm: &VmRowPaths) -> (p: Self)
        ensures
            p.sock@ == vm.api_sock@,
            p.log_path@ == vm.log_path@,
            p.metrics_path@ == metrics_path_text(vm.id@),
            p.tap@ == vm.tap@,
            p.fc_unit@ == vm.fc_unit@,
            p.snapshot_path is None,
            p.mem_path is None,
    {
        let mut metrics = owned("/srv/fc/vms/");
        let id = uuid_hyphenated(vm.id);
        push_str(&mut metrics, id.as_str());
        push_str(&mut metrics, "/logs/metrics.json");
        VmPaths {
            sock: owned(vm.api_sock.as_str()),
            log_path: owned(vm.log_path.as_str()),
            metrics_path: metrics,
            tap: owned(vm.tap.as_str()),
            fc_unit: owned(vm.fc_unit.as_str()),
            snapshot_path: None,
            mem_path: None,
        }
    }

    /// The same paths with a snapshot and its memory file.
    pub fn with_snapshot(self, snapshot_path: String, mem_path: String) -> (p: Self)
        ensures
            p.sock == self.sock,
            p.log_path == self.log_path,
            p.metrics_path == self.metrics_path,
            p.tap == self.tap,
            p.fc_unit == self.fc_unit,
            p.snapshot_path == Some(snapshot_path),
            p.mem_path == Some(mem_path),
    {
        VmPaths { snapshot_path: Some(snapshot_path), mem_path: Some(mem_path), ..self }
    }
}

/// One quoted, escaped line per SSH key.
pub open spec fn key_lines(keys: Seq<Seq<char>>) -> Seq<char>
    decreases keys.len(),
{
    if keys.len() == 0 {
        Seq::empty()
    } else {
        key_lines(keys.drop_last()) + "      - \""@ + yaml_escaped(keys.last()) + "\"\n"@
    }
}

/// The views of a list of strings.
pub open spec fn string_views(v: Seq<String>) -> Seq<Seq<char>> {
    v.map_values(|s: String| s@)
}

/// The `users` entry cloudbase-init understands on Windows: present only
/// when there is a password or a key to install.
pub open spec fn windows_users(username: Seq<char>, password: Option<Seq<char>>, keys: Seq<Seq<char>>) -> Seq<char> {
    if password is Some || keys.len() > 0 {
        "users:\n"@ + "  - name: "@ + username + "\n"@ + "    primary_group: Administrators\n"@
            + (match password {
            Some(pw) => "    plain_text_passwd: \""@ + pw + "\"\n"@ + "    lock_passwd: false\n"@,
            None => Seq::empty(),
        }) + (if keys.len() > 0 {
            "    ssh_authorized_keys:\n"@ + key_lines(keys)
        } else {
            Seq::empty()
        })
    } else {
        Seq::empty()
    }
}

/// The standard cloud-init user section for Linux guests.
pub open spec fn linux_users(username: Seq<char>, password: Option<Seq<char>>, keys: Seq<Seq<char>>) -> Seq<char> {
    "ssh_pwauth: "@ + (if password is Some { "true\n"@ } else { "false\n"@ }) + "users:\n"@ + "  - name: "@
        + username + "\n"@ + "    sudo: ALL=(ALL) NOPASSWD:ALL\n"@ + "    shell: /bin/bash\n"@
        + "    lock_passwd: false\n"@ + (if keys.len() > 0 {
        "    ssh_authorized_keys:\n"@ + key_lines(keys)
    } else {
        Seq::empty()
    }) + (match password {
        Some(pw) => "chpasswd:\n"@ + "  expire: false\n"@ + "  list: |\n"@ + "    "@ + username + ":"@ + pw + "\n"@,
        None => Seq::empty(),
    })
}

/// The whole user-data document for a guest.
pub open spec fn cloud_init_text(
    hostname: Seq<char>,
    username: Seq<char>,
    password: Option<Seq<char>>,
    keys: Seq<Seq<char>>,
    guest_os: GuestOs,
) -> Seq<char> {
    "#cloud-config\n"@ + "hostname: "@ + hostname + "\n"@ + (match guest_os {
        GuestOs::Windows => windows_users(username, password, keys),
        _ => linux_users(username, password, keys),
    })
}

/// The view of an optional borrowed string.
pub open spec fn opt_str_view(o: Option<&str>) -> Option<Seq<char>> {
    match o {
        Some(s) => Some(s@),
        None => None,
    }
}

/// Appends one quoted line per key.
fn push_key_lines(s: &mut String, keys: &[String])
    ensures
        final(s)@ == old(s)@ + key_lines(string_views(keys@)),
{
    let ghost start = s@;
    let mut i: usize = 0;
    while i < keys.len()
        invariant
            0 <= i <= keys@.len(),
            s@ == start + key_lines(string_views(keys@.subrange(0, i as int))),
        decreases keys@.len() - i,
    {
        push_str(s, "      - \"");
        let escaped = yaml_escape(keys[i].as_str());
        push_str(s, escaped.as_str());
        push_str(s, "\"\n");
        proof {
            let ks = string_views(keys@.subrange(0, i + 1));
            assert(ks.drop_last() =~= string_views(keys@.subrange(0, i as int)));
            assert(ks.last() == keys@[i as int]@);
        }
        i = i + 1;
    }
    assert(keys@.subrange(0, keys@.len() as int) =~= keys@);
}

/// Appends the Windows user entry.
fn push_windows_users(s: &mut String, username: &str, password: Option<&str>, ssh_keys: &[String])
    ensures
        final(s)@ == old(s)@ + windows_users(username@, opt_str_view(password), string_views(ssh_keys@)),
{
    let ghost keys = string_views(ssh_keys@);
    let ghost start = s@;
    if password.is_some() || ssh_keys.len() > 0 {
        push_str(s, "users:\n");
        push_str(s, "  - name: ");
        push_str(s, username);
        push_str(s, "\n");
        push_str(s, "    primary_group: Administrators\n");
        let ghost a = s@;
        match password {
            Some(pw) => {
                push_str(s, "    plain_text_passwd: \"");
                push_str(s, pw);
                push_str(s, "\"\n");
                push_str(s, "    lock_passwd: false\n");
            },
            None => {},
        }
        let ghost b = s@;
        if ssh_keys.len() > 0 {
            push_str(s, "    ssh_authorized_keys:\n");
            push_key_lines(s, ssh_keys);
        }
        proof {
            let pw_part = match opt_str_view(password) {
                Some(pw) => "    plain_text_passwd: \""@ + pw + "\"\n"@ + "    lock_passwd: false\n"@,
                None => Seq::<char>::empty(),
            };
            let key_part = if keys.len() > 0 {
                "    ssh_authorized_keys:\n"@ + key_lines(keys)
            } else {
                Seq::<char>::empty()
            };
            assert(b =~= a + pw_part);
            assert(s@ =~= b + key_part);
            assert(a =~= start + ("users:\n"@ + "  - name: "@ + username@ + "\n"@ + "    primary_group: Administrators\n"@));
        }
    }
    assert(s@ =~= start + windows_users(username@, opt_str_view(password), keys));
}

/// Appends the Linux user section.
fn push_linux_users(s: &mut String, username: &str, password: Option<&str>, ssh_keys: &[String])
    ensures
        final(s)@ == old(s)@ + linux_users(username@, opt_str_view(password), string_views(ssh_keys@)),
{
    let ghost keys = string_views(ssh_keys@);
    let ghost start = s@;
    push_str(s, "ssh_pwauth: ");
    if password.is_some() {
        push_str(s, "true\n");
    } else {
        push_str(s, "false\n");
    }
    push_str(s, "users:\n");
    push_str(s, "  - name: ");
    push_str(s, username);
    push_str(s, "\n");
    push_str(s, "    sudo: ALL=(ALL) NOPASSWD:ALL\n");
    push_str(s, "    shell: /bin/bash\n");
    push_str(s, "    lock_passwd: false\n");
    let ghost a = s@;
    if ssh_keys.len() > 0 {
        push_str(s, "    ssh_authorized_keys:\n");
        push_key_lines(s, ssh_keys);
    }
    let ghost b = s@;
    match password {
        Some(pw) => {
            push_str(s, "chpasswd:\n");
            push_str(s, "  expire: false\n");
            push_str(s, "  list: |\n");
            push_str(s, "    ");
            push_str(s, username);
            push_str(s, ":");
            push_str(s, pw);
            push_str(s, "\n");
        },
        None => {},
    }
    proof {
        let head = "ssh_pwauth: "@ + (if opt_str_view(password) is Some { "true\n"@ } else { "false\n"@ }) + "users:\n"@
            + "  - name: "@ + username@ + "\n"@ + "    sudo: ALL=(ALL) NOPASSWD:ALL\n"@ + "    shell: /bin/bash\n"@
            + "    lock_passwd: false\n"@;
        let key_part = if keys.len() > 0 {
            "    ssh_authorized_keys:\n"@ + key_lines(keys)
        } else {
            Seq::<char>::empty()
        };
        let pw_part = match opt_str_view(password) {
            Some(pw) => "chpasswd:\n"@ + "  expire: false\n"@ + "  list: |\n"@ + "    "@ + username@ + ":"@ + pw + "\n"@,
            None => Seq::<char>::empty(),
        };
        assert(a =~= start + head);
        assert(b =~= a + key_part);
        assert(s@ =~= b + pw_part);
    }
    assert(s@ =~= start + linux_users(username@, opt_str_view(password), keys));
}

/// Builds the cloud-init user data for a guest. Linux guests get the
/// standard shape with sudo, a shell and, with a password, password login;
/// Windows guests get the subset cloudbase-init accepts, and a user entry
/// only when there is a password or a key.
pub fn build_cloud_init_user_data(
    hostname: &str,
    username: &str,
    password: Option<&str>,
    ssh_keys: &[String],
    guest_os: GuestOs,
) -> (s: String)
    ensures
        s@ == cloud_init_text(hostname@, username@, opt_str_view(password), string_views(ssh_keys@), guest_os),
{
    let mut s = owned("#cloud-config\n");
    push_str(&mut s, "hostname: ");
    push_str(&mut s, hostname);
    push_str(&mut s, "\n");
    let ghost head = s@;
    match guest_os {
        GuestOs::Windows => push_windows_users(&mut s, username, password, ssh_keys),
        _ => push_linux_users(&mut s, username, password, ssh_keys),
    }
    assert(s@ =~= cloud_init_text(hostname@, username@, opt_str_view(password), string_views(ssh_keys@), guest_os));
    s
}

/// The UEFI firmware used when a request names none.
pub const DEFAULT_OVMF_CODE: &'static str = "/usr/share/edk2/x64/OVMF_CODE.4m.fd";

/// The UEFI variable store template used when a request names none.
pub const DEFAULT_OVMF_VARS: &'static str = "/usr/share/edk2/x64/OVMF_VARS.4m.fd";

/// What boot-mode resolution reads from a VM creation request.
#[derive(Debug, Clone)]
pub struct QemuBootRequest {
    pub vmm_kind: Option<VmmKind>,
    pub guest_os: Option<GuestOs>,
    pub boot_mode: Option<BootMode>,
    pub disk_image_id: Option<[u8; 16]>,
    pub installer_iso_id: Option<[u8; 16]>,
    pub backend_id: Option<[u8; 16]>,
    pub kernel_path: Option<String>,
    pub firmware_path: Option<String>,
    pub nvram_template_path: Option<String>,
    pub enable_vnc: bool,
}

/// The guest a request runs: the one it names, or a Linux disk image.
pub open spec fn requested_guest(req: QemuBootRequest) -> GuestOs {
    match req.guest_os {
        Some(g) => g,
        None => GuestOs::LinuxDisk,
    }
}

/// Whether the request names something to install or boot from disk.
pub open spec fn has_install_target(req: QemuBootRequest) -> bool {
    req.disk_image_id is Some || req.installer_iso_id is Some || req.backend_id is Some
}

/// Whether the request names a non-empty kernel.
pub open spec fn has_kernel(req: QemuBootRequest) -> bool {
    req.kernel_path matches Some(p) && p@.len() > 0
}

/// The view of an optional path, or `default` when it is absent.
pub open spec fn path_or(p: Option<String>, default: Seq<char>) -> Seq<char> {
    match p {
        Some(s) => s@,
        None => default,
    }
}

/// Whether `bm` is the boot mode resolved for `req`: the one it names; else
/// UEFI with the named or default firmware and variable store when there
/// is an install target; else direct boot of the named kernel on the serial console.
pub open spec fn resolved_boot(req: QemuBootRequest, bm: BootMode) -> bool {
    match req.boot_mode {
        Some(m) => same_boot(bm, m),
        None => if has_install_target(req) {
            bm matches BootMode::Uefi { firmware, nvram_template: Some(nv) }
                && firmware@ == path_or(req.firmware_path, DEFAULT_OVMF_CODE@)
                && nv@ == path_or(req.nvram_template_path, DEFAULT_OVMF_VARS@)
        } else {
            bm matches BootMode::LinuxKernel { kernel, initrd: None, cmdline }
                && kernel@ == path_or(req.kernel_path, Seq::empty())
                && cmdline@ == "console=ttyS0"@
        },
    }
}

/// The view of an optional string.
pub open spec fn opt_view(o: Option<String>) -> Option<Seq<char>> {
    match o {
        Some(s) => Some(s@),
        None => None,
    }
}

/// Whether two boot modes are the same mode with the same texts.
pub open spec fn same_boot(a: BootMode, b: BootMode) -> bool {
    match (a, b) {
        (BootMode::LinuxKernel { kernel: k1, initrd: i1, cmdline: c1 }, BootMode::LinuxKernel { kernel: k2, initrd: i2, cmdline: c2 }) =>
            k1@ == k2@ && opt_view(i1) == opt_view(i2) && c1@ == c2@,
        (BootMode::Pvh { kernel: k1, cmdline: c1 }, BootMode::Pvh { kernel: k2, cmdline: c2 }) => k1@ == k2@ && c1@ == c2@,
        (BootMode::Uefi { firmware: f1, nvram_template: n1 }, BootMode::Uefi { firmware: f2, nvram_template: n2 }) =>
            f1@ == f2@ && opt_view(n1) == opt_view(n2),
        _ => false,
    }
}

fn copy_opt(o: &Option<String>) -> (c: Option<String>)
    ensures
        opt_view(c) == opt_view(*o),
{
    match o {
        Some(s) => Some(owned(s.as_str())),
        None => None,
    }
}

/// A copy of a boot mode.
fn copy_boot(m: &BootMode) -> (c: BootMode)
    ensures
        same_boot(c, *m),
{
    match m {
        BootMode::LinuxKernel { kernel, initrd, cmdline } => BootMode::LinuxKernel {
            kernel: owned(kernel.as_str()),
            initrd: copy_opt(initrd),
            cmdline: owned(cmdline.as_str()),
        },
        BootMode::Pvh { kernel, cmdline } => BootMode::Pvh { kernel: owned(kernel.as_str()), cmdline: owned(cmdline.as_str()) },
        BootMode::Uefi { firmware, nvram_template } => BootMode::Uefi {
            firmware: owned(firmware.as_str()),
            nvram_template: copy_opt(nvram_template),
        },
    }
}

/// Whether resolution picks UEFI for `req`.
pub open spec fn resolves_to_uefi(req: QemuBootRequest) -> bool {
    match req.boot_mode {
        Some(m) => m is Uefi,
        None => has_install_target(req),
    }
}

/// The reason a request is refused, in the order the checks are made, or
/// `None` when it is accepted.
pub open spec fn qemu_request_problem(req: QemuBootRequest) -> Option<Seq<char>> {
    let kind = match req.vmm_kind {
        Some(k) => k,
        None => VmmKind::Qemu,
    };
    let guest = requested_guest(req);
    let feats = feature_matrix(kind, guest);
    if kind != VmmKind::Qemu {
        Some("qemu_service called for non-qemu request"@)
    } else if req.boot_mode is None && !has_install_target(req) && !has_kernel(req) {
        Some("qemu VM creation needs one of: boot_mode, disk_image_id, installer_iso_id, backend_id, or kernel_path"@)
    } else if feats == no_features() {
        Some("vmm_kind="@ + vmm_kind_name(kind) + " does not support guest_os="@ + guest_os_name(guest))
    } else if resolves_to_uefi(req) && !feats.uefi_boot {
        Some("vmm_kind="@ + vmm_kind_name(kind) + " cannot UEFI-boot guest_os="@ + guest_os_name(guest))
    } else if req.enable_vnc && !feats.vnc_console {
        Some("vmm_kind="@ + vmm_kind_name(kind) + " does not support vnc_console"@)
    } else {
        None
    }
}

/// A QEMU request that names something to boot is always accepted,
/// whatever its guest and whether or not it asks for a VNC console or a UEFI
/// boot: QEMU supports every guest with both.
pub proof fn qemu_requests_with_a_boot_target_are_accepted(req: QemuBootRequest)
    requires
        req.vmm_kind is None || req.vmm_kind == Some(VmmKind::Qemu),
        req.boot_mode is Some || has_install_target(req) || has_kernel(req),
    ensures
        qemu_request_problem(req) is None,
{
}

/// A request for another backend is refused as misrouted, and a QEMU
/// request with nothing to boot (no boot mode, no image, installer or
/// backend, no non-empty kernel) is refused with the list of what it needs.
pub proof fn qemu_request_refusals(req: QemuBootRequest)
    ensures
        req.vmm_kind == Some(VmmKind::Firecracker) ==> qemu_request_problem(req) == Some(
            "qemu_service called for non-qemu request"@,
        ),
        req.vmm_kind != Some(VmmKind::Firecracker) && req.boot_mode is None && req.disk_image_id is None
            && req.installer_iso_id is None && req.backend_id is None && !(req.kernel_path matches Some(p) && p@.len() > 0)
            ==> qemu_request_problem(req) == Some(
            "qemu VM creation needs one of: boot_mode, disk_image_id, installer_iso_id, backend_id, or kernel_path"@,
        ),
{
}

/// The boot mode a request resolves to: the one it names, kept as it is;
/// else, with an image, installer or backend to boot, UEFI with the named
/// firmware and variable store or the default OVMF ones; else a direct boot
/// of the named kernel, without an initrd, on the serial console.
pub proof fn resolved_boot_modes(req: QemuBootRequest, bm: BootMode)
    requires
        resolved_boot(req, bm),
    ensures
        req.boot_mode matches Some(m) ==> same_boot(bm, m),
        req.boot_mode is None && has_install_target(req) ==> (bm matches BootMode::Uefi { firmware, nvram_template: Some(nv) }
            && (req.firmware_path is None ==> firmware@ == DEFAULT_OVMF_CODE@)
            && (req.firmware_path matches Some(f) ==> firmware@ == f@)
            && (req.nvram_template_path is None ==> nv@ == DEFAULT_OVMF_VARS@)
            && (req.nvram_template_path matches Some(n) ==> nv@ == n@)),
        req.boot_mode is None && !has_install_target(req) && req.kernel_path is Some ==> ({
            let k = req.kernel_path->Some_0;
            bm matches BootMode::LinuxKernel { kernel, initrd: None, cmdline } && kernel@ == k@ && cmdline@ == "console=ttyS0"@
        }),
{
}

/// Checks a QEMU creation request and resolves its backend, guest, boot
/// mode and console choice; a refused request is answered with the reason.
pub fn validate_and_resolve(req: &QemuBootRequest) -> (r: Result<(VmmKind, GuestOs, BootMode, bool), String>)
    ensures
        r is Err <==> qemu_request_problem(*req) is Some,
        r matches Err(m) ==> qemu_request_problem(*req) == Some(m@),
        r matches Ok((k, g, bm, vnc)) ==> k == VmmKind::Qemu && g == requested_guest(*req) && resolved_boot(*req, bm)
            && vnc == req.enable_vnc,
{
    let kind = match req.vmm_kind {
        Some(k) => k,
        None => VmmKind::Qemu,
    };
    if kind != VmmKind::Qemu {
        return Err(owned("qemu_service called for non-qemu request"));
    }
    let guest = match req.guest_os {
        Some(g) => g,
        None => GuestOs::LinuxDisk,
    };
    let install = req.disk_image_id.is_some() || req.installer_iso_id.is_some() || req.backend_id.is_some();
    let boot_mode = match &req.boot_mode {
        Some(mode) => copy_boot(mode),
        None => if install {
            let firmware = match &req.firmware_path {
                Some(p) => owned(p.as_str()),
                None => owned(DEFAULT_OVMF_CODE),
            };
            let nvram = match &req.nvram_template_path {
                Some(p) => owned(p.as_str()),
                None => owned(DEFAULT_OVMF_VARS),
            };
            BootMode::Uefi { firmware, nvram_template: Some(nvram) }
        } else {
            match &req.kernel_path {
                Some(p) if p.as_str().unicode_len() > 0 => BootMode::LinuxKernel {
                    kernel: owned(p.as_str()),
                    initrd: None,
                    cmdline: owned("console=ttyS0"),
                },
                _ => {
                    return Err(owned(
                        "qemu VM creation needs one of: boot_mode, disk_image_id, installer_iso_id, backend_id, or kernel_path",
                    ));
                },
            }
        },
    };
    let feats = features(kind, guest);
    if feats.is_none() {
        let mut m = owned("vmm_kind=");
        push_str(&mut m, kind.as_str());
        push_str(&mut m, " does not support guest_os=");
        push_str(&mut m, guest.as_str());
        return Err(m);
    }
    let uefi = match &boot_mode {
        BootMode::Uefi { .. } => true,
        _ => false,
    };
    if uefi && !feats.uefi_boot {
        let mut m = owned("vmm_kind=");
        push_str(&mut m, kind.as_str());
        push_str(&mut m, " cannot UEFI-boot guest_os=");
        push_str(&mut m, guest.as_str());
        return Err(m);
    }
    if req.enable_vnc && !feats.vnc_console {
        let mut m = owned("vmm_kind=");
        push_str(&mut m, kind.as_str());
        push_str(&mut m, " does not support vnc_console");
        return Err(m);
    }
    Ok((kind, guest, boot_mode, req.enable_vnc))
}

/// The URL through which the host agent forwards a call to the VMM API of
/// VM `id`: the agent's proxy for the VM, the VMM endpoint, and the VMM's
/// API socket as a URL-encoded `sock` parameter.
pub open spec fn agent_proxy_text(host_addr: Seq<char>, id: Seq<u8>, endpoint: Seq<char>, api_sock: Seq<char>) -> Seq<char> {
    host_addr + "/agent/v1/vms/"@ + uuid_text(id) + "/proxy/"@ + endpoint + "?sock="@ + percent_encoded(
        encode_utf8_of(api_sock),
    )
}

/// Builds the agent proxy URL of a VMM endpoint.
pub fn agent_proxy_url(host_addr: &str, id: [u8; 16], endpoint: &str, api_sock: &str) -> (u: String)
    ensures
        u@ == agent_proxy_text(host_addr@, id@, endpoint@, api_sock@),
{
    let mut u = owned(host_addr);
    push_str(&mut u, "/agent/v1/vms/");
    let idt = uuid_hyphenated(id);
    push_str(&mut u, idt.as_str());
    push_str(&mut u, "/proxy/");
    push_str(&mut u, endpoint);
    push_str(&mut u, "?sock=");
    let enc = url_encode(api_sock);
    push_str(&mut u, enc.as_str());
    u
}

} // verus!
