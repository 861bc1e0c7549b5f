//! What a QEMU VM is booted with: its disks, its NICs and the device flags
//! that follow from the guest, once the host work (volume, seed image,
//! image lookups, TAP devices) has been done.

use vstd::prelude::*;
use crate::backup::{uuid_hyphenated, uuid_text};
use crate::provision::{generate_extra_mac, generate_mac, mac_text, push_hex_byte};
use crate::storage::{decimal, decimal_text, hex_lower};
use crate::text::{owned, push_str};
use crate::vmm::GuestOs;

verus! {

/// One disk of a QEMU VM.
#[derive(Debug, Clone, PartialEq, Eq)]
pub struct DiskSpec {
    pub drive_id: String,
    pub source: String,
    pub read_only: bool,
    pub root_device: bool,
    pub format: Option<String>,
    pub cdrom: bool,
}

/// A disk by its texts and flags: id, source, read-only, root, format, CD-ROM.
pub type DiskView = (Seq<char>, Seq<char>, bool, bool, Option<Seq<char>>, bool);

pub open spec fn disk_view(d: DiskSpec) -> DiskView {
    (d.drive_id@, d.source@, d.read_only, d.root_device, match d.format { Some(f) => Some(f@), None => None }, d.cdrom)
}

/// A data drive recorded for a VM, with the format probed from its file.
#[derive(Debug, Clone, PartialEq, Eq)]
pub struct DataDrive {
    pub drive_id: String,
    pub path_on_host: String,
    pub is_root_device: bool,
    pub is_read_only: bool,
    pub format: String,
}

/// A read-only raw CD-ROM.
pub open spec fn cdrom_view(id: Seq<char>, source: Seq<char>) -> DiskView {
    (id, source, true, false, Some("raw"@), true)
}

/// The writable root disk.
pub open spec fn root_disk_view(source: Seq<char>, format: Seq<char>) -> DiskView {
    ("rootfs"@, source, false, true, Some(format), false)
}

/// The recorded data drives that are attached: every one that is not a
/// root device (the root disk is already attached), writable as recorded.
pub open spec fn data_disk_views(data: Seq<DataDrive>) -> Seq<DiskView>
    decreases data.len(),
{
    if data.len() == 0 {
        Seq::empty()
    } else {
        let d = data.last();
        let rest = data_disk_views(data.drop_last());
        if d.is_root_device {
            rest
        } else {
            rest.push((d.drive_id@, d.path_on_host@, d.is_read_only, false, Some(d.format@), false))
        }
    }
}

/// The disks of a QEMU VM, in boot order: the root disk; the cloud-init
/// seed when one was made (or, on a restart, is still on disk); the
/// installer ISO when one was named; the virtio-win drivers ISO for a
/// Windows guest when one is registered; then the data drives. A restart
/// names no installer and no drivers ISO.
pub open spec fn planned_disks(
    root: Seq<char>,
    root_format: Seq<char>,
    seed: Option<Seq<char>>,
    installer: Option<Seq<char>>,
    guest: GuestOs,
    virtio_win: Option<Seq<char>>,
    data: Seq<DataDrive>,
) -> Seq<DiskView> {
    seq![root_disk_view(root, root_format)]
        + (match seed { Some(p) => seq![cdrom_view("cloudinit"@, p)], None => Seq::empty() })
        + (match installer { Some(p) => seq![cdrom_view("installer"@, p)], None => Seq::empty() })
        + (match virtio_win {
            Some(p) => if guest == GuestOs::Windows { seq![cdrom_view("virtio-win"@, p)] } else { Seq::empty() },
            None => Seq::empty(),
        })
        + data_disk_views(data)
}

fn cdrom(id: &str, source: &str) -> (d: DiskSpec)
    ensures
        disk_view(d) == cdrom_view(id@, source@),
{
    DiskSpec {
        drive_id: owned(id),
        source: owned(source),
        read_only: true,
        root_device: false,
        format: Some(owned("raw")),
        cdrom: true,
    }
}

/// The disk list of a QEMU VM, as `planned_disks` orders it.
pub fn qemu_disks(
    root: &str,
    root_format: &str,
    seed: Option<&str>,
    installer: Option<&str>,
    guest: GuestOs,
    virtio_win: Option<&str>,
    data: &[DataDrive],
) -> (disks: Vec<DiskSpec>)
    ensures
        disks@.map_values(|d: DiskSpec| disk_view(d)) == planned_disks(
            root@,
            root_format@,
            match seed { Some(p) => Some(p@), None => None },
            match installer { Some(p) => Some(p@), None => None },
            guest,
            match virtio_win { Some(p) => Some(p@), None => None },
            data@,
        ),
{
    let mut disks: Vec<DiskSpec> = Vec::new();
    disks.push(DiskSpec {
        drive_id: owned("rootfs"),
        source: owned(root),
        read_only: false,
        root_device: true,
        format: Some(owned(root_format)),
        cdrom: false,
    });
    match seed {
        Some(p) => disks.push(cdrom("cloudinit", p)),
        None => {},
    }
    match installer {
        Some(p) => disks.push(cdrom("installer", p)),
        None => {},
    }
    match virtio_win {
        Some(p) => {
            if guest == GuestOs::Windows {
                disks.push(cdrom("virtio-win", p));
            }
        },
        None => {},
    }
    let ghost head = disks@.map_values(|d: DiskSpec| disk_view(d));
    let mut i: usize = 0;
    while i < data.len()
        invariant
            0 <= i <= data@.len(),
            disks@.map_values(|d: DiskSpec| disk_view(d)) == head + data_disk_views(data@.take(i as int)),
        decreases data@.len() - i,
    {
        let ghost before = disks@;
        proof {
            assert(data@.take(i + 1).drop_last() =~= data@.take(i as int));
            assert(data@.take(i + 1).last() == data@[i as int]);
        }
        let d = &data[i];
        if !d.is_root_device {
            disks.push(DiskSpec {
                drive_id: owned(d.drive_id.as_str()),
                source: owned(d.path_on_host.as_str()),
                read_only: d.is_read_only,
                root_device: false,
                format: Some(owned(d.format.as_str())),
                cdrom: false,
            });
            assert(disks@.map_values(|d: DiskSpec| disk_view(d)) =~= before.map_values(|d: DiskSpec| disk_view(d)).push(
                disk_view(disks@.last()),
            ));
        }
        i = i + 1;
    }
    assert(data@.take(data@.len() as int) =~= data@);
    assert(disks@.map_values(|d: DiskSpec| disk_view(d)) =~= planned_disks(
        root@,
        root_format@,
        match seed { Some(p) => Some(p@), None => None },
        match installer { Some(p) => Some(p@), None => None },
        guest,
        match virtio_win { Some(p) => Some(p@), None => None },
        data@,
    ));
    disks
}

/// The data drives that are attached: those that are not root devices, in order.
pub open spec fn attached_drives(data: Seq<DataDrive>) -> Seq<DataDrive> {
    data.filter(|d: DataDrive| !d.is_root_device)
}

/// The data disks of a VM are its recorded non-root drives, in order, each
/// with its own id, file, read-only flag and recorded format, attached as a
/// plain (non-root, non-CD-ROM) disk.
pub proof fn data_disks_keep_their_records(data: Seq<DataDrive>)
    ensures
        data_disk_views(data).len() == attached_drives(data).len(),
        forall|i: int| 0 <= i < data_disk_views(data).len() ==> #[trigger] data_disk_views(data)[i] == (
            attached_drives(data)[i].drive_id@,
            attached_drives(data)[i].path_on_host@,
            attached_drives(data)[i].is_read_only,
            false,
            Some(attached_drives(data)[i].format@),
            false,
        ),
    decreases data.len(),
{
    reveal_with_fuel(Seq::filter, 1);
    if data.len() > 0 {
        data_disks_keep_their_records(data.drop_last());
        let prev = attached_drives(data.drop_last());
        assert(attached_drives(data) == if !data.last().is_root_device { prev.push(data.last()) } else { prev });
    }
}

/// The disk list starts with the writable root disk in the given format, a
/// drivers ISO appears only for Windows guests, and the list ends with the
/// data disks.
pub proof fn disk_list_shape(
    root: Seq<char>,
    root_format: Seq<char>,
    seed: Option<Seq<char>>,
    installer: Option<Seq<char>>,
    guest: GuestOs,
    virtio_win: Option<Seq<char>>,
    data: Seq<DataDrive>,
)
    ensures
        ({
            let disks = planned_disks(root, root_format, seed, installer, guest, virtio_win, data);
            let n = disks.len() as int;
            let m = data_disk_views(data).len() as int;
            &&& disks[0].0 == "rootfs"@ && disks[0].1 == root && !disks[0].2 && disks[0].3
            &&& disks[0].4 == Some(root_format) && !disks[0].5
            &&& n == 1 + (if seed is Some { 1int } else { 0 }) + (if installer is Some { 1int } else { 0 }) + (if guest
                == GuestOs::Windows && virtio_win is Some { 1int } else { 0 }) + m
            &&& disks.subrange(n - m, n) == data_disk_views(data)
            &&& forall|i: int| 1 <= i < n - m ==> (#[trigger] disks[i]).2 && !disks[i].3 && disks[i].4 == Some("raw"@)
                && disks[i].5
            &&& seed matches Some(p) ==> disks[1] == ("cloudinit"@, p, true, false, Some("raw"@), true)
            &&& installer matches Some(p) ==> disks[if seed is Some { 2int } else { 1 }] == (
                "installer"@,
                p,
                true,
                false,
                Some("raw"@),
                true,
            )
            &&& guest == GuestOs::Windows && virtio_win is Some ==> disks[n - m - 1] == (
                "virtio-win"@,
                virtio_win->Some_0,
                true,
                false,
                Some("raw"@),
                true,
            )
        }),
{
    let disks = planned_disks(root, root_format, seed, installer, guest, virtio_win, data);
    let m = data_disk_views(data).len();
    assert(disks.subrange(disks.len() - m, disks.len() as int) =~= data_disk_views(data));
}

/// Whether a cloud-init (or cloudbase-init) seed is made: for a Linux or
/// Windows guest, when a user name, a password or an SSH key is given.
pub open spec fn cloud_init_enabled(guest: GuestOs, has_username: bool, has_password: bool, key_count: nat) -> bool {
    guest != GuestOs::Other && (has_username || has_password || key_count > 0)
}

/// Whether to make a first-boot seed, as `cloud_init_enabled` decides.
pub fn wants_cloud_init(guest: GuestOs, has_username: bool, has_password: bool, key_count: usize) -> (b: bool)
    ensures
        b == cloud_init_enabled(guest, has_username, has_password, key_count as nat),
{
    guest != GuestOs::Other && (has_username || has_password || key_count > 0)
}

/// The user a seed creates when the request names none.
pub fn default_guest_user(guest: GuestOs) -> (u: String)
    ensures
        u@ == (if guest == GuestOs::Windows { "Administrator"@ } else { "nexus"@ }),
{
    if guest == GuestOs::Windows {
        owned("Administrator")
    } else {
        owned("nexus")
    }
}

/// The TPM and Secure Boot flags a guest boots with: a TPM for Windows
/// only; Secure Boot as requested, else on for Windows only.
pub fn device_flags(guest: GuestOs, secure_boot: Option<bool>) -> (f: (bool, bool))
    ensures
        f.0 == (guest == GuestOs::Windows),
        f.1 == match secure_boot { Some(b) => b, None => guest == GuestOs::Windows },
{
    let windows = guest == GuestOs::Windows;
    let sb = match secure_boot {
        Some(b) => b,
        None => windows,
    };
    (windows, sb)
}

/// One NIC of a QEMU VM.
#[derive(Debug, Clone, PartialEq, Eq)]
pub struct NicSpec {
    pub iface_id: String,
    pub host_dev: String,
    pub mac: String,
}

pub open spec fn nic_view(n: NicSpec) -> (Seq<char>, Seq<char>, Seq<char>) {
    (n.iface_id@, n.host_dev@, n.mac@)
}

/// The host device of an extra NIC: `xtp-`, six hex digits of the VM id,
/// `-` and the NIC's position among the requested extra networks.
pub open spec fn extra_tap_text(id: Seq<u8>, i: nat) -> Seq<char> {
    "xtp-"@ + hex_lower(id.subrange(0, 3)) + "-"@ + decimal_text(i as u64)
}

/// The NICs for the extra networks from position `from` on whose bridge
/// and TAP device were ready; a network that was not is skipped.
pub open spec fn extra_nic_views(id: Seq<u8>, test_mode: bool, ready: Seq<bool>) -> Seq<(Seq<char>, Seq<char>, Seq<char>)>
    decreases ready.len(),
{
    if ready.len() == 0 {
        Seq::empty()
    } else {
        let i = (ready.len() - 1) as nat;
        let rest = extra_nic_views(id, test_mode, ready.drop_last());
        if ready.last() {
            rest.push((
                "net"@ + decimal_text((i + 1) as u64),
                if test_mode { "user"@ } else { extra_tap_text(id, i) },
                mac_text(id[13], id[14], id[15] ^ ((i + 1) as u8)),
            ))
        } else {
            rest
        }
    }
}

/// The NICs of a QEMU VM: `net0` on the primary TAP (`tap-` and eight hex
/// digits of the VM id; user-mode networking in test mode), then one NIC per
/// ready extra network.
pub open spec fn planned_nics(id: Seq<u8>, test_mode: bool, ready: Seq<bool>) -> Seq<(Seq<char>, Seq<char>, Seq<char>)> {
    seq![(
        "net0"@,
        if test_mode { "user"@ } else { "tap-"@ + hex_lower(id.subrange(0, 4)) },
        mac_text(id[13], id[14], id[15]),
    )] + extra_nic_views(id, test_mode, ready)
}

/// The NIC list of a QEMU VM, as `planned_nics` describes; `ready[i]` says
/// whether the bridge and TAP of the `i`-th extra network were set up.
pub fn qemu_nics(id: [u8; 16], test_mode: bool, ready: &[bool]) -> (nics: Vec<NicSpec>)
    requires
        ready@.len() <= 255,
    ensures
        nics@.map_values(|n: NicSpec| nic_view(n)) == planned_nics(id@, test_mode, ready@),
{
    proof {
        reveal_with_fuel(hex_lower, 5);
    }
    let primary = if test_mode {
        owned("user")
    } else {
        let mut t = owned("tap-");
        push_hex_byte(&mut t, id[0]);
        push_hex_byte(&mut t, id[1]);
        push_hex_byte(&mut t, id[2]);
        push_hex_byte(&mut t, id[3]);
        assert(id@.subrange(0, 4) =~= seq![id[0], id[1], id[2], id[3]]);
        assert(t@ =~= "tap-"@ + hex_lower(id@.subrange(0, 4)));
        t
    };
    let mut nics: Vec<NicSpec> = Vec::new();
    nics.push(NicSpec { iface_id: owned("net0"), host_dev: primary, mac: generate_mac(id) });
    let ghost head = nics@.map_values(|n: NicSpec| nic_view(n));
    let mut i: usize = 0;
    while i < ready.len()
        invariant
            0 <= i <= ready@.len(),
            ready@.len() <= 255,
            nics@.map_values(|n: NicSpec| nic_view(n)) == head + extra_nic_views(id@, test_mode, ready@.take(i as int)),
        decreases ready@.len() - i,
    {
        let ghost before = nics@;
        proof {
            assert(ready@.take(i + 1).drop_last() =~= ready@.take(i as int));
            assert(ready@.take(i + 1).last() == ready@[i as int]);
        }
        if ready[i] {
            let mut iface = owned("net");
            let n1 = decimal((i + 1) as u64);
            push_str(&mut iface, n1.as_str());
            let host_dev = if test_mode {
                owned("user")
            } else {
                let mut t = owned("xtp-");
                push_hex_byte(&mut t, id[0]);
                push_hex_byte(&mut t, id[1]);
                push_hex_byte(&mut t, id[2]);
                push_str(&mut t, "-");
                let n = decimal(i as u64);
                push_str(&mut t, n.as_str());
                proof {
                    reveal_with_fuel(hex_lower, 4);
                    assert(id@.subrange(0, 3) =~= seq![id[0], id[1], id[2]]);
                }
                assert(t@ =~= extra_tap_text(id@, i as nat));
                t
            };
            let mac = generate_extra_mac(id, i as u8);
            nics.push(NicSpec { iface_id: iface, host_dev, mac });
            assert(nics@.map_values(|n: NicSpec| nic_view(n)) =~= before.map_values(|n: NicSpec| nic_view(n)).push(
                nic_view(nics@.last()),
            ));
        }
        i = i + 1;
    }
    assert(ready@.take(ready@.len() as int) =~= ready@);
    assert(nics@.map_values(|n: NicSpec| nic_view(n)) =~= planned_nics(id@, test_mode, ready@));
    nics
}

/// The primary TAP device of a VM: `tap-` and eight hex digits of its id,
/// or user-mode networking in test mode.
pub open spec fn primary_dev_text(id: Seq<u8>, test_mode: bool) -> Seq<char> {
    if test_mode { "user"@ } else { "tap-"@ + hex_lower(id.subrange(0, 4)) }
}

/// The NIC a restarted QEMU VM boots with: `eth0` on its primary TAP device
/// (a restart attaches no extra networks).
pub fn restart_nics(id: [u8; 16], test_mode: bool) -> (nics: Vec<NicSpec>)
    ensures
        nics@.map_values(|n: NicSpec| nic_view(n)) == seq![(
            "eth0"@,
            primary_dev_text(id@, test_mode),
            mac_text(id@[13], id@[14], id@[15]),
        )],
{
    proof {
        reveal_with_fuel(hex_lower, 5);
    }
    let dev = if test_mode {
        owned("user")
    } else {
        let mut t = owned("tap-");
        push_hex_byte(&mut t, id[0]);
        push_hex_byte(&mut t, id[1]);
        push_hex_byte(&mut t, id[2]);
        push_hex_byte(&mut t, id[3]);
        assert(id@.subrange(0, 4) =~= seq![id[0], id[1], id[2], id[3]]);
        assert(t@ =~= "tap-"@ + hex_lower(id@.subrange(0, 4)));
        t
    };
    let mut nics: Vec<NicSpec> = Vec::new();
    nics.push(NicSpec { iface_id: owned("eth0"), host_dev: dev, mac: generate_mac(id) });
    assert(nics@.map_values(|n: NicSpec| nic_view(n)) =~= seq![(
        "eth0"@,
        primary_dev_text(id@, test_mode),
        mac_text(id@[13], id@[14], id@[15]),
    )]);
    nics
}

/// The refusal when the chosen host has no room for the VM.
pub open spec fn at_capacity_text(host_id: Seq<u8>, vcpu: u8, mem_mib: u32) -> Seq<char> {
    "host "@ + uuid_text(host_id) + " is at capacity; cannot reserve "@ + decimal_text(vcpu as u64) + " vcpu / "@
        + decimal_text(mem_mib as u64) + " MiB"@
}

/// The refusal when the chosen host has no room for the VM.
pub fn at_capacity_message(host_id: [u8; 16], vcpu: u8, mem_mib: u32) -> (m: String)
    ensures
        m@ == at_capacity_text(host_id@, vcpu, mem_mib),
{
    let mut m = owned("host ");
    let h = uuid_hyphenated(host_id);
    push_str(&mut m, h.as_str());
    push_str(&mut m, " is at capacity; cannot reserve ");
    let v = decimal(vcpu as u64);
    push_str(&mut m, v.as_str());
    push_str(&mut m, " vcpu / ");
    let mm = decimal(mem_mib as u64);
    push_str(&mut m, mm.as_str());
    push_str(&mut m, " MiB");
    m
}

/// A seed is made only for a Linux or Windows guest, and for such a guest
/// exactly when a user name, a password or at least one SSH key is given.
pub proof fn seed_only_with_credentials(guest: GuestOs, has_username: bool, has_password: bool, key_count: nat)
    ensures
        guest == GuestOs::Other ==> !cloud_init_enabled(guest, has_username, has_password, key_count),
        !has_username && !has_password && key_count == 0 ==> !cloud_init_enabled(guest, has_username, has_password, key_count),
        guest != GuestOs::Other && (has_username || has_password || key_count > 0) ==> cloud_init_enabled(
            guest,
            has_username,
            has_password,
            key_count,
        ),
{
}

/// The NIC of the `i`-th extra network: `net` and `i + 1`, on its own TAP
/// device (or user-mode networking in test mode), with the VM's MAC address
/// whose last byte is xored with `i + 1`.
pub open spec fn extra_nic_of(id: Seq<u8>, test_mode: bool, i: int) -> (Seq<char>, Seq<char>, Seq<char>) {
    (
        "net"@ + decimal_text((i + 1) as u64),
        if test_mode { "user"@ } else { extra_tap_text(id, i as nat) },
        mac_text(id[13], id[14], id[15] ^ ((i + 1) as u8)),
    )
}

/// The NIC list starts with `net0` on the primary device with the VM's own
/// MAC address, then has one NIC per ready extra network, in order, and
/// none for the others: the NIC of ready network `i` comes right after
/// those of the ready networks before it.
pub proof fn nic_list_shape(id: Seq<u8>, test_mode: bool, ready: Seq<bool>)
    requires
        id.len() == 16,
    ensures
        ({
            let nics = planned_nics(id, test_mode, ready);
            &&& nics[0] == ("net0"@, primary_dev_text(id, test_mode), mac_text(id[13], id[14], id[15]))
            &&& nics.len() == 1 + ready.filter(|b: bool| b).len()
            &&& forall|i: int| 0 <= i < ready.len() && #[trigger] ready[i] ==> nics[1 + ready.take(i).filter(|b: bool| b).len() as int]
                == extra_nic_of(id, test_mode, i)
        }),
{
    lemma_extra_nics(id, test_mode, ready);
}

/// The extra NICs are one per ready network, in order.
proof fn lemma_extra_nics(id: Seq<u8>, test_mode: bool, ready: Seq<bool>)
    ensures
        extra_nic_views(id, test_mode, ready).len() == ready.filter(|b: bool| b).len(),
        forall|i: int| 0 <= i < ready.len() && #[trigger] ready[i] ==> ready.take(i).filter(|b: bool| b).len()
            < ready.filter(|b: bool| b).len() && extra_nic_views(id, test_mode, ready)[ready.take(i).filter(|b: bool| b).len() as int]
            == extra_nic_of(id, test_mode, i),
    decreases ready.len(),
{
    reveal_with_fuel(Seq::filter, 1);
    if ready.len() > 0 {
        let prev = ready.drop_last();
        lemma_extra_nics(id, test_mode, prev);
        let n = ready.len() - 1;
        assert(ready.filter(|b: bool| b) == if ready.last() { prev.filter(|b: bool| b).push(ready.last()) } else {
            prev.filter(|b: bool| b)
        });
        assert forall|i: int| 0 <= i < ready.len() && #[trigger] ready[i] implies ready.take(i).filter(|b: bool| b).len()
            < ready.filter(|b: bool| b).len() && extra_nic_views(id, test_mode, ready)[ready.take(i).filter(|b: bool| b).len() as int]
            == extra_nic_of(id, test_mode, i) by {
            if i < n {
                assert(ready.take(i) =~= prev.take(i));
                assert(prev[i]);
            } else {
                assert(ready.take(i) =~= prev);
            }
        }
    }
}

} // verus!
