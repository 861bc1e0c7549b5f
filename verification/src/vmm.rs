//! VMM backends, guest kinds, boot modes and the capability matrix that
//! decides which features a (backend, guest) pair supports.

use vstd::prelude::*;
use crate::text::str_eq;

verus! {

/// Which VMM binary runs a VM.
#[derive(Debug, Clone, Copy, PartialEq, Eq, Hash, Structural)]
pub enum VmmKind {
    Firecracker,
    Qemu,
}

/// The guest operating system, in broad strokes.
#[derive(Debug, Clone, Copy, PartialEq, Eq, Hash, Structural)]
pub enum GuestOs {
    LinuxKernel,
    LinuxDisk,
    Windows,
    Other,
}

/// The name a backend is stored and shown under.
pub open spec fn vmm_kind_name(k: VmmKind) -> Seq<char> {
    match k {
        VmmKind::Firecracker => "firecracker"@,
        VmmKind::Qemu => "qemu"@,
    }
}

/// The backend a stored name denotes, if any.
pub open spec fn vmm_kind_named(s: Seq<char>) -> Option<VmmKind> {
    if s == "firecracker"@ {
        Some(VmmKind::Firecracker)
    } else if s == "qemu"@ {
        Some(VmmKind::Qemu)
    } else {
        None
    }
}

impl VmmKind {
    pub fn as_str(self) -> (s: &'static str)
        ensures
            s@ == vmm_kind_name(self),
    {
        match self {
            VmmKind::Firecracker => "firecracker",
            VmmKind::Qemu => "qemu",
        }
    }

    pub fn parse(s: &str) -> (k: Option<Self>)
        ensures
            k == vmm_kind_named(s@),
    {
        if str_eq(s, "firecracker") {
            Some(VmmKind::Firecracker)
        } else if str_eq(s, "qemu") {
            Some(VmmKind::Qemu)
        } else {
            None
        }
    }
}

/// Parsing the name of a backend gives the backend back.
pub proof fn vmm_kind_round_trip(k: VmmKind)
    ensures
        vmm_kind_named(vmm_kind_name(k)) == Some(k),
{
    reveal_strlit("firecracker");
    reveal_strlit("qemu");
    assert("firecracker"@.len() != "qemu"@.len());
}

/// The name a guest kind is stored and shown under.
pub open spec fn guest_os_name(g: GuestOs) -> Seq<char> {
    match g {
        GuestOs::LinuxKernel => "linux_kernel"@,
        GuestOs::LinuxDisk => "linux_disk"@,
        GuestOs::Windows => "windows"@,
        GuestOs::Other => "other"@,
    }
}

/// The guest kind a stored name denotes, if any.
pub open spec fn guest_os_named(s: Seq<char>) -> Option<GuestOs> {
    if s == "linux_kernel"@ {
        Some(GuestOs::LinuxKernel)
    } else if s == "linux_disk"@ {
        Some(GuestOs::LinuxDisk)
    } else if s == "windows"@ {
        Some(GuestOs::Windows)
    } else if s == "other"@ {
        Some(GuestOs::Other)
    } else {
        None
    }
}

impl GuestOs {
    pub fn as_str(self) -> (s: &'static str)
        ensures
            s@ == guest_os_name(self),
    {
        match self {
            GuestOs::LinuxKernel => "linux_kernel",
            GuestOs::LinuxDisk => "linux_disk",
            GuestOs::Windows => "windows",
            GuestOs::Other => "other",
        }
    }

    pub fn parse(s: &str) -> (g: Option<Self>)
        ensures
            g == guest_os_named(s@),
    {
        if str_eq(s, "linux_kernel") {
            Some(GuestOs::LinuxKernel)
        } else if str_eq(s, "linux_disk") {
            Some(GuestOs::LinuxDisk)
        } else if str_eq(s, "windows") {
            Some(GuestOs::Windows)
        } else if str_eq(s, "other") {
            Some(GuestOs::Other)
        } else {
            None
        }
    }
}

/// Parsing the name of a guest kind gives the guest kind back.
pub proof fn guest_os_round_trip(g: GuestOs)
    ensures
        guest_os_named(guest_os_name(g)) == Some(g),
{
    reveal_strlit("linux_kernel");
    reveal_strlit("linux_disk");
    reveal_strlit("windows");
    reveal_strlit("other");
    assert("linux_kernel"@.len() == 12 && "linux_disk"@.len() == 10 && "windows"@.len() == 7
        && "other"@.len() == 5);
}

/// How a VM boots; paths are host paths.
#[derive(Debug, Clone)]
pub enum BootMode {
    LinuxKernel { kernel: String, initrd: Option<String>, cmdline: String },
    Pvh { kernel: String, cmdline: String },
    Uefi { firmware: String, nvram_template: Option<String> },
}

impl BootMode {
    pub fn mode_str(&self) -> (s: &'static str)
        ensures
            s@ == (match self {
                BootMode::LinuxKernel { .. } => "linux_kernel"@,
                BootMode::Pvh { .. } => "pvh"@,
                BootMode::Uefi { .. } => "uefi"@,
            }),
    {
        match self {
            BootMode::LinuxKernel { .. } => "linux_kernel",
            BootMode::Pvh { .. } => "pvh",
            BootMode::Uefi { .. } => "uefi",
        }
    }
}

/// How the image registry treats an asset.
#[derive(Debug, Clone, Copy, PartialEq, Eq, Structural)]
pub enum ImageKind {
    LinuxKernel,
    LinuxDisk,
    UefiDisk,
    InstallerIso,
}

/// The name an image kind is stored under.
pub open spec fn image_kind_name(k: ImageKind) -> Seq<char> {
    match k {
        ImageKind::LinuxKernel => "linux_kernel"@,
        ImageKind::LinuxDisk => "linux_disk"@,
        ImageKind::UefiDisk => "uefi_disk"@,
        ImageKind::InstallerIso => "installer_iso"@,
    }
}

/// The image kind a stored name denotes, if any.
pub open spec fn image_kind_named(s: Seq<char>) -> Option<ImageKind> {
    if s == "linux_kernel"@ {
        Some(ImageKind::LinuxKernel)
    } else if s == "linux_disk"@ {
        Some(ImageKind::LinuxDisk)
    } else if s == "uefi_disk"@ {
        Some(ImageKind::UefiDisk)
    } else if s == "installer_iso"@ {
        Some(ImageKind::InstallerIso)
    } else {
        None
    }
}

impl ImageKind {
    pub fn as_str(self) -> (s: &'static str)
        ensures
            s@ == image_kind_name(self),
    {
        match self {
            ImageKind::LinuxKernel => "linux_kernel",
            ImageKind::LinuxDisk => "linux_disk",
            ImageKind::UefiDisk => "uefi_disk",
            ImageKind::InstallerIso => "installer_iso",
        }
    }

    pub fn parse(s: &str) -> (k: Option<Self>)
        ensures
            k == image_kind_named(s@),
    {
        if str_eq(s, "linux_kernel") {
            Some(ImageKind::LinuxKernel)
        } else if str_eq(s, "linux_disk") {
            Some(ImageKind::LinuxDisk)
        } else if str_eq(s, "uefi_disk") {
            Some(ImageKind::UefiDisk)
        } else if str_eq(s, "installer_iso") {
            Some(ImageKind::InstallerIso)
        } else {
            None
        }
    }
}

/// Parsing the name of an image kind gives the image kind back.
pub proof fn image_kind_round_trip(k: ImageKind)
    ensures
        image_kind_named(image_kind_name(k)) == Some(k),
{
    reveal_strlit("linux_kernel");
    reveal_strlit("linux_disk");
    reveal_strlit("uefi_disk");
    reveal_strlit("installer_iso");
    assert("linux_kernel"@.len() == 12 && "linux_disk"@.len() == 10 && "uefi_disk"@.len() == 9
        && "installer_iso"@.len() == 13);
}

/// Console transport for the shell bridge.
#[derive(Debug, Clone)]
pub enum ConsoleEndpoint {
    UnixSerial { path: String },
    Pty { path: String },
    Vnc { host: String, port: u16, password: Option<String> },
}

/// A disk the VMM attaches.
#[derive(Debug, Clone)]
pub struct DiskSpec {
    pub drive_id: String,
    pub source: String,
    pub read_only: bool,
    pub root_device: bool,
    pub format: Option<String>,
    pub cdrom: bool,
}

/// A network interface the VMM attaches.
#[derive(Debug, Clone)]
pub struct NicSpec {
    pub iface_id: String,
    pub host_dev: String,
    pub mac: String,
}

#[derive(Debug, Clone, Copy, PartialEq, Eq, Structural)]
pub enum ShutdownMode {
    Graceful,
    Hard,
}

#[derive(Debug, Clone, Copy, PartialEq, Eq, Structural)]
pub enum SnapshotKind {
    Full,
    Diff,
}

#[derive(Debug, Clone)]
pub struct SnapshotPaths {
    pub state_path: String,
    pub mem_path: Option<String>,
    pub diff_dir: Option<String>,
}

#[derive(Debug, Clone)]
pub struct SnapshotMeta {
    pub kind: VmmKind,
    pub vmm_version: String,
    pub state_size_bytes: u64,
    pub mem_size_bytes: Option<u64>,
}

/// The capabilities of a (backend, guest) pair.
#[derive(Debug, Clone, Copy, PartialEq, Eq, Structural)]
pub struct FeatureSupport {
    pub fast_snapshot: bool,
    pub diff_snapshot: bool,
    pub mmds: bool,
    pub uefi_boot: bool,
    pub bios_boot: bool,
    pub virtio_pci: bool,
    pub virtio_console: bool,
    pub vnc_console: bool,
    pub cdrom: bool,
    pub balloon: bool,
    pub entropy: bool,
    pub vsock: bool,
    pub memory_hotplug: bool,
    pub gpu_passthrough: bool,
    pub vfio_passthrough: bool,
    pub live_migration: bool,
    pub windows_guest: bool,
}

/// The all-false profile given to unsupported pairs.
pub open spec fn no_features() -> FeatureSupport {
    FeatureSupport {
        fast_snapshot: false,
        diff_snapshot: false,
        mmds: false,
        uefi_boot: false,
        bios_boot: false,
        virtio_pci: false,
        virtio_console: false,
        vnc_console: false,
        cdrom: false,
        balloon: false,
        entropy: false,
        vsock: false,
        memory_hotplug: false,
        gpu_passthrough: false,
        vfio_passthrough: false,
        live_migration: false,
        windows_guest: false,
    }
}

/// The capability matrix.
pub open spec fn feature_matrix(kind: VmmKind, guest: GuestOs) -> FeatureSupport {
    match (kind, guest) {
        (VmmKind::Firecracker, GuestOs::LinuxKernel) => FeatureSupport {
            fast_snapshot: true,
            diff_snapshot: true,
            mmds: true,
            balloon: true,
            entropy: true,
            vsock: true,
            ..no_features()
        },
        (VmmKind::Firecracker, _) => no_features(),
        (VmmKind::Qemu, GuestOs::LinuxKernel) | (VmmKind::Qemu, GuestOs::LinuxDisk) => FeatureSupport {
            fast_snapshot: true,
            uefi_boot: true,
            bios_boot: true,
            virtio_pci: true,
            virtio_console: true,
            vnc_console: true,
            cdrom: true,
            balloon: true,
            entropy: true,
            vsock: true,
            vfio_passthrough: true,
            ..no_features()
        },
        (VmmKind::Qemu, GuestOs::Windows) => FeatureSupport {
            fast_snapshot: true,
            uefi_boot: true,
            bios_boot: true,
            virtio_pci: true,
            virtio_console: true,
            vnc_console: true,
            cdrom: true,
            entropy: true,
            vfio_passthrough: true,
            windows_guest: true,
            ..no_features()
        },
        (VmmKind::Qemu, GuestOs::Other) => FeatureSupport {
            uefi_boot: true,
            bios_boot: true,
            virtio_pci: true,
            virtio_console: true,
            vnc_console: true,
            cdrom: true,
            entropy: true,
            vfio_passthrough: true,
            ..no_features()
        },
    }
}

impl FeatureSupport {
    /// The all-false profile given to unsupported pairs.
    pub fn none() -> (f: FeatureSupport)
        ensures
            f == no_features(),
    {
        FeatureSupport {
            fast_snapshot: false,
            diff_snapshot: false,
            mmds: false,
            uefi_boot: false,
            bios_boot: false,
            virtio_pci: false,
            virtio_console: false,
            vnc_console: false,
            cdrom: false,
            balloon: false,
            entropy: false,
            vsock: false,
            memory_hotplug: false,
            gpu_passthrough: false,
            vfio_passthrough: false,
            live_migration: false,
            windows_guest: false,
        }
    }

    /// Whether this is the all-false profile.
    pub fn is_none(&self) -> (b: bool)
        ensures
            b <==> *self == no_features(),
    {
        !self.fast_snapshot && !self.diff_snapshot && !self.mmds && !self.uefi_boot
            && !self.bios_boot && !self.virtio_pci && !self.virtio_console && !self.vnc_console
            && !self.cdrom && !self.balloon && !self.entropy && !self.vsock && !self.memory_hotplug
            && !self.gpu_passthrough && !self.vfio_passthrough && !self.live_migration
            && !self.windows_guest
    }
}

/// The capabilities of `kind` running `guest`.
pub fn features(kind: VmmKind, guest: GuestOs) -> (f: FeatureSupport)
    ensures
        f == feature_matrix(kind, guest),
{
    let none = FeatureSupport::none();
    match (kind, guest) {
        (VmmKind::Firecracker, GuestOs::LinuxKernel) => FeatureSupport {
            fast_snapshot: true,
            diff_snapshot: true,
            mmds: true,
            balloon: true,
            entropy: true,
            vsock: true,
            ..none
        },
        (VmmKind::Firecracker, _) => none,
        (VmmKind::Qemu, GuestOs::LinuxKernel) | (VmmKind::Qemu, GuestOs::LinuxDisk) => FeatureSupport {
            fast_snapshot: true,
            uefi_boot: true,
            bios_boot: true,
            virtio_pci: true,
            virtio_console: true,
            vnc_console: true,
            cdrom: true,
            balloon: true,
            entropy: true,
            vsock: true,
            vfio_passthrough: true,
            ..none
        },
        (VmmKind::Qemu, GuestOs::Windows) => FeatureSupport {
            fast_snapshot: true,
            uefi_boot: true,
            bios_boot: true,
            virtio_pci: true,
            virtio_console: true,
            vnc_console: true,
            cdrom: true,
            entropy: true,
            vfio_passthrough: true,
            windows_guest: true,
            ..none
        },
        (VmmKind::Qemu, GuestOs::Other) => FeatureSupport {
            uefi_boot: true,
            bios_boot: true,
            virtio_pci: true,
            virtio_console: true,
            vnc_console: true,
            cdrom: true,
            entropy: true,
            vfio_passthrough: true,
            ..none
        },
    }
}

/// Firecracker supports only kernel-booted Linux; every other guest gets nothing.
pub proof fn firecracker_runs_only_linux_kernels(guest: GuestOs)
    ensures
        guest != GuestOs::LinuxKernel ==> feature_matrix(VmmKind::Firecracker, guest) == no_features(),
        feature_matrix(VmmKind::Firecracker, GuestOs::LinuxKernel) != no_features(),
{
}

/// Only QEMU can run Windows, and it runs it without virtio-balloon.
pub proof fn only_qemu_runs_windows(kind: VmmKind, guest: GuestOs)
    ensures
        feature_matrix(kind, guest).windows_guest <==> (kind == VmmKind::Qemu && guest
            == GuestOs::Windows),
        !feature_matrix(VmmKind::Qemu, GuestOs::Windows).balloon,
{
}

/// The backend chosen for a boot mode when none was asked for.
pub open spec fn auto_kind(boot: BootMode) -> VmmKind {
    match boot {
        BootMode::LinuxKernel { .. } => VmmKind::Firecracker,
        _ => VmmKind::Qemu,
    }
}

/// Kernel boots go to Firecracker; PVH and UEFI boots go to QEMU.
pub fn auto_select(boot: &BootMode) -> (k: VmmKind)
    ensures
        k == auto_kind(*boot),
{
    match boot {
        BootMode::LinuxKernel { .. } => VmmKind::Firecracker,
        BootMode::Pvh { .. } | BootMode::Uefi { .. } => VmmKind::Qemu,
    }
}

/// The backend chosen for any boot mode can boot it: Firecracker gets only
/// kernel boots, and QEMU can UEFI-boot every guest.
pub proof fn auto_selected_backend_can_boot(boot: BootMode, guest: GuestOs)
    ensures
        auto_kind(boot) == VmmKind::Firecracker ==> boot is LinuxKernel,
        boot is Uefi ==> feature_matrix(auto_kind(boot), guest).uefi_boot,
{
}

/// What QEMU offers every guest: UEFI and BIOS boot, virtio-pci, a virtio
/// and a VNC console, CD-ROMs, an entropy device and VFIO passthrough; and
/// what it offers none: diff snapshots, MMDS, memory hotplug, GPU
/// passthrough and live migration as a capability.
pub proof fn qemu_offers_every_guest(guest: GuestOs)
    ensures
        ({
            let f = feature_matrix(VmmKind::Qemu, guest);
            &&& f.uefi_boot && f.bios_boot && f.virtio_pci && f.virtio_console && f.vnc_console
            &&& f.cdrom && f.entropy && f.vfio_passthrough
            &&& !f.diff_snapshot && !f.mmds && !f.memory_hotplug && !f.gpu_passthrough && !f.live_migration
        }),
{
}

/// Under QEMU, fast snapshots are for Linux and Windows guests, the
/// balloon and vsock devices for Linux guests only, and the Windows guest
/// profile for Windows only.
pub proof fn qemu_guest_specific_devices(guest: GuestOs)
    ensures
        feature_matrix(VmmKind::Qemu, guest).windows_guest <==> guest == GuestOs::Windows,
        feature_matrix(VmmKind::Qemu, guest).fast_snapshot <==> guest != GuestOs::Other,
        feature_matrix(VmmKind::Qemu, guest).balloon <==> (guest == GuestOs::LinuxKernel || guest == GuestOs::LinuxDisk),
        feature_matrix(VmmKind::Qemu, guest).vsock <==> (guest == GuestOs::LinuxKernel || guest == GuestOs::LinuxDisk),
{
}

/// Firecracker running a kernel-booted Linux offers fast and diff
/// snapshots, MMDS, a balloon, an entropy device and vsock, and nothing else.
pub proof fn firecracker_linux_features()
    ensures
        ({
            let f = feature_matrix(VmmKind::Firecracker, GuestOs::LinuxKernel);
            &&& f.fast_snapshot && f.diff_snapshot && f.mmds && f.balloon && f.entropy && f.vsock
            &&& !f.uefi_boot && !f.bios_boot && !f.virtio_pci && !f.virtio_console && !f.vnc_console
            &&& !f.cdrom && !f.memory_hotplug && !f.gpu_passthrough && !f.vfio_passthrough
            &&& !f.live_migration && !f.windows_guest
        }),
{
}

/// Firecracker boots nothing but a kernel-booted Linux guest: for any
/// other guest it offers no capability at all.
pub proof fn firecracker_only_runs_kernel_linux(guest: GuestOs)
    requires
        guest != GuestOs::LinuxKernel,
    ensures
        ({
            let f = feature_matrix(VmmKind::Firecracker, guest);
            &&& !f.fast_snapshot && !f.diff_snapshot && !f.mmds && !f.uefi_boot && !f.bios_boot
            &&& !f.virtio_pci && !f.virtio_console && !f.vnc_console && !f.cdrom && !f.balloon
            &&& !f.entropy && !f.vsock && !f.memory_hotplug && !f.gpu_passthrough
            &&& !f.vfio_passthrough && !f.live_migration && !f.windows_guest
        }),
{
}

} // verus!
