//! The Firecracker API calls that configure a microVM before it starts:
//! machine size, boot source, drives, network interfaces, logger, serial
//! console and metrics, in the order they are made.

use vstd::prelude::*;
use crate::backup::{uuid_hyphenated, uuid_text};
use crate::cli::{encode_utf8_of, percent_encoded, url_encode};
use crate::provision::VmPaths;
use crate::text::{owned, push_str, str_eq};
use crate::vm_spec::{ensure_allowed_path, outside_roots_text, path_starts_with, ResolvedVmSpec};

verus! {

/// A recorded rate limiter setting, by its shape: whether it is a JSON
/// object, and the names of its members.
#[derive(Debug, Clone, PartialEq, Eq)]
pub struct LimiterShape {
    pub is_object: bool,
    pub keys: Vec<String>,
}

/// How a recorded rate limiter is sent: as recorded, or with its flat
/// token-bucket members (`size`, `one_time_burst`, `refill_time`, those
/// present, in that order) grouped under `bandwidth`.
#[derive(Debug, Clone, PartialEq, Eq)]
pub enum LimiterPlan {
    AsRecorded,
    Regrouped { bandwidth_keys: Vec<String> },
}

/// The views of a list of strings.
pub open spec fn texts(v: Seq<String>) -> Seq<Seq<char>> {
    v.map_values(|s: String| s@)
}

/// The token-bucket member names among `keys`, in the order Firecracker lists them.
pub open spec fn bucket_keys(keys: Seq<Seq<char>>) -> Seq<Seq<char>> {
    (if keys.contains("size"@) { seq!["size"@] } else { Seq::empty() })
        + (if keys.contains("one_time_burst"@) { seq!["one_time_burst"@] } else { Seq::empty() })
        + (if keys.contains("refill_time"@) { seq!["refill_time"@] } else { Seq::empty() })
}

/// The plan for a recorded limiter: anything but an object, or an object
/// already in Firecracker's shape (with `bandwidth` or `ops`), is sent as
/// recorded; so is an object with no token-bucket member; any other is regrouped.
pub open spec fn limiter_plan_of(is_object: bool, keys: Seq<Seq<char>>) -> Option<Seq<Seq<char>>> {
    if !is_object || keys.contains("bandwidth"@) || keys.contains("ops"@) || bucket_keys(keys).len() == 0 {
        None
    } else {
        Some(bucket_keys(keys))
    }
}

pub open spec fn plan_view(p: LimiterPlan) -> Option<Seq<Seq<char>>> {
    match p {
        LimiterPlan::AsRecorded => None,
        LimiterPlan::Regrouped { bandwidth_keys } => Some(texts(bandwidth_keys@)),
    }
}

/// Whether `keys` holds `k`.
fn has_key(keys: &[String], k: &str) -> (b: bool)
    ensures
        b == texts(keys@).contains(k@),
{
    let mut i: usize = 0;
    while i < keys.len()
        invariant
            0 <= i <= keys@.len(),
            forall|j: int| 0 <= j < i ==> texts(keys@)[j] != k@,
        decreases keys@.len() - i,
    {
        if str_eq(keys[i].as_str(), k) {
            assert(texts(keys@)[i as int] == k@);
            return true;
        }
        i = i + 1;
    }
    false
}

/// How to send a recorded rate limiter, as `limiter_plan_of` decides.
pub fn limiter_plan(shape: &LimiterShape) -> (p: LimiterPlan)
    ensures
        plan_view(p) == limiter_plan_of(shape.is_object, texts(shape.keys@)),
{
    if !shape.is_object || has_key(&shape.keys, "bandwidth") || has_key(&shape.keys, "ops") {
        return LimiterPlan::AsRecorded;
    }
    let mut bw: Vec<String> = Vec::new();
    if has_key(&shape.keys, "size") {
        bw.push(owned("size"));
    }
    let ghost a = texts(bw@);
    if has_key(&shape.keys, "one_time_burst") {
        bw.push(owned("one_time_burst"));
        assert(texts(bw@) =~= a.push("one_time_burst"@));
    }
    let ghost b = texts(bw@);
    if has_key(&shape.keys, "refill_time") {
        bw.push(owned("refill_time"));
        assert(texts(bw@) =~= b.push("refill_time"@));
    }
    assert(texts(bw@) =~= bucket_keys(texts(shape.keys@)));
    if bw.len() == 0 {
        return LimiterPlan::AsRecorded;
    }
    LimiterPlan::Regrouped { bandwidth_keys: bw }
}

fn plan_opt(s: &Option<LimiterShape>) -> (p: Option<LimiterPlan>)
    ensures
        match (*s, p) {
            (Some(sh), Some(pl)) => plan_view(pl) == limiter_plan_of(sh.is_object, texts(sh.keys@)),
            (None, None) => true,
            _ => false,
        },
{
    match s {
        Some(sh) => Some(limiter_plan(sh)),
        None => None,
    }
}

/// The kernel command line a Firecracker guest boots with.
pub const FC_BOOT_ARGS: &'static str = "console=ttyS0 reboot=k panic=1 pci=off init=/sbin/init";

/// The body of one Firecracker API call.
#[derive(Debug, Clone, PartialEq, Eq)]
pub enum FcBody {
    MachineConfig { vcpu_count: u8, mem_size_mib: u32, smt: bool },
    BootSource { kernel_image_path: String, boot_args: String },
    Drive {
        drive_id: String,
        path_on_host: String,
        is_root_device: bool,
        is_read_only: bool,
        cache_type: Option<String>,
        io_engine: Option<String>,
        rate_limiter: Option<LimiterPlan>,
    },
    NetworkInterface {
        iface_id: String,
        host_dev_name: String,
        guest_mac: Option<String>,
        rx_rate_limiter: Option<LimiterPlan>,
        tx_rate_limiter: Option<LimiterPlan>,
    },
    Logger { log_path: String },
    Serial { output_path: String },
    Metrics { metrics_path: String },
}

/// One Firecracker API call: the resource it is made on and its body.
#[derive(Debug, Clone, PartialEq, Eq)]
pub struct FcRequest {
    pub path: String,
    pub body: FcBody,
}

/// A drive recorded for a VM.
#[derive(Debug, Clone, PartialEq, Eq)]
pub struct FcDriveRow {
    pub drive_id: String,
    pub path_on_host: String,
    pub is_root_device: bool,
    pub is_read_only: bool,
    pub cache_type: Option<String>,
    pub io_engine: Option<String>,
    pub rate_limiter: Option<LimiterShape>,
}

/// A network interface recorded for a VM.
#[derive(Debug, Clone, PartialEq, Eq)]
pub struct FcNicRow {
    pub iface_id: String,
    pub host_dev_name: String,
    pub guest_mac: Option<String>,
    pub rx_rate_limiter: Option<LimiterShape>,
    pub tx_rate_limiter: Option<LimiterShape>,
}

/// A call body by its texts.
pub enum FcBodyView {
    MachineConfig { vcpu_count: u8, mem_size_mib: u32, smt: bool },
    BootSource { kernel_image_path: Seq<char>, boot_args: Seq<char> },
    Drive {
        drive_id: Seq<char>,
        path_on_host: Seq<char>,
        is_root_device: bool,
        is_read_only: bool,
        cache_type: Option<Seq<char>>,
        io_engine: Option<Seq<char>>,
        rate_limiter: Option<Option<Seq<Seq<char>>>>,
    },
    NetworkInterface {
        iface_id: Seq<char>,
        host_dev_name: Seq<char>,
        guest_mac: Option<Seq<char>>,
        rx_rate_limiter: Option<Option<Seq<Seq<char>>>>,
        tx_rate_limiter: Option<Option<Seq<Seq<char>>>>,
    },
    Logger { log_path: Seq<char> },
    Serial { output_path: Seq<char> },
    Metrics { metrics_path: Seq<char> },
}

pub open spec fn opt_text(o: Option<String>) -> Option<Seq<char>> {
    match o {
        Some(s) => Some(s@),
        None => None,
    }
}

pub open spec fn opt_plan(o: Option<LimiterPlan>) -> Option<Option<Seq<Seq<char>>>> {
    match o {
        Some(p) => Some(plan_view(p)),
        None => None,
    }
}

pub open spec fn opt_shape_plan(o: Option<LimiterShape>) -> Option<Option<Seq<Seq<char>>>> {
    match o {
        Some(sh) => Some(limiter_plan_of(sh.is_object, texts(sh.keys@))),
        None => None,
    }
}

pub open spec fn body_view(b: FcBody) -> FcBodyView {
    match b {
        FcBody::MachineConfig { vcpu_count, mem_size_mib, smt } => FcBodyView::MachineConfig { vcpu_count, mem_size_mib, smt },
        FcBody::BootSource { kernel_image_path, boot_args } => FcBodyView::BootSource {
            kernel_image_path: kernel_image_path@,
            boot_args: boot_args@,
        },
        FcBody::Drive { drive_id, path_on_host, is_root_device, is_read_only, cache_type, io_engine, rate_limiter } =>
            FcBodyView::Drive {
            drive_id: drive_id@,
            path_on_host: path_on_host@,
            is_root_device,
            is_read_only,
            cache_type: opt_text(cache_type),
            io_engine: opt_text(io_engine),
            rate_limiter: opt_plan(rate_limiter),
        },
        FcBody::NetworkInterface { iface_id, host_dev_name, guest_mac, rx_rate_limiter, tx_rate_limiter } =>
            FcBodyView::NetworkInterface {
            iface_id: iface_id@,
            host_dev_name: host_dev_name@,
            guest_mac: opt_text(guest_mac),
            rx_rate_limiter: opt_plan(rx_rate_limiter),
            tx_rate_limiter: opt_plan(tx_rate_limiter),
        },
        FcBody::Logger { log_path } => FcBodyView::Logger { log_path: log_path@ },
        FcBody::Serial { output_path } => FcBodyView::Serial { output_path: output_path@ },
        FcBody::Metrics { metrics_path } => FcBodyView::Metrics { metrics_path: metrics_path@ },
    }
}

pub open spec fn request_view(r: FcRequest) -> (Seq<char>, FcBodyView) {
    (r.path@, body_view(r.body))
}

/// The call that attaches a recorded drive.
pub open spec fn drive_call(d: FcDriveRow) -> (Seq<char>, FcBodyView) {
    (
        "drives/"@ + d.drive_id@,
        FcBodyView::Drive {
            drive_id: d.drive_id@,
            path_on_host: d.path_on_host@,
            is_root_device: d.is_root_device,
            is_read_only: d.is_read_only,
            cache_type: opt_text(d.cache_type),
            io_engine: opt_text(d.io_engine),
            rate_limiter: opt_shape_plan(d.rate_limiter),
        },
    )
}

/// The calls attaching the recorded drives, in order, up to the first one
/// whose file lies outside both roots, and the refusal for that one.
pub open spec fn drive_calls(drives: Seq<FcDriveRow>, image_root: Seq<char>, storage_root: Seq<char>) -> (
    Seq<(Seq<char>, FcBodyView)>,
    Option<Seq<char>>,
)
    decreases drives.len(),
{
    if drives.len() == 0 {
        (Seq::empty(), None)
    } else {
        let (prev, err) = drive_calls(drives.drop_last(), image_root, storage_root);
        let d = drives.last();
        if err is Some {
            (prev, err)
        } else if !(path_starts_with(d.path_on_host@, image_root) || path_starts_with(d.path_on_host@, storage_root)) {
            (prev, Some(outside_roots_text(d.path_on_host@)))
        } else {
            (prev.push(drive_call(d)), None)
        }
    }
}

/// The call that attaches a recorded network interface.
pub open spec fn nic_call(n: FcNicRow) -> (Seq<char>, FcBodyView) {
    (
        "network-interfaces/"@ + n.iface_id@,
        FcBodyView::NetworkInterface {
            iface_id: n.iface_id@,
            host_dev_name: n.host_dev_name@,
            guest_mac: opt_text(n.guest_mac),
            rx_rate_limiter: opt_shape_plan(n.rx_rate_limiter),
            tx_rate_limiter: opt_shape_plan(n.tx_rate_limiter),
        },
    )
}

/// The calls attaching the recorded network interfaces other than `eth0`, in order.
pub open spec fn nic_calls(nics: Seq<FcNicRow>) -> Seq<(Seq<char>, FcBodyView)>
    decreases nics.len(),
{
    if nics.len() == 0 {
        Seq::empty()
    } else {
        let prev = nic_calls(nics.drop_last());
        if nics.last().iface_id@ == "eth0"@ {
            prev
        } else {
            prev.push(nic_call(nics.last()))
        }
    }
}

/// The calls after the drives: the primary interface on the VM's TAP, the
/// other recorded interfaces, the logger, the serial console (not when
/// restoring a snapshot) and metrics (when enabled).
pub open spec fn tail_calls(
    paths: VmPaths,
    console_path: Seq<char>,
    metrics_enabled: bool,
    nics: Seq<FcNicRow>,
) -> Seq<(Seq<char>, FcBodyView)> {
    seq![(
        "network-interfaces/eth0"@,
        FcBodyView::NetworkInterface {
            iface_id: "eth0"@,
            host_dev_name: paths.tap@,
            guest_mac: None,
            rx_rate_limiter: None,
            tx_rate_limiter: None,
        },
    )] + nic_calls(nics) + seq![("logger"@, FcBodyView::Logger { log_path: paths.log_path@ })]
        + (if paths.snapshot_path is None {
        seq![("serial"@, FcBodyView::Serial { output_path: console_path })]
    } else {
        Seq::empty()
    }) + (if metrics_enabled {
        seq![("metrics"@, FcBodyView::Metrics { metrics_path: paths.metrics_path@ })]
    } else {
        Seq::empty()
    })
}

/// The calls that configure a microVM, in order, and the refusal that stops
/// them, if any: the machine size; unless a snapshot is restored, the boot
/// source, the root drive and the recorded drives (a drive outside both
/// roots stops the configuration there); then `tail_calls`.
pub open spec fn planned_calls(
    spec: ResolvedVmSpec,
    paths: VmPaths,
    console_path: Seq<char>,
    metrics_enabled: bool,
    drives: Seq<FcDriveRow>,
    nics: Seq<FcNicRow>,
    image_root: Seq<char>,
    storage_root: Seq<char>,
) -> (Seq<(Seq<char>, FcBodyView)>, Option<Seq<char>>) {
    let machine = seq![(
        "machine-config"@,
        FcBodyView::MachineConfig { vcpu_count: spec.vcpu, mem_size_mib: spec.mem_mib, smt: false },
    )];
    if paths.snapshot_path is Some {
        (machine + tail_calls(paths, console_path, metrics_enabled, nics), None)
    } else {
        let boot = seq![
            (
                "boot-source"@,
                FcBodyView::BootSource { kernel_image_path: spec.kernel_path@, boot_args: FC_BOOT_ARGS@ },
            ),
            (
                "drives/rootfs"@,
                FcBodyView::Drive {
                    drive_id: "rootfs"@,
                    path_on_host: spec.rootfs_path@,
                    is_root_device: true,
                    is_read_only: false,
                    cache_type: None,
                    io_engine: None,
                    rate_limiter: None,
                },
            ),
        ];
        let (dc, err) = drive_calls(drives, image_root, storage_root);
        if err is Some {
            (machine + boot + dc, err)
        } else {
            (machine + boot + dc + tail_calls(paths, console_path, metrics_enabled, nics), None)
        }
    }
}

fn copy_opt_text(o: &Option<String>) -> (c: Option<String>)
    ensures
        opt_text(c) == opt_text(*o),
{
    match o {
        Some(s) => Some(owned(s.as_str())),
        None => None,
    }
}

fn call(path: &str, body: FcBody) -> (r: FcRequest)
    ensures
        r.path@ == path@,
        r.body == body,
{
    FcRequest { path: owned(path), body }
}

/// Appends the calls of `tail_calls`.
fn push_tail_calls(
    out: &mut Vec<FcRequest>,
    paths: &VmPaths,
    console_path: &str,
    metrics_enabled: bool,
    nics: &[FcNicRow],
)
    ensures
        final(out)@.map_values(|r: FcRequest| request_view(r)) == old(out)@.map_values(|r: FcRequest| request_view(r))
            + tail_calls(*paths, console_path@, metrics_enabled, nics@),
{
    let ghost start = out@.map_values(|r: FcRequest| request_view(r));
    out.push(call(
        "network-interfaces/eth0",
        FcBody::NetworkInterface {
            iface_id: owned("eth0"),
            host_dev_name: owned(paths.tap.as_str()),
            guest_mac: None,
            rx_rate_limiter: None,
            tx_rate_limiter: None,
        },
    ));
    let ghost head = out@.map_values(|r: FcRequest| request_view(r));
    assert(head =~= start.push(request_view(out@.last())));
    let mut i: usize = 0;
    while i < nics.len()
        invariant
            0 <= i <= nics@.len(),
            out@.map_values(|r: FcRequest| request_view(r)) == head + nic_calls(nics@.take(i as int)),
        decreases nics@.len() - i,
    {
        let ghost before = out@;
        proof {
            reveal_strlit("eth0");
            assert(nics@.take(i + 1).drop_last() =~= nics@.take(i as int));
            assert(nics@.take(i + 1).last() == nics@[i as int]);
        }
        let n = &nics[i];
        if !str_eq(n.iface_id.as_str(), "eth0") {
            let mut path = owned("network-interfaces/");
            push_str(&mut path, n.iface_id.as_str());
            let body = FcBody::NetworkInterface {
                iface_id: owned(n.iface_id.as_str()),
                host_dev_name: owned(n.host_dev_name.as_str()),
                guest_mac: copy_opt_text(&n.guest_mac),
                rx_rate_limiter: plan_opt(&n.rx_rate_limiter),
                tx_rate_limiter: plan_opt(&n.tx_rate_limiter),
            };
            out.push(FcRequest { path, body });
            assert(out@.map_values(|r: FcRequest| request_view(r)) =~= before.map_values(|r: FcRequest| request_view(r)).push(
                request_view(out@.last()),
            ));
        }
        i = i + 1;
    }
    assert(nics@.take(nics@.len() as int) =~= nics@);
    let ghost mid = out@;
    out.push(call("logger", FcBody::Logger { log_path: owned(paths.log_path.as_str()) }));
    assert(out@.map_values(|r: FcRequest| request_view(r)) =~= mid.map_values(|r: FcRequest| request_view(r)).push(
        request_view(out@.last()),
    ));
    let ghost mid2 = out@;
    if paths.snapshot_path.is_none() {
        out.push(call("serial", FcBody::Serial { output_path: owned(console_path) }));
        assert(out@.map_values(|r: FcRequest| request_view(r)) =~= mid2.map_values(|r: FcRequest| request_view(r)).push(
            request_view(out@.last()),
        ));
    }
    let ghost mid3 = out@;
    if metrics_enabled {
        out.push(call("metrics", FcBody::Metrics { metrics_path: owned(paths.metrics_path.as_str()) }));
        assert(out@.map_values(|r: FcRequest| request_view(r)) =~= mid3.map_values(|r: FcRequest| request_view(r)).push(
            request_view(out@.last()),
        ));
    }
    assert(out@.map_values(|r: FcRequest| request_view(r)) =~= start + tail_calls(*paths, console_path@, metrics_enabled, nics@));
}

/// Appends the calls of `drive_calls` and returns its refusal, if any.
fn push_drive_calls(out: &mut Vec<FcRequest>, drives: &[FcDriveRow], image_root: &str, storage_root: &str) -> (err: Option<String>)
    ensures
        final(out)@.map_values(|q: FcRequest| request_view(q)) == old(out)@.map_values(|q: FcRequest| request_view(q))
            + drive_calls(drives@, image_root@, storage_root@).0,
        opt_text(err) == drive_calls(drives@, image_root@, storage_root@).1,
{
    let ghost head = out@.map_values(|q: FcRequest| request_view(q));
    let mut i: usize = 0;
    while i < drives.len()
        invariant
            0 <= i <= drives@.len(),
            drive_calls(drives@.take(i as int), image_root@, storage_root@).1 is None,
            head == old(out)@.map_values(|q: FcRequest| request_view(q)),
            out@.map_values(|q: FcRequest| request_view(q)) == head + drive_calls(drives@.take(i as int), image_root@, storage_root@).0,
        decreases drives@.len() - i,
    {
        let ghost before = out@;
        proof {
            assert(drives@.take(i + 1).drop_last() =~= drives@.take(i as int));
            assert(drives@.take(i + 1).last() == drives@[i as int]);
        }
        let d = &drives[i];
        match ensure_allowed_path(d.path_on_host.as_str(), image_root, storage_root) {
            Err(msg) => {
                proof {
                    let t = drives@.take(i + 1);
                    assert(t.drop_last() =~= drives@.take(i as int));
                    assert(drive_calls(t, image_root@, storage_root@) == (
                        drive_calls(drives@.take(i as int), image_root@, storage_root@).0,
                        Some(outside_roots_text(d.path_on_host@)),
                    ));
                    lemma_drive_calls_stop(drives@, image_root@, storage_root@, i + 1);
                }
                return Some(msg);
            },
            Ok(()) => {},
        }
        let mut path = owned("drives/");
        push_str(&mut path, d.drive_id.as_str());
        let body = FcBody::Drive {
            drive_id: owned(d.drive_id.as_str()),
            path_on_host: owned(d.path_on_host.as_str()),
            is_root_device: d.is_root_device,
            is_read_only: d.is_read_only,
            cache_type: copy_opt_text(&d.cache_type),
            io_engine: copy_opt_text(&d.io_engine),
            rate_limiter: plan_opt(&d.rate_limiter),
        };
        out.push(FcRequest { path, body });
        assert(out@.map_values(|q: FcRequest| request_view(q)) =~= before.map_values(|q: FcRequest| request_view(q)).push(
            request_view(out@.last()),
        ));
        i = i + 1;
    }
    assert(drives@.take(drives@.len() as int) =~= drives@);
    None
}

/// The Firecracker calls that configure a microVM, as `planned_calls`
/// orders them, and the refusal to report once they are made, if any.
/// `console_path` is where the serial console writes; `metrics_enabled`
/// says whether metrics are collected.
pub fn firecracker_requests(
    spec: &ResolvedVmSpec,
    paths: &VmPaths,
    console_path: &str,
    metrics_enabled: bool,
    drives: &[FcDriveRow],
    nics: &[FcNicRow],
    image_root: &str,
    storage_root: &str,
) -> (r: (Vec<FcRequest>, Option<String>))
    ensures
        (r.0@.map_values(|q: FcRequest| request_view(q)), opt_text(r.1)) == planned_calls(
            *spec,
            *paths,
            console_path@,
            metrics_enabled,
            drives@,
            nics@,
            image_root@,
            storage_root@,
        ),
{
    let mut out: Vec<FcRequest> = Vec::new();
    out.push(call("machine-config", FcBody::MachineConfig { vcpu_count: spec.vcpu, mem_size_mib: spec.mem_mib, smt: false }));
    if paths.snapshot_path.is_some() {
        push_tail_calls(&mut out, paths, console_path, metrics_enabled, nics);
        return (out, None);
    }
    out.push(call(
        "boot-source",
        FcBody::BootSource { kernel_image_path: owned(spec.kernel_path.as_str()), boot_args: owned(FC_BOOT_ARGS) },
    ));
    out.push(call(
        "drives/rootfs",
        FcBody::Drive {
            drive_id: owned("rootfs"),
            path_on_host: owned(spec.rootfs_path.as_str()),
            is_root_device: true,
            is_read_only: false,
            cache_type: None,
            io_engine: None,
            rate_limiter: None,
        },
    ));
    match push_drive_calls(&mut out, drives, image_root, storage_root) {
        Some(msg) => {
            return (out, Some(msg));
        },
        None => {},
    }
    push_tail_calls(&mut out, paths, console_path, metrics_enabled, nics);
    (out, None)
}

/// Once the drive calls stop at a refusal, later drives change nothing.
proof fn lemma_drive_calls_stop(drives: Seq<FcDriveRow>, image_root: Seq<char>, storage_root: Seq<char>, k: int)
    requires
        0 <= k <= drives.len(),
        drive_calls(drives.take(k), image_root, storage_root).1 is Some,
    ensures
        drive_calls(drives, image_root, storage_root) == drive_calls(drives.take(k), image_root, storage_root),
    decreases drives.len() - k,
{
    if k < drives.len() {
        assert(drives.take(k + 1).drop_last() =~= drives.take(k));
        lemma_drive_calls_stop(drives, image_root, storage_root, k + 1);
    } else {
        assert(drives.take(k) =~= drives);
    }
}

/// The URL of a Firecracker API resource through the agent's proxy for VM `id`.
pub open spec fn proxy_url_text(host_addr: Seq<char>, id: Seq<u8>, resource: Seq<char>, sock: Seq<char>) -> Seq<char> {
    host_addr + "/agent/v1/vms/"@ + uuid_text(id) + "/proxy/"@ + resource + "?sock="@ + percent_encoded(
        encode_utf8_of(sock),
    )
}

/// The URL of a Firecracker API resource through the agent's proxy.
pub fn proxy_url(host_addr: &str, id: [u8; 16], resource: &str, sock: &str) -> (u: String)
    ensures
        u@ == proxy_url_text(host_addr@, id@, resource@, sock@),
{
    let mut u = owned(host_addr);
    push_str(&mut u, "/agent/v1/vms/");
    let idt = uuid_hyphenated(id);
    push_str(&mut u, idt.as_str());
    push_str(&mut u, "/proxy/");
    push_str(&mut u, resource);
    push_str(&mut u, "?sock=");
    let enc = url_encode(sock);
    push_str(&mut u, enc.as_str());
    u
}

/// The drive calls stop at a refusal exactly when some recorded drive lies
/// outside both roots; otherwise there is one call per recorded drive.
proof fn lemma_drive_calls_refusal(drives: Seq<FcDriveRow>, image_root: Seq<char>, storage_root: Seq<char>)
    ensures
        drive_calls(drives, image_root, storage_root).1 is Some <==> exists|i: int|
            0 <= i < drives.len() && !(path_starts_with(#[trigger] drives[i].path_on_host@, image_root)
                || path_starts_with(drives[i].path_on_host@, storage_root)),
        drive_calls(drives, image_root, storage_root).1 is None ==> drive_calls(drives, image_root, storage_root).0.len()
            == drives.len(),
    decreases drives.len(),
{
    if drives.len() > 0 {
        let d = drives.drop_last();
        lemma_drive_calls_refusal(d, image_root, storage_root);
        assert forall|i: int| 0 <= i < d.len() implies #[trigger] d[i] == drives[i] by {}
        if drive_calls(d, image_root, storage_root).1 is Some {
            let j = choose|j: int| 0 <= j < d.len() && !(path_starts_with(#[trigger] d[j].path_on_host@, image_root)
                || path_starts_with(d[j].path_on_host@, storage_root));
            assert(drives[j] == d[j]);
        } else {
            if exists|i: int| 0 <= i < drives.len() && !(path_starts_with(#[trigger] drives[i].path_on_host@, image_root)
                || path_starts_with(drives[i].path_on_host@, storage_root)) {
                let i = choose|i: int| 0 <= i < drives.len() && !(path_starts_with(#[trigger] drives[i].path_on_host@, image_root)
                    || path_starts_with(drives[i].path_on_host@, storage_root));
                if i < d.len() {
                    assert(d[i] == drives[i]);
                }
            }
        }
    }
}

/// What configuring a microVM always does: the first call sizes the machine
/// with the spec's vCPU count and memory and no SMT; a restore from a
/// snapshot makes no boot-source, drive or serial call, so after the
/// machine size comes the primary interface on the VM's TAP; a fresh boot
/// then sets the spec's kernel with the fixed boot arguments and attaches
/// its root file system as a writable root drive. The calls stop with a
/// refusal exactly when, on a fresh boot, a recorded drive lies outside both
/// roots.
pub proof fn firecracker_call_order(
    spec: ResolvedVmSpec,
    paths: VmPaths,
    console_path: Seq<char>,
    metrics_enabled: bool,
    drives: Seq<FcDriveRow>,
    nics: Seq<FcNicRow>,
    image_root: Seq<char>,
    storage_root: Seq<char>,
)
    ensures
        ({
            let (calls, err) = planned_calls(spec, paths, console_path, metrics_enabled, drives, nics, image_root, storage_root);
            &&& calls.len() >= 2
            &&& calls[0] == ("machine-config"@, FcBodyView::MachineConfig { vcpu_count: spec.vcpu, mem_size_mib: spec.mem_mib, smt: false })
            &&& paths.snapshot_path is Some ==> err is None && calls[1] == (
                "network-interfaces/eth0"@,
                FcBodyView::NetworkInterface {
                    iface_id: "eth0"@,
                    host_dev_name: paths.tap@,
                    guest_mac: None,
                    rx_rate_limiter: None,
                    tx_rate_limiter: None,
                },
            )
            &&& paths.snapshot_path is None ==> calls.len() >= 3 && calls[1] == (
                "boot-source"@,
                FcBodyView::BootSource {
                    kernel_image_path: spec.kernel_path@,
                    boot_args: "console=ttyS0 reboot=k panic=1 pci=off init=/sbin/init"@,
                },
            ) && calls[2] == (
                "drives/rootfs"@,
                FcBodyView::Drive {
                    drive_id: "rootfs"@,
                    path_on_host: spec.rootfs_path@,
                    is_root_device: true,
                    is_read_only: false,
                    cache_type: None,
                    io_engine: None,
                    rate_limiter: None,
                },
            )
            &&& (err is Some <==> (paths.snapshot_path is None && exists|i: int|
                0 <= i < drives.len() && !(path_starts_with(#[trigger] drives[i].path_on_host@, image_root)
                    || path_starts_with(drives[i].path_on_host@, storage_root))))
        }),
{
    lemma_drive_calls_refusal(drives, image_root, storage_root);
}

/// A recorded limiter already in Firecracker's shape, or one that is not an
/// object, is sent as recorded; a flat object with some token-bucket member
/// is regrouped under `bandwidth`, keeping exactly its token-bucket members.
pub proof fn limiter_plan_rules(is_object: bool, keys: Seq<Seq<char>>)
    ensures
        !is_object ==> limiter_plan_of(is_object, keys) is None,
        keys.contains("bandwidth"@) || keys.contains("ops"@) ==> limiter_plan_of(is_object, keys) is None,
        limiter_plan_of(is_object, keys) is Some ==> ({
            let bw = limiter_plan_of(is_object, keys)->Some_0;
            bw.len() > 0 && forall|i: int| 0 <= i < bw.len() ==> keys.contains(#[trigger] bw[i])
                && (bw[i] == "size"@ || bw[i] == "one_time_burst"@ || bw[i] == "refill_time"@)
        }),
        is_object && !keys.contains("bandwidth"@) && !keys.contains("ops"@) && keys.contains("size"@)
            ==> (limiter_plan_of(is_object, keys) is Some && limiter_plan_of(is_object, keys)->Some_0[0] == "size"@),
{
    let bw = bucket_keys(keys);
    if keys.contains("size"@) {
        assert(bw[0] == "size"@);
    }
}

} // verus!
