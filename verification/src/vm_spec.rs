//! Where a VM's kernel and root filesystem may live, and the spec a VM is
//! rebuilt from when it is restored from a snapshot or restarted from its
//! stored row.

use vstd::prelude::*;
use crate::text::{owned, push_str};

verus! {

/// Whether `base` is a prefix of `path` in whole path components, as
/// `Path::starts_with` decides it.
pub uninterp spec fn path_starts_with(path: Seq<char>, base: Seq<char>) -> bool;

/// Calls `Path::starts_with`; the answer is named `path_starts_with`.
#[verifier::external_body]
fn path_within(path: &str, base: &str) -> (b: bool)
    ensures
        b == path_starts_with(path@, base@),
{
    std::path::Path::new(path).starts_with(base)
}

/// Whether a host path lies under the image root or the storage root.
pub fn path_allowed(path: &str, image_root: &str, storage_root: &str) -> (b: bool)
    ensures
        b == (path_starts_with(path@, image_root@) || path_starts_with(path@, storage_root@)),
{
    path_within(path, image_root) || path_within(path, storage_root)
}

/// The refusal for a path outside both roots.
pub open spec fn outside_roots_text(path: Seq<char>) -> Seq<char> {
    "path "@ + path + " is not within the configured image root or storage root"@
}

/// Accepts a host path under the image root or the storage root, and
/// refuses any other with `outside_roots_text`.
pub fn ensure_allowed_path(path: &str, image_root: &str, storage_root: &str) -> (r: Result<(), String>)
    ensures
        r is Ok <==> (path_starts_with(path@, image_root@) || path_starts_with(path@, storage_root@)),
        r matches Err(msg) ==> msg@ == outside_roots_text(path@),
{
    if path_allowed(path, image_root, storage_root) {
        return Ok(());
    }
    let mut msg = owned("path ");
    push_str(&mut msg, path);
    push_str(&mut msg, " is not within the configured image root or storage root");
    Err(msg)
}

/// What a kernel or root filesystem request resolves to: the registered
/// image's host path when an image was named (its lookup happens outside),
/// else a direct host path when direct paths are allowed; either must lie
/// under one of the roots.
pub open spec fn image_path_outcome(
    field: Seq<char>,
    image_path: Option<Seq<char>>,
    direct_path: Option<Seq<char>>,
    allow_direct: bool,
    image_root: Seq<char>,
    storage_root: Seq<char>,
) -> Result<Seq<char>, Seq<char>> {
    let allowed = |p: Seq<char>| path_starts_with(p, image_root) || path_starts_with(p, storage_root);
    match image_path {
        Some(p) => if allowed(p) { Ok(p) } else { Err(outside_roots_text(p)) },
        None => match direct_path {
            Some(p) => if !allow_direct {
                Err(field + " path not permitted in production mode"@)
            } else if allowed(p) {
                Ok(p)
            } else {
                Err(outside_roots_text(p))
            },
            None => Err(field + " requires an image id or host path"@),
        },
    }
}

/// The view of a string result.
pub open spec fn string_result_view(r: Result<String, String>) -> Result<Seq<char>, Seq<char>> {
    match r {
        Ok(s) => Ok(s@),
        Err(e) => Err(e@),
    }
}

/// Resolves the host path of a kernel or root filesystem as
/// `image_path_outcome` describes.
pub fn resolve_image_path(
    field: &str,
    image_path: Option<String>,
    direct_path: Option<String>,
    allow_direct: bool,
    image_root: &str,
    storage_root: &str,
) -> (r: Result<String, String>)
    ensures
        string_result_view(r) == image_path_outcome(
            field@,
            match image_path { Some(p) => Some(p@), None => None },
            match direct_path { Some(p) => Some(p@), None => None },
            allow_direct,
            image_root@,
            storage_root@,
        ),
{
    match image_path {
        Some(p) => {
            ensure_allowed_path(p.as_str(), image_root, storage_root)?;
            Ok(p)
        },
        None => match direct_path {
            Some(p) => {
                if !allow_direct {
                    let mut msg = owned(field);
                    push_str(&mut msg, " path not permitted in production mode");
                    return Err(msg);
                }
                ensure_allowed_path(p.as_str(), image_root, storage_root)?;
                Ok(p)
            },
            None => {
                let mut msg = owned(field);
                push_str(&mut msg, " requires an image id or host path");
                Err(msg)
            },
        },
    }
}

/// The resources a VM is started with.
#[derive(Debug, Clone, PartialEq, Eq)]
pub struct ResolvedVmSpec {
    pub name: String,
    pub vcpu: u8,
    pub mem_mib: u32,
    pub kernel_path: String,
    pub rootfs_path: String,
    pub rootfs_size_bytes: Option<u64>,
}

/// The refusal `snapshot_spec` reports, if any: the kernel path, then the
/// root filesystem path, must lie under a root; the stored vCPU count must
/// fit in a byte and the stored memory size must not be negative.
pub open spec fn snapshot_spec_error(
    vcpu: i32,
    mem_mib: i32,
    kernel: Seq<char>,
    rootfs: Seq<char>,
    image_root: Seq<char>,
    storage_root: Seq<char>,
) -> Option<Seq<char>> {
    if !(path_starts_with(kernel, image_root) || path_starts_with(kernel, storage_root)) {
        Some(outside_roots_text(kernel))
    } else if !(path_starts_with(rootfs, image_root) || path_starts_with(rootfs, storage_root)) {
        Some(outside_roots_text(rootfs))
    } else if !(0 <= vcpu <= 255) {
        Some("stored vcpu exceeds u8"@)
    } else if mem_mib < 0 {
        Some("stored mem_mib negative"@)
    } else {
        None
    }
}

/// The spec a VM is rebuilt from its stored row with, as a snapshot
/// restore and a restart do: both paths are checked against the roots and
/// the stored sizes are narrowed with checks; the root filesystem keeps its
/// stored path and no new size.
pub fn snapshot_spec(
    name: String,
    vcpu: i32,
    mem_mib: i32,
    kernel: &str,
    rootfs: &str,
    image_root: &str,
    storage_root: &str,
) -> (r: Result<ResolvedVmSpec, String>)
    ensures
        r is Ok <==> snapshot_spec_error(vcpu, mem_mib, kernel@, rootfs@, image_root@, storage_root@) is None,
        r matches Err(msg) ==> Some(msg@) == snapshot_spec_error(
            vcpu,
            mem_mib,
            kernel@,
            rootfs@,
            image_root@,
            storage_root@,
        ),
        r matches Ok(spec) ==> spec.name@ == name@ && spec.vcpu == vcpu && spec.mem_mib == mem_mib
            && spec.kernel_path@ == kernel@ && spec.rootfs_path@ == rootfs@ && spec.rootfs_size_bytes is None,
{
    ensure_allowed_path(kernel, image_root, storage_root)?;
    ensure_allowed_path(rootfs, image_root, storage_root)?;
    if vcpu < 0 || vcpu > 255 {
        return Err(owned("stored vcpu exceeds u8"));
    }
    if mem_mib < 0 {
        return Err(owned("stored mem_mib negative"));
    }
    Ok(ResolvedVmSpec {
        name,
        vcpu: vcpu as u8,
        mem_mib: mem_mib as u32,
        kernel_path: owned(kernel),
        rootfs_path: owned(rootfs),
        rootfs_size_bytes: None,
    })
}

/// A kernel or root filesystem path that resolves lies under the image
/// root or the storage root, and is the registered image's path when an
/// image was named, else the direct path, which is taken only where direct
/// paths are allowed; in production a direct path is refused.
pub proof fn resolved_paths_stay_under_the_roots(
    field: Seq<char>,
    image_path: Option<Seq<char>>,
    direct_path: Option<Seq<char>>,
    allow_direct: bool,
    image_root: Seq<char>,
    storage_root: Seq<char>,
)
    ensures
        image_path_outcome(field, image_path, direct_path, allow_direct, image_root, storage_root) matches Ok(p) ==> (
            path_starts_with(p, image_root) || path_starts_with(p, storage_root)) && (match image_path {
            Some(ip) => p == ip,
            None => allow_direct && direct_path == Some(p),
        }),
        image_path is None && direct_path is Some && !allow_direct ==> image_path_outcome(
            field,
            image_path,
            direct_path,
            allow_direct,
            image_root,
            storage_root,
        ) == Err::<Seq<char>, Seq<char>>(field + " path not permitted in production mode"@),
        image_path is None && direct_path is None ==> image_path_outcome(
            field,
            image_path,
            direct_path,
            allow_direct,
            image_root,
            storage_root,
        ) == Err::<Seq<char>, Seq<char>>(field + " requires an image id or host path"@),
{
}

/// A rebuilt spec is refused exactly when a path lies outside both roots,
/// the stored vCPU count does not fit in a byte, or the stored memory size
/// is negative; the paths are checked first, the kernel's before the root
/// filesystem's.
pub proof fn snapshot_spec_refusals(
    vcpu: i32,
    mem_mib: i32,
    kernel: Seq<char>,
    rootfs: Seq<char>,
    image_root: Seq<char>,
    storage_root: Seq<char>,
)
    ensures
        snapshot_spec_error(vcpu, mem_mib, kernel, rootfs, image_root, storage_root) is None <==> (path_starts_with(
            kernel,
            image_root,
        ) || path_starts_with(kernel, storage_root)) && (path_starts_with(rootfs, image_root) || path_starts_with(
            rootfs,
            storage_root,
        )) && 0 <= vcpu <= 255 && mem_mib >= 0,
        !(path_starts_with(kernel, image_root) || path_starts_with(kernel, storage_root)) ==> snapshot_spec_error(
            vcpu,
            mem_mib,
            kernel,
            rootfs,
            image_root,
            storage_root,
        ) == Some("path "@ + kernel + " is not within the configured image root or storage root"@),
        (path_starts_with(kernel, image_root) || path_starts_with(kernel, storage_root)) && (path_starts_with(
            rootfs,
            image_root,
        ) || path_starts_with(rootfs, storage_root)) && (vcpu < 0 || vcpu > 255) ==> snapshot_spec_error(
            vcpu,
            mem_mib,
            kernel,
            rootfs,
            image_root,
            storage_root,
        ) == Some("stored vcpu exceeds u8"@),
{
}

} // verus!
