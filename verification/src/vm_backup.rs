//! How a VM's disk is backed up: through the volume backup pipeline when
//! its root disk is a volume and a backup target is named, otherwise by
//! copying its overlay to a destination the caller names.

use vstd::prelude::*;
use crate::text::owned;

verus! {

/// The way a VM backup is taken.
#[derive(Debug, Clone, PartialEq, Eq)]
pub enum BackupMode {
    /// Chunk, encrypt and upload the root volume to the backup target.
    Volume { volume_id: [u8; 16], target_id: [u8; 16] },
    /// Have the agent convert the root overlay into `destination`.
    Overlay { destination: String, format: String, compress: bool },
}

/// A refused backup request: the HTTP status, the error and its detail.
#[derive(Debug, Clone, PartialEq, Eq)]
pub struct BackupRefusal {
    pub status: u16,
    pub error: String,
    pub detail: String,
}

/// Chooses how to back up a VM: the volume pipeline when the root disk is a
/// volume and a target is named; else the overlay copy, which needs a
/// destination (refused with 400 without one) and writes `qcow2` unless a
/// format is named.
pub fn backup_mode(
    root_volume: Option<[u8; 16]>,
    target_id: Option<[u8; 16]>,
    destination: Option<String>,
    format: Option<String>,
    compress: bool,
) -> (r: Result<BackupMode, BackupRefusal>)
    ensures
        root_volume is Some && target_id is Some ==> r == Ok::<BackupMode, BackupRefusal>(
            BackupMode::Volume { volume_id: root_volume->0, target_id: target_id->0 },
        ),
        !(root_volume is Some && target_id is Some) && destination is None ==> (r matches Err(e) && e.status
            == 400 && e.error@ == "destination_path required for overlay-backed VMs"@ && e.detail@
            == "VM has no volume_attachment; provide destination_path on a backup-target filesystem"@),
        !(root_volume is Some && target_id is Some) && destination is Some ==> (r matches Ok(
            BackupMode::Overlay { destination: d, format: f, compress: c },
        ) && d@ == destination->0@ && c == compress && f@ == match format {
            Some(f) => f@,
            None => "qcow2"@,
        }),
{
    match (root_volume, target_id) {
        (Some(volume_id), Some(target_id)) => {
            return Ok(BackupMode::Volume { volume_id, target_id });
        },
        _ => {},
    }
    match destination {
        None => Err(BackupRefusal {
            status: 400,
            error: owned("destination_path required for overlay-backed VMs"),
            detail: owned("VM has no volume_attachment; provide destination_path on a backup-target filesystem"),
        }),
        Some(destination) => {
            let format = match format {
                Some(f) => f,
                None => owned("qcow2"),
            };
            Ok(BackupMode::Overlay { destination, format, compress })
        },
    }
}

} // verus!
