//! Bodies of the manager's VM endpoints and its image download tracker.

use vstd::prelude::*;

verus! {

/// The console login of a VM.
#[derive(Debug, Clone, PartialEq, Eq)]
pub struct VmShellCredentialResponse {
    pub username: String,
    pub password: String,
}

/// An error answered by a VM endpoint, with the VMM's own message when it gave one.
#[derive(Debug, Clone, PartialEq, Eq)]
pub struct ErrorResponse {
    pub error: String,
    pub fault_message: Option<String>,
}

/// A guest reporting the address it obtained.
#[derive(Debug, Clone, PartialEq, Eq)]
pub struct UpdateGuestIpReq {
    pub guest_ip: String,
}

/// How far the download of an image has got.
#[derive(Debug, Clone, PartialEq, Eq)]
pub struct DownloadProgress {
    pub image: String,
    pub status: String,
    pub current_bytes: i64,
    pub total_bytes: i64,
    pub completed: bool,
    pub error: Option<String>,
}

} // verus!
