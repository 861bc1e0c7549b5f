//! Verified core of a replicated block store and the pure rules around it:
//! log entries with checksums, replicas that apply them idempotently,
//! a quorum-committing cluster model, persistent replica state, VMM
//! capability tables, storage locators, backup transforms and the small
//! text builders used when provisioning guests.

pub mod block;
pub mod replica;
pub mod cluster;
pub mod persistent;
pub mod text;
pub mod vmm;
pub mod storage;
pub mod api_types;
pub mod backup;
pub mod cli;
pub mod provision;
pub mod rootfs;
pub mod ipalloc;
pub mod guest_net;
pub mod json;
pub mod manager_api;
pub mod volume_api;
pub mod sidecar;
pub mod vm_spec;
pub mod nic;
pub mod migration;
pub mod qemu_plan;
pub mod vm_backup;
pub mod firecracker;
pub mod raft_apply;
pub mod raft_vote;
pub mod port_forward;
