# nexus_core

The verified core of a self-hosted microVM platform.

- `src/` is the library, written in Verus. Its own functions carry
  contracts and are proved against them. The calls it makes into other
  crates and into the parts of std that Verus does not specify (hashing,
  encryption, compression, chunking, UUID and path handling, the order of
  election votes) go through small functions marked
  `#[verifier::external_body]`: their contracts are trusted, not proved,
  and each says in its doc comment what it assumes.
  - `block`, `replica`, `cluster`, `persistent`, `sidecar`, `raft_apply`,
    `raft_vote`: a replicated block device model — checksummed log entries,
    replicas that apply them idempotently, a quorum-committing cluster with
    leader fencing and repair, replicas that save themselves after every
    change, the on-disk layout of a saved replica, applying a consensus log
    and granting election votes.
  - `backup`: content-defined chunking, convergent chunk encryption,
    manifest encryption and compression, object keys.
  - `vmm`, `provision`, `rootfs`, `ipalloc`, `guest_net`, `vm_spec`, `nic`,
    `migration`, `qemu_plan`, `firecracker`, `vm_backup`, `port_forward`:
    VMM capability tables and the rules applied when a guest is provisioned,
    configured, booted, restored, given another NIC or port forward, backed
    up or moved to another host.
  - `storage`, `api_types`, `manager_api`, `volume_api`, `cli`, `json`:
    storage locators and errors, API bodies, client settings, URLs and
    table rows.
- `app/` holds the glue that touches the outside world: files,
  serialization formats and async readers. The manager service itself
  (its HTTP routes, database access and agent calls) is not part of this
  crate; the decisions it takes are, as library functions it can call.
- `tests/` runs the library on concrete values.
