//! Storage backend descriptions, errors, attach results and the locators of
//! SPDK and replicated volumes.

use vstd::prelude::*;
use crate::text::{blank, is_blank, owned, push_char, push_str};

verus! {

/// What kind of storage system a backend speaks.
#[derive(Debug, Clone, Copy, PartialEq, Eq, Hash, Structural)]
pub enum BackendKind {
    LocalFile,
    Iscsi,
    TrueNasIscsi,
}

impl BackendKind {
    /// The name the kind is stored under.
    pub fn as_db_str(&self) -> (s: &'static str)
        ensures
            s@ == (match *self {
                BackendKind::LocalFile => "local_file"@,
                BackendKind::Iscsi => "iscsi"@,
                BackendKind::TrueNasIscsi => "truenas_iscsi"@,
            }),
    {
        match self {
            BackendKind::LocalFile => "local_file",
            BackendKind::Iscsi => "iscsi",
            BackendKind::TrueNasIscsi => "truenas_iscsi",
        }
    }
}

/// Capability bits consulted for placement and gating.
#[derive(Debug, Clone, Copy, PartialEq, Eq, Structural)]
pub struct Capabilities {
    pub supports_native_snapshots: bool,
    pub supports_concurrent_attach: bool,
    pub supports_live_migration: bool,
    pub supports_clone_from_image: bool,
}

impl Default for Capabilities {
    /// Every capability off: backends opt in.
    fn default() -> (c: Self)
        ensures
            !c.supports_native_snapshots,
            !c.supports_concurrent_attach,
            !c.supports_live_migration,
            !c.supports_clone_from_image,
    {
        Capabilities {
            supports_native_snapshots: false,
            supports_concurrent_attach: false,
            supports_live_migration: false,
            supports_clone_from_image: false,
        }
    }
}

/// Volume creation options.
#[derive(Debug, Clone)]
pub struct CreateOpts {
    pub name: String,
    pub size_bytes: u64,
    pub description: Option<String>,
}

/// Why a storage operation failed.
#[derive(Debug)]
pub enum StorageError {
    AlreadyAttached,
    NotSupported(String),
    NotFound,
    InvalidLocator(String),
    Io(String),
    Backend(String),
}

/// The text a storage error is shown as.
pub open spec fn storage_error_text(e: StorageError) -> Seq<char> {
    match e {
        StorageError::AlreadyAttached => "volume already attached"@,
        StorageError::NotSupported(m) => "operation not supported: "@ + m@,
        StorageError::NotFound => "volume not found"@,
        StorageError::InvalidLocator(m) => "invalid volume locator: "@ + m@,
        StorageError::Io(m) => "io error: "@ + m@,
        StorageError::Backend(m) => "backend error: "@ + m@,
    }
}

impl StorageError {
    /// A backend failure described by `message`.
    pub fn backend(message: String) -> (e: Self)
        ensures
            e == StorageError::Backend(message),
    {
        StorageError::Backend(message)
    }

    /// The text the error is shown as.
    pub fn message(&self) -> (s: String)
        ensures
            s@ == storage_error_text(*self),
    {
        match self {
            StorageError::AlreadyAttached => owned("volume already attached"),
            StorageError::NotSupported(m) => {
                let mut s = owned("operation not supported: ");
                push_str(&mut s, m.as_str());
                s
            },
            StorageError::NotFound => owned("volume not found"),
            StorageError::InvalidLocator(m) => {
                let mut s = owned("invalid volume locator: ");
                push_str(&mut s, m.as_str());
                s
            },
            StorageError::Io(m) => {
                let mut s = owned("io error: ");
                push_str(&mut s, m.as_str());
                s
            },
            StorageError::Backend(m) => {
                let mut s = owned("backend error: ");
                push_str(&mut s, m.as_str());
                s
            },
        }
    }
}

/// What attaching a volume hands back: a path of some nature.
#[derive(Debug, Clone)]
pub enum AttachedPath {
    File(String),
    BlockDevice(String),
    VhostUserSock(String),
}

impl AttachedPath {
    /// The path, whatever its nature.
    pub fn path(&self) -> (p: &str)
        ensures
            p@ == (match self {
                AttachedPath::File(p) => p@,
                AttachedPath::BlockDevice(p) => p@,
                AttachedPath::VhostUserSock(p) => p@,
            }),
    {
        match self {
            AttachedPath::File(p) => p.as_str(),
            AttachedPath::BlockDevice(p) => p.as_str(),
            AttachedPath::VhostUserSock(p) => p.as_str(),
        }
    }
}

/// Where an SPDK logical volume lives.
#[derive(Debug, Clone, PartialEq, Eq)]
pub struct SpdkLvolLocator {
    pub lvs_name: String,
    pub lvol_name: String,
    pub lvol_uuid: String,
    pub size_bytes: u64,
}

/// A client for the SPDK JSON-RPC socket at `socket`.
#[derive(Debug, Clone)]
pub struct SpdkJsonRpcClient {
    socket: String,
}

impl SpdkJsonRpcClient {
    pub closed spec fn socket_path(&self) -> Seq<char> {
        self.socket@
    }

    pub fn new(socket: String) -> (c: Self)
        ensures
            c.socket_path() == socket@,
    {
        SpdkJsonRpcClient { socket }
    }

    pub fn socket(&self) -> (s: &str)
        ensures
            s@ == self.socket_path(),
    {
        self.socket.as_str()
    }
}

pub const MIB: u64 = 1048576;

/// The size, in whole MiB rounded up and at least one, asked of SPDK for a
/// volume of `size_bytes` bytes.
pub fn lvol_size_in_mib(size_bytes: u64) -> (m: u64)
    ensures
        m as int == if size_bytes == 0 {
            1
        } else {
            (size_bytes as int + 1048575) / 1048576
        },
{
    let q = size_bytes / MIB;
    let rounded = if size_bytes % MIB == 0 { q } else { q + 1 };
    if rounded == 0 { 1 } else { rounded }
}

/// The lowercase hexadecimal digit for `d < 16`.
pub open spec fn hex_digit(d: u8) -> char {
    if d < 10 {
        ('0' as u8 + d) as char
    } else {
        ('a' as u8 + d - 10) as char
    }
}

/// Two lowercase hexadecimal digits per byte, most significant first.
pub open spec fn hex_lower(bytes: Seq<u8>) -> Seq<char>
    decreases bytes.len(),
{
    if bytes.len() == 0 {
        Seq::empty()
    } else {
        seq![hex_digit(bytes[0] / 16), hex_digit(bytes[0] % 16)] + hex_lower(bytes.drop_first())
    }
}

/// Calls `uuid::Uuid::from_bytes(bytes).simple().to_string()`: the simple
/// format is the 32 lowercase hexadecimal digits of the bytes, in order.
#[verifier::external_body]
fn uuid_simple(bytes: [u8; 16]) -> (s: String)
    ensures
        s@ == hex_lower(bytes@),
{
    uuid::Uuid::from_bytes(bytes).simple().to_string()
}

/// The name of the vhost controller serving volume `volume_id`.
pub fn spdk_vhost_controller_name(volume_id: [u8; 16]) -> (s: String)
    ensures
        s@ == "nq."@ + hex_lower(volume_id@),
{
    let mut s = owned("nq.");
    let id = uuid_simple(volume_id);
    push_str(&mut s, id.as_str());
    s
}

/// The socket a replicated block device of group `group_id` is served on, under `socket_dir`.
pub fn raftblk_socket_path(socket_dir: &str, group_id: [u8; 16]) -> (p: String)
    ensures
        p@ == joined_path(socket_dir@, "nq-raftblk-"@ + hex_lower(group_id@) + ".sock"@),
{
    let mut name = owned("nq-raftblk-");
    let id = uuid_simple(group_id);
    push_str(&mut name, id.as_str());
    push_str(&mut name, ".sock");
    path_join(socket_dir, name.as_str())
}

/// The path `PathBuf::join` forms from a directory and a relative name.
pub uninterp spec fn joined_path(dir: Seq<char>, name: Seq<char>) -> Seq<char>;

/// Calls `Path::join` and renders the result; the result is named `joined_path`.
#[verifier::external_body]
pub(crate) fn path_join(dir: &str, name: &str) -> (p: String)
    ensures
        p@ == joined_path(dir@, name@),
{
    std::path::Path::new(dir).join(name).to_string_lossy().into_owned()
}

/// One member of a replicated volume.
#[derive(Debug, Clone, PartialEq, Eq)]
pub struct RaftSpdkReplicaLocator {
    pub node_id: u64,
    pub agent_base_url: String,
    pub spdk_lvol_locator: String,
}

pub const RAFT_SPDK_DEFAULT_BLOCK_SIZE: u64 = 512;

pub const RAFT_SPDK_STATIC_REPLICA_COUNT: usize = 3;

/// A replicated volume: a group of exactly three replicas.
#[derive(Debug, Clone)]
pub struct RaftSpdkLocator {
    pub group_id: [u8; 16],
    pub size_bytes: u64,
    pub block_size: u64,
    pub replicas: Vec<RaftSpdkReplicaLocator>,
    pub leader_hint: Option<u64>,
}

/// The digit character for `d < 10`.
pub open spec fn digit_char(d: u64) -> char {
    ((d + 48) as u8) as char
}

/// The decimal text of `n`, as `u64`'s `Display` writes it: its digits,
/// most significant first, with no leading zeros (`0` for zero).
pub open spec fn decimal_text(n: u64) -> Seq<char>
    decreases n,
{
    if n < 10 {
        seq![digit_char(n)]
    } else {
        decimal_text(n / 10).push(digit_char(n % 10))
    }
}

/// Writes `n` in decimal, as `decimal_text` says.
pub(crate) fn decimal(n: u64) -> (s: String)
    ensures
        s@ == decimal_text(n),
    decreases n,
{
    if n < 10 {
        let mut s = String::new();
        push_char(&mut s, ((n + 48) as u8) as char);
        assert(s@ =~= seq![digit_char(n)]);
        s
    } else {
        let mut s = decimal(n / 10);
        push_char(&mut s, ((n % 10 + 48) as u8) as char);
        s
    }
}

/// The first problem, in the order they are checked, with a replica list:
/// a zero id, a repeated id, a blank agent URL or a blank lvol locator.
pub open spec fn replica_problem(replicas: Seq<RaftSpdkReplicaLocator>, upto: int) -> Option<Seq<char>>
    decreases upto,
{
    if upto <= 0 {
        None
    } else {
        match replica_problem(replicas, upto - 1) {
            Some(m) => Some(m),
            None => {
                let r = replicas[upto - 1];
                if r.node_id == 0 {
                    Some("raft_spdk replica node_id must be nonzero"@)
                } else if exists|j: int| 0 <= j < upto - 1 && #[trigger] replicas[j].node_id == r.node_id {
                    Some("raft_spdk duplicate replica node_id "@ + decimal_text(r.node_id))
                } else if blank(r.agent_base_url@) {
                    Some("raft_spdk replica agent_base_url must not be empty"@)
                } else if blank(r.spdk_lvol_locator@) {
                    Some("raft_spdk replica spdk_lvol_locator must not be empty"@)
                } else {
                    None
                }
            },
        }
    }
}

/// The message of the first rule a locator breaks, if any.
pub open spec fn locator_problem(size_bytes: u64, block_size: u64, replicas: Seq<RaftSpdkReplicaLocator>, leader_hint: Option<u64>) -> Option<Seq<char>> {
    if block_size == 0 {
        Some("raft_spdk block_size must be nonzero"@)
    } else if size_bytes == 0 || size_bytes % block_size != 0 {
        Some("raft_spdk size_bytes must be a nonzero multiple of block_size"@)
    } else if replicas.len() != 3 {
        Some("raft_spdk requires exactly 3 static replicas"@)
    } else if replica_problem(replicas, 3) is Some {
        replica_problem(replicas, 3)
    } else if leader_hint matches Some(l) && !(exists|j: int| 0 <= j < 3 && #[trigger] replicas[j].node_id == l) {
        Some("raft_spdk leader_hint must reference a replica node_id"@)
    } else {
        None
    }
}

/// Once a replica problem is found, looking further finds the same one.
pub proof fn lemma_problem_sticks(replicas: Seq<RaftSpdkReplicaLocator>, k: int, m: int)
    requires
        0 <= k <= m,
    ensures
        replica_problem(replicas, k) is Some ==> replica_problem(replicas, m) == replica_problem(
            replicas,
            k,
        ),
    decreases m - k,
{
    if m > k {
        lemma_problem_sticks(replicas, k, m - 1);
    }
}

impl RaftSpdkLocator {
    /// A locator, if the geometry is sound and the three replicas have
    /// distinct nonzero ids, nonblank addresses, and include the leader hint.
    pub fn new(group_id: [u8; 16], size_bytes: u64, block_size: u64, replicas: Vec<RaftSpdkReplicaLocator>, leader_hint: Option<u64>) -> (r: Result<Self, StorageError>)
        ensures
            match locator_problem(size_bytes, block_size, replicas@, leader_hint) {
                Some(m) => r matches Err(StorageError::InvalidLocator(msg)) && msg@ == m,
                None => r matches Ok(l) && l.group_id == group_id && l.size_bytes == size_bytes
                    && l.block_size == block_size && l.replicas@ == replicas@ && l.leader_hint
                    == leader_hint,
            },
    {
        if block_size == 0 {
            return Err(StorageError::InvalidLocator(owned("raft_spdk block_size must be nonzero")));
        }
        if size_bytes == 0 || size_bytes % block_size != 0 {
            return Err(StorageError::InvalidLocator(owned("raft_spdk size_bytes must be a nonzero multiple of block_size")));
        }
        if replicas.len() != RAFT_SPDK_STATIC_REPLICA_COUNT {
            return Err(StorageError::InvalidLocator(owned("raft_spdk requires exactly 3 static replicas")));
        }
        let mut i: usize = 0;
        while i < replicas.len()
            invariant
                0 <= i <= 3,
                replicas@.len() == 3,
                block_size != 0,
                size_bytes != 0 && size_bytes % block_size == 0,
                replica_problem(replicas@, i as int) is None,
            decreases 3 - i,
        {
            let r = &replicas[i];
            proof {
                lemma_problem_sticks(replicas@, i + 1, 3);
            }
            if r.node_id == 0 {
                return Err(StorageError::InvalidLocator(owned("raft_spdk replica node_id must be nonzero")));
            }
            let mut j: usize = 0;
            while j < i
                invariant
                    0 <= j <= i,
                    i < 3,
                    replicas@.len() == 3,
                    r.node_id == replicas@[i as int].node_id,
                    r.node_id != 0,
                    block_size != 0,
                    size_bytes != 0 && size_bytes % block_size == 0,
                    replica_problem(replicas@, i as int) is None,
                    replica_problem(replicas@, i + 1) is Some ==> replica_problem(replicas@, 3)
                        == replica_problem(replicas@, i + 1),
                    forall|k: int| 0 <= k < j ==> replicas@[k].node_id != replicas@[i as int].node_id,
                decreases i - j,
            {
                if replicas[j].node_id == r.node_id {
                    assert(replicas@[j as int].node_id == replicas@[i as int].node_id);
                    let mut m = owned("raft_spdk duplicate replica node_id ");
                    let d = decimal(r.node_id);
                    push_str(&mut m, d.as_str());
                    return Err(StorageError::InvalidLocator(m));
                }
                j = j + 1;
            }
            if is_blank(r.agent_base_url.as_str()) {
                return Err(StorageError::InvalidLocator(owned("raft_spdk replica agent_base_url must not be empty")));
            }
            if is_blank(r.spdk_lvol_locator.as_str()) {
                return Err(StorageError::InvalidLocator(owned("raft_spdk replica spdk_lvol_locator must not be empty")));
            }
            i = i + 1;
        }
        match leader_hint {
            Some(l) => {
                if replicas[0].node_id != l && replicas[1].node_id != l && replicas[2].node_id != l {
                    return Err(StorageError::InvalidLocator(owned("raft_spdk leader_hint must reference a replica node_id")));
                }
            },
            None => {},
        }
        Ok(RaftSpdkLocator { group_id, size_bytes, block_size, replicas, leader_hint })
    }
}

} // verus!
