//! Log entries, block operations and their validation rules.

use vstd::prelude::*;
use sha2::Digest;
use crate::storage::{decimal, decimal_text};
use crate::text::{owned, push_str};

verus! {

pub type NodeId = u64;

pub type LogIndex = u64;

pub type Term = u64;

/// Every way an operation on a replica, a cluster or a store can fail.
#[derive(Debug, Clone, PartialEq, Eq)]
pub enum RaftBlockError {
    ZeroBlockSize,
    InvalidCapacity,
    UnalignedWrite,
    EmptyWrite,
    OutOfBounds,
    DiskFull,
    ChecksumMismatch,
    StaleTerm { entry_term: Term, seen_term: Term },
    NoQuorum { acks: usize, quorum: usize },
    NodeNotFound(NodeId),
    NotLeader { node_id: NodeId, leader_id: NodeId },
    Store(String),
}

/// The text an error is shown as.
pub open spec fn raft_block_error_text(e: RaftBlockError) -> Seq<char> {
    match e {
        RaftBlockError::ZeroBlockSize => "block size must be nonzero"@,
        RaftBlockError::InvalidCapacity => "replica capacity must be a nonzero multiple of block size"@,
        RaftBlockError::UnalignedWrite => "write offset/length must align to block size"@,
        RaftBlockError::EmptyWrite => "write is empty"@,
        RaftBlockError::OutOfBounds => "write extends past replica capacity"@,
        RaftBlockError::DiskFull => "replica has no remaining simulated disk capacity"@,
        RaftBlockError::ChecksumMismatch => "entry checksum mismatch"@,
        RaftBlockError::StaleTerm { entry_term, seen_term } => "entry term "@ + decimal_text(entry_term)
            + " is stale; node has seen term "@ + decimal_text(seen_term),
        RaftBlockError::NoQuorum { acks, quorum } => "not enough acknowledgements for quorum: "@ + decimal_text(
            acks as u64,
        ) + "/"@ + decimal_text(quorum as u64),
        RaftBlockError::NodeNotFound(id) => "node "@ + decimal_text(id) + " not found"@,
        RaftBlockError::NotLeader { node_id, leader_id } => "node "@ + decimal_text(node_id)
            + " is not the current leader "@ + decimal_text(leader_id),
        RaftBlockError::Store(m) => "persistent store error: "@ + m@,
    }
}

impl RaftBlockError {
    /// The text the error is shown as.
    pub fn message(&self) -> (s: String)
        ensures
            s@ == raft_block_error_text(*self),
    {
        match self {
            RaftBlockError::ZeroBlockSize => owned("block size must be nonzero"),
            RaftBlockError::InvalidCapacity => owned("replica capacity must be a nonzero multiple of block size"),
            RaftBlockError::UnalignedWrite => owned("write offset/length must align to block size"),
            RaftBlockError::EmptyWrite => owned("write is empty"),
            RaftBlockError::OutOfBounds => owned("write extends past replica capacity"),
            RaftBlockError::DiskFull => owned("replica has no remaining simulated disk capacity"),
            RaftBlockError::ChecksumMismatch => owned("entry checksum mismatch"),
            RaftBlockError::StaleTerm { entry_term, seen_term } => {
                let mut s = owned("entry term ");
                let a = decimal(*entry_term);
                push_str(&mut s, a.as_str());
                push_str(&mut s, " is stale; node has seen term ");
                let b = decimal(*seen_term);
                push_str(&mut s, b.as_str());
                s
            },
            RaftBlockError::NoQuorum { acks, quorum } => {
                let mut s = owned("not enough acknowledgements for quorum: ");
                let a = decimal(*acks as u64);
                push_str(&mut s, a.as_str());
                push_str(&mut s, "/");
                let b = decimal(*quorum as u64);
                push_str(&mut s, b.as_str());
                s
            },
            RaftBlockError::NodeNotFound(id) => {
                let mut s = owned("node ");
                let a = decimal(*id);
                push_str(&mut s, a.as_str());
                push_str(&mut s, " not found");
                s
            },
            RaftBlockError::NotLeader { node_id, leader_id } => {
                let mut s = owned("node ");
                let a = decimal(*node_id);
                push_str(&mut s, a.as_str());
                push_str(&mut s, " is not the current leader ");
                let b = decimal(*leader_id);
                push_str(&mut s, b.as_str());
                s
            },
            RaftBlockError::Store(m) => {
                let mut s = owned("persistent store error: ");
                push_str(&mut s, m.as_str());
                s
            },
        }
    }
}

/// SHA-256 of a byte sequence, as computed by the `sha2` crate.
pub uninterp spec fn sha256_of(data: Seq<u8>) -> Seq<u8>;

/// Calls `sha2::Sha256::digest`; the digest is named `sha256_of` of the input.
#[verifier::external_body]
fn sha256_digest(bytes: &[u8]) -> (out: [u8; 32])
    ensures
        out@ == sha256_of(bytes@),
{
    sha2::Sha256::digest(bytes).into()
}

/// The checksum stored with every write: SHA-256 of the payload.
pub fn checksum_bytes(bytes: &[u8]) -> (out: [u8; 32])
    ensures
        out@ == sha256_of(bytes@),
{
    sha256_digest(bytes)
}

/// Compares two checksums byte by byte.
pub fn checksums_equal(a: &[u8; 32], b: &[u8; 32]) -> (eq: bool)
    ensures
        eq <==> a@ == b@,
{
    let mut i: usize = 0;
    while i < 32
        invariant
            0 <= i <= 32,
            a@.len() == 32,
            b@.len() == 32,
            forall|j: int| 0 <= j < i ==> a@[j] == b@[j],
        decreases 32 - i,
    {
        if a[i] != b[i] {
            return false;
        }
        i = i + 1;
    }
    assert(a@ =~= b@);
    true
}

/// One replicated operation on the block device.
#[derive(Debug, Clone, PartialEq, Eq)]
pub enum BlockOp {
    Write { offset: u64, bytes: Vec<u8>, checksum: [u8; 32] },
    Flush,
}

/// The abstract form of a block operation.
pub enum BlockOpView {
    Write { offset: u64, bytes: Seq<u8>, checksum: Seq<u8> },
    Flush,
}

impl View for BlockOp {
    type V = BlockOpView;

    open spec fn view(&self) -> BlockOpView {
        match self {
            BlockOp::Write { offset, bytes, checksum } => BlockOpView::Write {
                offset: *offset,
                bytes: bytes@,
                checksum: checksum@,
            },
            BlockOp::Flush => BlockOpView::Flush,
        }
    }
}

/// The write of `data` at `offset` proposed at `term` and `index`.
pub open spec fn write_entry_view(term: Term, index: LogIndex, offset: u64, data: Seq<u8>) -> LogEntryView {
    LogEntryView {
        term,
        index,
        op: BlockOpView::Write { offset, bytes: data, checksum: sha256_of(data) },
    }
}

/// The flush proposed at `term` and `index`.
pub open spec fn flush_entry_view(term: Term, index: LogIndex) -> LogEntryView {
    LogEntryView { term, index, op: BlockOpView::Flush }
}

/// `op` writes `data` at `offset` and carries the SHA-256 of `data`.
pub open spec fn is_checked_write(op: BlockOpView, offset: u64, data: Seq<u8>) -> bool {
    op == BlockOpView::Write { offset, bytes: data, checksum: sha256_of(data) }
}

impl BlockOp {
    /// A write of `bytes` at `offset`, carrying the SHA-256 of `bytes`.
    pub fn write(offset: u64, bytes: Vec<u8>) -> (r: Result<Self, RaftBlockError>)
        ensures
            bytes@.len() == 0 ==> r == Err::<Self, RaftBlockError>(RaftBlockError::EmptyWrite),
            bytes@.len() > 0 ==> (r matches Ok(op) && is_checked_write(op@, offset, bytes@)),
    {
        if bytes.len() == 0 {
            return Err(RaftBlockError::EmptyWrite);
        }
        let checksum = checksum_bytes(bytes.as_slice());
        Ok(BlockOp::Write { offset, bytes, checksum })
    }
}

/// A log entry: an operation tagged with the term and index it was proposed at.
#[derive(Debug, Clone, PartialEq, Eq)]
pub struct LogEntry {
    pub term: Term,
    pub index: LogIndex,
    pub op: BlockOp,
}

/// The abstract form of a log entry.
pub struct LogEntryView {
    pub term: Term,
    pub index: LogIndex,
    pub op: BlockOpView,
}

impl View for LogEntry {
    type V = LogEntryView;

    open spec fn view(&self) -> LogEntryView {
        LogEntryView { term: self.term, index: self.index, op: self.op@ }
    }
}

impl BlockOp {
    /// A copy with the same contents.
    pub fn duplicate(&self) -> (r: BlockOp)
        ensures
            r@ == self@,
    {
        match self {
            BlockOp::Write { offset, bytes, checksum } => BlockOp::Write {
                offset: *offset,
                bytes: copy_byte_vec(bytes),
                checksum: *checksum,
            },
            BlockOp::Flush => BlockOp::Flush,
        }
    }
}

/// A copy of a byte vector.
pub fn copy_byte_vec(src: &Vec<u8>) -> (out: Vec<u8>)
    ensures
        out@ == src@,
{
    let mut out: Vec<u8> = Vec::with_capacity(src.len());
    let mut i: usize = 0;
    while i < src.len()
        invariant
            0 <= i <= src@.len(),
            out@ == src@.subrange(0, i as int),
        decreases src@.len() - i,
    {
        out.push(src[i]);
        i = i + 1;
    }
    assert(out@ =~= src@);
    out
}

impl LogEntry {
    /// A copy with the same contents.
    pub fn duplicate(&self) -> (r: LogEntry)
        ensures
            r@ == self@,
    {
        LogEntry { term: self.term, index: self.index, op: self.op.duplicate() }
    }

    /// A write entry; fails exactly when the payload is empty.
    pub fn write(term: Term, index: LogIndex, offset: u64, bytes: Vec<u8>) -> (r: Result<
        Self,
        RaftBlockError,
    >)
        ensures
            bytes@.len() == 0 ==> r == Err::<Self, RaftBlockError>(RaftBlockError::EmptyWrite),
            bytes@.len() > 0 ==> (r matches Ok(e) && e.term == term && e.index == index
                && is_checked_write(e.op@, offset, bytes@)),
    {
        let op = BlockOp::write(offset, bytes)?;
        Ok(LogEntry { term, index, op })
    }

    /// A flush entry.
    pub fn flush(term: Term, index: LogIndex) -> (e: Self)
        ensures
            e.term == term,
            e.index == index,
            e.op@ == BlockOpView::Flush,
    {
        LogEntry { term, index, op: BlockOp::Flush }
    }
}

/// A client command before it is placed in the log.
#[derive(Debug, Clone, PartialEq, Eq)]
pub enum BlockCommand {
    Write { offset: u64, bytes: Vec<u8> },
    Flush,
}

/// The entry a command becomes at a given term and index.
pub open spec fn command_entry_ok(command: BlockCommand, term: Term, index: LogIndex, e: LogEntryView) -> bool {
    &&& e.term == term
    &&& e.index == index
    &&& match command {
        BlockCommand::Write { offset, bytes } => is_checked_write(e.op, offset, bytes@),
        BlockCommand::Flush => e.op == BlockOpView::Flush,
    }
}

/// Whether a command is an empty write (the only command that cannot become an entry).
pub open spec fn command_is_empty_write(command: BlockCommand) -> bool {
    command matches BlockCommand::Write { bytes, .. } && bytes@.len() == 0
}

impl BlockCommand {
    /// Turns the command into a log entry at `term` and `index`.
    pub fn into_entry(self, term: Term, index: LogIndex) -> (r: Result<LogEntry, RaftBlockError>)
        ensures
            command_is_empty_write(self) ==> r == Err::<LogEntry, RaftBlockError>(
                RaftBlockError::EmptyWrite,
            ),
            !command_is_empty_write(self) ==> (r matches Ok(e) && command_entry_ok(
                self,
                term,
                index,
                e@,
            )),
    {
        match self {
            BlockCommand::Write { offset, bytes } => LogEntry::write(term, index, offset, bytes),
            BlockCommand::Flush => Ok(LogEntry::flush(term, index)),
        }
    }
}

/// What a successful append reports.
#[derive(Debug, Clone, PartialEq, Eq)]
pub struct BlockResponse {
    pub applied_index: LogIndex,
    pub bytes_written: u64,
}

/// The outcome of a vote request.
#[derive(Debug, Clone, PartialEq, Eq)]
pub struct VoteOutcome {
    pub granted: bool,
    pub term: Term,
    pub voted_for: Option<NodeId>,
    pub committed: bool,
}

/// The error, if any, that a write of `len` bytes at `offset` meets on a
/// device of `capacity` bytes with blocks of `block_size` bytes.
pub open spec fn write_error(block_size: u64, capacity: u64, offset: u64, len: int) -> Option<
    RaftBlockError,
> {
    if len == 0 {
        Some(RaftBlockError::EmptyWrite)
    } else if offset % block_size != 0 || len % (block_size as int) != 0 {
        Some(RaftBlockError::UnalignedWrite)
    } else if offset + len > capacity {
        Some(RaftBlockError::OutOfBounds)
    } else {
        None
    }
}

/// Checks that a write is nonempty, block aligned and inside the device.
pub fn validate_write(block_size: u64, capacity_bytes: u64, offset: u64, bytes: &[u8]) -> (r:
    Result<(), RaftBlockError>)
    requires
        block_size > 0,
    ensures
        r matches Ok(_) <==> write_error(block_size, capacity_bytes, offset, bytes@.len() as int)
            is None,
        r matches Err(e) ==> write_error(block_size, capacity_bytes, offset, bytes@.len() as int)
            == Some(e),
{
    if bytes.len() == 0 {
        return Err(RaftBlockError::EmptyWrite);
    }
    let len = bytes.len() as u64;
    if offset % block_size != 0 || len % block_size != 0 {
        return Err(RaftBlockError::UnalignedWrite);
    }
    let end = match offset.checked_add(len) {
        Some(e) => e,
        None => return Err(RaftBlockError::OutOfBounds),
    };
    if end > capacity_bytes {
        return Err(RaftBlockError::OutOfBounds);
    }
    Ok(())
}

/// A write is accepted exactly when it is nonempty, starts on a block
/// boundary, covers whole blocks and ends inside the device; so a write of
/// `n` whole blocks at block `k` is accepted whenever it fits.
pub proof fn accepted_writes_are_whole_blocks(block_size: u64, capacity: u64, offset: u64, len: int, k: nat, n: nat)
    requires
        block_size > 0,
        len >= 0,
    ensures
        write_error(block_size, capacity, offset, len) is None <==> (len > 0 && offset % block_size == 0 && len
            % (block_size as int) == 0 && offset + len <= capacity),
        offset == k * block_size && len == n * block_size && n > 0 && offset + len <= capacity ==> write_error(
            block_size,
            capacity,
            offset,
            len,
        ) is None,
{
    if offset == k * block_size && len == n * block_size && n > 0 {
        vstd::arithmetic::div_mod::lemma_mod_multiples_basic(k as int, block_size as int);
        vstd::arithmetic::div_mod::lemma_mod_multiples_basic(n as int, block_size as int);
        vstd::arithmetic::mul::lemma_mul_inequality(1, n as int, block_size as int);
    }
}

} // verus!
