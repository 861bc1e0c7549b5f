//! The on-disk layout of a replica's sidecar directory: file names, the
//! metadata record, which blocks a save has to write, and the
//! length-prefixed framing of the append-only log file.

use vstd::prelude::*;
use crate::block::{BlockOp, BlockOpView, LogEntry, LogEntryView, LogIndex, NodeId, RaftBlockError, Term};
use crate::replica::{entry_views, PersistentReplicaState};
use crate::storage::{decimal, decimal_text, joined_path, path_join};
use crate::text::{owned, push_str};

verus! {

/// Byte `i` (least significant first) of `n`.
pub open spec fn byte_of(n: u64, i: u64) -> u8 {
    ((n >> (8 * i)) & 0xff) as u8
}

/// The little-endian number held by eight bytes.
pub open spec fn le_join(b0: u8, b1: u8, b2: u8, b3: u8, b4: u8, b5: u8, b6: u8, b7: u8) -> u64 {
    (b0 as u64) | ((b1 as u64) << 8) | ((b2 as u64) << 16) | ((b3 as u64) << 24) | ((b4 as u64) << 32)
        | ((b5 as u64) << 40) | ((b6 as u64) << 48) | ((b7 as u64) << 56)
}

/// The eight little-endian bytes of `n`.
pub open spec fn le_bytes(n: u64) -> Seq<u8> {
    seq![byte_of(n, 0), byte_of(n, 1), byte_of(n, 2), byte_of(n, 3), byte_of(n, 4), byte_of(n, 5), byte_of(n, 6), byte_of(n, 7)]
}

/// The number the first eight bytes of `s` hold, least significant first.
pub open spec fn le_value(s: Seq<u8>) -> u64
    recommends
        s.len() >= 8,
{
    le_join(s[0], s[1], s[2], s[3], s[4], s[5], s[6], s[7])
}

/// Reading back the little-endian bytes of a number gives the number.
pub proof fn lemma_le_round_trip(n: u64)
    ensures
        le_value(le_bytes(n)) == n,
{
    let b = le_bytes(n);
    assert(b[0] == byte_of(n, 0) && b[1] == byte_of(n, 1) && b[2] == byte_of(n, 2) && b[3] == byte_of(n, 3));
    assert(b[4] == byte_of(n, 4) && b[5] == byte_of(n, 5) && b[6] == byte_of(n, 6) && b[7] == byte_of(n, 7));
    assert(le_join(
        ((n >> 0u64) & 0xff) as u8,
        ((n >> 8u64) & 0xff) as u8,
        ((n >> 16u64) & 0xff) as u8,
        ((n >> 24u64) & 0xff) as u8,
        ((n >> 32u64) & 0xff) as u8,
        ((n >> 40u64) & 0xff) as u8,
        ((n >> 48u64) & 0xff) as u8,
        ((n >> 56u64) & 0xff) as u8,
    ) == n) by (bit_vector);
}

/// One log record as it is stored: its length in eight little-endian bytes, then its bytes.
pub open spec fn frame(record: Seq<u8>) -> Seq<u8> {
    le_bytes(record.len() as u64) + record
}

/// Records stored one after another.
pub open spec fn frames(records: Seq<Seq<u8>>) -> Seq<u8>
    decreases records.len(),
{
    if records.len() == 0 {
        Seq::empty()
    } else {
        frame(records[0]) + frames(records.drop_first())
    }
}

/// Why a stored log cannot be read back.
#[derive(Debug, Clone, Copy, PartialEq, Eq, Structural)]
pub enum LogFrameError {
    /// A record announces a length of zero.
    ZeroLength,
    /// A record announces more bytes than the file still holds.
    TruncatedBody,
}

/// The records a stored log holds. Reading stops quietly where fewer than
/// eight bytes remain for a length; a zero length, or a length past the
/// end of the data, is an error.
pub open spec fn parse_frames(data: Seq<u8>) -> Result<Seq<Seq<u8>>, LogFrameError>
    decreases data.len(),
{
    if data.len() < 8 {
        Ok(Seq::empty())
    } else {
        let n = le_value(data);
        if n == 0 {
            Err(LogFrameError::ZeroLength)
        } else if n > data.len() - 8 {
            Err(LogFrameError::TruncatedBody)
        } else {
            match parse_frames(data.subrange(8 + n, data.len() as int)) {
                Ok(rest) => Ok(seq![data.subrange(8, 8 + n)] + rest),
                Err(e) => Err(e),
            }
        }
    }
}

/// Whether every record is non-empty and its length fits the prefix.
pub open spec fn storable(records: Seq<Seq<u8>>) -> bool {
    forall|i: int| 0 <= i < records.len() ==> 0 < #[trigger] records[i].len() <= u64::MAX
}

/// Reading back stored records gives the records, provided none is empty.
pub proof fn log_frames_round_trip(records: Seq<Seq<u8>>)
    requires
        storable(records),
    ensures
        parse_frames(frames(records)) == Ok::<Seq<Seq<u8>>, LogFrameError>(records),
    decreases records.len(),
{
    if records.len() > 0 {
        let r = records[0];
        let rest = records.drop_first();
        assert(storable(rest)) by {
            assert forall|i: int| 0 <= i < rest.len() implies 0 < #[trigger] rest[i].len() <= u64::MAX by {
                assert(rest[i] == records[i + 1]);
            }
        }
        log_frames_round_trip(rest);
        let data = frames(records);
        assert(records[0].len() > 0);
        let n = r.len() as u64;
        lemma_le_round_trip(n);
        assert(data == le_bytes(n) + r + frames(rest));
        assert(data.subrange(0, 8) =~= le_bytes(n));
        assert(le_value(data) == le_value(le_bytes(n)));
        assert(data.subrange(8, 8 + n) =~= r);
        assert(data.subrange(8 + n, data.len() as int) =~= frames(rest));
        assert(seq![r] + rest =~= records);
        assert(parse_frames(data) == Ok::<Seq<Seq<u8>>, LogFrameError>(seq![r] + rest));
    } else {
        assert(records =~= Seq::<Seq<u8>>::empty());
    }
}

/// The eight little-endian bytes of `n`.
fn le_encode(n: u64) -> (b: [u8; 8])
    ensures
        b@ == le_bytes(n),
{
    let b = [
        (n & 0xff) as u8,
        ((n >> 8u64) & 0xff) as u8,
        ((n >> 16u64) & 0xff) as u8,
        ((n >> 24u64) & 0xff) as u8,
        ((n >> 32u64) & 0xff) as u8,
        ((n >> 40u64) & 0xff) as u8,
        ((n >> 48u64) & 0xff) as u8,
        ((n >> 56u64) & 0xff) as u8,
    ];
    assert(n == (n >> 0u64)) by (bit_vector);
    assert(b@ =~= le_bytes(n));
    b
}

/// The number held by the eight bytes at `pos`, least significant first.
fn le_decode(data: &[u8], pos: usize) -> (n: u64)
    requires
        pos + 8 <= data@.len(),
    ensures
        n == le_value(data@.subrange(pos as int, data@.len() as int)),
{
    let n = (data[pos] as u64) | ((data[pos + 1] as u64) << 8u64) | ((data[pos + 2] as u64) << 16u64)
        | ((data[pos + 3] as u64) << 24u64) | ((data[pos + 4] as u64) << 32u64) | ((data[pos + 5] as u64) << 40u64)
        | ((data[pos + 6] as u64) << 48u64) | ((data[pos + 7] as u64) << 56u64);
    n
}

/// Stores one log record: its length, then its bytes.
pub fn encode_log_frame(record: &[u8]) -> (f: Vec<u8>)
    ensures
        f@ == frame(record@),
{
    let prefix = le_encode(record.len() as u64);
    let mut f: Vec<u8> = Vec::new();
    let mut i: usize = 0;
    while i < 8
        invariant
            0 <= i <= 8,
            f@ == prefix@.subrange(0, i as int),
        decreases 8 - i,
    {
        f.push(prefix[i]);
        i = i + 1;
    }
    let mut j: usize = 0;
    while j < record.len()
        invariant
            0 <= j <= record@.len(),
            f@ == prefix@ + record@.subrange(0, j as int),
        decreases record@.len() - j,
    {
        f.push(record[j]);
        j = j + 1;
    }
    assert(prefix@.subrange(0, 8) =~= prefix@);
    assert(record@.subrange(0, record@.len() as int) =~= record@);
    f
}

/// `prefix` put in front of the records of a parse, or the parse's error.
pub open spec fn after_records(prefix: Seq<Seq<u8>>, r: Result<Seq<Seq<u8>>, LogFrameError>) -> Result<Seq<Seq<u8>>, LogFrameError> {
    match r {
        Ok(rest) => Ok(prefix + rest),
        Err(e) => Err(e),
    }
}

/// The byte views of a list of records.
pub open spec fn record_views(v: Seq<Vec<u8>>) -> Seq<Seq<u8>> {
    v.map_values(|x: Vec<u8>| x@)
}

/// Reads the records of a stored log, as `parse_frames` describes.
pub fn decode_log_frames(data: &[u8]) -> (r: Result<Vec<Vec<u8>>, LogFrameError>)
    ensures
        match parse_frames(data@) {
            Ok(records) => r matches Ok(v) && record_views(v@) == records,
            Err(e) => r == Err::<Vec<Vec<u8>>, LogFrameError>(e),
        },
{
    let mut out: Vec<Vec<u8>> = Vec::new();
    let mut pos: usize = 0;
    assert(data@.subrange(0, data@.len() as int) =~= data@);
    assert(record_views(out@) + Seq::<Seq<u8>>::empty() =~= Seq::<Seq<u8>>::empty());
    while pos < data.len()
        invariant
            0 <= pos <= data@.len(),
            parse_frames(data@) == after_records(record_views(out@), parse_frames(data@.subrange(pos as int, data@.len() as int))),
        decreases data@.len() - pos,
    {
        let ghost rest = data@.subrange(pos as int, data@.len() as int);
        if data.len() - pos < 8 {
            assert(record_views(out@) + Seq::<Seq<u8>>::empty() =~= record_views(out@));
            return Ok(out);
        }
        let n = le_decode(data, pos);
        if n == 0 {
            return Err(LogFrameError::ZeroLength);
        }
        if n > (data.len() - pos - 8) as u64 {
            return Err(LogFrameError::TruncatedBody);
        }
        let len = n as usize;
        let start = pos + 8;
        let mut rec: Vec<u8> = Vec::new();
        let mut k: usize = 0;
        while k < len
            invariant
                0 <= k <= len,
                start + len <= data@.len(),
                data@.len() <= usize::MAX,
                rec@ == data@.subrange(start as int, start + k),
            decreases len - k,
        {
            rec.push(data[start + k]);
            k = k + 1;
        }
        proof {
            assert(rest.subrange(8, 8 + n) =~= rec@);
            assert(rest.subrange(8 + n, rest.len() as int) =~= data@.subrange(start + len, data@.len() as int));
            assert(record_views(out@.push(rec)) =~= record_views(out@).push(rec@));
            let tail = parse_frames(data@.subrange(start + len, data@.len() as int));
            match tail {
                Ok(t) => {
                    assert(record_views(out@) + (seq![rec@] + t) =~= record_views(out@).push(rec@) + t);
                },
                Err(e) => {},
            }
        }
        out.push(rec);
        pos = start + len;
    }
    assert(data@.subrange(pos as int, data@.len() as int) =~= Seq::<u8>::empty());
    assert(record_views(out@) + Seq::<Seq<u8>>::empty() =~= record_views(out@));
    Ok(out)
}

/// The last component of a path, when it has one that is valid UTF-8.
pub uninterp spec fn path_file_name(path: Seq<char>) -> Option<Seq<char>>;

/// The path with its last component replaced by `name`.
pub uninterp spec fn path_with_file_name(path: Seq<char>, name: Seq<char>) -> Seq<char>;

/// Calls `Path::file_name` and `OsStr::to_str`; the result is named `path_file_name`.
#[verifier::external_body]
fn file_name_of(path: &str) -> (r: Option<String>)
    ensures
        match r {
            Some(n) => path_file_name(path@) == Some(n@),
            None => path_file_name(path@) is None,
        },
{
    std::path::Path::new(path).file_name().and_then(|n| n.to_str()).map(|n| n.to_string())
}

/// Calls `Path::with_file_name` and renders the result; it is named `path_with_file_name`.
#[verifier::external_body]
fn with_file_name(path: &str, name: &str) -> (p: String)
    ensures
        p@ == path_with_file_name(path@, name@),
{
    std::path::Path::new(path).with_file_name(name).to_string_lossy().into_owned()
}

/// The name the state file is known by: its file name, or `replica-state`.
pub open spec fn state_file_name(path: Seq<char>) -> Seq<char> {
    match path_file_name(path) {
        Some(n) => n,
        None => "replica-state"@,
    }
}

fn state_file_name_of(path: &str) -> (n: String)
    ensures
        n@ == state_file_name(path@),
{
    match file_name_of(path) {
        Some(n) => n,
        None => owned("replica-state"),
    }
}

/// The files a replica's state is split into.
#[derive(Debug, Clone)]
pub struct SidecarPaths {
    pub dir: String,
    pub meta: String,
    pub blocks: String,
    pub log: String,
}

/// The sidecar directory of the state file at `path`: `<name>.d` beside it.
pub open spec fn sidecar_dir(path: Seq<char>) -> Seq<char> {
    path_with_file_name(path, state_file_name(path) + ".d"@)
}

/// The sidecar directory of a state file and the metadata, block and log files in it.
pub fn sidecar_paths(path: &str) -> (p: SidecarPaths)
    ensures
        p.dir@ == sidecar_dir(path@),
        p.meta@ == joined_path(sidecar_dir(path@), "meta.json"@),
        p.blocks@ == joined_path(sidecar_dir(path@), "blocks.bin"@),
        p.log@ == joined_path(sidecar_dir(path@), "log.bin"@),
{
    let mut name = state_file_name_of(path);
    push_str(&mut name, ".d");
    let dir = with_file_name(path, name.as_str());
    SidecarPaths {
        meta: path_join(dir.as_str(), "meta.json"),
        blocks: path_join(dir.as_str(), "blocks.bin"),
        log: path_join(dir.as_str(), "log.bin"),
        dir,
    }
}

/// The temporary file a new version of `path` is written to before it replaces it: `<name>.tmp` beside it.
pub fn tmp_path_for(path: &str) -> (p: String)
    ensures
        p@ == path_with_file_name(path@, state_file_name(path@) + ".tmp"@),
{
    let mut name = state_file_name_of(path);
    push_str(&mut name, ".tmp");
    with_file_name(path, name.as_str())
}

/// The version of the sidecar metadata this library writes.
pub const SIDECAR_VERSION: u32 = 1;

/// The metadata file of a sidecar directory: everything but the blocks and
/// the log, and how many log records the log file holds.
#[derive(Debug, Clone)]
pub struct SidecarReplicaMeta {
    pub version: u32,
    pub node_id: NodeId,
    pub capacity_bytes: u64,
    pub block_size: u64,
    pub highest_term_seen: Term,
    pub applied_indexes: Vec<LogIndex>,
    pub compacted_through: LogIndex,
    pub log_len: usize,
}

fn copy_indexes(v: &Vec<LogIndex>) -> (c: Vec<LogIndex>)
    ensures
        c@ == v@,
{
    let mut c: Vec<LogIndex> = Vec::new();
    let mut i: usize = 0;
    while i < v.len()
        invariant
            0 <= i <= v@.len(),
            c@ == v@.subrange(0, i as int),
        decreases v@.len() - i,
    {
        c.push(v[i]);
        i = i + 1;
    }
    assert(v@.subrange(0, v@.len() as int) =~= v@);
    c
}

impl SidecarReplicaMeta {
    /// The metadata that describes `state`.
    pub fn from_state(state: &PersistentReplicaState) -> (m: Self)
        ensures
            describes(m, *state),
    {
        SidecarReplicaMeta {
            version: SIDECAR_VERSION,
            node_id: state.node_id,
            capacity_bytes: state.capacity_bytes,
            block_size: state.block_size,
            highest_term_seen: state.highest_term_seen,
            applied_indexes: copy_indexes(&state.applied_indexes),
            compacted_through: state.compacted_through,
            log_len: state.log.len(),
        }
    }

    /// Accepts metadata of the version this library writes.
    pub fn check_version(self) -> (r: Result<Self, RaftBlockError>)
        ensures
            self.version == SIDECAR_VERSION ==> r == Ok::<Self, RaftBlockError>(self),
            self.version != SIDECAR_VERSION ==> (r matches Err(RaftBlockError::Store(m))
                && m@ == "unsupported sidecar replica store version "@ + decimal_text(self.version as u64)),
    {
        if self.version != SIDECAR_VERSION {
            let mut m = owned("unsupported sidecar replica store version ");
            let v = decimal(self.version as u64);
            push_str(&mut m, v.as_str());
            return Err(RaftBlockError::Store(m));
        }
        Ok(self)
    }
}

/// Whether a save has to rewrite the blocks and the log from scratch:
/// there is no earlier metadata, the replica's identity, geometry or
/// compaction point changed, or the log got shorter.
pub open spec fn full_rewrite_needed(previous: Option<SidecarReplicaMeta>, state: PersistentReplicaState) -> bool {
    match previous {
        None => true,
        Some(meta) => meta.node_id != state.node_id || meta.capacity_bytes != state.capacity_bytes
            || meta.block_size != state.block_size || meta.compacted_through != state.compacted_through
            || state.log@.len() < meta.log_len,
    }
}

/// Decides whether a save rewrites everything or only adds to what is stored.
pub fn needs_full_rewrite(previous: &Option<SidecarReplicaMeta>, state: &PersistentReplicaState) -> (b: bool)
    ensures
        b == full_rewrite_needed(*previous, *state),
{
    match previous {
        None => true,
        Some(meta) => meta.node_id != state.node_id || meta.capacity_bytes != state.capacity_bytes
            || meta.block_size != state.block_size || meta.compacted_through != state.compacted_through
            || state.log.len() < meta.log_len,
    }
}

/// The writes, in log order, of entries applied now but not at the last save.
pub open spec fn fresh_writes(log: Seq<LogEntryView>, old_applied: Seq<LogIndex>, new_applied: Seq<LogIndex>) -> Seq<(u64, Seq<u8>)>
    decreases log.len(),
{
    if log.len() == 0 {
        Seq::empty()
    } else {
        let rest = fresh_writes(log.drop_last(), old_applied, new_applied);
        let e = log.last();
        if !old_applied.contains(e.index) && new_applied.contains(e.index) {
            match e.op {
                BlockOpView::Write { offset, bytes, .. } => rest.push((offset, bytes)),
                BlockOpView::Flush => rest,
            }
        } else {
            rest
        }
    }
}

fn holds_index(v: &Vec<LogIndex>, x: LogIndex) -> (b: bool)
    ensures
        b == v@.contains(x),
{
    let mut i: usize = 0;
    while i < v.len()
        invariant
            0 <= i <= v@.len(),
            forall|j: int| 0 <= j < i ==> v@[j] != x,
        decreases v@.len() - i,
    {
        if v[i] == x {
            return true;
        }
        i = i + 1;
    }
    false
}

/// The views of a list of block writes.
pub open spec fn write_views(v: Seq<(u64, Vec<u8>)>) -> Seq<(u64, Seq<u8>)> {
    v.map_values(|w: (u64, Vec<u8>)| (w.0, w.1@))
}

fn copy_bytes(v: &Vec<u8>) -> (c: Vec<u8>)
    ensures
        c@ == v@,
{
    let mut c: Vec<u8> = Vec::new();
    let mut i: usize = 0;
    while i < v.len()
        invariant
            0 <= i <= v@.len(),
            c@ == v@.subrange(0, i as int),
        decreases v@.len() - i,
    {
        c.push(v[i]);
        i = i + 1;
    }
    assert(v@.subrange(0, v@.len() as int) =~= v@);
    c
}

/// The block writes an incremental save has to make: those of log entries
/// applied now that were not applied at the last save, in log order.
pub fn new_block_writes(old_applied: &Vec<LogIndex>, state: &PersistentReplicaState) -> (w: Vec<(u64, Vec<u8>)>)
    ensures
        write_views(w@) == fresh_writes(entry_views(state.log@), old_applied@, state.applied_indexes@),
{
    let mut w: Vec<(u64, Vec<u8>)> = Vec::new();
    let mut i: usize = 0;
    while i < state.log.len()
        invariant
            0 <= i <= state.log@.len(),
            write_views(w@) == fresh_writes(entry_views(state.log@.subrange(0, i as int)), old_applied@, state.applied_indexes@),
        decreases state.log@.len() - i,
    {
        let e = &state.log[i];
        proof {
            assert(entry_views(state.log@.subrange(0, i + 1)).drop_last() =~= entry_views(state.log@.subrange(0, i as int)));
            assert(entry_views(state.log@.subrange(0, i + 1)).last() == e@);
        }
        if !holds_index(old_applied, e.index) && holds_index(&state.applied_indexes, e.index) {
            match &e.op {
                BlockOp::Write { offset, bytes, .. } => {
                    let b = copy_bytes(bytes);
                    w.push((*offset, b));
                    assert(write_views(w@) =~= fresh_writes(entry_views(state.log@.subrange(0, i + 1)), old_applied@, state.applied_indexes@));
                },
                BlockOp::Flush => {},
            }
        }
        i = i + 1;
    }
    assert(state.log@.subrange(0, state.log@.len() as int) =~= state.log@);
    w
}

/// Reassembles a replica's state from its metadata and the contents of its
/// block and log files, refusing files that do not match the metadata.
pub fn sidecar_state(meta: SidecarReplicaMeta, bytes: Vec<u8>, log: Vec<LogEntry>) -> (r: Result<PersistentReplicaState, RaftBlockError>)
    ensures
        bytes@.len() != meta.capacity_bytes ==> (r matches Err(RaftBlockError::Store(m)) && m@ == "sidecar blocks length "@
            + decimal_text(bytes@.len() as u64) + " does not match capacity "@ + decimal_text(meta.capacity_bytes)),
        bytes@.len() == meta.capacity_bytes && log@.len() != meta.log_len ==> (r matches Err(RaftBlockError::Store(m))
            && m@ == "sidecar log length "@ + decimal_text(log@.len() as u64) + " does not match meta length "@
            + decimal_text(meta.log_len as u64)),
        bytes@.len() == meta.capacity_bytes && log@.len() == meta.log_len ==> r == Ok::<PersistentReplicaState, RaftBlockError>(
            PersistentReplicaState {
                node_id: meta.node_id,
                capacity_bytes: meta.capacity_bytes,
                block_size: meta.block_size,
                highest_term_seen: meta.highest_term_seen,
                applied_indexes: meta.applied_indexes,
                bytes,
                log,
                compacted_through: meta.compacted_through,
            },
        ),
{
    if bytes.len() as u64 != meta.capacity_bytes {
        let mut m = owned("sidecar blocks length ");
        let a = decimal(bytes.len() as u64);
        push_str(&mut m, a.as_str());
        push_str(&mut m, " does not match capacity ");
        let b = decimal(meta.capacity_bytes);
        push_str(&mut m, b.as_str());
        return Err(RaftBlockError::Store(m));
    }
    if log.len() != meta.log_len {
        let mut m = owned("sidecar log length ");
        let a = decimal(log.len() as u64);
        push_str(&mut m, a.as_str());
        push_str(&mut m, " does not match meta length ");
        let b = decimal(meta.log_len as u64);
        push_str(&mut m, b.as_str());
        return Err(RaftBlockError::Store(m));
    }
    Ok(PersistentReplicaState {
        node_id: meta.node_id,
        capacity_bytes: meta.capacity_bytes,
        block_size: meta.block_size,
        highest_term_seen: meta.highest_term_seen,
        applied_indexes: meta.applied_indexes,
        bytes,
        log,
        compacted_through: meta.compacted_through,
    })
}

/// Whether `m` is the metadata `SidecarReplicaMeta::from_state` writes for `s`.
pub open spec fn describes(m: SidecarReplicaMeta, s: PersistentReplicaState) -> bool {
    &&& m.version == SIDECAR_VERSION
    &&& m.node_id == s.node_id
    &&& m.capacity_bytes == s.capacity_bytes
    &&& m.block_size == s.block_size
    &&& m.highest_term_seen == s.highest_term_seen
    &&& m.applied_indexes@ == s.applied_indexes@
    &&& m.compacted_through == s.compacted_through
    &&& m.log_len == s.log@.len()
}

/// Loading what a save wrote gives the saved state back: the metadata that
/// describes a state passes the version check, and reassembling it with the
/// state's blocks and log passes both file checks and restores every field.
pub proof fn sidecar_reassembly_round_trip(m: SidecarReplicaMeta, s: PersistentReplicaState)
    requires
        describes(m, s),
        s.bytes@.len() == s.capacity_bytes,
    ensures
        m.version == SIDECAR_VERSION,
        s.bytes@.len() == m.capacity_bytes,
        s.log@.len() == m.log_len,
        (PersistentReplicaState {
            node_id: m.node_id,
            capacity_bytes: m.capacity_bytes,
            block_size: m.block_size,
            highest_term_seen: m.highest_term_seen,
            applied_indexes: m.applied_indexes,
            bytes: s.bytes,
            log: s.log,
            compacted_through: m.compacted_through,
        }).applied_indexes@ == s.applied_indexes@,
        (PersistentReplicaState {
            node_id: m.node_id,
            capacity_bytes: m.capacity_bytes,
            block_size: m.block_size,
            highest_term_seen: m.highest_term_seen,
            applied_indexes: s.applied_indexes,
            bytes: s.bytes,
            log: s.log,
            compacted_through: m.compacted_through,
        }) == s,
{
}

/// One end of a range of log indexes.
#[derive(Debug, Clone, Copy, PartialEq, Eq, Structural)]
pub enum IndexBound {
    Included(u64),
    Excluded(u64),
    Unbounded,
}

/// Whether `index` lies within the range from `start` to `end`.
pub open spec fn in_range(start: IndexBound, end: IndexBound, index: u64) -> bool {
    (match start {
        IndexBound::Included(s) => index >= s,
        IndexBound::Excluded(s) => index > s,
        IndexBound::Unbounded => true,
    }) && (match end {
        IndexBound::Included(e) => index <= e,
        IndexBound::Excluded(e) => index < e,
        IndexBound::Unbounded => true,
    })
}

/// Whether `index` lies within the range from `start` to `end`.
pub fn range_contains(start: IndexBound, end: IndexBound, index: u64) -> (b: bool)
    ensures
        b == in_range(start, end, index),
{
    let after_start = match start {
        IndexBound::Included(s) => index >= s,
        IndexBound::Excluded(s) => index > s,
        IndexBound::Unbounded => true,
    };
    let before_end = match end {
        IndexBound::Included(e) => index <= e,
        IndexBound::Excluded(e) => index < e,
        IndexBound::Unbounded => true,
    };
    after_start && before_end
}

} // verus!
