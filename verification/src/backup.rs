//! Backup transforms: content-defined chunking, convergent chunk encryption,
//! manifest encryption and the object keys chunks and manifests are stored under.

use vstd::prelude::*;
use chacha20poly1305::aead::Aead;
use chacha20poly1305::KeyInit;
use crate::storage::{decimal, decimal_text, hex_lower};
use crate::text::{has_prefix, owned, push_char, push_str, trim_end_slashes, trim_trailing_slashes};

verus! {

/// Why a backup transform failed.
#[derive(Debug)]
pub enum BackupError {
    Chunker(String),
    Cipher(String),
    Manifest(String),
    AuthFailed,
    ManifestVersion { got: u32, expected: u32 },
    Io(String),
    Other(String),
}

/// The text an error is shown as.
pub open spec fn backup_error_text(e: BackupError) -> Seq<char> {
    match e {
        BackupError::Chunker(m) => "chunker: "@ + m@,
        BackupError::Cipher(m) => "cipher: "@ + m@,
        BackupError::Manifest(m) => "manifest: "@ + m@,
        BackupError::AuthFailed => "authentication failed (Poly1305 MAC mismatch)"@,
        BackupError::ManifestVersion { got, expected } => "manifest version mismatch: got "@ + decimal_text(
            got as u64,
        ) + ", expected "@ + decimal_text(expected as u64),
        BackupError::Io(m) => "io: "@ + m@,
        BackupError::Other(m) => "other: "@ + m@,
    }
}

fn prefixed(prefix: &str, m: &String) -> (s: String)
    ensures
        s@ == prefix@ + m@,
{
    let mut s = owned(prefix);
    push_str(&mut s, m.as_str());
    s
}

impl BackupError {
    /// The text the error is shown as.
    pub fn message(&self) -> (s: String)
        ensures
            s@ == backup_error_text(*self),
    {
        match self {
            BackupError::Chunker(m) => prefixed("chunker: ", m),
            BackupError::Cipher(m) => prefixed("cipher: ", m),
            BackupError::Manifest(m) => prefixed("manifest: ", m),
            BackupError::AuthFailed => owned("authentication failed (Poly1305 MAC mismatch)"),
            BackupError::ManifestVersion { got, expected } => {
                let mut s = owned("manifest version mismatch: got ");
                let a = decimal(*got as u64);
                push_str(&mut s, a.as_str());
                push_str(&mut s, ", expected ");
                let b = decimal(*expected as u64);
                push_str(&mut s, b.as_str());
                s
            },
            BackupError::Io(m) => prefixed("io: ", m),
            BackupError::Other(m) => prefixed("other: ", m),
        }
    }
}

/// Minimum, average and maximum chunk sizes.
#[derive(Debug, Clone, Copy)]
pub struct ChunkerParams {
    pub min_size: u32,
    pub avg_size: u32,
    pub max_size: u32,
}

impl Default for ChunkerParams {
    /// 4 KiB minimum, 64 KiB average, 1 MiB maximum.
    fn default() -> (p: Self)
        ensures
            p.min_size == 4096 && p.avg_size == 65536 && p.max_size == 1048576,
    {
        ChunkerParams { min_size: 4096, avg_size: 65536, max_size: 1048576 }
    }
}

/// Whether these sizes can be handed to FastCDC: each within the range it
/// accepts (it panics outside them), and the average no larger than the
/// maximum (with a larger average FastCDC can cut past the maximum, or
/// index past the end of its input).
pub open spec fn params_valid(p: ChunkerParams) -> bool {
    &&& 64 <= p.min_size <= 1048576
    &&& 256 <= p.avg_size <= 4194304
    &&& 1024 <= p.max_size <= 16777216
    &&& p.avg_size <= p.max_size
}

impl ChunkerParams {
    /// Whether these sizes can be handed to FastCDC, as `params_valid` says.
    pub fn is_valid(&self) -> (b: bool)
        ensures
            b == params_valid(*self),
    {
        64 <= self.min_size && self.min_size <= 1048576 && 256 <= self.avg_size && self.avg_size <= 4194304
            && 1024 <= self.max_size && self.max_size <= 16777216 && self.avg_size <= self.max_size
    }
}

/// The length of the first chunk FastCDC (2020 variant, level 1) cuts from `source`.
pub uninterp spec fn fastcdc_first_cut(source: Seq<u8>, min_size: u32, avg_size: u32, max_size: u32) -> nat;

/// Calls `fastcdc::v2020::FastCDC::new(..).next()` and returns the length of
/// the first chunk: none for empty input, otherwise between one byte and the
/// whole input; the whole input when it is no longer than the minimum size,
/// and otherwise no longer than the maximum size.
#[verifier::external_body]
fn first_cut(source: &[u8], min_size: u32, avg_size: u32, max_size: u32) -> (r: Option<usize>)
    requires
        params_valid(ChunkerParams { min_size, avg_size, max_size }),
    ensures
        source@.len() == 0 <==> r is None,
        r matches Some(n) ==> 0 < n <= source@.len() && n == fastcdc_first_cut(source@, min_size, avg_size, max_size),
        r matches Some(n) ==> (source@.len() <= min_size ==> n == source@.len()),
        r matches Some(n) ==> (n <= max_size || (n == source@.len() && n <= min_size)),
{
    fastcdc::v2020::FastCDC::new(source, min_size, avg_size, max_size).next().map(|c| c.length)
}

/// A piece of the input, with its place in the input.
#[derive(Debug)]
pub struct Chunk {
    pub plaintext_offset: u64,
    pub plaintext_length: u32,
    pub plaintext_bytes: Vec<u8>,
}

/// Cuts a stream of bytes into content-defined chunks. The reading itself
/// happens outside: the caller feeds what it reads while `wants_input` holds.
pub struct Chunker {
    params: ChunkerParams,
    buf: Vec<u8>,
    offset: u64,
    eof: bool,
    fed: Ghost<Seq<u8>>,
    emitted: Ghost<Seq<u8>>,
}

impl Chunker {
    pub closed spec fn params(&self) -> ChunkerParams {
        self.params
    }

    /// Bytes read but not yet cut into chunks.
    pub closed spec fn pending(&self) -> Seq<u8> {
        self.buf@
    }

    /// Where in the input the next chunk starts.
    pub closed spec fn offset(&self) -> u64 {
        self.offset
    }

    /// Whether the input has ended.
    pub closed spec fn at_end(&self) -> bool {
        self.eof
    }

    /// Every byte fed so far, in order.
    pub closed spec fn fed(&self) -> Seq<u8> {
        self.fed@
    }

    /// The bytes of every chunk cut so far, in order.
    pub closed spec fn emitted(&self) -> Seq<u8> {
        self.emitted@
    }

    /// What every chunker keeps: the chunks cut so far followed by the
    /// pending bytes are exactly the bytes fed, and the next chunk starts
    /// where the cut ones end.
    pub open spec fn consistent(&self) -> bool {
        &&& self.fed() == self.emitted() + self.pending()
        &&& self.offset() == self.emitted().len()
    }

    pub fn new(params: ChunkerParams) -> (c: Self)
        ensures
            c.params() == params,
            c.pending() == Seq::<u8>::empty(),
            c.offset() == 0,
            !c.at_end(),
            c.fed() == Seq::<u8>::empty(),
            c.emitted() == Seq::<u8>::empty(),
            c.consistent(),
    {
        let c = Chunker { params, buf: Vec::new(), offset: 0, eof: false, fed: Ghost(Seq::empty()), emitted: Ghost(Seq::empty()) };
        assert(c.fed() =~= c.emitted() + c.pending());
        c
    }

    /// Whether another read is wanted before the next chunk is cut: the
    /// input has not ended and less than a maximum chunk is pending.
    pub fn wants_input(&self) -> (b: bool)
        ensures
            b <==> (!self.at_end() && self.pending().len() < self.params().max_size),
    {
        !self.eof && self.buf.len() < self.params.max_size as usize
    }

    /// Takes what one read returned; an empty read marks the end of the input.
    pub fn feed(&mut self, data: &[u8])
        requires
            old(self).consistent(),
        ensures
            final(self).consistent(),
            final(self).fed() == old(self).fed() + data@,
            final(self).emitted() == old(self).emitted(),
            final(self).params() == old(self).params(),
            final(self).offset() == old(self).offset(),
            data@.len() == 0 ==> final(self).at_end() && final(self).pending() == old(self).pending(),
            data@.len() > 0 ==> final(self).at_end() == old(self).at_end() && final(self).pending()
                == old(self).pending() + data@,
    {
        if data.len() == 0 {
            self.eof = true;
        } else {
            let mut i: usize = 0;
            let ghost before = self.buf@;
            let ghost start = *self;
            while i < data.len()
                invariant
                    0 <= i <= data@.len(),
                    self.params == start.params,
                    self.offset == start.offset,
                    self.eof == start.eof,
                    self.fed == start.fed,
                    self.emitted == start.emitted,
                    self.buf@ == before + data@.subrange(0, i as int),
                decreases data@.len() - i,
            {
                self.buf.push(data[i]);
                i = i + 1;
            }
            assert(data@.subrange(0, data@.len() as int) =~= data@);
        }
        proof {
            self.fed@ = self.fed@ + data@;
            assert(self.fed@ =~= self.emitted@ + self.buf@);
        }
    }

    /// Cuts the next chunk from the pending bytes: the chunk starts where the
    /// previous one ended, and its bytes are the first `fastcdc_first_cut`
    /// pending bytes. With nothing pending there is no chunk; no more than the
    /// minimum size pending comes out whole; otherwise a chunk is at most the
    /// maximum size.
    pub fn next_chunk(&mut self) -> (c: Option<Chunk>)
        requires
            params_valid(old(self).params()),
            old(self).offset() + old(self).pending().len() <= u64::MAX,
            old(self).consistent(),
        ensures
            final(self).consistent(),
            final(self).fed() == old(self).fed(),
            c matches Some(chunk) ==> final(self).emitted() == old(self).emitted() + chunk.plaintext_bytes@,
            c is None ==> final(self).emitted() == old(self).emitted(),
            final(self).params() == old(self).params(),
            final(self).at_end() == old(self).at_end(),
            old(self).pending().len() == 0 ==> c is None && final(self).pending() == old(self).pending()
                && final(self).offset() == old(self).offset(),
            old(self).pending().len() > 0 ==> (c matches Some(chunk) && {
                let n = fastcdc_first_cut(
                    old(self).pending(),
                    old(self).params().min_size,
                    old(self).params().avg_size,
                    old(self).params().max_size,
                );
                &&& 0 < n <= old(self).pending().len()
                &&& old(self).pending().len() <= old(self).params().min_size ==> n == old(self).pending().len()
                &&& n <= old(self).params().max_size || (n == old(self).pending().len() && n
                    <= old(self).params().min_size)
                &&& chunk.plaintext_offset == old(self).offset()
                &&& chunk.plaintext_length == n
                &&& chunk.plaintext_bytes@ == old(self).pending().subrange(0, n as int)
                &&& final(self).pending() == old(self).pending().subrange(n as int, old(self).pending().len() as int)
                &&& final(self).offset() == old(self).offset() + n
            }),
    {
        if self.buf.len() == 0 {
            return None;
        }
        let cut = match first_cut(self.buf.as_slice(), self.params.min_size, self.params.avg_size, self.params.max_size) {
            Some(n) => n,
            None => self.buf.len(),
        };
        let mut head: Vec<u8> = Vec::with_capacity(cut);
        let mut rest: Vec<u8> = Vec::new();
        let mut i: usize = 0;
        while i < self.buf.len()
            invariant
                0 <= i <= self.buf@.len(),
                0 < cut <= self.buf@.len(),
                i <= cut ==> head@ == self.buf@.subrange(0, i as int) && rest@ == Seq::<u8>::empty(),
                i > cut ==> head@ == self.buf@.subrange(0, cut as int) && rest@ == self.buf@.subrange(cut as int, i as int),
            decreases self.buf@.len() - i,
        {
            if i < cut {
                head.push(self.buf[i]);
            } else {
                rest.push(self.buf[i]);
            }
            i = i + 1;
        }
        let length = cut as u32;
        proof {
            assert(self.buf@ =~= head@ + rest@);
            self.emitted@ = self.emitted@ + head@;
            assert(self.fed@ =~= self.emitted@ + rest@);
        }
        self.buf = rest;
        self.offset = self.offset + cut as u64;
        Some(Chunk { plaintext_offset: self.offset - cut as u64, plaintext_length: length, plaintext_bytes: head })
    }
}

/// Chunking covers the input in order: once nothing is pending (after the
/// input ended, when `next_chunk` has no chunk left), the chunks cut so far,
/// joined in the order they were cut, are exactly the bytes fed, and the
/// offset is their total length.
pub proof fn chunks_cover_input(c: Chunker)
    requires
        c.consistent(),
        c.pending().len() == 0,
    ensures
        c.emitted() == c.fed(),
        c.offset() == c.fed().len(),
{
    assert(c.emitted() + c.pending() =~= c.emitted());
}

/// A 32-byte XChaCha20-Poly1305 key.
pub struct ChunkKey([u8; 32]);

impl ChunkKey {
    pub closed spec fn key_bytes(&self) -> Seq<u8> {
        self.0@
    }

    pub fn from_bytes(bytes: [u8; 32]) -> (k: Self)
        ensures
            k.key_bytes() == bytes@,
    {
        ChunkKey(bytes)
    }

    pub fn as_bytes(&self) -> (b: &[u8; 32])
        ensures
            b@ == self.key_bytes(),
    {
        &self.0
    }
}

/// The BLAKE3 hash of `data`, as the `blake3` crate computes it.
pub uninterp spec fn blake3_of(data: Seq<u8>) -> Seq<u8>;

/// Calls `blake3::hash`; the 32-byte digest is named `blake3_of`.
#[verifier::external_body]
fn blake3_hash(data: &[u8]) -> (h: [u8; 32])
    ensures
        h@ == blake3_of(data@),
{
    *blake3::hash(data).as_bytes()
}

/// The XChaCha20-Poly1305 ciphertext (with its tag) of `plaintext` under `key` and `nonce`.
pub uninterp spec fn xchacha_seal(key: Seq<u8>, nonce: Seq<u8>, plaintext: Seq<u8>) -> Seq<u8>;

/// What XChaCha20-Poly1305 decryption of `ciphertext` yields, if its tag verifies.
pub uninterp spec fn xchacha_open(key: Seq<u8>, nonce: Seq<u8>, ciphertext: Seq<u8>) -> Option<Seq<u8>>;

/// Whether XChaCha20-Poly1305 accepts a message of `len` bytes.
pub open spec fn sealable(len: nat) -> bool {
    len / 64 < 4294967295
}

#[verifier::external_type_specification]
#[verifier::external_body]
pub struct ExAeadError(chacha20poly1305::aead::Error);

/// Calls `XChaCha20Poly1305::encrypt` with no associated data: it fails only
/// for messages too long for the cipher; the ciphertext, 16 bytes longer
/// than the plaintext, is named `xchacha_seal`.
#[verifier::external_body]
fn xchacha_encrypt(key: &[u8; 32], nonce: &[u8; 24], plaintext: &[u8]) -> (r: Result<Vec<u8>, chacha20poly1305::aead::Error>)
    ensures
        r is Ok <==> sealable(plaintext@.len()),
        r matches Ok(c) ==> c@ == xchacha_seal(key@, nonce@, plaintext@) && c@.len() == plaintext@.len() + 16,
{
    let cipher = chacha20poly1305::XChaCha20Poly1305::new(key.into());
    cipher.encrypt(chacha20poly1305::XNonce::from_slice(nonce), plaintext)
}

/// Calls `XChaCha20Poly1305::decrypt` with no associated data: it succeeds
/// exactly when the tag verifies, with the plaintext named `xchacha_open`;
/// the ciphertext of a message under the same key and nonce decrypts to it.
#[verifier::external_body]
fn xchacha_decrypt(key: &[u8; 32], nonce: &[u8; 24], ciphertext: &[u8]) -> (r: Result<Vec<u8>, chacha20poly1305::aead::Error>)
    ensures
        r is Ok <==> xchacha_open(key@, nonce@, ciphertext@) is Some,
        r matches Ok(p) ==> xchacha_open(key@, nonce@, ciphertext@) == Some(p@),
        r matches Ok(out) ==> forall|p: Seq<u8>| sealable(p.len()) && #[trigger] xchacha_seal(key@, nonce@, p) == ciphertext@
            ==> out@ == p,
        r is Err ==> forall|p: Seq<u8>| !(sealable(p.len()) && #[trigger] xchacha_seal(key@, nonce@, p) == ciphertext@),
{
    let cipher = chacha20poly1305::XChaCha20Poly1305::new(key.into());
    cipher.decrypt(chacha20poly1305::XNonce::from_slice(nonce), ciphertext)
}

/// Calls `rand::thread_rng().fill_bytes` for a fresh nonce; nothing is
/// promised of its value.
#[verifier::external_body]
fn random_nonce() -> (n: [u8; 24]) {
    let mut nonce = [0u8; 24];
    rand::RngCore::fill_bytes(&mut rand::thread_rng(), &mut nonce);
    nonce
}

/// The first 24 bytes of a 32-byte digest.
fn nonce_from_digest(d: &[u8; 32]) -> (n: [u8; 24])
    ensures
        n@ == d@.subrange(0, 24),
{
    let mut n = [0u8; 24];
    let mut i: usize = 0;
    while i < 24
        invariant
            0 <= i <= 24,
            forall|j: int| 0 <= j < i ==> n@[j] == d@[j],
        decreases 24 - i,
    {
        n.set(i, d[i]);
        i = i + 1;
    }
    assert(n@ =~= d@.subrange(0, 24));
    n
}

/// The convergent nonce of a plaintext: the first 24 bytes of its BLAKE3 hash.
pub open spec fn convergent_nonce(plaintext: Seq<u8>) -> Seq<u8> {
    blake3_of(plaintext).subrange(0, 24)
}

/// Whether `r` succeeded with exactly the bytes `p`.
pub open spec fn yields(r: Result<Vec<u8>, BackupError>, p: Seq<u8>) -> bool {
    r matches Ok(out) && out@ == p
}

/// Whether `e` is the cipher failure whose message is `msg`.
pub open spec fn is_cipher_error(e: BackupError, msg: Seq<char>) -> bool {
    e matches BackupError::Cipher(m) && m@ == msg
}

/// Convergent encryption of one chunk: the nonce is the first 24 bytes of
/// the BLAKE3 hash of the plaintext, so equal plaintexts under one key give
/// equal ciphertexts. Fails, with the cipher's message, only for a
/// plaintext too long for the cipher.
pub fn encrypt_chunk(key: &ChunkKey, plaintext: &[u8]) -> (r: Result<Vec<u8>, BackupError>)
    ensures
        r is Ok <==> sealable(plaintext@.len()),
        r matches Ok(c) ==> c@ == xchacha_seal(key.key_bytes(), convergent_nonce(plaintext@), plaintext@),
        r matches Err(e) ==> is_cipher_error(e, "encrypt: aead::Error"@),
{
    let digest = blake3_hash(plaintext);
    let nonce = nonce_from_digest(&digest);
    match xchacha_encrypt(key.as_bytes(), &nonce, plaintext) {
        Ok(c) => Ok(c),
        Err(_) => {
            let msg = owned("encrypt: aead::Error");
            proof {
                reveal_strlit("encrypt: aead::Error");
            }
            Err(BackupError::Cipher(msg))
        },
    }
}

/// Decrypts a chunk whose plaintext hash is known (from the manifest): the
/// nonce is the first 24 bytes of that hash. A tag that does not verify
/// (tampered bytes, wrong key, wrong hash) gives `AuthFailed`; the convergent
/// encryption of a plaintext, given that plaintext's hash, gives it back.
pub fn decrypt_chunk(key: &ChunkKey, ciphertext: &[u8], plaintext_hash: &[u8; 32]) -> (r: Result<Vec<u8>, BackupError>)
    ensures
        r is Ok <==> xchacha_open(key.key_bytes(), plaintext_hash@.subrange(0, 24), ciphertext@) is Some,
        r matches Ok(p) ==> xchacha_open(key.key_bytes(), plaintext_hash@.subrange(0, 24), ciphertext@) == Some(p@),
        r matches Err(e) ==> e is AuthFailed,
        forall|p: Seq<u8>|
            sealable(p.len()) && blake3_of(p) == plaintext_hash@
                && #[trigger] xchacha_seal(key.key_bytes(), convergent_nonce(p), p) == ciphertext@
                ==> yields(r, p),
{
    let nonce = nonce_from_digest(plaintext_hash);
    match xchacha_decrypt(key.as_bytes(), &nonce, ciphertext) {
        Ok(p) => Ok(p),
        Err(_) => Err(BackupError::AuthFailed),
    }
}

/// Encrypts a manifest under a fresh random nonce and returns the nonce
/// followed by the ciphertext. Fails, with the cipher's message, only for a
/// plaintext too long for the cipher.
pub fn encrypt_manifest(key: &ChunkKey, plaintext: &[u8]) -> (r: Result<Vec<u8>, BackupError>)
    ensures
        r is Ok <==> sealable(plaintext@.len()),
        r matches Ok(blob) ==> blob@.len() == 24 + plaintext@.len() + 16 && blob@.subrange(24, blob@.len() as int)
            == xchacha_seal(key.key_bytes(), blob@.subrange(0, 24), plaintext@),
        r matches Err(e) ==> is_cipher_error(e, "encrypt manifest: aead::Error"@),
{
    let nonce = random_nonce();
    match xchacha_encrypt(key.as_bytes(), &nonce, plaintext) {
        Ok(c) => {
            let mut out: Vec<u8> = Vec::new();
            let mut i: usize = 0;
            while i < 24
                invariant
                    0 <= i <= 24,
                    out@ == nonce@.subrange(0, i as int),
                decreases 24 - i,
            {
                out.push(nonce[i]);
                i = i + 1;
            }
            let mut j: usize = 0;
            while j < c.len()
                invariant
                    0 <= j <= c@.len(),
                    out@ == nonce@ + c@.subrange(0, j as int),
                decreases c@.len() - j,
            {
                out.push(c[j]);
                j = j + 1;
            }
            assert(out@.subrange(0, 24) =~= nonce@);
            assert(out@.subrange(24, out@.len() as int) =~= c@);
            Ok(out)
        },
        Err(_) => {
            let msg = owned("encrypt manifest: aead::Error");
            proof {
                reveal_strlit("encrypt manifest: aead::Error");
            }
            Err(BackupError::Cipher(msg))
        },
    }
}

/// Decrypts `[nonce(24) | ciphertext+tag]`. A blob shorter than a nonce is
/// refused with a cipher error; a tag that does not verify gives
/// `AuthFailed`; what `encrypt_manifest` produced comes back as its plaintext.
pub fn decrypt_manifest(key: &ChunkKey, blob: &[u8]) -> (r: Result<Vec<u8>, BackupError>)
    ensures
        blob@.len() < 24 ==> (r matches Err(e) && is_cipher_error(e, "manifest blob too short"@)),
        blob@.len() >= 24 ==> {
            let open = xchacha_open(key.key_bytes(), blob@.subrange(0, 24), blob@.subrange(24, blob@.len() as int));
            &&& r is Ok <==> open is Some
            &&& r matches Ok(p) ==> open == Some(p@)
            &&& r matches Err(e) ==> e is AuthFailed
        },
        forall|p: Seq<u8>|
            sealable(p.len()) && blob@.len() >= 24
                && #[trigger] xchacha_seal(key.key_bytes(), blob@.subrange(0, 24), p) == blob@.subrange(24, blob@.len() as int)
                ==> yields(r, p),
{
    if blob.len() < 24 {
        let msg = owned("manifest blob too short");
        proof {
            reveal_strlit("manifest blob too short");
        }
        return Err(BackupError::Cipher(msg));
    }
    let (head, tail) = blob.split_at(24);
    let mut nonce = [0u8; 24];
    let mut i: usize = 0;
    while i < 24
        invariant
            0 <= i <= 24,
            head@.len() == 24,
            forall|j: int| 0 <= j < i ==> nonce@[j] == head@[j],
        decreases 24 - i,
    {
        nonce.set(i, head[i]);
        i = i + 1;
    }
    assert(nonce@ =~= blob@.subrange(0, 24));
    assert(tail@ =~= blob@.subrange(24, blob@.len() as int));
    match xchacha_decrypt(key.as_bytes(), &nonce, tail) {
        Ok(p) => Ok(p),
        Err(_) => Err(BackupError::AuthFailed),
    }
}

/// The manifest format version this library writes and accepts.
pub const MANIFEST_VERSION: u32 = 1;

/// Where one encrypted chunk came from and where it is stored.
#[derive(Debug, Clone, Copy, PartialEq, Eq)]
pub struct ChunkRef {
    pub plaintext_offset: u64,
    pub plaintext_length: u32,
    pub plaintext_hash: [u8; 32],
    pub chunk_id: [u8; 32],
    pub ciphertext_length: u32,
}

/// The description of one backup; ids are the 16 bytes of UUIDs.
#[derive(Debug, Clone, PartialEq, Eq)]
pub struct Manifest {
    pub version: u32,
    pub backup_id: [u8; 16],
    pub source_volume_id: [u8; 16],
    pub source_snapshot_id: Option<[u8; 16]>,
    pub total_plaintext_size: u64,
    pub created_at_unix_seconds: i64,
    pub chunks: Vec<ChunkRef>,
}

impl Manifest {
    /// Accepts a decoded manifest only if it has the current version.
    pub fn check_version(self) -> (r: Result<Manifest, BackupError>)
        ensures
            self.version == MANIFEST_VERSION ==> r == Ok::<Manifest, BackupError>(self),
            self.version != MANIFEST_VERSION ==> r == Err::<Manifest, BackupError>(
                BackupError::ManifestVersion { got: self.version, expected: MANIFEST_VERSION },
            ),
    {
        if self.version != MANIFEST_VERSION {
            return Err(BackupError::ManifestVersion { got: self.version, expected: MANIFEST_VERSION });
        }
        Ok(self)
    }
}

/// The zstd frame that `zstd::stream::encode_all` writes for `data` at `level`.
pub uninterp spec fn zstd_frame(data: Seq<u8>, level: i32) -> Seq<u8>;

/// What `zstd::stream::decode_all` reads back from `frame`, if it is a valid zstd stream.
pub uninterp spec fn zstd_content(frame: Seq<u8>) -> Option<Seq<u8>>;

/// Calls `zstd::stream::encode_all` on the bytes; the frame is named
/// `zstd_frame`. The error's text is handed back as it displays. Reading an
/// in-memory slice cannot fail, and at a valid level the only failure left
/// is zstd failing to allocate its working memory, which depends on the
/// machine: when that happens is left unsaid.
#[verifier::external_body]
fn zstd_encode(data: &[u8], level: i32) -> (r: Result<Vec<u8>, String>)
    ensures
        r matches Ok(c) ==> c@ == zstd_frame(data@, level),
{
    zstd::stream::encode_all(data, level).map_err(|e| e.to_string())
}

/// Calls `zstd::stream::decode_all` on the bytes: it succeeds exactly on a
/// valid stream, with the content named `zstd_content`, and a frame that
/// `encode_all` wrote decodes to the data it was written from.
#[verifier::external_body]
fn zstd_decode(frame: &[u8]) -> (r: Result<Vec<u8>, String>)
    ensures
        r is Ok <==> zstd_content(frame@) is Some,
        r matches Ok(d) ==> zstd_content(frame@) == Some(d@),
        r matches Ok(d) ==> forall|data: Seq<u8>, level: i32| #[trigger] zstd_frame(data, level) == frame@ ==> d@ == data,
        r is Err ==> forall|data: Seq<u8>, level: i32| #[trigger] zstd_frame(data, level) != frame@,
{
    zstd::stream::decode_all(frame).map_err(|e| e.to_string())
}

/// Compresses an encoded manifest with zstd at level 3; a compressor
/// failure is a manifest error whose message starts with `zstd: `.
pub fn compress_manifest(encoded: &[u8]) -> (r: Result<Vec<u8>, BackupError>)
    ensures
        r matches Ok(c) ==> c@ == zstd_frame(encoded@, 3),
        r matches Err(e) ==> (e matches BackupError::Manifest(m) && has_prefix(m@, "zstd: "@)),
{
    match zstd_encode(encoded, 3) {
        Ok(c) => Ok(c),
        Err(text) => {
            let mut msg = owned("zstd: ");
            push_str(&mut msg, text.as_str());
            proof {
                reveal_strlit("zstd: ");
                assert(msg@.subrange(0, 6) =~= "zstd: "@);
            }
            Err(BackupError::Manifest(msg))
        },
    }
}

/// Decompresses a stored manifest: a stream that does not decode is a
/// manifest error whose message starts with `zstd decode: `; what
/// `compress_manifest` produced comes back as the bytes it was given.
pub fn decompress_manifest(blob: &[u8]) -> (r: Result<Vec<u8>, BackupError>)
    ensures
        r is Ok <==> zstd_content(blob@) is Some,
        r matches Ok(d) ==> zstd_content(blob@) == Some(d@),
        r matches Err(e) ==> (e matches BackupError::Manifest(m) && has_prefix(m@, "zstd decode: "@)),
        forall|data: Seq<u8>| #[trigger] zstd_frame(data, 3) == blob@ ==> yields(r, data),
{
    match zstd_decode(blob) {
        Ok(d) => Ok(d),
        Err(text) => {
            let mut msg = owned("zstd decode: ");
            push_str(&mut msg, text.as_str());
            proof {
                reveal_strlit("zstd decode: ");
                assert(msg@.subrange(0, 13) =~= "zstd decode: "@);
            }
            Err(BackupError::Manifest(msg))
        },
    }
}

/// Two lowercase hexadecimal digits per byte.
pub proof fn lemma_hex_len(bytes: Seq<u8>)
    ensures
        hex_lower(bytes).len() == 2 * bytes.len(),
    decreases bytes.len(),
{
    if bytes.len() > 0 {
        lemma_hex_len(bytes.drop_first());
    }
}

/// Calls `hex::encode`: two lowercase hexadecimal digits per byte, in order.
#[verifier::external_body]
fn hex_encode(bytes: &[u8; 32]) -> (s: String)
    ensures
        s@ == hex_lower(bytes@),
{
    hex::encode(bytes)
}

/// `prefix` with its trailing slashes removed and one `/` added, or nothing for an empty prefix.
pub open spec fn key_root(prefix: Seq<char>) -> Seq<char> {
    if prefix.len() == 0 {
        Seq::empty()
    } else {
        trim_trailing_slashes(prefix) + "/"@
    }
}

/// `chunks/<first two hex digits>/<hex id>` under the prefix.
pub open spec fn chunk_key_text(prefix: Seq<char>, chunk_id: Seq<u8>) -> Seq<char> {
    key_root(prefix) + "chunks/"@ + hex_lower(chunk_id).subrange(0, 2) + "/"@ + hex_lower(chunk_id)
}

/// Builds the root a key starts with.
fn key_root_of(prefix: &str) -> (s: String)
    ensures
        s@ == key_root(prefix@),
{
    if prefix.unicode_len() == 0 {
        String::new()
    } else {
        let mut s = trim_end_slashes(prefix);
        push_char(&mut s, '/');
        proof {
            reveal_strlit("/");
        }
        s
    }
}

/// The object key an encrypted chunk is stored under.
pub fn chunk_object_key(prefix: &str, chunk_id: &[u8; 32]) -> (k: String)
    ensures
        k@ == chunk_key_text(prefix@, chunk_id@),
{
    let hex = hex_encode(chunk_id);
    proof {
        lemma_hex_len(chunk_id@);
        reveal_strlit("chunks/");
        reveal_strlit("/");
    }
    let mut k = key_root_of(prefix);
    push_str(&mut k, "chunks/");
    push_char(&mut k, hex.as_str().get_char(0));
    push_char(&mut k, hex.as_str().get_char(1));
    push_char(&mut k, '/');
    push_str(&mut k, hex.as_str());
    assert(k@ =~= chunk_key_text(prefix@, chunk_id@));
    k
}

/// The hyphenated lowercase text of a UUID: 8-4-4-4-12 hexadecimal digits.
pub open spec fn uuid_text(bytes: Seq<u8>) -> Seq<char> {
    hex_lower(bytes.subrange(0, 4)) + "-"@ + hex_lower(bytes.subrange(4, 6)) + "-"@
        + hex_lower(bytes.subrange(6, 8)) + "-"@ + hex_lower(bytes.subrange(8, 10)) + "-"@
        + hex_lower(bytes.subrange(10, 16))
}

/// Calls `Uuid::from_bytes(bytes).to_string()`, which writes the hyphenated
/// lowercase form: 8-4-4-4-12 hexadecimal digits of the bytes in order.
#[verifier::external_body]
pub(crate) fn uuid_hyphenated(bytes: [u8; 16]) -> (s: String)
    ensures
        s@ == uuid_text(bytes@),
{
    uuid::Uuid::from_bytes(bytes).to_string()
}

/// `manifests/<backup id>.bin` under the prefix.
pub open spec fn manifest_key_text(prefix: Seq<char>, backup_id: Seq<u8>) -> Seq<char> {
    key_root(prefix) + "manifests/"@ + uuid_text(backup_id) + ".bin"@
}

/// The object key a backup's manifest is stored under.
pub fn manifest_object_key(prefix: &str, backup_id: &[u8; 16]) -> (k: String)
    ensures
        k@ == manifest_key_text(prefix@, backup_id@),
{
    let id = uuid_hyphenated(*backup_id);
    let mut k = key_root_of(prefix);
    push_str(&mut k, "manifests/");
    push_str(&mut k, id.as_str());
    push_str(&mut k, ".bin");
    k
}

} // verus!
