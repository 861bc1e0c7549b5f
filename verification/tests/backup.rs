use nexus_core::backup::{
    chunk_object_key, compress_manifest, decompress_manifest, decrypt_chunk, decrypt_manifest, encrypt_chunk,
    encrypt_manifest, manifest_object_key, BackupError, Chunk, ChunkKey, ChunkRef, Chunker, ChunkerParams, Manifest,
    MANIFEST_VERSION,
};

fn key() -> ChunkKey {
    ChunkKey::from_bytes([0x42u8; 32])
}

fn deterministic_payload(size: usize) -> Vec<u8> {
    let mut v = vec![0u8; size];
    let mut s: u64 = 0xdeadbeefu64;
    for byte in v.iter_mut() {
        s = s.wrapping_mul(6364136223846793005).wrapping_add(1442695040888963407);
        *byte = (s >> 33) as u8;
    }
    v
}

/// Feeds `payload` to a chunker in reads of at most 64 KiB, the way a reader would.
struct SliceChunker<'a> {
    chunker: Chunker,
    rest: &'a [u8],
}

impl<'a> SliceChunker<'a> {
    fn new(payload: &'a [u8], params: ChunkerParams) -> Self {
        SliceChunker { chunker: Chunker::new(params), rest: payload }
    }

    fn next_chunk(&mut self) -> Option<Chunk> {
        while self.chunker.wants_input() {
            let n = self.rest.len().min(64 * 1024);
            let (head, tail) = self.rest.split_at(n);
            self.chunker.feed(head);
            self.rest = tail;
        }
        self.chunker.next_chunk()
    }
}

#[test]
fn chunks_emit_in_order_and_cover_input() {
    let payload = deterministic_payload(1_500_000);
    let mut c = SliceChunker::new(&payload, ChunkerParams::default());
    let mut total = 0u64;
    let mut last_offset: i64 = -1;
    while let Some(chunk) = c.next_chunk() {
        assert!(chunk.plaintext_offset as i64 > last_offset);
        assert_eq!(chunk.plaintext_bytes.len(), chunk.plaintext_length as usize);
        assert_eq!(chunk.plaintext_offset, total);
        assert_eq!(&payload[total as usize..total as usize + chunk.plaintext_bytes.len()], &chunk.plaintext_bytes[..]);
        total += chunk.plaintext_length as u64;
        last_offset = chunk.plaintext_offset as i64;
    }
    assert_eq!(total, payload.len() as u64);
}

#[test]
fn deterministic_chunking_same_input() {
    let payload = deterministic_payload(800_000);
    let mut c1 = SliceChunker::new(&payload, ChunkerParams::default());
    let mut c2 = SliceChunker::new(&payload, ChunkerParams::default());
    let mut h1 = Vec::new();
    let mut h2 = Vec::new();
    while let Some(chunk) = c1.next_chunk() {
        h1.push(blake3::hash(&chunk.plaintext_bytes));
    }
    while let Some(chunk) = c2.next_chunk() {
        h2.push(blake3::hash(&chunk.plaintext_bytes));
    }
    assert_eq!(h1, h2, "FastCDC must be deterministic for the same input");
}

#[test]
fn empty_input_yields_no_chunks() {
    let payload: Vec<u8> = Vec::new();
    let mut c = SliceChunker::new(&payload, ChunkerParams::default());
    assert!(c.next_chunk().is_none());
}

#[test]
fn small_input_yields_single_chunk() {
    let payload = deterministic_payload(2 * 1024);
    let mut c = SliceChunker::new(&payload, ChunkerParams::default());
    let chunk = c.next_chunk().expect("one chunk");
    assert_eq!(chunk.plaintext_length as usize, payload.len());
    assert!(c.next_chunk().is_none());
}

#[test]
fn chunker_params_default_sizes() {
    let p = ChunkerParams::default();
    assert_eq!((p.min_size, p.avg_size, p.max_size), (4096, 65536, 1048576));
}

#[test]
fn chunker_wants_input_until_a_maximum_chunk_is_pending() {
    let mut c = Chunker::new(ChunkerParams { min_size: 64, avg_size: 256, max_size: 1024 });
    assert!(c.wants_input());
    c.feed(&[1u8; 1000]);
    assert!(c.wants_input());
    c.feed(&[2u8; 24]);
    assert!(!c.wants_input());
    let first = c.next_chunk().unwrap();
    assert_eq!(first.plaintext_offset, 0);
    assert!(first.plaintext_length as usize <= 1024);
    assert!(c.wants_input());
    c.feed(&[]);
    assert!(!c.wants_input());
}

#[test]
fn convergent_chunk_round_trip() {
    let k = key();
    let plain = b"hello, backup pipeline";
    let plain_hash: [u8; 32] = *blake3::hash(plain).as_bytes();
    let cipher = encrypt_chunk(&k, plain).unwrap();
    let recovered = decrypt_chunk(&k, &cipher, &plain_hash).unwrap();
    assert_eq!(recovered, plain);
}

#[test]
fn convergent_same_plaintext_same_ciphertext() {
    let k = key();
    let plain = b"identical plaintext";
    let c1 = encrypt_chunk(&k, plain).unwrap();
    let c2 = encrypt_chunk(&k, plain).unwrap();
    assert_eq!(c1, c2, "convergent encryption must be deterministic");
}

#[test]
fn different_plaintext_different_ciphertext() {
    let k = key();
    let c1 = encrypt_chunk(&k, b"alpha").unwrap();
    let c2 = encrypt_chunk(&k, b"bravo").unwrap();
    assert_ne!(c1, c2);
}

#[test]
fn chunk_ciphertext_carries_a_tag() {
    let c = encrypt_chunk(&key(), b"abc").unwrap();
    assert_eq!(c.len(), 3 + 16);
    assert_ne!(&c[..3], b"abc");
}

#[test]
fn manifest_round_trip_with_random_nonce() {
    let k = key();
    let plain = b"manifest payload bytes";
    let blob1 = encrypt_manifest(&k, plain).unwrap();
    let blob2 = encrypt_manifest(&k, plain).unwrap();
    assert_ne!(blob1, blob2, "manifest nonce must be random — successive encrypts differ");
    let r1 = decrypt_manifest(&k, &blob1).unwrap();
    assert_eq!(r1, plain);
    assert_eq!(blob1.len(), 24 + plain.len() + 16);
}

#[test]
fn short_manifest_blob_is_refused() {
    match decrypt_manifest(&key(), &[0u8; 23]) {
        Err(BackupError::Cipher(m)) => assert_eq!(m, "manifest blob too short"),
        other => panic!("unexpected {other:?}"),
    }
    assert!(matches!(decrypt_manifest(&key(), &[0u8; 24]), Err(BackupError::AuthFailed)));
}

#[test]
fn tampered_chunk_fails_auth() {
    let k = key();
    let plain = b"sensitive content";
    let plain_hash: [u8; 32] = *blake3::hash(plain).as_bytes();
    let mut cipher = encrypt_chunk(&k, plain).unwrap();
    cipher[0] ^= 0x01;
    let err = decrypt_chunk(&k, &cipher, &plain_hash).unwrap_err();
    assert!(matches!(err, BackupError::AuthFailed));
}

#[test]
fn wrong_key_fails_auth() {
    let k1 = key();
    let k2 = ChunkKey::from_bytes([0x99u8; 32]);
    let plain = b"abc";
    let plain_hash: [u8; 32] = *blake3::hash(plain).as_bytes();
    let cipher = encrypt_chunk(&k1, plain).unwrap();
    let err = decrypt_chunk(&k2, &cipher, &plain_hash).unwrap_err();
    assert!(matches!(err, BackupError::AuthFailed));
}

#[test]
fn chunk_key_bytes_are_kept() {
    assert_eq!(key().as_bytes(), &[0x42u8; 32]);
}

fn sample_manifest() -> Manifest {
    Manifest {
        version: MANIFEST_VERSION,
        backup_id: [0u8; 16],
        source_volume_id: [0u8; 16],
        source_snapshot_id: None,
        total_plaintext_size: 12345,
        created_at_unix_seconds: 1735689600,
        chunks: vec![
            ChunkRef {
                plaintext_offset: 0,
                plaintext_length: 4096,
                plaintext_hash: [1u8; 32],
                chunk_id: [2u8; 32],
                ciphertext_length: 4128,
            },
            ChunkRef {
                plaintext_offset: 4096,
                plaintext_length: 8192,
                plaintext_hash: [3u8; 32],
                chunk_id: [4u8; 32],
                ciphertext_length: 8224,
            },
        ],
    }
}

#[test]
fn current_manifest_version_is_accepted() {
    let m = sample_manifest();
    assert_eq!(m.clone().check_version().unwrap(), m);
}

#[test]
fn manifest_version_mismatch_is_refused() {
    let mut m = sample_manifest();
    m.version = 999;
    let err = m.check_version().unwrap_err();
    assert!(matches!(err, BackupError::ManifestVersion { got: 999, expected: 1 }));
}

#[test]
fn compressed_manifest_bytes_round_trip() {
    let bytes = deterministic_payload(10_000);
    let blob = compress_manifest(&bytes).unwrap();
    assert_ne!(blob, bytes);
    assert_eq!(decompress_manifest(&blob).unwrap(), bytes);
}

#[test]
fn garbage_is_not_a_compressed_manifest() {
    match decompress_manifest(b"not zstd at all") {
        Err(BackupError::Manifest(m)) => assert!(m.starts_with("zstd decode: ")),
        other => panic!("unexpected {other:?}"),
    }
}

#[test]
fn chunk_key_format() {
    let mut id = [0u8; 32];
    id[0] = 0xab;
    id[1] = 0xcd;
    let key = chunk_object_key("", &id);
    assert!(key.starts_with("chunks/ab/abcd"));
    let key2 = chunk_object_key("backup-prefix/", &id);
    assert!(key2.starts_with("backup-prefix/chunks/ab/abcd"));
}

#[test]
fn chunk_key_is_exact() {
    let id = [0x0fu8; 32];
    let hex = "0f".repeat(32);
    assert_eq!(chunk_object_key("p//", &id), format!("p/chunks/0f/{hex}"));
    assert_eq!(chunk_object_key("p", &id), format!("p/chunks/0f/{hex}"));
}

#[test]
fn manifest_key_format() {
    let id = uuid::Uuid::nil();
    assert_eq!(manifest_object_key("", id.as_bytes()), format!("manifests/{}.bin", id));
    assert_eq!(manifest_object_key("p/", id.as_bytes()), format!("p/manifests/{}.bin", id));
}

#[test]
fn manifest_key_uses_hyphenated_ids() {
    let id = [
        0x01, 0x8f, 0x64, 0xba, 0x97, 0xaa, 0x70, 0xd9, 0xa7, 0xd2, 0x64, 0x59, 0x25, 0x6f, 0xd1, 0x11,
    ];
    assert_eq!(manifest_object_key("b", &id), "b/manifests/018f64ba-97aa-70d9-a7d2-6459256fd111.bin");
}

#[test]
fn backup_errors_display_their_cause() {
    assert_eq!(BackupError::AuthFailed.message(), "authentication failed (Poly1305 MAC mismatch)");
    assert_eq!(
        BackupError::ManifestVersion { got: 999, expected: 1 }.message(),
        "manifest version mismatch: got 999, expected 1"
    );
    assert_eq!(BackupError::Cipher("manifest blob too short".into()).message(), "cipher: manifest blob too short");
    assert_eq!(BackupError::Io("eof".into()).message(), "io: eof");
}

#[test]
fn average_above_maximum_is_not_valid() {
    assert!(ChunkerParams { min_size: 64, avg_size: 256, max_size: 1024 }.is_valid());
    assert!(!ChunkerParams { min_size: 64, avg_size: 4194304, max_size: 1024 }.is_valid());
    assert!(ChunkerParams::default().is_valid());
}
