use unhosted::swarm::{
    chunk_span, format_digest, is_valid_digest, peers_with_digest,
    ListModelsResponse, ModelManifest, SeedableModel, CHUNK_SIZE,
};

fn synthetic(len: usize) -> Vec<u8> {
    let mut v = Vec::with_capacity(len);
    let mut x: u32 = 0x9e37_79b9;
    for _ in 0..len {
        x = x.wrapping_mul(1_664_525).wrapping_add(1_013_904_223);
        v.push((x >> 24) as u8);
    }
    v
}

#[test]
fn format_digest_is_prefixed_lowercase_hex() {
    let raw = [0u8; 32];
    let d = format_digest(&raw);
    assert!(d.starts_with("sha256:"));
    assert_eq!(d.len(), "sha256:".len() + 64);
    assert!(is_valid_digest(&d));
}

#[test]
fn is_valid_digest_rejects_malformed() {
    assert!(!is_valid_digest("9f86d0"));
    assert!(!is_valid_digest("sha256:tooshort"));
    assert!(!is_valid_digest(
        "md5:0000000000000000000000000000000000000000000000000000000000000000"
    ));
    assert!(!is_valid_digest(
        "sha256:ABCDEF0000000000000000000000000000000000000000000000000000000000"
    ));
    assert!(is_valid_digest(
        "sha256:abcdef0000000000000000000000000000000000000000000000000000000000"
    ));
}

#[test]
fn manifest_single_chunk_round_trips() {
    let data = synthetic(1024);
    let m = ModelManifest::from_bytes(&data);
    assert_eq!(m.chunk_count(), 1);
    assert_eq!(m.size_bytes, 1024);
    assert!(m.verify_chunk(0, &data));
    assert!(m.verify_whole(&data));
}

#[test]
fn manifest_multi_chunk_with_ragged_tail() {
    let len = CHUNK_SIZE * 2 + 7;
    let data = synthetic(len);
    let m = ModelManifest::from_bytes(&data);
    assert_eq!(m.chunk_count(), 3);
    assert_eq!(m.size_bytes as usize, len);
    for (i, chunk) in data.chunks(CHUNK_SIZE).enumerate() {
        assert!(m.verify_chunk(i, chunk), "chunk {i} should verify");
    }
    assert!(m.verify_whole(&data));
}

#[test]
fn verify_chunk_rejects_wrong_bytes_and_bad_index() {
    let data = synthetic(CHUNK_SIZE + 100);
    let m = ModelManifest::from_bytes(&data);
    let mut bad = data[..CHUNK_SIZE].to_vec();
    bad[0] ^= 0xff;
    assert!(!m.verify_chunk(0, &bad));
    assert!(!m.verify_chunk(99, &data[..10]));
}

#[test]
fn verify_whole_rejects_wrong_size_and_tampered_content() {
    let data = synthetic(CHUNK_SIZE + 100);
    let m = ModelManifest::from_bytes(&data);
    assert!(!m.verify_whole(&data[..data.len() - 1]));
    let mut tampered = data.clone();
    let last = tampered.len() - 1;
    tampered[last] ^= 0x01;
    assert!(!m.verify_whole(&tampered));
}

#[test]
fn from_bytes_digest_matches_independent_sha256() {
    let data = synthetic(5000);
    let m = ModelManifest::from_bytes(&data);
    let independent: [u8; 32] = <sha2::Sha256 as sha2::Digest>::digest(&data).into();
    assert_eq!(m.digest, format_digest(&independent));
}

#[test]
fn sha256_of_empty_input_is_the_known_digest() {
    let m = ModelManifest::from_bytes(b"");
    assert_eq!(
        m.digest,
        "sha256:e3b0c44298fc1c149afbf4c8996fb92427ae41e4649b934ca495991b7852b855"
    );
    assert_eq!(m.chunk_count(), 0);
    assert!(m.verify_whole(b""));
}

#[test]
fn exact_chunk_multiple_has_no_short_tail() {
    let data = synthetic(CHUNK_SIZE * 2);
    let m = ModelManifest::from_bytes(&data);
    assert_eq!(m.chunk_count(), 2);
    assert!(m.verify_chunk(1, &data[CHUNK_SIZE..]));
}

#[test]
fn chunk_span_covers_each_chunk_then_stops() {
    let len = (CHUNK_SIZE * 2 + 11) as u64;
    assert_eq!(chunk_span(len, 0), Some((0, CHUNK_SIZE)));
    assert_eq!(chunk_span(len, 1), Some((CHUNK_SIZE as u64, CHUNK_SIZE)));
    assert_eq!(chunk_span(len, 2), Some(((CHUNK_SIZE * 2) as u64, 11)));
    assert_eq!(chunk_span(len, 3), None);
    assert_eq!(chunk_span(0, 0), None);
}

#[test]
fn peers_with_digest_filters_to_holders() {
    let want = format_digest(&[1u8; 32]);
    let other = format_digest(&[2u8; 32]);
    let has = ListModelsResponse {
        models: vec![SeedableModel {
            digest: want.clone(),
            file: "a.gguf".into(),
            size_bytes: 10,
        }],
    };
    let hasnt = ListModelsResponse {
        models: vec![SeedableModel {
            digest: other,
            file: "b.gguf".into(),
            size_bytes: 20,
        }],
    };
    let catalogs = vec![("lan-box".to_string(), has), ("other".to_string(), hasnt)];
    let found = peers_with_digest(&catalogs, &want);
    assert_eq!(found, vec!["lan-box"]);
}

use unhosted::model_manager::FileEntry;
use unhosted::swarm::{find_model_by_digest_in, gguf_files_in, seedable_models_in};

#[test]
fn model_files_in_a_listing() {
    let entries = vec![
        FileEntry { name: "a.gguf".into(), is_file: true, size_bytes: 3, modified_unix: 0 },
        FileEntry { name: "a.gguf.part".into(), is_file: true, size_bytes: 1, modified_unix: 0 },
        FileEntry { name: "sub.gguf".into(), is_file: false, size_bytes: 0, modified_unix: 0 },
        FileEntry { name: "B.Gguf".into(), is_file: true, size_bytes: 7, modified_unix: 0 },
    ];
    assert_eq!(gguf_files_in(&entries), vec![("a.gguf".to_string(), 3), ("B.Gguf".to_string(), 7)]);
}

#[test]
fn seedable_models_skip_unreadable_files() {
    let found = vec![
        ("a.gguf".to_string(), 3, Some("sha256:aa".to_string())),
        ("b.gguf".to_string(), 4, None),
        ("c.gguf".to_string(), 5, Some("sha256:cc".to_string())),
    ];
    assert_eq!(
        seedable_models_in(found),
        vec![
            SeedableModel { digest: "sha256:aa".into(), file: "a.gguf".into(), size_bytes: 3 },
            SeedableModel { digest: "sha256:cc".into(), file: "c.gguf".into(), size_bytes: 5 },
        ]
    );
}

#[test]
fn models_are_found_by_digest() {
    let found = vec![
        ("x".to_string(), None),
        ("y".to_string(), Some("sha256:11".to_string())),
        ("z".to_string(), Some("sha256:11".to_string())),
    ];
    assert_eq!(find_model_by_digest_in(&found, "sha256:11"), Some(1));
    assert_eq!(find_model_by_digest_in(&found, "sha256:22"), None);
}
