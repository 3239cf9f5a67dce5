use biver::codec::{decode_document, encode_document};
use biver::nickname::new_nickname;
use biver::repository_data::{Branch, Head, RepositoryData, Version};
use biver::repository_operations::{commit_initial_version, commit_version};
use biver::version_id::VersionId;

fn sample_repository() -> RepositoryData {
    RepositoryData {
        head: Head::Branch(String::from("main")),
        versions: vec![
            Version {
                id: VersionId { bits: 0x0123456789abcdef0123456789abcdef },
                creation_time_millis: 1_700_000_000_123,
                content_fingerprint: 0xfeedbeef,
                nickname: new_nickname(0xfeedbeef),
                description: String::from("racine — 日本語 é"),
                parent: None,
                blob_file_name: VersionId { bits: 0x0123456789abcdef0123456789abcdef }
                    .to_file_name(),
            },
            Version {
                id: VersionId { bits: 7 },
                creation_time_millis: -123,
                content_fingerprint: 0,
                nickname: new_nickname(0),
                description: String::new(),
                parent: Some(VersionId { bits: 0x0123456789abcdef0123456789abcdef }),
                blob_file_name: VersionId { bits: 7 }.to_file_name(),
            },
        ],
        branches: vec![
            Branch { name: String::from("main"), target: VersionId { bits: 7 } },
            Branch {
                name: String::from("exposé"),
                target: VersionId { bits: 0x0123456789abcdef0123456789abcdef },
            },
        ],
    }
}

fn assert_repositories_equal(a: &RepositoryData, b: &RepositoryData) {
    match (&a.head, &b.head) {
        (Head::Branch(x), Head::Branch(y)) => assert_eq!(x, y),
        (Head::Version(x), Head::Version(y)) => assert_eq!(x, y),
        _ => panic!("head variants differ"),
    }
    assert_eq!(a.versions.len(), b.versions.len());
    for (va, vb) in a.versions.iter().zip(b.versions.iter()) {
        assert_eq!(va.id, vb.id);
        assert_eq!(va.creation_time_millis, vb.creation_time_millis);
        assert_eq!(va.content_fingerprint, vb.content_fingerprint);
        assert_eq!(va.nickname, vb.nickname);
        assert_eq!(va.description, vb.description);
        assert_eq!(va.parent, vb.parent);
        assert_eq!(va.blob_file_name, vb.blob_file_name);
    }
    assert_eq!(a.branches.len(), b.branches.len());
    for (ba, bb) in a.branches.iter().zip(b.branches.iter()) {
        assert_eq!(ba.name, bb.name);
        assert_eq!(ba.target, bb.target);
    }
}

#[test]
fn save_then_load_yields_the_same_document() {
    let data = sample_repository();
    assert!(data.valid());
    let bytes = encode_document(&data);
    let back = decode_document(&bytes).expect("the written document reads back");
    assert_repositories_equal(&data, &back);
}

#[test]
fn committed_repositories_round_trip() {
    let (mut data, _) = commit_initial_version(11, Some("trunk"), "début");
    commit_version(&mut data, 22, None, "x").unwrap();
    commit_version(&mut data, 33, Some("side"), "y").unwrap();
    let bytes = encode_document(&data);
    let back = decode_document(&bytes).expect("the written document reads back");
    assert_repositories_equal(&data, &back);
}

#[test]
fn truncated_bytes_are_malformed() {
    let data = sample_repository();
    let bytes = encode_document(&data);
    for cut in [0, 1, 5, bytes.len() / 2, bytes.len() - 1] {
        assert!(decode_document(&bytes[..cut]).is_none());
    }
}

#[test]
fn trailing_garbage_is_malformed() {
    let data = sample_repository();
    let mut bytes = encode_document(&data);
    bytes.push(0);
    assert!(decode_document(&bytes).is_none());
}

#[test]
fn garbage_bytes_are_malformed() {
    assert!(decode_document(&[0xFF, 0x00, 0x12]).is_none());
}

#[test]
fn a_parsable_but_invalid_document_is_refused() {
    // A detached head on some version, but zero versions: parses, yet breaks
    // the invariant that a repository holds at least its root.
    let mut bytes: Vec<u8> = Vec::new();
    bytes.push(1);
    bytes.extend_from_slice(&5u128.to_le_bytes());
    bytes.extend_from_slice(&0u64.to_le_bytes());
    bytes.extend_from_slice(&0u64.to_le_bytes());
    assert!(decode_document(&bytes).is_none());
}

#[test]
fn encoding_is_deterministic() {
    let a = encode_document(&sample_repository());
    let b = encode_document(&sample_repository());
    assert_eq!(a, b);
}
