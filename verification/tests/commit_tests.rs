use biver::repository_data::{Branch, Head, RepositoryData, Version};
use biver::repository_operations::{
    commit_initial_version, commit_version, has_uncommitted_changes, paths, CommitResult,
};
use biver::codec::encode_document;
use biver::nickname::new_nickname;
use biver::version_id::VersionId;

fn committed(result: (CommitResult, Option<VersionId>)) -> VersionId {
    assert_eq!(result.0, CommitResult::Committed);
    result.1.expect("a committed version has an id")
}

#[test]
fn initial_commit_builds_a_one_version_repository() {
    let (data, id) = commit_initial_version(42, None, "first");
    assert!(data.valid());
    assert_eq!(data.versions.len(), 1);
    assert_eq!(data.versions[0].id, id);
    assert_eq!(data.versions[0].content_fingerprint, 42);
    assert_eq!(data.versions[0].description, "first");
    assert_eq!(data.versions[0].nickname, new_nickname(42));
    assert_eq!(data.versions[0].blob_file_name, id.to_file_name());
    assert!(data.versions[0].parent.is_none());
    assert_eq!(data.branches.len(), 1);
    assert_eq!(data.branches[0].name, "main");
    assert_eq!(data.branches[0].target, id);
    match &data.head {
        Head::Branch(name) => assert_eq!(name, "main"),
        Head::Version(_) => panic!("the head of a fresh repository is symbolic"),
    }
}

#[test]
fn initial_commit_takes_an_explicit_branch_name() {
    let (data, id) = commit_initial_version(7, Some("trunk"), "");
    assert!(data.valid());
    assert_eq!(data.branches[0].name, "trunk");
    assert_eq!(data.branches[0].target, id);
}

#[test]
fn commit_appends_and_advances_the_branch() {
    let (mut data, root_id) = commit_initial_version(1, None, "root");
    let r = commit_version(&mut data, 2, None, "second").unwrap();
    let new_id = committed(r);
    assert!(data.valid());
    assert_eq!(data.versions.len(), 2);
    assert_eq!(data.versions[1].id, new_id);
    assert_eq!(data.versions[1].parent, Some(root_id));
    assert_eq!(data.branches.len(), 1);
    assert_eq!(data.branches[0].target, new_id);
    assert_eq!(data.head_version().id, new_id);
}

#[test]
fn commit_with_new_branch_diverges() {
    let (mut data, root_id) = commit_initial_version(1, None, "root");
    let r = commit_version(&mut data, 2, Some("feature"), "forked").unwrap();
    let new_id = committed(r);
    assert!(data.valid());
    assert_eq!(data.branches.len(), 2);
    assert_eq!(data.branches[0].name, "main");
    assert_eq!(data.branches[0].target, root_id);
    assert_eq!(data.branches[1].name, "feature");
    assert_eq!(data.branches[1].target, new_id);
    match &data.head {
        Head::Branch(name) => assert_eq!(name, "feature"),
        Head::Version(_) => panic!("the head moves to the new branch"),
    }
}

#[test]
fn repeated_commit_of_unchanged_content_is_a_noop() {
    let (mut data, _) = commit_initial_version(5, None, "root");
    let before = encode_document(&data);
    let r = commit_version(&mut data, 5, None, "again").unwrap();
    assert_eq!(r.0, CommitResult::NothingToCommit);
    assert!(r.1.is_none());
    let after = encode_document(&data);
    assert_eq!(before, after);
    // Even an explicit branch name does not override the dedup check.
    let r2 = commit_version(&mut data, 5, Some("other"), "again").unwrap();
    assert_eq!(r2.0, CommitResult::NothingToCommit);
    assert_eq!(before, encode_document(&data));
}

#[test]
fn only_the_first_of_identical_commits_mutates() {
    let (mut data, _) = commit_initial_version(5, None, "root");
    let r = commit_version(&mut data, 6, None, "changed").unwrap();
    assert_eq!(r.0, CommitResult::Committed);
    let snapshot = encode_document(&data);
    for _ in 0..3 {
        let again = commit_version(&mut data, 6, None, "changed").unwrap();
        assert_eq!(again.0, CommitResult::NothingToCommit);
        assert_eq!(snapshot, encode_document(&data));
    }
}

#[test]
fn detached_head_requires_a_branch_name() {
    let (mut data, root_id) = commit_initial_version(1, None, "root");
    data.head = Head::Version(root_id);
    assert!(data.valid());
    let before = encode_document(&data);
    let r = commit_version(&mut data, 2, None, "orphan").unwrap();
    assert_eq!(r.0, CommitResult::BranchRequired);
    assert!(r.1.is_none());
    assert_eq!(before, encode_document(&data));
}

#[test]
fn detached_head_accepts_an_explicit_new_branch() {
    let (mut data, root_id) = commit_initial_version(1, None, "root");
    data.head = Head::Version(root_id);
    let r = commit_version(&mut data, 2, Some("rescue"), "saved").unwrap();
    let new_id = committed(r);
    assert!(data.valid());
    assert_eq!(data.versions[1].parent, Some(root_id));
    assert_eq!(data.branches.len(), 2);
    assert_eq!(data.branches[1].name, "rescue");
    assert_eq!(data.branches[1].target, new_id);
}

#[test]
fn existing_branch_name_is_refused() {
    let (mut data, _) = commit_initial_version(1, None, "root");
    let before = encode_document(&data);
    let r = commit_version(&mut data, 2, Some("main"), "clash").unwrap();
    assert_eq!(r.0, CommitResult::BranchAlreadyExists);
    assert!(r.1.is_none());
    assert_eq!(before, encode_document(&data));
}

#[test]
fn uncommitted_changes_follow_the_head_fingerprint() {
    let (data, _) = commit_initial_version(42, None, "root");
    assert!(!has_uncommitted_changes(&data, 42));
    assert!(has_uncommitted_changes(&data, 43));
}

#[test]
fn head_version_resolves_through_the_branch() {
    let (mut data, _) = commit_initial_version(1, None, "root");
    let r = commit_version(&mut data, 2, None, "tip").unwrap();
    let id = committed(r);
    assert_eq!(data.head_version().id, id);
    assert_eq!(data.head_version().content_fingerprint, 2);
}

#[test]
fn version_lookup_finds_by_id() {
    let (mut data, root_id) = commit_initial_version(1, None, "root");
    let r = commit_version(&mut data, 2, None, "tip").unwrap();
    let id = committed(r);
    assert_eq!(data.version(&root_id).unwrap().content_fingerprint, 1);
    assert_eq!(data.version(&id).unwrap().content_fingerprint, 2);
    assert!(data.version(&VersionId { bits: 0xdead }).is_none());
}

#[test]
fn valid_rejects_a_dangling_parent() {
    let data = RepositoryData {
        head: Head::Branch(String::from("main")),
        versions: vec![
            Version {
                id: VersionId { bits: 1 },
                creation_time_millis: 0,
                content_fingerprint: 1,
                nickname: new_nickname(1),
                description: String::new(),
                parent: None,
                blob_file_name: VersionId { bits: 1 }.to_file_name(),
            },
            Version {
                id: VersionId { bits: 2 },
                creation_time_millis: 0,
                content_fingerprint: 2,
                nickname: new_nickname(2),
                description: String::new(),
                parent: Some(VersionId { bits: 99 }),
                blob_file_name: VersionId { bits: 2 }.to_file_name(),
            },
        ],
        branches: vec![Branch { name: String::from("main"), target: VersionId { bits: 2 } }],
    };
    assert!(!data.valid());
}

#[test]
fn valid_rejects_a_dangling_branch_target() {
    let data = RepositoryData {
        head: Head::Branch(String::from("main")),
        versions: vec![Version {
            id: VersionId { bits: 1 },
            creation_time_millis: 0,
            content_fingerprint: 1,
            nickname: new_nickname(1),
            description: String::new(),
            parent: None,
            blob_file_name: VersionId { bits: 1 }.to_file_name(),
        }],
        branches: vec![Branch { name: String::from("main"), target: VersionId { bits: 5 } }],
    };
    assert!(!data.valid());
}

#[test]
fn valid_rejects_a_missing_head_branch() {
    let (mut data, _) = commit_initial_version(1, None, "root");
    data.head = Head::Branch(String::from("absent"));
    assert!(!data.valid());
}

#[test]
fn valid_rejects_duplicate_branch_names() {
    let (mut data, root_id) = commit_initial_version(1, None, "root");
    data.branches.push(Branch { name: String::from("main"), target: root_id });
    assert!(!data.valid());
}

#[test]
fn paths_stand_beside_the_tracked_file() {
    let p = paths("photo.png");
    assert_eq!(p.versioned_file, "photo.png");
    assert_eq!(p.repository_dir, "photo.png.biver");
    assert_eq!(p.data_file, "photo.png.biver/data.json");
    assert_eq!(p.file_path("blob-x"), "photo.png.biver/blob-x");
    let q = paths("archive");
    assert_eq!(q.repository_dir, "archive.biver");
}

#[test]
fn head_and_ancestors_walks_to_the_root() {
    let (mut data, _) = commit_initial_version(1, None, "root");
    let r1 = committed(commit_version(&mut data, 2, None, "a").unwrap());
    let r2 = committed(commit_version(&mut data, 3, None, "b").unwrap());
    let chain = data.head_and_ancestors();
    assert_eq!(chain, vec![2usize, 1, 0]);
    assert_eq!(data.versions[chain[0]].id, r2);
    assert_eq!(data.versions[chain[1]].id, r1);
    assert!(data.versions[chain[2]].parent.is_none());
}
