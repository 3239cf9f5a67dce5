use vstd::prelude::*;
use crate::biver_result::{error, BiverResult};
use crate::time::now_millis;
use crate::nickname::{new_nickname, nickname_seq};
use crate::repository_data::{
    first_branch, first_with_id, has_branch, has_id, lemma_first_branch, lemma_first_with_id,
    parent_resolves_before, parents_ok, Branch, BranchModel, Head, HeadModel, RepoModel,
    RepositoryData, Version, VersionModel,
};
use crate::repository_paths::RepositoryPaths;
use crate::version_id::{file_name_of, VersionId};

verus! {

/// What a repository location holds: a repository, or nothing yet.
pub enum RepositoryDataResult {
    Initialized(RepositoryData),
    NotInitialized,
}

/// The outcome of the commit state machine.
#[derive(Clone, Copy, Debug, PartialEq, Eq, Structural)]
pub enum CommitResult {
    Committed,
    NothingToCommit,
    BranchRequired,
    BranchAlreadyExists,
}

/// The branch a first commit lands on when no name is given.
pub open spec fn default_branch() -> Seq<char> {
    "main"@
}

pub open spec fn opt_str_view(b: Option<&str>) -> Option<Seq<char>> {
    match b {
        Some(s) => Some(s@),
        None => None,
    }
}

/// The decision the commit state machine takes on an initialized repository:
/// unchanged content wins over everything; then an explicitly named branch
/// must be new; then a missing name is filled in from a symbolic head, while a
/// detached head demands one.
pub open spec fn commit_decision(m: RepoModel, fingerprint: u128, branch: Option<Seq<char>>) -> CommitResult {
    if fingerprint == m.head_fingerprint() {
        CommitResult::NothingToCommit
    } else {
        match branch {
            Some(b) => if has_branch(m.branches, b) {
                CommitResult::BranchAlreadyExists
            } else {
                CommitResult::Committed
            },
            None => match m.head {
                HeadModel::Branch(_) => CommitResult::Committed,
                HeadModel::Version(_) => CommitResult::BranchRequired,
            },
        }
    }
}

/// The branch a successful commit lands on: the given name, or the branch a
/// symbolic head names.
pub open spec fn resolved_branch(m: RepoModel, branch: Option<Seq<char>>) -> Seq<char> {
    match branch {
        Some(b) => b,
        None => match m.head {
            HeadModel::Branch(b) => b,
            HeadModel::Version(_) => Seq::empty(),
        },
    }
}

/// The version record a commit appends.
pub open spec fn new_version_model(
    parent: Option<u128>,
    fingerprint: u128,
    description: Seq<char>,
    id: u128,
    now_millis: i64,
) -> VersionModel {
    VersionModel {
        id,
        creation_time_millis: now_millis,
        content_fingerprint: fingerprint,
        nickname: nickname_seq(fingerprint),
        description,
        parent,
        blob_file_name: file_name_of(id),
    }
}

/// How a successful commit rewrites an initialized document: exactly one
/// version is appended, the target branch is advanced (or created), and the
/// head becomes symbolic on that branch. Nothing else changes.
pub open spec fn commit_ok_post(
    m0: RepoModel,
    m1: RepoModel,
    fingerprint: u128,
    branch: Option<Seq<char>>,
    description: Seq<char>,
    id: u128,
    now_millis: i64,
) -> bool {
    let tgt = resolved_branch(m0, branch);
    let nv = new_version_model(Some(m0.head_version().id), fingerprint, description, id, now_millis);
    &&& m1.versions == m0.versions.push(nv)
    &&& m1.head == HeadModel::Branch(tgt)
    &&& m1.branches == if has_branch(m0.branches, tgt) {
        m0.branches.update(first_branch(m0.branches, tgt), BranchModel { name: tgt, target: id })
    } else {
        m0.branches.push(BranchModel { name: tgt, target: id })
    }
}

/// Whether `m` is the document a very first commit creates for these inputs,
/// at some clock reading.
pub open spec fn is_initial_for(
    m: RepoModel,
    fingerprint: u128,
    branch: Option<Seq<char>>,
    description: Seq<char>,
    id: u128,
) -> bool {
    exists|t: i64| m == initial_model(fingerprint, branch, description, id, t)
}

/// The document a very first commit creates: one root version, one branch on
/// it, and a symbolic head on that branch.
pub open spec fn initial_model(
    fingerprint: u128,
    branch: Option<Seq<char>>,
    description: Seq<char>,
    id: u128,
    now_millis: i64,
) -> RepoModel {
    let tgt = match branch {
        Some(b) => b,
        None => default_branch(),
    };
    RepoModel {
        head: HeadModel::Branch(tgt),
        versions: seq![new_version_model(None, fingerprint, description, id, now_millis)],
        branches: seq![BranchModel { name: tgt, target: id }],
    }
}

/// Every document reachable through the commit engine satisfies the
/// referential invariant: a successful commit on a well-formed document with a
/// fresh identifier yields a well-formed document whose head stands on the new
/// version and carries the committed fingerprint.
pub proof fn lemma_commit_preserves_invariants(
    m0: RepoModel,
    m1: RepoModel,
    fingerprint: u128,
    branch: Option<Seq<char>>,
    description: Seq<char>,
    id: u128,
    now_millis: i64,
)
    requires
        m0.wf(),
        commit_decision(m0, fingerprint, branch) == CommitResult::Committed,
        !has_id(m0.versions, id),
        commit_ok_post(m0, m1, fingerprint, branch, description, id, now_millis),
    ensures
        m1.wf(),
        m1.head_id() == id,
        m1.head_index() == m0.versions.len(),
        m1.head_fingerprint() == fingerprint,
        m1.head_version() == new_version_model(
            Some(m0.head_version().id),
            fingerprint,
            description,
            id,
            now_millis,
        ),
{
    let tgt = resolved_branch(m0, branch);
    let nv = new_version_model(Some(m0.head_version().id), fingerprint, description, id, now_millis);
    m0.lemma_head_resolves();
    let n = m0.versions.len() as int;

    // Parent links: old ones are untouched; the new version's parent is the
    // old head version, which stands earlier.
    assert(m1.versions[0] == m0.versions[0]);
    assert forall|i: int| 1 <= i < n + 1 implies #[trigger] parent_resolves_before(m1.versions, i) by {
        if i < n {
            assert(parent_resolves_before(m0.versions, i));
            match m0.versions[i].parent {
                Some(p) => {
                    let j = choose|j: int| 0 <= j < i && (#[trigger] m0.versions[j]).id == p;
                    assert(m1.versions[j] == m0.versions[j]);
                    assert(m1.versions[i] == m0.versions[i]);
                },
                None => {},
            }
        } else {
            let hi = m0.head_index();
            assert(m1.versions[hi] == m0.versions[hi]);
            assert(m1.versions[i].parent == Some(m0.versions[hi].id));
        }
    }
    assert(parents_ok(m1.versions));

    // The new version is the first (and only) one carrying the fresh id.
    assert(m1.versions[n].id == id);
    assert(has_id(m1.versions, id));
    lemma_first_with_id(m1.versions, id);
    assert forall|j: int| 0 <= j < n implies (#[trigger] m1.versions[j]).id != id by {
        assert(m1.versions[j] == m0.versions[j]);
    }
    assert(first_with_id(m1.versions, id) == n);

    // Branches: every target still resolves, names stay unique, and the first
    // branch named `tgt` points at the new version.
    if has_branch(m0.branches, tgt) {
        lemma_first_branch(m0.branches, tgt);
        let bi = first_branch(m0.branches, tgt);
        assert(m1.branches =~= m0.branches.update(bi, BranchModel { name: tgt, target: id }));
        assert forall|k: int|
            0 <= k < m1.branches.len() implies has_id(
            m1.versions,
            (#[trigger] m1.branches[k]).target,
        ) by {
            if k == bi {
                assert(m1.branches[k].target == id);
            } else {
                assert(m1.branches[k] == m0.branches[k]);
                assert(has_id(m0.versions, m0.branches[k].target));
                let j = choose|j: int|
                    0 <= j < m0.versions.len() && (#[trigger] m0.versions[j]).id == m0.branches[k].target;
                assert(m1.versions[j] == m0.versions[j]);
            }
        }
        assert(m0.branches[bi].name == tgt);
        assert forall|k: int, l: int|
            0 <= k < l < m1.branches.len() implies (#[trigger] m1.branches[k]).name != (
        #[trigger] m1.branches[l]).name by {
            assert(m1.branches[k].name == m0.branches[k].name);
            assert(m1.branches[l].name == m0.branches[l].name);
        }
        assert(m1.branches_ok());
        assert(has_branch(m1.branches, tgt));
        lemma_first_branch(m1.branches, tgt);
        let bi1 = first_branch(m1.branches, tgt);
        assert forall|j: int| 0 <= j < bi implies (#[trigger] m1.branches[j]).name != tgt by {
            assert(m1.branches[j] == m0.branches[j]);
        }
        assert(bi1 == bi);
        assert(m1.head_id() == id);
    } else {
        assert(m1.branches =~= m0.branches.push(BranchModel { name: tgt, target: id }));
        let nb = m0.branches.len() as int;
        assert forall|k: int|
            0 <= k < m1.branches.len() implies has_id(
            m1.versions,
            (#[trigger] m1.branches[k]).target,
        ) by {
            if k == nb {
                assert(m1.branches[k].target == id);
            } else {
                assert(m1.branches[k] == m0.branches[k]);
                assert(has_id(m0.versions, m0.branches[k].target));
                let j = choose|j: int|
                    0 <= j < m0.versions.len() && (#[trigger] m0.versions[j]).id == m0.branches[k].target;
                assert(m1.versions[j] == m0.versions[j]);
            }
        }
        assert forall|k: int, l: int|
            0 <= k < l < m1.branches.len() implies (#[trigger] m1.branches[k]).name != (
        #[trigger] m1.branches[l]).name by {
            if l < nb {
                assert(m1.branches[k] == m0.branches[k]);
                assert(m1.branches[l] == m0.branches[l]);
            } else {
                assert(m1.branches[k] == m0.branches[k]);
                assert(m1.branches[l].name == tgt);
            }
        }
        assert(m1.branches_ok());
        assert(m1.branches[nb].name == tgt);
        assert(has_branch(m1.branches, tgt));
        lemma_first_branch(m1.branches, tgt);
        let bi1 = first_branch(m1.branches, tgt);
        assert forall|j: int| 0 <= j < nb implies (#[trigger] m1.branches[j]).name != tgt by {
            assert(m1.branches[j] == m0.branches[j]);
        }
        assert(bi1 == nb);
        assert(m1.head_id() == id);
    }
    assert(m1.head_ok());
    assert(m1.head_index() == n);
    assert(m1.head_version() == nv);
}

/// Law: a repeated commit of unchanged content is a no-op. After a successful
/// commit of some fingerprint, the very next commit of the same fingerprint
/// decides `NothingToCommit` — whatever branch name it offers — and the commit
/// functions then leave the document untouched.
pub proof fn lemma_repeat_commit_is_noop(
    m0: RepoModel,
    m1: RepoModel,
    fingerprint: u128,
    branch: Option<Seq<char>>,
    description: Seq<char>,
    id: u128,
    now_millis: i64,
    later_branch: Option<Seq<char>>,
)
    requires
        m0.wf(),
        commit_decision(m0, fingerprint, branch) == CommitResult::Committed,
        !has_id(m0.versions, id),
        commit_ok_post(m0, m1, fingerprint, branch, description, id, now_millis),
    ensures
        commit_decision(m1, fingerprint, later_branch) == CommitResult::NothingToCommit,
{
    lemma_commit_preserves_invariants(m0, m1, fingerprint, branch, description, id, now_millis);
}

/// Law: committing with a detached head, no branch name and changed content
/// always decides `BranchRequired`; the commit functions then leave the
/// document untouched.
pub proof fn lemma_detached_head_requires_branch(m: RepoModel, fingerprint: u128)
    requires
        m.wf(),
        m.head is Version,
        fingerprint != m.head_fingerprint(),
    ensures
        commit_decision(m, fingerprint, None) == CommitResult::BranchRequired,
{
}

/// Law: committing under a branch name that is already present and with
/// changed content always decides `BranchAlreadyExists`; the commit functions
/// then leave the document untouched.
pub proof fn lemma_existing_branch_refused(m: RepoModel, fingerprint: u128, b: Seq<char>)
    requires
        m.wf(),
        has_branch(m.branches, b),
        fingerprint != m.head_fingerprint(),
    ensures
        commit_decision(m, fingerprint, Some(b)) == CommitResult::BranchAlreadyExists,
{
}

/// The decision of the commit state machine alone: nothing is drawn and
/// nothing changes.
pub fn decide_commit(
    repo_data: &RepositoryData,
    fingerprint: u128,
    new_branch: Option<&str>,
) -> (r: CommitResult)
    requires
        repo_data@.wf(),
    ensures
        r == commit_decision(repo_data@, fingerprint, opt_str_view(new_branch)),
{
    proof {
        repo_data@.lemma_head_resolves();
    }
    let head_fp = repo_data.head_version().content_fingerprint;
    if head_fp == fingerprint {
        return CommitResult::NothingToCommit;
    }
    match new_branch {
        Some(b) => {
            let owned = b.to_owned();
            match repo_data.branch_index(&owned) {
                Some(_) => CommitResult::BranchAlreadyExists,
                None => CommitResult::Committed,
            }
        },
        None => match &repo_data.head {
            Head::Branch(_) => CommitResult::Committed,
            Head::Version(_) => CommitResult::BranchRequired,
        },
    }
}

/// The deterministic core of the commit state machine on an initialized
/// repository: the caller supplies the fresh identifier and the clock reading,
/// and the document is rewritten exactly as `commit_ok_post` says.
pub fn commit_with(
    repo_data: &mut RepositoryData,
    fingerprint: u128,
    new_branch: Option<&str>,
    description: &str,
    new_id: VersionId,
    now_millis: i64,
) -> (r: CommitResult)
    requires
        old(repo_data)@.wf(),
        !has_id(old(repo_data)@.versions, new_id.bits),
    ensures
        r == commit_decision(old(repo_data)@, fingerprint, opt_str_view(new_branch)),
        r != CommitResult::Committed ==> final(repo_data)@ == old(repo_data)@,
        r == CommitResult::Committed ==> commit_ok_post(
            old(repo_data)@,
            final(repo_data)@,
            fingerprint,
            opt_str_view(new_branch),
            description@,
            new_id.bits,
            now_millis,
        ),
        final(repo_data)@.wf(),
        r == CommitResult::Committed ==> final(repo_data)@.head_fingerprint() == fingerprint,
{
    let ghost m0 = repo_data@;
    proof {
        m0.lemma_head_resolves();
    }
    let decision = decide_commit(repo_data, fingerprint, new_branch);
    match decision {
        CommitResult::Committed => {},
        _ => {
            return decision;
        },
    }
    let target: String;
    let existing: Option<usize>;
    match new_branch {
        Some(b) => {
            let owned = b.to_owned();
            assert(!has_branch(m0.branches, owned@));
            target = owned;
            existing = None;
        },
        None => {
            match &repo_data.head {
                Head::Branch(name) => {
                    let n = name.clone();
                    match repo_data.branch_index(&n) {
                        Some(i) => {
                            target = n;
                            existing = Some(i);
                        },
                        None => {
                            return vstd::pervasive::unreached();
                        },
                    }
                },
                Head::Version(_) => {
                    return vstd::pervasive::unreached();
                },
            }
        },
    }
    let ghost tgt = target@;
    assert(tgt == resolved_branch(m0, opt_str_view(new_branch)));
    let parent_id = repo_data.head_version().id;
    let nickname = new_nickname(fingerprint);
    let blob_file_name = new_id.to_file_name();
    let new_version = Version {
        id: new_id,
        creation_time_millis: now_millis,
        content_fingerprint: fingerprint,
        nickname,
        description: description.to_owned(),
        parent: Some(parent_id),
        blob_file_name,
    };
    repo_data.versions.push(new_version);
    let new_entry = Branch { name: target.clone(), target: new_id };
    match existing {
        Some(i) => {
            repo_data.branches.set(i, new_entry);
        },
        None => {
            repo_data.branches.push(new_entry);
        },
    }
    repo_data.head = Head::Branch(target);
    proof {
        let m1 = repo_data@;
        assert(m1.versions =~= m0.versions.push(
            new_version_model(
                Some(m0.head_version().id),
                fingerprint,
                description@,
                new_id.bits,
                now_millis,
            ),
        ));
        match existing {
            Some(i) => {
                assert(has_branch(m0.branches, tgt));
                assert(m1.branches =~= m0.branches.update(
                    first_branch(m0.branches, tgt),
                    BranchModel { name: tgt, target: new_id.bits },
                ));
            },
            None => {
                assert(!has_branch(m0.branches, tgt));
                assert(m1.branches =~= m0.branches.push(
                    BranchModel { name: tgt, target: new_id.bits },
                ));
            },
        }
        assert(commit_ok_post(
            m0,
            m1,
            fingerprint,
            opt_str_view(new_branch),
            description@,
            new_id.bits,
            now_millis,
        ));
        lemma_commit_preserves_invariants(
            m0,
            m1,
            fingerprint,
            opt_str_view(new_branch),
            description@,
            new_id.bits,
            now_millis,
        );
    }
    CommitResult::Committed
}

/// The deterministic core of a very first commit: the caller supplies the
/// fresh identifier and the clock reading, and the document created is exactly
/// `initial_model`.
pub fn commit_initial_with(
    fingerprint: u128,
    new_branch: Option<&str>,
    description: &str,
    new_id: VersionId,
    now_millis: i64,
) -> (r: RepositoryData)
    ensures
        r@ == initial_model(
            fingerprint,
            opt_str_view(new_branch),
            description@,
            new_id.bits,
            now_millis,
        ),
        r@.wf(),
        r@.head_fingerprint() == fingerprint,
{
    let target: String = match new_branch {
        Some(b) => b.to_owned(),
        None => String::from_str("main"),
    };
    let nickname = new_nickname(fingerprint);
    let blob_file_name = new_id.to_file_name();
    let root = Version {
        id: new_id,
        creation_time_millis: now_millis,
        content_fingerprint: fingerprint,
        nickname,
        description: description.to_owned(),
        parent: None,
        blob_file_name,
    };
    let mut versions: Vec<Version> = Vec::new();
    versions.push(root);
    let mut branches: Vec<Branch> = Vec::new();
    branches.push(Branch { name: target.clone(), target: new_id });
    let r = RepositoryData { head: Head::Branch(target), versions, branches };
    proof {
        let m = r@;
        let im = initial_model(
            fingerprint,
            opt_str_view(new_branch),
            description@,
            new_id.bits,
            now_millis,
        );
        assert(m.versions =~= im.versions);
        assert(m.branches =~= im.branches);
        assert(m == im);
        assert(parents_ok(m.versions));
        assert(m.versions[0].id == new_id.bits);
        assert(has_id(m.versions, m.branches[0].target));
        assert(m.branches_ok());
        assert(m.branches[0].name == im.head->Branch_0);
        assert(has_branch(m.branches, im.head->Branch_0));
        assert(m.head_ok());
        assert(m.head_id() == new_id.bits);
        assert(m.head_index() == 0);
    }
    r
}

/// Makes the very first commit at an uninitialized location: allocates a fresh
/// identifier, reads the clock, and builds the initial document. The returned
/// identifier names the version whose snapshot the caller must store.
pub fn commit_initial_version(
    fingerprint: u128,
    new_branch: Option<&str>,
    description: &str,
) -> (r: (RepositoryData, VersionId))
    ensures
        r.0@.wf(),
        r.0@.head_fingerprint() == fingerprint,
        is_initial_for(r.0@, fingerprint, opt_str_view(new_branch), description@, r.1.bits),
{
    let new_id = VersionId::new();
    let t = now_millis();
    let data = commit_initial_with(fingerprint, new_branch, description, new_id, t);
    proof {
        assert(is_initial_for(data@, fingerprint, opt_str_view(new_branch), description@, new_id.bits)) by {
            assert(data@ == initial_model(
                fingerprint,
                opt_str_view(new_branch),
                description@,
                new_id.bits,
                t,
            ));
        }
    }
    (data, new_id)
}

/// Runs the commit state machine on an initialized repository: the decision
/// falls first, from the fingerprint and the branch alone, and only a commit
/// draws a fresh identifier and reads the clock. The returned identifier,
/// present exactly when a version was committed, names the version whose
/// snapshot the caller must store before persisting the document. `Err` comes
/// only when a version was to be committed and, on the negligible chance, the
/// drawn identifier is already taken; the document is then untouched.
pub fn commit_version(
    repo_data: &mut RepositoryData,
    fingerprint: u128,
    new_branch: Option<&str>,
    description: &str,
) -> (r: BiverResult<(CommitResult, Option<VersionId>)>)
    requires
        old(repo_data)@.wf(),
    ensures
        final(repo_data)@.wf(),
        match r {
            Ok(pair) => {
                &&& pair.0 == commit_decision(
                    old(repo_data)@,
                    fingerprint,
                    opt_str_view(new_branch),
                )
                &&& pair.0 != CommitResult::Committed ==> final(repo_data)@ == old(repo_data)@
                    && pair.1 is None
                &&& pair.0 == CommitResult::Committed ==> match pair.1 {
                    Some(id) => {
                        &&& !has_id(old(repo_data)@.versions, id.bits)
                        &&& exists|t: i64|
                            commit_ok_post(
                                old(repo_data)@,
                                final(repo_data)@,
                                fingerprint,
                                opt_str_view(new_branch),
                                description@,
                                id.bits,
                                t,
                            )
                        &&& final(repo_data)@.head_fingerprint() == fingerprint
                    },
                    None => false,
                }
            },
            Err(_) => final(repo_data)@ == old(repo_data)@ && commit_decision(
                old(repo_data)@,
                fingerprint,
                opt_str_view(new_branch),
            ) == CommitResult::Committed,
        },
{
    let decision = decide_commit(repo_data, fingerprint, new_branch);
    match decision {
        CommitResult::Committed => {},
        _ => {
            return Ok((decision, None));
        },
    }
    let new_id = VersionId::new();
    match repo_data.version_index(&new_id) {
        Some(_) => {
            return error("could not allocate a fresh version identifier");
        },
        None => {},
    }
    let t = now_millis();
    let res = commit_with(repo_data, fingerprint, new_branch, description, new_id, t);
    proof {
        assert(exists|ti: i64|
            commit_ok_post(
                old(repo_data)@,
                final(repo_data)@,
                fingerprint,
                opt_str_view(new_branch),
                description@,
                new_id.bits,
                ti,
            )) by {
            assert(commit_ok_post(
                old(repo_data)@,
                final(repo_data)@,
                fingerprint,
                opt_str_view(new_branch),
                description@,
                new_id.bits,
                t,
            ));
        }
    }
    Ok((res, Some(new_id)))
}

/// Whether the tracked file, with the given current fingerprint, differs from
/// the snapshot the head version recorded.
pub fn has_uncommitted_changes(repo_data: &RepositoryData, current_fingerprint: u128) -> (r: bool)
    requires
        repo_data@.wf(),
    ensures
        r == (repo_data@.head_fingerprint() != current_fingerprint),
{
    repo_data.head_version().content_fingerprint != current_fingerprint
}

/// Where the repository for a tracked file lives: a directory beside the file,
/// named after it with a `.biver` suffix, holding the state document under its
/// fixed name `data.json`. A document found there that is not in the library's
/// byte form fails to decode and is reported malformed, never silently
/// ignored.
pub fn paths(versioned_file_path: &str) -> (r: RepositoryPaths)
    ensures
        r.versioned_file@ == versioned_file_path@,
        r.repository_dir@ == versioned_file_path@ + ".biver"@,
        r.data_file@ == versioned_file_path@ + ".biver"@ + "/data.json"@,
{
    let versioned_file = versioned_file_path.to_owned();
    let mut repository_dir = versioned_file_path.to_owned();
    repository_dir.append(".biver");
    let mut data_file = repository_dir.clone();
    data_file.append("/data.json");
    RepositoryPaths { versioned_file, repository_dir, data_file }
}

} // verus!

