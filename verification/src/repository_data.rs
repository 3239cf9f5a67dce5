use vstd::prelude::*;
use crate::version_id::VersionId;

verus! {

// ---------------------------------------------------------------------------
// Mathematical models
//
// Contracts throughout the library speak of these models; every stored type
// has a view into them.
// ---------------------------------------------------------------------------

/// Model of one committed version.
pub struct VersionModel {
    pub id: u128,
    pub creation_time_millis: i64,
    pub content_fingerprint: u128,
    pub nickname: Seq<char>,
    pub description: Seq<char>,
    pub parent: Option<u128>,
    pub blob_file_name: Seq<char>,
}

/// Model of one named branch pointer.
pub struct BranchModel {
    pub name: Seq<char>,
    pub target: u128,
}

/// Model of the checked-out position: symbolic or detached.
pub enum HeadModel {
    Branch(Seq<char>),
    Version(u128),
}

/// Model of the whole repository document.
pub struct RepoModel {
    pub head: HeadModel,
    pub versions: Seq<VersionModel>,
    pub branches: Seq<BranchModel>,
}

// ---------------------------------------------------------------------------
// Stored types
// ---------------------------------------------------------------------------

/// The checked-out position: a branch by name, or a bare version (detached).
pub enum Head {
    Branch(String),
    Version(VersionId),
}

/// One committed version: an immutable snapshot record.
pub struct Version {
    pub id: VersionId,
    pub creation_time_millis: i64,
    pub content_fingerprint: u128,
    pub nickname: String,
    pub description: String,
    pub parent: Option<VersionId>,
    pub blob_file_name: String,
}

/// One named branch pointer.
pub struct Branch {
    pub name: String,
    pub target: VersionId,
}

/// The repository document: the version tree, the branch pointers and the head.
/// `versions` is append-only and keeps commit order; `branches` keeps the order
/// in which branches were first created.
pub struct RepositoryData {
    pub head: Head,
    pub versions: Vec<Version>,
    pub branches: Vec<Branch>,
}

impl View for Head {
    type V = HeadModel;

    open spec fn view(&self) -> HeadModel {
        match self {
            Head::Branch(name) => HeadModel::Branch(name@),
            Head::Version(id) => HeadModel::Version(id.bits),
        }
    }
}

impl View for Version {
    type V = VersionModel;

    open spec fn view(&self) -> VersionModel {
        VersionModel {
            id: self.id.bits,
            creation_time_millis: self.creation_time_millis,
            content_fingerprint: self.content_fingerprint,
            nickname: self.nickname@,
            description: self.description@,
            parent: match self.parent {
                Some(p) => Some(p.bits),
                None => None,
            },
            blob_file_name: self.blob_file_name@,
        }
    }
}

impl View for Branch {
    type V = BranchModel;

    open spec fn view(&self) -> BranchModel {
        BranchModel { name: self.name@, target: self.target.bits }
    }
}

impl View for RepositoryData {
    type V = RepoModel;

    open spec fn view(&self) -> RepoModel {
        RepoModel {
            head: self.head@,
            versions: self.versions@.map_values(|v: Version| v@),
            branches: self.branches@.map_values(|b: Branch| b@),
        }
    }
}

// ---------------------------------------------------------------------------
// Lookup
// ---------------------------------------------------------------------------

/// Whether some version in `s` carries `id`.
pub open spec fn has_id(s: Seq<VersionModel>, id: u128) -> bool {
    exists|j: int| 0 <= j < s.len() && (#[trigger] s[j]).id == id
}

/// The index of the first version in `s` carrying `id` (meaningful when one does).
pub open spec fn first_with_id(s: Seq<VersionModel>, id: u128) -> int
    decreases s.len(),
{
    if s.len() == 0 {
        0
    } else if s[0].id == id {
        0
    } else {
        1 + first_with_id(s.drop_first(), id)
    }
}

pub proof fn lemma_first_with_id(s: Seq<VersionModel>, id: u128)
    requires
        has_id(s, id),
    ensures
        ({
            let r = first_with_id(s, id);
            &&& 0 <= r < s.len()
            &&& s[r].id == id
            &&& forall|j: int| 0 <= j < r ==> (#[trigger] s[j]).id != id
        }),
    decreases s.len(),
{
    if s.len() == 0 {
    } else if s[0].id == id {
    } else {
        let w = choose|j: int| 0 <= j < s.len() && (#[trigger] s[j]).id == id;
        assert(s.drop_first()[w - 1].id == id);
        lemma_first_with_id(s.drop_first(), id);
        let r = first_with_id(s, id);
        assert forall|j: int| 0 <= j < r implies (#[trigger] s[j]).id != id by {
            if j > 0 {
                assert(s.drop_first()[j - 1] == s[j]);
            }
        }
    }
}

/// Whether some branch in `s` is named `name`.
pub open spec fn has_branch(s: Seq<BranchModel>, name: Seq<char>) -> bool {
    exists|j: int| 0 <= j < s.len() && (#[trigger] s[j]).name == name
}

/// The index of the first branch in `s` named `name` (meaningful when one is).
pub open spec fn first_branch(s: Seq<BranchModel>, name: Seq<char>) -> int
    decreases s.len(),
{
    if s.len() == 0 {
        0
    } else if s[0].name == name {
        0
    } else {
        1 + first_branch(s.drop_first(), name)
    }
}

pub proof fn lemma_first_branch(s: Seq<BranchModel>, name: Seq<char>)
    requires
        has_branch(s, name),
    ensures
        ({
            let r = first_branch(s, name);
            &&& 0 <= r < s.len()
            &&& s[r].name == name
            &&& forall|j: int| 0 <= j < r ==> (#[trigger] s[j]).name != name
        }),
    decreases s.len(),
{
    if s.len() == 0 {
    } else if s[0].name == name {
    } else {
        let w = choose|j: int| 0 <= j < s.len() && (#[trigger] s[j]).name == name;
        assert(s.drop_first()[w - 1].name == name);
        lemma_first_branch(s.drop_first(), name);
        let r = first_branch(s, name);
        assert forall|j: int| 0 <= j < r implies (#[trigger] s[j]).name != name by {
            if j > 0 {
                assert(s.drop_first()[j - 1] == s[j]);
            }
        }
    }
}

// ---------------------------------------------------------------------------
// Well-formedness
// ---------------------------------------------------------------------------

/// Whether the parent of `s[i]` names a version that stands strictly earlier
/// in commit order.
pub open spec fn parent_resolves_before(s: Seq<VersionModel>, i: int) -> bool {
    match s[i].parent {
        Some(p) => exists|j: int| 0 <= j < i && (#[trigger] s[j]).id == p,
        None => false,
    }
}

/// The parent-link invariant: the first version is the one root, and every
/// later version's parent resolves to an earlier version. The versions
/// therefore form a tree rooted at index 0.
pub open spec fn parents_ok(s: Seq<VersionModel>) -> bool {
    &&& s.len() > 0
    &&& s[0].parent is None
    &&& forall|i: int| 1 <= i < s.len() ==> #[trigger] parent_resolves_before(s, i)
}

impl RepoModel {
    /// The version the head stands on.
    pub open spec fn head_id(self) -> u128 {
        match self.head {
            HeadModel::Branch(name) => self.branches[first_branch(self.branches, name)].target,
            HeadModel::Version(id) => id,
        }
    }

    /// The branch the head names, if it is symbolic.
    pub open spec fn head_branch_name(self) -> Option<Seq<char>> {
        match self.head {
            HeadModel::Branch(name) => Some(name),
            HeadModel::Version(_) => None,
        }
    }

    pub open spec fn head_index(self) -> int {
        first_with_id(self.versions, self.head_id())
    }

    pub open spec fn head_version(self) -> VersionModel {
        self.versions[self.head_index()]
    }

    /// The content fingerprint recorded on the head version.
    pub open spec fn head_fingerprint(self) -> u128 {
        self.head_version().content_fingerprint
    }

    pub open spec fn branches_ok(self) -> bool {
        &&& forall|i: int|
            0 <= i < self.branches.len() ==> has_id(
                self.versions,
                (#[trigger] self.branches[i]).target,
            )
        &&& forall|i: int, j: int|
            0 <= i < j < self.branches.len() ==> (#[trigger] self.branches[i]).name != (
            #[trigger] self.branches[j]).name
    }

    pub open spec fn head_ok(self) -> bool {
        match self.head {
            HeadModel::Branch(name) => has_branch(self.branches, name),
            HeadModel::Version(id) => has_id(self.versions, id),
        }
    }

    /// The referential invariant every reachable repository document satisfies:
    /// every parent link and every branch target resolves to an existing
    /// version, branch names are unique, and a symbolic head names an existing
    /// branch.
    pub open spec fn wf(self) -> bool {
        &&& parents_ok(self.versions)
        &&& self.branches_ok()
        &&& self.head_ok()
    }

    /// A well-formed repository's head resolves to an existing version.
    pub proof fn lemma_head_resolves(self)
        requires
            self.wf(),
        ensures
            has_id(self.versions, self.head_id()),
            0 <= self.head_index() < self.versions.len(),
            self.versions[self.head_index()].id == self.head_id(),
    {
        match self.head {
            HeadModel::Branch(name) => {
                lemma_first_branch(self.branches, name);
            },
            HeadModel::Version(_) => {},
        }
        lemma_first_with_id(self.versions, self.head_id());
    }
}

// ---------------------------------------------------------------------------
// Lineage
// ---------------------------------------------------------------------------

/// The index of the version that `s[i].parent` resolves to, or -1 at the root.
pub open spec fn parent_index_of(s: Seq<VersionModel>, i: int) -> int {
    match s[i].parent {
        None => -1,
        Some(p) => first_with_id(s, p),
    }
}

/// The indices of `s[i]` and its ancestors, the version itself first and the
/// root last.
pub open spec fn chain_from(s: Seq<VersionModel>, i: int) -> Seq<int>
    decreases i
        when 0 <= i < s.len() && parents_ok(s)
        via chain_from_dec
{
    match s[i].parent {
        None => seq![i],
        Some(p) => seq![i] + chain_from(s, first_with_id(s, p)),
    }
}

#[via_fn]
proof fn chain_from_dec(s: Seq<VersionModel>, i: int) {
    match s[i].parent {
        None => {},
        Some(p) => {
            if i == 0 {
                assert(false);
            } else {
                assert(parent_resolves_before(s, i));
                let j = choose|j: int| 0 <= j < i && (#[trigger] s[j]).id == p;
                assert(has_id(s, p));
                lemma_first_with_id(s, p);
            }
        },
    }
}

impl RepoModel {
    /// The head version and its ancestors, head first, root last.
    pub open spec fn head_chain(self) -> Seq<int> {
        chain_from(self.versions, self.head_index())
    }
}

/// Structure of an ancestor chain: it starts at `i`, walks strictly backwards
/// through resolved parent links, and ends at the one root, index 0.
pub proof fn lemma_chain_from(s: Seq<VersionModel>, i: int)
    requires
        parents_ok(s),
        0 <= i < s.len(),
    ensures
        ({
            let c = chain_from(s, i);
            &&& c.len() >= 1
            &&& c[0] == i
            &&& forall|k: int| 0 <= k < c.len() ==> 0 <= #[trigger] c[k] <= i
            &&& forall|k: int|
                0 <= k < c.len() - 1 ==> #[trigger] c[k + 1] == parent_index_of(s, c[k]) && c[k + 1]
                    < c[k]
            &&& c[c.len() - 1] == 0
            &&& s[c[c.len() - 1]].parent is None
        }),
    decreases i,
{
    let c = chain_from(s, i);
    match s[i].parent {
        None => {
            if i != 0 {
                assert(parent_resolves_before(s, i));
            }
            assert(c =~= seq![i]);
        },
        Some(p) => {
            assert(i != 0);
            assert(parent_resolves_before(s, i));
            let j = choose|j: int| 0 <= j < i && (#[trigger] s[j]).id == p;
            assert(has_id(s, p));
            lemma_first_with_id(s, p);
            let pi = first_with_id(s, p);
            lemma_chain_from(s, pi);
            let rest = chain_from(s, pi);
            assert(c =~= seq![i] + rest);
            assert forall|k: int| 0 <= k < c.len() - 1 implies #[trigger] c[k + 1]
                == parent_index_of(s, c[k]) && c[k + 1] < c[k] by {
                if k == 0 {
                    assert(c[1] == rest[0] == pi);
                } else {
                    assert(c[k] == rest[k - 1]);
                    assert(rest[(k - 1) + 1] == parent_index_of(s, rest[k - 1]) && rest[(k - 1) + 1]
                        < rest[k - 1]);
                    assert(c[k + 1] == rest[k]);
                }
            }
        },
    }
}

// ---------------------------------------------------------------------------
// Queries on the stored document
// ---------------------------------------------------------------------------

/// A sequence of indices as mathematical integers.
pub open spec fn usizes_as_ints(s: Seq<usize>) -> Seq<int> {
    s.map_values(|u: usize| u as int)
}

impl RepositoryData {
    /// The index of the first version carrying `id`, if any version does.
    pub fn version_index(&self, id: &VersionId) -> (r: Option<usize>)
        ensures
            match r {
                Some(i) => i < self.versions.len() && i == first_with_id(self@.versions, id.bits)
                    && has_id(self@.versions, id.bits),
                None => !has_id(self@.versions, id.bits),
            },
    {
        let ghost s = self@.versions;
        let mut i: usize = 0;
        while i < self.versions.len()
            invariant
                s == self@.versions,
                s.len() == self.versions.len(),
                i <= self.versions.len(),
                forall|j: int| 0 <= j < i ==> (#[trigger] s[j]).id != id.bits,
            decreases self.versions.len() - i,
        {
            if self.versions[i].id == *id {
                proof {
                    assert(s[i as int] == self.versions@[i as int]@);
                    lemma_first_with_id(s, id.bits);
                }
                return Some(i);
            }
            proof {
                assert(s[i as int] == self.versions@[i as int]@);
            }
            i = i + 1;
        }
        None
    }

    /// The first version carrying `id`, if any does.
    pub fn version(&self, id: &VersionId) -> (r: Option<&Version>)
        ensures
            match r {
                Some(v) => has_id(self@.versions, id.bits) && v@ == self@.versions[first_with_id(
                    self@.versions,
                    id.bits,
                )],
                None => !has_id(self@.versions, id.bits),
            },
    {
        match self.version_index(id) {
            Some(i) => Some(&self.versions[i]),
            None => None,
        }
    }

    /// The index of the first version carrying `id`, which is known to exist.
    pub fn index_of_id(&self, id: &VersionId) -> (r: usize)
        requires
            has_id(self@.versions, id.bits),
        ensures
            r == first_with_id(self@.versions, id.bits),
            r < self.versions.len(),
    {
        match self.version_index(id) {
            Some(i) => i,
            None => vstd::pervasive::unreached(),
        }
    }

    /// The index of the first branch named `name`, if one is.
    pub fn branch_index(&self, name: &String) -> (r: Option<usize>)
        ensures
            match r {
                Some(i) => i < self.branches.len() && i == first_branch(self@.branches, name@)
                    && has_branch(self@.branches, name@),
                None => !has_branch(self@.branches, name@),
            },
    {
        let ghost s = self@.branches;
        let mut i: usize = 0;
        while i < self.branches.len()
            invariant
                s == self@.branches,
                s.len() == self.branches.len(),
                i <= self.branches.len(),
                forall|j: int| 0 <= j < i ==> (#[trigger] s[j]).name != name@,
            decreases self.branches.len() - i,
        {
            if self.branches[i].name == *name {
                proof {
                    assert(s[i as int] == self.branches@[i as int]@);
                    lemma_first_branch(s, name@);
                }
                return Some(i);
            }
            proof {
                assert(s[i as int] == self.branches@[i as int]@);
            }
            i = i + 1;
        }
        None
    }

    /// The version the first branch named `name` points to, if such a branch is there.
    pub fn branch_target(&self, name: &String) -> (r: Option<VersionId>)
        ensures
            match r {
                Some(t) => has_branch(self@.branches, name@) && t.bits == self@.branches[
                    first_branch(self@.branches, name@)].target,
                None => !has_branch(self@.branches, name@),
            },
    {
        match self.branch_index(name) {
            Some(i) => {
                proof {
                    assert(self@.branches[i as int] == self.branches@[i as int]@);
                }
                Some(self.branches[i].target)
            },
            None => None,
        }
    }

    /// The index of the version the head stands on.
    pub fn head_version_index(&self) -> (r: usize)
        requires
            self@.wf(),
        ensures
            r == self@.head_index(),
            r < self.versions.len(),
            self@.versions[r as int] == self@.head_version(),
    {
        proof {
            self@.lemma_head_resolves();
        }
        let head_id: VersionId = match &self.head {
            Head::Branch(name) => {
                match self.branch_target(name) {
                    Some(t) => t,
                    None => vstd::pervasive::unreached(),
                }
            },
            Head::Version(id) => *id,
        };
        assert(head_id.bits == self@.head_id());
        self.index_of_id(&head_id)
    }

    /// The version the head stands on.
    pub fn head_version(&self) -> (r: &Version)
        requires
            self@.wf(),
        ensures
            r@ == self@.head_version(),
    {
        let i = self.head_version_index();
        &self.versions[i]
    }

    /// Whether some version earlier than `bound` carries `id`.
    fn index_in_prefix(&self, id: &VersionId, bound: usize) -> (r: Option<usize>)
        requires
            bound <= self.versions.len(),
        ensures
            match r {
                Some(j) => j < bound && self@.versions[j as int].id == id.bits,
                None => forall|j: int|
                    0 <= j < bound ==> (#[trigger] self@.versions[j]).id != id.bits,
            },
    {
        let ghost s = self@.versions;
        let mut i: usize = 0;
        while i < bound
            invariant
                s == self@.versions,
                s.len() == self.versions.len(),
                i <= bound <= self.versions.len(),
                forall|j: int| 0 <= j < i ==> (#[trigger] s[j]).id != id.bits,
            decreases bound - i,
        {
            if self.versions[i].id == *id {
                proof {
                    assert(s[i as int] == self.versions@[i as int]@);
                }
                return Some(i);
            }
            proof {
                assert(s[i as int] == self.versions@[i as int]@);
            }
            i = i + 1;
        }
        None
    }

    /// Whether the document satisfies the referential invariant `wf`.
    #[verifier::loop_isolation(false)]
    pub fn valid(&self) -> (r: bool)
        ensures
            r == self@.wf(),
    {
        let ghost m = self@;
        if self.versions.len() == 0 {
            return false;
        }
        proof {
            assert(m.versions[0] == self.versions@[0]@);
        }
        match &self.versions[0].parent {
            Some(_) => {
                return false;
            },
            None => {},
        }
        let mut i: usize = 1;
        while i < self.versions.len()
            invariant
                1 <= i <= self.versions.len(),
                forall|k: int| 1 <= k < i ==> #[trigger] parent_resolves_before(m.versions, k),
            decreases self.versions.len() - i,
        {
            proof {
                assert(m.versions[i as int] == self.versions@[i as int]@);
            }
            let has_parent = match &self.versions[i].parent {
                None => false,
                Some(p) => {
                    match self.index_in_prefix(p, i) {
                        Some(_) => true,
                        None => false,
                    }
                },
            };
            if !has_parent {
                proof {
                    assert(!parent_resolves_before(m.versions, i as int));
                }
                return false;
            }
            proof {
                assert(parent_resolves_before(m.versions, i as int));
            }
            i = i + 1;
        }
        assert(parents_ok(m.versions));
        let mut bi: usize = 0;
        while bi < self.branches.len()
            invariant
                bi <= self.branches.len(),
                forall|k: int| 0 <= k < bi ==> has_id(m.versions, (#[trigger] m.branches[k]).target),
                forall|k: int, l: int|
                    0 <= k < l < bi ==> (#[trigger] m.branches[k]).name != (
                    #[trigger] m.branches[l]).name,
            decreases self.branches.len() - bi,
        {
            proof {
                assert(m.branches[bi as int] == self.branches@[bi as int]@);
            }
            match self.version_index(&self.branches[bi].target) {
                Some(_) => {},
                None => {
                    return false;
                },
            }
            let mut bj: usize = 0;
            while bj < bi
                invariant
                    bj <= bi < self.branches.len(),
                    forall|k: int| 0 <= k < bj ==> (#[trigger] m.branches[k]).name != m.branches[bi as int].name,
                decreases bi - bj,
            {
                proof {
                    assert(m.branches[bj as int] == self.branches@[bj as int]@);
                }
                if self.branches[bj].name == self.branches[bi].name {
                    return false;
                }
                bj = bj + 1;
            }
            bi = bi + 1;
        }
        assert(m.branches_ok());
        let head_ok = match &self.head {
            Head::Branch(name) => {
                match self.branch_index(name) {
                    Some(_) => true,
                    None => false,
                }
            },
            Head::Version(id) => {
                match self.version_index(id) {
                    Some(_) => true,
                    None => false,
                }
            },
        };
        head_ok
    }

    /// The head version and its ancestors as indices into `versions`, the head
    /// first and the root last.
    pub fn head_and_ancestors(&self) -> (r: Vec<usize>)
        requires
            self@.wf(),
        ensures
            usizes_as_ints(r@) == self@.head_chain(),
    {
        let ghost s = self@.versions;
        let head_idx = self.head_version_index();
        proof {
            lemma_chain_from(s, head_idx as int);
        }
        let mut r: Vec<usize> = Vec::new();
        let mut cur = head_idx;
        loop
            invariant_except_break
                self@.wf(),
                s == self@.versions,
                s.len() == self.versions.len(),
                cur < self.versions.len(),
                chain_from(s, self@.head_index()) == usizes_as_ints(r@) + chain_from(s, cur as int),
            ensures
                usizes_as_ints(r@) == chain_from(s, self@.head_index()),
            decreases cur,
        {
            r.push(cur);
            proof {
                assert(usizes_as_ints(r@) =~= usizes_as_ints(r@.drop_last()).push(cur as int));
                assert(s[cur as int] == self.versions@[cur as int]@);
            }
            let parent = match &self.versions[cur].parent {
                None => None,
                Some(p) => Some(*p),
            };
            match parent {
                None => {
                    proof {
                        assert(chain_from(s, cur as int) =~= seq![cur as int]);
                        assert(usizes_as_ints(r@) =~= usizes_as_ints(r@.drop_last()) + chain_from(
                            s,
                            cur as int,
                        ));
                    }
                    break;
                },
                Some(p) => {
                    proof {
                        if cur == 0 {
                            assert(false);
                        }
                        assert(parent_resolves_before(s, cur as int));
                        let j = choose|j: int| 0 <= j < cur && (#[trigger] s[j]).id == p.bits;
                        assert(has_id(s, p.bits));
                        lemma_first_with_id(s, p.bits);
                    }
                    let next = self.index_of_id(&p);
                    proof {
                        assert(chain_from(s, cur as int) =~= seq![cur as int] + chain_from(
                            s,
                            next as int,
                        ));
                        assert(usizes_as_ints(r@) + chain_from(s, next as int) =~= usizes_as_ints(
                            r@.drop_last(),
                        ) + chain_from(s, cur as int));
                    }
                    cur = next;
                },
            }
        }
        r
    }
}

} // verus!
