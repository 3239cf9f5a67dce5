use vstd::prelude::*;
use crate::repository_data::{
    first_with_id, has_id, lemma_chain_from, lemma_first_with_id,
    parent_resolves_before, parents_ok, usizes_as_ints, BranchModel, RepoModel, RepositoryData,
    VersionModel,
};
use crate::strutil::{dec_seq, dec_string, join_seq, join_with, pad_left, pad_left_seq, pad_right,
    spaces, spaces_seq};
use crate::time::{format_local_time, humanize_time};
use crate::version_id::{base58_of, VersionId};

verus! {

// ---------------------------------------------------------------------------
// Rendered rows
// ---------------------------------------------------------------------------

/// One rendered history row, column by column.
pub struct PreparedVersion {
    pub creation_time: String,
    pub creation_time_humanized: String,
    pub id: String,
    pub nickname: String,
    pub head_badge: Option<String>,
    pub other_branches_here: Option<String>,
    pub forking_branches: Option<String>,
    pub description: Option<String>,
}

/// The one summary row that stands in for the truncated part of the history.
pub struct PreparedOffScreen {
    pub more_versions_text_offset: usize,
    pub more_versions_text: String,
    pub forking_branches_offset: usize,
    pub forking_branches: Option<String>,
}

/// The trailing marker row shown when the tracked file has unsaved changes.
pub struct PreparedUncommitedChanges {
    pub uncommitted_changes_text: String,
}

/// A fully rendered history: rendered rows nearest the head first, with an
/// optional summary of older rows and an optional uncommitted-changes marker.
pub struct Prepared {
    pub off_screen_info: Option<PreparedOffScreen>,
    pub versions: Vec<PreparedVersion>,
    pub uncommitted_changes: Option<PreparedUncommitedChanges>,
}

// ---------------------------------------------------------------------------
// What each column holds
// ---------------------------------------------------------------------------

/// The names of the branches pointing directly at version `vid`, in branch
/// order.
pub open spec fn branch_names_on(branches: Seq<BranchModel>, vid: u128) -> Seq<Seq<char>>
    decreases branches.len(),
{
    if branches.len() == 0 {
        Seq::empty()
    } else {
        branch_names_on(branches.drop_last(), vid) + (if branches.last().target == vid {
            seq![branches.last().name]
        } else {
            Seq::empty()
        })
    }
}

/// Whether some version whose index lies on `chain` carries `id`.
pub open spec fn id_on_chain(s: Seq<VersionModel>, chain: Seq<int>, id: u128) -> bool {
    exists|k: int| 0 <= k < chain.len() && s[#[trigger] chain[k]].id == id
}

/// The join point of the version at index `i` with the lineage `chain`: the
/// nearest member of `i`'s own ancestor chain whose id lies on `chain`.
pub open spec fn join_index(s: Seq<VersionModel>, chain: Seq<int>, i: int) -> int
    decreases i
        when 0 <= i < s.len() && parents_ok(s)
        via join_index_dec
{
    if id_on_chain(s, chain, s[i].id) {
        i
    } else {
        match s[i].parent {
            None => i,
            Some(p) => join_index(s, chain, first_with_id(s, p)),
        }
    }
}

#[via_fn]
proof fn join_index_dec(s: Seq<VersionModel>, chain: Seq<int>, i: int) {
    if !id_on_chain(s, chain, s[i].id) {
        match s[i].parent {
            None => {},
            Some(p) => {
                if i == 0 {
                    assert(false);
                } else {
                    assert(parent_resolves_before(s, i));
                    let j = choose|j: int| 0 <= j < i && (#[trigger] s[j]).id == p;
                    assert(has_id(s, p));
                    lemma_first_with_id(s, p);
                }
            },
        }
    }
}

/// The id of the version where branch `b` joins the head lineage.
pub open spec fn branch_join_id(m: RepoModel, b: BranchModel) -> u128 {
    m.versions[join_index(m.versions, m.head_chain(), first_with_id(m.versions, b.target))].id
}

/// The names of the branches whose join point with the head lineage is the
/// version `vid`, in branch order.
pub open spec fn forking_names_at(branches: Seq<BranchModel>, m: RepoModel, vid: u128) -> Seq<
    Seq<char>,
>
    decreases branches.len(),
{
    if branches.len() == 0 {
        Seq::empty()
    } else {
        forking_names_at(branches.drop_last(), m, vid) + (if branch_join_id(m, branches.last())
            == vid {
            seq![branches.last().name]
        } else {
            Seq::empty()
        })
    }
}

/// Whether `xs` holds `x`.
pub open spec fn name_in(xs: Seq<Seq<char>>, x: Seq<char>) -> bool {
    exists|k: int| 0 <= k < xs.len() && xs[k] == x
}

/// `xs` without the names that occur in `ys`, order kept.
pub open spec fn names_minus(xs: Seq<Seq<char>>, ys: Seq<Seq<char>>) -> Seq<Seq<char>>
    decreases xs.len(),
{
    if xs.len() == 0 {
        Seq::empty()
    } else {
        names_minus(xs.drop_last(), ys) + (if name_in(ys, xs.last()) {
            Seq::empty()
        } else {
            seq![xs.last()]
        })
    }
}

/// `xs` without the name `y`, order kept.
pub open spec fn names_without(xs: Seq<Seq<char>>, y: Seq<char>) -> Seq<Seq<char>>
    decreases xs.len(),
{
    if xs.len() == 0 {
        Seq::empty()
    } else {
        names_without(xs.drop_last(), y) + (if xs.last() == y {
            Seq::empty()
        } else {
            seq![xs.last()]
        })
    }
}

/// The badge the head row carries: the branch the head names, or a bare mark
/// when it is detached.
pub open spec fn head_badge_seq(m: RepoModel) -> Seq<char> {
    match m.head_branch_name() {
        Some(b) => "[HEAD = "@ + b + "]"@,
        None => "[HEAD]"@,
    }
}

/// The co-located branch badges of version `vid`: every branch pointing at it,
/// except the one the head names.
pub open spec fn other_names_at(m: RepoModel, vid: u128) -> Seq<Seq<char>> {
    match m.head_branch_name() {
        Some(hb) => names_without(branch_names_on(m.branches, vid), hb),
        None => branch_names_on(m.branches, vid),
    }
}

/// The forking-branch names shown on version `vid`'s row: branches joining the
/// head lineage there, except those pointing directly at it.
pub open spec fn forking_shown_at(m: RepoModel, vid: u128) -> Seq<Seq<char>> {
    names_minus(forking_names_at(m.branches, m, vid), branch_names_on(m.branches, vid))
}

/// The `", "`-joined names wrapped in `pre`…`"]"`, as branch lists are shown.
pub open spec fn name_list_seq(pre: Seq<char>, names: Seq<Seq<char>>) -> Seq<char> {
    pre + join_seq(names, ", "@) + "]"@
}

/// The longest nickname among the first `count` listed versions.
pub open spec fn max_nick_len(s: Seq<VersionModel>, list: Seq<int>, count: int) -> nat
    decreases count,
{
    if count <= 0 {
        0
    } else {
        let rest = max_nick_len(s, list, count - 1);
        let cur = s[list[count - 1]].nickname.len();
        if cur > rest {
            cur
        } else {
            rest
        }
    }
}

/// What one rendered row holds for the version at index `idx`, once nicknames
/// are aligned to `nick_width`. The two time columns are the clock's and the
/// local time zone's affair and are pinned only in their alignment.
pub open spec fn row_matches(m: RepoModel, idx: int, nick_width: nat, row: PreparedVersion) -> bool {
    let v = m.versions[idx];
    &&& row.id@ == base58_of(v.id)
    &&& row.nickname@ == pad_left_seq(v.nickname, nick_width)
    &&& (row.head_badge is Some <==> v.id == m.head_id())
    &&& (row.head_badge matches Some(h) ==> h@ == head_badge_seq(m))
    &&& (row.other_branches_here is Some <==> other_names_at(m, v.id).len() > 0)
    &&& (row.other_branches_here matches Some(o) ==> o@ == name_list_seq(
        "["@,
        other_names_at(m, v.id),
    ))
    &&& (row.forking_branches is Some <==> forking_shown_at(m, v.id).len() > 0)
    &&& (row.forking_branches matches Some(f) ==> f@ == name_list_seq(
        "->["@,
        forking_shown_at(m, v.id),
    ))
    &&& (row.description is Some <==> v.description.len() > 0)
    &&& (row.description matches Some(d) ==> d@ == v.description)
}

/// The names summarized on the off-screen row: forking branches — those whose
/// tip is not on the head lineage — whose join point with that lineage fell
/// among the truncated listed versions, in branch order.
pub open spec fn off_screen_names(m: RepoModel, list: Seq<int>, lim: int) -> Seq<Seq<char>> {
    names_filter_join_hidden(m.branches, m, list, lim)
}

pub open spec fn names_filter_join_hidden(
    branches: Seq<BranchModel>,
    m: RepoModel,
    list: Seq<int>,
    lim: int,
) -> Seq<Seq<char>>
    decreases branches.len(),
{
    if branches.len() == 0 {
        Seq::empty()
    } else {
        names_filter_join_hidden(branches.drop_last(), m, list, lim) + (if join_hidden(
            m,
            list,
            lim,
            branches.last(),
        ) {
            seq![branches.last().name]
        } else {
            Seq::empty()
        })
    }
}

/// Whether branch `b` forks off the head lineage — its tip does not lie on it,
/// so its join point differs from its tip — and that join point stands on a
/// truncated listed row.
pub open spec fn join_hidden(m: RepoModel, list: Seq<int>, lim: int, b: BranchModel) -> bool {
    &&& b.target != branch_join_id(m, b)
    &&& exists|k: int|
        lim <= k < list.len() && m.versions[#[trigger] list[k]].id == branch_join_id(m, b)
}

// ---------------------------------------------------------------------------
// Computing the columns
// ---------------------------------------------------------------------------

fn exec_branch_names_on(data: &RepositoryData, vid: VersionId) -> (r: Vec<String>)
    ensures
        r.deep_view() == branch_names_on(data@.branches, vid.bits),
{
    let ghost bs = data@.branches;
    let mut r: Vec<String> = Vec::new();
    let mut i: usize = 0;
    while i < data.branches.len()
        invariant
            bs == data@.branches,
            bs.len() == data.branches.len(),
            i <= data.branches.len(),
            r.deep_view() == branch_names_on(bs.take(i as int), vid.bits),
        decreases data.branches.len() - i,
    {
        let ghost prev = r.deep_view();
        proof {
            assert(bs[i as int] == data.branches@[i as int]@);
        }
        if data.branches[i].target == vid {
            r.push(data.branches[i].name.clone());
        }
        proof {
            assert(bs.take(i + 1).drop_last() =~= bs.take(i as int));
            assert(bs.take(i + 1).last() == bs[i as int]);
            assert(r.deep_view() =~= branch_names_on(bs.take(i + 1), vid.bits));
        }
        i = i + 1;
    }
    proof {
        assert(bs.take(bs.len() as int) =~= bs);
    }
    r
}

fn id_on_chain_exec(data: &RepositoryData, hchain: &Vec<usize>, id: VersionId) -> (r: bool)
    requires
        data@.wf(),
        usizes_as_ints(hchain@) == data@.head_chain(),
    ensures
        r == id_on_chain(data@.versions, data@.head_chain(), id.bits),
{
    let ghost s = data@.versions;
    let ghost hc = data@.head_chain();
    proof {
        data@.lemma_head_resolves();
        lemma_chain_from(s, data@.head_index());
    }
    let mut k: usize = 0;
    while k < hchain.len()
        invariant
            s == data@.versions,
            hc == data@.head_chain(),
            usizes_as_ints(hchain@) == hc,
            s.len() == data.versions.len(),
            hchain@.len() == hc.len(),
            forall|j: int| 0 <= j < hc.len() ==> 0 <= #[trigger] hc[j] < s.len(),
            k <= hchain.len(),
            forall|j: int| 0 <= j < k ==> s[#[trigger] hc[j]].id != id.bits,
        decreases hchain.len() - k,
    {
        let idx = hchain[k];
        proof {
            assert(hc[k as int] == hchain@[k as int] as int);
            assert(s[idx as int] == data.versions@[idx as int]@);
        }
        if data.versions[idx].id == id {
            return true;
        }
        k = k + 1;
    }
    false
}

fn exec_join_index(data: &RepositoryData, hchain: &Vec<usize>, start: usize) -> (r: usize)
    requires
        data@.wf(),
        start < data.versions.len(),
        usizes_as_ints(hchain@) == data@.head_chain(),
    ensures
        r == join_index(data@.versions, data@.head_chain(), start as int),
        r < data.versions.len(),
{
    let ghost s = data@.versions;
    let ghost hc = data@.head_chain();
    proof {
        data@.lemma_head_resolves();
        lemma_chain_from(s, data@.head_index());
        assert(hc[hc.len() - 1] == 0);
        assert(id_on_chain(s, hc, s[0].id));
    }
    let mut cur = start;
    loop
        invariant_except_break
            data@.wf(),
            s == data@.versions,
            hc == data@.head_chain(),
            usizes_as_ints(hchain@) == hc,
            s.len() == data.versions.len(),
            cur < data.versions.len(),
            id_on_chain(s, hc, s[0].id),
            join_index(s, hc, start as int) == join_index(s, hc, cur as int),
        ensures
            cur < data.versions.len(),
            cur == join_index(s, hc, start as int),
        decreases cur,
    {
        proof {
            assert(s[cur as int] == data.versions@[cur as int]@);
        }
        if id_on_chain_exec(data, hchain, data.versions[cur].id) {
            proof {
                assert(join_index(s, hc, cur as int) == cur);
            }
            break;
        }
        proof {
            if cur == 0 {
                assert(false);
            }
            assert(parent_resolves_before(s, cur as int));
        }
        let parent = match &data.versions[cur].parent {
            None => {
                return vstd::pervasive::unreached();
            },
            Some(p) => *p,
        };
        proof {
            let j = choose|j: int| 0 <= j < cur && (#[trigger] s[j]).id == parent.bits;
            assert(has_id(s, parent.bits));
            lemma_first_with_id(s, parent.bits);
        }
        let next = data.index_of_id(&parent);
        proof {
            assert(join_index(s, hc, cur as int) == join_index(s, hc, next as int));
        }
        cur = next;
    }
    cur
}

fn exec_forking_names_at(data: &RepositoryData, hchain: &Vec<usize>, vid: VersionId) -> (r: Vec<
    String,
>)
    requires
        data@.wf(),
        usizes_as_ints(hchain@) == data@.head_chain(),
    ensures
        r.deep_view() == forking_names_at(data@.branches, data@, vid.bits),
{
    let ghost m = data@;
    let ghost bs = data@.branches;
    let mut r: Vec<String> = Vec::new();
    let mut i: usize = 0;
    while i < data.branches.len()
        invariant
            m == data@,
            bs == data@.branches,
            bs.len() == data.branches.len(),
            usizes_as_ints(hchain@) == data@.head_chain(),
            data@.wf(),
            i <= data.branches.len(),
            r.deep_view() == forking_names_at(bs.take(i as int), m, vid.bits),
        decreases data.branches.len() - i,
    {
        proof {
            assert(bs[i as int] == data.branches@[i as int]@);
            assert(has_id(m.versions, bs[i as int].target));
            lemma_first_with_id(m.versions, bs[i as int].target);
        }
        let tip = data.index_of_id(&data.branches[i].target);
        let join = exec_join_index(data, hchain, tip);
        proof {
            assert(m.versions[join as int] == data.versions@[join as int]@);
            assert(m.versions[join as int].id == branch_join_id(m, bs[i as int]));
        }
        if data.versions[join].id == vid {
            r.push(data.branches[i].name.clone());
        }
        proof {
            assert(bs.take(i + 1).drop_last() =~= bs.take(i as int));
            assert(bs.take(i + 1).last() == bs[i as int]);
            assert(r.deep_view() =~= forking_names_at(bs.take(i + 1), m, vid.bits));
        }
        i = i + 1;
    }
    proof {
        assert(bs.take(bs.len() as int) =~= bs);
    }
    r
}

fn name_vec_contains(xs: &Vec<String>, x: &String) -> (r: bool)
    ensures
        r == name_in(xs.deep_view(), x@),
{
    let mut k: usize = 0;
    while k < xs.len()
        invariant
            k <= xs.len(),
            xs.deep_view().len() == xs.len(),
            forall|j: int| 0 <= j < k ==> xs.deep_view()[j] != x@,
        decreases xs.len() - k,
    {
        if xs[k] == *x {
            proof {
                assert(xs.deep_view()[k as int] == x@);
            }
            return true;
        }
        k = k + 1;
    }
    false
}

fn exec_names_minus(xs: &Vec<String>, ys: &Vec<String>) -> (r: Vec<String>)
    ensures
        r.deep_view() == names_minus(xs.deep_view(), ys.deep_view()),
{
    let ghost xv = xs.deep_view();
    let mut r: Vec<String> = Vec::new();
    let mut i: usize = 0;
    while i < xs.len()
        invariant
            xv == xs.deep_view(),
            xv.len() == xs.len(),
            i <= xs.len(),
            r.deep_view() == names_minus(xv.take(i as int), ys.deep_view()),
        decreases xs.len() - i,
    {
        if !name_vec_contains(ys, &xs[i]) {
            r.push(xs[i].clone());
        }
        proof {
            assert(xv.take(i + 1).drop_last() =~= xv.take(i as int));
            assert(xv.take(i + 1).last() == xv[i as int]);
            assert(r.deep_view() =~= names_minus(xv.take(i + 1), ys.deep_view()));
        }
        i = i + 1;
    }
    proof {
        assert(xv.take(xv.len() as int) =~= xv);
    }
    r
}

fn exec_names_without(xs: &Vec<String>, y: &String) -> (r: Vec<String>)
    ensures
        r.deep_view() == names_without(xs.deep_view(), y@),
{
    let ghost xv = xs.deep_view();
    let mut r: Vec<String> = Vec::new();
    let mut i: usize = 0;
    while i < xs.len()
        invariant
            xv == xs.deep_view(),
            xv.len() == xs.len(),
            i <= xs.len(),
            r.deep_view() == names_without(xv.take(i as int), y@),
        decreases xs.len() - i,
    {
        if !(xs[i] == *y) {
            r.push(xs[i].clone());
        }
        proof {
            assert(xv.take(i + 1).drop_last() =~= xv.take(i as int));
            assert(xv.take(i + 1).last() == xv[i as int]);
            assert(r.deep_view() =~= names_without(xv.take(i + 1), y@));
        }
        i = i + 1;
    }
    proof {
        assert(xv.take(xv.len() as int) =~= xv);
    }
    r
}

fn exec_max_nick_len(data: &RepositoryData, list: &Vec<usize>, lim: usize) -> (r: usize)
    requires
        lim <= list@.len(),
        forall|k: int| 0 <= k < list@.len() ==> #[trigger] list@[k] < data.versions.len(),
    ensures
        r == max_nick_len(data@.versions, usizes_as_ints(list@), lim as int),
{
    let ghost s = data@.versions;
    let ghost li = usizes_as_ints(list@);
    let mut r: usize = 0;
    let mut i: usize = 0;
    while i < lim
        invariant
            s == data@.versions,
            li == usizes_as_ints(list@),
            s.len() == data.versions.len(),
            li.len() == list@.len(),
            lim <= list@.len(),
            forall|k: int| 0 <= k < list@.len() ==> #[trigger] list@[k] < data.versions.len(),
            i <= lim,
            r == max_nick_len(s, li, i as int),
        decreases lim - i,
    {
        let idx = list[i];
        proof {
            assert(li[i as int] == list@[i as int] as int);
            assert(s[idx as int] == data.versions@[idx as int]@);
        }
        let l = data.versions[idx].nickname.as_str().unicode_len();
        if l > r {
            r = l;
        }
        i = i + 1;
    }
    r
}

/// How many listed rows are rendered: all of them, or the display limit when
/// that is smaller.
pub open spec fn effective_limit(n: int, limit: Option<usize>) -> int {
    match limit {
        Some(l) => if l < n {
            l as int
        } else {
            n
        },
        None => n,
    }
}

/// The common width of the rendered humanized-time column.
pub open spec fn humanized_width_of(p: Prepared) -> nat {
    if p.versions@.len() > 0 {
        p.versions@[0].creation_time_humanized@.len()
    } else {
        0
    }
}

fn wrap_list(pre: &str, names: &Vec<String>) -> (r: String)
    ensures
        r@ == name_list_seq(pre@, names.deep_view()),
{
    let mut r = pre.to_owned();
    let joined = join_with(names, ", ");
    r.append(joined.as_str());
    r.append("]");
    r
}

fn make_head_badge(data: &RepositoryData) -> (r: String)
    ensures
        r@ == head_badge_seq(data@),
{
    match &data.head {
        crate::repository_data::Head::Branch(name) => {
            let mut r = String::from_str("[HEAD = ");
            r.append(name.as_str());
            r.append("]");
            r
        },
        crate::repository_data::Head::Version(_) => String::from_str("[HEAD]"),
    }
}

fn join_hidden_exec(
    data: &RepositoryData,
    hchain: &Vec<usize>,
    list: &Vec<usize>,
    lim: usize,
    branch_i: usize,
) -> (r: bool)
    requires
        data@.wf(),
        usizes_as_ints(hchain@) == data@.head_chain(),
        lim <= list@.len(),
        forall|k: int| 0 <= k < list@.len() ==> #[trigger] list@[k] < data.versions.len(),
        branch_i < data.branches.len(),
    ensures
        r == join_hidden(data@, usizes_as_ints(list@), lim as int, data@.branches[branch_i as int]),
{
    let ghost m = data@;
    let ghost li = usizes_as_ints(list@);
    let ghost b = m.branches[branch_i as int];
    proof {
        assert(m.branches[branch_i as int] == data.branches@[branch_i as int]@);
        assert(has_id(m.versions, b.target));
        lemma_first_with_id(m.versions, b.target);
    }
    let tip = data.index_of_id(&data.branches[branch_i].target);
    let join = exec_join_index(data, hchain, tip);
    proof {
        assert(m.versions[join as int] == data.versions@[join as int]@);
        assert(m.versions[join as int].id == branch_join_id(m, b));
    }
    let join_id = data.versions[join].id;
    if data.branches[branch_i].target == join_id {
        return false;
    }
    let mut k: usize = lim;
    while k < list.len()
        invariant
            m == data@,
            li == usizes_as_ints(list@),
            li.len() == list@.len(),
            m.versions.len() == data.versions.len(),
            branch_i < data.branches.len(),
            m.branches.len() == data.branches.len(),
            b == m.branches[branch_i as int],
            lim <= k <= list@.len(),
            forall|j: int| 0 <= j < list@.len() ==> #[trigger] list@[j] < data.versions.len(),
            join_id.bits == branch_join_id(m, b),
            b.target != join_id.bits,
            forall|j: int| lim <= j < k ==> m.versions[#[trigger] li[j]].id != join_id.bits,
        decreases list.len() - k,
    {
        let idx = list[k];
        proof {
            assert(li[k as int] == list@[k as int] as int);
            assert(m.versions[idx as int] == data.versions@[idx as int]@);
        }
        if data.versions[idx].id == join_id {
            proof {
                assert(m.versions[li[k as int]].id == branch_join_id(m, b));
                assert(join_hidden(m, li, lim as int, b));
            }
            return true;
        }
        k = k + 1;
    }
    false
}

fn exec_off_screen_names(
    data: &RepositoryData,
    hchain: &Vec<usize>,
    list: &Vec<usize>,
    lim: usize,
) -> (r: Vec<String>)
    requires
        data@.wf(),
        usizes_as_ints(hchain@) == data@.head_chain(),
        lim <= list@.len(),
        forall|k: int| 0 <= k < list@.len() ==> #[trigger] list@[k] < data.versions.len(),
    ensures
        r.deep_view() == off_screen_names(data@, usizes_as_ints(list@), lim as int),
{
    let ghost m = data@;
    let ghost bs = data@.branches;
    let ghost li = usizes_as_ints(list@);
    let mut r: Vec<String> = Vec::new();
    let mut i: usize = 0;
    while i < data.branches.len()
        invariant
            m == data@,
            bs == data@.branches,
            li == usizes_as_ints(list@),
            bs.len() == data.branches.len(),
            data@.wf(),
            usizes_as_ints(hchain@) == data@.head_chain(),
            lim <= list@.len(),
            forall|k: int| 0 <= k < list@.len() ==> #[trigger] list@[k] < data.versions.len(),
            i <= data.branches.len(),
            r.deep_view() == names_filter_join_hidden(bs.take(i as int), m, li, lim as int),
        decreases data.branches.len() - i,
    {
        proof {
            assert(bs[i as int] == data.branches@[i as int]@);
        }
        if join_hidden_exec(data, hchain, list, lim, i) {
            r.push(data.branches[i].name.clone());
        }
        proof {
            assert(bs.take(i + 1).drop_last() =~= bs.take(i as int));
            assert(bs.take(i + 1).last() == bs[i as int]);
            assert(r.deep_view() =~= names_filter_join_hidden(bs.take(i + 1), m, li, lim as int));
        }
        i = i + 1;
    }
    proof {
        assert(bs.take(bs.len() as int) =~= bs);
    }
    r
}

/// The pure history transform: from the document, the listed version indices
/// (nearest the head first), the uncommitted flag and the display limit to the
/// rendered rows. The first `effective_limit` listed versions become rows as
/// `row_matches` says; the rest collapse into the off-screen summary row,
/// which reports their count and carries the labels of the forking branches
/// whose join points were truncated away.
#[verifier::loop_isolation(false)]
pub fn prepare(
    data: &RepositoryData,
    versions_to_prepare: &Vec<usize>,
    has_uncommitted_changes: bool,
    limit_from_end: Option<usize>,
) -> (r: Prepared)
    requires
        data@.wf(),
        forall|k: int|
            0 <= k < versions_to_prepare@.len() ==> #[trigger] versions_to_prepare@[k]
                < data.versions.len(),
    ensures
        ({
            let m = data@;
            let list = usizes_as_ints(versions_to_prepare@);
            let n = list.len() as int;
            let lim = effective_limit(n, limit_from_end);
            let w = max_nick_len(m.versions, list, lim);
            let hw = humanized_width_of(r);
            &&& r.versions@.len() == lim
            &&& forall|k: int|
                0 <= k < lim ==> row_matches(m, list[k], w, #[trigger] r.versions@[k])
            &&& forall|k: int|
                0 <= k < lim ==> (#[trigger] r.versions@[k]).creation_time_humanized@.len() == hw
            &&& (r.off_screen_info is Some <==> n > lim)
            &&& match r.off_screen_info {
                Some(o) => {
                    &&& o.more_versions_text@ == "..."@ + dec_seq((n - lim) as nat)
                        + " more versions"@
                    &&& hw + 21 < usize::MAX ==> o.more_versions_text_offset == hw + 21
                    &&& w + 24 < usize::MAX ==> o.forking_branches_offset == 23 + w - (
                    if o.more_versions_text@.len() < 23 + w {
                        o.more_versions_text@.len() as int
                    } else {
                        23 + w as int
                    }) + 1
                    &&& (o.forking_branches is Some <==> off_screen_names(m, list, lim).len() > 0)
                    &&& (o.forking_branches matches Some(f) ==> f@ == name_list_seq(
                        "->["@,
                        off_screen_names(m, list, lim),
                    ))
                },
                None => true,
            }
            &&& (r.uncommitted_changes is Some <==> has_uncommitted_changes)
            &&& match r.uncommitted_changes {
                Some(u) => hw + 21 < usize::MAX ==> u.uncommitted_changes_text@ == spaces_seq(
                    (hw + 21) as nat,
                ) + "(uncommitted changes)"@,
                None => true,
            }
        }),
{
    let ghost m = data@;
    let ghost list = usizes_as_ints(versions_to_prepare@);
    let n = versions_to_prepare.len();
    let lim: usize = match limit_from_end {
        Some(l) => if l < n {
            l
        } else {
            n
        },
        None => n,
    };
    assert(lim as int == effective_limit(list.len() as int, limit_from_end));
    let hchain = data.head_and_ancestors();
    let w = exec_max_nick_len(data, versions_to_prepare, lim);
    let hvi = data.head_version_index();
    proof {
        m.lemma_head_resolves();
        assert(m.versions[hvi as int] == data.versions@[hvi as int]@);
    }
    let head_id_val = data.versions[hvi].id;
    assert(head_id_val.bits == m.head_id());

    // First pass: the humanized time of each rendered row, and the column width.
    let mut raw_h: Vec<String> = Vec::new();
    let mut max_h: usize = 0;
    let mut k: usize = 0;
    while k < lim
        invariant
            k <= lim,
            raw_h@.len() == k,
            forall|j: int| 0 <= j < k ==> (#[trigger] raw_h@[j])@.len() <= max_h,
            k == 0 ==> max_h == 0,
        decreases lim - k,
    {
        let idx = versions_to_prepare[k];
        proof {
            assert(m.versions[idx as int] == data.versions@[idx as int]@);
        }
        let humanized = humanize_time(data.versions[idx].creation_time_millis);
        let mut h = String::from_str("(");
        h.append(humanized.as_str());
        h.append(")");
        let hl = h.as_str().unicode_len();
        if hl > max_h {
            max_h = hl;
        }
        raw_h.push(h);
        k = k + 1;
    }

    // Second pass: assemble the rows, aligned to the two column widths.
    let mut rows: Vec<PreparedVersion> = Vec::new();
    let mut k2: usize = 0;
    while k2 < lim
        invariant
            k2 <= lim,
            raw_h@.len() == lim,
            forall|j: int| 0 <= j < lim ==> (#[trigger] raw_h@[j])@.len() <= max_h,
            rows@.len() == k2,
            forall|j: int| 0 <= j < k2 ==> row_matches(m, list[j], w as nat, #[trigger] rows@[j]),
            forall|j: int|
                0 <= j < k2 ==> (#[trigger] rows@[j]).creation_time_humanized@.len() == max_h,
        decreases lim - k2,
    {
        let idx = versions_to_prepare[k2];
        proof {
            assert(list[k2 as int] == versions_to_prepare@[k2 as int] as int);
            assert(m.versions[idx as int] == data.versions@[idx as int]@);
        }
        let creation_time = format_local_time(data.versions[idx].creation_time_millis);
        let creation_time_humanized = pad_right(raw_h[k2].as_str(), max_h);
        let id_text = data.versions[idx].id.bs58();
        let nickname = pad_left(data.versions[idx].nickname.as_str(), w);
        let head_badge = if data.versions[idx].id == head_id_val {
            Some(make_head_badge(data))
        } else {
            None
        };
        let on_this = exec_branch_names_on(data, data.versions[idx].id);
        let fks_all = exec_forking_names_at(data, &hchain, data.versions[idx].id);
        let fks = exec_names_minus(&fks_all, &on_this);
        let forking_branches = if fks.len() > 0 {
            Some(wrap_list("->[", &fks))
        } else {
            None
        };
        let others = match &data.head {
            crate::repository_data::Head::Branch(name) => exec_names_without(&on_this, name),
            crate::repository_data::Head::Version(_) => on_this,
        };
        let other_branches_here = if others.len() > 0 {
            Some(wrap_list("[", &others))
        } else {
            None
        };
        let description = if data.versions[idx].description.as_str().unicode_len() > 0 {
            Some(data.versions[idx].description.clone())
        } else {
            None
        };
        let row = PreparedVersion {
            creation_time,
            creation_time_humanized,
            id: id_text,
            nickname,
            head_badge,
            other_branches_here,
            forking_branches,
            description,
        };
        proof {
            assert(row_matches(m, list[k2 as int], w as nat, row));
        }
        rows.push(row);
        k2 = k2 + 1;
    }

    // The summary of what was truncated away.
    let off_screen_info = if n > lim {
        let hidden = n - lim;
        let mut text = String::from_str("...");
        let num = dec_string(hidden as u64);
        text.append(num.as_str());
        text.append(" more versions");
        let more_len = text.as_str().unicode_len();
        let vip = if max_h < usize::MAX - 21 {
            max_h + 21
        } else {
            max_h
        };
        let slot = if w < usize::MAX - 24 {
            23 + w
        } else {
            w
        };
        let cut = if more_len < slot {
            more_len
        } else {
            slot
        };
        let fork_off = slot - cut + 1;
        let offn = exec_off_screen_names(data, &hchain, versions_to_prepare, lim);
        let forking_branches = if offn.len() > 0 {
            Some(wrap_list("->[", &offn))
        } else {
            None
        };
        Some(
            PreparedOffScreen {
                more_versions_text_offset: vip,
                more_versions_text: text,
                forking_branches_offset: fork_off,
                forking_branches,
            },
        )
    } else {
        None
    };

    // The trailing marker for unsaved changes in the tracked file.
    let uncommitted_changes = if has_uncommitted_changes {
        let vip = if max_h < usize::MAX - 21 {
            max_h + 21
        } else {
            max_h
        };
        let mut t = spaces(vip);
        t.append("(uncommitted changes)");
        Some(PreparedUncommitedChanges { uncommitted_changes_text: t })
    } else {
        None
    };

    let r = Prepared { off_screen_info, versions: rows, uncommitted_changes };
    proof {
        if lim > 0 {
            assert(humanized_width_of(r) == max_h);
        } else {
            assert(humanized_width_of(r) == 0);
            assert(max_h == 0);
        }
    }
    r
}

impl PreparedVersion {
    /// The row as one line: the four columns separated by single spaces, then
    /// each optional field, when present, after one more space.
    pub open spec fn rendered(self) -> Seq<char> {
        self.creation_time@ + " "@ + self.creation_time_humanized@ + " "@ + self.id@ + " "@
            + self.nickname@ + (match self.head_badge {
            Some(h) => " "@ + h@,
            None => Seq::empty(),
        }) + (match self.other_branches_here {
            Some(o) => " "@ + o@,
            None => Seq::empty(),
        }) + (match self.forking_branches {
            Some(f) => " "@ + f@,
            None => Seq::empty(),
        }) + (match self.description {
            Some(d) => " "@ + d@,
            None => Seq::empty(),
        })
    }

    pub fn render(&self) -> (r: String)
        ensures
            r@ == self.rendered(),
    {
        let mut r = self.creation_time.clone();
        r.append(" ");
        r.append(self.creation_time_humanized.as_str());
        r.append(" ");
        r.append(self.id.as_str());
        r.append(" ");
        r.append(self.nickname.as_str());
        match &self.head_badge {
            Some(h) => {
                r.append(" ");
                r.append(h.as_str());
            },
            None => {},
        }
        match &self.other_branches_here {
            Some(o) => {
                r.append(" ");
                r.append(o.as_str());
            },
            None => {},
        }
        match &self.forking_branches {
            Some(f) => {
                r.append(" ");
                r.append(f.as_str());
            },
            None => {},
        }
        match &self.description {
            Some(d) => {
                r.append(" ");
                r.append(d.as_str());
            },
            None => {},
        }
        r
    }
}

impl PreparedOffScreen {
    /// The summary row as one line: the text at its offset, and the off-screen
    /// forking branches, when any, at theirs.
    pub open spec fn rendered(self) -> Seq<char> {
        spaces_seq(self.more_versions_text_offset as nat) + self.more_versions_text@ + (
        match self.forking_branches {
            Some(f) => spaces_seq(self.forking_branches_offset as nat) + f@,
            None => Seq::empty(),
        })
    }

    pub fn render(&self) -> (r: String)
        ensures
            r@ == self.rendered(),
    {
        let mut r = spaces(self.more_versions_text_offset);
        r.append(self.more_versions_text.as_str());
        match &self.forking_branches {
            Some(f) => {
                let pad = spaces(self.forking_branches_offset);
                r.append(pad.as_str());
                r.append(f.as_str());
            },
            None => {},
        }
        r
    }
}

impl PreparedUncommitedChanges {
    pub open spec fn rendered(self) -> Seq<char> {
        self.uncommitted_changes_text@
    }

    pub fn render(&self) -> (r: String)
        ensures
            r@ == self.rendered(),
    {
        self.uncommitted_changes_text.clone()
    }
}

/// Whether `lines` renders, in order, one row per listed version: each row
/// matches its version under `row_matches`, each line is that row's rendering,
/// and all rows share one humanized-time column width.
pub open spec fn lines_match_rows(
    m: RepoModel,
    list: Seq<int>,
    w: nat,
    lines: Seq<Seq<char>>,
    rows: Seq<PreparedVersion>,
) -> bool {
    &&& rows.len() == list.len()
    &&& lines.len() == list.len()
    &&& forall|k: int| 0 <= k < list.len() ==> row_matches(m, list[k], w, #[trigger] rows[k])
    &&& forall|k: int| 0 <= k < list.len() ==> (#[trigger] lines[k]) == rows[k].rendered()
    &&& forall|k1: int, k2: int|
        0 <= k1 < list.len() && 0 <= k2 < list.len() ==> (
        #[trigger] rows[k1]).creation_time_humanized@.len() == (
        #[trigger] rows[k2]).creation_time_humanized@.len()
}

/// Whether some row sequence ties `lines` to the listed versions as
/// `lines_match_rows` says.
pub open spec fn rendered_lines_ok(
    m: RepoModel,
    list: Seq<int>,
    w: nat,
    lines: Seq<Seq<char>>,
) -> bool {
    exists|rows: Seq<PreparedVersion>| lines_match_rows(m, list, w, lines, rows)
}

/// Every listed version rendered as one line, in the listed order, with no
/// truncation and no uncommitted marker; the lines' humanized-time columns
/// share one width.
pub fn format_versions(data: &RepositoryData, versions: &Vec<usize>) -> (r: Vec<String>)
    requires
        data@.wf(),
        forall|k: int|
            0 <= k < versions@.len() ==> #[trigger] versions@[k] < data.versions.len(),
    ensures
        r@.len() == versions@.len(),
        rendered_lines_ok(
            data@,
            usizes_as_ints(versions@),
            max_nick_len(data@.versions, usizes_as_ints(versions@), versions@.len() as int),
            r.deep_view(),
        ),
{
    let ghost m = data@;
    let ghost list = usizes_as_ints(versions@);
    let ghost w = max_nick_len(m.versions, list, list.len() as int);
    let prepared = prepare(data, versions, false, None);
    let mut r: Vec<String> = Vec::new();
    let mut k: usize = 0;
    while k < prepared.versions.len()
        invariant
            m == data@,
            list == usizes_as_ints(versions@),
            w == max_nick_len(m.versions, list, list.len() as int),
            prepared.versions@.len() == versions@.len(),
            forall|j: int|
                0 <= j < prepared.versions@.len() ==> row_matches(
                    m,
                    list[j],
                    w,
                    #[trigger] prepared.versions@[j],
                ),
            forall|j1: int, j2: int|
                0 <= j1 < prepared.versions@.len() && 0 <= j2 < prepared.versions@.len() ==> (
                #[trigger] prepared.versions@[j1]).creation_time_humanized@.len() == (
                #[trigger] prepared.versions@[j2]).creation_time_humanized@.len(),
            k <= prepared.versions.len(),
            r@.len() == k,
            forall|j: int| 0 <= j < k ==> (#[trigger] r@[j])@ == prepared.versions@[j].rendered(),
        decreases prepared.versions.len() - k,
    {
        let line = prepared.versions[k].render();
        r.push(line);
        k = k + 1;
    }
    proof {
        assert(lines_match_rows(m, list, w, r.deep_view(), prepared.versions@));
        assert(rendered_lines_ok(m, list, w, r.deep_view()));
    }
    r
}

} // verus!
