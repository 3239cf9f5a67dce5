use vstd::prelude::*;
use vstd::bytes::{
    lemma_auto_spec_u128_to_from_le_bytes, lemma_auto_spec_u32_to_from_le_bytes,
    lemma_auto_spec_u64_to_from_le_bytes, spec_u128_from_le_bytes, spec_u128_to_le_bytes,
    spec_u32_from_le_bytes, spec_u32_to_le_bytes, spec_u64_from_le_bytes, spec_u64_to_le_bytes,
    u128_from_le_bytes, u128_to_le_bytes, u32_from_le_bytes, u32_to_le_bytes, u64_from_le_bytes,
    u64_to_le_bytes,
};
use vstd::utf8::{char_is_scalar, char_u32_cast, is_scalar};
use crate::repository_data::{Branch, BranchModel, Head, HeadModel, RepoModel, RepositoryData, Version, VersionModel};
use crate::version_id::VersionId;
use crate::strutil::push_char;

verus! {

// ---------------------------------------------------------------------------
// The byte form of the persisted document
//
// Every integer is little-endian and fixed-width. A string is its character
// count as a u64, then each character as a u32 scalar value. A list is its
// element count as a u64, then the elements. The head and an optional parent
// open with a one-byte tag. The document is the head, the versions and the
// branches, with nothing after them.
// ---------------------------------------------------------------------------

pub open spec fn enc_i64(x: i64) -> Seq<u8> {
    spec_u64_to_le_bytes(x as u64)
}

pub open spec fn enc_chars(s: Seq<char>) -> Seq<u8>
    decreases s.len(),
{
    if s.len() == 0 {
        Seq::empty()
    } else {
        spec_u32_to_le_bytes(s[0] as u32) + enc_chars(s.drop_first())
    }
}

pub open spec fn enc_str(s: Seq<char>) -> Seq<u8> {
    spec_u64_to_le_bytes(s.len() as u64) + enc_chars(s)
}

pub open spec fn enc_opt_id(p: Option<u128>) -> Seq<u8> {
    match p {
        None => seq![0u8],
        Some(x) => seq![1u8] + spec_u128_to_le_bytes(x),
    }
}

pub open spec fn enc_version(v: VersionModel) -> Seq<u8> {
    spec_u128_to_le_bytes(v.id) + enc_i64(v.creation_time_millis) + spec_u128_to_le_bytes(
        v.content_fingerprint,
    ) + enc_str(v.nickname) + enc_str(v.description) + enc_opt_id(v.parent) + enc_str(
        v.blob_file_name,
    )
}

pub open spec fn enc_versions(s: Seq<VersionModel>) -> Seq<u8>
    decreases s.len(),
{
    if s.len() == 0 {
        Seq::empty()
    } else {
        enc_version(s[0]) + enc_versions(s.drop_first())
    }
}

pub open spec fn enc_branch(b: BranchModel) -> Seq<u8> {
    enc_str(b.name) + spec_u128_to_le_bytes(b.target)
}

pub open spec fn enc_branches(s: Seq<BranchModel>) -> Seq<u8>
    decreases s.len(),
{
    if s.len() == 0 {
        Seq::empty()
    } else {
        enc_branch(s[0]) + enc_branches(s.drop_first())
    }
}

pub open spec fn enc_head(h: HeadModel) -> Seq<u8> {
    match h {
        HeadModel::Branch(n) => seq![0u8] + enc_str(n),
        HeadModel::Version(id) => seq![1u8] + spec_u128_to_le_bytes(id),
    }
}

/// The whole document in byte form.
pub open spec fn enc_doc(m: RepoModel) -> Seq<u8> {
    enc_head(m.head) + spec_u64_to_le_bytes(m.versions.len() as u64) + enc_versions(m.versions)
        + spec_u64_to_le_bytes(m.branches.len() as u64) + enc_branches(m.branches)
}

// ---------------------------------------------------------------------------
// Reading the byte form back
//
// Each parser consumes a prefix and yields the value with the remaining
// bytes, or nothing when the input is malformed.
// ---------------------------------------------------------------------------

pub open spec fn parse_u8(b: Seq<u8>) -> Option<(u8, Seq<u8>)> {
    if b.len() < 1 {
        None
    } else {
        Some((b[0], b.skip(1)))
    }
}

pub open spec fn parse_u64(b: Seq<u8>) -> Option<(u64, Seq<u8>)> {
    if b.len() < 8 {
        None
    } else {
        Some((spec_u64_from_le_bytes(b.take(8)), b.skip(8)))
    }
}

pub open spec fn parse_u128(b: Seq<u8>) -> Option<(u128, Seq<u8>)> {
    if b.len() < 16 {
        None
    } else {
        Some((spec_u128_from_le_bytes(b.take(16)), b.skip(16)))
    }
}

pub open spec fn parse_i64(b: Seq<u8>) -> Option<(i64, Seq<u8>)> {
    match parse_u64(b) {
        None => None,
        Some((x, r)) => Some((x as i64, r)),
    }
}

pub open spec fn parse_chars(b: Seq<u8>, n: nat) -> Option<(Seq<char>, Seq<u8>)>
    decreases n,
{
    if n == 0 {
        Some((Seq::empty(), b))
    } else if b.len() < 4 {
        None
    } else {
        let u = spec_u32_from_le_bytes(b.take(4));
        if !is_scalar(u) {
            None
        } else {
            match parse_chars(b.skip(4), (n - 1) as nat) {
                None => None,
                Some((s, r)) => Some((seq![u as char] + s, r)),
            }
        }
    }
}

pub open spec fn parse_str(b: Seq<u8>) -> Option<(Seq<char>, Seq<u8>)> {
    match parse_u64(b) {
        None => None,
        Some((n, r)) => parse_chars(r, n as nat),
    }
}

pub open spec fn parse_opt_id(b: Seq<u8>) -> Option<(Option<u128>, Seq<u8>)> {
    match parse_u8(b) {
        None => None,
        Some((t, r)) => if t == 0 {
            Some((None, r))
        } else if t == 1 {
            match parse_u128(r) {
                None => None,
                Some((x, r2)) => Some((Some(x), r2)),
            }
        } else {
            None
        },
    }
}

pub open spec fn parse_version(b: Seq<u8>) -> Option<(VersionModel, Seq<u8>)> {
    match parse_u128(b) {
        None => None,
        Some((id, b1)) => match parse_i64(b1) {
            None => None,
            Some((t, b2)) => match parse_u128(b2) {
                None => None,
                Some((fp, b3)) => match parse_str(b3) {
                    None => None,
                    Some((nick, b4)) => match parse_str(b4) {
                        None => None,
                        Some((desc, b5)) => match parse_opt_id(b5) {
                            None => None,
                            Some((par, b6)) => match parse_str(b6) {
                                None => None,
                                Some((blob, b7)) => Some(
                                    (
                                        VersionModel {
                                            id,
                                            creation_time_millis: t,
                                            content_fingerprint: fp,
                                            nickname: nick,
                                            description: desc,
                                            parent: par,
                                            blob_file_name: blob,
                                        },
                                        b7,
                                    ),
                                ),
                            },
                        },
                    },
                },
            },
        },
    }
}

pub open spec fn parse_versions(b: Seq<u8>, n: nat) -> Option<(Seq<VersionModel>, Seq<u8>)>
    decreases n,
{
    if n == 0 {
        Some((Seq::empty(), b))
    } else {
        match parse_version(b) {
            None => None,
            Some((v, r)) => match parse_versions(r, (n - 1) as nat) {
                None => None,
                Some((s, r2)) => Some((seq![v] + s, r2)),
            },
        }
    }
}

pub open spec fn parse_branch(b: Seq<u8>) -> Option<(BranchModel, Seq<u8>)> {
    match parse_str(b) {
        None => None,
        Some((name, b1)) => match parse_u128(b1) {
            None => None,
            Some((target, b2)) => Some((BranchModel { name, target }, b2)),
        },
    }
}

pub open spec fn parse_branches(b: Seq<u8>, n: nat) -> Option<(Seq<BranchModel>, Seq<u8>)>
    decreases n,
{
    if n == 0 {
        Some((Seq::empty(), b))
    } else {
        match parse_branch(b) {
            None => None,
            Some((v, r)) => match parse_branches(r, (n - 1) as nat) {
                None => None,
                Some((s, r2)) => Some((seq![v] + s, r2)),
            },
        }
    }
}

pub open spec fn parse_head(b: Seq<u8>) -> Option<(HeadModel, Seq<u8>)> {
    match parse_u8(b) {
        None => None,
        Some((t, r)) => if t == 0 {
            match parse_str(r) {
                None => None,
                Some((n, r2)) => Some((HeadModel::Branch(n), r2)),
            }
        } else if t == 1 {
            match parse_u128(r) {
                None => None,
                Some((id, r2)) => Some((HeadModel::Version(id), r2)),
            }
        } else {
            None
        },
    }
}

/// The document a well-formed byte string describes; nothing may follow it.
pub open spec fn parse_doc(b: Seq<u8>) -> Option<RepoModel> {
    match parse_head(b) {
        None => None,
        Some((h, b1)) => match parse_u64(b1) {
            None => None,
            Some((nv, b2)) => match parse_versions(b2, nv as nat) {
                None => None,
                Some((vs, b3)) => match parse_u64(b3) {
                    None => None,
                    Some((nb, b4)) => match parse_branches(b4, nb as nat) {
                        None => None,
                        Some((bs, b5)) => if b5.len() == 0 {
                            Some(RepoModel { head: h, versions: vs, branches: bs })
                        } else {
                            None
                        },
                    },
                },
            },
        },
    }
}

// ---------------------------------------------------------------------------
// Sizes the byte form can carry
// ---------------------------------------------------------------------------

pub open spec fn version_bounded(v: VersionModel) -> bool {
    &&& v.nickname.len() <= u64::MAX
    &&& v.description.len() <= u64::MAX
    &&& v.blob_file_name.len() <= u64::MAX
}

pub open spec fn doc_bounded(m: RepoModel) -> bool {
    &&& m.versions.len() <= u64::MAX
    &&& m.branches.len() <= u64::MAX
    &&& forall|i: int| 0 <= i < m.versions.len() ==> version_bounded(#[trigger] m.versions[i])
    &&& forall|i: int| 0 <= i < m.branches.len() ==> (#[trigger] m.branches[i]).name.len() <= u64::MAX
    &&& match m.head {
        HeadModel::Branch(n) => n.len() <= u64::MAX,
        HeadModel::Version(_) => true,
    }
}

// ---------------------------------------------------------------------------
// Reading back what was written yields the same value
// ---------------------------------------------------------------------------

proof fn lemma_parse_u8(x: u8, rest: Seq<u8>)
    ensures
        parse_u8(seq![x] + rest) == Some((x, rest)),
{
    assert((seq![x] + rest).skip(1) =~= rest);
}

proof fn lemma_parse_u64(x: u64, rest: Seq<u8>)
    ensures
        parse_u64(spec_u64_to_le_bytes(x) + rest) == Some((x, rest)),
{
    lemma_auto_spec_u64_to_from_le_bytes();
    let b = spec_u64_to_le_bytes(x) + rest;
    assert(b.take(8) =~= spec_u64_to_le_bytes(x));
    assert(b.skip(8) =~= rest);
}

proof fn lemma_parse_u128(x: u128, rest: Seq<u8>)
    ensures
        parse_u128(spec_u128_to_le_bytes(x) + rest) == Some((x, rest)),
{
    lemma_auto_spec_u128_to_from_le_bytes();
    let b = spec_u128_to_le_bytes(x) + rest;
    assert(b.take(16) =~= spec_u128_to_le_bytes(x));
    assert(b.skip(16) =~= rest);
}

proof fn lemma_parse_i64(x: i64, rest: Seq<u8>)
    ensures
        parse_i64(enc_i64(x) + rest) == Some((x, rest)),
{
    lemma_parse_u64(x as u64, rest);
    assert(((x as u64) as i64) == x) by (bit_vector);
}

proof fn lemma_parse_chars(s: Seq<char>, rest: Seq<u8>)
    ensures
        parse_chars(enc_chars(s) + rest, s.len()) == Some((s, rest)),
    decreases s.len(),
{
    if s.len() == 0 {
        assert(enc_chars(s) + rest =~= rest);
    } else {
        let c = s[0];
        let u = c as u32;
        char_is_scalar(c);
        lemma_auto_spec_u32_to_from_le_bytes();
        let b = enc_chars(s) + rest;
        assert(b =~= spec_u32_to_le_bytes(u) + (enc_chars(s.drop_first()) + rest));
        assert(b.take(4) =~= spec_u32_to_le_bytes(u));
        assert(b.skip(4) =~= enc_chars(s.drop_first()) + rest);
        char_u32_cast(c, u);
        lemma_parse_chars(s.drop_first(), rest);
        assert(seq![u as char] + s.drop_first() =~= s);
    }
}

proof fn lemma_parse_str(s: Seq<char>, rest: Seq<u8>)
    requires
        s.len() <= u64::MAX,
    ensures
        parse_str(enc_str(s) + rest) == Some((s, rest)),
{
    let b = enc_str(s) + rest;
    assert(b =~= spec_u64_to_le_bytes(s.len() as u64) + (enc_chars(s) + rest));
    lemma_parse_u64(s.len() as u64, enc_chars(s) + rest);
    lemma_parse_chars(s, rest);
}

proof fn lemma_parse_opt_id(p: Option<u128>, rest: Seq<u8>)
    ensures
        parse_opt_id(enc_opt_id(p) + rest) == Some((p, rest)),
{
    match p {
        None => {
            lemma_parse_u8(0u8, rest);
            assert(enc_opt_id(p) + rest =~= seq![0u8] + rest);
        },
        Some(x) => {
            assert(enc_opt_id(p) + rest =~= seq![1u8] + (spec_u128_to_le_bytes(x) + rest));
            lemma_parse_u8(1u8, spec_u128_to_le_bytes(x) + rest);
            lemma_parse_u128(x, rest);
        },
    }
}

proof fn lemma_parse_version(v: VersionModel, rest: Seq<u8>)
    requires
        version_bounded(v),
    ensures
        parse_version(enc_version(v) + rest) == Some((v, rest)),
{
    let t1 = enc_i64(v.creation_time_millis) + (spec_u128_to_le_bytes(v.content_fingerprint)
        + (enc_str(v.nickname) + (enc_str(v.description) + (enc_opt_id(v.parent) + (enc_str(
        v.blob_file_name,
    ) + rest)))));
    assert(enc_version(v) + rest =~= spec_u128_to_le_bytes(v.id) + t1);
    lemma_parse_u128(v.id, t1);
    let t2 = spec_u128_to_le_bytes(v.content_fingerprint) + (enc_str(v.nickname) + (enc_str(
        v.description,
    ) + (enc_opt_id(v.parent) + (enc_str(v.blob_file_name) + rest))));
    lemma_parse_i64(v.creation_time_millis, t2);
    let t3 = enc_str(v.nickname) + (enc_str(v.description) + (enc_opt_id(v.parent) + (enc_str(
        v.blob_file_name,
    ) + rest)));
    lemma_parse_u128(v.content_fingerprint, t3);
    let t4 = enc_str(v.description) + (enc_opt_id(v.parent) + (enc_str(v.blob_file_name) + rest));
    lemma_parse_str(v.nickname, t4);
    let t5 = enc_opt_id(v.parent) + (enc_str(v.blob_file_name) + rest);
    lemma_parse_str(v.description, t5);
    let t6 = enc_str(v.blob_file_name) + rest;
    lemma_parse_opt_id(v.parent, t6);
    lemma_parse_str(v.blob_file_name, rest);
}

proof fn lemma_parse_versions(s: Seq<VersionModel>, rest: Seq<u8>)
    requires
        forall|i: int| 0 <= i < s.len() ==> version_bounded(#[trigger] s[i]),
    ensures
        parse_versions(enc_versions(s) + rest, s.len()) == Some((s, rest)),
    decreases s.len(),
{
    if s.len() == 0 {
        assert(enc_versions(s) + rest =~= rest);
    } else {
        assert(enc_versions(s) + rest =~= enc_version(s[0]) + (enc_versions(s.drop_first())
            + rest));
        lemma_parse_version(s[0], enc_versions(s.drop_first()) + rest);
        assert(forall|i: int|
            0 <= i < s.drop_first().len() ==> version_bounded(#[trigger] s.drop_first()[i]));
        lemma_parse_versions(s.drop_first(), rest);
        assert(seq![s[0]] + s.drop_first() =~= s);
    }
}

proof fn lemma_parse_branch(b: BranchModel, rest: Seq<u8>)
    requires
        b.name.len() <= u64::MAX,
    ensures
        parse_branch(enc_branch(b) + rest) == Some((b, rest)),
{
    assert(enc_branch(b) + rest =~= enc_str(b.name) + (spec_u128_to_le_bytes(b.target) + rest));
    lemma_parse_str(b.name, spec_u128_to_le_bytes(b.target) + rest);
    lemma_parse_u128(b.target, rest);
}

proof fn lemma_parse_branches(s: Seq<BranchModel>, rest: Seq<u8>)
    requires
        forall|i: int| 0 <= i < s.len() ==> (#[trigger] s[i]).name.len() <= u64::MAX,
    ensures
        parse_branches(enc_branches(s) + rest, s.len()) == Some((s, rest)),
    decreases s.len(),
{
    if s.len() == 0 {
        assert(enc_branches(s) + rest =~= rest);
    } else {
        assert(enc_branches(s) + rest =~= enc_branch(s[0]) + (enc_branches(s.drop_first())
            + rest));
        lemma_parse_branch(s[0], enc_branches(s.drop_first()) + rest);
        assert(forall|i: int|
            0 <= i < s.drop_first().len() ==> (#[trigger] s.drop_first()[i]).name.len()
                <= u64::MAX);
        lemma_parse_branches(s.drop_first(), rest);
        assert(seq![s[0]] + s.drop_first() =~= s);
    }
}

proof fn lemma_parse_head(h: HeadModel, rest: Seq<u8>)
    requires
        match h {
            HeadModel::Branch(n) => n.len() <= u64::MAX,
            HeadModel::Version(_) => true,
        },
    ensures
        parse_head(enc_head(h) + rest) == Some((h, rest)),
{
    match h {
        HeadModel::Branch(n) => {
            assert(enc_head(h) + rest =~= seq![0u8] + (enc_str(n) + rest));
            lemma_parse_u8(0u8, enc_str(n) + rest);
            lemma_parse_str(n, rest);
        },
        HeadModel::Version(id) => {
            assert(enc_head(h) + rest =~= seq![1u8] + (spec_u128_to_le_bytes(id) + rest));
            lemma_parse_u8(1u8, spec_u128_to_le_bytes(id) + rest);
            lemma_parse_u128(id, rest);
        },
    }
}

/// Law: reading back what was written yields the document unchanged, field for
/// field — head, every version with its id, timestamp, fingerprint, texts and
/// parent link, and the whole branch map.
pub proof fn lemma_document_round_trip(m: RepoModel)
    requires
        doc_bounded(m),
    ensures
        parse_doc(enc_doc(m)) == Some(m),
{
    let empty = Seq::<u8>::empty();
    let t1 = spec_u64_to_le_bytes(m.versions.len() as u64) + (enc_versions(m.versions)
        + (spec_u64_to_le_bytes(m.branches.len() as u64) + (enc_branches(m.branches) + empty)));
    assert(enc_doc(m) =~= enc_head(m.head) + t1);
    lemma_parse_head(m.head, t1);
    let t2 = enc_versions(m.versions) + (spec_u64_to_le_bytes(m.branches.len() as u64)
        + (enc_branches(m.branches) + empty));
    lemma_parse_u64(m.versions.len() as u64, t2);
    let t3 = spec_u64_to_le_bytes(m.branches.len() as u64) + (enc_branches(m.branches) + empty);
    lemma_parse_versions(m.versions, t3);
    let t4 = enc_branches(m.branches) + empty;
    lemma_parse_u64(m.branches.len() as u64, t4);
    lemma_parse_branches(m.branches, empty);
}

// ---------------------------------------------------------------------------
// Writing the byte form
// ---------------------------------------------------------------------------

fn push_u8_byte(out: &mut Vec<u8>, x: u8)
    ensures
        final(out)@ == old(out)@ + seq![x],
{
    out.push(x);
    assert(final(out)@ =~= old(out)@ + seq![x]);
}

fn push_u32_bytes(out: &mut Vec<u8>, x: u32)
    ensures
        final(out)@ == old(out)@ + spec_u32_to_le_bytes(x),
{
    let mut b = u32_to_le_bytes(x);
    out.append(&mut b);
}

fn push_u64_bytes(out: &mut Vec<u8>, x: u64)
    ensures
        final(out)@ == old(out)@ + spec_u64_to_le_bytes(x),
{
    let mut b = u64_to_le_bytes(x);
    out.append(&mut b);
}

fn push_u128_bytes(out: &mut Vec<u8>, x: u128)
    ensures
        final(out)@ == old(out)@ + spec_u128_to_le_bytes(x),
{
    let mut b = u128_to_le_bytes(x);
    out.append(&mut b);
}

proof fn lemma_enc_chars_snoc(s: Seq<char>)
    requires
        s.len() > 0,
    ensures
        enc_chars(s) == enc_chars(s.drop_last()) + spec_u32_to_le_bytes(s.last() as u32),
    decreases s.len(),
{
    if s.len() == 1 {
        assert(s.drop_first() =~= Seq::<char>::empty());
        assert(s.drop_last() =~= Seq::<char>::empty());
        assert(enc_chars(s) =~= enc_chars(s.drop_last()) + spec_u32_to_le_bytes(s.last() as u32));
    } else {
        lemma_enc_chars_snoc(s.drop_first());
        assert(s.drop_first().drop_last() =~= s.drop_last().drop_first());
        assert(s.drop_first().last() == s.last());
        assert(s.drop_last()[0] == s[0]);
        assert(enc_chars(s) =~= enc_chars(s.drop_last()) + spec_u32_to_le_bytes(s.last() as u32));
    }
}

fn push_string_bytes(out: &mut Vec<u8>, s: &str)
    ensures
        final(out)@ == old(out)@ + enc_str(s@),
        s@.len() <= u64::MAX,
{
    let n = s.unicode_len();
    push_u64_bytes(out, n as u64);
    let ghost base = out@;
    let mut i: usize = 0;
    while i < n
        invariant
            base == old(out)@ + spec_u64_to_le_bytes(s@.len() as u64),
            n == s@.len(),
            i <= n,
            out@ == base + enc_chars(s@.take(i as int)),
        decreases n - i,
    {
        let c = s.get_char(i);
        push_u32_bytes(out, c as u32);
        proof {
            lemma_enc_chars_snoc(s@.take(i + 1));
            assert(s@.take(i + 1).drop_last() =~= s@.take(i as int));
            assert(s@.take(i + 1).last() == s@[i as int]);
            assert(out@ =~= base + enc_chars(s@.take(i + 1)));
        }
        i = i + 1;
    }
    proof {
        assert(s@.take(n as int) =~= s@);
        assert(out@ =~= old(out)@ + enc_str(s@));
    }
}

fn push_version_bytes(out: &mut Vec<u8>, v: &Version)
    ensures
        final(out)@ == old(out)@ + enc_version(v@),
        version_bounded(v@),
{
    push_u128_bytes(out, v.id.bits);
    push_u64_bytes(out, #[verifier::truncate] (v.creation_time_millis as u64));
    push_u128_bytes(out, v.content_fingerprint);
    push_string_bytes(out, v.nickname.as_str());
    push_string_bytes(out, v.description.as_str());
    match &v.parent {
        None => {
            push_u8_byte(out, 0);
        },
        Some(p) => {
            push_u8_byte(out, 1);
            push_u128_bytes(out, p.bits);
        },
    }
    push_string_bytes(out, v.blob_file_name.as_str());
    proof {
        assert(final(out)@ =~= old(out)@ + enc_version(v@));
    }
}

proof fn lemma_enc_versions_snoc(s: Seq<VersionModel>)
    requires
        s.len() > 0,
    ensures
        enc_versions(s) == enc_versions(s.drop_last()) + enc_version(s.last()),
    decreases s.len(),
{
    if s.len() == 1 {
        assert(s.drop_first() =~= Seq::<VersionModel>::empty());
        assert(s.drop_last() =~= Seq::<VersionModel>::empty());
        assert(enc_versions(s) =~= enc_versions(s.drop_last()) + enc_version(s.last()));
    } else {
        lemma_enc_versions_snoc(s.drop_first());
        assert(s.drop_first().drop_last() =~= s.drop_last().drop_first());
        assert(s.drop_first().last() == s.last());
        assert(s.drop_last()[0] == s[0]);
        assert(enc_versions(s) =~= enc_versions(s.drop_last()) + enc_version(s.last()));
    }
}

proof fn lemma_enc_branches_snoc(s: Seq<BranchModel>)
    requires
        s.len() > 0,
    ensures
        enc_branches(s) == enc_branches(s.drop_last()) + enc_branch(s.last()),
    decreases s.len(),
{
    if s.len() == 1 {
        assert(s.drop_first() =~= Seq::<BranchModel>::empty());
        assert(s.drop_last() =~= Seq::<BranchModel>::empty());
        assert(enc_branches(s) =~= enc_branches(s.drop_last()) + enc_branch(s.last()));
    } else {
        lemma_enc_branches_snoc(s.drop_first());
        assert(s.drop_first().drop_last() =~= s.drop_last().drop_first());
        assert(s.drop_first().last() == s.last());
        assert(s.drop_last()[0] == s[0]);
        assert(enc_branches(s) =~= enc_branches(s.drop_last()) + enc_branch(s.last()));
    }
}

/// Turns the document into its byte form. Only a document satisfying the
/// referential invariant may be persisted — a violation is a programming
/// error, which `RepositoryData::valid` lets a caller rule out before this
/// call rather than persist corrupt state.
pub fn encode_document(data: &RepositoryData) -> (r: Vec<u8>)
    requires
        data@.wf(),
    ensures
        r@ == enc_doc(data@),
        doc_bounded(data@),
{
    let ghost m = data@;
    let mut out: Vec<u8> = Vec::new();
    match &data.head {
        Head::Branch(name) => {
            push_u8_byte(&mut out, 0);
            push_string_bytes(&mut out, name.as_str());
        },
        Head::Version(id) => {
            push_u8_byte(&mut out, 1);
            push_u128_bytes(&mut out, id.bits);
        },
    }
    proof {
        assert(out@ =~= enc_head(m.head));
    }
    push_u64_bytes(&mut out, data.versions.len() as u64);
    let ghost base_v = out@;
    let mut i: usize = 0;
    while i < data.versions.len()
        invariant
            m == data@,
            m.versions.len() == data.versions.len(),
            base_v == enc_head(m.head) + spec_u64_to_le_bytes(m.versions.len() as u64),
            i <= data.versions.len(),
            out@ == base_v + enc_versions(m.versions.take(i as int)),
            forall|j: int| 0 <= j < i ==> version_bounded(#[trigger] m.versions[j]),
        decreases data.versions.len() - i,
    {
        proof {
            assert(m.versions[i as int] == data.versions@[i as int]@);
        }
        push_version_bytes(&mut out, &data.versions[i]);
        proof {
            lemma_enc_versions_snoc(m.versions.take(i + 1));
            assert(m.versions.take(i + 1).drop_last() =~= m.versions.take(i as int));
            assert(m.versions.take(i + 1).last() == m.versions[i as int]);
            assert(out@ =~= base_v + enc_versions(m.versions.take(i + 1)));
        }
        i = i + 1;
    }
    proof {
        assert(m.versions.take(m.versions.len() as int) =~= m.versions);
    }
    push_u64_bytes(&mut out, data.branches.len() as u64);
    let ghost base_b = out@;
    let mut k: usize = 0;
    while k < data.branches.len()
        invariant
            m == data@,
            m.branches.len() == data.branches.len(),
            base_b == enc_head(m.head) + spec_u64_to_le_bytes(m.versions.len() as u64)
                + enc_versions(m.versions) + spec_u64_to_le_bytes(m.branches.len() as u64),
            k <= data.branches.len(),
            out@ == base_b + enc_branches(m.branches.take(k as int)),
            forall|j: int| 0 <= j < k ==> (#[trigger] m.branches[j]).name.len() <= u64::MAX,
        decreases data.branches.len() - k,
    {
        proof {
            assert(m.branches[k as int] == data.branches@[k as int]@);
        }
        push_string_bytes(&mut out, data.branches[k].name.as_str());
        push_u128_bytes(&mut out, data.branches[k].target.bits);
        proof {
            lemma_enc_branches_snoc(m.branches.take(k + 1));
            assert(m.branches.take(k + 1).drop_last() =~= m.branches.take(k as int));
            assert(m.branches.take(k + 1).last() == m.branches[k as int]);
            assert(out@ =~= base_b + enc_branches(m.branches.take(k + 1)));
        }
        k = k + 1;
    }
    proof {
        assert(m.branches.take(m.branches.len() as int) =~= m.branches);
        assert(out@ =~= enc_doc(m));
    }
    out
}

// ---------------------------------------------------------------------------
// Reading the byte form, executably
// ---------------------------------------------------------------------------

/// Relies on core::char::from_u32: the value comes back as a character exactly
/// when it is a Unicode scalar value.
#[verifier::external_body]
fn char_from_u32(u: u32) -> (r: Option<char>)
    ensures
        r == (if is_scalar(u) {
            Some(u as char)
        } else {
            None::<char>
        }),
{
    char::from_u32(u)
}

fn take_u8(bytes: &[u8], pos: usize) -> (r: Option<(u8, usize)>)
    requires
        pos <= bytes@.len(),
    ensures
        match r {
            Some(p) => parse_u8(bytes@.skip(pos as int)) == Some((p.0, bytes@.skip(p.1 as int)))
                && pos <= p.1 <= bytes@.len(),
            None => parse_u8(bytes@.skip(pos as int)) is None,
        },
{
    if bytes.len() - pos < 1 {
        None
    } else {
        let x = bytes[pos];
        proof {
            assert(bytes@.skip(pos as int)[0] == bytes@[pos as int]);
            assert(bytes@.skip(pos as int).skip(1) =~= bytes@.skip(pos as int + 1));
        }
        Some((x, pos + 1))
    }
}

fn take_u64(bytes: &[u8], pos: usize) -> (r: Option<(u64, usize)>)
    requires
        pos <= bytes@.len(),
    ensures
        match r {
            Some(p) => parse_u64(bytes@.skip(pos as int)) == Some((p.0, bytes@.skip(p.1 as int)))
                && pos <= p.1 <= bytes@.len(),
            None => parse_u64(bytes@.skip(pos as int)) is None,
        },
{
    if bytes.len() - pos < 8 {
        None
    } else {
        let sub = vstd::slice::slice_subrange(bytes, pos, pos + 8);
        let x = u64_from_le_bytes(sub);
        proof {
            assert(bytes@.skip(pos as int).take(8) =~= bytes@.subrange(pos as int, pos as int + 8));
            assert(bytes@.skip(pos as int).skip(8) =~= bytes@.skip(pos as int + 8));
        }
        Some((x, pos + 8))
    }
}

fn take_u128(bytes: &[u8], pos: usize) -> (r: Option<(u128, usize)>)
    requires
        pos <= bytes@.len(),
    ensures
        match r {
            Some(p) => parse_u128(bytes@.skip(pos as int)) == Some((p.0, bytes@.skip(p.1 as int)))
                && pos <= p.1 <= bytes@.len(),
            None => parse_u128(bytes@.skip(pos as int)) is None,
        },
{
    if bytes.len() - pos < 16 {
        None
    } else {
        let sub = vstd::slice::slice_subrange(bytes, pos, pos + 16);
        let x = u128_from_le_bytes(sub);
        proof {
            assert(bytes@.skip(pos as int).take(16) =~= bytes@.subrange(
                pos as int,
                pos as int + 16,
            ));
            assert(bytes@.skip(pos as int).skip(16) =~= bytes@.skip(pos as int + 16));
        }
        Some((x, pos + 16))
    }
}

fn take_i64(bytes: &[u8], pos: usize) -> (r: Option<(i64, usize)>)
    requires
        pos <= bytes@.len(),
    ensures
        match r {
            Some(p) => parse_i64(bytes@.skip(pos as int)) == Some((p.0, bytes@.skip(p.1 as int)))
                && pos <= p.1 <= bytes@.len(),
            None => parse_i64(bytes@.skip(pos as int)) is None,
        },
{
    match take_u64(bytes, pos) {
        None => None,
        Some((x, p2)) => Some((#[verifier::truncate] (x as i64), p2)),
    }
}

/// The parsed characters with `p` put back in front.
pub open spec fn chars_with_prefix(p: Seq<char>, o: Option<(Seq<char>, Seq<u8>)>) -> Option<
    (Seq<char>, Seq<u8>),
> {
    match o {
        None => None,
        Some((t, r)) => Some((p + t, r)),
    }
}

fn take_string(bytes: &[u8], pos: usize) -> (r: Option<(String, usize)>)
    requires
        pos <= bytes@.len(),
    ensures
        match r {
            Some(p) => parse_str(bytes@.skip(pos as int)) == Some((p.0@, bytes@.skip(p.1 as int)))
                && pos <= p.1 <= bytes@.len(),
            None => parse_str(bytes@.skip(pos as int)) is None,
        },
{
    let (n, after_count) = match take_u64(bytes, pos) {
        None => {
            return None;
        },
        Some(p) => p,
    };
    let ghost orig = bytes@.skip(after_count as int);
    let ghost gn = n as nat;
    let mut s = String::new();
    let mut cur = after_count;
    let mut i: u64 = 0;
    proof {
        assert(chars_with_prefix(s@, parse_chars(orig, gn)) == parse_chars(orig, gn)) by {
            match parse_chars(orig, gn) {
                None => {},
                Some((t, rr)) => {
                    assert(s@ + t =~= t);
                },
            }
        }
    }
    while i < n
        invariant
            pos <= bytes@.len(),
            parse_str(bytes@.skip(pos as int)) == parse_chars(orig, gn),
            gn == n,
            i <= n,
            pos <= cur <= bytes@.len(),
            parse_chars(orig, gn) == chars_with_prefix(
                s@,
                parse_chars(bytes@.skip(cur as int), (gn - i) as nat),
            ),
        decreases n - i,
    {
        let ghost rest_before = bytes@.skip(cur as int);
        let ghost k = (gn - i) as nat;
        if bytes.len() - cur < 4 {
            proof {
                assert(parse_chars(rest_before, k) is None);
            }
            return None;
        }
        let sub = vstd::slice::slice_subrange(bytes, cur, cur + 4);
        let u = u32_from_le_bytes(sub);
        proof {
            assert(rest_before.take(4) =~= bytes@.subrange(cur as int, cur as int + 4));
            assert(rest_before.skip(4) =~= bytes@.skip(cur as int + 4));
        }
        let c = match char_from_u32(u) {
            None => {
                proof {
                    assert(parse_chars(rest_before, k) is None);
                }
                return None;
            },
            Some(c) => c,
        };
        push_char(&mut s, c);
        proof {
            let inner = parse_chars(bytes@.skip(cur as int + 4), (k - 1) as nat);
            assert(parse_chars(rest_before, k) == chars_with_prefix(seq![c], inner));
            match inner {
                None => {},
                Some((t, rr)) => {
                    assert(s@ + t =~= s@.drop_last() + (seq![c] + t));
                },
            }
            assert(parse_chars(orig, gn) == chars_with_prefix(s@, inner));
        }
        cur = cur + 4;
        i = i + 1;
    }
    proof {
        assert(parse_chars(bytes@.skip(cur as int), 0) == Some(
            (Seq::<char>::empty(), bytes@.skip(cur as int)),
        ));
        match parse_chars(orig, gn) {
            None => {
                assert(false);
            },
            Some((t, rr)) => {
                assert(t =~= s@ + Seq::<char>::empty());
                assert(s@ + Seq::<char>::empty() =~= s@);
            },
        }
    }
    Some((s, cur))
}

fn take_opt_id(bytes: &[u8], pos: usize) -> (r: Option<(Option<VersionId>, usize)>)
    requires
        pos <= bytes@.len(),
    ensures
        match r {
            Some(p) => ({
                let pv = match p.0 {
                    Some(id) => Some(id.bits),
                    None => None,
                };
                parse_opt_id(bytes@.skip(pos as int)) == Some((pv, bytes@.skip(p.1 as int))) && pos
                    <= p.1 <= bytes@.len()
            }),
            None => parse_opt_id(bytes@.skip(pos as int)) is None,
        },
{
    let (t, p1) = match take_u8(bytes, pos) {
        None => {
            return None;
        },
        Some(p) => p,
    };
    if t == 0 {
        Some((None, p1))
    } else if t == 1 {
        match take_u128(bytes, p1) {
            None => None,
            Some((x, p2)) => Some((Some(VersionId { bits: x }), p2)),
        }
    } else {
        None
    }
}

fn take_version(bytes: &[u8], pos: usize) -> (r: Option<(Version, usize)>)
    requires
        pos <= bytes@.len(),
    ensures
        match r {
            Some(p) => parse_version(bytes@.skip(pos as int)) == Some(
                (p.0@, bytes@.skip(p.1 as int)),
            ) && pos <= p.1 <= bytes@.len(),
            None => parse_version(bytes@.skip(pos as int)) is None,
        },
{
    let (id, p1) = match take_u128(bytes, pos) {
        None => {
            return None;
        },
        Some(p) => p,
    };
    let (t, p2) = match take_i64(bytes, p1) {
        None => {
            return None;
        },
        Some(p) => p,
    };
    let (fp, p3) = match take_u128(bytes, p2) {
        None => {
            return None;
        },
        Some(p) => p,
    };
    let (nick, p4) = match take_string(bytes, p3) {
        None => {
            return None;
        },
        Some(p) => p,
    };
    let (desc, p5) = match take_string(bytes, p4) {
        None => {
            return None;
        },
        Some(p) => p,
    };
    let (par, p6) = match take_opt_id(bytes, p5) {
        None => {
            return None;
        },
        Some(p) => p,
    };
    let (blob, p7) = match take_string(bytes, p6) {
        None => {
            return None;
        },
        Some(p) => p,
    };
    let v = Version {
        id: VersionId { bits: id },
        creation_time_millis: t,
        content_fingerprint: fp,
        nickname: nick,
        description: desc,
        parent: par,
        blob_file_name: blob,
    };
    Some((v, p7))
}

/// The parsed versions with `p` put back in front.
pub open spec fn versions_with_prefix(
    p: Seq<VersionModel>,
    o: Option<(Seq<VersionModel>, Seq<u8>)>,
) -> Option<(Seq<VersionModel>, Seq<u8>)> {
    match o {
        None => None,
        Some((t, r)) => Some((p + t, r)),
    }
}

fn take_versions(bytes: &[u8], pos: usize, n: u64) -> (r: Option<(Vec<Version>, usize)>)
    requires
        pos <= bytes@.len(),
    ensures
        match r {
            Some(p) => parse_versions(bytes@.skip(pos as int), n as nat) == Some(
                (p.0@.map_values(|v: Version| v@), bytes@.skip(p.1 as int)),
            ) && pos <= p.1 <= bytes@.len(),
            None => parse_versions(bytes@.skip(pos as int), n as nat) is None,
        },
{
    let ghost orig = bytes@.skip(pos as int);
    let mut out: Vec<Version> = Vec::new();
    let mut cur = pos;
    let mut i: u64 = 0;
    proof {
        assert(versions_with_prefix(out@.map_values(|v: Version| v@), parse_versions(orig, n as nat))
            == parse_versions(orig, n as nat)) by {
            match parse_versions(orig, n as nat) {
                None => {},
                Some((t, rr)) => {
                    assert(out@.map_values(|v: Version| v@) + t =~= t);
                },
            }
        }
    }
    while i < n
        invariant
            pos <= bytes@.len(),
            orig == bytes@.skip(pos as int),
            i <= n,
            pos <= cur <= bytes@.len(),
            parse_versions(orig, n as nat) == versions_with_prefix(
                out@.map_values(|v: Version| v@),
                parse_versions(bytes@.skip(cur as int), (n - i) as nat),
            ),
        decreases n - i,
    {
        let ghost rest_before = bytes@.skip(cur as int);
        let ghost k = (n - i) as nat;
        let ghost prev = out@.map_values(|v: Version| v@);
        let (v, p2) = match take_version(bytes, cur) {
            None => {
                proof {
                    assert(parse_versions(rest_before, k) is None);
                }
                return None;
            },
            Some(p) => p,
        };
        out.push(v);
        proof {
            let inner = parse_versions(bytes@.skip(p2 as int), (k - 1) as nat);
            assert(parse_versions(rest_before, k) == versions_with_prefix(seq![v@], inner));
            let now = out@.map_values(|x: Version| x@);
            assert(now =~= prev.push(v@));
            match inner {
                None => {},
                Some((t, rr)) => {
                    assert(now + t =~= prev + (seq![v@] + t));
                },
            }
            assert(parse_versions(orig, n as nat) == versions_with_prefix(now, inner));
        }
        cur = p2;
        i = i + 1;
    }
    proof {
        let now = out@.map_values(|x: Version| x@);
        assert(parse_versions(bytes@.skip(cur as int), 0) == Some(
            (Seq::<VersionModel>::empty(), bytes@.skip(cur as int)),
        ));
        match parse_versions(orig, n as nat) {
            None => {
                assert(false);
            },
            Some((t, rr)) => {
                assert(t =~= now + Seq::<VersionModel>::empty());
                assert(now + Seq::<VersionModel>::empty() =~= now);
            },
        }
    }
    Some((out, cur))
}

fn take_branch(bytes: &[u8], pos: usize) -> (r: Option<(Branch, usize)>)
    requires
        pos <= bytes@.len(),
    ensures
        match r {
            Some(p) => parse_branch(bytes@.skip(pos as int)) == Some(
                (p.0@, bytes@.skip(p.1 as int)),
            ) && pos <= p.1 <= bytes@.len(),
            None => parse_branch(bytes@.skip(pos as int)) is None,
        },
{
    let (name, p1) = match take_string(bytes, pos) {
        None => {
            return None;
        },
        Some(p) => p,
    };
    let (target, p2) = match take_u128(bytes, p1) {
        None => {
            return None;
        },
        Some(p) => p,
    };
    Some((Branch { name, target: VersionId { bits: target } }, p2))
}

/// The parsed branches with `p` put back in front.
pub open spec fn branches_with_prefix(
    p: Seq<BranchModel>,
    o: Option<(Seq<BranchModel>, Seq<u8>)>,
) -> Option<(Seq<BranchModel>, Seq<u8>)> {
    match o {
        None => None,
        Some((t, r)) => Some((p + t, r)),
    }
}

fn take_branches(bytes: &[u8], pos: usize, n: u64) -> (r: Option<(Vec<Branch>, usize)>)
    requires
        pos <= bytes@.len(),
    ensures
        match r {
            Some(p) => parse_branches(bytes@.skip(pos as int), n as nat) == Some(
                (p.0@.map_values(|b: Branch| b@), bytes@.skip(p.1 as int)),
            ) && pos <= p.1 <= bytes@.len(),
            None => parse_branches(bytes@.skip(pos as int), n as nat) is None,
        },
{
    let ghost orig = bytes@.skip(pos as int);
    let mut out: Vec<Branch> = Vec::new();
    let mut cur = pos;
    let mut i: u64 = 0;
    proof {
        assert(branches_with_prefix(out@.map_values(|b: Branch| b@), parse_branches(orig, n as nat))
            == parse_branches(orig, n as nat)) by {
            match parse_branches(orig, n as nat) {
                None => {},
                Some((t, rr)) => {
                    assert(out@.map_values(|b: Branch| b@) + t =~= t);
                },
            }
        }
    }
    while i < n
        invariant
            pos <= bytes@.len(),
            orig == bytes@.skip(pos as int),
            i <= n,
            pos <= cur <= bytes@.len(),
            parse_branches(orig, n as nat) == branches_with_prefix(
                out@.map_values(|b: Branch| b@),
                parse_branches(bytes@.skip(cur as int), (n - i) as nat),
            ),
        decreases n - i,
    {
        let ghost rest_before = bytes@.skip(cur as int);
        let ghost k = (n - i) as nat;
        let ghost prev = out@.map_values(|b: Branch| b@);
        let (b, p2) = match take_branch(bytes, cur) {
            None => {
                proof {
                    assert(parse_branches(rest_before, k) is None);
                }
                return None;
            },
            Some(p) => p,
        };
        out.push(b);
        proof {
            let inner = parse_branches(bytes@.skip(p2 as int), (k - 1) as nat);
            assert(parse_branches(rest_before, k) == branches_with_prefix(seq![b@], inner));
            let now = out@.map_values(|x: Branch| x@);
            assert(now =~= prev.push(b@));
            match inner {
                None => {},
                Some((t, rr)) => {
                    assert(now + t =~= prev + (seq![b@] + t));
                },
            }
            assert(parse_branches(orig, n as nat) == branches_with_prefix(now, inner));
        }
        cur = p2;
        i = i + 1;
    }
    proof {
        let now = out@.map_values(|x: Branch| x@);
        assert(parse_branches(bytes@.skip(cur as int), 0) == Some(
            (Seq::<BranchModel>::empty(), bytes@.skip(cur as int)),
        ));
        match parse_branches(orig, n as nat) {
            None => {
                assert(false);
            },
            Some((t, rr)) => {
                assert(t =~= now + Seq::<BranchModel>::empty());
                assert(now + Seq::<BranchModel>::empty() =~= now);
            },
        }
    }
    Some((out, cur))
}

fn take_head(bytes: &[u8], pos: usize) -> (r: Option<(Head, usize)>)
    requires
        pos <= bytes@.len(),
    ensures
        match r {
            Some(p) => parse_head(bytes@.skip(pos as int)) == Some((p.0@, bytes@.skip(p.1 as int)))
                && pos <= p.1 <= bytes@.len(),
            None => parse_head(bytes@.skip(pos as int)) is None,
        },
{
    let (t, p1) = match take_u8(bytes, pos) {
        None => {
            return None;
        },
        Some(p) => p,
    };
    if t == 0 {
        match take_string(bytes, p1) {
            None => None,
            Some((n, p2)) => Some((Head::Branch(n), p2)),
        }
    } else if t == 1 {
        match take_u128(bytes, p1) {
            None => None,
            Some((id, p2)) => Some((Head::Version(VersionId { bits: id }), p2)),
        }
    } else {
        None
    }
}

/// Reads a document back from its byte form. The value comes back exactly
/// when the bytes parse as a whole document that satisfies the referential
/// invariant; anything else is malformed and yields nothing, never a repaired
/// value.
pub fn decode_document(bytes: &[u8]) -> (r: Option<RepositoryData>)
    ensures
        match r {
            Some(d) => parse_doc(bytes@) == Some(d@) && d@.wf(),
            None => match parse_doc(bytes@) {
                Some(dm) => !dm.wf(),
                None => true,
            },
        },
{
    proof {
        assert(bytes@.skip(0) =~= bytes@);
    }
    let (head, p1) = match take_head(bytes, 0) {
        None => {
            return None;
        },
        Some(p) => p,
    };
    let (nv, p2) = match take_u64(bytes, p1) {
        None => {
            return None;
        },
        Some(p) => p,
    };
    let (versions, p3) = match take_versions(bytes, p2, nv) {
        None => {
            return None;
        },
        Some(p) => p,
    };
    let (nb, p4) = match take_u64(bytes, p3) {
        None => {
            return None;
        },
        Some(p) => p,
    };
    let (branches, p5) = match take_branches(bytes, p4, nb) {
        None => {
            return None;
        },
        Some(p) => p,
    };
    if p5 != bytes.len() {
        proof {
            assert(bytes@.skip(p5 as int).len() > 0);
        }
        return None;
    }
    let d = RepositoryData { head, versions, branches };
    proof {
        assert(bytes@.skip(p5 as int).len() == 0);
        assert(parse_doc(bytes@) == Some(d@));
    }
    if d.valid() {
        Some(d)
    } else {
        None
    }
}

} // verus!
