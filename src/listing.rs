//! The order of a directory listing and the nodes it is rendered from.
use vstd::prelude::*;
use vstd::seq_lib::{to_multiset_contains, to_multiset_insert, to_multiset_remove};
use crate::archive::{archive_members, archive_members_spec, ArchiveMember, MemberView};
use crate::entry::{classify, DirEntryInfo, FileTypeBits, Kind};
use crate::names::{
    chars_of, lemma_lex_asymmetric, lemma_lex_total, lemma_lex_transitive, lex_less, lex_lt,
    lower_of, lowercase,
};

verus! {

/// Strict order on (is-directory, folded name) keys: non-directories come
/// first, then each group goes by folded name.
pub open spec fn key_lt(d1: bool, n1: Seq<char>, d2: bool, n2: Seq<char>) -> bool {
    (!d1 && d2) || (d1 == d2 && lex_lt(n1, n2))
}

/// `a` is listed strictly before `b`.
pub open spec fn entry_before(a: DirEntryInfo, b: DirEntryInfo) -> bool {
    key_lt(a.is_dir(), lower_of(a.name@), b.is_dir(), lower_of(b.name@))
}

/// No entry is listed after one that it should precede.
pub open spec fn in_listing_order(s: Seq<DirEntryInfo>) -> bool {
    forall|i: int, j: int| 0 <= i < j < s.len() ==> !entry_before(s[j], s[i])
}

/// If `b` does not precede `a` and `c` does not precede `b`, then `c` does
/// not precede `a`.
pub proof fn lemma_not_before_transitive(a: DirEntryInfo, b: DirEntryInfo, c: DirEntryInfo)
    requires
        !entry_before(b, a),
        !entry_before(c, b),
    ensures
        !entry_before(c, a),
{
    let (na, nb, nc) = (lower_of(a.name@), lower_of(b.name@), lower_of(c.name@));
    assert(na.subrange(0, 0) =~= nb.subrange(0, 0));
    assert(nc.subrange(0, 0) =~= nb.subrange(0, 0));
    lemma_lex_total(na, nb, 0);
    lemma_lex_total(nb, nc, 0);
    lemma_lex_transitive(na, nb, nc, 0);
    lemma_lex_asymmetric(na, nc, 0);
    lemma_lex_asymmetric(na, nb, 0);
    lemma_lex_asymmetric(nb, nc, 0);
}

/// Precedence is asymmetric.
pub proof fn lemma_before_asymmetric(a: DirEntryInfo, b: DirEntryInfo)
    ensures
        entry_before(a, b) ==> !entry_before(b, a),
{
    lemma_lex_asymmetric(lower_of(a.name@), lower_of(b.name@), 0);
}

/// In a listing in order, every non-directory comes before every
/// directory, and within each group names ascend once folded to lower case.
pub proof fn law_listing_groups(s: Seq<DirEntryInfo>)
    requires
        in_listing_order(s),
    ensures
        forall|i: int, j: int|
            0 <= i < j < s.len() && (#[trigger] s[i]).is_dir() ==> (#[trigger] s[j]).is_dir(),
        forall|i: int, j: int|
            0 <= i < j < s.len() && (#[trigger] s[i]).is_dir() == (#[trigger] s[j]).is_dir() ==> (
            lex_lt(lower_of(s[i].name@), lower_of(s[j].name@)) || lower_of(s[i].name@) == lower_of(
                s[j].name@,
            )),
{
    assert forall|i: int, j: int|
        0 <= i < j < s.len() && (#[trigger] s[i]).is_dir() implies (#[trigger] s[j]).is_dir() by {
        assert(!entry_before(s[j], s[i]));
    }
    assert forall|i: int, j: int|
        0 <= i < j < s.len() && (#[trigger] s[i]).is_dir() == (#[trigger] s[j]).is_dir() implies (
        lex_lt(lower_of(s[i].name@), lower_of(s[j].name@)) || lower_of(s[i].name@) == lower_of(
            s[j].name@,
        )) by {
        let (a, b) = (lower_of(s[i].name@), lower_of(s[j].name@));
        assert(!entry_before(s[j], s[i]));
        assert(a.subrange(0, 0) =~= b.subrange(0, 0));
        lemma_lex_total(a, b, 0);
    }
}

/// Neither entry is listed before the other: their keys are equal.
pub open spec fn same_key(a: DirEntryInfo, b: DirEntryInfo) -> bool {
    !entry_before(a, b) && !entry_before(b, a)
}

/// `r` holds the entries of `s` at the positions `perm` gives, each once,
/// and entries with equal keys keep the relative order they had in `s`.
pub open spec fn stable_reorder(r: Seq<DirEntryInfo>, s: Seq<DirEntryInfo>, perm: Seq<int>) -> bool {
    &&& perm.len() == r.len()
    &&& r.len() == s.len()
    &&& forall|k: int| 0 <= k < r.len() ==> 0 <= #[trigger] perm[k] < s.len() && r[k] == s[perm[k]]
    &&& forall|k: int, l: int| 0 <= k < l < r.len() ==> #[trigger] perm[k] != #[trigger] perm[l]
    &&& forall|k: int, l: int|
        0 <= k < l < r.len() && same_key(#[trigger] r[k], #[trigger] r[l]) ==> perm[k] < perm[l]
}

/// Whether `a` is listed strictly before `b`.
fn before(a: &DirEntryInfo, b: &DirEntryInfo) -> (r: bool)
    ensures
        r == entry_before(*a, *b),
{
    let da = match a.bits {
        Some(FileTypeBits::Directory) => true,
        _ => false,
    };
    let db = match b.bits {
        Some(FileTypeBits::Directory) => true,
        _ => false,
    };
    if da != db {
        return db;
    }
    let la = lowercase(a.name.as_str());
    let lb = lowercase(b.name.as_str());
    lex_less(&chars_of(la.as_str()), &chars_of(lb.as_str()))
}

/// Orders the children of a directory for listing: all non-directories
/// first, then all directories, each group ascending by lower-cased name.
/// Entries with equal keys keep their relative order.
#[verifier::rlimit(40)]
pub fn sort_entries(entries: Vec<DirEntryInfo>) -> (r: Vec<DirEntryInfo>)
    ensures
        r@.to_multiset() == entries@.to_multiset(),
        in_listing_order(r@),
        exists|perm: Seq<int>| stable_reorder(r@, entries@, perm),
{
    broadcast use to_multiset_contains, to_multiset_insert, to_multiset_remove, vstd::multiset::group_multiset_axioms;

    let mut v = entries;
    let mut i: usize = 0;
    let ghost mut perm = Seq::new(v@.len(), |k: int| k);
    while i < v.len()
        invariant
            i <= v@.len(),
            v@.to_multiset() == entries@.to_multiset(),
            in_listing_order(v@.subrange(0, i as int)),
            perm.len() == v@.len(),
            v@.len() == entries@.len(),
            forall|k: int|
                0 <= k < v@.len() ==> 0 <= #[trigger] perm[k] < v@.len() && v@[k] == entries@[perm[k]],
            forall|k: int, l: int| 0 <= k < l < v@.len() ==> #[trigger] perm[k] != #[trigger] perm[l],
            forall|k: int| i <= k < v@.len() ==> #[trigger] perm[k] == k,
            forall|k: int| 0 <= k < i ==> #[trigger] perm[k] < i,
            forall|k: int, l: int|
                0 <= k < l < i && same_key(#[trigger] v@[k], #[trigger] v@[l]) ==> perm[k] < perm[l],
        decreases v@.len() - i,
    {
        let ghost v0 = v@;
        let x = v.remove(i);
        assert(v@.subrange(0, i as int) =~= v0.subrange(0, i as int));
        let mut p: usize = i;
        while p > 0
            invariant
                p <= i,
                i <= v@.len(),
                i < v0.len(),
                v@ == v0.remove(i as int),
                forall|q: int| p <= q < i ==> entry_before(x, #[trigger] v@[q]),
            ensures
                p <= i,
                forall|q: int| p <= q < i ==> entry_before(x, #[trigger] v@[q]),
                p == 0 || !entry_before(x, v@[p - 1]),
            decreases p,
        {
            if !before(&x, &v[p - 1]) {
                break;
            }
            p = p - 1;
        }
        let ghost w = v@;
        v.insert(p, x);
        proof {
            assert(x == v0[i as int]);
            assert(v0.contains(x));
            to_multiset_contains(v0, x);
            to_multiset_remove(v0, i as int);
            to_multiset_insert(w, p as int, x);
            assert(v@.to_multiset() =~= v0.to_multiset());
        }
        let ghost np = perm.remove(i as int).insert(p as int, i as int);
        let ghost n = v@.len();
        assert forall|k: int| 0 <= k < n implies #[trigger] np[k] == (if k < p {
            perm[k]
        } else if k == p {
            i as int
        } else if k <= i {
            perm[k - 1]
        } else {
            perm[k]
        }) && v@[k] == (if k < p {
            v0[k]
        } else if k == p {
            x
        } else if k <= i {
            v0[k - 1]
        } else {
            v0[k]
        }) by {}
        assert forall|k: int| 0 <= k < n implies 0 <= #[trigger] np[k] < n && v@[k] == entries@[np[k]] by {
            if k < p {
                assert(perm[k] < n);
            } else if k == p {
            } else if k <= i {
                assert(perm[k - 1] < n);
            } else {
                assert(perm[k] < n);
            }
        }
        assert forall|k: int, l: int| 0 <= k < l < n implies #[trigger] np[k] != #[trigger] np[l] by {
            let ko = if k < p { k } else if k == p { i as int } else if k <= i { k - 1 } else { k };
            let lo = if l < p { l } else if l == p { i as int } else if l <= i { l - 1 } else { l };
            assert(np[k] == perm[ko]);
            assert(np[l] == perm[lo]);
            if ko != lo {
                if ko < lo {
                    assert(perm[ko] != perm[lo]);
                } else {
                    assert(perm[lo] != perm[ko]);
                }
            }
        }
        assert forall|k: int| i + 1 <= k < n implies #[trigger] np[k] == k by {}
        assert forall|k: int| 0 <= k < i + 1 implies #[trigger] np[k] < i + 1 by {
            if k < p {
                assert(perm[k] < i);
            } else if k > p {
                assert(perm[k - 1] < i);
            }
        }
        assert forall|k: int, l: int|
            0 <= k < l < i + 1 && same_key(#[trigger] v@[k], #[trigger] v@[l]) implies np[k]
            < np[l] by {
            if k == p {
                assert(entry_before(x, v@[l]));
            } else if l == p {
                assert(perm[k] < i);
            } else {
                let ko = if k < p { k } else { k - 1 };
                let lo = if l < p { l } else { l - 1 };
                assert(v@[k] == v0[ko] && v@[l] == v0[lo]);
                assert(perm[ko] < perm[lo]);
            }
        }
        proof {
            perm = np;
        }
        let ghost s = v@.subrange(0, i + 1);
        assert forall|a: int, b: int| 0 <= a < b < i + 1 implies !entry_before(
            #[trigger] s[b],
            #[trigger] s[a],
        ) by {
            assert(w.subrange(0, i as int) =~= v0.subrange(0, i as int));
            if b < p {
                assert(v0.subrange(0, i as int)[a] == v@[a]);
                assert(v0.subrange(0, i as int)[b] == v@[b]);
            } else if b == p {
                if a < p - 1 {
                    assert(v0.subrange(0, i as int)[a] == v@[a]);
                    assert(v0.subrange(0, i as int)[p - 1] == v@[p - 1]);
                    lemma_not_before_transitive(v@[a], v@[p - 1], x);
                }
            } else if a == p {
                lemma_before_asymmetric(x, v@[b]);
            } else if a < p {
                assert(v0.subrange(0, i as int)[a] == v@[a]);
                assert(v0.subrange(0, i as int)[b - 1] == v@[b]);
            } else {
                assert(v0.subrange(0, i as int)[a - 1] == v@[a]);
                assert(v0.subrange(0, i as int)[b - 1] == v@[b]);
            }
        }
        i = i + 1;
    }
    assert(v@.subrange(0, i as int) =~= v@);
    assert(stable_reorder(v@, entries@, perm));
    v
}

/// The rendered listing of a directory or an archive: its entries, or the
/// reason they could not be read.
#[derive(Debug)]
pub enum Listing {
    Entries(Vec<ListingNode>),
    Failed(String),
}

/// One entry of a listing. Containers always carry their children; leaves
/// never do.
#[derive(Debug)]
pub enum ListingNode {
    Dir { name: String, children: Listing },
    CompressedDir { name: String, children: Listing },
    File { name: String, size: u64, ctime: u64, mtime: u64 },
    CompressedFile { name: String, size: u64, ctime: u64, mtime: u64 },
    Symlink { name: String },
}

/// The node that a leaf entry is listed as; containers and unreadable
/// entries have none.
pub fn leaf_node(e: &DirEntryInfo) -> (r: Option<ListingNode>)
    ensures
        match e.kind() {
            Kind::PlainFile => r matches Some(ListingNode::File { name, size, ctime, mtime }) && name@
                == e.name@ && size == e.size && ctime == e.ctime && mtime == e.mtime,
            Kind::CompressedFile => r matches Some(
                ListingNode::CompressedFile { name, size, ctime, mtime },
            ) && name@ == e.name@ && size == e.size && ctime == e.ctime && mtime == e.mtime,
            Kind::Symlink => r matches Some(ListingNode::Symlink { name }) && name@ == e.name@,
            _ => r is None,
        },
{
    let name = e.name.clone();
    match classify(e.name.as_str(), e.bits) {
        Kind::PlainFile => Some(
            ListingNode::File { name, size: e.size, ctime: e.ctime, mtime: e.mtime },
        ),
        Kind::CompressedFile => Some(
            ListingNode::CompressedFile { name, size: e.size, ctime: e.ctime, mtime: e.mtime },
        ),
        Kind::Symlink => Some(ListingNode::Symlink { name }),
        _ => None,
    }
}

/// The listing of a directory that could not be read, with the reason;
/// an empty reason is replaced by a generic one.
pub fn failed_listing(reason: String) -> (r: Listing)
    ensures
        r matches Listing::Failed(t) && t@.len() > 0 && (reason@.len() > 0 ==> t@ == reason@),
{
    if reason.as_str().unicode_len() > 0 {
        Listing::Failed(reason)
    } else {
        let t = "unreadable".to_string();
        proof {
            reveal_strlit("unreadable");
        }
        Listing::Failed(t)
    }
}

/// Whether entry `e` appears in its directory's listing, given the listing
/// supplied for its contents: a container appears with one, a leaf always,
/// an unreadable entry never.
pub open spec fn listed(e: DirEntryInfo, sub: Option<Listing>) -> bool {
    match e.kind() {
        Kind::Directory | Kind::CompressedDirectory => sub is Some,
        Kind::Unreadable => false,
        _ => true,
    }
}

/// `n` is the node that entry `e` is listed as, with `sub` as a container's
/// children.
pub open spec fn node_for(n: ListingNode, e: DirEntryInfo, sub: Option<Listing>) -> bool {
    match e.kind() {
        Kind::Directory => n matches ListingNode::Dir { name, children } && name@ == e.name@
            && sub == Some(children),
        Kind::CompressedDirectory => n matches ListingNode::CompressedDir { name, children }
            && name@ == e.name@ && sub == Some(children),
        Kind::PlainFile => n matches ListingNode::File { name, size, ctime, mtime } && name@
            == e.name@ && size == e.size && ctime == e.ctime && mtime == e.mtime,
        Kind::CompressedFile => n matches ListingNode::CompressedFile { name, size, ctime, mtime }
            && name@ == e.name@ && size == e.size && ctime == e.ctime && mtime == e.mtime,
        Kind::Symlink => n matches ListingNode::Symlink { name } && name@ == e.name@,
        Kind::Unreadable => false,
    }
}

/// The nodes are the listed entries, one for one and in the same order.
pub open spec fn nodes_follow(
    nodes: Seq<ListingNode>,
    es: Seq<DirEntryInfo>,
    subs: Seq<Option<Listing>>,
) -> bool
    decreases es.len(),
{
    if es.len() != subs.len() {
        false
    } else if es.len() == 0 {
        nodes.len() == 0
    } else if listed(es.last(), subs.last()) {
        nodes.len() > 0 && node_for(nodes.last(), es.last(), subs.last()) && nodes_follow(
            nodes.drop_last(),
            es.drop_last(),
            subs.drop_last(),
        )
    } else {
        nodes_follow(nodes, es.drop_last(), subs.drop_last())
    }
}

/// The listing of a directory whose children, in listing order, are
/// `entries`; `subs[k]` is the listing of the contents of `entries[k]` where
/// it is a directory or an archive.
pub fn directory_listing(entries: Vec<DirEntryInfo>, subs: Vec<Option<Listing>>) -> (r: Listing)
    requires
        entries@.len() == subs@.len(),
    ensures
        r matches Listing::Entries(nodes) && nodes_follow(nodes@, entries@, subs@),
{
    let ghost es = entries@;
    let ghost ss = subs@;
    let mut entries = entries;
    let mut subs = subs;
    let mut nodes: Vec<ListingNode> = Vec::new();
    let n: usize = entries.len();
    let mut i: usize = 0;
    assert(es.subrange(0, 0) =~= Seq::<DirEntryInfo>::empty());
    assert(ss.subrange(0, 0) =~= Seq::<Option<Listing>>::empty());
    while entries.len() > 0
        invariant
            n == es.len(),
            n == ss.len(),
            i + entries@.len() == n,
            entries@ == es.subrange(i as int, n as int),
            subs@ == ss.subrange(i as int, n as int),
            nodes_follow(nodes@, es.subrange(0, i as int), ss.subrange(0, i as int)),
        decreases entries.len(),
    {
        let e = entries.remove(0);
        let sub = subs.remove(0);
        assert(e == es[i as int]);
        assert(sub == ss[i as int]);
        assert(entries@ =~= es.subrange(i + 1, n as int));
        assert(subs@ =~= ss.subrange(i + 1, n as int));
        let ghost prev = nodes@;
        let ghost ge = e;
        let ghost gsub = sub;
        match classify(e.name.as_str(), e.bits) {
            Kind::Directory => {
                if let Some(children) = sub {
                    nodes.push(ListingNode::Dir { name: e.name, children });
                }
            },
            Kind::CompressedDirectory => {
                if let Some(children) = sub {
                    nodes.push(ListingNode::CompressedDir { name: e.name, children });
                }
            },
            _ => {
                if let Some(node) = leaf_node(&e) {
                    nodes.push(node);
                }
            },
        }
        proof {
            let es1 = es.subrange(0, i + 1);
            let ss1 = ss.subrange(0, i + 1);
            assert(es1.drop_last() =~= es.subrange(0, i as int));
            assert(ss1.drop_last() =~= ss.subrange(0, i as int));
            assert(es1.last() == ge);
            assert(ss1.last() == gsub);
            if listed(ge, gsub) {
                assert(nodes@.drop_last() =~= prev);
            } else {
                assert(nodes@ == prev);
            }
        }
        i = i + 1;
    }
    assert(es.subrange(0, n as int) =~= es);
    assert(ss.subrange(0, n as int) =~= ss);
    Listing::Entries(nodes)
}

/// A member node lists the member's name, size and modification time, with
/// creation time 0.
pub open spec fn member_node_matches(n: ListingNode, m: MemberView) -> bool {
    n matches ListingNode::File { name, size, ctime, mtime } && name@ == m.0 && size == m.1
        && ctime == 0 && mtime == m.2
}

/// The flat listing of the `.tar.gz` archive held in `data`: one file node
/// per member in archive order, or a failure where it cannot be decoded.
pub fn archive_listing(data: &[u8]) -> (r: Listing)
    ensures
        match archive_members_spec(data@) {
            Ok(ms) => r matches Listing::Entries(ns) && ns@.len() == ms.len() && forall|i: int|
                0 <= i < ms.len() ==> member_node_matches(#[trigger] ns@[i], ms[i]),
            Err(_) => r matches Listing::Failed(t) && t@.len() > 0,
        },
{
    match archive_members(data) {
        Err(_) => {
            let t = "archive could not be read".to_string();
            proof {
                reveal_strlit("archive could not be read");
            }
            Listing::Failed(t)
        },
        Ok(members) => {
            let ghost ms = members@;
            let mut rest = members;
            let mut nodes: Vec<ListingNode> = Vec::new();
            let n = rest.len();
            while rest.len() > 0
                invariant
                    nodes@.len() + rest@.len() == n,
                    n == ms.len(),
                    rest@ == ms.subrange(nodes@.len() as int, n as int),
                    forall|i: int|
                        0 <= i < nodes@.len() ==> member_node_matches(#[trigger] nodes@[i], ms[i]@),
                decreases rest.len(),
            {
                let m: ArchiveMember = rest.remove(0);
                assert(m == ms[nodes@.len() as int]);
                nodes.push(ListingNode::File { name: m.name, size: m.size, ctime: 0, mtime: m.mtime });
                assert(rest@ =~= ms.subrange(nodes@.len() as int, n as int));
            }
            Listing::Entries(nodes)
        },
    }
}

} // verus!
