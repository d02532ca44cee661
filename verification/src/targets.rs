//! Merge-target resolution.
//!
//! A patch needs a target: the default-branch tip of a followed peer. The
//! resolver reads, for every followed peer, the tip of that peer's copy of
//! the project's default branch in the monorepo, and partitions the tips
//! into those that already contain the working head and those that do not.
//! The followed-peer list is kept in byte-lexicographic order, so the
//! partition is deterministic and peer-ordered.

use vstd::prelude::*;
use crate::bytes::lex_less;
use crate::graph::{ancestors, CommitGraph};
use crate::ids::{valid_ref_name, Oid, PeerId, RefLike, Urn};

verus! {

/// Project metadata, as consumed by the engine.
pub struct Project {
    pub urn: Urn,
    pub name: Vec<u8>,
    pub default_branch: RefLike,
    /// Followed peers, strictly ascending in byte-lexicographic order.
    pub peers: Vec<PeerId>,
}

impl Project {
    pub open spec fn wf(self) -> bool {
        &&& valid_ref_name(self.default_branch@)
        &&& forall|i: int, j: int|
            0 <= i < j < self.peers@.len() ==> lex_less(
                (#[trigger] self.peers@[i])@,
                (#[trigger] self.peers@[j])@,
            )
    }
}

/// One branch ref in the monorepo: the tip of `peer`'s copy of a branch.
pub struct BranchRef {
    pub peer: PeerId,
    pub name: RefLike,
    pub tip: Oid,
}

/// The per-peer content-addressed store: the commits this replica knows,
/// and the branch refs of every followed peer's namespace.
pub struct Monorepo {
    pub graph: CommitGraph,
    pub refs: Vec<BranchRef>,
}

impl Monorepo {
    pub open spec fn wf(self) -> bool {
        &&& self.graph.wf()
        &&& forall|i: int|
            0 <= i < self.refs@.len() ==> self.graph.has_oid((#[trigger] self.refs@[i]).tip@)
    }
}

/// The first ref below position `k` that belongs to `peer` and names
/// `branch`.
pub open spec fn first_ref_below(refs: Seq<BranchRef>, peer: Seq<u8>, branch: Seq<u8>, k: int) -> Option<
    int,
>
    decreases k,
{
    if k <= 0 {
        None
    } else {
        match first_ref_below(refs, peer, branch, k - 1) {
            Some(i) => Some(i),
            None => if refs[k - 1].peer@ == peer && refs[k - 1].name@ == branch {
                Some(k - 1)
            } else {
                None
            },
        }
    }
}

impl Monorepo {
    /// Reads the tip of `peer`'s copy of `branch`, if that ref exists.
    pub fn lookup_tip(&self, peer: &PeerId, branch: &RefLike) -> (r: Option<&Oid>)
        ensures
            match r {
                Some(tip) => {
                    let f = first_ref_below(self.refs@, peer@, branch@, self.refs@.len() as int);
                    f is Some && tip@ == self.refs@[f->Some_0].tip@
                },
                None => first_ref_below(self.refs@, peer@, branch@, self.refs@.len() as int)
                    is None,
            },
    {
        let n = self.refs.len();
        let mut i: usize = 0;
        while i < n
            invariant
                n == self.refs@.len(),
                i <= n,
                first_ref_below(self.refs@, peer@, branch@, i as int) is None,
            decreases n - i,
        {
            if self.refs[i].peer.same(peer) && self.refs[i].name.same(branch) {
                proof {
                    lemma_first_ref_step(self.refs@, peer@, branch@, i as int, n as int);
                }
                return Some(&self.refs[i].tip);
            }
            i = i + 1;
        }
        None
    }
}

/// A found ref lies in range and matches the peer and branch asked for.
proof fn lemma_first_ref_range(refs: Seq<BranchRef>, peer: Seq<u8>, branch: Seq<u8>, k: int)
    requires
        k <= refs.len(),
    ensures
        match first_ref_below(refs, peer, branch, k) {
            Some(i) => 0 <= i < k && refs[i].peer@ == peer && refs[i].name@ == branch,
            None => true,
        },
    decreases k,
{
    if k > 0 {
        lemma_first_ref_range(refs, peer, branch, k - 1);
    }
}

/// Once a match is found at `i` with none below it, every scan bound past
/// `i` yields `i`.
proof fn lemma_first_ref_step(refs: Seq<BranchRef>, peer: Seq<u8>, branch: Seq<u8>, i: int, k: int)
    requires
        0 <= i < k <= refs.len(),
        first_ref_below(refs, peer, branch, i) is None,
        refs[i].peer@ == peer,
        refs[i].name@ == branch,
    ensures
        first_ref_below(refs, peer, branch, k) == Some(i),
    decreases k,
{
    if k > i + 1 {
        lemma_first_ref_step(refs, peer, branch, i, k - 1);
    }
}

/// The head is contained in the history of `tip`: both commits are in the
/// graph and the head is an ancestor of the tip.
pub open spec fn head_merged_into(g: CommitGraph, tip: Seq<u8>, head: Seq<u8>) -> bool {
    exists|c: int, h: int|
        0 <= c < g.commits@.len() && 0 <= h < g.commits@.len() && (#[trigger] g.commits@[c].oid@)
            == tip && (#[trigger] g.commits@[h].oid@) == head && ancestors(g, c).contains(h)
}

/// The decision taken for the followed peer at position `q`: `None` when its
/// branch ref is missing, otherwise the tip and whether the head is already
/// contained in it.
pub open spec fn peer_decision(m: Monorepo, proj: Project, head: Seq<u8>, q: int) -> Option<
    (Seq<u8>, bool),
> {
    match first_ref_below(m.refs@, proj.peers@[q]@, proj.default_branch@, m.refs@.len() as int) {
        Some(r) => Some((m.refs@[r].tip@, head_merged_into(m.graph, m.refs@[r].tip@, head))),
        None => None,
    }
}

/// The (peer, tip) pairs among the first `k` followed peers whose tip already
/// contains the head.
pub open spec fn merged_pairs(m: Monorepo, proj: Project, head: Seq<u8>, k: int) -> Seq<
    (Seq<u8>, Seq<u8>),
>
    decreases k,
{
    if k <= 0 {
        Seq::empty()
    } else {
        merged_pairs(m, proj, head, k - 1) + match peer_decision(m, proj, head, k - 1) {
            Some((tip, merged)) => if merged {
                seq![(proj.peers@[k - 1]@, tip)]
            } else {
                Seq::empty()
            },
            None => Seq::empty(),
        }
    }
}

/// The (peer, tip) pairs among the first `k` followed peers whose tip does
/// not contain the head.
pub open spec fn not_merged_pairs(m: Monorepo, proj: Project, head: Seq<u8>, k: int) -> Seq<
    (Seq<u8>, Seq<u8>),
>
    decreases k,
{
    if k <= 0 {
        Seq::empty()
    } else {
        not_merged_pairs(m, proj, head, k - 1) + match peer_decision(m, proj, head, k - 1) {
            Some((tip, merged)) => if !merged {
                seq![(proj.peers@[k - 1]@, tip)]
            } else {
                Seq::empty()
            },
            None => Seq::empty(),
        }
    }
}

/// Every tip among the not-merged pairs is a ref tip, hence a commit the
/// monorepo holds.
pub proof fn lemma_not_merged_tips_in_graph(m: Monorepo, proj: Project, head: Seq<u8>, k: int)
    requires
        m.wf(),
    ensures
        forall|q: int|
            0 <= q < not_merged_pairs(m, proj, head, k).len() ==> m.graph.has_oid(
                (#[trigger] not_merged_pairs(m, proj, head, k)[q]).1,
            ),
    decreases k,
{
    if k > 0 {
        lemma_not_merged_tips_in_graph(m, proj, head, k - 1);
        lemma_first_ref_range(
            m.refs@,
            proj.peers@[k - 1]@,
            proj.default_branch@,
            m.refs@.len() as int,
        );
        let s0 = not_merged_pairs(m, proj, head, k - 1);
        let s1 = not_merged_pairs(m, proj, head, k);
        assert forall|q: int| 0 <= q < s1.len() implies m.graph.has_oid(
            (#[trigger] s1[q]).1,
        ) by {
            if q < s0.len() {
                assert(s1[q] == s0[q]);
            }
        }
    }
}

/// Every peer in the not-merged pairs is one of the first `k` followed
/// peers.
pub proof fn lemma_pairs_peer_origin(m: Monorepo, proj: Project, head: Seq<u8>, k: int)
    ensures
        forall|q: int|
            0 <= q < not_merged_pairs(m, proj, head, k).len() ==> exists|t: int|
                0 <= t < k && (#[trigger] not_merged_pairs(m, proj, head, k)[q]).0
                    == proj.peers@[t]@,
    decreases k,
{
    if k > 0 {
        lemma_pairs_peer_origin(m, proj, head, k - 1);
        let s0 = not_merged_pairs(m, proj, head, k - 1);
        let s1 = not_merged_pairs(m, proj, head, k);
        assert forall|q: int| 0 <= q < s1.len() implies exists|t: int|
            0 <= t < k && (#[trigger] s1[q]).0 == proj.peers@[t]@ by {
            if q < s0.len() {
                assert(s1[q] == s0[q]);
                let t = choose|t: int| 0 <= t < k - 1 && s0[q].0 == proj.peers@[t]@;
                assert(0 <= t < k && s1[q].0 == proj.peers@[t]@);
            } else {
                assert(s1[q].0 == proj.peers@[k - 1]@);
            }
        }
    }
}

/// Law: the not-merged list is peer-ordered. With the followed peers kept in
/// strictly ascending byte-lexicographic order, the pairs inherit that
/// order, so the partition is reproducible across replicas.
pub proof fn lemma_not_merged_peer_ordered(m: Monorepo, proj: Project, head: Seq<u8>, k: int)
    requires
        proj.wf(),
        k <= proj.peers@.len(),
    ensures
        forall|q1: int, q2: int|
            0 <= q1 < q2 < not_merged_pairs(m, proj, head, k).len() ==> lex_less(
                (#[trigger] not_merged_pairs(m, proj, head, k)[q1]).0,
                (#[trigger] not_merged_pairs(m, proj, head, k)[q2]).0,
            ),
    decreases k,
{
    if k > 0 {
        lemma_not_merged_peer_ordered(m, proj, head, k - 1);
        lemma_pairs_peer_origin(m, proj, head, k - 1);
        let s0 = not_merged_pairs(m, proj, head, k - 1);
        let s1 = not_merged_pairs(m, proj, head, k);
        assert forall|q1: int, q2: int| 0 <= q1 < q2 < s1.len() implies lex_less(
            (#[trigger] s1[q1]).0,
            (#[trigger] s1[q2]).0,
        ) by {
            if q2 < s0.len() {
                assert(s1[q1] == s0[q1]);
                assert(s1[q2] == s0[q2]);
            } else {
                assert(q1 < s0.len());
                assert(s1[q1] == s0[q1]);
                assert(s1[q2].0 == proj.peers@[k - 1]@);
                let t = choose|t: int| 0 <= t < k - 1 && s0[q1].0 == proj.peers@[t]@;
                assert(lex_less(proj.peers@[t]@, proj.peers@[k - 1]@));
            }
        }
    }
}

/// The partition of followed peers' tips around a proposed head.
pub struct MergeTargets {
    pub merged: Vec<(PeerId, Oid)>,
    pub not_merged: Vec<(PeerId, Oid)>,
}

pub open spec fn pair_views(s: Seq<(PeerId, Oid)>) -> Seq<(Seq<u8>, Seq<u8>)> {
    s.map_values(|p: (PeerId, Oid)| (p.0@, p.1@))
}

/// Partitions every followed peer's default-branch tip by whether it already
/// contains `head`. A peer without such a ref is skipped. Both lists follow
/// the followed-peer order, which is byte-lexicographic on peer ids.
pub fn find_merge_targets(head: &Oid, monorepo: &Monorepo, project: &Project) -> (r: MergeTargets)
    requires
        monorepo.wf(),
    ensures
        pair_views(r.merged@) == merged_pairs(
            *monorepo,
            *project,
            head@,
            project.peers@.len() as int,
        ),
        pair_views(r.not_merged@) == not_merged_pairs(
            *monorepo,
            *project,
            head@,
            project.peers@.len() as int,
        ),
{
    let head_idx = monorepo.graph.find_commit(head);
    let np = project.peers.len();
    let mut merged: Vec<(PeerId, Oid)> = Vec::new();
    let mut not_merged: Vec<(PeerId, Oid)> = Vec::new();
    let mut q: usize = 0;
    while q < np
        invariant
            monorepo.wf(),
            np == project.peers@.len(),
            q <= np,
            match head_idx {
                Some(h) => h < monorepo.graph.commits@.len()
                    && monorepo.graph.commits@[h as int].oid@ == head@,
                None => forall|i: int|
                    0 <= i < monorepo.graph.commits@.len() ==> (
                    #[trigger] monorepo.graph.commits@[i].oid@) != head@,
            },
            pair_views(merged@) == merged_pairs(*monorepo, *project, head@, q as int),
            pair_views(not_merged@) == not_merged_pairs(*monorepo, *project, head@, q as int),
        decreases np - q,
    {
        let ghost prev_m = merged@;
        let ghost prev_n = not_merged@;
        let peer = &project.peers[q];
        match monorepo.lookup_tip(peer, &project.default_branch) {
            None => {
                proof {
                    assert(pair_views(merged@) =~= merged_pairs(
                        *monorepo,
                        *project,
                        head@,
                        q + 1 as int,
                    ));
                    assert(pair_views(not_merged@) =~= not_merged_pairs(
                        *monorepo,
                        *project,
                        head@,
                        q + 1 as int,
                    ));
                }
            },
            Some(tip) => {
                let tip = tip.duplicate();
                proof {
                    lemma_first_ref_range(
                        monorepo.refs@,
                        peer@,
                        project.default_branch@,
                        monorepo.refs@.len() as int,
                    );
                }
                let ghost r = first_ref_below(
                    monorepo.refs@,
                    peer@,
                    project.default_branch@,
                    monorepo.refs@.len() as int,
                )->Some_0;
                let c = match monorepo.graph.find_commit(&tip) {
                    Some(c) => c,
                    None => {
                        proof {
                            assert(monorepo.graph.has_oid(monorepo.refs@[r].tip@));
                            assert(false);
                        }
                        0
                    },
                };
                let is_merged = match head_idx {
                    Some(h) => {
                        let row = monorepo.graph.ancestors_of(c);
                        row[h]
                    },
                    None => false,
                };
                proof {
                    if is_merged {
                        let h = head_idx->Some_0 as int;
                        assert(head_merged_into(monorepo.graph, tip@, head@));
                    } else {
                        if head_merged_into(monorepo.graph, tip@, head@) {
                            let (c2, h2) = choose|c2: int, h2: int|
                                0 <= c2 < monorepo.graph.commits@.len() && 0 <= h2
                                    < monorepo.graph.commits@.len() && (
                                #[trigger] monorepo.graph.commits@[c2].oid@) == tip@ && (
                                #[trigger] monorepo.graph.commits@[h2].oid@) == head@ && ancestors(
                                    monorepo.graph,
                                    c2,
                                ).contains(h2);
                            assert(c2 == c as int);
                            assert(head_idx is Some);
                            assert(h2 == head_idx->Some_0 as int);
                            assert(false);
                        }
                    }
                }
                if is_merged {
                    merged.push((peer.duplicate(), tip));
                    proof {
                        assert(pair_views(merged@) =~= prev_m.map_values(
                            |p: (PeerId, Oid)| (p.0@, p.1@),
                        ) + seq![(peer@, monorepo.refs@[r].tip@)]);
                        assert(pair_views(merged@) =~= merged_pairs(
                            *monorepo,
                            *project,
                            head@,
                            q + 1 as int,
                        ));
                        assert(pair_views(not_merged@) =~= not_merged_pairs(
                            *monorepo,
                            *project,
                            head@,
                            q + 1 as int,
                        ));
                    }
                } else {
                    not_merged.push((peer.duplicate(), tip));
                    proof {
                        assert(pair_views(not_merged@) =~= prev_n.map_values(
                            |p: (PeerId, Oid)| (p.0@, p.1@),
                        ) + seq![(peer@, monorepo.refs@[r].tip@)]);
                        assert(pair_views(not_merged@) =~= not_merged_pairs(
                            *monorepo,
                            *project,
                            head@,
                            q + 1 as int,
                        ));
                        assert(pair_views(merged@) =~= merged_pairs(
                            *monorepo,
                            *project,
                            head@,
                            q + 1 as int,
                        ));
                    }
                }
            },
        }
        q = q + 1;
    }
    MergeTargets { merged, not_merged }
}

/// Law: target resolution is deterministic. The partition is a function of
/// the monorepo, the project and the head alone, so two runs on identical
/// inputs return identical peer-ordered lists.
pub proof fn lemma_find_merge_targets_deterministic(
    m: Monorepo,
    proj: Project,
    head: Seq<u8>,
    r1: MergeTargets,
    r2: MergeTargets,
)
    requires
        pair_views(r1.merged@) == merged_pairs(m, proj, head, proj.peers@.len() as int),
        pair_views(r1.not_merged@) == not_merged_pairs(m, proj, head, proj.peers@.len() as int),
        pair_views(r2.merged@) == merged_pairs(m, proj, head, proj.peers@.len() as int),
        pair_views(r2.not_merged@) == not_merged_pairs(m, proj, head, proj.peers@.len() as int),
    ensures
        pair_views(r1.merged@) == pair_views(r2.merged@),
        pair_views(r1.not_merged@) == pair_views(r2.not_merged@),
{
}

} // verus!
