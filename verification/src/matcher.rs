//! Selecting the patch a working copy can update.
//!
//! When the author asks to update "their patch" without naming one, the
//! engine must find it: among the author's own proposed patches, the ones
//! whose latest revision has no merges yet, is not already at the proposed
//! head, and forked from the same merge base as the current work.

use vstd::prelude::*;
use crate::graph::{common_ancestor, CommitGraph};
use crate::ids::{Oid, Urn};
use crate::store::{PatchStore, StoredPatch};

verus! {

/// `mb` is the merge base of `a` and `b`: a common ancestor with no common
/// ancestor above it.
pub open spec fn is_merge_base_idx(g: CommitGraph, a: int, b: int, mb: int) -> bool {
    &&& 0 <= mb < g.commits@.len()
    &&& common_ancestor(g, a, b, mb)
    &&& forall|j: int| mb < j < g.commits@.len() ==> !common_ancestor(g, a, b, j)
}

/// Two merge bases of the same pair are the same commit.
pub proof fn lemma_merge_base_unique(g: CommitGraph, a: int, b: int, m1: int, m2: int)
    requires
        is_merge_base_idx(g, a, b, m1),
        is_merge_base_idx(g, a, b, m2),
    ensures
        m1 == m2,
{
    if m1 < m2 {
        assert(!common_ancestor(g, a, b, m2));
    }
    if m2 < m1 {
        assert(!common_ancestor(g, a, b, m1));
    }
}

/// The patch at entry `i` is an update candidate: proposed by `author`
/// under `proj`, latest revision unmerged, not already at `patch_head`, and
/// its head shares the merge base `mb` with the target.
pub open spec fn candidate(
    s: Seq<StoredPatch>,
    g: CommitGraph,
    proj: Seq<u8>,
    author: Seq<u8>,
    patch_head: Seq<u8>,
    target: int,
    mb: int,
    i: int,
) -> bool {
    &&& 0 <= i < s.len()
    &&& s[i].urn@ == proj
    &&& s[i].patch.is_proposed()
    &&& s[i].patch.author.urn@ == author
    &&& s[i].patch.spec_latest().merges@.len() == 0
    &&& s[i].patch.spec_latest().oid@ != patch_head
    &&& exists|h: int|
        0 <= h < g.commits@.len() && (#[trigger] g.commits@[h].oid@)
            == s[i].patch.spec_latest().oid@ && is_merge_base_idx(g, h, target, mb)
}

/// The candidate entry indices below `k`, in insertion order.
pub open spec fn candidate_indices(
    s: Seq<StoredPatch>,
    g: CommitGraph,
    proj: Seq<u8>,
    author: Seq<u8>,
    patch_head: Seq<u8>,
    target: int,
    mb: int,
    k: int,
) -> Seq<int>
    decreases k,
{
    if k <= 0 {
        Seq::empty()
    } else {
        candidate_indices(s, g, proj, author, patch_head, target, mb, k - 1) + if candidate(
            s,
            g,
            proj,
            author,
            patch_head,
            target,
            mb,
            k - 1,
        ) {
            seq![k - 1]
        } else {
            Seq::empty()
        }
    }
}

/// Law: match specificity. An index is listed exactly when its patch is the
/// caller's own, proposed, with an unmerged latest revision whose head
/// differs from the working head and shares the given merge base with the
/// target.
pub proof fn lemma_candidate_indices_member(
    s: Seq<StoredPatch>,
    g: CommitGraph,
    proj: Seq<u8>,
    author: Seq<u8>,
    patch_head: Seq<u8>,
    target: int,
    mb: int,
    k: int,
    i: int,
)
    ensures
        candidate_indices(s, g, proj, author, patch_head, target, mb, k).contains(i) <==> (i < k
            && candidate(s, g, proj, author, patch_head, target, mb, i)),
    decreases k,
{
    if k > 0 {
        lemma_candidate_indices_member(s, g, proj, author, patch_head, target, mb, k - 1, i);
        let s0 = candidate_indices(s, g, proj, author, patch_head, target, mb, k - 1);
        let s1 = candidate_indices(s, g, proj, author, patch_head, target, mb, k);
        if i < k && candidate(s, g, proj, author, patch_head, target, mb, i) {
            if i == k - 1 {
                assert(s1.last() == i);
                assert(s1.contains(i));
            } else {
                let q = choose|q: int| 0 <= q < s0.len() && s0[q] == i;
                assert(s1[q] == i);
            }
        } else {
            if s1.contains(i) {
                let q = choose|q: int| 0 <= q < s1.len() && s1[q] == i;
                if q < s0.len() {
                    assert(s0[q] == i);
                    assert(s0.contains(i));
                }
            }
        }
    }
}

/// Finds the acting author's unmerged patches that fork from `merge_base`
/// with respect to the target at graph index `target`, excluding any patch
/// already at `patch_head`. Returns store entry indices in insertion order.
pub fn find_unmerged_with_base(
    store: &PatchStore,
    graph: &CommitGraph,
    project: &Urn,
    patch_head: &Oid,
    target: usize,
    merge_base: usize,
) -> (r: Vec<usize>)
    requires
        store.wf(),
        store.heads_in(*graph),
        graph.wf(),
        target < graph.commits@.len(),
        merge_base < graph.commits@.len(),
    ensures
        r@.map_values(|x: usize| x as int) == candidate_indices(
            store.entries@,
            *graph,
            project@,
            store.whoami.urn@,
            patch_head@,
            target as int,
            merge_base as int,
            store.entries@.len() as int,
        ),
{
    let n = store.entries.len();
    let mut out: Vec<usize> = Vec::new();
    let mut i: usize = 0;
    while i < n
        invariant
            store.wf(),
            store.heads_in(*graph),
            graph.wf(),
            target < graph.commits@.len(),
            merge_base < graph.commits@.len(),
            n == store.entries@.len(),
            i <= n,
            out@.map_values(|x: usize| x as int) == candidate_indices(
                store.entries@,
                *graph,
                project@,
                store.whoami.urn@,
                patch_head@,
                target as int,
                merge_base as int,
                i as int,
            ),
        decreases n - i,
    {
        let ghost prev = out@;
        let ghost gi = i as int;
        let entry = &store.entries[i];
        let is_candidate: bool = if !entry.urn.same(project) {
            false
        } else if !entry.patch.author.urn.same(&store.whoami.urn) {
            false
        } else if store.author_merged_at(i) {
            false
        } else {
            let last = entry.patch.revisions.len() - 1;
            let rev = &entry.patch.revisions[last];
            if rev.merges.len() != 0 {
                false
            } else if rev.oid.same(patch_head) {
                false
            } else {
                proof {
                    assert(graph.has_oid(store.entries@[gi].patch.revisions@[last as int].oid@));
                }
                let h = match graph.find_commit(&rev.oid) {
                    Some(h) => h,
                    None => {
                        proof {
                            assert(false);
                        }
                        0
                    },
                };
                match graph.merge_base(h, target) {
                    Some(m) => {
                        proof {
                            assert(is_merge_base_idx(*graph, h as int, target as int, m as int));
                            if m != merge_base {
                                if candidate(
                                    store.entries@,
                                    *graph,
                                    project@,
                                    store.whoami.urn@,
                                    patch_head@,
                                    target as int,
                                    merge_base as int,
                                    gi,
                                ) {
                                    let h2 = choose|h2: int|
                                        0 <= h2 < graph.commits@.len() && (
                                        #[trigger] graph.commits@[h2].oid@)
                                            == store.entries@[gi].patch.spec_latest().oid@
                                            && is_merge_base_idx(
                                            *graph,
                                            h2,
                                            target as int,
                                            merge_base as int,
                                        );
                                    assert(h2 == h as int);
                                    assert(common_ancestor(
                                        *graph,
                                        h as int,
                                        target as int,
                                        merge_base as int,
                                    ));
                                    assert(common_ancestor(
                                        *graph,
                                        h as int,
                                        target as int,
                                        m as int,
                                    ));
                                    assert(false);
                                }
                            } else {
                                assert(candidate(
                                    store.entries@,
                                    *graph,
                                    project@,
                                    store.whoami.urn@,
                                    patch_head@,
                                    target as int,
                                    merge_base as int,
                                    gi,
                                ));
                            }
                        }
                        m == merge_base
                    },
                    None => {
                        proof {
                            if candidate(
                                store.entries@,
                                *graph,
                                project@,
                                store.whoami.urn@,
                                patch_head@,
                                target as int,
                                merge_base as int,
                                gi,
                            ) {
                                let h2 = choose|h2: int|
                                    0 <= h2 < graph.commits@.len() && (
                                    #[trigger] graph.commits@[h2].oid@)
                                        == store.entries@[gi].patch.spec_latest().oid@
                                        && is_merge_base_idx(
                                        *graph,
                                        h2,
                                        target as int,
                                        merge_base as int,
                                    );
                                assert(h2 == h as int);
                                assert(common_ancestor(
                                    *graph,
                                    h as int,
                                    target as int,
                                    merge_base as int,
                                ));
                                assert(false);
                            }
                        }
                        false
                    },
                }
            }
        };
        proof {
            assert(is_candidate == candidate(
                store.entries@,
                *graph,
                project@,
                store.whoami.urn@,
                patch_head@,
                target as int,
                merge_base as int,
                gi,
            ));
        }
        if is_candidate {
            out.push(i);
            proof {
                assert(out@.map_values(|x: usize| x as int) =~= prev.map_values(
                    |x: usize| x as int,
                ) + seq![gi]);
            }
        }
        proof {
            assert(out@.map_values(|x: usize| x as int) =~= candidate_indices(
                store.entries@,
                *graph,
                project@,
                store.whoami.urn@,
                patch_head@,
                target as int,
                merge_base as int,
                gi + 1,
            ));
        }
        i = i + 1;
    }
    out
}

} // verus!
