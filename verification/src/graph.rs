//! A read-only view over a commit DAG.
//!
//! The engine works on an explicit copy of the commit graph: commits indexed
//! in topological order (every parent stands before its children), each
//! carrying its object id, its parent indices and its message. The queries a
//! patch needs — reachability, merge base, ahead/behind counts, the commit
//! set between a base and a tip — are verified against a recursive ancestor
//! relation over this structure.

use vstd::prelude::*;
use crate::ids::Oid;

verus! {

pub struct Commit {
    pub oid: Oid,
    /// Indices of the parent commits; each is smaller than the commit's own
    /// index, so the vector order is topological.
    pub parents: Vec<usize>,
    /// The commit message (UTF-8 bytes; the first line is the summary).
    pub message: Vec<u8>,
}

pub struct CommitGraph {
    pub commits: Vec<Commit>,
}

impl CommitGraph {
    /// Parents come before their children, and object ids are distinct.
    pub open spec fn wf(self) -> bool {
        &&& forall|i: int, k: int|
            0 <= i < self.commits@.len() && 0 <= k < self.commits@[i].parents@.len()
                ==> (#[trigger] self.commits@[i].parents@[k]) < i
        &&& forall|i: int, j: int|
            0 <= i < self.commits@.len() && 0 <= j < self.commits@.len() && i != j
                ==> #[trigger] self.commits@[i].oid@ != #[trigger] self.commits@[j].oid@
    }

    pub fn new() -> (r: CommitGraph)
        ensures
            r.wf(),
            r.commits@.len() == 0,
    {
        CommitGraph { commits: Vec::new() }
    }

    pub fn len(&self) -> (r: usize)
        ensures
            r == self.commits@.len(),
    {
        self.commits.len()
    }

    /// Finds the index of the commit with the given id.
    pub fn find_commit(&self, oid: &Oid) -> (r: Option<usize>)
        ensures
            match r {
                Some(i) => i < self.commits@.len() && self.commits@[i as int].oid@ == oid@,
                None => forall|i: int|
                    0 <= i < self.commits@.len() ==> (#[trigger] self.commits@[i].oid@) != oid@,
            },
    {
        let n = self.commits.len();
        let mut i: usize = 0;
        while i < n
            invariant
                n == self.commits@.len(),
                i <= n,
                forall|j: int| 0 <= j < i ==> (#[trigger] self.commits@[j].oid@) != oid@,
            decreases n - i,
        {
            if self.commits[i].oid.same(oid) {
                return Some(i);
            }
            i = i + 1;
        }
        None
    }

    /// A commit with this id exists in the graph.
    pub open spec fn has_oid(self, o: Seq<u8>) -> bool {
        exists|i: int| 0 <= i < self.commits@.len() && (#[trigger] self.commits@[i].oid@) == o
    }

    /// Whether a commit with this id exists in the graph.
    pub fn contains(&self, oid: &Oid) -> (r: bool)
        ensures
            r == self.has_oid(oid@),
    {
        match self.find_commit(oid) {
            Some(i) => {
                proof {
                    assert(0 <= i < self.commits@.len() && self.commits@[i as int].oid@ == oid@);
                }
                true
            },
            None => false,
        }
    }

    /// Appends a commit. Rejected if a parent index is out of range or not
    /// older than the new commit's position, or if the id already occurs, so
    /// well-formedness is preserved.
    pub fn add_commit(&mut self, oid: Oid, parents: Vec<usize>, message: Vec<u8>) -> (r: bool)
        requires
            old(self).wf(),
        ensures
            final(self).wf(),
            r ==> final(self).commits@.len() == old(self).commits@.len() + 1,
            r ==> final(self).commits@.take(old(self).commits@.len() as int) == old(self).commits@,
            r ==> final(self).commits@.last().oid@ == oid@,
            r ==> final(self).commits@.last().parents@ == parents@,
            r ==> final(self).commits@.last().message@ == message@,
            !r ==> *final(self) == *old(self),
    {
        let n = self.commits.len();
        if self.contains(&oid) {
            return false;
        }
        let mut k: usize = 0;
        let np = parents.len();
        while k < np
            invariant
                np == parents@.len(),
                k <= np,
                n == self.commits@.len(),
                *self == *old(self),
                self.wf(),
                forall|q: int| 0 <= q < k ==> (#[trigger] parents@[q]) < n,
            decreases np - k,
        {
            if parents[k] >= n {
                return false;
            }
            k = k + 1;
        }
        let ghost fresh = oid@;
        let ghost pars = parents@;
        self.commits.push(Commit { oid, parents, message });
        proof {
            assert(self.commits@.take(n as int) =~= old(self).commits@);
            assert forall|i: int, kk: int|
                0 <= i < self.commits@.len() && 0 <= kk < self.commits@[i].parents@.len()
                implies (#[trigger] self.commits@[i].parents@[kk]) < i by {
                if i < n {
                    assert(self.commits@[i] == old(self).commits@[i]);
                } else {
                    assert(self.commits@[i].parents@ == pars);
                    assert(pars[kk] < n);
                }
            }
            assert forall|i: int, j: int|
                0 <= i < self.commits@.len() && 0 <= j < self.commits@.len() && i != j
                implies #[trigger] self.commits@[i].oid@ != #[trigger] self.commits@[j].oid@ by {
                if i < n && j < n {
                    assert(self.commits@[i] == old(self).commits@[i]);
                    assert(self.commits@[j] == old(self).commits@[j]);
                } else if i < n {
                    assert(self.commits@[j].oid@ == fresh);
                    assert(old(self).commits@[i].oid@ != fresh);
                } else {
                    assert(self.commits@[i].oid@ == fresh);
                    assert(old(self).commits@[j].oid@ != fresh);
                }
            }
        }
        true
    }
}

/// The set of indices reachable from commit `i` by following parent edges
/// (including `i` itself).
pub open spec fn ancestors(g: CommitGraph, i: int) -> Set<int>
    decreases i, g.commits@[i].parents@.len() + 1,
{
    if 0 <= i < g.commits@.len() {
        set![i].union(parent_ancestors(g, i, g.commits@[i].parents@.len() as int))
    } else {
        Set::empty()
    }
}

/// The union of the ancestor sets of the first `k` parents of commit `i`.
pub open spec fn parent_ancestors(g: CommitGraph, i: int, k: int) -> Set<int>
    decreases i, k,
{
    if 0 <= i && 0 < k <= g.commits@[i].parents@.len() {
        let p = g.commits@[i].parents@[k - 1] as int;
        parent_ancestors(g, i, k - 1).union(
            if p < i {
                ancestors(g, p)
            } else {
                Set::empty()
            },
        )
    } else {
        Set::empty()
    }
}

/// `j` lies in the ancestor union of the first `k` parents exactly when some
/// parent among them reaches it.
pub proof fn lemma_parent_ancestors_member(g: CommitGraph, i: int, k: int, j: int)
    requires
        0 <= i < g.commits@.len(),
        0 <= k <= g.commits@[i].parents@.len(),
    ensures
        parent_ancestors(g, i, k).contains(j) <==> exists|q: int|
            0 <= q < k && (#[trigger] g.commits@[i].parents@[q]) < i && ancestors(
                g,
                g.commits@[i].parents@[q] as int,
            ).contains(j),
    decreases k,
{
    if k > 0 {
        lemma_parent_ancestors_member(g, i, k - 1, j);
    }
}

/// Every ancestor index lies between 0 and the commit's own index.
pub proof fn lemma_ancestors_bound(g: CommitGraph, i: int, j: int)
    requires
        ancestors(g, i).contains(j),
    ensures
        0 <= j <= i,
        i < g.commits@.len(),
    decreases i,
{
    if 0 <= i < g.commits@.len() {
        if j != i {
            lemma_parent_ancestors_member(g, i, g.commits@[i].parents@.len() as int, j);
            let q = choose|q: int|
                0 <= q < g.commits@[i].parents@.len() && (#[trigger] g.commits@[i].parents@[q]) < i
                    && ancestors(g, g.commits@[i].parents@[q] as int).contains(j);
            lemma_ancestors_bound(g, g.commits@[i].parents@[q] as int, j);
        }
    }
}

/// Reachability is transitive: what an ancestor reaches, the commit reaches.
pub proof fn lemma_ancestors_transitive(g: CommitGraph, i: int, m: int, j: int)
    requires
        ancestors(g, i).contains(m),
        ancestors(g, m).contains(j),
    ensures
        ancestors(g, i).contains(j),
    decreases i,
{
    lemma_ancestors_bound(g, i, m);
    if m != i {
        lemma_parent_ancestors_member(g, i, g.commits@[i].parents@.len() as int, m);
        let q = choose|q: int|
            0 <= q < g.commits@[i].parents@.len() && (#[trigger] g.commits@[i].parents@[q]) < i
                && ancestors(g, g.commits@[i].parents@[q] as int).contains(m);
        let p = g.commits@[i].parents@[q] as int;
        lemma_ancestors_transitive(g, p, m, j);
        lemma_parent_ancestors_member(g, i, g.commits@[i].parents@.len() as int, j);
    }
}

impl CommitGraph {
    fn false_row(n: usize) -> (r: Vec<bool>)
        ensures
            r@.len() == n,
            forall|j: int| 0 <= j < n ==> !(#[trigger] r@[j]),
    {
        let mut row: Vec<bool> = Vec::new();
        let mut i: usize = 0;
        while i < n
            invariant
                i <= n,
                row@.len() == i,
                forall|j: int| 0 <= j < i ==> !(#[trigger] row@[j]),
            decreases n - i,
        {
            row.push(false);
            i = i + 1;
        }
        row
    }

    /// Computes, for every commit, the characteristic vector of its ancestor
    /// set, following the recursive definition bottom-up.
    pub fn ancestor_rows(&self) -> (rows: Vec<Vec<bool>>)
        requires
            self.wf(),
        ensures
            rows@.len() == self.commits@.len(),
            forall|i: int|
                0 <= i < rows@.len() ==> (#[trigger] rows@[i])@.len() == self.commits@.len(),
            forall|i: int, j: int|
                0 <= i < rows@.len() && 0 <= j < rows@.len() ==> ((#[trigger] rows@[i]@[j])
                    <==> ancestors(*self, i).contains(j)),
    {
        let n = self.commits.len();
        let mut rows: Vec<Vec<bool>> = Vec::new();
        let mut i: usize = 0;
        while i < n
            invariant
                self.wf(),
                n == self.commits@.len(),
                i <= n,
                rows@.len() == i,
                forall|a: int| 0 <= a < i ==> (#[trigger] rows@[a])@.len() == n,
                forall|a: int, j: int|
                    0 <= a < i && 0 <= j < n ==> ((#[trigger] rows@[a]@[j]) <==> ancestors(
                        *self,
                        a,
                    ).contains(j)),
            decreases n - i,
        {
            let mut row = Self::false_row(n);
            row.set(i, true);
            let np = self.commits[i].parents.len();
            let mut k: usize = 0;
            while k < np
                invariant
                    self.wf(),
                    n == self.commits@.len(),
                    i < n,
                    np == self.commits@[i as int].parents@.len(),
                    k <= np,
                    rows@.len() == i,
                    forall|a: int| 0 <= a < i ==> (#[trigger] rows@[a])@.len() == n,
                    forall|a: int, j: int|
                        0 <= a < i && 0 <= j < n ==> ((#[trigger] rows@[a]@[j]) <==> ancestors(
                            *self,
                            a,
                        ).contains(j)),
                    row@.len() == n,
                    forall|j: int|
                        0 <= j < n ==> ((#[trigger] row@[j]) <==> (j == i || parent_ancestors(
                            *self,
                            i as int,
                            k as int,
                        ).contains(j))),
                decreases np - k,
            {
                let p = self.commits[i].parents[k];
                assert(p < i);
                let ghost prev_row = row@;
                let mut j: usize = 0;
                while j < n
                    invariant
                        n == self.commits@.len(),
                        p < i < n,
                        rows@.len() == i,
                        forall|a: int| 0 <= a < i ==> (#[trigger] rows@[a])@.len() == n,
                        forall|a: int, jj: int|
                            0 <= a < i && 0 <= jj < n ==> ((#[trigger] rows@[a]@[jj])
                                <==> ancestors(*self, a).contains(jj)),
                        j <= n,
                        row@.len() == n,
                        prev_row.len() == n,
                        forall|jj: int|
                            0 <= jj < j ==> ((#[trigger] row@[jj]) <==> (prev_row[jj] || ancestors(
                                *self,
                                p as int,
                            ).contains(jj))),
                        forall|jj: int| j <= jj < n ==> (#[trigger] row@[jj]) == prev_row[jj],
                    decreases n - j,
                {
                    if rows[p][j] {
                        row.set(j, true);
                    }
                    j = j + 1;
                }
                proof {
                    assert forall|jj: int| 0 <= jj < n implies ((#[trigger] row@[jj]) <==> (jj == i
                        || parent_ancestors(*self, i as int, k + 1 as int).contains(jj))) by {
                        assert(parent_ancestors(*self, i as int, k + 1 as int).contains(jj) <==> (
                        parent_ancestors(*self, i as int, k as int).contains(jj) || ancestors(
                            *self,
                            p as int,
                        ).contains(jj)));
                    }
                }
                k = k + 1;
            }
            proof {
                assert forall|j: int| 0 <= j < n implies ((#[trigger] row@[j]) <==> ancestors(
                    *self,
                    i as int,
                ).contains(j)) by {
                    assert(ancestors(*self, i as int) == set![i as int].union(
                        parent_ancestors(*self, i as int, np as int),
                    ));
                }
            }
            rows.push(row);
            i = i + 1;
        }
        rows
    }

    /// The characteristic vector of the ancestor set of one commit.
    pub fn ancestors_of(&self, t: usize) -> (row: Vec<bool>)
        requires
            self.wf(),
            t < self.commits@.len(),
        ensures
            row@.len() == self.commits@.len(),
            forall|j: int|
                0 <= j < row@.len() ==> ((#[trigger] row@[j]) <==> ancestors(*self, t as int)
                    .contains(j)),
    {
        let rows = self.ancestor_rows();
        let n = self.commits.len();
        let mut row: Vec<bool> = Vec::new();
        let mut j: usize = 0;
        while j < n
            invariant
                n == self.commits@.len(),
                t < n,
                rows@.len() == n,
                forall|a: int| 0 <= a < n ==> (#[trigger] rows@[a])@.len() == n,
                forall|a: int, jj: int|
                    0 <= a < n && 0 <= jj < n ==> ((#[trigger] rows@[a]@[jj]) <==> ancestors(
                        *self,
                        a,
                    ).contains(jj)),
                j <= n,
                row@.len() == j,
                forall|jj: int|
                    0 <= jj < j ==> ((#[trigger] row@[jj]) <==> ancestors(*self, t as int).contains(
                        jj,
                    )),
            decreases n - j,
        {
            row.push(rows[t][j]);
            j = j + 1;
        }
        row
    }
}

/// `j` is an ancestor of both `a` and `b`.
pub open spec fn common_ancestor(g: CommitGraph, a: int, b: int, j: int) -> bool {
    ancestors(g, a).contains(j) && ancestors(g, b).contains(j)
}

impl CommitGraph {
    /// The merge base of two commits: their topologically newest common
    /// ancestor, `None` if the histories are unrelated.
    pub fn merge_base(&self, a: usize, b: usize) -> (r: Option<usize>)
        requires
            self.wf(),
            a < self.commits@.len(),
            b < self.commits@.len(),
        ensures
            match r {
                Some(m) => m < self.commits@.len() && common_ancestor(*self, a as int, b as int, m as int)
                    && forall|j: int|
                    m < j < self.commits@.len() ==> !common_ancestor(*self, a as int, b as int, j),
                None => forall|j: int|
                    0 <= j < self.commits@.len() ==> !common_ancestor(*self, a as int, b as int, j),
            },
    {
        let ra = self.ancestors_of(a);
        let rb = self.ancestors_of(b);
        let n = self.commits.len();
        let mut j: usize = n;
        while j > 0
            invariant
                n == self.commits@.len(),
                a < n,
                b < n,
                j <= n,
                ra@.len() == n,
                rb@.len() == n,
                forall|jj: int|
                    0 <= jj < n ==> ((#[trigger] ra@[jj]) <==> ancestors(*self, a as int).contains(
                        jj,
                    )),
                forall|jj: int|
                    0 <= jj < n ==> ((#[trigger] rb@[jj]) <==> ancestors(*self, b as int).contains(
                        jj,
                    )),
                forall|jj: int| j <= jj < n ==> !common_ancestor(*self, a as int, b as int, jj),
            decreases j,
        {
            j = j - 1;
            if ra[j] && rb[j] {
                return Some(j);
            }
        }
        None
    }
}

/// The number of indices below `k` reachable from `a` but not from `b`.
pub open spec fn count_only_in(g: CommitGraph, a: int, b: int, k: int) -> int
    decreases k,
{
    if k <= 0 {
        0
    } else {
        count_only_in(g, a, b, k - 1) + if ancestors(g, a).contains(k - 1) && !ancestors(
            g,
            b,
        ).contains(k - 1) {
            1int
        } else {
            0int
        }
    }
}

impl CommitGraph {
    /// Counts the commits reachable from `a` but not `b`, and from `b` but
    /// not `a`.
    pub fn ahead_behind(&self, a: usize, b: usize) -> (r: (usize, usize))
        requires
            self.wf(),
            a < self.commits@.len(),
            b < self.commits@.len(),
        ensures
            r.0 == count_only_in(*self, a as int, b as int, self.commits@.len() as int),
            r.1 == count_only_in(*self, b as int, a as int, self.commits@.len() as int),
    {
        let ra = self.ancestors_of(a);
        let rb = self.ancestors_of(b);
        let n = self.commits.len();
        let mut ahead: usize = 0;
        let mut behind: usize = 0;
        let mut j: usize = 0;
        while j < n
            invariant
                n == self.commits@.len(),
                a < n,
                b < n,
                j <= n,
                ra@.len() == n,
                rb@.len() == n,
                forall|jj: int|
                    0 <= jj < n ==> ((#[trigger] ra@[jj]) <==> ancestors(*self, a as int).contains(
                        jj,
                    )),
                forall|jj: int|
                    0 <= jj < n ==> ((#[trigger] rb@[jj]) <==> ancestors(*self, b as int).contains(
                        jj,
                    )),
                ahead == count_only_in(*self, a as int, b as int, j as int),
                behind == count_only_in(*self, b as int, a as int, j as int),
                ahead <= j,
                behind <= j,
            decreases n - j,
        {
            if ra[j] && !rb[j] {
                ahead = ahead + 1;
            }
            if rb[j] && !ra[j] {
                behind = behind + 1;
            }
            j = j + 1;
        }
        (ahead, behind)
    }
}

/// `j` belongs to the patch from `base` to `tip`: reachable from the tip but
/// not from the base.
pub open spec fn in_patch(g: CommitGraph, base: int, tip: int, j: int) -> bool {
    ancestors(g, tip).contains(j) && !ancestors(g, base).contains(j)
}

/// The indices below `k` that belong to the patch from `base` to `tip`, in
/// ascending (topological) order.
pub open spec fn patch_indices(g: CommitGraph, base: int, tip: int, k: int) -> Seq<int>
    decreases k,
{
    if k <= 0 {
        Seq::empty()
    } else {
        patch_indices(g, base, tip, k - 1) + if in_patch(g, base, tip, k - 1) {
            seq![k - 1]
        } else {
            Seq::empty()
        }
    }
}

/// Membership in `patch_indices` is exactly patch membership below `k`.
pub proof fn lemma_patch_indices_member(g: CommitGraph, base: int, tip: int, k: int, j: int)
    ensures
        patch_indices(g, base, tip, k).contains(j) <==> (0 <= j < k && in_patch(g, base, tip, j)),
    decreases k,
{
    if k > 0 {
        lemma_patch_indices_member(g, base, tip, k - 1, j);
        if 0 <= j < k && in_patch(g, base, tip, j) {
            if j == k - 1 {
                let s = patch_indices(g, base, tip, k);
                assert(s.last() == j);
                assert(s.contains(j));
            } else {
                let s0 = patch_indices(g, base, tip, k - 1);
                let idx = choose|q: int| 0 <= q < s0.len() && s0[q] == j;
                assert(patch_indices(g, base, tip, k)[idx] == j);
            }
        } else {
            if patch_indices(g, base, tip, k).contains(j) {
                let s = patch_indices(g, base, tip, k);
                let s0 = patch_indices(g, base, tip, k - 1);
                let idx = choose|q: int| 0 <= q < s.len() && s[q] == j;
                if idx < s0.len() {
                    assert(s0[idx] == j);
                    assert(s0.contains(j));
                }
            }
        }
    }
}

/// `patch_indices` is strictly ascending.
pub proof fn lemma_patch_indices_sorted(g: CommitGraph, base: int, tip: int, k: int)
    ensures
        forall|q1: int, q2: int|
            0 <= q1 < q2 < patch_indices(g, base, tip, k).len()
                ==> #[trigger] patch_indices(g, base, tip, k)[q1] < #[trigger] patch_indices(
                g,
                base,
                tip,
                k,
            )[q2],
        forall|q: int|
            0 <= q < patch_indices(g, base, tip, k).len() ==> #[trigger] patch_indices(
                g,
                base,
                tip,
                k,
            )[q] < k,
    decreases k,
{
    if k > 0 {
        lemma_patch_indices_sorted(g, base, tip, k - 1);
        let s0 = patch_indices(g, base, tip, k - 1);
        let s = patch_indices(g, base, tip, k);
        if in_patch(g, base, tip, k - 1) {
            assert(s == s0 + seq![k - 1]);
            assert forall|q: int| 0 <= q < s.len() implies #[trigger] s[q] < k by {
                if q < s0.len() {
                    assert(s[q] == s0[q]);
                } else {
                    assert(s[q] == k - 1);
                }
            }
            assert forall|q1: int, q2: int| 0 <= q1 < q2 < s.len() implies #[trigger] s[q1]
                < #[trigger] s[q2] by {
                assert(s[q1] == s0[q1]);
                if q2 < s0.len() {
                    assert(s[q2] == s0[q2]);
                } else {
                    assert(s[q2] == k - 1);
                    assert(s0[q1] < k - 1);
                }
            }
        } else {
            assert(s =~= s0);
        }
    }
}

impl CommitGraph {
    /// The minimal commit set a patch carries: every commit reachable from
    /// `tip` but not from `base`, oldest first.
    pub fn commits_between(&self, base: usize, tip: usize) -> (r: Vec<usize>)
        requires
            self.wf(),
            base < self.commits@.len(),
            tip < self.commits@.len(),
        ensures
            r@.map_values(|x: usize| x as int) == patch_indices(
                *self,
                base as int,
                tip as int,
                self.commits@.len() as int,
            ),
    {
        let rb = self.ancestors_of(base);
        let rt = self.ancestors_of(tip);
        let n = self.commits.len();
        let mut out: Vec<usize> = Vec::new();
        let mut j: usize = 0;
        while j < n
            invariant
                n == self.commits@.len(),
                base < n,
                tip < n,
                j <= n,
                rb@.len() == n,
                rt@.len() == n,
                forall|jj: int|
                    0 <= jj < n ==> ((#[trigger] rb@[jj]) <==> ancestors(
                        *self,
                        base as int,
                    ).contains(jj)),
                forall|jj: int|
                    0 <= jj < n ==> ((#[trigger] rt@[jj]) <==> ancestors(
                        *self,
                        tip as int,
                    ).contains(jj)),
                out@.map_values(|x: usize| x as int) == patch_indices(
                    *self,
                    base as int,
                    tip as int,
                    j as int,
                ),
            decreases n - j,
        {
            let ghost prev = out@;
            if rt[j] && !rb[j] {
                out.push(j);
                proof {
                    assert(out@.map_values(|x: usize| x as int) =~= prev.map_values(
                        |x: usize| x as int,
                    ) + seq![j as int]);
                }
            }
            proof {
                assert(out@.map_values(|x: usize| x as int) =~= patch_indices(
                    *self,
                    base as int,
                    tip as int,
                    j + 1 as int,
                ));
            }
            j = j + 1;
        }
        out
    }
}

/// Law: the patch commit set is minimal. When every common ancestor of `a`
/// and `b` is reachable from the merge base `m`, the commits between `m` and
/// `b` are exactly those reachable from `b` and not from `a`, listed in
/// ascending topological order. (With several maximal common ancestors —
/// a criss-cross history — the premise fails and the set from `m` can be
/// larger.)
pub proof fn lemma_commit_set_minimality(g: CommitGraph, a: int, b: int, m: int)
    requires
        g.wf(),
        0 <= a < g.commits@.len(),
        0 <= b < g.commits@.len(),
        common_ancestor(g, a, b, m),
        forall|c: int| common_ancestor(g, a, b, c) ==> ancestors(g, m).contains(c),
    ensures
        forall|j: int|
            #[trigger] patch_indices(g, m, b, g.commits@.len() as int).contains(j) <==> (ancestors(
                g,
                b,
            ).contains(j) && !ancestors(g, a).contains(j)),
        forall|q1: int, q2: int|
            0 <= q1 < q2 < patch_indices(g, m, b, g.commits@.len() as int).len()
                ==> #[trigger] patch_indices(g, m, b, g.commits@.len() as int)[q1]
                < #[trigger] patch_indices(g, m, b, g.commits@.len() as int)[q2],
{
    let n = g.commits@.len() as int;
    lemma_patch_indices_sorted(g, m, b, n);
    assert forall|j: int|
        #[trigger] patch_indices(g, m, b, n).contains(j) <==> (ancestors(g, b).contains(j)
            && !ancestors(g, a).contains(j)) by {
        lemma_patch_indices_member(g, m, b, n, j);
        if ancestors(g, b).contains(j) {
            lemma_ancestors_bound(g, b, j);
            if ancestors(g, a).contains(j) {
                // A common ancestor is below the merge base, hence excluded
                // from the patch set.
                assert(common_ancestor(g, a, b, j));
                assert(ancestors(g, m).contains(j));
            } else {
                // Anything the merge base reaches, `a` reaches too.
                if ancestors(g, m).contains(j) {
                    lemma_ancestors_transitive(g, a, m, j);
                }
            }
        }
    }
}

} // verus!
