//! The list flow: presenting proposed patches.
//!
//! Listing takes the store by shared reference, so it cannot mutate it. It
//! partitions the proposed patches into the author's own and everyone
//! else's, and orders each patch's newest revision events — merges and
//! reviews share one timeline — by timestamp.

use vstd::prelude::*;
use crate::ids::Urn;
use crate::store::{PatchStore, Revision, StoredPatch};

verus! {

/// The indices of proposed patches under `proj` by authors other than
/// `author`, in insertion order.
pub open spec fn other_indices(s: Seq<StoredPatch>, author: Seq<u8>, proj: Seq<u8>, k: int) -> Seq<
    int,
>
    decreases k,
{
    if k <= 0 {
        Seq::empty()
    } else {
        other_indices(s, author, proj, k - 1) + if s[k - 1].urn@ == proj && s[k
            - 1].patch.is_proposed() && s[k - 1].patch.author.urn@ != author {
            seq![k - 1]
        } else {
            Seq::empty()
        }
    }
}

/// Partitions the proposed patches of a project into the acting author's
/// own and the other peers', in insertion order. The store is only read:
/// listing never mutates it.
pub fn partition_proposed(store: &PatchStore, project: &Urn) -> (r: (Vec<usize>, Vec<usize>))
    requires
        store.wf(),
    ensures
        r.0@.map_values(|x: usize| x as int) == crate::store::proposed_by_indices(
            store.entries@,
            store.whoami.urn@,
            project@,
            store.entries@.len() as int,
        ),
        r.1@.map_values(|x: usize| x as int) == other_indices(
            store.entries@,
            store.whoami.urn@,
            project@,
            store.entries@.len() as int,
        ),
{
    let own = store.proposed_by(&store.whoami.urn, project);
    let n = store.entries.len();
    let mut other: Vec<usize> = Vec::new();
    let mut i: usize = 0;
    while i < n
        invariant
            store.wf(),
            n == store.entries@.len(),
            i <= n,
            other@.map_values(|x: usize| x as int) == other_indices(
                store.entries@,
                store.whoami.urn@,
                project@,
                i as int,
            ),
        decreases n - i,
    {
        let ghost prev = other@;
        if store.entries[i].urn.same(project) && !store.entries[i].patch.author.urn.same(
            &store.whoami.urn,
        ) && !store.author_merged_at(i) {
            other.push(i);
            proof {
                assert(other@.map_values(|x: usize| x as int) =~= prev.map_values(
                    |x: usize| x as int,
                ) + seq![i as int]);
            }
        }
        proof {
            assert(other@.map_values(|x: usize| x as int) =~= other_indices(
                store.entries@,
                store.whoami.urn@,
                project@,
                i + 1 as int,
            ));
        }
        i = i + 1;
    }
    (own, other)
}

/// A reference to one event on a revision's timeline.
#[derive(Clone, Copy, PartialEq, Eq, Structural, Debug)]
pub struct EventRef {
    /// A merge event (true) or a review event (false).
    pub is_merge: bool,
    /// Index into the revision's merges or reviews.
    pub index: usize,
}

/// The referenced event is inside the revision.
pub open spec fn event_in_range(rev: Revision, e: EventRef) -> bool {
    if e.is_merge {
        e.index < rev.merges@.len()
    } else {
        e.index < rev.reviews@.len()
    }
}

/// The timestamp of the referenced event.
pub open spec fn event_ts(rev: Revision, e: EventRef) -> i64 {
    if e.is_merge {
        rev.merges@[e.index as int].timestamp
    } else {
        rev.reviews@[e.index as int].1.timestamp
    }
}

fn ref_ts(rev: &Revision, e: EventRef) -> (r: i64)
    requires
        event_in_range(*rev, e),
    ensures
        r == event_ts(*rev, e),
{
    if e.is_merge {
        rev.merges[e.index].timestamp
    } else {
        rev.reviews[e.index].1.timestamp
    }
}

/// The merge and review events of a revision on one timeline, sorted by
/// timestamp ascending. The references are a permutation of all the
/// revision's events: each is in range, none repeats, and the count is the
/// total event count.
pub fn timeline(rev: &Revision) -> (r: Vec<EventRef>)
    ensures
        r@.len() == rev.merges@.len() + rev.reviews@.len(),
        forall|p: int| 0 <= p < r@.len() ==> event_in_range(*rev, #[trigger] r@[p]),
        forall|p: int, q: int| 0 <= p < q < r@.len() ==> r@[p] != r@[q],
        forall|p: int, q: int|
            0 <= p < q < r@.len() ==> event_ts(*rev, r@[p]) <= event_ts(*rev, r@[q]),
{
    let nm = rev.merges.len();
    let nr = rev.reviews.len();
    let mut v: Vec<EventRef> = Vec::new();
    let mut i: usize = 0;
    while i < nm
        invariant
            nm == rev.merges@.len(),
            i <= nm,
            v@.len() == i,
            forall|p: int| 0 <= p < i ==> #[trigger] v@[p] == (EventRef { is_merge: true, index: p as usize }),
        decreases nm - i,
    {
        v.push(EventRef { is_merge: true, index: i });
        i = i + 1;
    }
    let mut k: usize = 0;
    while k < nr
        invariant
            nm == rev.merges@.len(),
            nr == rev.reviews@.len(),
            k <= nr,
            v@.len() == nm + k,
            forall|p: int|
                0 <= p < nm ==> #[trigger] v@[p] == (EventRef { is_merge: true, index: p as usize }),
            forall|p: int|
                nm <= p < nm + k ==> #[trigger] v@[p] == (EventRef {
                    is_merge: false,
                    index: (p - nm) as usize,
                }),
        decreases nr - k,
    {
        v.push(EventRef { is_merge: false, index: k });
        k = k + 1;
    }
    proof {
        assert forall|p: int, q: int| 0 <= p < q < v@.len() implies v@[p] != v@[q] by {
            if q < nm {
                assert(v@[p].index != v@[q].index);
            } else if p >= nm {
                assert(v@[p].index != v@[q].index);
            } else {
                assert(v@[p].is_merge != v@[q].is_merge);
            }
        }
    }
    let n = v.len();
    if n == 0 {
        return v;
    }
    let mut i2: usize = 1;
    while i2 < n
        invariant
            n == v@.len(),
            nm == rev.merges@.len(),
            nr == rev.reviews@.len(),
            n == nm + nr,
            1 <= i2 <= n,
            forall|p: int| 0 <= p < n ==> event_in_range(*rev, #[trigger] v@[p]),
            forall|p: int, q: int| 0 <= p < q < n ==> v@[p] != v@[q],
            forall|p: int, q: int|
                0 <= p < q < i2 ==> event_ts(*rev, v@[p]) <= event_ts(*rev, v@[q]),
        decreases n - i2,
    {
        let mut j: usize = i2;
        while j > 0 && ref_ts(rev, v[j - 1]) > ref_ts(rev, v[j])
            invariant
                n == v@.len(),
                j <= i2 < n,
                forall|p: int| 0 <= p < n ==> event_in_range(*rev, #[trigger] v@[p]),
                forall|p: int, q: int| 0 <= p < q < n ==> v@[p] != v@[q],
                forall|p: int, q: int|
                    0 <= p < q <= i2 && q != j ==> event_ts(*rev, v@[p]) <= event_ts(
                        *rev,
                        v@[q],
                    ),
            decreases j,
        {
            let ghost before = v@;
            let a = v[j - 1];
            let b = v[j];
            v.set(j - 1, b);
            v.set(j, a);
            proof {
                assert forall|p: int, q: int| 0 <= p < q < n implies v@[p] != v@[q] by {
                    if p == j - 1 && q == j {
                        assert(before[p] != before[q]);
                    } else if q == j - 1 || q == j {
                        assert(v@[q] == before[j - 1 as int] || v@[q] == before[j as int]);
                        assert(v@[p] == before[p]);
                    } else if p == j - 1 || p == j {
                        assert(v@[p] == before[j - 1 as int] || v@[p] == before[j as int]);
                        assert(v@[q] == before[q]);
                    }
                }
                assert forall|p: int, q: int|
                    0 <= p < q <= i2 && q != j - 1 implies event_ts(*rev, v@[p]) <= event_ts(
                    *rev,
                    v@[q],
                ) by {
                    if q == j {
                        if p < j - 1 {
                            assert(v@[q] == before[j - 1 as int]);
                            assert(v@[p] == before[p]);
                            assert(event_ts(*rev, before[p]) <= event_ts(*rev, before[j - 1 as int]));
                        } else {
                            assert(p == j - 1);
                            assert(v@[p] == before[j as int]);
                            assert(v@[q] == before[j - 1 as int]);
                        }
                    } else {
                        assert(v@[q] == before[q]);
                        if p == j - 1 {
                            assert(v@[p] == before[j as int]);
                            assert(event_ts(*rev, before[j as int]) <= event_ts(*rev, before[q]));
                        } else if p == j {
                            assert(v@[p] == before[j - 1 as int]);
                            assert(event_ts(*rev, before[j - 1 as int]) <= event_ts(*rev, before[q]));
                        } else {
                            assert(v@[p] == before[p]);
                        }
                    }
                }
            }
            j = j - 1;
        }
        proof {
            assert forall|p: int, q: int| 0 <= p < q <= i2 implies event_ts(*rev, v@[p])
                <= event_ts(*rev, v@[q]) by {
                if q == j && j > 0 {
                    if p < j - 1 {
                        assert(event_ts(*rev, v@[p]) <= event_ts(*rev, v@[j - 1 as int]));
                    }
                }
            }
        }
        i2 = i2 + 1;
    }
    v
}

} // verus!
