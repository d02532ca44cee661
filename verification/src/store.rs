//! The typed view over the collaborative-object store for patches.
//!
//! A patch records a proposed head commit and its history of revisions;
//! peers attach merges and reviews to revisions. The store enforces the
//! schema: every patch has at least one revision, revisions are append-only,
//! a new revision's head must exist in the monorepo and differ from the
//! previous one, and the version of a patch is always the index of its
//! latest revision.

use vstd::prelude::*;
use crate::bytes::{bytes_copy, is_prefix, starts_with};
use crate::graph::CommitGraph;
use crate::ids::{CobIdentifier, Oid, PatchId, PeerId, Urn};

verus! {

/// Where a patch asks to be merged; the project's upstream default branch is
/// the only target this engine produces.
pub enum MergeTarget {
    Upstream,
}

pub enum Verdict {
    Accept,
    Reject,
    Pass,
}

/// A display name fetched on demand; failure to resolve is never fatal.
pub enum Lazy {
    Unresolved,
    Resolved(Vec<u8>),
    Failed,
}

pub struct Author {
    pub urn: Urn,
    pub peer: PeerId,
    pub name: Lazy,
}

pub struct Review {
    pub author: Author,
    pub verdict: Verdict,
    pub timestamp: i64,
    pub comment: Option<Vec<u8>>,
}

/// A peer's record that it merged the patch head into its own branch.
pub struct Merge {
    pub peer: PeerId,
    pub timestamp: i64,
    pub base_oid: Oid,
}

pub struct Revision {
    pub oid: Oid,
    pub comment: Vec<u8>,
    pub merges: Vec<Merge>,
    pub reviews: Vec<(PeerId, Review)>,
}

pub struct Patch {
    pub author: Author,
    pub title: Vec<u8>,
    pub description: Vec<u8>,
    pub target: MergeTarget,
    pub timestamp: i64,
    pub revisions: Vec<Revision>,
}

impl Patch {
    /// A patch always carries at least one revision.
    pub open spec fn wf(self) -> bool {
        self.revisions@.len() >= 1
    }

    /// The version of a patch is the index of its latest revision.
    pub open spec fn spec_version(self) -> int {
        self.revisions@.len() - 1
    }

    pub open spec fn spec_latest(self) -> Revision {
        self.revisions@.last()
    }

    /// The latest revision and its version number.
    pub fn latest(&self) -> (r: (usize, &Revision))
        requires
            self.wf(),
        ensures
            r.0 == self.spec_version(),
            *r.1 == self.spec_latest(),
    {
        let v = self.revisions.len() - 1;
        (v, &self.revisions[v])
    }

    /// The currently proposed head commit.
    pub fn head(&self) -> (r: &Oid)
        requires
            self.wf(),
        ensures
            r@ == self.spec_latest().oid@,
    {
        let v = self.revisions.len() - 1;
        &self.revisions[v].oid
    }

    /// The author has merged the latest revision into their own target
    /// branch: the patch is done from its author's point of view.
    pub open spec fn author_merged(self) -> bool {
        exists|k: int|
            0 <= k < self.spec_latest().merges@.len() && (#[trigger] self.spec_latest().merges@[k].peer@)
                == self.author.peer@
    }

    /// A patch counts as proposed while it has a revision its author has not
    /// merged.
    pub open spec fn is_proposed(self) -> bool {
        self.wf() && !self.author_merged()
    }
}

/// The acting author's identity: the urn and peer id patches are attributed
/// to.
pub struct LocalIdentity {
    pub urn: Urn,
    pub peer: PeerId,
}

/// One patch object as stored: its id, the project it belongs to, and its
/// document.
pub struct StoredPatch {
    pub id: PatchId,
    pub urn: Urn,
    pub patch: Patch,
}

/// One byte of the little-endian encoding of a fresh-id counter.
pub open spec fn id_byte(x: u64, k: int) -> u64 {
    (x >> ((8 * k) as u64)) & 0xff
}

/// The byte string a fresh-id counter is rendered as.
pub open spec fn id_bytes(x: u64) -> Seq<u8> {
    Seq::new(8, |k: int| id_byte(x, k) as u8)
}

proof fn lemma_id_byte_small(x: u64, k: u64)
    requires
        k < 8,
    ensures
        (x >> (8 * k)) & 0xff < 256,
{
    assert((x >> (8 * k)) & 0xff < 256) by (bit_vector);
}

proof fn lemma_id_byte_eq(x: u64, y: u64, k: u64)
    requires
        k < 8,
        id_bytes(x) == id_bytes(y),
    ensures
        (x >> (8 * k)) & 0xff == (y >> (8 * k)) & 0xff,
{
    assert(id_bytes(x)[k as int] == id_bytes(y)[k as int]);
    lemma_id_byte_small(x, k);
    lemma_id_byte_small(y, k);
    assert((8 * (k as int)) as u64 == 8 * k);
    assert(id_byte(x, k as int) == (x >> (8 * k)) & 0xff);
    assert(id_byte(y, k as int) == (y >> (8 * k)) & 0xff);
    assert(id_bytes(x)[k as int] == id_byte(x, k as int) as u8);
    assert(id_bytes(y)[k as int] == id_byte(y, k as int) as u8);
    assert(id_byte(x, k as int) as u8 == id_byte(y, k as int) as u8);
}

/// Distinct counters render as distinct byte strings.
proof fn lemma_id_bytes_injective(x: u64, y: u64)
    requires
        id_bytes(x) == id_bytes(y),
    ensures
        x == y,
{
    lemma_id_byte_eq(x, y, 0);
    lemma_id_byte_eq(x, y, 1);
    lemma_id_byte_eq(x, y, 2);
    lemma_id_byte_eq(x, y, 3);
    lemma_id_byte_eq(x, y, 4);
    lemma_id_byte_eq(x, y, 5);
    lemma_id_byte_eq(x, y, 6);
    lemma_id_byte_eq(x, y, 7);
    assert(((x >> (8 * 0u64)) & 0xff == (y >> (8 * 0u64)) & 0xff && (x >> (8 * 1u64)) & 0xff == (y
        >> (8 * 1u64)) & 0xff && (x >> (8 * 2u64)) & 0xff == (y >> (8 * 2u64)) & 0xff && (x >> (8
        * 3u64)) & 0xff == (y >> (8 * 3u64)) & 0xff && (x >> (8 * 4u64)) & 0xff == (y >> (8
        * 4u64)) & 0xff && (x >> (8 * 5u64)) & 0xff == (y >> (8 * 5u64)) & 0xff && (x >> (8
        * 6u64)) & 0xff == (y >> (8 * 6u64)) & 0xff && (x >> (8 * 7u64)) & 0xff == (y >> (8
        * 7u64)) & 0xff) ==> x == y) by (bit_vector);
}

fn render_id(x: u64) -> (r: Vec<u8>)
    ensures
        r@ == id_bytes(x),
{
    let mut out: Vec<u8> = Vec::new();
    let mut k: u64 = 0;
    while k < 8
        invariant
            k <= 8,
            out@.len() == k,
            forall|q: int| 0 <= q < k ==> out@[q] == id_byte(x, q) as u8,
        decreases 8 - k,
    {
        proof {
            lemma_id_byte_small(x, k);
        }
        let b = (x >> (8 * k)) & 0xff;
        out.push(b as u8);
        k = k + 1;
    }
    proof {
        assert(out@ =~= id_bytes(x));
    }
    out
}

/// Errors of the patch store.
#[derive(Debug)]
pub enum StoreError {
    /// No patch with the given id (or no id with the given prefix).
    NotFound,
    /// A shortened id matches more than one patch.
    Ambiguous,
    /// The caller is not the author of the patch it asked to update.
    NotOwner,
    /// The proposed head is already the latest revision's head.
    NoOp,
    /// The proposed head commit does not exist in the monorepo.
    InvalidOid,
}

/// The typed patch store of one replica, acting for one author.
pub struct PatchStore {
    pub whoami: LocalIdentity,
    pub entries: Vec<StoredPatch>,
    pub next_id: u64,
}

impl PatchStore {
    /// Patch ids are distinct, every patch is well-formed, and every id was
    /// minted from an earlier value of the fresh-id counter.
    pub open spec fn wf(self) -> bool {
        &&& forall|i: int, j: int|
            0 <= i < self.entries@.len() && 0 <= j < self.entries@.len() && i != j
                ==> #[trigger] self.entries@[i].id@ != #[trigger] self.entries@[j].id@
        &&& forall|i: int| 0 <= i < self.entries@.len() ==> (#[trigger] self.entries@[i]).patch.wf()
        &&& forall|i: int|
            0 <= i < self.entries@.len() ==> exists|k: u64|
                k < self.next_id && (#[trigger] self.entries@[i].id@) == id_bytes(k)
    }

    /// Every recorded revision head exists in the given commit graph.
    pub open spec fn heads_in(self, g: CommitGraph) -> bool {
        forall|i: int, v: int|
            0 <= i < self.entries@.len() && 0 <= v < self.entries@[i].patch.revisions@.len()
                ==> g.has_oid((#[trigger] self.entries@[i].patch.revisions@[v]).oid@)
    }

    pub fn new(whoami: LocalIdentity) -> (r: PatchStore)
        ensures
            r.wf(),
            r.entries@.len() == 0,
            r.whoami == whoami,
            r.next_id == 0,
            forall|g: CommitGraph| r.heads_in(g),
    {
        PatchStore { whoami, entries: Vec::new(), next_id: 0 }
    }

    pub fn count(&self) -> (r: usize)
        ensures
            r == self.entries@.len(),
    {
        self.entries.len()
    }

    /// Whether the store holds a patch with this id under this project.
    pub open spec fn has_patch(self, proj: Seq<u8>, id: Seq<u8>) -> bool {
        exists|i: int|
            0 <= i < self.entries@.len() && (#[trigger] self.entries@[i].urn@) == proj
                && self.entries@[i].id@ == id
    }

    /// The index of the patch with this id under this project.
    pub open spec fn index_of(self, proj: Seq<u8>, id: Seq<u8>) -> int {
        choose|i: int|
            0 <= i < self.entries@.len() && (#[trigger] self.entries@[i].urn@) == proj
                && self.entries@[i].id@ == id
    }

    /// Finds the index of a patch by project and id.
    pub fn find_index(&self, project: &Urn, id: &PatchId) -> (r: Option<usize>)
        ensures
            match r {
                Some(i) => i < self.entries@.len() && self.entries@[i as int].urn@ == project@
                    && self.entries@[i as int].id@ == id@,
                None => !self.has_patch(project@, id@),
            },
    {
        let n = self.entries.len();
        let mut i: usize = 0;
        while i < n
            invariant
                n == self.entries@.len(),
                i <= n,
                forall|j: int|
                    0 <= j < i ==> !((#[trigger] self.entries@[j].urn@) == project@
                        && self.entries@[j].id@ == id@),
            decreases n - i,
        {
            if self.entries[i].urn.same(project) && self.entries[i].id.same(id) {
                return Some(i);
            }
            i = i + 1;
        }
        None
    }

    /// Looks a patch up by id.
    pub fn get(&self, project: &Urn, id: &PatchId) -> (r: Option<&Patch>)
        ensures
            match r {
                Some(p) => self.has_patch(project@, id@) && exists|i: int|
                    0 <= i < self.entries@.len() && (#[trigger] self.entries@[i].urn@) == project@
                        && self.entries@[i].id@ == id@ && *p == self.entries@[i].patch,
                None => !self.has_patch(project@, id@),
            },
    {
        match self.find_index(project, id) {
            Some(i) => {
                proof {
                    assert(0 <= i < self.entries@.len() && self.entries@[i as int].urn@ == project@
                        && self.entries@[i as int].id@ == id@ && self.entries@[i as int].patch
                        == self.entries@[i as int].patch);
                }
                Some(&self.entries[i].patch)
            },
            None => None,
        }
    }

    /// An entry under `proj` whose id begins with the given prefix.
    pub open spec fn prefix_matches(self, proj: Seq<u8>, pfx: Seq<u8>, i: int) -> bool {
        0 <= i < self.entries@.len() && self.entries@[i].urn@ == proj && is_prefix(
            pfx,
            self.entries@[i].id@,
        )
    }

    /// Resolves a shortened patch id to the unique full id it abbreviates;
    /// fails with `NotFound` when no id matches and `Ambiguous` when more
    /// than one does.
    pub fn resolve_id(&self, project: &Urn, ident: &CobIdentifier) -> (r: Result<
        PatchId,
        StoreError,
    >)
        ensures
            match r {
                Ok(id) => (exists|i: int|
                    #[trigger] self.prefix_matches(project@, ident@, i) && self.entries@[i].id@
                        == id@) && forall|i: int, j: int|
                    #[trigger] self.prefix_matches(project@, ident@, i)
                        && #[trigger] self.prefix_matches(project@, ident@, j) ==> i == j,
                Err(StoreError::NotFound) => forall|i: int|
                    !(#[trigger] self.prefix_matches(project@, ident@, i)),
                Err(StoreError::Ambiguous) => exists|i: int, j: int|
                    #[trigger] self.prefix_matches(project@, ident@, i)
                        && #[trigger] self.prefix_matches(project@, ident@, j) && i != j,
                Err(_) => false,
            },
    {
        let n = self.entries.len();
        let mut found: Option<usize> = None;
        let mut i: usize = 0;
        while i < n
            invariant
                n == self.entries@.len(),
                i <= n,
                match found {
                    Some(f) => self.prefix_matches(project@, ident@, f as int) && f < i && forall|
                        j: int,
                    |
                        0 <= j < i && j != f ==> !(#[trigger] self.prefix_matches(
                            project@,
                            ident@,
                            j,
                        )),
                    None => forall|j: int|
                        0 <= j < i ==> !(#[trigger] self.prefix_matches(project@, ident@, j)),
                },
            decreases n - i,
        {
            if self.entries[i].urn.same(project) && starts_with(&self.entries[i].id.bytes, &ident.bytes) {
                assert(self.prefix_matches(project@, ident@, i as int));
                match found {
                    Some(f) => {
                        return Err(StoreError::Ambiguous);
                    },
                    None => {
                        found = Some(i);
                    },
                }
            }
            i = i + 1;
        }
        match found {
            Some(f) => Ok(Urn::new(bytes_copy(&self.entries[f].id.bytes))),
            None => Err(StoreError::NotFound),
        }
    }

    /// Creates a new patch proposing `head_oid`, under a fresh id. Fails
    /// with `InvalidOid` exactly when the head commit is not in the
    /// monorepo; nothing changes then.
    pub fn create(
        &mut self,
        project: &Urn,
        title: &Vec<u8>,
        description: &Vec<u8>,
        target: MergeTarget,
        head_oid: &Oid,
        timestamp: i64,
        graph: &CommitGraph,
    ) -> (r: Result<PatchId, StoreError>)
        requires
            old(self).wf(),
            old(self).next_id < 0xffff_ffff_ffff_ffffu64,
        ensures
            final(self).wf(),
            final(self).whoami == old(self).whoami,
            old(self).heads_in(*graph) ==> final(self).heads_in(*graph),
            match r {
                Ok(id) => {
                    &&& graph.has_oid(head_oid@)
                    &&& final(self).entries@.len() == old(self).entries@.len() + 1
                    &&& final(self).entries@.take(old(self).entries@.len() as int) == old(
                        self,
                    ).entries@
                    &&& final(self).entries@.last().id@ == id@
                    &&& final(self).entries@.last().urn@ == project@
                    &&& !old(self).has_patch(project@, id@)
                    &&& {
                        let p = final(self).entries@.last().patch;
                        &&& p.author.urn@ == old(self).whoami.urn@
                        &&& p.author.peer@ == old(self).whoami.peer@
                        &&& p.title@ == title@
                        &&& p.description@ == description@
                        &&& p.target == target
                        &&& p.timestamp == timestamp
                        &&& p.revisions@.len() == 1
                        &&& p.revisions@[0].oid@ == head_oid@
                        &&& p.revisions@[0].comment@.len() == 0
                        &&& p.revisions@[0].merges@.len() == 0
                        &&& p.revisions@[0].reviews@.len() == 0
                    }
                },
                Err(StoreError::InvalidOid) => *final(self) == *old(self) && !graph.has_oid(
                    head_oid@,
                ),
                Err(_) => false,
            },
    {
        if !graph.contains(head_oid) {
            return Err(StoreError::InvalidOid);
        }
        let counter = self.next_id;
        let id = Urn::new(render_id(counter));
        let returned = Urn::new(render_id(counter));
        proof {
            assert forall|i: int| 0 <= i < self.entries@.len() implies (
            #[trigger] self.entries@[i].id@) != id_bytes(counter) by {
                let k = choose|k: u64|
                    k < self.next_id && self.entries@[i].id@ == id_bytes(k);
                if self.entries@[i].id@ == id_bytes(counter) {
                    lemma_id_bytes_injective(k, counter);
                }
            }
        }
        let revision = Revision {
            oid: head_oid.duplicate(),
            comment: Vec::new(),
            merges: Vec::new(),
            reviews: Vec::new(),
        };
        let mut revisions: Vec<Revision> = Vec::new();
        revisions.push(revision);
        let patch = Patch {
            author: Author {
                urn: self.whoami.urn.duplicate(),
                peer: self.whoami.peer.duplicate(),
                name: Lazy::Unresolved,
            },
            title: bytes_copy(title),
            description: bytes_copy(description),
            target,
            timestamp,
            revisions,
        };
        self.entries.push(StoredPatch { id, urn: project.duplicate(), patch });
        self.next_id = counter + 1;
        proof {
            let n = old(self).entries@.len() as int;
            assert(self.entries@.take(n) =~= old(self).entries@);
            assert forall|i: int, j: int|
                0 <= i < self.entries@.len() && 0 <= j < self.entries@.len() && i != j
                implies #[trigger] self.entries@[i].id@ != #[trigger] self.entries@[j].id@ by {
                if i < n && j < n {
                    assert(self.entries@[i] == old(self).entries@[i]);
                    assert(self.entries@[j] == old(self).entries@[j]);
                } else if i < n {
                    assert(self.entries@[i] == old(self).entries@[i]);
                    assert(self.entries@[j].id@ == id_bytes(counter));
                } else {
                    assert(self.entries@[j] == old(self).entries@[j]);
                    assert(self.entries@[i].id@ == id_bytes(counter));
                }
            }
            assert forall|i: int| 0 <= i < self.entries@.len() implies exists|k: u64|
                k < self.next_id && (#[trigger] self.entries@[i].id@) == id_bytes(k) by {
                if i < n {
                    assert(self.entries@[i] == old(self).entries@[i]);
                    let k = choose|k: u64|
                        k < old(self).next_id && old(self).entries@[i].id@ == id_bytes(k);
                    assert(k < self.next_id && self.entries@[i].id@ == id_bytes(k));
                } else {
                    assert(self.entries@[i].id@ == id_bytes(counter) && counter < self.next_id);
                }
            }
            if old(self).heads_in(*graph) {
                assert forall|i: int, v: int|
                    0 <= i < self.entries@.len() && 0 <= v
                        < self.entries@[i].patch.revisions@.len() implies graph.has_oid(
                    (#[trigger] self.entries@[i].patch.revisions@[v]).oid@) by {
                    if i < n {
                        assert(self.entries@[i] == old(self).entries@[i]);
                    } else {
                        assert(self.entries@[i].patch.revisions@[v].oid@ == head_oid@);
                    }
                }
            }
        }
        Ok(returned)
    }

    /// Appends a revision proposing `new_head` to an existing patch. The
    /// returned version is exactly the previous version plus one; a proposal
    /// equal to the current head is rejected as `NoOp` with no change to the
    /// store.
    pub fn update(
        &mut self,
        project: &Urn,
        id: &PatchId,
        comment: Vec<u8>,
        new_head: &Oid,
        graph: &CommitGraph,
    ) -> (r: Result<usize, StoreError>)
        requires
            old(self).wf(),
        ensures
            final(self).wf(),
            final(self).whoami == old(self).whoami,
            final(self).next_id == old(self).next_id,
            old(self).heads_in(*graph) ==> final(self).heads_in(*graph),
            match r {
                Ok(v) => {
                    &&& old(self).has_patch(project@, id@)
                    &&& graph.has_oid(new_head@)
                    &&& {
                        let i = old(self).index_of(project@, id@);
                        let p_old = old(self).entries@[i].patch;
                        let p_new = final(self).entries@[i].patch;
                        &&& p_old.author.urn@ == old(self).whoami.urn@
                        &&& p_old.spec_latest().oid@ != new_head@
                        &&& v == p_old.spec_version() + 1
                        &&& v == p_new.spec_version()
                        &&& p_new.revisions@.len() == p_old.revisions@.len() + 1
                        &&& p_new.revisions@.take(p_old.revisions@.len() as int)
                            == p_old.revisions@
                        &&& p_new.revisions@.last().oid@ == new_head@
                        &&& p_new.revisions@.last().comment@ == comment@
                        &&& p_new.revisions@.last().merges@.len() == 0
                        &&& p_new.revisions@.last().reviews@.len() == 0
                        &&& p_new.author == p_old.author
                        &&& p_new.title == p_old.title
                        &&& p_new.description == p_old.description
                        &&& p_new.target == p_old.target
                        &&& p_new.timestamp == p_old.timestamp
                        &&& final(self).entries@[i].id == old(self).entries@[i].id
                        &&& final(self).entries@[i].urn == old(self).entries@[i].urn
                        &&& final(self).entries@ == old(self).entries@.update(
                            i,
                            final(self).entries@[i],
                        )
                    }
                },
                Err(StoreError::NotFound) => *final(self) == *old(self) && !old(self).has_patch(
                    project@,
                    id@,
                ),
                Err(StoreError::NotOwner) => *final(self) == *old(self) && old(self).has_patch(
                    project@,
                    id@,
                ) && old(self).entries@[old(self).index_of(project@, id@)].patch.author.urn@ != old(
                    self,
                ).whoami.urn@,
                Err(StoreError::InvalidOid) => *final(self) == *old(self) && old(self).has_patch(
                    project@,
                    id@,
                ) && old(self).entries@[old(self).index_of(project@, id@)].patch.author.urn@ == old(
                    self,
                ).whoami.urn@ && !graph.has_oid(new_head@),
                Err(StoreError::NoOp) => *final(self) == *old(self) && old(self).has_patch(
                    project@,
                    id@,
                ) && old(self).entries@[old(self).index_of(project@, id@)].patch.author.urn@ == old(
                    self,
                ).whoami.urn@ && graph.has_oid(new_head@) && old(self).entries@[old(
                    self,
                ).index_of(project@, id@)].patch.spec_latest().oid@ == new_head@,
                Err(StoreError::Ambiguous) => false,
            },
    {
        let found = self.find_index(project, id);
        let i = match found {
            None => {
                return Err(StoreError::NotFound);
            },
            Some(i) => i,
        };
        proof {
            assert(self.has_patch(project@, id@));
            let ii = self.index_of(project@, id@);
            assert(0 <= ii < self.entries@.len() && self.entries@[ii].urn@ == project@
                && self.entries@[ii].id@ == id@);
            assert(ii == i);
        }
        if !self.entries[i].patch.author.urn.same(&self.whoami.urn) {
            return Err(StoreError::NotOwner);
        }
        if !graph.contains(new_head) {
            return Err(StoreError::InvalidOid);
        }
        let last = self.entries[i].patch.revisions.len() - 1;
        if self.entries[i].patch.revisions[last].oid.same(new_head) {
            return Err(StoreError::NoOp);
        }
        let revision = Revision {
            oid: new_head.duplicate(),
            comment,
            merges: Vec::new(),
            reviews: Vec::new(),
        };
        let ghost old_entries = self.entries@;
        self.entries[i].patch.revisions.push(revision);
        let v = self.entries[i].patch.revisions.len() - 1;
        proof {
            let ii = i as int;
            assert(self.entries@[ii].patch.revisions@.take(
                old(self).entries@[ii].patch.revisions@.len() as int,
            ) =~= old(self).entries@[ii].patch.revisions@);
            assert forall|a: int, b: int|
                0 <= a < self.entries@.len() && 0 <= b < self.entries@.len() && a != b
                implies #[trigger] self.entries@[a].id@ != #[trigger] self.entries@[b].id@ by {
                assert(self.entries@[a].id == old(self).entries@[a].id);
                assert(self.entries@[b].id == old(self).entries@[b].id);
            }
            assert forall|a: int|
                0 <= a < self.entries@.len() implies (#[trigger] self.entries@[a]).patch.wf() by {
                if a != ii {
                    assert(self.entries@[a] == old(self).entries@[a]);
                }
            }
            assert forall|a: int| 0 <= a < self.entries@.len() implies exists|k: u64|
                k < self.next_id && (#[trigger] self.entries@[a].id@) == id_bytes(k) by {
                let k = choose|k: u64|
                    k < old(self).next_id && old(self).entries@[a].id@ == id_bytes(k);
                assert(self.entries@[a].id == old(self).entries@[a].id);
                assert(k < self.next_id && self.entries@[a].id@ == id_bytes(k));
            }
            if old(self).heads_in(*graph) {
                assert forall|a: int, rv: int|
                    0 <= a < self.entries@.len() && 0 <= rv
                        < self.entries@[a].patch.revisions@.len() implies graph.has_oid(
                    (#[trigger] self.entries@[a].patch.revisions@[rv]).oid@) by {
                    if a != ii {
                        assert(self.entries@[a] == old(self).entries@[a]);
                    } else {
                        if rv < old(self).entries@[a].patch.revisions@.len() {
                            assert(self.entries@[a].patch.revisions@[rv] == old(
                                self,
                            ).entries@[a].patch.revisions@[rv]);
                        } else {
                            assert(self.entries@[a].patch.revisions@[rv].oid@ == new_head@);
                        }
                    }
                }
            }
        }
        Ok(v)
    }
}

/// The entry indices under `proj`, in insertion order, up to position `k`.
pub open spec fn list_indices(s: Seq<StoredPatch>, proj: Seq<u8>, k: int) -> Seq<int>
    decreases k,
{
    if k <= 0 {
        Seq::empty()
    } else {
        list_indices(s, proj, k - 1) + if s[k - 1].urn@ == proj {
            seq![k - 1]
        } else {
            Seq::empty()
        }
    }
}

/// The indices of proposed patches under `proj`, in insertion order.
pub open spec fn proposed_indices(s: Seq<StoredPatch>, proj: Seq<u8>, k: int) -> Seq<int>
    decreases k,
{
    if k <= 0 {
        Seq::empty()
    } else {
        proposed_indices(s, proj, k - 1) + if s[k - 1].urn@ == proj && s[k
            - 1].patch.is_proposed() {
            seq![k - 1]
        } else {
            Seq::empty()
        }
    }
}

/// The indices of proposed patches under `proj` authored by `author`, in
/// insertion order.
pub open spec fn proposed_by_indices(
    s: Seq<StoredPatch>,
    author: Seq<u8>,
    proj: Seq<u8>,
    k: int,
) -> Seq<int>
    decreases k,
{
    if k <= 0 {
        Seq::empty()
    } else {
        proposed_by_indices(s, author, proj, k - 1) + if s[k - 1].urn@ == proj && s[k
            - 1].patch.is_proposed() && s[k - 1].patch.author.urn@ == author {
            seq![k - 1]
        } else {
            Seq::empty()
        }
    }
}

impl PatchStore {
    /// All patches under a project, by entry index, in insertion order.
    pub fn list(&self, project: &Urn) -> (r: Vec<usize>)
        ensures
            r@.map_values(|x: usize| x as int) == list_indices(
                self.entries@,
                project@,
                self.entries@.len() as int,
            ),
    {
        let n = self.entries.len();
        let mut out: Vec<usize> = Vec::new();
        let mut i: usize = 0;
        while i < n
            invariant
                n == self.entries@.len(),
                i <= n,
                out@.map_values(|x: usize| x as int) == list_indices(
                    self.entries@,
                    project@,
                    i as int,
                ),
            decreases n - i,
        {
            let ghost prev = out@;
            if self.entries[i].urn.same(project) {
                out.push(i);
                proof {
                    assert(out@.map_values(|x: usize| x as int) =~= prev.map_values(
                        |x: usize| x as int,
                    ) + seq![i as int]);
                }
            }
            proof {
                assert(out@.map_values(|x: usize| x as int) =~= list_indices(
                    self.entries@,
                    project@,
                    i + 1 as int,
                ));
            }
            i = i + 1;
        }
        out
    }

    /// Whether the author of the patch at entry `i` has merged its latest
    /// revision.
    pub fn author_merged_at(&self, i: usize) -> (r: bool)
        requires
            i < self.entries@.len(),
            self.entries@[i as int].patch.wf(),
        ensures
            r == self.entries@[i as int].patch.author_merged(),
    {
        let p = &self.entries[i].patch;
        let last = p.revisions.len() - 1;
        let merges = &p.revisions[last].merges;
        let m = merges.len();
        let mut k: usize = 0;
        while k < m
            invariant
                m == merges@.len(),
                k <= m,
                *p == self.entries@[i as int].patch,
                merges@ == p.spec_latest().merges@,
                p.wf(),
                forall|q: int| 0 <= q < k ==> (#[trigger] merges@[q].peer@) != p.author.peer@,
            decreases m - k,
        {
            if merges[k].peer.same(&p.author.peer) {
                return true;
            }
            k = k + 1;
        }
        false
    }

    /// The proposed patches under a project: those with a revision the
    /// author has not merged. By entry index, in insertion order.
    pub fn proposed(&self, project: &Urn) -> (r: Vec<usize>)
        requires
            self.wf(),
        ensures
            r@.map_values(|x: usize| x as int) == proposed_indices(
                self.entries@,
                project@,
                self.entries@.len() as int,
            ),
    {
        let n = self.entries.len();
        let mut out: Vec<usize> = Vec::new();
        let mut i: usize = 0;
        while i < n
            invariant
                self.wf(),
                n == self.entries@.len(),
                i <= n,
                out@.map_values(|x: usize| x as int) == proposed_indices(
                    self.entries@,
                    project@,
                    i as int,
                ),
            decreases n - i,
        {
            let ghost prev = out@;
            if self.entries[i].urn.same(project) && !self.author_merged_at(i) {
                out.push(i);
                proof {
                    assert(out@.map_values(|x: usize| x as int) =~= prev.map_values(
                        |x: usize| x as int,
                    ) + seq![i as int]);
                }
            }
            proof {
                assert(out@.map_values(|x: usize| x as int) =~= proposed_indices(
                    self.entries@,
                    project@,
                    i + 1 as int,
                ));
            }
            i = i + 1;
        }
        out
    }

    /// The proposed patches of one author under a project. By entry index,
    /// in insertion order.
    pub fn proposed_by(&self, author: &Urn, project: &Urn) -> (r: Vec<usize>)
        requires
            self.wf(),
        ensures
            r@.map_values(|x: usize| x as int) == proposed_by_indices(
                self.entries@,
                author@,
                project@,
                self.entries@.len() as int,
            ),
    {
        let n = self.entries.len();
        let mut out: Vec<usize> = Vec::new();
        let mut i: usize = 0;
        while i < n
            invariant
                self.wf(),
                n == self.entries@.len(),
                i <= n,
                out@.map_values(|x: usize| x as int) == proposed_by_indices(
                    self.entries@,
                    author@,
                    project@,
                    i as int,
                ),
            decreases n - i,
        {
            let ghost prev = out@;
            if self.entries[i].urn.same(project) && self.entries[i].patch.author.urn.same(author)
                && !self.author_merged_at(i) {
                out.push(i);
                proof {
                    assert(out@.map_values(|x: usize| x as int) =~= prev.map_values(
                        |x: usize| x as int,
                    ) + seq![i as int]);
                }
            }
            proof {
                assert(out@.map_values(|x: usize| x as int) =~= proposed_by_indices(
                    self.entries@,
                    author@,
                    project@,
                    i + 1 as int,
                ));
            }
            i = i + 1;
        }
        out
    }
}

} // verus!
