//! The patch lifecycle flows: create, update, list.
//!
//! Each flow is a pure decision procedure: it takes the replica state (the
//! monorepo view and the patch store), the command options and the answers
//! the surrounding program collected from the author (editor buffer, comment,
//! confirmations), performs the store mutation it decides on, and reports
//! the outcome together with the branch to sync, if any. Reading
//! repositories from disk, prompting and syncing stay outside.

use vstd::prelude::*;
use crate::bytes::bytes_copy;
use crate::graph::{common_ancestor, CommitGraph};
use crate::ids::{CobIdentifier, Oid, PatchId, RefLike, Urn};
use crate::matcher::{
    candidate_indices, find_unmerged_with_base, is_merge_base_idx, lemma_merge_base_unique,
};
use crate::message::{first_break, parse_message, spec_description, spec_title, MessageError};
use crate::store::{MergeTarget, PatchStore, StoreError};
use crate::targets::{find_merge_targets, not_merged_pairs, MergeTargets, Monorepo, Project};

verus! {

/// What `--update` asked for.
pub enum Update {
    /// Create a new patch.
    No,
    /// Update whichever single patch matches the working state.
    Any,
    /// Update the patch this identifier resolves to.
    Patch(CobIdentifier),
}

impl Default for Update {
    fn default() -> (r: Self)
        ensures
            r is No,
    {
        Update::No
    }
}

/// Where the revision or patch comment comes from.
pub enum Comment {
    /// Ask the author through the editor.
    Editor,
    /// Use this text.
    Text(Vec<u8>),
    /// Leave the comment blank.
    Blank,
}

impl Default for Comment {
    fn default() -> (r: Self)
        ensures
            r is Editor,
    {
        Comment::Editor
    }
}

/// Options of the patch command.
pub struct Options {
    pub list: bool,
    pub verbose: bool,
    pub sync: bool,
    pub update: Update,
    pub comment: Comment,
}

impl Default for Options {
    fn default() -> (r: Self)
        ensures
            r.list == false,
            r.verbose == false,
            r.sync == false,
            r.update is No,
            r.comment is Editor,
    {
        Options {
            list: false,
            verbose: false,
            sync: false,
            update: Update::No,
            comment: Comment::Editor,
        }
    }
}

/// The working copy's HEAD.
pub enum HeadState {
    Branch { name: RefLike, oid: Oid },
    Detached { oid: Oid },
}

/// Answers collected from the author by the surrounding program.
pub struct FlowInputs {
    /// What the editor returned for the patch message; `None` if the author
    /// closed it without saving.
    pub editor_message: Option<Vec<u8>>,
    /// What the comment prompt returned, when the options ask for one.
    pub comment_editor: Option<Vec<u8>>,
    /// The literal help-block text the editor buffer was seeded with.
    pub help_marker: Vec<u8>,
    /// Answer to the first confirmation.
    pub confirm_continue: bool,
    /// Answer to "update this patch?".
    pub confirm_update: bool,
    /// Answer to "create this patch?".
    pub confirm_create: bool,
    /// The author-asserted creation time, seconds since the epoch.
    pub timestamp: i64,
}

pub enum FlowError {
    /// HEAD is not a symbolic ref; a patch needs a branch.
    DetachedHead,
    /// The head commit was never pushed to the monorepo; the hint is to run
    /// `git push rad` and retry.
    HeadNotInStore,
    /// No tracked peer's default branch is missing the head.
    NoMergeTarget,
    /// More than one merge target; the author must choose.
    AmbiguousTarget,
    /// Target and head histories are unrelated.
    NoMergeBase,
    /// No patch of the author shares the current merge base.
    NoUpdateCandidate,
    /// More than one patch could be updated; an id is needed.
    AmbiguousUpdate,
    /// The given id resolves to no patch.
    PatchNotFound,
    /// The given shortened id matches several patches.
    AmbiguousId,
    /// The caller does not own the patch it asked to update.
    NotOwner,
    /// A message buffer without a blank line separating title from body.
    InvalidMessage,
    /// The title was empty after trimming.
    EmptyTitle,
    /// The author declined a confirmation.
    UserAbort,
}

pub enum FlowSuccess {
    Created { id: PatchId, sync_branch: Option<RefLike> },
    Updated { id: PatchId, version: usize, sync_branch: Option<RefLike> },
    NothingToDo,
}

/// The comment text the options and the prompt answer resolve to.
pub open spec fn spec_comment(c: Comment, prompted: Option<Vec<u8>>) -> Seq<u8> {
    match c {
        Comment::Text(t) => t@,
        Comment::Blank => Seq::empty(),
        Comment::Editor => match prompted {
            Some(p) => p@,
            None => Seq::empty(),
        },
    }
}

/// Resolves the comment for a revision: given text, blank, or whatever the
/// prompt returned.
pub fn resolve_comment(c: &Comment, prompted: &Option<Vec<u8>>) -> (r: Vec<u8>)
    ensures
        r@ == spec_comment(*c, *prompted),
{
    match c {
        Comment::Text(t) => bytes_copy(t),
        Comment::Blank => Vec::new(),
        Comment::Editor => match prompted {
            Some(p) => bytes_copy(p),
            None => Vec::new(),
        },
    }
}

/// The author has a proposed patch under `proj` whose latest revision is at
/// `head`.
pub open spec fn own_patch_at_head(store: PatchStore, proj: Seq<u8>, head: Seq<u8>) -> bool {
    exists|i: int|
        0 <= i < store.entries@.len() && (#[trigger] store.entries@[i]).urn@ == proj
            && store.entries@[i].patch.is_proposed() && store.entries@[i].patch.author.urn@
            == store.whoami.urn@ && store.entries@[i].patch.spec_latest().oid@ == head
}

fn find_own_patch_at_head(store: &PatchStore, project: &Urn, head: &Oid) -> (r: bool)
    requires
        store.wf(),
    ensures
        r == own_patch_at_head(*store, project@, head@),
{
    let n = store.entries.len();
    let mut i: usize = 0;
    while i < n
        invariant
            store.wf(),
            n == store.entries@.len(),
            i <= n,
            forall|j: int|
                0 <= j < i ==> !((#[trigger] store.entries@[j]).urn@ == project@
                    && store.entries@[j].patch.is_proposed()
                    && store.entries@[j].patch.author.urn@ == store.whoami.urn@
                    && store.entries@[j].patch.spec_latest().oid@ == head@),
        decreases n - i,
    {
        let e = &store.entries[i];
        if e.urn.same(project) && e.patch.author.urn.same(&store.whoami.urn)
            && !store.author_merged_at(i) {
            let last = e.patch.revisions.len() - 1;
            if e.patch.revisions[last].oid.same(head) {
                return true;
            }
        }
        i = i + 1;
    }
    false
}

/// The outcome the update flow owes on every input, given that the patch
/// `id` exists under `proj`: nothing to do when the patch is already at the
/// head, abort on a declined confirmation, refuse a foreign patch, refuse a
/// head the monorepo lacks, and otherwise append a revision to exactly that
/// patch.
pub open spec fn update_decision(
    store: PatchStore,
    proj: Seq<u8>,
    id: Seq<u8>,
    head: Seq<u8>,
    g: CommitGraph,
    inputs: FlowInputs,
    r: Result<FlowSuccess, FlowError>,
) -> bool {
    let i = store.index_of(proj, id);
    let p = store.entries@[i].patch;
    if p.spec_latest().oid@ == head {
        r == Ok::<FlowSuccess, FlowError>(FlowSuccess::NothingToDo)
    } else if !inputs.confirm_continue {
        r == Err::<FlowSuccess, FlowError>(FlowError::UserAbort)
    } else if p.author.urn@ != store.whoami.urn@ {
        r == Err::<FlowSuccess, FlowError>(FlowError::NotOwner)
    } else if !g.has_oid(head) {
        r == Err::<FlowSuccess, FlowError>(FlowError::HeadNotInStore)
    } else {
        match r {
            Ok(FlowSuccess::Updated { id: rid, version, sync_branch }) => rid@ == id,
            _ => false,
        }
    }
}

/// The index of the commit with a given id; meaningful when the graph holds
/// one, which makes it unique.
pub open spec fn graph_index_of(g: CommitGraph, o: Seq<u8>) -> int {
    choose|i: int| 0 <= i < g.commits@.len() && (#[trigger] g.commits@[i].oid@) == o
}

/// The merge base of two commits, as a graph index.
pub open spec fn spec_merge_base(g: CommitGraph, a: int, b: int) -> Option<int> {
    if exists|m: int| is_merge_base_idx(g, a, b, m) {
        Some(choose|m: int| is_merge_base_idx(g, a, b, m))
    } else {
        None
    }
}

/// The outcome the create flow owes once a single target `t` and the merge
/// base `mb` are fixed: the update mode decides between creating from the
/// edited message, auto-matching the unique candidate, and updating a named
/// patch.
pub open spec fn create_mode_decision(
    store: PatchStore,
    monorepo: Monorepo,
    project: Project,
    head: Seq<u8>,
    opts: Options,
    inputs: FlowInputs,
    t: int,
    mb: int,
    r: Result<FlowSuccess, FlowError>,
) -> bool {
    match opts.update {
        Update::No => {
            if !inputs.confirm_continue {
                r == Err::<FlowSuccess, FlowError>(FlowError::UserAbort)
            } else {
                match inputs.editor_message {
                    None => r == Err::<FlowSuccess, FlowError>(FlowError::UserAbort),
                    Some(buf) => {
                        let f = first_break(buf@, buf@.len() as int);
                        if f is None {
                            r == Err::<FlowSuccess, FlowError>(FlowError::InvalidMessage)
                        } else if spec_title(buf@, f->Some_0).len() == 0 {
                            r == Err::<FlowSuccess, FlowError>(FlowError::EmptyTitle)
                        } else if !inputs.confirm_create {
                            r == Err::<FlowSuccess, FlowError>(FlowError::UserAbort)
                        } else {
                            r matches Ok(FlowSuccess::Created { .. })
                        }
                    },
                }
            }
        },
        Update::Any => {
            let cands = candidate_indices(
                store.entries@,
                monorepo.graph,
                project.urn@,
                store.whoami.urn@,
                head,
                t,
                mb,
                store.entries@.len() as int,
            );
            if cands.len() == 0 {
                if own_patch_at_head(store, project.urn@, head) {
                    r == Ok::<FlowSuccess, FlowError>(FlowSuccess::NothingToDo)
                } else {
                    r == Err::<FlowSuccess, FlowError>(FlowError::NoUpdateCandidate)
                }
            } else if cands.len() > 1 {
                r == Err::<FlowSuccess, FlowError>(FlowError::AmbiguousUpdate)
            } else if !inputs.confirm_update {
                r == Err::<FlowSuccess, FlowError>(FlowError::UserAbort)
            } else {
                update_decision(
                    store,
                    project.urn@,
                    store.entries@[cands[0]].id@,
                    head,
                    monorepo.graph,
                    inputs,
                    r,
                )
            }
        },
        Update::Patch(cid) => {
            if exists|i: int, j: int|
                #[trigger] store.prefix_matches(project.urn@, cid@, i)
                    && #[trigger] store.prefix_matches(project.urn@, cid@, j) && i != j {
                r == Err::<FlowSuccess, FlowError>(FlowError::AmbiguousId)
            } else if !(exists|i: int| #[trigger] store.prefix_matches(project.urn@, cid@, i)) {
                r == Err::<FlowSuccess, FlowError>(FlowError::PatchNotFound)
            } else {
                let w = choose|w: int| #[trigger] store.prefix_matches(project.urn@, cid@, w);
                if !inputs.confirm_update {
                    r == Err::<FlowSuccess, FlowError>(FlowError::UserAbort)
                } else {
                    update_decision(
                        store,
                        project.urn@,
                        store.entries@[w].id@,
                        head,
                        monorepo.graph,
                        inputs,
                        r,
                    )
                }
            }
        },
    }
}

/// Law: the create flow's outcome is a total function of its inputs. Every
/// branch of the command — detached head, unpushed head, no or ambiguous
/// target, unrelated histories, each update mode, each confirmation — owes
/// exactly one result.
pub open spec fn create_decision(
    store: PatchStore,
    monorepo: Monorepo,
    project: Project,
    head: HeadState,
    opts: Options,
    inputs: FlowInputs,
    r: Result<FlowSuccess, FlowError>,
) -> bool {
    match head {
        HeadState::Detached { oid } => r == Err::<FlowSuccess, FlowError>(FlowError::DetachedHead),
        HeadState::Branch { name, oid } => {
            if !monorepo.graph.has_oid(oid@) {
                r == Err::<FlowSuccess, FlowError>(FlowError::HeadNotInStore)
            } else {
                let nm = not_merged_pairs(monorepo, project, oid@, project.peers@.len() as int);
                if nm.len() == 0 {
                    r == Err::<FlowSuccess, FlowError>(FlowError::NoMergeTarget)
                } else if nm.len() > 1 {
                    r == Err::<FlowSuccess, FlowError>(FlowError::AmbiguousTarget)
                } else {
                    let t = graph_index_of(monorepo.graph, nm[0].1);
                    let h = graph_index_of(monorepo.graph, oid@);
                    match spec_merge_base(monorepo.graph, t, h) {
                        None => r == Err::<FlowSuccess, FlowError>(FlowError::NoMergeBase),
                        Some(mb) => create_mode_decision(
                            store,
                            monorepo,
                            project,
                            oid@,
                            opts,
                            inputs,
                            t,
                            mb,
                            r,
                        ),
                    }
                }
            }
        },
    }
}

/// Appends a revision at `head_oid` to the patch `id`, with the author's
/// confirmation. Reports "nothing to do" when the patch is already at the
/// head; the returned version is always the previous version plus one.
pub fn update_flow(
    store: &mut PatchStore,
    monorepo: &Monorepo,
    project: &Project,
    id: &PatchId,
    head_oid: &Oid,
    branch: &RefLike,
    opts: &Options,
    inputs: &FlowInputs,
) -> (r: Result<FlowSuccess, FlowError>)
    requires
        old(store).wf(),
        monorepo.wf(),
        old(store).heads_in(monorepo.graph),
        old(store).has_patch(project.urn@, id@),
    ensures
        final(store).wf(),
        final(store).heads_in(monorepo.graph),
        final(store).whoami == old(store).whoami,
        !(r matches Ok(FlowSuccess::Updated { .. })) ==> *final(store) == *old(store),
        r matches Ok(FlowSuccess::NothingToDo) ==> old(store).entries@[old(store).index_of(
            project.urn@,
            id@,
        )].patch.spec_latest().oid@ == head_oid@,
        r matches Ok(FlowSuccess::Updated { id: rid, version, sync_branch }) ==> ({
            let i = old(store).index_of(project.urn@, id@);
            let p_old = old(store).entries@[i].patch;
            let p_new = final(store).entries@[i].patch;
            &&& rid@ == id@
            &&& p_old.spec_latest().oid@ != head_oid@
            &&& version == p_old.spec_version() + 1
            &&& version == p_new.spec_version()
            &&& p_new.revisions@.len() == p_old.revisions@.len() + 1
            &&& p_new.revisions@.take(p_old.revisions@.len() as int) == p_old.revisions@
            &&& p_new.revisions@.last().oid@ == head_oid@
            &&& p_new.revisions@.last().comment@ == spec_comment(
                opts.comment,
                inputs.comment_editor,
            )
            &&& p_new.revisions@.last().merges@.len() == 0
            &&& p_new.revisions@.last().reviews@.len() == 0
            &&& final(store).entries@ == old(store).entries@.update(i, final(store).entries@[i])
            &&& (sync_branch is Some <==> opts.sync)
            &&& sync_branch is Some ==> sync_branch->Some_0@ == branch@
        }),
        r matches Err(e) ==> (e is NotOwner || e is HeadNotInStore || e is UserAbort
            || e is PatchNotFound),
        r == Err::<FlowSuccess, FlowError>(FlowError::HeadNotInStore) ==> !monorepo.graph.has_oid(
            head_oid@,
        ),
        r == Err::<FlowSuccess, FlowError>(FlowError::PatchNotFound) ==> false,
        !(r matches Ok(FlowSuccess::Created { .. })),
        update_decision(*old(store), project.urn@, id@, head_oid@, monorepo.graph, *inputs, r),
{
    let i = match store.find_index(&project.urn, id) {
        Some(i) => i,
        None => {
            proof {
                assert(false);
            }
            return Err(FlowError::PatchNotFound);
        },
    };
    proof {
        let ii = store.index_of(project.urn@, id@);
        assert(0 <= ii < store.entries@.len() && store.entries@[ii].urn@ == project.urn@
            && store.entries@[ii].id@ == id@);
        assert(ii == i);
    }
    let last = store.entries[i].patch.revisions.len() - 1;
    if store.entries[i].patch.revisions[last].oid.same(head_oid) {
        return Ok(FlowSuccess::NothingToDo);
    }
    let comment = resolve_comment(&opts.comment, &inputs.comment_editor);
    if !inputs.confirm_continue {
        return Err(FlowError::UserAbort);
    }
    let ghost pre = *store;
    match store.update(&project.urn, id, comment, head_oid, &monorepo.graph) {
        Ok(version) => {
            // The store's contract proves the version invariant the
            // original asserted at run time.
            proof {
                let ii = pre.index_of(project.urn@, id@);
                assert(version == pre.entries@[ii].patch.spec_version() + 1);
            }
            let sync_branch: Option<RefLike> = if opts.sync {
                Some(branch.duplicate())
            } else {
                None
            };
            Ok(FlowSuccess::Updated { id: Urn::new(bytes_copy(&id.bytes)), version, sync_branch })
        },
        Err(StoreError::NotOwner) => Err(FlowError::NotOwner),
        Err(StoreError::InvalidOid) => Err(FlowError::HeadNotInStore),
        Err(StoreError::NotFound) => Err(FlowError::PatchNotFound),
        Err(StoreError::NoOp) => {
            proof {
                assert(false);
            }
            Err(FlowError::UserAbort)
        },
        Err(StoreError::Ambiguous) => {
            proof {
                assert(false);
            }
            Err(FlowError::UserAbort)
        },
    }
}

/// The create flow: checks that the head is on a branch and known to the
/// monorepo, resolves the merge target, then either appends a revision to
/// the matching patch (update mode) or creates a new patch from the edited
/// message. On every error, and on "nothing to do", the store is unchanged.
pub fn create_flow(
    store: &mut PatchStore,
    monorepo: &Monorepo,
    project: &Project,
    head: &HeadState,
    opts: &Options,
    inputs: &FlowInputs,
) -> (r: Result<FlowSuccess, FlowError>)
    requires
        old(store).wf(),
        monorepo.wf(),
        old(store).heads_in(monorepo.graph),
        old(store).next_id < 0xffff_ffff_ffff_ffffu64,
    ensures
        final(store).wf(),
        final(store).heads_in(monorepo.graph),
        final(store).whoami == old(store).whoami,
        !(r matches Ok(FlowSuccess::Updated { .. }) || r matches Ok(FlowSuccess::Created { .. }))
            ==> *final(store) == *old(store),
        r == Err::<FlowSuccess, FlowError>(FlowError::DetachedHead) <==> head is Detached,
        head matches HeadState::Branch { name, oid } ==> (r == Err::<FlowSuccess, FlowError>(
            FlowError::HeadNotInStore,
        ) <==> !monorepo.graph.has_oid(oid@)),
        head matches HeadState::Branch { name, oid } ==> (monorepo.graph.has_oid(oid@) ==> {
            let nm = not_merged_pairs(*monorepo, *project, oid@, project.peers@.len() as int);
            &&& (r == Err::<FlowSuccess, FlowError>(FlowError::NoMergeTarget) <==> nm.len() == 0)
            &&& (r == Err::<FlowSuccess, FlowError>(FlowError::AmbiguousTarget) <==> nm.len() > 1)
        }),
        r matches Ok(FlowSuccess::Updated { id, version, sync_branch }) ==> ({
            let i = old(store).index_of(project.urn@, id@);
            let p_old = old(store).entries@[i].patch;
            let p_new = final(store).entries@[i].patch;
            &&& head matches HeadState::Branch { name, oid } && p_old.spec_latest().oid@ != oid@
                && p_new.revisions@.last().oid@ == oid@
            &&& old(store).has_patch(project.urn@, id@)
            &&& version == p_old.spec_version() + 1
            &&& p_new.revisions@.len() == p_old.revisions@.len() + 1
            &&& p_new.revisions@.take(p_old.revisions@.len() as int) == p_old.revisions@
            &&& final(store).entries@ == old(store).entries@.update(i, final(store).entries@[i])
        }),
        r matches Ok(FlowSuccess::Created { id, sync_branch }) ==> ({
            let buf = inputs.editor_message->Some_0@;
            let f = first_break(buf, buf.len() as int);
            &&& head is Branch
            &&& inputs.editor_message is Some
            &&& f is Some
            &&& final(store).entries@.len() == old(store).entries@.len() + 1
            &&& final(store).entries@.take(old(store).entries@.len() as int) == old(
                store,
            ).entries@
            &&& {
                let p = final(store).entries@.last().patch;
                &&& final(store).entries@.last().id@ == id@
                &&& final(store).entries@.last().urn@ == project.urn@
                &&& p.author.urn@ == old(store).whoami.urn@
                &&& p.author.peer@ == old(store).whoami.peer@
                &&& p.title@ == spec_title(buf, f->Some_0)
                &&& p.description@ == spec_description(buf, f->Some_0, inputs.help_marker@)
                &&& p.target is Upstream
                &&& p.timestamp == inputs.timestamp
                &&& p.revisions@.len() == 1
                &&& p.revisions@[0].oid@ == (head->Branch_oid)@
                &&& p.revisions@[0].merges@.len() == 0
                &&& p.revisions@[0].reviews@.len() == 0
            }
            &&& (sync_branch is Some <==> opts.sync)
        }),
        create_decision(*old(store), *monorepo, *project, *head, *opts, *inputs, r),
{
    let (branch, head_oid) = match head {
        HeadState::Branch { name, oid } => (name, oid),
        HeadState::Detached { .. } => {
            return Err(FlowError::DetachedHead);
        },
    };
    // The head must be findable in the monorepo, or nobody could merge the
    // patch.
    if !monorepo.graph.contains(head_oid) {
        return Err(FlowError::HeadNotInStore);
    }
    let targets: MergeTargets = find_merge_targets(head_oid, monorepo, project);
    if targets.not_merged.len() == 0 {
        return Err(FlowError::NoMergeTarget);
    }
    if targets.not_merged.len() > 1 {
        return Err(FlowError::AmbiguousTarget);
    }
    let target_oid = &targets.not_merged[0].1;
    proof {
        crate::targets::lemma_not_merged_tips_in_graph(
            *monorepo,
            *project,
            head_oid@,
            project.peers@.len() as int,
        );
        assert(crate::targets::pair_views(targets.not_merged@)[0].1 == target_oid@);
    }
    let t = match monorepo.graph.find_commit(target_oid) {
        Some(t) => t,
        None => {
            proof {
                assert(false);
            }
            return Err(FlowError::NoMergeBase);
        },
    };
    let h = match monorepo.graph.find_commit(head_oid) {
        Some(h) => h,
        None => {
            proof {
                assert(false);
            }
            return Err(FlowError::HeadNotInStore);
        },
    };
    proof {
        let g = monorepo.graph;
        let nm = not_merged_pairs(*monorepo, *project, head_oid@, project.peers@.len() as int);
        assert(target_oid@ == nm[0].1);
        assert(g.has_oid(nm[0].1));
        let gt = graph_index_of(g, nm[0].1);
        assert(0 <= gt < g.commits@.len() && g.commits@[gt].oid@ == nm[0].1);
        if gt != t as int {
            assert(g.commits@[gt].oid@ != g.commits@[t as int].oid@);
        }
        assert(gt == t as int);
        assert(g.has_oid(head_oid@));
        let gh = graph_index_of(g, head_oid@);
        assert(0 <= gh < g.commits@.len() && g.commits@[gh].oid@ == head_oid@);
        if gh != h as int {
            assert(g.commits@[gh].oid@ != g.commits@[h as int].oid@);
        }
        assert(gh == h as int);
    }
    let mb = match monorepo.graph.merge_base(t, h) {
        Some(mb) => mb,
        None => {
            proof {
                if exists|m: int| is_merge_base_idx(monorepo.graph, t as int, h as int, m) {
                    let m = choose|m: int| is_merge_base_idx(monorepo.graph, t as int, h as int, m);
                    assert(common_ancestor(monorepo.graph, t as int, h as int, m));
                    assert(false);
                }
            }
            return Err(FlowError::NoMergeBase);
        },
    };
    proof {
        assert(is_merge_base_idx(monorepo.graph, t as int, h as int, mb as int));
        let m2 = choose|m: int| is_merge_base_idx(monorepo.graph, t as int, h as int, m);
        lemma_merge_base_unique(monorepo.graph, t as int, h as int, m2, mb as int);
        assert(spec_merge_base(monorepo.graph, t as int, h as int) == Some(mb as int));
    }
    let chosen: Option<PatchId> = match &opts.update {
        Update::No => None,
        Update::Any => {
            let candidates = find_unmerged_with_base(
                store,
                &monorepo.graph,
                &project.urn,
                head_oid,
                t,
                mb,
            );
            if candidates.len() == 0 {
                // The patch that is already exactly at the head is excluded
                // from the candidates; finding one means there is nothing
                // to do rather than nothing to update.
                if find_own_patch_at_head(store, &project.urn, head_oid) {
                    return Ok(FlowSuccess::NothingToDo);
                }
                return Err(FlowError::NoUpdateCandidate);
            }
            if candidates.len() > 1 {
                return Err(FlowError::AmbiguousUpdate);
            }
            let ci = candidates[0];
            proof {
                let cs = candidates@.map_values(|x: usize| x as int);
                assert(cs[0] == ci as int);
                crate::matcher::lemma_candidate_indices_member(
                    store.entries@,
                    monorepo.graph,
                    project.urn@,
                    store.whoami.urn@,
                    head_oid@,
                    t as int,
                    mb as int,
                    store.entries@.len() as int,
                    ci as int,
                );
                assert(cs.contains(cs[0]));
                assert(store.entries@[ci as int].urn@ == project.urn@);
            }
            let id = Urn::new(bytes_copy(&store.entries[ci].id.bytes));
            proof {
                assert(store.has_patch(project.urn@, id@));
            }
            Some(id)
        },
        Update::Patch(identifier) => {
            match store.resolve_id(&project.urn, identifier) {
                Ok(id) => {
                    proof {
                        let i0 = choose|i0: int|
                            #[trigger] store.prefix_matches(project.urn@, identifier@, i0)
                                && store.entries@[i0].id@ == id@;
                        assert(store.prefix_matches(project.urn@, identifier@, i0));
                        let w = choose|w: int|
                            #[trigger] store.prefix_matches(project.urn@, identifier@, w);
                        assert(store.prefix_matches(project.urn@, identifier@, w));
                        assert(w == i0);
                        assert(store.entries@[w].id@ == id@);
                        assert(store.has_patch(project.urn@, id@));
                    }
                    Some(id)
                },
                Err(StoreError::Ambiguous) => {
                    return Err(FlowError::AmbiguousId);
                },
                Err(_) => {
                    return Err(FlowError::PatchNotFound);
                },
            }
        },
    };
    match chosen {
        Some(id) => {
            proof {
                assert(store.has_patch(project.urn@, id@));
            }
            if !inputs.confirm_update {
                return Err(FlowError::UserAbort);
            }
            update_flow(store, monorepo, project, &id, head_oid, branch, opts, inputs)
        },
        None => {
            if !inputs.confirm_continue {
                return Err(FlowError::UserAbort);
            }
            let buffer = match &inputs.editor_message {
                Some(buffer) => buffer,
                None => {
                    return Err(FlowError::UserAbort);
                },
            };
            let (title, description) = match parse_message(buffer, &inputs.help_marker) {
                Ok(td) => td,
                Err(MessageError::MissingBreak) => {
                    return Err(FlowError::InvalidMessage);
                },
                Err(MessageError::EmptyTitle) => {
                    return Err(FlowError::EmptyTitle);
                },
            };
            if !inputs.confirm_create {
                return Err(FlowError::UserAbort);
            }
            match store.create(
                &project.urn,
                &title,
                &description,
                MergeTarget::Upstream,
                head_oid,
                inputs.timestamp,
                &monorepo.graph,
            ) {
                Ok(id) => {
                    let sync_branch: Option<RefLike> = if opts.sync {
                        Some(branch.duplicate())
                    } else {
                        None
                    };
                    Ok(FlowSuccess::Created { id, sync_branch })
                },
                Err(_) => {
                    proof {
                        assert(false);
                    }
                    Err(FlowError::HeadNotInStore)
                },
            }
        },
    }
}

} // verus!
