use rad_patch::graph::CommitGraph;
use rad_patch::ids::{CobIdentifier, Oid, PeerId, RefLike, Urn};
use rad_patch::lifecycle::{
    create_flow, Comment, FlowError, FlowInputs, FlowSuccess, HeadState, Options, Update,
};
use rad_patch::list::{partition_proposed, timeline, EventRef};
use rad_patch::store::{
    Author, Lazy, LocalIdentity, Merge, Patch, PatchStore, Review, Revision, StoredPatch,
    MergeTarget, Verdict,
};
use rad_patch::targets::{BranchRef, Monorepo, Project};

fn oid(n: u8) -> Oid {
    Oid::new(vec![n; 20])
}

fn peer(n: u8) -> PeerId {
    PeerId::new(vec![n; 4])
}

fn urn(n: u8) -> Urn {
    Urn::new(vec![n; 8])
}

fn reflike(s: &str) -> RefLike {
    RefLike::try_new(s.as_bytes().to_vec()).unwrap()
}

fn whoami() -> LocalIdentity {
    LocalIdentity { urn: urn(1), peer: peer(1) }
}

/// Monorepo with commit A at index 0 and the tracked peer's `main` at A.
fn base_monorepo() -> Monorepo {
    let mut graph = CommitGraph::new();
    assert!(graph.add_commit(oid(0xA0), vec![], b"init".to_vec()));
    Monorepo {
        graph,
        refs: vec![BranchRef { peer: peer(2), name: reflike("main"), tip: oid(0xA0) }],
    }
}

fn base_project() -> Project {
    Project {
        urn: urn(7),
        name: b"acme".to_vec(),
        default_branch: reflike("main"),
        peers: vec![peer(2)],
    }
}

fn inputs(editor: Option<&[u8]>) -> FlowInputs {
    FlowInputs {
        editor_message: editor.map(|b| b.to_vec()),
        comment_editor: None,
        help_marker: b"<!-- enter a patch message -->".to_vec(),
        confirm_continue: true,
        confirm_update: true,
        confirm_create: true,
        timestamp: 42,
    }
}

fn opts_create() -> Options {
    Options {
        list: false,
        verbose: false,
        sync: false,
        update: Update::No,
        comment: Comment::Blank,
    }
}

fn opts_update() -> Options {
    Options {
        list: false,
        verbose: false,
        sync: false,
        update: Update::Any,
        comment: Comment::Blank,
    }
}

#[test]
fn create_minimal_patch() {
    // Working branch `feature` is at B, a child of A; the peer's `main` is
    // at A.
    let mut monorepo = base_monorepo();
    assert!(monorepo.graph.add_commit(oid(0xB0), vec![0], b"Fix thing".to_vec()));
    let project = base_project();
    let mut store = PatchStore::new(whoami());
    let head = HeadState::Branch { name: reflike("feature"), oid: oid(0xB0) };

    let r = create_flow(
        &mut store,
        &monorepo,
        &project,
        &head,
        &opts_create(),
        &inputs(Some(b"Fix thing\n\nDetails.")),
    );
    match r {
        Ok(FlowSuccess::Created { sync_branch, .. }) => assert!(sync_branch.is_none()),
        other => panic!("expected a created patch, got {:?}", discriminant_name(&other)),
    }
    assert_eq!(store.count(), 1);
    let p = &store.entries[0].patch;
    assert_eq!(p.title, b"Fix thing".to_vec());
    assert_eq!(p.description, b"Details.".to_vec());
    assert!(matches!(p.target, MergeTarget::Upstream));
    assert_eq!(p.revisions.len(), 1);
    assert_eq!(p.revisions[0].oid.bytes, vec![0xB0; 20]);
    assert!(p.revisions[0].merges.is_empty());
    assert!(p.revisions[0].reviews.is_empty());
    assert_eq!(p.author.urn.bytes, whoami().urn.bytes);
}

fn discriminant_name(r: &Result<FlowSuccess, FlowError>) -> &'static str {
    match r {
        Ok(FlowSuccess::Created { .. }) => "created",
        Ok(FlowSuccess::Updated { .. }) => "updated",
        Ok(FlowSuccess::NothingToDo) => "nothing-to-do",
        Err(_) => "error",
    }
}

#[test]
fn update_existing_patch() {
    // After creating a patch at B, advance `feature` to C and update.
    let mut monorepo = base_monorepo();
    assert!(monorepo.graph.add_commit(oid(0xB0), vec![0], b"Fix thing".to_vec()));
    let project = base_project();
    let mut store = PatchStore::new(whoami());
    let head_b = HeadState::Branch { name: reflike("feature"), oid: oid(0xB0) };
    let r1 = create_flow(
        &mut store,
        &monorepo,
        &project,
        &head_b,
        &opts_create(),
        &inputs(Some(b"Fix thing\n\nDetails.")),
    );
    assert!(matches!(r1, Ok(FlowSuccess::Created { .. })));
    let id_before = store.entries[0].id.bytes.clone();

    assert!(monorepo.graph.add_commit(oid(0xC0), vec![1], b"more".to_vec()));
    let head_c = HeadState::Branch { name: reflike("feature"), oid: oid(0xC0) };
    let r2 = create_flow(&mut store, &monorepo, &project, &head_c, &opts_update(), &inputs(None));
    match r2 {
        Ok(FlowSuccess::Updated { id, version, .. }) => {
            assert_eq!(version, 1);
            assert_eq!(id.bytes, id_before);
        },
        other => panic!("expected an update, got {}", discriminant_name(&other)),
    }
    assert_eq!(store.count(), 1);
    let p = &store.entries[0].patch;
    assert_eq!(p.revisions.len(), 2);
    assert_eq!(p.revisions[0].oid.bytes, vec![0xB0; 20]);
    assert_eq!(p.revisions[1].oid.bytes, vec![0xC0; 20]);
    assert!(p.revisions[1].merges.is_empty());
    assert!(p.revisions[1].reviews.is_empty());
}

#[test]
fn noop_update_reports_nothing_to_do() {
    let mut monorepo = base_monorepo();
    assert!(monorepo.graph.add_commit(oid(0xB0), vec![0], b"Fix thing".to_vec()));
    let project = base_project();
    let mut store = PatchStore::new(whoami());
    let head_b = HeadState::Branch { name: reflike("feature"), oid: oid(0xB0) };
    let r1 = create_flow(
        &mut store,
        &monorepo,
        &project,
        &head_b,
        &opts_create(),
        &inputs(Some(b"Fix thing\n\nDetails.")),
    );
    assert!(matches!(r1, Ok(FlowSuccess::Created { .. })));

    // HEAD unchanged: the patch is already at B.
    let r2 = create_flow(&mut store, &monorepo, &project, &head_b, &opts_update(), &inputs(None));
    assert!(matches!(r2, Ok(FlowSuccess::NothingToDo)));
    assert_eq!(store.count(), 1);
    assert_eq!(store.entries[0].patch.revisions.len(), 1);
}

#[test]
fn ambiguous_auto_update_aborts() {
    // Two of the author's unmerged patches fork from A; `--update` without
    // an id cannot choose.
    let mut monorepo = base_monorepo();
    assert!(monorepo.graph.add_commit(oid(0xB0), vec![0], b"one".to_vec()));
    assert!(monorepo.graph.add_commit(oid(0xC0), vec![0], b"two".to_vec()));
    let project = base_project();
    let mut store = PatchStore::new(whoami());
    let r1 = create_flow(
        &mut store,
        &monorepo,
        &project,
        &HeadState::Branch { name: reflike("one"), oid: oid(0xB0) },
        &opts_create(),
        &inputs(Some(b"One\n\nFirst.")),
    );
    assert!(matches!(r1, Ok(FlowSuccess::Created { .. })));
    let r2 = create_flow(
        &mut store,
        &monorepo,
        &project,
        &HeadState::Branch { name: reflike("two"), oid: oid(0xC0) },
        &opts_create(),
        &inputs(Some(b"Two\n\nSecond.")),
    );
    assert!(matches!(r2, Ok(FlowSuccess::Created { .. })));
    assert_eq!(store.count(), 2);

    // A third branch at D, also a child of A.
    assert!(monorepo.graph.add_commit(oid(0xD0), vec![0], b"three".to_vec()));
    let r3 = create_flow(
        &mut store,
        &monorepo,
        &project,
        &HeadState::Branch { name: reflike("three"), oid: oid(0xD0) },
        &opts_update(),
        &inputs(None),
    );
    assert!(matches!(r3, Err(FlowError::AmbiguousUpdate)));
    assert_eq!(store.count(), 2);
    assert_eq!(store.entries[0].patch.revisions.len(), 1);
    assert_eq!(store.entries[1].patch.revisions.len(), 1);
}

#[test]
fn head_not_in_store_aborts() {
    // The feature tip was never pushed to the monorepo.
    let monorepo = base_monorepo();
    let project = base_project();
    let mut store = PatchStore::new(whoami());
    let head = HeadState::Branch { name: reflike("feature"), oid: oid(0xB0) };
    let r = create_flow(
        &mut store,
        &monorepo,
        &project,
        &head,
        &opts_create(),
        &inputs(Some(b"Fix thing\n\nDetails.")),
    );
    assert!(matches!(r, Err(FlowError::HeadNotInStore)));
    assert_eq!(store.count(), 0);
}

#[test]
fn list_with_mixed_authorship() {
    let mut monorepo = base_monorepo();
    assert!(monorepo.graph.add_commit(oid(0xB0), vec![0], b"Fix thing".to_vec()));
    let project = base_project();
    let mut store = PatchStore::new(whoami());
    let r1 = create_flow(
        &mut store,
        &monorepo,
        &project,
        &HeadState::Branch { name: reflike("feature"), oid: oid(0xB0) },
        &opts_create(),
        &inputs(Some(b"Mine\n\nBy me.")),
    );
    assert!(matches!(r1, Ok(FlowSuccess::Created { .. })));

    // A patch by peer X, replicated into this store.
    store.entries.push(StoredPatch {
        id: Urn::new(vec![9; 8]),
        urn: urn(7),
        patch: Patch {
            author: Author { urn: urn(3), peer: peer(3), name: Lazy::Unresolved },
            title: b"Theirs".to_vec(),
            description: b"By X.".to_vec(),
            target: MergeTarget::Upstream,
            timestamp: 40,
            revisions: vec![Revision {
                oid: oid(0xB0),
                comment: vec![],
                merges: vec![],
                reviews: vec![],
            }],
        },
    });

    let (own, other) = partition_proposed(&store, &urn(7));
    assert_eq!(own, vec![0]);
    assert_eq!(other, vec![1]);
    assert_eq!(store.entries[own[0]].patch.title, b"Mine".to_vec());
    assert_eq!(store.entries[other[0]].patch.title, b"Theirs".to_vec());
}

#[test]
fn timeline_sorted_by_timestamp() {
    let rev = Revision {
        oid: oid(0xB0),
        comment: vec![],
        merges: vec![Merge { peer: peer(2), timestamp: 5, base_oid: oid(0xA0) }],
        reviews: vec![
            (
                peer(3),
                Review {
                    author: Author { urn: urn(3), peer: peer(3), name: Lazy::Unresolved },
                    verdict: Verdict::Accept,
                    timestamp: 3,
                    comment: None,
                },
            ),
            (
                peer(4),
                Review {
                    author: Author { urn: urn(4), peer: peer(4), name: Lazy::Unresolved },
                    verdict: Verdict::Reject,
                    timestamp: 9,
                    comment: None,
                },
            ),
        ],
    };
    let tl = timeline(&rev);
    assert_eq!(tl.len(), 3);
    assert_eq!(tl[0], EventRef { is_merge: false, index: 0 });
    assert_eq!(tl[1], EventRef { is_merge: true, index: 0 });
    assert_eq!(tl[2], EventRef { is_merge: false, index: 1 });
    // Rendering shows the newest event first.
    let newest = tl[tl.len() - 1];
    assert!(!newest.is_merge);
    assert_eq!(rev.reviews[newest.index].1.timestamp, 9);
}

#[test]
fn update_by_id_uses_resolved_patch() {
    let mut monorepo = base_monorepo();
    assert!(monorepo.graph.add_commit(oid(0xB0), vec![0], b"one".to_vec()));
    let project = base_project();
    let mut store = PatchStore::new(whoami());
    let r1 = create_flow(
        &mut store,
        &monorepo,
        &project,
        &HeadState::Branch { name: reflike("one"), oid: oid(0xB0) },
        &opts_create(),
        &inputs(Some(b"One\n\nFirst.")),
    );
    assert!(matches!(r1, Ok(FlowSuccess::Created { .. })));
    let full_id = store.entries[0].id.bytes.clone();

    assert!(monorepo.graph.add_commit(oid(0xC0), vec![1], b"more".to_vec()));
    let mut opts = opts_update();
    opts.update = Update::Patch(CobIdentifier::new(full_id[0..4].to_vec()));
    let r2 = create_flow(
        &mut store,
        &monorepo,
        &project,
        &HeadState::Branch { name: reflike("one"), oid: oid(0xC0) },
        &opts,
        &inputs(None),
    );
    assert!(matches!(r2, Ok(FlowSuccess::Updated { version: 1, .. })));
}

#[test]
fn no_merge_target_when_all_peers_contain_head() {
    // The peer's main is already at B, the head: nothing to propose against.
    let mut monorepo = base_monorepo();
    assert!(monorepo.graph.add_commit(oid(0xB0), vec![0], b"Fix thing".to_vec()));
    monorepo.refs[0].tip = oid(0xB0);
    let project = base_project();
    let mut store = PatchStore::new(whoami());
    let r = create_flow(
        &mut store,
        &monorepo,
        &project,
        &HeadState::Branch { name: reflike("feature"), oid: oid(0xB0) },
        &opts_create(),
        &inputs(Some(b"Fix thing\n\nDetails.")),
    );
    assert!(matches!(r, Err(FlowError::NoMergeTarget)));
    assert_eq!(store.count(), 0);
}

#[test]
fn detached_head_aborts() {
    let monorepo = base_monorepo();
    let project = base_project();
    let mut store = PatchStore::new(whoami());
    let r = create_flow(
        &mut store,
        &monorepo,
        &project,
        &HeadState::Detached { oid: oid(0xA0) },
        &opts_create(),
        &inputs(Some(b"X\n\nY.")),
    );
    assert!(matches!(r, Err(FlowError::DetachedHead)));
}

#[test]
fn user_abort_leaves_store_unchanged() {
    let mut monorepo = base_monorepo();
    assert!(monorepo.graph.add_commit(oid(0xB0), vec![0], b"Fix thing".to_vec()));
    let project = base_project();
    let mut store = PatchStore::new(whoami());
    let mut ins = inputs(Some(b"Fix thing\n\nDetails."));
    ins.confirm_create = false;
    let r = create_flow(
        &mut store,
        &monorepo,
        &project,
        &HeadState::Branch { name: reflike("feature"), oid: oid(0xB0) },
        &opts_create(),
        &ins,
    );
    assert!(matches!(r, Err(FlowError::UserAbort)));
    assert_eq!(store.count(), 0);
}

#[test]
fn sync_branch_returned_when_sync_enabled() {
    let mut monorepo = base_monorepo();
    assert!(monorepo.graph.add_commit(oid(0xB0), vec![0], b"Fix thing".to_vec()));
    let project = base_project();
    let mut store = PatchStore::new(whoami());
    let mut opts = opts_create();
    opts.sync = true;
    let r = create_flow(
        &mut store,
        &monorepo,
        &project,
        &HeadState::Branch { name: reflike("feature"), oid: oid(0xB0) },
        &opts,
        &inputs(Some(b"Fix thing\n\nDetails.")),
    );
    match r {
        Ok(FlowSuccess::Created { sync_branch, .. }) => {
            assert_eq!(sync_branch.unwrap().as_bytes(), &b"feature".to_vec());
        },
        other => panic!("expected a created patch, got {}", discriminant_name(&other)),
    }
}

#[test]
fn closed_editor_aborts_creation() {
    let mut monorepo = base_monorepo();
    assert!(monorepo.graph.add_commit(oid(0xB0), vec![0], b"Fix thing".to_vec()));
    let project = base_project();
    let mut store = PatchStore::new(whoami());
    // The editor was closed without saving: no message buffer.
    let r = create_flow(
        &mut store,
        &monorepo,
        &project,
        &HeadState::Branch { name: reflike("feature"), oid: oid(0xB0) },
        &opts_create(),
        &inputs(None),
    );
    assert!(matches!(r, Err(FlowError::UserAbort)));
    assert_eq!(store.count(), 0);
}

#[test]
fn no_update_candidate_aborts() {
    // `--update` with no patch sharing the base and none at the head.
    let mut monorepo = base_monorepo();
    assert!(monorepo.graph.add_commit(oid(0xB0), vec![0], b"one".to_vec()));
    let project = base_project();
    let mut store = PatchStore::new(whoami());
    let r = create_flow(
        &mut store,
        &monorepo,
        &project,
        &HeadState::Branch { name: reflike("one"), oid: oid(0xB0) },
        &opts_update(),
        &inputs(None),
    );
    assert!(matches!(r, Err(FlowError::NoUpdateCandidate)));
    assert_eq!(store.count(), 0);
}

#[test]
fn declined_update_confirmation_aborts() {
    let mut monorepo = base_monorepo();
    assert!(monorepo.graph.add_commit(oid(0xB0), vec![0], b"one".to_vec()));
    let project = base_project();
    let mut store = PatchStore::new(whoami());
    let r1 = create_flow(
        &mut store,
        &monorepo,
        &project,
        &HeadState::Branch { name: reflike("one"), oid: oid(0xB0) },
        &opts_create(),
        &inputs(Some(b"One\n\nFirst.")),
    );
    assert!(matches!(r1, Ok(FlowSuccess::Created { .. })));
    assert!(monorepo.graph.add_commit(oid(0xC0), vec![1], b"more".to_vec()));
    let mut ins = inputs(None);
    ins.confirm_update = false;
    let r2 = create_flow(
        &mut store,
        &monorepo,
        &project,
        &HeadState::Branch { name: reflike("one"), oid: oid(0xC0) },
        &opts_update(),
        &ins,
    );
    assert!(matches!(r2, Err(FlowError::UserAbort)));
    assert_eq!(store.entries[0].patch.revisions.len(), 1);
}
