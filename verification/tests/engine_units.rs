use rad_patch::graph::CommitGraph;
use rad_patch::ids::{CobIdentifier, Oid, PeerId, RefLike, Urn};
use rad_patch::lifecycle::{Comment, Options, Update};
use rad_patch::message::{parse_message, trim_bytes};
use rad_patch::person::Ens;
use rad_patch::store::{LocalIdentity, MergeTarget, PatchStore, StoreError};
use rad_patch::targets::{find_merge_targets, BranchRef, Monorepo, Project};

fn oid(n: u8) -> Oid {
    Oid::new(vec![n; 20])
}

fn peer(n: u8) -> PeerId {
    PeerId::new(vec![n; 4])
}

fn urn(n: u8) -> Urn {
    Urn::new(vec![n; 8])
}

fn reflike(s: &str) -> RefLike {
    RefLike::try_new(s.as_bytes().to_vec()).unwrap()
}

/// A - B - C in one line.
fn line_graph() -> CommitGraph {
    let mut g = CommitGraph::new();
    assert!(g.add_commit(oid(0xA0), vec![], b"a".to_vec()));
    assert!(g.add_commit(oid(0xB0), vec![0], b"b".to_vec()));
    assert!(g.add_commit(oid(0xC0), vec![1], b"c".to_vec()));
    g
}

#[test]
fn commits_between_is_minimal_and_ordered() {
    let g = line_graph();
    // Between A (base) and C (tip): exactly B and C, oldest first.
    assert_eq!(g.commits_between(0, 2), vec![1, 2]);
    // Between C and C: empty.
    assert_eq!(g.commits_between(2, 2), Vec::<usize>::new());
}

#[test]
fn merge_base_of_forked_histories() {
    let mut g = CommitGraph::new();
    assert!(g.add_commit(oid(0xA0), vec![], b"a".to_vec()));
    assert!(g.add_commit(oid(0xB0), vec![0], b"b".to_vec()));
    assert!(g.add_commit(oid(0xC0), vec![0], b"c".to_vec()));
    assert_eq!(g.merge_base(1, 2), Some(0));
    assert_eq!(g.merge_base(1, 1), Some(1));
}

#[test]
fn merge_base_of_unrelated_histories() {
    let mut g = CommitGraph::new();
    assert!(g.add_commit(oid(0xA0), vec![], b"a".to_vec()));
    assert!(g.add_commit(oid(0xB0), vec![], b"b".to_vec()));
    assert_eq!(g.merge_base(0, 1), None);
}

#[test]
fn ahead_behind_counts() {
    let mut g = CommitGraph::new();
    assert!(g.add_commit(oid(0xA0), vec![], b"a".to_vec()));
    assert!(g.add_commit(oid(0xB0), vec![0], b"b".to_vec()));
    assert!(g.add_commit(oid(0xC0), vec![0], b"c".to_vec()));
    assert!(g.add_commit(oid(0xD0), vec![2], b"d".to_vec()));
    // B is 1 ahead of D's history, and 2 behind it.
    assert_eq!(g.ahead_behind(1, 3), (1, 2));
    assert_eq!(g.ahead_behind(3, 1), (2, 1));
    assert_eq!(g.ahead_behind(1, 1), (0, 0));
}

#[test]
fn add_commit_rejects_duplicates_and_bad_parents() {
    let mut g = CommitGraph::new();
    assert!(g.add_commit(oid(0xA0), vec![], b"a".to_vec()));
    assert!(!g.add_commit(oid(0xA0), vec![], b"again".to_vec()));
    assert!(!g.add_commit(oid(0xB0), vec![5], b"b".to_vec()));
    assert_eq!(g.len(), 1);
}

#[test]
fn monotonic_versioning_of_updates() {
    let g = line_graph();
    let mut store = PatchStore::new(LocalIdentity { urn: urn(1), peer: peer(1) });
    let id = store
        .create(&urn(7), &b"t".to_vec(), &b"d".to_vec(), MergeTarget::Upstream, &oid(0xA0), 1, &g)
        .unwrap();
    assert_eq!(store.entries[0].patch.revisions.len(), 1);
    let v1 = store.update(&urn(7), &id, vec![], &oid(0xB0), &g).unwrap();
    assert_eq!(v1, 1);
    let v2 = store.update(&urn(7), &id, vec![], &oid(0xC0), &g).unwrap();
    assert_eq!(v2, 2);
    assert_eq!(store.entries[0].patch.revisions.len(), 3);
}

#[test]
fn noop_update_rejected_without_write() {
    let g = line_graph();
    let mut store = PatchStore::new(LocalIdentity { urn: urn(1), peer: peer(1) });
    let id = store
        .create(&urn(7), &b"t".to_vec(), &b"d".to_vec(), MergeTarget::Upstream, &oid(0xA0), 1, &g)
        .unwrap();
    let r = store.update(&urn(7), &id, vec![], &oid(0xA0), &g);
    assert!(matches!(r, Err(StoreError::NoOp)));
    assert_eq!(store.entries[0].patch.revisions.len(), 1);
}

#[test]
fn update_rejects_unknown_head() {
    let g = line_graph();
    let mut store = PatchStore::new(LocalIdentity { urn: urn(1), peer: peer(1) });
    let id = store
        .create(&urn(7), &b"t".to_vec(), &b"d".to_vec(), MergeTarget::Upstream, &oid(0xA0), 1, &g)
        .unwrap();
    let r = store.update(&urn(7), &id, vec![], &oid(0xEE), &g);
    assert!(matches!(r, Err(StoreError::InvalidOid)));
}

#[test]
fn create_rejects_head_missing_from_store() {
    let g = line_graph();
    let mut store = PatchStore::new(LocalIdentity { urn: urn(1), peer: peer(1) });
    let r = store.create(
        &urn(7),
        &b"t".to_vec(),
        &b"d".to_vec(),
        MergeTarget::Upstream,
        &oid(0xEE),
        1,
        &g,
    );
    assert!(matches!(r, Err(StoreError::InvalidOid)));
    assert_eq!(store.count(), 0);
}

#[test]
fn resolve_id_by_prefix() {
    let g = line_graph();
    let mut store = PatchStore::new(LocalIdentity { urn: urn(1), peer: peer(1) });
    let id1 = store
        .create(&urn(7), &b"t".to_vec(), &b"d".to_vec(), MergeTarget::Upstream, &oid(0xA0), 1, &g)
        .unwrap();
    let _id2 = store
        .create(&urn(7), &b"u".to_vec(), &b"e".to_vec(), MergeTarget::Upstream, &oid(0xB0), 2, &g)
        .unwrap();

    // The full id resolves to itself.
    let r = store.resolve_id(&urn(7), &CobIdentifier::new(id1.bytes.clone())).unwrap();
    assert_eq!(r.bytes, id1.bytes);
    // The empty prefix matches both patches.
    let r = store.resolve_id(&urn(7), &CobIdentifier::new(vec![]));
    assert!(matches!(r, Err(StoreError::Ambiguous)));
    // A prefix matching nothing.
    let r = store.resolve_id(&urn(7), &CobIdentifier::new(vec![0xEE]));
    assert!(matches!(r, Err(StoreError::NotFound)));
}

#[test]
fn find_merge_targets_is_deterministic() {
    let mut g = CommitGraph::new();
    assert!(g.add_commit(oid(0xA0), vec![], b"a".to_vec()));
    assert!(g.add_commit(oid(0xB0), vec![0], b"b".to_vec()));
    let monorepo = Monorepo {
        graph: g,
        refs: vec![
            BranchRef { peer: peer(2), name: reflike("main"), tip: oid(0xA0) },
            BranchRef { peer: peer(3), name: reflike("main"), tip: oid(0xB0) },
        ],
    };
    let project = Project {
        urn: urn(7),
        name: b"acme".to_vec(),
        default_branch: reflike("main"),
        peers: vec![peer(2), peer(3)],
    };
    let r1 = find_merge_targets(&oid(0xB0), &monorepo, &project);
    let r2 = find_merge_targets(&oid(0xB0), &monorepo, &project);
    // Peer 2's tip A does not contain B; peer 3's tip is B itself.
    assert_eq!(r1.not_merged.len(), 1);
    assert_eq!(r1.not_merged[0].0.bytes, vec![2; 4]);
    assert_eq!(r1.merged.len(), 1);
    assert_eq!(r1.merged[0].0.bytes, vec![3; 4]);
    // Two runs on the same inputs return the same lists.
    assert_eq!(r1.merged.len(), r2.merged.len());
    for (a, b) in r1.merged.iter().zip(r2.merged.iter()) {
        assert_eq!(a.0.bytes, b.0.bytes);
        assert_eq!(a.1.bytes, b.1.bytes);
    }
    assert_eq!(r1.not_merged.len(), r2.not_merged.len());
    for (a, b) in r1.not_merged.iter().zip(r2.not_merged.iter()) {
        assert_eq!(a.0.bytes, b.0.bytes);
        assert_eq!(a.1.bytes, b.1.bytes);
    }
}

#[test]
fn missing_peer_ref_is_skipped() {
    let mut g = CommitGraph::new();
    assert!(g.add_commit(oid(0xA0), vec![], b"a".to_vec()));
    assert!(g.add_commit(oid(0xB0), vec![0], b"b".to_vec()));
    let monorepo = Monorepo {
        graph: g,
        refs: vec![BranchRef { peer: peer(2), name: reflike("main"), tip: oid(0xA0) }],
    };
    let project = Project {
        urn: urn(7),
        name: b"acme".to_vec(),
        default_branch: reflike("main"),
        peers: vec![peer(2), peer(3)],
    };
    let r = find_merge_targets(&oid(0xB0), &monorepo, &project);
    assert_eq!(r.merged.len(), 0);
    assert_eq!(r.not_merged.len(), 1);
}

#[test]
fn parse_message_splits_and_trims() {
    let marker = b"<!-- help -->".to_vec();
    let buf = b"Fix thing\n\n  Details.  ".to_vec();
    let (title, desc) = parse_message(&buf, &marker).unwrap();
    assert_eq!(title, b"Fix thing".to_vec());
    assert_eq!(desc, b"Details.".to_vec());
}

#[test]
fn parse_message_removes_help_marker() {
    let marker = b"<!-- help -->".to_vec();
    let buf = b"Fix thing\n\nDetails.\n<!-- help -->".to_vec();
    let (_, desc) = parse_message(&buf, &marker).unwrap();
    assert_eq!(desc, b"Details.\n".to_vec());
}

#[test]
fn parse_message_requires_blank_line() {
    let marker = b"<!-- help -->".to_vec();
    let r = parse_message(&b"Fix thing only".to_vec(), &marker);
    assert!(r.is_err());
}

#[test]
fn parse_message_rejects_empty_title() {
    let marker = b"<!-- help -->".to_vec();
    let r = parse_message(&b"   \n\nDetails.".to_vec(), &marker);
    assert!(r.is_err());
}

#[test]
fn reference_names_are_validated() {
    assert!(RefLike::try_new(b"main".to_vec()).is_some());
    assert!(RefLike::try_new(b"feature/x".to_vec()).is_some());
    assert!(RefLike::try_new(b"".to_vec()).is_none());
    assert!(RefLike::try_new(b"-lead".to_vec()).is_none());
    assert!(RefLike::try_new(b"a..b".to_vec()).is_none());
    assert!(RefLike::try_new(b"a b".to_vec()).is_none());
    assert!(RefLike::try_new(b"a\tb".to_vec()).is_none());
}

#[test]
fn ens_namespace_is_stable() {
    let ens = Ens { name: String::from("alice.eth") };
    assert_eq!(ens.name, "alice.eth");
    assert_eq!(Ens::namespace(), "https://radicle.xyz/ethereum/ens/v1");
}

#[test]
fn update_by_non_owner_is_rejected() {
    let g = line_graph();
    let mut store = PatchStore::new(LocalIdentity { urn: urn(1), peer: peer(1) });
    let id = store
        .create(&urn(7), &b"t".to_vec(), &b"d".to_vec(), MergeTarget::Upstream, &oid(0xA0), 1, &g)
        .unwrap();
    // Another peer's replica acts on the same object.
    store.whoami = LocalIdentity { urn: urn(2), peer: peer(2) };
    let r = store.update(&urn(7), &id, vec![], &oid(0xB0), &g);
    assert!(matches!(r, Err(StoreError::NotOwner)));
    assert_eq!(store.entries[0].patch.revisions.len(), 1);
}

#[test]
fn latest_and_head_report_newest_revision() {
    let g = line_graph();
    let mut store = PatchStore::new(LocalIdentity { urn: urn(1), peer: peer(1) });
    let id = store
        .create(&urn(7), &b"t".to_vec(), &b"d".to_vec(), MergeTarget::Upstream, &oid(0xA0), 1, &g)
        .unwrap();
    store.update(&urn(7), &id, b"c".to_vec(), &oid(0xB0), &g).unwrap();
    let p = &store.entries[0].patch;
    let (version, revision) = p.latest();
    assert_eq!(version, 1);
    assert_eq!(revision.oid.bytes, vec![0xB0; 20]);
    assert_eq!(revision.comment, b"c".to_vec());
    assert_eq!(p.head().bytes, vec![0xB0; 20]);
}

#[test]
fn defaults_match_the_command_surface() {
    let o = Options::default();
    assert!(!o.list);
    assert!(!o.verbose);
    assert!(!o.sync);
    assert!(matches!(o.update, Update::No));
    assert!(matches!(o.comment, Comment::Editor));
    assert!(matches!(Update::default(), Update::No));
    assert!(matches!(Comment::default(), Comment::Editor));
}

#[test]
fn trim_strips_ascii_whitespace() {
    assert_eq!(trim_bytes(&b"  a b\t\n".to_vec()), b"a b".to_vec());
    assert_eq!(trim_bytes(&b"\r\n".to_vec()), Vec::<u8>::new());
    assert_eq!(trim_bytes(&b"x".to_vec()), b"x".to_vec());
}

#[test]
fn commit_set_between_merge_base_and_tip() {
    // Fork: A with children B and C. The merge base of B and C is A, and the
    // patch set from the base to C is exactly C.
    let mut g = CommitGraph::new();
    assert!(g.add_commit(oid(0xA0), vec![], b"a".to_vec()));
    assert!(g.add_commit(oid(0xB0), vec![0], b"b".to_vec()));
    assert!(g.add_commit(oid(0xC0), vec![0], b"c".to_vec()));
    let mb = g.merge_base(1, 2).unwrap();
    assert_eq!(mb, 0);
    assert_eq!(g.commits_between(mb, 2), vec![2]);
}
