use abra::capsule::{Genesis, LabelOp, LeaseMode, LeaseRecord};
use abra::cas::Digest;
use abra::history::{fork_label, Capsule};
use abra::identity::{Identity, PeerId};
use abra::manifest::{Manifest, RawManifest};
use abra::store::{label_file, lease_file, AbraStore};

const START: &str = "2026-08-28T00:00:00.000Z";
const LATER: &str = "2026-08-28T01:00:00.000Z";
const DAY: &str = "2026-08-29T00:00:00.000Z";
const NEXT: &str = "2026-08-29T01:00:00.000Z";

fn genesis(creator: &Identity) -> Genesis {
    Genesis::new(
        Digest::from_bytes([8; 32]),
        START.to_owned(),
        "dev.abra.workspace".to_owned(),
        "x".to_owned(),
        creator,
    )
    .unwrap()
}

fn lease(
    g: &Genesis,
    holder: PeerId,
    epoch: u64,
    mode: LeaseMode,
    prev: Digest,
    signer: &Identity,
) -> LeaseRecord {
    let (from, to) = if epoch == 1 { (START, DAY) } else { (LATER, NEXT) };
    LeaseRecord::new(
        g.capsule_id,
        holder,
        epoch,
        mode,
        from.to_owned(),
        to.to_owned(),
        prev,
        signer,
    )
    .unwrap()
}

fn grant(g: &Genesis, creator: &Identity) -> LeaseRecord {
    lease(g, creator.peer_id(), 1, LeaseMode::Grant, g.hash().unwrap(), creator)
}

#[test]
fn lease_gap_race_and_live_takeover() {
    let creator = Identity::from_secret_bytes(&[4; 32]);
    let a = Identity::from_secret_bytes(&[5; 32]);
    let b = Identity::from_secret_bytes(&[6; 32]);
    let g = genesis(&creator);
    let mut c = Capsule::new(g.clone()).unwrap();
    let l1 = grant(&g, &creator);
    assert!(c.accept_lease(l1.clone()).unwrap());
    let l1_hash = l1.hash().unwrap();
    let gap = lease(&g, a.peer_id(), 3, LeaseMode::Takeover, l1_hash, &a);
    assert!(!c.accept_lease(gap).unwrap());
    let mut race = [
        lease(&g, a.peer_id(), 2, LeaseMode::Takeover, l1_hash, &a),
        lease(&g, b.peer_id(), 2, LeaseMode::Takeover, l1_hash, &b),
    ];
    race.sort_by_key(|x| x.sig.to_bytes());
    assert!(c.accept_lease(race[0].clone()).unwrap());
    assert!(c.accept_lease(race[1].clone()).unwrap());
    assert_eq!(c.winning_lease().unwrap().holder, race[1].holder);
}

#[test]
fn leases_of_others_are_refused() {
    let creator = Identity::from_secret_bytes(&[4; 32]);
    let a = Identity::from_secret_bytes(&[5; 32]);
    let g = genesis(&creator);
    g.verify().unwrap();
    let mut c = Capsule::new(g.clone()).unwrap();
    let l1 = grant(&g, &creator);
    // Not the creator's grant, and not signed by the holder before.
    let stolen = lease(&g, a.peer_id(), 1, LeaseMode::Grant, g.hash().unwrap(), &a);
    assert!(c.accept_lease(stolen).is_err());
    c.accept_lease(l1.clone()).unwrap();
    let forged = lease(&g, a.peer_id(), 2, LeaseMode::Transfer, l1.hash().unwrap(), &a);
    assert!(c.accept_lease(forged).is_err());
    let handed = lease(&g, a.peer_id(), 2, LeaseMode::Transfer, l1.hash().unwrap(), &creator);
    assert!(c.accept_lease(handed).unwrap());
    assert_eq!(c.winning_lease().unwrap().holder, a.peer_id());
}

fn snapshot(capsule: Digest, origin: &Identity, title: &str, parents: Vec<Digest>) -> RawManifest {
    let mut m = Manifest::full(
        "dev.abra.workspace".to_owned(),
        title.to_owned(),
        origin.peer_id(),
        1_800_000_000_000,
        capsule,
    );
    m.parents = parents;
    RawManifest::parse(m.to_canonical_bytes().unwrap()).unwrap()
}

fn label(g: &Genesis, seq: u64, name: &str, target: Digest, signer: &Identity) -> LabelOp {
    LabelOp::new(g.capsule_id, seq, name.to_owned(), target, 1, START.to_owned(), signer).unwrap()
}

#[test]
fn main_moves_with_the_lease_and_forks_are_labelled() {
    let creator = Identity::from_secret_bytes(&[4; 32]);
    let other = Identity::from_secret_bytes(&[5; 32]);
    let g = genesis(&creator);
    let mut store = AbraStore::new();
    store.add_capsule(g.clone(), grant(&g, &creator)).unwrap();
    let root = snapshot(g.capsule_id, &creator, "root", vec![]);
    let root_id = root.snapshot_id();
    let written = store.receive_full(root, START.to_owned(), None).unwrap();
    assert!(!written.forked);
    let main = label(&g, 1, "main", root_id, &creator);
    assert!(store.apply_label(main, creator.peer_id()).unwrap());
    let stranger = label(&g, 2, "main", root_id, &other);
    assert!(store.apply_label(stranger, other.peer_id()).is_err());
    let fork = snapshot(g.capsule_id, &other, "fork", vec![root_id]);
    let fork_id = fork.snapshot_id();
    let written = store.receive_full(fork, START.to_owned(), None).unwrap();
    assert!(written.forked);
    assert_eq!(written.fork_label.unwrap(), fork_label(&fork_id));
    let op = store
        .record_fork_label(g.capsule_id, fork_id, START.to_owned(), &creator)
        .unwrap();
    assert_eq!(op.seq, 1);
    let capsule = store.capsules.get(&g.capsule_id).unwrap();
    assert_eq!(capsule.label("main").unwrap().snapshot_id, root_id);
    assert_eq!(capsule.label(&fork_label(&fork_id)).unwrap().snapshot_id, fork_id);
    assert!(lease_file(&grant(&g, &creator)).unwrap().starts_with("00000000000000000001-"));
    assert!(label_file(&op).ends_with(".cjson"));
}

#[test]
fn orphans_settle_when_their_parent_arrives_and_histories_are_rebuilt() {
    let creator = Identity::from_secret_bytes(&[4; 32]);
    let g = genesis(&creator);
    let mut store = AbraStore::new();
    store.add_capsule(g.clone(), grant(&g, &creator)).unwrap();
    let root = snapshot(g.capsule_id, &creator, "root", vec![]);
    let root_id = root.snapshot_id();
    let child = snapshot(g.capsule_id, &creator, "child", vec![root_id]);
    let child_id = child.snapshot_id();
    assert!(store.receive_full(child.clone(), START.to_owned(), None).unwrap().forked);
    let find = |s: &AbraStore| {
        s.capsules.get(&g.capsule_id).unwrap().snapshot(&child_id).unwrap().orphan
    };
    assert!(find(&store));
    store.receive_full(root.clone(), START.to_owned(), None).unwrap();
    assert!(!find(&store));
    let again = snapshot(g.capsule_id, &creator, "second root", vec![]);
    assert!(store.receive_full(again, START.to_owned(), None).is_err());
    let main = label(&g, 1, "main", child_id, &creator);
    let rebuilt = Capsule::rebuild(
        g.clone(),
        &vec![grant(&g, &creator)],
        vec![(child, START.to_owned()), (root, START.to_owned())],
        &vec![(main, creator.peer_id())],
    )
    .unwrap();
    assert_eq!(rebuilt.label("main").unwrap().snapshot_id, child_id);
    assert_eq!(rebuilt.winning_lease().unwrap().epoch, 1);
}

#[test]
fn a_fork_is_filed_with_its_label_or_not_at_all() {
    let me = Identity::generate();
    let other = Identity::generate();
    let g = genesis(&me);
    let mut store = AbraStore::new();
    store.add_capsule(g.clone(), grant(&g, &me)).unwrap();
    // Whoever holds the lease makes no fork, signer or not.
    let root = snapshot(g.capsule_id, &me, "root", vec![]);
    let written = store.receive_full(root.clone(), START.to_owned(), Some(&me)).unwrap();
    assert!(!written.forked);
    let forks: Vec<RawManifest> = (0..70)
        .map(|i| snapshot(g.capsule_id, &other, &format!("fork {i}"), vec![root.snapshot_id()]))
        .collect();
    let mut refused = None;
    for fork in &forks {
        let before = store.capsules.get(&g.capsule_id).unwrap().clone();
        match store.receive_full(fork.clone(), START.to_owned(), Some(&me)) {
            Ok(written) => {
                assert!(written.forked);
                let capsule = store.capsules.get(&g.capsule_id).unwrap();
                let label = capsule.label(&fork_label(&fork.snapshot_id())).unwrap();
                assert_eq!(label.snapshot_id, fork.snapshot_id());
                label.verify_with(&me.peer_id()).unwrap();
            }
            Err(error) => {
                let capsule = store.capsules.get(&g.capsule_id).unwrap();
                assert_eq!(capsule.snapshots, before.snapshots);
                assert_eq!(capsule.labels, before.labels);
                refused = Some(error.message());
                break;
            }
        }
    }
    assert!(refused.unwrap().contains("fork label limit exceeded"));
    // Without a signer the snapshot alone is filed.
    let last = snapshot(g.capsule_id, &other, "last", vec![root.snapshot_id()]);
    assert!(store.receive_full(last.clone(), START.to_owned(), None).unwrap().forked);
    let capsule = store.capsules.get(&g.capsule_id).unwrap();
    assert!(capsule.snapshot(&last.snapshot_id()).is_some());
    assert!(capsule.label(&fork_label(&last.snapshot_id())).is_none());
}

#[test]
fn partial_snapshots_go_to_the_inbox() {
    let sender = Identity::generate();
    let m = Manifest::partial(
        "dev.abra.bundle".to_owned(),
        "t".to_owned(),
        sender.peer_id(),
        1,
    );
    let raw = RawManifest::parse(m.to_canonical_bytes().unwrap()).unwrap();
    let id = raw.snapshot_id();
    let mut store = AbraStore::new();
    store.receive_partial(raw, sender.peer_id().to_hex(), START.to_owned()).unwrap();
    assert!(!store.inbox.get(&id).unwrap().read);
    store.mark_inbox_read(id).unwrap();
    assert!(store.inbox.get(&id).unwrap().read);
    assert!(store.mark_inbox_read(Digest::of(b"absent")).is_err());
    let g = genesis(&sender);
    let full = snapshot(g.capsule_id, &sender, "x", vec![]);
    assert!(store.receive_partial(full.clone(), String::new(), START.to_owned()).is_err());
    assert!(store.receive_full(full, START.to_owned(), None).is_err());
}
