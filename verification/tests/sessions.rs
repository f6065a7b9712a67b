use abra::cas::Digest;
use abra::identity::{Identity, PeerId};
use abra::link::LinkMode;
use abra::manifest::{Fingerprint, Manifest, NativeBlobRef, RawManifest};
use abra::net::ack::Ack;
use abra::net::auth::{Role, FEATURE_SKIP_NATIVE};
use abra::net::clock::format_time;
use abra::net::delivery::{
    check_due, check_recipient, conclude, health_step, plan_of, take_have, take_receipt,
    HealthFrame,
};
use abra::net::error::Error;
use abra::net::framing::{ObjectHeader, ObjectKind};
use abra::net::handshake::{check_advertised, check_dialed, check_proof, prove};
use abra::net::hello::{Ping, Pong};
use abra::net::incoming::{
    answer_offer, open_relay_delivery, Incoming, OfferAnswer, PlanRefusal,
};
use abra::net::offer::Offer;
use abra::net::outbox::{Outbox, OutboxState};
use abra::net::pack::{check_relay_closure, relay_delivery, RelayPayload};
use abra::net::plan::{digest_set, Have, Holding, Plan, PlanObject};
use abra::net::send::{active_holder, build_offer};
use abra::net::trust::{TrustDisk, TrustStore, TrustedPeer};
use abra::reach::{linked_objects, portable_objects, reached_objects};
use abra::table::Table;

const NOW: u64 = 1_800_000_000_000;

fn full_peer(id: PeerId) -> TrustedPeer {
    TrustedPeer {
        peer_id: id,
        name: "peer".to_owned(),
        role: Role::Full,
        x25519_pk: [0; 32],
        relay_key: None,
        token_id: None,
        scopes: None,
        expires_at: None,
        addresses: Vec::new(),
    }
}

fn trusting(peers: &[PeerId]) -> TrustStore {
    let mut trust = TrustStore::open(TrustDisk::empty());
    for peer in peers {
        trust.insert(full_peer(*peer)).unwrap();
    }
    trust
}

fn native_ref(bytes: &[u8]) -> NativeBlobRef {
    let host = Fingerprint::new("linux".to_owned(), "x".to_owned(), "none".to_owned());
    NativeBlobRef::new(&host, "memory".to_owned(), Digest::of(bytes), bytes.len() as u64)
}

fn raw(origin: PeerId, native: &[&[u8]], thumbnail: Option<&[u8]>) -> RawManifest {
    let mut m =
        Manifest::partial("dev.abra.bundle".to_owned(), "t".to_owned(), origin, NOW);
    m.native = native.iter().map(|b| native_ref(b)).collect();
    m.thumbnail = thumbnail.map(Digest::of);
    RawManifest::parse(m.to_canonical_bytes().unwrap()).unwrap()
}

fn object(bytes: &[u8]) -> PlanObject {
    PlanObject { digest: Digest::of(bytes), kind: "blob".to_owned(), bytes: bytes.len() as u64 }
}

fn offer_of(trust: &TrustStore, to: PeerId, raw: &RawManifest, bytes: u64, count: u64) -> Offer {
    let mut outbox = Outbox::open(Table::new());
    let id = outbox.enqueue(to, raw.snapshot_id(), raw.bytes().to_vec(), NOW);
    build_offer(trust, None, None, outbox.get(&id).unwrap(), raw, bytes, count, NOW, None)
}

fn stream(bytes: &[u8]) -> Vec<u8> {
    let header = ObjectHeader {
        kind: ObjectKind::Blob,
        digest: Digest::of(bytes),
        total_size: bytes.len() as u64,
        offset: 0,
    };
    let mut out = header.encode().to_vec();
    out.extend_from_slice(bytes);
    out
}

#[test]
fn offers_are_answered() {
    let sender = Identity::generate();
    let me = Identity::generate();
    let mut trust = trusting(&[sender.peer_id(), me.peer_id()]);
    let raw = raw(sender.peer_id(), &[], None);
    let mut offer = offer_of(&trust, me.peer_id(), &raw, 0, 0);
    match answer_offer(&mut trust, &offer, sender.peer_id(), NOW) {
        OfferAnswer::Accept(accept, read) => {
            assert_eq!(accept.message_type, "offer-accept");
            assert_eq!(accept.offer_id, offer.offer_id);
            assert_eq!(read, raw);
        }
        OfferAnswer::Reject(reject) => panic!("{}", reject.reason),
    }
    offer.manifest_raw = "*".to_owned();
    match answer_offer(&mut trust, &offer, sender.peer_id(), NOW) {
        OfferAnswer::Accept(..) => panic!("accepted"),
        OfferAnswer::Reject(reject) => assert_eq!(reject.reason, "bad manifest base64"),
    }
}

fn begin(
    pending: Option<(Offer, RawManifest)>,
    objects: Vec<PlanObject>,
    offer_id: &str,
    skip: bool,
    free: Option<u64>,
) -> Result<Incoming, PlanRefusal> {
    let features = vec![FEATURE_SKIP_NATIVE.to_owned()];
    Incoming::begin(pending, plan_of(offer_id, objects), skip, false, &features, 100, free)
}

#[test]
fn a_delivery_is_taken_from_its_plan_to_its_last_object() {
    let sender = Identity::generate();
    let me = Identity::generate();
    let trust = trusting(&[sender.peer_id(), me.peer_id()]);
    let raw = raw(sender.peer_id(), &[b"memory"], Some(b"picture"));
    let offer = offer_of(&trust, me.peer_id(), &raw, 13, 2);
    let id = offer.offer_id.clone();
    let objects = || vec![object(b"memory"), object(b"picture")];
    let pending = || Some((offer.clone(), raw.clone()));
    assert!(matches!(
        begin(None, objects(), &id, false, Some(100)),
        Err(PlanRefusal::Fault(Error::Protocol("plan without offer")))
    ));
    assert!(matches!(
        begin(pending(), vec![object(b"memory")], &id, false, Some(100)),
        Err(PlanRefusal::Fault(Error::Protocol("plan mismatch")))
    ));
    match begin(pending(), objects(), &id, false, Some(12)) {
        Err(PlanRefusal::Quota(reject)) => assert_eq!(reject.reason, "quota"),
        _ => panic!("taken"),
    }
    assert!(begin(pending(), objects(), &id, false, None).is_err());
    // What is declined takes no room.
    let lean = begin(pending(), objects(), &id, true, Some(7)).ok().unwrap();
    assert!(lean.decline);
    let (memory, picture) = (Digest::of(b"memory"), Digest::of(b"picture"));
    let nothing = vec![(memory, Holding::Nothing), (picture, Holding::Nothing)];
    let (have, intake) = lean.answer(&nothing);
    assert_eq!(have.have, [memory]);
    assert!(have.skip_native);
    assert_eq!(lean.own_objects(&intake).len(), 0);
    let (intake, piece) = intake.take(&stream(b"picture")).unwrap();
    assert!(piece.complete && intake.is_complete());
    let portable = digest_set(&vec![picture]);
    let reached = digest_set(&vec![memory, picture]);
    let kept = lean.finish(&intake, reached.clone(), &portable).unwrap();
    assert!(kept.contains(&picture) && !kept.contains(&memory));
    // What is declined but needed for the files is missing.
    let error = lean.finish(&intake, reached.clone(), &reached).unwrap_err();
    assert_eq!(error.message(), "protocol: staged object is missing");
    let error = lean.finish(&intake, Table::new(), &Table::new()).unwrap_err();
    assert_eq!(error.message(), "protocol: plan differs from verified manifest closure");

    let whole = begin(pending(), objects(), &id, false, Some(13)).ok().unwrap();
    let held = vec![(memory, Holding::Whole), (picture, Holding::Nothing)];
    let (have, intake) = whole.answer(&held);
    assert_eq!(have.have, [memory]);
    assert!(whole.own_objects(&intake).contains(&memory));
    let (intake, _) = intake.take(&stream(b"picture")).unwrap();
    assert_eq!(whole.finish(&intake, reached, &portable).unwrap().len(), 2);
}

#[test]
fn relay_deliveries_are_packed_and_opened() {
    let sender = Identity::generate();
    let me = Identity::generate();
    let mut trust = trusting(&[sender.peer_id(), me.peer_id()]);
    let raw = raw(sender.peer_id(), &[], Some(b"picture"));
    let mut outbox = Outbox::open(Table::new());
    let id = outbox.enqueue(me.peer_id(), raw.snapshot_id(), raw.bytes().to_vec(), NOW);
    let contents = vec![(Digest::of(b"picture"), b"picture".to_vec())];
    let entry = outbox.get(&id).unwrap();
    let payload =
        relay_delivery(&trust, None, None, entry, &raw, &contents, sender.peer_id(), NOW).unwrap();
    let delivery = open_relay_delivery(&mut trust, payload, NOW).unwrap();
    assert_eq!(delivery.sender, sender.peer_id());
    assert_eq!(delivery.raw, raw);
    assert_eq!(delivery.objects, contents);
    let reached = reached_objects(raw.manifest(), portable_objects(raw.manifest(), Table::new()));
    check_relay_closure(&delivery.supplied, &reached).unwrap();
    let ack = Ack::sign(
        "ab".repeat(16),
        raw.snapshot_id(),
        "inbox".to_owned(),
        NOW,
        sender.peer_id(),
        &me,
    )
    .unwrap();
    let payload = RelayPayload::Ack { sender: me.peer_id(), ack };
    let error = open_relay_delivery(&mut trust, payload, NOW).err().unwrap();
    assert_eq!(error.message(), "protocol: relay payload is not a delivery");
}

#[test]
fn manifests_reach_their_files_floor_and_native_objects() {
    let me = Identity::generate();
    let raw = raw(me.peer_id(), &[b"memory"], Some(b"picture"));
    let m = raw.manifest();
    let portable = portable_objects(m, digest_set(&vec![Digest::of(b"file")]));
    assert_eq!(portable.len(), 2);
    assert!(portable.contains(&Digest::of(b"picture")));
    let reached = reached_objects(m, portable);
    assert_eq!(reached.len(), 3);
    assert_eq!(linked_objects(m, LinkMode::Floor, &reached), [Digest::of(b"picture")]);
    assert_eq!(linked_objects(m, LinkMode::Full, &reached).len(), 3);
}

fn ping() -> Ping {
    Ping { message_type: "ping".to_owned(), nonce: "n".to_owned(), ts: format_time(NOW) }
}

fn pong(nonce: &str) -> HealthFrame {
    HealthFrame::Pong(Pong {
        message_type: "pong".to_owned(),
        nonce: nonce.to_owned(),
        ts: format_time(NOW),
    })
}

#[test]
fn a_delivery_goes_to_a_trusted_peer_that_answers() {
    let me = Identity::generate();
    let to = Identity::generate();
    let trust = trusting(&[to.peer_id()]);
    check_recipient(&trust, "trusted", to.peer_id(), NOW).unwrap();
    assert!(check_recipient(&trust, "bootstrap", to.peer_id(), NOW).is_err());
    assert!(check_recipient(&trust, "trusted", me.peer_id(), NOW).is_err());
    let mut outbox = Outbox::open(Table::new());
    let id = outbox.enqueue(to.peer_id(), Digest::of(b"s"), Vec::new(), NOW);
    check_due(&outbox, &id, NOW).unwrap();
    check_due(&outbox, "nope", NOW).unwrap();
    let me_id = me.peer_id();
    assert!(health_step(&mut outbox, &ping(), pong("n"), me_id, NOW).unwrap());
    assert!(health_step(&mut outbox, &ping(), pong("m"), me_id, NOW).is_err());
    assert!(health_step(&mut outbox, &ping(), HealthFrame::Other, me_id, NOW).is_err());

    let offer_id = outbox.get(&id).unwrap().offer_id.clone();
    let ack = |shelf: &str| {
        Ack::sign(offer_id.clone(), Digest::of(b"s"), shelf.to_owned(), NOW, me_id, &to).unwrap()
    };
    // Nothing is waited for yet.
    assert!(!health_step(&mut outbox, &ping(), HealthFrame::Ack(ack("inbox")), me_id, NOW).unwrap());
    assert_eq!(outbox.get(&id).unwrap().state, OutboxState::Queued);
    outbox.transition(&id, OutboxState::Healthcheck, NOW).unwrap();
    outbox.transition(&id, OutboxState::Offered, NOW).unwrap();
    let have = |skip: bool, have: Vec<Digest>| Have {
        message_type: "have".to_owned(),
        offer_id: offer_id.clone(),
        have,
        resume: Table::new(),
        eof: true,
        skip_native: skip,
    };
    let native = vec![native_ref(b"memory")];
    assert!(take_have(&mut outbox, &id, &have(true, vec![]), &native, NOW).is_err());
    take_have(&mut outbox, &id, &have(true, vec![Digest::of(b"memory")]), &native, NOW).unwrap();
    assert_eq!(outbox.get(&id).unwrap().state, OutboxState::Transferring);
    let error = conclude(&mut outbox, &id, &ack("inbox"), me_id, NOW).unwrap_err();
    assert_eq!(error.message(), "authentication: ack mismatch");
    outbox.transition(&id, OutboxState::AwaitingAck, NOW).unwrap();
    let mut forged = ack("inbox");
    forged.shelf = "capsule-head".to_owned();
    assert!(take_receipt(&mut outbox, &forged, me_id, NOW).is_err());
    conclude(&mut outbox, &id, &ack("inbox"), me_id, NOW).unwrap();
    assert_eq!(outbox.get(&id).unwrap().state, OutboxState::Acked);
    let plan: Plan = plan_of("ab", vec![object(b"x")]);
    assert_eq!((plan.message_type.as_str(), plan.seq, plan.eof), ("plan", 0, true));
}

#[test]
fn both_sides_of_a_connection_prove_who_they_are() {
    let a = Identity::generate();
    let b = Identity::generate();
    let (na, nb) = ([1u8; 32], [2u8; 32]);
    let sig = prove(&a, &na, &nb, "127.0.0.1:9");
    check_proof(a.peer_id(), &nb, &na, "127.0.0.1:9", &sig).unwrap();
    assert!(check_proof(a.peer_id(), &nb, &na, "127.0.0.1:8", &sig).is_err());
    assert!(check_proof(a.peer_id(), &na, &nb, "127.0.0.1:9", &sig).is_err());
    assert!(check_proof(b.peer_id(), &nb, &na, "127.0.0.1:9", &sig).is_err());
    check_advertised(128).unwrap();
    assert!(check_advertised(129).is_err());
    check_dialed(a.peer_id(), a.peer_id()).unwrap();
    assert!(check_dialed(a.peer_id(), b.peer_id()).is_err());
}

#[test]
fn a_lease_is_held_until_it_runs_out() {
    let me = Identity::generate();
    let genesis = abra::capsule::Genesis::new(
        Digest::of(b"c"),
        format_time(NOW),
        "k".to_owned(),
        "t".to_owned(),
        &me,
    )
    .unwrap();
    let grant = abra::capsule::LeaseRecord::new(
        genesis.capsule_id,
        me.peer_id(),
        1,
        abra::capsule::LeaseMode::Grant,
        format_time(NOW),
        format_time(NOW + 60_000),
        genesis.hash().unwrap(),
        &me,
    )
    .unwrap();
    let capsule = abra::history::Capsule::founded(genesis, grant).unwrap();
    assert_eq!(active_holder(&capsule, NOW), Some(me.peer_id()));
    assert_eq!(active_holder(&capsule, NOW + 60_000), None);
}
