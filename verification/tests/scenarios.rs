use abra::cas::Digest;
use abra::identity::{Identity, PeerId, Signature};
use abra::manifest::{Fingerprint, Manifest, NativeBlobRef, RawManifest};
use abra::net::ack::Ack;
use abra::net::auth::{Role, Scopes, FEATURE_SKIP_NATIVE};
use abra::net::bind::BindCertificate;
use abra::net::clock::format_time;
use abra::net::delivery::{check_recipient, plan_of};
use abra::net::error::Error;
use abra::net::incoming::{Incoming, PlanRefusal};
use abra::net::offer::{validate_incoming_offer, Offer};
use abra::net::outbox::{Outbox, OutboxState};
use abra::net::plan::{digest_set, Holding, PlanObject};
use abra::net::send::{build_offer, enqueue};
use abra::net::trust::{TrustDisk, TrustStore, TrustedPeer};
use abra::table::Table;

const NOW: u64 = 1_800_000_000_000;

fn scopes() -> Scopes {
    Scopes {
        capsules: vec!["*".to_owned()],
        kinds: vec!["*".to_owned()],
        send: true,
        receive: true,
        lease_acquire: false,
        lease_takeover: false,
    }
}

fn full_peer(id: PeerId) -> TrustedPeer {
    TrustedPeer {
        peer_id: id,
        name: "peer".to_owned(),
        role: Role::Full,
        x25519_pk: [0; 32],
        relay_key: None,
        token_id: None,
        scopes: None,
        expires_at: None,
        addresses: Vec::new(),
    }
}

fn trusting(peers: &[&Identity]) -> TrustStore {
    let mut trust = TrustStore::open(TrustDisk::empty());
    for peer in peers {
        trust.insert(full_peer(peer.peer_id())).unwrap();
    }
    trust
}

fn partial(origin: &Identity, title: &str) -> RawManifest {
    let m = Manifest::partial(
        "dev.abra.bundle".to_owned(),
        title.to_owned(),
        origin.peer_id(),
        NOW,
    );
    RawManifest::parse(m.to_canonical_bytes().unwrap()).unwrap()
}

fn offer_for(raw: &RawManifest, bytes: u64, count: u64) -> Offer {
    let mut outbox = Outbox::open(Table::new());
    let to = Identity::generate().peer_id();
    let id = outbox.enqueue(to, raw.snapshot_id(), raw.bytes().to_vec(), NOW);
    let trust = trusting(&[]);
    build_offer(&trust, None, None, outbox.get(&id).unwrap(), raw, bytes, count, NOW, None)
}

fn guest_certificate(issuer: &Identity, guest: &Identity, expires: u64) -> BindCertificate {
    BindCertificate::sign(
        "43".repeat(16),
        guest.peer_id(),
        NOW,
        "guest".to_owned(),
        [3; 32],
        scopes(),
        format_time(expires),
        issuer,
    )
    .unwrap()
}

#[test]
fn expired_guest_manifest_origin_is_rejected() {
    let sender = Identity::generate();
    let guest = Identity::generate();
    let mut trust = trusting(&[&sender]);
    let mut expired_origin = full_peer(guest.peer_id());
    expired_origin.role = Role::Guest;
    expired_origin.token_id = Some("44".repeat(16));
    expired_origin.expires_at = Some(format_time(NOW - 1));
    trust.insert(expired_origin).unwrap();
    let raw = partial(&guest, "expired origin");
    let offer = offer_for(&raw, 0, 0);
    let error = validate_incoming_offer(&mut trust, &offer, sender.peer_id(), NOW).unwrap_err();
    assert_eq!(error.message(), "authorization: manifest origin expired");
}

#[test]
fn propagated_revocation_drops_guest_and_rejects_its_offer() {
    let issuer = Identity::generate();
    let receiver = Identity::generate();
    let guest = Identity::generate();
    let mut at_issuer = trusting(&[&receiver, &issuer]);
    let mut at_receiver = trusting(&[&issuer]);
    let certificate = guest_certificate(&issuer, &guest, NOW + 60_000);
    let token_id = certificate.token_id.clone();
    at_issuer
        .install_bind_certificate(issuer.peer_id(), certificate.clone(), NOW)
        .unwrap();
    at_receiver
        .install_bind_certificate(issuer.peer_id(), certificate, NOW)
        .unwrap();
    at_issuer.revoke_token(&token_id, NOW + 1, &issuer).unwrap();

    let raw = partial(&issuer, "issuer contact");
    let mut contact = offer_for(&raw, 0, 0);
    contact.revocations = at_issuer.current_revocations(NOW + 2);
    validate_incoming_offer(&mut at_receiver, &contact, issuer.peer_id(), NOW + 2).unwrap();
    assert!(at_receiver.get(&guest.peer_id()).is_none());

    let raw = partial(&guest, "revoked guest");
    let offer = offer_for(&raw, 0, 0);
    assert!(validate_incoming_offer(&mut at_receiver, &offer, guest.peer_id(), NOW + 3).is_err());
}

#[test]
fn queued_delivery_is_blocked_after_recipient_revocation() {
    let issuer = Identity::generate();
    let guest = Identity::generate();
    let mut trust = trusting(&[&issuer]);
    let certificate = guest_certificate(&issuer, &guest, NOW + 60_000);
    let token_id = certificate.token_id.clone();
    trust.install_bind_certificate(issuer.peer_id(), certificate, NOW).unwrap();
    let mut outbox = Outbox::open(Table::new());
    let raw = partial(&issuer, "queued secret");
    enqueue(&trust, &mut outbox, guest.peer_id(), &raw, false, NOW).unwrap();
    check_recipient(&trust, "trusted", guest.peer_id(), NOW).unwrap();
    trust.revoke_token(&token_id, NOW + 1, &issuer).unwrap();
    assert!(check_recipient(&trust, "trusted", guest.peer_id(), NOW + 2).is_err());
}

#[test]
fn outbox_survives_restart_and_old_ack_cannot_clear_fresh_attempt() {
    let a = Identity::generate();
    let b = Identity::generate();
    let raw = partial(&a, "queued");
    let mut outbox = Outbox::open(Table::new());
    let id = outbox.enqueue(b.peer_id(), raw.snapshot_id(), raw.bytes().to_vec(), NOW);
    let old = outbox.get(&id).unwrap().offer_id.clone();
    let mut outbox = Outbox::open(outbox.entries().clone());
    let new = outbox.retry_fresh(&id, NOW + 2).unwrap();
    assert_ne!(old, new);
    outbox.transition(&id, OutboxState::Healthcheck, NOW + 3).unwrap();
    outbox.transition(&id, OutboxState::Offered, NOW + 3).unwrap();
    outbox.transition(&id, OutboxState::Transferring, NOW + 3).unwrap();
    outbox.transition(&id, OutboxState::AwaitingAck, NOW + 3).unwrap();
    let fake = Ack {
        message_type: "ack".to_owned(),
        offer_id: new,
        snapshot_id: raw.snapshot_id(),
        received_at: format_time(NOW + 3),
        shelf: "inbox".to_owned(),
        sig: Signature::from_bytes([1; 64]),
    };
    assert!(outbox.apply_ack(&id, &fake, a.peer_id(), NOW + 3).is_err());
    assert_eq!(outbox.get(&id).unwrap().state, OutboxState::AwaitingAck);
}

fn with_native(origin: &Identity, native: &[u8], size: u64, files: &[u8]) -> RawManifest {
    let mut m = Manifest::partial(
        "dev.abra.bundle".to_owned(),
        "native".to_owned(),
        origin.peer_id(),
        NOW,
    );
    let host = Fingerprint::new("linux".to_owned(), "x".to_owned(), "none".to_owned());
    m.native = vec![NativeBlobRef::new(&host, "memory".to_owned(), Digest::of(native), size)];
    m.files = Some(Digest::of(files));
    RawManifest::parse(m.to_canonical_bytes().unwrap()).unwrap()
}

fn object(bytes: &[u8]) -> PlanObject {
    PlanObject { digest: Digest::of(bytes), kind: "blob".to_owned(), bytes: bytes.len() as u64 }
}

fn begin(
    raw: RawManifest,
    objects: Vec<PlanObject>,
    guest: bool,
) -> Result<Incoming, PlanRefusal> {
    let bytes = objects.iter().map(|x| x.bytes).sum();
    let offer = offer_for(&raw, bytes, objects.len() as u64);
    let plan = plan_of(&offer.offer_id, objects);
    let features = vec![FEATURE_SKIP_NATIVE.to_owned()];
    let pending = Some((offer, raw));
    Incoming::begin(pending, plan, true, guest, &features, 1 << 30, Some(1 << 30))
}

#[test]
fn inflated_native_byte_claim_is_rejected_against_plan() {
    let a = Identity::generate();
    let raw = with_native(&a, b"native", 9_007_199_254_740_991, b"portable");
    let objects = vec![object(b"native"), object(b"portable")];
    assert!(matches!(
        begin(raw, objects, false),
        Err(PlanRefusal::Fault(Error::Protocol("invalid plan")))
    ));
}

#[test]
fn skip_native_rejects_blob_shared_with_portable_tree() {
    let a = Identity::generate();
    let raw = with_native(&a, b"same bytes", 10, b"tree");
    let incoming = begin(raw, vec![object(b"same bytes"), object(b"tree")], false).ok().unwrap();
    let (shared, tree) = (Digest::of(b"same bytes"), Digest::of(b"tree"));
    let (_, intake) = incoming.answer(&vec![(shared, Holding::Nothing), (tree, Holding::Whole)]);
    assert!(intake.is_complete());
    let portable = digest_set(&vec![shared, tree]);
    assert!(incoming.finish(&intake, portable.clone(), &portable).is_err());
}

#[test]
fn guest_sender_disables_skip_native_without_breaking_delivery() {
    let a = Identity::generate();
    let raw = with_native(&a, b"native", 6, b"portable");
    let objects = vec![object(b"native"), object(b"portable")];
    let incoming = begin(raw, objects, true).ok().unwrap();
    assert!(!incoming.decline);
    let (native, portable) = (Digest::of(b"native"), Digest::of(b"portable"));
    let (have, intake) =
        incoming.answer(&vec![(native, Holding::Nothing), (portable, Holding::Whole)]);
    assert!(have.have.is_empty() && !have.skip_native);
    assert!(intake.hashers.contains(&native) && intake.hashers.contains(&portable));
}
