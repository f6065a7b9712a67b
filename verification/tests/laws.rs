use abra::capsule::{Genesis, LabelOp, LeaseMode, LeaseRecord};
use abra::cas::Digest;
use abra::cli::settings::{apply_config, plain_value, DaemonConfig, RelayConfig, Settings};
use abra::history::Capsule;
use abra::identity::{Identity, PeerId};
use abra::manifest::{Manifest, RawManifest};
use abra::net::ack::Ack;
use abra::net::auth::{EnrollmentToken, PairConfirm, PairRequest, PairTicket, Role, Scopes};
use abra::net::bind::{BindCertificate, EnrollBind, Revocation};
use abra::net::clock::format_time;
use abra::net::control::{ControlMessage, ControlOp};
use abra::net::settle::settle;
use abra::net::trust::{TrustDisk, TrustStore, TrustedPeer};
use abra::store::{inbox_entry, label_author, label_signer};

const NOW: u64 = 1_800_000_000_000;

fn genesis(id: &Identity) -> Genesis {
    Genesis::new(Digest::of(b"c"), format_time(NOW), "k".to_owned(), "t".to_owned(), id).unwrap()
}

fn lease(g: &Genesis, holder: &Identity, signer: &Identity, epoch: u64, mode: LeaseMode, prev: Digest) -> LeaseRecord {
    LeaseRecord::new(
        g.capsule_id,
        holder.peer_id(),
        epoch,
        mode,
        format_time(NOW + epoch),
        format_time(NOW + 3_600_000),
        prev,
        signer,
    )
    .unwrap()
}

fn version(g: &Genesis, origin: &Identity, title: &str, parents: Vec<Digest>) -> RawManifest {
    let mut m = Manifest::full(
        "k".to_owned(),
        title.to_owned(),
        origin.peer_id(),
        NOW,
        g.capsule_id,
    );
    m.parents = parents;
    RawManifest::parse(m.to_canonical_bytes().unwrap()).unwrap()
}

#[test]
fn a_capsule_is_read_back_in_any_order() {
    let me = Identity::generate();
    let other = Identity::generate();
    let g = genesis(&me);
    let first = lease(&g, &me, &me, 1, LeaseMode::Grant, g.hash().unwrap());
    let mut capsule = Capsule::founded(g.clone(), first.clone()).unwrap();
    let second = lease(&g, &me, &me, 2, LeaseMode::Refresh, first.hash().unwrap());
    let rival = lease(&g, &other, &other, 2, LeaseMode::Takeover, first.hash().unwrap());
    capsule.accept_lease(second.clone()).unwrap();
    capsule.accept_lease(rival.clone()).unwrap();
    let holder = capsule.winning_lease().unwrap().clone();
    let third = lease(
        &g,
        &other,
        &other,
        3,
        LeaseMode::Takeover,
        holder.hash().unwrap(),
    );
    assert!(capsule.accept_lease(third.clone()).unwrap());
    // The same lease once more changes nothing.
    assert!(!capsule.accept_lease(third.clone()).unwrap());

    let root = version(&g, &me, "root", vec![]);
    let child = version(&g, &me, "child", vec![root.snapshot_id()]);
    let grandchild = version(&g, &me, "grandchild", vec![child.snapshot_id()]);
    let lost = version(&g, &me, "lost", vec![Digest::of(b"gone")]);
    for raw in [&grandchild, &lost, &root, &child] {
        let at = format_time(NOW);
        capsule.insert_snapshot(raw.clone(), at, me.peer_id()).unwrap();
    }
    assert!(capsule.snapshot(&lost.snapshot_id()).unwrap().orphan);
    assert!(!capsule.snapshot(&grandchild.snapshot_id()).unwrap().orphan);

    let leases = vec![third.clone(), rival.clone(), first.clone(), second.clone()];
    let stored = |raws: [&RawManifest; 4]| -> Vec<(RawManifest, String)> {
        raws.iter().map(|raw| ((*raw).clone(), format_time(NOW))).collect()
    };
    for order in [[&lost, &child, &grandchild, &root], [&root, &child, &grandchild, &lost]] {
        let back = Capsule::rebuild(g.clone(), &leases, stored(order), &Vec::new()).unwrap();
        assert_eq!(back.winning_lease(), capsule.winning_lease());
        assert_eq!(back.winning_lease(), Some(&third));
        assert_eq!(back.snapshots, capsule.snapshots);
    }
    let error = Capsule::rebuild(g, &vec![second], vec![], &vec![]).unwrap_err();
    assert!(error.message().contains("genesis lacks epoch-1 grant"));
}

#[test]
fn a_statement_is_matched_to_its_signer() {
    let me = Identity::generate();
    let other = Identity::generate();
    let g = genesis(&me);
    let op = LabelOp::new(
        g.capsule_id,
        1,
        "main".to_owned(),
        Digest::of(b"s"),
        1,
        format_time(NOW),
        &me,
    )
    .unwrap();
    let peers = vec![other.peer_id(), me.peer_id()];
    assert_eq!(label_signer(&op, &peers), Some(me.peer_id()));
    assert_eq!(label_signer(&op, &vec![other.peer_id()]), None);
    // Read back, it is tried against the creator, the holders of leases and the writers.
    let grant = lease(&g, &me, &me, 1, LeaseMode::Grant, g.hash().unwrap());
    let written = vec![(version(&g, &me, "v", vec![]), format_time(NOW))];
    assert_eq!(label_author(&op, other.peer_id(), &vec![grant], &vec![]), me.peer_id());
    assert_eq!(label_author(&op, other.peer_id(), &vec![], &written), me.peer_id());
    assert_eq!(label_author(&op, other.peer_id(), &vec![], &vec![]), other.peer_id());
}

fn scopes() -> Scopes {
    Scopes {
        capsules: vec!["*".to_owned()],
        kinds: vec!["*".to_owned()],
        send: true,
        receive: true,
        lease_acquire: false,
        lease_takeover: false,
    }
}

#[test]
fn a_ticket_pairs_two_devices_once() {
    let host = Identity::generate();
    let joiner = Identity::generate();
    let late = Identity::generate();
    let mut at_host = TrustStore::open(TrustDisk::empty());
    let mut at_joiner = TrustStore::open(TrustDisk::empty());
    let ticket = PairTicket::mint(
        "host".to_owned(),
        [1; 32],
        None,
        vec![],
        NOW,
        60_000,
        &host,
    )
    .unwrap();
    at_host.register_ticket(ticket.clone());
    let ask = |who: &Identity, key: u8| {
        PairRequest::sign(
            ticket.ticket_id.clone(),
            "joiner".to_owned(),
            [key; 32],
            None,
            vec![],
            [7; 16],
            who,
        )
        .unwrap()
    };
    let request = ask(&joiner, 2);
    let accept = at_host
        .accept_pair_request(&request, &vec![], joiner.peer_id(), NOW, false, |_, _| true)
        .unwrap();
    assert!(at_host.get(&joiner.peer_id()).is_none());
    let confirm = at_joiner
        .complete_pair_as_joiner(&ticket, &accept, &request.nonce)
        .unwrap();
    at_host.confirm_pair(&confirm, joiner.peer_id()).unwrap();
    assert_eq!(at_host.get(&joiner.peer_id()).unwrap().x25519_pk, [2; 32]);
    assert_eq!(at_joiner.get(&host.peer_id()).unwrap().x25519_pk, [1; 32]);
    let again = ask(&late, 3);
    let error = at_host
        .accept_pair_request(&again, &vec![], late.peer_id(), NOW, true, |_, _| true)
        .unwrap_err();
    assert_eq!(error.message(), "authorization: ticket is not pending");
    // Showing it again does not help.
    at_host.register_ticket(ticket.clone());
    let error = at_host
        .accept_pair_request(&again, &vec![], late.peer_id(), NOW, true, |_, _| true)
        .unwrap_err();
    assert_eq!(error.message(), "authorization: ticket already used");
    let mut after =
        TrustStore::open(settle(at_host.disk.clone(), TrustDisk::empty(), NOW));
    assert!(after
        .accept_pair_request(&again, &vec![], late.peer_id(), NOW, true, |_, _| true)
        .is_err());
}

fn pairing(host: &Identity, joiner: &Identity) -> (TrustStore, PairRequest, PairConfirm) {
    let mut trust = TrustStore::open(TrustDisk::empty());
    let ticket =
        PairTicket::mint("host".to_owned(), [1; 32], None, vec![], NOW, 60_000, host).unwrap();
    trust.register_ticket(ticket.clone());
    let request = PairRequest::sign(
        ticket.ticket_id.clone(),
        "joiner".to_owned(),
        [2; 32],
        Some([3; 32]),
        vec![],
        [7; 16],
        joiner,
    )
    .unwrap();
    let accept = trust
        .accept_pair_request(&request, &vec![], joiner.peer_id(), NOW, false, |_, _| true)
        .unwrap();
    let confirm = TrustStore::open(TrustDisk::empty())
        .complete_pair_as_joiner(&ticket, &accept, &request.nonce)
        .unwrap();
    (trust, request, confirm)
}

#[test]
fn a_confirmation_is_taken_from_the_device_that_asked() {
    let (host, joiner, other) = (Identity::generate(), Identity::generate(), Identity::generate());
    let (mut trust, request, confirm) = pairing(&host, &joiner);
    trust.confirm_pair(&confirm, joiner.peer_id()).unwrap();
    let peer = trust.get(&joiner.peer_id()).unwrap();
    assert!(peer.role == Role::Full);
    assert_eq!(peer.x25519_pk, request.x25519_pk);
    assert_eq!(peer.relay_key, request.relay_key);

    let (mut trust, _, confirm) = pairing(&host, &joiner);
    let error = trust.confirm_pair(&confirm, other.peer_id()).unwrap_err();
    assert_eq!(error.message(), "authentication: pair confirmation differs from transport");
    assert!(trust.get(&joiner.peer_id()).is_none());

    let (mut trust, _, confirm) = pairing(&host, &joiner);
    trust.insert(full_peer(joiner.peer_id())).unwrap();
    assert!(trust.remove_peer(joiner.peer_id()));
    let error = trust.confirm_pair(&confirm, joiner.peer_id()).unwrap_err();
    assert_eq!(error.message(), "authorization: pair confirmation was revoked");
    assert!(trust.get(&joiner.peer_id()).is_none());
}

fn full_peer(id: PeerId) -> TrustedPeer {
    TrustedPeer {
        peer_id: id,
        name: "p".to_owned(),
        role: Role::Full,
        x25519_pk: [2; 32],
        relay_key: None,
        token_id: None,
        scopes: None,
        expires_at: None,
        addresses: vec![],
    }
}

#[test]
fn a_removed_peer_stays_away() {
    let (host, peer, other) = (Identity::generate(), Identity::generate(), Identity::generate());
    let mut trust = TrustStore::open(TrustDisk::empty());
    trust.insert(full_peer(peer.peer_id())).unwrap();
    trust.insert(full_peer(other.peer_id())).unwrap();
    let ticket =
        PairTicket::mint("host".to_owned(), [1; 32], None, vec![], NOW, 60_000, &host).unwrap();
    trust.register_ticket(ticket.clone());
    let stale = trust.disk.clone();
    assert!(trust.remove_peer(peer.peer_id()));
    let mut trust = TrustStore::open(settle(trust.disk.clone(), stale.clone(), NOW));
    assert!(trust.get(&peer.peer_id()).is_none());
    assert!(trust.get(&other.peer_id()).is_some());
    // A process that has not heard of it cannot undo it.
    let again = settle(stale, trust.disk.clone(), NOW);
    assert!(TrustStore::open(again).get(&peer.peer_id()).is_none());
    let error = trust.insert(full_peer(peer.peer_id())).unwrap_err();
    assert_eq!(
        error.message(),
        "authorization: peer was removed; pair again with a new ticket"
    );
    let request = PairRequest::sign(
        ticket.ticket_id.clone(),
        "p".to_owned(),
        [2; 32],
        None,
        vec![],
        [7; 16],
        &peer,
    )
    .unwrap();
    assert!(trust
        .accept_pair_request(&request, &vec![], peer.peer_id(), NOW, true, |_, _| true)
        .is_err());
    assert!(!trust.remove_peer(peer.peer_id()));
}

#[test]
fn an_order_is_taken_once_within_its_window() {
    let (me, stranger) = (Identity::generate(), Identity::generate());
    let order = |id: &Identity| {
        ControlMessage::new(Digest::of(b"c"), ControlOp::Stop, None, NOW, [9; 16], id).unwrap()
    };
    let fresh = || {
        let mut trust = TrustStore::open(TrustDisk::empty());
        trust.insert(full_peer(me.peer_id())).unwrap();
        trust
    };
    for (now, taken) in [
        (NOW - 60_001, false),
        (NOW - 60_000, true),
        (NOW, true),
        (NOW + 300_000, true),
        (NOW + 300_001, false),
    ] {
        let mut trust = fresh();
        let answer = order(&me).verify_and_record(me.peer_id(), &mut trust, now);
        assert_eq!(answer.is_ok(), taken);
        if taken {
            for later in [now, NOW + 300_000, NOW + 660_000, NOW + 10_000_000] {
                assert!(order(&me).verify_and_record(me.peer_id(), &mut trust, later).is_err());
            }
        } else {
            // The nonce is still there to be taken.
            order(&me).verify_and_record(me.peer_id(), &mut trust, NOW).unwrap();
        }
    }
    let mut trust = fresh();
    let error =
        order(&stranger).verify_and_record(stranger.peer_id(), &mut trust, NOW).unwrap_err();
    assert_eq!(error.message(), "authorization: untrusted control signer");
    let mut guest = full_peer(stranger.peer_id());
    guest.role = Role::Guest;
    trust.insert(guest).unwrap();
    let error =
        order(&stranger).verify_and_record(stranger.peer_id(), &mut trust, NOW).unwrap_err();
    assert_eq!(error.message(), "authorization: guests cannot send control");
}

#[test]
fn a_receipt_vouches_for_nothing_else() {
    let (sender, receiver, other) =
        (Identity::generate(), Identity::generate(), Identity::generate());
    let ack = Ack::sign(
        "ab".repeat(16),
        Digest::of(b"s"),
        "inbox".to_owned(),
        NOW,
        sender.peer_id(),
        &receiver,
    )
    .unwrap();
    let check = |ack: &Ack| ack.verify(sender.peer_id(), receiver.peer_id());
    check(&ack).unwrap();
    assert!(ack.verify(other.peer_id(), receiver.peer_id()).is_err());
    assert!(ack.verify(sender.peer_id(), other.peer_id()).is_err());
    let change = |f: fn(&mut Ack)| {
        let mut x = ack.clone();
        f(&mut x);
        x
    };
    assert!(check(&change(|x| x.snapshot_id = Digest::of(b"t"))).is_err());
    assert!(check(&change(|x| x.shelf = "capsule-head".to_owned())).is_err());
    assert!(check(&change(|x| x.sig.0[0] ^= 1)).is_err());
    assert!(check(&change(|x| x.offer_id = "ac".repeat(16))).is_err());
    assert!(check(&change(|x| x.offer_id = "ab".to_owned())).is_err());
    // The same bytes, spelled otherwise, and another time of arrival.
    check(&change(|x| x.offer_id = "AB".repeat(16))).unwrap();
    check(&change(|x| x.received_at = format_time(NOW + 1))).unwrap();
}

#[test]
fn a_token_that_was_taken_back_stays_out_once_written() {
    let (me, issuer, guest) = (Identity::generate(), Identity::generate(), Identity::generate());
    let mut trust = TrustStore::open(TrustDisk::empty());
    trust.insert(full_peer(issuer.peer_id())).unwrap();
    let certificate = BindCertificate::sign(
        "42".repeat(16),
        guest.peer_id(),
        NOW,
        "g".to_owned(),
        [4; 32],
        scopes(),
        format_time(NOW + 60_000),
        &issuer,
    )
    .unwrap();
    trust.install_bind_certificate(issuer.peer_id(), certificate.clone(), NOW).unwrap();
    let stale = trust.disk.clone();
    trust.revoke_token(&certificate.token_id, NOW, &me).unwrap();
    // Written over what others know, and others over that; the records that mattered expire.
    let written = settle(trust.disk.clone(), stale.clone(), NOW);
    let again = settle(stale, written, NOW + 1);
    let mut trust = TrustStore::open(again);
    assert!(trust.is_revoked(&certificate.token_id));
    assert!(trust.get(&guest.peer_id()).is_none());
    let error = trust
        .install_bind_certificate(issuer.peer_id(), certificate, NOW + 1)
        .unwrap_err();
    assert_eq!(error.message(), "authorization: token revoked");
    assert!(trust.bind_certificate(&guest.peer_id()).is_none());
}

#[test]
fn long_lives_are_refused_whatever_the_time() {
    let me = Identity::generate();
    let ticket =
        PairTicket::mint("h".to_owned(), [1; 32], None, vec![], NOW, u64::MAX, &me).unwrap_err();
    assert!(ticket.message().contains("TTL exceeds 10m"));
    let token =
        EnrollmentToken::mint("g".to_owned(), vec![], None, scopes(), NOW, u64::MAX, &me).unwrap_err();
    assert!(token.message().contains("TTL exceeds 30d"));
}

#[test]
fn a_race_ends_alike_in_any_order() {
    let (me, a, b) = (Identity::generate(), Identity::generate(), Identity::generate());
    let g = genesis(&me);
    let first = lease(&g, &me, &me, 1, LeaseMode::Grant, g.hash().unwrap());
    let one = lease(&g, &a, &a, 2, LeaseMode::Takeover, first.hash().unwrap());
    let two = lease(&g, &b, &b, 2, LeaseMode::Takeover, first.hash().unwrap());
    let winner = if one.sig.0 > two.sig.0 { &one } else { &two };
    for (x, y) in [(&one, &two), (&two, &one)] {
        let mut capsule = Capsule::founded(g.clone(), first.clone()).unwrap();
        assert!(capsule.accept_lease(x.clone()).unwrap());
        assert_eq!(capsule.accept_lease(y.clone()).unwrap(), y == winner);
        assert_eq!(capsule.winning_lease(), Some(winner));
        // The one that holds goes back to the grant to the creator.
        let held = capsule.winning_lease().unwrap();
        assert_eq!(held.epoch, 2);
        assert_eq!(held.prev_hash, capsule.leases()[0].hash().unwrap());
        assert_eq!(capsule.leases()[0].prev_hash, g.hash().unwrap());
        assert_eq!(capsule.leases()[0].holder, g.created_by);
    }
}

#[test]
fn a_changed_genesis_has_other_bytes_and_is_refused() {
    let me = Identity::generate();
    let other = Identity::generate();
    let g = genesis(&me);
    g.verify().unwrap();
    let change = |f: fn(&mut Genesis)| {
        let mut x = g.clone();
        f(&mut x);
        x
    };
    let mut changed = vec![
        change(|x| x.spec.push('1')),
        change(|x| x.record_type.push('x')),
        change(|x| x.capsule_id = Digest::of(b"d")),
        change(|x| x.created_at.push('0')),
        change(|x| x.kind = "\"".to_owned()),
        change(|x| x.title = "\\".to_owned()),
        change(|x| x.sig.0[0] ^= 1),
    ];
    let mut x = g.clone();
    x.created_by = other.peer_id();
    changed.push(x);
    for x in changed {
        assert_ne!(x.bytes().unwrap(), g.bytes().unwrap());
        assert!(x.verify().is_err());
    }
}

#[test]
fn an_open_token_binds_one_guest() {
    let issuer = Identity::generate();
    let guest = Identity::generate();
    let other = Identity::generate();
    let mut trust = TrustStore::open(TrustDisk::empty());
    let token =
        EnrollmentToken::mint("g".to_owned(), vec![], None, scopes(), NOW, 60_000, &issuer).unwrap();
    let bind = |who: &Identity| {
        EnrollBind::sign(token.clone(), None, [4; 32], [5; 32], vec![], who).unwrap()
    };
    let certificate =
        trust.bind_enrollment(&bind(&guest), guest.peer_id(), NOW, &issuer).unwrap();
    certificate.verify(issuer.peer_id()).unwrap();
    assert!(trust.get(&guest.peer_id()).unwrap().role == Role::Guest);
    // The same guest may come again, another may not.
    trust.bind_enrollment(&bind(&guest), guest.peer_id(), NOW, &issuer).unwrap();
    let error =
        trust.bind_enrollment(&bind(&other), other.peer_id(), NOW, &issuer).unwrap_err();
    assert_eq!(error.message(), "authorization: token already bound");
}

#[test]
fn what_is_signed_is_accepted_and_nothing_else() {
    let me = Identity::generate();
    let other = Identity::generate();
    let sig = me.sign("a", b"payload");
    me.peer_id().verify("a", b"payload", &sig).unwrap();
    assert!(me.peer_id().verify("b", b"payload", &sig).is_err());
    assert!(me.peer_id().verify("a", b"payloae", &sig).is_err());
    assert!(other.peer_id().verify("a", b"payload", &sig).is_err());
    genesis(&me).verify().unwrap();
    let revocation =
        Revocation::sign("42".repeat(16), other.peer_id(), NOW, &me).unwrap();
    revocation.verify_at(NOW).unwrap();
    assert!(revocation.verify_at(NOW - 60_001).is_err());
    let ack = Ack::sign(
        "ab".repeat(16),
        Digest::of(b"s"),
        "inbox".to_owned(),
        NOW,
        other.peer_id(),
        &me,
    )
    .unwrap();
    ack.verify(other.peer_id(), me.peer_id()).unwrap();
    let certificate = BindCertificate::sign(
        "42".repeat(16),
        other.peer_id(),
        NOW,
        "g".to_owned(),
        [4; 32],
        scopes(),
        format_time(NOW + 1),
        &me,
    )
    .unwrap();
    certificate.verify(me.peer_id()).unwrap();
    assert!(certificate.verify(other.peer_id()).is_err());
}

#[test]
fn labels_end_up_alike_in_any_order() {
    let me = Identity::generate();
    let g = genesis(&me);
    let grant = lease(&g, &me, &me, 1, LeaseMode::Grant, g.hash().unwrap());
    let op = |name: &str, seq: u64, target: &[u8]| {
        LabelOp::new(
            g.capsule_id,
            seq,
            name.to_owned(),
            Digest::of(target),
            1,
            format_time(NOW),
            &me,
        )
        .unwrap()
    };
    let ops = [
        op("draft", 1, b"a"),
        op("draft", 2, b"b"),
        op("draft", 2, b"c"),
        op("done", 1, b"d"),
    ];
    let play = |order: [usize; 4]| {
        let mut capsule = Capsule::founded(g.clone(), grant.clone()).unwrap();
        for i in order {
            capsule.apply_label(ops[i].clone(), me.peer_id()).unwrap();
        }
        capsule.labels
    };
    let labels = play([0, 1, 2, 3]);
    assert_eq!(labels.len(), 2);
    assert_eq!(labels, play([3, 2, 1, 0]));
    assert_eq!(labels, play([2, 0, 3, 1]));
}

#[test]
fn settings_read_back_and_return_to_their_defaults() {
    let fresh = || Settings {
        daemon: DaemonConfig { iroh_relay: "n0".to_owned(), skip_native: false, offer_budget: 7 },
        relay: RelayConfig { relay_after_attempts: 3, relay_poll_seconds: 60 },
    };
    let mut s = fresh();
    for (key, value) in [
        ("iroh_relay", "none"),
        ("skip_native", "true"),
        ("offer_budget", "12"),
        ("relay_after_attempts", "9"),
        ("relay_poll_seconds", "5"),
    ] {
        apply_config(&mut s, &fresh(), key, Some(value)).unwrap();
        assert_eq!(plain_value(&s.get(key).unwrap()), value);
    }
    for key in
        ["iroh_relay", "skip_native", "offer_budget", "relay_after_attempts", "relay_poll_seconds"]
    {
        apply_config(&mut s, &fresh(), key, None).unwrap();
    }
    assert_eq!(s, fresh());
}

#[test]
fn deliveries_are_read_back_into_the_inbox() {
    let me = Identity::generate();
    let m = Manifest::partial("k".to_owned(), "t".to_owned(), me.peer_id(), NOW);
    let raw = RawManifest::parse(m.to_canonical_bytes().unwrap()).unwrap();
    let read = |spec: &str, id: Digest, raw: &RawManifest| {
        inbox_entry(spec, id, raw.clone(), "peer".to_owned(), format_time(NOW), true)
    };
    let entry = read("0.1", raw.snapshot_id(), &raw).unwrap();
    assert_eq!(entry.manifest, raw.bytes());
    assert!(entry.read);
    assert!(read("0.2", raw.snapshot_id(), &raw).unwrap_err().message().contains("inbox spec"));
    assert!(read("0.1", Digest::of(b"x"), &raw).unwrap_err().message().contains("inbox record"));
    let full = version(&genesis(&me), &me, "root", vec![]);
    assert!(read("0.1", full.snapshot_id(), &full).is_err());
}
