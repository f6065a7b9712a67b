use abra::capsule::SPEC;
use abra::cas::Digest;
use abra::identity::{Identity, PeerId};
use abra::net::auth::{
    Direction, EnrollmentToken, MeshProfile, PairConfirm, PairRequest, PairTicket, Role, Scopes,
    CLOCK_SKEW_MS, FEATURE_REVOCATION, MAX_CERTIFICATE_LIFETIME_MS, MAX_REVOCATIONS_PER_MESSAGE,
};
use abra::net::bind::{BindCertificate, EnrollBind, Revocation};
use abra::net::clock::{format_time, parse_time};
use abra::net::hello::{
    answer_hello, bootstrap_allowed, check_hello, negotiated_hello_revocations, Hello, WIRE_VERSION,
};
use abra::net::revoke::revocation_key;
use abra::net::session::{enroll_reply, receive_frame, Frame, Reception};
use abra::net::settle::settle;
use abra::net::transport::{peer_address_has_direct_hint, peer_address_has_relay_hint, DialHint};
use abra::net::trust::{
    LocalRole, StoredBindCertificate, StoredRevocation, TrustDisk, TrustStore, TrustedPeer,
};

const TEST_NOW: u64 = 1_800_000_000_000;

fn scopes() -> Scopes {
    Scopes {
        capsules: vec!["*".to_owned()],
        kinds: vec!["*".to_owned()],
        send: true,
        receive: true,
        lease_acquire: false,
        lease_takeover: false,
    }
}

fn full_peer(identity: &Identity) -> TrustedPeer {
    TrustedPeer {
        peer_id: identity.peer_id(),
        name: "issuer".to_owned(),
        role: Role::Full,
        x25519_pk: [1; 32],
        relay_key: None,
        token_id: None,
        scopes: None,
        expires_at: None,
        addresses: Vec::new(),
    }
}

fn guest_peer(identity: &Identity, token: &str, scopes: Scopes, expires: u64) -> TrustedPeer {
    TrustedPeer {
        peer_id: identity.peer_id(),
        name: "guest".to_owned(),
        role: Role::Guest,
        x25519_pk: [2; 32],
        relay_key: None,
        token_id: Some(token.to_owned()),
        scopes: Some(scopes),
        expires_at: Some(format_time(expires)),
        addresses: Vec::new(),
    }
}

fn open() -> TrustStore {
    TrustStore::open(TrustDisk::empty())
}

/// What a process writes, and what it reads back.
fn save(trust: &mut TrustStore, stored: &mut TrustDisk, now: u64) {
    *stored = settle(trust.disk.clone(), stored.clone(), now);
    trust.reload(stored.clone());
}

fn stored(record: Revocation, until: u64) -> StoredRevocation {
    StoredRevocation { record, relevant_until: format_time(until) }
}

#[test]
fn time_roundtrip() {
    for n in [0, 1_800_000_000_000] {
        assert_eq!(parse_time(&format_time(n)).unwrap(), n)
    }
    assert_eq!(format_time(0), "1970-01-01T00:00:00.000Z");
    assert_eq!(format_time(1_756_300_000_123), "2025-08-27T13:06:40.123Z");
}

#[test]
fn strict_time_parser_never_panics_on_hostile_utf8_or_bad_calendar() {
    for value in [
        "202\u{e9}-01-01T00:00:00.00Z",
        "+123-01-01T00:00:00.000Z",
        "2024-02-30T00:00:00.000Z",
        "2024-13-01T00:00:00.000Z",
        "2024-01-01X00:00:00.000Z",
    ] {
        assert!(parse_time(value).is_err(), "accepted {value:?}");
    }
}

fn hello(identity: &Identity, features: &[&str]) -> Hello {
    Hello {
        message_type: "hello".to_owned(),
        wire: WIRE_VERSION,
        spec: SPEC.to_owned(),
        peer_id: identity.peer_id(),
        name: "old-peer".to_owned(),
        features: features.iter().map(|f| f.to_string()).collect(),
        nonce: "00".repeat(16),
        revocations: Vec::new(),
    }
}

#[test]
fn unknown_feature_peer_receives_no_new_hello_fields() {
    let identity = Identity::generate();
    let hello = hello(&identity, &["resume", "control"]);
    let ok = check_hello(&hello, identity.peer_id(), true).unwrap();
    assert!(ok.revocations.is_empty());

    let issuer = Identity::generate();
    let guest = Identity::generate();
    let mut trust = open();
    trust.disk.revocations.insert(
        revocation_key(issuer.peer_id(), "token"),
        stored(
            Revocation::sign("token".to_owned(), guest.peer_id(), TEST_NOW, &issuer).unwrap(),
            TEST_NOW + 60_000,
        ),
    );
    assert!(negotiated_hello_revocations(&trust, &hello.features, TEST_NOW).is_empty());
    let mut features = hello.features;
    features.push(FEATURE_REVOCATION.to_owned());
    assert_eq!(
        negotiated_hello_revocations(&trust, &features, TEST_NOW).len(),
        1
    );
}

#[test]
fn handshake_versions_and_bootstrap_allowlist() {
    let id = Identity::generate();
    let mut hello = hello(&id, &["resume", "control"]);
    hello.wire = 99;
    assert!(check_hello(&hello, id.peer_id(), false).is_err());
    hello.wire = WIRE_VERSION;
    assert_eq!(
        check_hello(&hello, id.peer_id(), false).unwrap().session,
        "bootstrap"
    );
    assert!(check_hello(&hello, Identity::generate().peer_id(), false).is_err());
    assert!(bootstrap_allowed("pair-request"));
    assert!(!bootstrap_allowed("offer"));
}

fn token(issuer: &Identity, audience: Option<PeerId>, scopes: Scopes, ttl: u64) -> EnrollmentToken {
    EnrollmentToken::mint("x".to_owned(), vec![], audience, scopes, TEST_NOW, ttl, issuer).unwrap()
}

#[test]
fn malformed_signed_enrollment_time_is_an_error_not_a_panic() {
    let issuer = Identity::generate();
    let mut token = token(&issuer, Some(Identity::generate().peer_id()), scopes(), 1000);
    token.expires_at = "202\u{e9}-01-01T00:00:00.00Z".to_owned();
    assert!(token.verify(TEST_NOW).is_err());
}

#[test]
fn enrollment_token_validation() {
    let issuer = Identity::generate();
    let token = EnrollmentToken::mint(
        "guest".to_owned(),
        vec![],
        None,
        scopes(),
        TEST_NOW,
        1000,
        &issuer,
    )
    .unwrap();
    assert!(token.verify(TEST_NOW).is_ok());
    assert!(token.verify(TEST_NOW + 61_001).is_err());
    let encoded = token.encode().unwrap();
    let from_url = EnrollmentToken::parse(&format!("abra://join/{encoded}"), TEST_NOW).unwrap();
    assert_eq!(from_url.token_id, token.token_id);
    assert_eq!(from_url, token);
    assert!(EnrollmentToken::parse(&encoded, TEST_NOW + 61_001).is_err());
}

#[test]
fn tokens_are_refused_for_what_is_wrong_with_them() {
    let issuer = Identity::generate();
    let token = token(&issuer, Some(Identity::generate().peer_id()), scopes(), 60_000);
    let text = token.encode().unwrap();
    assert_eq!(EnrollmentToken::parse(&text, TEST_NOW).unwrap(), token);
    let mut forged = token.clone();
    forged.label = "y".to_owned();
    assert!(forged.verify(TEST_NOW).is_err());
    assert!(EnrollmentToken::parse(&forged.encode().unwrap(), TEST_NOW).is_err());
    let said = |s: &str| EnrollmentToken::parse(s, TEST_NOW).unwrap_err().message();
    assert_eq!(said("abra-pair/1/AA"), "protocol: bad enrollment prefix");
    assert_eq!(said("abra-enroll/1/*"), "protocol: bad enrollment base64");
    assert_eq!(said("abra-enroll/1/e30"), "json: malformed message");
    assert_eq!(
        said(&format!("abra-enroll/1/{}", "A".repeat(12_000))),
        "protocol: enrollment too large"
    );
    assert!(EnrollmentToken::mint(
        "x".to_owned(),
        vec![],
        None,
        Scopes { kinds: vec!["*".to_owned(), "a".to_owned()], ..scopes() },
        TEST_NOW,
        1000,
        &issuer
    )
    .is_err());
}

#[test]
fn tickets_are_read_back_from_their_text() {
    let host = Identity::generate();
    let ticket = PairTicket::mint(
        "host".to_owned(),
        [1; 32],
        Some([9; 32]),
        vec!["127.0.0.1:1".to_owned()],
        TEST_NOW,
        60_000,
        &host,
    )
    .unwrap();
    let text = ticket.encode().unwrap();
    assert!(text.starts_with("abra-pair/1/"));
    assert_eq!(PairTicket::parse(&text, TEST_NOW).unwrap(), ticket);
    let said = |s: &str, now: u64| PairTicket::parse(s, now).unwrap_err().message();
    assert_eq!(
        said(&text, TEST_NOW + 60_000 + CLOCK_SKEW_MS + 1),
        "authorization: ticket expired"
    );
    assert_eq!(said("nope", TEST_NOW), "protocol: bad pair ticket prefix");
    assert_eq!(said("abra-pair/1/***", TEST_NOW), "protocol: bad ticket base64");
    assert_eq!(said("abra-pair/1/e30", TEST_NOW), "json: malformed message");
    let mut forged = ticket.clone();
    forged.name = "other".to_owned();
    assert!(PairTicket::parse(&forged.encode().unwrap(), TEST_NOW).is_err());
    assert!(PairTicket::mint(
        "host".to_owned(),
        [1; 32],
        None,
        vec![],
        TEST_NOW,
        600_001,
        &host
    )
    .is_err());
}

#[test]
fn stored_revocation_can_be_reverified_without_bind_certificate() {
    let issuer = Identity::generate();
    let guest = Identity::generate();
    let mut trust = open();
    trust.insert(full_peer(&issuer)).unwrap();
    let record = Revocation::sign("42".repeat(16), guest.peer_id(), TEST_NOW, &issuer).unwrap();
    trust.disk.revocations.insert(
        revocation_key(issuer.peer_id(), &record.token_id),
        stored(record.clone(), TEST_NOW + 60_000),
    );
    trust.apply_revocations(&vec![record], TEST_NOW + 1).unwrap();
    assert_eq!(trust.current_revocations(TEST_NOW + 1).len(), 1);
}

#[test]
fn revocation_matches_current_token_and_expires() {
    let issuer = Identity::generate();
    let guest = Identity::generate();
    let mut trust = open();
    let old_token = "42".repeat(16);
    trust.disk.revocations.insert(
        revocation_key(issuer.peer_id(), &old_token),
        stored(
            Revocation::sign(old_token.clone(), guest.peer_id(), TEST_NOW, &issuer).unwrap(),
            TEST_NOW + 10,
        ),
    );
    let mut peer = guest_peer(&guest, &old_token, scopes(), TEST_NOW + 60_000);
    trust.disk.peers.insert(guest.peer_id(), peer.clone());
    assert!(trust.is_revoked_guest(&guest.peer_id(), TEST_NOW));
    assert!(!trust.is_revoked_guest(&guest.peer_id(), TEST_NOW + 11));
    peer.token_id = Some("43".repeat(16));
    trust.disk.peers.insert(guest.peer_id(), peer);
    assert!(!trust.is_revoked_guest(&guest.peer_id(), TEST_NOW));
}

fn certificate(token: &str, guest: &Identity, at: u64, expires: u64, issuer: &Identity) -> BindCertificate {
    BindCertificate::sign(
        token.to_owned(),
        guest.peer_id(),
        at,
        "g".to_owned(),
        [4; 32],
        scopes(),
        format_time(expires),
        issuer,
    )
    .unwrap()
}

#[test]
fn save_prunes_expired_revocations_and_certificates() {
    let issuer = Identity::generate();
    let guest = Identity::generate();
    let now = TEST_NOW;
    let record = Revocation::sign("42".repeat(16), guest.peer_id(), now, &issuer).unwrap();
    let mut trust = open();
    trust.disk.revocations.insert(
        revocation_key(issuer.peer_id(), &record.token_id),
        stored(record, now - 1),
    );
    trust.disk.bind_certificates.insert(
        guest.peer_id(),
        StoredBindCertificate {
            issuer: issuer.peer_id(),
            certificate: certificate(&"43".repeat(16), &guest, now - 2, now - 1, &issuer),
        },
    );
    let mut disk = TrustDisk::empty();
    save(&mut trust, &mut disk, now);
    assert_eq!(disk.revocations.len(), 0);
    assert_eq!(disk.bind_certificates.len(), 0);
}

#[test]
fn certificate_lifetime_and_future_revocation_are_bounded() {
    let issuer = Identity::generate();
    let guest = Identity::generate();
    let mut trust = open();
    trust.insert(full_peer(&issuer)).unwrap();
    let long = certificate(
        &"42".repeat(16),
        &guest,
        TEST_NOW,
        TEST_NOW + MAX_CERTIFICATE_LIFETIME_MS + 1,
        &issuer,
    );
    assert!(trust
        .install_bind_certificate(issuer.peer_id(), long, TEST_NOW)
        .is_err());

    let future = Revocation::sign(
        "43".repeat(16),
        guest.peer_id(),
        TEST_NOW + CLOCK_SKEW_MS + 1,
        &issuer,
    )
    .unwrap();
    assert!(future.verify_at(TEST_NOW).is_err());
}

#[test]
fn evicted_revocation_still_blocks_certificate_reinstall() {
    let issuer = Identity::generate();
    let guest = Identity::generate();
    let mut trust = open();
    trust.insert(full_peer(&issuer)).unwrap();
    let c = certificate(&"42".repeat(16), &guest, TEST_NOW, TEST_NOW + 60_000, &issuer);
    trust
        .install_bind_certificate(issuer.peer_id(), c.clone(), TEST_NOW)
        .unwrap();
    let record =
        Revocation::sign(c.token_id.clone(), guest.peer_id(), TEST_NOW + 1, &issuer).unwrap();
    trust.apply_revocations(&vec![record], TEST_NOW + 1).unwrap();
    trust.disk.revocations = abra::table::Table::new();
    let mut disk = TrustDisk::empty();
    save(&mut trust, &mut disk, TEST_NOW + 1);

    let mut reopened = TrustStore::open(disk);
    assert!(reopened
        .install_bind_certificate(issuer.peer_id(), c, TEST_NOW + 2)
        .is_err());
}

#[test]
fn current_revocations_prefers_newest_records() {
    let issuer = Identity::generate();
    let mut trust = open();
    for index in 0..=MAX_REVOCATIONS_PER_MESSAGE {
        let guest = Identity::generate();
        let record = Revocation::sign(
            format!("{index:032x}"),
            guest.peer_id(),
            TEST_NOW + index as u64,
            &issuer,
        )
        .unwrap();
        trust.disk.revocations.insert(
            revocation_key(issuer.peer_id(), &record.token_id),
            stored(record, TEST_NOW + 60_000),
        );
    }
    let records = trust.current_revocations(TEST_NOW);
    assert_eq!(records.len(), MAX_REVOCATIONS_PER_MESSAGE);
    assert_eq!(records[0].revoked_at, format_time(TEST_NOW + 128));
}

#[test]
fn removing_peer_revokes_its_trust_and_delegated_guests() {
    let issuer = Identity::generate();
    let guest = Identity::generate();
    let other = Identity::generate();
    let token_id = "42".repeat(16);
    let mut trust = open();
    trust.insert(full_peer(&issuer)).unwrap();
    let c = certificate(&token_id, &guest, TEST_NOW, TEST_NOW + 60_000, &issuer);
    trust
        .install_bind_certificate(issuer.peer_id(), c, TEST_NOW)
        .unwrap();

    assert!(trust.remove_peer(issuer.peer_id()));
    assert!(!trust.remove_peer(issuer.peer_id()));

    let mut disk = TrustDisk::empty();
    save(&mut trust, &mut disk, TEST_NOW);
    let reopened = TrustStore::open(disk);
    assert!(reopened.get(&issuer.peer_id()).is_none());
    assert!(reopened.get(&guest.peer_id()).is_none());
    assert!(reopened.bind_certificate(&guest.peer_id()).is_none());
    assert!(reopened.is_revoked(&token_id));
    assert!(reopened
        .authorize_offer(
            issuer.peer_id(),
            other.peer_id(),
            None,
            "dev.abra.bundle",
            Direction::Send,
            TEST_NOW,
        )
        .is_err());
}

#[test]
fn stale_save_cannot_restore_removed_peer() {
    let removed = Identity::generate();
    let unrelated = Identity::generate();
    let mut disk = TrustDisk::empty();
    let mut current = TrustStore::open(disk.clone());
    current.insert(full_peer(&removed)).unwrap();
    save(&mut current, &mut disk, TEST_NOW);
    let mut stale = TrustStore::open(disk.clone());

    current.remove_peer(removed.peer_id());
    save(&mut current, &mut disk, TEST_NOW);
    stale.insert(full_peer(&unrelated)).unwrap();
    save(&mut stale, &mut disk, TEST_NOW);

    let reopened = TrustStore::open(disk);
    assert!(reopened.get(&removed.peer_id()).is_none());
    assert!(reopened.get(&unrelated.peer_id()).is_some());
}

#[test]
fn stale_bind_certificate_cannot_outlive_removed_issuer() {
    let issuer = Identity::generate();
    let guest = Identity::generate();
    let mut disk = TrustDisk::empty();
    let mut current = TrustStore::open(disk.clone());
    current.insert(full_peer(&issuer)).unwrap();
    save(&mut current, &mut disk, TEST_NOW);
    let mut stale = TrustStore::open(disk.clone());
    let c = certificate(&"42".repeat(16), &guest, TEST_NOW, TEST_NOW + 60_000, &issuer);

    current.remove_peer(issuer.peer_id());
    save(&mut current, &mut disk, TEST_NOW);
    // A process reads the store again before it installs a certificate.
    stale.reload(disk.clone());
    assert!(stale
        .install_bind_certificate(issuer.peer_id(), c, TEST_NOW)
        .is_err());
    save(&mut stale, &mut disk, TEST_NOW);

    let reopened = TrustStore::open(disk);
    assert!(reopened.get(&guest.peer_id()).is_none());
    assert!(reopened.bind_certificate(&guest.peer_id()).is_none());
}

fn ticket(host: &Identity, at: u64) -> PairTicket {
    PairTicket::mint("host".to_owned(), [1; 32], None, Vec::new(), at, 60_000, host).unwrap()
}

fn request(ticket: &PairTicket, nonce: u8, joiner: &Identity) -> PairRequest {
    PairRequest::sign(
        ticket.ticket_id.clone(),
        "joiner".to_owned(),
        [2; 32],
        None,
        Vec::new(),
        [nonce; 16],
        joiner,
    )
    .unwrap()
}

#[test]
fn removed_peer_needs_a_fresh_pairing_ticket() {
    let host = Identity::generate();
    let joiner = Identity::generate();
    let mut host_trust = open();
    let mut joiner_trust = open();
    let hints: Vec<DialHint> = Vec::new();

    let initial = ticket(&host, TEST_NOW);
    host_trust.register_ticket(initial.clone());
    let initial_request = request(&initial, 3, &joiner);
    let initial_accept = host_trust
        .accept_pair_request(&initial_request, &hints, joiner.peer_id(), TEST_NOW, true, |_, _| true)
        .unwrap();
    joiner_trust
        .complete_pair_as_joiner(&initial, &initial_accept, &initial_request.nonce)
        .unwrap();

    let unused = ticket(&host, TEST_NOW + 1);
    host_trust.register_ticket(unused.clone());
    let unused_request = request(&unused, 4, &joiner);
    let pending = ticket(&host, TEST_NOW + 2);
    host_trust.register_ticket(pending.clone());
    let pending_request = request(&pending, 5, &joiner);
    host_trust
        .accept_pair_request(
            &pending_request,
            &hints,
            joiner.peer_id(),
            TEST_NOW + 2,
            false,
            |_, _| true,
        )
        .unwrap();

    host_trust.remove_peer(joiner.peer_id());
    joiner_trust.remove_peer(host.peer_id());
    assert!(host_trust
        .accept_pair_request(
            &unused_request,
            &hints,
            joiner.peer_id(),
            TEST_NOW + 3,
            true,
            |_, _| true,
        )
        .is_err());
    assert!(host_trust
        .confirm_pair(
            &PairConfirm {
                message_type: "pair-confirm".to_owned(),
                ticket_id: pending.ticket_id,
            },
            joiner.peer_id(),
        )
        .is_err());
    assert!(joiner_trust
        .complete_pair_as_joiner(&initial, &initial_accept, &initial_request.nonce)
        .is_err());

    let fresh = ticket(&host, TEST_NOW + 4);
    host_trust.register_ticket(fresh.clone());
    let fresh_request = request(&fresh, 6, &joiner);
    let fresh_accept = host_trust
        .accept_pair_request(
            &fresh_request,
            &hints,
            joiner.peer_id(),
            TEST_NOW + 4,
            true,
            |_, _| true,
        )
        .unwrap();
    joiner_trust
        .complete_pair_as_joiner(&fresh, &fresh_accept, &fresh_request.nonce)
        .unwrap();
    assert!(host_trust.get(&joiner.peer_id()).is_some());
    assert!(joiner_trust.get(&host.peer_id()).is_some());
}

#[test]
fn persisted_observations_merge_relay_and_direct_address() {
    let peer = Identity::generate();
    let mut trust = open();
    let id = iroh::SecretKey::from_bytes(&[25; 32]).public();
    let direct = serde_json::to_string(
        &iroh::EndpointAddr::new(id).with_ip_addr("127.0.0.1:4242".parse().unwrap()),
    )
    .unwrap();
    let relay = serde_json::to_string(
        &iroh::EndpointAddr::new(id).with_relay_url("https://relay.example.test".parse().unwrap()),
    )
    .unwrap();
    let mut trusted = full_peer(&peer);
    trusted.addresses = vec![direct.clone()];
    trust.insert(trusted).unwrap();
    trust
        .update_addresses(
            peer.peer_id(),
            vec![DialHint { text: relay.clone(), socket: false }],
        )
        .unwrap();
    let addresses = &trust.get(&peer.peer_id()).unwrap().addresses;
    assert_eq!(addresses.len(), 1);
    assert!(peer_address_has_direct_hint(&addresses[0]));
    assert!(peer_address_has_relay_hint(&addresses[0]));
}

#[test]
fn capsule_scope_blocks_capsule_less_traffic() {
    let scopes = Scopes {
        capsules: vec![Digest::from_bytes([7; 32]).to_hex()],
        kinds: vec!["dev.abra.bundle".to_owned()],
        send: true,
        receive: true,
        lease_acquire: false,
        lease_takeover: false,
    };
    assert!(!scopes.allows(None, "dev.abra.bundle", Direction::Send));
    let wildcard = Scopes { capsules: vec!["*".to_owned()], ..scopes };
    assert!(wildcard.allows(None, "dev.abra.bundle", Direction::Receive));
}

#[test]
fn scope_expiry_revocation_and_guest_to_guest_are_enforced() {
    let mut trust = open();
    let guest = Identity::generate();
    let other = Identity::generate();
    let limited = Scopes {
        capsules: vec![Digest::from_bytes([1; 32]).to_hex()],
        kinds: vec!["dev.abra.workspace".to_owned()],
        send: true,
        receive: true,
        lease_acquire: false,
        lease_takeover: false,
    };
    trust
        .insert(guest_peer(&guest, &"aa".repeat(16), limited, TEST_NOW + 1000))
        .unwrap();
    let ask = |trust: &TrustStore, capsule: Option<Digest>, now: u64| {
        trust.authorize_offer(
            guest.peer_id(),
            other.peer_id(),
            capsule,
            "dev.abra.workspace",
            Direction::Send,
            now,
        )
    };
    assert!(ask(&trust, Some(Digest::from_bytes([2; 32])), TEST_NOW).is_err());
    assert!(ask(&trust, Some(Digest::from_bytes([1; 32])), TEST_NOW + 1001).is_err());
    trust
        .revoke_token(&"aa".repeat(16), TEST_NOW, &Identity::generate())
        .unwrap();
    assert!(ask(&trust, None, TEST_NOW).is_err());
}

#[test]
fn guests_reach_full_devices_within_their_scopes() {
    let me = Identity::generate();
    let guest = Identity::generate();
    let mut trust = open();
    trust.insert(full_peer(&me)).unwrap();
    trust
        .insert(guest_peer(
            &guest,
            "t1",
            Scopes { kinds: vec!["good".to_owned()], ..scopes() },
            TEST_NOW + 1000,
        ))
        .unwrap();
    let ask = |trust: &TrustStore, kind: &str, now: u64| {
        trust.authorize_offer(guest.peer_id(), me.peer_id(), None, kind, Direction::Send, now)
    };
    ask(&trust, "good", TEST_NOW).unwrap();
    assert!(ask(&trust, "bad", TEST_NOW).is_err());
    assert!(ask(&trust, "good", TEST_NOW + 1001).is_err());
    assert!(trust.authorize_lease(guest.peer_id(), false, TEST_NOW).is_err());
    trust.authorize_lease(me.peer_id(), true, TEST_NOW).unwrap();
}

#[test]
fn mesh_profiles_gate_guest_to_guest_with_both_scopes() {
    let mut trust = open();
    let sender = Identity::generate();
    let receiver = Identity::generate();
    let capsule = Digest::from_bytes([13; 32]);
    for (identity, send, receive, token) in [
        (&sender, true, false, "31".repeat(16)),
        (&receiver, false, true, "32".repeat(16)),
    ] {
        trust
            .insert(guest_peer(
                identity,
                &token,
                Scopes {
                    capsules: vec![capsule.to_hex()],
                    kinds: vec!["dev.abra.workspace".to_owned()],
                    send,
                    receive,
                    lease_acquire: false,
                    lease_takeover: false,
                },
                TEST_NOW + 10_000,
            ))
            .unwrap();
    }
    let ask = |trust: &TrustStore, kind: &str| {
        trust.authorize_offer(
            sender.peer_id(),
            receiver.peer_id(),
            Some(capsule),
            kind,
            Direction::Send,
            TEST_NOW,
        )
    };
    assert!(ask(&trust, "dev.abra.workspace").is_err());
    trust.set_mesh_profile(MeshProfile::Fleet);
    ask(&trust, "dev.abra.workspace").unwrap();
    assert!(ask(&trust, "dev.abra.other").is_err());
    let mut disk = TrustDisk::empty();
    save(&mut trust, &mut disk, TEST_NOW);
    assert_eq!(TrustStore::open(disk).mesh_profile(), MeshProfile::Fleet);
}

#[test]
fn revocation_survives_concurrent_stale_save() {
    let guest = Identity::generate();
    let unrelated = Identity::generate();
    let token_id = "ab".repeat(16);
    let mut disk = TrustDisk::empty();
    let mut first = TrustStore::open(disk.clone());
    first
        .insert(guest_peer(&guest, &token_id, scopes(), TEST_NOW + 10_000))
        .unwrap();
    save(&mut first, &mut disk, TEST_NOW);
    let mut stale = TrustStore::open(disk.clone());
    first
        .revoke_token(&token_id, TEST_NOW, &Identity::generate())
        .unwrap();
    save(&mut first, &mut disk, TEST_NOW);
    stale.insert(full_peer(&unrelated)).unwrap();
    save(&mut stale, &mut disk, TEST_NOW);
    let reopened = TrustStore::open(disk);
    assert!(reopened.is_revoked(&token_id));
    assert!(reopened.get(&guest.peer_id()).is_none());
    assert!(reopened.get(&unrelated.peer_id()).is_some());
}

#[test]
fn forged_revocation_from_non_issuer_is_ignored() {
    let issuer = Identity::generate();
    let guest = Identity::generate();
    let attacker = Identity::generate();
    let mut trust = open();
    trust.insert(full_peer(&issuer)).unwrap();
    trust.insert(full_peer(&attacker)).unwrap();
    let c = certificate(&"42".repeat(16), &guest, TEST_NOW, TEST_NOW + 60_000, &issuer);
    trust
        .install_bind_certificate(issuer.peer_id(), c.clone(), TEST_NOW)
        .unwrap();
    let forged =
        Revocation::sign(c.token_id.clone(), guest.peer_id(), TEST_NOW + 1, &attacker).unwrap();
    trust.apply_revocations(&vec![forged], TEST_NOW + 1).unwrap();
    assert!(trust.get(&guest.peer_id()).is_some());
    let mut broken =
        Revocation::sign(c.token_id.clone(), guest.peer_id(), TEST_NOW, &issuer).unwrap();
    broken.revoked_at = format_time(TEST_NOW + 1);
    trust.apply_revocations(&vec![broken], TEST_NOW + 1).unwrap();
    assert!(trust.get(&guest.peer_id()).is_some());
}

#[test]
fn revocation_removes_the_certificate_used_for_forwarded_offers() {
    let host = Identity::generate();
    let guest = Identity::generate();
    let mut trust = open();
    trust.insert(full_peer(&host)).unwrap();
    let c = certificate(&"42".repeat(16), &guest, TEST_NOW, TEST_NOW + 60_000, &host);
    let token_id = c.token_id.clone();
    trust
        .install_bind_certificate(host.peer_id(), c, TEST_NOW)
        .unwrap();
    assert!(trust.bind_certificate(&guest.peer_id()).is_some());
    trust.revoke_token(&token_id, TEST_NOW, &host).unwrap();
    assert!(trust.bind_certificate(&guest.peer_id()).is_none());
}

#[test]
fn trusted_peer_addresses_persist_and_old_rows_default_empty() {
    let identity = Identity::generate();
    let mut peer = full_peer(&identity);
    peer.addresses = vec![r#"{"id":"test","addrs":[]}"#.to_owned()];
    let mut trust = open();
    trust.insert(peer).unwrap();
    let mut disk = TrustDisk::empty();
    save(&mut trust, &mut disk, TEST_NOW);
    let reopened = TrustStore::open(disk);
    assert_eq!(
        reopened.get(&identity.peer_id()).unwrap().addresses.len(),
        1
    );
}

#[test]
fn propagated_revocation_survives_reload_and_blocks_reinstall() {
    let issuer = Identity::generate();
    let guest = Identity::generate();
    let mut issuer_trust = open();
    let mut receiver = open();
    receiver.insert(full_peer(&issuer)).unwrap();
    issuer_trust.insert(full_peer(&issuer)).unwrap();
    let c = certificate(&"42".repeat(16), &guest, TEST_NOW, TEST_NOW + 60_000, &issuer);
    let token_id = c.token_id.clone();
    issuer_trust
        .install_bind_certificate(issuer.peer_id(), c.clone(), TEST_NOW)
        .unwrap();
    receiver
        .install_bind_certificate(issuer.peer_id(), c.clone(), TEST_NOW)
        .unwrap();
    issuer_trust
        .revoke_token(&token_id, TEST_NOW + 1, &issuer)
        .unwrap();
    assert!(receiver
        .apply_revocations(&issuer_trust.current_revocations(TEST_NOW + 2), TEST_NOW + 2)
        .unwrap());

    let mut disk = TrustDisk::empty();
    save(&mut receiver, &mut disk, TEST_NOW + 2);
    let mut reopened = TrustStore::open(disk);
    assert_eq!(reopened.current_revocations(TEST_NOW + 3).len(), 1);
    let error = reopened
        .install_bind_certificate(issuer.peer_id(), c, TEST_NOW + 3)
        .unwrap_err();
    assert_eq!(error.message(), "authorization: token revoked");
}

#[test]
fn pairing_rejects_invalid_dial_hints_before_persisting_peer() {
    let issuer = Identity::generate();
    let joiner = Identity::generate();
    let ticket = PairTicket::mint(
        "issuer".to_owned(),
        [1; 32],
        None,
        Vec::new(),
        TEST_NOW,
        60_000,
        &issuer,
    )
    .unwrap();
    let mut trust = open();
    trust.register_ticket(ticket.clone());
    let request = PairRequest::sign(
        ticket.ticket_id,
        "joiner".to_owned(),
        [2; 32],
        None,
        vec!["this is not a dial address".to_owned()],
        [3; 16],
        &joiner,
    )
    .unwrap();
    let hints = vec![DialHint { text: "this is not a dial address".to_owned(), socket: false }];
    let error = trust
        .accept_pair_request(&request, &hints, joiner.peer_id(), TEST_NOW, true, |_, _| true)
        .unwrap_err();
    assert!(error.message().contains("address"));
    assert!(trust.get(&joiner.peer_id()).is_none());
}

#[test]
fn binding_a_guest_certifies_it_and_tells_it_about_full_devices() {
    let issuer = Identity::generate();
    let guest = Identity::generate();
    let other = Identity::generate();
    let mut trust = open();
    trust.insert(full_peer(&other)).unwrap();
    trust.insert(guest_peer(&Identity::generate(), "t9", scopes(), TEST_NOW + 1000)).unwrap();
    let token = token(&issuer, None, scopes(), 60_000);
    let bind = EnrollBind::sign(
        token.clone(),
        Some("g".to_owned()),
        [5; 32],
        [6; 32],
        Vec::new(),
        &guest,
    )
    .unwrap();
    let certificate = trust
        .bind_enrollment(&bind, guest.peer_id(), TEST_NOW, &issuer)
        .unwrap();
    certificate.verify(issuer.peer_id()).unwrap();
    let stranger = Identity::generate();
    let stolen =
        EnrollBind::sign(token, None, [5; 32], [6; 32], Vec::new(), &stranger).unwrap();
    assert!(trust
        .bind_enrollment(&stolen, stranger.peer_id(), TEST_NOW, &issuer)
        .is_err());
    let reply = enroll_reply(&trust, certificate);
    assert_eq!(reply.message_type, "enroll-ok");
    assert_eq!(reply.mesh.len(), 1);
    assert_eq!(reply.mesh[0].peer_id, other.peer_id());
    trust.set_mesh_profile(MeshProfile::Fleet);
    let again = BindCertificate::sign(
        "t9".to_owned(),
        guest.peer_id(),
        TEST_NOW,
        "g".to_owned(),
        [5; 32],
        scopes(),
        format_time(TEST_NOW + 1),
        &issuer,
    )
    .unwrap();
    assert_eq!(enroll_reply(&trust, again).mesh.len(), 3);
}

#[test]
fn sessions_end_when_their_guest_is_revoked_or_expires() {
    let me = Identity::generate();
    let guest = Identity::generate();
    let mut trust = open();
    trust.insert(guest_peer(&guest, "t1", scopes(), TEST_NOW + 1000)).unwrap();
    let frame = |trust: &TrustStore, trusted: bool, now: u64, kind: Option<&str>| {
        receive_frame(trust, guest.peer_id(), trusted, TEST_NOW, now, kind)
    };
    assert!(matches!(
        frame(&trust, true, TEST_NOW, Some("offer")),
        Reception::Handle(Frame::Offer)
    ));
    assert!(matches!(frame(&trust, false, TEST_NOW, Some("offer")), Reception::Forbid));
    assert!(matches!(
        frame(&trust, false, TEST_NOW, Some("pair-request")),
        Reception::Handle(Frame::PairRequest)
    ));
    assert!(matches!(frame(&trust, true, TEST_NOW, None), Reception::End(_)));
    assert!(matches!(
        frame(&trust, true, TEST_NOW, Some("what")),
        Reception::Handle(Frame::Unknown)
    ));
    assert!(matches!(frame(&trust, true, TEST_NOW + 1001, Some("ping")), Reception::End(_)));
    trust.revoke_token("t1", TEST_NOW, &me).unwrap();
    assert!(matches!(frame(&trust, true, TEST_NOW, Some("ping")), Reception::End(_)));
    let mut unknown = open();
    assert!(matches!(
        receive_frame(&unknown, guest.peer_id(), true, TEST_NOW, TEST_NOW, Some("ping")),
        Reception::End(_)
    ));
    let ok = answer_hello(
        &mut unknown,
        &hello(&guest, &["resume", "control"]),
        guest.peer_id(),
        me.peer_id(),
        TEST_NOW,
    )
    .unwrap();
    assert_eq!(ok.session, "bootstrap");
    assert!(matches!(open().local_role(), LocalRole::Full));
}
