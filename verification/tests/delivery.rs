use abra::capsule::{Genesis, LabelOp, LeaseMode, LeaseRecord};
use abra::cas::{Digest, EntryMode, Tree, TreeEntry};
use abra::identity::{DeviceKeys, Identity, PeerId};
use abra::json::Json;
use abra::manifest::{Fingerprint, Manifest, NativeBlobRef, RawManifest};
use abra::net::ack::Ack;
use abra::net::adopt::insert_pending_main_label;
use abra::net::auth::{EnrollmentToken, Role, Scopes, FEATURE_CONTROL_RESULT, FEATURE_SKIP_NATIVE};
use abra::net::bind::BindCertificate;
use abra::net::clock::{format_time, parse_time};
use abra::net::control::{ControlMessage, ControlOp};
use abra::net::error::Error;
use abra::net::framing::{check_frame_len, frame, ObjectHeader, ObjectKind, HEADER_LEN};
use abra::net::intake::{update_object_hasher, wanted_plan_object, Intake};
use abra::net::offer::{validate_incoming_offer, Offer, MAX_LEASE_CHAIN_LEN};
use abra::net::outbox::{Outbox, OutboxState, MAX_ATTEMPTS};
use abra::net::outgoing::{Order, Sending};
use abra::net::pack::{
    add_relay_object_bytes, check_relay_closure, check_relay_pack, pack_objects,
};
use abra::net::plan::{
    answer_plan, check_plan, check_received, check_skip, declines_native, digest_set,
    exceeds_storage_quota, native_blobs, required_bytes, Have, Holding, Plan, PlanObject,
    MAX_OBJECT_SIZE, OBJECT_STREAM_CHUNK, STREAMING_THRESHOLD,
};
use abra::net::reason::{
    check_answer, rejection_reason, sanitize_rejection_reason, MAX_REJECTION_REASON_CHARS,
};
use abra::net::receive::{check_event, finalize_received_offer, Via};
use abra::net::relay::{day_tag, hmac_sha256, open, polling_tags, seal};
use abra::net::send::{
    authorize_local_send, build_offer, build_plan, check_outbox_entry, enqueue, StoredObject,
};
use abra::net::session::{check_pair_request, control_reply, pong_to, Carried};
use abra::net::trust::{LocalRole, TrustDisk, TrustStore, TrustedPeer};
use abra::store::AbraStore;
use abra::table::Table;
use abra::util::hex_encode;

const NOW: u64 = 1_800_000_000_000;

fn scopes() -> Scopes {
    Scopes {
        capsules: vec!["*".to_owned()],
        kinds: vec!["*".to_owned()],
        send: true,
        receive: true,
        lease_acquire: false,
        lease_takeover: false,
    }
}

fn full_peer(id: PeerId) -> TrustedPeer {
    TrustedPeer {
        peer_id: id,
        name: "peer".to_owned(),
        role: Role::Full,
        x25519_pk: [0; 32],
        relay_key: None,
        token_id: None,
        scopes: None,
        expires_at: None,
        addresses: Vec::new(),
    }
}

fn guest_peer(id: PeerId, token: &str, expires: u64) -> TrustedPeer {
    TrustedPeer {
        role: Role::Guest,
        token_id: Some(token.to_owned()),
        scopes: Some(scopes()),
        expires_at: Some(format_time(expires)),
        ..full_peer(id)
    }
}

fn trust_of(peers: Vec<TrustedPeer>) -> TrustStore {
    let mut trust = TrustStore::open(TrustDisk::empty());
    for p in peers {
        trust.insert(p).unwrap();
    }
    trust
}

fn raw_of(m: Manifest) -> RawManifest {
    RawManifest::parse(m.to_canonical_bytes().unwrap()).unwrap()
}

fn partial(origin: PeerId, title: &str) -> RawManifest {
    raw_of(Manifest::partial(
        "dev.abra.bundle".to_owned(),
        title.to_owned(),
        origin,
        NOW,
    ))
}

fn offer_of(trust: &TrustStore, to: PeerId, raw: &RawManifest, store: &AbraStore) -> Offer {
    let mut outbox = Outbox::open(Table::new());
    let mut known = trust.clone();
    if known.get(&to).is_none() {
        known.insert(full_peer(to)).unwrap();
    }
    let id = enqueue(&known, &mut outbox, to, raw, true, NOW).unwrap();
    let capsule = match raw.manifest().capsule_id {
        Some(c) => store.capsules.get(&c),
        None => None,
    };
    let holder = capsule.and_then(|c| c.winning_lease()).map(|l| l.holder);
    build_offer(&known, capsule, holder, outbox.get(&id).unwrap(), raw, 0, 0, NOW, None)
}

#[test]
fn received_rejection_reason_is_printable_and_bounded() {
    let reason = format!("{}\u{1b}[31m\n", "x".repeat(1024 * 1024));
    let sanitized = sanitize_rejection_reason(&reason);
    assert_eq!(sanitized.chars().count(), MAX_REJECTION_REASON_CHARS);
    assert!(sanitized.chars().all(|character| !character.is_control()));
    assert_eq!(sanitize_rejection_reason("a\u{7f}b\u{9f}c\u{a0}d"), "abc\u{a0}d");
}

#[test]
fn refusals_tell_nothing_of_local_trouble() {
    let local = abra::error::Error::NotFound { kind: "snapshot", id: "/home/x".to_owned() };
    assert_eq!(rejection_reason(&Error::Core(local)), "invalid manifest");
    assert_eq!(rejection_reason(&Error::Json), "invalid offer");
    assert_eq!(rejection_reason(&Error::Timeout), "delivery validation failed");
    assert_eq!(rejection_reason(&Error::Authorization("no")), "no");
    assert_eq!(
        check_answer(false, Some("a\nb")).unwrap_err().message(),
        "authorization: ab"
    );
    assert_eq!(
        check_answer(false, None).unwrap_err().message(),
        "authorization: offer rejected"
    );
    check_answer(true, None).unwrap();
}

#[test]
fn resent_completed_object_is_a_protocol_error_not_a_panic() {
    let digest = Digest::of(b"done");
    let error = update_object_hasher(&mut Table::new(), digest, b"again").unwrap_err();
    assert!(error.message().contains("completed object"));
}

#[test]
fn relay_sender_rejects_pack_before_base64_allocation() {
    let error = add_relay_object_bytes(MAX_OBJECT_SIZE, 1).unwrap_err();
    assert!(error.message().contains("use direct delivery"));
    assert!(add_relay_object_bytes(u64::MAX, 1).unwrap_err().message().contains("overflow"));
    assert_eq!(add_relay_object_bytes(1, 2).unwrap(), 3);
}

#[test]
fn free_space_probe_failure_rejects_offer() {
    assert!(exceeds_storage_quota(1, 1024, None));
    assert!(exceeds_storage_quota(2, 1024, Some(1)));
    assert!(!exceeds_storage_quota(1, 1024, Some(1)));
    assert!(exceeds_storage_quota(1025, 1024, Some(5000)));
}

fn object(bytes: &[u8]) -> PlanObject {
    PlanObject { digest: Digest::of(bytes), kind: "blob".to_owned(), bytes: bytes.len() as u64 }
}

#[test]
fn sender_cannot_stream_a_skipped_native_object() {
    let digest = Digest::of(b"native");
    let object = PlanObject { digest, kind: "blob".to_owned(), bytes: 6 };
    let mut allowed = Table::new();
    allowed.insert(digest, object);
    let mut have = Table::new();
    have.insert(digest, ());
    let error = wanted_plan_object(&allowed, &have, &digest).unwrap_err();
    assert!(error.message().contains("object not wanted"));
    assert!(wanted_plan_object(&allowed, &Table::new(), &digest).is_ok());
}

fn plan_of(objects: Vec<PlanObject>) -> Plan {
    Plan {
        message_type: "plan".to_owned(),
        offer_id: "ab".to_owned(),
        seq: 0,
        eof: true,
        objects,
    }
}

fn native_ref(bytes: &[u8]) -> NativeBlobRef {
    let host = Fingerprint::new("linux".to_owned(), "x".to_owned(), "none".to_owned());
    NativeBlobRef::new(&host, "memory".to_owned(), Digest::of(bytes), bytes.len() as u64)
}

#[test]
fn plans_are_held_against_their_offer() {
    let native = vec![native_ref(b"mem")];
    let plan = plan_of(vec![object(b"mem"), object(b"file")]);
    assert_eq!(check_plan(&plan, "ab", 2, 7, &native).unwrap(), 7);
    let said = |p: &Plan, n: u64, hint: u64| {
        check_plan(p, "ab", n, hint, &native).unwrap_err().message()
    };
    assert_eq!(said(&plan, 3, 7), "protocol: plan mismatch");
    assert_eq!(said(&plan, 2, 8), "protocol: plan quota mismatch");
    assert!(check_plan(&plan, "other", 2, 7, &native).is_err());
    let twice = plan_of(vec![object(b"file"), object(b"file")]);
    assert_eq!(said(&twice, 2, 8), "protocol: invalid plan");
    let mut lying = plan_of(vec![object(b"mem")]);
    lying.objects[0].bytes = 4;
    assert_eq!(said(&lying, 1, 4), "protocol: invalid plan");
    let mut strange = plan_of(vec![object(b"file")]);
    strange.objects[0].kind = "device".to_owned();
    assert_eq!(said(&strange, 1, 4), "protocol: invalid plan");
    let mut huge = plan_of(vec![object(b"file")]);
    huge.objects[0].bytes = MAX_OBJECT_SIZE + 1;
    assert_eq!(said(&huge, 1, MAX_OBJECT_SIZE + 1), "protocol: invalid plan");
    assert_eq!(required_bytes(&plan, 7, &native, true), 4);
    assert_eq!(required_bytes(&plan, 7, &native, false), 7);
}

#[test]
fn native_objects_are_declined_only_by_agreement() {
    let features = vec![FEATURE_SKIP_NATIVE.to_owned()];
    assert!(declines_native(true, false, &features));
    assert!(!declines_native(true, true, &features));
    assert!(!declines_native(true, false, &[]));
    assert!(!declines_native(false, false, &features));
    let native = vec![native_ref(b"mem")];
    let table = native_blobs(&native);
    let (mem, file, part) = (Digest::of(b"mem"), Digest::of(b"file"), Digest::of(b"part"));
    let holdings = vec![
        (file, Holding::Whole),
        (mem, Holding::Part(2)),
        (part, Holding::Part(1)),
        (Digest::of(b"no"), Holding::Nothing),
    ];
    let have = answer_plan("ab", &holdings, &table, true, false, true);
    assert_eq!(have.have, [file, mem]);
    assert_eq!(have.resume.len(), 1);
    assert_eq!(have.resume.get(&part), Some(&1));
    assert!(have.skip_native);
    check_skip(&have, &native).unwrap();
    let lying = Have { have: vec![file], ..answer_plan("ab", &holdings, &table, true, false, true) };
    assert!(check_skip(&lying, &native).is_err());
    let guest = answer_plan("ab", &holdings, &table, true, true, false);
    assert!(guest.have.is_empty());
    assert_eq!(guest.resume.len(), 0);
    assert!(!guest.skip_native);
    let plain = answer_plan("ab", &holdings, &table, false, false, false);
    assert_eq!(plain.have, [file]);
    assert_eq!(plain.resume.len(), 2);
}

#[test]
fn what_arrives_is_what_the_manifest_reaches() {
    let (mem, file) = (Digest::of(b"mem"), Digest::of(b"file"));
    let native = native_blobs(&vec![native_ref(b"mem")]);
    let plan = plan_of(vec![object(b"mem"), object(b"file")]);
    let both = digest_set(&vec![mem, file]);
    let files = digest_set(&vec![file]);
    assert_eq!(check_received(&plan, both.clone(), &files, &native, false).unwrap().len(), 2);
    // Declined, and not part of the files: it counts neither way.
    assert_eq!(check_received(&plan, both.clone(), &files, &native, true).unwrap().len(), 1);
    // Declined, but one of the files as well: it has to be there.
    let short = plan_of(vec![object(b"file")]);
    assert!(check_received(&short, both.clone(), &both, &native, true).is_err());
    assert!(check_received(&short, both, &files, &native, false).is_err());
}

fn stream(kind: ObjectKind, bytes: &[u8], offset: u64, body: &[u8]) -> Vec<u8> {
    let header = ObjectHeader {
        kind,
        digest: Digest::of(bytes),
        total_size: bytes.len() as u64,
        offset,
    };
    let mut out = header.encode().to_vec();
    out.extend_from_slice(body);
    out
}

#[test]
fn objects_arrive_piece_by_piece_and_only_as_planned() {
    let plan = plan_of(vec![object(b"correct bytes"), object(b"had")]);
    let have = vec![Digest::of(b"had")];
    let intake = Intake::start(&plan, &have);
    assert!(!intake.is_complete());
    let (intake, piece) = intake
        .take(&stream(ObjectKind::Blob, b"correct bytes", 0, b"correct "))
        .unwrap();
    assert!(!piece.complete);
    let (intake, piece) = intake
        .take(&stream(ObjectKind::Blob, b"correct bytes", 8, b"bytes"))
        .unwrap();
    assert!(piece.complete);
    assert!(intake.is_complete());
    let said = |s: Vec<u8>| {
        Intake::start(&plan, &have)
            .preload(Digest::of(b"correct bytes"), b"corr")
            .unwrap()
            .take(&s)
            .err()
            .unwrap()
            .message()
    };
    assert!(intake
        .take(&stream(ObjectKind::Blob, b"correct bytes", 13, b""))
        .err()
        .unwrap()
        .message()
        .contains("completed object"));
    assert!(said(vec![1; HEADER_LEN - 1]).contains("short object header"));
    assert!(said(stream(ObjectKind::Blob, b"had", 0, b"had")).contains("not wanted"));
    assert!(said(stream(ObjectKind::Blob, b"other", 0, b"other")).contains("not wanted"));
    assert!(said(stream(ObjectKind::Tree, b"correct bytes", 4, b"x")).contains("header mismatch"));
    assert!(said(stream(ObjectKind::Blob, b"correct bytes", 0, b"x")).contains("header mismatch"));
    assert!(said(stream(ObjectKind::Blob, b"correct bytes", 4, b"ect bytes!")).contains("exceeds"));
    assert!(said(stream(ObjectKind::Blob, b"correct bytes", 4, b"upt bytes")).contains("hash mismatch"));
    let resumed = Intake::start(&plan, &have)
        .preload(Digest::of(b"correct bytes"), b"corr")
        .unwrap();
    let (done, _) = resumed
        .take(&stream(ObjectKind::Blob, b"correct bytes", 4, b"ect bytes"))
        .unwrap();
    assert!(done.is_complete());
}

fn have_of(have: Vec<Digest>, resume: Vec<(Digest, u64)>) -> Have {
    let mut table = Table::new();
    for (d, n) in resume {
        table.insert(d, n);
    }
    Have {
        message_type: "have".to_owned(),
        offer_id: "ab".to_owned(),
        have,
        resume: table,
        eof: true,
        skip_native: false,
    }
}

#[test]
fn small_objects_are_sent_whole_and_large_ones_in_chunks() {
    let large = vec![7u8; (OBJECT_STREAM_CHUNK + 5) as usize];
    let objects = vec![object(b"had"), object(b"small"), object(&large)];
    let have = have_of(vec![Digest::of(b"had")], vec![(Digest::of(&large), 3)]);
    let mut s = Sending::start(&objects, have, STREAMING_THRESHOLD, None);
    assert_eq!(s.stats.objects_reused, 1);
    let mut sent = Vec::new();
    let mut at = 0usize;
    loop {
        let (next, order) = s.next().unwrap();
        s = next;
        match order {
            Order::Whole(h) => sent.push((h.offset, h.total_size)),
            Order::Prefix(_, n) => {
                s = s.read(&large[at..at + n as usize]);
                at += n as usize;
            }
            Order::Chunk(h, n) => {
                assert_eq!(h.offset as usize, at);
                s = s.read(&large[at..at + n as usize]);
                at += n as usize;
                sent.push((h.offset, n));
            }
            Order::Sent(d) => assert_eq!(d, Digest::of(&large)),
            Order::Cut => panic!("no limit was set"),
            Order::Done => break,
        }
    }
    assert_eq!(sent, [(0, 5), (3, OBJECT_STREAM_CHUNK), (OBJECT_STREAM_CHUNK + 3, 2)]);
    assert_eq!(s.stats.objects_transferred, 2);
    assert_eq!(s.stats.resumed_bytes, 3);
    assert_eq!(s.stats.bytes_transferred, 5 + OBJECT_STREAM_CHUNK + 2);
}

#[test]
fn a_limit_cuts_a_transfer_short() {
    let bytes = vec![3u8; 10_000];
    let objects = vec![object(&bytes)];
    let s = Sending::start(&objects, have_of(vec![], vec![]), STREAMING_THRESHOLD, Some(4096));
    let (s, order) = s.next().unwrap();
    assert!(matches!(order, Order::Chunk(_, 4096)));
    let s = s.read(&bytes[..4096]);
    let (s, order) = s.next().unwrap();
    assert_eq!(order, Order::Cut);
    assert_eq!(s.stats.bytes_transferred, 4096);
    let wrong = Sending::start(
        &objects,
        have_of(vec![], vec![(Digest::of(&bytes), 10_001)]),
        STREAMING_THRESHOLD,
        None,
    );
    assert!(wrong.next().is_err());
    let changed = Sending::start(
        &objects,
        have_of(vec![], vec![(Digest::of(&bytes), 10_000)]),
        STREAMING_THRESHOLD,
        None,
    );
    let (changed, order) = changed.next().unwrap();
    assert!(matches!(order, Order::Prefix(_, 10_000)));
    assert!(changed.read(&vec![4u8; 10_000]).next().err().unwrap().message().contains("changed"));
}

#[test]
fn plans_are_built_from_what_is_stored() {
    let native = digest_set(&vec![Digest::of(b"mem")]);
    let stored = vec![
        StoredObject { digest: Digest::of(b"mem"), size: 3, tree: true },
        StoredObject { digest: Digest::of(b"dir"), size: 4, tree: true },
        StoredObject { digest: Digest::of(b"file"), size: 5, tree: false },
    ];
    let (objects, sum) = build_plan(&stored, &native).unwrap();
    assert_eq!(sum, 12);
    let kinds: Vec<&str> = objects.iter().map(|o| o.kind.as_str()).collect();
    assert_eq!(kinds, ["blob", "tree", "blob"]);
    let large = vec![StoredObject {
        digest: Digest::of(b"file"),
        size: MAX_OBJECT_SIZE + 1,
        tree: false,
    }];
    assert!(build_plan(&large, &native).is_err());
    let large = vec![StoredObject {
        digest: Digest::of(b"mem"),
        size: MAX_OBJECT_SIZE + 1,
        tree: false,
    }];
    build_plan(&large, &native).unwrap();
}

#[test]
fn relay_packs_are_read_back() {
    let tree = Tree::new(vec![TreeEntry {
        name: "a".to_owned(),
        mode: EntryMode::File,
        hash: Digest::of(b"x"),
    }])
    .unwrap()
    .encode();
    let contents: Vec<(Digest, Vec<u8>)> =
        [b"x".to_vec(), tree].into_iter().map(|b| (Digest::of(&b), b)).collect();
    let (mut objects, size) = pack_objects(&contents).unwrap();
    assert_eq!(objects[0].kind, "blob");
    assert_eq!(objects[1].kind, "tree");
    let (back, supplied) = check_relay_pack(&objects, 2, size).unwrap();
    assert_eq!(back, contents);
    check_relay_closure(&supplied, &digest_set(&vec![contents[0].0, contents[1].0])).unwrap();
    assert!(check_relay_closure(&supplied, &digest_set(&vec![contents[0].0])).is_err());
    assert!(check_relay_pack(&objects, 3, size).unwrap_err().message().contains("count"));
    assert!(check_relay_pack(&objects, 2, size + 1).unwrap_err().message().contains("limit"));
    objects[1].kind = "blob".to_owned();
    assert!(check_relay_pack(&objects, 2, size).unwrap_err().message().contains("invalid relay"));
    objects[1].kind = "tree".to_owned();
    objects[0].data = "*".to_owned();
    assert!(check_relay_pack(&objects, 2, size).unwrap_err().message().contains("base64"));
    let (twice, n) = pack_objects(&vec![contents[0].clone(), contents[0].clone()]).unwrap();
    assert!(check_relay_pack(&twice, 2, n).unwrap_err().message().contains("duplicate"));
}

#[test]
fn pending_selection_respects_backoff_and_preserves_failure() {
    let mut outbox = Outbox::open(Table::new());
    let id = outbox.enqueue(
        Identity::generate().peer_id(),
        Digest::of(b"snapshot"),
        b"manifest".to_vec(),
        1_000,
    );
    outbox
        .fail_attempt(&id, "first dial failed".to_owned(), 1_000)
        .unwrap();

    let entry = outbox.get(&id).unwrap().clone();
    assert_eq!(entry.attempts, 1);
    assert_eq!(entry.last_error.as_deref(), Some("first dial failed"));
    assert!(!outbox.pending_ids(1_000).contains(&id));

    let retry_at = parse_time(&entry.next_attempt_at).unwrap();
    assert!(outbox.pending_ids(retry_at).contains(&id));
    let unchanged = outbox.get(&id).unwrap();
    assert_eq!(unchanged.attempts, 1);
    assert_eq!(unchanged.last_error.as_deref(), Some("first dial failed"));
}

#[test]
fn pending_ids_are_those_that_are_due() {
    let to = Identity::generate().peer_id();
    let mut outbox = Outbox::open(Table::new());
    let mut ids: Vec<String> = (0..5)
        .map(|i| outbox.enqueue(to, Digest::of(&[i]), Vec::new(), NOW))
        .collect();
    ids.sort();
    assert_eq!(outbox.pending_ids(NOW), ids);
    assert!(outbox.pending_ids(NOW - 1).is_empty());
    // What lies with a relay is tried again after a minute.
    outbox.mark_relay_deposited(&ids[0], NOW).unwrap();
    assert!(!outbox.pending_ids(NOW + 59_999).contains(&ids[0]));
    assert!(outbox.pending_ids(NOW + 60_000).contains(&ids[0]));
    // What was given up is not.
    outbox.cancel(&ids[1], NOW).unwrap();
    assert!(!outbox.pending_ids(u64::MAX).contains(&ids[1]));
    // What failed for good is not either, until it is started over.
    for _ in 0..MAX_ATTEMPTS {
        outbox.fail_attempt(&ids[2], "x".to_owned(), NOW).unwrap();
    }
    assert!(!outbox.pending_ids(u64::MAX).contains(&ids[2]));
    outbox.retry_fresh(&ids[2], NOW + 5).unwrap();
    assert!(outbox.pending_ids(NOW + 5).contains(&ids[2]));
    assert_eq!(outbox.get(&ids[2]).unwrap().id, ids[2]);
}

#[test]
fn the_last_attempt_needs_no_next_one() {
    let mut outbox = Outbox::open(Table::new());
    let id = outbox.enqueue(Identity::generate().peer_id(), Digest::of(b"s"), Vec::new(), NOW);
    assert!(outbox.fail_attempt("nope", "x".to_owned(), u64::MAX).is_err());
    for _ in 1..MAX_ATTEMPTS {
        outbox.fail_attempt(&id, "x".to_owned(), NOW).unwrap();
    }
    outbox.fail_attempt(&id, "x".to_owned(), u64::MAX).unwrap();
    assert_eq!(outbox.get(&id).unwrap().state, OutboxState::Failed);
}

#[test]
fn old_receipts_do_not_clear_fresh_attempts() {
    let sender = Identity::generate();
    let receiver = Identity::generate();
    let mut outbox = Outbox::open(Table::new());
    let id = outbox.enqueue(receiver.peer_id(), Digest::of(b"s"), Vec::new(), NOW);
    let offer_id = outbox.get(&id).unwrap().offer_id.clone();
    assert_eq!(outbox.id_of_offer(&offer_id), Some(id.clone()));
    assert_eq!(outbox.id_of_offer("none"), None);
    for state in [
        OutboxState::Healthcheck,
        OutboxState::Offered,
        OutboxState::Transferring,
        OutboxState::AwaitingAck,
    ] {
        outbox.transition(&id, state, NOW).unwrap();
    }
    assert!(outbox.transition(&id, OutboxState::Offered, NOW).is_err());
    let ack = Ack::sign(
        offer_id,
        Digest::of(b"s"),
        "inbox".to_owned(),
        NOW,
        sender.peer_id(),
        &receiver,
    )
    .unwrap();
    ack.verify(sender.peer_id(), receiver.peer_id()).unwrap();
    assert!(ack.verify(receiver.peer_id(), receiver.peer_id()).is_err());
    outbox.fail_attempt(&id, "lost".to_owned(), NOW).unwrap();
    outbox.retry_fresh(&id, NOW).unwrap();
    assert!(!outbox.apply_ack(&id, &ack, sender.peer_id(), NOW).unwrap());
    assert!(Ack::sign("zz".to_owned(), Digest::of(b"s"), String::new(), NOW, sender.peer_id(), &receiver).is_err());
}

#[test]
fn entries_are_sent_to_their_recipient_in_time() {
    let me = Identity::generate();
    let to = Identity::generate();
    let trust = trust_of(vec![full_peer(to.peer_id())]);
    let raw = partial(me.peer_id(), "t");
    let mut outbox = Outbox::open(Table::new());
    assert!(enqueue(&trust, &mut outbox, me.peer_id(), &raw, true, NOW).is_err());
    let id = enqueue(&trust, &mut outbox, to.peer_id(), &raw, true, NOW).unwrap();
    check_outbox_entry(&mut outbox, &id, to.peer_id(), NOW).unwrap();
    assert!(check_outbox_entry(&mut outbox, "nope", to.peer_id(), NOW).is_err());
    assert!(check_outbox_entry(&mut outbox, &id, me.peer_id(), NOW).is_err());
    outbox.fail_attempt(&id, "x".to_owned(), NOW).unwrap();
    assert!(check_outbox_entry(&mut outbox, &id, to.peer_id(), NOW)
        .unwrap_err()
        .message()
        .contains("backoff"));
    assert!(check_outbox_entry(&mut outbox, &id, to.peer_id(), NOW + 31 * 86_400_000)
        .unwrap_err()
        .message()
        .contains("expired"));
}

#[test]
fn guest_send_requires_scope_and_local_switch() {
    let issuer = Identity::generate();
    let me = Identity::generate();
    let to = Identity::generate();
    let token = EnrollmentToken::mint(
        "g".to_owned(),
        vec![],
        Some(me.peer_id()),
        Scopes { kinds: vec!["dev.abra.bundle".to_owned()], ..scopes() },
        NOW,
        60_000,
        &issuer,
    )
    .unwrap();
    let mut trust = trust_of(vec![full_peer(to.peer_id())]);
    trust.set_local_role(LocalRole::Guest { token: Box::new(token) });
    let raw = partial(me.peer_id(), "t");
    let mut outbox = Outbox::open(Table::new());
    assert!(enqueue(&trust, &mut outbox, to.peer_id(), &raw, false, NOW).is_err());
    enqueue(&trust, &mut outbox, to.peer_id(), &raw, true, NOW).unwrap();
    authorize_local_send(&trust, None, "dev.abra.bundle", true).unwrap();
    assert!(authorize_local_send(&trust, None, "dev.abra.bundle", false).is_err());
    assert!(authorize_local_send(&trust, None, "other", true).is_err());
}

#[test]
fn tags_cover_adjacent_days_and_sealed_roundtrip_is_opaque() {
    let key = [7; 32];
    let tags = polling_tags(&key, 86_400_000 * 4);
    assert_eq!(tags[1], day_tag(&key, 4));
    let keys = DeviceKeys::generate();
    let sealed = seal(keys.x25519_public(), b"private manifest").unwrap();
    assert!(!sealed.windows(16).any(|x| x == b"private manifest"));
    assert_eq!(open(keys.x25519_secret, &sealed).unwrap(), b"private manifest");
    assert!(open([3; 32], &sealed).is_err());
    assert_eq!(
        hex_encode(&hmac_sha256(b"key", b"The quick brown fox jumps over the lazy dog")),
        "f7bc83f430538424b13298e6aa6fb143ef4d59a14946175997479dbc2d1a3cd8"
    );
}

#[test]
fn frames_and_headers_have_their_length_in_front() {
    assert_eq!(frame(b"{}").unwrap(), [0, 0, 0, 2, b'{', b'}']);
    assert!(frame(b"").is_err());
    assert_eq!(check_frame_len(5).unwrap(), 5);
    assert!(check_frame_len(0).is_err());
    assert!(check_frame_len(16_777_217).is_err());
    let header = ObjectHeader {
        kind: ObjectKind::Tree,
        digest: Digest::of(b"x"),
        total_size: 300,
        offset: 7,
    };
    assert_eq!(ObjectHeader::decode(header.encode()).unwrap(), header);
    let mut bad = header.encode();
    bad[0] = 9;
    assert!(ObjectHeader::decode(bad).is_err());
    let mut beyond = header;
    beyond.offset = 301;
    assert!(ObjectHeader::decode(beyond.encode()).is_err());
}

#[test]
fn receiver_rejects_noncanonical_mismatched_and_untrusted_origin_manifest_bytes() {
    let me = Identity::generate();
    let sender = Identity::generate();
    let stranger = Identity::generate();
    let mut trust = trust_of(vec![full_peer(sender.peer_id()), full_peer(me.peer_id())]);
    let store = AbraStore::new();
    let raw = partial(sender.peer_id(), "t");
    let good = offer_of(&trust, me.peer_id(), &raw, &store);
    let ask = |trust: &mut TrustStore, offer: &Offer, from: &Identity| {
        validate_incoming_offer(trust, offer, from.peer_id(), NOW)
    };
    assert_eq!(ask(&mut trust, &good, &sender).unwrap(), raw);
    assert!(ask(&mut trust, &good, &stranger).is_err());
    let mut pretty = good.clone();
    let mut bytes = raw.bytes().to_vec();
    bytes.push(b' ');
    pretty.manifest_raw = abra::base64::base64_encode(&bytes);
    assert!(ask(&mut trust, &pretty, &sender).is_err());
    let mut other = good.clone();
    other.snapshot_id = Digest::of(b"x");
    assert!(ask(&mut trust, &other, &sender).unwrap_err().message().contains("id mismatch"));
    let mut garbled = good.clone();
    garbled.manifest_raw = "*".to_owned();
    assert!(ask(&mut trust, &garbled, &sender).unwrap_err().message().contains("base64"));
    let foreign = partial(stranger.peer_id(), "t");
    let offer = offer_of(&trust, me.peer_id(), &foreign, &store);
    assert!(ask(&mut trust, &offer, &sender).unwrap_err().message().contains("untrusted manifest origin"));
}

#[test]
fn untrusted_and_guest_forwarders_cannot_install_bind_certificates() {
    let issuer = Identity::generate();
    let guest = Identity::generate();
    let me = Identity::generate();
    let forwarder = Identity::generate();
    let certificate = BindCertificate::sign(
        "42".repeat(16),
        guest.peer_id(),
        NOW,
        "g".to_owned(),
        [4; 32],
        scopes(),
        format_time(NOW + 60_000),
        &issuer,
    )
    .unwrap();
    let raw = partial(guest.peer_id(), "t");
    let store = AbraStore::new();
    let mut offer = offer_of(&trust_of(vec![full_peer(me.peer_id())]), me.peer_id(), &raw, &store);
    offer.bind_certificate_issuer = Some(issuer.peer_id());
    offer.bind_certificate = Some(certificate);
    let mut trust = trust_of(vec![
        full_peer(me.peer_id()),
        guest_peer(forwarder.peer_id(), "t1", NOW + 60_000),
    ]);
    assert!(validate_incoming_offer(&mut trust, &offer, forwarder.peer_id(), NOW).is_err());
    assert!(validate_incoming_offer(&mut trust, &offer, issuer.peer_id(), NOW).is_err());
    trust.insert(full_peer(issuer.peer_id())).unwrap();
    validate_incoming_offer(&mut trust, &offer, issuer.peer_id(), NOW).unwrap();
    assert!(trust.bind_certificate(&guest.peer_id()).is_some());
}

fn genesis(creator: &Identity) -> (Genesis, LeaseRecord) {
    let g = Genesis::new(
        Digest::from_bytes([8; 32]),
        format_time(NOW),
        "dev.abra.workspace".to_owned(),
        "x".to_owned(),
        creator,
    )
    .unwrap();
    let l = lease(&g, creator, 1, LeaseMode::Grant, g.hash().unwrap());
    (g, l)
}

fn lease(g: &Genesis, holder: &Identity, epoch: u64, mode: LeaseMode, prev: Digest) -> LeaseRecord {
    LeaseRecord::new(
        g.capsule_id,
        holder.peer_id(),
        epoch,
        mode,
        format_time(NOW),
        format_time(NOW + 3_600_000),
        prev,
        holder,
    )
    .unwrap()
}

fn version(g: &Genesis, origin: &Identity, title: &str, parents: Vec<Digest>) -> RawManifest {
    let mut m = Manifest::full(
        "dev.abra.workspace".to_owned(),
        title.to_owned(),
        origin.peer_id(),
        NOW,
        g.capsule_id,
    );
    m.parents = parents;
    raw_of(m)
}

fn main_label(g: &Genesis, seq: u64, target: Digest, epoch: u64, signer: &Identity) -> LabelOp {
    LabelOp::new(
        g.capsule_id,
        seq,
        "main".to_owned(),
        target,
        epoch,
        format_time(NOW),
        signer,
    )
    .unwrap()
}

struct Side {
    id: Identity,
    trust: TrustStore,
    store: AbraStore,
    pending: Table<Digest, Vec<LabelOp>>,
}

fn side(trusted: &[&Identity]) -> Side {
    Side {
        id: Identity::generate(),
        trust: trust_of(trusted.iter().map(|i| full_peer(i.peer_id())).collect()),
        store: AbraStore::new(),
        pending: Table::new(),
    }
}

fn deliver(to: &mut Side, offer: &Offer, from: &Identity) -> Result<String, Error> {
    let raw = validate_incoming_offer(&mut to.trust, offer, from.peer_id(), NOW)?;
    let received = finalize_received_offer(
        &mut to.store,
        &to.trust,
        &mut to.pending,
        raw,
        offer,
        from.peer_id(),
        NOW,
        Via::Relay,
        &to.id,
    )?;
    received.ack.verify(from.peer_id(), to.id.peer_id())?;
    check_event(&received.event)?;
    assert_eq!(received.event.get("via"), Some(&Json::Str("relay".to_owned())));
    Ok(received.ack.shelf)
}

#[test]
fn a_capsule_is_begun_on_first_sight_and_follows_its_holder() {
    let sender = Identity::generate();
    let mut to = side(&[&sender]);
    let (g, l1) = genesis(&sender);
    let mut store = AbraStore::new();
    store.add_capsule(g.clone(), l1.clone()).unwrap();
    let root = version(&g, &sender, "root", vec![]);
    store.receive_full(root.clone(), format_time(NOW), None).unwrap();
    store
        .apply_label(main_label(&g, 1, root.snapshot_id(), 1, &sender), sender.peer_id())
        .unwrap();
    let offer = offer_of(&to.trust, to.id.peer_id(), &root, &store);
    assert!(!offer.fork);
    assert!(offer.genesis_grant.is_some());
    assert_eq!(deliver(&mut to, &offer, &sender).unwrap(), "capsule-head");
    let held = to.store.capsules.get(&g.capsule_id).unwrap();
    assert_eq!(held.label("main").unwrap().snapshot_id, root.snapshot_id());

    // A refreshed lease travels with the next version.
    let l2 = lease(&g, &sender, 2, LeaseMode::Refresh, l1.hash().unwrap());
    assert!(store.accept_lease(g.capsule_id, l2, true).unwrap());
    let next = version(&g, &sender, "next", vec![root.snapshot_id()]);
    store.receive_full(next.clone(), format_time(NOW), None).unwrap();
    store
        .apply_label(main_label(&g, 2, next.snapshot_id(), 2, &sender), sender.peer_id())
        .unwrap();
    let offer = offer_of(&to.trust, to.id.peer_id(), &next, &store);
    assert_eq!(offer.lease_chain.len(), 1);
    assert_eq!(deliver(&mut to, &offer, &sender).unwrap(), "capsule-head");
    assert_eq!(
        to.store.capsules.get(&g.capsule_id).unwrap().winning_lease().unwrap().epoch,
        2
    );
}

#[test]
fn relay_delivery_with_unapplicable_main_label_records_a_fork_label() {
    let a = Identity::generate();
    let mut b = side(&[&a]);
    let creator = Identity::generate();
    let holder = Identity::generate();
    let capsule_id = Digest::from_bytes([55; 32]);
    let genesis = Genesis::new(
        capsule_id,
        format_time(NOW),
        "dev.abra.workspace".to_owned(),
        "capsule".to_owned(),
        &creator,
    )
    .unwrap();
    let day = |who: &Identity, epoch: u64, mode: LeaseMode, prev: Digest| {
        LeaseRecord::new(
            capsule_id,
            who.peer_id(),
            epoch,
            mode,
            format_time(NOW),
            format_time(NOW + 86_400_000),
            prev,
            who,
        )
        .unwrap()
    };
    let grant = day(&creator, 1, LeaseMode::Grant, genesis.hash().unwrap());
    let mut store = AbraStore::new();
    store.add_capsule(genesis.clone(), grant.clone()).unwrap();

    // The sender's capsule is at epoch 2 under a holder the receiver does not trust, so the
    // receiver can adopt neither the lease chain nor the main move that depends on it.
    let takeover = day(&holder, 2, LeaseMode::Takeover, grant.hash().unwrap());
    let first = version(&genesis, &a, "first", vec![]);
    store.receive_full(first.clone(), format_time(NOW), None).unwrap();
    let main = main_label(&genesis, 1, first.snapshot_id(), 2, &holder);
    assert!(store
        .adopt_capsule_state(capsule_id, &vec![takeover], &vec![true], Some(&main))
        .unwrap());
    let offer = offer_of(&b.trust, b.id.peer_id(), &first, &store);
    assert_eq!(deliver(&mut b, &offer, &a).unwrap(), "capsule-fork");
    let fork_label = format!("fork/{}", &first.snapshot_id().to_hex()[..8]);
    let capsule = b.store.capsules.get(&capsule_id).unwrap();
    assert_eq!(capsule.label(&fork_label).unwrap().snapshot_id, first.snapshot_id());
    assert!(capsule.label("main").is_none());

    // With the holder trusted the chain applies, and the main label the fork held back moves the
    // receiver's head.
    b.trust.insert(full_peer(holder.peer_id())).unwrap();
    let second = version(&genesis, &a, "second", vec![first.snapshot_id()]);
    let offer = offer_of(&b.trust, b.id.peer_id(), &second, &store);
    assert_eq!(deliver(&mut b, &offer, &a).unwrap(), "capsule-head");
    let capsule = b.store.capsules.get(&capsule_id).unwrap();
    assert_eq!(capsule.label("main").unwrap().snapshot_id, first.snapshot_id());
    assert!(capsule.label(&fork_label).is_some());
}

#[test]
fn a_child_without_its_parent_is_a_fork_until_the_parent_arrives() {
    let sender = Identity::generate();
    let mut to = side(&[&sender]);
    let (g, l1) = genesis(&sender);
    let mut store = AbraStore::new();
    store.add_capsule(g.clone(), l1).unwrap();
    let root = version(&g, &sender, "root", vec![]);
    store.receive_full(root.clone(), format_time(NOW), None).unwrap();
    let child = version(&g, &sender, "child", vec![root.snapshot_id()]);
    store.receive_full(child.clone(), format_time(NOW), None).unwrap();
    store
        .apply_label(main_label(&g, 1, child.snapshot_id(), 1, &sender), sender.peer_id())
        .unwrap();
    let main = store.capsules.get(&g.capsule_id).unwrap().label("main").unwrap().clone();
    // The child comes without its parent: main cannot move there yet.
    let offer = offer_of(&to.trust, to.id.peer_id(), &child, &store);
    assert_eq!(deliver(&mut to, &offer, &sender).unwrap(), "capsule-fork");
    let held = to.store.capsules.get(&g.capsule_id).unwrap();
    let name = abra::history::fork_label(&child.snapshot_id());
    assert_eq!(held.label(&name).unwrap().snapshot_id, child.snapshot_id());
    assert_eq!(to.pending.get(&g.capsule_id).unwrap(), &vec![main]);
    // The parent arrives, and the label that waited is followed.
    let offer = offer_of(&to.trust, to.id.peer_id(), &root, &store);
    deliver(&mut to, &offer, &sender).unwrap();
    let held = to.store.capsules.get(&g.capsule_id).unwrap();
    assert_eq!(held.label("main").unwrap().snapshot_id, child.snapshot_id());
    assert_eq!(to.pending.len(), 0);
}

#[test]
fn receiver_rejects_cross_capsule_and_oversized_state_bundles() {
    let sender = Identity::generate();
    let mut to = side(&[&sender]);
    let (g, l1) = genesis(&sender);
    let mut store = AbraStore::new();
    store.add_capsule(g.clone(), l1.clone()).unwrap();
    let root = version(&g, &sender, "root", vec![]);
    store.receive_full(root.clone(), format_time(NOW), None).unwrap();
    let good = offer_of(&to.trust, to.id.peer_id(), &root, &store);
    let mut crossed = good.clone();
    crossed.genesis_grant.as_mut().unwrap().capsule_id = Digest::from_bytes([9; 32]);
    assert!(deliver(&mut to, &crossed, &sender).unwrap_err().message().contains("bundle mismatch"));
    let mut long = good.clone();
    long.lease_chain = vec![l1.clone(); MAX_LEASE_CHAIN_LEN + 1];
    assert!(deliver(&mut to, &long, &sender).unwrap_err().message().contains("256 records"));
    let mut broken = good.clone();
    broken.lease_chain = vec![l1.clone(), l1];
    assert!(deliver(&mut to, &broken, &sender).unwrap_err().message().contains("contiguous"));
    let mut bare = good.clone();
    bare.genesis = None;
    assert!(deliver(&mut to, &bare, &sender).unwrap_err().message().contains("missing genesis"));
    let loose = partial(sender.peer_id(), "t");
    let mut offer = offer_of(&to.trust, to.id.peer_id(), &loose, &store);
    offer.genesis = good.genesis.clone();
    assert!(deliver(&mut to, &offer, &sender).unwrap_err().message().contains("partial offer"));
    offer.genesis = None;
    assert_eq!(deliver(&mut to, &offer, &sender).unwrap(), "inbox");
    offer.offer_id = "zz".to_owned();
    assert!(deliver(&mut to, &offer, &sender).unwrap_err().message().contains("offer id"));
}

#[test]
fn labels_wait_once_each() {
    let sender = Identity::generate();
    let (g, _) = genesis(&sender);
    let mut pending = Table::new();
    let op = main_label(&g, 1, Digest::of(b"x"), 1, &sender);
    insert_pending_main_label(&mut pending, g.capsule_id, op.clone());
    insert_pending_main_label(&mut pending, g.capsule_id, op);
    assert_eq!(pending.get(&g.capsule_id).unwrap().len(), 1);
}

#[test]
fn orders_are_answered_with_what_came_of_them() {
    let features = vec![FEATURE_CONTROL_RESULT.to_owned()];
    let done = control_reply("n", Ok(()), Carried::Done(Json::Bool(true)), &features);
    assert!(done.ok);
    assert_eq!(done.result, Some(Json::Bool(true)));
    assert_eq!(control_reply("n", Ok(()), Carried::Done(Json::Null), &[]).result, None);
    let failed = control_reply(
        "n",
        Ok(()),
        Carried::Failed(Error::Transport("no such file: /home/x")),
        &features,
    );
    assert!(!failed.ok);
    assert_eq!(failed.error.unwrap(), "delivery validation failed");
    let late = control_reply("n", Ok(()), Carried::TimedOut, &features);
    assert_eq!(late.error.unwrap(), "control handler timed out");
    let refused = control_reply("n", Err(Error::Timeout), Carried::Nobody, &features);
    assert_eq!(refused.error.unwrap(), "timeout");
    assert!(control_reply("n", Ok(()), Carried::Nobody, &[]).ok);
}

#[test]
fn control_messages_are_taken_once() {
    let sender = Identity::generate();
    let mut trust = trust_of(vec![full_peer(sender.peer_id())]);
    let message = ControlMessage::new(
        Digest::of(b"c"),
        ControlOp::Instruct,
        Some("go".to_owned()),
        NOW,
        [1; 16],
        &sender,
    )
    .unwrap();
    message.verify_and_record(sender.peer_id(), &mut trust, NOW).unwrap();
    assert!(message.verify_and_record(sender.peer_id(), &mut trust, NOW).is_err());
    assert!(message
        .verify_and_record(Identity::generate().peer_id(), &mut trust, NOW)
        .is_err());
}

#[test]
fn pair_requests_wait_in_a_short_line() {
    let a = Identity::generate().peer_id();
    let b = Identity::generate().peer_id();
    check_pair_request(a, a, 127).unwrap();
    assert!(check_pair_request(a, a, 128).is_err());
    assert!(check_pair_request(a, b, 0).is_err());
    let ping = abra::net::hello::Ping {
        message_type: "ping".to_owned(),
        nonce: "1".to_owned(),
        ts: format_time(NOW),
    };
    let pong = pong_to(&ping, NOW);
    abra::net::hello::check_pong(&ping, &pong).unwrap();
}

#[test]
fn events_have_a_name_and_a_time() {
    let json = |t: &str| abra::canonical::read_json(t.as_bytes()).unwrap();
    check_event(&json("{\"event\":\"x\",\"at\":\"now\"}")).unwrap();
    assert!(check_event(&json("{\"event\":\"x\"}")).is_err());
    assert!(check_event(&json("{\"event\":1,\"at\":\"now\"}")).is_err());
}
