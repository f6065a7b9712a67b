//! What is kept and what is passed on: of trust, of deliveries, and of what others say.
use vstd::prelude::*;

use crate::capsule::LabelOp;
use crate::identity::{signed_by, PeerId};
use crate::manifest::RawManifest;
use crate::net::ack::Ack;
use crate::net::adopt::retried;
use crate::net::auth::{
    bind_window, shows_time, ticket_check, ticket_payload, token_check, token_payload,
    EnrollmentToken, PairAccept, PairRequest, PairTicket,
};
use crate::net::bind::EnrollMeshPeer;
use crate::net::clock::time_of;
use crate::net::control::{control_fault, control_payload, ControlMessage};
use crate::net::delivery::{receipt_taken, recipient_fault};
use crate::net::enroll::{join_fault, peer_of_request, peer_of_ticket};
use crate::net::error::Error;
use crate::net::handshake::proof_bytes;
use crate::net::hello::{hello_heard, hello_revocations, our_features, Hello};
use crate::net::offer::Offer;
use crate::net::outbox::{offer_at, queued, stepped, Outbox, OutboxEntry, OutboxState};
use crate::net::pairing::TrustV;
use crate::net::reason::{bounded, is_control, printable};
use crate::net::receive::{admission_fault, committed, is_item, shelf_text};
use crate::net::session::{frame_of, introduces};
use crate::net::settle::{merged, pruned, version_at};
use crate::net::trust::{revoked_guest, TrustDisk, TrustedPeer};
use crate::order::{char_rank, Key};
use crate::store::{main_moved, moved_fault, CapsuleV, InboxEntry};
use crate::util::hex_text;

verus! {

/// What this process did to a peer is saved, as long as nobody has paired or removed it since; what
/// others did to a peer that this process does not know of is kept; and so is what they did later.
pub proof fn changes_are_saved(mine: TrustV, stored: TrustV, k: Seq<int>)
    ensures
        ({
            let after = merged(mine, stored);
            let (own, other) = (
                version_at(mine.peer_versions, k),
                version_at(stored.peer_versions, k),
            );
            &&& mine.peers.dom().contains(k) && own >= other ==> after.peers.dom().contains(k)
                && after.peers[k] == mine.peers[k]
            &&& own < other ==> after.peers.dom().contains(k) == stored.peers.dom().contains(k) && (
            stored.peers.dom().contains(k) ==> after.peers[k] == stored.peers[k])
            &&& !mine.peers.dom().contains(k) && !mine.peer_versions.dom().contains(k)
                ==> after.peers.dom().contains(k) == stored.peers.dom().contains(k) && (
            stored.peers.dom().contains(k) ==> after.peers[k] == stored.peers[k])
            &&& after.mesh_profile == mine.mesh_profile
            &&& after.local_role == mine.local_role
        }),
{
}

/// A ticket that somebody shows is pending unless somebody used it. A nonce that anybody took is
/// taken. A token stays bound to the guest that bound it first, as far as the file knows.
pub proof fn tickets_and_nonces_are_saved(mine: TrustV, stored: TrustV, k: Seq<int>)
    ensures
        ({
            let after = merged(mine, stored);
            let used = mine.used_tickets.dom().contains(k) || stored.used_tickets.dom().contains(k);
            &&& after.pending_tickets.dom().contains(k) <==> (mine.pending_tickets.dom().contains(k)
                || stored.pending_tickets.dom().contains(k)) && !used
            &&& after.used_tickets.dom().contains(k) <==> used
            &&& after.control_nonces.dom().contains(k) <==> mine.control_nonces.dom().contains(k)
                || stored.control_nonces.dom().contains(k)
            &&& stored.bound_tokens.dom().contains(k) ==> after.bound_tokens.dom().contains(k)
                && after.bound_tokens[k] == stored.bound_tokens[k]
            &&& mine.bound_tokens.dom().contains(k) && !stored.bound_tokens.dom().contains(k)
                ==> after.bound_tokens.dom().contains(k) && after.bound_tokens[k]
                == mine.bound_tokens[k]
            &&& after.revocations.dom().contains(k) <==> mine.revocations.dom().contains(k)
                || stored.revocations.dom().contains(k)
        }),
{
}

/// Nothing is dropped as long as it can still allow or deny something: revocations until they no
/// longer matter, and certificates until they run out. Nothing else is dropped at all.
pub proof fn what_matters_is_kept(d: TrustV, now: u64, k: Seq<int>)
    ensures
        ({
            let after = pruned(d, now);
            &&& after.revocations.dom().contains(k) <==> d.revocations.dom().contains(k) && (time_of(
                d.revocations[k].relevant_until@,
            ) matches Ok(end) && now <= end)
            &&& after.bind_certificates.dom().contains(k) <==> d.bind_certificates.dom().contains(k)
                && (time_of(d.bind_certificates[k].certificate.expires_at@) matches Ok(end) && now
                <= end)
            &&& after.peers == d.peers
            &&& after.revoked == d.revoked
            &&& after.used_tickets == d.used_tickets
        }),
{
}

/// Who pairs is known by what it said of itself: its keys, its name and its addresses.
pub proof fn paired_devices_are_known(
    p: TrustedPeer,
    q: PairRequest,
    o: TrustedPeer,
    ticket: PairTicket,
    accept: PairAccept,
)
    requires
        peer_of_request(p, q),
        peer_of_ticket(o, ticket, accept),
    ensures
        p.peer_id == q.peer_id && p.name == q.name && p.x25519_pk == q.x25519_pk && p.relay_key
            == q.relay_key && p.addresses@ == q.addresses@,
        p.role is Full && p.token_id is None && p.scopes is None && p.expires_at is None,
        o.peer_id == ticket.peer_id && o.name == accept.name && o.x25519_pk == ticket.x25519_pk
            && o.relay_key == ticket.relay_key && o.addresses@ == ticket.addresses@,
        o.role is Full && o.token_id is None && o.scopes is None && o.expires_at is None,
{
}

/// A guest is told of other devices what is known of them here.
pub proof fn introductions_are_true(p: TrustedPeer, m: EnrollMeshPeer)
    requires
        introduces(p, m),
    ensures
        m.peer_id == p.peer_id,
        m.name == p.name,
        m.role == p.role,
        m.x25519_pk == p.x25519_pk,
        m.token_id == p.token_id,
        m.expires_at == p.expires_at,
        m.scopes is Some <==> p.scopes is Some,
        m.scopes matches Some(s) ==> s.send == (p.scopes->0).send && s.receive == (
        p.scopes->0).receive && s.kinds@ == (p.scopes->0).kinds@ && s.capsules@ == (
        p.scopes->0).capsules@ && s.lease_acquire == (p.scopes->0).lease_acquire
            && s.lease_takeover == (p.scopes->0).lease_takeover,
{
}

/// A ticket is good in the form in which it was written, where the device that shows it signed it and
/// it ran out no more than a minute ago; in no other case.
pub proof fn tickets_are_checked(t: PairTicket, bytes: Seq<u8>, now: u64)
    ensures
        ticket_check(t, bytes, now) is Ok <==> {
            &&& crate::canonical::json_bytes(crate::net::auth::ticket_json(t)) == bytes
            &&& t.v == 1
            &&& t.record_type@ == "pair-ticket"@
            &&& signed_by(t.peer_id, "pair-ticket"@, ticket_payload(t), t.sig)
            &&& time_of(t.expires_at@) matches Ok(end) && now <= end + 60_000
        },
{
}

/// A token is read in the form in which it was written, where its issuer signed it, its wildcards
/// stand alone, it ran out no more than a minute ago, and it is for somebody or has to be bound by some
/// time. One for nobody has to be bound within a quarter of an hour, or within its life where that is
/// shorter.
pub proof fn tokens_are_read(t: EnrollmentToken, bytes: Seq<u8>, now: u64, ttl: u64)
    ensures
        token_check(t, bytes, now) is Ok <==> {
            &&& crate::canonical::json_bytes(crate::net::auth::token_json(t)) == bytes
            &&& t.v == 1
            &&& t.record_type@ == "enrollment"@
            &&& crate::net::auth::scopes_check(t.scopes) is Ok
            &&& signed_by(t.issuer, "enroll"@, token_payload(t), t.sig)
            &&& time_of(t.expires_at@) matches Ok(end) && now <= end + 60_000
            &&& t.audience is Some || t.bind_by is Some
        },
        bind_window(ttl) <= ttl,
        bind_window(ttl) <= 900_000,
        bind_window(ttl) == ttl || bind_window(ttl) == 900_000,
{
}

/// What an order needs, before its nonce is looked at: it is one, a text goes with an instruction and
/// with nothing else and has at most 8192 bytes, a full peer signed it, and it is at most five minutes
/// old and a minute ahead.
pub proof fn orders_are_checked(m: ControlMessage, signer: PeerId, d: TrustV, now: u64)
    requires
        control_fault(m, signer, d, now) is None,
    ensures
        m.message_type@ == "control"@,
        m.op is Instruct <==> m.text is Some,
        m.text matches Some(t) ==> vstd::utf8::encode_utf8(t@).len() <= 8192,
        m.nonce@.len() == 32,
        d.peers.dom().contains(signer.rank()),
        d.peers[signer.rank()].role is Full,
        signed_by(signer, "control"@, control_payload(m), m.sig),
        time_of(m.at@) matches Ok(at) && now - at <= 300_000 && at <= now + 60_000,
{
}

/// Deliveries go only over a session of trust, to a peer that is still trusted and was not revoked.
pub proof fn recipients_are_checked(d: TrustDisk, session: Seq<char>, recipient: PeerId, now: u64)
    ensures
        recipient_fault(d, session, recipient, now) is None <==> session == "trusted"@
            && d.peers@.dom().contains(recipient.rank()) && !revoked_guest(d, recipient, now),
{
}

/// The entry of an offer is found where there is one, and it is the first with that offer.
pub proof fn offers_find_their_entry(s: Seq<(String, OutboxEntry)>, offer_id: Seq<char>, i: int)
    requires
        0 <= i <= s.len(),
    ensures
        ({
            let at = offer_at(s, offer_id, i);
            &&& i <= at <= s.len()
            &&& at < s.len() ==> s[at].1.offer_id@ == offer_id
            &&& forall|j: int| i <= j < at ==> (#[trigger] s[j]).1.offer_id@ != offer_id
        }),
    decreases s.len() - i,
{
    if i < s.len() && s[i].1.offer_id@ != offer_id {
        offers_find_their_entry(s, offer_id, i + 1);
    }
}

/// A full device tells what was revoked to whoever reads it, newest first and at most 128 records; a
/// guest tells nothing. What a peer tells is taken in only where it is trusted here.
pub proof fn revocations_are_passed_on(d: TrustDisk, features: Seq<String>, now: u64, hello: Hello, remote: PeerId)
    ensures
        !(d.local_role is Full) ==> hello_revocations(d, features, now).len() == 0,
        (forall|i: int| 0 <= i < features.len() ==> (#[trigger] features[i])@ != "revocation"@)
            ==> hello_revocations(d, features, now).len() == 0,
        hello_revocations(d, features, now).len() <= 128,
        ({
            let all = crate::net::revoke::newest_first(d.revocations.entries@, now);
            d.local_role is Full && (exists|i: int|
                0 <= i < features.len() && (#[trigger] features[i])@ == "revocation"@) && all.len()
                <= 128 ==> hello_revocations(d, features, now) == all
        }),
        !d.peers@.dom().contains(remote.rank()) ==> hello_heard(d, hello, remote, now) == d@,
        revoked_guest(d, remote, now) ==> hello_heard(d, hello, remote, now) == d@,
{
}

/// Which message is which.
pub proof fn messages_go_by_their_names()
    ensures
        frame_of("ping"@) is Ping,
        frame_of("offer"@) is Offer,
        frame_of("plan"@) is Plan,
        frame_of("ack"@) is Ack,
        frame_of("control"@) is Control,
        frame_of("pair-request"@) is PairRequest,
        frame_of("pair-confirm"@) is PairConfirm,
        frame_of("enroll-bind"@) is EnrollBind,
{
    reveal_strlit("ping");
    reveal_strlit("offer");
    reveal_strlit("plan");
    reveal_strlit("ack");
    reveal_strlit("control");
    reveal_strlit("pair-request");
    reveal_strlit("pair-confirm");
    reveal_strlit("enroll-bind");
    assert("ping"@.len() == 4 && "offer"@.len() == 5 && "plan"@.len() == 4 && "ack"@.len() == 3
        && "control"@.len() == 7 && "pair-request"@.len() == 12 && "pair-confirm"@.len() == 12
        && "enroll-bind"@.len() == 11);
    assert("ping"@[1] != "plan"@[1]);
    assert("pair-request"@[5] != "pair-confirm"@[5]);
}

/// A reason loses nothing but what cannot be printed, and what goes beyond 256 characters.
pub proof fn reasons_are_kept(s: Seq<char>)
    ensures
        (forall|i: int| 0 <= i < s.len() ==> !is_control(#[trigger] s[i])) ==> printable(s) == s,
        s.len() <= 256 ==> bounded(s) == s,
        s.len() > 256 ==> bounded(s) == s.take(256),
        forall|c: char| #[trigger] printable(s).contains(c) <==> s.contains(c) && !is_control(c),
    decreases s.len(),
{
    if s.len() > 0 {
        let front = s.drop_last();
        reasons_are_kept(front);
        let (before, all) = (printable(front), printable(s));
        if forall|i: int| 0 <= i < s.len() ==> !is_control(#[trigger] s[i]) {
            assert forall|i: int| 0 <= i < front.len() implies !is_control(#[trigger] front[i]) by {
                assert(front[i] == s[i]);
            }
            assert(!is_control(s[s.len() - 1]));
            assert(front.push(s.last()) =~= s);
        }
        assert forall|c: char| #[trigger] all.contains(c) <==> s.contains(c) && !is_control(c) by {
            if all.contains(c) {
                let k = choose|k: int| 0 <= k < all.len() && all[k] == c;
                if k < before.len() {
                    assert(before[k] == c);
                    assert(before.contains(c));
                    let i = choose|i: int| 0 <= i < front.len() && front[i] == c;
                    assert(s[i] == c);
                } else {
                    assert(s[s.len() - 1] == c);
                }
            }
            if s.contains(c) && !is_control(c) {
                let i = choose|i: int| 0 <= i < s.len() && s[i] == c;
                if i < front.len() {
                    assert(front[i] == c);
                    assert(before.contains(c));
                    let k = choose|k: int| 0 <= k < before.len() && before[k] == c;
                    assert(all[k] == c);
                } else {
                    assert(all[before.len() as int] == c);
                }
            }
        }
    } else {
        assert(printable(s).len() == 0);
    }
}

/// A snapshot of a capsule that is not known needs its beginning and its first lease, which are in
/// order and of that capsule. One of no capsule needs room in the inbox, which has ten thousand
/// places.
pub proof fn capsules_need_a_beginning(
    s: Map<Seq<int>, CapsuleV>,
    inbox_len: nat,
    raw: RawManifest,
    offer: Offer,
)
    requires
        admission_fault(s, inbox_len, raw, offer) is None,
    ensures
        raw.manifest.scope is Partial ==> inbox_len < 10_000,
        raw.manifest.scope is Full && !s.dom().contains((raw.manifest.capsule_id->0).rank()) ==> {
            &&& offer.genesis matches Some(g) && g.capsule_id == raw.manifest.capsule_id->0
                && crate::capsule::genesis_check(g) is Ok
            &&& offer.genesis_grant matches Some(l) && crate::history::lease_verdict(
                offer.genesis->0,
                Seq::empty(),
                None,
                l,
            ) is Wins
        },
{
}

/// A snapshot that is committed to its capsule is there, and no other capsule changes; one of no
/// capsule changes none.
pub proof fn commits_are_kept(s: Map<Seq<int>, CapsuleV>, raw: RawManifest, at: String)
    requires
        raw.manifest.capsule_id is Some ==> s.dom().contains((raw.manifest.capsule_id->0).rank()),
    ensures
        ({
            let after = committed(s, raw, at);
            let c = (raw.manifest.capsule_id->0).rank();
            &&& raw.manifest.scope is Partial ==> after == s
            &&& raw.manifest.scope is Full ==> {
                &&& after[c].snapshots.dom().contains(raw.id.rank())
                &&& after[c].snapshots[raw.id.rank()].raw == raw
                &&& after[c].snapshots[raw.id.rank()].received_at == at
                &&& after[c].leases == s[c].leases && after[c].labels == s[c].labels
                &&& forall|k: Seq<int>| #[trigger]
                    s[c].snapshots.dom().contains(k) ==> after[c].snapshots.dom().contains(k)
                &&& forall|k: Seq<int>| #[trigger]
                    s.dom().contains(k) && k != c ==> after.dom().contains(k) && after[k] == s[k]
            }
        }),
{
}

/// An item of the inbox is the snapshot that came, under its id, from whom and when it came, unread.
pub proof fn items_say_where_they_came_from(e: InboxEntry, raw: RawManifest, from: PeerId, at: String)
    requires
        is_item(e, raw, from, at),
    ensures
        e.snapshot_id == raw.id,
        e.manifest == raw.bytes,
        e.from@ == hex_text(from.0@),
        e.received_at == at,
        !e.read,
        shelf_text(false, true) == "inbox"@ && shelf_text(false, false) == "inbox"@,
        shelf_text(true, true) == "capsule-head"@,
        shelf_text(true, false) == "capsule-fork"@,
{
}

/// A statement that waited is tried in its turn: it is followed where nothing is in its way, and
/// waits on where something is. Those before it are not touched by it.
pub proof fn waiting_statements_are_tried(s: Map<Seq<int>, CapsuleV>, ops: Seq<LabelOp>, op: LabelOp)
    ensures
        retried(s, Seq::empty()) == (s, Seq::<LabelOp>::empty()),
        ({
            let (t, left) = retried(s, ops);
            let (u, still) = retried(s, ops.push(op));
            let k = op.capsule_id.rank();
            let free = t.dom().contains(k) && moved_fault(t[k], op) is None;
            &&& free ==> still == left && u == t.insert(k, main_moved(t[k], op))
            &&& !free ==> still == left.push(op) && u == t
        }),
{
    assert(ops.push(op).drop_last() =~= ops);
}

/// What is signed when two devices connect covers both of their numbers and the address: a proof of
/// one connection is none of another.
pub proof fn proofs_are_of_one_connection(
    a: Seq<u8>,
    b: Seq<u8>,
    x: Seq<char>,
    c: Seq<u8>,
    d: Seq<u8>,
    y: Seq<char>,
)
    requires
        a.len() == 32,
        b.len() == 32,
        c.len() == 32,
        d.len() == 32,
        proof_bytes(a, b, x) == proof_bytes(c, d, y),
    ensures
        a == c,
        b == d,
        x == y,
{
    let (s, t) = (proof_bytes(a, b, x), proof_bytes(c, d, y));
    assert(a =~= s.take(32));
    assert(c =~= t.take(32));
    assert(b =~= s.subrange(32, 64));
    assert(d =~= t.subrange(32, 64));
    assert(vstd::utf8::encode_utf8(x) =~= s.skip(64));
    assert(vstd::utf8::encode_utf8(y) =~= t.skip(64));
    vstd::utf8::encode_utf8_decode_utf8(x);
    vstd::utf8::encode_utf8_decode_utf8(y);
}

/// A device is trusted on the answer to its ticket exactly where the answer comes from it, is to what
/// was asked, and the ticket was not called back.
pub proof fn answers_are_from_the_ticket(
    d: TrustV,
    ticket: PairTicket,
    accept: PairAccept,
    nonce: Seq<char>,
)
    ensures
        join_fault(d, ticket, accept, nonce) is None <==> accept.peer_id == ticket.peer_id
            && accept.nonce@ == nonce && !d.cancelled_pairs.dom().contains(
            char_rank(ticket.ticket_id@),
        ),
{
}

/// What a build can do, by name.
pub proof fn features_go_by_their_names()
    ensures
        our_features().contains("resume"@),
        our_features().contains("control"@),
        our_features().contains("revocation"@),
        our_features().contains("skip-native"@),
        our_features().contains("bind-cert"@),
        our_features().contains("control-result"@),
        our_features().len() == 6,
{
    let f = our_features();
    assert(f.contains(f[0]) && f.contains(f[1]) && f.contains(f[2]) && f.contains(f[3])
        && f.contains(f[4]) && f.contains(f[5]));
}

/// A new entry waits in the outbox for its first attempt, which is due at once.
pub proof fn new_entries_wait(
    e: OutboxEntry,
    id: Seq<char>,
    offer_id: Seq<char>,
    peer_id: PeerId,
    snapshot_id: crate::cas::Hash,
    manifest_raw: Seq<u8>,
    now: u64,
)
    requires
        queued(e, id, offer_id, peer_id, snapshot_id, manifest_raw, now),
    ensures
        e.state is Queued,
        e.attempts == 0,
        e.peer_id == peer_id,
        e.snapshot_id == snapshot_id,
        e.manifest_raw@ == manifest_raw,
        e.last_error is None && e.ack_sig is None,
        shows_time(now as int, e.next_attempt_at@),
{
}

/// A step changes the state of its entry alone, and keeps what is to be sent, to whom, and how often it
/// was tried. A step that is refused changes nothing.
pub proof fn steps_keep_the_entry(
    before: Outbox,
    after: Outbox,
    id: Seq<char>,
    state: OutboxState,
    now: u64,
    r: Result<(), Error>,
)
    requires
        before.wf(),
        after.wf(),
        stepped(before, after, id, state, now, r),
    ensures
        r is Err ==> after.entries@ == before.entries@,
        r is Ok ==> {
            &&& before.has(id) && after.has(id)
            &&& after.at(id).state == state
            &&& after.at(id).peer_id == before.at(id).peer_id
            &&& after.at(id).snapshot_id == before.at(id).snapshot_id
            &&& after.at(id).offer_id == before.at(id).offer_id
            &&& after.at(id).attempts == before.at(id).attempts
            &&& after.at(id).next_attempt_at == before.at(id).next_attempt_at
            &&& after.at(id).ack_sig == before.at(id).ack_sig
            &&& forall|k: Seq<int>| #[trigger]
                before.entries@.dom().contains(k) && k != char_rank(id)
                    ==> after.entries@.dom().contains(k) && after.entries@[k] == before.entries@[k]
        },
        before.has(id) && (before.at(id).state is Acked || before.at(id).state is Failed) ==> r is Err,
{
}

/// A receipt changes nothing where nothing was sent under its offer; and an entry that it does settle
/// is settled with its signature.
pub proof fn receipts_settle_their_offer(
    before: Outbox,
    after: Outbox,
    ack: Ack,
    me: PeerId,
    now: u64,
    r: Result<(), Error>,
)
    requires
        before.wf(),
        after.wf(),
        receipt_taken(before, after, ack, me, now, r),
    ensures
        (forall|i: int|
            0 <= i < before.entries.entries@.len() ==> (
            #[trigger] before.entries.entries@[i]).1.offer_id@ != ack.offer_id@) ==> r is Ok && after
            == before,
        r is Err ==> after.entries@ == before.entries@,
        forall|k: Seq<int>| #[trigger]
            before.entries@.dom().contains(k) ==> after.entries@.dom().contains(k) && (
            after.entries@[k] != before.entries@[k] ==> after.entries@[k].state is Acked
                && after.entries@[k].ack_sig == Some(ack.sig)),
{
    offers_find_their_entry(before.entries.entries@, ack.offer_id@, 0);
}

} // verus!
