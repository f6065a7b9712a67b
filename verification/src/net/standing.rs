//! What a peer's standing lets it do, and for how long: sessions, tokens, revocations and queues.
use vstd::prelude::*;

use crate::bytes::be_bytes;
use crate::crypto::sha256_of;
use crate::identity::{signed_by, x25519_public_of, PeerId};
use crate::net::ack::{ack_check, Ack};
use crate::net::auth::{token_verify, EnrollmentToken, MeshProfile, PairRequest};
use crate::net::bind::{bind_payload, revocation_payload, BindCertificate, EnrollBind, Revocation};
use crate::net::clock::time_of;
use crate::net::enroll::{
    bind_fault, certificate_installed, certificate_of_bind, guest_bound, guest_of_bind,
    guest_of_certificate, install_fault, pair_fault, taken_back,
};
use crate::net::error::Error;
use crate::net::hello::{hello_fault, Hello};
use crate::net::outbox::{ack_taken, given_up, legal_step, Outbox, OutboxState};
use crate::net::pairing::TrustV;
use crate::net::relay::{day_of, envelope_fault, envelope_head, envelope_key, hmac_of, tag_of};
use crate::net::revoke::{newest_first, place_in, revocation_received, revoked_when, takes_effect};
use crate::net::session::{session_fault, told};
use crate::net::transport::DialHint;
use crate::net::trust::{
    revoked_guest, StoredBindCertificate, StoredRevocation, TrustDisk, TrustedPeer,
};
use crate::order::{char_rank, Key};
use vstd::utf8::encode_utf8;

verus! {

/// What keeps the session of a guest going: it is trusted under a token that was not taken back and
/// has not run out, and its session is no older than a day. A full peer needs only to be trusted, and
/// whoever was trusted when the session began loses it when that ends.
pub proof fn sessions_last_as_long_as_trust(
    d: TrustDisk,
    peer: PeerId,
    trusted: bool,
    started: u64,
    now: u64,
)
    ensures
        ({
            let known = d.peers@.dom().contains(peer.rank());
            let p = d.peers@[peer.rank()];
            session_fault(d, peer, trusted, started, now) is None <==> {
                &&& !revoked_guest(d, peer, now)
                &&& trusted ==> known
                &&& known && p.role is Guest ==> {
                    &&& p.token_id matches Some(t) && !d.revoked@.dom().contains(char_rank(t@))
                    &&& p.expires_at matches Some(x) && time_of(x@) matches Ok(end) && now <= end
                    &&& now - started <= 86_400_000
                }
            }
        }),
{
}

/// A guest is taken for revoked where its token was taken back, or where a record that still matters
/// says so of it and of its token.
pub proof fn revoked_guests_are_known(d: TrustDisk, peer: PeerId, now: u64)
    requires
        d.peers@.dom().contains(peer.rank()),
        d.peers@[peer.rank()].role is Guest,
        d.peers@[peer.rank()].token_id is Some,
    ensures
        ({
            let token = d.peers@[peer.rank()].token_id->0@;
            revoked_guest(d, peer, now) <==> d.revoked@.dom().contains(char_rank(token)) || exists|
                k: Seq<int>,
            |
                {
                    &&& #[trigger] d.revocations@.dom().contains(k)
                    &&& d.revocations@[k].record.guest_peer_id == peer
                    &&& d.revocations@[k].record.token_id@ == token
                    &&& time_of(d.revocations@[k].relevant_until@) matches Ok(until) && now <= until
                }
        }),
{
    let token = d.peers@[peer.rank()].token_id->0@;
    assert forall|k: Seq<int>| #[trigger]
        d.revocations@.dom().contains(k) implies crate::net::trust::revokes(
        d.revocations@[k],
        peer,
        Some(token),
        now,
    ) == (d.revocations@[k].record.guest_peer_id == peer && d.revocations@[k].record.token_id@
        == token && (time_of(d.revocations@[k].relevant_until@) matches Ok(until) && now
        <= until)) by {}
}

/// A greeting is taken from the peer that the connection proves, of this version, with the features
/// that both must have, and with at most 128 revocations.
pub proof fn greetings_are_checked(hello: Hello, authenticated: PeerId)
    ensures
        hello_fault(hello, authenticated) is None <==> {
            &&& hello.peer_id == authenticated
            &&& hello.wire == 1
            &&& hello.spec@ == "0.1"@
            &&& exists|i: int|
                0 <= i < hello.features@.len() && (#[trigger] hello.features@[i])@ == "resume"@
            &&& exists|i: int|
                0 <= i < hello.features@.len() && (#[trigger] hello.features@[i])@ == "control"@
            &&& hello.revocations@.len() <= 128
        },
{
}

/// A bound guest is told about all full devices, and in a fleet about everybody.
pub proof fn mesh_is_introduced(s: Seq<(PeerId, TrustedPeer)>, profile: MeshProfile)
    ensures
        forall|p: TrustedPeer| #[trigger]
            told(s, profile).contains(p) <==> (p.role is Full || profile is Fleet) && exists|i: int|
                0 <= i < s.len() && (#[trigger] s[i]).1 == p,
    decreases s.len(),
{
    let all = told(s, profile);
    if s.len() > 0 {
        let front = s.drop_last();
        mesh_is_introduced(front, profile);
        let before = told(front, profile);
        assert(s[s.len() - 1] == s.last());
        assert forall|p: TrustedPeer| #[trigger] all.contains(p) <==> (p.role is Full
            || profile is Fleet) && exists|i: int| 0 <= i < s.len() && (#[trigger] s[i]).1 == p by {
            if all.contains(p) {
                let k = choose|k: int| 0 <= k < all.len() && all[k] == p;
                if k < before.len() {
                    assert(before[k] == p);
                    assert(before.contains(p));
                    let i = choose|i: int| 0 <= i < front.len() && (#[trigger] front[i]).1 == p;
                    assert(s[i] == front[i]);
                }
            }
            if (p.role is Full || profile is Fleet) && exists|i: int|
                0 <= i < s.len() && (#[trigger] s[i]).1 == p {
                let i = choose|i: int| 0 <= i < s.len() && (#[trigger] s[i]).1 == p;
                if i < front.len() {
                    assert(front[i] == s[i]);
                    assert(before.contains(p));
                    let k = choose|k: int| 0 <= k < before.len() && before[k] == p;
                    assert(all[k] == p);
                } else {
                    assert(all[before.len() as int] == p);
                }
            }
        }
    } else {
        assert(all.len() == 0);
    }
}

/// A token is good where its issuer signed it, its wildcards stand alone, and it ran out no more than
/// a minute ago. One without a guest has to be bound within a quarter of an hour of its making.
pub proof fn tokens_are_checked(t: EnrollmentToken, now: u64)
    ensures
        token_verify(t, now) is Ok ==> {
            &&& signed_by(t.issuer, "enroll"@, crate::net::auth::token_payload(t), t.sig)
            &&& crate::net::auth::scopes_check(t.scopes) is Ok
            &&& time_of(t.expires_at@) matches Ok(end) && now <= end + 60_000
            &&& t.audience is None ==> (t.bind_by matches Some(by) && time_of(by@) matches Ok(limit)
                && time_of(t.issued_at@) matches Ok(issued) && limit <= issued + 900_000)
        },
        token_verify(t, now) is Ok <== {
            &&& signed_by(t.issuer, "enroll"@, crate::net::auth::token_payload(t), t.sig)
            &&& crate::net::auth::scopes_check(t.scopes) is Ok
            &&& time_of(t.issued_at@) is Ok
            &&& time_of(t.expires_at@) matches Ok(end) && now <= end + 60_000
            &&& t.audience is Some
        },
{
}

/// What binding a guest needs: it comes over its own connection with its own signature, under a token
/// of this device that is good and was not taken back. The token is for this guest, or is for nobody,
/// is bound in time, and was not bound by another.
pub proof fn binding_needs_a_token(
    d: TrustV,
    bind: EnrollBind,
    authenticated: PeerId,
    now: u64,
    me: Seq<u8>,
)
    requires
        bind_fault(d, bind, authenticated, now, me) is None,
    ensures
        authenticated == bind.guest_peer_id,
        bind.token.issuer.0@ == me,
        token_verify(bind.token, now) is Ok,
        signed_by(
            bind.guest_peer_id,
            "enroll-bind"@,
            bind_payload(bind.token.token_id@, bind.guest_peer_id.0@),
            bind.sig,
        ),
        !d.revoked.dom().contains(char_rank(bind.token.token_id@)),
        !taken_back(d.revocations, bind.token.issuer, bind.token.token_id@, bind.guest_peer_id),
        bind.token.audience matches Some(a) ==> a == bind.guest_peer_id,
        bind.token.audience is None ==> {
            &&& bind.token.bind_by matches Some(by) && time_of(by@) matches Ok(limit) && now <= limit
            &&& d.bound_tokens.dom().contains(char_rank(bind.token.token_id@))
                ==> d.bound_tokens[char_rank(bind.token.token_id@)] == bind.guest_peer_id
        },
{
}

/// A bound guest gets what its token gives and no more: it is a guest, under the token and until it
/// runs out, with its scopes. Its certificate says the same. No other peer changes.
pub proof fn guests_get_what_their_token_gives(
    d: TrustV,
    bind: EnrollBind,
    p: TrustedPeer,
    s: StoredBindCertificate,
    now: u64,
)
    requires
        guest_of_bind(p, bind),
        certificate_of_bind(s.certificate, bind, now),
    ensures
        ({
            let after = guest_bound(d, bind, p, s);
            let x = after.peers[bind.guest_peer_id.rank()];
            let c = after.bind_certificates[bind.guest_peer_id.rank()].certificate;
            &&& after.peers.dom() == d.peers.dom().insert(bind.guest_peer_id.rank())
            &&& x.role is Guest
            &&& x.peer_id == bind.guest_peer_id
            &&& x.token_id == Some(bind.token.token_id)
            &&& x.expires_at == Some(bind.token.expires_at)
            &&& x.x25519_pk == bind.x25519_pk
            &&& x.scopes matches Some(y) && y.send == bind.token.scopes.send && y.receive
                == bind.token.scopes.receive && y.lease_acquire == bind.token.scopes.lease_acquire
                && y.lease_takeover == bind.token.scopes.lease_takeover && y.kinds@
                == bind.token.scopes.kinds@ && y.capsules@ == bind.token.scopes.capsules@
            &&& c.token_id == bind.token.token_id
            &&& c.guest_peer_id == bind.guest_peer_id
            &&& c.expires_at == bind.token.expires_at
            &&& c.scopes.send == bind.token.scopes.send && c.scopes.receive
                == bind.token.scopes.receive && c.scopes.lease_acquire
                == bind.token.scopes.lease_acquire && c.scopes.lease_takeover
                == bind.token.scopes.lease_takeover && c.scopes.kinds@ == bind.token.scopes.kinds@
                && c.scopes.capsules@ == bind.token.scopes.capsules@
            &&& forall|k: Seq<int>| #[trigger]
                d.peers.dom().contains(k) && k != bind.guest_peer_id.rank() ==> after.peers[k]
                    == d.peers[k]
            &&& after.revoked == d.revoked
        }),
{
    assert(guest_bound(d, bind, p, s).peers.dom() =~= d.peers.dom().insert(
        bind.guest_peer_id.rank(),
    ));
}

/// What installing a certificate needs: a full peer signed it, it has not run out and lasts no longer
/// than thirty days, its token was not taken back, and its guest is no full peer already. The guest
/// gets what the certificate says.
pub proof fn certificates_are_checked(
    d: TrustV,
    issuer: PeerId,
    c: BindCertificate,
    now: u64,
    p: TrustedPeer,
)
    requires
        install_fault(d, issuer, c, now) is None,
        guest_of_certificate(p, c),
    ensures
        c.record_type@ == "bind-cert"@,
        d.peers.dom().contains(issuer.rank()),
        d.peers[issuer.rank()].role is Full,
        signed_by(issuer, "bind-cert"@, crate::net::bind::certificate_payload(c), c.sig),
        time_of(c.expires_at@) matches Ok(end) && now <= end && (time_of(c.bound_at@) matches Ok(
            start,
        ) && end - start <= 2_592_000_000),
        !d.revoked.dom().contains(char_rank(c.token_id@)),
        !taken_back(d.revocations, issuer, c.token_id@, c.guest_peer_id),
        d.peers.dom().contains(c.guest_peer_id.rank()) ==> d.peers[c.guest_peer_id.rank()].role
            is Guest,
        ({
            let x = certificate_installed(d, issuer, c, p).peers[c.guest_peer_id.rank()];
            &&& x.role is Guest
            &&& x.token_id == Some(c.token_id)
            &&& x.expires_at == Some(c.expires_at)
            &&& x.x25519_pk == c.x25519_pk
            &&& x.scopes matches Some(y) && y.send == c.scopes.send && y.receive
                == c.scopes.receive && y.lease_acquire == c.scopes.lease_acquire && y.lease_takeover
                == c.scopes.lease_takeover && y.kinds@ == c.scopes.kinds@ && y.capsules@
                == c.scopes.capsules@
        }),
{
}

/// A token is taken back by a record of its issuer about this guest and this token.
pub proof fn tokens_are_taken_back_by_their_issuer(
    revocations: Map<Seq<int>, StoredRevocation>,
    issuer: PeerId,
    token: Seq<char>,
    guest: PeerId,
)
    ensures
        taken_back(revocations, issuer, token, guest) <==> exists|k: Seq<int>|
            {
                &&& #[trigger] revocations.dom().contains(k)
                &&& revocations[k].record.issuer == issuer
                &&& revocations[k].record.token_id@ == token
                &&& revocations[k].record.guest_peer_id == guest
            },
{
}

/// A request to pair is let through to the user only from the device that it names, with its
/// signature, for a ticket that this device shows, that was not used, and that ran out no more than a
/// minute ago.
pub proof fn pairing_needs_a_ticket(
    d: TrustV,
    q: PairRequest,
    hints: Seq<DialHint>,
    authenticated: PeerId,
    now: u64,
)
    requires
        pair_fault(d, q, hints, authenticated, now) is None,
    ensures
        authenticated == q.peer_id,
        crate::net::auth::request_check(q) is Ok,
        d.pending_tickets.dom().contains(char_rank(q.ticket_id@)),
        !d.used_tickets.dom().contains(char_rank(q.ticket_id@)),
        time_of(d.pending_tickets[char_rank(q.ticket_id@)].expires_at@) matches Ok(end) && now <= end
            + 60_000,
{
}

/// A revocation that others tell of takes effect only where a full peer here made and signed it, not
/// more than a minute ahead of the clock, and where it is about a guest that this peer certified or
/// whose token it took back before.
pub proof fn revocations_are_checked(d: TrustV, x: Revocation, now: u64)
    requires
        takes_effect(d, x, now),
    ensures
        d.peers.dom().contains(x.issuer.rank()),
        d.peers[x.issuer.rank()].role is Full,
        signed_by(x.issuer, "revoke"@, revocation_payload(x), x.sig),
        time_of(x.revoked_at@) matches Ok(at) && at <= now + 60_000,
        ({
            let g = x.guest_peer_id.rank();
            let k = char_rank(crate::net::revoke::revocation_name(x.issuer, x.token_id@));
            ||| d.bind_certificates.dom().contains(g) && d.bind_certificates[g].issuer == x.issuer
                && d.bind_certificates[g].certificate.token_id@ == x.token_id@
            ||| d.revocations.dom().contains(k) && d.revocations[k].record.issuer == x.issuer
                && d.revocations[k].record.guest_peer_id == x.guest_peer_id
        }),
{
    reveal(takes_effect);
}

/// A revocation that does not take effect changes nothing; one that does leaves every peer but its
/// guest.
pub proof fn revocations_hit_their_guest(d: TrustV, x: Revocation, now: u64)
    ensures
        !takes_effect(d, x, now) ==> revocation_received(d, x, now) == d,
        forall|k: Seq<int>| #[trigger]
            d.peers.dom().contains(k) && k != x.guest_peer_id.rank() ==> revocation_received(
                d,
                x,
                now,
            ).peers.dom().contains(k) && revocation_received(d, x, now).peers[k] == d.peers[k],
        takes_effect(d, x, now) && d.peers.dom().contains(x.guest_peer_id.rank())
            && d.peers[x.guest_peer_id.rank()].token_id is Some && (
        d.peers[x.guest_peer_id.rank()].token_id->0)@ == x.token_id@ ==> !revocation_received(
            d,
            x,
            now,
        ).peers.dom().contains(x.guest_peer_id.rank()),
{
    reveal(revocation_received);
}

proof fn placed_members(s: Seq<Revocation>, x: Revocation)
    ensures
        forall|y: Revocation| #[trigger] place_in(s, x).contains(y) <==> s.contains(y) || y == x,
    decreases s.len(),
{
    let t = place_in(s, x);
    if s.len() == 0 || revoked_when(s.last()) >= revoked_when(x) {
        assert forall|y: Revocation| #[trigger] t.contains(y) <==> s.contains(y) || y == x by {
            if t.contains(y) {
                let k = choose|k: int| 0 <= k < t.len() && t[k] == y;
                if k < s.len() {
                    assert(s[k] == y);
                }
            }
            if s.contains(y) {
                let k = choose|k: int| 0 <= k < s.len() && s[k] == y;
                assert(t[k] == y);
            }
            assert(t[s.len() as int] == x);
        }
    } else {
        let front = s.drop_last();
        placed_members(front, x);
        let p = place_in(front, x);
        assert forall|y: Revocation| #[trigger] t.contains(y) <==> s.contains(y) || y == x by {
            if t.contains(y) {
                let k = choose|k: int| 0 <= k < t.len() && t[k] == y;
                if k < p.len() {
                    assert(p[k] == y);
                    assert(p.contains(y));
                    if front.contains(y) {
                        let i = choose|i: int| 0 <= i < front.len() && front[i] == y;
                        assert(s[i] == y);
                    }
                } else {
                    assert(s[s.len() - 1] == y);
                }
            }
            if s.contains(y) || y == x {
                if y == x || front.contains(y) {
                    assert(p.contains(y));
                    let k = choose|k: int| 0 <= k < p.len() && p[k] == y;
                    assert(t[k] == y);
                } else {
                    let i = choose|i: int| 0 <= i < s.len() && s[i] == y;
                    if i < front.len() {
                        assert(front[i] == y);
                    }
                    assert(t[p.len() as int] == s.last());
                }
            }
        }
    }
}

/// Others are told of exactly the revocations that still matter.
pub proof fn relevant_revocations_are_told(s: Seq<(String, StoredRevocation)>, now: u64)
    ensures
        forall|x: Revocation| #[trigger]
            newest_first(s, now).contains(x) <==> exists|i: int|
                0 <= i < s.len() && (#[trigger] s[i]).1.record == x && (time_of(
                    s[i].1.relevant_until@,
                ) matches Ok(until) && now <= until),
    decreases s.len(),
{
    let all = newest_first(s, now);
    if s.len() > 0 {
        let front = s.drop_last();
        relevant_revocations_are_told(front, now);
        let before = newest_first(front, now);
        placed_members(before, s.last().1.record);
        assert(s[s.len() - 1] == s.last());
        assert forall|x: Revocation| #[trigger] all.contains(x) <==> exists|i: int|
            0 <= i < s.len() && (#[trigger] s[i]).1.record == x && (time_of(
                s[i].1.relevant_until@,
            ) matches Ok(until) && now <= until) by {
            if all.contains(x) && before.contains(x) {
                let i = choose|i: int|
                    0 <= i < front.len() && (#[trigger] front[i]).1.record == x && (time_of(
                        front[i].1.relevant_until@,
                    ) matches Ok(until) && now <= until);
                assert(s[i] == front[i]);
            }
            if exists|i: int|
                0 <= i < s.len() && (#[trigger] s[i]).1.record == x && (time_of(
                    s[i].1.relevant_until@,
                ) matches Ok(until) && now <= until) {
                let i = choose|i: int|
                    0 <= i < s.len() && (#[trigger] s[i]).1.record == x && (time_of(
                        s[i].1.relevant_until@,
                    ) matches Ok(until) && now <= until);
                if i < front.len() {
                    assert(front[i] == s[i]);
                    assert(before.contains(x));
                }
            }
        }
    } else {
        assert(all.len() == 0);
    }
}

/// Which step of a delivery may follow which. It goes from the queue by a health check to an offer, a
/// transfer and the wait for a receipt; from each of these but the queue it may fall back into the
/// queue, and from each later one to a health check. Nothing leads to or from an end by a step.
pub proof fn deliveries_go_step_by_step(from: OutboxState, to: OutboxState)
    ensures
        legal_step(from, to) <==> {
            ||| from is Queued && to is Healthcheck
            ||| from is Healthcheck && (to is Offered || to is Queued)
            ||| from is Offered && (to is Transferring || to is Queued || to is Healthcheck)
            ||| from is Transferring && (to is AwaitingAck || to is Queued || to is Healthcheck)
            ||| from is AwaitingAck && (to is Queued || to is Healthcheck)
        },
{
}

/// What is still in the queue after a week is given up, and nothing else is. Whatever is not given up
/// stays as it was, and nothing is lost.
pub proof fn a_week_is_the_limit(before: Outbox, after: Outbox, now: u64, k: Seq<int>)
    requires
        given_up(before, after, now),
        before.entries@.dom().contains(k),
    ensures
        after.entries@.dom().contains(k),
        ({
            let (x, y) = (before.entries@[k], after.entries@[k]);
            let old_enough = match time_of(x.created_at@) {
                Ok(t) => now - t > 604_800_000,
                Err(_) => true,
            };
            &&& x.state is Queued && old_enough ==> y.state is Expired && y.id == x.id
                && y.offer_id == x.offer_id && y.manifest_raw == x.manifest_raw
            &&& !(x.state is Queued && old_enough) ==> y == x
        }),
{
}

/// A receipt settles an entry exactly where it is for the offer and the snapshot that the entry waits
/// with, and the recipient of the entry signed it for this device. It changes no other entry.
pub proof fn receipts_settle_their_entry(
    before: Outbox,
    after: Outbox,
    id: Seq<char>,
    ack: Ack,
    me: PeerId,
    now: u64,
    r: Result<bool, Error>,
)
    requires
        ack_taken(before, after, id, ack, me, now, r),
    ensures
        ({
            let x = before.at(id);
            &&& r == Ok::<bool, Error>(true) <==> {
                &&& before.has(id)
                &&& x.state is AwaitingAck || x.state is Healthcheck
                &&& x.offer_id@ == ack.offer_id@
                &&& x.snapshot_id == ack.snapshot_id
                &&& ack_check(ack, me, x.peer_id) is Ok
            }
            &&& r == Ok::<bool, Error>(true) ==> after.at(id).state is Acked && after.at(id).ack_sig
                == Some(ack.sig)
            &&& r != Ok::<bool, Error>(true) ==> after.entries@ == before.entries@
            &&& forall|k: Seq<int>| #[trigger]
                before.entries@.dom().contains(k) && k != char_rank(id)
                    ==> after.entries@.dom().contains(k) && after.entries@[k] == before.entries@[k]
        }),
{
}

/// Days are as long as days are: a day later is the next day, and within a day there is no other
/// than the day before or after. So whoever looks for three days finds what was left by a clock that
/// is off by less than one.
pub proof fn days_are_found(now: u64, then: u64)
    requires
        now < 0x7000_0000_0000_0000,
        then < 0x7000_0000_0000_0000,
    ensures
        day_of((now + 86_400_000) as u64) == day_of(now) + 1,
        now - 86_400_000 <= then <= now + 86_400_000 ==> day_of(now) - 1 <= day_of(then) <= day_of(
            now,
        ) + 1,
        now < 86_400_000 ==> day_of(now) == 0,
{
}

/// How what is left with a relay is marked and sealed. The tag of a day is made of the key under which
/// a device is found and the day; the key of an envelope of what both ends share and of the keys of
/// both; and an envelope begins with its mark and those keys.
pub proof fn relay_words_are_shared(key: Seq<u8>, day: int, shared: Seq<u8>, from: Seq<u8>, to: Seq<u8>)
    ensures
        day >= 0 ==> tag_of(key, day) == hmac_of(
            key,
            encode_utf8("abra-relay-tag-v1"@) + seq![0u8] + be_bytes(day as nat, 8),
        ),
        envelope_key(shared, from, to) == sha256_of(
            encode_utf8("abra-relay-seal-v1"@) + seq![0u8] + shared + from + to,
        ),
        envelope_head(from, to) == encode_utf8("ABRAREL1"@) + from + to,
{
}

/// An envelope is opened only by the device that it is for.
pub proof fn envelopes_are_for_one(secret: Seq<u8>, envelope: Seq<u8>)
    ensures
        envelope_fault(secret, envelope) is None <==> {
            &&& envelope.len() >= 100
            &&& envelope.take(8) == encode_utf8("ABRAREL1"@)
            &&& envelope.subrange(40, 72) == x25519_public_of(secret)
        },
{
}

} // verus!
