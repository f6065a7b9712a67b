//! What holds of trust across operations: who was removed stays away, and what was used up is
//! refused.
use vstd::prelude::*;

use crate::identity::{signature_of, Identity, PeerId};
use crate::net::auth::{shows_time, PairRequest, PairTicket};
use crate::net::clock::{time_of, time_round_trip, LAST_FOUR_DIGIT_MS};
use crate::net::control::{
    control_payload, order_fault, order_recorded, ControlMessage, MAX_CONTROL_TEXT,
};
use crate::net::deeds::{accepted_ticket_is_not_cancelled, tickets_accounted_for};
use crate::net::enroll::{confirm_fault, confirmed, pair_fault, peer_of_request, ticket_spent};
use crate::net::error::Error;
use crate::net::pairing::{
    after_removal, fresh_nonces, insert_fault, issued_tokens, peer_inserted, peer_removed,
    ticket_registered, version_of, TrustV,
};
use crate::net::settle::{limited, merged, pruned, settles, version_at};
use crate::net::signing::nonce_reads_back;
use crate::net::transport::DialHint;
use crate::net::trust::{TrustDisk, TrustedPeer};
use crate::order::{char_rank, Key};
use crate::util::hex_text;

verus! {

/// Nobody has paired or removed a peer since this process did.
pub open spec fn has_last_word(mine: TrustV, stored: TrustV, peer: PeerId) -> bool {
    version_at(mine.peer_versions, peer.rank()) >= version_at(stored.peer_versions, peer.rank())
}

/// The token was the peer's own, or it issued the token to a guest.
pub open spec fn depends_on(d: TrustV, peer: PeerId, token: Seq<char>) -> bool {
    ||| d.peers[peer.rank()].token_id matches Some(t) && t@ == token
    ||| issued_tokens(d.bind_certificates, peer).contains(char_rank(token))
}

/// A peer that was removed is gone, and stays so when the removal is written over what others have
/// written meanwhile. Its token and those it issued are taken back; no guest that held one of them
/// is trusted or has a certificate; and no ticket that was pending is accepted, not even when it is
/// shown again. A process that has not heard of it cannot undo it.
pub proof fn removed_peer_stays_away(
    d: TrustV,
    peer: PeerId,
    stored: TrustV,
    now: u64,
    r: TrustV,
)
    requires
        d.peers.dom().contains(peer.rank()),
        version_of(d.peer_versions, peer) < u64::MAX,
        has_last_word(peer_removed(d, peer), stored, peer),
        settles(peer_removed(d, peer), stored, now, r),
    ensures
        !r.peers.dom().contains(peer.rank()),
        insert_fault(r, peer) is Some,
        forall|token: Seq<char>| #[trigger]
            depends_on(d, peer, token) ==> r.revoked.dom().contains(char_rank(token)),
        forall|k: Seq<int>| #[trigger]
            r.peers.dom().contains(k) ==> (r.peers[k].token_id matches Some(t) ==> !depends_on(
                d,
                peer,
                t@,
            )),
        forall|k: Seq<int>| #[trigger]
            r.bind_certificates.dom().contains(k) ==> !depends_on(
                d,
                peer,
                r.bind_certificates[k].certificate.token_id@,
            ),
        forall|q: PairRequest, hints: Seq<DialHint>, a: PeerId, t: u64|
            d.pending_tickets.dom().contains(char_rank(q.ticket_id@)) ==> #[trigger] pair_fault(
                r,
                q,
                hints,
                a,
                t,
            ) is Some,
        forall|ticket: PairTicket, q: PairRequest, hints: Seq<DialHint>, a: PeerId, t: u64|
            d.pending_tickets.dom().contains(char_rank(q.ticket_id@)) ==> #[trigger] pair_fault(
                ticket_registered(r, ticket),
                q,
                hints,
                a,
                t,
            ) is Some,
        forall|stale: TrustV, later: u64, x: TrustV|
            version_at(stale.peer_versions, peer.rank()) < version_at(r.peer_versions, peer.rank())
                && #[trigger] settles(stale, r, later, x) ==> !x.peers.dom().contains(peer.rank()),
{
    let mine = peer_removed(d, peer);
    let (m, l) = choose|m: TrustDisk, l: TrustDisk|
        m@ == pruned(merged(mine, stored), now) && #[trigger] limited(m, l) && r
            == crate::net::settle::without_revoked(l@);
    let k = peer.rank();
    assert(mine.peer_versions.dom().contains(k));
    assert(mine.peer_versions[k] == version_of(d.peer_versions, peer) + 1);
    assert(m@.peers == merged(mine, stored).peers);
    assert(l@.peers == m@.peers);
    assert(r.revoked == merged(mine, stored).revoked);
    assert(r.used_tickets == merged(mine, stored).used_tickets);
    assert(r.peer_versions == merged(mine, stored).peer_versions);
    assert forall|token: Seq<char>| #[trigger] depends_on(d, peer, token) implies r.revoked.dom().contains(
        char_rank(token),
    ) by {
        assert(mine.revoked.dom().contains(char_rank(token)));
    }
    assert forall|q: PairRequest|
        d.pending_tickets.dom().contains(char_rank(#[trigger] q.ticket_id@)) implies r.used_tickets.dom().contains(
    char_rank(q.ticket_id@)) by {
        assert(mine.used_tickets.dom().contains(char_rank(q.ticket_id@)));
    }
    assert forall|stale: TrustV, later: u64, x: TrustV|
        version_at(stale.peer_versions, k) < version_at(r.peer_versions, k) && #[trigger] settles(
            stale,
            r,
            later,
            x,
        ) implies !x.peers.dom().contains(k) by {
        let (n, o) = choose|n: TrustDisk, o: TrustDisk|
            n@ == pruned(merged(stale, r), later) && #[trigger] limited(n, o) && x
                == crate::net::settle::without_revoked(o@);
        assert(o@.peers == merged(stale, r).peers);
    }
}

/// A peer that was removed from what is stored is gone once the removal is written, with all that
/// depended on it, and nothing is left to remove. It is not put back, and a ticket that was pending
/// does not help it.
pub proof fn removal_lasts(d: TrustV, peer: PeerId, now: u64, r: TrustV)
    requires
        d.peers.dom().contains(peer.rank()),
        version_of(d.peer_versions, peer) < u64::MAX,
        settles(after_removal(d, peer), d, now, r),
    ensures
        !r.peers.dom().contains(peer.rank()),
        after_removal(r, peer) == r,
        insert_fault(r, peer) is Some,
        forall|token: Seq<char>| #[trigger]
            depends_on(d, peer, token) ==> r.revoked.dom().contains(char_rank(token)),
        forall|k: Seq<int>| #[trigger]
            r.peers.dom().contains(k) ==> (r.peers[k].token_id matches Some(t) ==> !depends_on(
                d,
                peer,
                t@,
            )),
        forall|k: Seq<int>| #[trigger]
            r.bind_certificates.dom().contains(k) ==> !depends_on(
                d,
                peer,
                r.bind_certificates[k].certificate.token_id@,
            ),
        forall|q: PairRequest, hints: Seq<DialHint>, a: PeerId, t: u64|
            d.pending_tickets.dom().contains(char_rank(q.ticket_id@)) ==> #[trigger] pair_fault(
                r,
                q,
                hints,
                a,
                t,
            ) is Some,
{
    removed_peer_stays_away(d, peer, d, now, r);
}

/// A peer that was never removed is put in, and no other peer is touched.
pub proof fn new_peer_is_trusted(d: TrustV, p: TrustedPeer)
    requires
        !d.peer_versions.dom().contains(p.peer_id.rank()),
    ensures
        insert_fault(d, p.peer_id) is None,
        peer_inserted(d, p).peers.dom().contains(p.peer_id.rank()),
        peer_inserted(d, p).peers[p.peer_id.rank()] == p,
        forall|k: Seq<int>|
            k != p.peer_id.rank() ==> (#[trigger] peer_inserted(d, p).peers.dom().contains(k)
                <==> d.peers.dom().contains(k)),
        forall|k: Seq<int>|
            k != p.peer_id.rank() && #[trigger] d.peers.dom().contains(k) ==> peer_inserted(
                d,
                p,
            ).peers[k] == d.peers[k],
{
}

/// A request to pair that is accepted came from the device it names. That device is trusted in full
/// at once where it is to be confirmed immediately, and otherwise nothing changes about whom this one
/// trusts.
pub proof fn accepted_request_is_trusted(
    d: TrustV,
    request: PairRequest,
    hints: Seq<DialHint>,
    authenticated: PeerId,
    now: u64,
    p: TrustedPeer,
    at_once: bool,
)
    requires
        pair_fault(d, request, hints, authenticated, now) is None,
        peer_of_request(p, request),
    ensures
        authenticated == request.peer_id,
        ({
            let after = ticket_spent(d, request.ticket_id@, request.ticket_id, p, at_once);
            if at_once {
                &&& after.peers == d.peers.insert(request.peer_id.rank(), p)
                &&& p.role is Full
                &&& p.x25519_pk == request.x25519_pk
            } else {
                after.peers == d.peers
            }
        }),
{
}

/// A ticket pairs one device. Once it was spent, every request with it is refused, also when it is
/// shown again and when others write what they know.
pub proof fn spent_ticket_stays_spent(
    d: TrustV,
    ticket: String,
    p: TrustedPeer,
    at_once: bool,
    shown: PairTicket,
    stored: TrustV,
    now: u64,
    after: TrustV,
    again: PairRequest,
    hints: Seq<DialHint>,
    authenticated: PeerId,
    later: u64,
)
    requires
        again.ticket_id@ == ticket@,
        settles(
            ticket_registered(ticket_spent(d, ticket@, ticket, p, at_once), shown),
            stored,
            now,
            after,
        ),
    ensures
        pair_fault(
            ticket_spent(d, ticket@, ticket, p, at_once),
            again,
            hints,
            authenticated,
            later,
        ) is Some,
        pair_fault(
            ticket_registered(ticket_spent(d, ticket@, ticket, p, at_once), shown),
            again,
            hints,
            authenticated,
            later,
        ) is Some,
        pair_fault(after, again, hints, authenticated, later) is Some,
        pair_fault(ticket_registered(after, shown), again, hints, authenticated, later) is Some,
{
    let mine = ticket_registered(ticket_spent(d, ticket@, ticket, p, at_once), shown);
    let (m, l) = choose|m: TrustDisk, l: TrustDisk|
        m@ == pruned(merged(mine, stored), now) && #[trigger] limited(m, l) && after
            == crate::net::settle::without_revoked(l@);
    let key = char_rank(ticket@);
    assert(mine.used_tickets.dom().contains(key));
    assert(after.used_tickets == merged(mine, stored).used_tickets);
    assert(after.used_tickets.dom().contains(key));
}

/// A device that asked to pair, and awaits confirmation, is trusted in full and under its keys once
/// it confirms. A confirmation from another device is refused and changes nothing about whom this
/// one trusts; so is every one that comes after the device was removed. The ticket is one that this
/// device shows, and not one under which it joined another.
pub proof fn confirmation_is_answered(
    d: TrustV,
    joined: Set<Seq<int>>,
    request: PairRequest,
    hints: Seq<DialHint>,
    authenticated: PeerId,
    now: u64,
    p: TrustedPeer,
    other: PeerId,
)
    requires
        tickets_accounted_for(d, joined),
        !joined.contains(char_rank(request.ticket_id@)),
        pair_fault(d, request, hints, authenticated, now) is None,
        peer_of_request(p, request),
        other != request.peer_id,
    ensures
        ({
            let waiting = ticket_spent(d, request.ticket_id@, request.ticket_id, p, false);
            let trusted = confirmed(waiting, request.ticket_id, request.peer_id);
            let refused = confirmed(waiting, request.ticket_id, other);
            &&& confirm_fault(waiting, request.ticket_id@, request.peer_id) is None
            &&& trusted.peers == d.peers.insert(request.peer_id.rank(), p)
            &&& confirm_fault(waiting, request.ticket_id@, other) == Some(
                Error::Authentication("pair confirmation differs from transport"),
            )
            &&& refused.peers == d.peers
            &&& waiting.peers.dom().contains(request.peer_id.rank()) ==> {
                let removed = peer_removed(waiting, request.peer_id);
                &&& forall|any: PeerId| #[trigger]
                    confirm_fault(removed, request.ticket_id@, any) == Some(
                        Error::Authorization("pair confirmation was revoked"),
                    )
                &&& forall|any: PeerId| #[trigger]
                    confirmed(removed, request.ticket_id, any) == removed
                &&& !removed.peers.dom().contains(request.peer_id.rank())
            }
        }),
{
    accepted_ticket_is_not_cancelled(d, joined, request, hints, authenticated, now);
    let waiting = ticket_spent(d, request.ticket_id@, request.ticket_id, p, false);
    let key = char_rank(request.ticket_id@);
    assert(waiting.awaiting_pair_confirm.dom().contains(key));
    assert(waiting.awaiting_pair_confirm[key] == p);
    if waiting.peers.dom().contains(request.peer_id.rank()) {
        let removed = peer_removed(waiting, request.peer_id);
        assert(removed.cancelled_pairs.dom().contains(key));
    }
}

/// An order of a full peer is accepted exactly from a minute before the time it names to five
/// minutes after it, and once: whatever the time, it is refused as long as its nonce is on record,
/// and once it is not the order is too old. Refused for its time it leaves everything as it was. Of a
/// guest or a stranger it is refused.
pub proof fn order_is_taken_once(
    m: ControlMessage,
    id: Identity,
    signer: PeerId,
    nonce: [u8; 16],
    at: u64,
    d: TrustV,
    now: u64,
)
    requires
        m.message_type@ == "control"@,
        (m.op is Instruct) == (m.text is Some),
        m.text matches Some(t) ==> vstd::utf8::encode_utf8(t@).len() <= MAX_CONTROL_TEXT,
        m.nonce@ == hex_text(nonce@),
        shows_time(at as int, m.at@),
        at <= LAST_FOUR_DIGIT_MS,
        signature_of(id, "control"@, control_payload(m), m.sig),
        m.sig.is_regular(),
        signer.0@ == id.peer(),
        !fresh_nonces(d, now).dom().contains(char_rank(m.nonce@)),
    ensures
        ({
            let trusted = d.peers.dom().contains(signer.rank()) && d.peers[signer.rank()].role
                is Full;
            let in_window = at <= now + 60_000 && (at >= now || now - at <= 300_000);
            let after = order_recorded(m, signer, d, now);
            &&& order_fault(m, signer, d, now) is None <==> trusted && in_window
            &&& trusted && !in_window ==> order_fault(m, signer, d, now) == Some(
                Error::Authorization("control timestamp outside window"),
            )
            &&& !trusted || !in_window ==> after == d
            &&& trusted && in_window ==> after.control_nonces.dom().contains(char_rank(m.nonce@))
                && after.control_nonces[char_rank(m.nonce@)] == now
            &&& trusted && in_window ==> forall|any: u64| #[trigger]
                order_fault(m, signer, after, any) is Some
            &&& trusted && in_window ==> forall|state: TrustV, any: u64|
                state.control_nonces.dom().contains(char_rank(m.nonce@))
                    && state.control_nonces[char_rank(m.nonce@)] == now ==> #[trigger] order_fault(
                    m,
                    signer,
                    state,
                    any,
                ) is Some
            &&& trusted && in_window ==> forall|state: TrustV, any: u64|
                any > now + 600_000 ==> #[trigger] order_fault(m, signer, state, any) is Some
        }),
{
    time_round_trip(at, m.at@);
    nonce_reads_back(nonce@);
    assert(time_of(m.at@) == Ok::<u64, Error>(at));
}

} // verus!
