//! What one device signs, another accepts.
use vstd::prelude::*;

use crate::canonical::json_bytes;
use crate::capsule::{genesis_check, genesis_members, record_check, signed_record, Genesis, SPEC};
use crate::identity::{signature_of, signed_by, Identity, PeerId, Signature};
use crate::net::auth::{
    bind_window, request_check, scopes_check, shows_time, ticket_check, ticket_json,
    ticket_payload, token_check, token_json, token_payload, token_verify, EnrollmentToken,
    PairRequest, PairTicket, CLOCK_SKEW_MS,
};
use crate::net::bind::{
    bind_check, bind_payload, revocation_check, revocation_payload, EnrollBind, Revocation,
};
use crate::net::clock::{time_of, time_round_trip, LAST_FOUR_DIGIT_MS};
use crate::net::control::{control_fault, control_payload, ControlMessage, MAX_CONTROL_TEXT};
use crate::net::error::Error;
use crate::net::pairing::TrustV;
use crate::order::Key;
use crate::record::Members;
use crate::util::{all_lower_hex, hex_bytes, hex_round_trip, hex_text, is_hex_text, is_lower_hex};

verus! {

/// A signed record of a capsule is verified with the signer's peer id.
pub proof fn signed_record_verifies(
    id: Identity,
    peer: PeerId,
    domain: Seq<char>,
    unsigned: Members,
    sig: Signature,
)
    requires
        peer.0@ == id.peer(),
        signed_record(id, domain, unsigned, sig),
        sig.is_regular(),
    ensures
        record_check(peer, domain, unsigned, sig) is Ok,
{
}

/// The beginning of a capsule, as its creator signs it, is in order.
pub proof fn signed_genesis_verifies(g: Genesis, creator: Identity)
    requires
        g.spec@ == SPEC@,
        g.record_type@ == "capsule-genesis"@,
        g.created_by.0@ == creator.peer(),
        signed_record(creator, "genesis"@, genesis_members(g, None), g.sig),
        g.sig.is_regular(),
    ensures
        genesis_check(g) is Ok,
{
}

/// A ticket is taken, in the form in which it was written, until it runs out.
pub proof fn fresh_ticket_is_taken(t: PairTicket, id: Identity, end: u64, later: u64)
    requires
        t.v == 1,
        t.record_type@ == "pair-ticket"@,
        t.peer_id.0@ == id.peer(),
        shows_time(end as int, t.expires_at@),
        signature_of(id, "pair-ticket"@, ticket_payload(t), t.sig),
        t.sig.is_regular(),
        end <= LAST_FOUR_DIGIT_MS,
        later <= end + CLOCK_SKEW_MS,
    ensures
        ticket_check(t, json_bytes(ticket_json(t)), later) is Ok,
{
    time_round_trip(end, t.expires_at@);
}

/// A request to pair is in order as its sender signs it.
pub proof fn signed_request_verifies(q: PairRequest, id: Identity, nonce: [u8; 16])
    requires
        is_hex_text(q.ticket_id@),
        q.ticket_id@.len() == 32,
        q.peer_id.0@ == id.peer(),
        q.nonce@ == hex_text(nonce@),
        signature_of(id, "pair-request"@, hex_bytes(q.ticket_id@) + nonce@, q.sig),
        q.sig.is_regular(),
    ensures
        request_check(q) is Ok,
{
    nonce_reads_back(nonce@);
}

pub(crate) proof fn nonce_reads_back(nonce: Seq<u8>)
    ensures
        is_hex_text(hex_text(nonce)),
        all_lower_hex(hex_text(nonce)),
        hex_bytes(hex_text(nonce)) == nonce,
{
    hex_round_trip(nonce, "nonce");
    assert forall|i: int| 0 <= i < hex_text(nonce).len() implies crate::util::is_hex(
        hex_text(nonce)[i],
    ) by {
        assert(is_lower_hex(hex_text(nonce)[i]));
    }
}

proof fn time_is_read(at: u64, text: Seq<char>)
    requires
        at <= LAST_FOUR_DIGIT_MS,
        shows_time(at as int, text),
    ensures
        time_of(text) == Ok::<u64, Error>(at),
{
    time_round_trip(at, text);
}

/// A token is taken, in the form in which it was written, until it runs out.
#[verifier::rlimit(30)]
pub proof fn fresh_token_is_taken(t: EnrollmentToken, id: Identity, now: u64, ttl_ms: u64, later: u64)
    requires
        t.v == 1,
        t.record_type@ == "enrollment"@,
        t.issuer.0@ == id.peer(),
        scopes_check(t.scopes) is Ok,
        shows_time(now as int, t.issued_at@),
        shows_time(now + ttl_ms, t.expires_at@),
        t.bind_by is Some <==> t.audience is None,
        t.bind_by matches Some(by) ==> shows_time(now + bind_window(ttl_ms), by@),
        signature_of(id, "enroll"@, token_payload(t), t.sig),
        t.sig.is_regular(),
        now + ttl_ms <= LAST_FOUR_DIGIT_MS,
        later <= now + ttl_ms + CLOCK_SKEW_MS,
    ensures
        token_check(t, json_bytes(token_json(t)), later) is Ok,
        token_verify(t, later) is Ok,
{
    time_is_read(now, t.issued_at@);
    time_is_read((now + ttl_ms) as u64, t.expires_at@);
    if t.bind_by is Some {
        time_is_read((now + bind_window(ttl_ms)) as u64, (t.bind_by->0)@);
    }
    assert(signed_by(t.issuer, "enroll"@, token_payload(t), t.sig));
}

/// The answer of a guest to a token that is in order is in order as the guest signs it.
pub proof fn signed_answer_verifies(b: EnrollBind, guest: Identity, now: u64)
    requires
        token_verify(b.token, now) is Ok,
        is_hex_text(b.token.token_id@),
        b.token.token_id@.len() == 32,
        b.guest_peer_id.0@ == guest.peer(),
        signature_of(
            guest,
            "enroll-bind"@,
            bind_payload(b.token.token_id@, guest.peer()),
            b.sig,
        ),
        b.sig.is_regular(),
    ensures
        bind_check(b, now) is Ok,
{
}

/// A revocation is in order from the time on at which it was signed.
pub proof fn signed_revocation_verifies(x: Revocation, issuer: Identity, now: u64, later: u64)
    requires
        x.record_type@ == "revocation"@,
        x.issuer.0@ == issuer.peer(),
        is_hex_text(x.token_id@),
        x.token_id@.len() == 32,
        shows_time(now as int, x.revoked_at@),
        signature_of(issuer, "revoke"@, revocation_payload(x), x.sig),
        x.sig.is_regular(),
        now <= LAST_FOUR_DIGIT_MS,
        now <= later + CLOCK_SKEW_MS,
    ensures
        revocation_check(x, later) is Ok,
{
    time_round_trip(now, x.revoked_at@);
}

/// An order of a full peer is taken for five minutes.
pub proof fn signed_order_is_taken(
    m: ControlMessage,
    id: Identity,
    signer: PeerId,
    nonce: [u8; 16],
    d: TrustV,
    now: u64,
    later: u64,
)
    requires
        m.message_type@ == "control"@,
        (m.op is Instruct) == (m.text is Some),
        m.text matches Some(t) ==> vstd::utf8::encode_utf8(t@).len() <= MAX_CONTROL_TEXT,
        m.nonce@ == hex_text(nonce@),
        shows_time(now as int, m.at@),
        signature_of(id, "control"@, control_payload(m), m.sig),
        m.sig.is_regular(),
        signer.0@ == id.peer(),
        d.peers.dom().contains(signer.rank()),
        d.peers[signer.rank()].role is Full,
        now <= LAST_FOUR_DIGIT_MS,
        now <= later + 60_000,
        later <= now + 300_000,
    ensures
        control_fault(m, signer, d, later) is None,
{
    time_round_trip(now, m.at@);
    nonce_reads_back(nonce@);
}

} // verus!
