//! Pairing, enrollment and revocation, as the trust store carries them out.
use vstd::prelude::*;

use crate::identity::{signature_of, signature_check, signed_by, Identity, PeerId};
use crate::net::auth::{
    from_core, request_check, same_scopes, scopes_check, shows_time, times_are_small, PairAccept,
    PairConfirm, PairRequest, PairTicket, Role, CLOCK_SKEW_MS, MAX_CERTIFICATE_LIFETIME_MS,
};
use crate::net::bind::{
    bind_check, certificate_payload, same_certificate, BindCertificate, EnrollBind,
};
use crate::net::clock::{parse_time, time_of};
use crate::net::error::Error;
use crate::net::pairing::{version_of, TrustV};
use crate::net::transport::{hints_fault, validate_peer_address, DialHint};
use crate::net::trust::{StoredBindCertificate, StoredRevocation, TrustStore, TrustedPeer};
use crate::order::{char_rank, Key};
use crate::record::copy_texts;
use crate::table::Table;
use crate::text::same_text;

verus! {

/// The addresses of a request, each with what the parser of socket addresses says of it.
pub open spec fn hints_of(hints: Seq<DialHint>, addresses: Seq<String>) -> bool {
    &&& hints.len() == addresses.len()
    &&& forall|i: int| 0 <= i < hints.len() ==> (#[trigger] hints[i]).text@ == addresses[i]@
}

/// What stands in the way of a request to pair, before anybody is asked.
pub open spec fn pair_fault(
    d: TrustV,
    q: PairRequest,
    hints: Seq<DialHint>,
    authenticated: PeerId,
    now: u64,
) -> Option<Error> {
    let key = char_rank(q.ticket_id@);
    if authenticated != q.peer_id {
        Some(Error::Authentication("pair request differs from transport"))
    } else if request_check(q) is Err {
        Some(request_check(q)->Err_0)
    } else if hints_fault(hints) is Some {
        hints_fault(hints)
    } else if !d.pending_tickets.dom().contains(key) {
        Some(Error::Authorization("ticket is not pending"))
    } else if d.used_tickets.dom().contains(key) {
        Some(Error::Authorization("ticket already used"))
    } else {
        match time_of(d.pending_tickets[key].expires_at@) {
            Err(e) => Some(e),
            Ok(end) => if now > CLOCK_SKEW_MS + end {
                Some(Error::Authorization("ticket expired"))
            } else {
                None
            },
        }
    }
}

/// The peer that a request describes.
pub open spec fn peer_of_request(p: TrustedPeer, q: PairRequest) -> bool {
    &&& p.peer_id == q.peer_id
    &&& p.name == q.name
    &&& p.role is Full
    &&& p.x25519_pk == q.x25519_pk
    &&& p.relay_key == q.relay_key
    &&& p.token_id is None
    &&& p.scopes is None
    &&& p.expires_at is None
    &&& p.addresses@ == q.addresses@
}

/// What is stored once a ticket was spent on a peer, which is trusted at once or awaits
/// confirmation.
pub open spec fn ticket_spent(
    d: TrustV,
    ticket_id: Seq<char>,
    ticket: String,
    p: TrustedPeer,
    at_once: bool,
) -> TrustV {
    let key = char_rank(ticket_id);
    let spent = TrustV {
        used_tickets: d.used_tickets.insert(key, ()),
        pending_tickets: d.pending_tickets.remove(key),
        ..d
    };
    if at_once {
        peer_paired(spent, ticket, p)
    } else {
        TrustV { awaiting_pair_confirm: d.awaiting_pair_confirm.insert(key, p), ..spent }
    }
}

/// What is stored once a peer was paired under a ticket.
pub open spec fn peer_paired(d: TrustV, ticket: String, p: TrustedPeer) -> TrustV {
    TrustV {
        peer_versions: d.peer_versions.insert(
            p.peer_id.rank(),
            (version_of(d.peer_versions, p.peer_id) + 1) as u64,
        ),
        peer_pair_tickets: d.peer_pair_tickets.insert(p.peer_id.rank(), ticket),
        peers: d.peers.insert(p.peer_id.rank(), p),
        ..d
    }
}

/// What stands in the way of confirming a pairing.
pub open spec fn confirm_fault(d: TrustV, ticket_id: Seq<char>, authenticated: PeerId) -> Option<
    Error,
> {
    let key = char_rank(ticket_id);
    if d.cancelled_pairs.dom().contains(key) {
        Some(Error::Authorization("pair confirmation was revoked"))
    } else if !d.awaiting_pair_confirm.dom().contains(key) {
        if d.peers.dom().contains(authenticated.rank()) {
            None
        } else {
            Some(Error::Authorization("pair confirmation is not pending"))
        }
    } else if d.awaiting_pair_confirm[key].peer_id != authenticated {
        Some(Error::Authentication("pair confirmation differs from transport"))
    } else {
        None
    }
}

/// What stands in the way of trusting the device whose ticket was answered.
pub open spec fn join_fault(
    d: TrustV,
    ticket: PairTicket,
    accept: PairAccept,
    expected_nonce: Seq<char>,
) -> Option<Error> {
    if accept.peer_id != ticket.peer_id || accept.nonce@ != expected_nonce {
        Some(Error::Authentication("pair accept issuer mismatch"))
    } else if d.cancelled_pairs.dom().contains(char_rank(ticket.ticket_id@)) {
        Some(Error::Authorization("pair ticket was revoked"))
    } else {
        None
    }
}

/// The confirmation is waited for, and comes from the device that asked.
pub open spec fn confirms(d: TrustV, ticket_id: Seq<char>, authenticated: PeerId) -> bool {
    let key = char_rank(ticket_id);
    &&& !d.cancelled_pairs.dom().contains(key)
    &&& d.awaiting_pair_confirm.dom().contains(key)
    &&& d.awaiting_pair_confirm[key].peer_id == authenticated
}

/// What is stored once a confirmation came in. It is used up, also where it came from another
/// device.
pub open spec fn confirmed(d: TrustV, ticket: String, authenticated: PeerId) -> TrustV {
    let key = char_rank(ticket@);
    let rest = TrustV { awaiting_pair_confirm: d.awaiting_pair_confirm.remove(key), ..d };
    if d.cancelled_pairs.dom().contains(key) || !d.awaiting_pair_confirm.dom().contains(key) {
        d
    } else if d.awaiting_pair_confirm[key].peer_id != authenticated {
        rest
    } else {
        peer_paired(rest, ticket, d.awaiting_pair_confirm[key])
    }
}

fn first_hint_fault(hints: &Vec<DialHint>) -> (r: Option<Error>)
    ensures
        r == hints_fault(hints@),
{
    let mut i: usize = 0;
    assert(hints@.take(0) =~= Seq::<DialHint>::empty());
    while i < hints.len()
        invariant
            i <= hints@.len(),
            hints_fault(hints@.take(i as int)) is None,
        decreases hints.len() - i,
    {
        proof {
            assert(hints@.take(i + 1).drop_last() =~= hints@.take(i as int));
            assert(hints@.take(i + 1).last() == hints@[i as int]);
        }
        match validate_peer_address(&hints[i]) {
            Ok(()) => {},
            Err(e) => {
                proof {
                    crate::net::transport::hints_fault_prefix(hints@, i + 1);
                }
                return Some(e);
            },
        }
        i += 1;
    }
    assert(hints@.take(i as int) =~= hints@);
    None
}

impl TrustStore {
    fn pair(&mut self, ticket: String, p: TrustedPeer)
        requires
            old(self).wf(),
            version_of(old(self).disk@.peer_versions, p.peer_id) < u64::MAX,
        ensures
            final(self).wf(),
            final(self).disk@ == peer_paired(old(self).disk@, ticket, p),
    {
        let id = p.peer_id;
        let version: u64 = match self.disk.peer_versions.get(&id) {
            Some(v) => *v,
            None => 0,
        };
        self.disk.peer_versions.insert(id, version + 1);
        self.disk.peer_pair_tickets.insert(id, ticket);
        self.disk.peers.insert(id, p);
    }

    /// Answers a request to pair. `confirm` is asked, with the ids of this device and of the
    /// other, once nothing else stands in the way.
    pub fn accept_pair_request<F: FnOnce(PeerId, PeerId) -> bool>(
        &mut self,
        request: &PairRequest,
        hints: &Vec<DialHint>,
        authenticated: PeerId,
        now: u64,
        confirm_immediately: bool,
        confirm: F,
    ) -> (r: Result<PairAccept, Error>)
        requires
            old(self).wf(),
            hints_of(hints@, request.addresses@),
            confirm_immediately ==> version_of(old(self).disk@.peer_versions, request.peer_id)
                < u64::MAX,
            forall|a: PeerId, b: PeerId| confirm.requires((a, b)),
        ensures
            final(self).wf(),
            ({
                let d = old(self).disk@;
                let fault = pair_fault(d, *request, hints@, authenticated, now);
                let ticket = d.pending_tickets[char_rank(request.ticket_id@)];
                match r {
                    Err(e) => final(self).disk == old(self).disk && if fault is Some {
                        fault == Some(e)
                    } else {
                        e == Error::Authorization("pairing declined") && confirm.ensures(
                            (ticket.peer_id, request.peer_id),
                            false,
                        )
                    },
                    Ok(a) => {
                        &&& fault is None
                        &&& confirm.ensures((ticket.peer_id, request.peer_id), true)
                        &&& a.message_type@ == "pair-accept"@
                        &&& a.peer_id == ticket.peer_id
                        &&& a.name == ticket.name
                        &&& a.nonce == request.nonce
                        &&& exists|p: TrustedPeer| #[trigger]
                            peer_of_request(p, *request) && final(self).disk@ == ticket_spent(
                                d,
                                request.ticket_id@,
                                request.ticket_id,
                                p,
                                confirm_immediately,
                            )
                    },
                }
            }),
    {
        let ghost d = self.disk@;
        if !authenticated.same(&request.peer_id) {
            return Err(Error::Authentication("pair request differs from transport"));
        }
        match request.verify() {
            Ok(()) => {},
            Err(e) => {
                return Err(e);
            },
        }
        match first_hint_fault(hints) {
            Some(e) => {
                return Err(e);
            },
            None => {},
        }
        let (owner, owner_name) = match self.disk.pending_tickets.get(&request.ticket_id) {
            None => {
                return Err(Error::Authorization("ticket is not pending"));
            },
            Some(ticket) => {
                if self.disk.used_tickets.contains(&request.ticket_id) {
                    return Err(Error::Authorization("ticket already used"));
                }
                let end = match parse_time(ticket.expires_at.as_str()) {
                    Err(e) => {
                        return Err(e);
                    },
                    Ok(end) => end,
                };
                proof {
                    times_are_small(ticket.expires_at@);
                }
                if now > CLOCK_SKEW_MS + end {
                    return Err(Error::Authorization("ticket expired"));
                }
                (ticket.peer_id, ticket.name.clone())
            },
        };
        if !confirm(owner, request.peer_id) {
            return Err(Error::Authorization("pairing declined"));
        }
        let peer = TrustedPeer {
            peer_id: request.peer_id,
            name: request.name.clone(),
            role: Role::Full,
            x25519_pk: request.x25519_pk,
            relay_key: request.relay_key,
            token_id: None,
            scopes: None,
            expires_at: None,
            addresses: copy_texts(&request.addresses),
        };
        assert(peer_of_request(peer, *request));
        self.disk.used_tickets.insert(request.ticket_id.clone(), ());
        self.disk.pending_tickets.remove(&request.ticket_id);
        if confirm_immediately {
            self.pair(request.ticket_id.clone(), peer);
        } else {
            self.disk.awaiting_pair_confirm.insert(request.ticket_id.clone(), peer);
        }
        Ok(
            PairAccept {
                message_type: "pair-accept".to_owned(),
                peer_id: owner,
                name: owner_name,
                nonce: request.nonce.clone(),
            },
        )
    }

    /// Trusts a peer that awaited confirmation.
    pub fn confirm_pair(&mut self, confirm: &PairConfirm, authenticated: PeerId) -> (r: Result<
        (),
        Error,
    >)
        requires
            old(self).wf(),
            confirms(old(self).disk@, confirm.ticket_id@, authenticated) ==> version_of(
                old(self).disk@.peer_versions,
                authenticated,
            ) < u64::MAX,
        ensures
            final(self).wf(),
            r == match confirm_fault(old(self).disk@, confirm.ticket_id@, authenticated) {
                Some(e) => Err::<(), Error>(e),
                None => Ok(()),
            },
            final(self).disk@ == confirmed(old(self).disk@, confirm.ticket_id, authenticated),
    {
        let ghost d = self.disk@;
        if self.disk.cancelled_pairs.contains(&confirm.ticket_id) {
            return Err(Error::Authorization("pair confirmation was revoked"));
        }
        let peer = match self.disk.awaiting_pair_confirm.remove(&confirm.ticket_id) {
            None => {
                assert(self.disk@.awaiting_pair_confirm =~= d.awaiting_pair_confirm);
                return if self.disk.peers.contains(&authenticated) {
                    Ok(())
                } else {
                    Err(Error::Authorization("pair confirmation is not pending"))
                };
            },
            Some(peer) => peer,
        };
        if !peer.peer_id.same(&authenticated) {
            return Err(Error::Authentication("pair confirmation differs from transport"));
        }
        self.pair(confirm.ticket_id.clone(), peer);
        Ok(())
    }

    /// Trusts the device whose ticket was accepted.
    pub fn complete_pair_as_joiner(
        &mut self,
        ticket: &PairTicket,
        accept: &PairAccept,
        expected_nonce: &str,
    ) -> (r: Result<PairConfirm, Error>)
        requires
            old(self).wf(),
            join_fault(old(self).disk@, *ticket, *accept, expected_nonce@) is None ==> version_of(
                old(self).disk@.peer_versions,
                ticket.peer_id,
            ) < u64::MAX,
        ensures
            final(self).wf(),
            ({
                let d = old(self).disk@;
                let fault = join_fault(d, *ticket, *accept, expected_nonce@);
                match r {
                    Err(e) => fault == Some(e) && final(self).disk == old(self).disk,
                    Ok(c) => {
                        &&& fault is None
                        &&& c.message_type@ == "pair-confirm"@
                        &&& c.ticket_id == ticket.ticket_id
                        &&& exists|p: TrustedPeer| #[trigger]
                            peer_of_ticket(p, *ticket, *accept) && final(self).disk@ == peer_paired(
                                d,
                                ticket.ticket_id,
                                p,
                            )
                    },
                }
            }),
    {
        if !accept.peer_id.same(&ticket.peer_id) || !same_text(
            accept.nonce.as_str(),
            expected_nonce,
        ) {
            return Err(Error::Authentication("pair accept issuer mismatch"));
        }
        if self.disk.cancelled_pairs.contains(&ticket.ticket_id) {
            return Err(Error::Authorization("pair ticket was revoked"));
        }
        let peer = TrustedPeer {
            peer_id: ticket.peer_id,
            name: accept.name.clone(),
            role: Role::Full,
            x25519_pk: ticket.x25519_pk,
            relay_key: ticket.relay_key,
            token_id: None,
            scopes: None,
            expires_at: None,
            addresses: copy_texts(&ticket.addresses),
        };
        assert(peer_of_ticket(peer, *ticket, *accept));
        self.pair(ticket.ticket_id.clone(), peer);
        Ok(
            PairConfirm {
                message_type: "pair-confirm".to_owned(),
                ticket_id: ticket.ticket_id.clone(),
            },
        )
    }
}

/// The peer that a ticket and its acceptance describe.
pub open spec fn peer_of_ticket(p: TrustedPeer, ticket: PairTicket, accept: PairAccept) -> bool {
    &&& p.peer_id == ticket.peer_id
    &&& p.name == accept.name
    &&& p.role is Full
    &&& p.x25519_pk == ticket.x25519_pk
    &&& p.relay_key == ticket.relay_key
    &&& p.token_id is None
    &&& p.scopes is None
    &&& p.expires_at is None
    &&& p.addresses@ == ticket.addresses@
}

/// A stored revocation takes back one token of one guest of one issuer.
pub open spec fn takes_back(s: StoredRevocation, issuer: PeerId, token: Seq<char>, guest: PeerId) -> bool {
    s.record.issuer == issuer && s.record.token_id@ == token && s.record.guest_peer_id == guest
}

/// Some stored revocation takes back the token of the guest.
pub open spec fn taken_back(
    revocations: Map<Seq<int>, StoredRevocation>,
    issuer: PeerId,
    token: Seq<char>,
    guest: PeerId,
) -> bool {
    exists|k: Seq<int>| #[trigger]
        revocations.dom().contains(k) && takes_back(revocations[k], issuer, token, guest)
}

fn is_taken_back(
    revocations: &Table<String, StoredRevocation>,
    issuer: &PeerId,
    token: &String,
    guest: &PeerId,
) -> (r: bool)
    requires
        revocations.wf(),
    ensures
        r == taken_back(revocations@, *issuer, token@, *guest),
{
    let test = |k: &String, s: &StoredRevocation| -> (b: bool)
        ensures
            b == takes_back(*s, *issuer, token@, *guest),
        {
            s.record.issuer.same(issuer) && same_text(
                s.record.token_id.as_str(),
                token.as_str(),
            ) && s.record.guest_peer_id.same(guest)
        };
    revocations.any(
        test,
        Ghost(|k: Seq<int>, s: StoredRevocation| takes_back(s, *issuer, token@, *guest)),
    )
}

/// What stands in the way of binding a guest to a token.
pub open spec fn bind_fault(
    d: TrustV,
    bind: EnrollBind,
    authenticated: PeerId,
    now: u64,
    issuer: Seq<u8>,
) -> Option<Error> {
    let token = bind.token;
    if authenticated != bind.guest_peer_id {
        Some(Error::Authentication("enroll bind differs from transport"))
    } else if bind_check(bind, now) is Err {
        Some(bind_check(bind, now)->Err_0)
    } else if issuer != token.issuer.0@ {
        Some(Error::Authentication("bind certificate signer is not token issuer"))
    } else if d.revoked.dom().contains(char_rank(token.token_id@)) || taken_back(
        d.revocations,
        token.issuer,
        token.token_id@,
        bind.guest_peer_id,
    ) {
        Some(Error::Authorization("token revoked"))
    } else {
        match token.audience {
            Some(audience) => if audience != bind.guest_peer_id {
                Some(Error::Authorization("token audience mismatch"))
            } else {
                None
            },
            None => match token.bind_by {
                None => Some(Error::Protocol("unbound token lacks bind_by")),
                Some(by) => match time_of(by@) {
                    Err(e) => Some(e),
                    Ok(limit) => if now > limit {
                        Some(Error::Authorization("bind window expired"))
                    } else if d.bound_tokens.dom().contains(char_rank(token.token_id@))
                        && d.bound_tokens[char_rank(token.token_id@)] != bind.guest_peer_id {
                        Some(Error::Authorization("token already bound"))
                    } else {
                        None
                    },
                },
            },
        }
    }
}

/// The name that a bound guest goes by: its own, or the label of its token.
pub open spec fn guest_name(bind: EnrollBind) -> String {
    match bind.name {
        Some(n) => n,
        None => bind.token.label,
    }
}

/// The guest that a bind describes.
pub open spec fn guest_of_bind(p: TrustedPeer, bind: EnrollBind) -> bool {
    &&& p.peer_id == bind.guest_peer_id
    &&& p.name == guest_name(bind)
    &&& p.role is Guest
    &&& p.x25519_pk == bind.x25519_pk
    &&& p.relay_key == Some(bind.relay_discovery_key)
    &&& p.token_id == Some(bind.token.token_id)
    &&& p.scopes is Some
    &&& same_scopes(p.scopes->0, bind.token.scopes)
    &&& p.expires_at == Some(bind.token.expires_at)
    &&& p.addresses@ == bind.addresses@
}

/// The certificate of a bind.
pub open spec fn certificate_of_bind(c: BindCertificate, bind: EnrollBind, now: u64) -> bool {
    &&& c.record_type@ == "bind-cert"@
    &&& c.token_id == bind.token.token_id
    &&& c.guest_peer_id == bind.guest_peer_id
    &&& shows_time(now as int, c.bound_at@)
    &&& c.name == guest_name(bind)
    &&& c.x25519_pk == bind.x25519_pk
    &&& same_scopes(c.scopes, bind.token.scopes)
    &&& c.expires_at == bind.token.expires_at
}

/// What is stored once a guest was bound.
pub open spec fn guest_bound(
    d: TrustV,
    bind: EnrollBind,
    p: TrustedPeer,
    s: StoredBindCertificate,
) -> TrustV {
    TrustV {
        bound_tokens: d.bound_tokens.insert(char_rank(bind.token.token_id@), bind.guest_peer_id),
        peers: d.peers.insert(bind.guest_peer_id.rank(), p),
        bind_certificates: d.bind_certificates.insert(bind.guest_peer_id.rank(), s),
        ..d
    }
}

fn name_of_guest(bind: &EnrollBind) -> (r: String)
    ensures
        r == guest_name(*bind),
{
    match &bind.name {
        Some(n) => n.clone(),
        None => bind.token.label.clone(),
    }
}

/// What stands in the way of a certificate from another device.
pub open spec fn install_fault(d: TrustV, issuer: PeerId, c: BindCertificate, now: u64) -> Option<
    Error,
> {
    if c.record_type@ != "bind-cert"@ {
        Some(Error::Protocol("invalid bind certificate type"))
    } else if !d.peers.dom().contains(issuer.rank()) {
        Some(Error::Authorization("untrusted bind certificate issuer"))
    } else if !(d.peers[issuer.rank()].role is Full) {
        Some(Error::Authorization("bind certificate issuer is not full"))
    } else if !signed_by(issuer, "bind-cert"@, certificate_payload(c), c.sig) {
        Some(
            from_core(
                signature_check(issuer, "bind-cert"@, certificate_payload(c), c.sig),
            )->Err_0,
        )
    } else {
        match time_of(c.expires_at@) {
            Err(e) => Some(e),
            Ok(end) => if now > end {
                Some(Error::Authorization("bind certificate expired"))
            } else {
                match time_of(c.bound_at@) {
                    Err(e) => Some(e),
                    Ok(start) => if end - start > MAX_CERTIFICATE_LIFETIME_MS {
                        Some(Error::Authorization("bind certificate lifetime exceeds 30 days"))
                    } else if d.revoked.dom().contains(char_rank(c.token_id@)) || taken_back(
                        d.revocations,
                        issuer,
                        c.token_id@,
                        c.guest_peer_id,
                    ) {
                        Some(Error::Authorization("token revoked"))
                    } else if d.peers.dom().contains(c.guest_peer_id.rank())
                        && d.peers[c.guest_peer_id.rank()].role is Full {
                        Some(Error::Authorization("bind certificate subject is already full"))
                    } else if scopes_check(c.scopes) is Err {
                        Some(scopes_check(c.scopes)->Err_0)
                    } else {
                        None
                    },
                }
            },
        }
    }
}

/// What is stored once a guest was trusted on the word of another device.
pub open spec fn certificate_installed(
    d: TrustV,
    issuer: PeerId,
    c: BindCertificate,
    p: TrustedPeer,
) -> TrustV {
    TrustV {
        peers: d.peers.insert(c.guest_peer_id.rank(), p),
        bind_certificates: d.bind_certificates.insert(
            c.guest_peer_id.rank(),
            StoredBindCertificate { issuer, certificate: c },
        ),
        ..d
    }
}

/// The guest that a certificate describes.
pub open spec fn guest_of_certificate(p: TrustedPeer, c: BindCertificate) -> bool {
    &&& p.peer_id == c.guest_peer_id
    &&& p.name == c.name
    &&& p.role is Guest
    &&& p.x25519_pk == c.x25519_pk
    &&& p.relay_key is None
    &&& p.token_id == Some(c.token_id)
    &&& p.scopes is Some
    &&& same_scopes(p.scopes->0, c.scopes)
    &&& p.expires_at == Some(c.expires_at)
    &&& p.addresses@.len() == 0
}

impl TrustStore {
    /// Binds a guest to a token of this device, and certifies it.
    pub fn bind_enrollment(
        &mut self,
        bind: &EnrollBind,
        authenticated: PeerId,
        now: u64,
        issuer: &Identity,
    ) -> (r: Result<BindCertificate, Error>)
        requires
            old(self).wf(),
        ensures
            final(self).wf(),
            ({
                let d = old(self).disk@;
                let fault = bind_fault(d, *bind, authenticated, now, issuer.peer());
                match r {
                    Err(e) => fault == Some(e) && final(self).disk == old(self).disk,
                    Ok(c) => {
                        &&& fault is None
                        &&& certificate_of_bind(c, *bind, now)
                        &&& signature_of(*issuer, "bind-cert"@, certificate_payload(c), c.sig)
                        &&& exists|p: TrustedPeer, s: StoredBindCertificate| #[trigger]
                            guest_of_bind(p, *bind) && s.issuer.0@ == issuer.peer()
                                && #[trigger] same_certificate(s.certificate, c)
                                && final(self).disk@ == guest_bound(d, *bind, p, s)
                    },
                }
            }),
    {
        if !authenticated.same(&bind.guest_peer_id) {
            return Err(Error::Authentication("enroll bind differs from transport"));
        }
        match bind.verify(now) {
            Ok(()) => {},
            Err(e) => {
                return Err(e);
            },
        }
        let token = &bind.token;
        let me = issuer.peer_id();
        proof {
            crate::bytes::array_extensional(me.0, token.issuer.0);
        }
        if !me.same(&token.issuer) {
            return Err(Error::Authentication("bind certificate signer is not token issuer"));
        }
        if self.disk.revoked.contains(&token.token_id) || is_taken_back(
            &self.disk.revocations,
            &token.issuer,
            &token.token_id,
            &bind.guest_peer_id,
        ) {
            return Err(Error::Authorization("token revoked"));
        }
        match &token.audience {
            Some(audience) => {
                if !audience.same(&bind.guest_peer_id) {
                    return Err(Error::Authorization("token audience mismatch"));
                }
            },
            None => {
                let limit = match &token.bind_by {
                    None => {
                        return Err(Error::Protocol("unbound token lacks bind_by"));
                    },
                    Some(by) => match parse_time(by.as_str()) {
                        Err(e) => {
                            return Err(e);
                        },
                        Ok(limit) => limit,
                    },
                };
                if now > limit {
                    return Err(Error::Authorization("bind window expired"));
                }
                match self.disk.bound_tokens.get(&token.token_id) {
                    Some(p) => {
                        if !p.same(&bind.guest_peer_id) {
                            return Err(Error::Authorization("token already bound"));
                        }
                    },
                    None => {},
                }
            },
        }
        let peer = TrustedPeer {
            peer_id: bind.guest_peer_id,
            name: name_of_guest(bind),
            role: Role::Guest,
            x25519_pk: bind.x25519_pk,
            relay_key: Some(bind.relay_discovery_key),
            token_id: Some(token.token_id.clone()),
            scopes: Some(token.scopes.clone()),
            expires_at: Some(token.expires_at.clone()),
            addresses: copy_texts(&bind.addresses),
        };
        let certificate = match BindCertificate::sign(
            token.token_id.clone(),
            bind.guest_peer_id,
            now,
            name_of_guest(bind),
            bind.x25519_pk,
            token.scopes.clone(),
            token.expires_at.clone(),
            issuer,
        ) {
            Ok(c) => c,
            Err(e) => {
                return Err(e);
            },
        };
        let stored = StoredBindCertificate { issuer: me, certificate: certificate.clone() };
        assert(guest_of_bind(peer, *bind));
        assert(same_certificate(stored.certificate, certificate));
        self.disk.bound_tokens.insert(token.token_id.clone(), bind.guest_peer_id);
        self.disk.peers.insert(bind.guest_peer_id, peer);
        self.disk.bind_certificates.insert(bind.guest_peer_id, stored);
        Ok(certificate)
    }

    /// Trusts a guest that another full device certified.
    pub fn install_bind_certificate(
        &mut self,
        issuer: PeerId,
        certificate: BindCertificate,
        now: u64,
    ) -> (r: Result<(), Error>)
        requires
            old(self).wf(),
        ensures
            final(self).wf(),
            ({
                let d = old(self).disk@;
                let fault = install_fault(d, issuer, certificate, now);
                match r {
                    Err(e) => fault == Some(e) && final(self).disk == old(self).disk,
                    Ok(()) => {
                        &&& fault is None
                        &&& exists|p: TrustedPeer| #[trigger]
                            guest_of_certificate(p, certificate) && final(self).disk@
                                == certificate_installed(d, issuer, certificate, p)
                    },
                }
            }),
    {
        if !same_text(certificate.record_type.as_str(), "bind-cert") {
            return Err(Error::Protocol("invalid bind certificate type"));
        }
        match self.disk.peers.get(&issuer) {
            None => {
                return Err(Error::Authorization("untrusted bind certificate issuer"));
            },
            Some(p) => {
                if p.role != Role::Full {
                    return Err(Error::Authorization("bind certificate issuer is not full"));
                }
            },
        }
        match certificate.verify(issuer) {
            Ok(()) => {},
            Err(e) => {
                return Err(e);
            },
        }
        let end = match parse_time(certificate.expires_at.as_str()) {
            Err(e) => {
                return Err(e);
            },
            Ok(end) => end,
        };
        if now > end {
            return Err(Error::Authorization("bind certificate expired"));
        }
        let start = match parse_time(certificate.bound_at.as_str()) {
            Err(e) => {
                return Err(e);
            },
            Ok(start) => start,
        };
        if end.saturating_sub(start) > MAX_CERTIFICATE_LIFETIME_MS {
            return Err(Error::Authorization("bind certificate lifetime exceeds 30 days"));
        }
        if self.disk.revoked.contains(&certificate.token_id) || is_taken_back(
            &self.disk.revocations,
            &issuer,
            &certificate.token_id,
            &certificate.guest_peer_id,
        ) {
            return Err(Error::Authorization("token revoked"));
        }
        match self.disk.peers.get(&certificate.guest_peer_id) {
            Some(p) => {
                if p.role == Role::Full {
                    return Err(Error::Authorization("bind certificate subject is already full"));
                }
            },
            None => {},
        }
        match certificate.scopes.validate() {
            Ok(()) => {},
            Err(e) => {
                return Err(e);
            },
        }
        let guest = TrustedPeer {
            peer_id: certificate.guest_peer_id,
            name: certificate.name.clone(),
            role: Role::Guest,
            x25519_pk: certificate.x25519_pk,
            relay_key: None,
            token_id: Some(certificate.token_id.clone()),
            scopes: Some(certificate.scopes.clone()),
            expires_at: Some(certificate.expires_at.clone()),
            addresses: Vec::new(),
        };
        assert(guest_of_certificate(guest, certificate));
        let id = certificate.guest_peer_id;
        self.disk.peers.insert(id, guest);
        self.disk.bind_certificates.insert(id, StoredBindCertificate { issuer, certificate });
        Ok(())
    }
}

/// A token that was taken back binds no guest and lets no certificate in.
pub proof fn revoked_token_stays_out(
    d: TrustV,
    bind: EnrollBind,
    authenticated: PeerId,
    issuer_key: Seq<u8>,
    issuer: PeerId,
    c: BindCertificate,
    now: u64,
)
    requires
        d.revoked.dom().contains(char_rank(bind.token.token_id@)),
        d.revoked.dom().contains(char_rank(c.token_id@)),
    ensures
        bind_fault(d, bind, authenticated, now, issuer_key) is Some,
        install_fault(d, issuer, c, now) is Some,
{
}

/// A token that names no guest is bound by the first that comes: no other is bound under it.
pub proof fn open_token_binds_one_guest(
    d: TrustV,
    bind: EnrollBind,
    p: TrustedPeer,
    s: StoredBindCertificate,
    other: EnrollBind,
    authenticated: PeerId,
    now: u64,
    issuer: Seq<u8>,
)
    requires
        other.token == bind.token,
        bind.token.audience is None,
        other.guest_peer_id != bind.guest_peer_id,
    ensures
        bind_fault(guest_bound(d, bind, p, s), other, authenticated, now, issuer) is Some,
{
}

/// Pairing is mutual. The device that showed a ticket and the one that answered it each end up
/// trusting the other in full, under the key that the other gave.
pub proof fn pairing_is_mutual(
    host: TrustV,
    joiner: TrustV,
    ticket: PairTicket,
    request: PairRequest,
    accept: PairAccept,
    guest: TrustedPeer,
    owner: TrustedPeer,
)
    requires
        peer_of_request(guest, request),
        peer_of_ticket(owner, ticket, accept),
        request.ticket_id == ticket.ticket_id,
    ensures
        ({
            let key = char_rank(ticket.ticket_id@);
            let waiting = ticket_spent(host, ticket.ticket_id@, ticket.ticket_id, guest, false);
            let rest = TrustV {
                awaiting_pair_confirm: waiting.awaiting_pair_confirm.remove(key),
                ..waiting
            };
            let host_after = peer_paired(rest, ticket.ticket_id, guest);
            let joiner_after = peer_paired(joiner, ticket.ticket_id, owner);
            &&& waiting.awaiting_pair_confirm.dom().contains(key)
            &&& waiting.awaiting_pair_confirm[key] == guest
            &&& host_after == ticket_spent(
                TrustV {
                    awaiting_pair_confirm: host.awaiting_pair_confirm.remove(key),
                    ..host
                },
                ticket.ticket_id@,
                ticket.ticket_id,
                guest,
                true,
            )
            &&& host_after.peers.dom().contains(request.peer_id.rank())
            &&& host_after.peers[request.peer_id.rank()].role is Full
            &&& host_after.peers[request.peer_id.rank()].x25519_pk == request.x25519_pk
            &&& joiner_after.peers.dom().contains(ticket.peer_id.rank())
            &&& joiner_after.peers[ticket.peer_id.rank()].role is Full
            &&& joiner_after.peers[ticket.peer_id.rank()].x25519_pk == ticket.x25519_pk
        }),
{
    let key = char_rank(ticket.ticket_id@);
    assert(host.awaiting_pair_confirm.insert(key, guest).remove(key)
        =~= host.awaiting_pair_confirm.remove(key));
}

} // verus!
