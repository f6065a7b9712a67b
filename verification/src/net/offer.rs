//! Offers: one device tells another about a snapshot, and whether the other takes it.
use vstd::prelude::*;

use crate::base64::{base64_decode, base64_text};
use crate::capsule::{lease_hash, Genesis, LabelOp, LeaseRecord};
use crate::cas::Digest;
use crate::faithful::parsed;
use crate::identity::PeerId;
use crate::manifest::{Manifest, RawManifest, Scope};
use crate::net::auth::{
    scopes_allow, token_verify, Direction, MeshProfile, Role, MAX_REVOCATIONS_PER_MESSAGE,
};
use crate::net::bind::{same_certificate, BindCertificate, Revocation};
use crate::net::clock::{parse_time, time_of};
use crate::net::enroll::{guest_of_certificate, install_fault};
use crate::net::error::Error;
use crate::net::pairing::TrustV;
use crate::net::revoke::revocations_received;
use crate::net::trust::{peer_allows, LocalRole, StoredBindCertificate, TrustStore, TrustedPeer};
use crate::order::{char_rank, Key};

verus! {

/// The most leases that an offer carries.
pub const MAX_LEASE_CHAIN_LEN: usize = 256;

/// A snapshot that one device would send to another.
#[derive(Clone, Debug, PartialEq, Eq)]
pub struct Offer {
    pub message_type: String,
    pub offer_id: String,
    pub snapshot_id: Digest,
    pub scope: Scope,
    pub kind: String,
    pub title: String,
    pub capsule_id: Option<Digest>,
    pub fork: bool,
    pub bytes_hint: u64,
    pub object_count: u64,
    pub manifest_raw: String,
    pub genesis: Option<Genesis>,
    pub genesis_grant: Option<LeaseRecord>,
    pub lease_chain: Vec<LeaseRecord>,
    pub main_label: Option<LabelOp>,
    pub bind_certificate_issuer: Option<PeerId>,
    pub bind_certificate: Option<BindCertificate>,
    pub revocations: Vec<Revocation>,
}

/// The answer that takes an offer.
#[derive(Debug, PartialEq, Eq)]
pub struct OfferAccept {
    pub message_type: String,
    pub offer_id: String,
}

/// The answer that does not.
#[derive(Debug, PartialEq, Eq)]
pub struct OfferReject {
    pub message_type: String,
    pub offer_id: String,
    pub reason: String,
}

/// The first place where one lease does not follow the other.
pub open spec fn chain_fault(s: Seq<LeaseRecord>, i: int) -> Option<Error>
    decreases s.len() - i,
{
    if i < 0 || i + 1 >= s.len() {
        None
    } else if s[i + 1].epoch != s[i].epoch + 1 {
        Some(Error::Protocol("lease chain is not strictly contiguous"))
    } else {
        match lease_hash(s[i]) {
            Err(e) => Some(Error::Core(e)),
            Ok(h) => if s[i + 1].prev_hash.0@ != h {
                Some(Error::Protocol("lease chain is not strictly contiguous"))
            } else {
                chain_fault(s, i + 1)
            },
        }
    }
}

/// The state of a capsule that comes with an offer is all of one capsule.
pub open spec fn bundle_of(offer: Offer, capsule: Digest) -> bool {
    &&& offer.genesis matches Some(g) ==> g.capsule_id == capsule
    &&& offer.genesis_grant matches Some(g) ==> g.capsule_id == capsule
    &&& forall|i: int|
        0 <= i < offer.lease_chain@.len() ==> (#[trigger] offer.lease_chain@[i]).capsule_id
            == capsule
    &&& offer.main_label matches Some(op) ==> op.capsule_id == capsule
}

/// The offer carries the state of some capsule.
pub open spec fn carries_state(offer: Offer) -> bool {
    offer.genesis is Some || offer.genesis_grant is Some || offer.lease_chain@.len() > 0
        || offer.main_label is Some
}

/// What is wrong with an offer on its face.
pub open spec fn offer_form(offer: Offer, raw: RawManifest) -> Option<Error> {
    let m = raw.manifest;
    if raw.id != offer.snapshot_id {
        Some(Error::Protocol("offer snapshot id mismatch"))
    } else if offer.lease_chain@.len() > MAX_LEASE_CHAIN_LEN {
        Some(Error::Protocol("lease chain exceeds 256 records"))
    } else if chain_fault(offer.lease_chain@, 0) is Some {
        chain_fault(offer.lease_chain@, 0)
    } else if offer.capsule_id != m.capsule_id {
        Some(Error::Protocol("offer capsule differs from manifest"))
    } else {
        match m.capsule_id {
            Some(c) => if bundle_of(offer, c) {
                None
            } else {
                Some(Error::Protocol("offer capsule-state bundle mismatch"))
            },
            None => if carries_state(offer) {
                Some(Error::Protocol("partial offer carries capsule state"))
            } else {
                None
            },
        }
    }
}

fn first_chain_fault(s: &Vec<LeaseRecord>) -> (r: Option<Error>)
    ensures
        r == chain_fault(s@, 0),
{
    let mut i: usize = 0;
    while s.len() > 0 && i < s.len() - 1
        invariant
            i <= s@.len(),
            s@.len() > 0 ==> i <= s@.len() - 1,
            chain_fault(s@, 0) == chain_fault(s@, i as int),
        decreases s.len() - i,
    {
        if s[i].epoch == u64::MAX || s[i + 1].epoch != s[i].epoch + 1 {
            return Some(Error::Protocol("lease chain is not strictly contiguous"));
        }
        match s[i].hash() {
            Err(e) => {
                return Some(Error::Core(e));
            },
            Ok(h) => {
                proof {
                    crate::bytes::array_extensional(h.0, s@[i + 1].prev_hash.0);
                }
                if !s[i + 1].prev_hash.same(&h) {
                    return Some(Error::Protocol("lease chain is not strictly contiguous"));
                }
            },
        }
        i += 1;
    }
    None
}

fn check_bundle(offer: &Offer, capsule: &Digest) -> (r: bool)
    ensures
        r == bundle_of(*offer, *capsule),
{
    match &offer.genesis {
        Some(g) => {
            if !g.capsule_id.same(capsule) {
                return false;
            }
        },
        None => {},
    }
    match &offer.genesis_grant {
        Some(g) => {
            if !g.capsule_id.same(capsule) {
                return false;
            }
        },
        None => {},
    }
    match &offer.main_label {
        Some(op) => {
            if !op.capsule_id.same(capsule) {
                return false;
            }
        },
        None => {},
    }
    let mut i: usize = 0;
    while i < offer.lease_chain.len()
        invariant
            i <= offer.lease_chain@.len(),
            forall|j: int|
                0 <= j < i ==> (#[trigger] offer.lease_chain@[j]).capsule_id == *capsule,
        decreases offer.lease_chain.len() - i,
    {
        if !offer.lease_chain[i].capsule_id.same(capsule) {
            return false;
        }
        i += 1;
    }
    true
}

/// Whether two capsules, or the lack of one, are the same.
fn same_capsule(a: &Option<Digest>, b: &Option<Digest>) -> (r: bool)
    ensures
        r == (*a == *b),
{
    match (a, b) {
        (Some(x), Some(y)) => x.same(y),
        (None, None) => true,
        _ => false,
    }
}

fn check_offer_form(offer: &Offer, raw: &RawManifest) -> (r: Option<Error>)
    ensures
        r == offer_form(*offer, *raw),
{
    if !raw.id.same(&offer.snapshot_id) {
        return Some(Error::Protocol("offer snapshot id mismatch"));
    }
    if offer.lease_chain.len() > MAX_LEASE_CHAIN_LEN {
        return Some(Error::Protocol("lease chain exceeds 256 records"));
    }
    match first_chain_fault(&offer.lease_chain) {
        Some(e) => {
            return Some(e);
        },
        None => {},
    }
    if !same_capsule(&offer.capsule_id, &raw.manifest.capsule_id) {
        return Some(Error::Protocol("offer capsule differs from manifest"));
    }
    match &raw.manifest.capsule_id {
        Some(c) => {
            if !check_bundle(offer, c) {
                return Some(Error::Protocol("offer capsule-state bundle mismatch"));
            }
        },
        None => {
            if offer.genesis.is_some() || offer.genesis_grant.is_some() || offer.lease_chain.len()
                > 0 || offer.main_label.is_some() {
                return Some(Error::Protocol("partial offer carries capsule state"));
            }
        },
    }
    None
}

/// A certificate comes with the offer, for the origin of the snapshot, from a full sender that
/// issued it.
pub open spec fn vouched(offer: Offer, from: PeerId, origin: PeerId, sender_full: bool) -> bool {
    &&& offer.bind_certificate_issuer matches Some(issuer) && issuer == from
    &&& offer.bind_certificate matches Some(c) && c.guest_peer_id == origin
    &&& sender_full
}

/// The store before and after a certificate was taken in.
pub open spec fn certified(d: TrustV, after: TrustV, issuer: PeerId, c: BindCertificate) -> bool {
    exists|p: TrustedPeer, s: StoredBindCertificate| #[trigger]
        guest_of_certificate(p, c) && s.issuer == issuer && #[trigger] same_certificate(
            s.certificate,
            c,
        ) && after == (TrustV {
            peers: d.peers.insert(c.guest_peer_id.rank(), p),
            bind_certificates: d.bind_certificates.insert(c.guest_peer_id.rank(), s),
            ..d
        })
}

/// What `admit_origin` answers: the origin is trusted, or the sender vouches for it.
pub open spec fn origin_fault(d: TrustV, offer: Offer, from: PeerId, origin: PeerId, now: u64) -> Option<
    Error,
> {
    if !d.peers.dom().contains(from.rank()) {
        Some(Error::Authorization("untrusted peer"))
    } else if d.peers.dom().contains(origin.rank()) {
        None
    } else if vouched(offer, from, origin, d.peers[from.rank()].role is Full) && install_fault(
        d,
        from,
        offer.bind_certificate->0,
        now,
    ) is None {
        None
    } else {
        Some(Error::Authorization("untrusted manifest origin"))
    }
}

/// A certificate and its copy are accepted or refused alike.
proof fn same_fault(d: TrustV, issuer: PeerId, a: BindCertificate, b: BindCertificate, now: u64)
    requires
        same_certificate(a, b),
    ensures
        install_fault(d, issuer, a, now) == install_fault(d, issuer, b, now),
{
    assert(crate::net::bind::certificate_members(a, None)
        =~= crate::net::bind::certificate_members(b, None));
}

/// Makes sure that the origin of a snapshot is trusted.
fn admit_origin(
    trust: &mut TrustStore,
    offer: &Offer,
    from: PeerId,
    origin: PeerId,
    now: u64,
) -> (r: Result<(), Error>)
    requires
        old(trust).wf(),
    ensures
        final(trust).wf(),
        ({
            let d = old(trust).disk@;
            match r {
                Err(e) => origin_fault(d, *offer, from, origin, now) == Some(e)
                    && final(trust).disk@ == d,
                Ok(()) => {
                    &&& origin_fault(d, *offer, from, origin, now) is None
                    &&& if d.peers.dom().contains(origin.rank()) {
                        final(trust).disk@ == d
                    } else {
                        certified(d, final(trust).disk@, from, offer.bind_certificate->0)
                    }
                },
            }
        }),
{
    let full = match trust.get(&from) {
        None => {
            return Err(Error::Authorization("untrusted peer"));
        },
        Some(p) => p.role == Role::Full,
    };
    if trust.get(&origin).is_some() {
        return Ok(());
    }
    let issued = match &offer.bind_certificate_issuer {
        Some(issuer) => issuer.same(&from),
        None => false,
    };
    if !issued || !full {
        return Err(Error::Authorization("untrusted manifest origin"));
    }
    match &offer.bind_certificate {
        None => Err(Error::Authorization("untrusted manifest origin")),
        Some(c) => {
            if !c.guest_peer_id.same(&origin) {
                return Err(Error::Authorization("untrusted manifest origin"));
            }
            let copy = c.clone();
            let ghost d = trust.disk@;
            proof {
                same_fault(d, from, copy, *c, now);
            }
            match trust.install_bind_certificate(from, copy, now) {
                Err(_) => Err(Error::Authorization("untrusted manifest origin")),
                Ok(()) => {
                    proof {
                        let p = choose|p: TrustedPeer| #[trigger]
                            guest_of_certificate(p, copy) && trust.disk@ == (TrustV {
                                peers: d.peers.insert(copy.guest_peer_id.rank(), p),
                                bind_certificates: d.bind_certificates.insert(
                                    copy.guest_peer_id.rank(),
                                    StoredBindCertificate { issuer: from, certificate: copy },
                                ),
                                ..d
                            });
                        let s = StoredBindCertificate { issuer: from, certificate: copy };
                        assert(guest_of_certificate(p, *c));
                        assert(same_certificate(s.certificate, *c));
                    }
                    Ok(())
                },
            }
        },
    }
}

/// A guest's time is up, or cannot be read.
pub open spec fn origin_expiry(p: TrustedPeer, now: u64) -> Option<Error> {
    if p.role is Full {
        None
    } else {
        match p.expires_at {
            None => Some(Error::Authorization("manifest origin expired")),
            Some(t) => match time_of(t@) {
                Err(e) => Some(e),
                Ok(end) => if now > end {
                    Some(Error::Authorization("manifest origin expired"))
                } else {
                    None
                },
            },
        }
    }
}

/// What keeps a guest from sending this.
pub open spec fn guest_sender_fault(d: TrustV, p: TrustedPeer, m: Manifest, now: u64) -> Option<
    Error,
> {
    if p.role is Full {
        None
    } else if !(d.local_role is Full) && d.mesh_profile is Personal {
        Some(Error::Authorization("guest-to-guest forbidden"))
    } else if p.token_id is None {
        Some(Error::Authorization("guest lacks token"))
    } else if d.revoked.dom().contains(char_rank(p.token_id->0@)) {
        Some(Error::Authorization("guest sender out of scope"))
    } else {
        match p.expires_at {
            None => Some(Error::Authorization("guest sender out of scope")),
            Some(t) => match time_of(t@) {
                Err(e) => Some(e),
                Ok(end) => if now > end || !peer_allows(
                    p,
                    m.capsule_id,
                    m.kind@,
                    Direction::Send,
                ) {
                    Some(Error::Authorization("guest sender out of scope"))
                } else {
                    None
                },
            },
        }
    }
}

/// What keeps this device, where it is a guest itself, from receiving this.
pub open spec fn guest_receiver_fault(d: TrustV, p: TrustedPeer, m: Manifest, now: u64) -> Option<
    Error,
> {
    match d.local_role {
        LocalRole::Full => None,
        LocalRole::Guest { token } => if !(p.role is Full) && d.mesh_profile is Personal {
            Some(Error::Authorization("guest-to-guest or unknown counterparty forbidden"))
        } else if token_verify(*token, now) is Err {
            Some(token_verify(*token, now)->Err_0)
        } else if !scopes_allow(token.scopes, m.capsule_id, m.kind@, Direction::Receive) {
            Some(Error::Authorization("local guest receive out of scope"))
        } else if p.role is Guest && !peer_allows(p, m.capsule_id, m.kind@, Direction::Send) {
            Some(Error::Authorization("guest sender out of scope"))
        } else {
            None
        },
    }
}

/// What keeps a snapshot out, once its origin is known.
pub open spec fn admission_fault(d: TrustV, from: PeerId, m: Manifest, now: u64) -> Option<Error> {
    let sender = d.peers[from.rank()];
    if !d.peers.dom().contains(m.origin.rank()) {
        Some(Error::Authorization("untrusted manifest origin"))
    } else if origin_expiry(d.peers[m.origin.rank()], now) is Some {
        origin_expiry(d.peers[m.origin.rank()], now)
    } else if guest_sender_fault(d, sender, m, now) is Some {
        guest_sender_fault(d, sender, m, now)
    } else {
        guest_receiver_fault(d, sender, m, now)
    }
}

fn check_origin_expiry(p: &TrustedPeer, now: u64) -> (r: Option<Error>)
    ensures
        r == origin_expiry(*p, now),
{
    if p.role == Role::Full {
        return None;
    }
    match &p.expires_at {
        None => Some(Error::Authorization("manifest origin expired")),
        Some(t) => match parse_time(t.as_str()) {
            Err(e) => Some(e),
            Ok(end) => if now > end {
                Some(Error::Authorization("manifest origin expired"))
            } else {
                None
            },
        },
    }
}

fn peer_lets(p: &TrustedPeer, m: &Manifest, direction: Direction) -> (r: bool)
    ensures
        r == peer_allows(*p, m.capsule_id, m.kind@, direction),
{
    match &p.scopes {
        None => false,
        Some(s) => s.allows(m.capsule_id, m.kind.as_str(), direction),
    }
}

fn check_guest_sender(trust: &TrustStore, p: &TrustedPeer, m: &Manifest, now: u64) -> (r: Option<
    Error,
>)
    requires
        trust.wf(),
    ensures
        r == guest_sender_fault(trust.disk@, *p, *m, now),
{
    if p.role == Role::Full {
        return None;
    }
    let local_full = match &trust.disk.local_role {
        LocalRole::Full => true,
        LocalRole::Guest { .. } => false,
    };
    if !local_full && trust.disk.mesh_profile == MeshProfile::Personal {
        return Some(Error::Authorization("guest-to-guest forbidden"));
    }
    match &p.token_id {
        None => {
            return Some(Error::Authorization("guest lacks token"));
        },
        Some(t) => {
            if trust.is_revoked(t.as_str()) {
                return Some(Error::Authorization("guest sender out of scope"));
            }
        },
    }
    match &p.expires_at {
        None => Some(Error::Authorization("guest sender out of scope")),
        Some(t) => match parse_time(t.as_str()) {
            Err(e) => Some(e),
            Ok(end) => if now > end || !peer_lets(p, m, Direction::Send) {
                Some(Error::Authorization("guest sender out of scope"))
            } else {
                None
            },
        },
    }
}

fn check_guest_receiver(trust: &TrustStore, p: &TrustedPeer, m: &Manifest, now: u64) -> (r: Option<
    Error,
>)
    ensures
        r == guest_receiver_fault(trust.disk@, *p, *m, now),
{
    match &trust.disk.local_role {
        LocalRole::Full => None,
        LocalRole::Guest { token } => {
            if p.role != Role::Full && trust.disk.mesh_profile == MeshProfile::Personal {
                return Some(
                    Error::Authorization("guest-to-guest or unknown counterparty forbidden"),
                );
            }
            match token.verify(now) {
                Ok(()) => {},
                Err(e) => {
                    return Some(e);
                },
            }
            if !token.scopes.allows(m.capsule_id, m.kind.as_str(), Direction::Receive) {
                return Some(Error::Authorization("local guest receive out of scope"));
            }
            if p.role == Role::Guest && !peer_lets(p, m, Direction::Send) {
                return Some(Error::Authorization("guest sender out of scope"));
            }
            None
        },
    }
}

/// Decides about an offer whose manifest was read. The sender has to be trusted, and the origin
/// of the snapshot too, or vouched for by the sender; guests keep to their scopes.
pub fn admit_offer(
    trust: &mut TrustStore,
    offer: &Offer,
    raw: &RawManifest,
    from: PeerId,
    now: u64,
) -> (r: Result<(), Error>)
    requires
        old(trust).wf(),
    ensures
        final(trust).wf(),
        ({
            let d = old(trust).disk@;
            let after = final(trust).disk@;
            let m = raw.manifest;
            let form = offer_form(*offer, *raw);
            let origin = origin_fault(d, *offer, from, m.origin, now);
            if form is Some {
                r == Err::<(), Error>(form->0) && after == d
            } else if origin is Some {
                r == Err::<(), Error>(origin->0) && after == d
            } else {
                &&& if d.peers.dom().contains(m.origin.rank()) {
                    after == d
                } else {
                    certified(d, after, from, offer.bind_certificate->0)
                }
                &&& r == match admission_fault(after, from, m, now) {
                    Some(e) => Err::<(), Error>(e),
                    None => Ok(()),
                }
            }
        }),
{
    match check_offer_form(offer, raw) {
        Some(e) => {
            return Err(e);
        },
        None => {},
    }
    let m = &raw.manifest;
    match admit_origin(trust, offer, from, m.origin, now) {
        Ok(()) => {},
        Err(e) => {
            return Err(e);
        },
    }
    match trust.get(&m.origin) {
        None => {
            return Err(Error::Authorization("untrusted manifest origin"));
        },
        Some(p) => {
            match check_origin_expiry(p, now) {
                Some(e) => {
                    return Err(e);
                },
                None => {},
            }
        },
    }
    match trust.get(&from) {
        None => Err(Error::Authorization("untrusted peer")),
        Some(sender) => {
            match check_guest_sender(trust, sender, m, now) {
                Some(e) => {
                    return Err(e);
                },
                None => {},
            }
            match check_guest_receiver(trust, sender, m, now) {
                Some(e) => {
                    return Err(e);
                },
                None => {},
            }
            Ok(())
        },
    }
}

/// The bytes of the manifest in an offer.
pub fn offer_manifest(offer: &Offer) -> (r: Result<Vec<u8>, Error>)
    ensures
        r matches Ok(b) ==> base64_text(b@) == offer.manifest_raw@,
        r matches Err(e) ==> e == Error::Protocol("bad manifest base64") && forall|b: Seq<u8>|
            #[trigger] base64_text(b) != offer.manifest_raw@,
{
    match base64_decode(offer.manifest_raw.as_str()) {
        Some(b) => Ok(b),
        None => Err(Error::Protocol("bad manifest base64")),
    }
}

/// What is answered to an offer, and what is stored.
pub open spec fn offer_outcome(
    d0: TrustV,
    after: TrustV,
    offer: Offer,
    from: PeerId,
    now: u64,
    r: Result<RawManifest, Error>,
) -> bool {
    let d = revocations_received(d0, offer.revocations@, now);
    if offer.revocations@.len() > MAX_REVOCATIONS_PER_MESSAGE {
        after == d0 && r == Err::<RawManifest, Error>(
            Error::Protocol("revocation list exceeds 128 records"),
        )
    } else if forall|b: Seq<u8>| #[trigger] base64_text(b) != offer.manifest_raw@ {
        after == d && r == Err::<RawManifest, Error>(Error::Protocol("bad manifest base64"))
    } else {
        exists|b: Seq<u8>, read: Result<RawManifest, crate::error::Error>| #[trigger]
            parsed(b, read) && base64_text(b) == offer.manifest_raw@ && match read {
                Err(e) => after == d && r == Err::<RawManifest, Error>(Error::Core(e)),
                Ok(raw) => offer_decided(d, after, offer, raw, from, now, r),
            }
    }
}

/// Decides about an offer. The revocations that come with it are taken in first.
pub fn validate_incoming_offer(
    trust: &mut TrustStore,
    offer: &Offer,
    from: PeerId,
    now: u64,
) -> (r: Result<RawManifest, Error>)
    requires
        old(trust).wf(),
    ensures
        final(trust).wf(),
        offer_outcome(old(trust).disk@, final(trust).disk@, *offer, from, now, r),
{
    match trust.apply_revocations(&offer.revocations, now) {
        Ok(_) => {},
        Err(e) => {
            return Err(e);
        },
    }
    let bytes = match offer_manifest(offer) {
        Ok(b) => b,
        Err(e) => {
            return Err(e);
        },
    };
    assert(base64_text(bytes@) == offer.manifest_raw@);
    let ghost b = bytes@;
    let read = RawManifest::parse(bytes);
    assert(parsed(b, read));
    match read {
        Err(e) => Err(Error::Core(e)),
        Ok(raw) => match admit_offer(trust, offer, &raw, from, now) {
            Ok(()) => Ok(raw),
            Err(e) => Err(e),
        },
    }
}

/// What is answered, and what is stored, once the manifest of an offer was read.
pub open spec fn offer_decided(
    d: TrustV,
    after: TrustV,
    offer: Offer,
    raw: RawManifest,
    from: PeerId,
    now: u64,
    r: Result<RawManifest, Error>,
) -> bool {
    let form = offer_form(offer, raw);
    let origin = origin_fault(d, offer, from, raw.manifest.origin, now);
    if form is Some {
        r == Err::<RawManifest, Error>(form->0) && after == d
    } else if origin is Some {
        r == Err::<RawManifest, Error>(origin->0) && after == d
    } else {
        &&& if d.peers.dom().contains(raw.manifest.origin.rank()) {
            after == d
        } else {
            certified(d, after, from, offer.bind_certificate->0)
        }
        &&& r == match admission_fault(after, from, raw.manifest, now) {
            Some(e) => Err::<RawManifest, Error>(e),
            None => Ok(raw),
        }
    }
}

/// Nothing is taken from somebody who is not trusted.
pub proof fn strangers_send_nothing(d: TrustV, offer: Offer, from: PeerId, origin: PeerId, now: u64)
    requires
        !d.peers.dom().contains(from.rank()),
    ensures
        origin_fault(d, offer, from, origin, now) is Some,
{
}

/// A guest sends nothing outside the capsules and kinds of its scopes.
pub proof fn guests_keep_to_their_scopes(d: TrustV, from: PeerId, m: Manifest, now: u64)
    requires
        d.peers.dom().contains(from.rank()),
        d.peers[from.rank()].role is Guest,
        !peer_allows(d.peers[from.rank()], m.capsule_id, m.kind@, Direction::Send),
    ensures
        admission_fault(d, from, m, now) is Some,
{
}

} // verus!
