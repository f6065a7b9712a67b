//! Offering a snapshot: who may be offered what, the plan of its objects, and the offer itself.
use vstd::prelude::*;

use crate::base64::{base64_encode, base64_text};
use crate::bytes::copy_bytes;
use crate::capsule::{LabelOp, LeaseMode, LeaseRecord};
use crate::cas::{hash_rank_injective, Digest};
use crate::history::{lease_at, Capsule};
use crate::identity::PeerId;
use crate::manifest::{NativeBlobRef, RawManifest};
use crate::net::auth::{
    scopes_allow, token_verify, Direction, MeshProfile, Role, FEATURE_BIND_CERT,
    FEATURE_REVOCATION, MAX_REVOCATIONS_PER_MESSAGE,
};
use crate::net::bind::{same_certificate, BindCertificate};
use crate::net::clock::{parse_time, time_of};
use crate::net::error::Error;
use crate::net::hello::{has_feature, names_feature};
use crate::net::offer::{Offer, MAX_LEASE_CHAIN_LEN};
use crate::net::outbox::{given_up, overdue, queued, Outbox, OutboxEntry, OutboxState};
use crate::net::plan::{
    declared_size, is_native, native_rank, object_valid, plan_fault, total_bytes, Plan, PlanObject,
    MAX_NATIVE_OBJECT_SIZE, MAX_OBJECT_SIZE,
};
use crate::net::revoke::newest_first;
use crate::net::trust::{LocalRole, StoredBindCertificate, TrustDisk, TrustStore};
use crate::order::{char_rank, Key};
use crate::store::CapsuleV;
use crate::table::Table;
use crate::util::hex_text;

verus! {

/// What keeps a device from sending a snapshot to a peer.
pub open spec fn enqueue_fault(
    d: TrustDisk,
    peer: PeerId,
    capsule: Option<Digest>,
    kind: Seq<char>,
    allow_agent_send: bool,
    now: u64,
) -> Option<Error> {
    if !d.peers@.dom().contains(peer.rank()) {
        Some(Error::Authorization("unknown or untrusted recipient"))
    } else {
        let recipient = d.peers@[peer.rank()];
        match d.local_role {
            LocalRole::Full => None,
            LocalRole::Guest { token } => if !allow_agent_send || !token.scopes.send
                || token_verify(*token, now) is Err {
                Some(Error::Authorization("local agent sending disabled"))
            } else if recipient.role is Guest && (d.mesh_profile is Personal || !(
            recipient.scopes matches Some(s) && scopes_allow(s, capsule, kind, Direction::Receive))) {
                Some(Error::Authorization("guest-to-guest delivery forbidden or out of scope"))
            } else {
                None
            },
        }
    }
}

/// Whether this device may send a snapshot to a peer.
pub fn authorize_enqueue(
    trust: &TrustStore,
    peer: PeerId,
    capsule: Option<Digest>,
    kind: &str,
    allow_agent_send: bool,
    now: u64,
) -> (r: Result<(), Error>)
    requires
        trust.wf(),
    ensures
        r matches Err(e) ==> enqueue_fault(trust.disk, peer, capsule, kind@, allow_agent_send, now)
            == Some(e),
        r is Ok ==> enqueue_fault(trust.disk, peer, capsule, kind@, allow_agent_send, now) is None,
{
    let recipient = match trust.get(&peer) {
        None => {
            return Err(Error::Authorization("unknown or untrusted recipient"));
        },
        Some(p) => p,
    };
    match trust.local_role() {
        LocalRole::Full => Ok(()),
        LocalRole::Guest { token } => {
            if !allow_agent_send || !token.scopes.send || token.verify(now).is_err() {
                return Err(Error::Authorization("local agent sending disabled"));
            }
            if recipient.role == Role::Guest {
                let allowed = match &recipient.scopes {
                    Some(s) => s.allows(capsule, kind, Direction::Receive),
                    None => false,
                };
                if trust.mesh_profile() == MeshProfile::Personal || !allowed {
                    return Err(
                        Error::Authorization("guest-to-guest delivery forbidden or out of scope"),
                    );
                }
            }
            Ok(())
        },
    }
}

/// Puts a snapshot into the outbox, where it may be sent; returns the id of the entry.
pub fn enqueue(
    trust: &TrustStore,
    outbox: &mut Outbox,
    peer: PeerId,
    raw: &RawManifest,
    allow_agent_send: bool,
    now: u64,
) -> (r: Result<String, Error>)
    requires
        trust.wf(),
        old(outbox).wf(),
    ensures
        final(outbox).wf(),
        old(outbox).own_ids() ==> final(outbox).own_ids(),
        ({
            let fault = enqueue_fault(
                trust.disk,
                peer,
                raw.manifest.capsule_id,
                raw.manifest.kind@,
                allow_agent_send,
                now,
            );
            match r {
                Err(e) => fault == Some(e) && *final(outbox) == *old(outbox),
                Ok(id) => {
                    &&& fault is None
                    &&& final(outbox).entries@ == old(outbox).entries@.insert(
                        char_rank(id@),
                        final(outbox).at(id@),
                    )
                    &&& exists|offer: [u8; 16]| #[trigger]
                        queued(
                            final(outbox).at(id@),
                            id@,
                            hex_text(offer@),
                            peer,
                            raw.id,
                            raw.bytes@,
                            now,
                        )
                },
            }
        }),
{
    match authorize_enqueue(
        trust,
        peer,
        raw.manifest.capsule_id,
        raw.manifest.kind.as_str(),
        allow_agent_send,
        now,
    ) {
        Err(e) => Err(e),
        Ok(()) => Ok(outbox.enqueue(peer, raw.id, copy_bytes(raw.bytes.as_slice()), now)),
    }
}

/// Whether a guest device may send this snapshot at all.
pub fn authorize_local_send(
    trust: &TrustStore,
    capsule: Option<Digest>,
    kind: &str,
    allow_agent_send: bool,
) -> (r: Result<(), Error>)
    ensures
        r == match trust.disk.local_role {
            LocalRole::Full => Ok::<(), Error>(()),
            LocalRole::Guest { token } => if allow_agent_send && scopes_allow(
                token.scopes,
                capsule,
                kind@,
                Direction::Send,
            ) {
                Ok(())
            } else {
                Err(Error::Authorization("local guest send out of scope"))
            },
        },
{
    match trust.local_role() {
        LocalRole::Full => Ok(()),
        LocalRole::Guest { token } => if allow_agent_send && token.scopes.allows(
            capsule,
            kind,
            Direction::Send,
        ) {
            Ok(())
        } else {
            Err(Error::Authorization("local guest send out of scope"))
        },
    }
}

/// What keeps an entry of the outbox from being sent to a connected peer.
pub open spec fn entry_fault(outbox: Outbox, id: Seq<char>, recipient: PeerId, now: u64) -> Option<
    Error,
> {
    let e = outbox.at(id);
    if !outbox.has(id) {
        Some(Error::Protocol("unknown outbox id"))
    } else if e.peer_id != recipient {
        Some(Error::Authentication("connected recipient differs from outbox"))
    } else if e.state is Expired || overdue(e, now) {
        Some(Error::Protocol("outbox entry expired"))
    } else {
        match time_of(e.next_attempt_at@) {
            Err(x) => Some(x),
            Ok(t) => if t > now {
                Some(Error::Protocol("outbox backoff active"))
            } else {
                None
            },
        }
    }
}

/// Checks that an entry is for the connected peer, still live, and past its wait. What has waited
/// too long is given up on the way.
pub fn check_outbox_entry(outbox: &mut Outbox, id: &str, recipient: PeerId, now: u64) -> (r: Result<
    (),
    Error,
>)
    requires
        old(outbox).wf(),
    ensures
        final(outbox).wf(),
        old(outbox).own_ids() ==> final(outbox).own_ids(),
        r matches Err(e) ==> entry_fault(*old(outbox), id@, recipient, now) == Some(e),
        r is Ok ==> entry_fault(*old(outbox), id@, recipient, now) is None && final(outbox).at(id@)
            == old(outbox).at(id@),
        if !old(outbox).has(id@) || old(outbox).at(id@).peer_id != recipient {
            *final(outbox) == *old(outbox)
        } else {
            given_up(*old(outbox), *final(outbox), now)
        },
{
    match outbox.get(id) {
        None => {
            return Err(Error::Protocol("unknown outbox id"));
        },
        Some(e) => {
            if !e.peer_id.same(&recipient) {
                return Err(Error::Authentication("connected recipient differs from outbox"));
            }
        },
    }
    outbox.expire(now);
    match outbox.get(id) {
        None => Err(Error::Protocol("unknown outbox id")),
        Some(e) => {
            assert(outbox.entries@.dom().contains(char_rank(id@)));
            if e.state == OutboxState::Expired {
                return Err(Error::Protocol("outbox entry expired"));
            }
            match parse_time(e.next_attempt_at.as_str()) {
                Err(x) => Err(x),
                Ok(t) => if t > now {
                    Err(Error::Protocol("outbox backoff active"))
                } else {
                    Ok(())
                },
            }
        },
    }
}

/// An object of the store: its digest, its size, and whether it reads as a directory.
#[derive(Clone, Copy, Debug, PartialEq, Eq)]
pub struct StoredObject {
    pub digest: Digest,
    pub size: u64,
    pub tree: bool,
}

/// The object in a plan.
pub open spec fn planned(x: StoredObject, native: Map<Seq<int>, ()>, p: PlanObject) -> bool {
    &&& p.digest == x.digest
    &&& p.bytes == x.size
    &&& p.kind@ == if !native.dom().contains(x.digest.rank()) && x.tree {
        "tree"@
    } else {
        "blob"@
    }
}

/// The largest size of an object.
pub open spec fn size_limit(d: Digest, native: Map<Seq<int>, ()>) -> u64 {
    if native.dom().contains(d.rank()) {
        MAX_NATIVE_OBJECT_SIZE
    } else {
        MAX_OBJECT_SIZE
    }
}

/// The sizes of objects together.
pub open spec fn total_size(s: Seq<StoredObject>) -> int
    decreases s.len(),
{
    if s.len() == 0 {
        0
    } else {
        total_size(s.drop_last()) + s.last().size
    }
}

/// The first object that is too large, or that brings the sum beyond what can be counted.
pub open spec fn plan_stops(s: Seq<StoredObject>, native: Map<Seq<int>, ()>, i: int) -> Option<Error>
    decreases s.len() - i,
{
    if i < 0 || i >= s.len() {
        None
    } else if s[i].size > size_limit(s[i].digest, native) {
        Some(Error::Protocol("stored object exceeds delivery limit"))
    } else if total_size(s.take(i + 1)) > u64::MAX {
        Some(Error::Protocol("offer byte count overflow"))
    } else {
        plan_stops(s, native, i + 1)
    }
}

/// The plan of a snapshot's objects, and their size together.
pub fn build_plan(stored: &Vec<StoredObject>, native: &Table<Digest, ()>) -> (r: Result<
    (Vec<PlanObject>, u64),
    Error,
>)
    requires
        native.wf(),
    ensures
        r matches Err(e) ==> plan_stops(stored@, native@, 0) == Some(e),
        r matches Ok((objects, sum)) ==> {
            &&& plan_stops(stored@, native@, 0) is None
            &&& objects@.len() == stored@.len()
            &&& forall|i: int|
                0 <= i < stored@.len() ==> planned(stored@[i], native@, #[trigger] objects@[i])
            &&& sum == total_size(stored@)
            &&& sum == total_bytes(objects@)
        },
{
    let mut objects: Vec<PlanObject> = Vec::new();
    let mut sum: u64 = 0;
    let mut i: usize = 0;
    proof {
        assert(stored@.take(0) =~= Seq::<StoredObject>::empty());
    }
    while i < stored.len()
        invariant
            native.wf(),
            i <= stored@.len(),
            plan_stops(stored@, native@, 0) == plan_stops(stored@, native@, i as int),
            objects@.len() == i,
            forall|j: int|
                0 <= j < i ==> planned(stored@[j], native@, #[trigger] objects@[j]),
            sum == total_size(stored@.take(i as int)),
            sum == total_bytes(objects@),
        decreases stored.len() - i,
    {
        let x = stored[i];
        let is_native = native.contains(&x.digest);
        let limit: u64 = if is_native {
            MAX_NATIVE_OBJECT_SIZE
        } else {
            MAX_OBJECT_SIZE
        };
        if x.size > limit {
            return Err(Error::Protocol("stored object exceeds delivery limit"));
        }
        proof {
            assert(stored@.take(i + 1).drop_last() =~= stored@.take(i as int));
            assert(stored@.take(i + 1).last() == stored@[i as int]);
        }
        match sum.checked_add(x.size) {
            None => {
                return Err(Error::Protocol("offer byte count overflow"));
            },
            Some(n) => {
                sum = n;
            },
        }
        let kind = if !is_native && x.tree {
            "tree".to_owned()
        } else {
            "blob".to_owned()
        };
        let ghost before = objects@;
        objects.push(PlanObject { digest: x.digest, kind, bytes: x.size });
        assert(objects@.drop_last() =~= before);
        i += 1;
    }
    assert(stored@.take(i as int) =~= stored@);
    Ok((objects, sum))
}

/// The leases from the second epoch up to this one, each behind the one that it names; nothing
/// where one is missing, or does not stand in an earlier epoch.
pub open spec fn chain_to(s: Seq<LeaseRecord>, r: LeaseRecord) -> Option<Seq<LeaseRecord>>
    decreases r.epoch,
{
    if r.epoch <= 1 {
        Some(Seq::empty())
    } else {
        let i = lease_at(s, r.prev_hash, 0);
        if i < 0 || i >= s.len() || s[i].epoch >= r.epoch {
            None
        } else {
            match chain_to(s, s[i]) {
                None => None,
                Some(t) => Some(t.push(r)),
            }
        }
    }
}

/// The last leases of the chain that leads to the one that holds.
pub open spec fn winning_chain(s: Seq<LeaseRecord>, held: Option<LeaseRecord>) -> Seq<LeaseRecord> {
    match held {
        None => Seq::empty(),
        Some(w) => match chain_to(s, w) {
            None => Seq::empty(),
            Some(t) => if t.len() > MAX_LEASE_CHAIN_LEN {
                t.skip(t.len() - MAX_LEASE_CHAIN_LEN)
            } else {
                t
            },
        },
    }
}

fn find_lease(s: &Vec<LeaseRecord>, h: &Digest) -> (r: usize)
    ensures
        r == lease_at(s@, *h, 0),
        r <= s@.len(),
{
    let mut i: usize = 0;
    while i < s.len()
        invariant
            i <= s@.len(),
            lease_at(s@, *h, 0) == lease_at(s@, *h, i as int),
        decreases s.len() - i,
    {
        if s[i].has_hash(h) {
            return i;
        }
        i += 1;
    }
    i
}

/// The chain of leases that leads to the one that holds, for another device to follow.
pub fn winning_lease_chain(capsule: &Capsule) -> (r: Vec<LeaseRecord>)
    requires
        capsule.wf(),
    ensures
        r@ == winning_chain(capsule@.leases, capsule@.held),
{
    let s = &capsule.leases;
    let mut at: usize = match capsule.winner {
        None => {
            return Vec::new();
        },
        Some(i) => i,
    };
    let ghost w = s@[at as int];
    let mut back: Vec<LeaseRecord> = Vec::new();
    while s[at].epoch > 1
        invariant
            *s == capsule.leases,
            capsule@.held == Some(w),
            at < s@.len(),
            chain_to(s@, w) == match chain_to(s@, s@[at as int]) {
                None => None,
                Some(t) => Some(t + back@.reverse()),
            },
        decreases s@[at as int].epoch,
    {
        let here = &s[at];
        let next = find_lease(s, &here.prev_hash);
        if next >= s.len() || s[next].epoch >= here.epoch {
            return Vec::new();
        }
        let ghost before = back@;
        back.push(here.clone());
        proof {
            match chain_to(s@, s@[next as int]) {
                None => {},
                Some(t) => {
                    assert(t.push(s@[at as int]) + before.reverse() =~= t + back@.reverse());
                },
            }
        }
        at = next;
    }
    proof {
        assert(Seq::<LeaseRecord>::empty() + back@.reverse() =~= back@.reverse());
    }
    let ghost full = back@.reverse();
    let mut out: Vec<LeaseRecord> = Vec::new();
    let keep: usize = if back.len() > MAX_LEASE_CHAIN_LEN {
        MAX_LEASE_CHAIN_LEN
    } else {
        back.len()
    };
    let mut k: usize = keep;
    while k > 0
        invariant
            k <= keep <= back@.len(),
            full == back@.reverse(),
            out@ == full.subrange(full.len() - keep, full.len() - k),
        decreases k,
    {
        out.push(back[k - 1].clone());
        assert(out@ =~= full.subrange(full.len() - keep, full.len() - k + 1));
        k -= 1;
    }
    proof {
        assert(full.subrange(full.len() - keep, full.len() as int) =~= if full.len()
            > MAX_LEASE_CHAIN_LEN {
            full.skip(full.len() - MAX_LEASE_CHAIN_LEN)
        } else {
            full
        });
    }
    out
}

/// The certificate that this device adds for the origin of a snapshot: it is full, the origin is a
/// guest, and it has one.
pub open spec fn certificate_for(d: TrustDisk, origin: PeerId) -> Option<StoredBindCertificate> {
    if d.local_role is Full && d.peers@.dom().contains(origin.rank()) && d.peers@[origin.rank()].role
        is Guest && d.bind_certificates@.dom().contains(origin.rank()) {
        Some(d.bind_certificates@[origin.rank()])
    } else {
        None
    }
}

/// The certificate that goes with an offer.
pub fn offer_bind_certificate(trust: &TrustStore, origin: PeerId) -> (r: (
    Option<PeerId>,
    Option<BindCertificate>,
))
    requires
        trust.wf(),
    ensures
        match certificate_for(trust.disk, origin) {
            None => r.0 is None && r.1 is None,
            Some(s) => r.0 == Some(s.issuer) && (r.1 matches Some(c) && same_certificate(
                c,
                s.certificate,
            )),
        },
{
    match trust.local_role() {
        LocalRole::Full => {},
        LocalRole::Guest { token } => {
            return (None, None);
        },
    }
    let is_guest = match trust.get(&origin) {
        None => false,
        Some(p) => p.role == Role::Guest,
    };
    if !is_guest {
        return (None, None);
    }
    match trust.bind_certificate(&origin) {
        None => (None, None),
        Some(s) => (Some(s.issuer), Some(s.certificate.clone())),
    }
}

/// The first grant of the first epoch, from `i` on.
pub open spec fn first_grant(s: Seq<LeaseRecord>, i: int) -> Option<LeaseRecord>
    decreases s.len() - i,
{
    if i < 0 || i >= s.len() {
        None
    } else if s[i].epoch == 1 && s[i].mode is Grant {
        Some(s[i])
    } else {
        first_grant(s, i + 1)
    }
}

fn genesis_grant(s: &Vec<LeaseRecord>) -> (r: Option<LeaseRecord>)
    ensures
        r == first_grant(s@, 0),
{
    let mut i: usize = 0;
    while i < s.len()
        invariant
            i <= s@.len(),
            first_grant(s@, 0) == first_grant(s@, i as int),
        decreases s.len() - i,
    {
        if s[i].epoch == 1 && s[i].mode == LeaseMode::Grant {
            return Some(s[i].clone());
        }
        i += 1;
    }
    None
}

/// The offer of a snapshot, with what it says of its capsule.
pub open spec fn offers(
    o: Offer,
    entry: OutboxEntry,
    raw: RawManifest,
    capsule: Option<CapsuleV>,
    active_holder: Option<PeerId>,
    bytes_hint: u64,
    object_count: u64,
) -> bool {
    let m = raw.manifest;
    &&& o.message_type@ == "offer"@
    &&& o.offer_id == entry.offer_id
    &&& o.snapshot_id == entry.snapshot_id
    &&& o.scope == m.scope
    &&& o.kind == m.kind
    &&& o.title == m.title
    &&& o.capsule_id == m.capsule_id
    &&& o.fork == (capsule is Some && active_holder != Some(m.origin))
    &&& o.bytes_hint == bytes_hint
    &&& o.object_count == object_count
    &&& o.manifest_raw@ == base64_text(raw.bytes@)
    &&& match capsule {
        None => {
            &&& o.genesis is None
            &&& o.genesis_grant is None
            &&& o.lease_chain@.len() == 0
            &&& o.main_label is None
        },
        Some(c) => {
            &&& o.genesis == Some(c.genesis)
            &&& o.genesis_grant == first_grant(c.leases, 0)
            &&& o.lease_chain@ == winning_chain(c.leases, c.held)
            &&& o.main_label == if c.labels.dom().contains(char_rank("main"@)) {
                Some(c.labels[char_rank("main"@)])
            } else {
                None::<LabelOp>
            }
        },
    }
}

/// The peer whose lease on a capsule has not run out.
pub fn active_holder(capsule: &Capsule, now: u64) -> (r: Option<PeerId>)
    requires
        capsule.wf(),
    ensures
        r == match capsule.held() {
            Some(l) => match time_of(l.expires_at@) {
                Ok(end) => if now < end {
                    Some(l.holder)
                } else {
                    None::<PeerId>
                },
                Err(_) => None,
            },
            None => None,
        },
{
    match capsule.winning_lease() {
        Some(l) => match parse_time(l.expires_at.as_str()) {
            Ok(end) => if now < end {
                Some(l.holder)
            } else {
                None
            },
            Err(_) => None,
        },
        None => None,
    }
}

/// A feature was agreed on in a live session.
pub open spec fn negotiated(features: Option<Seq<String>>, feature: Seq<char>) -> bool {
    features matches Some(f) && names_feature(f, feature)
}

fn has_negotiated(features: Option<&Vec<String>>, feature: &str) -> (r: bool)
    ensures
        r == negotiated(
            match features {
                Some(f) => Some(f@),
                None => None,
            },
            feature@,
        ),
{
    match features {
        Some(f) => has_feature(f.as_slice(), feature),
        None => false,
    }
}

/// The offer of a snapshot, with the certificate and the revocations that the session allows.
pub open spec fn offer_built(
    o: Offer,
    d: TrustDisk,
    capsule: Option<CapsuleV>,
    active_holder: Option<PeerId>,
    entry: OutboxEntry,
    raw: RawManifest,
    bytes_hint: u64,
    object_count: u64,
    now: u64,
    features: Option<Seq<String>>,
) -> bool {
    let stored = if negotiated(features, FEATURE_BIND_CERT@) {
        certificate_for(d, raw.manifest.origin)
    } else {
        None
    };
    let all = newest_first(d.revocations.entries@, now);
    &&& offers(o, entry, raw, capsule, active_holder, bytes_hint, object_count)
    &&& match stored {
        None => o.bind_certificate_issuer is None && o.bind_certificate is None,
        Some(s) => o.bind_certificate_issuer == Some(s.issuer) && (o.bind_certificate matches Some(
            c,
        ) && same_certificate(c, s.certificate)),
    }
    &&& o.revocations@ == if !negotiated(features, FEATURE_REVOCATION@) {
        Seq::empty()
    } else if all.len() > MAX_REVOCATIONS_PER_MESSAGE {
        all.take(MAX_REVOCATIONS_PER_MESSAGE as int)
    } else {
        all
    }
}

/// Builds the offer of a snapshot. `capsule` is the one that the snapshot belongs to, where this
/// device has it, and `active_holder` the peer whose lease on it has not run out. An offer that
/// goes through a relay has no session, and thus no features.
pub fn build_offer(
    trust: &TrustStore,
    capsule: Option<&Capsule>,
    active_holder: Option<PeerId>,
    entry: &OutboxEntry,
    raw: &RawManifest,
    bytes_hint: u64,
    object_count: u64,
    now: u64,
    features: Option<&Vec<String>>,
) -> (r: Offer)
    requires
        trust.wf(),
        capsule matches Some(c) ==> c.wf(),
    ensures
        offer_built(
            r,
            trust.disk,
            match capsule {
                Some(c) => Some(c@),
                None => None,
            },
            active_holder,
            *entry,
            *raw,
            bytes_hint,
            object_count,
            now,
            match features {
                Some(f) => Some(f@),
                None => None,
            },
        ),
{
    let manifest = &raw.manifest;
    let (issuer, certificate) = if has_negotiated(features, FEATURE_BIND_CERT) {
        offer_bind_certificate(trust, manifest.origin)
    } else {
        (None, None)
    };
    let revocations = if has_negotiated(features, FEATURE_REVOCATION) {
        trust.current_revocations(now)
    } else {
        Vec::new()
    };
    let held_by_origin = match &active_holder {
        Some(p) => p.same(&manifest.origin),
        None => false,
    };
    let (genesis, grant, chain, main) = match capsule {
        None => (None, None, Vec::new(), None),
        Some(c) => {
            let main = match c.label("main") {
                Some(op) => Some(op.clone()),
                None => None,
            };
            (Some(c.genesis.clone()), genesis_grant(c.leases()), winning_lease_chain(c), main)
        },
    };
    Offer {
        message_type: "offer".to_owned(),
        offer_id: entry.offer_id.clone(),
        snapshot_id: entry.snapshot_id,
        scope: manifest.scope,
        kind: manifest.kind.clone(),
        title: manifest.title.clone(),
        capsule_id: manifest.capsule_id,
        fork: capsule.is_some() && !held_by_origin,
        bytes_hint,
        object_count,
        manifest_raw: base64_encode(raw.bytes.as_slice()),
        genesis,
        genesis_grant: grant,
        lease_chain: chain,
        main_label: main,
        bind_certificate_issuer: issuer,
        bind_certificate: certificate,
        revocations,
    }
}

/// The chain in an offer is no longer than a receiver takes.
pub proof fn chains_are_bounded(s: Seq<LeaseRecord>, held: Option<LeaseRecord>)
    ensures
        winning_chain(s, held).len() <= MAX_LEASE_CHAIN_LEN,
{
}

proof fn built_plan_is_small(stored: Seq<StoredObject>, native: Map<Seq<int>, ()>, i: int, j: int)
    requires
        0 <= i <= j < stored.len(),
        plan_stops(stored, native, i) is None,
    ensures
        stored[j].size <= size_limit(stored[j].digest, native),
    decreases j - i,
{
    if i < j {
        built_plan_is_small(stored, native, i + 1, j);
    }
}

/// A plan that the sender built, of different objects whose native ones have the sizes that the
/// manifest gives them, is one that the receiver accepts.
pub proof fn built_plan_is_accepted(
    stored: Seq<StoredObject>,
    table: Map<Seq<int>, ()>,
    native: Seq<NativeBlobRef>,
    plan: Plan,
    offer_id: Seq<char>,
    bytes_hint: u64,
)
    requires
        forall|i: int, j: int|
            0 <= i < j < stored.len() ==> (#[trigger] stored[i]).digest != (
            #[trigger] stored[j]).digest,
        forall|i: int|
            0 <= i < stored.len() ==> (declared_size(native, (#[trigger] stored[i]).digest)
                matches Some(n) ==> n == stored[i].size),
        forall|k: Seq<int>| #[trigger] table.dom().contains(k) <==> native_rank(native, k),
        plan_stops(stored, table, 0) is None,
        plan.offer_id@ == offer_id,
        plan.eof,
        plan.objects@.len() == stored.len() <= u64::MAX,
        forall|i: int|
            0 <= i < stored.len() ==> planned(stored[i], table, #[trigger] plan.objects@[i]),
        bytes_hint == total_bytes(plan.objects@),
    ensures
        plan_fault(plan, offer_id, stored.len() as u64, bytes_hint, native) is None,
{
    let s = plan.objects@;
    assert forall|i: int, j: int| 0 <= i < j < s.len() implies (#[trigger] s[i]).digest != (
    #[trigger] s[j]).digest by {
        assert(stored[i].digest != stored[j].digest);
    }
    assert forall|i: int| 0 <= i < s.len() implies object_valid(#[trigger] s[i], native) by {
        let d = stored[i].digest;
        built_plan_is_small(stored, table, 0, i);
        assert(planned(stored[i], table, s[i]));
        native_by_rank(native, d);
        assert(table.dom().contains(d.rank()) <==> is_native(native, d));
    }
}

proof fn native_by_rank(native: Seq<NativeBlobRef>, d: Digest)
    ensures
        native_rank(native, d.rank()) == is_native(native, d),
{
    if native_rank(native, d.rank()) {
        let i = choose|i: int|
            0 <= i < native.len() && (#[trigger] native[i]).hash.rank() == d.rank();
        hash_rank_injective(native[i].hash, d);
        assert(native[i].hash == d);
    }
    if is_native(native, d) {
        let i = choose|i: int| 0 <= i < native.len() && (#[trigger] native[i]).hash == d;
        assert(native[i].hash.rank() == d.rank());
    }
}

} // verus!
