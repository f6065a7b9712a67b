//! Who is admitted, with what: offers, the leases that come with them, and sending.
use vstd::prelude::*;

use crate::capsule::{lease_is, LeaseRecord};
use crate::cas::Digest;
use crate::history::{lease_at, lease_verdict};
use crate::identity::PeerId;
use crate::manifest::{Manifest, RawManifest};
use crate::net::adopt::{fresh, hash_known, offer_adopted, permits, with_waiting};
use crate::net::auth::{scopes_allow, token_verify, Direction};
use crate::net::clock::time_of;
use crate::net::offer::{admission_fault, chain_fault, offer_form, origin_fault, Offer};
use crate::net::outbox::{Outbox, OutboxEntry};
use crate::net::pairing::TrustV;
use crate::net::plan::PlanObject;
use crate::net::send::{
    chain_to, enqueue_fault, entry_fault, offers, planned, winning_chain, StoredObject,
};
use crate::net::trust::{lease_check, LocalRole, TrustDisk};
use crate::order::{char_rank, Key};
use crate::store::{adoption_fault, extended, CapsuleV};
use crate::succession::lease_found;

verus! {

/// One lease follows the other: it names its hash and is of the next epoch.
pub open spec fn is_next(a: LeaseRecord, b: LeaseRecord) -> bool {
    b.epoch == a.epoch + 1 && lease_is(a, b.prev_hash)
}

/// A chain of leases is without fault, from a place on, exactly where each follows the one before.
pub proof fn chains_are_contiguous(s: Seq<LeaseRecord>, i: int)
    requires
        0 <= i,
    ensures
        chain_fault(s, i) is None <==> forall|j: int|
            i <= j < s.len() - 1 ==> is_next(#[trigger] s[j], s[j + 1]),
    decreases s.len() - i,
{
    if i + 1 < s.len() {
        chains_are_contiguous(s, i + 1);
        if chain_fault(s, i) is None {
            assert forall|j: int| i <= j < s.len() - 1 implies is_next(#[trigger] s[j], s[j + 1]) by {
                if j == i {
                    assert(is_next(s[i], s[i + 1]));
                }
            }
        } else if forall|j: int| i <= j < s.len() - 1 ==> is_next(#[trigger] s[j], s[j + 1]) {
            assert(is_next(s[i], s[i + 1]));
        }
    }
}

/// The form of an offer: it is about the snapshot and the capsule of its manifest. The state that it
/// brings is all of that capsule, in an unbroken chain of at most 256 leases; an offer of no capsule
/// brings none.
pub proof fn offer_is_about_its_manifest(offer: Offer, raw: RawManifest)
    ensures
        offer_form(offer, raw) is None <==> {
            let c = raw.manifest.capsule_id;
            &&& raw.id == offer.snapshot_id
            &&& offer.capsule_id == c
            &&& offer.lease_chain@.len() <= 256
            &&& forall|j: int|
                0 <= j < offer.lease_chain@.len() - 1 ==> is_next(
                    #[trigger] offer.lease_chain@[j],
                    offer.lease_chain@[j + 1],
                )
            &&& offer.genesis matches Some(g) ==> c == Some(g.capsule_id)
            &&& offer.genesis_grant matches Some(g) ==> c == Some(g.capsule_id)
            &&& offer.main_label matches Some(op) ==> c == Some(op.capsule_id)
            &&& forall|i: int|
                0 <= i < offer.lease_chain@.len() ==> c == Some(
                    (#[trigger] offer.lease_chain@[i]).capsule_id,
                )
        },
{
    chains_are_contiguous(offer.lease_chain@, 0);
    if offer.lease_chain@.len() > 0 {
        assert(raw.manifest.capsule_id is None ==> !(raw.manifest.capsule_id == Some(
            offer.lease_chain@[0].capsule_id,
        )));
    }
}

/// What is offered is taken only from a trusted peer, and only where its writer is trusted, or the
/// sender is a full peer that certifies the writer itself.
pub proof fn offers_come_from_the_trusted(
    d: TrustV,
    offer: Offer,
    from: PeerId,
    origin: PeerId,
    now: u64,
)
    requires
        origin_fault(d, offer, from, origin, now) is None,
    ensures
        d.peers.dom().contains(from.rank()),
        d.peers.dom().contains(origin.rank()) || {
            &&& d.peers[from.rank()].role is Full
            &&& offer.bind_certificate_issuer == Some(from)
            &&& offer.bind_certificate matches Some(c) && c.guest_peer_id == origin
                && crate::net::enroll::install_fault(d, from, c, now) is None
        },
{
}

/// What a snapshot needs to be let in. Its writer is trusted and, as a guest, has not run out. A guest
/// that sends it has a token that was not taken back and has not run out, and scopes that let it send
/// the kind. A device that is itself a guest has a token that is good and lets it receive the kind.
/// In a personal mesh no guest takes from another.
pub proof fn arrival_needs_leave(d: TrustV, from: PeerId, m: Manifest, now: u64)
    requires
        admission_fault(d, from, m, now) is None,
    ensures
        ({
            let sender = d.peers[from.rank()];
            let writer = d.peers[m.origin.rank()];
            &&& d.peers.dom().contains(m.origin.rank())
            &&& writer.role is Guest ==> (writer.expires_at matches Some(t) && time_of(
                t@,
            ) matches Ok(end) && now <= end)
            &&& sender.role is Guest ==> {
                &&& sender.token_id matches Some(t) && !d.revoked.dom().contains(char_rank(t@))
                &&& sender.expires_at matches Some(t) && time_of(t@) matches Ok(end) && now <= end
                &&& sender.scopes matches Some(s) && s.send && (exists|i: int|
                    0 <= i < s.kinds@.len() && ((#[trigger] s.kinds@[i])@ == m.kind@ || s.kinds@[i]@
                        == "*"@))
            }
            &&& d.local_role matches LocalRole::Guest { token } ==> {
                &&& token_verify(*token, now) is Ok
                &&& token.scopes.receive
                &&& scopes_allow(token.scopes, m.capsule_id, m.kind@, Direction::Receive)
            }
            &&& d.mesh_profile is Personal ==> sender.role is Full || d.local_role is Full
        }),
{
    let sender = d.peers[from.rank()];
    if sender.scopes is Some {
        crate::net::auth::directions_are_apart(
            sender.scopes->0,
            sender.scopes->0,
            m.capsule_id,
            m.kind@,
        );
        crate::net::auth::scopes_list_what_they_allow(
            sender.scopes->0,
            m.capsule_id,
            m.kind@,
            Direction::Send,
        );
    }
    if let LocalRole::Guest { token } = d.local_role {
        crate::net::auth::directions_are_apart(
            token.scopes,
            token.scopes,
            m.capsule_id,
            m.kind@,
        );
    }
}

/// Between full devices everything that a trusted peer wrote is let in.
pub proof fn full_devices_share(d: TrustV, from: PeerId, m: Manifest, now: u64)
    requires
        d.peers.dom().contains(from.rank()),
        d.peers.dom().contains(m.origin.rank()),
        d.peers[from.rank()].role is Full,
        d.peers[m.origin.rank()].role is Full,
        d.local_role is Full,
    ensures
        admission_fault(d, from, m, now) is None,
{
}

/// A full device sends to everybody that it trusts and to nobody else. A guest sends only where it
/// was switched on, its token is good and lets it send, and to another guest only in a fleet and
/// where that one may receive.
pub proof fn sending_needs_leave(
    d: TrustDisk,
    peer: PeerId,
    capsule: Option<Digest>,
    kind: Seq<char>,
    allow_agent_send: bool,
    now: u64,
)
    ensures
        ({
            let ok = enqueue_fault(d, peer, capsule, kind, allow_agent_send, now) is None;
            let known = d.peers@.dom().contains(peer.rank());
            let p = d.peers@[peer.rank()];
            &&& !known ==> !ok
            &&& known && d.local_role is Full ==> ok
            &&& d.local_role matches LocalRole::Guest { token } ==> (ok ==> {
                &&& allow_agent_send
                &&& token.scopes.send
                &&& token_verify(*token, now) is Ok
                &&& p.role is Guest ==> d.mesh_profile is Fleet && (p.scopes matches Some(s)
                    && s.receive && scopes_allow(s, capsule, kind, Direction::Receive))
            })
            &&& d.local_role matches LocalRole::Guest { token } ==> (known && p.role is Full
                && allow_agent_send && token.scopes.send && token_verify(*token, now) is Ok ==> ok)
        }),
{
    let p = d.peers@[peer.rank()];
    if p.scopes is Some {
        crate::net::auth::directions_are_apart(p.scopes->0, p.scopes->0, capsule, kind);
    }
}

/// An entry is sent only to the peer that it is for, before it has waited for a week, and once its
/// time has come.
pub proof fn entry_is_sent_in_time(outbox: Outbox, id: Seq<char>, recipient: PeerId, now: u64)
    requires
        entry_fault(outbox, id, recipient, now) is None,
    ensures
        outbox.has(id),
        outbox.at(id).peer_id == recipient,
        !(outbox.at(id).state is Expired),
        time_of(outbox.at(id).next_attempt_at@) matches Ok(t) && t <= now,
        outbox.at(id).state is Queued ==> (time_of(outbox.at(id).created_at@) matches Ok(t) && now
            - t <= 604_800_000),
{
}

/// The leases from the first one after the grant up to one that is known: each follows the one
/// before, and is among those that are known.
proof fn chain_is_linked(s: Seq<LeaseRecord>, r: LeaseRecord)
    requires
        chain_to(s, r) is Some,
        forall|a: LeaseRecord, b: LeaseRecord|
            s.contains(a) && (s.contains(b) || b == r) && #[trigger] lease_is(a, b.prev_hash) ==> (
            #[trigger] b.epoch) == a.epoch + 1,
        s.contains(r),
    ensures
        ({
            let t = chain_to(s, r)->0;
            &&& r.epoch > 1 ==> t.len() > 0 && t.last() == r
            &&& forall|i: int| 0 <= i < t.len() - 1 ==> is_next(#[trigger] t[i], t[i + 1])
            &&& forall|i: int| 0 <= i < t.len() ==> s.contains(#[trigger] t[i])
        }),
    decreases r.epoch,
{
    if r.epoch > 1 {
        lease_found(s, r.prev_hash, 0);
        let p = s[lease_at(s, r.prev_hash, 0)];
        assert(s.contains(p));
        assert(lease_is(p, r.prev_hash));
        assert(r.epoch == p.epoch + 1);
        chain_is_linked(s, p);
        let before = chain_to(s, p)->0;
        let t = before.push(r);
        assert forall|i: int| 0 <= i < t.len() - 1 implies is_next(#[trigger] t[i], t[i + 1]) by {
            if i < before.len() - 1 {
                assert(is_next(before[i], before[i + 1]));
            } else {
                assert(before.last() == p);
            }
        }
        assert forall|i: int| 0 <= i < t.len() implies s.contains(#[trigger] t[i]) by {
            if i < before.len() {
                assert(s.contains(before[i]));
            }
        }
    }
}

/// The chain that an offer carries ends with the lease that holds, where there is one after the
/// grant. Each of its leases follows the one before, so that whoever gets it takes it for unbroken.
/// It holds no more than 256 leases, and the last ones where there are more.
pub proof fn offered_chain_is_unbroken(s: Seq<LeaseRecord>, w: LeaseRecord)
    requires
        s.contains(w),
        forall|a: LeaseRecord, b: LeaseRecord|
            s.contains(a) && s.contains(b) && #[trigger] lease_is(a, b.prev_hash) ==> (
            #[trigger] b.epoch) == a.epoch + 1,
    ensures
        winning_chain(s, Some(w)).len() <= 256,
        forall|i: int|
            0 <= i < winning_chain(s, Some(w)).len() - 1 ==> is_next(
                #[trigger] winning_chain(s, Some(w))[i],
                winning_chain(s, Some(w))[i + 1],
            ),
        w.epoch > 1 && chain_to(s, w) is Some ==> winning_chain(s, Some(w)).len() > 0
            && winning_chain(s, Some(w)).last() == w,
        chain_fault(winning_chain(s, Some(w)), 0) is None,
{
    let c = winning_chain(s, Some(w));
    if chain_to(s, w) is Some {
        chain_is_linked(s, w);
        let t = chain_to(s, w)->0;
        if t.len() > 256 {
            let n = t.len() - 256;
            assert forall|i: int| 0 <= i < c.len() - 1 implies is_next(#[trigger] c[i], c[i + 1]) by {
                assert(is_next(t[i + n], t[i + n + 1]));
            }
        }
    }
    chains_are_contiguous(c, 0);
}

/// A chain is adopted only where each of its leases was permitted and holds in its turn.
pub proof fn adopted_leases_hold(
    c: CapsuleV,
    chain: Seq<LeaseRecord>,
    allowed: Seq<bool>,
    i: int,
)
    requires
        0 <= i,
        adoption_fault(c, chain, allowed, i) is None,
    ensures
        forall|j: int|
            i <= j < chain.len() ==> allowed[j] && lease_verdict(
                c.genesis,
                c.leases + chain.take(j),
                if j == 0 {
                    c.held
                } else {
                    Some(chain[j - 1])
                },
                #[trigger] chain[j],
            ) is Wins,
    decreases chain.len() - i,
{
    if i < chain.len() {
        adopted_leases_hold(c, chain, allowed, i + 1);
    }
}

proof fn fresh_are_new(known: Seq<LeaseRecord>, last: LeaseRecord, chain: Seq<LeaseRecord>)
    requires
        fresh(known, last, chain) is Ok,
    ensures
        ({
            let t = fresh(known, last, chain)->Ok_0;
            &&& forall|i: int| 0 <= i < t.len() ==> chain.contains(#[trigger] t[i])
            &&& t.len() > 0 ==> is_next(last, t[0])
            &&& forall|i: int| 0 <= i < t.len() - 1 ==> is_next(#[trigger] t[i], t[i + 1])
        }),
    decreases chain.len(),
{
    if chain.len() > 0 {
        let l = chain[0];
        let rest = chain.skip(1);
        let t = fresh(known, last, chain)->Ok_0;
        if hash_known(known, crate::capsule::lease_hash(l)->Ok_0) {
            fresh_are_new(known, last, rest);
            assert forall|i: int| 0 <= i < t.len() implies chain.contains(#[trigger] t[i]) by {
                assert(rest.contains(t[i]));
                let j = choose|j: int| 0 <= j < rest.len() && rest[j] == t[i];
                assert(chain[j + 1] == t[i]);
            }
        } else {
            fresh_are_new(known, l, rest);
            let more = fresh(known, l, rest)->Ok_0;
            assert(t =~= seq![l] + more);
            assert forall|i: int| 0 <= i < t.len() implies chain.contains(#[trigger] t[i]) by {
                if i == 0 {
                    assert(chain[0] == t[0]);
                } else {
                    assert(t[i] == more[i - 1]);
                    assert(rest.contains(more[i - 1]));
                    let j = choose|j: int| 0 <= j < rest.len() && rest[j] == more[i - 1];
                    assert(chain[j + 1] == t[i]);
                }
            }
            assert forall|i: int| 0 <= i < t.len() - 1 implies is_next(#[trigger] t[i], t[i + 1]) by {
                if i == 0 {
                    assert(t[1] == more[0]);
                } else {
                    assert(t[i] == more[i - 1] && t[i + 1] == more[i]);
                    assert(is_next(more[i - 1], more[i]));
                }
            }
        }
    }
}

/// What a capsule takes over from an offer. The leases that are new are some of those that came, in
/// an unbroken chain from the one that held, and each of their holders may take a lease, or take one
/// over, here. The last of them holds. What was known of leases and snapshots stays. It is answered
/// that the head has moved only where `main` now stands on the snapshot of the statement that came.
pub proof fn adoption_takes_what_is_permitted(d: TrustDisk, c: CapsuleV, offer: Offer, now: u64)
    requires
        offer_adopted(d, c, offer, now) is Ok,
    ensures
        ({
            let (after, moved) = offer_adopted(d, c, offer, now)->Ok_0;
            &&& c.held is Some
            &&& after.genesis == c.genesis
            &&& after.snapshots == c.snapshots
            &&& exists|t: Seq<LeaseRecord>|
                {
                    &&& after.leases == #[trigger] (c.leases + t)
                    &&& after.held == Some(
                        if t.len() > 0 {
                            t.last()
                        } else {
                            c.held->0
                        },
                    )
                    &&& t.len() > 0 ==> is_next(c.held->0, t[0])
                    &&& forall|i: int| 0 <= i < t.len() - 1 ==> is_next(#[trigger] t[i], t[i + 1])
                    &&& forall|i: int|
                        0 <= i < t.len() ==> offer.lease_chain@.contains(#[trigger] t[i])
                            && lease_check(d, t[i].holder, t[i].mode is Takeover, now) is Ok
                }
            &&& moved ==> (offer.main_label matches Some(op) && after.labels.dom().contains(
                char_rank(op.name@),
            ) && after.labels[char_rank(op.name@)].snapshot_id == op.snapshot_id)
            &&& offer.main_label is None ==> after.labels == c.labels
        }),
{
    let w = c.held->0;
    let t = fresh(c.leases, w, offer.lease_chain@)->Ok_0;
    fresh_are_new(c.leases, w, offer.lease_chain@);
    adopted_leases_hold(c, t, permits(d, t, now), 0);
    let full = extended(c, t);
    assert(c.leases + Seq::<LeaseRecord>::empty() =~= c.leases);
    assert(full.leases == c.leases + t) by {
        if t.len() == 0 {
            assert(c.leases + t =~= c.leases);
        }
    }
    assert forall|i: int| 0 <= i < t.len() implies lease_check(
        d,
        (#[trigger] t[i]).holder,
        t[i].mode is Takeover,
        now,
    ) is Ok by {
        assert(permits(d, t, now)[i]);
    }
}

/// A statement that waits is kept once, in the order in which they came, and no more than 256 wait.
pub proof fn statements_wait_once(s: Seq<crate::capsule::LabelOp>, op: crate::capsule::LabelOp)
    ensures
        ({
            let known = exists|i: int| 0 <= i < s.len() && (#[trigger] s[i]).sig == op.sig;
            with_waiting(s, op) == if known || s.len() >= 256 {
                s
            } else {
                s.push(op)
            }
        }),
{
}

/// An offer says what its manifest and its entry say: which snapshot, of which kind, under which title
/// and for which capsule, with the manifest itself. Of a capsule it brings the beginning, the leases up
/// to the one that holds, and the statement about `main`. It calls the snapshot a fork where somebody
/// else holds the lease now.
pub proof fn offers_say_what_they_bring(
    o: Offer,
    entry: OutboxEntry,
    raw: RawManifest,
    capsule: Option<CapsuleV>,
    holder: Option<PeerId>,
    bytes_hint: u64,
    object_count: u64,
)
    requires
        offers(o, entry, raw, capsule, holder, bytes_hint, object_count),
    ensures
        o.offer_id == entry.offer_id,
        o.snapshot_id == entry.snapshot_id,
        o.kind == raw.manifest.kind,
        o.title == raw.manifest.title,
        o.capsule_id == raw.manifest.capsule_id,
        o.scope == raw.manifest.scope,
        o.manifest_raw@ == crate::base64::base64_text(raw.bytes@),
        o.bytes_hint == bytes_hint,
        o.object_count == object_count,
        o.fork <==> capsule is Some && holder != Some(raw.manifest.origin),
        capsule is None ==> o.genesis is None && o.genesis_grant is None && o.lease_chain@.len() == 0
            && o.main_label is None,
        capsule matches Some(c) ==> {
            &&& o.genesis == Some(c.genesis)
            &&& o.lease_chain@ == winning_chain(c.leases, c.held)
            &&& c.labels.dom().contains(char_rank("main"@)) ==> o.main_label == Some(
                c.labels[char_rank("main"@)],
            )
            &&& !c.labels.dom().contains(char_rank("main"@)) ==> o.main_label is None
        },
{
}

/// The grant that an offer brings is the first one that is known.
pub proof fn grants_are_found(s: Seq<LeaseRecord>, i: int)
    requires
        0 <= i,
    ensures
        crate::net::send::first_grant(s, i) matches Some(l) ==> s.contains(l) && l.epoch == 1 && l.mode
            is Grant,
        crate::net::send::first_grant(s, i) is None ==> forall|j: int|
            i <= j < s.len() ==> !((#[trigger] s[j]).epoch == 1 && s[j].mode is Grant),
    decreases s.len() - i,
{
    if i < s.len() {
        if s[i].epoch == 1 && s[i].mode is Grant {
            assert(s.contains(s[i]));
        } else {
            grants_are_found(s, i + 1);
            if crate::net::send::first_grant(s, i) is None {
                assert forall|j: int| i <= j < s.len() implies !((#[trigger] s[j]).epoch == 1
                    && s[j].mode is Grant) by {}
            }
        }
    }
}

/// An object of a plan is what is stored: its digest, its size, and a tree only where it is one and is
/// not a native blob.
pub proof fn plans_list_what_is_stored(x: StoredObject, native: Map<Seq<int>, ()>, p: PlanObject)
    requires
        planned(x, native, p),
    ensures
        p.digest == x.digest,
        p.bytes == x.size,
        p.kind@ == "tree"@ <==> x.tree && !native.dom().contains(x.digest.rank()),
        p.kind@ == "tree"@ || p.kind@ == "blob"@,
{
    reveal_strlit("tree");
    reveal_strlit("blob");
    assert("tree"@[0] != "blob"@[0]);
}

} // verus!
