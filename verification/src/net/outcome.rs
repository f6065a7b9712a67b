//! What comes of an offer: how it is answered, where the snapshot ends up, and what is said of it.
use vstd::prelude::*;

use crate::capsule::LabelOp;
use crate::history::fork_name;
use crate::identity::{Identity, PeerId};
use crate::json::JsonV;
use crate::manifest::RawManifest;
use crate::net::ack::Ack;
use crate::net::adopt::waiting;
use crate::net::bind::{same_certificate, BindCertificate};
use crate::net::error::Error;
use crate::net::incoming::{answers, OfferAnswer};
use crate::net::offer::{admission_fault, offer_form, offer_outcome, origin_fault, Offer};
use crate::net::outbox::OutboxEntry;
use crate::net::pairing::TrustV;
use crate::net::receive::{
    admitted, arrival_members, becomes_head, capsule_outcome, commit_fault, concluded,
    fork_labelled, kept_waiting, ReceivedOffer, Via,
};
use crate::net::revoke::{first_certificate, newest_first, revocation_made, revocations_received};
use crate::net::send::offer_built;
use crate::net::trust::{StoredBindCertificate, StoredRevocation, TrustDisk};
use crate::order::{char_rank, Key};
use crate::store::CapsuleV;
use crate::util::hex_text;

verus! {

/// An offer that is taken is about its manifest, comes from a trusted peer, and was let in. What the
/// offer says was revoked counts before anything is decided.
pub proof fn taken_offers_are_admitted(
    d0: TrustV,
    after: TrustV,
    offer: Offer,
    from: PeerId,
    now: u64,
    raw: RawManifest,
)
    requires
        offer_outcome(d0, after, offer, from, now, Ok(raw)),
    ensures
        ({
            let d = revocations_received(d0, offer.revocations@, now);
            &&& offer.revocations@.len() <= 128
            &&& offer_form(offer, raw) is None
            &&& origin_fault(d, offer, from, raw.manifest.origin, now) is None
            &&& admission_fault(after, from, raw.manifest, now) is None
            &&& d.peers.dom().contains(from.rank())
            &&& after.peers.dom().contains(raw.manifest.origin.rank())
            &&& d.peers.dom().contains(raw.manifest.origin.rank()) ==> after == d
        }),
{
}

/// An offer is accepted exactly where it was decided to be, and refused with the reason otherwise; the
/// answer names the offer.
pub proof fn answers_follow_the_decision(
    offer: Offer,
    decided: Result<RawManifest, Error>,
    a: OfferAnswer,
)
    requires
        answers(offer, decided, a),
    ensures
        a is Accept <==> decided is Ok,
        a matches OfferAnswer::Accept(m, read) ==> m.offer_id == offer.offer_id && decided == Ok::<
            RawManifest,
            Error,
        >(read),
        a matches OfferAnswer::Reject(m) ==> m.offer_id == offer.offer_id,
{
}

/// A certificate goes with an offer only from a full device, about a guest that it trusts, where the
/// other side reads certificates; and revocations only where the other side reads those.
pub proof fn offers_bring_what_is_agreed(
    o: Offer,
    d: TrustDisk,
    capsule: Option<CapsuleV>,
    holder: Option<PeerId>,
    entry: OutboxEntry,
    raw: RawManifest,
    bytes_hint: u64,
    object_count: u64,
    now: u64,
    features: Option<Seq<String>>,
)
    requires
        offer_built(
            o,
            d,
            capsule,
            holder,
            entry,
            raw,
            bytes_hint,
            object_count,
            now,
            features,
        ),
    ensures
        o.snapshot_id == entry.snapshot_id,
        o.bind_certificate is Some ==> {
            &&& d.local_role is Full
            &&& d.peers@.dom().contains(raw.manifest.origin.rank())
            &&& d.peers@[raw.manifest.origin.rank()].role is Guest
            &&& features matches Some(f) && exists|i: int|
                0 <= i < f.len() && (#[trigger] f[i])@ == "bind-cert"@
            &&& same_certificate(
                o.bind_certificate->0,
                d.bind_certificates@[raw.manifest.origin.rank()].certificate,
            )
            &&& o.bind_certificate_issuer == Some(
                d.bind_certificates@[raw.manifest.origin.rank()].issuer,
            )
        },
        d.local_role is Full && d.peers@.dom().contains(raw.manifest.origin.rank())
            && d.peers@[raw.manifest.origin.rank()].role is Guest
            && d.bind_certificates@.dom().contains(raw.manifest.origin.rank()) && (features matches Some(
            f,
        ) && exists|i: int| 0 <= i < f.len() && (#[trigger] f[i])@ == "bind-cert"@)
            ==> o.bind_certificate is Some,
        o.revocations@.len() > 0 ==> (features matches Some(f) && exists|i: int|
            0 <= i < f.len() && (#[trigger] f[i])@ == "revocation"@),
        o.revocations@.len() <= 128,
        newest_first(d.revocations.entries@, now).len() <= 128 && (features matches Some(f)
            && exists|i: int| 0 <= i < f.len() && (#[trigger] f[i])@ == "revocation"@)
            ==> o.revocations@ == newest_first(d.revocations.entries@, now),
{
}

/// Certificates that are the same say the same.
pub proof fn same_certificates_say_the_same(a: BindCertificate, b: BindCertificate)
    requires
        same_certificate(a, b),
    ensures
        a.token_id == b.token_id,
        a.guest_peer_id == b.guest_peer_id,
        a.expires_at == b.expires_at,
        a.bound_at == b.bound_at,
        a.x25519_pk == b.x25519_pk,
        a.sig == b.sig,
        a.scopes.send == b.scopes.send && a.scopes.receive == b.scopes.receive
            && a.scopes.lease_acquire == b.scopes.lease_acquire && a.scopes.lease_takeover
            == b.scopes.lease_takeover && a.scopes.kinds@ == b.scopes.kinds@ && a.scopes.capsules@
            == b.scopes.capsules@,
{
}

/// The certificate of a token and its issuer is found where there is one.
pub proof fn certificates_are_found(
    s: Seq<(PeerId, StoredBindCertificate)>,
    id: Seq<char>,
    issuer: Seq<u8>,
)
    ensures
        first_certificate(s, id, issuer) matches Some(x) ==> x.certificate.token_id@ == id
            && x.issuer.0@ == issuer && exists|i: int| 0 <= i < s.len() && (#[trigger] s[i]).1 == x,
        first_certificate(s, id, issuer) is None ==> forall|i: int|
            0 <= i < s.len() ==> !((#[trigger] s[i]).1.certificate.token_id@ == id
                && s[i].1.issuer.0@ == issuer),
    decreases s.len(),
{
    if s.len() > 0 {
        let rest = s.drop_first();
        if s[0].1.certificate.token_id@ == id && s[0].1.issuer.0@ == issuer {
            assert(s[0].1 == first_certificate(s, id, issuer)->0);
        } else {
            certificates_are_found(rest, id, issuer);
            if let Some(x) = first_certificate(s, id, issuer) {
                let i = choose|i: int| 0 <= i < rest.len() && (#[trigger] rest[i]).1 == x;
                assert(s[i + 1] == rest[i]);
            } else {
                assert forall|i: int| 0 <= i < s.len() implies !((
                #[trigger] s[i]).1.certificate.token_id@ == id && s[i].1.issuer.0@ == issuer) by {
                    if i > 0 {
                        assert(rest[i - 1] == s[i]);
                    }
                }
            }
        }
    }
}

/// The record of a revocation names the token and the guest of the certificate, and matters as long
/// as the certificate would have been good.
pub proof fn revocations_match_their_certificate(
    s: StoredRevocation,
    id: Seq<char>,
    cert: StoredBindCertificate,
    now: u64,
    issuer: Identity,
)
    requires
        revocation_made(s, id, cert, now, issuer),
    ensures
        s.record.token_id@ == id,
        s.record.guest_peer_id == cert.certificate.guest_peer_id,
        s.record.issuer.0@ == issuer.peer(),
        s.relevant_until == cert.certificate.expires_at,
{
}

/// A capsule that is met for the first time begins as the offer says, and is held under its first
/// lease. No other capsule changes.
pub proof fn capsules_begin_as_offered(s: Map<Seq<int>, CapsuleV>, raw: RawManifest, offer: Offer)
    requires
        raw.manifest.scope is Full,
        !s.dom().contains((raw.manifest.capsule_id->0).rank()),
        crate::net::receive::admission_fault(s, 0, raw, offer) is None,
    ensures
        ({
            let after = admitted(s, raw, offer);
            let k = (raw.manifest.capsule_id->0).rank();
            &&& after.dom().contains(k)
            &&& after[k].genesis == offer.genesis->0
            &&& after[k].held == offer.genesis_grant
            &&& after[k].snapshots.dom() =~= Set::<Seq<int>>::empty()
            &&& after[k].labels.dom() =~= Set::<Seq<int>>::empty()
            &&& forall|q: Seq<int>| #[trigger]
                s.dom().contains(q) ==> after.dom().contains(q) && after[q] == s[q]
        }),
{
}

/// A snapshot is committed exactly where its capsule is known and takes it.
pub proof fn commits_need_their_capsule(s: Map<Seq<int>, CapsuleV>, raw: RawManifest)
    ensures
        commit_fault(s, raw) is None <==> raw.manifest.scope is Partial || {
            let k = (raw.manifest.capsule_id->0).rank();
            &&& s.dom().contains(k)
            &&& raw.manifest.capsule_id == Some(s[k].genesis.capsule_id)
            &&& !(raw.manifest.parents@.len() == 0 && exists|q: Seq<int>| #[trigger]
                s[k].snapshots.dom().contains(q) && s[k].snapshots[q].raw.manifest.parents@.len()
                    == 0)
        },
{
    let k = (raw.manifest.capsule_id->0).rank();
    if s.dom().contains(k) {
        assert forall|q: Seq<int>| #[trigger] s[k].snapshots.dom().contains(q) implies (
        crate::history::is_root(s[k].snapshots[q]) <==> s[k].snapshots[q].raw.manifest.parents@.len()
            == 0) by {}
    }
}

/// A snapshot that does not become the head is labelled as a fork: the label goes by the first digits
/// of its id and stands on it.
pub proof fn forks_are_labelled(c: CapsuleV, after: CapsuleV, offer: Offer, now: u64, signer: Identity)
    requires
        fork_labelled(c, after, offer, now, signer),
    ensures
        ({
            let name = "fork/"@ + hex_text(offer.snapshot_id.0@).take(8);
            &&& after.labels.dom().contains(char_rank(name))
            &&& after.labels[char_rank(name)].snapshot_id == offer.snapshot_id
            &&& after.leases == c.leases && after.held == c.held && after.snapshots == c.snapshots
        }),
{
    let (op, me) = choose|op: LabelOp, me: PeerId|
        {
            &&& me.0@ == signer.peer()
            &&& crate::store::is_fork_label(c, offer.capsule_id->0, offer.snapshot_id, signer, op)
            &&& crate::net::auth::shows_time(now as int, op.at@)
            &&& #[trigger] crate::store::label_fault_v(c, op, me) is None
            &&& after == crate::store::with_label(c, op, me)
        };
    assert(op.name@ == fork_name(offer.snapshot_id));
    assert(crate::store::label_wins_v(c, op));
}

/// A statement about `main` that could not be followed waits, and one that was followed does not.
pub proof fn unmet_statements_wait(p: Map<Seq<int>, Vec<LabelOp>>, offer: Offer, head: bool)
    ensures
        ({
            let before = waiting(p, (offer.capsule_id->0).rank());
            let after = kept_waiting(p, offer, head);
            &&& head || offer.main_label is None ==> after == before
            &&& !head && offer.main_label is Some && before.len() < 256 && (forall|i: int|
                0 <= i < before.len() ==> (#[trigger] before[i]).sig != (offer.main_label->0).sig)
                ==> after == before.push(offer.main_label->0)
        }),
{
}

/// What is answered to a delivery that was settled: a receipt for the offer and the snapshot, which
/// says on which shelf it stands, signed for the sender.
pub proof fn receipts_tell_the_shelf(
    head: bool,
    full: bool,
    offer: Offer,
    sender: PeerId,
    now: u64,
    via: Via,
    signer: Identity,
    x: ReceivedOffer,
)
    requires
        concluded(Ok(head), full, offer, sender, now, via, signer, Ok(x)),
    ensures
        x.ack.offer_id == offer.offer_id,
        x.ack.snapshot_id == offer.snapshot_id,
        !full ==> x.ack.shelf@ == "inbox"@,
        full && head ==> x.ack.shelf@ == "capsule-head"@,
        full && !head ==> x.ack.shelf@ == "capsule-fork"@,
        crate::identity::signature_of(
            signer,
            "ack"@,
            crate::net::ack::ack_bytes(
                offer.offer_id@,
                offer.snapshot_id,
                sender.0@,
                signer.peer(),
                x.ack.shelf@,
            ),
            x.ack.sig,
        ),
        x.event@ == JsonV::Obj(arrival_members(offer, x.ack, sender, via)),
{
}

/// What is noted of an arrival: what happened, from whom the snapshot came, which one it is and when.
pub proof fn arrivals_are_noted(offer: Offer, ack: Ack, from: PeerId, via: Via)
    ensures
        arrival_members(offer, ack, from, via).contains(("from"@, JsonV::Str(hex_text(from.0@)))),
        arrival_members(offer, ack, from, via).contains(
            ("snapshot_id"@, JsonV::Str(hex_text(ack.snapshot_id.0@))),
        ),
        arrival_members(offer, ack, from, via).contains(("at"@, JsonV::Str(ack.received_at@))),
        offer.scope is Full ==> arrival_members(offer, ack, from, via).contains(
            ("event"@, JsonV::Str("capsule-sync"@)),
        ),
        offer.scope is Partial ==> arrival_members(offer, ack, from, via).contains(
            ("event"@, JsonV::Str("inbox-arrival"@)),
        ),
        (via is Relay) ==> arrival_members(offer, ack, from, via).contains(
            ("via"@, JsonV::Str("relay"@)),
        ),
{
    let m = arrival_members(offer, ack, from, via);
    if via is Relay {
        assert(m[0].0 == "at"@ && m[1].0 == "event"@ && m[2].0 == "from"@ && m[3].0
            == "snapshot_id"@ && m[4].0 == "via"@);
    } else if offer.scope is Full {
        assert(m[0].0 == "at"@ && m[2].0 == "event"@ && m[3].0 == "from"@ && m[5].0
            == "snapshot_id"@);
    } else {
        assert(m[0].0 == "at"@ && m[1].0 == "event"@ && m[2].0 == "from"@ && m[4].0
            == "snapshot_id"@);
    }
    assert(m.contains(m[0]) && m.contains(m[1]) && m.contains(m[2]) && m.contains(m[3])
        && m.contains(m[4]));
    if !(via is Relay) && offer.scope is Full {
        assert(m.contains(m[5]));
    }
}

/// Where the head of a capsule moves, it is answered so, and the snapshot is no fork.
pub proof fn heads_move_as_answered(
    d: TrustDisk,
    signer: Identity,
    s: Map<Seq<int>, CapsuleV>,
    p: Map<Seq<int>, Vec<LabelOp>>,
    offer: Offer,
    now: u64,
    s2: Map<Seq<int>, CapsuleV>,
    p2: Map<Seq<int>, Vec<LabelOp>>,
    head: bool,
)
    requires
        capsule_outcome(d, signer, s, p, offer, now, s2, p2, Ok(head)),
    ensures
        head == becomes_head(d, s[(offer.capsule_id->0).rank()], offer, now),
        head ==> offer.main_label is Some,
{
}

} // verus!
