//! What can be done to the trust store, and what no deed undoes: tokens that were taken back, tickets
//! that were used and pairings that were cancelled stay so.
use vstd::prelude::*;

use crate::identity::{peer_rank_injective, PeerId};
use crate::net::auth::{MeshProfile, PairRequest, PairTicket, MAX_CERTIFICATE_LIFETIME_MS};
use crate::net::bind::{certificate_payload, BindCertificate, EnrollBind, Revocation};
use crate::net::clock::time_of;
use crate::net::control::{order_recorded, ControlMessage};
use crate::net::enroll::{
    certificate_installed, confirm_fault, confirmed, guest_bound, install_fault, pair_fault,
    peer_paired, ticket_spent,
};
use crate::net::error::Error;
use crate::net::pairing::{
    after_removal, insert_fault, peer_inserted, ticket_registered, version_of, TrustV,
};
use crate::net::revoke::{revocation_received, revocations_received, token_taken_back};
use crate::net::settle::{limited, merged, pruned, settles, version_at, without_revoked};
use crate::net::transport::DialHint;
use crate::net::trust::{LocalRole, StoredBindCertificate, StoredRevocation, TrustDisk, TrustedPeer};
use crate::order::{char_rank, Key};

verus! {

/// What can be done to the trust store. Each goes with what the operation of that kind puts in.
pub enum Deed {
    Insert(TrustedPeer),
    Remove(PeerId),
    /// A peer that is trusted is stored with other addresses.
    Addresses(PeerId, TrustedPeer),
    Register(PairTicket),
    /// A request to pair is accepted, and trusted at once or not.
    Accept(PairRequest, TrustedPeer, bool),
    Confirm(String, PeerId),
    /// This device joins another under its ticket.
    Join(PairTicket, TrustedPeer),
    Bind(EnrollBind, TrustedPeer, StoredBindCertificate),
    Install(PeerId, BindCertificate, TrustedPeer),
    TakeBack(Seq<char>, Map<Seq<int>, StoredRevocation>),
    Hear(Seq<Revocation>, u64),
    Order(ControlMessage, PeerId, u64),
    Profile(MeshProfile),
    LocalRole(LocalRole),
    /// What was done is written over what is stored.
    Save(TrustV, u64),
}

/// A deed leads from one state to another.
pub open spec fn does(before: TrustV, deed: Deed, after: TrustV) -> bool {
    match deed {
        Deed::Insert(p) => insert_fault(before, p.peer_id) is None && after == peer_inserted(
            before,
            p,
        ),
        Deed::Remove(peer) => after == after_removal(before, peer),
        Deed::Addresses(peer, p) => before.peers.dom().contains(peer.rank()) && after == (TrustV {
            peers: before.peers.insert(peer.rank(), p),
            ..before
        }),
        Deed::Register(ticket) => after == ticket_registered(before, ticket),
        Deed::Accept(q, p, at_once) => after == ticket_spent(
            before,
            q.ticket_id@,
            q.ticket_id,
            p,
            at_once,
        ),
        Deed::Confirm(ticket, peer) => after == confirmed(before, ticket, peer),
        Deed::Join(ticket, p) => after == peer_paired(before, ticket.ticket_id, p),
        Deed::Bind(bind, p, s) => after == guest_bound(before, bind, p, s),
        Deed::Install(issuer, c, p) => after == certificate_installed(before, issuer, c, p),
        Deed::TakeBack(id, revocations) => after == token_taken_back(before, id, revocations),
        Deed::Hear(s, now) => after == revocations_received(before, s, now),
        Deed::Order(m, signer, now) => after == order_recorded(m, signer, before, now),
        Deed::Profile(profile) => after == (TrustV { mesh_profile: profile, ..before }),
        Deed::LocalRole(role) => after == (TrustV { local_role: role, ..before }),
        Deed::Save(stored, now) => settles(before, stored, now, after),
    }
}

/// The state that deeds end in.
pub open spec fn outcome(d: TrustV, deeds: Seq<(Deed, TrustV)>) -> TrustV {
    if deeds.len() == 0 {
        d
    } else {
        deeds.last().1
    }
}

/// Deeds that were done one after the other, each with the state it led to.
pub open spec fn done(d: TrustV, deeds: Seq<(Deed, TrustV)>) -> bool
    decreases deeds.len(),
{
    deeds.len() == 0 || (done(d, deeds.drop_last()) && does(
        outcome(d, deeds.drop_last()),
        deeds.last().0,
        deeds.last().1,
    ))
}

/// All that was taken back, used up or cancelled in one state is so in another.
pub open spec fn remembers(before: TrustV, after: TrustV) -> bool {
    &&& before.revoked.dom().subset_of(after.revoked.dom())
    &&& before.used_tickets.dom().subset_of(after.used_tickets.dom())
    &&& before.cancelled_pairs.dom().subset_of(after.cancelled_pairs.dom())
}

proof fn hearing_remembers(d: TrustV, s: Seq<Revocation>, now: u64)
    ensures
        remembers(d, revocations_received(d, s, now)),
        revocations_received(d, s, now).used_tickets == d.used_tickets,
        revocations_received(d, s, now).cancelled_pairs == d.cancelled_pairs,
        revocations_received(d, s, now).awaiting_pair_confirm == d.awaiting_pair_confirm,
        revocations_received(d, s, now).peer_pair_tickets == d.peer_pair_tickets,
    decreases s.len(),
{
    if s.len() > 0 {
        hearing_remembers(d, s.drop_last(), now);
        reveal(revocation_received);
    }
}

/// No deed forgets a token that was taken back, a ticket that was used or a pairing that was
/// cancelled. What is written to the file remembers what others have stored as well.
pub proof fn deed_remembers(before: TrustV, deed: Deed, after: TrustV)
    requires
        does(before, deed, after),
    ensures
        remembers(before, after),
        deed matches Deed::Save(stored, now) ==> remembers(stored, after),
{
    match deed {
        Deed::Hear(s, now) => hearing_remembers(before, s, now),
        Deed::Save(stored, now) => crate::net::settle::saving_forgets_nothing(
            before,
            stored,
            now,
            after,
        ),
        _ => {},
    }
}

/// The same of any number of deeds.
pub proof fn deeds_remember(d: TrustV, deeds: Seq<(Deed, TrustV)>)
    requires
        done(d, deeds),
    ensures
        remembers(d, outcome(d, deeds)),
    decreases deeds.len(),
{
    if deeds.len() > 0 {
        deeds_remember(d, deeds.drop_last());
        deed_remembers(outcome(d, deeds.drop_last()), deeds.last().0, deeds.last().1);
    }
}

/// A certificate that nothing else is wrong with: a full peer signed it, and it has neither expired
/// nor lasts longer than it may.
pub open spec fn certificate_in_order(d: TrustV, issuer: PeerId, c: BindCertificate, now: u64) -> bool {
    &&& c.record_type@ == "bind-cert"@
    &&& d.peers.dom().contains(issuer.rank())
    &&& d.peers[issuer.rank()].role is Full
    &&& crate::identity::signed_by(issuer, "bind-cert"@, certificate_payload(c), c.sig)
    &&& time_of(c.expires_at@) matches Ok(end) && now <= end && (time_of(c.bound_at@) matches Ok(
        start,
    ) && end - start <= MAX_CERTIFICATE_LIFETIME_MS)
}

/// A token that was taken back stays so, whatever is done afterwards and however often the store is
/// written and read: a certificate under it is refused, also where the record of the revocation was
/// dropped since.
pub proof fn revoked_token_never_returns(
    d: TrustV,
    deeds: Seq<(Deed, TrustV)>,
    issuer: PeerId,
    c: BindCertificate,
    now: u64,
)
    requires
        d.revoked.dom().contains(char_rank(c.token_id@)),
        done(d, deeds),
    ensures
        outcome(d, deeds).revoked.dom().contains(char_rank(c.token_id@)),
        install_fault(outcome(d, deeds), issuer, c, now) is Some,
        certificate_in_order(outcome(d, deeds), issuer, c, now) ==> install_fault(
            outcome(d, deeds),
            issuer,
            c,
            now,
        ) == Some(Error::Authorization("token revoked")),
{
    deeds_remember(d, deeds);
}

/// A ticket that was used is never accepted again, whatever is done afterwards: not when it is shown
/// again, and not when others write what they know.
pub proof fn used_ticket_is_never_accepted(
    d: TrustV,
    deeds: Seq<(Deed, TrustV)>,
    request: PairRequest,
    hints: Seq<DialHint>,
    authenticated: PeerId,
    now: u64,
)
    requires
        d.used_tickets.dom().contains(char_rank(request.ticket_id@)),
        done(d, deeds),
    ensures
        pair_fault(outcome(d, deeds), request, hints, authenticated, now) is Some,
{
    deeds_remember(d, deeds);
}

/// A peer is not trusted, and was removed.
pub open spec fn is_gone(d: TrustV, peer: PeerId) -> bool {
    !d.peers.dom().contains(peer.rank()) && version_at(d.peer_versions, peer.rank()) > 0
}

/// The deed neither pairs nor enrolls the peer, and what it writes over does not know of a later
/// pairing.
pub open spec fn leaves_out(before: TrustV, deed: Deed, peer: PeerId) -> bool {
    let k = peer.rank();
    match deed {
        Deed::Accept(_, p, at_once) => at_once ==> p.peer_id.rank() != k,
        Deed::Confirm(_, who) => who != peer,
        Deed::Join(_, p) => p.peer_id.rank() != k,
        Deed::Bind(bind, _, _) => bind.guest_peer_id.rank() != k,
        Deed::Install(_, c, _) => c.guest_peer_id.rank() != k,
        Deed::Save(stored, _) => !stored.peers.dom().contains(k) || version_at(
            stored.peer_versions,
            k,
        ) <= version_at(before.peer_versions, k),
        _ => true,
    }
}

/// None of the deeds pairs or enrolls the peer.
pub open spec fn leave_out(d: TrustV, deeds: Seq<(Deed, TrustV)>, peer: PeerId) -> bool
    decreases deeds.len(),
{
    deeds.len() == 0 || (leave_out(d, deeds.drop_last(), peer) && leaves_out(
        outcome(d, deeds.drop_last()),
        deeds.last().0,
        peer,
    ))
}

proof fn hearing_leaves_out(d: TrustV, s: Seq<Revocation>, now: u64, peer: PeerId)
    requires
        is_gone(d, peer),
    ensures
        is_gone(revocations_received(d, s, now), peer),
    decreases s.len(),
{
    if s.len() > 0 {
        hearing_leaves_out(d, s.drop_last(), now, peer);
        reveal(revocation_received);
    }
}

proof fn saving_leaves_out(mine: TrustV, stored: TrustV, now: u64, r: TrustV, peer: PeerId)
    requires
        is_gone(mine, peer),
        settles(mine, stored, now, r),
        leaves_out(mine, Deed::Save(stored, now), peer),
    ensures
        is_gone(r, peer),
{
    let (m, l) = choose|m: TrustDisk, l: TrustDisk|
        m@ == pruned(merged(mine, stored), now) && #[trigger] limited(m, l) && r
            == without_revoked(l@);
    let d = merged(mine, stored);
    let k = peer.rank();
    assert(l@.peers == d.peers);
    assert(r.peer_versions == d.peer_versions);
    assert(mine.peer_versions.dom().contains(k));
    assert(!d.peers.dom().contains(k));
}

/// A peer that was removed stays away as long as nobody pairs or enrolls it again: nothing else that
/// is done brings it back, and it is not put in.
pub proof fn removed_peer_stays_removed(d: TrustV, deeds: Seq<(Deed, TrustV)>, peer: PeerId)
    requires
        is_gone(d, peer),
        done(d, deeds),
        leave_out(d, deeds, peer),
    ensures
        is_gone(outcome(d, deeds), peer),
        insert_fault(outcome(d, deeds), peer) == Some(
            Error::Authorization("peer was removed; pair again with a new ticket"),
        ),
    decreases deeds.len(),
{
    if deeds.len() > 0 {
        let before = outcome(d, deeds.drop_last());
        removed_peer_stays_removed(d, deeds.drop_last(), peer);
        match deeds.last().0 {
            Deed::Insert(p) => {
                assert(p.peer_id.rank() != peer.rank());
            },
            Deed::Remove(other) => {
                assert(before.peers.dom().contains(other.rank()) ==> other.rank() != peer.rank());
            },
            Deed::Confirm(_, who) => {
                peer_rank_injective(who, peer);
            },
            Deed::Hear(s, now) => hearing_leaves_out(before, s, now, peer),
            Deed::Save(stored, now) => saving_leaves_out(
                before,
                stored,
                now,
                deeds.last().1,
                peer,
            ),
            _ => {},
        }
    }
}

/// A peer that is removed is gone.
pub proof fn removed_peer_is_gone(d: TrustV, peer: PeerId)
    requires
        d.peers.dom().contains(peer.rank()),
        version_of(d.peer_versions, peer) < u64::MAX,
    ensures
        is_gone(after_removal(d, peer), peer),
{
}

/// A pairing that was cancelled is never confirmed, whatever is done afterwards.
pub proof fn cancelled_pairing_is_never_confirmed(
    d: TrustV,
    deeds: Seq<(Deed, TrustV)>,
    ticket: String,
    peer: PeerId,
)
    requires
        d.cancelled_pairs.dom().contains(char_rank(ticket@)),
        done(d, deeds),
    ensures
        confirm_fault(outcome(d, deeds), ticket@, peer) == Some(
            Error::Authorization("pair confirmation was revoked"),
        ),
        confirmed(outcome(d, deeds), ticket, peer) == outcome(d, deeds),
{
    deeds_remember(d, deeds);
}

/// Every ticket under which a peer was paired or awaits confirmation, and every one that was
/// cancelled, was used here, or is one of those under which this device joined others.
pub open spec fn tickets_accounted_for(d: TrustV, joined: Set<Seq<int>>) -> bool {
    &&& forall|k: Seq<int>| #[trigger]
        d.cancelled_pairs.dom().contains(k) ==> d.used_tickets.dom().contains(k)
            || joined.contains(k)
    &&& forall|k: Seq<int>| #[trigger]
        d.awaiting_pair_confirm.dom().contains(k) ==> d.used_tickets.dom().contains(k)
            || joined.contains(k)
    &&& forall|q: Seq<int>| #[trigger]
        d.peer_pair_tickets.dom().contains(q) ==> d.used_tickets.dom().contains(
            char_rank(d.peer_pair_tickets[q]@),
        ) || joined.contains(char_rank(d.peer_pair_tickets[q]@))
}

/// The deeds join no other device but under these tickets, and what they write over accounts for
/// its tickets.
pub open spec fn joins_under(deeds: Seq<(Deed, TrustV)>, joined: Set<Seq<int>>) -> bool {
    forall|i: int|
        0 <= i < deeds.len() ==> match (#[trigger] deeds[i]).0 {
            Deed::Join(ticket, _) => joined.contains(char_rank(ticket.ticket_id@)),
            Deed::Save(stored, _) => tickets_accounted_for(stored, joined),
            _ => true,
        }
}

proof fn saving_accounts_for_tickets(
    mine: TrustV,
    stored: TrustV,
    now: u64,
    r: TrustV,
    joined: Set<Seq<int>>,
)
    requires
        settles(mine, stored, now, r),
        tickets_accounted_for(mine, joined),
        tickets_accounted_for(stored, joined),
    ensures
        tickets_accounted_for(r, joined),
{
    let (m, l) = choose|m: TrustDisk, l: TrustDisk|
        m@ == pruned(merged(mine, stored), now) && #[trigger] limited(m, l) && r
            == without_revoked(l@);
    let d = merged(mine, stored);
    assert(r.used_tickets == d.used_tickets);
    assert(r.cancelled_pairs == d.cancelled_pairs);
    assert(r.awaiting_pair_confirm == d.awaiting_pair_confirm);
    assert(r.peer_pair_tickets == d.peer_pair_tickets);
    assert forall|q: Seq<int>| #[trigger]
        d.peer_pair_tickets.dom().contains(q) implies d.used_tickets.dom().contains(
        char_rank(d.peer_pair_tickets[q]@),
    ) || joined.contains(char_rank(d.peer_pair_tickets[q]@)) by {
        assert(mine.peer_pair_tickets.dom().contains(q) || stored.peer_pair_tickets.dom().contains(
            q,
        ));
    }
    assert forall|k: Seq<int>| #[trigger]
        d.cancelled_pairs.dom().contains(k) implies d.used_tickets.dom().contains(k)
        || joined.contains(k) by {
        assert(mine.cancelled_pairs.dom().contains(k) || stored.cancelled_pairs.dom().contains(k));
    }
    assert forall|k: Seq<int>| #[trigger]
        d.awaiting_pair_confirm.dom().contains(k) implies d.used_tickets.dom().contains(k)
        || joined.contains(k) by {
        assert(mine.awaiting_pair_confirm.dom().contains(k)
            || stored.awaiting_pair_confirm.dom().contains(k));
    }
}

/// In every state that deeds lead to, from one in which it is so, every ticket that was cancelled
/// was used here or is one under which this device joined another.
pub proof fn cancelled_tickets_are_used(
    d: TrustV,
    deeds: Seq<(Deed, TrustV)>,
    joined: Set<Seq<int>>,
)
    requires
        tickets_accounted_for(d, joined),
        done(d, deeds),
        joins_under(deeds, joined),
    ensures
        tickets_accounted_for(outcome(d, deeds), joined),
    decreases deeds.len(),
{
    if deeds.len() > 0 {
        let front = deeds.drop_last();
        assert(joins_under(front, joined)) by {
            assert forall|i: int| 0 <= i < front.len() implies match (#[trigger] front[i]).0 {
                Deed::Join(ticket, _) => joined.contains(char_rank(ticket.ticket_id@)),
                Deed::Save(stored, _) => tickets_accounted_for(stored, joined),
                _ => true,
            } by {
                assert(front[i] == deeds[i]);
            }
        }
        cancelled_tickets_are_used(d, front, joined);
        let before = outcome(d, front);
        let after = deeds.last().1;
        assert(deeds[deeds.len() - 1] == deeds.last());
        match deeds.last().0 {
            Deed::Hear(s, now) => hearing_remembers(before, s, now),
            Deed::Save(stored, now) => saving_accounts_for_tickets(
                before,
                stored,
                now,
                after,
                joined,
            ),
            Deed::Confirm(ticket, peer) => confirming_accounts_for_tickets(
                before,
                ticket,
                peer,
                joined,
            ),
            Deed::Remove(peer) => removing_accounts_for_tickets(before, peer, joined),
            _ => {},
        }
    }
}

proof fn confirming_accounts_for_tickets(
    d: TrustV,
    ticket: String,
    peer: PeerId,
    joined: Set<Seq<int>>,
)
    requires
        tickets_accounted_for(d, joined),
    ensures
        tickets_accounted_for(confirmed(d, ticket, peer), joined),
{
    let after = confirmed(d, ticket, peer);
    assert forall|k: Seq<int>| #[trigger]
        after.awaiting_pair_confirm.dom().contains(k) implies after.used_tickets.dom().contains(k)
        || joined.contains(k) by {
        assert(d.awaiting_pair_confirm.dom().contains(k));
    }
    if after.peer_pair_tickets != d.peer_pair_tickets {
        assert(d.awaiting_pair_confirm.dom().contains(char_rank(ticket@)));
    }
}

proof fn removing_accounts_for_tickets(d: TrustV, peer: PeerId, joined: Set<Seq<int>>)
    requires
        tickets_accounted_for(d, joined),
    ensures
        tickets_accounted_for(after_removal(d, peer), joined),
{
    let after = after_removal(d, peer);
    let q = peer.rank();
    assert forall|k: Seq<int>| #[trigger]
        after.cancelled_pairs.dom().contains(k) implies after.used_tickets.dom().contains(k)
        || joined.contains(k) by {
        if d.cancelled_pairs.dom().contains(k) {
        } else if d.awaiting_pair_confirm.dom().contains(k) {
        } else {
            assert(d.peer_pair_tickets.dom().contains(q));
        }
    }
    assert forall|k: Seq<int>| #[trigger]
        after.awaiting_pair_confirm.dom().contains(k) implies after.used_tickets.dom().contains(k)
        || joined.contains(k) by {
        assert(d.awaiting_pair_confirm.dom().contains(k));
    }
    assert forall|x: Seq<int>| #[trigger]
        after.peer_pair_tickets.dom().contains(x) implies after.used_tickets.dom().contains(
        char_rank(after.peer_pair_tickets[x]@),
    ) || joined.contains(char_rank(after.peer_pair_tickets[x]@)) by {
        assert(d.peer_pair_tickets.dom().contains(x));
    }
}

/// A store with nothing in it accounts for its tickets.
pub proof fn empty_store_accounts_for_tickets(d: TrustV, joined: Set<Seq<int>>)
    requires
        d.cancelled_pairs.dom() == Set::<Seq<int>>::empty(),
        d.awaiting_pair_confirm.dom() == Set::<Seq<int>>::empty(),
        d.peer_pair_tickets.dom() == Set::<Seq<int>>::empty(),
    ensures
        tickets_accounted_for(d, joined),
{
}

/// A request that is accepted is for a ticket that was not cancelled, unless this device joined
/// another under the same ticket.
pub proof fn accepted_ticket_is_not_cancelled(
    d: TrustV,
    joined: Set<Seq<int>>,
    request: PairRequest,
    hints: Seq<DialHint>,
    authenticated: PeerId,
    now: u64,
)
    requires
        tickets_accounted_for(d, joined),
        pair_fault(d, request, hints, authenticated, now) is None,
        !joined.contains(char_rank(request.ticket_id@)),
    ensures
        !d.cancelled_pairs.dom().contains(char_rank(request.ticket_id@)),
{
}

} // verus!
