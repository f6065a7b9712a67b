//! What holds of the leases of a capsule whatever has come in: where the one that holds comes from,
//! and which of two that race prevails.
use vstd::prelude::*;

use crate::bytes::array_extensional;
use crate::capsule::{genesis_hash, lease_hash, lease_is, Genesis, LabelOp, LeaseRecord};
use crate::history::{lease_at, lease_form, lease_verdict, predecessor, races, signed_higher};
use crate::identity::PeerId;
use crate::manifest::RawManifest;
use crate::order::{byte_rank, lex_asymmetric, lex_total};
use crate::store::{begun, with_label, with_lease, with_snapshots, CapsuleV};
use crate::succession::{lawful, lease_found, push_contains, step_is_lawful, told_apart};

verus! {

/// What comes in to a capsule.
pub enum Arrival {
    Lease(LeaseRecord),
    Snapshot(RawManifest, String),
    Label(LabelOp, PeerId),
}

/// A capsule once something has come in.
pub open spec fn arrived(c: CapsuleV, a: Arrival) -> CapsuleV {
    match a {
        Arrival::Lease(l) => with_lease(c, l),
        Arrival::Snapshot(raw, at) => with_snapshots(c, seq![(raw, at)]),
        Arrival::Label(op, signer) => with_label(c, op, signer),
    }
}

/// A capsule once everything has come in, one after the other.
pub open spec fn grown(g: Genesis, arrivals: Seq<Arrival>) -> CapsuleV
    decreases arrivals.len(),
{
    if arrivals.len() == 0 {
        begun(g)
    } else {
        arrived(grown(g, arrivals.drop_last()), arrivals.last())
    }
}

/// What a first lease is: a grant to the creator that names the hash of the capsule.
pub open spec fn first_grant(g: Genesis, l: LeaseRecord) -> bool {
    &&& l.epoch == 1
    &&& l.mode is Grant
    &&& l.holder == g.created_by
    &&& genesis_hash(g) == Ok::<Seq<u8>, crate::error::Error>(l.prev_hash.0@)
}

/// A lease goes back, by the hash that each names and one epoch at a time, to a first one. Each is of
/// this capsule and lasts as long as a lease may.
pub open spec fn descends(g: Genesis, s: Seq<LeaseRecord>, l: LeaseRecord) -> bool
    decreases l.epoch,
{
    &&& s.contains(l)
    &&& lease_form(g.capsule_id, l) is None
    &&& if l.epoch <= 1 {
        first_grant(g, l)
    } else {
        exists|p: LeaseRecord|
            p.epoch + 1 == l.epoch && #[trigger] lease_is(p, l.prev_hash) && descends(g, s, p)
    }
}

/// Every lease of a capsule goes back to its first one, and the one that holds is among them.
pub open spec fn rooted(c: CapsuleV) -> bool {
    &&& forall|l: LeaseRecord| #[trigger] c.leases.contains(l) ==> descends(c.genesis, c.leases, l)
    &&& match c.held {
        None => c.leases.len() == 0,
        Some(w) => c.leases.contains(w),
    }
}

proof fn descent_stays(g: Genesis, s: Seq<LeaseRecord>, r: LeaseRecord, l: LeaseRecord)
    requires
        descends(g, s, l),
    ensures
        descends(g, s.push(r), l),
    decreases l.epoch,
{
    push_contains(s, r);
    if l.epoch > 1 {
        let p = choose|p: LeaseRecord|
            p.epoch + 1 == l.epoch && #[trigger] lease_is(p, l.prev_hash) && descends(g, s, p);
        descent_stays(g, s, r, p);
    }
}

proof fn lease_keeps_root(c: CapsuleV, r: LeaseRecord)
    requires
        rooted(c),
    ensures
        rooted(with_lease(c, r)),
        with_lease(c, r).genesis == c.genesis,
{
    reveal(lease_verdict);
    let verdict = lease_verdict(c.genesis, c.leases, c.held, r);
    if verdict is Wins || verdict is Loses {
        let g = c.genesis;
        let s = c.leases;
        let t = s.push(r);
        push_contains(s, r);
        assert(t.contains(r));
        assert forall|l: LeaseRecord| #[trigger] t.contains(l) implies descends(g, t, l) by {
            if s.contains(l) {
                descent_stays(g, s, r, l);
            } else {
                assert(l == r);
                if r.epoch > 1 {
                    lease_found(s, r.prev_hash, 0);
                    let p = if races(c.held, r) {
                        s[lease_at(s, r.prev_hash, 0)]
                    } else {
                        c.held->0
                    };
                    assert(s.contains(p));
                    assert(lease_is(p, r.prev_hash));
                    assert(p.epoch + 1 == r.epoch);
                    descent_stays(g, s, r, p);
                } else {
                    if !races(c.held, r) && c.held is Some {
                        let w = c.held->0;
                        assert(descends(g, s, w));
                    }
                }
            }
        }
        if c.held is Some && verdict is Loses {
            assert(t.contains(c.held->0));
        }
    }
}

proof fn snapshot_keeps_leases(c: CapsuleV, raw: RawManifest, at: String)
    ensures
        with_snapshots(c, seq![(raw, at)]).leases == c.leases,
        with_snapshots(c, seq![(raw, at)]).held == c.held,
        with_snapshots(c, seq![(raw, at)]).genesis == c.genesis,
{
    let s = seq![(raw, at)];
    assert(s.drop_last().len() == 0);
    assert(with_snapshots(c, s.drop_last()) == c);
}

/// In every state of a capsule the lease that holds goes back, through leases that were taken in
/// and without a gap, to the grant to the creator; it is of this capsule and lasts as long as a
/// lease may.
pub proof fn holder_descends(g: Genesis, arrivals: Seq<Arrival>)
    ensures
        grown(g, arrivals).genesis == g,
        rooted(grown(g, arrivals)),
        grown(g, arrivals).held matches Some(w) ==> descends(g, grown(g, arrivals).leases, w),
    decreases arrivals.len(),
{
    if arrivals.len() > 0 {
        let before = grown(g, arrivals.drop_last());
        holder_descends(g, arrivals.drop_last());
        match arrivals.last() {
            Arrival::Lease(r) => lease_keeps_root(before, r),
            Arrival::Snapshot(raw, at) => snapshot_keeps_leases(before, raw, at),
            Arrival::Label(op, signer) => {},
        }
    }
}

/// Nothing that comes in takes the lease away or lowers the epoch of the one that holds.
pub proof fn epoch_never_falls(c: CapsuleV, a: Arrival)
    ensures
        c.held matches Some(w) ==> (arrived(c, a).held matches Some(x) && x.epoch >= w.epoch),
{
    match a {
        Arrival::Lease(r) => {
            if lease_verdict(c.genesis, c.leases, c.held, r) is Wins {
                crate::history::epochs_never_fall(c.genesis, c.leases, c.held, r);
            }
        },
        Arrival::Snapshot(raw, at) => snapshot_keeps_leases(c, raw, at),
        Arrival::Label(op, signer) => {},
    }
}

/// In every state of a capsule each lease is in its place: it follows the one that prevails in the
/// epoch before, and the one that holds prevails in the last epoch. No two leases may have the same
/// hash, nor two of one epoch the same signature.
pub proof fn history_is_lawful(g: Genesis, arrivals: Seq<Arrival>)
    requires
        told_apart(grown(g, arrivals).leases),
    ensures
        lawful(g, grown(g, arrivals).leases, grown(g, arrivals).held),
    decreases arrivals.len(),
{
    if arrivals.len() > 0 {
        let before = grown(g, arrivals.drop_last());
        holder_descends(g, arrivals.drop_last());
        match arrivals.last() {
            Arrival::Lease(r) => {
                let verdict = lease_verdict(g, before.leases, before.held, r);
                if verdict is Wins || verdict is Loses {
                    push_contains(before.leases, r);
                    crate::succession::part_told_apart(before.leases.push(r), before.leases);
                    history_is_lawful(g, arrivals.drop_last());
                    step_is_lawful(g, before.leases, before.held, r);
                } else {
                    history_is_lawful(g, arrivals.drop_last());
                }
            },
            Arrival::Snapshot(raw, at) => {
                snapshot_keeps_leases(before, raw, at);
                history_is_lawful(g, arrivals.drop_last());
            },
            Arrival::Label(op, signer) => {
                history_is_lawful(g, arrivals.drop_last());
            },
        }
    }
}

/// A lease that would follow the one that holds: it names its hash, is of the next epoch, and is
/// taken in.
pub open spec fn succeeds(c: CapsuleV, r: LeaseRecord) -> bool {
    &&& !races(c.held, r)
    &&& lease_verdict(c.genesis, c.leases, c.held, r) is Wins
}

/// Whatever has the hash of a lease has its epoch and its holder.
pub open spec fn stands_alone(s: Seq<LeaseRecord>, w: LeaseRecord) -> bool {
    forall|l: LeaseRecord| #[trigger]
        s.contains(l) && lease_hash(l) is Ok && lease_hash(l) == lease_hash(w) ==> l.epoch == w.epoch
            && l.holder == w.holder
}

/// The second of two leases that follow the same one: it is taken in, and holds exactly where its
/// signature is the higher one.
proof fn second_of_two(c: CapsuleV, a: LeaseRecord, b: LeaseRecord)
    requires
        rooted(c),
        succeeds(c, a),
        succeeds(c, b),
        c.held matches Some(w) ==> stands_alone(c.leases.push(a), w),
    ensures
        with_lease(c, a).held == Some(a),
        with_lease(c, a).leases == c.leases.push(a),
        ({
            let verdict = lease_verdict(c.genesis, c.leases.push(a), Some(a), b);
            if signed_higher(b, a) {
                verdict is Wins
            } else {
                verdict is Loses
            }
        }),
{
    reveal(lease_verdict);
    let t = c.leases.push(a);
    push_contains(c.leases, a);
    array_extensional(a.prev_hash.0, b.prev_hash.0);
    assert(races(Some(a), b));
    if b.epoch != 1 {
        if let Some(w) = c.held {
            assert(t.contains(w));
            assert(lease_is(w, b.prev_hash));
            lease_found(t, b.prev_hash, 0);
            let j = t.index_of(w);
            assert(lease_is(t[j], b.prev_hash));
            assert(t.contains(t[lease_at(t, b.prev_hash, 0)]));
        }
    }
    assert(predecessor(c.genesis, t, Some(a), b) == predecessor(c.genesis, c.leases, c.held, b));
}

/// Of two leases that follow the same one, the one with the higher signature holds in the end,
/// whichever came in first. The first is taken as the holder when it comes in, the second exactly
/// where its signature is the higher one. No lease of another epoch or holder may have the hash of
/// the one they follow.
pub proof fn race_ends_alike(g: Genesis, arrivals: Seq<Arrival>, a: LeaseRecord, b: LeaseRecord)
    requires
        succeeds(grown(g, arrivals), a),
        succeeds(grown(g, arrivals), b),
        a.sig != b.sig,
        grown(g, arrivals).held matches Some(w) ==> stands_alone(
            grown(g, arrivals).leases.push(a),
            w,
        ) && stands_alone(grown(g, arrivals).leases.push(b), w),
    ensures
        ({
            let c = grown(g, arrivals);
            let winner = if signed_higher(a, b) {
                a
            } else {
                b
            };
            let loser = if signed_higher(a, b) {
                b
            } else {
                a
            };
            &&& signed_higher(winner, loser)
            &&& with_lease(with_lease(c, a), b).held == Some(winner)
            &&& with_lease(with_lease(c, b), a).held == Some(winner)
            &&& with_lease(c, a).held == Some(a)
            &&& with_lease(c, b).held == Some(b)
            &&& lease_verdict(g, c.leases.push(loser), Some(loser), winner) is Wins
            &&& lease_verdict(g, c.leases.push(winner), Some(winner), loser) is Loses
        }),
{
    let c = grown(g, arrivals);
    holder_descends(g, arrivals);
    second_of_two(c, a, b);
    second_of_two(c, b, a);
    crate::order::byte_rank_injective(a.sig.0@, b.sig.0@);
    array_extensional(a.sig.0, b.sig.0);
    lex_total(byte_rank(a.sig.0@), byte_rank(b.sig.0@));
    lex_asymmetric(byte_rank(a.sig.0@), byte_rank(b.sig.0@));
}

} // verus!
