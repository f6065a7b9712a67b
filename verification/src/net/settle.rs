//! Folding what one process did to the trust store onto what others wrote meanwhile.
use vstd::prelude::*;

use crate::identity::PeerId;
use crate::net::clock::{parse_time, time_of};
use crate::net::pairing::TrustV;
use crate::net::trust::{StoredBindCertificate, StoredRevocation, TrustDisk, TrustedPeer};
use crate::order::{char_rank, Key};
use crate::table::{holds_at, kept, map_of_at, Table};
use crate::text::same_text;

verus! {

/// The most revocations that are kept.
pub const MAX_PERSISTED_REVOCATIONS: usize = 4096;

/// The most bind certificates that are kept.
pub const MAX_PERSISTED_BIND_CERTIFICATES: usize = 4096;

/// The version at a key, or zero.
pub open spec fn version_at(versions: Map<Seq<int>, u64>, k: Seq<int>) -> u64 {
    if versions.dom().contains(k) {
        versions[k]
    } else {
        0
    }
}

/// This process has a say about the peer at a key: it knows of it, and nobody else has paired or
/// removed it since.
pub open spec fn decides(mine: TrustV, stored: TrustV, k: Seq<int>) -> bool {
    &&& mine.peers.dom().contains(k) || mine.peer_versions.dom().contains(k)
    &&& version_at(mine.peer_versions, k) >= version_at(stored.peer_versions, k)
}

/// The entry at a key of one process laid over that of the others: taken over where there is one,
/// taken out where the process has a version but no entry.
pub open spec fn overlaid<V>(
    mine: Map<Seq<int>, V>,
    stored: Map<Seq<int>, V>,
    d: TrustV,
    other: TrustV,
) -> Map<Seq<int>, V> {
    Map::new(
        |k: Seq<int>|
            if decides(d, other, k) {
                mine.dom().contains(k) || (version_at(d.peer_versions, k) == 0
                    && stored.dom().contains(k))
            } else {
                stored.dom().contains(k)
            },
        |k: Seq<int>|
            if decides(d, other, k) && mine.dom().contains(k) {
                mine[k]
            } else {
                stored[k]
            },
    )
}

/// The versions once this process had its say.
pub open spec fn merged_versions(mine: TrustV, stored: TrustV) -> Map<Seq<int>, u64> {
    Map::new(
        |k: Seq<int>|
            stored.peer_versions.dom().contains(k) || (decides(mine, stored, k) && version_at(
                mine.peer_versions,
                k,
            ) > 0),
        |k: Seq<int>|
            if decides(mine, stored, k) && version_at(mine.peer_versions, k) > 0 {
                mine.peer_versions[k]
            } else {
                stored.peer_versions[k]
            },
    )
}

/// What one process did, laid over what is stored.
pub open spec fn merged(mine: TrustV, stored: TrustV) -> TrustV {
    let tickets = overlaid(mine.peer_pair_tickets, stored.peer_pair_tickets, mine, stored);
    let used = stored.used_tickets.union_prefer_right(mine.used_tickets);
    let cancelled = stored.cancelled_pairs.union_prefer_right(mine.cancelled_pairs);
    TrustV {
        mesh_profile: mine.mesh_profile,
        local_role: mine.local_role,
        peers: overlaid(mine.peers, stored.peers, mine, stored),
        peer_versions: merged_versions(mine, stored),
        peer_pair_tickets: tickets,
        cancelled_pairs: cancelled,
        pending_tickets: kept(
            stored.pending_tickets.union_prefer_right(mine.pending_tickets),
            |k: Seq<int>, t: crate::net::auth::PairTicket| !used.dom().contains(k),
        ),
        awaiting_pair_confirm: kept(
            stored.awaiting_pair_confirm.union_prefer_right(mine.awaiting_pair_confirm),
            |k: Seq<int>, p: TrustedPeer|
                !cancelled.dom().contains(k) && !paired_under(tickets, p.peer_id, k),
        ),
        used_tickets: used,
        bound_tokens: mine.bound_tokens.union_prefer_right(stored.bound_tokens),
        bind_certificates: stored.bind_certificates.union_prefer_right(mine.bind_certificates),
        revoked: stored.revoked.union_prefer_right(mine.revoked),
        revocations: stored.revocations.union_prefer_right(mine.revocations),
        control_nonces: stored.control_nonces.union_prefer_right(mine.control_nonces),
    }
}

/// The peer was paired under the ticket of that rank.
pub open spec fn paired_under(tickets: Map<Seq<int>, String>, peer: PeerId, ticket: Seq<int>) -> bool {
    tickets.dom().contains(peer.rank()) && char_rank(tickets[peer.rank()]@) == ticket
}

/// Lays one table of peers over another.
fn overlay<V>(
    mine: Table<PeerId, V>,
    stored: &mut Table<PeerId, V>,
    peers: &Vec<PeerId>,
    my_versions: &Table<PeerId, u64>,
    versions: &Table<PeerId, u64>,
    Ghost(d): Ghost<TrustV>,
    Ghost(other): Ghost<TrustV>,
)
    requires
        mine.wf(),
        old(stored).wf(),
        my_versions.wf(),
        versions.wf(),
        my_versions@ == d.peer_versions,
        versions@ == other.peer_versions,
        forall|k: Seq<int>|
            (d.peers.dom().contains(k) || d.peer_versions.dom().contains(k)) <==> exists|i: int|
                0 <= i < peers@.len() && (#[trigger] peers@[i]).rank() == k,
        forall|k: Seq<int>| #[trigger]
            mine@.dom().contains(k) ==> (exists|i: int|
                0 <= i < peers@.len() && (#[trigger] peers@[i]).rank() == k) || !decides(
                d,
                other,
                k,
            ),
    ensures
        final(stored).wf(),
        final(stored)@ == overlaid(mine@, old(stored)@, d, other),
{
    let mut mine = mine;
    let ghost m0 = mine@;
    let ghost s0 = stored@;
    let mut i: usize = 0;
    while i < peers.len()
        invariant
            mine.wf(),
            stored.wf(),
            my_versions.wf(),
            versions.wf(),
            my_versions@ == d.peer_versions,
            versions@ == other.peer_versions,
            i <= peers@.len(),
            forall|k: Seq<int>|
                (d.peers.dom().contains(k) || d.peer_versions.dom().contains(k)) <==> exists|j: int|
                    0 <= j < peers@.len() && (#[trigger] peers@[j]).rank() == k,
            forall|k: Seq<int>|
                (exists|j: int| 0 <= j < i && (#[trigger] peers@[j]).rank() == k)
                    ==> #[trigger] stored@.dom().contains(k) == overlaid(
                    m0,
                    s0,
                    d,
                    other,
                ).dom().contains(k) && (stored@.dom().contains(k) ==> stored@[k] == overlaid(
                    m0,
                    s0,
                    d,
                    other,
                )[k]),
            forall|k: Seq<int>|
                !(exists|j: int| 0 <= j < i && (#[trigger] peers@[j]).rank() == k)
                    ==> (#[trigger] stored@.dom().contains(k) == s0.dom().contains(k) && (
                stored@.dom().contains(k) ==> stored@[k] == s0[k])),
            forall|k: Seq<int>|
                !(exists|j: int| 0 <= j < i && (#[trigger] peers@[j]).rank() == k)
                    ==> (#[trigger] mine@.dom().contains(k) == m0.dom().contains(k) && (
                mine@.dom().contains(k) ==> mine@[k] == m0[k])),
        decreases peers.len() - i,
    {
        let peer = peers[i];
        let ghost k0 = peer.rank();
        let ghost seen = exists|j: int| 0 <= j < i && (#[trigger] peers@[j]).rank() == k0;
        let ghost was = stored@;
        let ghost had = mine@;
        let mut earlier = false;
        let mut j: usize = 0;
        while j < i
            invariant
                j <= i <= peers@.len(),
                peer == peers@[i as int],
                earlier <==> exists|q: int|
                    0 <= q < j && (#[trigger] peers@[q]).rank() == peer.rank(),
            decreases i - j,
        {
            proof {
                crate::identity::peer_rank_injective(peers@[j as int], peer);
            }
            if peers[j].same(&peer) {
                assert(peers@[j as int].rank() == peer.rank());
                earlier = true;
            }
            j += 1;
        }
        if !earlier {
            let my: u64 = match my_versions.get(&peer) {
                Some(v) => *v,
                None => 0,
            };
            let their: u64 = match versions.get(&peer) {
                Some(v) => *v,
                None => 0,
            };
            assert(peers@[i as int].rank() == k0);
            if my >= their {
                match mine.remove(&peer) {
                    Some(v) => {
                        stored.insert(peer, v);
                    },
                    None => {
                        if my > 0 {
                            stored.remove(&peer);
                        }
                    },
                }
            }
        }
        proof {
            let o = overlaid(m0, s0, d, other);
            assert forall|k: Seq<int>|
                (exists|q: int| 0 <= q < i + 1 && (#[trigger] peers@[q]).rank() == k)
                    implies #[trigger] stored@.dom().contains(k) == o.dom().contains(k) && (
            stored@.dom().contains(k) ==> stored@[k] == o[k]) by {
                if k != k0 {
                    let q = choose|q: int| 0 <= q < i + 1 && (#[trigger] peers@[q]).rank() == k;
                    assert(q < i);
                    assert(peers@[q].rank() == k);
                    assert(was.dom().contains(k) == o.dom().contains(k));
                } else if seen {
                    assert(was.dom().contains(k) == o.dom().contains(k));
                } else {
                    assert(had.dom().contains(k) == m0.dom().contains(k));
                    assert(was.dom().contains(k) == s0.dom().contains(k));
                }
            }
            assert forall|k: Seq<int>|
                !(exists|q: int| 0 <= q < i + 1 && (#[trigger] peers@[q]).rank() == k) implies (
            #[trigger] stored@.dom().contains(k) == s0.dom().contains(k) && (stored@.dom().contains(
                k,
            ) ==> stored@[k] == s0[k])) by {
                if k == k0 {
                    assert(peers@[i as int].rank() == k);
                }
                if exists|q: int| 0 <= q < i && (#[trigger] peers@[q]).rank() == k {
                    let q = choose|q: int| 0 <= q < i && (#[trigger] peers@[q]).rank() == k;
                    assert(peers@[q].rank() == k);
                }
                assert(was.dom().contains(k) == s0.dom().contains(k));
            }
            assert forall|k: Seq<int>|
                !(exists|q: int| 0 <= q < i + 1 && (#[trigger] peers@[q]).rank() == k) implies (
            #[trigger] mine@.dom().contains(k) == m0.dom().contains(k) && (mine@.dom().contains(k)
                ==> mine@[k] == m0[k])) by {
                if k == k0 {
                    assert(peers@[i as int].rank() == k);
                }
                if exists|q: int| 0 <= q < i && (#[trigger] peers@[q]).rank() == k {
                    let q = choose|q: int| 0 <= q < i && (#[trigger] peers@[q]).rank() == k;
                    assert(peers@[q].rank() == k);
                }
                assert(had.dom().contains(k) == m0.dom().contains(k));
            }
        }
        i += 1;
    }
    proof {
        let o = overlaid(m0, s0, d, other);
        assert forall|k: Seq<int>| #[trigger] stored@.dom().contains(k) == o.dom().contains(k) && (
        stored@.dom().contains(k) ==> stored@[k] == o[k]) by {
            if !(exists|q: int| 0 <= q < peers@.len() && (#[trigger] peers@[q]).rank() == k) {
                assert(!decides(d, other, k));
            }
        }
        assert(stored@.dom() =~= o.dom());
        assert(stored@ =~= o);
    }
}

/// The peers that this process knows of, by entry or by version.
fn known_peers(peers: &Table<PeerId, TrustedPeer>, versions: &Table<PeerId, u64>) -> (r: Vec<PeerId>)
    requires
        peers.wf(),
        versions.wf(),
    ensures
        forall|k: Seq<int>|
            (peers@.dom().contains(k) || versions@.dom().contains(k)) <==> exists|i: int|
                0 <= i < r@.len() && (#[trigger] r@[i]).rank() == k,
{
    let mut out: Vec<PeerId> = Vec::new();
    let mut i: usize = 0;
    while i < peers.entries.len()
        invariant
            i <= peers.entries@.len(),
            out@.len() == i,
            forall|j: int| 0 <= j < i ==> #[trigger] out@[j] == peers.entries@[j].0,
        decreases peers.entries.len() - i,
    {
        out.push(peers.entries[i].0);
        i += 1;
    }
    let n: usize = i;
    let mut j: usize = 0;
    while j < versions.entries.len()
        invariant
            n == peers.entries@.len(),
            j <= versions.entries@.len(),
            out@.len() == n + j,
            forall|q: int| 0 <= q < n ==> #[trigger] out@[q] == peers.entries@[q].0,
            forall|q: int| n <= q < n + j ==> #[trigger] out@[q] == versions.entries@[q - n].0,
        decreases versions.entries.len() - j,
    {
        out.push(versions.entries[j].0);
        j += 1;
    }
    proof {
        assert forall|k: Seq<int>|
            (peers@.dom().contains(k) || versions@.dom().contains(k)) <==> exists|q: int|
                0 <= q < out@.len() && (#[trigger] out@[q]).rank() == k by {
            if peers@.dom().contains(k) {
                let q = choose|q: int| holds_at(peers.entries@, k, q);
                assert(out@[q].rank() == k);
            }
            if versions@.dom().contains(k) {
                let q = choose|q: int| holds_at(versions.entries@, k, q);
                assert(out@[n + q].rank() == k);
            }
            if exists|q: int| 0 <= q < out@.len() && (#[trigger] out@[q]).rank() == k {
                let q = choose|q: int| 0 <= q < out@.len() && (#[trigger] out@[q]).rank() == k;
                if q < n {
                    map_of_at(peers.entries@, q);
                } else {
                    map_of_at(versions.entries@, q - n);
                }
            }
        }
    }
    out
}

/// Raises stored versions to those of this process.
fn raise_versions(mine: &Table<PeerId, u64>, stored: &mut Table<PeerId, u64>)
    requires
        mine.wf(),
        old(stored).wf(),
    ensures
        final(stored).wf(),
        forall|k: Seq<int>|
            #![trigger final(stored)@.dom().contains(k)]
            #![trigger final(stored)@[k]]
            {
                let v = version_at(mine@, k);
                let wins = v > 0 && v >= version_at(old(stored)@, k);
                &&& final(stored)@.dom().contains(k) == (old(stored)@.dom().contains(k) || wins)
                &&& wins ==> final(stored)@[k] == v
                &&& !wins && old(stored)@.dom().contains(k) ==> final(stored)@[k]
                    == old(stored)@[k]
            },
{
    let ghost s0 = stored@;
    let ghost entries = mine.entries@;
    let mut i: usize = 0;
    while i < mine.entries.len()
        invariant
            mine.wf(),
            stored.wf(),
            entries == mine.entries@,
            i <= entries.len(),
            forall|k: Seq<int>|
                #![trigger stored@.dom().contains(k)]
                #![trigger stored@[k]]
                {
                    let v = version_at(mine@, k);
                    let wins = v > 0 && v >= version_at(s0, k) && exists|j: int|
                        0 <= j < i && (#[trigger] entries[j]).0.rank() == k;
                    &&& stored@.dom().contains(k) == (s0.dom().contains(k) || wins)
                    &&& wins ==> stored@[k] == v
                    &&& !wins && s0.dom().contains(k) ==> stored@[k] == s0[k]
                },
        decreases mine.entries.len() - i,
    {
        let peer = mine.entries[i].0;
        let my = mine.entries[i].1;
        let ghost was = stored@;
        proof {
            map_of_at(entries, i as int);
            assert forall|j: int| 0 <= j < i implies (#[trigger] entries[j]).0.rank()
                != peer.rank() by {
                if entries[j].0.rank() == peer.rank() {
                    crate::table::position_unique(entries, i as int, j);
                }
            }
            assert(was.dom().contains(peer.rank()) == s0.dom().contains(peer.rank()));
        }
        let their: u64 = match stored.get(&peer) {
            Some(v) => *v,
            None => 0,
        };
        if my > 0 && my >= their {
            stored.insert(peer, my);
        }
        proof {
            assert forall|k: Seq<int>|
                #![trigger stored@.dom().contains(k)]
                #![trigger stored@[k]]
                {
                    let v = version_at(mine@, k);
                    let wins = v > 0 && v >= version_at(s0, k) && exists|j: int|
                        0 <= j < i + 1 && (#[trigger] entries[j]).0.rank() == k;
                    &&& stored@.dom().contains(k) == (s0.dom().contains(k) || wins)
                    &&& wins ==> stored@[k] == v
                    &&& !wins && s0.dom().contains(k) ==> stored@[k] == s0[k]
                } by {
                let had = exists|j: int| 0 <= j < i && (#[trigger] entries[j]).0.rank() == k;
                let has = exists|j: int| 0 <= j < i + 1 && (#[trigger] entries[j]).0.rank() == k;
                assert(was.dom().contains(k) || !was.dom().contains(k));
                if k == peer.rank() {
                    assert(entries[i as int].0.rank() == k);
                } else {
                    if has {
                        let j = choose|j: int|
                            0 <= j < i + 1 && (#[trigger] entries[j]).0.rank() == k;
                        assert(j < i);
                        assert(entries[j].0.rank() == k);
                    }
                    if had {
                        let j = choose|j: int| 0 <= j < i && (#[trigger] entries[j]).0.rank() == k;
                        assert(entries[j].0.rank() == k);
                    }
                }
            }
        }
        i += 1;
    }
    proof {
        assert forall|k: Seq<int>|
            #![trigger stored@.dom().contains(k)]
            #![trigger stored@[k]]
            {
                let v = version_at(mine@, k);
                let wins = v > 0 && v >= version_at(s0, k);
                &&& stored@.dom().contains(k) == (s0.dom().contains(k) || wins)
                &&& wins ==> stored@[k] == v
                &&& !wins && s0.dom().contains(k) ==> stored@[k] == s0[k]
            } by {
            if version_at(mine@, k) > 0 {
                let j = choose|j: int| holds_at(entries, k, j);
                assert(entries[j].0.rank() == k);
            }
            assert(stored@.dom().contains(k) || !stored@.dom().contains(k));
        }
    }
}

/// What one process did, laid over what is stored, so that no other process's work is lost.
pub fn merge_disk_state(mine: TrustDisk, stored: TrustDisk) -> (r: TrustDisk)
    requires
        mine.wf(),
        stored.wf(),
    ensures
        r.wf(),
        r@ == merged(mine@, stored@),
{
    let ghost d = mine@;
    let ghost o = stored@;
    let known = known_peers(&mine.peers, &mine.peer_versions);
    let mut peers = stored.peers;
    let mut tickets = stored.peer_pair_tickets;
    let mut versions = stored.peer_versions;
    proof {
        assert forall|k: Seq<int>| #[trigger] d.peer_pair_tickets.dom().contains(k) implies (exists|
            i: int,
        |
            0 <= i < known@.len() && (#[trigger] known@[i]).rank() == k) || !decides(d, o, k) by {
            if decides(d, o, k) {
                assert(d.peers.dom().contains(k) || d.peer_versions.dom().contains(k));
            }
        }
    }
    overlay(
        mine.peers,
        &mut peers,
        &known,
        &mine.peer_versions,
        &versions,
        Ghost(d),
        Ghost(o),
    );
    overlay(
        mine.peer_pair_tickets,
        &mut tickets,
        &known,
        &mine.peer_versions,
        &versions,
        Ghost(d),
        Ghost(o),
    );
    raise_versions(&mine.peer_versions, &mut versions);
    proof {
        let m = merged_versions(d, o);
        assert forall|k: Seq<int>|
            #![trigger versions@.dom().contains(k)]
            #![trigger m.dom().contains(k)]
            #![trigger versions@[k]]
            versions@.dom().contains(k) == m.dom().contains(k) && (versions@.dom().contains(k)
                ==> versions@[k] == m[k]) by {
            assert(versions@.dom().contains(k) || !versions@.dom().contains(k));
        }
        assert(versions@.dom() =~= m.dom());
        assert(versions@ =~= m);
    }
    let mut used = stored.used_tickets;
    used.extend(mine.used_tickets);
    let mut cancelled = stored.cancelled_pairs;
    cancelled.extend(mine.cancelled_pairs);
    let mut pending = stored.pending_tickets;
    pending.extend(mine.pending_tickets);
    let unused = |k: &String, t: &crate::net::auth::PairTicket| -> (b: bool)
        ensures
            b == !used@.dom().contains(k.rank()),
        { !used.contains(k) };
    pending.retain(
        unused,
        Ghost(|k: Seq<int>, t: crate::net::auth::PairTicket| !used@.dom().contains(k)),
    );
    let mut awaiting = stored.awaiting_pair_confirm;
    awaiting.extend(mine.awaiting_pair_confirm);
    let open = |k: &String, p: &TrustedPeer| -> (b: bool)
        ensures
            b == (!cancelled@.dom().contains(k.rank()) && !paired_under(
                tickets@,
                p.peer_id,
                k.rank(),
            )),
        { !cancelled.contains(k) && !is_paired_under(&tickets, &p.peer_id, k) };
    awaiting.retain(
        open,
        Ghost(
            |k: Seq<int>, p: TrustedPeer|
                !cancelled@.dom().contains(k) && !paired_under(tickets@, p.peer_id, k),
        ),
    );
    let mut bound = stored.bound_tokens;
    bound.fill(mine.bound_tokens);
    let mut certificates = stored.bind_certificates;
    certificates.extend(mine.bind_certificates);
    let mut revoked = stored.revoked;
    revoked.extend(mine.revoked);
    let mut revocations = stored.revocations;
    revocations.extend(mine.revocations);
    let mut nonces = stored.control_nonces;
    nonces.extend(mine.control_nonces);
    TrustDisk {
        mesh_profile: mine.mesh_profile,
        local_role: mine.local_role,
        peers,
        peer_versions: versions,
        peer_pair_tickets: tickets,
        cancelled_pairs: cancelled,
        pending_tickets: pending,
        awaiting_pair_confirm: awaiting,
        used_tickets: used,
        bound_tokens: bound,
        bind_certificates: certificates,
        revoked,
        revocations,
        control_nonces: nonces,
    }
}

fn is_paired_under(tickets: &Table<PeerId, String>, peer: &PeerId, ticket: &String) -> (r: bool)
    requires
        tickets.wf(),
    ensures
        r == paired_under(tickets@, *peer, ticket.rank()),
{
    match tickets.get(peer) {
        None => false,
        Some(t) => {
            proof {
                crate::order::char_rank_injective(t@, ticket@);
            }
            same_text(t.as_str(), ticket.as_str())
        },
    }
}

/// The time can be read and is not past.
pub open spec fn lasts(until: Seq<char>, now: u64) -> bool {
    time_of(until) matches Ok(end) && end >= now
}

fn still_lasts(until: &String, now: u64) -> (r: bool)
    ensures
        r == lasts(until@, now),
{
    match parse_time(until.as_str()) {
        Ok(end) => end >= now,
        Err(_) => false,
    }
}

/// What is stored without what can no longer allow or deny anything.
pub open spec fn pruned(d: TrustV, now: u64) -> TrustV {
    TrustV {
        revocations: kept(
            d.revocations,
            |k: Seq<int>, s: StoredRevocation| lasts(s.relevant_until@, now),
        ),
        bind_certificates: kept(
            d.bind_certificates,
            |k: Seq<int>, s: StoredBindCertificate| lasts(s.certificate.expires_at@, now),
        ),
        ..d
    }
}

/// Drops what can no longer allow or deny anything.
pub fn prune_expired(disk: &mut TrustDisk, now: u64)
    requires
        old(disk).wf(),
    ensures
        final(disk).wf(),
        final(disk)@ == pruned(old(disk)@, now),
{
    let relevant = |k: &String, s: &StoredRevocation| -> (b: bool)
        ensures
            b == lasts(s.relevant_until@, now),
        { still_lasts(&s.relevant_until, now) };
    disk.revocations.retain(
        relevant,
        Ghost(|k: Seq<int>, s: StoredRevocation| lasts(s.relevant_until@, now)),
    );
    let valid = |k: &PeerId, s: &StoredBindCertificate| -> (b: bool)
        ensures
            b == lasts(s.certificate.expires_at@, now),
        { still_lasts(&s.certificate.expires_at, now) };
    disk.bind_certificates.retain(
        valid,
        Ghost(|k: Seq<int>, s: StoredBindCertificate| lasts(s.certificate.expires_at@, now)),
    );
}

/// The entry at `i` is the first of those with the smallest age.
pub open spec fn is_oldest<K, V>(s: Seq<(K, V)>, age: spec_fn(V) -> int, i: int) -> bool {
    &&& 0 <= i < s.len()
    &&& forall|j: int| 0 <= j < s.len() ==> age(s[i].1) <= age(#[trigger] s[j].1)
    &&& forall|j: int| 0 <= j < i ==> age(s[i].1) < age(#[trigger] s[j].1)
}

/// The entries without the oldest, one after the other, until no more than `limit` are left.
pub open spec fn without_oldest<K, V>(
    s: Seq<(K, V)>,
    age: spec_fn(V) -> int,
    limit: int,
) -> Seq<(K, V)>
    decreases s.len(),
{
    if s.len() <= limit || limit < 0 {
        s
    } else {
        let i = choose|i: int| is_oldest(s, age, i);
        if 0 <= i < s.len() {
            without_oldest(s.remove(i), age, limit)
        } else {
            s
        }
    }
}

proof fn oldest_unique<K, V>(s: Seq<(K, V)>, age: spec_fn(V) -> int, i: int)
    requires
        is_oldest(s, age, i),
    ensures
        (choose|j: int| is_oldest(s, age, j)) == i,
{
    let j = choose|j: int| is_oldest(s, age, j);
    assert(is_oldest(s, age, j));
    if j < i {
        assert(age(s[i].1) < age(s[j].1));
    } else if i < j {
        assert(age(s[j].1) < age(s[i].1));
    }
}

proof fn some_is_oldest<K, V>(s: Seq<(K, V)>, age: spec_fn(V) -> int)
    requires
        s.len() > 0,
    ensures
        exists|i: int| is_oldest(s, age, i),
    decreases s.len(),
{
    let n = s.len() - 1;
    if n == 0 {
        assert(is_oldest(s, age, 0));
    } else {
        let front = s.drop_last();
        some_is_oldest(front, age);
        let i = choose|i: int| is_oldest(front, age, i);
        assert(front[i] == s[i]);
        if age(s[n].1) < age(s[i].1) {
            assert forall|j: int| 0 <= j < s.len() implies age(s[n].1) <= age(
                #[trigger] s[j].1,
            ) by {
                if j < n {
                    assert(front[j] == s[j]);
                    assert(age(front[i].1) <= age(front[j].1));
                }
            }
            assert forall|j: int| 0 <= j < n implies age(s[n].1) < age(#[trigger] s[j].1) by {
                assert(front[j] == s[j]);
                assert(age(front[i].1) <= age(front[j].1));
            }
            assert(is_oldest(s, age, n));
        } else {
            assert forall|j: int| 0 <= j < s.len() implies age(s[i].1) <= age(
                #[trigger] s[j].1,
            ) by {
                if j < n {
                    assert(front[j] == s[j]);
                    assert(age(front[i].1) <= age(front[j].1));
                }
            }
            assert forall|j: int| 0 <= j < i implies age(s[i].1) < age(#[trigger] s[j].1) by {
                assert(front[j] == s[j]);
            }
            assert(is_oldest(s, age, i));
        }
    }
}

/// No more entries than the limit are kept, all of them where there are no more, and none is dropped
/// for one that is older.
pub proof fn newest_are_kept<K, V>(s: Seq<(K, V)>, age: spec_fn(V) -> int, limit: int)
    requires
        0 <= limit,
    ensures
        without_oldest(s, age, limit).len() == if s.len() <= limit {
            s.len() as int
        } else {
            limit
        },
        s.len() <= limit ==> without_oldest(s, age, limit) == s,
        forall|x: (K, V)| #[trigger] without_oldest(s, age, limit).contains(x) ==> s.contains(x),
        forall|x: (K, V), y: (K, V)|
            #![trigger s.contains(x), without_oldest(s, age, limit).contains(y)]
            s.contains(x) && !without_oldest(s, age, limit).contains(x) && without_oldest(
                s,
                age,
                limit,
            ).contains(y) ==> age(x.1) <= age(y.1),
    decreases s.len(),
{
    if s.len() > limit {
        some_is_oldest(s, age);
        let i = choose|i: int| is_oldest(s, age, i);
        let rest = s.remove(i);
        newest_are_kept(rest, age, limit);
        let t = without_oldest(s, age, limit);
        assert forall|x: (K, V)| #[trigger] rest.contains(x) implies s.contains(x) by {
            let j = choose|j: int| 0 <= j < rest.len() && rest[j] == x;
            if j < i {
                assert(s[j] == x);
            } else {
                assert(s[j + 1] == x);
            }
        }
        assert forall|x: (K, V)| #[trigger] s.contains(x) implies rest.contains(x) || x == s[i] by {
            let j = choose|j: int| 0 <= j < s.len() && s[j] == x;
            if j < i {
                assert(rest[j] == x);
            } else if j > i {
                assert(rest[j - 1] == x);
            }
        }
        assert forall|x: (K, V), y: (K, V)|
            #![trigger s.contains(x), t.contains(y)]
            s.contains(x) && !t.contains(x) && t.contains(y) implies age(x.1) <= age(y.1) by {
            if !rest.contains(x) {
                assert(x == s[i]);
                assert(s.contains(y));
                let j = choose|j: int| 0 <= j < s.len() && s[j] == y;
                assert(age(s[i].1) <= age(s[j].1));
            }
        }
    }
}

/// Takes out the oldest entries until no more than `limit` are left.
pub fn evict_oldest<K: Key, V, F: Fn(&V) -> u64>(
    map: &mut Table<K, V>,
    limit: usize,
    age: F,
    Ghost(spec_age): Ghost<spec_fn(V) -> int>,
)
    requires
        old(map).wf(),
        forall|v: &V| age.requires((v,)),
        forall|v: &V, n: u64| age.ensures((v,), n) ==> n == spec_age(*v),
    ensures
        final(map).wf(),
        final(map).entries@ == without_oldest(old(map).entries@, spec_age, limit as int),
        final(map).entries@.len() <= limit || final(map).entries@ == old(map).entries@,
        final(map).entries@.len() <= limit,
        forall|k: Seq<int>| #[trigger]
            final(map)@.dom().contains(k) ==> old(map)@.dom().contains(k) && final(map)@[k]
                == old(map)@[k],
{
    let ghost all = map.entries@;
    let ghost m0 = map@;
    while map.entries.len() > limit
        invariant
            map.wf(),
            forall|v: &V| age.requires((v,)),
            forall|v: &V, n: u64| age.ensures((v,), n) ==> n == spec_age(*v),
            without_oldest(map.entries@, spec_age, limit as int) == without_oldest(
                all,
                spec_age,
                limit as int,
            ),
            forall|k: Seq<int>| #[trigger]
                map@.dom().contains(k) ==> m0.dom().contains(k) && map@[k] == m0[k],
        decreases map.entries.len(),
    {
        let mut best: usize = 0;
        let mut least: u64 = age(&map.entries[0].1);
        let mut i: usize = 1;
        while i < map.entries.len()
            invariant
                1 <= i <= map.entries@.len(),
                best < i,
                least == spec_age(map.entries@[best as int].1),
                forall|v: &V| age.requires((v,)),
                forall|v: &V, n: u64| age.ensures((v,), n) ==> n == spec_age(*v),
                forall|j: int| 0 <= j < i ==> least <= spec_age(#[trigger] map.entries@[j].1),
                forall|j: int| 0 <= j < best ==> least < spec_age(#[trigger] map.entries@[j].1),
            decreases map.entries.len() - i,
        {
            let n: u64 = age(&map.entries[i].1);
            if n < least {
                best = i;
                least = n;
            }
            i += 1;
        }
        proof {
            assert(is_oldest(map.entries@, spec_age, best as int));
            oldest_unique(map.entries@, spec_age, best as int);
        }
        map.remove_at(best);
    }
}

/// Until when a revocation matters, as far as that can be read.
pub open spec fn revocation_age(s: StoredRevocation) -> int {
    match time_of(s.relevant_until@) {
        Ok(t) => t as int,
        Err(_) => 0,
    }
}

/// Until when a certificate is good, as far as that can be read.
pub open spec fn certificate_age(s: StoredBindCertificate) -> int {
    match time_of(s.certificate.expires_at@) {
        Ok(t) => t as int,
        Err(_) => 0,
    }
}

/// What is stored, before and after the oldest revocations and certificates were dropped.
pub open spec fn limited(before: TrustDisk, after: TrustDisk) -> bool {
    &&& after.revocations.entries@ == without_oldest(
        before.revocations.entries@,
        |s: StoredRevocation| revocation_age(s),
        MAX_PERSISTED_REVOCATIONS as int,
    )
    &&& after.bind_certificates.entries@ == without_oldest(
        before.bind_certificates.entries@,
        |s: StoredBindCertificate| certificate_age(s),
        MAX_PERSISTED_BIND_CERTIFICATES as int,
    )
    &&& after.revocations.entries@.len() <= MAX_PERSISTED_REVOCATIONS
    &&& after.bind_certificates.entries@.len() <= MAX_PERSISTED_BIND_CERTIFICATES
    &&& after@ == (TrustV {
        revocations: after@.revocations,
        bind_certificates: after@.bind_certificates,
        ..before@
    })
}

/// Keeps the tables from growing without bound.
pub fn enforce_limits(disk: &mut TrustDisk)
    requires
        old(disk).wf(),
    ensures
        final(disk).wf(),
        limited(*old(disk), *final(disk)),
{
    let revocation = |s: &StoredRevocation| -> (n: u64)
        ensures
            n == revocation_age(*s),
        {
            match parse_time(s.relevant_until.as_str()) {
                Ok(t) => t,
                Err(_) => 0,
            }
        };
    evict_oldest(
        &mut disk.revocations,
        MAX_PERSISTED_REVOCATIONS,
        revocation,
        Ghost(|s: StoredRevocation| revocation_age(s)),
    );
    let certificate = |s: &StoredBindCertificate| -> (n: u64)
        ensures
            n == certificate_age(*s),
        {
            match parse_time(s.certificate.expires_at.as_str()) {
                Ok(t) => t,
                Err(_) => 0,
            }
        };
    evict_oldest(
        &mut disk.bind_certificates,
        MAX_PERSISTED_BIND_CERTIFICATES,
        certificate,
        Ghost(|s: StoredBindCertificate| certificate_age(s)),
    );
}

/// A stored revocation is about this guest and this token.
pub open spec fn about(s: StoredRevocation, guest: Seq<int>, token: Seq<char>) -> bool {
    s.record.guest_peer_id.rank() == guest && s.record.token_id@ == token
}

/// The peer's token, where it has one, was not taken back.
pub open spec fn peer_stands(
    revoked: Map<Seq<int>, ()>,
    revocations: Map<Seq<int>, StoredRevocation>,
    k: Seq<int>,
    p: TrustedPeer,
) -> bool {
    p.token_id matches Some(t) ==> {
        &&& !revoked.dom().contains(char_rank(t@))
        &&& !exists|q: Seq<int>| #[trigger]
            revocations.dom().contains(q) && about(revocations[q], k, t@)
    }
}

/// The token of the certificate was not taken back.
pub open spec fn certificate_stands(
    revoked: Map<Seq<int>, ()>,
    revocations: Map<Seq<int>, StoredRevocation>,
    k: Seq<int>,
    s: StoredBindCertificate,
) -> bool {
    &&& !revoked.dom().contains(char_rank(s.certificate.token_id@))
    &&& !exists|q: Seq<int>| #[trigger]
        revocations.dom().contains(q) && about(revocations[q], k, s.certificate.token_id@)
            && revocations[q].record.issuer == s.issuer
}

/// What is stored without the guests whose tokens were taken back.
pub open spec fn without_revoked(d: TrustV) -> TrustV {
    TrustV {
        peers: kept(d.peers, |k: Seq<int>, p: TrustedPeer| peer_stands(d.revoked, d.revocations, k, p)),
        bind_certificates: kept(
            d.bind_certificates,
            |k: Seq<int>, s: StoredBindCertificate|
                certificate_stands(d.revoked, d.revocations, k, s),
        ),
        ..d
    }
}

fn any_about(
    revocations: &Table<String, StoredRevocation>,
    guest: &PeerId,
    token: &String,
    issuer: Option<&PeerId>,
) -> (r: bool)
    requires
        revocations.wf(),
    ensures
        r <==> exists|q: Seq<int>| #[trigger]
            revocations@.dom().contains(q) && about(revocations@[q], guest.rank(), token@) && (
            issuer matches Some(by) ==> revocations@[q].record.issuer == *by),
{
    let test = |k: &String, s: &StoredRevocation| -> (b: bool)
        ensures
            b == (about(*s, guest.rank(), token@) && (issuer matches Some(by) ==> s.record.issuer
                == *by)),
        {
            proof {
                crate::identity::peer_rank_injective(s.record.guest_peer_id, *guest);
            }
            s.record.guest_peer_id.same(guest) && same_text(
                s.record.token_id.as_str(),
                token.as_str(),
            ) && match issuer {
                Some(by) => s.record.issuer.same(by),
                None => true,
            }
        };
    revocations.any(
        test,
        Ghost(
            |k: Seq<int>, s: StoredRevocation|
                about(s, guest.rank(), token@) && (issuer matches Some(by) ==> s.record.issuer
                    == *by),
        ),
    )
}

/// A token that was taken back takes its guest and its certificate with it.
pub fn remove_revoked_guests(disk: &mut TrustDisk)
    requires
        old(disk).wf(),
    ensures
        final(disk).wf(),
        final(disk)@ == without_revoked(old(disk)@),
{
    let ghost d = disk@;
    let revoked = &disk.revoked;
    let revocations = &disk.revocations;
    let peer_ok = |k: &PeerId, p: &TrustedPeer| -> (b: bool)
        ensures
            b == peer_stands(revoked@, revocations@, k.rank(), *p),
        {
            match &p.token_id {
                None => true,
                Some(t) => !revoked.contains(t) && !any_about(revocations, k, t, None),
            }
        };
    disk.peers.retain(
        peer_ok,
        Ghost(|k: Seq<int>, p: TrustedPeer| peer_stands(d.revoked, d.revocations, k, p)),
    );
    let certificate_ok = |k: &PeerId, s: &StoredBindCertificate| -> (b: bool)
        ensures
            b == certificate_stands(revoked@, revocations@, k.rank(), *s),
        {
            !revoked.contains(&s.certificate.token_id) && !any_about(
                revocations,
                k,
                &s.certificate.token_id,
                Some(&s.issuer),
            )
        };
    disk.bind_certificates.retain(
        certificate_ok,
        Ghost(
            |k: Seq<int>, s: StoredBindCertificate|
                certificate_stands(d.revoked, d.revocations, k, s),
        ),
    );
}

/// What goes into the file: what one process did laid over what is stored, without what has expired,
/// without the oldest beyond the limits, and without the guests whose tokens were taken back.
pub open spec fn settles(mine: TrustV, stored: TrustV, now: u64, r: TrustV) -> bool {
    exists|m: TrustDisk, l: TrustDisk|
        m@ == pruned(merged(mine, stored), now) && #[trigger] limited(m, l) && r
            == without_revoked(l@)
}

/// What goes into the file: what this process did laid over what others wrote, without what has
/// expired, without the oldest beyond the limits, and without the guests whose tokens were
/// taken back.
pub fn settle(mine: TrustDisk, stored: TrustDisk, now: u64) -> (r: TrustDisk)
    requires
        mine.wf(),
        stored.wf(),
    ensures
        r.wf(),
        settles(mine@, stored@, now, r@),
{
    let mut disk = merge_disk_state(mine, stored);
    prune_expired(&mut disk, now);
    let ghost m = disk;
    enforce_limits(&mut disk);
    let ghost l = disk;
    remove_revoked_guests(&mut disk);
    assert(limited(m, l));
    disk
}

/// A process that has not heard of a removal cannot undo it.
pub proof fn stale_process_cannot_restore(mine: TrustV, stored: TrustV, k: Seq<int>)
    requires
        version_at(mine.peer_versions, k) < version_at(stored.peer_versions, k),
    ensures
        merged(mine, stored).peers.dom().contains(k) == stored.peers.dom().contains(k),
        stored.peers.dom().contains(k) ==> merged(mine, stored).peers[k] == stored.peers[k],
        merged(mine, stored).peer_versions[k] == stored.peer_versions[k],
{
}

/// A removal wins over what is stored with an older version.
pub proof fn removal_wins(mine: TrustV, stored: TrustV, k: Seq<int>)
    requires
        !mine.peers.dom().contains(k),
        version_at(mine.peer_versions, k) > 0,
        version_at(mine.peer_versions, k) >= version_at(stored.peer_versions, k),
    ensures
        !merged(mine, stored).peers.dom().contains(k),
{
}

/// No token that anybody took back is forgotten, and no ticket that anybody used is pending.
pub proof fn nothing_comes_back(mine: TrustV, stored: TrustV, k: Seq<int>)
    ensures
        mine.revoked.dom().contains(k) || stored.revoked.dom().contains(k) ==> merged(
            mine,
            stored,
        ).revoked.dom().contains(k),
        mine.used_tickets.dom().contains(k) || stored.used_tickets.dom().contains(k) ==> !merged(
            mine,
            stored,
        ).pending_tickets.dom().contains(k),
        mine.cancelled_pairs.dom().contains(k) || stored.cancelled_pairs.dom().contains(k)
            ==> !merged(mine, stored).awaiting_pair_confirm.dom().contains(k),
{
}

/// What is written to the file forgets no token that anybody took back, no ticket that anybody used,
/// and no pairing that anybody cancelled, however many records are dropped on the way.
pub proof fn saving_forgets_nothing(mine: TrustV, stored: TrustV, now: u64, r: TrustV)
    requires
        settles(mine, stored, now, r),
    ensures
        r.revoked.dom() == mine.revoked.dom().union(stored.revoked.dom()),
        r.used_tickets.dom() == mine.used_tickets.dom().union(stored.used_tickets.dom()),
        r.cancelled_pairs.dom() == mine.cancelled_pairs.dom().union(stored.cancelled_pairs.dom()),
{
    let (m, l) = choose|m: TrustDisk, l: TrustDisk|
        m@ == pruned(merged(mine, stored), now) && #[trigger] limited(m, l) && r
            == without_revoked(l@);
    let d = merged(mine, stored);
    assert(r.revoked == d.revoked);
    assert(r.used_tickets == d.used_tickets);
    assert(r.cancelled_pairs == d.cancelled_pairs);
    assert(r.revoked.dom() =~= mine.revoked.dom().union(stored.revoked.dom()));
    assert(r.used_tickets.dom() =~= mine.used_tickets.dom().union(stored.used_tickets.dom()));
    assert(r.cancelled_pairs.dom() =~= mine.cancelled_pairs.dom().union(
        stored.cancelled_pairs.dom(),
    ));
}

/// After removing revoked guests, no peer and no certificate stands on a token that was taken
/// back.
pub proof fn no_guest_outlives_its_token(d: TrustV, k: Seq<int>)
    ensures
        ({
            let after = without_revoked(d);
            &&& after.peers.dom().contains(k) && after.peers[k].token_id is Some
                ==> !after.revoked.dom().contains(char_rank(after.peers[k].token_id->0@))
            &&& after.bind_certificates.dom().contains(k) ==> !after.revoked.dom().contains(
                char_rank(after.bind_certificates[k].certificate.token_id@),
            )
        }),
{
}

} // verus!
