//! How peers enter and leave the trust store.
use vstd::prelude::*;

use crate::identity::PeerId;
use crate::net::auth::MeshProfile;
use crate::net::auth::PairTicket;
use crate::net::error::Error;
use crate::net::transport::{
    best_hints, hint_texts, hints_fault, merge_addresses, nothing_lost, texts, with_hints,
    DialHint,
};
use crate::net::trust::{
    LocalRole, StoredBindCertificate, StoredRevocation, TrustDisk, TrustStore, TrustedPeer,
};
use crate::order::{char_rank, Key};
use crate::table::{kept, map_of_at, Table};

verus! {

/// What is stored, table by table.
pub struct TrustV {
    pub mesh_profile: MeshProfile,
    pub local_role: LocalRole,
    pub peers: Map<Seq<int>, TrustedPeer>,
    pub peer_versions: Map<Seq<int>, u64>,
    pub peer_pair_tickets: Map<Seq<int>, String>,
    pub cancelled_pairs: Map<Seq<int>, ()>,
    pub pending_tickets: Map<Seq<int>, PairTicket>,
    pub awaiting_pair_confirm: Map<Seq<int>, TrustedPeer>,
    pub used_tickets: Map<Seq<int>, ()>,
    pub bound_tokens: Map<Seq<int>, PeerId>,
    pub bind_certificates: Map<Seq<int>, StoredBindCertificate>,
    pub revoked: Map<Seq<int>, ()>,
    pub revocations: Map<Seq<int>, StoredRevocation>,
    pub control_nonces: Map<Seq<int>, u64>,
}

impl View for TrustDisk {
    type V = TrustV;

    open spec fn view(&self) -> TrustV {
        TrustV {
            mesh_profile: self.mesh_profile,
            local_role: self.local_role,
            peers: self.peers@,
            peer_versions: self.peer_versions@,
            peer_pair_tickets: self.peer_pair_tickets@,
            cancelled_pairs: self.cancelled_pairs@,
            pending_tickets: self.pending_tickets@,
            awaiting_pair_confirm: self.awaiting_pair_confirm@,
            used_tickets: self.used_tickets@,
            bound_tokens: self.bound_tokens@,
            bind_certificates: self.bind_certificates@,
            revoked: self.revoked@,
            revocations: self.revocations@,
            control_nonces: self.control_nonces@,
        }
    }
}

/// A set of names with more names in it.
pub open spec fn with_names(m: Map<Seq<int>, ()>, more: Set<Seq<int>>) -> Map<Seq<int>, ()> {
    Map::new(|r: Seq<int>| m.dom().contains(r) || more.contains(r), |r: Seq<int>| ())
}

/// How often a peer was paired or removed.
pub open spec fn version_of(versions: Map<Seq<int>, u64>, peer: PeerId) -> int {
    if versions.dom().contains(peer.rank()) {
        versions[peer.rank()] as int
    } else {
        0
    }
}

/// The tokens of the certificates that a peer issued.
pub open spec fn issued_tokens(
    certificates: Map<Seq<int>, StoredBindCertificate>,
    issuer: PeerId,
) -> Set<Seq<int>> {
    Set::new(
        |r: Seq<int>|
            exists|k: Seq<int>| #[trigger]
                certificates.dom().contains(k) && certificates[k].issuer == issuer && char_rank(
                    certificates[k].certificate.token_id@,
                ) == r,
    )
}

/// The tickets under which a peer awaits confirmation.
pub open spec fn awaiting_of(awaiting: Map<Seq<int>, TrustedPeer>, peer: PeerId) -> Set<Seq<int>> {
    Set::new(|r: Seq<int>| awaiting.dom().contains(r) && awaiting[r].peer_id == peer)
}

/// What is stored once a peer was removed. Everything that could bring it back is used up: its
/// ticket and those it awaits are cancelled, its token and those it issued are taken back, and
/// every ticket that was pending is spent.
pub open spec fn peer_removed(d: TrustV, peer: PeerId) -> TrustV {
    let gone = d.peers[peer.rank()];
    let own = match gone.token_id {
        Some(t) => Set::empty().insert(char_rank(t@)),
        None => Set::empty(),
    };
    let ticket = if d.peer_pair_tickets.dom().contains(peer.rank()) {
        Set::empty().insert(char_rank(d.peer_pair_tickets[peer.rank()]@))
    } else {
        Set::empty()
    };
    TrustV {
        peers: d.peers.remove(peer.rank()),
        peer_versions: d.peer_versions.insert(
            peer.rank(),
            (version_of(d.peer_versions, peer) + 1) as u64,
        ),
        peer_pair_tickets: d.peer_pair_tickets.remove(peer.rank()),
        cancelled_pairs: with_names(
            with_names(d.cancelled_pairs, ticket),
            awaiting_of(d.awaiting_pair_confirm, peer),
        ),
        awaiting_pair_confirm: kept(
            d.awaiting_pair_confirm,
            |k: Seq<int>, p: TrustedPeer| p.peer_id != peer,
        ),
        used_tickets: with_names(d.used_tickets, d.pending_tickets.dom()),
        revoked: with_names(
            with_names(d.revoked, own),
            issued_tokens(d.bind_certificates, peer),
        ),
        ..d
    }
}

/// What is stored once a peer was to be removed: nothing changes where it is not trusted.
pub open spec fn after_removal(d: TrustV, peer: PeerId) -> TrustV {
    if d.peers.dom().contains(peer.rank()) {
        peer_removed(d, peer)
    } else {
        d
    }
}

/// Adds one name.
fn add_name(t: &mut Table<String, ()>, name: &String)
    requires
        old(t).wf(),
    ensures
        final(t).wf(),
        final(t)@ == with_names(old(t)@, Set::empty().insert(char_rank(name@))),
{
    let ghost before = t@;
    t.insert(name.clone(), ());
    assert(t@ =~= with_names(before, Set::empty().insert(char_rank(name@))));
}

/// Adds the names of all entries of another table.
fn add_keys<V>(t: &mut Table<String, ()>, other: &Table<String, V>)
    requires
        old(t).wf(),
        other.wf(),
    ensures
        final(t).wf(),
        final(t)@ == with_names(old(t)@, other@.dom()),
{
    let ghost before = t@;
    let mut i: usize = 0;
    assert(t@ =~= with_names(before, Set::empty()));
    let ghost mut added: Set<Seq<int>> = Set::empty();
    while i < other.entries.len()
        invariant
            t.wf(),
            other.wf(),
            i <= other.entries@.len(),
            t@ == with_names(before, added),
            forall|r: Seq<int>|
                added.contains(r) <==> exists|j: int|
                    0 <= j < i && #[trigger] other.entries@[j].0.rank() == r,
        decreases other.entries.len() - i,
    {
        let ghost was = t@;
        let ghost r0 = other.entries@[i as int].0.rank();
        t.insert(other.entries[i].0.clone(), ());
        proof {
            let more = added.insert(r0);
            assert forall|r: Seq<int>|
                more.contains(r) <==> exists|j: int|
                    0 <= j < i + 1 && #[trigger] other.entries@[j].0.rank() == r by {
                if more.contains(r) {
                    if r == r0 {
                        assert(other.entries@[i as int].0.rank() == r);
                    } else {
                        let j = choose|j: int|
                            0 <= j < i && #[trigger] other.entries@[j].0.rank() == r;
                        assert(other.entries@[j].0.rank() == r);
                    }
                }
            }
            added = more;
            assert(t@ =~= with_names(before, added));
        }
        i += 1;
    }
    proof {
        assert forall|r: Seq<int>| added.contains(r) <==> other@.dom().contains(r) by {
            if added.contains(r) {
                let j = choose|j: int|
                    0 <= j < other.entries@.len() && #[trigger] other.entries@[j].0.rank() == r;
                map_of_at(other.entries@, j);
            }
            if other@.dom().contains(r) {
                let j = choose|j: int| crate::table::holds_at(other.entries@, r, j);
                assert(other.entries@[j].0.rank() == r);
            }
        }
        assert(added =~= other@.dom());
    }
}

/// Adds the tokens of the certificates that a peer issued.
fn add_issued(
    t: &mut Table<String, ()>,
    certificates: &Table<PeerId, StoredBindCertificate>,
    issuer: &PeerId,
)
    requires
        old(t).wf(),
        certificates.wf(),
    ensures
        final(t).wf(),
        final(t)@ == with_names(old(t)@, issued_tokens(certificates@, *issuer)),
{
    let ghost before = t@;
    let ghost entries = certificates.entries@;
    let ghost mut added: Set<Seq<int>> = Set::empty();
    let mut i: usize = 0;
    assert(t@ =~= with_names(before, added));
    while i < certificates.entries.len()
        invariant
            t.wf(),
            certificates.wf(),
            entries == certificates.entries@,
            i <= entries.len(),
            t@ == with_names(before, added),
            forall|r: Seq<int>|
                added.contains(r) <==> exists|j: int|
                    0 <= j < i && (#[trigger] entries[j]).1.issuer == *issuer && char_rank(
                        entries[j].1.certificate.token_id@,
                    ) == r,
        decreases certificates.entries.len() - i,
    {
        let ghost r0 = char_rank(entries[i as int].1.certificate.token_id@);
        let ghost more = if entries[i as int].1.issuer == *issuer {
            added.insert(r0)
        } else {
            added
        };
        if certificates.entries[i].1.issuer.same(issuer) {
            t.insert(certificates.entries[i].1.certificate.token_id.clone(), ());
        }
        proof {
            assert forall|r: Seq<int>|
                more.contains(r) <==> exists|j: int|
                    0 <= j < i + 1 && (#[trigger] entries[j]).1.issuer == *issuer && char_rank(
                        entries[j].1.certificate.token_id@,
                    ) == r by {
                if more.contains(r) {
                    if added.contains(r) {
                        let j = choose|j: int|
                            0 <= j < i && (#[trigger] entries[j]).1.issuer == *issuer && char_rank(
                                entries[j].1.certificate.token_id@,
                            ) == r;
                        assert(entries[j].1.issuer == *issuer);
                    } else {
                        assert(entries[i as int].1.issuer == *issuer);
                    }
                }
            }
            assert(t@ =~= with_names(before, more));
            added = more;
        }
        i += 1;
    }
    proof {
        let all = issued_tokens(certificates@, *issuer);
        assert forall|r: Seq<int>| added.contains(r) <==> all.contains(r) by {
            if added.contains(r) {
                let j = choose|j: int|
                    0 <= j < entries.len() && (#[trigger] entries[j]).1.issuer == *issuer
                        && char_rank(entries[j].1.certificate.token_id@) == r;
                map_of_at(entries, j);
                assert(certificates@.dom().contains(entries[j].0.rank()));
            }
            if all.contains(r) {
                let k = choose|k: Seq<int>| #[trigger]
                    certificates@.dom().contains(k) && certificates@[k].issuer == *issuer
                        && char_rank(certificates@[k].certificate.token_id@) == r;
                let j = choose|j: int| crate::table::holds_at(entries, k, j);
                map_of_at(entries, j);
                assert(entries[j].1.issuer == *issuer);
            }
        }
        assert(added =~= all);
    }
}

/// Adds the tickets under which a peer awaits confirmation.
fn add_awaiting(t: &mut Table<String, ()>, awaiting: &Table<String, TrustedPeer>, peer: &PeerId)
    requires
        old(t).wf(),
        awaiting.wf(),
    ensures
        final(t).wf(),
        final(t)@ == with_names(old(t)@, awaiting_of(awaiting@, *peer)),
{
    let ghost before = t@;
    let ghost entries = awaiting.entries@;
    let ghost mut added: Set<Seq<int>> = Set::empty();
    let mut i: usize = 0;
    assert(t@ =~= with_names(before, added));
    while i < awaiting.entries.len()
        invariant
            t.wf(),
            awaiting.wf(),
            entries == awaiting.entries@,
            i <= entries.len(),
            t@ == with_names(before, added),
            forall|r: Seq<int>|
                added.contains(r) <==> exists|j: int|
                    0 <= j < i && (#[trigger] entries[j]).1.peer_id == *peer && entries[j].0.rank()
                        == r,
        decreases awaiting.entries.len() - i,
    {
        let ghost r0 = entries[i as int].0.rank();
        let ghost more = if entries[i as int].1.peer_id == *peer {
            added.insert(r0)
        } else {
            added
        };
        if awaiting.entries[i].1.peer_id.same(peer) {
            t.insert(awaiting.entries[i].0.clone(), ());
        }
        proof {
            assert forall|r: Seq<int>|
                more.contains(r) <==> exists|j: int|
                    0 <= j < i + 1 && (#[trigger] entries[j]).1.peer_id == *peer
                        && entries[j].0.rank() == r by {
                if more.contains(r) {
                    if added.contains(r) {
                        let j = choose|j: int|
                            0 <= j < i && (#[trigger] entries[j]).1.peer_id == *peer
                                && entries[j].0.rank() == r;
                        assert(entries[j].1.peer_id == *peer);
                    } else {
                        assert(entries[i as int].1.peer_id == *peer);
                    }
                }
            }
            assert(t@ =~= with_names(before, more));
            added = more;
        }
        i += 1;
    }
    proof {
        let all = awaiting_of(awaiting@, *peer);
        assert forall|r: Seq<int>| added.contains(r) <==> all.contains(r) by {
            if added.contains(r) {
                let j = choose|j: int|
                    0 <= j < entries.len() && (#[trigger] entries[j]).1.peer_id == *peer
                        && entries[j].0.rank() == r;
                map_of_at(entries, j);
            }
            if all.contains(r) {
                let j = choose|j: int| crate::table::holds_at(entries, r, j);
                map_of_at(entries, j);
                assert(entries[j].1.peer_id == *peer);
            }
        }
        assert(added =~= all);
    }
}

/// What stands in the way of trusting a peer: it was removed, and was not paired again.
pub open spec fn insert_fault(d: TrustV, peer: PeerId) -> Option<Error> {
    if d.peer_versions.dom().contains(peer.rank()) && !d.peers.dom().contains(peer.rank()) {
        Some(Error::Authorization("peer was removed; pair again with a new ticket"))
    } else {
        None
    }
}

/// What is stored once a peer is trusted.
pub open spec fn peer_inserted(d: TrustV, p: TrustedPeer) -> TrustV {
    TrustV { peers: d.peers.insert(p.peer_id.rank(), p), ..d }
}

/// What is stored once a ticket is shown.
pub open spec fn ticket_registered(d: TrustV, ticket: PairTicket) -> TrustV {
    TrustV {
        pending_tickets: d.pending_tickets.insert(char_rank(ticket.ticket_id@), ticket),
        ..d
    }
}

/// The nonces that were taken in the last ten minutes.
pub open spec fn fresh_nonces(d: TrustV, now: u64) -> Map<Seq<int>, u64> {
    kept(d.control_nonces, |k: Seq<int>, t: u64| now - t <= 600_000)
}

impl TrustStore {
    /// Trusts a peer, unless it was removed.
    pub fn insert(&mut self, p: TrustedPeer) -> (r: Result<(), Error>)
        requires
            old(self).wf(),
        ensures
            final(self).wf(),
            match r {
                Err(e) => insert_fault(old(self).disk@, p.peer_id) == Some(e) && final(self).disk
                    == old(self).disk,
                Ok(()) => insert_fault(old(self).disk@, p.peer_id) is None && final(self).disk@
                    == peer_inserted(old(self).disk@, p),
            },
    {
        if self.disk.peer_versions.contains(&p.peer_id) && !self.disk.peers.contains(&p.peer_id) {
            return Err(Error::Authorization("peer was removed; pair again with a new ticket"));
        }
        self.disk.peers.insert(p.peer_id, p);
        Ok(())
    }

    fn advance_peer_version(&mut self, peer: PeerId)
        requires
            old(self).wf(),
            version_of(old(self).disk@.peer_versions, peer) < u64::MAX,
        ensures
            final(self).wf(),
            final(self).disk@ == (TrustV {
                peer_versions: old(self).disk@.peer_versions.insert(
                    peer.rank(),
                    (version_of(old(self).disk@.peer_versions, peer) + 1) as u64,
                ),
                ..old(self).disk@
            }),
    {
        let version: u64 = match self.disk.peer_versions.get(&peer) {
            Some(v) => *v,
            None => 0,
        };
        self.disk.peer_versions.insert(peer, version + 1);
    }

    /// Removes a peer for good: pairing again takes a ticket made after this.
    pub fn remove_peer(&mut self, peer: PeerId) -> (r: bool)
        requires
            old(self).wf(),
            old(self).disk@.peers.dom().contains(peer.rank()) ==> version_of(
                old(self).disk@.peer_versions,
                peer,
            ) < u64::MAX,
        ensures
            final(self).wf(),
            r == old(self).disk@.peers.dom().contains(peer.rank()),
            final(self).disk@ == after_removal(old(self).disk@, peer),
    {
        let ghost d = self.disk@;
        let removed = match self.disk.peers.remove(&peer) {
            None => {
                assert(self.disk@.peers =~= d.peers);
                return false;
            },
            Some(removed) => removed,
        };
        self.advance_peer_version(peer);
        match self.disk.peer_pair_tickets.remove(&peer) {
            Some(ticket) => {
                add_name(&mut self.disk.cancelled_pairs, &ticket);
            },
            None => {
                assert(with_names(d.cancelled_pairs, Set::empty()) =~= d.cancelled_pairs);
            },
        }
        match &removed.token_id {
            Some(token) => {
                add_name(&mut self.disk.revoked, token);
            },
            None => {
                assert(with_names(d.revoked, Set::empty()) =~= d.revoked);
            },
        }
        add_issued(&mut self.disk.revoked, &self.disk.bind_certificates, &peer);
        add_keys(&mut self.disk.used_tickets, &self.disk.pending_tickets);
        add_awaiting(&mut self.disk.cancelled_pairs, &self.disk.awaiting_pair_confirm, &peer);
        let stays = |k: &String, p: &TrustedPeer| -> (b: bool)
            ensures
                b == (p.peer_id != peer),
            { !p.peer_id.same(&peer) };
        self.disk.awaiting_pair_confirm.retain(
            stays,
            Ghost(|k: Seq<int>, p: TrustedPeer| p.peer_id != peer),
        );
        true
    }

    /// Takes note of addresses at which a peer was seen.
    pub fn update_addresses(&mut self, peer: PeerId, addresses: Vec<DialHint>) -> (r: Result<
        (),
        Error,
    >)
        requires
            old(self).wf(),
        ensures
            final(self).wf(),
            r matches Err(e) ==> final(self).disk == old(self).disk && addresses@.len() > 0
                && old(self).disk@.peers.dom().contains(peer.rank()) && hints_fault(addresses@)
                == Some(e),
            r is Ok ==> if addresses@.len() == 0 || !old(self).disk@.peers.dom().contains(
                peer.rank(),
            ) {
                final(self).disk == old(self).disk
            } else {
                let old_peer = old(self).disk@.peers[peer.rank()];
                let new_peer = final(self).disk@.peers[peer.rank()];
                &&& hints_fault(addresses@) is None
                &&& final(self).disk@ == (TrustV {
                    peers: old(self).disk@.peers.insert(peer.rank(), new_peer),
                    ..old(self).disk@
                })
                &&& new_peer == (TrustedPeer { addresses: new_peer.addresses, ..old_peer })
                &&& texts(new_peer.addresses@) == best_hints(
                    with_hints(texts(old_peer.addresses@), addresses@),
                )
                &&& nothing_lost(
                    texts(old_peer.addresses@),
                    hint_texts(addresses@),
                    with_hints(texts(old_peer.addresses@), addresses@),
                )
                &&& with_hints(texts(old_peer.addresses@), addresses@).len() <= 8 ==> nothing_lost(
                    texts(old_peer.addresses@),
                    hint_texts(addresses@),
                    texts(new_peer.addresses@),
                )
            },
    {
        if addresses.len() == 0 {
            return Ok(());
        }
        let merged = match self.disk.peers.get(&peer) {
            None => {
                return Ok(());
            },
            Some(p) => match merge_addresses(&p.addresses, &addresses) {
                Err(e) => {
                    return Err(e);
                },
                Ok(merged) => merged,
            },
        };
        let ghost before = self.disk@.peers;
        match self.disk.peers.remove(&peer) {
            Some(p) => {
                let p = TrustedPeer {
                    peer_id: p.peer_id,
                    name: p.name,
                    role: p.role,
                    x25519_pk: p.x25519_pk,
                    relay_key: p.relay_key,
                    token_id: p.token_id,
                    scopes: p.scopes,
                    expires_at: p.expires_at,
                    addresses: merged,
                };
                self.disk.peers.insert(peer, p);
                assert(self.disk@.peers =~= before.insert(peer.rank(), p));
            },
            None => {},
        }
        Ok(())
    }

    /// Takes note of a ticket that this device shows.
    pub fn register_ticket(&mut self, ticket: PairTicket)
        requires
            old(self).wf(),
        ensures
            final(self).wf(),
            final(self).disk@ == ticket_registered(old(self).disk@, ticket),
    {
        self.disk.pending_tickets.insert(ticket.ticket_id.clone(), ticket);
    }

    /// Takes a nonce, once, and forgets those that are older than ten minutes.
    pub fn consume_control_nonce(&mut self, nonce: &str, now: u64) -> (r: Result<(), Error>)
        requires
            old(self).wf(),
        ensures
            final(self).wf(),
            ({
                let fresh = fresh_nonces(old(self).disk@, now);
                &&& r == if fresh.dom().contains(char_rank(nonce@)) {
                    Err::<(), Error>(Error::Authorization("replayed control"))
                } else {
                    Ok(())
                }
                &&& final(self).disk@ == (TrustV {
                    control_nonces: if r is Ok {
                        fresh.insert(char_rank(nonce@), now)
                    } else {
                        fresh
                    },
                    ..old(self).disk@
                })
            }),
    {
        let fresh = |k: &String, t: &u64| -> (b: bool)
            ensures
                b == (now - *t <= 600_000),
            { now.saturating_sub(*t) <= 600_000 };
        self.disk.control_nonces.retain(
            fresh,
            Ghost(|k: Seq<int>, t: u64| now - t <= 600_000),
        );
        let key = nonce.to_owned();
        if self.disk.control_nonces.contains(&key) {
            return Err(Error::Authorization("replayed control"));
        }
        self.disk.control_nonces.insert(key, now);
        Ok(())
    }
}

/// A nonce that was taken is refused for the next ten minutes.
pub proof fn nonce_taken_once(d: TrustV, nonce: Seq<char>, first: u64, second: u64)
    requires
        d.control_nonces.dom().contains(char_rank(nonce)),
        d.control_nonces[char_rank(nonce)] == first,
        second - first <= 600_000,
    ensures
        fresh_nonces(d, second).dom().contains(char_rank(nonce)),
{
}

} // verus!
