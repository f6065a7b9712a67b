//! Taking tokens back, and telling other devices about it.
use vstd::prelude::*;

use crate::identity::{signature_of, Identity, PeerId};
use crate::net::auth::{shows_time, Role, MAX_REVOCATIONS_PER_MESSAGE};
use crate::net::bind::{revocation_check, revocation_payload, Revocation};
use crate::net::clock::{parse_time, time_of};
use crate::net::error::Error;
use crate::net::pairing::TrustV;
use crate::net::trust::{
    still_relevant, StoredBindCertificate, StoredRevocation, TrustStore, TrustedPeer,
};
use crate::order::{char_rank, Key};
use crate::table::kept;
use crate::text::{concat3, same_text};
use crate::util::hex_text;

verus! {

/// The name under which a revocation is stored: its issuer and the token.
pub open spec fn revocation_name(issuer: PeerId, token_id: Seq<char>) -> Seq<char> {
    hex_text(issuer.0@) + ":"@ + token_id
}

/// The name under which a revocation is stored.
pub fn revocation_key(issuer: PeerId, token_id: &str) -> (r: String)
    ensures
        r@ == revocation_name(issuer, token_id@),
{
    concat3(issuer.to_hex().as_str(), ":", token_id)
}

/// The first certificate, in the order of the guests, of a token and its issuer.
pub open spec fn first_certificate(
    s: Seq<(PeerId, StoredBindCertificate)>,
    id: Seq<char>,
    issuer: Seq<u8>,
) -> Option<StoredBindCertificate>
    decreases s.len(),
{
    if s.len() == 0 {
        None
    } else if s[0].1.certificate.token_id@ == id && s[0].1.issuer.0@ == issuer {
        Some(s[0].1)
    } else {
        first_certificate(s.drop_first(), id, issuer)
    }
}

/// The record that tells others about a token that was taken back.
pub open spec fn revocation_made(
    s: StoredRevocation,
    id: Seq<char>,
    cert: StoredBindCertificate,
    now: u64,
    issuer: Identity,
) -> bool {
    &&& s.record.record_type@ == "revocation"@
    &&& s.record.issuer.0@ == issuer.peer()
    &&& s.record.token_id@ == id
    &&& s.record.guest_peer_id == cert.certificate.guest_peer_id
    &&& shows_time(now as int, s.record.revoked_at@)
    &&& signature_of(issuer, "revoke"@, revocation_payload(s.record), s.record.sig)
    &&& s.relevant_until == cert.certificate.expires_at
}

/// What is stored once a token was taken back.
pub open spec fn token_taken_back(
    d: TrustV,
    id: Seq<char>,
    revocations: Map<Seq<int>, StoredRevocation>,
) -> TrustV {
    TrustV {
        revoked: d.revoked.insert(char_rank(id), ()),
        revocations,
        peers: kept(
            d.peers,
            |k: Seq<int>, p: TrustedPeer| !(p.token_id is Some && p.token_id->0@ == id),
        ),
        bound_tokens: d.bound_tokens.remove(char_rank(id)),
        bind_certificates: kept(
            d.bind_certificates,
            |k: Seq<int>, s: StoredBindCertificate| s.certificate.token_id@ != id,
        ),
        ..d
    }
}

/// A revocation that was received takes effect: its issuer is a full peer that signed it, and it
/// is about a guest that this device knows of.
#[verifier::opaque]
pub open spec fn takes_effect(d: TrustV, x: Revocation, now: u64) -> bool {
    &&& revocation_check(x, now) is Ok
    &&& d.peers.dom().contains(x.issuer.rank())
    &&& d.peers[x.issuer.rank()].role is Full
    &&& known_certificate(d, x) || known_revocation(d, x)
}

/// The guest is certified under the token and by the issuer of the revocation.
pub open spec fn known_certificate(d: TrustV, x: Revocation) -> bool {
    let k = x.guest_peer_id.rank();
    &&& d.bind_certificates.dom().contains(k)
    &&& d.bind_certificates[k].issuer == x.issuer
    &&& d.bind_certificates[k].certificate.token_id@ == x.token_id@
}

/// The revocation is stored already.
pub open spec fn known_revocation(d: TrustV, x: Revocation) -> bool {
    let k = char_rank(revocation_name(x.issuer, x.token_id@));
    &&& d.revocations.dom().contains(k)
    &&& d.revocations[k].record.issuer == x.issuer
    &&& d.revocations[k].record.guest_peer_id == x.guest_peer_id
}

/// What is stored once a revocation was received.
#[verifier::opaque]
pub open spec fn revocation_received(d: TrustV, x: Revocation, now: u64) -> TrustV {
    if !takes_effect(d, x, now) {
        d
    } else {
        let k = char_rank(revocation_name(x.issuer, x.token_id@));
        let g = x.guest_peer_id.rank();
        let until = if known_certificate(d, x) {
            d.bind_certificates[g].certificate.expires_at
        } else {
            d.revocations[k].relevant_until
        };
        TrustV {
            revocations: d.revocations.insert(
                k,
                StoredRevocation { record: x, relevant_until: until },
            ),
            revoked: d.revoked.insert(char_rank(x.token_id@), ()),
            peers: if d.peers.dom().contains(g) && d.peers[g].token_id is Some
                && d.peers[g].token_id->0@ == x.token_id@ {
                d.peers.remove(g)
            } else {
                d.peers
            },
            bind_certificates: d.bind_certificates.remove(g),
            ..d
        }
    }
}

/// What is stored once revocations were received, one after the other.
pub open spec fn revocations_received(d: TrustV, s: Seq<Revocation>, now: u64) -> TrustV
    decreases s.len(),
{
    if s.len() == 0 {
        d
    } else {
        revocation_received(revocations_received(d, s.drop_last(), now), s.last(), now)
    }
}

/// When a revocation was made, as far as that can be read.
pub open spec fn revoked_when(x: Revocation) -> u64 {
    match time_of(x.revoked_at@) {
        Ok(t) => t,
        Err(_) => 0,
    }
}

/// Where a record goes among others that stand newest first: behind all that are not older.
pub open spec fn place_in(s: Seq<Revocation>, x: Revocation) -> Seq<Revocation>
    decreases s.len(),
{
    if s.len() == 0 || revoked_when(s.last()) >= revoked_when(x) {
        s.push(x)
    } else {
        place_in(s.drop_last(), x).push(s.last())
    }
}

/// The records that still matter, newest first; those of the same time keep their order.
pub open spec fn newest_first(s: Seq<(String, StoredRevocation)>, now: u64) -> Seq<Revocation>
    decreases s.len(),
{
    if s.len() == 0 {
        Seq::empty()
    } else {
        let before = newest_first(s.drop_last(), now);
        if still_relevant(s.last().1, now) {
            place_in(before, s.last().1.record)
        } else {
            before
        }
    }
}

/// Records stand newest first.
pub open spec fn descending(s: Seq<Revocation>) -> bool {
    forall|i: int, j: int|
        0 <= i < j < s.len() ==> revoked_when(#[trigger] s[i]) >= revoked_when(#[trigger] s[j])
}

proof fn place_keeps_order(s: Seq<Revocation>, x: Revocation)
    requires
        descending(s),
    ensures
        descending(place_in(s, x)),
        place_in(s, x).len() == s.len() + 1,
        forall|i: int|
            0 <= i < place_in(s, x).len() ==> s.contains(#[trigger] place_in(s, x)[i])
                || place_in(s, x)[i] == x,
    decreases s.len(),
{
    if s.len() > 0 && revoked_when(s.last()) < revoked_when(x) {
        let p = s.drop_last();
        assert(descending(p));
        place_keeps_order(p, x);
        let t = place_in(p, x);
        let u = t.push(s.last());
        assert forall|i: int, j: int| 0 <= i < j < u.len() implies revoked_when(#[trigger] u[i])
            >= revoked_when(#[trigger] u[j]) by {
            if j == t.len() {
                assert(u[i] == t[i]);
                if t[i] != x {
                    assert(p.contains(t[i]));
                    let k = choose|k: int| 0 <= k < p.len() && p[k] == t[i];
                    assert(s[k] == t[i]);
                }
            } else {
                assert(u[i] == t[i] && u[j] == t[j]);
            }
        }
        assert forall|i: int| 0 <= i < u.len() implies s.contains(#[trigger] u[i]) || u[i] == x by {
            if i < t.len() {
                assert(u[i] == t[i]);
                if t[i] != x {
                    let k = choose|k: int| 0 <= k < p.len() && p[k] == t[i];
                    assert(s[k] == t[i]);
                }
            } else {
                assert(s[s.len() - 1] == u[i]);
            }
        }
    } else {
        let u = s.push(x);
        assert forall|i: int, j: int| 0 <= i < j < u.len() implies revoked_when(#[trigger] u[i])
            >= revoked_when(#[trigger] u[j]) by {
            if j == s.len() && i < s.len() - 1 {
                assert(revoked_when(s[i]) >= revoked_when(s[s.len() - 1]));
            }
        }
        assert forall|i: int| 0 <= i < u.len() implies s.contains(#[trigger] u[i]) || u[i] == x by {
            if i < s.len() {
                assert(s[i] == u[i]);
            }
        }
    }
}

/// What is told to others stands newest first.
pub proof fn newest_first_descends(s: Seq<(String, StoredRevocation)>, now: u64)
    ensures
        descending(newest_first(s, now)),
    decreases s.len(),
{
    if s.len() > 0 {
        newest_first_descends(s.drop_last(), now);
        place_keeps_order(newest_first(s.drop_last(), now), s.last().1.record);
    }
}

fn when(x: &Revocation) -> (r: u64)
    ensures
        r == revoked_when(*x),
{
    match parse_time(x.revoked_at.as_str()) {
        Ok(t) => t,
        Err(_) => 0,
    }
}

fn place(out: &mut Vec<Revocation>, x: Revocation)
    ensures
        final(out)@ == place_in(old(out)@, x),
{
    let ghost s = out@;
    let mut i: usize = out.len();
    let t = when(&x);
    proof {
        assert(s.take(s.len() as int) =~= s);
        assert(s.skip(s.len() as int) =~= Seq::<Revocation>::empty());
        assert(place_in(s, x) =~= place_in(s.take(i as int), x) + s.skip(i as int));
    }
    while i > 0 && when(&out[i - 1]) < t
        invariant
            i <= out@.len(),
            out@ == s,
            t == revoked_when(x),
            place_in(s, x) == place_in(s.take(i as int), x) + s.skip(i as int),
        decreases i,
    {
        proof {
            let a = s.take(i as int);
            assert(a.drop_last() =~= s.take(i - 1));
            assert(a.last() == s[i - 1]);
            assert(place_in(s.take(i - 1), x).push(s[i - 1]) + s.skip(i as int) =~= place_in(
                s.take(i - 1),
                x,
            ) + s.skip(i - 1));
        }
        i -= 1;
    }
    proof {
        let a = s.take(i as int);
        if i > 0 {
            assert(a.last() == s[i - 1]);
        }
        assert(s.insert(i as int, x) =~= a.push(x) + s.skip(i as int));
    }
    out.insert(i, x);
}

impl TrustStore {
    /// The revocations that others should hear of, newest first and no more than a message
    /// carries.
    pub fn current_revocations(&self, now: u64) -> (r: Vec<Revocation>)
        ensures
            r@ == ({
                let all = newest_first(self.disk.revocations.entries@, now);
                if all.len() > MAX_REVOCATIONS_PER_MESSAGE {
                    all.take(MAX_REVOCATIONS_PER_MESSAGE as int)
                } else {
                    all
                }
            }),
    {
        let ghost s = self.disk.revocations.entries@;
        let mut out: Vec<Revocation> = Vec::new();
        let mut i: usize = 0;
        assert(s.take(0) =~= Seq::<(String, StoredRevocation)>::empty());
        while i < self.disk.revocations.entries.len()
            invariant
                s == self.disk.revocations.entries@,
                i <= s.len(),
                out@ == newest_first(s.take(i as int), now),
            decreases self.disk.revocations.entries.len() - i,
        {
            proof {
                assert(s.take(i + 1).drop_last() =~= s.take(i as int));
                assert(s.take(i + 1).last() == s[i as int]);
            }
            let stored = &self.disk.revocations.entries[i].1;
            match parse_time(stored.relevant_until.as_str()) {
                Ok(end) => {
                    if now <= end {
                        place(&mut out, stored.record.clone());
                    }
                },
                Err(_) => {},
            }
            i += 1;
        }
        assert(s.take(i as int) =~= s);
        let ghost all = out@;
        out.truncate(MAX_REVOCATIONS_PER_MESSAGE);
        assert(all.len() > MAX_REVOCATIONS_PER_MESSAGE ==> out@ =~= all.take(
            MAX_REVOCATIONS_PER_MESSAGE as int,
        ));
        out
    }

    fn find_certificate(&self, id: &str, issuer: &PeerId) -> (r: Option<&StoredBindCertificate>)
        ensures
            r is Some <==> first_certificate(
                self.disk.bind_certificates.entries@,
                id@,
                issuer.0@,
            ) is Some,
            r matches Some(s) ==> first_certificate(
                self.disk.bind_certificates.entries@,
                id@,
                issuer.0@,
            ) == Some(*s),
    {
        let ghost s = self.disk.bind_certificates.entries@;
        let mut i: usize = 0;
        assert(s.skip(0) =~= s);
        while i < self.disk.bind_certificates.entries.len()
            invariant
                s == self.disk.bind_certificates.entries@,
                i <= s.len(),
                first_certificate(s, id@, issuer.0@) == first_certificate(
                    s.skip(i as int),
                    id@,
                    issuer.0@,
                ),
            decreases self.disk.bind_certificates.entries.len() - i,
        {
            assert(s.skip(i as int)[0] == s[i as int]);
            assert(s.skip(i as int).drop_first() =~= s.skip(i + 1));
            let stored = &self.disk.bind_certificates.entries[i].1;
            proof {
                crate::bytes::array_extensional(stored.issuer.0, issuer.0);
            }
            if same_text(stored.certificate.token_id.as_str(), id) && stored.issuer.same(issuer) {
                return Some(stored);
            }
            i += 1;
        }
        None
    }

    /// Takes a token of this device back: its guest is trusted no more, and others will hear
    /// of it.
    pub fn revoke_token(&mut self, id: &str, now: u64, issuer: &Identity) -> (r: Result<(), Error>)
        requires
            old(self).wf(),
        ensures
            final(self).wf(),
            r is Ok,
            ({
                let d = old(self).disk@;
                match first_certificate(
                    old(self).disk.bind_certificates.entries@,
                    id@,
                    issuer.peer(),
                ) {
                    None => final(self).disk@ == token_taken_back(d, id@, d.revocations),
                    Some(cert) => exists|s: StoredRevocation, by: PeerId| #[trigger]
                        revocation_made(s, id@, cert, now, *issuer) && by.0@ == issuer.peer()
                            && final(self).disk@ == token_taken_back(
                            d,
                            id@,
                            d.revocations.insert(
                                char_rank(#[trigger] revocation_name(by, id@)),
                                s,
                            ),
                        ),
                }
            }),
    {
        let ghost d = self.disk@;
        let me = issuer.peer_id();
        self.disk.revoked.insert(id.to_owned(), ());
        let ghost mut made: Option<StoredRevocation> = None;
        let found: Option<(PeerId, String)> = match self.find_certificate(id, &me) {
            None => None,
            Some(stored) => Some(
                (stored.certificate.guest_peer_id, stored.certificate.expires_at.clone()),
            ),
        };
        match found {
            None => {},
            Some((guest, until)) => {
                let record = match Revocation::sign(id.to_owned(), guest, now, issuer) {
                    Ok(x) => x,
                    Err(e) => {
                        return Err(e);
                    },
                };
                let stored = StoredRevocation { record, relevant_until: until };
                proof {
                    made = Some(stored);
                }
                self.disk.revocations.insert(revocation_key(me, id), stored);
            },
        }
        let other = |k: &PeerId, p: &TrustedPeer| -> (b: bool)
            ensures
                b == !(p.token_id is Some && p.token_id->0@ == id@),
            {
                match &p.token_id {
                    Some(t) => !same_text(t.as_str(), id),
                    None => true,
                }
            };
        self.disk.peers.retain(
            other,
            Ghost(|k: Seq<int>, p: TrustedPeer| !(p.token_id is Some && p.token_id->0@ == id@)),
        );
        let key = id.to_owned();
        self.disk.bound_tokens.remove(&key);
        let other_cert = |k: &PeerId, s: &StoredBindCertificate| -> (b: bool)
            ensures
                b == (s.certificate.token_id@ != id@),
            { !same_text(s.certificate.token_id.as_str(), id) };
        self.disk.bind_certificates.retain(
            other_cert,
            Ghost(|k: Seq<int>, s: StoredBindCertificate| s.certificate.token_id@ != id@),
        );
        proof {
            if let Some(s) = made {
                let cert = first_certificate(
                    old(self).disk.bind_certificates.entries@,
                    id@,
                    issuer.peer(),
                )->0;
                assert(revocation_made(s, id@, cert, now, *issuer));
                assert(self.disk@.revocations == d.revocations.insert(
                    char_rank(revocation_name(me, id@)),
                    s,
                ));
            }
        }
        Ok(())
    }

    /// Takes in one revocation; tells whether it took effect.
    fn receive_revocation(&mut self, record: &Revocation, now: u64) -> (r: bool)
        requires
            old(self).wf(),
        ensures
            final(self).wf(),
            r == takes_effect(old(self).disk@, *record, now),
            final(self).disk@ == revocation_received(old(self).disk@, *record, now),
            !r ==> final(self).disk@ == old(self).disk@,
    {
        let ghost d = self.disk@;
        proof {
            reveal(takes_effect);
            reveal(revocation_received);
        }
        match record.verify_at(now) {
            Ok(()) => {},
            Err(_) => {
                return false;
            },
        }
        match self.disk.peers.get(&record.issuer) {
            None => {
                return false;
            },
            Some(p) => {
                if p.role != Role::Full {
                    return false;
                }
            },
        }
        let key = revocation_key(record.issuer, record.token_id.as_str());
        let by_certificate: Option<String> = match self.disk.bind_certificates.get(
            &record.guest_peer_id,
        ) {
            None => None,
            Some(stored) => if stored.issuer.same(&record.issuer) && same_text(
                stored.certificate.token_id.as_str(),
                record.token_id.as_str(),
            ) {
                Some(stored.certificate.expires_at.clone())
            } else {
                None
            },
        };
        let until = match by_certificate {
            Some(until) => until,
            None => match self.disk.revocations.get(&key) {
                None => {
                    return false;
                },
                Some(stored) => if stored.record.issuer.same(&record.issuer)
                    && stored.record.guest_peer_id.same(&record.guest_peer_id) {
                    stored.relevant_until.clone()
                } else {
                    return false;
                },
            },
        };
        self.disk.revocations.insert(
            key,
            StoredRevocation { record: record.clone(), relevant_until: until },
        );
        self.disk.revoked.insert(record.token_id.clone(), ());
        let under_token = match self.disk.peers.get(&record.guest_peer_id) {
            None => false,
            Some(p) => match &p.token_id {
                None => false,
                Some(t) => same_text(t.as_str(), record.token_id.as_str()),
            },
        };
        if under_token {
            self.disk.peers.remove(&record.guest_peer_id);
        }
        self.disk.bind_certificates.remove(&record.guest_peer_id);
        true
    }

    /// Takes in the revocations of a message; tells whether any took effect.
    pub fn apply_revocations(&mut self, records: &Vec<Revocation>, now: u64) -> (r: Result<
        bool,
        Error,
    >)
        requires
            old(self).wf(),
        ensures
            final(self).wf(),
            r matches Err(e) ==> records@.len() > MAX_REVOCATIONS_PER_MESSAGE && e
                == Error::Protocol("revocation list exceeds 128 records") && final(self).disk
                == old(self).disk,
            r matches Ok(changed) ==> {
                &&& records@.len() <= MAX_REVOCATIONS_PER_MESSAGE
                &&& final(self).disk@ == revocations_received(old(self).disk@, records@, now)
                &&& !changed ==> final(self).disk@ == old(self).disk@
                &&& changed <==> exists|i: int|
                    0 <= i < records@.len() && takes_effect(
                        revocations_received(old(self).disk@, records@.take(i), now),
                        #[trigger] records@[i],
                        now,
                    )
            },
    {
        if records.len() > MAX_REVOCATIONS_PER_MESSAGE {
            return Err(Error::Protocol("revocation list exceeds 128 records"));
        }
        let ghost d = self.disk@;
        let mut changed = false;
        let mut i: usize = 0;
        assert(records@.take(0) =~= Seq::<Revocation>::empty());
        while i < records.len()
            invariant
                self.wf(),
                i <= records@.len(),
                self.disk@ == revocations_received(d, records@.take(i as int), now),
                !changed ==> self.disk@ == d,
                changed <==> exists|j: int|
                    0 <= j < i && takes_effect(
                        revocations_received(d, records@.take(j), now),
                        #[trigger] records@[j],
                        now,
                    ),
            decreases records.len() - i,
        {
            proof {
                assert(records@.take(i + 1).drop_last() =~= records@.take(i as int));
                assert(records@.take(i + 1).last() == records@[i as int]);
            }
            let effect = self.receive_revocation(&records[i], now);
            if effect {
                assert(takes_effect(
                    revocations_received(d, records@.take(i as int), now),
                    records@[i as int],
                    now,
                ));
                changed = true;
            }
            i += 1;
        }
        assert(records@.take(i as int) =~= records@);
        Ok(changed)
    }
}

/// A revocation that took effect leaves its token taken back, and no guest under it.
pub proof fn revocation_is_final(d: TrustV, x: Revocation, now: u64)
    requires
        takes_effect(d, x, now),
    ensures
        ({
            let after = revocation_received(d, x, now);
            let g = x.guest_peer_id.rank();
            &&& after.revoked.dom().contains(char_rank(x.token_id@))
            &&& !after.bind_certificates.dom().contains(g)
            &&& after.peers.dom().contains(g) ==> !(after.peers[g].token_id is Some
                && after.peers[g].token_id->0@ == x.token_id@)
        }),
{
    reveal(takes_effect);
    reveal(revocation_received);
}

/// Taking a token back leaves no peer and no certificate under it, wherever it was used.
pub proof fn taking_back_is_final(d: TrustV, id: Seq<char>, revocations: Map<Seq<int>, StoredRevocation>)
    ensures
        ({
            let after = token_taken_back(d, id, revocations);
            &&& after.revoked.dom().contains(char_rank(id))
            &&& !after.bound_tokens.dom().contains(char_rank(id))
            &&& forall|k: Seq<int>| #[trigger]
                after.peers.dom().contains(k) ==> !(after.peers[k].token_id is Some
                    && after.peers[k].token_id->0@ == id)
            &&& forall|k: Seq<int>| #[trigger]
                after.bind_certificates.dom().contains(k)
                    ==> after.bind_certificates[k].certificate.token_id@ != id
        }),
{
}

} // verus!
