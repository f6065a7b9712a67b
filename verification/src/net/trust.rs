//! The peers that a device trusts, and what it lets them do.
//!
//! The store is kept in a file that several processes write. Here it is a value: the caller reads
//! and writes the file, and `settle` folds what one process did onto what others wrote meanwhile.
use vstd::prelude::*;

use crate::identity::PeerId;
use crate::net::auth::{
    scopes_allow, Direction, EnrollmentToken, MeshProfile, PairTicket, Role, Scopes,
};
use crate::net::bind::{BindCertificate, Revocation};
use crate::net::clock::{parse_time, time_of};
use crate::net::error::Error;
use crate::order::{char_rank, Key};
use crate::table::Table;
use crate::text::same_text;

verus! {

/// What this device is in its mesh.
#[derive(Clone, Debug, PartialEq, Eq)]
pub enum LocalRole {
    Full,
    Guest { token: Box<EnrollmentToken> },
}

/// A peer that is trusted.
#[derive(Clone, Debug, PartialEq, Eq)]
pub struct TrustedPeer {
    pub peer_id: PeerId,
    pub name: String,
    pub role: Role,
    pub x25519_pk: [u8; 32],
    pub relay_key: Option<[u8; 32]>,
    pub token_id: Option<String>,
    pub scopes: Option<Scopes>,
    pub expires_at: Option<String>,
    pub addresses: Vec<String>,
}

/// A revocation, and until when it matters.
#[derive(Clone, Debug, PartialEq, Eq)]
pub struct StoredRevocation {
    pub record: Revocation,
    pub relevant_until: String,
}

/// A certificate, and who issued it.
#[derive(Clone, Debug, PartialEq, Eq)]
pub struct StoredBindCertificate {
    pub issuer: PeerId,
    pub certificate: BindCertificate,
}

/// All that is stored.
#[derive(Clone, Debug, PartialEq, Eq)]
pub struct TrustDisk {
    pub mesh_profile: MeshProfile,
    pub local_role: LocalRole,
    pub peers: Table<PeerId, TrustedPeer>,
    /// How often a peer was paired or removed: a removal is a version without a peer.
    pub peer_versions: Table<PeerId, u64>,
    pub peer_pair_tickets: Table<PeerId, String>,
    pub cancelled_pairs: Table<String, ()>,
    pub pending_tickets: Table<String, PairTicket>,
    pub awaiting_pair_confirm: Table<String, TrustedPeer>,
    pub used_tickets: Table<String, ()>,
    pub bound_tokens: Table<String, PeerId>,
    pub bind_certificates: Table<PeerId, StoredBindCertificate>,
    pub revoked: Table<String, ()>,
    pub revocations: Table<String, StoredRevocation>,
    pub control_nonces: Table<String, u64>,
}

impl TrustDisk {
    /// Every table is in order.
    pub open spec fn wf(&self) -> bool {
        &&& self.peers.wf()
        &&& self.peer_versions.wf()
        &&& self.peer_pair_tickets.wf()
        &&& self.cancelled_pairs.wf()
        &&& self.pending_tickets.wf()
        &&& self.awaiting_pair_confirm.wf()
        &&& self.used_tickets.wf()
        &&& self.bound_tokens.wf()
        &&& self.bind_certificates.wf()
        &&& self.revoked.wf()
        &&& self.revocations.wf()
        &&& self.control_nonces.wf()
    }

    /// Nothing stored.
    pub fn empty() -> (r: Self)
        ensures
            r.wf(),
            r.mesh_profile is Personal,
            r.local_role is Full,
            r.peers@.dom() == Set::<Seq<int>>::empty(),
            r.peer_versions@.dom() == Set::<Seq<int>>::empty(),
            r.peer_pair_tickets@.dom() == Set::<Seq<int>>::empty(),
            r.cancelled_pairs@.dom() == Set::<Seq<int>>::empty(),
            r.pending_tickets@.dom() == Set::<Seq<int>>::empty(),
            r.awaiting_pair_confirm@.dom() == Set::<Seq<int>>::empty(),
            r.used_tickets@.dom() == Set::<Seq<int>>::empty(),
            r.bound_tokens@.dom() == Set::<Seq<int>>::empty(),
            r.bind_certificates@.dom() == Set::<Seq<int>>::empty(),
            r.revoked@.dom() == Set::<Seq<int>>::empty(),
            r.revocations@.dom() == Set::<Seq<int>>::empty(),
            r.control_nonces@.dom() == Set::<Seq<int>>::empty(),
    {
        let r = TrustDisk {
            mesh_profile: MeshProfile::Personal,
            local_role: LocalRole::Full,
            peers: Table::new(),
            peer_versions: Table::new(),
            peer_pair_tickets: Table::new(),
            cancelled_pairs: Table::new(),
            pending_tickets: Table::new(),
            awaiting_pair_confirm: Table::new(),
            used_tickets: Table::new(),
            bound_tokens: Table::new(),
            bind_certificates: Table::new(),
            revoked: Table::new(),
            revocations: Table::new(),
            control_nonces: Table::new(),
        };
        r
    }
}

/// The peers that a device trusts.
#[derive(Clone, Debug, PartialEq, Eq)]
pub struct TrustStore {
    pub disk: TrustDisk,
}

/// The table has an entry of that name.
pub open spec fn has_name<V>(t: Table<String, V>, name: Seq<char>) -> bool {
    t@.dom().contains(char_rank(name))
}

/// The token was taken back.
pub open spec fn token_revoked(d: TrustDisk, id: Seq<char>) -> bool {
    has_name(d.revoked, id)
}

/// The peer's time is up, or cannot be read.
pub open spec fn expiry_check(expires_at: Option<String>, now: u64) -> Result<(), Error> {
    match expires_at {
        None => Err(Error::Authorization("token expired")),
        Some(t) => match time_of(t@) {
            Err(e) => Err(e),
            Ok(end) => if now > end {
                Err(Error::Authorization("token expired"))
            } else {
                Ok(())
            },
        },
    }
}

/// The peer's scopes, where it has any, allow the traffic.
pub open spec fn peer_allows(
    p: TrustedPeer,
    capsule: Option<crate::cas::Hash>,
    kind: Seq<char>,
    direction: Direction,
) -> bool {
    p.scopes is Some && scopes_allow(p.scopes->0, capsule, kind, direction)
}

/// The other direction.
pub open spec fn reverse(direction: Direction) -> Direction {
    match direction {
        Direction::Send => Direction::Receive,
        Direction::Receive => Direction::Send,
    }
}

/// What `authorize_offer` answers: a full peer may do anything, a guest what its token says.
pub open spec fn offer_check(
    d: TrustDisk,
    actor: PeerId,
    other: PeerId,
    capsule: Option<crate::cas::Hash>,
    kind: Seq<char>,
    direction: Direction,
    now: u64,
) -> Result<(), Error> {
    if !d.peers@.dom().contains(actor.rank()) {
        Err(Error::Authorization("untrusted peer"))
    } else {
        let a = d.peers@[actor.rank()];
        if a.role is Full {
            Ok(())
        } else if !d.peers@.dom().contains(other.rank()) {
            Err(Error::Authorization("unknown counterparty"))
        } else {
            let o = d.peers@[other.rank()];
            if o.role is Guest && d.mesh_profile is Personal {
                Err(Error::Authorization("guest-to-guest forbidden"))
            } else if a.token_id is None {
                Err(Error::Authorization("guest lacks token"))
            } else if token_revoked(d, a.token_id->0@) {
                Err(Error::Authorization("token revoked"))
            } else if expiry_check(a.expires_at, now) is Err {
                expiry_check(a.expires_at, now)
            } else if !peer_allows(a, capsule, kind, direction) {
                Err(Error::Authorization("out of scope"))
            } else if o.role is Guest && !peer_allows(o, capsule, kind, reverse(direction)) {
                Err(Error::Authorization("guest counterparty out of scope"))
            } else {
                Ok(())
            }
        }
    }
}

/// What `authorize_lease` answers.
pub open spec fn lease_check(d: TrustDisk, actor: PeerId, takeover: bool, now: u64) -> Result<
    (),
    Error,
> {
    if !d.peers@.dom().contains(actor.rank()) {
        Err(Error::Authorization("untrusted peer"))
    } else {
        let a = d.peers@[actor.rank()];
        if a.role is Full {
            Ok(())
        } else if a.token_id is None {
            Err(Error::Authorization("guest lacks token"))
        } else if token_revoked(d, a.token_id->0@) {
            Err(Error::Authorization("token revoked"))
        } else if expiry_check(a.expires_at, now) is Err {
            expiry_check(a.expires_at, now)
        } else if a.scopes is None {
            Err(Error::Authorization("guest lacks scopes"))
        } else if if takeover {
            !a.scopes->0.lease_takeover
        } else {
            !a.scopes->0.lease_acquire
        } {
            Err(Error::Authorization("lease operation out of scope"))
        } else {
            Ok(())
        }
    }
}

/// The revocation still matters.
pub open spec fn still_relevant(s: StoredRevocation, now: u64) -> bool {
    time_of(s.relevant_until@) matches Ok(until) && now <= until
}

/// The token under which a guest is trusted.
pub open spec fn guest_token(d: TrustDisk, peer: PeerId) -> Option<Seq<char>> {
    if d.peers@.dom().contains(peer.rank()) && d.peers@[peer.rank()].role is Guest {
        match d.peers@[peer.rank()].token_id {
            Some(t) => Some(t@),
            None => None,
        }
    } else {
        None
    }
}

/// What `is_revoked_guest` answers.
pub open spec fn revoked_guest(d: TrustDisk, peer: PeerId, now: u64) -> bool {
    let token = guest_token(d, peer);
    ||| token matches Some(t) && token_revoked(d, t)
    ||| exists|k: Seq<int>|
        #[trigger] d.revocations@.dom().contains(k) && revokes(d.revocations@[k], peer, token, now)
}

/// A stored revocation takes back the guest's token, or whatever token it had.
pub open spec fn revokes(
    s: StoredRevocation,
    peer: PeerId,
    token: Option<Seq<char>>,
    now: u64,
) -> bool {
    &&& s.record.guest_peer_id == peer
    &&& token matches Some(t) ==> s.record.token_id@ == t
    &&& still_relevant(s, now)
}

pub(crate) fn check_expiry(expires_at: &Option<String>, now: u64) -> (r: Result<(), Error>)
    ensures
        r == expiry_check(*expires_at, now),
{
    match expires_at {
        None => Err(Error::Authorization("token expired")),
        Some(t) => match parse_time(t.as_str()) {
            Err(e) => Err(e),
            Ok(end) => if now > end {
                Err(Error::Authorization("token expired"))
            } else {
                Ok(())
            },
        },
    }
}

/// The text, where there is one.
pub open spec fn opt_text(s: Option<&String>) -> Option<Seq<char>> {
    match s {
        Some(t) => Some(t@),
        None => None,
    }
}

fn revokes_now(s: &StoredRevocation, peer: &PeerId, token: Option<&String>, now: u64) -> (r: bool)
    ensures
        r == revokes(*s, *peer, opt_text(token), now),
{
    if !s.record.guest_peer_id.same(peer) {
        return false;
    }
    match token {
        Some(t) => {
            if !same_text(s.record.token_id.as_str(), t.as_str()) {
                return false;
            }
        },
        None => {},
    }
    match parse_time(s.relevant_until.as_str()) {
        Ok(until) => now <= until,
        Err(_) => false,
    }
}

impl TrustStore {
    /// Every table is in order.
    pub open spec fn wf(&self) -> bool {
        self.disk.wf()
    }

    /// A store with what was read from its file.
    pub fn open(disk: TrustDisk) -> (r: Self)
        ensures
            r.disk == disk,
    {
        TrustStore { disk }
    }

    /// Takes over what was read from the file.
    pub fn reload(&mut self, disk: TrustDisk)
        ensures
            final(self).disk == disk,
    {
        self.disk = disk;
    }

    /// Whether guests may reach each other.
    pub fn mesh_profile(&self) -> (r: MeshProfile)
        ensures
            r == self.disk.mesh_profile,
    {
        self.disk.mesh_profile
    }

    /// Says whether guests may reach each other.
    pub fn set_mesh_profile(&mut self, profile: MeshProfile)
        ensures
            final(self).disk == (TrustDisk { mesh_profile: profile, ..old(self).disk }),
    {
        self.disk.mesh_profile = profile;
    }

    /// What this device is in its mesh.
    pub fn local_role(&self) -> (r: &LocalRole)
        ensures
            *r == self.disk.local_role,
    {
        &self.disk.local_role
    }

    /// Says what this device is in its mesh.
    pub fn set_local_role(&mut self, role: LocalRole)
        ensures
            final(self).disk == (TrustDisk { local_role: role, ..old(self).disk }),
    {
        self.disk.local_role = role;
    }

    /// The peer of that id.
    pub fn get(&self, p: &PeerId) -> (r: Option<&TrustedPeer>)
        requires
            self.wf(),
        ensures
            r is Some <==> self.disk.peers@.dom().contains(p.rank()),
            r matches Some(x) ==> *x == self.disk.peers@[p.rank()],
    {
        self.disk.peers.get(p)
    }

    /// All peers, in the order of their ids.
    pub fn peers(&self) -> (r: &Table<PeerId, TrustedPeer>)
        ensures
            *r == self.disk.peers,
    {
        &self.disk.peers
    }

    /// The certificate of a guest.
    pub fn bind_certificate(&self, guest: &PeerId) -> (r: Option<&StoredBindCertificate>)
        requires
            self.wf(),
        ensures
            r is Some <==> self.disk.bind_certificates@.dom().contains(guest.rank()),
            r matches Some(x) ==> *x == self.disk.bind_certificates@[guest.rank()],
    {
        self.disk.bind_certificates.get(guest)
    }

    /// Whether a token was taken back.
    pub fn is_revoked(&self, id: &str) -> (r: bool)
        requires
            self.wf(),
        ensures
            r == token_revoked(self.disk, id@),
    {
        let key = id.to_owned();
        self.disk.revoked.contains(&key)
    }

    /// Whether a peer is a guest whose token was taken back.
    pub fn is_revoked_guest(&self, peer: &PeerId, now: u64) -> (r: bool)
        requires
            self.wf(),
        ensures
            r == revoked_guest(self.disk, *peer, now),
    {
        let token: Option<&String> = match self.disk.peers.get(peer) {
            None => None,
            Some(p) => if p.role == Role::Guest {
                match &p.token_id {
                    Some(t) => Some(t),
                    None => None,
                }
            } else {
                None
            },
        };
        assert(opt_text(token) == guest_token(self.disk, *peer));
        match token {
            Some(t) => {
                if self.is_revoked(t.as_str()) {
                    return true;
                }
            },
            None => {},
        }
        let test = |k: &String, s: &StoredRevocation| -> (b: bool)
            ensures
                b == revokes(*s, *peer, opt_text(token), now),
            { revokes_now(s, peer, token, now) };
        self.disk.revocations.any(
            test,
            Ghost(|k: Seq<int>, s: StoredRevocation| revokes(s, *peer, opt_text(token), now)),
        )
    }

    /// Whether traffic between two peers is allowed.
    pub fn authorize_offer(
        &self,
        actor: PeerId,
        other: PeerId,
        capsule: Option<crate::cas::Hash>,
        kind: &str,
        direction: Direction,
        now: u64,
    ) -> (r: Result<(), Error>)
        requires
            self.wf(),
        ensures
            r == offer_check(self.disk, actor, other, capsule, kind@, direction, now),
    {
        let a = match self.disk.peers.get(&actor) {
            None => {
                return Err(Error::Authorization("untrusted peer"));
            },
            Some(a) => a,
        };
        if a.role == Role::Full {
            return Ok(());
        }
        let o = match self.disk.peers.get(&other) {
            None => {
                return Err(Error::Authorization("unknown counterparty"));
            },
            Some(o) => o,
        };
        if o.role == Role::Guest && self.disk.mesh_profile == MeshProfile::Personal {
            return Err(Error::Authorization("guest-to-guest forbidden"));
        }
        match &a.token_id {
            None => {
                return Err(Error::Authorization("guest lacks token"));
            },
            Some(id) => {
                if self.is_revoked(id.as_str()) {
                    return Err(Error::Authorization("token revoked"));
                }
            },
        }
        match check_expiry(&a.expires_at, now) {
            Ok(()) => {},
            Err(e) => {
                return Err(e);
            },
        }
        let in_scope = match &a.scopes {
            None => false,
            Some(s) => s.allows(capsule, kind, direction),
        };
        if !in_scope {
            return Err(Error::Authorization("out of scope"));
        }
        if o.role == Role::Guest {
            let back = match direction {
                Direction::Send => Direction::Receive,
                Direction::Receive => Direction::Send,
            };
            let other_in_scope = match &o.scopes {
                None => false,
                Some(s) => s.allows(capsule, kind, back),
            };
            if !other_in_scope {
                return Err(Error::Authorization("guest counterparty out of scope"));
            }
        }
        Ok(())
    }

    /// Whether a peer may take a lease.
    pub fn authorize_lease(&self, actor: PeerId, takeover: bool, now: u64) -> (r: Result<(), Error>)
        requires
            self.wf(),
        ensures
            r == lease_check(self.disk, actor, takeover, now),
    {
        let a = match self.disk.peers.get(&actor) {
            None => {
                return Err(Error::Authorization("untrusted peer"));
            },
            Some(a) => a,
        };
        if a.role == Role::Full {
            return Ok(());
        }
        match &a.token_id {
            None => {
                return Err(Error::Authorization("guest lacks token"));
            },
            Some(id) => {
                if self.is_revoked(id.as_str()) {
                    return Err(Error::Authorization("token revoked"));
                }
            },
        }
        match check_expiry(&a.expires_at, now) {
            Ok(()) => {},
            Err(e) => {
                return Err(e);
            },
        }
        match &a.scopes {
            None => Err(Error::Authorization("guest lacks scopes")),
            Some(s) => if (takeover && !s.lease_takeover) || (!takeover && !s.lease_acquire) {
                Err(Error::Authorization("lease operation out of scope"))
            } else {
                Ok(())
            },
        }
    }
}

/// A guest whose token was taken back is allowed no traffic and no lease.
pub proof fn revoked_token_denies(
    d: TrustDisk,
    actor: PeerId,
    other: PeerId,
    capsule: Option<crate::cas::Hash>,
    kind: Seq<char>,
    direction: Direction,
    takeover: bool,
    now: u64,
)
    requires
        d.peers@.dom().contains(actor.rank()),
        d.peers@[actor.rank()].role is Guest,
        d.peers@[actor.rank()].token_id is Some,
        token_revoked(d, d.peers@[actor.rank()].token_id->0@),
    ensures
        offer_check(d, actor, other, capsule, kind, direction, now) is Err,
        lease_check(d, actor, takeover, now) is Err,
{
}

/// What a guest needs for its traffic, all of it: a token that was not taken back and has not run out,
/// a known counterparty, and scopes that let it send or receive and list the kind. Another guest at
/// the other end needs the same for the other direction, and a mesh in which guests meet. A full peer
/// needs nothing, and a stranger gets nothing.
pub proof fn traffic_needs_leave(
    d: TrustDisk,
    actor: PeerId,
    other: PeerId,
    capsule: Option<crate::cas::Hash>,
    kind: Seq<char>,
    direction: Direction,
    now: u64,
)
    ensures
        ({
            let known = d.peers@.dom().contains(actor.rank());
            let a = d.peers@[actor.rank()];
            let o = d.peers@[other.rank()];
            let ok = offer_check(d, actor, other, capsule, kind, direction, now) is Ok;
            &&& !known ==> !ok
            &&& known && a.role is Full ==> ok
            &&& known && a.role is Guest && ok ==> {
                &&& d.peers@.dom().contains(other.rank())
                &&& a.token_id matches Some(t) && !d.revoked@.dom().contains(char_rank(t@))
                &&& a.expires_at matches Some(end) && time_of(end@) matches Ok(t) && now <= t
                &&& a.scopes matches Some(s) && (direction is Send ==> s.send) && (
                direction is Receive ==> s.receive) && (exists|i: int|
                    0 <= i < s.kinds@.len() && ((#[trigger] s.kinds@[i])@ == kind || s.kinds@[i]@
                        == "*"@))
                &&& o.role is Guest ==> d.mesh_profile is Fleet && (o.scopes matches Some(s) && (
                direction is Send ==> s.receive) && (direction is Receive ==> s.send))
            }
            &&& known && a.role is Guest && d.peers@.dom().contains(other.rank()) && o.role is Full
                && (a.token_id matches Some(t) && !d.revoked@.dom().contains(char_rank(t@))) && (
            a.expires_at matches Some(end) && time_of(end@) matches Ok(t) && now <= t)
                && a.scopes is Some ==> ok == scopes_allow(a.scopes->0, capsule, kind, direction)
        }),
{
    let a = d.peers@[actor.rank()];
    if d.peers@.dom().contains(actor.rank()) && a.scopes is Some {
        crate::net::auth::directions_are_apart(a.scopes->0, a.scopes->0, capsule, kind);
        crate::net::auth::scopes_list_what_they_allow(a.scopes->0, capsule, kind, direction);
    }
    let o = d.peers@[other.rank()];
    if d.peers@.dom().contains(other.rank()) && o.scopes is Some {
        crate::net::auth::directions_are_apart(o.scopes->0, o.scopes->0, capsule, kind);
    }
}

/// What a guest needs to take a lease: a token that was not taken back and has not run out, and
/// scopes that let it acquire one or, to take one over, that let it do that. A full peer needs
/// nothing, and a stranger gets none.
pub proof fn lease_needs_leave(d: TrustDisk, actor: PeerId, takeover: bool, now: u64)
    ensures
        ({
            let known = d.peers@.dom().contains(actor.rank());
            let a = d.peers@[actor.rank()];
            lease_check(d, actor, takeover, now) is Ok <==> known && (a.role is Full || {
                &&& a.token_id matches Some(t) && !d.revoked@.dom().contains(char_rank(t@))
                &&& a.expires_at matches Some(end) && time_of(end@) matches Ok(t) && now <= t
                &&& a.scopes matches Some(s) && (takeover ==> s.lease_takeover) && (!takeover
                    ==> s.lease_acquire)
            })
        }),
{
}

/// In a personal mesh no guest reaches another.
pub proof fn personal_mesh_keeps_guests_apart(
    d: TrustDisk,
    actor: PeerId,
    other: PeerId,
    capsule: Option<crate::cas::Hash>,
    kind: Seq<char>,
    direction: Direction,
    now: u64,
)
    requires
        d.mesh_profile is Personal,
        d.peers@.dom().contains(actor.rank()),
        d.peers@.dom().contains(other.rank()),
        d.peers@[actor.rank()].role is Guest,
        d.peers@[other.rank()].role is Guest,
    ensures
        offer_check(d, actor, other, capsule, kind, direction, now) == Err::<(), Error>(
            Error::Authorization("guest-to-guest forbidden"),
        ),
{
}

} // verus!
