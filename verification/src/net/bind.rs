//! Binding a guest to a token, and taking it back.
use vstd::prelude::*;

use crate::bytes::append_bytes;
use crate::canonical::json_bytes;
use crate::capsule::{put_signature, signature_member};
use crate::identity::{signature_of, signature_check, Identity, PeerId, Signature};
use crate::json::JsonV;
use crate::net::auth::{
    check_signature, from_core, key_json, key_value, same_scopes, scopes_json, scopes_plain,
    shows_time, times_are_small, token_verify, EnrollmentToken, MeshProfile, Role, Scopes,
    CLOCK_SKEW_MS,
};
use crate::net::clock::{format_time, parse_time, time_of};
use crate::net::error::Error;
use crate::record::{plain, plain_bytes, Fields, Members};
use crate::text::same_text;
use crate::util::{hex_bytes, hex_bytes_of, hex_text, is_hex_text};

verus! {

/// A guest's answer to a token: it asks to be bound to it.
#[derive(Clone, Debug, PartialEq, Eq)]
pub struct EnrollBind {
    pub message_type: String,
    pub token: EnrollmentToken,
    pub guest_peer_id: PeerId,
    pub name: Option<String>,
    pub x25519_pk: [u8; 32],
    pub relay_discovery_key: [u8; 32],
    pub addresses: Vec<String>,
    pub sig: Signature,
}

/// What a guest signs to be bound: the id of the token and its own.
pub open spec fn bind_payload(token_id: Seq<char>, guest: Seq<u8>) -> Seq<u8> {
    hex_bytes(token_id) + guest
}

/// What `EnrollBind::verify` answers.
pub open spec fn bind_check(b: EnrollBind, now: u64) -> Result<(), Error> {
    if token_verify(b.token, now) is Err {
        token_verify(b.token, now)
    } else if !is_hex_text(b.token.token_id@) || b.token.token_id@.len() != 32 {
        Err(Error::Protocol("bad token id"))
    } else {
        from_core(
            signature_check(
                b.guest_peer_id,
                "enroll-bind"@,
                bind_payload(b.token.token_id@, b.guest_peer_id.0@),
                b.sig,
            ),
        )
    }
}

impl EnrollBind {
    /// Signs the answer of a guest.
    pub fn sign(
        token: EnrollmentToken,
        name: Option<String>,
        x25519_pk: [u8; 32],
        relay_discovery_key: [u8; 32],
        addresses: Vec<String>,
        guest: &Identity,
    ) -> (r: Result<Self, Error>)
        ensures
            r matches Err(e) ==> if token.audience is Some && (token.audience->0).0@ != guest.peer() {
                e == Error::Authorization("token audience mismatch")
            } else {
                e == Error::Protocol("bad token id")
            },
            r is Ok <==> (token.audience is Some ==> (token.audience->0).0@ == guest.peer())
                && is_hex_text(token.token_id@) && token.token_id@.len() == 32,
            r matches Ok(b) ==> {
                &&& b.message_type@ == "enroll-bind"@
                &&& b.token == token
                &&& b.guest_peer_id.0@ == guest.peer()
                &&& b.name == name
                &&& b.x25519_pk == x25519_pk
                &&& b.relay_discovery_key == relay_discovery_key
                &&& b.addresses == addresses
                &&& signature_of(
                    *guest,
                    "enroll-bind"@,
                    bind_payload(token.token_id@, guest.peer()),
                    b.sig,
                )
            },
    {
        let me = guest.peer_id();
        match &token.audience {
            Some(p) => {
                if !p.same(&me) {
                    proof {
                        crate::bytes::array_extensional(p.0, me.0);
                    }
                    return Err(Error::Authorization("token audience mismatch"));
                }
            },
            None => {},
        }
        let mut payload = match hex_bytes_of(token.token_id.as_str()) {
            Some(b) => b,
            None => {
                return Err(Error::Protocol("bad token id"));
            },
        };
        if payload.len() != 16 {
            return Err(Error::Protocol("bad token id"));
        }
        append_bytes(&mut payload, me.0.as_slice());
        let sig = guest.sign("enroll-bind", payload.as_slice());
        Ok(
            EnrollBind {
                message_type: "enroll-bind".to_owned(),
                token,
                guest_peer_id: me,
                name,
                x25519_pk,
                relay_discovery_key,
                addresses,
                sig,
            },
        )
    }

    /// Checks the token and the signature of the guest.
    pub fn verify(&self, now: u64) -> (r: Result<(), Error>)
        ensures
            r == bind_check(*self, now),
    {
        match self.token.verify(now) {
            Ok(()) => {},
            Err(e) => {
                return Err(e);
            },
        }
        let mut payload = match hex_bytes_of(self.token.token_id.as_str()) {
            Some(b) => b,
            None => {
                return Err(Error::Protocol("bad token id"));
            },
        };
        if payload.len() != 16 {
            return Err(Error::Protocol("bad token id"));
        }
        append_bytes(&mut payload, self.guest_peer_id.0.as_slice());
        check_signature(&self.guest_peer_id, "enroll-bind", payload.as_slice(), &self.sig)
    }
}

/// A certificate that a guest is bound to a token, which other devices can check.
#[derive(Debug, PartialEq, Eq)]
pub struct BindCertificate {
    pub record_type: String,
    pub token_id: String,
    pub guest_peer_id: PeerId,
    pub bound_at: String,
    pub name: String,
    pub x25519_pk: [u8; 32],
    pub scopes: Scopes,
    pub expires_at: String,
    pub sig: Signature,
}

/// The members of a certificate, with or without its signature.
pub open spec fn certificate_members(c: BindCertificate, sig: Option<Signature>) -> Members {
    seq![
        ("bound_at"@, JsonV::Str(c.bound_at@)),
        ("expires_at"@, JsonV::Str(c.expires_at@)),
        ("guest_peer_id"@, JsonV::Str(hex_text(c.guest_peer_id.0@))),
        ("name"@, JsonV::Str(c.name@)),
        ("scopes"@, scopes_json(c.scopes)),
    ] + signature_member(sig) + seq![
        ("token_id"@, JsonV::Str(c.token_id@)),
        ("type"@, JsonV::Str(c.record_type@)),
        ("x25519_pk"@, key_json(c.x25519_pk)),
    ]
}

/// What the signature of a certificate covers.
pub open spec fn certificate_payload(c: BindCertificate) -> Seq<u8> {
    json_bytes(JsonV::Obj(certificate_members(c, None)))
}

/// Two certificates say the same.
pub open spec fn same_certificate(a: BindCertificate, b: BindCertificate) -> bool {
    &&& a.record_type == b.record_type
    &&& a.token_id == b.token_id
    &&& a.guest_peer_id == b.guest_peer_id
    &&& a.bound_at == b.bound_at
    &&& a.name == b.name
    &&& a.x25519_pk == b.x25519_pk
    &&& same_scopes(a.scopes, b.scopes)
    &&& a.expires_at == b.expires_at
    &&& a.sig == b.sig
}

impl Clone for BindCertificate {
    fn clone(&self) -> (r: Self)
        ensures
            same_certificate(r, *self),
    {
        BindCertificate {
            record_type: self.record_type.clone(),
            token_id: self.token_id.clone(),
            guest_peer_id: self.guest_peer_id,
            bound_at: self.bound_at.clone(),
            name: self.name.clone(),
            x25519_pk: self.x25519_pk,
            scopes: self.scopes.clone(),
            expires_at: self.expires_at.clone(),
            sig: self.sig,
        }
    }
}

proof fn certificate_plain(c: BindCertificate, sig: Option<Signature>)
    ensures
        plain(JsonV::Obj(certificate_members(c, sig))),
{
    reveal_with_fuel(plain, 2);
    scopes_plain(c.scopes);
    let m = certificate_members(c, sig);
    assert forall|i: int| 0 <= i < m.len() implies plain((#[trigger] m[i]).1) by {
        if i >= 5 && i < 5 + signature_member(sig).len() {
            assert(m[i] == signature_member(sig)[i - 5]);
        }
    }
}

impl BindCertificate {
    fn bytes(&self, sig: Option<Signature>) -> (r: Vec<u8>)
        ensures
            r@ == json_bytes(JsonV::Obj(certificate_members(*self, sig))),
    {
        let mut f = Fields::new();
        f.put_str("bound_at", self.bound_at.as_str());
        f.put_str("expires_at", self.expires_at.as_str());
        f.put_str("guest_peer_id", self.guest_peer_id.to_hex().as_str());
        f.put_str("name", self.name.as_str());
        f.put("scopes", self.scopes.to_json());
        put_signature(&mut f, sig);
        f.put_str("token_id", self.token_id.as_str());
        f.put_str("type", self.record_type.as_str());
        f.put("x25519_pk", key_value(&self.x25519_pk));
        assert(f.so_far() =~= certificate_members(*self, sig));
        proof {
            certificate_plain(*self, sig);
        }
        plain_bytes(&f.done())
    }

    /// Signs a certificate.
    pub fn sign(
        token_id: String,
        guest_peer_id: PeerId,
        now: u64,
        name: String,
        x25519_pk: [u8; 32],
        scopes: Scopes,
        expires_at: String,
        issuer: &Identity,
    ) -> (r: Result<Self, Error>)
        ensures
            r matches Ok(c) && {
                &&& c.record_type@ == "bind-cert"@
                &&& c.token_id == token_id
                &&& c.guest_peer_id == guest_peer_id
                &&& shows_time(now as int, c.bound_at@)
                &&& c.name == name
                &&& c.x25519_pk == x25519_pk
                &&& c.scopes == scopes
                &&& c.expires_at == expires_at
                &&& signature_of(*issuer, "bind-cert"@, certificate_payload(c), c.sig)
            },
    {
        let mut x = BindCertificate {
            record_type: "bind-cert".to_owned(),
            token_id,
            guest_peer_id,
            bound_at: format_time(now),
            name,
            x25519_pk,
            scopes,
            expires_at,
            sig: Signature([0u8; 64]),
        };
        let ghost before = certificate_payload(x);
        x.sig = issuer.sign("bind-cert", x.bytes(None).as_slice());
        assert(certificate_payload(x) == before);
        Ok(x)
    }

    /// Checks the signature.
    pub fn verify(&self, issuer: PeerId) -> (r: Result<(), Error>)
        ensures
            r == from_core(
                signature_check(issuer, "bind-cert"@, certificate_payload(*self), self.sig),
            ),
    {
        check_signature(&issuer, "bind-cert", self.bytes(None).as_slice(), &self.sig)
    }
}

/// A record that takes a guest's token back.
#[derive(Debug, PartialEq, Eq)]
pub struct Revocation {
    pub record_type: String,
    pub issuer: PeerId,
    pub token_id: String,
    pub guest_peer_id: PeerId,
    pub revoked_at: String,
    pub sig: Signature,
}

impl Clone for Revocation {
    fn clone(&self) -> (r: Self)
        ensures
            r == *self,
    {
        Revocation {
            record_type: self.record_type.clone(),
            issuer: self.issuer,
            token_id: self.token_id.clone(),
            guest_peer_id: self.guest_peer_id,
            revoked_at: self.revoked_at.clone(),
            sig: self.sig,
        }
    }
}

/// The members of a revocation, with or without its signature.
pub open spec fn revocation_members(x: Revocation, sig: Option<Signature>) -> Members {
    seq![
        ("guest_peer_id"@, JsonV::Str(hex_text(x.guest_peer_id.0@))),
        ("issuer"@, JsonV::Str(hex_text(x.issuer.0@))),
        ("revoked_at"@, JsonV::Str(x.revoked_at@)),
    ] + signature_member(sig) + seq![
        ("token_id"@, JsonV::Str(x.token_id@)),
        ("type"@, JsonV::Str(x.record_type@)),
    ]
}

/// What the signature of a revocation covers.
pub open spec fn revocation_payload(x: Revocation) -> Seq<u8> {
    json_bytes(JsonV::Obj(revocation_members(x, None)))
}

/// What `Revocation::verify_at` answers.
pub open spec fn revocation_check(x: Revocation, now: u64) -> Result<(), Error> {
    if x.record_type@ != "revocation"@ || !is_hex_text(x.token_id@) || x.token_id@.len() != 32 {
        Err(Error::Protocol("invalid revocation record"))
    } else {
        match time_of(x.revoked_at@) {
            Err(e) => Err(e),
            Ok(at) => if at > now + CLOCK_SKEW_MS {
                Err(Error::Protocol("revocation timestamp is in the future"))
            } else {
                from_core(signature_check(x.issuer, "revoke"@, revocation_payload(x), x.sig))
            },
        }
    }
}

proof fn revocation_plain(x: Revocation, sig: Option<Signature>)
    ensures
        plain(JsonV::Obj(revocation_members(x, sig))),
{
    reveal_with_fuel(plain, 2);
    let m = revocation_members(x, sig);
    assert forall|i: int| 0 <= i < m.len() implies plain((#[trigger] m[i]).1) by {
        if i >= 3 && i < 3 + signature_member(sig).len() {
            assert(m[i] == signature_member(sig)[i - 3]);
        }
    }
}

impl Revocation {
    fn bytes(&self, sig: Option<Signature>) -> (r: Vec<u8>)
        ensures
            r@ == json_bytes(JsonV::Obj(revocation_members(*self, sig))),
    {
        let mut f = Fields::new();
        f.put_str("guest_peer_id", self.guest_peer_id.to_hex().as_str());
        f.put_str("issuer", self.issuer.to_hex().as_str());
        f.put_str("revoked_at", self.revoked_at.as_str());
        put_signature(&mut f, sig);
        f.put_str("token_id", self.token_id.as_str());
        f.put_str("type", self.record_type.as_str());
        assert(f.so_far() =~= revocation_members(*self, sig));
        proof {
            revocation_plain(*self, sig);
        }
        plain_bytes(&f.done())
    }

    /// Signs a revocation.
    pub fn sign(
        token_id: String,
        guest_peer_id: PeerId,
        now: u64,
        issuer: &Identity,
    ) -> (r: Result<Self, Error>)
        ensures
            r matches Ok(x) && {
                &&& x.record_type@ == "revocation"@
                &&& x.issuer.0@ == issuer.peer()
                &&& x.token_id == token_id
                &&& x.guest_peer_id == guest_peer_id
                &&& shows_time(now as int, x.revoked_at@)
                &&& signature_of(*issuer, "revoke"@, revocation_payload(x), x.sig)
            },
    {
        let mut x = Revocation {
            record_type: "revocation".to_owned(),
            issuer: issuer.peer_id(),
            token_id,
            guest_peer_id,
            revoked_at: format_time(now),
            sig: Signature([0u8; 64]),
        };
        let ghost before = revocation_payload(x);
        x.sig = issuer.sign("revoke", x.bytes(None).as_slice());
        assert(revocation_payload(x) == before);
        Ok(x)
    }

    /// Checks the record by the machine's clock.
    pub fn verify(&self) -> (r: Result<(), Error>)
        ensures
            exists|now: u64| r == #[trigger] revocation_check(*self, now),
    {
        let now = crate::util::now_ms();
        let r = self.verify_at(now);
        assert(r == revocation_check(*self, now));
        r
    }

    /// Checks the record at a given time.
    pub fn verify_at(&self, now: u64) -> (r: Result<(), Error>)
        ensures
            r == revocation_check(*self, now),
    {
        let id_ok = match hex_bytes_of(self.token_id.as_str()) {
            Some(b) => b.len() == 16,
            None => false,
        };
        if !same_text(self.record_type.as_str(), "revocation") || !id_ok {
            return Err(Error::Protocol("invalid revocation record"));
        }
        let at = match parse_time(self.revoked_at.as_str()) {
            Ok(at) => at,
            Err(e) => {
                return Err(e);
            },
        };
        proof {
            times_are_small(self.revoked_at@);
        }
        if at > now.saturating_add(CLOCK_SKEW_MS) {
            return Err(Error::Protocol("revocation timestamp is in the future"));
        }
        check_signature(&self.issuer, "revoke", self.bytes(None).as_slice(), &self.sig)
    }
}

/// The answer to a guest that was bound.
#[derive(Debug, PartialEq, Eq)]
pub struct EnrollOk {
    pub message_type: String,
    pub mesh: Vec<EnrollMeshPeer>,
    pub certificate: BindCertificate,
    pub mesh_profile: MeshProfile,
}

/// One device that a bound guest is told about.
#[derive(Debug, PartialEq, Eq)]
pub struct EnrollMeshPeer {
    pub peer_id: PeerId,
    pub name: String,
    pub role: Role,
    pub x25519_pk: [u8; 32],
    pub token_id: Option<String>,
    pub scopes: Option<Scopes>,
    pub expires_at: Option<String>,
}

} // verus!
