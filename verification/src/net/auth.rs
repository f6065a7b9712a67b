//! Signed messages by which peers come to trust each other, and what they may do.
use vstd::prelude::*;

use crate::base64::{base64_decode, base64_encode, base64_text};
use crate::bytes::{append_bytes, has_prefix, same_bytes};
use crate::canonical::json_bytes;
use crate::capsule::{put_signature, signature_member};
use crate::identity::{
    random_bytes, signature_check, signature_of, signed_by, Identity, PeerId, Signature,
};
use crate::json::{json_views, Json, JsonV};
use crate::net::clock::{format_time, parse_time, shows, time_of};
use crate::net::error::Error;
use crate::record::{
    copy_texts, opt_str, plain, plain_bytes, text_array, text_values, texts_are_plain, Fields,
    Members,
};
use crate::text::{concat, same_text};
use crate::util::{hex_bytes, hex_bytes_of, hex_encode, hex_text, is_hex_text};

verus! {

/// How far apart two clocks may be.
pub const CLOCK_SKEW_MS: u64 = 60_000;

/// The most revocations that one message carries.
pub const MAX_REVOCATIONS_PER_MESSAGE: usize = 128;

/// Peer carries revocations on its hello and offers.
pub const FEATURE_REVOCATION: &'static str = "revocation";

/// Receiver may decline optional native cache blobs.
pub const FEATURE_SKIP_NATIVE: &'static str = "skip-native";

/// Peer accepts guest bind certificates attached to forwarded offers.
pub const FEATURE_BIND_CERT: &'static str = "bind-cert";

/// Dialer accepts a result on the answer to a control message.
pub const FEATURE_CONTROL_RESULT: &'static str = "control-result";

/// The longest time that a bind certificate is good for.
pub const MAX_CERTIFICATE_LIFETIME_MS: u64 = 2_592_000_000;

/// A text that shows a moment.
pub open spec fn shows_time(ms: int, t: Seq<char>) -> bool {
    exists|y: nat, m: nat, d: nat| shows(ms, t, y, m, d)
}

/// What a peer is to this device.
#[derive(Clone, Copy, Debug, PartialEq, Eq, Structural)]
pub enum Role {
    Full,
    Guest,
}

/// Whether guests may reach each other.
#[derive(Clone, Copy, Debug, PartialEq, Eq, Structural)]
pub enum MeshProfile {
    Personal,
    Fleet,
}

impl Default for MeshProfile {
    fn default() -> (r: Self)
        ensures
            r == MeshProfile::Personal,
    {
        MeshProfile::Personal
    }
}

/// Which way an offer goes, seen from the one whose scopes are asked.
#[derive(Clone, Copy, Debug, PartialEq, Eq, Structural)]
pub enum Direction {
    Send,
    Receive,
}

/// What a guest may do.
#[derive(Debug, PartialEq, Eq)]
pub struct Scopes {
    pub capsules: Vec<String>,
    pub kinds: Vec<String>,
    pub send: bool,
    pub receive: bool,
    pub lease_acquire: bool,
    pub lease_takeover: bool,
}

/// The list names the value, or everything.
pub open spec fn list_allows(list: Seq<String>, value: Seq<char>) -> bool {
    exists|i: int| 0 <= i < list.len() && ((#[trigger] list[i])@ == "*"@ || list[i]@ == value)
}

/// The list is not empty, and names everything only where it names nothing else.
pub open spec fn list_valid(list: Seq<String>) -> bool {
    list.len() > 0 && (list.len() == 1 || forall|i: int|
        0 <= i < list.len() ==> (#[trigger] list[i])@ != "*"@)
}

/// The scopes allow traffic of a kind, for a capsule or for none, in one direction.
pub open spec fn scopes_allow(
    s: Scopes,
    capsule: Option<crate::cas::Hash>,
    kind: Seq<char>,
    direction: Direction,
) -> bool {
    &&& list_allows(s.kinds@, kind)
    &&& match capsule {
        None => s.capsules@.len() == 1 && s.capsules@[0]@ == "*"@,
        Some(c) => list_allows(s.capsules@, hex_text(c.0@)),
    }
    &&& match direction {
        Direction::Send => s.send,
        Direction::Receive => s.receive,
    }
}

/// Two scopes say the same.
pub open spec fn same_scopes(a: Scopes, b: Scopes) -> bool {
    &&& a.capsules@ == b.capsules@
    &&& a.kinds@ == b.kinds@
    &&& a.send == b.send
    &&& a.receive == b.receive
    &&& a.lease_acquire == b.lease_acquire
    &&& a.lease_takeover == b.lease_takeover
}

fn list_has(list: &Vec<String>, value: &str) -> (r: bool)
    ensures
        r == exists|i: int| 0 <= i < list@.len() && (#[trigger] list@[i])@ == value@,
{
    let mut i: usize = 0;
    while i < list.len()
        invariant
            i <= list@.len(),
            forall|j: int| 0 <= j < i ==> (#[trigger] list@[j])@ != value@,
        decreases list.len() - i,
    {
        if same_text(list[i].as_str(), value) {
            return true;
        }
        i += 1;
    }
    false
}

fn list_lets(list: &Vec<String>, value: &str) -> (r: bool)
    ensures
        r == list_allows(list@, value@),
{
    list_has(list, "*") || list_has(list, value)
}

fn list_is_valid(list: &Vec<String>) -> (r: bool)
    ensures
        r == list_valid(list@),
{
    list.len() > 0 && (list.len() == 1 || !list_has(list, "*"))
}

impl Clone for Scopes {
    fn clone(&self) -> (r: Self)
        ensures
            same_scopes(r, *self),
    {
        Scopes {
            capsules: copy_texts(&self.capsules),
            kinds: copy_texts(&self.kinds),
            send: self.send,
            receive: self.receive,
            lease_acquire: self.lease_acquire,
            lease_takeover: self.lease_takeover,
        }
    }
}

/// What `Scopes::validate` answers.
pub open spec fn scopes_check(s: Scopes) -> Result<(), Error> {
    if list_valid(s.capsules@) && list_valid(s.kinds@) {
        Ok(())
    } else {
        Err(Error::Protocol("invalid wildcard scope"))
    }
}

impl Scopes {
    /// Checks that wildcards stand alone.
    pub fn validate(&self) -> (r: Result<(), Error>)
        ensures
            r == scopes_check(*self),
    {
        if list_is_valid(&self.capsules) && list_is_valid(&self.kinds) {
            Ok(())
        } else {
            Err(Error::Protocol("invalid wildcard scope"))
        }
    }

    /// Whether traffic is within the scopes.
    pub fn allows(
        &self,
        capsule: Option<crate::cas::Hash>,
        kind: &str,
        direction: Direction,
    ) -> (r: bool)
        ensures
            r == scopes_allow(*self, capsule, kind@, direction),
    {
        if !list_lets(&self.kinds, kind) {
            return false;
        }
        let capsule_ok = match capsule {
            None => self.capsules.len() == 1 && same_text(self.capsules[0].as_str(), "*"),
            Some(c) => list_lets(&self.capsules, c.to_hex().as_str()),
        };
        if !capsule_ok {
            return false;
        }
        match direction {
            Direction::Send => self.send,
            Direction::Receive => self.receive,
        }
    }

    /// The scopes as a JSON object.
    pub fn to_json(&self) -> (r: Json)
        ensures
            r@ == scopes_json(*self),
    {
        let mut f = Fields::new();
        f.put("capsules", text_array(&self.capsules));
        f.put("kinds", text_array(&self.kinds));
        f.put("lease_acquire", Json::Bool(self.lease_acquire));
        f.put("lease_takeover", Json::Bool(self.lease_takeover));
        f.put("receive", Json::Bool(self.receive));
        f.put("send", Json::Bool(self.send));
        assert(f.so_far() =~= scopes_members(*self));
        f.done()
    }
}

/// The members of scopes.
pub open spec fn scopes_members(s: Scopes) -> Members {
    seq![
        ("capsules"@, JsonV::Arr(text_values(s.capsules@))),
        ("kinds"@, JsonV::Arr(text_values(s.kinds@))),
        ("lease_acquire"@, JsonV::Bool(s.lease_acquire)),
        ("lease_takeover"@, JsonV::Bool(s.lease_takeover)),
        ("receive"@, JsonV::Bool(s.receive)),
        ("send"@, JsonV::Bool(s.send)),
    ]
}

/// Scopes as a JSON object.
pub open spec fn scopes_json(s: Scopes) -> JsonV {
    JsonV::Obj(scopes_members(s))
}

/// Scopes hold no number.
pub proof fn scopes_plain(s: Scopes)
    ensures
        plain(scopes_json(s)),
{
    reveal_with_fuel(plain, 2);
    texts_are_plain(s.capsules@);
    texts_are_plain(s.kinds@);
}

/// A scope that names capsules blocks all traffic that belongs to none.
pub proof fn capsule_scope_blocks_other_traffic(s: Scopes, kind: Seq<char>, direction: Direction)
    requires
        forall|i: int| 0 <= i < s.capsules@.len() ==> (#[trigger] s.capsules@[i])@ != "*"@,
    ensures
        !scopes_allow(s, None, kind, direction),
{
}

/// Who may not send sends nothing, and who may not receive receives nothing. What a guest may send
/// does not depend on what it may receive, nor the other way round, and neither depends on its leases.
pub proof fn directions_are_apart(
    s: Scopes,
    t: Scopes,
    capsule: Option<crate::cas::Hash>,
    kind: Seq<char>,
)
    requires
        t.capsules == s.capsules,
        t.kinds == s.kinds,
    ensures
        !s.send ==> !scopes_allow(s, capsule, kind, Direction::Send),
        !s.receive ==> !scopes_allow(s, capsule, kind, Direction::Receive),
        s.send == t.send ==> scopes_allow(s, capsule, kind, Direction::Send) == scopes_allow(
            t,
            capsule,
            kind,
            Direction::Send,
        ),
        s.receive == t.receive ==> scopes_allow(s, capsule, kind, Direction::Receive)
            == scopes_allow(t, capsule, kind, Direction::Receive),
        s.send && t.receive ==> scopes_allow(s, capsule, kind, Direction::Send) == scopes_allow(
            t,
            capsule,
            kind,
            Direction::Receive,
        ),
{
}

/// Traffic is within the scopes only where its kind is listed, or everything is. Traffic of a capsule
/// needs that capsule or all of them to be listed; traffic of no capsule needs all of them.
pub proof fn scopes_list_what_they_allow(
    s: Scopes,
    capsule: Option<crate::cas::Hash>,
    kind: Seq<char>,
    direction: Direction,
)
    ensures
        (forall|i: int|
            0 <= i < s.kinds@.len() ==> (#[trigger] s.kinds@[i])@ != kind && s.kinds@[i]@ != "*"@)
            ==> !scopes_allow(s, capsule, kind, direction),
        capsule matches Some(c) ==> (forall|i: int|
            0 <= i < s.capsules@.len() ==> (#[trigger] s.capsules@[i])@ != hex_text(c.0@)
                && s.capsules@[i]@ != "*"@) ==> !scopes_allow(s, capsule, kind, direction),
        (s.send && direction is Send || s.receive && direction is Receive) && (exists|i: int|
            0 <= i < s.kinds@.len() && ((#[trigger] s.kinds@[i])@ == kind || s.kinds@[i]@ == "*"@))
            && (match capsule {
            Some(c) => exists|i: int|
                0 <= i < s.capsules@.len() && ((#[trigger] s.capsules@[i])@ == hex_text(c.0@)
                    || s.capsules@[i]@ == "*"@),
            None => s.capsules@.len() == 1 && s.capsules@[0]@ == "*"@,
        }) ==> scopes_allow(s, capsule, kind, direction),
{
}

/// Scopes are in order exactly where both lists name something, and a list that names everything
/// names nothing else.
pub proof fn wildcards_stand_alone(s: Scopes)
    ensures
        scopes_check(s) is Ok <==> s.capsules@.len() > 0 && s.kinds@.len() > 0 && (forall|i: int|
            0 <= i < s.capsules@.len() && (#[trigger] s.capsules@[i])@ == "*"@ ==> s.capsules@.len()
                == 1) && (forall|i: int|
            0 <= i < s.kinds@.len() && (#[trigger] s.kinds@[i])@ == "*"@ ==> s.kinds@.len() == 1),
{
}

/// Sixteen bytes of randomness in hex.
pub(crate) fn random16() -> (r: String)
    ensures
        exists|raw: [u8; 16]| r@ == hex_text(#[trigger] raw@),
{
    let raw = random_bytes::<16>();
    hex_encode(raw.as_slice())
}

/// A 32-byte key as a JSON string.
pub open spec fn key_json(key: [u8; 32]) -> JsonV {
    JsonV::Str(hex_text(key@))
}

pub(crate) fn key_value(key: &[u8; 32]) -> (r: Json)
    ensures
        r@ == key_json(*key),
{
    Json::Str(hex_encode(key.as_slice()))
}

/// A key that is left out where there is none.
pub open spec fn opt_key(name: Seq<char>, key: Option<[u8; 32]>) -> Members {
    match key {
        Some(k) => seq![(name, key_json(k))],
        None => Seq::empty(),
    }
}

/// An answer of the local half as one of the networked half.
pub open spec fn from_core(r: Result<(), crate::error::Error>) -> Result<(), Error> {
    match r {
        Ok(()) => Ok(()),
        Err(e) => Err(Error::Core(e)),
    }
}

/// Checks a signature.
pub(crate) fn check_signature(
    peer: &PeerId,
    domain: &str,
    payload: &[u8],
    sig: &Signature,
) -> (r: Result<(), Error>)
    ensures
        r == from_core(signature_check(*peer, domain@, payload@, *sig)),
{
    match peer.verify(domain, payload, sig) {
        Ok(()) => Ok(()),
        Err(e) => Err(Error::Core(e)),
    }
}

/// An invitation to pair, shown by one device and read by another.
#[derive(Clone, Debug, PartialEq, Eq)]
pub struct PairTicket {
    pub v: u32,
    pub record_type: String,
    pub peer_id: PeerId,
    pub name: String,
    pub ticket_id: String,
    pub issued_at: String,
    pub expires_at: String,
    pub x25519_pk: [u8; 32],
    pub relay_key: Option<[u8; 32]>,
    pub addresses: Vec<String>,
    pub sig: Signature,
}

/// The members of a ticket, with or without its signature.
pub open spec fn ticket_members(t: PairTicket, sig: Option<Signature>) -> Members {
    seq![
        ("addresses"@, JsonV::Arr(text_values(t.addresses@))),
        ("expires_at"@, JsonV::Str(t.expires_at@)),
        ("issued_at"@, JsonV::Str(t.issued_at@)),
        ("name"@, JsonV::Str(t.name@)),
        ("peer_id"@, JsonV::Str(hex_text(t.peer_id.0@))),
    ] + opt_key("relay_key"@, t.relay_key) + signature_member(sig) + seq![
        ("ticket_id"@, JsonV::Str(t.ticket_id@)),
        ("type"@, JsonV::Str(t.record_type@)),
        ("v"@, JsonV::Int(t.v as int)),
        ("x25519_pk"@, key_json(t.x25519_pk)),
    ]
}

/// A ticket as JSON.
pub open spec fn ticket_json(t: PairTicket) -> JsonV {
    JsonV::Obj(ticket_members(t, Some(t.sig)))
}

/// What the signature of a ticket covers: all of it but the signature.
pub open spec fn ticket_payload(t: PairTicket) -> Seq<u8> {
    json_bytes(JsonV::Obj(ticket_members(t, None)))
}

pub(crate) proof fn ticket_plain(t: PairTicket, sig: Option<Signature>)
    ensures
        plain(JsonV::Obj(ticket_members(t, sig))),
{
    reveal_with_fuel(plain, 2);
    texts_are_plain(t.addresses@);
    let m = ticket_members(t, sig);
    let a = opt_key("relay_key"@, t.relay_key).len();
    let b = signature_member(sig).len();
    assert forall|i: int| 0 <= i < m.len() implies plain((#[trigger] m[i]).1) by {
        if i >= 5 && i < 5 + a {
            assert(m[i] == opt_key("relay_key"@, t.relay_key)[i - 5]);
        } else if i >= 5 + a && i < 5 + a + b {
            assert(m[i] == signature_member(sig)[i - 5 - a]);
        }
    }
}

/// What `PairTicket::check` answers for a ticket that was read from `bytes`.
pub open spec fn ticket_check(t: PairTicket, bytes: Seq<u8>, now: u64) -> Result<(), Error> {
    if json_bytes(ticket_json(t)) != bytes || t.v != 1 || t.record_type@ != "pair-ticket"@ {
        Err(Error::Protocol("invalid ticket"))
    } else if !signed_by(t.peer_id, "pair-ticket"@, ticket_payload(t), t.sig) {
        from_core(signature_check(t.peer_id, "pair-ticket"@, ticket_payload(t), t.sig))
    } else {
        match time_of(t.expires_at@) {
            Err(e) => Err(e),
            Ok(end) => if now > CLOCK_SKEW_MS + end {
                Err(Error::Authorization("ticket expired"))
            } else {
                Ok(())
            },
        }
    }
}

/// The most bytes that a ticket or a token has.
pub const MAX_TICKET_BYTES: usize = 8192;

/// Times that can be read lie before the year 10000.
pub proof fn times_are_small(s: Seq<char>)
    ensures
        time_of(s) matches Ok(ms) ==> ms <= crate::net::clock::LAST_FOUR_DIGIT_MS,
{
    crate::net::clock::parsed_times_are_small(s);
}

impl PairTicket {
    fn to_json(&self, sig: Option<Signature>) -> (r: Json)
        ensures
            r@ == JsonV::Obj(ticket_members(*self, sig)),
    {
        let mut f = Fields::new();
        f.put("addresses", text_array(&self.addresses));
        f.put_str("expires_at", self.expires_at.as_str());
        f.put_str("issued_at", self.issued_at.as_str());
        f.put_str("name", self.name.as_str());
        f.put_str("peer_id", self.peer_id.to_hex().as_str());
        match &self.relay_key {
            Some(k) => {
                f.put("relay_key", key_value(k));
            },
            None => {},
        }
        put_signature(&mut f, sig);
        f.put_str("ticket_id", self.ticket_id.as_str());
        f.put_str("type", self.record_type.as_str());
        f.put("v", Json::Int(self.v as i64));
        f.put("x25519_pk", key_value(&self.x25519_pk));
        assert(f.so_far() =~= ticket_members(*self, sig));
        f.done()
    }

    fn bytes(&self, sig: Option<Signature>) -> (r: Vec<u8>)
        ensures
            r@ == json_bytes(JsonV::Obj(ticket_members(*self, sig))),
    {
        proof {
            ticket_plain(*self, sig);
        }
        plain_bytes(&self.to_json(sig))
    }

    /// Makes a ticket with a given id.
    pub fn mint_with(
        ticket_id: String,
        name: String,
        x25519_pk: [u8; 32],
        relay_key: Option<[u8; 32]>,
        addresses: Vec<String>,
        now: u64,
        ttl_ms: u64,
        id: &Identity,
    ) -> (r: Result<Self, Error>)
        requires
            ttl_ms <= 600_000 ==> now + ttl_ms <= u64::MAX,
        ensures
            r is Ok <==> ttl_ms <= 600_000,
            r matches Err(e) ==> e == Error::Protocol("pair ticket TTL exceeds 10m"),
            r matches Ok(t) ==> {
                &&& t.v == 1
                &&& t.record_type@ == "pair-ticket"@
                &&& t.peer_id.0@ == id.peer()
                &&& t.name == name
                &&& t.ticket_id == ticket_id
                &&& shows_time(now as int, t.issued_at@)
                &&& shows_time(now + ttl_ms, t.expires_at@)
                &&& t.x25519_pk == x25519_pk
                &&& t.relay_key == relay_key
                &&& t.addresses == addresses
                &&& signature_of(*id, "pair-ticket"@, ticket_payload(t), t.sig)
            },
    {
        if ttl_ms > 600_000 {
            return Err(Error::Protocol("pair ticket TTL exceeds 10m"));
        }
        let mut x = PairTicket {
            v: 1,
            record_type: "pair-ticket".to_owned(),
            peer_id: id.peer_id(),
            name,
            ticket_id,
            issued_at: format_time(now),
            expires_at: format_time(now + ttl_ms),
            x25519_pk,
            relay_key,
            addresses,
            sig: Signature([0u8; 64]),
        };
        let ghost before = ticket_payload(x);
        x.sig = id.sign("pair-ticket", x.bytes(None).as_slice());
        assert(ticket_payload(x) == before);
        Ok(x)
    }

    /// Makes a ticket with an id of its own.
    pub fn mint(
        name: String,
        x25519_pk: [u8; 32],
        relay_key: Option<[u8; 32]>,
        addresses: Vec<String>,
        now: u64,
        ttl_ms: u64,
        id: &Identity,
    ) -> (r: Result<Self, Error>)
        requires
            ttl_ms <= 600_000 ==> now + ttl_ms <= u64::MAX,
        ensures
            r is Ok <==> ttl_ms <= 600_000,
            r matches Err(e) ==> e == Error::Protocol("pair ticket TTL exceeds 10m"),
            r matches Ok(t) ==> {
                &&& t.v == 1
                &&& t.record_type@ == "pair-ticket"@
                &&& t.peer_id.0@ == id.peer()
                &&& t.name == name
                &&& exists|raw: [u8; 16]| t.ticket_id@ == hex_text(#[trigger] raw@)
                &&& shows_time(now as int, t.issued_at@)
                &&& shows_time(now + ttl_ms, t.expires_at@)
                &&& t.x25519_pk == x25519_pk
                &&& t.relay_key == relay_key
                &&& t.addresses == addresses
                &&& signature_of(*id, "pair-ticket"@, ticket_payload(t), t.sig)
            },
    {
        Self::mint_with(random16(), name, x25519_pk, relay_key, addresses, now, ttl_ms, id)
    }

    /// The ticket as text that people can pass on.
    pub fn encode(&self) -> (r: Result<String, Error>)
        ensures
            r is Ok,
            r->Ok_0@ == "abra-pair/1/"@ + base64_text(json_bytes(ticket_json(*self))),
    {
        Ok(concat("abra-pair/1/", base64_encode(self.bytes(Some(self.sig)).as_slice()).as_str()))
    }

    /// The bytes inside the text of a ticket.
    pub fn unwrap_text(s: &str) -> (r: Result<Vec<u8>, Error>)
        ensures
            r matches Ok(b) ==> s@ == "abra-pair/1/"@ + base64_text(b@) && b@.len()
                <= MAX_TICKET_BYTES,
            r matches Err(e) ==> {
                ||| e == Error::Protocol("bad pair ticket prefix") && !crate::bytes::has_prefix(
                    s@,
                    "abra-pair/1/"@,
                )
                ||| e == Error::Protocol("bad ticket base64") && crate::bytes::has_prefix(
                    s@,
                    "abra-pair/1/"@,
                ) && forall|b: Seq<u8>| s@ != "abra-pair/1/"@ + #[trigger] base64_text(b)
                ||| e == Error::Protocol("ticket too large") && exists|b: Seq<u8>|
                    s@ == "abra-pair/1/"@ + #[trigger] base64_text(b) && b.len() > MAX_TICKET_BYTES
            },
    {
        unwrap_token(
            s,
            "abra-pair/1/",
            "bad pair ticket prefix",
            "bad ticket base64",
            "ticket too large",
        )
    }

    /// Accepts a ticket that was read from `bytes`.
    pub fn check(&self, bytes: &[u8], now: u64) -> (r: Result<(), Error>)
        ensures
            r == ticket_check(*self, bytes@, now),
    {
        if !same_bytes(self.bytes(Some(self.sig)).as_slice(), bytes) || self.v != 1 || !same_text(
            self.record_type.as_str(),
            "pair-ticket",
        ) {
            return Err(Error::Protocol("invalid ticket"));
        }
        match check_signature(
            &self.peer_id,
            "pair-ticket",
            self.bytes(None).as_slice(),
            &self.sig,
        ) {
            Ok(()) => {},
            Err(e) => {
                return Err(e);
            },
        }
        match parse_time(self.expires_at.as_str()) {
            Err(e) => Err(e),
            Ok(end) => {
                proof {
                    times_are_small(self.expires_at@);
                }
                if now > CLOCK_SKEW_MS + end {
                    Err(Error::Authorization("ticket expired"))
                } else {
                    Ok(())
                }
            },
        }
    }
}

/// The bytes of a text made of a prefix and base64.
fn unwrap_token(
    s: &str,
    prefix: &'static str,
    bad_prefix: &'static str,
    bad_base64: &'static str,
    too_large: &'static str,
) -> (r: Result<Vec<u8>, Error>)
    ensures
        r matches Ok(b) ==> s@ == prefix@ + base64_text(b@) && b@.len() <= MAX_TICKET_BYTES,
        r matches Err(e) ==> {
            ||| e == Error::Protocol(bad_prefix) && !crate::bytes::has_prefix(s@, prefix@)
            ||| e == Error::Protocol(bad_base64) && crate::bytes::has_prefix(s@, prefix@)
                && forall|b: Seq<u8>| s@ != prefix@ + #[trigger] base64_text(b)
            ||| e == Error::Protocol(too_large) && exists|b: Seq<u8>|
                s@ == prefix@ + #[trigger] base64_text(b) && b.len() > MAX_TICKET_BYTES
        },
{
    let raw = match crate::text::strip_prefix(s, prefix) {
        Some(raw) => raw,
        None => {
            return Err(Error::Protocol(bad_prefix));
        },
    };
    assert(s@ =~= prefix@ + raw@);
    match base64_decode(raw.as_str()) {
        None => {
            proof {
                assert forall|b: Seq<u8>| s@ != prefix@ + #[trigger] base64_text(b) by {
                    if s@ == prefix@ + base64_text(b) {
                        assert((prefix@ + base64_text(b)).skip(prefix@.len() as int)
                            =~= base64_text(b));
                    }
                }
            }
            Err(Error::Protocol(bad_base64))
        },
        Some(b) => {
            if b.len() > MAX_TICKET_BYTES {
                assert(s@ == prefix@ + base64_text(b@));
                return Err(Error::Protocol(too_large));
            }
            Ok(b)
        },
    }
}

/// Text that carries a ticket carries one ticket only: what is unwrapped is what was encoded.
pub proof fn ticket_text_round_trip(t: PairTicket, s: Seq<char>, b: Seq<u8>)
    requires
        s == "abra-pair/1/"@ + base64_text(json_bytes(ticket_json(t))),
        s == "abra-pair/1/"@ + base64_text(b),
    ensures
        b == json_bytes(ticket_json(t)),
{
    let p = "abra-pair/1/"@;
    assert(s.skip(p.len() as int) =~= base64_text(b));
    assert(s.skip(p.len() as int) =~= base64_text(json_bytes(ticket_json(t))));
    crate::base64::base64_injective(b, json_bytes(ticket_json(t)));
}

/// A request to pair, in answer to a ticket.
#[derive(Clone, Debug, PartialEq, Eq)]
pub struct PairRequest {
    pub message_type: String,
    pub ticket_id: String,
    pub peer_id: PeerId,
    pub name: String,
    pub nonce: String,
    pub x25519_pk: [u8; 32],
    pub relay_key: Option<[u8; 32]>,
    pub addresses: Vec<String>,
    pub sig: Signature,
}

/// What `PairRequest::verify` answers.
pub open spec fn request_check(q: PairRequest) -> Result<(), Error> {
    if !is_hex_text(q.ticket_id@) {
        Err(Error::Protocol("bad ticket id"))
    } else if !is_hex_text(q.nonce@) {
        Err(Error::Protocol("bad pair nonce"))
    } else if q.ticket_id@.len() != 32 || q.nonce@.len() != 32 {
        Err(Error::Protocol("bad pair request ids"))
    } else {
        from_core(
            signature_check(
                q.peer_id,
                "pair-request"@,
                hex_bytes(q.ticket_id@) + hex_bytes(q.nonce@),
                q.sig,
            ),
        )
    }
}

impl PairRequest {
    /// Signs a request for a ticket.
    pub fn sign(
        ticket_id: String,
        name: String,
        x25519_pk: [u8; 32],
        relay_key: Option<[u8; 32]>,
        addresses: Vec<String>,
        nonce: [u8; 16],
        id: &Identity,
    ) -> (r: Result<Self, Error>)
        ensures
            r is Ok <==> is_hex_text(ticket_id@),
            r matches Err(e) ==> e == Error::Protocol("bad ticket id"),
            r matches Ok(q) ==> {
                &&& q.message_type@ == "pair-request"@
                &&& q.ticket_id == ticket_id
                &&& q.peer_id.0@ == id.peer()
                &&& q.name == name
                &&& q.nonce@ == hex_text(nonce@)
                &&& q.x25519_pk == x25519_pk
                &&& q.relay_key == relay_key
                &&& q.addresses == addresses
                &&& signature_of(*id, "pair-request"@, hex_bytes(ticket_id@) + nonce@, q.sig)
            },
    {
        let mut payload = match hex_bytes_of(ticket_id.as_str()) {
            Some(b) => b,
            None => {
                return Err(Error::Protocol("bad ticket id"));
            },
        };
        append_bytes(&mut payload, nonce.as_slice());
        Ok(
            PairRequest {
                message_type: "pair-request".to_owned(),
                ticket_id,
                peer_id: id.peer_id(),
                name,
                nonce: hex_encode(nonce.as_slice()),
                x25519_pk,
                relay_key,
                addresses,
                sig: id.sign("pair-request", payload.as_slice()),
            },
        )
    }

    /// Checks the ids and the signature.
    pub fn verify(&self) -> (r: Result<(), Error>)
        ensures
            r == request_check(*self),
    {
        let ticket = match hex_bytes_of(self.ticket_id.as_str()) {
            Some(b) => b,
            None => {
                return Err(Error::Protocol("bad ticket id"));
            },
        };
        let nonce = match hex_bytes_of(self.nonce.as_str()) {
            Some(b) => b,
            None => {
                return Err(Error::Protocol("bad pair nonce"));
            },
        };
        if ticket.len() != 16 || nonce.len() != 16 {
            return Err(Error::Protocol("bad pair request ids"));
        }
        let mut payload = ticket;
        append_bytes(&mut payload, nonce.as_slice());
        check_signature(&self.peer_id, "pair-request", payload.as_slice(), &self.sig)
    }
}

/// The answer to a request that was accepted.
#[derive(Clone, Debug, PartialEq, Eq)]
pub struct PairAccept {
    pub message_type: String,
    pub peer_id: PeerId,
    pub name: String,
    pub nonce: String,
}

/// The last message of pairing.
#[derive(Clone, Debug, PartialEq, Eq)]
pub struct PairConfirm {
    pub message_type: String,
    pub ticket_id: String,
}

/// How a guest finds a device that it was let in by.
#[derive(Clone, Debug, PartialEq, Eq)]
pub struct Intro {
    pub peer_id: PeerId,
    pub name: String,
    pub x25519_pk: [u8; 32],
    pub relay_discovery_key: [u8; 32],
    pub addresses: Vec<String>,
}

/// An introduction as a JSON object.
pub open spec fn intro_json(i: Intro) -> JsonV {
    JsonV::Obj(
        seq![
            ("addresses"@, JsonV::Arr(text_values(i.addresses@))),
            ("name"@, JsonV::Str(i.name@)),
            ("peer_id"@, JsonV::Str(hex_text(i.peer_id.0@))),
            ("relay_discovery_key"@, key_json(i.relay_discovery_key)),
            ("x25519_pk"@, key_json(i.x25519_pk)),
        ],
    )
}

impl Intro {
    /// The introduction as a JSON object.
    pub fn to_json(&self) -> (r: Json)
        ensures
            r@ == intro_json(*self),
    {
        let mut f = Fields::new();
        f.put("addresses", text_array(&self.addresses));
        f.put_str("name", self.name.as_str());
        f.put_str("peer_id", self.peer_id.to_hex().as_str());
        f.put("relay_discovery_key", key_value(&self.relay_discovery_key));
        f.put("x25519_pk", key_value(&self.x25519_pk));
        assert(f.so_far() =~= intro_json(*self)->Obj_0);
        f.done()
    }
}

/// Introductions as values.
pub open spec fn intro_values(s: Seq<Intro>) -> Seq<JsonV> {
    Seq::new(s.len(), |i: int| intro_json(s[i]))
}

fn intro_array(v: &Vec<Intro>) -> (r: Json)
    ensures
        r@ == JsonV::Arr(intro_values(v@)),
{
    let mut out: Vec<Json> = Vec::new();
    let mut i: usize = 0;
    while i < v.len()
        invariant
            i <= v@.len(),
            out@.len() == i,
            forall|k: int| 0 <= k < i ==> (#[trigger] out@[k])@ == intro_json(v@[k]),
        decreases v.len() - i,
    {
        out.push(v[i].to_json());
        i += 1;
    }
    assert(json_views(out@) =~= intro_values(v@));
    Json::Arr(out)
}

proof fn intros_plain(s: Seq<Intro>)
    ensures
        plain(JsonV::Arr(intro_values(s))),
{
    reveal_with_fuel(plain, 3);
    let a = intro_values(s);
    assert forall|i: int| 0 <= i < a.len() implies plain(#[trigger] a[i]) by {
        texts_are_plain(s[i].addresses@);
        assert(plain(intro_json(s[i])));
    }
}

/// A token by which a device lets a guest in.
#[derive(Clone, Debug, PartialEq, Eq)]
pub struct EnrollmentToken {
    pub v: u32,
    pub record_type: String,
    pub token_id: String,
    pub issuer: PeerId,
    pub issued_at: String,
    pub expires_at: String,
    pub label: String,
    pub intro: Vec<Intro>,
    pub audience: Option<PeerId>,
    pub bind_by: Option<String>,
    pub scopes: Scopes,
    pub sig: Signature,
}

/// A peer as a member, where there is one.
pub open spec fn opt_peer(key: Seq<char>, peer: Option<PeerId>) -> Members {
    match peer {
        Some(p) => seq![(key, JsonV::Str(hex_text(p.0@)))],
        None => Seq::empty(),
    }
}

/// The members of a token, with or without its signature.
pub open spec fn token_members(t: EnrollmentToken, sig: Option<Signature>) -> Members {
    opt_peer("audience"@, t.audience) + opt_str("bind_by"@, t.bind_by) + seq![
        ("expires_at"@, JsonV::Str(t.expires_at@)),
        ("intro"@, JsonV::Arr(intro_values(t.intro@))),
        ("issued_at"@, JsonV::Str(t.issued_at@)),
        ("issuer"@, JsonV::Str(hex_text(t.issuer.0@))),
        ("label"@, JsonV::Str(t.label@)),
        ("scopes"@, scopes_json(t.scopes)),
    ] + signature_member(sig) + seq![
        ("token_id"@, JsonV::Str(t.token_id@)),
        ("type"@, JsonV::Str(t.record_type@)),
        ("v"@, JsonV::Int(t.v as int)),
    ]
}

/// A token as JSON.
pub open spec fn token_json(t: EnrollmentToken) -> JsonV {
    JsonV::Obj(token_members(t, Some(t.sig)))
}

/// What the signature of a token covers.
pub open spec fn token_payload(t: EnrollmentToken) -> Seq<u8> {
    json_bytes(JsonV::Obj(token_members(t, None)))
}

pub(crate) proof fn token_plain(t: EnrollmentToken, sig: Option<Signature>)
    ensures
        plain(JsonV::Obj(token_members(t, sig))),
{
    reveal_with_fuel(plain, 2);
    scopes_plain(t.scopes);
    intros_plain(t.intro@);
    let m = token_members(t, sig);
    let a = opt_peer("audience"@, t.audience);
    let b = opt_str("bind_by"@, t.bind_by);
    let c = signature_member(sig);
    assert forall|i: int| 0 <= i < m.len() implies plain((#[trigger] m[i]).1) by {
        if i < a.len() {
            assert(m[i] == a[i]);
        } else if i < a.len() + b.len() {
            assert(m[i] == b[i - a.len()]);
        } else if i >= a.len() + b.len() + 6 && i < a.len() + b.len() + 6 + c.len() {
            assert(m[i] == c[i - a.len() - b.len() - 6]);
        }
    }
}

/// What `EnrollmentToken::verify` answers.
pub open spec fn token_verify(t: EnrollmentToken, now: u64) -> Result<(), Error> {
    if scopes_check(t.scopes) is Err {
        scopes_check(t.scopes)
    } else if !signed_by(t.issuer, "enroll"@, token_payload(t), t.sig) {
        from_core(signature_check(t.issuer, "enroll"@, token_payload(t), t.sig))
    } else {
        match (time_of(t.issued_at@), time_of(t.expires_at@)) {
            (Err(e), _) => Err(e),
            (_, Err(e)) => Err(e),
            (Ok(issued), Ok(end)) => if now > end + CLOCK_SKEW_MS {
                Err(Error::Authorization("token expired"))
            } else if t.audience is None {
                match t.bind_by {
                    None => Err(Error::Protocol("unbound token lacks bind_by")),
                    Some(by) => match time_of(by@) {
                        Err(e) => Err(e),
                        Ok(limit) => if limit > issued + 900_000 {
                            Err(Error::Protocol("bind window exceeds 15m"))
                        } else {
                            Ok(())
                        },
                    },
                }
            } else {
                Ok(())
            },
        }
    }
}

/// What `EnrollmentToken::check` answers for a token that was read from `bytes`.
pub open spec fn token_check(t: EnrollmentToken, bytes: Seq<u8>, now: u64) -> Result<(), Error> {
    if json_bytes(token_json(t)) != bytes || t.v != 1 || t.record_type@ != "enrollment"@ {
        Err(Error::Protocol("invalid enrollment"))
    } else if scopes_check(t.scopes) is Err {
        scopes_check(t.scopes)
    } else if !signed_by(t.issuer, "enroll"@, token_payload(t), t.sig) {
        from_core(signature_check(t.issuer, "enroll"@, token_payload(t), t.sig))
    } else {
        match time_of(t.expires_at@) {
            Err(e) => Err(e),
            Ok(end) => if now > end + CLOCK_SKEW_MS {
                Err(Error::Authorization("token expired"))
            } else if t.audience is None && t.bind_by is None {
                Err(Error::Protocol("unbound token lacks bind_by"))
            } else {
                Ok(())
            },
        }
    }
}

/// The window in which a token without an audience must be bound.
pub open spec fn bind_window(ttl_ms: u64) -> u64 {
    if ttl_ms < 900_000 {
        ttl_ms
    } else {
        900_000
    }
}

impl EnrollmentToken {
    fn to_json(&self, sig: Option<Signature>) -> (r: Json)
        ensures
            r@ == JsonV::Obj(token_members(*self, sig)),
    {
        let mut f = Fields::new();
        match &self.audience {
            Some(p) => {
                f.put_str("audience", p.to_hex().as_str());
            },
            None => {},
        }
        f.put_opt("bind_by", &self.bind_by);
        f.put_str("expires_at", self.expires_at.as_str());
        f.put("intro", intro_array(&self.intro));
        f.put_str("issued_at", self.issued_at.as_str());
        f.put_str("issuer", self.issuer.to_hex().as_str());
        f.put_str("label", self.label.as_str());
        f.put("scopes", self.scopes.to_json());
        put_signature(&mut f, sig);
        f.put_str("token_id", self.token_id.as_str());
        f.put_str("type", self.record_type.as_str());
        f.put("v", Json::Int(self.v as i64));
        assert(f.so_far() =~= token_members(*self, sig));
        f.done()
    }

    fn bytes(&self, sig: Option<Signature>) -> (r: Vec<u8>)
        ensures
            r@ == json_bytes(JsonV::Obj(token_members(*self, sig))),
    {
        proof {
            token_plain(*self, sig);
        }
        plain_bytes(&self.to_json(sig))
    }

    /// Makes a token with a given id.
    pub fn mint_with(
        token_id: String,
        label: String,
        intro: Vec<Intro>,
        audience: Option<PeerId>,
        scopes: Scopes,
        now: u64,
        ttl_ms: u64,
        id: &Identity,
    ) -> (r: Result<Self, Error>)
        requires
            ttl_ms <= 2_592_000_000 ==> now + ttl_ms <= u64::MAX,
        ensures
            r is Ok <==> scopes_check(scopes) is Ok && ttl_ms <= 2_592_000_000,
            r matches Err(e) ==> if scopes_check(scopes) is Err {
                scopes_check(scopes) == Err::<(), Error>(e)
            } else {
                e == Error::Protocol("enrollment TTL exceeds 30d")
            },
            r matches Ok(t) ==> {
                &&& t.v == 1
                &&& t.record_type@ == "enrollment"@
                &&& t.token_id == token_id
                &&& t.issuer.0@ == id.peer()
                &&& shows_time(now as int, t.issued_at@)
                &&& shows_time(now + ttl_ms, t.expires_at@)
                &&& t.label == label
                &&& t.intro == intro
                &&& t.audience == audience
                &&& t.bind_by is Some <==> audience is None
                &&& t.bind_by matches Some(by) ==> shows_time(now + bind_window(ttl_ms), by@)
                &&& t.scopes == scopes
                &&& signature_of(*id, "enroll"@, token_payload(t), t.sig)
            },
    {
        match scopes.validate() {
            Ok(()) => {},
            Err(e) => {
                return Err(e);
            },
        }
        if ttl_ms > 2_592_000_000 {
            return Err(Error::Protocol("enrollment TTL exceeds 30d"));
        }
        let window: u64 = if ttl_ms < 900_000 {
            ttl_ms
        } else {
            900_000
        };
        let bind_by = if audience.is_none() {
            Some(format_time(now + window))
        } else {
            None
        };
        let mut x = EnrollmentToken {
            v: 1,
            record_type: "enrollment".to_owned(),
            token_id,
            issuer: id.peer_id(),
            issued_at: format_time(now),
            expires_at: format_time(now + ttl_ms),
            label,
            intro,
            audience,
            bind_by,
            scopes,
            sig: Signature([0u8; 64]),
        };
        let ghost before = token_payload(x);
        x.sig = id.sign("enroll", x.bytes(None).as_slice());
        assert(token_payload(x) == before);
        Ok(x)
    }

    /// Makes a token with an id of its own.
    pub fn mint(
        label: String,
        intro: Vec<Intro>,
        audience: Option<PeerId>,
        scopes: Scopes,
        now: u64,
        ttl_ms: u64,
        id: &Identity,
    ) -> (r: Result<Self, Error>)
        requires
            ttl_ms <= 2_592_000_000 ==> now + ttl_ms <= u64::MAX,
        ensures
            r is Ok <==> scopes_check(scopes) is Ok && ttl_ms <= 2_592_000_000,
            r matches Err(e) ==> if scopes_check(scopes) is Err {
                scopes_check(scopes) == Err::<(), Error>(e)
            } else {
                e == Error::Protocol("enrollment TTL exceeds 30d")
            },
            r matches Ok(t) ==> {
                &&& t.v == 1
                &&& t.record_type@ == "enrollment"@
                &&& exists|raw: [u8; 16]| t.token_id@ == hex_text(#[trigger] raw@)
                &&& t.issuer.0@ == id.peer()
                &&& shows_time(now as int, t.issued_at@)
                &&& shows_time(now + ttl_ms, t.expires_at@)
                &&& t.label == label
                &&& t.intro == intro
                &&& t.audience == audience
                &&& t.bind_by is Some <==> audience is None
                &&& t.bind_by matches Some(by) ==> shows_time(now + bind_window(ttl_ms), by@)
                &&& t.scopes == scopes
                &&& signature_of(*id, "enroll"@, token_payload(t), t.sig)
            },
    {
        Self::mint_with(random16(), label, intro, audience, scopes, now, ttl_ms, id)
    }

    /// The token as text that people can pass on.
    pub fn encode(&self) -> (r: Result<String, Error>)
        ensures
            r is Ok,
            r->Ok_0@ == "abra-enroll/1/"@ + base64_text(json_bytes(token_json(*self))),
    {
        Ok(concat("abra-enroll/1/", base64_encode(self.bytes(Some(self.sig)).as_slice()).as_str()))
    }

    /// The bytes inside the text of a token, which may come as a link.
    pub fn unwrap_text(s: &str) -> (r: Result<Vec<u8>, Error>)
        ensures
            r matches Ok(b) ==> join_rest(s@) == "abra-enroll/1/"@ + base64_text(b@) && b@.len()
                <= MAX_TICKET_BYTES,
            r matches Err(e) ==> {
                ||| e == Error::Protocol("bad enrollment prefix") && !has_prefix(
                    join_rest(s@),
                    "abra-enroll/1/"@,
                )
                ||| e == Error::Protocol("bad enrollment base64") && has_prefix(
                    join_rest(s@),
                    "abra-enroll/1/"@,
                ) && forall|b: Seq<u8>|
                    join_rest(s@) != "abra-enroll/1/"@ + #[trigger] base64_text(b)
                ||| e == Error::Protocol("enrollment too large") && exists|b: Seq<u8>|
                    join_rest(s@) == "abra-enroll/1/"@ + #[trigger] base64_text(b) && b.len()
                        > MAX_TICKET_BYTES
            },
    {
        match crate::text::strip_prefix(s, "abra://join/") {
            Some(rest) => unwrap_token(
                rest.as_str(),
                "abra-enroll/1/",
                "bad enrollment prefix",
                "bad enrollment base64",
                "enrollment too large",
            ),
            None => unwrap_token(
                s,
                "abra-enroll/1/",
                "bad enrollment prefix",
                "bad enrollment base64",
                "enrollment too large",
            ),
        }
    }

    /// Accepts a token that was read from `bytes`.
    pub fn check(&self, bytes: &[u8], now: u64) -> (r: Result<(), Error>)
        ensures
            r == token_check(*self, bytes@, now),
    {
        if !same_bytes(self.bytes(Some(self.sig)).as_slice(), bytes) || self.v != 1 || !same_text(
            self.record_type.as_str(),
            "enrollment",
        ) {
            return Err(Error::Protocol("invalid enrollment"));
        }
        match self.scopes.validate() {
            Ok(()) => {},
            Err(e) => {
                return Err(e);
            },
        }
        match check_signature(&self.issuer, "enroll", self.bytes(None).as_slice(), &self.sig) {
            Ok(()) => {},
            Err(e) => {
                return Err(e);
            },
        }
        let end = match parse_time(self.expires_at.as_str()) {
            Err(e) => {
                return Err(e);
            },
            Ok(end) => end,
        };
        proof {
            times_are_small(self.expires_at@);
        }
        if now > end + CLOCK_SKEW_MS {
            return Err(Error::Authorization("token expired"));
        }
        if self.audience.is_none() && self.bind_by.is_none() {
            return Err(Error::Protocol("unbound token lacks bind_by"));
        }
        Ok(())
    }

    /// Checks the scopes, the signature and the times.
    pub fn verify(&self, now: u64) -> (r: Result<(), Error>)
        ensures
            r == token_verify(*self, now),
    {
        match self.scopes.validate() {
            Ok(()) => {},
            Err(e) => {
                return Err(e);
            },
        }
        match check_signature(&self.issuer, "enroll", self.bytes(None).as_slice(), &self.sig) {
            Ok(()) => {},
            Err(e) => {
                return Err(e);
            },
        }
        let issued = match parse_time(self.issued_at.as_str()) {
            Err(e) => {
                return Err(e);
            },
            Ok(issued) => issued,
        };
        let end = match parse_time(self.expires_at.as_str()) {
            Err(e) => {
                return Err(e);
            },
            Ok(end) => end,
        };
        proof {
            times_are_small(self.issued_at@);
            times_are_small(self.expires_at@);
        }
        if now > end + CLOCK_SKEW_MS {
            return Err(Error::Authorization("token expired"));
        }
        if self.audience.is_none() {
            let by = match &self.bind_by {
                None => {
                    return Err(Error::Protocol("unbound token lacks bind_by"));
                },
                Some(by) => by,
            };
            let limit = match parse_time(by.as_str()) {
                Err(e) => {
                    return Err(e);
                },
                Ok(limit) => limit,
            };
            if limit > issued + 900_000 {
                return Err(Error::Protocol("bind window exceeds 15m"));
            }
        }
        Ok(())
    }
}

/// What follows the link form of a token, or the text itself.
pub open spec fn join_rest(s: Seq<char>) -> Seq<char> {
    if has_prefix(s, "abra://join/"@) {
        s.skip("abra://join/"@.len() as int)
    } else {
        s
    }
}

} // verus!
