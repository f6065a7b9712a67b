//! Reading tickets and tokens from the text in which they are passed on.
use vstd::prelude::*;

use crate::base64::{base64_injective, base64_text};
use crate::bytes::{array_extensional, has_prefix};
use crate::canonical::{json_bytes, json_of, parse_json, value_fault};
use crate::identity::{PeerId, Signature};
use crate::json::{json_views, keys_ascend, member, nesting, orderly, Json, JsonV};
use crate::members::{
    find, find_at, find_none, letter_before, list_nesting, member_nesting, neighbours_ascend,
    texts_in_order,
};
use crate::net::auth::{
    intro_json, intro_values, join_rest, key_json, list_valid, opt_key, scopes_check, opt_peer,
    scopes_json, ticket_check, ticket_json, ticket_members, token_check, token_json, token_members,
    EnrollmentToken, Intro, PairTicket, Scopes, MAX_TICKET_BYTES,
};
use crate::net::error::Error;
use crate::order::{char_rank, lex_before};
use crate::reading::{read_texts, texts_read};
use crate::record::{opt_str, text_values};
use crate::shape::{
    bytes_in, nat_in, opt_bytes_in, opt_text_in, opt_view, read_bytes, read_nat, read_opt_text,
    read_text, text_in, text_view,
};
use crate::util::{fixed_hex, hex_round_trip, hex_text};

verus! {

/// Sixty-four bytes in hex.
pub open spec fn signature_in(v: Option<JsonV>) -> Option<Seq<u8>> {
    match v {
        Some(JsonV::Str(s)) => match fixed_hex(s, 64, "signature") {
            Ok(b) => Some(b),
            Err(e) => None,
        },
        _ => None,
    }
}

fn read_signature(v: Option<&Json>) -> (r: Option<Signature>)
    ensures
        r is Some <==> signature_in(opt_view(v)) is Some,
        r matches Some(s) ==> signature_in(opt_view(v)) == Some(s.0@),
{
    match v {
        Some(Json::Str(s)) => match crate::util::hex_decode_fixed::<64>(s.as_str(), "signature") {
            Ok(b) => Some(Signature(b)),
            Err(_) => None,
        },
        _ => None,
    }
}

/// The bytes of a key, where there is one.
pub open spec fn key_view(k: Option<[u8; 32]>) -> Option<Seq<u8>> {
    match k {
        Some(b) => Some(b@),
        None => None,
    }
}

fn read_opt_key(v: Option<&Json>) -> (r: Option<Option<[u8; 32]>>)
    ensures
        r is Some <==> opt_bytes_in(opt_view(v)) is Some,
        r matches Some(k) ==> opt_bytes_in(opt_view(v)) == Some(key_view(k)),
{
    match v {
        None => Some(None),
        Some(Json::Null) => Some(None),
        Some(_) => match read_bytes(v) {
            Some(b) => Some(Some(b)),
            None => None,
        },
    }
}

/// A ticket is read from a value.
pub open spec fn ticket_read(v: JsonV, t: PairTicket) -> bool {
    &&& v is Obj
    &&& nat_in(member(v, "v"@)) == Some(t.v as int)
    &&& text_in(member(v, "type"@)) == Some(t.record_type@)
    &&& bytes_in(member(v, "peer_id"@)) == Some(t.peer_id.0@)
    &&& text_in(member(v, "name"@)) == Some(t.name@)
    &&& text_in(member(v, "ticket_id"@)) == Some(t.ticket_id@)
    &&& text_in(member(v, "issued_at"@)) == Some(t.issued_at@)
    &&& text_in(member(v, "expires_at"@)) == Some(t.expires_at@)
    &&& bytes_in(member(v, "x25519_pk"@)) == Some(t.x25519_pk@)
    &&& opt_bytes_in(member(v, "relay_key"@)) == Some(key_view(t.relay_key))
    &&& texts_read(member(v, "addresses"@), t.addresses@)
    &&& signature_in(member(v, "sig"@)) == Some(t.sig.0@)
}

fn read_ticket(v: &Json) -> (r: Option<PairTicket>)
    ensures
        match r {
            Some(t) => ticket_read(v@, t),
            None => forall|t: PairTicket| !ticket_read(v@, t),
        },
{
    match v {
        Json::Obj(_) => {},
        _ => {
            return None;
        },
    }
    let addresses = match read_texts(v.get("addresses")) {
        None => {
            return None;
        },
        Some(a) => a,
    };
    let relay_key = match read_opt_key(v.get("relay_key")) {
        None => {
            return None;
        },
        Some(k) => k,
    };
    let sig = match read_signature(v.get("sig")) {
        None => {
            return None;
        },
        Some(s) => s,
    };
    let n = match read_nat(v.get("v")) {
        None => {
            return None;
        },
        Some(n) => n,
    };
    if n > u32::MAX as u64 {
        return None;
    }
    let record_type = read_text(v.get("type"));
    let peer_id = read_bytes(v.get("peer_id"));
    let name = read_text(v.get("name"));
    let ticket_id = read_text(v.get("ticket_id"));
    let issued_at = read_text(v.get("issued_at"));
    let expires_at = read_text(v.get("expires_at"));
    let x25519_pk = read_bytes(v.get("x25519_pk"));
    match (record_type, peer_id, name, ticket_id, issued_at, expires_at, x25519_pk) {
        (
            Some(record_type),
            Some(peer_id),
            Some(name),
            Some(ticket_id),
            Some(issued_at),
            Some(expires_at),
            Some(x25519_pk),
        ) => Some(
            PairTicket {
                v: n as u32,
                record_type,
                peer_id: PeerId(peer_id),
                name,
                ticket_id,
                issued_at,
                expires_at,
                x25519_pk,
                relay_key,
                addresses,
                sig,
            },
        ),
        _ => None,
    }
}

proof fn ticket_keys()
    ensures
        "addresses"@.len() == 9 && "addresses"@[0] == 'a',
        "expires_at"@.len() == 10 && "expires_at"@[0] == 'e',
        "issued_at"@.len() == 9 && "issued_at"@[0] == 'i',
        "name"@.len() == 4 && "name"@[0] == 'n',
        "peer_id"@.len() == 7 && "peer_id"@[0] == 'p',
        "relay_key"@.len() == 9 && "relay_key"@[0] == 'r',
        "sig"@.len() == 3 && "sig"@[0] == 's',
        "ticket_id"@.len() == 9 && "ticket_id"@[0] == 't' && "ticket_id"@[1] == 'i',
        "type"@.len() == 4 && "type"@[0] == 't' && "type"@[1] == 'y',
        "v"@.len() == 1 && "v"@[0] == 'v',
        "x25519_pk"@.len() == 9 && "x25519_pk"@[0] == 'x',
{
    reveal_strlit("addresses");
    reveal_strlit("expires_at");
    reveal_strlit("issued_at");
    reveal_strlit("name");
    reveal_strlit("peer_id");
    reveal_strlit("relay_key");
    reveal_strlit("sig");
    reveal_strlit("ticket_id");
    reveal_strlit("type");
    reveal_strlit("v");
    reveal_strlit("x25519_pk");
}

proof fn ticket_in_order(t: PairTicket)
    ensures
        keys_ascend(ticket_json(t)->Obj_0),
        orderly(ticket_json(t)),
        value_fault(ticket_json(t)) is None,
        nesting(ticket_json(t)) <= 127,
{
    ticket_keys();
    letter_before("addresses"@, "expires_at"@, 0);
    letter_before("expires_at"@, "issued_at"@, 0);
    letter_before("issued_at"@, "name"@, 0);
    letter_before("name"@, "peer_id"@, 0);
    letter_before("peer_id"@, "relay_key"@, 0);
    letter_before("peer_id"@, "sig"@, 0);
    letter_before("relay_key"@, "sig"@, 0);
    letter_before("sig"@, "ticket_id"@, 0);
    letter_before("ticket_id"@, "type"@, 1);
    letter_before("type"@, "v"@, 0);
    letter_before("v"@, "x25519_pk"@, 0);
    let m = ticket_json(t)->Obj_0;
    let r = opt_key("relay_key"@, t.relay_key).len() as int;
    assert(m.len() == 10 + r);
    assert(r == 0 || r == 1);
    assert(m[0].0 == "addresses"@ && m[1].0 == "expires_at"@ && m[2].0 == "issued_at"@ && m[3].0
        == "name"@ && m[4].0 == "peer_id"@);
    assert(r == 1 ==> m[5].0 == "relay_key"@);
    assert(m[5 + r].0 == "sig"@ && m[6 + r].0 == "ticket_id"@ && m[7 + r].0 == "type"@ && m[8
        + r].0 == "v"@ && m[9 + r].0 == "x25519_pk"@);
    neighbours_ascend(m);
    texts_in_order(t.addresses@);
    assert forall|i: int| 0 <= i < m.len() implies orderly((#[trigger] m[i]).1) && nesting(m[i].1)
        <= 1 by {
        if r == 1 && i == 5 {
            assert(m[i].1 is Str);
        }
    }
    member_nesting(m, 1);
    crate::net::auth::ticket_plain(t, Some(t.sig));
    crate::record::plain_no_fault(ticket_json(t), false, true);
}

/// What is written of a ticket reads as that ticket.
pub proof fn written_ticket_reads_back(t: PairTicket)
    ensures
        ticket_read(ticket_json(t), t),
{
    ticket_keys();
    ticket_in_order(t);
    let m = ticket_json(t)->Obj_0;
    let r = opt_key("relay_key"@, t.relay_key).len() as int;
    assert(r == 0 || r == 1);
    assert(m.len() == 10 + r);
    find_at(m, 0);
    find_at(m, 1);
    find_at(m, 2);
    find_at(m, 3);
    find_at(m, 4);
    find_at(m, 5 + r);
    find_at(m, 6 + r);
    find_at(m, 7 + r);
    find_at(m, 8 + r);
    find_at(m, 9 + r);
    assert(m[5 + r] == ("sig"@, JsonV::Str(hex_text(t.sig.0@))));
    assert(m[6 + r] == ("ticket_id"@, JsonV::Str(t.ticket_id@)));
    assert(m[7 + r] == ("type"@, JsonV::Str(t.record_type@)));
    assert(m[8 + r] == ("v"@, JsonV::Int(t.v as int)));
    assert(m[9 + r] == ("x25519_pk"@, key_json(t.x25519_pk)));
    hex_round_trip(t.peer_id.0@, "hash");
    hex_round_trip(t.x25519_pk@, "hash");
    hex_round_trip(t.sig.0@, "signature");
    match t.relay_key {
        Some(k) => {
            assert(m[5] == ("relay_key"@, key_json(k)));
            find_at(m, 5);
            hex_round_trip(k@, "hash");
        },
        None => {
            assert forall|i: int| 0 <= i < m.len() implies (#[trigger] m[i]).0 != "relay_key"@ by {
                assert(r == 0);
            }
            find_none(m, "relay_key"@);
        },
    }
    assert(find(m, "addresses"@) == member(ticket_json(t), "addresses"@));
}

/// A value reads as one ticket only: two that it reads as are written alike, and what is wrong with
/// one is wrong with the other.
pub proof fn ticket_reading_is_unique(v: JsonV, a: PairTicket, b: PairTicket, bytes: Seq<u8>, now: u64)
    requires
        ticket_read(v, a),
        ticket_read(v, b),
    ensures
        ticket_json(a) == ticket_json(b),
        ticket_check(a, bytes, now) == ticket_check(b, bytes, now),
{
    array_extensional(a.peer_id.0, b.peer_id.0);
    assert(a.peer_id == b.peer_id);
    signatures_equal(a.sig, b.sig);
    assert(text_values(a.addresses@) == text_values(b.addresses@));
    assert(opt_key("relay_key"@, a.relay_key) == opt_key("relay_key"@, b.relay_key));
    assert(ticket_members(a, None) == ticket_members(b, None));
    assert(ticket_members(a, Some(a.sig)) == ticket_members(b, Some(b.sig)));
}

proof fn signatures_equal(a: Signature, b: Signature)
    requires
        a.0@ == b.0@,
    ensures
        a == b,
{
    array_extensional(a.0, b.0);
}

/// The text of a ticket.
pub open spec fn ticket_text(bytes: Seq<u8>) -> Seq<char> {
    "abra-pair/1/"@ + base64_text(bytes)
}

impl PairTicket {
    /// Reads a ticket from its text, and accepts it where it is in order.
    pub fn parse(s: &str, now: u64) -> (r: Result<PairTicket, Error>)
        ensures
            r matches Ok(t) ==> exists|b: Seq<u8>|
                {
                    &&& s@ == #[trigger] ticket_text(b)
                    &&& b.len() <= MAX_TICKET_BYTES
                    &&& ticket_check(t, b, now) is Ok
                },
            r matches Err(e) ==> {
                ||| e == Error::Protocol("bad pair ticket prefix") && !has_prefix(
                    s@,
                    "abra-pair/1/"@,
                )
                ||| e == Error::Protocol("bad ticket base64") && forall|b: Seq<u8>|
                    s@ != #[trigger] ticket_text(b)
                ||| e == Error::Protocol("ticket too large") && exists|b: Seq<u8>|
                    s@ == #[trigger] ticket_text(b) && b.len() > MAX_TICKET_BYTES
                ||| exists|b: Seq<u8>|
                    s@ == #[trigger] ticket_text(b) && match json_of(b) {
                        None => e == Error::Json,
                        Some(v) => (e == Error::Json && forall|t: PairTicket| !ticket_read(v, t))
                            || (exists|t: PairTicket| #[trigger]
                            ticket_read(v, t) && ticket_check(t, b, now) == Err::<(), Error>(e)),
                    }
            },
            forall|t: PairTicket|
                s@ == ticket_text(#[trigger] json_bytes(ticket_json(t))) && json_bytes(
                    ticket_json(t),
                ).len() <= MAX_TICKET_BYTES && ticket_check(t, json_bytes(ticket_json(t)), now)
                    is Ok ==> r is Ok && ticket_json(r->Ok_0) == ticket_json(t),
    {
        let bytes = match PairTicket::unwrap_text(s) {
            Err(e) => {
                proof {
                    assert forall|b: Seq<u8>| s@ == #[trigger] ticket_text(b) implies has_prefix(
                        s@,
                        "abra-pair/1/"@,
                    ) by {
                        assert(s@.take("abra-pair/1/"@.len() as int) =~= "abra-pair/1/"@);
                    }
                    assert forall|b: Seq<u8>| s@ == #[trigger] ticket_text(b) implies s@
                        == "abra-pair/1/"@ + base64_text(b) by {}
                    if exists|b: Seq<u8>|
                        s@ == "abra-pair/1/"@ + #[trigger] base64_text(b) && b.len()
                            > MAX_TICKET_BYTES {
                        let big = choose|b: Seq<u8>|
                            s@ == "abra-pair/1/"@ + #[trigger] base64_text(b) && b.len()
                                > MAX_TICKET_BYTES;
                        assert(s@ == ticket_text(big));
                        assert forall|b: Seq<u8>| s@ == #[trigger] ticket_text(b) implies b
                            == big by {
                            one_text(s@, b, big);
                        }
                    }
                }
                return Err(e);
            },
            Ok(b) => b,
        };
        let ghost b = bytes@;
        assert(s@ == ticket_text(b));
        proof {
            assert forall|t: PairTicket|
                s@ == ticket_text(#[trigger] json_bytes(ticket_json(t))) implies json_bytes(
                ticket_json(t),
            ) == b by {
                one_text(s@, json_bytes(ticket_json(t)), b);
                ticket_in_order(t);
            }
        }
        let v = match parse_json(bytes.as_slice()) {
            None => {
                assert forall|t: PairTicket|
                    s@ == ticket_text(#[trigger] json_bytes(ticket_json(t))) implies false by {
                    ticket_in_order(t);
                }
                return Err(Error::Json);
            },
            Some(v) => v,
        };
        proof {
            assert forall|t: PairTicket|
                s@ == ticket_text(#[trigger] json_bytes(ticket_json(t))) implies ticket_read(
                v@,
                t,
            ) by {
                ticket_in_order(t);
                written_ticket_reads_back(t);
            }
        }
        let ticket = match read_ticket(&v) {
            None => {
                return Err(Error::Json);
            },
            Some(t) => t,
        };
        proof {
            assert forall|t: PairTicket|
                s@ == ticket_text(#[trigger] json_bytes(ticket_json(t))) implies ticket_json(ticket)
                == ticket_json(t) && ticket_check(ticket, b, now) == ticket_check(t, b, now) by {
                ticket_reading_is_unique(v@, ticket, t, b, now);
            }
            assert(ticket_read(v@, ticket));
        }
        match ticket.check(bytes.as_slice(), now) {
            Err(e) => Err(e),
            Ok(()) => Ok(ticket),
        }
    }
}

proof fn one_text(s: Seq<char>, a: Seq<u8>, b: Seq<u8>)
    requires
        s == ticket_text(a),
        s == ticket_text(b),
    ensures
        a == b,
{
    let p = "abra-pair/1/"@;
    assert(ticket_text(a).skip(p.len() as int) =~= base64_text(a));
    assert(ticket_text(b).skip(p.len() as int) =~= base64_text(b));
    base64_injective(a, b);
}

/// A truth value.
pub open spec fn bool_in(v: Option<JsonV>) -> Option<bool> {
    match v {
        Some(JsonV::Bool(b)) => Some(b),
        _ => None,
    }
}

fn read_bool(v: Option<&Json>) -> (r: Option<bool>)
    ensures
        r == bool_in(opt_view(v)),
{
    match v {
        Some(Json::Bool(b)) => Some(*b),
        _ => None,
    }
}

/// Scopes are read from a value.
pub open spec fn scopes_read(v: JsonV, s: Scopes) -> bool {
    &&& v is Obj
    &&& texts_read(member(v, "capsules"@), s.capsules@)
    &&& texts_read(member(v, "kinds"@), s.kinds@)
    &&& bool_in(member(v, "send"@)) == Some(s.send)
    &&& bool_in(member(v, "receive"@)) == Some(s.receive)
    &&& bool_in(member(v, "lease_acquire"@)) == Some(s.lease_acquire)
    &&& bool_in(member(v, "lease_takeover"@)) == Some(s.lease_takeover)
}

fn read_scopes(v: &Json) -> (r: Option<Scopes>)
    ensures
        match r {
            Some(s) => scopes_read(v@, s),
            None => forall|s: Scopes| !scopes_read(v@, s),
        },
{
    match v {
        Json::Obj(_) => {},
        _ => {
            return None;
        },
    }
    let capsules = match read_texts(v.get("capsules")) {
        None => {
            return None;
        },
        Some(x) => x,
    };
    let kinds = match read_texts(v.get("kinds")) {
        None => {
            return None;
        },
        Some(x) => x,
    };
    let send = read_bool(v.get("send"));
    let receive = read_bool(v.get("receive"));
    let lease_acquire = read_bool(v.get("lease_acquire"));
    let lease_takeover = read_bool(v.get("lease_takeover"));
    match (send, receive, lease_acquire, lease_takeover) {
        (Some(send), Some(receive), Some(lease_acquire), Some(lease_takeover)) => Some(
            Scopes { capsules, kinds, send, receive, lease_acquire, lease_takeover },
        ),
        _ => None,
    }
}

/// An introduction is read from a value.
pub open spec fn intro_read(v: JsonV, i: Intro) -> bool {
    &&& v is Obj
    &&& bytes_in(member(v, "peer_id"@)) == Some(i.peer_id.0@)
    &&& text_in(member(v, "name"@)) == Some(i.name@)
    &&& bytes_in(member(v, "x25519_pk"@)) == Some(i.x25519_pk@)
    &&& bytes_in(member(v, "relay_discovery_key"@)) == Some(i.relay_discovery_key@)
    &&& texts_read(member(v, "addresses"@), i.addresses@)
}

fn read_intro(v: &Json) -> (r: Option<Intro>)
    ensures
        match r {
            Some(i) => intro_read(v@, i),
            None => forall|i: Intro| !intro_read(v@, i),
        },
{
    match v {
        Json::Obj(_) => {},
        _ => {
            return None;
        },
    }
    let addresses = match read_texts(v.get("addresses")) {
        None => {
            return None;
        },
        Some(x) => x,
    };
    let peer_id = read_bytes(v.get("peer_id"));
    let name = read_text(v.get("name"));
    let x25519_pk = read_bytes(v.get("x25519_pk"));
    let relay = read_bytes(v.get("relay_discovery_key"));
    match (peer_id, name, x25519_pk, relay) {
        (Some(peer_id), Some(name), Some(x25519_pk), Some(relay_discovery_key)) => Some(
            Intro { peer_id: PeerId(peer_id), name, x25519_pk, relay_discovery_key, addresses },
        ),
        _ => None,
    }
}

/// Introductions are read from a list.
pub open spec fn intros_read(v: Option<JsonV>, s: Seq<Intro>) -> bool {
    v matches Some(JsonV::Arr(a)) && a.len() == s.len() && forall|i: int|
        0 <= i < s.len() ==> intro_read(a[i], #[trigger] s[i])
}

fn read_intros(v: Option<&Json>) -> (r: Option<Vec<Intro>>)
    ensures
        match r {
            Some(s) => intros_read(opt_view(v), s@),
            None => forall|s: Seq<Intro>| !intros_read(opt_view(v), s),
        },
{
    match v {
        Some(Json::Arr(a)) => {
            let ghost w = json_views(a@);
            let mut out: Vec<Intro> = Vec::new();
            let mut i: usize = 0;
            while i < a.len()
                invariant
                    i <= a@.len(),
                    w == json_views(a@),
                    w.len() == a@.len(),
                    opt_view(v) == Some(JsonV::Arr(w)),
                    out@.len() == i,
                    forall|j: int| 0 <= j < i ==> intro_read(w[j], #[trigger] out@[j]),
                decreases a.len() - i,
            {
                assert(w[i as int] == a@[i as int]@);
                match read_intro(&a[i]) {
                    Some(x) => {
                        out.push(x);
                    },
                    None => {
                        assert forall|s: Seq<Intro>| !intros_read(opt_view(v), s) by {
                            if intros_read(opt_view(v), s) {
                                assert(intro_read(w[i as int], s[i as int]));
                            }
                        }
                        return None;
                    },
                }
                i += 1;
            }
            Some(out)
        },
        _ => None,
    }
}

/// The bytes of a peer's id, where there is one.
pub open spec fn peer_view(p: Option<PeerId>) -> Option<Seq<u8>> {
    match p {
        Some(p) => Some(p.0@),
        None => None,
    }
}

/// A token is read from a value.
pub open spec fn token_read(v: JsonV, t: EnrollmentToken) -> bool {
    &&& v is Obj
    &&& nat_in(member(v, "v"@)) == Some(t.v as int)
    &&& text_in(member(v, "type"@)) == Some(t.record_type@)
    &&& text_in(member(v, "token_id"@)) == Some(t.token_id@)
    &&& bytes_in(member(v, "issuer"@)) == Some(t.issuer.0@)
    &&& text_in(member(v, "issued_at"@)) == Some(t.issued_at@)
    &&& text_in(member(v, "expires_at"@)) == Some(t.expires_at@)
    &&& text_in(member(v, "label"@)) == Some(t.label@)
    &&& intros_read(member(v, "intro"@), t.intro@)
    &&& opt_bytes_in(member(v, "audience"@)) == Some(peer_view(t.audience))
    &&& opt_text_in(member(v, "bind_by"@)) == Some(text_view(t.bind_by))
    &&& member(v, "scopes"@) matches Some(x) && scopes_read(x, t.scopes)
    &&& signature_in(member(v, "sig"@)) == Some(t.sig.0@)
}

fn read_token(v: &Json) -> (r: Option<EnrollmentToken>)
    ensures
        match r {
            Some(t) => token_read(v@, t),
            None => forall|t: EnrollmentToken| !token_read(v@, t),
        },
{
    match v {
        Json::Obj(_) => {},
        _ => {
            return None;
        },
    }
    let intro = match read_intros(v.get("intro")) {
        None => {
            return None;
        },
        Some(x) => x,
    };
    let scopes = match v.get("scopes") {
        None => {
            return None;
        },
        Some(x) => match read_scopes(x) {
            None => {
                return None;
            },
            Some(s) => s,
        },
    };
    let audience = match read_opt_key(v.get("audience")) {
        None => {
            return None;
        },
        Some(None) => None,
        Some(Some(b)) => Some(PeerId(b)),
    };
    let bind_by = match read_opt_text(v.get("bind_by")) {
        None => {
            return None;
        },
        Some(x) => x,
    };
    let sig = match read_signature(v.get("sig")) {
        None => {
            return None;
        },
        Some(s) => s,
    };
    let n = match read_nat(v.get("v")) {
        None => {
            return None;
        },
        Some(n) => n,
    };
    if n > u32::MAX as u64 {
        return None;
    }
    let record_type = read_text(v.get("type"));
    let token_id = read_text(v.get("token_id"));
    let issuer = read_bytes(v.get("issuer"));
    let issued_at = read_text(v.get("issued_at"));
    let expires_at = read_text(v.get("expires_at"));
    let label = read_text(v.get("label"));
    match (record_type, token_id, issuer, issued_at, expires_at, label) {
        (
            Some(record_type),
            Some(token_id),
            Some(issuer),
            Some(issued_at),
            Some(expires_at),
            Some(label),
        ) => Some(
            EnrollmentToken {
                v: n as u32,
                record_type,
                token_id,
                issuer: PeerId(issuer),
                issued_at,
                expires_at,
                label,
                intro,
                audience,
                bind_by,
                scopes,
                sig,
            },
        ),
        _ => None,
    }
}

proof fn token_keys()
    ensures
        "audience"@.len() == 8 && "audience"@[0] == 'a',
        "bind_by"@.len() == 7 && "bind_by"@[0] == 'b',
        "expires_at"@.len() == 10 && "expires_at"@[0] == 'e',
        "intro"@.len() == 5 && "intro"@[0] == 'i' && "intro"@[1] == 'n',
        "issued_at"@.len() == 9 && "issued_at"@[0] == 'i' && "issued_at"@[1] == 's',
        "issued_at"@[2] == 's' && "issued_at"@[3] == 'u' && "issued_at"@[4] == 'e'
            && "issued_at"@[5] == 'd',
        "issuer"@.len() == 6 && "issuer"@[0] == 'i' && "issuer"@[1] == 's' && "issuer"@[2] == 's'
            && "issuer"@[3] == 'u' && "issuer"@[4] == 'e' && "issuer"@[5] == 'r',
        "label"@.len() == 5 && "label"@[0] == 'l',
        "scopes"@.len() == 6 && "scopes"@[0] == 's' && "scopes"@[1] == 'c',
        "sig"@.len() == 3 && "sig"@[0] == 's' && "sig"@[1] == 'i',
        "token_id"@.len() == 8 && "token_id"@[0] == 't' && "token_id"@[1] == 'o',
        "type"@.len() == 4 && "type"@[0] == 't' && "type"@[1] == 'y',
        "v"@.len() == 1 && "v"@[0] == 'v',
{
    reveal_strlit("audience");
    reveal_strlit("bind_by");
    reveal_strlit("expires_at");
    reveal_strlit("intro");
    reveal_strlit("issued_at");
    reveal_strlit("issuer");
    reveal_strlit("label");
    reveal_strlit("scopes");
    reveal_strlit("sig");
    reveal_strlit("token_id");
    reveal_strlit("type");
    reveal_strlit("v");
}

proof fn scopes_in_order(s: Scopes)
    ensures
        keys_ascend(scopes_json(s)->Obj_0),
        orderly(scopes_json(s)),
        nesting(scopes_json(s)) <= 2,
        scopes_read(scopes_json(s), s),
{
    reveal_strlit("capsules");
    reveal_strlit("kinds");
    reveal_strlit("lease_acquire");
    reveal_strlit("lease_takeover");
    reveal_strlit("receive");
    reveal_strlit("send");
    let m = scopes_json(s)->Obj_0;
    assert("capsules"@[0] == 'c' && "kinds"@[0] == 'k' && "lease_acquire"@[0] == 'l'
        && "receive"@[0] == 'r' && "send"@[0] == 's' && "lease_takeover"@[0] == 'l');
    letter_before("capsules"@, "kinds"@, 0);
    letter_before("kinds"@, "lease_acquire"@, 0);
    assert forall|i: int| 0 <= i < 6 implies "lease_acquire"@[i] == "lease_takeover"@[i] by {
        assert("lease_acquire"@[0] == 'l' && "lease_takeover"@[0] == 'l');
        assert("lease_acquire"@[1] == 'e' && "lease_takeover"@[1] == 'e');
        assert("lease_acquire"@[2] == 'a' && "lease_takeover"@[2] == 'a');
        assert("lease_acquire"@[3] == 's' && "lease_takeover"@[3] == 's');
        assert("lease_acquire"@[4] == 'e' && "lease_takeover"@[4] == 'e');
        assert("lease_acquire"@[5] == '_' && "lease_takeover"@[5] == '_');
    }
    assert("lease_acquire"@[6] == 'a' && "lease_takeover"@[6] == 't');
    letter_before("lease_acquire"@, "lease_takeover"@, 6);
    letter_before("lease_takeover"@, "receive"@, 0);
    letter_before("receive"@, "send"@, 0);
    assert(m.len() == 6);
    neighbours_ascend(m);
    texts_in_order(s.capsules@);
    texts_in_order(s.kinds@);
    assert forall|i: int| 0 <= i < m.len() implies orderly((#[trigger] m[i]).1) && nesting(m[i].1)
        <= 1 by {}
    member_nesting(m, 1);
    find_at(m, 0);
    find_at(m, 1);
    find_at(m, 2);
    find_at(m, 3);
    find_at(m, 4);
    find_at(m, 5);
}

proof fn intro_in_order(i: Intro)
    ensures
        orderly(intro_json(i)),
        nesting(intro_json(i)) <= 2,
        intro_read(intro_json(i), i),
{
    reveal_strlit("addresses");
    reveal_strlit("name");
    reveal_strlit("peer_id");
    reveal_strlit("relay_discovery_key");
    reveal_strlit("x25519_pk");
    let m = intro_json(i)->Obj_0;
    letter_before("addresses"@, "name"@, 0);
    letter_before("name"@, "peer_id"@, 0);
    letter_before("peer_id"@, "relay_discovery_key"@, 0);
    letter_before("relay_discovery_key"@, "x25519_pk"@, 0);
    assert(m.len() == 5);
    neighbours_ascend(m);
    texts_in_order(i.addresses@);
    assert forall|k: int| 0 <= k < m.len() implies orderly((#[trigger] m[k]).1) && nesting(m[k].1)
        <= 1 by {}
    member_nesting(m, 1);
    find_at(m, 0);
    find_at(m, 1);
    find_at(m, 2);
    find_at(m, 3);
    find_at(m, 4);
    hex_round_trip(i.peer_id.0@, "hash");
    hex_round_trip(i.x25519_pk@, "hash");
    hex_round_trip(i.relay_discovery_key@, "hash");
}

proof fn intros_in_order(s: Seq<Intro>)
    ensures
        orderly(JsonV::Arr(intro_values(s))),
        nesting(JsonV::Arr(intro_values(s))) <= 3,
        intros_read(Some(JsonV::Arr(intro_values(s))), s),
{
    let a = intro_values(s);
    assert forall|i: int| 0 <= i < a.len() implies orderly(#[trigger] a[i]) && nesting(a[i])
        <= 2 by {
        intro_in_order(s[i]);
    }
    assert forall|i: int| 0 <= i < s.len() implies intro_read(a[i], #[trigger] s[i]) by {
        intro_in_order(s[i]);
    }
    list_nesting(a, 2);
}

/// How many of the first members of a token are there.
spec fn token_front(t: EnrollmentToken) -> int {
    opt_peer("audience"@, t.audience).len() as int + opt_str("bind_by"@, t.bind_by).len() as int
}

proof fn token_positions(t: EnrollmentToken)
    ensures
        ({
            let m = token_json(t)->Obj_0;
            let n = token_front(t);
            &&& 0 <= n <= 2
            &&& m.len() == n + 10
            &&& m[n] == ("expires_at"@, JsonV::Str(t.expires_at@))
            &&& m[n + 1] == ("intro"@, JsonV::Arr(intro_values(t.intro@)))
            &&& m[n + 2] == ("issued_at"@, JsonV::Str(t.issued_at@))
            &&& m[n + 3] == ("issuer"@, JsonV::Str(hex_text(t.issuer.0@)))
            &&& m[n + 4] == ("label"@, JsonV::Str(t.label@))
            &&& m[n + 5] == ("scopes"@, scopes_json(t.scopes))
            &&& m[n + 6] == ("sig"@, JsonV::Str(hex_text(t.sig.0@)))
            &&& m[n + 7] == ("token_id"@, JsonV::Str(t.token_id@))
            &&& m[n + 8] == ("type"@, JsonV::Str(t.record_type@))
            &&& m[n + 9] == ("v"@, JsonV::Int(t.v as int))
            &&& t.audience matches Some(p) ==> m[0] == ("audience"@, JsonV::Str(hex_text(p.0@)))
            &&& t.bind_by matches Some(b) ==> m[n - 1] == ("bind_by"@, JsonV::Str(b@))
            &&& n == (if t.audience is Some {
                1int
            } else {
                0
            }) + (if t.bind_by is Some {
                1int
            } else {
                0
            })
        }),
{
}

proof fn token_keys_ascend(t: EnrollmentToken)
    ensures
        keys_ascend(token_json(t)->Obj_0),
{
    token_keys();
    token_positions(t);
    letter_before("audience"@, "bind_by"@, 0);
    letter_before("audience"@, "expires_at"@, 0);
    letter_before("bind_by"@, "expires_at"@, 0);
    letter_before("expires_at"@, "intro"@, 0);
    letter_before("intro"@, "issued_at"@, 1);
    letter_before("issued_at"@, "issuer"@, 5);
    letter_before("issuer"@, "label"@, 0);
    letter_before("label"@, "scopes"@, 0);
    letter_before("scopes"@, "sig"@, 1);
    letter_before("sig"@, "token_id"@, 0);
    letter_before("token_id"@, "type"@, 1);
    letter_before("type"@, "v"@, 0);
    let m = token_json(t)->Obj_0;
    let n = token_front(t);
    let before = |i: int| lex_before(char_rank(m[i].0), char_rank(m[i + 1].0));
    assert(before(n) && before(n + 1) && before(n + 2) && before(n + 3) && before(n + 4) && before(
        n + 5,
    ) && before(n + 6) && before(n + 7) && before(n + 8));
    assert(n >= 1 ==> before(n - 1));
    assert(n == 2 ==> before(0));
    assert forall|i: int| 0 <= i && i + 1 < m.len() implies lex_before(
        char_rank((#[trigger] m[i]).0),
        char_rank(m[i + 1].0),
    ) by {
        assert(before(i));
    }
    neighbours_ascend(m);
}

proof fn token_values(t: EnrollmentToken)
    ensures
        forall|i: int|
            0 <= i < token_json(t)->Obj_0.len() ==> orderly((#[trigger] token_json(t)->Obj_0[i]).1)
                && nesting(token_json(t)->Obj_0[i].1) <= 3,
{
    token_positions(t);
    intros_in_order(t.intro@);
    scopes_in_order(t.scopes);
    let m = token_json(t)->Obj_0;
    let n = token_front(t);
    assert forall|i: int| 0 <= i < m.len() implies orderly((#[trigger] m[i]).1) && nesting(m[i].1)
        <= 3 by {
        if i < n {
            assert(i == 0 || i == n - 1);
            assert(m[i].1 is Str);
        } else if i == n + 1 {
        } else if i == n + 5 {
        } else {
            assert(m[i].1 is Str || m[i].1 is Int);
        }
    }
}

proof fn token_in_order(t: EnrollmentToken)
    ensures
        keys_ascend(token_json(t)->Obj_0),
        orderly(token_json(t)),
        value_fault(token_json(t)) is None,
        nesting(token_json(t)) <= 127,
{
    token_keys_ascend(t);
    token_values(t);
    member_nesting(token_json(t)->Obj_0, 3);
    crate::net::auth::token_plain(t, Some(t.sig));
    crate::record::plain_no_fault(token_json(t), false, true);
}

/// What is written of a token reads as that token.
pub proof fn written_token_reads_back(t: EnrollmentToken)
    ensures
        token_read(token_json(t), t),
{
    token_keys();
    token_positions(t);
    token_in_order(t);
    intros_in_order(t.intro@);
    scopes_in_order(t.scopes);
    let m = token_json(t)->Obj_0;
    let n = token_front(t);
    find_at(m, n);
    find_at(m, n + 1);
    find_at(m, n + 2);
    find_at(m, n + 3);
    find_at(m, n + 4);
    find_at(m, n + 5);
    find_at(m, n + 6);
    find_at(m, n + 7);
    find_at(m, n + 8);
    find_at(m, n + 9);
    hex_round_trip(t.issuer.0@, "hash");
    hex_round_trip(t.sig.0@, "signature");
    match t.audience {
        Some(p) => {
            find_at(m, 0);
            hex_round_trip(p.0@, "hash");
        },
        None => {
            assert forall|i: int| 0 <= i < m.len() implies (#[trigger] m[i]).0 != "audience"@ by {}
            find_none(m, "audience"@);
        },
    }
    match t.bind_by {
        Some(b) => {
            find_at(m, n - 1);
        },
        None => {
            assert forall|i: int| 0 <= i < m.len() implies (#[trigger] m[i]).0 != "bind_by"@ by {}
            find_none(m, "bind_by"@);
        },
    }
}

proof fn same_scopes_read(v: JsonV, a: Scopes, b: Scopes)
    requires
        scopes_read(v, a),
        scopes_read(v, b),
    ensures
        scopes_json(a) == scopes_json(b),
        scopes_check(a) == scopes_check(b),
{
    assert(text_values(a.capsules@) == text_values(b.capsules@));
    assert(text_values(a.kinds@) == text_values(b.kinds@));
    same_list(a.capsules@, b.capsules@);
    same_list(a.kinds@, b.kinds@);
}

proof fn same_list(a: Seq<String>, b: Seq<String>)
    requires
        text_values(a) == text_values(b),
    ensures
        list_valid(a) == list_valid(b),
{
    assert(text_values(a).len() == a.len());
    assert(text_values(b).len() == b.len());
    assert forall|i: int| 0 <= i < a.len() implies (#[trigger] a[i])@ == b[i]@ by {
        assert(text_values(a)[i] == JsonV::Str(a[i]@));
        assert(text_values(b)[i] == JsonV::Str(b[i]@));
    }
    if exists|i: int| 0 <= i < a.len() && (#[trigger] a[i])@ == "*"@ {
        let i = choose|i: int| 0 <= i < a.len() && (#[trigger] a[i])@ == "*"@;
        assert(b[i]@ == "*"@);
    }
    if exists|i: int| 0 <= i < b.len() && (#[trigger] b[i])@ == "*"@ {
        let i = choose|i: int| 0 <= i < b.len() && (#[trigger] b[i])@ == "*"@;
        assert(a[i]@ == "*"@);
    }
}

/// A value reads as one token only: two that it reads as are written alike, and what is wrong with
/// one is wrong with the other.
pub proof fn token_reading_is_unique(
    v: JsonV,
    a: EnrollmentToken,
    b: EnrollmentToken,
    bytes: Seq<u8>,
    now: u64,
)
    requires
        token_read(v, a),
        token_read(v, b),
    ensures
        token_json(a) == token_json(b),
        token_check(a, bytes, now) == token_check(b, bytes, now),
{
    array_extensional(a.issuer.0, b.issuer.0);
    assert(a.issuer == b.issuer);
    signatures_equal(a.sig, b.sig);
    let s = member(v, "intro"@)->0->Arr_0;
    assert forall|i: int| 0 <= i < a.intro@.len() implies intro_values(a.intro@)[i]
        == intro_values(b.intro@)[i] by {
        assert(intro_read(s[i], a.intro@[i]));
        assert(intro_read(s[i], b.intro@[i]));
        assert(text_values(a.intro@[i].addresses@) == text_values(b.intro@[i].addresses@));
        assert(intro_json(a.intro@[i]) == intro_json(b.intro@[i]));
    }
    assert(intro_values(a.intro@) =~= intro_values(b.intro@));
    same_scopes_read(member(v, "scopes"@)->0, a.scopes, b.scopes);
    assert(opt_peer("audience"@, a.audience) == opt_peer("audience"@, b.audience));
    assert(opt_str("bind_by"@, a.bind_by) == opt_str("bind_by"@, b.bind_by));
    assert(token_members(a, None) == token_members(b, None));
    assert(token_members(a, Some(a.sig)) == token_members(b, Some(b.sig)));
}

/// The text of a token, without the words that may stand in front of it.
pub open spec fn token_text(bytes: Seq<u8>) -> Seq<char> {
    "abra-enroll/1/"@ + base64_text(bytes)
}

proof fn one_token_text(s: Seq<char>, a: Seq<u8>, b: Seq<u8>)
    requires
        s == token_text(a),
        s == token_text(b),
    ensures
        a == b,
{
    let p = "abra-enroll/1/"@;
    assert(token_text(a).skip(p.len() as int) =~= base64_text(a));
    assert(token_text(b).skip(p.len() as int) =~= base64_text(b));
    base64_injective(a, b);
}

impl EnrollmentToken {
    /// Reads a token from its text, and accepts it where it is in order.
    pub fn parse(s: &str, now: u64) -> (r: Result<EnrollmentToken, Error>)
        ensures
            r matches Ok(t) ==> exists|b: Seq<u8>|
                {
                    &&& join_rest(s@) == #[trigger] token_text(b)
                    &&& b.len() <= MAX_TICKET_BYTES
                    &&& token_check(t, b, now) is Ok
                },
            r matches Err(e) ==> {
                ||| e == Error::Protocol("bad enrollment prefix") && !has_prefix(
                    join_rest(s@),
                    "abra-enroll/1/"@,
                )
                ||| e == Error::Protocol("bad enrollment base64") && forall|b: Seq<u8>|
                    join_rest(s@) != #[trigger] token_text(b)
                ||| e == Error::Protocol("enrollment too large") && exists|b: Seq<u8>|
                    join_rest(s@) == #[trigger] token_text(b) && b.len() > MAX_TICKET_BYTES
                ||| exists|b: Seq<u8>|
                    join_rest(s@) == #[trigger] token_text(b) && match json_of(b) {
                        None => e == Error::Json,
                        Some(v) => (e == Error::Json && forall|t: EnrollmentToken|
                            !token_read(v, t)) || (exists|t: EnrollmentToken| #[trigger]
                            token_read(v, t) && token_check(t, b, now) == Err::<(), Error>(e)),
                    }
            },
            forall|t: EnrollmentToken|
                join_rest(s@) == token_text(#[trigger] json_bytes(token_json(t))) && json_bytes(
                    token_json(t),
                ).len() <= MAX_TICKET_BYTES && token_check(t, json_bytes(token_json(t)), now)
                    is Ok ==> r is Ok && token_json(r->Ok_0) == token_json(t),
    {
        let ghost rest = join_rest(s@);
        let bytes = match EnrollmentToken::unwrap_text(s) {
            Err(e) => {
                proof {
                    assert forall|b: Seq<u8>| rest == #[trigger] token_text(b) implies has_prefix(
                        rest,
                        "abra-enroll/1/"@,
                    ) by {
                        assert(rest.take("abra-enroll/1/"@.len() as int) =~= "abra-enroll/1/"@);
                    }
                    assert forall|b: Seq<u8>| rest == #[trigger] token_text(b) implies rest
                        == "abra-enroll/1/"@ + base64_text(b) by {}
                    if exists|b: Seq<u8>|
                        rest == "abra-enroll/1/"@ + #[trigger] base64_text(b) && b.len()
                            > MAX_TICKET_BYTES {
                        let big = choose|b: Seq<u8>|
                            rest == "abra-enroll/1/"@ + #[trigger] base64_text(b) && b.len()
                                > MAX_TICKET_BYTES;
                        assert(rest == token_text(big));
                        assert forall|b: Seq<u8>| rest == #[trigger] token_text(b) implies b
                            == big by {
                            one_token_text(rest, b, big);
                        }
                    }
                }
                return Err(e);
            },
            Ok(b) => b,
        };
        let ghost b = bytes@;
        assert(rest == token_text(b));
        proof {
            assert forall|t: EnrollmentToken|
                rest == token_text(#[trigger] json_bytes(token_json(t))) implies json_bytes(
                token_json(t),
            ) == b by {
                one_token_text(rest, json_bytes(token_json(t)), b);
            }
        }
        let v = match parse_json(bytes.as_slice()) {
            None => {
                assert forall|t: EnrollmentToken|
                    rest == token_text(#[trigger] json_bytes(token_json(t))) implies false by {
                    token_in_order(t);
                }
                return Err(Error::Json);
            },
            Some(v) => v,
        };
        proof {
            assert forall|t: EnrollmentToken|
                rest == token_text(#[trigger] json_bytes(token_json(t))) implies token_read(
                v@,
                t,
            ) by {
                token_in_order(t);
                written_token_reads_back(t);
            }
        }
        let token = match read_token(&v) {
            None => {
                return Err(Error::Json);
            },
            Some(t) => t,
        };
        proof {
            assert forall|t: EnrollmentToken|
                rest == token_text(#[trigger] json_bytes(token_json(t))) implies token_json(token)
                == token_json(t) && token_check(token, b, now) == token_check(t, b, now) by {
                token_reading_is_unique(v@, token, t, b, now);
            }
            assert(token_read(v@, token));
        }
        match token.check(bytes.as_slice(), now) {
            Err(e) => Err(e),
            Ok(()) => Ok(token),
        }
    }
}

} // verus!
