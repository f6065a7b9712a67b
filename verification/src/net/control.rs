//! Control messages: one of the user's devices tells another what to do with a capsule.
use vstd::prelude::*;

use crate::canonical::json_bytes;
use crate::capsule::{put_signature, signature_member};
use crate::identity::{signature_of, signature_check, signed_by, Identity, PeerId, Signature};
use crate::json::{Json, JsonV};
use crate::net::auth::{check_signature, from_core, shows_time, times_are_small, Role};
use crate::net::clock::{format_time, parse_time, time_of};
use crate::net::error::Error;
use crate::net::pairing::{fresh_nonces, TrustV};
use crate::net::trust::TrustStore;
use crate::order::{char_rank, Key};
use crate::record::{opt_str, plain, plain_bytes, Fields, Members};
use crate::text::{chars_of, same_text};
use crate::util::{all_lower_hex, hex_encode, hex_text, is_lower_hex};

verus! {

/// What is to be done.
#[derive(Clone, Copy, Debug, PartialEq, Eq, Structural)]
pub enum ControlOp {
    Pause,
    Stop,
    Instruct,
}

/// How an operation is written.
pub open spec fn op_text(op: ControlOp) -> Seq<char> {
    match op {
        ControlOp::Pause => "pause"@,
        ControlOp::Stop => "stop"@,
        ControlOp::Instruct => "instruct"@,
    }
}

impl ControlOp {
    /// How the operation is written.
    pub fn as_str(&self) -> (r: &'static str)
        ensures
            r@ == op_text(*self),
    {
        match self {
            ControlOp::Pause => "pause",
            ControlOp::Stop => "stop",
            ControlOp::Instruct => "instruct",
        }
    }
}

/// An order about a capsule.
#[derive(Debug, PartialEq, Eq)]
pub struct ControlMessage {
    pub message_type: String,
    pub capsule_id: crate::cas::Hash,
    pub op: ControlOp,
    pub text: Option<String>,
    pub at: String,
    pub nonce: String,
    pub sig: Signature,
}

/// The answer to an order. What a handler made of it travels as JSON, and only to a peer that
/// reads it.
#[derive(Debug, PartialEq, Eq)]
pub struct ControlAck {
    pub message_type: String,
    pub nonce: String,
    pub ok: bool,
    pub error: Option<String>,
    pub result: Option<Json>,
}

/// The members of an order, with or without its signature.
pub open spec fn control_members(m: ControlMessage, sig: Option<Signature>) -> Members {
    seq![
        ("at"@, JsonV::Str(m.at@)),
        ("capsule_id"@, JsonV::Str(hex_text(m.capsule_id.0@))),
        ("nonce"@, JsonV::Str(m.nonce@)),
        ("op"@, JsonV::Str(op_text(m.op))),
    ] + signature_member(sig) + opt_str("text"@, m.text) + seq![
        ("type"@, JsonV::Str(m.message_type@)),
    ]
}

/// What the signature of an order covers.
pub open spec fn control_payload(m: ControlMessage) -> Seq<u8> {
    json_bytes(JsonV::Obj(control_members(m, None)))
}

proof fn control_plain(m: ControlMessage, sig: Option<Signature>)
    ensures
        plain(JsonV::Obj(control_members(m, sig))),
{
    reveal_with_fuel(plain, 2);
    let s = control_members(m, sig);
    let a = signature_member(sig);
    let b = opt_str("text"@, m.text);
    assert forall|i: int| 0 <= i < s.len() implies plain((#[trigger] s[i]).1) by {
        if i >= 4 && i < 4 + a.len() {
            assert(s[i] == a[i - 4]);
        } else if i >= 4 + a.len() && i < 4 + a.len() + b.len() {
            assert(s[i] == b[i - 4 - a.len()]);
        }
    }
}

/// The text of an instruction is no longer than this many bytes.
pub const MAX_CONTROL_TEXT: usize = 8192;

/// What is wrong with an order, before its nonce is taken.
pub open spec fn control_fault(m: ControlMessage, signer: PeerId, d: TrustV, now: u64) -> Option<Error> {
    if m.message_type@ != "control"@ || (m.op is Instruct) != (m.text is Some) {
        Some(Error::Protocol("invalid control message"))
    } else if m.text is Some && vstd::utf8::encode_utf8(m.text->0@).len() > MAX_CONTROL_TEXT {
        Some(Error::Protocol("control text too large"))
    } else if m.nonce@.len() != 32 || !all_lower_hex(m.nonce@) {
        Some(Error::Protocol("invalid control nonce"))
    } else if !d.peers.dom().contains(signer.rank()) {
        Some(Error::Authorization("untrusted control signer"))
    } else if !(d.peers[signer.rank()].role is Full) {
        Some(Error::Authorization("guests cannot send control"))
    } else if !signed_by(signer, "control"@, control_payload(m), m.sig) {
        Some(from_core(signature_check(signer, "control"@, control_payload(m), m.sig))->Err_0)
    } else {
        match time_of(m.at@) {
            Err(e) => Some(e),
            Ok(at) => if now - at > 300_000 || at > now + 60_000 {
                Some(Error::Authorization("control timestamp outside window"))
            } else {
                None
            },
        }
    }
}

/// What is wrong with an order, its nonce and all.
pub open spec fn order_fault(m: ControlMessage, signer: PeerId, d: TrustV, now: u64) -> Option<Error> {
    if control_fault(m, signer, d, now) is Some {
        control_fault(m, signer, d, now)
    } else if fresh_nonces(d, now).dom().contains(char_rank(m.nonce@)) {
        Some(Error::Authorization("replayed control"))
    } else {
        None
    }
}

/// What is stored once an order came in: old nonces are forgotten where nothing else is wrong with
/// it, and its own is taken where it is accepted.
pub open spec fn order_recorded(m: ControlMessage, signer: PeerId, d: TrustV, now: u64) -> TrustV {
    if control_fault(m, signer, d, now) is Some {
        d
    } else if order_fault(m, signer, d, now) is Some {
        TrustV { control_nonces: fresh_nonces(d, now), ..d }
    } else {
        TrustV { control_nonces: fresh_nonces(d, now).insert(char_rank(m.nonce@), now), ..d }
    }
}

fn is_nonce(s: &str) -> (r: bool)
    ensures
        r == (s@.len() == 32 && all_lower_hex(s@)),
{
    let chars = chars_of(s);
    if chars.len() != 32 {
        return false;
    }
    let mut i: usize = 0;
    while i < chars.len()
        invariant
            i <= chars@.len(),
            chars@ == s@,
            forall|j: int| 0 <= j < i ==> is_lower_hex(s@[j]),
        decreases chars.len() - i,
    {
        let c = chars[i];
        if !(('0' <= c && c <= '9') || ('a' <= c && c <= 'f')) {
            assert(!is_lower_hex(s@[i as int]));
            return false;
        }
        i += 1;
    }
    true
}

impl ControlMessage {
    fn bytes(&self, sig: Option<Signature>) -> (r: Vec<u8>)
        ensures
            r@ == json_bytes(JsonV::Obj(control_members(*self, sig))),
    {
        let mut f = Fields::new();
        f.put_str("at", self.at.as_str());
        f.put_str("capsule_id", self.capsule_id.to_hex().as_str());
        f.put_str("nonce", self.nonce.as_str());
        f.put_str("op", self.op.as_str());
        put_signature(&mut f, sig);
        f.put_opt("text", &self.text);
        f.put_str("type", self.message_type.as_str());
        assert(f.so_far() =~= control_members(*self, sig));
        proof {
            control_plain(*self, sig);
        }
        plain_bytes(&f.done())
    }

    /// Signs an order. An instruction has a text, and nothing else has one.
    pub fn new(
        capsule_id: crate::cas::Hash,
        op: ControlOp,
        text: Option<String>,
        at_ms: u64,
        nonce: [u8; 16],
        id: &Identity,
    ) -> (r: Result<Self, Error>)
        ensures
            r is Ok <==> (op is Instruct) == (text is Some),
            r matches Err(e) ==> e == Error::Protocol("text must appear exactly for instruct"),
            r matches Ok(m) ==> {
                &&& m.message_type@ == "control"@
                &&& m.capsule_id == capsule_id
                &&& m.op == op
                &&& m.text == text
                &&& shows_time(at_ms as int, m.at@)
                &&& m.nonce@ == hex_text(nonce@)
                &&& signature_of(*id, "control"@, control_payload(m), m.sig)
            },
    {
        if (op == ControlOp::Instruct) != text.is_some() {
            return Err(Error::Protocol("text must appear exactly for instruct"));
        }
        let mut x = ControlMessage {
            message_type: "control".to_owned(),
            capsule_id,
            op,
            text,
            at: format_time(at_ms),
            nonce: hex_encode(nonce.as_slice()),
            sig: Signature([0u8; 64]),
        };
        let ghost before = control_payload(x);
        x.sig = id.sign("control", x.bytes(None).as_slice());
        assert(control_payload(x) == before);
        Ok(x)
    }

    /// Accepts an order once: a full peer signed it, it is recent, and its nonce is new.
    pub fn verify_and_record(
        &self,
        signer: PeerId,
        trust: &mut TrustStore,
        now: u64,
    ) -> (r: Result<(), Error>)
        requires
            old(trust).wf(),
        ensures
            final(trust).wf(),
            r == match order_fault(*self, signer, old(trust).disk@, now) {
                Some(e) => Err::<(), Error>(e),
                None => Ok(()),
            },
            final(trust).disk@ == order_recorded(*self, signer, old(trust).disk@, now),
    {
        if !same_text(self.message_type.as_str(), "control") || (self.op == ControlOp::Instruct)
            != self.text.is_some() {
            return Err(Error::Protocol("invalid control message"));
        }
        match &self.text {
            Some(t) => {
                if t.as_str().as_bytes().len() > MAX_CONTROL_TEXT {
                    return Err(Error::Protocol("control text too large"));
                }
            },
            None => {},
        }
        if !is_nonce(self.nonce.as_str()) {
            return Err(Error::Protocol("invalid control nonce"));
        }
        match trust.get(&signer) {
            None => {
                return Err(Error::Authorization("untrusted control signer"));
            },
            Some(p) => {
                if p.role != Role::Full {
                    return Err(Error::Authorization("guests cannot send control"));
                }
            },
        }
        match check_signature(&signer, "control", self.bytes(None).as_slice(), &self.sig) {
            Ok(()) => {},
            Err(e) => {
                return Err(e);
            },
        }
        let at = match parse_time(self.at.as_str()) {
            Ok(at) => at,
            Err(e) => {
                return Err(e);
            },
        };
        proof {
            times_are_small(self.at@);
        }
        if now.saturating_sub(at) > 300_000 || at > now.saturating_add(60_000) {
            return Err(Error::Authorization("control timestamp outside window"));
        }
        trust.consume_control_nonce(self.nonce.as_str(), now)
    }
}

} // verus!
