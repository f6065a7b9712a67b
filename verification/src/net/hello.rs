//! The first messages on a connection.
use vstd::prelude::*;

use crate::capsule::SPEC;
use crate::identity::PeerId;
use crate::net::auth::{
    FEATURE_BIND_CERT, FEATURE_CONTROL_RESULT, FEATURE_REVOCATION, FEATURE_SKIP_NATIVE,
    MAX_REVOCATIONS_PER_MESSAGE,
};
use crate::net::bind::Revocation;
use crate::net::error::{net_error_text, Error};
use crate::net::pairing::TrustV;
use crate::net::revoke::{newest_first, revocations_received};
use crate::net::trust::{revoked_guest, LocalRole, TrustDisk, TrustStore};
use crate::order::Key;
use crate::text::same_text;

verus! {

/// The version of the messages between peers.
pub const WIRE_VERSION: u32 = 1;

/// What a dialer says first.
#[derive(Clone, Debug, PartialEq, Eq)]
pub struct Hello {
    pub message_type: String,
    pub wire: u32,
    pub spec: String,
    pub peer_id: PeerId,
    pub name: String,
    pub features: Vec<String>,
    pub nonce: String,
    pub revocations: Vec<Revocation>,
}

/// What a listener answers.
#[derive(Debug, PartialEq, Eq)]
pub struct HelloOk {
    pub message_type: String,
    pub wire: u32,
    pub peer_id: PeerId,
    pub features: Vec<String>,
    pub nonce: String,
    pub session: String,
    pub revocations: Vec<Revocation>,
}

/// What a listener answers when it refuses.
#[derive(Debug, PartialEq, Eq)]
pub struct HelloReject {
    pub message_type: String,
    pub reason: String,
    pub message: String,
}

/// A message that something went wrong.
#[derive(Debug, PartialEq, Eq)]
pub struct ProtocolError {
    pub message_type: String,
    pub code: String,
    pub message: String,
}

/// A question whether the other side is there.
#[derive(Debug, PartialEq, Eq)]
pub struct Ping {
    pub message_type: String,
    pub nonce: String,
    pub ts: String,
}

/// The answer to a ping.
#[derive(Debug, PartialEq, Eq)]
pub struct Pong {
    pub message_type: String,
    pub nonce: String,
    pub ts: String,
}

/// The list names the feature.
pub open spec fn names_feature(features: Seq<String>, feature: Seq<char>) -> bool {
    exists|i: int| 0 <= i < features.len() && (#[trigger] features[i])@ == feature
}

/// Whether a list names a feature.
pub fn has_feature(features: &[String], feature: &str) -> (r: bool)
    ensures
        r == names_feature(features@, feature@),
{
    let mut i: usize = 0;
    while i < features.len()
        invariant
            i <= features@.len(),
            forall|j: int| 0 <= j < i ==> (#[trigger] features@[j])@ != feature@,
        decreases features.len() - i,
    {
        if same_text(features[i].as_str(), feature) {
            return true;
        }
        i += 1;
    }
    false
}

/// The features of this build.
pub open spec fn our_features() -> Seq<Seq<char>> {
    seq![
        "resume"@,
        "control"@,
        FEATURE_REVOCATION@,
        FEATURE_SKIP_NATIVE@,
        FEATURE_BIND_CERT@,
        FEATURE_CONTROL_RESULT@,
    ]
}

/// The features of this build.
pub fn supported_features() -> (r: Vec<String>)
    ensures
        crate::net::transport::texts(r@) == our_features(),
{
    let mut v: Vec<String> = Vec::new();
    v.push("resume".to_owned());
    v.push("control".to_owned());
    v.push(FEATURE_REVOCATION.to_owned());
    v.push(FEATURE_SKIP_NATIVE.to_owned());
    v.push(FEATURE_BIND_CERT.to_owned());
    v.push(FEATURE_CONTROL_RESULT.to_owned());
    assert(crate::net::transport::texts(v@) =~= our_features());
    v
}

/// What is wrong with a hello.
pub open spec fn hello_fault(hello: Hello, authenticated: PeerId) -> Option<Error> {
    if hello.peer_id != authenticated {
        Some(Error::Authentication("hello peer differs from transport"))
    } else if hello.wire != WIRE_VERSION || hello.spec@ != SPEC@ {
        Some(Error::Protocol("wire version mismatch"))
    } else if !names_feature(hello.features@, "resume"@) || !names_feature(
        hello.features@,
        "control"@,
    ) {
        Some(Error::Protocol("mandatory feature missing"))
    } else if hello.revocations@.len() > MAX_REVOCATIONS_PER_MESSAGE {
        Some(Error::Protocol("revocation list exceeds 128 records"))
    } else {
        None
    }
}

/// Checks a hello, and answers it.
pub fn check_hello(hello: &Hello, authenticated: PeerId, trusted: bool) -> (r: Result<
    HelloOk,
    Error,
>)
    ensures
        r matches Err(e) ==> hello_fault(*hello, authenticated) == Some(e),
        r matches Ok(ok) ==> {
            &&& hello_fault(*hello, authenticated) is None
            &&& ok.message_type@ == "hello-ok"@
            &&& ok.wire == WIRE_VERSION
            &&& ok.peer_id == authenticated
            &&& crate::net::transport::texts(ok.features@) == our_features()
            &&& ok.nonce == hello.nonce
            &&& ok.session@ == if trusted {
                "trusted"@
            } else {
                "bootstrap"@
            }
            &&& ok.revocations@.len() == 0
        },
{
    if !hello.peer_id.same(&authenticated) {
        return Err(Error::Authentication("hello peer differs from transport"));
    }
    if hello.wire != WIRE_VERSION || !same_text(hello.spec.as_str(), SPEC) {
        return Err(Error::Protocol("wire version mismatch"));
    }
    if !has_feature(hello.features.as_slice(), "resume") || !has_feature(
        hello.features.as_slice(),
        "control",
    ) {
        return Err(Error::Protocol("mandatory feature missing"));
    }
    if hello.revocations.len() > MAX_REVOCATIONS_PER_MESSAGE {
        return Err(Error::Protocol("revocation list exceeds 128 records"));
    }
    Ok(
        HelloOk {
            message_type: "hello-ok".to_owned(),
            wire: WIRE_VERSION,
            peer_id: authenticated,
            features: supported_features(),
            nonce: hello.nonce.clone(),
            session: if trusted {
                "trusted".to_owned()
            } else {
                "bootstrap".to_owned()
            },
            revocations: Vec::new(),
        },
    )
}

/// Whether a message may be sent by somebody who is not trusted yet.
pub fn bootstrap_allowed(kind: &str) -> (r: bool)
    ensures
        r <==> (kind@ == "pair-request"@ || kind@ == "pair-abort"@ || kind@ == "pair-accept"@
            || kind@ == "pair-confirm"@ || kind@ == "enroll-bind"@ || kind@ == "enroll-ok"@
            || kind@ == "error"@),
{
    same_text(kind, "pair-request") || same_text(kind, "pair-abort") || same_text(
        kind,
        "pair-accept",
    ) || same_text(kind, "pair-confirm") || same_text(kind, "enroll-bind") || same_text(
        kind,
        "enroll-ok",
    ) || same_text(kind, "error")
}

/// The revocations that go with an answer: none to a peer that does not read them, and none from
/// a guest.
pub open spec fn hello_revocations(d: TrustDisk, features: Seq<String>, now: u64) -> Seq<Revocation> {
    if d.local_role is Full && names_feature(features, FEATURE_REVOCATION@) {
        let all = newest_first(d.revocations.entries@, now);
        if all.len() > MAX_REVOCATIONS_PER_MESSAGE {
            all.take(MAX_REVOCATIONS_PER_MESSAGE as int)
        } else {
            all
        }
    } else {
        Seq::empty()
    }
}

/// The revocations that go with an answer.
pub fn negotiated_hello_revocations(
    trust: &TrustStore,
    remote_features: &[String],
    now: u64,
) -> (r: Vec<Revocation>)
    ensures
        r@ == hello_revocations(trust.disk, remote_features@, now),
{
    let full = match &trust.disk.local_role {
        LocalRole::Full => true,
        LocalRole::Guest { .. } => false,
    };
    if full && has_feature(remote_features, FEATURE_REVOCATION) {
        trust.current_revocations(now)
    } else {
        Vec::new()
    }
}

/// What is stored once a hello was taken in.
pub open spec fn hello_heard(d: TrustDisk, hello: Hello, remote: PeerId, now: u64) -> TrustV {
    if !revoked_guest(d, remote, now) && hello_fault(hello, remote) is None
        && d.peers@.dom().contains(remote.rank()) {
        revocations_received(d@, hello.revocations@, now)
    } else {
        d@
    }
}

/// What stands in the way of a session, before the revocations of the hello are taken in.
pub open spec fn hello_refused(d: TrustDisk, hello: Hello, remote: PeerId, now: u64) -> Option<Error> {
    if revoked_guest(d, remote, now) {
        Some(Error::Authorization("token revoked"))
    } else {
        hello_fault(hello, remote)
    }
}

/// A hello that a stranger, a guest or a full peer sends, and what is answered. A peer that the
/// hello's own revocations shut out is refused too.
pub fn answer_hello(
    trust: &mut TrustStore,
    hello: &Hello,
    remote: PeerId,
    local: PeerId,
    now: u64,
) -> (r: Result<HelloOk, Error>)
    requires
        old(trust).wf(),
    ensures
        final(trust).wf(),
        final(trust).disk@ == hello_heard(old(trust).disk, *hello, remote, now),
        ({
            let was_trusted = old(trust).disk.peers@.dom().contains(remote.rank());
            let refused = hello_refused(old(trust).disk, *hello, remote, now);
            let shut_out = was_trusted && (!final(trust).disk.peers@.dom().contains(remote.rank())
                || revoked_guest(final(trust).disk, remote, now));
            match r {
                Err(e) => if refused is Some {
                    refused == Some(e)
                } else {
                    shut_out && e == Error::Authorization("token revoked")
                },
                Ok(ok) => {
                    &&& refused is None
                    &&& !shut_out
                    &&& ok.message_type@ == "hello-ok"@
                    &&& ok.wire == WIRE_VERSION
                    &&& ok.peer_id == local
                    &&& crate::net::transport::texts(ok.features@) == our_features()
                    &&& ok.nonce == hello.nonce
                    &&& ok.session@ == if was_trusted {
                        "trusted"@
                    } else {
                        "bootstrap"@
                    }
                    &&& ok.revocations@ == hello_revocations(
                        final(trust).disk,
                        hello.features@,
                        now,
                    )
                },
            }
        }),
{
    let was_trusted = trust.get(&remote).is_some();
    if trust.is_revoked_guest(&remote, now) {
        return Err(Error::Authorization("token revoked"));
    }
    let mut ok = match check_hello(hello, remote, was_trusted) {
        Ok(ok) => ok,
        Err(e) => {
            return Err(e);
        },
    };
    if was_trusted {
        match trust.apply_revocations(&hello.revocations, now) {
            Ok(_) => {},
            Err(e) => {
                return Err(e);
            },
        }
        if trust.get(&remote).is_none() || trust.is_revoked_guest(&remote, now) {
            return Err(Error::Authorization("token revoked"));
        }
    }
    ok.peer_id = local;
    ok.revocations = negotiated_hello_revocations(trust, hello.features.as_slice(), now);
    Ok(ok)
}

impl HelloReject {
    /// The refusal that tells the other side why.
    pub fn of(error: &Error) -> (r: Self)
        ensures
            r.message_type@ == "hello-reject"@,
            r.reason@ == "wire"@,
            r.message@ == net_error_text(*error),
    {
        HelloReject {
            message_type: "hello-reject".to_owned(),
            reason: "wire".to_owned(),
            message: error.message(),
        }
    }
}

/// What a dialer got back.
pub enum HelloAnswer {
    Accepted(HelloOk),
    Rejected(HelloReject),
    Other,
}

/// Accepts the answer to a hello only where it is one to this hello, and from that peer.
pub fn check_hello_answer(nonce: &str, remote: PeerId, answer: HelloAnswer) -> (r: Result<
    HelloOk,
    Error,
>)
    ensures
        match answer {
            HelloAnswer::Accepted(ok) => if ok.nonce@ == nonce@ && ok.peer_id == remote {
                r == Ok::<HelloOk, Error>(ok)
            } else {
                r == Err::<HelloOk, Error>(Error::Authentication("invalid hello response"))
            },
            HelloAnswer::Rejected(no) => r == Err::<HelloOk, Error>(Error::Refused(no.message)),
            HelloAnswer::Other => r == Err::<HelloOk, Error>(
                Error::Protocol("expected hello response"),
            ),
        },
{
    match answer {
        HelloAnswer::Accepted(ok) => {
            if !same_text(ok.nonce.as_str(), nonce) || !ok.peer_id.same(&remote) {
                return Err(Error::Authentication("invalid hello response"));
            }
            Ok(ok)
        },
        HelloAnswer::Rejected(no) => Err(Error::Refused(no.message)),
        HelloAnswer::Other => Err(Error::Protocol("expected hello response")),
    }
}

/// Accepts the answer to a ping only where it is one to this ping.
pub fn check_pong(ping: &Ping, pong: &Pong) -> (r: Result<(), Error>)
    ensures
        r == if pong.message_type@ == "pong"@ && pong.nonce@ == ping.nonce@ {
            Ok::<(), Error>(())
        } else {
            Err(Error::Protocol("invalid pong"))
        },
{
    if !same_text(pong.message_type.as_str(), "pong") || !same_text(
        pong.nonce.as_str(),
        ping.nonce.as_str(),
    ) {
        return Err(Error::Protocol("invalid pong"));
    }
    Ok(())
}

/// A peer whose token was taken back gets no session, whatever its hello says.
pub proof fn revoked_guest_gets_no_session(d: TrustDisk, hello: Hello, remote: PeerId, now: u64)
    requires
        revoked_guest(d, remote, now),
    ensures
        hello_refused(d, hello, remote, now) == Some(Error::Authorization("token revoked")),
{
}

} // verus!
