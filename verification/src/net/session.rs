//! A session: which frames a peer may send, and what it is answered.
use vstd::prelude::*;

use crate::identity::PeerId;
use crate::json::Json;
use crate::net::auth::{same_scopes, shows_time, MeshProfile, Role, FEATURE_CONTROL_RESULT};
use crate::net::bind::{BindCertificate, EnrollMeshPeer, EnrollOk};
use crate::net::clock::{format_time, parse_time, time_of};
use crate::net::control::ControlAck;
use crate::net::error::{net_error_text, Error};
use crate::net::hello::{bootstrap_allowed, has_feature, names_feature, Ping, Pong, ProtocolError};
use crate::net::reason::{bounded, printable, reason_text, rejection_reason};
use crate::net::trust::{revoked_guest, token_revoked, TrustDisk, TrustStore, TrustedPeer};
use crate::order::Key;
use crate::text::same_text;

verus! {

/// The most pair requests that wait at a time.
pub const MAX_PENDING_PAIRS: usize = 128;

/// How long a guest's session lasts, in milliseconds.
pub const GUEST_SESSION_MS: u64 = 86_400_000;

/// A frame that a session takes.
#[derive(Clone, Copy, Debug, PartialEq, Eq, Structural)]
pub enum Frame {
    Ping,
    Offer,
    Plan,
    Ack,
    Control,
    PairRequest,
    PairConfirm,
    EnrollBind,
    Unknown,
}

/// What to do with a frame.
#[derive(Debug)]
pub enum Reception {
    /// Take it.
    Handle(Frame),
    /// Tell the peer that it may not send this, and end the session.
    Forbid,
    /// End the session.
    End(Error),
}

/// What ends a session, whatever is sent.
pub open spec fn session_fault(
    d: TrustDisk,
    peer: PeerId,
    trusted: bool,
    started: u64,
    now: u64,
) -> Option<Error> {
    let known = d.peers@.dom().contains(peer.rank());
    let p = d.peers@[peer.rank()];
    if revoked_guest(d, peer, now) || (trusted && !known) {
        Some(Error::Authorization("token revoked"))
    } else if known && p.role is Guest {
        match p.token_id {
            None => Some(Error::Authorization("guest lacks token")),
            Some(t) => if token_revoked(d, t@) {
                Some(Error::Authorization("token revoked"))
            } else {
                match p.expires_at {
                    None => Some(Error::Authorization("guest lacks expiry")),
                    Some(x) => match time_of(x@) {
                        Err(e) => Some(e),
                        Ok(end) => if now > end {
                            Some(Error::Authorization("token expired"))
                        } else if now - started > GUEST_SESSION_MS {
                            Some(Error::Authorization("guest session lifetime exceeded"))
                        } else {
                            None
                        },
                    },
                }
            },
        }
    } else {
        None
    }
}

fn check_session(trust: &TrustStore, peer: PeerId, trusted: bool, started: u64, now: u64) -> (r:
    Option<Error>)
    requires
        trust.wf(),
    ensures
        r == session_fault(trust.disk, peer, trusted, started, now),
{
    if trust.is_revoked_guest(&peer, now) || (trusted && trust.get(&peer).is_none()) {
        return Some(Error::Authorization("token revoked"));
    }
    let p = match trust.get(&peer) {
        None => {
            return None;
        },
        Some(p) => p,
    };
    if p.role != Role::Guest {
        return None;
    }
    match &p.token_id {
        None => {
            return Some(Error::Authorization("guest lacks token"));
        },
        Some(t) => {
            if trust.is_revoked(t.as_str()) {
                return Some(Error::Authorization("token revoked"));
            }
        },
    }
    let end = match &p.expires_at {
        None => {
            return Some(Error::Authorization("guest lacks expiry"));
        },
        Some(x) => match parse_time(x.as_str()) {
            Err(e) => {
                return Some(e);
            },
            Ok(end) => end,
        },
    };
    if now > end {
        return Some(Error::Authorization("token expired"));
    }
    if now > started && now - started > GUEST_SESSION_MS {
        return Some(Error::Authorization("guest session lifetime exceeded"));
    }
    None
}

/// The frame of a name.
pub open spec fn frame_of(kind: Seq<char>) -> Frame {
    if kind == "ping"@ {
        Frame::Ping
    } else if kind == "offer"@ {
        Frame::Offer
    } else if kind == "plan"@ {
        Frame::Plan
    } else if kind == "ack"@ {
        Frame::Ack
    } else if kind == "control"@ {
        Frame::Control
    } else if kind == "pair-request"@ {
        Frame::PairRequest
    } else if kind == "pair-confirm"@ {
        Frame::PairConfirm
    } else if kind == "enroll-bind"@ {
        Frame::EnrollBind
    } else {
        Frame::Unknown
    }
}

/// A stranger may send it.
pub open spec fn for_strangers(kind: Seq<char>) -> bool {
    kind == "pair-request"@ || kind == "pair-abort"@ || kind == "pair-accept"@ || kind
        == "pair-confirm"@ || kind == "enroll-bind"@ || kind == "enroll-ok"@ || kind == "error"@
}

fn read_frame(kind: &str) -> (r: Frame)
    ensures
        r == frame_of(kind@),
{
    if same_text(kind, "ping") {
        Frame::Ping
    } else if same_text(kind, "offer") {
        Frame::Offer
    } else if same_text(kind, "plan") {
        Frame::Plan
    } else if same_text(kind, "ack") {
        Frame::Ack
    } else if same_text(kind, "control") {
        Frame::Control
    } else if same_text(kind, "pair-request") {
        Frame::PairRequest
    } else if same_text(kind, "pair-confirm") {
        Frame::PairConfirm
    } else if same_text(kind, "enroll-bind") {
        Frame::EnrollBind
    } else {
        Frame::Unknown
    }
}

/// What is done with a frame.
pub open spec fn reception(
    d: TrustDisk,
    peer: PeerId,
    trusted: bool,
    started: u64,
    now: u64,
    kind: Option<Seq<char>>,
) -> Reception {
    match session_fault(d, peer, trusted, started, now) {
        Some(e) => Reception::End(e),
        None => match kind {
            None => Reception::End(Error::Protocol("frame lacks type")),
            Some(k) => if !trusted && !for_strangers(k) {
                Reception::Forbid
            } else {
                Reception::Handle(frame_of(k))
            },
        },
    }
}

/// Decides what to do with a frame of a session that began at `started`. The trust is what the
/// device has when the frame comes, not what it had when the session began.
pub fn receive_frame(
    trust: &TrustStore,
    peer: PeerId,
    trusted: bool,
    started: u64,
    now: u64,
    kind: Option<&str>,
) -> (r: Reception)
    requires
        trust.wf(),
    ensures
        r == reception(
            trust.disk,
            peer,
            trusted,
            started,
            now,
            match kind {
                Some(k) => Some(k@),
                None => None,
            },
        ),
{
    match check_session(trust, peer, trusted, started, now) {
        Some(e) => Reception::End(e),
        None => match kind {
            None => Reception::End(Error::Protocol("frame lacks type")),
            Some(k) => if !trusted && !bootstrap_allowed(k) {
                Reception::Forbid
            } else {
                Reception::Handle(read_frame(k))
            },
        },
    }
}

/// A guest whose token was taken back loses its session at the next frame, whatever it sends.
pub proof fn revocation_ends_the_session(
    d: TrustDisk,
    peer: PeerId,
    trusted: bool,
    started: u64,
    now: u64,
    kind: Option<Seq<char>>,
)
    requires
        revoked_guest(d, peer, now),
    ensures
        reception(d, peer, trusted, started, now, kind) == Reception::End(
            Error::Authorization("token revoked"),
        ),
{
}

/// A stranger gets to nothing but pairing and enrollment.
pub proof fn strangers_only_introduce_themselves(
    d: TrustDisk,
    peer: PeerId,
    started: u64,
    now: u64,
    kind: Option<Seq<char>>,
)
    ensures
        reception(d, peer, false, started, now, kind) matches Reception::Handle(f) ==> f
            is PairRequest || f is PairConfirm || f is EnrollBind || f is Unknown,
{
    reveal_strlit("pair-request");
    reveal_strlit("pair-abort");
    reveal_strlit("pair-accept");
    reveal_strlit("pair-confirm");
    reveal_strlit("enroll-bind");
    reveal_strlit("enroll-ok");
    reveal_strlit("error");
    reveal_strlit("ping");
    reveal_strlit("offer");
    reveal_strlit("plan");
    reveal_strlit("ack");
    reveal_strlit("control");
    match kind {
        None => {},
        Some(k) => {
            if for_strangers(k) {
                let ping = "ping"@;
                let offer = "offer"@;
                let plan = "plan"@;
                let ack = "ack"@;
                let control = "control"@;
                assert(k.len() > 4 && k != ping && k != plan && k != ack);
                if k.len() == 5 {
                    assert(k[0] == 'e' && offer[0] == 'o');
                    assert(k != offer);
                }
                assert(k.len() != control.len());
            }
        },
    }
}

/// The message to a peer that may not send what it sent.
pub fn forbidden_reply() -> (r: ProtocolError)
    ensures
        r.message_type@ == "error"@,
        r.code@ == "untrusted"@,
        r.message@ == "message forbidden on bootstrap session"@,
{
    ProtocolError {
        message_type: "error".to_owned(),
        code: "untrusted".to_owned(),
        message: "message forbidden on bootstrap session".to_owned(),
    }
}

/// The message to a peer that sent something unknown.
pub fn unknown_reply() -> (r: ProtocolError)
    ensures
        r.message_type@ == "error"@,
        r.code@ == "unknown_type"@,
        r.message@ == "unknown frame type"@,
{
    ProtocolError {
        message_type: "error".to_owned(),
        code: "unknown_type".to_owned(),
        message: "unknown frame type".to_owned(),
    }
}

/// The answer to a ping.
pub fn pong_to(ping: &Ping, now: u64) -> (r: Pong)
    ensures
        r.message_type@ == "pong"@,
        r.nonce == ping.nonce,
        shows_time(now as int, r.ts@),
{
    Pong { message_type: "pong".to_owned(), nonce: ping.nonce.clone(), ts: format_time(now) }
}

/// What came of handing an order to whoever carries it out.
#[derive(Debug)]
pub enum Carried {
    /// Nobody carries out orders here.
    Nobody,
    Done(Json),
    Failed(Error),
    TimedOut,
}

/// The answer to an order. What a handler says of its failure is scrubbed like the reason of a
/// refusal; what it made of the order goes only to a peer that reads it.
pub fn control_reply(
    nonce: &str,
    verified: Result<(), Error>,
    carried: Carried,
    features: &[String],
) -> (r: ControlAck)
    ensures
        r.message_type@ == "control-ack"@,
        r.nonce@ == nonce@,
        r.ok <==> verified is Ok && (carried is Nobody || carried is Done),
        r.error is None <==> r.ok,
        match verified {
            Err(e) => r.error matches Some(t) && t@ == net_error_text(e),
            Ok(()) => match carried {
                Carried::Failed(e) => r.error matches Some(t) && t@ == bounded(
                    printable(reason_text(e)),
                ),
                Carried::TimedOut => r.error matches Some(t) && t@ == "control handler timed out"@,
                _ => true,
            },
        },
        r.result == if verified is Ok && carried is Done && names_feature(
            features@,
            FEATURE_CONTROL_RESULT@,
        ) {
            Some(carried->Done_0)
        } else {
            None::<Json>
        },
{
    let mut ok = true;
    let mut error: Option<String> = None;
    let mut result: Option<Json> = None;
    match verified {
        Err(e) => {
            ok = false;
            error = Some(e.message());
        },
        Ok(()) => match carried {
            Carried::Nobody => {},
            Carried::Done(v) => {
                if has_feature(features, FEATURE_CONTROL_RESULT) {
                    result = Some(v);
                }
            },
            Carried::Failed(e) => {
                ok = false;
                error = Some(rejection_reason(&e));
            },
            Carried::TimedOut => {
                ok = false;
                error = Some("control handler timed out".to_owned());
            },
        },
    }
    ControlAck {
        message_type: "control-ack".to_owned(),
        nonce: nonce.to_owned(),
        ok,
        error,
        result,
    }
}

/// Whether a request to pair may wait for an answer.
pub fn check_pair_request(requester: PeerId, connected: PeerId, waiting: usize) -> (r: Result<
    (),
    Error,
>)
    ensures
        r == if requester != connected {
            Err::<(), Error>(Error::Authentication("pair request differs from transport"))
        } else if waiting >= MAX_PENDING_PAIRS {
            Err(Error::Authorization("too many pending pair requests"))
        } else {
            Ok(())
        },
{
    if !requester.same(&connected) {
        return Err(Error::Authentication("pair request differs from transport"));
    }
    if waiting >= MAX_PENDING_PAIRS {
        return Err(Error::Authorization("too many pending pair requests"));
    }
    Ok(())
}

/// A device as a bound guest is told about it.
pub open spec fn introduces(p: TrustedPeer, m: EnrollMeshPeer) -> bool {
    &&& m.peer_id == p.peer_id
    &&& m.name == p.name
    &&& m.role == p.role
    &&& m.x25519_pk == p.x25519_pk
    &&& m.token_id == p.token_id
    &&& m.expires_at == p.expires_at
    &&& match (m.scopes, p.scopes) {
        (Some(a), Some(b)) => same_scopes(a, b),
        (None, None) => true,
        _ => false,
    }
}

/// The devices that a bound guest is told about: the full ones, and in a fleet all of them.
pub open spec fn told(s: Seq<(PeerId, TrustedPeer)>, profile: MeshProfile) -> Seq<TrustedPeer>
    decreases s.len(),
{
    if s.len() == 0 {
        Seq::empty()
    } else {
        let before = told(s.drop_last(), profile);
        if s.last().1.role is Full || profile is Fleet {
            before.push(s.last().1)
        } else {
            before
        }
    }
}

fn copy_opt(s: &Option<String>) -> (r: Option<String>)
    ensures
        r == *s,
{
    match s {
        Some(t) => Some(t.clone()),
        None => None,
    }
}

/// The answer to a guest that was bound.
pub fn enroll_reply(trust: &TrustStore, certificate: BindCertificate) -> (r: EnrollOk)
    requires
        trust.wf(),
    ensures
        r.message_type@ == "enroll-ok"@,
        r.certificate == certificate,
        r.mesh_profile == trust.disk.mesh_profile,
        ({
            let all = told(trust.disk.peers.entries@, trust.disk.mesh_profile);
            &&& r.mesh@.len() == all.len()
            &&& forall|i: int| 0 <= i < all.len() ==> introduces(all[i], #[trigger] r.mesh@[i])
        }),
{
    let profile = trust.mesh_profile();
    let s = &trust.peers().entries;
    let mut mesh: Vec<EnrollMeshPeer> = Vec::new();
    let mut i: usize = 0;
    assert(s@.take(0) =~= Seq::<(PeerId, TrustedPeer)>::empty());
    while i < s.len()
        invariant
            i <= s@.len(),
            mesh@.len() == told(s@.take(i as int), profile).len(),
            forall|j: int|
                0 <= j < mesh@.len() ==> introduces(
                    told(s@.take(i as int), profile)[j],
                    #[trigger] mesh@[j],
                ),
        decreases s.len() - i,
    {
        proof {
            assert(s@.take(i + 1).drop_last() =~= s@.take(i as int));
            assert(s@.take(i + 1).last() == s@[i as int]);
        }
        let p = &s[i].1;
        if p.role == Role::Full || profile == MeshProfile::Fleet {
            let scopes = match &p.scopes {
                Some(x) => Some(x.clone()),
                None => None,
            };
            mesh.push(
                EnrollMeshPeer {
                    peer_id: p.peer_id,
                    name: p.name.clone(),
                    role: p.role,
                    x25519_pk: p.x25519_pk,
                    token_id: copy_opt(&p.token_id),
                    scopes,
                    expires_at: copy_opt(&p.expires_at),
                },
            );
        }
        i += 1;
    }
    assert(s@.take(i as int) =~= s@);
    EnrollOk { message_type: "enroll-ok".to_owned(), mesh, certificate, mesh_profile: profile }
}

/// In a personal mesh a bound guest is told about no other guest.
pub proof fn guests_are_not_introduced(s: Seq<(PeerId, TrustedPeer)>)
    ensures
        forall|i: int|
            0 <= i < told(s, MeshProfile::Personal).len() ==> (#[trigger] told(
                s,
                MeshProfile::Personal,
            )[i]).role is Full,
    decreases s.len(),
{
    if s.len() > 0 {
        guests_are_not_introduced(s.drop_last());
        let t = told(s.drop_last(), MeshProfile::Personal);
        assert forall|i: int| 0 <= i < told(s, MeshProfile::Personal).len() implies (
        #[trigger] told(s, MeshProfile::Personal)[i]).role is Full by {
            if i < t.len() {
                assert(told(s, MeshProfile::Personal)[i] == t[i]);
            } else {
                assert(told(s, MeshProfile::Personal)[i] == s.last().1);
            }
        }
    }
}

} // verus!
