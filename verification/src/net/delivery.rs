//! Sending a delivery: who it may go to, and how far it has got.
use vstd::prelude::*;

use crate::identity::PeerId;
use crate::manifest::NativeBlobRef;
use crate::net::ack::Ack;
use crate::net::clock::{parse_time, time_of};
use crate::net::error::Error;
use crate::net::hello::{Ping, Pong};
use crate::net::outbox::{ack_taken, offer_at, stepped, Outbox, OutboxState};
use crate::net::plan::{check_skip, Have, Plan, PlanObject};
use crate::net::trust::{revoked_guest, TrustDisk, TrustStore};
use crate::order::Key;
use crate::text::same_text;

verus! {

/// Checks that an entry does not wait for its next attempt. An entry whose time cannot be read, or
/// that is not there, does not.
pub fn check_due(outbox: &Outbox, id: &str, now: u64) -> (r: Result<(), Error>)
    requires
        outbox.wf(),
    ensures
        r == if outbox.has(id@) && (time_of(outbox.at(id@).next_attempt_at@) matches Ok(t) && t
            > now) {
            Err::<(), Error>(Error::Protocol("outbox backoff active"))
        } else {
            Ok(())
        },
{
    match outbox.get(id) {
        Some(e) => match parse_time(e.next_attempt_at.as_str()) {
            Ok(t) => if t > now {
                Err(Error::Protocol("outbox backoff active"))
            } else {
                Ok(())
            },
            Err(_) => Ok(()),
        },
        None => Ok(()),
    }
}

/// What keeps a delivery from the peer that it is for, once the session stands.
pub open spec fn recipient_fault(
    d: TrustDisk,
    session: Seq<char>,
    recipient: PeerId,
    now: u64,
) -> Option<Error> {
    if session != "trusted"@ {
        Some(Error::Authorization("delivery requires trusted session"))
    } else if !d.peers@.dom().contains(recipient.rank()) || revoked_guest(d, recipient, now) {
        Some(Error::Authorization("recipient trust was revoked"))
    } else {
        None
    }
}

/// Checks that the session is one of trust, and that the recipient is still trusted.
pub fn check_recipient(trust: &TrustStore, session: &str, recipient: PeerId, now: u64) -> (r: Result<
    (),
    Error,
>)
    requires
        trust.wf(),
    ensures
        r == match recipient_fault(trust.disk, session@, recipient, now) {
            Some(e) => Err::<(), Error>(e),
            None => Ok(()),
        },
{
    if !same_text(session, "trusted") {
        return Err(Error::Authorization("delivery requires trusted session"));
    }
    if trust.get(&recipient).is_none() || trust.is_revoked_guest(&recipient, now) {
        return Err(Error::Authorization("recipient trust was revoked"));
    }
    Ok(())
}

/// The outbox after a receipt came in that may be for any entry, and what was answered.
pub open spec fn receipt_taken(
    before: Outbox,
    after: Outbox,
    ack: Ack,
    me: PeerId,
    now: u64,
    r: Result<(), Error>,
) -> bool {
    let s = before.entries.entries@;
    let at = offer_at(s, ack.offer_id@, 0);
    if at < s.len() {
        exists|b: Result<bool, Error>|
            {
                &&& #[trigger] ack_taken(before, after, s[at].1.id@, ack, me, now, b)
                &&& r == match b {
                    Ok(_) => Ok::<(), Error>(()),
                    Err(e) => Err(e),
                }
            }
    } else {
        r == Ok::<(), Error>(()) && after == before
    }
}

/// Takes in a receipt, where some entry is for its offer.
pub fn take_receipt(outbox: &mut Outbox, ack: &Ack, me: PeerId, now: u64) -> (r: Result<(), Error>)
    requires
        old(outbox).wf(),
    ensures
        final(outbox).wf(),
        old(outbox).own_ids() ==> final(outbox).own_ids(),
        receipt_taken(*old(outbox), *final(outbox), *ack, me, now, r),
{
    match outbox.id_of_offer(ack.offer_id.as_str()) {
        None => Ok(()),
        Some(id) => {
            let b = outbox.apply_ack(id.as_str(), ack, me, now);
            let ghost answer = b;
            assert(ack_taken(*old(outbox), *outbox, id@, *ack, me, now, answer));
            match b {
                Ok(_) => Ok(()),
                Err(e) => Err(e),
            }
        },
    }
}

/// What comes while a ping is out.
pub enum HealthFrame {
    Pong(Pong),
    Ack(Ack),
    Other,
}

/// Takes one frame while a ping is out; tells whether the answer has come. Receipts that the peer
/// sends again count.
pub fn health_step(outbox: &mut Outbox, ping: &Ping, frame: HealthFrame, me: PeerId, now: u64) -> (r:
    Result<bool, Error>)
    requires
        old(outbox).wf(),
    ensures
        final(outbox).wf(),
        old(outbox).own_ids() ==> final(outbox).own_ids(),
        match frame {
            HealthFrame::Pong(p) => *final(outbox) == *old(outbox) && r == if p.nonce@ == ping.nonce@ {
                Ok::<bool, Error>(true)
            } else {
                Err(Error::Protocol("invalid pong"))
            },
            HealthFrame::Ack(ack) => exists|taken: Result<(), Error>|
                {
                    &&& #[trigger] receipt_taken(*old(outbox), *final(outbox), ack, me, now, taken)
                    &&& r == match taken {
                        Ok(()) => Ok::<bool, Error>(false),
                        Err(e) => Err(e),
                    }
                },
            HealthFrame::Other => *final(outbox) == *old(outbox) && r == Err::<bool, Error>(
                Error::Protocol("unexpected health-check frame"),
            ),
        },
{
    match frame {
        HealthFrame::Pong(p) => if same_text(p.nonce.as_str(), ping.nonce.as_str()) {
            Ok(true)
        } else {
            Err(Error::Protocol("invalid pong"))
        },
        HealthFrame::Ack(ack) => {
            let taken = take_receipt(outbox, &ack, me, now);
            let ghost answer = taken;
            assert(receipt_taken(*old(outbox), *outbox, ack, me, now, answer));
            match taken {
                Ok(()) => Ok(false),
                Err(e) => Err(e),
            }
        },
        HealthFrame::Other => Err(Error::Protocol("unexpected health-check frame")),
    }
}

/// The plan of an offer.
pub fn plan_of(offer_id: &str, objects: Vec<PlanObject>) -> (r: Plan)
    ensures
        r.message_type@ == "plan"@,
        r.offer_id@ == offer_id@,
        r.seq == 0,
        r.eof,
        r.objects == objects,
{
    Plan {
        message_type: "plan".to_owned(),
        offer_id: offer_id.to_owned(),
        seq: 0,
        eof: true,
        objects,
    }
}

/// The receiver declines native objects, but does not name them all.
pub open spec fn skips_badly(have: Have, native: Seq<NativeBlobRef>) -> bool {
    have.skip_native && exists|i: int|
        0 <= i < native.len() && !have.have@.contains((#[trigger] native[i]).hash)
}

/// Takes the receiver's answer to the plan; the transfer begins.
pub fn take_have(outbox: &mut Outbox, id: &str, have: &Have, native: &Vec<NativeBlobRef>, now: u64) -> (r:
    Result<(), Error>)
    requires
        old(outbox).wf(),
    ensures
        final(outbox).wf(),
        old(outbox).own_ids() ==> final(outbox).own_ids(),
        if skips_badly(*have, native@) {
            *final(outbox) == *old(outbox) && r == Err::<(), Error>(
                Error::Protocol("skip_native did not cover native objects"),
            )
        } else {
            stepped(*old(outbox), *final(outbox), id@, OutboxState::Transferring, now, r)
        },
{
    match check_skip(have, native) {
        Err(e) => Err(e),
        Ok(()) => outbox.transition(id, OutboxState::Transferring, now),
    }
}

/// Takes the receipt that ends a delivery.
pub fn conclude(outbox: &mut Outbox, id: &str, ack: &Ack, me: PeerId, now: u64) -> (r: Result<
    (),
    Error,
>)
    requires
        old(outbox).wf(),
    ensures
        final(outbox).wf(),
        old(outbox).own_ids() ==> final(outbox).own_ids(),
        exists|b: Result<bool, Error>|
            {
                &&& #[trigger] ack_taken(*old(outbox), *final(outbox), id@, *ack, me, now, b)
                &&& r == match b {
                    Ok(true) => Ok::<(), Error>(()),
                    Ok(false) => Err(Error::Authentication("ack mismatch")),
                    Err(e) => Err(e),
                }
            },
{
    let b = outbox.apply_ack(id, ack, me, now);
    let ghost answer = b;
    assert(ack_taken(*old(outbox), *outbox, id@, *ack, me, now, answer));
    match b {
        Ok(true) => Ok(()),
        Ok(false) => Err(Error::Authentication("ack mismatch")),
        Err(e) => Err(e),
    }
}

} // verus!
