//! Receipts: a receiver's signed word that a snapshot has arrived.
use vstd::prelude::*;
use vstd::utf8::{encode_utf8, encode_utf8_decode_utf8};

use crate::bytes::{append_bytes, array_extensional};
use crate::identity::{signature_check, signature_of, signed_by, Identity, PeerId, Signature};
use crate::net::auth::{check_signature, from_core, shows_time};
use crate::net::clock::format_time;
use crate::net::error::Error;
use crate::util::{hex_bytes, hex_bytes_of, is_hex_text};

verus! {

/// A receiver's receipt for a snapshot.
#[derive(Clone, Debug, PartialEq, Eq)]
pub struct Ack {
    pub message_type: String,
    pub offer_id: String,
    pub snapshot_id: crate::cas::Hash,
    pub received_at: String,
    pub shelf: String,
    pub sig: Signature,
}

/// An offer id is sixteen bytes in hex.
pub open spec fn offer_id_valid(id: Seq<char>) -> bool {
    is_hex_text(id) && id.len() == 32
}

/// What a receipt is signed over: the offer, the snapshot, both peers and the shelf.
pub open spec fn ack_bytes(
    offer_id: Seq<char>,
    snapshot: crate::cas::Hash,
    sender: Seq<u8>,
    receiver: Seq<u8>,
    shelf: Seq<char>,
) -> Seq<u8> {
    hex_bytes(offer_id) + snapshot.0@ + sender + receiver + encode_utf8(shelf)
}

fn ack_payload(
    offer_id: &str,
    snapshot_id: crate::cas::Hash,
    sender: PeerId,
    receiver: PeerId,
    shelf: &str,
) -> (r: Result<Vec<u8>, Error>)
    ensures
        r is Ok <==> offer_id_valid(offer_id@),
        r matches Ok(p) ==> p@ == ack_bytes(
            offer_id@,
            snapshot_id,
            sender.0@,
            receiver.0@,
            shelf@,
        ),
        r matches Err(e) ==> e == Error::Protocol("bad offer id"),
{
    let mut p = match hex_bytes_of(offer_id) {
        Some(b) => b,
        None => {
            return Err(Error::Protocol("bad offer id"));
        },
    };
    if p.len() != 16 {
        return Err(Error::Protocol("bad offer id"));
    }
    append_bytes(&mut p, snapshot_id.0.as_slice());
    append_bytes(&mut p, sender.0.as_slice());
    append_bytes(&mut p, receiver.0.as_slice());
    append_bytes(&mut p, shelf.as_bytes());
    Ok(p)
}

/// What `Ack::verify` answers.
pub open spec fn ack_check(a: Ack, sender: PeerId, receiver: PeerId) -> Result<(), Error> {
    if !offer_id_valid(a.offer_id@) {
        Err(Error::Protocol("bad offer id"))
    } else {
        from_core(
            signature_check(
                receiver,
                "ack"@,
                ack_bytes(a.offer_id@, a.snapshot_id, sender.0@, receiver.0@, a.shelf@),
                a.sig,
            ),
        )
    }
}

impl Ack {
    /// Signs a receipt.
    pub fn sign(
        offer_id: String,
        snapshot_id: crate::cas::Hash,
        shelf: String,
        now: u64,
        sender: PeerId,
        receiver: &Identity,
    ) -> (r: Result<Self, Error>)
        ensures
            r is Ok <==> offer_id_valid(offer_id@),
            r matches Err(e) ==> e == Error::Protocol("bad offer id"),
            r matches Ok(a) ==> {
                &&& a.message_type@ == "ack"@
                &&& a.offer_id == offer_id
                &&& a.snapshot_id == snapshot_id
                &&& shows_time(now as int, a.received_at@)
                &&& a.shelf == shelf
                &&& signature_of(
                    *receiver,
                    "ack"@,
                    ack_bytes(offer_id@, snapshot_id, sender.0@, receiver.peer(), shelf@),
                    a.sig,
                )
            },
    {
        let payload = match ack_payload(
            offer_id.as_str(),
            snapshot_id,
            sender,
            receiver.peer_id(),
            shelf.as_str(),
        ) {
            Ok(p) => p,
            Err(e) => {
                return Err(e);
            },
        };
        let sig = receiver.sign("ack", payload.as_slice());
        Ok(
            Ack {
                message_type: "ack".to_owned(),
                offer_id,
                snapshot_id,
                received_at: format_time(now),
                shelf,
                sig,
            },
        )
    }

    /// Checks that the intended receiver signed for this sender.
    pub fn verify(&self, sender: PeerId, intended_receiver: PeerId) -> (r: Result<(), Error>)
        ensures
            r == ack_check(*self, sender, intended_receiver),
    {
        let payload = match ack_payload(
            self.offer_id.as_str(),
            self.snapshot_id,
            sender,
            intended_receiver,
            self.shelf.as_str(),
        ) {
            Ok(p) => p,
            Err(e) => {
                return Err(e);
            },
        };
        check_signature(&intended_receiver, "ack", payload.as_slice(), &self.sig)
    }
}

/// A receipt, as it is signed, convinces the sender that it was made for.
pub proof fn signed_receipt_verifies(a: Ack, sender: PeerId, receiver: PeerId, id: Identity)
    requires
        offer_id_valid(a.offer_id@),
        receiver.0@ == id.peer(),
        signature_of(
            id,
            "ack"@,
            ack_bytes(a.offer_id@, a.snapshot_id, sender.0@, id.peer(), a.shelf@),
            a.sig,
        ),
        a.sig.is_regular(),
    ensures
        ack_check(a, sender, receiver) is Ok,
{
}

/// Two receipts, each with the sender and the receiver it is held against, say the same: they spell
/// the same offer and name the same snapshot, peers and shelf. When a receipt was written plays no
/// part.
pub open spec fn same_receipt(
    a: Ack,
    sender: PeerId,
    receiver: PeerId,
    b: Ack,
    other_sender: PeerId,
    other_receiver: PeerId,
) -> bool {
    &&& hex_bytes(b.offer_id@) == hex_bytes(a.offer_id@)
    &&& b.snapshot_id == a.snapshot_id
    &&& other_sender == sender
    &&& other_receiver == receiver
    &&& b.shelf@ == a.shelf@
}

/// What two receipts are signed over is the same only where they say the same.
pub proof fn receipt_bytes_tell_apart(
    a: Ack,
    sender: PeerId,
    receiver: PeerId,
    b: Ack,
    other_sender: PeerId,
    other_receiver: PeerId,
)
    requires
        offer_id_valid(a.offer_id@),
        offer_id_valid(b.offer_id@),
    ensures
        ack_bytes(a.offer_id@, a.snapshot_id, sender.0@, receiver.0@, a.shelf@) == ack_bytes(
            b.offer_id@,
            b.snapshot_id,
            other_sender.0@,
            other_receiver.0@,
            b.shelf@,
        ) <==> same_receipt(a, sender, receiver, b, other_sender, other_receiver),
{
    let x = ack_bytes(a.offer_id@, a.snapshot_id, sender.0@, receiver.0@, a.shelf@);
    let y = ack_bytes(
        b.offer_id@,
        b.snapshot_id,
        other_sender.0@,
        other_receiver.0@,
        b.shelf@,
    );
    if x == y {
        assert(hex_bytes(a.offer_id@) =~= x.subrange(0, 16));
        assert(hex_bytes(b.offer_id@) =~= y.subrange(0, 16));
        assert(a.snapshot_id.0@ =~= x.subrange(16, 48));
        assert(b.snapshot_id.0@ =~= y.subrange(16, 48));
        assert(sender.0@ =~= x.subrange(48, 80));
        assert(other_sender.0@ =~= y.subrange(48, 80));
        assert(receiver.0@ =~= x.subrange(80, 112));
        assert(other_receiver.0@ =~= y.subrange(80, 112));
        assert(encode_utf8(a.shelf@) =~= x.skip(112));
        assert(encode_utf8(b.shelf@) =~= y.skip(112));
        encode_utf8_decode_utf8(a.shelf@);
        encode_utf8_decode_utf8(b.shelf@);
        array_extensional(a.snapshot_id.0, b.snapshot_id.0);
        array_extensional(sender.0, other_sender.0);
        array_extensional(receiver.0, other_receiver.0);
    }
}

/// A receipt, as it is signed, convinces the sender that it was made for, of the receiver that signed
/// it, and vouches for nothing else: where nobody has signed another, it is refused with another
/// sender, receiver, snapshot, shelf, offer or signature. Another time of arrival changes nothing.
pub proof fn changed_receipt_is_refused(
    a: Ack,
    sender: PeerId,
    receiver: PeerId,
    id: Identity,
    other: Ack,
    other_sender: PeerId,
    other_receiver: PeerId,
)
    requires
        offer_id_valid(a.offer_id@),
        receiver.0@ == id.peer(),
        signature_of(
            id,
            "ack"@,
            ack_bytes(a.offer_id@, a.snapshot_id, sender.0@, id.peer(), a.shelf@),
            a.sig,
        ),
        a.sig.is_regular(),
        ({
            let payload = ack_bytes(
                other.offer_id@,
                other.snapshot_id,
                other_sender.0@,
                other_receiver.0@,
                other.shelf@,
            );
            signed_by(other_receiver, "ack"@, payload, other.sig) ==> other.sig == a.sig && payload
                == ack_bytes(a.offer_id@, a.snapshot_id, sender.0@, receiver.0@, a.shelf@)
        }),
    ensures
        ack_check(a, sender, receiver) is Ok,
        ack_check(other, other_sender, other_receiver) is Ok <==> offer_id_valid(other.offer_id@)
            && same_receipt(a, sender, receiver, other, other_sender, other_receiver) && other.sig
            == a.sig,
{
    signed_receipt_verifies(a, sender, receiver, id);
    if offer_id_valid(other.offer_id@) {
        receipt_bytes_tell_apart(a, sender, receiver, other, other_sender, other_receiver);
    }
}

} // verus!
