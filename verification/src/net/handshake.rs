//! How two devices prove to each other who they are over a plain TCP connection: each sends its
//! peer id, a nonce and the address it listens at, and then signs both nonces and its address.
use vstd::prelude::*;

use crate::bytes::{append_bytes, copy_bytes};
use crate::identity::{signature_of, Identity, PeerId, Signature};
use crate::net::auth::{check_signature, from_core};
use crate::net::error::Error;

use vstd::utf8::encode_utf8;

verus! {

/// The longest address that a peer may say it listens at.
pub const MAX_ADVERTISED_ADDRESS: usize = 128;

/// What a side signs: its nonce, the other's, and its address.
pub open spec fn proof_bytes(own_nonce: Seq<u8>, other_nonce: Seq<u8>, address: Seq<char>) -> Seq<u8> {
    own_nonce + other_nonce + encode_utf8(address)
}

fn proof_of(own_nonce: &[u8; 32], other_nonce: &[u8; 32], address: &str) -> (r: Vec<u8>)
    ensures
        r@ == proof_bytes(own_nonce@, other_nonce@, address@),
{
    let mut v = copy_bytes(own_nonce.as_slice());
    append_bytes(&mut v, other_nonce.as_slice());
    append_bytes(&mut v, address.as_bytes());
    v
}

/// Checks the length of the address that a peer is about to send.
pub fn check_advertised(len: usize) -> (r: Result<(), Error>)
    ensures
        r == if len > MAX_ADVERTISED_ADDRESS {
            Err::<(), Error>(Error::Transport("TCP advertised address too long"))
        } else {
            Ok(())
        },
{
    if len > MAX_ADVERTISED_ADDRESS {
        Err(Error::Transport("TCP advertised address too long"))
    } else {
        Ok(())
    }
}

/// Signs this side's proof.
pub fn prove(identity: &Identity, nonce: &[u8; 32], peer_nonce: &[u8; 32], address: &str) -> (r:
    Signature)
    ensures
        signature_of(
            *identity,
            "tcp-transport"@,
            proof_bytes(nonce@, peer_nonce@, address@),
            r,
        ),
{
    let bytes = proof_of(nonce, peer_nonce, address);
    identity.sign("tcp-transport", bytes.as_slice())
}

/// What `check_proof` answers.
pub open spec fn proof_check(
    peer: PeerId,
    nonce: Seq<u8>,
    peer_nonce: Seq<u8>,
    peer_address: Seq<char>,
    sig: Signature,
) -> Result<(), Error> {
    from_core(
        crate::identity::signature_check(
            peer,
            "tcp-transport"@,
            proof_bytes(peer_nonce, nonce, peer_address),
            sig,
        ),
    )
}

/// Checks the other side's proof.
pub fn check_proof(
    peer: PeerId,
    nonce: &[u8; 32],
    peer_nonce: &[u8; 32],
    peer_address: &str,
    sig: &Signature,
) -> (r: Result<(), Error>)
    ensures
        r == proof_check(peer, nonce@, peer_nonce@, peer_address@, *sig),
{
    let bytes = proof_of(peer_nonce, nonce, peer_address);
    check_signature(&peer, "tcp-transport", bytes.as_slice(), sig)
}

/// Checks that the peer that answered is the one that was called.
pub fn check_dialed(wanted: PeerId, connected: PeerId) -> (r: Result<(), Error>)
    ensures
        r == if wanted == connected {
            Ok::<(), Error>(())
        } else {
            Err(Error::Authentication("TCP peer identity differs from ticket"))
        },
{
    if connected.same(&wanted) {
        Ok(())
    } else {
        Err(Error::Authentication("TCP peer identity differs from ticket"))
    }
}

/// What one side signs, the other accepts: both make the same proof out of what they sent each
/// other.
pub proof fn both_sides_agree(
    id: Identity,
    peer: PeerId,
    nonce: Seq<u8>,
    peer_nonce: Seq<u8>,
    address: Seq<char>,
    sig: Signature,
)
    requires
        peer.0@ == id.peer(),
        signature_of(id, "tcp-transport"@, proof_bytes(nonce, peer_nonce, address), sig),
        sig.is_regular(),
    ensures
        proof_check(peer, peer_nonce, nonce, address, sig) is Ok,
{
}

} // verus!
