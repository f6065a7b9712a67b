//! Relays that see neither who talks nor what is said: tags to be found by, and envelopes that
//! only the recipient opens.
use vstd::prelude::*;
use vstd::utf8::encode_utf8;

use crate::bytes::{
    append_bytes, array32_at, be_bytes, copy_bytes, push_be64, same_bytes, starts_with,
};
use crate::crypto::{
    is_sealed, open_message, seal_message, sha256, sha256_of, shared_secret, x25519_shared_of,
    GCM_MAX,
};
use crate::identity::{random_bytes, x25519_public_key, x25519_public_of};
use crate::net::error::Error;

verus! {

/// The length of a day.
pub const DAY_MS: u64 = 86_400_000;

/// A key that fills a block of 64 bytes.
pub open spec fn hmac_block(key: Seq<u8>) -> Seq<u8> {
    let k = if key.len() > 64 {
        sha256_of(key)
    } else {
        key
    };
    Seq::new(
        64,
        |i: int|
            if i < k.len() {
                k[i]
            } else {
                0u8
            },
    )
}

/// A block with each byte flipped by a mask.
pub open spec fn masked(block: Seq<u8>, mask: u8) -> Seq<u8> {
    Seq::new(64, |i: int| block[i] ^ mask)
}

/// HMAC with SHA-256.
pub open spec fn hmac_of(key: Seq<u8>, message: Seq<u8>) -> Seq<u8> {
    let block = hmac_block(key);
    sha256_of(masked(block, 0x5c) + sha256_of(masked(block, 0x36) + message))
}

/// HMAC with SHA-256.
pub fn hmac_sha256(key: &[u8], message: &[u8]) -> (r: [u8; 32])
    ensures
        r@ == hmac_of(key@, message@),
{
    let mut block: [u8; 64] = [0u8; 64];
    let long = key.len() > 64;
    let digest = if long {
        sha256(key)
    } else {
        [0u8; 32]
    };
    let ghost k = if key@.len() > 64 {
        sha256_of(key@)
    } else {
        key@
    };
    let mut i: usize = 0;
    while i < 64
        invariant
            i <= 64,
            long == (key@.len() > 64),
            long ==> digest@ == sha256_of(key@),
            k == if key@.len() > 64 {
                sha256_of(key@)
            } else {
                key@
            },
            forall|j: int|
                0 <= j < i ==> block@[j] == if j < k.len() {
                    k[j]
                } else {
                    0u8
                },
            forall|j: int| i <= j < 64 ==> block@[j] == 0u8,
        decreases 64 - i,
    {
        if long {
            if i < 32 {
                block[i] = digest[i];
            }
        } else if i < key.len() {
            block[i] = key[i];
        }
        i += 1;
    }
    assert(block@ =~= hmac_block(key@));
    let mut inner: Vec<u8> = Vec::new();
    let mut outer: Vec<u8> = Vec::new();
    let mut j: usize = 0;
    while j < 64
        invariant
            j <= 64,
            inner@.len() == j,
            outer@.len() == j,
            forall|q: int| 0 <= q < j ==> inner@[q] == block@[q] ^ 0x36u8,
            forall|q: int| 0 <= q < j ==> outer@[q] == block@[q] ^ 0x5cu8,
        decreases 64 - j,
    {
        inner.push(block[j] ^ 0x36u8);
        outer.push(block[j] ^ 0x5cu8);
        j += 1;
    }
    assert(inner@ =~= masked(block@, 0x36));
    assert(outer@ =~= masked(block@, 0x5c));
    append_bytes(&mut inner, message);
    let inner_hash = sha256(inner.as_slice());
    append_bytes(&mut outer, inner_hash.as_slice());
    sha256(outer.as_slice())
}

/// A signed 64-bit number as one without a sign.
pub open spec fn unsigned_of(n: int) -> nat {
    if n < 0 {
        (n + 0x1_0000_0000_0000_0000) as nat
    } else {
        n as nat
    }
}

/// The tag of a day.
pub open spec fn tag_of(discovery_key: Seq<u8>, epoch_day: int) -> Seq<u8> {
    hmac_of(
        discovery_key,
        encode_utf8("abra-relay-tag-v1"@) + seq![0u8] + be_bytes(unsigned_of(epoch_day), 8),
    )
}

/// The tag under which a device is looked for on one day.
pub fn day_tag(discovery_key: &[u8; 32], epoch_day: i64) -> (r: [u8; 32])
    ensures
        r@ == tag_of(discovery_key@, epoch_day as int),
{
    let mut message = copy_bytes("abra-relay-tag-v1".as_bytes());
    message.push(0);
    let n: u64 = if epoch_day >= 0 {
        epoch_day as u64
    } else {
        u64::MAX - ((-(epoch_day + 1)) as u64)
    };
    push_be64(&mut message, n);
    assert(message@ =~= encode_utf8("abra-relay-tag-v1"@) + seq![0u8] + be_bytes(
        unsigned_of(epoch_day as int),
        8,
    ));
    hmac_sha256(discovery_key.as_slice(), message.as_slice())
}

/// The day of a time, which is taken as a signed number.
pub open spec fn day_of(now_ms: u64) -> int {
    if now_ms < 0x8000_0000_0000_0000 {
        now_ms as int / 86_400_000
    } else {
        -((0x1_0000_0000_0000_0000 - now_ms) / 86_400_000)
    }
}

/// The tags of yesterday, today and tomorrow.
pub fn polling_tags(discovery_key: &[u8; 32], now_ms: u64) -> (r: [[u8; 32]; 3])
    ensures
        r@[0]@ == tag_of(discovery_key@, day_of(now_ms) - 1),
        r@[1]@ == tag_of(discovery_key@, day_of(now_ms)),
        r@[2]@ == tag_of(discovery_key@, day_of(now_ms) + 1),
{
    let day: i64 = if now_ms < 0x8000_0000_0000_0000u64 {
        (now_ms / DAY_MS) as i64
    } else {
        let back: u128 = 0x1_0000_0000_0000_0000u128 - now_ms as u128;
        -((back / 86_400_000u128) as i64)
    };
    [
        day_tag(discovery_key, day - 1),
        day_tag(discovery_key, day),
        day_tag(discovery_key, day + 1),
    ]
}

/// The bytes that an envelope begins with: what it is, the key that it was sealed with, and the
/// key of its recipient.
pub open spec fn envelope_head(ephemeral: Seq<u8>, recipient: Seq<u8>) -> Seq<u8> {
    encode_utf8("ABRAREL1"@) + ephemeral + recipient
}

/// The key of an envelope.
pub open spec fn envelope_key(shared: Seq<u8>, ephemeral: Seq<u8>, recipient: Seq<u8>) -> Seq<u8> {
    sha256_of(encode_utf8("abra-relay-seal-v1"@) + seq![0u8] + shared + ephemeral + recipient)
}

/// An envelope for a recipient that holds a message.
pub open spec fn envelope_holds(
    envelope: Seq<u8>,
    ephemeral: Seq<u8>,
    recipient: Seq<u8>,
    shared: Seq<u8>,
    nonce: Seq<u8>,
    message: Seq<u8>,
) -> bool {
    let head = envelope_head(ephemeral, recipient);
    &&& envelope.len() >= 100
    &&& envelope.take(84) == head + nonce
    &&& is_sealed(
        envelope_key(shared, ephemeral, recipient),
        nonce,
        head,
        envelope.skip(84),
        message,
    )
}

proof fn magic_length()
    ensures
        encode_utf8("ABRAREL1"@).len() == 8,
{
    reveal_strlit("ABRAREL1");
    assert(vstd::utf8::is_ascii_chars("ABRAREL1"@));
    vstd::utf8::is_ascii_chars_encode_utf8("ABRAREL1"@);
}

fn key_of_envelope(shared: &[u8; 32], ephemeral: &[u8; 32], recipient: &[u8; 32]) -> (r: [u8; 32])
    ensures
        r@ == envelope_key(shared@, ephemeral@, recipient@),
{
    let mut m = copy_bytes("abra-relay-seal-v1".as_bytes());
    m.push(0);
    append_bytes(&mut m, shared.as_slice());
    append_bytes(&mut m, ephemeral.as_slice());
    append_bytes(&mut m, recipient.as_slice());
    assert(m@ =~= encode_utf8("abra-relay-seal-v1"@) + seq![0u8] + shared@ + ephemeral@
        + recipient@);
    sha256(m.as_slice())
}

/// Seals a message with a given key and nonce.
pub fn seal_with(
    ephemeral_secret: &[u8; 32],
    nonce: &[u8; 12],
    recipient_public: &[u8; 32],
    plaintext: &[u8],
) -> (r: Result<Vec<u8>, Error>)
    ensures
        r is Ok <==> plaintext@.len() <= GCM_MAX,
        r matches Err(e) ==> e == Error::Protocol("relay sealing failed"),
        r matches Ok(b) ==> envelope_holds(
            b@,
            x25519_public_of(ephemeral_secret@),
            recipient_public@,
            x25519_shared_of(ephemeral_secret@, recipient_public@),
            nonce@,
            plaintext@,
        ) && b@.len() == plaintext@.len() + 100,
{
    let epk = x25519_public_key(ephemeral_secret);
    let shared = shared_secret(ephemeral_secret, recipient_public);
    let key = key_of_envelope(&shared, &epk, recipient_public);
    let mut out = copy_bytes("ABRAREL1".as_bytes());
    append_bytes(&mut out, epk.as_slice());
    append_bytes(&mut out, recipient_public.as_slice());
    proof {
        magic_length();
    }
    let ghost head = out@;
    assert(head.len() == 72);
    let sealed = match seal_message(&key, nonce, out.as_slice(), plaintext) {
        Some(c) => c,
        None => {
            return Err(Error::Protocol("relay sealing failed"));
        },
    };
    append_bytes(&mut out, nonce.as_slice());
    append_bytes(&mut out, sealed.as_slice());
    proof {
        assert(out@.take(84) =~= head + nonce@);
        assert(out@.skip(84) =~= sealed@);
    }
    Ok(out)
}

/// Seals a message so that only the recipient opens it.
pub fn seal(recipient_public: [u8; 32], plaintext: &[u8]) -> (r: Result<Vec<u8>, Error>)
    ensures
        r is Ok <==> plaintext@.len() <= GCM_MAX,
        r matches Err(e) ==> e == Error::Protocol("relay sealing failed"),
        r matches Ok(b) ==> exists|secret: [u8; 32], nonce: [u8; 12]| #[trigger]
            envelope_holds(
                b@,
                x25519_public_of(secret@),
                recipient_public@,
                x25519_shared_of(secret@, recipient_public@),
                nonce@,
                plaintext@,
            ),
{
    let secret = random_bytes::<32>();
    let nonce = random_bytes::<12>();
    let r = seal_with(&secret, &nonce, &recipient_public, plaintext);
    r
}

/// What is wrong with an envelope before it is decrypted.
pub open spec fn envelope_fault(recipient_secret: Seq<u8>, envelope: Seq<u8>) -> Option<Error> {
    if envelope.len() < 100 || envelope.take(8) != encode_utf8("ABRAREL1"@) {
        Some(Error::Protocol("invalid relay sealed envelope"))
    } else if envelope.subrange(40, 72) != x25519_public_of(recipient_secret) {
        Some(Error::Authentication("relay envelope recipient mismatch"))
    } else {
        None
    }
}

/// Opens an envelope.
pub fn open(recipient_secret: [u8; 32], envelope: &[u8]) -> (r: Result<Vec<u8>, Error>)
    ensures
        ({
            let fault = envelope_fault(recipient_secret@, envelope@);
            let ephemeral = envelope@.subrange(8, 40);
            let recipient = x25519_public_of(recipient_secret@);
            let shared = x25519_shared_of(recipient_secret@, ephemeral);
            let nonce = envelope@.subrange(72, 84);
            match r {
                Err(e) => if fault is Some {
                    fault == Some(e)
                } else {
                    e == Error::Authentication("relay envelope authentication failed")
                },
                Ok(m) => fault is None && (m@.len() > GCM_MAX || envelope_holds(
                    envelope@,
                    ephemeral,
                    recipient,
                    shared,
                    nonce,
                    m@,
                )),
            }
        }),
        forall|secret: [u8; 32], nonce: [u8; 12], m: Seq<u8>| #[trigger]
            envelope_holds(
                envelope@,
                x25519_public_of(secret@),
                x25519_public_of(recipient_secret@),
                x25519_shared_of(secret@, x25519_public_of(recipient_secret@)),
                nonce@,
                m,
            ) ==> r is Ok && r->Ok_0@ == m,
{
    let recipient = x25519_public_key(&recipient_secret);
    let ghost pk = x25519_public_of(recipient_secret@);
    proof {
        magic_length();
        assert forall|secret: [u8; 32], nonce: [u8; 12], m: Seq<u8>| #[trigger]
            envelope_holds(
                envelope@,
                x25519_public_of(secret@),
                pk,
                x25519_shared_of(secret@, pk),
                nonce@,
                m,
            ) implies envelope_fault(recipient_secret@, envelope@) is None by {
            head_parts(envelope@, x25519_public_of(secret@), pk, nonce@);
        }
    }
    let magic = "ABRAREL1".as_bytes();
    if envelope.len() < 100 || !starts_with(envelope, magic) {
        assert(magic@.len() == 8);
        return Err(Error::Protocol("invalid relay sealed envelope"));
    }
    let named = array32_at(envelope, 40);
    if !same_bytes(named.as_slice(), recipient.as_slice()) {
        return Err(Error::Authentication("relay envelope recipient mismatch"));
    }
    let epk = array32_at(envelope, 8);
    let shared = shared_secret(&recipient_secret, &epk);
    let key = key_of_envelope(&shared, &epk, &recipient);
    let nonce = array12_at(envelope, 72);
    let head = vstd::slice::slice_subrange(envelope, 0, 72);
    let body = vstd::slice::slice_subrange(envelope, 84, envelope.len());
    proof {
        assert(head@ =~= envelope_head(epk@, recipient@));
        assert(body@ =~= envelope@.skip(84));
        assert(envelope@.take(84) =~= head@ + nonce@);
        assert forall|secret: [u8; 32], n: [u8; 12], m: Seq<u8>| #[trigger]
            envelope_holds(
                envelope@,
                x25519_public_of(secret@),
                pk,
                x25519_shared_of(secret@, pk),
                n@,
                m,
            ) implies is_sealed(key@, nonce@, head@, body@, m) by {
            head_parts(envelope@, x25519_public_of(secret@), pk, n@);
        }
    }
    match open_message(&key, &nonce, head, body) {
        Some(m) => Ok(m),
        None => Err(Error::Authentication("relay envelope authentication failed")),
    }
}

/// The parts of an envelope stand where they are looked for.
proof fn head_parts(envelope: Seq<u8>, ephemeral: Seq<u8>, recipient: Seq<u8>, nonce: Seq<u8>)
    requires
        envelope.len() >= 100,
        envelope.take(84) == envelope_head(ephemeral, recipient) + nonce,
        nonce.len() == 12,
        recipient.len() == 32,
    ensures
        ephemeral.len() == 32,
        envelope.take(8) == encode_utf8("ABRAREL1"@),
        envelope.subrange(8, 40) == ephemeral,
        envelope.subrange(40, 72) == recipient,
        envelope.subrange(72, 84) == nonce,
{
    magic_length();
    let t = envelope.take(84);
    assert(t.len() == 84);
    assert(ephemeral.len() == 32);
    assert(envelope.take(8) =~= t.take(8));
    assert(t.take(8) =~= encode_utf8("ABRAREL1"@));
    assert(envelope.subrange(8, 40) =~= t.subrange(8, 40));
    assert(t.subrange(8, 40) =~= ephemeral);
    assert(envelope.subrange(40, 72) =~= t.subrange(40, 72));
    assert(t.subrange(40, 72) =~= recipient);
    assert(envelope.subrange(72, 84) =~= t.subrange(72, 84));
    assert(t.subrange(72, 84) =~= nonce);
}

/// The 12 bytes of `s` from `from` on.
pub fn array12_at(s: &[u8], from: usize) -> (r: [u8; 12])
    requires
        from + 12 <= s.len(),
    ensures
        r@ == s@.subrange(from as int, from + 12),
{
    let mut out: [u8; 12] = [0u8; 12];
    let mut i: usize = 0;
    while i < 12
        invariant
            i <= 12,
            from + 12 <= s.len(),
            forall|j: int| 0 <= j < i ==> out@[j] == s@[from + j],
        decreases 12 - i,
    {
        out[i] = s[from + i];
        i += 1;
    }
    assert(out@ =~= s@.subrange(from as int, from + 12));
    out
}

} // verus!
