//! Device identity: keys, signatures, and the secrets a device keeps.
use vstd::prelude::*;
use vstd::utf8::encode_utf8;

use crate::bytes::{append_bytes, array_extensional, copy_bytes, same_bytes};
use crate::canonical::json_bytes;
use crate::capsule::SPEC;
use crate::cas::blake3_of;
use crate::error::Error;
use crate::json::JsonV;
use crate::order::{byte_rank, byte_rank_injective, compare_bytes, Key, Side};
use crate::record::{plain, plain_bytes, Fields, Members};
use crate::text::same_text;
use crate::util::{fixed_hex, hex_bytes, hex_decode_fixed, hex_encode, hex_round_trip, hex_text};

verus! {

/// The public signing key of a device, which names it.
#[derive(Clone, Copy, Debug, PartialEq, Eq, PartialOrd, Ord, Hash)]
pub struct PeerId(pub [u8; 32]);

impl PeerId {
    /// The raw bytes.
    pub fn as_bytes(&self) -> (r: &[u8; 32])
        ensures
            *r == self.0,
    {
        &self.0
    }

    /// The raw bytes.
    pub fn to_bytes(self) -> (r: [u8; 32])
        ensures
            r == self.0,
    {
        self.0
    }

    /// The value with these raw bytes.
    pub fn from_bytes(bytes: [u8; 32]) -> (r: Self)
        ensures
            r.0 == bytes,
    {
        PeerId(bytes)
    }

    /// Lowercase hex.
    pub fn to_hex(&self) -> (r: String)
        ensures
            r@ == hex_text(self.0@),
    {
        hex_encode(self.0.as_slice())
    }

    /// Reads 64 lowercase hex digits.
    pub fn from_hex(s: &str) -> (r: Result<Self, Error>)
        ensures
            r matches Ok(v) ==> fixed_hex(s@, 32, "peer id") == Ok::<Seq<u8>, Error>(v.0@),
            r matches Err(e) ==> fixed_hex(s@, 32, "peer id") == Err::<Seq<u8>, Error>(e),
    {
        match hex_decode_fixed::<32>(s, "peer id") {
            Ok(raw) => Ok(PeerId(raw)),
            Err(e) => Err(e),
        }
    }

    /// Whether two values are the same.
    pub fn same(&self, other: &PeerId) -> (r: bool)
        ensures
            r == (*self == *other),
    {
        proof {
            array_extensional(self.0, other.0);
        }
        same_bytes(self.0.as_slice(), other.0.as_slice())
    }
}

impl std::str::FromStr for PeerId {
    type Err = Error;

    fn from_str(s: &str) -> Result<Self, Error> {
        PeerId::from_hex(s)
    }
}

/// The first bytes of the hash of a peer id, for people to compare.
#[derive(Clone, Copy, Debug, PartialEq, Eq, PartialOrd, Ord, Hash)]
pub struct ShortId(pub [u8; 4]);

impl ShortId {
    /// The raw bytes.
    pub fn as_bytes(&self) -> (r: &[u8; 4])
        ensures
            *r == self.0,
    {
        &self.0
    }

    /// The raw bytes.
    pub fn to_bytes(self) -> (r: [u8; 4])
        ensures
            r == self.0,
    {
        self.0
    }

    /// The value with these raw bytes.
    pub fn from_bytes(bytes: [u8; 4]) -> (r: Self)
        ensures
            r.0 == bytes,
    {
        ShortId(bytes)
    }

    /// Lowercase hex.
    pub fn to_hex(&self) -> (r: String)
        ensures
            r@ == hex_text(self.0@),
    {
        hex_encode(self.0.as_slice())
    }

    /// Reads 8 lowercase hex digits.
    pub fn from_hex(s: &str) -> (r: Result<Self, Error>)
        ensures
            r matches Ok(v) ==> fixed_hex(s@, 4, "short id") == Ok::<Seq<u8>, Error>(v.0@),
            r matches Err(e) ==> fixed_hex(s@, 4, "short id") == Err::<Seq<u8>, Error>(e),
    {
        match hex_decode_fixed::<4>(s, "short id") {
            Ok(raw) => Ok(ShortId(raw)),
            Err(e) => Err(e),
        }
    }

    /// Whether two values are the same.
    pub fn same(&self, other: &ShortId) -> (r: bool)
        ensures
            r == (*self == *other),
    {
        proof {
            array_extensional(self.0, other.0);
        }
        same_bytes(self.0.as_slice(), other.0.as_slice())
    }
}

impl std::str::FromStr for ShortId {
    type Err = Error;

    fn from_str(s: &str) -> Result<Self, Error> {
        ShortId::from_hex(s)
    }
}

/// An Ed25519 signature.
#[derive(Clone, Copy, Debug, PartialEq, Eq)]
pub struct Signature(pub [u8; 64]);

impl Signature {
    /// The first half is not the neutral point, which strict verification refuses.
    pub open spec fn is_regular(&self) -> bool {
        self.0@.take(32) != neutral_point()
    }

    /// The raw bytes.
    pub fn as_bytes(&self) -> (r: &[u8; 64])
        ensures
            *r == self.0,
    {
        &self.0
    }

    /// The raw bytes.
    pub fn to_bytes(self) -> (r: [u8; 64])
        ensures
            r == self.0,
    {
        self.0
    }

    /// The value with these raw bytes.
    pub fn from_bytes(bytes: [u8; 64]) -> (r: Self)
        ensures
            r.0 == bytes,
    {
        Signature(bytes)
    }

    /// Lowercase hex.
    pub fn to_hex(&self) -> (r: String)
        ensures
            r@ == hex_text(self.0@),
    {
        hex_encode(self.0.as_slice())
    }

    /// Reads 128 lowercase hex digits.
    pub fn from_hex(s: &str) -> (r: Result<Self, Error>)
        ensures
            r matches Ok(v) ==> fixed_hex(s@, 64, "signature") == Ok::<Seq<u8>, Error>(v.0@),
            r matches Err(e) ==> fixed_hex(s@, 64, "signature") == Err::<Seq<u8>, Error>(e),
    {
        match hex_decode_fixed::<64>(s, "signature") {
            Ok(raw) => Ok(Signature(raw)),
            Err(e) => Err(e),
        }
    }

    /// Whether two values are the same.
    pub fn same(&self, other: &Signature) -> (r: bool)
        ensures
            r == (*self == *other),
    {
        proof {
            array_extensional(self.0, other.0);
        }
        same_bytes(self.0.as_slice(), other.0.as_slice())
    }
}

impl std::str::FromStr for Signature {
    type Err = Error;

    fn from_str(s: &str) -> Result<Self, Error> {
        Signature::from_hex(s)
    }
}

impl Key for PeerId {
    open spec fn rank(&self) -> Seq<int> {
        byte_rank(self.0@)
    }

    fn side(&self, other: &Self) -> (r: Side) {
        compare_bytes(self.0.as_slice(), other.0.as_slice())
    }
}

/// Peer ids with the same rank are equal.
pub proof fn peer_rank_injective(a: PeerId, b: PeerId)
    ensures
        a.rank() == b.rank() ==> a == b,
{
    byte_rank_injective(a.0@, b.0@);
    array_extensional(a.0, b.0);
}

/// The public key of an Ed25519 secret.
pub uninterp spec fn ed25519_public_of(secret: Seq<u8>) -> Seq<u8>;

/// The Ed25519 signature of a message under a secret.
pub uninterp spec fn ed25519_signature_of(secret: Seq<u8>, message: Seq<u8>) -> Seq<u8>;

/// Whether bytes are an Ed25519 public key.
pub uninterp spec fn ed25519_is_key(key: Seq<u8>) -> bool;

/// Whether strict Ed25519 verification accepts a signature.
pub uninterp spec fn ed25519_accepts(key: Seq<u8>, message: Seq<u8>, sig: Seq<u8>) -> bool;

/// The X25519 public key of a secret.
pub uninterp spec fn x25519_public_of(secret: Seq<u8>) -> Seq<u8>;

/// `SigningKey::verifying_key` of `ed25519_dalek`: a function of the secret.
#[verifier::external_body]
fn ed25519_public(secret: &[u8; 32]) -> (r: [u8; 32])
    ensures
        r@ == ed25519_public_of(secret@),
{
    ed25519_dalek::SigningKey::from_bytes(secret).verifying_key().to_bytes()
}

/// The encoding of the curve's neutral point.
pub open spec fn neutral_point() -> Seq<u8> {
    Seq::new(32, |i: int| if i == 0 { 1u8 } else { 0u8 })
}

/// `SigningKey::sign` of `ed25519_dalek`: a function of the secret and the message, which strict
/// verification with the secret's public key accepts. It refuses points of small order: the
/// public key is never one, and of the multiples of the base point that can stand in the first
/// half of a signature only the neutral point is.
#[verifier::external_body]
fn ed25519_sign(secret: &[u8; 32], message: &[u8]) -> (r: [u8; 64])
    ensures
        r@ == ed25519_signature_of(secret@, message@),
        r@.take(32) != neutral_point() ==> ed25519_accepts(
            ed25519_public_of(secret@),
            message@,
            r@,
        ),
{
    ed25519_dalek::Signer::sign(&ed25519_dalek::SigningKey::from_bytes(secret), message).to_bytes()
}

/// `VerifyingKey::from_bytes` of `ed25519_dalek`: whether the bytes are a key.
#[verifier::external_body]
fn ed25519_key(key: &[u8; 32]) -> (r: bool)
    ensures
        r == ed25519_is_key(key@),
{
    ed25519_dalek::VerifyingKey::from_bytes(key).is_ok()
}

/// `VerifyingKey::verify_strict` of `ed25519_dalek`: whether the key accepts the signature of the
/// message; bytes that are no key accept nothing.
#[verifier::external_body]
fn ed25519_verify(key: &[u8; 32], message: &[u8], sig: &[u8; 64]) -> (r: bool)
    ensures
        r == ed25519_accepts(key@, message@, sig@),
        r ==> ed25519_is_key(key@),
{
    match ed25519_dalek::VerifyingKey::from_bytes(key) {
        Ok(k) => k.verify_strict(message, &ed25519_dalek::Signature::from_bytes(sig)).is_ok(),
        Err(_) => false,
    }
}

/// `x25519_dalek::PublicKey::from` a secret: a function of the secret.
#[verifier::external_body]
pub(crate) fn x25519_public_key(secret: &[u8; 32]) -> (r: [u8; 32])
    ensures
        r@ == x25519_public_of(secret@),
{
    x25519_dalek::PublicKey::from(&x25519_dalek::StaticSecret::from(*secret)).to_bytes()
}

/// `SigningKey::generate` of `ed25519_dalek`: a secret from the system's randomness. Nothing is
/// claimed of it.
#[verifier::external_body]
fn fresh_signing_secret() -> (r: [u8; 32]) {
    ed25519_dalek::SigningKey::generate(&mut rand::rngs::OsRng).to_bytes()
}

/// `OsRng::fill_bytes`: bytes from the system's randomness. Nothing is claimed of them.
#[verifier::external_body]
pub(crate) fn random_bytes<const N: usize>() -> (r: [u8; N]) {
    let mut out = [0u8; N];
    rand::RngCore::fill_bytes(&mut rand::rngs::OsRng, &mut out);
    out
}

/// What a signature of `payload` in a domain is made over: the name of the scheme, a NUL, the
/// domain, a NUL, and the payload.
pub open spec fn preimage(domain: Seq<char>, payload: Seq<u8>) -> Seq<u8> {
    encode_utf8("abra-sig-v1"@) + seq![0u8] + encode_utf8(domain) + seq![0u8] + payload
}

/// What a signature of `payload` in a domain is made over.
pub fn signature_preimage(domain: &str, payload: &[u8]) -> (r: Vec<u8>)
    ensures
        r@ == preimage(domain@, payload@),
{
    let mut v = copy_bytes("abra-sig-v1".as_bytes());
    v.push(0);
    append_bytes(&mut v, domain.as_bytes());
    v.push(0);
    append_bytes(&mut v, payload);
    assert(v@ =~= preimage(domain@, payload@));
    v
}

/// A signature of `payload` in a domain that the peer's key accepts.
pub open spec fn signed_by(peer: PeerId, domain: Seq<char>, payload: Seq<u8>, sig: Signature) -> bool {
    ed25519_accepts(peer.0@, preimage(domain, payload), sig.0@)
}

/// The signature that a key makes of `payload` in a domain. Its public key accepts it where it is
/// regular.
pub open spec fn signature_of(id: Identity, domain: Seq<char>, payload: Seq<u8>, sig: Signature) -> bool {
    &&& sig.0@ == ed25519_signature_of(id.secret@, preimage(domain, payload))
    &&& sig.is_regular() ==> ed25519_accepts(id.peer(), preimage(domain, payload), sig.0@)
}

/// What a key signs, its peer id verifies.
pub proof fn own_signature_verifies(
    id: Identity,
    peer: PeerId,
    domain: Seq<char>,
    payload: Seq<u8>,
    sig: Signature,
)
    requires
        peer.0@ == id.peer(),
        signature_of(id, domain, payload, sig),
        sig.is_regular(),
    ensures
        signature_check(peer, domain, payload, sig) is Ok,
{
}

/// What `PeerId::verify` answers.
pub open spec fn signature_check(
    peer: PeerId,
    domain: Seq<char>,
    payload: Seq<u8>,
    sig: Signature,
) -> Result<(), Error> {
    if signed_by(peer, domain, payload, sig) {
        Ok(())
    } else {
        Err(Error::BadSignature("the key does not accept the signature"))
    }
}

impl PeerId {
    /// The short form of the id.
    pub fn short(&self) -> (r: ShortId)
        ensures
            r.0@ == blake3_of(self.0@).take(4),
    {
        let h = crate::cas::Hash::of(self.0.as_slice());
        let out: [u8; 4] = [h.0[0], h.0[1], h.0[2], h.0[3]];
        assert(out@ =~= h.0@.take(4));
        ShortId(out)
    }

    /// Checks a signature of this peer.
    pub fn verify(&self, domain: &str, payload: &[u8], sig: &Signature) -> (r: Result<(), Error>)
        ensures
            r == signature_check(*self, domain@, payload@, *sig),
    {
        let message = signature_preimage(domain, payload);
        if ed25519_verify(&self.0, message.as_slice(), &sig.0) {
            Ok(())
        } else {
            Err(Error::BadSignature("the key does not accept the signature"))
        }
    }

    /// Whether the bytes are a public key.
    pub fn is_valid_key(&self) -> (r: bool)
        ensures
            r == ed25519_is_key(self.0@),
    {
        ed25519_key(&self.0)
    }
}

/// The signing key of a device.
#[derive(Clone)]
pub struct Identity {
    pub secret: [u8; 32],
}

impl Identity {
    /// The peer that this key signs for.
    pub open spec fn peer(&self) -> Seq<u8> {
        ed25519_public_of(self.secret@)
    }

    /// A new key. What it is depends on the system's randomness alone.
    pub fn generate() -> Self {
        Identity { secret: fresh_signing_secret() }
    }

    /// The key with this secret.
    pub fn from_secret_bytes(b: &[u8; 32]) -> (r: Self)
        ensures
            r.secret == *b,
    {
        Identity { secret: *b }
    }

    /// The secret.
    pub fn secret_bytes(&self) -> (r: [u8; 32])
        ensures
            r == self.secret,
    {
        self.secret
    }

    /// The public key.
    pub fn peer_id(&self) -> (r: PeerId)
        ensures
            r.0@ == self.peer(),
    {
        PeerId(ed25519_public(&self.secret))
    }

    /// The short form of the public key.
    pub fn short_id(&self) -> (r: ShortId)
        ensures
            r.0@ == blake3_of(self.peer()).take(4),
    {
        self.peer_id().short()
    }

    /// Signs a payload in a domain.
    pub fn sign(&self, d: &str, p: &[u8]) -> (r: Signature)
        ensures
            signature_of(*self, d@, p@, r),
    {
        let message = signature_preimage(d, p);
        Signature(ed25519_sign(&self.secret, message.as_slice()))
    }

    /// Reads what a key file holds: the 32 bytes of the secret.
    pub fn from_file(bytes: &[u8]) -> (r: Result<Self, Error>)
        ensures
            r is Ok <==> bytes@.len() == 32,
            r matches Ok(id) ==> id.secret@ == bytes@,
            r matches Err(e) ==> e == (Error::Corrupt {
                kind: "identity key",
                detail: "expected 32 bytes",
            }),
    {
        if bytes.len() != 32 {
            return Err(Error::Corrupt { kind: "identity key", detail: "expected 32 bytes" });
        }
        let secret = crate::bytes::array32_at(bytes, 0);
        assert(secret@ =~= bytes@);
        Ok(Identity { secret })
    }
}

/// What is signed in one domain is not what is signed in another, for domains without NUL.
pub proof fn domains_separate(d1: Seq<char>, p1: Seq<u8>, d2: Seq<char>, p2: Seq<u8>)
    requires
        !d1.contains('\0'),
        !d2.contains('\0'),
        preimage(d1, p1) == preimage(d2, p2),
    ensures
        d1 == d2,
        p1 == p2,
{
    let h = encode_utf8("abra-sig-v1"@) + seq![0u8];
    let a = encode_utf8(d1);
    let b = encode_utf8(d2);
    let x = preimage(d1, p1);
    let y = preimage(d2, p2);
    crate::cas::text_bytes_nonzero(d1);
    crate::cas::text_bytes_nonzero(d2);
    let s = x.skip(h.len() as int);
    assert(s =~= a + seq![0u8] + p1);
    assert(s =~= y.skip(h.len() as int));
    assert(s =~= b + seq![0u8] + p2);
    assert forall|j: int| 0 <= j < a.len() implies s[j] != 0 by {
        assert(s[j] == a[j]);
    }
    assert forall|j: int| 0 <= j < b.len() implies s[j] != 0 by {
        assert(s[j] == b[j]);
    }
    assert(s[a.len() as int] == 0);
    assert(s[b.len() as int] == 0);
    assert(a.len() == b.len()) by {
        if a.len() < b.len() {
            assert(s[a.len() as int] == (b + seq![0u8] + p2)[a.len() as int]);
        }
    }
    assert(a =~= s.take(a.len() as int));
    assert(b =~= s.take(b.len() as int));
    vstd::utf8::encode_utf8_decode_utf8(d1);
    vstd::utf8::encode_utf8_decode_utf8(d2);
    assert(p1 =~= s.skip(a.len() as int + 1));
    assert(p2 =~= s.skip(b.len() as int + 1));
}

/// The three secrets that a device keeps, each generated for itself.
#[derive(Clone)]
pub struct DeviceKeys {
    pub identity: Identity,
    pub x25519_secret: [u8; 32],
    pub relay_discovery_key: [u8; 32],
}

impl DeviceKeys {
    /// New secrets. What they are depends on the system's randomness alone.
    pub fn generate() -> Self {
        DeviceKeys {
            identity: Identity::generate(),
            x25519_secret: random_bytes::<32>(),
            relay_discovery_key: random_bytes::<32>(),
        }
    }

    /// The public key that others encrypt to.
    pub fn x25519_public(&self) -> (r: [u8; 32])
        ensures
            r@ == x25519_public_of(self.x25519_secret@),
    {
        x25519_public_key(&self.x25519_secret)
    }
}

/// What the key file of a device holds: a version, and the secrets as hex text.
pub struct DeviceFile {
    pub spec: String,
    pub ed25519_secret: String,
    pub x25519_secret: String,
    pub relay_discovery_key: String,
}

/// The members of a key file.
pub open spec fn device_file_members(f: DeviceFile) -> Members {
    seq![
        ("ed25519_secret"@, JsonV::Str(f.ed25519_secret@)),
        ("relay_discovery_key"@, JsonV::Str(f.relay_discovery_key@)),
        ("spec"@, JsonV::Str(f.spec@)),
        ("x25519_secret"@, JsonV::Str(f.x25519_secret@)),
    ]
}

/// The file holds these secrets.
pub open spec fn holds_keys(f: DeviceFile, k: DeviceKeys) -> bool {
    &&& f.spec@ == SPEC@
    &&& f.ed25519_secret@ == hex_text(k.identity.secret@)
    &&& f.x25519_secret@ == hex_text(k.x25519_secret@)
    &&& f.relay_discovery_key@ == hex_text(k.relay_discovery_key@)
}

/// What is wrong with a key file.
pub open spec fn key_file_fault(f: DeviceFile) -> Option<Error> {
    if f.spec@ != SPEC@ {
        Some(Error::UnsupportedKeys { version: f.spec, known: SPEC })
    } else if fixed_hex(f.ed25519_secret@, 32, "key") is Err {
        Some(fixed_hex(f.ed25519_secret@, 32, "key")->Err_0)
    } else if fixed_hex(f.x25519_secret@, 32, "key") is Err {
        Some(fixed_hex(f.x25519_secret@, 32, "key")->Err_0)
    } else if fixed_hex(f.relay_discovery_key@, 32, "key") is Err {
        Some(fixed_hex(f.relay_discovery_key@, 32, "key")->Err_0)
    } else {
        None
    }
}

impl DeviceKeys {
    /// The key file of these secrets.
    pub fn to_file(&self) -> (r: DeviceFile)
        ensures
            holds_keys(r, *self),
    {
        DeviceFile {
            spec: SPEC.to_owned(),
            ed25519_secret: hex_encode(self.identity.secret.as_slice()),
            x25519_secret: hex_encode(self.x25519_secret.as_slice()),
            relay_discovery_key: hex_encode(self.relay_discovery_key.as_slice()),
        }
    }

    /// The secrets of a key file.
    pub fn from_file(file: &DeviceFile) -> (r: Result<Self, Error>)
        ensures
            r matches Err(e) ==> key_file_fault(*file) == Some(e),
            r matches Ok(k) ==> {
                &&& key_file_fault(*file) is None
                &&& k.identity.secret@ == hex_bytes(file.ed25519_secret@)
                &&& k.x25519_secret@ == hex_bytes(file.x25519_secret@)
                &&& k.relay_discovery_key@ == hex_bytes(file.relay_discovery_key@)
            },
    {
        if !same_text(file.spec.as_str(), SPEC) {
            return Err(Error::UnsupportedKeys { version: file.spec.clone(), known: SPEC });
        }
        let secret = match hex_decode_fixed::<32>(file.ed25519_secret.as_str(), "key") {
            Err(e) => {
                return Err(e);
            },
            Ok(k) => k,
        };
        let x25519_secret = match hex_decode_fixed::<32>(file.x25519_secret.as_str(), "key") {
            Err(e) => {
                return Err(e);
            },
            Ok(k) => k,
        };
        let relay = match hex_decode_fixed::<32>(file.relay_discovery_key.as_str(), "key") {
            Err(e) => {
                return Err(e);
            },
            Ok(k) => k,
        };
        Ok(
            DeviceKeys {
                identity: Identity::from_secret_bytes(&secret),
                x25519_secret,
                relay_discovery_key: relay,
            },
        )
    }
}

impl DeviceFile {
    /// The bytes of the file.
    pub fn to_bytes(&self) -> (r: Vec<u8>)
        ensures
            r@ == json_bytes(JsonV::Obj(device_file_members(*self))),
    {
        let mut f = Fields::new();
        f.put_str("ed25519_secret", self.ed25519_secret.as_str());
        f.put_str("relay_discovery_key", self.relay_discovery_key.as_str());
        f.put_str("spec", self.spec.as_str());
        f.put_str("x25519_secret", self.x25519_secret.as_str());
        assert(f.so_far() =~= device_file_members(*self));
        let value = f.done();
        proof {
            reveal_with_fuel(plain, 2);
        }
        plain_bytes(&value)
    }
}

/// The secrets that were written to a key file are those that are read from it.
pub proof fn key_file_round_trip(f: DeviceFile, k: DeviceKeys)
    requires
        holds_keys(f, k),
    ensures
        key_file_fault(f) is None,
        hex_bytes(f.ed25519_secret@) == k.identity.secret@,
        hex_bytes(f.x25519_secret@) == k.x25519_secret@,
        hex_bytes(f.relay_discovery_key@) == k.relay_discovery_key@,
{
    hex_round_trip(k.identity.secret@, "key");
    hex_round_trip(k.x25519_secret@, "key");
    hex_round_trip(k.relay_discovery_key@, "key");
}

} // verus!
