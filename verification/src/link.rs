//! Links: a snapshot in one encrypted blob, for whoever has the key.
use vstd::prelude::*;
use vstd::utf8::{encode_utf8, is_ascii_chars, is_ascii_chars_encode_utf8};

use crate::base64::{
    base64_bytes, base64_decode, base64_encode, base64_length, base64_round_trip, base64_text,
};
use crate::bytes::{
    append_bytes, array_extensional, be_at, be_bytes, be_round_trip, be_value, has_prefix,
    machine_limits, push_be64, starts_with,
};
use crate::canonical::{
    canonical_of, json_bytes, json_of, parse_json, value_fault, validate_canonical,
};
use crate::capsule::{
    check_record, put_signature, record_check, signature_member, signed_record, SPEC,
};
use crate::cas::{blake3_of, Digest};
use crate::crypto::{is_sealed, open_message, seal_message};
use crate::error::Error;
use crate::faithful::{is_canonical_manifest, parsed};
use crate::history::Capsule;
use crate::identity::{random_bytes, Identity, PeerId, Signature};
use crate::json::{
    deepest_member, json_views, member_at_unique, member_views, nesting, orderly, Json, JsonV,
};
use crate::manifest::{Manifest, RawManifest};
use crate::members::{letter_before, list_nesting};
use crate::net::relay::array12_at;
use crate::order::{char_rank, lex_before, Key, Side};
use crate::record::{opt_str, plain, plain_bytes, Fields, Members};
use crate::shape::{
    bytes_in, is_record, not_longer, opt_view, read_bytes, read_text, slot, take_slot, text_in,
};
use crate::store::AbraStore;
use crate::text::{concat, same_text, strip_prefix};
use crate::util::{hex_encode, hex_round_trip, hex_text};

verus! {

/// How the blob of a link begins.
pub const MAGIC: &'static str = "ABRACAP1";

/// What stands in place of the blob of a link that was taken back.
pub const REVOKED_MAGIC: &'static str = "ABRACAPX";

/// The one algorithm: AES-256-GCM.
pub const ALG_AES_256_GCM: u8 = 2;

/// The bytes in front of the ciphertext.
pub const LINK_HEADER_LEN: usize = 37;

/// The longest blob of a link.
pub const MAX_CAPABILITY_BYTES: usize = 67_108_864;

/// The longest object in a link.
pub const MAX_CAPABILITY_OBJECT_BYTES: usize = 33_554_432;

/// What a link holds: the manifest and the thumbnail, or all objects.
#[derive(Clone, Copy, Debug, PartialEq, Eq, Structural)]
pub enum LinkMode {
    Floor,
    Full,
}

/// How a mode is written.
pub open spec fn mode_text(mode: LinkMode) -> Seq<char> {
    match mode {
        LinkMode::Floor => "floor"@,
        LinkMode::Full => "full"@,
    }
}

impl LinkMode {
    /// How the mode is written.
    pub fn as_str(self) -> (r: &'static str)
        ensures
            r@ == mode_text(self),
    {
        match self {
            LinkMode::Floor => "floor",
            LinkMode::Full => "full",
        }
    }
}

/// An object in a link.
#[derive(Clone, Debug, PartialEq, Eq)]
pub struct PackBlob {
    pub digest: Digest,
    pub data: String,
}

/// What a link holds.
#[derive(Clone, Debug, PartialEq, Eq)]
pub struct CapabilityPack {
    pub spec: String,
    pub pack_type: String,
    pub snapshot_id: Digest,
    pub manifest_raw: String,
    pub blobs: Vec<PackBlob>,
}

/// What the maker of a link keeps of it. The key is not among it.
#[derive(Clone, Debug, PartialEq, Eq)]
pub struct MintRecord {
    pub link_id: String,
    pub snapshot_id: Digest,
    pub expires_at: String,
    pub mode: LinkMode,
    pub url: String,
    pub revoked: bool,
    pub ciphertext_hash: Option<Digest>,
    pub local_path: Option<String>,
    pub revoke_command: Option<String>,
    pub sig: Signature,
}

/// A link that was made.
#[derive(Debug, PartialEq, Eq)]
pub struct MintedLink {
    pub record: MintRecord,
    pub key: [u8; 32],
    pub blob: Vec<u8>,
}

/// A hash that is left out where there is none.
pub open spec fn opt_hash(key: Seq<char>, h: Option<Digest>) -> Members {
    match h {
        Some(d) => seq![(key, JsonV::Str(hex_text(d.0@)))],
        None => Seq::empty(),
    }
}

/// The members of the record of a link, with or without its signature.
pub open spec fn mint_members(r: MintRecord, sig: Option<Signature>) -> Members {
    opt_hash("ciphertext_hash"@, r.ciphertext_hash) + seq![
        ("expires_at"@, JsonV::Str(r.expires_at@)),
        ("link_id"@, JsonV::Str(r.link_id@)),
    ] + opt_str("local_path"@, r.local_path) + seq![("mode"@, JsonV::Str(mode_text(r.mode)))]
        + opt_str("revoke_command"@, r.revoke_command) + seq![
        ("revoked"@, JsonV::Bool(r.revoked)),
    ] + signature_member(sig) + seq![
        ("snapshot_id"@, JsonV::Str(hex_text(r.snapshot_id.0@))),
        ("url"@, JsonV::Str(r.url@)),
    ]
}

impl MintRecord {
    fn to_json(&self, sig: Option<Signature>) -> (r: Json)
        ensures
            r@ == JsonV::Obj(mint_members(*self, sig)),
    {
        let mut f = Fields::new();
        match &self.ciphertext_hash {
            Some(d) => {
                f.put_str("ciphertext_hash", d.to_hex().as_str());
            },
            None => {},
        }
        assert(f.so_far() =~= opt_hash("ciphertext_hash"@, self.ciphertext_hash));
        f.put_str("expires_at", self.expires_at.as_str());
        f.put_str("link_id", self.link_id.as_str());
        f.put_opt("local_path", &self.local_path);
        f.put_str("mode", self.mode.as_str());
        f.put_opt("revoke_command", &self.revoke_command);
        f.put("revoked", Json::Bool(self.revoked));
        put_signature(&mut f, sig);
        f.put_str("snapshot_id", self.snapshot_id.to_hex().as_str());
        f.put_str("url", self.url.as_str());
        assert(f.so_far() =~= mint_members(*self, sig));
        f.done()
    }

    /// Checks that this device signed the record.
    pub fn verify(&self, identity: &Identity) -> (r: Result<(), Error>)
        ensures
            exists|me: PeerId|
                me.0@ == identity.peer() && r == #[trigger] record_check(
                    me,
                    "cap-mint"@,
                    mint_members(*self, None),
                    self.sig,
                ),
    {
        let me = identity.peer_id();
        let value = self.to_json(None);
        let r = check_record(&me, "cap-mint", &value, &self.sig);
        assert(r == record_check(me, "cap-mint"@, mint_members(*self, None), self.sig));
        r
    }

    /// Signs the record as it stands.
    pub fn resign(&mut self, identity: &Identity)
        ensures
            *final(self) == (MintRecord { sig: final(self).sig, ..*old(self) }),
            signed_record(*identity, "cap-mint"@, mint_members(*old(self), None), final(self).sig),
    {
        let value = self.to_json(None);
        proof {
            mint_plain(*self, None);
            crate::record::plain_no_fault(value@, false, true);
        }
        let bytes = plain_bytes(&value);
        let sig = identity.sign("cap-mint", bytes.as_slice());
        self.sig = sig;
    }
}

proof fn mint_plain(r: MintRecord, sig: Option<Signature>)
    ensures
        plain(JsonV::Obj(mint_members(r, sig))),
{
    reveal_with_fuel(plain, 2);
}

/// One object of a link as JSON.
pub open spec fn pack_blob_json(b: PackBlob) -> JsonV {
    JsonV::Obj(
        seq![("data"@, JsonV::Str(b.data@)), ("digest"@, JsonV::Str(hex_text(b.digest.0@)))],
    )
}

/// What a link holds, as JSON.
pub open spec fn pack_json(p: CapabilityPack) -> JsonV {
    JsonV::Obj(
        seq![
            ("blobs"@, JsonV::Arr(Seq::new(p.blobs@.len(), |i: int| pack_blob_json(p.blobs@[i])))),
            ("manifest_raw"@, JsonV::Str(p.manifest_raw@)),
            ("snapshot_id"@, JsonV::Str(hex_text(p.snapshot_id.0@))),
            ("spec"@, JsonV::Str(p.spec@)),
            ("type"@, JsonV::Str(p.pack_type@)),
        ],
    )
}

proof fn pack_plain(p: CapabilityPack)
    ensures
        plain(pack_json(p)),
{
    reveal_with_fuel(plain, 4);
    let a = Seq::new(p.blobs@.len(), |i: int| pack_blob_json(p.blobs@[i]));
    assert forall|i: int| 0 <= i < a.len() implies plain(#[trigger] a[i]) by {
        assert(a[i] == pack_blob_json(p.blobs@[i]));
    }
    assert(plain(JsonV::Arr(a)));
}

impl CapabilityPack {
    /// The pack as JSON.
    pub fn to_json(&self) -> (r: Json)
        ensures
            r@ == pack_json(*self),
    {
        let mut blobs: Vec<Json> = Vec::new();
        let mut i: usize = 0;
        while i < self.blobs.len()
            invariant
                i <= self.blobs@.len(),
                blobs@.len() == i,
                forall|j: int|
                    0 <= j < i ==> (#[trigger] blobs@[j])@ == pack_blob_json(self.blobs@[j]),
            decreases self.blobs.len() - i,
        {
            let mut f = Fields::new();
            f.put_str("data", self.blobs[i].data.as_str());
            f.put_str("digest", self.blobs[i].digest.to_hex().as_str());
            assert(f.so_far() =~= pack_blob_json(self.blobs@[i as int])->Obj_0);
            blobs.push(f.done());
            assert(blobs@[i as int]@ == pack_blob_json(self.blobs@[i as int]));
            i += 1;
        }
        assert(crate::json::json_views(blobs@) =~= Seq::new(
            self.blobs@.len(),
            |j: int| pack_blob_json(self.blobs@[j]),
        ));
        let mut f = Fields::new();
        f.put("blobs", Json::Arr(blobs));
        f.put_str("manifest_raw", self.manifest_raw.as_str());
        f.put_str("snapshot_id", self.snapshot_id.to_hex().as_str());
        f.put_str("spec", self.spec.as_str());
        f.put_str("type", self.pack_type.as_str());
        assert(f.so_far() =~= pack_json(*self)->Obj_0);
        f.done()
    }
}

/// Where a snapshot was found.
pub enum Found<'a> {
    Inbox(&'a [u8]),
    Capsule(&'a RawManifest),
}

/// The first capsule that has a snapshot, from `i` on.
pub open spec fn capsule_with(s: Seq<(Digest, Capsule)>, id: Digest, i: int) -> int
    decreases s.len() - i,
{
    if i < 0 || i >= s.len() {
        s.len() as int
    } else if s[i].1.snapshots@.dom().contains(id.rank()) {
        i
    } else {
        capsule_with(s, id, i + 1)
    }
}

/// Finds a snapshot: in the inbox, or in the first capsule that has it.
pub fn find_snapshot<'a>(store: &'a AbraStore, id: Digest) -> (r: Result<Found<'a>, Error>)
    requires
        store.wf(),
    ensures
        ({
            let s = store.capsules.entries@;
            let at = capsule_with(s, id, 0);
            match r {
                Ok(Found::Inbox(b)) => store.inbox@.dom().contains(id.rank()) && b@
                    == store.inbox@[id.rank()].manifest@,
                Ok(Found::Capsule(raw)) => !store.inbox@.dom().contains(id.rank()) && 0 <= at
                    < s.len() && *raw == s[at].1.snapshots@[id.rank()].raw,
                Err(e) => !store.inbox@.dom().contains(id.rank()) && at == s.len() && (
                e matches Error::NotFound { kind, id: name } && kind == "snapshot" && name@
                    == hex_text(id.0@)),
            }
        }),
{
    match store.inbox.get(&id) {
        Some(e) => {
            return Ok(Found::Inbox(e.manifest.as_slice()));
        },
        None => {},
    }
    let s = &store.capsules.entries;
    let mut i: usize = 0;
    while i < s.len()
        invariant
            store.wf(),
            s@ == store.capsules.entries@,
            i <= s@.len(),
            !store.inbox@.dom().contains(id.rank()),
            capsule_with(s@, id, 0) == capsule_with(s@, id, i as int),
        decreases s.len() - i,
    {
        proof {
            crate::table::map_of_at(s@, i as int);
            assert(store.capsules@.dom().contains(s@[i as int].0.rank()));
        }
        match s[i].1.snapshot(&id) {
            Some(record) => {
                return Ok(Found::Capsule(&record.raw));
            },
            None => {},
        }
        i += 1;
    }
    Err(Error::NotFound { kind: "snapshot", id: id.to_hex() })
}

/// How long the base64 text of so many bytes is, as far as that can be counted.
pub open spec fn base64_size(n: int) -> int {
    if 4 * n + 2 > usize::MAX {
        usize::MAX as int / 3
    } else {
        base64_length(n)
    }
}

/// How long the base64 text of so many bytes is; at most a third of what can be counted.
pub fn base64_len(bytes: usize) -> (r: usize)
    ensures
        r == base64_size(bytes as int),
{
    if bytes > usize::MAX / 4 {
        return usize::MAX / 3;
    }
    let four = bytes * 4;
    if four > usize::MAX - 2 {
        return usize::MAX / 3;
    }
    (four + 2) / 3
}

/// The size of objects in a link, behind `start` bytes, where all of them fit.
pub open spec fn link_size(start: int, s: Seq<(Digest, Vec<u8>)>) -> Result<int, Error>
    decreases s.len(),
{
    if s.len() == 0 {
        Ok(start)
    } else {
        match link_size(start, s.drop_last()) {
            Err(e) => Err(e),
            Ok(n) => if s.last().1@.len() > MAX_CAPABILITY_OBJECT_BYTES {
                Err(Error::Invalid("capability object exceeds 32 MiB limit"))
            } else if n + base64_size(s.last().1@.len() as int) > MAX_CAPABILITY_BYTES
                - LINK_HEADER_LEN - 16 {
                Err(Error::Invalid("sealed capability bundle exceeds 64 MiB limit"))
            } else {
                Ok(n + base64_size(s.last().1@.len() as int))
            },
        }
    }
}

proof fn link_size_prefix(start: int, s: Seq<(Digest, Vec<u8>)>, n: int)
    requires
        0 <= n <= s.len(),
    ensures
        link_size(start, s.take(n)) matches Err(e) ==> link_size(start, s) == Err::<int, Error>(e),
    decreases s.len() - n,
{
    if n == s.len() {
        assert(s.take(n) =~= s);
    } else {
        link_size_prefix(start, s, n + 1);
        assert(s.take(n + 1).drop_last() =~= s.take(n));
    }
}

/// The pack holds the snapshot and these objects.
pub open spec fn packs(p: CapabilityPack, raw: RawManifest, objects: Seq<(Digest, Vec<u8>)>) -> bool {
    &&& p.spec@ == SPEC@
    &&& p.pack_type@ == "capability-pack"@
    &&& p.snapshot_id == raw.id
    &&& p.manifest_raw@ == base64_text(raw.bytes@)
    &&& p.blobs@.len() == objects.len()
    &&& forall|i: int|
        0 <= i < objects.len() ==> (#[trigger] p.blobs@[i]).digest == objects[i].0
            && p.blobs@[i].data@ == base64_text(objects[i].1@)
}

/// Packs a snapshot and its objects.
pub fn pack_snapshot(raw: &RawManifest, objects: &Vec<(Digest, Vec<u8>)>) -> (r: Result<
    CapabilityPack,
    Error,
>)
    ensures
        ({
            let size = link_size(base64_size(raw.bytes@.len() as int), objects@);
            match r {
                Err(e) => size == Err::<int, Error>(e),
                Ok(p) => size is Ok && packs(p, *raw, objects@),
            }
        }),
{
    let start = base64_len(raw.bytes.len());
    let mut size: usize = start;
    let mut blobs: Vec<PackBlob> = Vec::new();
    let mut i: usize = 0;
    assert(objects@.take(0) =~= Seq::<(Digest, Vec<u8>)>::empty());
    while i < objects.len()
        invariant
            i <= objects@.len(),
            start == base64_size(raw.bytes@.len() as int),
            link_size(start as int, objects@.take(i as int)) == Ok::<int, Error>(size as int),
            blobs@.len() == i,
            forall|j: int|
                0 <= j < i ==> (#[trigger] blobs@[j]).digest == objects@[j].0 && blobs@[j].data@
                    == base64_text(objects@[j].1@),
        decreases objects.len() - i,
    {
        let x = &objects[i];
        proof {
            assert(objects@.take(i + 1).drop_last() =~= objects@.take(i as int));
            assert(objects@.take(i + 1).last() == objects@[i as int]);
            link_size_prefix(start as int, objects@, i + 1);
        }
        if x.1.len() > MAX_CAPABILITY_OBJECT_BYTES {
            return Err(Error::Invalid("capability object exceeds 32 MiB limit"));
        }
        size = match size.checked_add(base64_len(x.1.len())) {
            None => {
                return Err(Error::Invalid("sealed capability bundle exceeds 64 MiB limit"));
            },
            Some(n) => n,
        };
        if size > MAX_CAPABILITY_BYTES - LINK_HEADER_LEN - 16 {
            return Err(Error::Invalid("sealed capability bundle exceeds 64 MiB limit"));
        }
        blobs.push(PackBlob { digest: x.0, data: base64_encode(x.1.as_slice()) });
        i += 1;
    }
    assert(objects@.take(i as int) =~= objects@);
    Ok(
        CapabilityPack {
            spec: SPEC.to_owned(),
            pack_type: "capability-pack".to_owned(),
            snapshot_id: raw.id,
            manifest_raw: base64_encode(raw.bytes.as_slice()),
            blobs,
        },
    )
}

/// What stands in front of the ciphertext and is covered by its tag.
pub open spec fn link_aad(nonce: Seq<u8>, expires: u64) -> Seq<u8> {
    encode_utf8(MAGIC@) + seq![ALG_AES_256_GCM] + nonce + be_bytes(expires as nat, 8)
}

/// The blob of a link.
pub open spec fn is_link(
    blob: Seq<u8>,
    key: Seq<u8>,
    nonce: Seq<u8>,
    expires: u64,
    plaintext: Seq<u8>,
) -> bool {
    let aad = link_aad(nonce, expires);
    exists|c: Seq<u8>| #[trigger]
        is_sealed(key, nonce, aad, c, plaintext) && blob == aad + be_bytes(c.len(), 8) + c && 37
            + c.len() <= MAX_CAPABILITY_BYTES && c.len() == plaintext.len() + 16
}

/// Encrypts the bytes of a pack.
pub fn seal_link(plaintext: &[u8], key: &[u8; 32], nonce: &[u8; 12], expires_ms: u64) -> (r: Result<
    Vec<u8>,
    Error,
>)
    ensures
        r matches Ok(b) ==> is_link(b@, key@, nonce@, expires_ms, plaintext@),
        r is Ok <==> 37 + plaintext@.len() + 16 <= MAX_CAPABILITY_BYTES,
        r matches Err(e) ==> e == if plaintext@.len() > crate::crypto::GCM_MAX {
            Error::Invalid("capability encryption failed")
        } else {
            Error::Invalid("sealed capability bundle exceeds 64 MiB limit")
        },
{
    let mut blob: Vec<u8> = Vec::new();
    append_bytes(&mut blob, MAGIC.as_bytes());
    blob.push(ALG_AES_256_GCM);
    append_bytes(&mut blob, nonce.as_slice());
    push_be64(&mut blob, expires_ms);
    proof {
        magic_lengths();
        be_round_trip(expires_ms as nat, 8);
        assert(blob@ =~= link_aad(nonce@, expires_ms));
        assert(blob@.len() == 29);
    }
    let ghost aad = blob@;
    let sealed = match seal_message(key, nonce, blob.as_slice(), plaintext) {
        None => {
            return Err(Error::Invalid("capability encryption failed"));
        },
        Some(c) => c,
    };
    if sealed.len() > MAX_CAPABILITY_BYTES - LINK_HEADER_LEN {
        return Err(Error::Invalid("sealed capability bundle exceeds 64 MiB limit"));
    }
    push_be64(&mut blob, sealed.len() as u64);
    append_bytes(&mut blob, sealed.as_slice());
    proof {
        assert(is_sealed(key@, nonce@, aad, sealed@, plaintext@));
        assert(blob@ =~= aad + be_bytes(sealed@.len(), 8) + sealed@);
    }
    Ok(blob)
}

proof fn magic_lengths()
    ensures
        encode_utf8(MAGIC@).len() == 8,
        encode_utf8(REVOKED_MAGIC@).len() == 8,
        encode_utf8(MAGIC@)[7] != encode_utf8(REVOKED_MAGIC@)[7],
{
    reveal_strlit("ABRACAP1");
    reveal_strlit("ABRACAPX");
    assert(is_ascii_chars(MAGIC@));
    assert(is_ascii_chars(REVOKED_MAGIC@));
    is_ascii_chars_encode_utf8(MAGIC@);
    is_ascii_chars_encode_utf8(REVOKED_MAGIC@);
    assert(encode_utf8(MAGIC@)[7] == MAGIC@[7] as u8);
    assert(encode_utf8(REVOKED_MAGIC@)[7] == REVOKED_MAGIC@[7] as u8);
}

/// What is wrong with the blob of a link, as far as that shows without the key.
pub open spec fn link_fault(blob: Seq<u8>, now: u64) -> Option<Error> {
    let expires = be_value(blob.subrange(21, 29));
    let length = be_value(blob.subrange(29, 37));
    if blob.len() > MAX_CAPABILITY_BYTES {
        Some(Error::Invalid("capability blob exceeds 64 MiB limit"))
    } else if has_prefix(blob, encode_utf8(REVOKED_MAGIC@)) {
        Some(Error::Invalid("capability link was revoked"))
    } else if blob.len() < LINK_HEADER_LEN || !has_prefix(blob, encode_utf8(MAGIC@)) || blob[8]
        != ALG_AES_256_GCM {
        Some(Error::Invalid("invalid capability blob header"))
    } else if now > expires {
        Some(Error::Invalid("capability link expired"))
    } else if blob.len() != 37 + length {
        Some(Error::Invalid("invalid capability ciphertext length"))
    } else {
        None
    }
}

/// The key opens the blob to these bytes.
pub open spec fn opens(blob: Seq<u8>, key: Seq<u8>, plaintext: Seq<u8>) -> bool {
    is_sealed(key, blob.subrange(9, 21), blob.take(29), blob.skip(37), plaintext)
}

/// Decrypts the blob of a link.
pub fn open_link(blob: &[u8], key: &[u8; 32], now_ms: u64) -> (r: Result<Vec<u8>, Error>)
    ensures
        match link_fault(blob@, now_ms) {
            Some(e) => r == Err::<Vec<u8>, Error>(e),
            None => match r {
                Ok(m) => opens(blob@, key@, m@),
                Err(e) => e == Error::Invalid("wrong capability key or damaged blob") && forall|
                    m: Seq<u8>,
                | !#[trigger] opens(blob@, key@, m),
            },
        },
        forall|m: Seq<u8>|
            link_fault(blob@, now_ms) is None && #[trigger] opens(blob@, key@, m) ==> r is Ok
                && r->Ok_0@ == m,
{
    if blob.len() > MAX_CAPABILITY_BYTES {
        return Err(Error::Invalid("capability blob exceeds 64 MiB limit"));
    }
    if starts_with(blob, REVOKED_MAGIC.as_bytes()) {
        return Err(Error::Invalid("capability link was revoked"));
    }
    if blob.len() < LINK_HEADER_LEN || !starts_with(blob, MAGIC.as_bytes()) || blob[8]
        != ALG_AES_256_GCM {
        return Err(Error::Invalid("invalid capability blob header"));
    }
    let expires = be_at(blob, 21, 8);
    if now_ms > expires {
        return Err(Error::Invalid("capability link expired"));
    }
    let length = be_at(blob, 29, 8);
    if (blob.len() - LINK_HEADER_LEN) as u64 != length {
        return Err(Error::Invalid("invalid capability ciphertext length"));
    }
    let nonce = array12_at(blob, 9);
    let aad = vstd::slice::slice_subrange(blob, 0, 29);
    let sealed = vstd::slice::slice_subrange(blob, 37, blob.len());
    proof {
        assert(aad@ =~= blob@.take(29));
        assert(sealed@ =~= blob@.skip(37));
    }
    proof {
        assert forall|m: Seq<u8>| #[trigger] opens(blob@, key@, m) implies is_sealed(
            key@,
            nonce@,
            aad@,
            sealed@,
            m,
        ) by {}
    }
    match open_message(key, &nonce, aad, sealed) {
        Some(m) => Ok(m),
        None => {
            assert forall|m: Seq<u8>| !#[trigger] opens(blob@, key@, m) by {
                assert(!is_sealed(key@, nonce@, aad@, sealed@, m));
            }
            Err(Error::Invalid("wrong capability key or damaged blob"))
        },
    }
}

/// The first object of a pack that is not what its digest says.
pub open spec fn blobs_fault(s: Seq<PackBlob>, i: int) -> Option<Error>
    decreases s.len() - i,
{
    if i < 0 || i >= s.len() {
        None
    } else {
        match base64_bytes(s[i].data@) {
            None => Some(Error::Encoding { kind: "base64url", detail: "not a base64url text" }),
            Some(b) => if blake3_of(b) != s[i].digest.0@ {
                Some(Error::Invalid("capability object digest mismatch"))
            } else {
                blobs_fault(s, i + 1)
            },
        }
    }
}

/// The objects of a pack, each of which has the bytes that its digest names.
pub fn pack_objects(pack: &CapabilityPack) -> (r: Result<Vec<(Digest, Vec<u8>)>, Error>)
    ensures
        match r {
            Err(e) => blobs_fault(pack.blobs@, 0) == Some(e),
            Ok(v) => {
                &&& blobs_fault(pack.blobs@, 0) is None
                &&& v@.len() == pack.blobs@.len()
                &&& forall|i: int|
                    0 <= i < v@.len() ==> (#[trigger] v@[i]).0 == pack.blobs@[i].digest && Some(
                        v@[i].1@,
                    ) == base64_bytes(pack.blobs@[i].data@) && blake3_of(v@[i].1@) == v@[i].0.0@
            },
        },
{
    let mut out: Vec<(Digest, Vec<u8>)> = Vec::new();
    let mut i: usize = 0;
    while i < pack.blobs.len()
        invariant
            i <= pack.blobs@.len(),
            blobs_fault(pack.blobs@, 0) == blobs_fault(pack.blobs@, i as int),
            out@.len() == i,
            forall|j: int|
                0 <= j < i ==> (#[trigger] out@[j]).0 == pack.blobs@[j].digest && Some(out@[j].1@)
                    == base64_bytes(pack.blobs@[j].data@) && blake3_of(out@[j].1@)
                    == out@[j].0.0@,
        decreases pack.blobs.len() - i,
    {
        let o = &pack.blobs[i];
        let bytes = match base64_decode(o.data.as_str()) {
            None => {
                return Err(
                    Error::Encoding { kind: "base64url", detail: "not a base64url text" },
                );
            },
            Some(b) => b,
        };
        let actual = crate::cas::Hash::of(bytes.as_slice());
        proof {
            base64_round_trip(bytes@);
            if actual.0@ == o.digest.0@ {
                array_extensional(actual.0, o.digest.0);
            }
        }
        if !actual.same(&o.digest) {
            return Err(Error::Invalid("capability object digest mismatch"));
        }
        out.push((o.digest, bytes));
        i += 1;
    }
    Ok(out)
}

/// The bytes of the manifest in a pack.
pub fn pack_manifest(pack: &CapabilityPack) -> (r: Result<Vec<u8>, Error>)
    ensures
        match r {
            Ok(b) => base64_bytes(pack.manifest_raw@) == Some(b@),
            Err(e) => base64_bytes(pack.manifest_raw@) is None && e == (Error::Encoding {
                kind: "base64url",
                detail: "not a base64url text",
            }),
        },
{
    match base64_decode(pack.manifest_raw.as_str()) {
        Some(b) => {
            proof {
                base64_round_trip(b@);
            }
            Ok(b)
        },
        None => Err(Error::Encoding { kind: "base64url", detail: "not a base64url text" }),
    }
}

/// What is wrong with a pack that was read, whose manifest reads as `read`.
pub open spec fn pack_fault(p: CapabilityPack, read: Result<RawManifest, Error>) -> Option<Error> {
    if p.spec@ != SPEC@ || p.pack_type@ != "capability-pack"@ {
        Some(Error::Invalid("invalid capability pack"))
    } else if base64_bytes(p.manifest_raw@) is None {
        Some(Error::Encoding { kind: "base64url", detail: "not a base64url text" })
    } else {
        match read {
            Err(e) => Some(e),
            Ok(raw) => if raw.id != p.snapshot_id {
                Some(Error::Invalid("capability snapshot id mismatch"))
            } else {
                blobs_fault(p.blobs@, 0)
            },
        }
    }
}

/// Accepts a pack: it is one, its manifest is that of the snapshot that it names, and each object
/// is what its digest says.
pub fn check_pack(pack: &CapabilityPack) -> (r: Result<RawManifest, Error>)
    ensures
        pack_checked(*pack, r),
{
    if !same_text(pack.spec.as_str(), SPEC) || !same_text(
        pack.pack_type.as_str(),
        "capability-pack",
    ) {
        return Err(Error::Invalid("invalid capability pack"));
    }
    let bytes = match pack_manifest(pack) {
        Err(e) => {
            return Err(e);
        },
        Ok(b) => b,
    };
    let read = RawManifest::parse(bytes);
    let ghost answer = read;
    assert(parsed(base64_bytes(pack.manifest_raw@)->0, answer));
    match read {
        Err(e) => Err(e),
        Ok(raw) => {
            if !raw.id.same(&pack.snapshot_id) {
                return Err(Error::Invalid("capability snapshot id mismatch"));
            }
            match pack_objects(pack) {
                Err(e) => Err(e),
                Ok(_) => Ok(raw),
            }
        },
    }
}

/// What checking a pack answers: its manifest, or what is wrong with it.
pub open spec fn pack_checked(pack: CapabilityPack, r: Result<RawManifest, Error>) -> bool {
    if pack.spec@ != SPEC@ || pack.pack_type@ != "capability-pack"@ || base64_bytes(
        pack.manifest_raw@,
    ) is None {
        r is Err && forall|read: Result<RawManifest, Error>| #[trigger]
            pack_fault(pack, read) == Some(r->Err_0)
    } else {
        exists|read: Result<RawManifest, Error>| #[trigger]
            parsed(base64_bytes(pack.manifest_raw@)->0, read) && match r {
                Err(e) => pack_fault(pack, read) == Some(e),
                Ok(raw) => pack_fault(pack, read) is None && read == Ok::<RawManifest, Error>(raw),
            }
    }
}

/// The value has no parts but these.
pub open spec fn only_keys(v: JsonV, a: Seq<char>, b: Seq<char>, c: Seq<char>, d: Seq<char>, e: Seq<char>) -> bool {
    v matches JsonV::Obj(m) ==> forall|i: int|
        0 <= i < m.len() ==> (#[trigger] m[i]).0 == a || m[i].0 == b || m[i].0 == c || m[i].0 == d
            || m[i].0 == e
}

fn has_only_keys(v: &Json, a: &str, b: &str, c: &str, d: &str, e: &str) -> (r: bool)
    ensures
        r == only_keys(v@, a@, b@, c@, d@, e@),
{
    match v {
        Json::Obj(t) => {
            let ghost m = member_views(t.entries@);
            let mut i: usize = 0;
            while i < t.entries.len()
                invariant
                    i <= t.entries@.len(),
                    m == member_views(t.entries@),
                    m.len() == t.entries@.len(),
                    v@ == JsonV::Obj(m),
                    forall|j: int|
                        0 <= j < i ==> (#[trigger] m[j]).0 == a@ || m[j].0 == b@ || m[j].0 == c@
                            || m[j].0 == d@ || m[j].0 == e@,
                decreases t.entries.len() - i,
            {
                assert(m[i as int].0 == t.entries@[i as int].0@);
                let k = t.entries[i].0.as_str();
                if !(same_text(k, a) || same_text(k, b) || same_text(k, c) || same_text(k, d)
                    || same_text(k, e)) {
                    assert(v@->Obj_0[i as int].0 == k@);
                    return false;
                }
                i += 1;
            }
            true
        },
        _ => true,
    }
}

/// An object of a link is read from a value.
pub open spec fn blob_read(v: JsonV, b: PackBlob) -> bool {
    &&& not_longer(v, 2)
    &&& only_keys(v, "digest"@, "data"@, "data"@, "data"@, "data"@)
    &&& bytes_in(slot(v, "digest"@, 0)) == Some(b.digest.0@)
    &&& text_in(slot(v, "data"@, 1)) == Some(b.data@)
}

/// The objects of a link are read from a value.
pub open spec fn blobs_read(v: Option<JsonV>, s: Seq<PackBlob>) -> bool {
    v matches Some(JsonV::Arr(a)) && a.len() == s.len() && forall|i: int|
        0 <= i < s.len() ==> blob_read(a[i], #[trigger] s[i])
}

/// What a link holds is read from a value.
pub open spec fn pack_read(v: JsonV, p: CapabilityPack) -> bool {
    &&& not_longer(v, 5)
    &&& only_keys(v, "spec"@, "type"@, "snapshot_id"@, "manifest_raw"@, "blobs"@)
    &&& text_in(slot(v, "spec"@, 0)) == Some(p.spec@)
    &&& text_in(slot(v, "type"@, 1)) == Some(p.pack_type@)
    &&& bytes_in(slot(v, "snapshot_id"@, 2)) == Some(p.snapshot_id.0@)
    &&& text_in(slot(v, "manifest_raw"@, 3)) == Some(p.manifest_raw@)
    &&& blobs_read(slot(v, "blobs"@, 4), p.blobs@)
}

fn read_blob(v: &Json) -> (r: Option<PackBlob>)
    ensures
        match r {
            Some(b) => blob_read(v@, b),
            None => forall|b: PackBlob| !blob_read(v@, b),
        },
{
    if !is_record(v, 2) || !has_only_keys(v, "digest", "data", "data", "data", "data") {
        return None;
    }
    let digest = read_bytes(take_slot(v, "digest", 0));
    let data = read_text(take_slot(v, "data", 1));
    match (digest, data) {
        (Some(d), Some(data)) => Some(PackBlob { digest: crate::cas::Hash(d), data }),
        _ => None,
    }
}

fn read_blobs(v: Option<&Json>) -> (r: Option<Vec<PackBlob>>)
    ensures
        match r {
            Some(s) => blobs_read(opt_view(v), s@),
            None => forall|s: Seq<PackBlob>| !blobs_read(opt_view(v), s),
        },
{
    match v {
        Some(Json::Arr(a)) => {
            let ghost w = json_views(a@);
            let mut out: Vec<PackBlob> = Vec::new();
            let mut i: usize = 0;
            while i < a.len()
                invariant
                    i <= a@.len(),
                    w == json_views(a@),
                    w.len() == a@.len(),
                    opt_view(v) == Some(JsonV::Arr(w)),
                    out@.len() == i,
                    forall|j: int| 0 <= j < i ==> blob_read(w[j], #[trigger] out@[j]),
                decreases a.len() - i,
            {
                assert(w[i as int] == a@[i as int]@);
                match read_blob(&a[i]) {
                    Some(b) => {
                        out.push(b);
                    },
                    None => {
                        assert forall|s: Seq<PackBlob>| !blobs_read(opt_view(v), s) by {
                            if blobs_read(opt_view(v), s) {
                                assert(blob_read(w[i as int], s[i as int]));
                            }
                        }
                        return None;
                    },
                }
                i += 1;
            }
            Some(out)
        },
        _ => None,
    }
}

impl CapabilityPack {
    /// Reads what a link holds; nothing where the value has not that form.
    pub fn from_json(v: &Json) -> (r: Option<CapabilityPack>)
        ensures
            match r {
                Some(p) => pack_read(v@, p),
                None => forall|p: CapabilityPack| !pack_read(v@, p),
            },
    {
        if !is_record(v, 5) || !has_only_keys(
            v,
            "spec",
            "type",
            "snapshot_id",
            "manifest_raw",
            "blobs",
        ) {
            return None;
        }
        let blobs = match read_blobs(take_slot(v, "blobs", 4)) {
            None => {
                return None;
            },
            Some(b) => b,
        };
        let spec = read_text(take_slot(v, "spec", 0));
        let pack_type = read_text(take_slot(v, "type", 1));
        let snapshot_id = read_bytes(take_slot(v, "snapshot_id", 2));
        let manifest_raw = read_text(take_slot(v, "manifest_raw", 3));
        match (spec, pack_type, snapshot_id, manifest_raw) {
            (Some(spec), Some(pack_type), Some(id), Some(manifest_raw)) => Some(
                CapabilityPack {
                    spec,
                    pack_type,
                    snapshot_id: crate::cas::Hash(id),
                    manifest_raw,
                    blobs,
                },
            ),
            _ => None,
        }
    }
}

/// What comes of the bytes of a link once it was decrypted.
pub open spec fn pack_opened(plaintext: Seq<u8>, r: Result<CapabilityPack, Error>) -> bool {
    match json_of(plaintext) {
        None => r == Err::<CapabilityPack, Error>(Error::Json),
        Some(v) => (r == Err::<CapabilityPack, Error>(Error::Json) && forall|p: CapabilityPack|
            !pack_read(v, p)) || (exists|p: CapabilityPack, answer: Result<RawManifest, Error>|
            {
                &&& #[trigger] pack_read(v, p)
                &&& #[trigger] pack_checked(p, answer)
                &&& match answer {
                    Ok(raw) => r == Ok::<CapabilityPack, Error>(p),
                    Err(e) => r == Err::<CapabilityPack, Error>(e),
                }
            }),
    }
}

/// A pack in order: its manifest is one that nothing is wrong with and has the id that the pack
/// names, and its objects have their digests.
pub open spec fn is_sound(p: CapabilityPack) -> bool {
    &&& p.spec@ == SPEC@
    &&& p.pack_type@ == "capability-pack"@
    &&& base64_bytes(p.manifest_raw@) matches Some(b) && blake3_of(b) == p.snapshot_id.0@ && (
    exists|m: Manifest| #[trigger] is_canonical_manifest(b, m))
    &&& blobs_fault(p.blobs@, 0) is None
}

proof fn pack_keys()
    ensures
        "blobs"@.len() == 5 && "blobs"@[0] == 'b',
        "manifest_raw"@.len() == 12 && "manifest_raw"@[0] == 'm',
        "snapshot_id"@.len() == 11 && "snapshot_id"@[0] == 's' && "snapshot_id"@[1] == 'n',
        "spec"@.len() == 4 && "spec"@[0] == 's' && "spec"@[1] == 'p',
        "type"@.len() == 4 && "type"@[0] == 't',
        "data"@.len() == 4 && "data"@[0] == 'd' && "data"@[1] == 'a',
        "digest"@.len() == 6 && "digest"@[0] == 'd' && "digest"@[1] == 'i',
{
    reveal_strlit("blobs");
    reveal_strlit("manifest_raw");
    reveal_strlit("snapshot_id");
    reveal_strlit("spec");
    reveal_strlit("type");
    reveal_strlit("data");
    reveal_strlit("digest");
}

proof fn pack_in_order(p: CapabilityPack)
    ensures
        orderly(pack_json(p)),
        value_fault(pack_json(p)) is None,
        nesting(pack_json(p)) <= 127,
{
    pack_keys();
    pack_plain(p);
    crate::record::plain_no_fault(pack_json(p), false, true);
    letter_before("blobs"@, "manifest_raw"@, 0);
    letter_before("blobs"@, "snapshot_id"@, 0);
    letter_before("blobs"@, "spec"@, 0);
    letter_before("blobs"@, "type"@, 0);
    letter_before("manifest_raw"@, "snapshot_id"@, 0);
    letter_before("manifest_raw"@, "spec"@, 0);
    letter_before("manifest_raw"@, "type"@, 0);
    letter_before("snapshot_id"@, "spec"@, 1);
    letter_before("snapshot_id"@, "type"@, 0);
    letter_before("spec"@, "type"@, 0);
    letter_before("data"@, "digest"@, 1);
    let a = Seq::new(p.blobs@.len(), |i: int| pack_blob_json(p.blobs@[i]));
    reveal_with_fuel(orderly, 4);
    reveal_with_fuel(nesting, 4);
    reveal_with_fuel(deepest_member, 7);
    assert forall|i: int| 0 <= i < a.len() implies orderly(#[trigger] a[i]) && nesting(a[i]) <= 1 by {
        assert(a[i] == pack_blob_json(p.blobs@[i]));
        let m = a[i]->Obj_0;
        assert(m[0].0 == "data"@ && m[1].0 == "digest"@);
        assert(m.subrange(0, 1).subrange(0, 0) =~= Seq::empty());
        assert(m.subrange(0, 1)[0] == m[0]);
    }
    list_nesting(a, 1);
    let m = pack_json(p)->Obj_0;
    assert(m[0].1 == JsonV::Arr(a));
    let m4 = m.subrange(0, 4);
    let m3 = m4.subrange(0, 3);
    let m2 = m3.subrange(0, 2);
    let m1 = m2.subrange(0, 1);
    assert(m4[3] == m[3] && m3[2] == m[2] && m2[1] == m[1] && m1[0] == m[0]);
    assert(m1.subrange(0, 0) =~= Seq::empty());
    assert(deepest_member(m1) <= 2);
    assert(deepest_member(m2) <= 2);
    assert(deepest_member(m3) <= 2);
    assert(deepest_member(m4) <= 2);
    assert(deepest_member(m) <= 2);
}

/// What is written of a pack reads as that pack.
pub proof fn written_pack_reads_back(p: CapabilityPack)
    ensures
        pack_read(pack_json(p), p),
{
    pack_keys();
    let m = pack_json(p)->Obj_0;
    member_at_unique(m, "blobs"@, 0);
    member_at_unique(m, "manifest_raw"@, 1);
    member_at_unique(m, "snapshot_id"@, 2);
    member_at_unique(m, "spec"@, 3);
    member_at_unique(m, "type"@, 4);
    hex_round_trip(p.snapshot_id.0@, "hash");
    let a = m[0].1->Arr_0;
    assert forall|i: int| 0 <= i < p.blobs@.len() implies blob_read(a[i], #[trigger] p.blobs@[i]) by {
        let b = pack_blob_json(p.blobs@[i])->Obj_0;
        assert(a[i] == pack_blob_json(p.blobs@[i]));
        member_at_unique(b, "data"@, 0);
        member_at_unique(b, "digest"@, 1);
        hex_round_trip(p.blobs@[i].digest.0@, "hash");
    }
}

proof fn same_pack(v: JsonV, p: CapabilityPack, q: CapabilityPack)
    requires
        pack_read(v, p),
        pack_read(v, q),
    ensures
        pack_json(p) == pack_json(q),
        p.spec@ == q.spec@,
        p.pack_type@ == q.pack_type@,
        p.snapshot_id.0@ == q.snapshot_id.0@,
        p.manifest_raw@ == q.manifest_raw@,
        p.blobs@.len() == q.blobs@.len(),
        forall|i: int|
            0 <= i < p.blobs@.len() ==> (#[trigger] p.blobs@[i]).data@ == q.blobs@[i].data@
                && p.blobs@[i].digest.0@ == q.blobs@[i].digest.0@,
{
    let s = slot(v, "blobs"@, 4)->0->Arr_0;
    assert forall|i: int| 0 <= i < p.blobs@.len() implies (#[trigger] p.blobs@[i]).data@
        == q.blobs@[i].data@ && p.blobs@[i].digest.0@ == q.blobs@[i].digest.0@ by {
        assert(blob_read(s[i], p.blobs@[i]));
        assert(blob_read(s[i], q.blobs@[i]));
    }
    assert(Seq::new(p.blobs@.len(), |i: int| pack_blob_json(p.blobs@[i])) =~= Seq::new(
        q.blobs@.len(),
        |i: int| pack_blob_json(q.blobs@[i]),
    ));
}

proof fn same_blobs_fault(a: Seq<PackBlob>, b: Seq<PackBlob>, i: int)
    requires
        0 <= i <= a.len() == b.len(),
        forall|j: int|
            0 <= j < a.len() ==> (#[trigger] a[j]).data@ == b[j].data@ && a[j].digest.0@
                == b[j].digest.0@,
    ensures
        blobs_fault(a, i) == blobs_fault(b, i),
    decreases a.len() - i,
{
    if i < a.len() {
        assert(a[i].data@ == b[i].data@);
        same_blobs_fault(a, b, i + 1);
    }
}

proof fn sound_pack_is_accepted(p: CapabilityPack, q: CapabilityPack, answer: Result<RawManifest, Error>)
    requires
        is_sound(p),
        pack_checked(q, answer),
        p.spec@ == q.spec@,
        p.pack_type@ == q.pack_type@,
        p.snapshot_id.0@ == q.snapshot_id.0@,
        p.manifest_raw@ == q.manifest_raw@,
        p.blobs@.len() == q.blobs@.len(),
        forall|i: int|
            0 <= i < p.blobs@.len() ==> (#[trigger] p.blobs@[i]).data@ == q.blobs@[i].data@
                && p.blobs@[i].digest.0@ == q.blobs@[i].digest.0@,
    ensures
        answer is Ok,
{
    same_blobs_fault(p.blobs@, q.blobs@, 0);
    let b = base64_bytes(q.manifest_raw@)->0;
    let m = choose|m: Manifest| #[trigger] is_canonical_manifest(b, m);
    assert(is_canonical_manifest(b, m));
    let read = choose|read: Result<RawManifest, Error>| #[trigger]
        parsed(b, read) && match answer {
            Err(e) => pack_fault(q, read) == Some(e),
            Ok(raw) => pack_fault(q, read) is None && read == Ok::<RawManifest, Error>(raw),
        };
    assert(read is Ok);
    array_extensional(read->Ok_0.id.0, q.snapshot_id.0);
}

/// Opens a link: decrypts it, reads what it holds, and accepts it where it is in order.
pub fn open(blob: &[u8], key: &[u8; 32], now_ms: u64) -> (r: Result<CapabilityPack, Error>)
    ensures
        match link_fault(blob@, now_ms) {
            Some(e) => r == Err::<CapabilityPack, Error>(e),
            None => if forall|m: Seq<u8>| !#[trigger] opens(blob@, key@, m) {
                r == Err::<CapabilityPack, Error>(
                    Error::Invalid("wrong capability key or damaged blob"),
                )
            } else {
                exists|m: Seq<u8>| #[trigger] opens(blob@, key@, m) && pack_opened(m, r)
            },
        },
        forall|p: CapabilityPack|
            link_fault(blob@, now_ms) is None && #[trigger] opens(
                blob@,
                key@,
                json_bytes(pack_json(p)),
            ) && is_sound(p) ==> r is Ok && pack_json(r->Ok_0) == pack_json(p),
{
    let plaintext = match open_link(blob, key, now_ms) {
        Err(e) => {
            return Err(e);
        },
        Ok(m) => m,
    };
    let ghost m = plaintext@;
    assert(opens(blob@, key@, m));
    let v = match parse_json(plaintext.as_slice()) {
        None => {
            assert forall|p: CapabilityPack| #[trigger]
                opens(blob@, key@, json_bytes(pack_json(p))) implies false by {
                pack_in_order(p);
                assert(json_bytes(pack_json(p)) == plaintext@);
            }
            return Err(Error::Json);
        },
        Some(v) => v,
    };
    let pack = match CapabilityPack::from_json(&v) {
        None => {
            assert forall|p: CapabilityPack| #[trigger]
                opens(blob@, key@, json_bytes(pack_json(p))) implies false by {
                pack_in_order(p);
                assert(json_bytes(pack_json(p)) == plaintext@);
                written_pack_reads_back(p);
            }
            return Err(Error::Json);
        },
        Some(p) => p,
    };
    let answer = check_pack(&pack);
    assert(pack_read(v@, pack));
    assert(pack_checked(pack, answer));
    proof {
        assert forall|p: CapabilityPack| #[trigger]
            opens(blob@, key@, json_bytes(pack_json(p))) && is_sound(p) implies answer is Ok
            && pack_json(pack) == pack_json(p) by {
            pack_in_order(p);
            assert(json_bytes(pack_json(p)) == plaintext@);
            assert(v@ == pack_json(p));
            written_pack_reads_back(p);
            same_pack(v@, p, pack);
            sound_pack_is_accepted(p, pack, answer);
        }
    }
    match answer {
        Err(e) => Err(e),
        Ok(_) => Ok(pack),
    }
}

/// A new record of a link.
pub open spec fn new_record(
    r: MintRecord,
    raw: RawManifest,
    link_id: Seq<u8>,
    expires_at: String,
    mode: LinkMode,
    url: String,
    identity: Identity,
) -> bool {
    &&& r.link_id@ == hex_text(link_id)
    &&& r.snapshot_id == raw.id
    &&& r.expires_at == expires_at
    &&& r.mode == mode
    &&& r.url == url
    &&& !r.revoked
    &&& r.ciphertext_hash is None
    &&& r.local_path is None
    &&& r.revoke_command is None
    &&& signed_record(identity, "cap-mint"@, mint_members(r, None), r.sig)
}

/// The size of a link that is too large, or nothing.
pub open spec fn mint_fault(raw: RawManifest, objects: Seq<(Digest, Vec<u8>)>, plaintext: int) -> Option<
    Error,
> {
    match link_size(base64_size(raw.bytes@.len() as int), objects) {
        Err(e) => Some(e),
        Ok(n) => if plaintext > crate::crypto::GCM_MAX {
            Some(Error::Invalid("capability encryption failed"))
        } else if 37 + plaintext + 16 > MAX_CAPABILITY_BYTES {
            Some(Error::Invalid("sealed capability bundle exceeds 64 MiB limit"))
        } else {
            None
        },
    }
}

/// Makes a link of a snapshot and the objects that go with it, with given randomness.
pub fn mint_with(
    raw: &RawManifest,
    objects: &Vec<(Digest, Vec<u8>)>,
    expires_ms: u64,
    expires_at: String,
    mode: LinkMode,
    public_url: String,
    identity: &Identity,
    key: [u8; 32],
    nonce: [u8; 12],
    link_id: [u8; 16],
) -> (r: Result<MintedLink, Error>)
    ensures
        match r {
            Err(e) => link_size(base64_size(raw.bytes@.len() as int), objects@) == Err::<
                int,
                Error,
            >(e) || exists|p: CapabilityPack| #[trigger]
                packs(p, *raw, objects@) && mint_fault(
                    *raw,
                    objects@,
                    json_bytes(pack_json(p)).len() as int,
                ) == Some(e),
            Ok(m) => {
                &&& m.key == key
                &&& new_record(m.record, *raw, link_id@, expires_at, mode, public_url, *identity)
                &&& exists|p: CapabilityPack| #[trigger]
                    packs(p, *raw, objects@) && is_link(
                        m.blob@,
                        key@,
                        nonce@,
                        expires_ms,
                        json_bytes(pack_json(p)),
                    ) && mint_fault(
                        *raw,
                        objects@,
                        json_bytes(pack_json(p)).len() as int,
                    ) is None
                &&& link_size(base64_size(raw.bytes@.len() as int), objects@) is Ok
            },
        },
{
    let pack = match pack_snapshot(raw, objects) {
        Err(e) => {
            return Err(e);
        },
        Ok(p) => p,
    };
    let value = pack.to_json();
    proof {
        pack_plain(pack);
    }
    let plaintext = plain_bytes(&value);
    assert(packs(pack, *raw, objects@));
    let blob = match seal_link(plaintext.as_slice(), &key, &nonce, expires_ms) {
        Err(e) => {
            return Err(e);
        },
        Ok(b) => b,
    };
    let mut record = MintRecord {
        link_id: hex_encode(link_id.as_slice()),
        snapshot_id: raw.id,
        expires_at,
        mode,
        url: public_url,
        revoked: false,
        ciphertext_hash: None,
        local_path: None,
        revoke_command: None,
        sig: Signature::from_bytes([0u8; 64]),
    };
    let ghost before = record;
    record.resign(identity);
    assert(mint_members(record, None) =~= mint_members(before, None));
    Ok(MintedLink { record, key, blob })
}

/// Makes a link of a snapshot and the objects that go with it, under a key of its own.
pub fn mint(
    raw: &RawManifest,
    objects: &Vec<(Digest, Vec<u8>)>,
    expires_ms: u64,
    expires_at: String,
    mode: LinkMode,
    public_url: String,
    identity: &Identity,
) -> (r: Result<MintedLink, Error>)
    ensures
        match r {
            Err(e) => link_size(base64_size(raw.bytes@.len() as int), objects@) == Err::<
                int,
                Error,
            >(e) || exists|p: CapabilityPack| #[trigger]
                packs(p, *raw, objects@) && mint_fault(
                    *raw,
                    objects@,
                    json_bytes(pack_json(p)).len() as int,
                ) == Some(e),
            Ok(m) => {
                &&& exists|link_id: [u8; 16]| #[trigger]
                    new_record(m.record, *raw, link_id@, expires_at, mode, public_url, *identity)
                &&& exists|p: CapabilityPack, nonce: [u8; 12]|
                    packs(p, *raw, objects@) && #[trigger] is_link(
                        m.blob@,
                        m.key@,
                        nonce@,
                        expires_ms,
                        json_bytes(pack_json(p)),
                    ) && mint_fault(
                        *raw,
                        objects@,
                        json_bytes(pack_json(p)).len() as int,
                    ) is None
                &&& link_size(base64_size(raw.bytes@.len() as int), objects@) is Ok
            },
        },
{
    let key = random_bytes::<32>();
    let nonce = random_bytes::<12>();
    let link_id = random_bytes::<16>();
    mint_with(
        raw,
        objects,
        expires_ms,
        expires_at,
        mode,
        public_url,
        identity,
        key,
        nonce,
        link_id,
    )
}

/// A link opens, under its key and until it expires, to what was put into it and to nothing else.
pub proof fn link_round_trip(
    blob: Seq<u8>,
    key: Seq<u8>,
    nonce: Seq<u8>,
    expires: u64,
    plaintext: Seq<u8>,
    now: u64,
)
    requires
        is_link(blob, key, nonce, expires, plaintext),
        nonce.len() == 12,
    ensures
        now <= expires ==> link_fault(blob, now) is None,
        now > expires ==> link_fault(blob, now) == Some(Error::Invalid("capability link expired")),
        opens(blob, key, plaintext),
{
    let aad = link_aad(nonce, expires);
    let c = choose|c: Seq<u8>| #[trigger]
        is_sealed(key, nonce, aad, c, plaintext) && blob == aad + be_bytes(c.len(), 8) + c && 37
            + c.len() <= MAX_CAPABILITY_BYTES && c.len() == plaintext.len() + 16;
    machine_limits();
    magic_lengths();
    be_round_trip(expires as nat, 8);
    be_round_trip(c.len(), 8);
    assert(aad.len() == 29);
    assert(blob.len() == 37 + c.len());
    assert(blob.take(8) =~= encode_utf8(MAGIC@));
    assert(blob[7] == encode_utf8(MAGIC@)[7]);
    assert(!has_prefix(blob, encode_utf8(REVOKED_MAGIC@))) by {
        if has_prefix(blob, encode_utf8(REVOKED_MAGIC@)) {
            assert(blob.take(8)[7] == encode_utf8(REVOKED_MAGIC@)[7]);
        }
    }
    assert(blob[8] == ALG_AES_256_GCM);
    assert(blob.subrange(21, 29) =~= be_bytes(expires as nat, 8));
    assert(blob.subrange(29, 37) =~= be_bytes(c.len(), 8));
    assert(blob.subrange(9, 21) =~= nonce);
    assert(blob.take(29) =~= aad);
    assert(blob.skip(37) =~= c);
}

/// What was packed is in order, where nothing is wrong with the manifest and the objects have the
/// digests of their bytes; so a link that was made opens to what it was made of.
pub proof fn minted_pack_is_sound(p: CapabilityPack, raw: RawManifest, objects: Seq<(Digest, Vec<u8>)>)
    requires
        packs(p, raw, objects),
        is_canonical_manifest(raw.bytes@, raw.manifest),
        raw.id.0@ == blake3_of(raw.bytes@),
        forall|i: int|
            0 <= i < objects.len() ==> blake3_of((#[trigger] objects[i]).1@) == objects[i].0.0@,
    ensures
        is_sound(p),
        base64_bytes(p.manifest_raw@) == Some(raw.bytes@),
        forall|i: int|
            0 <= i < objects.len() ==> base64_bytes((#[trigger] p.blobs@[i]).data@) == Some(
                objects[i].1@,
            ),
{
    base64_round_trip(raw.bytes@);
    assert forall|i: int| 0 <= i < objects.len() implies base64_bytes(
        (#[trigger] p.blobs@[i]).data@,
    ) == Some(objects[i].1@) by {
        base64_round_trip(objects[i].1@);
    }
    true_blobs(p.blobs@, objects, 0);
}

proof fn true_blobs(s: Seq<PackBlob>, objects: Seq<(Digest, Vec<u8>)>, i: int)
    requires
        0 <= i <= s.len() == objects.len(),
        forall|j: int|
            0 <= j < objects.len() ==> (#[trigger] s[j]).digest == objects[j].0 && base64_bytes(
                s[j].data@,
            ) == Some(objects[j].1@),
        forall|j: int|
            0 <= j < objects.len() ==> blake3_of((#[trigger] objects[j]).1@) == objects[j].0.0@,
    ensures
        blobs_fault(s, i) is None,
    decreases s.len() - i,
{
    if i < s.len() {
        true_blobs(s, objects, i + 1);
        assert(s[i].digest == objects[i].0);
        assert(blake3_of(objects[i].1@) == objects[i].0.0@);
    }
}

/// What stands in place of a link that was taken back opens for nobody.
pub proof fn revoked_link_opens_for_nobody(now: u64)
    ensures
        link_fault(encode_utf8(REVOKED_MAGIC@), now) == Some(
            Error::Invalid("capability link was revoked"),
        ),
{
    magic_lengths();
    let m = encode_utf8(REVOKED_MAGIC@);
    assert(m.take(m.len() as int) =~= m);
}

/// A record stands before another by the ids of their links.
pub open spec fn record_before(a: MintRecord, b: MintRecord) -> bool {
    crate::order::lex_before(char_rank(a.link_id@), char_rank(b.link_id@))
}

/// Records in order with one more: behind all that it does not stand before.
pub open spec fn record_placed(s: Seq<MintRecord>, x: MintRecord) -> Seq<MintRecord>
    decreases s.len(),
{
    if s.len() == 0 || !record_before(x, s.last()) {
        s.push(x)
    } else {
        record_placed(s.drop_last(), x).push(s.last())
    }
}

/// Records by the ids of their links.
pub open spec fn records_in_order(s: Seq<MintRecord>) -> Seq<MintRecord>
    decreases s.len(),
{
    if s.len() == 0 {
        Seq::empty()
    } else {
        record_placed(records_in_order(s.drop_last()), s.last())
    }
}

fn place_record(out: &mut Vec<MintRecord>, x: MintRecord)
    ensures
        final(out)@ == record_placed(old(out)@, x),
{
    let ghost s = out@;
    let mut i: usize = out.len();
    proof {
        assert(s.take(s.len() as int) =~= s);
        assert(record_placed(s, x) =~= record_placed(s.take(i as int), x) + s.skip(i as int));
    }
    while i > 0 && comes_before(&x, &out[i - 1])
        invariant
            i <= out@.len(),
            out@ == s,
            record_placed(s, x) == record_placed(s.take(i as int), x) + s.skip(i as int),
        decreases i,
    {
        proof {
            let a = s.take(i as int);
            assert(a.drop_last() =~= s.take(i - 1));
            assert(a.last() == s[i - 1]);
            assert(record_placed(s.take(i - 1), x).push(s[i - 1]) + s.skip(i as int)
                =~= record_placed(s.take(i - 1), x) + s.skip(i - 1));
        }
        i -= 1;
    }
    proof {
        let a = s.take(i as int);
        if i > 0 {
            assert(a.last() == s[i - 1]);
        }
        assert(s.insert(i as int, x) =~= a.push(x) + s.skip(i as int));
    }
    out.insert(i, x);
}

fn comes_before(a: &MintRecord, b: &MintRecord) -> (r: bool)
    ensures
        r == record_before(*a, *b),
{
    proof {
        crate::order::lex_asymmetric(char_rank(a.link_id@), char_rank(b.link_id@));
        crate::order::lex_irreflexive(char_rank(a.link_id@));
    }
    match a.link_id.side(&b.link_id) {
        Side::Before => true,
        _ => false,
    }
}

/// The name and the bytes of the file of a record.
pub fn save_record(record: &MintRecord) -> (r: (String, Vec<u8>))
    ensures
        r.0@ == record.link_id@ + ".cjson"@,
        r.1@ == json_bytes(JsonV::Obj(mint_members(*record, Some(record.sig)))),
{
    let value = record.to_json(Some(record.sig));
    proof {
        mint_plain(*record, Some(record.sig));
    }
    (concat(record.link_id.as_str(), ".cjson"), plain_bytes(&value))
}

/// The first file of a record that is not canonical, or that this device did not sign.
pub open spec fn files_fault(s: Seq<(Vec<u8>, MintRecord)>, me: PeerId, i: int) -> Option<Error>
    decreases s.len() - i,
{
    if i < 0 || i >= s.len() {
        None
    } else {
        match canonical_of(s[i].0@) {
            Err(e) => Some(e),
            Ok(v) => match record_check(me, "cap-mint"@, mint_members(s[i].1, None), s[i].1.sig) {
                Err(e) => Some(e),
                Ok(()) => files_fault(s, me, i + 1),
            },
        }
    }
}

/// The records in files.
pub open spec fn records_of(s: Seq<(Vec<u8>, MintRecord)>) -> Seq<MintRecord> {
    Seq::new(s.len(), |i: int| s[i].1)
}

/// The records of this device, by the ids of their links, from the bytes of their files and what
/// those read as.
pub fn list_records(files: Vec<(Vec<u8>, MintRecord)>, identity: &Identity) -> (r: Result<
    Vec<MintRecord>,
    Error,
>)
    ensures
        exists|me: PeerId|
            {
                &&& me.0@ == identity.peer()
                &&& match r {
                    Err(e) => #[trigger] files_fault(files@, me, 0) == Some(e),
                    Ok(v) => files_fault(files@, me, 0) is None && v@ == records_in_order(
                        records_of(files@),
                    ),
                }
            },
{
    let me = identity.peer_id();
    let ghost all = files@;
    let mut rest = files;
    let mut out: Vec<MintRecord> = Vec::new();
    let ghost mut n: int = 0;
    assert(all.skip(0) =~= all);
    assert(records_of(all).take(0) =~= Seq::<MintRecord>::empty());
    while rest.len() > 0
        invariant
            0 <= n <= all.len(),
            all == files@,
            me.0@ == identity.peer(),
            rest@ == all.skip(n),
            files_fault(all, me, 0) == files_fault(all, me, n),
            out@ == records_in_order(records_of(all).take(n)),
        decreases rest.len(),
    {
        let (bytes, record) = rest.remove(0);
        proof {
            assert((bytes, record) == all[n]);
            assert(rest@ =~= all.skip(n + 1));
            assert(records_of(all).take(n + 1).drop_last() =~= records_of(all).take(n));
            assert(records_of(all).take(n + 1).last() == record);
        }
        match validate_canonical(bytes.as_slice()) {
            Err(e) => {
                assert(files_fault(all, me, 0) == Some(e));
                return Err(e);
            },
            Ok(_) => {},
        }
        let value = record.to_json(None);
        match check_record(&me, "cap-mint", &value, &record.sig) {
            Err(e) => {
                assert(files_fault(all, me, 0) == Some(e));
                return Err(e);
            },
            Ok(()) => {},
        }
        proof {
            n = n + 1;
        }
        place_record(&mut out, record);
    }
    proof {
        assert(all.skip(n).len() == 0);
        assert(records_of(all).take(n) =~= records_of(all));
        assert(files_fault(all, me, 0) is None);
    }
    Ok(out)
}

/// The first record of a link, from `i` on.
pub open spec fn record_at(s: Seq<MintRecord>, id: Seq<char>, i: int) -> int
    decreases s.len() - i,
{
    if i < 0 || i >= s.len() {
        s.len() as int
    } else if s[i].link_id@ == id {
        i
    } else {
        record_at(s, id, i + 1)
    }
}

/// Takes a link back: its record says so from now on, under a new signature.
pub fn revoke_record(records: Vec<MintRecord>, id: &str, identity: &Identity) -> (r: Result<
    MintRecord,
    Error,
>)
    ensures
        ({
            let at = record_at(records@, id@, 0);
            match r {
                Err(e) => at == records@.len() && (e matches Error::NotFound { kind, id: name }
                    && kind == "capability link" && name@ == id@),
                Ok(x) => {
                    &&& 0 <= at < records@.len()
                    &&& x == (MintRecord { revoked: true, sig: x.sig, ..records@[at] })
                    &&& signed_record(*identity, "cap-mint"@, mint_members(x, None), x.sig)
                },
            }
        }),
{
    let mut rest = records;
    let ghost all = records@;
    let mut i: usize = 0;
    while i < rest.len()
        invariant
            rest@ == all,
            all == records@,
            i <= all.len(),
            record_at(all, id@, 0) == record_at(all, id@, i as int),
        decreases rest.len() - i,
    {
        if same_text(rest[i].link_id.as_str(), id) {
            let mut x = rest.remove(i);
            x.revoked = true;
            let ghost before = x;
            x.resign(identity);
            assert(mint_members(x, None) =~= mint_members(before, None));
            return Ok(x);
        }
        i += 1;
    }
    Err(Error::NotFound { kind: "capability link", id: id.to_owned() })
}

/// The file that holds the blob of a link, where this device knows one.
pub fn revoked_file(record: &MintRecord) -> (r: Option<String>)
    ensures
        match r {
            Some(p) => match record.local_path {
                Some(l) => p@ == l@,
                None => record.url@ == "file://"@ + p@,
            },
            None => record.local_path is None && !has_prefix(record.url@, "file://"@),
        },
{
    match &record.local_path {
        Some(p) => Some(p.clone()),
        None => match strip_prefix(record.url.as_str(), "file://") {
            Some(p) => {
                proof {
                    let prefix = "file://"@;
                    assert(record.url@ =~= record.url@.take(prefix.len() as int)
                        + record.url@.skip(prefix.len() as int));
                }
                Some(p)
            },
            None => None,
        },
    }
}

/// A link within bounds holds no object of over 32 MiB.
proof fn linked_objects_are_bounded(start: int, s: Seq<(Digest, Vec<u8>)>)
    ensures
        link_size(start, s) matches Ok(n) ==> forall|i: int|
            0 <= i < s.len() ==> (#[trigger] s[i]).1@.len() <= 33_554_432,
        link_size(start, s) matches Ok(n) ==> s.len() > 0 ==> n <= 67_108_864 - 53,
    decreases s.len(),
{
    if s.len() > 0 {
        let rest = s.drop_last();
        linked_objects_are_bounded(start, rest);
        assert(forall|i: int| 0 <= i < rest.len() ==> #[trigger] s[i] == rest[i]);
    }
}

/// A link that can be made holds no object of over 32 MiB and is not over 64 MiB, with the header
/// in front and the tag behind.
pub proof fn links_are_bounded(raw: RawManifest, objects: Seq<(Digest, Vec<u8>)>, plaintext: int)
    requires
        mint_fault(raw, objects, plaintext) is None,
    ensures
        37 + plaintext + 16 <= 67_108_864,
        forall|i: int| 0 <= i < objects.len() ==> (#[trigger] objects[i]).1@.len() <= 33_554_432,
{
    linked_objects_are_bounded(base64_size(raw.bytes@.len() as int), objects);
}

} // verus!
