//! Capsules: the history of one continuing thing, who may drive it, and its labels.
use vstd::prelude::*;

use crate::canonical::{canonical_bytes, to_vec};
use crate::cas::{blake3_of, Digest};
use crate::error::Error;
use crate::identity::{random_bytes, signature_check, signature_of, Identity, PeerId, Signature};
use crate::json::{Json, JsonV};
use crate::manifest::{nat_json, nat_value};
use crate::number::number;
use crate::record::{Fields, Members};
use crate::text::same_text;
use crate::util::hex_text;

verus! {

/// The version of the records of a capsule.
pub const SPEC: &'static str = "0.1";

/// The shortest lease.
pub const LEASE_TTL_MIN_MS: u64 = 60_000;

/// The usual length of a lease.
pub const LEASE_TTL_DEFAULT_MS: u64 = 86_400_000;

/// The longest lease.
pub const LEASE_TTL_MAX_MS: u64 = 604_800_000;

/// The most labels that a capsule has.
pub const MAX_LABELS: usize = 128;

/// The most fork labels that one peer sets.
pub const MAX_FORK_LABELS: u32 = 32;

/// The id of a capsule.
pub type CapsuleId = Digest;

/// An id that no other capsule has. What it is depends on the system's randomness alone.
pub fn random_capsule_id() -> CapsuleId {
    crate::cas::Hash(random_bytes::<32>())
}

/// The signature as a member.
pub open spec fn signature_member(sig: Option<Signature>) -> Members {
    match sig {
        Some(s) => seq![("sig"@, JsonV::Str(hex_text(s.0@)))],
        None => Seq::empty(),
    }
}

pub(crate) fn put_signature(f: &mut Fields, sig: Option<Signature>)
    ensures
        final(f).so_far() == old(f).so_far() + signature_member(sig),
{
    let ghost before = f.so_far();
    match sig {
        Some(s) => {
            f.put_str("sig", s.to_hex().as_str());
        },
        None => {},
    }
    assert(f.so_far() =~= before + signature_member(sig));
}

/// What a signature over a record answers, where the record has canonical bytes at all.
pub open spec fn record_check(
    peer: PeerId,
    domain: Seq<char>,
    unsigned: Members,
    sig: Signature,
) -> Result<(), Error> {
    match canonical_bytes(JsonV::Obj(unsigned)) {
        Err(e) => Err(e),
        Ok(b) => signature_check(peer, domain, b, sig),
    }
}

pub(crate) fn check_record(peer: &PeerId, domain: &str, unsigned: &Json, sig: &Signature) -> (r: Result<
    (),
    Error,
>)
    requires
        unsigned@ is Obj,
    ensures
        r == record_check(*peer, domain@, unsigned@->Obj_0, *sig),
{
    match to_vec(unsigned) {
        Ok(b) => peer.verify(domain, b.as_slice(), sig),
        Err(e) => Err(e),
    }
}

/// What the hash of a record is, where it has canonical bytes at all.
pub open spec fn record_hash(members: Members) -> Result<Seq<u8>, Error> {
    match canonical_bytes(JsonV::Obj(members)) {
        Err(e) => Err(e),
        Ok(b) => Ok(blake3_of(b)),
    }
}

fn hash_record(record: &Json) -> (r: Result<Digest, Error>)
    requires
        record@ is Obj,
    ensures
        r matches Ok(h) ==> record_hash(record@->Obj_0) == Ok::<Seq<u8>, Error>(h.0@),
        r matches Err(e) ==> record_hash(record@->Obj_0) == Err::<Seq<u8>, Error>(e),
{
    match to_vec(record) {
        Ok(b) => Ok(crate::cas::Hash::of(b.as_slice())),
        Err(e) => Err(e),
    }
}

/// The beginning of a capsule.
#[derive(Debug, PartialEq, Eq)]
pub struct Genesis {
    pub spec: String,
    pub record_type: String,
    pub capsule_id: CapsuleId,
    pub created_at: String,
    pub created_by: PeerId,
    pub kind: String,
    pub title: String,
    pub sig: Signature,
}

impl Clone for Genesis {
    fn clone(&self) -> (r: Self)
        ensures
            r == *self,
    {
        Genesis {
            spec: self.spec.clone(),
            record_type: self.record_type.clone(),
            capsule_id: self.capsule_id,
            created_at: self.created_at.clone(),
            created_by: self.created_by,
            kind: self.kind.clone(),
            title: self.title.clone(),
            sig: self.sig,
        }
    }
}

/// The members of a genesis, with or without its signature.
pub open spec fn genesis_members(g: Genesis, sig: Option<Signature>) -> Members {
    seq![
        ("capsule_id"@, JsonV::Str(hex_text(g.capsule_id.0@))),
        ("created_at"@, JsonV::Str(g.created_at@)),
        ("created_by"@, JsonV::Str(hex_text(g.created_by.0@))),
        ("kind"@, JsonV::Str(g.kind@)),
    ] + signature_member(sig) + seq![
        ("spec"@, JsonV::Str(g.spec@)),
        ("title"@, JsonV::Str(g.title@)),
        ("type"@, JsonV::Str(g.record_type@)),
    ]
}

/// The hash of a genesis.
pub open spec fn genesis_hash(g: Genesis) -> Result<Seq<u8>, Error> {
    record_hash(genesis_members(g, Some(g.sig)))
}

/// What `Genesis::verify` answers.
pub open spec fn genesis_check(g: Genesis) -> Result<(), Error> {
    if g.spec@ != SPEC@ || g.record_type@ != "capsule-genesis"@ {
        Err(Error::Invalid("invalid genesis schema"))
    } else {
        record_check(g.created_by, "genesis"@, genesis_members(g, None), g.sig)
    }
}

/// Strings only, so there are always canonical bytes.
pub(crate) proof fn genesis_has_bytes(g: Genesis, sig: Option<Signature>)
    ensures
        canonical_bytes(JsonV::Obj(genesis_members(g, sig))) is Ok,
{
    let m = genesis_members(g, sig);
    reveal_with_fuel(crate::record::plain, 2);
    assert forall|i: int| 0 <= i < m.len() implies crate::record::plain((#[trigger] m[i]).1) by {
        if i >= 4 && i < 4 + signature_member(sig).len() {
            assert(m[i] == signature_member(sig)[i - 4]);
        }
    }
    crate::record::plain_no_fault(JsonV::Obj(m), false, true);
}

impl Genesis {
    fn to_json(&self, sig: Option<Signature>) -> (r: Json)
        ensures
            r@ == JsonV::Obj(genesis_members(*self, sig)),
    {
        let mut f = Fields::new();
        f.put_str("capsule_id", self.capsule_id.to_hex().as_str());
        f.put_str("created_at", self.created_at.as_str());
        f.put_str("created_by", self.created_by.to_hex().as_str());
        f.put_str("kind", self.kind.as_str());
        put_signature(&mut f, sig);
        f.put_str("spec", self.spec.as_str());
        f.put_str("title", self.title.as_str());
        f.put_str("type", self.record_type.as_str());
        assert(f.so_far() =~= genesis_members(*self, sig));
        f.done()
    }

    /// Signs the beginning of a capsule.
    pub fn new(
        id: CapsuleId,
        at: String,
        kind: String,
        title: String,
        creator: &Identity,
    ) -> (r: Result<Self, Error>)
        ensures
            r matches Ok(g) && {
                &&& g.spec@ == SPEC@
                &&& g.record_type@ == "capsule-genesis"@
                &&& g.capsule_id == id
                &&& g.created_at == at
                &&& g.created_by.0@ == creator.peer()
                &&& g.kind == kind
                &&& g.title == title
                &&& signed_record(*creator, "genesis"@, genesis_members(g, None), g.sig)
            },
    {
        let mut x = Genesis {
            spec: SPEC.to_owned(),
            record_type: "capsule-genesis".to_owned(),
            capsule_id: id,
            created_at: at,
            created_by: creator.peer_id(),
            kind,
            title,
            sig: Signature([0u8; 64]),
        };
        proof {
            genesis_has_bytes(x, None);
        }
        let ghost before = genesis_members(x, None);
        let bytes = match to_vec(&x.to_json(None)) {
            Ok(b) => b,
            Err(e) => {
                return Err(e);
            },
        };
        x.sig = creator.sign("genesis", bytes.as_slice());
        assert(genesis_members(x, None) == before);
        Ok(x)
    }

    /// The canonical bytes.
    pub fn bytes(&self) -> (r: Result<Vec<u8>, Error>)
        ensures
            r is Ok,
            canonical_bytes(JsonV::Obj(genesis_members(*self, Some(self.sig)))) == Ok::<
                Seq<u8>,
                Error,
            >(r->Ok_0@),
    {
        proof {
            genesis_has_bytes(*self, Some(self.sig));
        }
        to_vec(&self.to_json(Some(self.sig)))
    }

    /// The hash of the canonical bytes.
    pub fn hash(&self) -> (r: Result<Digest, Error>)
        ensures
            r is Ok,
            genesis_hash(*self) == Ok::<Seq<u8>, Error>(r->Ok_0.0@),
    {
        proof {
            genesis_has_bytes(*self, Some(self.sig));
        }
        hash_record(&self.to_json(Some(self.sig)))
    }

    /// Checks the shape and the signature.
    pub fn verify(&self) -> (r: Result<(), Error>)
        ensures
            r == genesis_check(*self),
    {
        if !same_text(self.spec.as_str(), SPEC) || !same_text(
            self.record_type.as_str(),
            "capsule-genesis",
        ) {
            return Err(Error::Invalid("invalid genesis schema"));
        }
        check_record(&self.created_by, "genesis", &self.to_json(None), &self.sig)
    }
}

/// A signature that an identity made over the canonical bytes of a record.
pub open spec fn signed_record(
    id: Identity,
    domain: Seq<char>,
    unsigned: Members,
    sig: Signature,
) -> bool {
    canonical_bytes(JsonV::Obj(unsigned)) matches Ok(b) && signature_of(id, domain, b, sig)
}

/// How a lease came about.
#[derive(Clone, Copy, Debug, PartialEq, Eq, Structural)]
pub enum LeaseMode {
    Grant,
    Refresh,
    Transfer,
    Takeover,
}

/// How a mode is written.
pub open spec fn lease_mode_text(mode: LeaseMode) -> Seq<char> {
    match mode {
        LeaseMode::Grant => "grant"@,
        LeaseMode::Refresh => "refresh"@,
        LeaseMode::Transfer => "transfer"@,
        LeaseMode::Takeover => "takeover"@,
    }
}

impl LeaseMode {
    /// How the mode is written.
    pub fn as_str(&self) -> (r: &'static str)
        ensures
            r@ == lease_mode_text(*self),
    {
        match self {
            LeaseMode::Grant => "grant",
            LeaseMode::Refresh => "refresh",
            LeaseMode::Transfer => "transfer",
            LeaseMode::Takeover => "takeover",
        }
    }
}

/// Who drives a capsule, and since when.
#[derive(Debug, PartialEq, Eq)]
pub struct LeaseRecord {
    pub spec: String,
    pub record_type: String,
    pub capsule_id: CapsuleId,
    pub holder: PeerId,
    pub epoch: u64,
    pub mode: LeaseMode,
    pub acquired_at: String,
    pub expires_at: String,
    pub prev_hash: Digest,
    pub sig: Signature,
}

impl Clone for LeaseRecord {
    fn clone(&self) -> (r: Self)
        ensures
            r == *self,
    {
        LeaseRecord {
            spec: self.spec.clone(),
            record_type: self.record_type.clone(),
            capsule_id: self.capsule_id,
            holder: self.holder,
            epoch: self.epoch,
            mode: self.mode,
            acquired_at: self.acquired_at.clone(),
            expires_at: self.expires_at.clone(),
            prev_hash: self.prev_hash,
            sig: self.sig,
        }
    }
}

/// The members of a lease, with or without its signature.
pub open spec fn lease_members(l: LeaseRecord, sig: Option<Signature>) -> Members {
    seq![
        ("acquired_at"@, JsonV::Str(l.acquired_at@)),
        ("capsule_id"@, JsonV::Str(hex_text(l.capsule_id.0@))),
        ("epoch"@, nat_json(l.epoch)),
        ("expires_at"@, JsonV::Str(l.expires_at@)),
        ("holder"@, JsonV::Str(hex_text(l.holder.0@))),
        ("mode"@, JsonV::Str(lease_mode_text(l.mode))),
        ("prev_hash"@, JsonV::Str(hex_text(l.prev_hash.0@))),
    ] + signature_member(sig) + seq![
        ("spec"@, JsonV::Str(l.spec@)),
        ("type"@, JsonV::Str(l.record_type@)),
    ]
}

/// Why a number is too large for canonical JSON.
pub open spec fn number_error(n: u64) -> Error {
    if n <= i64::MAX {
        Error::Invalid("integer outside Abra-CJSON range")
    } else {
        Error::Invalid("numbers must be integers in the safe range")
    }
}

/// The hash of a lease.
pub open spec fn lease_hash(l: LeaseRecord) -> Result<Seq<u8>, Error> {
    record_hash(lease_members(l, Some(l.sig)))
}

/// The hash of a lease is this one.
pub open spec fn lease_is(l: LeaseRecord, h: Digest) -> bool {
    lease_hash(l) == Ok::<Seq<u8>, Error>(h.0@)
}

impl LeaseRecord {
    fn to_json(&self, sig: Option<Signature>) -> (r: Json)
        ensures
            r@ == JsonV::Obj(lease_members(*self, sig)),
    {
        let mut f = Fields::new();
        f.put_str("acquired_at", self.acquired_at.as_str());
        f.put_str("capsule_id", self.capsule_id.to_hex().as_str());
        f.put("epoch", nat_value(self.epoch));
        f.put_str("expires_at", self.expires_at.as_str());
        f.put_str("holder", self.holder.to_hex().as_str());
        f.put_str("mode", self.mode.as_str());
        f.put_str("prev_hash", self.prev_hash.to_hex().as_str());
        put_signature(&mut f, sig);
        f.put_str("spec", self.spec.as_str());
        f.put_str("type", self.record_type.as_str());
        assert(f.so_far() =~= lease_members(*self, sig));
        f.done()
    }

    /// Signs a lease. An epoch too large for canonical JSON is refused.
    pub fn new(
        capsule_id: CapsuleId,
        holder: PeerId,
        epoch: u64,
        mode: LeaseMode,
        acquired_at: String,
        expires_at: String,
        prev_hash: Digest,
        signer: &Identity,
    ) -> (r: Result<Self, Error>)
        ensures
            r matches Ok(l) ==> {
                &&& l.spec@ == SPEC@
                &&& l.record_type@ == "lease"@
                &&& l.capsule_id == capsule_id
                &&& l.holder == holder
                &&& l.epoch == epoch
                &&& l.mode == mode
                &&& l.acquired_at == acquired_at
                &&& l.expires_at == expires_at
                &&& l.prev_hash == prev_hash
                &&& signed_record(*signer, "lease"@, lease_members(l, None), l.sig)
            },
            r is Ok <==> epoch <= crate::canonical::MAX,
            r matches Err(e) ==> e == number_error(epoch),
    {
        let mut x = LeaseRecord {
            spec: SPEC.to_owned(),
            record_type: "lease".to_owned(),
            capsule_id,
            holder,
            epoch,
            mode,
            acquired_at,
            expires_at,
            prev_hash,
            sig: Signature([0u8; 64]),
        };
        proof {
            if epoch <= crate::canonical::MAX {
                lease_has_bytes(x, None);
            } else {
                let m = lease_members(x, None);
                reveal_strlit("epoch");
                reveal_strlit("payload");
                reveal_strlit("extensions");
                assert(m[2] == ("epoch"@, nat_json(epoch)));
                crate::canonical::first_member_fault(m, 2);
            }
        }
        let ghost before = lease_members(x, None);
        let bytes = match to_vec(&x.to_json(None)) {
            Ok(b) => b,
            Err(e) => {
                return Err(e);
            },
        };
        x.sig = signer.sign("lease", bytes.as_slice());
        assert(lease_members(x, None) == before);
        Ok(x)
    }

    /// The canonical bytes.
    pub fn bytes(&self) -> (r: Result<Vec<u8>, Error>)
        ensures
            r matches Ok(b) ==> canonical_bytes(JsonV::Obj(lease_members(*self, Some(self.sig))))
                == Ok::<Seq<u8>, Error>(b@),
            r matches Err(e) ==> canonical_bytes(JsonV::Obj(lease_members(*self, Some(self.sig))))
                == Err::<Seq<u8>, Error>(e),
    {
        to_vec(&self.to_json(Some(self.sig)))
    }

    /// The hash of the canonical bytes.
    pub fn hash(&self) -> (r: Result<Digest, Error>)
        ensures
            r matches Ok(h) ==> lease_hash(*self) == Ok::<Seq<u8>, Error>(h.0@),
            r matches Err(e) ==> lease_hash(*self) == Err::<Seq<u8>, Error>(e),
    {
        hash_record(&self.to_json(Some(self.sig)))
    }

    /// Checks the signature of a peer.
    pub fn verify_with(&self, p: &PeerId) -> (r: Result<(), Error>)
        ensures
            r == record_check(*p, "lease"@, lease_members(*self, None), self.sig),
    {
        check_record(p, "lease", &self.to_json(None), &self.sig)
    }

    pub(crate) fn has_hash(&self, h: &Digest) -> (r: bool)
        ensures
            r == lease_is(*self, *h),
    {
        match self.hash() {
            Ok(x) => {
                proof {
                    crate::bytes::array_extensional(x.0, h.0);
                }
                x.same(h)
            },
            Err(_) => false,
        }
    }
}

proof fn lease_has_bytes(l: LeaseRecord, sig: Option<Signature>)
    requires
        l.epoch <= crate::canonical::MAX,
    ensures
        canonical_bytes(JsonV::Obj(lease_members(l, sig))) is Ok,
{
    let m = lease_members(l, sig);
    reveal_with_fuel(crate::record::plain, 2);
    assert forall|i: int| 0 <= i < m.len() implies crate::record::plain((#[trigger] m[i]).1) by {
        if i >= 7 && i < 7 + signature_member(sig).len() {
            assert(m[i] == signature_member(sig)[i - 7]);
        }
    }
    crate::record::plain_no_fault(JsonV::Obj(m), false, true);
}

/// A signed statement that a label names a snapshot.
#[derive(Debug, PartialEq, Eq)]
pub struct LabelOp {
    pub spec: String,
    pub record_type: String,
    pub capsule_id: CapsuleId,
    pub seq: u64,
    pub op: String,
    pub name: String,
    pub snapshot_id: Digest,
    pub lease_epoch: u64,
    pub at: String,
    pub sig: Signature,
}

impl Clone for LabelOp {
    fn clone(&self) -> (r: Self)
        ensures
            r == *self,
    {
        LabelOp {
            spec: self.spec.clone(),
            record_type: self.record_type.clone(),
            capsule_id: self.capsule_id,
            seq: self.seq,
            op: self.op.clone(),
            name: self.name.clone(),
            snapshot_id: self.snapshot_id,
            lease_epoch: self.lease_epoch,
            at: self.at.clone(),
            sig: self.sig,
        }
    }
}

/// The members of a label statement, with or without its signature.
pub open spec fn label_members(l: LabelOp, sig: Option<Signature>) -> Members {
    seq![
        ("at"@, JsonV::Str(l.at@)),
        ("capsule_id"@, JsonV::Str(hex_text(l.capsule_id.0@))),
        ("lease_epoch"@, nat_json(l.lease_epoch)),
        ("name"@, JsonV::Str(l.name@)),
        ("op"@, JsonV::Str(l.op@)),
        ("seq"@, nat_json(l.seq)),
    ] + signature_member(sig) + seq![
        ("snapshot_id"@, JsonV::Str(hex_text(l.snapshot_id.0@))),
        ("spec"@, JsonV::Str(l.spec@)),
        ("type"@, JsonV::Str(l.record_type@)),
    ]
}

impl LabelOp {
    fn to_json(&self, sig: Option<Signature>) -> (r: Json)
        ensures
            r@ == JsonV::Obj(label_members(*self, sig)),
    {
        let mut f = Fields::new();
        f.put_str("at", self.at.as_str());
        f.put_str("capsule_id", self.capsule_id.to_hex().as_str());
        f.put("lease_epoch", nat_value(self.lease_epoch));
        f.put_str("name", self.name.as_str());
        f.put_str("op", self.op.as_str());
        f.put("seq", nat_value(self.seq));
        put_signature(&mut f, sig);
        f.put_str("snapshot_id", self.snapshot_id.to_hex().as_str());
        f.put_str("spec", self.spec.as_str());
        f.put_str("type", self.record_type.as_str());
        assert(f.so_far() =~= label_members(*self, sig));
        f.done()
    }

    /// Signs a label statement. Numbers too large for canonical JSON are refused.
    pub fn new(
        capsule_id: CapsuleId,
        seq: u64,
        name: String,
        snapshot_id: Digest,
        lease_epoch: u64,
        at: String,
        signer: &Identity,
    ) -> (r: Result<Self, Error>)
        ensures
            r matches Ok(l) ==> {
                &&& l.spec@ == SPEC@
                &&& l.record_type@ == "label-op"@
                &&& l.capsule_id == capsule_id
                &&& l.seq == seq
                &&& l.op@ == "set"@
                &&& l.name == name
                &&& l.snapshot_id == snapshot_id
                &&& l.lease_epoch == lease_epoch
                &&& l.at == at
                &&& signed_record(*signer, "label"@, label_members(l, None), l.sig)
            },
            r is Ok <==> seq <= crate::canonical::MAX && lease_epoch <= crate::canonical::MAX,
            r matches Err(e) ==> e == if lease_epoch > crate::canonical::MAX {
                number_error(lease_epoch)
            } else {
                number_error(seq)
            },
    {
        let mut x = LabelOp {
            spec: SPEC.to_owned(),
            record_type: "label-op".to_owned(),
            capsule_id,
            seq,
            op: "set".to_owned(),
            name,
            snapshot_id,
            lease_epoch,
            at,
            sig: Signature([0u8; 64]),
        };
        proof {
            if seq <= crate::canonical::MAX && lease_epoch <= crate::canonical::MAX {
                label_has_bytes(x, None);
            } else {
                let m = label_members(x, None);
                reveal_strlit("lease_epoch");
                reveal_strlit("seq");
                reveal_strlit("payload");
                reveal_strlit("extensions");
                assert(m[2] == ("lease_epoch"@, nat_json(lease_epoch)));
                assert(m[5] == ("seq"@, nat_json(seq)));
                if lease_epoch > crate::canonical::MAX {
                    crate::canonical::first_member_fault(m, 2);
                } else {
                    crate::canonical::first_member_fault(m, 5);
                }
            }
        }
        let ghost before = label_members(x, None);
        let bytes = match to_vec(&x.to_json(None)) {
            Ok(b) => b,
            Err(e) => {
                return Err(e);
            },
        };
        x.sig = signer.sign("label", bytes.as_slice());
        assert(label_members(x, None) == before);
        Ok(x)
    }

    /// The canonical bytes.
    pub fn bytes(&self) -> (r: Result<Vec<u8>, Error>)
        ensures
            r matches Ok(b) ==> canonical_bytes(JsonV::Obj(label_members(*self, Some(self.sig))))
                == Ok::<Seq<u8>, Error>(b@),
            r matches Err(e) ==> canonical_bytes(JsonV::Obj(label_members(*self, Some(self.sig))))
                == Err::<Seq<u8>, Error>(e),
    {
        to_vec(&self.to_json(Some(self.sig)))
    }

    /// Checks the signature of a peer.
    pub fn verify_with(&self, p: &PeerId) -> (r: Result<(), Error>)
        ensures
            r == record_check(*p, "label"@, label_members(*self, None), self.sig),
    {
        check_record(p, "label", &self.to_json(None), &self.sig)
    }
}

proof fn label_has_bytes(l: LabelOp, sig: Option<Signature>)
    requires
        l.seq <= crate::canonical::MAX,
        l.lease_epoch <= crate::canonical::MAX,
    ensures
        canonical_bytes(JsonV::Obj(label_members(l, sig))) is Ok,
{
    let m = label_members(l, sig);
    reveal_with_fuel(crate::record::plain, 2);
    assert forall|i: int| 0 <= i < m.len() implies crate::record::plain((#[trigger] m[i]).1) by {
        if i >= 6 && i < 6 + signature_member(sig).len() {
            assert(m[i] == signature_member(sig)[i - 6]);
        }
    }
    crate::record::plain_no_fault(JsonV::Obj(m), false, true);
}

} // verus!
