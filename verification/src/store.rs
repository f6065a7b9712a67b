//! The shelves of a device: its capsules and its inbox. The caller reads and writes the files.
use vstd::prelude::*;

use crate::capsule::{
    genesis_check, label_members, number_error, record_check, signed_record, Genesis, LabelOp,
    LeaseMode, LeaseRecord,
};
use crate::cas::Digest;
use crate::error::Error;
use crate::history::{
    fork_label, fork_name, forks_of, is_fork_name, label_fault, label_wins, lease_verdict,
    new_fork, parents_known, same_state, settled, snapshot_fault, Capsule, LeaseVerdict,
    SnapshotRecord, WriteResult,
};
use crate::identity::{Identity, PeerId};
use crate::manifest::{RawManifest, Scope};
use crate::number::{padded, push_padded};
use crate::order::{byte_rank, char_rank, compare_bytes, lex_before, Key, Side};
use crate::table::Table;
use crate::text::push_text;
use crate::util::hex_text;

verus! {

/// What the history of a capsule is.
pub struct CapsuleV {
    pub genesis: Genesis,
    pub leases: Seq<LeaseRecord>,
    pub held: Option<LeaseRecord>,
    pub evidence: Seq<LeaseRecord>,
    pub snapshots: Map<Seq<int>, SnapshotRecord>,
    pub labels: Map<Seq<int>, LabelOp>,
    pub label_count: nat,
    pub fork_counts: Map<Seq<int>, u32>,
}

impl View for Capsule {
    type V = CapsuleV;

    open spec fn view(&self) -> CapsuleV {
        CapsuleV {
            genesis: self.genesis,
            leases: self.leases@,
            held: self.held(),
            evidence: self.evidence@,
            snapshots: self.snapshots@,
            labels: self.labels@,
            label_count: self.labels.entries@.len(),
            fork_counts: self.fork_counts@,
        }
    }
}

/// A capsule that has just begun.
pub open spec fn begun(genesis: Genesis) -> CapsuleV {
    CapsuleV {
        genesis,
        leases: Seq::empty(),
        held: None,
        evidence: Seq::empty(),
        snapshots: Map::empty(),
        labels: Map::empty(),
        label_count: 0,
        fork_counts: Map::empty(),
    }
}

/// The history once a lease has come in.
pub open spec fn with_lease(c: CapsuleV, r: LeaseRecord) -> CapsuleV {
    match lease_verdict(c.genesis, c.leases, c.held, r) {
        LeaseVerdict::Refused(_) => c,
        LeaseVerdict::Evidence => CapsuleV { evidence: c.evidence.push(r), ..c },
        LeaseVerdict::Loses => CapsuleV { leases: c.leases.push(r), ..c },
        LeaseVerdict::Wins => CapsuleV { leases: c.leases.push(r), held: Some(r), ..c },
    }
}

/// The history once leases have come in, one after the other.
pub open spec fn with_leases(c: CapsuleV, s: Seq<LeaseRecord>) -> CapsuleV
    decreases s.len(),
{
    if s.len() == 0 {
        c
    } else {
        with_lease(with_leases(c, s.drop_last()), s.last())
    }
}

proof fn lease_step(before: Capsule, after: Capsule, r: LeaseRecord)
    requires
        after.genesis == before.genesis,
        after.snapshots == before.snapshots,
        after.labels == before.labels,
        after.fork_counts == before.fork_counts,
        match lease_verdict(before.genesis, before.leases@, before.held(), r) {
            LeaseVerdict::Refused(e) => after == before,
            LeaseVerdict::Evidence => {
                &&& after.leases == before.leases
                &&& after.winner == before.winner
                &&& after.evidence@ == before.evidence@.push(r)
            },
            LeaseVerdict::Loses => {
                &&& after.leases@ == before.leases@.push(r)
                &&& after.winner == before.winner
                &&& after.evidence == before.evidence
            },
            LeaseVerdict::Wins => {
                &&& after.leases@ == before.leases@.push(r)
                &&& after.held() == Some(r)
                &&& after.evidence == before.evidence
            },
        },
        before.wf(),
    ensures
        after@ == with_lease(before@, r),
{
    if before.winner is Some {
        assert(after.winner == before.winner ==> after.leases@[before.winner->0 as int]
            == before.leases@[before.winner->0 as int] || after.leases@.len()
            < before.leases@.len());
    }
}

/// An item of the inbox.
#[derive(Clone, Debug, PartialEq, Eq)]
pub struct InboxEntry {
    pub snapshot_id: Digest,
    pub manifest: Vec<u8>,
    pub from: String,
    pub received_at: String,
    pub read: bool,
}

/// The shelves of a device.
#[derive(Clone, Debug, PartialEq, Eq)]
pub struct AbraStore {
    pub capsules: Table<Digest, Capsule>,
    pub inbox: Table<Digest, InboxEntry>,
}

/// The history once a chain of leases was accepted.
pub open spec fn extended(c: CapsuleV, chain: Seq<LeaseRecord>) -> CapsuleV {
    if chain.len() == 0 {
        c
    } else {
        CapsuleV { leases: c.leases + chain, held: Some(chain.last()), ..c }
    }
}

/// What stands in the way of adopting a chain of leases.
pub open spec fn adoption_fault(
    c: CapsuleV,
    chain: Seq<LeaseRecord>,
    allowed: Seq<bool>,
    i: int,
) -> Option<Error>
    decreases chain.len() - i,
{
    if i < 0 || i >= chain.len() {
        None
    } else if !allowed[i] {
        Some(Error::Invalid("lease holder is not authorized"))
    } else {
        match lease_verdict(
            c.genesis,
            c.leases + chain.take(i),
            if i == 0 {
                c.held
            } else {
                Some(chain[i - 1])
            },
            chain[i],
        ) {
            LeaseVerdict::Refused(e) => Some(e),
            LeaseVerdict::Wins => adoption_fault(c, chain, allowed, i + 1),
            _ => Some(Error::Invalid("lease chain does not extend winner")),
        }
    }
}

impl Capsule {
    /// A capsule with its first lease.
    pub fn founded(genesis: Genesis, grant: LeaseRecord) -> (r: Result<Self, Error>)
        ensures
            r matches Ok(c) ==> {
                &&& genesis_check(genesis) is Ok
                &&& lease_verdict(genesis, Seq::empty(), None, grant) is Wins
                &&& c.wf()
                &&& c@ == with_lease(begun(genesis), grant)
            },
            r matches Err(e) ==> match genesis_check(genesis) {
                Err(x) => e == x,
                Ok(()) => match lease_verdict(genesis, Seq::empty(), None, grant) {
                    LeaseVerdict::Refused(x) => e == x,
                    LeaseVerdict::Wins => false,
                    _ => e == Error::Invalid("genesis lacks epoch-1 grant"),
                },
            },
    {
        let mut c = match Capsule::new(genesis) {
            Ok(c) => c,
            Err(e) => {
                return Err(e);
            },
        };
        assert(c.leases@ =~= Seq::<LeaseRecord>::empty());
        assert(c.evidence@ =~= Seq::<LeaseRecord>::empty());
        assert(c@ == begun(genesis));
        let ghost before = c;
        match c.accept_lease(grant) {
            Err(e) => Err(e),
            Ok(false) => Err(Error::Invalid("genesis lacks epoch-1 grant")),
            Ok(true) => {
                proof {
                    lease_step(before, c, grant);
                }
                Ok(c)
            },
        }
    }

    /// Undoes all leases that came after a point.
    fn roll_back(&mut self, leases: usize, evidence: usize, winner: Option<usize>)
        requires
            old(self).wf(),
            leases <= old(self).leases@.len(),
            evidence <= old(self).evidence@.len(),
            winner matches Some(i) ==> i < leases,
        ensures
            final(self).wf(),
            final(self).leases@ == old(self).leases@.take(leases as int),
            final(self).evidence@ == old(self).evidence@.take(evidence as int),
            final(self).winner == winner,
            final(self).genesis == old(self).genesis,
            final(self).snapshots == old(self).snapshots,
            final(self).labels == old(self).labels,
            final(self).fork_counts == old(self).fork_counts,
    {
        self.leases.truncate(leases);
        self.evidence.truncate(evidence);
        self.winner = winner;
    }

    /// Adopts a chain of leases and, on top of it, a statement that moves `main`: all of it or
    /// nothing. `allowed` tells of each lease whether its holder may have it. Tells whether
    /// `main` names the snapshot of the statement in the end.
    pub fn adopt(&mut self, chain: &Vec<LeaseRecord>, allowed: &Vec<bool>, main: Option<&LabelOp>) -> (x:
        Result<bool, Error>)
        requires
            old(self).wf(),
            allowed@.len() == chain@.len(),
        ensures
            final(self).wf(),
            ({
                let c = old(self)@;
                let fault = adoption_fault(c, chain@, allowed@, 0);
                let full = extended(c, chain@);
                match x {
                    Err(e) => final(self)@ == c && (fault == Some(e) || (fault is None
                        && main is Some && moved_fault(full, *main->0) == Some(e))),
                    Ok(b) => {
                        &&& fault is None
                        &&& match main {
                            None => final(self)@ == full && !b,
                            Some(op) => {
                                &&& moved_fault(full, *op) is None
                                &&& final(self)@ == main_moved(full, *op)
                                &&& b == (final(self)@.labels.dom().contains(char_rank(op.name@))
                                    && final(self)@.labels[char_rank(op.name@)].snapshot_id
                                    == op.snapshot_id)
                            },
                        }
                    },
                }
            }),
    {
        let ghost start = *self;
        let ghost c = self@;
        let n_leases = self.leases.len();
        let n_evidence = self.evidence.len();
        let winner = self.winner;
        let mut i: usize = 0;
        assert(c.leases + chain@.take(0) =~= c.leases);
        while i < chain.len()
            invariant
                self.wf(),
                start.wf(),
                start == *old(self),
                c == start@,
                i <= chain@.len(),
                allowed@.len() == chain@.len(),
                n_leases == start.leases@.len(),
                n_evidence == start.evidence@.len(),
                winner == start.winner,
                self.genesis == start.genesis,
                self.snapshots == start.snapshots,
                self.labels == start.labels,
                self.fork_counts == start.fork_counts,
                self.evidence@ == start.evidence@,
                self.leases@ == c.leases + chain@.take(i as int),
                self.held() == if i == 0 {
                    c.held
                } else {
                    Some(chain@[i - 1])
                },
                adoption_fault(c, chain@, allowed@, 0) == adoption_fault(
                    c,
                    chain@,
                    allowed@,
                    i as int,
                ),
            decreases chain.len() - i,
        {
            if !allowed[i] {
                self.roll_back(n_leases, n_evidence, winner);
                proof {
                    assert(self.leases@ =~= start.leases@);
                    assert(self.evidence@ =~= start.evidence@);
                    assert(self@ == c);
                }
                return Err(Error::Invalid("lease holder is not authorized"));
            }
            let ghost before = *self;
            let accepted = self.accept_lease(chain[i].clone());
            match accepted {
                Err(e) => {
                    self.roll_back(n_leases, n_evidence, winner);
                    proof {
                        assert(self.leases@ =~= start.leases@);
                        assert(self.evidence@ =~= start.evidence@);
                    }
                    return Err(e);
                },
                Ok(false) => {
                    self.roll_back(n_leases, n_evidence, winner);
                    proof {
                        assert(self.leases@ =~= start.leases@);
                        assert(self.evidence@ =~= start.evidence@);
                        assert(self@ == c);
                    }
                    return Err(Error::Invalid("lease chain does not extend winner"));
                },
                Ok(true) => {
                    proof {
                        assert(chain@.take(i + 1) =~= chain@.take(i as int).push(chain@[i as int]));
                        assert(self.leases@ =~= c.leases + chain@.take(i + 1));
                    }
                },
            }
            i += 1;
        }
        proof {
            assert(chain@.take(i as int) =~= chain@);
            if chain@.len() == 0 {
                assert(c.leases + chain@ =~= c.leases);
            }
            assert(self@ == extended(c, chain@));
        }
        let op = match main {
            None => {
                return Ok(false);
            },
            Some(op) => op,
        };
        let ghost full = self@;
        let signer = match self.winning_lease() {
            Some(w) => w.holder,
            None => {
                self.roll_back(n_leases, n_evidence, winner);
                proof {
                    assert(self.leases@ =~= start.leases@);
                    assert(self.evidence@ =~= start.evidence@);
                }
                return Err(Error::Invalid("capsule lacks winning lease"));
            },
        };
        let ghost at_label = *self;
        match self.apply_label(op.clone(), signer) {
            Err(e) => {
                proof {
                    label_fault_of_view(at_label, *op, signer);
                }
                self.roll_back(n_leases, n_evidence, winner);
                proof {
                    assert(self.leases@ =~= start.leases@);
                    assert(self.evidence@ =~= start.evidence@);
                }
                Err(e)
            },
            Ok(_) => {
                proof {
                    label_fault_of_view(at_label, *op, signer);
                }
                let named = match self.labels.get(&op.name) {
                    Some(l) => l.snapshot_id.same(&op.snapshot_id),
                    None => false,
                };
                Ok(named)
            },
        }
    }
}

/// What is wrong with a label statement, by what the history of the capsule is.
pub open spec fn label_fault_v(c: CapsuleV, op: LabelOp, signer: PeerId) -> Option<Error> {
    if op.capsule_id != c.genesis.capsule_id || op.op@ != "set"@ {
        Some(Error::Invalid("invalid label op"))
    } else if record_check(signer, "label"@, label_members(op, None), op.sig) is Err {
        Some(record_check(signer, "label"@, label_members(op, None), op.sig)->Err_0)
    } else if op.name@ == "main"@ && main_fault_v(c, op, signer) is Some {
        main_fault_v(c, op, signer)
    } else if op.name@ != "main"@ && crate::history::label_name_fault(op.name@) is Some {
        crate::history::label_name_fault(op.name@)
    } else if !c.labels.dom().contains(char_rank(op.name@)) && c.label_count
        >= crate::capsule::MAX_LABELS {
        Some(Error::Invalid("capsule label limit exceeded"))
    } else if label_wins_v(c, op) && new_fork_v(c, op) && forks_v(c, signer)
        >= crate::capsule::MAX_FORK_LABELS {
        Some(Error::Invalid("fork label limit exceeded"))
    } else {
        None
    }
}

/// What is wrong with a statement about `main`, by what the history of the capsule is.
pub open spec fn main_fault_v(c: CapsuleV, op: LabelOp, signer: PeerId) -> Option<Error> {
    match c.held {
        None => Some(Error::Invalid("main requires lease")),
        Some(w) => if signer != w.holder || op.lease_epoch != w.epoch {
            Some(Error::Invalid("unauthorized main move"))
        } else if !c.snapshots.dom().contains(op.snapshot_id.rank())
            || c.snapshots[op.snapshot_id.rank()].orphan {
            Some(Error::Invalid("main target missing or orphan"))
        } else {
            None
        },
    }
}

/// A statement takes the place of the one before it, by what the history of the capsule is.
pub open spec fn label_wins_v(c: CapsuleV, op: LabelOp) -> bool {
    let k = char_rank(op.name@);
    c.labels.dom().contains(k) ==> {
        let old_op = c.labels[k];
        op.seq > old_op.seq || (op.seq == old_op.seq && lex_before(
            byte_rank(old_op.sig.0@),
            byte_rank(op.sig.0@),
        ))
    }
}

/// A statement begins a fork, by what the history of the capsule is.
pub open spec fn new_fork_v(c: CapsuleV, op: LabelOp) -> bool {
    is_fork_name(op.name@) && !c.labels.dom().contains(char_rank(op.name@))
}

/// How many forks a peer has begun, by what the history of the capsule is.
pub open spec fn forks_v(c: CapsuleV, peer: PeerId) -> u32 {
    if c.fork_counts.dom().contains(peer.rank()) {
        c.fork_counts[peer.rank()]
    } else {
        0
    }
}

/// The history once a label statement has come in.
pub open spec fn with_label(c: CapsuleV, op: LabelOp, signer: PeerId) -> CapsuleV {
    if label_fault_v(c, op, signer) is Some || !label_wins_v(c, op) {
        c
    } else {
        CapsuleV {
            labels: c.labels.insert(char_rank(op.name@), op),
            label_count: if c.labels.dom().contains(char_rank(op.name@)) {
                c.label_count
            } else {
                c.label_count + 1
            },
            fork_counts: if new_fork_v(c, op) {
                c.fork_counts.insert(signer.rank(), (forks_v(c, signer) + 1) as u32)
            } else {
                c.fork_counts
            },
            ..c
        }
    }
}

proof fn label_fault_of_view(c: Capsule, op: LabelOp, signer: PeerId)
    ensures
        label_fault(c, op, signer) == label_fault_v(c@, op, signer),
        label_wins(c, op) == label_wins_v(c@, op),
        new_fork(c, op) == new_fork_v(c@, op),
        forks_of(c, signer) == forks_v(c@, signer),
{
}

/// What is wrong with a statement by the holder of the lease.
pub open spec fn moved_fault(c: CapsuleV, op: LabelOp) -> Option<Error> {
    match c.held {
        None => Some(Error::Invalid("capsule lacks winning lease")),
        Some(w) => label_fault_v(c, op, w.holder),
    }
}

/// The history once the holder of the lease made a label statement.
pub open spec fn main_moved(c: CapsuleV, op: LabelOp) -> CapsuleV {
    match c.held {
        None => c,
        Some(w) => with_label(c, op, w.holder),
    }
}

/// The history once a snapshot has come in, written by its origin.
pub open spec fn with_snapshot(c: CapsuleV, record: SnapshotRecord) -> CapsuleV {
    let id = record.raw.id.rank();
    let known = c.snapshots.dom().insert(id);
    CapsuleV {
        snapshots: Map::new(
            |k: Seq<int>| known.contains(k),
            |k: Seq<int>|
                settled(
                    if k == id {
                        record
                    } else {
                        c.snapshots[k]
                    },
                    known,
                ),
        ),
        ..c
    }
}

/// The capsules of a device.
pub open spec fn shelf(t: Map<Seq<int>, Capsule>) -> Map<Seq<int>, CapsuleV> {
    Map::new(|k: Seq<int>| t.dom().contains(k), |k: Seq<int>| t[k]@)
}

/// Every capsule on the shelf is in order.
pub open spec fn all_wf(t: Map<Seq<int>, Capsule>) -> bool {
    forall|k: Seq<int>| #[trigger] t.dom().contains(k) ==> t[k].wf()
}

/// There is nothing of that kind and id.
pub open spec fn is_missing(e: Error, what: &'static str, id: Digest) -> bool {
    e matches Error::NotFound { kind, id: name } && kind == what && name@ == hex_text(id.0@)
}

pub(crate) fn missing(what: &'static str, id: &Digest) -> (e: Error)
    ensures
        is_missing(e, what, *id),
{
    Error::NotFound { kind: what, id: id.to_hex() }
}

/// The name of the file of a lease: its epoch in twenty digits, and its hash.
pub fn lease_file(lease: &LeaseRecord) -> (r: Result<String, Error>)
    ensures
        r matches Ok(name) ==> crate::capsule::lease_hash(*lease) is Ok && name@ == padded(
            lease.epoch as nat,
            20,
        ) + "-"@ + hex_text(crate::capsule::lease_hash(*lease)->Ok_0) + ".cjson"@,
        r matches Err(e) ==> crate::capsule::lease_hash(*lease) == Err::<Seq<u8>, Error>(e),
{
    let hash = match lease.hash() {
        Ok(h) => h,
        Err(e) => {
            return Err(e);
        },
    };
    let mut out = String::new();
    push_padded(&mut out, lease.epoch, 20);
    push_text(&mut out, "-");
    push_text(&mut out, hash.to_hex().as_str());
    push_text(&mut out, ".cjson");
    assert(out@ =~= padded(lease.epoch as nat, 20) + "-"@ + hex_text(hash.0@) + ".cjson"@);
    Ok(out)
}

/// The name of the file of a label statement: its number in twenty digits, and the hash of its
/// signature.
pub fn label_file(op: &LabelOp) -> (r: String)
    ensures
        r@ == padded(op.seq as nat, 20) + "-"@ + hex_text(crate::cas::blake3_of(op.sig.0@))
            + ".cjson"@,
{
    let hash = crate::cas::Hash::of(op.sig.0.as_slice());
    let mut out = String::new();
    push_padded(&mut out, op.seq, 20);
    push_text(&mut out, "-");
    push_text(&mut out, hash.to_hex().as_str());
    push_text(&mut out, ".cjson");
    assert(out@ =~= padded(op.seq as nat, 20) + "-"@ + hex_text(hash.0@) + ".cjson"@);
    out
}

impl Capsule {
    /// Puts a label on a fork, signed by a device; returns the statement.
    fn sign_fork(
        &mut self,
        capsule_id: Digest,
        snapshot_id: Digest,
        at: String,
        signer: &Identity,
    ) -> (r: Result<LabelOp, Error>)
        requires
            old(self).wf(),
            next_fork_seq(old(self)@, snapshot_id) <= u64::MAX,
        ensures
            final(self).wf(),
            fork_signed(old(self)@, final(self)@, capsule_id, snapshot_id, at, *signer, r),
    {
        let name = fork_label(&snapshot_id);
        let seq: u64 = match self.label(name.as_str()) {
            Some(old_op) => old_op.seq + 1,
            None => 1,
        };
        let epoch: u64 = match self.winning_lease() {
            Some(w) => w.epoch,
            None => 0,
        };
        let op = match LabelOp::new(capsule_id, seq, name, snapshot_id, epoch, at, signer) {
            Ok(op) => op,
            Err(e) => {
                return Err(e);
            },
        };
        let me = signer.peer_id();
        proof {
            label_fault_of_view(*self, op, me);
        }
        match self.apply_label(op.clone(), me) {
            Err(e) => {
                assert(label_fault_v(old(self)@, op, me) == Some(e));
                Err(e)
            },
            Ok(_) => {
                assert(self@ == with_label(old(self)@, op, me));
                Ok(op)
            },
        }
    }
}

/// The signer, where one is given.
pub open spec fn given_signer(signer: Option<&Identity>) -> Option<Identity> {
    match signer {
        Some(i) => Some(*i),
        None => None,
    }
}

impl Capsule {
    /// Files a snapshot and, where a signer is given, the label of a fork.
    fn file_snapshot(&mut self, raw: RawManifest, at: String, fork_signer: Option<&Identity>) -> (r:
        Result<WriteResult, Error>)
        requires
            old(self).wf(),
            fork_signer is Some ==> next_fork_seq(old(self)@, raw.id) <= u64::MAX,
        ensures
            final(self).wf(),
            filed(
                old(self)@,
                final(self)@,
                raw,
                at,
                given_signer(fork_signer),
                r,
            ),
    {
        let ghost c = self@;
        let ghost whole = raw;
        proof {
            snapshot_fault_of_view(*self, raw);
        }
        match self.check_snapshot(&raw) {
            Some(e) => {
                return Err(e);
            },
            None => {},
        }
        let writer = raw.manifest.origin;
        let ghost mut signed: Result<LabelOp, Error> = Ok(arbitrary());
        let forked = self.forks(&raw, writer);
        assert(forked == is_fork(c, raw));
        if forked {
            match fork_signer {
                Some(signer) => {
                    let capsule_id = self.genesis.capsule_id;
                    let s = self.sign_fork(capsule_id, raw.id, at.clone(), signer);
                    proof {
                        signed = s;
                    }
                    assert(labelled_for(
                        c,
                        self@,
                        is_fork(c, raw),
                        raw.id,
                        at,
                        given_signer(fork_signer),
                        signed,
                    ));
                    match s {
                        Err(e) => {
                            return Err(e);
                        },
                        Ok(_) => {},
                    }
                },
                None => {},
            }
        }
        let ghost labelled = *self;
        let ghost record = SnapshotRecord {
            raw,
            received_at: at,
            orphan: !parents_known(raw.manifest.parents@, c.snapshots.dom()),
        };
        proof {
            snapshot_fault_of_view(*self, raw);
        }
        let r = self.insert_snapshot(raw, at, writer);
        proof {
            snapshot_step(labelled, *self, record);
            assert(self@ == with_snapshot(labelled@, record));
            assert(labelled_for(
                c,
                labelled@,
                is_fork(c, whole),
                whole.id,
                record.received_at,
                given_signer(fork_signer),
                signed,
            ));
        }
        r
    }
}

/// A capsule after the label of a fork was to be put on a snapshot, and what was answered.
pub open spec fn fork_signed(
    c: CapsuleV,
    after: CapsuleV,
    capsule_id: Digest,
    snapshot_id: Digest,
    at: String,
    signer: Identity,
    r: Result<LabelOp, Error>,
) -> bool {
    match r {
        Err(e) => {
            &&& after == c
            &&& if held_epoch(c) > crate::canonical::MAX {
                e == number_error(held_epoch(c))
            } else if next_fork_seq(c, snapshot_id) > crate::canonical::MAX {
                e == number_error(next_fork_seq(c, snapshot_id) as u64)
            } else {
                exists|op: LabelOp, me: PeerId|
                    me.0@ == signer.peer() && is_fork_label(c, capsule_id, snapshot_id, signer, op)
                        && op.at == at && #[trigger] label_fault_v(c, op, me) == Some(e)
            }
        },
        Ok(op) => {
            &&& is_fork_label(c, capsule_id, snapshot_id, signer, op)
            &&& op.at == at
            &&& exists|me: PeerId|
                me.0@ == signer.peer() && label_fault_v(c, op, me) is None && after
                    == #[trigger] with_label(c, op, me)
        },
    }
}

/// A snapshot is a fork: a parent has not arrived yet, or its origin does not hold the lease.
pub open spec fn is_fork(c: CapsuleV, raw: RawManifest) -> bool {
    !parents_known(raw.manifest.parents@, c.snapshots.dom()) || !(c.held matches Some(l)
        && l.holder == raw.manifest.origin)
}

/// A fork has its label where somebody signs it; nothing else gets one.
pub open spec fn labelled_for(
    c: CapsuleV,
    labelled: CapsuleV,
    forked: bool,
    snapshot_id: Digest,
    at: String,
    signer: Option<Identity>,
    signed: Result<LabelOp, Error>,
) -> bool {
    match signer {
        Some(i) => if forked {
            fork_signed(c, labelled, c.genesis.capsule_id, snapshot_id, at, i, signed)
        } else {
            labelled == c && signed is Ok
        },
        None => labelled == c && signed is Ok,
    }
}

/// A snapshot that was filed, and what is said of it. A fork gets its label where somebody signs
/// it.
pub open spec fn filed(
    c: CapsuleV,
    after: CapsuleV,
    raw: RawManifest,
    at: String,
    signer: Option<Identity>,
    r: Result<WriteResult, Error>,
) -> bool {
    let orphan = !parents_known(raw.manifest.parents@, c.snapshots.dom());
    let forked = is_fork(c, raw);
    let record = SnapshotRecord { raw, received_at: at, orphan };
    match snapshot_fault_v(c, raw) {
        Some(e) => r == Err::<WriteResult, Error>(e) && after == c,
        None => exists|labelled: CapsuleV, signed: Result<LabelOp, Error>|
            {
                &&& #[trigger] labelled_for(c, labelled, forked, raw.id, at, signer, signed)
                &&& match signed {
                    Err(e) => r == Err::<WriteResult, Error>(e) && after == c,
                    Ok(_) => {
                        &&& after == with_snapshot(labelled, record)
                        &&& r matches Ok(w) && {
                            &&& w.snapshot_id == raw.id
                            &&& w.forked == forked
                            &&& w.fork_label is Some <==> forked
                            &&& w.fork_label matches Some(name) ==> name@ == fork_name(raw.id)
                        }
                    },
                }
            },
    }
}

impl AbraStore {
    /// The tables are in order, and each capsule is.
    pub open spec fn wf(&self) -> bool {
        &&& self.capsules.wf()
        &&& self.inbox.wf()
        &&& all_wf(self.capsules@)
    }

    /// The capsule of an id.
    pub open spec fn has(&self, id: Digest) -> bool {
        self.capsules@.dom().contains(id.rank())
    }

    /// The history of a capsule.
    pub open spec fn at(&self, id: Digest) -> CapsuleV {
        self.capsules@[id.rank()]@
    }

    /// Empty shelves.
    pub fn new() -> (r: Self)
        ensures
            r.wf(),
            r.capsules@ == Map::<Seq<int>, Capsule>::empty(),
            r.inbox@ == Map::<Seq<int>, InboxEntry>::empty(),
            r.inbox.entries@.len() == 0,
    {
        AbraStore { capsules: Table::new(), inbox: Table::new() }
    }

    fn put_capsule(&mut self, id: Digest, c: Capsule)
        requires
            old(self).wf(),
            c.wf(),
        ensures
            final(self).wf(),
            shelf(final(self).capsules@) == shelf(old(self).capsules@).insert(id.rank(), c@),
            final(self).inbox == old(self).inbox,
    {
        let ghost before = self.capsules@;
        self.capsules.insert(id, c);
        assert(shelf(self.capsules@) =~= shelf(before).insert(id.rank(), c@));
    }

    fn take_capsule(&mut self, id: &Digest) -> (r: Option<Capsule>)
        requires
            old(self).wf(),
        ensures
            final(self).wf(),
            r is Some <==> old(self).has(*id),
            r matches Some(c) ==> c.wf() && c@ == old(self).at(*id),
            shelf(final(self).capsules@) == shelf(old(self).capsules@).remove(id.rank()),
            final(self).inbox == old(self).inbox,
    {
        let ghost before = self.capsules@;
        let r = self.capsules.remove(id);
        assert(shelf(self.capsules@) =~= shelf(before).remove(id.rank()));
        r
    }

    /// Adds a capsule with its first lease.
    pub fn add_capsule(&mut self, g: Genesis, grant: LeaseRecord) -> (r: Result<(), Error>)
        requires
            old(self).wf(),
        ensures
            final(self).wf(),
            final(self).inbox == old(self).inbox,
            r is Ok <==> genesis_check(g) is Ok && lease_verdict(
                g,
                Seq::empty(),
                None,
                grant,
            ) is Wins,
            r is Ok ==> shelf(final(self).capsules@) == shelf(old(self).capsules@).insert(
                g.capsule_id.rank(),
                with_lease(begun(g), grant),
            ),
            r matches Err(e) ==> final(self).capsules == old(self).capsules && match genesis_check(
                g,
            ) {
                Err(x) => e == x,
                Ok(()) => match lease_verdict(g, Seq::empty(), None, grant) {
                    LeaseVerdict::Refused(x) => e == x,
                    _ => e == Error::Invalid("genesis lacks epoch-1 grant"),
                },
            },
    {
        let id = g.capsule_id;
        match Capsule::founded(g, grant) {
            Err(e) => Err(e),
            Ok(c) => {
                self.put_capsule(id, c);
                Ok(())
            },
        }
    }

    /// Takes in a lease for a capsule; tells whether it holds from now on.
    pub fn accept_lease(&mut self, capsule_id: Digest, record: LeaseRecord, allowed: bool) -> (r:
        Result<bool, Error>)
        requires
            old(self).wf(),
        ensures
            final(self).wf(),
            final(self).inbox == old(self).inbox,
            if !old(self).has(capsule_id) {
                &&& r matches Err(e) && is_missing(e, "capsule", capsule_id)
                &&& shelf(final(self).capsules@) == shelf(old(self).capsules@)
            } else if !allowed {
                &&& r == Err::<bool, Error>(Error::Invalid("lease holder is not authorized"))
                &&& shelf(final(self).capsules@) == shelf(old(self).capsules@)
            } else {
                let c = old(self).at(capsule_id);
                &&& shelf(final(self).capsules@) == shelf(old(self).capsules@).insert(
                    capsule_id.rank(),
                    with_lease(c, record),
                )
                &&& match lease_verdict(c.genesis, c.leases, c.held, record) {
                    LeaseVerdict::Refused(e) => r == Err::<bool, Error>(e),
                    LeaseVerdict::Wins => r == Ok::<bool, Error>(true),
                    _ => r == Ok::<bool, Error>(false),
                }
            },
    {
        let ghost before = self.capsules@;
        let mut c = match self.take_capsule(&capsule_id) {
            None => {
                assert(shelf(self.capsules@) =~= shelf(before));
                return Err(missing("capsule", &capsule_id));
            },
            Some(c) => c,
        };
        if !allowed {
            self.put_capsule(capsule_id, c);
            assert(shelf(self.capsules@) =~= shelf(before));
            return Err(Error::Invalid("lease holder is not authorized"));
        }
        let ghost was = c;
        let r = c.accept_lease(record);
        proof {
            lease_step(was, c, record);
        }
        self.put_capsule(capsule_id, c);
        assert(shelf(self.capsules@) =~= shelf(before).insert(capsule_id.rank(), c@));
        r
    }

    /// Takes in a label statement; tells whether the label stands on it from now on.
    pub fn apply_label(&mut self, op: LabelOp, caller: PeerId) -> (r: Result<bool, Error>)
        requires
            old(self).wf(),
        ensures
            final(self).wf(),
            final(self).inbox == old(self).inbox,
            if !old(self).has(op.capsule_id) {
                &&& r matches Err(e) && is_missing(e, "capsule", op.capsule_id)
                &&& shelf(final(self).capsules@) == shelf(old(self).capsules@)
            } else {
                let c = old(self).at(op.capsule_id);
                &&& shelf(final(self).capsules@) == shelf(old(self).capsules@).insert(
                    op.capsule_id.rank(),
                    with_label(c, op, caller),
                )
                &&& match label_fault_v(c, op, caller) {
                    Some(e) => r == Err::<bool, Error>(e),
                    None => r == Ok::<bool, Error>(label_wins_v(c, op)),
                }
            },
    {
        let ghost before = self.capsules@;
        let id = op.capsule_id;
        let mut c = match self.take_capsule(&id) {
            None => {
                assert(shelf(self.capsules@) =~= shelf(before));
                return Err(missing("capsule", &id));
            },
            Some(c) => c,
        };
        proof {
            label_fault_of_view(c, op, caller);
        }
        let r = c.apply_label(op, caller);
        self.put_capsule(id, c);
        assert(shelf(self.capsules@) =~= shelf(before).insert(id.rank(), c@));
        r
    }

    /// Adopts a chain of leases and a statement that moves `main`, all of it or nothing.
    pub fn adopt_capsule_state(
        &mut self,
        capsule_id: Digest,
        chain: &Vec<LeaseRecord>,
        allowed: &Vec<bool>,
        main: Option<&LabelOp>,
    ) -> (r: Result<bool, Error>)
        requires
            old(self).wf(),
            allowed@.len() == chain@.len(),
        ensures
            final(self).wf(),
            final(self).inbox == old(self).inbox,
            if !old(self).has(capsule_id) {
                &&& r matches Err(e) && is_missing(e, "capsule", capsule_id)
                &&& shelf(final(self).capsules@) == shelf(old(self).capsules@)
            } else {
                let c = old(self).at(capsule_id);
                let full = extended(c, chain@);
                let fault = adoption_fault(c, chain@, allowed@, 0);
                let after = match main {
                    None => full,
                    Some(op) => main_moved(full, *op),
                };
                match r {
                    Err(e) => {
                        &&& shelf(final(self).capsules@) == shelf(old(self).capsules@)
                        &&& fault == Some(e) || (fault is None && main is Some && moved_fault(
                            full,
                            *main->0,
                        ) == Some(e))
                    },
                    Ok(b) => {
                        &&& fault is None
                        &&& main matches Some(op) ==> moved_fault(full, *op) is None
                        &&& shelf(final(self).capsules@) == shelf(old(self).capsules@).insert(
                            capsule_id.rank(),
                            after,
                        )
                        &&& b == (main matches Some(op) && after.labels.dom().contains(
                            char_rank(op.name@),
                        ) && after.labels[char_rank(op.name@)].snapshot_id == op.snapshot_id)
                    },
                }
            },
    {
        let ghost before = self.capsules@;
        let mut c = match self.take_capsule(&capsule_id) {
            None => {
                assert(shelf(self.capsules@) =~= shelf(before));
                return Err(missing("capsule", &capsule_id));
            },
            Some(c) => c,
        };
        let r = c.adopt(chain, allowed, main);
        self.put_capsule(capsule_id, c);
        assert(shelf(self.capsules@) =~= shelf(before).insert(capsule_id.rank(), c@));
        assert(r is Err ==> shelf(self.capsules@) =~= shelf(before));
        r
    }

    /// Puts a label on a fork, signed by this device; returns the statement.
    pub fn record_fork_label(
        &mut self,
        capsule_id: Digest,
        snapshot_id: Digest,
        at: String,
        signer: &Identity,
    ) -> (r: Result<LabelOp, Error>)
        requires
            old(self).wf(),
            old(self).has(capsule_id) ==> next_fork_seq(old(self).at(capsule_id), snapshot_id)
                <= u64::MAX,
        ensures
            final(self).wf(),
            final(self).inbox == old(self).inbox,
            if !old(self).has(capsule_id) {
                &&& r matches Err(e) && is_missing(e, "capsule", capsule_id)
                &&& shelf(final(self).capsules@) == shelf(old(self).capsules@)
            } else {
                exists|after: CapsuleV|
                    {
                        &&& #[trigger] fork_signed(
                            old(self).at(capsule_id),
                            after,
                            capsule_id,
                            snapshot_id,
                            at,
                            *signer,
                            r,
                        )
                        &&& shelf(final(self).capsules@) == shelf(old(self).capsules@).insert(
                            capsule_id.rank(),
                            after,
                        )
                    }
            },
    {
        let ghost before = self.capsules@;
        let mut c = match self.take_capsule(&capsule_id) {
            None => {
                assert(shelf(self.capsules@) =~= shelf(before));
                return Err(missing("capsule", &capsule_id));
            },
            Some(c) => c,
        };
        let ghost was = c@;
        let r = c.sign_fork(capsule_id, snapshot_id, at, signer);
        let ghost after = c@;
        let ghost answer = r;
        self.put_capsule(capsule_id, c);
        assert(shelf(self.capsules@) =~= shelf(before).insert(capsule_id.rank(), after));
        assert(fork_signed(was, after, capsule_id, snapshot_id, at, *signer, answer));
        r
    }

    /// Puts a delivery into the inbox.
    pub fn receive_partial(&mut self, raw: RawManifest, from: String, at: String) -> (r: Result<
        Digest,
        Error,
    >)
        requires
            old(self).wf(),
        ensures
            final(self).wf(),
            final(self).capsules == old(self).capsules,
            r == if raw.manifest.scope is Partial {
                Ok::<Digest, Error>(raw.id)
            } else {
                Err(Error::Invalid("inbox accepts partial snapshots only"))
            },
            r is Err ==> final(self).inbox == old(self).inbox,
            r is Ok ==> final(self).inbox@ == old(self).inbox@.insert(
                raw.id.rank(),
                InboxEntry {
                    snapshot_id: raw.id,
                    manifest: raw.bytes,
                    from,
                    received_at: at,
                    read: false,
                },
            ),
    {
        if raw.manifest.scope != Scope::Partial {
            return Err(Error::Invalid("inbox accepts partial snapshots only"));
        }
        let id = raw.id;
        self.inbox.insert(
            id,
            InboxEntry {
                snapshot_id: id,
                manifest: raw.bytes,
                from,
                received_at: at,
                read: false,
            },
        );
        Ok(id)
    }

    /// Puts a snapshot into its capsule, as written by its origin. Where a signer is given, a fork
    /// gets its label with it: the snapshot and the label are filed together or not at all.
    pub fn receive_full(&mut self, raw: RawManifest, at: String, fork_signer: Option<&Identity>) -> (r:
        Result<WriteResult, Error>)
        requires
            old(self).wf(),
            fork_signer is Some && raw.manifest.capsule_id is Some && old(self).has(
                raw.manifest.capsule_id->0,
            ) ==> next_fork_seq(old(self).at(raw.manifest.capsule_id->0), raw.id) <= u64::MAX,
        ensures
            final(self).wf(),
            final(self).inbox == old(self).inbox,
            match raw.manifest.capsule_id {
                None => r == Err::<WriteResult, Error>(
                    Error::Invalid("full manifest lacks capsule id"),
                ) && shelf(final(self).capsules@) == shelf(old(self).capsules@),
                Some(id) => if !old(self).has(id) {
                    &&& r matches Err(e) && is_missing(e, "capsule", id)
                    &&& shelf(final(self).capsules@) == shelf(old(self).capsules@)
                } else {
                    exists|after: CapsuleV|
                        {
                            &&& #[trigger] filed(
                                old(self).at(id),
                                after,
                                raw,
                                at,
                                given_signer(fork_signer),
                                r,
                            )
                            &&& shelf(final(self).capsules@) == shelf(old(self).capsules@).insert(
                                id.rank(),
                                after,
                            )
                        }
                },
            },
    {
        let ghost before = self.capsules@;
        let id = match &raw.manifest.capsule_id {
            None => {
                return Err(Error::Invalid("full manifest lacks capsule id"));
            },
            Some(id) => *id,
        };
        let mut c = match self.take_capsule(&id) {
            None => {
                assert(shelf(self.capsules@) =~= shelf(before));
                return Err(missing("capsule", &id));
            },
            Some(c) => c,
        };
        let ghost was = c@;
        let ghost whole = raw;
        let ghost when = at;
        let r = c.file_snapshot(raw, at, fork_signer);
        let ghost after = c@;
        let ghost answer = r;
        self.put_capsule(id, c);
        assert(shelf(self.capsules@) =~= shelf(before).insert(id.rank(), after));
        assert(filed(
            was,
            after,
            whole,
            when,
            given_signer(fork_signer),
            answer,
        ));
        r
    }

    /// Takes note that an item of the inbox was read.
    pub fn mark_inbox_read(&mut self, id: Digest) -> (r: Result<(), Error>)
        requires
            old(self).wf(),
        ensures
            final(self).wf(),
            final(self).capsules == old(self).capsules,
            r is Ok <==> old(self).inbox@.dom().contains(id.rank()),
            r matches Err(e) ==> is_missing(e, "inbox entry", id) && final(self).inbox@
                == old(self).inbox@,
            r is Ok ==> final(self).inbox@ == old(self).inbox@.insert(
                id.rank(),
                InboxEntry { read: true, ..old(self).inbox@[id.rank()] },
            ),
    {
        let ghost before = self.inbox@;
        match self.inbox.remove(&id) {
            None => {
                assert(self.inbox@ =~= before);
                Err(missing("inbox entry", &id))
            },
            Some(e) => {
                let e = InboxEntry {
                    snapshot_id: e.snapshot_id,
                    manifest: e.manifest,
                    from: e.from,
                    received_at: e.received_at,
                    read: true,
                };
                self.inbox.insert(id, e);
                assert(self.inbox@ =~= before.insert(id.rank(), e));
                Ok(())
            },
        }
    }
}

/// The number of the next statement about the label of a fork.
pub open spec fn next_fork_seq(c: CapsuleV, snapshot: Digest) -> int {
    let k = char_rank(fork_name(snapshot));
    if c.labels.dom().contains(k) {
        c.labels[k].seq + 1
    } else {
        1
    }
}

/// The statement by which a device puts the label of a fork on a snapshot.
pub open spec fn is_fork_label(
    c: CapsuleV,
    capsule_id: Digest,
    snapshot_id: Digest,
    signer: Identity,
    op: LabelOp,
) -> bool {
    &&& op.capsule_id == capsule_id
    &&& op.op@ == "set"@
    &&& op.name@ == fork_name(snapshot_id)
    &&& op.snapshot_id == snapshot_id
    &&& op.seq == next_fork_seq(c, snapshot_id)
    &&& op.lease_epoch == held_epoch(c)
    &&& signed_record(signer, "label"@, label_members(op, None), op.sig)
}

/// A device can put the label of a fork on any snapshot, until the capsule has too many labels or
/// the device too many forks.
pub proof fn fork_label_is_taken(
    c: CapsuleV,
    snapshot_id: Digest,
    signer: Identity,
    me: PeerId,
    op: LabelOp,
)
    requires
        me.0@ == signer.peer(),
        is_fork_label(c, c.genesis.capsule_id, snapshot_id, signer, op),
        op.sig.is_regular(),
        c.labels.dom().contains(char_rank(fork_name(snapshot_id))) || (c.label_count
            < crate::capsule::MAX_LABELS && forks_v(c, me) < crate::capsule::MAX_FORK_LABELS),
    ensures
        label_fault_v(c, op, me) is None,
{
    reveal_strlit("fork/");
    reveal_strlit("main");
    let name = fork_name(snapshot_id);
    let hex = hex_text(snapshot_id.0@);
    crate::util::hex_round_trip(snapshot_id.0@, "hash");
    assert(crate::util::all_lower_hex(hex));
    assert(name.take(5) =~= "fork/"@);
    assert(name.len() == 13);
    assert(name[0] == 'f');
    assert forall|i: int| 5 <= i < 13 implies crate::util::is_lower_hex(#[trigger] name[i]) by {
        assert(name[i] == hex[i - 5]);
    }
}

/// The epoch of the lease that holds.
pub open spec fn held_epoch(c: CapsuleV) -> u64 {
    match c.held {
        Some(w) => w.epoch,
        None => 0,
    }
}

/// What is wrong with a snapshot that is to be inserted, by what the history is.
pub open spec fn snapshot_fault_v(c: CapsuleV, raw: RawManifest) -> Option<Error> {
    let m = raw.manifest;
    if !(m.scope is Full) || m.capsule_id != Some(c.genesis.capsule_id) {
        Some(Error::Invalid("snapshot is not in capsule"))
    } else if m.parents@.len() == 0 && exists|k: Seq<int>| #[trigger]
        c.snapshots.dom().contains(k) && crate::history::is_root(c.snapshots[k]) {
        Some(Error::Invalid("capsule already has a root snapshot"))
    } else {
        None
    }
}

pub(crate) proof fn snapshot_fault_of_view(c: Capsule, raw: RawManifest)
    ensures
        snapshot_fault(c, raw) == snapshot_fault_v(c@, raw),
{
    assert(c@.snapshots == c.snapshots@);
}

pub(crate) proof fn snapshot_step(before: Capsule, after: Capsule, record: SnapshotRecord)
    requires
        same_state(after, before),
        after.snapshots@.dom() == before.snapshots@.dom().insert(record.raw.id.rank()),
        forall|k: Seq<int>| #[trigger]
            before.snapshots@.dom().insert(record.raw.id.rank()).contains(k)
                ==> after.snapshots@[k] == settled(
                if k == record.raw.id.rank() {
                    record
                } else {
                    before.snapshots@[k]
                },
                before.snapshots@.dom().insert(record.raw.id.rank()),
            ),
    ensures
        after@ == with_snapshot(before@, record),
{
    assert(after@.snapshots =~= with_snapshot(before@, record).snapshots);
}

/// A lease stands before another: by epoch, and then by signature.
pub open spec fn lease_before(a: LeaseRecord, b: LeaseRecord) -> bool {
    a.epoch < b.epoch || (a.epoch == b.epoch && lex_before(
        byte_rank(a.sig.0@),
        byte_rank(b.sig.0@),
    ))
}

/// Leases in order with one more: behind all that it does not stand before.
pub open spec fn placed(s: Seq<LeaseRecord>, x: LeaseRecord) -> Seq<LeaseRecord>
    decreases s.len(),
{
    if s.len() == 0 || !lease_before(x, s.last()) {
        s.push(x)
    } else {
        placed(s.drop_last(), x).push(s.last())
    }
}

/// Leases by epoch and signature.
pub open spec fn in_order(s: Seq<LeaseRecord>) -> Seq<LeaseRecord>
    decreases s.len(),
{
    if s.len() == 0 {
        Seq::empty()
    } else {
        placed(in_order(s.drop_last()), s.last())
    }
}

fn stands_before(a: &LeaseRecord, b: &LeaseRecord) -> (r: bool)
    ensures
        r == lease_before(*a, *b),
{
    if a.epoch != b.epoch {
        return a.epoch < b.epoch;
    }
    proof {
        crate::order::lex_asymmetric(byte_rank(a.sig.0@), byte_rank(b.sig.0@));
    }
    match compare_bytes(a.sig.0.as_slice(), b.sig.0.as_slice()) {
        Side::Before => true,
        _ => false,
    }
}

fn place(out: &mut Vec<LeaseRecord>, x: LeaseRecord)
    ensures
        final(out)@ == placed(old(out)@, x),
{
    let ghost s = out@;
    let mut i: usize = out.len();
    proof {
        assert(s.take(s.len() as int) =~= s);
        assert(s.skip(s.len() as int) =~= Seq::<LeaseRecord>::empty());
        assert(placed(s, x) =~= placed(s.take(i as int), x) + s.skip(i as int));
    }
    while i > 0 && stands_before(&x, &out[i - 1])
        invariant
            i <= out@.len(),
            out@ == s,
            placed(s, x) == placed(s.take(i as int), x) + s.skip(i as int),
        decreases i,
    {
        proof {
            let a = s.take(i as int);
            assert(a.drop_last() =~= s.take(i - 1));
            assert(a.last() == s[i - 1]);
            assert(placed(s.take(i - 1), x).push(s[i - 1]) + s.skip(i as int) =~= placed(
                s.take(i - 1),
                x,
            ) + s.skip(i - 1));
        }
        i -= 1;
    }
    proof {
        let a = s.take(i as int);
        if i > 0 {
            assert(a.last() == s[i - 1]);
        }
        assert(s.insert(i as int, x) =~= a.push(x) + s.skip(i as int));
    }
    out.insert(i, x);
}

fn sort_leases(leases: &Vec<LeaseRecord>) -> (r: Vec<LeaseRecord>)
    ensures
        r@ == in_order(leases@),
{
    let mut out: Vec<LeaseRecord> = Vec::new();
    let mut i: usize = 0;
    assert(leases@.take(0) =~= Seq::<LeaseRecord>::empty());
    while i < leases.len()
        invariant
            i <= leases@.len(),
            out@ == in_order(leases@.take(i as int)),
        decreases leases.len() - i,
    {
        proof {
            assert(leases@.take(i + 1).drop_last() =~= leases@.take(i as int));
            assert(leases@.take(i + 1).last() == leases@[i as int]);
        }
        place(&mut out, leases[i].clone());
        i += 1;
    }
    assert(leases@.take(i as int) =~= leases@);
    out
}

/// A first lease.
pub open spec fn is_grant(l: LeaseRecord) -> bool {
    l.epoch == 1 && l.mode is Grant
}

/// The position of the first lease that is a grant, from `i` on.
pub open spec fn grant_at(s: Seq<LeaseRecord>, i: int) -> int
    decreases s.len() - i,
{
    if i < 0 || i >= s.len() {
        s.len() as int
    } else if is_grant(s[i]) {
        i
    } else {
        grant_at(s, i + 1)
    }
}

/// The history once snapshots have come in, one after the other; those that do not belong are
/// passed over.
pub open spec fn with_snapshots(c: CapsuleV, s: Seq<(RawManifest, String)>) -> CapsuleV
    decreases s.len(),
{
    if s.len() == 0 {
        c
    } else {
        let before = with_snapshots(c, s.drop_last());
        let raw = s.last().0;
        if snapshot_fault_v(before, raw) is Some {
            before
        } else {
            with_snapshot(
                before,
                SnapshotRecord {
                    raw,
                    received_at: s.last().1,
                    orphan: !parents_known(raw.manifest.parents@, before.snapshots.dom()),
                },
            )
        }
    }
}

/// The history once label statements have come in, one after the other.
pub open spec fn with_labels(c: CapsuleV, s: Seq<(LabelOp, PeerId)>) -> CapsuleV
    decreases s.len(),
{
    if s.len() == 0 {
        c
    } else {
        with_label(with_labels(c, s.drop_last()), s.last().0, s.last().1)
    }
}

/// What a capsule is that is read back from its records.
pub open spec fn rebuilt(
    genesis: Genesis,
    leases: Seq<LeaseRecord>,
    snapshots: Seq<(RawManifest, String)>,
    labels: Seq<(LabelOp, PeerId)>,
) -> CapsuleV {
    let sorted = in_order(leases);
    let g = grant_at(sorted, 0);
    let first = with_lease(begun(genesis), sorted[g]);
    with_labels(with_snapshots(with_leases(first, sorted.remove(g)), snapshots), labels)
}

fn find_grant(s: &Vec<LeaseRecord>) -> (r: Option<usize>)
    ensures
        r is Some <==> grant_at(s@, 0) < s@.len(),
        r matches Some(i) ==> i == grant_at(s@, 0) && i < s@.len(),
{
    let mut i: usize = 0;
    while i < s.len()
        invariant
            i <= s@.len(),
            grant_at(s@, 0) == grant_at(s@, i as int),
        decreases s.len() - i,
    {
        if s[i].epoch == 1 && s[i].mode == LeaseMode::Grant {
            return Some(i);
        }
        i += 1;
    }
    None
}

/// What is wrong with a delivery that is read back into the inbox.
pub open spec fn inbox_fault(spec_text: Seq<char>, id: Digest, raw: RawManifest) -> Option<Error> {
    if spec_text != crate::capsule::SPEC@ {
        Some(Error::Invalid("invalid inbox spec"))
    } else if !(raw.manifest.scope is Partial) || raw.id != id {
        Some(Error::Invalid("invalid inbox record"))
    } else {
        None
    }
}

/// A delivery of the inbox as it is read back from its record.
pub fn inbox_entry(
    spec_text: &str,
    id: Digest,
    raw: RawManifest,
    from: String,
    received_at: String,
    read: bool,
) -> (r: Result<InboxEntry, Error>)
    ensures
        match r {
            Err(e) => inbox_fault(spec_text@, id, raw) == Some(e),
            Ok(e) => {
                &&& inbox_fault(spec_text@, id, raw) is None
                &&& e.snapshot_id == id
                &&& e.manifest == raw.bytes
                &&& e.from == from
                &&& e.received_at == received_at
                &&& e.read == read
            },
        },
{
    if !crate::text::same_text(spec_text, crate::capsule::SPEC) {
        return Err(Error::Invalid("invalid inbox spec"));
    }
    if raw.manifest.scope != Scope::Partial || !raw.id.same(&id) {
        return Err(Error::Invalid("invalid inbox record"));
    }
    Ok(InboxEntry { snapshot_id: id, manifest: raw.bytes, from, received_at, read })
}

/// The first peer from `i` on whose signature a statement carries.
pub open spec fn signer_at(op: LabelOp, peers: Seq<PeerId>, i: int) -> int
    decreases peers.len() - i,
{
    if i >= peers.len() || record_check(peers[i], "label"@, label_members(op, None), op.sig) is Ok {
        i
    } else {
        signer_at(op, peers, i + 1)
    }
}

/// The first of some peers whose signature a statement carries; nothing where none is.
pub fn label_signer(op: &LabelOp, peers: &Vec<PeerId>) -> (r: Option<PeerId>)
    ensures
        r == if signer_at(*op, peers@, 0) < peers@.len() {
            Some(peers@[signer_at(*op, peers@, 0)])
        } else {
            None::<PeerId>
        },
{
    let mut i: usize = 0;
    while i < peers.len()
        invariant
            i <= peers@.len(),
            signer_at(*op, peers@, 0) == signer_at(*op, peers@, i as int),
        decreases peers.len() - i,
    {
        if op.verify_with(&peers[i]).is_ok() {
            return Some(peers[i]);
        }
        i += 1;
    }
    None
}

/// The holders of leases, of one epoch or of all.
pub open spec fn holders_of(leases: Seq<LeaseRecord>, epoch: Option<u64>) -> Seq<PeerId>
    decreases leases.len(),
{
    if leases.len() == 0 {
        Seq::empty()
    } else {
        let before = holders_of(leases.drop_last(), epoch);
        if epoch matches Some(n) && leases.last().epoch != n {
            before
        } else {
            before.push(leases.last().holder)
        }
    }
}

/// Who can have signed a label statement, in the order in which they are tried: the creator, the
/// holders of leases, those of its epoch first, and the writers of snapshots.
pub open spec fn label_candidates(
    op: LabelOp,
    creator: PeerId,
    leases: Seq<LeaseRecord>,
    snapshots: Seq<(RawManifest, String)>,
) -> Seq<PeerId> {
    seq![creator] + holders_of(leases, Some(op.lease_epoch)) + holders_of(leases, None) + Seq::new(
        snapshots.len(),
        |i: int| snapshots[i].0.manifest.origin,
    )
}

fn push_holders(out: &mut Vec<PeerId>, leases: &Vec<LeaseRecord>, epoch: Option<u64>)
    ensures
        final(out)@ == old(out)@ + holders_of(leases@, epoch),
{
    let ghost before = out@;
    let mut i: usize = 0;
    assert(leases@.take(0) =~= Seq::<LeaseRecord>::empty());
    assert(out@ =~= before + holders_of(leases@.take(0), epoch));
    while i < leases.len()
        invariant
            i <= leases@.len(),
            out@ == before + holders_of(leases@.take(i as int), epoch),
        decreases leases.len() - i,
    {
        assert(leases@.take(i + 1).drop_last() =~= leases@.take(i as int));
        let passed = match epoch {
            Some(n) => leases[i].epoch != n,
            None => false,
        };
        if !passed {
            out.push(leases[i].holder);
        }
        assert(out@ =~= before + holders_of(leases@.take(i + 1), epoch));
        i += 1;
    }
    assert(leases@.take(i as int) =~= leases@);
}

/// Who signed a label statement that is read back with the records of its capsule; the creator
/// where nobody who is known to it did.
pub fn label_author(
    op: &LabelOp,
    creator: PeerId,
    leases: &Vec<LeaseRecord>,
    snapshots: &Vec<(RawManifest, String)>,
) -> (r: PeerId)
    ensures
        ({
            let peers = label_candidates(*op, creator, leases@, snapshots@);
            let i = signer_at(*op, peers, 0);
            r == if i < peers.len() {
                peers[i]
            } else {
                creator
            }
        }),
{
    let mut peers: Vec<PeerId> = vec![creator];
    push_holders(&mut peers, leases, Some(op.lease_epoch));
    push_holders(&mut peers, leases, None);
    let ghost before = peers@;
    let mut i: usize = 0;
    while i < snapshots.len()
        invariant
            i <= snapshots@.len(),
            peers@ == before + Seq::new(i as nat, |j: int| snapshots@[j].0.manifest.origin),
        decreases snapshots.len() - i,
    {
        peers.push(snapshots[i].0.manifest.origin);
        i += 1;
        assert(peers@ =~= before + Seq::new(i as nat, |j: int| snapshots@[j].0.manifest.origin));
    }
    assert(peers@ =~= label_candidates(*op, creator, leases@, snapshots@));
    match label_signer(op, &peers) {
        Some(p) => p,
        None => creator,
    }
}

impl Capsule {
    /// Reads a capsule back from its records. Leases are taken in by epoch and signature; those
    /// that are not in order, and snapshots and statements that do not belong, are passed over.
    pub fn rebuild(
        genesis: Genesis,
        leases: &Vec<LeaseRecord>,
        snapshots: Vec<(RawManifest, String)>,
        labels: &Vec<(LabelOp, PeerId)>,
    ) -> (r: Result<Self, Error>)
        ensures
            ({
                let sorted = in_order(leases@);
                let g = grant_at(sorted, 0);
                match r {
                    Ok(c) => {
                        &&& genesis_check(genesis) is Ok
                        &&& g < sorted.len()
                        &&& lease_verdict(genesis, Seq::empty(), None, sorted[g]) is Wins
                        &&& c.wf()
                        &&& c@ == rebuilt(genesis, leases@, snapshots@, labels@)
                    },
                    Err(e) => match genesis_check(genesis) {
                        Err(x) => e == x,
                        Ok(()) => if g >= sorted.len() {
                            e == Error::Invalid("genesis lacks epoch-1 grant")
                        } else {
                            match lease_verdict(genesis, Seq::empty(), None, sorted[g]) {
                                LeaseVerdict::Refused(x) => e == x,
                                LeaseVerdict::Wins => false,
                                _ => e == Error::Invalid("genesis lacks epoch-1 grant"),
                            }
                        },
                    },
                }
            }),
    {
        match genesis.verify() {
            Ok(()) => {},
            Err(e) => {
                return Err(e);
            },
        }
        let mut sorted = sort_leases(leases);
        let at = match find_grant(&sorted) {
            Some(at) => at,
            None => {
                return Err(Error::Invalid("genesis lacks epoch-1 grant"));
            },
        };
        let grant = sorted.remove(at);
        let mut c = match Capsule::founded(genesis, grant) {
            Ok(c) => c,
            Err(e) => {
                return Err(e);
            },
        };
        let ghost c0 = c@;
        c.replay_leases(&sorted);
        let ghost c1 = c@;
        c.replay_snapshots(snapshots);
        let ghost c2 = c@;
        c.replay_labels(labels);
        Ok(c)
    }

    fn replay_leases(&mut self, leases: &Vec<LeaseRecord>)
        requires
            old(self).wf(),
        ensures
            final(self).wf(),
            final(self)@ == with_leases(old(self)@, leases@),
    {
        let ghost c = self@;
        let mut i: usize = 0;
        assert(leases@.take(0) =~= Seq::<LeaseRecord>::empty());
        while i < leases.len()
            invariant
                self.wf(),
                i <= leases@.len(),
                self@ == with_leases(c, leases@.take(i as int)),
            decreases leases.len() - i,
        {
            proof {
                assert(leases@.take(i + 1).drop_last() =~= leases@.take(i as int));
                assert(leases@.take(i + 1).last() == leases@[i as int]);
            }
            let ghost was = *self;
            let _ = self.accept_lease(leases[i].clone());
            proof {
                lease_step(was, *self, leases@[i as int]);
            }
            i += 1;
        }
        assert(leases@.take(i as int) =~= leases@);
    }

    fn replay_snapshots(&mut self, snapshots: Vec<(RawManifest, String)>)
        requires
            old(self).wf(),
        ensures
            final(self).wf(),
            final(self)@ == with_snapshots(old(self)@, snapshots@),
    {
        let ghost c = self@;
        let ghost all = snapshots@;
        let mut rest = snapshots;
        let mut done: usize = 0;
        let total = rest.len();
        assert(all.take(0) =~= Seq::<(RawManifest, String)>::empty());
        assert(all.skip(0) =~= all);
        while done < total
            invariant
                self.wf(),
                done <= total,
                total == all.len(),
                rest@ == all.skip(done as int),
                self@ == with_snapshots(c, all.take(done as int)),
            decreases total - done,
        {
            let (raw, at) = rest.remove(0);
            let ghost was = *self;
            let ghost record = SnapshotRecord {
                raw,
                received_at: at,
                orphan: !parents_known(raw.manifest.parents@, self.snapshots@.dom()),
            };
            proof {
                assert(all.take(done + 1).drop_last() =~= all.take(done as int));
                assert(all.take(done + 1).last() == all[done as int]);
                assert((raw, at) == all[done as int]);
                assert(rest@ =~= all.skip(done + 1));
                snapshot_fault_of_view(was, raw);
            }
            let writer = raw.manifest.origin;
            let r = self.insert_snapshot(raw, at, writer);
            proof {
                if r is Ok {
                    snapshot_step(was, *self, record);
                }
            }
            done += 1;
        }
        assert(all.take(done as int) =~= all);
    }

    fn replay_labels(&mut self, labels: &Vec<(LabelOp, PeerId)>)
        requires
            old(self).wf(),
        ensures
            final(self).wf(),
            final(self)@ == with_labels(old(self)@, labels@),
    {
        let ghost c = self@;
        let mut i: usize = 0;
        assert(labels@.take(0) =~= Seq::<(LabelOp, PeerId)>::empty());
        while i < labels.len()
            invariant
                self.wf(),
                i <= labels@.len(),
                self@ == with_labels(c, labels@.take(i as int)),
            decreases labels.len() - i,
        {
            proof {
                assert(labels@.take(i + 1).drop_last() =~= labels@.take(i as int));
                assert(labels@.take(i + 1).last() == labels@[i as int]);
                label_fault_of_view(*self, labels@[i as int].0, labels@[i as int].1);
            }
            let _ = self.apply_label(labels[i].0.clone(), labels[i].1);
            i += 1;
        }
        assert(labels@.take(i as int) =~= labels@);
    }
}

} // verus!
