//! The history of a capsule: leases, snapshots and labels as they come in.
use vstd::prelude::*;

use crate::capsule::{
    genesis_check, genesis_hash, label_members, lease_hash, lease_is, lease_members, record_check,
    CapsuleId, Genesis, LabelOp, LeaseMode, LeaseRecord, LEASE_TTL_MAX_MS, LEASE_TTL_MIN_MS,
    MAX_FORK_LABELS, MAX_LABELS, SPEC,
};
use crate::cas::Digest;
use crate::error::Error;
use crate::identity::PeerId;
use crate::manifest::{RawManifest, Scope};
use crate::net::clock::march_days;
use crate::number::{all_digits, digits_at, number, number_bound, ten_to};
use crate::order::{byte_rank, char_rank, code_point, compare_bytes, lex_before, Key, Side};
use crate::store::{
    begun, snapshot_fault_of_view, snapshot_step, with_label, with_lease, with_snapshots,
};
use crate::table::{ascending, holds_at, map_of, map_of_at, map_of_update, Table};
use crate::text::{chars_of, concat, same_text, strip_prefix, text_of};
use crate::util::hex_text;

verus! {

/// An integer with or without a sign in front; nothing where the text is not one.
pub open spec fn signed_number(s: Seq<char>) -> Option<int> {
    if s.len() == 0 {
        None
    } else if s[0] == '-' || s[0] == '+' {
        let rest = s.skip(1);
        if rest.len() == 0 || !all_digits(rest) {
            None
        } else if s[0] == '-' {
            Some(-number(rest))
        } else {
            Some(number(rest))
        }
    } else if all_digits(s) {
        Some(number(s))
    } else {
        None
    }
}

fn signed_at(s: &Vec<char>, from: usize, to: usize) -> (r: Option<i64>)
    requires
        from < to <= s@.len(),
        to - from <= 4,
    ensures
        r is Some <==> signed_number(s@.subrange(from as int, to as int)) is Some,
        r matches Some(n) ==> signed_number(s@.subrange(from as int, to as int)) == Some(n as int)
            && -9999 <= n <= 9999,
{
    let ghost part = s@.subrange(from as int, to as int);
    proof {
        reveal_with_fuel(ten_to, 5);
        assert(ten_to(4) == 10_000 && ten_to(3) == 1000 && ten_to(2) == 100 && ten_to(1) == 10);
    }
    let c = s[from];
    assert(part[0] == c);
    if c == '-' || c == '+' {
        assert(part.skip(1) =~= s@.subrange(from + 1, to as int));
        if from + 1 == to {
            return None;
        }
        proof {
            if all_digits(part.skip(1)) {
                number_bound(part.skip(1));
            }
        }
        match digits_at(s.as_slice(), from + 1, to) {
            None => None,
            Some(n) => if c == '-' {
                Some(-(n as i64))
            } else {
                Some(n as i64)
            },
        }
    } else {
        proof {
            if all_digits(part) {
                number_bound(part);
            }
        }
        match digits_at(s.as_slice(), from, to) {
            None => None,
            Some(n) => Some(n as i64),
        }
    }
}

/// The separators of a time stand where they belong.
pub open spec fn lease_time_shape(s: Seq<char>) -> bool {
    &&& s.len() == 24
    &&& forall|i: int| 0 <= i < 24 ==> (#[trigger] s[i] as int) < 128
    &&& s[4] == '-'
    &&& s[7] == '-'
    &&& s[10] == 'T'
    &&& s[13] == ':'
    &&& s[16] == ':'
    &&& s[19] == '.'
    &&& s[23] == 'Z'
}

/// The numbers between the separators.
pub open spec fn lease_time_parts(s: Seq<char>) -> Option<(int, int, int, int, int, int, int)> {
    match (
        signed_number(s.subrange(0, 4)),
        signed_number(s.subrange(5, 7)),
        signed_number(s.subrange(8, 10)),
        signed_number(s.subrange(11, 13)),
        signed_number(s.subrange(14, 16)),
        signed_number(s.subrange(17, 19)),
        signed_number(s.subrange(20, 23)),
    ) {
        (Some(y), Some(m), Some(d), Some(hh), Some(mm), Some(ss), Some(ms)) => Some(
            (y, m, d, hh, mm, ss, ms),
        ),
        _ => None,
    }
}

/// Milliseconds of a date and time. Days are counted on past the end of a month.
pub open spec fn lease_time_value(y: int, m: int, d: int, hh: int, mm: int, ss: int, ms: int) -> int {
    let y0 = if m <= 2 {
        y - 1
    } else {
        y
    };
    let mp = if m > 2 {
        m - 3
    } else {
        m + 9
    };
    let days = march_days(y0) + (153 * mp + 2) / 5 + d - 1 - 719468;
    (((days * 24 + hh) * 60 + mm) * 60 + ss) * 1000 + ms
}

/// What `timestamp_ms` answers.
pub open spec fn lease_time(s: Seq<char>) -> Result<int, Error> {
    if !lease_time_shape(s) {
        Err(Error::Invalid("noncanonical lease time"))
    } else {
        match lease_time_parts(s) {
            None => Err(Error::Invalid("noncanonical lease time")),
            Some((y, m, d, hh, mm, ss, ms)) => if !(1 <= m <= 12) || d < 1 || hh > 23 || mm > 59
                || ss > 59 {
                Err(Error::Invalid("invalid lease time"))
            } else {
                Ok(lease_time_value(y, m, d, hh, mm, ss, ms))
            },
        }
    }
}

/// Reads the time of a lease.
fn timestamp_ms(s: &str) -> (r: Result<i64, Error>)
    ensures
        r matches Ok(t) ==> lease_time(s@) == Ok::<int, Error>(t as int) && -100_000_000_000_000_000
            < t < 100_000_000_000_000_000,
        r matches Err(e) ==> lease_time(s@) == Err::<int, Error>(e),
{
    let b = chars_of(s);
    if b.len() != 24 {
        return Err(Error::Invalid("noncanonical lease time"));
    }
    let mut i: usize = 0;
    while i < 24
        invariant
            i <= 24,
            b@ == s@,
            b@.len() == 24,
            forall|j: int| 0 <= j < i ==> (#[trigger] b@[j] as int) < 128,
        decreases 24 - i,
    {
        if code_point(b[i]) >= 128 {
            return Err(Error::Invalid("noncanonical lease time"));
        }
        i += 1;
    }
    if b[4] != '-' || b[7] != '-' || b[10] != 'T' || b[13] != ':' || b[16] != ':' || b[19] != '.'
        || b[23] != 'Z' {
        return Err(Error::Invalid("noncanonical lease time"));
    }
    let (y, m, d, hh, mm, ss, ms): (i64, i64, i64, i64, i64, i64, i64) = match (
        signed_at(&b, 0, 4),
        signed_at(&b, 5, 7),
        signed_at(&b, 8, 10),
        signed_at(&b, 11, 13),
        signed_at(&b, 14, 16),
        signed_at(&b, 17, 19),
        signed_at(&b, 20, 23),
    ) {
        (Some(y), Some(m), Some(d), Some(hh), Some(mm), Some(ss), Some(ms)) => (
            y,
            m,
            d,
            hh,
            mm,
            ss,
            ms,
        ),
        _ => {
            return Err(Error::Invalid("noncanonical lease time"));
        },
    };
    if !(1 <= m && m <= 12) || d < 1 || hh > 23 || mm > 59 || ss > 59 {
        return Err(Error::Invalid("invalid lease time"));
    }
    Ok(lease_ms(y, m, d, hh, mm, ss, ms))
}

fn lease_ms(y: i64, m: i64, d: i64, hh: i64, mm: i64, ss: i64, ms: i64) -> (r: i64)
    requires
        -9999 <= y <= 9999,
        1 <= m <= 12,
        -9999 <= d <= 9999,
        -9999 <= hh <= 9999,
        -9999 <= mm <= 9999,
        -9999 <= ss <= 9999,
        -9999 <= ms <= 9999,
    ensures
        r == lease_time_value(
            y as int,
            m as int,
            d as int,
            hh as int,
            mm as int,
            ss as int,
            ms as int,
        ),
        -100_000_000_000_000_000 < r < 100_000_000_000_000_000,
{
    let y0: i64 = if m <= 2 {
        y - 1
    } else {
        y
    };
    // Shifted by whole eras of 400 years, so that no division meets a negative number.
    let shifted: u64 = (y0 + 12_000) as u64;
    let mp: u64 = if m > 2 {
        (m - 3) as u64
    } else {
        (m + 9) as u64
    };
    let days: i64 = (365 * shifted + shifted / 4 - shifted / 100 + shifted / 400) as i64 - 4_382_910
        + ((153 * mp + 2) / 5) as i64 + d - 1 - 719_468;
    proof {
        let z = y0 as int;
        assert((z + 12_000) / 4 == z / 4 + 3000);
        assert((z + 12_000) / 100 == z / 100 + 120);
        assert((z + 12_000) / 400 == z / 400 + 30);
    }
    (((days * 24 + hh) * 60 + mm) * 60 + ss) * 1000 + ms
}

/// A snapshot of a capsule.
#[derive(Clone, Debug, PartialEq, Eq)]
pub struct SnapshotRecord {
    pub raw: RawManifest,
    pub received_at: String,
    /// Some parent has not arrived yet.
    pub orphan: bool,
}

/// What came of a snapshot that was inserted.
#[derive(Debug, PartialEq, Eq)]
pub struct WriteResult {
    pub snapshot_id: Digest,
    pub forked: bool,
    pub fork_label: Option<String>,
}

/// The history of a capsule.
#[derive(Clone, Debug, PartialEq, Eq)]
pub struct Capsule {
    pub genesis: Genesis,
    pub snapshots: Table<Digest, SnapshotRecord>,
    pub leases: Vec<LeaseRecord>,
    /// The position of the lease that holds.
    pub winner: Option<usize>,
    pub labels: Table<String, LabelOp>,
    pub fork_counts: Table<PeerId, u32>,
    /// Leases that do not follow the one that holds, kept as evidence.
    pub evidence: Vec<LeaseRecord>,
}

impl Capsule {
    /// The tables are in order, and the lease that holds is one of the leases.
    pub open spec fn wf(&self) -> bool {
        &&& self.snapshots.wf()
        &&& self.labels.wf()
        &&& self.fork_counts.wf()
        &&& self.winner matches Some(i) ==> i < self.leases@.len()
    }

    /// The lease that holds.
    pub open spec fn held(&self) -> Option<LeaseRecord> {
        match self.winner {
            Some(i) => Some(self.leases@[i as int]),
            None => None,
        }
    }

    /// A capsule with nothing in it.
    pub fn new(genesis: Genesis) -> (r: Result<Self, Error>)
        ensures
            r matches Err(e) ==> genesis_check(genesis) == Err::<(), Error>(e),
            r matches Ok(c) ==> {
                &&& genesis_check(genesis) is Ok
                &&& c.wf()
                &&& c.genesis == genesis
                &&& c.snapshots@ == Map::<Seq<int>, SnapshotRecord>::empty()
                &&& c.leases@.len() == 0
                &&& c.winner is None
                &&& c.labels@ == Map::<Seq<int>, LabelOp>::empty()
                &&& c.labels.entries@.len() == 0
                &&& c.fork_counts@ == Map::<Seq<int>, u32>::empty()
                &&& c.evidence@.len() == 0
                &&& c@ == begun(genesis)
            },
    {
        match genesis.verify() {
            Ok(()) => {},
            Err(e) => {
                return Err(e);
            },
        }
        Ok(
            Capsule {
                genesis,
                snapshots: Table::new(),
                leases: Vec::new(),
                winner: None,
                labels: Table::new(),
                fork_counts: Table::new(),
                evidence: Vec::new(),
            },
        )
    }

    /// The lease that holds.
    pub fn winning_lease(&self) -> (r: Option<&LeaseRecord>)
        requires
            self.wf(),
        ensures
            r is Some <==> self.held() is Some,
            r matches Some(l) ==> self.held() == Some(*l),
    {
        match self.winner {
            Some(i) => Some(&self.leases[i]),
            None => None,
        }
    }

    /// All leases that were accepted, in the order they came.
    pub fn leases(&self) -> (r: &Vec<LeaseRecord>)
        ensures
            *r == self.leases,
    {
        &self.leases
    }

    /// The snapshot of an id.
    pub fn snapshot(&self, id: &Digest) -> (r: Option<&SnapshotRecord>)
        requires
            self.wf(),
        ensures
            r is Some <==> self.snapshots@.dom().contains(id.rank()),
            r matches Some(s) ==> *s == self.snapshots@[id.rank()],
    {
        self.snapshots.get(id)
    }

    /// The statement that a label stands on.
    pub fn label(&self, n: &str) -> (r: Option<&LabelOp>)
        requires
            self.wf(),
        ensures
            r is Some <==> self.labels@.dom().contains(char_rank(n@)),
            r matches Some(l) ==> *l == self.labels@[char_rank(n@)],
    {
        let key = n.to_owned();
        self.labels.get(&key)
    }
}

/// What a lease that came in is to the capsule.
pub enum LeaseVerdict {
    /// It is not a lease that could be accepted.
    Refused(Error),
    /// It does not follow the lease that holds.
    Evidence,
    /// It is in order, but another of the same epoch holds.
    Loses,
    /// It holds from now on.
    Wins,
}

/// The form of a lease, and how long it lasts.
pub open spec fn lease_form(capsule: CapsuleId, r: LeaseRecord) -> Option<Error> {
    if r.spec@ != SPEC@ || r.record_type@ != "lease"@ || r.capsule_id != capsule || r.epoch == 0 {
        Some(Error::Invalid("invalid lease record"))
    } else {
        match (lease_time(r.expires_at@), lease_time(r.acquired_at@)) {
            (Err(e), _) => Some(e),
            (_, Err(e)) => Some(e),
            (Ok(end), Ok(start)) => if LEASE_TTL_MIN_MS <= end - start <= LEASE_TTL_MAX_MS {
                None
            } else {
                Some(Error::Invalid("lease TTL outside 60s..=7d"))
            },
        }
    }
}

/// Two leases claim the same epoch after the same predecessor.
pub open spec fn races(held: Option<LeaseRecord>, r: LeaseRecord) -> bool {
    held matches Some(w) && r.epoch == w.epoch && r.prev_hash == w.prev_hash
}

/// The position of the first lease with a hash, from `i` on.
pub open spec fn lease_at(s: Seq<LeaseRecord>, h: Digest, i: int) -> int
    decreases s.len() - i,
{
    if i < 0 || i >= s.len() {
        s.len() as int
    } else if lease_is(s[i], h) {
        i
    } else {
        lease_at(s, h, i + 1)
    }
}

/// What a lease has to follow: a hash, an epoch, and a holder.
pub struct Predecessor {
    pub hash: Seq<u8>,
    pub epoch: int,
    pub holder: PeerId,
}

/// What a lease has to follow.
pub open spec fn predecessor(
    genesis: Genesis,
    leases: Seq<LeaseRecord>,
    held: Option<LeaseRecord>,
    r: LeaseRecord,
) -> Result<Predecessor, Error> {
    let first = match genesis_hash(genesis) {
        Ok(h) => Ok(Predecessor { hash: h, epoch: 0, holder: genesis.created_by }),
        Err(e) => Err(e),
    };
    if races(held, r) {
        if r.epoch == 1 {
            first
        } else {
            let i = lease_at(leases, r.prev_hash, 0);
            if i < leases.len() {
                Ok(
                    Predecessor {
                        hash: r.prev_hash.0@,
                        epoch: leases[i].epoch as int,
                        holder: leases[i].holder,
                    },
                )
            } else {
                Err(Error::Invalid("lease race predecessor unavailable"))
            }
        }
    } else {
        match held {
            None => first,
            Some(w) => match lease_hash(w) {
                Ok(h) => Ok(Predecessor { hash: h, epoch: w.epoch as int, holder: w.holder }),
                Err(e) => Err(e),
            },
        }
    }
}

/// Who may do what with a lease.
pub open spec fn lease_rule(genesis: Genesis, p: Predecessor, r: LeaseRecord) -> Option<Error> {
    if r.epoch == 1 && !(r.mode is Grant) {
        Some(Error::Invalid("epoch 1 must be a grant"))
    } else if r.mode is Grant && (r.epoch != 1 || r.holder != genesis.created_by) {
        Some(Error::Invalid("invalid grant"))
    } else if r.mode is Refresh && r.holder != p.holder {
        Some(Error::Invalid("refresh changes holder"))
    } else {
        let signer = if r.mode is Takeover {
            r.holder
        } else {
            p.holder
        };
        match record_check(signer, "lease"@, lease_members(r, None), r.sig) {
            Err(e) => Some(e),
            Ok(()) => None,
        }
    }
}

/// The signature of one lease stands behind that of another.
pub open spec fn signed_higher(r: LeaseRecord, w: LeaseRecord) -> bool {
    lex_before(byte_rank(w.sig.0@), byte_rank(r.sig.0@))
}

/// What a lease that came in is to a capsule.
#[verifier::opaque]
pub open spec fn lease_verdict(
    genesis: Genesis,
    leases: Seq<LeaseRecord>,
    held: Option<LeaseRecord>,
    r: LeaseRecord,
) -> LeaseVerdict {
    if lease_form(genesis.capsule_id, r) is Some {
        LeaseVerdict::Refused(lease_form(genesis.capsule_id, r)->0)
    } else {
        match predecessor(genesis, leases, held, r) {
            Err(e) => LeaseVerdict::Refused(e),
            Ok(p) => if r.prev_hash.0@ != p.hash || r.epoch != p.epoch + 1 {
                LeaseVerdict::Evidence
            } else if lease_rule(genesis, p, r) is Some {
                LeaseVerdict::Refused(lease_rule(genesis, p, r)->0)
            } else if races(held, r) && !signed_higher(r, held->0) {
                LeaseVerdict::Loses
            } else {
                LeaseVerdict::Wins
            },
        }
    }
}

fn check_lease_form(capsule: &CapsuleId, r: &LeaseRecord) -> (x: Option<Error>)
    ensures
        x == lease_form(*capsule, *r),
{
    if !same_text(r.spec.as_str(), SPEC) || !same_text(r.record_type.as_str(), "lease")
        || !r.capsule_id.same(capsule) || r.epoch == 0 {
        return Some(Error::Invalid("invalid lease record"));
    }
    let end = match timestamp_ms(r.expires_at.as_str()) {
        Ok(t) => t,
        Err(e) => {
            return Some(e);
        },
    };
    let start = match timestamp_ms(r.acquired_at.as_str()) {
        Ok(t) => t,
        Err(e) => {
            return Some(e);
        },
    };
    let ttl: i64 = end - start;
    if ttl < 60_000 || ttl > 604_800_000 {
        return Some(Error::Invalid("lease TTL outside 60s..=7d"));
    }
    None
}

fn check_lease_rule(genesis: &Genesis, hash: &Digest, epoch: u64, holder: &PeerId, r: &LeaseRecord) -> (x:
    Option<Error>)
    ensures
        x == lease_rule(
            *genesis,
            (Predecessor { hash: hash.0@, epoch: epoch as int, holder: *holder }),
            *r,
        ),
{
    if r.epoch == 1 && r.mode != LeaseMode::Grant {
        return Some(Error::Invalid("epoch 1 must be a grant"));
    }
    if r.mode == LeaseMode::Grant && (r.epoch != 1 || !r.holder.same(&genesis.created_by)) {
        return Some(Error::Invalid("invalid grant"));
    }
    if r.mode == LeaseMode::Refresh && !r.holder.same(holder) {
        return Some(Error::Invalid("refresh changes holder"));
    }
    let signer = if r.mode == LeaseMode::Takeover {
        r.holder
    } else {
        *holder
    };
    match r.verify_with(&signer) {
        Ok(()) => None,
        Err(e) => Some(e),
    }
}

fn find_lease(leases: &Vec<LeaseRecord>, h: &Digest) -> (r: Option<usize>)
    ensures
        r is Some <==> lease_at(leases@, *h, 0) < leases@.len(),
        r matches Some(i) ==> i == lease_at(leases@, *h, 0) && i < leases@.len(),
{
    let mut i: usize = 0;
    while i < leases.len()
        invariant
            i <= leases@.len(),
            lease_at(leases@, *h, 0) == lease_at(leases@, *h, i as int),
        decreases leases.len() - i,
    {
        if leases[i].has_hash(h) {
            return Some(i);
        }
        i += 1;
    }
    None
}

impl Capsule {
    fn find_predecessor(&self, r: &LeaseRecord, race: bool) -> (x: Result<
        (Digest, u64, PeerId),
        Error,
    >)
        requires
            self.wf(),
            race == races(self.held(), *r),
        ensures
            x matches Ok(p) ==> predecessor(self.genesis, self.leases@, self.held(), *r) == Ok::<
                Predecessor,
                Error,
            >(Predecessor { hash: p.0.0@, epoch: p.1 as int, holder: p.2 }),
            x matches Err(e) ==> predecessor(self.genesis, self.leases@, self.held(), *r) == Err::<
                Predecessor,
                Error,
            >(e),
    {
        if race && r.epoch != 1 {
            return match find_lease(&self.leases, &r.prev_hash) {
                Some(i) => Ok((r.prev_hash, self.leases[i].epoch, self.leases[i].holder)),
                None => Err(Error::Invalid("lease race predecessor unavailable")),
            };
        }
        let held = self.winning_lease();
        match held {
            Some(w) => {
                if !race {
                    return match w.hash() {
                        Ok(h) => Ok((h, w.epoch, w.holder)),
                        Err(e) => Err(e),
                    };
                }
            },
            None => {},
        }
        match self.genesis.hash() {
            Ok(h) => Ok((h, 0, self.genesis.created_by)),
            Err(e) => Err(e),
        }
    }

    /// Takes in a lease; tells whether it holds from now on.
    pub fn accept_lease(&mut self, r: LeaseRecord) -> (x: Result<bool, Error>)
        requires
            old(self).wf(),
        ensures
            final(self).wf(),
            final(self).genesis == old(self).genesis,
            final(self).snapshots == old(self).snapshots,
            final(self).labels == old(self).labels,
            final(self).fork_counts == old(self).fork_counts,
            match lease_verdict(old(self).genesis, old(self).leases@, old(self).held(), r) {
                LeaseVerdict::Refused(e) => x == Err::<bool, Error>(e) && *final(self) == *old(
                    self,
                ),
                LeaseVerdict::Evidence => {
                    &&& x == Ok::<bool, Error>(false)
                    &&& final(self).leases == old(self).leases
                    &&& final(self).winner == old(self).winner
                    &&& final(self).evidence@ == old(self).evidence@.push(r)
                },
                LeaseVerdict::Loses => {
                    &&& x == Ok::<bool, Error>(false)
                    &&& final(self).leases@ == old(self).leases@.push(r)
                    &&& final(self).winner == old(self).winner
                    &&& final(self).evidence == old(self).evidence
                },
                LeaseVerdict::Wins => {
                    &&& x == Ok::<bool, Error>(true)
                    &&& final(self).leases@ == old(self).leases@.push(r)
                    &&& final(self).held() == Some(r)
                    &&& final(self).evidence == old(self).evidence
                },
            },
            final(self)@ == with_lease(old(self)@, r),
    {
        proof {
            reveal(lease_verdict);
        }
        match check_lease_form(&self.genesis.capsule_id, &r) {
            Some(e) => {
                return Err(e);
            },
            None => {},
        }
        let race = match self.winning_lease() {
            Some(w) => r.epoch == w.epoch && r.prev_hash.same(&w.prev_hash),
            None => false,
        };
        let (prev, prev_epoch, old_holder) = match self.find_predecessor(&r, race) {
            Ok(p) => p,
            Err(e) => {
                return Err(e);
            },
        };
        proof {
            crate::bytes::array_extensional(r.prev_hash.0, prev.0);
        }
        if !r.prev_hash.same(&prev) || prev_epoch == u64::MAX || r.epoch != prev_epoch + 1 {
            self.evidence.push(r);
            return Ok(false);
        }
        match check_lease_rule(&self.genesis, &prev, prev_epoch, &old_holder, &r) {
            Some(e) => {
                return Err(e);
            },
            None => {},
        }
        if race {
            let higher = match self.winning_lease() {
                Some(w) => match compare_bytes(r.sig.0.as_slice(), w.sig.0.as_slice()) {
                    Side::After => {
                        proof {
                            crate::order::lex_total(byte_rank(r.sig.0@), byte_rank(w.sig.0@));
                        }
                        true
                    },
                    _ => {
                        proof {
                            crate::order::lex_asymmetric(
                                byte_rank(r.sig.0@),
                                byte_rank(w.sig.0@),
                            );
                        }
                        false
                    },
                },
                None => false,
            };
            if !higher {
                self.leases.push(r);
                return Ok(false);
            }
        }
        self.leases.push(r);
        self.winner = Some(self.leases.len() - 1);
        Ok(true)
    }
}

/// All parents of a snapshot are among the known ones.
pub open spec fn parents_known(parents: Seq<Digest>, known: Set<Seq<int>>) -> bool {
    forall|i: int| 0 <= i < parents.len() ==> known.contains((#[trigger] parents[i]).rank())
}

/// A snapshot that follows no other.
pub open spec fn is_root(s: SnapshotRecord) -> bool {
    s.raw.manifest.parents@.len() == 0
}

/// The record, no longer an orphan where all its parents are known.
pub open spec fn settled(s: SnapshotRecord, known: Set<Seq<int>>) -> SnapshotRecord {
    SnapshotRecord {
        orphan: s.orphan && !parents_known(s.raw.manifest.parents@, known),
        ..s
    }
}

/// What is wrong with a snapshot that is to be inserted.
pub open spec fn snapshot_fault(c: Capsule, raw: RawManifest) -> Option<Error> {
    let m = raw.manifest;
    if !(m.scope is Full) || m.capsule_id != Some(c.genesis.capsule_id) {
        Some(Error::Invalid("snapshot is not in capsule"))
    } else if m.parents@.len() == 0 && exists|k: Seq<int>| #[trigger]
        c.snapshots@.dom().contains(k) && is_root(c.snapshots@[k]) {
        Some(Error::Invalid("capsule already has a root snapshot"))
    } else {
        None
    }
}

/// The name of the label of a fork: eight digits of the snapshot's id.
pub open spec fn fork_name(id: Digest) -> Seq<char> {
    "fork/"@ + hex_text(id.0@).take(8)
}

/// The name of the label of a fork.
pub fn fork_label(id: &Digest) -> (r: String)
    ensures
        r@ == fork_name(*id),
{
    let hex = chars_of(id.to_hex().as_str());
    assert(hex@.subrange(0, 8) =~= hex_text(id.0@).take(8));
    concat("fork/", text_of(vstd::slice::slice_subrange(hex.as_slice(), 0, 8)).as_str())
}

fn all_known(parents: &Vec<Digest>, snapshots: &Table<Digest, SnapshotRecord>) -> (r: bool)
    requires
        snapshots.wf(),
    ensures
        r == parents_known(parents@, snapshots@.dom()),
{
    let mut i: usize = 0;
    while i < parents.len()
        invariant
            snapshots.wf(),
            i <= parents@.len(),
            forall|j: int|
                0 <= j < i ==> snapshots@.dom().contains((#[trigger] parents@[j]).rank()),
        decreases parents.len() - i,
    {
        if !snapshots.contains(&parents[i]) {
            return false;
        }
        i += 1;
    }
    true
}

/// Orphans whose parents are all known are orphans no more.
fn resolve_orphans(t: &mut Table<Digest, SnapshotRecord>)
    requires
        old(t).wf(),
    ensures
        final(t).wf(),
        final(t)@.dom() == old(t)@.dom(),
        forall|k: Seq<int>| #[trigger]
            final(t)@.dom().contains(k) ==> final(t)@[k] == settled(
                old(t)@[k],
                old(t)@.dom(),
            ),
{
    let ghost m0 = t@;
    let ghost s0 = t.entries@;
    let mut i: usize = 0;
    while i < t.entries.len()
        invariant
            t.wf(),
            i <= t.entries@.len(),
            t.entries@.len() == s0.len(),
            ascending(s0),
            m0 == map_of(s0),
            t@.dom() == m0.dom(),
            forall|j: int| 0 <= j < s0.len() ==> (#[trigger] t.entries@[j]).0 == s0[j].0,
            forall|j: int| i <= j < s0.len() ==> (#[trigger] t.entries@[j]).1 == s0[j].1,
            forall|j: int|
                0 <= j < i ==> (#[trigger] t.entries@[j]).1 == settled(s0[j].1, m0.dom()),
        decreases t.entries.len() - i,
    {
        let resolved = t.entries[i].1.orphan && all_known(
            &t.entries[i].1.raw.manifest.parents,
            t,
        );
        if resolved {
            let ghost was = t.entries@;
            let (k, e) = t.entries.remove(i);
            let e = SnapshotRecord { raw: e.raw, received_at: e.received_at, orphan: false };
            t.entries.insert(i, (k, e));
            proof {
                let now_s = t.entries@;
                assert(now_s =~= was.update(i as int, (k, e)));
                map_of_update(was, i as int, k, e);
                map_of_at(was, i as int);
                assert(t@.dom() =~= m0.dom());
                assert forall|j: int| 0 <= j < s0.len() implies (#[trigger] now_s[j]).0
                    == s0[j].0 by {
                    assert(was[j].0 == s0[j].0);
                }
                assert forall|j: int| i < j < s0.len() implies (#[trigger] now_s[j]).1
                    == s0[j].1 by {
                    assert(was[j].1 == s0[j].1);
                }
                assert forall|j: int| 0 <= j < i implies (#[trigger] now_s[j]).1 == settled(
                    s0[j].1,
                    m0.dom(),
                ) by {
                    assert(was[j] == now_s[j]);
                }
            }
        }
        i += 1;
    }
    proof {
        let s1 = t.entries@;
        assert forall|k: Seq<int>| #[trigger] t@.dom().contains(k) implies t@[k] == settled(
            m0[k],
            m0.dom(),
        ) by {
            let j = choose|j: int| holds_at(s1, k, j);
            map_of_at(s1, j);
            assert(s1[j].0 == s0[j].0);
            map_of_at(s0, j);
        }
    }
}

/// The part of a capsule that snapshots do not touch.
pub open spec fn same_state(a: Capsule, b: Capsule) -> bool {
    &&& a.genesis == b.genesis
    &&& a.leases == b.leases
    &&& a.winner == b.winner
    &&& a.labels == b.labels
    &&& a.fork_counts == b.fork_counts
    &&& a.evidence == b.evidence
}

impl Capsule {
    /// What is wrong with a snapshot that is to be inserted.
    pub fn check_snapshot(&self, raw: &RawManifest) -> (r: Option<Error>)
        requires
            self.wf(),
        ensures
            r == snapshot_fault(*self, *raw),
    {
        let mine = match &raw.manifest.capsule_id {
            Some(c) => c.same(&self.genesis.capsule_id),
            None => false,
        };
        if raw.manifest.scope != Scope::Full || !mine {
            return Some(Error::Invalid("snapshot is not in capsule"));
        }
        if raw.manifest.parents.len() == 0 {
            let root = |k: &Digest, s: &SnapshotRecord| -> (b: bool)
                ensures
                    b == is_root(*s),
                { s.raw.manifest.parents.len() == 0 };
            if self.snapshots.any(root, Ghost(|k: Seq<int>, s: SnapshotRecord| is_root(s))) {
                return Some(Error::Invalid("capsule already has a root snapshot"));
            }
        }
        None
    }

    /// Whether a snapshot is a fork: its writer does not hold the lease, or a parent has not arrived
    /// yet.
    pub fn forks(&self, raw: &RawManifest, writer: PeerId) -> (r: bool)
        requires
            self.wf(),
        ensures
            r == (!(self.held() matches Some(l) && l.holder == writer) || !parents_known(
                raw.manifest.parents@,
                self.snapshots@.dom(),
            )),
    {
        let lease_ok = match self.winning_lease() {
            Some(l) => l.holder.same(&writer),
            None => false,
        };
        !lease_ok || !all_known(&raw.manifest.parents, &self.snapshots)
    }

    /// Inserts a snapshot. It is a fork where its writer does not hold the lease, or where a
    /// parent has not arrived yet.
    pub fn insert_snapshot(&mut self, raw: RawManifest, received_at: String, writer: PeerId) -> (x:
        Result<WriteResult, Error>)
        requires
            old(self).wf(),
        ensures
            final(self).wf(),
            ({
                let fault = snapshot_fault(*old(self), raw);
                let id = raw.id;
                let orphan = !parents_known(
                    raw.manifest.parents@,
                    old(self).snapshots@.dom(),
                );
                let holds = old(self).held() matches Some(l) && l.holder == writer;
                let record = SnapshotRecord { raw, received_at, orphan };
                let known = old(self).snapshots@.dom().insert(id.rank());
                match x {
                    Err(e) => fault == Some(e) && *final(self) == *old(self),
                    Ok(w) => {
                        &&& fault is None
                        &&& w.snapshot_id == id
                        &&& w.forked == (!holds || orphan)
                        &&& w.fork_label is Some <==> w.forked
                        &&& w.fork_label matches Some(name) ==> name@ == fork_name(id)
                        &&& same_state(*final(self), *old(self))
                        &&& final(self).snapshots@.dom() == known
                        &&& forall|k: Seq<int>| #[trigger]
                            known.contains(k) ==> final(self).snapshots@[k] == settled(
                                if k == id.rank() {
                                    record
                                } else {
                                    old(self).snapshots@[k]
                                },
                                known,
                            )
                    },
                }
            }),
            final(self)@ == with_snapshots(old(self)@, seq![(raw, received_at)]),
    {
        proof {
            let s = seq![(raw, received_at)];
            assert(s.drop_last().len() == 0);
            assert(with_snapshots(self@, s.drop_last()) == self@);
            snapshot_fault_of_view(*self, raw);
        }
        match self.check_snapshot(&raw) {
            Some(e) => {
                return Err(e);
            },
            None => {},
        }
        let orphan = !all_known(&raw.manifest.parents, &self.snapshots);
        let id = raw.id;
        let ghost record = SnapshotRecord { raw, received_at, orphan };
        let ghost before = self.snapshots@;
        self.snapshots.insert(id, SnapshotRecord { raw, received_at, orphan });
        assert(self.snapshots@.dom() =~= before.dom().insert(id.rank()));
        resolve_orphans(&mut self.snapshots);
        let lease_ok = match self.winning_lease() {
            Some(l) => l.holder.same(&writer),
            None => false,
        };
        let forked = !lease_ok || orphan;
        let fork = if forked {
            Some(fork_label(&id))
        } else {
            None
        };
        proof {
            snapshot_step(*old(self), *self, record);
        }
        Ok(WriteResult { snapshot_id: id, forked, fork_label: fork })
    }
}

/// A lowercase letter, a digit, or one of the signs that labels may have.
pub open spec fn label_char(c: char) -> bool {
    ||| 'a' <= c <= 'z'
    ||| '0' <= c <= '9'
    ||| c == '.'
    ||| c == '_'
    ||| c == ':'
    ||| c == '-'
}

/// A label whose name begins like that of a fork.
pub open spec fn is_fork_name(name: Seq<char>) -> bool {
    crate::bytes::has_prefix(name, "fork/"@)
}

/// What is wrong with the name of a label other than `main`.
pub open spec fn label_name_fault(name: Seq<char>) -> Option<Error> {
    if is_fork_name(name) {
        if name.len() != 13 || exists|i: int|
            5 <= i < 13 && !crate::util::is_lower_hex(#[trigger] name[i]) {
            Some(Error::Invalid("invalid fork label"))
        } else {
            None
        }
    } else if name.len() > 64 || name.len() == 0 || exists|i: int|
        0 <= i < name.len() && !label_char(#[trigger] name[i]) {
        Some(Error::Invalid("invalid user label"))
    } else {
        None
    }
}

/// What is wrong with a statement that moves `main`.
pub open spec fn main_fault(c: Capsule, op: LabelOp, signer: PeerId) -> Option<Error> {
    match c.held() {
        None => Some(Error::Invalid("main requires lease")),
        Some(w) => if signer != w.holder || op.lease_epoch != w.epoch {
            Some(Error::Invalid("unauthorized main move"))
        } else if !c.snapshots@.dom().contains(op.snapshot_id.rank())
            || c.snapshots@[op.snapshot_id.rank()].orphan {
            Some(Error::Invalid("main target missing or orphan"))
        } else {
            None
        },
    }
}

/// The statement takes the place of the one that the label stands on.
pub open spec fn label_wins(c: Capsule, op: LabelOp) -> bool {
    let k = char_rank(op.name@);
    c.labels@.dom().contains(k) ==> {
        let old_op = c.labels@[k];
        op.seq > old_op.seq || (op.seq == old_op.seq && lex_before(
            byte_rank(old_op.sig.0@),
            byte_rank(op.sig.0@),
        ))
    }
}

/// How many fork labels a peer has set.
pub open spec fn forks_of(c: Capsule, peer: PeerId) -> u32 {
    if c.fork_counts@.dom().contains(peer.rank()) {
        c.fork_counts@[peer.rank()]
    } else {
        0
    }
}

/// The statement would add a fork label.
pub open spec fn new_fork(c: Capsule, op: LabelOp) -> bool {
    is_fork_name(op.name@) && !c.labels@.dom().contains(char_rank(op.name@))
}

/// What is wrong with a label statement.
pub open spec fn label_fault(c: Capsule, op: LabelOp, signer: PeerId) -> Option<Error> {
    if op.capsule_id != c.genesis.capsule_id || op.op@ != "set"@ {
        Some(Error::Invalid("invalid label op"))
    } else if record_check(signer, "label"@, label_members(op, None), op.sig) is Err {
        Some(record_check(signer, "label"@, label_members(op, None), op.sig)->Err_0)
    } else if op.name@ == "main"@ && main_fault(c, op, signer) is Some {
        main_fault(c, op, signer)
    } else if op.name@ != "main"@ && label_name_fault(op.name@) is Some {
        label_name_fault(op.name@)
    } else if !c.labels@.dom().contains(char_rank(op.name@)) && c.labels.entries@.len()
        >= MAX_LABELS {
        Some(Error::Invalid("capsule label limit exceeded"))
    } else if label_wins(c, op) && new_fork(c, op) && forks_of(c, signer) >= MAX_FORK_LABELS {
        Some(Error::Invalid("fork label limit exceeded"))
    } else {
        None
    }
}

fn check_label_name(name: &str) -> (r: Option<Error>)
    ensures
        r == label_name_fault(name@),
{
    let s = chars_of(name);
    if strip_prefix(name, "fork/").is_some() {
        proof {
            reveal_strlit("fork/");
        }
        if s.len() != 13 {
            return Some(Error::Invalid("invalid fork label"));
        }
        let mut i: usize = 5;
        while i < 13
            invariant
                5 <= i <= 13,
                s@ == name@,
                s@.len() == 13,
                is_fork_name(name@),
                forall|j: int| 5 <= j < i ==> crate::util::is_lower_hex(#[trigger] name@[j]),
            decreases 13 - i,
        {
            let c = s[i];
            if !(('0' <= c && c <= '9') || ('a' <= c && c <= 'f')) {
                assert(!crate::util::is_lower_hex(name@[i as int]));
                return Some(Error::Invalid("invalid fork label"));
            }
            i += 1;
        }
        return None;
    }
    if s.len() > 64 || s.len() == 0 {
        return Some(Error::Invalid("invalid user label"));
    }
    let mut i: usize = 0;
    while i < s.len()
        invariant
            i <= s@.len(),
            s@ == name@,
            0 < s@.len() <= 64,
            !is_fork_name(name@),
            forall|j: int| 0 <= j < i ==> label_char(#[trigger] name@[j]),
        decreases s.len() - i,
    {
        let c = s[i];
        if !(('a' <= c && c <= 'z') || ('0' <= c && c <= '9') || c == '.' || c == '_' || c == ':'
            || c == '-') {
            assert(!label_char(name@[i as int]));
            return Some(Error::Invalid("invalid user label"));
        }
        i += 1;
    }
    None
}

impl Capsule {
    fn check_main(&self, op: &LabelOp, signer: &PeerId) -> (r: Option<Error>)
        requires
            self.wf(),
        ensures
            r == main_fault(*self, *op, *signer),
    {
        match self.winning_lease() {
            None => Some(Error::Invalid("main requires lease")),
            Some(w) => {
                if !signer.same(&w.holder) || op.lease_epoch != w.epoch {
                    return Some(Error::Invalid("unauthorized main move"));
                }
                match self.snapshots.get(&op.snapshot_id) {
                    None => Some(Error::Invalid("main target missing or orphan")),
                    Some(s) => if s.orphan {
                        Some(Error::Invalid("main target missing or orphan"))
                    } else {
                        None
                    },
                }
            },
        }
    }

    /// Takes in a label statement; tells whether the label stands on it from now on. The later
    /// statement wins, by its number and then by its signature.
    pub fn apply_label(&mut self, op: LabelOp, signer: PeerId) -> (x: Result<bool, Error>)
        requires
            old(self).wf(),
        ensures
            final(self).wf(),
            final(self).genesis == old(self).genesis,
            final(self).snapshots == old(self).snapshots,
            final(self).leases == old(self).leases,
            final(self).winner == old(self).winner,
            final(self).evidence == old(self).evidence,
            ({
                let fault = label_fault(*old(self), op, signer);
                match x {
                    Err(e) => fault == Some(e) && *final(self) == *old(self),
                    Ok(won) => {
                        &&& fault is None
                        &&& won == label_wins(*old(self), op)
                        &&& final(self).labels@ == if won {
                            old(self).labels@.insert(char_rank(op.name@), op)
                        } else {
                            old(self).labels@
                        }
                        &&& final(self).labels.entries@.len() == old(self).labels.entries@.len() + (
                        if won && !old(self).labels@.dom().contains(char_rank(op.name@)) {
                            1int
                        } else {
                            0int
                        })
                        &&& final(self).fork_counts@ == if won && new_fork(*old(self), op) {
                            old(self).fork_counts@.insert(
                                signer.rank(),
                                (forks_of(*old(self), signer) + 1) as u32,
                            )
                        } else {
                            old(self).fork_counts@
                        }
                    },
                }
            }),
            final(self)@ == with_label(old(self)@, op, signer),
    {
        if !op.capsule_id.same(&self.genesis.capsule_id) || !same_text(op.op.as_str(), "set") {
            return Err(Error::Invalid("invalid label op"));
        }
        match op.verify_with(&signer) {
            Ok(()) => {},
            Err(e) => {
                return Err(e);
            },
        }
        let name_fault = if same_text(op.name.as_str(), "main") {
            self.check_main(&op, &signer)
        } else {
            check_label_name(op.name.as_str())
        };
        match name_fault {
            Some(e) => {
                return Err(e);
            },
            None => {},
        }
        let known = self.labels.contains(&op.name);
        if !known && self.labels.len() >= MAX_LABELS {
            return Err(Error::Invalid("capsule label limit exceeded"));
        }
        let wins = match self.labels.get(&op.name) {
            None => true,
            Some(old_op) => {
                if op.seq != old_op.seq {
                    op.seq > old_op.seq
                } else {
                    proof {
                        crate::order::lex_total(byte_rank(op.sig.0@), byte_rank(old_op.sig.0@));
                        crate::order::lex_asymmetric(
                            byte_rank(op.sig.0@),
                            byte_rank(old_op.sig.0@),
                        );
                    }
                    match compare_bytes(op.sig.0.as_slice(), old_op.sig.0.as_slice()) {
                        Side::After => true,
                        _ => false,
                    }
                }
            },
        };
        if wins {
            if strip_prefix(op.name.as_str(), "fork/").is_some() && !known {
                let count: u32 = match self.fork_counts.get(&signer) {
                    Some(n) => *n,
                    None => 0,
                };
                if count >= MAX_FORK_LABELS {
                    return Err(Error::Invalid("fork label limit exceeded"));
                }
                self.fork_counts.insert(signer, count + 1);
            }
            self.labels.insert(op.name.clone(), op);
        }
        Ok(wins)
    }
}

/// The epoch of the lease that holds never falls: it grows by one, or a lease of the same epoch
/// takes the place of another.
pub proof fn epochs_never_fall(
    genesis: Genesis,
    leases: Seq<LeaseRecord>,
    held: Option<LeaseRecord>,
    r: LeaseRecord,
)
    requires
        lease_verdict(genesis, leases, held, r) is Wins,
    ensures
        match held {
            None => r.epoch == 1,
            Some(w) => r.epoch == w.epoch + 1 || (races(held, r) && signed_higher(r, w)),
        },
{
    reveal(lease_verdict);
}

/// Of two leases that race, the one with the higher signature holds, whichever came first: the
/// other cannot take its place.
pub proof fn race_has_one_winner(
    genesis: Genesis,
    leases: Seq<LeaseRecord>,
    a: LeaseRecord,
    b: LeaseRecord,
)
    requires
        races(Some(a), b),
        signed_higher(b, a),
    ensures
        !(lease_verdict(genesis, leases, Some(b), a) is Wins),
{
    reveal(lease_verdict);
    crate::order::lex_asymmetric(byte_rank(a.sig.0@), byte_rank(b.sig.0@));
}

/// Of two different statements about a label, the same one wins in whatever order they come in.
pub proof fn labels_converge(c: Capsule, d: Capsule, a: LabelOp, b: LabelOp)
    requires
        a.name@ == b.name@,
        a.seq != b.seq || a.sig != b.sig,
        c.labels@.dom().contains(char_rank(a.name@)),
        c.labels@[char_rank(a.name@)] == a,
        d.labels@.dom().contains(char_rank(b.name@)),
        d.labels@[char_rank(b.name@)] == b,
    ensures
        label_wins(c, b) != label_wins(d, a),
{
    let x = byte_rank(a.sig.0@);
    let y = byte_rank(b.sig.0@);
    crate::order::lex_total(x, y);
    crate::order::lex_asymmetric(x, y);
    crate::order::byte_rank_injective(a.sig.0@, b.sig.0@);
    crate::bytes::array_extensional(a.sig.0, b.sig.0);
}

/// `main` is moved only by the holder of the lease, in its epoch, and to a snapshot whose parents
/// are all known.
pub proof fn main_needs_the_lease(c: Capsule, op: LabelOp, signer: PeerId)
    requires
        op.name@ == "main"@,
        label_fault(c, op, signer) is None,
    ensures
        c.held() matches Some(w) && w.holder == signer && w.epoch == op.lease_epoch,
        c.snapshots@.dom().contains(op.snapshot_id.rank()),
        !c.snapshots@[op.snapshot_id.rank()].orphan,
{
}

} // verus!
