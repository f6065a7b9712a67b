//! Adopting the state of a capsule that comes with an offer.
use vstd::prelude::*;

use crate::capsule::{lease_hash, LabelOp, LeaseMode, LeaseRecord};
use crate::cas::Digest;
use crate::net::error::Error;
use crate::net::offer::{Offer, MAX_LEASE_CHAIN_LEN};
use crate::net::trust::{lease_check, TrustDisk, TrustStore};
use crate::order::{char_rank, Key};
use crate::store::{adoption_fault, extended, main_moved, moved_fault, shelf, AbraStore, CapsuleV};
use crate::table::Table;

verus! {

/// The first lease that has no hash.
pub open spec fn hash_fault(s: Seq<LeaseRecord>, i: int) -> Option<crate::error::Error>
    decreases s.len() - i,
{
    if i < 0 || i >= s.len() {
        None
    } else {
        match lease_hash(s[i]) {
            Err(e) => Some(e),
            Ok(h) => hash_fault(s, i + 1),
        }
    }
}

/// Some lease has this hash.
pub open spec fn hash_known(s: Seq<LeaseRecord>, h: Seq<u8>) -> bool {
    exists|i: int| 0 <= i < s.len() && lease_hash(#[trigger] s[i]) == Ok::<
        Seq<u8>,
        crate::error::Error,
    >(h)
}

/// The leases of a chain that are new, where they go on behind `last` without a gap.
pub open spec fn fresh(known: Seq<LeaseRecord>, last: LeaseRecord, chain: Seq<LeaseRecord>) -> Result<
    Seq<LeaseRecord>,
    Error,
>
    decreases chain.len(),
{
    if chain.len() == 0 {
        Ok(Seq::empty())
    } else {
        let l = chain[0];
        let rest = chain.skip(1);
        match lease_hash(l) {
            Err(e) => Err(Error::Core(e)),
            Ok(h) => if hash_known(known, h) {
                fresh(known, last, rest)
            } else if l.epoch != last.epoch + 1 {
                Err(Error::Protocol("lease chain is not contiguous with winner"))
            } else {
                match lease_hash(last) {
                    Err(e) => Err(Error::Core(e)),
                    Ok(p) => if l.prev_hash.0@ != p {
                        Err(Error::Protocol("lease chain is not contiguous with winner"))
                    } else {
                        prepended(seq![l], fresh(known, l, rest))
                    },
                }
            },
        }
    }
}

/// Leases in front of others.
pub open spec fn prepended(
    front: Seq<LeaseRecord>,
    rest: Result<Seq<LeaseRecord>, Error>,
) -> Result<Seq<LeaseRecord>, Error> {
    match rest {
        Ok(t) => Ok(front + t),
        Err(e) => Err(e),
    }
}

/// Whether each lease is one that its holder may have.
pub open spec fn permits(d: TrustDisk, chain: Seq<LeaseRecord>, now: u64) -> Seq<bool> {
    Seq::new(
        chain.len(),
        |i: int| lease_check(d, chain[i].holder, chain[i].mode is Takeover, now) is Ok,
    )
}

/// What becomes of a capsule that is offered leases and a statement about `main`, and whether
/// `main` stands where the statement puts it.
pub open spec fn offer_adopted(d: TrustDisk, c: CapsuleV, offer: Offer, now: u64) -> Result<
    (CapsuleV, bool),
    Error,
> {
    match c.held {
        None => Err(Error::Protocol("capsule lacks winning lease")),
        Some(w) => match hash_fault(c.leases, 0) {
            Some(e) => Err(Error::Core(e)),
            None => match fresh(c.leases, w, offer.lease_chain@) {
                Err(e) => Err(e),
                Ok(t) => match adoption_fault(c, t, permits(d, t, now), 0) {
                    Some(e) => Err(Error::Core(e)),
                    None => match offer.main_label {
                        None => Ok((extended(c, t), false)),
                        Some(op) => match moved_fault(extended(c, t), op) {
                            Some(e) => Err(Error::Core(e)),
                            None => {
                                let after = main_moved(extended(c, t), op);
                                let k = char_rank(op.name@);
                                Ok(
                                    (
                                        after,
                                        after.labels.dom().contains(k)
                                            && after.labels[k].snapshot_id == op.snapshot_id,
                                    ),
                                )
                            },
                        },
                    },
                },
            },
        },
    }
}

fn first_hash_fault(s: &Vec<LeaseRecord>) -> (r: Option<crate::error::Error>)
    ensures
        r == hash_fault(s@, 0),
{
    let mut i: usize = 0;
    while i < s.len()
        invariant
            i <= s@.len(),
            hash_fault(s@, 0) == hash_fault(s@, i as int),
        decreases s.len() - i,
    {
        match s[i].hash() {
            Err(e) => {
                return Some(e);
            },
            Ok(_) => {},
        }
        i += 1;
    }
    None
}

fn knows_hash(s: &Vec<LeaseRecord>, h: &Digest) -> (r: bool)
    ensures
        r == hash_known(s@, h.0@),
{
    let mut i: usize = 0;
    while i < s.len()
        invariant
            i <= s@.len(),
            forall|j: int|
                0 <= j < i ==> lease_hash(#[trigger] s@[j]) != Ok::<
                    Seq<u8>,
                    crate::error::Error,
                >(h.0@),
        decreases s.len() - i,
    {
        if s[i].has_hash(h) {
            return true;
        }
        i += 1;
    }
    false
}

fn fresh_leases(known: &Vec<LeaseRecord>, last: &LeaseRecord, chain: &Vec<LeaseRecord>) -> (r: Result<
    Vec<LeaseRecord>,
    Error,
>)
    ensures
        match r {
            Ok(v) => fresh(known@, *last, chain@) == Ok::<Seq<LeaseRecord>, Error>(v@),
            Err(e) => fresh(known@, *last, chain@) == Err::<Seq<LeaseRecord>, Error>(e),
        },
{
    let mut out: Vec<LeaseRecord> = Vec::new();
    let mut i: usize = 0;
    let ghost mut now_last: LeaseRecord = *last;
    proof {
        assert(chain@.skip(0) =~= chain@);
        let rest = fresh(known@, *last, chain@);
        if rest is Ok {
            assert(Seq::<LeaseRecord>::empty() + rest->Ok_0 =~= rest->Ok_0);
        }
    }
    while i < chain.len()
        invariant
            i <= chain@.len(),
            now_last == if out@.len() == 0 {
                *last
            } else {
                out@.last()
            },
            fresh(known@, *last, chain@) == prepended(
                out@,
                fresh(known@, now_last, chain@.skip(i as int)),
            ),
        decreases chain.len() - i,
    {
        let ghost tail = chain@.skip(i as int);
        proof {
            assert(tail[0] == chain@[i as int]);
            assert(tail.skip(1) =~= chain@.skip(i + 1));
        }
        let lease = &chain[i];
        let h = match lease.hash() {
            Err(e) => {
                return Err(Error::Core(e));
            },
            Ok(h) => h,
        };
        if !knows_hash(known, &h) {
            let expected = if out.len() == 0 {
                last
            } else {
                &out[out.len() - 1]
            };
            if expected.epoch == u64::MAX || lease.epoch != expected.epoch + 1 {
                return Err(Error::Protocol("lease chain is not contiguous with winner"));
            }
            let p = match expected.hash() {
                Err(e) => {
                    return Err(Error::Core(e));
                },
                Ok(p) => p,
            };
            proof {
                crate::bytes::array_extensional(p.0, lease.prev_hash.0);
            }
            if !lease.prev_hash.same(&p) {
                return Err(Error::Protocol("lease chain is not contiguous with winner"));
            }
            let ghost before = out@;
            out.push(lease.clone());
            proof {
                now_last = *lease;
                let rest = fresh(known@, *lease, chain@.skip(i + 1));
                if rest is Ok {
                    assert(before + (seq![*lease] + rest->Ok_0) =~= out@ + rest->Ok_0);
                }
            }
        }
        i += 1;
    }
    proof {
        assert(out@ + Seq::<LeaseRecord>::empty() =~= out@);
    }
    Ok(out)
}

fn lease_permits(trust: &TrustStore, chain: &Vec<LeaseRecord>, now: u64) -> (r: Vec<bool>)
    requires
        trust.wf(),
    ensures
        r@ == permits(trust.disk, chain@, now),
{
    let mut out: Vec<bool> = Vec::new();
    let mut i: usize = 0;
    while i < chain.len()
        invariant
            trust.wf(),
            i <= chain@.len(),
            out@ == permits(trust.disk, chain@, now).take(i as int),
        decreases chain.len() - i,
    {
        let takeover = chain[i].mode == LeaseMode::Takeover;
        let ok = trust.authorize_lease(chain[i].holder, takeover, now).is_ok();
        out.push(ok);
        assert(out@ =~= permits(trust.disk, chain@, now).take(i + 1));
        i += 1;
    }
    assert(out@ =~= permits(trust.disk, chain@, now));
    out
}

/// Adopts the state of a capsule that comes with an offer, all of it or nothing; tells whether
/// `main` stands where the offer puts it.
pub fn adopt_offer_capsule_state(
    store: &mut AbraStore,
    trust: &TrustStore,
    offer: &Offer,
    now: u64,
) -> (r: Result<bool, Error>)
    requires
        old(store).wf(),
        trust.wf(),
    ensures
        final(store).wf(),
        final(store).inbox == old(store).inbox,
        match offer.capsule_id {
            None => r == Err::<bool, Error>(Error::Protocol("full offer lacks capsule id"))
                && shelf(final(store).capsules@) == shelf(old(store).capsules@),
            Some(id) => if !old(store).has(id) {
                r == Err::<bool, Error>(Error::Protocol("receiver lacks offered capsule")) && shelf(
                    final(store).capsules@,
                ) == shelf(old(store).capsules@)
            } else {
                match offer_adopted(trust.disk, old(store).at(id), *offer, now) {
                    Err(e) => r == Err::<bool, Error>(e) && shelf(final(store).capsules@) == shelf(
                        old(store).capsules@,
                    ),
                    Ok((c, head)) => r == Ok::<bool, Error>(head) && shelf(final(store).capsules@)
                        == shelf(old(store).capsules@).insert(id.rank(), c),
                }
            },
        },
{
    let id = match &offer.capsule_id {
        None => {
            return Err(Error::Protocol("full offer lacks capsule id"));
        },
        Some(id) => *id,
    };
    let capsule = match store.capsules.get(&id) {
        None => {
            return Err(Error::Protocol("receiver lacks offered capsule"));
        },
        Some(c) => c,
    };
    let chain = match capsule.winning_lease() {
        None => {
            return Err(Error::Protocol("capsule lacks winning lease"));
        },
        Some(w) => {
            match first_hash_fault(capsule.leases()) {
                Some(e) => {
                    return Err(Error::Core(e));
                },
                None => {},
            }
            match fresh_leases(capsule.leases(), w, &offer.lease_chain) {
                Err(e) => {
                    return Err(e);
                },
                Ok(v) => v,
            }
        },
    };
    let allowed = lease_permits(trust, &chain, now);
    let main = match &offer.main_label {
        Some(op) => Some(op),
        None => None,
    };
    match store.adopt_capsule_state(id, &chain, &allowed, main) {
        Ok(b) => Ok(b),
        Err(e) => Err(Error::Core(e)),
    }
}

/// The statements about `main` that wait, by capsule.
pub type Pending = Table<Digest, Vec<LabelOp>>;

/// Those that wait for a capsule.
pub open spec fn waiting(p: Map<Seq<int>, Vec<LabelOp>>, k: Seq<int>) -> Seq<LabelOp> {
    if p.dom().contains(k) {
        p[k]@
    } else {
        Seq::empty()
    }
}

/// Statements with one more, where there is room and it is new.
pub open spec fn with_waiting(s: Seq<LabelOp>, op: LabelOp) -> Seq<LabelOp> {
    if s.len() < MAX_LEASE_CHAIN_LEN && !exists|i: int|
        0 <= i < s.len() && (#[trigger] s[i]).sig == op.sig {
        s.push(op)
    } else {
        s
    }
}

fn signed_alike(s: &Vec<LabelOp>, op: &LabelOp) -> (r: bool)
    ensures
        r == exists|i: int| 0 <= i < s@.len() && (#[trigger] s@[i]).sig == op.sig,
{
    let mut i: usize = 0;
    while i < s.len()
        invariant
            i <= s@.len(),
            forall|j: int| 0 <= j < i ==> (#[trigger] s@[j]).sig != op.sig,
        decreases s.len() - i,
    {
        if s[i].sig.same(&op.sig) {
            return true;
        }
        i += 1;
    }
    false
}

/// Keeps a statement about `main` that could not be followed yet.
pub fn insert_pending_main_label(pending: &mut Pending, capsule_id: Digest, op: LabelOp)
    requires
        old(pending).wf(),
    ensures
        final(pending).wf(),
        forall|k: Seq<int>| #[trigger]
            waiting(final(pending)@, k) == if k == capsule_id.rank() {
                with_waiting(waiting(old(pending)@, k), op)
            } else {
                waiting(old(pending)@, k)
            },
{
    let mut list = match pending.remove(&capsule_id) {
        Some(v) => v,
        None => Vec::new(),
    };
    if list.len() < MAX_LEASE_CHAIN_LEN && !signed_alike(&list, &op) {
        list.push(op);
    }
    pending.insert(capsule_id, list);
}

/// The shelf, and the statements that still wait, once each was tried in turn.
pub open spec fn retried(s: Map<Seq<int>, CapsuleV>, ops: Seq<LabelOp>) -> (
    Map<Seq<int>, CapsuleV>,
    Seq<LabelOp>,
)
    decreases ops.len(),
{
    if ops.len() == 0 {
        (s, Seq::empty())
    } else {
        let (t, left) = retried(s, ops.drop_last());
        let op = ops.last();
        let k = op.capsule_id.rank();
        if !t.dom().contains(k) || moved_fault(t[k], op) is Some {
            (t, left.push(op))
        } else {
            (t.insert(k, main_moved(t[k], op)), left)
        }
    }
}

/// Tries the statements that wait for a capsule again, as made by the holder of its lease.
pub fn retry_pending_main_labels(store: &mut AbraStore, pending: &mut Pending, capsule_id: Digest)
    requires
        old(store).wf(),
        old(pending).wf(),
    ensures
        final(store).wf(),
        final(pending).wf(),
        final(store).inbox == old(store).inbox,
        ({
            let k = capsule_id.rank();
            let (t, left) = retried(shelf(old(store).capsules@), waiting(old(pending)@, k));
            &&& shelf(final(store).capsules@) == t
            &&& forall|q: Seq<int>| #[trigger]
                waiting(final(pending)@, q) == if q == k {
                    left
                } else {
                    waiting(old(pending)@, q)
                }
        }),
{
    let ghost s0 = shelf(store.capsules@);
    let ghost k = capsule_id.rank();
    let ops = match pending.remove(&capsule_id) {
        None => {
            assert(pending@ =~= old(pending)@);
            return;
        },
        Some(v) => v,
    };
    let mut left: Vec<LabelOp> = Vec::new();
    let mut i: usize = 0;
    assert(ops@.take(0) =~= Seq::<LabelOp>::empty());
    while i < ops.len()
        invariant
            store.wf(),
            store.inbox == old(store).inbox,
            i <= ops@.len(),
            shelf(store.capsules@) == retried(s0, ops@.take(i as int)).0,
            left@ == retried(s0, ops@.take(i as int)).1,
        decreases ops.len() - i,
    {
        proof {
            assert(ops@.take(i + 1).drop_last() =~= ops@.take(i as int));
            assert(ops@.take(i + 1).last() == ops@[i as int]);
        }
        let ghost before = shelf(store.capsules@);
        let op = &ops[i];
        let signer = match store.capsules.get(&op.capsule_id) {
            None => None,
            Some(c) => match c.winning_lease() {
                None => None,
                Some(w) => Some(w.holder),
            },
        };
        let applied = match signer {
            None => false,
            Some(p) => store.apply_label(op.clone(), p).is_ok(),
        };
        if !applied {
            proof {
                let q = op.capsule_id.rank();
                if before.dom().contains(q) {
                    assert(before.insert(q, before[q]) =~= before);
                }
            }
            left.push(op.clone());
        }
        i += 1;
    }
    assert(ops@.take(i as int) =~= ops@);
    if left.len() > 0 {
        pending.insert(capsule_id, left);
    }
}

/// A chain that the receiver has already adds nothing.
pub proof fn known_chain_adds_nothing(known: Seq<LeaseRecord>, last: LeaseRecord, chain: Seq<LeaseRecord>)
    requires
        forall|i: int|
            0 <= i < chain.len() ==> lease_hash(#[trigger] chain[i]) is Ok && hash_known(
                known,
                lease_hash(chain[i])->Ok_0,
            ),
    ensures
        fresh(known, last, chain) == Ok::<Seq<LeaseRecord>, Error>(Seq::empty()),
    decreases chain.len(),
{
    if chain.len() > 0 {
        assert(hash_known(known, lease_hash(chain[0])->Ok_0));
        assert forall|i: int| 0 <= i < chain.skip(1).len() implies lease_hash(
            #[trigger] chain.skip(1)[i],
        ) is Ok && hash_known(known, lease_hash(chain.skip(1)[i])->Ok_0) by {
            assert(chain.skip(1)[i] == chain[i + 1]);
        }
        known_chain_adds_nothing(known, last, chain.skip(1));
    }
}

} // verus!
