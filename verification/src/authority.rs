//! Who may do what to a capsule, and what it does: leases, labels and snapshots.
use vstd::prelude::*;

use crate::capsule::{
    genesis_hash, label_members, lease_is, lease_members, record_check, Genesis, LabelOp,
    LeaseRecord,
};
use crate::cas::Digest;
use crate::error::Error;
use crate::history::{
    is_root, lease_at, lease_time, lease_verdict, parents_known, signed_number, snapshot_fault,
    Capsule, WriteResult,
};
use crate::identity::{Identity, PeerId};
use crate::lineage::{grown, Arrival};
use crate::manifest::RawManifest;
use crate::net::clock::{march_count, parsed_times_are_small, time_of, times_count_milliseconds};
use crate::number::{all_digits, is_digit, number};
use crate::order::{byte_rank, char_rank, lex_before, Key};
use crate::reload::{begun_in_order, others_keep_order, snapshot_keeps_order, snapshots_in_order};
use crate::store::{
    filed, fork_signed, holders_of, inbox_fault, is_fork_label, label_candidates, label_fault_v,
    signer_at, with_label, with_snapshots, CapsuleV,
};
use crate::succession::lease_found;
use crate::util::{hex_text, is_lower_hex};

verus! {

/// A lease is a record of this capsule that lasts from a minute to a week.
pub open spec fn is_lease_of(g: Genesis, r: LeaseRecord) -> bool {
    &&& r.spec@ == "0.1"@
    &&& r.record_type@ == "lease"@
    &&& r.capsule_id == g.capsule_id
    &&& r.epoch > 0
    &&& lease_time(r.expires_at@) matches Ok(end) && (lease_time(r.acquired_at@) matches Ok(start)
        && 60_000 <= end - start <= 604_800_000)
}

/// A time that can be read anywhere is read of a lease as the same moment.
pub proof fn lease_times_are_times(t: Seq<char>)
    requires
        time_of(t) is Ok,
    ensures
        lease_time(t) == Ok::<int, Error>(time_of(t)->Ok_0 as int),
{
    digits_are_signed(t.subrange(0, 4));
    digits_are_signed(t.subrange(5, 7));
    digits_are_signed(t.subrange(8, 10));
    digits_are_signed(t.subrange(11, 13));
    digits_are_signed(t.subrange(14, 16));
    digits_are_signed(t.subrange(17, 19));
    digits_are_signed(t.subrange(20, 23));
    let (y, m, d) = (number(t.subrange(0, 4)), number(t.subrange(5, 7)), number(t.subrange(8, 10)));
    march_count(y, m, d);
    parsed_times_are_small(t);
    times_count_milliseconds(t);
}

proof fn digits_are_signed(s: Seq<char>)
    requires
        all_digits(s),
        s.len() > 0,
    ensures
        signed_number(s) == Some(number(s)),
{
    assert(is_digit(s[0]));
}

/// The peer signed the lease.
pub open spec fn signed_lease(r: LeaseRecord, peer: PeerId) -> bool {
    record_check(peer, "lease"@, lease_members(r, None), r.sig) is Ok
}

/// The first lease of a capsule is the grant to its creator, who signs it; no other is taken.
pub proof fn first_lease_is_the_creators(g: Genesis, leases: Seq<LeaseRecord>, r: LeaseRecord)
    ensures
        lease_verdict(g, leases, None, r) is Wins <==> {
            &&& is_lease_of(g, r)
            &&& genesis_hash(g) == Ok::<Seq<u8>, Error>(r.prev_hash.0@)
            &&& r.epoch == 1
            &&& r.mode is Grant
            &&& r.holder == g.created_by
            &&& signed_lease(r, g.created_by)
        },
        !(lease_verdict(g, leases, None, r) is Loses),
{
    reveal(lease_verdict);
}

/// A lease passes on only with the signature of whoever holds it, or by a takeover that the new
/// holder signs. It names the hash of the one before and is of the next epoch. A refresh leaves the
/// holder, and nothing but the first lease is a grant.
pub proof fn lease_passes_on(g: Genesis, leases: Seq<LeaseRecord>, w: LeaseRecord, r: LeaseRecord)
    requires
        w.epoch >= 1,
        !(r.epoch == w.epoch && r.prev_hash == w.prev_hash),
    ensures
        lease_verdict(g, leases, Some(w), r) is Wins <==> {
            &&& is_lease_of(g, r)
            &&& lease_is(w, r.prev_hash)
            &&& r.epoch == w.epoch + 1
            &&& match r.mode {
                crate::capsule::LeaseMode::Grant => false,
                crate::capsule::LeaseMode::Refresh => r.holder == w.holder && signed_lease(
                    r,
                    w.holder,
                ),
                crate::capsule::LeaseMode::Transfer => signed_lease(r, w.holder),
                crate::capsule::LeaseMode::Takeover => signed_lease(r, r.holder),
            }
        },
        !(lease_verdict(g, leases, Some(w), r) is Loses),
{
    reveal(lease_verdict);
}

/// A lease that races with the one that holds is taken in only where it could have been taken in its
/// place: it follows one that is known, and has the signature that it needs. It holds where its
/// signature is the greater one, and otherwise it does not.
pub proof fn rival_needs_the_same(g: Genesis, leases: Seq<LeaseRecord>, w: LeaseRecord, r: LeaseRecord)
    requires
        r.epoch == w.epoch,
        r.prev_hash == w.prev_hash,
    ensures
        ({
            let verdict = lease_verdict(g, leases, Some(w), r);
            &&& verdict is Wins || verdict is Loses ==> {
                &&& is_lease_of(g, r)
                &&& r.epoch == 1 ==> r.mode is Grant && r.holder == g.created_by && signed_lease(
                    r,
                    g.created_by,
                )
                &&& r.epoch > 1 ==> exists|p: LeaseRecord| #[trigger]
                    leases.contains(p) && lease_is(p, r.prev_hash) && p.epoch + 1 == r.epoch && !(
                    r.mode is Grant) && (r.mode is Takeover ==> signed_lease(r, r.holder)) && (
                    r.mode is Refresh ==> r.holder == p.holder) && (!(r.mode is Takeover)
                        ==> signed_lease(r, p.holder))
            }
            &&& verdict is Wins ==> lex_before(byte_rank(w.sig.0@), byte_rank(r.sig.0@))
            &&& verdict is Loses ==> !lex_before(byte_rank(w.sig.0@), byte_rank(r.sig.0@))
        }),
{
    reveal(lease_verdict);
    lease_found(leases, r.prev_hash, 0);
    let i = lease_at(leases, r.prev_hash, 0);
    if r.epoch > 1 && i < leases.len() {
        assert(leases.contains(leases[i]));
    }
}

/// A label stands on the statement with the greater number, and of two with the same number on the one
/// with the greater signature. No other label changes, and nothing but labels does.
pub proof fn later_statement_stands(c: CapsuleV, op: LabelOp, signer: PeerId)
    requires
        label_fault_v(c, op, signer) is None,
    ensures
        ({
            let k = char_rank(op.name@);
            let known = c.labels.dom().contains(k);
            let old_op = c.labels[k];
            let after = with_label(c, op, signer);
            &&& !known || op.seq > old_op.seq ==> after.labels == c.labels.insert(k, op)
            &&& known && op.seq < old_op.seq ==> after == c
            &&& known && op.seq == old_op.seq && lex_before(
                byte_rank(old_op.sig.0@),
                byte_rank(op.sig.0@),
            ) ==> after.labels == c.labels.insert(k, op)
            &&& known && op.seq == old_op.seq && !lex_before(
                byte_rank(old_op.sig.0@),
                byte_rank(op.sig.0@),
            ) ==> after == c
            &&& after.leases == c.leases && after.held == c.held && after.snapshots == c.snapshots
                && after.genesis == c.genesis && after.evidence == c.evidence
        }),
{
}

/// A name that a label may have: a fork is named by eight digits of its hash, and a name that a user
/// gives has up to 64 lowercase letters, digits and signs.
pub open spec fn is_label_name(name: Seq<char>) -> bool {
    if name.len() >= 5 && name.take(5) == "fork/"@ {
        name.len() == 13 && forall|i: int| 5 <= i < 13 ==> is_lower_hex(#[trigger] name[i])
    } else {
        1 <= name.len() <= 64 && forall|i: int|
            0 <= i < name.len() ==> {
                let c = #[trigger] name[i];
                ('a' <= c <= 'z') || ('0' <= c <= '9') || c == '.' || c == '_' || c == ':' || c
                    == '-'
            }
    }
}

/// What a statement about a label needs, all of it. It is about this capsule and signed. Only the
/// holder of the lease moves `main`, in its epoch and to a snapshot whose parents are known. Others
/// have a name that is in order. There are at most 128 labels, and 32 forks of one signer.
pub proof fn statement_needs_leave(c: CapsuleV, op: LabelOp, signer: PeerId)
    ensures
        label_fault_v(c, op, signer) is None <==> {
            let new = !c.labels.dom().contains(char_rank(op.name@));
            &&& op.capsule_id == c.genesis.capsule_id
            &&& op.op@ == "set"@
            &&& record_check(signer, "label"@, label_members(op, None), op.sig) is Ok
            &&& if op.name@ == "main"@ {
                &&& c.held matches Some(w) && w.holder == signer && w.epoch == op.lease_epoch
                &&& c.snapshots.dom().contains(op.snapshot_id.rank())
                &&& !c.snapshots[op.snapshot_id.rank()].orphan
            } else {
                is_label_name(op.name@)
            }
            &&& new ==> c.label_count < 128
            &&& new && op.name@.len() >= 5 && op.name@.take(5) == "fork/"@
                && c.fork_counts.dom().contains(signer.rank()) ==> c.fork_counts[signer.rank()] < 32
        },
{
    reveal_strlit("fork/");
    let name = op.name@;
    assert(crate::history::is_fork_name(name) <==> name.len() >= 5 && name.take(5) == "fork/"@) by {
        if name.len() >= 5 {
            assert(name.take(5) =~= name.subrange(0, 5));
        }
        if crate::history::is_fork_name(name) {
            assert(name.take(5) =~= "fork/"@);
        }
        if name.len() >= 5 && name.take(5) == "fork/"@ {
            assert forall|i: int| 0 <= i < 5 implies name[i] == "fork/"@[i] by {
                assert(name.take(5)[i] == name[i]);
            }
            assert(crate::history::is_fork_name(name));
        }
    }
    assert(crate::history::label_name_fault(name) is None <==> is_label_name(name));
}

/// A snapshot that comes in is kept under its id, with the time at which it came in, and no other is
/// lost. It is refused only where it is not one of this capsule, or is a second one without parents.
/// It stands alone exactly as long as one of its parents has not come in. Leases and labels stay.
pub proof fn snapshot_is_kept(c: CapsuleV, raw: RawManifest, at: String)
    requires
        snapshots_in_order(c),
    ensures
        ({
            let after = with_snapshots(c, seq![(raw, at)]);
            let taken = raw.manifest.scope is Full && raw.manifest.capsule_id == Some(
                c.genesis.capsule_id,
            ) && !(raw.manifest.parents@.len() == 0 && exists|k: Seq<int>| #[trigger]
                c.snapshots.dom().contains(k) && c.snapshots[k].raw.manifest.parents@.len() == 0);
            &&& !taken ==> after == c
            &&& taken ==> {
                &&& after.snapshots.dom() == c.snapshots.dom().insert(raw.id.rank())
                &&& after.snapshots[raw.id.rank()].raw == raw
                &&& after.snapshots[raw.id.rank()].received_at == at
                &&& forall|k: Seq<int>| #[trigger]
                    c.snapshots.dom().contains(k) && k != raw.id.rank() ==> after.snapshots[k].raw
                        == c.snapshots[k].raw && after.snapshots[k].received_at
                        == c.snapshots[k].received_at
                &&& forall|k: Seq<int>| #[trigger]
                    after.snapshots.dom().contains(k) ==> (after.snapshots[k].orphan <==> exists|
                        i: int,
                    |
                        0 <= i < after.snapshots[k].raw.manifest.parents@.len()
                            && !after.snapshots.dom().contains(
                            (#[trigger] after.snapshots[k].raw.manifest.parents@[i]).rank(),
                        ))
            }
            &&& after.leases == c.leases && after.held == c.held && after.labels == c.labels
                && after.genesis == c.genesis
        }),
{
    let s = seq![(raw, at)];
    assert(s.drop_last().len() == 0);
    assert(with_snapshots(c, s.drop_last()) == c);
    let after = with_snapshots(c, s);
    let known = c.snapshots.dom().insert(raw.id.rank());
    assert(crate::store::snapshot_fault_v(c, raw) is None ==> after.snapshots.dom() =~= known);
    assert forall|k: Seq<int>| #[trigger] c.snapshots.dom().contains(k) implies (
    crate::history::is_root(c.snapshots[k]) <==> c.snapshots[k].raw.manifest.parents@.len() == 0)
        by {}
    if crate::store::snapshot_fault_v(c, raw) is None {
        assert forall|k: Seq<int>| #[trigger] after.snapshots.dom().contains(k) implies (
        after.snapshots[k].orphan <==> exists|i: int|
            0 <= i < after.snapshots[k].raw.manifest.parents@.len()
                && !after.snapshots.dom().contains(
                (#[trigger] after.snapshots[k].raw.manifest.parents@[i]).rank(),
            )) by {
            let parents = after.snapshots[k].raw.manifest.parents@;
            assert(parents_known(parents, c.snapshots.dom()) ==> parents_known(parents, known));
        }
    }
}

/// In every state of a capsule each snapshot stands under its id, is one of this capsule, and stands
/// alone exactly where a parent of it has not come in. No two are without parents.
pub proof fn history_is_in_order(g: Genesis, arrivals: Seq<Arrival>)
    ensures
        snapshots_in_order(grown(g, arrivals)),
        forall|k: Seq<int>| #[trigger]
            grown(g, arrivals).snapshots.dom().contains(k) ==> {
                let x = grown(g, arrivals).snapshots[k];
                &&& x.raw.id.rank() == k
                &&& x.raw.manifest.capsule_id == Some(grown(g, arrivals).genesis.capsule_id)
                &&& x.orphan <==> exists|i: int|
                    0 <= i < x.raw.manifest.parents@.len() && !grown(
                        g,
                        arrivals,
                    ).snapshots.dom().contains((#[trigger] x.raw.manifest.parents@[i]).rank())
            },
    decreases arrivals.len(),
{
    if arrivals.len() == 0 {
        begun_in_order(g);
    } else {
        let before = grown(g, arrivals.drop_last());
        history_is_in_order(g, arrivals.drop_last());
        match arrivals.last() {
            Arrival::Lease(r) => {
                others_keep_order(before, r, arbitrary(), arbitrary());
            },
            Arrival::Snapshot(raw, at) => {
                let s = seq![(raw, at)];
                assert(s.drop_last().len() == 0);
                assert(with_snapshots(before, s.drop_last()) == before);
                if crate::store::snapshot_fault_v(before, raw) is None {
                    snapshot_keeps_order(before, raw, at);
                }
            },
            Arrival::Label(op, signer) => {
                others_keep_order(before, arbitrary(), op, signer);
            },
        }
    }
}

/// A snapshot is a fork exactly where its writer does not hold the lease, or a parent of it has not
/// come in.
pub proof fn forks_are_others_work(
    c: CapsuleV,
    after: CapsuleV,
    raw: RawManifest,
    at: String,
    signer: Option<Identity>,
    w: WriteResult,
)
    requires
        filed(c, after, raw, at, signer, Ok(w)),
    ensures
        w.snapshot_id == raw.id,
        w.forked <==> !(c.held is Some && c.held->0.holder == raw.manifest.origin) || exists|i: int|
            0 <= i < raw.manifest.parents@.len() && !c.snapshots.dom().contains(
                (#[trigger] raw.manifest.parents@[i]).rank(),
            ),
        after.snapshots.dom().contains(raw.id.rank()),
        after.snapshots[raw.id.rank()].raw == raw,
        after.leases == c.leases && after.held == c.held,
        !w.forked || signer is None ==> after.labels == c.labels,
{
}

/// The first of some peers whose signature a statement carries, from a place on: it does carry it, and
/// no peer before it is one whose it carries.
pub proof fn signers_are_found(op: LabelOp, peers: Seq<PeerId>, i: int)
    requires
        0 <= i <= peers.len(),
    ensures
        ({
            let at = signer_at(op, peers, i);
            &&& i <= at <= peers.len()
            &&& at < peers.len() ==> record_check(
                peers[at],
                "label"@,
                label_members(op, None),
                op.sig,
            ) is Ok
            &&& forall|j: int|
                i <= j < at ==> record_check(
                    #[trigger] peers[j],
                    "label"@,
                    label_members(op, None),
                    op.sig,
                ) is Err
        }),
    decreases peers.len() - i,
{
    if i < peers.len() && record_check(peers[i], "label"@, label_members(op, None), op.sig) is Err {
        signers_are_found(op, peers, i + 1);
    }
}

/// The holders of leases: all of them, or those of one epoch.
pub proof fn holders_are_known(leases: Seq<LeaseRecord>, epoch: Option<u64>)
    ensures
        forall|p: PeerId| #[trigger]
            holders_of(leases, epoch).contains(p) <==> exists|i: int|
                0 <= i < leases.len() && (#[trigger] leases[i]).holder == p && (epoch is Some
                    ==> leases[i].epoch == epoch->0),
    decreases leases.len(),
{
    let all = holders_of(leases, epoch);
    if leases.len() > 0 {
        let front = leases.drop_last();
        holders_are_known(front, epoch);
        let before = holders_of(front, epoch);
        assert(leases[leases.len() - 1] == leases.last());
        assert forall|p: PeerId| #[trigger] all.contains(p) <==> exists|i: int|
            0 <= i < leases.len() && (#[trigger] leases[i]).holder == p && (epoch is Some
                ==> leases[i].epoch == epoch->0) by {
            if all.contains(p) {
                let k = choose|k: int| 0 <= k < all.len() && all[k] == p;
                if k < before.len() {
                    assert(before[k] == p);
                    assert(before.contains(p));
                    let i = choose|i: int|
                        0 <= i < front.len() && (#[trigger] front[i]).holder == p && (epoch is Some
                            ==> front[i].epoch == epoch->0);
                    assert(leases[i] == front[i]);
                }
            }
            if exists|i: int|
                0 <= i < leases.len() && (#[trigger] leases[i]).holder == p && (epoch is Some
                    ==> leases[i].epoch == epoch->0) {
                let i = choose|i: int|
                    0 <= i < leases.len() && (#[trigger] leases[i]).holder == p && (epoch is Some
                        ==> leases[i].epoch == epoch->0);
                if i < front.len() {
                    assert(front[i] == leases[i]);
                    assert(before.contains(p));
                    let k = choose|k: int| 0 <= k < before.len() && before[k] == p;
                    assert(all[k] == p);
                } else {
                    assert(all[before.len() as int] == p);
                }
            }
        }
    } else {
        assert(all.len() == 0);
    }
}

/// A fork that this device labels: the label goes by the first eight digits of the snapshot, stands on
/// it, and has the next number of that label.
pub proof fn fork_labels_name_their_snapshot(
    c: CapsuleV,
    capsule_id: Digest,
    snapshot_id: Digest,
    signer: Identity,
    op: LabelOp,
)
    requires
        is_fork_label(c, capsule_id, snapshot_id, signer, op),
    ensures
        op.capsule_id == capsule_id,
        op.op@ == "set"@,
        op.snapshot_id == snapshot_id,
        op.name@ == "fork/"@ + hex_text(snapshot_id.0@).take(8),
        op.lease_epoch == match c.held {
            Some(w) => w.epoch,
            None => 0,
        },
        c.labels.dom().contains(char_rank(op.name@)) ==> op.seq == c.labels[char_rank(op.name@)].seq
            + 1,
        !c.labels.dom().contains(char_rank(op.name@)) ==> op.seq == 1,
{
}

/// An item is read back into the inbox only where it is of this version, is a partial snapshot, and
/// has the id that it is stored under.
pub proof fn inbox_holds_partial_snapshots(spec_text: Seq<char>, id: Digest, raw: RawManifest)
    ensures
        inbox_fault(spec_text, id, raw) is None <==> spec_text == "0.1"@ && raw.manifest.scope
            is Partial && raw.id == id,
{
}

/// The creator of a capsule can have signed a label statement, and so can every holder of a lease and
/// every writer of a snapshot; nobody else.
pub proof fn labels_have_known_signers(
    op: LabelOp,
    creator: PeerId,
    leases: Seq<LeaseRecord>,
    snapshots: Seq<(RawManifest, String)>,
    p: PeerId,
)
    ensures
        label_candidates(op, creator, leases, snapshots).contains(p) <==> {
            ||| p == creator
            ||| exists|i: int| 0 <= i < leases.len() && (#[trigger] leases[i]).holder == p
            ||| exists|i: int|
                0 <= i < snapshots.len() && (#[trigger] snapshots[i]).0.manifest.origin == p
        },
{
    let a = seq![creator];
    let b = holders_of(leases, Some(op.lease_epoch));
    let c = holders_of(leases, None);
    let d = Seq::new(snapshots.len(), |i: int| snapshots[i].0.manifest.origin);
    let all = label_candidates(op, creator, leases, snapshots);
    assert(all == a + b + c + d);
    holders_are_known(leases, Some(op.lease_epoch));
    holders_are_known(leases, None);
    if all.contains(p) {
        let j = choose|j: int| 0 <= j < all.len() && all[j] == p;
        if j < a.len() {
            assert(p == creator);
        } else if j < a.len() + b.len() {
            assert(b[j - a.len()] == p);
            assert(b.contains(p));
        } else if j < a.len() + b.len() + c.len() {
            assert(c[j - a.len() - b.len()] == p);
            assert(c.contains(p));
        } else {
            let i = j - a.len() - b.len() - c.len();
            assert(d[i] == p);
            assert(snapshots[i].0.manifest.origin == p);
        }
    }
    if p == creator {
        assert(all[0] == p);
    }
    if exists|i: int| 0 <= i < leases.len() && (#[trigger] leases[i]).holder == p {
        assert(c.contains(p));
        let j = choose|j: int| 0 <= j < c.len() && c[j] == p;
        assert(all[a.len() + b.len() + j] == p);
    }
    if exists|i: int| 0 <= i < snapshots.len() && (#[trigger] snapshots[i]).0.manifest.origin == p {
        let i = choose|i: int|
            0 <= i < snapshots.len() && (#[trigger] snapshots[i]).0.manifest.origin == p;
        assert(d[i] == p);
        assert(all[a.len() + b.len() + c.len() + i] == p);
    }
}

/// A snapshot is taken into a capsule exactly where it is of that capsule, and is no second beginning.
pub proof fn capsules_begin_once(c: Capsule, raw: RawManifest)
    ensures
        snapshot_fault(c, raw) is None <==> {
            &&& raw.manifest.scope is Full
            &&& raw.manifest.capsule_id == Some(c.genesis.capsule_id)
            &&& raw.manifest.parents@.len() > 0 || forall|k: Seq<int>| #[trigger]
                c.snapshots@.dom().contains(k) ==> c.snapshots@[k].raw.manifest.parents@.len() > 0
        },
{
    assert forall|k: Seq<int>| #[trigger] c.snapshots@.dom().contains(k) implies (is_root(
        c.snapshots@[k],
    ) <==> c.snapshots@[k].raw.manifest.parents@.len() == 0) by {}
}

/// A fork label that cannot be signed changes nothing; one that is signed stands on its snapshot, and
/// was made when it says.
pub proof fn fork_labels_are_signed_or_not(
    c: CapsuleV,
    after: CapsuleV,
    capsule_id: Digest,
    snapshot_id: Digest,
    at: String,
    signer: Identity,
    r: Result<LabelOp, Error>,
)
    requires
        fork_signed(c, after, capsule_id, snapshot_id, at, signer, r),
    ensures
        r is Err ==> after == c,
        r matches Ok(op) ==> op.snapshot_id == snapshot_id && op.at == at && op.capsule_id
            == capsule_id && after.leases == c.leases && after.snapshots == c.snapshots,
{
}

} // verus!
