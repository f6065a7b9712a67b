//! A capsule that is read back from its records is the one that was stored.
use vstd::prelude::*;

use crate::capsule::{Genesis, LabelOp, LeaseRecord};
use crate::history::{is_root, parents_known, settled, SnapshotRecord};
use crate::identity::PeerId;
use crate::manifest::RawManifest;
use crate::order::{byte_rank, char_rank, lex_asymmetric, lex_before, lex_transitive, Key};
use crate::store::{
    begun, label_fault_v, snapshot_fault_v, with_label, with_labels, with_lease, with_snapshot,
    with_snapshots, CapsuleV,
};

verus! {

/// The snapshots of a capsule are in order: each stands under its id and belongs to the capsule,
/// at most one follows no other, and the orphans are those that lack a parent.
pub open spec fn snapshots_in_order(c: CapsuleV) -> bool {
    &&& forall|k: Seq<int>| #[trigger]
        c.snapshots.dom().contains(k) ==> c.snapshots[k].raw.id.rank() == k
            && c.snapshots[k].raw.manifest.scope is Full
            && c.snapshots[k].raw.manifest.capsule_id == Some(c.genesis.capsule_id)
            && c.snapshots[k].orphan == !parents_known(
            c.snapshots[k].raw.manifest.parents@,
            c.snapshots.dom(),
        )
    &&& forall|j: Seq<int>, k: Seq<int>|
        #![trigger c.snapshots.dom().contains(j), c.snapshots.dom().contains(k)]
        c.snapshots.dom().contains(j) && c.snapshots.dom().contains(k) && is_root(c.snapshots[j])
            && is_root(c.snapshots[k]) ==> j == k
}

/// A capsule that has just begun has its snapshots in order.
pub proof fn begun_in_order(genesis: Genesis)
    ensures
        snapshots_in_order(begun(genesis)),
{
}

/// Leases and labels leave the snapshots in order.
pub proof fn others_keep_order(c: CapsuleV, l: LeaseRecord, op: LabelOp, signer: PeerId)
    requires
        snapshots_in_order(c),
    ensures
        snapshots_in_order(with_lease(c, l)),
        snapshots_in_order(with_label(c, op, signer)),
{
}

/// A snapshot that comes in leaves the snapshots in order: whoever waited for it waits no longer,
/// in whatever order they came.
pub proof fn snapshot_keeps_order(c: CapsuleV, raw: RawManifest, received_at: String)
    requires
        snapshots_in_order(c),
        snapshot_fault_v(c, raw) is None,
    ensures
        snapshots_in_order(
            with_snapshot(
                c,
                SnapshotRecord {
                    raw,
                    received_at,
                    orphan: !parents_known(raw.manifest.parents@, c.snapshots.dom()),
                },
            ),
        ),
{
    let record = SnapshotRecord {
        raw,
        received_at,
        orphan: !parents_known(raw.manifest.parents@, c.snapshots.dom()),
    };
    let after = with_snapshot(c, record);
    let id = raw.id.rank();
    let known = c.snapshots.dom().insert(id);
    assert(after.snapshots.dom() =~= known);
    assert forall|k: Seq<int>| #[trigger] after.snapshots.dom().contains(k) implies {
        &&& after.snapshots[k].raw.id.rank() == k
        &&& after.snapshots[k].raw.manifest.scope is Full
        &&& after.snapshots[k].raw.manifest.capsule_id == Some(after.genesis.capsule_id)
        &&& after.snapshots[k].orphan == !parents_known(
            after.snapshots[k].raw.manifest.parents@,
            after.snapshots.dom(),
        )
    } by {
        let old_record = if k == id {
            record
        } else {
            c.snapshots[k]
        };
        assert(after.snapshots[k] == settled(old_record, known));
        let parents = old_record.raw.manifest.parents@;
        if k != id {
            assert(c.snapshots.dom().contains(k));
        }
        if parents_known(parents, c.snapshots.dom()) {
            assert(parents_known(parents, known));
        }
    }
    assert forall|j: Seq<int>, k: Seq<int>|
        #![trigger after.snapshots.dom().contains(j), after.snapshots.dom().contains(k)]
        after.snapshots.dom().contains(j) && after.snapshots.dom().contains(k) && is_root(
            after.snapshots[j],
        ) && is_root(after.snapshots[k]) implies j == k by {
        if j != id {
            assert(c.snapshots.dom().contains(j));
            assert(is_root(c.snapshots[j]));
        }
        if k != id {
            assert(c.snapshots.dom().contains(k));
            assert(is_root(c.snapshots[k]));
        }
    }
}

/// A list of the snapshots of a capsule: each once, in any order.
pub open spec fn lists_snapshots(c: CapsuleV, s: Seq<(RawManifest, String)>) -> bool {
    &&& forall|i: int|
        0 <= i < s.len() ==> c.snapshots.dom().contains((#[trigger] s[i]).0.id.rank())
            && c.snapshots[s[i].0.id.rank()].raw == s[i].0
            && c.snapshots[s[i].0.id.rank()].received_at == s[i].1
    &&& forall|i: int, j: int|
        0 <= i < j < s.len() ==> (#[trigger] s[i]).0.id.rank() != (#[trigger] s[j]).0.id.rank()
    &&& forall|k: Seq<int>| #[trigger]
        c.snapshots.dom().contains(k) ==> listed_at(s, k)
}

/// The list holds a snapshot with this rank.
pub open spec fn listed_at(s: Seq<(RawManifest, String)>, k: Seq<int>) -> bool {
    exists|i: int| 0 <= i < s.len() && (#[trigger] s[i]).0.id.rank() == k
}

proof fn replayed(c: CapsuleV, start: CapsuleV, s: Seq<(RawManifest, String)>, n: int)
    requires
        snapshots_in_order(c),
        lists_snapshots(c, s),
        start.genesis == c.genesis,
        start.snapshots == Map::<Seq<int>, SnapshotRecord>::empty(),
        0 <= n <= s.len(),
    ensures
        ({
            let after = with_snapshots(start, s.take(n));
            &&& snapshots_in_order(after)
            &&& after == (CapsuleV { snapshots: after.snapshots, ..start })
            &&& forall|k: Seq<int>| #[trigger]
                after.snapshots.dom().contains(k) <==> listed_at(s.take(n), k)
            &&& forall|k: Seq<int>| #[trigger]
                after.snapshots.dom().contains(k) ==> c.snapshots.dom().contains(k)
                    && after.snapshots[k].raw == c.snapshots[k].raw
                    && after.snapshots[k].received_at == c.snapshots[k].received_at
        }),
    decreases n,
{
    if n == 0 {
        assert(s.take(0) =~= Seq::<(RawManifest, String)>::empty());
    } else {
        replayed(c, start, s, n - 1);
        let t = s.take(n);
        let u = s.take(n - 1);
        assert(t.drop_last() =~= u);
        assert(t.last() == s[n - 1]);
        let before = with_snapshots(start, u);
        let (raw, at) = s[n - 1];
        let id = raw.id.rank();
        assert(c.snapshots.dom().contains(id));
        if raw.manifest.parents@.len() == 0 {
            assert forall|k: Seq<int>| #[trigger] before.snapshots.dom().contains(k) implies !is_root(
                before.snapshots[k],
            ) by {
                let i = choose|i: int| 0 <= i < u.len() && (#[trigger] u[i]).0.id.rank() == k;
                assert(s[i].0.id.rank() == k);
                if is_root(before.snapshots[k]) {
                    assert(is_root(c.snapshots[k]));
                    assert(is_root(c.snapshots[id]));
                    assert(k == id);
                }
            }
        }
        assert(snapshot_fault_v(before, raw) is None);
        snapshot_keeps_order(before, raw, at);
        let after = with_snapshots(start, t);
        assert forall|k: Seq<int>| #[trigger] after.snapshots.dom().contains(k) <==> listed_at(t, k) by {
            if listed_at(u, k) {
                let i = choose|i: int| 0 <= i < u.len() && (#[trigger] u[i]).0.id.rank() == k;
                assert(t[i].0.id.rank() == k);
            }
            if k == id {
                assert(t[n - 1].0.id.rank() == k);
            }
            if listed_at(t, k) {
                let i = choose|i: int| 0 <= i < t.len() && (#[trigger] t[i]).0.id.rank() == k;
                if i < n - 1 {
                    assert(u[i].0.id.rank() == k);
                }
            }
            assert(before.snapshots.dom().contains(k) <==> listed_at(u, k));
        }
        assert forall|k: Seq<int>| #[trigger] after.snapshots.dom().contains(k) implies {
            &&& c.snapshots.dom().contains(k)
            &&& after.snapshots[k].raw == c.snapshots[k].raw
            &&& after.snapshots[k].received_at == c.snapshots[k].received_at
        } by {
            if k != id {
                assert(before.snapshots.dom().contains(k));
            }
        }
    }
}

/// The snapshots of a capsule that is read back are those that were stored, in whatever order they
/// are read, and the same of them are orphans.
pub proof fn snapshots_come_back(c: CapsuleV, start: CapsuleV, s: Seq<(RawManifest, String)>)
    requires
        snapshots_in_order(c),
        lists_snapshots(c, s),
        start.genesis == c.genesis,
        start.snapshots == Map::<Seq<int>, SnapshotRecord>::empty(),
    ensures
        with_snapshots(start, s) == (CapsuleV { snapshots: c.snapshots, ..start }),
{
    replayed(c, start, s, s.len() as int);
    assert(s.take(s.len() as int) =~= s);
    let after = with_snapshots(start, s);
    assert(after.snapshots.dom() =~= c.snapshots.dom());
    assert forall|k: Seq<int>| #[trigger] c.snapshots.dom().contains(k) implies after.snapshots[k]
        == c.snapshots[k] by {
        assert(after.snapshots.dom().contains(k));
    }
    assert(after.snapshots =~= c.snapshots);
}

/// One statement about a label outranks another: by number, and then by signature.
pub open spec fn outranks(a: LabelOp, b: LabelOp) -> bool {
    a.seq > b.seq || (a.seq == b.seq && lex_before(byte_rank(b.sig.0@), byte_rank(a.sig.0@)))
}

/// The label that a statement is about.
pub open spec fn label_key(op: LabelOp) -> Seq<int> {
    char_rank(op.name@)
}

/// The statement is one of a list.
pub open spec fn states(s: Seq<(LabelOp, PeerId)>, op: LabelOp) -> bool {
    exists|i: int| 0 <= i < s.len() && (#[trigger] s[i]).0 == op
}

/// Of two different statements about one label, one outranks the other.
pub open spec fn ranked(s: Seq<(LabelOp, PeerId)>) -> bool {
    forall|i: int, j: int|
        0 <= i < s.len() && 0 <= j < s.len() && (#[trigger] s[i]).0 != (#[trigger] s[j]).0
            && label_key(s[i].0) == label_key(s[j].0) ==> outranks(s[i].0, s[j].0) || outranks(
            s[j].0,
            s[i].0,
        )
}

/// No statement is refused when it comes in.
pub open spec fn none_refused(c: CapsuleV, s: Seq<(LabelOp, PeerId)>) -> bool {
    forall|n: int|
        0 <= n < s.len() ==> label_fault_v(
            with_labels(c, s.take(n)),
            (#[trigger] s[n]).0,
            s[n].1,
        ) is None
}

/// Each label is what the statement says that outranks all others about it.
pub open spec fn labels_stand(labels: Map<Seq<int>, LabelOp>, s: Seq<(LabelOp, PeerId)>) -> bool {
    &&& forall|k: Seq<int>| #[trigger]
        labels.dom().contains(k) ==> states(s, labels[k]) && label_key(labels[k]) == k
    &&& forall|i: int|
        0 <= i < s.len() ==> {
            let k = label_key((#[trigger] s[i]).0);
            labels.dom().contains(k) && (labels[k] == s[i].0 || outranks(labels[k], s[i].0))
        }
}

proof fn outranking_carries(a: LabelOp, b: LabelOp, c: LabelOp)
    requires
        outranks(a, b),
        outranks(b, c),
    ensures
        outranks(a, c),
{
    if a.seq == b.seq && b.seq == c.seq {
        lex_transitive(byte_rank(c.sig.0@), byte_rank(b.sig.0@), byte_rank(a.sig.0@));
    }
}

/// The labels once a statement has come in that is not refused.
spec fn next_labels(labels: Map<Seq<int>, LabelOp>, op: LabelOp) -> Map<Seq<int>, LabelOp> {
    let k = label_key(op);
    if labels.dom().contains(k) && !outranks(op, labels[k]) {
        labels
    } else {
        labels.insert(k, op)
    }
}

proof fn label_effect(c: CapsuleV, op: LabelOp, signer: PeerId)
    requires
        label_fault_v(c, op, signer) is None,
    ensures
        with_label(c, op, signer).labels == next_labels(c.labels, op),
{
}

proof fn statement_stands(
    labels: Map<Seq<int>, LabelOp>,
    u: Seq<(LabelOp, PeerId)>,
    x: (LabelOp, PeerId),
)
    requires
        labels_stand(labels, u),
        ranked(u.push(x)),
    ensures
        labels_stand(next_labels(labels, x.0), u.push(x)),
{
    let t = u.push(x);
    let op = x.0;
    let k = label_key(op);
    let after = next_labels(labels, op);
    let n = u.len() as int;
    assert(t[n].0 == op);
    assert forall|q: Seq<int>| #[trigger] after.dom().contains(q) implies states(t, after[q])
        && label_key(after[q]) == q by {
        if after[q] != op {
            assert(labels.dom().contains(q));
            assert(states(u, labels[q]));
            let j = choose|j: int| 0 <= j < u.len() && (#[trigger] u[j]).0 == labels[q];
            assert(t[j].0 == labels[q]);
        }
    }
    assert forall|i: int| 0 <= i < t.len() implies ({
        let q = label_key((#[trigger] t[i]).0);
        after.dom().contains(q) && (after[q] == t[i].0 || outranks(after[q], t[i].0))
    }) by {
        if i < n {
            assert(u[i] == t[i]);
            let q = label_key(u[i].0);
            assert(labels.dom().contains(q));
            if q == k && after[q] != labels[q] && labels[q] != u[i].0 {
                outranking_carries(op, labels[q], u[i].0);
            }
        } else if labels.dom().contains(k) && !outranks(op, labels[k]) {
            assert(states(u, labels[k]));
            let j = choose|j: int| 0 <= j < u.len() && (#[trigger] u[j]).0 == labels[k];
            assert(t[j].0 == labels[k]);
        }
    }
}

proof fn labels_stand_after(c: CapsuleV, s: Seq<(LabelOp, PeerId)>, n: int)
    requires
        c.labels == Map::<Seq<int>, LabelOp>::empty(),
        ranked(s),
        none_refused(c, s),
        0 <= n <= s.len(),
    ensures
        labels_stand(with_labels(c, s.take(n)).labels, s.take(n)),
    decreases n,
{
    if n == 0 {
        assert(s.take(0) =~= Seq::<(LabelOp, PeerId)>::empty());
    } else {
        labels_stand_after(c, s, n - 1);
        let t = s.take(n);
        let u = s.take(n - 1);
        let x = s[n - 1];
        assert(t.drop_last() =~= u);
        assert(t.last() == x);
        assert(u.push(x) =~= t);
        assert(ranked(t)) by {
            assert forall|i: int, j: int|
                0 <= i < t.len() && 0 <= j < t.len() && (#[trigger] t[i]).0 != (#[trigger] t[j]).0
                    && label_key(t[i].0) == label_key(t[j].0) implies outranks(t[i].0, t[j].0)
                || outranks(t[j].0, t[i].0) by {
                assert(s[i] == t[i] && s[j] == t[j]);
            }
        }
        let before = with_labels(c, u);
        assert(label_fault_v(before, s[n - 1].0, s[n - 1].1) is None);
        label_effect(before, x.0, x.1);
        statement_stands(before.labels, u, x);
    }
}

/// Statements about labels lead to the same labels in whatever order they come in, where none of
/// them is refused.
pub proof fn labels_end_up_alike(c: CapsuleV, s: Seq<(LabelOp, PeerId)>, t: Seq<(LabelOp, PeerId)>)
    requires
        c.labels == Map::<Seq<int>, LabelOp>::empty(),
        ranked(s),
        ranked(t),
        none_refused(c, s),
        none_refused(c, t),
        forall|op: LabelOp| #[trigger] states(s, op) <==> states(t, op),
    ensures
        with_labels(c, s).labels == with_labels(c, t).labels,
{
    labels_stand_after(c, s, s.len() as int);
    labels_stand_after(c, t, t.len() as int);
    assert(s.take(s.len() as int) =~= s);
    assert(t.take(t.len() as int) =~= t);
    let a = with_labels(c, s).labels;
    let b = with_labels(c, t).labels;
    assert forall|k: Seq<int>| a.dom().contains(k) <==> #[trigger] b.dom().contains(k) by {
        if a.dom().contains(k) {
            assert(states(t, a[k]));
            let i = choose|i: int| 0 <= i < t.len() && (#[trigger] t[i]).0 == a[k];
            assert(label_key(t[i].0) == k);
        }
        if b.dom().contains(k) {
            assert(states(s, b[k]));
            let i = choose|i: int| 0 <= i < s.len() && (#[trigger] s[i]).0 == b[k];
            assert(label_key(s[i].0) == k);
        }
    }
    assert forall|k: Seq<int>| #[trigger] a.dom().contains(k) implies a[k] == b[k] by {
        assert(b.dom().contains(k));
        assert(states(t, a[k]));
        assert(states(s, b[k]));
        let i = choose|i: int| 0 <= i < t.len() && (#[trigger] t[i]).0 == a[k];
        let j = choose|j: int| 0 <= j < s.len() && (#[trigger] s[j]).0 == b[k];
        assert(label_key(t[i].0) == k);
        assert(label_key(s[j].0) == k);
        lex_asymmetric(byte_rank(a[k].sig.0@), byte_rank(b[k].sig.0@));
    }
    assert(a =~= b);
}

} // verus!
