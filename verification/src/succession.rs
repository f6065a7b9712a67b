//! The leases of a capsule that is read back: whoever held it holds it again.
use vstd::prelude::*;

use crate::bytes::array_extensional;
use crate::capsule::{genesis_hash, lease_hash, lease_is, Genesis, LabelOp, LeaseRecord};
use crate::cas::Digest;
use crate::history::{
    lease_at, lease_form, lease_rule, lease_verdict, races, signed_higher, Predecessor,
    SnapshotRecord,
};
use crate::identity::PeerId;
use crate::manifest::RawManifest;
use crate::order::{byte_rank, lex_asymmetric, lex_total, lex_transitive};
use crate::reload::{lists_snapshots, snapshots_come_back, snapshots_in_order};
use crate::store::{
    begun, grant_at, in_order, is_grant, lease_before, placed, rebuilt, with_labels, with_lease,
    with_leases, CapsuleV,
};

verus! {

/// No two different leases have the same hash, and no two of one epoch the same signature.
pub open spec fn told_apart(s: Seq<LeaseRecord>) -> bool {
    forall|a: LeaseRecord, b: LeaseRecord|
        #![trigger s.contains(a), s.contains(b)]
        s.contains(a) && s.contains(b) && a != b ==> {
            &&& lease_hash(a) is Ok ==> lease_hash(a) != lease_hash(b)
            &&& a.epoch == b.epoch ==> byte_rank(a.sig.0@) != byte_rank(b.sig.0@)
        }
}

/// The lease that prevails among those of its epoch.
pub open spec fn prevails(s: Seq<LeaseRecord>, w: LeaseRecord) -> bool {
    &&& s.contains(w)
    &&& forall|l: LeaseRecord| #[trigger]
        s.contains(l) && l.epoch == w.epoch ==> l == w || signed_higher(w, l)
}

/// What the first lease follows.
pub open spec fn origin(g: Genesis) -> Predecessor {
    Predecessor { hash: genesis_hash(g)->Ok_0, epoch: 0, holder: g.created_by }
}

/// What a lease after another follows.
pub open spec fn after(p: LeaseRecord, l: LeaseRecord) -> Predecessor {
    Predecessor { hash: l.prev_hash.0@, epoch: p.epoch as int, holder: p.holder }
}

/// A lease follows another in order.
pub open spec fn follows(g: Genesis, s: Seq<LeaseRecord>, p: LeaseRecord, l: LeaseRecord) -> bool {
    &&& prevails(s, p)
    &&& p.epoch + 1 == l.epoch
    &&& lease_is(p, l.prev_hash)
    &&& lease_rule(g, after(p, l), l) is None
}

/// A lease is in its place: it is the first, or follows the one that prevails before it.
pub open spec fn in_place(g: Genesis, s: Seq<LeaseRecord>, l: LeaseRecord) -> bool {
    &&& lease_form(g.capsule_id, l) is None
    &&& if l.epoch == 1 {
        &&& genesis_hash(g) is Ok
        &&& l.prev_hash.0@ == origin(g).hash
        &&& lease_rule(g, origin(g), l) is None
    } else {
        exists|p: LeaseRecord| #[trigger] follows(g, s, p, l)
    }
}

/// Leases that came in one after the other: each is in its place, and the one that holds prevails
/// in the last epoch.
pub open spec fn lawful(g: Genesis, s: Seq<LeaseRecord>, held: Option<LeaseRecord>) -> bool {
    &&& forall|l: LeaseRecord| #[trigger] s.contains(l) ==> in_place(g, s, l)
    &&& match held {
        None => s.len() == 0,
        Some(w) => {
            &&& prevails(s, w)
            &&& forall|l: LeaseRecord| #[trigger] s.contains(l) ==> l.epoch <= w.epoch
        },
    }
}

pub(crate) proof fn push_contains(s: Seq<LeaseRecord>, r: LeaseRecord)
    ensures
        forall|l: LeaseRecord| #[trigger] s.push(r).contains(l) <==> s.contains(l) || l == r,
{
    let t = s.push(r);
    assert forall|l: LeaseRecord| #[trigger] t.contains(l) <==> s.contains(l) || l == r by {
        if s.contains(l) {
            let i = s.index_of(l);
            assert(t[i] == l);
        }
        if l == r {
            assert(t[s.len() as int] == l);
        }
        if t.contains(l) {
            let i = t.index_of(l);
            if i < s.len() {
                assert(s[i] == l);
            }
        }
    }
}

pub(crate) proof fn lease_found(s: Seq<LeaseRecord>, h: Digest, i: int)
    requires
        0 <= i <= s.len(),
    ensures
        i <= lease_at(s, h, i) <= s.len(),
        lease_at(s, h, i) < s.len() ==> lease_is(s[lease_at(s, h, i)], h),
        forall|j: int| i <= j < s.len() && lease_is(#[trigger] s[j], h) ==> lease_at(s, h, i) <= j,
    decreases s.len() - i,
{
    if i < s.len() && !lease_is(s[i], h) {
        lease_found(s, h, i + 1);
    }
}

/// The lease with a hash is the one that is found, where it is there at all.
pub(crate) proof fn found_is(s: Seq<LeaseRecord>, h: Digest, p: LeaseRecord)
    requires
        told_apart(s),
        s.contains(p),
        lease_is(p, h),
    ensures
        lease_at(s, h, 0) < s.len(),
        s[lease_at(s, h, 0)] == p,
{
    lease_found(s, h, 0);
    let j = s.index_of(p);
    assert(lease_is(s[j], h));
    let q = s[lease_at(s, h, 0)];
    assert(s.contains(q));
}

proof fn one_prevails(s: Seq<LeaseRecord>, a: LeaseRecord, b: LeaseRecord)
    requires
        prevails(s, a),
        prevails(s, b),
        a.epoch == b.epoch,
    ensures
        a == b,
{
    lex_asymmetric(byte_rank(a.sig.0@), byte_rank(b.sig.0@));
}

/// A lease that was in its place stays there when another comes in that is of a later epoch than
/// the one it follows.
proof fn stays_in_place(g: Genesis, s: Seq<LeaseRecord>, l: LeaseRecord, r: LeaseRecord)
    requires
        in_place(g, s, l),
        l.epoch <= r.epoch,
    ensures
        in_place(g, s.push(r), l),
{
    push_contains(s, r);
    if l.epoch != 1 {
        let p = choose|p: LeaseRecord| #[trigger] follows(g, s, p, l);
        assert(prevails(s.push(r), p)) by {
            assert forall|x: LeaseRecord| #[trigger] s.push(r).contains(x) && x.epoch == p.epoch implies x
                == p || signed_higher(p, x) by {
                assert(s.contains(x));
            }
        }
        assert(follows(g, s.push(r), p, l));
    }
}

/// A lease that is taken in leaves the leases lawful.
pub(crate) proof fn step_is_lawful(g: Genesis, s: Seq<LeaseRecord>, held: Option<LeaseRecord>, r: LeaseRecord)
    requires
        lawful(g, s, held),
        told_apart(s.push(r)),
        lease_verdict(g, s, held, r) is Wins || lease_verdict(g, s, held, r) is Loses,
    ensures
        lawful(
            g,
            s.push(r),
            if lease_verdict(g, s, held, r) is Wins {
                Some(r)
            } else {
                held
            },
        ),
{
    reveal(lease_verdict);
    let t = s.push(r);
    push_contains(s, r);
    part_told_apart(t, s);
    assert(t.contains(r));
    match held {
        None => {
            assert(in_place(g, t, r));
            assert(prevails(t, r));
            assert forall|l: LeaseRecord| #[trigger] t.contains(l) implies in_place(g, t, l) && l.epoch
                <= r.epoch by {
                if s.contains(l) {
                    assert(s.len() > 0);
                }
            }
        },
        Some(w) => {
            assert(s.contains(w));
            assert(in_place(g, s, w));
            assert forall|l: LeaseRecord| #[trigger] s.contains(l) implies in_place(g, t, l) by {
                assert(l.epoch <= r.epoch);
                stays_in_place(g, s, l, r);
            }
            if races(held, r) {
                if r.epoch != 1 {
                    let p = choose|p: LeaseRecord| #[trigger] follows(g, s, p, w);
                    found_is(s, r.prev_hash, p);
                    assert(prevails(t, p)) by {
                        assert forall|x: LeaseRecord| #[trigger]
                            t.contains(x) && x.epoch == p.epoch implies x == p || signed_higher(
                            p,
                            x,
                        ) by {
                            assert(s.contains(x));
                        }
                    }
                    assert(follows(g, t, p, r));
                }
                assert(in_place(g, t, r));
                lex_total(byte_rank(r.sig.0@), byte_rank(w.sig.0@));
                if lease_verdict(g, s, held, r) is Wins {
                    assert forall|x: LeaseRecord| #[trigger] t.contains(x) && x.epoch == r.epoch implies x
                        == r || signed_higher(r, x) by {
                        if s.contains(x) && x != w {
                            lex_transitive(
                                byte_rank(x.sig.0@),
                                byte_rank(w.sig.0@),
                                byte_rank(r.sig.0@),
                            );
                        }
                    }
                    assert(prevails(t, r));
                } else {
                    assert forall|x: LeaseRecord| #[trigger] t.contains(x) && x.epoch == w.epoch implies x
                        == w || signed_higher(w, x) by {
                        if !s.contains(x) {
                            assert(x == r);
                            assert(t.contains(w));
                        }
                    }
                    assert(prevails(t, w));
                }
            } else {
                assert(r.epoch == w.epoch + 1);
                assert(lease_is(w, r.prev_hash));
                assert(prevails(t, w)) by {
                    assert forall|x: LeaseRecord| #[trigger] t.contains(x) && x.epoch == w.epoch implies x
                        == w || signed_higher(w, x) by {
                        assert(s.contains(x));
                    }
                }
                assert(follows(g, t, w, r));
                assert(in_place(g, t, r));
                assert(prevails(t, r)) by {
                    assert forall|x: LeaseRecord| #[trigger] t.contains(x) && x.epoch == r.epoch implies x
                        == r || signed_higher(r, x) by {
                        if s.contains(x) {
                            assert(x.epoch <= w.epoch);
                        }
                    }
                }
            }
        },
    }
}

/// The leases that a history has taken in are lawful.
proof fn leases_are_lawful(g: Genesis, arrivals: Seq<LeaseRecord>)
    requires
        told_apart(with_leases(begun(g), arrivals).leases),
    ensures
        ({
            let c = with_leases(begun(g), arrivals);
            &&& lawful(g, c.leases, c.held)
            &&& c.genesis == g
        }),
    decreases arrivals.len(),
{
    if arrivals.len() > 0 {
        let before = with_leases(begun(g), arrivals.drop_last());
        let r = arrivals.last();
        genesis_stays(g, arrivals.drop_last());
        let verdict = lease_verdict(g, before.leases, before.held, r);
        if verdict is Wins || verdict is Loses {
            push_contains(before.leases, r);
            part_told_apart(before.leases.push(r), before.leases);
            leases_are_lawful(g, arrivals.drop_last());
            step_is_lawful(g, before.leases, before.held, r);
        } else {
            leases_are_lawful(g, arrivals.drop_last());
        }
    }
}

proof fn genesis_stays(g: Genesis, arrivals: Seq<LeaseRecord>)
    ensures
        with_leases(begun(g), arrivals).genesis == g,
    decreases arrivals.len(),
{
    if arrivals.len() > 0 {
        genesis_stays(g, arrivals.drop_last());
    }
}

/// Leases by epoch and signature: none stands before one that is in front of it.
spec fn sorted(s: Seq<LeaseRecord>) -> bool {
    forall|i: int, j: int| 0 <= i < j < s.len() ==> !lease_before(#[trigger] s[j], #[trigger] s[i])
}

proof fn order_carries(x: LeaseRecord, y: LeaseRecord, z: LeaseRecord)
    requires
        !lease_before(x, y),
        !lease_before(y, z),
    ensures
        !lease_before(x, z),
{
    let (a, b, c) = (byte_rank(x.sig.0@), byte_rank(y.sig.0@), byte_rank(z.sig.0@));
    lex_total(a, b);
    lex_total(b, c);
    lex_asymmetric(a, c);
    if lease_before(x, z) {
        if x.epoch == z.epoch && x.epoch == y.epoch {
            if a != b {
                if b == c {
                    lex_asymmetric(a, b);
                } else {
                    lex_transitive(c, b, a);
                }
            }
        }
    }
}

proof fn placing(s: Seq<LeaseRecord>, x: LeaseRecord)
    requires
        sorted(s),
    ensures
        sorted(placed(s, x)),
        forall|l: LeaseRecord| #[trigger] placed(s, x).contains(l) <==> s.contains(l) || l == x,
    decreases s.len(),
{
    push_contains(s, x);
    if s.len() == 0 || !lease_before(x, s.last()) {
        let t = s.push(x);
        assert forall|i: int, j: int| 0 <= i < j < t.len() implies !lease_before(
            #[trigger] t[j],
            #[trigger] t[i],
        ) by {
            if j == s.len() && i < s.len() - 1 {
                assert(!lease_before(s[s.len() - 1], s[i]));
                order_carries(x, s.last(), s[i]);
            }
        }
    } else {
        let front = s.drop_last();
        let last = s.last();
        assert(sorted(front)) by {
            assert forall|i: int, j: int| 0 <= i < j < front.len() implies !lease_before(
                #[trigger] front[j],
                #[trigger] front[i],
            ) by {
                assert(!lease_before(s[j], s[i]));
            }
        }
        placing(front, x);
        let p = placed(front, x);
        push_contains(p, last);
        push_contains(front, last);
        assert(front.push(last) =~= s);
        let t = placed(s, x);
        lex_asymmetric(byte_rank(x.sig.0@), byte_rank(last.sig.0@));
        assert forall|i: int, j: int| 0 <= i < j < t.len() implies !lease_before(
            #[trigger] t[j],
            #[trigger] t[i],
        ) by {
            if j < p.len() {
                assert(!lease_before(p[j], p[i]));
            } else {
                assert(p.contains(p[i]));
                if p[i] != x {
                    let k = front.index_of(p[i]);
                    assert(!lease_before(s[s.len() - 1], s[k]));
                }
            }
        }
    }
}

proof fn ordering(s: Seq<LeaseRecord>)
    ensures
        sorted(in_order(s)),
        forall|l: LeaseRecord| #[trigger] in_order(s).contains(l) <==> s.contains(l),
    decreases s.len(),
{
    if s.len() > 0 {
        ordering(s.drop_last());
        placing(in_order(s.drop_last()), s.last());
        push_contains(s.drop_last(), s.last());
        assert(s.drop_last().push(s.last()) =~= s);
    }
}

/// A lease of an earlier epoch stands in front.
proof fn earlier_stands_in_front(s: Seq<LeaseRecord>, n: int, p: LeaseRecord)
    requires
        sorted(s),
        0 <= n < s.len(),
        s.contains(p),
        p.epoch < s[n].epoch,
    ensures
        s.take(n).contains(p),
{
    let j = s.index_of(p);
    if j > n {
        assert(!lease_before(s[j], s[n]));
    }
    assert(s.take(n)[j] == p);
}

/// Replaying lawful leases by epoch and signature takes every one of them in.
proof fn replay_is_lawful(
    g: Genesis,
    l: Seq<LeaseRecord>,
    held: Option<LeaseRecord>,
    s: Seq<LeaseRecord>,
    n: int,
)
    requires
        lawful(g, l, held),
        told_apart(l),
        sorted(s),
        forall|x: LeaseRecord| #[trigger] s.contains(x) <==> l.contains(x),
        0 <= n <= s.len(),
    ensures
        ({
            let c = with_leases(begun(g), s.take(n));
            &&& c.leases == s.take(n)
            &&& c == (CapsuleV { leases: c.leases, held: c.held, ..begun(g) })
            &&& lawful(g, c.leases, c.held)
        }),
    decreases n,
{
    if n == 0 {
        assert(s.take(0) =~= Seq::<LeaseRecord>::empty());
    } else {
        replay_is_lawful(g, l, held, s, n - 1);
        let u = s.take(n - 1);
        let t = s.take(n);
        let r = s[n - 1];
        assert(t.drop_last() =~= u);
        assert(t.last() == r);
        assert(u.push(r) =~= t);
        let c = with_leases(begun(g), u);
        assert(s.contains(r));
        assert(l.contains(r));
        assert(in_place(g, l, r));
        assert forall|x: LeaseRecord| #[trigger] t.contains(x) implies l.contains(x) by {
            let i = t.index_of(x);
            assert(s[i] == x);
            assert(s.contains(x));
        }
        part_told_apart(l, t);
        push_contains(u, r);
        taken_in(g, l, s, n - 1, c.held);
        step_is_lawful(g, u, c.held, r);
    }
}

proof fn first_wins(g: Genesis, u: Seq<LeaseRecord>, r: LeaseRecord)
    requires
        in_place(g, u, r),
        r.epoch == 1,
    ensures
        lease_verdict(g, u, None, r) is Wins,
{
    reveal(lease_verdict);
}

proof fn first_race_is_taken(g: Genesis, u: Seq<LeaseRecord>, w: LeaseRecord, r: LeaseRecord)
    requires
        in_place(g, u, r),
        r.epoch == 1,
        w.epoch == 1,
        r.prev_hash == w.prev_hash,
    ensures
        !(lease_verdict(g, u, Some(w), r) is Refused),
        !(lease_verdict(g, u, Some(w), r) is Evidence),
{
    reveal(lease_verdict);
}

proof fn race_is_taken(
    g: Genesis,
    u: Seq<LeaseRecord>,
    w: LeaseRecord,
    r: LeaseRecord,
    p: LeaseRecord,
)
    requires
        lease_form(g.capsule_id, r) is None,
        r.epoch == w.epoch,
        r.epoch != 1,
        r.prev_hash == w.prev_hash,
        lease_at(u, r.prev_hash, 0) < u.len(),
        u[lease_at(u, r.prev_hash, 0)] == p,
        p.epoch + 1 == r.epoch,
        lease_rule(g, after(p, r), r) is None,
    ensures
        !(lease_verdict(g, u, Some(w), r) is Refused),
        !(lease_verdict(g, u, Some(w), r) is Evidence),
{
    reveal(lease_verdict);
}

proof fn next_is_taken(g: Genesis, u: Seq<LeaseRecord>, w: LeaseRecord, r: LeaseRecord)
    requires
        lease_form(g.capsule_id, r) is None,
        w.epoch + 1 == r.epoch,
        lease_is(w, r.prev_hash),
        lease_rule(g, after(w, r), r) is None,
    ensures
        !(lease_verdict(g, u, Some(w), r) is Refused),
        !(lease_verdict(g, u, Some(w), r) is Evidence),
{
    reveal(lease_verdict);
}

pub(crate) proof fn part_told_apart(l: Seq<LeaseRecord>, u: Seq<LeaseRecord>)
    requires
        told_apart(l),
        forall|x: LeaseRecord| #[trigger] u.contains(x) ==> l.contains(x),
    ensures
        told_apart(u),
{
    assert forall|a: LeaseRecord, b: LeaseRecord|
        #![trigger u.contains(a), u.contains(b)]
        u.contains(a) && u.contains(b) && a != b implies {
        &&& lease_hash(a) is Ok ==> lease_hash(a) != lease_hash(b)
        &&& a.epoch == b.epoch ==> byte_rank(a.sig.0@) != byte_rank(b.sig.0@)
    } by {
        assert(l.contains(a) && l.contains(b));
    }
}

/// The next lease of a replay is taken in.
proof fn taken_in(
    g: Genesis,
    l: Seq<LeaseRecord>,
    s: Seq<LeaseRecord>,
    n: int,
    held: Option<LeaseRecord>,
)
    requires
        told_apart(l),
        sorted(s),
        forall|x: LeaseRecord| #[trigger] s.contains(x) <==> l.contains(x),
        forall|x: LeaseRecord| #[trigger] l.contains(x) ==> in_place(g, l, x),
        0 <= n < s.len(),
        lawful(g, s.take(n), held),
    ensures
        !(lease_verdict(g, s.take(n), held, s[n]) is Refused),
        !(lease_verdict(g, s.take(n), held, s[n]) is Evidence),
{
    let u = s.take(n);
    let r = s[n];
    assert(s.contains(r));
    assert(in_place(g, l, r));
    assert forall|x: LeaseRecord| #[trigger] u.contains(x) implies l.contains(x) && x.epoch
        <= r.epoch by {
        let i = u.index_of(x);
        assert(s[i] == x);
        assert(s.contains(x));
        assert(!lease_before(s[n], s[i]));
    }
    match held {
        None => {
            if r.epoch != 1 {
                let p = choose|p: LeaseRecord| #[trigger] follows(g, l, p, r);
                assert(s.contains(p));
                earlier_stands_in_front(s, n, p);
                assert(u.len() > 0);
            }
            first_wins(g, u, r);
        },
        Some(w) => {
            assert(u.contains(w));
            assert(l.contains(w));
            assert(in_place(g, l, w));
            if r.epoch == w.epoch && r.epoch == 1 {
                array_extensional(r.prev_hash.0, w.prev_hash.0);
                first_race_is_taken(g, u, w, r);
            } else {
                let p = choose|p: LeaseRecord| #[trigger] follows(g, l, p, r);
                assert(s.contains(p));
                earlier_stands_in_front(s, n, p);
                if r.epoch == w.epoch {
                    let q = choose|q: LeaseRecord| #[trigger] follows(g, l, q, w);
                    one_prevails(l, p, q);
                    array_extensional(r.prev_hash.0, w.prev_hash.0);
                    part_told_apart(l, u);
                    found_is(u, r.prev_hash, p);
                    race_is_taken(g, u, w, r, p);
                } else {
                    assert(p.epoch == w.epoch);
                    lex_asymmetric(byte_rank(p.sig.0@), byte_rank(w.sig.0@));
                    assert(p == w);
                    next_is_taken(g, u, w, r);
                }
            }
        },
    }
}

proof fn leases_split(c: CapsuleV, s: Seq<LeaseRecord>)
    requires
        s.len() > 0,
    ensures
        with_leases(c, s) == with_leases(with_lease(c, s[0]), s.remove(0)),
    decreases s.len(),
{
    let rest = s.remove(0);
    if s.len() == 1 {
        assert(s.drop_last() =~= Seq::<LeaseRecord>::empty());
        assert(rest =~= Seq::<LeaseRecord>::empty());
        assert(with_leases(c, s.drop_last()) == c);
    } else {
        leases_split(c, s.drop_last());
        assert(s.drop_last().remove(0) =~= rest.drop_last());
        assert(rest.last() == s.last());
    }
}

/// The leases of a capsule that is read back are those that it had taken in, in whatever order and
/// however often they are read, and the same one holds.
pub proof fn leases_come_back(g: Genesis, arrivals: Seq<LeaseRecord>, read: Seq<LeaseRecord>)
    requires
        with_leases(begun(g), arrivals).held is Some,
        told_apart(with_leases(begun(g), arrivals).leases),
        forall|x: LeaseRecord| #[trigger]
            read.contains(x) <==> with_leases(begun(g), arrivals).leases.contains(x),
    ensures
        ({
            let c = with_leases(begun(g), arrivals);
            let s = in_order(read);
            let at = grant_at(s, 0);
            let back = with_leases(with_lease(begun(g), s[at]), s.remove(at));
            &&& at < s.len()
            &&& lease_verdict(g, Seq::empty(), None, s[at]) is Wins
            &&& back == (CapsuleV { leases: s, held: c.held, ..begun(g) })
            &&& forall|x: LeaseRecord| #[trigger] s.contains(x) <==> c.leases.contains(x)
        }),
{
    reveal(lease_verdict);
    let c = with_leases(begun(g), arrivals);
    leases_are_lawful(g, arrivals);
    let s = in_order(read);
    ordering(read);
    replay_is_lawful(g, c.leases, c.held, s, s.len() as int);
    assert(s.take(s.len() as int) =~= s);
    let w = c.held->0;
    assert(s.contains(w));
    assert(s.len() > 0);
    let first = s[0];
    assert(s.contains(first));
    assert(in_place(g, c.leases, first));
    if first.epoch != 1 {
        let p = choose|p: LeaseRecord| #[trigger] follows(g, c.leases, p, first);
        assert(s.contains(p));
        earlier_stands_in_front(s, 0, p);
        assert(s.take(0).len() == 0);
    }
    assert(is_grant(first));
    assert(grant_at(s, 0) == 0);
    leases_split(begun(g), s);
    let back = with_leases(begun(g), s);
    assert(back.held is Some);
    let v = back.held->0;
    assert(s.contains(v));
    assert(c.leases.contains(v));
    lex_asymmetric(byte_rank(v.sig.0@), byte_rank(w.sig.0@));
    assert(v == w);
}

proof fn labels_leave_the_rest(c: CapsuleV, labels: Seq<(LabelOp, PeerId)>)
    ensures
        ({
            let after = with_labels(c, labels);
            &&& after.genesis == c.genesis
            &&& after.leases == c.leases
            &&& after.held == c.held
            &&& after.evidence == c.evidence
            &&& after.snapshots == c.snapshots
        }),
    decreases labels.len(),
{
    if labels.len() > 0 {
        labels_leave_the_rest(c, labels.drop_last());
    }
}

/// A capsule that is read back from its records has the snapshots that were stored, and the same
/// peer holds it.
pub proof fn capsule_comes_back(
    c: CapsuleV,
    arrivals: Seq<LeaseRecord>,
    leases: Seq<LeaseRecord>,
    snapshots: Seq<(RawManifest, String)>,
    labels: Seq<(LabelOp, PeerId)>,
)
    requires
        c.leases == with_leases(begun(c.genesis), arrivals).leases,
        c.held == with_leases(begun(c.genesis), arrivals).held,
        c.held is Some,
        told_apart(c.leases),
        snapshots_in_order(c),
        forall|x: LeaseRecord| #[trigger] leases.contains(x) <==> c.leases.contains(x),
        lists_snapshots(c, snapshots),
    ensures
        ({
            let back = rebuilt(c.genesis, leases, snapshots, labels);
            &&& back.genesis == c.genesis
            &&& back.held == c.held
            &&& back.snapshots == c.snapshots
            &&& forall|x: LeaseRecord| #[trigger] back.leases.contains(x) <==> c.leases.contains(x)
        }),
{
    leases_come_back(c.genesis, arrivals, leases);
    let s = in_order(leases);
    let at = grant_at(s, 0);
    let held = with_leases(with_lease(begun(c.genesis), s[at]), s.remove(at));
    assert(held.snapshots == Map::<Seq<int>, SnapshotRecord>::empty());
    snapshots_come_back(c, held, snapshots);
    labels_leave_the_rest(crate::store::with_snapshots(held, snapshots), labels);
}

} // verus!
