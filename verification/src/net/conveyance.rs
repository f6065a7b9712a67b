//! What a delivery carries, from the plan to the last piece.
use vstd::prelude::*;

use crate::base64::base64_bytes;
use crate::cas::{blake3_of, tree_of, Digest};
use crate::manifest::{NativeBlobRef, RawManifest};
use crate::net::error::Error;
use crate::net::incoming::needs_too_much;
use crate::net::intake::Intake;
use crate::net::offer::Offer;
use crate::net::outgoing::{lacking, Order, Sending};
use crate::net::pack::{added, pack_fault, packed_size, supplied_size, RelayObject};
use crate::net::plan::{
    declared_size, held_part, held_whole, is_answer, is_native, native_bytes, native_missing,
    plan_fault, plan_is_exact, total_bytes, Have, Holding, Plan, PlanObject,
};
use crate::order::Key;
use crate::table::Table;

verus! {

/// The sizes of objects add up, one by one; those of native objects are counted apart.
pub proof fn sizes_add_up(s: Seq<PlanObject>, x: PlanObject, native: Seq<NativeBlobRef>)
    ensures
        total_bytes(Seq::empty()) == 0,
        native_bytes(Seq::empty(), native) == 0,
        total_bytes(s.push(x)) == total_bytes(s) + x.bytes,
        native_bytes(s.push(x), native) == native_bytes(s, native) + if exists|i: int|
            0 <= i < native.len() && (#[trigger] native[i]).hash == x.digest {
            x.bytes as int
        } else {
            0
        },
        0 <= native_bytes(s, native) <= total_bytes(s),
    decreases s.len(),
{
    assert(s.push(x).drop_last() =~= s);
    if s.len() > 0 {
        sizes_add_up(s.drop_last(), s.last(), native);
        assert(s.drop_last().push(s.last()) =~= s);
    }
}

proof fn last_size_is_declared(native: Seq<NativeBlobRef>, i: int)
    requires
        0 <= i < native.len(),
        forall|j: int| i < j < native.len() ==> (#[trigger] native[j]).hash != native[i].hash,
    ensures
        declared_size(native, native[i].hash) == Some(native[i].size),
    decreases native.len(),
{
    if i < native.len() - 1 {
        assert(native[native.len() - 1] == native.last());
        let front = native.drop_last();
        assert forall|j: int| i < j < front.len() implies (#[trigger] front[j]).hash
            != front[i].hash by {
            assert(front[j] == native[j]);
        }
        last_size_is_declared(front, i);
    }
}

/// What a plan needs to be taken. It is the whole plan of the offer, with as many objects and bytes
/// as the offer said. No object is planned twice. Objects are blobs or trees of up to 256 MiB; native
/// ones are blobs of up to 8 GiB and as large as the manifest says.
pub proof fn plan_keeps_its_offer(
    plan: Plan,
    offer_id: Seq<char>,
    object_count: u64,
    bytes_hint: u64,
    native: Seq<NativeBlobRef>,
)
    requires
        plan_fault(plan, offer_id, object_count, bytes_hint, native) is None,
    ensures
        plan.offer_id@ == offer_id,
        plan.eof,
        plan.objects@.len() == object_count,
        total_bytes(plan.objects@) == bytes_hint,
        forall|i: int, j: int|
            0 <= i < j < plan.objects@.len() ==> (#[trigger] plan.objects@[i]).digest != (
            #[trigger] plan.objects@[j]).digest,
        forall|i: int|
            0 <= i < plan.objects@.len() ==> {
                let x = #[trigger] plan.objects@[i];
                &&& x.kind@ == "blob"@ || x.kind@ == "tree"@
                &&& x.bytes <= 8_589_934_592
                &&& !is_native(native, x.digest) ==> x.bytes <= 268_435_456
                &&& is_native(native, x.digest) ==> x.kind@ == "blob"@
            },
        forall|i: int, k: int|
            0 <= i < plan.objects@.len() && 0 <= k < native.len() && (
            #[trigger] plan.objects@[i]).digest == (#[trigger] native[k]).hash && (forall|j: int|
                k < j < native.len() ==> (#[trigger] native[j]).hash != native[k].hash)
                ==> plan.objects@[i].bytes == native[k].size,
{
    assert forall|i: int, k: int|
        0 <= i < plan.objects@.len() && 0 <= k < native.len() && (
        #[trigger] plan.objects@[i]).digest == (#[trigger] native[k]).hash && (forall|j: int|
            k < j < native.len() ==> (#[trigger] native[j]).hash != native[k].hash) implies
        plan.objects@[i].bytes == native[k].size by {
        last_size_is_declared(native, k);
        assert(crate::net::plan::object_valid(plan.objects@[i], native));
    }
}

proof fn whole_members(s: Seq<(Digest, Holding)>)
    ensures
        forall|d: Digest| #[trigger]
            held_whole(s).contains(d) <==> exists|i: int|
                0 <= i < s.len() && (#[trigger] s[i]).0 == d && s[i].1 is Whole,
    decreases s.len(),
{
    let all = held_whole(s);
    if s.len() > 0 {
        let front = s.drop_last();
        whole_members(front);
        let before = held_whole(front);
        assert(s[s.len() - 1] == s.last());
        assert forall|d: Digest| #[trigger] all.contains(d) <==> exists|i: int|
            0 <= i < s.len() && (#[trigger] s[i]).0 == d && s[i].1 is Whole by {
            if all.contains(d) {
                let k = choose|k: int| 0 <= k < all.len() && all[k] == d;
                if k < before.len() {
                    assert(before[k] == d);
                    assert(before.contains(d));
                    let i = choose|i: int|
                        0 <= i < front.len() && (#[trigger] front[i]).0 == d && front[i].1 is Whole;
                    assert(s[i] == front[i]);
                }
            }
            if exists|i: int| 0 <= i < s.len() && (#[trigger] s[i]).0 == d && s[i].1 is Whole {
                let i = choose|i: int|
                    0 <= i < s.len() && (#[trigger] s[i]).0 == d && s[i].1 is Whole;
                if i < front.len() {
                    assert(front[i] == s[i]);
                    assert(before.contains(d));
                    let k = choose|k: int| 0 <= k < before.len() && before[k] == d;
                    assert(all[k] == d);
                } else {
                    assert(all[before.len() as int] == d);
                }
            }
        }
    } else {
        assert(all.len() == 0);
    }
}

proof fn part_members(s: Seq<(Digest, Holding)>)
    ensures
        forall|k: Seq<int>| #[trigger]
            held_part(s).dom().contains(k) ==> exists|i: int|
                0 <= i < s.len() && (#[trigger] s[i]).0.rank() == k && s[i].1 == Holding::Part(
                    held_part(s)[k],
                ),
        forall|i: int|
            0 <= i < s.len() && (#[trigger] s[i]).1 is Part ==> held_part(s).dom().contains(
                s[i].0.rank(),
            ),
    decreases s.len(),
{
    if s.len() > 0 {
        let front = s.drop_last();
        part_members(front);
        let (before, all) = (held_part(front), held_part(s));
        assert(s[s.len() - 1] == s.last());
        assert forall|k: Seq<int>| #[trigger] all.dom().contains(k) implies exists|i: int|
            0 <= i < s.len() && (#[trigger] s[i]).0.rank() == k && s[i].1 == Holding::Part(
                all[k],
            ) by {
            if s.last().1 is Part && s.last().0.rank() == k {
                assert(s[s.len() - 1].0.rank() == k);
            } else {
                assert(before.dom().contains(k));
                let i = choose|i: int|
                    0 <= i < front.len() && (#[trigger] front[i]).0.rank() == k && front[i].1
                        == Holding::Part(before[k]);
                assert(s[i] == front[i]);
            }
        }
        assert forall|i: int| 0 <= i < s.len() && (#[trigger] s[i]).1 is Part implies all.dom().contains(
            s[i].0.rank(),
        ) by {
            if i < front.len() {
                assert(front[i] == s[i]);
            }
        }
    }
}

proof fn declined_members(have: Seq<Digest>, native: Seq<(Digest, ())>)
    ensures
        forall|d: Digest| #[trigger]
            native_missing(have, native).contains(d) <==> have.contains(d) || exists|i: int|
                0 <= i < native.len() && (#[trigger] native[i]).0 == d,
    decreases native.len(),
{
    let all = native_missing(have, native);
    if native.len() > 0 {
        let front = native.drop_last();
        declined_members(have, front);
        let before = native_missing(have, front);
        let last = native.last().0;
        assert(native[native.len() - 1] == native.last());
        assert forall|d: Digest| #[trigger] all.contains(d) <==> have.contains(d) || exists|i: int|
            0 <= i < native.len() && (#[trigger] native[i]).0 == d by {
            if all.contains(d) {
                let k = choose|k: int| 0 <= k < all.len() && all[k] == d;
                if k < before.len() {
                    assert(before[k] == d);
                    assert(before.contains(d));
                    if !have.contains(d) {
                        let i = choose|i: int|
                            0 <= i < front.len() && (#[trigger] front[i]).0 == d;
                        assert(native[i] == front[i]);
                    }
                } else {
                    assert(native[native.len() - 1].0 == d);
                }
            }
            if have.contains(d) {
                assert(before.contains(d));
            }
            if exists|i: int| 0 <= i < native.len() && (#[trigger] native[i]).0 == d {
                let i = choose|i: int| 0 <= i < native.len() && (#[trigger] native[i]).0 == d;
                if i < front.len() {
                    assert(front[i].0 == d);
                    assert(before.contains(d));
                }
            }
            if before.contains(d) {
                let k = choose|k: int| 0 <= k < before.len() && before[k] == d;
                assert(all[k] == d);
            } else if d == last {
                assert(all[before.len() as int] == d);
            }
        }
    }
}

/// What a receiver answers to a plan: that it has what it holds whole, and how far it has come with
/// what it holds in part. A guest that sends is told nothing of what is here. A receiver that
/// declines native objects names them all as had, and asks for the rest of none of them.
pub proof fn answer_tells_what_is_held(
    have: Have,
    offer_id: Seq<char>,
    holdings: Seq<(Digest, Holding)>,
    native: Table<Digest, ()>,
    skip_native: bool,
    guest_sender: bool,
    decline: bool,
)
    requires
        is_answer(have, offer_id, holdings, native, skip_native, guest_sender, decline),
    ensures
        have.offer_id@ == offer_id,
        guest_sender ==> have.have@.len() == 0 && have.resume@.dom() =~= Set::<Seq<int>>::empty()
            && !have.skip_native,
        !guest_sender ==> forall|d: Digest| #[trigger]
            have.have@.contains(d) <==> (exists|i: int|
                0 <= i < holdings.len() && (#[trigger] holdings[i]).0 == d && holdings[i].1
                    is Whole) || (decline && exists|i: int|
                0 <= i < native.entries@.len() && (#[trigger] native.entries@[i]).0 == d),
        !guest_sender ==> forall|k: Seq<int>| #[trigger]
            have.resume@.dom().contains(k) ==> exists|i: int|
                0 <= i < holdings.len() && (#[trigger] holdings[i]).0.rank() == k && holdings[i].1
                    == Holding::Part(have.resume@[k]),
        !guest_sender && decline ==> forall|k: Seq<int>| #[trigger]
            have.resume@.dom().contains(k) ==> !native@.dom().contains(k),
        !guest_sender && !decline ==> forall|i: int|
            0 <= i < holdings.len() && (#[trigger] holdings[i]).1 is Part
                ==> have.resume@.dom().contains(holdings[i].0.rank()),
{
    whole_members(holdings);
    part_members(holdings);
    declined_members(held_whole(holdings), native.entries@);
}

/// What is sent are the planned objects that the receiver does not have, all of them and each once.
pub proof fn lacking_objects_are_sent(s: Seq<PlanObject>, have: Map<Seq<int>, ()>)
    ensures
        forall|x: PlanObject| #[trigger]
            lacking(s, have).contains(x) <==> s.contains(x) && !have.dom().contains(x.digest.rank()),
        lacking(s, have).len() <= s.len(),
        (forall|i: int| 0 <= i < s.len() ==> !have.dom().contains((#[trigger] s[i]).digest.rank()))
            ==> lacking(s, have) == s,
    decreases s.len(),
{
    let all = lacking(s, have);
    if s.len() > 0 {
        let front = s.drop_last();
        lacking_objects_are_sent(front, have);
        let before = lacking(front, have);
        assert(s[s.len() - 1] == s.last());
        assert forall|x: PlanObject| #[trigger] all.contains(x) <==> s.contains(x)
            && !have.dom().contains(x.digest.rank()) by {
            if all.contains(x) {
                let k = choose|k: int| 0 <= k < all.len() && all[k] == x;
                if k < before.len() {
                    assert(before[k] == x);
                    assert(before.contains(x));
                    let i = choose|i: int| 0 <= i < front.len() && front[i] == x;
                    assert(s[i] == x);
                } else {
                    assert(s[s.len() - 1] == x);
                }
            }
            if s.contains(x) && !have.dom().contains(x.digest.rank()) {
                let i = choose|i: int| 0 <= i < s.len() && s[i] == x;
                if i < front.len() {
                    assert(front[i] == x);
                    assert(before.contains(x));
                    let k = choose|k: int| 0 <= k < before.len() && before[k] == x;
                    assert(all[k] == x);
                } else {
                    assert(all[before.len() as int] == x);
                }
            }
        }
        if forall|i: int| 0 <= i < s.len() ==> !have.dom().contains((#[trigger] s[i]).digest.rank()) {
            assert forall|i: int| 0 <= i < front.len() implies !have.dom().contains(
                (#[trigger] front[i]).digest.rank(),
            ) by {
                assert(front[i] == s[i]);
            }
            assert(front.push(s.last()) =~= s);
        }
    } else {
        assert(all.len() == 0);
        assert(all =~= s);
    }
}

/// What is sent next of an object. It goes on where the receiver stands: what it has of the object
/// is read but not sent again, and is never skipped where it has nothing. A piece is of the object
/// that is due, follows what was read, and is no longer than what is left, the budget, and one MiB.
/// The object is done only once all of it was read, and has its hash. A transfer is cut only where
/// the budget is used up.
pub proof fn sending_goes_on(s: Sending)
    requires
        s.wf(),
        s.due() is Ok,
    ensures
        ({
            let x = s.current();
            let from = if s.resume@.dom().contains(x.digest.rank()) {
                s.resume@[x.digest.rank()]
            } else {
                0
            };
            match s.due()->Ok_0 {
                Order::Done => s.index == s.queue@.len(),
                Order::Whole(h) => {
                    &&& from == 0
                    &&& h.digest == x.digest
                    &&& h.offset == 0
                    &&& h.total_size == x.bytes
                    &&& x.bytes <= s.budget
                },
                Order::Prefix(d, take) => {
                    &&& d == x.digest
                    &&& s.content().len() < from
                    &&& 0 < take <= from - s.content().len()
                },
                Order::Chunk(h, take) => {
                    &&& h.digest == x.digest
                    &&& h.offset == s.content().len()
                    &&& h.offset >= from
                    &&& h.total_size == x.bytes
                    &&& 0 < take <= x.bytes - s.content().len()
                    &&& take <= s.budget
                    &&& take <= 1_048_576
                },
                Order::Cut => s.budget == 0 && s.content().len() < x.bytes,
                Order::Sent(d) => {
                    &&& d == x.digest
                    &&& s.content().len() >= x.bytes
                    &&& blake3_of(s.content()) == x.digest.0@
                },
            }
        }),
        s.index < s.queue@.len() ==> !(s.due()->Ok_0 is Done),
{
}

/// A piece is taken only where its object was planned and is not had already, where it follows what
/// has come of it, and where it does not go beyond its end. The last piece of an object is taken only
/// where all that has come of it has the hash that it goes by.
pub proof fn taken_piece_fits(x: Intake, stream: Seq<u8>)
    requires
        x.wf(),
        x.piece_fault(stream) is None,
    ensures
        stream.len() >= 49,
        crate::net::framing::header_of(stream.take(49)) is Ok,
        ({
            let h = crate::net::framing::header_of(stream.take(49))->Ok_0;
            let k = h.digest.rank();
            let body = stream.skip(49);
            let so_far = x.hashers@[k].content();
            &&& x.allowed@.dom().contains(k)
            &&& !x.have@.dom().contains(k)
            &&& !x.completed@.dom().contains(k)
            &&& h.total_size == x.allowed@[k].bytes
            &&& h.offset == so_far.len()
            &&& so_far.len() + body.len() <= x.allowed@[k].bytes
            &&& so_far.len() + body.len() == x.allowed@[k].bytes ==> blake3_of(so_far + body)
                == h.digest.0@
            &&& h.kind is Tree <==> x.allowed@[k].kind@ == "tree"@
        }),
{
}

/// A delivery is taken only where there is room for it: its bytes, without the native ones where
/// these are declined, fit the budget, and as many are known to be free.
pub proof fn delivery_needs_room(
    offer: Offer,
    raw: RawManifest,
    plan: Plan,
    decline: bool,
    budget: u64,
    available: Option<u64>,
)
    ensures
        !needs_too_much(offer, raw, plan, decline, budget, available) <==> {
            let needed = offer.bytes_hint - if decline {
                native_bytes(plan.objects@, raw.manifest.native@)
            } else {
                0
            };
            &&& needed <= budget
            &&& available matches Some(free) && needed <= free
        },
{
}

/// Unless native objects are declined, what was planned is exactly what the manifest reaches; where
/// they are, the same holds of everything else, and of native objects that the files need too.
pub proof fn plan_is_what_is_reached(
    planned: Set<Seq<int>>,
    reached: Map<Seq<int>, ()>,
    portable: Map<Seq<int>, ()>,
    native: Map<Seq<int>, ()>,
    decline: bool,
)
    requires
        plan_is_exact(planned, reached, portable, native, decline),
    ensures
        !decline ==> planned =~= reached.dom(),
        forall|k: Seq<int>| !native.dom().contains(k) || portable.dom().contains(k) ==> (
        #[trigger] planned.contains(k) <==> reached.dom().contains(k)),
{
    assert forall|k: Seq<int>| !decline implies (#[trigger] planned.contains(k)
        <==> reached.dom().contains(k)) by {
        assert(!crate::net::plan::may_skip(native, portable, decline, k));
    }
    assert forall|k: Seq<int>| !native.dom().contains(k) || portable.dom().contains(k) implies (
    #[trigger] planned.contains(k) <==> reached.dom().contains(k)) by {
        assert(!crate::net::plan::may_skip(native, portable, decline, k));
    }
}

/// Every object of a message that a relay carries is what it says: its data is readable, has the hash
/// that it goes by, and is called a tree exactly where it is one. No object comes twice.
pub proof fn relayed_objects_are_true(s: Seq<RelayObject>)
    requires
        supplied_size(s) is Ok,
    ensures
        forall|i: int|
            0 <= i < s.len() ==> {
                let o = #[trigger] s[i];
                &&& base64_bytes(o.data@) matches Some(b) && blake3_of(b) == o.digest.0@ && (o.kind@
                    == "tree"@ <==> tree_of(b) is Ok)
                &&& o.kind@ == "blob"@ || o.kind@ == "tree"@
            },
        forall|i: int, j: int|
            0 <= i < j < s.len() ==> (#[trigger] s[i]).digest != (#[trigger] s[j]).digest,
        s.len() > 0 ==> supplied_size(s)->Ok_0 == supplied_size(s.drop_last())->Ok_0 + (base64_bytes(
            s.last().data@,
        )->0).len(),
        s.len() == 0 ==> supplied_size(s)->Ok_0 == 0,
    decreases s.len(),
{
    if s.len() > 0 {
        let front = s.drop_last();
        relayed_objects_are_true(front);
        assert forall|i: int| 0 <= i < s.len() implies {
            let o = #[trigger] s[i];
            &&& base64_bytes(o.data@) matches Some(b) && blake3_of(b) == o.digest.0@ && (o.kind@
                == "tree"@ <==> tree_of(b) is Ok)
            &&& o.kind@ == "blob"@ || o.kind@ == "tree"@
        } by {
            if i < front.len() {
                assert(front[i] == s[i]);
            }
        }
        assert forall|i: int, j: int| 0 <= i < j < s.len() implies (#[trigger] s[i]).digest != (
        #[trigger] s[j]).digest by {
            assert(front[i] == s[i]);
            if j < front.len() {
                assert(front[j] == s[j]);
            } else if s[i].digest == s[j].digest {
                assert(front[i].digest.rank() == s.last().digest.rank());
                assert(crate::net::pack::named(front, s.last().digest.rank()));
            }
        }
    }
}

/// A message for a relay carries at most 256 MiB.
pub proof fn relay_messages_are_bounded(total: int, bytes: int, s: Seq<(Digest, Vec<u8>)>)
    ensures
        added(total, bytes) is Ok <==> total + bytes <= 268_435_456,
        added(total, bytes) matches Ok(n) ==> n == total + bytes,
        packed_size(s) matches Ok(n) ==> n <= 268_435_456,
        s.len() > 0 && packed_size(s) is Ok ==> packed_size(s)->Ok_0 == packed_size(
            s.drop_last(),
        )->Ok_0 + s.last().1@.len(),
{
}

/// What is sent is taken off the budget, byte for byte, and one object is counted for each that is
/// done.
pub proof fn sending_is_paid_for(s: Sending, order: Order, next: Sending)
    requires
        s.after(order, next),
    ensures
        next.budget + next.stats.bytes_transferred == s.budget + s.stats.bytes_transferred,
        next.stats.bytes_transferred >= s.stats.bytes_transferred,
        next.stats.objects_transferred == next.index,
        order is Whole || order is Sent ==> next.index == s.index + 1,
        !(order is Whole || order is Sent) ==> next.index == s.index,
        next.stats.resumed_bytes >= s.stats.resumed_bytes,
        order is Done ==> next.budget == s.budget && next.active is None,
{
}

/// A pack of objects is taken exactly where it holds as many as were offered, and as many bytes, of
/// which there are at most 256 MiB.
pub proof fn packs_match_their_offer(s: Seq<RelayObject>, object_count: u64, bytes_hint: u64)
    ensures
        pack_fault(s, object_count, bytes_hint) is None <==> s.len() == object_count
            && supplied_size(s) == Ok::<int, Error>(bytes_hint as int) && bytes_hint
            <= 268_435_456,
{
}

} // verus!
