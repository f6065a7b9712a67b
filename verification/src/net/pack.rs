//! Deliveries that go through a relay: an offer and all its objects in one message.
use vstd::prelude::*;

use crate::base64::{base64_bytes, base64_decode, base64_encode, base64_round_trip, base64_text};
use crate::bytes::array_extensional;
use crate::cas::{blake3_of, tree_of, Digest, Tree};
use crate::history::Capsule;
use crate::identity::PeerId;
use crate::manifest::RawManifest;
use crate::net::ack::Ack;
use crate::net::error::Error;
use crate::net::offer::Offer;
use crate::net::outbox::OutboxEntry;
use crate::net::plan::MAX_OBJECT_SIZE;
use crate::net::send::{build_offer, offer_built};
use crate::net::trust::TrustStore;
use crate::order::Key;
use crate::table::{holds_at, map_of_at, Table};
use crate::text::same_text;

verus! {

/// An object in a relay message.
#[derive(Debug, PartialEq, Eq)]
pub struct RelayObject {
    pub digest: Digest,
    pub kind: String,
    pub data: String,
}

/// What a relay carries.
#[derive(Debug, PartialEq, Eq)]
pub enum RelayPayload {
    Delivery { sender: PeerId, offer: Box<Offer>, objects: Vec<RelayObject> },
    Ack { sender: PeerId, ack: Ack },
}

/// A size and some bytes more.
pub open spec fn added(total: int, bytes: int) -> Result<int, Error> {
    if total + bytes > u64::MAX {
        Err(Error::Protocol("relay byte count overflow"))
    } else if total + bytes > MAX_OBJECT_SIZE {
        Err(Error::Protocol("snapshot too large for relay transit; use direct delivery"))
    } else {
        Ok(total + bytes)
    }
}

/// Adds the size of an object to that of a relay message, where it still fits.
pub fn add_relay_object_bytes(total: u64, bytes: u64) -> (r: Result<u64, Error>)
    ensures
        r == match added(total as int, bytes as int) {
            Ok(n) => Ok::<u64, Error>(n as u64),
            Err(e) => Err(e),
        },
{
    match total.checked_add(bytes) {
        None => Err(Error::Protocol("relay byte count overflow")),
        Some(n) => if n > MAX_OBJECT_SIZE {
            Err(Error::Protocol("snapshot too large for relay transit; use direct delivery"))
        } else {
            Ok(n)
        },
    }
}

/// The size of objects together, where they fit into one relay message.
pub open spec fn packed_size(s: Seq<(Digest, Vec<u8>)>) -> Result<int, Error>
    decreases s.len(),
{
    if s.len() == 0 {
        Ok(0)
    } else {
        match packed_size(s.drop_last()) {
            Err(e) => Err(e),
            Ok(n) => added(n, s.last().1@.len() as int),
        }
    }
}

/// The object in a relay message.
pub open spec fn packed(x: (Digest, Vec<u8>), o: RelayObject) -> bool {
    &&& o.digest == x.0
    &&& o.kind@ == if tree_of(x.1@) is Ok {
        "tree"@
    } else {
        "blob"@
    }
    &&& o.data@ == base64_text(x.1@)
}

proof fn packed_prefix(s: Seq<(Digest, Vec<u8>)>, n: int)
    requires
        0 <= n <= s.len(),
    ensures
        packed_size(s.take(n)) matches Err(e) ==> packed_size(s) == Err::<int, Error>(e),
    decreases s.len() - n,
{
    if n == s.len() {
        assert(s.take(n) =~= s);
    } else {
        packed_prefix(s, n + 1);
        assert(s.take(n + 1).drop_last() =~= s.take(n));
    }
}

/// Packs the objects of a snapshot for a relay.
pub fn pack_objects(contents: &Vec<(Digest, Vec<u8>)>) -> (r: Result<(Vec<RelayObject>, u64), Error>)
    ensures
        match r {
            Err(e) => packed_size(contents@) == Err::<int, Error>(e),
            Ok((objects, size)) => {
                &&& packed_size(contents@) == Ok::<int, Error>(size as int)
                &&& objects@.len() == contents@.len()
                &&& forall|i: int|
                    0 <= i < contents@.len() ==> packed(contents@[i], #[trigger] objects@[i])
            },
        },
{
    let mut objects: Vec<RelayObject> = Vec::new();
    let mut total: u64 = 0;
    let mut i: usize = 0;
    assert(contents@.take(0) =~= Seq::<(Digest, Vec<u8>)>::empty());
    while i < contents.len()
        invariant
            i <= contents@.len(),
            packed_size(contents@.take(i as int)) == Ok::<int, Error>(total as int),
            objects@.len() == i,
            forall|j: int| 0 <= j < i ==> packed(contents@[j], #[trigger] objects@[j]),
        decreases contents.len() - i,
    {
        let x = &contents[i];
        proof {
            assert(contents@.take(i + 1).drop_last() =~= contents@.take(i as int));
            assert(contents@.take(i + 1).last() == contents@[i as int]);
        }
        match add_relay_object_bytes(total, x.1.len() as u64) {
            Err(e) => {
                proof {
                    packed_prefix(contents@, i + 1);
                }
                return Err(e);
            },
            Ok(n) => {
                total = n;
            },
        }
        let kind = match Tree::decode(x.1.as_slice()) {
            Ok(_) => "tree".to_owned(),
            Err(_) => "blob".to_owned(),
        };
        objects.push(
            RelayObject { digest: x.0, kind, data: base64_encode(x.1.as_slice()) },
        );
        i += 1;
    }
    assert(contents@.take(i as int) =~= contents@);
    Ok((objects, total))
}

/// Packs a snapshot of the outbox for a relay: its offer, which no session has gone before, and
/// all its objects. `contents` are the objects that its manifest reaches.
pub fn relay_delivery(
    trust: &TrustStore,
    capsule: Option<&Capsule>,
    active_holder: Option<PeerId>,
    entry: &OutboxEntry,
    raw: &RawManifest,
    contents: &Vec<(Digest, Vec<u8>)>,
    sender: PeerId,
    now: u64,
) -> (r: Result<RelayPayload, Error>)
    requires
        trust.wf(),
        capsule matches Some(c) ==> c.wf(),
    ensures
        match packed_size(contents@) {
            Err(e) => r == Err::<RelayPayload, Error>(e),
            Ok(size) => match r {
                Ok(RelayPayload::Delivery { sender: from, offer, objects }) => {
                    &&& from == sender
                    &&& offer_built(
                        *offer,
                        trust.disk,
                        match capsule {
                            Some(c) => Some(c@),
                            None => None,
                        },
                        active_holder,
                        *entry,
                        *raw,
                        size as u64,
                        contents@.len() as u64,
                        now,
                        None,
                    )
                    &&& objects@.len() == contents@.len()
                    &&& forall|i: int|
                        0 <= i < contents@.len() ==> packed(contents@[i], #[trigger] objects@[i])
                },
                _ => false,
            },
        },
{
    match pack_objects(contents) {
        Err(e) => Err(e),
        Ok((objects, size)) => {
            let count = objects.len() as u64;
            let offer = build_offer(
                trust,
                capsule,
                active_holder,
                entry,
                raw,
                size,
                count,
                now,
                None,
            );
            Ok(RelayPayload::Delivery { sender, offer: Box::new(offer), objects })
        },
    }
}

/// One object is what it claims to be.
pub open spec fn object_is_true(o: RelayObject, bytes: Seq<u8>) -> bool {
    &&& blake3_of(bytes) == o.digest.0@
    &&& o.kind@ == "blob"@ || o.kind@ == "tree"@
    &&& (o.kind@ == "tree"@) == (tree_of(bytes) is Ok)
}

/// The bytes of objects together, or what is wrong with the first that is not in order.
pub open spec fn supplied_size(s: Seq<RelayObject>) -> Result<int, Error>
    decreases s.len(),
{
    if s.len() == 0 {
        Ok(0)
    } else {
        let o = s.last();
        match supplied_size(s.drop_last()) {
            Err(e) => Err(e),
            Ok(n) => match base64_bytes(o.data@) {
                None => Err(Error::Protocol("bad relay object base64")),
                Some(b) => if n + b.len() > u64::MAX {
                    Err(Error::Protocol("relay byte count overflow"))
                } else if !object_is_true(o, b) {
                    Err(Error::Protocol("invalid relay object"))
                } else if named(s.drop_last(), o.digest.rank()) {
                    Err(Error::Protocol("duplicate relay object"))
                } else {
                    Ok(n + b.len())
                },
            },
        }
    }
}

/// Some object has a digest of this rank.
pub open spec fn named(s: Seq<RelayObject>, k: Seq<int>) -> bool {
    exists|i: int| 0 <= i < s.len() && (#[trigger] s[i]).digest.rank() == k
}

/// What is wrong with the objects of a relay message.
pub open spec fn pack_fault(s: Seq<RelayObject>, object_count: u64, bytes_hint: u64) -> Option<Error> {
    if s.len() != object_count {
        Some(Error::Protocol("relay object count mismatch"))
    } else {
        match supplied_size(s) {
            Err(e) => Some(e),
            Ok(n) => if n != bytes_hint || n > MAX_OBJECT_SIZE {
                Some(Error::Protocol("relay object pack exceeds delivery limit"))
            } else {
                None
            },
        }
    }
}

proof fn supplied_prefix(s: Seq<RelayObject>, n: int)
    requires
        0 <= n <= s.len(),
    ensures
        supplied_size(s.take(n)) matches Err(e) ==> supplied_size(s) == Err::<int, Error>(e),
    decreases s.len() - n,
{
    if n == s.len() {
        assert(s.take(n) =~= s);
    } else {
        supplied_prefix(s, n + 1);
        assert(s.take(n + 1).drop_last() =~= s.take(n));
    }
}

/// Reads the objects of a relay message: each has the bytes that its digest names, and is of the
/// kind that it claims. Returns them, and their digests.
pub fn check_relay_pack(objects: &Vec<RelayObject>, object_count: u64, bytes_hint: u64) -> (r: Result<
    (Vec<(Digest, Vec<u8>)>, Table<Digest, ()>),
    Error,
>)
    ensures
        match r {
            Err(e) => pack_fault(objects@, object_count, bytes_hint) == Some(e),
            Ok((v, supplied)) => {
                &&& pack_fault(objects@, object_count, bytes_hint) is None
                &&& v@.len() == objects@.len()
                &&& forall|i: int|
                    0 <= i < v@.len() ==> (#[trigger] v@[i]).0 == objects@[i].digest && Some(
                        v@[i].1@,
                    ) == base64_bytes(objects@[i].data@) && blake3_of(v@[i].1@) == v@[i].0.0@
                &&& supplied.wf()
                &&& forall|k: Seq<int>| #[trigger]
                    supplied@.dom().contains(k) <==> named(objects@, k)
            },
        },
{
    if objects.len() as u64 != object_count {
        return Err(Error::Protocol("relay object count mismatch"));
    }
    let mut out: Vec<(Digest, Vec<u8>)> = Vec::new();
    let mut supplied: Table<Digest, ()> = Table::new();
    let mut total: u64 = 0;
    let mut i: usize = 0;
    assert(objects@.take(0) =~= Seq::<RelayObject>::empty());
    while i < objects.len()
        invariant
            i <= objects@.len() == object_count,
            supplied_size(objects@.take(i as int)) == Ok::<int, Error>(total as int),
            supplied.wf(),
            forall|k: Seq<int>| #[trigger]
                supplied@.dom().contains(k) <==> named(objects@.take(i as int), k),
            out@.len() == i,
            forall|j: int|
                0 <= j < i ==> (#[trigger] out@[j]).0 == objects@[j].digest && Some(out@[j].1@)
                    == base64_bytes(objects@[j].data@) && blake3_of(out@[j].1@) == out@[j].0.0@,
        decreases objects.len() - i,
    {
        let o = &objects[i];
        let ghost t = objects@.take(i as int);
        let ghost u = objects@.take(i + 1);
        proof {
            assert(u.drop_last() =~= t);
            assert(u.last() == objects@[i as int]);
            supplied_prefix(objects@, i + 1);
        }
        let bytes = match base64_decode(o.data.as_str()) {
            None => {
                return Err(Error::Protocol("bad relay object base64"));
            },
            Some(b) => b,
        };
        proof {
            base64_round_trip(bytes@);
        }
        total = match total.checked_add(bytes.len() as u64) {
            None => {
                return Err(Error::Protocol("relay byte count overflow"));
            },
            Some(n) => n,
        };
        let actual = crate::cas::Hash::of(bytes.as_slice());
        let is_tree = match Tree::decode(bytes.as_slice()) {
            Ok(_) => true,
            Err(_) => false,
        };
        let says_tree = same_text(o.kind.as_str(), "tree");
        proof {
            if actual.0@ == o.digest.0@ {
                array_extensional(actual.0, o.digest.0);
            }
        }
        if !actual.same(&o.digest) || !(same_text(o.kind.as_str(), "blob") || says_tree)
            || says_tree != is_tree {
            return Err(Error::Protocol("invalid relay object"));
        }
        let ghost before = supplied@;
        if supplied.contains(&o.digest) {
            return Err(Error::Protocol("duplicate relay object"));
        }
        supplied.insert(o.digest, ());
        proof {
            assert forall|k: Seq<int>| #[trigger]
                supplied@.dom().contains(k) <==> named(u, k) by {
                assert(before.dom().contains(k) <==> named(t, k));
                if named(t, k) {
                    let j = choose|j: int| 0 <= j < t.len() && (#[trigger] t[j]).digest.rank() == k;
                    assert(u[j].digest.rank() == k);
                }
                if k == o.digest.rank() {
                    assert(u[i as int].digest.rank() == k);
                }
                if named(u, k) {
                    let j = choose|j: int| 0 <= j < u.len() && (#[trigger] u[j]).digest.rank() == k;
                    if j < i {
                        assert(t[j].digest.rank() == k);
                    }
                }
            }
        }
        out.push((o.digest, bytes));
        i += 1;
    }
    assert(objects@.take(i as int) =~= objects@);
    if total != bytes_hint || total > MAX_OBJECT_SIZE {
        return Err(Error::Protocol("relay object pack exceeds delivery limit"));
    }
    Ok((out, supplied))
}

/// The objects of a relay message are exactly those that the manifest reaches.
pub fn check_relay_closure(supplied: &Table<Digest, ()>, reached: &Table<Digest, ()>) -> (r: Result<
    (),
    Error,
>)
    requires
        supplied.wf(),
        reached.wf(),
    ensures
        r == if supplied@.dom() == reached@.dom() {
            Ok::<(), Error>(())
        } else {
            Err(Error::Protocol("relay pack differs from verified manifest closure"))
        },
{
    let mut i: usize = 0;
    while i < supplied.entries.len()
        invariant
            supplied.wf(),
            reached.wf(),
            i <= supplied.entries@.len(),
            forall|j: int|
                0 <= j < i ==> reached@.dom().contains(
                    (#[trigger] supplied.entries@[j]).0.rank(),
                ),
        decreases supplied.entries.len() - i,
    {
        if !reached.contains(&supplied.entries[i].0) {
            proof {
                map_of_at(supplied.entries@, i as int);
                assert(supplied@.dom().contains(supplied.entries@[i as int].0.rank()));
            }
            return Err(Error::Protocol("relay pack differs from verified manifest closure"));
        }
        i += 1;
    }
    let mut k: usize = 0;
    while k < reached.entries.len()
        invariant
            supplied.wf(),
            reached.wf(),
            k <= reached.entries@.len(),
            forall|j: int|
                0 <= j < k ==> supplied@.dom().contains(
                    (#[trigger] reached.entries@[j]).0.rank(),
                ),
        decreases reached.entries.len() - k,
    {
        if !supplied.contains(&reached.entries[k].0) {
            proof {
                map_of_at(reached.entries@, k as int);
                assert(reached@.dom().contains(reached.entries@[k as int].0.rank()));
            }
            return Err(Error::Protocol("relay pack differs from verified manifest closure"));
        }
        k += 1;
    }
    proof {
        assert forall|q: Seq<int>| supplied@.dom().contains(q) == reached@.dom().contains(q) by {
            if supplied@.dom().contains(q) {
                let j = choose|j: int| holds_at(supplied.entries@, q, j);
                assert(reached@.dom().contains(supplied.entries@[j].0.rank()));
            }
            if reached@.dom().contains(q) {
                let j = choose|j: int| holds_at(reached.entries@, q, j);
                assert(supplied@.dom().contains(reached.entries@[j].0.rank()));
            }
        }
        assert(supplied@.dom() =~= reached@.dom());
    }
    Ok(())
}

/// What was packed is read back: objects that have the digests of their bytes, all different, come
/// out of a relay message without fault.
pub proof fn packed_objects_are_accepted(
    contents: Seq<(Digest, Vec<u8>)>,
    objects: Seq<RelayObject>,
    size: u64,
)
    requires
        forall|i: int|
            0 <= i < contents.len() ==> blake3_of((#[trigger] contents[i]).1@) == contents[i].0.0@,
        forall|i: int, j: int|
            0 <= i < j < contents.len() ==> (#[trigger] contents[i]).0.rank() != (
            #[trigger] contents[j]).0.rank(),
        packed_size(contents) == Ok::<int, Error>(size as int),
        objects.len() == contents.len() <= u64::MAX,
        forall|i: int| 0 <= i < contents.len() ==> packed(contents[i], #[trigger] objects[i]),
    ensures
        pack_fault(objects, contents.len() as u64, size) is None,
        forall|i: int|
            0 <= i < contents.len() ==> base64_bytes((#[trigger] objects[i]).data@) == Some(
                contents[i].1@,
            ),
{
    assert forall|i: int| 0 <= i < contents.len() implies base64_bytes(
        (#[trigger] objects[i]).data@,
    ) == Some(contents[i].1@) by {
        base64_round_trip(contents[i].1@);
    }
    accepted_prefix(contents, objects, contents.len() as int);
    assert(objects.take(contents.len() as int) =~= objects);
    assert(contents.take(contents.len() as int) =~= contents);
    packed_is_small(contents);
}

proof fn packed_is_small(s: Seq<(Digest, Vec<u8>)>)
    ensures
        packed_size(s) matches Ok(n) ==> 0 <= n <= MAX_OBJECT_SIZE,
    decreases s.len(),
{
    if s.len() > 0 {
        packed_is_small(s.drop_last());
    }
}

proof fn accepted_prefix(contents: Seq<(Digest, Vec<u8>)>, objects: Seq<RelayObject>, n: int)
    requires
        0 <= n <= contents.len(),
        forall|i: int|
            0 <= i < contents.len() ==> blake3_of((#[trigger] contents[i]).1@) == contents[i].0.0@,
        forall|i: int, j: int|
            0 <= i < j < contents.len() ==> (#[trigger] contents[i]).0.rank() != (
            #[trigger] contents[j]).0.rank(),
        packed_size(contents) is Ok,
        objects.len() == contents.len(),
        forall|i: int| 0 <= i < contents.len() ==> packed(contents[i], #[trigger] objects[i]),
    ensures
        packed_size(contents.take(n)) is Ok,
        supplied_size(objects.take(n)) == packed_size(contents.take(n)),
    decreases n,
{
    packed_prefix(contents, n);
    if n > 0 {
        accepted_prefix(contents, objects, n - 1);
        let c = contents.take(n);
        let o = objects.take(n);
        assert(c.drop_last() =~= contents.take(n - 1));
        assert(o.drop_last() =~= objects.take(n - 1));
        assert(c.last() == contents[n - 1]);
        assert(o.last() == objects[n - 1]);
        assert(packed(contents[n - 1], objects[n - 1]));
        base64_round_trip(contents[n - 1].1@);
        reveal_strlit("blob");
        reveal_strlit("tree");
        assert("blob"@[0] != "tree"@[0]);
        assert forall|i: int| 0 <= i < n - 1 implies (#[trigger] o.drop_last()[i]).digest.rank()
            != o.last().digest.rank() by {
            assert(packed(contents[i], objects[i]));
            assert(contents[i].0.rank() != contents[n - 1].0.rank());
        }
        assert(!named(o.drop_last(), o.last().digest.rank()));
    }
}

} // verus!
