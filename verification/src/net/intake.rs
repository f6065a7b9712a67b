//! Receiving the objects of a delivery, piece by piece.
use vstd::prelude::*;

use crate::cas::{blake3_of, hash_rank_injective, Digest};
use crate::checksum::Checksum;
use crate::net::error::Error;
use crate::net::framing::{header_of, ObjectHeader, ObjectKind, HEADER_LEN};
use crate::net::plan::{all_different, among, digest_set, Plan, PlanObject};
use crate::order::Key;
use crate::table::{holds_at, map_of_at, Table};
use crate::text::same_text;

verus! {

/// The planned object of a digest, where the receiver still wants it.
pub fn wanted_plan_object<'a>(
    allowed: &'a Table<Digest, PlanObject>,
    have: &Table<Digest, ()>,
    digest: &Digest,
) -> (r: Result<&'a PlanObject, Error>)
    requires
        allowed.wf(),
        have.wf(),
    ensures
        r is Ok <==> allowed@.dom().contains(digest.rank()) && !have@.dom().contains(digest.rank()),
        r matches Ok(x) ==> *x == allowed@[digest.rank()],
        r matches Err(e) ==> e == Error::Protocol("object not wanted"),
{
    if have.contains(digest) {
        return Err(Error::Protocol("object not wanted"));
    }
    match allowed.get(digest) {
        Some(x) => Ok(x),
        None => Err(Error::Protocol("object not wanted")),
    }
}

/// Adds bytes to the checksum of an object that is not complete.
pub fn update_object_hasher(
    hashers: &mut Table<Digest, Checksum>,
    digest: Digest,
    bytes: &[u8],
) -> (r: Result<(), Error>)
    requires
        old(hashers).wf(),
        old(hashers)@.dom().contains(digest.rank()) ==> old(hashers)@[digest.rank()].content().len()
            + bytes@.len() <= u64::MAX,
    ensures
        final(hashers).wf(),
        r is Ok <==> old(hashers)@.dom().contains(digest.rank()),
        r matches Err(e) ==> e == Error::Protocol("object stream for completed object")
            && final(hashers)@ == old(hashers)@,
        r is Ok ==> {
            &&& final(hashers)@ == old(hashers)@.insert(
                digest.rank(),
                final(hashers)@[digest.rank()],
            )
            &&& final(hashers)@[digest.rank()].content() == old(hashers)@[digest.rank()].content()
                + bytes@
        },
{
    match hashers.remove(&digest) {
        None => {
            assert(hashers@ =~= old(hashers)@);
            Err(Error::Protocol("object stream for completed object"))
        },
        Some(sum) => {
            hashers.insert(digest, sum.update(bytes));
            assert(hashers@ =~= old(hashers)@.insert(digest.rank(), hashers@[digest.rank()]));
            Ok(())
        },
    }
}

/// What is received of a plan: the objects, those that the receiver has, the checksums of those
/// that are not complete, and those that are.
pub struct Intake {
    pub allowed: Table<Digest, PlanObject>,
    pub have: Table<Digest, ()>,
    pub hashers: Table<Digest, Checksum>,
    pub completed: Table<Digest, ()>,
}

/// A piece that was received: of which object, and whether it was the last one.
#[derive(Clone, Copy, Debug, PartialEq, Eq)]
pub struct Piece {
    pub digest: Digest,
    pub complete: bool,
}

/// The kind of stream that a planned object comes in.
pub open spec fn stream_kind(x: PlanObject) -> ObjectKind {
    if x.kind@ == "tree"@ {
        ObjectKind::Tree
    } else {
        ObjectKind::Blob
    }
}

impl Intake {
    /// The object was planned, and the receiver does not have it.
    pub open spec fn wants(&self, k: Seq<int>) -> bool {
        self.allowed@.dom().contains(k) && !self.have@.dom().contains(k)
    }

    /// Each wanted object has either a checksum or been completed.
    pub open spec fn wf(&self) -> bool {
        &&& self.allowed.wf()
        &&& self.have.wf()
        &&& self.hashers.wf()
        &&& self.completed.wf()
        &&& forall|k: Seq<int>| #[trigger]
            self.wants(k) <==> self.hashers@.dom().contains(k) || self.completed@.dom().contains(k)
        &&& forall|k: Seq<int>|
            !(#[trigger] self.hashers@.dom().contains(k) && self.completed@.dom().contains(k))
    }

    /// Every wanted object is complete.
    pub open spec fn all_complete(&self) -> bool {
        forall|k: Seq<int>| #[trigger] self.wants(k) ==> self.completed@.dom().contains(k)
    }

    /// What is wrong with a stream of an object.
    pub open spec fn piece_fault(&self, stream: Seq<u8>) -> Option<Error> {
        if stream.len() < HEADER_LEN {
            Some(Error::Protocol("short object header"))
        } else {
            match header_of(stream.take(49)) {
                Err(e) => Some(e),
                Ok(h) => {
                    let k = h.digest.rank();
                    let body = stream.skip(49);
                    let sum = self.hashers@[k].content();
                    if !self.wants(k) {
                        Some(Error::Protocol("object not wanted"))
                    } else if self.completed@.dom().contains(k) {
                        Some(Error::Protocol("object stream for completed object"))
                    } else if h.kind != stream_kind(self.allowed@[k]) || h.total_size
                        != self.allowed@[k].bytes || h.offset != sum.len() {
                        Some(Error::Protocol("object header mismatch"))
                    } else if h.offset + body.len() > h.total_size {
                        Some(Error::Protocol("partial exceeds total size"))
                    } else if h.offset + body.len() == h.total_size && blake3_of(sum + body)
                        != h.digest.0@ {
                        Some(Error::Protocol("object hash mismatch"))
                    } else {
                        None
                    }
                },
            }
        }
    }

    /// Nothing has been received of the objects of a plan, without those that the receiver has.
    pub open spec fn starts(&self, plan: Plan, have: Seq<Digest>) -> bool {
        &&& self.wf()
        &&& forall|i: int|
            0 <= i < plan.objects@.len() ==> self.allowed@.dom().contains(
                (#[trigger] plan.objects@[i]).digest.rank(),
            ) && self.allowed@[plan.objects@[i].digest.rank()] == plan.objects@[i]
        &&& forall|k: Seq<int>| #[trigger]
            self.allowed@.dom().contains(k) ==> exists|i: int|
                0 <= i < plan.objects@.len() && (#[trigger] plan.objects@[i]).digest.rank() == k
        &&& forall|k: Seq<int>| #[trigger] self.have@.dom().contains(k) <==> among(have, k)
        &&& self.completed@ == Map::<Seq<int>, ()>::empty()
        &&& forall|k: Seq<int>| #[trigger]
            self.hashers@.dom().contains(k) ==> self.hashers@[k].content() == Seq::<u8>::empty()
    }

    /// Starts to receive a plan, without the objects that the receiver has.
    pub fn start(plan: &Plan, have: &Vec<Digest>) -> (r: Self)
        requires
            all_different(plan.objects@),
        ensures
            r.starts(*plan, have@),
    {
        let held = digest_set(have);
        let mut allowed: Table<Digest, PlanObject> = Table::new();
        let mut hashers: Table<Digest, Checksum> = Table::new();
        let mut n: usize = 0;
        while n < plan.objects.len()
            invariant
                n <= plan.objects@.len(),
                all_different(plan.objects@),
                held.wf(),
                allowed.wf(),
                hashers.wf(),
                forall|i: int|
                    0 <= i < n ==> allowed@.dom().contains(
                        (#[trigger] plan.objects@[i]).digest.rank(),
                    ) && allowed@[plan.objects@[i].digest.rank()] == plan.objects@[i],
                forall|k: Seq<int>| #[trigger]
                    allowed@.dom().contains(k) ==> exists|i: int|
                        0 <= i < n && (#[trigger] plan.objects@[i]).digest.rank() == k,
                forall|k: Seq<int>| #[trigger]
                    hashers@.dom().contains(k) <==> allowed@.dom().contains(k)
                        && !held@.dom().contains(k),
                forall|k: Seq<int>| #[trigger]
                    hashers@.dom().contains(k) ==> hashers@[k].content() == Seq::<u8>::empty(),
            decreases plan.objects.len() - n,
        {
            let ghost before = allowed@;
            let x = &plan.objects[n];
            allowed.insert(x.digest, x.clone());
            if !held.contains(&x.digest) {
                hashers.insert(x.digest, Checksum::new());
            }
            proof {
                assert forall|i: int| 0 <= i < n + 1 implies allowed@.dom().contains(
                    (#[trigger] plan.objects@[i]).digest.rank(),
                ) && allowed@[plan.objects@[i].digest.rank()] == plan.objects@[i] by {
                    if i < n {
                        hash_rank_injective(plan.objects@[i].digest, plan.objects@[n as int].digest);
                        assert(plan.objects@[i].digest != plan.objects@[n as int].digest);
                    }
                }
                assert forall|k: Seq<int>| #[trigger] allowed@.dom().contains(k) implies exists|
                    i: int,
                |
                    0 <= i < n + 1 && (#[trigger] plan.objects@[i]).digest.rank() == k by {
                    if k == plan.objects@[n as int].digest.rank() {
                        assert(plan.objects@[n as int].digest.rank() == k);
                    } else {
                        assert(before.dom().contains(k));
                    }
                }
            }
            n += 1;
        }
        Intake { allowed, have: held, hashers, completed: Table::new() }
    }

    /// Adds bytes of an object that were received earlier.
    pub fn preload(self, digest: Digest, bytes: &[u8]) -> (r: Result<Self, Error>)
        requires
            self.wf(),
            self.hashers@.dom().contains(digest.rank()) ==> self.hashers@[digest.rank()].content().len()
                + bytes@.len() <= u64::MAX,
        ensures
            r is Ok <==> self.hashers@.dom().contains(digest.rank()),
            r matches Err(e) ==> e == Error::Protocol("object stream for completed object"),
            r matches Ok(s) ==> {
                &&& s.wf()
                &&& s.allowed == self.allowed
                &&& s.have == self.have
                &&& s.completed == self.completed
                &&& s.hashers@ == self.hashers@.insert(digest.rank(), s.hashers@[digest.rank()])
                &&& s.hashers@[digest.rank()].content() == self.hashers@[digest.rank()].content()
                    + bytes@
            },
    {
        let mut s = self;
        match update_object_hasher(&mut s.hashers, digest, bytes) {
            Err(e) => Err(e),
            Ok(()) => {
                proof {
                    assert forall|k: Seq<int>| #[trigger]
                        s.wants(k) <==> s.hashers@.dom().contains(k) || s.completed@.dom().contains(
                            k,
                        ) by {
                        assert(self.wants(k) == s.wants(k));
                    }
                    assert forall|k: Seq<int>|
                        !(#[trigger] s.hashers@.dom().contains(k) && s.completed@.dom().contains(
                            k,
                        )) by {
                        assert(self.hashers@.dom().contains(k) == s.hashers@.dom().contains(k));
                    }
                }
                Ok(s)
            },
        }
    }

    /// Takes one stream: a header, and bytes that go on where the object stood. An object is
    /// complete when it has its planned size and its bytes have its digest.
    pub fn take(self, stream: &[u8]) -> (r: Result<(Self, Piece), Error>)
        requires
            self.wf(),
        ensures
            r matches Err(e) ==> self.piece_fault(stream@) == Some(e),
            r matches Ok((s, piece)) ==> {
                let k = piece.digest.rank();
                let body = stream@.skip(49);
                let whole = self.hashers@[k].content() + body;
                &&& self.piece_fault(stream@) is None
                &&& Ok::<Digest, Error>(piece.digest) == header_digest(stream@)
                &&& s.wf()
                &&& s.allowed == self.allowed
                &&& s.have == self.have
                &&& self.hashers@.dom().contains(k)
                &&& piece.complete == (whole.len() == self.allowed@[k].bytes)
                &&& piece.complete ==> {
                    &&& blake3_of(whole) == piece.digest.0@
                    &&& s.hashers@ == self.hashers@.remove(k)
                    &&& s.completed@ == self.completed@.insert(k, ())
                }
                &&& !piece.complete ==> {
                    &&& s.completed == self.completed
                    &&& s.hashers@ == self.hashers@.insert(k, s.hashers@[k])
                    &&& s.hashers@[k].content() == whole
                }
            },
    {
        if stream.len() < HEADER_LEN {
            return Err(Error::Protocol("short object header"));
        }
        let header = match read_header(stream) {
            Ok(h) => h,
            Err(e) => {
                return Err(e);
            },
        };
        let digest = header.digest;
        let ghost k = digest.rank();
        let ghost body = stream@.skip(49);
        let (kind, total) = match wanted_plan_object(&self.allowed, &self.have, &digest) {
            Ok(x) => (
                if same_text(x.kind.as_str(), "tree") {
                    ObjectKind::Tree
                } else {
                    ObjectKind::Blob
                },
                x.bytes,
            ),
            Err(e) => {
                assert(!self.wants(k));
                return Err(e);
            },
        };
        assert(self.wants(k));
        if self.completed.contains(&digest) {
            return Err(Error::Protocol("object stream for completed object"));
        }
        let at = match self.hashers.get(&digest) {
            Some(sum) => sum.count(),
            None => 0,
        };
        if header.kind != kind || header.total_size != total || header.offset != at {
            return Err(Error::Protocol("object header mismatch"));
        }
        let size: u64 = (stream.len() - 49) as u64;
        if size > total - at {
            return Err(Error::Protocol("partial exceeds total size"));
        }
        let bytes = vstd::slice::slice_subrange(stream, 49, stream.len());
        assert(bytes@ =~= body);
        let mut s = self;
        match update_object_hasher(&mut s.hashers, digest, bytes) {
            Err(e) => {
                return Err(e);
            },
            Ok(()) => {},
        }
        let ghost whole = self.hashers@[k].content() + body;
        let complete = at + size == total;
        if complete {
            match s.hashers.remove(&digest) {
                None => {
                    return Err(Error::Protocol("object stream for completed object"));
                },
                Some(sum) => {
                    let actual = sum.digest();
                    if !actual.same(&digest) {
                        proof {
                            if actual.0@ == digest.0@ {
                                crate::bytes::array_extensional(actual.0, digest.0);
                            }
                        }
                        return Err(Error::Protocol("object hash mismatch"));
                    }
                    s.completed.insert(digest, ());
                },
            }
            assert(s.hashers@ =~= self.hashers@.remove(k));
        }
        proof {
            assert forall|q: Seq<int>| #[trigger]
                s.wants(q) <==> s.hashers@.dom().contains(q) || s.completed@.dom().contains(q) by {
                assert(self.wants(q) == s.wants(q));
            }
            assert forall|q: Seq<int>|
                !(#[trigger] s.hashers@.dom().contains(q) && s.completed@.dom().contains(q)) by {
                assert(q != k ==> self.hashers@.dom().contains(q) == s.hashers@.dom().contains(q));
            }
        }
        Ok((s, Piece { digest, complete }))
    }

    /// Whether every wanted object is complete.
    pub fn is_complete(&self) -> (r: bool)
        requires
            self.wf(),
        ensures
            r == self.all_complete(),
    {
        if self.hashers.len() == 0 {
            proof {
                assert forall|k: Seq<int>| #[trigger] self.wants(k) implies self.completed@.dom().contains(
                    k,
                ) by {
                    if self.hashers@.dom().contains(k) {
                        let j = choose|j: int| holds_at(self.hashers.entries@, k, j);
                        assert(0 <= j < self.hashers.entries@.len());
                    }
                }
            }
            true
        } else {
            proof {
                map_of_at(self.hashers.entries@, 0);
                let k = self.hashers.entries@[0].0.rank();
                assert(self.hashers@.dom().contains(k));
                assert(self.wants(k));
                assert(!self.completed@.dom().contains(k));
            }
            false
        }
    }
}

/// The digest in front of a stream.
pub open spec fn header_digest(stream: Seq<u8>) -> Result<Digest, Error> {
    match header_of(stream.take(49)) {
        Ok(h) => Ok(h.digest),
        Err(e) => Err(e),
    }
}

fn read_header(stream: &[u8]) -> (r: Result<ObjectHeader, Error>)
    requires
        stream@.len() >= 49,
    ensures
        r == header_of(stream@.take(49)),
{
    let mut b: [u8; 49] = [0u8; 49];
    let mut i: usize = 0;
    while i < 49
        invariant
            i <= 49,
            stream@.len() >= 49,
            forall|j: int| 0 <= j < i ==> b@[j] == stream@[j],
        decreases 49 - i,
    {
        b[i] = stream[i];
        i += 1;
    }
    assert(b@ =~= stream@.take(49));
    ObjectHeader::decode(b)
}

} // verus!
