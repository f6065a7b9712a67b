//! Sending the objects of a delivery, piece by piece and within a budget.
use vstd::prelude::*;

use crate::cas::{blake3_of, Digest};
use crate::checksum::Checksum;
use crate::net::ack::Ack;
use crate::net::error::Error;
use crate::net::framing::{header_bytes, header_round_trip, ObjectHeader, ObjectKind};
use crate::net::intake::{stream_kind, Intake};
use crate::net::plan::{
    among, digest_set, total_bytes, total_grows, Have, PlanObject, OBJECT_STREAM_CHUNK,
};
use crate::order::Key;
use crate::table::Table;
use crate::text::same_text;

verus! {

/// What a transfer did.
#[derive(Clone, Copy, Debug, PartialEq, Eq)]
pub struct TransferStats {
    pub objects_transferred: u64,
    pub objects_reused: u64,
    pub bytes_transferred: u64,
    pub resumed_bytes: u64,
}

/// How a delivery ended: with a receipt, or cut short by a limit.
#[derive(Debug, PartialEq, Eq)]
pub enum DeliveryOutcome {
    Complete { ack: Ack, stats: TransferStats },
    Interrupted { stats: TransferStats },
}

/// What the sender does next.
#[derive(Clone, Copy, Debug, PartialEq, Eq)]
pub enum Order {
    /// Send the whole object behind this header.
    Whole(ObjectHeader),
    /// Read as many bytes of the object, which the receiver has already.
    Prefix(Digest, u64),
    /// Read as many bytes of the object, and send them behind this header.
    Chunk(ObjectHeader, u64),
    /// The object was sent; go on.
    Sent(Digest),
    /// Stop: the budget is used up.
    Cut,
    /// Everything was sent.
    Done,
}

/// The objects that are not among others, in order.
pub open spec fn lacking(s: Seq<PlanObject>, have: Map<Seq<int>, ()>) -> Seq<PlanObject>
    decreases s.len(),
{
    if s.len() == 0 {
        Seq::empty()
    } else {
        let before = lacking(s.drop_last(), have);
        if have.dom().contains(s.last().digest.rank()) {
            before
        } else {
            before.push(s.last())
        }
    }
}

/// Where the sending of an object begins.
pub open spec fn offset_of(resume: Map<Seq<int>, u64>, x: PlanObject) -> u64 {
    if resume.dom().contains(x.digest.rank()) {
        resume[x.digest.rank()]
    } else {
        0
    }
}

/// The header of a piece of an object.
pub open spec fn piece_header(x: PlanObject, offset: u64) -> ObjectHeader {
    ObjectHeader { kind: stream_kind(x), digest: x.digest, total_size: x.bytes, offset }
}

/// A transfer under way: the objects to send, how many of them are done, what was read of the next
/// one, and how much of it is still to be handed in.
pub struct Sending {
    pub queue: Vec<PlanObject>,
    pub resume: Table<Digest, u64>,
    pub threshold: u64,
    pub limit: u64,
    pub budget: u64,
    pub stats: TransferStats,
    pub index: usize,
    pub active: Option<Checksum>,
    pub owed: u64,
}

/// The smallest of three.
pub open spec fn least(a: u64, b: u64, c: u64) -> u64 {
    if a <= b && a <= c {
        a
    } else if b <= c {
        b
    } else {
        c
    }
}

fn least_of(a: u64, b: u64, c: u64) -> (r: u64)
    ensures
        r == least(a, b, c),
{
    if a <= b && a <= c {
        a
    } else if b <= c {
        b
    } else {
        c
    }
}

impl Sending {
    /// The object whose turn it is.
    pub open spec fn current(&self) -> PlanObject {
        self.queue@[self.index as int]
    }

    /// What was read of it.
    pub open spec fn content(&self) -> Seq<u8> {
        match self.active {
            Some(sum) => sum.content(),
            None => Seq::empty(),
        }
    }

    /// The budget is what remains of the limit, nothing is read beyond an object, and the counts
    /// are those of objects that are done.
    pub open spec fn wf(&self) -> bool {
        &&& self.resume.wf()
        &&& self.index <= self.queue@.len()
        &&& self.stats.bytes_transferred + self.budget == self.limit
        &&& self.stats.objects_transferred == self.index
        &&& self.active is Some ==> self.index < self.queue@.len() && self.content().len()
            + self.owed <= self.current().bytes && offset_of(self.resume@, self.current())
            <= self.current().bytes
        &&& self.active is None ==> self.owed == 0
        &&& self.stats.resumed_bytes <= total_bytes(
            self.queue@.take(self.index + if self.active is Some {
                1int
            } else {
                0
            }),
        )
        &&& total_bytes(self.queue@) <= u64::MAX
    }

    /// The parts that a step leaves alone.
    pub open spec fn goes_on(&self, next: Sending) -> bool {
        &&& next.queue == self.queue
        &&& next.resume == self.resume
        &&& next.threshold == self.threshold
        &&& next.limit == self.limit
        &&& next.stats.objects_reused == self.stats.objects_reused
    }

    /// The object is sent whole: nothing of it was sent, and it is small enough.
    pub open spec fn sends_whole(&self) -> bool {
        &&& self.active is None
        &&& offset_of(self.resume@, self.current()) == 0
        &&& self.current().bytes <= self.threshold
        &&& self.current().bytes <= self.budget
    }

    /// The step that is due.
    pub open spec fn due(&self) -> Result<Order, Error> {
        let x = self.current();
        let offset = offset_of(self.resume@, x);
        let n = self.content().len() as u64;
        if self.index == self.queue@.len() {
            Ok(Order::Done)
        } else if offset > x.bytes {
            Err(Error::Protocol("invalid resume offset"))
        } else if self.sends_whole() {
            Ok(Order::Whole(piece_header(x, 0)))
        } else if n < offset {
            Ok(
                Order::Prefix(
                    x.digest,
                    least((offset - n) as u64, OBJECT_STREAM_CHUNK, OBJECT_STREAM_CHUNK),
                ),
            )
        } else if n < x.bytes {
            let take = least((x.bytes - n) as u64, self.budget, OBJECT_STREAM_CHUNK);
            if take == 0 {
                Ok(Order::Cut)
            } else {
                Ok(Order::Chunk(piece_header(x, n), take))
            }
        } else if blake3_of(self.content()) != x.digest.0@ {
            Err(Error::Protocol("stored object changed while streaming"))
        } else {
            Ok(Order::Sent(x.digest))
        }
    }

    /// The state behind a step.
    pub open spec fn after(&self, order: Order, next: Sending) -> bool {
        let resumed = if order is Done || order is Whole || self.active is Some {
            self.stats.resumed_bytes as int
        } else {
            self.stats.resumed_bytes + offset_of(self.resume@, self.current())
        };
        let done = order is Whole || order is Sent;
        let paid = match order {
            Order::Whole(h) => h.total_size,
            Order::Chunk(h, take) => take,
            _ => 0,
        };
        &&& next.index == self.index + if done {
            1int
        } else {
            0
        }
        &&& next.stats.objects_transferred == next.index
        &&& next.stats.bytes_transferred == self.stats.bytes_transferred + paid
        &&& next.budget == self.budget - paid
        &&& next.stats.resumed_bytes == resumed
        &&& next.active is Some <==> !done && !(order is Done)
        &&& next.active is Some ==> next.content() == self.content()
        &&& next.owed == match order {
            Order::Prefix(d, take) => take,
            Order::Chunk(h, take) => take,
            _ => 0,
        }
    }

    /// Starts a transfer of the objects that the receiver lacks.
    pub fn start(
        objects: &Vec<PlanObject>,
        have: Have,
        threshold: u64,
        byte_limit: Option<u64>,
    ) -> (r: Self)
        requires
            total_bytes(objects@) <= u64::MAX,
            have.resume.wf(),
        ensures
            r.wf(),
            exists|held: Table<Digest, ()>|
                {
                    &&& held.wf()
                    &&& forall|k: Seq<int>| #[trigger]
                        held@.dom().contains(k) <==> among(have.have@, k)
                    &&& r.queue@ == #[trigger] lacking(objects@, held@)
                    &&& r.stats.objects_reused == held.entries@.len()
                },
            r.resume == have.resume,
            r.threshold == threshold,
            r.limit == match byte_limit {
                Some(n) => n,
                None => u64::MAX,
            },
            r.budget == r.limit,
            r.stats.objects_transferred == 0,
            r.stats.bytes_transferred == 0,
            r.stats.resumed_bytes == 0,
            r.index == 0,
            r.active is None,
            r.owed == 0,
    {
        let held = digest_set(&have.have);
        let mut queue: Vec<PlanObject> = Vec::new();
        let mut n: usize = 0;
        assert(objects@.take(0) =~= Seq::<PlanObject>::empty());
        while n < objects.len()
            invariant
                n <= objects@.len(),
                held.wf(),
                queue@ == lacking(objects@.take(n as int), held@),
            decreases objects.len() - n,
        {
            proof {
                assert(objects@.take(n + 1).drop_last() =~= objects@.take(n as int));
                assert(objects@.take(n + 1).last() == objects@[n as int]);
            }
            if !held.contains(&objects[n].digest) {
                queue.push(objects[n].clone());
            }
            n += 1;
        }
        let limit: u64 = match byte_limit {
            Some(n) => n,
            None => u64::MAX,
        };
        let stats = TransferStats {
            objects_transferred: 0,
            objects_reused: held.len() as u64,
            bytes_transferred: 0,
            resumed_bytes: 0,
        };
        proof {
            assert(objects@.take(n as int) =~= objects@);
            lacking_total(objects@, held@);
            assert(queue@.take(0) =~= Seq::<PlanObject>::empty());
        }
        Sending {
            queue,
            resume: have.resume,
            threshold,
            limit,
            budget: limit,
            stats,
            index: 0,
            active: None,
            owed: 0,
        }
    }

    /// Says what to do next, and counts it.
    pub fn next(self) -> (r: Result<(Self, Order), Error>)
        requires
            self.wf(),
            self.owed == 0,
        ensures
            r matches Err(e) ==> self.due() == Err::<Order, Error>(e),
            r matches Ok((s, order)) ==> {
                &&& self.due() == Ok::<Order, Error>(order)
                &&& s.wf()
                &&& self.goes_on(s)
                &&& self.after(order, s)
            },
    {
        let mut s = self;
        if s.index == s.queue.len() {
            return Ok((s, Order::Done));
        }
        let digest = s.queue[s.index].digest;
        let bytes = s.queue[s.index].bytes;
        let kind = if same_text(s.queue[s.index].kind.as_str(), "tree") {
            ObjectKind::Tree
        } else {
            ObjectKind::Blob
        };
        let offset: u64 = match s.resume.get(&digest) {
            Some(n) => *n,
            None => 0,
        };
        if offset > bytes {
            return Err(Error::Protocol("invalid resume offset"));
        }
        proof {
            assert(s.queue@.take(s.index + 1).drop_last() =~= s.queue@.take(s.index as int));
            assert(s.queue@.take(s.index + 1).last() == s.queue@[s.index as int]);
            total_grows(s.queue@, s.index + 1);
        }
        match s.active.take() {
            None => {
                if offset == 0 && bytes <= s.threshold && bytes <= s.budget {
                    s.stats.bytes_transferred = s.stats.bytes_transferred + bytes;
                    s.stats.objects_transferred = s.stats.objects_transferred + 1;
                    s.budget = s.budget - bytes;
                    s.index = s.index + 1;
                    return Ok(
                        (s, Order::Whole(ObjectHeader { kind, digest, total_size: bytes, offset: 0 })),
                    );
                }
                s.stats.resumed_bytes = s.stats.resumed_bytes + offset;
                s.active = Some(Checksum::new());
            },
            Some(sum) => {
                s.active = Some(sum);
            },
        }
        let n: u64 = match &s.active {
            Some(sum) => sum.count(),
            None => 0,
        };
        assert(s.content() =~= self.content());
        if n < offset {
            let take = least_of(offset - n, OBJECT_STREAM_CHUNK, OBJECT_STREAM_CHUNK);
            s.owed = take;
            return Ok((s, Order::Prefix(digest, take)));
        }
        if n < bytes {
            let take = least_of(bytes - n, s.budget, OBJECT_STREAM_CHUNK);
            if take == 0 {
                return Ok((s, Order::Cut));
            }
            s.stats.bytes_transferred = s.stats.bytes_transferred + take;
            s.budget = s.budget - take;
            s.owed = take;
            let header = ObjectHeader { kind, digest, total_size: bytes, offset: n };
            return Ok((s, Order::Chunk(header, take)));
        }
        match s.active.take() {
            None => {},
            Some(sum) => {
                let actual = sum.digest();
                if !actual.same(&digest) {
                    proof {
                        if actual.0@ == digest.0@ {
                            crate::bytes::array_extensional(actual.0, digest.0);
                        }
                    }
                    return Err(Error::Protocol("stored object changed while streaming"));
                }
            },
        }
        s.stats.objects_transferred = s.stats.objects_transferred + 1;
        s.index = s.index + 1;
        Ok((s, Order::Sent(digest)))
    }

    /// Hands in the bytes that were read for the last step.
    pub fn read(self, bytes: &[u8]) -> (r: Self)
        requires
            self.wf(),
            self.active is Some,
            bytes@.len() == self.owed,
        ensures
            r.wf(),
            self.goes_on(r),
            r.index == self.index,
            r.budget == self.budget,
            r.stats == self.stats,
            r.owed == 0,
            r.active is Some,
            r.content() == self.content() + bytes@,
    {
        let mut s = self;
        match s.active.take() {
            None => {},
            Some(sum) => {
                s.active = Some(sum.update(bytes));
            },
        }
        s.owed = 0;
        s
    }
}

proof fn lacking_total(s: Seq<PlanObject>, have: Map<Seq<int>, ()>)
    ensures
        total_bytes(lacking(s, have)) <= total_bytes(s),
    decreases s.len(),
{
    if s.len() > 0 {
        lacking_total(s.drop_last(), have);
        let before = lacking(s.drop_last(), have);
        assert(before.push(s.last()).drop_last() =~= before);
    }
}

/// A transfer never sends more than its limit.
pub proof fn limit_is_kept(s: Sending)
    requires
        s.wf(),
    ensures
        s.stats.bytes_transferred <= s.limit,
{
}

/// Every step but the last ones brings the transfer forward: it ends an object, or it leaves less
/// of the object to be read.
pub proof fn transfer_advances(s: Sending, order: Order, next: Sending)
    requires
        s.wf(),
        s.owed == 0,
        s.due() == Ok::<Order, Error>(order),
        s.goes_on(next),
        s.after(order, next),
    ensures
        order is Whole || order is Sent ==> next.index == s.index + 1,
        order is Prefix || order is Chunk ==> next.index == s.index && next.owed > 0,
{
}

/// What the sender sends, the receiver takes: a piece that goes on where the receiver stands is
/// accepted, where the last piece of an object completes it.
pub proof fn sent_piece_is_taken(intake: Intake, x: PlanObject, body: Seq<u8>)
    requires
        intake.wf(),
        intake.hashers@.dom().contains(x.digest.rank()),
        intake.allowed@[x.digest.rank()] == x,
        ({
            let content = intake.hashers@[x.digest.rank()].content();
            &&& content.len() + body.len() <= x.bytes
            &&& content.len() + body.len() == x.bytes ==> blake3_of(content + body) == x.digest.0@
        }),
    ensures
        ({
            let content = intake.hashers@[x.digest.rank()].content();
            intake.piece_fault(header_bytes(piece_header(x, content.len() as u64)) + body) is None
        }),
{
    let k = x.digest.rank();
    let content = intake.hashers@[k].content();
    let h = piece_header(x, content.len() as u64);
    let stream = header_bytes(h) + body;
    header_round_trip(h);
    crate::bytes::be_round_trip(h.total_size as nat, 8);
    crate::bytes::be_round_trip(h.offset as nat, 8);
    assert(header_bytes(h).len() == 49);
    assert(stream.take(49) =~= header_bytes(h));
    assert(stream.skip(49) =~= body);
    assert(intake.wants(k));
}

} // verus!
