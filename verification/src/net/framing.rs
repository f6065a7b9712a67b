//! Frames of control messages, and the headers of object streams.
use vstd::prelude::*;

use crate::bytes::{
    append_bytes, array32_at, be_at, be_bytes, be_round_trip, be_value, machine_limits, push_be32,
    push_be64,
};
use crate::net::error::Error;

verus! {

/// The longest control message.
pub const MAX_CONTROL_FRAME: usize = 16_777_216;

/// A message of this length can be sent.
pub open spec fn frame_fits(n: int) -> bool {
    1 <= n <= MAX_CONTROL_FRAME
}

/// Accepts the length of a message that is about to be read.
pub fn check_frame_len(len: u32) -> (r: Result<usize, Error>)
    ensures
        r == if frame_fits(len as int) {
            Ok::<usize, Error>(len as usize)
        } else {
            Err(Error::Protocol("control frame length outside 1..=16 MiB"))
        },
{
    if len == 0 || len > 16_777_216 {
        return Err(Error::Protocol("control frame length outside 1..=16 MiB"));
    }
    Ok(len as usize)
}

/// The bytes of a frame: the length of the message in four bytes, and the message.
pub fn frame(message: &[u8]) -> (r: Result<Vec<u8>, Error>)
    ensures
        r is Ok <==> frame_fits(message@.len() as int),
        r matches Ok(b) ==> b@ == be_bytes(message@.len(), 4) + message@,
        r matches Err(e) ==> e == Error::Protocol("control frame length outside 1..=16 MiB"),
{
    if message.len() == 0 || message.len() > MAX_CONTROL_FRAME {
        return Err(Error::Protocol("control frame length outside 1..=16 MiB"));
    }
    let mut out: Vec<u8> = Vec::new();
    push_be32(&mut out, message.len() as u32);
    append_bytes(&mut out, message);
    assert(out@ =~= be_bytes(message@.len(), 4) + message@);
    Ok(out)
}

/// The length in a frame is that of the message behind it.
pub proof fn frame_round_trip(message: Seq<u8>)
    requires
        frame_fits(message.len() as int),
    ensures
        ({
            let b = be_bytes(message.len(), 4) + message;
            be_value(b.take(4)) == message.len() && b.skip(4) == message
        }),
{
    machine_limits();
    be_round_trip(message.len(), 4);
    let b = be_bytes(message.len(), 4) + message;
    assert(b.take(4) =~= be_bytes(message.len(), 4));
    assert(b.skip(4) =~= message);
}

/// What an object stream carries.
#[derive(Clone, Copy, Debug, PartialEq, Eq, Structural)]
pub enum ObjectKind {
    Blob,
    Tree,
}

/// The byte of a kind.
pub open spec fn kind_byte(kind: ObjectKind) -> u8 {
    match kind {
        ObjectKind::Blob => 1,
        ObjectKind::Tree => 2,
    }
}

impl ObjectKind {
    /// The byte of the kind.
    pub fn to_byte(self) -> (r: u8)
        ensures
            r == kind_byte(self),
    {
        match self {
            ObjectKind::Blob => 1,
            ObjectKind::Tree => 2,
        }
    }

    /// The kind of a byte.
    pub fn try_from(value: u8) -> (r: Result<Self, Error>)
        ensures
            r == kind_of(value),
    {
        if value == 1 {
            Ok(ObjectKind::Blob)
        } else if value == 2 {
            Ok(ObjectKind::Tree)
        } else {
            Err(Error::Protocol("unknown object kind"))
        }
    }
}

/// The kind of a byte.
pub open spec fn kind_of(value: u8) -> Result<ObjectKind, Error> {
    if value == 1 {
        Ok(ObjectKind::Blob)
    } else if value == 2 {
        Ok(ObjectKind::Tree)
    } else {
        Err(Error::Protocol("unknown object kind"))
    }
}

/// What stands in front of the bytes of an object, or of the part of it that is still missing.
#[derive(Clone, Copy, Debug, PartialEq, Eq)]
pub struct ObjectHeader {
    pub kind: ObjectKind,
    pub digest: crate::cas::Hash,
    pub total_size: u64,
    pub offset: u64,
}

/// The length of a header.
pub const HEADER_LEN: usize = 49;

/// The bytes of a header: kind, digest, size and offset.
pub open spec fn header_bytes(h: ObjectHeader) -> Seq<u8> {
    seq![kind_byte(h.kind)] + h.digest.0@ + be_bytes(h.total_size as nat, 8) + be_bytes(
        h.offset as nat,
        8,
    )
}

/// What `ObjectHeader::decode` answers.
pub open spec fn header_of(b: Seq<u8>) -> Result<ObjectHeader, Error> {
    let total_size = be_value(b.subrange(33, 41)) as u64;
    let offset = be_value(b.subrange(41, 49)) as u64;
    if offset > total_size {
        Err(Error::Protocol("object offset exceeds size"))
    } else {
        match kind_of(b[0]) {
            Err(e) => Err(e),
            Ok(kind) => Ok(
                ObjectHeader {
                    kind,
                    digest: crate::cas::hash_of_bytes(b.subrange(1, 33)),
                    total_size,
                    offset,
                },
            ),
        }
    }
}

impl ObjectHeader {
    /// The bytes of the header.
    pub fn encode(self) -> (r: [u8; 49])
        ensures
            r@ == header_bytes(self),
    {
        let mut v: Vec<u8> = Vec::new();
        v.push(self.kind.to_byte());
        append_bytes(&mut v, self.digest.0.as_slice());
        push_be64(&mut v, self.total_size);
        push_be64(&mut v, self.offset);
        proof {
            be_round_trip(self.total_size as nat, 8);
            be_round_trip(self.offset as nat, 8);
            assert(v@ =~= header_bytes(self));
        }
        let mut out: [u8; 49] = [0u8; 49];
        let mut i: usize = 0;
        while i < 49
            invariant
                i <= 49,
                v@.len() == 49,
                forall|j: int| 0 <= j < i ==> out@[j] == v@[j],
            decreases 49 - i,
        {
            out[i] = v[i];
            i += 1;
        }
        assert(out@ =~= v@);
        out
    }

    /// Reads a header.
    pub fn decode(bytes: [u8; 49]) -> (r: Result<Self, Error>)
        ensures
            r == header_of(bytes@),
    {
        let b = bytes.as_slice();
        let total_size = be_at(b, 33, 8);
        let offset = be_at(b, 41, 8);
        if offset > total_size {
            return Err(Error::Protocol("object offset exceeds size"));
        }
        let kind = match ObjectKind::try_from(bytes[0]) {
            Ok(kind) => kind,
            Err(e) => {
                return Err(e);
            },
        };
        let digest = crate::cas::Hash(array32_at(b, 1));
        proof {
            crate::cas::hash_of_bytes_is(digest);
        }
        Ok(ObjectHeader { kind, digest, total_size, offset })
    }
}

/// Reading the bytes of a header gives the header back, where its offset is within its size.
pub proof fn header_round_trip(h: ObjectHeader)
    requires
        h.offset <= h.total_size,
    ensures
        header_of(header_bytes(h)) == Ok::<ObjectHeader, Error>(h),
{
    machine_limits();
    be_round_trip(h.total_size as nat, 8);
    be_round_trip(h.offset as nat, 8);
    let b = header_bytes(h);
    assert(b.subrange(1, 33) =~= h.digest.0@);
    assert(b.subrange(33, 41) =~= be_bytes(h.total_size as nat, 8));
    assert(b.subrange(41, 49) =~= be_bytes(h.offset as nat, 8));
    crate::cas::hash_of_bytes_is(h.digest);
}

} // verus!
