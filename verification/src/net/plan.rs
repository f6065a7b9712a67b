//! Plans: which objects a delivery has, which of them the receiver lacks, and what is kept.
use vstd::prelude::*;

use crate::cas::{hash_rank_injective, Digest};
use crate::manifest::NativeBlobRef;
use crate::net::auth::FEATURE_SKIP_NATIVE;
use crate::net::error::Error;
use crate::net::hello::{has_feature, names_feature};
use crate::order::Key;
use crate::table::{holds_at, kept, map_of_at, Table};
use crate::text::same_text;

verus! {

/// The largest object of a delivery.
pub const MAX_OBJECT_SIZE: u64 = 268_435_456;

/// The largest native object of a delivery.
pub const MAX_NATIVE_OBJECT_SIZE: u64 = 8_589_934_592;

/// How much a receiver takes in one offer, unless it is told otherwise.
pub const DEFAULT_OFFER_BUDGET: u64 = 17_179_869_184;

/// The part of an object that is sent at a time.
pub const OBJECT_STREAM_CHUNK: u64 = 1_048_576;

/// An object up to this size is sent whole.
pub const STREAMING_THRESHOLD: u64 = 8_388_608;

/// One object of a delivery.
#[derive(Debug, PartialEq, Eq)]
pub struct PlanObject {
    pub digest: Digest,
    pub kind: String,
    pub bytes: u64,
}

impl Clone for PlanObject {
    fn clone(&self) -> (r: Self)
        ensures
            r == *self,
    {
        PlanObject { digest: self.digest, kind: self.kind.clone(), bytes: self.bytes }
    }
}

/// The objects of a delivery.
#[derive(Debug, PartialEq, Eq)]
pub struct Plan {
    pub message_type: String,
    pub offer_id: String,
    pub seq: u64,
    pub eof: bool,
    pub objects: Vec<PlanObject>,
}

/// What the receiver has, and how much of what it has in part.
#[derive(Debug, PartialEq, Eq)]
pub struct Have {
    pub message_type: String,
    pub offer_id: String,
    pub have: Vec<Digest>,
    pub resume: Table<Digest, u64>,
    pub eof: bool,
    pub skip_native: bool,
}

/// What a receiver says of a transfer that is taken up again.
#[derive(Debug, PartialEq, Eq)]
pub struct Resume {
    pub message_type: String,
    pub offer_id: String,
    pub complete: Vec<Digest>,
    pub partial: Table<Digest, u64>,
}

/// What went wrong with one object.
#[derive(Debug, PartialEq, Eq)]
pub struct TransferError {
    pub message_type: String,
    pub offer_id: String,
    pub digest: Digest,
    pub reason: String,
}

/// An object is one of the native ones.
pub open spec fn is_native(native: Seq<NativeBlobRef>, h: Digest) -> bool {
    exists|i: int| 0 <= i < native.len() && (#[trigger] native[i]).hash == h
}

/// The size that the manifest gives a native object; the last word counts.
pub open spec fn declared_size(native: Seq<NativeBlobRef>, h: Digest) -> Option<u64>
    decreases native.len(),
{
    if native.len() == 0 {
        None
    } else if native.last().hash == h {
        Some(native.last().size)
    } else {
        declared_size(native.drop_last(), h)
    }
}

/// No two objects of a plan are the same.
pub open spec fn all_different(s: Seq<PlanObject>) -> bool {
    forall|i: int, j: int|
        0 <= i < j < s.len() ==> (#[trigger] s[i]).digest != (#[trigger] s[j]).digest
}

/// One object of a plan is in order.
pub open spec fn object_valid(x: PlanObject, native: Seq<NativeBlobRef>) -> bool {
    &&& x.bytes <= if is_native(native, x.digest) {
        MAX_NATIVE_OBJECT_SIZE
    } else {
        MAX_OBJECT_SIZE
    }
    &&& x.kind@ == "blob"@ || x.kind@ == "tree"@
    &&& is_native(native, x.digest) ==> x.kind@ == "blob"@
    &&& declared_size(native, x.digest) matches Some(n) ==> n == x.bytes
}

/// The bytes of objects together.
pub open spec fn total_bytes(s: Seq<PlanObject>) -> int
    decreases s.len(),
{
    if s.len() == 0 {
        0
    } else {
        total_bytes(s.drop_last()) + s.last().bytes
    }
}

/// The bytes of the native objects together.
pub open spec fn native_bytes(s: Seq<PlanObject>, native: Seq<NativeBlobRef>) -> int
    decreases s.len(),
{
    if s.len() == 0 {
        0
    } else {
        native_bytes(s.drop_last(), native) + if is_native(native, s.last().digest) {
            s.last().bytes as int
        } else {
            0
        }
    }
}

/// What is wrong with a plan.
pub open spec fn plan_fault(
    plan: Plan,
    offer_id: Seq<char>,
    object_count: u64,
    bytes_hint: u64,
    native: Seq<NativeBlobRef>,
) -> Option<Error> {
    let s = plan.objects@;
    if plan.offer_id@ != offer_id || !plan.eof || s.len() != object_count {
        Some(Error::Protocol("plan mismatch"))
    } else if !all_different(s) || exists|i: int|
        0 <= i < s.len() && !object_valid(#[trigger] s[i], native) {
        Some(Error::Protocol("invalid plan"))
    } else if total_bytes(s) > u64::MAX {
        Some(Error::Protocol("plan byte count overflow"))
    } else if total_bytes(s) != bytes_hint {
        Some(Error::Protocol("plan quota mismatch"))
    } else {
        None
    }
}

pub(crate) fn native_has(native: &Vec<NativeBlobRef>, h: &Digest) -> (r: bool)
    ensures
        r == is_native(native@, *h),
{
    let mut i: usize = 0;
    while i < native.len()
        invariant
            i <= native@.len(),
            forall|j: int| 0 <= j < i ==> (#[trigger] native@[j]).hash != *h,
        decreases native.len() - i,
    {
        if native[i].hash.same(h) {
            return true;
        }
        i += 1;
    }
    false
}

fn size_declared(native: &Vec<NativeBlobRef>, h: &Digest) -> (r: Option<u64>)
    ensures
        r == declared_size(native@, *h),
{
    let mut i: usize = native.len();
    assert(native@.take(i as int) =~= native@);
    while i > 0
        invariant
            i <= native@.len(),
            declared_size(native@, *h) == declared_size(native@.take(i as int), *h),
        decreases i,
    {
        let ghost t = native@.take(i as int);
        assert(t.last() == native@[i - 1]);
        assert(t.drop_last() =~= native@.take(i - 1));
        if native[i - 1].hash.same(h) {
            return Some(native[i - 1].size);
        }
        i -= 1;
    }
    None
}

fn is_valid(x: &PlanObject, native: &Vec<NativeBlobRef>) -> (r: bool)
    ensures
        r == object_valid(*x, native@),
{
    let is_nat = native_has(native, &x.digest);
    let limit: u64 = if is_nat {
        MAX_NATIVE_OBJECT_SIZE
    } else {
        MAX_OBJECT_SIZE
    };
    let blob = same_text(x.kind.as_str(), "blob");
    let declared_ok = match size_declared(native, &x.digest) {
        Some(n) => n == x.bytes,
        None => true,
    };
    x.bytes <= limit && (blob || same_text(x.kind.as_str(), "tree")) && (!is_nat || blob)
        && declared_ok
}

fn are_different(s: &Vec<PlanObject>) -> (r: bool)
    ensures
        r == all_different(s@),
{
    let mut i: usize = 0;
    while i < s.len()
        invariant
            i <= s@.len(),
            forall|a: int, b: int|
                0 <= a < b < i ==> (#[trigger] s@[a]).digest != (#[trigger] s@[b]).digest,
        decreases s.len() - i,
    {
        let mut j: usize = 0;
        while j < i
            invariant
                j <= i < s@.len(),
                forall|a: int| 0 <= a < j ==> (#[trigger] s@[a]).digest != s@[i as int].digest,
            decreases i - j,
        {
            if s[j].digest.same(&s[i].digest) {
                assert(s@[j as int].digest == s@[i as int].digest);
                return false;
            }
            j += 1;
        }
        i += 1;
    }
    true
}

/// The bytes of objects together; nothing where they are too many to count.
pub fn sum_bytes(s: &Vec<PlanObject>) -> (r: Option<u64>)
    ensures
        r is Some <==> total_bytes(s@) <= u64::MAX,
        r matches Some(n) ==> n == total_bytes(s@),
{
    let mut sum: u64 = 0;
    let mut i: usize = 0;
    assert(s@.take(0) =~= Seq::<PlanObject>::empty());
    while i < s.len()
        invariant
            i <= s@.len(),
            sum == total_bytes(s@.take(i as int)),
        decreases s.len() - i,
    {
        proof {
            assert(s@.take(i + 1).drop_last() =~= s@.take(i as int));
            assert(s@.take(i + 1).last() == s@[i as int]);
        }
        match sum.checked_add(s[i].bytes) {
            Some(n) => {
                sum = n;
            },
            None => {
                proof {
                    total_grows(s@, i + 1);
                }
                return None;
            },
        }
        i += 1;
    }
    assert(s@.take(i as int) =~= s@);
    Some(sum)
}

pub(crate) proof fn total_grows(s: Seq<PlanObject>, n: int)
    requires
        0 <= n <= s.len(),
    ensures
        total_bytes(s.take(n)) <= total_bytes(s),
    decreases s.len(),
{
    if n == s.len() {
        assert(s.take(n) =~= s);
    } else {
        assert(s.drop_last().take(n) =~= s.take(n));
        total_grows(s.drop_last(), n);
    }
}

proof fn native_within_total(s: Seq<PlanObject>, native: Seq<NativeBlobRef>)
    ensures
        0 <= native_bytes(s, native) <= total_bytes(s),
    decreases s.len(),
{
    if s.len() > 0 {
        native_within_total(s.drop_last(), native);
    }
}

/// Checks a plan against the offer that it is for; returns the bytes of its objects.
pub fn check_plan(
    plan: &Plan,
    offer_id: &str,
    object_count: u64,
    bytes_hint: u64,
    native: &Vec<NativeBlobRef>,
) -> (r: Result<u64, Error>)
    ensures
        r matches Err(e) ==> plan_fault(*plan, offer_id@, object_count, bytes_hint, native@)
            == Some(e),
        r matches Ok(n) ==> plan_fault(*plan, offer_id@, object_count, bytes_hint, native@) is None
            && n == total_bytes(plan.objects@) && n == bytes_hint,
{
    if !same_text(plan.offer_id.as_str(), offer_id) || !plan.eof || plan.objects.len() as u64
        != object_count {
        return Err(Error::Protocol("plan mismatch"));
    }
    if !are_different(&plan.objects) {
        return Err(Error::Protocol("invalid plan"));
    }
    let mut i: usize = 0;
    while i < plan.objects.len()
        invariant
            i <= plan.objects@.len(),
            plan.offer_id@ == offer_id@,
            plan.eof,
            plan.objects@.len() == object_count,
            all_different(plan.objects@),
            forall|j: int| 0 <= j < i ==> object_valid(#[trigger] plan.objects@[j], native@),
        decreases plan.objects.len() - i,
    {
        if !is_valid(&plan.objects[i], native) {
            assert(!object_valid(plan.objects@[i as int], native@));
            return Err(Error::Protocol("invalid plan"));
        }
        i += 1;
    }
    match sum_bytes(&plan.objects) {
        None => Err(Error::Protocol("plan byte count overflow")),
        Some(n) => if n != bytes_hint {
            Err(Error::Protocol("plan quota mismatch"))
        } else {
            Ok(n)
        },
    }
}

/// Native objects are declined: the receiver wants that, the sender is no guest and knows how.
pub fn declines_native(skip_native: bool, guest_sender: bool, features: &[String]) -> (r: bool)
    ensures
        r == (skip_native && !guest_sender && names_feature(features@, FEATURE_SKIP_NATIVE@)),
{
    skip_native && !guest_sender && has_feature(features, FEATURE_SKIP_NATIVE)
}

/// The bytes that a delivery takes up.
pub fn required_bytes(plan: &Plan, planned: u64, native: &Vec<NativeBlobRef>, decline: bool) -> (r:
    u64)
    requires
        planned == total_bytes(plan.objects@),
    ensures
        r == if decline {
            planned - native_bytes(plan.objects@, native@)
        } else {
            planned as int
        },
{
    if !decline {
        return planned;
    }
    let s = &plan.objects;
    let mut skipped: u64 = 0;
    let mut i: usize = 0;
    proof {
        native_within_total(s@, native@);
        assert(s@.take(0) =~= Seq::<PlanObject>::empty());
    }
    while i < s.len()
        invariant
            i <= s@.len(),
            planned == total_bytes(s@),
            skipped == native_bytes(s@.take(i as int), native@),
        decreases s.len() - i,
    {
        proof {
            assert(s@.take(i + 1).drop_last() =~= s@.take(i as int));
            assert(s@.take(i + 1).last() == s@[i as int]);
            native_within_total(s@.take(i + 1), native@);
            total_grows(s@, i + 1);
        }
        if native_has(native, &s[i].digest) {
            skipped = skipped + s[i].bytes;
        }
        i += 1;
    }
    assert(s@.take(i as int) =~= s@);
    planned - skipped
}

/// Whether a delivery needs more than the receiver gives, or more than the disk has. Where nobody
/// knows how much that is, it is too little.
pub fn exceeds_storage_quota(required: u64, budget: u64, available: Option<u64>) -> (r: bool)
    ensures
        r == (required > budget || match available {
            Some(free) => free < required,
            None => true,
        }),
{
    required > budget || match available {
        Some(free) => free < required,
        None => true,
    }
}

/// What the receiver has of one object.
#[derive(Clone, Copy, Debug, PartialEq, Eq)]
pub enum Holding {
    Whole,
    Part(u64),
    Nothing,
}

/// The digests of objects that are held whole, in order.
pub open spec fn held_whole(s: Seq<(Digest, Holding)>) -> Seq<Digest>
    decreases s.len(),
{
    if s.len() == 0 {
        Seq::empty()
    } else {
        let before = held_whole(s.drop_last());
        if s.last().1 is Whole {
            before.push(s.last().0)
        } else {
            before
        }
    }
}

/// How much is held of objects that are held in part; the last word counts.
pub open spec fn held_part(s: Seq<(Digest, Holding)>) -> Map<Seq<int>, u64>
    decreases s.len(),
{
    if s.len() == 0 {
        Map::empty()
    } else {
        let before = held_part(s.drop_last());
        match s.last().1 {
            Holding::Part(n) => before.insert(s.last().0.rank(), n),
            _ => before,
        }
    }
}

/// The digests of native objects, in order and each once.
pub fn native_blobs(native: &Vec<NativeBlobRef>) -> (r: Table<Digest, ()>)
    ensures
        r.wf(),
        forall|k: Seq<int>| #[trigger] r@.dom().contains(k) <==> native_rank(native@, k),
{
    let mut out: Table<Digest, ()> = Table::new();
    let mut i: usize = 0;
    while i < native.len()
        invariant
            i <= native@.len(),
            out.wf(),
            forall|k: Seq<int>|
                #[trigger] out@.dom().contains(k) <==> native_rank(native@.take(i as int), k),
        decreases native.len() - i,
    {
        let ghost before = out@;
        out.insert(native[i].hash, ());
        proof {
            let t = native@.take(i as int);
            let u = native@.take(i + 1);
            assert forall|k: Seq<int>| #[trigger] out@.dom().contains(k) <==> native_rank(u, k) by {
                if native_rank(t, k) {
                    let j = choose|j: int| 0 <= j < t.len() && (#[trigger] t[j]).hash.rank() == k;
                    assert(u[j].hash.rank() == k);
                }
                if k == native@[i as int].hash.rank() {
                    assert(u[i as int].hash.rank() == k);
                }
                if native_rank(u, k) {
                    let j = choose|j: int| 0 <= j < u.len() && (#[trigger] u[j]).hash.rank() == k;
                    if j < i {
                        assert(t[j].hash.rank() == k);
                    }
                }
                assert(before.dom().contains(k) <==> native_rank(t, k));
            }
        }
        i += 1;
    }
    assert(native@.take(i as int) =~= native@);
    out
}

/// A native object has this rank.
pub open spec fn native_rank(native: Seq<NativeBlobRef>, k: Seq<int>) -> bool {
    exists|i: int| 0 <= i < native.len() && (#[trigger] native[i]).hash.rank() == k
}

/// Digests, with those of native objects behind them that are not among them.
pub open spec fn native_missing(have: Seq<Digest>, native: Seq<(Digest, ())>) -> Seq<Digest>
    decreases native.len(),
{
    if native.len() == 0 {
        have
    } else {
        let before = native_missing(have, native.drop_last());
        if before.contains(native.last().0) {
            before
        } else {
            before.push(native.last().0)
        }
    }
}

/// What remains of partial objects when native ones are declined.
pub open spec fn without_native(resume: Map<Seq<int>, u64>, native: Map<Seq<int>, ()>) -> Map<
    Seq<int>,
    u64,
> {
    kept(resume, |k: Seq<int>, n: u64| !native.dom().contains(k))
}

/// Digests as a table.
pub fn digest_set(v: &Vec<Digest>) -> (r: Table<Digest, ()>)
    ensures
        r.wf(),
        forall|k: Seq<int>| #[trigger] r@.dom().contains(k) <==> among(v@, k),
{
    let mut out: Table<Digest, ()> = Table::new();
    let mut i: usize = 0;
    while i < v.len()
        invariant
            i <= v@.len(),
            out.wf(),
            forall|k: Seq<int>| #[trigger]
                out@.dom().contains(k) <==> among(v@.take(i as int), k),
        decreases v.len() - i,
    {
        let ghost before = out@;
        out.insert(v[i], ());
        proof {
            let t = v@.take(i as int);
            let u = v@.take(i + 1);
            assert forall|k: Seq<int>| #[trigger] out@.dom().contains(k) <==> among(u, k) by {
                assert(before.dom().contains(k) <==> among(t, k));
                if among(t, k) {
                    let j = choose|j: int| 0 <= j < t.len() && (#[trigger] t[j]).rank() == k;
                    assert(u[j].rank() == k);
                }
                if k == v@[i as int].rank() {
                    assert(u[i as int].rank() == k);
                }
                if among(u, k) {
                    let j = choose|j: int| 0 <= j < u.len() && (#[trigger] u[j]).rank() == k;
                    if j < i {
                        assert(t[j].rank() == k);
                    }
                }
            }
        }
        i += 1;
    }
    assert(v@.take(i as int) =~= v@);
    out
}

/// Some digest has this rank.
pub open spec fn among(v: Seq<Digest>, k: Seq<int>) -> bool {
    exists|i: int| 0 <= i < v.len() && (#[trigger] v[i]).rank() == k
}

fn has_digest(v: &Vec<Digest>, h: &Digest) -> (r: bool)
    ensures
        r == v@.contains(*h),
{
    let mut i: usize = 0;
    while i < v.len()
        invariant
            i <= v@.len(),
            forall|j: int| 0 <= j < i ==> v@[j] != *h,
        decreases v.len() - i,
    {
        if v[i].same(h) {
            return true;
        }
        i += 1;
    }
    false
}

/// What the receiver has of a plan, as it tells the sender.
pub open spec fn is_answer(
    have: Have,
    offer_id: Seq<char>,
    holdings: Seq<(Digest, Holding)>,
    native: Table<Digest, ()>,
    skip_native: bool,
    guest_sender: bool,
    decline: bool,
) -> bool {
    &&& have.message_type@ == "have"@
    &&& have.offer_id@ == offer_id
    &&& have.eof
    &&& have.resume.wf()
    &&& have.skip_native == (skip_native && !guest_sender)
    &&& have.have@ == if guest_sender {
        Seq::empty()
    } else if decline {
        native_missing(held_whole(holdings), native.entries@)
    } else {
        held_whole(holdings)
    }
    &&& have.resume@ == if guest_sender {
        Map::empty()
    } else if decline {
        without_native(held_part(holdings), native@)
    } else {
        held_part(holdings)
    }
}

/// What the receiver answers to a plan. To a guest it says nothing of what it has; where native
/// objects are declined, it claims to have them.
pub fn answer_plan(
    offer_id: &str,
    holdings: &Vec<(Digest, Holding)>,
    native: &Table<Digest, ()>,
    skip_native: bool,
    guest_sender: bool,
    decline: bool,
) -> (r: Have)
    requires
        native.wf(),
        decline ==> !guest_sender,
    ensures
        is_answer(r, offer_id@, holdings@, *native, skip_native, guest_sender, decline),
{
    let mut have: Vec<Digest> = Vec::new();
    let mut resume: Table<Digest, u64> = Table::new();
    if !guest_sender {
        let mut i: usize = 0;
        assert(holdings@.take(0) =~= Seq::<(Digest, Holding)>::empty());
        while i < holdings.len()
            invariant
                resume.wf(),
                i <= holdings@.len(),
                have@ == held_whole(holdings@.take(i as int)),
                resume@ == held_part(holdings@.take(i as int)),
            decreases holdings.len() - i,
        {
            proof {
                assert(holdings@.take(i + 1).drop_last() =~= holdings@.take(i as int));
                assert(holdings@.take(i + 1).last() == holdings@[i as int]);
            }
            match holdings[i].1 {
                Holding::Whole => {
                    have.push(holdings[i].0);
                },
                Holding::Part(n) => {
                    resume.insert(holdings[i].0, n);
                },
                Holding::Nothing => {},
            }
            i += 1;
        }
        assert(holdings@.take(i as int) =~= holdings@);
        if decline {
            let ghost whole = have@;
            let mut k: usize = 0;
            assert(native.entries@.take(0) =~= Seq::<(Digest, ())>::empty());
            while k < native.entries.len()
                invariant
                    k <= native.entries@.len(),
                    have@ == native_missing(whole, native.entries@.take(k as int)),
                decreases native.entries.len() - k,
            {
                proof {
                    assert(native.entries@.take(k + 1).drop_last() =~= native.entries@.take(
                        k as int,
                    ));
                    assert(native.entries@.take(k + 1).last() == native.entries@[k as int]);
                }
                if !has_digest(&have, &native.entries[k].0) {
                    have.push(native.entries[k].0);
                }
                k += 1;
            }
            assert(native.entries@.take(k as int) =~= native.entries@);
            let other = |d: &Digest, n: &u64| -> (b: bool)
                requires
                    native.wf(),
                ensures
                    b == !native@.dom().contains(d.rank()),
                { !native.contains(d) };
            resume.retain(other, Ghost(|k: Seq<int>, n: u64| !native@.dom().contains(k)));
        }
    }
    Have {
        message_type: "have".to_owned(),
        offer_id: offer_id.to_owned(),
        have,
        resume,
        eof: true,
        skip_native: skip_native && !guest_sender,
    }
}

/// The receiver that declines native objects has named them all.
pub fn check_skip(have: &Have, native: &Vec<NativeBlobRef>) -> (r: Result<(), Error>)
    ensures
        r == if have.skip_native && exists|i: int|
            0 <= i < native@.len() && !have.have@.contains((#[trigger] native@[i]).hash) {
            Err::<(), Error>(Error::Protocol("skip_native did not cover native objects"))
        } else {
            Ok(())
        },
{
    if have.skip_native {
        let mut i: usize = 0;
        while i < native.len()
            invariant
                i <= native@.len(),
                have.skip_native,
                forall|j: int| 0 <= j < i ==> have.have@.contains((#[trigger] native@[j]).hash),
            decreases native.len() - i,
        {
            if !has_digest(&have.have, &native[i].hash) {
                assert(!have.have@.contains(native@[i as int].hash));
                return Err(Error::Protocol("skip_native did not cover native objects"));
            }
            i += 1;
        }
    }
    Ok(())
}

/// An object that may be left out: native, and not part of what the files reach.
pub open spec fn may_skip(
    native: Map<Seq<int>, ()>,
    portable: Map<Seq<int>, ()>,
    decline: bool,
    k: Seq<int>,
) -> bool {
    decline && native.dom().contains(k) && !portable.dom().contains(k)
}

/// What was planned, apart from what may be left out, is what the manifest reaches.
pub open spec fn plan_is_exact(
    planned: Set<Seq<int>>,
    reached: Map<Seq<int>, ()>,
    portable: Map<Seq<int>, ()>,
    native: Map<Seq<int>, ()>,
    decline: bool,
) -> bool {
    forall|k: Seq<int>|
        !may_skip(native, portable, decline, k) ==> (#[trigger] planned.contains(k)
            <==> reached.dom().contains(k))
}

/// The digests of a plan.
pub open spec fn planned_ranks(s: Seq<PlanObject>) -> Set<Seq<int>> {
    Set::new(|k: Seq<int>| exists|i: int| 0 <= i < s.len() && (#[trigger] s[i]).digest.rank() == k)
}

/// Accepts what was received where it is exactly what the manifest reaches; native objects that
/// were declined count neither way. Returns the digests to keep.
pub fn check_received(
    plan: &Plan,
    reached: Table<Digest, ()>,
    portable: &Table<Digest, ()>,
    native: &Table<Digest, ()>,
    decline: bool,
) -> (r: Result<Table<Digest, ()>, Error>)
    requires
        reached.wf(),
        portable.wf(),
        native.wf(),
    ensures
        ({
            let exact = plan_is_exact(
                planned_ranks(plan.objects@),
                reached@,
                portable@,
                native@,
                decline,
            );
            match r {
                Err(e) => !exact && e == Error::Protocol(
                    "plan differs from verified manifest closure",
                ),
                Ok(v) => exact && v.wf() && v@ == kept(
                    reached@,
                    |k: Seq<int>, u: ()| !may_skip(native@, portable@, decline, k),
                ),
            }
        }),
{
    let ghost planned = planned_ranks(plan.objects@);
    let mut i: usize = 0;
    while i < plan.objects.len()
        invariant
            reached.wf(),
            portable.wf(),
            native.wf(),
            i <= plan.objects@.len(),
            planned == planned_ranks(plan.objects@),
            forall|j: int|
                0 <= j < i ==> may_skip(
                    native@,
                    portable@,
                    decline,
                    (#[trigger] plan.objects@[j]).digest.rank(),
                ) || reached@.dom().contains(plan.objects@[j].digest.rank()),
        decreases plan.objects.len() - i,
    {
        let h = plan.objects[i].digest;
        let skip = decline && native.contains(&h) && !portable.contains(&h);
        if !skip && !reached.contains(&h) {
            proof {
                assert(plan.objects@[i as int].digest.rank() == h.rank());
                assert(planned.contains(h.rank()));
            }
            return Err(Error::Protocol("plan differs from verified manifest closure"));
        }
        i += 1;
    }
    let mut k: usize = 0;
    while k < reached.entries.len()
        invariant
            reached.wf(),
            portable.wf(),
            native.wf(),
            k <= reached.entries@.len(),
            planned == planned_ranks(plan.objects@),
            forall|j: int|
                0 <= j < k ==> may_skip(
                    native@,
                    portable@,
                    decline,
                    (#[trigger] reached.entries@[j]).0.rank(),
                ) || planned.contains(reached.entries@[j].0.rank()),
        decreases reached.entries.len() - k,
    {
        let h = reached.entries[k].0;
        let skip = decline && native.contains(&h) && !portable.contains(&h);
        if !skip && !plan_names(plan, &h) {
            proof {
                map_of_at(reached.entries@, k as int);
                assert(reached@.dom().contains(h.rank()));
                assert(!planned.contains(h.rank()));
            }
            return Err(Error::Protocol("plan differs from verified manifest closure"));
        }
        k += 1;
    }
    proof {
        assert forall|q: Seq<int>| !may_skip(native@, portable@, decline, q) implies (
        #[trigger] planned.contains(q) <==> reached@.dom().contains(q)) by {
            if planned.contains(q) {
                let j = choose|j: int|
                    0 <= j < plan.objects@.len() && (#[trigger] plan.objects@[j]).digest.rank()
                        == q;
                assert(plan.objects@[j].digest.rank() == q);
            }
            if reached@.dom().contains(q) {
                let j = choose|j: int| holds_at(reached.entries@, q, j);
                assert(reached.entries@[j].0.rank() == q);
            }
        }
    }
    let mut out = reached;
    let wanted = |d: &Digest, u: &()| -> (b: bool)
        requires
            native.wf(),
            portable.wf(),
        ensures
            b == !may_skip(native@, portable@, decline, d.rank()),
        { !(decline && native.contains(d) && !portable.contains(d)) };
    out.retain(wanted, Ghost(|k: Seq<int>, u: ()| !may_skip(native@, portable@, decline, k)));
    Ok(out)
}

fn plan_names(plan: &Plan, h: &Digest) -> (r: bool)
    ensures
        r == planned_ranks(plan.objects@).contains(h.rank()),
{
    let mut i: usize = 0;
    while i < plan.objects.len()
        invariant
            i <= plan.objects@.len(),
            forall|j: int|
                0 <= j < i ==> (#[trigger] plan.objects@[j]).digest.rank() != h.rank(),
        decreases plan.objects.len() - i,
    {
        proof {
            hash_rank_injective(plan.objects@[i as int].digest, *h);
        }
        if plan.objects[i].digest.same(h) {
            assert(plan.objects@[i as int].digest.rank() == h.rank());
            return true;
        }
        i += 1;
    }
    false
}

} // verus!
