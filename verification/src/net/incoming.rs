//! Taking a delivery in: the offer, its plan, what comes, and what is kept of it.
use vstd::prelude::*;

use crate::cas::{blake3_of, Digest};
use crate::identity::PeerId;
use crate::manifest::RawManifest;
use crate::net::auth::FEATURE_SKIP_NATIVE;
use crate::net::error::Error;
use crate::net::hello::names_feature;
use crate::net::intake::Intake;
use crate::net::offer::{offer_outcome, validate_incoming_offer, Offer, OfferAccept, OfferReject};
use crate::net::pack::{check_relay_pack, named, pack_fault, RelayPayload};
use crate::net::plan::{
    among, answer_plan, check_plan, check_received, declines_native, exceeds_storage_quota,
    held_whole, is_answer, may_skip, native_blobs, native_bytes, native_missing, native_rank,
    plan_fault, plan_is_exact, planned_ranks, required_bytes, Have, Holding, Plan,
};
use crate::net::reason::{bounded, printable, reason_text, rejection_reason};
use crate::net::trust::TrustStore;
use crate::order::Key;
use crate::table::{holds_at, kept, map_of_at, Table};

verus! {

/// The answer to an offer, with its manifest where it is taken.
pub enum OfferAnswer {
    Accept(OfferAccept, RawManifest),
    Reject(OfferReject),
}

/// The answer that follows from what was decided.
pub open spec fn answers(offer: Offer, decided: Result<RawManifest, Error>, a: OfferAnswer) -> bool {
    match (decided, a) {
        (Ok(raw), OfferAnswer::Accept(m, read)) => {
            &&& read == raw
            &&& m.message_type@ == "offer-accept"@
            &&& m.offer_id == offer.offer_id
        },
        (Err(e), OfferAnswer::Reject(m)) => {
            &&& m.message_type@ == "offer-reject"@
            &&& m.offer_id == offer.offer_id
            &&& m.reason@ == bounded(printable(reason_text(e)))
        },
        _ => false,
    }
}

/// Answers an offer.
pub fn answer_offer(trust: &mut TrustStore, offer: &Offer, from: PeerId, now: u64) -> (r: OfferAnswer)
    requires
        old(trust).wf(),
    ensures
        final(trust).wf(),
        exists|decided: Result<RawManifest, Error>| #[trigger]
            answers(*offer, decided, r) && offer_outcome(
                old(trust).disk@,
                final(trust).disk@,
                *offer,
                from,
                now,
                decided,
            ),
{
    let decided = validate_incoming_offer(trust, offer, from, now);
    let ghost d = decided;
    let r = match decided {
        Ok(raw) => OfferAnswer::Accept(
            OfferAccept {
                message_type: "offer-accept".to_owned(),
                offer_id: offer.offer_id.clone(),
            },
            raw,
        ),
        Err(e) => OfferAnswer::Reject(
            OfferReject {
                message_type: "offer-reject".to_owned(),
                offer_id: offer.offer_id.clone(),
                reason: rejection_reason(&e),
            },
        ),
    };
    assert(answers(*offer, d, r));
    r
}

/// Why a plan is not taken: it is at fault, or it needs too much, which the sender is told.
pub enum PlanRefusal {
    Fault(Error),
    Quota(OfferReject),
}

/// A delivery whose plan was taken.
pub struct Incoming {
    pub offer: Offer,
    pub raw: RawManifest,
    pub plan: Plan,
    pub native: Table<Digest, ()>,
    pub skip_native: bool,
    pub guest_sender: bool,
    pub decline: bool,
}

/// What is wrong with the plan of an offer.
pub open spec fn offer_plan_fault(offer: Offer, raw: RawManifest, plan: Plan) -> Option<Error> {
    plan_fault(
        plan,
        offer.offer_id@,
        offer.object_count,
        offer.bytes_hint,
        raw.manifest.native@,
    )
}

/// The delivery needs more than the receiver gives or the disk has.
pub open spec fn needs_too_much(
    offer: Offer,
    raw: RawManifest,
    plan: Plan,
    decline: bool,
    budget: u64,
    available: Option<u64>,
) -> bool {
    let required = if decline {
        offer.bytes_hint - native_bytes(plan.objects@, raw.manifest.native@)
    } else {
        offer.bytes_hint as int
    };
    required > budget || match available {
        Some(free) => free < required,
        None => true,
    }
}

impl Incoming {
    /// The plan is that of the offer, and the native objects are those of the manifest.
    pub open spec fn wf(&self) -> bool {
        &&& offer_plan_fault(self.offer, self.raw, self.plan) is None
        &&& self.native.wf()
        &&& forall|k: Seq<int>| #[trigger]
            self.native@.dom().contains(k) <==> native_rank(self.raw.manifest.native@, k)
        &&& self.decline ==> !self.guest_sender
    }

    /// Takes the plan of the offer that was accepted last. `available` is what the disk has, where
    /// that is known.
    pub fn begin(
        pending: Option<(Offer, RawManifest)>,
        plan: Plan,
        skip_native: bool,
        guest_sender: bool,
        features: &[String],
        budget: u64,
        available: Option<u64>,
    ) -> (r: Result<Self, PlanRefusal>)
        ensures
            ({
                let decline = skip_native && !guest_sender && names_feature(
                    features@,
                    FEATURE_SKIP_NATIVE@,
                );
                match (pending, r) {
                    (None, Err(PlanRefusal::Fault(e))) => e == Error::Protocol(
                        "plan without offer",
                    ),
                    (Some((offer, raw)), Err(PlanRefusal::Fault(e))) => offer_plan_fault(
                        offer,
                        raw,
                        plan,
                    ) == Some(e),
                    (Some((offer, raw)), Err(PlanRefusal::Quota(m))) => {
                        &&& offer_plan_fault(offer, raw, plan) is None
                        &&& needs_too_much(offer, raw, plan, decline, budget, available)
                        &&& m.message_type@ == "offer-reject"@
                        &&& m.offer_id == offer.offer_id
                        &&& m.reason@ == "quota"@
                    },
                    (Some((offer, raw)), Ok(x)) => {
                        &&& x.wf()
                        &&& !needs_too_much(offer, raw, plan, decline, budget, available)
                        &&& x.offer == offer
                        &&& x.raw == raw
                        &&& x.plan == plan
                        &&& x.skip_native == skip_native
                        &&& x.guest_sender == guest_sender
                        &&& x.decline == decline
                    },
                    _ => false,
                }
            }),
    {
        let (offer, raw) = match pending {
            None => {
                return Err(PlanRefusal::Fault(Error::Protocol("plan without offer")));
            },
            Some(p) => p,
        };
        let planned = match check_plan(
            &plan,
            offer.offer_id.as_str(),
            offer.object_count,
            offer.bytes_hint,
            &raw.manifest.native,
        ) {
            Err(e) => {
                return Err(PlanRefusal::Fault(e));
            },
            Ok(n) => n,
        };
        let decline = declines_native(skip_native, guest_sender, features);
        let required = required_bytes(&plan, planned, &raw.manifest.native, decline);
        if exceeds_storage_quota(required, budget, available) {
            return Err(
                PlanRefusal::Quota(
                    OfferReject {
                        message_type: "offer-reject".to_owned(),
                        offer_id: offer.offer_id,
                        reason: "quota".to_owned(),
                    },
                ),
            );
        }
        let native = native_blobs(&raw.manifest.native);
        Ok(Incoming { offer, raw, plan, native, skip_native, guest_sender, decline })
    }

    /// Answers the plan, by what the receiver holds of its objects, and gets ready to receive the
    /// rest.
    pub fn answer(&self, holdings: &Vec<(Digest, Holding)>) -> (r: (Have, Intake))
        requires
            self.wf(),
        ensures
            is_answer(
                r.0,
                self.offer.offer_id@,
                holdings@,
                self.native,
                self.skip_native,
                self.guest_sender,
                self.decline,
            ),
            r.1.starts(self.plan, r.0.have@),
    {
        let have = answer_plan(
            self.offer.offer_id.as_str(),
            holdings,
            &self.native,
            self.skip_native,
            self.guest_sender,
            self.decline,
        );
        let intake = Intake::start(&self.plan, &have.have);
        (have, intake)
    }

    /// An object that the receiver claims to have is one that it has, and not one that it declines.
    pub open spec fn truly_has(&self, intake: Intake, k: Seq<int>) -> bool {
        intake.have@.dom().contains(k) && !(self.decline && self.native@.dom().contains(k))
    }

    /// The objects that come from the receiver's own store.
    pub fn own_objects(&self, intake: &Intake) -> (r: Table<Digest, ()>)
        requires
            self.wf(),
            intake.wf(),
        ensures
            r.wf(),
            forall|k: Seq<int>| #[trigger]
                r@.dom().contains(k) <==> self.truly_has(*intake, k),
    {
        let mut out: Table<Digest, ()> = Table::new();
        let s = &intake.have.entries;
        let mut i: usize = 0;
        while i < s.len()
            invariant
                i <= s@.len(),
                s@ == intake.have.entries@,
                self.wf(),
                intake.wf(),
                out.wf(),
                forall|j: int|
                    0 <= j < i && !(self.decline && self.native@.dom().contains(
                        (#[trigger] s@[j]).0.rank(),
                    )) ==> out@.dom().contains(s@[j].0.rank()),
                forall|k: Seq<int>| #[trigger]
                    out@.dom().contains(k) ==> self.truly_has(*intake, k),
            decreases s.len() - i,
        {
            let h = s[i].0;
            if !(self.decline && self.native.contains(&h)) {
                proof {
                    map_of_at(s@, i as int);
                }
                out.insert(h, ());
            }
            i += 1;
        }
        proof {
            assert forall|k: Seq<int>| self.truly_has(*intake, k) implies #[trigger]
                out@.dom().contains(k) by {
                let j = choose|j: int| holds_at(intake.have.entries@, k, j);
                assert(s@[j].0.rank() == k);
            }
        }
        out
    }

    /// Every object of a table lies ready: it has come, or the receiver has it.
    pub open spec fn all_ready(&self, intake: Intake, m: Map<Seq<int>, ()>) -> bool {
        forall|k: Seq<int>| #[trigger]
            m.dom().contains(k) ==> intake.completed@.dom().contains(k) || self.truly_has(intake, k)
    }

    /// Decides, once everything has come, which objects are kept: exactly those that the manifest
    /// reaches. `reached` are these, by what has come, and `portable` those that its files reach.
    pub fn finish(
        &self,
        intake: &Intake,
        reached: Table<Digest, ()>,
        portable: &Table<Digest, ()>,
    ) -> (r: Result<Table<Digest, ()>, Error>)
        requires
            self.wf(),
            intake.wf(),
            reached.wf(),
            portable.wf(),
        ensures
            ({
                let exact = plan_is_exact(
                    planned_ranks(self.plan.objects@),
                    reached@,
                    portable@,
                    self.native@,
                    self.decline,
                );
                let wanted = kept(
                    reached@,
                    |k: Seq<int>, u: ()| !may_skip(self.native@, portable@, self.decline, k),
                );
                match r {
                    Ok(v) => exact && v.wf() && v@ == wanted && self.all_ready(*intake, wanted),
                    Err(e) => if !exact {
                        e == Error::Protocol("plan differs from verified manifest closure")
                    } else {
                        !self.all_ready(*intake, wanted) && e == Error::Protocol(
                            "staged object is missing",
                        )
                    },
                }
            }),
    {
        let v = match check_received(&self.plan, reached, portable, &self.native, self.decline) {
            Err(e) => {
                return Err(e);
            },
            Ok(v) => v,
        };
        let mut i: usize = 0;
        while i < v.entries.len()
            invariant
                i <= v.entries@.len(),
                v.wf(),
                self.wf(),
                intake.wf(),
                plan_is_exact(
                    planned_ranks(self.plan.objects@),
                    reached@,
                    portable@,
                    self.native@,
                    self.decline,
                ),
                v@ == kept(
                    reached@,
                    |k: Seq<int>, u: ()| !may_skip(self.native@, portable@, self.decline, k),
                ),
                forall|j: int|
                    0 <= j < i ==> intake.completed@.dom().contains(
                        (#[trigger] v.entries@[j]).0.rank(),
                    ) || self.truly_has(*intake, v.entries@[j].0.rank()),
            decreases v.entries.len() - i,
        {
            let h = v.entries[i].0;
            if !intake.completed.contains(&h) && !(intake.have.contains(&h) && !(self.decline
                && self.native.contains(&h))) {
                proof {
                    map_of_at(v.entries@, i as int);
                    assert(v@.dom().contains(h.rank()));
                }
                return Err(Error::Protocol("staged object is missing"));
            }
            i += 1;
        }
        proof {
            assert forall|k: Seq<int>| #[trigger] v@.dom().contains(k) implies intake.completed@.dom().contains(
                k,
            ) || self.truly_has(*intake, k) by {
                let j = choose|j: int| holds_at(v.entries@, k, j);
                assert(v.entries@[j].0.rank() == k);
            }
        }
        Ok(v)
    }
}

proof fn missing_among(have: Seq<Digest>, native: Seq<(Digest, ())>, k: Seq<int>)
    ensures
        among(native_missing(have, native), k) ==> among(have, k) || exists|j: int|
            0 <= j < native.len() && (#[trigger] native[j]).0.rank() == k,
    decreases native.len(),
{
    if native.len() > 0 {
        let before = native_missing(have, native.drop_last());
        let all = native_missing(have, native);
        missing_among(have, native.drop_last(), k);
        if among(all, k) {
            let i = choose|i: int| 0 <= i < all.len() && (#[trigger] all[i]).rank() == k;
            if i < before.len() {
                assert(before[i].rank() == k);
                if !among(have, k) {
                    let j = choose|j: int|
                        0 <= j < native.len() - 1 && (#[trigger] native.drop_last()[j]).0.rank()
                            == k;
                    assert(native[j].0.rank() == k);
                }
            } else {
                assert(native[native.len() - 1].0.rank() == k);
            }
        }
    }
}

/// What is kept of a delivery is there: each object has come in full, under its own digest, or was
/// held in full before. What the receiver declines it never takes for held.
pub proof fn kept_objects_are_whole(
    x: Incoming,
    holdings: Seq<(Digest, Holding)>,
    have: Have,
    intake: Intake,
    wanted: Map<Seq<int>, ()>,
    k: Seq<int>,
)
    requires
        x.wf(),
        is_answer(
            have,
            x.offer.offer_id@,
            holdings,
            x.native,
            x.skip_native,
            x.guest_sender,
            x.decline,
        ),
        forall|q: Seq<int>| #[trigger] intake.have@.dom().contains(q) <==> among(have.have@, q),
        x.all_ready(intake, wanted),
        wanted.dom().contains(k),
    ensures
        intake.completed@.dom().contains(k) || among(held_whole(holdings), k),
{
    if !intake.completed@.dom().contains(k) {
        assert(x.truly_has(intake, k));
        assert(among(have.have@, k));
        if x.decline {
            missing_among(held_whole(holdings), x.native.entries@, k);
            if !among(held_whole(holdings), k) {
                let j = choose|j: int|
                    0 <= j < x.native.entries@.len() && (#[trigger] x.native.entries@[j]).0.rank()
                        == k;
                map_of_at(x.native.entries@, j);
            }
        }
    }
}

/// A delivery that came through a relay: who sent it, the offer and its manifest, the objects, and
/// their digests.
pub struct RelayDelivery {
    pub sender: PeerId,
    pub offer: Offer,
    pub raw: RawManifest,
    pub objects: Vec<(Digest, Vec<u8>)>,
    pub supplied: Table<Digest, ()>,
}

/// Takes a delivery that came through a relay, where its offer is taken and its objects are what
/// they are said to be.
pub fn open_relay_delivery(trust: &mut TrustStore, payload: RelayPayload, now: u64) -> (r: Result<
    RelayDelivery,
    Error,
>)
    requires
        old(trust).wf(),
    ensures
        final(trust).wf(),
        match payload {
            RelayPayload::Ack { sender, ack } => final(trust).disk@ == old(trust).disk@ && r == Err::<
                RelayDelivery,
                Error,
            >(Error::Protocol("relay payload is not a delivery")),
            RelayPayload::Delivery { sender, offer, objects } => exists|
                decided: Result<RawManifest, Error>,
            |
                {
                    &&& #[trigger] offer_outcome(
                        old(trust).disk@,
                        final(trust).disk@,
                        *offer,
                        sender,
                        now,
                        decided,
                    )
                    &&& match decided {
                        Err(e) => r == Err::<RelayDelivery, Error>(e),
                        Ok(raw) => match pack_fault(
                            objects@,
                            offer.object_count,
                            offer.bytes_hint,
                        ) {
                            Some(e) => r == Err::<RelayDelivery, Error>(e),
                            None => r matches Ok(x) && {
                                &&& x.sender == sender
                                &&& x.offer == *offer
                                &&& x.raw == raw
                                &&& x.objects@.len() == objects@.len()
                                &&& forall|i: int|
                                    0 <= i < x.objects@.len() ==> (#[trigger] x.objects@[i]).0
                                        == objects@[i].digest && blake3_of(x.objects@[i].1@)
                                        == x.objects@[i].0.0@
                                &&& x.supplied.wf()
                                &&& forall|k: Seq<int>| #[trigger]
                                    x.supplied@.dom().contains(k) <==> named(objects@, k)
                            },
                        },
                    }
                },
        },
{
    match payload {
        RelayPayload::Ack { sender, ack } => Err(
            Error::Protocol("relay payload is not a delivery"),
        ),
        RelayPayload::Delivery { sender, offer, objects } => {
            let offer = *offer;
            let decided = validate_incoming_offer(trust, &offer, sender, now);
            let ghost d = decided;
            assert(offer_outcome(old(trust).disk@, trust.disk@, offer, sender, now, d));
            let raw = match decided {
                Err(e) => {
                    return Err(e);
                },
                Ok(raw) => raw,
            };
            match check_relay_pack(&objects, offer.object_count, offer.bytes_hint) {
                Err(e) => Err(e),
                Ok((contents, supplied)) => Ok(
                    RelayDelivery { sender, offer, raw, objects: contents, supplied },
                ),
            }
        },
    }
}

} // verus!
