//! Taking in a snapshot that was offered and has arrived whole.
use vstd::prelude::*;

use crate::capsule::{genesis_check, number_error, Genesis, LabelOp, LeaseRecord};
use crate::cas::Digest;
use crate::history::{fork_label, lease_verdict, parents_known, LeaseVerdict, SnapshotRecord};
use crate::identity::{signature_of, Identity, PeerId};
use crate::json::{member, Json, JsonV};
use crate::manifest::{RawManifest, Scope};
use crate::net::ack::{ack_bytes, offer_id_valid, Ack};
use crate::net::adopt::{
    adopt_offer_capsule_state, insert_pending_main_label, offer_adopted, retried,
    retry_pending_main_labels, waiting, with_waiting, Pending,
};
use crate::net::auth::shows_time;
use crate::net::clock::format_time;
use crate::net::error::Error;
use crate::net::offer::Offer;
use crate::net::trust::{TrustDisk, TrustStore};
use crate::order::Key;
use crate::record::{Fields, Members};
use crate::store::{
    fork_signed, is_fork_label, held_epoch, begun, label_fault_v, next_fork_seq, shelf,
    snapshot_fault_v, with_label, with_lease, with_snapshot, AbraStore, CapsuleV, InboxEntry,
};
use crate::util::hex_text;

verus! {

/// The most items of the inbox.
pub const MAX_INBOX_ENTRIES: usize = 10_000;

/// How a snapshot came.
#[derive(Clone, Copy, Debug, PartialEq, Eq, Structural)]
pub enum Via {
    Direct,
    Relay,
}

impl Via {
    /// The word for it in the log of events.
    pub fn as_str(self) -> (r: &'static str)
        ensures
            r@ == via_text(self),
    {
        match self {
            Via::Direct => "direct",
            Via::Relay => "relay",
        }
    }
}

/// The word for how a snapshot came.
pub open spec fn via_text(via: Via) -> Seq<char> {
    match via {
        Via::Direct => "direct"@,
        Via::Relay => "relay"@,
    }
}

/// The receipt for a snapshot, and the event to log.
#[derive(Debug, PartialEq, Eq)]
pub struct ReceivedOffer {
    pub ack: Ack,
    pub event: Json,
}

/// What is wrong with the beginning of a capsule.
pub open spec fn founding_fault(g: Genesis, grant: LeaseRecord) -> Option<crate::error::Error> {
    match genesis_check(g) {
        Err(x) => Some(x),
        Ok(()) => match lease_verdict(g, Seq::empty(), None, grant) {
            LeaseVerdict::Wins => None,
            LeaseVerdict::Refused(x) => Some(x),
            _ => Some(crate::error::Error::Invalid("genesis lacks epoch-1 grant")),
        },
    }
}

/// What keeps a snapshot from being taken in: its capsule is unknown and cannot be begun, or the
/// inbox is full.
pub open spec fn admission_fault(
    s: Map<Seq<int>, CapsuleV>,
    inbox_len: nat,
    raw: RawManifest,
    offer: Offer,
) -> Option<Error> {
    if raw.manifest.scope is Full {
        let id = raw.manifest.capsule_id->0;
        if s.dom().contains(id.rank()) {
            None
        } else {
            match (offer.genesis, offer.genesis_grant) {
                (None, _) => Some(Error::Protocol("missing genesis")),
                (_, None) => Some(Error::Protocol("missing genesis grant")),
                (Some(g), Some(grant)) => if g.capsule_id != id {
                    Some(Error::Protocol("genesis capsule mismatch"))
                } else {
                    match founding_fault(g, grant) {
                        Some(x) => Some(Error::Core(x)),
                        None => None,
                    }
                },
            }
        }
    } else if inbox_len >= MAX_INBOX_ENTRIES {
        Some(Error::Authorization("inbox quota exceeded"))
    } else {
        None
    }
}

/// The shelf with the capsule of a snapshot on it.
pub open spec fn admitted(s: Map<Seq<int>, CapsuleV>, raw: RawManifest, offer: Offer) -> Map<
    Seq<int>,
    CapsuleV,
> {
    let id = raw.manifest.capsule_id->0;
    if raw.manifest.scope is Full && !s.dom().contains(id.rank()) {
        s.insert(id.rank(), with_lease(begun(offer.genesis->0), offer.genesis_grant->0))
    } else {
        s
    }
}

/// Makes room for a snapshot: begins its capsule on first sight, or checks that the inbox has room.
pub fn admit_capsule(store: &mut AbraStore, raw: &RawManifest, offer: &Offer) -> (r: Result<(), Error>)
    requires
        old(store).wf(),
        raw.manifest.scope is Full ==> raw.manifest.capsule_id is Some,
    ensures
        final(store).wf(),
        final(store).inbox == old(store).inbox,
        ({
            let s = shelf(old(store).capsules@);
            let fault = admission_fault(s, old(store).inbox.entries@.len(), *raw, *offer);
            match r {
                Err(e) => fault == Some(e) && shelf(final(store).capsules@) == s,
                Ok(()) => fault is None && shelf(final(store).capsules@) == admitted(
                    s,
                    *raw,
                    *offer,
                ),
            }
        }),
{
    if raw.manifest.scope == Scope::Full {
        let id = match &raw.manifest.capsule_id {
            Some(id) => *id,
            None => {
                return Ok(());
            },
        };
        if store.capsules.contains(&id) {
            return Ok(());
        }
        let genesis = match &offer.genesis {
            None => {
                return Err(Error::Protocol("missing genesis"));
            },
            Some(g) => g.clone(),
        };
        let grant = match &offer.genesis_grant {
            None => {
                return Err(Error::Protocol("missing genesis grant"));
            },
            Some(g) => g.clone(),
        };
        if !genesis.capsule_id.same(&id) {
            return Err(Error::Protocol("genesis capsule mismatch"));
        }
        match store.add_capsule(genesis, grant) {
            Ok(()) => Ok(()),
            Err(e) => Err(Error::Core(e)),
        }
    } else if store.inbox.len() >= MAX_INBOX_ENTRIES {
        Err(Error::Authorization("inbox quota exceeded"))
    } else {
        Ok(())
    }
}

/// What keeps a snapshot from its shelf.
pub open spec fn commit_fault(s: Map<Seq<int>, CapsuleV>, raw: RawManifest) -> Option<Error> {
    if raw.manifest.scope is Full {
        let k = raw.manifest.capsule_id->0.rank();
        if !s.dom().contains(k) {
            Some(Error::Protocol("receiver lacks capsule genesis"))
        } else {
            match snapshot_fault_v(s[k], raw) {
                Some(e) => Some(Error::Core(e)),
                None => None,
            }
        }
    } else {
        None
    }
}

/// The shelf with a snapshot of a capsule on it.
pub open spec fn committed(s: Map<Seq<int>, CapsuleV>, raw: RawManifest, at: String) -> Map<
    Seq<int>,
    CapsuleV,
> {
    if raw.manifest.scope is Full {
        let k = raw.manifest.capsule_id->0.rank();
        s.insert(
            k,
            with_snapshot(
                s[k],
                SnapshotRecord {
                    raw,
                    received_at: at,
                    orphan: !parents_known(raw.manifest.parents@, s[k].snapshots.dom()),
                },
            ),
        )
    } else {
        s
    }
}

/// The item of the inbox for a snapshot.
pub open spec fn is_item(e: InboxEntry, raw: RawManifest, from: PeerId, at: String) -> bool {
    &&& e.snapshot_id == raw.id
    &&& e.manifest == raw.bytes
    &&& e.from@ == hex_text(from.0@)
    &&& e.received_at == at
    &&& !e.read
}

/// Puts a snapshot into its capsule or into the inbox; tells whether it went into a capsule.
pub fn commit_manifest(store: &mut AbraStore, raw: RawManifest, from: PeerId, at: String) -> (r: Result<
    bool,
    Error,
>)
    requires
        old(store).wf(),
        raw.manifest.scope is Full ==> raw.manifest.capsule_id is Some,
    ensures
        final(store).wf(),
        ({
            let s = shelf(old(store).capsules@);
            match r {
                Err(e) => commit_fault(s, raw) == Some(e) && shelf(final(store).capsules@) == s
                    && final(store).inbox == old(store).inbox,
                Ok(full) => {
                    &&& commit_fault(s, raw) is None
                    &&& full == (raw.manifest.scope is Full)
                    &&& shelf(final(store).capsules@) == committed(s, raw, at)
                    &&& full ==> final(store).inbox == old(store).inbox
                    &&& !full ==> exists|e: InboxEntry| #[trigger]
                        is_item(e, raw, from, at) && final(store).inbox@ == old(store).inbox@.insert(
                            raw.id.rank(),
                            e,
                        )
                },
            }
        }),
{
    if raw.manifest.scope == Scope::Full {
        let id = match &raw.manifest.capsule_id {
            Some(id) => *id,
            None => {
                return Err(Error::Protocol("receiver lacks capsule genesis"));
            },
        };
        if !store.capsules.contains(&id) {
            return Err(Error::Protocol("receiver lacks capsule genesis"));
        }
        match store.receive_full(raw, at, None) {
            Ok(_) => Ok(true),
            Err(e) => Err(Error::Core(e)),
        }
    } else {
        let hex = from.to_hex();
        let ghost item = InboxEntry {
            snapshot_id: raw.id,
            manifest: raw.bytes,
            from: hex,
            received_at: at,
            read: false,
        };
        match store.receive_partial(raw, hex, at) {
            Ok(_) => {
                assert(is_item(item, raw, from, at));
                Ok(false)
            },
            Err(e) => Err(Error::Core(e)),
        }
    }
}

/// The capsule with the label of a fork.
pub open spec fn fork_labelled(
    c: CapsuleV,
    after: CapsuleV,
    offer: Offer,
    now: u64,
    signer: Identity,
) -> bool {
    exists|op: LabelOp, me: PeerId|
        {
            &&& me.0@ == signer.peer()
            &&& is_fork_label(c, offer.capsule_id->0, offer.snapshot_id, signer, op)
            &&& shows_time(now as int, op.at@)
            &&& #[trigger] label_fault_v(c, op, me) is None
            &&& after == with_label(c, op, me)
        }
}

/// Why the label of a fork cannot be put.
pub open spec fn fork_refused(
    c: CapsuleV,
    offer: Offer,
    now: u64,
    signer: Identity,
    e: crate::error::Error,
) -> bool {
    let seq = next_fork_seq(c, offer.snapshot_id);
    if seq > u64::MAX {
        e == crate::error::Error::Invalid("label sequence exhausted")
    } else if held_epoch(c) > crate::canonical::MAX {
        e == number_error(held_epoch(c))
    } else if seq > crate::canonical::MAX {
        e == number_error(seq as u64)
    } else {
        exists|op: LabelOp, me: PeerId|
            {
                &&& me.0@ == signer.peer()
                &&& is_fork_label(c, offer.capsule_id->0, offer.snapshot_id, signer, op)
                &&& shows_time(now as int, op.at@)
                &&& #[trigger] label_fault_v(c, op, me) == Some(e)
            }
    }
}

/// `main` stands where the offer puts it once the offer's state was adopted.
pub open spec fn becomes_head(d: TrustDisk, c: CapsuleV, offer: Offer, now: u64) -> bool {
    offer_adopted(d, c, offer, now) matches Ok((after, b)) && b
}

/// The capsule once the offer's state was adopted, where it can be.
pub open spec fn after_adoption(d: TrustDisk, c: CapsuleV, offer: Offer, now: u64) -> CapsuleV {
    match offer_adopted(d, c, offer, now) {
        Ok((after, b)) => after,
        Err(e) => c,
    }
}

/// The statements that wait once the offer's has been added, where it could not be followed.
pub open spec fn kept_waiting(p: Map<Seq<int>, Vec<LabelOp>>, offer: Offer, head: bool) -> Seq<LabelOp> {
    let w = waiting(p, offer.capsule_id->0.rank());
    if !head && offer.main_label is Some {
        with_waiting(w, offer.main_label->0)
    } else {
        w
    }
}

/// The shelf `s2` and the waiting statements `p2`, from `s` and `p`: either `main` stands where the
/// offer puts it, or the snapshot has the label of a fork, and the statement about `main` waits. In
/// either case all that wait have been tried again. `c` is the capsule before that.
pub open spec fn settled_capsule(
    d: TrustDisk,
    signer: Identity,
    s: Map<Seq<int>, CapsuleV>,
    p: Map<Seq<int>, Vec<LabelOp>>,
    offer: Offer,
    now: u64,
    s2: Map<Seq<int>, CapsuleV>,
    p2: Map<Seq<int>, Vec<LabelOp>>,
    c: CapsuleV,
) -> bool {
    let k = offer.capsule_id->0.rank();
    let head = becomes_head(d, s[k], offer, now);
    let adopted = after_adoption(d, s[k], offer, now);
    let kept = kept_waiting(p, offer, head);
    &&& if head {
        c == adopted
    } else {
        fork_labelled(adopted, c, offer, now, signer)
    }
    &&& s2 == retried(s.insert(k, c), kept).0
    &&& forall|q: Seq<int>| #[trigger]
        waiting(p2, q) == if q == k {
            retried(s.insert(k, c), kept).1
        } else {
            waiting(p, q)
        }
}

/// What becomes of a snapshot that has come into its capsule, and of the statements that wait.
/// Where the label of a fork cannot be put, what the offer brings is adopted all the same.
pub open spec fn capsule_outcome(
    d: TrustDisk,
    signer: Identity,
    s: Map<Seq<int>, CapsuleV>,
    p: Map<Seq<int>, Vec<LabelOp>>,
    offer: Offer,
    now: u64,
    s2: Map<Seq<int>, CapsuleV>,
    p2: Map<Seq<int>, Vec<LabelOp>>,
    r: Result<bool, Error>,
) -> bool {
    let k = offer.capsule_id->0.rank();
    let head = becomes_head(d, s[k], offer, now);
    let adopted = after_adoption(d, s[k], offer, now);
    match r {
        Ok(b) => b == head && exists|c: CapsuleV| #[trigger]
            settled_capsule(d, signer, s, p, offer, now, s2, p2, c),
        Err(Error::Core(e)) => {
            &&& !head
            &&& fork_refused(adopted, offer, now, signer, e)
            &&& s2 == s.insert(k, adopted)
            &&& forall|q: Seq<int>| #[trigger]
                waiting(p2, q) == if q == k {
                    kept_waiting(p, offer, false)
                } else {
                    waiting(p, q)
                }
        },
        Err(_) => false,
    }
}

/// Puts the label of a fork on the snapshot of an offer.
fn put_fork_label(
    store: &mut AbraStore,
    offer: &Offer,
    capsule_id: Digest,
    now: u64,
    signer: &Identity,
) -> (r: Result<(), crate::error::Error>)
    requires
        old(store).wf(),
        offer.capsule_id == Some(capsule_id),
        old(store).has(capsule_id),
    ensures
        final(store).wf(),
        final(store).inbox == old(store).inbox,
        ({
            let c = old(store).at(capsule_id);
            let s = shelf(old(store).capsules@);
            let t = shelf(final(store).capsules@);
            match r {
                Err(e) => fork_refused(c, *offer, now, *signer, e) && t == s,
                Ok(()) => exists|after: CapsuleV| #[trigger]
                    fork_labelled(c, after, *offer, now, *signer) && t == s.insert(
                        capsule_id.rank(),
                        after,
                    ),
            }
        }),
{
    let ghost c = store.at(capsule_id);
    let ghost s = shelf(store.capsules@);
    let ghost k = capsule_id.rank();
    let name = fork_label(&offer.snapshot_id);
    match store.capsules.get(&capsule_id) {
        Some(held) => match held.label(name.as_str()) {
            Some(old_op) => {
                if old_op.seq == u64::MAX {
                    assert(next_fork_seq(c, offer.snapshot_id) > u64::MAX);
                    return Err(crate::error::Error::Invalid("label sequence exhausted"));
                }
            },
            None => {},
        },
        None => {},
    }
    let at = format_time(now);
    let ghost when = at;
    let r = store.record_fork_label(capsule_id, offer.snapshot_id, at, signer);
    let ghost answer = r;
    proof {
        let after = choose|after: CapsuleV|
            {
                &&& #[trigger] fork_signed(
                    c,
                    after,
                    capsule_id,
                    offer.snapshot_id,
                    when,
                    *signer,
                    answer,
                )
                &&& shelf(store.capsules@) == s.insert(k, after)
            };
        assert(s.dom().contains(k));
        assert(s[k] == c);
        match answer {
            Err(e) => {
                assert(s.insert(k, c) =~= s);
                if held_epoch(c) <= crate::canonical::MAX && next_fork_seq(c, offer.snapshot_id)
                    <= crate::canonical::MAX {
                    let (op, me) = choose|op: LabelOp, me: PeerId|
                        me.0@ == signer.peer() && is_fork_label(
                            c,
                            capsule_id,
                            offer.snapshot_id,
                            *signer,
                            op,
                        ) && op.at == when && #[trigger] label_fault_v(c, op, me) == Some(e);
                    assert(label_fault_v(c, op, me) == Some(e));
                }
            },
            Ok(op) => {
                let me = choose|me: PeerId|
                    me.0@ == signer.peer() && label_fault_v(c, op, me) is None && after
                        == #[trigger] with_label(c, op, me);
                assert(label_fault_v(c, op, me) is None);
                assert(fork_labelled(c, after, *offer, now, *signer));
            },
        }
    }
    match r {
        Err(e) => Err(e),
        Ok(_) => Ok(()),
    }
}

/// Settles a snapshot that has come into its capsule; tells whether `main` stands where the offer
/// puts it.
pub fn settle_capsule(
    store: &mut AbraStore,
    trust: &TrustStore,
    pending: &mut Pending,
    offer: &Offer,
    capsule_id: Digest,
    now: u64,
    signer: &Identity,
) -> (r: Result<bool, Error>)
    requires
        old(store).wf(),
        old(pending).wf(),
        trust.wf(),
        offer.capsule_id == Some(capsule_id),
        old(store).has(capsule_id),
    ensures
        final(store).wf(),
        final(pending).wf(),
        final(store).inbox == old(store).inbox,
        capsule_outcome(
            trust.disk,
            *signer,
            shelf(old(store).capsules@),
            old(pending)@,
            *offer,
            now,
            shelf(final(store).capsules@),
            final(pending)@,
            r,
        ),
{
    let ghost s = shelf(store.capsules@);
    let ghost k = capsule_id.rank();
    let ghost p = pending@;
    let ghost c0 = s[k];
    let adopted = adopt_offer_capsule_state(store, trust, offer, now);
    let head = match adopted {
        Ok(b) => b,
        Err(_) => false,
    };
    let ghost c1 = after_adoption(trust.disk, c0, *offer, now);
    let ghost mut c2: CapsuleV = c1;
    assert(shelf(store.capsules@) =~= s.insert(k, c1));
    assert(store.has(capsule_id)) by {
        assert(shelf(store.capsules@).dom().contains(k));
    }
    assert(store.at(capsule_id) == c1) by {
        assert(shelf(store.capsules@)[k] == c1);
    }
    if !head {
        match &offer.main_label {
            Some(op) => {
                insert_pending_main_label(pending, capsule_id, op.clone());
            },
            None => {},
        }
        let ghost before = shelf(store.capsules@);
        match put_fork_label(store, offer, capsule_id, now, signer) {
            Err(e) => {
                assert(shelf(store.capsules@) =~= s.insert(k, c1));
                return Err(Error::Core(e));
            },
            Ok(()) => {
                proof {
                    c2 = choose|c: CapsuleV| #[trigger]
                        fork_labelled(c1, c, *offer, now, *signer) && shelf(store.capsules@)
                            == before.insert(k, c);
                    assert(shelf(store.capsules@) =~= s.insert(k, c2));
                }
            },
        }
    }
    assert(waiting(pending@, k) == kept_waiting(p, *offer, head));
    let ghost p1 = pending@;
    retry_pending_main_labels(store, pending, capsule_id);
    proof {
        assert forall|q: Seq<int>| q != k implies waiting(p1, q) == #[trigger] waiting(p, q) by {}
        assert(settled_capsule(
            trust.disk,
            *signer,
            s,
            p,
            *offer,
            now,
            shelf(store.capsules@),
            pending@,
            c2,
        ));
    }
    Ok(head)
}

/// The word for where a snapshot went.
pub open spec fn shelf_text(full: bool, head: bool) -> Seq<char> {
    if !full {
        "inbox"@
    } else if head {
        "capsule-head"@
    } else {
        "capsule-fork"@
    }
}

/// The members of the event of an arrival.
pub open spec fn arrival_members(offer: Offer, ack: Ack, from: PeerId, via: Via) -> Members {
    let full = offer.scope is Full;
    let event = JsonV::Str(
        if full {
            "capsule-sync"@
        } else {
            "inbox-arrival"@
        },
    );
    let at = JsonV::Str(ack.received_at@);
    let sender = JsonV::Str(hex_text(from.0@));
    let id = JsonV::Str(hex_text(ack.snapshot_id.0@));
    if via is Relay {
        seq![
            ("at"@, at),
            ("event"@, event),
            ("from"@, sender),
            ("snapshot_id"@, id),
            ("via"@, JsonV::Str(via_text(via))),
        ]
    } else if full {
        seq![
            ("at"@, at),
            (
                "capsule_id"@,
                match offer.capsule_id {
                    Some(c) => JsonV::Str(hex_text(c.0@)),
                    None => JsonV::Null,
                },
            ),
            ("event"@, event),
            ("from"@, sender),
            ("scope"@, JsonV::Str("full"@)),
            ("snapshot_id"@, id),
        ]
    } else {
        seq![
            ("at"@, at),
            ("event"@, event),
            ("from"@, sender),
            ("scope"@, JsonV::Str("partial"@)),
            ("snapshot_id"@, id),
        ]
    }
}

/// The event of an arrival. One that came through a relay says so; one that came directly says what
/// it belongs to.
pub fn arrival_event(offer: &Offer, ack: &Ack, from: PeerId, via: Via) -> (r: Json)
    ensures
        r@ == JsonV::Obj(arrival_members(*offer, *ack, from, via)),
{
    let full = offer.scope == Scope::Full;
    let event = if full {
        "capsule-sync"
    } else {
        "inbox-arrival"
    };
    let mut f = Fields::new();
    f.put_str("at", ack.received_at.as_str());
    if via == Via::Direct && full {
        let capsule = match &offer.capsule_id {
            Some(c) => Json::Str(c.to_hex()),
            None => Json::Null,
        };
        f.put("capsule_id", capsule);
    }
    f.put_str("event", event);
    f.put_str("from", from.to_hex().as_str());
    if via == Via::Direct {
        f.put_str(
            "scope",
            if full {
                "full"
            } else {
                "partial"
            },
        );
    }
    f.put_str("snapshot_id", ack.snapshot_id.to_hex().as_str());
    if via == Via::Relay {
        f.put_str("via", via.as_str());
    }
    assert(f.so_far() =~= arrival_members(*offer, *ack, from, via));
    f.done()
}

/// An event can be logged: it has a name and a time.
pub open spec fn is_event(v: JsonV) -> bool {
    (member(v, "event"@) matches Some(e) && e is Str) && (member(v, "at"@) matches Some(t) && t
        is Str)
}

/// Accepts an event for the log.
pub fn check_event(value: &Json) -> (r: Result<(), Error>)
    ensures
        r == if is_event(value@) {
            Ok::<(), Error>(())
        } else {
            Err(Error::Protocol("event line requires event and at"))
        },
{
    let named = match value.get("event") {
        Some(v) => v.as_str().is_some(),
        None => false,
    };
    let timed = match value.get("at") {
        Some(v) => v.as_str().is_some(),
        None => false,
    };
    if named && timed {
        Ok(())
    } else {
        Err(Error::Protocol("event line requires event and at"))
    }
}

/// The receipt and the event of a snapshot that was taken in.
pub open spec fn concluded(
    settled: Result<bool, Error>,
    full: bool,
    offer: Offer,
    sender: PeerId,
    now: u64,
    via: Via,
    signer: Identity,
    r: Result<ReceivedOffer, Error>,
) -> bool {
    match settled {
        Err(e) => r == Err::<ReceivedOffer, Error>(e),
        Ok(head) => if !offer_id_valid(offer.offer_id@) {
            r == Err::<ReceivedOffer, Error>(Error::Protocol("bad offer id"))
        } else {
            r matches Ok(x) && {
                &&& x.ack.message_type@ == "ack"@
                &&& x.ack.offer_id == offer.offer_id
                &&& x.ack.snapshot_id == offer.snapshot_id
                &&& shows_time(now as int, x.ack.received_at@)
                &&& x.ack.shelf@ == shelf_text(full, head)
                &&& signature_of(
                    signer,
                    "ack"@,
                    ack_bytes(
                        offer.offer_id@,
                        offer.snapshot_id,
                        sender.0@,
                        signer.peer(),
                        shelf_text(full, head),
                    ),
                    x.ack.sig,
                )
                &&& x.event@ == JsonV::Obj(arrival_members(offer, x.ack, sender, via))
            }
        },
    }
}

/// Takes in a snapshot that was offered, however it came: begins its capsule on first sight, puts it
/// on its shelf, adopts the state that came with the offer, and signs the receipt.
pub fn finalize_received_offer(
    store: &mut AbraStore,
    trust: &TrustStore,
    pending: &mut Pending,
    raw: RawManifest,
    offer: &Offer,
    sender: PeerId,
    now: u64,
    via: Via,
    signer: &Identity,
) -> (r: Result<ReceivedOffer, Error>)
    requires
        old(store).wf(),
        old(pending).wf(),
        trust.wf(),
        raw.manifest.scope is Full ==> raw.manifest.capsule_id is Some,
        offer.capsule_id == raw.manifest.capsule_id,
    ensures
        final(store).wf(),
        final(pending).wf(),
        ({
            let s = shelf(old(store).capsules@);
            let t = shelf(final(store).capsules@);
            let full = raw.manifest.scope is Full;
            let k = raw.manifest.capsule_id->0.rank();
            let refused = admission_fault(s, old(store).inbox.entries@.len(), raw, *offer);
            let s1 = admitted(s, raw, *offer);
            match refused {
                Some(e) => r == Err::<ReceivedOffer, Error>(e) && t == s && final(store).inbox
                    == old(store).inbox && *final(pending) == *old(pending),
                None => match commit_fault(s1, raw) {
                    Some(e) => r == Err::<ReceivedOffer, Error>(e) && t == s1 && final(store).inbox
                        == old(store).inbox && *final(pending) == *old(pending),
                    None => exists|at: String|
                        {
                            let s2 = #[trigger] committed(s1, raw, at);
                            &&& shows_time(now as int, at@)
                            &&& !full ==> t == s && *final(pending) == *old(pending) && exists|
                                e: InboxEntry,
                            | #[trigger]
                                is_item(e, raw, sender, at) && final(store).inbox@ == old(
                                    store,
                                ).inbox@.insert(raw.id.rank(), e)
                            &&& full ==> final(store).inbox == old(store).inbox
                            &&& exists|settled: Result<bool, Error>|
                                {
                                    &&& full ==> capsule_outcome(
                                        trust.disk,
                                        *signer,
                                        s2,
                                        old(pending)@,
                                        *offer,
                                        now,
                                        t,
                                        final(pending)@,
                                        settled,
                                    )
                                    &&& !full ==> settled == Ok::<bool, Error>(false)
                                    &&& #[trigger] concluded(
                                        settled,
                                        full,
                                        *offer,
                                        sender,
                                        now,
                                        via,
                                        *signer,
                                        r,
                                    )
                                }
                        },
                },
            }
        }),
{
    let ghost s = shelf(store.capsules@);
    let ghost inbox = store.inbox;
    let full = raw.manifest.scope == Scope::Full;
    let capsule = raw.manifest.capsule_id;
    let ghost whole = raw;
    match admit_capsule(store, &raw, offer) {
        Err(e) => {
            return Err(e);
        },
        Ok(()) => {},
    }
    let ghost s1 = admitted(s, raw, *offer);
    let at = format_time(now);
    let ghost when = at;
    match commit_manifest(store, raw, sender, at) {
        Err(e) => {
            return Err(e);
        },
        Ok(_) => {},
    }
    let ghost s2 = committed(s1, whole, when);
    assert(shelf(store.capsules@) == s2);
    let mut shelf_name = "inbox".to_owned();
    let ghost mut settled: Result<bool, Error> = Ok(false);
    if full {
        match capsule {
            None => {},
            Some(id) => {
                assert(store.has(id)) by {
                    assert(s2.dom().contains(id.rank()));
                    assert(shelf(store.capsules@).dom().contains(id.rank()));
                }
                let outcome = settle_capsule(store, trust, pending, offer, id, now, signer);
                proof {
                    settled = outcome;
                }
                let head = match outcome {
                    Err(e) => {
                        assert(concluded(
                            settled,
                            full,
                            *offer,
                            sender,
                            now,
                            via,
                            *signer,
                            Err(e),
                        ));
                        return Err(e);
                    },
                    Ok(head) => head,
                };
                shelf_name = if head {
                    "capsule-head".to_owned()
                } else {
                    "capsule-fork".to_owned()
                };
            },
        }
    }
    let ack = match Ack::sign(
        offer.offer_id.clone(),
        offer.snapshot_id,
        shelf_name,
        now,
        sender,
        signer,
    ) {
        Err(e) => {
            assert(concluded(settled, full, *offer, sender, now, via, *signer, Err(e)));
            return Err(e);
        },
        Ok(a) => a,
    };
    let event = arrival_event(offer, &ack, sender, via);
    let received = ReceivedOffer { ack, event };
    assert(concluded(settled, full, *offer, sender, now, via, *signer, Ok(received)));
    Ok(received)
}

} // verus!
