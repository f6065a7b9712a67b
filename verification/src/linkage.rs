//! What holds of links and their records: what goes into one, what is taken out, and which is which.
use vstd::prelude::*;
use vstd::utf8::encode_utf8;

use crate::base64::{base64_bytes, base64_text};
use crate::bytes::{be_value, has_prefix};
use crate::canonical::canonical_of;
use crate::capsule::{record_check, signed_record};
use crate::cas::{blake3_of, Digest};
use crate::error::Error;
use crate::history::Capsule;
use crate::identity::{Identity, PeerId};
use crate::link::{
    base64_size, blobs_fault, capsule_with, files_fault, link_fault, link_size, mint_members,
    new_record, pack_fault, packs, record_at, record_placed, records_in_order, CapabilityPack,
    LinkMode, MintRecord, PackBlob,
};
use crate::manifest::RawManifest;
use crate::order::{char_rank, lex_asymmetric, lex_before, lex_total, lex_transitive, Key};
use crate::util::hex_text;

verus! {

/// The objects of a pack are in order, from a place on, exactly where each can be read and has the
/// hash that it goes by.
pub proof fn packed_objects_are_true(s: Seq<PackBlob>, i: int)
    requires
        0 <= i,
    ensures
        blobs_fault(s, i) is None <==> forall|j: int|
            i <= j < s.len() ==> base64_bytes((#[trigger] s[j]).data@) is Some && blake3_of(
                base64_bytes(s[j].data@)->0,
            ) == s[j].digest.0@,
    decreases s.len() - i,
{
    if i < s.len() {
        packed_objects_are_true(s, i + 1);
        if blobs_fault(s, i) is None {
            assert forall|j: int| i <= j < s.len() implies base64_bytes((#[trigger] s[j]).data@)
                is Some && blake3_of(base64_bytes(s[j].data@)->0) == s[j].digest.0@ by {
                if j == i {
                    assert(base64_bytes(s[i].data@) is Some);
                }
            }
        } else if forall|j: int|
            i <= j < s.len() ==> base64_bytes((#[trigger] s[j]).data@) is Some && blake3_of(
                base64_bytes(s[j].data@)->0,
            ) == s[j].digest.0@ {
            assert(base64_bytes(s[i].data@) is Some);
        }
    }
}

/// What a pack holds is what it says: a manifest with the id that it gives, and objects with the
/// hashes that they go by.
pub proof fn packs_are_checked(p: CapabilityPack, read: Result<RawManifest, Error>)
    requires
        pack_fault(p, read) is None,
    ensures
        p.spec@ == "0.1"@,
        p.pack_type@ == "capability-pack"@,
        base64_bytes(p.manifest_raw@) is Some,
        read is Ok,
        read->Ok_0.id == p.snapshot_id,
        forall|j: int|
            0 <= j < p.blobs@.len() ==> base64_bytes((#[trigger] p.blobs@[j]).data@) is Some
                && blake3_of(base64_bytes(p.blobs@[j].data@)->0) == p.blobs@[j].digest.0@,
{
    packed_objects_are_true(p.blobs@, 0);
}

/// A link is made of objects of up to 32 MiB, which together with the manifest and the envelope come
/// to no more than 64 MiB. Their sizes add up.
pub proof fn links_are_bounded(start: int, s: Seq<(Digest, Vec<u8>)>)
    ensures
        link_size(start, s) is Ok ==> {
            &&& forall|i: int| 0 <= i < s.len() ==> (#[trigger] s[i]).1@.len() <= 33_554_432
            &&& s.len() > 0 ==> link_size(start, s)->Ok_0 <= 67_108_864 - 53
            &&& s.len() > 0 ==> link_size(start, s.drop_last()) is Ok && link_size(start, s)->Ok_0
                == link_size(start, s.drop_last())->Ok_0 + base64_size(s.last().1@.len() as int)
            &&& s.len() == 0 ==> link_size(start, s)->Ok_0 == start
        },
    decreases s.len(),
{
    if s.len() > 0 {
        links_are_bounded(start, s.drop_last());
        assert forall|i: int| link_size(start, s) is Ok && 0 <= i < s.len() implies (
        #[trigger] s[i]).1@.len() <= 33_554_432 by {
            if i < s.len() - 1 {
                assert(s.drop_last()[i] == s[i]);
            }
        }
    }
}

/// The outside of a link: it begins with its mark and the number of its cipher, was not taken back,
/// has not run out, and is as long as it says, which is at most 64 MiB.
pub proof fn link_outside(blob: Seq<u8>, now: u64)
    ensures
        link_fault(blob, now) is None <==> {
            &&& 37 <= blob.len() <= 67_108_864
            &&& !has_prefix(blob, encode_utf8("ABRACAPX"@))
            &&& has_prefix(blob, encode_utf8("ABRACAP1"@))
            &&& blob[8] == 2
            &&& now <= be_value(blob.subrange(21, 29))
            &&& blob.len() == 37 + be_value(blob.subrange(29, 37))
        },
{
}

/// A capsule is found for a snapshot exactly where one has it, and it is the first that has.
pub proof fn snapshots_are_found(s: Seq<(Digest, Capsule)>, id: Digest, i: int)
    requires
        0 <= i <= s.len(),
    ensures
        ({
            let at = capsule_with(s, id, i);
            &&& i <= at <= s.len()
            &&& at < s.len() ==> s[at].1.snapshots@.dom().contains(id.rank())
            &&& forall|j: int|
                i <= j < at ==> !(#[trigger] s[j]).1.snapshots@.dom().contains(id.rank())
        }),
    decreases s.len() - i,
{
    if i < s.len() && !s[i].1.snapshots@.dom().contains(id.rank()) {
        snapshots_are_found(s, id, i + 1);
    }
}

/// A record is found by its id exactly where there is one, and it is the first with that id.
pub proof fn records_are_found(s: Seq<MintRecord>, id: Seq<char>, i: int)
    requires
        0 <= i <= s.len(),
    ensures
        ({
            let at = record_at(s, id, i);
            &&& i <= at <= s.len()
            &&& at < s.len() ==> s[at].link_id@ == id
            &&& forall|j: int| i <= j < at ==> (#[trigger] s[j]).link_id@ != id
        }),
    decreases s.len() - i,
{
    if i < s.len() && s[i].link_id@ != id {
        records_are_found(s, id, i + 1);
    }
}

/// Records are taken from their files only where every file is canonical and this device signed what
/// is in it.
pub proof fn records_are_our_own(s: Seq<(Vec<u8>, MintRecord)>, me: PeerId, i: int)
    requires
        0 <= i,
    ensures
        files_fault(s, me, i) is None <==> forall|j: int|
            i <= j < s.len() ==> canonical_of((#[trigger] s[j]).0@) is Ok && record_check(
                me,
                "cap-mint"@,
                mint_members(s[j].1, None),
                s[j].1.sig,
            ) is Ok,
    decreases s.len() - i,
{
    if i < s.len() {
        records_are_our_own(s, me, i + 1);
        if files_fault(s, me, i) is None {
            assert forall|j: int| i <= j < s.len() implies canonical_of((#[trigger] s[j]).0@) is Ok
                && record_check(me, "cap-mint"@, mint_members(s[j].1, None), s[j].1.sig) is Ok by {
                if j == i {
                    assert(canonical_of(s[i].0@) is Ok);
                }
            }
        } else if forall|j: int|
            i <= j < s.len() ==> canonical_of((#[trigger] s[j]).0@) is Ok && record_check(
                me,
                "cap-mint"@,
                mint_members(s[j].1, None),
                s[j].1.sig,
            ) is Ok {
            assert(canonical_of(s[i].0@) is Ok);
        }
    }
}

/// No record stands behind one with a later id.
pub open spec fn ids_ascend(s: Seq<MintRecord>) -> bool {
    forall|i: int, j: int|
        0 <= i < j < s.len() ==> !lex_before(
            char_rank((#[trigger] s[j]).link_id@),
            char_rank((#[trigger] s[i]).link_id@),
        )
}

proof fn placing_keeps_ids(s: Seq<MintRecord>, x: MintRecord)
    requires
        ids_ascend(s),
    ensures
        ids_ascend(record_placed(s, x)),
        forall|y: MintRecord| #[trigger] record_placed(s, x).contains(y) <==> s.contains(y) || y == x,
        record_placed(s, x).len() == s.len() + 1,
    decreases s.len(),
{
    let t = record_placed(s, x);
    let rx = char_rank(x.link_id@);
    if s.len() == 0 || !lex_before(rx, char_rank(s.last().link_id@)) {
        assert forall|i: int, j: int| 0 <= i < j < t.len() implies !lex_before(
            char_rank((#[trigger] t[j]).link_id@),
            char_rank((#[trigger] t[i]).link_id@),
        ) by {
            if j == s.len() && i < s.len() - 1 {
                let (last, early) = (char_rank(s.last().link_id@), char_rank(s[i].link_id@));
                assert(!lex_before(last, early));
                lex_total(last, early);
                if lex_before(rx, early) && early != last {
                    lex_transitive(rx, early, last);
                }
            }
        }
        assert forall|y: MintRecord| #[trigger] t.contains(y) <==> s.contains(y) || y == x by {
            if t.contains(y) {
                let k = choose|k: int| 0 <= k < t.len() && t[k] == y;
                if k < s.len() {
                    assert(s[k] == y);
                }
            }
            if s.contains(y) {
                let k = choose|k: int| 0 <= k < s.len() && s[k] == y;
                assert(t[k] == y);
            }
            assert(t[s.len() as int] == x);
        }
    } else {
        let front = s.drop_last();
        assert(ids_ascend(front)) by {
            assert forall|i: int, j: int| 0 <= i < j < front.len() implies !lex_before(
                char_rank((#[trigger] front[j]).link_id@),
                char_rank((#[trigger] front[i]).link_id@),
            ) by {
                assert(front[j] == s[j] && front[i] == s[i]);
            }
        }
        placing_keeps_ids(front, x);
        let p = record_placed(front, x);
        let last = char_rank(s.last().link_id@);
        assert forall|i: int| 0 <= i < p.len() implies !lex_before(
            last,
            char_rank((#[trigger] p[i]).link_id@),
        ) by {
            assert(p.contains(p[i]));
            if p[i] == x {
                lex_asymmetric(rx, last);
            } else {
                let k = choose|k: int| 0 <= k < front.len() && front[k] == p[i];
                assert(s[k] == p[i]);
                assert(s[s.len() - 1] == s.last());
            }
        }
        assert forall|i: int, j: int| 0 <= i < j < t.len() implies !lex_before(
            char_rank((#[trigger] t[j]).link_id@),
            char_rank((#[trigger] t[i]).link_id@),
        ) by {
            assert(t[i] == p[i]);
            if j < p.len() {
                assert(t[j] == p[j]);
            }
        }
        assert forall|y: MintRecord| #[trigger] t.contains(y) <==> s.contains(y) || y == x by {
            if t.contains(y) {
                let k = choose|k: int| 0 <= k < t.len() && t[k] == y;
                if k < p.len() {
                    assert(p[k] == y);
                    assert(p.contains(y));
                    if front.contains(y) {
                        let i = choose|i: int| 0 <= i < front.len() && front[i] == y;
                        assert(s[i] == y);
                    }
                } else {
                    assert(s[s.len() - 1] == y);
                }
            }
            if y == x || s.contains(y) {
                if y == x || front.contains(y) {
                    assert(p.contains(y));
                    let k = choose|k: int| 0 <= k < p.len() && p[k] == y;
                    assert(t[k] == y);
                } else {
                    let i = choose|i: int| 0 <= i < s.len() && s[i] == y;
                    if i < front.len() {
                        assert(front[i] == y);
                    }
                    assert(t[p.len() as int] == s.last());
                }
            }
        }
    }
}

/// Records are listed by the ids of their links, all of them and no others.
pub proof fn records_are_listed(s: Seq<MintRecord>)
    ensures
        ids_ascend(records_in_order(s)),
        records_in_order(s).len() == s.len(),
        forall|y: MintRecord| #[trigger] records_in_order(s).contains(y) <==> s.contains(y),
    decreases s.len(),
{
    if s.len() > 0 {
        let front = s.drop_last();
        records_are_listed(front);
        placing_keeps_ids(records_in_order(front), s.last());
        assert forall|y: MintRecord| #[trigger] records_in_order(s).contains(y) <==> s.contains(
            y,
        ) by {
            if s.contains(y) {
                let i = choose|i: int| 0 <= i < s.len() && s[i] == y;
                if i < front.len() {
                    assert(front[i] == y);
                    assert(front.contains(y));
                }
            }
            if front.contains(y) {
                let i = choose|i: int| 0 <= i < front.len() && front[i] == y;
                assert(s[i] == y);
            }
            assert(s[s.len() - 1] == s.last());
        }
    }
}

/// The record of a new link is about the snapshot, for as long and in the way that was asked for, is in
/// force, and is signed by this device.
pub proof fn new_links_are_in_force(
    r: MintRecord,
    raw: RawManifest,
    link_id: Seq<u8>,
    expires_at: String,
    mode: LinkMode,
    url: String,
    identity: Identity,
)
    requires
        new_record(r, raw, link_id, expires_at, mode, url, identity),
    ensures
        r.snapshot_id == raw.id,
        r.expires_at == expires_at,
        r.mode == mode,
        r.url == url,
        !r.revoked,
        r.link_id@ == hex_text(link_id),
        signed_record(identity, "cap-mint"@, mint_members(r, None), r.sig),
{
}

/// A pack holds the manifest and every object that was put into it, as they are, and nothing else.
pub proof fn packs_hold_what_is_put_in(
    p: CapabilityPack,
    raw: RawManifest,
    objects: Seq<(Digest, Vec<u8>)>,
)
    requires
        packs(p, raw, objects),
    ensures
        p.snapshot_id == raw.id,
        p.manifest_raw@ == base64_text(raw.bytes@),
        p.blobs@.len() == objects.len(),
        forall|i: int|
            0 <= i < objects.len() ==> (#[trigger] p.blobs@[i]).digest == objects[i].0
                && p.blobs@[i].data@ == base64_text(objects[i].1@),
{
}

} // verus!
