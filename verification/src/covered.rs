//! What a signature covers: everything that a record says.
use vstd::prelude::*;

use crate::capsule::{
    label_members, lease_members, lease_mode_text, LabelOp, LeaseMode, LeaseRecord,
};
use crate::distinct::hex_tells_apart;
use crate::json::JsonV;
use crate::link::{mint_members, mode_text, MintRecord};
use crate::members::{find, find_concat, find_small};
use crate::net::auth::{scopes_json, Scopes};
use crate::net::bind::{certificate_members, revocation_members, BindCertificate, Revocation};
use crate::net::control::{control_members, op_text, ControlMessage, ControlOp};
use crate::record::{opt_str, text_values};

verus! {

/// The modes of a lease are written differently.
proof fn modes_differ(a: LeaseMode, b: LeaseMode)
    requires
        lease_mode_text(a) == lease_mode_text(b),
    ensures
        a == b,
{
    reveal_strlit("grant");
    reveal_strlit("refresh");
    reveal_strlit("transfer");
    reveal_strlit("takeover");
    assert("grant"@.len() == 5 && "refresh"@.len() == 7 && "transfer"@.len() == 8
        && "takeover"@.len() == 8);
    assert("transfer"@[1] != "takeover"@[1]);
}

/// What is signed of a lease says all of it: two leases with the same text are the same but for their
/// signatures.
pub proof fn lease_is_covered(a: LeaseRecord, b: LeaseRecord)
    requires
        lease_members(a, None) == lease_members(b, None),
    ensures
        a.spec@ == b.spec@,
        a.record_type@ == b.record_type@,
        a.capsule_id == b.capsule_id,
        a.holder == b.holder,
        a.epoch == b.epoch,
        a.mode == b.mode,
        a.acquired_at@ == b.acquired_at@,
        a.expires_at@ == b.expires_at@,
        a.prev_hash == b.prev_hash,
{
    let (s, t) = (lease_members(a, None), lease_members(b, None));
    assert(s.len() == 9);
    assert(s[0] == t[0] && s[1] == t[1] && s[2] == t[2] && s[3] == t[3] && s[4] == t[4] && s[5]
        == t[5] && s[6] == t[6] && s[7] == t[7] && s[8] == t[8]);
    hex_tells_apart(a.capsule_id.0, b.capsule_id.0);
    hex_tells_apart(a.holder.0, b.holder.0);
    hex_tells_apart(a.prev_hash.0, b.prev_hash.0);
    modes_differ(a.mode, b.mode);
}

/// What is signed of a statement about a label says all of it.
pub proof fn label_is_covered(a: LabelOp, b: LabelOp)
    requires
        label_members(a, None) == label_members(b, None),
    ensures
        a.spec@ == b.spec@,
        a.record_type@ == b.record_type@,
        a.capsule_id == b.capsule_id,
        a.seq == b.seq,
        a.op@ == b.op@,
        a.name@ == b.name@,
        a.snapshot_id == b.snapshot_id,
        a.lease_epoch == b.lease_epoch,
        a.at@ == b.at@,
{
    let (s, t) = (label_members(a, None), label_members(b, None));
    assert(s.len() == 9);
    assert(s[0] == t[0] && s[1] == t[1] && s[2] == t[2] && s[3] == t[3] && s[4] == t[4] && s[5]
        == t[5] && s[6] == t[6] && s[7] == t[7] && s[8] == t[8]);
    hex_tells_apart(a.capsule_id.0, b.capsule_id.0);
    hex_tells_apart(a.snapshot_id.0, b.snapshot_id.0);
}

/// What is signed of a revocation says all of it.
pub proof fn revocation_is_covered(a: Revocation, b: Revocation)
    requires
        revocation_members(a, None) == revocation_members(b, None),
    ensures
        a.record_type@ == b.record_type@,
        a.issuer == b.issuer,
        a.token_id@ == b.token_id@,
        a.guest_peer_id == b.guest_peer_id,
        a.revoked_at@ == b.revoked_at@,
{
    let (s, t) = (revocation_members(a, None), revocation_members(b, None));
    assert(s.len() == 5);
    assert(s[0] == t[0] && s[1] == t[1] && s[2] == t[2] && s[3] == t[3] && s[4] == t[4]);
    hex_tells_apart(a.issuer.0, b.issuer.0);
    hex_tells_apart(a.guest_peer_id.0, b.guest_peer_id.0);
}

/// Lists of texts that are written alike say the same.
proof fn texts_tell_apart(a: Seq<String>, b: Seq<String>)
    requires
        text_values(a) == text_values(b),
    ensures
        a.len() == b.len(),
        forall|i: int| 0 <= i < a.len() ==> (#[trigger] a[i])@ == b[i]@,
{
    assert(text_values(a).len() == a.len());
    assert(text_values(b).len() == b.len());
    assert forall|i: int| 0 <= i < a.len() implies (#[trigger] a[i])@ == b[i]@ by {
        assert(text_values(a)[i] == JsonV::Str(a[i]@));
        assert(text_values(b)[i] == JsonV::Str(b[i]@));
    }
}

/// Scopes that are written alike allow the same.
pub proof fn scopes_are_covered(a: Scopes, b: Scopes)
    requires
        scopes_json(a) == scopes_json(b),
    ensures
        a.send == b.send,
        a.receive == b.receive,
        a.lease_acquire == b.lease_acquire,
        a.lease_takeover == b.lease_takeover,
        a.kinds@.len() == b.kinds@.len(),
        forall|i: int| 0 <= i < a.kinds@.len() ==> (#[trigger] a.kinds@[i])@ == b.kinds@[i]@,
        a.capsules@.len() == b.capsules@.len(),
        forall|i: int|
            0 <= i < a.capsules@.len() ==> (#[trigger] a.capsules@[i])@ == b.capsules@[i]@,
{
    let (s, t) = (scopes_json(a)->Obj_0, scopes_json(b)->Obj_0);
    assert(s.len() == 6);
    assert(s[0] == t[0] && s[1] == t[1] && s[2] == t[2] && s[3] == t[3] && s[4] == t[4] && s[5]
        == t[5]);
    texts_tell_apart(a.kinds@, b.kinds@);
    texts_tell_apart(a.capsules@, b.capsules@);
}

/// What is signed of a certificate says all of it.
pub proof fn certificate_is_covered(a: BindCertificate, b: BindCertificate)
    requires
        certificate_members(a, None) == certificate_members(b, None),
    ensures
        a.record_type@ == b.record_type@,
        a.token_id@ == b.token_id@,
        a.guest_peer_id == b.guest_peer_id,
        a.bound_at@ == b.bound_at@,
        a.name@ == b.name@,
        a.x25519_pk == b.x25519_pk,
        scopes_json(a.scopes) == scopes_json(b.scopes),
        a.expires_at@ == b.expires_at@,
{
    let (s, t) = (certificate_members(a, None), certificate_members(b, None));
    assert(s.len() == 8);
    assert(s[0] == t[0] && s[1] == t[1] && s[2] == t[2] && s[3] == t[3] && s[4] == t[4] && s[5]
        == t[5] && s[6] == t[6] && s[7] == t[7]);
    hex_tells_apart(a.guest_peer_id.0, b.guest_peer_id.0);
    hex_tells_apart(a.x25519_pk, b.x25519_pk);
}

proof fn orders_differ(a: ControlOp, b: ControlOp)
    requires
        op_text(a) == op_text(b),
    ensures
        a == b,
{
    reveal_strlit("pause");
    reveal_strlit("stop");
    reveal_strlit("instruct");
    assert("pause"@.len() == 5 && "stop"@.len() == 4 && "instruct"@.len() == 8);
}

/// What is signed of an order says all of it: the capsule, what is to be done, the text that goes with
/// it, when, and the number that makes it one of its kind.
pub proof fn order_is_covered(a: ControlMessage, b: ControlMessage)
    requires
        control_members(a, None) == control_members(b, None),
    ensures
        a.message_type@ == b.message_type@,
        a.capsule_id == b.capsule_id,
        a.op == b.op,
        a.text is Some <==> b.text is Some,
        a.text is Some ==> (a.text->0)@ == (b.text->0)@,
        a.at@ == b.at@,
        a.nonce@ == b.nonce@,
{
    let (s, t) = (control_members(a, None), control_members(b, None));
    assert(s[0] == t[0] && s[1] == t[1] && s[2] == t[2] && s[3] == t[3] && s[4] == t[4]);
    assert(s.len() == t.len());
    assert(s.last() == t.last());
    hex_tells_apart(a.capsule_id.0, b.capsule_id.0);
    orders_differ(a.op, b.op);
}

proof fn record_keys_differ()
    ensures
        "ciphertext_hash"@.len() == 15,
        "expires_at"@.len() == 10,
        "link_id"@.len() == 7,
        "local_path"@.len() == 10,
        "mode"@.len() == 4,
        "revoke_command"@.len() == 14,
        "revoked"@.len() == 7,
        "snapshot_id"@.len() == 11,
        "url"@.len() == 3,
        "expires_at"@ != "local_path"@,
        "link_id"@ != "revoked"@,
        "floor"@ != "full"@,
{
    reveal_strlit("ciphertext_hash");
    reveal_strlit("expires_at");
    reveal_strlit("link_id");
    reveal_strlit("local_path");
    reveal_strlit("mode");
    reveal_strlit("revoke_command");
    reveal_strlit("revoked");
    reveal_strlit("snapshot_id");
    reveal_strlit("url");
    reveal_strlit("floor");
    reveal_strlit("full");
    assert("expires_at"@[0] != "local_path"@[0]);
    assert("link_id"@[0] != "revoked"@[0]);
    assert("floor"@.len() == 5 && "full"@.len() == 4);
}

/// What is found under each key of the record of a link.
pub proof fn link_record_says(r: MintRecord, key: Seq<char>)
    ensures
        find(mint_members(r, None), key) == if key == "ciphertext_hash"@ {
            match r.ciphertext_hash {
                Some(h) => Some(JsonV::Str(crate::util::hex_text(h.0@))),
                None => None,
            }
        } else if key == "expires_at"@ {
            Some(JsonV::Str(r.expires_at@))
        } else if key == "link_id"@ {
            Some(JsonV::Str(r.link_id@))
        } else if key == "local_path"@ {
            match r.local_path {
                Some(p) => Some(JsonV::Str(p@)),
                None => None,
            }
        } else if key == "mode"@ {
            Some(JsonV::Str(mode_text(r.mode)))
        } else if key == "revoke_command"@ {
            match r.revoke_command {
                Some(p) => Some(JsonV::Str(p@)),
                None => None,
            }
        } else if key == "revoked"@ {
            Some(JsonV::Bool(r.revoked))
        } else if key == "snapshot_id"@ {
            Some(JsonV::Str(crate::util::hex_text(r.snapshot_id.0@)))
        } else if key == "url"@ {
            Some(JsonV::Str(r.url@))
        } else {
            None
        },
{
    record_keys_differ();
    let a = crate::link::opt_hash("ciphertext_hash"@, r.ciphertext_hash);
    let b1 = seq![("expires_at"@, JsonV::Str(r.expires_at@))];
    let b2 = seq![("link_id"@, JsonV::Str(r.link_id@))];
    let c = opt_str("local_path"@, r.local_path);
    let d = seq![("mode"@, JsonV::Str(mode_text(r.mode)))];
    let e = opt_str("revoke_command"@, r.revoke_command);
    let f = seq![("revoked"@, JsonV::Bool(r.revoked))];
    let g1 = seq![("snapshot_id"@, JsonV::Str(crate::util::hex_text(r.snapshot_id.0@)))];
    let g2 = seq![("url"@, JsonV::Str(r.url@))];
    let all = mint_members(r, None);
    assert(all =~= a + (b1 + (b2 + (c + (d + (e + (f + (g1 + g2))))))));
    find_concat(a, b1 + (b2 + (c + (d + (e + (f + (g1 + g2)))))), key);
    find_concat(b1, b2 + (c + (d + (e + (f + (g1 + g2))))), key);
    find_concat(b2, c + (d + (e + (f + (g1 + g2)))), key);
    find_concat(c, d + (e + (f + (g1 + g2))), key);
    find_concat(d, e + (f + (g1 + g2)), key);
    find_concat(e, f + (g1 + g2), key);
    find_concat(f, g1 + g2, key);
    find_concat(g1, g2, key);
    find_small(key, "expires_at"@, JsonV::Str(r.expires_at@));
    find_small(key, "link_id"@, JsonV::Str(r.link_id@));
    find_small(key, "mode"@, JsonV::Str(mode_text(r.mode)));
    find_small(key, "revoked"@, JsonV::Bool(r.revoked));
    find_small(key, "snapshot_id"@, JsonV::Str(crate::util::hex_text(r.snapshot_id.0@)));
    find_small(key, "url"@, JsonV::Str(r.url@));
    if let Some(h) = r.ciphertext_hash {
        find_small(key, "ciphertext_hash"@, JsonV::Str(crate::util::hex_text(h.0@)));
    }
    if let Some(p) = r.local_path {
        find_small(key, "local_path"@, JsonV::Str(p@));
    }
    if let Some(p) = r.revoke_command {
        find_small(key, "revoke_command"@, JsonV::Str(p@));
    }
}

} // verus!
