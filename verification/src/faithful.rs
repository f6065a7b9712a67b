//! What is written of a manifest is what is read of it.
use vstd::prelude::*;

use crate::canonical::{canonical_bytes, json_bytes, json_of, parse_json};
use crate::cas::Digest;
use crate::error::Error;
use crate::json::{keys_ascend, nesting, orderly, member, member_views, Json, JsonV};
use crate::manifest::{
    Lease, Manifest, NativeBlobRef, Provenance, RawManifest, Recipe, cargo_fields, floor_fields,
    hash_values, is_known_field, known_fields, lease_json, manifest_fault, manifest_fields,
    manifest_json, nat_json, native_json, native_values, natives_fault, opt_hash_json, opt_list,
    opt_nat, opt_text_json, port_values, provenance_json, recipe_check, recipe_members,
    recipe_values, recipes_fault, scope_text, shadows, source_text, text_members, with_field,
};
use crate::members::{
    fields_unique, find, find_concat, find_small, member_of_object, object_exists, table_is_finite,
    table_is_object,
};
use crate::order::{char_rank, lex_before};
use crate::reading::{
    hashes_read, items_of, lease_read, manifest_read, native_read, natives_read, provenance_read,
    recipe_read, recipes_read, unknown_of,
};
use crate::record::{
    fields_of, is_object_of, object_unique, opt_str, text_values, FieldMap, Members,
};
use crate::shape::{bytes_in, hash_view, opt_bytes_in};
use crate::util::{hex_round_trip, hex_text};

verus! {

proof fn hex_reads_back(b: [u8; 32])
    ensures
        bytes_in(Some(JsonV::Str(hex_text(b@)))) == Some(b@),
{
    hex_round_trip(b@, "hash");
}

/// A member that may be missing.
proof fn find_opt(key: Seq<char>, k: Seq<char>, v: Option<JsonV>)
    ensures
        find(
            match v {
                Some(x) => seq![(k, x)],
                None => Seq::empty(),
            },
            key,
        ) == if k == key {
            v
        } else {
            None
        },
{
    match v {
        Some(x) => {
            find_small(key, k, x);
        },
        None => {
            find_small(key, k, JsonV::Null);
        },
    }
}

spec fn opt_members(k: Seq<char>, v: Option<JsonV>) -> Members {
    match v {
        Some(x) => seq![(k, x)],
        None => Seq::empty(),
    }
}

spec fn env_value(r: Recipe) -> Option<JsonV> {
    if r.env.entries@.len() > 0 {
        Some(JsonV::Obj(text_members(r.env.entries@)))
    } else {
        None
    }
}

spec fn ports_value(r: Recipe) -> Option<JsonV> {
    if r.ports@.len() > 0 {
        Some(JsonV::Arr(port_values(r.ports@)))
    } else {
        None
    }
}

spec fn source_value(r: Recipe) -> Option<JsonV> {
    match r.source {
        Some(s) => Some(JsonV::Str(source_text(s))),
        None => None,
    }
}

spec fn nat_value_of(n: Option<u64>) -> Option<JsonV> {
    match n {
        Some(n) => Some(nat_json(n)),
        None => None,
    }
}

proof fn find_in_recipe(r: Recipe, key: Seq<char>)
    ensures
        find(recipe_members(r), key) == if key == "argv"@ {
            Some(JsonV::Arr(text_values(r.argv@)))
        } else if key == "cwd"@ {
            Some(JsonV::Str(r.cwd@))
        } else if key == "env"@ {
            env_value(r)
        } else if key == "ports"@ {
            ports_value(r)
        } else if key == "source"@ {
            source_value(r)
        } else if key == "started_at"@ {
            nat_value_of(r.started_at)
        } else {
            None
        },
{
    recipe_keys();
    let a = seq![("argv"@, JsonV::Arr(text_values(r.argv@)))];
    let b = seq![("cwd"@, JsonV::Str(r.cwd@))];
    let c = opt_members("env"@, env_value(r));
    let d = opt_members("ports"@, ports_value(r));
    let e = opt_members("source"@, source_value(r));
    let f = opt_members("started_at"@, nat_value_of(r.started_at));
    assert(recipe_members(r) =~= a + b + c + d + e + f);
    find_concat(a + b + c + d + e, f, key);
    find_concat(a + b + c + d, e, key);
    find_concat(a + b + c, d, key);
    find_concat(a + b, c, key);
    find_concat(a, b, key);
    find_small(key, "argv"@, JsonV::Arr(text_values(r.argv@)));
    find_small(key, "cwd"@, JsonV::Str(r.cwd@));
    find_opt(key, "env"@, env_value(r));
    find_opt(key, "ports"@, ports_value(r));
    find_opt(key, "source"@, source_value(r));
    find_opt(key, "started_at"@, nat_value_of(r.started_at));
}

proof fn recipe_keys()
    ensures
        "argv"@.len() == 4,
        "cwd"@.len() == 3,
        "cwd"@[0] == 'c',
        "env"@.len() == 3,
        "env"@[0] == 'e',
        "ports"@.len() == 5,
        "source"@.len() == 6,
        "started_at"@.len() == 10,
{
    reveal_strlit("argv");
    reveal_strlit("cwd");
    reveal_strlit("env");
    reveal_strlit("ports");
    reveal_strlit("source");
    reveal_strlit("started_at");
}

proof fn source_texts()
    ensures
        "observer"@[0] == 'o',
        "launcher"@[0] == 'l',
        "declared"@[0] == 'd',
{
    reveal_strlit("observer");
    reveal_strlit("launcher");
    reveal_strlit("declared");
}

proof fn recipe_reads_back(r: Recipe)
    requires
        r.env.wf(),
    ensures
        recipe_read(JsonV::Obj(recipe_members(r)), r),
{
    recipe_keys();
    source_texts();
    find_in_recipe(r, "argv"@);
    find_in_recipe(r, "cwd"@);
    find_in_recipe(r, "env"@);
    find_in_recipe(r, "ports"@);
    find_in_recipe(r, "source"@);
    find_in_recipe(r, "started_at"@);
}

proof fn native_reads_back(n: NativeBlobRef)
    ensures
        native_read(native_json(n), n),
{
    reveal_strlit("fingerprint");
    reveal_strlit("hash");
    reveal_strlit("role");
    reveal_strlit("size");
    hex_reads_back(n.hash.0);
    let m = native_json(n)->Obj_0;
    assert("fingerprint"@.len() == 11);
    assert("hash"@.len() == 4 && "hash"@[0] == 'h');
    assert("role"@.len() == 4 && "role"@[0] == 'r');
    assert("size"@.len() == 4 && "size"@[0] == 's');
    crate::json::member_at_unique(m, "fingerprint"@, 0);
    crate::json::member_at_unique(m, "hash"@, 1);
    crate::json::member_at_unique(m, "role"@, 2);
    crate::json::member_at_unique(m, "size"@, 3);
}

proof fn lease_reads_back(l: Lease)
    ensures
        lease_read(lease_json(l), l),
{
    reveal_strlit("acquired_at");
    reveal_strlit("expires_at");
    reveal_strlit("holder");
    assert("acquired_at"@.len() == 11);
    assert("expires_at"@.len() == 10);
    assert("holder"@.len() == 6);
    hex_reads_back(l.holder.0);
    let a = seq![("acquired_at"@, nat_json(l.acquired_at))];
    let b = opt_nat("expires_at"@, l.expires_at);
    let c = seq![("holder"@, JsonV::Str(hex_text(l.holder.0@)))];
    assert(b == opt_members("expires_at"@, nat_value_of(l.expires_at)));
    assert forall|key: Seq<char>| #[trigger]
        find(a + b + c, key) == if key == "acquired_at"@ {
            Some(nat_json(l.acquired_at))
        } else if key == "expires_at"@ {
            nat_value_of(l.expires_at)
        } else if key == "holder"@ {
            Some(JsonV::Str(hex_text(l.holder.0@)))
        } else {
            None
        } by {
        find_concat(a + b, c, key);
        find_concat(a, b, key);
        find_small(key, "acquired_at"@, nat_json(l.acquired_at));
        find_small(key, "holder"@, JsonV::Str(hex_text(l.holder.0@)));
        find_opt(key, "expires_at"@, nat_value_of(l.expires_at));
    }
    assert(lease_json(l) == JsonV::Obj(a + b + c));
    assert(find(a + b + c, "acquired_at"@) == Some(nat_json(l.acquired_at)));
    assert(find(a + b + c, "expires_at"@) == nat_value_of(l.expires_at));
    assert(find(a + b + c, "holder"@) is Some);
}

spec fn label_value(s: Option<String>) -> Option<JsonV> {
    match s {
        Some(t) => Some(JsonV::Str(t@)),
        None => None,
    }
}

proof fn provenance_reads_back(p: Provenance)
    ensures
        provenance_read(provenance_json(p), p),
{
    reveal_strlit("capsule_id");
    reveal_strlit("snapshot_hash");
    reveal_strlit("label");
    assert("capsule_id"@.len() == 10);
    assert("snapshot_hash"@.len() == 13);
    assert("label"@.len() == 5);
    hex_reads_back(p.capsule_id.0);
    hex_reads_back(p.snapshot_hash.0);
    let a = seq![("capsule_id"@, JsonV::Str(hex_text(p.capsule_id.0@)))];
    let b = opt_str("label"@, p.label);
    let c = seq![("snapshot_hash"@, JsonV::Str(hex_text(p.snapshot_hash.0@)))];
    assert(b == opt_members("label"@, label_value(p.label)));
    assert forall|key: Seq<char>| #[trigger]
        find(a + b + c, key) == if key == "capsule_id"@ {
            Some(JsonV::Str(hex_text(p.capsule_id.0@)))
        } else if key == "label"@ {
            label_value(p.label)
        } else if key == "snapshot_hash"@ {
            Some(JsonV::Str(hex_text(p.snapshot_hash.0@)))
        } else {
            None
        } by {
        find_concat(a + b, c, key);
        find_concat(a, b, key);
        find_small(key, "capsule_id"@, JsonV::Str(hex_text(p.capsule_id.0@)));
        find_small(key, "snapshot_hash"@, JsonV::Str(hex_text(p.snapshot_hash.0@)));
        find_opt(key, "label"@, label_value(p.label));
    }
    assert(provenance_json(p) == JsonV::Obj(a + b + c));
    assert(find(a + b + c, "capsule_id"@) is Some);
    assert(find(a + b + c, "snapshot_hash"@) is Some);
    assert(find(a + b + c, "label"@) == label_value(p.label));
}

/// The names of fields differ, by their lengths and their first letters.
proof fn field_names()
    ensures
        "abra_spec"@.len() == 9 && "abra_spec"@[0] == 'a',
        "scope"@.len() == 5 && "scope"@[0] == 's',
        "kind"@.len() == 4 && "kind"@[0] == 'k',
        "title"@.len() == 5 && "title"@[0] == 't',
        "origin"@.len() == 6 && "origin"@[0] == 'o',
        "created_at"@.len() == 10 && "created_at"@[1] == 'r',
        "summary"@.len() == 7 && "summary"@[0] == 's',
        "link"@.len() == 4 && "link"@[0] == 'l',
        "thumbnail"@.len() == 9 && "thumbnail"@[0] == 't',
        "files"@.len() == 5 && "files"@[0] == 'f',
        "recipes"@.len() == 7 && "recipes"@[0] == 'r',
        "native"@.len() == 6 && "native"@[0] == 'n',
        "extra"@.len() == 5 && "extra"@[0] == 'e',
        "capsule_id"@.len() == 10 && "capsule_id"@[1] == 'a',
        "parents"@.len() == 7 && "parents"@[0] == 'p',
        "label"@.len() == 5 && "label"@[0] == 'l' && "label"@[1] == 'a',
        "lease"@.len() == 5 && "lease"@[0] == 'l' && "lease"@[1] == 'e',
        "provenance"@.len() == 10 && "provenance"@[0] == 'p' && "provenance"@[2] == 'o',
        "created_at"@[0] == 'c',
        "capsule_id"@[0] == 'c',
{
    reveal_strlit("abra_spec");
    reveal_strlit("scope");
    reveal_strlit("kind");
    reveal_strlit("title");
    reveal_strlit("origin");
    reveal_strlit("created_at");
    reveal_strlit("summary");
    reveal_strlit("link");
    reveal_strlit("thumbnail");
    reveal_strlit("files");
    reveal_strlit("recipes");
    reveal_strlit("native");
    reveal_strlit("extra");
    reveal_strlit("capsule_id");
    reveal_strlit("parents");
    reveal_strlit("label");
    reveal_strlit("lease");
    reveal_strlit("provenance");
}

/// The value of a field.
spec fn field_of(f: FieldMap, key: Seq<char>) -> Option<JsonV> {
    if f.dom().contains(key) {
        Some(f[key])
    } else {
        None
    }
}

spec fn extra_value(m: Manifest) -> Option<JsonV> {
    if m.extra.entries@.len() > 0 {
        Some(JsonV::Obj(member_views(m.extra.entries@)))
    } else {
        None
    }
}

spec fn lease_value_of(m: Manifest) -> Option<JsonV> {
    match m.lease {
        Some(l) => Some(lease_json(l)),
        None => None,
    }
}

spec fn provenance_value_of(m: Manifest) -> Option<JsonV> {
    match m.provenance {
        Some(p) => Some(provenance_json(p)),
        None => None,
    }
}

/// The value of each field that this build knows.
spec fn known_value(m: Manifest, key: Seq<char>) -> Option<JsonV> {
    if key == "abra_spec"@ {
        Some(JsonV::Int(m.abra_spec as int))
    } else if key == "scope"@ {
        Some(JsonV::Str(scope_text(m.scope)))
    } else if key == "kind"@ {
        Some(JsonV::Str(m.kind@))
    } else if key == "title"@ {
        Some(JsonV::Str(m.title@))
    } else if key == "origin"@ {
        Some(JsonV::Str(hex_text(m.origin.0@)))
    } else if key == "created_at"@ {
        Some(nat_json(m.created_at))
    } else if key == "summary"@ {
        opt_text_json(m.summary)
    } else if key == "link"@ {
        opt_text_json(m.link)
    } else if key == "thumbnail"@ {
        opt_hash_json(m.thumbnail)
    } else if key == "files"@ {
        opt_hash_json(m.files)
    } else if key == "recipes"@ {
        opt_list(recipe_values(m.recipes@))
    } else if key == "native"@ {
        opt_list(native_values(m.native@))
    } else if key == "extra"@ {
        extra_value(m)
    } else if key == "capsule_id"@ {
        opt_hash_json(m.capsule_id)
    } else if key == "parents"@ {
        opt_list(hash_values(m.parents@))
    } else if key == "label"@ {
        opt_text_json(m.label)
    } else if key == "lease"@ {
        lease_value_of(m)
    } else if key == "provenance"@ {
        provenance_value_of(m)
    } else {
        None
    }
}

proof fn with_field_at(f: FieldMap, k: Seq<char>, v: Option<JsonV>, key: Seq<char>)
    ensures
        field_of(with_field(f, k, v), key) == if key == k && v is Some {
            v
        } else {
            field_of(f, key)
        },
{
}

proof fn known_field_values(m: Manifest, key: Seq<char>)
    ensures
        field_of(known_fields(m), key) == known_value(m, key),
        known_fields(m).dom().contains(key) ==> is_known_field(key),
{
    field_names();
    let f0 = floor_fields(m);
    let f1 = with_field(f0, "summary"@, opt_text_json(m.summary));
    let f2 = with_field(f1, "link"@, opt_text_json(m.link));
    let f3 = with_field(f2, "thumbnail"@, opt_hash_json(m.thumbnail));
    let f4 = with_field(f3, "files"@, opt_hash_json(m.files));
    let f5 = with_field(f4, "recipes"@, opt_list(recipe_values(m.recipes@)));
    let f6 = with_field(f5, "native"@, opt_list(native_values(m.native@)));
    let f7 = with_field(f6, "extra"@, extra_value(m));
    assert(f7 == cargo_fields(m));
    let f8 = with_field(f7, "capsule_id"@, opt_hash_json(m.capsule_id));
    let f9 = with_field(f8, "parents"@, opt_list(hash_values(m.parents@)));
    let f10 = with_field(f9, "label"@, opt_text_json(m.label));
    let f11 = with_field(f10, "lease"@, lease_value_of(m));
    let f12 = with_field(f11, "provenance"@, provenance_value_of(m));
    assert(f12 == known_fields(m));
    with_field_at(f11, "provenance"@, provenance_value_of(m), key);
    with_field_at(f10, "lease"@, lease_value_of(m), key);
    with_field_at(f9, "label"@, opt_text_json(m.label), key);
    with_field_at(f8, "parents"@, opt_list(hash_values(m.parents@)), key);
    with_field_at(f7, "capsule_id"@, opt_hash_json(m.capsule_id), key);
    with_field_at(f6, "extra"@, extra_value(m), key);
    with_field_at(f5, "native"@, opt_list(native_values(m.native@)), key);
    with_field_at(f4, "recipes"@, opt_list(recipe_values(m.recipes@)), key);
    with_field_at(f3, "files"@, opt_hash_json(m.files), key);
    with_field_at(f2, "thumbnail"@, opt_hash_json(m.thumbnail), key);
    with_field_at(f1, "link"@, opt_text_json(m.link), key);
    with_field_at(f0, "summary"@, opt_text_json(m.summary), key);
    assert(field_of(f0, key) == if key == "abra_spec"@ || key == "scope"@ || key == "kind"@ || key
        == "title"@ || key == "origin"@ || key == "created_at"@ {
        known_value(m, key)
    } else {
        None
    });
}

proof fn with_field_finite(f: FieldMap, k: Seq<char>, v: Option<JsonV>)
    requires
        f.dom().finite(),
    ensures
        with_field(f, k, v).dom().finite(),
{
}

proof fn fields_finite(m: Manifest)
    ensures
        manifest_fields(m).dom().finite(),
{
    let f0 = floor_fields(m);
    let f1 = with_field(f0, "summary"@, opt_text_json(m.summary));
    let f2 = with_field(f1, "link"@, opt_text_json(m.link));
    let f3 = with_field(f2, "thumbnail"@, opt_hash_json(m.thumbnail));
    let f4 = with_field(f3, "files"@, opt_hash_json(m.files));
    let f5 = with_field(f4, "recipes"@, opt_list(recipe_values(m.recipes@)));
    let f6 = with_field(f5, "native"@, opt_list(native_values(m.native@)));
    let f7 = with_field(f6, "extra"@, extra_value(m));
    let f8 = with_field(f7, "capsule_id"@, opt_hash_json(m.capsule_id));
    let f9 = with_field(f8, "parents"@, opt_list(hash_values(m.parents@)));
    let f10 = with_field(f9, "label"@, opt_text_json(m.label));
    let f11 = with_field(f10, "lease"@, lease_value_of(m));
    let f12 = with_field(f11, "provenance"@, provenance_value_of(m));
    with_field_finite(f0, "summary"@, opt_text_json(m.summary));
    with_field_finite(f1, "link"@, opt_text_json(m.link));
    with_field_finite(f2, "thumbnail"@, opt_hash_json(m.thumbnail));
    with_field_finite(f3, "files"@, opt_hash_json(m.files));
    with_field_finite(f4, "recipes"@, opt_list(recipe_values(m.recipes@)));
    with_field_finite(f5, "native"@, opt_list(native_values(m.native@)));
    with_field_finite(f6, "extra"@, extra_value(m));
    with_field_finite(f7, "capsule_id"@, opt_hash_json(m.capsule_id));
    with_field_finite(f8, "parents"@, opt_list(hash_values(m.parents@)));
    with_field_finite(f9, "label"@, opt_text_json(m.label));
    with_field_finite(f10, "lease"@, lease_value_of(m));
    with_field_finite(f11, "provenance"@, provenance_value_of(m));
    assert(f12 == known_fields(m));
    table_is_finite(m.unknown);
    let a = known_fields(m);
    let b = fields_of(m.unknown@);
    assert(manifest_fields(m).dom() =~= a.dom().union(b.dom()));
}

/// A manifest is written as an object with its fields.
pub proof fn manifest_is_object(m: Manifest)
    ensures
        is_object_of(manifest_json(m), manifest_fields(m)),
{
    fields_finite(m);
    object_exists(manifest_fields(m));
}

proof fn known_member(m: Manifest, key: Seq<char>)
    requires
        !shadows(m),
        is_known_field(key),
    ensures
        member(manifest_json(m), key) == known_value(m, key),
{
    manifest_is_object(m);
    member_of_object(manifest_json(m), manifest_fields(m), key);
    known_field_values(m, key);
    if fields_of(m.unknown@).dom().contains(key) {
        let s = m.unknown.entries@;
        let i = choose|i: int| crate::table::holds_at(s, char_rank(key), i);
        crate::order::char_rank_injective(s[i].0@, key);
        assert(is_known_field(s[i].0@));
    }
}

proof fn unknown_in_order(m: Members)
    requires
        keys_ascend(m),
    ensures
        keys_ascend(unknown_of(m)),
        forall|x: (Seq<char>, JsonV)| #[trigger]
            unknown_of(m).contains(x) <==> m.contains(x) && !is_known_field(x.0),
    decreases m.len(),
{
    if m.len() > 0 {
        let d = m.drop_last();
        let last = m.last();
        assert(keys_ascend(d));
        unknown_in_order(d);
        let u = unknown_of(d);
        let t = unknown_of(m);
        assert forall|x: (Seq<char>, JsonV)| #[trigger] t.contains(x) <==> m.contains(x)
            && !is_known_field(x.0) by {
            assert(u.contains(x) <==> d.contains(x) && !is_known_field(x.0));
            if t.contains(x) {
                let i = choose|i: int| 0 <= i < t.len() && t[i] == x;
                if i < u.len() {
                    assert(u[i] == x);
                    let j = choose|j: int| 0 <= j < d.len() && d[j] == x;
                    assert(m[j] == x);
                } else {
                    assert(m[m.len() - 1] == x);
                }
            }
            if m.contains(x) && !is_known_field(x.0) {
                let j = choose|j: int| 0 <= j < m.len() && m[j] == x;
                if j < d.len() {
                    assert(d[j] == x);
                    let i = choose|i: int| 0 <= i < u.len() && u[i] == x;
                    assert(t[i] == x);
                } else {
                    assert(t[u.len() as int] == x);
                }
            }
        }
        if !is_known_field(last.0) {
            assert forall|i: int, j: int| 0 <= i < j < t.len() implies lex_before(
                char_rank(#[trigger] t[i].0),
                char_rank(#[trigger] t[j].0),
            ) by {
                if j < u.len() {
                    assert(lex_before(char_rank(u[i].0), char_rank(u[j].0)));
                } else {
                    assert(u.contains(u[i]));
                    let k = choose|k: int| 0 <= k < d.len() && d[k] == u[i];
                    assert(m[k] == t[i]);
                    assert(lex_before(char_rank(m[k].0), char_rank(m[m.len() - 1].0)));
                }
            }
        }
    }
}

proof fn unknown_reads_back(m: Manifest)
    requires
        m.wf(),
        !shadows(m),
    ensures
        unknown_of(manifest_json(m)->Obj_0) == member_views(m.unknown.entries@),
{
    let v = manifest_json(m);
    let f = manifest_fields(m);
    let g = fields_of(m.unknown@);
    manifest_is_object(m);
    table_is_object(m.unknown);
    unknown_in_order(v->Obj_0);
    let o = JsonV::Obj(unknown_of(v->Obj_0));
    let t = o->Obj_0;
    let s = v->Obj_0;
    assert forall|i: int| 0 <= i < t.len() implies g.dom().contains((#[trigger] t[i]).0) && g[t[i].0]
        == t[i].1 by {
        assert(t.contains(t[i]));
        assert(s.contains(t[i]));
        let j = choose|j: int| 0 <= j < s.len() && s[j] == t[i];
        assert(f.dom().contains(s[j].0));
        assert(f[s[j].0] == s[j].1);
        known_field_values(m, t[i].0);
    }
    assert forall|k: Seq<char>| #[trigger] g.dom().contains(k) implies exists|i: int|
        0 <= i < t.len() && (#[trigger] t[i]).0 == k by {
        assert(f.dom().contains(k));
        let j = choose|j: int| 0 <= j < s.len() && (#[trigger] s[j]).0 == k;
        assert(s.contains(s[j]));
        if is_known_field(k) {
            let e = m.unknown.entries@;
            let i = choose|i: int| crate::table::holds_at(e, char_rank(k), i);
            crate::order::char_rank_injective(e[i].0@, k);
            assert(is_known_field(e[i].0@));
        }
        assert(t.contains(s[j]));
        let i = choose|i: int| 0 <= i < t.len() && t[i] == s[j];
        assert(t[i].0 == k);
    }
    assert(is_object_of(o, g));
    object_unique(o, JsonV::Obj(member_views(m.unknown.entries@)), g);
}

proof fn lists_read_back(m: Manifest)
    requires
        m.wf(),
    ensures
        recipes_read(opt_list(recipe_values(m.recipes@)), m.recipes@),
        natives_read(opt_list(native_values(m.native@)), m.native@),
        hashes_read(opt_list(hash_values(m.parents@)), m.parents@),
{
    assert forall|i: int| 0 <= i < m.recipes@.len() implies recipe_read(
        recipe_values(m.recipes@)[i],
        #[trigger] m.recipes@[i],
    ) by {
        recipe_reads_back(m.recipes@[i]);
    }
    assert forall|i: int| 0 <= i < m.native@.len() implies native_read(
        native_values(m.native@)[i],
        #[trigger] m.native@[i],
    ) by {
        native_reads_back(m.native@[i]);
    }
    assert forall|i: int| 0 <= i < m.parents@.len() implies bytes_in(
        Some(hash_values(m.parents@)[i]),
    ) == Some((#[trigger] m.parents@[i]).0@) by {
        hex_reads_back(m.parents@[i].0);
    }
}

proof fn opt_hash_reads_back(h: Option<Digest>)
    ensures
        opt_bytes_in(opt_hash_json(h)) == Some(hash_view(h)),
{
    match h {
        Some(d) => {
            hex_reads_back(d.0);
        },
        None => {},
    }
}

/// What is written of a manifest reads as that manifest.
pub proof fn written_manifest_reads_back(m: Manifest)
    requires
        m.wf(),
        !shadows(m),
    ensures
        manifest_read(manifest_json(m), m),
{
    let v = manifest_json(m);
    manifest_is_object(m);
    known_member(m, "abra_spec"@);
    known_member(m, "scope"@);
    known_member(m, "kind"@);
    known_member(m, "title"@);
    known_member(m, "origin"@);
    known_member(m, "created_at"@);
    known_member(m, "summary"@);
    known_member(m, "link"@);
    known_member(m, "thumbnail"@);
    known_member(m, "files"@);
    known_member(m, "recipes"@);
    known_member(m, "native"@);
    known_member(m, "extra"@);
    known_member(m, "capsule_id"@);
    known_member(m, "parents"@);
    known_member(m, "label"@);
    known_member(m, "lease"@);
    known_member(m, "provenance"@);
    field_names();
    reveal_strlit("full");
    reveal_strlit("partial");
    assert("full"@.len() == 4);
    assert("partial"@.len() == 7);
    hex_reads_back(m.origin.0);
    opt_hash_reads_back(m.thumbnail);
    opt_hash_reads_back(m.files);
    opt_hash_reads_back(m.capsule_id);
    lists_read_back(m);
    match m.lease {
        Some(l) => {
            lease_reads_back(l);
        },
        None => {},
    }
    match m.provenance {
        Some(p) => {
            provenance_reads_back(p);
        },
        None => {},
    }
    unknown_reads_back(m);
}

proof fn same_recipe(v: JsonV, a: Recipe, b: Recipe)
    requires
        recipe_read(v, a),
        recipe_read(v, b),
    ensures
        recipe_members(a) == recipe_members(b),
        recipe_check(a) == recipe_check(b),
{
    assert(text_values(a.argv@) == text_values(b.argv@));
    assert(text_values(a.argv@).len() == a.argv@.len());
    assert(text_values(b.argv@).len() == b.argv@.len());
    assert(text_members(a.env.entries@).len() == a.env.entries@.len());
    assert(text_members(b.env.entries@).len() == b.env.entries@.len());
    assert(port_values(a.ports@).len() == a.ports@.len());
    assert(port_values(b.ports@).len() == b.ports@.len());
    assert(a.env.entries@.len() == b.env.entries@.len());
    assert(a.ports@.len() == b.ports@.len());
    assert(a.started_at == b.started_at);
    assert(a.source == b.source);
}

proof fn same_recipes(v: Option<JsonV>, a: Seq<Recipe>, b: Seq<Recipe>)
    requires
        recipes_read(v, a),
        recipes_read(v, b),
    ensures
        recipe_values(a) == recipe_values(b),
        recipes_fault(a) == recipes_fault(b),
{
    let s = items_of(v)->0;
    assert forall|i: int| 0 <= i < a.len() implies recipe_values(a)[i] == recipe_values(b)[i]
        && recipe_check(#[trigger] a[i]) == recipe_check(b[i]) by {
        assert(recipe_read(s[i], a[i]));
        assert(recipe_read(s[i], b[i]));
        same_recipe(s[i], a[i], b[i]);
    }
    assert(recipe_values(a) =~= recipe_values(b));
    same_recipe_faults(a, b);
}

proof fn same_recipe_faults(a: Seq<Recipe>, b: Seq<Recipe>)
    requires
        a.len() == b.len(),
        forall|i: int| 0 <= i < a.len() ==> recipe_check(#[trigger] a[i]) == recipe_check(b[i]),
    ensures
        recipes_fault(a) == recipes_fault(b),
    decreases a.len(),
{
    if a.len() > 0 {
        assert(recipe_check(a[0]) == recipe_check(b[0]));
        assert forall|i: int| 0 <= i < a.drop_first().len() implies recipe_check(
            #[trigger] a.drop_first()[i],
        ) == recipe_check(b.drop_first()[i]) by {
            assert(a.drop_first()[i] == a[i + 1]);
            assert(b.drop_first()[i] == b[i + 1]);
        }
        same_recipe_faults(a.drop_first(), b.drop_first());
    }
}

proof fn same_natives(v: Option<JsonV>, a: Seq<NativeBlobRef>, b: Seq<NativeBlobRef>)
    requires
        natives_read(v, a),
        natives_read(v, b),
    ensures
        native_values(a) == native_values(b),
        natives_fault(a) == natives_fault(b),
{
    let s = items_of(v)->0;
    assert forall|i: int| 0 <= i < a.len() implies native_values(a)[i] == native_values(b)[i] && (
    #[trigger] a[i]).fingerprint@ == b[i].fingerprint@ && a[i].role@ == b[i].role@ by {
        assert(native_read(s[i], a[i]));
        assert(native_read(s[i], b[i]));
        assert(native_json(a[i]) == native_json(b[i]));
    }
    assert(native_values(a) =~= native_values(b));
    same_native_faults(a, b);
}

proof fn same_native_faults(a: Seq<NativeBlobRef>, b: Seq<NativeBlobRef>)
    requires
        a.len() == b.len(),
        forall|i: int|
            0 <= i < a.len() ==> (#[trigger] a[i]).fingerprint@ == b[i].fingerprint@ && a[i].role@
                == b[i].role@,
    ensures
        natives_fault(a) == natives_fault(b),
    decreases a.len(),
{
    if a.len() > 0 {
        assert(a[0].fingerprint@ == b[0].fingerprint@);
        assert forall|i: int| 0 <= i < a.drop_first().len() implies (
        #[trigger] a.drop_first()[i]).fingerprint@ == b.drop_first()[i].fingerprint@
            && a.drop_first()[i].role@ == b.drop_first()[i].role@ by {
            assert(a.drop_first()[i] == a[i + 1]);
            assert(b.drop_first()[i] == b[i + 1]);
            assert(a[i + 1].fingerprint@ == b[i + 1].fingerprint@);
        }
        same_native_faults(a.drop_first(), b.drop_first());
    }
}

proof fn same_parents(v: Option<JsonV>, a: Seq<Digest>, b: Seq<Digest>)
    requires
        hashes_read(v, a),
        hashes_read(v, b),
    ensures
        hash_values(a) == hash_values(b),
        a.len() == b.len(),
{
    let s = items_of(v)->0;
    assert forall|i: int| 0 <= i < a.len() implies hash_values(a)[i] == hash_values(b)[i] by {
        assert(bytes_in(Some(s[i])) == Some(a[i].0@));
        assert(bytes_in(Some(s[i])) == Some(b[i].0@));
    }
    assert(hash_values(a) =~= hash_values(b));
}

proof fn same_unknown(a: Manifest, b: Manifest)
    requires
        a.wf(),
        b.wf(),
        member_views(a.unknown.entries@) == member_views(b.unknown.entries@),
    ensures
        fields_of(a.unknown@) == fields_of(b.unknown@),
        shadows(a) == shadows(b),
{
    table_is_object(a.unknown);
    table_is_object(b.unknown);
    fields_unique(
        JsonV::Obj(member_views(a.unknown.entries@)),
        fields_of(a.unknown@),
        fields_of(b.unknown@),
    );
    let s = a.unknown.entries@;
    let t = b.unknown.entries@;
    assert(member_views(s).len() == s.len());
    assert(member_views(t).len() == t.len());
    if shadows(a) {
        let i = choose|i: int| 0 <= i < s.len() && is_known_field((#[trigger] s[i]).0@);
        assert(member_views(s)[i].0 == s[i].0@);
        assert(member_views(t)[i].0 == t[i].0@);
        assert(is_known_field(t[i].0@));
    }
    if shadows(b) {
        let i = choose|i: int| 0 <= i < t.len() && is_known_field((#[trigger] t[i]).0@);
        assert(member_views(s)[i].0 == s[i].0@);
        assert(member_views(t)[i].0 == t[i].0@);
        assert(is_known_field(s[i].0@));
    }
}

/// A value reads as one manifest only: two that it reads as are written alike, and the same is wrong
/// with both.
pub proof fn reading_is_unique(v: JsonV, a: Manifest, b: Manifest)
    requires
        manifest_read(v, a),
        manifest_read(v, b),
    ensures
        manifest_json(a) == manifest_json(b),
        manifest_fault(a) == manifest_fault(b),
{
    same_recipes(member(v, "recipes"@), a.recipes@, b.recipes@);
    same_natives(member(v, "native"@), a.native@, b.native@);
    same_parents(member(v, "parents"@), a.parents@, b.parents@);
    same_unknown(a, b);
    assert(member_views(a.extra.entries@).len() == a.extra.entries@.len());
    assert(member_views(b.extra.entries@).len() == b.extra.entries@.len());
    assert(extra_value(a) == extra_value(b));
    assert(opt_text_json(a.summary) == opt_text_json(b.summary));
    assert(opt_text_json(a.link) == opt_text_json(b.link));
    assert(opt_text_json(a.label) == opt_text_json(b.label));
    assert(opt_hash_json(a.thumbnail) == opt_hash_json(b.thumbnail));
    assert(opt_hash_json(a.files) == opt_hash_json(b.files));
    assert(opt_hash_json(a.capsule_id) == opt_hash_json(b.capsule_id));
    assert(lease_value_of(a) == lease_value_of(b));
    assert(provenance_value_of(a) == provenance_value_of(b)) by {
        match (a.provenance, b.provenance) {
            (Some(p), Some(q)) => {
                assert(opt_str("label"@, p.label) == opt_str("label"@, q.label));
            },
            _ => {},
        }
    }
    assert(floor_fields(a) == floor_fields(b));
    assert(cargo_fields(a) == cargo_fields(b));
    assert(known_fields(a) == known_fields(b));
}

/// These bytes are the canonical bytes of a manifest, and nothing is wrong with it.
pub open spec fn is_canonical_manifest(bytes: Seq<u8>, m: Manifest) -> bool {
    &&& m.wf()
    &&& manifest_fault(m) is None
    &&& canonical_bytes(manifest_json(m)) == Ok::<Seq<u8>, Error>(bytes)
    &&& orderly(manifest_json(m))
    &&& nesting(manifest_json(m)) <= 127
}

impl Manifest {
    /// Reads a manifest from bytes, and checks it.
    pub fn from_bytes(bytes: &[u8]) -> (r: Result<Manifest, Error>)
        ensures
            match json_of(bytes@) {
                None => r == Err::<Manifest, Error>(Error::Json),
                Some(v) => match r {
                    Ok(m) => manifest_read(v, m) && manifest_fault(m) is None,
                    Err(e) => (e == Error::Json && forall|m: Manifest| !manifest_read(v, m)) || (
                    exists|m: Manifest| #[trigger]
                        manifest_read(v, m) && manifest_fault(m) == Some(e)),
                },
            },
            forall|m: Manifest| #[trigger]
                is_canonical_manifest(bytes@, m) ==> r is Ok && manifest_json(r->Ok_0)
                    == manifest_json(m),
    {
        let v = match parse_json(bytes) {
            None => {
                assert forall|m: Manifest| #[trigger]
                    is_canonical_manifest(bytes@, m) implies false by {
                    assert(json_bytes(manifest_json(m)) == bytes@);
                }
                return Err(Error::Json);
            },
            Some(v) => v,
        };
        proof {
            assert forall|m: Manifest| #[trigger]
                is_canonical_manifest(bytes@, m) implies manifest_read(v@, m) by {
                assert(json_bytes(manifest_json(m)) == bytes@);
                written_manifest_reads_back(m);
            }
        }
        let m = match Manifest::from_json(&v) {
            None => {
                return Err(Error::Json);
            },
            Some(m) => m,
        };
        proof {
            assert forall|x: Manifest| #[trigger]
                is_canonical_manifest(bytes@, x) implies manifest_json(m) == manifest_json(x)
                && manifest_fault(m) is None by {
                reading_is_unique(v@, m, x);
            }
        }
        match m.validate() {
            Ok(()) => Ok(m),
            Err(e) => Err(e),
        }
    }
}

/// What is wrong with bytes that read as a manifest: what is wrong with the manifest, then that its
/// canonical bytes are others.
pub open spec fn text_fault(bytes: Seq<u8>, m: Manifest) -> Option<Error> {
    match manifest_fault(m) {
        Some(e) => Some(e),
        None => match canonical_bytes(manifest_json(m)) {
            Err(e) => Some(e),
            Ok(b) if b == bytes => None,
            Ok(_) => Some(Error::Invalid("noncanonical manifest bytes")),
        },
    }
}

/// What reading the canonical bytes of a manifest answers: the manifest with these bytes, exactly
/// where they are those of a manifest that nothing is wrong with. Bytes that are no JSON or read as
/// no manifest are malformed; the others are refused for what is wrong with the manifest they read
/// as.
pub open spec fn parsed(bytes: Seq<u8>, read: Result<RawManifest, Error>) -> bool {
    &&& match (json_of(bytes), read) {
        (None, _) => read == Err::<RawManifest, Error>(Error::Json),
        (Some(v), Ok(raw)) => manifest_read(v, raw.manifest) && text_fault(bytes, raw.manifest)
            is None,
        (Some(v), Err(e)) => if exists|m: Manifest| #[trigger] manifest_read(v, m) {
            forall|m: Manifest| #[trigger] manifest_read(v, m) ==> text_fault(bytes, m) == Some(e)
        } else {
            e == Error::Json
        },
    }
    &&& read matches Ok(raw) ==> raw.wf() && raw.bytes@ == bytes
    &&& forall|m: Manifest| #[trigger]
        is_canonical_manifest(bytes, m) ==> read is Ok && manifest_json(read->Ok_0.manifest)
            == manifest_json(m)
}

impl RawManifest {
    /// Reads a manifest from its canonical bytes.
    pub fn parse(bytes: Vec<u8>) -> (r: Result<RawManifest, Error>)
        ensures
            parsed(bytes@, r),
    {
        let ghost read = json_of(bytes@);
        let manifest = match Manifest::from_bytes(bytes.as_slice()) {
            Err(e) => {
                proof {
                    if let Some(v) = read {
                        assert forall|m: Manifest| #[trigger] manifest_read(v, m) implies text_fault(
                            bytes@,
                            m,
                        ) == Some(e) by {
                            let x = choose|x: Manifest| #[trigger]
                                manifest_read(v, x) && manifest_fault(x) == Some(e);
                            reading_is_unique(v, m, x);
                        }
                    }
                }
                return Err(e);
            },
            Ok(m) => m,
        };
        proof {
            assert forall|m: Manifest| #[trigger] manifest_read(read->0, m) implies text_fault(
                bytes@,
                m,
            ) == text_fault(bytes@, manifest) by {
                reading_is_unique(read->0, m, manifest);
            }
        }
        RawManifest::accept(bytes, manifest)
    }
}

} // verus!
