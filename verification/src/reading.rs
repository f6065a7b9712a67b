//! Reading manifests from JSON.
use vstd::prelude::*;

use crate::cas::Digest;
use crate::identity::PeerId;
use crate::json::{json_views, member, member_views, object_is_ascending, Json, JsonV};
use crate::manifest::{
    known_field, port_values, text_members, is_known_field, Lease, Manifest, NativeBlobRef,
    Provenance, Recipe, RecipeSource, Scope,
};
use crate::order::{lex_before, Key};
use crate::record::{text_values, Members};
use crate::shape::{
    bytes_in, hash_view, is_record, list_in, nat_in, nat_view, not_longer, opt_bytes_in,
    opt_nat_in, opt_text_in, opt_view, read_bytes, read_nat, read_opt_hash, read_opt_nat,
    read_opt_text, read_text, slot, take_slot, text_in, text_view,
};
use crate::table::Table;
use crate::text::same_text;

verus! {

/// The scope of a name.
pub open spec fn scope_in(v: Option<JsonV>) -> Option<Scope> {
    match text_in(v) {
        Some(s) => if s == "full"@ {
            Some(Scope::Full)
        } else if s == "partial"@ {
            Some(Scope::Partial)
        } else {
            None
        },
        None => None,
    }
}

fn read_scope(v: Option<&Json>) -> (r: Option<Scope>)
    ensures
        r == scope_in(opt_view(v)),
{
    match read_text(v) {
        Some(s) => if same_text(s.as_str(), "full") {
            Some(Scope::Full)
        } else if same_text(s.as_str(), "partial") {
            Some(Scope::Partial)
        } else {
            None
        },
        None => None,
    }
}

/// How a recipe came to be known, where that is said; nothing where it is said wrongly.
pub open spec fn source_in(v: Option<JsonV>) -> Option<Option<RecipeSource>> {
    match opt_text_in(v) {
        None => None,
        Some(None) => Some(None),
        Some(Some(s)) => if s == "observer"@ {
            Some(Some(RecipeSource::Observer))
        } else if s == "launcher"@ {
            Some(Some(RecipeSource::Launcher))
        } else if s == "declared"@ {
            Some(Some(RecipeSource::Declared))
        } else {
            None
        },
    }
}

fn read_source(v: Option<&Json>) -> (r: Option<Option<RecipeSource>>)
    ensures
        r == source_in(opt_view(v)),
{
    match read_opt_text(v) {
        None => None,
        Some(None) => Some(None),
        Some(Some(s)) => if same_text(s.as_str(), "observer") {
            Some(Some(RecipeSource::Observer))
        } else if same_text(s.as_str(), "launcher") {
            Some(Some(RecipeSource::Launcher))
        } else if same_text(s.as_str(), "declared") {
            Some(Some(RecipeSource::Declared))
        } else {
            None
        },
    }
}

/// A list of texts.
pub open spec fn texts_read(v: Option<JsonV>, texts: Seq<String>) -> bool {
    v == Some(JsonV::Arr(text_values(texts)))
}

pub(crate) fn read_texts(v: Option<&Json>) -> (r: Option<Vec<String>>)
    ensures
        match r {
            Some(t) => texts_read(opt_view(v), t@),
            None => forall|t: Seq<String>| !texts_read(opt_view(v), t),
        },
{
    match v {
        Some(Json::Arr(a)) => {
            let ghost s = json_views(a@);
            let mut out: Vec<String> = Vec::new();
            let mut i: usize = 0;
            while i < a.len()
                invariant
                    i <= a@.len(),
                    s == json_views(a@),
                    s.len() == a@.len(),
                    opt_view(v) == Some(JsonV::Arr(s)),
                    out@.len() == i,
                    forall|j: int| 0 <= j < i ==> s[j] == JsonV::Str((#[trigger] out@[j])@),
                decreases a.len() - i,
            {
                assert(s[i as int] == a@[i as int]@);
                match &a[i] {
                    Json::Str(x) => {
                        out.push(x.clone());
                    },
                    _ => {
                        assert forall|t: Seq<String>| !texts_read(opt_view(v), t) by {
                            if texts_read(opt_view(v), t) {
                                assert(s == text_values(t));
                                assert(text_values(t)[i as int] == JsonV::Str(t[i as int]@));
                            }
                        }
                        return None;
                    },
                }
                i += 1;
            }
            assert(s =~= text_values(out@));
            Some(out)
        },
        _ => None,
    }
}

/// Texts by name; none where they are missing.
pub open spec fn env_read(v: Option<JsonV>, t: Table<String, String>) -> bool {
    &&& t.wf()
    &&& match v {
        None => t.entries@.len() == 0,
        Some(x) => x == JsonV::Obj(text_members(t.entries@)),
    }
}

fn read_env(v: Option<&Json>) -> (r: Option<Table<String, String>>)
    requires
        v matches Some(j) ==> j.wf(),
    ensures
        match r {
            Some(t) => env_read(opt_view(v), t),
            None => forall|t: Table<String, String>| !env_read(opt_view(v), t),
        },
{
    match v {
        None => Some(Table::new()),
        Some(Json::Obj(t)) => {
            let ghost m = member_views(t.entries@);
            proof {
                object_is_ascending(*v->0);
            }
            let mut out: Vec<(String, String)> = Vec::new();
            let mut i: usize = 0;
            while i < t.entries.len()
                invariant
                    i <= t.entries@.len(),
                    t.wf(),
                    m == member_views(t.entries@),
                    m.len() == t.entries@.len(),
                    opt_view(v) == Some(JsonV::Obj(m)),
                    out@.len() == i,
                    forall|j: int|
                        0 <= j < i ==> m[j] == (
                            (#[trigger] out@[j]).0@,
                            JsonV::Str(out@[j].1@),
                        ),
                    forall|j: int| 0 <= j < i ==> (#[trigger] out@[j]).0@ == t.entries@[j].0@,
                decreases t.entries.len() - i,
            {
                assert(m[i as int] == (t.entries@[i as int].0@, t.entries@[i as int].1@));
                match &t.entries[i].1 {
                    Json::Str(x) => {
                        out.push((t.entries[i].0.clone(), x.clone()));
                    },
                    _ => {
                        assert forall|u: Table<String, String>| !env_read(opt_view(v), u) by {
                            if env_read(opt_view(v), u) {
                                assert(m == text_members(u.entries@));
                                assert(text_members(u.entries@)[i as int].1 is Str);
                            }
                        }
                        return None;
                    },
                }
                i += 1;
            }
            let table = Table { entries: out };
            proof {
                assert(m =~= text_members(table.entries@));
                assert forall|a: int, b: int| 0 <= a < b < table.entries@.len() implies lex_before(
                    #[trigger] table.entries@[a].0.rank(),
                    #[trigger] table.entries@[b].0.rank(),
                ) by {
                    assert(lex_before(t.entries@[a].0.rank(), t.entries@[b].0.rank()));
                }
            }
            Some(table)
        },
        Some(_) => None,
    }
}

/// Ports; none where they are missing.
pub open spec fn ports_read(v: Option<JsonV>, ports: Seq<u16>) -> bool {
    match v {
        None => ports.len() == 0,
        Some(x) => x == JsonV::Arr(port_values(ports)),
    }
}

fn read_ports(v: Option<&Json>) -> (r: Option<Vec<u16>>)
    ensures
        match r {
            Some(p) => ports_read(opt_view(v), p@),
            None => forall|p: Seq<u16>| !ports_read(opt_view(v), p),
        },
{
    match v {
        None => Some(Vec::new()),
        Some(Json::Arr(a)) => {
            let ghost s = json_views(a@);
            let mut out: Vec<u16> = Vec::new();
            let mut i: usize = 0;
            while i < a.len()
                invariant
                    i <= a@.len(),
                    s == json_views(a@),
                    s.len() == a@.len(),
                    opt_view(v) == Some(JsonV::Arr(s)),
                    out@.len() == i,
                    forall|j: int| 0 <= j < i ==> s[j] == JsonV::Int(#[trigger] out@[j] as int),
                decreases a.len() - i,
            {
                assert(s[i as int] == a@[i as int]@);
                let port: Option<u16> = match &a[i] {
                    Json::Int(n) => if 0 <= *n && *n <= 65535 {
                        Some(*n as u16)
                    } else {
                        None
                    },
                    _ => None,
                };
                match port {
                    Some(n) => {
                        out.push(n);
                    },
                    None => {
                        assert forall|p: Seq<u16>| !ports_read(opt_view(v), p) by {
                            if ports_read(opt_view(v), p) {
                                assert(s == port_values(p));
                                assert(port_values(p)[i as int] == JsonV::Int(p[i as int] as int));
                            }
                        }
                        return None;
                    },
                }
                i += 1;
            }
            assert(s =~= port_values(out@));
            Some(out)
        },
        Some(_) => None,
    }
}

/// A recipe is read from a value.
pub open spec fn recipe_read(v: JsonV, r: Recipe) -> bool {
    &&& not_longer(v, 6)
    &&& texts_read(slot(v, "argv"@, 0), r.argv@)
    &&& text_in(slot(v, "cwd"@, 1)) == Some(r.cwd@)
    &&& env_read(slot(v, "env"@, 2), r.env)
    &&& ports_read(slot(v, "ports"@, 3), r.ports@)
    &&& opt_nat_in(slot(v, "started_at"@, 4)) == Some(nat_view(r.started_at))
    &&& source_in(slot(v, "source"@, 5)) == Some(r.source)
}

proof fn slot_is_orderly(v: Json, key: Seq<char>, i: int)
    requires
        v.wf(),
    ensures
        slot(v@, key, i) matches Some(x) ==> crate::json::orderly(x),
{
    match v@ {
        JsonV::Obj(m) => {
            crate::json::member_at_is_first(m, key);
        },
        _ => {},
    }
}

fn read_recipe(v: &Json) -> (r: Option<Recipe>)
    requires
        v.wf(),
    ensures
        match r {
            Some(x) => recipe_read(v@, x),
            None => forall|x: Recipe| !recipe_read(v@, x),
        },
{
    if !is_record(v, 6) {
        return None;
    }
    proof {
        slot_is_orderly(*v, "env"@, 2);
    }
    let argv = match read_texts(take_slot(v, "argv", 0)) {
        None => {
            return None;
        },
        Some(x) => x,
    };
    let cwd = match read_text(take_slot(v, "cwd", 1)) {
        None => {
            return None;
        },
        Some(x) => x,
    };
    let env = match read_env(take_slot(v, "env", 2)) {
        None => {
            return None;
        },
        Some(x) => x,
    };
    let ports = match read_ports(take_slot(v, "ports", 3)) {
        None => {
            return None;
        },
        Some(x) => x,
    };
    let started_at = match read_opt_nat(take_slot(v, "started_at", 4)) {
        None => {
            return None;
        },
        Some(x) => x,
    };
    let source = match read_source(take_slot(v, "source", 5)) {
        None => {
            return None;
        },
        Some(x) => x,
    };
    Some(Recipe { argv, cwd, env, ports, started_at, source })
}

/// An artifact is read from a value.
pub open spec fn native_read(v: JsonV, n: NativeBlobRef) -> bool {
    &&& not_longer(v, 4)
    &&& text_in(slot(v, "fingerprint"@, 0)) == Some(n.fingerprint@)
    &&& text_in(slot(v, "role"@, 1)) == Some(n.role@)
    &&& bytes_in(slot(v, "hash"@, 2)) == Some(n.hash.0@)
    &&& nat_in(slot(v, "size"@, 3)) == Some(n.size as int)
}

fn read_native(v: &Json) -> (r: Option<NativeBlobRef>)
    ensures
        match r {
            Some(x) => native_read(v@, x),
            None => forall|x: NativeBlobRef| !native_read(v@, x),
        },
{
    if !is_record(v, 4) {
        return None;
    }
    let fingerprint = read_text(take_slot(v, "fingerprint", 0));
    let role = read_text(take_slot(v, "role", 1));
    let hash = read_bytes(take_slot(v, "hash", 2));
    let size = read_nat(take_slot(v, "size", 3));
    match (fingerprint, role, hash, size) {
        (Some(fingerprint), Some(role), Some(hash), Some(size)) => Some(
            NativeBlobRef { fingerprint, role, hash: crate::cas::Hash(hash), size },
        ),
        _ => None,
    }
}

/// A lease is read from a value.
pub open spec fn lease_read(v: JsonV, l: Lease) -> bool {
    &&& not_longer(v, 3)
    &&& bytes_in(slot(v, "holder"@, 0)) == Some(l.holder.0@)
    &&& nat_in(slot(v, "acquired_at"@, 1)) == Some(l.acquired_at as int)
    &&& opt_nat_in(slot(v, "expires_at"@, 2)) == Some(nat_view(l.expires_at))
}

fn read_lease(v: &Json) -> (r: Option<Lease>)
    ensures
        match r {
            Some(x) => lease_read(v@, x),
            None => forall|x: Lease| !lease_read(v@, x),
        },
{
    if !is_record(v, 3) {
        return None;
    }
    let holder = read_bytes(take_slot(v, "holder", 0));
    let acquired_at = read_nat(take_slot(v, "acquired_at", 1));
    let expires_at = read_opt_nat(take_slot(v, "expires_at", 2));
    match (holder, acquired_at, expires_at) {
        (Some(holder), Some(acquired_at), Some(expires_at)) => Some(
            Lease { holder: PeerId(holder), acquired_at, expires_at },
        ),
        _ => None,
    }
}

/// A provenance is read from a value.
pub open spec fn provenance_read(v: JsonV, p: Provenance) -> bool {
    &&& not_longer(v, 3)
    &&& bytes_in(slot(v, "capsule_id"@, 0)) == Some(p.capsule_id.0@)
    &&& bytes_in(slot(v, "snapshot_hash"@, 1)) == Some(p.snapshot_hash.0@)
    &&& opt_text_in(slot(v, "label"@, 2)) == Some(text_view(p.label))
}

fn read_provenance(v: &Json) -> (r: Option<Provenance>)
    ensures
        match r {
            Some(x) => provenance_read(v@, x),
            None => forall|x: Provenance| !provenance_read(v@, x),
        },
{
    if !is_record(v, 3) {
        return None;
    }
    let capsule_id = read_bytes(take_slot(v, "capsule_id", 0));
    let snapshot_hash = read_bytes(take_slot(v, "snapshot_hash", 1));
    let label = read_opt_text(take_slot(v, "label", 2));
    match (capsule_id, snapshot_hash, label) {
        (Some(capsule_id), Some(snapshot_hash), Some(label)) => Some(
            Provenance {
                capsule_id: crate::cas::Hash(capsule_id),
                snapshot_hash: crate::cas::Hash(snapshot_hash),
                label,
            },
        ),
        _ => None,
    }
}

/// The items of a list that may be missing.
pub open spec fn items_of(v: Option<JsonV>) -> Option<Seq<JsonV>> {
    match list_in(v) {
        Some(JsonV::Arr(a)) => Some(a),
        _ => None,
    }
}

/// Recipes are read from a list.
pub open spec fn recipes_read(v: Option<JsonV>, s: Seq<Recipe>) -> bool {
    items_of(v) matches Some(a) && a.len() == s.len() && forall|i: int|
        0 <= i < s.len() ==> recipe_read(a[i], #[trigger] s[i])
}

/// Artifacts are read from a list.
pub open spec fn natives_read(v: Option<JsonV>, s: Seq<NativeBlobRef>) -> bool {
    items_of(v) matches Some(a) && a.len() == s.len() && forall|i: int|
        0 <= i < s.len() ==> native_read(a[i], #[trigger] s[i])
}

/// Hashes are read from a list.
pub open spec fn hashes_read(v: Option<JsonV>, s: Seq<Digest>) -> bool {
    items_of(v) matches Some(a) && a.len() == s.len() && forall|i: int|
        0 <= i < s.len() ==> bytes_in(Some(a[i])) == Some((#[trigger] s[i]).0@)
}

fn read_recipes(v: Option<&Json>) -> (r: Option<Vec<Recipe>>)
    requires
        v matches Some(j) ==> j.wf(),
    ensures
        match r {
            Some(s) => recipes_read(opt_view(v), s@),
            None => forall|s: Seq<Recipe>| !recipes_read(opt_view(v), s),
        },
{
    match v {
        None => Some(Vec::new()),
        Some(Json::Arr(a)) => {
            let ghost w = json_views(a@);
            let mut out: Vec<Recipe> = Vec::new();
            let mut i: usize = 0;
            while i < a.len()
                invariant
                    i <= a@.len(),
                    w == json_views(a@),
                    w.len() == a@.len(),
                    items_of(opt_view(v)) == Some(w),
                    v matches Some(j) && j.wf() && j@ == JsonV::Arr(w),
                    out@.len() == i,
                    forall|j: int| 0 <= j < i ==> recipe_read(w[j], #[trigger] out@[j]),
                decreases a.len() - i,
            {
                assert(w[i as int] == a@[i as int]@);
                assert(crate::json::orderly(w[i as int]));
                match read_recipe(&a[i]) {
                    Some(x) => {
                        out.push(x);
                    },
                    None => {
                        assert forall|s: Seq<Recipe>| !recipes_read(opt_view(v), s) by {
                            if recipes_read(opt_view(v), s) {
                                assert(recipe_read(w[i as int], s[i as int]));
                            }
                        }
                        return None;
                    },
                }
                i += 1;
            }
            Some(out)
        },
        Some(_) => None,
    }
}

fn read_natives(v: Option<&Json>) -> (r: Option<Vec<NativeBlobRef>>)
    ensures
        match r {
            Some(s) => natives_read(opt_view(v), s@),
            None => forall|s: Seq<NativeBlobRef>| !natives_read(opt_view(v), s),
        },
{
    match v {
        None => Some(Vec::new()),
        Some(Json::Arr(a)) => {
            let ghost w = json_views(a@);
            let mut out: Vec<NativeBlobRef> = Vec::new();
            let mut i: usize = 0;
            while i < a.len()
                invariant
                    i <= a@.len(),
                    w == json_views(a@),
                    w.len() == a@.len(),
                    items_of(opt_view(v)) == Some(w),
                    out@.len() == i,
                    forall|j: int| 0 <= j < i ==> native_read(w[j], #[trigger] out@[j]),
                decreases a.len() - i,
            {
                assert(w[i as int] == a@[i as int]@);
                match read_native(&a[i]) {
                    Some(x) => {
                        out.push(x);
                    },
                    None => {
                        assert forall|s: Seq<NativeBlobRef>| !natives_read(opt_view(v), s) by {
                            if natives_read(opt_view(v), s) {
                                assert(native_read(w[i as int], s[i as int]));
                            }
                        }
                        return None;
                    },
                }
                i += 1;
            }
            Some(out)
        },
        Some(_) => None,
    }
}

fn read_hashes(v: Option<&Json>) -> (r: Option<Vec<Digest>>)
    ensures
        match r {
            Some(s) => hashes_read(opt_view(v), s@),
            None => forall|s: Seq<Digest>| !hashes_read(opt_view(v), s),
        },
{
    match v {
        None => Some(Vec::new()),
        Some(Json::Arr(a)) => {
            let ghost w = json_views(a@);
            let mut out: Vec<Digest> = Vec::new();
            let mut i: usize = 0;
            while i < a.len()
                invariant
                    i <= a@.len(),
                    w == json_views(a@),
                    w.len() == a@.len(),
                    items_of(opt_view(v)) == Some(w),
                    out@.len() == i,
                    forall|j: int|
                        0 <= j < i ==> bytes_in(Some(w[j])) == Some((#[trigger] out@[j]).0@),
                decreases a.len() - i,
            {
                assert(w[i as int] == a@[i as int]@);
                match read_bytes(Some(&a[i])) {
                    Some(x) => {
                        out.push(crate::cas::Hash(x));
                    },
                    None => {
                        assert forall|s: Seq<Digest>| !hashes_read(opt_view(v), s) by {
                            if hashes_read(opt_view(v), s) {
                                assert(bytes_in(Some(w[i as int])) == Some(s[i as int].0@));
                            }
                        }
                        return None;
                    },
                }
                i += 1;
            }
            Some(out)
        },
        Some(_) => None,
    }
}

/// A lease that may be missing or null is read.
pub open spec fn opt_lease_read(v: Option<JsonV>, l: Option<Lease>) -> bool {
    match v {
        None => l is None,
        Some(JsonV::Null) => l is None,
        Some(x) => l matches Some(l) && lease_read(x, l),
    }
}

/// A provenance that may be missing or null is read.
pub open spec fn opt_provenance_read(v: Option<JsonV>, p: Option<Provenance>) -> bool {
    match v {
        None => p is None,
        Some(JsonV::Null) => p is None,
        Some(x) => p matches Some(p) && provenance_read(x, p),
    }
}

/// Members that may be missing are read.
pub open spec fn extra_read(v: Option<JsonV>, t: Table<String, Json>) -> bool {
    &&& t.wf()
    &&& match v {
        None => t.entries@.len() == 0,
        Some(x) => x == JsonV::Obj(member_views(t.entries@)),
    }
}

/// The members that this build does not know.
pub open spec fn unknown_of(m: Members) -> Members
    decreases m.len(),
{
    if m.len() == 0 {
        m
    } else if is_known_field(m.last().0) {
        unknown_of(m.drop_last())
    } else {
        unknown_of(m.drop_last()).push(m.last())
    }
}

/// A manifest is read from a value.
pub open spec fn manifest_read(v: JsonV, m: Manifest) -> bool {
    &&& v is Obj
    &&& m.wf()
    &&& nat_in(member(v, "abra_spec"@)) == Some(m.abra_spec as int)
    &&& scope_in(member(v, "scope"@)) == Some(m.scope)
    &&& text_in(member(v, "kind"@)) == Some(m.kind@)
    &&& text_in(member(v, "title"@)) == Some(m.title@)
    &&& bytes_in(member(v, "origin"@)) == Some(m.origin.0@)
    &&& nat_in(member(v, "created_at"@)) == Some(m.created_at as int)
    &&& opt_text_in(member(v, "summary"@)) == Some(text_view(m.summary))
    &&& opt_text_in(member(v, "link"@)) == Some(text_view(m.link))
    &&& opt_bytes_in(member(v, "thumbnail"@)) == Some(hash_view(m.thumbnail))
    &&& opt_bytes_in(member(v, "files"@)) == Some(hash_view(m.files))
    &&& recipes_read(member(v, "recipes"@), m.recipes@)
    &&& natives_read(member(v, "native"@), m.native@)
    &&& extra_read(member(v, "extra"@), m.extra)
    &&& opt_bytes_in(member(v, "capsule_id"@)) == Some(hash_view(m.capsule_id))
    &&& hashes_read(member(v, "parents"@), m.parents@)
    &&& opt_text_in(member(v, "label"@)) == Some(text_view(m.label))
    &&& opt_lease_read(member(v, "lease"@), m.lease)
    &&& opt_provenance_read(member(v, "provenance"@), m.provenance)
    &&& member_views(m.unknown.entries@) == unknown_of(v->Obj_0)
}

fn read_opt_lease(v: Option<&Json>) -> (r: Option<Option<Lease>>)
    ensures
        match r {
            Some(l) => opt_lease_read(opt_view(v), l),
            None => forall|l: Option<Lease>| !opt_lease_read(opt_view(v), l),
        },
{
    match v {
        None => Some(None),
        Some(Json::Null) => Some(None),
        Some(x) => match read_lease(x) {
            Some(l) => Some(Some(l)),
            None => None,
        },
    }
}

fn read_opt_provenance(v: Option<&Json>) -> (r: Option<Option<Provenance>>)
    ensures
        match r {
            Some(p) => opt_provenance_read(opt_view(v), p),
            None => forall|p: Option<Provenance>| !opt_provenance_read(opt_view(v), p),
        },
{
    match v {
        None => Some(None),
        Some(Json::Null) => Some(None),
        Some(x) => match read_provenance(x) {
            Some(p) => Some(Some(p)),
            None => None,
        },
    }
}

fn copy_members(t: &Table<String, Json>) -> (r: Table<String, Json>)
    requires
        t.wf(),
    ensures
        r.wf(),
        member_views(r.entries@) == member_views(t.entries@),
{
    let mut out: Vec<(String, Json)> = Vec::new();
    let mut i: usize = 0;
    while i < t.entries.len()
        invariant
            i <= t.entries@.len(),
            out@.len() == i,
            forall|j: int|
                0 <= j < i ==> (#[trigger] out@[j]).0@ == t.entries@[j].0@ && out@[j].1@
                    == t.entries@[j].1@,
        decreases t.entries.len() - i,
    {
        out.push((t.entries[i].0.clone(), t.entries[i].1.duplicate()));
        i += 1;
    }
    proof {
        assert(member_views(out@) =~= member_views(t.entries@));
        assert forall|a: int, b: int| 0 <= a < b < out@.len() implies lex_before(
            #[trigger] out@[a].0.rank(),
            #[trigger] out@[b].0.rank(),
        ) by {
            assert(lex_before(t.entries@[a].0.rank(), t.entries@[b].0.rank()));
        }
    }
    Table { entries: out }
}

fn read_extra(v: Option<&Json>) -> (r: Option<Table<String, Json>>)
    requires
        v matches Some(j) ==> j.wf(),
    ensures
        match r {
            Some(t) => extra_read(opt_view(v), t),
            None => forall|t: Table<String, Json>| !extra_read(opt_view(v), t),
        },
{
    match v {
        None => Some(Table::new()),
        Some(Json::Obj(t)) => {
            proof {
                object_is_ascending(*v->0);
            }
            Some(copy_members(t))
        },
        Some(_) => None,
    }
}

fn read_unknown(t: &Table<String, Json>) -> (r: Table<String, Json>)
    requires
        t.wf(),
    ensures
        r.wf(),
        member_views(r.entries@) == unknown_of(member_views(t.entries@)),
{
    let ghost m = member_views(t.entries@);
    let mut out: Vec<(String, Json)> = Vec::new();
    let mut i: usize = 0;
    assert(m.take(0) =~= Members::empty());
    assert(member_views(out@) =~= Members::empty());
    while i < t.entries.len()
        invariant
            t.wf(),
            i <= t.entries@.len(),
            m == member_views(t.entries@),
            m.len() == t.entries@.len(),
            member_views(out@) == unknown_of(m.take(i as int)),
            forall|a: int, b: int|
                0 <= a < b < out@.len() ==> lex_before(
                    #[trigger] out@[a].0.rank(),
                    #[trigger] out@[b].0.rank(),
                ),
            forall|a: int, j: int|
                0 <= a < out@.len() && i <= j < t.entries@.len() ==> lex_before(
                    #[trigger] out@[a].0.rank(),
                    #[trigger] t.entries@[j].0.rank(),
                ),
        decreases t.entries.len() - i,
    {
        proof {
            assert(m.take(i + 1).drop_last() =~= m.take(i as int));
            assert(m.take(i + 1).last() == m[i as int]);
            assert(m[i as int] == (t.entries@[i as int].0@, t.entries@[i as int].1@));
        }
        if !known_field(t.entries[i].0.as_str()) {
            let ghost before = out@;
            let key = t.entries[i].0.clone();
            let value = t.entries[i].1.duplicate();
            out.push((key, value));
            proof {
                assert(member_views(out@) =~= member_views(before).push((key@, value@)));
                assert forall|a: int, b: int| 0 <= a < b < out@.len() implies lex_before(
                    #[trigger] out@[a].0.rank(),
                    #[trigger] out@[b].0.rank(),
                ) by {
                    if b < before.len() {
                        assert(lex_before(before[a].0.rank(), before[b].0.rank()));
                    } else {
                        assert(lex_before(before[a].0.rank(), t.entries@[i as int].0.rank()));
                    }
                }
                assert forall|a: int, j: int|
                    0 <= a < out@.len() && i + 1 <= j < t.entries@.len() implies lex_before(
                    #[trigger] out@[a].0.rank(),
                    #[trigger] t.entries@[j].0.rank(),
                ) by {
                    if a < before.len() {
                        assert(lex_before(before[a].0.rank(), t.entries@[j].0.rank()));
                    } else {
                        assert(lex_before(t.entries@[i as int].0.rank(), t.entries@[j].0.rank()));
                    }
                }
            }
        }
        i += 1;
    }
    assert(m.take(i as int) =~= m);
    Table { entries: out }
}

struct Floor {
    abra_spec: u32,
    scope: Scope,
    kind: String,
    title: String,
    origin: PeerId,
    created_at: u64,
}

spec fn floor_read(v: JsonV, f: Floor) -> bool {
    &&& nat_in(member(v, "abra_spec"@)) == Some(f.abra_spec as int)
    &&& scope_in(member(v, "scope"@)) == Some(f.scope)
    &&& text_in(member(v, "kind"@)) == Some(f.kind@)
    &&& text_in(member(v, "title"@)) == Some(f.title@)
    &&& bytes_in(member(v, "origin"@)) == Some(f.origin.0@)
    &&& nat_in(member(v, "created_at"@)) == Some(f.created_at as int)
}

fn read_floor(v: &Json) -> (r: Option<Floor>)
    ensures
        match r {
            Some(f) => floor_read(v@, f),
            None => forall|f: Floor| !floor_read(v@, f),
        },
{
    let spec = read_nat(v.get("abra_spec"));
    let scope = read_scope(v.get("scope"));
    let kind = read_text(v.get("kind"));
    let title = read_text(v.get("title"));
    let origin = read_bytes(v.get("origin"));
    let created_at = read_nat(v.get("created_at"));
    match (spec, scope, kind, title, origin, created_at) {
        (Some(n), Some(scope), Some(kind), Some(title), Some(origin), Some(created_at)) => {
            if n > u32::MAX as u64 {
                return None;
            }
            Some(
                Floor {
                    abra_spec: n as u32,
                    scope,
                    kind,
                    title,
                    origin: PeerId(origin),
                    created_at,
                },
            )
        },
        _ => None,
    }
}

proof fn member_is_orderly(v: Json, key: Seq<char>)
    requires
        v.wf(),
    ensures
        member(v@, key) matches Some(x) ==> crate::json::orderly(x),
{
    match v@ {
        JsonV::Obj(m) => {
            crate::json::member_at_is_first(m, key);
        },
        _ => {},
    }
}

impl Manifest {
    /// Reads a manifest; nothing where the value has not the form of one. Members that this build
    /// does not know are kept.
    pub fn from_json(v: &Json) -> (r: Option<Manifest>)
        requires
            v.wf(),
        ensures
            match r {
                Some(m) => manifest_read(v@, m),
                None => forall|m: Manifest| !manifest_read(v@, m),
            },
    {
        let table = match v {
            Json::Obj(t) => t,
            _ => {
                return None;
            },
        };
        proof {
            object_is_ascending(*v);
            member_is_orderly(*v, "recipes"@);
            member_is_orderly(*v, "extra"@);
        }
        let floor = match read_floor(v) {
            None => {
                assert forall|m: Manifest| !manifest_read(v@, m) by {
                    if manifest_read(v@, m) {
                        assert(floor_read(
                            v@,
                            Floor {
                                abra_spec: m.abra_spec,
                                scope: m.scope,
                                kind: m.kind,
                                title: m.title,
                                origin: m.origin,
                                created_at: m.created_at,
                            },
                        ));
                    }
                }
                return None;
            },
            Some(f) => f,
        };
        let summary = match read_opt_text(v.get("summary")) {
            None => {
                return None;
            },
            Some(x) => x,
        };
        let link = match read_opt_text(v.get("link")) {
            None => {
                return None;
            },
            Some(x) => x,
        };
        let thumbnail = match read_opt_hash(v.get("thumbnail")) {
            None => {
                return None;
            },
            Some(x) => x,
        };
        let files = match read_opt_hash(v.get("files")) {
            None => {
                return None;
            },
            Some(x) => x,
        };
        let recipes = match read_recipes(v.get("recipes")) {
            None => {
                return None;
            },
            Some(x) => x,
        };
        let native = match read_natives(v.get("native")) {
            None => {
                return None;
            },
            Some(x) => x,
        };
        let extra = match read_extra(v.get("extra")) {
            None => {
                return None;
            },
            Some(x) => x,
        };
        let capsule_id = match read_opt_hash(v.get("capsule_id")) {
            None => {
                return None;
            },
            Some(x) => x,
        };
        let parents = match read_hashes(v.get("parents")) {
            None => {
                return None;
            },
            Some(x) => x,
        };
        let label = match read_opt_text(v.get("label")) {
            None => {
                return None;
            },
            Some(x) => x,
        };
        let lease = match read_opt_lease(v.get("lease")) {
            None => {
                return None;
            },
            Some(x) => x,
        };
        let provenance = match read_opt_provenance(v.get("provenance")) {
            None => {
                return None;
            },
            Some(x) => x,
        };
        let unknown = read_unknown(table);
        Some(
            Manifest {
                abra_spec: floor.abra_spec,
                scope: floor.scope,
                kind: floor.kind,
                title: floor.title,
                origin: floor.origin,
                created_at: floor.created_at,
                summary,
                link,
                thumbnail,
                files,
                recipes,
                native,
                extra,
                capsule_id,
                parents,
                label,
                lease,
                provenance,
                unknown,
            },
        )
    }
}

} // verus!
