//! The bodies of requests to adapters.
use vstd::prelude::*;

use crate::cas::Digest;
use crate::json::{orderly, Json, JsonV};
use crate::record::{is_object_of, object_of, FieldMap, Object};
use crate::table::Table;
use crate::util::hex_text;

verus! {

/// A capsule and a snapshot that an export goes back to.
#[derive(Clone, Copy, Debug, PartialEq, Eq)]
pub struct ExportProvenance {
    pub capsule_id: Digest,
    pub snapshot_id: Digest,
}

/// What an export says of itself for a card.
#[derive(Debug, PartialEq, Eq)]
pub struct Floor {
    pub title: Option<String>,
    pub summary: Option<String>,
    pub link: Option<String>,
    pub thumbnail_path: Option<String>,
}

/// An order for the adapter of a capsule's kind.
#[derive(Debug, PartialEq, Eq)]
pub struct ControlRequest {
    /// The kind of the capsule.
    pub kind: String,
    pub capsule_id: Digest,
    pub op: String,
    pub text: Option<String>,
    /// Where this device last put the files of the capsule.
    pub workspace: Option<String>,
    pub options: Table<String, String>,
}

/// A text, or null where there is none.
pub open spec fn nullable(s: Option<String>) -> JsonV {
    match s {
        Some(t) => JsonV::Str(t@),
        None => JsonV::Null,
    }
}

fn text_value(s: &Option<String>) -> (r: Json)
    ensures
        r@ == nullable(*s),
{
    match s {
        Some(t) => Json::Str(t.clone()),
        None => Json::Null,
    }
}

/// Options by name.
pub open spec fn options_of(s: Seq<(String, String)>) -> FieldMap
    decreases s.len(),
{
    if s.len() == 0 {
        Map::empty()
    } else {
        options_of(s.drop_last()).insert(s.last().0@, JsonV::Str(s.last().1@))
    }
}

/// All members are in order.
pub open spec fn all_orderly(m: FieldMap) -> bool {
    forall|k: Seq<char>| #[trigger] m.dom().contains(k) ==> orderly(m[k])
}

proof fn object_is_orderly(v: JsonV, m: FieldMap)
    requires
        is_object_of(v, m),
        all_orderly(m),
    ensures
        orderly(v),
{
    let s = v->Obj_0;
    assert forall|i: int| 0 <= i < s.len() implies orderly((#[trigger] s[i]).1) by {
        assert(m.dom().contains(s[i].0));
    }
}

fn options_value(options: &Table<String, String>) -> (r: Json)
    ensures
        r.wf(),
        r@ == object_of(options_of(options.entries@)),
{
    let s = &options.entries;
    let mut o = Object::new();
    let mut i: usize = 0;
    assert(s@.take(0) =~= Seq::<(String, String)>::empty());
    while i < s.len()
        invariant
            o.wf(),
            i <= s@.len(),
            o.fields() == options_of(s@.take(i as int)),
            all_orderly(o.fields()),
        decreases s.len() - i,
    {
        proof {
            assert(s@.take(i + 1).drop_last() =~= s@.take(i as int));
            assert(s@.take(i + 1).last() == s@[i as int]);
        }
        o.put_str(s[i].0.as_str(), s[i].1.as_str());
        i += 1;
    }
    assert(s@.take(i as int) =~= s@);
    let ghost m = o.fields();
    let r = o.done();
    proof {
        object_is_orderly(r@, m);
    }
    r
}

/// The members of a request to export.
pub open spec fn export_fields(kind: Seq<char>, source: JsonV, staging: Seq<char>, options: JsonV) -> FieldMap {
    Map::empty().insert("kind"@, JsonV::Str(kind)).insert("source"@, source).insert(
        "staging_dir"@,
        JsonV::Str(staging),
    ).insert("options"@, options)
}

/// The body of a request to export state.
pub fn export_body(kind: &str, source: Json, staging_dir: &str, options: &Table<String, String>) -> (r: Json)
    requires
        source.wf(),
    ensures
        r is Obj,
        r.wf(),
        r@ == object_of(
            export_fields(
                kind@,
                source@,
                staging_dir@,
                object_of(options_of(options.entries@)),
            ),
        ),
{
    let mut o = Object::new();
    o.put_str("kind", kind);
    o.put("source", source);
    o.put_str("staging_dir", staging_dir);
    o.put("options", options_value(options));
    let ghost m = o.fields();
    let r = o.done();
    proof {
        object_is_orderly(r@, m);
    }
    r
}

/// The members of a request to import.
pub open spec fn import_fields(
    kind: Seq<char>,
    payload: JsonV,
    files: JsonV,
    destination: JsonV,
    workspace: JsonV,
    options: JsonV,
) -> FieldMap {
    Map::empty().insert("kind"@, JsonV::Str(kind)).insert("payload"@, payload).insert(
        "materialized_files"@,
        files,
    ).insert("destination"@, destination).insert("workspace"@, workspace).insert(
        "options"@,
        options,
    )
}

/// The body of a request to import state.
pub fn import_body(
    kind: &str,
    payload: Json,
    materialized_files: &Option<String>,
    destination: Json,
    workspace: &Option<String>,
    options: &Table<String, String>,
) -> (r: Json)
    requires
        payload.wf(),
        destination.wf(),
    ensures
        r is Obj,
        r.wf(),
        r@ == object_of(
            import_fields(
                kind@,
                payload@,
                nullable(*materialized_files),
                destination@,
                nullable(*workspace),
                object_of(options_of(options.entries@)),
            ),
        ),
{
    let mut o = Object::new();
    o.put_str("kind", kind);
    o.put("payload", payload);
    o.put("materialized_files", text_value(materialized_files));
    o.put("destination", destination);
    o.put("workspace", text_value(workspace));
    o.put("options", options_value(options));
    let ghost m = o.fields();
    let r = o.done();
    proof {
        object_is_orderly(r@, m);
    }
    r
}

/// The members of a request to look at a source.
pub open spec fn look_fields(kind: Seq<char>, source: JsonV, options: JsonV) -> FieldMap {
    Map::empty().insert("kind"@, JsonV::Str(kind)).insert("source"@, source).insert(
        "options"@,
        options,
    )
}

/// The body of a request to inspect a source, or to show a preview of it.
pub fn look_body(kind: &str, source: Json, options: &Table<String, String>) -> (r: Json)
    requires
        source.wf(),
    ensures
        r is Obj,
        r.wf(),
        r@ == object_of(look_fields(kind@, source@, object_of(options_of(options.entries@)))),
{
    let mut o = Object::new();
    o.put_str("kind", kind);
    o.put("source", source);
    o.put("options", options_value(options));
    let ghost m = o.fields();
    let r = o.done();
    proof {
        object_is_orderly(r@, m);
    }
    r
}

/// The members of a request for an inventory.
pub open spec fn inventory_fields(kind: Seq<char>) -> FieldMap {
    Map::empty().insert("kind"@, JsonV::Str(kind)).insert(
        "options"@,
        object_of(options_of(Seq::empty())),
    )
}

/// The body of a request for an inventory.
pub fn inventory_body(kind: &str) -> (r: Json)
    ensures
        r is Obj,
        r.wf(),
        r@ == object_of(inventory_fields(kind@)),
{
    let none: Table<String, String> = Table::new();
    assert(none.entries@ =~= Seq::<(String, String)>::empty());
    let mut o = Object::new();
    o.put_str("kind", kind);
    o.put("options", options_value(&none));
    let ghost m = o.fields();
    let r = o.done();
    proof {
        object_is_orderly(r@, m);
    }
    r
}

/// The members of an order.
pub open spec fn control_fields(r: ControlRequest) -> FieldMap {
    Map::empty().insert("kind"@, JsonV::Str(r.kind@)).insert(
        "capsule_id"@,
        JsonV::Str(hex_text(r.capsule_id.0@)),
    ).insert("op"@, JsonV::Str(r.op@)).insert("text"@, nullable(r.text)).insert(
        "workspace"@,
        nullable(r.workspace),
    ).insert("options"@, object_of(options_of(r.options.entries@)))
}

impl ControlRequest {
    /// The body of the order.
    pub fn to_json(&self) -> (r: Json)
        ensures
            r is Obj,
            r.wf(),
            r@ == object_of(control_fields(*self)),
    {
        let mut o = Object::new();
        o.put_str("kind", self.kind.as_str());
        o.put_str("capsule_id", self.capsule_id.to_hex().as_str());
        o.put_str("op", self.op.as_str());
        o.put("text", text_value(&self.text));
        o.put("workspace", text_value(&self.workspace));
        o.put("options", options_value(&self.options));
        let ghost m = o.fields();
        let r = o.done();
        proof {
            object_is_orderly(r@, m);
        }
        r
    }
}

} // verus!
