//! What goes to an adapter's program, and what its answers mean.
use vstd::prelude::*;

use crate::adapter::fault::FaultV;
use crate::adapter::protocol::{
    inspect_in, inventory_in, item_in, item_members, items_in, opened, opt_member, options_member,
    preview_in, response_in,
};
use crate::adapter::request::{
    control_fields, export_fields, import_fields, look_fields, options_of, ControlRequest,
};
use crate::json::{member, JsonV};
use crate::members::{find, find_concat, find_small};
use crate::record::Members;
use crate::shape::{opt_text_in, slot, text_in};
use crate::util::hex_text;

verus! {

/// What is left of an answer once its envelope is off: every member but the two of the envelope, as it
/// was.
pub proof fn envelope_comes_off(m: Members, key: Seq<char>)
    ensures
        key != "request_id"@ && key != "ok"@ ==> find(opened(m), key) == find(m, key),
        key == "request_id"@ || key == "ok"@ ==> find(opened(m), key) is None,
    decreases m.len(),
{
    find_small(key, key, JsonV::Null);
    if m.len() > 0 {
        let front = m.drop_last();
        envelope_comes_off(front, key);
        let last = seq![m.last()];
        find_small(key, m.last().0, m.last().1);
        assert(last =~= seq![(m.last().0, m.last().1)]);
        assert(m =~= front + last);
        find_concat(front, last, key);
        assert(opened(front).push(m.last()) =~= opened(front) + last);
        find_concat(opened(front), last, key);
    } else {
        assert(opened(m) =~= Seq::empty());
        assert(m =~= Seq::empty());
    }
}

/// An answer counts only where it is to this request and says that all went well. Where it does not
/// say so, what it gives as the error is reported, with its code, its words and whether to try again.
pub proof fn answers_are_to_the_request(verb: Seq<char>, request_id: Seq<char>, v: JsonV)
    ensures
        response_in(verb, request_id, v) is Ok ==> member(v, "request_id"@) == Some(
            JsonV::Str(request_id),
        ) && member(v, "ok"@) == Some(JsonV::Bool(true)),
        ({
            let e = member(v, "error"@)->0;
            member(v, "request_id"@) == Some(JsonV::Str(request_id)) && member(v, "ok"@) != Some(
                JsonV::Bool(true),
            ) && member(v, "error"@) is Some && e is Obj && (member(e, "code"@) matches Some(
                JsonV::Str(c),
            ) && member(e, "message"@) matches Some(JsonV::Str(w)) && member(
                e,
                "retryable"@,
            ) matches Some(JsonV::Bool(b))) ==> response_in(verb, request_id, v) == Err::<
                JsonV,
                FaultV,
            >(
                FaultV::Adapter(
                    member(e, "code"@)->0->Str_0,
                    member(e, "message"@)->0->Str_0,
                    member(e, "retryable"@)->0->Bool_0,
                ),
            )
        }),
{
}

/// What was exported comes through as the adapter gave it: an object under `payload`, and everything
/// else that it said.
pub proof fn exports_come_through(request_id: Seq<char>, v: JsonV, key: Seq<char>)
    requires
        v is Obj,
        key != "request_id"@,
        key != "ok"@,
    ensures
        response_in("export"@, request_id, v) matches Ok(r) ==> member(r, key) == member(v, key)
            && (member(v, "payload"@) matches Some(p) && p is Obj),
        member(v, "request_id"@) == Some(JsonV::Str(request_id)) && member(v, "ok"@) == Some(
            JsonV::Bool(true),
        ) && (member(v, "payload"@) matches Some(p) && p is Obj) ==> response_in(
            "export"@,
            request_id,
            v,
        ) is Ok,
{
    payload_is_no_envelope();
    envelope_comes_off(v->Obj_0, key);
    envelope_comes_off(v->Obj_0, "payload"@);
}

proof fn payload_is_no_envelope()
    ensures
        "payload"@ != "request_id"@,
        "payload"@ != "ok"@,
        "result"@ != "request_id"@,
        "result"@ != "ok"@,
        "deep_link"@ != "request_id"@,
        "deep_link"@ != "ok"@,
        "result"@ != "deep_link"@,
        "export"@ != "import"@,
        "export"@ != "control"@,
        "import"@ != "control"@,
{
    reveal_strlit("payload");
    reveal_strlit("request_id");
    reveal_strlit("ok");
    reveal_strlit("result");
    reveal_strlit("deep_link");
    reveal_strlit("export");
    reveal_strlit("import");
    reveal_strlit("control");
    assert("export"@[0] != "import"@[0]);
    assert("payload"@.len() == 7 && "request_id"@.len() == 10 && "ok"@.len() == 2 && "result"@.len()
        == 6 && "deep_link"@.len() == 9 && "export"@.len() == 6 && "import"@.len() == 6
        && "control"@.len() == 7);
}

/// The result of an import or an order comes through as the adapter gave it. An import may come with a
/// link into the application, which comes through where it is not null.
pub proof fn results_come_through(request_id: Seq<char>, v: JsonV)
    requires
        v is Obj,
    ensures
        response_in("control"@, request_id, v) matches Ok(r) ==> member(v, "result"@) == Some(r),
        response_in("import"@, request_id, v) matches Ok(r) ==> member(r, "result"@) == member(
            v,
            "result"@,
        ) && member(v, "result"@) is Some && member(r, "deep_link"@) == (match member(
            v,
            "deep_link"@,
        ) {
            Some(JsonV::Null) => None,
            x => x,
        }),
{
    payload_is_no_envelope();
    let m = v->Obj_0;
    let w = JsonV::Obj(opened(m));
    envelope_comes_off(m, "result"@);
    envelope_comes_off(m, "deep_link"@);
    if let Ok(r) = response_in("import"@, request_id, v) {
        let result = member(v, "result"@)->0;
        find_small("result"@, "result"@, result);
        find_small("deep_link"@, "result"@, result);
        if let Some(link) = member(v, "deep_link"@) {
            let a = seq![("deep_link"@, link)];
            let b = seq![("result"@, result)];
            assert(a + b =~= seq![("deep_link"@, link), ("result"@, result)]);
            find_concat(a, b, "result"@);
            find_concat(a, b, "deep_link"@);
            find_small("result"@, "deep_link"@, link);
            find_small("deep_link"@, "deep_link"@, link);
        }
    }
}

/// A list of items comes through item by item, or not at all.
pub proof fn items_come_through(a: Seq<JsonV>)
    ensures
        items_in(a) is Some <==> forall|i: int| 0 <= i < a.len() ==> item_in(#[trigger] a[i]) is Some,
        items_in(a) matches Some(t) ==> t.len() == a.len() && forall|i: int|
            0 <= i < a.len() ==> item_in(#[trigger] a[i]) == Some(t[i]),
    decreases a.len(),
{
    if a.len() > 0 {
        let front = a.drop_last();
        items_come_through(front);
        assert(a[a.len() - 1] == a.last());
        if items_in(a) is Some {
            let before = items_in(front)->0;
            let t = items_in(a)->0;
            assert forall|i: int| 0 <= i < a.len() implies item_in(#[trigger] a[i]) == Some(
                t[i],
            ) by {
                if i < front.len() {
                    assert(front[i] == a[i]);
                    assert(item_in(front[i]) == Some(before[i]));
                }
            }
        }
        if forall|i: int| 0 <= i < a.len() ==> item_in(#[trigger] a[i]) is Some {
            assert forall|i: int| 0 <= i < front.len() implies item_in(#[trigger] front[i]) is Some by {
                assert(front[i] == a[i]);
            }
        }
    }
}

proof fn item_keys_differ()
    ensures
        "id"@.len() == 2,
        "kind"@.len() == 4,
        "label"@.len() == 5,
        "detail"@.len() == 6,
        "source"@.len() == 6,
        "reason"@.len() == 6,
        "detail"@ != "source"@,
        "detail"@ != "reason"@,
        "source"@ != "reason"@,
        "options"@.len() == 7,
        "transferable"@.len() == 12,
{
    reveal_strlit("id");
    reveal_strlit("kind");
    reveal_strlit("label");
    reveal_strlit("detail");
    reveal_strlit("source");
    reveal_strlit("reason");
    reveal_strlit("options");
    reveal_strlit("transferable");
    assert("detail"@[0] != "source"@[0]);
    assert("detail"@[0] != "reason"@[0]);
    assert("source"@[0] != "reason"@[0]);
}

proof fn found_in_item(
    key: Seq<char>,
    id: Seq<char>,
    kind: Seq<char>,
    label: Seq<char>,
    detail: Option<Seq<char>>,
    source: JsonV,
    options: Option<JsonV>,
    transferable: bool,
    reason: Option<Seq<char>>,
)
    requires
        key == "id"@ || key == "kind"@ || key == "label"@ || key == "source"@ || key
            == "transferable"@,
    ensures
        find(item_members(id, kind, label, detail, source, options, transferable, reason), key)
            == Some(
            if key == "id"@ {
                JsonV::Str(id)
            } else if key == "kind"@ {
                JsonV::Str(kind)
            } else if key == "label"@ {
                JsonV::Str(label)
            } else if key == "source"@ {
                source
            } else {
                JsonV::Bool(transferable)
            },
        ),
{
    item_keys_differ();
    let a = opt_member("detail"@, detail);
    let b1 = seq![("id"@, JsonV::Str(id))];
    let b2 = seq![("kind"@, JsonV::Str(kind))];
    let b3 = seq![("label"@, JsonV::Str(label))];
    let c = options_member(options);
    let d = opt_member("reason"@, reason);
    let e1 = seq![("source"@, source)];
    let e2 = seq![("transferable"@, JsonV::Bool(transferable))];
    let all = item_members(id, kind, label, detail, source, options, transferable, reason);
    assert(all =~= a + (b1 + (b2 + (b3 + (c + (d + (e1 + e2)))))));
    find_concat(a, b1 + (b2 + (b3 + (c + (d + (e1 + e2))))), key);
    find_concat(b1, b2 + (b3 + (c + (d + (e1 + e2)))), key);
    find_concat(b2, b3 + (c + (d + (e1 + e2))), key);
    find_concat(b3, c + (d + (e1 + e2)), key);
    find_concat(c, d + (e1 + e2), key);
    find_concat(d, e1 + e2, key);
    find_concat(e1, e2, key);
    find_small(key, "id"@, JsonV::Str(id));
    find_small(key, "kind"@, JsonV::Str(kind));
    find_small(key, "label"@, JsonV::Str(label));
    find_small(key, "source"@, source);
    find_small(key, "transferable"@, JsonV::Bool(transferable));
    if let Some(t) = detail {
        find_small(key, "detail"@, JsonV::Str(t));
    }
    if let Some(t) = reason {
        find_small(key, "reason"@, JsonV::Str(t));
    }
    if let Some(x) = options {
        find_small(key, "options"@, x);
    }
}

/// An item of an inventory keeps its id, its kind, its label, its source and whether it can be
/// transferred.
pub proof fn items_keep_what_they_say(v: JsonV, key: Seq<char>)
    requires
        v is Obj,
        item_in(v) is Some,
        key == "id"@ || key == "kind"@ || key == "label"@ || key == "source"@ || key
            == "transferable"@,
    ensures
        member(item_in(v)->0, key) == member(v, key),
{
    item_keys_differ();
    found_in_item(
        key,
        text_in(slot(v, "id"@, 0))->0,
        text_in(slot(v, "kind"@, 1))->0,
        text_in(slot(v, "label"@, 2))->0,
        opt_text_in(slot(v, "detail"@, 3))->0,
        slot(v, "source"@, 4)->0,
        slot(v, "options"@, 5),
        slot(v, "transferable"@, 6)->0->Bool_0,
        opt_text_in(slot(v, "reason"@, 7))->0,
    );
}

/// A preview is a picture in one of three formats, with its size, and comes through as it is. What is
/// found by looking comes through as lists, empty where none were given.
pub proof fn previews_are_pictures(v: JsonV)
    ensures
        preview_in(v) matches Ok(r) ==> r == v && {
            let media = member(v, "media_type"@);
            &&& media == Some(JsonV::Str("image/jpeg"@)) || media == Some(
                JsonV::Str("image/png"@),
            ) || media == Some(JsonV::Str("image/webp"@))
            &&& member(v, "data"@) matches Some(d) && d is Str
            &&& member(v, "width"@) is Some
            &&& member(v, "height"@) is Some
        },
        inspect_in(v) is Ok ==> member(v, "result"@) is None,
{
}

/// An inventory has at most 256 items.
pub proof fn inventories_are_bounded(v: JsonV)
    ensures
        inventory_in(v) is Ok ==> (member(v, "items"@) matches Some(JsonV::Arr(a)) && a.len()
            <= 256),
{
    if let Some(JsonV::Arr(a)) = member(v, "items"@) {
        items_come_through(a);
    }
}

/// What a program is told of an export: the kind, the source, the directory to stage files in, and
/// the options.
pub proof fn export_says_what_is_wanted(kind: Seq<char>, source: JsonV, staging: Seq<char>, options: JsonV)
    ensures
        ({
            let f = export_fields(kind, source, staging, options);
            &&& f.dom().contains("kind"@) && f["kind"@] == JsonV::Str(kind)
            &&& f.dom().contains("source"@) && f["source"@] == source
            &&& f.dom().contains("staging_dir"@) && f["staging_dir"@] == JsonV::Str(staging)
            &&& f.dom().contains("options"@) && f["options"@] == options
        }),
{
    keys_differ();
}

/// What a program is told of an import: the kind, the payload, where its files are, the destination,
/// the workspace and the options.
pub proof fn import_says_what_is_given(
    kind: Seq<char>,
    payload: JsonV,
    files: JsonV,
    destination: JsonV,
    workspace: JsonV,
    options: JsonV,
)
    ensures
        ({
            let f = import_fields(kind, payload, files, destination, workspace, options);
            &&& f.dom().contains("kind"@) && f["kind"@] == JsonV::Str(kind)
            &&& f.dom().contains("payload"@) && f["payload"@] == payload
            &&& f.dom().contains("materialized_files"@) && f["materialized_files"@] == files
            &&& f.dom().contains("destination"@) && f["destination"@] == destination
            &&& f.dom().contains("workspace"@) && f["workspace"@] == workspace
            &&& f.dom().contains("options"@) && f["options"@] == options
        }),
{
    keys_differ();
}

/// What a program is told of an order: the kind and the capsule, the order and its text, the
/// workspace and the options.
pub proof fn order_says_what_to_do(r: ControlRequest, kind: Seq<char>, source: JsonV, options: JsonV)
    ensures
        ({
            let f = control_fields(r);
            &&& f.dom().contains("kind"@) && f["kind"@] == JsonV::Str(r.kind@)
            &&& f.dom().contains("capsule_id"@) && f["capsule_id"@] == JsonV::Str(
                hex_text(r.capsule_id.0@),
            )
            &&& f.dom().contains("op"@) && f["op"@] == JsonV::Str(r.op@)
            &&& f.dom().contains("text"@) && f["text"@] == match r.text {
                Some(t) => JsonV::Str(t@),
                None => JsonV::Null,
            }
            &&& f.dom().contains("workspace"@) && f["workspace"@] == match r.workspace {
                Some(t) => JsonV::Str(t@),
                None => JsonV::Null,
            }
        }),
        ({
            let f = look_fields(kind, source, options);
            &&& f.dom().contains("kind"@) && f["kind"@] == JsonV::Str(kind)
            &&& f.dom().contains("source"@) && f["source"@] == source
            &&& f.dom().contains("options"@) && f["options"@] == options
        }),
{
    keys_differ();
}

proof fn keys_differ()
    ensures
        "kind"@.len() == 4,
        "source"@.len() == 6,
        "staging_dir"@.len() == 11,
        "options"@.len() == 7,
        "payload"@.len() == 7,
        "payload"@ != "options"@,
        "materialized_files"@.len() == 18,
        "destination"@.len() == 11,
        "workspace"@.len() == 9,
        "capsule_id"@.len() == 10,
        "op"@.len() == 2,
        "text"@.len() == 4,
        "text"@ != "kind"@,
{
    reveal_strlit("kind");
    reveal_strlit("source");
    reveal_strlit("staging_dir");
    reveal_strlit("options");
    reveal_strlit("payload");
    reveal_strlit("materialized_files");
    reveal_strlit("destination");
    reveal_strlit("workspace");
    reveal_strlit("capsule_id");
    reveal_strlit("op");
    reveal_strlit("text");
    assert("payload"@[0] != "options"@[0]);
    assert("text"@[0] != "kind"@[0]);
}

/// The options that are given are passed on under their names, and no others.
pub proof fn options_are_passed_on(s: Seq<(String, String)>)
    requires
        forall|i: int, j: int| 0 <= i < j < s.len() ==> (#[trigger] s[i]).0@ != (#[trigger] s[j]).0@,
    ensures
        forall|k: Seq<char>| #[trigger]
            options_of(s).dom().contains(k) <==> exists|i: int|
                0 <= i < s.len() && (#[trigger] s[i]).0@ == k,
        forall|i: int|
            0 <= i < s.len() ==> options_of(s)[(#[trigger] s[i]).0@] == JsonV::Str(s[i].1@),
    decreases s.len(),
{
    if s.len() > 0 {
        let front = s.drop_last();
        assert forall|i: int, j: int| 0 <= i < j < front.len() implies (#[trigger] front[i]).0@ != (
        #[trigger] front[j]).0@ by {
            assert(front[i] == s[i] && front[j] == s[j]);
        }
        options_are_passed_on(front);
        assert(s[s.len() - 1] == s.last());
        let (before, all) = (options_of(front), options_of(s));
        assert forall|k: Seq<char>| #[trigger] all.dom().contains(k) <==> exists|i: int|
            0 <= i < s.len() && (#[trigger] s[i]).0@ == k by {
            if before.dom().contains(k) {
                let i = choose|i: int| 0 <= i < front.len() && (#[trigger] front[i]).0@ == k;
                assert(s[i].0@ == k);
            }
            if exists|i: int| 0 <= i < s.len() && (#[trigger] s[i]).0@ == k {
                let i = choose|i: int| 0 <= i < s.len() && (#[trigger] s[i]).0@ == k;
                if i < front.len() {
                    assert(front[i].0@ == k);
                    assert(before.dom().contains(k));
                }
            }
        }
        assert forall|i: int| 0 <= i < s.len() implies all[(#[trigger] s[i]).0@] == JsonV::Str(
            s[i].1@,
        ) by {
            if i < front.len() {
                assert(front[i] == s[i]);
                assert(s[i].0@ != s[s.len() - 1].0@);
            }
        }
    }
}

} // verus!
