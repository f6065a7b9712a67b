//! Requests to adapters and their responses, one line of JSON each.
use vstd::prelude::*;
use vstd::utf8::encode_utf8;

use crate::adapter::fault::{AdapterError, Fault, FaultV};
use crate::canonical::{json_bytes, json_of, parse_json, render};
use crate::identity::random_bytes;
use crate::json::{json_views, member, member_views, Json, JsonV};
use crate::record::{fields_of, object_of, FieldMap, Fields, Members, Object};
use crate::shape::{
    list_in, opt_text_in, opt_view, read_list, read_opt_text, read_text, slot, take_slot, text_in,
    text_view,
};
use crate::text::{concat, same_text};
use crate::util::{hex_encode, hex_text};

verus! {

/// The longest line.
pub const MAX_LINE: usize = 1_048_576;

/// The members of a request: those of its body, and an envelope that the body cannot change.
pub open spec fn enveloped(body: FieldMap, verb: Seq<char>, id: Seq<char>) -> FieldMap {
    body.insert("protocol"@, JsonV::Str("abra-adapter/1"@)).insert(
        "request_id"@,
        JsonV::Str(id),
    ).insert("verb"@, JsonV::Str(verb))
}

/// The members of an object by key.
pub open spec fn body_fields(body: Json) -> FieldMap {
    fields_of(body->Obj_0@)
}

/// A request with an id.
pub fn build_request_with(verb: &str, body: Json, id: &str) -> (r: Result<Json, Fault>)
    requires
        body.wf(),
    ensures
        match r {
            Ok(v) => body is Obj && v@ == object_of(enveloped(body_fields(body), verb@, id@))
                && json_bytes(v@).len() <= MAX_LINE,
            Err(f) => if body is Obj {
                f@ == FaultV::Text("adapter request exceeds 1 MiB"@) && json_bytes(
                    object_of(enveloped(body_fields(body), verb@, id@)),
                ).len() > MAX_LINE
            } else {
                f@ == FaultV::Text("adapter request body must be an object"@)
            },
        },
{
    match body {
        Json::Obj(t) => {
            proof {
                assert(t.wf()) by {
                    crate::json::object_is_ascending(body);
                }
            }
            let mut fields = Object { members: t };
            fields.put_str("protocol", "abra-adapter/1");
            fields.put_str("request_id", id);
            fields.put_str("verb", verb);
            let request = fields.done();
            let line = render(&request);
            if line.as_str().as_bytes().len() > MAX_LINE {
                return Err(Fault::text("adapter request exceeds 1 MiB"));
            }
            Ok(request)
        },
        _ => Err(Fault::text("adapter request body must be an object")),
    }
}

/// A request with an id of its own.
pub fn build_request(verb: &str, body: Json) -> (r: Result<(String, Json), Fault>)
    requires
        body.wf(),
    ensures
        match r {
            Ok((id, v)) => {
                &&& body is Obj
                &&& exists|raw: [u8; 16]| id@ == hex_text(#[trigger] raw@)
                &&& v@ == object_of(enveloped(body_fields(body), verb@, id@))
                &&& json_bytes(v@).len() <= MAX_LINE
            },
            Err(f) => if body is Obj {
                f@ == FaultV::Text("adapter request exceeds 1 MiB"@) && exists|raw: [u8; 16]|
                    json_bytes(
                        object_of(
                            enveloped(body_fields(body), verb@, hex_text(#[trigger] raw@)),
                        ),
                    ).len() > MAX_LINE
            } else {
                f@ == FaultV::Text("adapter request body must be an object"@)
            },
        },
{
    let raw = random_bytes::<16>();
    let id = hex_encode(raw.as_slice());
    match build_request_with(verb, body, id.as_str()) {
        Ok(v) => Ok((id, v)),
        Err(f) => Err(f),
    }
}

/// The failure that an adapter reports.
pub open spec fn failure_in(v: JsonV) -> FaultV {
    let code = text_in(slot(v, "code"@, 0));
    let message = text_in(slot(v, "message"@, 1));
    let long = v matches JsonV::Arr(a) && a.len() > 3;
    match (code, message, slot(v, "retryable"@, 2)) {
        (Some(c), Some(m), Some(JsonV::Bool(b))) => if long {
            FaultV::Text("malformed adapter error"@)
        } else {
            FaultV::Adapter(c, m, b)
        },
        _ => FaultV::Text("malformed adapter error"@),
    }
}

fn read_failure(v: &Json) -> (r: Fault)
    ensures
        r@ == failure_in(v@),
{
    let long = match v {
        Json::Arr(a) => a.len() > 3,
        _ => false,
    };
    let code = read_text(take_slot(v, "code", 0));
    let message = read_text(take_slot(v, "message", 1));
    let retryable = match take_slot(v, "retryable", 2) {
        Some(Json::Bool(b)) => Some(*b),
        _ => None,
    };
    match (code, message, retryable) {
        (Some(code), Some(message), Some(retryable)) => if long {
            Fault::text("malformed adapter error")
        } else {
            Fault::Adapter(AdapterError { code, message, retryable })
        },
        _ => Fault::text("malformed adapter error"),
    }
}

/// The members without the envelope of a response.
pub open spec fn opened(m: Members) -> Members
    decreases m.len(),
{
    if m.len() == 0 {
        m
    } else {
        let before = opened(m.drop_last());
        if m.last().0 == "request_id"@ || m.last().0 == "ok"@ {
            before
        } else {
            before.push(m.last())
        }
    }
}

/// Something is wrong, in these words.
pub open spec fn wrong(words: Seq<char>) -> Result<JsonV, FaultV> {
    Err(FaultV::Text(words))
}

/// What an import answers: its result, and a link where there is one.
pub open spec fn import_in(v: JsonV) -> Result<JsonV, FaultV> {
    match member(v, "result"@) {
        None => wrong("adapter import response requires result"@),
        Some(result) => Ok(
            JsonV::Obj(
                match member(v, "deep_link"@) {
                    None => seq![("result"@, result)],
                    Some(JsonV::Null) => seq![("result"@, result)],
                    Some(link) => seq![("deep_link"@, link), ("result"@, result)],
                },
            ),
        ),
    }
}

/// What an inspection answers.
pub open spec fn inspect_in(v: JsonV) -> Result<JsonV, FaultV> {
    if member(v, "result"@) is Some {
        wrong("adapter inspect response must use flat fields"@)
    } else {
        match (
            opt_text_in(member(v, "summary"@)),
            list_in(member(v, "warnings"@)),
            list_in(member(v, "blocked"@)),
        ) {
            (Some(summary), Some(warnings), Some(blocked)) => Ok(
                JsonV::Obj(
                    seq![
                        ("blocked"@, blocked),
                        (
                            "summary"@,
                            match summary {
                                Some(s) => JsonV::Str(s),
                                None => JsonV::Null,
                            },
                        ),
                        ("warnings"@, warnings),
                    ],
                ),
            ),
            _ => wrong("malformed inspect response"@),
        }
    }
}

/// An integer that is not negative.
pub open spec fn is_natural(v: Option<JsonV>) -> bool {
    match v {
        Some(JsonV::Int(n)) => n >= 0,
        Some(JsonV::Nat(n)) => true,
        _ => false,
    }
}

/// The items of a preview, where there are any, are in order.
pub open spec fn preview_items_fault(v: Option<JsonV>) -> Option<Seq<char>> {
    match v {
        None => None,
        Some(JsonV::Arr(a)) => if a.len() > 64 || exists|i: int|
            0 <= i < a.len() && text_in(member(#[trigger] a[i], "label"@)) is None {
            Some("adapter preview items need a label each, at most 64"@)
        } else {
            None
        },
        Some(_) => Some("adapter preview items must be an array"@),
    }
}

/// What a preview answers.
pub open spec fn preview_in(v: JsonV) -> Result<JsonV, FaultV> {
    let media = text_in(member(v, "media_type"@));
    if !(media == Some("image/jpeg"@) || media == Some("image/png"@) || media == Some(
        "image/webp"@,
    )) {
        wrong(
            "adapter preview response requires media_type image/jpeg, image/png, or image/webp"@,
        )
    } else if text_in(member(v, "data"@)) is None {
        wrong("adapter preview response requires base64 data"@)
    } else if !(is_natural(member(v, "width"@)) && is_natural(member(v, "height"@))) {
        wrong("adapter preview response requires width and height"@)
    } else {
        match preview_items_fault(member(v, "items"@)) {
            Some(words) => wrong(words),
            None => Ok(v),
        }
    }
}

/// One item of an inventory as it is passed on.
pub open spec fn item_in(v: JsonV) -> Option<JsonV> {
    match (
        text_in(slot(v, "id"@, 0)),
        text_in(slot(v, "kind"@, 1)),
        text_in(slot(v, "label"@, 2)),
        opt_text_in(slot(v, "detail"@, 3)),
        slot(v, "source"@, 4),
        slot(v, "transferable"@, 6),
        opt_text_in(slot(v, "reason"@, 7)),
    ) {
        (
            Some(id),
            Some(kind),
            Some(label),
            Some(detail),
            Some(source),
            Some(JsonV::Bool(transferable)),
            Some(reason),
        ) => if item_fits(v) {
            Some(
                JsonV::Obj(
                    item_members(
                        id,
                        kind,
                        label,
                        detail,
                        source,
                        slot(v, "options"@, 5),
                        transferable,
                        reason,
                    ),
                ),
            )
        } else {
            None
        },
        _ => None,
    }
}

/// The members of an item.
pub open spec fn item_members(
    id: Seq<char>,
    kind: Seq<char>,
    label: Seq<char>,
    detail: Option<Seq<char>>,
    source: JsonV,
    options: Option<JsonV>,
    transferable: bool,
    reason: Option<Seq<char>>,
) -> Members {
    opt_member("detail"@, detail) + seq![
        ("id"@, JsonV::Str(id)),
        ("kind"@, JsonV::Str(kind)),
        ("label"@, JsonV::Str(label)),
    ] + options_member(options) + opt_member("reason"@, reason) + seq![
        ("source"@, source),
        ("transferable"@, JsonV::Bool(transferable)),
    ]
}

/// A part of an item.
pub open spec fn item_key(k: Seq<char>) -> bool {
    k == "id"@ || k == "kind"@ || k == "label"@ || k == "detail"@ || k == "source"@ || k
        == "options"@ || k == "transferable"@ || k == "reason"@
}

/// A member that is left out where there is no text.
pub open spec fn opt_member(key: Seq<char>, value: Option<Seq<char>>) -> Members {
    match value {
        Some(s) => seq![(key, JsonV::Str(s))],
        None => Seq::empty(),
    }
}

/// The options of an item, left out where there are none.
pub open spec fn options_member(v: Option<JsonV>) -> Members {
    match v {
        None => Seq::empty(),
        Some(JsonV::Null) => Seq::empty(),
        Some(x) => seq![("options"@, x)],
    }
}

/// Items as they are passed on; nothing where one is not in order.
pub open spec fn items_in(a: Seq<JsonV>) -> Option<Seq<JsonV>>
    decreases a.len(),
{
    if a.len() == 0 {
        Some(Seq::empty())
    } else {
        match (items_in(a.drop_last()), item_in(a.last())) {
            (Some(before), Some(x)) => Some(before.push(x)),
            _ => None,
        }
    }
}

/// The most items of an inventory.
pub const MAX_INVENTORY_ITEMS: usize = 256;

/// What an inventory answers.
pub open spec fn inventory_in(v: JsonV) -> Result<JsonV, FaultV> {
    let known = v matches JsonV::Obj(m) && forall|i: int|
        0 <= i < m.len() ==> (#[trigger] m[i]).0 == "label"@ || m[i].0 == "items"@ || m[i].0
            == "error"@;
    let items = match member(v, "items"@) {
        Some(JsonV::Arr(a)) => items_in(a),
        _ => None,
    };
    match (text_in(member(v, "label"@)), items, opt_text_in(member(v, "error"@))) {
        (Some(label), Some(list), Some(error)) => if !known {
            wrong("malformed inventory report"@)
        } else if list.len() > MAX_INVENTORY_ITEMS {
            wrong("inventory report exceeds 256 items"@)
        } else {
            Ok(
                JsonV::Obj(
                    opt_member("error"@, error) + seq![
                        ("items"@, JsonV::Arr(list)),
                        ("label"@, JsonV::Str(label)),
                    ],
                ),
            )
        },
        _ => wrong("malformed inventory report"@),
    }
}

/// What a successful response answers, by verb.
pub open spec fn answer_in(verb: Seq<char>, v: JsonV) -> Result<JsonV, FaultV> {
    if verb == "export"@ {
        if member(v, "payload"@) matches Some(p) && p is Obj {
            Ok(v)
        } else {
            wrong("adapter export response requires an object payload"@)
        }
    } else if verb == "import"@ {
        import_in(v)
    } else if verb == "control"@ {
        match member(v, "result"@) {
            Some(result) => Ok(result),
            None => wrong("adapter control response requires result"@),
        }
    } else if verb == "inspect"@ {
        inspect_in(v)
    } else if verb == "preview"@ {
        preview_in(v)
    } else if verb == "inventory"@ {
        inventory_in(v)
    } else {
        wrong("unsupported adapter response verb: "@ + verb)
    }
}

/// What a response answers to a request.
pub open spec fn response_in(verb: Seq<char>, request_id: Seq<char>, v: JsonV) -> Result<JsonV, FaultV> {
    if member(v, "request_id"@) != Some(JsonV::Str(request_id)) {
        wrong("adapter response request_id mismatch"@)
    } else if member(v, "ok"@) != Some(JsonV::Bool(true)) {
        match member(v, "error"@) {
            None => wrong("adapter failure response lacks error"@),
            Some(e) => Err(failure_in(e)),
        }
    } else {
        answer_in(verb, JsonV::Obj(opened(v->Obj_0)))
    }
}

/// The result as it is.
pub open spec fn result_view(r: Result<Json, Fault>) -> Result<JsonV, FaultV> {
    match r {
        Ok(v) => Ok(v@),
        Err(f) => Err(f@),
    }
}

fn say(words: &str) -> (r: Result<Json, Fault>)
    ensures
        result_view(r) == wrong(words@),
{
    Err(Fault::text(words))
}

fn without_envelope(v: &Json) -> (r: Json)
    requires
        v is Obj,
    ensures
        r@ == JsonV::Obj(opened(v@->Obj_0)),
{
    let mut f = Fields::new();
    match v {
        Json::Obj(t) => {
            let ghost m = member_views(t.entries@);
            let mut i: usize = 0;
            assert(m.take(0) =~= Members::empty());
            assert(f.so_far() =~= Members::empty());
            while i < t.entries.len()
                invariant
                    i <= t.entries@.len(),
                    m == member_views(t.entries@),
                    f.so_far() == opened(m.take(i as int)),
                decreases t.entries.len() - i,
            {
                proof {
                    assert(m.take(i + 1).drop_last() =~= m.take(i as int));
                    assert(m.take(i + 1).last() == m[i as int]);
                    assert(m[i as int] == (t.entries@[i as int].0@, t.entries@[i as int].1@));
                }
                let key = t.entries[i].0.as_str();
                if !same_text(key, "request_id") && !same_text(key, "ok") {
                    f.put(key, t.entries[i].1.duplicate());
                }
                i += 1;
            }
            assert(m.take(i as int) =~= m);
        },
        _ => {},
    }
    f.done()
}

fn read_import(v: &Json) -> (r: Result<Json, Fault>)
    ensures
        result_view(r) == import_in(v@),
{
    let result = match v.get("result") {
        None => {
            return say("adapter import response requires result");
        },
        Some(x) => x,
    };
    let mut f = Fields::new();
    match v.get("deep_link") {
        None => {},
        Some(Json::Null) => {},
        Some(link) => {
            f.put("deep_link", link.duplicate());
        },
    }
    f.put("result", result.duplicate());
    assert(f.so_far() =~= import_in(v@)->Ok_0->Obj_0);
    Ok(f.done())
}

fn text_or_null(s: Option<String>) -> (r: Json)
    ensures
        r@ == match s {
            Some(t) => JsonV::Str(t@),
            None => JsonV::Null,
        },
{
    match s {
        Some(t) => Json::Str(t),
        None => Json::Null,
    }
}

fn read_inspect(v: &Json) -> (r: Result<Json, Fault>)
    ensures
        result_view(r) == inspect_in(v@),
{
    if v.get("result").is_some() {
        return say("adapter inspect response must use flat fields");
    }
    let summary = read_opt_text(v.get("summary"));
    let warnings = read_list(v.get("warnings"));
    let blocked = read_list(v.get("blocked"));
    match (summary, warnings, blocked) {
        (Some(summary), Some(warnings), Some(blocked)) => {
            let mut f = Fields::new();
            f.put("blocked", blocked);
            f.put("summary", text_or_null(summary));
            f.put("warnings", warnings);
            assert(f.so_far() =~= inspect_in(v@)->Ok_0->Obj_0);
            Ok(f.done())
        },
        _ => say("malformed inspect response"),
    }
}

fn natural(v: Option<&Json>) -> (r: bool)
    ensures
        r == is_natural(opt_view(v)),
{
    match v {
        Some(Json::Int(n)) => *n >= 0,
        Some(Json::Nat(_)) => true,
        _ => false,
    }
}

fn has_text(v: Option<&Json>) -> (r: bool)
    ensures
        r == (text_in(opt_view(v)) is Some),
{
    match v {
        Some(Json::Str(_)) => true,
        _ => false,
    }
}

fn is_text(v: Option<&Json>, words: &str) -> (r: bool)
    ensures
        r == (text_in(opt_view(v)) == Some(words@)),
{
    match v {
        Some(Json::Str(s)) => same_text(s.as_str(), words),
        _ => false,
    }
}

fn check_preview_items(v: Option<&Json>) -> (r: Option<String>)
    ensures
        text_view(r) == preview_items_fault(opt_view(v)),
{
    match v {
        None => None,
        Some(Json::Arr(a)) => {
            if a.len() > 64 {
                return Some("adapter preview items need a label each, at most 64".to_owned());
            }
            let ghost s = json_views(a@);
            let mut i: usize = 0;
            while i < a.len()
                invariant
                    i <= a@.len(),
                    a@.len() <= 64,
                    s == json_views(a@),
                    opt_view(v) == Some(JsonV::Arr(s)),
                    forall|j: int|
                        0 <= j < i ==> text_in(member(#[trigger] s[j], "label"@)) is Some,
                decreases a.len() - i,
            {
                assert(s[i as int] == a@[i as int]@);
                if !has_text(a[i].get("label")) {
                    assert(text_in(member(s[i as int], "label"@)) is None);
                    return Some("adapter preview items need a label each, at most 64".to_owned());
                }
                i += 1;
            }
            None
        },
        Some(_) => Some("adapter preview items must be an array".to_owned()),
    }
}

fn read_preview(v: Json) -> (r: Result<Json, Fault>)
    ensures
        result_view(r) == preview_in(v@),
{
    let media = v.get("media_type");
    if !(is_text(media, "image/jpeg") || is_text(media, "image/png") || is_text(
        media,
        "image/webp",
    )) {
        return say(
            "adapter preview response requires media_type image/jpeg, image/png, or image/webp",
        );
    }
    if !has_text(v.get("data")) {
        return say("adapter preview response requires base64 data");
    }
    if !(natural(v.get("width")) && natural(v.get("height"))) {
        return say("adapter preview response requires width and height");
    }
    match check_preview_items(v.get("items")) {
        Some(words) => {
            return say(words.as_str());
        },
        None => {},
    }
    Ok(v)
}

fn key_of_item(k: &str) -> (r: bool)
    ensures
        r == item_key(k@),
{
    same_text(k, "id") || same_text(k, "kind") || same_text(k, "label") || same_text(k, "detail")
        || same_text(k, "source") || same_text(k, "options") || same_text(k, "transferable")
        || same_text(k, "reason")
}

/// The item has no parts but those of an item.
pub open spec fn item_fits(v: JsonV) -> bool {
    match v {
        JsonV::Obj(m) => forall|i: int| 0 <= i < m.len() ==> item_key((#[trigger] m[i]).0),
        JsonV::Arr(a) => a.len() <= 8,
        _ => false,
    }
}

fn fits_item(v: &Json) -> (r: bool)
    ensures
        r == item_fits(v@),
{
    match v {
        Json::Obj(t) => {
            let ghost m = member_views(t.entries@);
            let mut i: usize = 0;
            while i < t.entries.len()
                invariant
                    i <= t.entries@.len(),
                    m == member_views(t.entries@),
                    m.len() == t.entries@.len(),
                    v@ == JsonV::Obj(m),
                    forall|j: int| 0 <= j < i ==> item_key((#[trigger] m[j]).0),
                decreases t.entries.len() - i,
            {
                assert(m[i as int].0 == t.entries@[i as int].0@);
                if !key_of_item(t.entries[i].0.as_str()) {
                    assert(!item_key(v@->Obj_0[i as int].0));
                    return false;
                }
                i += 1;
            }
            true
        },
        Json::Arr(a) => a.len() <= 8,
        _ => false,
    }
}

fn put_text(f: &mut Fields, key: &str, value: Option<String>)
    ensures
        final(f).so_far() == old(f).so_far() + opt_member(key@, text_view(value)),
{
    let ghost before = f.so_far();
    match value {
        Some(s) => {
            f.put(key, Json::Str(s));
        },
        None => {},
    }
    assert(f.so_far() =~= before + opt_member(key@, text_view(value)));
}

fn read_item(v: &Json) -> (r: Option<Json>)
    ensures
        r is Some <==> item_in(v@) is Some,
        r matches Some(j) ==> item_in(v@) == Some(j@),
{
    let fits = fits_item(v);
    let id = read_text(take_slot(v, "id", 0));
    let kind = read_text(take_slot(v, "kind", 1));
    let label = read_text(take_slot(v, "label", 2));
    let detail = read_opt_text(take_slot(v, "detail", 3));
    let source = take_slot(v, "source", 4);
    let transferable = match take_slot(v, "transferable", 6) {
        Some(Json::Bool(b)) => Some(*b),
        _ => None,
    };
    let reason = read_opt_text(take_slot(v, "reason", 7));
    match (id, kind, label, detail, source, transferable, reason) {
        (
            Some(id),
            Some(kind),
            Some(label),
            Some(detail),
            Some(source),
            Some(transferable),
            Some(reason),
        ) => {
            if !fits {
                return None;
            }
            Some(
                item_object(
                    id,
                    kind,
                    label,
                    detail,
                    source,
                    take_slot(v, "options", 5),
                    transferable,
                    reason,
                ),
            )
        },
        _ => None,
    }
}

fn item_object(
    id: String,
    kind: String,
    label: String,
    detail: Option<String>,
    source: &Json,
    options: Option<&Json>,
    transferable: bool,
    reason: Option<String>,
) -> (r: Json)
    ensures
        r@ == JsonV::Obj(
            item_members(
                id@,
                kind@,
                label@,
                text_view(detail),
                source@,
                opt_view(options),
                transferable,
                text_view(reason),
            ),
        ),
{
    let mut f = Fields::new();
    put_text(&mut f, "detail", detail);
    f.put("id", Json::Str(id));
    f.put("kind", Json::Str(kind));
    f.put("label", Json::Str(label));
    let ghost before = f.so_far();
    match options {
        None => {},
        Some(Json::Null) => {},
        Some(x) => {
            f.put("options", x.duplicate());
        },
    }
    assert(f.so_far() =~= before + options_member(opt_view(options)));
    put_text(&mut f, "reason", reason);
    f.put("source", source.duplicate());
    f.put("transferable", Json::Bool(transferable));
    assert(f.so_far() =~= item_members(
        id@,
        kind@,
        label@,
        text_view(detail),
        source@,
        opt_view(options),
        transferable,
        text_view(reason),
    ));
    f.done()
}

fn read_items(a: &Vec<Json>) -> (r: Option<Vec<Json>>)
    ensures
        r is Some <==> items_in(json_views(a@)) is Some,
        r matches Some(v) ==> items_in(json_views(a@)) == Some(json_views(v@)),
{
    let ghost s = json_views(a@);
    let mut out: Vec<Json> = Vec::new();
    let mut i: usize = 0;
    assert(s.take(0) =~= Seq::<JsonV>::empty());
    assert(json_views(out@) =~= Seq::<JsonV>::empty());
    while i < a.len()
        invariant
            i <= a@.len(),
            s == json_views(a@),
            items_in(s.take(i as int)) == Some(json_views(out@)),
        decreases a.len() - i,
    {
        proof {
            assert(s.take(i + 1).drop_last() =~= s.take(i as int));
            assert(s.take(i + 1).last() == a@[i as int]@);
        }
        match read_item(&a[i]) {
            None => {
                proof {
                    no_items(s, i + 1);
                }
                return None;
            },
            Some(x) => {
                let ghost before = out@;
                out.push(x);
                assert(json_views(out@) =~= json_views(before).push(x@));
            },
        }
        i += 1;
    }
    assert(s.take(i as int) =~= s);
    Some(out)
}

proof fn no_items(s: Seq<JsonV>, n: int)
    requires
        0 <= n <= s.len(),
        items_in(s.take(n)) is None,
    ensures
        items_in(s) is None,
    decreases s.len() - n,
{
    if n == s.len() {
        assert(s.take(n) =~= s);
    } else {
        assert(s.take(n + 1).drop_last() =~= s.take(n));
        no_items(s, n + 1);
    }
}

fn known_report(v: &Json) -> (r: bool)
    ensures
        r == (v@ matches JsonV::Obj(m) && forall|i: int|
            0 <= i < m.len() ==> (#[trigger] m[i]).0 == "label"@ || m[i].0 == "items"@ || m[i].0
                == "error"@),
{
    match v {
        Json::Obj(t) => {
            let ghost m = member_views(t.entries@);
            let mut i: usize = 0;
            while i < t.entries.len()
                invariant
                    i <= t.entries@.len(),
                    m == member_views(t.entries@),
                    m.len() == t.entries@.len(),
                    v@ == JsonV::Obj(m),
                    forall|j: int|
                        0 <= j < i ==> (#[trigger] m[j]).0 == "label"@ || m[j].0 == "items"@
                            || m[j].0 == "error"@,
                decreases t.entries.len() - i,
            {
                assert(m[i as int].0 == t.entries@[i as int].0@);
                let k = t.entries[i].0.as_str();
                if !same_text(k, "label") && !same_text(k, "items") && !same_text(k, "error") {
                    assert(v@->Obj_0[i as int].0 == k@);
                    return false;
                }
                i += 1;
            }
            true
        },
        _ => false,
    }
}

fn read_inventory(v: &Json) -> (r: Result<Json, Fault>)
    ensures
        result_view(r) == inventory_in(v@),
{
    let known = known_report(v);
    let items = match v.get("items") {
        Some(Json::Arr(a)) => read_items(a),
        _ => None,
    };
    let label = read_text(v.get("label"));
    let error = read_opt_text(v.get("error"));
    match (label, items, error) {
        (Some(label), Some(list), Some(error)) => {
            if !known {
                return say("malformed inventory report");
            }
            if list.len() > MAX_INVENTORY_ITEMS {
                return say("inventory report exceeds 256 items");
            }
            let mut f = Fields::new();
            put_text(&mut f, "error", error);
            f.put("items", Json::Arr(list));
            f.put("label", Json::Str(label));
            assert(f.so_far() =~= inventory_in(v@)->Ok_0->Obj_0);
            Ok(f.done())
        },
        _ => say("malformed inventory report"),
    }
}

fn read_answer(verb: &str, v: Json) -> (r: Result<Json, Fault>)
    ensures
        result_view(r) == answer_in(verb@, v@),
{
    if same_text(verb, "export") {
        let fine = match v.get("payload") {
            Some(Json::Obj(_)) => true,
            _ => false,
        };
        if fine {
            Ok(v)
        } else {
            say("adapter export response requires an object payload")
        }
    } else if same_text(verb, "import") {
        read_import(&v)
    } else if same_text(verb, "control") {
        match v.get("result") {
            Some(x) => Ok(x.duplicate()),
            None => say("adapter control response requires result"),
        }
    } else if same_text(verb, "inspect") {
        read_inspect(&v)
    } else if same_text(verb, "preview") {
        read_preview(v)
    } else if same_text(verb, "inventory") {
        read_inventory(&v)
    } else {
        say(concat("unsupported adapter response verb: ", verb).as_str())
    }
}

/// Reads a response to a request: it has the request's id, and either says how the adapter failed
/// or holds what the verb calls for.
pub fn read_response(verb: &str, request_id: &str, response: &Json) -> (r: Result<Json, Fault>)
    ensures
        result_view(r) == response_in(verb@, request_id@, response@),
{
    if !is_text(response.get("request_id"), request_id) {
        return say("adapter response request_id mismatch");
    }
    let ok = match response.get("ok") {
        Some(Json::Bool(b)) => *b,
        _ => false,
    };
    if !ok {
        return match response.get("error") {
            None => say("adapter failure response lacks error"),
            Some(e) => Err(read_failure(e)),
        };
    }
    read_answer(verb, without_envelope(response))
}

/// Reads the line of a response.
pub fn parse_response(verb: &str, request_id: &str, line: &str) -> (r: Result<Json, Fault>)
    ensures
        result_view(r) == if encode_utf8(line@).len() > MAX_LINE {
            wrong("adapter response exceeds 1 MiB"@)
        } else {
            match json_of(encode_utf8(line@)) {
                None => wrong("malformed adapter output"@),
                Some(v) => response_in(verb@, request_id@, v),
            }
        },
{
    let bytes = line.as_bytes();
    if bytes.len() > MAX_LINE {
        return say("adapter response exceeds 1 MiB");
    }
    match parse_json(bytes) {
        None => say("malformed adapter output"),
        Some(v) => read_response(verb, request_id, &v),
    }
}

/// Whatever the body of a request holds, its envelope says which protocol, which request and which
/// verb it is; everything else in the body is kept.
pub proof fn envelope_is_fixed(body: FieldMap, verb: Seq<char>, id: Seq<char>, key: Seq<char>)
    requires
        key != "protocol"@,
        key != "request_id"@,
        key != "verb"@,
    ensures
        ({
            let m = enveloped(body, verb, id);
            &&& m["protocol"@] == JsonV::Str("abra-adapter/1"@)
            &&& m["request_id"@] == JsonV::Str(id)
            &&& m["verb"@] == JsonV::Str(verb)
            &&& m.dom().contains(key) == body.dom().contains(key)
            &&& body.dom().contains(key) ==> m[key] == body[key]
        }),
{
    reveal_strlit("protocol");
    reveal_strlit("request_id");
    reveal_strlit("verb");
    assert("protocol"@.len() == 8);
    assert("request_id"@.len() == 10);
    assert("verb"@.len() == 4);
}

} // verus!
