//! Reading values: each part of a record, by the form that it has in JSON.
use vstd::prelude::*;

use crate::cas::Digest;
use crate::json::{json_views, member, Json, JsonV};
use crate::util::fixed_hex;

verus! {

/// A part of a record that may be written as an object, or as an array in order.
pub open spec fn slot(v: JsonV, key: Seq<char>, i: int) -> Option<JsonV> {
    match v {
        JsonV::Arr(a) => if 0 <= i < a.len() {
            Some(a[i])
        } else {
            None
        },
        _ => member(v, key),
    }
}

/// What stands in a slot of a record.
pub fn take_slot<'a>(v: &'a Json, key: &str, i: usize) -> (r: Option<&'a Json>)
    ensures
        r is Some <==> slot(v@, key@, i as int) is Some,
        r matches Some(x) ==> slot(v@, key@, i as int) == Some(x@),
{
    match v {
        Json::Arr(a) => if i < a.len() {
            assert(json_views(a@)[i as int] == a@[i as int]@);
            Some(&a[i])
        } else {
            None
        },
        _ => v.get(key),
    }
}

/// The text of a string.
pub open spec fn text_in(v: Option<JsonV>) -> Option<Seq<char>> {
    match v {
        Some(JsonV::Str(s)) => Some(s),
        _ => None,
    }
}

/// A text that may be missing or null; nothing where there is something else.
pub open spec fn opt_text_in(v: Option<JsonV>) -> Option<Option<Seq<char>>> {
    match v {
        None => Some(None),
        Some(JsonV::Null) => Some(None),
        Some(JsonV::Str(s)) => Some(Some(s)),
        _ => None,
    }
}

/// Reads a text.
pub fn read_text(v: Option<&Json>) -> (r: Option<String>)
    ensures
        r is Some <==> text_in(opt_view(v)) is Some,
        r matches Some(s) ==> text_in(opt_view(v)) == Some(s@),
{
    match v {
        Some(Json::Str(s)) => Some(s.clone()),
        _ => None,
    }
}

/// The value, where there is one.
pub open spec fn opt_view(v: Option<&Json>) -> Option<JsonV> {
    match v {
        Some(j) => Some(j@),
        None => None,
    }
}

/// The text, where there is one.
pub open spec fn text_view(v: Option<String>) -> Option<Seq<char>> {
    match v {
        Some(s) => Some(s@),
        None => None,
    }
}

/// Reads a text that may be missing.
pub fn read_opt_text(v: Option<&Json>) -> (r: Option<Option<String>>)
    ensures
        r is Some <==> opt_text_in(opt_view(v)) is Some,
        r matches Some(s) ==> opt_text_in(opt_view(v)) == Some(text_view(s)),
{
    match v {
        None => Some(None),
        Some(Json::Null) => Some(None),
        Some(Json::Str(s)) => Some(Some(s.clone())),
        Some(_) => None,
    }
}

/// A list that may be missing.
pub open spec fn list_in(v: Option<JsonV>) -> Option<JsonV> {
    match v {
        None => Some(JsonV::Arr(Seq::empty())),
        Some(JsonV::Arr(a)) => Some(JsonV::Arr(a)),
        _ => None,
    }
}

/// Reads a list that may be missing.
pub fn read_list(v: Option<&Json>) -> (r: Option<Json>)
    ensures
        r is Some <==> list_in(opt_view(v)) is Some,
        r matches Some(j) ==> list_in(opt_view(v)) == Some(j@),
{
    match v {
        None => {
            let empty: Vec<Json> = Vec::new();
            assert(json_views(empty@) =~= Seq::<JsonV>::empty());
            Some(Json::Arr(empty))
        },
        Some(Json::Arr(a)) => match v {
            Some(j) => Some(j.duplicate()),
            None => None,
        },
        Some(_) => None,
    }
}

/// An integer without a sign.
pub open spec fn nat_in(v: Option<JsonV>) -> Option<int> {
    match v {
        Some(JsonV::Int(n)) => if 0 <= n <= u64::MAX {
            Some(n)
        } else {
            None
        },
        Some(JsonV::Nat(n)) => if n <= u64::MAX {
            Some(n as int)
        } else {
            None
        },
        _ => None,
    }
}

/// Reads an integer without a sign.
pub fn read_nat(v: Option<&Json>) -> (r: Option<u64>)
    ensures
        r is Some <==> nat_in(opt_view(v)) is Some,
        r matches Some(n) ==> nat_in(opt_view(v)) == Some(n as int),
{
    match v {
        Some(Json::Int(n)) => if *n >= 0 {
            Some(*n as u64)
        } else {
            None
        },
        Some(Json::Nat(n)) => Some(*n),
        _ => None,
    }
}

/// An integer that may be missing or null; nothing where there is something else.
pub open spec fn opt_nat_in(v: Option<JsonV>) -> Option<Option<int>> {
    match v {
        None => Some(None),
        Some(JsonV::Null) => Some(None),
        _ => match nat_in(v) {
            Some(n) => Some(Some(n)),
            None => None,
        },
    }
}

/// The number, where there is one.
pub open spec fn nat_view(n: Option<u64>) -> Option<int> {
    match n {
        Some(n) => Some(n as int),
        None => None,
    }
}

/// Reads an integer that may be missing.
pub fn read_opt_nat(v: Option<&Json>) -> (r: Option<Option<u64>>)
    ensures
        r is Some <==> opt_nat_in(opt_view(v)) is Some,
        r matches Some(n) ==> opt_nat_in(opt_view(v)) == Some(nat_view(n)),
{
    match v {
        None => Some(None),
        Some(Json::Null) => Some(None),
        Some(_) => match read_nat(v) {
            Some(n) => Some(Some(n)),
            None => None,
        },
    }
}

/// Thirty-two bytes in hex.
pub open spec fn bytes_in(v: Option<JsonV>) -> Option<Seq<u8>> {
    match v {
        Some(JsonV::Str(s)) => match fixed_hex(s, 32, "hash") {
            Ok(b) => Some(b),
            Err(e) => None,
        },
        _ => None,
    }
}

/// Reads thirty-two bytes in hex.
pub fn read_bytes(v: Option<&Json>) -> (r: Option<[u8; 32]>)
    ensures
        r is Some <==> bytes_in(opt_view(v)) is Some,
        r matches Some(b) ==> bytes_in(opt_view(v)) == Some(b@),
{
    match v {
        Some(Json::Str(s)) => match crate::util::hex_decode_fixed::<32>(s.as_str(), "hash") {
            Ok(b) => Some(b),
            Err(_) => None,
        },
        _ => None,
    }
}

/// Thirty-two bytes in hex that may be missing or null; nothing where there is something else.
pub open spec fn opt_bytes_in(v: Option<JsonV>) -> Option<Option<Seq<u8>>> {
    match v {
        None => Some(None),
        Some(JsonV::Null) => Some(None),
        _ => match bytes_in(v) {
            Some(b) => Some(Some(b)),
            None => None,
        },
    }
}

/// The bytes of a hash, where there is one.
pub open spec fn hash_view(h: Option<Digest>) -> Option<Seq<u8>> {
    match h {
        Some(h) => Some(h.0@),
        None => None,
    }
}

/// Reads a hash that may be missing.
pub fn read_opt_hash(v: Option<&Json>) -> (r: Option<Option<Digest>>)
    ensures
        r is Some <==> opt_bytes_in(opt_view(v)) is Some,
        r matches Some(h) ==> opt_bytes_in(opt_view(v)) == Some(hash_view(h)),
{
    match v {
        None => Some(None),
        Some(Json::Null) => Some(None),
        Some(_) => match read_bytes(v) {
            Some(b) => Some(Some(crate::cas::Hash(b))),
            None => None,
        },
    }
}

/// Nothing else is in the way: an array has no more parts than the record.
pub open spec fn not_longer(v: JsonV, n: nat) -> bool {
    match v {
        JsonV::Obj(m) => true,
        JsonV::Arr(a) => a.len() <= n,
        _ => false,
    }
}

/// Whether the value is a record of at most so many parts.
pub fn is_record(v: &Json, n: usize) -> (r: bool)
    ensures
        r == not_longer(v@, n as nat),
{
    match v {
        Json::Obj(_) => true,
        Json::Arr(a) => a.len() <= n,
        _ => false,
    }
}

} // verus!
