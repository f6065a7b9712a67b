//! Canonical JSON: one text for each value.
//!
//! Members stand in the order of their keys, nothing stands between tokens, and numbers are
//! integers that any reader holds exactly. Negative integers are accepted only below the
//! top-level members `payload` and `extensions`.
use vstd::prelude::*;
use vstd::utf8::encode_utf8;

use crate::bytes::{copy_bytes, has_prefix, same_bytes, starts_with};
use crate::error::Error;
use crate::json::{json_views, member_views, nesting, orderly, Json, JsonV};
use crate::number::{padded, push_padded};
use crate::order::code_point;
use crate::table::Table;
use crate::text::{chars_of, push_char, push_text, same_text};
use crate::util::hex_digit;

verus! {

/// The largest integer that every reader holds exactly.
pub const MAX: i64 = 9_007_199_254_740_991;

/// How one character is written inside quotes.
pub open spec fn escape(c: char) -> Seq<char> {
    if c == '"' {
        seq!['\\', '"']
    } else if c == '\\' {
        seq!['\\', '\\']
    } else if c as int == 8 {
        seq!['\\', 'b']
    } else if c == '\t' {
        seq!['\\', 't']
    } else if c == '\n' {
        seq!['\\', 'n']
    } else if c as int == 12 {
        seq!['\\', 'f']
    } else if c == '\r' {
        seq!['\\', 'r']
    } else if (c as int) < 32 {
        seq!['\\', 'u', '0', '0', hex_digit(c as int / 16), hex_digit(c as int % 16)]
    } else {
        seq![c]
    }
}

/// How characters are written inside quotes.
pub open spec fn escaped(s: Seq<char>) -> Seq<char>
    decreases s.len(),
{
    if s.len() == 0 {
        Seq::empty()
    } else {
        escaped(s.drop_last()) + escape(s.last())
    }
}

/// A string in quotes.
pub open spec fn quoted(s: Seq<char>) -> Seq<char> {
    seq!['"'] + escaped(s) + seq!['"']
}

/// The decimal text of an integer.
pub open spec fn int_text(n: int) -> Seq<char> {
    if n < 0 {
        seq!['-'] + padded((-n) as nat, 1)
    } else {
        padded(n as nat, 1)
    }
}

/// The canonical text of a value.
pub open spec fn json_text(v: JsonV) -> Seq<char>
    decreases v, 1nat,
{
    match v {
        JsonV::Null => "null"@,
        JsonV::Bool(b) => if b {
            "true"@
        } else {
            "false"@
        },
        JsonV::Int(n) => int_text(n),
        JsonV::Nat(n) => padded(n, 1),
        JsonV::Real(s) => s,
        JsonV::Str(s) => quoted(s),
        JsonV::Arr(a) => seq!['['] + items_text(a) + seq![']'],
        JsonV::Obj(m) => seq!['{'] + members_text(m) + seq!['}'],
    }
}

/// The texts of values, with commas between them.
pub open spec fn items_text(a: Seq<JsonV>) -> Seq<char>
    decreases a, 0nat,
{
    if a.len() == 0 {
        Seq::empty()
    } else if a.len() == 1 {
        json_text(a[0])
    } else {
        items_text(a.subrange(0, a.len() - 1)) + seq![','] + json_text(a[a.len() - 1])
    }
}

/// The texts of members, with commas between them.
pub open spec fn members_text(m: Seq<(Seq<char>, JsonV)>) -> Seq<char>
    decreases m, 0nat,
{
    if m.len() == 0 {
        Seq::empty()
    } else if m.len() == 1 {
        quoted(m[0].0) + seq![':'] + json_text(m[0].1)
    } else {
        members_text(m.subrange(0, m.len() - 1)) + seq![','] + quoted(m[m.len() - 1].0) + seq![':']
            + json_text(m[m.len() - 1].1)
    }
}

/// The canonical bytes of a value.
pub open spec fn json_bytes(v: JsonV) -> Seq<u8> {
    encode_utf8(json_text(v))
}

/// The first number that the profile does not accept; at the top, the members that may hold
/// negative numbers are known by their names.
pub open spec fn number_fault(v: JsonV, negatives: bool, top: bool) -> Option<Error>
    decreases v, 1nat,
{
    match v {
        JsonV::Int(n) => if n > MAX || n < (if negatives {
            -MAX as int
        } else {
            0
        }) {
            Some(Error::Invalid("integer outside Abra-CJSON range"))
        } else {
            None
        },
        JsonV::Nat(_) => Some(Error::Invalid("numbers must be integers in the safe range")),
        JsonV::Real(_) => Some(Error::Invalid("numbers must be integers in the safe range")),
        JsonV::Arr(a) => item_fault(a, negatives),
        JsonV::Obj(m) => member_fault(m, negatives, top),
        _ => None,
    }
}

/// The first fault among values.
pub open spec fn item_fault(a: Seq<JsonV>, negatives: bool) -> Option<Error>
    decreases a, 0nat,
{
    if a.len() == 0 {
        None
    } else {
        match item_fault(a.subrange(0, a.len() - 1), negatives) {
            Some(e) => Some(e),
            None => number_fault(a[a.len() - 1], negatives, false),
        }
    }
}

/// A member below which negative numbers are accepted.
pub open spec fn signed_slot(key: Seq<char>) -> bool {
    key == "payload"@ || key == "extensions"@
}

/// The first fault among members.
pub open spec fn member_fault(m: Seq<(Seq<char>, JsonV)>, negatives: bool, top: bool) -> Option<
    Error,
>
    decreases m, 0nat,
{
    if m.len() == 0 {
        None
    } else {
        match member_fault(m.subrange(0, m.len() - 1), negatives, top) {
            Some(e) => Some(e),
            None => number_fault(
                m[m.len() - 1].1,
                negatives || (top && signed_slot(m[m.len() - 1].0)),
                false,
            ),
        }
    }
}

/// What `validate_value` answers.
pub open spec fn value_fault(v: JsonV) -> Option<Error> {
    number_fault(v, false, true)
}

/// What `to_vec` answers.
pub open spec fn canonical_bytes(v: JsonV) -> Result<Seq<u8>, Error> {
    match value_fault(v) {
        Some(e) => Err(e),
        None => Ok(json_bytes(v)),
    }
}

/// Checks the numbers of a value.
pub fn validate_value(value: &Json) -> (r: Result<(), Error>)
    ensures
        r == match value_fault(value@) {
            Some(e) => Err::<(), Error>(e),
            None => Ok(()),
        },
{
    validate_at(value, false, true)
}

fn validate_at(v: &Json, negatives: bool, top: bool) -> (r: Result<(), Error>)
    ensures
        r == match number_fault(v@, negatives, top) {
            Some(e) => Err::<(), Error>(e),
            None => Ok(()),
        },
    decreases v,
{
    match v {
        Json::Int(n) => {
            let low: i64 = if negatives {
                -MAX
            } else {
                0
            };
            if *n > MAX || *n < low {
                return Err(Error::Invalid("integer outside Abra-CJSON range"));
            }
            Ok(())
        },
        Json::Nat(_) => Err(Error::Invalid("numbers must be integers in the safe range")),
        Json::Real(_) => Err(Error::Invalid("numbers must be integers in the safe range")),
        Json::Arr(a) => {
            let ghost s = json_views(a@);
            let mut i: usize = 0;
            assert(s.subrange(0, 0) =~= Seq::<JsonV>::empty());
            assert(item_fault(s.subrange(0, 0), negatives) is None);
            while i < a.len()
                invariant
                    i <= a@.len(),
                    *v == Json::Arr(*a),
                    s == json_views(a@),
                    v@ == JsonV::Arr(s),
                    item_fault(s.subrange(0, i as int), negatives) is None,
                decreases a.len() - i,
            {
                assert(decreases_to!(*v => v->Arr_0));
                assert(decreases_to!(v->Arr_0@ => v->Arr_0@[i as int]));
                let ghost t = s.subrange(0, i + 1);
                assert(t.subrange(0, i as int) =~= s.subrange(0, i as int));
                assert(t[i as int] == a@[i as int]@);
                match validate_at(&a[i], negatives, false) {
                    Ok(()) => {},
                    Err(e) => {
                        proof {
                            item_fault_prefix(s, i + 1, negatives);
                        }
                        return Err(e);
                    },
                }
                i += 1;
            }
            assert(s.subrange(0, i as int) =~= s);
            Ok(())
        },
        Json::Obj(m) => {
            let ghost s = member_views(m.entries@);
            let mut i: usize = 0;
            assert(s.subrange(0, 0) =~= Seq::<(Seq<char>, JsonV)>::empty());
            assert(member_fault(s.subrange(0, 0), negatives, top) is None);
            while i < m.entries.len()
                invariant
                    i <= m.entries@.len(),
                    *v == Json::Obj(*m),
                    s == member_views(m.entries@),
                    v@ == JsonV::Obj(s),
                    member_fault(s.subrange(0, i as int), negatives, top) is None,
                decreases m.entries.len() - i,
            {
                assert(decreases_to!(*v => v->Obj_0));
                assert(decreases_to!(v->Obj_0 => v->Obj_0.entries));
                assert(decreases_to!(v->Obj_0.entries => v->Obj_0.entries@));
                assert(decreases_to!(v->Obj_0.entries@ => v->Obj_0.entries@[i as int]));
                assert(decreases_to!(v->Obj_0.entries@[i as int] => v->Obj_0.entries@[i as int].1));
                let ghost t = s.subrange(0, i + 1);
                assert(t.subrange(0, i as int) =~= s.subrange(0, i as int));
                assert(t[i as int] == (m.entries@[i as int].0@, m.entries@[i as int].1@));
                let key = m.entries[i].0.as_str();
                let slot = top && (same_text(key, "payload") || same_text(key, "extensions"));
                match validate_at(&m.entries[i].1, negatives || slot, false) {
                    Ok(()) => {},
                    Err(e) => {
                        proof {
                            member_fault_prefix(s, i + 1, negatives, top);
                        }
                        return Err(e);
                    },
                }
                i += 1;
            }
            assert(s.subrange(0, i as int) =~= s);
            Ok(())
        },
        _ => Ok(()),
    }
}

/// A fault among the first values is the first fault of all.
proof fn item_fault_prefix(a: Seq<JsonV>, n: int, negatives: bool)
    requires
        0 <= n <= a.len(),
        item_fault(a.subrange(0, n), negatives) is Some,
    ensures
        item_fault(a, negatives) == item_fault(a.subrange(0, n), negatives),
    decreases a.len(),
{
    if n == a.len() {
        assert(a.subrange(0, n) =~= a);
    } else {
        let b = a.subrange(0, a.len() - 1);
        assert(b.subrange(0, n) =~= a.subrange(0, n));
        item_fault_prefix(b, n, negatives);
    }
}

/// A fault among the first members is the fault of all.
pub proof fn member_fault_prefix(m: Seq<(Seq<char>, JsonV)>, n: int, negatives: bool, top: bool)
    requires
        0 <= n <= m.len(),
        member_fault(m.subrange(0, n), negatives, top) is Some,
    ensures
        member_fault(m, negatives, top) == member_fault(m.subrange(0, n), negatives, top),
    decreases m.len(),
{
    if n == m.len() {
        assert(m.subrange(0, n) =~= m);
    } else {
        let b = m.subrange(0, m.len() - 1);
        assert(b.subrange(0, n) =~= m.subrange(0, n));
        member_fault_prefix(b, n, negatives, top);
    }
}

/// The character of a hexadecimal digit.
fn hex_char(n: u32) -> (r: char)
    requires
        n < 16,
    ensures
        r == hex_digit(n as int),
{
    if n < 10 {
        (48 + n as u8) as char
    } else {
        (87 + n as u8) as char
    }
}

fn push_escaped(c: char, out: &mut String)
    ensures
        final(out)@ == old(out)@ + escape(c),
{
    let ghost before = out@;
    let n = code_point(c);
    if c == '"' {
        push_char(out, '\\');
        push_char(out, '"');
    } else if c == '\\' {
        push_char(out, '\\');
        push_char(out, '\\');
    } else if n == 8 {
        push_char(out, '\\');
        push_char(out, 'b');
    } else if c == '\t' {
        push_char(out, '\\');
        push_char(out, 't');
    } else if c == '\n' {
        push_char(out, '\\');
        push_char(out, 'n');
    } else if n == 12 {
        push_char(out, '\\');
        push_char(out, 'f');
    } else if c == '\r' {
        push_char(out, '\\');
        push_char(out, 'r');
    } else if n < 32 {
        push_char(out, '\\');
        push_char(out, 'u');
        push_char(out, '0');
        push_char(out, '0');
        push_char(out, hex_char(n / 16));
        push_char(out, hex_char(n % 16));
    } else {
        push_char(out, c);
    }
    assert(out@ =~= before + escape(c));
}

fn push_quoted(s: &str, out: &mut String)
    ensures
        final(out)@ == old(out)@ + quoted(s@),
{
    let ghost before = out@;
    push_char(out, '"');
    let chars = chars_of(s);
    let mut i: usize = 0;
    assert(s@.take(0) =~= Seq::<char>::empty());
    assert(out@ =~= before + seq!['"'] + escaped(s@.take(0)));
    while i < chars.len()
        invariant
            i <= chars@.len(),
            chars@ == s@,
            out@ == before + seq!['"'] + escaped(s@.take(i as int)),
        decreases chars.len() - i,
    {
        push_escaped(chars[i], out);
        proof {
            let t = s@.take(i + 1);
            assert(t.drop_last() =~= s@.take(i as int));
            assert(t.last() == s@[i as int]);
            assert(out@ =~= before + seq!['"'] + escaped(t));
        }
        i += 1;
    }
    assert(s@.take(i as int) =~= s@);
    push_char(out, '"');
    assert(out@ =~= before + quoted(s@));
}

/// Appends the canonical text of a value.
fn write(v: &Json, out: &mut String)
    ensures
        final(out)@ == old(out)@ + json_text(v@),
    decreases v,
{
    let ghost before = out@;
    match v {
        Json::Null => push_text(out, "null"),
        Json::Bool(b) => {
            if *b {
                push_text(out, "true")
            } else {
                push_text(out, "false")
            }
        },
        Json::Int(n) => {
            if *n < 0 {
                push_char(out, '-');
                push_padded(out, magnitude(*n), 1);
                assert(out@ =~= before + int_text(*n as int));
            } else {
                push_padded(out, *n as u64, 1);
            }
        },
        Json::Nat(n) => push_padded(out, *n, 1),
        Json::Real(s) => push_text(out, s.as_str()),
        Json::Str(s) => push_quoted(s.as_str(), out),
        Json::Arr(a) => {
            let ghost s = json_views(a@);
            push_char(out, '[');
            let mut i: usize = 0;
            assert(s.subrange(0, 0) =~= Seq::<JsonV>::empty());
            assert(out@ =~= before + seq!['['] + items_text(s.subrange(0, 0)));
            while i < a.len()
                invariant
                    i <= a@.len(),
                    *v == Json::Arr(*a),
                    s == json_views(a@),
                    out@ == before + seq!['['] + items_text(s.subrange(0, i as int)),
                decreases a.len() - i,
            {
                assert(decreases_to!(*v => v->Arr_0));
                assert(decreases_to!(v->Arr_0@ => v->Arr_0@[i as int]));
                if i > 0 {
                    push_char(out, ',');
                }
                write(&a[i], out);
                proof {
                    let t = s.subrange(0, i + 1);
                    assert(t.subrange(0, i as int) =~= s.subrange(0, i as int));
                    assert(t[i as int] == a@[i as int]@);
                    if i == 0 {
                        assert(items_text(s.subrange(0, 0)) =~= Seq::<char>::empty());
                    }
                    assert(out@ =~= before + seq!['['] + items_text(t));
                }
                i += 1;
            }
            assert(s.subrange(0, i as int) =~= s);
            push_char(out, ']');
            assert(out@ =~= before + json_text(v@));
        },
        Json::Obj(m) => {
            let ghost s = member_views(m.entries@);
            push_char(out, '{');
            let mut i: usize = 0;
            assert(s.subrange(0, 0) =~= Seq::<(Seq<char>, JsonV)>::empty());
            assert(out@ =~= before + seq!['{'] + members_text(s.subrange(0, 0)));
            while i < m.entries.len()
                invariant
                    i <= m.entries@.len(),
                    *v == Json::Obj(*m),
                    s == member_views(m.entries@),
                    out@ == before + seq!['{'] + members_text(s.subrange(0, i as int)),
                decreases m.entries.len() - i,
            {
                assert(decreases_to!(*v => v->Obj_0));
                assert(decreases_to!(v->Obj_0 => v->Obj_0.entries));
                assert(decreases_to!(v->Obj_0.entries => v->Obj_0.entries@));
                assert(decreases_to!(v->Obj_0.entries@ => v->Obj_0.entries@[i as int]));
                assert(decreases_to!(v->Obj_0.entries@[i as int] => v->Obj_0.entries@[i as int].1));
                if i > 0 {
                    push_char(out, ',');
                }
                push_quoted(m.entries[i].0.as_str(), out);
                push_char(out, ':');
                write(&m.entries[i].1, out);
                proof {
                    let t = s.subrange(0, i + 1);
                    assert(t.subrange(0, i as int) =~= s.subrange(0, i as int));
                    assert(t[i as int] == (m.entries@[i as int].0@, m.entries@[i as int].1@));
                    if i == 0 {
                        assert(members_text(s.subrange(0, 0)) =~= Seq::<char>::empty());
                    }
                    assert(out@ =~= before + seq!['{'] + members_text(t));
                }
                i += 1;
            }
            assert(s.subrange(0, i as int) =~= s);
            push_char(out, '}');
            assert(out@ =~= before + json_text(v@));
        },
    }
}

/// The distance of a negative number from zero.
fn magnitude(n: i64) -> (r: u64)
    requires
        n < 0,
    ensures
        r == -n,
{
    (-(n as i128)) as u64
}

/// The text of a value, whatever numbers it holds.
pub fn render(value: &Json) -> (r: String)
    ensures
        r@ == json_text(value@),
{
    let mut out = String::new();
    write(value, &mut out);
    assert(out@ =~= json_text(value@));
    out
}

/// The canonical text of a value.
pub fn to_string(value: &Json) -> (r: Result<String, Error>)
    ensures
        r is Ok <==> value_fault(value@) is None,
        r matches Ok(s) ==> s@ == json_text(value@),
        r matches Err(e) ==> value_fault(value@) == Some(e),
{
    match validate_value(value) {
        Ok(()) => {},
        Err(e) => {
            return Err(e);
        },
    }
    Ok(render(value))
}

/// The canonical bytes of a value.
pub fn to_vec(value: &Json) -> (r: Result<Vec<u8>, Error>)
    ensures
        r matches Ok(b) ==> canonical_bytes(value@) == Ok::<Seq<u8>, Error>(b@),
        r matches Err(e) ==> canonical_bytes(value@) == Err::<Seq<u8>, Error>(e),
{
    match to_string(value) {
        Ok(s) => Ok(copy_bytes(s.as_str().as_bytes())),
        Err(e) => Err(e),
    }
}

/// The value that `serde_json` reads from bytes; nothing where it refuses them.
pub uninterp spec fn json_of(bytes: Seq<u8>) -> Option<JsonV>;

/// Turns a value of `serde_json` into one of the library, each part for itself. A number that is
/// no integer of 64 bits keeps its text.
#[verifier::external_body]
fn from_value(value: serde_json::Value) -> (r: Json) {
    match value {
        serde_json::Value::Null => Json::Null,
        serde_json::Value::Bool(b) => Json::Bool(b),
        serde_json::Value::Number(n) => match (n.as_i64(), n.as_u64()) {
            (Some(i), _) => Json::Int(i),
            (None, Some(u)) => Json::Nat(u),
            (None, None) => Json::Real(n.to_string()),
        },
        serde_json::Value::String(s) => Json::Str(s),
        serde_json::Value::Array(a) => Json::Arr(a.into_iter().map(from_value).collect()),
        serde_json::Value::Object(m) => Json::Obj(
            Table { entries: m.into_iter().map(|e| (e.0, from_value(e.1))).collect() },
        ),
    }
}

/// `serde_json::from_slice` into a `serde_json::Value`: one value that the bytes hold and nothing
/// after it. Objects come with their keys in order and without repetition. The canonical bytes
/// of a value are read as that value, unless arrays and objects are nested deeper than 127 levels.
#[verifier::external_body]
pub(crate) fn parse_json(bytes: &[u8]) -> (r: Option<Json>)
    ensures
        r is Some <==> json_of(bytes@) is Some,
        r matches Some(j) ==> json_of(bytes@) == Some(j@) && j.wf(),
        forall|v: JsonV|
            orderly(v) && value_fault(v) is None && nesting(v) <= 127 && #[trigger] json_bytes(v)
                == bytes@ ==> r is Some && r->0@ == v,
{
    serde_json::from_slice::<serde_json::Value>(bytes).ok().map(from_value)
}

/// Reads one value, which need not be written canonically; nothing where the bytes are no JSON.
pub fn read_json(bytes: &[u8]) -> (r: Option<Json>)
    ensures
        r is Some <==> json_of(bytes@) is Some,
        r matches Some(j) ==> json_of(bytes@) == Some(j@) && j.wf(),
        forall|v: JsonV|
            orderly(v) && value_fault(v) is None && nesting(v) <= 127 && #[trigger] json_bytes(v)
                == bytes@ ==> r is Some && r->0@ == v,
{
    parse_json(bytes)
}

/// The bytes that some editors put in front of a text.
pub open spec fn byte_order_mark() -> Seq<u8> {
    seq![0xefu8, 0xbbu8, 0xbfu8]
}

/// What `validate_canonical` answers.
pub open spec fn canonical_of(bytes: Seq<u8>) -> Result<JsonV, Error> {
    if has_prefix(bytes, byte_order_mark()) {
        Err(Error::Invalid("JSON BOM"))
    } else {
        match json_of(bytes) {
            None => Err(Error::Json),
            Some(v) => match value_fault(v) {
                Some(e) => Err(e),
                None => if json_bytes(v) == bytes {
                    Ok(v)
                } else {
                    Err(Error::Invalid("noncanonical Abra-CJSON bytes"))
                },
            },
        }
    }
}

/// Accepts what a reader made of `bytes` where the bytes are its canonical text.
pub fn check_canonical(bytes: &[u8], value: Option<Json>) -> (r: Result<Json, Error>)
    ensures
        r is Ok <==> value is Some && value_fault(value->0@) is None && json_bytes(value->0@)
            == bytes@,
        r matches Ok(v) ==> Some(v) == value,
        r matches Err(e) ==> e == match value {
            None => Error::Json,
            Some(v) => match value_fault(v@) {
                Some(x) => x,
                None => Error::Invalid("noncanonical Abra-CJSON bytes"),
            },
        },
{
    let value = match value {
        Some(value) => value,
        None => {
            return Err(Error::Json);
        },
    };
    let canonical = match to_vec(&value) {
        Ok(canonical) => canonical,
        Err(e) => {
            return Err(e);
        },
    };
    if !same_bytes(canonical.as_slice(), bytes) {
        return Err(Error::Invalid("noncanonical Abra-CJSON bytes"));
    }
    Ok(value)
}

/// Reads one value and refuses it unless the bytes are its canonical text.
pub fn validate_canonical(bytes: &[u8]) -> (r: Result<Json, Error>)
    ensures
        r matches Ok(v) ==> canonical_of(bytes@) == Ok::<JsonV, Error>(v@) && v.wf(),
        r matches Err(e) ==> canonical_of(bytes@) == Err::<JsonV, Error>(e),
        forall|v: JsonV|
            orderly(v) && value_fault(v) is None && nesting(v) <= 127 && #[trigger] json_bytes(v)
                == bytes@ ==> r is Ok && r->Ok_0@ == v,
{
    proof {
        assert forall|v: JsonV|
            orderly(v) && value_fault(v) is None && nesting(v) <= 127 && #[trigger] json_bytes(v)
                == bytes@ implies !has_prefix(bytes@, byte_order_mark()) by {
            text_begins_plain(v);
        }
    }
    let bom: [u8; 3] = [0xefu8, 0xbbu8, 0xbfu8];
    assert(bom@ =~= byte_order_mark());
    if starts_with(bytes, bom.as_slice()) {
        return Err(Error::Invalid("JSON BOM"));
    }
    check_canonical(bytes, parse_json(bytes))
}

/// Bytes that are accepted are the canonical bytes of the value they hold.
pub proof fn accepted_is_canonical(bytes: Seq<u8>)
    ensures
        canonical_of(bytes) matches Ok(v) ==> canonical_bytes(v) == Ok::<Seq<u8>, Error>(bytes),
{
}

/// No canonical text begins with a byte order mark.
proof fn text_begins_plain(v: JsonV)
    requires
        value_fault(v) is None,
    ensures
        !has_prefix(json_bytes(v), byte_order_mark()),
{
    let t = json_text(v);
    reveal_strlit("null");
    reveal_strlit("true");
    reveal_strlit("false");
    match v {
        JsonV::Int(n) => {
            if n >= 0 {
                crate::number::number_of_padded(n as nat, 1);
                assert(crate::number::is_digit(t[0]));
            } else {
                assert(t[0] == '-');
            }
        },
        JsonV::Str(s) => {
            assert(t[0] == '"');
        },
        JsonV::Arr(a) => {
            assert(t[0] == '[');
        },
        JsonV::Obj(m) => {
            assert(t[0] == '{');
        },
        _ => {},
    }
    assert(t.len() > 0);
    assert((t[0] as int) < 128);
    let first = t[0] as u32;
    assert(((first & 0x7f) as u8) < 0x80u8) by (bit_vector);
    let b = json_bytes(v);
    assert(b[0] == vstd::utf8::leading_byte_width_1(first));
    if has_prefix(b, byte_order_mark()) {
        assert(b.take(3)[0] == b[0]);
    }
}

/// Where no member before it has a fault, the fault of a member is the fault of the object.
pub proof fn first_member_fault(m: Seq<(Seq<char>, JsonV)>, n: int)
    requires
        0 <= n < m.len(),
        forall|i: int|
            0 <= i < n ==> number_fault((#[trigger] m[i]).1, signed_slot(m[i].0), false) is None,
        number_fault(m[n].1, signed_slot(m[n].0), false) is Some,
    ensures
        value_fault(JsonV::Obj(m)) == number_fault(m[n].1, signed_slot(m[n].0), false),
{
    no_member_fault(m.subrange(0, n));
    let p = m.subrange(0, n + 1);
    assert(p.subrange(0, n) =~= m.subrange(0, n));
    assert(member_fault(p, false, true) == number_fault(m[n].1, signed_slot(m[n].0), false));
    member_fault_prefix(m, n + 1, false, true);
}

proof fn no_member_fault(m: Seq<(Seq<char>, JsonV)>)
    requires
        forall|i: int|
            0 <= i < m.len() ==> number_fault((#[trigger] m[i]).1, signed_slot(m[i].0), false)
                is None,
    ensures
        member_fault(m, false, true) is None,
    decreases m.len(),
{
    if m.len() > 0 {
        let p = m.subrange(0, m.len() - 1);
        assert forall|i: int| 0 <= i < p.len() implies number_fault(
            (#[trigger] p[i]).1,
            signed_slot(p[i].0),
            false,
        ) is None by {
            assert(p[i] == m[i]);
        }
        no_member_fault(p);
    }
}

/// Every item is in order exactly where the list is.
proof fn items_in_order(a: Seq<JsonV>, negatives: bool)
    ensures
        item_fault(a, negatives) is None <==> forall|i: int|
            0 <= i < a.len() ==> number_fault(#[trigger] a[i], negatives, false) is None,
    decreases a.len(),
{
    if a.len() > 0 {
        let front = a.subrange(0, a.len() - 1);
        items_in_order(front, negatives);
        if item_fault(a, negatives) is None {
            assert forall|i: int| 0 <= i < a.len() implies number_fault(
                #[trigger] a[i],
                negatives,
                false,
            ) is None by {
                if i < front.len() {
                    assert(front[i] == a[i]);
                }
            }
        } else if forall|i: int|
            0 <= i < a.len() ==> number_fault(#[trigger] a[i], negatives, false) is None {
            assert forall|i: int| 0 <= i < front.len() implies number_fault(
                #[trigger] front[i],
                negatives,
                false,
            ) is None by {
                assert(front[i] == a[i]);
            }
            assert(number_fault(a[a.len() - 1], negatives, false) is None);
        }
    }
}

proof fn members_in_order(m: Seq<(Seq<char>, JsonV)>, negatives: bool, top: bool)
    ensures
        member_fault(m, negatives, top) is None <==> forall|i: int|
            0 <= i < m.len() ==> number_fault(
                (#[trigger] m[i]).1,
                negatives || (top && (m[i].0 == "payload"@ || m[i].0 == "extensions"@)),
                false,
            ) is None,
    decreases m.len(),
{
    if m.len() > 0 {
        let front = m.subrange(0, m.len() - 1);
        members_in_order(front, negatives, top);
        if member_fault(m, negatives, top) is None {
            assert forall|i: int| 0 <= i < m.len() implies number_fault(
                (#[trigger] m[i]).1,
                negatives || (top && (m[i].0 == "payload"@ || m[i].0 == "extensions"@)),
                false,
            ) is None by {
                if i < front.len() {
                    assert(front[i] == m[i]);
                }
            }
        } else if forall|i: int|
            0 <= i < m.len() ==> number_fault(
                (#[trigger] m[i]).1,
                negatives || (top && (m[i].0 == "payload"@ || m[i].0 == "extensions"@)),
                false,
            ) is None {
            assert forall|i: int| 0 <= i < front.len() implies number_fault(
                (#[trigger] front[i]).1,
                negatives || (top && (front[i].0 == "payload"@ || front[i].0 == "extensions"@)),
                false,
            ) is None by {
                assert(front[i] == m[i]);
            }
            assert(number_fault(
                m[m.len() - 1].1,
                negatives || (top && (m[m.len() - 1].0 == "payload"@ || m[m.len() - 1].0
                    == "extensions"@)),
                false,
            ) is None);
        }
    }
}

/// Which numbers are written: integers that every reader holds exactly, and negative ones only below
/// the members of a record that carry what others put there.
pub proof fn numbers_are_safe(
    n: int,
    a: Seq<JsonV>,
    m: Seq<(Seq<char>, JsonV)>,
    negatives: bool,
    top: bool,
)
    ensures
        number_fault(JsonV::Int(n), negatives, top) is None <==> n <= 9_007_199_254_740_991 && n
            >= if negatives {
            -9_007_199_254_740_991
        } else {
            0
        },
        forall|u: nat| #[trigger] number_fault(JsonV::Nat(u), negatives, top) is Some,
        forall|t: Seq<char>| #[trigger] number_fault(JsonV::Real(t), negatives, top) is Some,
        number_fault(JsonV::Arr(a), negatives, top) is None <==> forall|i: int|
            0 <= i < a.len() ==> number_fault(#[trigger] a[i], negatives, false) is None,
        number_fault(JsonV::Obj(m), negatives, top) is None <==> forall|i: int|
            0 <= i < m.len() ==> number_fault(
                (#[trigger] m[i]).1,
                negatives || (top && (m[i].0 == "payload"@ || m[i].0 == "extensions"@)),
                false,
            ) is None,
        value_fault(JsonV::Obj(m)) == number_fault(JsonV::Obj(m), false, true),
{
    items_in_order(a, negatives);
    members_in_order(m, negatives, top);
}

/// How simple values are written: strings stand in quotes, and in them quotes, backslashes and control
/// characters are escaped and nothing else is.
pub proof fn strings_are_written_in_quotes(s: Seq<char>, c: char)
    ensures
        json_text(JsonV::Null) == "null"@,
        json_text(JsonV::Bool(true)) == "true"@,
        json_text(JsonV::Bool(false)) == "false"@,
        json_text(JsonV::Str(s)) == seq!['"'] + escaped(s) + seq!['"'],
        escaped(Seq::empty()) == Seq::<char>::empty(),
        escaped(s.push(c)) == escaped(s) + escape(c),
        c == '"' || c == '\\' ==> escape(c) == seq!['\\', c],
        c as int >= 32 && c != '"' && c != '\\' ==> escape(c) == seq![c],
        (c as int) < 32 ==> escape(c).len() >= 2 && escape(c)[0] == '\\',
{
    assert(s.push(c).drop_last() =~= s);
}

/// How lists are written: in brackets, with commas between the items and no space.
pub proof fn lists_are_written_tightly(a: Seq<JsonV>, v: JsonV)
    ensures
        json_text(JsonV::Arr(Seq::empty())) == seq!['[', ']'],
        json_text(JsonV::Arr(seq![v])) == seq!['['] + json_text(v) + seq![']'],
        a.len() > 0 ==> json_text(JsonV::Arr(a.push(v))) == json_text(JsonV::Arr(a)).drop_last()
            + seq![','] + json_text(v) + seq![']'],
{
    let none = Seq::<char>::empty();
    assert(seq!['['] + none + seq![']'] =~= seq!['[', ']']);
    assert(items_text(seq![v]) == json_text(v));
    let b = a.push(v);
    assert(b.subrange(0, b.len() - 1) =~= a);
    if a.len() > 0 {
        assert(items_text(b) == items_text(a) + seq![','] + json_text(v));
        assert(json_text(JsonV::Arr(a)).drop_last() =~= seq!['['] + items_text(a));
        assert(json_text(JsonV::Arr(b)) =~= json_text(JsonV::Arr(a)).drop_last() + seq![',']
            + json_text(v) + seq![']']);
    }
}

/// How objects are written: in braces, with commas between the members, a colon behind each key, and
/// no space.
pub proof fn objects_are_written_tightly(m: Seq<(Seq<char>, JsonV)>, key: Seq<char>, v: JsonV)
    ensures
        json_text(JsonV::Obj(Seq::empty())) == seq!['{', '}'],
        json_text(JsonV::Obj(seq![(key, v)])) == seq!['{'] + quoted(key) + seq![':'] + json_text(v)
            + seq!['}'],
        m.len() > 0 ==> json_text(JsonV::Obj(m.push((key, v)))) == json_text(
            JsonV::Obj(m),
        ).drop_last() + seq![','] + quoted(key) + seq![':'] + json_text(v) + seq!['}'],
        quoted(key) == seq!['"'] + escaped(key) + seq!['"'],
{
    let none = Seq::<char>::empty();
    assert(seq!['{'] + none + seq!['}'] =~= seq!['{', '}']);
    let one = seq![(key, v)];
    assert(members_text(one) == quoted(key) + seq![':'] + json_text(v));
    assert(json_text(JsonV::Obj(one)) =~= seq!['{'] + quoted(key) + seq![':'] + json_text(v)
        + seq!['}']);
    let n = m.push((key, v));
    assert(n.subrange(0, n.len() - 1) =~= m);
    if m.len() > 0 {
        assert(members_text(n) == members_text(m) + seq![','] + quoted(key) + seq![':'] + json_text(
            v,
        ));
        assert(json_text(JsonV::Obj(m)).drop_last() =~= seq!['{'] + members_text(m));
        assert(json_text(JsonV::Obj(n)) =~= json_text(JsonV::Obj(m)).drop_last() + seq![',']
            + quoted(key) + seq![':'] + json_text(v) + seq!['}']);
    }
}

} // verus!
