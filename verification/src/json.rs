//! JSON values, as the records of the library are read from and written to.
use vstd::prelude::*;

use crate::order::{char_rank, Key};
use crate::table::Table;
use crate::text::same_text;

verus! {

/// A JSON value. Objects keep their members in the order of their keys.
#[derive(Debug, PartialEq, Eq)]
pub enum Json {
    Null,
    Bool(bool),
    /// An integer that fits in 64 bits with a sign.
    Int(i64),
    /// A larger integer that fits in 64 bits without a sign.
    Nat(u64),
    /// Any other number, as it is written.
    Real(String),
    Str(String),
    Arr(Vec<Json>),
    Obj(Table<String, Json>),
}

/// What a JSON value is.
pub enum JsonV {
    Null,
    Bool(bool),
    Int(int),
    Nat(nat),
    Real(Seq<char>),
    Str(Seq<char>),
    Arr(Seq<JsonV>),
    Obj(Seq<(Seq<char>, JsonV)>),
}

/// What a JSON value is.
pub open spec fn model(j: Json) -> JsonV
    decreases j, 1nat,
{
    match j {
        Json::Null => JsonV::Null,
        Json::Bool(b) => JsonV::Bool(b),
        Json::Int(n) => JsonV::Int(n as int),
        Json::Nat(n) => JsonV::Nat(n as nat),
        Json::Real(s) => JsonV::Real(s@),
        Json::Str(s) => JsonV::Str(s@),
        Json::Arr(a) => JsonV::Arr(json_views(a@)),
        Json::Obj(t) => JsonV::Obj(member_views(t.entries@)),
    }
}

/// The values of an array.
pub open spec fn json_views(s: Seq<Json>) -> Seq<JsonV>
    decreases s, 0nat,
{
    Seq::new(
        s.len(),
        |i: int|
            if 0 <= i < s.len() {
                model(s[i])
            } else {
                JsonV::Null
            },
    )
}

/// The members of an object.
pub open spec fn member_views(s: Seq<(String, Json)>) -> Seq<(Seq<char>, JsonV)>
    decreases s, 0nat,
{
    Seq::new(
        s.len(),
        |i: int|
            if 0 <= i < s.len() {
                (s[i].0@, model(s[i].1))
            } else {
                (Seq::empty(), JsonV::Null)
            },
    )
}

impl View for Json {
    type V = JsonV;

    open spec fn view(&self) -> JsonV {
        model(*self)
    }
}

/// The keys of members, each before all that follow.
pub open spec fn keys_ascend(s: Seq<(Seq<char>, JsonV)>) -> bool {
    forall|i: int, j: int|
        0 <= i < j < s.len() ==> crate::order::lex_before(
            char_rank(#[trigger] s[i].0),
            char_rank(#[trigger] s[j].0),
        )
}

/// Every object, at every depth, has its keys in order.
pub open spec fn orderly(v: JsonV) -> bool
    decreases v,
{
    match v {
        JsonV::Arr(a) => forall|i: int| 0 <= i < a.len() ==> orderly(#[trigger] a[i]),
        JsonV::Obj(m) => keys_ascend(m) && forall|i: int|
            0 <= i < m.len() ==> orderly((#[trigger] m[i]).1),
        _ => true,
    }
}

impl Json {
    /// Every object, at every depth, has its keys in order.
    pub open spec fn wf(&self) -> bool {
        orderly(self@)
    }
}

/// The position of a key among members; their number where it does not occur.
pub open spec fn member_at(s: Seq<(Seq<char>, JsonV)>, key: Seq<char>) -> int
    decreases s.len(),
{
    if s.len() == 0 {
        0
    } else if s[0].0 == key {
        0
    } else {
        1 + member_at(s.drop_first(), key)
    }
}

/// The member of that key in an object.
pub open spec fn member(v: JsonV, key: Seq<char>) -> Option<JsonV> {
    match v {
        JsonV::Obj(m) => if member_at(m, key) < m.len() {
            Some(m[member_at(m, key)].1)
        } else {
            None
        },
        _ => None,
    }
}

/// What `member_at` finds.
pub proof fn member_at_is_first(s: Seq<(Seq<char>, JsonV)>, key: Seq<char>)
    ensures
        0 <= member_at(s, key) <= s.len(),
        forall|j: int| 0 <= j < member_at(s, key) ==> (#[trigger] s[j]).0 != key,
        member_at(s, key) < s.len() ==> s[member_at(s, key)].0 == key,
    decreases s.len(),
{
    if s.len() != 0 && s[0].0 != key {
        let t = s.drop_first();
        member_at_is_first(t, key);
        assert forall|j: int| 0 <= j < member_at(s, key) implies (#[trigger] s[j]).0 != key by {
            if j > 0 {
                assert(s[j] == t[j - 1]);
            }
        }
        if member_at(s, key) < s.len() {
            assert(s[member_at(s, key)] == t[member_at(t, key)]);
        }
    }
}

/// The first position of a key is the one `member_at` finds.
pub proof fn member_at_unique(s: Seq<(Seq<char>, JsonV)>, key: Seq<char>, i: int)
    requires
        0 <= i <= s.len(),
        forall|j: int| 0 <= j < i ==> (#[trigger] s[j]).0 != key,
        i < s.len() ==> s[i].0 == key,
    ensures
        member_at(s, key) == i,
{
    member_at_is_first(s, key);
    let n = member_at(s, key);
    if n < i {
        assert(s[n].0 != key);
    } else if i < n {
        assert(s[i].0 != key);
    }
}

impl Json {
    /// The member of that key, in an object.
    pub fn get(&self, key: &str) -> (r: Option<&Json>)
        ensures
            r is Some <==> member(self@, key@) is Some,
            r matches Some(v) ==> member(self@, key@) == Some(v@),
    {
        match self {
            Json::Obj(t) => {
                let ghost s = member_views(t.entries@);
                let mut i: usize = 0;
                while i < t.entries.len()
                    invariant
                        i <= t.entries@.len(),
                        s == member_views(t.entries@),
                        self@ == JsonV::Obj(s),
                        forall|j: int| 0 <= j < i ==> (#[trigger] s[j]).0 != key@,
                    decreases t.entries.len() - i,
                {
                    if same_text(t.entries[i].0.as_str(), key) {
                        proof {
                            member_at_unique(s, key@, i as int);
                        }
                        return Some(&t.entries[i].1);
                    }
                    i += 1;
                }
                proof {
                    member_at_unique(s, key@, i as int);
                }
                None
            },
            _ => None,
        }
    }

    /// The text of a string.
    pub fn as_str(&self) -> (r: Option<&str>)
        ensures
            r is Some <==> self@ is Str,
            r matches Some(s) ==> self@ == JsonV::Str(s@),
    {
        match self {
            Json::Str(s) => Some(s.as_str()),
            _ => None,
        }
    }

    /// A copy.
    pub fn duplicate(&self) -> (r: Json)
        ensures
            r@ == self@,
        decreases self,
    {
        match self {
            Json::Null => Json::Null,
            Json::Bool(b) => Json::Bool(*b),
            Json::Int(n) => Json::Int(*n),
            Json::Nat(n) => Json::Nat(*n),
            Json::Real(s) => Json::Real(s.clone()),
            Json::Str(s) => Json::Str(s.clone()),
            Json::Arr(a) => {
                let mut out: Vec<Json> = Vec::new();
                let mut i: usize = 0;
                while i < a.len()
                    invariant
                        i <= a@.len(),
                        out@.len() == i,
                        *self == Json::Arr(*a),
                        forall|k: int| 0 <= k < i ==> (#[trigger] out@[k])@ == a@[k]@,
                    decreases a.len() - i,
                {
                    assert(decreases_to!(*self => self->Arr_0));
                    assert(decreases_to!(self->Arr_0@ => self->Arr_0@[i as int]));
                    let item = a[i].duplicate();
                    out.push(item);
                    i += 1;
                }
                assert(json_views(out@) =~= json_views(a@));
                Json::Arr(out)
            },
            Json::Obj(t) => {
                let mut out: Vec<(String, Json)> = Vec::new();
                let mut i: usize = 0;
                while i < t.entries.len()
                    invariant
                        i <= t.entries@.len(),
                        out@.len() == i,
                        *self == Json::Obj(*t),
                        forall|k: int|
                            0 <= k < i ==> (#[trigger] out@[k]).0@ == t.entries@[k].0@
                                && out@[k].1@ == t.entries@[k].1@,
                    decreases t.entries.len() - i,
                {
                    assert(decreases_to!(*self => self->Obj_0));
                    assert(decreases_to!(self->Obj_0 => self->Obj_0.entries));
                    assert(decreases_to!(self->Obj_0.entries => self->Obj_0.entries@));
                    assert(decreases_to!(self->Obj_0.entries@ => self->Obj_0.entries@[i as int]));
                    assert(decreases_to!(self->Obj_0.entries@[i as int]
                        => self->Obj_0.entries@[i as int].1));
                    let item = t.entries[i].1.duplicate();
                    out.push((t.entries[i].0.clone(), item));
                    i += 1;
                }
                assert(member_views(out@) =~= member_views(t.entries@));
                Json::Obj(Table { entries: out })
            },
        }
    }
}

impl Clone for Json {
    fn clone(&self) -> (r: Self)
        ensures
            r@ == self@,
    {
        self.duplicate()
    }
}

/// The table of an object that is in order is in order.
pub proof fn object_is_ascending(v: Json)
    requires
        v.wf(),
        v is Obj,
    ensures
        v->Obj_0.wf(),
{
    let s = v->Obj_0.entries@;
    let m = member_views(s);
    assert(v@ == JsonV::Obj(m));
    assert forall|i: int, j: int| 0 <= i < j < s.len() implies crate::order::lex_before(
        #[trigger] s[i].0.rank(),
        #[trigger] s[j].0.rank(),
    ) by {
        assert(m[i].0 == s[i].0@);
        assert(m[j].0 == s[j].0@);
    }
}

/// A value of `serde_json`.
#[verifier::external_type_specification]
#[verifier::external_body]
pub struct ExJsonValue(serde_json::Value);

/// How deep arrays and objects are nested.
pub open spec fn nesting(v: JsonV) -> nat
    decreases v, 1nat,
{
    match v {
        JsonV::Arr(a) => 1 + deepest(a),
        JsonV::Obj(m) => 1 + deepest_member(m),
        _ => 0,
    }
}

/// The deepest nesting among values.
pub open spec fn deepest(a: Seq<JsonV>) -> nat
    decreases a, 0nat,
{
    if a.len() == 0 {
        0
    } else {
        let x = nesting(a[a.len() - 1]);
        let y = deepest(a.subrange(0, a.len() - 1));
        if x > y {
            x
        } else {
            y
        }
    }
}

/// The deepest nesting among members.
pub open spec fn deepest_member(m: Seq<(Seq<char>, JsonV)>) -> nat
    decreases m, 0nat,
{
    if m.len() == 0 {
        0
    } else {
        let x = nesting(m[m.len() - 1].1);
        let y = deepest_member(m.subrange(0, m.len() - 1));
        if x > y {
            x
        } else {
            y
        }
    }
}

} // verus!
