//! Records: structures that are written as JSON objects, their members in the order of their keys.
use vstd::prelude::*;

use crate::canonical::{
    item_fault, json_bytes, member_fault, number_fault, signed_slot, to_vec, MAX,
};
use crate::json::{json_views, keys_ascend, member_views, Json, JsonV};
use crate::order::{
    char_rank, char_rank_injective, lex_asymmetric, lex_before, lex_irreflexive, Key,
};
use crate::table::{holds_at, map_of_at, Table};

verus! {

/// An object under construction.
pub struct Fields {
    pub members: Vec<(String, Json)>,
}

/// The members of an object.
pub type Members = Seq<(Seq<char>, JsonV)>;

impl Fields {
    /// The members so far.
    pub open spec fn so_far(&self) -> Members {
        member_views(self.members@)
    }

    /// No members.
    pub fn new() -> (r: Self)
        ensures
            r.so_far() == Seq::<(Seq<char>, JsonV)>::empty(),
    {
        let r = Fields { members: Vec::new() };
        assert(r.so_far() =~= Seq::<(Seq<char>, JsonV)>::empty());
        r
    }

    /// One more member.
    pub fn put(&mut self, key: &str, value: Json)
        ensures
            final(self).so_far() == old(self).so_far().push((key@, value@)),
    {
        let ghost before = self.so_far();
        self.members.push((key.to_owned(), value));
        assert(self.so_far() =~= before.push((key@, value@)));
    }

    /// One more member that is a string.
    pub fn put_str(&mut self, key: &str, value: &str)
        ensures
            final(self).so_far() == old(self).so_far().push((key@, JsonV::Str(value@))),
    {
        self.put(key, Json::Str(value.to_owned()));
    }

    /// One more member that is a string, where there is one.
    pub fn put_opt(&mut self, key: &str, value: &Option<String>)
        ensures
            final(self).so_far() == old(self).so_far() + opt_str(key@, *value),
    {
        let ghost before = self.so_far();
        match value {
            Some(s) => {
                self.put_str(key, s.as_str());
            },
            None => {},
        }
        assert(self.so_far() =~= before + opt_str(key@, *value));
    }

    /// The object.
    pub fn done(self) -> (r: Json)
        ensures
            r@ == JsonV::Obj(self.so_far()),
    {
        Json::Obj(Table { entries: self.members })
    }
}

/// A member that is left out where there is nothing to say.
pub open spec fn opt_str(key: Seq<char>, value: Option<String>) -> Members {
    match value {
        Some(s) => seq![(key, JsonV::Str(s@))],
        None => Seq::empty(),
    }
}

/// Strings as values.
pub open spec fn text_values(s: Seq<String>) -> Seq<JsonV> {
    Seq::new(s.len(), |i: int| JsonV::Str(s[i]@))
}

/// An array of strings.
pub fn text_array(v: &Vec<String>) -> (r: Json)
    ensures
        r@ == JsonV::Arr(text_values(v@)),
{
    let mut out: Vec<Json> = Vec::new();
    let mut i: usize = 0;
    while i < v.len()
        invariant
            i <= v@.len(),
            out@.len() == i,
            forall|k: int| 0 <= k < i ==> (#[trigger] out@[k])@ == JsonV::Str(v@[k]@),
        decreases v.len() - i,
    {
        out.push(Json::Str(v[i].clone()));
        i += 1;
    }
    assert(json_views(out@) =~= text_values(v@));
    Json::Arr(out)
}

/// A copy of strings.
pub fn copy_texts(v: &Vec<String>) -> (r: Vec<String>)
    ensures
        r@ == v@,
{
    let r = v.clone();
    assert(r@ =~= v@);
    r
}

/// A value made of strings, truth values and small natural numbers.
pub open spec fn plain(v: JsonV) -> bool
    decreases v,
{
    match v {
        JsonV::Int(n) => 0 <= n <= MAX,
        JsonV::Nat(_) => false,
        JsonV::Real(_) => false,
        JsonV::Arr(a) => forall|i: int| 0 <= i < a.len() ==> plain(#[trigger] a[i]),
        JsonV::Obj(m) => forall|i: int| 0 <= i < m.len() ==> plain((#[trigger] m[i]).1),
        _ => true,
    }
}

/// Every number of a plain value is accepted.
pub proof fn plain_no_fault(v: JsonV, negatives: bool, top: bool)
    requires
        plain(v),
    ensures
        number_fault(v, negatives, top) is None,
    decreases v, 1nat,
{
    match v {
        JsonV::Arr(a) => {
            plain_items(a, negatives);
        },
        JsonV::Obj(m) => {
            plain_members(m, negatives, top);
        },
        _ => {},
    }
}

proof fn plain_items(a: Seq<JsonV>, negatives: bool)
    requires
        forall|i: int| 0 <= i < a.len() ==> plain(#[trigger] a[i]),
    ensures
        item_fault(a, negatives) is None,
    decreases a, 0nat,
{
    if a.len() > 0 {
        let b = a.subrange(0, a.len() - 1);
        assert forall|i: int| 0 <= i < b.len() implies plain(#[trigger] b[i]) by {
            assert(b[i] == a[i]);
        }
        plain_items(b, negatives);
        plain_no_fault(a[a.len() - 1], negatives, false);
    }
}

proof fn plain_members(m: Members, negatives: bool, top: bool)
    requires
        forall|i: int| 0 <= i < m.len() ==> plain((#[trigger] m[i]).1),
    ensures
        member_fault(m, negatives, top) is None,
    decreases m, 0nat,
{
    if m.len() > 0 {
        let b = m.subrange(0, m.len() - 1);
        assert forall|i: int| 0 <= i < b.len() implies plain((#[trigger] b[i]).1) by {
            assert(b[i] == m[i]);
        }
        plain_members(b, negatives, top);
        plain_no_fault(
            m[m.len() - 1].1,
            negatives || (top && signed_slot(m[m.len() - 1].0)),
            false,
        );
    }
}

/// The canonical bytes of a plain value.
pub fn plain_bytes(v: &Json) -> (r: Vec<u8>)
    requires
        plain(v@),
    ensures
        r@ == json_bytes(v@),
{
    proof {
        plain_no_fault(v@, false, true);
    }
    match to_vec(v) {
        Ok(b) => b,
        Err(_) => {
            assert(false);
            Vec::new()
        },
    }
}

/// Strings are plain.
pub proof fn texts_are_plain(s: Seq<String>)
    ensures
        plain(JsonV::Arr(text_values(s))),
{
    reveal_with_fuel(plain, 2);
}

/// The members of an object by key.
pub type FieldMap = Map<Seq<char>, JsonV>;

/// The value is the object with these members, in the order of their keys.
pub open spec fn is_object_of(v: JsonV, fields: FieldMap) -> bool {
    &&& v is Obj
    &&& keys_ascend(v->Obj_0)
    &&& forall|i: int|
        0 <= i < v->Obj_0.len() ==> fields.dom().contains((#[trigger] v->Obj_0[i]).0)
            && fields[v->Obj_0[i].0] == v->Obj_0[i].1
    &&& forall|k: Seq<char>| #[trigger]
        fields.dom().contains(k) ==> exists|i: int|
            0 <= i < v->Obj_0.len() && (#[trigger] v->Obj_0[i]).0 == k
}

/// The object with these members.
pub open spec fn object_of(fields: FieldMap) -> JsonV {
    choose|v: JsonV| is_object_of(v, fields)
}

/// There is only one object with given members.
pub proof fn object_unique(a: JsonV, b: JsonV, fields: FieldMap)
    requires
        is_object_of(a, fields),
        is_object_of(b, fields),
    ensures
        a == b,
{
    let s = a->Obj_0;
    let t = b->Obj_0;
    assert forall|x: (Seq<char>, JsonV)| s.contains(x) == #[trigger] t.contains(x) by {
        if s.contains(x) {
            let i = choose|i: int| 0 <= i < s.len() && s[i] == x;
            assert(fields.dom().contains(s[i].0));
            let j = choose|j: int| 0 <= j < t.len() && (#[trigger] t[j]).0 == s[i].0;
            assert(t[j] == x);
        }
        if t.contains(x) {
            let i = choose|i: int| 0 <= i < t.len() && t[i] == x;
            assert(fields.dom().contains(t[i].0));
            let j = choose|j: int| 0 <= j < s.len() && (#[trigger] s[j]).0 == t[i].0;
            assert(s[j] == x);
        }
    }
    same_members(s, t);
}

proof fn last_key_is_new(s: Members, k: int)
    requires
        keys_ascend(s),
        0 <= k < s.len() - 1,
    ensures
        s[k].0 != s[s.len() - 1].0,
{
    lex_irreflexive(char_rank(s[k].0));
    assert(lex_before(char_rank(s[k].0), char_rank(s[s.len() - 1].0)));
}

/// Members in the order of their keys are fixed by which members there are.
proof fn same_members(s: Members, t: Members)
    requires
        keys_ascend(s),
        keys_ascend(t),
        forall|x: (Seq<char>, JsonV)| s.contains(x) == #[trigger] t.contains(x),
    ensures
        s == t,
    decreases s.len(),
{
    if s.len() == 0 {
        if t.len() > 0 {
            assert(t.contains(t[0]));
            assert(s.contains(t[0]));
        }
        assert(s =~= t);
    } else if t.len() == 0 {
        assert(s.contains(s[0]));
        assert(t.contains(s[0]));
    } else {
        let m = s.len() - 1;
        let n = t.len() - 1;
        let a = s[m];
        let b = t[n];
        assert(s.contains(a) && t.contains(b));
        assert(t.contains(a) && s.contains(b));
        let j = choose|j: int| 0 <= j < t.len() && t[j] == a;
        let i = choose|i: int| 0 <= i < s.len() && s[i] == b;
        if j < n {
            assert(lex_before(char_rank(t[j].0), char_rank(t[n].0)));
            if i < m {
                assert(lex_before(char_rank(s[i].0), char_rank(s[m].0)));
                lex_asymmetric(char_rank(a.0), char_rank(b.0));
            } else {
                lex_irreflexive(char_rank(a.0));
            }
        }
        assert(a == b);
        let s1 = s.drop_last();
        let t1 = t.drop_last();
        assert forall|x: (Seq<char>, JsonV)| s1.contains(x) == #[trigger] t1.contains(x) by {
            if s1.contains(x) {
                let k = choose|k: int| 0 <= k < s1.len() && s1[k] == x;
                assert(s[k] == x);
                last_key_is_new(s, k);
                assert(s.contains(x));
                assert(t.contains(x));
                let q = choose|q: int| 0 <= q < t.len() && t[q] == x;
                assert(t1[q] == x);
            }
            if t1.contains(x) {
                let k = choose|k: int| 0 <= k < t1.len() && t1[k] == x;
                assert(t[k] == x);
                last_key_is_new(t, k);
                assert(t.contains(x));
                assert(s.contains(x));
                let q = choose|q: int| 0 <= q < s.len() && s[q] == x;
                assert(s1[q] == x);
            }
        }
        assert(keys_ascend(s1));
        assert(keys_ascend(t1));
        same_members(s1, t1);
        assert(s =~= s1.push(a));
        assert(t =~= t1.push(b));
    }
}

/// A table of values as members by key.
pub open spec fn fields_of(t: Map<Seq<int>, Json>) -> FieldMap {
    Map::new(|k: Seq<char>| t.dom().contains(char_rank(k)), |k: Seq<char>| t[char_rank(k)]@)
}

/// An object whose members are given in any order; one that is given again takes the place of
/// the first.
pub struct Object {
    pub members: Table<String, Json>,
}

impl Object {
    /// The members so far are in order.
    pub open spec fn wf(&self) -> bool {
        self.members.wf()
    }

    /// The members so far.
    pub open spec fn fields(&self) -> FieldMap {
        fields_of(self.members@)
    }

    /// No members.
    pub fn new() -> (r: Self)
        ensures
            r.wf(),
            r.fields() == Map::<Seq<char>, JsonV>::empty(),
    {
        let r = Object { members: Table::new() };
        assert(r.fields() =~= Map::<Seq<char>, JsonV>::empty());
        r
    }

    /// One more member.
    pub fn put(&mut self, key: &str, value: Json)
        requires
            old(self).wf(),
        ensures
            final(self).wf(),
            final(self).fields() == old(self).fields().insert(key@, value@),
    {
        let ghost before = self.fields();
        self.members.insert(key.to_owned(), value);
        proof {
            let after = before.insert(key@, value@);
            assert forall|k: Seq<char>|
                #![trigger self.fields().dom().contains(k)]
                #![trigger after.dom().contains(k)]
                self.fields().dom().contains(k) == after.dom().contains(k) && (
                self.fields().dom().contains(k) ==> self.fields()[k] == after[k]) by {
                char_rank_injective(k, key@);
            }
            assert(self.fields().dom() =~= after.dom());
            assert(self.fields() =~= after);
        }
    }

    /// One more member that is a string.
    pub fn put_str(&mut self, key: &str, value: &str)
        requires
            old(self).wf(),
        ensures
            final(self).wf(),
            final(self).fields() == old(self).fields().insert(key@, JsonV::Str(value@)),
    {
        self.put(key, Json::Str(value.to_owned()));
    }

    /// The object.
    pub fn done(self) -> (r: Json)
        requires
            self.wf(),
        ensures
            is_object_of(r@, self.fields()),
            r@ == object_of(self.fields()),
    {
        let ghost fields = self.fields();
        let ghost s = self.members.entries@;
        let r = Json::Obj(self.members);
        proof {
            let v = r@->Obj_0;
            assert forall|i: int| 0 <= i < v.len() implies fields.dom().contains(
                (#[trigger] v[i]).0,
            ) && fields[v[i].0] == v[i].1 by {
                map_of_at(s, i);
            }
            assert forall|k: Seq<char>| #[trigger] fields.dom().contains(k) implies exists|i: int|
                0 <= i < v.len() && (#[trigger] v[i]).0 == k by {
                let i = choose|i: int| holds_at(s, char_rank(k), i);
                char_rank_injective(s[i].0@, k);
                assert(v[i].0 == k);
            }
            assert forall|i: int, j: int| 0 <= i < j < v.len() implies lex_before(
                char_rank(#[trigger] v[i].0),
                char_rank(#[trigger] v[j].0),
            ) by {
                assert(lex_before(s[i].0.rank(), s[j].0.rank()));
            }
            assert(is_object_of(r@, fields));
            object_unique(r@, object_of(fields), fields);
        }
        r
    }
}

} // verus!
