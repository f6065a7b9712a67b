//! Facts about the members of objects: looking them up, and that they exist in order.
use vstd::prelude::*;

use crate::json::{
    deepest, deepest_member, nesting, orderly, keys_ascend, member, member_at_is_first,
    member_at_unique, member_views, Json, JsonV,
};
use crate::order::{
    char_rank, char_rank_injective, lex_before, lex_irreflexive, lex_total, lex_transitive, Key,
};
use crate::record::{fields_of, is_object_of, object_of, text_values, FieldMap, Members};
use crate::table::{holds_at, map_of_at, Table};

verus! {

/// The member of a key.
pub open spec fn find(m: Members, key: Seq<char>) -> Option<JsonV> {
    member(JsonV::Obj(m), key)
}

/// Looking up in one list of members and then in another.
pub proof fn find_concat(a: Members, b: Members, key: Seq<char>)
    ensures
        find(a + b, key) == match find(a, key) {
            Some(v) => Some(v),
            None => find(b, key),
        },
{
    let c = a + b;
    member_at_is_first(a, key);
    member_at_is_first(b, key);
    let i = crate::json::member_at(a, key);
    let j = crate::json::member_at(b, key);
    if i < a.len() {
        assert forall|k: int| 0 <= k < i implies (#[trigger] c[k]).0 != key by {
            assert(c[k] == a[k]);
        }
        assert(c[i] == a[i]);
        member_at_unique(c, key, i);
    } else {
        let n = a.len() + j;
        assert forall|k: int| 0 <= k < n implies (#[trigger] c[k]).0 != key by {
            if k < a.len() {
                assert(c[k] == a[k]);
            } else {
                assert(c[k] == b[k - a.len()]);
            }
        }
        if n < c.len() {
            assert(c[n] == b[j]);
        }
        member_at_unique(c, key, n);
    }
}

/// Looking up among no members, and among one.
pub proof fn find_small(key: Seq<char>, k: Seq<char>, v: JsonV)
    ensures
        find(Seq::empty(), key) is None,
        find(seq![(k, v)], key) == if k == key {
            Some(v)
        } else {
            None
        },
{
    member_at_is_first(seq![(k, v)], key);
    if k == key {
        member_at_unique(seq![(k, v)], key, 0);
    } else {
        member_at_unique(seq![(k, v)], key, 1);
    }
}

/// A member of an object is what its fields say.
pub proof fn member_of_object(v: JsonV, f: FieldMap, key: Seq<char>)
    requires
        is_object_of(v, f),
    ensures
        member(v, key) == if f.dom().contains(key) {
            Some(f[key])
        } else {
            None
        },
{
    let s = v->Obj_0;
    member_at_is_first(s, key);
    let i = crate::json::member_at(s, key);
    if f.dom().contains(key) {
        let j = choose|j: int| 0 <= j < s.len() && (#[trigger] s[j]).0 == key;
        assert(i <= j);
        assert(f[s[i].0] == s[i].1);
    } else if i < s.len() {
        assert(f.dom().contains(s[i].0));
    }
}

/// An object has only one set of fields.
pub proof fn fields_unique(v: JsonV, f: FieldMap, g: FieldMap)
    requires
        is_object_of(v, f),
        is_object_of(v, g),
    ensures
        f == g,
{
    let s = v->Obj_0;
    assert forall|k: Seq<char>| f.dom().contains(k) == g.dom().contains(k) by {
        if f.dom().contains(k) {
            let i = choose|i: int| 0 <= i < s.len() && (#[trigger] s[i]).0 == k;
            assert(g.dom().contains(s[i].0));
        }
        if g.dom().contains(k) {
            let i = choose|i: int| 0 <= i < s.len() && (#[trigger] s[i]).0 == k;
            assert(f.dom().contains(s[i].0));
        }
    }
    assert(f.dom() =~= g.dom());
    assert forall|k: Seq<char>| f.dom().contains(k) implies f[k] == g[k] by {
        let i = choose|i: int| 0 <= i < s.len() && (#[trigger] s[i]).0 == k;
        assert(f[s[i].0] == s[i].1);
        assert(g[s[i].0] == s[i].1);
    }
    assert(f =~= g);
}

/// A table of values is an object.
pub proof fn table_is_object(t: Table<String, Json>)
    requires
        t.wf(),
    ensures
        is_object_of(JsonV::Obj(member_views(t.entries@)), fields_of(t@)),
{
    let s = t.entries@;
    let o = JsonV::Obj(member_views(s));
    let v = o->Obj_0;
    assert(v == member_views(s));
    let fields = fields_of(t@);
    assert forall|i: int| 0 <= i < v.len() implies fields.dom().contains((#[trigger] v[i]).0)
        && fields[v[i].0] == v[i].1 by {
        map_of_at(s, i);
        assert(v[i].0 == s[i].0@);
    }
    assert forall|k: Seq<char>| #[trigger] fields.dom().contains(k) implies exists|i: int|
        0 <= i < v.len() && (#[trigger] v[i]).0 == k by {
        let i = choose|i: int| holds_at(s, char_rank(k), i);
        char_rank_injective(s[i].0@, k);
        assert(v[i].0 == k);
    }
    assert forall|i: int, j: int| 0 <= i < j < v.len() implies lex_before(
        char_rank(#[trigger] v[i].0),
        char_rank(#[trigger] v[j].0),
    ) by {
        assert(v[i].0 == s[i].0@);
        assert(v[j].0 == s[j].0@);
        assert(lex_before(s[i].0.rank(), s[j].0.rank()));
    }
    assert(keys_ascend(v));
    assert(is_object_of(o, fields));
}

/// Members in order with one more.
spec fn placed(s: Members, k: Seq<char>, v: JsonV) -> Members
    decreases s.len(),
{
    if s.len() == 0 || lex_before(char_rank(s.last().0), char_rank(k)) {
        s.push((k, v))
    } else {
        placed(s.drop_last(), k, v).push(s.last())
    }
}

proof fn placed_is_in_order(s: Members, k: Seq<char>, v: JsonV)
    requires
        keys_ascend(s),
        forall|i: int| 0 <= i < s.len() ==> (#[trigger] s[i]).0 != k,
    ensures
        keys_ascend(placed(s, k, v)),
        forall|x: (Seq<char>, JsonV)| #[trigger]
            placed(s, k, v).contains(x) <==> s.contains(x) || x == (k, v),
    decreases s.len(),
{
    let t = placed(s, k, v);
    if s.len() == 0 || lex_before(char_rank(s.last().0), char_rank(k)) {
        assert forall|i: int, j: int| 0 <= i < j < t.len() implies lex_before(
            char_rank(#[trigger] t[i].0),
            char_rank(#[trigger] t[j].0),
        ) by {
            if j < s.len() {
                assert(lex_before(char_rank(s[i].0), char_rank(s[j].0)));
            } else if i < s.len() - 1 {
                assert(lex_before(char_rank(s[i].0), char_rank(s[s.len() - 1].0)));
                lex_transitive(char_rank(s[i].0), char_rank(s[s.len() - 1].0), char_rank(k));
            }
        }
        assert forall|x: (Seq<char>, JsonV)| #[trigger] t.contains(x) <==> s.contains(x) || x == (
            k,
            v,
        ) by {
            if s.contains(x) {
                let i = choose|i: int| 0 <= i < s.len() && s[i] == x;
                assert(t[i] == x);
            }
            if x == (k, v) {
                assert(t[s.len() as int] == x);
            }
            if t.contains(x) {
                let i = choose|i: int| 0 <= i < t.len() && t[i] == x;
                if i < s.len() {
                    assert(s[i] == x);
                }
            }
        }
    } else {
        let d = s.drop_last();
        let last = s.last();
        assert(keys_ascend(d));
        assert forall|i: int| 0 <= i < d.len() implies (#[trigger] d[i]).0 != k by {
            assert(d[i] == s[i]);
        }
        placed_is_in_order(d, k, v);
        let p = placed(d, k, v);
        lex_total(char_rank(last.0), char_rank(k));
        if char_rank(last.0) == char_rank(k) {
            char_rank_injective(last.0, k);
            assert(s[s.len() - 1].0 != k);
        }
        assert forall|i: int| 0 <= i < p.len() implies lex_before(
            char_rank((#[trigger] p[i]).0),
            char_rank(last.0),
        ) by {
            assert(p.contains(p[i]));
            if p[i] != (k, v) {
                assert(d.contains(p[i]));
                let j = choose|j: int| 0 <= j < d.len() && d[j] == p[i];
                assert(s[j] == p[i]);
                assert(lex_before(char_rank(s[j].0), char_rank(s[s.len() - 1].0)));
            }
        }
        assert forall|i: int, j: int| 0 <= i < j < t.len() implies lex_before(
            char_rank(#[trigger] t[i].0),
            char_rank(#[trigger] t[j].0),
        ) by {
            if j < p.len() {
                assert(lex_before(char_rank(p[i].0), char_rank(p[j].0)));
            } else {
                assert(p[i] == t[i]);
            }
        }
        assert forall|x: (Seq<char>, JsonV)| #[trigger] t.contains(x) <==> s.contains(x) || x == (
            k,
            v,
        ) by {
            assert(p.contains(x) <==> d.contains(x) || x == (k, v));
            if t.contains(x) {
                let i = choose|i: int| 0 <= i < t.len() && t[i] == x;
                if i < p.len() {
                    assert(p[i] == x);
                    if d.contains(x) {
                        let j = choose|j: int| 0 <= j < d.len() && d[j] == x;
                        assert(s[j] == x);
                    }
                } else {
                    assert(s[s.len() - 1] == x);
                }
            }
            if s.contains(x) {
                let i = choose|i: int| 0 <= i < s.len() && s[i] == x;
                if i < d.len() {
                    assert(d[i] == x);
                    let j = choose|j: int| 0 <= j < p.len() && p[j] == x;
                    assert(t[j] == x);
                } else {
                    assert(t[p.len() as int] == x);
                }
            }
            if x == (k, v) {
                let j = choose|j: int| 0 <= j < p.len() && p[j] == x;
                assert(t[j] == x);
            }
        }
    }
}

/// There is an object with given fields.
pub proof fn object_exists(f: FieldMap)
    requires
        f.dom().finite(),
    ensures
        is_object_of(object_of(f), f),
    decreases f.dom().len(),
{
    if f.dom().len() == 0 {
        assert(f.dom() =~= Set::empty());
        assert(is_object_of(JsonV::Obj(Seq::empty()), f));
    } else {
        let k = f.dom().choose();
        assert(f.dom().contains(k));
        let g = f.remove(k);
        assert(g.dom() =~= f.dom().remove(k));
        object_exists(g);
        let s = object_of(g)->Obj_0;
        assert forall|i: int| 0 <= i < s.len() implies (#[trigger] s[i]).0 != k by {
            assert(g.dom().contains(s[i].0));
        }
        placed_is_in_order(s, k, f[k]);
        let o = JsonV::Obj(placed(s, k, f[k]));
        let t = o->Obj_0;
        assert(t == placed(s, k, f[k]));
        assert forall|i: int| 0 <= i < t.len() implies f.dom().contains((#[trigger] t[i]).0)
            && f[t[i].0] == t[i].1 by {
            assert(t.contains(t[i]));
            if t[i] != (k, f[k]) {
                let j = choose|j: int| 0 <= j < s.len() && s[j] == t[i];
                assert(g.dom().contains(s[j].0));
                assert(g[s[j].0] == s[j].1);
            }
        }
        assert forall|q: Seq<char>| #[trigger] f.dom().contains(q) implies exists|i: int|
            0 <= i < t.len() && (#[trigger] t[i]).0 == q by {
            if q == k {
                assert(t.contains((k, f[k])));
                let i = choose|i: int| 0 <= i < t.len() && t[i] == (k, f[k]);
                assert(t[i].0 == q);
            } else {
                assert(g.dom().contains(q));
                let j = choose|j: int| 0 <= j < s.len() && (#[trigger] s[j]).0 == q;
                assert(s.contains(s[j]));
                assert(t.contains(s[j]));
                let i = choose|i: int| 0 <= i < t.len() && t[i] == s[j];
                assert(t[i].0 == q);
            }
        }
        assert(is_object_of(o, f));
    }
}

/// A table has finitely many fields.
pub proof fn table_is_finite(t: Table<String, Json>)
    ensures
        fields_of(t@).dom().finite(),
{
    let s = t.entries@;
    let keys = Seq::new(s.len(), |i: int| s[i].0@);
    vstd::seq_lib::seq_to_set_is_finite(keys);
    assert forall|k: Seq<char>| fields_of(t@).dom().contains(k) implies keys.to_set().contains(
        k,
    ) by {
        let i = choose|i: int| holds_at(s, char_rank(k), i);
        char_rank_injective(s[i].0@, k);
        assert(keys[i] == k);
    }
    vstd::set_lib::lemma_set_subset_finite(keys.to_set(), fields_of(t@).dom());
}

/// One text stands before another by the first letter in which they differ.
pub proof fn letter_before(a: Seq<char>, b: Seq<char>, k: int)
    requires
        0 <= k < a.len(),
        k < b.len(),
        (a[k] as int) < (b[k] as int),
        forall|i: int| 0 <= i < k ==> a[i] == b[i],
    ensures
        lex_before(char_rank(a), char_rank(b)),
{
    assert(crate::order::splits_at(char_rank(a), char_rank(b), k));
}

/// Members are in order where each stands before the next.
pub proof fn neighbours_ascend(m: Members)
    requires
        forall|i: int|
            0 <= i && i + 1 < m.len() ==> lex_before(
                char_rank((#[trigger] m[i]).0),
                char_rank(m[i + 1].0),
            ),
    ensures
        keys_ascend(m),
    decreases m.len(),
{
    if m.len() > 1 {
        let d = m.drop_last();
        let n = m.len() - 1;
        assert forall|i: int| 0 <= i && i + 1 < d.len() implies lex_before(
            char_rank((#[trigger] d[i]).0),
            char_rank(d[i + 1].0),
        ) by {
            assert(d[i] == m[i]);
            assert(d[i + 1] == m[i + 1]);
        }
        neighbours_ascend(d);
        assert forall|i: int, j: int| 0 <= i < j < m.len() implies lex_before(
            char_rank(#[trigger] m[i].0),
            char_rank(#[trigger] m[j].0),
        ) by {
            if j < n {
                assert(lex_before(char_rank(d[i].0), char_rank(d[j].0)));
            } else {
                assert(lex_before(char_rank(m[n - 1].0), char_rank(m[n - 1 + 1].0)));
                if i < n - 1 {
                    assert(lex_before(char_rank(d[i].0), char_rank(d[n - 1].0)));
                    lex_transitive(char_rank(m[i].0), char_rank(m[n - 1].0), char_rank(m[n].0));
                }
            }
        }
    }
}

/// A member in order is found by its key.
pub proof fn find_at(m: Members, i: int)
    requires
        keys_ascend(m),
        0 <= i < m.len(),
    ensures
        find(m, m[i].0) == Some(m[i].1),
{
    assert forall|j: int| 0 <= j < i implies (#[trigger] m[j]).0 != m[i].0 by {
        lex_irreflexive(char_rank(m[i].0));
        assert(lex_before(char_rank(m[j].0), char_rank(m[i].0)));
    }
    member_at_unique(m, m[i].0, i);
}

/// A key that no member has is not found.
pub proof fn find_none(m: Members, key: Seq<char>)
    requires
        forall|i: int| 0 <= i < m.len() ==> (#[trigger] m[i]).0 != key,
    ensures
        find(m, key) is None,
{
    member_at_unique(m, key, m.len() as int);
}

/// A list is nested no deeper than its items.
pub proof fn list_nesting(a: Seq<JsonV>, n: nat)
    requires
        forall|i: int| 0 <= i < a.len() ==> nesting(#[trigger] a[i]) <= n,
    ensures
        deepest(a) <= n,
    decreases a.len(),
{
    if a.len() > 0 {
        let d = a.subrange(0, a.len() - 1);
        assert forall|i: int| 0 <= i < d.len() implies nesting(#[trigger] d[i]) <= n by {
            assert(d[i] == a[i]);
        }
        list_nesting(d, n);
    }
}

/// Members are nested no deeper than their values.
pub proof fn member_nesting(m: Members, n: nat)
    requires
        forall|i: int| 0 <= i < m.len() ==> nesting((#[trigger] m[i]).1) <= n,
    ensures
        deepest_member(m) <= n,
    decreases m.len(),
{
    if m.len() > 0 {
        let d = m.subrange(0, m.len() - 1);
        assert forall|i: int| 0 <= i < d.len() implies nesting((#[trigger] d[i]).1) <= n by {
            assert(d[i] == m[i]);
        }
        member_nesting(d, n);
    }
}

/// A list of texts is in order and flat.
pub proof fn texts_in_order(s: Seq<String>)
    ensures
        orderly(JsonV::Arr(text_values(s))),
        nesting(JsonV::Arr(text_values(s))) <= 1,
{
    let a = text_values(s);
    assert forall|i: int| 0 <= i < a.len() implies orderly(#[trigger] a[i]) && nesting(a[i])
        == 0 by {
        assert(a[i] == JsonV::Str(s[i]@));
    }
    list_nesting(a, 0);
}

} // verus!
