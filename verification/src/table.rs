//! A map whose entries are kept in the order of their keys.
use vstd::prelude::*;

use crate::order::{lex_before, lex_irreflexive, lex_total, lex_transitive, Key, Side};

verus! {

/// Entries in strictly ascending order of their keys.
#[derive(Clone, Debug, PartialEq, Eq)]
pub struct Table<K, V> {
    pub entries: Vec<(K, V)>,
}

/// Every key stands before all that follow it.
pub open spec fn ascending<K: Key, V>(s: Seq<(K, V)>) -> bool {
    forall|i: int, j: int|
        0 <= i < j < s.len() ==> lex_before(#[trigger] s[i].0.rank(), #[trigger] s[j].0.rank())
}

/// Position `i` holds the entry of rank `r`.
pub open spec fn holds_at<K: Key, V>(s: Seq<(K, V)>, r: Seq<int>, i: int) -> bool {
    0 <= i < s.len() && s[i].0.rank() == r
}

/// Some entry has rank `r`.
pub open spec fn has_rank<K: Key, V>(s: Seq<(K, V)>, r: Seq<int>) -> bool {
    exists|i: int| holds_at(s, r, i)
}

/// The entries as a map from rank to value.
pub open spec fn map_of<K: Key, V>(s: Seq<(K, V)>) -> Map<Seq<int>, V> {
    Map::new(
        |r: Seq<int>| has_rank(s, r),
        |r: Seq<int>| s[choose|i: int| holds_at(s, r, i)].1,
    )
}

/// The entry at a position is what the map holds at its rank.
pub proof fn map_of_at<K: Key, V>(s: Seq<(K, V)>, i: int)
    requires
        ascending(s),
        0 <= i < s.len(),
    ensures
        map_of(s).dom().contains(s[i].0.rank()),
        map_of(s)[s[i].0.rank()] == s[i].1,
{
    let r = s[i].0.rank();
    assert(holds_at(s, r, i));
    let k = choose|k: int| holds_at(s, r, k);
    if k < i {
        lex_irreflexive(r);
        assert(lex_before(s[k].0.rank(), s[i].0.rank()));
    } else if i < k {
        lex_irreflexive(r);
        assert(lex_before(s[i].0.rank(), s[k].0.rank()));
    }
}

/// Only one position holds a given rank.
pub proof fn position_unique<K: Key, V>(s: Seq<(K, V)>, i: int, j: int)
    requires
        ascending(s),
        0 <= i < s.len(),
        0 <= j < s.len(),
        s[i].0.rank() == s[j].0.rank(),
    ensures
        i == j,
{
    lex_irreflexive(s[i].0.rank());
    if i < j {
        assert(lex_before(s[i].0.rank(), s[j].0.rank()));
    } else if j < i {
        assert(lex_before(s[j].0.rank(), s[i].0.rank()));
    }
}

/// The map after an entry is placed at `i`, between smaller and larger ranks.
proof fn map_of_insert<K: Key, V>(s: Seq<(K, V)>, i: int, k: K, v: V)
    requires
        ascending(s),
        0 <= i <= s.len(),
        forall|j: int| 0 <= j < i ==> lex_before(#[trigger] s[j].0.rank(), k.rank()),
        forall|j: int| i <= j < s.len() ==> lex_before(k.rank(), #[trigger] s[j].0.rank()),
    ensures
        ascending(s.insert(i, (k, v))),
        map_of(s.insert(i, (k, v))) == map_of(s).insert(k.rank(), v),
        !map_of(s).dom().contains(k.rank()),
{
    let t = s.insert(i, (k, v));
    assert forall|a: int, b: int| 0 <= a < b < t.len() implies lex_before(
        #[trigger] t[a].0.rank(),
        #[trigger] t[b].0.rank(),
    ) by {
        let a0 = if a < i { a } else { a - 1 };
        let b0 = if b < i { b } else { b - 1 };
        if a == i {
            assert(t[b] == s[b0]);
        } else if b == i {
            assert(t[a] == s[a0]);
        } else {
            assert(t[a] == s[a0]);
            assert(t[b] == s[b0]);
        }
    }
    assert(!has_rank(s, k.rank())) by {
        if has_rank(s, k.rank()) {
            let j = choose|j: int| holds_at(s, k.rank(), j);
            lex_irreflexive(k.rank());
            assert(lex_before(s[j].0.rank(), k.rank()) || lex_before(k.rank(), s[j].0.rank()));
        }
    }
    let lhs = map_of(t);
    let rhs = map_of(s).insert(k.rank(), v);
    assert forall|r: Seq<int>|
        #![trigger lhs.dom().contains(r)]
        #![trigger rhs.dom().contains(r)]
        #![trigger lhs[r]]
        lhs.dom().contains(r) == rhs.dom().contains(r) && (
    lhs.dom().contains(r) ==> lhs[r] == rhs[r]) by {
        if r == k.rank() {
            assert(t[i] == (k, v));
            map_of_at(t, i);
        } else if has_rank(s, r) {
            let j = choose|j: int| holds_at(s, r, j);
            let j1 = if j < i { j } else { j + 1 };
            assert(t[j1] == s[j]);
            map_of_at(t, j1);
            map_of_at(s, j);
        } else if has_rank(t, r) {
            let j = choose|j: int| holds_at(t, r, j);
            let j0 = if j < i { j } else { j - 1 };
            assert(t[i] == (k, v));
            assert(t[j] == s[j0]);
            assert(holds_at(s, r, j0));
        }
    }
    assert(lhs.dom() =~= rhs.dom());
    assert(lhs =~= rhs);
}

/// The map after the value at `i` is replaced.
pub proof fn map_of_update<K: Key, V>(s: Seq<(K, V)>, i: int, k: K, v: V)
    requires
        ascending(s),
        0 <= i < s.len(),
        k.rank() == s[i].0.rank(),
    ensures
        ascending(s.update(i, (k, v))),
        map_of(s.update(i, (k, v))) == map_of(s).insert(k.rank(), v),
{
    let t = s.update(i, (k, v));
    assert forall|a: int, b: int| 0 <= a < b < t.len() implies lex_before(
        #[trigger] t[a].0.rank(),
        #[trigger] t[b].0.rank(),
    ) by {
        assert(t[a].0.rank() == s[a].0.rank());
        assert(t[b].0.rank() == s[b].0.rank());
    }
    let lhs = map_of(t);
    let rhs = map_of(s).insert(k.rank(), v);
    assert forall|r: Seq<int>|
        #![trigger lhs.dom().contains(r)]
        #![trigger rhs.dom().contains(r)]
        #![trigger lhs[r]]
        lhs.dom().contains(r) == rhs.dom().contains(r) && (
    lhs.dom().contains(r) ==> lhs[r] == rhs[r]) by {
        if r == k.rank() {
            map_of_at(t, i);
        } else if has_rank(s, r) {
            let j = choose|j: int| holds_at(s, r, j);
            assert(t[j] == s[j]);
            map_of_at(t, j);
            map_of_at(s, j);
        } else if has_rank(t, r) {
            let j = choose|j: int| holds_at(t, r, j);
            assert(j != i);
            assert(holds_at(s, r, j));
        }
    }
    assert(lhs.dom() =~= rhs.dom());
    assert(lhs =~= rhs);
}

/// The map after the entry at `i` is taken out.
pub proof fn map_of_remove<K: Key, V>(s: Seq<(K, V)>, i: int)
    requires
        ascending(s),
        0 <= i < s.len(),
    ensures
        ascending(s.remove(i)),
        map_of(s.remove(i)) == map_of(s).remove(s[i].0.rank()),
{
    let t = s.remove(i);
    let q = s[i].0.rank();
    assert forall|a: int, b: int| 0 <= a < b < t.len() implies lex_before(
        #[trigger] t[a].0.rank(),
        #[trigger] t[b].0.rank(),
    ) by {
        let a0 = if a < i { a } else { a + 1 };
        let b0 = if b < i { b } else { b + 1 };
        assert(t[a] == s[a0]);
        assert(t[b] == s[b0]);
    }
    let lhs = map_of(t);
    let rhs = map_of(s).remove(q);
    assert forall|r: Seq<int>|
        #![trigger lhs.dom().contains(r)]
        #![trigger rhs.dom().contains(r)]
        #![trigger lhs[r]]
        lhs.dom().contains(r) == rhs.dom().contains(r) && (
    lhs.dom().contains(r) ==> lhs[r] == rhs[r]) by {
        if has_rank(t, r) {
            let j = choose|j: int| holds_at(t, r, j);
            let j0 = if j < i { j } else { j + 1 };
            assert(t[j] == s[j0]);
            assert(holds_at(s, r, j0));
            map_of_at(t, j);
            map_of_at(s, j0);
            if r == q {
                position_unique(s, i, j0);
            }
        } else if has_rank(s, r) && r != q {
            let j = choose|j: int| holds_at(s, r, j);
            let j1 = if j < i { j } else { j - 1 };
            assert(t[j1] == s[j]);
            assert(holds_at(t, r, j1));
        }
    }
    assert(lhs.dom() =~= rhs.dom());
    assert(lhs =~= rhs);
}

impl<K: Key, V> Table<K, V> {
    /// The entries are in order.
    pub open spec fn wf(&self) -> bool {
        ascending(self.entries@)
    }

    /// A table with no entries.
    pub fn new() -> (r: Self)
        ensures
            r.wf(),
            r@ == Map::<Seq<int>, V>::empty(),
            r.entries@.len() == 0,
    {
        let r = Table { entries: Vec::new() };
        assert(r@ =~= Map::<Seq<int>, V>::empty());
        r
    }

    /// How many entries there are.
    pub fn len(&self) -> (r: usize)
        ensures
            r == self.entries@.len(),
    {
        self.entries.len()
    }

    /// The position of `key`, or where it would be placed.
    fn find(&self, key: &K) -> (r: (bool, usize))
        requires
            self.wf(),
        ensures
            r.0 == self@.dom().contains(key.rank()),
            r.1 <= self.entries@.len(),
            r.0 ==> r.1 < self.entries@.len() && self.entries@[r.1 as int].0.rank() == key.rank()
                && self@[key.rank()] == self.entries@[r.1 as int].1,
            !r.0 ==> (forall|j: int|
                0 <= j < r.1 ==> lex_before(
                    #[trigger] self.entries@[j].0.rank(),
                    key.rank(),
                )) && (forall|j: int|
                r.1 <= j < self.entries@.len() ==> lex_before(
                    key.rank(),
                    #[trigger] self.entries@[j].0.rank(),
                )),
    {
        let mut i: usize = 0;
        while i < self.entries.len()
            invariant
                self.wf(),
                i <= self.entries@.len(),
                forall|j: int|
                    0 <= j < i ==> lex_before(#[trigger] self.entries@[j].0.rank(), key.rank()),
            decreases self.entries.len() - i,
        {
            match self.entries[i].0.side(key) {
                Side::Before => {
                    i += 1;
                }
                Side::Same => {
                    proof {
                        map_of_at(self.entries@, i as int);
                    }
                    return (true, i);
                }
                Side::After => {
                    proof {
                        let here = self.entries@[i as int].0.rank();
                        lex_total(here, key.rank());
                        assert forall|j: int| i <= j < self.entries@.len() implies lex_before(
                            key.rank(),
                            #[trigger] self.entries@[j].0.rank(),
                        ) by {
                            if j > i {
                                lex_transitive(key.rank(), here, self.entries@[j].0.rank());
                            }
                        }
                        self.absent(key.rank(), i as int);
                    }
                    return (false, i);
                }
            }
        }
        proof {
            self.absent(key.rank(), i as int);
        }
        (false, i)
    }

    proof fn absent(&self, r: Seq<int>, i: int)
        requires
            self.wf(),
            0 <= i <= self.entries@.len(),
            forall|j: int| 0 <= j < i ==> lex_before(#[trigger] self.entries@[j].0.rank(), r),
            forall|j: int|
                i <= j < self.entries@.len() ==> lex_before(
                    r,
                    #[trigger] self.entries@[j].0.rank(),
                ),
        ensures
            !self@.dom().contains(r),
    {
        lex_irreflexive(r);
        if has_rank(self.entries@, r) {
            let j = choose|j: int| holds_at(self.entries@, r, j);
            assert(lex_before(self.entries@[j].0.rank(), r) || lex_before(
                r,
                self.entries@[j].0.rank(),
            ));
        }
    }

    /// Whether `key` has an entry.
    pub fn contains(&self, key: &K) -> (r: bool)
        requires
            self.wf(),
        ensures
            r == self@.dom().contains(key.rank()),
    {
        self.find(key).0
    }

    /// The value of `key`.
    pub fn get(&self, key: &K) -> (r: Option<&V>)
        requires
            self.wf(),
        ensures
            r is Some <==> self@.dom().contains(key.rank()),
            r matches Some(v) ==> *v == self@[key.rank()],
    {
        let (found, i) = self.find(key);
        if found {
            Some(&self.entries[i].1)
        } else {
            None
        }
    }

    /// Sets the value of `key` and returns the one it had.
    pub fn insert(&mut self, key: K, value: V) -> (r: Option<V>)
        requires
            old(self).wf(),
        ensures
            final(self).wf(),
            final(self)@ == old(self)@.insert(key.rank(), value),
            r is Some <==> old(self)@.dom().contains(key.rank()),
            r matches Some(v) ==> v == old(self)@[key.rank()],
            final(self).entries@.len() == old(self).entries@.len() + (if r is Some {
                0int
            } else {
                1int
            }),
    {
        let (found, i) = self.find(&key);
        if found {
            proof {
                map_of_update(self.entries@, i as int, key, value);
            }
            let ghost before = self.entries@;
            let previous = self.entries.remove(i);
            self.entries.insert(i, (key, value));
            assert(self.entries@ =~= before.update(i as int, (key, value)));
            Some(previous.1)
        } else {
            proof {
                map_of_insert(self.entries@, i as int, key, value);
            }
            self.entries.insert(i, (key, value));
            None
        }
    }

    /// Takes the entry of `key` out.
    pub fn remove(&mut self, key: &K) -> (r: Option<V>)
        requires
            old(self).wf(),
        ensures
            final(self).wf(),
            final(self)@ == old(self)@.remove(key.rank()),
            r is Some <==> old(self)@.dom().contains(key.rank()),
            r matches Some(v) ==> v == old(self)@[key.rank()],
            final(self).entries@.len() == old(self).entries@.len() - (if r is Some {
                1int
            } else {
                0int
            }),
    {
        let (found, i) = self.find(key);
        if found {
            proof {
                map_of_remove(self.entries@, i as int);
            }
            let previous = self.entries.remove(i);
            Some(previous.1)
        } else {
            assert(self@.remove(key.rank()) =~= self@);
            None
        }
    }

    /// Takes out the entry at position `i`.
    pub fn remove_at(&mut self, i: usize) -> (r: (K, V))
        requires
            old(self).wf(),
            i < old(self).entries@.len(),
        ensures
            final(self).wf(),
            r == old(self).entries@[i as int],
            final(self).entries@ == old(self).entries@.remove(i as int),
            final(self)@ == old(self)@.remove(r.0.rank()),
    {
        proof {
            map_of_remove(self.entries@, i as int);
        }
        self.entries.remove(i)
    }
}

/// The part of a map that a predicate accepts.
pub open spec fn kept<V>(m: Map<Seq<int>, V>, p: spec_fn(Seq<int>, V) -> bool) -> Map<Seq<int>, V> {
    Map::new(|r: Seq<int>| m.dom().contains(r) && p(r, m[r]), |r: Seq<int>| m[r])
}

impl<K: Key, V> Table<K, V> {
    /// Keeps the entries that `keep` accepts, which is to decide as `p` does.
    pub fn retain<F: Fn(&K, &V) -> bool>(
        &mut self,
        keep: F,
        Ghost(p): Ghost<spec_fn(Seq<int>, V) -> bool>,
    )
        requires
            old(self).wf(),
            forall|k: &K, v: &V| keep.requires((k, v)),
            forall|k: &K, v: &V, b: bool| keep.ensures((k, v), b) ==> b == p(k.rank(), *v),
        ensures
            final(self).wf(),
            final(self)@ == kept(old(self)@, p),
            final(self).entries@.len() <= old(self).entries@.len(),
    {
        let ghost all = self.entries@;
        let ghost m = self@;
        let mut i: usize = 0;
        while i < self.entries.len()
            invariant
                self.wf(),
                i <= self.entries@.len(),
                self.entries@.len() <= all.len(),
                forall|k: &K, v: &V| keep.requires((k, v)),
                forall|k: &K, v: &V, b: bool| keep.ensures((k, v), b) ==> b == p(k.rank(), *v),
                forall|j: int|
                    0 <= j < i ==> p(
                        (#[trigger] self.entries@[j]).0.rank(),
                        self.entries@[j].1,
                    ),
                kept(self@, p) == kept(m, p),
            decreases self.entries.len() - i,
        {
            let stays = keep(&self.entries[i].0, &self.entries[i].1);
            if stays {
                i += 1;
            } else {
                let ghost before = self@;
                let ghost gone = self.entries@[i as int].0.rank();
                proof {
                    map_of_at(self.entries@, i as int);
                }
                let ghost was = self.entries@;
                self.remove_at(i);
                proof {
                    assert(kept(self@, p) =~= kept(before, p));
                    assert forall|j: int| 0 <= j < i implies p(
                        (#[trigger] self.entries@[j]).0.rank(),
                        self.entries@[j].1,
                    ) by {
                        assert(self.entries@[j] == was[j]);
                    }
                }
            }
        }
        proof {
            assert forall|r: Seq<int>| self@.dom().contains(r) implies p(r, self@[r]) by {
                let j = choose|j: int| holds_at(self.entries@, r, j);
                map_of_at(self.entries@, j);
            }
            assert(kept(self@, p) =~= self@);
        }
    }

    /// Takes over all entries of another table; where both have a key, those of the other.
    pub fn extend(&mut self, other: Table<K, V>)
        requires
            old(self).wf(),
            other.wf(),
        ensures
            final(self).wf(),
            final(self)@ == old(self)@.union_prefer_right(other@),
    {
        let mut other = other;
        let ghost mine = self@;
        let ghost theirs = other@;
        assert(self@.union_prefer_right(other@) =~= mine.union_prefer_right(theirs));
        while other.entries.len() > 0
            invariant
                self.wf(),
                other.wf(),
                self@.union_prefer_right(other@) == mine.union_prefer_right(theirs),
            decreases other.entries.len(),
        {
            let last: usize = other.entries.len() - 1;
            proof {
                map_of_at(other.entries@, last as int);
            }
            let ghost a = self@;
            let ghost b = other@;
            let (k, v) = other.remove_at(last);
            self.insert(k, v);
            assert(self@.union_prefer_right(other@) =~= a.union_prefer_right(b));
        }
        assert(other@ =~= Map::<Seq<int>, V>::empty());
        assert(self@.union_prefer_right(other@) =~= self@);
    }

    /// Takes over those entries of another table whose keys it does not have.
    pub fn fill(&mut self, other: Table<K, V>)
        requires
            old(self).wf(),
            other.wf(),
        ensures
            final(self).wf(),
            final(self)@ == other@.union_prefer_right(old(self)@),
    {
        let mut other = other;
        let ghost mine = self@;
        let ghost theirs = other@;
        while other.entries.len() > 0
            invariant
                self.wf(),
                other.wf(),
                other@.union_prefer_right(self@) == theirs.union_prefer_right(mine),
            decreases other.entries.len(),
        {
            let last: usize = other.entries.len() - 1;
            proof {
                map_of_at(other.entries@, last as int);
            }
            let ghost a = self@;
            let ghost b = other@;
            let (k, v) = other.remove_at(last);
            if !self.contains(&k) {
                self.insert(k, v);
            }
            assert(other@.union_prefer_right(self@) =~= b.union_prefer_right(a));
        }
        assert(other@.union_prefer_right(self@) =~= self@);
    }

    /// Whether some entry is accepted by `test`, which is to decide as `p` does.
    pub fn any<F: Fn(&K, &V) -> bool>(
        &self,
        test: F,
        Ghost(p): Ghost<spec_fn(Seq<int>, V) -> bool>,
    ) -> (r: bool)
        requires
            self.wf(),
            forall|k: &K, v: &V| test.requires((k, v)),
            forall|k: &K, v: &V, b: bool| test.ensures((k, v), b) ==> b == p(k.rank(), *v),
        ensures
            r <==> exists|k: Seq<int>| #[trigger] self@.dom().contains(k) && p(k, self@[k]),
    {
        let mut i: usize = 0;
        while i < self.entries.len()
            invariant
                self.wf(),
                i <= self.entries@.len(),
                forall|k: &K, v: &V| test.requires((k, v)),
                forall|k: &K, v: &V, b: bool| test.ensures((k, v), b) ==> b == p(k.rank(), *v),
                forall|j: int|
                    0 <= j < i ==> !p(
                        (#[trigger] self.entries@[j]).0.rank(),
                        self.entries@[j].1,
                    ),
            decreases self.entries.len() - i,
        {
            let found = test(&self.entries[i].0, &self.entries[i].1);
            if found {
                proof {
                    map_of_at(self.entries@, i as int);
                    let k = self.entries@[i as int].0.rank();
                    assert(self@.dom().contains(k) && p(k, self@[k]));
                }
                return true;
            }
            i += 1;
        }
        proof {
            assert forall|k: Seq<int>| #[trigger] self@.dom().contains(k) implies !p(
                k,
                self@[k],
            ) by {
                let j = choose|j: int| holds_at(self.entries@, k, j);
                map_of_at(self.entries@, j);
            }
        }
        false
    }
}

impl<K: Key, V> View for Table<K, V> {
    type V = Map<Seq<int>, V>;

    open spec fn view(&self) -> Map<Seq<int>, V> {
        map_of(self.entries@)
    }
}

} // verus!
