//! What holds of the adapters that a search finds, in terms of the directories that were searched.
use vstd::prelude::*;

use crate::adapter::registry::{
    adapter_fault, addition_fault, answers_for, first_clash, first_preset_fault, lists,
    nothing_found, preset_fault, search, searched, taken_text, with_claims, AdapterManifest,
    AdapterRegistration, AdapterRegistry, Candidate, Preset, SearchV,
};
use crate::order::{char_rank, char_rank_injective};

verus! {

/// The registration is what was found in the directory: what the adapter says of itself, the
/// program, the directory, and who named it.
pub open spec fn is_from(x: AdapterRegistration, c: Candidate) -> bool {
    &&& c.found matches Ok((m, program)) && x.manifest == m && x.executable == program
    &&& x.directory == c.directory
    &&& x.source == c.source
}

/// Every adapter stands under its name and was found in one of the directories.
pub open spec fn adapters_were_found(
    by_name: Map<Seq<int>, AdapterRegistration>,
    s: Seq<Candidate>,
) -> bool {
    forall|k: Seq<int>| #[trigger]
        by_name.dom().contains(k) ==> char_rank(by_name[k].manifest.name@) == k && exists|i: int|
            0 <= i < s.len() && is_from(by_name[k], #[trigger] s[i])
}

/// Every claim is one that the adapter of that name has made, and no other adapter makes it.
pub open spec fn claims_are_made(v: SearchV) -> bool {
    &&& forall|k: Seq<int>| #[trigger]
        v.kinds.dom().contains(k) ==> {
            let owner = char_rank(v.kinds[k]@);
            &&& v.by_name.dom().contains(owner)
            &&& claims_kind(v.by_name[owner].manifest, k)
            &&& forall|n: Seq<int>| #[trigger]
                v.by_name.dom().contains(n) && claims_kind(v.by_name[n].manifest, k) ==> n == owner
        }
    &&& forall|k: Seq<int>| #[trigger]
        v.controls.dom().contains(k) ==> {
            let owner = char_rank(v.controls[k]@);
            &&& v.by_name.dom().contains(owner)
            &&& claims_control(v.by_name[owner].manifest, k)
            &&& forall|n: Seq<int>| #[trigger]
                v.by_name.dom().contains(n) && claims_control(v.by_name[n].manifest, k) ==> n
                    == owner
        }
}

/// Some text has the rank.
pub open spec fn names(s: Seq<String>, k: Seq<int>) -> bool {
    exists|i: int| 0 <= i < s.len() && char_rank((#[trigger] s[i])@) == k
}

/// The adapter says that it is for the kind of that rank.
pub open spec fn claims_kind(m: AdapterManifest, k: Seq<int>) -> bool {
    names(m.kinds@, k)
}

/// The adapter says that it carries out orders for the kind of that rank.
pub open spec fn claims_control(m: AdapterManifest, k: Seq<int>) -> bool {
    names(m.controls@, k)
}

/// A kind without an owner that some adapter is for was claimed by several.
pub open spec fn orphans_are_split(v: SearchV) -> bool {
    &&& forall|n: Seq<int>, k: Seq<int>|
        #![trigger v.by_name.dom().contains(n), v.split_kinds.dom().contains(k)]
        v.by_name.dom().contains(n) && claims_kind(v.by_name[n].manifest, k)
            && !v.kinds.dom().contains(k) ==> v.split_kinds.dom().contains(k)
    &&& forall|n: Seq<int>, k: Seq<int>|
        #![trigger v.by_name.dom().contains(n), v.split_controls.dom().contains(k)]
        v.by_name.dom().contains(n) && claims_control(v.by_name[n].manifest, k)
            && !v.controls.dom().contains(k) ==> v.split_controls.dom().contains(k)
    &&& forall|k: Seq<int>| #[trigger]
        v.split_kinds.dom().contains(k) ==> !v.kinds.dom().contains(k)
    &&& forall|k: Seq<int>| #[trigger]
        v.split_controls.dom().contains(k) ==> !v.controls.dom().contains(k)
}

/// Nothing has been found and nothing has been claimed.
pub open spec fn is_fresh(v: SearchV) -> bool {
    &&& v.by_name.dom() == Set::<Seq<int>>::empty()
    &&& v.kinds.dom() == Set::<Seq<int>>::empty()
    &&& v.controls.dom() == Set::<Seq<int>>::empty()
    &&& v.split_kinds.dom() == Set::<Seq<int>>::empty()
    &&& v.split_controls.dom() == Set::<Seq<int>>::empty()
}

pub(crate) proof fn fresh_start(v: SearchV)
    requires
        v == (SearchV { errors: v.errors, ..nothing_found() }),
    ensures
        is_fresh(v),
{
    assert(v.by_name.dom() =~= Set::<Seq<int>>::empty());
    assert(v.kinds.dom() =~= Set::<Seq<int>>::empty());
    assert(v.controls.dom() =~= Set::<Seq<int>>::empty());
    assert(v.split_kinds.dom() =~= Set::<Seq<int>>::empty());
    assert(v.split_controls.dom() =~= Set::<Seq<int>>::empty());
}

/// An adapter was found there whose name and claims no other directory has.
pub open spec fn is_lone(s: Seq<Candidate>, i: int) -> bool {
    &&& 0 <= i < s.len()
    &&& s[i].found is Ok
    &&& forall|j: int|
        0 <= j < s.len() && j != i ==> ((#[trigger] s[j]).found matches Ok((n, _)) ==> !collide(
            s[i].found->Ok_0.0,
            n,
        ))
}

/// The adapter of a directory is registered as it was found, and answers for each of its kinds.
pub open spec fn is_registered(r: AdapterRegistry, c: Candidate) -> bool {
    c.found matches Ok((m, program)) && {
        let x = r.by_name@[char_rank(m.name@)];
        &&& r.by_name@.dom().contains(char_rank(m.name@))
        &&& x.manifest == m
        &&& x.executable == program
        &&& x.directory == c.directory
        &&& x.source == c.source
        &&& forall|n: int|
            0 <= n < m.kinds@.len() ==> answers_for(
                r.by_name@,
                r.kinds@,
                (#[trigger] m.kinds@[n])@,
            ) == Some(x)
        &&& forall|n: int|
            0 <= n < m.controls@.len() ==> answers_for(
                r.by_name@,
                r.controls@,
                (#[trigger] m.controls@[n])@,
            ) == Some(x)
    }
}

/// The first clash is a claim that another has, and none before it is.
proof fn clash_is_first(s: Seq<String>, claims: Map<Seq<int>, String>, i: int)
    requires
        0 <= i <= s.len(),
    ensures
        i <= first_clash(s, claims, i) <= s.len(),
        first_clash(s, claims, i) < s.len() ==> claims.dom().contains(
            char_rank(s[first_clash(s, claims, i)]@),
        ),
        forall|j: int|
            i <= j < first_clash(s, claims, i) ==> !claims.dom().contains(
                char_rank((#[trigger] s[j])@),
            ),
    decreases s.len() - i,
{
    if i < s.len() && !claims.dom().contains(char_rank(s[i]@)) {
        clash_is_first(s, claims, i + 1);
    }
}

/// The claims of one more adapter: its own, but for those that are split, and those of the others.
proof fn claims_added(
    claims: Map<Seq<int>, String>,
    split: Map<Seq<int>, ()>,
    s: Seq<String>,
    name: String,
)
    ensures
        forall|k: Seq<int>| #[trigger]
            with_claims(claims, split, s, name).dom().contains(k) <==> claims.dom().contains(k) || (
            !split.dom().contains(k) && names(s, k)),
        forall|k: Seq<int>| #[trigger]
            with_claims(claims, split, s, name).dom().contains(k) ==> with_claims(
                claims,
                split,
                s,
                name,
            )[k] == if !split.dom().contains(k) && names(s, k) {
                name
            } else {
                claims[k]
            },
    decreases s.len(),
{
    if s.len() > 0 {
        let front = s.drop_last();
        claims_added(claims, split, front, name);
        let all = with_claims(claims, split, s, name);
        let last = char_rank(s.last()@);
        assert forall|k: Seq<int>| #[trigger] names(s, k) <==> k == last || names(front, k) by {
            if names(s, k) {
                let i = choose|i: int| 0 <= i < s.len() && char_rank((#[trigger] s[i])@) == k;
                if i < front.len() {
                    assert(char_rank(front[i]@) == k);
                }
            }
            if k == last {
                assert(char_rank(s[s.len() - 1]@) == k);
            }
            if names(front, k) {
                let i = choose|i: int|
                    0 <= i < front.len() && char_rank((#[trigger] front[i])@) == k;
                assert(char_rank(s[i]@) == k);
            }
        }
        let before = with_claims(claims, split, front, name);
        assert forall|k: Seq<int>| #[trigger]
            all.dom().contains(k) <==> claims.dom().contains(k) || (!split.dom().contains(k)
                && names(s, k)) by {
            assert(before.dom().contains(k) <==> claims.dom().contains(k) || (
            !split.dom().contains(k) && names(front, k)));
        }
        assert forall|k: Seq<int>| #[trigger] all.dom().contains(k) implies all[k] == if !split.dom().contains(
            k,
        ) && names(s, k) {
            name
        } else {
            claims[k]
        } by {
            if k != last || split.dom().contains(last) {
                assert(before.dom().contains(k));
            }
        }
    } else {
        assert forall|k: Seq<int>| !(#[trigger] names(s, k)) by {}
    }
}

proof fn step_keeps_adapters(v: SearchV, s: Seq<Candidate>, c: Candidate)
    requires
        adapters_were_found(v.by_name, s),
    ensures
        adapters_were_found(searched(v, c).by_name, s.push(c)),
{
    let after = searched(v, c).by_name;
    let t = s.push(c);
    assert forall|k: Seq<int>| #[trigger] after.dom().contains(k) implies char_rank(
        after[k].manifest.name@,
    ) == k && exists|i: int| 0 <= i < t.len() && is_from(after[k], #[trigger] t[i]) by {
        if v.by_name.dom().contains(k) && after[k] == v.by_name[k] {
            let i = choose|i: int| 0 <= i < s.len() && is_from(v.by_name[k], #[trigger] s[i]);
            assert(t[i] == s[i]);
        } else {
            assert(is_from(after[k], t[s.len() as int]));
        }
    }
}

proof fn step_keeps_claims(v: SearchV, s: Seq<Candidate>, c: Candidate)
    requires
        adapters_were_found(v.by_name, s),
        claims_are_made(v),
        orphans_are_split(v),
    ensures
        claims_are_made(searched(v, c)),
        orphans_are_split(searched(v, c)),
{
    let w = searched(v, c);
    match c.found {
        Err(e) => {},
        Ok((m, program)) => {
            clash_is_first(m.kinds@, v.kinds, 0);
            clash_is_first(m.controls@, v.controls, 0);
            claims_added(v.kinds, v.split_kinds, m.kinds@, m.name);
            claims_added(v.controls, v.split_controls, m.controls@, m.name);
            let new = char_rank(m.name@);
            if !v.by_name.dom().contains(new) && first_clash(m.kinds@, v.kinds, 0) >= m.kinds@.len()
                && first_clash(m.controls@, v.controls, 0) >= m.controls@.len() {
                assert forall|k: Seq<int>| #[trigger] w.kinds.dom().contains(k) implies {
                    let owner = char_rank(w.kinds[k]@);
                    &&& w.by_name.dom().contains(owner)
                    &&& claims_kind(w.by_name[owner].manifest, k)
                    &&& forall|n: Seq<int>| #[trigger]
                        w.by_name.dom().contains(n) && claims_kind(w.by_name[n].manifest, k) ==> n
                            == owner
                } by {
                    let owner = char_rank(w.kinds[k]@);
                    if claims_kind(m, k) {
                        assert(!v.kinds.dom().contains(k));
                        assert(w.kinds[k] == m.name);
                        assert(claims_kind(w.by_name[new].manifest, k));
                    } else {
                        assert(v.kinds.dom().contains(k));
                        assert(w.kinds[k] == v.kinds[k]);
                        assert(owner != new);
                    }
                    assert forall|n: Seq<int>| #[trigger]
                        w.by_name.dom().contains(n) && claims_kind(
                            w.by_name[n].manifest,
                            k,
                        ) implies n == owner by {
                        if n != new {
                            assert(v.by_name.dom().contains(n));
                        }
                    }
                }
                assert forall|k: Seq<int>| #[trigger] w.controls.dom().contains(k) implies {
                    let owner = char_rank(w.controls[k]@);
                    &&& w.by_name.dom().contains(owner)
                    &&& claims_control(w.by_name[owner].manifest, k)
                    &&& forall|n: Seq<int>| #[trigger]
                        w.by_name.dom().contains(n) && claims_control(w.by_name[n].manifest, k)
                            ==> n == owner
                } by {
                    let owner = char_rank(w.controls[k]@);
                    if claims_control(m, k) {
                        assert(!v.controls.dom().contains(k));
                        assert(w.controls[k] == m.name);
                        assert(claims_control(w.by_name[new].manifest, k));
                    } else {
                        assert(v.controls.dom().contains(k));
                        assert(w.controls[k] == v.controls[k]);
                        assert(owner != new);
                    }
                    assert forall|n: Seq<int>| #[trigger]
                        w.by_name.dom().contains(n) && claims_control(
                            w.by_name[n].manifest,
                            k,
                        ) implies n == owner by {
                        if n != new {
                            assert(v.by_name.dom().contains(n));
                        }
                    }
                }
            }
        },
    }
}

pub(crate) proof fn search_keeps(start: SearchV, s: Seq<Candidate>)
    requires
        is_fresh(start),
    ensures
        adapters_were_found(search(start, s).by_name, s),
        claims_are_made(search(start, s)),
        orphans_are_split(search(start, s)),
    decreases s.len(),
{
    if s.len() > 0 {
        let front = s.drop_last();
        search_keeps(start, front);
        let v = search(start, front);
        step_keeps_adapters(v, front, s.last());
        assert(front.push(s.last()) =~= s);
        step_keeps_claims(v, front, s.last());
    }
}

/// Every adapter that a search finds was found in one of the directories: what it says of itself,
/// its program, its directory and who named the directory are those of one and the same candidate.
pub proof fn adapters_come_from_candidates(start: SearchV, s: Seq<Candidate>, k: Seq<int>)
    requires
        is_fresh(start),
        search(start, s).by_name.dom().contains(k),
    ensures
        char_rank(search(start, s).by_name[k].manifest.name@) == k,
        exists|i: int|
            0 <= i < s.len() && {
                let x = search(start, s).by_name[k];
                &&& (#[trigger] s[i]).found matches Ok((m, program)) && x.manifest == m
                    && x.executable == program
                &&& x.directory == s[i].directory
                &&& x.source == s[i].source
            },
{
    search_keeps(start, s);
    let x = search(start, s).by_name[k];
    let i = choose|i: int| 0 <= i < s.len() && is_from(x, #[trigger] s[i]);
    assert(is_from(x, s[i]));
}

/// Whoever answers for a kind says so itself, was found in one of the directories, and is the only
/// adapter here that says so. The same holds of whoever carries out orders for a kind.
pub proof fn answers_come_from_candidates(start: SearchV, s: Seq<Candidate>, kind: Seq<char>)
    requires
        is_fresh(start),
    ensures
        ({
            let v = search(start, s);
            &&& answers_for(v.by_name, v.kinds, kind) matches Some(x) ==> {
                &&& lists(x.manifest.kinds@, kind)
                &&& exists|i: int| 0 <= i < s.len() && is_from(x, #[trigger] s[i])
                &&& forall|n: Seq<int>| #[trigger]
                    v.by_name.dom().contains(n) && lists(v.by_name[n].manifest.kinds@, kind)
                        ==> v.by_name[n] == x
            }
            &&& answers_for(v.by_name, v.controls, kind) matches Some(x) ==> {
                &&& lists(x.manifest.controls@, kind)
                &&& exists|i: int| 0 <= i < s.len() && is_from(x, #[trigger] s[i])
                &&& forall|n: Seq<int>| #[trigger]
                    v.by_name.dom().contains(n) && lists(v.by_name[n].manifest.controls@, kind)
                        ==> v.by_name[n] == x
            }
        }),
{
    search_keeps(start, s);
    let v = search(start, s);
    let k = char_rank(kind);
    assert forall|t: Seq<String>| #[trigger] lists(t, kind) <==> names(t, k) by {
        if lists(t, kind) {
            let i = choose|i: int| 0 <= i < t.len() && (#[trigger] t[i])@ == kind;
            assert(char_rank(t[i]@) == k);
        }
        if names(t, k) {
            let i = choose|i: int| 0 <= i < t.len() && char_rank((#[trigger] t[i])@) == k;
            char_rank_injective(t[i]@, kind);
            assert(t[i]@ == kind);
        }
    }
    assert forall|m: AdapterManifest| #[trigger] lists(m.kinds@, kind) <==> claims_kind(m, k) by {}
    assert forall|m: AdapterManifest| #[trigger] lists(m.controls@, kind) <==> claims_control(
        m,
        k,
    ) by {}
}

/// Two adapters share a name or a claim.
pub open spec fn collide(a: AdapterManifest, b: AdapterManifest) -> bool {
    ||| a.name@ == b.name@
    ||| exists|i: int, j: int|
        0 <= i < a.kinds@.len() && 0 <= j < b.kinds@.len() && (#[trigger] a.kinds@[i])@
            == (#[trigger] b.kinds@[j])@
    ||| exists|i: int, j: int|
        0 <= i < a.controls@.len() && 0 <= j < b.controls@.len() && (#[trigger] a.controls@[i])@
            == (#[trigger] b.controls@[j])@
}

/// Nothing in the state is in the way of an adapter: neither its name nor a claim of it was seen.
spec fn is_free(v: SearchV, m: AdapterManifest) -> bool {
    &&& !v.by_name.dom().contains(char_rank(m.name@))
    &&& forall|i: int|
        0 <= i < m.kinds@.len() ==> !v.kinds.dom().contains(char_rank((#[trigger] m.kinds@[i])@))
            && !v.split_kinds.dom().contains(char_rank(m.kinds@[i]@))
    &&& forall|i: int|
        0 <= i < m.controls@.len() ==> !v.controls.dom().contains(
            char_rank((#[trigger] m.controls@[i])@),
        ) && !v.split_controls.dom().contains(char_rank(m.controls@[i]@))
}

/// The adapter is registered as it was found, and answers for all that it claims.
pub open spec fn is_in_service(v: SearchV, c: Candidate) -> bool {
    c.found matches Ok((m, program)) && {
        &&& v.by_name.dom().contains(char_rank(m.name@))
        &&& v.by_name[char_rank(m.name@)] == (AdapterRegistration {
            manifest: m,
            directory: c.directory,
            executable: program,
            source: c.source,
        })
        &&& forall|i: int|
            0 <= i < m.kinds@.len() ==> v.kinds.dom().contains(char_rank((#[trigger] m.kinds@[i])@))
                && v.kinds[char_rank(m.kinds@[i]@)] == m.name
        &&& forall|i: int|
            0 <= i < m.controls@.len() ==> v.controls.dom().contains(
                char_rank((#[trigger] m.controls@[i])@),
            ) && v.controls[char_rank(m.controls@[i]@)] == m.name
    }
}

proof fn strangers_leave_free(v: SearchV, m: AdapterManifest, c: Candidate)
    requires
        is_free(v, m),
        c.found matches Ok((n, _)) ==> !collide(m, n),
    ensures
        is_free(searched(v, c), m),
{
    match c.found {
        Err(e) => {},
        Ok((n, program)) => {
            clash_is_first(n.kinds@, v.kinds, 0);
            clash_is_first(n.controls@, v.controls, 0);
            claims_added(v.kinds, v.split_kinds, n.kinds@, n.name);
            claims_added(v.controls, v.split_controls, n.controls@, n.name);
            char_rank_injective(m.name@, n.name@);
            assert forall|i: int, j: int|
                0 <= i < m.kinds@.len() && 0 <= j < n.kinds@.len() implies char_rank(
                (#[trigger] m.kinds@[i])@,
            ) != char_rank((#[trigger] n.kinds@[j])@) by {
                char_rank_injective(m.kinds@[i]@, n.kinds@[j]@);
            }
            assert forall|i: int, j: int|
                0 <= i < m.controls@.len() && 0 <= j < n.controls@.len() implies char_rank(
                (#[trigger] m.controls@[i])@,
            ) != char_rank((#[trigger] n.controls@[j])@) by {
                char_rank_injective(m.controls@[i]@, n.controls@[j]@);
            }
        },
    }
}

proof fn strangers_leave_in_service(v: SearchV, own: Candidate, c: Candidate)
    requires
        is_in_service(v, own),
        own.found matches Ok((m, _)) && (c.found matches Ok((n, _)) ==> !collide(m, n)),
    ensures
        is_in_service(searched(v, c), own),
{
    let m = own.found->Ok_0.0;
    let w = searched(v, c);
    match c.found {
        Err(e) => {
            assert(w.by_name == v.by_name && w.kinds == v.kinds && w.controls == v.controls);
            assert(is_in_service(w, own));
        },
        Ok((n, program)) => {
            clash_is_first(n.kinds@, v.kinds, 0);
            clash_is_first(n.controls@, v.controls, 0);
            claims_added(v.kinds, v.split_kinds, n.kinds@, n.name);
            claims_added(v.controls, v.split_controls, n.controls@, n.name);
            char_rank_injective(m.name@, n.name@);
            assert forall|i: int, j: int|
                0 <= i < m.kinds@.len() && 0 <= j < n.kinds@.len() implies char_rank(
                (#[trigger] m.kinds@[i])@,
            ) != char_rank((#[trigger] n.kinds@[j])@) by {
                char_rank_injective(m.kinds@[i]@, n.kinds@[j]@);
            }
            assert forall|i: int, j: int|
                0 <= i < m.controls@.len() && 0 <= j < n.controls@.len() implies char_rank(
                (#[trigger] m.controls@[i])@,
            ) != char_rank((#[trigger] n.controls@[j])@) by {
                char_rank_injective(m.controls@[i]@, n.controls@[j]@);
            }
            assert forall|i: int| 0 <= i < m.kinds@.len() implies w.kinds.dom().contains(
                char_rank((#[trigger] m.kinds@[i])@),
            ) && w.kinds[char_rank(m.kinds@[i]@)] == m.name by {
                assert(!names(n.kinds@, char_rank(m.kinds@[i]@)));
            }
            assert forall|i: int| 0 <= i < m.controls@.len() implies w.controls.dom().contains(
                char_rank((#[trigger] m.controls@[i])@),
            ) && w.controls[char_rank(m.controls@[i]@)] == m.name by {
                assert(!names(n.controls@, char_rank(m.controls@[i]@)));
            }
            assert(w.by_name.dom().contains(char_rank(m.name@)));
            assert(w.by_name[char_rank(m.name@)] == v.by_name[char_rank(m.name@)]);
        },
    }
}

proof fn free_until(start: SearchV, s: Seq<Candidate>, m: AdapterManifest)
    requires
        is_fresh(start),
        forall|j: int|
            0 <= j < s.len() ==> ((#[trigger] s[j]).found matches Ok((n, _)) ==> !collide(m, n)),
    ensures
        is_free(search(start, s), m),
    decreases s.len(),
{
    if s.len() > 0 {
        let front = s.drop_last();
        assert forall|j: int| 0 <= j < front.len() implies ((#[trigger] front[j]).found matches Ok((
            n,
            _,
        )) ==> !collide(m, n)) by {
            assert(front[j] == s[j]);
        }
        free_until(start, front, m);
        assert(s[s.len() - 1] == s.last());
        strangers_leave_free(search(start, front), m, s.last());
    }
}

/// An adapter whose name and claims no other has is found, with its program and its directory, and
/// answers for each of its kinds, whatever else is found before or after it.
pub proof fn lone_adapter_is_in_service(start: SearchV, s: Seq<Candidate>, i: int)
    requires
        is_fresh(start),
        is_lone(s, i),
    ensures
        ({
            let v = search(start, s);
            let (m, program) = s[i].found->Ok_0;
            let x = v.by_name[char_rank(m.name@)];
            &&& v.by_name.dom().contains(char_rank(m.name@))
            &&& x.manifest == m
            &&& x.executable == program
            &&& x.directory == s[i].directory
            &&& x.source == s[i].source
            &&& forall|n: int|
                0 <= n < m.kinds@.len() ==> answers_for(
                    v.by_name,
                    v.kinds,
                    (#[trigger] m.kinds@[n])@,
                ) == Some(x)
            &&& forall|n: int|
                0 <= n < m.controls@.len() ==> answers_for(
                    v.by_name,
                    v.controls,
                    (#[trigger] m.controls@[n])@,
                ) == Some(x)
        }),
        is_in_service(search(start, s), s[i]),
    decreases s.len(),
{
    let front = s.drop_last();
    let m = s[i].found->Ok_0.0;
    if i == s.len() - 1 {
        assert forall|j: int| 0 <= j < front.len() implies ((#[trigger] front[j]).found matches Ok((
            n,
            _,
        )) ==> !collide(m, n)) by {
            assert(front[j] == s[j]);
        }
        free_until(start, front, m);
        let v = search(start, front);
        clash_is_first(m.kinds@, v.kinds, 0);
        clash_is_first(m.controls@, v.controls, 0);
        claims_added(v.kinds, v.split_kinds, m.kinds@, m.name);
        claims_added(v.controls, v.split_controls, m.controls@, m.name);
        let w = searched(v, s[i]);
        let (a, b) = (first_clash(m.kinds@, v.kinds, 0), first_clash(m.controls@, v.controls, 0));
        if a < m.kinds@.len() {
            assert(!v.kinds.dom().contains(char_rank(m.kinds@[a]@)));
        }
        if b < m.controls@.len() {
            assert(!v.controls.dom().contains(char_rank(m.controls@[b]@)));
        }
        assert(w.kinds == with_claims(v.kinds, v.split_kinds, m.kinds@, m.name));
        assert(w.controls == with_claims(v.controls, v.split_controls, m.controls@, m.name));
        assert forall|n: int| 0 <= n < m.kinds@.len() implies w.kinds.dom().contains(
            char_rank((#[trigger] m.kinds@[n])@),
        ) && w.kinds[char_rank(m.kinds@[n]@)] == m.name by {
            assert(names(m.kinds@, char_rank(m.kinds@[n]@)));
        }
        assert forall|n: int| 0 <= n < m.controls@.len() implies w.controls.dom().contains(
            char_rank((#[trigger] m.controls@[n])@),
        ) && w.controls[char_rank(m.controls@[n]@)] == m.name by {
            assert(names(m.controls@, char_rank(m.controls@[n]@)));
        }
        assert(is_in_service(w, s[i]));
    } else {
        assert(front[i] == s[i]);
        assert forall|j: int| 0 <= j < front.len() && j != i implies ((
        #[trigger] front[j]).found matches Ok((n, _)) ==> !collide(front[i].found->Ok_0.0, n)) by {
            assert(front[j] == s[j]);
        }
        lone_adapter_is_in_service(start, front, i);
        assert(s[s.len() - 1] == s.last());
        strangers_leave_in_service(search(start, front), s[i], s.last());
    }
}

/// Each directory yields an adapter or a word about why it does not.
pub proof fn nothing_is_passed_over(start: SearchV, s: Seq<Candidate>)
    requires
        is_fresh(start),
    ensures
        search(start, s).by_name.dom().finite(),
        search(start, s).by_name.dom().len() + search(start, s).errors.len() == s.len()
            + start.errors.len(),
        start.errors.len() <= search(start, s).errors.len(),
        search(start, s).errors.take(start.errors.len() as int) == start.errors,
    decreases s.len(),
{
    if s.len() > 0 {
        nothing_is_passed_over(start, s.drop_last());
        let v = search(start, s.drop_last());
        let w = search(start, s);
        let n = start.errors.len() as int;
        assert(w.errors.take(n) =~= v.errors.take(n));
    } else {
        assert(start.errors.take(start.errors.len() as int) =~= start.errors);
    }
}

/// A directory in which no adapter was found is reported, by its path and the reason.
pub proof fn failures_are_reported(start: SearchV, s: Seq<Candidate>, i: int)
    requires
        0 <= i < s.len(),
        s[i].found is Err,
    ensures
        search(start, s).errors.contains(s[i].directory@ + ": "@ + (s[i].found->Err_0)@),
    decreases s.len(),
{
    let front = s.drop_last();
    let v = search(start, front);
    let w = search(start, s);
    let words = s[i].directory@ + ": "@ + (s[i].found->Err_0)@;
    if i < front.len() {
        assert(front[i] == s[i]);
        failures_are_reported(start, front, i);
        let k = choose|k: int| 0 <= k < v.errors.len() && v.errors[k] == words;
        assert(w.errors[k] == words);
    } else {
        assert(w.errors[v.errors.len() as int] == words);
    }
}

/// An adapter that claims what another has is left out, and the first such claim is lost to both.
/// Everything else stays as it was.
pub proof fn clash_costs_the_claim(v: SearchV, c: Candidate, i: int)
    requires
        c.found is Ok,
        !v.by_name.dom().contains(char_rank(c.found->Ok_0.0.name@)),
        0 <= i < c.found->Ok_0.0.kinds@.len(),
        v.kinds.dom().contains(char_rank(c.found->Ok_0.0.kinds@[i]@)),
        forall|j: int|
            0 <= j < i ==> !v.kinds.dom().contains(
                char_rank((#[trigger] c.found->Ok_0.0.kinds@[j])@),
            ),
    ensures
        ({
            let k = char_rank(c.found->Ok_0.0.kinds@[i]@);
            let w = searched(v, c);
            &&& w.by_name == v.by_name
            &&& w.controls == v.controls
            &&& w.kinds == v.kinds.remove(k)
            &&& w.errors.len() == v.errors.len() + 1
        }),
{
    let m = c.found->Ok_0.0;
    clash_is_first(m.kinds@, v.kinds, 0);
}

proof fn splits_stay(start: SearchV, s: Seq<Candidate>, more: Seq<Candidate>, k: Seq<int>)
    requires
        is_fresh(start),
    ensures
        search(start, s).split_kinds.dom().contains(k) ==> search(
            start,
            s + more,
        ).split_kinds.dom().contains(k),
        search(start, s).split_controls.dom().contains(k) ==> search(
            start,
            s + more,
        ).split_controls.dom().contains(k),
    decreases more.len(),
{
    if more.len() == 0 {
        assert(s + more =~= s);
    } else {
        splits_stay(start, s, more.drop_last(), k);
        assert((s + more).drop_last() =~= s + more.drop_last());
    }
}

/// A kind that an adapter is for, but that it has lost to a rival claim, is nobody's for good:
/// adapters that are found later do not get it.
pub proof fn lost_claims_stay_lost(
    start: SearchV,
    s: Seq<Candidate>,
    more: Seq<Candidate>,
    n: Seq<int>,
    kind: Seq<char>,
)
    requires
        is_fresh(start),
        search(start, s).by_name.dom().contains(n),
    ensures
        lists(search(start, s).by_name[n].manifest.kinds@, kind) && !search(
            start,
            s,
        ).kinds.dom().contains(char_rank(kind)) ==> !search(start, s + more).kinds.dom().contains(
            char_rank(kind),
        ),
        lists(search(start, s).by_name[n].manifest.controls@, kind) && !search(
            start,
            s,
        ).controls.dom().contains(char_rank(kind)) ==> !search(
            start,
            s + more,
        ).controls.dom().contains(char_rank(kind)),
{
    let v = search(start, s);
    let m = v.by_name[n].manifest;
    let k = char_rank(kind);
    search_keeps(start, s);
    search_keeps(start, s + more);
    splits_stay(start, s, more, k);
    if lists(m.kinds@, kind) {
        let i = choose|i: int| 0 <= i < m.kinds@.len() && (#[trigger] m.kinds@[i])@ == kind;
        assert(char_rank(m.kinds@[i]@) == k);
        assert(claims_kind(m, k));
    }
    if lists(m.controls@, kind) {
        let i = choose|i: int| 0 <= i < m.controls@.len() && (#[trigger] m.controls@[i])@ == kind;
        assert(char_rank(m.controls@[i]@) == k);
        assert(claims_control(m, k));
    }
}

/// A claim is taken, from a place on, exactly where an adapter answers for one of the kinds.
pub proof fn claims_are_taken(
    what: Seq<char>,
    by_name: Map<Seq<int>, AdapterRegistration>,
    claims: Map<Seq<int>, String>,
    s: Seq<String>,
    name: Seq<char>,
    i: int,
)
    requires
        0 <= i,
    ensures
        taken_text(what, by_name, claims, s, name, i) is None <==> forall|j: int|
            i <= j < s.len() ==> answers_for(by_name, claims, (#[trigger] s[j])@) is None,
    decreases s.len() - i,
{
    if i < s.len() {
        claims_are_taken(what, by_name, claims, s, name, i + 1);
        if taken_text(what, by_name, claims, s, name, i) is None {
            assert forall|j: int| i <= j < s.len() implies answers_for(
                by_name,
                claims,
                (#[trigger] s[j])@,
            ) is None by {
                if j == i {
                    assert(answers_for(by_name, claims, s[i]@) is None);
                }
            }
        } else if forall|j: int|
            i <= j < s.len() ==> answers_for(by_name, claims, (#[trigger] s[j])@) is None {
            assert(answers_for(by_name, claims, s[i]@) is None);
        }
    }
}

/// An adapter can be added exactly where no other has its name, and nobody answers for one of its
/// kinds or carries out orders for one that it would.
pub proof fn additions_do_not_clash(
    by_name: Map<Seq<int>, AdapterRegistration>,
    kinds: Map<Seq<int>, String>,
    controls: Map<Seq<int>, String>,
    m: AdapterManifest,
)
    ensures
        addition_fault(by_name, kinds, controls, m) is None <==> {
            &&& !by_name.dom().contains(char_rank(m.name@))
            &&& forall|j: int|
                0 <= j < m.kinds@.len() ==> answers_for(by_name, kinds, (#[trigger] m.kinds@[j])@)
                    is None
            &&& forall|j: int|
                0 <= j < m.controls@.len() ==> answers_for(
                    by_name,
                    controls,
                    (#[trigger] m.controls@[j])@,
                ) is None
        },
{
    claims_are_taken("duplicate adapter kind claim "@, by_name, kinds, m.kinds@, m.name@, 0);
    claims_are_taken("duplicate adapter control claim "@, by_name, controls, m.controls@, m.name@, 0);
}

proof fn presets_checked(s: Seq<Preset>, i: int)
    requires
        0 <= i,
    ensures
        first_preset_fault(s, i) is None <==> forall|j: int|
            i <= j < s.len() ==> preset_fault(#[trigger] s[j]) is None,
    decreases s.len() - i,
{
    if i < s.len() {
        presets_checked(s, i + 1);
        if first_preset_fault(s, i) is None {
            assert forall|j: int| i <= j < s.len() implies preset_fault(#[trigger] s[j]) is None by {
                if j == i {
                    assert(preset_fault(s[i]) is None);
                }
            }
        } else if forall|j: int| i <= j < s.len() ==> preset_fault(#[trigger] s[j]) is None {
            assert(preset_fault(s[i]) is None);
        }
    }
}

/// What an adapter says of itself is taken where it speaks this protocol and is for some kind. Of the
/// choices that it offers there are at most sixteen for each end, with labels of 1 to 80 bytes,
/// descriptions of up to 240, and texts or objects as values.
pub proof fn adapters_are_checked(m: AdapterManifest, path: Seq<char>)
    ensures
        adapter_fault(m, path) is None <==> {
            &&& m.spec@ == "abra-adapter/1"@
            &&& m.kinds@.len() > 0
            &&& m.presets matches Some(p) ==> {
                &&& p.source@.len() <= 16
                &&& p.destination@.len() <= 16
                &&& forall|i: int| 0 <= i < p.source@.len() ==> can_be_offered(#[trigger] p.source@[i])
                &&& forall|i: int|
                    0 <= i < p.destination@.len() ==> can_be_offered(#[trigger] p.destination@[i])
            }
        },
{
    assert forall|p: Preset| #[trigger] preset_fault(p) is None <==> can_be_offered(p) by {}
    if let Some(p) = m.presets {
        presets_checked(p.source@, 0);
        presets_checked(p.destination@, 0);
    }
}

/// A choice that can be offered.
pub open spec fn can_be_offered(p: Preset) -> bool {
    &&& 1 <= vstd::utf8::encode_utf8(p.label@).len() <= 80
    &&& p.description matches Some(d) ==> vstd::utf8::encode_utf8(d@).len() <= 240
    &&& p.value is Str || p.value is Obj
}

} // verus!
