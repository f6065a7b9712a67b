//! The adapters of a device: what each claims, and which one answers for a kind.
use vstd::prelude::*;
use vstd::utf8::encode_utf8;

use crate::adapter::discovery::{
    adapters_were_found, fresh_start, is_lone, is_registered, lone_adapter_is_in_service,
    search_keeps,
};
use crate::adapter::fault::{Fault, FaultV};
use crate::adapter::path::{is_same_place, path_before, path_rank, same_place};
use crate::json::Json;
use crate::order::{char_rank, lex_asymmetric, lex_before, lex_total, lex_transitive};
use crate::table::Table;
use crate::text::{concat, concat3, push_text, same_text};

verus! {

/// A choice that a user interface can offer.
#[derive(Debug, PartialEq, Eq)]
pub struct Preset {
    pub label: String,
    pub value: Json,
    pub description: Option<String>,
}

/// The choices for where state comes from and goes to.
#[derive(Debug, PartialEq, Eq)]
pub struct Presets {
    pub source: Vec<Preset>,
    pub destination: Vec<Preset>,
}

/// What an adapter says of itself.
#[derive(Debug, PartialEq, Eq)]
pub struct AdapterManifest {
    pub spec: String,
    pub name: String,
    pub version: String,
    pub kinds: Vec<String>,
    pub verbs: Vec<String>,
    /// The kinds of capsules whose orders the adapter carries out.
    pub controls: Vec<String>,
    pub executable: Option<String>,
    pub presets: Option<Presets>,
}

/// Where a registration came from.
#[derive(Clone, Copy, Debug, PartialEq, Eq, Structural)]
pub enum Source {
    Root,
    Registry,
    Flag,
    Env,
}

/// How a source is written.
pub open spec fn source_text(s: Source) -> Seq<char> {
    match s {
        Source::Root => "root"@,
        Source::Registry => "registry"@,
        Source::Flag => "flag"@,
        Source::Env => "env"@,
    }
}

impl Source {
    /// How the source is written.
    pub fn as_str(self) -> (r: &'static str)
        ensures
            r@ == source_text(self),
    {
        match self {
            Source::Root => "root",
            Source::Registry => "registry",
            Source::Flag => "flag",
            Source::Env => "env",
        }
    }
}

/// A directory that is searched for adapters in one process only.
#[derive(Debug, PartialEq, Eq)]
pub struct ExtraAdapterDir {
    pub path: String,
    pub source: Source,
}

impl ExtraAdapterDir {
    /// One that was given on the command line.
    pub fn flag(path: String) -> (r: Self)
        ensures
            r.path == path,
            r.source is Flag,
    {
        ExtraAdapterDir { path, source: Source::Flag }
    }

    /// One that was given in the environment.
    pub fn env(path: String) -> (r: Self)
        ensures
            r.path == path,
            r.source is Env,
    {
        ExtraAdapterDir { path, source: Source::Env }
    }
}

/// An adapter that can be used.
#[derive(Debug, PartialEq, Eq)]
pub struct AdapterRegistration {
    pub manifest: AdapterManifest,
    pub directory: String,
    pub executable: String,
    pub source: Source,
}

/// The length of a text in bytes.
pub open spec fn size_of_text(s: Seq<char>) -> nat {
    encode_utf8(s).len()
}

/// What is wrong with a choice.
pub open spec fn preset_fault(p: Preset) -> Option<Seq<char>> {
    if size_of_text(p.label@) == 0 || size_of_text(p.label@) > 80 {
        Some("adapter preset label must have 1 to 80 characters"@)
    } else if p.description matches Some(d) && size_of_text(d@) > 240 {
        Some("adapter preset description exceeds 240 characters"@)
    } else if !(p.value is Str || p.value is Obj) {
        Some("adapter preset value must be a string or an object"@)
    } else {
        None
    }
}

/// The first fault among choices.
pub open spec fn first_preset_fault(s: Seq<Preset>, i: int) -> Option<Seq<char>>
    decreases s.len() - i,
{
    if i < 0 || i >= s.len() {
        None
    } else {
        match preset_fault(s[i]) {
            Some(words) => Some(words),
            None => first_preset_fault(s, i + 1),
        }
    }
}

/// What is wrong with a list of choices.
pub open spec fn list_fault(s: Seq<Preset>) -> Option<Seq<char>> {
    if s.len() > 16 {
        Some("adapter manifest lists more than 16 presets"@)
    } else {
        first_preset_fault(s, 0)
    }
}

/// What is wrong with the choices of an adapter.
pub open spec fn presets_fault(p: Presets) -> Option<Seq<char>> {
    match list_fault(p.source@) {
        Some(words) => Some(words),
        None => list_fault(p.destination@),
    }
}

/// The text, where there is one.
pub open spec fn words_of(v: Option<&'static str>) -> Option<Seq<char>> {
    match v {
        Some(s) => Some(s@),
        None => None,
    }
}

fn check_preset(p: &Preset) -> (r: Option<&'static str>)
    ensures
        words_of(r) == preset_fault(*p),
{
    let n = p.label.as_str().as_bytes().len();
    if n == 0 || n > 80 {
        return Some("adapter preset label must have 1 to 80 characters");
    }
    match &p.description {
        Some(d) => {
            if d.as_str().as_bytes().len() > 240 {
                return Some("adapter preset description exceeds 240 characters");
            }
        },
        None => {},
    }
    match &p.value {
        Json::Str(_) => None,
        Json::Obj(_) => None,
        _ => Some("adapter preset value must be a string or an object"),
    }
}

fn check_list(s: &Vec<Preset>) -> (r: Option<&'static str>)
    ensures
        words_of(r) == list_fault(s@),
{
    if s.len() > 16 {
        return Some("adapter manifest lists more than 16 presets");
    }
    let mut i: usize = 0;
    while i < s.len()
        invariant
            i <= s@.len(),
            first_preset_fault(s@, 0) == first_preset_fault(s@, i as int),
            s@.len() <= 16,
        decreases s.len() - i,
    {
        match check_preset(&s[i]) {
            Some(words) => {
                return Some(words);
            },
            None => {},
        }
        i += 1;
    }
    None
}

impl Presets {
    /// Checks that the choices can be offered.
    pub fn validate(&self) -> (r: Result<(), Fault>)
        ensures
            r is Ok <==> presets_fault(*self) is None,
            r matches Err(f) ==> f@ == FaultV::Text(presets_fault(*self)->0),
    {
        match check_list(&self.source) {
            Some(words) => {
                return Err(Fault::text(words));
            },
            None => {},
        }
        match check_list(&self.destination) {
            Some(words) => Err(Fault::text(words)),
            None => Ok(()),
        }
    }
}

/// What is wrong with what an adapter says of itself, in the file at `path`.
pub open spec fn adapter_fault(m: AdapterManifest, path: Seq<char>) -> Option<Seq<char>> {
    if m.spec@ != "abra-adapter/1"@ || m.kinds@.len() == 0 {
        Some("invalid adapter manifest "@ + path)
    } else {
        match m.presets {
            None => None,
            Some(p) => match presets_fault(p) {
                Some(words) => Some(path + ": "@ + words),
                None => None,
            },
        }
    }
}

/// Checks what an adapter says of itself.
pub fn check_manifest(m: &AdapterManifest, path: &str) -> (r: Result<(), Fault>)
    ensures
        r is Ok <==> adapter_fault(*m, path@) is None,
        r matches Err(f) ==> f@ == FaultV::Text(adapter_fault(*m, path@)->0),
{
    if !same_text(m.spec.as_str(), "abra-adapter/1") || m.kinds.len() == 0 {
        return Err(Fault::Text(concat("invalid adapter manifest ", path)));
    }
    match &m.presets {
        None => Ok(()),
        Some(p) => match p.validate() {
            Ok(()) => Ok(()),
            Err(f) => Err(Fault::Text(concat3(path, ": ", f.message().as_str()))),
        },
    }
}

/// The name of an adapter's program: the one it gives, or its own name.
pub fn executable_name(m: &AdapterManifest) -> (r: &str)
    ensures
        r@ == match m.executable {
            Some(x) => x@,
            None => m.name@,
        },
{
    match &m.executable {
        Some(x) => x.as_str(),
        None => m.name.as_str(),
    }
}

/// The list has the text.
pub open spec fn lists(s: Seq<String>, text: Seq<char>) -> bool {
    exists|i: int| 0 <= i < s.len() && (#[trigger] s[i])@ == text
}

fn has_text(s: &Vec<String>, text: &str) -> (r: bool)
    ensures
        r == lists(s@, text@),
{
    let mut i: usize = 0;
    while i < s.len()
        invariant
            i <= s@.len(),
            forall|j: int| 0 <= j < i ==> (#[trigger] s@[j])@ != text@,
        decreases s.len() - i,
    {
        if same_text(s[i].as_str(), text) {
            return true;
        }
        i += 1;
    }
    false
}

impl AdapterRegistration {
    /// Whether the adapter knows a verb.
    pub fn supports(&self, verb: &str) -> (r: bool)
        ensures
            r == lists(self.manifest.verbs@, verb@),
    {
        has_text(&self.manifest.verbs, verb)
    }

    /// Insists that the adapter knows a verb.
    pub fn require_verb(&self, verb: &str) -> (r: Result<(), Fault>)
        ensures
            r is Ok <==> lists(self.manifest.verbs@, verb@),
            r matches Err(f) ==> f@ == FaultV::Text(
                "adapter "@ + self.manifest.name@ + " does not support "@ + verb@,
            ),
    {
        if self.supports(verb) {
            Ok(())
        } else {
            let mut words = concat3("adapter ", self.manifest.name.as_str(), " does not support ");
            push_text(&mut words, verb);
            Err(Fault::Text(words))
        }
    }
}

/// A directory to search, and who named it first.
#[derive(Debug, PartialEq, Eq)]
pub struct DirectoryClaim {
    pub path: String,
    pub source: Source,
}

/// Some claim is for the directory.
pub open spec fn claimed(s: Seq<DirectoryClaim>, path: Seq<char>) -> bool {
    exists|i: int| 0 <= i < s.len() && same_place((#[trigger] s[i]).path@, path)
}

/// Claims a directory for a source, unless another has named it before.
pub fn claim_directory(claims: &mut Vec<DirectoryClaim>, path: String, source: Source)
    ensures
        final(claims)@ == if claimed(old(claims)@, path@) {
            old(claims)@
        } else {
            old(claims)@.push(DirectoryClaim { path, source })
        },
{
    let mut i: usize = 0;
    while i < claims.len()
        invariant
            i <= claims@.len(),
            claims@ == old(claims)@,
            forall|j: int| 0 <= j < i ==> !same_place((#[trigger] claims@[j]).path@, path@),
        decreases claims.len() - i,
    {
        if is_same_place(claims[i].path.as_str(), path.as_str()) {
            return;
        }
        i += 1;
    }
    claims.push(DirectoryClaim { path, source });
}

/// Claims in the order of their paths, with one more among them, behind those of the same path.
pub open spec fn claim_placed(s: Seq<DirectoryClaim>, x: DirectoryClaim) -> Seq<DirectoryClaim>
    decreases s.len(),
{
    if s.len() == 0 || !lex_before(path_rank(x.path@), path_rank(s.last().path@)) {
        s.push(x)
    } else {
        claim_placed(s.drop_last(), x).push(s.last())
    }
}

/// Claims in the order of their paths.
pub open spec fn claims_in_order(s: Seq<DirectoryClaim>) -> Seq<DirectoryClaim>
    decreases s.len(),
{
    if s.len() == 0 {
        s
    } else {
        claim_placed(claims_in_order(s.drop_last()), s.last())
    }
}

/// No claim stands behind one whose path is later.
pub open spec fn paths_ascend(s: Seq<DirectoryClaim>) -> bool {
    forall|i: int, j: int|
        0 <= i < j < s.len() ==> !lex_before(
            path_rank((#[trigger] s[j]).path@),
            path_rank((#[trigger] s[i]).path@),
        )
}

proof fn placing_ascends(s: Seq<DirectoryClaim>, x: DirectoryClaim)
    requires
        paths_ascend(s),
    ensures
        paths_ascend(claim_placed(s, x)),
        claim_placed(s, x).to_multiset() =~= s.to_multiset().insert(x),
        forall|i: int|
            0 <= i < claim_placed(s, x).len() ==> (#[trigger] claim_placed(s, x)[i]) == x
                || s.contains(claim_placed(s, x)[i]),
    decreases s.len(),
{
    broadcast use vstd::seq_lib::group_to_multiset_ensures;

    let t = claim_placed(s, x);
    let rx = path_rank(x.path@);
    if s.len() == 0 || !lex_before(rx, path_rank(s.last().path@)) {
        assert forall|i: int, j: int| 0 <= i < j < t.len() implies !lex_before(
            path_rank((#[trigger] t[j]).path@),
            path_rank((#[trigger] t[i]).path@),
        ) by {
            if j == s.len() && i < s.len() - 1 {
                let (last, early) = (path_rank(s.last().path@), path_rank(s[i].path@));
                assert(!lex_before(last, early));
                lex_total(last, early);
                lex_total(rx, last);
                if lex_before(rx, early) {
                    if early != last {
                        lex_transitive(rx, early, last);
                    }
                }
            }
        }
        assert forall|i: int| 0 <= i < t.len() implies (#[trigger] t[i]) == x || s.contains(t[i]) by {
            if i < s.len() {
                assert(s[i] == t[i]);
            }
        }
    } else {
        let front = s.drop_last();
        assert(paths_ascend(front)) by {
            assert forall|i: int, j: int| 0 <= i < j < front.len() implies !lex_before(
                path_rank((#[trigger] front[j]).path@),
                path_rank((#[trigger] front[i]).path@),
            ) by {
                assert(front[j] == s[j] && front[i] == s[i]);
            }
        }
        placing_ascends(front, x);
        let p = claim_placed(front, x);
        let last = path_rank(s.last().path@);
        assert(front.push(s.last()) =~= s);
        assert forall|i: int| 0 <= i < p.len() implies !lex_before(
            last,
            path_rank((#[trigger] p[i]).path@),
        ) by {
            if p[i] == x {
                lex_asymmetric(rx, last);
            } else {
                let k = choose|k: int| 0 <= k < front.len() && front[k] == p[i];
                assert(s[k] == p[i]);
                assert(s[s.len() - 1] == s.last());
            }
        }
        assert forall|i: int, j: int| 0 <= i < j < t.len() implies !lex_before(
            path_rank((#[trigger] t[j]).path@),
            path_rank((#[trigger] t[i]).path@),
        ) by {
            assert(t[i] == p[i]);
            if j < p.len() {
                assert(t[j] == p[j]);
            }
        }
        assert forall|i: int| 0 <= i < t.len() implies (#[trigger] t[i]) == x || s.contains(t[i]) by {
            if i < p.len() {
                assert(t[i] == p[i]);
                if p[i] != x {
                    let k = choose|k: int| 0 <= k < front.len() && front[k] == p[i];
                    assert(s[k] == p[i]);
                }
            } else {
                assert(s[s.len() - 1] == t[i]);
            }
        }
    }
}

/// Claims in the order of their paths are the same claims, and ascend.
pub proof fn ordered_claims_ascend(s: Seq<DirectoryClaim>)
    ensures
        paths_ascend(claims_in_order(s)),
        claims_in_order(s).to_multiset() == s.to_multiset(),
    decreases s.len(),
{
    broadcast use vstd::seq_lib::group_to_multiset_ensures;

    if s.len() > 0 {
        ordered_claims_ascend(s.drop_last());
        placing_ascends(claims_in_order(s.drop_last()), s.last());
        assert(s.drop_last().push(s.last()) =~= s);
    }
}

fn place_claim(out: &mut Vec<DirectoryClaim>, x: DirectoryClaim)
    ensures
        final(out)@ == claim_placed(old(out)@, x),
{
    let ghost s = out@;
    let mut i: usize = out.len();
    proof {
        assert(s.take(s.len() as int) =~= s);
        assert(claim_placed(s, x) =~= claim_placed(s.take(i as int), x) + s.skip(i as int));
    }
    while i > 0 && path_before(x.path.as_str(), out[i - 1].path.as_str())
        invariant
            i <= out@.len(),
            out@ == s,
            claim_placed(s, x) == claim_placed(s.take(i as int), x) + s.skip(i as int),
        decreases i,
    {
        proof {
            let a = s.take(i as int);
            assert(a.drop_last() =~= s.take(i - 1));
            assert(a.last() == s[i - 1]);
            assert(claim_placed(s.take(i - 1), x).push(s[i - 1]) + s.skip(i as int) =~= claim_placed(
                s.take(i - 1),
                x,
            ) + s.skip(i - 1));
        }
        i -= 1;
    }
    proof {
        let a = s.take(i as int);
        if i > 0 {
            assert(a.last() == s[i - 1]);
        }
        assert(s.insert(i as int, x) =~= a.push(x) + s.skip(i as int));
    }
    out.insert(i, x);
}

/// The claims in the order in which their directories are searched: by the parts of their paths.
pub fn order_claims(claims: Vec<DirectoryClaim>) -> (r: Vec<DirectoryClaim>)
    ensures
        r@ == claims_in_order(claims@),
        paths_ascend(r@),
        r@.to_multiset() == claims@.to_multiset(),
{
    let ghost all = claims@;
    let mut rest = claims;
    let mut out: Vec<DirectoryClaim> = Vec::new();
    let ghost mut n: int = 0;
    assert(all.skip(0) =~= all);
    assert(out@ =~= claims_in_order(all.take(0)));
    while rest.len() > 0
        invariant
            0 <= n <= all.len(),
            rest@ == all.skip(n),
            out@ == claims_in_order(all.take(n)),
        decreases rest.len(),
    {
        let claim = rest.remove(0);
        proof {
            assert(claim == all[n]);
            assert(rest@ =~= all.skip(n + 1));
            assert(all.take(n + 1).drop_last() =~= all.take(n));
            assert(all.take(n + 1).last() == claim);
            n = n + 1;
        }
        place_claim(&mut out, claim);
    }
    proof {
        assert(all.take(n) =~= all);
        ordered_claims_ascend(all);
    }
    out
}

/// A directory that was searched, and what was found in it: an adapter and its program, or the
/// reason why there is none.
#[derive(Debug, PartialEq, Eq)]
pub struct Candidate {
    pub directory: String,
    pub source: Source,
    pub found: Result<(AdapterManifest, String), String>,
}

/// The adapters of a device.
#[derive(Debug, PartialEq, Eq)]
pub struct AdapterRegistry {
    pub by_name: Table<String, AdapterRegistration>,
    /// The adapter that answers for a kind.
    pub kinds: Table<String, String>,
    /// The adapter that carries out orders for capsules of a kind.
    pub controls: Table<String, String>,
    pub errors: Vec<String>,
}

/// The state of a search.
pub struct SearchV {
    pub by_name: Map<Seq<int>, AdapterRegistration>,
    pub kinds: Map<Seq<int>, String>,
    pub controls: Map<Seq<int>, String>,
    pub split_kinds: Map<Seq<int>, ()>,
    pub split_controls: Map<Seq<int>, ()>,
    pub errors: Seq<Seq<char>>,
}

/// A search that has found nothing yet.
pub open spec fn nothing_found() -> SearchV {
    SearchV {
        by_name: Map::empty(),
        kinds: Map::empty(),
        controls: Map::empty(),
        split_kinds: Map::empty(),
        split_controls: Map::empty(),
        errors: Seq::empty(),
    }
}

/// The first of some kinds that another adapter has claimed, from `i` on.
pub open spec fn first_clash(s: Seq<String>, claims: Map<Seq<int>, String>, i: int) -> int
    decreases s.len() - i,
{
    if i < 0 || i >= s.len() {
        s.len() as int
    } else if claims.dom().contains(char_rank(s[i]@)) {
        i
    } else {
        first_clash(s, claims, i + 1)
    }
}

/// The claims with those of one more adapter, but for kinds that several have claimed.
pub open spec fn with_claims(
    claims: Map<Seq<int>, String>,
    split: Map<Seq<int>, ()>,
    s: Seq<String>,
    name: String,
) -> Map<Seq<int>, String>
    decreases s.len(),
{
    if s.len() == 0 {
        claims
    } else {
        let before = with_claims(claims, split, s.drop_last(), name);
        let k = char_rank(s.last()@);
        if split.dom().contains(k) {
            before
        } else {
            before.insert(k, name)
        }
    }
}

/// The words about two adapters that claim the same.
pub open spec fn clash_text(what: Seq<char>, kind: Seq<char>, other: Seq<char>, name: Seq<char>) -> Seq<char> {
    what + kind + ": "@ + other + " and "@ + name
}

/// The search with one more directory.
pub open spec fn searched(v: SearchV, c: Candidate) -> SearchV {
    match c.found {
        Err(e) => SearchV { errors: v.errors.push(c.directory@ + ": "@ + e@), ..v },
        Ok((m, executable)) => {
            let i = first_clash(m.kinds@, v.kinds, 0);
            let j = first_clash(m.controls@, v.controls, 0);
            if v.by_name.dom().contains(char_rank(m.name@)) {
                SearchV { errors: v.errors.push("duplicate adapter name "@ + m.name@), ..v }
            } else if i < m.kinds@.len() {
                let k = char_rank(m.kinds@[i]@);
                SearchV {
                    errors: v.errors.push(
                        clash_text(
                            "duplicate adapter kind claim "@,
                            m.kinds@[i]@,
                            v.kinds[k]@,
                            m.name@,
                        ),
                    ),
                    split_kinds: v.split_kinds.insert(k, ()),
                    kinds: v.kinds.remove(k),
                    ..v
                }
            } else if j < m.controls@.len() {
                let k = char_rank(m.controls@[j]@);
                SearchV {
                    errors: v.errors.push(
                        clash_text(
                            "duplicate adapter control claim "@,
                            m.controls@[j]@,
                            v.controls[k]@,
                            m.name@,
                        ),
                    ),
                    split_controls: v.split_controls.insert(k, ()),
                    controls: v.controls.remove(k),
                    ..v
                }
            } else {
                SearchV {
                    by_name: v.by_name.insert(
                        char_rank(m.name@),
                        AdapterRegistration {
                            manifest: m,
                            directory: c.directory,
                            executable,
                            source: c.source,
                        },
                    ),
                    kinds: with_claims(v.kinds, v.split_kinds, m.kinds@, m.name),
                    controls: with_claims(v.controls, v.split_controls, m.controls@, m.name),
                    ..v
                }
            }
        },
    }
}

/// The search of all directories, in order.
pub open spec fn search(start: SearchV, s: Seq<Candidate>) -> SearchV
    decreases s.len(),
{
    if s.len() == 0 {
        start
    } else {
        searched(search(start, s.drop_last()), s.last())
    }
}

/// Texts as they are.
pub open spec fn texts(s: Seq<String>) -> Seq<Seq<char>> {
    Seq::new(s.len(), |i: int| s[i]@)
}

fn find_clash(s: &Vec<String>, claims: &Table<String, String>) -> (r: usize)
    requires
        claims.wf(),
    ensures
        r == first_clash(s@, claims@, 0),
        r <= s@.len(),
        r < s@.len() ==> claims@.dom().contains(char_rank(s@[r as int]@)),
{
    let mut i: usize = 0;
    while i < s.len()
        invariant
            claims.wf(),
            i <= s@.len(),
            first_clash(s@, claims@, 0) == first_clash(s@, claims@, i as int),
        decreases s.len() - i,
    {
        if claims.contains(&s[i]) {
            return i;
        }
        i += 1;
    }
    i
}

fn add_claims(claims: &mut Table<String, String>, split: &Table<String, ()>, s: &Vec<String>, name: &String)
    requires
        old(claims).wf(),
        split.wf(),
    ensures
        final(claims).wf(),
        final(claims)@ == with_claims(old(claims)@, split@, s@, *name),
{
    let ghost before = claims@;
    let mut i: usize = 0;
    assert(s@.take(0) =~= Seq::<String>::empty());
    while i < s.len()
        invariant
            claims.wf(),
            split.wf(),
            i <= s@.len(),
            claims@ == with_claims(before, split@, s@.take(i as int), *name),
        decreases s.len() - i,
    {
        proof {
            assert(s@.take(i + 1).drop_last() =~= s@.take(i as int));
            assert(s@.take(i + 1).last() == s@[i as int]);
        }
        if !split.contains(&s[i]) {
            claims.insert(s[i].clone(), name.clone());
        }
        i += 1;
    }
    assert(s@.take(i as int) =~= s@);
}

/// A search under way.
struct Search {
    registry: AdapterRegistry,
    split_kinds: Table<String, ()>,
    split_controls: Table<String, ()>,
}

impl Search {
    spec fn wf(&self) -> bool {
        &&& self.registry.wf()
        &&& self.split_kinds.wf()
        &&& self.split_controls.wf()
    }

    spec fn state(&self) -> SearchV {
        SearchV {
            by_name: self.registry.by_name@,
            kinds: self.registry.kinds@,
            controls: self.registry.controls@,
            split_kinds: self.split_kinds@,
            split_controls: self.split_controls@,
            errors: texts(self.registry.errors@),
        }
    }

    fn report(&mut self, words: String)
        requires
            old(self).wf(),
        ensures
            final(self).wf(),
            final(self).state() == (SearchV {
                errors: old(self).state().errors.push(words@),
                ..old(self).state()
            }),
    {
        let ghost before = self.registry.errors@;
        self.registry.errors.push(words);
        assert(texts(self.registry.errors@) =~= texts(before).push(words@));
    }

    fn visit(&mut self, c: Candidate)
        requires
            old(self).wf(),
        ensures
            final(self).wf(),
            final(self).state() == searched(old(self).state(), c),
    {
        let (manifest, executable) = match c.found {
            Err(e) => {
                self.report(concat3(c.directory.as_str(), ": ", e.as_str()));
                return;
            },
            Ok(found) => found,
        };
        if self.registry.by_name.contains(&manifest.name) {
            self.report(concat("duplicate adapter name ", manifest.name.as_str()));
            return;
        }
        let i = find_clash(&manifest.kinds, &self.registry.kinds);
        if i < manifest.kinds.len() {
            let kind = manifest.kinds[i].clone();
            match self.registry.kinds.remove(&kind) {
                Some(other) => {
                    let words = clash_words(
                        "duplicate adapter kind claim ",
                        kind.as_str(),
                        other.as_str(),
                        manifest.name.as_str(),
                    );
                    self.report(words);
                },
                None => {},
            }
            self.split_kinds.insert(kind, ());
            return;
        }
        let j = find_clash(&manifest.controls, &self.registry.controls);
        if j < manifest.controls.len() {
            let kind = manifest.controls[j].clone();
            match self.registry.controls.remove(&kind) {
                Some(other) => {
                    let words = clash_words(
                        "duplicate adapter control claim ",
                        kind.as_str(),
                        other.as_str(),
                        manifest.name.as_str(),
                    );
                    self.report(words);
                },
                None => {},
            }
            self.split_controls.insert(kind, ());
            return;
        }
        add_claims(
            &mut self.registry.kinds,
            &self.split_kinds,
            &manifest.kinds,
            &manifest.name,
        );
        add_claims(
            &mut self.registry.controls,
            &self.split_controls,
            &manifest.controls,
            &manifest.name,
        );
        let name = manifest.name.clone();
        self.registry.by_name.insert(
            name,
            AdapterRegistration {
                manifest,
                directory: c.directory,
                executable,
                source: c.source,
            },
        );
    }
}

fn clash_words(what: &str, kind: &str, other: &str, name: &str) -> (r: String)
    ensures
        r@ == clash_text(what@, kind@, other@, name@),
{
    let mut words = concat3(what, kind, ": ");
    push_text(&mut words, other);
    push_text(&mut words, " and ");
    push_text(&mut words, name);
    words
}

impl AdapterRegistry {
    /// The tables are in order.
    pub open spec fn wf(&self) -> bool {
        self.by_name.wf() && self.kinds.wf() && self.controls.wf()
    }

    /// The registry holds what a search has found.
    pub open spec fn holds(&self, v: SearchV) -> bool {
        &&& self.by_name@ == v.by_name
        &&& self.kinds@ == v.kinds
        &&& self.controls@ == v.controls
        &&& texts(self.errors@) == v.errors
    }

    /// The adapters of the directories that were searched, in this order. `errors` are those of
    /// directories that could not be searched. An adapter whose name or claim another one has is
    /// left out; a kind that two have claimed belongs to none.
    pub fn discover_with(candidates: Vec<Candidate>, errors: Vec<String>) -> (r: Self)
        ensures
            r.wf(),
            r.holds(
                search(
                    SearchV { errors: texts(errors@), ..nothing_found() },
                    candidates@,
                ),
            ),
            adapters_were_found(r.by_name@, candidates@),
            forall|i: int| #[trigger]
                is_lone(candidates@, i) ==> is_registered(r, candidates@[i]),
    {
        let ghost all = candidates@;
        let ghost start = SearchV { errors: texts(errors@), ..nothing_found() };
        let mut s = Search {
            registry: AdapterRegistry {
                by_name: Table::new(),
                kinds: Table::new(),
                controls: Table::new(),
                errors,
            },
            split_kinds: Table::new(),
            split_controls: Table::new(),
        };
        let mut rest = candidates;
        let ghost mut n: int = 0;
        proof {
            assert(all.skip(0) =~= all);
            assert(all.take(0) =~= Seq::<Candidate>::empty());
        }
        while rest.len() > 0
            invariant
                s.wf(),
                0 <= n <= all.len(),
                rest@ == all.skip(n),
                s.state() == search(start, all.take(n)),
            decreases rest.len(),
        {
            let c = rest.remove(0);
            proof {
                assert(c == all[n]);
                assert(rest@ =~= all.skip(n + 1));
                assert(all.take(n + 1).drop_last() =~= all.take(n));
                assert(all.take(n + 1).last() == c);
                n = n + 1;
            }
            s.visit(c);
        }
        proof {
            assert(all.skip(n).len() == 0);
            assert(all.take(n) =~= all);
            fresh_start(start);
            search_keeps(start, all);
            assert forall|i: int| #[trigger] is_lone(all, i) implies is_registered(
                s.registry,
                all[i],
            ) by {
                lone_adapter_is_in_service(start, all, i);
            }
        }
        s.registry
    }

    /// The adapter that answers for a kind.
    pub fn for_kind(&self, kind: &str) -> (r: Option<&AdapterRegistration>)
        requires
            self.wf(),
        ensures
            r is Some <==> answers_for(self.by_name@, self.kinds@, kind@) is Some,
            r matches Some(x) ==> answers_for(self.by_name@, self.kinds@, kind@) == Some(*x),
    {
        let key = kind.to_owned();
        match self.kinds.get(&key) {
            None => None,
            Some(name) => self.by_name.get(name),
        }
    }

    /// The adapter that carries out orders for capsules of a kind.
    pub fn for_control(&self, kind: &str) -> (r: Option<&AdapterRegistration>)
        requires
            self.wf(),
        ensures
            r is Some <==> answers_for(self.by_name@, self.controls@, kind@) is Some,
            r matches Some(x) ==> answers_for(self.by_name@, self.controls@, kind@) == Some(*x),
    {
        let key = kind.to_owned();
        match self.controls.get(&key) {
            None => None,
            Some(name) => self.by_name.get(name),
        }
    }

    /// Whether an adapter can be added to these: no other has its name or one of its claims.
    pub fn add(&self, m: &AdapterManifest) -> (r: Result<(), Fault>)
        requires
            self.wf(),
        ensures
            r is Ok <==> addition_fault(self.by_name@, self.kinds@, self.controls@, *m) is None,
            r matches Err(f) ==> f@ == FaultV::Text(
                addition_fault(self.by_name@, self.kinds@, self.controls@, *m)->0,
            ),
    {
        if self.by_name.contains(&m.name) {
            return Err(Fault::Text(concat("duplicate adapter name ", m.name.as_str())));
        }
        match self.taken("duplicate adapter kind claim ", &self.kinds, &m.kinds, m) {
            Some(words) => {
                return Err(Fault::Text(words));
            },
            None => {},
        }
        match self.taken("duplicate adapter control claim ", &self.controls, &m.controls, m) {
            Some(words) => Err(Fault::Text(words)),
            None => Ok(()),
        }
    }

    fn taken(
        &self,
        what: &str,
        claims: &Table<String, String>,
        s: &Vec<String>,
        m: &AdapterManifest,
    ) -> (r: Option<String>)
        requires
            self.wf(),
            claims.wf(),
        ensures
            match r {
                Some(t) => taken_text(what@, self.by_name@, claims@, s@, m.name@, 0) == Some(t@),
                None => taken_text(what@, self.by_name@, claims@, s@, m.name@, 0) is None,
            },
    {
        let mut i: usize = 0;
        while i < s.len()
            invariant
                self.wf(),
                claims.wf(),
                i <= s@.len(),
                taken_text(what@, self.by_name@, claims@, s@, m.name@, 0) == taken_text(
                    what@,
                    self.by_name@,
                    claims@,
                    s@,
                    m.name@,
                    i as int,
                ),
            decreases s.len() - i,
        {
            let owner = match claims.get(&s[i]) {
                None => None,
                Some(name) => self.by_name.get(name),
            };
            match owner {
                Some(other) => {
                    return Some(
                        clash_words(
                            what,
                            s[i].as_str(),
                            other.manifest.name.as_str(),
                            m.name.as_str(),
                        ),
                    );
                },
                None => {},
            }
            i += 1;
        }
        None
    }

    /// The directory of an adapter that can be removed: it is registered, and for good.
    pub fn remove(&self, name: &str) -> (r: Result<String, Fault>)
        requires
            self.wf(),
        ensures
            ({
                let k = char_rank(name@);
                let known = self.by_name@.dom().contains(k);
                let x = self.by_name@[k];
                match r {
                    Ok(d) => known && !(x.source is Flag || x.source is Env) && d == x.directory,
                    Err(f) => if known {
                        (x.source is Flag || x.source is Env) && f@ == FaultV::Text(
                            "adapter "@ + name@
                                + " comes from --adapters/ABRA_ADAPTERS and is not persisted"@,
                        )
                    } else {
                        f@ == FaultV::Text("adapter is not registered"@)
                    },
                }
            }),
    {
        let key = name.to_owned();
        match self.by_name.get(&key) {
            None => Err(Fault::text("adapter is not registered")),
            Some(x) => if x.source == Source::Flag || x.source == Source::Env {
                Err(
                    Fault::Text(
                        concat3(
                            "adapter ",
                            name,
                            " comes from --adapters/ABRA_ADAPTERS and is not persisted",
                        ),
                    ),
                )
            } else {
                Ok(x.directory.clone())
            },
        }
    }
}

/// The adapter of a claim.
pub open spec fn answers_for(
    by_name: Map<Seq<int>, AdapterRegistration>,
    claims: Map<Seq<int>, String>,
    kind: Seq<char>,
) -> Option<AdapterRegistration> {
    let k = char_rank(kind);
    if claims.dom().contains(k) && by_name.dom().contains(char_rank(claims[k]@)) {
        Some(by_name[char_rank(claims[k]@)])
    } else {
        None
    }
}

/// The first claim that another adapter has, from `i` on, in words.
pub open spec fn taken_text(
    what: Seq<char>,
    by_name: Map<Seq<int>, AdapterRegistration>,
    claims: Map<Seq<int>, String>,
    s: Seq<String>,
    name: Seq<char>,
    i: int,
) -> Option<Seq<char>>
    decreases s.len() - i,
{
    if i < 0 || i >= s.len() {
        None
    } else {
        match answers_for(by_name, claims, s[i]@) {
            Some(other) => Some(clash_text(what, s[i]@, other.manifest.name@, name)),
            None => taken_text(what, by_name, claims, s, name, i + 1),
        }
    }
}

/// What keeps an adapter from being added.
pub open spec fn addition_fault(
    by_name: Map<Seq<int>, AdapterRegistration>,
    kinds: Map<Seq<int>, String>,
    controls: Map<Seq<int>, String>,
    m: AdapterManifest,
) -> Option<Seq<char>> {
    if by_name.dom().contains(char_rank(m.name@)) {
        Some("duplicate adapter name "@ + m.name@)
    } else {
        match taken_text(
            "duplicate adapter kind claim "@,
            by_name,
            kinds,
            m.kinds@,
            m.name@,
            0,
        ) {
            Some(words) => Some(words),
            None => taken_text(
                "duplicate adapter control claim "@,
                by_name,
                controls,
                m.controls@,
                m.name@,
                0,
            ),
        }
    }
}

/// Some text names the directory.
pub open spec fn lists_place(s: Seq<String>, directory: Seq<char>) -> bool {
    exists|i: int| 0 <= i < s.len() && same_place((#[trigger] s[i])@, directory)
}

/// Adds a directory to those that are registered for good, unless it is there.
pub fn with_directory(dirs: &mut Vec<String>, directory: String)
    ensures
        final(dirs)@ == if lists_place(old(dirs)@, directory@) {
            old(dirs)@
        } else {
            old(dirs)@.push(directory)
        },
{
    let mut i: usize = 0;
    while i < dirs.len()
        invariant
            i <= dirs@.len(),
            dirs@ == old(dirs)@,
            forall|j: int| 0 <= j < i ==> !same_place((#[trigger] dirs@[j])@, directory@),
        decreases dirs.len() - i,
    {
        if is_same_place(dirs[i].as_str(), directory.as_str()) {
            return;
        }
        i += 1;
    }
    dirs.push(directory);
}

/// The directories other than one.
pub open spec fn others(s: Seq<String>, text: Seq<char>) -> Seq<String>
    decreases s.len(),
{
    if s.len() == 0 {
        Seq::empty()
    } else if same_place(s.last()@, text) {
        others(s.drop_last(), text)
    } else {
        others(s.drop_last(), text).push(s.last())
    }
}

/// Taking a directory out leaves every other, and no text that names it.
pub proof fn others_are_left(s: Seq<String>, text: Seq<char>)
    ensures
        forall|x: String| #[trigger]
            others(s, text).contains(x) <==> s.contains(x) && !same_place(x@, text),
        !lists_place(others(s, text), text),
    decreases s.len(),
{
    let left = others(s, text);
    if s.len() > 0 {
        let front = s.drop_last();
        others_are_left(front, text);
        let before = others(front, text);
        assert forall|x: String| #[trigger] left.contains(x) <==> s.contains(x) && !same_place(
            x@,
            text,
        ) by {
            if left.contains(x) {
                let k = choose|k: int| 0 <= k < left.len() && left[k] == x;
                if k < before.len() {
                    assert(before[k] == x);
                    assert(before.contains(x));
                    let i = choose|i: int| 0 <= i < front.len() && front[i] == x;
                    assert(s[i] == x);
                } else {
                    assert(s[s.len() - 1] == x);
                }
            }
            if s.contains(x) && !same_place(x@, text) {
                let i = choose|i: int| 0 <= i < s.len() && s[i] == x;
                if i < front.len() {
                    assert(front[i] == x);
                    assert(before.contains(x));
                    let k = choose|k: int| 0 <= k < before.len() && before[k] == x;
                    assert(left[k] == x);
                } else {
                    assert(left[before.len() as int] == x);
                }
            }
        }
    }
    if lists_place(left, text) {
        let i = choose|i: int| 0 <= i < left.len() && same_place((#[trigger] left[i])@, text);
        assert(left.contains(left[i]));
    }
}

/// Takes a directory out of those that are registered for good.
pub fn without_directory(dirs: &Vec<String>, directory: &str) -> (r: Vec<String>)
    ensures
        r@ == others(dirs@, directory@),
{
    let mut out: Vec<String> = Vec::new();
    let mut i: usize = 0;
    assert(dirs@.take(0) =~= Seq::<String>::empty());
    while i < dirs.len()
        invariant
            i <= dirs@.len(),
            out@ == others(dirs@.take(i as int), directory@),
        decreases dirs.len() - i,
    {
        proof {
            assert(dirs@.take(i + 1).drop_last() =~= dirs@.take(i as int));
            assert(dirs@.take(i + 1).last() == dirs@[i as int]);
        }
        if !is_same_place(dirs[i].as_str(), directory) {
            out.push(dirs[i].clone());
        }
        i += 1;
    }
    assert(dirs@.take(i as int) =~= dirs@);
    out
}

/// Checks the size of a thumbnail.
pub fn check_thumbnail(size: u64) -> (r: Result<(), Fault>)
    ensures
        r is Ok <==> 1 <= size <= 524_288,
        r matches Err(f) ==> f@ == FaultV::Text("adapter thumbnail must be 1 to 512 KiB"@),
{
    if size == 0 || size > 524_288 {
        return Err(Fault::text("adapter thumbnail must be 1 to 512 KiB"));
    }
    Ok(())
}

/// A kind that two adapters have claimed belongs to none, however many more are found.
pub proof fn split_claims_belong_to_none(start: SearchV, s: Seq<Candidate>, k: Seq<int>)
    requires
        start.split_kinds.dom().contains(k) ==> !start.kinds.dom().contains(k),
        start.split_controls.dom().contains(k) ==> !start.controls.dom().contains(k),
    ensures
        search(start, s).split_kinds.dom().contains(k) ==> !search(start, s).kinds.dom().contains(k),
        search(start, s).split_controls.dom().contains(k) ==> !search(
            start,
            s,
        ).controls.dom().contains(k),
    decreases s.len(),
{
    if s.len() > 0 {
        split_claims_belong_to_none(start, s.drop_last(), k);
        let v = search(start, s.drop_last());
        match s.last().found {
            Err(e) => {},
            Ok((m, executable)) => {
                claims_respect_splits(v.kinds, v.split_kinds, m.kinds@, m.name, k);
                claims_respect_splits(v.controls, v.split_controls, m.controls@, m.name, k);
            },
        }
    }
}

proof fn claims_respect_splits(
    claims: Map<Seq<int>, String>,
    split: Map<Seq<int>, ()>,
    s: Seq<String>,
    name: String,
    k: Seq<int>,
)
    requires
        split.dom().contains(k) ==> !claims.dom().contains(k),
    ensures
        split.dom().contains(k) ==> !with_claims(claims, split, s, name).dom().contains(k),
    decreases s.len(),
{
    if s.len() > 0 {
        claims_respect_splits(claims, split, s.drop_last(), name, k);
    }
}

/// Whoever answers for a kind is registered under the name that the claim gives.
pub proof fn claims_name_adapters(start: SearchV, s: Seq<Candidate>, k: Seq<int>)
    requires
        start.kinds.dom().contains(k) ==> start.by_name.dom().contains(char_rank(start.kinds[k]@)),
        start.controls.dom().contains(k) ==> start.by_name.dom().contains(
            char_rank(start.controls[k]@),
        ),
    ensures
        ({
            let v = search(start, s);
            &&& v.kinds.dom().contains(k) ==> v.by_name.dom().contains(char_rank(v.kinds[k]@))
            &&& v.controls.dom().contains(k) ==> v.by_name.dom().contains(
                char_rank(v.controls[k]@),
            )
        }),
    decreases s.len(),
{
    if s.len() > 0 {
        claims_name_adapters(start, s.drop_last(), k);
        let v = search(start, s.drop_last());
        match s.last().found {
            Err(e) => {},
            Ok((m, executable)) => {
                claims_are_new_or_old(v.kinds, v.split_kinds, m.kinds@, m.name, k);
                claims_are_new_or_old(v.controls, v.split_controls, m.controls@, m.name, k);
            },
        }
    }
}

proof fn claims_are_new_or_old(
    claims: Map<Seq<int>, String>,
    split: Map<Seq<int>, ()>,
    s: Seq<String>,
    name: String,
    k: Seq<int>,
)
    ensures
        ({
            let after = with_claims(claims, split, s, name);
            after.dom().contains(k) ==> after[k] == name || (claims.dom().contains(k) && after[k]
                == claims[k])
        }),
    decreases s.len(),
{
    if s.len() > 0 {
        claims_are_new_or_old(claims, split, s.drop_last(), name, k);
    }
}

} // verus!
