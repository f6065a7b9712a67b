//! Planning a restore: from the files of a snapshot, or faster from artifacts of a matching host.
use vstd::prelude::*;

use crate::cas::Digest;
use crate::error::{error_text, Error};
use crate::json::Json;
use crate::manifest::{fingerprint_text, native_of, Fingerprint, NativeBlobRef, RawManifest, Recipe};
use crate::order::char_rank;
use crate::table::Table;
use crate::text::same_text;

verus! {

/// How a snapshot can be restored.
#[derive(Clone, Copy, Debug, PartialEq, Eq, Structural)]
pub enum RestoreMode {
    Native,
    Portable,
    Unavailable,
}

/// What stands in the way of a native restore.
#[derive(Clone, Copy, Debug, PartialEq, Eq, Structural)]
pub enum NativeStatus {
    /// Nothing: the artifacts match and are there. Loading them is still the adapter's to try.
    Eligible,
    Absent,
    TargetRequired,
    RolesRequired,
    FingerprintMismatch,
    MissingRoles,
    AmbiguousRoles,
    UnavailableObjects,
}

/// Whether the files of a snapshot are there.
#[derive(Debug, PartialEq, Eq)]
pub struct PortableRestore {
    pub available: bool,
    pub files: Option<Digest>,
    pub error: Option<String>,
}

/// An object that cannot be used.
#[derive(Debug, PartialEq, Eq)]
pub struct ObjectIssue {
    pub blob: Digest,
    pub error: String,
}

/// Whether the artifacts of a snapshot can be used.
#[derive(Debug, PartialEq, Eq)]
pub struct NativeRestore {
    pub status: NativeStatus,
    pub artifacts: Vec<NativeBlobRef>,
    pub missing_roles: Vec<String>,
    pub unavailable_objects: Vec<ObjectIssue>,
}

/// How a snapshot can be restored, and what it says of itself. The recipes are suggestions: nothing
/// here runs them.
#[derive(Debug)]
pub struct RestorePlan<'a> {
    pub snapshot_id: Digest,
    pub mode: RestoreMode,
    pub portable: PortableRestore,
    pub native: NativeRestore,
    pub recipes: &'a Vec<Recipe>,
    pub observation: Option<&'a Json>,
}

/// The artifacts of a role.
pub open spec fn of_role(s: Seq<NativeBlobRef>, role: Seq<char>) -> Seq<NativeBlobRef>
    decreases s.len(),
{
    if s.len() == 0 {
        Seq::empty()
    } else {
        let before = of_role(s.drop_last(), role);
        if s.last().role@ == role {
            before.push(s.last())
        } else {
            before
        }
    }
}

/// The roles that no artifact has.
pub open spec fn lacking_roles(s: Seq<NativeBlobRef>, roles: Seq<(String, ())>) -> Seq<String>
    decreases roles.len(),
{
    if roles.len() == 0 {
        Seq::empty()
    } else {
        let before = lacking_roles(s, roles.drop_last());
        if of_role(s, roles.last().0@).len() == 0 {
            before.push(roles.last().0)
        } else {
            before
        }
    }
}

/// The artifacts that are the only ones of their role.
pub open spec fn sole_artifacts(s: Seq<NativeBlobRef>, roles: Seq<(String, ())>) -> Seq<NativeBlobRef>
    decreases roles.len(),
{
    if roles.len() == 0 {
        Seq::empty()
    } else {
        let before = sole_artifacts(s, roles.drop_last());
        let own = of_role(s, roles.last().0@);
        if own.len() == 1 {
            before.push(own[0])
        } else {
            before
        }
    }
}

/// Some role has several artifacts.
pub open spec fn some_ambiguous(s: Seq<NativeBlobRef>, roles: Seq<(String, ())>) -> bool {
    exists|i: int| 0 <= i < roles.len() && of_role(s, (#[trigger] roles[i]).0@).len() > 1
}

/// What is to be found out about a native restore before any object is looked at.
pub open spec fn native_status(
    native: Seq<NativeBlobRef>,
    target: Option<Fingerprint>,
    roles: Seq<(String, ())>,
) -> NativeStatus {
    if native.len() == 0 {
        NativeStatus::Absent
    } else {
        match target {
            None => NativeStatus::TargetRequired,
            Some(t) => {
                let s = native_of(native, fingerprint_text(t));
                if roles.len() == 0 {
                    NativeStatus::RolesRequired
                } else if s.len() == 0 {
                    NativeStatus::FingerprintMismatch
                } else if some_ambiguous(s, roles) {
                    NativeStatus::AmbiguousRoles
                } else if lacking_roles(s, roles).len() > 0 {
                    NativeStatus::MissingRoles
                } else {
                    NativeStatus::Eligible
                }
            },
        }
    }
}

/// The artifacts were compared with the roles.
pub open spec fn was_matched(s: NativeStatus) -> bool {
    s is AmbiguousRoles || s is MissingRoles || s is Eligible
}

/// What checking an artifact answered, where `found` is the size of the object that was read.
pub open spec fn artifact_issue(a: NativeBlobRef, found: Result<u64, Error>) -> Option<Seq<char>> {
    match found {
        Err(e) => Some(error_text(e)),
        Ok(n) => if n == a.size {
            None
        } else {
            Some(error_text(Error::Invalid("native object size differs from manifest")))
        },
    }
}

/// The objects that cannot be used, by what checking each artifact answered.
pub open spec fn issues(s: Seq<NativeBlobRef>, found: Seq<Result<u64, Error>>) -> Seq<(Digest, Seq<char>)>
    decreases s.len(),
{
    if s.len() == 0 || found.len() < s.len() {
        Seq::empty()
    } else {
        let before = issues(s.drop_last(), found.take(s.len() - 1));
        match artifact_issue(s.last(), found[s.len() - 1]) {
            Some(text) => before.push((s.last().hash, text)),
            None => before,
        }
    }
}

/// The issues as they are.
pub open spec fn issue_views(s: Seq<ObjectIssue>) -> Seq<(Digest, Seq<char>)> {
    Seq::new(s.len(), |i: int| (s[i].blob, s[i].error@))
}

/// What a plan says of the artifacts of a snapshot.
pub open spec fn native_planned(
    p: NativeRestore,
    native: Seq<NativeBlobRef>,
    target: Option<Fingerprint>,
    roles: Seq<(String, ())>,
    found: Seq<Result<u64, Error>>,
) -> bool {
    let status = native_status(native, target, roles);
    let s = native_of(native, fingerprint_text(target->0));
    &&& if was_matched(status) {
        p.artifacts@ == sole_artifacts(s, roles) && p.missing_roles@ == lacking_roles(s, roles)
    } else {
        p.artifacts@.len() == 0 && p.missing_roles@.len() == 0
    }
    &&& if status is Eligible {
        &&& found.len() == p.artifacts@.len()
        &&& issue_views(p.unavailable_objects@) == issues(p.artifacts@, found)
        &&& p.status == if p.unavailable_objects@.len() == 0 {
            NativeStatus::Eligible
        } else {
            NativeStatus::UnavailableObjects
        }
    } else {
        p.status == status && p.unavailable_objects@.len() == 0
    }
}

/// The fingerprint, where one is given.
pub open spec fn given(target: Option<&Fingerprint>) -> Option<Fingerprint> {
    match target {
        Some(t) => Some(*t),
        None => None,
    }
}

fn role_entries(s: &Vec<NativeBlobRef>, role: &str) -> (r: Vec<NativeBlobRef>)
    ensures
        r@ == of_role(s@, role@),
{
    let mut out: Vec<NativeBlobRef> = Vec::new();
    let mut i: usize = 0;
    assert(s@.take(0) =~= Seq::<NativeBlobRef>::empty());
    while i < s.len()
        invariant
            i <= s@.len(),
            out@ == of_role(s@.take(i as int), role@),
        decreases s.len() - i,
    {
        proof {
            assert(s@.take(i + 1).drop_last() =~= s@.take(i as int));
            assert(s@.take(i + 1).last() == s@[i as int]);
        }
        if same_text(s[i].role.as_str(), role) {
            out.push(s[i].clone());
        }
        i += 1;
    }
    assert(s@.take(i as int) =~= s@);
    out
}

/// Plans the use of a snapshot's artifacts. `verify` reads an object and answers its size.
pub fn plan_native<V: Fn(&Digest) -> Result<u64, Error>>(
    snapshot: &RawManifest,
    target: Option<&Fingerprint>,
    roles: &Table<String, ()>,
    verify: V,
) -> (r: NativeRestore)
    requires
        forall|d: &Digest| verify.requires((d,)),
    ensures
        exists|found: Seq<Result<u64, Error>>|
            {
                &&& #[trigger] native_planned(
                    r,
                    snapshot.manifest.native@,
                    given(target),
                    roles.entries@,
                    found,
                )
                &&& forall|i: int|
                    0 <= i < found.len() ==> verify.ensures(
                        (&(#[trigger] r.artifacts@[i]).hash,),
                        found[i],
                    )
            },
{
    let ghost none = Seq::<Result<u64, Error>>::empty();
    let native = &snapshot.manifest.native;
    let mut plan = NativeRestore {
        status: NativeStatus::Absent,
        artifacts: Vec::new(),
        missing_roles: Vec::new(),
        unavailable_objects: Vec::new(),
    };
    let ghost want = given(target);
    if native.len() == 0 {
        assert(native_planned(plan, native@, want, roles.entries@, none));
        return plan;
    }
    let host = match target {
        None => {
            plan.status = NativeStatus::TargetRequired;
            assert(native_planned(plan, native@, want, roles.entries@, none));
            return plan;
        },
        Some(t) => t,
    };
    if roles.entries.len() == 0 {
        plan.status = NativeStatus::RolesRequired;
        assert(native_planned(plan, native@, want, roles.entries@, none));
        return plan;
    }
    let s = snapshot.manifest.native_for(host);
    if s.len() == 0 {
        plan.status = NativeStatus::FingerprintMismatch;
        assert(native_planned(plan, native@, want, roles.entries@, none));
        return plan;
    }
    let list = &roles.entries;
    let mut artifacts: Vec<NativeBlobRef> = Vec::new();
    let mut missing: Vec<String> = Vec::new();
    let mut ambiguous = false;
    let mut i: usize = 0;
    assert(list@.take(0) =~= Seq::<(String, ())>::empty());
    while i < list.len()
        invariant
            i <= list@.len(),
            artifacts@ == sole_artifacts(s@, list@.take(i as int)),
            missing@ == lacking_roles(s@, list@.take(i as int)),
            ambiguous == exists|j: int|
                0 <= j < i && of_role(s@, (#[trigger] list@[j]).0@).len() > 1,
        decreases list.len() - i,
    {
        proof {
            assert(list@.take(i + 1).drop_last() =~= list@.take(i as int));
            assert(list@.take(i + 1).last() == list@[i as int]);
        }
        let mut own = role_entries(&s, list[i].0.as_str());
        if own.len() == 0 {
            missing.push(list[i].0.clone());
        } else if own.len() == 1 {
            let a = own.remove(0);
            artifacts.push(a);
        } else {
            ambiguous = true;
            assert(of_role(s@, list@[i as int].0@).len() > 1);
        }
        i += 1;
    }
    assert(list@.take(i as int) =~= list@);
    plan.artifacts = artifacts;
    plan.missing_roles = missing;
    if ambiguous {
        plan.status = NativeStatus::AmbiguousRoles;
        assert(native_planned(plan, native@, want, roles.entries@, none));
        return plan;
    }
    if plan.missing_roles.len() > 0 {
        plan.status = NativeStatus::MissingRoles;
        assert(native_planned(plan, native@, want, roles.entries@, none));
        return plan;
    }
    let ghost mut found: Seq<Result<u64, Error>> = Seq::empty();
    let mut unavailable: Vec<ObjectIssue> = Vec::new();
    let ghost chosen = plan.artifacts@;
    let mut k: usize = 0;
    assert(chosen.take(0) =~= Seq::<NativeBlobRef>::empty());
    assert(issue_views(unavailable@) =~= Seq::<(Digest, Seq<char>)>::empty());
    while k < plan.artifacts.len()
        invariant
            chosen == plan.artifacts@,
            k <= chosen.len(),
            found.len() == k,
            issue_views(unavailable@) == issues(chosen.take(k as int), found),
            forall|d: &Digest| verify.requires((d,)),
            forall|j: int|
                0 <= j < k ==> verify.ensures((&(#[trigger] chosen[j]).hash,), found[j]),
        decreases plan.artifacts.len() - k,
    {
        let a = &plan.artifacts[k];
        let answer = verify(&a.hash);
        let ghost answered = answer;
        let issue = match answer {
            Err(e) => Some(e.message()),
            Ok(n) => if n == a.size {
                None
            } else {
                Some(Error::Invalid("native object size differs from manifest").message())
            },
        };
        let ghost before = unavailable@;
        proof {
            let now = found.push(answered);
            assert(chosen.take(k + 1).drop_last() =~= chosen.take(k as int));
            assert(chosen.take(k + 1).last() == chosen[k as int]);
            assert(now.take(k as int) =~= found);
            found = now;
        }
        match issue {
            Some(text) => {
                unavailable.push(ObjectIssue { blob: a.hash, error: text });
                assert(issue_views(unavailable@) =~= issue_views(before).push((a.hash, text@)));
            },
            None => {},
        }
        k += 1;
    }
    assert(chosen.take(k as int) =~= chosen);
    plan.status = if unavailable.len() == 0 {
        NativeStatus::Eligible
    } else {
        NativeStatus::UnavailableObjects
    };
    plan.unavailable_objects = unavailable;
    assert(native_planned(plan, native@, want, roles.entries@, found));
    plan
}

/// Roles can be asked for: each has a name, and none is asked for twice.
pub open spec fn roles_valid(roles: Seq<String>) -> bool {
    &&& forall|i: int| 0 <= i < roles.len() ==> (#[trigger] roles[i])@.len() > 0
    &&& forall|i: int, j: int|
        0 <= i < j < roles.len() ==> (#[trigger] roles[i])@ != (#[trigger] roles[j])@
}

/// The roles as a table: these and no others.
pub open spec fn role_table(t: Table<String, ()>, roles: Seq<String>) -> bool {
    &&& t.wf()
    &&& forall|k: Seq<int>| #[trigger]
        t@.dom().contains(k) <==> exists|i: int|
            0 <= i < roles.len() && char_rank((#[trigger] roles[i])@) == k
}

fn sort_roles(roles: &Vec<String>) -> (r: Option<Table<String, ()>>)
    ensures
        r is Some <==> roles_valid(roles@),
        r matches Some(t) ==> role_table(t, roles@) && t.entries@.len() == roles@.len(),
{
    let mut t: Table<String, ()> = Table::new();
    let mut i: usize = 0;
    while i < roles.len()
        invariant
            i <= roles@.len(),
            t.wf(),
            t.entries@.len() == i,
            forall|k: Seq<int>| #[trigger]
                t@.dom().contains(k) <==> exists|j: int|
                    0 <= j < i && char_rank((#[trigger] roles@[j])@) == k,
            forall|j: int| 0 <= j < i ==> (#[trigger] roles@[j])@.len() > 0,
            forall|a: int, b: int|
                0 <= a < b < i ==> (#[trigger] roles@[a])@ != (#[trigger] roles@[b])@,
        decreases roles.len() - i,
    {
        let role = roles[i].clone();
        proof {
            reveal_strlit("");
            assert(""@.len() == 0);
            if role@.len() == 0 {
                assert(role@ =~= ""@);
            }
        }
        if same_text(role.as_str(), "") {
            assert(roles@[i as int]@.len() == 0);
            return None;
        }
        let ghost before = t@;
        if t.contains(&role) {
            proof {
                let j = choose|j: int|
                    0 <= j < i && char_rank((#[trigger] roles@[j])@) == char_rank(role@);
                crate::order::char_rank_injective(roles@[j]@, role@);
                assert(roles@[j]@ == roles@[i as int]@);
            }
            return None;
        }
        t.insert(role, ());
        proof {
            assert forall|j: int| 0 <= j < i implies (#[trigger] roles@[j])@
                != roles@[i as int]@ by {
                assert(before.dom().contains(char_rank(roles@[j]@)));
            }
            assert forall|k: Seq<int>| #[trigger]
                t@.dom().contains(k) <==> exists|j: int|
                    0 <= j < i + 1 && char_rank((#[trigger] roles@[j])@) == k by {
                assert(before.dom().contains(k) <==> exists|j: int|
                    0 <= j < i && char_rank((#[trigger] roles@[j])@) == k);
                if k == char_rank(role@) {
                    assert(char_rank(roles@[i as int]@) == k);
                }
            }
        }
        i += 1;
    }
    Some(t)
}

/// Some artifact has the role.
pub open spec fn has_role(s: Seq<NativeBlobRef>, role: Seq<char>) -> bool {
    exists|j: int| 0 <= j < s.len() && (#[trigger] s[j]).role@ == role
}

/// Plans a restore without writing a file or starting a process. `check_files` verifies the tree of
/// the files, and `verify` reads an object and answers its size. Both may be out of date when the
/// plan is carried out.
pub fn plan_restore<'a, C: FnOnce(&Digest) -> Result<(), Error>, V: Fn(&Digest) -> Result<u64, Error>>(
    snapshot: &'a RawManifest,
    target: Option<&Fingerprint>,
    required_roles: &Vec<String>,
    check_files: C,
    verify: V,
) -> (r: Result<RestorePlan<'a>, Error>)
    requires
        snapshot.manifest.extra.wf(),
        forall|d: &Digest| check_files.requires((d,)),
        forall|d: &Digest| verify.requires((d,)),
    ensures
        r is Ok <==> roles_valid(required_roles@),
        r matches Err(e) ==> e == Error::Invalid("native roles must be nonempty and unique"),
        r matches Ok(p) ==> {
            let m = snapshot.manifest;
            let observed = char_rank("dev.abra.observed"@);
            &&& p.snapshot_id == snapshot.id
            &&& *p.recipes == m.recipes
            &&& p.observation is Some <==> m.extra@.dom().contains(observed)
            &&& p.observation matches Some(v) ==> *v == m.extra@[observed]
            &&& p.portable.files == m.files
            &&& p.portable.error is Some <==> !p.portable.available
            &&& match m.files {
                None => p.portable.error matches Some(t) && t@ == error_text(
                    Error::Invalid("snapshot lacks a portable file tree"),
                ),
                Some(root) => exists|answer: Result<(), Error>| #[trigger]
                    check_files.ensures((&root,), answer) && match answer {
                        Ok(()) => p.portable.available,
                        Err(e) => p.portable.error matches Some(t) && t@ == error_text(e),
                    },
            }
            &&& exists|t: Table<String, ()>, found: Seq<Result<u64, Error>>|
                {
                    &&& role_table(t, required_roles@)
                    &&& #[trigger] native_planned(
                        p.native,
                        m.native@,
                        given(target),
                        t.entries@,
                        found,
                    )
                    &&& forall|i: int|
                        0 <= i < found.len() ==> verify.ensures(
                            (&(#[trigger] p.native.artifacts@[i]).hash,),
                            found[i],
                        )
                }
            &&& p.mode == if p.native.status is Eligible {
                RestoreMode::Native
            } else if p.portable.available {
                RestoreMode::Portable
            } else {
                RestoreMode::Unavailable
            }
            &&& p.mode is Native ==> {
                &&& target is Some
                &&& p.native.artifacts@.len() == required_roles@.len()
                &&& forall|i: int|
                    0 <= i < required_roles@.len() ==> has_role(
                        p.native.artifacts@,
                        (#[trigger] required_roles@[i])@,
                    )
                &&& forall|i: int|
                    0 <= i < p.native.artifacts@.len() ==> m.native@.contains(
                        #[trigger] p.native.artifacts@[i],
                    ) && p.native.artifacts@[i].fingerprint@ == fingerprint_text(*target->0)
            }
            &&& p.mode is Portable ==> m.files is Some
        },
{
    let roles = match sort_roles(required_roles) {
        None => {
            return Err(Error::Invalid("native roles must be nonempty and unique"));
        },
        Some(t) => t,
    };
    let m = &snapshot.manifest;
    let error = match &m.files {
        None => Some(Error::Invalid("snapshot lacks a portable file tree").message()),
        Some(root) => {
            let answer = check_files(root);
            let ghost said = answer;
            assert(check_files.ensures((root,), said));
            match answer {
                Ok(()) => None,
                Err(e) => Some(e.message()),
            }
        },
    };
    let portable = PortableRestore { available: error.is_none(), files: m.files, error };
    let native = plan_native(snapshot, target, &roles, verify);
    let mode = if native.status == NativeStatus::Eligible {
        RestoreMode::Native
    } else if portable.available {
        RestoreMode::Portable
    } else {
        RestoreMode::Unavailable
    };
    let key = "dev.abra.observed".to_owned();
    proof {
        let found = choose|found: Seq<Result<u64, Error>>|
            {
                &&& #[trigger] native_planned(native, m.native@, given(target), roles.entries@, found)
                &&& forall|i: int|
                    0 <= i < found.len() ==> verify.ensures(
                        (&(#[trigger] native.artifacts@[i]).hash,),
                        found[i],
                    )
            };
        if mode is Native {
            eligible_plan_serves(native, m.native@, given(target), roles, required_roles@, found);
        }
    }
    Ok(
        RestorePlan {
            snapshot_id: snapshot.id,
            mode,
            portable,
            native,
            recipes: &m.recipes,
            observation: m.extra.get(&key),
        },
    )
}

/// A plan is native only where every artifact was read and has the size that the manifest gives it,
/// and there is exactly one for each role.
pub proof fn native_plans_are_verified(
    p: NativeRestore,
    native: Seq<NativeBlobRef>,
    target: Option<Fingerprint>,
    roles: Seq<(String, ())>,
    found: Seq<Result<u64, Error>>,
)
    requires
        native_planned(p, native, target, roles, found),
        p.status is Eligible,
    ensures
        target is Some,
        found.len() == p.artifacts@.len(),
        forall|i: int|
            0 <= i < found.len() ==> found[i] == Ok::<u64, Error>(
                (#[trigger] p.artifacts@[i]).size,
            ),
        p.missing_roles@.len() == 0,
{
    let s = p.artifacts@;
    assert(issue_views(p.unavailable_objects@).len() == 0);
    no_issue(s, found);
}

/// The artifacts of a host and a role are those of the list that have both, in their order.
proof fn role_members(native: Seq<NativeBlobRef>, host: Seq<char>, role: Seq<char>)
    ensures
        ({
            let own = of_role(native_of(native, host), role);
            &&& forall|i: int|
                0 <= i < own.len() ==> native.contains(#[trigger] own[i]) && own[i].fingerprint@
                    == host && own[i].role@ == role
            &&& forall|k: int|
                0 <= k < native.len() && (#[trigger] native[k]).fingerprint@ == host
                    && native[k].role@ == role ==> own.contains(native[k])
            &&& own.len() <= 1 <==> forall|j: int, k: int|
                0 <= j < k < native.len() ==> !((#[trigger] native[j]).fingerprint@ == host
                    && native[j].role@ == role && (#[trigger] native[k]).fingerprint@ == host
                    && native[k].role@ == role)
        }),
    decreases native.len(),
{
    let own = of_role(native_of(native, host), role);
    if native.len() > 0 {
        let front = native.drop_last();
        let last = native.last();
        role_members(front, host, role);
        let before = of_role(native_of(front, host), role);
        let s = native_of(front, host);
        assert(s.push(last).drop_last() =~= s);
        let fits = last.fingerprint@ == host && last.role@ == role;
        assert(own == if fits {
            before.push(last)
        } else {
            before
        });
        assert forall|i: int| 0 <= i < own.len() implies native.contains(#[trigger] own[i])
            && own[i].fingerprint@ == host && own[i].role@ == role by {
            if i < before.len() {
                assert(own[i] == before[i]);
                assert(front.contains(before[i]));
                let k = choose|k: int| 0 <= k < front.len() && front[k] == before[i];
                assert(native[k] == own[i]);
            } else {
                assert(native[native.len() - 1] == own[i]);
            }
        }
        assert forall|k: int|
            0 <= k < native.len() && (#[trigger] native[k]).fingerprint@ == host && native[k].role@
                == role implies own.contains(native[k]) by {
            if k < front.len() {
                assert(front[k] == native[k]);
                assert(before.contains(front[k]));
                let i = choose|i: int| 0 <= i < before.len() && before[i] == front[k];
                assert(own[i] == native[k]);
            } else {
                assert(own[before.len() as int] == native[k]);
            }
        }
        if own.len() <= 1 {
            assert forall|j: int, k: int| 0 <= j < k < native.len() implies !((
            #[trigger] native[j]).fingerprint@ == host && native[j].role@ == role && (
            #[trigger] native[k]).fingerprint@ == host && native[k].role@ == role) by {
                assert(front[j] == native[j]);
                if k < front.len() {
                    assert(front[k] == native[k]);
                } else if fits && native[j].fingerprint@ == host && native[j].role@ == role {
                    assert(before.contains(front[j]));
                }
            }
        } else {
            if before.len() > 1 {
                let (j, k) = choose|j: int, k: int|
                    0 <= j < k < front.len() && (#[trigger] front[j]).fingerprint@ == host
                        && front[j].role@ == role && (#[trigger] front[k]).fingerprint@ == host
                        && front[k].role@ == role;
                assert(native[j] == front[j] && native[k] == front[k]);
            } else {
                assert(fits && before.len() == 1);
                assert(front.contains(before[0]));
                let j = choose|j: int| 0 <= j < front.len() && front[j] == before[0];
                assert(native[j].fingerprint@ == host && native[j].role@ == role);
                assert(native[native.len() - 1] == last);
            }
        }
    } else {
        assert(own.len() == 0);
    }
}

proof fn lacking_members(s: Seq<NativeBlobRef>, roles: Seq<(String, ())>)
    ensures
        forall|name: String| #[trigger]
            lacking_roles(s, roles).contains(name) <==> exists|i: int|
                0 <= i < roles.len() && (#[trigger] roles[i]).0 == name && of_role(
                    s,
                    name@,
                ).len() == 0,
        lacking_roles(s, roles).len() <= roles.len(),
    decreases roles.len(),
{
    let all = lacking_roles(s, roles);
    if roles.len() > 0 {
        let front = roles.drop_last();
        lacking_members(s, front);
        let before = lacking_roles(s, front);
        let last = roles.last().0;
        assert forall|name: String| #[trigger] all.contains(name) <==> exists|i: int|
            0 <= i < roles.len() && (#[trigger] roles[i]).0 == name && of_role(s, name@).len()
                == 0 by {
            if all.contains(name) {
                let k = choose|k: int| 0 <= k < all.len() && all[k] == name;
                if k < before.len() {
                    assert(before[k] == name);
                    assert(before.contains(name));
                    let i = choose|i: int|
                        0 <= i < front.len() && (#[trigger] front[i]).0 == name && of_role(
                            s,
                            name@,
                        ).len() == 0;
                    assert(roles[i].0 == name);
                } else {
                    assert(roles[roles.len() - 1].0 == name);
                }
            }
            if exists|i: int|
                0 <= i < roles.len() && (#[trigger] roles[i]).0 == name && of_role(s, name@).len()
                    == 0 {
                let i = choose|i: int|
                    0 <= i < roles.len() && (#[trigger] roles[i]).0 == name && of_role(
                        s,
                        name@,
                    ).len() == 0;
                if i < front.len() {
                    assert(front[i].0 == name);
                    assert(before.contains(name));
                    let k = choose|k: int| 0 <= k < before.len() && before[k] == name;
                    assert(all[k] == name);
                } else {
                    assert(all[before.len() as int] == name);
                }
            }
        }
    } else {
        assert(all.len() == 0);
    }
}

proof fn sole_members(s: Seq<NativeBlobRef>, roles: Seq<(String, ())>)
    ensures
        forall|a: NativeBlobRef| #[trigger]
            sole_artifacts(s, roles).contains(a) <==> exists|i: int|
                0 <= i < roles.len() && of_role(s, (#[trigger] roles[i]).0@) == seq![a],
        (forall|i: int| 0 <= i < roles.len() ==> of_role(s, (#[trigger] roles[i]).0@).len() == 1)
            ==> sole_artifacts(s, roles).len() == roles.len() && forall|i: int|
            0 <= i < roles.len() ==> of_role(s, (#[trigger] roles[i]).0@)[0] == sole_artifacts(
                s,
                roles,
            )[i],
    decreases roles.len(),
{
    let all = sole_artifacts(s, roles);
    if roles.len() > 0 {
        let front = roles.drop_last();
        sole_members(s, front);
        let before = sole_artifacts(s, front);
        let own = of_role(s, roles.last().0@);
        assert forall|a: NativeBlobRef| #[trigger] all.contains(a) <==> exists|i: int|
            0 <= i < roles.len() && of_role(s, (#[trigger] roles[i]).0@) == seq![a] by {
            if all.contains(a) {
                let k = choose|k: int| 0 <= k < all.len() && all[k] == a;
                if k < before.len() {
                    assert(before[k] == a);
                    assert(before.contains(a));
                    let i = choose|i: int|
                        0 <= i < front.len() && of_role(s, (#[trigger] front[i]).0@) == seq![a];
                    assert(roles[i] == front[i]);
                } else {
                    assert(own =~= seq![a]);
                    assert(of_role(s, roles[roles.len() - 1].0@) == seq![a]);
                }
            }
            if exists|i: int|
                0 <= i < roles.len() && of_role(s, (#[trigger] roles[i]).0@) == seq![a] {
                let i = choose|i: int|
                    0 <= i < roles.len() && of_role(s, (#[trigger] roles[i]).0@) == seq![a];
                if i < front.len() {
                    assert(front[i] == roles[i]);
                    assert(before.contains(a));
                    let k = choose|k: int| 0 <= k < before.len() && before[k] == a;
                    assert(all[k] == a);
                } else {
                    assert(own.len() == 1 && own[0] == a);
                    assert(all[before.len() as int] == a);
                }
            }
        }
        if forall|i: int| 0 <= i < roles.len() ==> of_role(s, (#[trigger] roles[i]).0@).len() == 1 {
            assert forall|i: int| 0 <= i < front.len() implies of_role(
                s,
                (#[trigger] front[i]).0@,
            ).len() == 1 by {
                assert(front[i] == roles[i]);
            }
            assert(of_role(s, roles[roles.len() - 1].0@).len() == 1);
            assert forall|i: int| 0 <= i < roles.len() implies of_role(
                s,
                (#[trigger] roles[i]).0@,
            )[0] == all[i] by {
                if i < front.len() {
                    assert(front[i] == roles[i]);
                    assert(all[i] == before[i]);
                }
            }
        }
    } else {
        assert(all.len() == 0);
    }
}

proof fn host_members(native: Seq<NativeBlobRef>, host: Seq<char>)
    ensures
        native_of(native, host).len() == 0 <==> forall|k: int|
            0 <= k < native.len() ==> (#[trigger] native[k]).fingerprint@ != host,
    decreases native.len(),
{
    if native.len() > 0 {
        let front = native.drop_last();
        host_members(front, host);
        assert(native[native.len() - 1] == native.last());
        if native_of(native, host).len() == 0 {
            assert forall|k: int| 0 <= k < native.len() implies (#[trigger] native[k]).fingerprint@
                != host by {
                if k < front.len() {
                    assert(front[k] == native[k]);
                }
            }
        } else if native.last().fingerprint@ != host {
            let k = choose|k: int| 0 <= k < front.len() && (#[trigger] front[k]).fingerprint@ == host;
            assert(native[k].fingerprint@ == host);
        }
    }
}

/// What the status of a native plan means, in terms of the artifacts of the snapshot, the host and
/// the roles. A machine is resumed only where the host is known, roles are asked for, and each of
/// them has exactly one artifact that was made for hosts like this one. The artifacts of a plan are
/// the only ones of their roles, and the roles that are missing are those that no artifact for this
/// host has.
pub proof fn native_plan_serves_its_roles(
    p: NativeRestore,
    native: Seq<NativeBlobRef>,
    target: Option<Fingerprint>,
    roles: Seq<(String, ())>,
    found: Seq<Result<u64, Error>>,
)
    requires
        native_planned(p, native, target, roles, found),
    ensures
        p.status is Absent <==> native.len() == 0,
        p.status is TargetRequired <==> native.len() > 0 && target is None,
        p.status is RolesRequired <==> native.len() > 0 && target is Some && roles.len() == 0,
        p.status is Eligible || p.status is UnavailableObjects ==> {
            let host = fingerprint_text(target->0);
            &&& target is Some
            &&& roles.len() > 0
            &&& p.missing_roles@.len() == 0
            &&& p.artifacts@.len() == roles.len()
            &&& forall|i: int|
                0 <= i < roles.len() ==> {
                    &&& (#[trigger] p.artifacts@[i]).role@ == roles[i].0@
                    &&& p.artifacts@[i].fingerprint@ == host
                    &&& native.contains(p.artifacts@[i])
                }
            &&& forall|i: int, j: int, k: int|
                0 <= i < roles.len() && 0 <= j < k < native.len() ==> !((
                #[trigger] native[j]).fingerprint@ == host && native[j].role@
                    == (#[trigger] roles[i]).0@ && (#[trigger] native[k]).fingerprint@ == host
                    && native[k].role@ == roles[i].0@)
        },
        native.len() > 0 && target is Some && roles.len() > 0 ==> {
            let host = fingerprint_text(target->0);
            let some_here = exists|k: int|
                0 <= k < native.len() && (#[trigger] native[k]).fingerprint@ == host;
            let some_twice = exists|i: int, j: int, k: int|
                0 <= i < roles.len() && 0 <= j < k < native.len() && (
                #[trigger] native[j]).fingerprint@ == host && native[j].role@
                    == (#[trigger] roles[i]).0@ && (#[trigger] native[k]).fingerprint@ == host
                    && native[k].role@ == roles[i].0@;
            &&& p.status is FingerprintMismatch <==> !some_here
            &&& p.status is AmbiguousRoles <==> some_twice
            &&& p.status is MissingRoles <==> some_here && !some_twice && exists|i: int|
                0 <= i < roles.len() && !(exists|k: int|
                    0 <= k < native.len() && (#[trigger] native[k]).fingerprint@ == host
                        && native[k].role@ == (#[trigger] roles[i]).0@)
            &&& some_here ==> forall|name: String| #[trigger]
                p.missing_roles@.contains(name) <==> (exists|i: int|
                    0 <= i < roles.len() && (#[trigger] roles[i]).0 == name) && !(exists|k: int|
                    0 <= k < native.len() && (#[trigger] native[k]).fingerprint@ == host
                        && native[k].role@ == name@)
            &&& some_here ==> forall|a: NativeBlobRef| #[trigger]
                p.artifacts@.contains(a) ==> native.contains(a) && a.fingerprint@ == host && (
                exists|i: int| 0 <= i < roles.len() && (#[trigger] roles[i]).0@ == a.role@)
        },
{
    if native.len() > 0 && target is Some && roles.len() > 0 {
        let host = fingerprint_text(target->0);
        let s = native_of(native, host);
        host_members(native, host);
        lacking_members(s, roles);
        sole_members(s, roles);
        assert forall|role: Seq<char>| #[trigger] of_role(s, role).len() == 0 <==> !(exists|k: int|
            0 <= k < native.len() && (#[trigger] native[k]).fingerprint@ == host && native[k].role@
                == role) by {
            role_members(native, host, role);
            let own = of_role(s, role);
            if own.len() > 0 {
                assert(native.contains(own[0]));
                let k = choose|k: int| 0 <= k < native.len() && native[k] == own[0];
                assert(native[k].fingerprint@ == host && native[k].role@ == role);
            }
        }
        assert forall|i: int, j: int, k: int|
            0 <= i < roles.len() && 0 <= j < k < native.len() && (#[trigger] native[j]).fingerprint@
                == host && native[j].role@ == (#[trigger] roles[i]).0@ && (
            #[trigger] native[k]).fingerprint@ == host && native[k].role@
                == roles[i].0@ implies some_ambiguous(s, roles) by {
            role_members(native, host, roles[i].0@);
            assert(of_role(s, roles[i].0@).len() > 1);
        }
        if some_ambiguous(s, roles) {
            let i = choose|i: int| 0 <= i < roles.len() && of_role(s, (#[trigger] roles[i]).0@).len() > 1;
            role_members(native, host, roles[i].0@);
            let (j, k) = choose|j: int, k: int|
                0 <= j < k < native.len() && (#[trigger] native[j]).fingerprint@ == host
                    && native[j].role@ == roles[i].0@ && (#[trigger] native[k]).fingerprint@ == host
                    && native[k].role@ == roles[i].0@;
            assert(native[j].role@ == roles[i].0@ && native[k].role@ == roles[i].0@);
            let own = of_role(s, roles[i].0@);
            assert(s.len() > 0);
        }
        if lacking_roles(s, roles).len() > 0 {
            let name = lacking_roles(s, roles)[0];
            assert(lacking_roles(s, roles).contains(name));
        } else {
            assert forall|i: int| 0 <= i < roles.len() implies of_role(
                s,
                (#[trigger] roles[i]).0@,
            ).len() > 0 by {
                if of_role(s, roles[i].0@).len() == 0 {
                    assert(lacking_roles(s, roles).contains(roles[i].0));
                }
            }
        }
        assert forall|a: NativeBlobRef| #[trigger]
            sole_artifacts(s, roles).contains(a) implies native.contains(a) && a.fingerprint@ == host
            && (exists|i: int| 0 <= i < roles.len() && (#[trigger] roles[i]).0@ == a.role@) by {
            let i = choose|i: int|
                0 <= i < roles.len() && of_role(s, (#[trigger] roles[i]).0@) == seq![a];
            role_members(native, host, roles[i].0@);
            assert(of_role(s, roles[i].0@)[0] == a);
        }
        if p.status is Eligible || p.status is UnavailableObjects {
            assert forall|i: int| 0 <= i < roles.len() implies of_role(
                s,
                (#[trigger] roles[i]).0@,
            ).len() == 1 by {
                assert(!some_ambiguous(s, roles));
            }
            assert forall|i: int| 0 <= i < roles.len() implies {
                &&& (#[trigger] p.artifacts@[i]).role@ == roles[i].0@
                &&& p.artifacts@[i].fingerprint@ == host
                &&& native.contains(p.artifacts@[i])
            } by {
                role_members(native, host, roles[i].0@);
                assert(of_role(s, roles[i].0@)[0] == p.artifacts@[i]);
            }
        }
    }
}

proof fn artifacts_by_role(
    p: NativeRestore,
    native: Seq<NativeBlobRef>,
    target: Option<Fingerprint>,
    roles: Seq<(String, ())>,
    found: Seq<Result<u64, Error>>,
)
    requires
        native_planned(p, native, target, roles, found),
        p.status is Eligible,
    ensures
        target is Some,
        p.artifacts@.len() == roles.len(),
        forall|i: int|
            0 <= i < roles.len() ==> (#[trigger] p.artifacts@[i]).role@ == roles[i].0@
                && native.contains(p.artifacts@[i]) && p.artifacts@[i].fingerprint@
                == fingerprint_text(target->0),
{
    native_plan_serves_its_roles(p, native, target, roles, found);
}

/// A native plan has one artifact for each role that was asked for, and each is one of the snapshot
/// that was made for hosts like this one.
pub proof fn eligible_plan_serves(
    p: NativeRestore,
    native: Seq<NativeBlobRef>,
    target: Option<Fingerprint>,
    table: Table<String, ()>,
    roles: Seq<String>,
    found: Seq<Result<u64, Error>>,
)
    requires
        native_planned(p, native, target, table.entries@, found),
        role_table(table, roles),
        table.entries@.len() == roles.len(),
        p.status is Eligible,
    ensures
        target is Some,
        p.artifacts@.len() == roles.len(),
        forall|i: int|
            0 <= i < roles.len() ==> has_role(p.artifacts@, (#[trigger] roles[i])@),
        forall|i: int|
            0 <= i < p.artifacts@.len() ==> native.contains(#[trigger] p.artifacts@[i])
                && p.artifacts@[i].fingerprint@ == fingerprint_text(target->0),
{
    artifacts_by_role(p, native, target, table.entries@, found);
    assert forall|i: int| 0 <= i < roles.len() implies has_role(
        p.artifacts@,
        (#[trigger] roles[i])@,
    ) by {
        let rank = char_rank(roles[i]@);
        assert(table@.dom().contains(rank));
        let k = choose|k: int| crate::table::holds_at(table.entries@, rank, k);
        crate::order::char_rank_injective(table.entries@[k].0@, roles[i]@);
        assert(p.artifacts@[k].role@ == roles[i]@);
    }
}

/// Some artifact of the object was not read with the size that the manifest gives it.
pub open spec fn is_unusable(
    s: Seq<NativeBlobRef>,
    found: Seq<Result<u64, Error>>,
    blob: Digest,
) -> bool {
    exists|i: int|
        0 <= i < found.len() && (#[trigger] s[i]).hash == blob && found[i] != Ok::<u64, Error>(
            s[i].size,
        )
}

/// An artifact of a plan that cannot be used is reported, and only such a one: it could not be read,
/// or has another size than the manifest gives it.
pub proof fn unusable_artifacts_are_reported(
    p: NativeRestore,
    native: Seq<NativeBlobRef>,
    target: Option<Fingerprint>,
    roles: Seq<(String, ())>,
    found: Seq<Result<u64, Error>>,
)
    requires
        native_planned(p, native, target, roles, found),
        p.status is Eligible || p.status is UnavailableObjects,
    ensures
        found.len() == p.artifacts@.len(),
        p.status is Eligible <==> forall|i: int|
            0 <= i < found.len() ==> found[i] == Ok::<u64, Error>(
                (#[trigger] p.artifacts@[i]).size,
            ),
        p.status is Eligible <==> p.unavailable_objects@.len() == 0,
        forall|i: int|
            0 <= i < found.len() && found[i] != Ok::<u64, Error>(
                (#[trigger] p.artifacts@[i]).size,
            ) ==> exists|k: int|
                0 <= k < p.unavailable_objects@.len() && (
                #[trigger] p.unavailable_objects@[k]).blob == p.artifacts@[i].hash,
        forall|k: int|
            0 <= k < p.unavailable_objects@.len() ==> is_unusable(
                p.artifacts@,
                found,
                (#[trigger] p.unavailable_objects@[k]).blob,
            ),
{
    let s = p.artifacts@;
    let v = p.unavailable_objects@;
    issues_are_faults(s, found);
    assert(issue_views(v).len() == v.len());
    assert forall|i: int|
        0 <= i < found.len() && found[i] != Ok::<u64, Error>(
            (#[trigger] s[i]).size,
        ) implies exists|k: int| 0 <= k < v.len() && (#[trigger] v[k]).blob == s[i].hash by {
        let k = choose|k: int|
            0 <= k < issues(s, found).len() && (#[trigger] issues(s, found)[k]).0 == s[i].hash;
        assert(issue_views(v)[k].0 == v[k].blob);
    }
    assert forall|k: int| 0 <= k < v.len() implies is_unusable(
        s,
        found,
        (#[trigger] v[k]).blob,
    ) by {
        assert(issue_views(v)[k].0 == v[k].blob);
        assert(is_unusable(s, found, issues(s, found)[k].0));
    }
    if v.len() > 0 {
        assert(is_unusable(s, found, v[0].blob));
        let i = choose|i: int|
            0 <= i < found.len() && (#[trigger] s[i]).hash == v[0].blob && found[i] != Ok::<
                u64,
                Error,
            >(s[i].size);
        assert(found[i] != Ok::<u64, Error>(s[i].size));
    } else {
        assert forall|i: int| 0 <= i < found.len() implies found[i] == Ok::<u64, Error>(
            (#[trigger] s[i]).size,
        ) by {
            if found[i] != Ok::<u64, Error>(s[i].size) {
                let k = choose|k: int| 0 <= k < v.len() && (#[trigger] v[k]).blob == s[i].hash;
                assert(0 <= k < v.len());
            }
        }
    }
}

proof fn issues_are_faults(s: Seq<NativeBlobRef>, found: Seq<Result<u64, Error>>)
    requires
        found.len() == s.len(),
    ensures
        forall|i: int|
            0 <= i < found.len() && found[i] != Ok::<u64, Error>((#[trigger] s[i]).size) ==> exists|
                k: int,
            |
                0 <= k < issues(s, found).len() && (#[trigger] issues(s, found)[k]).0 == s[i].hash,
        forall|k: int|
            0 <= k < issues(s, found).len() ==> is_unusable(
                s,
                found,
                (#[trigger] issues(s, found)[k]).0,
            ),
    decreases s.len(),
{
    if s.len() > 0 {
        let front = s.drop_last();
        let some = found.take(s.len() - 1);
        issues_are_faults(front, some);
        let before = issues(front, some);
        let all = issues(s, found);
        assert forall|i: int|
            0 <= i < found.len() && found[i] != Ok::<u64, Error>((#[trigger] s[i]).size) implies exists|
            k: int,
        |
            0 <= k < all.len() && (#[trigger] all[k]).0 == s[i].hash by {
            if i < front.len() {
                assert(front[i] == s[i] && some[i] == found[i]);
                let k = choose|k: int|
                    0 <= k < before.len() && (#[trigger] before[k]).0 == front[i].hash;
                assert(all[k] == before[k]);
            } else {
                assert(all[before.len() as int].0 == s[i].hash);
            }
        }
        assert forall|k: int| 0 <= k < all.len() implies is_unusable(
            s,
            found,
            (#[trigger] all[k]).0,
        ) by {
            if k < before.len() {
                assert(all[k] == before[k]);
                assert(is_unusable(front, some, before[k].0));
                let i = choose|i: int|
                    0 <= i < some.len() && (#[trigger] front[i]).hash == before[k].0 && some[i]
                        != Ok::<u64, Error>(front[i].size);
                assert(front[i] == s[i] && some[i] == found[i]);
                assert(s[i].hash == all[k].0);
            } else {
                assert(s[s.len() - 1].hash == all[k].0);
            }
        }
    }
}

proof fn no_issue(s: Seq<NativeBlobRef>, found: Seq<Result<u64, Error>>)
    requires
        found.len() == s.len(),
        issues(s, found).len() == 0,
    ensures
        forall|i: int|
            0 <= i < found.len() ==> found[i] == Ok::<u64, Error>((#[trigger] s[i]).size),
    decreases s.len(),
{
    if s.len() > 0 {
        no_issue(s.drop_last(), found.take(s.len() - 1));
        assert forall|i: int| 0 <= i < found.len() implies found[i] == Ok::<u64, Error>(
            (#[trigger] s[i]).size,
        ) by {
            if i < s.len() - 1 {
                assert(s.drop_last()[i] == s[i]);
                assert(found.take(s.len() - 1)[i] == found[i]);
            }
        }
    }
}

} // verus!
