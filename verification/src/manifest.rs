//! The snapshot envelope: one manifest format, split by its scope.
//!
//! A manifest always carries the floor fields, kind, title, origin and time, so that a receiver
//! that has never heard of the payload can still show something. Recipes and native blobs are
//! data: they are stored and moved, never run.
use vstd::prelude::*;

use crate::bytes::same_bytes;
use crate::canonical::{canonical_bytes, to_vec};
use crate::cas::{blake3_of, Digest};
use crate::error::Error;
use crate::identity::PeerId;
use crate::json::{json_views, member_views, Json, JsonV};
use crate::number::{decimal, padded};
use crate::order::char_rank;
use crate::record::{
    fields_of, object_of, text_array, text_values, FieldMap, Fields, Members, Object,
};
use crate::table::Table;
use crate::text::{chars_of, concat3, push_text, same_text};
use crate::util::hex_text;

verus! {

/// The version of manifests that this build implements.
pub const ABRA_SPEC: u32 = 1;

/// The kind of a whole workspace or sandbox version.
pub const KIND_WORKSPACE: &'static str = "abra.workspace";

/// The kind of a plain file or folder delivery.
pub const KIND_FILES: &'static str = "abra.files";

/// The kind of a handoff: pointers into a piece of work, not the work itself.
pub const KIND_HANDOFF: &'static str = "abra.handoff.v1";

/// Which of the two shapes a manifest has.
#[derive(Clone, Copy, Debug, PartialEq, Eq, Structural)]
pub enum Scope {
    /// A version of a continuing thing: it has a capsule and a lineage.
    Full,
    /// A delivery, without lineage.
    Partial,
}

/// How a scope is written.
pub open spec fn scope_text(scope: Scope) -> Seq<char> {
    match scope {
        Scope::Full => "full"@,
        Scope::Partial => "partial"@,
    }
}

impl Scope {
    /// How the scope is written.
    pub fn as_str(&self) -> (r: &'static str)
        ensures
            r@ == scope_text(*self),
    {
        match self {
            Scope::Full => "full",
            Scope::Partial => "partial",
        }
    }
}

/// Where a partial came from. A reference: a partial is not part of the capsule's history.
#[derive(Clone, Debug, PartialEq, Eq)]
pub struct Provenance {
    pub capsule_id: Digest,
    pub snapshot_hash: Digest,
    pub label: Option<String>,
}

/// Who was driving the capsule when this version was authored.
#[derive(Clone, Copy, Debug, PartialEq, Eq)]
pub struct Lease {
    pub holder: PeerId,
    pub acquired_at: u64,
    pub expires_at: Option<u64>,
}

impl Lease {
    /// A lease that does not expire.
    pub fn new(holder: PeerId, now: u64) -> (r: Self)
        ensures
            r == (Lease { holder, acquired_at: now, expires_at: None }),
    {
        Lease { holder, acquired_at: now, expires_at: None }
    }

    /// A lease for some time.
    pub fn expiring(holder: PeerId, now: u64, ttl_ms: u64) -> (r: Self)
        ensures
            r.holder == holder,
            r.acquired_at == now,
            r.expires_at == Some(
                if now + ttl_ms > u64::MAX {
                    u64::MAX
                } else {
                    (now + ttl_ms) as u64
                },
            ),
    {
        Lease { holder, acquired_at: now, expires_at: Some(now.saturating_add(ttl_ms)) }
    }

    /// Whether the lease has lapsed.
    pub fn is_expired(&self, now: u64) -> (r: bool)
        ensures
            r == (self.expires_at matches Some(e) && now >= e),
    {
        match self.expires_at {
            Some(e) => now >= e,
            None => false,
        }
    }
}

/// How a recipe came to be known.
#[derive(Clone, Copy, Debug, PartialEq, Eq, Structural)]
pub enum RecipeSource {
    Observer,
    Launcher,
    Declared,
}

/// How a source is written.
pub open spec fn source_text(source: RecipeSource) -> Seq<char> {
    match source {
        RecipeSource::Observer => "observer"@,
        RecipeSource::Launcher => "launcher"@,
        RecipeSource::Declared => "declared"@,
    }
}

impl RecipeSource {
    /// How the source is written.
    pub fn as_str(&self) -> (r: &'static str)
        ensures
            r@ == source_text(*self),
    {
        match self {
            RecipeSource::Observer => "observer",
            RecipeSource::Launcher => "launcher",
            RecipeSource::Declared => "declared",
        }
    }
}

/// How to recreate one process.
#[derive(Clone, Debug, PartialEq, Eq)]
pub struct Recipe {
    /// Program and arguments.
    pub argv: Vec<String>,
    /// Working directory, relative to the workspace root.
    pub cwd: String,
    pub env: Table<String, String>,
    /// TCP ports that the process was seen to listen on.
    pub ports: Vec<u16>,
    pub started_at: Option<u64>,
    pub source: Option<RecipeSource>,
}

/// One of the components of a path is `..`.
pub open spec fn climbs(s: Seq<char>) -> bool {
    exists|i: int| climbs_at(s, i)
}

/// The component that begins at `i` is `..`.
pub open spec fn climbs_at(s: Seq<char>, i: int) -> bool {
    &&& 0 <= i
    &&& i + 1 < s.len()
    &&& s[i] == '.'
    &&& s[i + 1] == '.'
    &&& i == 0 || s[i - 1] == '/'
    &&& i + 2 == s.len() || s[i + 2] == '/'
}

/// What `check_relative` answers.
pub open spec fn relative_check(cwd: Seq<char>) -> Result<(), Error> {
    if cwd.len() > 0 && cwd[0] == '/' {
        Err(Error::Invalid("recipe cwd is absolute"))
    } else if climbs(cwd) {
        Err(Error::Invalid("recipe cwd escapes the workspace root"))
    } else {
        Ok(())
    }
}

/// A working directory leaves it to the receiver where the root lands.
pub fn check_relative(cwd: &str) -> (r: Result<(), Error>)
    ensures
        r == relative_check(cwd@),
{
    let s = chars_of(cwd);
    if s.len() > 0 && s[0] == '/' {
        return Err(Error::Invalid("recipe cwd is absolute"));
    }
    if s.len() < 2 {
        return Ok(());
    }
    let mut i: usize = 0;
    while i < s.len() - 1
        invariant
            s@ == cwd@,
            s@.len() >= 2,
            i <= s@.len() - 1,
            !(cwd@.len() > 0 && cwd@[0] == '/'),
            forall|j: int| 0 <= j < i ==> !climbs_at(cwd@, j),
        decreases s.len() - i,
    {
        if s[i] == '.' && s[i + 1] == '.' && (i == 0 || s[i - 1] == '/') && (i + 2 == s.len()
            || s[i + 2] == '/') {
            assert(climbs_at(cwd@, i as int));
            return Err(Error::Invalid("recipe cwd escapes the workspace root"));
        }
        i += 1;
    }
    Ok(())
}

/// What `Recipe::validate` answers.
pub open spec fn recipe_check(r: Recipe) -> Result<(), Error> {
    if r.argv@.len() == 0 {
        Err(Error::Invalid("recipe argv is empty"))
    } else {
        relative_check(r.cwd@)
    }
}

/// An integer without a sign, as JSON.
pub open spec fn nat_json(n: u64) -> JsonV {
    if n <= i64::MAX {
        JsonV::Int(n as int)
    } else {
        JsonV::Nat(n as nat)
    }
}

pub(crate) fn nat_value(n: u64) -> (r: Json)
    ensures
        r@ == nat_json(n),
{
    if n <= 0x7fff_ffff_ffff_ffffu64 {
        Json::Int(n as i64)
    } else {
        Json::Nat(n)
    }
}

/// An integer that is left out where there is none.
pub open spec fn opt_nat(key: Seq<char>, n: Option<u64>) -> Members {
    match n {
        Some(n) => seq![(key, nat_json(n))],
        None => Seq::empty(),
    }
}

fn put_opt_nat(f: &mut Fields, key: &str, n: Option<u64>)
    ensures
        final(f).so_far() == old(f).so_far() + opt_nat(key@, n),
{
    let ghost before = f.so_far();
    match n {
        Some(n) => {
            f.put(key, nat_value(n));
        },
        None => {},
    }
    assert(f.so_far() =~= before + opt_nat(key@, n));
}

/// Strings by name, as members in the order of their names.
pub open spec fn text_members(s: Seq<(String, String)>) -> Members {
    Seq::new(s.len(), |i: int| (s[i].0@, JsonV::Str(s[i].1@)))
}

fn text_object(t: &Table<String, String>) -> (r: Json)
    ensures
        r@ == JsonV::Obj(text_members(t.entries@)),
{
    let mut f = Fields::new();
    let mut i: usize = 0;
    let ghost s = text_members(t.entries@);
    assert(s.take(0) =~= Seq::<(Seq<char>, JsonV)>::empty());
    while i < t.entries.len()
        invariant
            i <= t.entries@.len(),
            s == text_members(t.entries@),
            f.so_far() == s.take(i as int),
        decreases t.entries.len() - i,
    {
        f.put_str(t.entries[i].0.as_str(), t.entries[i].1.as_str());
        assert(s.take(i + 1) =~= s.take(i as int).push(s[i as int]));
        i += 1;
    }
    assert(s.take(i as int) =~= s);
    f.done()
}

/// Ports as values.
pub open spec fn port_values(s: Seq<u16>) -> Seq<JsonV> {
    Seq::new(s.len(), |i: int| JsonV::Int(s[i] as int))
}

fn port_array(v: &Vec<u16>) -> (r: Json)
    ensures
        r@ == JsonV::Arr(port_values(v@)),
{
    let mut out: Vec<Json> = Vec::new();
    let mut i: usize = 0;
    while i < v.len()
        invariant
            i <= v@.len(),
            out@.len() == i,
            forall|k: int| 0 <= k < i ==> (#[trigger] out@[k])@ == JsonV::Int(v@[k] as int),
        decreases v.len() - i,
    {
        out.push(Json::Int(v[i] as i64));
        i += 1;
    }
    assert(json_views(out@) =~= port_values(v@));
    Json::Arr(out)
}

/// The members of a recipe.
pub open spec fn recipe_members(r: Recipe) -> Members {
    seq![
        ("argv"@, JsonV::Arr(text_values(r.argv@))),
        ("cwd"@, JsonV::Str(r.cwd@)),
    ] + (if r.env.entries@.len() > 0 {
        seq![("env"@, JsonV::Obj(text_members(r.env.entries@)))]
    } else {
        Seq::empty()
    }) + (if r.ports@.len() > 0 {
        seq![("ports"@, JsonV::Arr(port_values(r.ports@)))]
    } else {
        Seq::empty()
    }) + (match r.source {
        Some(s) => seq![("source"@, JsonV::Str(source_text(s)))],
        None => Seq::empty(),
    }) + opt_nat("started_at"@, r.started_at)
}

impl Recipe {
    /// A recipe that runs at the workspace root.
    pub fn new(argv: Vec<String>) -> (r: Self)
        ensures
            r.argv == argv,
            r.cwd@ == Seq::<char>::empty(),
            r.env.wf(),
            r.env.entries@.len() == 0,
            r.ports@.len() == 0,
            r.started_at is None,
            r.source is None,
    {
        Recipe {
            argv,
            cwd: String::new(),
            env: Table::new(),
            ports: Vec::new(),
            started_at: None,
            source: None,
        }
    }

    /// The recipe with another working directory.
    pub fn with_cwd(self, cwd: String) -> (r: Self)
        ensures
            r == (Recipe { cwd, ..self }),
    {
        Recipe {
            argv: self.argv,
            cwd,
            env: self.env,
            ports: self.ports,
            started_at: self.started_at,
            source: self.source,
        }
    }

    /// Checks that there is something to run, and where.
    pub fn validate(&self) -> (r: Result<(), Error>)
        ensures
            r == recipe_check(*self),
    {
        if self.argv.len() == 0 {
            return Err(Error::Invalid("recipe argv is empty"));
        }
        check_relative(self.cwd.as_str())
    }

    /// The recipe as a JSON object.
    pub fn to_json(&self) -> (r: Json)
        ensures
            r@ == JsonV::Obj(recipe_members(*self)),
    {
        let mut f = Fields::new();
        f.put("argv", text_array(&self.argv));
        f.put_str("cwd", self.cwd.as_str());
        if self.env.entries.len() > 0 {
            f.put("env", text_object(&self.env));
        }
        if self.ports.len() > 0 {
            f.put("ports", port_array(&self.ports));
        }
        match &self.source {
            Some(s) => {
                f.put_str("source", s.as_str());
            },
            None => {},
        }
        put_opt_nat(&mut f, "started_at", self.started_at);
        assert(f.so_far() =~= recipe_members(*self));
        f.done()
    }
}

/// A host class that can use a native blob.
#[derive(Clone, Debug, PartialEq, Eq)]
pub struct Fingerprint {
    pub os: String,
    pub arch: String,
    /// `none` for a bare host.
    pub hypervisor: String,
    pub extra: Table<String, String>,
}

/// The qualifiers of a fingerprint, each behind a slash.
pub open spec fn qualifiers(s: Seq<(String, String)>) -> Seq<char>
    decreases s.len(),
{
    if s.len() == 0 {
        Seq::empty()
    } else {
        qualifiers(s.drop_last()) + "/"@ + s.last().0@ + "-"@ + s.last().1@
    }
}

/// A fingerprint as text: system, hypervisor and architecture, and the qualifiers by name.
pub open spec fn fingerprint_text(f: Fingerprint) -> Seq<char> {
    f.os@ + "-"@ + f.hypervisor@ + "-"@ + f.arch@ + qualifiers(f.extra.entries@)
}

impl Fingerprint {
    /// A fingerprint without qualifiers.
    pub fn new(os: String, arch: String, hypervisor: String) -> (r: Self)
        ensures
            r.os == os,
            r.arch == arch,
            r.hypervisor == hypervisor,
            r.extra.wf(),
            r.extra.entries@.len() == 0,
    {
        Fingerprint { os, arch, hypervisor, extra: Table::new() }
    }

    /// The fingerprint of a host that runs on no hypervisor.
    pub fn of_host(os: String, arch: String) -> (r: Self)
        ensures
            r.os == os,
            r.arch == arch,
            r.hypervisor@ == "none"@,
            r.extra.wf(),
            r.extra.entries@.len() == 0,
    {
        Fingerprint::new(os, arch, "none".to_owned())
    }

    /// The fingerprint with one more qualifier.
    pub fn with_extra(self, key: String, value: String) -> (r: Self)
        requires
            self.extra.wf(),
        ensures
            r.os == self.os,
            r.arch == self.arch,
            r.hypervisor == self.hypervisor,
            r.extra.wf(),
            r.extra@ == self.extra@.insert(char_rank(key@), value),
    {
        let mut extra = self.extra;
        extra.insert(key, value);
        Fingerprint { os: self.os, arch: self.arch, hypervisor: self.hypervisor, extra }
    }

    /// The fingerprint as text. Two hosts are of one class where their texts are equal.
    pub fn render(&self) -> (r: String)
        ensures
            r@ == fingerprint_text(*self),
    {
        let mut out = concat3(self.os.as_str(), "-", self.hypervisor.as_str());
        push_text(&mut out, "-");
        push_text(&mut out, self.arch.as_str());
        let ghost head = out@;
        let ghost s = self.extra.entries@;
        let mut i: usize = 0;
        assert(s.take(0) =~= Seq::<(String, String)>::empty());
        assert(out@ =~= head + qualifiers(s.take(0)));
        while i < self.extra.entries.len()
            invariant
                i <= s.len(),
                s == self.extra.entries@,
                out@ == head + qualifiers(s.take(i as int)),
            decreases self.extra.entries.len() - i,
        {
            push_text(&mut out, "/");
            push_text(&mut out, self.extra.entries[i].0.as_str());
            push_text(&mut out, "-");
            push_text(&mut out, self.extra.entries[i].1.as_str());
            proof {
                let t = s.take(i + 1);
                assert(t.drop_last() =~= s.take(i as int));
                assert(t.last() == s[i as int]);
                assert(out@ =~= head + qualifiers(t));
            }
            i += 1;
        }
        assert(s.take(i as int) =~= s);
        out
    }
}

/// Texts that stand between the same two texts are the same where the whole is.
proof fn middle_shows(head: Seq<char>, a: Seq<char>, b: Seq<char>, tail: Seq<char>)
    requires
        head + a + tail == head + b + tail,
    ensures
        a == b,
{
    let (x, y) = (head + a + tail, head + b + tail);
    assert(x.len() == head.len() + a.len() + tail.len());
    assert(y.len() == head.len() + b.len() + tail.len());
    assert(a =~= x.subrange(head.len() as int, (head.len() + a.len()) as int));
    assert(b =~= y.subrange(head.len() as int, (head.len() + b.len()) as int));
}

/// Hosts are told apart. Two fingerprints that differ in the system, the hypervisor or the
/// architecture alone have different texts, and so have two that differ in the name or the value of
/// the last qualifier alone, or where one has a qualifier more. Without qualifiers the text is the
/// system, the hypervisor and the architecture.
pub proof fn hosts_are_told_apart(a: Fingerprint, b: Fingerprint)
    ensures
        a.extra.entries@.len() == 0 ==> fingerprint_text(a) == a.os@ + "-"@ + a.hypervisor@ + "-"@
            + a.arch@,
        fingerprint_text(a) == fingerprint_text(b) && a.extra == b.extra && a.hypervisor
            == b.hypervisor && a.arch == b.arch ==> a.os@ == b.os@,
        fingerprint_text(a) == fingerprint_text(b) && a.extra == b.extra && a.os == b.os && a.arch
            == b.arch ==> a.hypervisor@ == b.hypervisor@,
        fingerprint_text(a) == fingerprint_text(b) && a.extra == b.extra && a.os == b.os
            && a.hypervisor == b.hypervisor ==> a.arch@ == b.arch@,
        a.os == b.os && a.hypervisor == b.hypervisor && a.arch == b.arch && a.extra.entries@.len()
            == b.extra.entries@.len() + 1 && a.extra.entries@.drop_last() == b.extra.entries@
            ==> fingerprint_text(a) == fingerprint_text(b) + "/"@ + a.extra.entries@.last().0@
            + "-"@ + a.extra.entries@.last().1@ && fingerprint_text(a) != fingerprint_text(b),
{
    reveal_strlit("-");
    reveal_strlit("/");
    let (q, r) = (qualifiers(a.extra.entries@), qualifiers(b.extra.entries@));
    let (x, y) = (fingerprint_text(a), fingerprint_text(b));
    let none = Seq::<char>::empty();
    assert(a.extra.entries@.len() == 0 ==> x =~= a.os@ + "-"@ + a.hypervisor@ + "-"@ + a.arch@);
    if x == y && q == r {
        if a.hypervisor == b.hypervisor && a.arch == b.arch {
            let tail = "-"@ + a.hypervisor@ + "-"@ + a.arch@ + q;
            assert(x =~= none + a.os@ + tail);
            assert(y =~= none + b.os@ + tail);
            middle_shows(none, a.os@, b.os@, tail);
        }
        if a.os == b.os && a.arch == b.arch {
            let tail = "-"@ + a.arch@ + q;
            assert(x =~= (a.os@ + "-"@) + a.hypervisor@ + tail);
            assert(y =~= (a.os@ + "-"@) + b.hypervisor@ + tail);
            middle_shows(a.os@ + "-"@, a.hypervisor@, b.hypervisor@, tail);
        }
        if a.os == b.os && a.hypervisor == b.hypervisor {
            middle_shows(a.os@ + "-"@ + a.hypervisor@ + "-"@, a.arch@, b.arch@, q);
        }
    }
    if a.os == b.os && a.hypervisor == b.hypervisor && a.arch == b.arch && a.extra.entries@.len()
        == b.extra.entries@.len() + 1 && a.extra.entries@.drop_last() == b.extra.entries@ {
        let last = a.extra.entries@.last();
        assert(x =~= y + "/"@ + last.0@ + "-"@ + last.1@);
        assert(x.len() > y.len());
    }
}

/// An opaque artifact that makes a restore faster on one class of hosts.
#[derive(Debug, PartialEq, Eq)]
pub struct NativeBlobRef {
    /// The host class that can use the blob.
    pub fingerprint: String,
    /// Tells apart blobs of one fingerprint.
    pub role: String,
    pub hash: Digest,
    pub size: u64,
}

impl Clone for NativeBlobRef {
    fn clone(&self) -> (r: Self)
        ensures
            r == *self,
    {
        NativeBlobRef {
            fingerprint: self.fingerprint.clone(),
            role: self.role.clone(),
            hash: self.hash,
            size: self.size,
        }
    }
}

/// A native blob as a JSON object.
pub open spec fn native_json(n: NativeBlobRef) -> JsonV {
    JsonV::Obj(
        seq![
            ("fingerprint"@, JsonV::Str(n.fingerprint@)),
            ("hash"@, JsonV::Str(hex_text(n.hash.0@))),
            ("role"@, JsonV::Str(n.role@)),
            ("size"@, nat_json(n.size)),
        ],
    )
}

impl NativeBlobRef {
    /// A blob for hosts of a class.
    pub fn new(fingerprint: &Fingerprint, role: String, hash: Digest, size: u64) -> (r: Self)
        ensures
            r.fingerprint@ == fingerprint_text(*fingerprint),
            r.role == role,
            r.hash == hash,
            r.size == size,
    {
        NativeBlobRef { fingerprint: fingerprint.render(), role, hash, size }
    }

    /// Whether the blob can be used on a host.
    pub fn matches(&self, host: &Fingerprint) -> (r: bool)
        ensures
            r == (self.fingerprint@ == fingerprint_text(*host)),
    {
        same_text(self.fingerprint.as_str(), host.render().as_str())
    }

    /// The blob as a JSON object.
    pub fn to_json(&self) -> (r: Json)
        ensures
            r@ == native_json(*self),
    {
        let mut f = Fields::new();
        f.put_str("fingerprint", self.fingerprint.as_str());
        f.put_str("hash", self.hash.to_hex().as_str());
        f.put_str("role", self.role.as_str());
        f.put("size", nat_value(self.size));
        assert(f.so_far() =~= native_json(*self)->Obj_0);
        f.done()
    }
}

/// The snapshot envelope.
#[derive(Clone, Debug, PartialEq, Eq)]
pub struct Manifest {
    pub abra_spec: u32,
    pub scope: Scope,
    pub kind: String,
    pub title: String,
    pub origin: PeerId,
    pub created_at: u64,
    pub summary: Option<String>,
    pub link: Option<String>,
    pub thumbnail: Option<Digest>,
    /// The root tree of the files.
    pub files: Option<Digest>,
    pub recipes: Vec<Recipe>,
    pub native: Vec<NativeBlobRef>,
    /// Structured data of the payload.
    pub extra: Table<String, Json>,
    pub capsule_id: Option<Digest>,
    /// The snapshots that this one follows: none for a root, several after a merge.
    pub parents: Vec<Digest>,
    pub label: Option<String>,
    pub lease: Option<Lease>,
    pub provenance: Option<Provenance>,
    /// Members that this build does not know, kept so that the hash still holds.
    pub unknown: Table<String, Json>,
}

/// A field is one that this build knows.
pub open spec fn is_known_field(key: Seq<char>) -> bool {
    ||| key == "abra_spec"@
    ||| key == "scope"@
    ||| key == "kind"@
    ||| key == "title"@
    ||| key == "origin"@
    ||| key == "created_at"@
    ||| key == "summary"@
    ||| key == "link"@
    ||| key == "thumbnail"@
    ||| key == "files"@
    ||| key == "recipes"@
    ||| key == "native"@
    ||| key == "extra"@
    ||| key == "capsule_id"@
    ||| key == "parents"@
    ||| key == "label"@
    ||| key == "lease"@
    ||| key == "provenance"@
}

pub(crate) fn known_field(key: &str) -> (r: bool)
    ensures
        r == is_known_field(key@),
{
    same_text(key, "abra_spec") || same_text(key, "scope") || same_text(key, "kind") || same_text(
        key,
        "title",
    ) || same_text(key, "origin") || same_text(key, "created_at") || same_text(key, "summary")
        || same_text(key, "link") || same_text(key, "thumbnail") || same_text(key, "files")
        || same_text(key, "recipes") || same_text(key, "native") || same_text(key, "extra")
        || same_text(key, "capsule_id") || same_text(key, "parents") || same_text(key, "label")
        || same_text(key, "lease") || same_text(key, "provenance")
}

/// The members with one more, where there is one.
pub open spec fn with_field(f: FieldMap, key: Seq<char>, v: Option<JsonV>) -> FieldMap {
    match v {
        Some(v) => f.insert(key, v),
        None => f,
    }
}

/// Text as a value, where there is any.
pub open spec fn opt_text_json(s: Option<String>) -> Option<JsonV> {
    match s {
        Some(t) => Some(JsonV::Str(t@)),
        None => None,
    }
}

/// A hash as a value, where there is one.
pub open spec fn opt_hash_json(h: Option<Digest>) -> Option<JsonV> {
    match h {
        Some(h) => Some(JsonV::Str(hex_text(h.0@))),
        None => None,
    }
}

/// Recipes as values.
pub open spec fn recipe_values(s: Seq<Recipe>) -> Seq<JsonV> {
    Seq::new(s.len(), |i: int| JsonV::Obj(recipe_members(s[i])))
}

/// Native blobs as values.
pub open spec fn native_values(s: Seq<NativeBlobRef>) -> Seq<JsonV> {
    Seq::new(s.len(), |i: int| native_json(s[i]))
}

/// Hashes as values.
pub open spec fn hash_values(s: Seq<Digest>) -> Seq<JsonV> {
    Seq::new(s.len(), |i: int| JsonV::Str(hex_text(s[i].0@)))
}

/// A list that is left out where it is empty.
pub open spec fn opt_list(s: Seq<JsonV>) -> Option<JsonV> {
    if s.len() > 0 {
        Some(JsonV::Arr(s))
    } else {
        None
    }
}

/// A lease as a JSON object.
pub open spec fn lease_json(l: Lease) -> JsonV {
    JsonV::Obj(
        seq![("acquired_at"@, nat_json(l.acquired_at))] + opt_nat("expires_at"@, l.expires_at)
            + seq![("holder"@, JsonV::Str(hex_text(l.holder.0@)))],
    )
}

/// The provenance as a JSON object.
pub open spec fn provenance_json(p: Provenance) -> JsonV {
    JsonV::Obj(
        seq![("capsule_id"@, JsonV::Str(hex_text(p.capsule_id.0@)))] + crate::record::opt_str(
            "label"@,
            p.label,
        ) + seq![("snapshot_hash"@, JsonV::Str(hex_text(p.snapshot_hash.0@)))],
    )
}

/// The floor fields.
pub open spec fn floor_fields(m: Manifest) -> FieldMap {
    Map::<Seq<char>, JsonV>::empty().insert("abra_spec"@, JsonV::Int(m.abra_spec as int)).insert(
        "scope"@,
        JsonV::Str(scope_text(m.scope)),
    ).insert("kind"@, JsonV::Str(m.kind@)).insert("title"@, JsonV::Str(m.title@)).insert(
        "origin"@,
        JsonV::Str(hex_text(m.origin.0@)),
    ).insert("created_at"@, nat_json(m.created_at))
}

/// The floor fields and the cargo.
pub open spec fn cargo_fields(m: Manifest) -> FieldMap {
    let f1 = with_field(floor_fields(m), "summary"@, opt_text_json(m.summary));
    let f2 = with_field(f1, "link"@, opt_text_json(m.link));
    let f3 = with_field(f2, "thumbnail"@, opt_hash_json(m.thumbnail));
    let f4 = with_field(f3, "files"@, opt_hash_json(m.files));
    let f5 = with_field(f4, "recipes"@, opt_list(recipe_values(m.recipes@)));
    let f6 = with_field(f5, "native"@, opt_list(native_values(m.native@)));
    with_field(
        f6,
        "extra"@,
        if m.extra.entries@.len() > 0 {
            Some(JsonV::Obj(member_views(m.extra.entries@)))
        } else {
            None
        },
    )
}

/// All fields that this build knows.
pub open spec fn known_fields(m: Manifest) -> FieldMap {
    let f1 = with_field(cargo_fields(m), "capsule_id"@, opt_hash_json(m.capsule_id));
    let f2 = with_field(f1, "parents"@, opt_list(hash_values(m.parents@)));
    let f3 = with_field(f2, "label"@, opt_text_json(m.label));
    let f4 = with_field(
        f3,
        "lease"@,
        match m.lease {
            Some(l) => Some(lease_json(l)),
            None => None,
        },
    );
    with_field(
        f4,
        "provenance"@,
        match m.provenance {
            Some(p) => Some(provenance_json(p)),
            None => None,
        },
    )
}

/// All members of a manifest: what this build knows, and what it does not.
pub open spec fn manifest_fields(m: Manifest) -> FieldMap {
    known_fields(m).union_prefer_right(fields_of(m.unknown@))
}

/// A manifest as JSON. Fields that have nothing to say are left out.
pub open spec fn manifest_json(m: Manifest) -> JsonV {
    object_of(manifest_fields(m))
}

fn put_opt_text(o: &mut Object, key: &str, v: &Option<String>)
    requires
        old(o).wf(),
    ensures
        final(o).wf(),
        final(o).fields() == with_field(old(o).fields(), key@, opt_text_json(*v)),
{
    match v {
        Some(s) => {
            o.put_str(key, s.as_str());
        },
        None => {},
    }
}

fn put_opt_hash(o: &mut Object, key: &str, v: &Option<Digest>)
    requires
        old(o).wf(),
    ensures
        final(o).wf(),
        final(o).fields() == with_field(old(o).fields(), key@, opt_hash_json(*v)),
{
    match v {
        Some(h) => {
            o.put_str(key, h.to_hex().as_str());
        },
        None => {},
    }
}

fn put_list(o: &mut Object, key: &str, items: Vec<Json>)
    requires
        old(o).wf(),
    ensures
        final(o).wf(),
        final(o).fields() == with_field(old(o).fields(), key@, opt_list(json_views(items@))),
{
    if items.len() > 0 {
        o.put(key, Json::Arr(items));
    }
}

fn recipe_list(v: &Vec<Recipe>) -> (r: Vec<Json>)
    ensures
        json_views(r@) == recipe_values(v@),
{
    let mut out: Vec<Json> = Vec::new();
    let mut i: usize = 0;
    while i < v.len()
        invariant
            i <= v@.len(),
            out@.len() == i,
            forall|k: int|
                0 <= k < i ==> (#[trigger] out@[k])@ == JsonV::Obj(recipe_members(v@[k])),
        decreases v.len() - i,
    {
        out.push(v[i].to_json());
        i += 1;
    }
    assert(json_views(out@) =~= recipe_values(v@));
    out
}

fn native_list(v: &Vec<NativeBlobRef>) -> (r: Vec<Json>)
    ensures
        json_views(r@) == native_values(v@),
{
    let mut out: Vec<Json> = Vec::new();
    let mut i: usize = 0;
    while i < v.len()
        invariant
            i <= v@.len(),
            out@.len() == i,
            forall|k: int| 0 <= k < i ==> (#[trigger] out@[k])@ == native_json(v@[k]),
        decreases v.len() - i,
    {
        out.push(v[i].to_json());
        i += 1;
    }
    assert(json_views(out@) =~= native_values(v@));
    out
}

fn hash_list(v: &Vec<Digest>) -> (r: Vec<Json>)
    ensures
        json_views(r@) == hash_values(v@),
{
    let mut out: Vec<Json> = Vec::new();
    let mut i: usize = 0;
    while i < v.len()
        invariant
            i <= v@.len(),
            out@.len() == i,
            forall|k: int| 0 <= k < i ==> (#[trigger] out@[k])@ == JsonV::Str(hex_text(v@[k].0@)),
        decreases v.len() - i,
    {
        out.push(Json::Str(v[i].to_hex()));
        i += 1;
    }
    assert(json_views(out@) =~= hash_values(v@));
    out
}

fn lease_value(l: &Lease) -> (r: Json)
    ensures
        r@ == lease_json(*l),
{
    let mut f = Fields::new();
    f.put("acquired_at", nat_value(l.acquired_at));
    put_opt_nat(&mut f, "expires_at", l.expires_at);
    f.put_str("holder", l.holder.to_hex().as_str());
    assert(f.so_far() =~= lease_json(*l)->Obj_0);
    f.done()
}

fn provenance_value(p: &Provenance) -> (r: Json)
    ensures
        r@ == provenance_json(*p),
{
    let mut f = Fields::new();
    f.put_str("capsule_id", p.capsule_id.to_hex().as_str());
    f.put_opt("label", &p.label);
    f.put_str("snapshot_hash", p.snapshot_hash.to_hex().as_str());
    assert(f.so_far() =~= provenance_json(*p)->Obj_0);
    f.done()
}

/// The first fault among recipes.
pub open spec fn recipes_fault(s: Seq<Recipe>) -> Option<Error>
    decreases s.len(),
{
    if s.len() == 0 {
        None
    } else {
        match recipe_check(s[0]) {
            Err(e) => Some(e),
            Ok(()) => recipes_fault(s.drop_first()),
        }
    }
}

/// The first fault among native blobs.
pub open spec fn natives_fault(s: Seq<NativeBlobRef>) -> Option<Error>
    decreases s.len(),
{
    if s.len() == 0 {
        None
    } else if s[0].fingerprint@.len() == 0 {
        Some(Error::Invalid("native blob has an empty fingerprint"))
    } else if s[0].role@.len() == 0 {
        Some(Error::Invalid("native blob has an empty role"))
    } else {
        natives_fault(s.drop_first())
    }
}

/// A field that is kept as unknown has the name of one that is known.
pub open spec fn shadows(m: Manifest) -> bool {
    exists|i: int|
        0 <= i < m.unknown.entries@.len() && is_known_field((#[trigger] m.unknown.entries@[i]).0@)
}

/// What is wrong with the fields that every manifest has.
pub open spec fn floor_fault(m: Manifest) -> Option<Error> {
    if m.abra_spec != ABRA_SPEC {
        Some(Error::UnsupportedSpec { found: m.abra_spec, expected: ABRA_SPEC })
    } else if m.kind@.len() == 0 {
        Some(Error::Invalid("manifest kind is empty"))
    } else if m.title@.len() == 0 {
        Some(Error::Invalid("manifest title is empty"))
    } else if m.created_at == 0 {
        Some(Error::Invalid("manifest created_at is zero"))
    } else {
        None
    }
}

/// What is wrong with the fields that depend on the scope.
pub open spec fn scope_fault(m: Manifest) -> Option<Error> {
    match m.scope {
        Scope::Full => if m.capsule_id is None {
            Some(Error::Invalid("a full snapshot needs a capsule_id"))
        } else if m.provenance is Some {
            Some(
                Error::Invalid("provenance is a partial-only field; a full snapshot has parents"),
            )
        } else {
            None
        },
        Scope::Partial => if m.capsule_id is Some {
            Some(Error::Invalid("a partial snapshot has no capsule_id"))
        } else if m.parents@.len() > 0 {
            Some(Error::Invalid("a partial snapshot has no lineage"))
        } else if m.lease is Some {
            Some(Error::Invalid("a partial snapshot has no lease"))
        } else {
            None
        },
    }
}

/// What is wrong with a manifest.
pub open spec fn manifest_fault(m: Manifest) -> Option<Error> {
    if floor_fault(m) is Some {
        floor_fault(m)
    } else if scope_fault(m) is Some {
        scope_fault(m)
    } else if recipes_fault(m.recipes@) is Some {
        recipes_fault(m.recipes@)
    } else if natives_fault(m.native@) is Some {
        natives_fault(m.native@)
    } else if shadows(m) {
        Some(Error::Invalid("unknown-field map shadows a known field"))
    } else {
        None
    }
}

proof fn recipes_checked(s: Seq<Recipe>)
    ensures
        recipes_fault(s) is None <==> forall|i: int|
            0 <= i < s.len() ==> recipe_check(#[trigger] s[i]) is Ok,
    decreases s.len(),
{
    if s.len() > 0 {
        let rest = s.drop_first();
        recipes_checked(rest);
        if recipes_fault(s) is None {
            assert forall|i: int| 0 <= i < s.len() implies recipe_check(#[trigger] s[i]) is Ok by {
                if i > 0 {
                    assert(rest[i - 1] == s[i]);
                }
            }
        } else if forall|i: int| 0 <= i < s.len() ==> recipe_check(#[trigger] s[i]) is Ok {
            assert forall|i: int| 0 <= i < rest.len() implies recipe_check(#[trigger] rest[i])
                is Ok by {
                assert(rest[i] == s[i + 1]);
            }
            assert(recipe_check(s[0]) is Ok);
        }
    }
}

proof fn natives_checked(s: Seq<NativeBlobRef>)
    ensures
        natives_fault(s) is None <==> forall|i: int|
            0 <= i < s.len() ==> (#[trigger] s[i]).fingerprint@.len() > 0 && s[i].role@.len() > 0,
    decreases s.len(),
{
    if s.len() > 0 {
        let rest = s.drop_first();
        natives_checked(rest);
        if natives_fault(s) is None {
            assert forall|i: int| 0 <= i < s.len() implies (#[trigger] s[i]).fingerprint@.len() > 0
                && s[i].role@.len() > 0 by {
                if i > 0 {
                    assert(rest[i - 1] == s[i]);
                }
            }
        } else if forall|i: int|
            0 <= i < s.len() ==> (#[trigger] s[i]).fingerprint@.len() > 0 && s[i].role@.len() > 0 {
            assert forall|i: int| 0 <= i < rest.len() implies (#[trigger] rest[i]).fingerprint@.len()
                > 0 && rest[i].role@.len() > 0 by {
                assert(rest[i] == s[i + 1]);
            }
            assert(s[0].fingerprint@.len() > 0);
        }
    }
}

/// What a manifest needs, all of it. It is of this version, and says its kind, its title and when it
/// was made. A full snapshot belongs to a capsule and has no other provenance; a partial one belongs
/// to none, and has neither parents nor a lease. Each recipe starts something, below the workspace.
/// Native blobs say for which host and in which role they are. What is unknown does not pass for what
/// is known.
pub proof fn manifests_are_checked(m: Manifest)
    ensures
        manifest_fault(m) is None <==> {
            &&& m.abra_spec == 1
            &&& m.kind@.len() > 0
            &&& m.title@.len() > 0
            &&& m.created_at > 0
            &&& m.scope is Full ==> m.capsule_id is Some && m.provenance is None
            &&& m.scope is Partial ==> m.capsule_id is None && m.parents@.len() == 0 && m.lease
                is None
            &&& forall|i: int|
                0 <= i < m.recipes@.len() ==> (#[trigger] m.recipes@[i]).argv@.len() > 0
                    && stays_below(m.recipes@[i].cwd@)
            &&& forall|i: int|
                0 <= i < m.native@.len() ==> (#[trigger] m.native@[i]).fingerprint@.len() > 0
                    && m.native@[i].role@.len() > 0
            &&& forall|i: int|
                0 <= i < m.unknown.entries@.len() ==> !is_known_field(
                    (#[trigger] m.unknown.entries@[i]).0@,
                )
        },
{
    recipes_checked(m.recipes@);
    natives_checked(m.native@);
    assert forall|r: Recipe| #[trigger] recipe_check(r) is Ok <==> r.argv@.len() > 0 && stays_below(
        r.cwd@,
    ) by {
        let s = r.cwd@;
        if climbs(s) {
            let i = choose|i: int| climbs_at(s, i);
            assert(s[i] == '.' && s[i + 1] == '.');
        }
        if !stays_below(s) && !(s.len() > 0 && s[0] == '/') {
            let i = choose|i: int|
                0 <= i && i + 1 < s.len() && (#[trigger] s[i]) == '.' && s[i + 1] == '.' && (i == 0
                    || s[i - 1] == '/') && (i + 2 == s.len() || s[i + 2] == '/');
            assert(climbs_at(s, i));
        }
    }
}

/// A path that starts where it is taken from, and no part of which is two dots.
pub open spec fn stays_below(s: Seq<char>) -> bool {
    &&& s.len() == 0 || s[0] != '/'
    &&& forall|i: int|
        0 <= i && i + 1 < s.len() && (#[trigger] s[i]) == '.' && s[i + 1] == '.' && (i == 0 || s[i
            - 1] == '/') ==> i + 2 < s.len() && s[i + 2] != '/'
}

/// The native blobs of a host are exactly those that were made for hosts like it.
pub proof fn natives_are_for_the_host(s: Seq<NativeBlobRef>, host: Seq<char>)
    ensures
        forall|x: NativeBlobRef| #[trigger]
            native_of(s, host).contains(x) <==> s.contains(x) && x.fingerprint@ == host,
    decreases s.len(),
{
    let all = native_of(s, host);
    if s.len() > 0 {
        let front = s.drop_last();
        natives_are_for_the_host(front, host);
        let before = native_of(front, host);
        assert forall|x: NativeBlobRef| #[trigger] all.contains(x) <==> s.contains(x)
            && x.fingerprint@ == host by {
            if all.contains(x) {
                let k = choose|k: int| 0 <= k < all.len() && all[k] == x;
                if k < before.len() {
                    assert(before[k] == x);
                    assert(before.contains(x));
                    let i = choose|i: int| 0 <= i < front.len() && front[i] == x;
                    assert(s[i] == x);
                } else {
                    assert(s[s.len() - 1] == x);
                }
            }
            if s.contains(x) && x.fingerprint@ == host {
                let i = choose|i: int| 0 <= i < s.len() && s[i] == x;
                if i < front.len() {
                    assert(front[i] == x);
                    assert(before.contains(x));
                    let k = choose|k: int| 0 <= k < before.len() && before[k] == x;
                    assert(all[k] == x);
                } else {
                    assert(all[before.len() as int] == x);
                }
            }
        }
    } else {
        assert(all.len() == 0);
    }
}

/// The blobs that can be used on hosts of a class.
pub open spec fn native_of(s: Seq<NativeBlobRef>, host: Seq<char>) -> Seq<NativeBlobRef>
    decreases s.len(),
{
    if s.len() == 0 {
        Seq::empty()
    } else {
        let before = native_of(s.drop_last(), host);
        if s.last().fingerprint@ == host {
            before.push(s.last())
        } else {
            before
        }
    }
}

impl Manifest {
    /// The tables are in order.
    pub open spec fn wf(&self) -> bool {
        &&& self.extra.wf()
        &&& self.unknown.wf()
        &&& forall|i: int|
            0 <= i < self.recipes@.len() ==> (#[trigger] self.recipes@[i]).env.wf()
    }

    fn bare(scope: Scope, kind: String, title: String, origin: PeerId, created_at: u64) -> (r: Self)
        ensures
            r.wf(),
            is_bare(r, scope, kind, title, origin, created_at, None),
    {
        Manifest {
            abra_spec: ABRA_SPEC,
            scope,
            kind,
            title,
            origin,
            created_at,
            summary: None,
            link: None,
            thumbnail: None,
            files: None,
            recipes: Vec::new(),
            native: Vec::new(),
            extra: Table::new(),
            capsule_id: None,
            parents: Vec::new(),
            label: None,
            lease: None,
            provenance: None,
            unknown: Table::new(),
        }
    }

    /// A new version of a capsule.
    pub fn full(
        kind: String,
        title: String,
        origin: PeerId,
        created_at: u64,
        capsule_id: Digest,
    ) -> (r: Self)
        ensures
            r.wf(),
            is_bare(r, Scope::Full, kind, title, origin, created_at, Some(capsule_id)),
    {
        let mut m = Manifest::bare(Scope::Full, kind, title, origin, created_at);
        m.capsule_id = Some(capsule_id);
        m
    }

    /// A delivery.
    pub fn partial(kind: String, title: String, origin: PeerId, created_at: u64) -> (r: Self)
        ensures
            r.wf(),
            is_bare(r, Scope::Partial, kind, title, origin, created_at, None),
    {
        Manifest::bare(Scope::Partial, kind, title, origin, created_at)
    }

    /// The manifest as JSON.
    pub fn to_json(&self) -> (r: Json)
        requires
            self.wf(),
        ensures
            r@ == manifest_json(*self),
    {
        let mut o = Object::new();
        o.put("abra_spec", Json::Int(self.abra_spec as i64));
        o.put_str("scope", self.scope.as_str());
        o.put_str("kind", self.kind.as_str());
        o.put_str("title", self.title.as_str());
        o.put_str("origin", self.origin.to_hex().as_str());
        o.put("created_at", nat_value(self.created_at));
        assert(o.fields() == floor_fields(*self));
        put_opt_text(&mut o, "summary", &self.summary);
        put_opt_text(&mut o, "link", &self.link);
        put_opt_hash(&mut o, "thumbnail", &self.thumbnail);
        put_opt_hash(&mut o, "files", &self.files);
        put_list(&mut o, "recipes", recipe_list(&self.recipes));
        put_list(&mut o, "native", native_list(&self.native));
        if self.extra.entries.len() > 0 {
            o.put("extra", copy_object(&self.extra));
        }
        assert(o.fields() == cargo_fields(*self));
        put_opt_hash(&mut o, "capsule_id", &self.capsule_id);
        put_list(&mut o, "parents", hash_list(&self.parents));
        put_opt_text(&mut o, "label", &self.label);
        match &self.lease {
            Some(l) => {
                o.put("lease", lease_value(l));
            },
            None => {},
        }
        match &self.provenance {
            Some(p) => {
                o.put("provenance", provenance_value(p));
            },
            None => {},
        }
        assert(o.fields() == known_fields(*self));
        put_all(&mut o, &self.unknown);
        o.done()
    }

    /// The canonical bytes that a manifest travels as.
    pub fn to_canonical_bytes(&self) -> (r: Result<Vec<u8>, Error>)
        requires
            self.wf(),
        ensures
            r matches Ok(b) ==> canonical_bytes(manifest_json(*self)) == Ok::<Seq<u8>, Error>(b@),
            r matches Err(e) ==> canonical_bytes(manifest_json(*self)) == Err::<Seq<u8>, Error>(e),
    {
        to_vec(&self.to_json())
    }

    /// The hash of the canonical bytes, which covers everything that the manifest names.
    pub fn hash(&self) -> (r: Result<Digest, Error>)
        requires
            self.wf(),
        ensures
            r matches Ok(h) ==> canonical_bytes(manifest_json(*self)) is Ok && h.0@ == blake3_of(
                canonical_bytes(manifest_json(*self))->Ok_0,
            ),
            r matches Err(e) ==> canonical_bytes(manifest_json(*self)) == Err::<Seq<u8>, Error>(e),
    {
        match self.to_canonical_bytes() {
            Ok(b) => Ok(crate::cas::Hash::of(b.as_slice())),
            Err(e) => Err(e),
        }
    }

    /// Checks what holds of every manifest.
    pub fn validate(&self) -> (r: Result<(), Error>)
        ensures
            r == match manifest_fault(*self) {
                Some(e) => Err::<(), Error>(e),
                None => Ok(()),
            },
    {
        if self.abra_spec != ABRA_SPEC {
            return Err(Error::UnsupportedSpec { found: self.abra_spec, expected: ABRA_SPEC });
        }
        if self.kind.as_str().is_empty() {
            return Err(Error::Invalid("manifest kind is empty"));
        }
        if self.title.as_str().is_empty() {
            return Err(Error::Invalid("manifest title is empty"));
        }
        if self.created_at == 0 {
            return Err(Error::Invalid("manifest created_at is zero"));
        }
        match self.scope {
            Scope::Full => {
                if self.capsule_id.is_none() {
                    return Err(Error::Invalid("a full snapshot needs a capsule_id"));
                }
                if self.provenance.is_some() {
                    return Err(
                        Error::Invalid(
                            "provenance is a partial-only field; a full snapshot has parents",
                        ),
                    );
                }
            },
            Scope::Partial => {
                if self.capsule_id.is_some() {
                    return Err(Error::Invalid("a partial snapshot has no capsule_id"));
                }
                if self.parents.len() > 0 {
                    return Err(Error::Invalid("a partial snapshot has no lineage"));
                }
                if self.lease.is_some() {
                    return Err(Error::Invalid("a partial snapshot has no lease"));
                }
            },
        }
        match first_recipe_fault(&self.recipes) {
            Some(e) => {
                return Err(e);
            },
            None => {},
        }
        match first_native_fault(&self.native) {
            Some(e) => {
                return Err(e);
            },
            None => {},
        }
        let mut i: usize = 0;
        while i < self.unknown.entries.len()
            invariant
                i <= self.unknown.entries@.len(),
                floor_fault(*self) is None,
                scope_fault(*self) is None,
                recipes_fault(self.recipes@) is None,
                natives_fault(self.native@) is None,
                forall|j: int|
                    0 <= j < i ==> !is_known_field((#[trigger] self.unknown.entries@[j]).0@),
            decreases self.unknown.entries.len() - i,
        {
            if known_field(self.unknown.entries[i].0.as_str()) {
                assert(is_known_field(self.unknown.entries@[i as int].0@));
                return Err(Error::Invalid("unknown-field map shadows a known field"));
            }
            i += 1;
        }
        Ok(())
    }

    /// Accepts a manifest that was read from a stored object only where it has the hash that the
    /// object was stored under, so that no field was lost in reading.
    pub fn check_loaded(&self, hash: &Digest) -> (r: Result<(), Error>)
        requires
            self.wf(),
        ensures
            r == match manifest_fault(*self) {
                Some(e) => Err::<(), Error>(e),
                None => match canonical_bytes(manifest_json(*self)) {
                    Err(e) => Err(e),
                    Ok(b) => if blake3_of(b) == hash.0@ {
                        Ok(())
                    } else {
                        Err(
                            Error::Corrupt {
                                kind: "manifest",
                                detail: "does not round-trip to its own hash",
                            },
                        )
                    },
                },
            },
    {
        match self.validate() {
            Ok(()) => {},
            Err(e) => {
                return Err(e);
            },
        }
        match self.hash() {
            Err(e) => Err(e),
            Ok(h) => {
                proof {
                    crate::bytes::array_extensional(h.0, hash.0);
                }
                if h.same(hash) {
                    Ok(())
                } else {
                    Err(
                        Error::Corrupt {
                            kind: "manifest",
                            detail: "does not round-trip to its own hash",
                        },
                    )
                }
            },
        }
    }

    /// The native blobs that can be used on a host.
    pub fn native_for(&self, host: &Fingerprint) -> (r: Vec<NativeBlobRef>)
        ensures
            r@ == native_of(self.native@, fingerprint_text(*host)),
    {
        let text = host.render();
        let ghost s = self.native@;
        let mut out: Vec<NativeBlobRef> = Vec::new();
        let mut i: usize = 0;
        assert(s.take(0) =~= Seq::<NativeBlobRef>::empty());
        while i < self.native.len()
            invariant
                i <= s.len(),
                s == self.native@,
                text@ == fingerprint_text(*host),
                out@ == native_of(s.take(i as int), text@),
            decreases self.native.len() - i,
        {
            proof {
                assert(s.take(i + 1).drop_last() =~= s.take(i as int));
                assert(s.take(i + 1).last() == s[i as int]);
            }
            if same_text(self.native[i].fingerprint.as_str(), text.as_str()) {
                out.push(self.native[i].clone());
            }
            i += 1;
        }
        assert(s.take(i as int) =~= s);
        out
    }

    /// One line that can always be shown, made from the floor fields.
    pub fn card(&self) -> (r: String)
        ensures
            r@ == card_text(*self),
    {
        let mut out = concat3(self.title.as_str(), " — ", self.kind.as_str());
        match &self.summary {
            Some(s) => {
                push_text(&mut out, " — ");
                push_text(&mut out, s.as_str());
            },
            None => {
                assert(out@ + Seq::<char>::empty() =~= out@);
            },
        }
        push_text(&mut out, " (from ");
        push_text(&mut out, self.origin.to_hex().as_str());
        push_text(&mut out, ", ");
        push_text(&mut out, decimal(self.created_at).as_str());
        push_text(&mut out, ")");
        assert(out@ =~= card_text(*self));
        out
    }
}

/// The line that `card` renders.
pub open spec fn card_text(m: Manifest) -> Seq<char> {
    m.title@ + " — "@ + m.kind@ + (match m.summary {
        Some(s) => " — "@ + s@,
        None => Seq::empty(),
    }) + " (from "@ + hex_text(m.origin.0@) + ", "@ + padded(m.created_at as nat, 1) + ")"@
}

/// A manifest with nothing but its floor fields and, perhaps, a capsule.
pub open spec fn is_bare(
    m: Manifest,
    scope: Scope,
    kind: String,
    title: String,
    origin: PeerId,
    created_at: u64,
    capsule_id: Option<Digest>,
) -> bool {
    &&& m.abra_spec == ABRA_SPEC
    &&& m.scope == scope
    &&& m.kind == kind
    &&& m.title == title
    &&& m.origin == origin
    &&& m.created_at == created_at
    &&& m.summary is None
    &&& m.link is None
    &&& m.thumbnail is None
    &&& m.files is None
    &&& m.recipes@.len() == 0
    &&& m.native@.len() == 0
    &&& m.extra.entries@.len() == 0
    &&& m.capsule_id == capsule_id
    &&& m.parents@.len() == 0
    &&& m.label is None
    &&& m.lease is None
    &&& m.provenance is None
    &&& m.unknown.entries@.len() == 0
}

fn first_recipe_fault(v: &Vec<Recipe>) -> (r: Option<Error>)
    ensures
        r == recipes_fault(v@),
{
    let mut i: usize = 0;
    assert(v@.skip(0) =~= v@);
    while i < v.len()
        invariant
            i <= v@.len(),
            recipes_fault(v@) == recipes_fault(v@.skip(i as int)),
        decreases v.len() - i,
    {
        assert(v@.skip(i as int)[0] == v@[i as int]);
        assert(v@.skip(i as int).drop_first() =~= v@.skip(i + 1));
        match v[i].validate() {
            Ok(()) => {},
            Err(e) => {
                return Some(e);
            },
        }
        i += 1;
    }
    None
}

fn first_native_fault(v: &Vec<NativeBlobRef>) -> (r: Option<Error>)
    ensures
        r == natives_fault(v@),
{
    let mut i: usize = 0;
    assert(v@.skip(0) =~= v@);
    while i < v.len()
        invariant
            i <= v@.len(),
            natives_fault(v@) == natives_fault(v@.skip(i as int)),
        decreases v.len() - i,
    {
        assert(v@.skip(i as int)[0] == v@[i as int]);
        assert(v@.skip(i as int).drop_first() =~= v@.skip(i + 1));
        if v[i].fingerprint.as_str().is_empty() {
            return Some(Error::Invalid("native blob has an empty fingerprint"));
        }
        if v[i].role.as_str().is_empty() {
            return Some(Error::Invalid("native blob has an empty role"));
        }
        i += 1;
    }
    None
}

/// A copy of members as an object.
fn copy_object(t: &Table<String, Json>) -> (r: Json)
    ensures
        r@ == JsonV::Obj(member_views(t.entries@)),
{
    let mut f = Fields::new();
    let ghost s = member_views(t.entries@);
    let mut i: usize = 0;
    assert(s.take(0) =~= Seq::<(Seq<char>, JsonV)>::empty());
    while i < t.entries.len()
        invariant
            i <= t.entries@.len(),
            s == member_views(t.entries@),
            f.so_far() == s.take(i as int),
        decreases t.entries.len() - i,
    {
        f.put(t.entries[i].0.as_str(), t.entries[i].1.duplicate());
        assert(s.take(i + 1) =~= s.take(i as int).push(s[i as int]));
        i += 1;
    }
    assert(s.take(i as int) =~= s);
    f.done()
}

/// Puts copies of all members of a table.
fn put_all(o: &mut Object, t: &Table<String, Json>)
    requires
        old(o).wf(),
        t.wf(),
    ensures
        final(o).wf(),
        final(o).fields() == old(o).fields().union_prefer_right(fields_of(t@)),
{
    let ghost before = o.fields();
    let ghost s = t.entries@;
    let mut i: usize = 0;
    while i < t.entries.len()
        invariant
            o.wf(),
            t.wf(),
            s == t.entries@,
            i <= s.len(),
            forall|k: Seq<char>|
                #![trigger o.fields().dom().contains(k)]
                #![trigger o.fields()[k]]
                {
                    let hit = exists|j: int| 0 <= j < i && (#[trigger] s[j]).0@ == k;
                    &&& o.fields().dom().contains(k) == (before.dom().contains(k) || hit)
                    &&& hit ==> o.fields()[k] == fields_of(t@)[k]
                    &&& !hit && before.dom().contains(k) ==> o.fields()[k] == before[k]
                },
        decreases t.entries.len() - i,
    {
        let ghost was = o.fields();
        o.put(t.entries[i].0.as_str(), t.entries[i].1.duplicate());
        proof {
            let k0 = s[i as int].0@;
            crate::table::map_of_at(s, i as int);
            assert(fields_of(t@)[k0] == s[i as int].1@);
            assert forall|k: Seq<char>|
                #![trigger o.fields().dom().contains(k)]
                #![trigger o.fields()[k]]
                {
                    let hit = exists|j: int| 0 <= j < i + 1 && (#[trigger] s[j]).0@ == k;
                    &&& o.fields().dom().contains(k) == (before.dom().contains(k) || hit)
                    &&& hit ==> o.fields()[k] == fields_of(t@)[k]
                    &&& !hit && before.dom().contains(k) ==> o.fields()[k] == before[k]
                } by {
                let hit = exists|j: int| 0 <= j < i + 1 && (#[trigger] s[j]).0@ == k;
                let had = exists|j: int| 0 <= j < i && (#[trigger] s[j]).0@ == k;
                assert(was.dom().contains(k) || !was.dom().contains(k));
                if k == k0 {
                    assert(s[i as int].0@ == k);
                } else {
                    if hit {
                        let j = choose|j: int| 0 <= j < i + 1 && (#[trigger] s[j]).0@ == k;
                        assert(j < i);
                        assert(s[j].0@ == k);
                    }
                    if had {
                        let j = choose|j: int| 0 <= j < i && (#[trigger] s[j]).0@ == k;
                        assert(s[j].0@ == k);
                    }
                }
            }
        }
        i += 1;
    }
    proof {
        let all = before.union_prefer_right(fields_of(t@));
        assert forall|k: Seq<char>|
            #![trigger o.fields().dom().contains(k)]
            #![trigger all.dom().contains(k)]
            #![trigger o.fields()[k]]
            o.fields().dom().contains(k) == all.dom().contains(k) && (o.fields().dom().contains(k)
                ==> o.fields()[k] == all[k]) by {
            assert(o.fields().dom().contains(k) || !o.fields().dom().contains(k));
            let hit = exists|j: int| 0 <= j < s.len() && (#[trigger] s[j]).0@ == k;
            if hit {
                let j = choose|j: int| 0 <= j < s.len() && (#[trigger] s[j]).0@ == k;
                crate::table::map_of_at(s, j);
            }
            if t@.dom().contains(char_rank(k)) {
                let j = choose|j: int| crate::table::holds_at(s, char_rank(k), j);
                crate::order::char_rank_injective(s[j].0@, k);
                assert(s[j].0@ == k);
            }
        }
        assert(o.fields().dom() =~= all.dom());
        assert(o.fields() =~= all);
    }
}

/// A manifest together with the bytes it was read from, and its hash.
#[derive(Clone, Debug, PartialEq, Eq)]
pub struct RawManifest {
    pub bytes: Vec<u8>,
    pub manifest: Manifest,
    pub id: Digest,
}

impl RawManifest {
    /// The manifest is in order, the bytes are its canonical bytes, and the id is their hash.
    pub open spec fn wf(&self) -> bool {
        &&& self.manifest.wf()
        &&& manifest_fault(self.manifest) is None
        &&& canonical_bytes(manifest_json(self.manifest)) == Ok::<Seq<u8>, Error>(self.bytes@)
        &&& self.id.0@ == blake3_of(self.bytes@)
    }

    /// Accepts a manifest that was read from `bytes` where it is in order and the bytes are its
    /// canonical bytes.
    pub fn accept(bytes: Vec<u8>, manifest: Manifest) -> (r: Result<Self, Error>)
        requires
            manifest.wf(),
        ensures
            r matches Ok(raw) ==> raw.wf() && raw.bytes == bytes && raw.manifest == manifest,
            r matches Err(e) ==> e == match manifest_fault(manifest) {
                Some(x) => x,
                None => match canonical_bytes(manifest_json(manifest)) {
                    Err(x) => x,
                    Ok(_) => Error::Invalid("noncanonical manifest bytes"),
                },
            },
            r is Ok <==> manifest_fault(manifest) is None && canonical_bytes(
                manifest_json(manifest),
            ) == Ok::<Seq<u8>, Error>(bytes@),
    {
        match manifest.validate() {
            Ok(()) => {},
            Err(e) => {
                return Err(e);
            },
        }
        let canonical = match manifest.to_canonical_bytes() {
            Ok(b) => b,
            Err(e) => {
                return Err(e);
            },
        };
        if !same_bytes(canonical.as_slice(), bytes.as_slice()) {
            return Err(Error::Invalid("noncanonical manifest bytes"));
        }
        let id = crate::cas::Hash::of(bytes.as_slice());
        Ok(RawManifest { bytes, manifest, id })
    }

    /// The bytes.
    pub fn bytes(&self) -> (r: &[u8])
        ensures
            r@ == self.bytes@,
    {
        self.bytes.as_slice()
    }

    /// The manifest.
    pub fn manifest(&self) -> (r: &Manifest)
        ensures
            *r == self.manifest,
    {
        &self.manifest
    }

    /// The id of the snapshot.
    pub fn snapshot_id(&self) -> (r: Digest)
        ensures
            r == self.id,
    {
        self.id
    }
}

/// A new manifest says of what kind it is, by whom and when, under the current format, and nothing
/// more.
pub proof fn new_manifests_say_no_more(
    m: Manifest,
    scope: Scope,
    kind: String,
    title: String,
    origin: PeerId,
    created_at: u64,
    capsule_id: Option<Digest>,
)
    requires
        is_bare(m, scope, kind, title, origin, created_at, capsule_id),
    ensures
        m.abra_spec == 1,
        m.scope == scope && m.kind == kind && m.title == title && m.origin == origin && m.created_at
            == created_at && m.capsule_id == capsule_id,
        m.files is None && m.lease is None && m.label is None && m.provenance is None,
        m.summary is None && m.link is None && m.thumbnail is None,
        m.extra.entries@.len() == 0 && m.unknown.entries@.len() == 0,
        m.native@.len() == 0 && m.recipes@.len() == 0 && m.parents@.len() == 0,
{
}

/// A card begins with the title and ends with who made the snapshot, and when.
pub proof fn cards_name_title_and_origin(m: Manifest)
    ensures
        ({
            let end = " (from "@ + hex_text(m.origin.0@) + ", "@ + padded(m.created_at as nat, 1)
                + ")"@;
            let text = card_text(m);
            &&& text.take(m.title@.len() as int) == m.title@
            &&& text.len() >= end.len() && text.skip(text.len() - end.len()) == end
            &&& m.summary matches Some(s) ==> text == m.title@ + " — "@ + m.kind@ + " — "@ + s@
                + end
            &&& m.summary is None ==> text == m.title@ + " — "@ + m.kind@ + end
        }),
{
    let end = " (from "@ + hex_text(m.origin.0@) + ", "@ + padded(m.created_at as nat, 1) + ")"@;
    let text = card_text(m);
    assert(text.take(m.title@.len() as int) =~= m.title@);
    assert(text.skip(text.len() - end.len()) =~= end);
    if let Some(s) = m.summary {
        assert(text =~= m.title@ + " — "@ + m.kind@ + " — "@ + s@ + end);
    } else {
        assert(text =~= m.title@ + " — "@ + m.kind@ + end);
    }
}

} // verus!
