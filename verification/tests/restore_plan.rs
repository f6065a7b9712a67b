use abra::cas::{Digest, EntryMode, Tree, TreeEntry};
use abra::error::Error;
use abra::identity::Identity;
use abra::json::Json;
use abra::manifest::{Fingerprint, Manifest, NativeBlobRef, RawManifest, Recipe};
use abra::record::Object;
use abra::restore::{plan_restore, NativeStatus, RestoreMode, RestorePlan};
use abra::walk::{read_blob, TreeWalk};

fn roles() -> Vec<String> {
    ["vmstate", "memory", "disk"].iter().map(|r| r.to_string()).collect()
}

fn fingerprint(arch: &str) -> Fingerprint {
    Fingerprint::new("linux".to_owned(), arch.to_owned(), "firecracker".to_owned())
        .with_extra("cpu".to_owned(), "test-cpu".to_owned())
}

fn native(role: &str) -> NativeBlobRef {
    let bytes = format!("opaque x86 native {role}");
    NativeBlobRef::new(
        &fingerprint("x86_64"),
        role.to_owned(),
        Digest::of(bytes.as_bytes()),
        bytes.len() as u64,
    )
}

fn fixture() -> Manifest {
    let mut m = Manifest::full(
        "dev.abra.workspace".to_owned(),
        "Portable checkpoint".to_owned(),
        Identity::from_secret_bytes(&[3; 32]).peer_id(),
        1_788_652_800_000,
        Digest::of(b"portable-capsule"),
    );
    m.files = Some(Digest::of(b"tree"));
    m.recipes =
        vec![Recipe::new(vec!["python3".to_owned(), "resume.py".to_owned()]).with_cwd(".".to_owned())];
    m.native = roles().iter().map(|r| native(r)).collect();
    let mut observed = Object::new();
    observed.put_str("missing", "DATABASE_URL");
    m.extra.insert("dev.abra.observed".to_owned(), observed.done());
    m
}

fn raw(m: Manifest) -> RawManifest {
    RawManifest::parse(m.to_canonical_bytes().unwrap()).unwrap()
}

fn stored(d: &Digest) -> Result<u64, Error> {
    for role in roles() {
        if native(&role).hash == *d {
            return Ok(native(&role).size);
        }
    }
    Err(Error::NotFound { kind: "object", id: d.to_hex() })
}

fn plan<'a>(
    raw: &'a RawManifest,
    target: Option<&Fingerprint>,
    roles: &Vec<String>,
) -> RestorePlan<'a> {
    plan_restore(raw, target, roles, |_| Ok(()), stored).unwrap()
}

#[test]
fn different_cpu_architecture_restores_portable_checkpoint_without_native_objects() {
    let raw = raw(fixture());
    let plan = plan_restore(&raw, Some(&fingerprint("aarch64")), &roles(), |_| Ok(()), |d| {
        Err(Error::NotFound { kind: "object", id: d.to_hex() })
    })
    .unwrap();
    assert_eq!(plan.mode, RestoreMode::Portable);
    assert_eq!(plan.native.status, NativeStatus::FingerprintMismatch);
    assert!(plan.native.artifacts.is_empty());
    assert_eq!(
        plan.observation.unwrap().get("missing"),
        Some(&Json::Str("DATABASE_URL".to_owned()))
    );
    assert_eq!(plan.recipes.len(), 1);
    assert_eq!(plan.snapshot_id, raw.snapshot_id());
}

#[test]
fn exact_native_match_is_verified_and_corrupt_cache_falls_back_without_deletion() {
    let raw = raw(fixture());
    let first = plan(&raw, Some(&fingerprint("x86_64")), &roles());
    assert_eq!(first.mode, RestoreMode::Native);
    assert!(first.portable.available);
    let broken = first.native.artifacts[0].hash;
    let second = plan_restore(&raw, Some(&fingerprint("x86_64")), &roles(), |_| Ok(()), |d| {
        if *d == broken {
            Ok(7)
        } else {
            stored(d)
        }
    })
    .unwrap();
    assert_eq!(second.mode, RestoreMode::Portable);
    assert_eq!(second.native.status, NativeStatus::UnavailableObjects);
    assert_eq!(second.native.unavailable_objects.len(), 1);
    assert!(second.native.unavailable_objects[0].error.contains("size differs"));
}

#[test]
fn captured_host_is_never_used_as_receiver_and_cpu_model_must_match() {
    let raw = raw(fixture());
    assert_eq!(plan(&raw, None, &roles()).native.status, NativeStatus::TargetRequired);
    assert_eq!(
        plan(&raw, Some(&fingerprint("x86_64")), &Vec::new()).native.status,
        NativeStatus::RolesRequired
    );
    let target = fingerprint("x86_64").with_extra("cpu".to_owned(), "another-cpu".to_owned());
    assert_eq!(
        plan(&raw, Some(&target), &roles()).native.status,
        NativeStatus::FingerprintMismatch
    );
}

#[test]
fn incomplete_and_ambiguous_native_roles_never_resume() {
    let mut manifest = fixture();
    manifest.native.pop();
    let missing = raw(manifest.clone());
    let first = plan(&missing, Some(&fingerprint("x86_64")), &roles());
    assert_eq!(first.native.status, NativeStatus::MissingRoles);
    assert_eq!(first.native.missing_roles, ["disk"]);
    let duplicate = manifest.native[0].clone();
    manifest.native.push(duplicate);
    let ambiguous = raw(manifest);
    assert_eq!(
        plan(&ambiguous, Some(&fingerprint("x86_64")), &roles()).native.status,
        NativeStatus::AmbiguousRoles
    );
}

#[test]
fn unavailable_portable_objects_are_reported_before_materialization() {
    let raw1 = raw(fixture());
    let leaf = Digest::of(b"leaf");
    let first = plan_restore(&raw1, Some(&fingerprint("aarch64")), &roles(), |_| {
        Err(Error::NotFound { kind: "object", id: leaf.to_hex() })
    }, stored)
    .unwrap();
    assert_eq!(first.mode, RestoreMode::Unavailable);
    assert!(first.portable.error.unwrap().contains(&leaf.to_hex()));
    let twice = vec!["memory".to_owned(), "memory".to_owned()];
    assert!(plan_restore(&raw1, None, &twice, |_| Ok(()), stored).is_err());
    assert!(plan_restore(&raw1, None, &vec![String::new()], |_| Ok(()), stored).is_err());
    let mut bare = fixture();
    bare.files = None;
    bare.native = Vec::new();
    let bare = raw(bare);
    let second = plan(&bare, None, &Vec::new());
    assert_eq!(second.mode, RestoreMode::Unavailable);
    assert_eq!(second.native.status, NativeStatus::Absent);
    assert!(second.portable.error.unwrap().contains("portable file tree"));
}

struct Blobs {
    content: Vec<Vec<u8>>,
}

impl Blobs {
    fn put(&mut self, bytes: &[u8]) -> Digest {
        self.content.push(bytes.to_vec());
        Digest::of(bytes)
    }

    fn put_entry(&mut self, name: &str, mode: EntryMode, hash: Digest) -> Digest {
        let entry = TreeEntry { name: name.to_owned(), mode, hash };
        self.put(&Tree::new(vec![entry]).unwrap().encode())
    }

    fn wrap(&mut self, mut hash: Digest, count: usize, name: &str) -> Digest {
        for _ in 0..count {
            hash = self.put_entry(name, EntryMode::Tree, hash);
        }
        hash
    }

    fn get(&self, hash: &Digest) -> Result<Vec<u8>, Error> {
        let found = self.content.iter().find(|bytes| Digest::of(bytes) == *hash);
        read_blob(hash, found.cloned())
    }

    fn collect(&self, root: &Digest) -> Result<TreeWalk, Error> {
        let mut walk = TreeWalk::start(*root);
        while let Some(hash) = walk.wanted() {
            walk.supply(&self.get(&hash)?)?;
        }
        Ok(walk)
    }

    fn check(&self, root: &Digest) -> Result<(), Error> {
        let walk = self.collect(root)?;
        for (hash, _) in &walk.seen.entries {
            walk.check_object(hash, &self.get(hash)?)?;
        }
        Ok(())
    }
}

#[test]
fn portable_preflight_and_materialization_reject_the_same_invalid_trees() {
    let mut cas = Blobs { content: vec![] };
    let invalid_link = cas.put(b"bad\0target");
    let linked_wrong = cas.put_entry("link", EntryMode::Link, invalid_link);
    let empty = cas.put(&Tree::new(vec![]).unwrap().encode());
    let too_deep = cas.wrap(empty, 513, "d");
    let too_long = cas.wrap(empty, 17, &"d".repeat(255));
    for (tree, reason) in
        [(linked_wrong, "NUL"), (too_deep, "depth exceeds"), (too_long, "path exceeds")]
    {
        let mut manifest = fixture();
        manifest.files = Some(tree);
        manifest.native = vec![];
        let raw = raw(manifest);
        let plan = plan_restore(&raw, None, &vec![], |root| cas.check(root), stored).unwrap();
        assert_eq!(plan.mode, RestoreMode::Unavailable);
        assert!(plan.portable.error.unwrap().contains(reason));
        assert!(cas.check(&tree).unwrap_err().message().contains(reason));
    }
    assert!(cas.collect(&too_deep).unwrap_err().message().contains("depth exceeds"));
    assert!(cas.collect(&too_long).unwrap_err().message().contains("path exceeds"));
    // The same content is no trouble as a file, and what lies within the limits is fine.
    let plain = cas.put_entry("file", EntryMode::File, invalid_link);
    let deep = cas.wrap(empty, 512, "d");
    let long = cas.wrap(empty, 16, &"d".repeat(255));
    for tree in [plain, deep, long] {
        cas.check(&tree).unwrap();
    }
    // A directory that is reached twice is held to the longer of its paths.
    let inner = cas.wrap(empty, 300, "d");
    let outer = cas.wrap(inner, 300, "d");
    let both = Tree::new(vec![
        TreeEntry { name: "a".to_owned(), mode: EntryMode::Tree, hash: inner },
        TreeEntry { name: "b".to_owned(), mode: EntryMode::Tree, hash: outer },
    ])
    .unwrap();
    let root = cas.put(&both.encode());
    assert!(cas.collect(&root).unwrap_err().message().contains("depth exceeds"));
}
