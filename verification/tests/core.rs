use abra::base64::{base64_decode, base64_encode};
use abra::bytes::{be_at, push_be64};
use abra::canonical;
use abra::capsule::random_capsule_id;
use abra::cas::{Digest, EntryMode, Tree, TreeEntry};
use abra::checksum::Checksum;
use abra::crypto;
use abra::error::Error;
use abra::identity::{DeviceKeys, Identity, PeerId, Signature};
use abra::json::Json;
use abra::manifest::{
    Fingerprint, Lease, Manifest, NativeBlobRef, Provenance, RawManifest, Recipe, KIND_HANDOFF,
    KIND_WORKSPACE,
};
use abra::record::Object;
use abra::util::{hex_decode_fixed, hex_encode, now_ms};
use abra::walk;
use std::str::FromStr;

fn json(text: &str) -> Json {
    canonical::read_json(text.as_bytes()).unwrap()
}

#[test]
fn hash_matches_blake3() {
    assert_eq!(
        Digest::of(b"abra").as_bytes(),
        blake3::hash(b"abra").as_bytes()
    );
}

#[test]
fn hash_hex_roundtrip() {
    let h = Digest::of(b"abra");
    assert_eq!(Digest::from_str(&h.to_hex()).unwrap(), h);
    assert_eq!(h.to_hex().len(), 64);
}

#[test]
fn blobs_are_sharded_like_git() {
    let h = Digest::of(b"hello");
    let hex = h.to_hex();
    let path = walk::path_for(&h);
    assert_eq!(path.last().unwrap(), &hex[2..]);
    assert_eq!(path[path.len() - 2], &hex[..2]);
}

#[test]
fn stored_bytes_are_checked_against_their_hash() {
    let h = Digest::of(b"hello");
    walk::check_blob(&h, b"hello").unwrap();
    assert!(matches!(walk::check_blob(&h, b"tampered"), Err(Error::Corrupt { .. })));
}

fn entry(name: &str, mode: EntryMode, content: &[u8]) -> TreeEntry {
    TreeEntry { name: name.to_owned(), mode, hash: Digest::of(content) }
}

#[test]
fn tree_encode_decode_roundtrip() {
    let tree = Tree::new(vec![
        entry("z.txt", EntryMode::File, b"z"),
        entry("a.sh", EntryMode::Exec, b"a"),
        entry("sub", EntryMode::Tree, b"sub"),
        entry("l", EntryMode::Link, b"target"),
    ])
    .unwrap();
    let bytes = tree.encode();
    assert!(bytes.starts_with(b"abra.tree.v1\n"));
    let back = Tree::decode(&bytes).unwrap();
    assert_eq!(back, tree);
    assert_eq!(back.hash(), tree.hash());
}

#[test]
fn tree_entries_are_sorted_so_hash_is_order_independent() {
    let a = entry("a", EntryMode::File, b"a");
    let b = entry("b", EntryMode::File, b"b");
    let one = Tree::new(vec![a.clone(), b.clone()]).unwrap();
    let two = Tree::new(vec![b, a]).unwrap();
    assert_eq!(one.hash(), two.hash());
    assert_eq!(one.entries()[0].name, "a");
}

#[test]
fn tree_rejects_bad_names() {
    for name in ["", ".", "..", "a/b", "a\0b"] {
        let r = Tree::new(vec![entry(name, EntryMode::File, b"x")]);
        assert!(r.is_err(), "accepted {name:?}");
    }
}

#[test]
fn tree_rejects_duplicate_names() {
    let e = entry("dup", EntryMode::File, b"x");
    assert!(Tree::new(vec![e.clone(), e]).is_err());
}

#[test]
fn tree_decode_rejects_garbage() {
    assert!(Tree::decode(b"").is_err(), "no magic");
    assert!(Tree::decode(b"abra.tree.v1\nfile").is_err(), "truncated");
    assert!(
        Tree::decode(b"abra.tree.v1\nweird a\0").is_err(),
        "bad mode + truncated hash"
    );
}

#[test]
fn tree_decode_rejects_unsorted_entries() {
    let mut bytes = Vec::from("abra.tree.v1\n".as_bytes());
    for name in ["b", "a"] {
        bytes.extend_from_slice(b"file ");
        bytes.extend_from_slice(name.as_bytes());
        bytes.push(0);
        bytes.extend_from_slice(Digest::of(name.as_bytes()).as_bytes());
    }
    assert!(matches!(Tree::decode(&bytes), Err(Error::Corrupt { .. })));
}

#[test]
fn empty_tree_roundtrips() {
    let t = Tree::new(vec![]).unwrap();
    assert!(t.is_empty());
    assert_eq!(Tree::decode(&t.encode()).unwrap(), t);
}

#[test]
fn snapshot_dir_skips_only_the_abra_dir() {
    let file = |name: &str| walk::DirItem {
        name: name.to_owned(),
        kind: walk::FileKind::File,
        hash: Digest::of(name.as_bytes()),
    };
    let tree = walk::snapshot_listing(vec![
        file(".abra"),
        file(".git"),
        file(".env"),
        file("readme.md"),
    ])
    .unwrap();
    assert!(tree.get(".abra").is_none(), ".abra must be skipped");
    assert!(tree.get(".git").is_some(), ".git must be kept");
    assert!(tree.get(".env").is_some(), "no secret filtering in v1");
}

#[test]
fn collect_tree_hashes_covers_everything_needed() {
    let deep = Tree::new(vec![entry("x.txt", EntryMode::File, b"deep\n")]).unwrap();
    let root = Tree::new(vec![
        entry("readme.md", EntryMode::File, b"hello\n"),
        TreeEntry { name: "deep".to_owned(), mode: EntryMode::Tree, hash: deep.hash() },
    ])
    .unwrap();
    let mut w = walk::TreeWalk::start(root.hash());
    while let Some(h) = w.wanted() {
        let bytes = if h == root.hash() { root.encode() } else { deep.encode() };
        w.supply(&bytes).unwrap();
    }
    let hashes: Vec<Digest> = w.seen.entries.iter().map(|e| e.0).collect();
    assert!(hashes.contains(&root.hash()));
    assert!(hashes.contains(&deep.hash()));
    assert!(hashes.contains(&Digest::of(b"hello\n")));
    assert!(hashes.contains(&Digest::of(b"deep\n")));
    assert_eq!(hashes.len(), 4);
}

fn found_in(trees: &[&Tree]) -> Vec<Digest> {
    let mut w = walk::TreeWalk::start(trees[0].hash());
    while let Some(h) = w.wanted() {
        let tree = trees.iter().find(|t| t.hash() == h).unwrap();
        w.supply(&tree.encode()).unwrap();
    }
    w.seen.entries.iter().map(|e| e.0).collect()
}

fn named(name: &str, mode: EntryMode, hash: Digest) -> TreeEntry {
    TreeEntry { name: name.to_owned(), mode, hash }
}

#[test]
fn a_tree_that_is_also_stored_as_a_file_is_read() {
    let x = Digest::of(b"x");
    let t = Tree::new(vec![named("x", EntryMode::File, x)]).unwrap();
    let root = Tree::new(vec![
        named("a", EntryMode::File, t.hash()),
        named("b", EntryMode::Tree, t.hash()),
    ])
    .unwrap();
    let mut expected = vec![root.hash(), t.hash(), x];
    expected.sort();
    assert_eq!(found_in(&[&root, &t]), expected);

    let t1 = Tree::new(vec![named("x", EntryMode::Tree, t.hash())]).unwrap();
    let root = Tree::new(vec![
        named("a", EntryMode::Tree, t1.hash()),
        named("b", EntryMode::File, t.hash()),
    ])
    .unwrap();
    let mut expected = vec![root.hash(), t1.hash(), t.hash(), x];
    expected.sort();
    assert_eq!(found_in(&[&root, &t1, &t]), expected);
}

#[test]
fn a_stored_tree_is_read_back_or_refused() {
    let tree = Tree::new(vec![entry("x", EntryMode::File, b"x")]).unwrap();
    let hash = tree.hash();
    assert_eq!(walk::read_tree(&hash, Some(tree.encode())).unwrap(), tree);
    assert_eq!(walk::read_blob(&hash, Some(tree.encode())).unwrap(), tree.encode());
    let mut changed = tree.encode();
    changed[0] ^= 1;
    assert!(matches!(
        walk::read_tree(&hash, Some(changed.clone())),
        Err(Error::Corrupt { .. })
    ));
    assert!(matches!(walk::read_blob(&hash, Some(changed)), Err(Error::Corrupt { .. })));
    assert!(matches!(walk::read_tree(&hash, None), Err(Error::NotFound { .. })));
    assert!(matches!(walk::read_blob(&hash, None), Err(Error::NotFound { .. })));
}

#[test]
fn hex_roundtrip() {
    let bytes = [0u8, 1, 2, 250, 255];
    let s = hex_encode(&bytes);
    assert_eq!(s, "000102faff");
    assert_eq!(hex_decode_fixed::<5>(&s, "test").unwrap(), bytes);
}

#[test]
fn hex_decode_rejects_wrong_length() {
    assert!(hex_decode_fixed::<4>("00112233445566", "test").is_err());
}

#[test]
fn hex_decode_rejects_non_hex() {
    assert!(hex_decode_fixed::<2>("zzzz", "test").is_err());
    assert!(hex_decode_fixed::<2>("AABB", "test").is_err());
    assert!(hex_decode_fixed::<2>("aab", "test").is_err());
}

#[test]
fn now_ms_is_after_2020() {
    assert!(now_ms() > 1_577_836_800_000);
}

#[test]
fn cjson_profile() {
    let mut o = Object::new();
    o.put_str("z", "\u{2028}\\\"");
    o.put_str("a", "\u{0001}\n");
    assert_eq!(
        canonical::to_string(&o.done()).unwrap(),
        "{\"a\":\"\\u0001\\n\",\"z\":\"\u{2028}\\\\\\\"\"}"
    );
    for b in [
        b"{\"b\":1,\"a\":2}".as_slice(),
        b"{ \"a\":1}".as_slice(),
        b"{\"a\":1.0}".as_slice(),
        b"{\"a\":1,\"a\":1}".as_slice(),
    ] {
        assert!(canonical::validate_canonical(b).is_err())
    }
    assert!(canonical::to_vec(&json("{\"core\":-1}")).is_err());
    assert!(canonical::to_vec(&json("{\"payload\":{\"n\":-1}}")).is_ok())
}

#[test]
fn canonical_json_is_accepted_and_read_back() {
    let text = "{\"a\":[1,true,null,\"x\"],\"b\":{\"c\":9007199254740991}}";
    let v = canonical::validate_canonical(text.as_bytes()).unwrap();
    assert_eq!(canonical::to_string(&v).unwrap(), text);
    assert!(canonical::to_vec(&json("{\"n\":9007199254740992}")).is_err());
    assert!(canonical::validate_canonical(b"\xef\xbb\xbf{}").is_err());
    assert!(canonical::validate_canonical(b"{").is_err());
}

#[test]
fn signature_preimage_and_short_id() {
    let i = Identity::from_secret_bytes(&[1; 32]);
    assert_eq!(i.short_id().to_hex().len(), 8);
    let s = i.sign("snapshot", b"x");
    i.peer_id().verify("snapshot", b"x", &s).unwrap();
    assert!(i.peer_id().verify("lease", b"x", &s).is_err());
    assert!(i.peer_id().verify("snapshot", b"y", &s).is_err());
    assert!(PeerId::from_bytes([2; 32]).verify("snapshot", b"x", &s).is_err());
}

#[test]
fn signing_keys_are_those_of_ed25519() {
    let i = Identity::from_secret_bytes(&[7; 32]);
    let key = ed25519_dalek::SigningKey::from_bytes(&[7; 32]);
    assert_eq!(i.peer_id().to_bytes(), key.verifying_key().to_bytes());
    assert!(i.peer_id().is_valid_key());
    assert_ne!(Identity::generate().peer_id(), Identity::generate().peer_id());
}

#[test]
fn key_files_are_read_back() {
    let keys = DeviceKeys::generate();
    let file = keys.to_file();
    let back = DeviceKeys::from_file(&file).unwrap();
    assert_eq!(back.identity.secret_bytes(), keys.identity.secret_bytes());
    assert_eq!(back.x25519_secret, keys.x25519_secret);
    assert_eq!(back.relay_discovery_key, keys.relay_discovery_key);
    assert_eq!(back.x25519_public(), keys.x25519_public());
    let text = String::from_utf8(file.to_bytes()).unwrap();
    assert!(text.starts_with("{\"ed25519_secret\":\""));
    assert!(text.contains("\"spec\":\"0.1\""));
    let mut old = keys.to_file();
    old.spec = "9".to_owned();
    assert!(matches!(DeviceKeys::from_file(&old), Err(Error::UnsupportedKeys { .. })));
    let mut bad = keys.to_file();
    bad.x25519_secret = "00".to_owned();
    assert!(matches!(DeviceKeys::from_file(&bad), Err(Error::Encoding { .. })));
    assert!(Identity::from_file(&[1; 31]).is_err());
    assert_eq!(
        Identity::from_file(&[1; 32]).unwrap().peer_id(),
        Identity::from_secret_bytes(&[1; 32]).peer_id()
    );
}

#[test]
fn two_sides_share_a_secret() {
    let a = DeviceKeys::generate();
    let b = DeviceKeys::generate();
    let ab = crypto::shared_secret(&a.x25519_secret, &b.x25519_public());
    assert_eq!(ab, crypto::shared_secret(&b.x25519_secret, &a.x25519_public()));
    assert_ne!(ab, a.x25519_secret);
}

#[test]
fn sealed_messages_open_only_as_they_were_sealed() {
    let c = crypto::seal_message(&[1; 32], &[2; 12], b"about", b"hello").unwrap();
    assert_eq!(c.len(), 21);
    assert_eq!(crypto::open_message(&[1; 32], &[2; 12], b"about", &c).unwrap(), b"hello");
    assert!(crypto::open_message(&[3; 32], &[2; 12], b"about", &c).is_none());
    assert!(crypto::open_message(&[1; 32], &[2; 12], b"other", &c).is_none());
}

#[test]
fn sha256_of_nothing() {
    assert_eq!(
        hex_encode(&crypto::sha256(b"")),
        "e3b0c44298fc1c149afbf4c8996fb92427ae41e4649b934ca495991b7852b855"
    );
}

#[test]
fn hashing_in_pieces_is_hashing_at_once() {
    let sum = Checksum::new().update(b"correct ").update(b"bytes");
    assert_eq!(sum.count(), 13);
    assert_eq!(sum.digest(), Digest::of(b"correct bytes"));
}

#[test]
fn base64_has_no_padding_and_one_text_for_each_value() {
    assert_eq!(base64_encode(b"hi?>"), "aGk_Pg");
    assert_eq!(base64_decode("aGk_Pg").unwrap(), b"hi?>");
    assert!(base64_decode("aGk/Pg").is_none());
    assert!(base64_decode("aGk_Pg==").is_none());
    assert!(base64_decode("aGk_Ph").is_none());
}

#[test]
fn numbers_are_written_with_their_largest_byte_first() {
    let mut out = Vec::new();
    push_be64(&mut out, 0x0102_0304_0506_0708);
    assert_eq!(out, [1, 2, 3, 4, 5, 6, 7, 8]);
    assert_eq!(be_at(&out, 0, 8), 0x0102_0304_0506_0708);
}

fn peer() -> PeerId {
    Identity::generate().peer_id()
}

fn full() -> Manifest {
    Manifest::full(
        KIND_WORKSPACE.to_owned(),
        "abra workspace".to_owned(),
        PeerId::from_bytes([4; 32]),
        1_756_300_000_000,
        Digest::of(b"capsule"),
    )
}

fn partial() -> Manifest {
    Manifest::partial(
        KIND_HANDOFF.to_owned(),
        "handoff".to_owned(),
        peer(),
        1_756_300_000_000,
    )
}

fn provenance(label: Option<&str>) -> Provenance {
    Provenance {
        capsule_id: random_capsule_id(),
        snapshot_hash: Digest::of(b"s"),
        label: label.map(str::to_owned),
    }
}

fn argv(words: &[&str]) -> Vec<String> {
    words.iter().map(|w| w.to_string()).collect()
}

#[test]
fn full_and_partial_validate() {
    full().validate().unwrap();
    partial().validate().unwrap();
}

#[test]
fn serde_roundtrip_is_lossless() {
    let mut m = full();
    m.summary = Some("a summary".to_owned());
    m.link = Some("https://example.com/x".to_owned());
    m.thumbnail = Some(Digest::of(b"thumb"));
    m.files = Some(Digest::of(b"tree"));
    m.parents = vec![Digest::of(b"p1"), Digest::of(b"p2")];
    m.label = Some("turn 14".to_owned());
    m.lease = Some(Lease::expiring(peer(), 1_756_299_000_000, 3_600_000));
    m.recipes = vec![Recipe::new(argv(&["npm", "run", "dev"])).with_cwd("app".to_owned())];
    m.native = vec![NativeBlobRef::new(
        &Fingerprint::new("linux".to_owned(), "x86_64".to_owned(), "kvm".to_owned())
            .with_extra("fc-snap".to_owned(), "v11".to_owned()),
        "memory".to_owned(),
        Digest::of(b"mem"),
        2048,
    )];
    m.extra.insert("cursor".to_owned(), json("{\"line\":240}"));

    let bytes = m.to_canonical_bytes().unwrap();
    let back = Manifest::from_bytes(&bytes).unwrap();
    assert_eq!(back, m);
    assert_eq!(back.hash().unwrap(), m.hash().unwrap());
}

#[test]
fn absent_optionals_are_omitted_never_null() {
    let json = String::from_utf8(full().to_canonical_bytes().unwrap()).unwrap();
    assert!(!json.contains("null"), "{json}");
    for absent in ["summary", "link", "thumbnail", "files", "recipes", "extra"] {
        assert!(!json.contains(absent), "{absent} should be omitted: {json}");
    }
}

#[test]
fn hash_is_stable_across_field_order_and_reparse() {
    let m = full();
    let expected = m.hash().unwrap();

    // Same value, keys shuffled by a round trip through a plain map.
    let value: serde_json::Value =
        serde_json::from_slice(&m.to_canonical_bytes().unwrap()).unwrap();
    let shuffled = serde_json::to_vec(&value).unwrap();
    let back = Manifest::from_bytes(&shuffled).unwrap();
    assert_eq!(back.hash().unwrap(), expected);
}

#[test]
fn hash_changes_when_any_field_changes() {
    let base = full().hash().unwrap();

    let mut other = full();
    other.title = "different".to_owned();
    assert_ne!(other.hash().unwrap(), base);

    let mut other = full();
    other.files = Some(Digest::of(b"tree"));
    assert_ne!(other.hash().unwrap(), base);

    let mut other = full();
    other.parents = vec![Digest::of(b"p")];
    assert_ne!(other.hash().unwrap(), base);
}

#[test]
fn unknown_fields_are_preserved_so_the_hash_still_verifies() {
    // A manifest written by a future build, with a field we know nothing
    // about.
    let text = String::from_utf8(full().to_canonical_bytes().unwrap()).unwrap();
    let mut value = json(&text);
    if let Json::Obj(t) = &mut value {
        t.insert("future_field".to_owned(), json("{\"b\":2,\"a\":[1]}"));
    }
    let bytes = canonical::to_vec(&value).unwrap();
    let hash = Digest::of(&bytes);

    let m = Manifest::from_bytes(&bytes).unwrap();
    assert_eq!(
        m.unknown.get(&"future_field".to_owned()),
        Some(&json("{\"b\":2,\"a\":[1]}"))
    );
    assert_eq!(
        m.hash().unwrap(),
        hash,
        "an unknown field must survive the round trip"
    );
    assert_eq!(m.to_canonical_bytes().unwrap(), bytes);
}

#[test]
fn unknown_map_may_not_shadow_a_known_field() {
    let mut m = full();
    m.unknown.insert("title".to_owned(), Json::Str("shadow".to_owned()));
    assert!(m.validate().is_err());
}

#[test]
fn floor_fields_are_required() {
    let mut m = full();
    m.kind = String::new();
    assert!(m.validate().is_err());

    let mut m = full();
    m.title = String::new();
    assert!(m.validate().is_err());

    let mut m = full();
    m.created_at = 0;
    assert!(m.validate().is_err());
}

#[test]
fn a_card_renders_from_the_floor_alone() {
    let mut m = partial();
    m.summary = Some("picking up the lease path".to_owned());
    let card = m.card();
    assert!(card.contains("handoff"));
    assert!(card.contains(KIND_HANDOFF));
    assert!(card.contains("picking up the lease path"));
    assert!(card.contains(&m.origin.to_hex()));
}

#[test]
fn full_requires_a_capsule_and_rejects_provenance() {
    let mut m = full();
    m.capsule_id = None;
    assert!(m.validate().is_err());

    let mut m = full();
    m.provenance = Some(provenance(None));
    assert!(m.validate().is_err());
}

#[test]
fn partial_rejects_lineage_and_lease() {
    let mut m = partial();
    m.capsule_id = Some(random_capsule_id());
    assert!(m.validate().is_err());

    let mut m = partial();
    m.parents = vec![Digest::of(b"p")];
    assert!(m.validate().is_err());

    let mut m = partial();
    m.lease = Some(Lease::new(peer(), 1));
    assert!(m.validate().is_err());
}

#[test]
fn partial_may_carry_provenance_without_joining_the_dag() {
    let mut m = partial();
    m.provenance = Some(provenance(Some("turn 14")));
    m.validate().unwrap();
    assert!(m.parents.is_empty());
    assert!(m.capsule_id.is_none());
    let back = Manifest::from_bytes(&m.to_canonical_bytes().unwrap()).unwrap();
    assert_eq!(back, m);
}

#[test]
fn unsupported_spec_is_rejected() {
    let mut m = full();
    m.abra_spec = 99;
    assert!(matches!(
        m.validate(),
        Err(Error::UnsupportedSpec { found: 99, .. })
    ));
}

#[test]
fn recipes_must_be_runnable_somewhere_relative() {
    let mut m = full();
    m.recipes = vec![Recipe::new(Vec::new())];
    assert!(m.validate().is_err(), "empty argv");

    for bad in ["/abs/path", "../escape", "a/../../b"] {
        let mut m = full();
        m.recipes = vec![Recipe::new(argv(&["sh"])).with_cwd(bad.to_owned())];
        assert!(m.validate().is_err(), "accepted cwd {bad:?}");
    }

    for good in ["", "app", "a/b/c", "a..b"] {
        let mut m = full();
        m.recipes = vec![Recipe::new(argv(&["sh"])).with_cwd(good.to_owned())];
        m.validate().unwrap();
    }
}

fn host(os: &str, arch: &str, hypervisor: &str) -> Fingerprint {
    Fingerprint::new(os.to_owned(), arch.to_owned(), hypervisor.to_owned())
}

#[test]
fn native_blobs_need_a_fingerprint_and_role() {
    let fp = host("linux", "x86_64", "kvm");
    let mut m = full();
    m.native = vec![NativeBlobRef::new(&fp, String::new(), Digest::of(b"x"), 1)];
    assert!(m.validate().is_err());

    let mut m = full();
    m.native = vec![NativeBlobRef {
        fingerprint: String::new(),
        role: "memory".to_owned(),
        hash: Digest::of(b"x"),
        size: 1,
    }];
    assert!(m.validate().is_err());
}

#[test]
fn fingerprint_renders_the_documented_shape() {
    let fp = host("linux", "x86_64", "kvm")
        .with_extra("fc-snap".to_owned(), "v11".to_owned())
        .with_extra("cpu-template".to_owned(), "none".to_owned());
    assert_eq!(
        fp.render(),
        "linux-kvm-x86_64/cpu-template-none/fc-snap-v11"
    );
    assert_eq!(host("linux", "x86_64", "kvm").render(), "linux-kvm-x86_64");
}

#[test]
fn a_plain_host_has_no_hypervisor() {
    let host = Fingerprint::of_host("linux".to_owned(), "x86_64".to_owned());
    assert_eq!(host.render(), "linux-none-x86_64");
}

#[test]
fn native_blobs_are_only_offered_to_a_matching_host() {
    let mine = host("linux", "x86_64", "kvm").with_extra("fc-snap".to_owned(), "v11".to_owned());
    let theirs = host("macos", "aarch64", "none");

    let mut m = full();
    m.native = vec![NativeBlobRef::new(&mine, "memory".to_owned(), Digest::of(b"mem"), 4)];

    assert_eq!(m.native_for(&mine).len(), 1);
    assert!(
        m.native_for(&theirs).is_empty(),
        "a mismatched host must not be offered the fast path"
    );

    // Same host class, different snapshot format version: not a match.
    let newer = host("linux", "x86_64", "kvm").with_extra("fc-snap".to_owned(), "v12".to_owned());
    assert!(m.native_for(&newer).is_empty());
}

#[test]
fn lease_expiry() {
    let p = peer();
    let l = Lease::expiring(p, 1000, 500);
    assert_eq!(l.expires_at, Some(1500));
    assert!(!l.is_expired(1499));
    assert!(l.is_expired(1500));
    assert!(!Lease::new(p, 1000).is_expired(u64::MAX));
    assert_eq!(Lease::expiring(p, u64::MAX, 1).expires_at, Some(u64::MAX));
}

#[test]
fn store_and_load_from_the_blob_store() {
    let mut m = full();
    m.summary = Some("stored".to_owned());
    let bytes = m.to_canonical_bytes().unwrap();
    let hash = Digest::of(&bytes);
    assert_eq!(hash, m.hash().unwrap());
    let back = Manifest::from_bytes(&bytes).unwrap();
    back.check_loaded(&hash).unwrap();
    assert_eq!(back, m);
}

#[test]
fn load_rejects_a_manifest_stored_under_the_wrong_hash() {
    let m = full();
    // Non-canonical bytes hash to something the manifest itself would never produce.
    let value: serde_json::Value =
        serde_json::from_slice(&m.to_canonical_bytes().unwrap()).unwrap();
    let pretty = serde_json::to_vec_pretty(&value).unwrap();
    let hash = Digest::of(&pretty);
    let back = Manifest::from_bytes(&pretty).unwrap();
    assert!(matches!(
        back.check_loaded(&hash),
        Err(Error::Corrupt { .. })
    ));
    assert!(RawManifest::parse(pretty).is_err());
}

#[test]
fn raw_manifests_are_read_from_their_canonical_bytes_only() {
    let mut m = full();
    m.lease = Some(Lease::new(peer(), 7));
    m.recipes = vec![Recipe::new(argv(&["sh"]))];
    m.recipes[0].ports = vec![80, 443];
    m.recipes[0].started_at = Some(12);
    m.recipes[0].env.insert("A".to_owned(), "b".to_owned());
    let bytes = m.to_canonical_bytes().unwrap();
    let raw = RawManifest::parse(bytes.clone()).unwrap();
    assert_eq!(raw.manifest(), &m);
    assert_eq!(raw.bytes(), &bytes[..]);
    assert_eq!(raw.snapshot_id(), Digest::of(&bytes));
    assert!(RawManifest::parse(b"{}".to_vec()).is_err());
    assert!(RawManifest::parse(b"nope".to_vec()).is_err());
    let mut spaced = bytes.clone();
    spaced.push(b' ');
    assert!(RawManifest::parse(spaced).is_err());
    let mut invalid = full();
    invalid.title = String::new();
    assert!(RawManifest::parse(invalid.to_canonical_bytes().unwrap()).is_err());
}

#[test]
fn errors_are_one_line_of_text() {
    assert_eq!(Error::Invalid("x").message(), "invalid: x");
    assert_eq!(
        Error::NotFound { kind: "snapshot", id: "ab".to_owned() }.message(),
        "snapshot not found: ab"
    );
    assert_eq!(Signature::from_bytes([0; 64]).to_hex().len(), 128);
}
