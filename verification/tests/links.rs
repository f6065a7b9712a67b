use abra::cas::Digest;
use abra::cli::share::{
    capability_public_url, check_revocable, complete_record, fetch_plan, fill_template,
    link_expiry, parse_capability_url, record_line, revoke_hook, share_url, Fetch,
};
use abra::identity::Identity;
use abra::link::{self, LinkMode};
use abra::manifest::{Manifest, RawManifest};
use abra::store::AbraStore;

fn raw() -> RawManifest {
    let m = Manifest::partial(
        "dev.abra.bundle".to_owned(),
        "t".to_owned(),
        Identity::from_secret_bytes(&[3; 32]).peer_id(),
        1_800_000_000_000,
    );
    RawManifest::parse(m.to_canonical_bytes().unwrap()).unwrap()
}

fn objects() -> Vec<(Digest, Vec<u8>)> {
    [b"one".to_vec(), Vec::new(), b"three".to_vec()]
        .into_iter()
        .map(|b| (Digest::of(&b), b))
        .collect()
}

fn minted(id: &Identity) -> link::MintedLink {
    link::mint(
        &raw(),
        &objects(),
        2000,
        "later".to_owned(),
        LinkMode::Full,
        "file:///x".to_owned(),
        id,
    )
    .unwrap()
}

#[test]
fn a_link_opens_to_what_it_was_made_of_until_it_expires() {
    let id = Identity::generate();
    let m = minted(&id);
    assert!(m.blob.starts_with(b"ABRACAP1"));
    let pack = link::open(&m.blob, &m.key, 2000).unwrap();
    assert_eq!(pack.snapshot_id, raw().snapshot_id());
    assert_eq!(link::pack_objects(&pack).unwrap(), objects());
    assert_eq!(link::check_pack(&pack).unwrap(), raw());
    let said = |blob: &[u8], key: &[u8; 32], now: u64| {
        link::open(blob, key, now).unwrap_err().message()
    };
    assert_eq!(said(&m.blob, &m.key, 2001), "invalid: capability link expired");
    assert_eq!(
        said(&m.blob, &[0; 32], 1),
        "invalid: wrong capability key or damaged blob"
    );
    assert_eq!(said(b"ABRACAPX", &m.key, 1), "invalid: capability link was revoked");
    assert_eq!(said(b"ABRACAP1", &m.key, 1), "invalid: invalid capability blob header");
    assert_eq!(
        said(&m.blob[..m.blob.len() - 1], &m.key, 1),
        "invalid: invalid capability ciphertext length"
    );
    let mut damaged = m.blob.clone();
    let last = damaged.len() - 1;
    damaged[last] ^= 1;
    assert!(link::open(&damaged, &m.key, 1).is_err());
    let mut extended = m.blob.clone();
    extended[28] = 0xff;
    assert!(link::open(&extended, &m.key, 1).is_err());
}

#[test]
fn links_have_bounded_size() {
    let big = vec![(Digest::of(b"x"), vec![0u8; link::MAX_CAPABILITY_OBJECT_BYTES + 1])];
    let id = Identity::generate();
    let e = link::mint(
        &raw(),
        &big,
        1,
        String::new(),
        LinkMode::Full,
        String::new(),
        &id,
    )
    .unwrap_err();
    assert!(e.message().contains("32 MiB"));
    assert_eq!(link::base64_len(0), 0);
    assert_eq!(link::base64_len(1), 2);
    assert_eq!(link::base64_len(3), 4);
    assert_eq!(link::base64_len(usize::MAX), usize::MAX / 3);
}

#[test]
fn packs_are_checked_object_by_object() {
    let id = Identity::generate();
    let m = minted(&id);
    let pack = link::open(&m.blob, &m.key, 1).unwrap();
    let mut wrong = pack.clone();
    wrong.blobs[0].digest = Digest::of(b"other");
    assert!(link::check_pack(&wrong).unwrap_err().message().contains("digest mismatch"));
    let mut wrong = pack.clone();
    wrong.blobs[0].data = "***".to_owned();
    assert!(link::check_pack(&wrong).is_err());
    let mut wrong = pack.clone();
    wrong.snapshot_id = Digest::of(b"other");
    assert!(link::check_pack(&wrong).unwrap_err().message().contains("id mismatch"));
    let mut wrong = pack;
    wrong.pack_type = "x".to_owned();
    assert!(link::check_pack(&wrong).unwrap_err().message().contains("invalid capability pack"));
}

#[test]
fn records_are_signed_listed_and_taken_back() {
    let id = Identity::generate();
    let other = Identity::generate();
    let a = minted(&id).record;
    let b = minted(&id).record;
    a.verify(&id).unwrap();
    assert!(a.verify(&other).is_err());
    let (name, bytes) = link::save_record(&a);
    assert_eq!(name, format!("{}.cjson", a.link_id));
    assert!(String::from_utf8(bytes.clone()).unwrap().contains("\"mode\":\"full\""));
    let (_, b_bytes) = link::save_record(&b);
    let files = vec![(bytes.clone(), a.clone()), (b_bytes, b.clone())];
    let listed = link::list_records(files.clone(), &id).unwrap();
    assert!(listed[0].link_id <= listed[1].link_id);
    assert!(link::list_records(files, &other).is_err());
    assert!(link::list_records(vec![(b"{ }".to_vec(), a.clone())], &id).is_err());
    let gone = link::revoke_record(listed, &a.link_id, &id).unwrap();
    assert!(gone.revoked);
    gone.verify(&id).unwrap();
    assert!(link::revoke_record(vec![a.clone()], "nope", &id).is_err());
    assert_eq!(link::revoked_file(&a).unwrap(), "/x");
    let done = complete_record(
        a,
        "https://h/b".to_owned(),
        Digest::of(b"c"),
        "/y".to_owned(),
        Some("rm {file} {hash} {url}".to_owned()),
        &id,
    );
    done.verify(&id).unwrap();
    assert_eq!(link::revoked_file(&done).unwrap(), "/y");
    assert_eq!(
        revoke_hook(&done).unwrap().unwrap(),
        format!("rm /y {} https://h/b", Digest::of(b"c").to_hex())
    );
    assert!(record_line(&done).ends_with("\tFull\tlater\tactive"));
    let mut bare = done.clone();
    bare.revoke_command = None;
    assert!(revoke_hook(&bare).is_err());
    assert_eq!(revoke_hook(&b).unwrap(), None);
}

#[test]
fn snapshots_are_found_in_the_inbox_first() {
    let mut store = AbraStore::new();
    let id = raw().snapshot_id();
    assert!(link::find_snapshot(&store, id).is_err());
    store.receive_partial(raw(), "x".to_owned(), "now".to_owned()).unwrap();
    assert!(matches!(link::find_snapshot(&store, id), Ok(link::Found::Inbox(_))));
}

#[test]
fn capability_url_substitutes_ciphertext_hash() {
    let hash = Digest::of(b"ciphertext");
    assert_eq!(
        capability_public_url("http://127.0.0.1:8080/{hash}.abracap", hash, "unused"),
        format!("http://127.0.0.1:8080/{}.abracap", hash.to_hex())
    );
    assert_eq!(capability_public_url("file://old", hash, "/new"), "file:///new");
    assert_eq!(fill_template("{file}{file} {hash}", "a", "b", "c"), "aa b");
}

#[test]
fn shared_urls_give_the_blob_and_the_key_back() {
    let key = [9u8; 32];
    let plain = share_url("https://h/b", &key, None);
    assert_eq!(parse_capability_url(&plain).unwrap(), ("https://h/b".to_owned(), key));
    let viewed = share_url("https://h/b?x#y", &key, Some("https://viewer/#"));
    assert!(viewed.starts_with("https://viewer/#v=1&u="));
    assert_eq!(parse_capability_url(&viewed).unwrap(), ("https://h/b?x#y".to_owned(), key));
    for (url, said) in [
        ("https://h/b", "capability URL lacks key fragment"),
        ("https://h/b#AA", "capability key must be 32 bytes"),
        ("https://h/b#*", "invalid capability key"),
        ("https://h/#v=1&k=AA", "viewer URL lacks u fragment"),
        ("https://h/#u=*&k=AA", "invalid ciphertext URL encoding"),
        ("https://h/#u=aA", "viewer URL lacks k fragment"),
        ("https://h/#u=_w", "ciphertext URL is not UTF-8"),
    ] {
        assert_eq!(parse_capability_url(url).unwrap_err(), said, "{url}");
    }
}

#[test]
fn links_follow_the_rules_of_the_command_line() {
    assert_eq!(link_expiry(5, 10).unwrap(), 15);
    assert!(link_expiry(5, 2_592_000_001).is_err());
    assert!(link_expiry(u64::MAX, 1).is_err());
    check_revocable("file:///x", false).unwrap();
    check_revocable("https://x", true).unwrap();
    assert!(check_revocable("https://x", false).is_err());
    assert_eq!(fetch_plan("file:///a/b").unwrap(), Fetch::File("/a/b".to_owned()));
    assert_eq!(fetch_plan("https://x").unwrap(), Fetch::Web);
    assert!(fetch_plan("ftp://x").is_err());
}
