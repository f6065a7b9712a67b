//! The URLs of links, and the commands that carry their blobs elsewhere.
use vstd::prelude::*;
use vstd::utf8::{
    decode_utf8, encode_utf8, encode_utf8_decode_utf8, encode_utf8_valid_utf8, valid_utf8,
};

use crate::base64::{
    base64_bytes, base64_decode, base64_encode, base64_round_trip, base64_text, symbol, six_bits,
};
use crate::bytes::has_prefix;
use crate::capsule::signed_record;
use crate::cas::Digest;
use crate::cli::args::{find_char, index_of, index_unique, split_at_first, split_once, text_at};
use crate::identity::Identity;
use crate::link::{mint_members, LinkMode, MintRecord};
use crate::net::trust::{LocalRole, TrustStore};
use crate::text::{
    chars_of, concat, concat3, push_char, push_text, same_text, strip_prefix, utf8_text,
};
use crate::util::hex_text;

verus! {

/// The longest life of a link, in milliseconds.
pub const MAX_LINK_TTL_MS: u64 = 2_592_000_000;

/// Only a full device makes links or serves them.
pub fn check_link_host(trust: &TrustStore) -> (r: Result<(), &'static str>)
    ensures
        r == if trust.disk.local_role is Full {
            Ok::<(), &'static str>(())
        } else {
            Err("guest devices may not mint or host capability links")
        },
{
    match trust.local_role() {
        LocalRole::Full => Ok(()),
        LocalRole::Guest { token } => Err("guest devices may not mint or host capability links"),
    }
}

/// The time when a link expires.
pub fn link_expiry(now: u64, ttl: u64) -> (r: Result<u64, &'static str>)
    ensures
        r == if now + ttl > u64::MAX {
            Err::<u64, &'static str>("expiry overflow")
        } else if ttl > MAX_LINK_TTL_MS {
            Err("link TTL exceeds 30 days")
        } else {
            Ok((now + ttl) as u64)
        },
{
    match now.checked_add(ttl) {
        None => Err("expiry overflow"),
        Some(t) => if ttl > MAX_LINK_TTL_MS {
            Err("link TTL exceeds 30 days")
        } else {
            Ok(t)
        },
    }
}

/// The URL is that of a local file.
pub open spec fn is_local(url: Seq<char>) -> bool {
    has_prefix(url, "file://"@)
}

fn local_url(url: &str) -> (r: bool)
    ensures
        r == is_local(url@),
{
    strip_prefix(url, "file://").is_some()
}

/// A blob that is hosted elsewhere needs a command that takes it back.
pub fn check_revocable(url: &str, has_revoke_command: bool) -> (r: Result<(), &'static str>)
    ensures
        r == if is_local(url@) || has_revoke_command {
            Ok::<(), &'static str>(())
        } else {
            Err(
                "remote uploads require --revoke-command so revocation can tombstone the hosted blob",
            )
        },
{
    if local_url(url) || has_revoke_command {
        Ok(())
    } else {
        Err("remote uploads require --revoke-command so revocation can tombstone the hosted blob")
    }
}

/// A text with every occurrence of another replaced, from the left and without overlap.
pub open spec fn replaced(s: Seq<char>, from: Seq<char>, to: Seq<char>) -> Seq<char>
    decreases s.len(),
{
    if s.len() == 0 || from.len() == 0 {
        s
    } else if has_prefix(s, from) {
        to + replaced(s.skip(from.len() as int), from, to)
    } else {
        seq![s[0]] + replaced(s.skip(1), from, to)
    }
}

fn occurs_at(s: &Vec<char>, i: usize, p: &Vec<char>) -> (r: bool)
    requires
        i <= s@.len(),
    ensures
        r == has_prefix(s@.skip(i as int), p@),
{
    if s.len() - i < p.len() {
        return false;
    }
    let ghost t = s@.skip(i as int);
    let n = s.len();
    let mut k: usize = 0;
    while k < p.len()
        invariant
            k <= p@.len(),
            n == s@.len(),
            i + p@.len() <= n,
            t == s@.skip(i as int),
            forall|j: int| 0 <= j < k ==> t[j] == p@[j],
        decreases p.len() - k,
    {
        assert(t[k as int] == s@[i + k]);
        if s[i + k] != p[k] {
            assert(t.take(p@.len() as int)[k as int] != p@[k as int]);
            return false;
        }
        k += 1;
    }
    assert(t.take(p@.len() as int) =~= p@);
    true
}

/// Replaces every occurrence of a text that is not empty.
pub fn replace_all(s: &str, from: &str, to: &str) -> (r: String)
    requires
        from@.len() > 0,
    ensures
        r@ == replaced(s@, from@, to@),
{
    let chars = chars_of(s);
    let p = chars_of(from);
    let mut out = String::new();
    let mut i: usize = 0;
    assert(s@.skip(0) =~= s@);
    assert(Seq::<char>::empty() + replaced(s@, from@, to@) =~= replaced(s@, from@, to@));
    while i < chars.len()
        invariant
            i <= chars@.len(),
            chars@ == s@,
            p@ == from@,
            from@.len() > 0,
            out@ + replaced(s@.skip(i as int), from@, to@) == replaced(s@, from@, to@),
        decreases chars.len() - i,
    {
        let ghost rest = s@.skip(i as int);
        let ghost before = out@;
        if occurs_at(&chars, i, &p) {
            proof {
                assert(rest.skip(from@.len() as int) =~= s@.skip(i + from@.len()));
                let tail = replaced(s@.skip(i + from@.len()), from@, to@);
                assert(before + (to@ + tail) =~= (before + to@) + tail);
            }
            push_text(&mut out, to);
            i = i + p.len();
        } else {
            proof {
                assert(rest[0] == s@[i as int]);
                assert(rest.skip(1) =~= s@.skip(i + 1));
                let tail = replaced(s@.skip(i + 1), from@, to@);
                assert(before + (seq![s@[i as int]] + tail) =~= before.push(s@[i as int]) + tail);
            }
            push_char(&mut out, chars[i]);
            i = i + 1;
        }
    }
    proof {
        assert(s@.skip(i as int) =~= Seq::<char>::empty());
        assert(out@ + Seq::<char>::empty() =~= out@);
    }
    out
}

/// The command of a template.
pub open spec fn filled(template: Seq<char>, file: Seq<char>, hash: Seq<char>, url: Seq<char>) -> Seq<char> {
    replaced(replaced(replaced(template, "{file}"@, file), "{hash}"@, hash), "{url}"@, url)
}

/// Fills in a template: the file of a blob, its hash, and its URL.
pub fn fill_template(template: &str, file: &str, hash: &str, url: &str) -> (r: String)
    ensures
        r@ == filled(template@, file@, hash@, url@),
{
    proof {
        reveal_strlit("{file}");
        reveal_strlit("{hash}");
        reveal_strlit("{url}");
    }
    let a = replace_all(template, "{file}", file);
    let b = replace_all(a.as_str(), "{hash}", hash);
    replace_all(b.as_str(), "{url}", url)
}

/// The URL of a blob: that of its file, or the one that was asked for with the hash in it.
/// `path` is the absolute path of the file.
pub fn capability_public_url(configured: &str, hash: Digest, path: &str) -> (r: String)
    ensures
        r@ == if is_local(configured@) {
            "file://"@ + path@
        } else {
            replaced(configured@, "{hash}"@, hex_text(hash.0@))
        },
{
    if local_url(configured) {
        concat("file://", path)
    } else {
        proof {
            reveal_strlit("{hash}");
        }
        replace_all(configured, "{hash}", hash.to_hex().as_str())
    }
}

/// The record of a link once its blob is where it belongs.
pub fn complete_record(
    record: MintRecord,
    url: String,
    hash: Digest,
    path: String,
    revoke_command: Option<String>,
    identity: &Identity,
) -> (r: MintRecord)
    ensures
        r == (MintRecord {
            url,
            ciphertext_hash: Some(hash),
            local_path: Some(path),
            revoke_command,
            sig: r.sig,
            ..record
        }),
        signed_record(*identity, "cap-mint"@, mint_members(r, None), r.sig),
{
    let mut x = record;
    x.url = url;
    x.ciphertext_hash = Some(hash);
    x.local_path = Some(path);
    x.revoke_command = revoke_command;
    let ghost before = x;
    x.resign(identity);
    assert(mint_members(x, None) =~= mint_members(before, None));
    x
}

/// The command that takes a hosted blob back; none for a local file.
pub fn revoke_hook(record: &MintRecord) -> (r: Result<Option<String>, &'static str>)
    ensures
        if is_local(record.url@) {
            r == Ok::<Option<String>, &'static str>(None)
        } else {
            match record.revoke_command {
                None => r == Err::<Option<String>, &'static str>(
                    "remote capability has no revoke hook; hosted ciphertext was not revoked",
                ),
                Some(template) => r matches Ok(Some(c)) && c@ == filled(
                    template@,
                    match record.local_path {
                        Some(p) => p@,
                        None => ""@,
                    },
                    match record.ciphertext_hash {
                        Some(h) => hex_text(h.0@),
                        None => ""@,
                    },
                    record.url@,
                ),
            }
        },
{
    if local_url(record.url.as_str()) {
        return Ok(None);
    }
    match &record.revoke_command {
        None => Err("remote capability has no revoke hook; hosted ciphertext was not revoked"),
        Some(template) => {
            let file = match &record.local_path {
                Some(p) => p.clone(),
                None => "".to_owned(),
            };
            let hash = match &record.ciphertext_hash {
                Some(h) => h.to_hex(),
                None => "".to_owned(),
            };
            Ok(
                Some(
                    fill_template(
                        template.as_str(),
                        file.as_str(),
                        hash.as_str(),
                        record.url.as_str(),
                    ),
                ),
            )
        },
    }
}

/// One line about a link.
pub open spec fn record_text(r: MintRecord) -> Seq<char> {
    r.link_id@ + "\t"@ + hex_text(r.snapshot_id.0@) + "\t"@ + (match r.mode {
        LinkMode::Floor => "Floor"@,
        LinkMode::Full => "Full"@,
    }) + "\t"@ + r.expires_at@ + "\t"@ + (if r.revoked {
        "revoked"@
    } else {
        "active"@
    })
}

/// One line about a link.
pub fn record_line(r: &MintRecord) -> (s: String)
    ensures
        s@ == record_text(*r),
{
    let mut out = concat3(r.link_id.as_str(), "\t", r.snapshot_id.to_hex().as_str());
    push_text(&mut out, "\t");
    push_text(
        &mut out,
        match r.mode {
            LinkMode::Floor => "Floor",
            LinkMode::Full => "Full",
        },
    );
    push_text(&mut out, "\t");
    push_text(&mut out, r.expires_at.as_str());
    push_text(&mut out, "\t");
    push_text(
        &mut out,
        if r.revoked {
            "revoked"
        } else {
            "active"
        },
    );
    out
}

/// A text without the hash signs at its end.
pub open spec fn trimmed(s: Seq<char>) -> Seq<char>
    decreases s.len(),
{
    if s.len() > 0 && s.last() == '#' {
        trimmed(s.drop_last())
    } else {
        s
    }
}

fn trim_end(s: &str) -> (r: String)
    ensures
        r@ == trimmed(s@),
{
    let chars = chars_of(s);
    let mut n: usize = chars.len();
    assert(s@.take(n as int) =~= s@);
    while n > 0 && chars[n - 1] == '#'
        invariant
            n <= chars@.len(),
            chars@ == s@,
            trimmed(s@) == trimmed(s@.take(n as int)),
        decreases n,
    {
        proof {
            assert(s@.take(n as int).last() == s@[n - 1]);
            assert(s@.take(n as int).drop_last() =~= s@.take(n - 1));
        }
        n -= 1;
    }
    proof {
        if n > 0 {
            assert(s@.take(n as int).last() == s@[n - 1]);
        }
        assert(s@.subrange(0, n as int) =~= s@.take(n as int));
    }
    text_at(chars.as_slice(), 0, n)
}

/// The URL to share: that of the blob with the key behind it, or that of a viewer which finds both
/// in the fragment.
pub open spec fn shared(url: Seq<char>, key: Seq<u8>, viewer: Option<Seq<char>>) -> Seq<char> {
    match viewer {
        None => url + "#"@ + base64_text(key),
        Some(v) => trimmed(v) + "#v=1&u="@ + base64_text(encode_utf8(url)) + "&k="@ + base64_text(key),
    }
}

/// The URL to share.
pub fn share_url(url: &str, key: &[u8; 32], viewer: Option<&str>) -> (r: String)
    ensures
        r@ == shared(
            url@,
            key@,
            match viewer {
                Some(v) => Some(v@),
                None => None,
            },
        ),
{
    let encoded = base64_encode(key.as_slice());
    match viewer {
        None => concat3(url, "#", encoded.as_str()),
        Some(v) => {
            let mut out = concat3(
                trim_end(v).as_str(),
                "#v=1&u=",
                base64_encode(url.as_bytes()).as_str(),
            );
            push_text(&mut out, "&k=");
            push_text(&mut out, encoded.as_str());
            out
        },
    }
}

/// The value of the last field of a name, in fields with ampersands between them.
pub open spec fn field_value(s: Seq<char>, name: Seq<char>) -> Option<Seq<char>>
    decreases s.len(),
{
    let i = index_of(s, '&', 0);
    let own = match split_at_first(if 0 <= i <= s.len() {
        s.take(i)
    } else {
        s
    }, '=') {
        Some((k, v)) => if k == name {
            Some(v)
        } else {
            None
        },
        None => None,
    };
    if 0 <= i < s.len() {
        match field_value(s.skip(i + 1), name) {
            Some(v) => Some(v),
            None => own,
        }
    } else {
        own
    }
}

fn read_field(s: &str, name: &str) -> (r: Option<String>)
    ensures
        match r {
            Some(v) => field_value(s@, name@) == Some(v@),
            None => field_value(s@, name@) is None,
        },
{
    let chars = chars_of(s);
    let mut found: Option<String> = None;
    let mut from: usize = 0;
    assert(s@.skip(0) =~= s@);
    loop
        invariant
            from <= chars@.len(),
            chars@ == s@,
            field_value(s@, name@) == match field_value(s@.skip(from as int), name@) {
                Some(v) => Some(v),
                None => match found {
                    Some(f) => Some(f@),
                    None => None,
                },
            },
        decreases chars.len() - from,
    {
        let ghost rest = s@.skip(from as int);
        let tail = vstd::slice::slice_subrange(chars.as_slice(), from, chars.len());
        assert(tail@ =~= rest);
        let i = find_char(tail, '&');
        let part = text_at(tail, 0, i);
        assert(part@ =~= rest.take(i as int));
        match split_once(part.as_str(), '=') {
            Some((k, v)) => {
                if same_text(k.as_str(), name) {
                    found = Some(v);
                }
            },
            None => {},
        }
        if i == tail.len() {
            return found;
        }
        assert(rest.skip(i + 1) =~= s@.skip(from + i + 1));
        from = from + i + 1;
    }
}

/// The URL and the key of a shared link, as they stand in it.
pub open spec fn link_parts(url: Seq<char>) -> Result<(Seq<char>, Seq<char>), &'static str> {
    match split_at_first(url, '#') {
        None => Err("capability URL lacks key fragment"),
        Some((base, fragment)) => if has_prefix(fragment, "v=1&"@) || has_prefix(fragment, "u="@) {
            match field_value(fragment, "u"@) {
                None => Err("viewer URL lacks u fragment"),
                Some(u) => match base64_bytes(u) {
                    None => Err("invalid ciphertext URL encoding"),
                    Some(b) => if !valid_utf8(b) {
                        Err("ciphertext URL is not UTF-8")
                    } else {
                        match field_value(fragment, "k"@) {
                            None => Err("viewer URL lacks k fragment"),
                            Some(k) => Ok((decode_utf8(b), k)),
                        }
                    },
                },
            }
        } else {
            Ok((base, fragment))
        },
    }
}

/// What `parse_capability_url` answers.
pub open spec fn shared_link(url: Seq<char>) -> Result<(Seq<char>, Seq<u8>), &'static str> {
    match link_parts(url) {
        Err(e) => Err(e),
        Ok((u, k)) => match base64_bytes(k) {
            None => Err("invalid capability key"),
            Some(b) => if b.len() != 32 {
                Err("capability key must be 32 bytes")
            } else {
                Ok((u, b))
            },
        },
    }
}

fn read_link_parts(url: &str) -> (r: Result<(String, String), &'static str>)
    ensures
        match r {
            Ok((u, k)) => link_parts(url@) == Ok::<(Seq<char>, Seq<char>), &'static str>((u@, k@)),
            Err(e) => link_parts(url@) == Err::<(Seq<char>, Seq<char>), &'static str>(e),
        },
{
    let (base, fragment) = match split_once(url, '#') {
        None => {
            return Err("capability URL lacks key fragment");
        },
        Some(x) => x,
    };
    let viewed = strip_prefix(fragment.as_str(), "v=1&").is_some() || strip_prefix(
        fragment.as_str(),
        "u=",
    ).is_some();
    if !viewed {
        return Ok((base, fragment));
    }
    let u = match read_field(fragment.as_str(), "u") {
        None => {
            return Err("viewer URL lacks u fragment");
        },
        Some(u) => u,
    };
    let bytes = match base64_decode(u.as_str()) {
        None => {
            return Err("invalid ciphertext URL encoding");
        },
        Some(b) => b,
    };
    proof {
        base64_round_trip(bytes@);
    }
    let text = match utf8_text(bytes.as_slice()) {
        None => {
            return Err("ciphertext URL is not UTF-8");
        },
        Some(t) => t.to_owned(),
    };
    match read_field(fragment.as_str(), "k") {
        None => Err("viewer URL lacks k fragment"),
        Some(k) => Ok((text, k)),
    }
}

/// The URL of the blob and the key, from the URL of a shared link.
pub fn parse_capability_url(url: &str) -> (r: Result<(String, [u8; 32]), &'static str>)
    ensures
        match r {
            Ok((u, k)) => shared_link(url@) == Ok::<(Seq<char>, Seq<u8>), &'static str>((u@, k@)),
            Err(e) => shared_link(url@) == Err::<(Seq<char>, Seq<u8>), &'static str>(e),
        },
{
    let (u, k) = match read_link_parts(url) {
        Err(e) => {
            return Err(e);
        },
        Ok(x) => x,
    };
    let bytes = match base64_decode(k.as_str()) {
        None => {
            return Err("invalid capability key");
        },
        Some(b) => b,
    };
    proof {
        base64_round_trip(bytes@);
    }
    if bytes.len() != 32 {
        return Err("capability key must be 32 bytes");
    }
    let key = crate::bytes::array32_at(bytes.as_slice(), 0);
    assert(key@ =~= bytes@);
    Ok((u, key))
}

/// Where the blob of a link comes from.
#[derive(Debug, PartialEq, Eq)]
pub enum Fetch {
    File(String),
    Web,
}

/// How to get the blob of a link.
pub fn fetch_plan(url: &str) -> (r: Result<Fetch, &'static str>)
    ensures
        if is_local(url@) {
            r matches Ok(Fetch::File(p)) && url@ == "file://"@ + p@
        } else if has_prefix(url@, "http://"@) || has_prefix(url@, "https://"@) {
            r matches Ok(Fetch::Web)
        } else {
            r == Err::<Fetch, &'static str>(
                "capability ciphertext URL must use file, http, or https",
            )
        },
{
    match strip_prefix(url, "file://") {
        Some(p) => {
            proof {
                let prefix = "file://"@;
                assert(url@ =~= url@.take(prefix.len() as int) + url@.skip(prefix.len() as int));
            }
            return Ok(Fetch::File(p));
        },
        None => {},
    }
    if strip_prefix(url, "http://").is_some() || strip_prefix(url, "https://").is_some() {
        Ok(Fetch::Web)
    } else {
        Err("capability ciphertext URL must use file, http, or https")
    }
}

proof fn base64_is_plain(b: Seq<u8>, i: int)
    requires
        0 <= i < base64_text(b).len(),
    ensures
        base64_text(b)[i] != '=',
        base64_text(b)[i] != '&',
        base64_text(b)[i] != '#',
{
    crate::base64::six_bits_range(b, i);
    assert(base64_text(b)[i] == symbol(six_bits(b, i)));
}

proof fn one_field(b: Seq<u8>, name: char)
    requires
        name != '=',
        name != '&',
    ensures
        ({
            let s = seq![name, '='] + base64_text(b);
            &&& split_at_first(s, '=') == Some((seq![name], base64_text(b)))
            &&& forall|i: int| 0 <= i < s.len() ==> s[i] != '&'
        }),
{
    let t = base64_text(b);
    let s = seq![name, '='] + t;
    assert forall|i: int| 0 <= i < s.len() implies s[i] != '&' by {
        if i >= 2 {
            base64_is_plain(b, i - 2);
            assert(s[i] == t[i - 2]);
        }
    }
    index_unique(s, '=', 1);
    assert(s.take(1) =~= seq![name]);
    assert(s.skip(2) =~= t);
}

/// A link that is shared as the URL of its blob gives that URL and the key back.
pub proof fn shared_link_round_trip(url: Seq<char>, key: Seq<u8>)
    requires
        key.len() == 32,
        forall|i: int| 0 <= i < url.len() ==> url[i] != '#',
    ensures
        shared_link(shared(url, key, None)) == Ok::<(Seq<char>, Seq<u8>), &'static str>((url, key)),
{
    reveal_strlit("#");
    reveal_strlit("v=1&");
    reveal_strlit("u=");
    let k = base64_text(key);
    let s = shared(url, key, None);
    assert(k.len() == 43);
    assert(s[url.len() as int] == '#');
    index_unique(s, '#', url.len() as int);
    assert(s.take(url.len() as int) =~= url);
    assert(s.skip(url.len() as int + 1) =~= k);
    base64_is_plain(key, 1);
    assert(!has_prefix(k, "v=1&"@)) by {
        if has_prefix(k, "v=1&"@) {
            assert(k.take(4)[1] == "v=1&"@[1]);
        }
    }
    assert(!has_prefix(k, "u="@)) by {
        if has_prefix(k, "u="@) {
            assert(k.take(2)[1] == "u="@[1]);
        }
    }
    base64_round_trip(key);
}

/// A link that is shared through a viewer gives the URL of its blob and the key back.
pub proof fn viewed_link_round_trip(url: Seq<char>, key: Seq<u8>, viewer: Seq<char>)
    requires
        key.len() == 32,
        forall|i: int| 0 <= i < trimmed(viewer).len() ==> trimmed(viewer)[i] != '#',
    ensures
        shared_link(shared(url, key, Some(viewer))) == Ok::<(Seq<char>, Seq<u8>), &'static str>(
            (url, key),
        ),
{
    reveal_strlit("#v=1&u=");
    reveal_strlit("&k=");
    reveal_strlit("v=1&");
    reveal_strlit("u");
    reveal_strlit("k");
    let t = trimmed(viewer);
    let s = shared(url, key, Some(viewer));
    let b = encode_utf8(url);
    let fu = seq!['u', '='] + base64_text(b);
    let fk = seq!['k', '='] + base64_text(key);
    let v = seq!['v', '=', '1'];
    let fragment = v + seq!['&'] + fu + seq!['&'] + fk;
    assert(s[t.len() as int] == '#');
    index_unique(s, '#', t.len() as int);
    assert(s.skip(t.len() as int + 1) =~= fragment);
    assert(fragment.take(4) =~= "v=1&"@);
    one_field(b, 'u');
    one_field(key, 'k');
    assert("u"@ =~= seq!['u']);
    assert("k"@ =~= seq!['k']);
    let rest = fu + seq!['&'] + fk;
    index_unique(fragment, '&', 3);
    assert(fragment.take(3) =~= v);
    assert(fragment.skip(4) =~= rest);
    index_unique(v, '=', 1);
    assert(v.take(1) =~= seq!['v']);
    assert forall|j: int| 0 <= j < fu.len() implies rest[j] != '&' by {
        assert(rest[j] == fu[j]);
    }
    index_unique(rest, '&', fu.len() as int);
    assert(rest.take(fu.len() as int) =~= fu);
    assert(rest.skip(fu.len() as int + 1) =~= fk);
    index_unique(fk, '&', fk.len() as int);
    assert(fk.take(fk.len() as int) =~= fk);
    assert(seq!['v'][0] != seq!['u'][0]);
    assert(seq!['v'][0] != seq!['k'][0]);
    assert(seq!['k'][0] != seq!['u'][0]);
    assert(field_value(fk, "u"@) is None);
    assert(field_value(fk, "k"@) == Some(base64_text(key)));
    assert(field_value(rest, "u"@) == Some(base64_text(b)));
    assert(field_value(rest, "k"@) == Some(base64_text(key)));
    assert(field_value(fragment, "u"@) == Some(base64_text(b)));
    assert(field_value(fragment, "k"@) == Some(base64_text(key)));
    base64_round_trip(b);
    base64_round_trip(key);
    encode_utf8_valid_utf8(url);
    encode_utf8_decode_utf8(url);
}

} // verus!
