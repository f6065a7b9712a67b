//! Walking directories and trees: what a listing becomes, where a blob lives, and which objects
//! a tree reaches. The caller reads and writes the files.
use vstd::prelude::*;
use vstd::utf8::encode_utf8;

use crate::cas::{
    blake3_of, entry_views, names_ascend, names_legal, same_entries, tree_bytes, tree_fault,
    tree_of, tree_round_trip, Digest, EntryMode, EntryView, Tree, TreeEntry,
};
use crate::error::Error;
use crate::order::Key;
use crate::store::{is_missing, missing};
use crate::table::Table;
use crate::text::{chars_of, same_text, text_of};
use crate::util::hex_text;

verus! {

/// Where a blob lives below the store's root: `blobs`, the first two hex digits of its hash, and
/// the other digits.
pub fn path_for(hash: &Digest) -> (r: Vec<String>)
    ensures
        r@.len() == 3,
        r@[0]@ == "blobs"@,
        r@[1]@ == hex_text(hash.0@).take(2),
        r@[2]@ == hex_text(hash.0@).skip(2),
{
    let hex = chars_of(hash.to_hex().as_str());
    let mut out: Vec<String> = Vec::new();
    out.push("blobs".to_owned());
    out.push(text_of(vstd::slice::slice_subrange(hex.as_slice(), 0, 2)));
    out.push(text_of(vstd::slice::slice_subrange(hex.as_slice(), 2, hex.len())));
    assert(hex_text(hash.0@).subrange(0, 2) =~= hex_text(hash.0@).take(2));
    assert(hex_text(hash.0@).subrange(2, 64) =~= hex_text(hash.0@).skip(2));
    out
}

/// Different hashes never share a path.
pub proof fn paths_differ(a: Digest, b: Digest)
    requires
        hex_text(a.0@).take(2) == hex_text(b.0@).take(2),
        hex_text(a.0@).skip(2) == hex_text(b.0@).skip(2),
    ensures
        a == b,
{
    let x = hex_text(a.0@);
    let y = hex_text(b.0@);
    assert(x =~= x.take(2) + x.skip(2));
    assert(y =~= y.take(2) + y.skip(2));
    crate::util::hex_round_trip(a.0@, "hash");
    crate::util::hex_round_trip(b.0@, "hash");
    crate::bytes::array_extensional(a.0, b.0);
}

/// What `check_blob` answers.
pub open spec fn blob_check(hash: Digest, bytes: Seq<u8>) -> Result<(), Error> {
    if blake3_of(bytes) == hash.0@ {
        Ok(())
    } else {
        Err(Error::Corrupt { kind: "blob", detail: "content does not hash to its name" })
    }
}

/// Accepts what was read for a blob only where it hashes to the name it was read under.
pub fn check_blob(hash: &Digest, bytes: &[u8]) -> (r: Result<(), Error>)
    ensures
        r == blob_check(*hash, bytes@),
{
    let found = Digest::of(bytes);
    proof {
        crate::bytes::array_extensional(found.0, hash.0);
    }
    if found.same(hash) {
        Ok(())
    } else {
        Err(Error::Corrupt { kind: "blob", detail: "content does not hash to its name" })
    }
}

/// What a store answers that is asked for a blob, by what the blob's file holds, if it is there.
pub open spec fn blob_read(hash: Digest, content: Option<Seq<u8>>, r: Result<Seq<u8>, Error>) -> bool {
    match content {
        None => r matches Err(e) && is_missing(e, "blob", hash),
        Some(b) => r == match blob_check(hash, b) {
            Ok(()) => Ok::<Seq<u8>, Error>(b),
            Err(e) => Err(e),
        },
    }
}

/// What a store answers that is asked for a tree, by what the tree's file holds, if it is there.
pub open spec fn tree_read(
    hash: Digest,
    content: Option<Seq<u8>>,
    r: Result<Seq<EntryView>, Error>,
) -> bool {
    match content {
        None => r matches Err(e) && is_missing(e, "blob", hash),
        Some(b) => r == match blob_check(hash, b) {
            Ok(()) => tree_of(b),
            Err(e) => Err(e),
        },
    }
}

/// A blob out of what its file holds, where there is one.
pub fn read_blob(hash: &Digest, content: Option<Vec<u8>>) -> (r: Result<Vec<u8>, Error>)
    ensures
        blob_read(
            *hash,
            match content {
                Some(b) => Some(b@),
                None => None,
            },
            match r {
                Ok(b) => Ok(b@),
                Err(e) => Err(e),
            },
        ),
{
    match content {
        None => Err(missing("blob", hash)),
        Some(b) => match check_blob(hash, b.as_slice()) {
            Ok(()) => Ok(b),
            Err(e) => Err(e),
        },
    }
}

/// A tree out of what its file holds, where there is one.
pub fn read_tree(hash: &Digest, content: Option<Vec<u8>>) -> (r: Result<Tree, Error>)
    ensures
        tree_read(
            *hash,
            match content {
                Some(b) => Some(b@),
                None => None,
            },
            match r {
                Ok(t) => Ok(t@),
                Err(e) => Err(e),
            },
        ),
        r matches Ok(t) ==> t.wf(),
{
    match read_blob(hash, content) {
        Err(e) => Err(e),
        Ok(b) => Tree::decode(b.as_slice()),
    }
}

/// A tree that is stored under its hash is read back. Once its file is changed so that it no longer
/// hashes to that name the answer is that it is corrupt, and once it is gone, that it is not there.
pub proof fn stored_tree_reads_back(
    s: Seq<EntryView>,
    hash: Digest,
    content: Option<Seq<u8>>,
    r: Result<Seq<EntryView>, Error>,
)
    requires
        names_ascend(s),
        names_legal(s),
        hash.0@ == blake3_of(tree_bytes(s)),
        tree_read(hash, content, r),
    ensures
        content == Some(tree_bytes(s)) ==> r == Ok::<Seq<EntryView>, Error>(s),
        content is Some && blake3_of(content->0) != hash.0@ ==> r == Err::<Seq<EntryView>, Error>(
            Error::Corrupt { kind: "blob", detail: "content does not hash to its name" },
        ),
        content is None ==> (r matches Err(e) && is_missing(e, "blob", hash)),
{
    tree_round_trip(s);
}

/// What a name in a directory is.
#[derive(Clone, Copy, Debug, PartialEq, Eq, Structural)]
pub enum FileKind {
    Link,
    Directory,
    File,
    Executable,
    /// A device, a socket, a pipe.
    Other,
}

/// One name found in a directory, and the hash of the object that was stored for it: the target
/// of a link, the tree of a directory, the content of a file.
pub struct DirItem {
    pub name: String,
    pub kind: FileKind,
    pub hash: Digest,
}

/// The mode that a name of this kind has in a tree.
pub open spec fn kind_mode(kind: FileKind) -> EntryMode {
    match kind {
        FileKind::Link => EntryMode::Link,
        FileKind::Directory => EntryMode::Tree,
        FileKind::Executable => EntryMode::Exec,
        _ => EntryMode::File,
    }
}

/// The item is walked: only the metadata directory is not.
pub open spec fn walked(item: DirItem) -> bool {
    item.name@ != crate::cas::ABRA_DIR@
}

/// The entries of a listing, in the order in which it was read.
pub open spec fn listed(items: Seq<DirItem>) -> Seq<EntryView>
    decreases items.len(),
{
    if items.len() == 0 {
        Seq::empty()
    } else {
        let before = listed(items.drop_last());
        let item = items.last();
        if walked(item) {
            before.push(EntryView { name: item.name@, mode: kind_mode(item.kind), hash: item.hash })
        } else {
            before
        }
    }
}

/// The entries of a listing are its items, one for one, but for the metadata directory.
proof fn listed_members(items: Seq<DirItem>)
    ensures
        forall|e: EntryView| #[trigger]
            listed(items).contains(e) <==> exists|i: int|
                0 <= i < items.len() && walked(#[trigger] items[i]) && e == (EntryView {
                    name: items[i].name@,
                    mode: kind_mode(items[i].kind),
                    hash: items[i].hash,
                }),
    decreases items.len(),
{
    let all = listed(items);
    if items.len() > 0 {
        let front = items.drop_last();
        let item = items.last();
        listed_members(front);
        let before = listed(front);
        assert(items[items.len() - 1] == item);
        assert forall|e: EntryView| #[trigger] all.contains(e) <==> exists|i: int|
            0 <= i < items.len() && walked(#[trigger] items[i]) && e == (EntryView {
                name: items[i].name@,
                mode: kind_mode(items[i].kind),
                hash: items[i].hash,
            }) by {
            if all.contains(e) {
                let k = choose|k: int| 0 <= k < all.len() && all[k] == e;
                if k < before.len() {
                    assert(before[k] == e);
                    assert(before.contains(e));
                    let i = choose|i: int|
                        0 <= i < front.len() && walked(#[trigger] front[i]) && e == (EntryView {
                            name: front[i].name@,
                            mode: kind_mode(front[i].kind),
                            hash: front[i].hash,
                        });
                    assert(items[i] == front[i]);
                }
            }
            if exists|i: int|
                0 <= i < items.len() && walked(#[trigger] items[i]) && e == (EntryView {
                    name: items[i].name@,
                    mode: kind_mode(items[i].kind),
                    hash: items[i].hash,
                }) {
                let i = choose|i: int|
                    0 <= i < items.len() && walked(#[trigger] items[i]) && e == (EntryView {
                        name: items[i].name@,
                        mode: kind_mode(items[i].kind),
                        hash: items[i].hash,
                    });
                if i < front.len() {
                    assert(front[i] == items[i]);
                    assert(before.contains(e));
                    let k = choose|k: int| 0 <= k < before.len() && before[k] == e;
                    assert(all[k] == e);
                } else {
                    assert(all[before.len() as int] == e);
                }
            }
        }
    } else {
        assert(all.len() == 0);
    }
}

/// A tree keeps what a directory held. Every item but the metadata directory has one entry, under
/// its name and with its object; a program stays a program, a link a link, a directory a directory
/// and a file a file. There is no entry but those.
pub open spec fn keeps_items(t: Seq<EntryView>, items: Seq<DirItem>) -> bool {
    &&& forall|i: int|
        0 <= i < items.len() && (#[trigger] items[i]).name@ != ".abra"@ ==> exists|k: int|
            0 <= k < t.len() && is_entry_of(#[trigger] t[k], items[i])
    &&& forall|k: int|
        0 <= k < t.len() ==> (#[trigger] t[k]).name != ".abra"@ && exists|i: int|
            0 <= i < items.len() && is_entry_of(t[k], #[trigger] items[i])
}

/// The entry is what an item of a directory is stored as.
pub open spec fn is_entry_of(e: EntryView, item: DirItem) -> bool {
    &&& e.name == item.name@
    &&& e.hash == item.hash
    &&& e.mode is Exec <==> item.kind is Executable
    &&& e.mode is Link <==> item.kind is Link
    &&& e.mode is Tree <==> item.kind is Directory
    &&& e.mode is File <==> item.kind is File
}

/// The tree of a directory that can be stored keeps all that the directory held.
pub proof fn listing_keeps_items(items: Seq<DirItem>, t: Seq<EntryView>)
    requires
        same_entries(t, listed(items)),
        !has_other(items),
    ensures
        forall|i: int|
            0 <= i < items.len() && (#[trigger] items[i]).name@ != ".abra"@ ==> {
                exists|k: int|
                    {
                        &&& 0 <= k < t.len()
                        &&& (#[trigger] t[k]).name == items[i].name@
                        &&& t[k].hash == items[i].hash
                        &&& t[k].mode is Exec <==> items[i].kind is Executable
                        &&& t[k].mode is Link <==> items[i].kind is Link
                        &&& t[k].mode is Tree <==> items[i].kind is Directory
                        &&& t[k].mode is File <==> items[i].kind is File
                    }
            },
        keeps_items(t, items),
{
    listed_members(items);
    let s = listed(items);
    assert forall|i: int|
        0 <= i < items.len() && (#[trigger] items[i]).name@ != ".abra"@ implies exists|k: int|
        0 <= k < t.len() && is_entry_of(#[trigger] t[k], items[i]) by {
        assert(walked(items[i]));
        let e = EntryView {
            name: items[i].name@,
            mode: kind_mode(items[i].kind),
            hash: items[i].hash,
        };
        assert(s.contains(e));
        assert(t.contains(e));
        let k = choose|k: int| 0 <= k < t.len() && t[k] == e;
        assert(is_entry_of(t[k], items[i]));
    }
    assert forall|k: int| 0 <= k < t.len() implies (#[trigger] t[k]).name != ".abra"@ && exists|
        i: int,
    |
        0 <= i < items.len() && is_entry_of(t[k], #[trigger] items[i]) by {
        assert(t.contains(t[k]));
        assert(s.contains(t[k]));
        let i = choose|i: int|
            0 <= i < items.len() && walked(#[trigger] items[i]) && t[k] == (EntryView {
                name: items[i].name@,
                mode: kind_mode(items[i].kind),
                hash: items[i].hash,
            });
        assert(is_entry_of(t[k], items[i]));
    }
}

/// Something in the listing cannot be stored.
pub open spec fn has_other(items: Seq<DirItem>) -> bool {
    exists|i: int| 0 <= i < items.len() && walked(#[trigger] items[i]) && items[i].kind is Other
}

/// The tree of a directory: every name but `.abra`, links not followed.
pub fn snapshot_listing(items: Vec<DirItem>) -> (r: Result<Tree, Error>)
    ensures
        r is Ok <==> !has_other(items@) && tree_fault(listed(items@)) is None,
        r matches Ok(t) ==> t.wf() && same_entries(t@, listed(items@)) && keeps_items(t@, items@),
        r matches Err(e) ==> if has_other(items@) {
            e == Error::Invalid("neither a file, directory nor symlink")
        } else {
            tree_fault(listed(items@)) == Some(e)
        },
{
    let mut entries: Vec<TreeEntry> = Vec::new();
    let mut i: usize = 0;
    assert(items@.take(0) =~= Seq::<DirItem>::empty());
    assert(entry_views(entries@) =~= Seq::<EntryView>::empty());
    while i < items.len()
        invariant
            i <= items@.len(),
            entry_views(entries@) == listed(items@.take(i as int)),
            forall|j: int| 0 <= j < i ==> !(walked(#[trigger] items@[j]) && items@[j].kind is Other),
        decreases items.len() - i,
    {
        let item = &items[i];
        assert(items@.take(i + 1).drop_last() =~= items@.take(i as int));
        if !same_text(item.name.as_str(), crate::cas::ABRA_DIR) {
            let mode = match item.kind {
                FileKind::Link => EntryMode::Link,
                FileKind::Directory => EntryMode::Tree,
                FileKind::File => EntryMode::File,
                FileKind::Executable => EntryMode::Exec,
                FileKind::Other => {
                    return Err(Error::Invalid("neither a file, directory nor symlink"));
                },
            };
            let ghost before = entry_views(entries@);
            entries.push(TreeEntry { name: item.name.clone(), mode, hash: item.hash });
            assert(entry_views(entries@) =~= before.push(entries@.last()@));
        }
        i += 1;
    }
    assert(items@.take(i as int) =~= items@);
    proof {
        assert forall|t: Seq<EntryView>| #[trigger] same_entries(
            t,
            listed(items@),
        ) implies keeps_items(t, items@) by {
            listing_keeps_items(items@, t);
        }
    }
    Tree::new(entries)
}

/// The deepest that a directory may lie below the root.
pub const MAX_TREE_DEPTH: u64 = 512;

/// The most bytes that a path below the root may have.
pub const MAX_TREE_PATH: u64 = 4096;

/// The ranks of hashes.
pub open spec fn ranks(s: Seq<Digest>) -> Set<Seq<int>> {
    Set::new(|r: Seq<int>| exists|i: int| 0 <= i < s.len() && (#[trigger] s[i]).rank() == r)
}

/// How a tree is reached: how deep at the most, and by how long a path at the most. A path counts
/// with a separator behind each of its names.
#[derive(Clone, Copy, Debug, PartialEq, Eq)]
pub struct Reach {
    pub depth: u64,
    pub length: u64,
}

/// The length of a path with one more name.
pub open spec fn lengthened(length: int, name: Seq<char>) -> int {
    length + encode_utf8(name).len() + 1
}

/// What is too deep, or has too long a path, among the entries of a tree.
pub open spec fn limit_fault(at: Reach, s: Seq<EntryView>) -> Option<Error>
    decreases s.len(),
{
    if s.len() == 0 {
        None
    } else {
        match limit_fault(at, s.drop_last()) {
            Some(e) => Some(e),
            None => {
                let e = s.last();
                if e.mode is Tree && at.depth + 1 > MAX_TREE_DEPTH {
                    Some(Error::Invalid("tree depth exceeds 512"))
                } else if lengthened(at.length as int, e.name) > MAX_TREE_PATH + 1 {
                    Some(Error::Invalid("tree path exceeds 4096 bytes"))
                } else {
                    None
                }
            },
        }
    }
}

/// What a walk knows.
pub struct WalkV {
    /// Every object found so far.
    pub found: Set<Seq<int>>,
    /// Those that are the target of a link.
    pub links: Set<Seq<int>>,
    /// The directories found so far, and how they are reached.
    pub opened: Map<Seq<int>, Reach>,
    /// The directories that are still to be read.
    pub pending: Seq<Digest>,
}

/// The larger of both ways to reach a tree.
pub open spec fn farther(a: Reach, b: Reach) -> Reach {
    Reach {
        depth: if a.depth >= b.depth {
            a.depth
        } else {
            b.depth
        },
        length: if a.length >= b.length {
            a.length
        } else {
            b.length
        },
    }
}

/// How an entry of a tree is reached.
pub open spec fn below(at: Reach, e: EntryView) -> Reach {
    Reach { depth: (at.depth + 1) as u64, length: lengthened(at.length as int, e.name) as u64 }
}

/// A directory that was found is to be read: it was not known, or not known to lie so deep or to
/// have so long a path.
pub open spec fn is_news(opened: Map<Seq<int>, Reach>, h: Seq<int>, r: Reach) -> bool {
    !opened.dom().contains(h) || r.depth > opened[h].depth || r.length > opened[h].length
}

/// The walk once an entry of a tree is taken in. Whether a directory is read does not depend on
/// whether its bytes were met as a file.
pub open spec fn with_entry(w: WalkV, at: Reach, e: EntryView) -> WalkV {
    let h = e.hash.rank();
    let r = below(at, e);
    let news = e.mode is Tree && is_news(w.opened, h, r);
    WalkV {
        found: w.found.insert(h),
        links: if e.mode is Link {
            w.links.insert(h)
        } else {
            w.links
        },
        opened: if news {
            w.opened.insert(
                h,
                if w.opened.dom().contains(h) {
                    farther(w.opened[h], r)
                } else {
                    r
                },
            )
        } else {
            w.opened
        },
        pending: if news {
            w.pending.push(e.hash)
        } else {
            w.pending
        },
    }
}

/// The walk once the entries of a tree are taken in, one after the other.
pub open spec fn absorb(w: WalkV, at: Reach, s: Seq<EntryView>) -> WalkV
    decreases s.len(),
{
    if s.len() == 0 {
        w
    } else {
        with_entry(absorb(w, at, s.drop_last()), at, s.last())
    }
}

/// The walk without the tree that is read next.
pub open spec fn popped(w: WalkV) -> WalkV {
    WalkV { pending: w.pending.drop_last(), ..w }
}

/// What keeps bytes from being taken in as the tree that is read next.
pub open spec fn supply_fault(w: WalkV, bytes: Seq<u8>) -> Option<Error> {
    let h = w.pending.last();
    match blob_check(h, bytes) {
        Err(e) => Some(e),
        Ok(()) => match tree_of(bytes) {
            Err(e) => Some(e),
            Ok(s) => limit_fault(w.opened[h.rank()], s),
        },
    }
}

/// A walk over the objects that a tree reaches. Directories are kept apart from the other objects:
/// a file may hold the very bytes of a directory.
#[derive(Debug)]
pub struct TreeWalk {
    /// Every object found so far.
    pub seen: Table<Digest, ()>,
    /// Those that are the target of a link.
    pub links: Table<Digest, ()>,
    /// The directories found so far, and how they are reached.
    pub opened: Table<Digest, Reach>,
    /// The directories that are still to be read.
    pub pending: Vec<Digest>,
}

impl View for TreeWalk {
    type V = WalkV;

    open spec fn view(&self) -> WalkV {
        WalkV {
            found: self.seen@.dom(),
            links: self.links@.dom(),
            opened: self.opened@,
            pending: self.pending@,
        }
    }
}

fn check_limits(at: Reach, entries: &Vec<TreeEntry>) -> (r: Option<Error>)
    requires
        at.depth <= MAX_TREE_DEPTH,
        at.length <= MAX_TREE_PATH + 1,
    ensures
        r == limit_fault(at, entry_views(entries@)),
{
    let ghost s = entry_views(entries@);
    let mut i: usize = 0;
    assert(s.take(0) =~= Seq::<EntryView>::empty());
    while i < entries.len()
        invariant
            at.depth <= MAX_TREE_DEPTH,
            at.length <= MAX_TREE_PATH + 1,
            s == entry_views(entries@),
            i <= entries@.len(),
            limit_fault(at, s.take(i as int)) is None,
        decreases entries.len() - i,
    {
        proof {
            assert(s.take(i + 1).drop_last() =~= s.take(i as int));
            assert(s.take(i + 1).last() == s[i as int]);
            assert(s[i as int] == entries@[i as int]@);
        }
        if entries[i].mode == EntryMode::Tree && at.depth + 1 > MAX_TREE_DEPTH {
            proof {
                limit_prefix(at, s, i + 1);
            }
            return Some(Error::Invalid("tree depth exceeds 512"));
        }
        let name: usize = entries[i].name.as_str().as_bytes().len();
        if name > 4096 || at.length + name as u64 + 1 > MAX_TREE_PATH + 1 {
            proof {
                limit_prefix(at, s, i + 1);
            }
            return Some(Error::Invalid("tree path exceeds 4096 bytes"));
        }
        i += 1;
    }
    assert(s.take(i as int) =~= s);
    None
}

proof fn limit_prefix(at: Reach, s: Seq<EntryView>, n: int)
    requires
        0 <= n <= s.len(),
        limit_fault(at, s.take(n)) is Some,
    ensures
        limit_fault(at, s) == limit_fault(at, s.take(n)),
    decreases s.len(),
{
    if n == s.len() {
        assert(s.take(n) =~= s);
    } else {
        assert(s.drop_last().take(n) =~= s.take(n));
        limit_prefix(at, s.drop_last(), n);
    }
}

/// Where there is no fault, every entry is within the limits.
proof fn limit_none(at: Reach, s: Seq<EntryView>)
    requires
        limit_fault(at, s) is None,
    ensures
        forall|i: int|
            0 <= i < s.len() ==> {
                &&& (#[trigger] s[i]).mode is Tree ==> at.depth + 1 <= MAX_TREE_DEPTH
                &&& lengthened(at.length as int, s[i].name) <= MAX_TREE_PATH + 1
            },
    decreases s.len(),
{
    if s.len() > 0 {
        limit_none(at, s.drop_last());
        assert forall|i: int| 0 <= i < s.len() implies {
            &&& (#[trigger] s[i]).mode is Tree ==> at.depth + 1 <= MAX_TREE_DEPTH
            &&& lengthened(at.length as int, s[i].name) <= MAX_TREE_PATH + 1
        } by {
            if i < s.len() - 1 {
                assert(s.drop_last()[i] == s[i]);
            }
        }
    }
}

/// Every directory lies within the limits, and every one that is still to be read was found.
pub open spec fn walk_wf(w: WalkV) -> bool {
    &&& forall|h: Seq<int>| #[trigger]
        w.opened.dom().contains(h) ==> w.opened[h].depth <= MAX_TREE_DEPTH && w.opened[h].length
            <= MAX_TREE_PATH + 1
    &&& forall|i: int|
        0 <= i < w.pending.len() ==> w.opened.dom().contains((#[trigger] w.pending[i]).rank())
}

impl TreeWalk {
    /// The tables are in order, and the walk is within its limits.
    pub open spec fn wf(&self) -> bool {
        &&& self.seen.wf()
        &&& self.links.wf()
        &&& self.opened.wf()
        &&& walk_wf(self@)
    }

    /// A walk that has found its root.
    pub fn start(root: Digest) -> (r: Self)
        ensures
            r.wf(),
            r@ == started(root),
    {
        let mut seen: Table<Digest, ()> = Table::new();
        seen.insert(root, ());
        let mut opened: Table<Digest, Reach> = Table::new();
        opened.insert(root, Reach { depth: 0, length: 0 });
        let mut pending: Vec<Digest> = Vec::new();
        pending.push(root);
        let r = TreeWalk { seen, links: Table::new(), opened, pending };
        assert(r@.found =~= started(root).found);
        assert(r@.links =~= started(root).links);
        assert(r@.opened =~= started(root).opened);
        assert(r@.pending =~= started(root).pending);
        r
    }

    /// The tree to read next; nothing when the walk is over.
    pub fn wanted(&self) -> (r: Option<Digest>)
        ensures
            r == if self.pending@.len() == 0 {
                None
            } else {
                Some(self.pending@.last())
            },
    {
        if self.pending.len() == 0 {
            None
        } else {
            Some(self.pending[self.pending.len() - 1])
        }
    }

    fn take_entry(&mut self, at: Reach, e: &TreeEntry)
        requires
            old(self).wf(),
            e.mode is Tree ==> at.depth + 1 <= MAX_TREE_DEPTH,
            at.depth <= MAX_TREE_DEPTH,
            lengthened(at.length as int, e.name@) <= MAX_TREE_PATH + 1,
        ensures
            final(self).wf(),
            final(self)@ == with_entry(old(self)@, at, e@),
    {
        let ghost w = self@;
        let ghost h = e.hash.rank();
        self.seen.insert(e.hash, ());
        assert(self.seen@.dom() =~= w.found.insert(h));
        match e.mode {
            EntryMode::Link => {
                self.links.insert(e.hash, ());
                assert(self.links@.dom() =~= w.links.insert(h));
            },
            EntryMode::Tree => {
                let depth = at.depth + 1;
                let length = at.length + e.name.as_str().as_bytes().len() as u64 + 1;
                match self.opened.get(&e.hash) {
                    None => {
                        self.opened.insert(e.hash, Reach { depth, length });
                        self.pending.push(e.hash);
                    },
                    Some(known) => {
                        let before = *known;
                        if depth > before.depth || length > before.length {
                            let far = Reach {
                                depth: if before.depth >= depth {
                                    before.depth
                                } else {
                                    depth
                                },
                                length: if before.length >= length {
                                    before.length
                                } else {
                                    length
                                },
                            };
                            self.opened.insert(e.hash, far);
                            self.pending.push(e.hash);
                        }
                    },
                }
            },
            _ => {},
        }
        proof {
            let after = with_entry(w, at, e@);
            assert(self@.opened =~= after.opened);
            assert(self@.pending =~= after.pending);
            assert forall|i: int| 0 <= i < self@.pending.len() implies self@.opened.dom().contains(
                (#[trigger] self@.pending[i]).rank(),
            ) by {
                if i < w.pending.len() {
                    assert(w.opened.dom().contains(w.pending[i].rank()));
                }
            }
        }
    }

    /// Takes in the bytes that were read for the wanted tree.
    pub fn supply(&mut self, bytes: &[u8]) -> (r: Result<(), Error>)
        requires
            old(self).wf(),
            old(self).pending@.len() > 0,
        ensures
            final(self).wf(),
            match supply_fault(old(self)@, bytes@) {
                Some(e) => r == Err::<(), Error>(e) && *final(self) == *old(self),
                None => r is Ok && final(self)@ == absorb(
                    popped(old(self)@),
                    old(self)@.opened[old(self)@.pending.last().rank()],
                    tree_of(bytes@)->Ok_0,
                ),
            },
    {
        let last: usize = self.pending.len() - 1;
        let h = self.pending[last];
        match check_blob(&h, bytes) {
            Ok(()) => {},
            Err(e) => {
                return Err(e);
            },
        }
        let tree = match Tree::decode(bytes) {
            Ok(tree) => tree,
            Err(e) => {
                return Err(e);
            },
        };
        assert(self@.opened.dom().contains(self@.pending[last as int].rank()));
        let at: Reach = match self.opened.get(&h) {
            Some(r) => *r,
            None => Reach { depth: 0, length: 0 },
        };
        let ghost s = tree@;
        match check_limits(at, &tree.entries) {
            Some(e) => {
                return Err(e);
            },
            None => {},
        }
        let ghost start = popped(self@);
        proof {
            limit_none(at, s);
        }
        self.pending.pop();
        assert(self@.pending =~= start.pending);
        assert(walk_wf(self@)) by {
            assert forall|i: int| 0 <= i < self@.pending.len() implies self@.opened.dom().contains(
                (#[trigger] self@.pending[i]).rank(),
            ) by {
                assert(old(self)@.opened.dom().contains(old(self)@.pending[i].rank()));
            }
        }
        let mut i: usize = 0;
        assert(s.take(0) =~= Seq::<EntryView>::empty());
        while i < tree.entries.len()
            invariant
                i <= tree.entries@.len(),
                s == tree@,
                self.wf(),
                at.depth <= MAX_TREE_DEPTH,
                forall|j: int|
                    0 <= j < s.len() ==> {
                        &&& (#[trigger] s[j]).mode is Tree ==> at.depth + 1 <= MAX_TREE_DEPTH
                        &&& lengthened(at.length as int, s[j].name) <= MAX_TREE_PATH + 1
                    },
                self@ == absorb(start, at, s.take(i as int)),
            decreases tree.entries.len() - i,
        {
            proof {
                assert(s.take(i + 1).drop_last() =~= s.take(i as int));
                assert(s.take(i + 1).last() == s[i as int]);
                assert(s[i as int] == tree.entries@[i as int]@);
            }
            self.take_entry(at, &tree.entries[i]);
            i += 1;
        }
        assert(s.take(i as int) =~= s);
        Ok(())
    }

    /// Checks an object that was found before anything is written: it is what it was stored as,
    /// and a link can lead to it.
    pub fn check_object(&self, hash: &Digest, bytes: &[u8]) -> (r: Result<(), Error>)
        requires
            self.wf(),
        ensures
            r == object_check(self@, *hash, bytes@),
    {
        match check_blob(hash, bytes) {
            Ok(()) => {},
            Err(e) => {
                return Err(e);
            },
        }
        if self.links.contains(hash) && has_nul(bytes) {
            return Err(Error::Invalid("link target contains NUL"));
        }
        Ok(())
    }
}

/// Some byte is zero.
pub open spec fn holds_nul(b: Seq<u8>) -> bool {
    exists|i: int| 0 <= i < b.len() && #[trigger] b[i] == 0
}

fn has_nul(bytes: &[u8]) -> (r: bool)
    ensures
        r == holds_nul(bytes@),
{
    let mut i: usize = 0;
    while i < bytes.len()
        invariant
            i <= bytes@.len(),
            forall|j: int| 0 <= j < i ==> #[trigger] bytes@[j] != 0,
        decreases bytes.len() - i,
    {
        if bytes[i] == 0 {
            return true;
        }
        i += 1;
    }
    false
}

/// What `TreeWalk::check_object` answers.
pub open spec fn object_check(w: WalkV, h: Digest, bytes: Seq<u8>) -> Result<(), Error> {
    match blob_check(h, bytes) {
        Err(e) => Err(e),
        Ok(()) => if w.links.contains(h.rank()) && holds_nul(bytes) {
            Err(Error::Invalid("link target contains NUL"))
        } else {
            Ok(())
        },
    }
}

/// A walk that has found its root.
pub open spec fn started(root: Digest) -> WalkV {
    WalkV {
        found: Set::empty().insert(root.rank()),
        links: Set::empty(),
        opened: Map::empty().insert(root.rank(), Reach { depth: 0, length: 0 }),
        pending: seq![root],
    }
}

/// Which entries each tree has.
pub type Trees = Map<Seq<int>, Seq<EntryView>>;

/// A directory lies `n` levels below the root, at the end of a path of this length. A step leads
/// only out of a directory, and only through an entry that is one.
pub open spec fn lies_at(trees: Trees, root: Seq<int>, h: Seq<int>, n: nat, length: int) -> bool
    decreases n,
{
    if n == 0 {
        h == root && length == 0
    } else {
        exists|t: Seq<int>, i: int, l: int|
            lies_at(trees, root, t, (n - 1) as nat, l) && #[trigger] leads(trees, t, i, h, l, length)
    }
}

/// An entry of a directory is a directory, at the end of a path of this length.
pub open spec fn leads(trees: Trees, t: Seq<int>, i: int, h: Seq<int>, l: int, length: int) -> bool {
    &&& trees.dom().contains(t)
    &&& 0 <= i < trees[t].len()
    &&& trees[t][i].mode is Tree
    &&& trees[t][i].hash.rank() == h
    &&& length == lengthened(l, trees[t][i].name)
}

/// A directory is reached from the root.
pub open spec fn is_directory(trees: Trees, root: Seq<int>, t: Seq<int>) -> bool {
    exists|n: nat, l: int| #[trigger] lies_at(trees, root, t, n, l)
}

/// An object is named by a directory.
pub open spec fn names(trees: Trees, t: Seq<int>, i: int, h: Seq<int>) -> bool {
    trees.dom().contains(t) && 0 <= i < trees[t].len() && trees[t][i].hash.rank() == h
}

/// An object is reached from the root: it is the root, or a directory that is reached names it.
pub open spec fn reachable(trees: Trees, root: Seq<int>, h: Seq<int>) -> bool {
    h == root || exists|t: Seq<int>, i: int|
        is_directory(trees, root, t) && #[trigger] names(trees, t, i, h)
}

/// An object is reached as the target of a link.
pub open spec fn is_link_target(trees: Trees, root: Seq<int>, h: Seq<int>) -> bool {
    exists|t: Seq<int>, i: int|
        is_directory(trees, root, t) && #[trigger] names(trees, t, i, h) && trees[t][i].mode is Link
}

/// Everything that a walk has found is there: each object is reached from the root, each directory
/// as one, and some path to it is as deep, and some as long, as the walk has it.
pub open spec fn sound(w: WalkV, trees: Trees, root: Seq<int>) -> bool {
    &&& forall|h: Seq<int>| #[trigger] w.found.contains(h) ==> reachable(trees, root, h)
    &&& forall|h: Seq<int>| #[trigger] w.links.contains(h) ==> is_link_target(trees, root, h)
    &&& forall|h: Seq<int>| #[trigger]
        w.opened.dom().contains(h) ==> {
            &&& exists|l: int| #[trigger] lies_at(trees, root, h, w.opened[h].depth as nat, l)
            &&& exists|n: nat| #[trigger] lies_at(trees, root, h, n, w.opened[h].length as int)
        }
}

/// Everything in a directory that was read has been taken in.
pub open spec fn taken(w: WalkV, trees: Trees, t: Seq<int>, i: int) -> bool {
    let e = trees[t][i];
    let h = e.hash.rank();
    let at = w.opened[t];
    &&& w.found.contains(h)
    &&& e.mode is Link ==> w.links.contains(h)
    &&& lengthened(at.length as int, e.name) <= MAX_TREE_PATH + 1
    &&& e.mode is Tree ==> {
        &&& w.opened.dom().contains(h)
        &&& w.opened[h].depth >= at.depth + 1
        &&& w.opened[h].length >= lengthened(at.length as int, e.name)
    }
}

/// Each directory that was found is still to be read, or has been taken in.
pub open spec fn closed(w: WalkV, trees: Trees) -> bool {
    forall|t: Seq<int>, i: int|
        w.opened.dom().contains(t) && !ranks(w.pending).contains(t) && trees.dom().contains(t) && 0
            <= i < trees[t].len() ==> #[trigger] taken(w, trees, t, i)
}

/// A walk knows more than another: nothing was forgotten, and a directory about which something new
/// was learnt is to be read.
spec fn grown(a: WalkV, b: WalkV) -> bool {
    &&& forall|h: Seq<int>| a.found.contains(h) ==> b.found.contains(h)
    &&& forall|h: Seq<int>| a.links.contains(h) ==> b.links.contains(h)
    &&& forall|h: Seq<int>| #[trigger]
        a.opened.dom().contains(h) ==> b.opened.dom().contains(h) && b.opened[h].depth
            >= a.opened[h].depth && b.opened[h].length >= a.opened[h].length
    &&& forall|h: Seq<int>| ranks(a.pending).contains(h) ==> #[trigger] ranks(b.pending).contains(h)
    &&& forall|h: Seq<int>| #[trigger]
        b.opened.dom().contains(h) && !ranks(b.pending).contains(h) ==> a.opened.dom().contains(h)
            && b.opened[h] == a.opened[h]
}

proof fn pushing(s: Seq<Digest>, d: Digest)
    ensures
        forall|h: Seq<int>| #[trigger]
            ranks(s.push(d)).contains(h) <==> ranks(s).contains(h) || h == d.rank(),
{
    let t = s.push(d);
    assert forall|h: Seq<int>| #[trigger] ranks(t).contains(h) <==> ranks(s).contains(h) || h
        == d.rank() by {
        if ranks(s).contains(h) {
            let i = choose|i: int| 0 <= i < s.len() && (#[trigger] s[i]).rank() == h;
            assert(t[i].rank() == h);
        }
        if h == d.rank() {
            assert(t[s.len() as int].rank() == h);
        }
        if ranks(t).contains(h) {
            let i = choose|i: int| 0 <= i < t.len() && (#[trigger] t[i]).rank() == h;
            if i < s.len() {
                assert(s[i].rank() == h);
            }
        }
    }
}

proof fn entry_grows(w: WalkV, at: Reach, e: EntryView)
    requires
        at.depth <= MAX_TREE_DEPTH,
        lengthened(at.length as int, e.name) <= MAX_TREE_PATH + 1,
    ensures
        ({
            let v = with_entry(w, at, e);
            let h = e.hash.rank();
            &&& grown(w, v)
            &&& v.found.contains(h)
            &&& e.mode is Link ==> v.links.contains(h)
            &&& e.mode is Tree ==> v.opened.dom().contains(h) && v.opened[h].depth >= at.depth + 1
                && v.opened[h].length >= lengthened(at.length as int, e.name)
        }),
{
    pushing(w.pending, e.hash);
}

proof fn growing_carries(a: WalkV, b: WalkV, c: WalkV)
    requires
        grown(a, b),
        grown(b, c),
    ensures
        grown(a, c),
{
    assert forall|h: Seq<int>| #[trigger] a.opened.dom().contains(h) implies c.opened.dom().contains(h)
        && c.opened[h].depth >= a.opened[h].depth && c.opened[h].length >= a.opened[h].length by {
        assert(b.opened.dom().contains(h));
    }
    assert forall|h: Seq<int>| ranks(a.pending).contains(h) implies #[trigger] ranks(
        c.pending,
    ).contains(h) by {
        assert(ranks(b.pending).contains(h));
    }
    assert forall|h: Seq<int>| #[trigger]
        c.opened.dom().contains(h) && !ranks(c.pending).contains(h) implies a.opened.dom().contains(h)
        && c.opened[h] == a.opened[h] by {
        assert(b.opened.dom().contains(h));
        assert(!ranks(b.pending).contains(h));
    }
}

proof fn absorb_grows(w: WalkV, at: Reach, s: Seq<EntryView>)
    requires
        at.depth <= MAX_TREE_DEPTH,
        limit_fault(at, s) is None,
    ensures
        ({
            let v = absorb(w, at, s);
            &&& grown(w, v)
            &&& forall|i: int|
                0 <= i < s.len() ==> {
                    let h = (#[trigger] s[i]).hash.rank();
                    &&& v.found.contains(h)
                    &&& s[i].mode is Link ==> v.links.contains(h)
                    &&& s[i].mode is Tree ==> v.opened.dom().contains(h) && v.opened[h].depth
                        >= at.depth + 1 && v.opened[h].length >= lengthened(
                        at.length as int,
                        s[i].name,
                    )
                }
        }),
    decreases s.len(),
{
    if s.len() > 0 {
        let p = s.drop_last();
        let u = absorb(w, at, p);
        let v = absorb(w, at, s);
        absorb_grows(w, at, p);
        limit_none(at, s);
        assert(s[s.len() - 1] == s.last());
        entry_grows(u, at, s.last());
        growing_carries(w, u, v);
        assert forall|i: int| 0 <= i < s.len() implies {
            let h = (#[trigger] s[i]).hash.rank();
            &&& v.found.contains(h)
            &&& s[i].mode is Link ==> v.links.contains(h)
            &&& s[i].mode is Tree ==> v.opened.dom().contains(h) && v.opened[h].depth >= at.depth
                + 1 && v.opened[h].length >= lengthened(at.length as int, s[i].name)
        } by {
            if i < p.len() {
                assert(p[i] == s[i]);
                if s[i].mode is Tree {
                    assert(u.opened.dom().contains(s[i].hash.rank()));
                }
            }
        }
    }
}

proof fn entry_is_sound(w: WalkV, trees: Trees, root: Seq<int>, t: Seq<int>, at: Reach, i: int)
    requires
        sound(w, trees, root),
        trees.dom().contains(t),
        0 <= i < trees[t].len(),
        exists|l: int| #[trigger] lies_at(trees, root, t, at.depth as nat, l),
        exists|n: nat| #[trigger] lies_at(trees, root, t, n, at.length as int),
        at.depth <= MAX_TREE_DEPTH,
        lengthened(at.length as int, trees[t][i].name) <= MAX_TREE_PATH + 1,
    ensures
        sound(with_entry(w, at, trees[t][i]), trees, root),
{
    let e = trees[t][i];
    let v = with_entry(w, at, e);
    let h = e.hash.rank();
    let l = choose|l: int| #[trigger] lies_at(trees, root, t, at.depth as nat, l);
    let n = choose|n: nat| #[trigger] lies_at(trees, root, t, n, at.length as int);
    assert(is_directory(trees, root, t));
    assert(names(trees, t, i, h));
    if e.mode is Tree {
        let r = below(at, e);
        assert(leads(trees, t, i, h, l, lengthened(l, e.name)));
        assert(lies_at(trees, root, h, (at.depth + 1) as nat, lengthened(l, e.name)));
        assert(lies_at(trees, root, h, r.depth as nat, lengthened(l, e.name)));
        assert(leads(trees, t, i, h, at.length as int, lengthened(at.length as int, e.name)));
        assert(lies_at(trees, root, h, (n + 1) as nat, lengthened(at.length as int, e.name)));
        assert(lies_at(trees, root, h, (n + 1) as nat, r.length as int));
    }
    assert forall|x: Seq<int>| #[trigger] v.opened.dom().contains(x) implies {
        &&& exists|l: int| #[trigger] lies_at(trees, root, x, v.opened[x].depth as nat, l)
        &&& exists|n: nat| #[trigger] lies_at(trees, root, x, n, v.opened[x].length as int)
    } by {
        let r = below(at, e);
        if x != h || !(e.mode is Tree) {
            assert(w.opened.dom().contains(x));
            assert(v.opened[x] == w.opened[x]);
            let deep = choose|l: int| #[trigger]
                lies_at(trees, root, x, w.opened[x].depth as nat, l);
            let long = choose|n: nat| #[trigger]
                lies_at(trees, root, x, n, w.opened[x].length as int);
            assert(lies_at(trees, root, x, v.opened[x].depth as nat, deep));
            assert(lies_at(trees, root, x, long, v.opened[x].length as int));
        } else {
            if w.opened.dom().contains(x) {
                let deep = choose|l: int| #[trigger]
                    lies_at(trees, root, x, w.opened[x].depth as nat, l);
                let long = choose|n: nat| #[trigger]
                    lies_at(trees, root, x, n, w.opened[x].length as int);
                if v.opened[x].depth != r.depth {
                    assert(lies_at(trees, root, x, v.opened[x].depth as nat, deep));
                }
                if v.opened[x].length != r.length {
                    assert(lies_at(trees, root, x, long, v.opened[x].length as int));
                }
            }
            if v.opened[x].depth == r.depth {
                assert(lies_at(trees, root, x, v.opened[x].depth as nat, lengthened(l, e.name)));
            }
            if v.opened[x].length == r.length {
                assert(lies_at(trees, root, x, (n + 1) as nat, v.opened[x].length as int));
            }
        }
    }
}

proof fn absorb_is_sound(
    w: WalkV,
    trees: Trees,
    root: Seq<int>,
    t: Seq<int>,
    at: Reach,
    n: int,
)
    requires
        sound(w, trees, root),
        trees.dom().contains(t),
        0 <= n <= trees[t].len(),
        exists|l: int| #[trigger] lies_at(trees, root, t, at.depth as nat, l),
        exists|n: nat| #[trigger] lies_at(trees, root, t, n, at.length as int),
        at.depth <= MAX_TREE_DEPTH,
        limit_fault(at, trees[t]) is None,
    ensures
        sound(absorb(w, at, trees[t].take(n)), trees, root),
    decreases n,
{
    let s = trees[t];
    if n == 0 {
        assert(s.take(0) =~= Seq::<EntryView>::empty());
    } else {
        absorb_is_sound(w, trees, root, t, at, n - 1);
        assert(s.take(n).drop_last() =~= s.take(n - 1));
        assert(s.take(n).last() == s[n - 1]);
        limit_none(at, s);
        entry_is_sound(absorb(w, at, s.take(n - 1)), trees, root, t, at, n - 1);
    }
}

/// Taking in one directory keeps a walk closed and sound, whatever the objects are used as.
pub proof fn step_keeps(w: WalkV, trees: Trees, root: Seq<int>)
    requires
        walk_wf(w),
        w.pending.len() > 0,
        trees.dom().contains(w.pending.last().rank()),
        closed(w, trees),
        sound(w, trees, root),
        limit_fault(w.opened[w.pending.last().rank()], trees[w.pending.last().rank()]) is None,
    ensures
        ({
            let t = w.pending.last().rank();
            let v = absorb(popped(w), w.opened[t], trees[t]);
            closed(v, trees) && sound(v, trees, root)
        }),
{
    let t = w.pending.last().rank();
    let s = trees[t];
    let p = popped(w);
    assert(w.opened.dom().contains(w.pending[w.pending.len() - 1].rank()));
    let at = w.opened[t];
    let v = absorb(p, at, s);
    absorb_grows(p, at, s);
    limit_none(at, s);
    pushing(p.pending, w.pending.last());
    assert(p.pending.push(w.pending.last()) =~= w.pending);
    assert forall|x: Seq<int>, i: int|
        v.opened.dom().contains(x) && !ranks(v.pending).contains(x) && trees.dom().contains(x) && 0
            <= i < trees[x].len() implies #[trigger] taken(v, trees, x, i) by {
        assert(p.opened.dom().contains(x));
        assert(v.opened[x] == w.opened[x]);
        assert(!ranks(p.pending).contains(x));
        let e = trees[x][i];
        if x == t {
            assert(s[i] == e);
        } else {
            assert(taken(w, trees, x, i));
            if e.mode is Tree {
                assert(p.opened.dom().contains(e.hash.rank()));
            }
        }
    }
    assert(sound(p, trees, root));
    absorb_is_sound(p, trees, root, t, at, s.len() as int);
    assert(s.take(s.len() as int) =~= s);
}

/// A walk that has just started is closed and sound.
pub proof fn start_keeps(trees: Trees, root: Digest)
    ensures
        walk_wf(started(root)),
        closed(started(root), trees),
        sound(started(root), trees, root.rank()),
{
    assert(seq![root][0] == root);
    assert(ranks(seq![root]).contains(root.rank()));
    assert(lies_at(trees, root.rank(), root.rank(), 0, 0));
}

proof fn directory_is_opened(
    w: WalkV,
    trees: Trees,
    root: Seq<int>,
    h: Seq<int>,
    n: nat,
    length: int,
)
    requires
        w.opened.dom().contains(root),
        w.pending.len() == 0,
        closed(w, trees),
        lies_at(trees, root, h, n, length),
    ensures
        w.opened.dom().contains(h),
        w.opened[h].depth >= n,
        w.opened[h].length >= length,
    decreases n,
{
    if n > 0 {
        let (t, i, l) = choose|t: Seq<int>, i: int, l: int|
            lies_at(trees, root, t, (n - 1) as nat, l) && #[trigger] leads(trees, t, i, h, l, length);
        directory_is_opened(w, trees, root, t, (n - 1) as nat, l);
        assert(!ranks(w.pending).contains(t));
        assert(taken(w, trees, t, i));
    }
}

/// A walk that is over has found the objects that its root reaches, all of them and no others, and
/// of these the targets of links. No directory lies deeper than is allowed, and no path is longer.
pub proof fn walk_is_exact(w: WalkV, trees: Trees, root: Seq<int>)
    requires
        walk_wf(w),
        w.pending.len() == 0,
        w.found.contains(root),
        w.opened.dom().contains(root),
        closed(w, trees),
        sound(w, trees, root),
    ensures
        forall|h: Seq<int>| w.found.contains(h) <==> #[trigger] reachable(trees, root, h),
        forall|h: Seq<int>| w.links.contains(h) <==> #[trigger] is_link_target(trees, root, h),
        forall|h: Seq<int>, n: nat, l: int| #[trigger]
            lies_at(trees, root, h, n, l) ==> n <= MAX_TREE_DEPTH && (trees.dom().contains(h)
                ==> forall|i: int|
                0 <= i < trees[h].len() ==> lengthened(l, (#[trigger] trees[h][i]).name)
                    <= MAX_TREE_PATH + 1),
{
    assert forall|t: Seq<int>| is_directory(trees, root, t) implies #[trigger] w.opened.dom().contains(
        t,
    ) by {
        let (n, l) = choose|n: nat, l: int| #[trigger] lies_at(trees, root, t, n, l);
        directory_is_opened(w, trees, root, t, n, l);
    }
    assert forall|h: Seq<int>| #[trigger] reachable(trees, root, h) implies w.found.contains(h) by {
        if h != root {
            let (t, i) = choose|t: Seq<int>, i: int|
                is_directory(trees, root, t) && #[trigger] names(trees, t, i, h);
            assert(w.opened.dom().contains(t));
            assert(!ranks(w.pending).contains(t));
            assert(taken(w, trees, t, i));
        }
    }
    assert forall|h: Seq<int>| #[trigger] is_link_target(trees, root, h) implies w.links.contains(h) by {
        let (t, i) = choose|t: Seq<int>, i: int|
            is_directory(trees, root, t) && #[trigger] names(trees, t, i, h)
                && trees[t][i].mode is Link;
        assert(w.opened.dom().contains(t));
        assert(!ranks(w.pending).contains(t));
        assert(taken(w, trees, t, i));
    }
    assert forall|h: Seq<int>, n: nat, l: int| #[trigger] lies_at(trees, root, h, n, l) implies n
        <= MAX_TREE_DEPTH && (trees.dom().contains(h) ==> forall|i: int|
        0 <= i < trees[h].len() ==> lengthened(l, (#[trigger] trees[h][i]).name) <= MAX_TREE_PATH
            + 1) by {
        directory_is_opened(w, trees, root, h, n, l);
        if trees.dom().contains(h) {
            assert forall|i: int| 0 <= i < trees[h].len() implies lengthened(
                l,
                (#[trigger] trees[h][i]).name,
            ) <= MAX_TREE_PATH + 1 by {
                assert(!ranks(w.pending).contains(h));
                assert(taken(w, trees, h, i));
            }
        }
    }
}

/// A walk is refused only where some directory lies too deep, or some path is too long.
pub proof fn refused_walk_is_too_far(w: WalkV, trees: Trees, root: Seq<int>)
    requires
        walk_wf(w),
        w.pending.len() > 0,
        trees.dom().contains(w.pending.last().rank()),
        sound(w, trees, root),
        limit_fault(w.opened[w.pending.last().rank()], trees[w.pending.last().rank()]) is Some,
    ensures
        (exists|h: Seq<int>, l: int| #[trigger]
            lies_at(trees, root, h, MAX_TREE_DEPTH as nat + 1, l)) || (exists|
            t: Seq<int>,
            n: nat,
            l: int,
            i: int,
        |
            #![trigger lies_at(trees, root, t, n, l), trees[t][i]]
            lies_at(trees, root, t, n, l) && 0 <= i < trees[t].len() && lengthened(
                l,
                trees[t][i].name,
            ) > MAX_TREE_PATH + 1),
{
    let t = w.pending.last().rank();
    let s = trees[t];
    assert(w.opened.dom().contains(w.pending[w.pending.len() - 1].rank()));
    let at = w.opened[t];
    let l = choose|l: int| #[trigger] lies_at(trees, root, t, at.depth as nat, l);
    let n = choose|n: nat| #[trigger] lies_at(trees, root, t, n, at.length as int);
    let i = limit_where(at, s);
    let e = s[i];
    if e.mode is Tree && at.depth + 1 > MAX_TREE_DEPTH {
        assert(leads(trees, t, i, e.hash.rank(), l, lengthened(l, e.name)));
        assert(lies_at(
            trees,
            root,
            e.hash.rank(),
            MAX_TREE_DEPTH as nat + 1,
            lengthened(l, e.name),
        ));
    } else {
        assert(lies_at(trees, root, t, n, at.length as int));
        assert(trees[t][i] == e);
    }
}

proof fn limit_where(at: Reach, s: Seq<EntryView>) -> (i: int)
    requires
        limit_fault(at, s) is Some,
    ensures
        0 <= i < s.len(),
        (s[i].mode is Tree && at.depth + 1 > MAX_TREE_DEPTH) || lengthened(
            at.length as int,
            s[i].name,
        ) > MAX_TREE_PATH + 1,
    decreases s.len(),
{
    if limit_fault(at, s.drop_last()) is Some {
        let i = limit_where(at, s.drop_last());
        assert(s.drop_last()[i] == s[i]);
        i
    } else {
        s.len() - 1
    }
}

/// An object is taken exactly where its bytes hash to its name and, for a link, hold no zero byte.
pub proof fn objects_are_checked(w: WalkV, h: Digest, bytes: Seq<u8>)
    ensures
        object_check(w, h, bytes) is Ok <==> blake3_of(bytes) == h.0@ && !(w.links.contains(h.rank())
            && bytes.contains(0u8)),
{
    if holds_nul(bytes) {
        let i = choose|i: int| 0 <= i < bytes.len() && #[trigger] bytes[i] == 0;
        assert(bytes.contains(bytes[i]));
    }
}

/// Entries are within bounds exactly where none is a tree too deep or a path too long.
proof fn entries_are_bounded(at: Reach, s: Seq<EntryView>)
    ensures
        limit_fault(at, s) is None <==> forall|i: int|
            0 <= i < s.len() ==> !((#[trigger] s[i]).mode is Tree && at.depth >= 512) && lengthened(
                at.length as int,
                s[i].name,
            ) <= 4097,
    decreases s.len(),
{
    if s.len() > 0 {
        let rest = s.drop_last();
        entries_are_bounded(at, rest);
        assert(forall|i: int| 0 <= i < rest.len() ==> #[trigger] s[i] == rest[i]);
        assert(forall|i: int| 0 <= i < rest.len() ==> #[trigger] rest[i] == s[i]);
        assert(s.last() == s[s.len() - 1]);
    }
}

/// Bytes are read as the next tree exactly where they hash to its name, are those of a tree, and lead
/// neither too deep nor to a path that is too long.
pub proof fn trees_are_checked(w: WalkV, bytes: Seq<u8>)
    ensures
        supply_fault(w, bytes) is None <==> {
            let at = w.opened[w.pending.last().rank()];
            &&& blake3_of(bytes) == w.pending.last().0@
            &&& tree_of(bytes) matches Ok(s) && forall|i: int|
                0 <= i < s.len() ==> !((#[trigger] s[i]).mode is Tree && at.depth >= 512)
                    && lengthened(at.length as int, s[i].name) <= 4097
        },
{
    if let Ok(s) = tree_of(bytes) {
        entries_are_bounded(w.opened[w.pending.last().rank()], s);
    }
}

} // verus!
