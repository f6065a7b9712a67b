//! Content addressing: hashes, tree objects, and what a tree reaches.
//!
//! A directory state is a tree object: its entries in the order of their names, encoded in one
//! way only, so that a directory state has exactly one hash.
use vstd::prelude::*;
use vstd::slice::slice_subrange;
use vstd::utf8::{
    decode_utf8, decode_utf8_encode_utf8, encode_scalar, encode_utf8, encode_utf8_decode_utf8,
    encode_utf8_valid_utf8, is_ascii_chars, is_ascii_chars_encode_utf8, valid_utf8,
};

use crate::bytes::{
    append_bytes, array32_at, array_extensional, find_byte, first_of, first_of_is_first,
    first_of_unique, has_prefix, same_bytes, starts_with,
};
use crate::error::Error;
use crate::order::{
    byte_rank, byte_rank_injective, char_rank, char_rank_injective, compare_bytes, lex_asymmetric,
    lex_before, lex_irreflexive, lex_total, lex_transitive, Key, Side,
};
use crate::text::{chars_of, same_text, utf8_text};
use crate::util::{fixed_hex, hex_decode_fixed, hex_encode, hex_text};

verus! {

/// The directory that is left out of every snapshot.
pub const ABRA_DIR: &'static str = ".abra";

/// A blake3-256 content hash.
#[derive(Clone, Copy, Debug, PartialEq, Eq, PartialOrd, Ord, Hash)]
pub struct Hash(pub [u8; 32]);

/// A content hash, under a name that no derive has.
pub type Digest = Hash;

/// What `blake3::hash` computes.
pub uninterp spec fn blake3_of(bytes: Seq<u8>) -> Seq<u8>;

/// `blake3::hash`: a function of the bytes alone.
#[verifier::external_body]
fn blake3_hash(bytes: &[u8]) -> (r: [u8; 32])
    ensures
        r@ == blake3_of(bytes@),
{
    *blake3::hash(bytes).as_bytes()
}

impl Hash {
    /// The hash of these bytes.
    pub fn of(bytes: &[u8]) -> (r: Self)
        ensures
            r.0@ == blake3_of(bytes@),
    {
        Hash(blake3_hash(bytes))
    }

    /// The raw bytes.
    pub fn as_bytes(&self) -> (r: &[u8; 32])
        ensures
            *r == self.0,
    {
        &self.0
    }

    /// The raw bytes.
    pub fn to_bytes(self) -> (r: [u8; 32])
        ensures
            r == self.0,
    {
        self.0
    }

    /// The hash with these raw bytes.
    pub fn from_bytes(bytes: [u8; 32]) -> (r: Self)
        ensures
            r.0 == bytes,
    {
        Hash(bytes)
    }

    /// Lowercase hex.
    pub fn to_hex(&self) -> (r: String)
        ensures
            r@ == hex_text(self.0@),
    {
        hex_encode(self.0.as_slice())
    }

    /// Reads 64 lowercase hex digits.
    pub fn from_hex(s: &str) -> (r: Result<Self, Error>)
        ensures
            r matches Ok(h) ==> fixed_hex(s@, 32, "hash") == Ok::<Seq<u8>, Error>(h.0@),
            r matches Err(e) ==> fixed_hex(s@, 32, "hash") == Err::<Seq<u8>, Error>(e),
    {
        match hex_decode_fixed::<32>(s, "hash") {
            Ok(raw) => Ok(Hash(raw)),
            Err(e) => Err(e),
        }
    }

    /// Whether two hashes are the same.
    pub fn same(&self, other: &Hash) -> (r: bool)
        ensures
            r == (*self == *other),
    {
        proof {
            array_extensional(self.0, other.0);
        }
        same_bytes(self.0.as_slice(), other.0.as_slice())
    }
}

impl std::str::FromStr for Hash {
    type Err = Error;

    fn from_str(s: &str) -> Result<Self, Error> {
        Hash::from_hex(s)
    }
}

impl Key for Hash {
    open spec fn rank(&self) -> Seq<int> {
        byte_rank(self.0@)
    }

    fn side(&self, other: &Self) -> (r: Side) {
        compare_bytes(self.0.as_slice(), other.0.as_slice())
    }
}

/// Hashes with the same rank are equal.
pub proof fn hash_rank_injective(a: Hash, b: Hash)
    ensures
        a.rank() == b.rank() ==> a == b,
{
    byte_rank_injective(a.0@, b.0@);
    array_extensional(a.0, b.0);
}

/// What the hash of a tree entry points at.
#[derive(Clone, Copy, Debug, PartialEq, Eq, PartialOrd, Ord, Hash, Structural)]
pub enum EntryMode {
    /// A blob: the bytes of a file.
    File,
    /// A blob: the bytes of an executable file.
    Exec,
    /// A blob: the target path of a symbolic link.
    Link,
    /// Another tree object.
    Tree,
}

/// How a mode is written in an encoded tree.
pub open spec fn mode_text(mode: EntryMode) -> Seq<char> {
    match mode {
        EntryMode::File => "file"@,
        EntryMode::Exec => "exec"@,
        EntryMode::Link => "link"@,
        EntryMode::Tree => "tree"@,
    }
}

/// The mode that an encoded tree spells with these bytes.
pub open spec fn mode_of(b: Seq<u8>) -> Result<EntryMode, Error> {
    if b == encode_utf8("file"@) {
        Ok(EntryMode::File)
    } else if b == encode_utf8("exec"@) {
        Ok(EntryMode::Exec)
    } else if b == encode_utf8("link"@) {
        Ok(EntryMode::Link)
    } else if b == encode_utf8("tree"@) {
        Ok(EntryMode::Tree)
    } else {
        Err(Error::Corrupt { kind: "tree", detail: "unknown mode" })
    }
}

impl EntryMode {
    /// How the mode is written.
    pub fn as_str(&self) -> (r: &'static str)
        ensures
            r@ == mode_text(*self),
    {
        match self {
            EntryMode::File => "file",
            EntryMode::Exec => "exec",
            EntryMode::Link => "link",
            EntryMode::Tree => "tree",
        }
    }

    /// Reads a mode.
    pub fn from_bytes(b: &[u8]) -> (r: Result<Self, Error>)
        ensures
            r == mode_of(b@),
    {
        if same_bytes(b, "file".as_bytes()) {
            Ok(EntryMode::File)
        } else if same_bytes(b, "exec".as_bytes()) {
            Ok(EntryMode::Exec)
        } else if same_bytes(b, "link".as_bytes()) {
            Ok(EntryMode::Link)
        } else if same_bytes(b, "tree".as_bytes()) {
            Ok(EntryMode::Tree)
        } else {
            Err(Error::Corrupt { kind: "tree", detail: "unknown mode" })
        }
    }
}

/// One name in a directory.
#[derive(Debug, PartialEq, Eq)]
pub struct TreeEntry {
    pub name: String,
    pub mode: EntryMode,
    pub hash: Hash,
}

/// What a tree entry holds.
pub struct EntryView {
    pub name: Seq<char>,
    pub mode: EntryMode,
    pub hash: Hash,
}

impl View for TreeEntry {
    type V = EntryView;

    open spec fn view(&self) -> EntryView {
        EntryView { name: self.name@, mode: self.mode, hash: self.hash }
    }
}

impl Clone for TreeEntry {
    fn clone(&self) -> (r: Self)
        ensures
            r == *self,
    {
        TreeEntry { name: self.name.clone(), mode: self.mode, hash: self.hash }
    }
}

/// What the entries of a vector hold.
pub open spec fn entry_views(s: Seq<TreeEntry>) -> Seq<EntryView> {
    s.map_values(|e: TreeEntry| e@)
}

/// What `check_name` answers.
pub open spec fn name_check(name: Seq<char>) -> Result<(), Error> {
    if name.len() == 0 {
        Err(Error::Invalid("empty tree entry name"))
    } else if name == "."@ || name == ".."@ {
        Err(Error::Invalid("illegal tree entry name"))
    } else if name.contains('/') || name.contains('\0') {
        Err(Error::Invalid("tree entry name contains a separator"))
    } else {
        Ok(())
    }
}

/// A name is one path component.
pub fn check_name(name: &str) -> (r: Result<(), Error>)
    ensures
        r == name_check(name@),
{
    let chars = chars_of(name);
    if chars.len() == 0 {
        return Err(Error::Invalid("empty tree entry name"));
    }
    if same_text(name, ".") || same_text(name, "..") {
        return Err(Error::Invalid("illegal tree entry name"));
    }
    let mut i: usize = 0;
    while i < chars.len()
        invariant
            i <= chars@.len(),
            chars@ == name@,
            name@.len() != 0,
            name@ != "."@,
            name@ != ".."@,
            forall|j: int| 0 <= j < i ==> name@[j] != '/' && name@[j] != '\0',
        decreases chars.len() - i,
    {
        let c = chars[i];
        if c == '/' || c == '\0' {
            assert(name@[i as int] == c);
            return Err(Error::Invalid("tree entry name contains a separator"));
        }
        i += 1;
    }
    Ok(())
}

/// The first fault among the names of the entries.
pub open spec fn name_fault(s: Seq<EntryView>) -> Option<Error>
    decreases s.len(),
{
    if s.len() == 0 {
        None
    } else {
        match name_check(s[0].name) {
            Err(e) => Some(e),
            Ok(_) => name_fault(s.drop_first()),
        }
    }
}

/// Two entries have the same name.
pub open spec fn has_twin(s: Seq<EntryView>) -> bool {
    exists|i: int, j: int| 0 <= i < j < s.len() && #[trigger] s[i].name == #[trigger] s[j].name
}

/// Every name stands before all that follow it, by the bytes of their UTF-8.
pub open spec fn names_ascend(s: Seq<EntryView>) -> bool {
    forall|i: int, j: int|
        0 <= i < j < s.len() ==> lex_before(
            char_rank(#[trigger] s[i].name),
            char_rank(#[trigger] s[j].name),
        )
}

/// Every name is one path component.
pub open spec fn names_legal(s: Seq<EntryView>) -> bool {
    forall|i: int| 0 <= i < s.len() ==> name_check(#[trigger] s[i].name) is Ok
}

/// Two sequences hold the same entries.
pub open spec fn same_entries(s: Seq<EntryView>, t: Seq<EntryView>) -> bool {
    s.len() == t.len() && forall|e: EntryView| s.contains(e) == #[trigger] t.contains(e)
}

/// No fault among the names means that each of them is legal, and the other way round.
pub proof fn name_fault_none(s: Seq<EntryView>)
    ensures
        name_fault(s) is None <==> names_legal(s),
    decreases s.len(),
{
    if s.len() != 0 {
        let t = s.drop_first();
        name_fault_none(t);
        if names_legal(t) && name_check(s[0].name) is Ok {
            assert forall|i: int| 0 <= i < s.len() implies name_check(#[trigger] s[i].name) is Ok by {
                if i > 0 {
                    assert(s[i] == t[i - 1]);
                }
            }
        }
        if names_legal(s) {
            assert forall|i: int| 0 <= i < t.len() implies name_check(#[trigger] t[i].name) is Ok by {
                assert(t[i] == s[i + 1]);
            }
        }
    }
}

/// Names in ascending order are all different.
pub proof fn ascending_no_twin(s: Seq<EntryView>)
    requires
        names_ascend(s),
    ensures
        !has_twin(s),
{
    if has_twin(s) {
        let (i, j) = choose|i: int, j: int|
            0 <= i < j < s.len() && #[trigger] s[i].name == #[trigger] s[j].name;
        lex_irreflexive(char_rank(s[i].name));
    }
}

/// Entries in order of their names are fixed by which entries there are.
pub proof fn ascending_unique(s: Seq<EntryView>, t: Seq<EntryView>)
    requires
        names_ascend(s),
        names_ascend(t),
        same_entries(s, t),
    ensures
        s == t,
    decreases s.len(),
{
    if s.len() == 0 {
        assert(s =~= t);
    } else {
        let n = s.len() - 1;
        let a = s[n];
        let b = t[n];
        assert(s.contains(a) && t.contains(b));
        assert(t.contains(a) && s.contains(b));
        let i = choose|i: int| 0 <= i < t.len() && t[i] == a;
        let j = choose|j: int| 0 <= j < s.len() && s[j] == b;
        if i < n {
            assert(lex_before(char_rank(t[i].name), char_rank(t[n].name)));
            if j < n {
                assert(lex_before(char_rank(s[j].name), char_rank(s[n].name)));
                lex_asymmetric(char_rank(a.name), char_rank(b.name));
            } else {
                lex_irreflexive(char_rank(a.name));
            }
        }
        assert(a == b);
        let s1 = s.drop_last();
        let t1 = t.drop_last();
        ascending_no_twin(s);
        ascending_no_twin(t);
        assert forall|e: EntryView| s1.contains(e) == #[trigger] t1.contains(e) by {
            if s1.contains(e) {
                let k = choose|k: int| 0 <= k < s1.len() && s1[k] == e;
                assert(s[k] == e);
                assert(s[k].name != s[n].name);
                assert(s.contains(e));
                assert(t.contains(e));
                let m = choose|m: int| 0 <= m < t.len() && t[m] == e;
                assert(t1[m] == e);
            }
            if t1.contains(e) {
                let k = choose|k: int| 0 <= k < t1.len() && t1[k] == e;
                assert(t[k] == e);
                assert(t[k].name != t[n].name);
                assert(t.contains(e));
                assert(s.contains(e));
                let m = choose|m: int| 0 <= m < s.len() && s[m] == e;
                assert(s1[m] == e);
            }
        }
        ascending_unique(s1, t1);
        assert(s =~= s1.push(a));
        assert(t =~= t1.push(b));
    }
}

/// A directory state: entries in the order of their names.
#[derive(Debug, PartialEq, Eq)]
pub struct Tree {
    pub entries: Vec<TreeEntry>,
}

impl View for Tree {
    type V = Seq<EntryView>;

    open spec fn view(&self) -> Seq<EntryView> {
        entry_views(self.entries@)
    }
}

/// What `Tree::new` answers for entries in some order.
pub open spec fn tree_fault(s: Seq<EntryView>) -> Option<Error> {
    if name_fault(s) is Some {
        name_fault(s)
    } else if has_twin(s) {
        Some(Error::Invalid("duplicate tree entry name"))
    } else {
        None
    }
}

/// The bytes of one entry: its mode, a space, its name, a NUL, its hash.
pub open spec fn entry_bytes(e: EntryView) -> Seq<u8> {
    encode_utf8(mode_text(e.mode)) + seq![0x20u8] + encode_utf8(e.name) + seq![0u8] + e.hash.0@
}

/// The bytes of entries, one after the other.
pub open spec fn entries_bytes(s: Seq<EntryView>) -> Seq<u8>
    decreases s.len(),
{
    if s.len() == 0 {
        Seq::empty()
    } else {
        entry_bytes(s[0]) + entries_bytes(s.drop_first())
    }
}

/// The bytes that every encoded tree begins with.
pub open spec fn tree_magic() -> Seq<u8> {
    encode_utf8("abra.tree.v1\n"@)
}

/// The canonical bytes of a tree.
pub open spec fn tree_bytes(s: Seq<EntryView>) -> Seq<u8> {
    tree_magic() + entries_bytes(s)
}

/// How a tree is written: the name of the format on a line, and then each entry with its mode in
/// words, a space, its name, a zero and the bytes of its hash. A name is one component of a path: it
/// is not empty, leads nowhere else, and holds neither a separator nor a zero.
pub proof fn tree_format(s: Seq<EntryView>, e: EntryView)
    ensures
        tree_bytes(Seq::empty()) == encode_utf8("abra.tree.v1\n"@),
        tree_bytes(s.push(e)) == tree_bytes(s) + encode_utf8(
            match e.mode {
                EntryMode::File => "file"@,
                EntryMode::Exec => "exec"@,
                EntryMode::Link => "link"@,
                EntryMode::Tree => "tree"@,
            },
        ) + seq![0x20u8] + encode_utf8(e.name) + seq![0u8] + e.hash.0@,
        name_check(e.name) is Ok <==> e.name.len() > 0 && e.name != "."@ && e.name != ".."@
            && forall|i: int| 0 <= i < e.name.len() ==> e.name[i] != '/' && e.name[i] != '\0',
{
    entries_bytes_push(s, e);
    assert(tree_bytes(Seq::empty()) =~= tree_magic());
    assert(tree_bytes(s.push(e)) =~= tree_bytes(s) + entry_bytes(e));
    assert(entry_bytes(e) =~= encode_utf8(mode_text(e.mode)) + seq![0x20u8] + encode_utf8(e.name)
        + seq![0u8] + e.hash.0@);
    assert(tree_bytes(s.push(e)) =~= tree_bytes(s) + encode_utf8(mode_text(e.mode)) + seq![0x20u8]
        + encode_utf8(e.name) + seq![0u8] + e.hash.0@);
    if name_check(e.name) is Ok {
        assert forall|i: int| 0 <= i < e.name.len() implies e.name[i] != '/' && e.name[i]
            != '\0' by {
            if e.name[i] == '/' || e.name[i] == '\0' {
                assert(e.name.contains(e.name[i]));
            }
        }
    }
}

/// Appending an entry appends its bytes.
pub proof fn entries_bytes_push(s: Seq<EntryView>, e: EntryView)
    ensures
        entries_bytes(s.push(e)) == entries_bytes(s) + entry_bytes(e),
    decreases s.len(),
{
    if s.len() == 0 {
        assert(s.push(e).drop_first() =~= Seq::<EntryView>::empty());
        assert(entries_bytes(s.push(e)) =~= entry_bytes(e) + entries_bytes(Seq::empty()));
        assert(entries_bytes(s.push(e)) =~= entries_bytes(s) + entry_bytes(e));
    } else {
        entries_bytes_push(s.drop_first(), e);
        assert(s.push(e).drop_first() =~= s.drop_first().push(e));
        assert(entries_bytes(s.push(e)) =~= entries_bytes(s) + entry_bytes(e));
    }
}

/// One entry read from the front of `s`, and what follows it.
pub open spec fn read_entry(s: Seq<u8>) -> Result<(EntryView, Seq<u8>), Error> {
    let sp = first_of(s, 0x20);
    if sp == s.len() {
        Err(Error::Corrupt { kind: "tree", detail: "entry has no mode separator" })
    } else {
        match mode_of(s.take(sp)) {
            Err(e) => Err(e),
            Ok(mode) => {
                let rest = s.skip(sp + 1);
                let nul = first_of(rest, 0);
                if nul == rest.len() {
                    Err(Error::Corrupt { kind: "tree", detail: "entry has no name terminator" })
                } else if !valid_utf8(rest.take(nul)) {
                    Err(Error::Corrupt { kind: "tree", detail: "name is not utf-8" })
                } else if rest.len() < nul + 33 {
                    Err(Error::Corrupt { kind: "tree", detail: "truncated entry hash" })
                } else {
                    let e = EntryView {
                        name: decode_utf8(rest.take(nul)),
                        mode,
                        hash: hash_of_bytes(rest.subrange(nul + 1, nul + 33)),
                    };
                    Ok((e, rest.skip(nul + 33)))
                }
            },
        }
    }
}

/// The hash whose raw bytes are `b`.
pub open spec fn hash_of_bytes(b: Seq<u8>) -> Hash {
    choose|h: Hash| h.0@ == b
}

/// All entries read from `s`, which they fill.
pub open spec fn read_entries(s: Seq<u8>) -> Result<Seq<EntryView>, Error>
    decreases s.len(),
{
    if s.len() == 0 {
        Ok(Seq::empty())
    } else {
        match read_entry(s) {
            Err(e) => Err(e),
            Ok((e, rest)) => if rest.len() < s.len() {
                match read_entries(rest) {
                    Err(x) => Err(x),
                    Ok(t) => Ok(seq![e] + t),
                }
            } else {
                arbitrary()
            },
        }
    }
}

/// What `Tree::decode` answers for `bytes`.
pub open spec fn tree_of(bytes: Seq<u8>) -> Result<Seq<EntryView>, Error> {
    if !has_prefix(bytes, tree_magic()) {
        Err(Error::Corrupt { kind: "tree", detail: "bad magic" })
    } else {
        match read_entries(bytes.skip(tree_magic().len() as int)) {
            Err(e) => Err(e),
            Ok(s) => match tree_fault(s) {
                Some(e) => Err(e),
                None => if names_ascend(s) {
                    Ok(s)
                } else {
                    Err(Error::Corrupt { kind: "tree", detail: "entries are not sorted by name" })
                },
            },
        }
    }
}

/// A read entry leaves less to read.
pub proof fn read_entry_shrinks(s: Seq<u8>)
    ensures
        read_entry(s) matches Ok(p) ==> p.1.len() < s.len(),
{
    let sp = first_of(s, 0x20);
    first_of_is_first(s, 0x20);
    if sp < s.len() {
        first_of_is_first(s.skip(sp + 1), 0);
    }
}

impl Tree {
    /// Entries are in order and their names are legal.
    pub open spec fn wf(&self) -> bool {
        names_ascend(self@) && names_legal(self@)
    }

    /// Builds a tree, sorting entries and rejecting illegal or duplicate names.
    pub fn new(entries: Vec<TreeEntry>) -> (r: Result<Self, Error>)
        ensures
            r matches Err(e) ==> tree_fault(entry_views(entries@)) == Some(e),
            r matches Ok(t) ==> tree_fault(entry_views(entries@)) is None && t.wf()
                && same_entries(t@, entry_views(entries@)),
    {
        let ghost all = entry_views(entries@);
        match first_name_fault(&entries) {
            Some(e) => {
                return Err(e);
            },
            None => {},
        }
        proof {
            name_fault_none(all);
        }
        let mut sorted: Vec<TreeEntry> = Vec::new();
        let mut i: usize = 0;
        assert(entry_views(sorted@) =~= Seq::<EntryView>::empty());
        while i < entries.len()
            invariant
                i <= entries@.len(),
                all == entry_views(entries@),
                name_fault(all) is None,
                names_legal(all),
                names_ascend(entry_views(sorted@)),
                same_entries(entry_views(sorted@), all.take(i as int)),
            decreases entries.len() - i,
        {
            let ghost before = entry_views(sorted@);
            let ghost e = all[i as int];
            match place_of(&sorted, &entries[i]) {
                None => {
                    proof {
                        let j = choose|j: int|
                            0 <= j < before.len() && (#[trigger] before[j]).name == e.name;
                        assert(before.contains(before[j]));
                        assert(all.take(i as int).contains(before[j]));
                        let k = choose|k: int|
                            0 <= k < i && all.take(i as int)[k] == before[j];
                        assert(all[k].name == all[i as int].name);
                    }
                    return Err(Error::Invalid("duplicate tree entry name"));
                },
                Some(p) => {
                    let copy = entries[i].clone();
                    sorted.insert(p, copy);
                    proof {
                        let after = entry_views(sorted@);
                        assert(after =~= before.insert(p as int, e));
                        insert_ascends(before, p as int, e);
                        insert_contains(before, p as int, e);
                        let now = all.take(i + 1);
                        assert(now =~= all.take(i as int).push(e));
                        assert forall|x: EntryView| after.contains(x) == #[trigger] now.contains(
                            x,
                        ) by {
                            assert(before.contains(x) == all.take(i as int).contains(x));
                            push_contains(all.take(i as int), e, x);
                        }
                    }
                },
            }
            i += 1;
        }
        assert(all.take(i as int) =~= all);
        proof {
            let t = entry_views(sorted@);
            ascending_no_twin(t);
            assert forall|k: int| 0 <= k < t.len() implies name_check(#[trigger] t[k].name) is Ok by {
                assert(t.contains(t[k]));
                assert(all.contains(t[k]));
            }
            no_twin_of_same_size(t, all);
        }
        Ok(Tree { entries: sorted })
    }

    /// The entries, in order.
    pub fn entries(&self) -> (r: &[TreeEntry])
        ensures
            r@ == self.entries@,
    {
        self.entries.as_slice()
    }

    /// Whether there are no entries.
    pub fn is_empty(&self) -> (r: bool)
        ensures
            r == (self@.len() == 0),
    {
        self.entries.len() == 0
    }

    /// The entry of that name.
    pub fn get(&self, name: &str) -> (r: Option<&TreeEntry>)
        requires
            self.wf(),
        ensures
            r matches Some(e) ==> self.entries@.contains(*e) && e.name@ == name@,
            r is None <==> forall|i: int| 0 <= i < self@.len() ==> (#[trigger] self@[i]).name != name@,
    {
        let mut i: usize = 0;
        while i < self.entries.len()
            invariant
                i <= self.entries@.len(),
                forall|j: int| 0 <= j < i ==> (#[trigger] self@[j]).name != name@,
            decreases self.entries.len() - i,
        {
            if same_text(self.entries[i].name.as_str(), name) {
                assert(self@[i as int].name == name@);
                return Some(&self.entries[i]);
            }
            i += 1;
        }
        None
    }

    /// The canonical bytes.
    pub fn encode(&self) -> (r: Vec<u8>)
        ensures
            r@ == tree_bytes(self@),
    {
        let mut out = crate::bytes::copy_bytes("abra.tree.v1\n".as_bytes());
        let mut i: usize = 0;
        assert(self@.take(0) =~= Seq::<EntryView>::empty());
        assert(out@ =~= tree_magic() + entries_bytes(self@.take(0)));
        while i < self.entries.len()
            invariant
                i <= self.entries@.len(),
                out@ == tree_magic() + entries_bytes(self@.take(i as int)),
            decreases self.entries.len() - i,
        {
            let e = &self.entries[i];
            let ghost before = out@;
            append_bytes(&mut out, e.mode.as_str().as_bytes());
            out.push(0x20);
            append_bytes(&mut out, e.name.as_str().as_bytes());
            out.push(0);
            append_bytes(&mut out, e.hash.0.as_slice());
            proof {
                let v = self@[i as int];
                entries_bytes_push(self@.take(i as int), v);
                assert(self@.take(i + 1) =~= self@.take(i as int).push(v));
                assert(out@ =~= before + entry_bytes(v));
                assert(out@ =~= tree_magic() + entries_bytes(self@.take(i + 1)));
            }
            i += 1;
        }
        assert(self@.take(i as int) =~= self@);
        out
    }

    /// Reads the canonical bytes.
    pub fn decode(bytes: &[u8]) -> (r: Result<Self, Error>)
        ensures
            r matches Ok(t) ==> t.wf() && tree_of(bytes@) == Ok::<Seq<EntryView>, Error>(t@),
            r matches Err(e) ==> tree_of(bytes@) == Err::<Seq<EntryView>, Error>(e),
    {
        let magic = "abra.tree.v1\n".as_bytes();
        if !starts_with(bytes, magic) {
            return Err(Error::Corrupt { kind: "tree", detail: "bad magic" });
        }
        let entries = match decode_entries(bytes, magic.len()) {
            Ok(entries) => entries,
            Err(e) => {
                return Err(e);
            },
        };
        let sorted = in_name_order(&entries);
        let ghost s = entry_views(entries@);
        let tree = match Tree::new(entries) {
            Ok(tree) => tree,
            Err(e) => {
                return Err(e);
            },
        };
        if !sorted {
            return Err(Error::Corrupt { kind: "tree", detail: "entries are not sorted by name" });
        }
        proof {
            ascending_unique(tree@, s);
        }
        Ok(tree)
    }

    /// The hash of the canonical bytes.
    pub fn hash(&self) -> (r: Hash)
        ensures
            r.0@ == blake3_of(tree_bytes(self@)),
    {
        Hash::of(self.encode().as_slice())
    }
}

/// Each pair of neighbours is in order, so all are.
fn in_name_order(entries: &Vec<TreeEntry>) -> (r: bool)
    ensures
        r == names_ascend(entry_views(entries@)),
{
    let ghost s = entry_views(entries@);
    let mut i: usize = 1;
    while i < entries.len()
        invariant
            1 <= i,
            i <= entries@.len() || entries@.len() == 0,
            s == entry_views(entries@),
            names_ascend(s.take(if i <= s.len() { i as int } else { s.len() as int })),
        decreases entries.len() - i,
    {
        let side = entries[i - 1].name.side(&entries[i].name);
        match side {
            Side::Before => {
                proof {
                    let t = s.take(i + 1);
                    assert forall|a: int, b: int| 0 <= a < b < t.len() implies lex_before(
                        char_rank(#[trigger] t[a].name),
                        char_rank(#[trigger] t[b].name),
                    ) by {
                        if b < i {
                            assert(s.take(i as int)[a] == t[a]);
                            assert(s.take(i as int)[b] == t[b]);
                        } else if a < i - 1 {
                            assert(s.take(i as int)[a] == t[a]);
                            assert(s.take(i as int)[i - 1] == t[i - 1]);
                            lex_transitive(
                                char_rank(t[a].name),
                                char_rank(t[i - 1].name),
                                char_rank(t[b].name),
                            );
                        }
                    }
                }
            },
            _ => {
                proof {
                    lex_total(char_rank(s[i - 1].name), char_rank(s[i as int].name));
                    lex_asymmetric(char_rank(s[i - 1].name), char_rank(s[i as int].name));
                    if names_ascend(s) {
                        assert(lex_before(char_rank(s[i - 1].name), char_rank(s[i as int].name)));
                    }
                }
                return false;
            },
        }
        i += 1;
    }
    assert(s.take(s.len() as int) =~= s);
    true
}

/// Reads entries until the bytes end.
fn decode_entries(bytes: &[u8], from: usize) -> (r: Result<Vec<TreeEntry>, Error>)
    requires
        from <= bytes@.len(),
    ensures
        r matches Ok(v) ==> read_entries(bytes@.skip(from as int)) == Ok::<Seq<EntryView>, Error>(
            entry_views(v@),
        ),
        r matches Err(e) ==> read_entries(bytes@.skip(from as int)) == Err::<
            Seq<EntryView>,
            Error,
        >(e),
{
    let ghost all = read_entries(bytes@.skip(from as int));
    let mut out: Vec<TreeEntry> = Vec::new();
    let mut at: usize = from;
    proof {
        assert(entry_views(out@) =~= Seq::<EntryView>::empty());
        if all is Ok {
            assert(Seq::<EntryView>::empty() + all->Ok_0 =~= all->Ok_0);
        }
    }
    while at < bytes.len()
        invariant
            at <= bytes@.len(),
            from <= bytes@.len(),
            all == read_entries(bytes@.skip(from as int)),
            match read_entries(bytes@.skip(at as int)) {
                Err(e) => all == Err::<Seq<EntryView>, Error>(e),
                Ok(t) => all == Ok::<Seq<EntryView>, Error>(entry_views(out@) + t),
            },
        decreases bytes.len() - at,
    {
        let ghost s = bytes@.skip(at as int);
        proof {
            first_of_is_first(s, 0x20);
            read_entry_shrinks(s);
        }
        let sp = match find_byte(bytes, at, 0x20) {
            Some(sp) => sp,
            None => {
                return Err(Error::Corrupt { kind: "tree", detail: "entry has no mode separator" });
            },
        };
        assert(bytes@.subrange(at as int, sp as int) =~= s.take(sp - at));
        let mode = match EntryMode::from_bytes(slice_subrange(bytes, at, sp)) {
            Ok(mode) => mode,
            Err(e) => {
                return Err(e);
            },
        };
        let start: usize = sp + 1;
        let ghost rest = s.skip(sp - at + 1);
        assert(rest =~= bytes@.skip(start as int));
        proof {
            first_of_is_first(rest, 0);
        }
        let nul = match find_byte(bytes, start, 0) {
            Some(nul) => nul,
            None => {
                return Err(Error::Corrupt { kind: "tree", detail: "entry has no name terminator" });
            },
        };
        assert(bytes@.subrange(start as int, nul as int) =~= rest.take(nul - start));
        let name = match utf8_text(slice_subrange(bytes, start, nul)) {
            Some(name) => name.to_owned(),
            None => {
                return Err(Error::Corrupt { kind: "tree", detail: "name is not utf-8" });
            },
        };
        if bytes.len() - (nul + 1) < 32 {
            return Err(Error::Corrupt { kind: "tree", detail: "truncated entry hash" });
        }
        let raw = array32_at(bytes, nul + 1);
        let hash = Hash(raw);
        let ghost before = entry_views(out@);
        out.push(TreeEntry { name, mode, hash });
        at = nul + 33;
        proof {
            let k = nul - start;
            assert(raw@ =~= rest.subrange(k + 1, k + 33));
            hash_of_bytes_is(hash);
            assert(bytes@.skip(at as int) =~= rest.skip(k + 33));
            let e = EntryView { name: name@, mode, hash };
            assert(read_entry(s) == Ok::<(EntryView, Seq<u8>), Error>((e, bytes@.skip(at as int))));
            assert(entry_views(out@) =~= before.push(e));
            if let Ok(t) = read_entries(bytes@.skip(at as int)) {
                assert(before + (seq![e] + t) =~= before.push(e) + t);
            }
        }
    }
    proof {
        assert(bytes@.skip(at as int) =~= Seq::<u8>::empty());
        assert(entry_views(out@) + Seq::<EntryView>::empty() =~= entry_views(out@));
    }
    Ok(out)
}

/// A hash is the one with its own bytes.
pub proof fn hash_of_bytes_is(h: Hash)
    ensures
        hash_of_bytes(h.0@) == h,
{
    let g = hash_of_bytes(h.0@);
    assert(g.0@ == h.0@);
    array_extensional(g.0, h.0);
}

/// The first fault among the names, in the order given.
fn first_name_fault(entries: &Vec<TreeEntry>) -> (r: Option<Error>)
    ensures
        r == name_fault(entry_views(entries@)),
{
    let ghost all = entry_views(entries@);
    let mut i: usize = 0;
    assert(all.skip(0) =~= all);
    while i < entries.len()
        invariant
            i <= entries@.len(),
            all == entry_views(entries@),
            name_fault(all) == name_fault(all.skip(i as int)),
        decreases entries.len() - i,
    {
        assert(all.skip(i as int)[0] == all[i as int]);
        assert(all.skip(i as int).drop_first() =~= all.skip(i + 1));
        match check_name(entries[i].name.as_str()) {
            Err(e) => {
                return Some(e);
            },
            Ok(_) => {},
        }
        i += 1;
    }
    None
}

/// Where an entry belongs among entries in order; nothing where its name is taken.
fn place_of(sorted: &Vec<TreeEntry>, e: &TreeEntry) -> (r: Option<usize>)
    requires
        names_ascend(entry_views(sorted@)),
    ensures
        r is None ==> exists|j: int|
            0 <= j < sorted@.len() && (#[trigger] entry_views(sorted@)[j]).name == e.name@,
        r matches Some(p) ==> {
            &&& p <= sorted@.len()
            &&& forall|j: int|
                0 <= j < p ==> lex_before(
                    char_rank(#[trigger] entry_views(sorted@)[j].name),
                    char_rank(e.name@),
                )
            &&& forall|j: int|
                p <= j < sorted@.len() ==> lex_before(
                    char_rank(e.name@),
                    char_rank(#[trigger] entry_views(sorted@)[j].name),
                )
        },
{
    let ghost s = entry_views(sorted@);
    let mut i: usize = 0;
    while i < sorted.len()
        invariant
            i <= sorted@.len(),
            s == entry_views(sorted@),
            names_ascend(s),
            forall|j: int|
                0 <= j < i ==> lex_before(char_rank(#[trigger] s[j].name), char_rank(e.name@)),
        decreases sorted.len() - i,
    {
        match sorted[i].name.side(&e.name) {
            Side::Before => {
                i += 1;
            },
            Side::Same => {
                proof {
                    char_rank_injective(s[i as int].name, e.name@);
                }
                return None;
            },
            Side::After => {
                proof {
                    let here = char_rank(s[i as int].name);
                    lex_total(here, char_rank(e.name@));
                    assert forall|j: int| i <= j < s.len() implies lex_before(
                        char_rank(e.name@),
                        char_rank(#[trigger] s[j].name),
                    ) by {
                        if j > i {
                            lex_transitive(char_rank(e.name@), here, char_rank(s[j].name));
                        }
                    }
                }
                return Some(i);
            },
        }
    }
    Some(i)
}

proof fn insert_ascends(s: Seq<EntryView>, p: int, e: EntryView)
    requires
        names_ascend(s),
        0 <= p <= s.len(),
        forall|j: int| 0 <= j < p ==> lex_before(char_rank(#[trigger] s[j].name), char_rank(e.name)),
        forall|j: int|
            p <= j < s.len() ==> lex_before(char_rank(e.name), char_rank(#[trigger] s[j].name)),
    ensures
        names_ascend(s.insert(p, e)),
{
    let t = s.insert(p, e);
    assert forall|a: int, b: int| 0 <= a < b < t.len() implies lex_before(
        char_rank(#[trigger] t[a].name),
        char_rank(#[trigger] t[b].name),
    ) by {
        let a0 = if a < p { a } else { a - 1 };
        let b0 = if b < p { b } else { b - 1 };
        if a == p {
            assert(t[b] == s[b0]);
        } else if b == p {
            assert(t[a] == s[a0]);
        } else {
            assert(t[a] == s[a0]);
            assert(t[b] == s[b0]);
        }
    }
}

proof fn insert_contains(s: Seq<EntryView>, p: int, e: EntryView)
    requires
        0 <= p <= s.len(),
    ensures
        forall|x: EntryView| #[trigger] s.insert(p, e).contains(x) <==> s.contains(x) || x == e,
{
    let t = s.insert(p, e);
    assert forall|x: EntryView| #[trigger] t.contains(x) <==> s.contains(x) || x == e by {
        if t.contains(x) {
            let k = choose|k: int| 0 <= k < t.len() && t[k] == x;
            if k < p {
                assert(s[k] == x);
            } else if k > p {
                assert(s[k - 1] == x);
            }
        }
        if s.contains(x) {
            let k = choose|k: int| 0 <= k < s.len() && s[k] == x;
            if k < p {
                assert(t[k] == x);
            } else {
                assert(t[k + 1] == x);
            }
        }
        assert(t[p] == e);
    }
}

proof fn push_contains(s: Seq<EntryView>, e: EntryView, x: EntryView)
    ensures
        s.push(e).contains(x) <==> s.contains(x) || x == e,
{
    insert_contains(s, s.len() as int, e);
    assert(s.insert(s.len() as int, e) =~= s.push(e));
}

/// Where one of two sequences of the same entries and length has no twin, neither has the other.
proof fn no_twin_of_same_size(s: Seq<EntryView>, t: Seq<EntryView>)
    requires
        !has_twin(s),
        same_entries(s, t),
    ensures
        !has_twin(t),
    decreases s.len(),
{
    if has_twin(t) {
        let (i, j) = choose|i: int, j: int|
            0 <= i < j < t.len() && #[trigger] t[i].name == #[trigger] t[j].name;
        assert(t.contains(t[i]) && t.contains(t[j]));
        assert(s.contains(t[i]) && s.contains(t[j]));
        let a = choose|a: int| 0 <= a < s.len() && s[a] == t[i];
        let b = choose|b: int| 0 <= b < s.len() && s[b] == t[j];
        if a < b {
            assert(s[a].name == s[b].name);
        } else if b < a {
            assert(s[b].name == s[a].name);
        }
        assert(a == b);
        let rest = t.remove(j);
        assert forall|x: EntryView| s.contains(x) implies rest.contains(x) by {
            assert(t.contains(x));
            let k = choose|k: int| 0 <= k < t.len() && t[k] == x;
            if k < j {
                assert(rest[k] == x);
            } else if k > j {
                assert(rest[k - 1] == x);
            } else {
                assert(rest[i] == x);
            }
        }
        more_than_distinct(s, rest);
    }
}

/// Entries without twins are no more than any sequence that holds them all.
proof fn more_than_distinct(s: Seq<EntryView>, t: Seq<EntryView>)
    requires
        !has_twin(s),
        forall|x: EntryView| s.contains(x) ==> t.contains(x),
    ensures
        s.len() <= t.len(),
    decreases s.len(),
{
    if s.len() > 0 {
        let x = s.last();
        assert(s.contains(x));
        let k = choose|k: int| 0 <= k < t.len() && t[k] == x;
        let s1 = s.drop_last();
        let t1 = t.remove(k);
        assert forall|y: EntryView| s1.contains(y) implies t1.contains(y) by {
            let a = choose|a: int| 0 <= a < s1.len() && s1[a] == y;
            assert(s[a] == y);
            assert(s[a].name != s[s.len() - 1].name);
            assert(s.contains(y));
            assert(t.contains(y));
            let b = choose|b: int| 0 <= b < t.len() && t[b] == y;
            if b < k {
                assert(t1[b] == y);
            } else if b > k {
                assert(t1[b - 1] == y);
            }
        }
        assert(!has_twin(s1)) by {
            if has_twin(s1) {
                let (i, j) = choose|i: int, j: int|
                    0 <= i < j < s1.len() && #[trigger] s1[i].name == #[trigger] s1[j].name;
                assert(s[i].name == s[j].name);
            }
        }
        more_than_distinct(s1, t1);
    }
}

/// The letters of a mode are not spaces, and name the mode.
proof fn mode_reads_back(mode: EntryMode)
    ensures
        mode_of(encode_utf8(mode_text(mode))) == Ok::<EntryMode, Error>(mode),
        forall|i: int|
            0 <= i < encode_utf8(mode_text(mode)).len() ==> encode_utf8(mode_text(mode))[i]
                != 0x20,
{
    reveal_strlit("file");
    reveal_strlit("exec");
    reveal_strlit("link");
    reveal_strlit("tree");
    assert(is_ascii_chars("file"@));
    assert(is_ascii_chars("exec"@));
    assert(is_ascii_chars("link"@));
    assert(is_ascii_chars("tree"@));
    is_ascii_chars_encode_utf8("file"@);
    is_ascii_chars_encode_utf8("exec"@);
    is_ascii_chars_encode_utf8("link"@);
    is_ascii_chars_encode_utf8("tree"@);
    let m = encode_utf8(mode_text(mode));
    assert(m[0] == mode_text(mode)[0] as u8);
    assert(encode_utf8("file"@)[0] == 0x66u8);
    assert(encode_utf8("exec"@)[0] == 0x65u8);
    assert(encode_utf8("link"@)[0] == 0x6cu8);
    assert(encode_utf8("tree"@)[0] == 0x74u8);
    assert forall|i: int| 0 <= i < m.len() implies m[i] != 0x20 by {
        assert(m[i] == mode_text(mode)[i] as u8);
    }
}

/// No byte of a scalar value other than zero is zero.
proof fn scalar_bytes_nonzero(ch: char)
    requires
        ch != '\0',
    ensures
        forall|i: int|
            0 <= i < encode_scalar(ch as u32).len() ==> #[trigger] encode_scalar(ch as u32)[i]
                != 0,
{
    let c = ch as u32;
    vstd::utf8::char_is_scalar(ch);
    assert(c != 0);
    assert((c < 0x80 && c != 0 ==> (c & 0x7f) as u8 != 0)) by (bit_vector);
    assert(forall|x: u8| (0xc0u8 | x) != 0) by (bit_vector);
    assert(forall|x: u8| (0xe0u8 | x) != 0) by (bit_vector);
    assert(forall|x: u8| (0xf0u8 | x) != 0) by (bit_vector);
    assert(forall|x: u8| (0x80u8 | x) != 0) by (bit_vector);
}

/// Text without NUL has no zero byte.
pub proof fn text_bytes_nonzero(s: Seq<char>)
    requires
        !s.contains('\0'),
    ensures
        forall|i: int| 0 <= i < encode_utf8(s).len() ==> encode_utf8(s)[i] != 0,
    decreases s.len(),
{
    if s.len() != 0 {
        let t = s.drop_first();
        assert(s.contains(s[0]));
        scalar_bytes_nonzero(s[0]);
        assert(!t.contains('\0')) by {
            if t.contains('\0') {
                let k = choose|k: int| 0 <= k < t.len() && t[k] == '\0';
                assert(s[k + 1] == '\0');
            }
        }
        text_bytes_nonzero(t);
        let head = encode_scalar(s[0] as u32);
        assert(encode_utf8(s) == head + encode_utf8(t));
        assert forall|i: int| 0 <= i < encode_utf8(s).len() implies encode_utf8(s)[i] != 0 by {
            if i >= head.len() {
                assert(encode_utf8(s)[i] == encode_utf8(t)[i - head.len()]);
            }
        }
    }
}

/// An encoded entry is read back, and what follows it is left.
proof fn entry_reads_back(e: EntryView, rest: Seq<u8>)
    requires
        name_check(e.name) is Ok,
    ensures
        read_entry(entry_bytes(e) + rest) == Ok::<(EntryView, Seq<u8>), Error>((e, rest)),
{
    let s = entry_bytes(e) + rest;
    let m = encode_utf8(mode_text(e.mode));
    let n = encode_utf8(e.name);
    mode_reads_back(e.mode);
    text_bytes_nonzero(e.name);
    assert(s[m.len() as int] == 0x20);
    assert forall|j: int| 0 <= j < m.len() implies s[j] != 0x20 by {
        assert(s[j] == m[j]);
    }
    first_of_unique(s, 0x20, m.len() as int);
    assert(s.take(m.len() as int) =~= m);
    let after = s.skip(m.len() as int + 1);
    assert(after =~= n + seq![0u8] + e.hash.0@ + rest);
    assert forall|j: int| 0 <= j < n.len() implies after[j] != 0 by {
        assert(after[j] == n[j]);
    }
    assert(after[n.len() as int] == 0);
    first_of_unique(after, 0, n.len() as int);
    assert(after.take(n.len() as int) =~= n);
    encode_utf8_valid_utf8(e.name);
    encode_utf8_decode_utf8(e.name);
    assert(after.subrange(n.len() as int + 1, n.len() as int + 33) =~= e.hash.0@);
    hash_of_bytes_is(e.hash);
    assert(after.skip(n.len() as int + 33) =~= rest);
}

proof fn entries_read_back(s: Seq<EntryView>)
    requires
        names_legal(s),
    ensures
        read_entries(entries_bytes(s)) == Ok::<Seq<EntryView>, Error>(s),
    decreases s.len(),
{
    if s.len() == 0 {
        assert(s =~= Seq::<EntryView>::empty());
    } else {
        let t = s.drop_first();
        assert forall|i: int| 0 <= i < t.len() implies name_check(#[trigger] t[i].name) is Ok by {
            assert(t[i] == s[i + 1]);
        }
        entries_read_back(t);
        entry_reads_back(s[0], entries_bytes(t));
        read_entry_shrinks(entries_bytes(s));
        assert(seq![s[0]] + t =~= s);
    }
}

/// Reading the bytes of a tree gives the tree back.
pub proof fn tree_round_trip(s: Seq<EntryView>)
    requires
        names_ascend(s),
        names_legal(s),
    ensures
        tree_of(tree_bytes(s)) == Ok::<Seq<EntryView>, Error>(s),
{
    entries_read_back(s);
    name_fault_none(s);
    ascending_no_twin(s);
    let b = tree_bytes(s);
    assert(b.take(tree_magic().len() as int) =~= tree_magic());
    assert(b.skip(tree_magic().len() as int) =~= entries_bytes(s));
}

proof fn read_entry_writes_back(s: Seq<u8>)
    ensures
        read_entry(s) matches Ok(p) ==> entry_bytes(p.0) + p.1 == s,
{
    if let Ok((e, tail)) = read_entry(s) {
        let sp = first_of(s, 0x20);
        first_of_is_first(s, 0x20);
        let rest = s.skip(sp + 1);
        let nul = first_of(rest, 0);
        first_of_is_first(rest, 0);
        assert(encode_utf8(mode_text(e.mode)) == s.take(sp));
        decode_utf8_encode_utf8(rest.take(nul));
        let raw = rest.subrange(nul + 1, nul + 33);
        array_of(raw);
        assert(e.hash.0@ == raw);
        assert(s[sp] == 0x20);
        assert(rest[nul] == 0);
        assert(entry_bytes(e) + tail =~= s);
    }
}

/// Some array holds any 32 bytes.
proof fn array_of(b: Seq<u8>)
    requires
        b.len() == 32,
    ensures
        exists|h: Hash| h.0@ == b,
{
    let a: [u8; 32] = array_from(b, 32);
    array_from_holds(b, 32);
    assert(Hash(a).0@ =~= b);
}

spec fn array_from(b: Seq<u8>, n: nat) -> [u8; 32]
    decreases n,
{
    if n == 0 {
        arbitrary()
    } else {
        vstd::array::spec_array_update(array_from(b, (n - 1) as nat), n - 1, b[n - 1])
    }
}

proof fn array_from_holds(b: Seq<u8>, n: nat)
    requires
        n <= 32,
        b.len() == 32,
    ensures
        forall|i: int| 0 <= i < n ==> array_from(b, n)@[i] == b[i],
    decreases n,
{
    if n > 0 {
        array_from_holds(b, (n - 1) as nat);
    }
}

proof fn read_entries_write_back(s: Seq<u8>)
    ensures
        read_entries(s) matches Ok(t) ==> entries_bytes(t) == s,
    decreases s.len(),
{
    if s.len() == 0 {
        assert(s =~= Seq::<u8>::empty());
    } else if let Ok((e, rest)) = read_entry(s) {
        read_entry_shrinks(s);
        read_entry_writes_back(s);
        read_entries_write_back(rest);
        if let Ok(t) = read_entries(rest) {
            let all = seq![e] + t;
            assert(all.drop_first() =~= t);
        }
    }
}

/// Bytes that read as a tree are the bytes of that tree: no tree has a second encoding.
pub proof fn tree_bytes_canonical(b: Seq<u8>)
    ensures
        tree_of(b) matches Ok(s) ==> tree_bytes(s) == b,
{
    if tree_of(b) is Ok {
        let m = tree_magic();
        read_entries_write_back(b.skip(m.len() as int));
        assert(b =~= b.take(m.len() as int) + b.skip(m.len() as int));
    }
}

/// The hash of a directory state does not depend on the order in which its entries were given.
pub proof fn tree_hash_order_independent(
    s: Seq<EntryView>,
    t: Seq<EntryView>,
    from: Seq<EntryView>,
    other: Seq<EntryView>,
)
    requires
        same_entries(from, other),
        names_ascend(s),
        same_entries(s, from),
        names_ascend(t),
        same_entries(t, other),
    ensures
        blake3_of(tree_bytes(s)) == blake3_of(tree_bytes(t)),
{
    assert forall|e: EntryView| s.contains(e) == #[trigger] t.contains(e) by {
        assert(s.contains(e) == from.contains(e));
        assert(from.contains(e) == other.contains(e));
    }
    ascending_unique(s, t);
}

} // verus!
