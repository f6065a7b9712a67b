//! The objects that a manifest reaches.
use vstd::prelude::*;

use crate::cas::Digest;
use crate::link::LinkMode;
use crate::manifest::Manifest;
use crate::net::plan::{native_blobs, native_rank};
use crate::order::Key;
use crate::table::Table;

verus! {

/// The objects that every receiver needs: those of the files, and the thumbnail. `tree` are the
/// objects that the directory of the files reaches.
pub fn portable_objects(m: &Manifest, tree: Table<Digest, ()>) -> (r: Table<Digest, ()>)
    requires
        tree.wf(),
    ensures
        r.wf(),
        forall|k: Seq<int>| #[trigger]
            r@.dom().contains(k) <==> tree@.dom().contains(k) || (m.thumbnail matches Some(t)
                && t.rank() == k),
{
    let mut out = tree;
    match m.thumbnail {
        Some(t) => {
            out.insert(t, ());
        },
        None => {},
    }
    out
}

/// All objects of a manifest: the portable ones, and the native ones.
pub fn reached_objects(m: &Manifest, portable: Table<Digest, ()>) -> (r: Table<Digest, ()>)
    requires
        portable.wf(),
    ensures
        r.wf(),
        forall|k: Seq<int>| #[trigger]
            r@.dom().contains(k) <==> portable@.dom().contains(k) || native_rank(m.native@, k),
{
    let mut out = portable;
    let native = native_blobs(&m.native);
    out.extend(native);
    out
}

/// The digests of a table, in order.
pub open spec fn digests_of(s: Seq<(Digest, ())>) -> Seq<Digest> {
    Seq::new(s.len(), |i: int| s[i].0)
}

/// The objects that a link carries: all that the manifest reaches, or the thumbnail alone.
pub fn linked_objects(m: &Manifest, mode: LinkMode, reached: &Table<Digest, ()>) -> (r: Vec<Digest>)
    ensures
        r@ == match mode {
            LinkMode::Full => digests_of(reached.entries@),
            LinkMode::Floor => match m.thumbnail {
                Some(t) => seq![t],
                None => Seq::empty(),
            },
        },
{
    let mut out: Vec<Digest> = Vec::new();
    match mode {
        LinkMode::Full => {
            let mut i: usize = 0;
            while i < reached.entries.len()
                invariant
                    i <= reached.entries@.len(),
                    out@ =~= digests_of(reached.entries@.take(i as int)),
                decreases reached.entries.len() - i,
            {
                out.push(reached.entries[i].0);
                i += 1;
            }
            assert(reached.entries@.take(i as int) =~= reached.entries@);
        },
        LinkMode::Floor => match m.thumbnail {
            Some(t) => {
                out.push(t);
                assert(out@ =~= seq![t]);
            },
            None => {},
        },
    }
    out
}

} // verus!
