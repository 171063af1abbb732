use vstd::prelude::*;

use crate::path::{FsPath, PathModel};

verus! {

/// One entry met while walking a directory tree.
pub enum WalkEntry {
    /// A regular file, or a link that resolves to one.
    File(FsPath),
    /// A directory or anything else that is not a regular file.
    Other(FsPath),
    /// An entry that could not be read, at the given depth below the root
    /// (depth 0 is the root itself).
    Unreadable { depth: usize },
}

/// Why a walk failed as a whole.
pub enum WalkError {
    /// The root itself could not be read.
    RootUnreadable,
}

/// The outcome of a walk: the regular files found, and how many entries
/// were passed over because they could not be read.
pub struct Walk {
    pub files: Vec<FsPath>,
    pub skipped: usize,
}

/// The regular files among `es`, in order.
pub open spec fn files_of(es: Seq<WalkEntry>) -> Seq<PathModel>
    decreases es.len(),
{
    if es.len() == 0 {
        Seq::empty()
    } else {
        let rest = files_of(es.drop_last());
        match es.last() {
            WalkEntry::File(p) => rest.push(p@),
            _ => rest,
        }
    }
}

/// How many entries of `es` could not be read.
pub open spec fn unreadable_count(es: Seq<WalkEntry>) -> nat
    decreases es.len(),
{
    if es.len() == 0 {
        0
    } else {
        unreadable_count(es.drop_last()) + if es.last() is Unreadable {
            1nat
        } else {
            0nat
        }
    }
}

/// `e` says that the root itself could not be read.
pub open spec fn is_root_failure(e: WalkEntry) -> bool {
    match e {
        WalkEntry::Unreadable { depth } => depth == 0,
        _ => false,
    }
}

/// Some entry of `es` is the root, unreadable.
pub open spec fn root_unreadable(es: Seq<WalkEntry>) -> bool {
    exists|i: int| 0 <= i < es.len() && is_root_failure(#[trigger] es[i])
}

/// Counting unreadable entries never exceeds the number of entries.
proof fn lemma_unreadable_count_bound(es: Seq<WalkEntry>)
    ensures
        unreadable_count(es) <= es.len(),
    decreases es.len(),
{
    if es.len() > 0 {
        lemma_unreadable_count_bound(es.drop_last());
    }
}

/// Gathers the regular files of a walk. Unreadable entries below the root
/// are passed over and counted; an unreadable root fails the walk.
pub fn walk_items(entries: &Vec<WalkEntry>) -> (r: Result<Walk, WalkError>)
    ensures
        r is Err <==> root_unreadable(entries@),
        r matches Ok(w) ==> w.files@.map_values(|p: FsPath| p@) == files_of(entries@) && w.skipped
            == unreadable_count(entries@),
{
    let mut files: Vec<FsPath> = Vec::new();
    let mut skipped: usize = 0;
    let mut i: usize = 0;
    while i < entries.len()
        invariant
            i <= entries.len(),
            files@.map_values(|p: FsPath| p@) == files_of(entries@.subrange(0, i as int)),
            skipped == unreadable_count(entries@.subrange(0, i as int)),
            forall|k: int| 0 <= k < i ==> !is_root_failure(#[trigger] entries@[k]),
        decreases entries.len() - i,
    {
        let ghost pre = entries@.subrange(0, i as int);
        let ghost next = entries@.subrange(0, i as int + 1);
        assert(next.drop_last() =~= pre);
        proof {
            lemma_unreadable_count_bound(next);
        }
        match &entries[i] {
            WalkEntry::File(p) => {
                files.push(p.duplicate());
                assert(files@.map_values(|p: FsPath| p@) =~= files_of(next));
            },
            WalkEntry::Other(_) => {},
            WalkEntry::Unreadable { depth } => {
                if *depth == 0 {
                    return Err(WalkError::RootUnreadable);
                }
                skipped = skipped + 1;
            },
        }
        i = i + 1;
    }
    assert(entries@.subrange(0, i as int) =~= entries@);
    Ok(Walk { files, skipped })
}

} // verus!
