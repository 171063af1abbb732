use vstd::prelude::*;

use crate::path::{is_under, rel_to, FsPath, PathModel};

verus! {

/// The model of a listing: its root, and the files found under it.
pub type ListingModel = (PathModel, Seq<PathModel>);

/// The model of a copy task: the source file and its destination.
pub type TaskModel = (PathModel, PathModel);

/// The files discovered under one source root.
pub struct SourceListing {
    pub root: FsPath,
    pub files: Vec<FsPath>,
}

/// One pending copy: `source` is to be copied to `dest`.
pub struct CopyTask {
    pub source: FsPath,
    pub dest: FsPath,
}

/// Why no copy plan could be made.
pub enum PlanError {
    /// File `file` of listing `listing` does not lie under that listing's root.
    PathMapping { listing: usize, file: usize },
}

impl View for SourceListing {
    type V = ListingModel;

    open spec fn view(&self) -> ListingModel {
        (self.root@, self.files@.map_values(|p: FsPath| p@))
    }
}

impl View for CopyTask {
    type V = TaskModel;

    open spec fn view(&self) -> TaskModel {
        (self.source@, self.dest@)
    }
}

/// The models of a sequence of paths.
pub open spec fn path_models(ps: Seq<FsPath>) -> Seq<PathModel> {
    ps.map_values(|p: FsPath| p@)
}

/// The models of a sequence of listings.
pub open spec fn listing_models(ls: Seq<SourceListing>) -> Seq<ListingModel> {
    ls.map_values(|l: SourceListing| l@)
}

/// The models of a sequence of tasks.
pub open spec fn task_models(ts: Seq<CopyTask>) -> Seq<TaskModel> {
    ts.map_values(|t: CopyTask| t@)
}

/// Where file `j` of listing `l` belongs under the destination root `root`.
pub open spec fn dest_of(l: ListingModel, j: int, root: PathModel) -> PathModel {
    root + rel_to(l.1[j], l.0)
}

/// Every file of every listing lies under that listing's root.
pub open spec fn all_under(ls: Seq<ListingModel>) -> bool {
    forall|k: int, j: int|
        0 <= k < ls.len() && 0 <= j < ls[k].1.len() ==> is_under(#[trigger] ls[k].1[j], ls[k].0)
}

/// `src` is a file of some listing that belongs at `dest` under `root`.
pub open spec fn maps_to(ls: Seq<ListingModel>, root: PathModel, src: PathModel, dest: PathModel) -> bool {
    exists|k: int, j: int|
        0 <= k < ls.len() && 0 <= j < ls[k].1.len() && #[trigger] ls[k].1[j] == src && dest
            == dest_of(ls[k], j, root)
}

/// Copying `src` to `dest` is owed: `src` is a file of some listing, `dest`
/// is where it belongs under `root`, and nothing is at `dest` yet.
pub open spec fn is_candidate(
    ls: Seq<ListingModel>,
    root: PathModel,
    existing: Set<PathModel>,
    src: PathModel,
    dest: PathModel,
) -> bool {
    maps_to(ls, root, src, dest) && !existing.contains(dest)
}

/// `tasks` is a copy plan for the listings `ls`, the destination root `root`
/// and the destination files `existing`: each task is owed, no two tasks share
/// a destination, and every owed destination has a task. Which source wins
/// where two map to one destination is left open.
pub open spec fn is_plan(
    ls: Seq<ListingModel>,
    root: PathModel,
    existing: Set<PathModel>,
    tasks: Seq<TaskModel>,
) -> bool {
    &&& all_under(ls)
    &&& forall|i: int|
        0 <= i < tasks.len() ==> is_candidate(ls, root, existing, (#[trigger] tasks[i]).0, tasks[i].1)
    &&& forall|i: int, j: int|
        0 <= i < tasks.len() && 0 <= j < tasks.len() && i != j ==> (#[trigger] tasks[i]).1
            != (#[trigger] tasks[j]).1
    &&& forall|k: int, j: int|
        0 <= k < ls.len() && 0 <= j < ls[k].1.len() && !existing.contains(
            #[trigger] dest_of(ls[k], j, root),
        ) ==> exists|i: int| 0 <= i < tasks.len() && (#[trigger] tasks[i]).1 == dest_of(ls[k], j, root)
}

/// Whether some task already targets `p`.
fn has_dest(tasks: &Vec<CopyTask>, p: &FsPath) -> (r: bool)
    ensures
        r == exists|i: int| 0 <= i < tasks@.len() && (#[trigger] tasks@[i])@.1 == p@,
{
    let mut i: usize = 0;
    while i < tasks.len()
        invariant
            i <= tasks.len(),
            forall|k: int| 0 <= k < i ==> (#[trigger] tasks@[k])@.1 != p@,
        decreases tasks.len() - i,
    {
        if tasks[i].dest.same_as(p) {
            return true;
        }
        i = i + 1;
    }
    false
}

/// Whether `p` is one of the files in `ps`.
fn has_file(ps: &Vec<FsPath>, p: &FsPath) -> (r: bool)
    ensures
        r == path_models(ps@).to_set().contains(p@),
{
    let mut i: usize = 0;
    while i < ps.len()
        invariant
            i <= ps.len(),
            forall|k: int| 0 <= k < i ==> (#[trigger] ps@[k])@ != p@,
        decreases ps.len() - i,
    {
        if ps[i].same_as(p) {
            assert(path_models(ps@)[i as int] == p@);
            return true;
        }
        i = i + 1;
    }
    proof {
        if path_models(ps@).contains(p@) {
            let k = choose|k: int| 0 <= k < path_models(ps@).len() && path_models(ps@)[k] == p@;
            assert(ps@[k]@ == p@);
        }
    }
    false
}

/// The copy plan: for every file of every listing, the destination where it
/// belongs under `dest_root`, unless `dest_files` already holds that path or
/// an earlier task already targets it. Fails only where a file does not lie
/// under the root of its listing.
pub fn plan_copies(
    sources: &Vec<SourceListing>,
    dest_root: &FsPath,
    dest_files: &Vec<FsPath>,
) -> (r: Result<Vec<CopyTask>, PlanError>)
    ensures
        r is Ok <==> all_under(listing_models(sources@)),
        r matches Ok(tasks) ==> is_plan(
            listing_models(sources@),
            dest_root@,
            path_models(dest_files@).to_set(),
            task_models(tasks@),
        ),
        r matches Err(PlanError::PathMapping { listing, file }) ==> listing < sources@.len()
            && file < sources@[listing as int].files@.len() && !is_under(
            sources@[listing as int].files@[file as int]@,
            sources@[listing as int].root@,
        ),
{
    let ghost ls = listing_models(sources@);
    let ghost root = dest_root@;
    let ghost existing = path_models(dest_files@).to_set();
    let mut tasks: Vec<CopyTask> = Vec::new();
    let mut k: usize = 0;
    while k < sources.len()
        invariant
            k <= sources.len(),
            ls == listing_models(sources@),
            root == dest_root@,
            existing == path_models(dest_files@).to_set(),
            forall|kk: int, j: int|
                0 <= kk < k && 0 <= j < ls[kk].1.len() ==> is_under(#[trigger] ls[kk].1[j], ls[kk].0),
            forall|i: int|
                0 <= i < tasks@.len() ==> is_candidate(ls, root, existing, (#[trigger] tasks@[i])@.0, tasks@[i]@.1),
            forall|i: int, j: int|
                0 <= i < tasks@.len() && 0 <= j < tasks@.len() && i != j ==> (#[trigger] tasks@[i])@.1
                    != (#[trigger] tasks@[j])@.1,
            forall|kk: int, j: int|
                0 <= kk < k && 0 <= j < ls[kk].1.len() && !existing.contains(
                    #[trigger] dest_of(ls[kk], j, root),
                ) ==> exists|i: int| 0 <= i < tasks@.len() && (#[trigger] tasks@[i])@.1 == dest_of(ls[kk], j, root),
        decreases sources.len() - k,
    {
        let listing = &sources[k];
        let mut j: usize = 0;
        while j < listing.files.len()
            invariant
                k < sources.len(),
                listing == sources@[k as int],
                j <= listing.files.len(),
                ls == listing_models(sources@),
                root == dest_root@,
                existing == path_models(dest_files@).to_set(),
                forall|kk: int, jj: int|
                    0 <= kk < k && 0 <= jj < ls[kk].1.len() ==> is_under(#[trigger] ls[kk].1[jj], ls[kk].0),
                forall|jj: int| 0 <= jj < j ==> is_under(#[trigger] ls[k as int].1[jj], ls[k as int].0),
                forall|i: int|
                    0 <= i < tasks@.len() ==> is_candidate(ls, root, existing, (#[trigger] tasks@[i])@.0, tasks@[i]@.1),
                forall|i: int, i2: int|
                    0 <= i < tasks@.len() && 0 <= i2 < tasks@.len() && i != i2 ==> (#[trigger] tasks@[i])@.1
                        != (#[trigger] tasks@[i2])@.1,
                forall|kk: int, jj: int|
                    0 <= kk < k && 0 <= jj < ls[kk].1.len() && !existing.contains(
                        #[trigger] dest_of(ls[kk], jj, root),
                    ) ==> exists|i: int| 0 <= i < tasks@.len() && (#[trigger] tasks@[i])@.1 == dest_of(ls[kk], jj, root),
                forall|jj: int|
                    0 <= jj < j && !existing.contains(
                        #[trigger] dest_of(ls[k as int], jj, root),
                    ) ==> exists|i: int| 0 <= i < tasks@.len() && (#[trigger] tasks@[i])@.1 == dest_of(ls[k as int], jj, root),
            decreases listing.files.len() - j,
        {
            let file = &listing.files[j];
            assert(ls[k as int].1[j as int] == file@);
            let rel = match file.relative_to(&listing.root) {
                Some(rel) => rel,
                None => {
                    return Err(PlanError::PathMapping { listing: k, file: j });
                },
            };
            let dest = dest_root.join(&rel);
            assert(dest@ == dest_of(ls[k as int], j as int, root));
            if !has_file(dest_files, &dest) && !has_dest(&tasks, &dest) {
                let ghost old_tasks = tasks@;
                tasks.push(CopyTask { source: file.duplicate(), dest });
                proof {
                    assert(tasks@.last()@ == (file@, dest@));
                    assert(is_candidate(ls, root, existing, file@, dest@));
                    assert forall|i: int| 0 <= i < old_tasks.len() implies tasks@[i] == old_tasks[i] by {}
                }
            }
            j = j + 1;
        }
        k = k + 1;
    }
    proof {
        let tm = task_models(tasks@);
        assert forall|i: int| 0 <= i < tm.len() implies #[trigger] tm[i] == tasks@[i]@ by {}
        assert forall|kk: int, jj: int|
            0 <= kk < ls.len() && 0 <= jj < ls[kk].1.len() && !existing.contains(
                #[trigger] dest_of(ls[kk], jj, root),
            ) implies exists|i: int| 0 <= i < tm.len() && (#[trigger] tm[i]).1 == dest_of(ls[kk], jj, root) by {
            let i = choose|i: int| 0 <= i < tasks@.len() && (#[trigger] tasks@[i])@.1 == dest_of(ls[kk], jj, root);
            assert(tm[i] == tasks@[i]@);
        }
    }
    Ok(tasks)
}

} // verus!
