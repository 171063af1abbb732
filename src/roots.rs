use vstd::prelude::*;

use crate::path::{FsPath, PathModel};

verus! {

/// A requested source root, with whether it exists on disk.
pub struct RootProbe {
    pub path: FsPath,
    pub exists: bool,
}

/// What is on disk at the requested destination root.
pub enum DestinationState {
    Missing,
    Directory,
    NotDirectory,
}

/// What to do with the destination root before planning.
pub enum DestinationAction {
    /// It is a directory already: use it.
    Use,
    /// It does not exist: create it, with any missing parents.
    Create,
}

/// Why the requested roots were rejected.
pub enum InputError {
    /// The same source path was requested more than once.
    DuplicateInput,
    /// The source root at `index` (the first one missing) does not exist.
    MissingSource { index: usize },
    /// The destination exists and is not a directory.
    InvalidDestination,
}

/// The paths of the requested source roots.
pub open spec fn probe_paths(ps: Seq<RootProbe>) -> Seq<PathModel> {
    ps.map_values(|p: RootProbe| p.path@)
}

/// Some path occurs twice.
pub open spec fn has_duplicate(ps: Seq<PathModel>) -> bool {
    exists|i: int, j: int| 0 <= i < j < ps.len() && #[trigger] ps[i] == #[trigger] ps[j]
}

/// `i` is the first requested source root that does not exist.
pub open spec fn first_missing(ps: Seq<RootProbe>, i: int) -> bool {
    &&& 0 <= i < ps.len()
    &&& !ps[i].exists
    &&& forall|k: int| 0 <= k < i ==> (#[trigger] ps[k]).exists
}

/// Whether some source path is requested twice.
fn paths_repeat(sources: &Vec<RootProbe>) -> (r: bool)
    ensures
        r == has_duplicate(probe_paths(sources@)),
{
    let ghost ps = probe_paths(sources@);
    let mut j: usize = 0;
    while j < sources.len()
        invariant
            j <= sources.len(),
            ps == probe_paths(sources@),
            forall|a: int, b: int| 0 <= a < b < j ==> ps[a] != ps[b],
        decreases sources.len() - j,
    {
        let mut i: usize = 0;
        while i < j
            invariant
                i <= j < sources.len(),
                ps == probe_paths(sources@),
                forall|a: int| 0 <= a < i ==> ps[a] != ps[j as int],
            decreases j - i,
        {
            if sources[i].path.same_as(&sources[j].path) {
                assert(ps[i as int] == ps[j as int]);
                return true;
            }
            i = i + 1;
        }
        j = j + 1;
    }
    false
}

/// Validates the requested roots: duplicate source paths are refused first,
/// then a missing source root, then a destination that is not a directory.
/// On success, says whether the destination must be created. Nothing is to
/// be created where any error is returned.
pub fn check_roots(sources: &Vec<RootProbe>, dest: DestinationState) -> (r: Result<
    DestinationAction,
    InputError,
>)
    ensures
        has_duplicate(probe_paths(sources@)) ==> r == Err::<DestinationAction, InputError>(
            InputError::DuplicateInput,
        ),
        forall|i: int|
            !has_duplicate(probe_paths(sources@)) && #[trigger] first_missing(sources@, i) ==> r
                == Err::<DestinationAction, InputError>(InputError::MissingSource { index: i as usize }),
        !has_duplicate(probe_paths(sources@)) && (forall|k: int|
            0 <= k < sources@.len() ==> (#[trigger] sources@[k]).exists) ==> r == match dest {
            DestinationState::Missing => Ok(DestinationAction::Create),
            DestinationState::Directory => Ok(DestinationAction::Use),
            DestinationState::NotDirectory => Err(InputError::InvalidDestination),
        },
{
    if paths_repeat(sources) {
        return Err(InputError::DuplicateInput);
    }
    let mut i: usize = 0;
    while i < sources.len()
        invariant
            i <= sources.len(),
            !has_duplicate(probe_paths(sources@)),
            forall|k: int| 0 <= k < i ==> (#[trigger] sources@[k]).exists,
        decreases sources.len() - i,
    {
        if !sources[i].exists {
            return Err(InputError::MissingSource { index: i });
        }
        i = i + 1;
    }
    match dest {
        DestinationState::Missing => Ok(DestinationAction::Create),
        DestinationState::Directory => Ok(DestinationAction::Use),
        DestinationState::NotDirectory => Err(InputError::InvalidDestination),
    }
}

} // verus!
