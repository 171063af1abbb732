use vstd::prelude::*;

use crate::path::FsPath;

verus! {

/// What a worker does with one copy task, given what it finds on disk when
/// the task starts.
pub enum TaskStep {
    /// The destination exists (it was there, or appeared since planning):
    /// leave it untouched.
    Skip,
    /// Copy the source to the destination.
    Copy,
    /// Create the destination's parent directory (and its missing
    /// ancestors), then copy.
    CreateParentThenCopy,
}

/// Decides one task's step: an existing destination is never written, and a
/// missing parent directory is created before the copy.
pub fn task_step(dest_exists: bool, parent_exists: bool) -> (r: TaskStep)
    ensures
        dest_exists ==> r is Skip,
        !dest_exists && parent_exists ==> r is Copy,
        !dest_exists && !parent_exists ==> r is CreateParentThenCopy,
{
    if dest_exists {
        TaskStep::Skip
    } else if parent_exists {
        TaskStep::Copy
    } else {
        TaskStep::CreateParentThenCopy
    }
}

/// A copy task that failed: its source, its destination and the cause.
pub struct CopyFailure {
    pub source: FsPath,
    pub dest: FsPath,
    pub cause: String,
}

/// Holds the first failure that the workers of a run report; later ones are
/// dropped.
pub struct FirstFailure {
    pub first: Option<CopyFailure>,
}

impl FirstFailure {
    /// A cell with no failure in it.
    pub fn new() -> (r: FirstFailure)
        ensures
            r.first is None,
    {
        FirstFailure { first: None }
    }

    /// Records `f` unless a failure was recorded before.
    pub fn record(&mut self, f: CopyFailure)
        ensures
            old(self).first is Some ==> *final(self) == *old(self),
            old(self).first is None ==> final(self).first == Some(f),
    {
        if self.first.is_none() {
            self.first = Some(f);
        }
    }

    /// Whether no failure has been recorded.
    pub fn is_clear(&self) -> (r: bool)
        ensures
            r == self.first is None,
    {
        self.first.is_none()
    }

    /// The outcome of the run: success where every task was copied or
    /// skipped, else the first failure recorded.
    pub fn outcome(self) -> (r: Result<(), CopyFailure>)
        ensures
            self.first is None ==> r is Ok,
            self.first matches Some(f) ==> r == Err::<(), CopyFailure>(f),
    {
        match self.first {
            None => Ok(()),
            Some(f) => Err(f),
        }
    }
}

} // verus!
