//! Incremental one-way synchronisation of directory trees: the decisions of
//! the engine (root validation, walk filtering, copy planning, per-task steps
//! and failure aggregation), stated over component-list models of paths.

pub mod path;
pub mod plan;
pub mod roots;
pub mod walk;
pub mod exec;
pub mod schedule;
pub mod laws;

pub use exec::{task_step, CopyFailure, FirstFailure, TaskStep};
pub use path::FsPath;
pub use plan::{plan_copies, CopyTask, PlanError, SourceListing};
pub use roots::{check_roots, DestinationAction, DestinationState, InputError, RootProbe};
pub use walk::{walk_items, Walk, WalkEntry, WalkError};
pub use schedule::{parse_cron, verbosity, wait_millis, ScheduleError, Verbosity};
