//! Batch formatting of source files through pooled, stateful plugins.
//!
//! - [`pool`]: the pool of instances of one plugin, with checkout and
//!   release.
//! - [`registry`]: the pools of a run, and the rules that say which chain
//!   of plugins a file goes through.
//! - [`bucket`], [`local_work`], [`worker`]: the pending files of a worker,
//!   and how a worker takes its next file or has work stolen from it.
//! - [`steal`]: when stealing is worth it, and from whom.
//! - [`format`]: one file through its chain of plugins.
//! - [`scheduler`]: the first division of the files, one step of a worker,
//!   and the result of a run.
//! - [`tracing`]: the print-item graph of a plugin as a list of trace
//!   nodes.
//! - [`sync`]: the locks and the clock underneath.

pub mod bucket;
pub mod format;
pub mod local_work;
pub mod pool;
pub mod registry;
pub mod scheduler;
pub mod steal;
pub mod sync;
pub mod tracing;
pub mod worker;
