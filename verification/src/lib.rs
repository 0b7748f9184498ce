//! A workspace orchestrator's core: the declarative model of projects and
//! tags, the composition of hook scripts, the selection of projects by tag,
//! the decisions of a synchronisation run, and the bookkeeping of a bounded
//! pool of workers. Everything here is verified; processes, threads and the
//! command line live with the caller.

pub mod autotag;
pub mod executor;
pub mod git;
pub mod hooks;
pub mod model;
pub mod names;
pub mod number;
pub mod outcome;
pub mod run;
pub mod select;
pub mod sync;
