//! The workspace model: projects, their remotes and tags, and the rules that
//! every change to them keeps.

use vstd::prelude::*;

pub mod project;
pub mod tag;
pub mod workspace;

pub use self::project::{Project, ProjectUpdate, ProjectUpdateView, ProjectView, Remote, RemoteView};
pub use self::tag::{Tag, TagView};
pub use self::workspace::{applied, Workspace, WorkspaceView};

verus! {

/// The text of an optional script or path.
pub open spec fn text_of(o: Option<String>) -> Option<Seq<char>> {
    match o {
        Some(s) => Some(s@),
        None => None,
    }
}

/// Why a change to the model was refused.
#[derive(Debug, Clone, Copy, PartialEq, Eq)]
pub enum ModelError {
    /// The project, tag or remote that was named does not exist.
    NotFound,
    /// The name is already taken.
    Conflict,
}

} // verus!
