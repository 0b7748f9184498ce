//! Tags: labels that group projects and carry what they share.

use vstd::prelude::*;
use vstd::string::*;
use crate::model::text_of;

verus! {

/// A label that groups projects and carries what they share.
#[derive(Debug, Clone, PartialEq, Eq)]
pub struct Tag {
    pub name: String,
    pub after_clone: Option<String>,
    pub after_workon: Option<String>,
    pub workspace: Option<String>,
    /// Higher priorities come first when hooks are composed.
    pub priority: i32,
}

/// A tag as a value: its name and what it carries as texts.
pub struct TagView {
    pub name: Seq<char>,
    pub after_clone: Option<Seq<char>>,
    pub after_workon: Option<Seq<char>>,
    pub workspace: Option<Seq<char>>,
    pub priority: int,
}

impl View for Tag {
    type V = TagView;

    open spec fn view(&self) -> TagView {
        TagView {
            name: self.name@,
            after_clone: text_of(self.after_clone),
            after_workon: text_of(self.after_workon),
            workspace: text_of(self.workspace),
            priority: self.priority as int,
        }
    }
}

impl Tag {
    /// A tag with priority 0 that carries nothing.
    pub fn new(name: String) -> (tag: Tag)
        ensures
            tag@ == (TagView {
                name: name@,
                after_clone: None,
                after_workon: None,
                workspace: None,
                priority: 0,
            }),
    {
        Tag { name, after_clone: None, after_workon: None, workspace: None, priority: 0 }
    }
}

} // verus!
