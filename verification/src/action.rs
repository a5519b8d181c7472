//! What a release does to files.

use vstd::prelude::*;

use crate::path::RelativePathBuf;

verus! {

/// One step of a release.
#[derive(Debug, PartialEq, Eq)]
pub enum Action {
    /// Replace what the file at `path` holds by `content`; `diff` tells a
    /// person what changes.
    WriteToFile { path: RelativePathBuf, content: String, diff: String },
}

/// What a step does.
pub enum ActionView {
    WriteToFile { path: Seq<char>, content: Seq<char>, diff: Seq<char> },
}

impl View for Action {
    type V = ActionView;

    open spec fn view(&self) -> ActionView {
        match self {
            Action::WriteToFile { path, content, diff } => ActionView::WriteToFile {
                path: path@,
                content: content@,
                diff: diff@,
            },
        }
    }
}

} // verus!
