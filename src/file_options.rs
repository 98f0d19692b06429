//! How a template treats each of its files.

use vstd::prelude::*;

verus! {

/// What is done with a file of a template.
#[derive(Debug, Clone, Copy, PartialEq, Eq, Structural)]
pub enum FileAction {
    /// Copied byte for byte.
    Copy,
    /// Rendered through the expression language.
    Make,
    /// Left out.
    Ignore,
}

impl FileAction {
    /// Whether the action is `Copy`.
    pub fn is_copy(&self) -> (r: bool)
        ensures
            r == (*self == FileAction::Copy),
    {
        matches!(self, FileAction::Copy)
    }
}

impl Default for FileAction {
    /// A listed file whose action is not given is rendered.
    fn default() -> (r: FileAction)
        ensures
            r == FileAction::Make,
    {
        FileAction::Make
    }
}

/// The entry of one file in a template's table.
#[derive(Debug)]
pub struct FileOptions {
    pub action: FileAction,
    /// Expression-language text whose rendering replaces the file's name.
    pub name: Option<String>,
}

} // verus!
