//! What a change of a watched file asks of the workspace.
//!
//! The server loads and drops projects and reads files; this module only
//! decides which of those a file event calls for.

use vstd::prelude::*;
use crate::path_tree::util::{name_of, parent_of, name_spec, parent_spec};
use crate::text::str_eq;

verus! {

/// How a watched file changed.
#[derive(Debug, Clone, Copy, PartialEq, Eq, Structural)]
pub enum FileChangeKind {
    Create,
    Change,
    Remove,
}

/// The work that a file event calls for.
#[derive(Debug, PartialEq, Eq)]
pub enum FileAction {
    /// Load the project rooted at this folder: its `config.txt` appeared.
    LoadProject(String),
    /// Drop the project rooted at this folder: its `config.txt` went away.
    DropProject(String),
    /// Read the file again into the project that holds it, if any.
    UpdateResource(String),
    /// Take the file out of the project that holds it, if any.
    RemoveResource(String),
}

/// The name of a project's configuration file.
pub open spec fn config_name() -> Seq<char> {
    seq!['c', 'o', 'n', 'f', 'i', 'g', '.', 't', 'x', 't']
}

/// The work that the event `kind` on the file at `path` calls for: a
/// `config.txt` that appears or goes away loads or drops the project of
/// its folder; any other event updates or removes the file as a resource.
pub fn file_change_action(path: &str, kind: FileChangeKind) -> (r: FileAction)
    ensures
        match kind {
            FileChangeKind::Create => if name_spec(path@) == config_name() {
                r matches FileAction::LoadProject(p) && p@ == parent_spec(path@)
            } else {
                r matches FileAction::UpdateResource(p) && p@ == path@
            },
            FileChangeKind::Change => r matches FileAction::UpdateResource(p) && p@ == path@,
            FileChangeKind::Remove => if name_spec(path@) == config_name() {
                r matches FileAction::DropProject(p) && p@ == parent_spec(path@)
            } else {
                r matches FileAction::RemoveResource(p) && p@ == path@
            },
        },
{
    proof {
        reveal_strlit("config.txt");
        assert("config.txt"@ =~= config_name());
    }
    let is_config = str_eq(name_of(path), "config.txt");
    match kind {
        FileChangeKind::Create => if is_config {
            FileAction::LoadProject(parent_of(path).to_string())
        } else {
            FileAction::UpdateResource(path.to_string())
        },
        FileChangeKind::Change => FileAction::UpdateResource(path.to_string()),
        FileChangeKind::Remove => if is_config {
            FileAction::DropProject(parent_of(path).to_string())
        } else {
            FileAction::RemoveResource(path.to_string())
        },
    }
}

} // verus!
