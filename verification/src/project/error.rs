//! Why a project path could not be used.

use vstd::prelude::*;

verus! {

/// Errors of paths in project management.
#[derive(Debug, Clone, Copy, PartialEq, Eq, Hash, Structural)]
pub enum PathError {
    /// The path lies outside the root directory.
    OutsideRoot,
    /// A directory part of the path is a file.
    CrashFile,
    /// The path points to a directory.
    IsFolder,
    /// Nothing is at the path.
    NotFound,
}

impl PathError {
    /// The message that describes the error.
    pub fn message(&self) -> (s: &'static str)
        ensures
            s@ == match self {
                PathError::OutsideRoot => "路径位于根目录之外"@,
                PathError::CrashFile => "路径段目录部分中存在文件"@,
                PathError::IsFolder => "路径指向目录"@,
                PathError::NotFound => "路径不存在"@,
            },
    {
        match self {
            PathError::OutsideRoot => "路径位于根目录之外",
            PathError::CrashFile => "路径段目录部分中存在文件",
            PathError::IsFolder => "路径指向目录",
            PathError::NotFound => "路径不存在",
        }
    }
}

} // verus!
