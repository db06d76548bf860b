//! Answers of the client's file system about paths.

use vstd::prelude::*;

verus! {

/// Whether a file or directory exists at a path.
#[derive(Debug, Clone, Copy, PartialEq, Eq, PartialOrd, Ord, Hash, Structural)]
pub struct ExistsResult {
    pub exists: bool,
    pub is_directory: bool,
}

impl ExistsResult {
    /// The path names a file (when it exists).
    pub fn is_file(&self) -> (b: bool)
        ensures
            b == !self.is_directory,
    {
        !self.is_directory
    }

    /// A file exists at the path.
    pub fn exists_file(&self) -> (b: bool)
        ensures
            b == (self.exists && !self.is_directory),
    {
        self.exists && self.is_file()
    }

    /// A directory exists at the path.
    pub fn exists_directory(&self) -> (b: bool)
        ensures
            b == (self.exists && self.is_directory),
    {
        self.exists && self.is_directory
    }
}

/// An entry of a directory: its name and whether it is a directory.
#[derive(Debug, Clone, PartialEq, Eq, PartialOrd, Ord, Hash)]
pub struct DirEntry {
    pub name: String,
    pub is_directory: bool,
}

impl DirEntry {
    /// The entry is a file.
    pub fn is_file(&self) -> (b: bool)
        ensures
            b == !self.is_directory,
    {
        !self.is_directory
    }

    /// The name, if the entry is a file.
    pub fn as_file(&self) -> (r: Option<&str>)
        ensures
            match r {
                Some(n) => !self.is_directory && n@ == self.name@,
                None => self.is_directory,
            },
    {
        if self.is_file() {
            Some(self.name.as_str())
        } else {
            None
        }
    }

    /// The name, if the entry is a file.
    pub fn into_file(self) -> (r: Option<String>)
        ensures
            match r {
                Some(n) => !self.is_directory && n == self.name,
                None => self.is_directory,
            },
    {
        if !self.is_directory {
            Some(self.name)
        } else {
            None
        }
    }

    /// The name, if the entry is a directory.
    pub fn as_directory(&self) -> (r: Option<&str>)
        ensures
            match r {
                Some(n) => self.is_directory && n@ == self.name@,
                None => !self.is_directory,
            },
    {
        if self.is_directory {
            Some(self.name.as_str())
        } else {
            None
        }
    }

    /// The name, if the entry is a directory.
    pub fn into_directory(self) -> (r: Option<String>)
        ensures
            match r {
                Some(n) => self.is_directory && n == self.name,
                None => !self.is_directory,
            },
    {
        if self.is_directory {
            Some(self.name)
        } else {
            None
        }
    }
}

} // verus!
