//! Entries of a directory listing as the workspace client reports them.

use vstd::prelude::*;

verus! {

/// An entry of a directory listing: its name and whether it is a file.
#[derive(Debug, Clone, PartialEq, Eq, PartialOrd, Ord, Hash)]
pub struct DirEntry {
    pub name: String,
    pub is_file: bool,
}

impl DirEntry {
    /// The name, if the entry is a file.
    pub fn as_file(&self) -> (r: Option<&str>)
        ensures
            match r {
                Some(n) => self.is_file && n@ == self.name@,
                None => !self.is_file,
            },
    {
        if self.is_file {
            Some(self.name.as_str())
        } else {
            None
        }
    }

    /// The name, if the entry is a file.
    pub fn into_file(self) -> (r: Option<String>)
        ensures
            match r {
                Some(n) => self.is_file && n == self.name,
                None => !self.is_file,
            },
    {
        if self.is_file {
            Some(self.name)
        } else {
            None
        }
    }

    /// The entry is a folder.
    pub fn is_folder(&self) -> (b: bool)
        ensures
            b == !self.is_file,
    {
        !self.is_file
    }

    /// The name, if the entry is a folder.
    pub fn as_folder(&self) -> (r: Option<&str>)
        ensures
            match r {
                Some(n) => !self.is_file && n@ == self.name@,
                None => self.is_file,
            },
    {
        if !self.is_file {
            Some(self.name.as_str())
        } else {
            None
        }
    }

    /// The name, if the entry is a folder.
    pub fn into_folder(self) -> (r: Option<String>)
        ensures
            match r {
                Some(n) => !self.is_file && n == self.name,
                None => self.is_file,
            },
    {
        if !self.is_file {
            Some(self.name)
        } else {
            None
        }
    }
}

} // verus!
