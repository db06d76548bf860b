//! Plain data of a WebGAL project as the language servers see it.

pub mod fs;
pub mod listing;
pub mod error;
pub mod variable;
