//! A tree of items addressed by `/`-separated paths.

pub mod util;
pub mod node;
pub mod folder;
pub mod laws;
pub mod entry;
pub mod iter;
