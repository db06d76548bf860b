//! Verified core of the WebGAL language tooling: counters, path trees,
//! lenient JSON path parsing and text offset conversions.

pub mod key;
pub mod count;
pub mod std_ext;
pub mod ranked_count;
pub mod text;
pub mod json;
pub mod position;
pub mod encode;
pub mod semantic;
pub mod command;
pub mod comment;
pub mod argument;
pub mod scene_highlight;
pub mod scene;
pub mod diagnose;
pub mod path_tree;
pub mod project;
pub mod watch;
