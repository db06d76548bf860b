//! Lenient JSON path parsing and schema-driven completion.

pub mod parse;
pub mod locate;
pub mod value;
pub mod schema;
pub mod highlight;
