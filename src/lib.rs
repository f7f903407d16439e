//! Recovers the literal data of a script written in a JavaScript-like
//! dialect, and picks out of it the objects that match a record's schema.
//!
//! `syntax` holds the part of a syntax tree that matters, `lower` turns it
//! into a generic `value::Value`, `finder` searches such a value for records,
//! and `task` holds the image lists that the records describe.
pub mod finder;
pub mod lower;
pub mod syntax;
pub mod task;
pub mod value;
