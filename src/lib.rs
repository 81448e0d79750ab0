//! Pins plugin revisions in a Lua plugin declaration file while keeping every
//! other byte of the file as it was.
pub mod git;
pub mod text;
pub mod syntax;
pub mod table;
pub mod locate;
pub mod rewrite;
