//! Discovery of test functions in Python source trees, and a per-directory
//! history of the tests that were picked.

pub mod entries;
pub mod text;
pub mod history;
pub mod syntax;
pub mod parse;
pub mod discover;
pub mod command;
