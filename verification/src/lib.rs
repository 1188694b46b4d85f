//! Bumps the semantic version held in a JSON manifest while every other
//! character of the document is reproduced exactly as it was written.
//!
//! [`parse_json`] walks a document and lifts the one top-level `"version"`
//! out of it; [`Version::bump`] changes the version;
//! [`ParsedJson::emb_string`] writes the document out again, the same
//! character for character but for the version.

pub mod git;
pub mod grammar;
pub mod laws;
pub mod parser;
pub mod pattern;
pub mod placeholder;
pub mod text;
pub mod version;

pub use crate::git::git_commit_and_tag;
pub use crate::parser::{parse_json, ParseError, ParsedJson, Parser};
pub use crate::version::{Query, Version};
