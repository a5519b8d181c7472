//! Versioned files and packages of a release tool.
//!
//! The crate finds the packages of a Cargo, npm or Deno workspace from the text
//! of its manifests, and reads and rewrites the version that a `deno.json` or
//! `deno.jsonc` file carries.  It does no input or output: callers hand it the
//! text of files and take text back.

pub mod action;
pub mod cargo;
pub mod deno_json;
pub mod json;
pub mod jsonc;
pub mod member_names;
pub mod package;
pub mod path;
pub mod semver;
pub mod sequences;
pub mod text;
pub mod toml;
pub mod versioned_file;
