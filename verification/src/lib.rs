//! Runs a command in the directories within a directory.
//!
//! The modules decide, and leave it to their caller to act: [`cli`] settles
//! what to do, [`walk`] says which directory comes next and when the command is
//! started, [`tree`] states what walks over a tree come to, [`ignore`] and
//! [`pattern`] tell what to pass over, [`process`] says what an attempt came to,
//! and [`show`] and [`json`] say what is written about it.

pub mod cli;
pub mod ignore;
pub mod json;
pub mod path;
pub mod pattern;
pub mod process;
pub mod show;
pub mod text;
pub mod tree;
pub mod walk;

pub use cli::{Cli, CliError, CliParsed};
pub use pattern::IgnoredEntry;
pub use process::ProcessError;
