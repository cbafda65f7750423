//! `am`: the verified core of a manager for personal bash aliases.
//!
//! Aliases live in `~/.alias-management`, plain bash with one alias per line
//! and a trailing `#command`, `#folder` or `#ssh` marker. The library reads and
//! writes that file as a text, decides what is listed, created and deleted, and
//! keeps the block in `~/.bash_profile` that loads the file. Files, prompts and
//! the shell are left to the program around it.
pub mod chars;
pub mod text;
pub mod entry;
pub mod error;
pub mod line;
pub mod store;
pub mod validate;
pub mod paths;
pub mod profile;
pub mod listing;
pub mod create;
pub mod dialog;
pub mod delete;
pub mod cli;
pub mod install;
