//! Capture the contents of a directory as a named, reusable recipe and
//! re-materialise it later into a target directory, with textual placeholders
//! resolved at build time.

pub mod cli;
pub mod config;
pub mod content;
pub mod delete;
pub mod evoke;
pub mod hooks;
pub mod imprint;
pub mod lang;
pub mod list;
pub mod mkdev_error;
pub mod order;
pub mod output_type;
pub mod recipe;
pub mod searchable;
pub mod subs;
pub mod tree;
pub mod version;
