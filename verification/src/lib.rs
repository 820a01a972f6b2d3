//! Verified core of `dotman`, a manager of Unix dotfiles that keeps managed
//! copies below `~/.config/dotman/files/` and symbolic links in their place.
//!
//! The library holds the decisions; the program around it performs the
//! filesystem and Git work that the decisions call for.

pub mod text;
pub mod path;
pub mod registry;
pub mod store;
pub mod commands;
pub mod git;
pub mod copy;
pub mod cli;
pub mod steps;
pub mod laws;
