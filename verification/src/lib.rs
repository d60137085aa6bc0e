//! The core of a dotfile linker.
//!
//! A working directory holds a configuration of rules. Each rule pairs a glob
//! pattern with capture groups, which selects files elsewhere, with a
//! template that says where below the working directory each of them is to
//! be linked. The crate turns rules and matches into source/destination
//! pairs, decides for each pair what has to be done to the file system so
//! that the destination is a link to the source, and builds the commands
//! that keep the result under version control.
//!
//! Nothing in the crate reads or writes files or runs a program. The caller
//! does, with what the crate hands out:
//!
//! - [`config`] reads the rules from the text of the configuration file;
//! - [`matcher`] tells whether a pattern is well formed, and holds what a
//!   match consists of;
//! - [`resolver`] puts the captures of a match into the destination template;
//! - [`path`] compares and joins paths, component by component;
//! - [`reconciler`] plans the linking of one pair, and guards every removal;
//! - [`pipeline`] steps through the passes: linking, tracking, cleaning;
//! - [`git`] builds command lines and reads what the commands print;
//! - [`menu`] holds the states of the program and the moves between them;
//! - [`model`] states what holds of a whole linking pass;
//! - [`text`] holds the operations on text that the others share.

pub mod config;
pub mod git;
pub mod matcher;
pub mod menu;
pub mod model;
pub mod path;
pub mod pipeline;
pub mod reconciler;
pub mod resolver;
pub mod text;
