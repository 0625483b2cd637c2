//! Verified core of an npm toolkit: registry metadata, version selection, the
//! dependency-graph walk, advisory parsing, install planning and the command
//! line's source grammar.
//!
//! Nothing here touches the network, the file system or a terminal. Functions
//! take what was read and say what to do; the surrounding program does it.

pub mod text;
pub mod json;
pub mod version;
pub mod dependency;
pub mod path;
pub mod windows;
pub mod source;
pub mod registry;
pub mod walk;
pub mod round;
pub mod soundness;
pub mod walk_laws;
pub mod osv;
pub mod osv_laws;
pub mod lockfile;
pub mod lockfile_laws;
pub mod common;
pub mod resolve;
pub mod progress;
pub mod manifest;
pub mod audit;
