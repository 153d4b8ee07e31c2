//! An in-memory hierarchical filesystem with a POSIX-style call surface.
//!
//! The tree of directories and files lives in an arena of entries; every
//! operation is specified as a transition of the abstract state in [`model`].

pub mod invariants;
pub mod laws;
pub mod memfs;
pub mod model;
pub mod path;
pub mod store;
pub mod utils;
