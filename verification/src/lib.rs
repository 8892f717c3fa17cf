//! Finds images that look alike.
//!
//! A search walks through folders, hashes the images that it meets, and groups those whose hashes
//! differ in few bits. This library holds what such a search decides and computes; reading the
//! file system is left to its user.

pub mod distance;
pub mod entry;
pub mod grouping;
pub mod hash_tree;
pub mod history;
pub mod index;
pub mod laws;
pub mod lists;
pub mod multiplicity;
pub mod picture;
pub mod provenance;
pub mod report;
pub mod run;
pub mod search;
pub mod similarity;
pub mod state;
pub mod stop;
pub mod text;
pub mod trace;
pub mod walk;

pub use crate::entry::FileEntry;
pub use crate::search::SimilarImages;
pub use crate::similarity::Similarity;
pub use crate::state::Info;
pub use crate::state::Messages;
