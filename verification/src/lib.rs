//! Core logic of a small interactive file browser.
//!
//! Two operations make up the core: listing the direct children of a
//! directory, and computing autocompletion candidates for a partially
//! typed filesystem path.  Paths are modelled as their platform-encoded
//! byte sequences; the surrounding shell performs the actual filesystem
//! reads and hands the results to this crate as plain byte vectors.

pub mod anchor;
pub mod listing;
pub mod prefix;

pub use anchor::anchor_directory;
pub use listing::collect_entries;
pub use prefix::filter_matching;
pub use prefix::starts_with_incomplete;
