//! Named, recoverable snapshots of a game's live save directory.
//!
//! The verified core holds the save-record document and its transformations,
//! the order in which listings are shown, the text of timestamps, and the
//! step order of loading, taking and deleting saves over a model of the
//! directories involved.

pub mod text;
pub mod record;
pub mod load;
pub mod listing;
pub mod stamp;
pub mod lifecycle;
pub mod steps;
