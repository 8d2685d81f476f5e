//! Note edits: unified patches, exact edits, block IDs and renames planned as text edits, what
//! the note operations report, and the in-memory edit history.
pub mod block_id;
pub mod exact;
pub mod heading;
pub mod history;
pub mod order;
pub mod plan;
pub mod references;
pub mod rename;
pub mod results;
pub mod patch;
