//! The paste command of Vim mode: what is inserted where, and where the cursors end up.

pub mod edits;
pub mod insertion;
pub mod job;
pub mod laws;
pub mod model;
pub mod part_laws;
pub mod session;
pub mod targets;
