//! The registry of a local development proxy: classification of the
//! directory's items, their display order, port allocation and the decisions
//! behind creating, removing and looking up one entry.

pub mod entry;
pub mod text;
pub mod classify;
pub mod order;
pub mod registry;
pub mod options;
pub mod laws;
