//! An in-memory todo-list registry: task records (title, description,
//! completion flag) addressed by ids that are handed out in increasing order
//! and never reused, plus a single staged edit draft that is committed,
//! discarded, or turned into a removal.

pub mod app;
pub mod laws;
pub mod models;
pub mod store;
