//! A small todo-list model: entries with a lifecycle status, an ordered list
//! of them, and the index-based edits that the command line applies to it.

pub mod display;
pub mod entry;
pub mod index;
pub mod list;
pub mod remove;
pub mod store;
