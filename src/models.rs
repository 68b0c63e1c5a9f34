//! The rows of the store and the operations on each table.

pub mod config;
pub mod event;
pub mod kind;
pub mod project;
pub mod tag;
pub mod timer;
