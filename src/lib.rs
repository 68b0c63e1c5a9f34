//! A personal time tracker's data layer: projects, tags and timers, the links
//! between them, and the reports built from them, all held in one verified store.

pub mod errors;
pub mod table;
pub mod db;
pub mod utils;
pub mod laws;
pub mod links;
pub mod models;
pub mod reports;
