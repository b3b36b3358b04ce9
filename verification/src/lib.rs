//! Core logic of a terminal image gallery: configuration parsing, directory
//! listings, the thumbnail cache format, grid layout and the navigation
//! state machine behind the key bindings.

pub mod text;
pub mod scan;
pub mod config;
pub mod picture;
pub mod ai;
pub mod thumbnail;
pub mod app;
pub mod cache;
pub mod ui;
