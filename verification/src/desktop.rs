//! Bounded, display-server-independent XDG desktop applications.

pub mod application;
pub mod catalog;
pub mod catalog_laws;
pub mod command;
pub mod command_laws;
pub mod entry;
pub mod entry_laws;
pub mod environment;
pub mod walk;
