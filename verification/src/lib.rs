//! Keeps a virtual file tree and a tree of instances convertible into each
//! other through an ordered chain of plugins, and records every change to the
//! file tree against a logical clock so that a consumer can poll for what
//! changed.

pub mod route;
pub mod names;
pub mod vfs;
pub mod rbx;
pub mod plugin;
pub mod plugins;
pub mod web;
