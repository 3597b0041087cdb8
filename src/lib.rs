//! Path-pattern matching and a depth-bounded, filtered directory inventory.
//!
//! `wildcard` decides whether a path matches a pattern; `walker` decides whether a
//! listed entry is admitted; `inventory` turns admitted entries into hash-linked
//! records; `walk` drives a depth-first walk one directory listing at a time.
pub mod text;
pub mod wildcard;
pub mod walker;
pub mod inventory;
pub mod walk;
