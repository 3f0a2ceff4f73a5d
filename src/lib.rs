//! Drops uniquely keyed comment markers ("anchors") into source files and keeps
//! a ledger of them.
//!
//! The library holds the logic: splitting text into lines, choosing the comment
//! syntax for a file, building the marker, inserting it at a line, and growing
//! the ledger. Reading and writing files is left to the caller.
pub mod lines;
pub mod comment;
pub mod key;
pub mod ledger;
pub mod anchor;
