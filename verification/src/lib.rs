//! A streaming disk-usage scanner: a depth-first traversal over an observed
//! directory tree that accumulates size and item-count totals, classifies
//! entries by extension, emits one line-delimited JSON event per step, and is
//! cooperatively controllable (pause, resume, cancel, refresh) through a
//! bounded command channel.
//!
//! The host application observes the filesystem and hands the scanner a
//! [`tree::FsNode`] snapshot; everything the scanner then does — totals,
//! event order, control protocol, wire encoding — is specified and verified
//! here.

pub mod classify;
pub mod control;
pub mod encode;
pub mod messages;
pub mod scanner;
pub mod tree;
pub mod util;
