//! A read-only virtual file system that exposes secrets as flat files.
//!
//! The library holds the decisions of the file system: how provider options
//! become file entries, how inode numbers map to entries, what each file
//! operation answers, and how mounting and unmounting proceed.

pub mod order;
pub mod provider;
pub mod fs;
pub mod reply;
pub mod command;
pub mod cli;
pub mod onepfs;
pub mod laws;
