//! Filesystem layers: the write-ahead log, the block bitmap, inodes
//! and path names.

pub mod bmap;
pub mod inode;
pub mod log;
pub mod path;
pub mod superblock;
pub mod walk;
