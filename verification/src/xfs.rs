//! Decoders for the on-disk structures: superblock, AGI, B-tree blocks,
//! inode cores, packed extent records, and directory entries.

pub mod ag;
pub mod bmbt;
pub mod btree;
pub mod dir;
pub mod extent;
pub mod inode;
pub mod superblock;
