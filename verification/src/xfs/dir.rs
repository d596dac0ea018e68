//! Directory entry decoders: shortform (in-inode) and on-disk data
//! blocks.

pub mod block;
pub mod shortform;
