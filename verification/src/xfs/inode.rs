//! Fixed-width inode core decoding.
//!
//! The core prefix is 96 bytes in the V4 layout and 176 bytes in V5; the
//! data fork begins right after it. With the NREXT64 feature the data-fork
//! extent count is the low 48 bits of a big-endian 64-bit word at inode
//! byte offset 24 (overlapping the V4 padding) and the legacy 32-bit field
//! is zeroed.

use vstd::prelude::*;

use crate::endian::{be16_at, be32_at, be64_at, read_be16, read_be32, read_be64};
use crate::error::FxfspError;

verus! {

/// Inode magic: "IN".
pub const XFS_DINODE_MAGIC: u16 = 0x494e;

/// Inode data fork format codes.
pub const XFS_DINODE_FMT_DEV: u8 = 0;

pub const XFS_DINODE_FMT_LOCAL: u8 = 1;

pub const XFS_DINODE_FMT_EXTENTS: u8 = 2;

pub const XFS_DINODE_FMT_BTREE: u8 = 3;

pub const XFS_DINODE_FMT_UUID: u8 = 4;

/// File-type mask and values within `mode`.
pub const S_IFMT: u16 = 0o170000;

pub const S_IFDIR: u16 = 0o040000;

pub const S_IFREG: u16 = 0o100000;

pub const S_IFLNK: u16 = 0o120000;

/// Size of the V4 dinode core.
pub const V4_CORE_SIZE: usize = 96;

/// Size of the V5 dinode core.
pub const V5_CORE_SIZE: usize = 176;

/// Decoded inode core.
#[derive(Debug, Clone, Copy, PartialEq, Eq, Structural)]
pub struct InodeInfo {
    pub ino: u64,
    pub mode: u16,
    pub format: u8,
    pub size: u64,
    pub uid: u32,
    pub gid: u32,
    pub nlink: u32,
    pub nextents: u32,
    pub mtime_sec: u32,
    pub mtime_nsec: u32,
    pub atime_sec: u32,
    pub atime_nsec: u32,
    pub ctime_sec: u32,
    pub ctime_nsec: u32,
    pub nblocks: u64,
    /// Byte offset of the data fork within the on-disk inode.
    pub data_fork_offset: usize,
    /// Bytes of the inode's fork area that belong to the data fork.
    pub data_fork_size: usize,
}

impl InodeInfo {
    pub fn is_dir(&self) -> (r: bool)
        ensures
            r == ((self.mode & S_IFMT) == S_IFDIR),
    {
        (self.mode & S_IFMT) == S_IFDIR
    }

    pub fn is_regular(&self) -> (r: bool)
        ensures
            r == ((self.mode & S_IFMT) == S_IFREG),
    {
        (self.mode & S_IFMT) == S_IFREG
    }

    pub fn is_symlink(&self) -> (r: bool)
        ensures
            r == ((self.mode & S_IFMT) == S_IFLNK),
    {
        (self.mode & S_IFMT) == S_IFLNK
    }
}

/// The data-fork extent count held by inode bytes `b`: the legacy 32-bit
/// field at offset 76, or with NREXT64 the low 48 bits of the word at
/// offset 24.
pub open spec fn spec_inode_nextents_raw(b: Seq<u8>, has_nrext64: bool) -> u64 {
    if has_nrext64 {
        be64_at(b, 24) & 0x0000_FFFF_FFFF_FFFF
    } else {
        be32_at(b, 76) as u64
    }
}

/// Core size of the layout generation.
pub open spec fn spec_core_size(is_v5: bool) -> usize {
    if is_v5 {
        V5_CORE_SIZE
    } else {
        V4_CORE_SIZE
    }
}

/// Bytes of the fork area that belong to the data fork: all of it when no
/// attribute fork is present (`forkoff` zero), else `forkoff * 8`.
pub open spec fn spec_data_fork_size(b: Seq<u8>, is_v5: bool, inode_size: u16) -> usize {
    if b[82] == 0 {
        (inode_size - spec_core_size(is_v5)) as usize
    } else {
        (b[82] as usize * 8) as usize
    }
}

/// Does `b` hold an inode core this scanner accepts?
pub open spec fn spec_inode_ok(b: Seq<u8>, is_v5: bool, has_nrext64: bool, inode_size: u16) -> bool {
    &&& b.len() >= 96
    &&& be16_at(b, 0) == XFS_DINODE_MAGIC
    &&& spec_inode_nextents_raw(b, has_nrext64) <= u32::MAX
    &&& spec_data_fork_size(b, is_v5, inode_size) <= inode_size - spec_core_size(is_v5)
}

/// The decoded core, field by field at the fixed offsets of the layout.
pub open spec fn spec_inode_core(b: Seq<u8>, ino: u64, is_v5: bool, has_nrext64: bool, inode_size: u16) -> InodeInfo {
    InodeInfo {
        ino,
        mode: be16_at(b, 2),
        format: b[5],
        size: be64_at(b, 56),
        uid: be32_at(b, 8),
        gid: be32_at(b, 12),
        nlink: be32_at(b, 16),
        nextents: spec_inode_nextents_raw(b, has_nrext64) as u32,
        mtime_sec: be32_at(b, 40),
        mtime_nsec: be32_at(b, 44),
        atime_sec: be32_at(b, 32),
        atime_nsec: be32_at(b, 36),
        ctime_sec: be32_at(b, 48),
        ctime_nsec: be32_at(b, 52),
        nblocks: be64_at(b, 64),
        data_fork_offset: spec_core_size(is_v5),
        data_fork_size: spec_data_fork_size(b, is_v5, inode_size),
    }
}

/// Parse a dinode core from `buf` starting at byte 0.
///
/// `ino` is the absolute inode number carried into the result. `is_v5`
/// selects the core size; `has_nrext64` selects the 64-bit extent-count
/// field. Fails on a short buffer, a wrong magic, an extent count above
/// `u32::MAX`, or an attribute-fork offset past the fork area.
pub fn parse_inode_core(
    buf: &[u8],
    ino: u64,
    is_v5: bool,
    has_nrext64: bool,
    inode_size: u16,
) -> (r: Result<InodeInfo, FxfspError>)
    requires
        is_v5 ==> inode_size >= 176,
        !is_v5 ==> inode_size >= 96,
    ensures
        r is Ok <==> spec_inode_ok(buf@, is_v5, has_nrext64, inode_size),
        r is Ok ==> r == Ok::<InodeInfo, FxfspError>(
            spec_inode_core(buf@, ino, is_v5, has_nrext64, inode_size),
        ),
        buf@.len() >= 96 && be16_at(buf@, 0) != XFS_DINODE_MAGIC ==> r matches Err(
            FxfspError::BadMagic(_),
        ),
        r is Err ==> (r matches Err(FxfspError::BadMagic(_)) || r matches Err(
            FxfspError::Parse(_),
        )),
{
    if buf.len() < 96 {
        return Err(FxfspError::Parse("buffer too small for dinode core"));
    }
    if read_be16(buf, 0) != XFS_DINODE_MAGIC {
        return Err(FxfspError::BadMagic("dinode"));
    }
    let data_fork_offset = if is_v5 {
        V5_CORE_SIZE
    } else {
        V4_CORE_SIZE
    };
    let nextents_raw: u64 = if has_nrext64 {
        read_be64(buf, 24) & 0x0000_FFFF_FFFF_FFFF
    } else {
        read_be32(buf, 76) as u64
    };
    if nextents_raw > u32::MAX as u64 {
        return Err(FxfspError::Parse("64-bit extent count exceeds supported range"));
    }
    let fork_area = inode_size as usize - data_fork_offset;
    let forkoff = buf[82];
    let data_fork_size = if forkoff == 0 {
        fork_area
    } else {
        forkoff as usize * 8
    };
    if data_fork_size > fork_area {
        return Err(FxfspError::Parse("attribute fork offset past fork area"));
    }
    Ok(
        InodeInfo {
            ino,
            mode: read_be16(buf, 2),
            format: buf[5],
            size: read_be64(buf, 56),
            uid: read_be32(buf, 8),
            gid: read_be32(buf, 12),
            nlink: read_be32(buf, 16),
            nextents: nextents_raw as u32,
            mtime_sec: read_be32(buf, 40),
            mtime_nsec: read_be32(buf, 44),
            atime_sec: read_be32(buf, 32),
            atime_nsec: read_be32(buf, 36),
            ctime_sec: read_be32(buf, 48),
            ctime_nsec: read_be32(buf, 52),
            nblocks: read_be64(buf, 64),
            data_fork_offset,
            data_fork_size,
        },
    )
}

} // verus!
