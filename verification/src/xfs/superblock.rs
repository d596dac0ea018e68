//! Superblock decoding and filesystem geometry.
//!
//! The superblock sits at byte 0 of the image. Decoding it yields an
//! [`FsContext`], the immutable geometry record that every later parser
//! consumes. The conversions between absolute inode numbers, `(AG,
//! AG-relative)` pairs, filesystem block numbers and byte offsets are pure
//! arithmetic over that record.

use vstd::prelude::*;

use crate::endian::{be16_at, be32_at, read_be16, read_be32, read_be64};
use crate::error::FxfspError;

verus! {

/// Superblock magic: "XFSB".
pub const XFS_SB_MAGIC: u32 = 0x58465342;

/// Which on-disk format generation the filesystem uses.
#[derive(Debug, Clone, Copy, PartialEq, Eq, Structural)]
pub enum FormatVersion {
    V4,
    V5,
}

/// Filesystem geometry extracted from the superblock.
///
/// Immutable after the superblock parse; referenced by every subsequent
/// parser. [`FsContext::wf`] is the invariant that
/// [`FsContext::from_superblock`] establishes and all methods rely on.
#[derive(Debug, Clone, Copy, PartialEq, Eq, Structural)]
pub struct FsContext {
    pub version: FormatVersion,
    pub block_size: u32,
    pub block_log: u8,
    pub ag_count: u32,
    pub ag_blocks: u32,
    pub ag_blk_log: u8,
    pub inode_size: u16,
    pub inodes_per_block: u16,
    pub inode_log: u8,
    pub inop_blog: u8,
    pub dir_blk_log: u8,
    pub root_ino: u64,
    pub sect_size: u16,
    /// Do directory entries carry a file-type byte?
    pub has_ftype: bool,
    /// Are data-fork extent counts the 64-bit variant at inode offset 24?
    pub has_nrext64: bool,
}

impl FsContext {
    /// Number of low bits of an absolute inode number that carry the
    /// AG-relative inode; the bits above carry the AG number.
    pub open spec fn ino_shift(self) -> u64 {
        (self.inop_blog as u64 + self.ag_blk_log as u64) as u64
    }

    /// Geometry invariant: sizes are the powers of two their logs claim,
    /// the AG-relative fields fit under their logs, and all byte offsets
    /// the scanner computes fit in a `u64`.
    pub open spec fn wf(self) -> bool {
        &&& 9 <= self.block_log <= 16
        &&& self.block_size == 1u32 << self.block_log
        &&& 7 <= self.inode_log <= 11
        &&& self.inode_log <= self.block_log
        &&& self.inode_size == 1u16 << self.inode_log
        &&& self.inode_size >= 96
        &&& (self.version is V5 ==> self.inode_size >= 176)
        &&& self.inop_blog == self.block_log - self.inode_log
        &&& self.inodes_per_block == 1u16 << self.inop_blog
        &&& self.block_log + self.dir_blk_log <= 16
        &&& self.ag_blk_log <= 31
        &&& 1 <= self.ag_blocks
        &&& self.ag_blocks as u64 <= 1u64 << self.ag_blk_log as u64
        &&& 1 <= self.ag_count
        &&& self.ag_count as u64 <= u64::MAX >> self.ino_shift()
        &&& (self.ag_count as int) * (self.ag_blocks as int) * (self.block_size as int)
            + 0x10000 <= u64::MAX as int
        &&& 512 <= self.sect_size
        &&& 4096int % (self.sect_size as int) == 0
    }

    /// Decide the geometry invariant at run time.
    pub fn geometry_ok(&self) -> (r: bool)
        ensures
            r == self.wf(),
    {
        let shift_ok = self.block_log >= 9 && self.block_log <= 16 && self.inode_log >= 7
            && self.inode_log <= 11 && self.inode_log <= self.block_log && self.inop_blog
            == self.block_log - self.inode_log && self.block_log as u32
            + self.dir_blk_log as u32 <= 16 && self.ag_blk_log <= 31;
        if !shift_ok {
            return false;
        }
        let sizes_ok = self.block_size == 1u32 << self.block_log && self.inode_size == 1u16
            << self.inode_log && self.inode_size >= 96 && (!(matches!(self.version, FormatVersion::V5))
            || self.inode_size >= 176) && self.inodes_per_block == 1u16 << self.inop_blog;
        if !sizes_ok {
            return false;
        }
        let shift: u64 = self.inop_blog as u64 + self.ag_blk_log as u64;
        let ag_ok = self.ag_blocks >= 1 && (self.ag_blocks as u64) <= (1u64
            << self.ag_blk_log as u64) && self.ag_count >= 1 && (self.ag_count as u64) <= (u64::MAX
            >> shift);
        if !ag_ok {
            return false;
        }
        proof {
            vstd::arithmetic::mul::lemma_mul_upper_bound(
                self.ag_count as int,
                0xffffffff,
                self.ag_blocks as int,
                0xffffffff,
            );
            vstd::arithmetic::mul::lemma_mul_upper_bound(
                (self.ag_count as int) * (self.ag_blocks as int),
                0xfffffffe00000001,
                self.block_size as int,
                0xffffffff,
            );
            vstd::arithmetic::mul::lemma_mul_nonnegative(
                self.ag_count as int,
                self.ag_blocks as int,
            );
            vstd::arithmetic::mul::lemma_mul_nonnegative(
                (self.ag_count as int) * (self.ag_blocks as int),
                self.block_size as int,
            );
        }
        let total: u128 = self.ag_count as u128 * self.ag_blocks as u128 * self.block_size as u128;
        if !(total + 0x10000 <= u64::MAX as u128) {
            return false;
        }
        self.sect_size >= 512 && 4096u16 % self.sect_size == 0
    }

    /// The `FsContext` that the superblock bytes `b` describe, field by
    /// field: every multi-byte integer is big-endian at its fixed offset.
    pub open spec fn spec_from_superblock(b: Seq<u8>) -> FsContext {
        let versionnum = be16_at(b, 100);
        let version = if (versionnum & 0x000f) >= 5 {
            FormatVersion::V5
        } else {
            FormatVersion::V4
        };
        let features2 = be32_at(b, 200);
        let has_ftype = version is V5 || (features2 & 0x0200) != 0;
        let has_nrext64 = version is V5 && b.len() >= 220 && (be32_at(b, 216) & 0x20) != 0;
        FsContext {
            version,
            block_size: be32_at(b, 4),
            block_log: b[120],
            ag_count: be32_at(b, 88),
            ag_blocks: be32_at(b, 84),
            ag_blk_log: b[124],
            inode_size: be16_at(b, 104),
            inodes_per_block: be16_at(b, 106),
            inode_log: b[122],
            inop_blog: b[123],
            dir_blk_log: b[192],
            root_ino: crate::endian::be64_at(b, 56),
            sect_size: be16_at(b, 102),
            has_ftype,
            has_nrext64,
        }
    }

    /// Does the buffer hold a superblock this scanner accepts: long enough,
    /// right magic, sane geometry?
    pub open spec fn spec_superblock_ok(b: Seq<u8>) -> bool {
        &&& b.len() >= 208
        &&& be32_at(b, 0) == XFS_SB_MAGIC
        &&& Self::spec_from_superblock(b).wf()
    }

    /// Parse the superblock from `buf` and build the geometry record.
    ///
    /// Fatal on a short buffer, a wrong magic, or geometry the scanner
    /// cannot work with.
    pub fn from_superblock(buf: &[u8]) -> (r: Result<Self, FxfspError>)
        ensures
            r is Ok <==> Self::spec_superblock_ok(buf@),
            r is Ok ==> r == Ok::<Self, FxfspError>(Self::spec_from_superblock(buf@)),
            buf@.len() < 208 ==> r matches Err(FxfspError::Parse(_)),
            buf@.len() >= 208 && be32_at(buf@, 0) != XFS_SB_MAGIC ==> r matches Err(
                FxfspError::BadMagic(_),
            ),
            buf@.len() >= 208 && be32_at(buf@, 0) == XFS_SB_MAGIC && !Self::spec_from_superblock(
                buf@,
            ).wf() ==> r matches Err(FxfspError::Parse(_)),
    {
        if buf.len() < 208 {
            return Err(FxfspError::Parse("buffer too small for superblock"));
        }
        if read_be32(buf, 0) != XFS_SB_MAGIC {
            return Err(FxfspError::BadMagic("superblock"));
        }
        let versionnum = read_be16(buf, 100);
        let version = if (versionnum & 0x000f) >= 5 {
            FormatVersion::V5
        } else {
            FormatVersion::V4
        };
        let features2 = read_be32(buf, 200);
        let has_ftype_v4 = (features2 & 0x0200) != 0;
        let has_ftype = matches!(version, FormatVersion::V5) || has_ftype_v4;
        // NREXT64 is a V5 incompat feature bit; the incompat word sits at
        // byte offset 216 of the superblock.
        let has_nrext64 = if matches!(version, FormatVersion::V5) && buf.len() >= 220 {
            (read_be32(buf, 216) & 0x20) != 0
        } else {
            false
        };
        let ctx = FsContext {
            version,
            block_size: read_be32(buf, 4),
            block_log: buf[120],
            ag_count: read_be32(buf, 88),
            ag_blocks: read_be32(buf, 84),
            ag_blk_log: buf[124],
            inode_size: read_be16(buf, 104),
            inodes_per_block: read_be16(buf, 106),
            inode_log: buf[122],
            inop_blog: buf[123],
            dir_blk_log: buf[192],
            root_ino: read_be64(buf, 56),
            sect_size: read_be16(buf, 102),
            has_ftype,
            has_nrext64,
        };
        if !ctx.geometry_ok() {
            return Err(FxfspError::Parse("superblock geometry out of range"));
        }
        Ok(ctx)
    }

    /// Numeric bounds that the geometry invariant puts on the sizes whose
    /// `wf` clauses only fix them as powers of two.
    pub proof fn lemma_wf_bounds(self)
        requires
            self.wf(),
        ensures
            512 <= self.block_size <= 0x10000,
            128 <= self.inode_size <= 0x800,
            1 <= self.inodes_per_block <= 0x200,
            self.ino_shift() <= 42,
            self.sect_size <= 4096,
    {
        if self.sect_size > 4096 {
            vstd::arithmetic::div_mod::lemma_small_mod(4096nat, self.sect_size as nat);
        }
        let bl = self.block_log;
        let il = self.inode_log;
        let ib = self.inop_blog;
        assert(512 <= (1u32 << bl) <= 0x10000) by (bit_vector)
            requires
                9 <= bl <= 16,
        ;
        assert(128 <= (1u16 << il) <= 0x800) by (bit_vector)
            requires
                7 <= il <= 11,
        ;
        assert(1 <= (1u16 << ib) <= 0x200) by (bit_vector)
            requires
                ib <= 9,
        ;
    }

    /// AG number of an absolute inode number: its bits above `ino_shift`.
    pub open spec fn spec_ino_to_agno(self, ino: u64) -> u32 {
        (ino >> self.ino_shift()) as u32
    }

    /// AG-relative part of an absolute inode number: its low `ino_shift`
    /// bits.
    pub open spec fn spec_ino_to_agino(self, ino: u64) -> u32 {
        (ino & (((1u64 << self.ino_shift()) - 1) as u64)) as u32
    }

    /// Absolute inode number packed from the AG number and the AG-relative
    /// inode.
    pub open spec fn spec_agino_to_ino(self, agno: u32, agino: u32) -> u64 {
        ((agno as u64) << self.ino_shift()) | (agino as u64)
    }

    /// Convert an absolute inode number to its AG number.
    pub fn ino_to_agno(&self, ino: u64) -> (r: u32)
        requires
            self.wf(),
        ensures
            r == self.spec_ino_to_agno(ino),
    {
        (ino >> (self.inop_blog as u64 + self.ag_blk_log as u64)) as u32
    }

    /// Convert an absolute inode number to its AG-relative inode number.
    pub fn ino_to_agino(&self, ino: u64) -> (r: u32)
        requires
            self.wf(),
        ensures
            r == self.spec_ino_to_agino(ino),
    {
        let s: u64 = self.inop_blog as u64 + self.ag_blk_log as u64;
        proof {
            assert(1u64 << s >= 1) by (bit_vector)
                requires
                    s <= 42,
            ;
        }
        let mask = (1u64 << s) - 1;
        (ino & mask) as u32
    }

    /// Convert an AG number and AG-relative inode to the absolute inode
    /// number.
    pub fn agino_to_ino(&self, agno: u32, agino: u32) -> (r: u64)
        requires
            self.wf(),
        ensures
            r == self.spec_agino_to_ino(agno, agino),
    {
        ((agno as u64) << (self.inop_blog as u64 + self.ag_blk_log as u64)) | (agino as u64)
    }

    /// Byte offset of AG-relative block `agblock` of AG `agno`.
    pub open spec fn spec_ag_block_to_byte(self, agno: u32, agblock: u32) -> u64 {
        (((agno as u64) * (self.ag_blocks as u64) + (agblock as u64)) as u64) << (
        self.block_log as u64)
    }

    /// Byte offset of an AG-relative block within the filesystem.
    pub fn ag_block_to_byte(&self, agno: u32, agblock: u32) -> (r: u64)
        requires
            self.wf(),
        ensures
            r == self.spec_ag_block_to_byte(agno, agblock),
    {
        proof {
            vstd::arithmetic::mul::lemma_mul_upper_bound(
                agno as int,
                0xffffffff,
                self.ag_blocks as int,
                0xffffffff,
            );
            vstd::arithmetic::mul::lemma_mul_nonnegative(agno as int, self.ag_blocks as int);
        }
        let abs_block = (agno as u64) * (self.ag_blocks as u64) + (agblock as u64);
        abs_block << (self.block_log as u64)
    }

    /// Byte offset of the start of AG `agno`.
    pub open spec fn spec_ag_start_byte(self, agno: u32) -> u64 {
        ((agno as int) * (self.ag_blocks as int) * (self.block_size as int)) as u64
    }

    /// Byte offset of the start of an AG.
    pub fn ag_start_byte(&self, agno: u32) -> (r: u64)
        requires
            self.wf(),
            agno < self.ag_count,
        ensures
            r == self.spec_ag_start_byte(agno),
            r + 0x10000 <= u64::MAX,
    {
        proof {
            self.lemma_wf_bounds();
            let a = agno as int;
            let ac = self.ag_count as int;
            let ab = self.ag_blocks as int;
            let bs = self.block_size as int;
            assert(0 <= a * ab && a * ab <= 0xfffffffe00000001 && 0 <= a * ab * bs && a * ab * bs
                <= ac * ab * bs) by (nonlinear_arith)
                requires
                    0 <= a < ac,
                    ac <= 0xffffffff,
                    0 < ab <= 0xffffffff,
                    0 < bs,
            ;
        }
        (agno as u64) * (self.ag_blocks as u64) * (self.block_size as u64)
    }

    /// Byte offset of the AGI header of AG `agno`: the AGI occupies the
    /// third sector of the AG.
    pub open spec fn spec_agi_byte_offset(self, agno: u32) -> u64 {
        (self.spec_ag_start_byte(agno) + 2 * (self.sect_size as u64)) as u64
    }

    /// Byte offset of the AGI header for a given AG.
    pub fn agi_byte_offset(&self, agno: u32) -> (r: u64)
        requires
            self.wf(),
            agno < self.ag_count,
        ensures
            r == self.spec_agi_byte_offset(agno),
    {
        proof {
            self.lemma_wf_bounds();
        }
        self.ag_start_byte(agno) + 2 * (self.sect_size as u64)
    }

    /// Number of filesystem blocks in one directory block.
    pub fn dir_blk_fsblocks(&self) -> (r: u32)
        requires
            self.wf(),
        ensures
            r == 1u32 << (self.dir_blk_log as u32),
    {
        1u32 << (self.dir_blk_log as u32)
    }

    /// Size of a directory block in bytes.
    pub open spec fn spec_dir_blk_size(self) -> u32 {
        (self.block_size as u32) << (self.dir_blk_log as u32)
    }

    /// Size of a directory block in bytes.
    pub fn dir_blk_size(&self) -> (r: u32)
        requires
            self.wf(),
        ensures
            r == self.spec_dir_blk_size(),
            r >= self.block_size,
            r <= 0x10000,
    {
        proof {
            let bl = self.block_log as u64;
            let dl = self.dir_blk_log as u64;
            assert(((1u32 << bl) << dl) >= (1u32 << bl) && ((1u32 << bl) << dl) <= 0x10000
                && ((1u32 << bl) << dl) >= 512) by (bit_vector)
                requires
                    9 <= bl <= 16,
                    bl + dl <= 16,
            ;
        }
        self.block_size << (self.dir_blk_log as u32)
    }

    /// Byte offset of the filesystem block holding the inode, and the byte
    /// offset of the inode within that block.
    pub fn ino_to_disk_position(&self, ino: u64) -> (r: (u64, usize))
        requires
            self.wf(),
        ensures
            r.0 == self.spec_ag_block_to_byte(
                self.spec_ino_to_agno(ino),
                self.spec_ino_to_agino(ino) >> (self.inop_blog as u32),
            ),
            r.1 == (self.spec_ino_to_agino(ino) & (((1u32 << (self.inop_blog as u32))
                - 1) as u32)) as usize * (self.inode_size as usize),
    {
        let agno = self.ino_to_agno(ino);
        let agino = self.ino_to_agino(ino);
        let ag_block = agino >> (self.inop_blog as u32);
        let block_byte = self.ag_block_to_byte(agno, ag_block);
        let ib: u32 = self.inop_blog as u32;
        proof {
            self.lemma_wf_bounds();
            assert(1u32 << ib >= 1 && (agino & ((1u32 << ib) - 1) as u32) < 0x400) by (bit_vector)
                requires
                    ib <= 9,
            ;
        }
        let slot = (agino & ((1u32 << ib) - 1)) as usize;
        assert(slot * (self.inode_size as usize) < 0x200000) by (nonlinear_arith)
            requires
                slot < 0x400,
                self.inode_size as usize <= 0x800,
        ;
        let within = slot * (self.inode_size as usize);
        (block_byte, within)
    }
}

/// Every AG-block byte offset, and the block size itself, is a multiple of
/// the 512-byte I/O alignment: block offsets are whole multiples of a block,
/// and a block is at least a sector.
pub proof fn lemma_block_read_aligned(ctx: FsContext, agno: u32, agblock: u32)
    requires
        ctx.wf(),
    ensures
        ctx.spec_ag_block_to_byte(agno, agblock) % 512 == 0,
        (ctx.block_size as usize) % 512 == 0,
        ctx.spec_dir_blk_size() as usize % 512 == 0,
{
    let x = (((agno as u64) * (ctx.ag_blocks as u64) + (agblock as u64)) as u64) as u64;
    let bl = ctx.block_log as u64;
    let dl = ctx.dir_blk_log as u64;
    assert((x << bl) % 512 == 0 && (1u64 << bl) % 512 == 0) by (bit_vector)
        requires
            9 <= bl <= 16,
    ;
    let bl32 = ctx.block_log as u32;
    let dl32 = ctx.dir_blk_log as u32;
    assert((1u32 << bl32) % 512 == 0 && ((1u32 << bl32) << dl32) % 512 == 0) by (bit_vector)
        requires
            9 <= bl32 <= 16,
            bl32 + dl32 <= 16,
    ;
}

/// Inode-number bijection: packing an AG number and an AG-relative inode
/// into an absolute inode number and unpacking it again returns the pair
/// unchanged, for every well-formed context, every AG number below
/// `ag_count` and every AG-relative inode below `1 << ino_shift`.
pub proof fn lemma_inode_number_bijection(ctx: FsContext, agno: u32, agino: u32)
    requires
        ctx.wf(),
        agno < ctx.ag_count,
        (agino as u64) < (1u64 << ctx.ino_shift()),
    ensures
        ctx.spec_ino_to_agno(ctx.spec_agino_to_ino(agno, agino)) == agno,
        ctx.spec_ino_to_agino(ctx.spec_agino_to_ino(agno, agino)) == agino,
{
    let s = ctx.ino_shift();
    let a = agno as u64;
    let i = agino as u64;
    assert(s <= 42);
    assert(a <= u64::MAX >> s);
    assert((((a << s) | i) >> s) == a && (((a << s) | i) & (((1u64 << s) - 1) as u64)) == i && a
        < 0x100000000) by (bit_vector)
        requires
            s <= 42,
            i < (1u64 << s),
            a <= (u64::MAX >> s),
            a < 0x100000000,
    ;
}

} // verus!
