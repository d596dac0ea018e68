//! Packed extent records and filesystem-block arithmetic.
//!
//! An on-disk extent record is 16 bytes, read as two big-endian 64-bit
//! words. Counting bit 127 as the most significant bit of the first word:
//! bit 127 is the unwritten flag, bits 126..73 the logical file offset
//! (54 bits), bits 72..21 the starting filesystem block (52 bits), and
//! bits 20..0 the block count (21 bits).

use vstd::prelude::*;

use crate::endian::{be64_at, read_be64};
use crate::error::FxfspError;
use crate::xfs::superblock::FsContext;

verus! {

/// An on-disk extent record: the two big-endian 64-bit words of its 16
/// bytes.
#[derive(Debug, Clone, Copy, PartialEq, Eq, Structural)]
pub struct XfsBmbtRec {
    pub l0: u64,
    pub l1: u64,
}

/// An unpacked extent: a contiguous run of `block_count` filesystem blocks
/// starting at `start_block`, mapped at file offset `logical_offset` (in
/// blocks).
#[derive(Debug, Clone, Copy, PartialEq, Eq, Structural)]
pub struct Extent {
    pub logical_offset: u64,
    pub start_block: u64,
    pub block_count: u64,
    pub is_unwritten: bool,
}

/// The extent described by the two words of a packed record.
pub open spec fn spec_unpack_extent(l0: u64, l1: u64) -> Extent {
    Extent {
        is_unwritten: (l0 >> 63) != 0,
        logical_offset: (l0 >> 9) & 0x003F_FFFF_FFFF_FFFF,
        start_block: ((l0 & 0x1FF) << 43) | (l1 >> 21),
        block_count: l1 & 0x001F_FFFF,
    }
}

/// The two packed words that encode an extent, per the documented bit
/// layout.
pub open spec fn spec_pack_extent(e: Extent) -> XfsBmbtRec {
    XfsBmbtRec {
        l0: ((if e.is_unwritten {
            1u64
        } else {
            0u64
        }) << 63) | (e.logical_offset << 9) | (e.start_block >> 43),
        l1: ((e.start_block & 0x7FF_FFFF_FFFF) << 21) | e.block_count,
    }
}

impl XfsBmbtRec {
    /// Unpack the 128-bit packed layout into an [`Extent`].
    pub fn unpack(&self) -> (r: Extent)
        ensures
            r == spec_unpack_extent(self.l0, self.l1),
    {
        let l0 = self.l0;
        let l1 = self.l1;
        let is_unwritten = (l0 >> 63u64) != 0;
        let logical_offset = (l0 >> 9u64) & 0x003F_FFFF_FFFF_FFFF;
        let start_block = ((l0 & 0x1FF) << 43u64) | (l1 >> 21u64);
        let block_count = l1 & 0x001F_FFFF;
        Extent { logical_offset, start_block, block_count, is_unwritten }
    }
}

/// Extent decode round-trip, word level: decoding any 128-bit record and
/// re-encoding it reproduces both words exactly. The four fields partition
/// the 128 bits, so no information is lost either way.
pub proof fn lemma_extent_record_roundtrip(l0: u64, l1: u64)
    ensures
        spec_pack_extent(spec_unpack_extent(l0, l1)) == (XfsBmbtRec { l0, l1 }),
{
    let e = spec_unpack_extent(l0, l1);
    let u: u64 = if e.is_unwritten {
        1
    } else {
        0
    };
    assert(u == (l0 >> 63)) by (bit_vector)
        requires
            u == (if (l0 >> 63) != 0 {
                1u64
            } else {
                0u64
            }),
    ;
    assert((((l0 >> 63) << 63) | (((l0 >> 9) & 0x003F_FFFF_FFFF_FFFF) << 9) | ((((l0 & 0x1FF)
        << 43) | (l1 >> 21)) >> 43)) == l0) by (bit_vector);
    assert(((((((l0 & 0x1FF) << 43) | (l1 >> 21)) & 0x7FF_FFFF_FFFF) << 21) | (l1 & 0x001F_FFFF))
        == l1) by (bit_vector);
}

/// Extent encode round-trip, field level: packing an extent whose fields
/// fit their bit widths and unpacking the result reproduces the extent.
pub proof fn lemma_extent_fields_roundtrip(e: Extent)
    requires
        e.logical_offset < (1u64 << 54),
        e.start_block < (1u64 << 52),
        e.block_count < (1u64 << 21),
    ensures
        spec_unpack_extent(spec_pack_extent(e).l0, spec_pack_extent(e).l1) == e,
{
    let u: u64 = if e.is_unwritten {
        1
    } else {
        0
    };
    let off = e.logical_offset;
    let st = e.start_block;
    let ct = e.block_count;
    let l0 = (u << 63) | (off << 9) | (st >> 43);
    let l1 = ((st & 0x7FF_FFFF_FFFF) << 21) | ct;
    assert(((l0 >> 63) != 0) == (u == 1) && ((l0 >> 9) & 0x003F_FFFF_FFFF_FFFF) == off && (((l0
        & 0x1FF) << 43) | (l1 >> 21)) == st && (l1 & 0x001F_FFFF) == ct) by (bit_vector)
        requires
            l0 == (u << 63) | (off << 9) | (st >> 43),
            l1 == ((st & 0x7FF_FFFF_FFFF) << 21) | ct,
            u == 0 || u == 1,
            off < (1u64 << 54),
            st < (1u64 << 52),
            ct < (1u64 << 21),
    ;
}

/// The sequence of extents held by the first `n` packed records of `b`.
pub open spec fn spec_extent_list(b: Seq<u8>, n: u32) -> Seq<Extent> {
    Seq::new(n as nat, |i: int| spec_unpack_extent(be64_at(b, 16 * i), be64_at(b, 16 * i + 8)))
}

/// Extract the extent list from an inode's data fork (inline-extents
/// format). `fork_buf` is the data-fork bytes; `nextents` the record count.
///
/// Fails exactly when the fork is too short for `nextents` records. The
/// on-disk order is preserved as is: it need not be ascending in logical
/// offset, and unwritten records are kept, not skipped.
pub fn parse_extent_list(fork_buf: &[u8], nextents: u32) -> (r: Result<Vec<Extent>, FxfspError>)
    ensures
        r is Ok <==> 16 * (nextents as int) <= fork_buf@.len(),
        r matches Ok(v) ==> v@ == spec_extent_list(fork_buf@, nextents),
        r is Err ==> r matches Err(FxfspError::Parse(_)),
{
    let n = nextents as usize;
    if (nextents as u64) * 16 > fork_buf.len() as u64 {
        return Err(FxfspError::Parse("extent record out of bounds"));
    }
    let len = fork_buf.len();
    let mut extents: Vec<Extent> = Vec::new();
    let mut i: usize = 0;
    while i < n
        invariant
            n == nextents,
            len == fork_buf@.len(),
            16 * n <= len,
            i <= n,
            extents@.len() == i,
            forall|j: int|
                0 <= j < i ==> extents@[j] == spec_unpack_extent(
                    be64_at(fork_buf@, 16 * j),
                    be64_at(fork_buf@, 16 * j + 8),
                ),
        decreases n - i,
    {
        let l0 = read_be64(fork_buf, 16 * i);
        let l1 = read_be64(fork_buf, 16 * i + 8);
        let rec = XfsBmbtRec { l0, l1 };
        extents.push(rec.unpack());
        i = i + 1;
    }
    assert(extents@ =~= spec_extent_list(fork_buf@, nextents));
    Ok(extents)
}

/// The `(AG number, AG-relative block)` pair packed into an absolute
/// filesystem block number: the low `ag_blk_log` bits are the AG-relative
/// block, the bits above are the AG number.
pub open spec fn spec_fsblock_to_ag(ctx: FsContext, fsblock: u64) -> (u32, u32) {
    (
        (fsblock >> (ctx.ag_blk_log as u64)) as u32,
        (fsblock & (((1u64 << (ctx.ag_blk_log as u64)) - 1) as u64)) as u32,
    )
}

/// Byte offset of an absolute filesystem block: unpack into AG components
/// first, then convert. The naive `fsblock << block_log` is correct only
/// when `ag_blocks` is a power of two.
pub open spec fn spec_fsblock_to_byte(ctx: FsContext, fsblock: u64) -> u64 {
    ctx.spec_ag_block_to_byte(
        spec_fsblock_to_ag(ctx, fsblock).0,
        spec_fsblock_to_ag(ctx, fsblock).1,
    )
}

/// Convert an absolute filesystem block number to `(agno, agblock)`.
pub fn fsblock_to_ag(ctx: &FsContext, fsblock: u64) -> (r: (u32, u32))
    requires
        ctx.wf(),
    ensures
        r == spec_fsblock_to_ag(*ctx, fsblock),
{
    let l: u64 = ctx.ag_blk_log as u64;
    proof {
        assert(1u64 << l >= 1) by (bit_vector)
            requires
                l <= 31,
        ;
    }
    let agno = (fsblock >> l) as u32;
    let agblock = (fsblock & ((1u64 << l) - 1)) as u32;
    (agno, agblock)
}

/// Convert an absolute filesystem block number to a byte offset on disk.
pub fn fsblock_to_byte(ctx: &FsContext, fsblock: u64) -> (r: u64)
    requires
        ctx.wf(),
    ensures
        r == spec_fsblock_to_byte(*ctx, fsblock),
{
    let (agno, agblock) = fsblock_to_ag(ctx, fsblock);
    ctx.ag_block_to_byte(agno, agblock)
}

impl Extent {
    /// Byte offset on disk where this extent's data starts.
    pub fn start_byte(&self, ctx: &FsContext) -> (r: u64)
        requires
            ctx.wf(),
        ensures
            r == spec_fsblock_to_byte(*ctx, self.start_block),
    {
        fsblock_to_byte(ctx, self.start_block)
    }
}

/// fsblock unpacking: converting a packed filesystem block number to a byte
/// offset equals converting its AG components directly, for every
/// well-formed context, AG number, and AG-relative block below
/// `1 << ag_blk_log`.
pub proof fn lemma_fsblock_unpacking(ctx: FsContext, agno: u32, agblock: u32)
    requires
        ctx.wf(),
        (agblock as u64) < (1u64 << (ctx.ag_blk_log as u64)),
    ensures
        spec_fsblock_to_byte(ctx, ((agno as u64) << (ctx.ag_blk_log as u64)) | (agblock as u64))
            == ctx.spec_ag_block_to_byte(agno, agblock),
{
    let l = ctx.ag_blk_log as u64;
    let a = agno as u64;
    let b = agblock as u64;
    let packed = (a << l) | b;
    assert((packed >> l) == a && (packed & (((1u64 << l) - 1) as u64)) == b && a < 0x100000000)
        by (bit_vector)
        requires
            packed == (a << l) | b,
            l <= 31,
            a < 0x100000000,
            b < (1u64 << l),
    ;
}

} // verus!
