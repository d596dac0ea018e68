//! Inode-allocation B-tree (inobt) walking.
//!
//! The inobt's short-form blocks live at AG-relative block numbers. The
//! walk proceeds level by level: at each level the child block numbers are
//! sorted ascending and read in one coalesced batch, turning a depth-first
//! traversal into a forward disk sweep per level. The spec functions below
//! model the whole walk as a function of the device contents; the
//! executable walker is proved to return exactly that on success.

use vstd::prelude::*;

use crate::endian::{be16_at, be32_at, be64_at, read_be16, read_be32, read_be64};
use crate::error::FxfspError;
use crate::reader::{IoPhase, IoReader, IoRequest, spec_read_range};
use crate::sorting::{sort_u32, spec_sort_u32};
use crate::xfs::superblock::{lemma_block_read_aligned, FormatVersion, FsContext};

verus! {

/// V4 inobt block magic: "IABT".
pub const XFS_IBT_MAGIC: u32 = 0x49414254;

/// V5 inobt block magic: "IAB3".
pub const XFS_IBT3_MAGIC: u32 = 0x49414233;

/// Inode B-tree leaf record (16 bytes on disk): a chunk of up to 64
/// consecutive AG-relative inodes. Bit `i` of `ir_free` clear means slot
/// `i` is allocated; bit `i / 4` of `ir_holemask` set means the group of
/// four slots holding `i` is not backed by disk space.
#[derive(Debug, Clone, Copy, PartialEq, Eq, Structural)]
pub struct XfsInobtRec {
    pub ir_startino: u32,
    pub ir_holemask: u16,
    pub ir_count: u8,
    pub ir_freecount: u8,
    pub ir_free: u64,
}

impl XfsInobtRec {
    /// Is the inode at chunk slot `i` allocated (its free bit clear)?
    pub fn is_allocated(&self, i: u32) -> (r: bool)
        requires
            i < 64,
        ensures
            r == ((self.ir_free & (1u64 << (i as u64))) == 0),
    {
        (self.ir_free & (1u64 << (i as u64))) == 0
    }

    /// Starting AG-relative inode number of the chunk.
    pub fn start_ino(&self) -> (r: u32)
        ensures
            r == self.ir_startino,
    {
        self.ir_startino
    }
}

/// The inobt block magic of the format generation.
pub open spec fn spec_inobt_magic(version: FormatVersion) -> u32 {
    if version is V5 {
        XFS_IBT3_MAGIC
    } else {
        XFS_IBT_MAGIC
    }
}

/// Short-form B-tree block header size: 16 bytes in V4, 56 in V5.
pub open spec fn spec_btree_header_size(version: FormatVersion) -> usize {
    if version is V5 {
        56
    } else {
        16
    }
}

/// Short-form B-tree block header size by format generation.
pub fn btree_header_size(version: FormatVersion) -> (r: usize)
    ensures
        r == spec_btree_header_size(version),
{
    match version {
        FormatVersion::V4 => 16,
        FormatVersion::V5 => 56,
    }
}

/// Does `b` start with an inobt block header of the right magic?
pub open spec fn spec_btree_header_ok(b: Seq<u8>, version: FormatVersion) -> bool {
    &&& b.len() >= spec_btree_header_size(version)
    &&& be32_at(b, 0) == spec_inobt_magic(version)
}

/// The block's own level field (0 at leaves).
pub open spec fn spec_btree_level(b: Seq<u8>) -> u16 {
    be16_at(b, 4)
}

/// The block's record count field.
pub open spec fn spec_btree_numrecs(b: Seq<u8>) -> u16 {
    be16_at(b, 6)
}

/// Parse an inobt block header: `(level, numrecs)`. Fails on a short
/// buffer or a wrong magic.
pub fn parse_btree_header(buf: &[u8], version: FormatVersion) -> (r: Result<
    (u16, u16),
    FxfspError,
>)
    ensures
        r is Ok <==> spec_btree_header_ok(buf@, version),
        r matches Ok(v) ==> v.0 == spec_btree_level(buf@) && v.1 == spec_btree_numrecs(buf@),
        buf@.len() >= spec_btree_header_size(version) && be32_at(buf@, 0) != spec_inobt_magic(
            version,
        ) ==> r matches Err(FxfspError::BadMagic(_)),
        r is Err ==> (r matches Err(FxfspError::BadMagic(_)) || r matches Err(
            FxfspError::Parse(_),
        )),
{
    let hdr_size = btree_header_size(version);
    if buf.len() < hdr_size {
        return Err(FxfspError::Parse("buffer too small for inobt header"));
    }
    let magic = read_be32(buf, 0);
    let expected = match version {
        FormatVersion::V4 => XFS_IBT_MAGIC,
        FormatVersion::V5 => XFS_IBT3_MAGIC,
    };
    if magic != expected {
        return Err(FxfspError::BadMagic("inobt block"));
    }
    Ok((read_be16(buf, 4), read_be16(buf, 6)))
}

/// The inobt record whose 16 bytes start at offset `off` of `b`.
pub open spec fn spec_inobt_rec_at(b: Seq<u8>, off: int) -> XfsInobtRec {
    XfsInobtRec {
        ir_startino: be32_at(b, off),
        ir_holemask: be16_at(b, off + 4),
        ir_count: b[off + 6],
        ir_freecount: b[off + 7],
        ir_free: be64_at(b, off + 8),
    }
}

/// Do `n` leaf records fit after the header?
pub open spec fn spec_inobt_leaf_ok(b: Seq<u8>, hdr_size: int, n: u16) -> bool {
    hdr_size + 16 * n <= b.len()
}

/// The `n` leaf records following the header.
pub open spec fn spec_inobt_leaf(b: Seq<u8>, hdr_size: int, n: u16) -> Seq<XfsInobtRec> {
    Seq::new(n as nat, |i: int| spec_inobt_rec_at(b, hdr_size + 16 * i))
}

fn parse_inobt_leaf(buf: &[u8], hdr_size: usize, numrecs: u16) -> (r: Result<
    Vec<XfsInobtRec>,
    FxfspError,
>)
    requires
        hdr_size <= 56,
    ensures
        r is Ok <==> spec_inobt_leaf_ok(buf@, hdr_size as int, numrecs),
        r matches Ok(v) ==> v@ == spec_inobt_leaf(buf@, hdr_size as int, numrecs),
        r is Err ==> r matches Err(FxfspError::Parse(_)),
{
    let n = numrecs as usize;
    if hdr_size as u64 + (numrecs as u64) * 16 > buf.len() as u64 {
        return Err(FxfspError::Parse("inobt leaf record out of bounds"));
    }
    let len = buf.len();
    let mut records: Vec<XfsInobtRec> = Vec::new();
    let mut i: usize = 0;
    while i < n
        invariant
            n == numrecs,
            len == buf@.len(),
            hdr_size + 16 * n <= len,
            hdr_size <= 56,
            i <= n,
            records@.len() == i,
            forall|j: int|
                0 <= j < i ==> records@[j] == spec_inobt_rec_at(buf@, hdr_size + 16 * j),
        decreases n - i,
    {
        let off = hdr_size + 16 * i;
        let rec = XfsInobtRec {
            ir_startino: read_be32(buf, off),
            ir_holemask: read_be16(buf, off + 4),
            ir_count: buf[off + 6],
            ir_freecount: buf[off + 7],
            ir_free: read_be64(buf, off + 8),
        };
        records.push(rec);
        i = i + 1;
    }
    assert(records@ =~= spec_inobt_leaf(buf@, hdr_size as int, numrecs));
    Ok(records)
}

/// Offset of the child-pointer array in an interior block: the layout
/// reserves key and pointer slots for the maximum records the block could
/// hold, not the current count.
pub open spec fn spec_inobt_ptr_offset(hdr_size: int, block_size: int) -> int {
    hdr_size + ((block_size - hdr_size) / 8) * 4
}

/// Do `n` child pointers fit inside the buffer?
pub open spec fn spec_inobt_children_ok(b: Seq<u8>, hdr_size: int, n: u16, block_size: int) -> bool {
    spec_inobt_ptr_offset(hdr_size, block_size) + 4 * n <= b.len()
}

/// The `n` child AG-block pointers of an interior block.
pub open spec fn spec_inobt_children(b: Seq<u8>, hdr_size: int, n: u16, block_size: int) -> Seq<
    u32,
> {
    Seq::new(n as nat, |i: int| be32_at(b, spec_inobt_ptr_offset(hdr_size, block_size) + 4 * i))
}

fn extract_inobt_children(buf: &[u8], hdr_size: usize, numrecs: u16, block_size: usize) -> (r:
    Result<Vec<u32>, FxfspError>)
    requires
        hdr_size <= 56,
        hdr_size <= block_size,
        block_size <= 0x10000,
    ensures
        r is Ok <==> spec_inobt_children_ok(buf@, hdr_size as int, numrecs, block_size as int),
        r matches Ok(v) ==> v@ == spec_inobt_children(
            buf@,
            hdr_size as int,
            numrecs,
            block_size as int,
        ),
        r is Err ==> r matches Err(FxfspError::Parse(_)),
{
    let maxrecs = (block_size - hdr_size) / 8;
    let ptr_offset = hdr_size + maxrecs * 4;
    let n = numrecs as usize;
    if ptr_offset as u64 + (numrecs as u64) * 4 > buf.len() as u64 {
        return Err(FxfspError::Parse("inobt ptr out of bounds"));
    }
    let len = buf.len();
    let mut children: Vec<u32> = Vec::new();
    let mut i: usize = 0;
    while i < n
        invariant
            n == numrecs,
            len == buf@.len(),
            ptr_offset == spec_inobt_ptr_offset(hdr_size as int, block_size as int),
            ptr_offset + 4 * n <= len,
            i <= n,
            children@.len() == i,
            forall|j: int| 0 <= j < i ==> children@[j] == be32_at(buf@, ptr_offset + 4 * j),
        decreases n - i,
    {
        children.push(read_be32(buf, ptr_offset + 4 * i));
        i = i + 1;
    }
    assert(children@ =~= spec_inobt_children(buf@, hdr_size as int, numrecs, block_size as int));
    Ok(children)
}

/// The bytes a block-sized read of AG-relative block `blk` returns.
pub open spec fn spec_inobt_block(dev: Seq<u8>, ctx: FsContext, agno: u32, blk: u32) -> Seq<u8> {
    spec_read_range(dev, ctx.spec_ag_block_to_byte(agno, blk), ctx.block_size as usize)
}

/// Is block `blk` acceptable at `level` of the walk: right magic, matching
/// level field at interior levels, and its payload in bounds? The level
/// field of a leaf reached through the walk is not consulted, matching the
/// sweep's leaf handling.
pub open spec fn spec_walk_block_ok(
    dev: Seq<u8>,
    ctx: FsContext,
    agno: u32,
    blk: u32,
    level: int,
) -> bool {
    let b = spec_inobt_block(dev, ctx, agno, blk);
    let hdr = spec_btree_header_size(ctx.version) as int;
    &&& spec_btree_header_ok(b, ctx.version)
    &&& (level > 0 ==> spec_btree_level(b) == level)
    &&& (level == 0 ==> spec_inobt_leaf_ok(b, hdr, spec_btree_numrecs(b)))
    &&& (level > 0 ==> spec_inobt_children_ok(
        b,
        hdr,
        spec_btree_numrecs(b),
        ctx.block_size as int,
    ))
}

/// Are all blocks of one walk level acceptable?
pub open spec fn spec_level_ok(
    dev: Seq<u8>,
    ctx: FsContext,
    agno: u32,
    blocks: Seq<u32>,
    level: int,
) -> bool {
    forall|i: int|
        0 <= i < blocks.len() ==> spec_walk_block_ok(dev, ctx, agno, #[trigger] blocks[i], level)
}

/// All leaf records of the blocks, in block order.
pub open spec fn spec_level_leaf_records(
    dev: Seq<u8>,
    ctx: FsContext,
    agno: u32,
    blocks: Seq<u32>,
) -> Seq<XfsInobtRec> {
    blocks.map_values(
        |blk: u32|
            {
                let b = spec_inobt_block(dev, ctx, agno, blk);
                spec_inobt_leaf(
                    b,
                    spec_btree_header_size(ctx.version) as int,
                    spec_btree_numrecs(b),
                )
            },
    ).flatten()
}

/// All child pointers of the blocks, in block order.
pub open spec fn spec_level_children(
    dev: Seq<u8>,
    ctx: FsContext,
    agno: u32,
    blocks: Seq<u32>,
) -> Seq<u32> {
    blocks.map_values(
        |blk: u32|
            {
                let b = spec_inobt_block(dev, ctx, agno, blk);
                spec_inobt_children(
                    b,
                    spec_btree_header_size(ctx.version) as int,
                    spec_btree_numrecs(b),
                    ctx.block_size as int,
                )
            },
    ).flatten()
}

/// The level-by-level walk from `blocks` at `level` down to the leaves:
/// sort the level's blocks ascending, demand every block acceptable, then
/// either collect the leaf records (level 0) or recurse on the
/// concatenated children. `None` is a fatal parse failure.
pub open spec fn spec_inobt_walk(
    dev: Seq<u8>,
    ctx: FsContext,
    agno: u32,
    blocks: Seq<u32>,
    level: int,
) -> Option<Seq<XfsInobtRec>>
    decreases level,
{
    let sorted = spec_sort_u32(blocks);
    if !spec_level_ok(dev, ctx, agno, sorted, level) {
        None
    } else if level <= 0 {
        Some(spec_level_leaf_records(dev, ctx, agno, sorted))
    } else {
        spec_inobt_walk(dev, ctx, agno, spec_level_children(dev, ctx, agno, sorted), level - 1)
    }
}

/// The complete inobt collection for one AG: read the root block, check
/// its magic and its level against the AGI-reported one (1-based), then
/// either take its leaf records or walk its children level by level.
pub open spec fn spec_collect_inobt(
    dev: Seq<u8>,
    ctx: FsContext,
    agno: u32,
    root_block: u32,
    agi_level: u32,
) -> Option<Seq<XfsInobtRec>> {
    let root_level: int = if agi_level == 0 {
        0
    } else {
        agi_level as int - 1
    };
    let b = spec_inobt_block(dev, ctx, agno, root_block);
    let hdr = spec_btree_header_size(ctx.version) as int;
    if !spec_btree_header_ok(b, ctx.version) {
        None
    } else if spec_btree_level(b) as int != root_level {
        None
    } else if root_level == 0 {
        if spec_inobt_leaf_ok(b, hdr, spec_btree_numrecs(b)) {
            Some(spec_inobt_leaf(b, hdr, spec_btree_numrecs(b)))
        } else {
            None
        }
    } else {
        if spec_inobt_children_ok(b, hdr, spec_btree_numrecs(b), ctx.block_size as int) {
            spec_inobt_walk(
                dev,
                ctx,
                agno,
                spec_inobt_children(b, hdr, spec_btree_numrecs(b), ctx.block_size as int),
                root_level - 1,
            )
        } else {
            None
        }
    }
}

/// One level of the executable walk; see [`spec_inobt_walk`].
#[verifier::rlimit(60)]
fn walk_inobt_level<R: IoReader>(
    engine: &mut R,
    ctx: &FsContext,
    agno: u32,
    blocks: Vec<u32>,
    level: u32,
) -> (r: Result<Vec<XfsInobtRec>, FxfspError>)
    requires
        ctx.wf(),
    ensures
        final(engine).device() == old(engine).device(),
        r matches Ok(v) ==> Some(v@) == spec_inobt_walk(
            old(engine).device(),
            *ctx,
            agno,
            blocks@,
            level as int,
        ),
        r matches Err(e) ==> (e is Io || e is BadMagic || e is Parse),
    decreases level,
{
    let ghost dev = old(engine).device();
    let sorted = sort_u32(blocks);
    let hdr_size = btree_header_size(ctx.version);
    let block_size = ctx.block_size as usize;
    let mut requests: Vec<IoRequest> = Vec::new();
    let mut i: usize = 0;
    while i < sorted.len()
        invariant
            ctx.wf(),
            i <= sorted@.len(),
            block_size == ctx.block_size as usize,
            requests@.len() == i,
            forall|j: int|
                0 <= j < i ==> (#[trigger] requests@[j]) == (IoRequest {
                    offset: ctx.spec_ag_block_to_byte(agno, sorted@[j]),
                    len: ctx.block_size as usize,
                    tag: 0,
                }),
            forall|j: int|
                0 <= j < i ==> ((#[trigger] requests@[j]).offset % 512 == 0 && requests@[j].len
                    % 512 == 0),
        decreases sorted@.len() - i,
    {
        let offset = ctx.ag_block_to_byte(agno, sorted[i]);
        proof {
            lemma_block_read_aligned(*ctx, agno, sorted@[i as int]);
        }
        requests.push(IoRequest { offset, len: block_size, tag: 0 });
        i = i + 1;
    }
    let bufs = match engine.coalesced_read_batch(&requests, IoPhase::InobtWalk) {
        Ok(bufs) => bufs,
        Err(e) => {
            return Err(e);
        },
    };
    assert(forall|j: int|
        0 <= j < sorted@.len() ==> (#[trigger] bufs@[j])@ == spec_inobt_block(
            dev,
            *ctx,
            agno,
            sorted@[j],
        ));
    if level == 0 {
        let mut records: Vec<XfsInobtRec> = Vec::new();
        let ghost mut segs: Seq<Seq<XfsInobtRec>> = Seq::empty();
        let mut k: usize = 0;
        while k < bufs.len()
            invariant
                ctx.wf(),
                engine.device() == old(engine).device(),
                k <= bufs@.len(),
                bufs@.len() == sorted@.len(),
                hdr_size == spec_btree_header_size(ctx.version),
                forall|j: int|
                    0 <= j < sorted@.len() ==> (#[trigger] bufs@[j])@ == spec_inobt_block(
                        dev,
                        *ctx,
                        agno,
                        sorted@[j],
                    ),
                forall|j: int|
                    0 <= j < k ==> spec_walk_block_ok(dev, *ctx, agno, #[trigger] sorted@[j], 0),
                segs.len() == k,
                forall|j: int|
                    0 <= j < k ==> #[trigger] segs[j] == spec_inobt_leaf(
                        spec_inobt_block(dev, *ctx, agno, sorted@[j]),
                        spec_btree_header_size(ctx.version) as int,
                        spec_btree_numrecs(spec_inobt_block(dev, *ctx, agno, sorted@[j])),
                    ),
                records@ == segs.flatten(),
            decreases bufs@.len() - k,
        {
            let buf = &bufs[k];
            let (_lvl, numrecs) = parse_btree_header(buf, ctx.version)?;
            let mut recs = parse_inobt_leaf(buf, hdr_size, numrecs)?;
            proof {
                segs.lemma_flatten_push(recs@);
                segs = segs.push(recs@);
            }
            records.append(&mut recs);
            k = k + 1;
        }
        proof {
            assert(segs =~= sorted@.map_values(
                |blk: u32|
                    {
                        let b = spec_inobt_block(dev, *ctx, agno, blk);
                        spec_inobt_leaf(
                            b,
                            spec_btree_header_size(ctx.version) as int,
                            spec_btree_numrecs(b),
                        )
                    },
            ));
        }
        Ok(records)
    } else {
        let mut children: Vec<u32> = Vec::new();
        let ghost mut segs: Seq<Seq<u32>> = Seq::empty();
        let mut k: usize = 0;
        while k < bufs.len()
            invariant
                ctx.wf(),
                engine.device() == old(engine).device(),
                0 < level,
                k <= bufs@.len(),
                bufs@.len() == sorted@.len(),
                hdr_size == spec_btree_header_size(ctx.version),
                block_size == ctx.block_size as usize,
                forall|j: int|
                    0 <= j < sorted@.len() ==> (#[trigger] bufs@[j])@ == spec_inobt_block(
                        dev,
                        *ctx,
                        agno,
                        sorted@[j],
                    ),
                forall|j: int|
                    0 <= j < k ==> spec_walk_block_ok(
                        dev,
                        *ctx,
                        agno,
                        #[trigger] sorted@[j],
                        level as int,
                    ),
                segs.len() == k,
                forall|j: int|
                    0 <= j < k ==> #[trigger] segs[j] == spec_inobt_children(
                        spec_inobt_block(dev, *ctx, agno, sorted@[j]),
                        spec_btree_header_size(ctx.version) as int,
                        spec_btree_numrecs(spec_inobt_block(dev, *ctx, agno, sorted@[j])),
                        ctx.block_size as int,
                    ),
                children@ == segs.flatten(),
            decreases bufs@.len() - k,
        {
            let buf = &bufs[k];
            let (blk_level, numrecs) = parse_btree_header(buf, ctx.version)?;
            if blk_level as u32 != level {
                return Err(FxfspError::Parse("inobt level mismatch"));
            }
            proof {
                ctx.lemma_wf_bounds();
            }
            let mut cs = extract_inobt_children(buf, hdr_size, numrecs, block_size)?;
            proof {
                segs.lemma_flatten_push(cs@);
                segs = segs.push(cs@);
            }
            children.append(&mut cs);
            k = k + 1;
        }
        proof {
            assert(segs =~= sorted@.map_values(
                |blk: u32|
                    {
                        let b = spec_inobt_block(dev, *ctx, agno, blk);
                        spec_inobt_children(
                            b,
                            spec_btree_header_size(ctx.version) as int,
                            spec_btree_numrecs(b),
                            ctx.block_size as int,
                        )
                    },
            ));
        }
        walk_inobt_level(engine, ctx, agno, children, level - 1)
    }
}

/// Walk the inode B-tree rooted at AG-relative block `root_block` and
/// collect all its leaf records.
///
/// `level` is the AGI-reported, 1-based level count; the root block's own
/// level field must equal `level - 1`. On success the result is exactly
/// [`spec_collect_inobt`] of the device contents; a parse failure, a level
/// mismatch, or a reader failure is fatal.
pub fn collect_inobt_records<R: IoReader>(
    engine: &mut R,
    ctx: &FsContext,
    agno: u32,
    root_block: u32,
    level: u32,
) -> (r: Result<Vec<XfsInobtRec>, FxfspError>)
    requires
        ctx.wf(),
    ensures
        final(engine).device() == old(engine).device(),
        r matches Ok(v) ==> Some(v@) == spec_collect_inobt(
            old(engine).device(),
            *ctx,
            agno,
            root_block,
            level,
        ),
        spec_collect_inobt(old(engine).device(), *ctx, agno, root_block, level) is None ==> r
            is Err,
        r matches Err(e) ==> (e is Io || e is BadMagic || e is Parse),
        ({
            let rootb = spec_inobt_block(old(engine).device(), *ctx, agno, root_block);
            let root_level: int = if level == 0 {
                0
            } else {
                level as int - 1
            };
            &&& (rootb.len() >= spec_btree_header_size(ctx.version) && be32_at(rootb, 0)
                != spec_inobt_magic(ctx.version) ==> (r matches Err(FxfspError::BadMagic(_)) || r
                matches Err(FxfspError::Io(_))))
            &&& (spec_btree_header_ok(rootb, ctx.version) && spec_btree_level(rootb) as int
                != root_level ==> (r matches Err(FxfspError::Parse(_)) || r matches Err(
                FxfspError::Io(_),
            )))
            &&& (spec_btree_header_ok(rootb, ctx.version) && spec_btree_level(rootb) as int
                == root_level && root_level == 0 && !spec_inobt_leaf_ok(
                rootb,
                spec_btree_header_size(ctx.version) as int,
                spec_btree_numrecs(rootb),
            ) ==> (r matches Err(FxfspError::Parse(_)) || r matches Err(FxfspError::Io(_))))
        }),
{
    let ghost dev = old(engine).device();
    let root_level: u32 = if level == 0 {
        0
    } else {
        level - 1
    };
    let hdr_size = btree_header_size(ctx.version);
    let block_size = ctx.block_size as usize;
    let offset = ctx.ag_block_to_byte(agno, root_block);
    proof {
        lemma_block_read_aligned(*ctx, agno, root_block);
    }
    let buf = match engine.read_at(offset, block_size, IoPhase::InobtWalk) {
        Ok(buf) => buf,
        Err(e) => {
            return Err(e);
        },
    };
    assert(buf@ == spec_inobt_block(dev, *ctx, agno, root_block));
    let (blk_level, numrecs) = parse_btree_header(&buf, ctx.version)?;
    if blk_level as u32 != root_level {
        return Err(FxfspError::Parse("inobt level mismatch"));
    }
    if root_level == 0 {
        return parse_inobt_leaf(&buf, hdr_size, numrecs);
    }
    proof {
        ctx.lemma_wf_bounds();
    }
    let children = extract_inobt_children(&buf, hdr_size, numrecs, block_size)?;
    walk_inobt_level(engine, ctx, agno, children, root_level - 1)
}

} // verus!
