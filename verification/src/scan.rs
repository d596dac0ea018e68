//! The scan engine: the per-AG phases driven over an [`IoReader`].
//!
//! Phase order per AG: AGI read, inobt walk, batched inode-chunk reads
//! and classification, bmbt sweep for btree-format forks, directory-data
//! sweep. The public entry points in the crate root and the phased API
//! wrap these.

use vstd::prelude::*;

use crate::error::FxfspError;
use crate::reader::{spec_read_range, IoPhase, IoReader, IoRequest};
use crate::scan_common::{
    copy_range, dir_read_requests, handle_directory, slice_from, spec_dir_requests,
    spec_dir_work_view, spec_handle_directory_ok, AgWork, BtreeDirItem, DirPhaseWork,
    DirWorkItem, ShortformDirItem,
};
use crate::sorting::sort_inobt_recs;
use crate::staged::{spec_entries_view, spec_inodes_view, DirEntryInfo, DirEntryModel, FileExtentsInfo, FileExtentsModel, InodeInfo, InodeModel, SuperblockInfo};
use crate::xfs::ag::{spec_agi, spec_agi_ok, AgiInfo};
use crate::xfs::bmbt::{collect_all_bmbt_extents, spec_collect_bmbt, BmbtDirInput};
use crate::xfs::btree::{collect_inobt_records, XfsInobtRec};
use crate::xfs::dir::block::{parse_dir_data_block, spec_dir_block};
use crate::xfs::dir::shortform::{parse_shortform_dir, spec_shortform_dir};
use crate::xfs::extent::{parse_extent_list, spec_extent_list, Extent};
use crate::xfs::inode::{
    parse_inode_core, spec_inode_core, spec_inode_ok, S_IFDIR, S_IFMT, S_IFREG,
    XFS_DINODE_FMT_BTREE, XFS_DINODE_FMT_EXTENTS,
};
use crate::xfs::superblock::{lemma_block_read_aligned, FormatVersion, FsContext};

verus! {

/// Read the superblock (4096 bytes at offset 0) and build the geometry
/// record.
pub fn read_superblock_ctx<R: IoReader>(reader: &mut R) -> (r: Result<FsContext, FxfspError>)
    ensures
        final(reader).device() == old(reader).device(),
        r matches Ok(c) ==> c == FsContext::spec_from_superblock(
            spec_read_range(old(reader).device(), 0, 4096),
        ) && c.wf() && FsContext::spec_superblock_ok(spec_read_range(old(reader).device(), 0, 4096)),
{
    let buf = match reader.read_at(0, 4096, IoPhase::Superblock) {
        Ok(b) => b,
        Err(e) => {
            return Err(e);
        },
    };
    FsContext::from_superblock(&buf)
}

/// Byte offset of the filesystem block holding the AGI of AG `agno`.
pub open spec fn spec_agi_block_offset(ctx: FsContext, agno: u32) -> u64 {
    ctx.spec_agi_byte_offset(agno) & !((((ctx.block_size as u64) - 1) as u64))
}

/// The bytes the AGI parser sees: the AGI's block, skipped forward to the
/// AGI's position within it.
pub open spec fn spec_agi_bytes(dev: Seq<u8>, ctx: FsContext, agno: u32) -> Seq<u8> {
    let block = spec_read_range(dev, spec_agi_block_offset(ctx, agno), ctx.block_size as usize);
    let within = ctx.spec_agi_byte_offset(agno) - spec_agi_block_offset(ctx, agno);
    if within <= block.len() {
        block.skip(within as int)
    } else {
        Seq::empty()
    }
}

/// Facts about the AGI position: its block offset is block-aligned and
/// the AGI sits within the first block-size bytes after it.
proof fn lemma_agi_block_offset(ctx: FsContext, agno: u32)
    requires
        ctx.wf(),
    ensures
        spec_agi_block_offset(ctx, agno) % 512 == 0,
        spec_agi_block_offset(ctx, agno) <= ctx.spec_agi_byte_offset(agno),
        ctx.spec_agi_byte_offset(agno) - spec_agi_block_offset(ctx, agno) < ctx.block_size,
{
    let x = ctx.spec_agi_byte_offset(agno);
    let bl = ctx.block_log as u64;
    let bs = ctx.block_size as u64;
    assert((x & !(((((1u64 << bl) as u64) - 1) as u64))) % 512 == 0 && (x & !(((((1u64 << bl) as u64)
        - 1) as u64))) <= x && x - (x & !(((((1u64 << bl) as u64) - 1) as u64))) < (1u64 << bl))
        by (bit_vector)
        requires
            9 <= bl <= 16,
    ;
    let bl32 = ctx.block_log as u32;
    assert(((1u32 << bl32) as u64) == (1u64 << ((bl32 as u64)))) by (bit_vector)
        requires
            bl32 <= 16,
    ;
    assert(bs == (1u64 << bl) as u64);
}

/// Read and decode the AGI header of AG `agno`.
pub fn read_agi<R: IoReader>(reader: &mut R, ctx: &FsContext, agno: u32) -> (r: Result<
    AgiInfo,
    FxfspError,
>)
    requires
        ctx.wf(),
        agno < ctx.ag_count,
    ensures
        final(reader).device() == old(reader).device(),
        r matches Ok(a) ==> spec_agi_ok(spec_agi_bytes(old(reader).device(), *ctx, agno), agno)
            && a == spec_agi(spec_agi_bytes(old(reader).device(), *ctx, agno), agno),
{
    proof {
        ctx.lemma_wf_bounds();
        lemma_agi_block_offset(*ctx, agno);
        lemma_block_read_aligned(*ctx, agno, 0);
    }
    let agi_offset = ctx.agi_byte_offset(agno);
    let agi_block_offset = agi_offset & !((ctx.block_size as u64) - 1);
    let buf = match reader.read_at(agi_block_offset, ctx.block_size as usize, IoPhase::Agi) {
        Ok(b) => b,
        Err(e) => {
            return Err(e);
        },
    };
    let within = (agi_offset - agi_block_offset) as usize;
    if within > buf.len() {
        return Err(FxfspError::Parse("AGI past end of device"));
    }
    let agi_buf = slice_from(&buf, within);
    proof {
        assert(agi_buf@ =~= spec_agi_bytes(old(reader).device(), *ctx, agno));
    }
    AgiInfo::from_buf(agi_buf, agno, ctx.version)
}

/// Is chunk slot `i` passed over: its group of four is a hole, or its
/// free bit is set?
pub open spec fn spec_slot_skipped(rec: XfsInobtRec, i: int) -> bool {
    ||| (rec.ir_holemask & (1u16 << ((i / 4) as u16))) != 0
    ||| (rec.ir_free & (1u64 << (i as u64))) != 0
}

/// Can the slot's inode bytes `ib` be decoded and classified without a
/// fatal error?
pub open spec fn spec_slot_ok(ib: Seq<u8>, ctx: FsContext) -> bool {
    let info = spec_inode_core(ib, 0, ctx.version is V5, ctx.has_nrext64, ctx.inode_size);
    &&& spec_inode_ok(ib, ctx.version is V5, ctx.has_nrext64, ctx.inode_size)
    &&& ((info.mode & S_IFMT) == S_IFREG && info.format == XFS_DINODE_FMT_EXTENTS
        && info.nextents > 0 ==> info.data_fork_offset + 16 * (info.nextents as int) <= ib.len())
    &&& ((info.mode & S_IFMT) == S_IFDIR ==> spec_handle_directory_ok(ib, info))
}

/// The discovered-inode model one decoded slot yields.
pub open spec fn spec_slot_model(ib: Seq<u8>, ino: u64, agno: u32, ctx: FsContext) -> InodeModel {
    let info = spec_inode_core(ib, ino, ctx.version is V5, ctx.has_nrext64, ctx.inode_size);
    InodeModel {
        ag_number: agno,
        ino: info.ino,
        mode: info.mode,
        size: info.size,
        uid: info.uid,
        gid: info.gid,
        nlink: info.nlink,
        mtime_sec: info.mtime_sec,
        mtime_nsec: info.mtime_nsec,
        atime_sec: info.atime_sec,
        atime_nsec: info.atime_nsec,
        ctime_sec: info.ctime_sec,
        ctime_nsec: info.ctime_nsec,
        nblocks: info.nblocks,
        extents: if (info.mode & S_IFMT) == S_IFREG && info.format == XFS_DINODE_FMT_EXTENTS
            && info.nextents > 0 {
            Some(spec_extent_list(ib.skip(info.data_fork_offset as int), info.nextents))
        } else {
            None
        },
    }
}

/// The chunk's discovered inodes from slot `i` on: skipped slots yield
/// nothing, a slot past the chunk's bytes ends the chunk, a slot that
/// cannot be decoded is fatal (`None`).
pub open spec fn spec_chunk_scan(
    b: Seq<u8>,
    rec: XfsInobtRec,
    agno: u32,
    ctx: FsContext,
    i: int,
) -> Option<Seq<InodeModel>>
    decreases 64 - i,
{
    if i >= 64 {
        Some(Seq::empty())
    } else if spec_slot_skipped(rec, i) {
        spec_chunk_scan(b, rec, agno, ctx, i + 1)
    } else if i * (ctx.inode_size as int) + (ctx.inode_size as int) > b.len() {
        Some(Seq::empty())
    } else {
        let ib = b.skip(i * (ctx.inode_size as int));
        let ino = ctx.spec_agino_to_ino(agno, (rec.ir_startino + i) as u32);
        if !spec_slot_ok(ib, ctx) {
            None
        } else {
            match spec_chunk_scan(b, rec, agno, ctx, i + 1) {
                None => None,
                Some(rest) => Some(seq![spec_slot_model(ib, ino, agno, ctx)] + rest),
            }
        }
    }
}

/// `spec_chunk_scan` with the already-decoded models glued in front.
pub open spec fn spec_chunk_tail(
    b: Seq<u8>,
    rec: XfsInobtRec,
    agno: u32,
    ctx: FsContext,
    i: int,
    done: Seq<InodeModel>,
) -> Option<Seq<InodeModel>> {
    match spec_chunk_scan(b, rec, agno, ctx, i) {
        None => None,
        Some(rest) => Some(done + rest),
    }
}

/// The discovered inodes of one whole chunk; a record whose starting
/// inode would overflow the AG-relative space is fatal.
pub open spec fn spec_chunk_inodes(
    b: Seq<u8>,
    rec: XfsInobtRec,
    agno: u32,
    ctx: FsContext,
) -> Option<Seq<InodeModel>> {
    if rec.ir_startino > u32::MAX - 63 {
        None
    } else {
        spec_chunk_scan(b, rec, agno, ctx, 0)
    }
}

/// The queued work of a scan, as mathematics: deferred directories and
/// their extents, shortform forks, and btree forks (directories, then
/// regular files).
pub struct WorkModel {
    pub dirs: Seq<(u64, Seq<Extent>)>,
    pub sfs: Seq<(u64, Seq<u8>)>,
    pub bdirs: Seq<(u64, Seq<u8>, int)>,
    pub bfiles: Seq<(u64, Seq<u8>, int)>,
}

/// No queued work.
pub open spec fn spec_wm_empty() -> WorkModel {
    WorkModel { dirs: Seq::empty(), sfs: Seq::empty(), bdirs: Seq::empty(), bfiles: Seq::empty() }
}

/// Queued work concatenated, list by list.
pub open spec fn spec_wm_add(a: WorkModel, b: WorkModel) -> WorkModel {
    WorkModel {
        dirs: a.dirs + b.dirs,
        sfs: a.sfs + b.sfs,
        bdirs: a.bdirs + b.bdirs,
        bfiles: a.bfiles + b.bfiles,
    }
}

/// Work concatenation is associative.
pub proof fn lemma_wm_assoc(a: WorkModel, b: WorkModel, c: WorkModel)
    ensures
        spec_wm_add(a, spec_wm_add(b, c)) == spec_wm_add(spec_wm_add(a, b), c),
{
    assert(spec_wm_add(a, spec_wm_add(b, c)).dirs =~= spec_wm_add(spec_wm_add(a, b), c).dirs);
    assert(spec_wm_add(a, spec_wm_add(b, c)).sfs =~= spec_wm_add(spec_wm_add(a, b), c).sfs);
    assert(spec_wm_add(a, spec_wm_add(b, c)).bdirs =~= spec_wm_add(spec_wm_add(a, b), c).bdirs);
    assert(spec_wm_add(a, spec_wm_add(b, c)).bfiles =~= spec_wm_add(spec_wm_add(a, b), c).bfiles);
}

/// Adding no work changes nothing.
pub proof fn lemma_wm_add_empty(a: WorkModel)
    ensures
        spec_wm_add(a, spec_wm_empty()) == a,
{
    assert(spec_wm_add(a, spec_wm_empty()).dirs =~= a.dirs);
    assert(spec_wm_add(a, spec_wm_empty()).sfs =~= a.sfs);
    assert(spec_wm_add(a, spec_wm_empty()).bdirs =~= a.bdirs);
    assert(spec_wm_add(a, spec_wm_empty()).bfiles =~= a.bfiles);
}

/// The shortform work as mathematics: `(inode, fork bytes)`.
pub open spec fn spec_sf_view(v: Seq<ShortformDirItem>) -> Seq<(u64, Seq<u8>)> {
    v.map_values(|s: ShortformDirItem| (s.ino, s.fork_data@))
}

/// The btree-fork work as mathematics: `(inode, fork bytes, fork area
/// size)`.
pub open spec fn spec_btree_view(v: Seq<BtreeDirItem>) -> Seq<(u64, Seq<u8>, int)> {
    v.map_values(|d: BtreeDirItem| (d.ino, d.fork_data@, d.data_fork_size as int))
}

/// What one decoded slot queues for the later phases: a directory's fork
/// by its format, a btree-format regular file's fork for the bmbt sweep,
/// nothing otherwise.
pub open spec fn spec_slot_work(ib: Seq<u8>, ino: u64, ctx: FsContext) -> WorkModel {
    let info = spec_inode_core(ib, ino, ctx.version is V5, ctx.has_nrext64, ctx.inode_size);
    if (info.mode & S_IFMT) == S_IFDIR {
        if info.format == crate::xfs::inode::XFS_DINODE_FMT_LOCAL {
            WorkModel {
                dirs: Seq::empty(),
                sfs: seq![
                    (ino, ib.subrange(
                        info.data_fork_offset as int,
                        info.data_fork_offset + info.size,
                    )),
                ],
                bdirs: Seq::empty(),
                bfiles: Seq::empty(),
            }
        } else if info.format == XFS_DINODE_FMT_EXTENTS {
            WorkModel {
                dirs: seq![
                    (ino, spec_extent_list(ib.skip(info.data_fork_offset as int), info.nextents)),
                ],
                sfs: Seq::empty(),
                bdirs: Seq::empty(),
                bfiles: Seq::empty(),
            }
        } else if info.format == XFS_DINODE_FMT_BTREE {
            WorkModel {
                dirs: Seq::empty(),
                sfs: Seq::empty(),
                bdirs: seq![
                    (ino, crate::scan_common::spec_btree_fork_bytes(ib, info), info.data_fork_size as int),
                ],
                bfiles: Seq::empty(),
            }
        } else {
            spec_wm_empty()
        }
    } else if (info.mode & S_IFMT) == S_IFREG && info.format == XFS_DINODE_FMT_BTREE {
        WorkModel {
            dirs: Seq::empty(),
            sfs: Seq::empty(),
            bdirs: Seq::empty(),
            bfiles: seq![
                (ino, crate::scan_common::spec_btree_fork_bytes(ib, info), info.data_fork_size as int),
            ],
        }
    } else {
        spec_wm_empty()
    }
}

/// The chunk's queued work from slot `i` on, alongside
/// [`spec_chunk_scan`]: the same slots under the same conditions, each
/// contributing [`spec_slot_work`].
pub open spec fn spec_chunk_work(
    b: Seq<u8>,
    rec: XfsInobtRec,
    agno: u32,
    ctx: FsContext,
    i: int,
) -> Option<WorkModel>
    decreases 64 - i,
{
    if i >= 64 {
        Some(spec_wm_empty())
    } else if spec_slot_skipped(rec, i) {
        spec_chunk_work(b, rec, agno, ctx, i + 1)
    } else if i * (ctx.inode_size as int) + (ctx.inode_size as int) > b.len() {
        Some(spec_wm_empty())
    } else {
        let ib = b.skip(i * (ctx.inode_size as int));
        let ino = ctx.spec_agino_to_ino(agno, (rec.ir_startino + i) as u32);
        if !spec_slot_ok(ib, ctx) {
            None
        } else {
            match spec_chunk_work(b, rec, agno, ctx, i + 1) {
                None => None,
                Some(rest) => Some(spec_wm_add(spec_slot_work(ib, ino, ctx), rest)),
            }
        }
    }
}

/// `spec_chunk_work` with the already-queued work glued in front.
pub open spec fn spec_chunk_work_tail(
    b: Seq<u8>,
    rec: XfsInobtRec,
    agno: u32,
    ctx: FsContext,
    i: int,
    done: WorkModel,
) -> Option<WorkModel> {
    match spec_chunk_work(b, rec, agno, ctx, i) {
        None => None,
        Some(rest) => Some(spec_wm_add(done, rest)),
    }
}

/// The queued work of one whole chunk; fatal exactly where
/// [`spec_chunk_inodes`] is.
pub open spec fn spec_chunk_queued(
    b: Seq<u8>,
    rec: XfsInobtRec,
    agno: u32,
    ctx: FsContext,
) -> Option<WorkModel> {
    if rec.ir_startino > u32::MAX - 63 {
        None
    } else {
        spec_chunk_work(b, rec, agno, ctx, 0)
    }
}

/// Decode every allocated inode of one inobt chunk, appending the
/// discoveries and queueing directory and btree-fork work.
///
/// Chunk slot `i` is skipped when bit `i / 4` of the hole mask or bit `i`
/// of the free bitmap is set. On success the appended inodes are exactly
/// [`spec_chunk_inodes`] of the chunk bytes; entries already in `inodes`
/// stay untouched.
#[verifier::rlimit(60)]
pub fn process_inode_chunk(
    chunk_buf: &[u8],
    rec: &XfsInobtRec,
    agno: u32,
    ctx: &FsContext,
    is_v5: bool,
    inodes: &mut Vec<InodeInfo>,
    dir_work: &mut Vec<DirWorkItem>,
    shortform_dirs: &mut Vec<ShortformDirItem>,
    btree_dirs: &mut Vec<BtreeDirItem>,
    btree_files: &mut Vec<BtreeDirItem>,
) -> (r: Result<(), FxfspError>)
    requires
        ctx.wf(),
        is_v5 == (ctx.version is V5),
    ensures
        final(inodes)@.len() >= old(inodes)@.len(),
        forall|k: int|
            0 <= k < old(inodes)@.len() ==> final(inodes)@[k] == old(inodes)@[k],
        forall|k: int|
            old(inodes)@.len() <= k < final(inodes)@.len() ==> (#[trigger] final(inodes)@[k]).ag_number
                == agno,
        r is Ok ==> spec_chunk_inodes(chunk_buf@, *rec, agno, *ctx) == Some(
            spec_inodes_view(final(inodes)@).skip(old(inodes)@.len() as int),
        ),
        r is Ok ==> ({
            match spec_chunk_queued(chunk_buf@, *rec, agno, *ctx) {
                None => false,
                Some(w) => {
                    &&& spec_dir_work_view(final(dir_work)@) == spec_dir_work_view(old(dir_work)@)
                        + w.dirs
                    &&& spec_sf_view(final(shortform_dirs)@) == spec_sf_view(old(shortform_dirs)@)
                        + w.sfs
                    &&& spec_btree_view(final(btree_dirs)@) == spec_btree_view(old(btree_dirs)@)
                        + w.bdirs
                    &&& spec_btree_view(final(btree_files)@) == spec_btree_view(old(btree_files)@)
                        + w.bfiles
                },
            }
        }),
{
    if rec.start_ino() > u32::MAX - 63 {
        return Err(FxfspError::Parse("inobt record start out of range"));
    }
    let start_agino = rec.start_ino();
    let inode_size = ctx.inode_size as usize;
    proof {
        ctx.lemma_wf_bounds();
    }
    let ghost b = chunk_buf@;
    let ghost base = spec_inodes_view(old(inodes)@);
    let ghost mut done: Seq<InodeModel> = Seq::empty();
    let ghost mut wdone: WorkModel = spec_wm_empty();
    let mut i: u32 = 0;
    while i < 64
        invariant
            ctx.wf(),
            is_v5 == (ctx.version is V5),
            b == chunk_buf@,
            i <= 64,
            rec.ir_startino == start_agino,
            start_agino <= u32::MAX - 63,
            inode_size == ctx.inode_size as usize,
            inode_size <= 0x800,
            inodes@.len() >= old(inodes)@.len(),
            forall|k: int|
                0 <= k < old(inodes)@.len() ==> inodes@[k] == old(inodes)@[k],
            forall|k: int|
                old(inodes)@.len() <= k < inodes@.len() ==> (#[trigger] inodes@[k]).ag_number
                    == agno,
            base == spec_inodes_view(old(inodes)@),
            spec_inodes_view(inodes@) == base + done,
            spec_chunk_scan(b, *rec, agno, *ctx, 0) == spec_chunk_tail(
                b,
                *rec,
                agno,
                *ctx,
                i as int,
                done,
            ),
            spec_dir_work_view(dir_work@) == spec_dir_work_view(old(dir_work)@) + wdone.dirs,
            spec_sf_view(shortform_dirs@) == spec_sf_view(old(shortform_dirs)@) + wdone.sfs,
            spec_btree_view(btree_dirs@) == spec_btree_view(old(btree_dirs)@) + wdone.bdirs,
            spec_btree_view(btree_files@) == spec_btree_view(old(btree_files)@) + wdone.bfiles,
            spec_chunk_work(b, *rec, agno, *ctx, 0) == spec_chunk_work_tail(
                b,
                *rec,
                agno,
                *ctx,
                i as int,
                wdone,
            ),
        decreases 64 - i,
    {
        let group = i / 4;
        let is_hole = (rec.ir_holemask & (1u16 << (group as u16))) != 0;
        if !is_hole && rec.is_allocated(i) {
            let agino = start_agino + i;
            let abs_ino = ctx.agino_to_ino(agno, agino);
            proof {
                assert((i as int) * (inode_size as int) <= 63 * 0x800) by (nonlinear_arith)
                    requires
                        0 <= i < 64,
                        0 <= inode_size <= 0x800,
                ;
            }
            let inode_offset = (i as usize) * inode_size;
            if inode_offset + inode_size > chunk_buf.len() {
                proof {
                    assert(spec_chunk_scan(b, *rec, agno, *ctx, i as int) == Some(
                        Seq::<InodeModel>::empty(),
                    ));
                    assert(done + Seq::<InodeModel>::empty() =~= done);
                    assert(spec_inodes_view(inodes@).skip(old(inodes)@.len() as int) =~= done);
                    assert(spec_chunk_work(b, *rec, agno, *ctx, i as int) == Some(
                        spec_wm_empty(),
                    ));
                    lemma_wm_add_empty(wdone);
                }
                return Ok(());
            }
            let inode_buf = slice_from(chunk_buf, inode_offset);
            proof {
                assert(inode_buf@ =~= b.skip(i as int * (ctx.inode_size as int)));
            }
            let info = match parse_inode_core(inode_buf, abs_ino, is_v5, ctx.has_nrext64, ctx.inode_size) {
                Ok(info) => info,
                Err(e) => {
                    return Err(e);
                },
            };
            let extents = if info.is_regular() && info.format == XFS_DINODE_FMT_EXTENTS
                && info.nextents > 0 {
                if (info.data_fork_offset as u128) + 16 * (info.nextents as u128)
                    > inode_buf.len() as u128 {
                    return Err(FxfspError::Parse("extent record out of bounds"));
                }
                let fork_buf = slice_from(inode_buf, info.data_fork_offset);
                proof {
                    assert(fork_buf@ =~= inode_buf@.skip(info.data_fork_offset as int));
                }
                match parse_extent_list(fork_buf, info.nextents) {
                    Ok(exts) => Some(exts),
                    Err(e) => {
                        return Err(e);
                    },
                }
            } else {
                None
            };
            let ghost ib = b.skip(i as int * (ctx.inode_size as int));
            let ghost model = spec_slot_model(ib, abs_ino, agno, *ctx);
            let ghost sw = spec_slot_work(ib, abs_ino, *ctx);
            let ghost dw_pre = spec_dir_work_view(dir_work@);
            let ghost sf_pre = spec_sf_view(shortform_dirs@);
            let ghost bd_pre = spec_btree_view(btree_dirs@);
            let ghost bf_pre = spec_btree_view(btree_files@);
            let ghost prev_inodes = inodes@;
            inodes.push(
                InodeInfo {
                    ag_number: agno,
                    ino: info.ino,
                    mode: info.mode,
                    size: info.size,
                    uid: info.uid,
                    gid: info.gid,
                    nlink: info.nlink,
                    mtime_sec: info.mtime_sec,
                    mtime_nsec: info.mtime_nsec,
                    atime_sec: info.atime_sec,
                    atime_nsec: info.atime_nsec,
                    ctime_sec: info.ctime_sec,
                    ctime_nsec: info.ctime_nsec,
                    nblocks: info.nblocks,
                    extents,
                },
            );
            if info.is_dir() {
                match handle_directory(inode_buf, &info, ctx, dir_work, shortform_dirs, btree_dirs) {
                    Ok(()) => (),
                    Err(e) => {
                        return Err(e);
                    },
                }
            } else if info.is_regular() && info.format == XFS_DINODE_FMT_BTREE {
                let fork_start = if info.data_fork_offset <= inode_buf.len() {
                    info.data_fork_offset
                } else {
                    inode_buf.len()
                };
                let fork_end = if (info.data_fork_offset as u128) + (info.data_fork_size as u128)
                    <= inode_buf.len() as u128 {
                    info.data_fork_offset + info.data_fork_size
                } else {
                    inode_buf.len()
                };
                let fork_data = copy_range(inode_buf, fork_start, fork_end);
                btree_files.push(
                    BtreeDirItem {
                        ino: info.ino,
                        fork_data,
                        data_fork_size: info.data_fork_size,
                    },
                );
            }
            proof {
                let done0 = done;
                let n = inodes@.len() - 1;
                assert(info == spec_inode_core(
                    ib,
                    abs_ino,
                    ctx.version is V5,
                    ctx.has_nrext64,
                    ctx.inode_size,
                ));
                assert(inodes@[n]@.extents == model.extents);
                assert(inodes@[n]@ == model);
                assert(spec_inodes_view(prev_inodes) == base + done0);
                assert(inodes@ == prev_inodes.push(inodes@[n]));
                assert forall|q: int|
                    0 <= q < spec_inodes_view(inodes@).len() implies spec_inodes_view(
                    inodes@,
                )[q] == (base + done0.push(model))[q] by {
                    if q < n {
                        assert(inodes@[q] == prev_inodes[q]);
                        assert(spec_inodes_view(prev_inodes)[q] == prev_inodes[q]@);
                    }
                }
                assert(spec_inodes_view(inodes@) =~= base + done0.push(model));
                assert(spec_slot_ok(ib, *ctx));
                assert(!spec_slot_skipped(*rec, i as int));
                assert(abs_ino == ctx.spec_agino_to_ino(
                    agno,
                    ((rec.ir_startino + i as int) as u32),
                ));
                assert(spec_chunk_tail(b, *rec, agno, *ctx, i as int, done0) == spec_chunk_tail(
                    b,
                    *rec,
                    agno,
                    *ctx,
                    i as int + 1,
                    done0.push(model),
                )) by {
                    match spec_chunk_scan(b, *rec, agno, *ctx, i as int + 1) {
                        Option::None => {},
                        Option::Some(rest) => {
                            assert((done0 + (seq![model] + rest)) =~= (done0.push(model) + rest));
                        },
                    }
                }
                done = done0.push(model);
                let wdone0 = wdone;
                assert(spec_dir_work_view(dir_work@) =~= dw_pre + sw.dirs);
                assert(spec_sf_view(shortform_dirs@) =~= sf_pre + sw.sfs);
                assert(spec_btree_view(btree_dirs@) =~= bd_pre + sw.bdirs);
                assert(spec_btree_view(btree_files@) =~= bf_pre + sw.bfiles);
                assert(spec_dir_work_view(dir_work@) =~= spec_dir_work_view(old(dir_work)@)
                    + spec_wm_add(wdone0, sw).dirs);
                assert(spec_sf_view(shortform_dirs@) =~= spec_sf_view(old(shortform_dirs)@)
                    + spec_wm_add(wdone0, sw).sfs);
                assert(spec_btree_view(btree_dirs@) =~= spec_btree_view(old(btree_dirs)@)
                    + spec_wm_add(wdone0, sw).bdirs);
                assert(spec_btree_view(btree_files@) =~= spec_btree_view(old(btree_files)@)
                    + spec_wm_add(wdone0, sw).bfiles);
                assert(spec_chunk_work_tail(b, *rec, agno, *ctx, i as int, wdone0)
                    == spec_chunk_work_tail(
                    b,
                    *rec,
                    agno,
                    *ctx,
                    i as int + 1,
                    spec_wm_add(wdone0, sw),
                )) by {
                    match spec_chunk_work(b, *rec, agno, *ctx, i as int + 1) {
                        Option::None => {},
                        Option::Some(rest) => {
                            lemma_wm_assoc(wdone0, sw, rest);
                        },
                    }
                }
                wdone = spec_wm_add(wdone0, sw);
            }
        }
        i = i + 1;
    }
    proof {
        assert(done + Seq::<InodeModel>::empty() =~= done);
        assert(spec_inodes_view(inodes@).skip(old(inodes)@.len() as int) =~= done);
        lemma_wm_add_empty(wdone);
    }
    Ok(())
}

/// Byte length of one inode-chunk read: 64 inodes' worth of whole
/// blocks.
pub open spec fn spec_chunk_byte_len(ctx: FsContext) -> usize {
    ((((64 * (ctx.inode_size as int)) / (ctx.block_size as int)) as u64) << (
    ctx.block_log as u64)) as usize
}

/// The bytes one inobt record's chunk read returns.
pub open spec fn spec_chunk_bytes(dev: Seq<u8>, ctx: FsContext, agno: u32, rec: XfsInobtRec) -> Seq<
    u8,
> {
    spec_read_range(
        dev,
        ctx.spec_ag_block_to_byte(
            agno,
            (((rec.ir_startino as int) / (ctx.inodes_per_block as int)) as u32),
        ),
        spec_chunk_byte_len(ctx),
    )
}

/// The discovered inodes of one AG: every record's chunk, in record
/// order.
pub open spec fn spec_ag_inodes(
    dev: Seq<u8>,
    ctx: FsContext,
    agno: u32,
    recs: Seq<XfsInobtRec>,
) -> Option<Seq<InodeModel>>
    decreases recs.len(),
{
    if recs.len() == 0 {
        Some(Seq::empty())
    } else {
        match spec_ag_inodes(dev, ctx, agno, recs.drop_last()) {
            None => None,
            Some(done) => match spec_chunk_inodes(
                spec_chunk_bytes(dev, ctx, agno, recs.last()),
                recs.last(),
                agno,
                ctx,
            ) {
                None => None,
                Some(ms) => Some(done + ms),
            },
        }
    }
}

/// The queued work of one AG: every record's chunk, in record order.
pub open spec fn spec_ag_queued(
    dev: Seq<u8>,
    ctx: FsContext,
    agno: u32,
    recs: Seq<XfsInobtRec>,
) -> Option<WorkModel>
    decreases recs.len(),
{
    if recs.len() == 0 {
        Some(spec_wm_empty())
    } else {
        match spec_ag_queued(dev, ctx, agno, recs.drop_last()) {
            None => None,
            Some(done) => match spec_chunk_queued(
                spec_chunk_bytes(dev, ctx, agno, recs.last()),
                recs.last(),
                agno,
                ctx,
            ) {
                None => None,
                Some(w) => Some(spec_wm_add(done, w)),
            },
        }
    }
}

/// The queued work of one AG as a function of the device alone; `None`
/// exactly where [`spec_device_ag_inodes`] is.
pub open spec fn spec_device_ag_work(dev: Seq<u8>, ctx: FsContext, agno: u32) -> Option<WorkModel> {
    let ab = spec_agi_bytes(dev, ctx, agno);
    if !spec_agi_ok(ab, agno) {
        Option::None
    } else {
        let agi = spec_agi(ab, agno);
        match crate::xfs::btree::spec_collect_inobt(
            dev,
            ctx,
            agno,
            agi.inobt_root,
            agi.inobt_level,
        ) {
            Option::None => Option::None,
            Option::Some(recs0) => spec_ag_queued(
                dev,
                ctx,
                agno,
                crate::sorting::spec_sort_inobt_recs(recs0),
            ),
        }
    }
}

/// The discovered inodes of one AG as a function of the device alone:
/// decode the AGI, walk the inobt it names, sort the records, and fold
/// the chunks. `None` when the AGI or the walk is unacceptable.
pub open spec fn spec_device_ag_inodes(dev: Seq<u8>, ctx: FsContext, agno: u32) -> Option<
    Seq<InodeModel>,
> {
    let ab = spec_agi_bytes(dev, ctx, agno);
    if !spec_agi_ok(ab, agno) {
        Option::None
    } else {
        let agi = spec_agi(ab, agno);
        match crate::xfs::btree::spec_collect_inobt(
            dev,
            ctx,
            agno,
            agi.inobt_root,
            agi.inobt_level,
        ) {
            Option::None => Option::None,
            Option::Some(recs0) => spec_ag_inodes(
                dev,
                ctx,
                agno,
                crate::sorting::spec_sort_inobt_recs(recs0),
            ),
        }
    }
}

/// Scan all allocated inodes of one AG: walk the inobt, sort its records
/// by starting inode, batch-read the inode chunks in that order, and
/// decode each chunk.
///
/// On success the returned inodes are exactly [`spec_ag_inodes`] over the
/// sorted records of [`spec_collect_inobt`], each carrying `ag_number ==
/// agno`; directory and btree-fork work is queued for the later phases.
#[verifier::rlimit(100)]
#[verifier::spinoff_prover]
pub fn scan_ag_inodes<R: IoReader>(reader: &mut R, ctx: &FsContext, agno: u32, agi: &AgiInfo) -> (r:
    Result<(Vec<InodeInfo>, AgWork), FxfspError>)
    requires
        ctx.wf(),
        agno < ctx.ag_count,
    ensures
        final(reader).device() == old(reader).device(),
        r matches Ok(v) ==> forall|k: int|
            0 <= k < v.0@.len() ==> (#[trigger] v.0@[k]).ag_number == agno,
        r matches Ok(v) ==> {
            let dev = old(reader).device();
            match crate::xfs::btree::spec_collect_inobt(
                dev,
                *ctx,
                agno,
                agi.inobt_root,
                agi.inobt_level,
            ) {
                None => false,
                Some(recs0) => ({
                    let recs = crate::sorting::spec_sort_inobt_recs(recs0);
                    &&& spec_ag_inodes(dev, *ctx, agno, recs) == Some(spec_inodes_view(v.0@))
                    &&& match spec_ag_queued(dev, *ctx, agno, recs) {
                        None => false,
                        Some(w) => {
                            &&& spec_dir_work_view(v.1.dir_work@) == w.dirs
                            &&& spec_sf_view(v.1.shortform_dirs@) == w.sfs
                            &&& spec_btree_view(v.1.btree_dirs@) == w.bdirs
                            &&& spec_btree_view(v.1.btree_files@) == w.bfiles
                        },
                    }
                }),
            }
        },
{
    let ghost dev = old(reader).device();
    let records = match collect_inobt_records(reader, ctx, agno, agi.inobt_root, agi.inobt_level) {
        Ok(recs) => recs,
        Err(e) => {
            return Err(e);
        },
    };
    let records = sort_inobt_recs(records);
    proof {
        ctx.lemma_wf_bounds();
    }
    let inode_size = ctx.inode_size as usize;
    let block_size = ctx.block_size as usize;
    let chunk_blocks = 64 * inode_size / block_size;
    proof {
        vstd::arithmetic::div_mod::lemma_fundamental_div_mod(
            64 * (inode_size as int),
            block_size as int,
        );
        assert((block_size as int) * (chunk_blocks as int) == (chunk_blocks as int) * (
        block_size as int)) by (nonlinear_arith);
        assert(chunk_blocks <= 256) by (nonlinear_arith)
            requires
                (chunk_blocks as int) * (block_size as int) <= 0x20000,
                block_size >= 512,
                chunk_blocks >= 0,
        ;
    }
    let cb64: u64 = chunk_blocks as u64;
    let bl64: u64 = ctx.block_log as u64;
    proof {
        assert((cb64 << bl64) % 512 == 0 && (cb64 << bl64) <= 0x1000000) by (bit_vector)
            requires
                9 <= bl64 <= 16,
                cb64 <= 256,
        ;
    }
    let chunk_byte_len = (cb64 << bl64) as usize;
    proof {
        assert(chunk_byte_len == spec_chunk_byte_len(*ctx));
    }
    let mut requests: Vec<IoRequest> = Vec::new();
    let mut idx: usize = 0;
    while idx < records.len()
        invariant
            ctx.wf(),
            idx <= records@.len(),
            chunk_byte_len == spec_chunk_byte_len(*ctx),
            chunk_byte_len % 512 == 0,
            chunk_byte_len <= 0x1000000,
            requests@.len() == idx,
            forall|j: int|
                0 <= j < idx ==> ((#[trigger] requests@[j]).offset % 512 == 0 && requests@[j].len
                    % 512 == 0),
            forall|j: int|
                0 <= j < idx ==> (#[trigger] requests@[j]) == (IoRequest {
                    offset: ctx.spec_ag_block_to_byte(
                        agno,
                        (((records@[j].ir_startino as int) / (
                        ctx.inodes_per_block as int)) as u32),
                    ),
                    len: spec_chunk_byte_len(*ctx),
                    tag: 0,
                }),
        decreases records@.len() - idx,
    {
        let rec = &records[idx];
        proof {
            ctx.lemma_wf_bounds();
            lemma_block_read_aligned(*ctx, agno, rec.ir_startino / (ctx.inodes_per_block as u32));
        }
        let chunk_ag_block = rec.start_ino() / (ctx.inodes_per_block as u32);
        let offset = ctx.ag_block_to_byte(agno, chunk_ag_block);
        requests.push(IoRequest { offset, len: chunk_byte_len, tag: 0 });
        idx = idx + 1;
    }
    let bufs = match reader.coalesced_read_batch(&requests, IoPhase::InodeChunks) {
        Ok(b) => b,
        Err(e) => {
            return Err(e);
        },
    };
    assert(forall|j: int|
        0 <= j < records@.len() ==> (#[trigger] bufs@[j])@ == spec_chunk_bytes(
            dev,
            *ctx,
            agno,
            records@[j],
        ));
    let is_v5 = matches!(ctx.version, FormatVersion::V5);
    let mut inodes: Vec<InodeInfo> = Vec::new();
    let mut dir_work: Vec<DirWorkItem> = Vec::new();
    let mut shortform_dirs: Vec<ShortformDirItem> = Vec::new();
    let mut btree_dirs: Vec<BtreeDirItem> = Vec::new();
    let mut btree_files: Vec<BtreeDirItem> = Vec::new();
    proof {
        assert(spec_dir_work_view(dir_work@) =~= Seq::<(u64, Seq<Extent>)>::empty());
        assert(spec_sf_view(shortform_dirs@) =~= Seq::<(u64, Seq<u8>)>::empty());
        assert(spec_btree_view(btree_dirs@) =~= Seq::<(u64, Seq<u8>, int)>::empty());
        assert(spec_btree_view(btree_files@) =~= Seq::<(u64, Seq<u8>, int)>::empty());
    }
    let mut k: usize = 0;
    while k < bufs.len()
        invariant
            ctx.wf(),
            is_v5 == (ctx.version is V5),
            reader.device() == old(reader).device(),
            k <= bufs@.len(),
            bufs@.len() == records@.len(),
            forall|j: int|
                0 <= j < records@.len() ==> (#[trigger] bufs@[j])@ == spec_chunk_bytes(
                    dev,
                    *ctx,
                    agno,
                    records@[j],
                ),
            forall|j: int|
                0 <= j < inodes@.len() ==> (#[trigger] inodes@[j]).ag_number == agno,
            spec_ag_inodes(dev, *ctx, agno, records@.take(k as int)) == Some(
                spec_inodes_view(inodes@),
            ),
            spec_ag_queued(dev, *ctx, agno, records@.take(k as int)) == Some(
                WorkModel {
                    dirs: spec_dir_work_view(dir_work@),
                    sfs: spec_sf_view(shortform_dirs@),
                    bdirs: spec_btree_view(btree_dirs@),
                    bfiles: spec_btree_view(btree_files@),
                },
            ),
        decreases bufs@.len() - k,
    {
        let ghost len0 = inodes@.len() as int;
        let ghost w0 = WorkModel {
            dirs: spec_dir_work_view(dir_work@),
            sfs: spec_sf_view(shortform_dirs@),
            bdirs: spec_btree_view(btree_dirs@),
            bfiles: spec_btree_view(btree_files@),
        };
        match process_inode_chunk(
            &bufs[k],
            &records[k],
            agno,
            ctx,
            is_v5,
            &mut inodes,
            &mut dir_work,
            &mut shortform_dirs,
            &mut btree_dirs,
            &mut btree_files,
        ) {
            Ok(()) => (),
            Err(e) => {
                return Err(e);
            },
        }
        k = k + 1;
        proof {
            assert(records@.take(k as int).drop_last() =~= records@.take(k - 1));
            assert(records@.take(k as int).last() == records@[k - 1]);
            assert(spec_inodes_view(inodes@) =~= spec_inodes_view(inodes@).take(len0)
                + spec_inodes_view(inodes@).skip(len0));
            assert(spec_inodes_view(inodes@).take(len0) =~= spec_ag_inodes(
                dev,
                *ctx,
                agno,
                records@.take(k - 1),
            )->Some_0);
            let wc = spec_chunk_queued(
                spec_chunk_bytes(dev, *ctx, agno, records@[k - 1]),
                records@[k - 1],
                agno,
                *ctx,
            )->Some_0;
            assert(spec_dir_work_view(dir_work@) =~= w0.dirs + wc.dirs);
            assert(spec_sf_view(shortform_dirs@) =~= w0.sfs + wc.sfs);
            assert(spec_btree_view(btree_dirs@) =~= w0.bdirs + wc.bdirs);
            assert(spec_btree_view(btree_files@) =~= w0.bfiles + wc.bfiles);
            assert(spec_ag_queued(dev, *ctx, agno, records@.take(k as int)) == Some(
                WorkModel {
                    dirs: spec_dir_work_view(dir_work@),
                    sfs: spec_sf_view(shortform_dirs@),
                    bdirs: spec_btree_view(btree_dirs@),
                    bfiles: spec_btree_view(btree_files@),
                },
            ));
        }
    }
    proof {
        assert(records@.take(records@.len() as int) =~= records@);
    }
    Ok((inodes, AgWork { dir_work, shortform_dirs, btree_dirs, btree_files }))
}

/// Is `x` one of the values in `v`?
fn contains_u64(v: &Vec<u64>, x: u64) -> (r: bool)
    ensures
        r == v@.contains(x),
{
    let mut i: usize = 0;
    while i < v.len()
        invariant
            i <= v@.len(),
            forall|j: int| 0 <= j < i ==> v@[j] != x,
        decreases v@.len() - i,
    {
        if v[i] == x {
            return true;
        }
        i = i + 1;
    }
    proof {
        assert(!v@.contains(x));
    }
    false
}

/// The bmbt inputs a list of queued btree forks becomes, in order.
pub open spec fn spec_btree_inputs(items: Seq<BtreeDirItem>) -> Seq<BmbtDirInput> {
    items.map_values(
        |d: BtreeDirItem| BmbtDirInput {
            ino: d.ino,
            fork_data: d.fork_data,
            data_fork_size: d.data_fork_size,
        },
    )
}

/// The file-extent maps of the bmbt results: entries whose inode is not
/// one of the queued directories, in result order.
pub open spec fn spec_split_files(
    acc: Seq<(u64, Seq<Extent>)>,
    dir_inos: Seq<u64>,
) -> Seq<FileExtentsModel>
    decreases acc.len(),
{
    if acc.len() == 0 {
        Seq::empty()
    } else {
        let prev = spec_split_files(acc.drop_last(), dir_inos);
        let e = acc.last();
        if e.1.len() == 0 || dir_inos.contains(e.0) {
            prev
        } else {
            prev.push(FileExtentsModel { ino: e.0, extents: e.1 })
        }
    }
}

/// The directory work the bmbt results add: entries whose inode is one of
/// the queued directories, in result order.
pub open spec fn spec_split_dirs(
    acc: Seq<(u64, Seq<Extent>)>,
    dir_inos: Seq<u64>,
) -> Seq<(u64, Seq<Extent>)>
    decreases acc.len(),
{
    if acc.len() == 0 {
        Seq::empty()
    } else {
        let prev = spec_split_dirs(acc.drop_last(), dir_inos);
        let e = acc.last();
        if e.1.len() != 0 && dir_inos.contains(e.0) {
            prev.push(e)
        } else {
            prev
        }
    }
}

/// The file-extent vector as mathematics.
pub open spec fn spec_fx_view(v: Seq<FileExtentsInfo>) -> Seq<FileExtentsModel> {
    v.map_values(|f: FileExtentsInfo| f@)
}

/// Resolve the btree-format forks of one AG in a single bmbt sweep.
///
/// Extents of btree-format directories join the directory work; extents
/// of btree-format regular files are returned for the `FileExtents`
/// events. On success the sweep's outcome is exactly
/// [`spec_collect_bmbt`] over the queued forks (directories first), split
/// by owning inode.
#[verifier::rlimit(60)]
pub fn resolve_ag_extents<R: IoReader>(reader: &mut R, ctx: &FsContext, work: AgWork) -> (r: Result<
    (Vec<FileExtentsInfo>, DirPhaseWork),
    FxfspError,
>)
    requires
        ctx.wf(),
    ensures
        final(reader).device() == old(reader).device(),
        r matches Ok(v) ==> {
            let inputs = spec_btree_inputs(work.btree_dirs@) + spec_btree_inputs(
                work.btree_files@,
            );
            let dir_inos = work.btree_dirs@.map_values(|d: BtreeDirItem| d.ino);
            match spec_collect_bmbt(old(reader).device(), *ctx, inputs) {
                None => false,
                Some(acc) => {
                    &&& spec_fx_view(v.0@) == spec_split_files(acc, dir_inos)
                    &&& spec_dir_work_view(v.1.dir_work@) == spec_dir_work_view(work.dir_work@)
                        + spec_split_dirs(acc, dir_inos)
                    &&& v.1.shortform_dirs@ == work.shortform_dirs@
                },
            }
        },
{
    let ghost dev = old(reader).device();
    let AgWork { dir_work, shortform_dirs, btree_dirs, btree_files } = work;
    let ghost gdirs = btree_dirs@;
    let ghost gfiles = btree_files@;
    let ghost ginputs = spec_btree_inputs(gdirs) + spec_btree_inputs(gfiles);
    let ghost gdir_inos = gdirs.map_values(|d: BtreeDirItem| d.ino);
    let mut dir_work = dir_work;
    if btree_dirs.len() == 0 && btree_files.len() == 0 {
        proof {
            assert(ginputs =~= Seq::<BmbtDirInput>::empty());
            crate::xfs::bmbt::lemma_collect_bmbt_empty(dev, *ctx);
        }
        return Ok((Vec::new(), DirPhaseWork { dir_work, shortform_dirs }));
    }
    let mut dir_inos: Vec<u64> = Vec::new();
    let mut inputs: Vec<BmbtDirInput> = Vec::new();
    let mut btree_dirs = btree_dirs;
    while btree_dirs.len() > 0
        invariant
            inputs@.len() + btree_dirs@.len() == gdirs.len(),
            btree_dirs@ == gdirs.skip(inputs@.len() as int),
            inputs@ == spec_btree_inputs(gdirs.take(inputs@.len() as int)),
            dir_inos@ == gdirs.take(inputs@.len() as int).map_values(|d: BtreeDirItem| d.ino),
        decreases btree_dirs@.len(),
    {
        proof {
            assert(gdirs.skip(inputs@.len() as int).remove(0) =~= gdirs.skip(
                inputs@.len() as int + 1,
            ));
        }
        let item = btree_dirs.remove(0);
        dir_inos.push(item.ino);
        inputs.push(
            BmbtDirInput {
                ino: item.ino,
                fork_data: item.fork_data,
                data_fork_size: item.data_fork_size,
            },
        );
        proof {
            assert(inputs@ =~= spec_btree_inputs(gdirs.take(inputs@.len() as int)));
            assert(dir_inos@ =~= gdirs.take(inputs@.len() as int).map_values(
                |d: BtreeDirItem| d.ino,
            ));
        }
    }
    proof {
        assert(gdirs.take(gdirs.len() as int) =~= gdirs);
    }
    let ghost n_dirs = inputs@.len() as int;
    let mut btree_files = btree_files;
    while btree_files.len() > 0
        invariant
            n_dirs == gdirs.len(),
            inputs@.len() >= n_dirs,
            inputs@.len() - n_dirs + btree_files@.len() == gfiles.len(),
            btree_files@ == gfiles.skip(inputs@.len() - n_dirs),
            inputs@ == spec_btree_inputs(gdirs) + spec_btree_inputs(
                gfiles.take(inputs@.len() - n_dirs),
            ),
        decreases btree_files@.len(),
    {
        proof {
            assert(gfiles.skip(inputs@.len() - n_dirs).remove(0) =~= gfiles.skip(
                inputs@.len() - n_dirs + 1,
            ));
        }
        let item = btree_files.remove(0);
        inputs.push(
            BmbtDirInput {
                ino: item.ino,
                fork_data: item.fork_data,
                data_fork_size: item.data_fork_size,
            },
        );
        proof {
            assert(inputs@ =~= spec_btree_inputs(gdirs) + spec_btree_inputs(
                gfiles.take(inputs@.len() - n_dirs),
            ));
        }
    }
    proof {
        assert(gfiles.take(gfiles.len() as int) =~= gfiles);
        assert(inputs@ == ginputs);
        assert(dir_inos@ == gdir_inos);
    }
    let results0 = match collect_all_bmbt_extents(reader, ctx, &inputs) {
        Ok(v) => v,
        Err(e) => {
            return Err(e);
        },
    };
    let ghost acc0 = crate::xfs::bmbt::spec_acc_view(results0@);
    let ghost dir_work0 = spec_dir_work_view(dir_work@);
    let mut results = results0;
    let n0 = results.len();
    proof {
        assert(acc0.len() == n0);
    }
    let mut file_extents: Vec<FileExtentsInfo> = Vec::new();
    let mut j: usize = 0;
    while results.len() > 0
        invariant
            j <= acc0.len(),
            acc0.len() <= usize::MAX,
            j + results@.len() == acc0.len(),
            crate::xfs::bmbt::spec_acc_view(results@) == acc0.skip(j as int),
            dir_inos@ == gdir_inos,
            spec_fx_view(file_extents@) == spec_split_files(acc0.take(j as int), gdir_inos),
            spec_dir_work_view(dir_work@) == dir_work0 + spec_split_dirs(
                acc0.take(j as int),
                gdir_inos,
            ),
        decreases results@.len(),
    {
        proof {
            assert(acc0.skip(j as int).remove(0) =~= acc0.skip(j + 1));
            assert(acc0[j as int] == crate::xfs::bmbt::spec_acc_view(results@)[0]);
            assert(acc0.take(j + 1).drop_last() =~= acc0.take(j as int));
        }
        let (ino, extents) = results.remove(0);
        let ghost fx0 = spec_fx_view(file_extents@);
        let ghost dw0 = spec_dir_work_view(dir_work@);
        if extents.len() > 0 {
            if contains_u64(&dir_inos, ino) {
                dir_work.push(DirWorkItem { ino, extents });
                proof {
                    assert(spec_dir_work_view(dir_work@) =~= dw0 + seq![
                        (ino, acc0[j as int].1),
                    ]);
                    assert(spec_split_dirs(acc0.take(j + 1), gdir_inos) =~= spec_split_dirs(
                        acc0.take(j as int),
                        gdir_inos,
                    ) + seq![(ino, acc0[j as int].1)]);
                    assert(spec_dir_work_view(dir_work@) =~= dir_work0 + spec_split_dirs(
                        acc0.take(j + 1),
                        gdir_inos,
                    ));
                }
            } else {
                file_extents.push(FileExtentsInfo { ino, extents });
                proof {
                    assert(spec_fx_view(file_extents@) =~= fx0.push(
                        FileExtentsModel { ino, extents: acc0[j as int].1 },
                    ));
                }
            }
        }
        j = j + 1;
    }
    proof {
        assert(acc0.take(acc0.len() as int) =~= acc0);
    }
    Ok((file_extents, DirPhaseWork { dir_work, shortform_dirs }))
}

/// The bmbt results that still hold at least one extent, in result
/// order.
pub open spec fn spec_nonempty_entries(acc: Seq<(u64, Seq<Extent>)>) -> Seq<(u64, Seq<Extent>)>
    decreases acc.len(),
{
    if acc.len() == 0 {
        Seq::empty()
    } else {
        let prev = spec_nonempty_entries(acc.drop_last());
        if acc.last().1.len() == 0 {
            prev
        } else {
            prev.push(acc.last())
        }
    }
}

/// Resolve queued btree-format directories only, best-effort: their
/// extents join the directory work; on a sweep failure the work already
/// queued is kept and the btree directories' extents are lost. This
/// backs the phase that skips the file-extent output.
#[verifier::rlimit(60)]
pub fn resolve_btree_dirs<R: IoReader>(
    reader: &mut R,
    ctx: &FsContext,
    btree_dirs: Vec<BtreeDirItem>,
    dir_work: Vec<DirWorkItem>,
) -> (r: Vec<DirWorkItem>)
    requires
        ctx.wf(),
    ensures
        final(reader).device() == old(reader).device(),
        ({
            let inputs = spec_btree_inputs(btree_dirs@);
            match spec_collect_bmbt(old(reader).device(), *ctx, inputs) {
                None => r@ == dir_work@,
                Some(acc) => spec_dir_work_view(r@) == spec_dir_work_view(dir_work@)
                    + spec_nonempty_entries(acc) || r@ == dir_work@,
            }
        }),
{
    let ghost dev = old(reader).device();
    let ghost gdirs = btree_dirs@;
    if btree_dirs.len() == 0 {
        proof {
            assert(spec_btree_inputs(gdirs) =~= Seq::<BmbtDirInput>::empty());
            crate::xfs::bmbt::lemma_collect_bmbt_empty(dev, *ctx);
            assert(spec_dir_work_view(dir_work@) + spec_nonempty_entries(
                Seq::<(u64, Seq<Extent>)>::empty(),
            ) =~= spec_dir_work_view(dir_work@));
        }
        return dir_work;
    }
    let mut inputs: Vec<BmbtDirInput> = Vec::new();
    let mut btree_dirs = btree_dirs;
    while btree_dirs.len() > 0
        invariant
            inputs@.len() + btree_dirs@.len() == gdirs.len(),
            btree_dirs@ == gdirs.skip(inputs@.len() as int),
            inputs@ == spec_btree_inputs(gdirs.take(inputs@.len() as int)),
        decreases btree_dirs@.len(),
    {
        proof {
            assert(gdirs.skip(inputs@.len() as int).remove(0) =~= gdirs.skip(
                inputs@.len() as int + 1,
            ));
        }
        let item = btree_dirs.remove(0);
        inputs.push(
            BmbtDirInput {
                ino: item.ino,
                fork_data: item.fork_data,
                data_fork_size: item.data_fork_size,
            },
        );
        proof {
            assert(inputs@ =~= spec_btree_inputs(gdirs.take(inputs@.len() as int)));
        }
    }
    proof {
        assert(gdirs.take(gdirs.len() as int) =~= gdirs);
    }
    let results0 = match collect_all_bmbt_extents(reader, ctx, &inputs) {
        Ok(v) => v,
        Err(_) => {
            return dir_work;
        },
    };
    let ghost acc0 = crate::xfs::bmbt::spec_acc_view(results0@);
    let ghost dir_work0 = spec_dir_work_view(dir_work@);
    let mut dir_work = dir_work;
    let mut results = results0;
    let n0 = results.len();
    proof {
        assert(acc0.len() == n0);
    }
    let mut j: usize = 0;
    while results.len() > 0
        invariant
            j <= acc0.len(),
            acc0.len() <= usize::MAX,
            j + results@.len() == acc0.len(),
            crate::xfs::bmbt::spec_acc_view(results@) == acc0.skip(j as int),
            spec_dir_work_view(dir_work@) == dir_work0 + spec_nonempty_entries(
                acc0.take(j as int),
            ),
        decreases results@.len(),
    {
        proof {
            assert(acc0.skip(j as int).remove(0) =~= acc0.skip(j + 1));
            assert(acc0[j as int] == crate::xfs::bmbt::spec_acc_view(results@)[0]);
            assert(acc0.take(j + 1).drop_last() =~= acc0.take(j as int));
        }
        let (ino, extents) = results.remove(0);
        let ghost dw0 = spec_dir_work_view(dir_work@);
        if extents.len() > 0 {
            dir_work.push(DirWorkItem { ino, extents });
            proof {
                assert(spec_dir_work_view(dir_work@) =~= dw0.push((ino, acc0[j as int].1)));
            }
        }
        j = j + 1;
    }
    proof {
        assert(acc0.take(acc0.len() as int) =~= acc0);
    }
    dir_work
}

/// The queued btree forks seen as bmbt inputs have the same view.
pub proof fn lemma_btree_inputs_view(items: Seq<BtreeDirItem>)
    ensures
        crate::xfs::bmbt::spec_dirs_view(spec_btree_inputs(items)) == spec_btree_view(items),
{
    assert(crate::xfs::bmbt::spec_dirs_view(spec_btree_inputs(items)) =~= spec_btree_view(items));
}

/// The decoded shortform directories over `(inode, fork bytes)` views.
pub open spec fn spec_shortform_entries_v(
    items: Seq<(u64, Seq<u8>)>,
    ctx: FsContext,
) -> Option<Seq<DirEntryModel>>
    decreases items.len(),
{
    if items.len() == 0 {
        Some(Seq::empty())
    } else {
        match spec_shortform_entries_v(items.drop_last(), ctx) {
            None => None,
            Some(done) => match spec_shortform_dir(
                items.last().1,
                items.last().0,
                ctx.has_ftype,
            ) {
                None => None,
                Some(es) => Some(done + es),
            },
        }
    }
}

/// Decoding shortform items equals decoding their views.
pub proof fn lemma_shortform_entries_view(items: Seq<ShortformDirItem>, ctx: FsContext)
    ensures
        spec_shortform_entries(items, ctx) == spec_shortform_entries_v(spec_sf_view(items), ctx),
    decreases items.len(),
{
    if items.len() == 0 {
        assert(spec_sf_view(items) =~= Seq::<(u64, Seq<u8>)>::empty());
    } else {
        lemma_shortform_entries_view(items.drop_last(), ctx);
        assert(spec_sf_view(items).drop_last() =~= spec_sf_view(items.drop_last()));
        assert(spec_sf_view(items).last() == (items.last().ino, items.last().fork_data@));
    }
}

/// The directory entries of one AG over work views: the shortform
/// entries, then the sweep over the sorted read requests of the deferred
/// directories' readable extents.
pub open spec fn spec_ag_dir_entries_v(
    dev: Seq<u8>,
    ctx: FsContext,
    work_dir: Seq<(u64, Seq<Extent>)>,
    work_sf: Seq<(u64, Seq<u8>)>,
) -> Option<Seq<DirEntryModel>> {
    match spec_shortform_entries_v(work_sf, ctx) {
        None => None,
        Some(sf) => Some(
            sf + spec_swept_entries(
                dev,
                ctx,
                crate::sorting::spec_sort_requests(spec_dir_requests(work_dir, ctx)),
            ),
        ),
    }
}

/// The decoded shortform directories, in item order; `None` when one of
/// them fails to parse.
pub open spec fn spec_shortform_entries(
    items: Seq<ShortformDirItem>,
    ctx: FsContext,
) -> Option<Seq<DirEntryModel>>
    decreases items.len(),
{
    if items.len() == 0 {
        Some(Seq::empty())
    } else {
        match spec_shortform_entries(items.drop_last(), ctx) {
            None => None,
            Some(done) => match spec_shortform_dir(
                items.last().fork_data@,
                items.last().ino,
                ctx.has_ftype,
            ) {
                None => None,
                Some(es) => Some(done + es),
            },
        }
    }
}

/// The entries of one returned sweep buffer, cut into directory blocks
/// from `off` on; a trailing partial block is ignored.
pub open spec fn spec_buffer_entries(b: Seq<u8>, ino: u64, ctx: FsContext, off: int) -> Seq<
    DirEntryModel,
>
    decreases b.len() - off,
{
    let dbs = ctx.spec_dir_blk_size() as int;
    if dbs < 1 || off < 0 || off + dbs > b.len() {
        Seq::empty()
    } else {
        spec_dir_block(b.subrange(off, off + dbs), ino, ctx.version, ctx.has_ftype)
            + spec_buffer_entries(b, ino, ctx, off + dbs)
    }
}

/// The entries of the whole directory-data sweep: each request's buffer,
/// cut into directory blocks, in request order.
pub open spec fn spec_swept_entries(dev: Seq<u8>, ctx: FsContext, reqs: Seq<IoRequest>) -> Seq<
    DirEntryModel,
>
    decreases reqs.len(),
{
    if reqs.len() == 0 {
        Seq::empty()
    } else {
        spec_swept_entries(dev, ctx, reqs.drop_last()) + spec_buffer_entries(
            spec_read_range(dev, reqs.last().offset, reqs.last().len),
            reqs.last().tag,
            ctx,
            0,
        )
    }
}

/// The directory entries one AG's directory phase yields: the shortform
/// directories' entries, then the sweep over the sorted read requests of
/// the deferred directories' readable extents.
pub open spec fn spec_ag_dir_entries(
    dev: Seq<u8>,
    ctx: FsContext,
    work_dir: Seq<DirWorkItem>,
    work_sf: Seq<ShortformDirItem>,
) -> Option<Seq<DirEntryModel>> {
    match spec_shortform_entries(work_sf, ctx) {
        None => None,
        Some(sf) => Some(
            sf + spec_swept_entries(
                dev,
                ctx,
                crate::sorting::spec_sort_requests(
                    spec_dir_requests(spec_dir_work_view(work_dir), ctx),
                ),
            ),
        ),
    }
}

/// Decoding one AG's directory entries from work items equals decoding
/// their views.
pub proof fn lemma_ag_dir_entries_view(
    dev: Seq<u8>,
    ctx: FsContext,
    work_dir: Seq<DirWorkItem>,
    work_sf: Seq<ShortformDirItem>,
)
    ensures
        spec_ag_dir_entries(dev, ctx, work_dir, work_sf) == spec_ag_dir_entries_v(
            dev,
            ctx,
            spec_dir_work_view(work_dir),
            spec_sf_view(work_sf),
        ),
{
    lemma_shortform_entries_view(work_sf, ctx);
}

/// Decode the directory entries of one AG: shortform directories first
/// (no I/O), then one sorted coalesced sweep over all directory-data
/// extents, each returned buffer cut into directory blocks.
///
/// On success the result is exactly [`spec_ag_dir_entries`] of the
/// device contents and the queued work.
#[verifier::rlimit(60)]
pub fn scan_ag_dirs<R: IoReader>(reader: &mut R, ctx: &FsContext, work: DirPhaseWork) -> (r: Result<
    Vec<DirEntryInfo>,
    FxfspError,
>)
    requires
        ctx.wf(),
    ensures
        final(reader).device() == old(reader).device(),
        r matches Ok(v) ==> Some(spec_entries_view(v@)) == spec_ag_dir_entries(
            old(reader).device(),
            *ctx,
            work.dir_work@,
            work.shortform_dirs@,
        ),
{
    let ghost dev = old(reader).device();
    let DirPhaseWork { dir_work, shortform_dirs } = work;
    proof {
        ctx.lemma_wf_bounds();
    }
    let mut out: Vec<DirEntryInfo> = Vec::new();
    let mut s: usize = 0;
    while s < shortform_dirs.len()
        invariant
            ctx.wf(),
            reader.device() == old(reader).device(),
            s <= shortform_dirs@.len(),
            Some(spec_entries_view(out@)) == spec_shortform_entries(
                shortform_dirs@.take(s as int),
                *ctx,
            ),
        decreases shortform_dirs@.len() - s,
    {
        let mut entries = match parse_shortform_dir(
            &shortform_dirs[s].fork_data,
            shortform_dirs[s].ino,
            ctx,
        ) {
            Ok(es) => es,
            Err(e) => {
                return Err(e);
            },
        };
        let ghost done = spec_entries_view(out@);
        let ghost added = spec_entries_view(entries@);
        out.append(&mut entries);
        s = s + 1;
        proof {
            assert(spec_entries_view(out@) =~= done + added);
            assert(shortform_dirs@.take(s as int).drop_last() =~= shortform_dirs@.take(s - 1));
        }
    }
    proof {
        assert(shortform_dirs@.take(shortform_dirs@.len() as int) =~= shortform_dirs@);
    }
    let ghost sf_done = spec_entries_view(out@);
    let requests = dir_read_requests(&dir_work, ctx);
    let bufs = match reader.coalesced_read_batch(&requests, IoPhase::DirExtents) {
        Ok(b) => b,
        Err(e) => {
            return Err(e);
        },
    };
    assert(forall|j: int|
        0 <= j < requests@.len() ==> (#[trigger] bufs@[j])@ == spec_read_range(
            dev,
            requests@[j].offset,
            requests@[j].len,
        ));
    let dir_blk_size = ctx.dir_blk_size() as usize;
    let mut k: usize = 0;
    while k < bufs.len()
        invariant
            ctx.wf(),
            reader.device() == old(reader).device(),
            dir_blk_size == ctx.spec_dir_blk_size() as usize,
            512 <= dir_blk_size <= 0x10000,
            k <= bufs@.len(),
            bufs@.len() == requests@.len(),
            forall|j: int|
                0 <= j < requests@.len() ==> (#[trigger] bufs@[j])@ == spec_read_range(
                    dev,
                    requests@[j].offset,
                    requests@[j].len,
                ),
            spec_entries_view(out@) == sf_done + spec_swept_entries(
                dev,
                *ctx,
                requests@.take(k as int),
            ),
        decreases bufs@.len() - k,
    {
        let ino = requests[k].tag;
        let buf = &bufs[k];
        let ghost buf_view = bufs@[k as int]@;
        let mut off: usize = 0;
        let ghost out_before = spec_entries_view(out@);
        while (off as u128) + (dir_blk_size as u128) <= buf.len() as u128
            invariant
                ctx.wf(),
                reader.device() == old(reader).device(),
                dir_blk_size == ctx.spec_dir_blk_size() as usize,
                512 <= dir_blk_size <= 0x10000,
                off <= buf@.len(),
                buf_view == buf@,
                out_before + spec_buffer_entries(buf_view, ino, *ctx, 0) == spec_entries_view(out@)
                    + spec_buffer_entries(buf_view, ino, *ctx, off as int),
            decreases buf@.len() - off,
        {
            let block = &buf.as_slice()[off..off + dir_blk_size];
            let mut entries = match parse_dir_data_block(block, ino, ctx) {
                Ok(es) => es,
                Err(e) => {
                    return Err(e);
                },
            };
            let ghost done = spec_entries_view(out@);
            let ghost added = spec_entries_view(entries@);
            out.append(&mut entries);
            off = off + dir_blk_size;
            proof {
                assert(block@ =~= buf_view.subrange(off - dir_blk_size, off as int));
                assert(spec_entries_view(out@) =~= done + added);
                assert(out_before + spec_buffer_entries(buf_view, ino, *ctx, 0) =~= (done + added)
                    + spec_buffer_entries(buf_view, ino, *ctx, off as int));
            }
        }
        proof {
            assert(spec_buffer_entries(buf_view, ino, *ctx, off as int)
                =~= Seq::<DirEntryModel>::empty());
            assert(out_before + spec_buffer_entries(buf_view, ino, *ctx, 0)
                =~= spec_entries_view(out@));
        }
        k = k + 1;
        proof {
            assert(requests@.take(k as int).drop_last() =~= requests@.take(k - 1));
            assert(spec_entries_view(out@) =~= sf_done + spec_swept_entries(
                dev,
                *ctx,
                requests@.take(k as int),
            ));
        }
    }
    proof {
        assert(requests@.take(requests@.len() as int) =~= requests@);
    }
    Ok(out)
}

/// The `SuperblockInfo` the geometry record describes.
pub fn superblock_info_of(ctx: &FsContext) -> (r: SuperblockInfo)
    ensures
        r == (SuperblockInfo {
            block_size: ctx.block_size,
            ag_count: ctx.ag_count,
            ag_blocks: ctx.ag_blocks,
            inode_size: ctx.inode_size,
            root_ino: ctx.root_ino,
        }),
{
    SuperblockInfo {
        block_size: ctx.block_size,
        ag_count: ctx.ag_count,
        ag_blocks: ctx.ag_blocks,
        inode_size: ctx.inode_size,
        root_ino: ctx.root_ino,
    }
}

} // verus!
