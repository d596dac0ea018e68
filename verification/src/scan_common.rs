//! Work items and helpers shared by the scan phases.

use vstd::prelude::*;

use crate::error::FxfspError;
use crate::reader::IoRequest;
use crate::xfs::superblock::lemma_block_read_aligned;
use crate::xfs::extent::{parse_extent_list, Extent};
use crate::xfs::inode::{
    InodeInfo, XFS_DINODE_FMT_BTREE, XFS_DINODE_FMT_EXTENTS, XFS_DINODE_FMT_LOCAL,
};
use crate::xfs::superblock::FsContext;

verus! {

/// A deferred directory: its inode and its data extents, waiting for the
/// directory-data sweep.
pub struct DirWorkItem {
    pub ino: u64,
    pub extents: Vec<Extent>,
}

/// A deferred btree-format fork: its inode and the copied fork bytes,
/// waiting for the bmbt sweep.
pub struct BtreeDirItem {
    pub ino: u64,
    pub fork_data: Vec<u8>,
    pub data_fork_size: usize,
}

/// A shortform directory: its inode and the copied inline fork bytes; no
/// I/O is needed to decode it later.
pub struct ShortformDirItem {
    pub ino: u64,
    pub fork_data: Vec<u8>,
}

/// What the inode scan of one AG leaves for the later phases.
pub struct AgWork {
    pub dir_work: Vec<DirWorkItem>,
    pub shortform_dirs: Vec<ShortformDirItem>,
    pub btree_dirs: Vec<BtreeDirItem>,
    pub btree_files: Vec<BtreeDirItem>,
}

/// What the extent phase leaves for the directory sweep.
pub struct DirPhaseWork {
    pub dir_work: Vec<DirWorkItem>,
    pub shortform_dirs: Vec<ShortformDirItem>,
}

/// Can the directory inode's fork be taken from `b` as its format
/// demands: the whole inline fork for a shortform directory, the extent
/// records for an inline-extents one?
pub open spec fn spec_handle_directory_ok(b: Seq<u8>, info: InodeInfo) -> bool {
    if info.format == XFS_DINODE_FMT_LOCAL {
        info.data_fork_offset + info.size <= b.len()
    } else if info.format == XFS_DINODE_FMT_EXTENTS {
        info.data_fork_offset + 16 * (info.nextents as int) <= b.len()
    } else {
        true
    }
}

/// The fork bytes a btree-format inode queues for the bmbt sweep: the
/// declared fork range, clamped at the end of the available bytes.
pub open spec fn spec_btree_fork_bytes(b: Seq<u8>, info: InodeInfo) -> Seq<u8> {
    let fs = if info.data_fork_offset <= b.len() {
        info.data_fork_offset as int
    } else {
        b.len() as int
    };
    let fe = if info.data_fork_offset + info.data_fork_size <= b.len() {
        info.data_fork_offset + info.data_fork_size
    } else {
        b.len() as int
    };
    b.subrange(fs, fe)
}

/// Classify one directory inode for the later phases: a shortform
/// directory's fork bytes are copied for inline decoding, an
/// inline-extents directory's extents are decoded now, a btree-format
/// directory's fork bytes are copied for the bmbt sweep. `inode_buf`
/// starts at the inode and extends at least to the end of its chunk.
/// On success exactly one list grows, by exactly the classified item.
pub fn handle_directory(
    inode_buf: &[u8],
    info: &InodeInfo,
    ctx: &FsContext,
    dir_work: &mut Vec<DirWorkItem>,
    shortform_dirs: &mut Vec<ShortformDirItem>,
    btree_dirs: &mut Vec<BtreeDirItem>,
) -> (r: Result<(), FxfspError>)
    ensures
        r is Ok <==> spec_handle_directory_ok(inode_buf@, *info),
        r is Err ==> r matches Err(FxfspError::Parse(_)),
        r is Err ==> final(dir_work)@ == old(dir_work)@ && final(shortform_dirs)@ == old(shortform_dirs)@ && final(btree_dirs)@ == old(btree_dirs)@,
        r is Ok && info.format == XFS_DINODE_FMT_LOCAL ==> final(dir_work)@ == old(dir_work)@
            && final(btree_dirs)@ == old(btree_dirs)@ && final(shortform_dirs)@.len() == old(shortform_dirs)@.len() + 1 && final(shortform_dirs)@.drop_last() == old(shortform_dirs)@ && final(shortform_dirs)@.last().ino == info.ino && final(shortform_dirs)@.last().fork_data@
            == inode_buf@.subrange(
            info.data_fork_offset as int,
            info.data_fork_offset + info.size,
        ),
        r is Ok && info.format == XFS_DINODE_FMT_EXTENTS ==> final(shortform_dirs)@ == old(shortform_dirs)@ && final(btree_dirs)@ == old(btree_dirs)@ && final(dir_work)@.len() == old(dir_work)@.len() + 1 && final(dir_work)@.drop_last() == old(dir_work)@ && final(dir_work)@.last().ino == info.ino && final(dir_work)@.last().extents@ == crate::xfs::extent::spec_extent_list(
            inode_buf@.skip(info.data_fork_offset as int),
            info.nextents,
        ),
        r is Ok && info.format == XFS_DINODE_FMT_BTREE ==> final(dir_work)@ == old(dir_work)@
            && final(shortform_dirs)@ == old(shortform_dirs)@ && final(btree_dirs)@.len() == old(btree_dirs)@.len() + 1 && final(btree_dirs)@.drop_last() == old(btree_dirs)@ && final(btree_dirs)@.last().ino == info.ino && final(btree_dirs)@.last().fork_data@ == spec_btree_fork_bytes(
            inode_buf@,
            *info,
        ) && final(btree_dirs)@.last().data_fork_size == info.data_fork_size,
        r is Ok && info.format != XFS_DINODE_FMT_LOCAL && info.format != XFS_DINODE_FMT_EXTENTS
            && info.format != XFS_DINODE_FMT_BTREE ==> final(dir_work)@ == old(dir_work)@ && final(shortform_dirs)@ == old(shortform_dirs)@ && final(btree_dirs)@ == old(btree_dirs)@,
{
    if info.format == XFS_DINODE_FMT_LOCAL {
        if (info.data_fork_offset as u128) + (info.size as u128) > inode_buf.len() as u128 {
            return Err(FxfspError::Parse("shortform dir fork out of bounds"));
        }
        let fork_start = info.data_fork_offset;
        let fork_end = fork_start + info.size as usize;
        let fork_data = copy_range(inode_buf, fork_start, fork_end);
        shortform_dirs.push(ShortformDirItem { ino: info.ino, fork_data });
        proof {
            assert(shortform_dirs@.drop_last() =~= old(shortform_dirs)@);
        }
        Ok(())
    } else if info.format == XFS_DINODE_FMT_EXTENTS {
        if (info.data_fork_offset as u128) + 16 * (info.nextents as u128)
            > inode_buf.len() as u128 {
            return Err(FxfspError::Parse("extent record out of bounds"));
        }
        let fork_buf = slice_from(inode_buf, info.data_fork_offset);
        proof {
            assert(fork_buf@ =~= inode_buf@.skip(info.data_fork_offset as int));
        }
        let extents = parse_extent_list(fork_buf, info.nextents)?;
        dir_work.push(DirWorkItem { ino: info.ino, extents });
        proof {
            assert(dir_work@.drop_last() =~= old(dir_work)@);
        }
        Ok(())
    } else if info.format == XFS_DINODE_FMT_BTREE {
        let fork_start = if info.data_fork_offset <= inode_buf.len() {
            info.data_fork_offset
        } else {
            inode_buf.len()
        };
        let fork_end = if (info.data_fork_offset as u128) + (info.data_fork_size as u128)
            <= inode_buf.len() as u128 {
            info.data_fork_offset + info.data_fork_size
        } else {
            inode_buf.len()
        };
        let fork_data = copy_range(inode_buf, fork_start, fork_end);
        proof {
            assert(fork_data@ =~= spec_btree_fork_bytes(inode_buf@, *info));
        }
        btree_dirs.push(
            BtreeDirItem { ino: info.ino, fork_data, data_fork_size: info.data_fork_size },
        );
        proof {
            assert(btree_dirs@.drop_last() =~= old(btree_dirs)@);
        }
        Ok(())
    } else {
        Ok(())
    }
}

/// Copy `b[start..end]` into an owned vector.
pub fn copy_range(b: &[u8], start: usize, end: usize) -> (r: Vec<u8>)
    requires
        start <= end <= b@.len(),
    ensures
        r@ == b@.subrange(start as int, end as int),
{
    let mut out: Vec<u8> = Vec::new();
    let mut k = start;
    while k < end
        invariant
            start <= k <= end <= b@.len(),
            out@.len() == k - start,
            forall|q: int| 0 <= q < out@.len() ==> out@[q] == b@[start + q],
        decreases end - k,
    {
        out.push(b[k]);
        k = k + 1;
    }
    proof {
        assert(out@ =~= b@.subrange(start as int, end as int));
    }
    out
}

/// The tail of `b` from `start` on.
pub fn slice_from<'a>(b: &'a [u8], start: usize) -> (r: &'a [u8])
    requires
        start <= b@.len(),
    ensures
        r@ == b@.subrange(start as int, b@.len() as int),
{
    &b[start..b.len()]
}

/// May the scanner issue a read for this extent: it covers at least one
/// block, it is not unwritten (its contents read as zero by definition,
/// so no I/O is ever issued for it), and its byte length fits the
/// platform?
pub open spec fn spec_extent_readable(e: Extent, ctx: FsContext) -> bool {
    &&& e.block_count > 0
    &&& !e.is_unwritten
    &&& (e.block_count << (ctx.block_log as u64)) <= usize::MAX as u64
}

/// The read request for one readable directory extent, tagged with the
/// owning inode.
pub open spec fn spec_extent_request(e: Extent, ino: u64, ctx: FsContext) -> IoRequest {
    IoRequest {
        offset: crate::xfs::extent::spec_fsblock_to_byte(ctx, e.start_block),
        len: (e.block_count << (ctx.block_log as u64)) as usize,
        tag: ino,
    }
}

/// The requests of one directory's extents, readable ones only, in
/// extent order.
pub open spec fn spec_item_requests(ino: u64, exts: Seq<Extent>, ctx: FsContext) -> Seq<IoRequest>
    decreases exts.len(),
{
    if exts.len() == 0 {
        Seq::empty()
    } else {
        spec_item_requests(ino, exts.drop_last(), ctx) + (if spec_extent_readable(
            exts.last(),
            ctx,
        ) {
            seq![spec_extent_request(exts.last(), ino, ctx)]
        } else {
            Seq::empty()
        })
    }
}

/// The directory work as mathematics: `(inode, extents)`.
pub open spec fn spec_dir_work_view(v: Seq<DirWorkItem>) -> Seq<(u64, Seq<Extent>)> {
    v.map_values(|d: DirWorkItem| (d.ino, d.extents@))
}

/// All directories' requests, in work order, before sorting.
pub open spec fn spec_dir_requests(work: Seq<(u64, Seq<Extent>)>, ctx: FsContext) -> Seq<IoRequest>
    decreases work.len(),
{
    if work.len() == 0 {
        Seq::empty()
    } else {
        spec_dir_requests(work.drop_last(), ctx) + spec_item_requests(
            work.last().0,
            work.last().1,
            ctx,
        )
    }
}

/// Does some readable extent of the work justify this request?
pub open spec fn spec_request_justified(
    req: IoRequest,
    work: Seq<(u64, Seq<Extent>)>,
    ctx: FsContext,
) -> bool {
    exists|i: int, j: int|
        0 <= i < work.len() && 0 <= j < work[i].1.len() && spec_extent_readable(
            #[trigger] work[i].1[j],
            ctx,
        ) && req == spec_extent_request(work[i].1[j], work[i].0, ctx)
}

/// Build the directory-data read requests: one per readable extent,
/// sorted ascending by byte offset.
///
/// Every request stems from an extent with a positive block count and
/// the unwritten flag clear: an unwritten or empty extent is never issued
/// as a read request. All requests are 512-byte aligned.
pub fn dir_read_requests(dir_work: &Vec<DirWorkItem>, ctx: &FsContext) -> (r: Vec<IoRequest>)
    requires
        ctx.wf(),
    ensures
        r@ == crate::sorting::spec_sort_requests(
            spec_dir_requests(spec_dir_work_view(dir_work@), *ctx),
        ),
        forall|k: int|
            0 <= k < r@.len() ==> spec_request_justified(
                #[trigger] r@[k],
                spec_dir_work_view(dir_work@),
                *ctx,
            ),
        forall|k: int|
            0 <= k < r@.len() ==> ((#[trigger] r@[k]).offset % 512 == 0 && r@[k].len % 512 == 0),
{
    let ghost gwork = spec_dir_work_view(dir_work@);
    let mut reqs: Vec<IoRequest> = Vec::new();
    let mut i: usize = 0;
    while i < dir_work.len()
        invariant
            ctx.wf(),
            gwork == spec_dir_work_view(dir_work@),
            i <= dir_work@.len(),
            reqs@ == spec_dir_requests(gwork.take(i as int), *ctx),
            forall|k: int|
                0 <= k < reqs@.len() ==> spec_request_justified(#[trigger] reqs@[k], gwork, *ctx),
            forall|k: int|
                0 <= k < reqs@.len() ==> ((#[trigger] reqs@[k]).offset % 512 == 0 && reqs@[k].len
                    % 512 == 0),
        decreases dir_work@.len() - i,
    {
        let item = &dir_work[i];
        let ghost exts = item.extents@;
        let mut j: usize = 0;
        while j < item.extents.len()
            invariant
                ctx.wf(),
                gwork == spec_dir_work_view(dir_work@),
                i < dir_work@.len(),
                exts == dir_work@[i as int].extents@,
                item == dir_work@[i as int],
                j <= exts.len(),
                reqs@ == spec_dir_requests(gwork.take(i as int), *ctx) + spec_item_requests(
                    item.ino,
                    exts.take(j as int),
                    *ctx,
                ),
                forall|k: int|
                    0 <= k < reqs@.len() ==> spec_request_justified(
                        #[trigger] reqs@[k],
                        gwork,
                        *ctx,
                    ),
                forall|k: int|
                    0 <= k < reqs@.len() ==> ((#[trigger] reqs@[k]).offset % 512 == 0
                        && reqs@[k].len % 512 == 0),
            decreases exts.len() - j,
        {
            let ext = item.extents[j];
            let byte_len_big: u64 = ext.block_count << (ctx.block_log as u64);
            if ext.block_count > 0 && !ext.is_unwritten && byte_len_big <= usize::MAX as u64 {
                let offset = crate::xfs::extent::fsblock_to_byte(ctx, ext.start_block);
                proof {
                    lemma_block_read_aligned(
                        *ctx,
                        crate::xfs::extent::spec_fsblock_to_ag(*ctx, ext.start_block).0,
                        crate::xfs::extent::spec_fsblock_to_ag(*ctx, ext.start_block).1,
                    );
                    let bc = ext.block_count;
                    let bl = ctx.block_log as u64;
                    assert((bc << bl) % 512 == 0) by (bit_vector)
                        requires
                            9 <= bl <= 16,
                    ;
                }
                let req = IoRequest { offset, len: byte_len_big as usize, tag: item.ino };
                proof {
                    assert(req == spec_extent_request(ext, item.ino, *ctx));
                    assert(spec_request_justified(req, gwork, *ctx)) by {
                        assert(0 <= i < gwork.len() && 0 <= j < gwork[i as int].1.len()
                            && gwork[i as int].1[j as int] == ext && gwork[i as int].0
                            == item.ino);
                    }
                }
                reqs.push(req);
            }
            j = j + 1;
            proof {
                assert(exts.take(j as int).drop_last() =~= exts.take(j - 1));
                assert(exts.take(j as int).last() == exts[j - 1]);
            }
        }
        i = i + 1;
        proof {
            assert(exts.take(exts.len() as int) =~= exts);
            assert(gwork.take(i as int).drop_last() =~= gwork.take(i - 1));
            assert(gwork.take(i as int).last() == gwork[i - 1]);
        }
    }
    proof {
        assert(gwork.take(gwork.len() as int) =~= gwork);
    }
    let r = crate::sorting::sort_requests(reqs);
    proof {
        let base = spec_dir_requests(gwork, *ctx);
        crate::sorting::lemma_sort_requests_all(
            base,
            |q: IoRequest| spec_request_justified(q, gwork, *ctx),
        );
        crate::sorting::lemma_sort_requests_all(
            base,
            |q: IoRequest| q.offset % 512 == 0 && q.len % 512 == 0,
        );
    }
    r
}

/// The `InodeFound` event a discovered inode becomes.
pub fn emit_inode_found(info: crate::InodeInfo) -> (r: crate::FsEvent)
    ensures
        r == crate::spec_inode_event(info),
{
    crate::FsEvent::InodeFound {
        ag_number: info.ag_number,
        ino: info.ino,
        mode: info.mode,
        size: info.size,
        uid: info.uid,
        gid: info.gid,
        nlink: info.nlink,
        mtime_sec: info.mtime_sec,
        mtime_nsec: info.mtime_nsec,
        atime_sec: info.atime_sec,
        atime_nsec: info.atime_nsec,
        ctime_sec: info.ctime_sec,
        ctime_nsec: info.ctime_nsec,
        nblocks: info.nblocks,
        extents: info.extents,
    }
}

/// Round `value` up to the next multiple of `align`.
pub fn align_up(value: usize, align: usize) -> (r: usize)
    requires
        align > 0,
        value + align <= usize::MAX,
    ensures
        r % align == 0,
        value <= r < value + align,
{
    proof {
        vstd::arithmetic::div_mod::lemma_fundamental_div_mod((value + align - 1) as int, align as int);
        vstd::arithmetic::div_mod::lemma_mod_bound((value + align - 1) as int, align as int);
        vstd::arithmetic::div_mod::lemma_mod_multiples_basic(
            (value + align - 1) as int / (align as int),
            align as int,
        );
    }
    ((value + align - 1) / align) * align
}

} // verus!
