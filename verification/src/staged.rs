//! Phased scanning API.
//!
//! The phases are explicit: parse the superblock first, then per AG run
//! inode scan, file-extent resolution, and directory-entry extraction in
//! that order. Each phase hands back plain values; the typestate tokens
//! ([`AgScanner`], [`AgExtentPhase`], [`AgDirPhase`]) enforce the phase
//! order.

use vstd::prelude::*;

use crate::error::FxfspError;
use crate::reader::{spec_read_range, IoReader};
use crate::xfs::ag::AgiInfo;
use crate::xfs::extent::Extent;
use crate::xfs::superblock::FsContext;

verus! {

/// Superblock information returned at scan start.
#[derive(Debug, Clone, Copy, PartialEq, Eq, Structural)]
pub struct SuperblockInfo {
    pub block_size: u32,
    pub ag_count: u32,
    pub ag_blocks: u32,
    pub inode_size: u16,
    pub root_ino: u64,
}

/// A discovered inode, with its physical extent map inline when the data
/// fork is in inline-extents format (regular files only).
#[derive(Debug, Clone, PartialEq)]
pub struct InodeInfo {
    pub ag_number: u32,
    pub ino: u64,
    pub mode: u16,
    pub size: u64,
    pub uid: u32,
    pub gid: u32,
    pub nlink: u32,
    pub mtime_sec: u32,
    pub mtime_nsec: u32,
    pub atime_sec: u32,
    pub atime_nsec: u32,
    pub ctime_sec: u32,
    pub ctime_nsec: u32,
    pub nblocks: u64,
    /// `None` for directories, non-regular files, and btree-format files
    /// (whose extents arrive via [`FileExtentsInfo`]).
    pub extents: Option<Vec<Extent>>,
}

/// The discovered inode as mathematics.
pub struct InodeModel {
    pub ag_number: u32,
    pub ino: u64,
    pub mode: u16,
    pub size: u64,
    pub uid: u32,
    pub gid: u32,
    pub nlink: u32,
    pub mtime_sec: u32,
    pub mtime_nsec: u32,
    pub atime_sec: u32,
    pub atime_nsec: u32,
    pub ctime_sec: u32,
    pub ctime_nsec: u32,
    pub nblocks: u64,
    pub extents: Option<Seq<Extent>>,
}

impl View for InodeInfo {
    type V = InodeModel;

    open spec fn view(&self) -> InodeModel {
        InodeModel {
            ag_number: self.ag_number,
            ino: self.ino,
            mode: self.mode,
            size: self.size,
            uid: self.uid,
            gid: self.gid,
            nlink: self.nlink,
            mtime_sec: self.mtime_sec,
            mtime_nsec: self.mtime_nsec,
            atime_sec: self.atime_sec,
            atime_nsec: self.atime_nsec,
            ctime_sec: self.ctime_sec,
            ctime_nsec: self.ctime_nsec,
            nblocks: self.nblocks,
            extents: match self.extents {
                Option::None => Option::None,
                Option::Some(v) => Option::Some(v@),
            },
        }
    }
}

/// Physical extent map of a btree-format regular file, emitted after the
/// bmbt sweep.
#[derive(Debug, Clone, PartialEq)]
pub struct FileExtentsInfo {
    pub ino: u64,
    pub extents: Vec<Extent>,
}

/// The extent map as mathematics.
pub struct FileExtentsModel {
    pub ino: u64,
    pub extents: Seq<Extent>,
}

impl View for FileExtentsInfo {
    type V = FileExtentsModel;

    open spec fn view(&self) -> FileExtentsModel {
        FileExtentsModel { ino: self.ino, extents: self.extents@ }
    }
}

/// A directory entry: `name` owns its bytes.
#[derive(Debug, Clone, PartialEq)]
pub struct DirEntryInfo {
    pub parent_ino: u64,
    pub child_ino: u64,
    pub name: Vec<u8>,
    pub file_type: u8,
}

/// The directory entry as mathematics.
pub struct DirEntryModel {
    pub parent_ino: u64,
    pub child_ino: u64,
    pub name: Seq<u8>,
    pub file_type: u8,
}

impl View for DirEntryInfo {
    type V = DirEntryModel;

    open spec fn view(&self) -> DirEntryModel {
        DirEntryModel {
            parent_ino: self.parent_ino,
            child_ino: self.child_ino,
            name: self.name@,
            file_type: self.file_type,
        }
    }
}

/// An inode vector as mathematics.
pub open spec fn spec_inodes_view(v: Seq<InodeInfo>) -> Seq<InodeModel> {
    v.map_values(|i: InodeInfo| i@)
}

/// A directory-entry vector as mathematics.
pub open spec fn spec_entries_view(v: Seq<DirEntryInfo>) -> Seq<DirEntryModel> {
    v.map_values(|e: DirEntryInfo| e@)
}

/// Parse the superblock and return the filesystem metadata plus a scanner
/// over the remaining phases. The entry point of the phased API.
pub fn parse_superblock<R: IoReader>(reader: R) -> (r: Result<
    (SuperblockInfo, FsScanner<R>),
    FxfspError,
>)
    ensures
        r matches Ok(p) ==> {
            &&& p.1.ctx == FsContext::spec_from_superblock(
                spec_read_range(reader.device(), 0, 4096),
            )
            &&& p.1.ctx.wf()
            &&& p.1.reader.device() == reader.device()
            &&& p.1.current_ag == 0
            &&& p.0 == (SuperblockInfo {
                block_size: p.1.ctx.block_size,
                ag_count: p.1.ctx.ag_count,
                ag_blocks: p.1.ctx.ag_blocks,
                inode_size: p.1.ctx.inode_size,
                root_ino: p.1.ctx.root_ino,
            })
        },
{
    let mut reader = reader;
    let ctx = match crate::scan::read_superblock_ctx(&mut reader) {
        Ok(c) => c,
        Err(e) => {
            return Err(e);
        },
    };
    let info = crate::scan::superblock_info_of(&ctx);
    Ok((info, FsScanner { reader, ctx, current_ag: 0 }))
}

/// Scanner that drives the per-AG phases over its reader.
pub struct FsScanner<R: IoReader> {
    pub reader: R,
    pub ctx: FsContext,
    pub current_ag: u32,
}

impl<R: IoReader> FsScanner<R> {
    /// The superblock information of the filesystem being scanned.
    pub fn superblock(&self) -> (r: SuperblockInfo)
        ensures
            r == (SuperblockInfo {
                block_size: self.ctx.block_size,
                ag_count: self.ctx.ag_count,
                ag_blocks: self.ctx.ag_blocks,
                inode_size: self.ctx.inode_size,
                root_ino: self.ctx.root_ino,
            }),
    {
        crate::scan::superblock_info_of(&self.ctx)
    }

    /// The full geometry record, for advanced use.
    pub fn context(&self) -> (r: &FsContext)
        ensures
            *r == self.ctx,
    {
        &self.ctx
    }

    /// Begin the next AG, reading and checking its AGI header, or `None`
    /// when every AG has been begun.
    pub fn next_ag(&mut self) -> (r: Option<Result<AgScanner, FxfspError>>)
        requires
            old(self).ctx.wf(),
        ensures
            final(self).ctx == old(self).ctx,
            final(self).reader.device() == old(self).reader.device(),
            (r is None) == (old(self).current_ag >= old(self).ctx.ag_count),
            r is None ==> final(self).current_ag == old(self).current_ag,
            r is Some ==> final(self).current_ag == old(self).current_ag + 1,
            r matches Some(rr) ==> (rr matches Ok(ag) ==> ag.agno == old(self).current_ag
                && crate::xfs::ag::spec_agi_ok(
                crate::scan::spec_agi_bytes(
                    old(self).reader.device(),
                    old(self).ctx,
                    old(self).current_ag,
                ),
                old(self).current_ag,
            ) && ag.agi == crate::xfs::ag::spec_agi(
                crate::scan::spec_agi_bytes(
                    old(self).reader.device(),
                    old(self).ctx,
                    old(self).current_ag,
                ),
                old(self).current_ag,
            )),
    {
        if self.current_ag >= self.ctx.ag_count {
            return None;
        }
        let agno = self.current_ag;
        self.current_ag = agno + 1;
        let ctx = self.ctx;
        match crate::scan::read_agi(&mut self.reader, &ctx, agno) {
            Ok(agi) => Some(Ok(AgScanner { agno, agi })),
            Err(e) => Some(Err(e)),
        }
    }
}

/// Phase token for one AG: ready for the inode scan.
pub struct AgScanner {
    pub agno: u32,
    pub agi: AgiInfo,
}

impl AgScanner {
    /// The AG number being scanned.
    pub fn ag_number(&self) -> (r: u32)
        ensures
            r == self.agno,
    {
        self.agno
    }

    /// Phase 1: scan this AG's allocated inodes; hands back the inodes
    /// and the token for the extent phase. On success the inodes are
    /// exactly [`crate::scan::spec_ag_inodes`] over the sorted records of
    /// this AG's inobt.
    pub fn scan_inodes<R: IoReader>(self, fs: &mut FsScanner<R>) -> (r: Result<
        (Vec<InodeInfo>, AgExtentPhase),
        FxfspError,
    >)
        requires
            old(fs).ctx.wf(),
            self.agno < old(fs).ctx.ag_count,
        ensures
            final(fs).ctx == old(fs).ctx,
            final(fs).current_ag == old(fs).current_ag,
            final(fs).reader.device() == old(fs).reader.device(),
            r matches Ok(v) ==> (forall|k: int|
                0 <= k < v.0@.len() ==> (#[trigger] v.0@[k]).ag_number == self.agno) && v.1.agno
                == self.agno,
            r matches Ok(v) ==> ({
                let dev = old(fs).reader.device();
                match crate::xfs::btree::spec_collect_inobt(
                    dev,
                    old(fs).ctx,
                    self.agno,
                    self.agi.inobt_root,
                    self.agi.inobt_level,
                ) {
                    None => false,
                    Some(recs0) => ({
                        let recs = crate::sorting::spec_sort_inobt_recs(recs0);
                        &&& crate::scan::spec_ag_inodes(dev, old(fs).ctx, self.agno, recs)
                            == Some(spec_inodes_view(v.0@))
                        &&& match crate::scan::spec_ag_queued(dev, old(fs).ctx, self.agno, recs) {
                            None => false,
                            Some(w) => {
                                &&& crate::scan_common::spec_dir_work_view(v.1.work.dir_work@)
                                    == w.dirs
                                &&& crate::scan::spec_sf_view(v.1.work.shortform_dirs@) == w.sfs
                                &&& crate::scan::spec_btree_view(v.1.work.btree_dirs@) == w.bdirs
                                &&& crate::scan::spec_btree_view(v.1.work.btree_files@)
                                    == w.bfiles
                            },
                        }
                    }),
                }
            }),
    {
        let ctx = fs.ctx;
        match crate::scan::scan_ag_inodes(&mut fs.reader, &ctx, self.agno, &self.agi) {
            Ok((inodes, work)) => Ok((inodes, AgExtentPhase { agno: self.agno, work })),
            Err(e) => Err(e),
        }
    }
}

/// Phase token for one AG: ready for the btree-fork extent resolution.
pub struct AgExtentPhase {
    pub agno: u32,
    pub work: crate::scan_common::AgWork,
}

impl AgExtentPhase {
    /// Phase 1.5: resolve btree-format forks in one bmbt sweep; hands
    /// back the extent maps of btree-format regular files and the token
    /// for the directory phase. On success the sweep outcome is exactly
    /// [`crate::xfs::bmbt::spec_collect_bmbt`] over the queued forks,
    /// split by owning inode: directories' extents join the directory
    /// work, files' extents are returned.
    pub fn scan_file_extents<R: IoReader>(self, fs: &mut FsScanner<R>) -> (r: Result<
        (Vec<FileExtentsInfo>, AgDirPhase),
        FxfspError,
    >)
        requires
            old(fs).ctx.wf(),
        ensures
            final(fs).ctx == old(fs).ctx,
            final(fs).current_ag == old(fs).current_ag,
            final(fs).reader.device() == old(fs).reader.device(),
            r matches Ok(v) ==> v.1.agno == self.agno,
            r matches Ok(v) ==> ({
                let dev = old(fs).reader.device();
                let inputs = crate::scan::spec_btree_inputs(self.work.btree_dirs@)
                    + crate::scan::spec_btree_inputs(self.work.btree_files@);
                let dir_inos = self.work.btree_dirs@.map_values(
                    |d: crate::scan_common::BtreeDirItem| d.ino,
                );
                match crate::xfs::bmbt::spec_collect_bmbt(dev, old(fs).ctx, inputs) {
                    None => false,
                    Some(acc) => {
                        &&& crate::scan::spec_fx_view(v.0@) == crate::scan::spec_split_files(
                            acc,
                            dir_inos,
                        )
                        &&& crate::scan_common::spec_dir_work_view(v.1.work.dir_work@)
                            == crate::scan_common::spec_dir_work_view(self.work.dir_work@)
                            + crate::scan::spec_split_dirs(acc, dir_inos)
                        &&& v.1.work.shortform_dirs@ == self.work.shortform_dirs@
                    },
                }
            }),
    {
        let ctx = fs.ctx;
        match crate::scan::resolve_ag_extents(&mut fs.reader, &ctx, self.work) {
            Ok((fx, dwork)) => Ok((fx, AgDirPhase { agno: self.agno, work: dwork })),
            Err(e) => Err(e),
        }
    }

    /// Skip the file-extent output. Btree-format directories are still
    /// resolved for the directory phase, best-effort: if that sweep
    /// fails, the work queued so far is kept and only the btree
    /// directories' extents are lost.
    pub fn skip_extents<R: IoReader>(self, fs: &mut FsScanner<R>) -> (r: AgDirPhase)
        requires
            old(fs).ctx.wf(),
        ensures
            final(fs).ctx == old(fs).ctx,
            final(fs).current_ag == old(fs).current_ag,
            final(fs).reader.device() == old(fs).reader.device(),
            r.agno == self.agno,
            r.work.shortform_dirs@ == self.work.shortform_dirs@,
            ({
                let dev = old(fs).reader.device();
                let inputs = crate::scan::spec_btree_inputs(self.work.btree_dirs@);
                match crate::xfs::bmbt::spec_collect_bmbt(dev, old(fs).ctx, inputs) {
                    None => r.work.dir_work@ == self.work.dir_work@,
                    Some(acc) => crate::scan_common::spec_dir_work_view(r.work.dir_work@)
                        == crate::scan_common::spec_dir_work_view(self.work.dir_work@)
                        + crate::scan::spec_nonempty_entries(acc) || r.work.dir_work@
                        == self.work.dir_work@,
                }
            }),
    {
        let ctx = fs.ctx;
        let crate::scan_common::AgWork { dir_work, shortform_dirs, btree_dirs, btree_files: _btree_files } =
            self.work;
        let dir_work = crate::scan::resolve_btree_dirs(&mut fs.reader, &ctx, btree_dirs, dir_work);
        AgDirPhase {
            agno: self.agno,
            work: crate::scan_common::DirPhaseWork { dir_work, shortform_dirs },
        }
    }
}

/// Phase token for one AG: ready for the directory sweep.
pub struct AgDirPhase {
    pub agno: u32,
    pub work: crate::scan_common::DirPhaseWork,
}

impl AgDirPhase {
    /// Phase 2: decode this AG's directory entries, shortform directories
    /// first, then one sorted sweep over the directory-data extents. On
    /// success the entries are exactly
    /// [`crate::scan::spec_ag_dir_entries`] of the device and the queued
    /// work.
    pub fn scan_dir_entries<R: IoReader>(self, fs: &mut FsScanner<R>) -> (r: Result<
        Vec<DirEntryInfo>,
        FxfspError,
    >)
        requires
            old(fs).ctx.wf(),
        ensures
            final(fs).ctx == old(fs).ctx,
            final(fs).current_ag == old(fs).current_ag,
            final(fs).reader.device() == old(fs).reader.device(),
            r matches Ok(v) ==> Some(spec_entries_view(v@)) == crate::scan::spec_ag_dir_entries(
                old(fs).reader.device(),
                old(fs).ctx,
                self.work.dir_work@,
                self.work.shortform_dirs@,
            ),
    {
        let ctx = fs.ctx;
        crate::scan::scan_ag_dirs(&mut fs.reader, &ctx, self.work)
    }

    /// Skip the directory entries; nothing is read.
    pub fn skip_dirs(self) -> (r: Result<(), FxfspError>)
        ensures
            r is Ok,
    {
        Ok(())
    }
}

} // verus!
