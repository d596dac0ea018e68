//! Forward-only, read-only scanner of an on-disk XFS filesystem image.
//!
//! The scanner parses the on-disk metadata and yields a sequential stream
//! of discovered entities (superblock parameters, allocated inodes,
//! per-file extent maps, directory entries), favoring sequential disk
//! traversal over logical tree order. Events come in disk-sweep order:
//! the superblock first, then per AG all inodes, then all file extent
//! maps, then all directory entries, AGs in ascending order.

pub mod endian;
pub mod error;
pub mod reader;
pub mod scan;
pub mod scan_common;
pub mod sorting;
pub mod staged;
pub mod xfs;

pub use error::FxfspError;
pub use reader::{DiskProfile, IoPhase, IoReader, IoRequest, MemReader};
pub use staged::{parse_superblock, DirEntryInfo, FileExtentsInfo, InodeInfo, SuperblockInfo};
pub use xfs::extent::Extent;

use vstd::prelude::*;

use crate::reader::spec_read_range;
use crate::staged::{DirEntryModel, FileExtentsModel, InodeModel};
use crate::xfs::superblock::FsContext;

verus! {

/// Events emitted during a filesystem scan.
#[derive(Debug, Clone, PartialEq)]
pub enum FsEvent {
    /// The superblock has been parsed; always the first event.
    Superblock { block_size: u32, ag_count: u32, inode_size: u16, root_ino: u64 },
    /// An allocated inode was found. For regular files whose data fork is
    /// an inline extent list, `extents` carries the physical extent map;
    /// for btree-format files the extents arrive later as `FileExtents`.
    InodeFound {
        ag_number: u32,
        ino: u64,
        mode: u16,
        size: u64,
        uid: u32,
        gid: u32,
        nlink: u32,
        mtime_sec: u32,
        mtime_nsec: u32,
        atime_sec: u32,
        atime_nsec: u32,
        ctime_sec: u32,
        ctime_nsec: u32,
        nblocks: u64,
        extents: Option<Vec<Extent>>,
    },
    /// Physical extent map of a btree-format regular file, after the bmbt
    /// sweep of its AG.
    FileExtents { ino: u64, extents: Vec<Extent> },
    /// One directory entry.
    DirEntry { parent_ino: u64, child_ino: u64, name: Vec<u8>, file_type: u8 },
}

/// Receiver of scan events. Returning `false` asks the scan to stop; the
/// scanner then emits nothing further and finishes cleanly.
pub trait EventSink: Sized {
    /// The history of deliveries: each event this sink received, with the
    /// answer it gave. A verified sink overrides this with its own model;
    /// the default leaves an unverified sink's history unconstrained.
    open spec fn log(&self) -> Seq<(FsEvent, bool)> {
        Seq::empty()
    }

    /// Receive one event; returning `false` asks the scan to stop.
    fn on_event(&mut self, event: &FsEvent) -> (r: bool)
        ensures
            final(self).log() == old(self).log().push((*event, r)),
    ;
}

/// A sink that accepts every event and keeps them all.
pub struct EventCollector {
    pub events: Vec<FsEvent>,
    pub history: Ghost<Seq<(FsEvent, bool)>>,
}

impl EventCollector {
    /// An empty collector.
    pub fn new() -> (r: Self)
        ensures
            r.log() == Seq::<(FsEvent, bool)>::empty(),
            r.events@.len() == 0,
    {
        EventCollector { events: Vec::new(), history: Ghost(Seq::empty()) }
    }
}

impl EventSink for EventCollector {
    open spec fn log(&self) -> Seq<(FsEvent, bool)> {
        self.history@
    }

    fn on_event(&mut self, event: &FsEvent) -> (r: bool) {
        self.events.push(event.clone());
        proof {
            self.history@ = self.history@.push((*event, true));
        }
        true
    }
}

/// The events of a delivery history, without the answers.
pub open spec fn spec_delivered_events(log: Seq<(FsEvent, bool)>) -> Seq<FsEvent> {
    log.map_values(|p: (FsEvent, bool)| p.0)
}

pub open spec fn is_superblock_event(e: FsEvent) -> bool {
    e is Superblock
}

pub open spec fn is_inode_event(e: FsEvent) -> bool {
    e is InodeFound
}

pub open spec fn is_file_extents_event(e: FsEvent) -> bool {
    e is FileExtents
}

pub open spec fn is_dir_entry_event(e: FsEvent) -> bool {
    e is DirEntry
}

/// The AG number an `InodeFound` event carries.
pub open spec fn inode_event_ag(e: FsEvent) -> u32 {
    match e {
        FsEvent::InodeFound { ag_number, .. } => ag_number,
        _ => 0,
    }
}

/// The `Superblock` event the geometry record describes.
pub open spec fn spec_superblock_event(ctx: FsContext) -> FsEvent {
    FsEvent::Superblock {
        block_size: ctx.block_size,
        ag_count: ctx.ag_count,
        inode_size: ctx.inode_size,
        root_ino: ctx.root_ino,
    }
}

/// The event one discovered inode becomes.
pub open spec fn spec_inode_event(i: InodeInfo) -> FsEvent {
    FsEvent::InodeFound {
        ag_number: i.ag_number,
        ino: i.ino,
        mode: i.mode,
        size: i.size,
        uid: i.uid,
        gid: i.gid,
        nlink: i.nlink,
        mtime_sec: i.mtime_sec,
        mtime_nsec: i.mtime_nsec,
        atime_sec: i.atime_sec,
        atime_nsec: i.atime_nsec,
        ctime_sec: i.ctime_sec,
        ctime_nsec: i.ctime_nsec,
        nblocks: i.nblocks,
        extents: i.extents,
    }
}

/// The event one file extent map becomes.
pub open spec fn spec_fx_event(f: FileExtentsInfo) -> FsEvent {
    FsEvent::FileExtents { ino: f.ino, extents: f.extents }
}

/// The event one directory entry becomes.
pub open spec fn spec_de_event(d: DirEntryInfo) -> FsEvent {
    FsEvent::DirEntry {
        parent_ino: d.parent_ino,
        child_ino: d.child_ino,
        name: d.name,
        file_type: d.file_type,
    }
}

/// Events as mathematics: every payload a sequence, nothing borrowed.
pub enum EventModel {
    Superblock { block_size: u32, ag_count: u32, inode_size: u16, root_ino: u64 },
    InodeFound(InodeModel),
    FileExtents(FileExtentsModel),
    DirEntry(DirEntryModel),
}

/// The model of one event.
pub open spec fn spec_event_model(e: FsEvent) -> EventModel {
    match e {
        FsEvent::Superblock { block_size, ag_count, inode_size, root_ino } => {
            EventModel::Superblock { block_size, ag_count, inode_size, root_ino }
        },
        FsEvent::InodeFound { .. } => EventModel::InodeFound(spec_inode_event_model(e)),
        FsEvent::FileExtents { ino, extents } => {
            EventModel::FileExtents(FileExtentsModel { ino, extents: extents@ })
        },
        FsEvent::DirEntry { parent_ino, child_ino, name, file_type } => {
            EventModel::DirEntry(
                DirEntryModel { parent_ino, child_ino, name: name@, file_type },
            )
        },
    }
}

/// The model of an event sequence.
pub open spec fn spec_events_model(s: Seq<FsEvent>) -> Seq<EventModel> {
    s.map_values(|e: FsEvent| spec_event_model(e))
}

/// One AG's events as a function of the device alone: the discovered
/// inodes, then the btree-format regular files' extent maps, then the
/// directory entries, each phase by its own spec. `None` is a fatal
/// scan.
pub open spec fn spec_device_ag_model(dev: Seq<u8>, ctx: FsContext, agno: u32) -> Option<
    Seq<EventModel>,
> {
    match crate::scan::spec_device_ag_inodes(dev, ctx, agno) {
        Option::None => Option::None,
        Option::Some(ms) => match crate::scan::spec_device_ag_work(dev, ctx, agno) {
            Option::None => Option::None,
            Option::Some(w) => match crate::xfs::bmbt::spec_collect_bmbt_v(
                dev,
                ctx,
                w.bdirs + w.bfiles,
            ) {
                Option::None => Option::None,
                Option::Some(acc) => {
                    let dir_inos = w.bdirs.map_values(|t: (u64, Seq<u8>, int)| t.0);
                    let fxs = crate::scan::spec_split_files(acc, dir_inos);
                    let dirs2 = w.dirs + crate::scan::spec_split_dirs(acc, dir_inos);
                    match crate::scan::spec_ag_dir_entries_v(dev, ctx, dirs2, w.sfs) {
                        Option::None => Option::None,
                        Option::Some(des) => Option::Some(
                            ms.map_values(|m: InodeModel| EventModel::InodeFound(m))
                                + fxs.map_values(
                                |f: FileExtentsModel| EventModel::FileExtents(f),
                            ) + des.map_values(|d: DirEntryModel| EventModel::DirEntry(d)),
                        ),
                    }
                },
            },
        },
    }
}

/// The first `upto` AGs' events as a function of the device alone.
pub open spec fn spec_device_ag_models(dev: Seq<u8>, ctx: FsContext, upto: int) -> Option<
    Seq<EventModel>,
>
    decreases upto,
{
    if upto <= 0 {
        Option::Some(Seq::empty())
    } else {
        match spec_device_ag_models(dev, ctx, upto - 1) {
            Option::None => Option::None,
            Option::Some(done) => match spec_device_ag_model(dev, ctx, (upto - 1) as u32) {
                Option::None => Option::None,
                Option::Some(sgm) => Option::Some(done + sgm),
            },
        }
    }
}

/// The whole event stream as a function of the device alone: the
/// superblock event of the parsed geometry, then every AG's events in
/// ascending order. `None` is a fatal scan.
pub open spec fn spec_device_events(dev: Seq<u8>) -> Option<Seq<EventModel>> {
    let sb = spec_read_range(dev, 0, 4096);
    if !FsContext::spec_superblock_ok(sb) {
        Option::None
    } else {
        let ctx = FsContext::spec_from_superblock(sb);
        match spec_device_ag_models(dev, ctx, ctx.ag_count as int) {
            Option::None => Option::None,
            Option::Some(s) => Option::Some(
                seq![spec_event_model(spec_superblock_event(ctx))] + s,
            ),
        }
    }
}

/// Idempotence: the event stream is a function of the device contents
/// alone, so two successful scans of the same image yield the same
/// stream of event models, order included.
pub proof fn lemma_scan_idempotent(dev: Seq<u8>, e1: Seq<FsEvent>, e2: Seq<FsEvent>)
    requires
        Some(spec_events_model(e1)) == spec_device_events(dev),
        Some(spec_events_model(e2)) == spec_device_events(dev),
    ensures
        spec_events_model(e1) == spec_events_model(e2),
{
}

/// The discovered-inode model an `InodeFound` event carries.
pub open spec fn spec_inode_event_model(e: FsEvent) -> InodeModel {
    match e {
        FsEvent::InodeFound {
            ag_number,
            ino,
            mode,
            size,
            uid,
            gid,
            nlink,
            mtime_sec,
            mtime_nsec,
            atime_sec,
            atime_nsec,
            ctime_sec,
            ctime_nsec,
            nblocks,
            extents,
        } => InodeModel {
            ag_number,
            ino,
            mode,
            size,
            uid,
            gid,
            nlink,
            mtime_sec,
            mtime_nsec,
            atime_sec,
            atime_nsec,
            ctime_sec,
            ctime_nsec,
            nblocks,
            extents: match extents {
                Option::None => Option::None,
                Option::Some(v) => Option::Some(v@),
            },
        },
        _ => InodeModel {
            ag_number: 0,
            ino: 0,
            mode: 0,
            size: 0,
            uid: 0,
            gid: 0,
            nlink: 0,
            mtime_sec: 0,
            mtime_nsec: 0,
            atime_sec: 0,
            atime_nsec: 0,
            ctime_sec: 0,
            ctime_nsec: 0,
            nblocks: 0,
            extents: Option::None,
        },
    }
}

/// Is `s` split at `ni` and `nf` into this AG's inodes, then its file
/// extent maps, then its directory entries?
pub open spec fn spec_segment_split(s: Seq<FsEvent>, agno: u32, ni: int, nf: int) -> bool {
    &&& 0 <= ni <= nf <= s.len()
    &&& forall|k: int|
        0 <= k < ni ==> is_inode_event(#[trigger] s[k]) && inode_event_ag(s[k]) == agno
    &&& forall|k: int| ni <= k < nf ==> is_file_extents_event(#[trigger] s[k])
    &&& forall|k: int| nf <= k < s.len() ==> is_dir_entry_event(#[trigger] s[k])
}

/// One AG's events in phase order: every `InodeFound` (all of this AG)
/// precedes every `FileExtents`, which precedes every `DirEntry`.
pub open spec fn spec_ag_segment(s: Seq<FsEvent>, agno: u32) -> bool {
    exists|ni: int, nf: int| spec_segment_split(s, agno, ni, nf)
}

/// Do the per-AG segments `segs` witness the ordering of the event
/// stream `s`?
pub open spec fn spec_segs_witness(segs: Seq<Seq<FsEvent>>, s: Seq<FsEvent>, ag_count: u32) -> bool {
    &&& segs.len() == ag_count
    &&& s == segs.flatten()
    &&& forall|a: int| 0 <= a < segs.len() ==> spec_ag_segment(#[trigger] segs[a], a as u32)
}

/// Event ordering: after the leading superblock event, the stream is the
/// concatenation of one segment per AG, in ascending AG order, each
/// segment in phase order.
pub open spec fn spec_events_ordered(s: Seq<FsEvent>, ag_count: u32) -> bool {
    exists|segs: Seq<Seq<FsEvent>>| spec_segs_witness(segs, s, ag_count)
}

/// Flattening any number of empty segments yields nothing.
proof fn lemma_flatten_empties(n: nat)
    ensures
        Seq::new(n, |a: int| Seq::<FsEvent>::empty()).flatten() =~= Seq::<FsEvent>::empty(),
    decreases n,
{
    let segs = Seq::new(n, |a: int| Seq::<FsEvent>::empty());
    if n == 0 {
        assert(segs.flatten() =~= Seq::<FsEvent>::empty());
    } else {
        lemma_flatten_empties((n - 1) as nat);
        assert(segs.drop_last() =~= Seq::new((n - 1) as nat, |a: int| Seq::<FsEvent>::empty()));
        segs.drop_last().lemma_flatten_push(segs.last());
        assert(segs.drop_last().push(segs.last()) =~= segs);
        assert(segs.flatten() =~= Seq::<FsEvent>::empty());
    }
}

/// An empty segment is a well-formed AG segment.
proof fn lemma_empty_segment(agno: u32)
    ensures
        spec_ag_segment(Seq::<FsEvent>::empty(), agno),
{
    assert(spec_segment_split(Seq::<FsEvent>::empty(), agno, 0, 0));
}

/// Build the `Superblock` event.
fn superblock_event(ctx: &FsContext) -> (r: FsEvent)
    ensures
        r == spec_superblock_event(*ctx),
{
    FsEvent::Superblock {
        block_size: ctx.block_size,
        ag_count: ctx.ag_count,
        inode_size: ctx.inode_size,
        root_ino: ctx.root_ino,
    }
}

/// Turn the discovered inodes into events, in order.
fn make_inode_events(infos: Vec<InodeInfo>) -> (r: Vec<FsEvent>)
    ensures
        r@.len() == infos@.len(),
        forall|k: int| 0 <= k < r@.len() ==> #[trigger] r@[k] == spec_inode_event(infos@[k]),
{
    let ghost orig = infos@;
    let mut infos = infos;
    let mut events: Vec<FsEvent> = Vec::new();
    while infos.len() > 0
        invariant
            events@.len() + infos@.len() == orig.len(),
            infos@ == orig.skip(events@.len() as int),
            forall|k: int|
                0 <= k < events@.len() ==> #[trigger] events@[k] == spec_inode_event(orig[k]),
        decreases infos@.len(),
    {
        proof {
            assert(orig.skip(events@.len() as int).remove(0) =~= orig.skip(events@.len() as int + 1));
        }
        let x = infos.remove(0);
        events.push(crate::scan_common::emit_inode_found(x));
    }
    events
}

/// Turn the file extent maps into events, in order.
fn make_fx_events(infos: Vec<FileExtentsInfo>) -> (r: Vec<FsEvent>)
    ensures
        r@.len() == infos@.len(),
        forall|k: int| 0 <= k < r@.len() ==> #[trigger] r@[k] == spec_fx_event(infos@[k]),
{
    let ghost orig = infos@;
    let mut infos = infos;
    let mut events: Vec<FsEvent> = Vec::new();
    while infos.len() > 0
        invariant
            events@.len() + infos@.len() == orig.len(),
            infos@ == orig.skip(events@.len() as int),
            forall|k: int|
                0 <= k < events@.len() ==> #[trigger] events@[k] == spec_fx_event(orig[k]),
        decreases infos@.len(),
    {
        proof {
            assert(orig.skip(events@.len() as int).remove(0) =~= orig.skip(events@.len() as int + 1));
        }
        let x = infos.remove(0);
        events.push(FsEvent::FileExtents { ino: x.ino, extents: x.extents });
    }
    events
}

/// Turn the directory entries into events, in order.
fn make_de_events(infos: Vec<DirEntryInfo>) -> (r: Vec<FsEvent>)
    ensures
        r@.len() == infos@.len(),
        forall|k: int| 0 <= k < r@.len() ==> #[trigger] r@[k] == spec_de_event(infos@[k]),
{
    let ghost orig = infos@;
    let mut infos = infos;
    let mut events: Vec<FsEvent> = Vec::new();
    while infos.len() > 0
        invariant
            events@.len() + infos@.len() == orig.len(),
            infos@ == orig.skip(events@.len() as int),
            forall|k: int|
                0 <= k < events@.len() ==> #[trigger] events@[k] == spec_de_event(orig[k]),
        decreases infos@.len(),
    {
        proof {
            assert(orig.skip(events@.len() as int).remove(0) =~= orig.skip(events@.len() as int + 1));
        }
        let x = infos.remove(0);
        events.push(
            FsEvent::DirEntry {
                parent_ino: x.parent_ino,
                child_ino: x.child_ino,
                name: x.name,
                file_type: x.file_type,
            },
        );
    }
    events
}

/// Collect one AG's events: its inodes, then its file extent maps, then
/// its directory entries.
fn collect_ag_events<R: IoReader>(reader: &mut R, ctx: &FsContext, agno: u32) -> (r: Result<
    Vec<FsEvent>,
    FxfspError,
>)
    requires
        ctx.wf(),
        agno < ctx.ag_count,
    ensures
        final(reader).device() == old(reader).device(),
        r matches Ok(v) ==> spec_ag_segment(v@, agno),
        r matches Ok(v) ==> Some(spec_events_model(v@)) == spec_device_ag_model(
            old(reader).device(),
            *ctx,
            agno,
        ),
{
    let ghost dev = old(reader).device();
    let agi = match crate::scan::read_agi(reader, ctx, agno) {
        Ok(a) => a,
        Err(e) => {
            return Err(e);
        },
    };
    let (inodes, work) = match crate::scan::scan_ag_inodes(reader, ctx, agno, &agi) {
        Ok(v) => v,
        Err(e) => {
            return Err(e);
        },
    };
    let ghost gw_bd = work.btree_dirs@;
    let ghost gw_bf = work.btree_files@;
    let ghost gw_dw = work.dir_work@;
    let ghost gw_sf = work.shortform_dirs@;
    let (fxs, dwork) = match crate::scan::resolve_ag_extents(reader, ctx, work) {
        Ok(v) => v,
        Err(e) => {
            return Err(e);
        },
    };
    let ghost gd_dw = dwork.dir_work@;
    let ghost gd_sf = dwork.shortform_dirs@;
    let des = match crate::scan::scan_ag_dirs(reader, ctx, dwork) {
        Ok(v) => v,
        Err(e) => {
            return Err(e);
        },
    };
    let ghost ginodes = inodes@;
    let ghost gfxs = fxs@;
    let ghost gdes = des@;
    let mut seg = make_inode_events(inodes);
    let mut fxe = make_fx_events(fxs);
    let mut dee = make_de_events(des);
    let ghost ni = seg@.len() as int;
    let ghost nf = ni + fxe@.len() as int;
    seg.append(&mut fxe);
    seg.append(&mut dee);
    proof {
        assert(spec_segment_split(seg@, agno, ni, nf));
        assert(spec_ag_segment(seg@, agno));
        match crate::scan::spec_device_ag_inodes(dev, *ctx, agno) {
            Option::None => {
                assert(false);
            },
            Option::Some(ms0) => {
                assert(ms0 == crate::staged::spec_inodes_view(ginodes));
            },
        }
        let ms = crate::scan::spec_device_ag_inodes(dev, *ctx, agno)->Some_0;
        let w = crate::scan::spec_device_ag_work(dev, *ctx, agno)->Some_0;
        assert(crate::scan::spec_device_ag_work(dev, *ctx, agno) is Some);
        assert(w.dirs == crate::scan_common::spec_dir_work_view(gw_dw));
        assert(w.sfs == crate::scan::spec_sf_view(gw_sf));
        assert(w.bdirs == crate::scan::spec_btree_view(gw_bd));
        assert(w.bfiles == crate::scan::spec_btree_view(gw_bf));
        // the bmbt inputs' view is the queued btree work
        crate::scan::lemma_btree_inputs_view(gw_bd);
        crate::scan::lemma_btree_inputs_view(gw_bf);
        assert(crate::xfs::bmbt::spec_dirs_view(
            crate::scan::spec_btree_inputs(gw_bd) + crate::scan::spec_btree_inputs(gw_bf),
        ) =~= w.bdirs + w.bfiles);
        let acc = crate::xfs::bmbt::spec_collect_bmbt_v(dev, *ctx, w.bdirs + w.bfiles)->Some_0;
        assert(crate::xfs::bmbt::spec_collect_bmbt_v(dev, *ctx, w.bdirs + w.bfiles) is Some);
        let item_inos = gw_bd.map_values(|d: crate::scan_common::BtreeDirItem| d.ino);
        let dir_inos = w.bdirs.map_values(|t: (u64, Seq<u8>, int)| t.0);
        assert(item_inos =~= dir_inos);
        let fxs_m = crate::scan::spec_split_files(acc, dir_inos);
        assert(crate::scan::spec_fx_view(gfxs) == fxs_m);
        let dirs2 = w.dirs + crate::scan::spec_split_dirs(acc, dir_inos);
        assert(crate::scan_common::spec_dir_work_view(gd_dw) == dirs2);
        assert(crate::scan::spec_sf_view(gd_sf) =~= w.sfs);
        crate::scan::lemma_ag_dir_entries_view(dev, *ctx, gd_dw, gd_sf);
        let des_m = crate::scan::spec_ag_dir_entries_v(dev, *ctx, dirs2, w.sfs)->Some_0;
        assert(crate::scan::spec_ag_dir_entries_v(dev, *ctx, dirs2, w.sfs) is Some);
        assert(crate::staged::spec_entries_view(gdes) == des_m);
        let target = ms.map_values(|m: InodeModel| EventModel::InodeFound(m)) + fxs_m.map_values(
            |f: FileExtentsModel| EventModel::FileExtents(f),
        ) + des_m.map_values(|d: DirEntryModel| EventModel::DirEntry(d));
        assert forall|k: int|
            0 <= k < seg@.len() implies #[trigger] spec_events_model(seg@)[k] == target[k] by {
            if k < ni {
                assert(seg@[k] == spec_inode_event(ginodes[k]));
                assert(spec_inode_event_model(spec_inode_event(ginodes[k])) == ginodes[k]@);
                assert(ms[k] == ginodes[k]@);
            } else if k < nf {
                assert(seg@[k] == spec_fx_event(gfxs[k - ni]));
                assert(fxs_m[k - ni] == gfxs[k - ni]@);
            } else {
                assert(seg@[k] == spec_de_event(gdes[k - nf]));
                assert(des_m[k - nf] == gdes[k - nf]@);
            }
        }
        assert(spec_events_model(seg@) =~= target);
    }
    Ok(seg)
}

/// Scan the filesystem and collect the whole event stream.
///
/// On success the first event is the `Superblock` event of the geometry
/// parsed from the device's first 4096 bytes, and the rest of the stream
/// is ordered AG by AG, each AG's inodes before its file extent maps
/// before its directory entries.
#[verifier::rlimit(100)]
#[verifier::spinoff_prover]
pub fn scan_collect<R: IoReader>(reader: &mut R) -> (r: Result<Vec<FsEvent>, FxfspError>)
    ensures
        final(reader).device() == old(reader).device(),
        r matches Ok(events) ==> {
            let ctx = FsContext::spec_from_superblock(
                spec_read_range(old(reader).device(), 0, 4096),
            );
            &&& FsContext::spec_superblock_ok(spec_read_range(old(reader).device(), 0, 4096))
            &&& events@.len() >= 1
            &&& events@[0] == spec_superblock_event(ctx)
            &&& spec_events_ordered(events@.skip(1), ctx.ag_count)
        },
        r matches Ok(events) ==> Some(spec_events_model(events@)) == spec_device_events(
            old(reader).device(),
        ),
{
    let ctx = match crate::scan::read_superblock_ctx(reader) {
        Ok(c) => c,
        Err(e) => {
            return Err(e);
        },
    };
    let mut events: Vec<FsEvent> = Vec::new();
    events.push(superblock_event(&ctx));
    let ghost mut segs: Seq<Seq<FsEvent>> = Seq::empty();
    let mut agno: u32 = 0;
    while agno < ctx.ag_count
        invariant
            ctx.wf(),
            reader.device() == old(reader).device(),
            agno <= ctx.ag_count,
            events@.len() >= 1,
            events@[0] == spec_superblock_event(ctx),
            segs.len() == agno,
            events@.skip(1) == segs.flatten(),
            forall|a: int| 0 <= a < segs.len() ==> spec_ag_segment(#[trigger] segs[a], a as u32),
            spec_device_ag_models(old(reader).device(), ctx, agno as int) == Some(
                spec_events_model(events@.skip(1)),
            ),
        decreases ctx.ag_count - agno,
    {
        let mut seg = match collect_ag_events(reader, &ctx, agno) {
            Ok(v) => v,
            Err(e) => {
                return Err(e);
            },
        };
        proof {
            segs.lemma_flatten_push(seg@);
        }
        let ghost seg_view = seg@;
        let ghost events0 = events@;
        events.append(&mut seg);
        proof {
            segs = segs.push(seg_view);
            assert(events@.skip(1) =~= segs.flatten());
            assert(events@.skip(1) =~= events0.skip(1) + seg_view);
            assert(spec_events_model(events@.skip(1)) =~= spec_events_model(events0.skip(1))
                + spec_events_model(seg_view));
        }
        agno = agno + 1;
    }
    proof {
        assert(spec_segs_witness(segs, events@.skip(1), ctx.ag_count));
        assert(spec_events_model(events@) =~= seq![spec_event_model(spec_superblock_event(ctx))]
            + spec_events_model(events@.skip(1)));
    }
    Ok(events)
}

/// Scan the filesystem, handing each event to `sink` in disk-sweep
/// order.
///
/// The sink receives the `Superblock` event of the device's geometry
/// first, then the per-AG events; every delivery is recorded in the
/// sink's history. The sink returns `false` to stop early: nothing is
/// delivered after a `false`, no further AG is read, and the scan
/// finishes with success — early stop is not an error. What was
/// delivered is always a prefix of an ordered event stream. All errors
/// are fatal; any corrupt metadata aborts the scan immediately, after
/// whatever was already delivered.
#[verifier::rlimit(60)]
pub fn scan_reader<R: IoReader, S: EventSink>(reader: &mut R, sink: &mut S) -> (r: Result<
    (),
    FxfspError,
>)
    ensures
        final(reader).device() == old(reader).device(),
        final(sink).log().len() >= old(sink).log().len(),
        final(sink).log().take(old(sink).log().len() as int) == old(sink).log(),
        r is Ok ==> ({
            let dev = old(reader).device();
            let sb = spec_read_range(dev, 0, 4096);
            let ctx = FsContext::spec_from_superblock(sb);
            let delivered = final(sink).log().skip(old(sink).log().len() as int);
            &&& FsContext::spec_superblock_ok(sb)
            &&& delivered.len() >= 1
            &&& delivered[0].0 == spec_superblock_event(ctx)
            &&& (forall|k: int| 0 <= k < delivered.len() - 1 ==> (#[trigger] delivered[k]).1)
            &&& exists|rest: Seq<FsEvent>| spec_events_ordered(
                spec_delivered_events(delivered.skip(1)) + rest,
                ctx.ag_count,
            )
            &&& ((forall|k: int| 0 <= k < delivered.len() ==> (#[trigger] delivered[k]).1)
                ==> Some(spec_events_model(spec_delivered_events(delivered)))
                == spec_device_events(dev))
        }),
{
    let ghost base = old(sink).log();
    let ctx = match crate::scan::read_superblock_ctx(reader) {
        Ok(c) => c,
        Err(e) => {
            return Err(e);
        },
    };
    let sb_event = superblock_event(&ctx);
    let cont = sink.on_event(&sb_event);
    if !cont {
        proof {
            let delivered = sink.log().skip(base.len() as int);
            assert(delivered =~= seq![(spec_superblock_event(ctx), false)]);
            assert(sink.log().take(base.len() as int) =~= base);
            lemma_flatten_empties(ctx.ag_count as nat);
            let segs = Seq::new(ctx.ag_count as nat, |a: int| Seq::<FsEvent>::empty());
            assert forall|a: int| 0 <= a < segs.len() implies spec_ag_segment(
                #[trigger] segs[a],
                a as u32,
            ) by {
                lemma_empty_segment(a as u32);
            }
            assert(spec_delivered_events(delivered.skip(1)) + segs.flatten()
                =~= segs.flatten());
            assert(spec_segs_witness(
                segs,
                spec_delivered_events(delivered.skip(1)) + segs.flatten(),
                ctx.ag_count,
            ));
            assert(spec_events_ordered(
                spec_delivered_events(delivered.skip(1)) + segs.flatten(),
                ctx.ag_count,
            ));
            assert(!delivered[delivered.len() - 1].1);
        }
        return Ok(());
    }
    let ghost mut segs_done: Seq<Seq<FsEvent>> = Seq::empty();
    proof {
        assert(sink.log().take(base.len() as int) =~= base);
        assert(spec_delivered_events(sink.log().skip(base.len() as int + 1))
            =~= segs_done.flatten());
    }
    let mut agno: u32 = 0;
    while agno < ctx.ag_count
        invariant
            base == old(sink).log(),
            ctx.wf(),
            ctx == FsContext::spec_from_superblock(
                spec_read_range(old(reader).device(), 0, 4096),
            ),
            FsContext::spec_superblock_ok(spec_read_range(old(reader).device(), 0, 4096)),
            reader.device() == old(reader).device(),
            agno <= ctx.ag_count,
            segs_done.len() == agno,
            forall|a: int|
                0 <= a < segs_done.len() ==> spec_ag_segment(#[trigger] segs_done[a], a as u32),
            sink.log().len() >= base.len() + 1,
            sink.log().take(base.len() as int) == base,
            sink.log()[base.len() as int] == (spec_superblock_event(ctx), true),
            spec_delivered_events(sink.log().skip(base.len() as int + 1)) == segs_done.flatten(),
            spec_device_ag_models(old(reader).device(), ctx, agno as int) == Some(
                spec_events_model(segs_done.flatten()),
            ),
            forall|q: int|
                base.len() <= q < sink.log().len() ==> (#[trigger] sink.log()[q]).1,
        decreases ctx.ag_count - agno,
    {
        let seg = match collect_ag_events(reader, &ctx, agno) {
            Ok(v) => v,
            Err(e) => {
                return Err(e);
            },
        };
        let mut k: usize = 0;
        while k < seg.len()
            invariant
                base == old(sink).log(),
                ctx.wf(),
                ctx == FsContext::spec_from_superblock(
                    spec_read_range(old(reader).device(), 0, 4096),
                ),
                FsContext::spec_superblock_ok(spec_read_range(old(reader).device(), 0, 4096)),
                reader.device() == old(reader).device(),
                agno < ctx.ag_count,
                spec_ag_segment(seg@, agno),
                k <= seg@.len(),
                segs_done.len() == agno,
                forall|a: int|
                    0 <= a < segs_done.len() ==> spec_ag_segment(
                        #[trigger] segs_done[a],
                        a as u32,
                    ),
                sink.log().len() >= base.len() + 1,
                sink.log().take(base.len() as int) == base,
                sink.log()[base.len() as int] == (spec_superblock_event(ctx), true),
                spec_delivered_events(sink.log().skip(base.len() as int + 1))
                    == segs_done.flatten() + seg@.take(k as int),
                forall|q: int|
                    base.len() <= q < sink.log().len() ==> (#[trigger] sink.log()[q]).1,
            decreases seg@.len() - k,
        {
            let ghost log0 = sink.log();
            let cont = sink.on_event(&seg[k]);
            if !cont {
                proof {
                    let delivered = sink.log().skip(base.len() as int);
                    assert(delivered.len() >= 2);
                    assert(delivered[0] == (spec_superblock_event(ctx), true));
                    assert forall|q: int| 0 <= q < delivered.len() - 1 implies (
                    #[trigger] delivered[q]).1 by {
                        assert(delivered[q] == sink.log()[base.len() + q]);
                        assert(sink.log()[base.len() + q] == log0[base.len() + q]);
                    }
                    assert(sink.log() == log0.push((seg@[k as int], false)));
                    assert(sink.log().skip(base.len() as int + 1) =~= log0.skip(
                        base.len() as int + 1,
                    ).push((seg@[k as int], false)));
                    let core = spec_delivered_events(delivered.skip(1));
                    assert(core =~= spec_delivered_events(
                        log0.skip(base.len() as int + 1),
                    ).push(seg@[k as int]));
                    assert(seg@.take(k + 1) =~= seg@.take(k as int).push(seg@[k as int]));
                    assert(core =~= segs_done.flatten() + seg@.take(k + 1));
                    let n_rest = (ctx.ag_count - agno - 1) as nat;
                    let empties = Seq::new(n_rest, |a: int| Seq::<FsEvent>::empty());
                    let segs = segs_done.push(seg@) + empties;
                    let rest = seg@.skip(k + 1);
                    lemma_flatten_empties(n_rest);
                    vstd::seq_lib::lemma_flatten_concat(segs_done.push(seg@), empties);
                    segs_done.lemma_flatten_push(seg@);
                    assert(seg@.take(k + 1) + seg@.skip(k + 1) =~= seg@);
                    assert(core + rest =~= segs.flatten());
                    assert forall|a: int| 0 <= a < segs.len() implies spec_ag_segment(
                        #[trigger] segs[a],
                        a as u32,
                    ) by {
                        if a < segs_done.len() {
                            assert(segs[a] == segs_done[a]);
                        } else if a == segs_done.len() {
                            assert(segs[a] == seg@);
                        } else {
                            assert(segs[a] =~= Seq::<FsEvent>::empty());
                            lemma_empty_segment(a as u32);
                        }
                    }
                    assert(spec_segs_witness(segs, core + rest, ctx.ag_count));
                    assert(spec_events_ordered(core + rest, ctx.ag_count));
                    assert(!delivered[delivered.len() - 1].1);
                }
                return Ok(());
            }
            k = k + 1;
            proof {
                assert(sink.log() == log0.push((seg@[k - 1], true)));
                assert(sink.log().take(base.len() as int) =~= base);
                assert(sink.log().skip(base.len() as int + 1) =~= log0.skip(
                    base.len() as int + 1,
                ).push((seg@[k - 1], true)));
                assert(seg@.take(k as int) =~= seg@.take(k - 1).push(seg@[k - 1]));
                assert(spec_delivered_events(sink.log().skip(base.len() as int + 1))
                    =~= segs_done.flatten() + seg@.take(k as int));
            }
        }
        proof {
            let flat0 = segs_done.flatten();
            segs_done.lemma_flatten_push(seg@);
            assert(seg@.take(seg@.len() as int) =~= seg@);
            segs_done = segs_done.push(seg@);
            assert(spec_delivered_events(sink.log().skip(base.len() as int + 1))
                =~= segs_done.flatten());
            assert(segs_done.flatten() =~= flat0 + seg@);
            assert(spec_events_model(segs_done.flatten()) =~= spec_events_model(flat0)
                + spec_events_model(seg@));
        }
        agno = agno + 1;
    }
    proof {
        let delivered = sink.log().skip(base.len() as int);
        assert(delivered.len() >= 1);
        assert(delivered[0] == (spec_superblock_event(ctx), true));
        assert forall|q: int| 0 <= q < delivered.len() - 1 implies (#[trigger] delivered[q]).1 by {
            assert(delivered[q] == sink.log()[base.len() + q]);
        }
        let core = spec_delivered_events(delivered.skip(1));
        assert(core =~= segs_done.flatten());
        assert(core + Seq::<FsEvent>::empty() =~= segs_done.flatten());
        assert(spec_segs_witness(segs_done, core + Seq::<FsEvent>::empty(), ctx.ag_count));
        assert(spec_events_ordered(core + Seq::<FsEvent>::empty(), ctx.ag_count));
        let devts = spec_delivered_events(delivered);
        assert(devts =~= seq![spec_superblock_event(ctx)] + spec_delivered_events(
            delivered.skip(1),
        ));
        assert(spec_events_model(devts) =~= seq![spec_event_model(spec_superblock_event(ctx))]
            + spec_events_model(segs_done.flatten()));
    }
    Ok(())
}

} // verus!
