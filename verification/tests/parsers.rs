//! Unit tests of the decoders, the geometry arithmetic and the B-tree
//! walkers, on hand-built buffers and tiny in-memory images.

use fxfsp::scan_common::align_up;
use fxfsp::sorting::{sort_requests, sort_u32};
use fxfsp::xfs::ag::AgiInfo;
use fxfsp::xfs::bmbt::{collect_all_bmbt_extents, BmbtDirInput};
use fxfsp::xfs::btree::collect_inobt_records;
use fxfsp::xfs::dir::block::parse_dir_data_block;
use fxfsp::xfs::dir::shortform::parse_shortform_dir;
use fxfsp::xfs::extent::{fsblock_to_byte, parse_extent_list, XfsBmbtRec};
use fxfsp::xfs::inode::parse_inode_core;
use fxfsp::xfs::superblock::{FormatVersion, FsContext};
use fxfsp::{FxfspError, IoRequest, MemReader};

fn wbe16(b: &mut [u8], off: usize, v: u16) {
    b[off..off + 2].copy_from_slice(&v.to_be_bytes());
}

fn wbe32(b: &mut [u8], off: usize, v: u32) {
    b[off..off + 4].copy_from_slice(&v.to_be_bytes());
}

fn wbe64(b: &mut [u8], off: usize, v: u64) {
    b[off..off + 8].copy_from_slice(&v.to_be_bytes());
}

/// A V5 superblock byte buffer: 4 KiB blocks, 512-byte inodes, 4 AGs of
/// 1024 blocks.
fn sample_superblock() -> Vec<u8> {
    let mut b = vec![0u8; 4096];
    wbe32(&mut b, 0, 0x58465342);
    wbe32(&mut b, 4, 4096);
    wbe64(&mut b, 56, 128);
    wbe32(&mut b, 84, 1024);
    wbe32(&mut b, 88, 4);
    wbe16(&mut b, 100, 0x8005);
    wbe16(&mut b, 102, 512);
    wbe16(&mut b, 104, 512);
    wbe16(&mut b, 106, 8);
    b[120] = 12;
    b[121] = 9;
    b[122] = 9;
    b[123] = 3;
    b[124] = 10;
    b[192] = 0;
    b
}

fn sample_ctx() -> FsContext {
    FsContext::from_superblock(&sample_superblock()).expect("sample superblock must parse")
}

// ---------------------------------------------------------------------------
// Superblock
// ---------------------------------------------------------------------------

#[test]
fn superblock_fields_decode_exactly() {
    let ctx = sample_ctx();
    assert_eq!(ctx.block_size, 4096);
    assert_eq!(ctx.block_log, 12);
    assert_eq!(ctx.ag_count, 4);
    assert_eq!(ctx.ag_blocks, 1024);
    assert_eq!(ctx.ag_blk_log, 10);
    assert_eq!(ctx.inode_size, 512);
    assert_eq!(ctx.inodes_per_block, 8);
    assert_eq!(ctx.root_ino, 128);
    assert_eq!(ctx.sect_size, 512);
    assert!(matches!(ctx.version, FormatVersion::V5));
    assert!(ctx.has_ftype, "V5 always stores directory entry file types");
    assert!(!ctx.has_nrext64);
}

#[test]
fn superblock_v4_ftype_comes_from_features2() {
    let mut b = sample_superblock();
    wbe16(&mut b, 100, 0x0004); // version 4
    let ctx = FsContext::from_superblock(&b).unwrap();
    assert!(matches!(ctx.version, FormatVersion::V4));
    assert!(!ctx.has_ftype);

    wbe32(&mut b, 200, 0x0200); // XFS_SB_VERSION2_FTYPE
    let ctx = FsContext::from_superblock(&b).unwrap();
    assert!(ctx.has_ftype);
}

#[test]
fn superblock_nrext64_comes_from_incompat_bit() {
    let mut b = sample_superblock();
    wbe32(&mut b, 216, 0x20);
    let ctx = FsContext::from_superblock(&b).unwrap();
    assert!(ctx.has_nrext64);
}

#[test]
fn superblock_wrong_magic_is_bad_magic() {
    let mut b = sample_superblock();
    b[0] = 0;
    assert!(matches!(
        FsContext::from_superblock(&b),
        Err(FxfspError::BadMagic(_))
    ));
}

#[test]
fn superblock_short_buffer_is_parse_error() {
    let b = sample_superblock();
    assert!(matches!(
        FsContext::from_superblock(&b[..100]),
        Err(FxfspError::Parse(_))
    ));
}

#[test]
fn superblock_bad_geometry_is_parse_error() {
    let mut b = sample_superblock();
    b[120] = 8; // block log below the 512-byte sector
    assert!(matches!(
        FsContext::from_superblock(&b),
        Err(FxfspError::Parse(_))
    ));
}

// ---------------------------------------------------------------------------
// Geometry: inode-number bijection, fsblock unpacking
// ---------------------------------------------------------------------------

#[test]
fn inode_number_bijection_on_samples() {
    let ctx = sample_ctx();
    // ino_shift = inopblog (3) + agblklog (10) = 13.
    for (agno, agino) in [(0u32, 0u32), (0, 128), (1, 1), (3, 8191), (2, 4096)] {
        let ino = ctx.agino_to_ino(agno, agino);
        assert_eq!(ctx.ino_to_agno(ino), agno);
        assert_eq!(ctx.ino_to_agino(ino), agino);
    }
    assert_eq!(ctx.agino_to_ino(1, 1), (1u64 << 13) | 1);
}

#[test]
fn fsblock_unpacking_matches_ag_components() {
    let ctx = sample_ctx();
    for (agno, agblock) in [(0u32, 0u32), (0, 50), (1, 1), (3, 1023)] {
        let packed = ((agno as u64) << 10) | agblock as u64;
        assert_eq!(
            fsblock_to_byte(&ctx, packed),
            ctx.ag_block_to_byte(agno, agblock),
        );
    }
    // ag_blocks equals 1 << ag_blk_log here, so AG 1 starts right after
    // AG 0's 1024 blocks.
    assert_eq!(fsblock_to_byte(&ctx, 1u64 << 10), 1024 * 4096);
}

#[test]
fn ino_to_disk_position_of_root() {
    let ctx = sample_ctx();
    let (block_byte, within) = ctx.ino_to_disk_position(128);
    assert_eq!(block_byte, 16 * 4096); // agino 128 / 8 inodes per block
    assert_eq!(within, 0);
    let (block_byte, within) = ctx.ino_to_disk_position(131);
    assert_eq!(block_byte, 16 * 4096);
    assert_eq!(within, 3 * 512);
}

// ---------------------------------------------------------------------------
// Extent records
// ---------------------------------------------------------------------------

#[test]
fn extent_record_unpacks_documented_bit_fields() {
    let logical: u64 = 3;
    let start: u64 = 0x12345;
    let count: u64 = 5;
    let l0 = (logical << 9) | (start >> 43);
    let l1 = ((start & 0x7FF_FFFF_FFFF) << 21) | count;
    let e = XfsBmbtRec { l0, l1 }.unpack();
    assert_eq!(e.logical_offset, logical);
    assert_eq!(e.start_block, start);
    assert_eq!(e.block_count, count);
    assert!(!e.is_unwritten);

    let e = XfsBmbtRec { l0: l0 | (1u64 << 63), l1 }.unpack();
    assert!(e.is_unwritten);
    assert_eq!(e.logical_offset, logical);
}

#[test]
fn extent_record_repacking_preserves_the_words() {
    // Decode then re-encode: the four fields partition all 128 bits.
    let l0: u64 = 0x8123_4567_89ab_cdef;
    let l1: u64 = 0x0fed_cba9_8765_4321;
    let e = XfsBmbtRec { l0, l1 }.unpack();
    let u: u64 = if e.is_unwritten { 1 } else { 0 };
    let r0 = (u << 63) | (e.logical_offset << 9) | (e.start_block >> 43);
    let r1 = ((e.start_block & 0x7FF_FFFF_FFFF) << 21) | e.block_count;
    assert_eq!(r0, l0);
    assert_eq!(r1, l1);
}

#[test]
fn extent_list_parses_in_on_disk_order() {
    let mut b = vec![0u8; 32];
    // Second record has a smaller logical offset: order must be kept.
    wbe64(&mut b, 0, 7u64 << 9);
    wbe64(&mut b, 8, (40u64 << 21) | 2);
    wbe64(&mut b, 16, 0);
    wbe64(&mut b, 24, (90u64 << 21) | 1);
    let exts = parse_extent_list(&b, 2).unwrap();
    assert_eq!(exts.len(), 2);
    assert_eq!(exts[0].logical_offset, 7);
    assert_eq!(exts[0].start_block, 40);
    assert_eq!(exts[0].block_count, 2);
    assert_eq!(exts[1].logical_offset, 0);
    assert_eq!(exts[1].start_block, 90);
}

#[test]
fn extent_list_out_of_bounds_is_parse_error() {
    let b = vec![0u8; 24];
    assert!(matches!(parse_extent_list(&b, 2), Err(FxfspError::Parse(_))));
}

// ---------------------------------------------------------------------------
// Inode core
// ---------------------------------------------------------------------------

fn sample_inode() -> Vec<u8> {
    let mut b = vec![0u8; 512];
    wbe16(&mut b, 0, 0x494e);
    wbe16(&mut b, 2, 0o100644);
    b[4] = 3;
    b[5] = 2; // extents format
    wbe32(&mut b, 8, 1000); // uid
    wbe32(&mut b, 12, 100); // gid
    wbe32(&mut b, 16, 1); // nlink
    wbe32(&mut b, 32, 11); // atime
    wbe32(&mut b, 36, 12);
    wbe32(&mut b, 40, 21); // mtime
    wbe32(&mut b, 44, 22);
    wbe32(&mut b, 48, 31); // ctime
    wbe32(&mut b, 52, 32);
    wbe64(&mut b, 56, 6); // size
    wbe64(&mut b, 64, 1); // nblocks
    wbe32(&mut b, 76, 1); // nextents
    b
}

#[test]
fn inode_core_fields_decode_exactly() {
    let b = sample_inode();
    let info = parse_inode_core(&b, 130, true, false, 512).unwrap();
    assert_eq!(info.ino, 130);
    assert_eq!(info.mode, 0o100644);
    assert_eq!(info.format, 2);
    assert_eq!(info.size, 6);
    assert_eq!(info.uid, 1000);
    assert_eq!(info.gid, 100);
    assert_eq!(info.nlink, 1);
    assert_eq!(info.nextents, 1);
    assert_eq!(info.atime_sec, 11);
    assert_eq!(info.atime_nsec, 12);
    assert_eq!(info.mtime_sec, 21);
    assert_eq!(info.mtime_nsec, 22);
    assert_eq!(info.ctime_sec, 31);
    assert_eq!(info.ctime_nsec, 32);
    assert_eq!(info.nblocks, 1);
    assert_eq!(info.data_fork_offset, 176);
    assert_eq!(info.data_fork_size, 512 - 176);
    assert!(info.is_regular());
    assert!(!info.is_dir());
    assert!(!info.is_symlink());
}

#[test]
fn inode_core_v4_fork_starts_at_96() {
    let b = sample_inode();
    let info = parse_inode_core(&b, 1, false, false, 256).unwrap();
    assert_eq!(info.data_fork_offset, 96);
    assert_eq!(info.data_fork_size, 256 - 96);
}

#[test]
fn inode_core_wrong_magic_is_bad_magic() {
    let mut b = sample_inode();
    b[0] = 0;
    assert!(matches!(
        parse_inode_core(&b, 1, true, false, 512),
        Err(FxfspError::BadMagic(_))
    ));
}

#[test]
fn inode_core_nrext64_uses_the_48_bit_field() {
    let mut b = sample_inode();
    wbe32(&mut b, 76, 0); // legacy field zeroed
    wbe64(&mut b, 24, 0x0000_0000_0001_0002); // low 48 bits
    let info = parse_inode_core(&b, 1, true, true, 512).unwrap();
    assert_eq!(info.nextents, 0x0001_0002);
}

#[test]
fn inode_core_nrext64_overflow_is_parse_error() {
    let mut b = sample_inode();
    wbe64(&mut b, 24, 0x0000_7fff_ffff_ffff); // exceeds u32
    assert!(matches!(
        parse_inode_core(&b, 1, true, true, 512),
        Err(FxfspError::Parse(_))
    ));
}

// ---------------------------------------------------------------------------
// AGI
// ---------------------------------------------------------------------------

fn sample_agi() -> Vec<u8> {
    let mut b = vec![0u8; 512];
    wbe32(&mut b, 0, 0x58414749);
    wbe32(&mut b, 4, 1);
    wbe32(&mut b, 8, 2); // seqno
    wbe32(&mut b, 20, 8); // root
    wbe32(&mut b, 24, 1); // level
    b
}

#[test]
fn agi_decodes_root_and_level() {
    let agi = AgiInfo::from_buf(&sample_agi(), 2, FormatVersion::V5).unwrap();
    assert_eq!(agi.ag_number, 2);
    assert_eq!(agi.inobt_root, 8);
    assert_eq!(agi.inobt_level, 1);
}

#[test]
fn agi_wrong_magic_is_bad_magic() {
    let mut b = sample_agi();
    b[0] = 0;
    assert!(matches!(
        AgiInfo::from_buf(&b, 2, FormatVersion::V5),
        Err(FxfspError::BadMagic(_))
    ));
}

#[test]
fn agi_seqno_mismatch_is_parse_error() {
    assert!(matches!(
        AgiInfo::from_buf(&sample_agi(), 3, FormatVersion::V5),
        Err(FxfspError::Parse(_))
    ));
}

// ---------------------------------------------------------------------------
// Shortform directories
// ---------------------------------------------------------------------------

#[test]
fn shortform_dir_synthesizes_dot_entries_first() {
    let ctx = sample_ctx();
    // count 1, 4-byte parent 128, one entry "a" -> ino 200, ftype 1.
    let mut f = vec![0u8; 6 + 1 + 2 + 1 + 1 + 4];
    f[0] = 1;
    f[1] = 0;
    wbe32(&mut f, 2, 128);
    f[6] = 1; // namelen
    f[9] = b'a';
    f[10] = 1; // ftype
    wbe32(&mut f, 11, 200);
    let entries = parse_shortform_dir(&f, 131, &ctx).unwrap();
    assert_eq!(entries.len(), 3);
    assert_eq!(entries[0].name, b".");
    assert_eq!(entries[0].child_ino, 131);
    assert_eq!(entries[0].file_type, 0);
    assert_eq!(entries[1].name, b"..");
    assert_eq!(entries[1].child_ino, 128);
    assert_eq!(entries[1].file_type, 0);
    assert_eq!(entries[2].name, b"a");
    assert_eq!(entries[2].child_ino, 200);
    assert_eq!(entries[2].file_type, 1);
}

#[test]
fn shortform_dir_8_byte_variant_reads_wide_inodes() {
    let ctx = sample_ctx();
    let big_parent: u64 = 0x1_0000_0042;
    let big_child: u64 = 0x2_0000_0099;
    let mut f = vec![0u8; 10 + 1 + 2 + 1 + 1 + 8];
    f[0] = 1;
    f[1] = 1; // i8count > 0: 8-byte inode numbers
    wbe64(&mut f, 2, big_parent);
    f[10] = 1;
    f[13] = b'z';
    f[14] = 2;
    wbe64(&mut f, 15, big_child);
    let entries = parse_shortform_dir(&f, 131, &ctx).unwrap();
    assert_eq!(entries[1].child_ino, big_parent);
    assert_eq!(entries[2].child_ino, big_child);
    assert_eq!(entries[2].file_type, 2);
}

#[test]
fn shortform_dir_truncated_entry_is_parse_error() {
    let ctx = sample_ctx();
    let mut f = vec![0u8; 8];
    f[0] = 1;
    wbe32(&mut f, 2, 128);
    f[6] = 30; // name length far past the fork end
    assert!(matches!(
        parse_shortform_dir(&f, 131, &ctx),
        Err(FxfspError::Parse(_))
    ));
}

// ---------------------------------------------------------------------------
// Directory data blocks
// ---------------------------------------------------------------------------

#[test]
fn dir_block_foreign_magic_is_skipped() {
    let ctx = sample_ctx();
    let mut b = vec![0u8; 4096];
    wbe32(&mut b, 0, 0x58444633); // "XDF3": free-space block, not data
    let entries = parse_dir_data_block(&b, 7, &ctx).unwrap();
    assert!(entries.is_empty(), "foreign blocks yield no entries and no error");
}

#[test]
fn dir_block_parses_used_and_free_entries() {
    let ctx = sample_ctx();
    let mut b = vec![0u8; 4096];
    wbe32(&mut b, 0, 0x58444433); // "XDD3"
    let mut off = 64;
    // Used entry: ino 300, "file_a", ftype 1; raw 8+1+6+1+2=18, padded 24.
    wbe64(&mut b, off, 300);
    b[off + 8] = 6;
    b[off + 9..off + 15].copy_from_slice(b"file_a");
    b[off + 15] = 1;
    off += 24;
    // Free entry of 16 bytes.
    wbe16(&mut b, off, 0xffff);
    wbe16(&mut b, off + 2, 16);
    off += 16;
    // Second used entry: ino 301, "b", ftype 2; raw 13, padded 16.
    wbe64(&mut b, off, 301);
    b[off + 8] = 1;
    b[off + 9] = b'b';
    b[off + 10] = 2;
    off += 16;
    // Closing free entry to the block end.
    wbe16(&mut b, off, 0xffff);
    wbe16(&mut b, off + 2, (4096 - off) as u16);

    let entries = parse_dir_data_block(&b, 7, &ctx).unwrap();
    assert_eq!(entries.len(), 2);
    assert_eq!(entries[0].parent_ino, 7);
    assert_eq!(entries[0].child_ino, 300);
    assert_eq!(entries[0].name, b"file_a");
    assert_eq!(entries[0].file_type, 1);
    assert_eq!(entries[1].child_ino, 301);
    assert_eq!(entries[1].name, b"b");
    assert_eq!(entries[1].file_type, 2);
}

#[test]
fn dir_block_format_tail_limits_the_data_region() {
    let ctx = sample_ctx();
    let mut b = vec![0u8; 4096];
    wbe32(&mut b, 0, 0x58444233); // "XDB3": block format with leaf tail
    let mut off = 64;
    wbe64(&mut b, off, 400);
    b[off + 8] = 1;
    b[off + 9] = b'x';
    b[off + 10] = 1;
    off += 16;
    // Everything after the first entry is free space...
    wbe16(&mut b, off, 0xffff);
    wbe16(&mut b, off + 2, (4096 - off - 8 - 16) as u16);
    // ... up to a leaf section of two 8-byte entries plus the tail.
    wbe32(&mut b, 4096 - 8, 2); // leaf count
    // A fake entry inside the leaf section must not be decoded.
    wbe64(&mut b, 4096 - 24, 500);

    let entries = parse_dir_data_block(&b, 7, &ctx).unwrap();
    assert_eq!(entries.len(), 1);
    assert_eq!(entries[0].child_ino, 400);
}

#[test]
fn dir_block_too_small_is_parse_error() {
    let ctx = sample_ctx();
    let b = vec![0u8; 2];
    assert!(matches!(
        parse_dir_data_block(&b, 7, &ctx),
        Err(FxfspError::Parse(_))
    ));
}

// ---------------------------------------------------------------------------
// Inobt walking over a two-level tree
// ---------------------------------------------------------------------------

#[test]
fn inobt_walk_collects_leaves_of_a_two_level_tree() {
    let ctx = sample_ctx();
    let mut img = vec![0u8; 1024 * 4096];
    // Root interior block at AG block 8, level 1, two children 20 and 12
    // (deliberately unsorted: the walk must read them ascending).
    let base = 8 * 4096;
    wbe32(&mut img, base, 0x49414233);
    wbe16(&mut img, base + 4, 1);
    wbe16(&mut img, base + 6, 2);
    // Pointer array sits after maxrecs keys: maxrecs = (4096-56)/8 = 505.
    let ptr_off = base + 56 + 505 * 4;
    wbe32(&mut img, ptr_off, 20);
    wbe32(&mut img, ptr_off + 4, 12);
    // Leaf at block 12: one record starting at agino 64.
    let leaf = 12 * 4096;
    wbe32(&mut img, leaf, 0x49414233);
    wbe16(&mut img, leaf + 4, 0);
    wbe16(&mut img, leaf + 6, 1);
    wbe32(&mut img, leaf + 56, 64);
    img[leaf + 56 + 6] = 64;
    // Leaf at block 20: one record starting at agino 256.
    let leaf = 20 * 4096;
    wbe32(&mut img, leaf, 0x49414233);
    wbe16(&mut img, leaf + 4, 0);
    wbe16(&mut img, leaf + 6, 1);
    wbe32(&mut img, leaf + 56, 256);
    img[leaf + 56 + 6] = 64;

    let mut reader = MemReader::new(img);
    let recs = collect_inobt_records(&mut reader, &ctx, 0, 8, 2).unwrap();
    assert_eq!(recs.len(), 2);
    // Sorted block order: block 12's record first.
    assert_eq!(recs[0].ir_startino, 64);
    assert_eq!(recs[1].ir_startino, 256);
}

#[test]
fn inobt_walk_level_mismatch_is_parse_error() {
    let ctx = sample_ctx();
    let mut img = vec![0u8; 1024 * 4096];
    let base = 8 * 4096;
    wbe32(&mut img, base, 0x49414233);
    wbe16(&mut img, base + 4, 3); // header level does not match AGI level 1
    let mut reader = MemReader::new(img);
    assert!(matches!(
        collect_inobt_records(&mut reader, &ctx, 0, 8, 1),
        Err(FxfspError::Parse(_))
    ));
}

// ---------------------------------------------------------------------------
// Bmbt walking
// ---------------------------------------------------------------------------

#[test]
fn bmbt_walk_resolves_a_one_level_tree() {
    let ctx = sample_ctx();
    let mut img = vec![0u8; 1024 * 4096];
    // On-disk leaf at fsblock 60 with two extent records.
    let leaf = 60 * 4096;
    wbe32(&mut img, leaf, 0x424d4133); // "BMA3"
    wbe16(&mut img, leaf + 4, 0);
    wbe16(&mut img, leaf + 6, 2);
    wbe64(&mut img, leaf + 72, 0); // logical 0
    wbe64(&mut img, leaf + 80, (100u64 << 21) | 3);
    wbe64(&mut img, leaf + 88, 3u64 << 9); // logical 3
    wbe64(&mut img, leaf + 96, (200u64 << 21) | 1);

    // In-inode root: level 1, one child pointer to fsblock 60. The fork
    // area is 336 bytes, so maxrecs = (336-4)/16 = 20 and the pointers
    // start at 4 + 20*8 = 164.
    let mut fork = vec![0u8; 336];
    wbe16(&mut fork, 0, 1);
    wbe16(&mut fork, 2, 1);
    wbe64(&mut fork, 164, 60);

    let dirs = vec![BmbtDirInput { ino: 77, fork_data: fork, data_fork_size: 336 }];
    let mut reader = MemReader::new(img);
    let results = collect_all_bmbt_extents(&mut reader, &ctx, &dirs).unwrap();
    assert_eq!(results.len(), 1);
    let (ino, exts) = &results[0];
    assert_eq!(*ino, 77);
    assert_eq!(exts.len(), 2);
    assert_eq!(exts[0].start_block, 100);
    assert_eq!(exts[0].block_count, 3);
    assert_eq!(exts[1].logical_offset, 3);
    assert_eq!(exts[1].start_block, 200);
}

#[test]
fn bmbt_inline_leaf_root_needs_no_reads() {
    let ctx = sample_ctx();
    let mut fork = vec![0u8; 336];
    wbe16(&mut fork, 0, 0); // leaf-level root
    wbe16(&mut fork, 2, 1);
    wbe64(&mut fork, 4, 5u64 << 9);
    wbe64(&mut fork, 12, (42u64 << 21) | 2);
    let dirs = vec![BmbtDirInput { ino: 9, fork_data: fork, data_fork_size: 336 }];
    let mut reader = MemReader::new(vec![0u8; 4096]);
    let results = collect_all_bmbt_extents(&mut reader, &ctx, &dirs).unwrap();
    assert_eq!(results.len(), 1);
    assert_eq!(results[0].0, 9);
    assert_eq!(results[0].1.len(), 1);
    assert_eq!(results[0].1[0].logical_offset, 5);
    assert_eq!(results[0].1[0].start_block, 42);
    assert_eq!(results[0].1[0].block_count, 2);
}

#[test]
fn bmbt_wrong_magic_is_bad_magic() {
    let ctx = sample_ctx();
    let img = vec![0u8; 1024 * 4096]; // zeroed block: wrong magic
    let mut fork = vec![0u8; 336];
    wbe16(&mut fork, 0, 1);
    wbe16(&mut fork, 2, 1);
    wbe64(&mut fork, 164, 60);
    let dirs = vec![BmbtDirInput { ino: 1, fork_data: fork, data_fork_size: 336 }];
    let mut reader = MemReader::new(img);
    assert!(matches!(
        collect_all_bmbt_extents(&mut reader, &ctx, &dirs),
        Err(FxfspError::BadMagic(_))
    ));
}

// ---------------------------------------------------------------------------
// Sorting and small helpers
// ---------------------------------------------------------------------------

#[test]
fn sort_u32_orders_ascending() {
    let v = sort_u32(vec![5, 1, 4, 1, 3]);
    assert_eq!(v, vec![1, 1, 3, 4, 5]);
}

#[test]
fn sort_requests_orders_by_offset_keeping_ties() {
    let reqs = vec![
        IoRequest { offset: 4096, len: 512, tag: 1 },
        IoRequest { offset: 0, len: 512, tag: 2 },
        IoRequest { offset: 4096, len: 512, tag: 3 },
    ];
    let sorted = sort_requests(reqs);
    assert_eq!(sorted[0].tag, 2);
    assert_eq!(sorted[1].tag, 1);
    assert_eq!(sorted[2].tag, 3, "equal offsets keep their order");
}

#[test]
fn align_up_rounds_to_the_next_multiple() {
    assert_eq!(align_up(0, 512), 0);
    assert_eq!(align_up(1, 512), 512);
    assert_eq!(align_up(512, 512), 512);
    assert_eq!(align_up(513, 512), 1024);
    assert_eq!(align_up(4095, 4096), 4096);
}
