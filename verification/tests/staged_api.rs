//! Tests of the phased API on a one-AG image holding a btree-format
//! regular file, so the file-extent phase has real work to do.

use fxfsp::staged::{parse_superblock, FsScanner};
use fxfsp::MemReader;

fn swbe16(b: &mut [u8], off: usize, v: u16) {
    b[off..off + 2].copy_from_slice(&v.to_be_bytes());
}

fn swbe32(b: &mut [u8], off: usize, v: u32) {
    b[off..off + 4].copy_from_slice(&v.to_be_bytes());
}

fn swbe64(b: &mut [u8], off: usize, v: u64) {
    b[off..off + 8].copy_from_slice(&v.to_be_bytes());
}

/// One AG of 1024 4-KiB blocks; root directory (shortform) holds `big`,
/// a btree-format regular file with one extent of 4 blocks at block 100.
fn build_one_ag_image() -> Vec<u8> {
    let mut img = vec![0u8; 1024 * 4096];
    // Superblock.
    swbe32(&mut img, 0, 0x58465342);
    swbe32(&mut img, 4, 4096);
    swbe64(&mut img, 56, 128); // root inode
    swbe32(&mut img, 84, 1024);
    swbe32(&mut img, 88, 1); // one AG
    swbe16(&mut img, 100, 0x8005);
    swbe16(&mut img, 102, 512);
    swbe16(&mut img, 104, 512);
    swbe16(&mut img, 106, 8);
    img[120] = 12;
    img[121] = 9;
    img[122] = 9;
    img[123] = 3;
    img[124] = 10;
    // AGI.
    swbe32(&mut img, 1024, 0x58414749);
    swbe32(&mut img, 1024 + 8, 0);
    swbe32(&mut img, 1024 + 20, 8);
    swbe32(&mut img, 1024 + 24, 1);
    // Inobt root: one chunk at agino 128, slots 0 and 1 allocated.
    let base = 8 * 4096;
    swbe32(&mut img, base, 0x49414233);
    swbe16(&mut img, base + 4, 0);
    swbe16(&mut img, base + 6, 1);
    swbe32(&mut img, base + 56, 128);
    img[base + 56 + 6] = 2; // count
    img[base + 56 + 7] = 62; // freecount
    swbe64(&mut img, base + 56 + 8, !0u64 << 2); // free bitmap

    // Root directory inode at agino 128 (block 16, slot 0): shortform
    // with one entry "big" -> 129.
    let ibase = 16 * 4096;
    swbe16(&mut img, ibase, 0x494e);
    swbe16(&mut img, ibase + 2, 0o040755);
    img[ibase + 4] = 3;
    img[ibase + 5] = 1; // local format
    swbe32(&mut img, ibase + 16, 2); // nlink
    swbe64(&mut img, ibase + 56, 17); // fork size: 6 + (1+2+3+1+4)
    let fork = ibase + 176;
    img[fork] = 1;
    img[fork + 1] = 0;
    swbe32(&mut img, fork + 2, 128);
    img[fork + 6] = 3;
    img[fork + 9..fork + 12].copy_from_slice(b"big");
    img[fork + 12] = 1;
    swbe32(&mut img, fork + 13, 129);

    // `big` at agino 129: btree-format regular file; in-inode root has
    // level 1 and one child pointer (after 20 key slots) to block 60.
    let ibase = 16 * 4096 + 512;
    swbe16(&mut img, ibase, 0x494e);
    swbe16(&mut img, ibase + 2, 0o100644);
    img[ibase + 4] = 3;
    img[ibase + 5] = 3; // btree format
    swbe32(&mut img, ibase + 16, 1);
    swbe64(&mut img, ibase + 56, 16384); // size
    swbe64(&mut img, ibase + 64, 4); // nblocks
    let fork = ibase + 176;
    swbe16(&mut img, fork, 1); // level
    swbe16(&mut img, fork + 2, 1); // numrecs
    swbe64(&mut img, fork + 4 + 20 * 8, 60); // child pointer

    // Bmbt leaf at block 60: one extent, 4 blocks at block 100.
    let leaf = 60 * 4096;
    swbe32(&mut img, leaf, 0x424d4133);
    swbe16(&mut img, leaf + 4, 0);
    swbe16(&mut img, leaf + 6, 1);
    swbe64(&mut img, leaf + 72, 0);
    swbe64(&mut img, leaf + 80, (100u64 << 21) | 4);

    img
}

fn scanner() -> FsScanner<MemReader> {
    let (sb, scanner) = parse_superblock(MemReader::new(build_one_ag_image()))
        .expect("superblock should parse");
    assert_eq!(sb.block_size, 4096);
    assert_eq!(sb.ag_count, 1);
    assert_eq!(sb.ag_blocks, 1024);
    assert_eq!(sb.inode_size, 512);
    assert_eq!(sb.root_ino, 128);
    scanner
}

#[test]
fn staged_phases_run_in_order() {
    let mut fs = scanner();
    let ag = fs.next_ag().expect("one AG to scan").expect("AGI should parse");
    assert_eq!(ag.ag_number(), 0);

    let (inodes, extent_phase) = ag.scan_inodes(&mut fs).expect("inode scan should succeed");
    assert_eq!(inodes.len(), 2);
    assert_eq!(inodes[0].ino, 128);
    assert_eq!(inodes[1].ino, 129);
    assert!(inodes[1].extents.is_none(), "btree-format extents are not inline");

    let (file_extents, dir_phase) =
        extent_phase.scan_file_extents(&mut fs).expect("bmbt sweep should succeed");
    assert_eq!(file_extents.len(), 1, "one btree-format regular file");
    assert_eq!(file_extents[0].ino, 129);
    assert_eq!(file_extents[0].extents.len(), 1);
    assert_eq!(file_extents[0].extents[0].start_block, 100);
    assert_eq!(file_extents[0].extents[0].block_count, 4);
    assert!(!file_extents[0].extents[0].is_unwritten);

    let entries = dir_phase.scan_dir_entries(&mut fs).expect("dir scan should succeed");
    assert_eq!(entries.len(), 3); // ".", "..", "big"
    assert_eq!(entries[0].name, b".");
    assert_eq!(entries[1].name, b"..");
    assert_eq!(entries[2].name, b"big");
    assert_eq!(entries[2].child_ino, 129);

    assert!(fs.next_ag().is_none(), "no second AG");
}

#[test]
fn staged_superblock_accessors_report_the_geometry() {
    let fs = scanner();
    let sb = fs.superblock();
    assert_eq!(sb.block_size, 4096);
    assert_eq!(sb.root_ino, 128);
    let ctx = fs.context();
    assert_eq!(ctx.block_log, 12);
    assert_eq!(ctx.inodes_per_block, 8);
}

#[test]
fn staged_skip_extents_still_feeds_the_dir_phase() {
    let mut fs = scanner();
    let ag = fs.next_ag().unwrap().unwrap();
    let (_inodes, extent_phase) = ag.scan_inodes(&mut fs).unwrap();
    let dir_phase = extent_phase.skip_extents(&mut fs);
    let entries = dir_phase.scan_dir_entries(&mut fs).unwrap();
    assert_eq!(entries.len(), 3, "shortform entries survive the skipped extent phase");
}

#[test]
fn staged_skip_dirs_is_a_clean_finish() {
    let mut fs = scanner();
    let ag = fs.next_ag().unwrap().unwrap();
    let (_inodes, extent_phase) = ag.scan_inodes(&mut fs).unwrap();
    let (_fx, dir_phase) = extent_phase.scan_file_extents(&mut fs).unwrap();
    assert!(dir_phase.skip_dirs().is_ok());
}

#[test]
fn scan_collect_emits_file_extents_for_btree_files() {
    let mut reader = MemReader::new(build_one_ag_image());
    let events = fxfsp::scan_collect(&mut reader).expect("scan should succeed");
    let mut saw = false;
    for event in &events {
        if let fxfsp::FsEvent::FileExtents { ino, extents } = event {
            saw = true;
            assert_eq!(*ino, 129);
            assert_eq!(extents.len(), 1);
            assert_eq!(extents[0].start_block, 100);
        }
    }
    assert!(saw, "the btree-format file must produce a FileExtents event");
}
