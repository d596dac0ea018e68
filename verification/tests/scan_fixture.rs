//! End-to-end scan tests over an in-memory V5 filesystem image: 4 KiB
//! blocks, 4 AGs, 512-byte inodes. The root directory (shortform) holds
//! `empty_file`, `hello.txt` ("hello\n") and `subdir`; `subdir` is an
//! extents-format directory of two data blocks holding `nested.txt`
//! ("nested\n") and `file_1` .. `file_200` as empty regular files.

use std::collections::{HashMap, HashSet};

use fxfsp::xfs::extent::fsblock_to_byte;
use fxfsp::xfs::superblock::FsContext;
use fxfsp::{scan_collect, Extent, FsEvent, MemReader};

const BLOCK_SIZE: usize = 4096;
const AG_BLOCKS: usize = 1024;
const AG_COUNT: usize = 4;
const INODE_SIZE: usize = 512;
const ROOT_INO: u64 = 128;

fn wbe16(img: &mut [u8], off: usize, v: u16) {
    img[off..off + 2].copy_from_slice(&v.to_be_bytes());
}

fn wbe32(img: &mut [u8], off: usize, v: u32) {
    img[off..off + 4].copy_from_slice(&v.to_be_bytes());
}

fn wbe64(img: &mut [u8], off: usize, v: u64) {
    img[off..off + 8].copy_from_slice(&v.to_be_bytes());
}

fn write_superblock(img: &mut [u8]) {
    wbe32(img, 0, 0x58465342); // "XFSB"
    wbe32(img, 4, BLOCK_SIZE as u32);
    wbe64(img, 56, ROOT_INO);
    wbe32(img, 84, AG_BLOCKS as u32);
    wbe32(img, 88, AG_COUNT as u32);
    wbe16(img, 100, 0x8005); // version 5
    wbe16(img, 102, 512); // sector size
    wbe16(img, 104, INODE_SIZE as u16);
    wbe16(img, 106, (BLOCK_SIZE / INODE_SIZE) as u16);
    img[120] = 12; // blocklog
    img[121] = 9; // sectlog
    img[122] = 9; // inodelog
    img[123] = 3; // inopblog
    img[124] = 10; // agblklog
    img[192] = 0; // dirblklog
    wbe32(img, 200, 0); // features2
    wbe32(img, 216, 0); // features_incompat
}

fn write_agi(img: &mut [u8], agno: usize) {
    let base = agno * AG_BLOCKS * BLOCK_SIZE + 1024;
    wbe32(img, base, 0x58414749); // "XAGI"
    wbe32(img, base + 4, 1); // version
    wbe32(img, base + 8, agno as u32); // seqno
    wbe32(img, base + 12, AG_BLOCKS as u32);
    wbe32(img, base + 20, 8); // inobt root block
    wbe32(img, base + 24, 1); // inobt level (1-based)
}

/// One inobt leaf record.
struct ChunkRec {
    startino: u32,
    count: u8,
    freecount: u8,
    free: u64,
}

fn write_inobt_root(img: &mut [u8], agno: usize, recs: &[ChunkRec]) {
    let base = agno * AG_BLOCKS * BLOCK_SIZE + 8 * BLOCK_SIZE;
    wbe32(img, base, 0x49414233); // "IAB3"
    wbe16(img, base + 4, 0); // level
    wbe16(img, base + 6, recs.len() as u16);
    let mut off = base + 56;
    for r in recs {
        wbe32(img, off, r.startino);
        wbe16(img, off + 4, 0); // holemask
        img[off + 6] = r.count;
        img[off + 7] = r.freecount;
        wbe64(img, off + 8, r.free);
        off += 16;
    }
}

fn inode_base(agino: u64) -> usize {
    let block = (agino as usize) / 8;
    let slot = (agino as usize) % 8;
    block * BLOCK_SIZE + slot * INODE_SIZE
}

/// Write a V5 inode core; returns the byte offset of its data fork.
fn write_inode_core(
    img: &mut [u8],
    agino: u64,
    mode: u16,
    format: u8,
    size: u64,
    nlink: u32,
    nextents: u32,
    nblocks: u64,
) -> usize {
    let base = inode_base(agino);
    wbe16(img, base, 0x494e); // "IN"
    wbe16(img, base + 2, mode);
    img[base + 4] = 3; // inode version
    img[base + 5] = format;
    wbe32(img, base + 16, nlink);
    wbe32(img, base + 32, 1_600_000_000); // atime sec
    wbe32(img, base + 40, 1_600_000_001); // mtime sec
    wbe32(img, base + 48, 1_600_000_002); // ctime sec
    wbe64(img, base + 56, size);
    wbe64(img, base + 64, nblocks);
    wbe32(img, base + 76, nextents);
    img[base + 82] = 0; // forkoff: no attribute fork
    base + 176
}

/// Write one packed extent record at `off`.
fn write_extent_rec(img: &mut [u8], off: usize, logical: u64, start_block: u64, count: u64) {
    let l0 = (logical << 9) | (start_block >> 43);
    let l1 = ((start_block & 0x7FF_FFFF_FFFF) << 21) | count;
    wbe64(img, off, l0);
    wbe64(img, off + 8, l1);
}

/// Append one used entry to a directory data block; returns the new
/// offset.
fn push_dir_entry(img: &mut [u8], block_base: usize, off: usize, ino: u64, name: &[u8], ftype: u8) -> usize {
    let raw = 8 + 1 + name.len() + 1 + 2;
    let padded = (raw + 7) & !7;
    let p = block_base + off;
    wbe64(img, p, ino);
    img[p + 8] = name.len() as u8;
    img[p + 9..p + 9 + name.len()].copy_from_slice(name);
    img[p + 9 + name.len()] = ftype;
    wbe16(img, p + padded - 2, off as u16); // tag
    off + padded
}

fn close_dir_block(img: &mut [u8], block_base: usize, off: usize) {
    if off < BLOCK_SIZE {
        let rem = BLOCK_SIZE - off;
        wbe16(img, block_base + off, 0xffff);
        wbe16(img, block_base + off + 2, rem as u16);
    }
}

/// Build the whole fixture image.
fn build_image() -> Vec<u8> {
    let mut img = vec![0u8; AG_COUNT * AG_BLOCKS * BLOCK_SIZE];
    write_superblock(&mut img);
    for agno in 0..AG_COUNT {
        write_agi(&mut img, agno);
    }
    // AG 0 holds every inode: four 64-inode chunks from agino 128, the
    // last chunk only 13 slots full.
    write_inobt_root(
        &mut img,
        0,
        &[
            ChunkRec { startino: 128, count: 64, freecount: 0, free: 0 },
            ChunkRec { startino: 192, count: 64, freecount: 0, free: 0 },
            ChunkRec { startino: 256, count: 64, freecount: 0, free: 0 },
            ChunkRec { startino: 320, count: 13, freecount: 51, free: !0u64 << 13 },
        ],
    );
    for agno in 1..AG_COUNT {
        write_inobt_root(&mut img, agno, &[]);
    }

    let dir_mode: u16 = 0o040755;
    let reg_mode: u16 = 0o100644;
    const FMT_LOCAL: u8 = 1;
    const FMT_EXTENTS: u8 = 2;

    // Root directory: shortform with three entries.
    let fork = write_inode_core(&mut img, 128, dir_mode, FMT_LOCAL, 55, 3, 0, 0);
    {
        img[fork] = 3; // count
        img[fork + 1] = 0; // i8count
        wbe32(&mut img, fork + 2, ROOT_INO as u32); // parent
        let mut off = fork + 6;
        for (name, ftype, ino) in [
            (&b"empty_file"[..], 1u8, 129u32),
            (&b"hello.txt"[..], 1u8, 130u32),
            (&b"subdir"[..], 2u8, 131u32),
        ] {
            img[off] = name.len() as u8;
            wbe16(&mut img, off + 1, 0); // on-disk offset, unused
            img[off + 3..off + 3 + name.len()].copy_from_slice(name);
            img[off + 3 + name.len()] = ftype;
            wbe32(&mut img, off + 4 + name.len(), ino);
            off += 8 + name.len();
        }
    }

    // empty_file: no extents.
    write_inode_core(&mut img, 129, reg_mode, FMT_EXTENTS, 0, 1, 0, 0);

    // hello.txt: one extent at block 50.
    let fork = write_inode_core(&mut img, 130, reg_mode, FMT_EXTENTS, 6, 1, 1, 1);
    write_extent_rec(&mut img, fork, 0, 50, 1);
    img[50 * BLOCK_SIZE..50 * BLOCK_SIZE + 6].copy_from_slice(b"hello\n");

    // subdir: extents-format directory, one extent of two blocks at 48.
    let fork = write_inode_core(&mut img, 131, dir_mode, FMT_EXTENTS, 8192, 2, 1, 2);
    write_extent_rec(&mut img, fork, 0, 48, 2);

    // nested.txt: one extent at block 51.
    let fork = write_inode_core(&mut img, 132, reg_mode, FMT_EXTENTS, 7, 1, 1, 1);
    write_extent_rec(&mut img, fork, 0, 51, 1);
    img[51 * BLOCK_SIZE..51 * BLOCK_SIZE + 7].copy_from_slice(b"nested\n");

    // file_1 .. file_200: empty regular files at aginos 133..332.
    for i in 1..=200u64 {
        write_inode_core(&mut img, 132 + i, reg_mode, FMT_EXTENTS, 0, 1, 0, 0);
    }

    // subdir's two directory data blocks (XDD3 data-only format).
    let mut block = 48usize;
    let mut base = block * BLOCK_SIZE;
    wbe32(&mut img, base, 0x58444433);
    let mut off = 64usize;
    let mut entries: Vec<(u64, Vec<u8>, u8)> = Vec::new();
    entries.push((131, b".".to_vec(), 2));
    entries.push((128, b"..".to_vec(), 2));
    entries.push((132, b"nested.txt".to_vec(), 1));
    for i in 1..=200u64 {
        entries.push((132 + i, format!("file_{}", i).into_bytes(), 1));
    }
    for (ino, name, ftype) in entries {
        let raw = 8 + 1 + name.len() + 1 + 2;
        let padded = (raw + 7) & !7;
        if off + padded > BLOCK_SIZE {
            close_dir_block(&mut img, base, off);
            block += 1;
            assert!(block < 50, "subdir entries must fit in two blocks");
            base = block * BLOCK_SIZE;
            wbe32(&mut img, base, 0x58444433);
            off = 64;
        }
        off = push_dir_entry(&mut img, base, off, ino, &name, ftype);
    }
    close_dir_block(&mut img, base, off);

    img
}

struct InodeRecord {
    mode: u16,
    size: u64,
    nlink: u32,
}

#[derive(Clone)]
struct DirEntryRecord {
    parent_ino: u64,
    child_ino: u64,
    name: String,
    file_type: u8,
}

struct ScanResult {
    block_size: u32,
    ag_count: u32,
    inode_size: u16,
    root_ino: u64,
    inodes: HashMap<u64, InodeRecord>,
    dir_entries: Vec<DirEntryRecord>,
    file_extents: HashMap<u64, Vec<Extent>>,
}

impl ScanResult {
    fn collect() -> Self {
        let mut result = ScanResult {
            block_size: 0,
            ag_count: 0,
            inode_size: 0,
            root_ino: 0,
            inodes: HashMap::new(),
            dir_entries: Vec::new(),
            file_extents: HashMap::new(),
        };
        let mut reader = MemReader::new(build_image());
        let events = scan_collect(&mut reader).expect("scan should succeed");
        for event in events {
            match event {
                FsEvent::Superblock { block_size, ag_count, inode_size, root_ino } => {
                    result.block_size = block_size;
                    result.ag_count = ag_count;
                    result.inode_size = inode_size;
                    result.root_ino = root_ino;
                }
                FsEvent::InodeFound { ino, mode, size, nlink, extents, .. } => {
                    result.inodes.insert(ino, InodeRecord { mode, size, nlink });
                    if let Some(exts) = extents {
                        result.file_extents.insert(ino, exts);
                    }
                }
                FsEvent::FileExtents { ino, extents } => {
                    result.file_extents.insert(ino, extents);
                }
                FsEvent::DirEntry { parent_ino, child_ino, name, file_type } => {
                    result.dir_entries.push(DirEntryRecord {
                        parent_ino,
                        child_ino,
                        name: String::from_utf8_lossy(&name).to_string(),
                        file_type,
                    });
                }
            }
        }
        result
    }

    fn children_of(&self, parent_ino: u64) -> Vec<&DirEntryRecord> {
        self.dir_entries
            .iter()
            .filter(|e| e.parent_ino == parent_ino && e.name != "." && e.name != "..")
            .collect()
    }

    fn find_entry(&self, parent_ino: u64, name: &str) -> Option<&DirEntryRecord> {
        self.dir_entries
            .iter()
            .find(|e| e.parent_ino == parent_ino && e.name == name)
    }

    fn dot_entries_of(&self, parent_ino: u64) -> (Option<&DirEntryRecord>, Option<&DirEntryRecord>) {
        let dot = self.dir_entries.iter().find(|e| e.parent_ino == parent_ino && e.name == ".");
        let dotdot = self.dir_entries.iter().find(|e| e.parent_ino == parent_ino && e.name == "..");
        (dot, dotdot)
    }
}

// ---------------------------------------------------------------------------
// Superblock
// ---------------------------------------------------------------------------

#[test]
fn superblock_has_valid_parameters() {
    let r = ScanResult::collect();

    assert_eq!(r.block_size, 4096, "expected 4K block size");
    assert_eq!(r.ag_count, 4, "expected 4 AGs");
    assert_eq!(r.inode_size, 512, "expected 512-byte inodes");
    assert!(r.root_ino > 0, "root inode should be nonzero");
}

// ---------------------------------------------------------------------------
// Root directory
// ---------------------------------------------------------------------------

#[test]
fn root_inode_is_a_directory() {
    let r = ScanResult::collect();

    let root = r.inodes.get(&r.root_ino).expect("root inode not found");
    assert_eq!(root.mode & 0o170000, 0o040000, "root inode should be a directory");
}

#[test]
fn root_directory_contains_expected_entries() {
    let r = ScanResult::collect();

    let children = r.children_of(r.root_ino);
    let names: HashSet<&str> = children.iter().map(|e| e.name.as_str()).collect();

    assert!(names.contains("empty_file"), "root should contain 'empty_file'");
    assert!(names.contains("hello.txt"), "root should contain 'hello.txt'");
    assert!(names.contains("subdir"), "root should contain 'subdir'");

    assert_eq!(children.len(), 3, "root should have exactly 3 children (empty_file, hello.txt, subdir)");
}

#[test]
fn root_directory_has_dot_entries() {
    let r = ScanResult::collect();

    let (dot, dotdot) = r.dot_entries_of(r.root_ino);

    let dot = dot.expect("root should have '.' entry");
    assert_eq!(dot.child_ino, r.root_ino, "'.' should point to root itself");

    let dotdot = dotdot.expect("root should have '..' entry");
    assert_eq!(dotdot.child_ino, r.root_ino, "root '..' should point to root itself");
}

#[test]
fn root_entry_file_types_are_correct() {
    let r = ScanResult::collect();

    let empty_file = r.find_entry(r.root_ino, "empty_file").unwrap();
    assert_eq!(empty_file.file_type, 1, "empty_file should be ftype=1 (regular)");

    let hello = r.find_entry(r.root_ino, "hello.txt").unwrap();
    assert_eq!(hello.file_type, 1, "hello.txt should be ftype=1 (regular)");

    let subdir = r.find_entry(r.root_ino, "subdir").unwrap();
    assert_eq!(subdir.file_type, 2, "subdir should be ftype=2 (directory)");
}

// ---------------------------------------------------------------------------
// Known files
// ---------------------------------------------------------------------------

#[test]
fn empty_file_has_zero_size() {
    let r = ScanResult::collect();

    let entry = r.find_entry(r.root_ino, "empty_file").unwrap();
    let inode = r.inodes.get(&entry.child_ino).expect("empty_file inode not found");

    assert_eq!(inode.size, 0, "empty_file should have size 0");
    assert_eq!(inode.mode & 0o170000, 0o100000, "empty_file should be a regular file");
}

#[test]
fn hello_txt_has_expected_size() {
    let r = ScanResult::collect();

    let entry = r.find_entry(r.root_ino, "hello.txt").unwrap();
    let inode = r.inodes.get(&entry.child_ino).expect("hello.txt inode not found");

    assert_eq!(inode.size, 6, "hello.txt should have size 6 (\"hello\\n\")");
    assert_eq!(inode.mode & 0o170000, 0o100000, "hello.txt should be a regular file");
}

// ---------------------------------------------------------------------------
// Subdirectory
// ---------------------------------------------------------------------------

#[test]
fn subdir_inode_is_a_directory() {
    let r = ScanResult::collect();

    let entry = r.find_entry(r.root_ino, "subdir").unwrap();
    let inode = r.inodes.get(&entry.child_ino).expect("subdir inode not found");

    assert_eq!(inode.mode & 0o170000, 0o040000, "subdir should be a directory");
    assert_eq!(inode.nlink, 2, "subdir should have nlink=2 (. and parent)");
}

#[test]
fn subdir_has_dot_entries_with_correct_targets() {
    let r = ScanResult::collect();

    let subdir_entry = r.find_entry(r.root_ino, "subdir").unwrap();
    let subdir_ino = subdir_entry.child_ino;

    let (dot, dotdot) = r.dot_entries_of(subdir_ino);

    let dot = dot.expect("subdir should have '.' entry");
    assert_eq!(dot.child_ino, subdir_ino, "subdir '.' should point to itself");

    let dotdot = dotdot.expect("subdir should have '..' entry");
    assert_eq!(dotdot.child_ino, r.root_ino, "subdir '..' should point to root");
}

#[test]
fn subdir_contains_nested_txt() {
    let r = ScanResult::collect();

    let subdir_entry = r.find_entry(r.root_ino, "subdir").unwrap();
    let subdir_ino = subdir_entry.child_ino;

    let nested = r.find_entry(subdir_ino, "nested.txt");
    assert!(nested.is_some(), "subdir should contain 'nested.txt'");

    let nested = nested.unwrap();
    assert_eq!(nested.file_type, 1, "nested.txt should be ftype=1 (regular)");

    let inode = r.inodes.get(&nested.child_ino).expect("nested.txt inode not found");
    assert_eq!(inode.size, 7, "nested.txt should have size 7 (\"nested\\n\")");
}

#[test]
fn subdir_contains_all_200_numbered_files() {
    let r = ScanResult::collect();

    let subdir_entry = r.find_entry(r.root_ino, "subdir").unwrap();
    let subdir_ino = subdir_entry.child_ino;

    let children = r.children_of(subdir_ino);
    let names: HashSet<&str> = children.iter().map(|e| e.name.as_str()).collect();

    for i in 1..=200 {
        let expected_name = format!("file_{}", i);
        assert!(
            names.contains(expected_name.as_str()),
            "subdir should contain '{}'",
            expected_name
        );
    }
}

#[test]
fn subdir_has_exactly_201_children() {
    let r = ScanResult::collect();

    let subdir_entry = r.find_entry(r.root_ino, "subdir").unwrap();
    let subdir_ino = subdir_entry.child_ino;

    let children = r.children_of(subdir_ino);
    assert_eq!(
        children.len(),
        201,
        "subdir should have 201 children (nested.txt + file_1..file_200)"
    );
}

#[test]
fn all_numbered_files_are_empty_regular_files() {
    let r = ScanResult::collect();

    let subdir_entry = r.find_entry(r.root_ino, "subdir").unwrap();
    let subdir_ino = subdir_entry.child_ino;

    for i in 1..=200 {
        let name = format!("file_{}", i);
        let entry = r.find_entry(subdir_ino, &name)
            .unwrap_or_else(|| panic!("file_{} not found in subdir", i));

        assert_eq!(entry.file_type, 1, "{} should be ftype=1 (regular file)", name);

        let inode = r.inodes.get(&entry.child_ino)
            .unwrap_or_else(|| panic!("{} inode {} not found", name, entry.child_ino));
        assert_eq!(inode.size, 0, "{} should be an empty file (size=0)", name);
        assert_eq!(inode.mode & 0o170000, 0o100000, "{} should be a regular file", name);
    }
}

// ---------------------------------------------------------------------------
// File extents
// ---------------------------------------------------------------------------

#[test]
fn hello_txt_has_extents() {
    let r = ScanResult::collect();

    let entry = r.find_entry(r.root_ino, "hello.txt").unwrap();
    let extents = r.file_extents.get(&entry.child_ino)
        .expect("hello.txt should have extents");

    assert!(!extents.is_empty(), "hello.txt should have at least one extent");
    assert_eq!(extents[0].logical_offset, 0, "first extent should start at logical offset 0");
    assert!(extents[0].block_count > 0, "extent should have nonzero block count");
    assert!(!extents[0].is_unwritten, "hello.txt extent should not be unwritten");
}

#[test]
fn empty_file_has_no_extents() {
    let r = ScanResult::collect();

    let entry = r.find_entry(r.root_ino, "empty_file").unwrap();
    assert!(
        !r.file_extents.contains_key(&entry.child_ino),
        "empty_file should have no extents"
    );
}

#[test]
fn non_empty_regular_files_have_extents() {
    let r = ScanResult::collect();

    for (&ino, rec) in &r.inodes {
        if (rec.mode & 0o170000) == 0o100000 && rec.size > 0 {
            assert!(
                r.file_extents.contains_key(&ino),
                "regular file ino={} size={} should have extents",
                ino, rec.size
            );
        }
    }
}

#[test]
fn directories_have_no_file_extents() {
    let r = ScanResult::collect();

    for (&ino, rec) in &r.inodes {
        if (rec.mode & 0o170000) == 0o040000 {
            assert!(
                !r.file_extents.contains_key(&ino),
                "directory ino={} should not have file extents",
                ino
            );
        }
    }
}

// ---------------------------------------------------------------------------
// Extent-based file content verification
// ---------------------------------------------------------------------------

/// Read file content from the raw image using extent information.
fn read_file_from_extents(img: &[u8], extents: &[Extent], file_size: u64) -> Vec<u8> {
    let ctx = FsContext::from_superblock(&img[..4096]).expect("failed to parse superblock");

    let block_size = ctx.block_size as u64;
    let mut data = Vec::new();
    let mut remaining = file_size;

    for ext in extents {
        if remaining == 0 {
            break;
        }
        let byte_offset = fsblock_to_byte(&ctx, ext.start_block) as usize;
        let extent_bytes = ext.block_count * block_size;
        let to_read = remaining.min(extent_bytes) as usize;

        data.extend_from_slice(&img[byte_offset..byte_offset + to_read]);
        remaining = remaining.saturating_sub(extent_bytes);
    }

    data
}

#[test]
fn hello_txt_content_matches_via_extents() {
    let img = build_image();
    let r = ScanResult::collect();

    let entry = r.find_entry(r.root_ino, "hello.txt").unwrap();
    let inode = r.inodes.get(&entry.child_ino).expect("hello.txt inode not found");
    let extents = r.file_extents.get(&entry.child_ino)
        .expect("hello.txt should have extents");

    let content = read_file_from_extents(&img, extents, inode.size);
    assert_eq!(content, b"hello\n", "hello.txt content should be \"hello\\n\"");
}

#[test]
fn nested_txt_content_matches_via_extents() {
    let img = build_image();
    let r = ScanResult::collect();

    let subdir_entry = r.find_entry(r.root_ino, "subdir").unwrap();
    let nested_entry = r.find_entry(subdir_entry.child_ino, "nested.txt").unwrap();
    let inode = r.inodes.get(&nested_entry.child_ino).expect("nested.txt inode not found");
    let extents = r.file_extents.get(&nested_entry.child_ino)
        .expect("nested.txt should have extents");

    let content = read_file_from_extents(&img, extents, inode.size);
    assert_eq!(content, b"nested\n", "nested.txt content should be \"nested\\n\"");
}

// ---------------------------------------------------------------------------
// Cross-directory consistency
// ---------------------------------------------------------------------------

#[test]
fn every_dir_entry_references_a_discovered_inode() {
    let r = ScanResult::collect();

    for entry in &r.dir_entries {
        assert!(
            r.inodes.contains_key(&entry.child_ino),
            "dir entry '{}' (parent={}) references inode {} which was not found in inode scan",
            entry.name, entry.parent_ino, entry.child_ino
        );
    }
}

#[test]
fn every_directory_inode_has_entries() {
    let r = ScanResult::collect();

    let dir_inodes: Vec<u64> = r
        .inodes
        .iter()
        .filter(|(_, rec)| (rec.mode & 0o170000) == 0o040000)
        .map(|(&ino, _)| ino)
        .collect();

    for dir_ino in &dir_inodes {
        let (dot, dotdot) = r.dot_entries_of(*dir_ino);
        assert!(
            dot.is_some(),
            "directory inode {} should have a '.' entry",
            dir_ino
        );
        assert!(
            dotdot.is_some(),
            "directory inode {} should have a '..' entry",
            dir_ino
        );
    }
}

#[test]
fn no_duplicate_entries_within_a_directory() {
    let r = ScanResult::collect();

    let mut by_parent: HashMap<u64, Vec<&str>> = HashMap::new();
    for entry in &r.dir_entries {
        by_parent
            .entry(entry.parent_ino)
            .or_default()
            .push(&entry.name);
    }

    for (parent_ino, names) in &by_parent {
        let unique: HashSet<&&str> = names.iter().collect();
        assert_eq!(
            names.len(),
            unique.len(),
            "directory inode {} has duplicate entry names",
            parent_ino
        );
    }
}

// ---------------------------------------------------------------------------
// Inode counts and totals
// ---------------------------------------------------------------------------

#[test]
fn total_inode_count_is_plausible() {
    let r = ScanResult::collect();

    assert!(
        r.inodes.len() >= 204,
        "expected at least 204 inodes, got {}",
        r.inodes.len()
    );
}

#[test]
fn total_dir_entry_count_matches_expected() {
    let r = ScanResult::collect();

    assert_eq!(
        r.dir_entries.len(),
        208,
        "expected exactly 208 directory entries total"
    );
}

// ---------------------------------------------------------------------------
// Stream-level properties
// ---------------------------------------------------------------------------

#[test]
fn two_scans_emit_identical_event_sequences() {
    let mut r1 = MemReader::new(build_image());
    let mut r2 = MemReader::new(build_image());
    let e1 = scan_collect(&mut r1).expect("first scan should succeed");
    let e2 = scan_collect(&mut r2).expect("second scan should succeed");
    assert_eq!(e1.len(), e2.len(), "both scans should emit the same number of events");
    assert!(e1 == e2, "both scans should emit the same events in the same order");
}

#[test]
fn event_stream_is_ordered_by_ag_and_phase() {
    let mut reader = MemReader::new(build_image());
    let events = scan_collect(&mut reader).expect("scan should succeed");
    assert!(matches!(events[0], FsEvent::Superblock { .. }), "first event should be Superblock");
    // rank: inodes (0) then file extents (1) then dir entries (2) per AG;
    // AG numbers nondecreasing across InodeFound events.
    let mut last_ag: u32 = 0;
    let mut rank: u8 = 0;
    for event in &events[1..] {
        match event {
            FsEvent::Superblock { .. } => panic!("superblock must appear exactly once, first"),
            FsEvent::InodeFound { ag_number, .. } => {
                if *ag_number != last_ag {
                    assert!(*ag_number > last_ag, "AG numbers must ascend");
                    last_ag = *ag_number;
                } else {
                    assert_eq!(rank, 0, "InodeFound after a later phase of the same AG");
                }
                rank = 0;
            }
            FsEvent::FileExtents { .. } => {
                assert!(rank <= 1, "FileExtents after DirEntry within an AG");
                rank = 1;
            }
            FsEvent::DirEntry { .. } => {
                rank = 2;
            }
        }
    }
}

#[test]
fn every_dir_entry_child_was_seen_as_inode_before_it() {
    // Directory-inode coverage, order-sensitive: in this fixture every
    // entry's child inode appears as an earlier InodeFound in the stream.
    let mut reader = MemReader::new(build_image());
    let events = scan_collect(&mut reader).expect("scan should succeed");
    let mut seen: HashSet<u64> = HashSet::new();
    for event in &events {
        match event {
            FsEvent::InodeFound { ino, .. } => {
                seen.insert(*ino);
            }
            FsEvent::DirEntry { child_ino, .. } => {
                assert!(
                    seen.contains(child_ino),
                    "dir entry child inode {} not seen as InodeFound earlier",
                    child_ino
                );
            }
            _ => {}
        }
    }
}

struct StopAfterFirst {
    count: usize,
}

impl fxfsp::EventSink for StopAfterFirst {
    fn on_event(&mut self, _event: &FsEvent) -> bool {
        self.count += 1;
        self.count < 1
    }
}

#[test]
fn sink_can_stop_the_scan_early() {
    let mut reader = MemReader::new(build_image());
    let mut sink = StopAfterFirst { count: 0 };
    let r = fxfsp::scan_reader(&mut reader, &mut sink);
    assert!(r.is_ok(), "early stop is not an error");
    assert_eq!(sink.count, 1, "no event should be delivered after the stop");
}

struct CountingSink {
    events: Vec<FsEvent>,
}

impl fxfsp::EventSink for CountingSink {
    fn on_event(&mut self, event: &FsEvent) -> bool {
        self.events.push(event.clone());
        true
    }
}

#[test]
fn event_collector_keeps_the_whole_stream() {
    let mut r1 = MemReader::new(build_image());
    let collected = scan_collect(&mut r1).expect("scan should succeed");
    let mut r2 = MemReader::new(build_image());
    let mut sink = fxfsp::EventCollector::new();
    fxfsp::scan_reader(&mut r2, &mut sink).expect("scan should succeed");
    assert!(sink.events == collected, "the collector keeps the same stream scan_collect returns");
}

#[test]
fn scan_reader_delivers_the_collected_stream() {
    let mut r1 = MemReader::new(build_image());
    let collected = scan_collect(&mut r1).expect("scan should succeed");
    let mut r2 = MemReader::new(build_image());
    let mut sink = CountingSink { events: Vec::new() };
    fxfsp::scan_reader(&mut r2, &mut sink).expect("scan should succeed");
    assert!(sink.events == collected, "sink sees the same stream scan_collect returns");
}

#[test]
fn corrupt_superblock_magic_is_a_bad_magic_error() {
    let mut img = build_image();
    img[0] = 0x00;
    let mut reader = MemReader::new(img);
    let r = scan_collect(&mut reader);
    assert!(
        matches!(r, Err(fxfsp::FxfspError::BadMagic(_))),
        "a wrong superblock magic must be fatal"
    );
}

#[test]
fn agi_sequence_mismatch_is_a_parse_error() {
    let mut img = build_image();
    // Corrupt AG 2's AGI sequence number.
    let base = 2 * AG_BLOCKS * BLOCK_SIZE + 1024;
    img[base + 8..base + 12].copy_from_slice(&7u32.to_be_bytes());
    let mut reader = MemReader::new(img);
    let r = scan_collect(&mut reader);
    assert!(
        matches!(r, Err(fxfsp::FxfspError::Parse(_))),
        "an AGI sequence mismatch must be fatal"
    );
}
