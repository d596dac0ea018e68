//! On-disk directory data block decoding.
//!
//! A directory data block starts with a magic: data-only blocks
//! (`XD2D`/`XDD3`) hold entries to the block end, block-format directories
//! (`XD2B`/`XDB3`) carry a trailing leaf section and an 8-byte tail
//! `{leaf_count, stale}` in the same block, so their entries end before
//! the leaf section. Any other magic is silently skipped: a coalesced
//! batch read may hand the decoder leaf or free-space blocks.

use vstd::prelude::*;

use crate::endian::{be16_at, be32_at, be64_at, read_be16, read_be32, read_be64};
use crate::error::FxfspError;
use crate::staged::{spec_entries_view, DirEntryInfo, DirEntryModel};
use crate::xfs::superblock::{FormatVersion, FsContext};

verus! {

/// V4 data block magic: "XD2D".
pub const XFS_DIR2_DATA_MAGIC: u32 = 0x58443244;

/// V4 block-format magic: "XD2B".
pub const XFS_DIR2_BLOCK_MAGIC: u32 = 0x58443242;

/// V5 data block magic: "XDD3".
pub const XFS_DIR3_DATA_MAGIC: u32 = 0x58444433;

/// V5 block-format magic: "XDB3".
pub const XFS_DIR3_BLOCK_MAGIC: u32 = 0x58444233;

/// Tag marking an unused entry.
pub const XFS_DIR2_DATA_FREE_TAG: u16 = 0xffff;

/// Directory data block header size: 16 bytes in V4, 64 in V5.
pub open spec fn spec_data_hdr_size(version: FormatVersion) -> usize {
    if version is V5 {
        64
    } else {
        16
    }
}

/// Directory data block header size by format generation.
pub fn data_hdr_size(version: FormatVersion) -> (r: usize)
    ensures
        r == spec_data_hdr_size(version),
{
    match version {
        FormatVersion::V4 => 16,
        FormatVersion::V5 => 64,
    }
}

/// Is this a directory data magic of the right generation (data-only or
/// block format)?
pub open spec fn spec_is_data_block_magic(magic: u32, version: FormatVersion) -> bool {
    if version is V5 {
        magic == XFS_DIR3_DATA_MAGIC || magic == XFS_DIR3_BLOCK_MAGIC
    } else {
        magic == XFS_DIR2_DATA_MAGIC || magic == XFS_DIR2_BLOCK_MAGIC
    }
}

/// Does the magic mark a single-block-format directory?
pub open spec fn spec_is_block_format(magic: u32) -> bool {
    magic == XFS_DIR2_BLOCK_MAGIC || magic == XFS_DIR3_BLOCK_MAGIC
}

/// Where the data entries end: before the leaf section and tail for a
/// block-format directory, at the block end otherwise.
pub open spec fn spec_data_end(b: Seq<u8>, magic: u32) -> int {
    if spec_is_block_format(magic) && b.len() >= 8 {
        let tail = b.len() - 8;
        let leaf_count = be32_at(b, tail) as int;
        if tail - 8 * leaf_count >= 0 {
            tail - 8 * leaf_count
        } else {
            0
        }
    } else {
        b.len() as int
    }
}

/// The used entries of the data region starting at `off`: a free entry
/// (tag `0xffff`, 2-byte length) is skipped, a used entry (8-byte inode,
/// 1-byte name length, name, file-type byte iff stored, padding to an
/// 8-byte boundary, 2-byte tag) is decoded. Decoding stops, without
/// error, at anything that no longer fits before `data_end`.
pub open spec fn spec_db_entries(
    b: Seq<u8>,
    off: int,
    data_end: int,
    parent: u64,
    has_ftype: bool,
) -> Seq<DirEntryModel>
    decreases (if data_end >= off {
        data_end - off
    } else {
        0
    }),
{
    if off + 6 > data_end {
        Seq::empty()
    } else {
        let freetag = be16_at(b, off);
        if freetag == XFS_DIR2_DATA_FREE_TAG {
            let length = be16_at(b, off + 2) as int;
            if length == 0 || off + length > data_end {
                Seq::empty()
            } else {
                spec_db_entries(b, off + length, data_end, parent, has_ftype)
            }
        } else if off + 9 > data_end {
            Seq::empty()
        } else {
            let inumber = be64_at(b, off);
            let namelen = b[off + 8] as int;
            let name_start = off + 9;
            let name_end = name_start + namelen;
            if name_end > data_end {
                Seq::empty()
            } else {
                let ftype: u8 = if has_ftype && name_end < data_end {
                    b[name_end]
                } else {
                    0
                };
                let ft: int = if has_ftype {
                    1
                } else {
                    0
                };
                let raw = 8 + 1 + namelen + ft + 2;
                let padded = ((raw + 7) / 8) * 8;
                let e = DirEntryModel {
                    parent_ino: parent,
                    child_ino: inumber,
                    name: b.subrange(name_start, name_end),
                    file_type: ftype,
                };
                seq![e] + spec_db_entries(b, off + padded, data_end, parent, has_ftype)
            }
        }
    }
}

/// The decoded directory data block: nothing for a foreign magic, else
/// the used entries of its data region.
pub open spec fn spec_dir_block(
    b: Seq<u8>,
    parent: u64,
    version: FormatVersion,
    has_ftype: bool,
) -> Seq<DirEntryModel> {
    let magic = be32_at(b, 0);
    if !spec_is_data_block_magic(magic, version) {
        Seq::empty()
    } else {
        spec_db_entries(
            b,
            spec_data_hdr_size(version) as int,
            spec_data_end(b, magic),
            parent,
            has_ftype,
        )
    }
}

/// Parse the used entries of one directory data block owned by inode
/// `parent_ino`.
///
/// A block whose magic is not a directory data magic yields no entries
/// and no error; only a buffer under 4 bytes is an error.
pub fn parse_dir_data_block(buf: &[u8], parent_ino: u64, ctx: &FsContext) -> (r: Result<
    Vec<DirEntryInfo>,
    FxfspError,
>)
    ensures
        r is Ok <==> buf@.len() >= 4,
        r matches Ok(v) ==> spec_entries_view(v@) == spec_dir_block(
            buf@,
            parent_ino,
            ctx.version,
            ctx.has_ftype,
        ),
        r is Err ==> r matches Err(FxfspError::Parse(_)),
{
    let ghost b = buf@;
    if buf.len() < 4 {
        return Err(FxfspError::Parse("dir data block too small"));
    }
    let magic = read_be32(buf, 0);
    let is_data = match ctx.version {
        FormatVersion::V4 => magic == XFS_DIR2_DATA_MAGIC || magic == XFS_DIR2_BLOCK_MAGIC,
        FormatVersion::V5 => magic == XFS_DIR3_DATA_MAGIC || magic == XFS_DIR3_BLOCK_MAGIC,
    };
    if !is_data {
        // Not a data block (a leaf or free-space block handed over by a
        // coalesced batch read): skip it.
        return Ok(Vec::new());
    }
    let len = buf.len();
    let is_block_format = magic == XFS_DIR2_BLOCK_MAGIC || magic == XFS_DIR3_BLOCK_MAGIC;
    let data_end: usize = if is_block_format && len >= 8 {
        let tail = len - 8;
        let leaf_count = read_be32(buf, tail);
        if (leaf_count as u64) * 8 <= tail as u64 {
            tail - (leaf_count as usize) * 8
        } else {
            0
        }
    } else {
        len
    };
    assert(data_end as int == spec_data_end(b, magic));
    let has_ftype = ctx.has_ftype;
    let ftype_size: usize = if has_ftype {
        1
    } else {
        0
    };
    let hdr_size = data_hdr_size(ctx.version);
    let mut entries: Vec<DirEntryInfo> = Vec::new();
    let mut offset = if hdr_size > data_end {
        proof {
            assert(spec_db_entries(b, hdr_size as int, data_end as int, parent_ino, has_ftype)
                =~= Seq::<DirEntryModel>::empty());
            assert(spec_db_entries(b, data_end as int, data_end as int, parent_ino, has_ftype)
                =~= Seq::<DirEntryModel>::empty());
        }
        data_end
    } else {
        hdr_size
    };
    loop
        invariant_except_break
            b == buf@,
            len == b.len(),
            offset <= data_end,
            data_end <= len,
            data_end as int == spec_data_end(b, magic),
            has_ftype == ctx.has_ftype,
            ftype_size == (if has_ftype {
                1int
            } else {
                0int
            }),
            spec_db_entries(b, hdr_size as int, data_end as int, parent_ino, has_ftype)
                == spec_entries_view(entries@) + spec_db_entries(
                b,
                offset as int,
                data_end as int,
                parent_ino,
                has_ftype,
            ),
        ensures
            b == buf@,
            spec_db_entries(b, hdr_size as int, data_end as int, parent_ino, has_ftype)
                == spec_entries_view(entries@),
        decreases data_end - offset,
    {
        if (offset as u128) + 6 > data_end as u128 {
            proof {
                assert(spec_entries_view(entries@) + Seq::<DirEntryModel>::empty()
                    =~= spec_entries_view(entries@));
            }
            break ;
        }
        let freetag = read_be16(buf, offset);
        if freetag == XFS_DIR2_DATA_FREE_TAG {
            let length = read_be16(buf, offset + 2) as usize;
            if length == 0 || (offset as u128) + (length as u128) > data_end as u128 {
                proof {
                    assert(spec_entries_view(entries@) + Seq::<DirEntryModel>::empty()
                        =~= spec_entries_view(entries@));
                }
                break ;
            }
            offset = offset + length;
            continue ;
        }
        if (offset as u128) + 9 > data_end as u128 {
            proof {
                assert(spec_entries_view(entries@) + Seq::<DirEntryModel>::empty()
                    =~= spec_entries_view(entries@));
            }
            break ;
        }
        let inumber = read_be64(buf, offset);
        let namelen = buf[offset + 8] as usize;
        if (offset as u128) + 9 + (namelen as u128) > data_end as u128 {
            proof {
                assert(spec_entries_view(entries@) + Seq::<DirEntryModel>::empty()
                    =~= spec_entries_view(entries@));
            }
            break ;
        }
        let name_start = offset + 9;
        let name_end = name_start + namelen;
        let mut name: Vec<u8> = Vec::new();
        let mut k: usize = 0;
        while k < namelen
            invariant
                b == buf@,
                k <= namelen,
                name_start + namelen <= data_end <= len,
                len == b.len(),
                name@.len() == k,
                forall|q: int| 0 <= q < k ==> name@[q] == b[name_start + q],
            decreases namelen - k,
        {
            name.push(buf[name_start + k]);
            k = k + 1;
        }
        proof {
            assert(name@ =~= b.subrange(name_start as int, name_end as int));
        }
        let ftype = if has_ftype && name_end < data_end {
            buf[name_end]
        } else {
            0
        };
        let ghost done0 = spec_entries_view(entries@);
        let ghost e = DirEntryModel {
            parent_ino,
            child_ino: inumber,
            name: b.subrange(name_start as int, name_end as int),
            file_type: ftype,
        };
        entries.push(DirEntryInfo { parent_ino, child_ino: inumber, name, file_type: ftype });
        let raw = 8 + 1 + namelen + ftype_size + 2;
        let padded = ((raw + 7) / 8) * 8;
        proof {
            assert(spec_entries_view(entries@) =~= done0 + seq![e]);
            assert((done0 + seq![e]) + spec_db_entries(
                b,
                offset + padded,
                data_end as int,
                parent_ino,
                has_ftype,
            ) =~= done0 + (seq![e] + spec_db_entries(
                b,
                offset + padded,
                data_end as int,
                parent_ino,
                has_ftype,
            )));
            vstd::arithmetic::div_mod::lemma_fundamental_div_mod(raw + 7, 8);
        }
        let rem = data_end - offset;
        if padded >= rem {
            proof {
                assert(spec_db_entries(b, offset + padded, data_end as int, parent_ino, has_ftype)
                    =~= Seq::<DirEntryModel>::empty());
                assert(spec_db_entries(b, data_end as int, data_end as int, parent_ino, has_ftype)
                    =~= Seq::<DirEntryModel>::empty());
            }
            offset = data_end;
        } else {
            offset = offset + padded;
        }
    }
    Ok(entries)
}

} // verus!
