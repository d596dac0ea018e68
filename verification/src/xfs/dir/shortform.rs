//! Shortform directory decoding.
//!
//! A shortform directory lives entirely in the inode's data fork: a
//! header (entry count, count of 8-byte entries, parent inode number of 4
//! or 8 bytes), then `count` variable-length entries. The decoder
//! synthesizes a `.` and a `..` entry first, both with file type 0; the
//! on-disk entries follow in disk order.

use vstd::prelude::*;

use crate::endian::{be32_at, be64_at, read_be32, read_be64};
use crate::error::FxfspError;
use crate::staged::{spec_entries_view, DirEntryInfo, DirEntryModel};
use crate::xfs::superblock::FsContext;

verus! {

/// The synthesized `.` entry: a directory names itself.
pub open spec fn spec_dot_entry(parent: u64) -> DirEntryModel {
    DirEntryModel { parent_ino: parent, child_ino: parent, name: seq![0x2eu8], file_type: 0 }
}

/// The synthesized `..` entry: the header's parent inode.
pub open spec fn spec_dotdot_entry(parent: u64, target: u64) -> DirEntryModel {
    DirEntryModel {
        parent_ino: parent,
        child_ino: target,
        name: seq![0x2eu8, 0x2eu8],
        file_type: 0,
    }
}

/// The `n` on-disk entries starting at offset `off`: 1-byte name length,
/// a 2-byte on-disk offset the scanner ignores, the name bytes, a
/// file-type byte iff the filesystem stores one, and the child inode
/// number in 4 or 8 bytes. `None` on any entry past the fork end.
pub open spec fn spec_sf_entries(
    b: Seq<u8>,
    off: int,
    n: int,
    use8: bool,
    has_ftype: bool,
    parent: u64,
) -> Option<Seq<DirEntryModel>>
    decreases n,
{
    if n <= 0 {
        Some(Seq::empty())
    } else if off >= b.len() {
        None
    } else {
        let namelen = b[off] as int;
        let name_start = off + 3;
        let name_end = name_start + namelen;
        let ft: int = if has_ftype {
            1
        } else {
            0
        };
        let ino_size: int = if use8 {
            8
        } else {
            4
        };
        if name_end + ft + ino_size > b.len() {
            None
        } else {
            let child = if use8 {
                be64_at(b, name_end + ft)
            } else {
                be32_at(b, name_end + ft) as u64
            };
            let e = DirEntryModel {
                parent_ino: parent,
                child_ino: child,
                name: b.subrange(name_start, name_end),
                file_type: if has_ftype {
                    b[name_end]
                } else {
                    0
                },
            };
            match spec_sf_entries(b, name_end + ft + ino_size, n - 1, use8, has_ftype, parent) {
                None => None,
                Some(rest) => Some(seq![e] + rest),
            }
        }
    }
}

/// `spec_sf_entries` with the already-decoded prefix glued in front.
pub open spec fn spec_sf_tail(
    b: Seq<u8>,
    off: int,
    n: int,
    use8: bool,
    has_ftype: bool,
    parent: u64,
    done: Seq<DirEntryModel>,
) -> Option<Seq<DirEntryModel>> {
    match spec_sf_entries(b, off, n, use8, has_ftype, parent) {
        None => None,
        Some(rest) => Some(done + rest),
    }
}

/// The decoded shortform directory: the synthesized dot entries, then the
/// on-disk entries. `None` on a fork too short for its header or one of
/// its entries.
pub open spec fn spec_shortform_dir(b: Seq<u8>, parent: u64, has_ftype: bool) -> Option<
    Seq<DirEntryModel>,
> {
    if b.len() < 6 {
        None
    } else {
        let use8 = b[1] > 0;
        if use8 && b.len() < 10 {
            None
        } else {
            let hdr_parent = if use8 {
                be64_at(b, 2)
            } else {
                be32_at(b, 2) as u64
            };
            let hdr_size: int = if use8 {
                10
            } else {
                6
            };
            let count = b[0] as int;
            match spec_sf_entries(b, hdr_size, count, use8, has_ftype, parent) {
                None => None,
                Some(es) => Some(
                    seq![spec_dot_entry(parent), spec_dotdot_entry(parent, hdr_parent)] + es,
                ),
            }
        }
    }
}

/// Parse a shortform directory from the inode's data fork.
///
/// Returns the synthesized `.` and `..` first, then one entry per on-disk
/// entry, names copied out of the fork. Fails exactly when the fork is
/// too short for its header or for one of its entries.
pub fn parse_shortform_dir(fork_buf: &[u8], parent_ino: u64, ctx: &FsContext) -> (r: Result<
    Vec<DirEntryInfo>,
    FxfspError,
>)
    ensures
        r is Ok <==> spec_shortform_dir(fork_buf@, parent_ino, ctx.has_ftype) is Some,
        r matches Ok(v) ==> Some(spec_entries_view(v@)) == spec_shortform_dir(
            fork_buf@,
            parent_ino,
            ctx.has_ftype,
        ),
        r matches Ok(v) ==> v@.len() >= 2 && v@[0]@ == spec_dot_entry(parent_ino) && v@[1]@
            == spec_dotdot_entry(
            parent_ino,
            (if fork_buf@[1] > 0 {
                be64_at(fork_buf@, 2)
            } else {
                be32_at(fork_buf@, 2) as u64
            }),
        ),
        r is Err ==> r matches Err(FxfspError::Parse(_)),
{
    let ghost b = fork_buf@;
    if fork_buf.len() < 6 {
        return Err(FxfspError::Parse("shortform dir too small"));
    }
    let i8count = fork_buf[1];
    let use8 = i8count > 0;
    if use8 && fork_buf.len() < 10 {
        return Err(FxfspError::Parse("shortform hdr8 parse failed"));
    }
    let hdr_parent: u64 = if use8 {
        read_be64(fork_buf, 2)
    } else {
        read_be32(fork_buf, 2) as u64
    };
    let hdr_size: usize = if use8 {
        10
    } else {
        6
    };
    let count = fork_buf[0] as usize;
    let has_ftype = ctx.has_ftype;
    let ino_size: usize = if use8 {
        8
    } else {
        4
    };
    let ftype_size: usize = if has_ftype {
        1
    } else {
        0
    };
    let len = fork_buf.len();
    let mut entries: Vec<DirEntryInfo> = Vec::new();
    let mut offset = hdr_size;
    let mut i: usize = 0;
    while i < count
        invariant
            b == fork_buf@,
            i <= count,
            len == b.len(),
            6 <= b.len(),
            use8 ==> 10 <= b.len(),
            offset <= len,
            use8 == (b[1] > 0),
            has_ftype == ctx.has_ftype,
            ino_size == (if use8 {
                8int
            } else {
                4int
            }),
            ftype_size == (if has_ftype {
                1int
            } else {
                0int
            }),
            hdr_size == (if use8 {
                10int
            } else {
                6int
            }),
            count == b[0] as int,
            spec_sf_entries(b, hdr_size as int, count as int, use8, has_ftype, parent_ino)
                == spec_sf_tail(
                b,
                offset as int,
                count - i,
                use8,
                has_ftype,
                parent_ino,
                spec_entries_view(entries@),
            ),
        decreases count - i,
    {
        if offset >= len {
            return Err(FxfspError::Parse("shortform entry past end"));
        }
        let namelen = fork_buf[offset] as usize;
        if (offset as u128) + 3 + (namelen as u128) + (ftype_size as u128) + (ino_size as u128)
            > len as u128 {
            return Err(FxfspError::Parse("shortform entry out of bounds"));
        }
        let name_start = offset + 3;
        let name_end = name_start + namelen;
        let mut name: Vec<u8> = Vec::new();
        let mut k: usize = 0;
        while k < namelen
            invariant
                b == fork_buf@,
                k <= namelen,
                name_start + namelen <= len,
                len == b.len(),
                name@.len() == k,
                forall|q: int| 0 <= q < k ==> name@[q] == b[name_start + q],
            decreases namelen - k,
        {
            name.push(fork_buf[name_start + k]);
            k = k + 1;
        }
        proof {
            assert(name@ =~= b.subrange(name_start as int, name_end as int));
        }
        let ftype = if has_ftype {
            fork_buf[name_end]
        } else {
            0
        };
        let ino_start = name_end + ftype_size;
        let child_ino: u64 = if use8 {
            read_be64(fork_buf, ino_start)
        } else {
            read_be32(fork_buf, ino_start) as u64
        };
        let ghost done0 = spec_entries_view(entries@);
        let ghost e = DirEntryModel {
            parent_ino,
            child_ino,
            name: b.subrange(name_start as int, name_end as int),
            file_type: if has_ftype {
                b[name_end as int]
            } else {
                0
            },
        };
        entries.push(DirEntryInfo { parent_ino, child_ino, name, file_type: ftype });
        offset = ino_start + ino_size;
        i = i + 1;
        proof {
            assert(spec_entries_view(entries@) =~= done0 + seq![e]);
            assert forall|rest: Seq<DirEntryModel>| (done0 + seq![e]) + rest =~= done0 + (
            seq![e] + rest) by {}
        }
    }
    proof {
        assert(spec_sf_entries(b, offset as int, 0, use8, has_ftype, parent_ino)
            == Some(Seq::<DirEntryModel>::empty()));
        assert(spec_entries_view(entries@) + Seq::<DirEntryModel>::empty() =~= spec_entries_view(
            entries@,
        ));
    }
    let mut out: Vec<DirEntryInfo> = Vec::new();
    out.push(
        DirEntryInfo {
            parent_ino,
            child_ino: parent_ino,
            name: make_dot_name(),
            file_type: 0,
        },
    );
    out.push(
        DirEntryInfo {
            parent_ino,
            child_ino: hdr_parent,
            name: make_dotdot_name(),
            file_type: 0,
        },
    );
    let ghost head = spec_entries_view(out@);
    let mut entries = entries;
    let ghost tail = spec_entries_view(entries@);
    out.append(&mut entries);
    proof {
        assert(head =~= seq![
            spec_dot_entry(parent_ino),
            spec_dotdot_entry(parent_ino, hdr_parent),
        ]);
        assert(spec_entries_view(out@) =~= head + tail);
    }
    Ok(out)
}

/// The one-byte name of the synthesized `.` entry.
fn make_dot_name() -> (r: Vec<u8>)
    ensures
        r@ == seq![0x2eu8],
{
    let mut v: Vec<u8> = Vec::new();
    v.push(0x2e);
    proof {
        assert(v@ =~= seq![0x2eu8]);
    }
    v
}

/// The two-byte name of the synthesized `..` entry.
fn make_dotdot_name() -> (r: Vec<u8>)
    ensures
        r@ == seq![0x2eu8, 0x2eu8],
{
    let mut v: Vec<u8> = Vec::new();
    v.push(0x2e);
    v.push(0x2e);
    proof {
        assert(v@ =~= seq![0x2eu8, 0x2eu8]);
    }
    v
}

} // verus!
