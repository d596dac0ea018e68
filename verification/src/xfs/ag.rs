//! AGI header decoding.
//!
//! The AGI (per-AG inode header) occupies the third sector of each AG and
//! carries the root block and level of that AG's inode-allocation B-tree.

use vstd::prelude::*;

use crate::endian::{be32_at, read_be32};
use crate::error::FxfspError;
use crate::xfs::superblock::FormatVersion;

verus! {

/// AGI magic: "XAGI".
pub const XFS_AGI_MAGIC: u32 = 0x58414749;

/// Byte length of the on-disk AGI fields this decoder demands: the fixed
/// words plus the 64-entry unlinked-bucket table.
pub const AGI_MIN_LEN: usize = 296;

/// The AGI fields the traversal needs.
#[derive(Debug, Clone, Copy, PartialEq, Eq, Structural)]
pub struct AgiInfo {
    pub ag_number: u32,
    pub inobt_root: u32,
    pub inobt_level: u32,
}

/// Does `b` hold an AGI for AG `agno`: long enough, right magic, matching
/// sequence number?
pub open spec fn spec_agi_ok(b: Seq<u8>, agno: u32) -> bool {
    &&& b.len() >= AGI_MIN_LEN
    &&& be32_at(b, 0) == XFS_AGI_MAGIC
    &&& be32_at(b, 8) == agno
}

/// The decoded AGI: the inobt root block at byte offset 20 and the
/// AGI-reported level (1-based) at byte offset 24.
pub open spec fn spec_agi(b: Seq<u8>, agno: u32) -> AgiInfo {
    AgiInfo { ag_number: agno, inobt_root: be32_at(b, 20), inobt_level: be32_at(b, 24) }
}

impl AgiInfo {
    /// Parse an AGI from `buf`. Fails on a short buffer, a wrong magic, or
    /// a sequence number that does not match `agno`.
    pub fn from_buf(buf: &[u8], agno: u32, _version: FormatVersion) -> (r: Result<
        Self,
        FxfspError,
    >)
        ensures
            r is Ok <==> spec_agi_ok(buf@, agno),
            r is Ok ==> r == Ok::<Self, FxfspError>(spec_agi(buf@, agno)),
            buf@.len() >= AGI_MIN_LEN && be32_at(buf@, 0) != XFS_AGI_MAGIC ==> r matches Err(
                FxfspError::BadMagic(_),
            ),
            buf@.len() >= AGI_MIN_LEN && be32_at(buf@, 0) == XFS_AGI_MAGIC && be32_at(buf@, 8)
                != agno ==> r matches Err(FxfspError::Parse(_)),
            buf@.len() < AGI_MIN_LEN ==> r matches Err(FxfspError::Parse(_)),
            r is Err ==> (r matches Err(FxfspError::BadMagic(_)) || r matches Err(
                FxfspError::Parse(_),
            )),
    {
        if buf.len() < AGI_MIN_LEN {
            return Err(FxfspError::Parse("buffer too small for AGI"));
        }
        if read_be32(buf, 0) != XFS_AGI_MAGIC {
            return Err(FxfspError::BadMagic("AGI header"));
        }
        if read_be32(buf, 8) != agno {
            return Err(FxfspError::Parse("AGI sequence number mismatch"));
        }
        Ok(AgiInfo { ag_number: agno, inobt_root: read_be32(buf, 20), inobt_level: read_be32(buf, 24) })
    }
}

} // verus!
