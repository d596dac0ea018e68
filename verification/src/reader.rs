//! The byte-range reader the scanner drives.
//!
//! The scanner's only I/O surface is the [`IoReader`] trait: a reader over
//! an abstract device, modelled as the byte sequence [`IoReader::device`].
//! A read returns exactly the requested range of that sequence, clamped at
//! the device end; a batch read answers one buffer per request. The
//! default batch implementation falls back to sequential `read_at` calls
//! and is always valid; a real reader may reorder and merge the physical
//! reads as long as each logical request still gets its own answer.
//!
//! [`MemReader`] reads from an in-memory image and is proved to meet the
//! contract.

use vstd::prelude::*;

use crate::error::FxfspError;

verus! {

/// I/O phase labels, used only for diagnostics.
#[derive(Debug, Clone, Copy, PartialEq, Eq, Structural)]
pub enum IoPhase {
    Superblock,
    Agi,
    InobtWalk,
    InodeChunks,
    BmbtWalk,
    DirExtents,
}

/// One request of a batched read: `tag` is echoed back to the caller's
/// bookkeeping and never interpreted by the reader.
#[derive(Debug, Clone, Copy, PartialEq, Eq, Structural)]
pub struct IoRequest {
    pub offset: u64,
    pub len: usize,
    pub tag: u64,
}

/// The bytes a read of `len` at `offset` returns from device contents
/// `dev`: the requested range, clamped at end of device. A read may be
/// short only there.
pub open spec fn spec_read_range(dev: Seq<u8>, offset: u64, len: usize) -> Seq<u8> {
    if offset as int >= dev.len() {
        Seq::empty()
    } else if offset as int + len as int <= dev.len() {
        dev.subrange(offset as int, offset as int + len as int)
    } else {
        dev.subrange(offset as int, dev.len() as int)
    }
}

/// Reader of raw bytes from a block device or image file.
///
/// Offsets and lengths must be multiples of the 512-byte I/O alignment.
/// A reader may fail (an implementation over real hardware decides
/// that), and reports every failure as `FxfspError::Io`; what it returns
/// on success is pinned to the device contents, which a read never
/// changes.
pub trait IoReader: Sized {
    /// The byte contents of the underlying device or image. A verified
    /// reader overrides this with its own model; the default leaves an
    /// unverified reader's contents unconstrained.
    open spec fn device(&self) -> Seq<u8> {
        Seq::empty()
    }

    /// Read `len` bytes at byte offset `offset`; short only at end of
    /// device.
    fn read_at(&mut self, offset: u64, len: usize, phase: IoPhase) -> (r: Result<
        Vec<u8>,
        FxfspError,
    >)
        requires
            offset % 512 == 0,
            len % 512 == 0,
        ensures
            final(self).device() == old(self).device(),
            r matches Ok(buf) ==> buf@ == spec_read_range(old(self).device(), offset, len),
            r matches Err(e) ==> e is Io,
    ;

    /// Batch-read: one answer buffer per request, in request order. The
    /// physical reads may be reordered and merged.
    fn coalesced_read_batch(&mut self, requests: &Vec<IoRequest>, phase: IoPhase) -> (r: Result<
        Vec<Vec<u8>>,
        FxfspError,
    >)
        requires
            forall|i: int|
                0 <= i < requests@.len() ==> ((#[trigger] requests@[i]).offset % 512 == 0
                    && requests@[i].len % 512 == 0),
        ensures
            final(self).device() == old(self).device(),
            r matches Ok(bufs) ==> bufs@.len() == requests@.len(),
            r matches Ok(bufs) ==> forall|i: int|
                0 <= i < requests@.len() ==> (#[trigger] bufs@[i])@ == spec_read_range(
                    old(self).device(),
                    requests@[i].offset,
                    requests@[i].len,
                ),
            r matches Err(e) ==> e is Io,
    {
        let mut bufs: Vec<Vec<u8>> = Vec::new();
        let mut i: usize = 0;
        while i < requests.len()
            invariant
                i <= requests@.len(),
                self.device() == old(self).device(),
                bufs@.len() == i,
                forall|j: int|
                    0 <= j < i ==> (#[trigger] bufs@[j])@ == spec_read_range(
                        old(self).device(),
                        requests@[j].offset,
                        requests@[j].len,
                    ),
                forall|j: int|
                    0 <= j < requests@.len() ==> ((#[trigger] requests@[j]).offset % 512 == 0
                        && requests@[j].len % 512 == 0),
            decreases requests@.len() - i,
        {
            let req = requests[i];
            let buf = match self.read_at(req.offset, req.len, phase) {
                Ok(b) => b,
                Err(e) => {
                    return Err(e);
                },
            };
            bufs.push(buf);
            i = i + 1;
        }
        Ok(bufs)
    }
}

/// Physical characteristics of the underlying block device, as a
/// best-effort probe reports them. They inform reader tuning only; the
/// defaults are the conservative assumption of rotational media.
#[derive(Debug, Clone, Copy, PartialEq, Eq, Structural)]
pub struct DiskProfile {
    pub is_rotational: bool,
    pub max_io_bytes: usize,
    pub merge_gap: usize,
}

impl Default for DiskProfile {
    /// Conservative defaults: rotational, 1 MiB requests, 1 MiB merge
    /// gap.
    fn default() -> (r: Self)
        ensures
            r.is_rotational,
            r.max_io_bytes == 0x100000,
            r.merge_gap == 0x100000,
    {
        DiskProfile { is_rotational: true, max_io_bytes: 0x100000, merge_gap: 0x100000 }
    }
}

/// A reader over an in-memory image; never fails.
pub struct MemReader {
    pub data: Vec<u8>,
}

impl MemReader {
    /// Wrap an in-memory image.
    pub fn new(data: Vec<u8>) -> (r: Self)
        ensures
            r.device() == data@,
    {
        MemReader { data }
    }
}

impl IoReader for MemReader {
    open spec fn device(&self) -> Seq<u8> {
        self.data@
    }

    fn read_at(&mut self, offset: u64, len: usize, phase: IoPhase) -> (r: Result<
        Vec<u8>,
        FxfspError,
    >)
        ensures
            r is Ok,
    {
        let total = self.data.len();
        if offset >= total as u64 {
            return Ok(Vec::new());
        }
        let start = offset as usize;
        let end = if len <= total - start {
            start + len
        } else {
            total
        };
        let mut out: Vec<u8> = Vec::new();
        let mut j = start;
        while j < end
            invariant
                start <= j <= end <= self.data@.len(),
                out@.len() == j - start,
                forall|k: int| 0 <= k < out@.len() ==> out@[k] == self.data@[start + k],
                self.data@ == old(self).data@,
            decreases end - j,
        {
            let b = self.data[j];
            out.push(b);
            j = j + 1;
        }
        proof {
            assert(out@ =~= spec_read_range(self.data@, offset, len));
        }
        Ok(out)
    }
}

} // verus!
