//! Block-mapping B-tree (bmbt) walking for btree-format forks.
//!
//! Every btree-format inode of an AG contributes the child pointers of its
//! in-inode root; the walk then reads each tree level in one sorted
//! coalesced sweep across all those inodes at once, accumulating a map
//! from inode number to extent list. The spec functions model the whole
//! collection as a function of the device contents and the fork bytes.

use vstd::prelude::*;

use crate::endian::{be16_at, be32_at, be64_at, read_be16, read_be32, read_be64};
use crate::error::FxfspError;
use crate::reader::{IoPhase, IoReader, IoRequest, spec_read_range};
use crate::xfs::extent::{spec_fsblock_to_ag, spec_fsblock_to_byte, spec_unpack_extent, Extent, XfsBmbtRec, fsblock_to_byte};
use crate::xfs::superblock::{lemma_block_read_aligned, FormatVersion, FsContext};

verus! {

/// V4 bmbt long-form block magic: "BMAP".
pub const XFS_BMAP_MAGIC: u32 = 0x424d4150;

/// V5 bmbt long-form block magic: "BMA3".
pub const XFS_BMAP3_MAGIC: u32 = 0x424d4133;

/// One btree-format fork whose bmbt needs walking: the owning inode, the
/// copied data-fork bytes, and the fork area size the in-inode root was
/// laid out for.
pub struct BmbtDirInput {
    pub ino: u64,
    pub fork_data: Vec<u8>,
    pub data_fork_size: usize,
}

/// An on-disk bmbt block still to be read: its absolute filesystem block,
/// the inode whose tree it belongs to, and the level its header must
/// carry.
#[derive(Debug, Clone, Copy, PartialEq, Eq, Structural)]
pub struct PendingBlock {
    pub fsblock: u64,
    pub owner_ino: u64,
    pub expected_level: u16,
}

/// The bmbt block magic of the format generation.
pub open spec fn spec_bmbt_magic(version: FormatVersion) -> u32 {
    if version is V5 {
        XFS_BMAP3_MAGIC
    } else {
        XFS_BMAP_MAGIC
    }
}

/// Long-form bmbt block header size: 24 bytes in V4, 72 in V5.
pub open spec fn spec_bmbt_hdr_size(version: FormatVersion) -> usize {
    if version is V5 {
        72
    } else {
        24
    }
}

/// Long-form bmbt block header size by format generation.
pub fn bmbt_block_hdr_size(version: FormatVersion) -> (r: usize)
    ensures
        r == spec_bmbt_hdr_size(version),
{
    match version {
        FormatVersion::V4 => 24,
        FormatVersion::V5 => 72,
    }
}

/// How many whole `item`-byte records starting at `start` fit in `len`
/// bytes, capped at `n`: the walk silently stops at the end of the buffer.
pub open spec fn spec_capped_count(n: int, len: int, start: int, item: int) -> int {
    if len < start {
        0
    } else if n <= (len - start) / item {
        n
    } else {
        (len - start) / item
    }
}

/// The extent records of a bmbt leaf buffer (records of 16 bytes at
/// `start`), capped at the buffer end.
pub open spec fn spec_bmbt_records(b: Seq<u8>, start: int, n: int) -> Seq<Extent> {
    Seq::new(
        spec_capped_count(n, b.len() as int, start, 16) as nat,
        |i: int| spec_unpack_extent(be64_at(b, start + 16 * i), be64_at(b, start + 16 * i + 8)),
    )
}

/// The child pending entries of an interior bmbt buffer (8-byte pointers
/// at `start`), capped at the buffer end.
pub open spec fn spec_bmbt_children(
    b: Seq<u8>,
    start: int,
    n: int,
    owner: u64,
    next_level: u16,
) -> Seq<PendingBlock> {
    Seq::new(
        spec_capped_count(n, b.len() as int, start, 8) as nat,
        |i: int|
            PendingBlock {
                fsblock: be64_at(b, start + 8 * i),
                owner_ino: owner,
                expected_level: next_level,
            },
    )
}

/// Index of the first accumulator entry owned by `ino`, or the length if
/// none is.
pub open spec fn spec_find_owner(acc: Seq<(u64, Seq<Extent>)>, ino: u64) -> int
    decreases acc.len(),
{
    if acc.len() == 0 {
        0
    } else if acc.first().0 == ino {
        0
    } else {
        1 + spec_find_owner(acc.drop_first(), ino)
    }
}

/// What `spec_find_owner` returns: an index within bounds pointing at
/// `ino`'s entry, or the length with no entry owned by `ino` before it.
pub proof fn lemma_find_owner(acc: Seq<(u64, Seq<Extent>)>, ino: u64)
    ensures
        0 <= spec_find_owner(acc, ino) <= acc.len(),
        spec_find_owner(acc, ino) < acc.len() ==> acc[spec_find_owner(acc, ino)].0 == ino,
        forall|k: int| 0 <= k < spec_find_owner(acc, ino) ==> (#[trigger] acc[k]).0 != ino,
    decreases acc.len(),
{
    if acc.len() == 0 {
    } else if acc.first().0 == ino {
    } else {
        lemma_find_owner(acc.drop_first(), ino);
        assert forall|k: int| 0 <= k < spec_find_owner(acc, ino) implies (#[trigger] acc[k]).0
            != ino by {
            if k > 0 {
                assert(acc.drop_first()[k - 1] == acc[k]);
            }
        }
    }
}

/// Append `exts` to `ino`'s entry, or open a new entry at the end; an
/// empty list changes nothing.
pub open spec fn spec_upsert(
    acc: Seq<(u64, Seq<Extent>)>,
    ino: u64,
    exts: Seq<Extent>,
) -> Seq<(u64, Seq<Extent>)> {
    if exts.len() == 0 {
        acc
    } else {
        let j = spec_find_owner(acc, ino);
        if j < acc.len() {
            acc.update(j, (ino, acc[j].1 + exts))
        } else {
            acc.push((ino, exts))
        }
    }
}

/// The accumulator as mathematics: each entry's extent vector as a
/// sequence.
pub open spec fn spec_acc_view(v: Seq<(u64, Vec<Extent>)>) -> Seq<(u64, Seq<Extent>)> {
    v.map_values(|p: (u64, Vec<Extent>)| (p.0, p.1@))
}

fn upsert_extents(acc: Vec<(u64, Vec<Extent>)>, ino: u64, exts: Vec<Extent>) -> (r: Vec<
    (u64, Vec<Extent>),
>)
    ensures
        spec_acc_view(r@) == spec_upsert(spec_acc_view(acc@), ino, exts@),
{
    let ghost gacc = spec_acc_view(acc@);
    let ghost gexts = exts@;
    proof {
        lemma_find_owner(gacc, ino);
    }
    let mut acc = acc;
    let mut exts = exts;
    if exts.len() == 0 {
        assert(spec_acc_view(acc@) =~= spec_upsert(gacc, ino, gexts));
        return acc;
    }
    let mut j: usize = 0;
    let mut found = false;
    while j < acc.len()
        invariant_except_break
            !found,
        invariant
            j <= acc@.len(),
            forall|k: int| 0 <= k < j ==> (#[trigger] spec_acc_view(acc@)[k]).0 != ino,
            found ==> j < acc@.len() && spec_acc_view(acc@)[j as int].0 == ino,
            spec_acc_view(acc@) == gacc,
        ensures
            found ==> j < acc@.len() && spec_acc_view(acc@)[j as int].0 == ino,
            !found ==> forall|k: int| 0 <= k < acc@.len() ==> (#[trigger] spec_acc_view(
                acc@,
            )[k]).0 != ino,
        decreases acc@.len() - j,
    {
        if acc[j].0 == ino {
            found = true;
            break ;
        }
        j = j + 1;
    }
    proof {
        if found {
            assert(spec_find_owner(gacc, ino) == j) by {
                if spec_find_owner(gacc, ino) < j {
                    assert(gacc[spec_find_owner(gacc, ino)].0 == ino);
                    assert((gacc[spec_find_owner(gacc, ino)]).0 != ino);
                } else if spec_find_owner(gacc, ino) > j {
                    assert((gacc[j as int]).0 != ino);
                }
            }
        } else {
            assert(spec_find_owner(gacc, ino) == gacc.len()) by {
                if spec_find_owner(gacc, ino) < gacc.len() {
                    assert(gacc[spec_find_owner(gacc, ino)].0 == ino);
                    assert((gacc[spec_find_owner(gacc, ino)]).0 != ino);
                }
            }
        }
    }
    if found {
        let (eino, mut evec) = acc.remove(j);
        evec.append(&mut exts);
        acc.insert(j, (eino, evec));
        proof {
            assert(spec_acc_view(acc@) =~= spec_upsert(gacc, ino, gexts));
        }
    } else {
        acc.push((ino, exts));
        proof {
            assert(spec_acc_view(acc@) =~= spec_upsert(gacc, ino, gexts));
        }
    }
    acc
}

/// `s` with `v` inserted after the last entry whose filesystem block is
/// not greater than `v`'s.
pub open spec fn spec_insert_pending(s: Seq<PendingBlock>, v: PendingBlock) -> Seq<PendingBlock>
    decreases s.len(),
{
    if s.len() == 0 {
        seq![v]
    } else if s.last().fsblock <= v.fsblock {
        s.push(v)
    } else {
        spec_insert_pending(s.drop_last(), v).push(s.last())
    }
}

/// `s` sorted ascending by filesystem block.
pub open spec fn spec_sort_pending(s: Seq<PendingBlock>) -> Seq<PendingBlock>
    decreases s.len(),
{
    if s.len() == 0 {
        s
    } else {
        spec_insert_pending(spec_sort_pending(s.drop_last()), s.last())
    }
}

fn insert_pending(s: Vec<PendingBlock>, v: PendingBlock) -> (r: Vec<PendingBlock>)
    ensures
        r@ == spec_insert_pending(s@, v),
    decreases s@.len(),
{
    let mut s = s;
    if s.len() == 0 {
        s.push(v);
        s
    } else {
        let last = s[s.len() - 1];
        if last.fsblock <= v.fsblock {
            s.push(v);
            s
        } else {
            let popped = s.pop().unwrap();
            let mut r = insert_pending(s, v);
            r.push(popped);
            r
        }
    }
}

fn sort_pending(s: Vec<PendingBlock>) -> (r: Vec<PendingBlock>)
    ensures
        r@ == spec_sort_pending(s@),
    decreases s@.len(),
{
    let mut s = s;
    if s.len() == 0 {
        s
    } else {
        let last = s.pop().unwrap();
        let sorted = sort_pending(s);
        insert_pending(sorted, last)
    }
}

/// A bound on every pending level survives an insertion.
proof fn lemma_insert_pending_levels(s: Seq<PendingBlock>, v: PendingBlock, bound: int)
    requires
        forall|i: int| 0 <= i < s.len() ==> (#[trigger] s[i]).expected_level < bound,
        v.expected_level < bound,
    ensures
        forall|i: int|
            0 <= i < spec_insert_pending(s, v).len() ==> (#[trigger] spec_insert_pending(
                s,
                v,
            )[i]).expected_level < bound,
    decreases s.len(),
{
    let r = spec_insert_pending(s, v);
    if s.len() == 0 {
        assert forall|i: int| 0 <= i < r.len() implies (#[trigger] r[i]).expected_level
            < bound by {
            assert(r[i] == v);
        }
    } else if s.last().fsblock <= v.fsblock {
        assert forall|i: int| 0 <= i < r.len() implies (#[trigger] r[i]).expected_level
            < bound by {
            if i < s.len() {
                assert(r[i] == s[i]);
            } else {
                assert(r[i] == v);
            }
        }
    } else {
        assert(forall|i: int|
            0 <= i < s.drop_last().len() ==> (#[trigger] s.drop_last()[i]).expected_level < bound);
        lemma_insert_pending_levels(s.drop_last(), v, bound);
        let rr = spec_insert_pending(s.drop_last(), v);
        assert forall|i: int| 0 <= i < r.len() implies (#[trigger] r[i]).expected_level
            < bound by {
            if i < rr.len() {
                assert(r[i] == rr[i]);
            } else {
                assert(r[i] == s.last());
                assert(s[s.len() - 1].expected_level < bound);
            }
        }
    }
}

/// A bound on every pending level survives sorting.
proof fn lemma_sort_pending_levels(s: Seq<PendingBlock>, bound: int)
    requires
        forall|i: int| 0 <= i < s.len() ==> (#[trigger] s[i]).expected_level < bound,
    ensures
        forall|i: int|
            0 <= i < spec_sort_pending(s).len() ==> (#[trigger] spec_sort_pending(
                s,
            )[i]).expected_level < bound,
    decreases s.len(),
{
    if s.len() == 0 {
    } else {
        assert(forall|i: int|
            0 <= i < s.drop_last().len() ==> (#[trigger] s.drop_last()[i]).expected_level < bound);
        lemma_sort_pending_levels(s.drop_last(), bound);
        lemma_insert_pending_levels(spec_sort_pending(s.drop_last()), s.last(), bound);
    }
}

/// Offset of the child-pointer array of an in-inode root laid out for a
/// fork area of `data_fork_size` bytes: after the 4-byte header and
/// `maxrecs = (data_fork_size - 4) / 16` 8-byte keys.
pub open spec fn spec_root_ptr_start(data_fork_size: int) -> int {
    if data_fork_size < 4 {
        4
    } else {
        4 + ((data_fork_size - 4) / 16) * 8
    }
}

/// The in-inode root of one fork, folded into the accumulator and the
/// pending list: a leaf-level root contributes its inline records, an
/// interior root contributes its child pointers.
pub open spec fn spec_bmbt_root_step(
    st: (Seq<(u64, Seq<Extent>)>, Seq<PendingBlock>),
    ino: u64,
    fork: Seq<u8>,
    data_fork_size: int,
) -> Option<(Seq<(u64, Seq<Extent>)>, Seq<PendingBlock>)> {
    if fork.len() < 4 {
        None
    } else {
        let level = be16_at(fork, 0);
        let n = be16_at(fork, 2);
        if level == 0 {
            Some((spec_upsert(st.0, ino, spec_bmbt_records(fork, 4, n as int)), st.1))
        } else {
            Some(
                (
                    st.0,
                    st.1 + spec_bmbt_children(
                        fork,
                        spec_root_ptr_start(data_fork_size),
                        n as int,
                        ino,
                        (level - 1) as u16,
                    ),
                ),
            )
        }
    }
}

/// All in-inode roots folded left to right.
pub open spec fn spec_bmbt_roots(dirs: Seq<(u64, Seq<u8>, int)>) -> Option<
    (Seq<(u64, Seq<Extent>)>, Seq<PendingBlock>),
>
    decreases dirs.len(),
{
    if dirs.len() == 0 {
        Some((Seq::empty(), Seq::empty()))
    } else {
        match spec_bmbt_roots(dirs.drop_last()) {
            None => None,
            Some(st) => spec_bmbt_root_step(st, dirs.last().0, dirs.last().1, dirs.last().2),
        }
    }
}

/// The bytes a block-sized read of absolute filesystem block `fsblock`
/// returns.
pub open spec fn spec_bmbt_block(dev: Seq<u8>, ctx: FsContext, fsblock: u64) -> Seq<u8> {
    spec_read_range(dev, spec_fsblock_to_byte(ctx, fsblock), ctx.block_size as usize)
}

/// Is a fetched bmbt block acceptable for its pending entry: at least a
/// word of header, the right magic, and the expected level?
pub open spec fn spec_bmbt_block_ok(dev: Seq<u8>, ctx: FsContext, p: PendingBlock) -> bool {
    let b = spec_bmbt_block(dev, ctx, p.fsblock);
    &&& b.len() >= 8
    &&& be32_at(b, 0) == spec_bmbt_magic(ctx.version)
    &&& be16_at(b, 4) == p.expected_level
}

/// Offset of the child-pointer array of an on-disk interior block.
pub open spec fn spec_block_ptr_start(ctx: FsContext) -> int {
    spec_bmbt_hdr_size(ctx.version) + ((ctx.block_size as int - spec_bmbt_hdr_size(ctx.version))
        / 16) * 8
}

/// One generation's blocks folded in sorted order: leaves extend their
/// owner's extents, interior blocks change nothing here.
pub open spec fn spec_bmbt_gen_acc(
    dev: Seq<u8>,
    ctx: FsContext,
    acc: Seq<(u64, Seq<Extent>)>,
    sorted: Seq<PendingBlock>,
) -> Seq<(u64, Seq<Extent>)>
    decreases sorted.len(),
{
    if sorted.len() == 0 {
        acc
    } else {
        let p = sorted.last();
        let prev = spec_bmbt_gen_acc(dev, ctx, acc, sorted.drop_last());
        let b = spec_bmbt_block(dev, ctx, p.fsblock);
        if p.expected_level == 0 {
            spec_upsert(
                prev,
                p.owner_ino,
                spec_bmbt_records(b, spec_bmbt_hdr_size(ctx.version) as int, be16_at(b, 6) as int),
            )
        } else {
            prev
        }
    }
}

/// What one generation's block contributes to the next: nothing for a
/// leaf, its children for an interior block.
pub open spec fn spec_bmbt_block_children(dev: Seq<u8>, ctx: FsContext, p: PendingBlock) -> Seq<
    PendingBlock,
> {
    let b = spec_bmbt_block(dev, ctx, p.fsblock);
    if p.expected_level == 0 {
        Seq::<PendingBlock>::empty()
    } else {
        spec_bmbt_children(
            b,
            spec_block_ptr_start(ctx),
            be16_at(b, 6) as int,
            p.owner_ino,
            (p.expected_level - 1) as u16,
        )
    }
}

/// One generation's children, in sorted-block order.
pub open spec fn spec_bmbt_gen_next(dev: Seq<u8>, ctx: FsContext, sorted: Seq<PendingBlock>) -> Seq<
    PendingBlock,
> {
    sorted.map_values(|p: PendingBlock| spec_bmbt_block_children(dev, ctx, p)).flatten()
}

/// The level-by-level sweep: sort the pending blocks by filesystem block,
/// demand each acceptable, fold the generation, recurse on the children.
/// `fuel` only bounds the recursion; one more generation than the deepest
/// pending level is always enough.
pub open spec fn spec_bmbt_sweep(
    dev: Seq<u8>,
    ctx: FsContext,
    acc: Seq<(u64, Seq<Extent>)>,
    pending: Seq<PendingBlock>,
    fuel: nat,
) -> Option<Seq<(u64, Seq<Extent>)>>
    decreases fuel,
{
    if pending.len() == 0 {
        Some(acc)
    } else if fuel == 0 {
        None
    } else {
        let sorted = spec_sort_pending(pending);
        if !(forall|i: int|
            0 <= i < sorted.len() ==> spec_bmbt_block_ok(dev, ctx, #[trigger] sorted[i])) {
            None
        } else {
            spec_bmbt_sweep(
                dev,
                ctx,
                spec_bmbt_gen_acc(dev, ctx, acc, sorted),
                spec_bmbt_gen_next(dev, ctx, sorted),
                (fuel - 1) as nat,
            )
        }
    }
}

/// The dirs as mathematics: `(inode, fork bytes, fork area size)`.
pub open spec fn spec_dirs_view(dirs: Seq<BmbtDirInput>) -> Seq<(u64, Seq<u8>, int)> {
    dirs.map_values(|d: BmbtDirInput| (d.ino, d.fork_data@, d.data_fork_size as int))
}

/// The complete bmbt collection over fork views: fold the in-inode
/// roots, then sweep the on-disk levels. 0x10000 generations cover every
/// 16-bit level.
pub open spec fn spec_collect_bmbt_v(
    dev: Seq<u8>,
    ctx: FsContext,
    dirs: Seq<(u64, Seq<u8>, int)>,
) -> Option<Seq<(u64, Seq<Extent>)>> {
    match spec_bmbt_roots(dirs) {
        None => None,
        Some(st) => spec_bmbt_sweep(dev, ctx, st.0, st.1, 0x10000),
    }
}

/// The complete bmbt collection of a batch of fork inputs.
pub open spec fn spec_collect_bmbt(dev: Seq<u8>, ctx: FsContext, dirs: Seq<BmbtDirInput>) -> Option<
    Seq<(u64, Seq<Extent>)>,
> {
    spec_collect_bmbt_v(dev, ctx, spec_dirs_view(dirs))
}

/// With no btree forks queued, the collection is empty.
pub proof fn lemma_collect_bmbt_empty(dev: Seq<u8>, ctx: FsContext)
    ensures
        spec_collect_bmbt(dev, ctx, Seq::empty()) == Some(Seq::<(u64, Seq<Extent>)>::empty()),
{
    assert(spec_dirs_view(Seq::empty()) =~= Seq::<(u64, Seq<u8>, int)>::empty());
}

/// If the fold of a prefix of the roots fails, the fold of the whole list
/// fails.
proof fn lemma_bmbt_roots_none_prefix(dirs: Seq<(u64, Seq<u8>, int)>, k: int)
    requires
        0 <= k <= dirs.len(),
        spec_bmbt_roots(dirs.take(k)) is None,
    ensures
        spec_bmbt_roots(dirs) is None,
    decreases dirs.len() - k,
{
    if k < dirs.len() {
        assert(dirs.take(k + 1).drop_last() =~= dirs.take(k));
        lemma_bmbt_roots_none_prefix(dirs, k + 1);
    } else {
        assert(dirs.take(k) =~= dirs);
    }
}

/// Read up to `n` 16-byte extent records at `start`, stopping at the end
/// of the buffer.
fn parse_capped_records(buf: &[u8], start: usize, n: usize) -> (r: Vec<Extent>)
    ensures
        r@ == spec_bmbt_records(buf@, start as int, n as int),
{
    let len = buf.len();
    let avail: usize = if len < start {
        0
    } else {
        (len - start) / 16
    };
    let count = if n <= avail {
        n
    } else {
        avail
    };
    proof {
        if len >= start {
            vstd::arithmetic::div_mod::lemma_fundamental_div_mod((len - start) as int, 16);
        }
        assert(count as int == spec_capped_count(n as int, len as int, start as int, 16));
    }
    let mut extents: Vec<Extent> = Vec::new();
    let mut i: usize = 0;
    while i < count
        invariant
            len == buf@.len(),
            count <= n,
            len >= start ==> count <= (len - start) / 16,
            len < start ==> count == 0,
            i <= count,
            extents@.len() == i,
            forall|j: int|
                0 <= j < i ==> extents@[j] == spec_unpack_extent(
                    be64_at(buf@, start + 16 * j),
                    be64_at(buf@, start + 16 * j + 8),
                ),
        decreases count - i,
    {
        proof {
            vstd::arithmetic::div_mod::lemma_fundamental_div_mod((len - start) as int, 16);
        }
        let off = start + 16 * i;
        let rec = XfsBmbtRec { l0: read_be64(buf, off), l1: read_be64(buf, off + 8) };
        extents.push(rec.unpack());
        i = i + 1;
    }
    proof {
        assert(extents@ =~= spec_bmbt_records(buf@, start as int, n as int));
    }
    extents
}

/// Read up to `n` 8-byte child pointers at `start`, stopping at the end
/// of the buffer.
fn parse_capped_children(buf: &[u8], start: usize, n: usize, owner: u64, next_level: u16) -> (r:
    Vec<PendingBlock>)
    ensures
        r@ == spec_bmbt_children(buf@, start as int, n as int, owner, next_level),
{
    let len = buf.len();
    let avail: usize = if len < start {
        0
    } else {
        (len - start) / 8
    };
    let count = if n <= avail {
        n
    } else {
        avail
    };
    proof {
        if len >= start {
            vstd::arithmetic::div_mod::lemma_fundamental_div_mod((len - start) as int, 8);
        }
        assert(count as int == spec_capped_count(n as int, len as int, start as int, 8));
    }
    let mut children: Vec<PendingBlock> = Vec::new();
    let mut i: usize = 0;
    while i < count
        invariant
            len == buf@.len(),
            count <= n,
            len >= start ==> count <= (len - start) / 8,
            len < start ==> count == 0,
            i <= count,
            children@.len() == i,
            forall|j: int|
                0 <= j < i ==> children@[j] == (PendingBlock {
                    fsblock: be64_at(buf@, start + 8 * j),
                    owner_ino: owner,
                    expected_level: next_level,
                }),
        decreases count - i,
    {
        proof {
            vstd::arithmetic::div_mod::lemma_fundamental_div_mod((len - start) as int, 8);
        }
        let off = start + 8 * i;
        children.push(
            PendingBlock { fsblock: read_be64(buf, off), owner_ino: owner, expected_level: next_level },
        );
        i = i + 1;
    }
    proof {
        assert(children@ =~= spec_bmbt_children(buf@, start as int, n as int, owner, next_level));
    }
    children
}

/// Parse one fetched bmbt block against its pending entry: leaf records
/// for level 0, child pendings otherwise.
fn parse_bmbt_block(buf: &[u8], ctx: &FsContext, p: PendingBlock) -> (r: Result<
    (Vec<Extent>, Vec<PendingBlock>),
    FxfspError,
>)
    requires
        ctx.wf(),
    ensures
        r is Ok <==> (buf@.len() >= 8 && be32_at(buf@, 0) == spec_bmbt_magic(ctx.version)
            && be16_at(buf@, 4) == p.expected_level),
        r matches Ok(v) ==> (p.expected_level == 0 ==> v.0@ == spec_bmbt_records(
            buf@,
            spec_bmbt_hdr_size(ctx.version) as int,
            be16_at(buf@, 6) as int,
        ) && v.1@ =~= Seq::<PendingBlock>::empty()),
        r matches Ok(v) ==> (p.expected_level != 0 ==> v.0@ =~= Seq::<Extent>::empty() && v.1@
            == spec_bmbt_children(
            buf@,
            spec_block_ptr_start(*ctx),
            be16_at(buf@, 6) as int,
            p.owner_ino,
            (p.expected_level - 1) as u16,
        )),
        r is Err ==> (r matches Err(FxfspError::BadMagic(_)) || r matches Err(
            FxfspError::Parse(_),
        )),
{
    if buf.len() < 8 {
        return Err(FxfspError::Parse("bmbt block too small"));
    }
    let magic = read_be32(buf, 0);
    let expected_magic = match ctx.version {
        FormatVersion::V4 => XFS_BMAP_MAGIC,
        FormatVersion::V5 => XFS_BMAP3_MAGIC,
    };
    if magic != expected_magic {
        return Err(FxfspError::BadMagic("bmbt block"));
    }
    let level = read_be16(buf, 4);
    let numrecs = read_be16(buf, 6);
    if level != p.expected_level {
        return Err(FxfspError::Parse("bmbt level mismatch"));
    }
    let hdr_size = bmbt_block_hdr_size(ctx.version);
    if level == 0 {
        let extents = parse_capped_records(buf, hdr_size, numrecs as usize);
        Ok((extents, Vec::new()))
    } else {
        proof {
            ctx.lemma_wf_bounds();
        }
        let block_size = ctx.block_size as usize;
        let maxrecs = (block_size - hdr_size) / 16;
        let ptr_start = hdr_size + maxrecs * 8;
        proof {
            vstd::arithmetic::div_mod::lemma_fundamental_div_mod(
                (block_size - hdr_size) as int,
                16,
            );
        }
        let children = parse_capped_children(buf, ptr_start, numrecs as usize, p.owner_ino, level
            - 1);
        Ok((Vec::new(), children))
    }
}

/// Collect extent records from all btree-format forks of an AG in one
/// batched, level-by-level walk.
///
/// Returns `(inode number, extents)` pairs, one per fork that contributed
/// at least one record, in the order the walk first touched each inode.
/// On success the result is exactly [`spec_collect_bmbt`] of the device
/// contents and the fork bytes; a bad magic, a level mismatch, a short
/// root, or a reader failure is fatal.
#[verifier::rlimit(100)]
pub fn collect_all_bmbt_extents<R: IoReader>(
    engine: &mut R,
    ctx: &FsContext,
    dirs: &Vec<BmbtDirInput>,
) -> (r: Result<Vec<(u64, Vec<Extent>)>, FxfspError>)
    requires
        ctx.wf(),
    ensures
        final(engine).device() == old(engine).device(),
        r matches Ok(v) ==> Some(spec_acc_view(v@)) == spec_collect_bmbt(
            old(engine).device(),
            *ctx,
            dirs@,
        ),
        spec_collect_bmbt(old(engine).device(), *ctx, dirs@) is None ==> r is Err,
        r matches Err(e) ==> (e is Io || e is BadMagic || e is Parse),
        spec_bmbt_roots(spec_dirs_view(dirs@)) is None ==> r matches Err(FxfspError::Parse(_)),
{
    let ghost dev = old(engine).device();
    let mut results: Vec<(u64, Vec<Extent>)> = Vec::new();
    let mut pending: Vec<PendingBlock> = Vec::new();
    let mut d: usize = 0;
    while d < dirs.len()
        invariant
            ctx.wf(),
            d <= dirs@.len(),
            Some((spec_acc_view(results@), pending@)) == spec_bmbt_roots(
                spec_dirs_view(dirs@).take(d as int),
            ),
            forall|i: int|
                0 <= i < pending@.len() ==> (#[trigger] pending@[i]).expected_level < 0x10000,
        decreases dirs@.len() - d,
    {
        let ghost prefix = spec_dirs_view(dirs@).take(d as int);
        let dir = &dirs[d];
        if dir.fork_data.len() < 4 {
            proof {
                assert(spec_dirs_view(dirs@).take(d + 1).drop_last() =~= prefix);
                assert(spec_bmbt_roots(spec_dirs_view(dirs@).take(d + 1)) is None);
                lemma_bmbt_roots_none_prefix(spec_dirs_view(dirs@), d + 1);
            }
            return Err(FxfspError::Parse("bmbt root too small"));
        }
        let level = read_be16(&dir.fork_data, 0);
        let numrecs = read_be16(&dir.fork_data, 2);
        if level == 0 {
            let exts = parse_capped_records(&dir.fork_data, 4, numrecs as usize);
            results = upsert_extents(results, dir.ino, exts);
        } else {
            let dfs = dir.data_fork_size;
            let maxrecs: usize = if dfs < 4 {
                0
            } else {
                (dfs - 4) / 16
            };
            let ptr_start_big: u64 = 4 + (maxrecs as u64) * 8;
            let flen = dir.fork_data.len();
            let mut cs: Vec<PendingBlock> = if ptr_start_big <= flen as u64 {
                parse_capped_children(
                    &dir.fork_data,
                    ptr_start_big as usize,
                    numrecs as usize,
                    dir.ino,
                    level - 1,
                )
            } else {
                Vec::new()
            };
            proof {
                if ptr_start_big > flen as u64 {
                    assert(spec_capped_count(
                        numrecs as int,
                        flen as int,
                        spec_root_ptr_start(dfs as int),
                        8,
                    ) == 0);
                    assert(cs@ =~= spec_bmbt_children(
                        dir.fork_data@,
                        spec_root_ptr_start(dfs as int),
                        numrecs as int,
                        dir.ino,
                        (level - 1) as u16,
                    ));
                }
            }
            pending.append(&mut cs);
        }
        d = d + 1;
        proof {
            assert(spec_dirs_view(dirs@).take(d as int).drop_last() =~= prefix);
        }
    }
    proof {
        assert(spec_dirs_view(dirs@).take(dirs@.len() as int) =~= spec_dirs_view(dirs@));
    }
    run_bmbt_sweep(engine, ctx, results, pending, Ghost(0x10000))
}

/// The executable sweep: one [`bmbt_generation`] per tree level until no
/// block is pending; see [`spec_bmbt_sweep`].
fn run_bmbt_sweep<R: IoReader>(
    engine: &mut R,
    ctx: &FsContext,
    results: Vec<(u64, Vec<Extent>)>,
    pending: Vec<PendingBlock>,
    Ghost(fuel): Ghost<nat>,
) -> (r: Result<Vec<(u64, Vec<Extent>)>, FxfspError>)
    requires
        ctx.wf(),
        forall|i: int|
            0 <= i < pending@.len() ==> (#[trigger] pending@[i]).expected_level < fuel,
    ensures
        final(engine).device() == old(engine).device(),
        r matches Ok(v) ==> Some(spec_acc_view(v@)) == spec_bmbt_sweep(
            old(engine).device(),
            *ctx,
            spec_acc_view(results@),
            pending@,
            fuel,
        ),
        r matches Err(e) ==> (e is Io || e is BadMagic || e is Parse),
    decreases fuel,
{
    let ghost dev = old(engine).device();
    let ghost results0 = spec_acc_view(results@);
    let ghost pending0 = pending@;
    if pending.len() == 0 {
        return Ok(results);
    }
    let stepped = match bmbt_generation(engine, ctx, results, pending, Ghost(fuel as int)) {
        Ok(v) => v,
        Err(e) => {
            return Err(e);
        },
    };
    proof {
        lemma_bmbt_sweep_step(dev, *ctx, results0, pending0, fuel);
    }
    run_bmbt_sweep(engine, ctx, stepped.0, stepped.1, Ghost((fuel - 1) as nat))
}

/// Unfolding the sweep by one generation whose blocks are all acceptable.
#[verifier::spinoff_prover]
proof fn lemma_bmbt_sweep_step(
    dev: Seq<u8>,
    ctx: FsContext,
    acc: Seq<(u64, Seq<Extent>)>,
    pending: Seq<PendingBlock>,
    fuel: nat,
)
    requires
        pending.len() > 0,
        fuel > 0,
        forall|i: int|
            0 <= i < spec_sort_pending(pending).len() ==> spec_bmbt_block_ok(
                dev,
                ctx,
                #[trigger] spec_sort_pending(pending)[i],
            ),
    ensures
        spec_bmbt_sweep(dev, ctx, acc, pending, fuel) == spec_bmbt_sweep(
            dev,
            ctx,
            spec_bmbt_gen_acc(dev, ctx, acc, spec_sort_pending(pending)),
            spec_bmbt_gen_next(dev, ctx, spec_sort_pending(pending)),
            (fuel - 1) as nat,
        ),
{
}

/// One generation of the sweep: sort the pending blocks, read them in one
/// batch, fold the leaves into the accumulator and gather the next
/// generation's children.
#[verifier::rlimit(100)]
fn bmbt_generation<R: IoReader>(
    engine: &mut R,
    ctx: &FsContext,
    results: Vec<(u64, Vec<Extent>)>,
    pending: Vec<PendingBlock>,
    Ghost(bound): Ghost<int>,
) -> (r: Result<(Vec<(u64, Vec<Extent>)>, Vec<PendingBlock>), FxfspError>)
    requires
        ctx.wf(),
        forall|i: int|
            0 <= i < pending@.len() ==> (#[trigger] pending@[i]).expected_level < bound,
    ensures
        final(engine).device() == old(engine).device(),
        r matches Ok(v) ==> {
            let dev = old(engine).device();
            let sorted = spec_sort_pending(pending@);
            &&& (forall|i: int|
                0 <= i < sorted.len() ==> spec_bmbt_block_ok(dev, *ctx, #[trigger] sorted[i]))
            &&& spec_acc_view(v.0@) == spec_bmbt_gen_acc(
                dev,
                *ctx,
                spec_acc_view(results@),
                sorted,
            )
            &&& v.1@ == spec_bmbt_gen_next(dev, *ctx, sorted)
            &&& (forall|i: int|
                0 <= i < v.1@.len() ==> (#[trigger] v.1@[i]).expected_level + 1 < bound)
        },
        r matches Err(e) ==> (e is Io || e is BadMagic || e is Parse),
{
    let ghost dev = old(engine).device();
    let ghost results0 = spec_acc_view(results@);
    let ghost pending0 = pending@;
    let mut results = results;
    let block_size = ctx.block_size as usize;
    let sorted = sort_pending(pending);
    proof {
        lemma_sort_pending_levels(pending0, bound);
    }
    let mut requests: Vec<IoRequest> = Vec::new();
    let mut i: usize = 0;
    while i < sorted.len()
        invariant
            ctx.wf(),
            i <= sorted@.len(),
            block_size == ctx.block_size as usize,
            requests@.len() == i,
            forall|j: int|
                0 <= j < i ==> (#[trigger] requests@[j]) == (IoRequest {
                    offset: spec_fsblock_to_byte(*ctx, sorted@[j].fsblock),
                    len: ctx.block_size as usize,
                    tag: 0,
                }),
            forall|j: int|
                0 <= j < i ==> ((#[trigger] requests@[j]).offset % 512 == 0 && requests@[j].len
                    % 512 == 0),
        decreases sorted@.len() - i,
    {
        let offset = fsblock_to_byte(ctx, sorted[i].fsblock);
        proof {
            lemma_block_read_aligned(
                *ctx,
                spec_fsblock_to_ag(*ctx, sorted@[i as int].fsblock).0,
                spec_fsblock_to_ag(*ctx, sorted@[i as int].fsblock).1,
            );
        }
        requests.push(IoRequest { offset, len: block_size, tag: 0 });
        i = i + 1;
    }
    let bufs = match engine.coalesced_read_batch(&requests, IoPhase::BmbtWalk) {
        Ok(bufs) => bufs,
        Err(e) => {
            return Err(e);
        },
    };
    assert(forall|j: int|
        0 <= j < sorted@.len() ==> (#[trigger] bufs@[j])@ == spec_bmbt_block(
            dev,
            *ctx,
            sorted@[j].fsblock,
        ));
    let mut next_pending: Vec<PendingBlock> = Vec::new();
    let ghost mut segs: Seq<Seq<PendingBlock>> = Seq::empty();
    let mut k: usize = 0;
    while k < bufs.len()
        invariant
            ctx.wf(),
            engine.device() == old(engine).device(),
            k <= bufs@.len(),
            bufs@.len() == sorted@.len(),
            block_size == ctx.block_size as usize,
            sorted@ == spec_sort_pending(pending0),
            forall|j: int|
                0 <= j < sorted@.len() ==> (#[trigger] bufs@[j])@ == spec_bmbt_block(
                    dev,
                    *ctx,
                    sorted@[j].fsblock,
                ),
            forall|j: int|
                0 <= j < sorted@.len() ==> (#[trigger] sorted@[j]).expected_level < bound,
            forall|j: int| 0 <= j < k ==> spec_bmbt_block_ok(dev, *ctx, #[trigger] sorted@[j]),
            spec_acc_view(results@) == spec_bmbt_gen_acc(dev, *ctx, results0, sorted@.take(k as int)),
            segs.len() == k,
            forall|j: int|
                0 <= j < k ==> #[trigger] segs[j] == spec_bmbt_block_children(
                    dev,
                    *ctx,
                    sorted@[j],
                ),
            next_pending@ == segs.flatten(),
            forall|i2: int|
                0 <= i2 < next_pending@.len() ==> (#[trigger] next_pending@[i2]).expected_level + 1
                    < bound,
        decreases bufs@.len() - k,
    {
        let p = sorted[k];
        let parsed = match parse_bmbt_block(&bufs[k], ctx, p) {
            Ok(v) => v,
            Err(e) => {
                return Err(e);
            },
        };
        let exts = parsed.0;
        let mut cs = parsed.1;
        if p.expected_level == 0 {
            results = upsert_extents(results, p.owner_ino, exts);
        }
        proof {
            segs.lemma_flatten_push(cs@);
            segs = segs.push(cs@);
            assert(sorted@.take(k + 1).drop_last() =~= sorted@.take(k as int));
            assert(sorted@.take(k + 1).last() == sorted@[k as int]);
        }
        next_pending.append(&mut cs);
        k = k + 1;
    }
    proof {
        assert(sorted@.take(sorted@.len() as int) =~= sorted@);
        assert(segs =~= sorted@.map_values(
            |p: PendingBlock| spec_bmbt_block_children(dev, *ctx, p),
        ));
    }
    Ok((results, next_pending))
}

} // verus!
