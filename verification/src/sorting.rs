//! Insertion sorts used to turn tree traversals into forward disk sweeps.
//!
//! Each sort has a recursive spec function as its single definition and an
//! executable twin proved equal to it, so that every traversal order the
//! scanner takes is a function of its input and nothing else.

use vstd::prelude::*;

use crate::reader::IoRequest;
use crate::xfs::btree::XfsInobtRec;

verus! {

/// `s` with `v` inserted after the last element not greater than `v`.
pub open spec fn spec_insert_u32(s: Seq<u32>, v: u32) -> Seq<u32>
    decreases s.len(),
{
    if s.len() == 0 {
        seq![v]
    } else if s.last() <= v {
        s.push(v)
    } else {
        spec_insert_u32(s.drop_last(), v).push(s.last())
    }
}

/// `s` sorted ascending by insertion.
pub open spec fn spec_sort_u32(s: Seq<u32>) -> Seq<u32>
    decreases s.len(),
{
    if s.len() == 0 {
        s
    } else {
        spec_insert_u32(spec_sort_u32(s.drop_last()), s.last())
    }
}

fn insert_u32(s: Vec<u32>, v: u32) -> (r: Vec<u32>)
    ensures
        r@ == spec_insert_u32(s@, v),
    decreases s@.len(),
{
    let mut s = s;
    if s.len() == 0 {
        s.push(v);
        s
    } else {
        let last = s[s.len() - 1];
        if last <= v {
            s.push(v);
            s
        } else {
            let popped = s.pop().unwrap();
            let mut r = insert_u32(s, v);
            r.push(popped);
            r
        }
    }
}

/// Sort AG-relative block numbers ascending.
pub fn sort_u32(s: Vec<u32>) -> (r: Vec<u32>)
    ensures
        r@ == spec_sort_u32(s@),
    decreases s@.len(),
{
    let mut s = s;
    if s.len() == 0 {
        s
    } else {
        let last = s.pop().unwrap();
        let sorted = sort_u32(s);
        insert_u32(sorted, last)
    }
}

/// `s` with `v` inserted after the last record whose starting inode is not
/// greater than `v`'s.
pub open spec fn spec_insert_inobt_rec(s: Seq<XfsInobtRec>, v: XfsInobtRec) -> Seq<XfsInobtRec>
    decreases s.len(),
{
    if s.len() == 0 {
        seq![v]
    } else if s.last().ir_startino <= v.ir_startino {
        s.push(v)
    } else {
        spec_insert_inobt_rec(s.drop_last(), v).push(s.last())
    }
}

/// `s` sorted ascending by starting AG-relative inode.
pub open spec fn spec_sort_inobt_recs(s: Seq<XfsInobtRec>) -> Seq<XfsInobtRec>
    decreases s.len(),
{
    if s.len() == 0 {
        s
    } else {
        spec_insert_inobt_rec(spec_sort_inobt_recs(s.drop_last()), s.last())
    }
}

fn insert_inobt_rec(s: Vec<XfsInobtRec>, v: XfsInobtRec) -> (r: Vec<XfsInobtRec>)
    ensures
        r@ == spec_insert_inobt_rec(s@, v),
    decreases s@.len(),
{
    let mut s = s;
    if s.len() == 0 {
        s.push(v);
        s
    } else {
        let last = s[s.len() - 1];
        if last.ir_startino <= v.ir_startino {
            s.push(v);
            s
        } else {
            let popped = s.pop().unwrap();
            let mut r = insert_inobt_rec(s, v);
            r.push(popped);
            r
        }
    }
}

/// Sort inobt records ascending by starting AG-relative inode.
pub fn sort_inobt_recs(s: Vec<XfsInobtRec>) -> (r: Vec<XfsInobtRec>)
    ensures
        r@ == spec_sort_inobt_recs(s@),
    decreases s@.len(),
{
    let mut s = s;
    if s.len() == 0 {
        s
    } else {
        let last = s.pop().unwrap();
        let sorted = sort_inobt_recs(s);
        insert_inobt_rec(sorted, last)
    }
}

/// `s` with `v` inserted after the last request whose offset is not
/// greater than `v`'s.
pub open spec fn spec_insert_request(s: Seq<IoRequest>, v: IoRequest) -> Seq<IoRequest>
    decreases s.len(),
{
    if s.len() == 0 {
        seq![v]
    } else if s.last().offset <= v.offset {
        s.push(v)
    } else {
        spec_insert_request(s.drop_last(), v).push(s.last())
    }
}

/// `s` sorted ascending by byte offset.
pub open spec fn spec_sort_requests(s: Seq<IoRequest>) -> Seq<IoRequest>
    decreases s.len(),
{
    if s.len() == 0 {
        s
    } else {
        spec_insert_request(spec_sort_requests(s.drop_last()), s.last())
    }
}

fn insert_request(s: Vec<IoRequest>, v: IoRequest) -> (r: Vec<IoRequest>)
    ensures
        r@ == spec_insert_request(s@, v),
    decreases s@.len(),
{
    let mut s = s;
    if s.len() == 0 {
        s.push(v);
        s
    } else {
        let last = s[s.len() - 1];
        if last.offset <= v.offset {
            s.push(v);
            s
        } else {
            let popped = s.pop().unwrap();
            let mut r = insert_request(s, v);
            r.push(popped);
            r
        }
    }
}

/// Sort read requests ascending by byte offset, keeping the order of equal
/// offsets.
pub fn sort_requests(s: Vec<IoRequest>) -> (r: Vec<IoRequest>)
    ensures
        r@ == spec_sort_requests(s@),
    decreases s@.len(),
{
    let mut s = s;
    if s.len() == 0 {
        s
    } else {
        let last = s.pop().unwrap();
        let sorted = sort_requests(s);
        insert_request(sorted, last)
    }
}

/// A property of every request survives an insertion.
pub proof fn lemma_insert_request_all(s: Seq<IoRequest>, v: IoRequest, p: spec_fn(IoRequest) -> bool)
    requires
        forall|i: int| 0 <= i < s.len() ==> p(#[trigger] s[i]),
        p(v),
    ensures
        forall|i: int|
            0 <= i < spec_insert_request(s, v).len() ==> p(#[trigger] spec_insert_request(s, v)[i]),
    decreases s.len(),
{
    let r = spec_insert_request(s, v);
    if s.len() == 0 {
        assert forall|i: int| 0 <= i < r.len() implies p(r[i]) by {
            assert(r[i] == v);
        }
    } else if s.last().offset <= v.offset {
        assert forall|i: int| 0 <= i < r.len() implies p(r[i]) by {
            if i < s.len() {
                assert(r[i] == s[i]);
            } else {
                assert(r[i] == v);
            }
        }
    } else {
        assert(forall|i: int| 0 <= i < s.drop_last().len() ==> p(#[trigger] s.drop_last()[i]));
        lemma_insert_request_all(s.drop_last(), v, p);
        let rr = spec_insert_request(s.drop_last(), v);
        assert forall|i: int| 0 <= i < r.len() implies p(r[i]) by {
            if i < rr.len() {
                assert(r[i] == rr[i]);
            } else {
                assert(r[i] == s.last());
                assert(p(s[s.len() - 1]));
            }
        }
    }
}

/// A property of every request survives sorting.
pub proof fn lemma_sort_requests_all(s: Seq<IoRequest>, p: spec_fn(IoRequest) -> bool)
    requires
        forall|i: int| 0 <= i < s.len() ==> p(#[trigger] s[i]),
    ensures
        forall|i: int|
            0 <= i < spec_sort_requests(s).len() ==> p(#[trigger] spec_sort_requests(s)[i]),
    decreases s.len(),
{
    if s.len() == 0 {
    } else {
        assert(forall|i: int| 0 <= i < s.drop_last().len() ==> p(#[trigger] s.drop_last()[i]));
        lemma_sort_requests_all(s.drop_last(), p);
        lemma_insert_request_all(spec_sort_requests(s.drop_last()), s.last(), p);
    }
}

} // verus!
