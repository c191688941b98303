//! Cutting a list into consecutive chunks of one size.
use vstd::prelude::*;

verus! {

/// How many chunks of `size` it takes to hold `len` items.
pub open spec fn chunk_count(len: nat, size: nat) -> nat {
    if len % size == 0 {
        len / size
    } else {
        len / size + 1
    }
}

/// Where chunk `k` begins.
pub open spec fn chunk_start(k: nat, size: nat) -> nat {
    k * size
}

/// Where chunk `k` ends, exclusive: the last one may be short.
pub open spec fn chunk_end(k: nat, size: nat, len: nat) -> nat {
    if (k + 1) * size <= len {
        (k + 1) * size
    } else {
        len
    }
}

/// The bounds of every chunk, in order.
pub open spec fn is_chunking(ranges: Seq<(usize, usize)>, len: nat, size: nat) -> bool {
    &&& ranges.len() == chunk_count(len, size)
    &&& forall|k: int|
        0 <= k < ranges.len() ==> (#[trigger] ranges[k]).0 == chunk_start(k as nat, size)
            && ranges[k].1 == chunk_end(k as nat, size, len)
}

/// Cuts `len` items into chunks of `size`, the last of which may be short.
pub fn chunk_ranges(len: usize, size: usize) -> (ranges: Vec<(usize, usize)>)
    requires
        size > 0,
    ensures
        is_chunking(ranges@, len as nat, size as nat),
{
    let mut ranges: Vec<(usize, usize)> = Vec::new();
    let mut start: usize = 0;
    while start < len
        invariant
            size > 0,
            ranges@.len() <= chunk_count(len as nat, size as nat),
            start == if ranges@.len() * size <= len {
                (ranges@.len() * size) as int
            } else {
                len as int
            },
            start < len ==> start == ranges@.len() * size,
            start >= len ==> ranges@.len() == chunk_count(len as nat, size as nat),
            forall|k: int|
                0 <= k < ranges@.len() ==> (#[trigger] ranges@[k]).0 == chunk_start(
                    k as nat,
                    size as nat,
                ) && ranges@[k].1 == chunk_end(k as nat, size as nat, len as nat),
        decreases len - start,
    {
        let end: usize = if len - start > size {
            start + size
        } else {
            len
        };
        proof {
            chunk_step(ranges@.len(), size as nat, len as nat);
        }
        ranges.push((start, end));
        start = end;
    }
    proof {
        if len == 0 {
            assert(chunk_count(0, size as nat) == 0) by {
                vstd::arithmetic::div_mod::lemma_fundamental_div_mod(0, size as int);
                vstd::arithmetic::div_mod::lemma_small_mod(0, size as nat);
                vstd::arithmetic::div_mod::lemma_basic_div(0, size as int);
            }
        }
    }
    ranges
}

/// Chunk `k` starts inside the list exactly when there are more than `k`
/// chunks, and it is the last one exactly when it reaches the end.
proof fn chunk_step(k: nat, size: nat, len: nat)
    requires
        size > 0,
        k * size < len,
    ensures
        k < chunk_count(len, size),
        (k + 1) * size == k * size + size,
        (k + 1) * size >= len ==> k + 1 == chunk_count(len, size),
{
    vstd::arithmetic::div_mod::lemma_fundamental_div_mod(len as int, size as int);
    let (q, r) = ((len / size) as int, (len % size) as int);
    let (ki, s, l) = (k as int, size as int, len as int);
    assert(l == s * q + r && 0 <= r < s);
    assert((ki + 1) * s == ki * s + s) by (nonlinear_arith);
    assert(ki <= q) by (nonlinear_arith)
        requires
            l == s * q + r,
            0 <= r < s,
            ki * s < l,
    ;
    assert(r == 0 ==> ki < q) by (nonlinear_arith)
        requires
            l == s * q + r,
            ki * s < l,
            ki <= q,
    ;
    assert((ki + 1) * s >= l ==> (r == 0 ==> ki + 1 >= q) && (r > 0 ==> ki >= q))
        by (nonlinear_arith)
        requires
            l == s * q + r,
            0 <= r < s,
            ki <= q,
    ;
}

/// Chunks follow one another without gap or overlap: the item at `index`
/// lies in chunk `k` exactly when `k` is `index / size`.
pub proof fn every_item_has_one_chunk(ranges: Seq<(usize, usize)>, len: nat, size: nat, index: nat)
    requires
        size > 0,
        is_chunking(ranges, len, size),
        index < len,
    ensures
        index / size < ranges.len(),
        forall|k: int|
            0 <= k < ranges.len() ==> ((#[trigger] ranges[k]).0 <= index < ranges[k].1 <==> k
                == index / size),
{
    let owner = index / size;
    vstd::arithmetic::div_mod::lemma_fundamental_div_mod(index as int, size as int);
    assert(owner * size <= index < (owner + 1) * size) by (nonlinear_arith)
        requires
            index == size * owner + index % size,
            0 <= index % size < size,
    ;
    chunk_step(owner, size, len);
    assert forall|k: int| 0 <= k < ranges.len() implies ((#[trigger] ranges[k]).0 <= index
        < ranges[k].1 <==> k == owner) by {
        let kn = k as nat;
        assert(chunk_start(kn, size) == kn * size);
        if k < owner {
            assert((kn + 1) * size <= owner * size) by (nonlinear_arith)
                requires
                    kn < owner,
            ;
        } else if k > owner {
            assert(kn * size >= (owner + 1) * size) by (nonlinear_arith)
                requires
                    kn > owner,
            ;
        }
    }
}

} // verus!
