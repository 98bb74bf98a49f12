//! Pages, buffers and frames: the data the pool manages.

use vstd::prelude::*;

verus! {

/// Number of bytes in one page. The disk manager must use the same size;
/// a mismatch is a configuration error, not a runtime one.
pub const PAGE_SIZE: usize = 4096;

/// Identifier of a durable page, assigned externally by the disk manager's
/// allocator. Never reused while it appears in the page table.
pub type PageId = u64;

/// Sentinel identifier held by a frame whose buffer has no page loaded.
/// The allocator never hands it out, so callers never ask for it.
pub const INVALID_PAGE_ID: u64 = u64::MAX;

/// Index of a frame within the fixed-size pool, in `[0, pool_size)`.
pub type BufferId = usize;

/// The in-memory copy of one page's bytes together with its dirty flag.
/// While a page is resident, exactly one buffer holds it.
#[verifier::ext_equal]
pub struct Buffer {
    pub page_id: PageId,
    pub page: Vec<u8>,
    pub is_dirty: bool,
}

impl Buffer {
    /// The byte block always holds exactly `PAGE_SIZE` bytes.
    pub open spec fn wf(self) -> bool {
        self.page@.len() == PAGE_SIZE
    }

    /// Whether a page is loaded here, rather than the empty sentinel.
    pub open spec fn occupied(self) -> bool {
        self.page_id != INVALID_PAGE_ID
    }
}

/// A pool slot: one buffer plus the counters that drive eviction. Frames
/// are created at pool construction and reused for different pages; they
/// are never added or removed afterwards.
#[verifier::ext_equal]
pub struct Frame {
    /// Second-chance credit: raised on every cache hit against the frame's
    /// page, lowered by the eviction sweep.
    pub usage_count: u64,
    /// Number of live handles callers hold on the buffer. While it is
    /// positive the frame must not be evicted.
    pub pin_count: u64,
    pub buffer: Buffer,
}

impl Frame {
    pub open spec fn wf(self) -> bool {
        self.buffer.wf()
    }

    /// A frame is pinned while some caller still holds a handle to its
    /// buffer; a pinned frame is never an eviction victim.
    pub open spec fn pinned(self) -> bool {
        self.pin_count > 0
    }
}

/// A page write the caller owes the disk manager: these bytes must reach
/// durable storage under `page_id`.
#[derive(Debug)]
pub struct FlushRequest {
    pub page_id: PageId,
    pub data: Vec<u8>,
}

/// Increment that stops at the counter's ceiling instead of wrapping.
pub open spec fn sat_inc(x: u64) -> u64 {
    if x == u64::MAX {
        x
    } else {
        (x + 1) as u64
    }
}

/// A fresh all-zero page block, the content of a newly allocated page.
pub fn zero_page() -> (p: Vec<u8>)
    ensures
        p@.len() == PAGE_SIZE,
        forall|i: int| 0 <= i < p@.len() ==> p@[i] == 0u8,
{
    let mut p: Vec<u8> = Vec::new();
    while p.len() < PAGE_SIZE
        invariant
            p@.len() <= PAGE_SIZE,
            forall|i: int| 0 <= i < p@.len() ==> p@[i] == 0u8,
        decreases PAGE_SIZE - p@.len(),
    {
        p.push(0u8);
    }
    p
}

/// Byte-for-byte copy of a page block.
pub fn copy_page(src: &Vec<u8>) -> (r: Vec<u8>)
    ensures
        r@ == src@,
{
    let mut r: Vec<u8> = Vec::new();
    let mut i: usize = 0;
    while i < src.len()
        invariant
            i <= src@.len(),
            r@ == src@.subrange(0, i as int),
        decreases src@.len() - i,
    {
        r.push(src[i]);
        i = i + 1;
    }
    assert(r@ =~= src@);
    r
}

} // verus!
