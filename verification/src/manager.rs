//! The buffer pool manager: fetch, flush and the page-residency index.
//!
//! Durable I/O belongs to the caller's disk manager. A fetch that misses
//! therefore happens in two verified steps: [`BufferPoolManager::fetch_page`]
//! picks the victim frame and hands back a [`MissPlan`] naming the dirty
//! page that must be written out first, and once the caller has performed
//! the write and read the requested bytes,
//! [`BufferPoolManager::install_page`] installs them. Until then the page
//! table and the frames stay untouched and mutually consistent, so a
//! failed disk call leaves no partial state.

use vstd::prelude::*;

use crate::frame::{
    copy_page, sat_inc, BufferId, FlushRequest, Frame, PageId, INVALID_PAGE_ID, PAGE_SIZE,
};
use crate::pool::{all_pinned, sweep_selected, BufferPool};

verus! {

broadcast use vstd::std_specs::hash::group_hash_axioms;

/// What a pool operation can fail with. Disk failures (`Io`) arise only in
/// the caller's disk manager; the pool itself fails only by exhaustion.
#[derive(Clone, Copy, PartialEq, Eq, Structural, Debug)]
pub enum Error {
    /// Every frame was pinned during an eviction scan: pool exhaustion.
    NoFreeBuffer,
    /// A disk read, write or flush failed.
    Io,
}

/// What a miss asks of the caller: load the requested page into frame
/// `buffer_id`, writing out the named dirty page first if `flush` says so.
#[derive(Debug)]
pub struct MissPlan {
    pub buffer_id: BufferId,
    pub flush: Option<FlushRequest>,
}

/// How a fetch was answered: served from a resident frame, or planned as a
/// miss that the caller completes with `install_page`.
#[derive(Debug)]
pub enum FetchStep {
    Hit(BufferId),
    Miss(MissPlan),
}

/// Orchestrates fetch and flush over a pool and the page table.
pub struct BufferPoolManager {
    pub pool: BufferPool,
    pub page_table: std::collections::HashMap<PageId, BufferId>,
}

/// Everything a planned miss guarantees: the victim was chosen by the
/// clock sweep, residency is untouched, and the plan carries the victim's
/// current page exactly when that page is dirty, with its latest bytes.
pub open spec fn miss_planned(
    pre: BufferPoolManager,
    post: BufferPoolManager,
    plan: MissPlan,
) -> bool {
    let v = plan.buffer_id as int;
    &&& sweep_selected(pre.pool, post.pool, v)
    &&& post.page_table@ == pre.page_table@
    &&& match plan.flush {
        Option::Some(fr) => {
            &&& pre.pool.buffers@[v].buffer.occupied()
            &&& pre.pool.buffers@[v].buffer.is_dirty
            &&& fr.page_id == pre.pool.buffers@[v].buffer.page_id
            &&& fr.data@ == pre.pool.buffers@[v].buffer.page@
        },
        Option::None => !(pre.pool.buffers@[v].buffer.occupied()
            && pre.pool.buffers@[v].buffer.is_dirty),
    }
}

impl BufferPoolManager {
    pub open spec fn n_frames(self) -> int {
        self.pool.buffers@.len() as int
    }

    /// A page is resident exactly when the page table names it.
    pub open spec fn resident(self, page_id: PageId) -> bool {
        self.page_table@.contains_key(page_id)
    }

    /// The frame a resident page lives in.
    pub open spec fn frame_of(self, page_id: PageId) -> int {
        self.page_table@[page_id] as int
    }

    /// Every table entry points at a frame that really holds that page.
    pub open spec fn table_to_frames(self) -> bool {
        forall|p: PageId| #[trigger] self.page_table@.contains_key(p) ==> {
            &&& (self.page_table@[p] as int) < self.n_frames()
            &&& self.pool.buffers@[self.page_table@[p] as int].buffer.page_id == p
            &&& p != INVALID_PAGE_ID
        }
    }

    /// Every occupied frame is indexed by the table, under its own page.
    pub open spec fn frames_to_table(self) -> bool {
        forall|i: int|
            0 <= i < self.n_frames() && (#[trigger] self.pool.buffers@[i]).buffer.occupied() ==> {
                &&& self.page_table@.contains_key(self.pool.buffers@[i].buffer.page_id)
                &&& self.page_table@[self.pool.buffers@[i].buffer.page_id] as int == i
            }
    }

    pub open spec fn wf(self) -> bool {
        &&& self.pool.wf()
        &&& self.table_to_frames()
        &&& self.frames_to_table()
    }

    /// Takes ownership of a freshly built pool; nothing is resident yet.
    pub fn new(pool: BufferPool) -> (m: Self)
        requires
            pool.wf(),
            forall|i: int|
                0 <= i < pool.buffers@.len() ==> !(#[trigger] pool.buffers@[i]).buffer.occupied(),
        ensures
            m.wf(),
            m.pool == pool,
            m.page_table@ == Map::<PageId, BufferId>::empty(),
    {
        let page_table = std::collections::HashMap::<PageId, BufferId>::new();
        BufferPoolManager { pool, page_table }
    }

    /// Answers a request for `page_id`. A hit raises the frame's counters
    /// and serves the one buffer that already holds the page; a miss runs
    /// the eviction sweep and hands back the plan the caller must complete
    /// with `install_page`. Fails with `NoFreeBuffer` exactly when the
    /// page is not resident and every frame is pinned.
    pub fn fetch_page(&mut self, page_id: PageId) -> (r: Result<FetchStep, Error>)
        requires
            old(self).wf(),
            page_id != INVALID_PAGE_ID,
        ensures
            final(self).wf(),
            final(self).page_table@ == old(self).page_table@,
            final(self).n_frames() == old(self).n_frames(),
            match r {
                Ok(FetchStep::Hit(b)) => {
                    let bi = b as int;
                    &&& old(self).resident(page_id)
                    &&& bi == old(self).frame_of(page_id)
                    &&& final(self).pool.next_victim_id == old(self).pool.next_victim_id
                    &&& forall|j: int|
                        0 <= j < old(self).n_frames() && j != bi
                            ==> final(self).pool.buffers@[j] == old(self).pool.buffers@[j]
                    &&& final(self).pool.buffers@[bi].buffer == old(self).pool.buffers@[bi].buffer
                    &&& final(self).pool.buffers@[bi].usage_count == sat_inc(
                        old(self).pool.buffers@[bi].usage_count,
                    )
                    &&& final(self).pool.buffers@[bi].pin_count == sat_inc(
                        old(self).pool.buffers@[bi].pin_count,
                    )
                },
                Ok(FetchStep::Miss(plan)) => {
                    &&& !old(self).resident(page_id)
                    &&& miss_planned(*old(self), *final(self), plan)
                },
                Err(e) => {
                    &&& e == Error::NoFreeBuffer
                    &&& !old(self).resident(page_id)
                    &&& all_pinned(old(self).pool)
                    &&& final(self).pool.buffers@ == old(self).pool.buffers@
                    &&& final(self).pool.next_victim_id == old(self).pool.next_victim_id
                },
            },
            old(self).resident(page_id) || !all_pinned(old(self).pool) ==> r is Ok,
    {
        let hit: Option<BufferId> = match self.page_table.get(&page_id) {
            Some(b) => Some(*b),
            None => None,
        };
        match hit {
            Some(buffer_id) => {
                let u = self.pool.buffers[buffer_id].usage_count;
                if u < u64::MAX {
                    self.pool.buffers[buffer_id].usage_count = u + 1;
                }
                let pc = self.pool.buffers[buffer_id].pin_count;
                if pc < u64::MAX {
                    self.pool.buffers[buffer_id].pin_count = pc + 1;
                }
                proof {
                    lemma_counters_keep_wf(*old(self), *self);
                }
                Ok(FetchStep::Hit(buffer_id))
            },
            None => {
                match self.plan_miss() {
                    Ok(plan) => Ok(FetchStep::Miss(plan)),
                    Err(e) => Err(e),
                }
            },
        }
    }

    /// The eviction half of a miss, shared by `fetch_page` and `new_page`:
    /// runs the sweep and assembles the plan. Residency is not touched.
    fn plan_miss(&mut self) -> (r: Result<MissPlan, Error>)
        requires
            old(self).wf(),
        ensures
            final(self).wf(),
            final(self).page_table@ == old(self).page_table@,
            final(self).n_frames() == old(self).n_frames(),
            match r {
                Ok(plan) => miss_planned(*old(self), *final(self), plan),
                Err(e) => {
                    &&& e == Error::NoFreeBuffer
                    &&& all_pinned(old(self).pool)
                    &&& final(self).pool.buffers@ == old(self).pool.buffers@
                    &&& final(self).pool.next_victim_id == old(self).pool.next_victim_id
                },
            },
            !all_pinned(old(self).pool) ==> r is Ok,
    {
        match self.pool.evict() {
            None => Err(Error::NoFreeBuffer),
            Some(victim) => {
                let vpid = self.pool.buffers[victim].buffer.page_id;
                let vdirty = self.pool.buffers[victim].buffer.is_dirty;
                let flush: Option<FlushRequest> = if vpid != INVALID_PAGE_ID && vdirty {
                    let data = copy_page(&self.pool.buffers[victim].buffer.page);
                    Some(FlushRequest { page_id: vpid, data })
                } else {
                    None
                };
                proof {
                    lemma_counters_keep_wf(*old(self), *self);
                }
                Ok(MissPlan { buffer_id: victim, flush })
            },
        }
    }

    /// Completes a miss once the caller has written out the planned flush
    /// (if any) and obtained the page's bytes: the victim's old page
    /// leaves the table, the new page enters it, and the frame holds the
    /// bytes clean, used once and pinned once for the handle just served.
    pub fn install_page(&mut self, page_id: PageId, buffer_id: BufferId, data: Vec<u8>)
        requires
            old(self).wf(),
            page_id != INVALID_PAGE_ID,
            !old(self).resident(page_id),
            (buffer_id as int) < old(self).n_frames(),
            !old(self).pool.buffers@[buffer_id as int].pinned(),
            data@.len() == PAGE_SIZE,
        ensures
            final(self).wf(),
            final(self).n_frames() == old(self).n_frames(),
            final(self).page_table@ == (if old(
                self,
            ).pool.buffers@[buffer_id as int].buffer.occupied() {
                old(self).page_table@.remove(
                    old(self).pool.buffers@[buffer_id as int].buffer.page_id,
                )
            } else {
                old(self).page_table@
            }).insert(page_id, buffer_id),
            ({
                let f = final(self).pool.buffers@[buffer_id as int];
                &&& f.buffer.page_id == page_id
                &&& f.buffer.page@ == data@
                &&& !f.buffer.is_dirty
                &&& f.usage_count == 1
                &&& f.pin_count == 1
            }),
            forall|j: int|
                0 <= j < old(self).n_frames() && j != buffer_id as int
                    ==> final(self).pool.buffers@[j] == old(self).pool.buffers@[j],
            final(self).pool.next_victim_id == old(self).pool.next_victim_id,
            final(self).resident(page_id) && final(self).frame_of(page_id) == buffer_id as int,
    {
        let old_pid = self.pool.buffers[buffer_id].buffer.page_id;
        if old_pid != INVALID_PAGE_ID {
            self.page_table.remove(&old_pid);
        }
        self.pool.buffers[buffer_id].buffer.page_id = page_id;
        self.pool.buffers[buffer_id].buffer.page = data;
        self.pool.buffers[buffer_id].buffer.is_dirty = false;
        self.pool.buffers[buffer_id].usage_count = 1;
        self.pool.buffers[buffer_id].pin_count = 1;
        self.page_table.insert(page_id, buffer_id);
        proof {
            let pre = *old(self);
            let post = *self;
            let bi = buffer_id as int;
            assert forall|p: PageId| #[trigger] post.page_table@.contains_key(p) implies {
                &&& (post.page_table@[p] as int) < post.n_frames()
                &&& post.pool.buffers@[post.page_table@[p] as int].buffer.page_id == p
                &&& p != INVALID_PAGE_ID
            } by {
                if p != page_id {
                    assert(pre.page_table@.contains_key(p));
                    let k = pre.page_table@[p] as int;
                    assert(post.page_table@[p] as int == k);
                    if k == bi {
                        assert(pre.pool.buffers@[bi].buffer.occupied());
                        assert(p == pre.pool.buffers@[bi].buffer.page_id);
                        assert(!post.page_table@.contains_key(p));
                    }
                }
            };
            assert forall|i: int|
                0 <= i < post.n_frames()
                    && (#[trigger] post.pool.buffers@[i]).buffer.occupied() implies {
                &&& post.page_table@.contains_key(post.pool.buffers@[i].buffer.page_id)
                &&& post.page_table@[post.pool.buffers@[i].buffer.page_id] as int == i
            } by {
                if i != bi {
                    assert(pre.pool.buffers@[i].buffer.occupied());
                    let p = pre.pool.buffers@[i].buffer.page_id;
                    assert(pre.page_table@.contains_key(p) && pre.page_table@[p] as int == i);
                    if pre.pool.buffers@[bi].buffer.occupied() {
                        assert(pre.page_table@[pre.pool.buffers@[bi].buffer.page_id] as int == bi);
                        assert(p != pre.pool.buffers@[bi].buffer.page_id);
                    }
                    assert(p != page_id);
                }
            };
        }
    }

    /// Chooses the frame a freshly allocated page will live in: the miss
    /// path of `fetch_page`, with nothing to read back afterwards. The
    /// caller allocates the identifier at the disk manager, completes the
    /// plan's flush if any, and installs an all-zero page.
    pub fn new_page(&mut self, page_id: PageId) -> (r: Result<MissPlan, Error>)
        requires
            old(self).wf(),
            page_id != INVALID_PAGE_ID,
            !old(self).resident(page_id),
        ensures
            final(self).wf(),
            final(self).page_table@ == old(self).page_table@,
            final(self).n_frames() == old(self).n_frames(),
            match r {
                Ok(plan) => miss_planned(*old(self), *final(self), plan),
                Err(e) => {
                    &&& e == Error::NoFreeBuffer
                    &&& all_pinned(old(self).pool)
                    &&& final(self).pool.buffers@ == old(self).pool.buffers@
                    &&& final(self).pool.next_victim_id == old(self).pool.next_victim_id
                },
            },
            !all_pinned(old(self).pool) ==> r is Ok,
    {
        self.plan_miss()
    }

    /// Releases one handle on a resident page: its frame's pin count goes
    /// down by one. Answers whether there was a pin to release.
    pub fn unpin_page(&mut self, page_id: PageId) -> (r: bool)
        requires
            old(self).wf(),
        ensures
            final(self).wf(),
            final(self).page_table@ == old(self).page_table@,
            final(self).n_frames() == old(self).n_frames(),
            final(self).pool.next_victim_id == old(self).pool.next_victim_id,
            r == (old(self).resident(page_id) && old(self).pool.buffers@[old(self).frame_of(
                page_id,
            )].pinned()),
            r ==> ({
                let bi = old(self).frame_of(page_id);
                &&& forall|j: int|
                    0 <= j < old(self).n_frames() && j != bi ==> final(self).pool.buffers@[j]
                        == old(self).pool.buffers@[j]
                &&& final(self).pool.buffers@[bi].pin_count == old(self).pool.buffers@[bi].pin_count
                    - 1
                &&& final(self).pool.buffers@[bi].usage_count
                    == old(self).pool.buffers@[bi].usage_count
                &&& final(self).pool.buffers@[bi].buffer == old(self).pool.buffers@[bi].buffer
            }),
            !r ==> final(self).pool.buffers@ == old(self).pool.buffers@,
    {
        let hit: Option<BufferId> = match self.page_table.get(&page_id) {
            Some(b) => Some(*b),
            None => None,
        };
        match hit {
            Some(buffer_id) => {
                let pc = self.pool.buffers[buffer_id].pin_count;
                if pc > 0 {
                    self.pool.buffers[buffer_id].pin_count = pc - 1;
                    proof {
                        lemma_counters_keep_wf(*old(self), *self);
                    }
                    true
                } else {
                    false
                }
            },
            None => false,
        }
    }

    /// Records that the caller wrote into the page held in `buffer_id`.
    /// The pool does not watch writes itself: callers must mark the page
    /// dirty after writing, or the change can be lost at eviction.
    pub fn mark_dirty(&mut self, buffer_id: BufferId)
        requires
            old(self).wf(),
            (buffer_id as int) < old(self).n_frames(),
        ensures
            final(self).wf(),
            final(self).page_table@ == old(self).page_table@,
            final(self).n_frames() == old(self).n_frames(),
            final(self).pool.next_victim_id == old(self).pool.next_victim_id,
            forall|j: int|
                0 <= j < old(self).n_frames() && j != buffer_id as int
                    ==> final(self).pool.buffers@[j] == old(self).pool.buffers@[j],
            ({
                let f0 = old(self).pool.buffers@[buffer_id as int];
                let f1 = final(self).pool.buffers@[buffer_id as int];
                &&& f1.buffer.page_id == f0.buffer.page_id
                &&& f1.buffer.page == f0.buffer.page
                &&& f1.buffer.is_dirty
                &&& f1.usage_count == f0.usage_count
                &&& f1.pin_count == f0.pin_count
            }),
    {
        self.pool.buffers[buffer_id].buffer.is_dirty = true;
        proof {
            lemma_pages_keep_wf(*old(self), *self);
        }
    }

    /// Whether the page held in `buffer_id` is dirty.
    pub fn is_dirty(&self, buffer_id: BufferId) -> (r: bool)
        requires
            self.wf(),
            (buffer_id as int) < self.n_frames(),
        ensures
            r == self.pool.buffers@[buffer_id as int].buffer.is_dirty,
    {
        self.pool.buffers[buffer_id].buffer.is_dirty
    }

    /// Read access to the page held in `buffer_id`.
    pub fn page_data(&self, buffer_id: BufferId) -> (r: &Vec<u8>)
        requires
            self.wf(),
            (buffer_id as int) < self.n_frames(),
        ensures
            r@ == self.pool.buffers@[buffer_id as int].buffer.page@,
    {
        &self.pool.buffers[buffer_id].buffer.page
    }

    /// Replaces the bytes of the page held in `buffer_id`. Writing alone
    /// does not set the dirty flag: call `mark_dirty` afterwards.
    pub fn write_page_data(&mut self, buffer_id: BufferId, data: Vec<u8>)
        requires
            old(self).wf(),
            (buffer_id as int) < old(self).n_frames(),
            data@.len() == PAGE_SIZE,
        ensures
            final(self).wf(),
            final(self).page_table@ == old(self).page_table@,
            final(self).n_frames() == old(self).n_frames(),
            final(self).pool.next_victim_id == old(self).pool.next_victim_id,
            forall|j: int|
                0 <= j < old(self).n_frames() && j != buffer_id as int
                    ==> final(self).pool.buffers@[j] == old(self).pool.buffers@[j],
            ({
                let f0 = old(self).pool.buffers@[buffer_id as int];
                let f1 = final(self).pool.buffers@[buffer_id as int];
                &&& f1.buffer.page_id == f0.buffer.page_id
                &&& f1.buffer.page@ == data@
                &&& f1.buffer.is_dirty == f0.buffer.is_dirty
                &&& f1.usage_count == f0.usage_count
                &&& f1.pin_count == f0.pin_count
            }),
    {
        self.pool.buffers[buffer_id].buffer.page = data;
        proof {
            lemma_pages_keep_wf(*old(self), *self);
        }
    }

    /// The write that makes `page_id` durable right now, dirty or not:
    /// the resident bytes under their page identifier. Answers nothing
    /// when the page is not resident.
    pub fn flush_page(&self, page_id: PageId) -> (r: Option<FlushRequest>)
        requires
            self.wf(),
        ensures
            match r {
                Option::Some(fr) => {
                    &&& self.resident(page_id)
                    &&& fr.page_id == page_id
                    &&& fr.data@ == self.pool.buffers@[self.frame_of(page_id)].buffer.page@
                },
                Option::None => !self.resident(page_id),
            },
    {
        let hit: Option<BufferId> = match self.page_table.get(&page_id) {
            Some(b) => Some(*b),
            None => None,
        };
        match hit {
            Some(buffer_id) => {
                let data = copy_page(&self.pool.buffers[buffer_id].buffer.page);
                Some(FlushRequest { page_id, data })
            },
            None => None,
        }
    }

    /// The writes that make every resident page durable, one per occupied
    /// frame in frame order. The caller performs them and collects the
    /// pages whose write failed instead of stopping at the first failure.
    #[verifier::loop_isolation(false)]
    pub fn flush_all(&self) -> (r: Vec<FlushRequest>)
        requires
            self.wf(),
        ensures
            ({
                let occ = occupied_frames(self.pool.buffers@, self.n_frames());
                &&& r@.len() == occ.len()
                &&& forall|k: int|
                    0 <= k < occ.len() ==> {
                        &&& (#[trigger] r@[k]).page_id
                            == self.pool.buffers@[occ[k]].buffer.page_id
                        &&& r@[k].data@ == self.pool.buffers@[occ[k]].buffer.page@
                    }
            }),
    {
        let mut r: Vec<FlushRequest> = Vec::new();
        let mut i: usize = 0;
        let n = self.pool.buffers.len();
        while i < n
            invariant
                i <= n,
                r@.len() == occupied_frames(self.pool.buffers@, i as int).len(),
                forall|k: int|
                    0 <= k < r@.len() ==> {
                        let occ = occupied_frames(self.pool.buffers@, i as int);
                        &&& (#[trigger] r@[k]).page_id
                            == self.pool.buffers@[occ[k]].buffer.page_id
                        &&& r@[k].data@ == self.pool.buffers@[occ[k]].buffer.page@
                    },
            decreases n - i,
        {
            let pid = self.pool.buffers[i].buffer.page_id;
            if pid != INVALID_PAGE_ID {
                let data = copy_page(&self.pool.buffers[i].buffer.page);
                r.push(FlushRequest { page_id: pid, data });
            }
            i = i + 1;
        }
        r
    }
}

/// Indices of the occupied frames among the first `k`, ascending: the
/// frames `flush_all` writes out, in order.
pub open spec fn occupied_frames(frames: Seq<Frame>, k: int) -> Seq<int>
    decreases k,
{
    if k <= 0 {
        Seq::empty()
    } else if frames[k - 1].buffer.occupied() {
        occupied_frames(frames, k - 1).push(k - 1)
    } else {
        occupied_frames(frames, k - 1)
    }
}

/// Every occupied frame among the first `k` appears in `occupied_frames`.
proof fn lemma_occupied_frames_complete(frames: Seq<Frame>, k: int, i: int)
    requires
        0 <= i < k,
        frames[i].buffer.occupied(),
    ensures
        exists|x: int|
            0 <= x < occupied_frames(frames, k).len() && #[trigger] occupied_frames(frames, k)[x]
                == i,
    decreases k,
{
    if i == k - 1 {
        let x = occupied_frames(frames, k).len() - 1;
        assert(occupied_frames(frames, k)[x] == i);
    } else {
        lemma_occupied_frames_complete(frames, k - 1, i);
        let x = choose|x: int|
            0 <= x < occupied_frames(frames, k - 1).len() && #[trigger] occupied_frames(
                frames,
                k - 1,
            )[x] == i;
        assert(occupied_frames(frames, k)[x] == i);
    }
}

/// `flush_all` reaches every resident page: a resident page's frame is
/// occupied, so the flush list `flush_all` answers with names it.
pub proof fn lemma_flush_all_complete(m: BufferPoolManager, page_id: PageId)
    requires
        m.wf(),
        m.resident(page_id),
    ensures
        ({
            let occ = occupied_frames(m.pool.buffers@, m.n_frames());
            exists|x: int| 0 <= x < occ.len() && #[trigger] occ[x] == m.frame_of(page_id)
        }),
{
    lemma_occupied_frames_complete(m.pool.buffers@, m.n_frames(), m.frame_of(page_id));
}

/// No duplicate instances: while a page keeps its page-table entry (no
/// eviction of it in between), every hit is served from that same frame,
/// whose buffer is the one copy of the page. `fetch_page` answers a hit
/// with `frame_of(page_id)` and leaves the table unchanged, so two
/// sequential fetches of a resident page name the identical buffer.
pub proof fn lemma_no_duplicate_instances(
    m1: BufferPoolManager,
    m2: BufferPoolManager,
    page_id: PageId,
)
    requires
        m1.wf(),
        m2.wf(),
        m1.resident(page_id),
        m2.page_table@.contains_key(page_id),
        m2.page_table@[page_id] == m1.page_table@[page_id],
    ensures
        m2.resident(page_id),
        m2.frame_of(page_id) == m1.frame_of(page_id),
        m1.pool.buffers@[m1.frame_of(page_id)].buffer.page_id == page_id,
        m2.pool.buffers@[m2.frame_of(page_id)].buffer.page_id == page_id,
{
}

/// A state change that touches only a frame's bytes or dirty flag, not
/// its page identifier, keeps the manager well formed.
proof fn lemma_pages_keep_wf(pre: BufferPoolManager, post: BufferPoolManager)
    requires
        pre.wf(),
        post.pool.wf(),
        post.page_table@ == pre.page_table@,
        post.pool.buffers@.len() == pre.pool.buffers@.len(),
        forall|j: int|
            0 <= j < pre.pool.buffers@.len() ==> (#[trigger] post.pool.buffers@[j]).buffer.page_id
                == pre.pool.buffers@[j].buffer.page_id,
    ensures
        post.wf(),
{
    assert forall|p: PageId| #[trigger] post.page_table@.contains_key(p) implies {
        &&& (post.page_table@[p] as int) < post.n_frames()
        &&& post.pool.buffers@[post.page_table@[p] as int].buffer.page_id == p
        &&& p != INVALID_PAGE_ID
    } by {
        assert(pre.page_table@.contains_key(p));
    };
    assert forall|i: int|
        0 <= i < post.n_frames() && (#[trigger] post.pool.buffers@[i]).buffer.occupied() implies {
        &&& post.page_table@.contains_key(post.pool.buffers@[i].buffer.page_id)
        &&& post.page_table@[post.pool.buffers@[i].buffer.page_id] as int == i
    } by {
        assert(pre.pool.buffers@[i].buffer.occupied());
    };
}

/// A state change that moves no page in or out of a frame and leaves the
/// page table alone keeps the manager well formed.
proof fn lemma_counters_keep_wf(pre: BufferPoolManager, post: BufferPoolManager)
    requires
        pre.wf(),
        post.pool.wf(),
        post.page_table@ == pre.page_table@,
        post.pool.buffers@.len() == pre.pool.buffers@.len(),
        forall|j: int|
            0 <= j < pre.pool.buffers@.len() ==> (#[trigger] post.pool.buffers@[j]).buffer
                == pre.pool.buffers@[j].buffer,
    ensures
        post.wf(),
{
    assert forall|p: PageId| #[trigger] post.page_table@.contains_key(p) implies {
        &&& (post.page_table@[p] as int) < post.n_frames()
        &&& post.pool.buffers@[post.page_table@[p] as int].buffer.page_id == p
        &&& p != INVALID_PAGE_ID
    } by {
        assert(pre.page_table@.contains_key(p));
    };
    assert forall|i: int|
        0 <= i < post.n_frames() && (#[trigger] post.pool.buffers@[i]).buffer.occupied() implies {
        &&& post.page_table@.contains_key(post.pool.buffers@[i].buffer.page_id)
        &&& post.page_table@[post.pool.buffers@[i].buffer.page_id] as int == i
    } by {
        assert(pre.pool.buffers@[i].buffer.occupied());
    };
}

/// Residency uniqueness: the page table and the frames always agree, so at
/// most one frame holds any page at any time.
pub proof fn lemma_residency_unique(m: BufferPoolManager, i: int, j: int)
    requires
        m.wf(),
        0 <= i < m.n_frames(),
        0 <= j < m.n_frames(),
        m.pool.buffers@[i].buffer.occupied(),
        m.pool.buffers@[j].buffer.occupied(),
        m.pool.buffers@[i].buffer.page_id == m.pool.buffers@[j].buffer.page_id,
    ensures
        i == j,
{
}

} // verus!
