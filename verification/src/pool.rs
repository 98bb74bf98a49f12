//! The frame array and its clock-sweep (second-chance) eviction.

use vstd::prelude::*;
use vstd::arithmetic::div_mod::{
    lemma_div_pos_is_pos, lemma_fundamental_div_mod, lemma_fundamental_div_mod_converse_div,
    lemma_fundamental_div_mod_converse_mod, lemma_mod_bound,
};

use crate::frame::{zero_page, Buffer, BufferId, Frame, INVALID_PAGE_ID};

verus! {

/// Index the clock hand stands on after `t` steps from start `c0`.
spec fn hand_index(c0: int, t: int, n: int) -> int {
    (c0 + t) % n
}

/// Position of frame `j` in scan order when the clock hand stands at `c`
/// in a pool of `n` frames: 0 for the frame under the hand, `n - 1` for
/// the frame just behind it.
pub open spec fn scan_pos(j: int, c: int, n: int) -> int {
    if j >= c {
        j - c
    } else {
        j - c + n
    }
}

/// Step at which the sweep would select frame `j`: the sweep examines one
/// frame per step, wrapping, and an unpinned frame survives one full turn
/// of the hand per unit of usage count before its count reaches zero.
pub open spec fn sweep_key(frames: Seq<Frame>, c: int, j: int) -> int {
    frames[j].usage_count * frames.len() + scan_pos(j, c, frames.len() as int)
}

/// How many of the first `s` steps of a sweep over `n` positions landed on
/// position `p` (steps `p`, `p + n`, `p + 2n`, ... land there).
pub open spec fn times_examined(s: int, p: int, n: int) -> int {
    if s > p {
        (s - 1 - p) / n + 1
    } else {
        0
    }
}

/// Total usage count of the unpinned frames among the first `k`.
pub open spec fn unpinned_usage(frames: Seq<Frame>, k: int) -> int
    decreases k,
{
    if k <= 0 {
        0
    } else {
        unpinned_usage(frames, k - 1) + if frames[k - 1].pinned() {
            0
        } else {
            frames[k - 1].usage_count as int
        }
    }
}

/// Every frame is pinned: the pool-exhaustion condition.
pub open spec fn all_pinned(pool: BufferPool) -> bool {
    forall|j: int| 0 <= j < pool.buffers@.len() ==> (#[trigger] pool.buffers@[j]).pinned()
}

/// Everything one successful clock sweep guarantees when it selects frame
/// `v`: the victim is unpinned and is the frame the sweep reaches first
/// (least `sweep_key`), the hand stops just past it, pins and page
/// contents are untouched, and every unpinned frame has given up one unit
/// of usage count per time the hand passed it.
pub open spec fn sweep_selected(pre: BufferPool, post: BufferPool, v: int) -> bool {
    let frames = pre.buffers@;
    let n = frames.len() as int;
    let c = pre.next_victim_id as int;
    &&& 0 <= v < n
    &&& post.buffers@.len() == n
    &&& !frames[v].pinned()
    &&& forall|j: int|
        0 <= j < n && j != v && !(#[trigger] frames[j]).pinned() ==> sweep_key(frames, c, j)
            > sweep_key(frames, c, v)
    &&& post.next_victim_id as int == (v + 1) % n
    &&& forall|j: int|
        0 <= j < n ==> {
            &&& (#[trigger] post.buffers@[j]).pin_count == frames[j].pin_count
            &&& post.buffers@[j].buffer == frames[j].buffer
        }
    &&& forall|j: int|
        0 <= j < n && (#[trigger] frames[j]).pinned() ==> post.buffers@[j].usage_count
            == frames[j].usage_count
    &&& forall|j: int|
        0 <= j < n && !(#[trigger] frames[j]).pinned() ==> post.buffers@[j].usage_count as int
            == frames[j].usage_count - frames[v].usage_count - (if scan_pos(j, c, n) < scan_pos(
            v,
            c,
            n,
        ) {
            1int
        } else {
            0int
        })
}

/// A sweep's victim always has its usage count at zero afterwards.
pub proof fn lemma_victim_usage_zero(pre: BufferPool, post: BufferPool, v: int)
    requires
        sweep_selected(pre, post, v),
    ensures
        post.buffers@[v].usage_count == 0,
{
}

/// Pin protection: a sweep never selects a pinned frame as its victim,
/// whatever the frame's usage count.
pub proof fn lemma_pin_protection(pre: BufferPool, post: BufferPool, v: int)
    requires
        sweep_selected(pre, post, v),
    ensures
        !pre.buffers@[v].pinned(),
        post.buffers@[v].pin_count == pre.buffers@[v].pin_count,
{
}

proof fn lemma_unpinned_usage_nonneg(frames: Seq<Frame>, k: int)
    ensures
        unpinned_usage(frames, k) >= 0,
    decreases k,
{
    if k > 0 {
        lemma_unpinned_usage_nonneg(frames, k - 1);
    }
}

/// Lowering one unpinned frame's usage count by one lowers the pool's
/// unpinned usage total by one.
proof fn lemma_unpinned_usage_dec(pre: Seq<Frame>, post: Seq<Frame>, i: int, k: int)
    requires
        0 <= i < pre.len(),
        post.len() == pre.len(),
        k <= pre.len(),
        !pre[i].pinned(),
        !post[i].pinned(),
        post[i].usage_count == pre[i].usage_count - 1,
        forall|j: int| 0 <= j < pre.len() && j != i ==> post[j] == pre[j],
    ensures
        unpinned_usage(post, k) == unpinned_usage(pre, k) - (if i < k {
            1int
        } else {
            0int
        }),
    decreases k,
{
    if k > 0 {
        lemma_unpinned_usage_dec(pre, post, i, k - 1);
    }
}

/// With the hand `uv` full turns plus `pv` steps into the sweep, position
/// `pj` has been examined `uv` times, plus once more if it lies before
/// `pv` in scan order.
proof fn lemma_times_examined_exact(t: int, pj: int, pv: int, uv: int, n: int)
    requires
        1 <= n,
        0 <= pv < n,
        0 <= pj < n,
        0 <= uv,
        t == uv * n + pv,
    ensures
        times_examined(t, pj, n) == uv + if pj < pv {
            1int
        } else {
            0int
        },
{
    assert(uv * n >= 0) by (nonlinear_arith)
        requires
            uv >= 0,
            n >= 1,
    ;
    if pj < pv {
        assert(t - 1 - pj == uv * n + (pv - pj - 1));
        lemma_fundamental_div_mod_converse_div(t - 1 - pj, n, uv, pv - pj - 1);
    } else if uv == 0 {
        assert(t == pv <= pj);
    } else {
        assert(uv * n >= n) by (nonlinear_arith)
            requires
                uv >= 1,
                n >= 1,
        ;
        assert((uv - 1) * n == uv * n - n) by (nonlinear_arith);
        assert(t - 1 - pj == (uv - 1) * n + (n + pv - pj - 1));
        lemma_fundamental_div_mod_converse_div(t - 1 - pj, n, uv - 1, n + pv - pj - 1);
    }
}

/// One more step examines position `p` exactly when the hand stands on it,
/// that is when `s % n == p`.
proof fn lemma_times_examined_step(s: int, p: int, n: int)
    requires
        1 <= n,
        0 <= p < n,
        0 <= s,
    ensures
        times_examined(s + 1, p, n) == times_examined(s, p, n) + if s % n == p {
            1int
        } else {
            0int
        },
{
    let q: int = s / n;
    let r: int = s % n;
    lemma_fundamental_div_mod(s, n);
    lemma_mod_bound(s, n);
    lemma_div_pos_is_pos(s, n);
    assert(s == q * n + r) by (nonlinear_arith)
        requires
            s == n * q + r,
    ;
    if s < p {
        lemma_small_mod_int(s, n);
    } else if s == p {
        lemma_small_mod_int(s, n);
        lemma_fundamental_div_mod_converse_div(0, n, 0, 0);
    } else {
        let d0: int = s - p;
        if r == p {
            assert(d0 == q * n);
            assert(q >= 1) by (nonlinear_arith)
                requires
                    q * n >= 1,
                    n >= 1,
                    q >= 0,
            ;
            lemma_fundamental_div_mod_converse_div(d0, n, q, 0);
            assert((q - 1) * n == q * n - n) by (nonlinear_arith);
            lemma_fundamental_div_mod_converse_div(d0 - 1, n, q - 1, n - 1);
        } else if r > p {
            assert(d0 == q * n + (r - p));
            lemma_fundamental_div_mod_converse_div(d0, n, q, r - p);
            lemma_fundamental_div_mod_converse_div(d0 - 1, n, q, r - p - 1);
        } else {
            assert(q * n == s - r > p - r > 0);
            assert(q >= 1) by (nonlinear_arith)
                requires
                    q * n > 0,
                    n >= 1,
                    q >= 0,
            ;
            assert((q - 1) * n == q * n - n) by (nonlinear_arith);
            assert(d0 == (q - 1) * n + (n + r - p));
            lemma_fundamental_div_mod_converse_div(d0, n, q - 1, n + r - p);
            lemma_fundamental_div_mod_converse_div(d0 - 1, n, q - 1, n + r - p - 1);
        }
    }
}

/// `x % n == x` for `0 <= x < n`.
proof fn lemma_small_mod_int(x: int, n: int)
    requires
        0 <= x < n,
    ensures
        x % n == x,
{
    lemma_fundamental_div_mod_converse_mod(x, n, 0, x);
}

/// Relates the step counter to the hand: after `s` steps from start `c0`
/// the hand stands on index `(c0 + s) % n`, and one more step moves it to
/// the next index, wrapping.
proof fn lemma_sweep_step(s: int, n: int, c0: int, cur: int)
    requires
        1 <= n,
        0 <= s,
        0 <= c0 < n,
        0 <= cur < n,
        s % n == scan_pos(cur, c0, n),
    ensures
        (c0 + s) % n == cur,
        (s + 1) % n == scan_pos((cur + 1) % n, c0, n),
        (cur + 1) % n == if cur + 1 == n {
            0int
        } else {
            cur + 1
        },
{
    let q: int = s / n;
    let r: int = s % n;
    lemma_fundamental_div_mod(s, n);
    lemma_mod_bound(s, n);
    lemma_div_pos_is_pos(s, n);
    assert(s == q * n + r) by (nonlinear_arith)
        requires
            s == n * q + r,
    ;
    assert((q + 1) * n == q * n + n) by (nonlinear_arith);
    if cur + 1 == n {
        lemma_fundamental_div_mod_converse_mod(cur + 1, n, 1, 0);
    } else {
        lemma_small_mod_int(cur + 1, n);
    }
    if cur >= c0 {
        assert(c0 + s == q * n + cur);
        lemma_fundamental_div_mod_converse_mod(c0 + s, n, q, cur);
    } else {
        assert(c0 + s == (q + 1) * n + cur);
        lemma_fundamental_div_mod_converse_mod(c0 + s, n, q + 1, cur);
    }
    if r + 1 < n {
        lemma_fundamental_div_mod_converse_mod(s + 1, n, q, r + 1);
    } else {
        assert(s + 1 == (q + 1) * n);
        lemma_fundamental_div_mod_converse_mod(s + 1, n, q + 1, 0);
    }
}

/// Any window of `n` consecutive steps ending at step `s` lands on every
/// index once; this names the step within it that lands on index `j`.
proof fn lemma_window_covers(c0: int, s: int, n: int, j: int)
    requires
        1 <= n,
        s >= n - 1,
        0 <= c0,
        0 <= j < n,
    ensures
        ({
            let t = s - ((c0 + s - j) % n);
            &&& s - (n - 1) <= t <= s
            &&& (c0 + t) % n == j
        }),
{
    let m: int = c0 + s - j;
    let qm: int = m / n;
    let d: int = m % n;
    lemma_fundamental_div_mod(m, n);
    lemma_mod_bound(m, n);
    lemma_div_pos_is_pos(m, n);
    assert(m == qm * n + d) by (nonlinear_arith)
        requires
            m == n * qm + d,
    ;
    let t = s - d;
    assert(c0 + t == qm * n + j);
    lemma_fundamental_div_mod_converse_mod(c0 + t, n, qm, j);
}

/// A fixed array of frames together with the persistent clock hand.
/// `pool_size` is fixed at construction; frames are never added or removed.
pub struct BufferPool {
    pub buffers: Vec<Frame>,
    /// The clock hand: index of the frame the next eviction scan examines
    /// first.
    pub next_victim_id: BufferId,
}

impl BufferPool {
    pub open spec fn wf(self) -> bool {
        &&& self.buffers@.len() >= 1
        &&& (self.next_victim_id as int) < self.buffers@.len()
        &&& forall|i: int| 0 <= i < self.buffers@.len() ==> (#[trigger] self.buffers@[i]).wf()
    }

    /// Builds a pool of `pool_size` empty frames: sentinel page identifier,
    /// zero counters, clean buffer, the hand on frame 0.
    pub fn new(pool_size: usize) -> (pool: Self)
        requires
            1 <= pool_size,
        ensures
            pool.wf(),
            pool.buffers@.len() == pool_size,
            pool.next_victim_id == 0,
            forall|i: int| 0 <= i < pool_size ==> {
                let f = #[trigger] pool.buffers@[i];
                &&& f.usage_count == 0
                &&& f.pin_count == 0
                &&& !f.buffer.occupied()
                &&& !f.buffer.is_dirty
            },
    {
        let mut buffers: Vec<Frame> = Vec::new();
        while buffers.len() < pool_size
            invariant
                buffers@.len() <= pool_size,
                forall|i: int| 0 <= i < buffers@.len() ==> {
                    let f = #[trigger] buffers@[i];
                    &&& f.wf()
                    &&& f.usage_count == 0
                    &&& f.pin_count == 0
                    &&& !f.buffer.occupied()
                    &&& !f.buffer.is_dirty
                },
            decreases pool_size - buffers@.len(),
        {
            buffers.push(Frame {
                usage_count: 0,
                pin_count: 0,
                buffer: Buffer {
                    page_id: INVALID_PAGE_ID,
                    page: zero_page(),
                    is_dirty: false,
                },
            });
        }
        BufferPool { buffers, next_victim_id: 0 }
    }

    /// Number of frames, fixed for the pool's lifetime.
    pub fn size(&self) -> (n: usize)
        ensures
            n == self.buffers@.len(),
    {
        self.buffers.len()
    }

    /// The position one step past `buffer_id`, wrapping at the end of the
    /// frame array.
    fn increment_id(&self, buffer_id: BufferId) -> (r: BufferId)
        requires
            self.wf(),
            (buffer_id as int) < self.buffers@.len(),
        ensures
            r as int == (buffer_id + 1) % (self.buffers@.len() as int),
            (r as int) < self.buffers@.len(),
    {
        let n = self.size();
        (buffer_id + 1) % n
    }

    /// Clock-sweep eviction: scans from the hand, one frame per step.
    /// An unpinned frame with usage count zero is selected at once; an
    /// unpinned frame with a positive count gives up one unit instead (its
    /// second chance); a pinned frame is passed over untouched. After
    /// `pool_size` consecutive pinned frames the scan gives up: every
    /// frame is pinned and there is no victim.
    #[verifier::loop_isolation(false)]
    pub fn evict(&mut self) -> (r: Option<BufferId>)
        requires
            old(self).wf(),
        ensures
            final(self).wf(),
            final(self).buffers@.len() == old(self).buffers@.len(),
            match r {
                Option::None => {
                    &&& all_pinned(*old(self))
                    &&& final(self).buffers@ == old(self).buffers@
                    &&& final(self).next_victim_id == old(self).next_victim_id
                },
                Option::Some(v) => sweep_selected(*old(self), *final(self), v as int),
            },
    {
        let n = self.buffers.len();
        let ghost frames0: Seq<Frame> = self.buffers@;
        let ghost c0: int = self.next_victim_id as int;
        let ghost nn: int = n as int;
        let mut cursor: usize = self.next_victim_id;
        let mut consecutive_pinned: usize = 0;
        let ghost mut s: int = 0;
        loop
            invariant
                self.wf(),
                nn == n as int,
                self.buffers@.len() == nn,
                frames0.len() == nn,
                1 <= nn,
                self.next_victim_id as int == c0,
                0 <= c0 < nn,
                (cursor as int) < nn,
                0 <= s,
                s % nn == scan_pos(cursor as int, c0, nn),
                (consecutive_pinned as int) <= s,
                (consecutive_pinned as int) < nn,
                forall|j: int|
                    0 <= j < nn ==> {
                        &&& (#[trigger] self.buffers@[j]).pin_count == frames0[j].pin_count
                        &&& self.buffers@[j].buffer == frames0[j].buffer
                    },
                forall|j: int|
                    0 <= j < nn && (#[trigger] frames0[j]).pinned() ==> self.buffers@[j].usage_count
                        == frames0[j].usage_count,
                forall|j: int|
                    0 <= j < nn && !(#[trigger] frames0[j]).pinned()
                        ==> self.buffers@[j].usage_count as int == frames0[j].usage_count
                        - times_examined(s, scan_pos(j, c0, nn), nn),
                forall|j: int|
                    0 <= j < nn && !(#[trigger] frames0[j]).pinned() ==> sweep_key(frames0, c0, j)
                        >= s,
                forall|t: int|
                    s - (consecutive_pinned as int) <= t < s ==> (#[trigger] frames0[hand_index(
                        c0,
                        t,
                        nn,
                    )]).pinned(),
            decreases unpinned_usage(self.buffers@, nn), nn - consecutive_pinned,
        {
            let u = self.buffers[cursor].usage_count;
            let pc = self.buffers[cursor].pin_count;
            if pc == 0 {
                if u == 0 {
                    proof {
                        let pos_v: int = scan_pos(cursor as int, c0, nn);
                        let q: int = s / nn;
                        let r0: int = s % nn;
                        lemma_fundamental_div_mod(s, nn);
                        lemma_mod_bound(s, nn);
                        lemma_div_pos_is_pos(s, nn);
                        assert(s == q * nn + r0) by (nonlinear_arith)
                            requires
                                s == nn * q + r0,
                        ;
                        lemma_times_examined_exact(s, pos_v, pos_v, q, nn);
                        assert(frames0[cursor as int].usage_count == q);
                        assert(s == sweep_key(frames0, c0, cursor as int));
                        assert forall|j: int|
                            0 <= j < nn && j != cursor as int && !(#[trigger] frames0[j]).pinned()
                        implies sweep_key(frames0, c0, j) > sweep_key(
                            frames0,
                            c0,
                            cursor as int,
                        ) by {
                            lemma_fundamental_div_mod_converse_mod(
                                sweep_key(frames0, c0, j),
                                nn,
                                frames0[j].usage_count as int,
                                scan_pos(j, c0, nn),
                            );
                        };
                        assert forall|j: int| 0 <= j < nn && !(#[trigger] frames0[j]).pinned()
                        implies self.buffers@[j].usage_count as int == frames0[j].usage_count
                            - frames0[cursor as int].usage_count - (if scan_pos(j, c0, nn)
                            < scan_pos(cursor as int, c0, nn) {
                            1int
                        } else {
                            0int
                        }) by {
                            lemma_times_examined_exact(s, scan_pos(j, c0, nn), pos_v, q, nn);
                        };
                    }
                    self.next_victim_id = self.increment_id(cursor);
                    return Some(cursor);
                }
                let ghost pre: Seq<Frame> = self.buffers@;
                self.buffers[cursor].usage_count = u - 1;
                consecutive_pinned = 0;
                proof {
                    lemma_sweep_step(s, nn, c0, cursor as int);
                    lemma_unpinned_usage_dec(pre, self.buffers@, cursor as int, nn);
                    lemma_unpinned_usage_nonneg(self.buffers@, nn);
                    let pos_v: int = scan_pos(cursor as int, c0, nn);
                    let q: int = s / nn;
                    let r0: int = s % nn;
                    lemma_fundamental_div_mod(s, nn);
                    lemma_mod_bound(s, nn);
                    lemma_div_pos_is_pos(s, nn);
                    assert(s == q * nn + r0) by (nonlinear_arith)
                        requires
                            s == nn * q + r0,
                    ;
                    lemma_times_examined_exact(s, pos_v, pos_v, q, nn);
                    assert forall|j: int| 0 <= j < nn && !(#[trigger] frames0[j]).pinned()
                    implies self.buffers@[j].usage_count as int == frames0[j].usage_count
                        - times_examined(s + 1, scan_pos(j, c0, nn), nn) by {
                        lemma_times_examined_step(s, scan_pos(j, c0, nn), nn);
                    };
                    assert forall|j: int| 0 <= j < nn && !(#[trigger] frames0[j]).pinned()
                    implies sweep_key(frames0, c0, j) >= s + 1 by {
                        lemma_fundamental_div_mod_converse_mod(
                            sweep_key(frames0, c0, j),
                            nn,
                            frames0[j].usage_count as int,
                            scan_pos(j, c0, nn),
                        );
                        if j == cursor as int {
                            assert(frames0[j].usage_count as int >= q + 1);
                            assert(frames0[j].usage_count * nn >= (q + 1) * nn)
                                by (nonlinear_arith)
                                requires
                                    frames0[j].usage_count as int >= q + 1,
                                    nn >= 1,
                            ;
                            assert((q + 1) * nn == q * nn + nn) by (nonlinear_arith);
                        }
                    };
                }
                cursor = self.increment_id(cursor);
                proof {
                    s = s + 1;
                }
            } else {
                consecutive_pinned = consecutive_pinned + 1;
                proof {
                    lemma_sweep_step(s, nn, c0, cursor as int);
                }
                if consecutive_pinned >= n {
                    proof {
                        assert forall|j: int| 0 <= j < nn implies (#[trigger] frames0[j]).pinned() by {
                            lemma_window_covers(c0, s, nn, j);
                            let t: int = s - ((c0 + s - j) % nn);
                            if t == s {
                                assert(j == cursor as int);
                            } else {
                                assert(frames0[hand_index(c0, t, nn)].pinned());
                            }
                        };
                        assert forall|j: int| 0 <= j < nn implies self.buffers@[j] == frames0[j] by {
                            assert(self.buffers@[j] =~= frames0[j]);
                        };
                        assert(self.buffers@ =~= frames0);
                    }
                    return None;
                }
                proof {
                    lemma_unpinned_usage_nonneg(self.buffers@, nn);
                    assert forall|j: int| 0 <= j < nn && !(#[trigger] frames0[j]).pinned()
                    implies self.buffers@[j].usage_count as int == frames0[j].usage_count
                        - times_examined(s + 1, scan_pos(j, c0, nn), nn) && sweep_key(
                        frames0,
                        c0,
                        j,
                    ) >= s + 1 by {
                        lemma_times_examined_step(s, scan_pos(j, c0, nn), nn);
                        lemma_fundamental_div_mod_converse_mod(
                            sweep_key(frames0, c0, j),
                            nn,
                            frames0[j].usage_count as int,
                            scan_pos(j, c0, nn),
                        );
                    };
                }
                cursor = self.increment_id(cursor);
                proof {
                    s = s + 1;
                }
            }
        }
    }
}

} // verus!
