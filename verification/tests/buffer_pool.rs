use buffer_pool::frame::{zero_page, BufferId, PageId, INVALID_PAGE_ID, PAGE_SIZE};
use buffer_pool::manager::{BufferPoolManager, Error, FetchStep, MissPlan};
use buffer_pool::pool::BufferPool;

/// Builds a page block whose first byte carries a marker.
fn marked_page(marker: u8) -> Vec<u8> {
    let mut data = vec![0u8; PAGE_SIZE];
    data[0] = marker;
    data
}

/// Drives the miss half of the fetch protocol the way a caller with a disk
/// manager would: completes the plan by installing `data` for `page_id`.
fn complete_miss(m: &mut BufferPoolManager, page_id: PageId, plan: MissPlan, data: Vec<u8>) -> BufferId {
    // A real caller would first write plan.flush to the disk manager.
    let buffer_id = plan.buffer_id;
    m.install_page(page_id, buffer_id, data);
    buffer_id
}

/// Fetches `page_id`, installing `data` on a miss; panics on exhaustion.
fn fetch_with(m: &mut BufferPoolManager, page_id: PageId, data: Vec<u8>) -> BufferId {
    match m.fetch_page(page_id).unwrap() {
        FetchStep::Hit(b) => b,
        FetchStep::Miss(plan) => complete_miss(m, page_id, plan, data),
    }
}

#[test]
fn new_pool_starts_empty() {
    let pool = BufferPool::new(3);
    assert_eq!(pool.buffers.len(), 3);
    assert_eq!(pool.next_victim_id, 0);
    for f in &pool.buffers {
        assert_eq!(f.usage_count, 0);
        assert_eq!(f.pin_count, 0);
        assert_eq!(f.buffer.page_id, INVALID_PAGE_ID);
        assert!(!f.buffer.is_dirty);
        assert_eq!(f.buffer.page.len(), PAGE_SIZE);
    }
    let m = BufferPoolManager::new(pool);
    assert!(m.page_table.is_empty());
    assert!(m.flush_all().is_empty());
}

#[test]
fn first_fetch_misses_with_nothing_to_flush() {
    let mut m = BufferPoolManager::new(BufferPool::new(2));
    match m.fetch_page(7).unwrap() {
        FetchStep::Miss(plan) => {
            assert_eq!(plan.buffer_id, 0);
            assert!(plan.flush.is_none());
            let b = complete_miss(&mut m, 7, plan, marked_page(0xa1));
            assert_eq!(b, 0);
            assert_eq!(m.page_data(b)[0], 0xa1);
            assert_eq!(m.pool.buffers[0].usage_count, 1);
            assert_eq!(m.pool.buffers[0].pin_count, 1);
            assert!(!m.is_dirty(b));
        }
        _ => panic!("expected a miss on an empty pool"),
    }
}

#[test]
fn no_duplicate_instances() {
    let mut m = BufferPoolManager::new(BufferPool::new(3));
    let b1 = fetch_with(&mut m, 42, marked_page(1));
    // A second fetch with no intervening eviction must name the same frame.
    let b2 = match m.fetch_page(42).unwrap() {
        FetchStep::Hit(b) => b,
        FetchStep::Miss(_) => panic!("resident page must hit"),
    };
    assert_eq!(b1, b2);
    // A write through one handle is seen through the other: one buffer.
    m.write_page_data(b1, marked_page(9));
    assert_eq!(m.page_data(b2)[0], 9);
    assert_eq!(m.pool.buffers[b1 as usize].pin_count, 2);
}

#[test]
fn hit_raises_usage_count() {
    let mut m = BufferPoolManager::new(BufferPool::new(2));
    let b = fetch_with(&mut m, 5, marked_page(5));
    assert_eq!(m.pool.buffers[b].usage_count, 1);
    fetch_with(&mut m, 5, marked_page(5));
    assert_eq!(m.pool.buffers[b].usage_count, 2);
}

#[test]
fn pin_protection_even_at_zero_usage() {
    let mut m = BufferPoolManager::new(BufferPool::new(2));
    let ba = fetch_with(&mut m, 1, marked_page(1));
    assert_eq!(ba, 0);
    // Keep the handle on page 1 and drop its usage credit to zero: the
    // sweep must still pass it over.
    m.pool.buffers[0].usage_count = 0;
    match m.fetch_page(2).unwrap() {
        FetchStep::Miss(plan) => assert_eq!(plan.buffer_id, 1),
        _ => panic!("page 2 is not resident"),
    }
}

#[test]
fn exhaustion_reports_no_free_buffer() {
    let mut m = BufferPoolManager::new(BufferPool::new(2));
    fetch_with(&mut m, 1, marked_page(1));
    fetch_with(&mut m, 2, marked_page(2));
    // Both frames hold a pinned page: the third distinct fetch must fail.
    assert_eq!(m.fetch_page(3).unwrap_err(), Error::NoFreeBuffer);
    // Releasing one pin makes the fetch possible again.
    assert!(m.unpin_page(1));
    m.pool.buffers[0].usage_count = 0;
    assert!(m.fetch_page(3).is_ok());
}

#[test]
fn dirty_flush_before_reuse() {
    let mut m = BufferPoolManager::new(BufferPool::new(1));
    let ba = fetch_with(&mut m, 10, marked_page(0x10));
    m.write_page_data(ba, marked_page(0x77));
    m.mark_dirty(ba);
    assert!(m.unpin_page(10));
    m.pool.buffers[0].usage_count = 0;
    // Fetching page 11 evicts page 10. The plan must demand the write of
    // page 10's latest bytes before anything is read or installed.
    match m.fetch_page(11).unwrap() {
        FetchStep::Miss(plan) => {
            let flush = plan.flush.as_ref().expect("dirty victim must be flushed");
            assert_eq!(flush.page_id, 10);
            assert_eq!(flush.data[0], 0x77);
            // Only now would the caller read page 11 from disk.
            let b = complete_miss(&mut m, 11, plan, marked_page(0x11));
            assert_eq!(m.page_data(b)[0], 0x11);
            assert!(!m.is_dirty(b));
        }
        _ => panic!("page 11 is not resident"),
    }
}

#[test]
fn clean_eviction_needs_no_flush() {
    let mut m = BufferPoolManager::new(BufferPool::new(1));
    fetch_with(&mut m, 10, marked_page(0x10));
    assert!(m.unpin_page(10));
    m.pool.buffers[0].usage_count = 0;
    match m.fetch_page(11).unwrap() {
        FetchStep::Miss(plan) => assert!(plan.flush.is_none()),
        _ => panic!("page 11 is not resident"),
    }
}

#[test]
fn clock_sweep_evicts_first_unreferenced_in_scan_order() {
    let mut m = BufferPoolManager::new(BufferPool::new(3));
    // Fetch pages 100, 200, 300 in order; each ends with usage count 1.
    let ba = fetch_with(&mut m, 100, marked_page(1));
    let bb = fetch_with(&mut m, 200, marked_page(2));
    let bc = fetch_with(&mut m, 300, marked_page(3));
    assert_eq!((ba, bb, bc), (0, 1, 2));
    assert!(m.unpin_page(100));
    assert!(m.unpin_page(200));
    assert!(m.unpin_page(300));
    // The sweep decrements 100, 200, 300 once each, comes back around and
    // takes page 100's frame: the first whose count reaches zero.
    match m.fetch_page(400).unwrap() {
        FetchStep::Miss(plan) => {
            assert_eq!(plan.buffer_id, ba);
            let flush = plan.flush;
            assert!(flush.is_none());
        }
        _ => panic!("page 400 is not resident"),
    }
}

#[test]
fn second_chance_decrements_on_the_way() {
    let mut pool = BufferPool::new(2);
    pool.buffers[0].usage_count = 2;
    pool.buffers[1].usage_count = 1;
    // Sweep from frame 0: 2 -> 1, 1 -> 0, back to frame 0: 1 -> 0... the
    // second pass reaches frame 1 first with a zero count.
    let victim = pool.evict().expect("nothing is pinned");
    assert_eq!(victim, 1);
    assert_eq!(pool.buffers[0].usage_count, 0);
    assert_eq!(pool.buffers[1].usage_count, 0);
    assert_eq!(pool.next_victim_id, 0);
}

#[test]
fn evict_on_fully_pinned_pool_changes_nothing() {
    let mut pool = BufferPool::new(2);
    pool.buffers[0].usage_count = 3;
    pool.buffers[0].pin_count = 1;
    pool.buffers[1].usage_count = 5;
    pool.buffers[1].pin_count = 2;
    assert!(pool.evict().is_none());
    assert_eq!(pool.buffers[0].usage_count, 3);
    assert_eq!(pool.buffers[1].usage_count, 5);
    assert_eq!(pool.next_victim_id, 0);
}

#[test]
fn unpin_counts_down_and_refuses_below_zero() {
    let mut m = BufferPoolManager::new(BufferPool::new(2));
    fetch_with(&mut m, 8, marked_page(8));
    fetch_with(&mut m, 8, marked_page(8));
    assert_eq!(m.pool.buffers[0].pin_count, 2);
    assert!(m.unpin_page(8));
    assert!(m.unpin_page(8));
    assert!(!m.unpin_page(8));
    assert_eq!(m.pool.buffers[0].pin_count, 0);
    assert!(!m.unpin_page(999));
}

#[test]
fn writing_alone_does_not_set_dirty() {
    let mut m = BufferPoolManager::new(BufferPool::new(1));
    let b = fetch_with(&mut m, 4, marked_page(4));
    m.write_page_data(b, marked_page(0xee));
    assert!(!m.is_dirty(b));
    m.mark_dirty(b);
    assert!(m.is_dirty(b));
    assert_eq!(m.page_data(b)[0], 0xee);
}

#[test]
fn flush_page_ignores_the_dirty_flag() {
    let mut m = BufferPoolManager::new(BufferPool::new(2));
    let b = fetch_with(&mut m, 21, marked_page(0x21));
    assert!(!m.is_dirty(b));
    let fr = m.flush_page(21).expect("page 21 is resident");
    assert_eq!(fr.page_id, 21);
    assert_eq!(fr.data[0], 0x21);
    assert!(m.flush_page(22).is_none());
}

#[test]
fn flush_all_collects_every_resident_page() {
    let mut m = BufferPoolManager::new(BufferPool::new(3));
    fetch_with(&mut m, 31, marked_page(0x31));
    fetch_with(&mut m, 32, marked_page(0x32));
    let requests = m.flush_all();
    assert_eq!(requests.len(), 2);
    assert_eq!(requests[0].page_id, 31);
    assert_eq!(requests[0].data[0], 0x31);
    assert_eq!(requests[1].page_id, 32);
    assert_eq!(requests[1].data[0], 0x32);
}

#[test]
fn new_page_plans_a_miss_for_a_fresh_identifier() {
    let mut m = BufferPoolManager::new(BufferPool::new(1));
    fetch_with(&mut m, 50, marked_page(0x50));
    m.mark_dirty(0);
    assert!(m.unpin_page(50));
    m.pool.buffers[0].usage_count = 0;
    // The caller got identifier 51 from the disk manager's allocator.
    let plan = m.new_page(51).unwrap();
    let flush = plan.flush.as_ref().expect("the dirty page leaves first");
    assert_eq!(flush.page_id, 50);
    let b = plan.buffer_id;
    m.install_page(51, b, zero_page());
    assert!(m.page_data(b).iter().all(|&x| x == 0));
    assert_eq!(m.page_data(b).len(), PAGE_SIZE);
}

#[test]
fn new_page_on_pinned_pool_is_exhaustion() {
    let mut m = BufferPoolManager::new(BufferPool::new(1));
    fetch_with(&mut m, 60, marked_page(0x60));
    assert_eq!(m.new_page(61).unwrap_err(), Error::NoFreeBuffer);
}

#[test]
fn residency_tracks_install_and_evict() {
    let mut m = BufferPoolManager::new(BufferPool::new(1));
    fetch_with(&mut m, 70, marked_page(0x70));
    assert_eq!(m.page_table.get(&70), Some(&0));
    assert!(m.unpin_page(70));
    m.pool.buffers[0].usage_count = 0;
    fetch_with(&mut m, 71, marked_page(0x71));
    assert!(m.page_table.get(&70).is_none());
    assert_eq!(m.page_table.get(&71), Some(&0));
    assert_eq!(m.pool.buffers[0].buffer.page_id, 71);
}
