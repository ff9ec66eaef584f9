use buffer_pool::FrameID;
use buffer_pool::LRUKReplacer;

fn evict_one(replacer: &mut LRUKReplacer) -> Option<FrameID> {
    let mut frame_id: FrameID = -1;
    if replacer.evict(&mut frame_id) {
        Some(frame_id)
    } else {
        assert_eq!(frame_id, -1);
        None
    }
}

#[test]
fn lru_k_ordering_prefers_under_observed_frames_in_fifo_order() {
    // A = 0, B = 1, C = 2, accessed in the order A, B, A, C with K = 2.
    let mut replacer = LRUKReplacer::new(3, 2);
    replacer.record_access(0);
    replacer.record_access(1);
    replacer.record_access(0);
    replacer.record_access(2);
    replacer.set_evictable(0, true);
    replacer.set_evictable(1, true);
    replacer.set_evictable(2, true);
    assert_eq!(replacer.size(), 3);
    assert_eq!(evict_one(&mut replacer), Some(1));
    assert_eq!(evict_one(&mut replacer), Some(2));
    assert_eq!(evict_one(&mut replacer), Some(0));
    assert_eq!(evict_one(&mut replacer), None);
    assert_eq!(replacer.size(), 0);
}

#[test]
fn evict_without_evictable_frame_leaves_everything_untouched() {
    let mut replacer = LRUKReplacer::new(4, 2);
    replacer.record_access(0);
    replacer.record_access(3);
    let mut frame_id: FrameID = 17;
    assert!(!replacer.evict(&mut frame_id));
    assert_eq!(frame_id, 17);
    assert_eq!(replacer.size(), 0);
    assert_eq!(replacer.current_timestamp(), 2);
}

#[test]
fn evict_on_replacer_without_frames_fails() {
    let mut replacer = LRUKReplacer::new(0, 1);
    assert_eq!(replacer.capacity(), 0);
    assert_eq!(evict_one(&mut replacer), None);
}

#[test]
fn largest_finite_backward_distance_is_evicted() {
    let mut replacer = LRUKReplacer::new(2, 2);
    replacer.record_access(0); // t0
    replacer.record_access(0); // t1
    replacer.record_access(1); // t2
    replacer.record_access(1); // t3
    replacer.set_evictable(0, true);
    replacer.set_evictable(1, true);
    // at clock 4: distance of frame 0 is 4 - 0, of frame 1 is 4 - 2
    assert_eq!(evict_one(&mut replacer), Some(0));
    assert_eq!(evict_one(&mut replacer), Some(1));
}

#[test]
fn only_the_k_most_recent_accesses_count() {
    let mut replacer = LRUKReplacer::new(2, 2);
    replacer.record_access(0); // t0
    replacer.record_access(1); // t1
    replacer.record_access(1); // t2
    replacer.record_access(0); // t3
    replacer.record_access(0); // t4: the history of frame 0 is now t3, t4
    replacer.set_evictable(0, true);
    replacer.set_evictable(1, true);
    // second most recent access: frame 0 at t3, frame 1 at t1
    assert_eq!(evict_one(&mut replacer), Some(1));
    assert_eq!(evict_one(&mut replacer), Some(0));
}

#[test]
fn k_equal_one_is_plain_lru() {
    let mut replacer = LRUKReplacer::new(3, 1);
    replacer.record_access(0);
    replacer.record_access(1);
    replacer.record_access(2);
    replacer.record_access(0);
    replacer.set_evictable(0, true);
    replacer.set_evictable(1, true);
    replacer.set_evictable(2, true);
    assert_eq!(evict_one(&mut replacer), Some(1));
    assert_eq!(evict_one(&mut replacer), Some(2));
    assert_eq!(evict_one(&mut replacer), Some(0));
}

#[test]
fn non_evictable_frames_are_never_chosen() {
    let mut replacer = LRUKReplacer::new(3, 2);
    replacer.record_access(0);
    replacer.record_access(1);
    replacer.record_access(2);
    replacer.set_evictable(2, true);
    assert_eq!(replacer.size(), 1);
    assert_eq!(evict_one(&mut replacer), Some(2));
    assert_eq!(evict_one(&mut replacer), None);
}

#[test]
fn set_evictable_is_idempotent() {
    let mut replacer = LRUKReplacer::new(2, 2);
    replacer.record_access(0);
    replacer.set_evictable(0, true);
    replacer.set_evictable(0, true);
    assert_eq!(replacer.size(), 1);
    replacer.set_evictable(0, false);
    replacer.set_evictable(0, false);
    assert_eq!(replacer.size(), 0);
    assert_eq!(evict_one(&mut replacer), None);
}

#[test]
fn set_evictable_works_without_history() {
    let mut replacer = LRUKReplacer::new(3, 2);
    replacer.record_access(0);
    replacer.set_evictable(0, true);
    replacer.set_evictable(2, true);
    replacer.set_evictable(1, true);
    assert_eq!(replacer.size(), 3);
    // frames that were never accessed go first, the lower id before the higher
    assert_eq!(evict_one(&mut replacer), Some(1));
    assert_eq!(evict_one(&mut replacer), Some(2));
    assert_eq!(evict_one(&mut replacer), Some(0));
}

#[test]
fn evict_clears_history_and_flag() {
    let mut replacer = LRUKReplacer::new(2, 2);
    replacer.record_access(0); // t0
    replacer.record_access(0); // t1
    replacer.record_access(1); // t2
    replacer.record_access(1); // t3
    replacer.set_evictable(0, true);
    replacer.set_evictable(1, true);
    assert_eq!(evict_one(&mut replacer), Some(0));
    assert_eq!(replacer.size(), 1);
    // frame 0 starts over: one access only, so its distance is infinite
    replacer.record_access(0); // t4
    assert_eq!(replacer.size(), 1);
    replacer.set_evictable(0, true);
    assert_eq!(evict_one(&mut replacer), Some(0));
    assert_eq!(evict_one(&mut replacer), Some(1));
}

#[test]
fn remove_erases_history_and_flag() {
    let mut replacer = LRUKReplacer::new(2, 2);
    replacer.record_access(0); // t0
    replacer.record_access(0); // t1
    replacer.record_access(1); // t2
    replacer.record_access(1); // t3
    replacer.set_evictable(0, true);
    replacer.set_evictable(1, true);
    replacer.remove(1);
    assert_eq!(replacer.size(), 1);
    replacer.record_access(1); // t4, the only access of frame 1 now
    replacer.set_evictable(1, true);
    assert_eq!(evict_one(&mut replacer), Some(1));
    assert_eq!(evict_one(&mut replacer), Some(0));
}

#[test]
fn remove_of_non_evictable_frame_keeps_size() {
    let mut replacer = LRUKReplacer::new(2, 2);
    replacer.record_access(0);
    replacer.record_access(1);
    replacer.set_evictable(0, true);
    replacer.remove(1);
    assert_eq!(replacer.size(), 1);
    replacer.remove(0);
    assert_eq!(replacer.size(), 0);
}

#[test]
fn clock_ticks_once_per_access() {
    let mut replacer = LRUKReplacer::new(2, 3);
    assert_eq!(replacer.current_timestamp(), 0);
    replacer.record_access(1);
    replacer.record_access(1);
    replacer.record_access(0);
    assert_eq!(replacer.current_timestamp(), 3);
    replacer.set_evictable(1, true);
    replacer.remove(1);
    assert_eq!(replacer.current_timestamp(), 3);
    assert_eq!(replacer.capacity(), 2);
}
