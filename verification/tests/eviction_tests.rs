use heapstore::eviction_policy::choose_victim;
use heapstore::eviction_policy::small_thread_rng;
use heapstore::eviction_policy::DummyEvictionPolicy;
use heapstore::eviction_policy::EvictionPolicy;
use heapstore::eviction_policy::LruCounter;
use heapstore::eviction_policy::LRUEvictionPolicy;
use heapstore::eviction_policy::INITIAL_COUNTER;

#[test]
fn lru_victim_is_the_least_recently_touched_frame() {
    // a three-frame pool: create pages 0, 1 and 2, then read 0, 1, 2 and 0
    // again, then look for a victim for a fourth page
    let mut counter = LruCounter::new();
    let mut frames: Vec<LRUEvictionPolicy> = (0..3).map(|_| LRUEvictionPolicy::new()).collect();
    let t = counter.tick();
    frames[0].touch(t); // create page 0
    let t = counter.tick();
    frames[1].touch(t); // create page 1
    let t = counter.tick();
    frames[2].touch(t); // create page 2
    let t = counter.tick();
    frames[0].touch(t); // read page 0
    let t = counter.tick();
    frames[1].touch(t); // read page 1
    let t = counter.tick();
    frames[2].touch(t); // read page 2
    let t = counter.tick();
    frames[0].touch(t); // read page 0
    let scores: Vec<u64> = frames.iter().map(|f| f.score()).collect();
    let latched = vec![false, false, false];
    // the frame holding page 1 is the oldest since its last touch
    assert_eq!(choose_victim(&scores, &latched), Some(1));
}

#[test]
fn victim_ties_break_toward_the_lowest_frame() {
    let scores = vec![5u64, 3, 3, 9];
    let latched = vec![false, false, false, false];
    assert_eq!(choose_victim(&scores, &latched), Some(1));
}

#[test]
fn latched_frames_are_never_victims() {
    let scores = vec![1u64, 2, 3];
    assert_eq!(choose_victim(&scores, &vec![true, false, true]), Some(1));
    assert_eq!(choose_victim(&scores, &vec![true, true, true]), None);
}

#[test]
fn scores_never_move_backwards() {
    let mut f = LRUEvictionPolicy::new();
    assert_eq!(f.score(), INITIAL_COUNTER);
    f.touch(10);
    assert_eq!(f.score(), 10);
    f.touch(4);
    assert_eq!(f.score(), 10);
    f.reset();
    assert_eq!(f.score(), INITIAL_COUNTER);
}

#[test]
fn sampled_update_keeps_scores_monotone() {
    let mut counter = LruCounter::new();
    let mut f = LRUEvictionPolicy::new();
    let mut last = f.score();
    for _ in 0..200 {
        f.update(&mut counter);
        assert!(f.score() >= last);
        last = f.score();
    }
}

#[test]
fn dummy_policy_scores_are_constant_zero() {
    let mut counter = LruCounter::new();
    let mut d = DummyEvictionPolicy::new();
    assert_eq!(d.score(), 0);
    d.update(&mut counter);
    assert_eq!(d.score(), 0);
    d.reset();
    assert_eq!(d.score(), 0);
}

#[test]
fn counter_hands_out_ascending_ticks() {
    let mut counter = LruCounter::new();
    let a = counter.tick();
    let b = counter.tick();
    let c = counter.tick();
    assert_eq!(a, INITIAL_COUNTER);
    assert!(a < b && b < c);
}

#[test]
fn thread_rng_handle_produces_values() {
    let mut rng = small_thread_rng();
    let a = rng.next_u64();
    let b = rng.next_u64();
    let _ = rng.next_u32();
    let mut buf = vec![0u8; 32];
    rng.fill_bytes(&mut buf);
    // no determinism is promised; just exercise the calls
    let _ = (a, b);
}
