//! Eviction scoring for buffer frames: a constant policy for pools that
//! never evict, and an approximate least-recently-used policy driven by a
//! monotonic counter with sampled updates.

use vstd::prelude::*;

verus! {

/// First value of the monotonic counter and of every fresh frame score.
pub const INITIAL_COUNTER: u64 = 1;

/// Relies on rand::random: draws a machine-random 64-bit value.
#[verifier::external_body]
fn random_u64() -> u64 {
    rand::random::<u64>()
}

/// A cheap handle to process-wide randomness, used where a full generator
/// is not worth threading through.
#[derive(Debug, Clone)]
pub struct SmallThreadRng;

impl SmallThreadRng {
    /// A random 32-bit value.
    pub fn next_u32(&mut self) -> u32 {
        let v = random_u64();
        (v >> 32u64) as u32
    }

    /// A random 64-bit value.
    pub fn next_u64(&mut self) -> u64 {
        random_u64()
    }

    /// Overwrite `dest` with random bytes.
    pub fn fill_bytes(&mut self, dest: &mut Vec<u8>)
        ensures
            final(dest)@.len() == old(dest)@.len(),
    {
        let n = dest.len();
        let mut i: usize = 0;
        while i < n
            invariant
                i <= n,
                dest@.len() == n,
            decreases n - i,
        {
            let b = random_u64();
            dest[i] = b as u8;
            i += 1;
        }
    }
}

/// A handle to the process randomness.
pub fn small_thread_rng() -> SmallThreadRng {
    SmallThreadRng
}

/// The process-wide monotonic counter that orders page accesses for the
/// least-recently-used policy. Ticks saturate at the largest value.
pub struct LruCounter {
    next: u64,
}

impl LruCounter {
    /// The next value the counter will hand out.
    pub closed spec fn spec_next(&self) -> u64 {
        self.next
    }

    /// A fresh counter.
    pub fn new() -> (r: LruCounter)
        ensures
            r.spec_next() == INITIAL_COUNTER,
    {
        LruCounter { next: INITIAL_COUNTER }
    }

    /// Hand out the current value and advance, saturating at the largest
    /// representable tick.
    pub fn tick(&mut self) -> (r: u64)
        ensures
            r == old(self).spec_next(),
            final(self).spec_next() == if old(self).spec_next() < u64::MAX {
                (old(self).spec_next() + 1) as u64
            } else {
                old(self).spec_next()
            },
            final(self).spec_next() >= old(self).spec_next(),
    {
        let r = self.next;
        if self.next < u64::MAX {
            self.next = self.next + 1;
        }
        r
    }
}

/// Scores one buffer frame for eviction. The lower the score, the more
/// likely the frame is to be evicted.
pub trait EvictionPolicy: Sized {
    /// The frame's current eviction score.
    spec fn ep_score(&self) -> u64;

    /// The score of a frame that was never touched.
    spec fn initial_score() -> u64;

    /// A fresh per-frame policy state.
    fn new() -> (r: Self)
        ensures
            r.ep_score() == Self::initial_score(),
    ;

    /// The frame's current eviction score.
    fn score(&self) -> (r: u64)
        ensures
            r == self.ep_score(),
    ;

    /// Record one access to the frame. The score never moves backwards, and
    /// when it moves it takes the tick the counter handed out.
    fn update(&mut self, counter: &mut LruCounter)
        ensures
            final(counter).spec_next() >= old(counter).spec_next(),
            final(self).ep_score() == old(self).ep_score() || final(self).ep_score() == if old(
                self,
            ).ep_score() >= old(counter).spec_next() {
                old(self).ep_score()
            } else {
                old(counter).spec_next()
            },
    ;

    /// Forget every recorded access.
    fn reset(&mut self)
        ensures
            final(self).ep_score() == Self::initial_score(),
    ;
}

/// Constant scoring for pools that never evict.
pub struct DummyEvictionPolicy;

impl EvictionPolicy for DummyEvictionPolicy {
    open spec fn ep_score(&self) -> u64 {
        0
    }

    open spec fn initial_score() -> u64 {
        0
    }

    #[inline]
    fn new() -> (r: Self) {
        DummyEvictionPolicy
    }

    #[inline]
    fn score(&self) -> (r: u64) {
        0
    }

    #[inline]
    fn update(&mut self, counter: &mut LruCounter) {
    }

    #[inline]
    fn reset(&mut self) {
    }
}

/// Approximate least-recently-used scoring: on a sampled fraction of
/// accesses the frame's score is advanced to the counter's current tick.
/// The sampling keeps contention on the shared counter low, so the order is
/// approximate, not strict.
pub struct LRUEvictionPolicy {
    /// The tick of the last recorded access.
    pub score: u64,
}

impl LRUEvictionPolicy {
    /// Advance the score to tick `t`, never moving it backwards.
    pub fn touch(&mut self, t: u64)
        ensures
            final(self).score == if old(self).score >= t {
                old(self).score
            } else {
                t
            },
    {
        if self.score < t {
            self.score = t;
        }
    }
}

impl EvictionPolicy for LRUEvictionPolicy {
    open spec fn ep_score(&self) -> u64 {
        self.score
    }

    open spec fn initial_score() -> u64 {
        INITIAL_COUNTER
    }

    fn new() -> (r: Self) {
        LRUEvictionPolicy { score: INITIAL_COUNTER }
    }

    fn score(&self) -> (r: u64) {
        self.score
    }

    fn update(&mut self, counter: &mut LruCounter) {
        let mut rng = small_thread_rng();
        // Only update the score on one access in ten: the counter is a
        // shared resource.
        if rng.next_u64() % 10 == 0 {
            let t = counter.tick();
            self.touch(t);
        }
    }

    fn reset(&mut self) {
        self.score = INITIAL_COUNTER;
    }
}

/// Victim selection: among the unlatched frames, the one with the lowest
/// score, ties broken by the lowest frame index. `None` iff every frame is
/// latched.
#[verifier::loop_isolation(false)]
pub fn choose_victim(scores: &Vec<u64>, latched: &Vec<bool>) -> (r: Option<usize>)
    requires
        scores@.len() == latched@.len(),
    ensures
        match r {
            Some(i) => {
                &&& i < scores@.len()
                &&& !latched@[i as int]
                &&& forall|j: int|
                    0 <= j < scores@.len() && !latched@[j] ==> scores@[i as int] <= scores@[j]
                &&& forall|j: int| 0 <= j < i && !latched@[j] ==> scores@[j] > scores@[i as int]
            },
            None => forall|j: int| 0 <= j < scores@.len() ==> latched@[j],
        },
{
    let n = scores.len();
    let mut best: usize = 0;
    let mut have_best = false;
    let mut i: usize = 0;
    while i < n
        invariant
            i <= n,
            have_best ==> {
                &&& best < i
                &&& !latched@[best as int]
                &&& forall|j: int|
                    0 <= j < i && !latched@[j] ==> scores@[best as int] <= scores@[j]
                &&& forall|j: int|
                    0 <= j < best && !latched@[j] ==> scores@[j] > scores@[best as int]
            },
            !have_best ==> forall|j: int| 0 <= j < i ==> latched@[j],
        decreases n - i,
    {
        if !latched[i] {
            if !have_best {
                best = i;
                have_best = true;
            } else if scores[i] < scores[best] {
                best = i;
            }
        }
        i += 1;
    }
    if have_best {
        Some(best)
    } else {
        None
    }
}

} // verus!
