//! A simple in-memory page pool: every page of every container is resident
//! in a frame, frames are never evicted, and nothing is backed by disk.
//!
//! The pool owns a vector of frames, a page table mapping each
//! `(ContainerId, PageId)` key to its frame index, and a per-container
//! page counter. A page id, once allocated, stays allocated: the counter
//! grows monotonically, and the pool holds a frame for exactly the keys
//! below each container's counter.

use crate::error::MemPoolStatus;
use crate::heap_page::Page;
use crate::ids::ContainerId;
use crate::ids::PageId;
use vstd::prelude::*;

verus! {

use crate::alist::{
    alookup, keys_distinct, lemma_alookup_index, lemma_alookup_index_found, lemma_alookup_not_found,
    lemma_alookup_push, lemma_alookup_remove, lemma_alookup_update, lemma_alookup_witness,
};

/// Snapshot of the pool's counters. An in-memory pool performs no disk
/// traffic, so its disk counters are always zero.
pub struct MemoryStats {
    /// Frames currently held in memory.
    pub bp_num_frames_in_mem: usize,
    /// Pages created in frames.
    pub bp_new_page: usize,
    /// Frames handed out for read.
    pub bp_read_frame: usize,
    /// Read requests that had to wait.
    pub bp_read_frame_wait: usize,
    /// Frames handed out for write.
    pub bp_write_frame: usize,
    /// Resident frame count per container.
    pub bp_num_frames_per_container: Vec<(ContainerId, usize)>,
    /// Pages created on disk.
    pub disk_created: usize,
    /// Pages read from disk.
    pub disk_read: usize,
    /// Pages written to disk.
    pub disk_write: usize,
}

/// The in-memory page pool.
pub struct InMemPool {
    frames: Vec<Page>,
    page_to_frame: Vec<((ContainerId, PageId), usize)>,
    container_page_count: Vec<(ContainerId, PageId)>,
}

impl InMemPool {
    /// The per-container page counter: the number of pages ever allocated,
    /// which is also the next page id.
    pub closed spec fn spec_count(&self, c_id: ContainerId) -> Option<PageId> {
        alookup(self.container_page_count@, c_id)
    }

    /// Whether the container is known to the pool.
    pub open spec fn has_container(&self, c_id: ContainerId) -> bool {
        self.spec_count(c_id) is Some
    }

    /// The number of pages allocated in the container; 0 when unknown.
    pub open spec fn npages(&self, c_id: ContainerId) -> int {
        match self.spec_count(c_id) {
            Some(n) => n as int,
            None => 0,
        }
    }

    /// The frame index holding the page, if the page is resident.
    pub closed spec fn frame_of(&self, c_id: ContainerId, page_id: PageId) -> Option<usize> {
        alookup(self.page_to_frame@, (c_id, page_id))
    }

    /// The resident page under a key.
    pub closed spec fn page_at(&self, c_id: ContainerId, page_id: PageId) -> Page {
        self.frames@[self.frame_of(c_id, page_id).unwrap() as int]
    }

    /// The number of frames the pool holds.
    pub closed spec fn num_frames(&self) -> int {
        self.frames@.len() as int
    }

    /// Pool invariant: the page table binds each key at most once, its
    /// frame indices are in range and pairwise distinct, a key is bound
    /// exactly when its page id is below the container's counter, and every
    /// resident page is well formed and carries its key's page id in its
    /// header.
    pub closed spec fn wf(&self) -> bool {
        &&& keys_distinct(self.page_to_frame@)
        &&& keys_distinct(self.container_page_count@)
        &&& forall|i: int|
            0 <= i < self.page_to_frame@.len() ==> (#[trigger] self.page_to_frame@[i]).1
                < self.frames@.len()
        &&& forall|i: int, j: int|
            0 <= i < j < self.page_to_frame@.len() ==> (#[trigger] self.page_to_frame@[i]).1 != (
            #[trigger] self.page_to_frame@[j]).1
        &&& forall|c_id: ContainerId, page_id: PageId|
            #[trigger] alookup(self.page_to_frame@, (c_id, page_id)) is Some <==> page_id
                < self.npages(c_id)
        &&& forall|i: int|
            0 <= i < self.page_to_frame@.len() ==> {
                let e = #[trigger] self.page_to_frame@[i];
                &&& self.frames@[e.1 as int].spec_page_id() == e.0.1
                &&& self.frames@[e.1 as int].wf()
            }
    }

    /// Every resident page is well formed and carries its own page id.
    pub proof fn lemma_page_at_wf(&self, c_id: ContainerId, page_id: PageId)
        requires
            self.wf(),
            page_id < self.npages(c_id),
        ensures
            self.page_at(c_id, page_id).wf(),
            self.page_at(c_id, page_id).spec_page_id() == page_id,
    {
        assert(alookup(self.page_to_frame@, (c_id, page_id)) is Some);
        lemma_alookup_witness(self.page_to_frame@, (c_id, page_id));
    }

    /// An empty pool: no frames, no containers.
    pub fn new() -> (r: InMemPool)
        ensures
            r.wf(),
            r.num_frames() == 0,
            forall|c_id: ContainerId| !(#[trigger] r.has_container(c_id)),
    {
        let r = InMemPool {
            frames: Vec::new(),
            page_to_frame: Vec::new(),
            container_page_count: Vec::new(),
        };
        proof {
            assert forall|c_id: ContainerId, page_id: PageId| !(#[trigger] alookup(
                r.page_to_frame@,
                (c_id, page_id),
            ) is Some) by {}
        }
        r
    }

    /// Register a container, initializing its page counter to zero. Known
    /// containers are left as they are.
    pub fn create_container(&mut self, c_id: ContainerId, _is_temp: bool) -> (r: Result<
        (),
        MemPoolStatus,
    >)
        requires
            old(self).wf(),
        ensures
            final(self).wf(),
            r is Ok,
            final(self).has_container(c_id),
            final(self).npages(c_id) == old(self).npages(c_id),
            forall|c2: ContainerId|
                #[trigger] final(self).spec_count(c2) == if c2 == c_id && !old(self).has_container(
                    c_id,
                ) {
                    Some(0 as PageId)
                } else {
                    old(self).spec_count(c2)
                },
            forall|c2: ContainerId, p2: PageId|
                #[trigger] final(self).frame_of(c2, p2) == old(self).frame_of(c2, p2),
            final(self).num_frames() == old(self).num_frames(),
            forall|c2: ContainerId, p2: PageId|
                p2 < old(self).npages(c2) ==> #[trigger] final(self).page_at(c2, p2) == old(
                    self,
                ).page_at(c2, p2),
    {
        let idx = self.find_count_index(c_id);
        match idx {
            Some(_) => {},
            None => {
                proof {
                    lemma_alookup_push(self.container_page_count@, c_id, 0 as PageId, c_id);
                }
                let ghost cpc0 = self.container_page_count@;
                self.container_page_count.push((c_id, 0));
                proof {
                    assert forall|c2: ContainerId| #[trigger] alookup(
                        self.container_page_count@,
                        c2,
                    ) == if c2 == c_id {
                        Some(0 as PageId)
                    } else {
                        alookup(cpc0, c2)
                    } by {
                        lemma_alookup_push(cpc0, c_id, 0 as PageId, c2);
                        if c2 != c_id && alookup(cpc0, c2) is Some {
                        }
                    }
                    assert forall|i: int, j: int|
                        0 <= i < j < self.container_page_count@.len() implies (
                    #[trigger] self.container_page_count@[i]).0 != (
                    #[trigger] self.container_page_count@[j]).0 by {
                        if j == cpc0.len() as int {
                            assert(self.container_page_count@[j] == (c_id, 0 as PageId));
                            assert(self.container_page_count@[i] == cpc0[i]);
                            if cpc0[i].0 == c_id {
                                lemma_alookup_index_found(cpc0, c_id, i);
                            }
                        } else {
                            assert(self.container_page_count@[i] == cpc0[i]);
                            assert(self.container_page_count@[j] == cpc0[j]);
                        }
                    }
                }
            },
        }
        Ok(())
    }

    /// The index of the container's entry in the page-counter list.
    fn find_count_index(&self, c_id: ContainerId) -> (r: Option<usize>)
        ensures
            match r {
                Some(i) => i < self.container_page_count@.len()
                    && self.container_page_count@[i as int].0 == c_id && alookup(
                    self.container_page_count@,
                    c_id,
                ) == Some(self.container_page_count@[i as int].1),
                None => alookup(self.container_page_count@, c_id) is None,
            },
    {
        let n = self.container_page_count.len();
        let mut i: usize = 0;
        while i < n
            invariant
                i <= n,
                n == self.container_page_count@.len(),
                forall|j: int| 0 <= j < i ==> (#[trigger] self.container_page_count@[j]).0 != c_id,
            decreases n - i,
        {
            if self.container_page_count[i].0 == c_id {
                proof {
                    lemma_alookup_index(self.container_page_count@, c_id, i as int);
                }
                return Some(i);
            }
            i += 1;
        }
        proof {
            lemma_alookup_not_found(self.container_page_count@, c_id);
        }
        None
    }

    /// The frame index bound to a key in the page table.
    fn find_frame(&self, c_id: ContainerId, page_id: PageId) -> (r: Option<usize>)
        ensures
            r == alookup(self.page_to_frame@, (c_id, page_id)),
            r == self.frame_of(c_id, page_id),
    {
        let n = self.page_to_frame.len();
        let mut i: usize = 0;
        while i < n
            invariant
                i <= n,
                n == self.page_to_frame@.len(),
                forall|j: int|
                    0 <= j < i ==> (#[trigger] self.page_to_frame@[j]).0 != (c_id, page_id),
            decreases n - i,
        {
            let e = &self.page_to_frame[i];
            if e.0.0 == c_id && e.0.1 == page_id {
                proof {
                    lemma_alookup_index(self.page_to_frame@, (c_id, page_id), i as int);
                }
                return Some(e.1);
            }
            i += 1;
        }
        proof {
            lemma_alookup_not_found(self.page_to_frame@, (c_id, page_id));
        }
        None
    }

    /// Whether the page is resident in some frame. In an in-memory pool a
    /// page is resident exactly when it is allocated.
    pub fn is_in_mem(&self, c_id: ContainerId, page_id: PageId) -> (r: bool)
        requires
            self.wf(),
        ensures
            r == (page_id < self.npages(c_id)),
    {
        self.find_frame(c_id, page_id).is_some()
    }

    /// The container's page counter: the number of allocated pages, which
    /// is the highest allocated page id plus one. `None` for a container
    /// the pool has never seen.
    pub fn get_max_page_id(&self, c_id: ContainerId) -> (r: Option<PageId>)
        ensures
            r == self.spec_count(c_id),
    {
        match self.find_count_index(c_id) {
            Some(i) => Some(self.container_page_count[i].1),
            None => None,
        }
    }

    /// Allocate the container's next page id, place a fresh, empty heap
    /// page for it in a new frame, and return the page id. Every page id
    /// below the returned one stays allocated and untouched.
    pub fn create_new_page_for_write(&mut self, c_id: ContainerId) -> (r: Result<
        PageId,
        MemPoolStatus,
    >)
        requires
            old(self).wf(),
            old(self).npages(c_id) < PageId::MAX,
        ensures
            final(self).wf(),
            r == Ok::<PageId, MemPoolStatus>((old(self).npages(c_id)) as PageId),
            final(self).has_container(c_id),
            final(self).npages(c_id) == old(self).npages(c_id) + 1,
            forall|c2: ContainerId|
                c2 != c_id ==> #[trigger] final(self).spec_count(c2) == old(self).spec_count(c2),
            final(self).page_at(c_id, (old(self).npages(c_id)) as PageId).slots_view() == Seq::<
                Option<Seq<u8>>,
            >::empty(),
            final(self).page_at(c_id, (old(self).npages(c_id)) as PageId).wf(),
            final(self).page_at(c_id, (old(self).npages(c_id)) as PageId).spec_page_id() == old(
                self,
            ).npages(c_id),
            forall|c2: ContainerId, p2: PageId|
                p2 < old(self).npages(c2) ==> #[trigger] final(self).page_at(c2, p2) == old(
                    self,
                ).page_at(c2, p2),
            final(self).num_frames() == old(self).num_frames() + 1,
    {
        let ghost cpc0 = self.container_page_count@;
        let page_id: PageId;
        match self.find_count_index(c_id) {
            Some(ci) => {
                let cnt = self.container_page_count[ci].1;
                page_id = cnt;
                let e = &mut self.container_page_count[ci];
                *e = (c_id, cnt + 1);
                proof {
                    assert(self.container_page_count@ == cpc0.update(
                        ci as int,
                        (c_id, (cnt + 1) as PageId),
                    ));
                    assert forall|c2: ContainerId| #[trigger] alookup(
                        self.container_page_count@,
                        c2,
                    ) == (if c2 == c_id {
                        Some((cnt + 1) as PageId)
                    } else {
                        alookup(cpc0, c2)
                    }) by {
                        lemma_alookup_update(cpc0, ci as int, c_id, (cnt + 1) as PageId, c2);
                    }
                    assert forall|i: int, j: int|
                        0 <= i < j < self.container_page_count@.len() implies (
                    #[trigger] self.container_page_count@[i]).0 != (
                    #[trigger] self.container_page_count@[j]).0 by {
                        assert(self.container_page_count@[i].0 == cpc0[i].0);
                        assert(self.container_page_count@[j].0 == cpc0[j].0);
                    }
                }
            },
            None => {
                page_id = 0;
                self.container_page_count.push((c_id, 1));
                proof {
                    assert forall|c2: ContainerId| #[trigger] alookup(
                        self.container_page_count@,
                        c2,
                    ) == (if c2 == c_id {
                        Some(1 as PageId)
                    } else {
                        alookup(cpc0, c2)
                    }) by {
                        lemma_alookup_push(cpc0, c_id, 1 as PageId, c2);
                    }
                    assert forall|i: int, j: int|
                        0 <= i < j < self.container_page_count@.len() implies (
                    #[trigger] self.container_page_count@[i]).0 != (
                    #[trigger] self.container_page_count@[j]).0 by {
                        if j == cpc0.len() as int {
                            assert(self.container_page_count@[i] == cpc0[i]);
                            if cpc0[i].0 == c_id {
                                lemma_alookup_index_found(cpc0, c_id, i);
                            }
                        } else {
                            assert(self.container_page_count@[i] == cpc0[i]);
                            assert(self.container_page_count@[j] == cpc0[j]);
                        }
                    }
                }
            },
        }
        let ghost ptf0 = self.page_to_frame@;
        let ghost frames0 = self.frames@;
        let pg = Page::new(page_id);
        let fi = self.frames.len();
        self.frames.push(pg);
        self.page_to_frame.push(((c_id, page_id), fi));
        proof {
            assert(alookup(ptf0, (c_id, page_id)) is None) by {
                assert(!(page_id < old(self).npages(c_id)));
            }
            assert forall|c2: ContainerId, p2: PageId| #[trigger] alookup(
                self.page_to_frame@,
                (c2, p2),
            ) == (if (c2, p2) == (c_id, page_id) {
                Some(fi)
            } else {
                alookup(ptf0, (c2, p2))
            }) by {
                lemma_alookup_push(ptf0, (c_id, page_id), fi, (c2, p2));
                if (c2, p2) == (c_id, page_id) {
                    assert(alookup(ptf0, (c2, p2)) is None);
                }
            }
            // distinct keys: the new key was absent
            assert forall|i: int, j: int|
                0 <= i < j < self.page_to_frame@.len() implies (#[trigger] self.page_to_frame@[i]).0
                != (#[trigger] self.page_to_frame@[j]).0 by {
                if j == ptf0.len() as int {
                    assert(self.page_to_frame@[i] == ptf0[i]);
                    assert(self.page_to_frame@[j] == ((c_id, page_id), fi));
                    if ptf0[i].0 == (c_id, page_id) {
                        lemma_alookup_index_found(ptf0, (c_id, page_id), i);
                    }
                } else {
                    assert(self.page_to_frame@[i] == ptf0[i]);
                    assert(self.page_to_frame@[j] == ptf0[j]);
                }
            }
            // distinct frame indices: the new frame is beyond every old one
            assert forall|i: int, j: int|
                0 <= i < j < self.page_to_frame@.len() implies (#[trigger] self.page_to_frame@[i]).1
                != (#[trigger] self.page_to_frame@[j]).1 by {
                if j == ptf0.len() as int {
                    assert(self.page_to_frame@[i] == ptf0[i]);
                    assert(ptf0[i].1 < frames0.len());
                } else {
                    assert(self.page_to_frame@[i] == ptf0[i]);
                    assert(self.page_to_frame@[j] == ptf0[j]);
                }
            }
            // every entry's frame holds a well-formed page with its key's id
            assert forall|i: int| 0 <= i < self.page_to_frame@.len() implies {
                let e = #[trigger] self.page_to_frame@[i];
                &&& e.1 < self.frames@.len()
                &&& self.frames@[e.1 as int].spec_page_id() == e.0.1
                &&& self.frames@[e.1 as int].wf()
            } by {
                if i < ptf0.len() as int {
                    assert(self.page_to_frame@[i] == ptf0[i]);
                    assert(ptf0[i].1 < frames0.len());
                    assert(self.frames@[ptf0[i].1 as int] == frames0[ptf0[i].1 as int]);
                } else {
                    assert(self.page_to_frame@[i] == ((c_id, page_id), fi));
                }
            }
            // pages already resident are untouched
            assert forall|c2: ContainerId, p2: PageId|
                p2 < old(self).npages(c2) implies #[trigger] final(self).page_at(c2, p2) == old(
                self,
            ).page_at(c2, p2) by {
                assert(alookup(ptf0, (c2, p2)) is Some);
                lemma_alookup_witness(ptf0, (c2, p2));
            }
        }
        Ok(page_id)
    }

    /// A shared view of a resident page. Fails with `PageNotFound` exactly
    /// when the page was never allocated.
    pub fn get_page_for_read(&self, c_id: ContainerId, page_id: PageId) -> (r: Result<
        &Page,
        MemPoolStatus,
    >)
        requires
            self.wf(),
        ensures
            match r {
                Ok(p) => page_id < self.npages(c_id) && *p == self.page_at(c_id, page_id),
                Err(e) => e == MemPoolStatus::PageNotFound && page_id >= self.npages(c_id),
            },
    {
        match self.find_frame(c_id, page_id) {
            Some(fi) => {
                proof {
                    lemma_alookup_witness(self.page_to_frame@, (c_id, page_id));
                }
                Ok(&self.frames[fi])
            },
            None => Err(MemPoolStatus::PageNotFound),
        }
    }

    /// Exclusive access to a resident page, for the caller to read and
    /// modify in place. The pool stays well formed as long as the caller
    /// leaves the page well formed and keeps its page id; no other page,
    /// and no counter, changes.
    pub fn get_page_for_write(&mut self, c_id: ContainerId, page_id: PageId) -> (r: &mut Page)
        requires
            old(self).wf(),
            page_id < old(self).npages(c_id),
        ensures
            *r == old(self).page_at(c_id, page_id),
            final(self).page_at(c_id, page_id) == *final(r),
            final(self).num_frames() == old(self).num_frames(),
            forall|c2: ContainerId|
                #[trigger] final(self).spec_count(c2) == old(self).spec_count(c2),
            forall|c2: ContainerId, p2: PageId|
                #[trigger] final(self).frame_of(c2, p2) == old(self).frame_of(c2, p2),
            forall|c2: ContainerId, p2: PageId|
                p2 < old(self).npages(c2) && !(c2 == c_id && p2 == page_id)
                    ==> #[trigger] final(self).page_at(c2, p2) == old(self).page_at(c2, p2),
            (final(r).wf() && final(r).spec_page_id() == page_id) ==> final(self).wf(),
    {
        let ghost ptf0 = self.page_to_frame@;
        let ghost frames0 = self.frames@;
        let fi_opt = self.find_frame(c_id, page_id);
        proof {
            lemma_alookup_witness(ptf0, (c_id, page_id));
        }
        let fi = fi_opt.unwrap();
        proof {
            let i0 = choose|i: int|
                0 <= i < ptf0.len() && (#[trigger] ptf0[i]).0 == (c_id, page_id) && ptf0[i].1
                    == fi;
            // the chosen entry is the only one holding frame `fi`
            assert forall|i: int|
                0 <= i < ptf0.len() && (#[trigger] ptf0[i]).1 == fi implies ptf0[i].0 == (
                c_id,
                page_id,
            ) by {
                if i != i0 {
                    if i < i0 {
                        assert(ptf0[i].1 != ptf0[i0].1);
                    } else {
                        assert(ptf0[i0].1 != ptf0[i].1);
                    }
                }
            }
            // every other resident page lives in a different frame
            assert forall|c2: ContainerId, p2: PageId|
                p2 < old(self).npages(c2) && !(c2 == c_id && p2 == page_id) implies #[trigger] alookup(
                ptf0,
                (c2, p2),
            ) is Some && alookup(ptf0, (c2, p2)).unwrap() != fi && alookup(
                ptf0,
                (c2, p2),
            ).unwrap() < frames0.len() by {
                lemma_alookup_witness(ptf0, (c2, p2));
                let j = choose|j: int|
                    0 <= j < ptf0.len() && (#[trigger] ptf0[j]).0 == (c2, p2) && ptf0[j].1
                        == alookup(ptf0, (c2, p2)).unwrap();
                assert(j != i0);
                if j < i0 {
                    assert(ptf0[j].1 != ptf0[i0].1);
                } else {
                    assert(ptf0[i0].1 != ptf0[j].1);
                }
            }
        }
        &mut self.frames[fi]
    }

    /// Allocate `num_pages` fresh pages with contiguous page ids, returning
    /// the ids in allocation order.
    #[verifier::loop_isolation(false)]
    pub fn create_new_pages_for_write(&mut self, c_id: ContainerId, num_pages: usize) -> (r:
        Result<Vec<PageId>, MemPoolStatus>)
        requires
            old(self).wf(),
            old(self).npages(c_id) + num_pages <= PageId::MAX,
        ensures
            final(self).wf(),
            r is Ok,
            r.unwrap()@.len() == num_pages,
            forall|i: int|
                0 <= i < num_pages ==> #[trigger] r.unwrap()@[i] == old(self).npages(c_id) + i,
            final(self).npages(c_id) == old(self).npages(c_id) + num_pages,
            num_pages > 0 ==> final(self).has_container(c_id),
            forall|c2: ContainerId|
                c2 != c_id ==> #[trigger] final(self).spec_count(c2) == old(self).spec_count(c2),
            forall|i: int|
                0 <= i < num_pages ==> #[trigger] final(self).page_at(
                    c_id,
                    ((old(self).npages(c_id) + i) as PageId),
                ).slots_view() == Seq::<Option<Seq<u8>>>::empty() && final(self).page_at(
                    c_id,
                    ((old(self).npages(c_id) + i) as PageId),
                ).spec_page_id() == old(self).npages(c_id) + i,
            forall|c2: ContainerId, p2: PageId|
                p2 < old(self).npages(c2) ==> #[trigger] final(self).page_at(c2, p2) == old(
                    self,
                ).page_at(c2, p2),
    {
        let mut ids: Vec<PageId> = Vec::new();
        let mut k: usize = 0;
        while k < num_pages
            invariant
                k <= num_pages,
                self.wf(),
                ids@.len() == k,
                self.npages(c_id) == old(self).npages(c_id) + k,
                k > 0 ==> self.has_container(c_id),
                forall|i: int| 0 <= i < k ==> #[trigger] ids@[i] == old(self).npages(c_id) + i,
                forall|c2: ContainerId|
                    c2 != c_id ==> #[trigger] self.spec_count(c2) == old(self).spec_count(c2),
                forall|i: int|
                    0 <= i < k ==> #[trigger] self.page_at(
                        c_id,
                        ((old(self).npages(c_id) + i) as PageId),
                    ).slots_view() == Seq::<Option<Seq<u8>>>::empty() && self.page_at(
                        c_id,
                        ((old(self).npages(c_id) + i) as PageId),
                    ).spec_page_id() == old(self).npages(c_id) + i,
                forall|c2: ContainerId, p2: PageId|
                    p2 < old(self).npages(c2) ==> #[trigger] self.page_at(c2, p2) == old(
                        self,
                    ).page_at(c2, p2),
            decreases num_pages - k,
        {
            let ghost before = *self;
            let pid = match self.create_new_page_for_write(c_id) {
                Ok(p) => p,
                Err(e) => {
                    return Err(e);
                },
            };
            ids.push(pid);
            k += 1;
            proof {
                let base = old(self).npages(c_id);
                assert(pid == base + k - 1);
                assert forall|i: int|
                    0 <= i < k implies #[trigger] self.page_at(
                    c_id,
                    ((base + i) as PageId),
                ).slots_view() == Seq::<Option<Seq<u8>>>::empty() && self.page_at(
                    c_id,
                    ((base + i) as PageId),
                ).spec_page_id() == base + i by {
                    if i < k - 1 {
                        assert(((base + i) as PageId) < before.npages(c_id));
                        assert(self.page_at(c_id, ((base + i) as PageId)) == before.page_at(
                            c_id,
                            ((base + i) as PageId),
                        ));
                    } else {
                        assert(((base + i) as PageId) == pid);
                    }
                }
            }
        }
        Ok(ids)
    }

    /// The page ids of the container's resident pages, each with no
    /// duplicate: in an in-memory pool, exactly the allocated page ids.
    #[verifier::loop_isolation(false)]
    pub fn get_page_ids_in_mem(&self, c_id: ContainerId) -> (r: Vec<PageId>)
        requires
            self.wf(),
        ensures
            forall|p: PageId| r@.contains(p) <==> p < self.npages(c_id),
            r@.no_duplicates(),
    {
        let ghost ptf0 = self.page_to_frame@;
        let n = self.page_to_frame.len();
        let mut r: Vec<PageId> = Vec::new();
        let mut i: usize = 0;
        while i < n
            invariant
                i <= n,
                forall|p: PageId|
                    r@.contains(p) <==> exists|j: int|
                        0 <= j < i && (#[trigger] ptf0[j]).0 == (c_id, p),
                r@.no_duplicates(),
            decreases n - i,
        {
            let e = &self.page_to_frame[i];
            if e.0.0 == c_id {
                proof {
                    // a second entry with this page id would repeat the key
                    if r@.contains(e.0.1) {
                        let j = choose|j: int| 0 <= j < i && (#[trigger] ptf0[j]).0 == (c_id, e.0.1);
                        assert(ptf0[j].0 != ptf0[i as int].0);
                        assert(false);
                    }
                }
                let ghost r0 = r@;
                r.push(e.0.1);
                proof {
                    assert forall|p: PageId| r@.contains(p) <==> exists|j: int|
                        0 <= j < i + 1 && (#[trigger] ptf0[j]).0 == (c_id, p) by {
                        if r@.contains(p) {
                            let w = choose|w: int| 0 <= w < r@.len() && r@[w] == p;
                            if w < r0.len() {
                                assert(r0[w] == p);
                                assert(r0.contains(p));
                            } else {
                                assert(p == e.0.1);
                                assert(ptf0[i as int].0 == (c_id, p));
                            }
                        }
                        if exists|j: int| 0 <= j < i + 1 && (#[trigger] ptf0[j]).0 == (c_id, p) {
                            let j = choose|j: int|
                                0 <= j < i + 1 && (#[trigger] ptf0[j]).0 == (c_id, p);
                            if j < i {
                                assert(r0.contains(p));
                                let w = choose|w: int| 0 <= w < r0.len() && r0[w] == p;
                                assert(r@[w] == p);
                                assert(r@.contains(p));
                            } else {
                                assert(r@[r@.len() - 1] == p);
                                assert(r@.contains(p));
                            }
                        }
                    }
                    // the pushed id is new, so there is still no duplicate
                    assert forall|w1: int, w2: int|
                        0 <= w1 < w2 < r@.len() implies r@[w1] != r@[w2] by {
                        if w2 < r0.len() {
                            assert(r@[w1] == r0[w1] && r@[w2] == r0[w2]);
                        } else {
                            assert(r@[w1] == r0[w1]);
                            assert(r0.contains(r0[w1]));
                            assert(r@[w2] == e.0.1);
                        }
                    }
                }
            }
            i += 1;
        }
        proof {
            assert forall|p: PageId| r@.contains(p) <==> p < self.npages(c_id) by {
                if r@.contains(p) {
                    let j = choose|j: int| 0 <= j < n && (#[trigger] ptf0[j]).0 == (c_id, p);
                    lemma_alookup_index_found(ptf0, (c_id, p), j);
                }
                if p < self.npages(c_id) {
                    lemma_alookup_witness(ptf0, (c_id, p));
                }
            }
        }
        r
    }

    /// Forget a container: drop its page counter and remove its pages from
    /// the page table. Other containers are untouched.
    #[verifier::loop_isolation(false)]
    pub fn drop_container(&mut self, c_id: ContainerId) -> (r: Result<(), MemPoolStatus>)
        requires
            old(self).wf(),
        ensures
            final(self).wf(),
            r is Ok,
            !final(self).has_container(c_id),
            forall|c2: ContainerId|
                c2 != c_id ==> #[trigger] final(self).spec_count(c2) == old(self).spec_count(c2),
            forall|c2: ContainerId, p2: PageId|
                c2 != c_id && p2 < old(self).npages(c2) ==> #[trigger] final(self).page_at(c2, p2)
                    == old(self).page_at(c2, p2),
    {
        // drop the page counter
        let ghost cpc0 = self.container_page_count@;
        match self.find_count_index(c_id) {
            Some(ci) => {
                let _ = self.container_page_count.remove(ci);
                proof {
                    assert forall|c2: ContainerId| #[trigger] alookup(
                        self.container_page_count@,
                        c2,
                    ) == (if c2 == c_id {
                        None::<PageId>
                    } else {
                        alookup(cpc0, c2)
                    }) by {
                        lemma_alookup_remove(cpc0, ci as int, c2);
                    }
                    assert forall|i: int, j: int|
                        0 <= i < j < self.container_page_count@.len() implies (
                    #[trigger] self.container_page_count@[i]).0 != (
                    #[trigger] self.container_page_count@[j]).0 by {
                        let io = if i < ci as int {
                            i
                        } else {
                            i + 1
                        };
                        let jo = if j < ci as int {
                            j
                        } else {
                            j + 1
                        };
                        assert(self.container_page_count@[i] == cpc0[io]);
                        assert(self.container_page_count@[j] == cpc0[jo]);
                    }
                }
            },
            None => {},
        }
        // remove the container's pages from the page table
        let ghost cpc1 = self.container_page_count@;
        let mut i: usize = 0;
        while i < self.page_to_frame.len()
            invariant
                self.container_page_count@ == cpc1,
                keys_distinct(self.page_to_frame@),
                i <= self.page_to_frame@.len(),
                forall|k: int| 0 <= k < i ==> (#[trigger] self.page_to_frame@[k]).0.0 != c_id,
                forall|k: int|
                    0 <= k < self.page_to_frame@.len() ==> (#[trigger] self.page_to_frame@[k]).1
                        < self.frames@.len(),
                forall|k: int, j: int|
                    0 <= k < j < self.page_to_frame@.len() ==> (#[trigger] self.page_to_frame@[k]).1
                        != (#[trigger] self.page_to_frame@[j]).1,
                forall|k: int|
                    0 <= k < self.page_to_frame@.len() ==> {
                        let e = #[trigger] self.page_to_frame@[k];
                        &&& self.frames@[e.1 as int].spec_page_id() == e.0.1
                        &&& self.frames@[e.1 as int].wf()
                    },
                forall|c2: ContainerId, p2: PageId|
                    c2 != c_id ==> #[trigger] alookup(self.page_to_frame@, (c2, p2)) == alookup(
                        old(self).page_to_frame@,
                        (c2, p2),
                    ),
                self.frames@ == old(self).frames@,
            decreases self.page_to_frame@.len() - i,
        {
            let ghost ptf_cur = self.page_to_frame@;
            let e0 = self.page_to_frame[i].0.0;
            if e0 == c_id {
                let _ = self.page_to_frame.remove(i);
                proof {
                    assert forall|c2: ContainerId, p2: PageId| #[trigger] alookup(
                        self.page_to_frame@,
                        (c2, p2),
                    ) == (if (c2, p2) == ptf_cur[i as int].0 {
                        None::<usize>
                    } else {
                        alookup(ptf_cur, (c2, p2))
                    }) by {
                        lemma_alookup_remove(ptf_cur, i as int, (c2, p2));
                    }
                    assert forall|k: int, j: int|
                        0 <= k < j < self.page_to_frame@.len() implies (
                    #[trigger] self.page_to_frame@[k]).0 != (#[trigger] self.page_to_frame@[j]).0
                        && (#[trigger] self.page_to_frame@[k]).1 != (
                    #[trigger] self.page_to_frame@[j]).1 by {
                        let ko = if k < i as int {
                            k
                        } else {
                            k + 1
                        };
                        let jo = if j < i as int {
                            j
                        } else {
                            j + 1
                        };
                        assert(self.page_to_frame@[k] == ptf_cur[ko]);
                        assert(self.page_to_frame@[j] == ptf_cur[jo]);
                    }
                    assert forall|k: int|
                        0 <= k < self.page_to_frame@.len() implies ((
                    #[trigger] self.page_to_frame@[k]).1 < self.frames@.len() && {
                        let e = self.page_to_frame@[k];
                        &&& self.frames@[e.1 as int].spec_page_id() == e.0.1
                        &&& self.frames@[e.1 as int].wf()
                    } && (k < i ==> self.page_to_frame@[k].0.0 != c_id)) by {
                        let ko = if k < i as int {
                            k
                        } else {
                            k + 1
                        };
                        assert(self.page_to_frame@[k] == ptf_cur[ko]);
                    }
                }
            } else {
                i += 1;
            }
        }
        proof {
            assert forall|c2: ContainerId, p2: PageId| #[trigger] alookup(
                self.page_to_frame@,
                (c2, p2),
            ) is Some <==> p2 < self.npages(c2) by {
                if c2 == c_id {
                    if alookup(self.page_to_frame@, (c2, p2)) is Some {
                        lemma_alookup_witness(self.page_to_frame@, (c2, p2));
                    }
                }
            }
        }
        Ok(())
    }

    /// Drop every frame, page-table entry and page counter.
    pub fn reset(&mut self) -> (r: Result<(), MemPoolStatus>)
        ensures
            final(self).wf(),
            r is Ok,
            final(self).num_frames() == 0,
            forall|c_id: ContainerId| !(#[trigger] final(self).has_container(c_id)),
    {
        self.frames.clear();
        self.page_to_frame.clear();
        self.container_page_count.clear();
        Ok(())
    }

    /// Counters are not tracked separately by the in-memory pool; nothing
    /// to reset.
    pub fn reset_stats(&self) {
    }

    /// A snapshot of the pool's counters. An in-memory pool never touches
    /// disk, so every disk counter is zero, and each known container has
    /// one resident frame per allocated page.
    #[verifier::loop_isolation(false)]
    pub fn stats(&self) -> (r: MemoryStats)
        requires
            self.wf(),
        ensures
            r.bp_num_frames_in_mem == self.num_frames(),
            r.bp_new_page == self.num_frames(),
            r.bp_read_frame == self.num_frames(),
            r.bp_read_frame_wait == 0,
            r.bp_write_frame == self.num_frames(),
            r.disk_created == 0,
            r.disk_read == 0,
            r.disk_write == 0,
            keys_distinct(r.bp_num_frames_per_container@),
            forall|i: int|
                0 <= i < r.bp_num_frames_per_container@.len() ==> {
                    let e = #[trigger] r.bp_num_frames_per_container@[i];
                    &&& self.has_container(e.0)
                    &&& e.1 == self.npages(e.0)
                },
            forall|c_id: ContainerId|
                #[trigger] self.has_container(c_id) ==> exists|i: int|
                    0 <= i < r.bp_num_frames_per_container@.len() && (
                    #[trigger] r.bp_num_frames_per_container@[i]).0 == c_id,
    {
        let ghost cpc0 = self.container_page_count@;
        let n = self.container_page_count.len();
        let mut per: Vec<(ContainerId, usize)> = Vec::new();
        let mut i: usize = 0;
        while i < n
            invariant
                i <= n,
                per@.len() == i,
                forall|j: int|
                    0 <= j < i ==> (#[trigger] per@[j]).0 == cpc0[j].0 && per@[j].1 == cpc0[j].1,
            decreases n - i,
        {
            let e = &self.container_page_count[i];
            per.push((e.0, e.1 as usize));
            i += 1;
        }
        proof {
            assert forall|j: int| 0 <= j < per@.len() implies {
                let e = #[trigger] per@[j];
                &&& self.has_container(e.0)
                &&& e.1 == self.npages(e.0)
            } by {
                lemma_alookup_index(cpc0, cpc0[j].0, j);
            }
            assert forall|c_id: ContainerId| #[trigger] self.has_container(c_id) implies exists|
                i: int,
            | 0 <= i < per@.len() && (#[trigger] per@[i]).0 == c_id by {
                lemma_alookup_witness(cpc0, c_id);
                let j = choose|j: int| 0 <= j < cpc0.len() && (#[trigger] cpc0[j]).0 == c_id
                    && cpc0[j].1 == alookup(cpc0, c_id).unwrap();
                assert(per@[j].0 == c_id);
            }
        }
        let nf = self.frames.len();
        MemoryStats {
            bp_num_frames_in_mem: nf,
            bp_new_page: nf,
            bp_read_frame: nf,
            bp_read_frame_wait: 0,
            bp_write_frame: nf,
            bp_num_frames_per_container: per,
            disk_created: 0,
            disk_read: 0,
            disk_write: 0,
        }
    }

    /// Write-back of dirty frames: an in-memory pool has no disk behind it,
    /// so flushing performs zero writes, and doing it twice performs zero
    /// writes both times.
    pub fn flush_all(&self) -> (r: Result<(), MemPoolStatus>)
        ensures
            r is Ok,
    {
        Ok(())
    }

    /// Flush and purge: both are empty work for an in-memory pool.
    pub fn flush_all_and_reset(&self) -> (r: Result<(), MemPoolStatus>)
        ensures
            r is Ok,
    {
        Ok(())
    }

    /// No frame of an in-memory pool is ever dirty.
    pub fn clear_dirty_flags(&self) -> (r: Result<(), MemPoolStatus>)
        ensures
            r is Ok,
    {
        Ok(())
    }

    /// An in-memory pool never evicts.
    pub fn fast_evict(&self, _frame_id: u32) -> (r: Result<(), MemPoolStatus>)
        ensures
            r is Ok,
    {
        Ok(())
    }

    /// Every allocated page is already resident: the hint is empty work.
    pub fn prefetch_page(&self, _c_id: ContainerId, _page_id: PageId) -> (r: Result<
        (),
        MemPoolStatus,
    >)
        ensures
            r is Ok,
    {
        Ok(())
    }
}

impl Default for InMemPool {
    /// An empty pool, as [`InMemPool::new`] builds it.
    fn default() -> (r: InMemPool)
        ensures
            r.wf(),
            r.num_frames() == 0,
            forall|c_id: ContainerId| !(#[trigger] r.has_container(c_id)),
    {
        InMemPool::new()
    }
}

} // verus!
