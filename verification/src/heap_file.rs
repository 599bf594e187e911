//! The heap file: value-level insert, read, update and delete for one
//! container, coordinated across its pages through the buffer pool, and a
//! scan iterator over every live value in ascending `(PageId, SlotId)`
//! order.
//!
//! A heap file owns no state of its own: everything persistent lives in
//! pages held by the pool. Page 0 is reserved as a header page; data pages
//! begin at 1.

use crate::error::CrustyError;
use crate::heap_page::HeapPage;
use crate::heap_page::HeapPageIter;
use crate::ids::ContainerId;
use crate::ids::PageId;
use crate::ids::SlotId;
use crate::ids::ValueId;
use crate::in_mem_pool::InMemPool;
use vstd::prelude::*;

verus! {

use crate::PAGE_SIZE;
use crate::heap_page::{
    HEAP_PAGE_HEADER_BASE, SLOT_METADATA_SIZE, fits, fits_update, lemma_lowest_free, lowest_free,
};

/// The bytes stored under `(c_id, page_id, slot_id)`, if that location is
/// allocated and live.
pub open spec fn value_at(
    pool: InMemPool,
    c_id: ContainerId,
    page_id: PageId,
    slot_id: SlotId,
) -> Option<Seq<u8>> {
    if page_id < pool.npages(c_id) {
        let s = pool.page_at(c_id, page_id).slots_view();
        if slot_id < s.len() {
            s[slot_id as int]
        } else {
            None
        }
    } else {
        None
    }
}

/// Lexicographic order on `(page, slot)` positions.
pub open spec fn pos_le(p1: int, s1: int, p2: int, s2: int) -> bool {
    p1 < p2 || (p1 == p2 && s1 <= s2)
}

/// Strict lexicographic order on `(page, slot)` positions.
pub open spec fn pos_lt(p1: int, s1: int, p2: int, s2: int) -> bool {
    p1 < p2 || (p1 == p2 && s1 < s2)
}

/// A handle to one container's heap file.
pub struct HeapFile {
    c_id: ContainerId,
}

impl HeapFile {
    /// The container this heap file stores.
    pub closed spec fn spec_c_id(&self) -> ContainerId {
        self.c_id
    }

    /// The handle is usable with `pool`: the container is registered and
    /// its header page exists.
    pub open spec fn valid(&self, pool: InMemPool) -> bool {
        &&& pool.has_container(self.spec_c_id())
        &&& pool.npages(self.spec_c_id()) >= 1
    }

    /// Create a brand-new heap file for container `c_id`, reserving page 0
    /// as its header page. A container the pool already knows is refused.
    pub fn new(c_id: ContainerId, pool: &mut InMemPool) -> (r: Result<HeapFile, CrustyError>)
        requires
            old(pool).wf(),
        ensures
            final(pool).wf(),
            match r {
                Ok(hf) => {
                    &&& !old(pool).has_container(c_id)
                    &&& hf.spec_c_id() == c_id
                    &&& hf.valid(*final(pool))
                    &&& final(pool).npages(c_id) == 1
                    &&& final(pool).page_at(c_id, 0).slots_view() == Seq::<Option<Seq<u8>>>::empty()
                    &&& forall|c2: ContainerId|
                        c2 != c_id ==> #[trigger] final(pool).spec_count(c2) == old(
                            pool,
                        ).spec_count(c2)
                    &&& forall|c2: ContainerId, p2: PageId|
                        p2 < old(pool).npages(c2) ==> #[trigger] final(pool).page_at(c2, p2) == old(
                            pool,
                        ).page_at(c2, p2)
                },
                Err(_) => {
                    &&& old(pool).has_container(c_id)
                    &&& forall|c2: ContainerId|
                        #[trigger] final(pool).spec_count(c2) == old(pool).spec_count(c2)
                    &&& forall|c2: ContainerId, p2: PageId|
                        p2 < old(pool).npages(c2) ==> #[trigger] final(pool).page_at(c2, p2) == old(
                            pool,
                        ).page_at(c2, p2)
                },
            },
    {
        if pool.get_max_page_id(c_id).is_some() {
            return Err(CrustyError::CrustyError("container already exists".to_string()));
        }
        let _ = pool.create_container(c_id, false);
        // the header page is always page 0; data pages start from 1
        let _ = match pool.create_new_page_for_write(c_id) {
            Ok(p) => p,
            Err(_) => {
                proof {
                    assert(false);
                }
                return Err(CrustyError::CrustyError("cannot reserve header page".to_string()));
            },
        };
        Ok(HeapFile { c_id })
    }

    /// Load an existing heap file: the container must already stand in the
    /// pool.
    pub fn load(c_id: ContainerId, pool: &InMemPool) -> (r: Result<HeapFile, CrustyError>)
        requires
            pool.wf(),
        ensures
            match r {
                Ok(hf) => pool.has_container(c_id) && hf.spec_c_id() == c_id,
                Err(_) => !pool.has_container(c_id),
            },
    {
        if pool.get_max_page_id(c_id).is_none() {
            return Err(CrustyError::CrustyError("container does not exist".to_string()));
        }
        Ok(HeapFile { c_id })
    }

    /// The number of pages of this heap file: the pool's page counter for
    /// the container, or 0 when the container is unknown.
    pub fn num_pages(&self, pool: &InMemPool) -> (r: PageId)
        ensures
            r == pool.npages(self.spec_c_id()),
    {
        match pool.get_max_page_id(self.c_id) {
            Some(n) => n,
            None => 0,
        }
    }

    /// Read the value at `(page_id, slot_id)`, copying its bytes out. An
    /// unallocated or deleted slot is an error.
    pub fn get_val(&self, pool: &InMemPool, page_id: PageId, slot_id: SlotId) -> (r: Result<
        Vec<u8>,
        CrustyError,
    >)
        requires
            pool.wf(),
            page_id < pool.npages(self.spec_c_id()),
        ensures
            match r {
                Ok(v) => value_at(*pool, self.spec_c_id(), page_id, slot_id) == Some(v@),
                Err(_) => value_at(*pool, self.spec_c_id(), page_id, slot_id) is None,
            },
    {
        let page = match pool.get_page_for_read(self.c_id, page_id) {
            Ok(p) => p,
            Err(_) => {
                proof {
                    assert(false);
                }
                return Err(CrustyError::CrustyError("page not found".to_string()));
            },
        };
        match page.get_value(slot_id) {
            Some(b) => Ok(vstd::slice::slice_to_vec(b)),
            None => Err(CrustyError::ValidationError("invalid slot".to_string())),
        }
    }

    /// Delete the value at `(page_id, slot_id)`, freeing its bytes for
    /// later inserts. Every other value of every container is untouched.
    pub fn delete_val(&self, pool: &mut InMemPool, page_id: PageId, slot_id: SlotId) -> (r: Result<
        (),
        CrustyError,
    >)
        requires
            old(pool).wf(),
            page_id < old(pool).npages(self.spec_c_id()),
        ensures
            final(pool).wf(),
            forall|c2: ContainerId|
                #[trigger] final(pool).spec_count(c2) == old(pool).spec_count(c2),
            match r {
                Ok(_) => {
                    &&& value_at(*old(pool), self.spec_c_id(), page_id, slot_id) is Some
                    &&& final(pool).page_at(self.spec_c_id(), page_id).slots_view() == old(
                        pool,
                    ).page_at(self.spec_c_id(), page_id).slots_view().update(slot_id as int, None)
                    &&& forall|c2: ContainerId, p2: PageId|
                        p2 < old(pool).npages(c2) && !(c2 == self.spec_c_id() && p2 == page_id)
                            ==> #[trigger] final(pool).page_at(c2, p2) == old(pool).page_at(c2, p2)
                },
                Err(_) => {
                    &&& value_at(*old(pool), self.spec_c_id(), page_id, slot_id) is None
                    &&& forall|c2: ContainerId, p2: PageId|
                        p2 < old(pool).npages(c2) ==> #[trigger] final(pool).page_at(c2, p2) == old(
                            pool,
                        ).page_at(c2, p2)
                },
            },
    {
        proof {
            old(pool).lemma_page_at_wf(self.c_id, page_id);
        }
        let page = pool.get_page_for_write(self.c_id, page_id);
        match page.delete_value(slot_id) {
            Some(_) => Ok(()),
            None => Err(CrustyError::ValidationError("invalid slot".to_string())),
        }
    }

    /// Insert a value, trying the existing data pages from the tail
    /// backward and allocating a fresh page when none fits. Returns the
    /// address of the new slot; a value too large for an empty page is an
    /// error. No live value of any container is disturbed.
    #[verifier::loop_isolation(false)]
    pub fn add_val(&self, pool: &mut InMemPool, val: &[u8]) -> (r: Result<ValueId, CrustyError>)
        requires
            old(pool).wf(),
            self.valid(*old(pool)),
            old(pool).npages(self.spec_c_id()) < PageId::MAX,
        ensures
            final(pool).wf(),
            self.valid(*final(pool)),
            forall|c2: ContainerId|
                c2 != self.spec_c_id() ==> #[trigger] final(pool).spec_count(c2) == old(
                    pool,
                ).spec_count(c2),
            forall|c2: ContainerId, p2: PageId|
                p2 < old(pool).npages(c2) && !(r is Ok && c2 == self.spec_c_id() && p2
                    == r.unwrap().page_id) ==> #[trigger] final(pool).page_at(c2, p2) == old(
                    pool,
                ).page_at(c2, p2),
            match r {
                Ok(vid) => {
                    &&& fits(Seq::<Option<Seq<u8>>>::empty(), val@.len())
                    &&& vid.container_id == self.spec_c_id()
                    &&& 1 <= vid.page_id < final(pool).npages(self.spec_c_id())
                    &&& value_at(*final(pool), self.spec_c_id(), vid.page_id, vid.slot_id) == Some(
                        val@,
                    )
                    &&& value_at(*old(pool), self.spec_c_id(), vid.page_id, vid.slot_id) is None
                    &&& if vid.page_id < old(pool).npages(self.spec_c_id()) {
                        // the value went to the rightmost data page that fit
                        &&& final(pool).npages(self.spec_c_id()) == old(pool).npages(
                            self.spec_c_id(),
                        )
                        &&& fits(
                            old(pool).page_at(self.spec_c_id(), vid.page_id).slots_view(),
                            val@.len(),
                        )
                        &&& vid.slot_id as int == lowest_free(
                            old(pool).page_at(self.spec_c_id(), vid.page_id).slots_view(),
                        )
                        &&& final(pool).page_at(self.spec_c_id(), vid.page_id).slots_view()
                            == if (vid.slot_id as int) < old(pool).page_at(
                            self.spec_c_id(),
                            vid.page_id,
                        ).slots_view().len() {
                            old(pool).page_at(self.spec_c_id(), vid.page_id).slots_view().update(
                                vid.slot_id as int,
                                Some(val@),
                            )
                        } else {
                            old(pool).page_at(self.spec_c_id(), vid.page_id).slots_view().push(
                                Some(val@),
                            )
                        }
                        &&& forall|q: PageId|
                            vid.page_id < q < old(pool).npages(self.spec_c_id()) ==> !fits(
                                #[trigger] old(pool).page_at(self.spec_c_id(), q).slots_view(),
                                val@.len(),
                            )
                    } else {
                        // no existing data page fit: the value opened a new page
                        &&& vid.page_id == old(pool).npages(self.spec_c_id())
                        &&& vid.slot_id == 0
                        &&& final(pool).npages(self.spec_c_id()) == old(pool).npages(
                            self.spec_c_id(),
                        ) + 1
                        &&& final(pool).page_at(self.spec_c_id(), vid.page_id).slots_view() == Seq::<
                            Option<Seq<u8>>,
                        >::empty().push(Some(val@))
                        &&& forall|q: PageId|
                            1 <= q < old(pool).npages(self.spec_c_id()) ==> !fits(
                                #[trigger] old(pool).page_at(self.spec_c_id(), q).slots_view(),
                                val@.len(),
                            )
                    }
                },
                Err(_) => {
                    &&& !fits(Seq::<Option<Seq<u8>>>::empty(), val@.len())
                    &&& final(pool).spec_count(self.spec_c_id()) == old(pool).spec_count(
                        self.spec_c_id(),
                    )
                },
            },
    {
        // a value that cannot fit even in a fresh page is refused up front
        if val.len() > PAGE_SIZE - HEAP_PAGE_HEADER_BASE - SLOT_METADATA_SIZE {
            proof {
                assert(!fits(Seq::<Option<Seq<u8>>>::empty(), val@.len()));
            }
            return Err(CrustyError::ValidationError("value too large for a page".to_string()));
        }
        proof {
            assert(fits(Seq::<Option<Seq<u8>>>::empty(), val@.len()));
        }
        let n = self.num_pages(pool);
        // from the tail data page backward, take the first page that fits
        let mut p = n;
        while p > 1
            invariant
                1 <= p <= n,
                pool.wf(),
                self.valid(*pool),
                forall|c2: ContainerId|
                    #[trigger] pool.spec_count(c2) == old(pool).spec_count(c2),
                forall|c2: ContainerId, p2: PageId|
                    p2 < old(pool).npages(c2) ==> #[trigger] pool.page_at(c2, p2) == old(
                        pool,
                    ).page_at(c2, p2),
                forall|q: PageId|
                    p <= q < n ==> !fits(
                        #[trigger] old(pool).page_at(self.spec_c_id(), q).slots_view(),
                        val@.len(),
                    ),
            decreases p,
        {
            p = p - 1;
            proof {
                old(pool).lemma_page_at_wf(self.c_id, p);
            }
            let page = pool.get_page_for_write(self.c_id, p);
            match page.add_value(val) {
                Some(sid) => {
                    proof {
                        lemma_lowest_free(old(pool).page_at(self.spec_c_id(), p).slots_view());
                    }
                    return Ok(ValueId { container_id: self.c_id, page_id: p, slot_id: sid });
                },
                None => {},
            }
        }
        // no data page fit: open a fresh page at the tail
        let pid = match pool.create_new_page_for_write(self.c_id) {
            Ok(p) => p,
            Err(_) => {
                proof {
                    assert(false);
                }
                return Err(CrustyError::CrustyError("cannot allocate page".to_string()));
            },
        };
        let page = pool.get_page_for_write(self.c_id, pid);
        match page.add_value(val) {
            Some(sid) => {
                proof {
                    lemma_lowest_free(Seq::<Option<Seq<u8>>>::empty());
                }
                Ok(ValueId { container_id: self.c_id, page_id: pid, slot_id: sid })
            },
            None => {
                proof {
                    assert(false);
                }
                Err(CrustyError::CrustyError("fresh page refused the value".to_string()))
            },
        }
    }

    /// Replace the value at `(page_id, slot_id)`. When the new bytes fit in
    /// the page, the slot is rewritten in place and the original address
    /// comes back. When they do not, the old slot is deleted and the value
    /// reinserted elsewhere, under a fresh address. A dead slot, or a value
    /// too large for an empty page, is an error that leaves every value as
    /// it was.
    pub fn update_val(
        &self,
        pool: &mut InMemPool,
        page_id: PageId,
        slot_id: SlotId,
        val: &[u8],
    ) -> (r: Result<ValueId, CrustyError>)
        requires
            old(pool).wf(),
            self.valid(*old(pool)),
            page_id < old(pool).npages(self.spec_c_id()),
            old(pool).npages(self.spec_c_id()) < PageId::MAX,
        ensures
            final(pool).wf(),
            self.valid(*final(pool)),
            forall|c2: ContainerId|
                c2 != self.spec_c_id() ==> #[trigger] final(pool).spec_count(c2) == old(
                    pool,
                ).spec_count(c2),
            forall|c2: ContainerId, p2: PageId|
                c2 != self.spec_c_id() && p2 < old(pool).npages(c2) ==> #[trigger] final(pool).page_at(c2, p2) == old(pool).page_at(c2, p2),
            match r {
                Ok(vid) => {
                    &&& value_at(*old(pool), self.spec_c_id(), page_id, slot_id) is Some
                    &&& fits(Seq::<Option<Seq<u8>>>::empty(), val@.len())
                    &&& vid.container_id == self.spec_c_id()
                    &&& vid.page_id < final(pool).npages(self.spec_c_id())
                    &&& value_at(*final(pool), self.spec_c_id(), vid.page_id, vid.slot_id) == Some(
                        val@,
                    )
                    &&& final(pool).npages(self.spec_c_id()) == old(pool).npages(self.spec_c_id())
                        || final(pool).npages(self.spec_c_id()) == old(pool).npages(
                        self.spec_c_id(),
                    ) + 1
                    &&& !(vid.page_id == page_id && vid.slot_id == slot_id) ==> {
                        &&& !fits_update(
                            old(pool).page_at(self.spec_c_id(), page_id).slots_view(),
                            slot_id as int,
                            val@.len(),
                        )
                        &&& value_at(*final(pool), self.spec_c_id(), page_id, slot_id) is None
                        &&& value_at(*old(pool), self.spec_c_id(), vid.page_id, vid.slot_id)
                            is None
                    }
                    &&& forall|p2: PageId, s2: SlotId|
                        !(p2 == page_id && s2 == slot_id) && !(p2 == vid.page_id && s2
                            == vid.slot_id) ==> #[trigger] value_at(
                            *final(pool),
                            self.spec_c_id(),
                            p2,
                            s2,
                        ) == value_at(*old(pool), self.spec_c_id(), p2, s2)
                },
                Err(_) => {
                    &&& (value_at(*old(pool), self.spec_c_id(), page_id, slot_id) is None || !fits(
                        Seq::<Option<Seq<u8>>>::empty(),
                        val@.len(),
                    ))
                    &&& forall|c2: ContainerId|
                        #[trigger] final(pool).spec_count(c2) == old(pool).spec_count(c2)
                    &&& forall|c2: ContainerId, p2: PageId|
                        p2 < old(pool).npages(c2) ==> #[trigger] final(pool).page_at(c2, p2) == old(
                            pool,
                        ).page_at(c2, p2)
                },
            },
    {
        if val.len() > PAGE_SIZE - HEAP_PAGE_HEADER_BASE - SLOT_METADATA_SIZE {
            proof {
                assert(!fits(Seq::<Option<Seq<u8>>>::empty(), val@.len()));
            }
            return Err(CrustyError::ValidationError("value too large for a page".to_string()));
        }
        proof {
            assert(fits(Seq::<Option<Seq<u8>>>::empty(), val@.len()));
            old(pool).lemma_page_at_wf(self.c_id, page_id);
        }
        let page = pool.get_page_for_write(self.c_id, page_id);
        match page.get_value(slot_id) {
            Some(_) => {},
            None => {
                return Err(CrustyError::ValidationError("invalid slot".to_string()));
            },
        }
        match page.update_value(slot_id, val) {
            Some(_) => {
                return Ok(
                    ValueId { container_id: self.c_id, page_id, slot_id },
                );
            },
            None => {},
        }
        // the new bytes do not fit in place: delete the old slot and
        // reinsert the value elsewhere
        match page.delete_value(slot_id) {
            Some(_) => {},
            None => {
                proof {
                    assert(false);
                }
                return Err(CrustyError::CrustyError("slot vanished".to_string()));
            },
        }
        let ghost mid = *pool;
        let r = self.add_val(pool, val);
        match r {
            Ok(vid) => {
                proof {
                    assert(value_at(mid, self.spec_c_id(), page_id, slot_id) is None);
                }
                Ok(vid)
            },
            Err(_) => {
                proof {
                    assert(false);
                }
                Err(CrustyError::CrustyError("reinsert failed".to_string()))
            },
        }
    }

    /// Insert each value in order, returning their addresses. The addresses
    /// are pairwise distinct, and each value is readable under its address
    /// once the batch is done.
    #[verifier::loop_isolation(false)]
    pub fn add_vals(&self, pool: &mut InMemPool, vals: &[Vec<u8>]) -> (r: Result<
        Vec<ValueId>,
        CrustyError,
    >)
        requires
            old(pool).wf(),
            self.valid(*old(pool)),
            old(pool).npages(self.spec_c_id()) + vals@.len() < PageId::MAX,
        ensures
            final(pool).wf(),
            self.valid(*final(pool)),
            match r {
                Ok(ids) => {
                    &&& ids@.len() == vals@.len()
                    &&& forall|i: int|
                        0 <= i < ids@.len() ==> #[trigger] value_at(
                            *final(pool),
                            self.spec_c_id(),
                            ids@[i].page_id,
                            ids@[i].slot_id,
                        ) == Some(vals@[i]@)
                    &&& forall|i: int|
                        0 <= i < ids@.len() ==> (#[trigger] ids@[i]).container_id
                            == self.spec_c_id()
                    &&& forall|i: int, j: int| 0 <= i < j < ids@.len() ==> ids@[i] != ids@[j]
                },
                Err(_) => exists|i: int|
                    0 <= i < vals@.len() && !fits(
                        Seq::<Option<Seq<u8>>>::empty(),
                        (#[trigger] vals@[i])@.len(),
                    ),
            },
    {
        let mut ids: Vec<ValueId> = Vec::new();
        let n = vals.len();
        let mut i: usize = 0;
        while i < n
            invariant
                i <= n,
                pool.wf(),
                self.valid(*pool),
                ids@.len() == i,
                pool.npages(self.spec_c_id()) <= old(pool).npages(self.spec_c_id()) + i,
                forall|k: int|
                    0 <= k < i ==> #[trigger] value_at(
                        *pool,
                        self.spec_c_id(),
                        ids@[k].page_id,
                        ids@[k].slot_id,
                    ) == Some(vals@[k]@),
                forall|k: int| 0 <= k < i ==> (#[trigger] ids@[k]).container_id == self.spec_c_id(),
                forall|k: int, j: int| 0 <= k < j < i ==> ids@[k] != ids@[j],
            decreases n - i,
        {
            let ghost before = *pool;
            let vid = match self.add_val(pool, &vals[i]) {
                Ok(v) => v,
                Err(e) => {
                    return Err(e);
                },
            };
            proof {
                // the fresh address was dead before, so it differs from
                // every address already handed out, and older values keep
                // their bytes
                assert forall|k: int| 0 <= k < i implies #[trigger] value_at(
                    *pool,
                    self.spec_c_id(),
                    ids@[k].page_id,
                    ids@[k].slot_id,
                ) == Some(vals@[k]@) && ids@[k] != vid by {
                    if ids@[k].page_id == vid.page_id && ids@[k].slot_id == vid.slot_id {
                        assert(value_at(
                            before,
                            self.spec_c_id(),
                            ids@[k].page_id,
                            ids@[k].slot_id,
                        ) is None);
                        assert(false);
                    }
                    assert(value_at(*pool, self.spec_c_id(), ids@[k].page_id, ids@[k].slot_id)
                        == value_at(before, self.spec_c_id(), ids@[k].page_id, ids@[k].slot_id));
                }
            }
            ids.push(vid);
            i += 1;
        }
        Ok(ids)
    }

    /// An iterator over every live value of the heap file, in ascending
    /// `(PageId, SlotId)` order.
    pub fn iter(&self) -> (r: HeapFileIter)
        ensures
            r.spec_c_id() == self.spec_c_id(),
            r.spec_page_id() == 0,
            r.spec_slot_id() == 0,
            !r.spec_finished(),
    {
        HeapFileIter::new_from(self.c_id, 0, 0)
    }

    /// An iterator that skips everything lexicographically below
    /// `(page_id, slot_id)` and yields the rest in ascending order.
    pub fn iter_from(&self, page_id: PageId, slot_id: SlotId) -> (r: HeapFileIter)
        ensures
            r.spec_c_id() == self.spec_c_id(),
            r.spec_page_id() == page_id,
            r.spec_slot_id() == slot_id,
            !r.spec_finished(),
    {
        HeapFileIter::new_from(self.c_id, page_id, slot_id)
    }
}

/// A scan cursor over one heap file. It holds no page: each step borrows
/// the pool, walks from the cursor to the next live slot, and releases the
/// page before returning.
pub struct HeapFileIter {
    c_id: ContainerId,
    page_id: PageId,
    slot_id: SlotId,
    initialized: bool,
    finished: bool,
}

impl HeapFileIter {
    /// The container being scanned.
    pub closed spec fn spec_c_id(&self) -> ContainerId {
        self.c_id
    }

    /// The page part of the cursor: the next position to visit.
    pub closed spec fn spec_page_id(&self) -> PageId {
        self.page_id
    }

    /// The slot part of the cursor.
    pub closed spec fn spec_slot_id(&self) -> SlotId {
        self.slot_id
    }

    /// Whether the scan has reached the end of the file.
    pub closed spec fn spec_finished(&self) -> bool {
        self.finished
    }

    /// A cursor starting at `(page_id, slot_id)`, inclusive.
    fn new_from(c_id: ContainerId, page_id: PageId, slot_id: SlotId) -> (r: HeapFileIter)
        ensures
            r.spec_c_id() == c_id,
            r.spec_page_id() == page_id,
            r.spec_slot_id() == slot_id,
            !r.spec_finished(),
    {
        HeapFileIter { c_id, page_id, slot_id, initialized: false, finished: false }
    }

    /// Prepare the cursor for its first step.
    fn initialize(&mut self)
        ensures
            *final(self) == (HeapFileIter { initialized: true, ..*old(self) }),
    {
        if self.initialized {
            return ;
        }
        self.initialized = true;
    }

    /// The next live value at or after the cursor, with its address, in
    /// ascending `(PageId, SlotId)` order: the least live position at or
    /// after the cursor, and `None` exactly when no live value remains. A
    /// finished cursor stays finished and yields nothing.
    #[verifier::loop_isolation(false)]
    pub fn next(&mut self, pool: &InMemPool) -> (r: Option<(Vec<u8>, ValueId)>)
        requires
            pool.wf(),
        ensures
            final(self).spec_c_id() == old(self).spec_c_id(),
            old(self).spec_finished() ==> r is None && *final(self) == *old(self),
            !old(self).spec_finished() ==> match r {
                Some(p) => {
                    &&& p.1.container_id == old(self).spec_c_id()
                    &&& pos_le(
                        old(self).spec_page_id() as int,
                        old(self).spec_slot_id() as int,
                        p.1.page_id as int,
                        p.1.slot_id as int,
                    )
                    &&& value_at(*pool, old(self).spec_c_id(), p.1.page_id, p.1.slot_id) == Some(
                        p.0@,
                    )
                    &&& forall|p2: PageId, s2: SlotId|
                        pos_le(
                            old(self).spec_page_id() as int,
                            old(self).spec_slot_id() as int,
                            p2 as int,
                            s2 as int,
                        ) && pos_lt(
                            p2 as int,
                            s2 as int,
                            p.1.page_id as int,
                            p.1.slot_id as int,
                        ) ==> #[trigger] value_at(*pool, old(self).spec_c_id(), p2, s2) is None
                    &&& final(self).spec_page_id() == p.1.page_id
                    &&& final(self).spec_slot_id() == p.1.slot_id + 1
                    &&& !final(self).spec_finished()
                },
                None => {
                    &&& forall|p2: PageId, s2: SlotId|
                        pos_le(
                            old(self).spec_page_id() as int,
                            old(self).spec_slot_id() as int,
                            p2 as int,
                            s2 as int,
                        ) ==> #[trigger] value_at(*pool, old(self).spec_c_id(), p2, s2) is None
                    &&& final(self).spec_finished()
                },
            },
    {
        if self.finished {
            return None;
        }
        self.initialize();
        let n = match pool.get_max_page_id(self.c_id) {
            Some(n) => n,
            None => {
                self.finished = true;
                return None;
            },
        };
        let mut p = self.page_id;
        let mut s = self.slot_id;
        while p < n
            invariant
                pool.wf(),
                n == pool.npages(self.c_id),
                p >= old(self).spec_page_id(),
                p > old(self).spec_page_id() ==> s == 0,
                p == old(self).spec_page_id() ==> s == old(self).spec_slot_id(),
                forall|p2: PageId, s2: SlotId|
                    pos_le(
                        old(self).spec_page_id() as int,
                        old(self).spec_slot_id() as int,
                        p2 as int,
                        s2 as int,
                    ) && pos_lt(p2 as int, s2 as int, p as int, s as int) ==> #[trigger] value_at(
                        *pool,
                        self.c_id,
                        p2,
                        s2,
                    ) is None,
                self.c_id == old(self).spec_c_id(),
                self.page_id == old(self).spec_page_id(),
                self.slot_id == old(self).spec_slot_id(),
                self.finished == false,
            decreases n - p,
        {
            proof {
                pool.lemma_page_at_wf(self.c_id, p);
            }
            let page = match pool.get_page_for_read(self.c_id, p) {
                Ok(pg) => pg,
                Err(_) => {
                    proof {
                        assert(false);
                    }
                    self.finished = true;
                    return None;
                },
            };
            let mut page_iter = HeapPageIter { next_slot: s };
            match page_iter.next(page) {
                Some(pair) => {
                    let (v, sid) = pair;
                    self.page_id = p;
                    self.slot_id = sid + 1;
                    proof {
                        assert forall|p2: PageId, s2: SlotId|
                            pos_le(
                                old(self).spec_page_id() as int,
                                old(self).spec_slot_id() as int,
                                p2 as int,
                                s2 as int,
                            ) && pos_lt(p2 as int, s2 as int, p as int, sid as int)
                            implies #[trigger] value_at(*pool, self.c_id, p2, s2) is None by {
                            if p2 == p && s2 >= s {
                                assert(page.hp_slots()[s2 as int] is None || s2 as int
                                    >= page.hp_slots().len());
                            }
                        }
                    }
                    return Some(
                        (v, ValueId { container_id: self.c_id, page_id: p, slot_id: sid }),
                    );
                },
                None => {
                    proof {
                        assert forall|p2: PageId, s2: SlotId|
                            pos_le(
                                old(self).spec_page_id() as int,
                                old(self).spec_slot_id() as int,
                                p2 as int,
                                s2 as int,
                            ) && pos_lt(p2 as int, s2 as int, (p + 1) as int, 0 as int)
                            implies #[trigger] value_at(*pool, self.c_id, p2, s2) is None by {
                            if p2 == p && s2 >= s {
                                assert(page.hp_slots()[s2 as int] is None || s2 as int
                                    >= page.hp_slots().len());
                            }
                        }
                    }
                    p = p + 1;
                    s = 0;
                },
            }
        }
        self.finished = true;
        proof {
            assert forall|p2: PageId, s2: SlotId|
                pos_le(
                    old(self).spec_page_id() as int,
                    old(self).spec_slot_id() as int,
                    p2 as int,
                    s2 as int,
                ) implies #[trigger] value_at(*pool, self.c_id, p2, s2) is None by {
                if p2 < n {
                    assert(pos_lt(p2 as int, s2 as int, p as int, s as int));
                }
            }
        }
        None
    }
}

/// Law: positions yielded by consecutive iterator steps ascend strictly.
/// One step yields `(p1, s1)` and moves the cursor to `(p1, s1 + 1)`; the
/// next yield lies at or after that cursor, hence strictly after `(p1, s1)`.
pub proof fn lemma_iter_yields_ascend(p1: int, s1: int, p2: int, s2: int)
    requires
        pos_le(p1, s1 + 1, p2, s2),
    ensures
        pos_lt(p1, s1, p2, s2),
{
}

/// Law: a value stored at an address stays readable there, unchanged,
/// until that address itself is deleted or updated: operations on any
/// other address leave it as it was.
pub proof fn lemma_value_untouched(
    pre: InMemPool,
    post: InMemPool,
    c_id: ContainerId,
    vid: ValueId,
    other_p: PageId,
    other_s: SlotId,
    bytes: Seq<u8>,
)
    requires
        value_at(pre, c_id, vid.page_id, vid.slot_id) == Some(bytes),
        !(other_p == vid.page_id && other_s == vid.slot_id),
        forall|p2: PageId, s2: SlotId|
            !(p2 == other_p && s2 == other_s) ==> #[trigger] value_at(post, c_id, p2, s2)
                == value_at(pre, c_id, p2, s2),
    ensures
        value_at(post, c_id, vid.page_id, vid.slot_id) == Some(bytes),
{
}

} // verus!
