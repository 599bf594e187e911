//! The slotted heap page: a fixed-capacity container of variable-length
//! values addressed by stable slot identifiers.
//!
//! An insert always assigns the lowest unused slot id, reusing the entry of
//! a deleted value when one exists. Deleting frees the value's body bytes
//! but never shrinks the slot directory.

use crate::ids::PageId;
use crate::ids::SlotId;
use vstd::prelude::*;

verus! {

use crate::PAGE_SIZE;

/// Size of the fixed page header: the owning page id, little-endian.
pub const PAGE_FIXED_HEADER_LEN: usize = 4;
/// Heap-page metadata stored beyond the fixed header.
pub const HEAP_PAGE_FIXED_METADATA_SIZE: usize = 8;
/// Size of one slot-directory entry: offset and length.
pub const SLOT_METADATA_SIZE: usize = 4;
/// Bytes of every page spent before the slot directory.
pub const HEAP_PAGE_HEADER_BASE: usize = PAGE_FIXED_HEADER_LEN + HEAP_PAGE_FIXED_METADATA_SIZE;

/// Length of the value held by one slot; a vacant slot holds no bytes.
pub open spec fn slot_len(s: Option<Seq<u8>>) -> nat {
    match s {
        Some(v) => v.len(),
        None => 0,
    }
}

/// Total body bytes held by the live slots of a directory.
pub open spec fn live_space(s: Seq<Option<Seq<u8>>>) -> nat
    decreases s.len(),
{
    if s.len() == 0 {
        0
    } else {
        live_space(s.drop_last()) + slot_len(s.last())
    }
}

/// Appending a slot grows the live space by the slot's length.
pub proof fn lemma_live_space_push(s: Seq<Option<Seq<u8>>>, x: Option<Seq<u8>>)
    ensures
        live_space(s.push(x)) == live_space(s) + slot_len(x),
{
    assert(s.push(x).drop_last() =~= s);
}

/// Replacing one slot changes the live space by the difference in lengths.
pub proof fn lemma_live_space_update(s: Seq<Option<Seq<u8>>>, i: int, x: Option<Seq<u8>>)
    requires
        0 <= i < s.len(),
    ensures
        live_space(s.update(i, x)) + slot_len(s[i]) == live_space(s) + slot_len(x),
    decreases s.len(),
{
    if i == s.len() - 1 {
        assert(s.update(i, x).drop_last() =~= s.drop_last());
        assert(s.update(i, x).last() == x);
    } else {
        assert(s.update(i, x).drop_last() =~= s.drop_last().update(i, x));
        lemma_live_space_update(s.drop_last(), i, x);
        assert(s.drop_last()[i] == s[i]);
    }
}

/// Every slot's length is bounded by the directory's live space.
pub proof fn lemma_live_space_ge_slot(s: Seq<Option<Seq<u8>>>, i: int)
    requires
        0 <= i < s.len(),
    ensures
        slot_len(s[i]) <= live_space(s),
    decreases s.len(),
{
    if i == s.len() - 1 {
    } else {
        lemma_live_space_ge_slot(s.drop_last(), i);
        assert(s.drop_last()[i] == s[i]);
    }
}

/// The lowest unused slot id of a directory; the directory's length when
/// every entry is live.
pub open spec fn lowest_free(s: Seq<Option<Seq<u8>>>) -> int
    decreases s.len(),
{
    if s.len() == 0 {
        0
    } else if s[0] is None {
        0
    } else {
        1 + lowest_free(s.drop_first())
    }
}

/// The lowest unused slot id is vacant, and everything below it is live.
pub proof fn lemma_lowest_free(s: Seq<Option<Seq<u8>>>)
    ensures
        0 <= lowest_free(s) <= s.len(),
        lowest_free(s) < s.len() ==> s[lowest_free(s)] is None,
        forall|j: int| 0 <= j < lowest_free(s) ==> s[j] is Some,
    decreases s.len(),
{
    if s.len() == 0 {
    } else if s[0] is None {
    } else {
        lemma_lowest_free(s.drop_first());
        assert forall|j: int| 0 <= j < lowest_free(s) implies s[j] is Some by {
            if j > 0 {
                assert(s.drop_first()[j - 1] is Some);
            }
        }
    }
}

/// Free bytes of a page with directory `s`, counting body space that
/// compaction could reclaim.
pub open spec fn spec_free_space_of(s: Seq<Option<Seq<u8>>>) -> int {
    PAGE_SIZE - HEAP_PAGE_HEADER_BASE - SLOT_METADATA_SIZE * s.len() - live_space(s)
}

/// Fit policy: an insert of `len` bytes succeeds iff the bytes, plus a new
/// directory entry when no vacant one can be reused, fit in the free space.
pub open spec fn fits(s: Seq<Option<Seq<u8>>>, len: nat) -> bool {
    len + (if lowest_free(s) == s.len() {
        SLOT_METADATA_SIZE as nat
    } else {
        0nat
    }) <= spec_free_space_of(s)
}

/// Fit policy for an in-place update: the new bytes must fit in the free
/// space plus the bytes reclaimed from the slot's current value.
pub open spec fn fits_update(s: Seq<Option<Seq<u8>>>, i: int, len: nat) -> bool {
    len <= spec_free_space_of(s) + slot_len(s[i])
}

/// A fixed 4096-byte page: the owning page id, the slot directory, and a
/// running total of live body bytes.
pub struct Page {
    page_id: PageId,
    slots: Vec<Option<Vec<u8>>>,
    live: usize,
}

impl Page {
    /// The slot directory as a sequence: one entry per allocated slot id,
    /// holding the value's bytes while the slot is live.
    pub closed spec fn slots_view(&self) -> Seq<Option<Seq<u8>>> {
        Seq::new(
            self.slots@.len(),
            |i: int|
                match self.slots@[i] {
                    Some(v) => Some(v@),
                    None => None,
                },
        )
    }

    /// The page id held in the page header.
    pub closed spec fn spec_page_id(&self) -> PageId {
        self.page_id
    }

    /// Size invariant: live body bytes, directory bytes and fixed metadata
    /// together never exceed the page size; the cached live total is exact.
    pub closed spec fn wf(&self) -> bool {
        &&& HEAP_PAGE_HEADER_BASE + SLOT_METADATA_SIZE * self.slots@.len() + live_space(
            self.slots_view(),
        ) <= PAGE_SIZE
        &&& self.live == live_space(self.slots_view())
    }

    /// A well-formed page keeps its live values, directory and fixed
    /// metadata within the page size, whatever operations produced it.
    pub proof fn lemma_space_invariant(&self)
        requires
            self.wf(),
        ensures
            live_space(self.slots_view()) + SLOT_METADATA_SIZE * self.slots_view().len()
                + HEAP_PAGE_HEADER_BASE <= PAGE_SIZE,
            self.slots_view().len() <= 1021,
    {
    }

    /// A new, empty page owned by `page_id`.
    pub fn new(page_id: PageId) -> (r: Page)
        ensures
            r.wf(),
            r.slots_view() == Seq::<Option<Seq<u8>>>::empty(),
            r.spec_page_id() == page_id,
    {
        let r = Page { page_id, slots: Vec::new(), live: 0 };
        proof {
            assert(r.slots_view() =~= Seq::<Option<Seq<u8>>>::empty());
        }
        r
    }

    /// The page id stored in the header.
    pub fn get_page_id(&self) -> (r: PageId)
        ensures
            r == self.spec_page_id(),
    {
        self.page_id
    }

    /// Store a new owning page id in the header.
    pub fn set_page_id(&mut self, page_id: PageId)
        ensures
            final(self).spec_page_id() == page_id,
            final(self).slots_view() == old(self).slots_view(),
            final(self).wf() == old(self).wf(),
    {
        self.page_id = page_id;
    }

    /// The current length of the slot directory.
    pub fn slot_count(&self) -> (r: usize)
        ensures
            r == self.slots_view().len(),
    {
        self.slots.len()
    }
}

/// The slotted-page operations of a heap page.
pub trait HeapPage: Sized {
    /// The slot directory: one entry per allocated slot id, holding the
    /// value's bytes while the slot is live.
    spec fn hp_slots(&self) -> Seq<Option<Seq<u8>>>;

    /// Size invariant of the page.
    spec fn hp_wf(&self) -> bool;

    /// The owning page id.
    spec fn hp_id(&self) -> PageId;

    /// Initialize the page as an empty heap page.
    fn init_heap_page(&mut self)
        ensures
            final(self).hp_wf(),
            final(self).hp_slots() == Seq::<Option<Seq<u8>>>::empty(),
            final(self).hp_id() == old(self).hp_id(),
    ;

    /// Add a value to the page if there is space available, choosing the
    /// lowest unused slot id. Returns the chosen slot id, or `None` when the
    /// value cannot fit even after reclaiming deleted space.
    fn add_value(&mut self, bytes: &[u8]) -> (r: Option<SlotId>)
        requires
            old(self).hp_wf(),
        ensures
            final(self).hp_wf(),
            final(self).hp_id() == old(self).hp_id(),
            match r {
                Some(sid) => {
                    &&& fits(old(self).hp_slots(), bytes@.len())
                    &&& sid as int == lowest_free(old(self).hp_slots())
                    &&& final(self).hp_slots() == if (sid as int) < old(self).hp_slots().len() {
                        old(self).hp_slots().update(sid as int, Some(bytes@))
                    } else {
                        old(self).hp_slots().push(Some(bytes@))
                    }
                },
                None => {
                    &&& !fits(old(self).hp_slots(), bytes@.len())
                    &&& *final(self) == *old(self)
                },
            },
    ;

    /// The bytes stored under `slot_id`; `None` if the slot id was never
    /// assigned or its value was deleted.
    fn get_value(&self, slot_id: SlotId) -> (r: Option<&[u8]>)
        ensures
            match r {
                Some(b) => (slot_id as int) < self.hp_slots().len() && self.hp_slots()[slot_id as int] == Some(b@),
                None => slot_id as int >= self.hp_slots().len() || self.hp_slots()[slot_id as int]
                    is None,
            },
    ;

    /// Delete the value under `slot_id`, freeing its body bytes for reuse.
    /// The directory entry stays, vacant, so the directory never shrinks.
    fn delete_value(&mut self, slot_id: SlotId) -> (r: Option<()>)
        requires
            old(self).hp_wf(),
        ensures
            final(self).hp_wf(),
            final(self).hp_id() == old(self).hp_id(),
            match r {
                Some(_) => {
                    &&& (slot_id as int) < old(self).hp_slots().len()
                    &&& old(self).hp_slots()[slot_id as int] is Some
                    &&& final(self).hp_slots() == old(self).hp_slots().update(
                        slot_id as int,
                        None,
                    )
                },
                None => {
                    &&& (slot_id as int >= old(self).hp_slots().len() || old(self).hp_slots()[slot_id as int] is None)
                    &&& *final(self) == *old(self)
                },
            },
    ;

    /// Replace the value under `slot_id` in place. When the new bytes do not
    /// fit, the page is left unchanged and `None` is returned; no other
    /// slot's id or bytes ever change.
    fn update_value(&mut self, slot_id: SlotId, bytes: &[u8]) -> (r: Option<()>)
        requires
            old(self).hp_wf(),
        ensures
            final(self).hp_wf(),
            final(self).hp_id() == old(self).hp_id(),
            match r {
                Some(_) => {
                    &&& (slot_id as int) < old(self).hp_slots().len()
                    &&& old(self).hp_slots()[slot_id as int] is Some
                    &&& fits_update(old(self).hp_slots(), slot_id as int, bytes@.len())
                    &&& final(self).hp_slots() == old(self).hp_slots().update(
                        slot_id as int,
                        Some(bytes@),
                    )
                },
                None => {
                    &&& (slot_id as int >= old(self).hp_slots().len() || old(self).hp_slots()[slot_id as int] is None || !fits_update(
                        old(self).hp_slots(),
                        slot_id as int,
                        bytes@.len(),
                    ))
                    &&& *final(self) == *old(self)
                },
            },
    ;

    /// Current size of the page header: fixed metadata plus the slot
    /// directory.
    fn get_header_size(&self) -> (r: usize)
        requires
            self.hp_wf(),
        ensures
            r == HEAP_PAGE_HEADER_BASE + SLOT_METADATA_SIZE * self.hp_slots().len(),
    ;

    /// Total free space of the page, counting body space that compaction
    /// could reclaim.
    fn get_free_space(&self) -> (r: usize)
        requires
            self.hp_wf(),
        ensures
            r == spec_free_space_of(self.hp_slots()),
    ;

    /// An iterator over the live values of the page, in ascending slot-id
    /// order.
    fn iter(&self) -> (r: HeapPageIter)
        ensures
            r.next_slot == 0,
    ;
}

impl HeapPage for Page {
    open spec fn hp_slots(&self) -> Seq<Option<Seq<u8>>> {
        self.slots_view()
    }

    open spec fn hp_wf(&self) -> bool {
        self.wf()
    }

    open spec fn hp_id(&self) -> PageId {
        self.spec_page_id()
    }

    fn init_heap_page(&mut self) {
        self.slots = Vec::new();
        self.live = 0;
        proof {
            assert(self.slots_view() =~= Seq::<Option<Seq<u8>>>::empty());
        }
    }

    #[verifier::loop_isolation(false)]
    fn add_value(&mut self, bytes: &[u8]) -> (r: Option<SlotId>) {
        let ghost s0 = self.slots_view();
        proof {
            lemma_lowest_free(s0);
        }
        let n = self.slots.len();
        // find the lowest vacant directory entry
        let mut i: usize = 0;
        while i < n && self.slots[i].is_some()
            invariant
                i <= n,
                n == self.slots@.len(),
                *self == *old(self),
                forall|j: int| 0 <= j < i ==> s0[j] is Some,
            decreases n - i,
        {
            assert(s0[i as int] is Some);
            i += 1;
        }
        proof {
            // exiting below `n` means the entry there is vacant
            if i < n {
                assert(s0[i as int] is None);
            }
            assert(i as int == lowest_free(s0));
        }
        let vlen = bytes.len();
        if vlen > PAGE_SIZE {
            return None;
        }
        let dir_bytes = HEAP_PAGE_HEADER_BASE + SLOT_METADATA_SIZE * n;
        let free = PAGE_SIZE - dir_bytes - self.live;
        assert(free == spec_free_space_of(s0));
        let need = if i == n {
            vlen + SLOT_METADATA_SIZE
        } else {
            vlen
        };
        if need > free {
            return None;
        }
        let v = vstd::slice::slice_to_vec(bytes);
        if i == n {
            self.slots.push(Some(v));
            proof {
                assert(self.slots_view() =~= s0.push(Some(bytes@)));
                lemma_live_space_push(s0, Some(bytes@));
            }
        } else {
            let entry = &mut self.slots[i];
            *entry = Some(v);
            proof {
                assert(self.slots_view() =~= s0.update(i as int, Some(bytes@)));
                lemma_live_space_update(s0, i as int, Some(bytes@));
            }
        }
        self.live = self.live + vlen;
        Some(i as SlotId)
    }

    fn get_value(&self, slot_id: SlotId) -> (r: Option<&[u8]>) {
        let idx = slot_id as usize;
        if idx >= self.slots.len() {
            return None;
        }
        match &self.slots[idx] {
            Some(v) => Some(v.as_slice()),
            None => None,
        }
    }

    fn delete_value(&mut self, slot_id: SlotId) -> (r: Option<()>) {
        let ghost s0 = self.slots_view();
        let idx = slot_id as usize;
        if idx >= self.slots.len() {
            return None;
        }
        let vlen: usize;
        match &self.slots[idx] {
            Some(v) => {
                vlen = v.len();
            },
            None => {
                return None;
            },
        }
        proof {
            lemma_live_space_ge_slot(s0, idx as int);
            lemma_live_space_update(s0, idx as int, None);
        }
        self.live = self.live - vlen;
        let entry = &mut self.slots[idx];
        *entry = None;
        proof {
            assert(self.slots_view() =~= s0.update(idx as int, None));
        }
        Some(())
    }

    fn update_value(&mut self, slot_id: SlotId, bytes: &[u8]) -> (r: Option<()>) {
        let ghost s0 = self.slots_view();
        let idx = slot_id as usize;
        if idx >= self.slots.len() {
            return None;
        }
        let old_len: usize;
        match &self.slots[idx] {
            Some(v) => {
                old_len = v.len();
            },
            None => {
                return None;
            },
        }
        proof {
            lemma_live_space_ge_slot(s0, idx as int);
        }
        let vlen = bytes.len();
        if vlen > PAGE_SIZE {
            return None;
        }
        let dir_bytes = HEAP_PAGE_HEADER_BASE + SLOT_METADATA_SIZE * self.slots.len();
        let free = PAGE_SIZE - dir_bytes - self.live;
        assert(free == spec_free_space_of(s0));
        if vlen > free + old_len {
            return None;
        }
        proof {
            lemma_live_space_update(s0, idx as int, Some(bytes@));
        }
        self.live = self.live - old_len + vlen;
        let v = vstd::slice::slice_to_vec(bytes);
        let entry = &mut self.slots[idx];
        *entry = Some(v);
        proof {
            assert(self.slots_view() =~= s0.update(idx as int, Some(bytes@)));
        }
        Some(())
    }

    fn get_header_size(&self) -> (r: usize) {
        HEAP_PAGE_HEADER_BASE + SLOT_METADATA_SIZE * self.slots.len()
    }

    fn get_free_space(&self) -> (r: usize) {
        let dir_bytes = HEAP_PAGE_HEADER_BASE + SLOT_METADATA_SIZE * self.slots.len();
        PAGE_SIZE - dir_bytes - self.live
    }

    fn iter(&self) -> (r: HeapPageIter) {
        HeapPageIter { next_slot: 0 }
    }
}

/// Cursor over the live values of one page, yielding them in ascending
/// slot-id order and skipping deleted slots.
pub struct HeapPageIter {
    /// The lowest slot id not yet visited.
    pub next_slot: SlotId,
}

impl HeapPageIter {
    /// The next live value at or above the cursor, with its slot id, or
    /// `None` when no live slot remains.
    #[verifier::loop_isolation(false)]
    pub fn next(&mut self, page: &Page) -> (r: Option<(Vec<u8>, SlotId)>)
        requires
            page.hp_wf(),
        ensures
            match r {
                Some(p) => {
                    &&& old(self).next_slot <= p.1 < page.hp_slots().len()
                    &&& page.hp_slots()[p.1 as int] == Some(p.0@)
                    &&& forall|j: int|
                        old(self).next_slot <= j < p.1 as int ==> page.hp_slots()[j] is None
                    &&& final(self).next_slot == p.1 + 1
                },
                None => {
                    &&& forall|j: int|
                        old(self).next_slot <= j < page.hp_slots().len() ==> page.hp_slots()[j]
                            is None
                    &&& final(self).next_slot == old(self).next_slot
                },
            },
    {
        proof {
            page.lemma_space_invariant();
        }
        let n = page.slot_count();
        let mut i = self.next_slot as usize;
        while i < n
            invariant
                old(self).next_slot <= i,
                n == page.hp_slots().len(),
                n <= 1021,
                page.hp_wf(),
                *self == *old(self),
                forall|j: int| old(self).next_slot <= j < i ==> page.hp_slots()[j] is None,
            decreases n - i,
        {
            match page.get_value(i as SlotId) {
                Some(b) => {
                    let v = vstd::slice::slice_to_vec(b);
                    self.next_slot = (i as SlotId) + 1;
                    return Some((v, i as SlotId));
                },
                None => {
                    i += 1;
                },
            }
        }
        None
    }
}

/// The low byte of a 16-bit value, little-endian.
pub open spec fn le16_byte(v: u16, k: int) -> u8 {
    if k == 0 {
        (v % 256) as u8
    } else {
        (v / 256) as u8
    }
}

/// Byte `k` of a 32-bit value, little-endian.
pub open spec fn le32_byte(v: u32, k: int) -> u8 {
    if k == 0 {
        (v % 256) as u8
    } else if k == 1 {
        ((v / 256) % 256) as u8
    } else if k == 2 {
        ((v / 65536) % 256) as u8
    } else {
        ((v / 16777216) % 256) as u8
    }
}

/// The two little-endian bytes of a 16-bit value recover it.
pub proof fn lemma_le16_recover(v: u16)
    ensures
        le16_byte(v, 0) + 256 * (le16_byte(v, 1) as int) == v,
{
    vstd::arithmetic::div_mod::lemma_fundamental_div_mod(v as int, 256);
}

/// The four little-endian bytes of a 32-bit value recover it.
pub proof fn lemma_le32_recover(v: u32)
    ensures
        le32_byte(v, 0) + 256 * (le32_byte(v, 1) as int) + 65536 * (le32_byte(v, 2) as int)
            + 16777216 * (le32_byte(v, 3) as int) == v,
{
    vstd::arithmetic::div_mod::lemma_fundamental_div_mod(v as int, 256);
    vstd::arithmetic::div_mod::lemma_fundamental_div_mod(v as int / 256, 256);
    vstd::arithmetic::div_mod::lemma_fundamental_div_mod(v as int / 65536, 256);
    assert(v as int / 256 / 256 == v as int / 65536) by {
        vstd::arithmetic::div_mod::lemma_div_denominator(v as int, 256, 256);
    }
    assert(v as int / 65536 / 256 == v as int / 16777216) by {
        vstd::arithmetic::div_mod::lemma_div_denominator(v as int, 65536, 256);
    }
    assert(v as int / 16777216 < 256);
    assert(v as int / 16777216 % 256 == v as int / 16777216) by {
        vstd::arithmetic::div_mod::lemma_small_mod((v as int / 16777216) as nat, 256);
    }
}

/// The bytes of one slot: its value while live, nothing while vacant.
pub open spec fn slot_bytes(o: Option<Seq<u8>>) -> Seq<u8> {
    match o {
        Some(v) => v,
        None => Seq::empty(),
    }
}

/// Body bytes claimed by the slots below `i`.
pub open spec fn live_prefix(s: Seq<Option<Seq<u8>>>, i: int) -> nat {
    live_space(s.subrange(0, i))
}

/// One more slot claims its own length on top of the prefix.
pub proof fn lemma_live_prefix_step(s: Seq<Option<Seq<u8>>>, i: int)
    requires
        0 <= i < s.len(),
    ensures
        live_prefix(s, i + 1) == live_prefix(s, i) + slot_len(s[i]),
{
    assert(s.subrange(0, i + 1).drop_last() =~= s.subrange(0, i));
    assert(s.subrange(0, i + 1).last() == s[i]);
}

/// Prefixes grow toward the whole directory's live space.
pub proof fn lemma_live_prefix_le(s: Seq<Option<Seq<u8>>>, i: int, j: int)
    requires
        0 <= i <= j <= s.len(),
    ensures
        live_prefix(s, i) <= live_prefix(s, j),
        live_prefix(s, s.len() as int) == live_space(s),
    decreases j - i,
{
    assert(s.subrange(0, s.len() as int) =~= s);
    if i < j {
        lemma_live_prefix_step(s, i);
        lemma_live_prefix_le(s, i + 1, j);
    }
}

/// The body byte at offset `j`, owned by whichever live slot's range holds
/// it; 0 in the gap between the directory and the packed values.
pub open spec fn body_byte(s: Seq<Option<Seq<u8>>>, i: int, j: int) -> u8
    decreases s.len() - i,
{
    if i < 0 || i >= s.len() {
        0
    } else {
        let hi = PAGE_SIZE - live_prefix(s, i);
        let lo = PAGE_SIZE - live_prefix(s, i + 1);
        if s[i] is Some && lo <= j < hi {
            slot_bytes(s[i])[j - lo]
        } else {
            body_byte(s, i + 1, j)
        }
    }
}

/// Within a live slot's packed range, the body byte comes from that slot.
pub proof fn lemma_body_byte_owner(s: Seq<Option<Seq<u8>>>, i: int, j: int)
    requires
        0 <= i < s.len(),
        s[i] is Some,
        PAGE_SIZE - live_prefix(s, i + 1) <= j < PAGE_SIZE - live_prefix(s, i),
    ensures
        body_byte(s, 0, j) == slot_bytes(s[i])[j - (PAGE_SIZE - live_prefix(s, i + 1))],
{
    lemma_body_byte_owner_from(s, 0, i, j);
}

proof fn lemma_body_byte_owner_from(s: Seq<Option<Seq<u8>>>, k: int, i: int, j: int)
    requires
        0 <= k <= i < s.len(),
        s[i] is Some,
        PAGE_SIZE - live_prefix(s, i + 1) <= j < PAGE_SIZE - live_prefix(s, i),
    ensures
        body_byte(s, k, j) == slot_bytes(s[i])[j - (PAGE_SIZE - live_prefix(s, i + 1))],
    decreases i - k,
{
    if k < i {
        // slot `k` packs above slot `i`, so `j` lies below its range
        lemma_live_prefix_le(s, k + 1, i);
        lemma_live_prefix_le(s, i, i + 1);
        assert(j < PAGE_SIZE - live_prefix(s, k + 1));
        lemma_body_byte_owner_from(s, k + 1, i, j);
    } else {
        lemma_live_prefix_step(s, i);
    }
}

/// The directory entry bytes of slot `i`: a packed offset and a length for
/// a live slot, an all-ones offset and zero length for a vacant one.
pub open spec fn entry_byte(s: Seq<Option<Seq<u8>>>, i: int, k: int) -> u8 {
    let off: u16 = if s[i] is Some {
        (PAGE_SIZE - live_prefix(s, i + 1)) as u16
    } else {
        65535
    };
    let ln: u16 = slot_len(s[i]) as u16;
    if k == 0 {
        le16_byte(off, 0)
    } else if k == 1 {
        le16_byte(off, 1)
    } else if k == 2 {
        le16_byte(ln, 0)
    } else {
        le16_byte(ln, 1)
    }
}

/// Byte `j` of the page's on-disk form: the page id, the directory length,
/// the free-space pointer, reserved zeros, the slot directory, and the
/// value bodies packed from the tail in ascending slot order.
pub open spec fn page_byte(p: Page, j: int) -> u8 {
    let s = p.slots_view();
    if j < 4 {
        le32_byte(p.spec_page_id(), j)
    } else if j < 6 {
        le16_byte(s.len() as u16, j - 4)
    } else if j < 8 {
        le16_byte((PAGE_SIZE - live_space(s)) as u16, j - 6)
    } else if j < HEAP_PAGE_HEADER_BASE {
        0
    } else if j < HEAP_PAGE_HEADER_BASE + SLOT_METADATA_SIZE * s.len() {
        entry_byte(s, (j - HEAP_PAGE_HEADER_BASE) / 4, (j - HEAP_PAGE_HEADER_BASE) % 4)
    } else {
        body_byte(s, 0, j)
    }
}

/// The full 4096-byte on-disk form of a page.
pub open spec fn spec_page_bytes(p: Page) -> Seq<u8> {
    Seq::new(PAGE_SIZE as nat, |j: int| page_byte(p, j))
}

/// The on-disk form depends only on the page id and the slot directory.
pub proof fn lemma_page_bytes_of_views(p: Page, q: Page)
    requires
        q.spec_page_id() == p.spec_page_id(),
        q.slots_view() == p.slots_view(),
    ensures
        spec_page_bytes(q) == spec_page_bytes(p),
{
    assert(spec_page_bytes(q) =~= spec_page_bytes(p));
}

/// Append the two little-endian bytes of a 16-bit value.
fn push_u16_le(out: &mut Vec<u8>, v: u16)
    ensures
        final(out)@ == old(out)@.push(le16_byte(v, 0)).push(le16_byte(v, 1)),
{
    out.push((v % 256) as u8);
    out.push((v / 256) as u8);
}

/// Append the four little-endian bytes of a 32-bit value.
fn push_u32_le(out: &mut Vec<u8>, v: u32)
    ensures
        final(out)@ == old(out)@.push(le32_byte(v, 0)).push(le32_byte(v, 1)).push(
            le32_byte(v, 2),
        ).push(le32_byte(v, 3)),
{
    out.push((v % 256) as u8);
    out.push(((v / 256) % 256) as u8);
    out.push(((v / 65536) % 256) as u8);
    out.push(((v / 16777216) % 256) as u8);
}

/// Read a 16-bit little-endian value.
fn read_u16_le(b: &[u8], off: usize) -> (r: u16)
    requires
        off + 2 <= b@.len(),
        b@.len() <= PAGE_SIZE,
    ensures
        r == b@[off as int] + 256 * (b@[off as int + 1] as int),
{
    let lo = *vstd::slice::slice_index_get(b, off);
    let hi = *vstd::slice::slice_index_get(b, off + 1);
    (lo as u16) + 256 * (hi as u16)
}

/// Read a 32-bit little-endian value.
fn read_u32_le(b: &[u8], off: usize) -> (r: u32)
    requires
        off + 4 <= b@.len(),
        b@.len() <= PAGE_SIZE,
    ensures
        r == b@[off as int] + 256 * (b@[off as int + 1] as int) + 65536 * (b@[off as int
            + 2] as int) + 16777216 * (b@[off as int + 3] as int),
{
    let b0 = *vstd::slice::slice_index_get(b, off);
    let b1 = *vstd::slice::slice_index_get(b, off + 1);
    let b2 = *vstd::slice::slice_index_get(b, off + 2);
    let b3 = *vstd::slice::slice_index_get(b, off + 3);
    (b0 as u32) + 256 * (b1 as u32) + 65536 * (b2 as u32) + 16777216 * (b3 as u32)
}

impl Page {
    /// Serialize the page into its 4096-byte on-disk form.
    #[verifier::loop_isolation(false)]
    #[verifier::rlimit(30)]
    pub fn to_bytes(&self) -> (r: Vec<u8>)
        requires
            self.wf(),
        ensures
            r@ == spec_page_bytes(*self),
            r@.len() == PAGE_SIZE,
    {
        proof {
            self.lemma_space_invariant();
        }
        let ghost s = self.slots_view();
        let n = self.slots.len();
        let mut out: Vec<u8> = Vec::new();
        // fixed header: the owning page id
        push_u32_le(&mut out, self.page_id);
        // heap metadata: directory length, free-space pointer, reserved
        push_u16_le(&mut out, n as u16);
        let free_ptr = PAGE_SIZE - self.live;
        push_u16_le(&mut out, free_ptr as u16);
        out.push(0);
        out.push(0);
        out.push(0);
        out.push(0);
        proof {
            assert forall|j: int| 0 <= j < HEAP_PAGE_HEADER_BASE implies out@[j] == page_byte(
                *self,
                j,
            ) by {}
        }
        // the slot directory, with a running total of body bytes above
        let mut acc: usize = 0;
        let mut i: usize = 0;
        while i < n
            invariant
                i <= n,
                acc == live_prefix(s, i as int),
                acc <= live_space(s),
                out@.len() == HEAP_PAGE_HEADER_BASE + SLOT_METADATA_SIZE * i,
                forall|j: int| 0 <= j < out@.len() ==> out@[j] == page_byte(*self, j),
            decreases n - i,
        {
            proof {
                lemma_live_prefix_step(s, i as int);
                lemma_live_prefix_le(s, i as int + 1, n as int);
            }
            let ghost out_pre = out@;
            match &self.slots[i] {
                Some(v) => {
                    let new_acc = acc + v.len();
                    let off = PAGE_SIZE - new_acc;
                    push_u16_le(&mut out, off as u16);
                    push_u16_le(&mut out, v.len() as u16);
                    acc = new_acc;
                },
                None => {
                    push_u16_le(&mut out, 65535);
                    push_u16_le(&mut out, 0);
                },
            }
            proof {
                assert forall|j: int| 0 <= j < out@.len() implies out@[j] == page_byte(
                    *self,
                    j,
                ) by {
                    if j < out_pre.len() {
                        assert(out@[j] == out_pre[j]);
                    } else {
                        let k = j - (HEAP_PAGE_HEADER_BASE + SLOT_METADATA_SIZE * i);
                        vstd::arithmetic::div_mod::lemma_fundamental_div_mod_converse_div(
                            j - HEAP_PAGE_HEADER_BASE,
                            4,
                            i as int,
                            k,
                        );
                        vstd::arithmetic::div_mod::lemma_fundamental_div_mod_converse_mod(
                            j - HEAP_PAGE_HEADER_BASE,
                            4,
                            i as int,
                            k,
                        );
                        assert(out@[j] == entry_byte(s, i as int, k));
                    }
                }
            }
            i += 1;
        }
        // the gap between the directory and the packed bodies
        while out.len() < free_ptr
            invariant
                out@.len() >= HEAP_PAGE_HEADER_BASE + SLOT_METADATA_SIZE * n,
                out@.len() <= free_ptr,
                forall|j: int| 0 <= j < out@.len() ==> out@[j] == page_byte(*self, j),
            decreases free_ptr - out@.len(),
        {
            proof {
                let j = out@.len() as int;
                lemma_body_byte_gap(s, 0, j);
            }
            out.push(0);
        }
        // value bodies, packed from the tail in ascending slot order: the
        // last slot's bytes come first
        proof {
            lemma_live_prefix_le(s, 0, n as int);
        }
        let mut back: usize = n;
        while back > 0
            invariant
                back <= n,
                out@.len() == PAGE_SIZE - live_prefix(s, back as int),
                forall|j: int| 0 <= j < out@.len() ==> out@[j] == page_byte(*self, j),
            decreases back,
        {
            back = back - 1;
            proof {
                lemma_live_prefix_step(s, back as int);
                lemma_live_prefix_le(s, back as int + 1, n as int);
            }
            match &self.slots[back] {
                Some(v) => {
                    let m = v.len();
                    let mut k: usize = 0;
                    while k < m
                        invariant
                            k <= m,
                            out@.len() == PAGE_SIZE - live_prefix(s, back as int + 1) + k,
                            forall|j: int| 0 <= j < out@.len() ==> out@[j] == page_byte(*self, j),
                        decreases m - k,
                    {
                        proof {
                            let j = out@.len() as int;
                            lemma_body_byte_owner(s, back as int, j);
                        }
                        out.push(v[k]);
                        k += 1;
                    }
                },
                None => {},
            }
        }
        proof {
            lemma_live_prefix_le(s, 0, 0);
            assert(live_prefix(s, 0) == 0) by {
                assert(s.subrange(0, 0) =~= Seq::<Option<Seq<u8>>>::empty());
            }
            assert(out@ =~= spec_page_bytes(*self));
        }
        out
    }

    /// Parse a 4096-byte on-disk form back into a page. Bytes that any
    /// well-formed page serializes to parse back to that page: same id,
    /// same directory, slot for slot.
    #[verifier::loop_isolation(false)]
    #[verifier::rlimit(30)]
    pub fn from_bytes(b: &[u8]) -> (r: Option<Page>)
        ensures
            match r {
                Some(q) => q.wf(),
                None => true,
            },
            (exists|p: Page| p.wf() && b@ == #[trigger] spec_page_bytes(p)) ==> r is Some && b@
                == spec_page_bytes(r.unwrap()),
    {
        let ghost good: bool = exists|p: Page| p.wf() && b@ == #[trigger] spec_page_bytes(p);
        let ghost gp: Page = choose|p: Page| p.wf() && b@ == #[trigger] spec_page_bytes(p);
        let ghost s = gp.slots_view();
        proof {
            if good {
                gp.lemma_space_invariant();
                lemma_le32_recover(gp.spec_page_id());
                lemma_le16_recover(s.len() as u16);
            }
        }
        if b.len() != PAGE_SIZE {
            proof {
                assert(!good);
            }
            return None;
        }
        let page_id = read_u32_le(b, 0);
        let dir_len = read_u16_le(b, 4) as usize;
        if dir_len > (PAGE_SIZE - HEAP_PAGE_HEADER_BASE) / SLOT_METADATA_SIZE {
            proof {
                assert(!good);
            }
            return None;
        }
        let mut slots: Vec<Option<Vec<u8>>> = Vec::new();
        let mut live: usize = 0;
        let mut i: usize = 0;
        while i < dir_len
            invariant
                i <= dir_len,
                dir_len <= (PAGE_SIZE - HEAP_PAGE_HEADER_BASE) / (SLOT_METADATA_SIZE as int),
                b@.len() == PAGE_SIZE,
                slots@.len() == i,
                live <= PAGE_SIZE,
                live == live_space(Seq::new(slots@.len(), |j: int| view_of_slot(slots@[j]))),
                good ==> {
                    &&& dir_len == s.len()
                    &&& live == live_prefix(s, i as int)
                    &&& forall|j: int| 0 <= j < i ==> #[trigger] view_of_slot(slots@[j]) == s[j]
                },
            decreases dir_len - i,
        {
            let ghost pre_views = Seq::new(slots@.len(), |j: int| view_of_slot(slots@[j]));
            proof {
                vstd::arithmetic::div_mod::lemma_fundamental_div_mod_converse_div(
                    SLOT_METADATA_SIZE * i,
                    4,
                    i as int,
                    0,
                );
                vstd::arithmetic::div_mod::lemma_fundamental_div_mod_converse_mod(
                    SLOT_METADATA_SIZE * i,
                    4,
                    i as int,
                    0,
                );
                vstd::arithmetic::div_mod::lemma_fundamental_div_mod_converse_div(
                    SLOT_METADATA_SIZE * i + 1,
                    4,
                    i as int,
                    1,
                );
                vstd::arithmetic::div_mod::lemma_fundamental_div_mod_converse_mod(
                    SLOT_METADATA_SIZE * i + 1,
                    4,
                    i as int,
                    1,
                );
                vstd::arithmetic::div_mod::lemma_fundamental_div_mod_converse_div(
                    SLOT_METADATA_SIZE * i + 2,
                    4,
                    i as int,
                    2,
                );
                vstd::arithmetic::div_mod::lemma_fundamental_div_mod_converse_mod(
                    SLOT_METADATA_SIZE * i + 2,
                    4,
                    i as int,
                    2,
                );
                vstd::arithmetic::div_mod::lemma_fundamental_div_mod_converse_div(
                    SLOT_METADATA_SIZE * i + 3,
                    4,
                    i as int,
                    3,
                );
                vstd::arithmetic::div_mod::lemma_fundamental_div_mod_converse_mod(
                    SLOT_METADATA_SIZE * i + 3,
                    4,
                    i as int,
                    3,
                );
                if good {
                    lemma_live_prefix_step(s, i as int);
                    lemma_live_prefix_le(s, i as int + 1, s.len() as int);
                    if s[i as int] is Some {
                        lemma_le16_recover((PAGE_SIZE - live_prefix(s, i as int + 1)) as u16);
                        lemma_le16_recover(slot_len(s[i as int]) as u16);
                    } else {
                        lemma_le16_recover(65535);
                        lemma_le16_recover(0);
                    }
                }
            }
            let base = HEAP_PAGE_HEADER_BASE + SLOT_METADATA_SIZE * i;
            let off = read_u16_le(b, base) as usize;
            let ln = read_u16_le(b, base + 2) as usize;
            if off == 65535 {
                if ln != 0 {
                    proof {
                        assert(!good);
                    }
                    return None;
                }
                slots.push(None);
                proof {
                    assert(Seq::new(slots@.len(), |j: int| view_of_slot(slots@[j])) =~= pre_views.push(
                        None,
                    ));
                    lemma_live_space_push(pre_views, None);
                }
            } else {
                if off > PAGE_SIZE || ln > PAGE_SIZE - off {
                    proof {
                        assert(!good);
                    }
                    return None;
                }
                if live > PAGE_SIZE - ln {
                    proof {
                        assert(!good);
                    }
                    return None;
                }
                let val = vstd::slice::slice_to_vec(vstd::slice::slice_subrange(b, off, off + ln));
                proof {
                    if good {
                        assert forall|k: int| 0 <= k < ln implies val@[k] == slot_bytes(
                            s[i as int],
                        )[k] by {
                            let lo = PAGE_SIZE - live_prefix(s, i as int + 1);
                            lemma_body_byte_owner(s, i as int, lo + k);
                            assert(b@[lo + k] == page_byte(gp, lo + k));
                        }
                        assert(val@ =~= slot_bytes(s[i as int]));
                    }
                }
                let ghost val_view = val@;
                slots.push(Some(val));
                proof {
                    assert(Seq::new(slots@.len(), |j: int| view_of_slot(slots@[j])) =~= pre_views.push(
                        Some(val_view),
                    ));
                    lemma_live_space_push(pre_views, Some(val_view));
                }
                live = live + ln;
            }
            i += 1;
            proof {
                if good {
                    assert forall|j: int| 0 <= j < i implies #[trigger] view_of_slot(slots@[j])
                        == s[j] by {
                        if j < i - 1 {
                            assert(slots@[j] == slots@.subrange(0, i - 1)[j]);
                        }
                    }
                }
            }
        }
        // the parsed directory must respect the page size invariant
        let dir_bytes = HEAP_PAGE_HEADER_BASE + SLOT_METADATA_SIZE * dir_len;
        if live > PAGE_SIZE - dir_bytes {
            proof {
                if good {
                    lemma_live_prefix_le(s, dir_len as int, s.len() as int);
                }
                assert(!good);
            }
            return None;
        }
        let q = Page { page_id, slots, live };
        proof {
            assert(q.slots_view() =~= Seq::new(q.slots@.len(), |j: int| view_of_slot(q.slots@[j])));
            assert(q.wf());
            if good {
                lemma_le32_recover(gp.spec_page_id());
                assert(q.slots_view() =~= s);
                assert(q.spec_page_id() == gp.spec_page_id());
                lemma_page_bytes_of_views(gp, q);
            }
        }
        Some(q)
    }
}

/// The abstract content of one parsed slot.
pub open spec fn view_of_slot(o: Option<Vec<u8>>) -> Option<Seq<u8>> {
    match o {
        Some(v) => Some(v@),
        None => None,
    }
}

/// Body bytes below the free-space pointer belong to no slot.
pub proof fn lemma_body_byte_gap(s: Seq<Option<Seq<u8>>>, i: int, j: int)
    requires
        0 <= i <= s.len(),
        j < PAGE_SIZE - live_space(s),
    ensures
        body_byte(s, i, j) == 0,
    decreases s.len() - i,
{
    if i < s.len() {
        lemma_live_prefix_le(s, i + 1, s.len() as int);
        lemma_body_byte_gap(s, i + 1, j);
    }
}

/// Law: after an insert chose slot `sid` for `bytes`, the slot reads back
/// exactly the inserted bytes, and keeps them across any operation that
/// rewrites a different slot.
pub proof fn lemma_inserted_value_survives(
    s0: Seq<Option<Seq<u8>>>,
    bytes: Seq<u8>,
    sid: int,
    s1: Seq<Option<Seq<u8>>>,
    s2: Seq<Option<Seq<u8>>>,
    other: int,
    x: Option<Seq<u8>>,
)
    requires
        sid == lowest_free(s0),
        s1 == if sid < s0.len() {
            s0.update(sid, Some(bytes))
        } else {
            s0.push(Some(bytes))
        },
        other != sid,
        0 <= other < s1.len(),
        s2 == s1.update(other, x),
    ensures
        s1[sid] == Some(bytes),
        s2[sid] == Some(bytes),
{
    lemma_lowest_free(s0);
}

/// Law: an insert never chooses a slot id that is live on the page, so the
/// ids of values live together are all distinct.
pub proof fn lemma_insert_id_not_live(s: Seq<Option<Seq<u8>>>, sid: int)
    requires
        0 <= sid < s.len(),
        s[sid] is Some,
    ensures
        lowest_free(s) != sid,
{
    lemma_lowest_free(s);
}

} // verus!
