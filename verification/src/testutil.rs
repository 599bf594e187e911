//! Benchmark workloads over a single heap page.

use crate::heap_page::HeapPage;
use crate::heap_page::Page;
use crate::ids::SlotId;
use vstd::prelude::*;

verus! {

use crate::PAGE_SIZE;
use crate::heap_page::{
    HEAP_PAGE_HEADER_BASE, SLOT_METADATA_SIZE, lemma_lowest_free, live_space, lowest_free,
};

/// The page bytes a batch of values will claim: each value's bytes plus
/// one directory entry.
pub open spec fn batch_size(vals: Seq<Seq<u8>>) -> nat
    decreases vals.len(),
{
    if vals.len() == 0 {
        0
    } else {
        (batch_size(vals.drop_last()) + vals.last().len() + SLOT_METADATA_SIZE) as nat
    }
}

/// Every prefix of a batch claims at most what the whole batch claims.
proof fn lemma_batch_size_prefix(vals: Seq<Seq<u8>>, k: int)
    requires
        0 <= k <= vals.len(),
    ensures
        batch_size(vals.subrange(0, k)) <= batch_size(vals),
        k < vals.len() ==> batch_size(vals.subrange(0, k + 1)) == batch_size(
            vals.subrange(0, k),
        ) + vals[k].len() + SLOT_METADATA_SIZE,
    decreases vals.len() - k,
{
    if k == vals.len() {
        assert(vals.subrange(0, k) =~= vals);
    } else {
        assert(vals.subrange(0, k + 1).drop_last() =~= vals.subrange(0, k));
        assert(vals.subrange(0, k + 1).last() == vals[k]);
        lemma_batch_size_prefix(vals, k + 1);
    }
}

/// A directory whose slots are all live has no id to reuse.
proof fn lemma_lowest_free_all_live(s: Seq<Option<Seq<u8>>>)
    requires
        forall|j: int| 0 <= j < s.len() ==> s[j] is Some,
    ensures
        lowest_free(s) == s.len(),
{
    lemma_lowest_free(s);
    if lowest_free(s) < s.len() {
        assert(s[lowest_free(s)] is Some);
    }
}

/// Fill one fresh page with a batch of values, slot by slot. The batch
/// must fit in the page, so every insert succeeds.
#[verifier::loop_isolation(false)]
pub fn bench_page_insert(vals: &[Vec<u8>])
    requires
        batch_size(vals@.map_values(|v: Vec<u8>| v@)) + HEAP_PAGE_HEADER_BASE <= PAGE_SIZE,
{
    let ghost views = vals@.map_values(|v: Vec<u8>| v@);
    let mut p = Page::new(0);
    let n = vals.len();
    let mut i: usize = 0;
    while i < n
        invariant
            i <= n,
            p.wf(),
            p.slots_view().len() == i,
            forall|j: int| 0 <= j < i ==> p.slots_view()[j] == Some(views[j]),
            live_space(p.slots_view()) + SLOT_METADATA_SIZE * i == batch_size(
                views.subrange(0, i as int),
            ),
        decreases n - i,
    {
        proof {
            lemma_lowest_free_all_live(p.slots_view());
            lemma_batch_size_prefix(views, i as int);
            lemma_batch_size_prefix(views, i as int + 1);
            assert(views[i as int] == vals@[i as int]@);
        }
        let ghost pre = p.slots_view();
        let r = p.add_value(vstd::slice::slice_index_get(vals, i).as_slice());
        proof {
            assert(r is Some);
            crate::heap_page::lemma_live_space_push(pre, Some(views[i as int]));
        }
        i += 1;
    }
}

/// One operation of a mixed page workload.
pub enum BenchOp {
    /// Insert a value.
    Insert(Vec<u8>),
    /// Delete the slot.
    DeleteSlot(SlotId),
    /// Rewrite the slot in place.
    UpdateSlot(SlotId, Vec<u8>),
    /// Read the slot.
    ReadSlot(SlotId),
    /// Find a value address from an offset and delete it.
    DeleteValId(usize),
    /// Find a value address from an offset and read it.
    ReadValId(usize),
    /// Find a value address from an offset and rewrite it.
    UpdateValId(usize, Vec<u8>),
    /// Walk every live value of the page.
    Scan,
}

/// Whether a single page can serve the operation directly.
pub open spec fn page_op(op: BenchOp) -> bool {
    match op {
        BenchOp::DeleteValId(_) => false,
        BenchOp::ReadValId(_) => false,
        BenchOp::UpdateValId(_, _) => false,
        _ => true,
    }
}

/// Run a mixed workload against one page, dropping the results. Inserts
/// and updates that do not fit are skipped, as any insert may be. Value-id
/// operations address the heap file, not a single page, and are not
/// accepted here.
pub fn bench_page_mixed(workload: &Vec<BenchOp>)
    requires
        forall|i: int| 0 <= i < workload@.len() ==> page_op(#[trigger] workload@[i]),
{
    let mut p = Page::new(23500);
    p.init_heap_page();
    let n = workload.len();
    let mut i: usize = 0;
    while i < n
        invariant
            i <= n,
            p.wf(),
            n == workload@.len(),
            forall|k: int| 0 <= k < workload@.len() ==> page_op(#[trigger] workload@[k]),
        decreases n - i,
    {
        match &workload[i] {
            BenchOp::Insert(v) => {
                let _ = p.add_value(v.as_slice());
            },
            BenchOp::DeleteSlot(sid) => {
                let _ = p.delete_value(*sid);
            },
            BenchOp::UpdateSlot(sid, v) => {
                let _ = p.update_value(*sid, v.as_slice());
            },
            BenchOp::ReadSlot(sid) => {
                let _ = p.get_value(*sid);
            },
            BenchOp::Scan => {
                let mut it = p.iter();
                loop
                    invariant
                        p.wf(),
                    decreases p.slots_view().len() + 1 - it.next_slot,
                {
                    proof {
                        p.lemma_space_invariant();
                    }
                    match it.next(&p) {
                        Some(_) => {},
                        None => {
                            break ;
                        },
                    }
                }
            },
            BenchOp::DeleteValId(_) => {
                proof {
                    assert(false);
                }
            },
            BenchOp::ReadValId(_) => {
                proof {
                    assert(false);
                }
            },
            BenchOp::UpdateValId(_, _) => {
                proof {
                    assert(false);
                }
            },
        }
        i += 1;
    }
}

} // verus!
