//! Identifiers addressing stored values: containers, pages, slots.

use vstd::prelude::*;

verus! {

/// One logical heap file / table.
pub type ContainerId = u16;

/// Page ordinal within a container, starting at 0.
/// Page 0 is reserved as a header page; data pages begin at 1.
pub type PageId = u32;

/// Stable handle to a value inside a page.
pub type SlotId = u16;

/// Globally addresses one stored value.
#[derive(Clone, Copy, Debug, PartialEq, Eq, Structural)]
pub struct ValueId {
    pub container_id: ContainerId,
    pub page_id: PageId,
    pub slot_id: SlotId,
}

impl ValueId {
    /// Build the address of one slot.
    pub fn new_slot(container_id: ContainerId, page_id: PageId, slot_id: SlotId) -> (r: ValueId)
        ensures
            r == (ValueId { container_id, page_id, slot_id }),
    {
        ValueId { container_id, page_id, slot_id }
    }
}

} // verus!
