//! The `inv` message: objects that the sender has.

use crate::codec::views;
use crate::inventory_vector::{InventoryVector, InventoryVectorView};
use vstd::prelude::*;

verus! {

/// An announcement of objects.
#[derive(Debug, Clone, PartialEq, Eq)]
pub struct InvMessage {
    pub inventory: Vec<InventoryVector>,
}

impl View for InvMessage {
    type V = Seq<InventoryVectorView>;

    open spec fn view(&self) -> Seq<InventoryVectorView> {
        views(self.inventory@)
    }
}

impl InvMessage {
    /// The room to set aside for the message's bytes: eight bytes and 36 for
    /// each inventory vector.
    #[inline]
    pub fn len(&self) -> (r: usize)
        requires
            8 + 36 * self.inventory@.len() <= usize::MAX,
        ensures
            r == 8 + 36 * self.inventory@.len(),
    {
        8 + (36 * self.inventory.len())
    }

    /// The command that carries this message.
    #[inline]
    pub fn name(&self) -> (r: &'static str)
        ensures
            r@ == "inv"@,
    {
        "inv"
    }
}

} // verus!
