//! The `getdata` message: objects that the sender asks for.

use crate::codec::views;
use crate::inventory_vector::{InventoryVector, InventoryVectorView};
use vstd::prelude::*;

verus! {

/// A request for objects.
#[derive(Debug, Clone, PartialEq, Eq)]
pub struct GetdataMessage {
    pub inventory: Vec<InventoryVector>,
}

impl View for GetdataMessage {
    type V = Seq<InventoryVectorView>;

    open spec fn view(&self) -> Seq<InventoryVectorView> {
        views(self.inventory@)
    }
}

impl Default for GetdataMessage {
    fn default() -> (r: GetdataMessage)
        ensures
            r.inventory@.len() == 0,
    {
        GetdataMessage { inventory: Vec::new() }
    }
}

impl GetdataMessage {
    /// The room to set aside for the message's bytes: eight bytes and 36 for
    /// each inventory vector.
    #[inline]
    pub fn len(&self) -> (r: usize)
        requires
            8 + 36 * self.inventory@.len() <= usize::MAX,
        ensures
            r == 8 + 36 * self.inventory@.len(),
    {
        8 + (36 * self.inventory.len())
    }

    /// The command that carries this message.
    #[inline]
    pub fn name(&self) -> (r: &'static str)
        ensures
            r@ == "getdata"@,
    {
        "getdata"
    }
}

} // verus!
