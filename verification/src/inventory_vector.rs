//! Inventory vectors: a type and the hash of the object it announces.

use crate::codec::{array_32, read_bytes, read_u32_le, reads, scan_bytes, scan_u32_le, Scan};
use vstd::prelude::*;

verus! {

/// An inventory vector: 36 bytes on the wire.
#[derive(Debug, Clone, Copy, PartialEq, Eq)]
pub struct InventoryVector {
    pub flags: u32,
    pub hash: [u8; 32],
}

/// What an inventory vector says.
pub struct InventoryVectorView {
    pub flags: u32,
    pub hash: Seq<u8>,
}

impl View for InventoryVector {
    type V = InventoryVectorView;

    open spec fn view(&self) -> InventoryVectorView {
        InventoryVectorView { flags: self.flags, hash: self.hash@ }
    }
}

impl InventoryVector {
    /// An inventory vector of the given type for the object with the given
    /// 32-byte hash.
    pub fn new(flags: u32, hash: &[u8]) -> (r: InventoryVector)
        requires
            hash@.len() == 32,
        ensures
            r@ == (InventoryVectorView { flags, hash: hash@ }),
    {
        InventoryVector { flags, hash: array_32(hash) }
    }
}

/// An inventory vector on the wire: a `u32` type, then 32 bytes of hash.
pub open spec fn inv_vector_at(s: Seq<u8>, at: int) -> Scan<InventoryVectorView> {
    match scan_u32_le(s, at) {
        Scan::Short { missing } => Scan::Short { missing },
        Scan::Item { value: flags, next: a1 } => match scan_bytes(s, a1, 32) {
            Scan::Short { missing } => Scan::Short { missing },
            Scan::Item { value: hash, next: a2 } => Scan::Item {
                value: InventoryVectorView { flags, hash },
                next: a2,
            },
        },
    }
}

/// The reader of one inventory vector, as a value.
pub open spec fn inv_vector_item() -> spec_fn(Seq<u8>, int) -> Scan<InventoryVectorView> {
    |s: Seq<u8>, at: int| inv_vector_at(s, at)
}

/// Reads one inventory vector.
pub fn read_inv_vector(data: &[u8], at: usize) -> (r: Result<(InventoryVector, usize), u64>)
    requires
        at <= data@.len(),
    ensures
        reads(r, inv_vector_at(data@, at as int)),
        r matches Ok(got) ==> got.1 <= data@.len(),
{
    let (flags, a1) = read_u32_le(data, at)?;
    let (hash, a2) = read_bytes(data, a1, 32)?;
    Ok((InventoryVector::new(flags, hash), a2))
}

} // verus!
