//! Block headers as they stand in `headers` messages.

use crate::codec::{
    array_32, compact_size_at, compact_size_bytes, read_bytes, read_compact_size, read_i32_le,
    read_u32_le, reads, scan_bytes, scan_i32_le, scan_u32_le, write_compact_size, Scan,
};
use vstd::prelude::*;

verus! {

/// A count that is written as a compact size.
#[derive(Debug, Clone, Copy, PartialEq, Eq, Structural)]
pub struct VarInt {
    pub value: u64,
}

impl View for VarInt {
    type V = VarInt;

    open spec fn view(&self) -> VarInt {
        *self
    }
}

impl VarInt {
    /// The count `value`.
    pub fn new(value: u64) -> (r: VarInt)
        ensures
            r.value == value,
    {
        VarInt { value }
    }

    /// The bytes of the count: its shortest compact-size form.
    pub fn encode(&self) -> (out: Vec<u8>)
        ensures
            out@ == compact_size_bytes(self.value),
    {
        write_compact_size(self.value)
    }
}

/// A block header, with the transaction count that follows it on the wire.
#[derive(Debug, Clone, Copy, PartialEq, Eq)]
pub struct BlockHeader {
    pub version: i32,
    pub prev_block: [u8; 32],
    pub merkle_root: [u8; 32],
    pub timestamp: u32,
    pub bits: u32,
    pub nonce: u32,
    pub txn_count: VarInt,
}

/// What a block header says.
pub struct BlockHeaderView {
    pub version: i32,
    pub prev_block: Seq<u8>,
    pub merkle_root: Seq<u8>,
    pub timestamp: u32,
    pub bits: u32,
    pub nonce: u32,
    pub txn_count: u64,
}

impl View for BlockHeader {
    type V = BlockHeaderView;

    open spec fn view(&self) -> BlockHeaderView {
        BlockHeaderView {
            version: self.version,
            prev_block: self.prev_block@,
            merkle_root: self.merkle_root@,
            timestamp: self.timestamp,
            bits: self.bits,
            nonce: self.nonce,
            txn_count: self.txn_count.value,
        }
    }
}

/// The three `u32` fields that close a header, and the count after them.
pub open spec fn header_tail_at(
    s: Seq<u8>,
    at: int,
    version: i32,
    prev_block: Seq<u8>,
    merkle_root: Seq<u8>,
) -> Scan<BlockHeaderView> {
    match scan_u32_le(s, at) {
        Scan::Short { missing } => Scan::Short { missing },
        Scan::Item { value: timestamp, next: a1 } => match scan_u32_le(s, a1) {
            Scan::Short { missing } => Scan::Short { missing },
            Scan::Item { value: bits, next: a2 } => match scan_u32_le(s, a2) {
                Scan::Short { missing } => Scan::Short { missing },
                Scan::Item { value: nonce, next: a3 } => match compact_size_at(s, a3) {
                    Scan::Short { missing } => Scan::Short { missing },
                    Scan::Item { value: txn_count, next: a4 } => Scan::Item {
                        value: BlockHeaderView {
                            version,
                            prev_block,
                            merkle_root,
                            timestamp,
                            bits,
                            nonce,
                            txn_count,
                        },
                        next: a4,
                    },
                },
            },
        },
    }
}

/// A header on the wire: version, previous block, merkle root, timestamp,
/// bits, nonce, and a compact-size transaction count, which is kept as read.
pub open spec fn block_header_at(s: Seq<u8>, at: int) -> Scan<BlockHeaderView> {
    match scan_i32_le(s, at) {
        Scan::Short { missing } => Scan::Short { missing },
        Scan::Item { value: version, next: a1 } => match scan_bytes(s, a1, 32) {
            Scan::Short { missing } => Scan::Short { missing },
            Scan::Item { value: prev_block, next: a2 } => match scan_bytes(s, a2, 32) {
                Scan::Short { missing } => Scan::Short { missing },
                Scan::Item { value: merkle_root, next: a3 } => header_tail_at(
                    s,
                    a3,
                    version,
                    prev_block,
                    merkle_root,
                ),
            },
        },
    }
}

/// The reader of one block header, as a value.
pub open spec fn block_header_item() -> spec_fn(Seq<u8>, int) -> Scan<BlockHeaderView> {
    |s: Seq<u8>, at: int| block_header_at(s, at)
}

/// Reads one block header.
pub fn read_block_header(data: &[u8], at: usize) -> (r: Result<(BlockHeader, usize), u64>)
    requires
        at <= data@.len(),
    ensures
        reads(r, block_header_at(data@, at as int)),
        r matches Ok(got) ==> got.1 <= data@.len(),
{
    let (version, a1) = read_i32_le(data, at)?;
    let (prev_block, a2) = read_bytes(data, a1, 32)?;
    let (merkle_root, a3) = read_bytes(data, a2, 32)?;
    let (timestamp, a4) = read_u32_le(data, a3)?;
    let (bits, a5) = read_u32_le(data, a4)?;
    let (nonce, a6) = read_u32_le(data, a5)?;
    let (txn_count, a7) = read_compact_size(data, a6)?;
    Ok(
        (
            BlockHeader {
                version,
                prev_block: array_32(prev_block),
                merkle_root: array_32(merkle_root),
                timestamp,
                bits,
                nonce,
                txn_count: VarInt::new(txn_count),
            },
            a7,
        ),
    )
}

} // verus!
