//! Block files: a run of frames, each a magic tag, a length and that many
//! bytes of block, with zero padding allowed where a tag is expected.

use crate::codec::{lacks, le_u32_at, read_bytes, read_u32_le};
use vstd::prelude::*;

verus! {

/// The tag at the start of each block in a block file, read as a
/// little-endian `u32`.
pub const MAGIC: u32 = 0xD9B4BEF9;

/// What to do on a tag that was read where a block may begin.
#[derive(Debug, Clone, Copy, PartialEq, Eq, Structural)]
pub enum TagAction {
    /// Zero padding: read the next tag.
    Skip,
    /// A block follows: read its length, then the block.
    ReadBlock,
    /// Neither: the file is damaged.
    Fail,
}

/// What a tag calls for.
pub open spec fn action_for(tag: u32) -> TagAction {
    if tag == 0 {
        TagAction::Skip
    } else if tag == MAGIC {
        TagAction::ReadBlock
    } else {
        TagAction::Fail
    }
}

/// Decides what to do on a tag.
pub fn tag_action(tag: u32) -> (r: TagAction)
    ensures
        r == action_for(tag),
{
    if tag == 0 {
        TagAction::Skip
    } else if tag == MAGIC {
        TagAction::ReadBlock
    } else {
        TagAction::Fail
    }
}

/// What reading the next block from a position in a block file yields.
pub enum BlockSpan {
    /// A block: where its bytes begin and end.
    Block { start: int, end: int },
    /// No tag is left to read: the file ends here.
    End,
    /// A tag that is neither zero nor the magic.
    BadMagic,
    /// The length, or the block, is cut short.
    Truncated,
}

/// The next block at or after `at`. Zero tags are stepped over, four bytes
/// at a time.
pub open spec fn block_at(s: Seq<u8>, at: int) -> BlockSpan
    decreases s.len() - at,
{
    if at < 0 || lacks(s, at, 4) {
        BlockSpan::End
    } else {
        match action_for(le_u32_at(s, at)) {
            TagAction::Skip => block_at(s, at + 4),
            TagAction::Fail => BlockSpan::BadMagic,
            TagAction::ReadBlock => if lacks(s, at + 4, 4) || lacks(
                s,
                at + 8,
                le_u32_at(s, at + 4) as int,
            ) {
                BlockSpan::Truncated
            } else {
                BlockSpan::Block { start: at + 8, end: at + 8 + le_u32_at(s, at + 4) }
            },
        }
    }
}

/// What reading the next block yields: the block and the position after it,
/// the end of the file, or the reason why the file cannot be read on.
#[derive(Debug, Clone, Copy, PartialEq, Eq)]
pub enum BlockRead<'a> {
    Block(&'a [u8], usize),
    End,
    BadMagic,
    Truncated,
}

/// Reads the next block of a block file that is held in memory, from
/// position `at`.
pub fn read_block<'a>(data: &'a [u8], at: usize) -> (r: BlockRead<'a>)
    requires
        at <= data@.len(),
    ensures
        match block_at(data@, at as int) {
            BlockSpan::Block { start, end } => r matches BlockRead::Block(block, next) && block@
                == data@.subrange(start, end) && next == end && end <= data@.len(),
            BlockSpan::End => r == BlockRead::End,
            BlockSpan::BadMagic => r == BlockRead::BadMagic,
            BlockSpan::Truncated => r == BlockRead::Truncated,
        },
{
    let mut cur: usize = at;
    loop
        invariant
            cur <= data@.len(),
            block_at(data@, at as int) == block_at(data@, cur as int),
        decreases data@.len() - cur,
    {
        let (tag, after_tag) = match read_u32_le(data, cur) {
            Ok(got) => got,
            Err(_) => {
                return BlockRead::End;
            },
        };
        match tag_action(tag) {
            TagAction::Skip => {
                cur = after_tag;
            },
            TagAction::Fail => {
                return BlockRead::BadMagic;
            },
            TagAction::ReadBlock => {
                let (length, after_length) = match read_u32_le(data, after_tag) {
                    Ok(got) => got,
                    Err(_) => {
                        return BlockRead::Truncated;
                    },
                };
                return match read_bytes(data, after_length, length as u64) {
                    Ok((block, next)) => BlockRead::Block(block, next),
                    Err(_) => BlockRead::Truncated,
                };
            },
        }
    }
}

} // verus!
