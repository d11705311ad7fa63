//! Proof-of-work contributed by a single block.
use crate::types::Block;
use vstd::prelude::*;

verus! {

/// The work credited to a block at the easiest possible target.
pub const MAX_BLOCK_WORK: u128 = 340282366920938463463374607431768211;

/// The work a block with the given compact target contributes: inversely
/// proportional to the target, with targets 0 and 1 credited the maximum.
pub open spec fn block_work(target: u32) -> u128 {
    if target <= 1 {
        MAX_BLOCK_WORK
    } else {
        (MAX_BLOCK_WORK / (target as u128)) as u128
    }
}

/// A block's contribution to the 64-bit total difficulty: its work,
/// saturating at the largest `u64`.
pub open spec fn block_difficulty(target: u32) -> u64 {
    if block_work(target) > u64::MAX {
        u64::MAX
    } else {
        block_work(target) as u64
    }
}

pub fn calculate_block_work(target: u32) -> (r: u128)
    ensures
        r == block_work(target),
{
    let safe_target: u128 = if target < 1 { 1 } else { target as u128 };
    if safe_target <= 1 {
        return MAX_BLOCK_WORK;
    }
    MAX_BLOCK_WORK / safe_target
}

/// The compact difficulty target a block declares.
pub fn extract_target_from_block(block: &Block) -> (r: u32)
    ensures
        r == block.target,
{
    block.target
}

/// A block's contribution to the total difficulty.
pub fn difficulty_of_block(block: &Block) -> (r: u64)
    ensures
        r == block_difficulty(block.target),
{
    let w = calculate_block_work(extract_target_from_block(block));
    if w > u64::MAX as u128 {
        u64::MAX
    } else {
        w as u64
    }
}

} // verus!
