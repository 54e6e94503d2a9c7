//! The superblock cache: read once at boot from block 1 and handed out
//! by copy afterwards. The cache is the caller's `Superblock` value.

use vstd::prelude::*;

use crate::layout::{superblock_at, Superblock, FSMAGIC};

verus! {

/// Fills the cache from the contents of block 1. A block without the
/// filesystem magic is no filesystem; the caller refuses it first.
pub fn init(cache: &mut Superblock, block: &[u8])
    requires
        block@.len() >= 32,
        superblock_at(block@).magic == FSMAGIC,
    ensures
        *final(cache) == superblock_at(block@),
{
    *cache = Superblock::decode(block);
}

/// The cached superblock.
pub fn get(cache: &Superblock) -> (r: Superblock)
    ensures
        r == *cache,
{
    *cache
}

} // verus!
