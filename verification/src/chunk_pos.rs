//! Chunk positions and the integer keys under which maps store them.

use vstd::prelude::*;
use crate::chunk_view_lut::cheb;

verus! {

/// A chunk column position.
#[derive(Clone, Copy, PartialEq, Eq, Structural, Debug, Hash)]
pub struct ChunkPos {
    pub x: i32,
    pub y: i32,
}

impl ChunkPos {
    pub fn new(x: i32, y: i32) -> (p: ChunkPos)
        ensures
            p.x == x,
            p.y == y,
    {
        ChunkPos { x, y }
    }

    /// The position shifted by `(dx, dy)`.
    pub fn add_raw(self, dx: i32, dy: i32) -> (p: ChunkPos)
        requires
            i32::MIN <= self.x + dx <= i32::MAX,
            i32::MIN <= self.y + dy <= i32::MAX,
        ensures
            p.x == self.x + dx,
            p.y == self.y + dy,
    {
        ChunkPos { x: self.x + dx, y: self.y + dy }
    }
}

/// Chebyshev distance between two positions.
pub open spec fn dist(a: ChunkPos, b: ChunkPos) -> int {
    cheb(a.x - b.x, a.y - b.y)
}

/// The map key of a position: `x` in the high half, `y` in the low half.
pub open spec fn pos_key(p: ChunkPos) -> u64 {
    ((p.x as u32) as u64) << 32u64 | ((p.y as u32) as u64)
}

/// The position of a map key.
pub open spec fn key_pos(k: u64) -> ChunkPos {
    ChunkPos { x: ((k >> 32u64) as u32) as i32, y: (k as u32) as i32 }
}

pub broadcast proof fn lemma_key_pos_of_key(p: ChunkPos)
    ensures
        key_pos(#[trigger] pos_key(p)) == p,
{
    let x = p.x;
    let y = p.y;
    assert((((((x as u32) as u64) << 32u64 | ((y as u32) as u64)) >> 32u64) as u32) as i32 == x)
        by (bit_vector);
    assert(((((x as u32) as u64) << 32u64 | ((y as u32) as u64)) as u32) as i32 == y)
        by (bit_vector);
}

pub broadcast proof fn lemma_key_of_key_pos(k: u64)
    ensures
        pos_key(#[trigger] key_pos(k)) == k,
{
    assert(((((((k >> 32u64) as u32) as i32) as u32) as u64) << 32u64 | ((((k as u32) as i32)
        as u32) as u64)) == k) by (bit_vector);
}

pub broadcast group group_pos_key {
    lemma_key_pos_of_key,
    lemma_key_of_key_pos,
}

pub fn key_of(p: ChunkPos) -> (k: u64)
    ensures
        k == pos_key(p),
{
    ((p.x as u32) as u64) << 32u64 | ((p.y as u32) as u64)
}

pub fn pos_of(k: u64) -> (p: ChunkPos)
    ensures
        p == key_pos(k),
{
    ChunkPos { x: ((k >> 32u64) as u32) as i32, y: (k as u32) as i32 }
}

} // verus!
