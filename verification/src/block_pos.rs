//! Block positions and the six block faces.

use vstd::prelude::*;

verus! {

/// The six faces of a block, in registry order.
#[derive(Clone, Copy, PartialEq, Eq, Structural, Debug, Hash)]
pub enum BlockDirection {
    Down,
    Up,
    North,
    South,
    West,
    East,
}

/// The axis a direction runs along.
#[derive(Clone, Copy, PartialEq, Eq, Structural, Debug, Hash)]
pub enum Axis {
    X,
    Y,
    Z,
}

/// Unit offset `(dx, dy, dz)` of a direction: north is `-z`, west is `-x`.
pub open spec fn dir_offset(d: BlockDirection) -> (int, int, int) {
    match d {
        BlockDirection::Down => (0, -1, 0),
        BlockDirection::Up => (0, 1, 0),
        BlockDirection::North => (0, 0, -1),
        BlockDirection::South => (0, 0, 1),
        BlockDirection::West => (-1, 0, 0),
        BlockDirection::East => (1, 0, 0),
    }
}

/// Registry index of a direction.
pub open spec fn dir_index(d: BlockDirection) -> int {
    match d {
        BlockDirection::Down => 0,
        BlockDirection::Up => 1,
        BlockDirection::North => 2,
        BlockDirection::South => 3,
        BlockDirection::West => 4,
        BlockDirection::East => 5,
    }
}

/// The direction with a registry index.
pub open spec fn dir_at(i: int) -> BlockDirection {
    if i == 0 {
        BlockDirection::Down
    } else if i == 1 {
        BlockDirection::Up
    } else if i == 2 {
        BlockDirection::North
    } else if i == 3 {
        BlockDirection::South
    } else if i == 4 {
        BlockDirection::West
    } else {
        BlockDirection::East
    }
}

pub open spec fn dir_opposite(d: BlockDirection) -> BlockDirection {
    match d {
        BlockDirection::Down => BlockDirection::Up,
        BlockDirection::Up => BlockDirection::Down,
        BlockDirection::North => BlockDirection::South,
        BlockDirection::South => BlockDirection::North,
        BlockDirection::West => BlockDirection::East,
        BlockDirection::East => BlockDirection::West,
    }
}

pub open spec fn dir_axis(d: BlockDirection) -> Axis {
    match d {
        BlockDirection::Down | BlockDirection::Up => Axis::Y,
        BlockDirection::North | BlockDirection::South => Axis::Z,
        BlockDirection::West | BlockDirection::East => Axis::X,
    }
}

impl BlockDirection {
    /// All six directions, in registry order.
    pub fn all() -> (dirs: [BlockDirection; 6])
        ensures
            forall|i: int| 0 <= i < 6 ==> #[trigger] dirs@[i] == dir_at(i),
    {
        [
            BlockDirection::Down,
            BlockDirection::Up,
            BlockDirection::North,
            BlockDirection::South,
            BlockDirection::West,
            BlockDirection::East,
        ]
    }

    pub fn to_index(&self) -> (i: u8)
        ensures
            i == dir_index(*self),
    {
        match self {
            BlockDirection::Down => 0,
            BlockDirection::Up => 1,
            BlockDirection::North => 2,
            BlockDirection::South => 3,
            BlockDirection::West => 4,
            BlockDirection::East => 5,
        }
    }

    pub fn opposite(&self) -> (o: BlockDirection)
        ensures
            o == dir_opposite(*self),
    {
        match self {
            BlockDirection::Down => BlockDirection::Up,
            BlockDirection::Up => BlockDirection::Down,
            BlockDirection::North => BlockDirection::South,
            BlockDirection::South => BlockDirection::North,
            BlockDirection::West => BlockDirection::East,
            BlockDirection::East => BlockDirection::West,
        }
    }

    pub fn to_axis(&self) -> (a: Axis)
        ensures
            a == dir_axis(*self),
    {
        match self {
            BlockDirection::Down | BlockDirection::Up => Axis::Y,
            BlockDirection::North | BlockDirection::South => Axis::Z,
            BlockDirection::West | BlockDirection::East => Axis::X,
        }
    }

    /// The unit offset of this direction.
    pub fn to_offset(&self) -> (o: (i32, i32, i32))
        ensures
            o.0 == dir_offset(*self).0,
            o.1 == dir_offset(*self).1,
            o.2 == dir_offset(*self).2,
    {
        match self {
            BlockDirection::Down => (0, -1, 0),
            BlockDirection::Up => (0, 1, 0),
            BlockDirection::North => (0, 0, -1),
            BlockDirection::South => (0, 0, 1),
            BlockDirection::West => (-1, 0, 0),
            BlockDirection::East => (1, 0, 0),
        }
    }
}

/// A block position.
#[derive(Clone, Copy, PartialEq, Eq, Structural, Debug, Hash)]
pub struct BlockPos {
    pub x: i32,
    pub y: i32,
    pub z: i32,
}

/// Positions whose neighbours within `margin` on every axis stay within
/// the `i32` coordinate range.
pub open spec fn block_pos_fits(p: BlockPos, margin: int) -> bool {
    &&& i32::MIN + margin <= p.x <= i32::MAX - margin
    &&& i32::MIN + margin <= p.y <= i32::MAX - margin
    &&& i32::MIN + margin <= p.z <= i32::MAX - margin
}

/// `p` moved by `(dx, dy, dz)`.
pub open spec fn shifted(p: BlockPos, dx: int, dy: int, dz: int) -> BlockPos {
    BlockPos { x: (p.x + dx) as i32, y: (p.y + dy) as i32, z: (p.z + dz) as i32 }
}

/// The neighbour of `p` across face `d`.
pub open spec fn neighbour(p: BlockPos, d: BlockDirection) -> BlockPos {
    shifted(p, dir_offset(d).0, dir_offset(d).1, dir_offset(d).2)
}

impl BlockPos {
    pub fn new(x: i32, y: i32, z: i32) -> (p: BlockPos)
        ensures
            p == (BlockPos { x, y, z }),
    {
        BlockPos { x, y, z }
    }

    /// This position moved by `(dx, dy, dz)`.
    pub fn offset(&self, dx: i32, dy: i32, dz: i32) -> (p: BlockPos)
        requires
            i32::MIN <= self.x + dx <= i32::MAX,
            i32::MIN <= self.y + dy <= i32::MAX,
            i32::MIN <= self.z + dz <= i32::MAX,
        ensures
            p == shifted(*self, dx as int, dy as int, dz as int),
    {
        BlockPos { x: self.x + dx, y: self.y + dy, z: self.z + dz }
    }

    /// The neighbour across face `d`.
    pub fn offset_dir(&self, d: BlockDirection) -> (p: BlockPos)
        requires
            block_pos_fits(*self, 1),
        ensures
            p == neighbour(*self, d),
    {
        let (dx, dy, dz) = d.to_offset();
        self.offset(dx, dy, dz)
    }

    pub fn up(&self) -> (p: BlockPos)
        requires
            self.y < i32::MAX,
        ensures
            p == shifted(*self, 0, 1, 0),
    {
        BlockPos { x: self.x, y: self.y + 1, z: self.z }
    }

    pub fn down(&self) -> (p: BlockPos)
        requires
            self.y > i32::MIN,
        ensures
            p == shifted(*self, 0, -1, 0),
    {
        BlockPos { x: self.x, y: self.y - 1, z: self.z }
    }

    pub fn north(&self) -> (p: BlockPos)
        requires
            self.z > i32::MIN,
        ensures
            p == shifted(*self, 0, 0, -1),
    {
        BlockPos { x: self.x, y: self.y, z: self.z - 1 }
    }

    pub fn south(&self) -> (p: BlockPos)
        requires
            self.z < i32::MAX,
        ensures
            p == shifted(*self, 0, 0, 1),
    {
        BlockPos { x: self.x, y: self.y, z: self.z + 1 }
    }

    pub fn west(&self) -> (p: BlockPos)
        requires
            self.x > i32::MIN,
        ensures
            p == shifted(*self, -1, 0, 0),
    {
        BlockPos { x: self.x - 1, y: self.y, z: self.z }
    }

    pub fn east(&self) -> (p: BlockPos)
        requires
            self.x < i32::MAX,
        ensures
            p == shifted(*self, 1, 0, 0),
    {
        BlockPos { x: self.x + 1, y: self.y, z: self.z }
    }
}

/// The map key of a block position.
pub open spec fn block_key(p: BlockPos) -> u128 {
    ((p.x as u32) as u128) << 64u128 | ((p.y as u32) as u128) << 32u128 | ((p.z as u32) as u128)
}

pub broadcast proof fn lemma_block_key_injective(p: BlockPos, q: BlockPos)
    ensures
        #[trigger] block_key(p) == #[trigger] block_key(q) ==> p == q,
{
    let (a, b, c, d, e, f) = (p.x, p.y, p.z, q.x, q.y, q.z);
    assert(((a as u32) as u128) << 64u128 | ((b as u32) as u128) << 32u128 | ((c as u32) as u128) == ((d
        as u32) as u128) << 64u128 | ((e as u32) as u128) << 32u128 | ((f as u32) as u128) ==> a == d && b
        == e && c == f) by (bit_vector);
}

pub fn block_key_of(p: BlockPos) -> (k: u128)
    ensures
        k == block_key(p),
{
    ((p.x as u32) as u128) << 64u128 | ((p.y as u32) as u128) << 32u128 | ((p.z as u32) as u128)
}

} // verus!
