//! Integer block and chunk coordinates, and the six faces of a block.
use vstd::prelude::*;

verus! {

/// One of the six faces of a voxel.
#[derive(Clone, Copy, Debug, PartialEq, Eq, Structural)]
pub enum Face {
    XPos,
    XNeg,
    YPos,
    YNeg,
    ZPos,
    ZNeg,
}

/// The unit offset of a face, as a triple of integers.
pub open spec fn face_offset(f: Face) -> (int, int, int) {
    match f {
        Face::XPos => (1, 0, 0),
        Face::XNeg => (-1, 0, 0),
        Face::YPos => (0, 1, 0),
        Face::YNeg => (0, -1, 0),
        Face::ZPos => (0, 0, 1),
        Face::ZNeg => (0, 0, -1),
    }
}

/// The order in which the faces are enumerated.
pub open spec fn face_order() -> Seq<Face> {
    seq![Face::XNeg, Face::XPos, Face::YNeg, Face::YPos, Face::ZNeg, Face::ZPos]
}

impl Face {
    /// All six faces, in the order `XNeg, XPos, YNeg, YPos, ZNeg, ZPos`.
    pub fn iter_all() -> (r: Vec<Face>)
        ensures
            r@ == face_order(),
    {
        let r = vec![Face::XNeg, Face::XPos, Face::YNeg, Face::YPos, Face::ZNeg, Face::ZPos];
        assert(r@ =~= face_order());
        r
    }
}

/// The position of a block (a voxel), in blocks. Positions are ordered by
/// `x`, then `y`, then `z`.
#[derive(Clone, Copy, Debug, PartialEq, Eq, PartialOrd, Ord, Hash, Structural)]
pub struct BlockPos {
    pub x: i32,
    pub y: i32,
    pub z: i32,
}

/// The position of a chunk (16 x 16 x 16 blocks), in chunks. Positions are
/// ordered by `x`, then `y`, then `z`.
#[derive(Clone, Copy, Debug, PartialEq, Eq, PartialOrd, Ord, Hash, Structural)]
pub struct ChunkPos {
    pub x: i32,
    pub y: i32,
    pub z: i32,
}

/// Euclidean remainder of `v` by 16, always in `0..16`.
pub open spec fn sub16(v: int) -> int {
    v % 16
}

/// Absolute value of an integer.
pub open spec fn abs_int(v: int) -> int {
    if v < 0 { -v } else { v }
}

/// Euclidean remainder by 16 of an `i32`, as a `usize` in `0..16`.
fn rem16(v: i32) -> (r: usize)
    ensures
        r as int == sub16(v as int),
        r < 16,
{
    let m = v % 16;
    if m < 0 {
        (m + 16) as usize
    } else {
        m as usize
    }
}

/// `v` divided by 16, rounding down.
pub open spec fn floor16(v: int) -> int {
    v / 16
}

/// An `i32` divided by 16, rounding down.
fn div16(v: i32) -> (r: i32)
    ensures
        r == floor16(v as int),
{
    let m = rem16(v);
    let base: i32 = v - m as i32;
    assert(base % 16 == 0 && base == 16 * floor16(v as int)) by {
        assert(v as int == 16 * (v as int / 16) + v as int % 16);
    }
    let q = base / 16;
    assert(q == floor16(v as int)) by {
        assert(base == 16 * floor16(v as int));
    }
    q
}

/// A coordinate lies on the border of its chunk when one of its
/// chunk-local components is 0 or 15.
pub open spec fn on_chunk_border(x: int, y: int, z: int) -> bool {
    sub16(x) == 0 || sub16(x) == 15 || sub16(y) == 0 || sub16(y) == 15 || sub16(z) == 0 || sub16(z) == 15
}

impl BlockPos {
    /// The position with the given coordinates.
    pub fn new(x: i32, y: i32, z: i32) -> (r: Self)
        ensures
            r == (BlockPos { x, y, z }),
    {
        BlockPos { x, y, z }
    }

    /// The origin.
    pub fn zero() -> (r: Self)
        ensures
            r == (BlockPos { x: 0, y: 0, z: 0 }),
    {
        BlockPos { x: 0, y: 0, z: 0 }
    }

    /// The coordinates as a triple.
    pub fn as_tuple(&self) -> (r: (i32, i32, i32))
        ensures
            r == (self.x, self.y, self.z),
    {
        (self.x, self.y, self.z)
    }

    /// Component-wise absolute value.
    pub fn abs(&self) -> (r: Self)
        requires
            self.x > i32::MIN,
            self.y > i32::MIN,
            self.z > i32::MIN,
        ensures
            r.x == abs_int(self.x as int),
            r.y == abs_int(self.y as int),
            r.z == abs_int(self.z as int),
    {
        BlockPos {
            x: if self.x < 0 { -self.x } else { self.x },
            y: if self.y < 0 { -self.y } else { self.y },
            z: if self.z < 0 { -self.z } else { self.z },
        }
    }

    /// The neighbouring block across face `f`.
    pub fn shifted(&self, f: Face) -> (r: Self)
        requires
            i32::MIN < self.x < i32::MAX,
            i32::MIN < self.y < i32::MAX,
            i32::MIN < self.z < i32::MAX,
        ensures
            r.x == self.x + face_offset(f).0,
            r.y == self.y + face_offset(f).1,
            r.z == self.z + face_offset(f).2,
    {
        match f {
            Face::XNeg => BlockPos { x: self.x - 1, y: self.y, z: self.z },
            Face::XPos => BlockPos { x: self.x + 1, y: self.y, z: self.z },
            Face::YNeg => BlockPos { x: self.x, y: self.y - 1, z: self.z },
            Face::YPos => BlockPos { x: self.x, y: self.y + 1, z: self.z },
            Face::ZNeg => BlockPos { x: self.x, y: self.y, z: self.z - 1 },
            Face::ZPos => BlockPos { x: self.x, y: self.y, z: self.z + 1 },
        }
    }

    /// Whether `other` shares a face with this block: the Manhattan
    /// distance between the two is exactly 1.
    pub fn adjacent_to(&self, other: &Self) -> (r: bool)
        ensures
            r == (abs_int(self.x - other.x) + abs_int(self.y - other.y) + abs_int(self.z - other.z) == 1),
    {
        let dx: i64 = self.x as i64 - other.x as i64;
        let dy: i64 = self.y as i64 - other.y as i64;
        let dz: i64 = self.z as i64 - other.z as i64;
        let ax: i64 = if dx < 0 { -dx } else { dx };
        let ay: i64 = if dy < 0 { -dy } else { dy };
        let az: i64 = if dz < 0 { -dz } else { dz };
        ax + ay + az == 1
    }

    /// The position of this block inside its chunk, each component in `0..16`.
    pub fn as_sub(&self) -> (r: (usize, usize, usize))
        ensures
            r.0 as int == sub16(self.x as int),
            r.1 as int == sub16(self.y as int),
            r.2 as int == sub16(self.z as int),
    {
        (rem16(self.x), rem16(self.y), rem16(self.z))
    }

    /// The chunk holding this block: each component divided by 16,
    /// rounding down.
    pub fn as_chunk(&self) -> (r: ChunkPos)
        ensures
            r.x == floor16(self.x as int),
            r.y == floor16(self.y as int),
            r.z == floor16(self.z as int),
    {
        ChunkPos { x: div16(self.x), y: div16(self.y), z: div16(self.z) }
    }

    /// Whether this block lies on a face of its chunk.
    pub fn is_on_chunk_border(&self) -> (r: bool)
        ensures
            r == on_chunk_border(self.x as int, self.y as int, self.z as int),
    {
        let (x, y, z) = self.as_sub();
        x == 0 || x == 15 || y == 0 || y == 15 || z == 0 || z == 15
    }
}

impl ChunkPos {
    /// The position with the given coordinates.
    pub fn new(x: i32, y: i32, z: i32) -> (r: Self)
        ensures
            r == (ChunkPos { x, y, z }),
    {
        ChunkPos { x, y, z }
    }

    /// The origin.
    pub fn zero() -> (r: Self)
        ensures
            r == (ChunkPos { x: 0, y: 0, z: 0 }),
    {
        ChunkPos { x: 0, y: 0, z: 0 }
    }

    /// The coordinates as a triple.
    pub fn as_tuple(&self) -> (r: (i32, i32, i32))
        ensures
            r == (self.x, self.y, self.z),
    {
        (self.x, self.y, self.z)
    }

    /// Component-wise absolute value.
    pub fn abs(&self) -> (r: Self)
        requires
            self.x > i32::MIN,
            self.y > i32::MIN,
            self.z > i32::MIN,
        ensures
            r.x == abs_int(self.x as int),
            r.y == abs_int(self.y as int),
            r.z == abs_int(self.z as int),
    {
        ChunkPos {
            x: if self.x < 0 { -self.x } else { self.x },
            y: if self.y < 0 { -self.y } else { self.y },
            z: if self.z < 0 { -self.z } else { self.z },
        }
    }

    /// The block at the lowest corner of this chunk.
    pub fn as_block(&self) -> (r: BlockPos)
        requires
            i32::MIN <= 16 * self.x <= i32::MAX,
            i32::MIN <= 16 * self.y <= i32::MAX,
            i32::MIN <= 16 * self.z <= i32::MAX,
        ensures
            r.x == 16 * self.x,
            r.y == 16 * self.y,
            r.z == 16 * self.z,
    {
        BlockPos { x: self.x * 16, y: self.y * 16, z: self.z * 16 }
    }

    /// A chunk position is at the origin of its own chunk.
    pub fn as_sub(&self) -> (r: (usize, usize, usize))
        ensures
            r == (0usize, 0usize, 0usize),
    {
        (0, 0, 0)
    }

    /// The corner of a chunk always lies on the chunk border.
    pub fn is_on_chunk_border(&self) -> (r: bool)
        ensures
            r,
    {
        let (x, y, z) = self.as_sub();
        x == 0 || x == 15 || y == 0 || y == 15 || z == 0 || z == 15
    }
}

} // verus!
