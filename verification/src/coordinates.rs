use crate::single::Single;
use vstd::prelude::*;

verus! {

/// The length of a chunk's edge, in voxels.
pub const CHUNK_SIZE: i32 = 32;

/// The largest component of a voxel's coordinates in its chunk.
pub const VOXEL_MAX: i32 = 31;

/// The largest component of a chunk's coordinates, in either direction:
/// the world ends at two to the power 23 voxels from its origin, which is
/// this many chunks.
pub const CHUNK_MAX: i32 = 262144;

/// Three single-precision components.
#[derive(Debug, Clone, Copy, PartialEq, Structural)]
pub struct Vector3 {
    pub x: Single,
    pub y: Single,
    pub z: Single,
}

impl Vector3 {
    /// The vector with the given components.
    pub fn new(x: Single, y: Single, z: Single) -> (vector: Vector3)
        ensures
            vector == (Vector3 { x, y, z }),
    {
        Vector3 { x, y, z }
    }
}

/// Three 32-bit integer components, of a chunk or of a voxel.
#[derive(Debug, Clone, Copy, PartialEq, Eq, Structural, Ord, Hash)]
pub struct TerrainVec {
    pub x: i32,
    pub y: i32,
    pub z: i32,
}

/// `value` held to the range from `low` to `high`.
pub open spec fn clamp(value: int, low: int, high: int) -> int {
    if value < low {
        low
    } else if value > high {
        high
    } else {
        value
    }
}

fn clamp_component(value: i32, low: i32, high: i32) -> (held: i32)
    requires
        low <= high,
    ensures
        held == clamp(value as int, low as int, high as int),
        low <= held <= high,
{
    if value < low {
        low
    } else if value > high {
        high
    } else {
        value
    }
}

impl TerrainVec {
    /// The components of a vector, each cut to its whole part.
    pub open spec fn truncation(vector: Vector3) -> TerrainVec {
        TerrainVec { x: vector.x.truncated(), y: vector.y.truncated(), z: vector.z.truncated() }
    }

    /// Whether every component lies between `low` and `high`.
    pub open spec fn within(self, low: int, high: int) -> bool {
        &&& low <= self.x <= high
        &&& low <= self.y <= high
        &&& low <= self.z <= high
    }

    /// Every component held to the range from `low` to `high`.
    pub open spec fn clamped(self, low: int, high: int) -> TerrainVec {
        TerrainVec {
            x: clamp(self.x as int, low, high) as i32,
            y: clamp(self.y as int, low, high) as i32,
            z: clamp(self.z as int, low, high) as i32,
        }
    }

    /// Whether `self` comes before `other`: by `x`, then by `y`, then by
    /// `z`.
    pub open spec fn precedes(self, other: TerrainVec) -> bool {
        ||| self.x < other.x
        ||| self.x == other.x && self.y < other.y
        ||| self.x == other.x && self.y == other.y && self.z < other.z
    }

    /// The components of a vector, each cut to its whole part; a component
    /// beyond the range of a 32-bit integer gives the nearest bound, a NaN
    /// gives 0.
    pub fn from_vec3(i: Vector3) -> (vec: TerrainVec)
        ensures
            vec == TerrainVec::truncation(i),
    {
        TerrainVec { x: i.x.truncate(), y: i.y.truncate(), z: i.z.truncate() }
    }

    /// The given components.
    pub fn new(x: i32, y: i32, z: i32) -> (vec: TerrainVec)
        ensures
            vec == (TerrainVec { x, y, z }),
    {
        TerrainVec { x, y, z }
    }

    fn clamp_all(self, low: i32, high: i32) -> (held: TerrainVec)
        requires
            low <= high,
        ensures
            held == self.clamped(low as int, high as int),
            held.within(low as int, high as int),
    {
        TerrainVec {
            x: clamp_component(self.x, low, high),
            y: clamp_component(self.y, low, high),
            z: clamp_component(self.z, low, high),
        }
    }

    /// `precedes` is a strict total order: nothing precedes itself, of two
    /// different values exactly one precedes the other, and what precedes
    /// a value precedes all that this value precedes.
    pub proof fn lemma_precedes_is_strict_total_order(a: TerrainVec, b: TerrainVec, c: TerrainVec)
        ensures
            !a.precedes(a),
            a != b ==> (a.precedes(b) <==> !b.precedes(a)),
            a == b ==> !a.precedes(b) && !b.precedes(a),
            a.precedes(b) && b.precedes(c) ==> a.precedes(c),
    {
    }
}

impl Default for TerrainVec {
    fn default() -> (vec: TerrainVec)
        ensures
            vec == (TerrainVec { x: 0, y: 0, z: 0 }),
    {
        TerrainVec { x: 0, y: 0, z: 0 }
    }
}

/// The coordinates of a voxel in its chunk: every component from 0 to 31.
#[derive(Debug, Clone, Copy, PartialEq, Eq, Structural, Hash)]
pub struct VoxelCoordinates(TerrainVec);

impl View for VoxelCoordinates {
    type V = TerrainVec;

    closed spec fn view(&self) -> TerrainVec {
        self.0
    }
}

impl VoxelCoordinates {
    /// Every component lies in the chunk. This holds of every value that a
    /// program can hold.
    #[verifier::type_invariant]
    pub open spec fn wf(&self) -> bool {
        self@.within(0, VOXEL_MAX as int)
    }

    /// The place of a voxel in the order in which a chunk is written: row
    /// after row along `x`, the rows of a layer along `z`, layer after
    /// layer along `y`.
    pub open spec fn scan_index(vec: TerrainVec) -> int {
        vec.y * 1024 + vec.z * 32 + vec.x
    }

    /// The coordinates at a place of that order.
    pub open spec fn at_scan_index(index: int) -> TerrainVec {
        TerrainVec { x: (index % 32) as i32, y: (index / 1024) as i32, z: ((index / 32) % 32) as i32 }
    }

    /// The coordinates with the given components, each held to the chunk.
    pub fn new(x: i32, y: i32, z: i32) -> (position: VoxelCoordinates)
        ensures
            position@ == (TerrainVec { x, y, z }).clamped(0, VOXEL_MAX as int),
            position.wf(),
    {
        VoxelCoordinates(TerrainVec { x, y, z }.clamp_all(0, VOXEL_MAX))
    }

    /// The coordinates with the components of a vector, each cut to its
    /// whole part and held to the chunk.
    pub fn from_vec3(i: Vector3) -> (position: VoxelCoordinates)
        ensures
            position@ == TerrainVec::truncation(i).clamped(0, VOXEL_MAX as int),
            position.wf(),
    {
        VoxelCoordinates(TerrainVec::from_vec3(i).clamp_all(0, VOXEL_MAX))
    }

    /// The three components.
    pub fn components(&self) -> (vec: TerrainVec)
        ensures
            vec == self@,
            self.wf(),
    {
        proof {
            use_type_invariant(self);
        }
        self.0
    }

    /// The place of these coordinates in the order in which a chunk is
    /// written.
    pub fn index(&self) -> (index: u32)
        ensures
            index == VoxelCoordinates::scan_index(self@),
            index < 32768,
            self.wf(),
    {
        proof {
            use_type_invariant(self);
        }
        (self.0.y * 1024 + self.0.z * 32 + self.0.x) as u32
    }

    /// Coordinates in the chunk have a place in the written order, and are
    /// the coordinates at that place.
    pub proof fn lemma_scan_index(vec: TerrainVec)
        requires
            vec.within(0, VOXEL_MAX as int),
        ensures
            0 <= VoxelCoordinates::scan_index(vec) < 32768,
            VoxelCoordinates::at_scan_index(VoxelCoordinates::scan_index(vec)) == vec,
    {
        let index = VoxelCoordinates::scan_index(vec);
        let row = vec.y * 32 + vec.z;
        assert(index == row * 32 + vec.x);
        assert(index / 32 == row && index % 32 == vec.x);
        assert(row / 32 == vec.y && row % 32 == vec.z);
        assert(index / 1024 == vec.y);
    }

    /// A place of the written order has coordinates in the chunk, and is
    /// the place of those coordinates.
    pub proof fn lemma_at_scan_index(index: int)
        requires
            0 <= index < 32768,
        ensures
            VoxelCoordinates::at_scan_index(index).within(0, VOXEL_MAX as int),
            VoxelCoordinates::scan_index(VoxelCoordinates::at_scan_index(index)) == index,
    {
        let row = index / 32;
        assert(index == row * 32 + index % 32);
        assert(row == (row / 32) * 32 + row % 32);
        assert(index / 1024 == row / 32);
    }
}

impl Default for VoxelCoordinates {
    fn default() -> (position: VoxelCoordinates)
        ensures
            position@ == (TerrainVec { x: 0, y: 0, z: 0 }),
    {
        VoxelCoordinates(TerrainVec { x: 0, y: 0, z: 0 })
    }
}

/// The coordinates of a chunk in the world: every component from
/// `-CHUNK_MAX` to `CHUNK_MAX`.
#[derive(Debug, Clone, Copy, PartialEq, Eq, Structural, Ord, Hash)]
pub struct ChunkCoordinates(TerrainVec);

impl View for ChunkCoordinates {
    type V = TerrainVec;

    closed spec fn view(&self) -> TerrainVec {
        self.0
    }
}

impl ChunkCoordinates {
    /// Every component lies in the world. This holds of every value that a
    /// program can hold.
    #[verifier::type_invariant]
    pub open spec fn wf(&self) -> bool {
        self@.within(-CHUNK_MAX as int, CHUNK_MAX as int)
    }

    /// The coordinates with the given components, each held to the world.
    pub fn new(x: i32, y: i32, z: i32) -> (position: ChunkCoordinates)
        ensures
            position@ == (TerrainVec { x, y, z }).clamped(-CHUNK_MAX as int, CHUNK_MAX as int),
            position.wf(),
    {
        ChunkCoordinates(TerrainVec { x, y, z }.clamp_all(-CHUNK_MAX, CHUNK_MAX))
    }

    /// The coordinates with the components of a vector, each cut to its
    /// whole part and held to the world.
    pub fn from_vec3(i: Vector3) -> (position: ChunkCoordinates)
        ensures
            position@ == TerrainVec::truncation(i).clamped(-CHUNK_MAX as int, CHUNK_MAX as int),
            position.wf(),
    {
        ChunkCoordinates(TerrainVec::from_vec3(i).clamp_all(-CHUNK_MAX, CHUNK_MAX))
    }

    /// The three components.
    pub fn components(&self) -> (vec: TerrainVec)
        ensures
            vec == self@,
            self.wf(),
    {
        proof {
            use_type_invariant(self);
        }
        self.0
    }
}

impl Default for ChunkCoordinates {
    fn default() -> (position: ChunkCoordinates)
        ensures
            position@ == (TerrainVec { x: 0, y: 0, z: 0 }),
    {
        ChunkCoordinates(TerrainVec { x: 0, y: 0, z: 0 })
    }
}

} // verus!
