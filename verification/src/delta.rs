use crate::coordinates::TerrainVec;
use vstd::prelude::*;

verus! {

/// The number of bytes that give a chunk's position.
pub const POSITION_DELTA_LEN: usize = 9;

/// The magnitude of a step along one axis.
pub open spec fn magnitude(delta: int) -> nat {
    if delta < 0 {
        (-delta) as nat
    } else {
        delta as nat
    }
}

/// The number of bytes that the magnitude of a step needs: one below 256,
/// two below 65536, else three.
pub open spec fn axis_width(delta: int) -> nat {
    if magnitude(delta) < 256 {
        1
    } else if magnitude(delta) < 65536 {
        2
    } else {
        3
    }
}

/// The byte that says which way a step goes: `0xFF` for a step back.
pub open spec fn sign_byte(delta: int) -> u8 {
    if delta < 0 {
        0xFF
    } else {
        0x00
    }
}

/// A digit of the magnitude of a step, in base 256: the digit of plane 0
/// counts 65536, that of plane 1 counts 256, and that of plane 2 counts 1.
pub open spec fn digit(delta: int, plane: nat) -> u8 {
    if plane == 0 {
        ((magnitude(delta) / 65536) % 256) as u8
    } else if plane == 1 {
        ((magnitude(delta) / 256) % 256) as u8
    } else {
        (magnitude(delta) % 256) as u8
    }
}

/// The sign bytes of a step, for `x`, `y` and `z`.
pub open spec fn sign_plane(from: TerrainVec, to: TerrainVec) -> Seq<u8> {
    seq![sign_byte(to.x - from.x), sign_byte(to.y - from.y), sign_byte(to.z - from.z)]
}

/// The digits of one plane of a step, for `x`, `y` and `z`.
pub open spec fn magnitude_plane(from: TerrainVec, to: TerrainVec, plane: nat) -> Seq<u8> {
    seq![
        digit(to.x - from.x, plane),
        digit(to.y - from.y, plane),
        digit(to.z - from.z, plane),
    ]
}

/// The number of sign planes of a step: the least of the widths of its
/// three axes.
pub open spec fn sign_planes(from: TerrainVec, to: TerrainVec) -> nat {
    let x = axis_width(to.x - from.x);
    let y = axis_width(to.y - from.y);
    let z = axis_width(to.z - from.z);
    if x <= y && x <= z {
        x
    } else if y <= z {
        y
    } else {
        z
    }
}

/// The bytes for the step from one chunk to the next: three planes of
/// three bytes. First come the sign planes, as many as `sign_planes`
/// says; the planes that are left hold the digits of the magnitudes, the
/// last plane the lowest digits.
pub open spec fn position_delta(from: TerrainVec, to: TerrainVec) -> Seq<u8> {
    let sign = sign_plane(from, to);
    if sign_planes(from, to) == 1 {
        sign + magnitude_plane(from, to, 1) + magnitude_plane(from, to, 2)
    } else if sign_planes(from, to) == 2 {
        sign + sign + magnitude_plane(from, to, 2)
    } else {
        sign + sign + sign
    }
}

/// A step is always nine bytes long.
pub proof fn lemma_position_delta_len(from: TerrainVec, to: TerrainVec)
    ensures
        position_delta(from, to).len() == POSITION_DELTA_LEN,
{
}

/// A chunk steps to itself by nine zero bytes.
pub proof fn lemma_position_delta_to_self(position: TerrainVec)
    ensures
        position_delta(position, position) == Seq::new(9, |i: int| 0u8),
{
    assert(position_delta(position, position) =~= Seq::new(9, |i: int| 0u8));
}

fn axis_magnitude(delta: i64) -> (size: u64)
    requires
        -0x1_0000_0000 < delta < 0x1_0000_0000,
    ensures
        size == magnitude(delta as int),
        size < 0x1_0000_0000,
{
    if delta < 0 {
        (-delta) as u64
    } else {
        delta as u64
    }
}

fn width_of(size: u64) -> (width: u8)
    ensures
        1 <= width <= 3,
        size < 256 ==> width == 1,
        256 <= size < 65536 ==> width == 2,
        65536 <= size ==> width == 3,
{
    if size < 256 {
        1
    } else if size < 65536 {
        2
    } else {
        3
    }
}

fn sign_of(delta: i64) -> (sign: u8)
    ensures
        sign == sign_byte(delta as int),
{
    if delta < 0 {
        0xFF
    } else {
        0x00
    }
}

/// The bytes for the step from one position to another.
pub(crate) fn step_bytes(from: TerrainVec, to: TerrainVec) -> (bytes: Vec<u8>)
    ensures
        bytes@ == position_delta(from, to),
{
    let dx: i64 = to.x as i64 - from.x as i64;
    let dy: i64 = to.y as i64 - from.y as i64;
    let dz: i64 = to.z as i64 - from.z as i64;
    let mx: u64 = axis_magnitude(dx);
    let my: u64 = axis_magnitude(dy);
    let mz: u64 = axis_magnitude(dz);
    let wx: u8 = width_of(mx);
    let wy: u8 = width_of(my);
    let wz: u8 = width_of(mz);
    let sign_planes: u8 = if wx <= wy && wx <= wz {
        wx
    } else if wy <= wz {
        wy
    } else {
        wz
    };
    let mut bytes: Vec<u8> = Vec::with_capacity(9);
    let mut plane: u8 = 0;
    while plane < sign_planes
        invariant
            plane <= sign_planes <= 3,
            bytes@.len() == 3 * plane,
            forall|i: int|
                0 <= i < bytes@.len() ==> #[trigger] bytes@[i] == sign_plane(from, to)[i % 3],
            dx == to.x - from.x,
            dy == to.y - from.y,
            dz == to.z - from.z,
        decreases sign_planes - plane,
    {
        bytes.push(sign_of(dx));
        bytes.push(sign_of(dy));
        bytes.push(sign_of(dz));
        plane = plane + 1;
    }
    let ghost signs = bytes@;
    while plane < 3
        invariant
            sign_planes <= plane <= 3,
            1 <= sign_planes,
            signs.len() == 3 * sign_planes,
            bytes@.len() == 3 * plane,
            forall|i: int| 0 <= i < signs.len() ==> #[trigger] bytes@[i] == signs[i],
            forall|i: int|
                signs.len() <= i < bytes@.len() ==> #[trigger] bytes@[i] == magnitude_plane(
                    from,
                    to,
                    (i / 3) as nat,
                )[i % 3],
            mx == magnitude(to.x - from.x),
            my == magnitude(to.y - from.y),
            mz == magnitude(to.z - from.z),
        decreases 3 - plane,
    {
        if plane == 1 {
            bytes.push(((mx / 256) % 256) as u8);
            bytes.push(((my / 256) % 256) as u8);
            bytes.push(((mz / 256) % 256) as u8);
        } else {
            bytes.push((mx % 256) as u8);
            bytes.push((my % 256) as u8);
            bytes.push((mz % 256) as u8);
        }
        plane = plane + 1;
    }
    assert(bytes@ =~= position_delta(from, to));
    bytes
}

} // verus!
