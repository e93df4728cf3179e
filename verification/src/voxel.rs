use crate::material::Material;
use crate::single::Single;
use crate::single::ONE_BITS;
use crate::single::ZERO_BITS;
use vstd::prelude::*;

verus! {

/// The longest run of equal voxels that one entry of the encoded form
/// holds.
pub const MAX_RUN: u16 = 256;

/// The flag bit that says a byte with the solid level follows.
pub const SOLID_FLAG: u8 = 0x40;

/// The flag bit that says a byte with the count, or a zero byte and the
/// water level, follows.
pub const COUNT_FLAG: u8 = 0x80;

/// One cell of terrain: a material, and how much of the cell its solid and
/// the water on it fill, each a fraction from zero to one.
#[derive(Debug, Clone, Copy, PartialEq, Structural)]
pub struct Voxel {
    solid_occupancy: Single,
    water_occupancy: Single,
    material: Material,
}

/// What a voxel holds.
pub struct VoxelView {
    pub material: Material,
    pub solid_occupancy: Single,
    pub water_occupancy: Single,
}

impl View for Voxel {
    type V = VoxelView;

    closed spec fn view(&self) -> VoxelView {
        VoxelView {
            material: self.material,
            solid_occupancy: self.solid_occupancy,
            water_occupancy: self.water_occupancy,
        }
    }
}

/// `times` copies of `bytes`, one after the other.
pub open spec fn repeated(bytes: Seq<u8>, times: nat) -> Seq<u8>
    decreases times,
{
    if times == 0 {
        Seq::empty()
    } else {
        repeated(bytes, (times - 1) as nat) + bytes
    }
}

impl VoxelView {
    /// What the occupancy rules allow a voxel to hold. Both fractions lie
    /// from zero to one, unless they are NaN. Where there is water, there
    /// is also solid, of a material other than air, and it does not fill
    /// the cell. A cell that is full of solid carries no water, and only
    /// air has neither solid nor water.
    pub open spec fn wf(self) -> bool {
        &&& self.solid_occupancy.is_clamped()
        &&& self.water_occupancy.is_clamped()
        &&& self.water_occupancy.above_zero() ==> {
            &&& !self.solid_occupancy.is_zero()
            &&& !self.solid_occupancy.is_one()
            &&& self.material != Material::Air
        }
        &&& self.solid_occupancy.is_one() ==> self.water_occupancy.bits == ZERO_BITS
        &&& self.solid_occupancy.is_zero() && self.water_occupancy.is_zero() ==> self.material
            == Material::Air
    }

    /// A cell full of the given material, with no water.
    pub open spec fn full(material: Material) -> VoxelView {
        VoxelView {
            material,
            solid_occupancy: Single { bits: ONE_BITS },
            water_occupancy: Single { bits: ZERO_BITS },
        }
    }

    /// The voxel that a material and two fractions make, by the occupancy
    /// rules. The fractions are first brought into the range from zero to
    /// one. Then: with neither solid nor water the voxel is a cell full of
    /// air; with water, and no solid or air for a material, it is water,
    /// filling what the water filled; otherwise it keeps material and
    /// solid, and the water unless the solid fills the cell.
    pub open spec fn normalized(material: Material, solid: Single, water: Single) -> VoxelView {
        let solid = solid.clamped();
        let water = water.clamped();
        if solid.is_zero() && water.is_zero() {
            VoxelView::full(Material::Air)
        } else if (solid.is_zero() || material == Material::Air) && water.above_zero() {
            VoxelView {
                material: Material::Water,
                solid_occupancy: water,
                water_occupancy: Single { bits: ZERO_BITS },
            }
        } else {
            VoxelView {
                material,
                solid_occupancy: solid,
                water_occupancy: if solid.is_one() {
                    Single { bits: ZERO_BITS }
                } else {
                    water
                },
            }
        }
    }

    /// Whether a run of this voxel carries a byte with the solid level: it
    /// does unless the level is 0 or 255.
    pub open spec fn stores_solid(self) -> bool {
        self.solid_occupancy.spec_level() != 0 && self.solid_occupancy.spec_level() != 0xFF
    }

    /// Whether a run of this voxel carries water.
    pub open spec fn stores_water(self) -> bool {
        self.water_occupancy.spec_level() != 0
    }

    /// The first byte of a run: the material's code, with `SOLID_FLAG`
    /// where the solid level follows and `COUNT_FLAG` where the run is
    /// longer than one voxel or carries water. The code is below either
    /// flag, so setting the bits adds them.
    pub open spec fn flag(self, count: nat) -> u8 {
        (self.material.spec_code() + (if self.stores_solid() {
            SOLID_FLAG as int
        } else {
            0
        }) + (if count > 1 || self.stores_water() {
            COUNT_FLAG as int
        } else {
            0
        })) as u8
    }

    /// One entry for `count` voxels: the flag; the solid level, where it
    /// is stored; then, for a run without water that is longer than one
    /// voxel, `count - 1`, and for a voxel with water a zero byte and the
    /// water level.
    pub open spec fn entry(self, count: nat) -> Seq<u8> {
        let solid = if self.stores_solid() {
            seq![self.solid_occupancy.spec_level()]
        } else {
            Seq::empty()
        };
        let tail = if self.stores_water() {
            seq![0u8, self.water_occupancy.spec_level()]
        } else if count > 1 {
            seq![(count - 1) as u8]
        } else {
            Seq::empty()
        };
        seq![self.flag(count)] + solid + tail
    }

    /// The bytes for `count` equal voxels in a row. Without water they are
    /// one entry. An entry with water has no room for a count, so a run
    /// with water is written voxel by voxel: `count` copies of the entry.
    pub open spec fn run_bytes(self, count: nat) -> Seq<u8> {
        if self.stores_water() && count > 1 {
            repeated(self.entry(count), count)
        } else {
            self.entry(count)
        }
    }

    /// The voxels that the occupancy rules make are all allowed by them.
    pub proof fn lemma_normalized_wf(material: Material, solid: Single, water: Single)
        ensures
            VoxelView::normalized(material, solid, water).wf(),
    {
        Single::lemma_patterns(solid);
        Single::lemma_patterns(water);
        Single::lemma_patterns(solid.clamped());
        Single::lemma_patterns(water.clamped());
        Single::lemma_patterns(Single { bits: ZERO_BITS });
        Single::lemma_patterns(Single { bits: ONE_BITS });
    }

    /// Of a voxel that the rules allow: where it carries water, its solid
    /// fills less than the cell or it is water itself; and where it has
    /// neither solid nor water, it is air. The first part is stated of
    /// voxels whose solid fraction is a number.
    pub proof fn lemma_occupancy_invariant(voxel: VoxelView)
        requires
            voxel.wf(),
            !voxel.solid_occupancy.is_nan(),
        ensures
            voxel.water_occupancy.above_zero() ==> voxel.solid_occupancy.below_one()
                || voxel.material == Material::Water,
            voxel.solid_occupancy.is_zero() && voxel.water_occupancy.is_zero() ==> voxel.material
                == Material::Air,
    {
    }

    /// The flag is the code with the bits of the flags set in it.
    pub proof fn lemma_flag_bits(voxel: VoxelView, count: nat)
        ensures
            voxel.flag(count) == voxel.material.spec_code() | (if voxel.stores_solid() {
                SOLID_FLAG
            } else {
                0u8
            }) | (if count > 1 || voxel.stores_water() {
                COUNT_FLAG
            } else {
                0u8
            }),
    {
        let code = voxel.material.spec_code();
        assert(code <= 0x16);
        assert(code | 0u8 | 0u8 == code) by (bit_vector);
        assert(code | 0x40u8 | 0u8 == code + 0x40u8) by (bit_vector)
            requires
                code <= 0x16,
        ;
        assert(code | 0u8 | 0x80u8 == code + 0x80u8) by (bit_vector)
            requires
                code <= 0x16,
        ;
        assert(code | 0x40u8 | 0x80u8 == code + 0xC0u8) by (bit_vector)
            requires
                code <= 0x16,
        ;
    }

    /// A run of voxels with water is as many copies of the bytes of one
    /// such voxel as the run is long.
    pub proof fn lemma_run_with_water(voxel: VoxelView, count: nat)
        requires
            voxel.stores_water(),
            count >= 1,
        ensures
            voxel.run_bytes(count) == repeated(voxel.run_bytes(1), count),
    {
        assert(voxel.entry(count) == voxel.entry(1));
        assert(repeated(voxel.entry(1), 1) =~= voxel.entry(1)) by {
            assert(repeated(voxel.entry(1), 0) =~= Seq::<u8>::empty());
        }
    }

    /// An entry is two to four bytes long, or a single byte for a lone
    /// voxel without a stored level.
    pub proof fn lemma_entry_len(voxel: VoxelView, count: nat)
        ensures
            1 <= voxel.entry(count).len() <= 4,
            voxel.entry(count).len() == 1 + (if voxel.stores_solid() {
                1nat
            } else {
                0
            }) + (if voxel.stores_water() {
                2nat
            } else if count > 1 {
                1
            } else {
                0
            }),
    {
    }
}

impl Voxel {
    /// The occupancy rules hold of every voxel that a program can hold.
    #[verifier::type_invariant]
    pub open spec fn wf(&self) -> bool {
        self@.wf()
    }

    fn normalize(material: Material, solid_occupancy: Single, water_occupancy: Single) -> (voxel:
        Voxel)
        ensures
            voxel@ == VoxelView::normalized(material, solid_occupancy, water_occupancy),
    {
        proof {
            VoxelView::lemma_normalized_wf(material, solid_occupancy, water_occupancy);
        }
        let solid = solid_occupancy.clamp_unit();
        let water = water_occupancy.clamp_unit();
        if solid.equals_zero() && water.equals_zero() {
            Voxel {
                solid_occupancy: Single::one(),
                water_occupancy: Single::zero(),
                material: Material::Air,
            }
        } else if (solid.equals_zero() || material == Material::Air) && water.exceeds_zero() {
            Voxel {
                solid_occupancy: water,
                water_occupancy: Single::zero(),
                material: Material::Water,
            }
        } else {
            let kept = if solid.equals_one() {
                Single::zero()
            } else {
                water
            };
            Voxel { solid_occupancy: solid, water_occupancy: kept, material }
        }
    }

    /// A voxel of a material that fills the given fraction of its cell,
    /// as the occupancy rules make it.
    pub fn new(material: Material, solid_occupancy: Single) -> (voxel: Voxel)
        ensures
            voxel@ == VoxelView::normalized(material, solid_occupancy, Single { bits: ZERO_BITS }),
            voxel.wf(),
    {
        let voxel = Voxel::normalize(material, solid_occupancy, Single::zero());
        proof {
            use_type_invariant(&voxel);
        }
        voxel
    }

    /// A voxel of a material that fills the given fraction of its cell,
    /// under water that fills another, as the occupancy rules make it.
    pub fn new_with_water(material: Material, solid_occupancy: Single, water_occupancy: Single) -> (voxel:
        Voxel)
        ensures
            voxel@ == VoxelView::normalized(material, solid_occupancy, water_occupancy),
            voxel.wf(),
    {
        let voxel = Voxel::normalize(material, solid_occupancy, water_occupancy);
        proof {
            use_type_invariant(&voxel);
        }
        voxel
    }

    /// A cell full of the given material, with no water: what a chunk
    /// holds wherever no voxel was written.
    pub fn full(material: Material) -> (voxel: Voxel)
        ensures
            voxel@ == VoxelView::full(material),
            voxel.wf(),
    {
        proof {
            Single::lemma_patterns(Single { bits: ZERO_BITS });
            Single::lemma_patterns(Single { bits: ONE_BITS });
        }
        Voxel { solid_occupancy: Single::one(), water_occupancy: Single::zero(), material }
    }

    /// The material.
    pub fn material(&self) -> (material: Material)
        ensures
            material == self@.material,
    {
        self.material
    }

    /// The fraction of the cell that the solid fills.
    pub fn solid_occupancy(&self) -> (fraction: Single)
        ensures
            fraction == self@.solid_occupancy,
    {
        self.solid_occupancy
    }

    /// The fraction of the cell that the water fills.
    pub fn water_occupancy(&self) -> (fraction: Single)
        ensures
            fraction == self@.water_occupancy,
    {
        self.water_occupancy
    }

    /// Whether two voxels hold the same material and the same patterns of
    /// both fractions.
    pub fn same(&self, other: &Voxel) -> (same: bool)
        ensures
            same == (self@ == other@),
    {
        *self == *other
    }

    /// The solid level and the water level, as the encoded form carries
    /// them.
    pub fn get_encode_data(&self) -> (levels: (u8, u8))
        ensures
            levels.0 == self@.solid_occupancy.spec_level(),
            levels.1 == self@.water_occupancy.spec_level(),
    {
        (self.solid_occupancy.level(), self.water_occupancy.level())
    }

    /// The bytes for `count` voxels like this one in a row.
    pub fn encode_run_length(&self, count: u16) -> (bytes: Vec<u8>)
        requires
            1 <= count <= MAX_RUN,
        ensures
            bytes@ == self@.run_bytes(count as nat),
    {
        let (solid, water) = self.get_encode_data();
        let mut flag: u8 = self.material.code();
        let stores_solid = solid != 0xFF && solid != 0x00;
        if stores_solid {
            flag = flag + SOLID_FLAG;
        }
        if count > 1 || water != 0 {
            flag = flag + COUNT_FLAG;
        }
        let mut entry: Vec<u8> = Vec::new();
        entry.push(flag);
        if stores_solid {
            entry.push(solid);
        }
        if water != 0 {
            entry.push(0);
            entry.push(water);
        } else if count > 1 {
            entry.push((count - 1) as u8);
        }
        assert(entry@ =~= self@.entry(count as nat));
        if water != 0 && count > 1 {
            let mut bytes: Vec<u8> = Vec::new();
            let mut written: u16 = 0;
            while written < count
                invariant
                    written <= count,
                    bytes@ == repeated(entry@, written as nat),
                decreases count - written,
            {
                extend(&mut bytes, &entry);
                written = written + 1;
            }
            bytes
        } else {
            entry
        }
    }

    /// Sets both fractions, and with them the voxel that the occupancy
    /// rules make of the material it had.
    pub fn set_occupancy(&mut self, solid_occupancy: Single, water_occupancy: Single)
        ensures
            final(self)@ == VoxelView::normalized(
                old(self)@.material,
                solid_occupancy,
                water_occupancy,
            ),
            final(self).wf(),
    {
        let voxel = Voxel::normalize(self.material, solid_occupancy, water_occupancy);
        proof {
            use_type_invariant(&voxel);
        }
        *self = voxel;
    }

    /// Sets the material, and with it the voxel that the occupancy rules
    /// make of the fractions it had.
    pub fn set_material(&mut self, material: Material)
        ensures
            final(self)@ == VoxelView::normalized(
                material,
                old(self)@.solid_occupancy,
                old(self)@.water_occupancy,
            ),
            final(self).wf(),
    {
        let voxel = Voxel::normalize(material, self.solid_occupancy, self.water_occupancy);
        proof {
            use_type_invariant(&voxel);
        }
        *self = voxel;
    }
}

impl Default for Voxel {
    /// Air that has not been given an occupancy: both fractions zero.
    fn default() -> (voxel: Voxel)
        ensures
            voxel@.material == Material::Air,
            voxel@.solid_occupancy.bits == ZERO_BITS,
            voxel@.water_occupancy.bits == ZERO_BITS,
    {
        proof {
            Single::lemma_patterns(Single { bits: ZERO_BITS });
        }
        Voxel {
            solid_occupancy: Single::zero(),
            water_occupancy: Single::zero(),
            material: Material::Air,
        }
    }
}

/// Appends the bytes of `tail` to `bytes`.
pub(crate) fn extend(bytes: &mut Vec<u8>, tail: &Vec<u8>)
    ensures
        final(bytes)@ == old(bytes)@ + tail@,
{
    let mut at: usize = 0;
    while at < tail.len()
        invariant
            at <= tail.len(),
            bytes@ == old(bytes)@ + tail@.subrange(0, at as int),
        decreases tail.len() - at,
    {
        bytes.push(tail[at]);
        at = at + 1;
        assert(tail@.subrange(0, at as int) =~= tail@.subrange(0, at - 1).push(tail@[at - 1]));
    }
    assert(tail@.subrange(0, at as int) =~= tail@);
}

} // verus!
