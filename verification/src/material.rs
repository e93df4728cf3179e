use vstd::prelude::*;
use vstd::std_specs::convert::FromSpecImpl;
use vstd::std_specs::convert::TryFromSpecImpl;
use vstd::string::StringExecFns;

verus! {

/// The terrain substances by name, as a caller chooses them.
#[derive(Debug, PartialEq, Eq, Structural, PartialOrd, Ord, Clone, Copy, Hash)]
pub enum TerrainMaterials {
    Air,
    Water,
    Grass,
    Slate,
    Concrete,
    Brick,
    Sand,
    WoodPlanks,
    Rock,
    Glacier,
    Snow,
    Sandstone,
    Mud,
    Basalt,
    Ground,
    CrackedLava,
    Asphalt,
    Cobblestone,
    Ice,
    LeafyGrass,
    Salt,
    Limestone,
    Pavement,
}

/// A terrain substance as the grid stores it. Each material has a one-byte
/// code, from `0x00` for `Air` to `0x16` for `Pavement`, which is what the
/// encoded grid carries.
#[derive(Debug, Clone, Copy, PartialEq, Eq, Structural, Hash)]
pub enum Material {
    Air,
    Water,
    Grass,
    Slate,
    Concrete,
    Brick,
    Sand,
    WoodPlanks,
    Rock,
    Glacier,
    Snow,
    Sandstone,
    Mud,
    Basalt,
    Ground,
    CrackedLava,
    Asphalt,
    Cobblestone,
    Ice,
    LeafyGrass,
    Salt,
    Limestone,
    Pavement,
}

/// The byte that was offered as a material code and is none.
#[derive(Debug, Clone, Copy, PartialEq, Eq, Structural)]
pub struct InvalidMaterialError(pub u8);

/// The largest byte that is a material code.
pub const MAX_MATERIAL_CODE: u8 = 0x16;

impl Material {
    /// The code of a material.
    pub open spec fn spec_code(self) -> u8 {
        match self {
            Material::Air => 0x00,
            Material::Water => 0x01,
            Material::Grass => 0x02,
            Material::Slate => 0x03,
            Material::Concrete => 0x04,
            Material::Brick => 0x05,
            Material::Sand => 0x06,
            Material::WoodPlanks => 0x07,
            Material::Rock => 0x08,
            Material::Glacier => 0x09,
            Material::Snow => 0x0A,
            Material::Sandstone => 0x0B,
            Material::Mud => 0x0C,
            Material::Basalt => 0x0D,
            Material::Ground => 0x0E,
            Material::CrackedLava => 0x0F,
            Material::Asphalt => 0x10,
            Material::Cobblestone => 0x11,
            Material::Ice => 0x12,
            Material::LeafyGrass => 0x13,
            Material::Salt => 0x14,
            Material::Limestone => 0x15,
            Material::Pavement => 0x16,
        }
    }

    /// The material that a code stands for, if it stands for one.
    pub open spec fn from_code(code: u8) -> Option<Material> {
        match code {
            0x00 => Some(Material::Air),
            0x01 => Some(Material::Water),
            0x02 => Some(Material::Grass),
            0x03 => Some(Material::Slate),
            0x04 => Some(Material::Concrete),
            0x05 => Some(Material::Brick),
            0x06 => Some(Material::Sand),
            0x07 => Some(Material::WoodPlanks),
            0x08 => Some(Material::Rock),
            0x09 => Some(Material::Glacier),
            0x0A => Some(Material::Snow),
            0x0B => Some(Material::Sandstone),
            0x0C => Some(Material::Mud),
            0x0D => Some(Material::Basalt),
            0x0E => Some(Material::Ground),
            0x0F => Some(Material::CrackedLava),
            0x10 => Some(Material::Asphalt),
            0x11 => Some(Material::Cobblestone),
            0x12 => Some(Material::Ice),
            0x13 => Some(Material::LeafyGrass),
            0x14 => Some(Material::Salt),
            0x15 => Some(Material::Limestone),
            0x16 => Some(Material::Pavement),
            _ => None,
        }
    }

    /// The code of this material.
    #[verifier::when_used_as_spec(spec_code)]
    pub fn code(self) -> (code: u8)
        ensures
            code == self.spec_code(),
            code <= MAX_MATERIAL_CODE,
    {
        match self {
            Material::Air => 0x00,
            Material::Water => 0x01,
            Material::Grass => 0x02,
            Material::Slate => 0x03,
            Material::Concrete => 0x04,
            Material::Brick => 0x05,
            Material::Sand => 0x06,
            Material::WoodPlanks => 0x07,
            Material::Rock => 0x08,
            Material::Glacier => 0x09,
            Material::Snow => 0x0A,
            Material::Sandstone => 0x0B,
            Material::Mud => 0x0C,
            Material::Basalt => 0x0D,
            Material::Ground => 0x0E,
            Material::CrackedLava => 0x0F,
            Material::Asphalt => 0x10,
            Material::Cobblestone => 0x11,
            Material::Ice => 0x12,
            Material::LeafyGrass => 0x13,
            Material::Salt => 0x14,
            Material::Limestone => 0x15,
            Material::Pavement => 0x16,
        }
    }

    /// Every material is the one that its code stands for.
    pub proof fn lemma_code_round_trip(material: Material)
        ensures
            Material::from_code(material.spec_code()) == Some(material),
    {
    }

    /// The codes are the bytes up to `0x16`, and a code stands for the
    /// material that has it.
    pub proof fn lemma_from_code(code: u8)
        ensures
            Material::from_code(code) is Some <==> code <= MAX_MATERIAL_CODE,
            Material::from_code(code) matches Some(material) ==> material.spec_code() == code,
    {
    }

    /// No two materials share a code.
    pub proof fn lemma_code_injective(a: Material, b: Material)
        requires
            a.spec_code() == b.spec_code(),
        ensures
            a == b,
    {
    }
}

impl Default for Material {
    fn default() -> (material: Self)
        ensures
            material == Material::Air,
    {
        Material::Air
    }
}

impl FromSpecImpl<TerrainMaterials> for Material {
    open spec fn obeys_from_spec() -> bool {
        true
    }

    open spec fn from_spec(value: TerrainMaterials) -> Material {
        match value {
            TerrainMaterials::Air => Material::Air,
            TerrainMaterials::Water => Material::Water,
            TerrainMaterials::Grass => Material::Grass,
            TerrainMaterials::Slate => Material::Slate,
            TerrainMaterials::Concrete => Material::Concrete,
            TerrainMaterials::Brick => Material::Brick,
            TerrainMaterials::Sand => Material::Sand,
            TerrainMaterials::WoodPlanks => Material::WoodPlanks,
            TerrainMaterials::Rock => Material::Rock,
            TerrainMaterials::Glacier => Material::Glacier,
            TerrainMaterials::Snow => Material::Snow,
            TerrainMaterials::Sandstone => Material::Sandstone,
            TerrainMaterials::Mud => Material::Mud,
            TerrainMaterials::Basalt => Material::Basalt,
            TerrainMaterials::Ground => Material::Ground,
            TerrainMaterials::CrackedLava => Material::CrackedLava,
            TerrainMaterials::Asphalt => Material::Asphalt,
            TerrainMaterials::Cobblestone => Material::Cobblestone,
            TerrainMaterials::Ice => Material::Ice,
            TerrainMaterials::LeafyGrass => Material::LeafyGrass,
            TerrainMaterials::Salt => Material::Salt,
            TerrainMaterials::Limestone => Material::Limestone,
            TerrainMaterials::Pavement => Material::Pavement,
        }
    }
}

impl From<TerrainMaterials> for Material {
    /// The stored material of the same name.
    fn from(value: TerrainMaterials) -> (material: Self) {
        match value {
            TerrainMaterials::Air => Material::Air,
            TerrainMaterials::Water => Material::Water,
            TerrainMaterials::Grass => Material::Grass,
            TerrainMaterials::Slate => Material::Slate,
            TerrainMaterials::Concrete => Material::Concrete,
            TerrainMaterials::Brick => Material::Brick,
            TerrainMaterials::Sand => Material::Sand,
            TerrainMaterials::WoodPlanks => Material::WoodPlanks,
            TerrainMaterials::Rock => Material::Rock,
            TerrainMaterials::Glacier => Material::Glacier,
            TerrainMaterials::Snow => Material::Snow,
            TerrainMaterials::Sandstone => Material::Sandstone,
            TerrainMaterials::Mud => Material::Mud,
            TerrainMaterials::Basalt => Material::Basalt,
            TerrainMaterials::Ground => Material::Ground,
            TerrainMaterials::CrackedLava => Material::CrackedLava,
            TerrainMaterials::Asphalt => Material::Asphalt,
            TerrainMaterials::Cobblestone => Material::Cobblestone,
            TerrainMaterials::Ice => Material::Ice,
            TerrainMaterials::LeafyGrass => Material::LeafyGrass,
            TerrainMaterials::Salt => Material::Salt,
            TerrainMaterials::Limestone => Material::Limestone,
            TerrainMaterials::Pavement => Material::Pavement,
        }
    }
}

impl TryFromSpecImpl<u8> for Material {
    open spec fn obeys_try_from_spec() -> bool {
        true
    }

    open spec fn try_from_spec(value: u8) -> Result<Material, InvalidMaterialError> {
        match Material::from_code(value) {
            Some(material) => Ok(material),
            None => Err(InvalidMaterialError(value)),
        }
    }
}

impl TryFrom<u8> for Material {
    type Error = InvalidMaterialError;

    /// The material with the given code; a byte above `0x16` is handed back
    /// in the error.
    fn try_from(value: u8) -> (result: Result<Self, Self::Error>) {
        match value {
            0x00 => Ok(Material::Air),
            0x01 => Ok(Material::Water),
            0x02 => Ok(Material::Grass),
            0x03 => Ok(Material::Slate),
            0x04 => Ok(Material::Concrete),
            0x05 => Ok(Material::Brick),
            0x06 => Ok(Material::Sand),
            0x07 => Ok(Material::WoodPlanks),
            0x08 => Ok(Material::Rock),
            0x09 => Ok(Material::Glacier),
            0x0A => Ok(Material::Snow),
            0x0B => Ok(Material::Sandstone),
            0x0C => Ok(Material::Mud),
            0x0D => Ok(Material::Basalt),
            0x0E => Ok(Material::Ground),
            0x0F => Ok(Material::CrackedLava),
            0x10 => Ok(Material::Asphalt),
            0x11 => Ok(Material::Cobblestone),
            0x12 => Ok(Material::Ice),
            0x13 => Ok(Material::LeafyGrass),
            0x14 => Ok(Material::Salt),
            0x15 => Ok(Material::Limestone),
            0x16 => Ok(Material::Pavement),
            _ => Err(InvalidMaterialError(value)),
        }
    }
}

impl TerrainMaterials {
    /// The name of a material, as text.
    pub open spec fn spec_name(self) -> Seq<char> {
        match self {
            TerrainMaterials::Air => "Air"@,
            TerrainMaterials::Water => "Water"@,
            TerrainMaterials::Grass => "Grass"@,
            TerrainMaterials::Slate => "Slate"@,
            TerrainMaterials::Concrete => "Concrete"@,
            TerrainMaterials::Brick => "Brick"@,
            TerrainMaterials::Sand => "Sand"@,
            TerrainMaterials::WoodPlanks => "WoodPlanks"@,
            TerrainMaterials::Rock => "Rock"@,
            TerrainMaterials::Glacier => "Glacier"@,
            TerrainMaterials::Snow => "Snow"@,
            TerrainMaterials::Sandstone => "Sandstone"@,
            TerrainMaterials::Mud => "Mud"@,
            TerrainMaterials::Basalt => "Basalt"@,
            TerrainMaterials::Ground => "Ground"@,
            TerrainMaterials::CrackedLava => "CrackedLava"@,
            TerrainMaterials::Asphalt => "Asphalt"@,
            TerrainMaterials::Cobblestone => "Cobblestone"@,
            TerrainMaterials::Ice => "Ice"@,
            TerrainMaterials::LeafyGrass => "LeafyGrass"@,
            TerrainMaterials::Salt => "Salt"@,
            TerrainMaterials::Limestone => "Limestone"@,
            TerrainMaterials::Pavement => "Pavement"@,
        }
    }

    /// The name of the material.
    pub fn name(&self) -> (name: &'static str)
        ensures
            name@ == self.spec_name(),
    {
        match self {
            TerrainMaterials::Air => "Air",
            TerrainMaterials::Water => "Water",
            TerrainMaterials::Grass => "Grass",
            TerrainMaterials::Slate => "Slate",
            TerrainMaterials::Concrete => "Concrete",
            TerrainMaterials::Brick => "Brick",
            TerrainMaterials::Sand => "Sand",
            TerrainMaterials::WoodPlanks => "WoodPlanks",
            TerrainMaterials::Rock => "Rock",
            TerrainMaterials::Glacier => "Glacier",
            TerrainMaterials::Snow => "Snow",
            TerrainMaterials::Sandstone => "Sandstone",
            TerrainMaterials::Mud => "Mud",
            TerrainMaterials::Basalt => "Basalt",
            TerrainMaterials::Ground => "Ground",
            TerrainMaterials::CrackedLava => "CrackedLava",
            TerrainMaterials::Asphalt => "Asphalt",
            TerrainMaterials::Cobblestone => "Cobblestone",
            TerrainMaterials::Ice => "Ice",
            TerrainMaterials::LeafyGrass => "LeafyGrass",
            TerrainMaterials::Salt => "Salt",
            TerrainMaterials::Limestone => "Limestone",
            TerrainMaterials::Pavement => "Pavement",
        }
    }

    /// The name of the material, as a string of its own.
    pub fn to_string(&self) -> (text: String)
        ensures
            text@ == self.spec_name(),
    {
        String::from_str(self.name())
    }
}

/// A hexadecimal digit, as text: `0` to `9`, then `a` to `f`.
pub open spec fn hex_digit_text(digit: u8) -> Seq<char> {
    match digit {
        0 => "0"@,
        1 => "1"@,
        2 => "2"@,
        3 => "3"@,
        4 => "4"@,
        5 => "5"@,
        6 => "6"@,
        7 => "7"@,
        8 => "8"@,
        9 => "9"@,
        10 => "a"@,
        11 => "b"@,
        12 => "c"@,
        13 => "d"@,
        14 => "e"@,
        _ => "f"@,
    }
}

/// A byte in hexadecimal, as text: one digit below 16, else two.
pub open spec fn hex_text(value: u8) -> Seq<char> {
    if value < 16 {
        hex_digit_text(value)
    } else {
        hex_digit_text(value / 16) + hex_digit_text(value % 16)
    }
}

fn hex_digit(digit: u8) -> (text: &'static str)
    requires
        digit < 16,
    ensures
        text@ == hex_digit_text(digit),
{
    match digit {
        0 => "0",
        1 => "1",
        2 => "2",
        3 => "3",
        4 => "4",
        5 => "5",
        6 => "6",
        7 => "7",
        8 => "8",
        9 => "9",
        10 => "a",
        11 => "b",
        12 => "c",
        13 => "d",
        14 => "e",
        _ => "f",
    }
}

impl InvalidMaterialError {
    /// What the error says, as text.
    pub open spec fn spec_message(self) -> Seq<char> {
        "Invalid binary material value "@ + hex_text(self.0)
    }

    /// What the error says: that the byte, which it gives in hexadecimal,
    /// is no material's code.
    pub fn to_string(&self) -> (text: String)
        ensures
            text@ == self.spec_message(),
    {
        let mut text = String::from_str("Invalid binary material value ");
        if self.0 >= 16 {
            text.append(hex_digit(self.0 / 16));
        }
        text.append(hex_digit(self.0 % 16));
        proof {
            assert(text@ =~= self.spec_message());
        }
        text
    }
}

} // verus!
