use rbx_terrain::InvalidMaterialError;
use rbx_terrain::Material;
use rbx_terrain::TerrainMaterials;

const MATERIALS: [(Material, TerrainMaterials, u8, &str); 23] = [
    (Material::Air, TerrainMaterials::Air, 0x00, "Air"),
    (Material::Water, TerrainMaterials::Water, 0x01, "Water"),
    (Material::Grass, TerrainMaterials::Grass, 0x02, "Grass"),
    (Material::Slate, TerrainMaterials::Slate, 0x03, "Slate"),
    (Material::Concrete, TerrainMaterials::Concrete, 0x04, "Concrete"),
    (Material::Brick, TerrainMaterials::Brick, 0x05, "Brick"),
    (Material::Sand, TerrainMaterials::Sand, 0x06, "Sand"),
    (Material::WoodPlanks, TerrainMaterials::WoodPlanks, 0x07, "WoodPlanks"),
    (Material::Rock, TerrainMaterials::Rock, 0x08, "Rock"),
    (Material::Glacier, TerrainMaterials::Glacier, 0x09, "Glacier"),
    (Material::Snow, TerrainMaterials::Snow, 0x0A, "Snow"),
    (Material::Sandstone, TerrainMaterials::Sandstone, 0x0B, "Sandstone"),
    (Material::Mud, TerrainMaterials::Mud, 0x0C, "Mud"),
    (Material::Basalt, TerrainMaterials::Basalt, 0x0D, "Basalt"),
    (Material::Ground, TerrainMaterials::Ground, 0x0E, "Ground"),
    (Material::CrackedLava, TerrainMaterials::CrackedLava, 0x0F, "CrackedLava"),
    (Material::Asphalt, TerrainMaterials::Asphalt, 0x10, "Asphalt"),
    (Material::Cobblestone, TerrainMaterials::Cobblestone, 0x11, "Cobblestone"),
    (Material::Ice, TerrainMaterials::Ice, 0x12, "Ice"),
    (Material::LeafyGrass, TerrainMaterials::LeafyGrass, 0x13, "LeafyGrass"),
    (Material::Salt, TerrainMaterials::Salt, 0x14, "Salt"),
    (Material::Limestone, TerrainMaterials::Limestone, 0x15, "Limestone"),
    (Material::Pavement, TerrainMaterials::Pavement, 0x16, "Pavement"),
];

#[test]
fn every_material_has_its_code() {
    for (material, _, code, _) in MATERIALS {
        assert_eq!(material.code(), code);
    }
}

#[test]
fn every_code_gives_its_material() {
    for (material, _, code, _) in MATERIALS {
        assert_eq!(Material::try_from(code), Ok(material));
    }
}

#[test]
fn codes_round_trip() {
    for code in 0x00u8..=0x16 {
        assert_eq!(Material::try_from(code).unwrap().code(), code);
    }
}

#[test]
fn bytes_above_the_last_code_are_rejected() {
    for byte in 0x17u8..=0xFF {
        assert_eq!(Material::try_from(byte), Err(InvalidMaterialError(byte)));
    }
}

#[test]
fn named_materials_convert_to_stored_ones() {
    for (material, named, _, _) in MATERIALS {
        assert_eq!(Material::from(named), material);
        let converted: Material = named.into();
        assert_eq!(converted, material);
    }
}

#[test]
fn named_materials_print_their_names() {
    for (_, named, _, name) in MATERIALS {
        assert_eq!(named.name(), name);
        assert_eq!(named.to_string(), name);
        assert_eq!(named.to_string(), format!("{:?}", named));
    }
}

#[test]
fn the_default_material_is_air() {
    assert_eq!(Material::default(), Material::Air);
}

#[test]
fn the_error_names_the_byte_in_hexadecimal() {
    assert_eq!(
        InvalidMaterialError(0x17).to_string(),
        "Invalid binary material value 17"
    );
    assert_eq!(
        InvalidMaterialError(0xFF).to_string(),
        "Invalid binary material value ff"
    );
    assert_eq!(
        InvalidMaterialError(0x0A).to_string(),
        "Invalid binary material value a"
    );
    for byte in 0u8..=255 {
        assert_eq!(
            InvalidMaterialError(byte).to_string(),
            format!("Invalid binary material value {:x?}", byte)
        );
    }
}
