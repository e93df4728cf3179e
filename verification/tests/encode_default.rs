use rbx_terrain::Chunk;
use rbx_terrain::ChunkCoordinates;
use rbx_terrain::Material;
use rbx_terrain::Single;
use rbx_terrain::SmoothGrid;
use rbx_terrain::Terrain;
use rbx_terrain::TerrainMaterials;
use rbx_terrain::TerrainSerializer;
use rbx_terrain::Voxel;
use rbx_terrain::VoxelCoordinates;

fn single(value: f32) -> Single {
    Single::from_bits(value.to_bits())
}

#[test]
fn terrain_encode_default() {
    let mut terr = Terrain::new();
    let mut chunk = Chunk::new_with_base(Material::Air);
    let mut voxel = Voxel::new_with_water(Material::Grass, single(1.0), single(0.5));
    for m in 2..=22 {
        voxel.set_material(Material::try_from(m as u8).unwrap());
        chunk.write_voxel(&VoxelCoordinates::new(m - 2, 0, 0), voxel);
    }
    terr.write_chunk(&ChunkCoordinates::default(), chunk.clone());
    terr.write_chunk(&ChunkCoordinates::new(1, 0, 0), chunk.clone());

    let encoded = base64::encode(TerrainSerializer::encode(&terr));
    println!("{}", encoded);
}

#[test]
fn smooth_grid_encode_default() {
    let mut terr = SmoothGrid::new();
    let mut chunk = Chunk::new_with_base(Material::from(TerrainMaterials::Air));
    let mut voxel = Voxel::new_with_water(
        Material::from(TerrainMaterials::Grass),
        single(1.0),
        single(0.5),
    );
    for m in 2..=22 {
        voxel.set_material(Material::try_from(m as u8).unwrap());
        chunk.write_voxel(&VoxelCoordinates::new(m - 2, 0, 0), voxel);
    }
    terr.write_chunk(&ChunkCoordinates::default(), chunk.clone());
    terr.write_chunk(&ChunkCoordinates::new(1, 0, 0), chunk.clone());

    let encoded = base64::encode(terr.encode());
    println!("{}", encoded);
}

#[test]
fn encode_default_bytes() {
    let mut terr = SmoothGrid::new();
    let mut chunk = Chunk::new_with_base(Material::Air);
    let mut voxel = Voxel::new_with_water(Material::Grass, single(1.0), single(0.5));
    for m in 2..=22 {
        voxel.set_material(Material::try_from(m as u8).unwrap());
        chunk.write_voxel(&VoxelCoordinates::new(m - 2, 0, 0), voxel);
    }
    terr.write_chunk(&ChunkCoordinates::default(), chunk.clone());
    terr.write_chunk(&ChunkCoordinates::new(1, 0, 0), chunk.clone());

    let mut cells: Vec<u8> = Vec::new();
    for m in 2u8..=22 {
        cells.push(m);
    }
    // 32768 - 21 cells of air follow: 127 full runs and one of 235.
    for _ in 0..127 {
        cells.extend([0x80, 0xFF]);
    }
    cells.extend([0x80, 234]);
    assert_eq!(chunk.encode(), cells);

    let mut expected: Vec<u8> = vec![0x01, 0x05];
    expected.extend([0u8; 9]);
    expected.extend(cells.iter());
    expected.extend([0, 0, 0, 0, 0, 0, 1, 0, 0]);
    expected.extend(cells.iter());
    assert_eq!(terr.encode(), expected);
}
