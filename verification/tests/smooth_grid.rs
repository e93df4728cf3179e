use rbx_terrain::Chunk;
use rbx_terrain::ChunkCoordinates;
use rbx_terrain::Material;
use rbx_terrain::Single;
use rbx_terrain::SmoothGrid;
use rbx_terrain::Terrain;
use rbx_terrain::TerrainSerializer;
use rbx_terrain::TerrainVec;
use rbx_terrain::Voxel;
use rbx_terrain::VoxelCoordinates;

fn single(value: f32) -> Single {
    Single::from_bits(value.to_bits())
}

fn step(from: (i32, i32, i32), to: (i32, i32, i32)) -> Vec<u8> {
    SmoothGrid::encode_position_delta(
        &ChunkCoordinates::new(from.0, from.1, from.2),
        &ChunkCoordinates::new(to.0, to.1, to.2),
    )
}

fn uniform(material: Material) -> Vec<u8> {
    [0x80 | material.code(), 0xFF].repeat(128)
}

#[test]
fn an_empty_world_is_its_header() {
    assert_eq!(SmoothGrid::new().encode(), vec![0x01, 0x05]);
    assert_eq!(SmoothGrid::default().encode(), vec![0x01, 0x05]);
    assert_eq!(Terrain::new().encode(), vec![0x01, 0x05]);
}

#[test]
fn the_first_chunk_steps_from_itself() {
    let mut world = SmoothGrid::new();
    world.write_chunk(&ChunkCoordinates::new(17, -4, 90000), Chunk::new());
    let mut expected = vec![0x01u8, 0x05];
    expected.extend([0u8; 9]);
    expected.extend(uniform(Material::Air));
    assert_eq!(world.encode(), expected);
}

#[test]
fn a_step_back_along_x() {
    assert_eq!(step((0, 0, 0), (-1, 0, 0)), vec![0xFF, 0, 0, 0, 0, 0, 1, 0, 0]);
}

#[test]
fn a_step_to_the_same_place_is_zero() {
    assert_eq!(step((5, -6, 7), (5, -6, 7)), vec![0u8; 9]);
}

#[test]
fn short_steps_have_one_sign_plane_and_two_digits() {
    assert_eq!(step((0, 0, 0), (1, 2, 3)), vec![0, 0, 0, 0, 0, 0, 1, 2, 3]);
    assert_eq!(step((0, 0, 0), (-1, 2, -3)), vec![0xFF, 0, 0xFF, 0, 0, 0, 1, 2, 3]);
    assert_eq!(step((0, 0, 0), (255, 0, 0)), vec![0, 0, 0, 0, 0, 0, 255, 0, 0]);
    assert_eq!(step((0, 0, 0), (256, 0, 0)), vec![0, 0, 0, 1, 0, 0, 0, 0, 0]);
    assert_eq!(step((0, 0, 0), (-300, 5, 0)), vec![0xFF, 0, 0, 1, 0, 0, 44, 5, 0]);
    assert_eq!(step((10, 10, 10), (9, 11, 10)), vec![0xFF, 0, 0, 0, 0, 0, 1, 1, 0]);
}

#[test]
fn the_least_width_of_the_axes_counts_the_sign_planes() {
    // Every axis needs two bytes: two sign planes, then the lowest digits.
    assert_eq!(
        step((0, 0, 0), (256, -257, 1000)),
        vec![0, 0xFF, 0, 0, 0xFF, 0, 0, 1, 232]
    );
    // Every axis needs three bytes: three sign planes.
    assert_eq!(
        step((0, 0, 0), (65536, -65536, 100000)),
        vec![0, 0xFF, 0, 0, 0xFF, 0, 0, 0xFF, 0]
    );
    // One axis needs one byte only: one sign plane.
    assert_eq!(
        step((0, 0, 0), (70000, 5, -256)),
        vec![0, 0, 0xFF, 17, 0, 1, 112, 5, 0]
    );
}

#[test]
fn steps_across_the_whole_world() {
    assert_eq!(
        step((-262144, -262144, -262144), (262144, 262144, 262144)),
        vec![0u8; 9]
    );
    assert_eq!(
        step((262144, 0, 0), (-262144, 0, 0)),
        vec![0xFF, 0, 0, 0, 0, 0, 0, 0, 0]
    );
    assert_eq!(
        step((-262144, 0, 0), (262143, 1, 0)),
        vec![0, 0, 0, 0xFF, 0, 0, 0xFF, 1, 0]
    );
}

#[test]
fn chunks_follow_each_other_by_steps() {
    let mut world = SmoothGrid::new();
    world.write_chunk(&ChunkCoordinates::new(0, 0, 0), Chunk::new_with_base(Material::Grass));
    world.write_chunk(&ChunkCoordinates::new(-1, 0, 0), Chunk::new_with_base(Material::Sand));
    let mut expected = vec![0x01u8, 0x05];
    expected.extend([0u8; 9]);
    expected.extend(uniform(Material::Sand));
    expected.extend([0, 0, 0, 0, 0, 0, 1, 0, 0]);
    expected.extend(uniform(Material::Grass));
    assert_eq!(world.encode(), expected);
}

#[test]
fn chunks_are_written_in_ascending_order_whatever_the_order_of_writes() {
    let chunks = [
        ((1, 0, 0), Material::Grass),
        ((0, 0, 0), Material::Sand),
        ((0, 0, 1), Material::Rock),
    ];
    let mut expected = vec![0x01u8, 0x05];
    expected.extend([0u8; 9]);
    expected.extend(uniform(Material::Sand));
    expected.extend([0, 0, 0, 0, 0, 0, 0, 0, 1]);
    expected.extend(uniform(Material::Rock));
    expected.extend([0, 0, 0xFF, 0, 0, 0, 1, 0, 1]);
    expected.extend(uniform(Material::Grass));
    let orders = [[0, 1, 2], [0, 2, 1], [1, 0, 2], [1, 2, 0], [2, 0, 1], [2, 1, 0]];
    for order in orders {
        let mut world = SmoothGrid::new();
        for index in order {
            let ((x, y, z), material) = chunks[index];
            world.write_chunk(&ChunkCoordinates::new(x, y, z), Chunk::new_with_base(material));
        }
        assert_eq!(world.encode(), expected);
        assert_eq!(
            world.positions(),
            vec![
                TerrainVec::new(0, 0, 0),
                TerrainVec::new(0, 0, 1),
                TerrainVec::new(1, 0, 0),
            ]
        );
    }
}

#[test]
fn positions_ascend_by_x_then_y_then_z() {
    let mut world = SmoothGrid::new();
    let mut written = Vec::new();
    for x in [3, -2, 0] {
        for y in [5, -7] {
            for z in [1, 0, -1] {
                world.write_chunk(&ChunkCoordinates::new(x, y, z), Chunk::new());
                written.push(TerrainVec::new(x, y, z));
            }
        }
    }
    written.sort();
    assert_eq!(world.positions(), written);
    assert_eq!(SmoothGrid::new().positions(), Vec::<TerrainVec>::new());
}

#[test]
fn encoding_twice_gives_the_same_bytes() {
    let mut world = SmoothGrid::new();
    for x in -3..3 {
        let mut chunk = Chunk::new_with_base(Material::Grass);
        for index in 0..40 {
            let voxel = Voxel::new_with_water(
                Material::Sand,
                single((index % 5) as f32 / 5.0),
                single((index % 3) as f32 / 3.0),
            );
            chunk.write_voxel(&VoxelCoordinates::new(index, x + 3, 31 - index), voxel);
        }
        world.write_chunk(&ChunkCoordinates::new(x, -x, 7), chunk);
    }
    let first = world.encode();
    assert_eq!(world.encode(), first);
    assert_eq!(world.clone().encode(), first);
    assert_eq!(TerrainSerializer::encode(&world), first);
}

#[test]
fn a_written_chunk_is_found_again() {
    let mut world = SmoothGrid::new();
    let position = ChunkCoordinates::new(1, 2, 3);
    assert_eq!(world.get_chunk(&position), None);
    world.write_chunk(&position, Chunk::new_with_base(Material::Grass));
    assert_eq!(world.get_chunk(&position), Some(&Chunk::new_with_base(Material::Grass)));
    assert_eq!(world.get_chunk(&ChunkCoordinates::new(3, 2, 1)), None);
    world.write_chunk(&position, Chunk::new_with_base(Material::Sand));
    assert_eq!(world.get_chunk(&position), Some(&Chunk::new_with_base(Material::Sand)));
    assert_eq!(world.positions().len(), 1);
}

#[test]
fn a_written_chunk_can_be_changed_in_place() {
    let mut world = SmoothGrid::new();
    let position = ChunkCoordinates::new(1, 2, 3);
    assert!(world.get_chunk_mut(&position).is_none());
    world.write_chunk(&position, Chunk::new_with_base(Material::Grass));
    world.write_chunk(&ChunkCoordinates::new(0, 0, 0), Chunk::new());
    {
        let chunk = world.get_chunk_mut(&position).unwrap();
        assert_eq!(*chunk, Chunk::new_with_base(Material::Grass));
        chunk.set_base(Material::Sand);
        chunk.write_voxel(&VoxelCoordinates::new(0, 0, 0), Voxel::full(Material::Rock));
    }
    let mut expected = Chunk::new_with_base(Material::Sand);
    expected.write_voxel(&VoxelCoordinates::new(0, 0, 0), Voxel::full(Material::Rock));
    assert_eq!(world.get_chunk(&position), Some(&expected));
    assert_eq!(world.get_chunk(&ChunkCoordinates::new(0, 0, 0)), Some(&Chunk::new()));
}

#[test]
fn positions_beyond_the_world_write_to_its_border() {
    let mut world = SmoothGrid::new();
    world.write_chunk(&ChunkCoordinates::new(1_000_000, 0, -1_000_000), Chunk::new());
    assert_eq!(world.positions(), vec![TerrainVec::new(262144, 0, -262144)]);
    assert!(world.get_chunk(&ChunkCoordinates::new(262144, 0, -262144)).is_some());
}
