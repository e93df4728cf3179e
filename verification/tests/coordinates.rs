use rbx_terrain::ChunkCoordinates;
use rbx_terrain::Single;
use rbx_terrain::TerrainVec;
use rbx_terrain::Vector3;
use rbx_terrain::VoxelCoordinates;

fn vector(x: f32, y: f32, z: f32) -> Vector3 {
    Vector3::new(
        Single::from_bits(x.to_bits()),
        Single::from_bits(y.to_bits()),
        Single::from_bits(z.to_bits()),
    )
}

#[test]
fn terrain_vec_keeps_its_components() {
    let vec = TerrainVec::new(-7, 8, i32::MAX);
    assert_eq!((vec.x, vec.y, vec.z), (-7, 8, i32::MAX));
    assert_eq!(TerrainVec::default(), TerrainVec::new(0, 0, 0));
}

#[test]
fn voxel_coordinates_are_held_to_the_chunk() {
    assert_eq!(VoxelCoordinates::new(99, 0, 0).components().x, 31);
    assert_eq!(VoxelCoordinates::new(-5, 0, 0).components().x, 0);
    assert_eq!(
        VoxelCoordinates::new(32, -1, 31).components(),
        TerrainVec::new(31, 0, 31)
    );
    assert_eq!(
        VoxelCoordinates::new(i32::MAX, i32::MIN, 17).components(),
        TerrainVec::new(31, 0, 17)
    );
    assert_eq!(VoxelCoordinates::new(99, 0, 0), VoxelCoordinates::new(31, 0, 0));
}

#[test]
fn voxel_coordinates_in_the_chunk_stay() {
    for x in 0..32 {
        for y in [0, 13, 31] {
            let position = VoxelCoordinates::new(x, y, 31 - x);
            assert_eq!(position.components(), TerrainVec::new(x, y, 31 - x));
        }
    }
}

#[test]
fn chunk_coordinates_are_held_to_the_world() {
    assert_eq!(
        ChunkCoordinates::new(262145, -262145, 0).components(),
        TerrainVec::new(262144, -262144, 0)
    );
    assert_eq!(
        ChunkCoordinates::new(i32::MAX, i32::MIN, 262144).components(),
        TerrainVec::new(262144, -262144, 262144)
    );
    assert_eq!(
        ChunkCoordinates::new(-262144, 5, -6).components(),
        TerrainVec::new(-262144, 5, -6)
    );
}

#[test]
fn coordinates_from_vectors_are_cut_and_held() {
    assert_eq!(
        TerrainVec::from_vec3(vector(3.7, -3.7, 100.2)),
        TerrainVec::new(3, -3, 100)
    );
    assert_eq!(
        VoxelCoordinates::from_vec3(vector(3.7, -3.7, 100.2)).components(),
        TerrainVec::new(3, 0, 31)
    );
    assert_eq!(
        ChunkCoordinates::from_vec3(vector(3.7, -3.7, 1.0e9)).components(),
        TerrainVec::new(3, -3, 262144)
    );
    assert_eq!(
        ChunkCoordinates::from_vec3(vector(f32::NAN, -1.0e9, 0.0)).components(),
        TerrainVec::new(0, -262144, 0)
    );
}

#[test]
fn default_coordinates_are_the_origin() {
    assert_eq!(VoxelCoordinates::default(), VoxelCoordinates::new(0, 0, 0));
    assert_eq!(ChunkCoordinates::default(), ChunkCoordinates::new(0, 0, 0));
}

#[test]
fn voxels_are_counted_along_x_then_z_then_y() {
    assert_eq!(VoxelCoordinates::new(0, 0, 0).index(), 0);
    assert_eq!(VoxelCoordinates::new(1, 0, 0).index(), 1);
    assert_eq!(VoxelCoordinates::new(0, 0, 1).index(), 32);
    assert_eq!(VoxelCoordinates::new(0, 1, 0).index(), 1024);
    assert_eq!(VoxelCoordinates::new(1, 2, 3).index(), 2 * 1024 + 3 * 32 + 1);
    assert_eq!(VoxelCoordinates::new(31, 31, 31).index(), 32767);
}

#[test]
fn chunk_coordinates_are_ordered_by_x_then_y_then_z() {
    let mut positions = vec![
        ChunkCoordinates::new(1, 0, 0),
        ChunkCoordinates::new(0, 0, 0),
        ChunkCoordinates::new(0, 0, 1),
        ChunkCoordinates::new(0, 1, -5),
        ChunkCoordinates::new(-1, 9, 9),
    ];
    positions.sort();
    assert_eq!(
        positions,
        vec![
            ChunkCoordinates::new(-1, 9, 9),
            ChunkCoordinates::new(0, 0, 0),
            ChunkCoordinates::new(0, 0, 1),
            ChunkCoordinates::new(0, 1, -5),
            ChunkCoordinates::new(1, 0, 0),
        ]
    );
    assert!(TerrainVec::new(0, 5, 5) < TerrainVec::new(1, 0, 0));
    assert!(TerrainVec::new(0, 0, 5) < TerrainVec::new(0, 1, 0));
}

#[test]
fn both_orders_of_coordinates_agree() {
    let components = [-262144, -3, 0, 1, 262144];
    let mut all = Vec::new();
    for x in components {
        for y in components {
            for z in components {
                all.push((x, y, z));
            }
        }
    }
    for first in &all {
        for second in &all {
            let a = TerrainVec::new(first.0, first.1, first.2);
            let b = TerrainVec::new(second.0, second.1, second.2);
            assert_eq!(a.partial_cmp(&b), Some(first.cmp(second)));
            assert_eq!(a.cmp(&b), first.cmp(second));
            assert_eq!(a < b, first < second);
            let a = ChunkCoordinates::new(first.0, first.1, first.2);
            let b = ChunkCoordinates::new(second.0, second.1, second.2);
            assert_eq!(a.partial_cmp(&b), Some(first.cmp(second)));
            assert_eq!(a.cmp(&b), first.cmp(second));
            assert_eq!(a > b, first > second);
        }
    }
}
