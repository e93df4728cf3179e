//! Voxel terrain and its compact binary form.
//!
//! A world is a map from chunk positions to chunks, a chunk a cube of
//! 32 by 32 by 32 voxels over a base material, and a voxel a material with
//! the fractions of its cell that solid and water fill. `encode` turns a
//! world into bytes: a header, then chunk after chunk in ascending order of
//! position, each as the step from the chunk before it and the runs of
//! equal voxels it holds.
//!
//! Fractions and vector components are single-precision numbers, which the
//! library holds as their bit patterns (`Single`); every operation on them
//! is integer arithmetic on the pattern.

pub mod chunk;
pub mod coordinates;
pub mod delta;
pub mod material;
pub mod order;
pub mod serializer;
pub mod single;
pub mod smooth_grid;
pub mod voxel;

pub use chunk::Chunk;
pub use chunk::ChunkView;
pub use coordinates::ChunkCoordinates;
pub use coordinates::TerrainVec;
pub use coordinates::Vector3;
pub use coordinates::VoxelCoordinates;
pub use material::InvalidMaterialError;
pub use material::Material;
pub use material::TerrainMaterials;
pub use serializer::TerrainSerializer;
pub use single::Single;
pub use smooth_grid::SmoothGrid;
pub use smooth_grid::Terrain;
pub use voxel::Voxel;
pub use voxel::VoxelView;
