//! World storage for a voxel game server: tiles are placed as columns of
//! packed slabs inside chunks, chunks are kept per cluster, and tiles carry
//! small numbers or shared objects at each level of their column. Beside it,
//! the pieces of the renderer that are plain logic: GLSL text for shaders,
//! texture parameters, rectangles.

pub mod chunk;
pub mod cluster;
pub mod config;
pub mod declare;
pub mod layout;
pub mod mesh;
pub mod pass;
pub mod point;
pub mod prelude;
pub mod rectangle;
pub mod shader;
pub mod slab;
pub mod texture;
pub mod tile;
pub mod tiles;
pub mod uniform;
pub mod vector;
