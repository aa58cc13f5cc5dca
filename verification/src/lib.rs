//! Terrain substrate of a cube-chunked voxel world: coordinate transforms
//! between global block space, the chunk grid and chunk-local space, a store
//! of loaded chunks, a streaming controller that loads and unloads chunks
//! around moving observers, and a mesh builder that turns voxel data into
//! renderable geometry with per-face visibility culling.

pub mod block;
pub mod chunk;
pub mod chunk_mesh;
pub mod coords;
pub mod face;
pub mod mesh;
pub mod streaming;
pub mod world;
