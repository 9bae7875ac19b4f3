//! A chunked voxel world: block kinds, chunk storage and terrain fill,
//! boundary-aware face culling, biome selection and the streaming
//! controller that keeps chunks loaded around a viewer.

pub mod biome;
pub mod biomes;
pub mod block;
pub mod chunk;
pub mod coords;
pub mod mesh_builder;
pub mod mesher;
pub mod registry;
pub mod streaming;
pub mod structure;
