//! Chunk streaming for an endless procedural terrain.
//!
//! The library decides which square terrain chunks exist around a moving
//! viewer, at which level of detail each one is built, turns sampled height
//! data into mesh and texture buffers, and keeps the chunk registry coherent
//! while generation work completes in any order.
//!
//! All quantities are integers: world positions are whole world units,
//! heights are fixed point with `HEIGHT_ONE` standing for a normalized
//! height of `1.0`.

pub mod config;
pub mod coords;
pub mod endless;
pub mod height_map;
pub mod mesh;
pub mod texture;

pub use config::{
    Config, Rgb8, SimplificationLevel, SimplificationThreshold, TerrainThreshold, HEIGHT_ONE,
};
pub use coords::{ChunkCoords, WorldPosition, CHUNK_SIZE, MAP_CHUNK_SIZE};
