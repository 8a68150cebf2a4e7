//! Chunk streaming and visibility core for a voxel world renderer.
//!
//! A world is a sparse set of chunk columns keyed by integer (x, z)
//! coordinates. Columns are streamed in around the player, meshed one
//! vertical slice per tick (nearest slice first), and culled against the
//! view frustum every frame.

pub mod chunk;
pub mod cull;
pub mod manager;
