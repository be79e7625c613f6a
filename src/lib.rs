//! Deterministic terrain generation and world synchronisation for a 2D
//! side-scrolling mining game.
//!
//! Chunks are built from a fixed base seed and their depth; the terrain store
//! grows ahead of the players, loses single blocks to destruction, and travels
//! between server and clients in a compact binary form.

pub mod biome;
pub mod block;
pub mod chunk;
pub mod codec;
pub mod random;
pub mod seed;
pub mod terrain;

pub use biome::{generate_chunk_biome_change, previous_biome, BiomeType};
pub use block::{Block, BlockType};
pub use chunk::{Chunk, BASE_SEED, CHUNK_HEIGHT, CHUNK_WIDTH};
pub use codec::{DecodeError, CHUNK_BYTES};
pub use random::generate_random_values;
pub use seed::generate_seed;
pub use terrain::{
    block_exists, check_generate_new_chunks, create_surface_chunk, destroy_block, BlockDelete,
    DestroyBlockError, Terrain, WorldDelta, GEN_CHUNKS_AHEAD,
};
