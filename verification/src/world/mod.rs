pub mod base;
pub mod chunk;
pub mod generate;
pub mod heightmap;
pub mod pack;
pub mod storage;

pub use base::{make_world, World};
pub use chunk::{PackedChunk, PackedChunkData, UnpackedChunkData, CHUNK_SIZE, CHUNK_VOLUME, MAX_LOD};
pub use generate::{generate_chunk, generate_heightmap};
pub use heightmap::Heightmap;
pub use storage::ChunkStorageCoord;
